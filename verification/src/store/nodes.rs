use vstd::prelude::*;
use crate::keys::text_bytes;
use crate::store::{
    garbles_nothing, is_entry, is_first_above, is_last_below, key_view, stored_attributes,
    stored_deleted, stored_faults, stored_header_keys, stored_headers, stored_likes,
    stored_node_royalties, stored_reactions, stored_replies, stored_tags, stored_updated_at, wrote,
    AttributesRecord, HeaderRecord, Snapshot, Store,
};

verus! {

/// The bytes of the id that bounds a walk, if there is one.
pub open spec fn id_bound(bound: Option<&String>) -> Option<Seq<u8>> {
    match bound {
        Some(id) => Some(text_bytes(id@)),
        None => None,
    }
}

impl<'a> Store<'a> {
    /// `cw_storage_plus::Map::save` on a node's header: the call succeeds, for
    /// a record of this kind can always be written down; the record is stored
    /// under the node's id, the id's bytes are among the header keys, and
    /// nothing else has changed. No record becomes unreadable.
    #[verifier::external_body]
    pub(crate) fn save_header(&mut self, id: &String, record: &HeaderRecord) -> (r: Result<
        (),
        cosmwasm_std::StdError,
    >)
        ensures
            r is Ok,
            wrote(
                r,
                old(self)@,
                final(self)@,
                (Snapshot {
                    headers: stored_headers(*old(self)).insert(id@, record.deep_view()),
                    header_keys: stored_header_keys(*old(self)).insert(text_bytes(id@)),
                    ..old(self)@
                }),
            ),
            garbles_nothing(*old(self), *final(self)),
    {
        cw_storage_plus::Map::<&String, HeaderRecord>::new("nh").save(&mut *self.storage, id, record)
    }

    /// `cw_storage_plus::Map::may_load` on a node's header: what it returns
    /// without error is what is stored under the id, and what is stored is
    /// returned without error.
    #[verifier::external_body]
    pub(crate) fn load_header(&self, id: &String) -> (r: Result<Option<HeaderRecord>, cosmwasm_std::StdError>)
        ensures
            r is Ok ==> is_entry(stored_headers(*self), id@, r->Ok_0.deep_view()),
            stored_headers(*self).contains_key(id@) ==> r is Ok,
            r is Err ==> stored_faults(*self).contains(("nh"@, id@)),
    {
        cw_storage_plus::Map::<&String, HeaderRecord>::new("nh").may_load(&*self.storage, id)
    }

    /// `cw_storage_plus::Map::keys_raw`, ascending from just behind `after`,
    /// and the first item of what it yields: the first header key after the
    /// bound, in the order of the storage's keys.
    #[verifier::external_body]
    pub(crate) fn header_key_above(&self, after: Option<&String>) -> (r: Option<Vec<u8>>)
        ensures
            is_first_above(stored_header_keys(*self), id_bound(after), key_view(r)),
    {
        cw_storage_plus::Map::<&String, HeaderRecord>::new("nh")
            .keys_raw(
                &*self.storage,
                after.map(cw_storage_plus::Bound::exclusive),
                None,
                cosmwasm_std::Order::Ascending,
            )
            .next()
    }

    /// `cw_storage_plus::Map::keys_raw`, descending from just before `before`,
    /// and the first item of what it yields: the last header key before the
    /// bound, in the order of the storage's keys.
    #[verifier::external_body]
    pub(crate) fn header_key_below(&self, before: Option<&String>) -> (r: Option<Vec<u8>>)
        ensures
            is_last_below(stored_header_keys(*self), id_bound(before), key_view(r)),
    {
        cw_storage_plus::Map::<&String, HeaderRecord>::new("nh")
            .keys_raw(
                &*self.storage,
                None,
                before.map(cw_storage_plus::Bound::exclusive),
                cosmwasm_std::Order::Descending,
            )
            .next()
    }

    /// `cw_storage_plus::Map::save` on a node's attributes: the call succeeds,
    /// for a record of this kind can always be written down; the record is
    /// stored under the node's id and nothing else has changed. No record
    /// becomes unreadable.
    #[verifier::external_body]
    pub(crate) fn save_attributes(&mut self, id: &String, record: &AttributesRecord) -> (r: Result<
        (),
        cosmwasm_std::StdError,
    >)
        ensures
            r is Ok,
            wrote(
                r,
                old(self)@,
                final(self)@,
                (Snapshot { attributes: stored_attributes(*old(self)).insert(id@, record.deep_view()), ..old(self)@ }),
            ),
            garbles_nothing(*old(self), *final(self)),
    {
        cw_storage_plus::Map::<&String, AttributesRecord>::new("node_attrs").save(
            &mut *self.storage,
            id,
            record,
        )
    }

    /// `cw_storage_plus::Map::may_load` on a node's attributes: what it returns
    /// without error is what is stored under the id; what is stored is returned
    /// without error, and an error tells of a record that cannot be read back.
    #[verifier::external_body]
    pub(crate) fn load_attributes(&self, id: &String) -> (r: Result<
        Option<AttributesRecord>,
        cosmwasm_std::StdError,
    >)
        ensures
            r is Ok ==> is_entry(stored_attributes(*self), id@, r->Ok_0.deep_view()),
            stored_attributes(*self).contains_key(id@) ==> r is Ok,
            r is Err ==> stored_faults(*self).contains(("node_attrs"@, id@)),
    {
        cw_storage_plus::Map::<&String, AttributesRecord>::new("node_attrs").may_load(&*self.storage, id)
    }

    /// `cw_storage_plus::Map::save` on a node's status: the call succeeds, for
    /// a record of this kind can always be written down; the flag is stored
    /// under the node's id and nothing else has changed. No record becomes
    /// unreadable.
    #[verifier::external_body]
    pub(crate) fn save_deleted(&mut self, id: &String, deleted: bool) -> (r: Result<(), cosmwasm_std::StdError>)
        ensures
            r is Ok,
            wrote(
                r,
                old(self)@,
                final(self)@,
                (Snapshot { deleted: stored_deleted(*old(self)).insert(id@, deleted), ..old(self)@ }),
            ),
            garbles_nothing(*old(self), *final(self)),
    {
        cw_storage_plus::Map::<&String, bool>::new("node_status").save(&mut *self.storage, id, &deleted)
    }

    /// `cw_storage_plus::Map::may_load` on a node's status: what it returns
    /// without error is what is stored under the id, and what is stored is
    /// returned without error.
    #[verifier::external_body]
    pub(crate) fn load_deleted(&self, id: &String) -> (r: Result<Option<bool>, cosmwasm_std::StdError>)
        ensures
            r is Ok ==> is_entry(stored_deleted(*self), id@, r->Ok_0),
            stored_deleted(*self).contains_key(id@) ==> r is Ok,
            r is Err ==> stored_faults(*self).contains(("node_status"@, id@)),
    {
        cw_storage_plus::Map::<&String, bool>::new("node_status").may_load(&*self.storage, id)
    }

    /// `cw_storage_plus::Map::save` on a node's tags: the call succeeds, for a
    /// record of this kind can always be written down; the list is stored under
    /// the node's id and nothing else has changed. No record becomes
    /// unreadable.
    #[verifier::external_body]
    pub(crate) fn save_tags(&mut self, id: &String, tags: &Vec<String>) -> (r: Result<
        (),
        cosmwasm_std::StdError,
    >)
        ensures
            r is Ok,
            wrote(
                r,
                old(self)@,
                final(self)@,
                (Snapshot { tags: stored_tags(*old(self)).insert(id@, tags.deep_view()), ..old(self)@ }),
            ),
            garbles_nothing(*old(self), *final(self)),
    {
        cw_storage_plus::Map::<&String, Vec<String>>::new("node_tags").save(&mut *self.storage, id, tags)
    }

    /// `cw_storage_plus::Map::may_load` on a node's tags: what it returns
    /// without error is what is stored under the id, and what is stored is
    /// returned without error.
    #[verifier::external_body]
    pub(crate) fn load_tags(&self, id: &String) -> (r: Result<Option<Vec<String>>, cosmwasm_std::StdError>)
        ensures
            r is Ok ==> is_entry(stored_tags(*self), id@, r->Ok_0.deep_view()),
            stored_tags(*self).contains_key(id@) ==> r is Ok,
            r is Err ==> stored_faults(*self).contains(("node_tags"@, id@)),
    {
        cw_storage_plus::Map::<&String, Vec<String>>::new("node_tags").may_load(&*self.storage, id)
    }

    /// `cw_storage_plus::Map::save` on a node's time of last change: the call
    /// succeeds, for a record of this kind can always be written down; the time
    /// is stored under the node's id and nothing else has changed. No record
    /// becomes unreadable.
    #[verifier::external_body]
    pub(crate) fn save_updated_at(&mut self, id: &String, time: u64) -> (r: Result<(), cosmwasm_std::StdError>)
        ensures
            r is Ok,
            wrote(
                r,
                old(self)@,
                final(self)@,
                (Snapshot { updated_at: stored_updated_at(*old(self)).insert(id@, time), ..old(self)@ }),
            ),
            garbles_nothing(*old(self), *final(self)),
    {
        cw_storage_plus::Map::<&String, u64>::new("node_t_updated").save(&mut *self.storage, id, &time)
    }

    /// `cw_storage_plus::Map::may_load` on a node's time of last change: what
    /// it returns without error is what is stored under the id; what is stored
    /// is returned without error.
    #[verifier::external_body]
    pub(crate) fn load_updated_at(&self, id: &String) -> (r: Result<Option<u64>, cosmwasm_std::StdError>)
        ensures
            r is Ok ==> is_entry(stored_updated_at(*self), id@, r->Ok_0),
            stored_updated_at(*self).contains_key(id@) ==> r is Ok,
            r is Err ==> stored_faults(*self).contains(("node_t_updated"@, id@)),
    {
        cw_storage_plus::Map::<&String, u64>::new("node_t_updated").may_load(&*self.storage, id)
    }

    /// `cw_storage_plus::Map::save` on a reply counter: the call succeeds, for
    /// a record of this kind can always be written down; the count is stored
    /// under the id and nothing else has changed. No record becomes unreadable.
    #[verifier::external_body]
    pub(crate) fn save_replies(&mut self, id: &String, n: u16) -> (r: Result<(), cosmwasm_std::StdError>)
        ensures
            r is Ok,
            wrote(
                r,
                old(self)@,
                final(self)@,
                (Snapshot { replies: stored_replies(*old(self)).insert(id@, n), ..old(self)@ }),
            ),
            garbles_nothing(*old(self), *final(self)),
    {
        cw_storage_plus::Map::<&String, u16>::new("n_replies").save(&mut *self.storage, id, &n)
    }

    /// `cw_storage_plus::Map::may_load` on a reply counter: what it returns
    /// without error is what is stored under the id, and what is stored is
    /// returned without error.
    #[verifier::external_body]
    pub(crate) fn load_replies(&self, id: &String) -> (r: Result<Option<u16>, cosmwasm_std::StdError>)
        ensures
            r is Ok ==> is_entry(stored_replies(*self), id@, r->Ok_0),
            stored_replies(*self).contains_key(id@) ==> r is Ok,
            r is Err ==> stored_faults(*self).contains(("n_replies"@, id@)),
    {
        cw_storage_plus::Map::<&String, u16>::new("n_replies").may_load(&*self.storage, id)
    }

    /// `cw_storage_plus::Map::may_load` on a reaction counter: what it returns
    /// without error is what is stored under the id, and what is stored is
    /// returned without error.
    #[verifier::external_body]
    pub(crate) fn load_reactions(&self, id: &String) -> (r: Result<Option<u16>, cosmwasm_std::StdError>)
        ensures
            r is Ok ==> is_entry(stored_reactions(*self), id@, r->Ok_0),
            stored_reactions(*self).contains_key(id@) ==> r is Ok,
            r is Err ==> stored_faults(*self).contains(("n_reacts"@, id@)),
    {
        cw_storage_plus::Map::<&String, u16>::new("n_reacts").may_load(&*self.storage, id)
    }

    /// `cw_storage_plus::Map::save` on a like counter: the call succeeds, for a
    /// record of this kind can always be written down; the count is stored
    /// under the id and nothing else has changed. No record becomes unreadable.
    #[verifier::external_body]
    pub(crate) fn save_likes(&mut self, id: &String, n: u32) -> (r: Result<(), cosmwasm_std::StdError>)
        ensures
            r is Ok,
            wrote(
                r,
                old(self)@,
                final(self)@,
                (Snapshot { likes: stored_likes(*old(self)).insert(id@, n), ..old(self)@ }),
            ),
            garbles_nothing(*old(self), *final(self)),
    {
        cw_storage_plus::Map::<&String, u32>::new("n_likes").save(&mut *self.storage, id, &n)
    }

    /// `cw_storage_plus::Map::may_load` on a like counter: what it returns
    /// without error is what is stored under the id, and what is stored is
    /// returned without error.
    #[verifier::external_body]
    pub(crate) fn load_likes(&self, id: &String) -> (r: Result<Option<u32>, cosmwasm_std::StdError>)
        ensures
            r is Ok ==> is_entry(stored_likes(*self), id@, r->Ok_0),
            stored_likes(*self).contains_key(id@) ==> r is Ok,
            r is Err ==> stored_faults(*self).contains(("n_likes"@, id@)),
    {
        cw_storage_plus::Map::<&String, u32>::new("n_likes").may_load(&*self.storage, id)
    }

    /// `cw_storage_plus::Map::remove` on a like counter: afterwards nothing is
    /// stored under the id, and nothing else has changed. No record becomes
    /// unreadable.
    #[verifier::external_body]
    pub(crate) fn remove_likes(&mut self, id: &String)
        ensures
            final(self)@ == (Snapshot { likes: stored_likes(*old(self)).remove(id@), ..old(self)@ }),
            garbles_nothing(*old(self), *final(self)),
    {
        cw_storage_plus::Map::<&String, u32>::new("n_likes").remove(&mut *self.storage, id)
    }

    /// `cw_storage_plus::Map::save` on a node's royalty total: the call
    /// succeeds, for a record of this kind can always be written down; the
    /// amount is stored under the id and nothing else has changed. No record
    /// becomes unreadable.
    #[verifier::external_body]
    pub(crate) fn save_node_royalties(&mut self, id: &String, amount: u128) -> (r: Result<
        (),
        cosmwasm_std::StdError,
    >)
        ensures
            r is Ok,
            wrote(
                r,
                old(self)@,
                final(self)@,
                (Snapshot { node_royalties: stored_node_royalties(*old(self)).insert(id@, amount), ..old(self)@ }),
            ),
            garbles_nothing(*old(self), *final(self)),
    {
        cw_storage_plus::Map::<&String, u128>::new("tip_totals").save(&mut *self.storage, id, &amount)
    }

    /// `cw_storage_plus::Map::may_load` on a node's royalty total: what it
    /// returns without error is what is stored under the id; what is stored is
    /// returned without error.
    #[verifier::external_body]
    pub(crate) fn load_node_royalties(&self, id: &String) -> (r: Result<Option<u128>, cosmwasm_std::StdError>)
        ensures
            r is Ok ==> is_entry(stored_node_royalties(*self), id@, r->Ok_0),
            stored_node_royalties(*self).contains_key(id@) ==> r is Ok,
            r is Err ==> stored_faults(*self).contains(("tip_totals"@, id@)),
    {
        cw_storage_plus::Map::<&String, u128>::new("tip_totals").may_load(&*self.storage, id)
    }
}

} // verus!

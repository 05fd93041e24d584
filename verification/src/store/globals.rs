use vstd::prelude::*;
use crate::store::{
    garbles_nothing, is_entry, stored_config, stored_counters, stored_created_at, stored_created_by,
    stored_faults, stored_operator, stored_royalties, wrote, ConfigRecord, Snapshot, Store,
};

verus! {

impl<'a> Store<'a> {
    /// `cw_storage_plus::Item::save` on the operator's address: the call
    /// succeeds, for a record of this kind can always be written down; the
    /// address is stored and nothing else has changed. No record becomes
    /// unreadable.
    #[verifier::external_body]
    pub(crate) fn save_operator(&mut self, addr: &String) -> (r: Result<(), cosmwasm_std::StdError>)
        ensures
            r is Ok,
            wrote(r, old(self)@, final(self)@, (Snapshot { operator: Some(addr@), ..old(self)@ })),
            garbles_nothing(*old(self), *final(self)),
    {
        cw_storage_plus::Item::<String>::new("op").save(&mut *self.storage, addr)
    }

    /// `cw_storage_plus::Item::may_load` on the operator's address: what it
    /// returns without error is what is stored; what is stored is returned
    /// without error, and an error tells of a record that cannot be read back.
    #[verifier::external_body]
    pub(crate) fn load_operator(&self) -> (r: Result<Option<String>, cosmwasm_std::StdError>)
        ensures
            r is Ok ==> r->Ok_0.deep_view() == stored_operator(*self),
            stored_operator(*self) is Some ==> r is Ok,
            r is Err ==> stored_faults(*self).contains(("op"@, Seq::<char>::empty())),
    {
        cw_storage_plus::Item::<String>::new("op").may_load(&*self.storage)
    }

    /// `cw_storage_plus::Item::save` on the configuration: the call succeeds,
    /// for a record of this kind can always be written down; the record is
    /// stored and nothing else has changed. No record becomes unreadable.
    #[verifier::external_body]
    pub(crate) fn save_config(&mut self, record: &ConfigRecord) -> (r: Result<(), cosmwasm_std::StdError>)
        ensures
            r is Ok,
            wrote(r, old(self)@, final(self)@, (Snapshot { config: Some(record.deep_view()), ..old(self)@ })),
            garbles_nothing(*old(self), *final(self)),
    {
        cw_storage_plus::Item::<ConfigRecord>::new("config").save(&mut *self.storage, record)
    }

    /// `cw_storage_plus::Item::may_load` on the configuration: what it returns
    /// without error is what is stored; what is stored is returned without
    /// error, and an error tells of a record that cannot be read back.
    #[verifier::external_body]
    pub(crate) fn load_config(&self) -> (r: Result<Option<ConfigRecord>, cosmwasm_std::StdError>)
        ensures
            r is Ok ==> r->Ok_0.deep_view() == stored_config(*self),
            stored_config(*self) is Some ==> r is Ok,
            r is Err ==> stored_faults(*self).contains(("config"@, Seq::<char>::empty())),
    {
        cw_storage_plus::Item::<ConfigRecord>::new("config").may_load(&*self.storage)
    }

    /// `cw_storage_plus::Item::save` on the tree's creator: the call succeeds,
    /// for a record of this kind can always be written down; the address is
    /// stored and nothing else has changed. No record becomes unreadable.
    #[verifier::external_body]
    pub(crate) fn save_created_by(&mut self, addr: &String) -> (r: Result<(), cosmwasm_std::StdError>)
        ensures
            r is Ok,
            wrote(r, old(self)@, final(self)@, (Snapshot { created_by: Some(addr@), ..old(self)@ })),
            r is Ok ==> stored_created_by(*final(self)) == Some(addr@),
            garbles_nothing(*old(self), *final(self)),
    {
        cw_storage_plus::Item::<String>::new("created_by").save(&mut *self.storage, addr)
    }

    /// `cw_storage_plus::Item::save` on the tree's creation time: the call
    /// succeeds, for a record of this kind can always be written down; the time
    /// is stored and nothing else has changed. No record becomes unreadable.
    #[verifier::external_body]
    pub(crate) fn save_created_at(&mut self, time: u64) -> (r: Result<(), cosmwasm_std::StdError>)
        ensures
            r is Ok,
            wrote(r, old(self)@, final(self)@, (Snapshot { created_at: Some(time), ..old(self)@ })),
            r is Ok ==> stored_created_at(*final(self)) == Some(time),
            garbles_nothing(*old(self), *final(self)),
    {
        cw_storage_plus::Item::<u64>::new("created_at").save(&mut *self.storage, &time)
    }

    /// `cw_storage_plus::Item::save` on the total of all royalties: the call
    /// succeeds, for a record of this kind can always be written down; the
    /// amount is stored and nothing else has changed. No record becomes
    /// unreadable.
    #[verifier::external_body]
    pub(crate) fn save_royalties(&mut self, amount: u128) -> (r: Result<(), cosmwasm_std::StdError>)
        ensures
            r is Ok,
            wrote(r, old(self)@, final(self)@, (Snapshot { royalties: Some(amount), ..old(self)@ })),
            garbles_nothing(*old(self), *final(self)),
    {
        cw_storage_plus::Item::<u128>::new("total_tip_amount").save(&mut *self.storage, &amount)
    }

    /// `cw_storage_plus::Item::may_load` on the total of all royalties: what it
    /// returns without error is what is stored; what is stored is returned
    /// without error, and an error tells of a record that cannot be read back.
    #[verifier::external_body]
    pub(crate) fn load_royalties(&self) -> (r: Result<Option<u128>, cosmwasm_std::StdError>)
        ensures
            r is Ok ==> r->Ok_0 == stored_royalties(*self),
            stored_royalties(*self) is Some ==> r is Ok,
            r is Err ==> stored_faults(*self).contains(("total_tip_amount"@, Seq::<char>::empty())),
    {
        cw_storage_plus::Item::<u128>::new("total_tip_amount").may_load(&*self.storage)
    }

    /// `cw_storage_plus::Map::save` on a global counter: the call succeeds, for
    /// a record of this kind can always be written down; the counter of that
    /// name holds `n` and nothing else has changed. No record becomes
    /// unreadable.
    #[verifier::external_body]
    pub(crate) fn save_counter(&mut self, name: &str, n: u64) -> (r: Result<(), cosmwasm_std::StdError>)
        ensures
            r is Ok,
            wrote(
                r,
                old(self)@,
                final(self)@,
                (Snapshot { counters: stored_counters(*old(self)).insert(name@, n), ..old(self)@ }),
            ),
            garbles_nothing(*old(self), *final(self)),
    {
        cw_storage_plus::Map::<&str, u64>::new("counters").save(&mut *self.storage, name, &n)
    }

    /// `cw_storage_plus::Map::may_load` on a global counter: what it returns
    /// without error is what is stored under that name; what is stored is
    /// returned without error.
    #[verifier::external_body]
    pub(crate) fn load_counter(&self, name: &str) -> (r: Result<Option<u64>, cosmwasm_std::StdError>)
        ensures
            r is Ok ==> is_entry(stored_counters(*self), name@, r->Ok_0),
            stored_counters(*self).contains_key(name@) ==> r is Ok,
            r is Err ==> stored_faults(*self).contains(("counters"@, name@)),
    {
        cw_storage_plus::Map::<&str, u64>::new("counters").may_load(&*self.storage, name)
    }
}

} // verus!

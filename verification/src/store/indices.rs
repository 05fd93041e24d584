use vstd::prelude::*;
use crate::keys::{fits_segment, pair_key, rank_suffix, ranked_key, segment, text_bytes};
use crate::store::nodes::id_bound;
use crate::store::{
    garbles_nothing, is_first_above, is_last_below, key_view, stored_addr_liked, stored_children,
    stored_liked_by, stored_ranked, stored_tagged, suffixes, wrote, Snapshot, Store,
};

verus! {

/// What follows the first component in the key of the ranked entry that
/// bounds a walk, if there is one.
pub open spec fn rank_bound(bound: Option<(u32, &String)>) -> Option<Seq<u8>> {
    match bound {
        Some((rank, id)) => Some(rank_suffix(rank, id@)),
        None => None,
    }
}

impl<'a> Store<'a> {
    /// `cw_storage_plus::Map::save` on the index of children by parent: the
    /// call succeeds, for a record of this kind can always be written down; the
    /// pair's key is in the index and nothing else has changed. No record
    /// becomes unreadable.
    #[verifier::external_body]
    pub(crate) fn save_child(&mut self, parent: &String, child: &String) -> (r: Result<
        (),
        cosmwasm_std::StdError,
    >)
        requires
            fits_segment(parent@),
        ensures
            r is Ok,
            wrote(
                r,
                old(self)@,
                final(self)@,
                (Snapshot { children: stored_children(*old(self)).insert(pair_key(parent@, child@)), ..old(self)@ }),
            ),
            garbles_nothing(*old(self), *final(self)),
    {
        cw_storage_plus::Map::<(&String, &String), u8>::new("npc").save(
            &mut *self.storage,
            (parent, child),
            &0,
        )
    }

    /// `cw_storage_plus::Map::prefix` and `Prefix::keys_raw`, ascending from
    /// just behind `after`, and the first item of what they yield: among the
    /// keys of `parent`, without their first component, the first after the
    /// bound.
    #[verifier::external_body]
    pub(crate) fn child_above(&self, parent: &String, after: Option<&String>) -> (r: Option<Vec<u8>>)
        requires
            fits_segment(parent@),
        ensures
            is_first_above(
                suffixes(stored_children(*self), segment(text_bytes(parent@))),
                id_bound(after),
                key_view(r),
            ),
    {
        cw_storage_plus::Map::<(&String, &String), u8>::new("npc")
            .prefix(parent)
            .keys_raw(
                &*self.storage,
                after.map(cw_storage_plus::Bound::exclusive),
                None,
                cosmwasm_std::Order::Ascending,
            )
            .next()
    }

    /// `cw_storage_plus::Map::prefix` and `Prefix::keys_raw`, descending from
    /// just before `before`, and the first item of what they yield: among the
    /// keys of `parent`, without their first component, the last before the
    /// bound.
    #[verifier::external_body]
    pub(crate) fn child_below(&self, parent: &String, before: Option<&String>) -> (r: Option<Vec<u8>>)
        requires
            fits_segment(parent@),
        ensures
            is_last_below(
                suffixes(stored_children(*self), segment(text_bytes(parent@))),
                id_bound(before),
                key_view(r),
            ),
    {
        cw_storage_plus::Map::<(&String, &String), u8>::new("npc")
            .prefix(parent)
            .keys_raw(
                &*self.storage,
                None,
                before.map(cw_storage_plus::Bound::exclusive),
                cosmwasm_std::Order::Descending,
            )
            .next()
    }

    /// `cw_storage_plus::Map::keys_raw`, ascending and unbounded, and the first
    /// item of what it yields: the first key of the whole index of children by
    /// parent.
    #[verifier::external_body]
    pub(crate) fn first_child_key(&self) -> (r: Option<Vec<u8>>)
        ensures
            is_first_above(stored_children(*self), None, key_view(r)),
    {
        cw_storage_plus::Map::<(&String, &String), u8>::new("npc")
            .keys_raw(&*self.storage, None, None, cosmwasm_std::Order::Ascending)
            .next()
    }

    /// `cw_storage_plus::Map::keys_raw`, descending and unbounded, and the
    /// first item of what it yields: the last key of the whole index of
    /// children by parent.
    #[verifier::external_body]
    pub(crate) fn last_child_key(&self) -> (r: Option<Vec<u8>>)
        ensures
            is_last_below(stored_children(*self), None, key_view(r)),
    {
        cw_storage_plus::Map::<(&String, &String), u8>::new("npc")
            .keys_raw(&*self.storage, None, None, cosmwasm_std::Order::Descending)
            .next()
    }

    /// `cw_storage_plus::Map::save` on the index of children by rank: the call
    /// succeeds, for a record of this kind can always be written down; the
    /// entry's key is in the index and nothing else has changed. No record
    /// becomes unreadable.
    #[verifier::external_body]
    pub(crate) fn save_ranked(&mut self, parent: &String, rank: u32, child: &String) -> (r: Result<
        (),
        cosmwasm_std::StdError,
    >)
        requires
            fits_segment(parent@),
        ensures
            r is Ok,
            wrote(
                r,
                old(self)@,
                final(self)@,
                (Snapshot { ranked: stored_ranked(*old(self)).insert(ranked_key(parent@, rank, child@)), ..old(self)@ }),
            ),
            garbles_nothing(*old(self), *final(self)),
    {
        cw_storage_plus::Map::<(&String, u32, &String), u8>::new("nrpc").save(
            &mut *self.storage,
            (parent, rank, child),
            &0,
        )
    }

    /// `cw_storage_plus::Map::remove` on the index of children by rank:
    /// afterwards the entry's key is not in the index, and nothing else has
    /// changed. No record becomes unreadable.
    #[verifier::external_body]
    pub(crate) fn remove_ranked(&mut self, parent: &String, rank: u32, child: &String)
        requires
            fits_segment(parent@),
        ensures
            final(self)@ == (Snapshot {
                ranked: stored_ranked(*old(self)).remove(ranked_key(parent@, rank, child@)),
                ..old(self)@
            }),
            garbles_nothing(*old(self), *final(self)),
    {
        cw_storage_plus::Map::<(&String, u32, &String), u8>::new("nrpc").remove(
            &mut *self.storage,
            (parent, rank, child),
        )
    }

    /// `cw_storage_plus::Map::sub_prefix` and `Prefix::keys_raw`, ascending
    /// from just behind `after`, and the first item of what they yield: among
    /// the keys of `parent`, without their first component, the first after the
    /// bound.
    #[verifier::external_body]
    pub(crate) fn ranked_above(&self, parent: &String, after: Option<(u32, &String)>) -> (r: Option<Vec<u8>>)
        requires
            fits_segment(parent@),
        ensures
            is_first_above(
                suffixes(stored_ranked(*self), segment(text_bytes(parent@))),
                rank_bound(after),
                key_view(r),
            ),
    {
        cw_storage_plus::Map::<(&String, u32, &String), u8>::new("nrpc")
            .sub_prefix(parent)
            .keys_raw(
                &*self.storage,
                after.map(cw_storage_plus::Bound::exclusive),
                None,
                cosmwasm_std::Order::Ascending,
            )
            .next()
    }

    /// `cw_storage_plus::Map::sub_prefix` and `Prefix::keys_raw`, descending
    /// from just before `before`, and the first item of what they yield: among
    /// the keys of `parent`, without their first component, the last before
    /// the bound.
    #[verifier::external_body]
    pub(crate) fn ranked_below(&self, parent: &String, before: Option<(u32, &String)>) -> (r: Option<Vec<u8>>)
        requires
            fits_segment(parent@),
        ensures
            is_last_below(
                suffixes(stored_ranked(*self), segment(text_bytes(parent@))),
                rank_bound(before),
                key_view(r),
            ),
    {
        cw_storage_plus::Map::<(&String, u32, &String), u8>::new("nrpc")
            .sub_prefix(parent)
            .keys_raw(
                &*self.storage,
                None,
                before.map(cw_storage_plus::Bound::exclusive),
                cosmwasm_std::Order::Descending,
            )
            .next()
    }

    /// `cw_storage_plus::Map::keys_raw`, ascending and unbounded, and the first
    /// item of what it yields: the first key of the whole index of children by
    /// rank.
    #[verifier::external_body]
    pub(crate) fn first_ranked_key(&self) -> (r: Option<Vec<u8>>)
        ensures
            is_first_above(stored_ranked(*self), None, key_view(r)),
    {
        cw_storage_plus::Map::<(&String, u32, &String), u8>::new("nrpc")
            .keys_raw(&*self.storage, None, None, cosmwasm_std::Order::Ascending)
            .next()
    }

    /// `cw_storage_plus::Map::keys_raw`, descending and unbounded, and the
    /// first item of what it yields: the last key of the whole index of
    /// children by rank.
    #[verifier::external_body]
    pub(crate) fn last_ranked_key(&self) -> (r: Option<Vec<u8>>)
        ensures
            is_last_below(stored_ranked(*self), None, key_view(r)),
    {
        cw_storage_plus::Map::<(&String, u32, &String), u8>::new("nrpc")
            .keys_raw(&*self.storage, None, None, cosmwasm_std::Order::Descending)
            .next()
    }

    /// `cw_storage_plus::Map::save` on the index of nodes by tag: the call
    /// succeeds, for a record of this kind can always be written down; the
    /// entry's key is in the index and nothing else has changed. No record
    /// becomes unreadable.
    #[verifier::external_body]
    pub(crate) fn save_tagged(&mut self, tag: &String, rank: u32, node: &String) -> (r: Result<
        (),
        cosmwasm_std::StdError,
    >)
        requires
            fits_segment(tag@),
        ensures
            r is Ok,
            wrote(
                r,
                old(self)@,
                final(self)@,
                (Snapshot { tagged: stored_tagged(*old(self)).insert(ranked_key(tag@, rank, node@)), ..old(self)@ }),
            ),
            garbles_nothing(*old(self), *final(self)),
    {
        cw_storage_plus::Map::<(&String, u32, &String), u8>::new("tni").save(
            &mut *self.storage,
            (tag, rank, node),
            &0,
        )
    }

    /// `cw_storage_plus::Map::remove` on the index of nodes by tag: afterwards
    /// the entry's key is not in the index, and nothing else has changed. No record becomes
    /// unreadable.
    #[verifier::external_body]
    pub(crate) fn remove_tagged(&mut self, tag: &String, rank: u32, node: &String)
        requires
            fits_segment(tag@),
        ensures
            final(self)@ == (Snapshot {
                tagged: stored_tagged(*old(self)).remove(ranked_key(tag@, rank, node@)),
                ..old(self)@
            }),
            garbles_nothing(*old(self), *final(self)),
    {
        cw_storage_plus::Map::<(&String, u32, &String), u8>::new("tni").remove(
            &mut *self.storage,
            (tag, rank, node),
        )
    }

    /// `cw_storage_plus::Map::sub_prefix` and `Prefix::keys_raw`, ascending
    /// from just behind `after`, and the first item of what they yield: among
    /// the keys of `tag`, without their first component, the first after the
    /// bound.
    #[verifier::external_body]
    pub(crate) fn tagged_above(&self, tag: &String, after: Option<(u32, &String)>) -> (r: Option<Vec<u8>>)
        requires
            fits_segment(tag@),
        ensures
            is_first_above(suffixes(stored_tagged(*self), segment(text_bytes(tag@))), rank_bound(after), key_view(r)),
    {
        cw_storage_plus::Map::<(&String, u32, &String), u8>::new("tni")
            .sub_prefix(tag)
            .keys_raw(
                &*self.storage,
                after.map(cw_storage_plus::Bound::exclusive),
                None,
                cosmwasm_std::Order::Ascending,
            )
            .next()
    }

    /// `cw_storage_plus::Map::sub_prefix` and `Prefix::keys_raw`, descending
    /// from just before `before`, and the first item of what they yield: among
    /// the keys of `tag`, without their first component, the last before the
    /// bound.
    #[verifier::external_body]
    pub(crate) fn tagged_below(&self, tag: &String, before: Option<(u32, &String)>) -> (r: Option<Vec<u8>>)
        requires
            fits_segment(tag@),
        ensures
            is_last_below(
                suffixes(stored_tagged(*self), segment(text_bytes(tag@))),
                rank_bound(before),
                key_view(r),
            ),
    {
        cw_storage_plus::Map::<(&String, u32, &String), u8>::new("tni")
            .sub_prefix(tag)
            .keys_raw(
                &*self.storage,
                None,
                before.map(cw_storage_plus::Bound::exclusive),
                cosmwasm_std::Order::Descending,
            )
            .next()
    }

    /// `cw_storage_plus::Map::has` on the index of liked nodes by liker:
    /// whether the pair's key is in the index.
    #[verifier::external_body]
    pub(crate) fn has_addr_liked(&self, liker: &String, node: &String) -> (r: bool)
        requires
            fits_segment(liker@),
        ensures
            r == stored_addr_liked(*self).contains(pair_key(liker@, node@)),
    {
        cw_storage_plus::Map::<(&String, &String), u8>::new("ali").has(&*self.storage, (liker, node))
    }

    /// `cw_storage_plus::Map::save` on the index of liked nodes by liker: the
    /// call succeeds, for a record of this kind can always be written down; the
    /// pair's key is in the index and nothing else has changed. No record
    /// becomes unreadable.
    #[verifier::external_body]
    pub(crate) fn save_addr_liked(&mut self, liker: &String, node: &String) -> (r: Result<
        (),
        cosmwasm_std::StdError,
    >)
        requires
            fits_segment(liker@),
        ensures
            r is Ok,
            wrote(
                r,
                old(self)@,
                final(self)@,
                (Snapshot { addr_liked: stored_addr_liked(*old(self)).insert(pair_key(liker@, node@)), ..old(self)@ }),
            ),
            garbles_nothing(*old(self), *final(self)),
    {
        cw_storage_plus::Map::<(&String, &String), u8>::new("ali").save(
            &mut *self.storage,
            (liker, node),
            &0,
        )
    }

    /// `cw_storage_plus::Map::remove` on the index of liked nodes by liker:
    /// afterwards the pair's key is not in the index, and nothing else has
    /// changed. No record becomes unreadable.
    #[verifier::external_body]
    pub(crate) fn remove_addr_liked(&mut self, liker: &String, node: &String)
        requires
            fits_segment(liker@),
        ensures
            final(self)@ == (Snapshot {
                addr_liked: stored_addr_liked(*old(self)).remove(pair_key(liker@, node@)),
                ..old(self)@
            }),
            garbles_nothing(*old(self), *final(self)),
    {
        cw_storage_plus::Map::<(&String, &String), u8>::new("ali").remove(&mut *self.storage, (liker, node))
    }

    /// `cw_storage_plus::Map::save` on the index of likers by node: the call
    /// succeeds, for a record of this kind can always be written down; the
    /// pair's key is in the index and nothing else has changed. No record
    /// becomes unreadable.
    #[verifier::external_body]
    pub(crate) fn save_liked_by(&mut self, node: &String, liker: &String) -> (r: Result<
        (),
        cosmwasm_std::StdError,
    >)
        requires
            fits_segment(node@),
        ensures
            r is Ok,
            wrote(
                r,
                old(self)@,
                final(self)@,
                (Snapshot { liked_by: stored_liked_by(*old(self)).insert(pair_key(node@, liker@)), ..old(self)@ }),
            ),
            garbles_nothing(*old(self), *final(self)),
    {
        cw_storage_plus::Map::<(&String, &String), u8>::new("lai").save(
            &mut *self.storage,
            (node, liker),
            &0,
        )
    }

    /// `cw_storage_plus::Map::remove` on the index of likers by node:
    /// afterwards the pair's key is not in the index, and nothing else has
    /// changed. No record becomes unreadable.
    #[verifier::external_body]
    pub(crate) fn remove_liked_by(&mut self, node: &String, liker: &String)
        requires
            fits_segment(node@),
        ensures
            final(self)@ == (Snapshot {
                liked_by: stored_liked_by(*old(self)).remove(pair_key(node@, liker@)),
                ..old(self)@
            }),
            garbles_nothing(*old(self), *final(self)),
    {
        cw_storage_plus::Map::<(&String, &String), u8>::new("lai").remove(&mut *self.storage, (node, liker))
    }
}

} // verus!

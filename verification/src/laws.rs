use vstd::prelude::*;
use crate::error::ContractError;
use crate::paging::{
    comes_before, is_beyond, lemma_finite_is_walkable, lemma_page_covers, lemma_page_ordered, next_key,
    page_end, page_keys,
};
use crate::invariants::is_consistent;
use crate::keys::{
    lemma_bytes_lt_asymmetric, lemma_bytes_lt_behind_prefix, lemma_bytes_lt_irreflexive,
    lemma_bytes_lt_transitive, pair_key, ranked_key, segment, text_bytes,
};
use crate::paging::{is_next, page_limit};
use crate::query::nodes::{chat_count, chat_cursor, chat_first, chat_numbers, listed};
use crate::query::walk::{
    cursor_bound, cursor_parts, page, page_of, pair_of, ranked_of, resumed, walked, Met, Walk,
};
use crate::text::decimal;
use crate::models::NodeView;
use crate::store::Snapshot;
use crate::text::lemma_decimal_round_trip;

verus! {

/// The keys of what a walk has met.
pub open spec fn met_keys(w: Walk, met: Seq<Met>) -> Seq<Seq<u8>> {
    met.map_values(|m: Met| w.key_of((m.rank, m.id)))
}

/// Where a walk that has met `met` goes on: behind its last entry, or at the
/// bound it started from where it has met nothing.
pub open spec fn walk_end(w: Walk, bound: Option<Seq<u8>>, met: Seq<Met>) -> Option<Seq<u8>> {
    if met.len() == 0 {
        bound
    } else {
        Some(w.key_of((met.last().rank, met.last().id)))
    }
}

/// The entries of a page stand for the first keys behind the bound, in the
/// order of the walk.
pub proof fn lemma_walk_keys(s: Snapshot, w: Walk, desc: bool, bound: Option<Seq<u8>>, limit: nat)
    requires
        walked(s, w, desc, bound, limit) is Ok,
    ensures
        met_keys(w, walked(s, w, desc, bound, limit)->Ok_0) == page_keys(w.keys(s), desc, bound, limit),
    decreases limit,
{
    let met = walked(s, w, desc, bound, limit)->Ok_0;
    if limit == 0 {
        assert(met_keys(w, met) =~= page_keys(w.keys(s), desc, bound, limit));
    } else {
        match next_key(w.keys(s), desc, bound) {
            None => {
                assert(met_keys(w, met) =~= page_keys(w.keys(s), desc, bound, limit));
            },
            Some(key) => {
                let (rank, id) = w.entry_of(key)->Some_0;
                assert(w.key_of((rank, id)) == key);
                lemma_walk_keys(s, w, desc, Some(key), (limit - 1) as nat);
                let rest = walked(s, w, desc, Some(key), (limit - 1) as nat)->Ok_0;
                assert(met_keys(w, met) =~= seq![key] + met_keys(w, rest));
            },
        }
    }
}

/// A page holds keys of the index only, all of them behind the bound, each
/// before the next, so none twice.
pub proof fn lemma_page_in_order(s: Snapshot, w: Walk, desc: bool, bound: Option<Seq<u8>>, limit: nat)
    requires
        w.keys(s).finite(),
        walked(s, w, desc, bound, limit) is Ok,
    ensures
        ({
            let keys = met_keys(w, walked(s, w, desc, bound, limit)->Ok_0);
            &&& forall|i: int|
                0 <= i < keys.len() ==> w.keys(s).contains(#[trigger] keys[i]) && is_beyond(
                    desc,
                    bound,
                    keys[i],
                )
            &&& forall|i: int, j: int|
                0 <= i < j < keys.len() ==> comes_before(desc, #[trigger] keys[i], #[trigger] keys[j])
        }),
{
    lemma_walk_keys(s, w, desc, bound, limit);
    lemma_finite_is_walkable(w.keys(s), desc);
    lemma_page_ordered(w.keys(s), desc, bound, limit);
}

/// A page leaves out no key on its way. A key of the index behind the bound
/// is in the page, or the page is full and ends before that key; so a page
/// that is not full holds every key behind the bound.
pub proof fn lemma_page_leaves_nothing_out(
    s: Snapshot,
    w: Walk,
    desc: bool,
    bound: Option<Seq<u8>>,
    limit: nat,
    key: Seq<u8>,
)
    requires
        w.keys(s).finite(),
        walked(s, w, desc, bound, limit) is Ok,
        w.keys(s).contains(key),
        is_beyond(desc, bound, key),
    ensures
        ({
            let met = walked(s, w, desc, bound, limit)->Ok_0;
            met_keys(w, met).contains(key) || (met.len() == limit && is_beyond(
                desc,
                walk_end(w, bound, met),
                key,
            ))
        }),
{
    let met = walked(s, w, desc, bound, limit)->Ok_0;
    lemma_walk_keys(s, w, desc, bound, limit);
    lemma_finite_is_walkable(w.keys(s), desc);
    lemma_page_covers(w.keys(s), desc, bound, limit, key);
    let keys = page_keys(w.keys(s), desc, bound, limit);
    assert(keys.len() == met.len());
    if met.len() > 0 {
        assert(keys.last() == w.key_of((met.last().rank, met.last().id)));
    }
    assert(page_end(bound, keys) == walk_end(w, bound, met));
}

/// The walk behind a full page takes up where the page ended. A page of
/// `limit` entries and the page of `more` entries behind its last one are
/// together the page of `limit + more` entries; an error on the way is the
/// same error.
pub proof fn lemma_walk_continues(
    s: Snapshot,
    w: Walk,
    desc: bool,
    bound: Option<Seq<u8>>,
    limit: nat,
    more: nat,
)
    requires
        walked(s, w, desc, bound, limit) is Ok,
        walked(s, w, desc, bound, limit)->Ok_0.len() == limit,
    ensures
        walked(s, w, desc, bound, limit + more) == ({
            let met = walked(s, w, desc, bound, limit)->Ok_0;
            resumed(met, walked(s, w, desc, walk_end(w, bound, met), more))
        }),
    decreases limit,
{
    let met = walked(s, w, desc, bound, limit)->Ok_0;
    let tail = walked(s, w, desc, walk_end(w, bound, met), more);
    if limit == 0 {
        assert(met =~= Seq::empty());
        if tail is Ok {
            assert(met + tail->Ok_0 =~= tail->Ok_0);
        }
    } else {
        let key = next_key(w.keys(s), desc, bound)->Some_0;
        let (rank, id) = w.entry_of(key)->Some_0;
        let node = s.node(id)->Ok_0;
        let first = Met { rank, id, node };
        let rest = walked(s, w, desc, Some(key), (limit - 1) as nat)->Ok_0;
        assert(met == seq![first] + rest);
        assert(w.key_of((rank, id)) == key);
        lemma_walk_continues(s, w, desc, Some(key), (limit - 1) as nat, more);
        assert(walk_end(w, Some(key), rest) == walk_end(w, bound, met)) by {
            if rest.len() > 0 {
                assert(met.last() == rest.last());
            } else {
                assert(met.last() == first);
            }
        }
        assert(walked(s, w, desc, bound, limit + more) == resumed(
            seq![first],
            walked(s, w, desc, Some(key), (limit - 1 + more) as nat),
        ));
        if tail is Ok {
            assert(seq![first] + (rest + tail->Ok_0) =~= met + tail->Ok_0);
        }
    }
}

/// The cursor behind a page names the page's last entry: read back, it is the
/// bound of the next page.
pub proof fn lemma_cursor_round_trip(ranked: bool, entry: (u32, Seq<char>))
    requires
        !ranked ==> entry.0 == 0,
    ensures
        cursor_bound(ranked, Some(cursor_parts(ranked, entry))) == Ok::<
            Option<(u32, Seq<char>)>,
            ContractError,
        >(Some(entry)),
{
    lemma_decimal_round_trip(entry.0 as nat);
}

/// A full page and the page behind the entry that its cursor names hold
/// together the nodes of the page of both limits, in the same order.
pub proof fn lemma_pages_join(
    s: Snapshot,
    w: Walk,
    desc: bool,
    bound: Option<(u32, Seq<char>)>,
    limit: nat,
    more: nat,
)
    requires
        limit > 0,
        page(s, w, desc, bound, limit) is Ok,
        page(s, w, desc, bound, limit)->Ok_0.0.len() == limit,
        page(s, w, desc, page(s, w, desc, bound, limit)->Ok_0.1, more) is Ok,
    ensures
        page(s, w, desc, bound, limit + more) is Ok,
        page(s, w, desc, bound, limit + more)->Ok_0.0 == page(s, w, desc, bound, limit)->Ok_0.0 + page(
            s,
            w,
            desc,
            page(s, w, desc, bound, limit)->Ok_0.1,
            more,
        )->Ok_0.0,
{
    let start = w.bound_of(bound);
    let met = walked(s, w, desc, start, limit)->Ok_0;
    let last = page_of(met).1;
    lemma_walk_continues(s, w, desc, start, limit, more);
    assert(w.bound_of(last) == walk_end(w, start, met));
    let tail = walked(s, w, desc, walk_end(w, start, met), more)->Ok_0;
    assert((met + tail).map_values(|m: Met| m.node) =~= met.map_values(|m: Met| m.node) + tail.map_values(
        |m: Met| m.node,
    ));
}

/// The entries of a page are those that its keys stand for: so the rank of an
/// entry is zero where the index holds none.
pub proof fn lemma_walk_entries(s: Snapshot, w: Walk, desc: bool, bound: Option<Seq<u8>>, limit: nat)
    requires
        walked(s, w, desc, bound, limit) is Ok,
    ensures
        forall|i: int|
            0 <= i < walked(s, w, desc, bound, limit)->Ok_0.len() ==> !w.is_ranked() ==> (
            #[trigger] walked(s, w, desc, bound, limit)->Ok_0[i]).rank == 0,
    decreases limit,
{
    let met = walked(s, w, desc, bound, limit)->Ok_0;
    if limit > 0 {
        match next_key(w.keys(s), desc, bound) {
            None => {},
            Some(key) => {
                lemma_walk_entries(s, w, desc, Some(key), (limit - 1) as nat);
                let rest = walked(s, w, desc, Some(key), (limit - 1) as nat)->Ok_0;
                assert forall|i: int| 0 <= i < met.len() && !w.is_ranked() implies (#[trigger] met[i]).rank
                    == 0 by {
                    if i > 0 {
                        assert(met[i] == rest[i - 1]);
                    }
                }
            },
        }
    }
}

/// A page that is not full has met the end of the walk: a longer page is the
/// same page, and the page behind it is empty.
pub proof fn lemma_walk_ended(s: Snapshot, w: Walk, desc: bool, bound: Option<Seq<u8>>, limit: nat, more: nat)
    requires
        walked(s, w, desc, bound, limit) is Ok,
        walked(s, w, desc, bound, limit)->Ok_0.len() < limit,
    ensures
        walked(s, w, desc, bound, limit + more) == walked(s, w, desc, bound, limit),
        walked(s, w, desc, walk_end(w, bound, walked(s, w, desc, bound, limit)->Ok_0), more) == Ok::<
            Seq<Met>,
            ContractError,
        >(Seq::empty()),
    decreases limit,
{
    let met = walked(s, w, desc, bound, limit)->Ok_0;
    match next_key(w.keys(s), desc, bound) {
        None => {
            assert(met =~= Seq::empty());
        },
        Some(key) => {
            let (rank, id) = w.entry_of(key)->Some_0;
            let node = s.node(id)->Ok_0;
            let first = Met { rank, id, node };
            let rest = walked(s, w, desc, Some(key), (limit - 1) as nat)->Ok_0;
            assert(met == seq![first] + rest);
            assert(w.key_of((rank, id)) == key);
            lemma_walk_ended(s, w, desc, Some(key), (limit - 1) as nat, more);
            assert(walk_end(w, Some(key), rest) == walk_end(w, bound, met)) by {
                if rest.len() > 0 {
                    assert(met.last() == rest.last());
                } else {
                    assert(met.last() == first);
                }
            }
        },
    }
}

/// Where a query returns a page with a cursor, the page that the same query
/// returns for that cursor follows it without a gap: the nodes of both are
/// the nodes of one page of both limits together.
pub proof fn lemma_next_page_follows(
    s: Snapshot,
    w: Walk,
    limit: u8,
    next_limit: u8,
    desc: bool,
    cursor: Option<Seq<Seq<char>>>,
)
    requires
        listed(s, w, limit, desc, cursor) is Ok,
        listed(s, w, limit, desc, cursor)->Ok_0.cursor is Some,
        listed(s, w, next_limit, desc, listed(s, w, limit, desc, cursor)->Ok_0.cursor) is Ok,
    ensures
        ({
            let first = listed(s, w, limit, desc, cursor)->Ok_0;
            let second = listed(s, w, next_limit, desc, first.cursor)->Ok_0;
            let both = page(
                s,
                w,
                desc,
                cursor_bound(w.is_ranked(), cursor)->Ok_0,
                page_limit(limit) + page_limit(next_limit),
            );
            both is Ok && both->Ok_0.0 == first.nodes + second.nodes
        }),
{
    let bound = cursor_bound(w.is_ranked(), cursor)->Ok_0;
    let start = w.bound_of(bound);
    let n = page_limit(limit);
    let m = page_limit(next_limit);
    let met = walked(s, w, desc, start, n)->Ok_0;
    let last = page_of(met).1->Some_0;
    let first = listed(s, w, limit, desc, cursor)->Ok_0;
    lemma_walk_entries(s, w, desc, start, n);
    assert(met.last().rank == last.0);
    lemma_cursor_round_trip(w.is_ranked(), last);
    assert(first.cursor == Some(cursor_parts(w.is_ranked(), last)));
    assert(w.bound_of(Some(last)) == walk_end(w, start, met));
    let tail = walked(s, w, desc, walk_end(w, start, met), m)->Ok_0;
    if met.len() == n {
        lemma_walk_continues(s, w, desc, start, n, m);
    } else {
        lemma_page_len_of_walk(s, w, desc, start, n);
        lemma_walk_ended(s, w, desc, start, n, m);
        assert(met + tail =~= met);
    }
    assert((met + tail).map_values(|x: Met| x.node) =~= met.map_values(|x: Met| x.node) + tail.map_values(
        |x: Met| x.node,
    ));
}

/// A page holds no more entries than its limit.
pub proof fn lemma_page_len_of_walk(s: Snapshot, w: Walk, desc: bool, bound: Option<Seq<u8>>, limit: nat)
    requires
        walked(s, w, desc, bound, limit) is Ok,
    ensures
        walked(s, w, desc, bound, limit)->Ok_0.len() <= limit,
    decreases limit,
{
    if limit > 0 {
        match next_key(w.keys(s), desc, bound) {
            None => {},
            Some(key) => {
                lemma_page_len_of_walk(s, w, desc, Some(key), (limit - 1) as nat);
            },
        }
    }
}

/// The part of a whole index's keys that stands in front of the keys of a
/// walk.
pub open spec fn walk_prefix(w: Walk) -> Seq<u8> {
    match w {
        Walk::Headers => Seq::empty(),
        Walk::Children(parent) => segment(text_bytes(parent)),
        Walk::Ranked(parent) => segment(text_bytes(parent)),
        Walk::Tagged(tag) => segment(text_bytes(tag)),
    }
}

/// In a consistent store the id of a node tells its key in an index of
/// children: a key of the whole index that ends in the id of an entry of the
/// walk is the key of that entry.
proof fn lemma_id_tells_key(s: Snapshot, w: Walk, entry: (u32, Seq<char>), other: Seq<u8>)
    requires
        is_consistent(s),
        w.fits(),
        !(w is Tagged),
        w.keys(s).contains(w.key_of(entry)),
        w.all_keys(s).contains(other),
        w.id_in(other) == Some(entry.1),
    ensures
        other == walk_prefix(w) + w.key_of(entry),
{
    match w {
        Walk::Headers => {
            assert(walk_prefix(w) + w.key_of(entry) =~= w.key_of(entry));
        },
        Walk::Children(parent) => {
            let (p, c) = pair_of(other)->Some_0;
            assert(s.has_child(p, c));
            assert(pair_key(parent, entry.1) =~= walk_prefix(w) + w.key_of(entry));
            assert(s.has_child(parent, entry.1));
        },
        Walk::Ranked(parent) => {
            let (p, r, c) = ranked_of(other)->Some_0;
            assert(s.has_ranked(p, r, c));
            assert(ranked_key(parent, entry.0, entry.1) =~= walk_prefix(w) + w.key_of(entry));
            assert(s.has_ranked(parent, entry.0, entry.1));
        },
        Walk::Tagged(_) => {},
    }
}

/// In a consistent store, a page without a cursor is the last one. Every key
/// of the walk behind the bound is in that page: nothing is left out.
pub proof fn lemma_no_cursor_is_the_end(
    s: Snapshot,
    w: Walk,
    limit: u8,
    desc: bool,
    cursor: Option<Seq<Seq<char>>>,
    key: Seq<u8>,
)
    requires
        is_consistent(s),
        w.keys(s).finite(),
        w.all_keys(s).finite(),
        limit > 0,
        listed(s, w, limit, desc, cursor) is Ok,
        listed(s, w, limit, desc, cursor)->Ok_0.cursor is None,
        w.keys(s).contains(key),
        is_beyond(desc, w.bound_of(cursor_bound(w.is_ranked(), cursor)->Ok_0), key),
    ensures
        met_keys(
            w,
            walked(
                s,
                w,
                desc,
                w.bound_of(cursor_bound(w.is_ranked(), cursor)->Ok_0),
                page_limit(limit),
            )->Ok_0,
        ).contains(key),
{
    let start = w.bound_of(cursor_bound(w.is_ranked(), cursor)->Ok_0);
    let n = page_limit(limit);
    let met = walked(s, w, desc, start, n)->Ok_0;
    lemma_page_leaves_nothing_out(s, w, desc, start, n, key);
    if !met_keys(w, met).contains(key) {
        // The page is full and ends before the key.
        let last = page_of(met).1->Some_0;
        let last_key = w.key_of(last);
        assert(walk_end(w, start, met) == Some(last_key));
        lemma_page_in_order(s, w, desc, start, n);
        assert(met_keys(w, met)[met.len() - 1] == last_key);
        assert(w.keys(s).contains(last_key));
        // The whole index ends at the page's last key.
        lemma_finite_is_walkable(w.all_keys(s), !desc);
        let end = next_key(w.all_keys(s), !desc, None);
        assert(is_next(w.all_keys(s), !desc, None, end));
        lemma_id_tells_key(s, w, last, end->Some_0);
        let prefix = walk_prefix(w);
        assert(w.all_keys(s).contains(prefix + key)) by {
            if w is Headers {
                assert(prefix + key =~= key);
            }
        }
        lemma_bytes_lt_behind_prefix(prefix, last_key, key);
        lemma_bytes_lt_behind_prefix(prefix, key, last_key);
    }
}

/// In the flat walk over all nodes the cursor behind a page names the page's
/// last number, and the page behind a full page takes up where that one
/// ended, so that both together are the page of both limits; a page that is
/// not full has met the end of the numbers.
pub proof fn lemma_chat_continues(total: u64, desc: bool, cursor: Option<u64>, limit: nat, more: nat)
    requires
        limit > 0,
        chat_numbers(total, desc, cursor, limit).len() == limit,
    ensures
        chat_cursor(Some(decimal(chat_numbers(total, desc, cursor, limit).last() as nat))) == Ok::<
            Option<u64>,
            ContractError,
        >(Some(chat_numbers(total, desc, cursor, limit).last())),
        chat_numbers(total, desc, cursor, limit + more) == chat_numbers(total, desc, cursor, limit)
            + chat_numbers(total, desc, Some(chat_numbers(total, desc, cursor, limit).last()), more),
{
    let page = chat_numbers(total, desc, cursor, limit);
    let last = page.last();
    lemma_decimal_round_trip(last as nat);
    let first = chat_first(total, desc, cursor);
    assert(last == page[limit - 1]);
    let next = chat_numbers(total, desc, Some(last), more);
    let both = chat_numbers(total, desc, cursor, limit + more);
    assert(chat_count(total, desc, cursor, limit + more) == limit + chat_count(
        total,
        desc,
        Some(last),
        more,
    ));
    assert(both =~= page + next);
}

/// A page of the flat walk that is not full is the last one: it ends at the
/// last number in its direction.
pub proof fn lemma_chat_ends(total: u64, desc: bool, cursor: Option<u64>, limit: nat, more: nat)
    requires
        chat_numbers(total, desc, cursor, limit).len() < limit,
    ensures
        chat_numbers(total, desc, cursor, limit + more) == chat_numbers(total, desc, cursor, limit),
{
    assert(chat_numbers(total, desc, cursor, limit + more) =~= chat_numbers(total, desc, cursor, limit));
}


/// Each entry of a page holds the node of its id.
pub proof fn lemma_walk_nodes(s: Snapshot, w: Walk, desc: bool, bound: Option<Seq<u8>>, limit: nat)
    requires
        walked(s, w, desc, bound, limit) is Ok,
    ensures
        forall|i: int|
            0 <= i < walked(s, w, desc, bound, limit)->Ok_0.len() ==> s.node(
                (#[trigger] walked(s, w, desc, bound, limit)->Ok_0[i]).id,
            ) == Ok::<NodeView, ContractError>(walked(s, w, desc, bound, limit)->Ok_0[i].node),
    decreases limit,
{
    let met = walked(s, w, desc, bound, limit)->Ok_0;
    if limit > 0 {
        match next_key(w.keys(s), desc, bound) {
            None => {},
            Some(key) => {
                lemma_walk_nodes(s, w, desc, Some(key), (limit - 1) as nat);
                let rest = walked(s, w, desc, Some(key), (limit - 1) as nat)->Ok_0;
                assert forall|i: int| 0 <= i < met.len() implies s.node((#[trigger] met[i]).id) == Ok::<
                    NodeView,
                    ContractError,
                >(met[i].node) by {
                    if i > 0 {
                        assert(met[i] == rest[i - 1]);
                    }
                }
            },
        }
    }
}

/// In a consistent store the nodes of a page are the nodes walked: each has
/// the id that its key holds; under a parent each has that parent, and by
/// rank each has the count of likes that its key holds.
pub proof fn lemma_page_holds_the_nodes_walked(
    s: Snapshot,
    w: Walk,
    desc: bool,
    bound: Option<Seq<u8>>,
    limit: nat,
)
    requires
        is_consistent(s),
        w.fits(),
        w.keys(s).finite(),
        walked(s, w, desc, bound, limit) is Ok,
    ensures
        forall|i: int|
            0 <= i < walked(s, w, desc, bound, limit)->Ok_0.len() ==> ({
                let m = #[trigger] walked(s, w, desc, bound, limit)->Ok_0[i];
                &&& m.node.id == m.id
                &&& w matches Walk::Children(parent) ==> m.node.parent_id == parent
                &&& w matches Walk::Ranked(parent) ==> m.node.parent_id == parent && m.node.n_likes
                    == m.rank
            }),
{
    let met = walked(s, w, desc, bound, limit)->Ok_0;
    lemma_walk_nodes(s, w, desc, bound, limit);
    lemma_page_in_order(s, w, desc, bound, limit);
    assert forall|i: int| 0 <= i < met.len() implies ({
        let m = #[trigger] met[i];
        &&& m.node.id == m.id
        &&& w matches Walk::Children(parent) ==> m.node.parent_id == parent
        &&& w matches Walk::Ranked(parent) ==> m.node.parent_id == parent && m.node.n_likes == m.rank
    }) by {
        let m = met[i];
        assert(s.node(m.id) == Ok::<NodeView, ContractError>(m.node));
        assert(s.headers.contains_key(m.id));
        let key = met_keys(w, met)[i];
        assert(key == w.key_of((m.rank, m.id)));
        assert(w.keys(s).contains(key));
        match w {
            Walk::Children(parent) => {
                assert(pair_key(parent, m.id) =~= segment(text_bytes(parent)) + key);
                assert(s.has_child(parent, m.id));
            },
            Walk::Ranked(parent) => {
                assert(ranked_key(parent, m.rank, m.id) =~= segment(text_bytes(parent)) + key);
                assert(s.has_ranked(parent, m.rank, m.id));
            },
            _ => {},
        }
    }
}

/// The nodes of successive pages, `pages` of them at most: each page is
/// asked for with the cursor of the one before, and the pages end with the
/// first that has no cursor. With the nodes comes whether the pages have
/// ended.
pub open spec fn paged(
    s: Snapshot,
    w: Walk,
    limit: u8,
    desc: bool,
    cursor: Option<Seq<Seq<char>>>,
    pages: nat,
) -> Result<(Seq<NodeView>, bool), ContractError>
    decreases pages,
{
    if pages == 0 {
        Ok((Seq::empty(), false))
    } else {
        match listed(s, w, limit, desc, cursor) {
            Err(e) => Err(e),
            Ok(page) => match page.cursor {
                None => Ok((page.nodes, true)),
                Some(next) => match paged(s, w, limit, desc, Some(next), (pages - 1) as nat) {
                    Err(e) => Err(e),
                    Ok((rest, ended)) => Ok((page.nodes + rest, ended)),
                },
            },
        }
    }
}

/// A walk behind a bound that no key lies behind meets nothing.
proof fn lemma_walk_of_nothing(s: Snapshot, w: Walk, desc: bool, bound: Option<Seq<u8>>, limit: nat)
    requires
        w.keys(s).finite(),
        forall|key: Seq<u8>| w.keys(s).contains(key) ==> !is_beyond(desc, bound, key),
    ensures
        walked(s, w, desc, bound, limit) == Ok::<Seq<Met>, ContractError>(Seq::empty()),
{
    lemma_finite_is_walkable(w.keys(s), desc);
    let found = next_key(w.keys(s), desc, bound);
    assert(is_next(w.keys(s), desc, bound, found));
    if found is Some {
        assert(w.keys(s).contains(found->Some_0) && is_beyond(desc, bound, found->Some_0));
    }
}

/// Successive pages put together reproduce the index: in a consistent
/// store, the nodes of any number of successive pages, each asked for with
/// the cursor of the one before, are the nodes of one walk behind the first
/// cursor, in the order of the walk, each key once; and where the pages have
/// ended, every key of the index behind the first cursor is among those
/// walked, so that nothing is left out.
#[verifier::rlimit(40)]
pub proof fn lemma_pages_cover_the_index(
    s: Snapshot,
    w: Walk,
    limit: u8,
    desc: bool,
    cursor: Option<Seq<Seq<char>>>,
    pages: nat,
)
    requires
        is_consistent(s),
        w.keys(s).finite(),
        w.all_keys(s).finite(),
        limit > 0,
        cursor_bound(w.is_ranked(), cursor) is Ok,
        paged(s, w, limit, desc, cursor, pages) is Ok,
    ensures
        ({
            let start = w.bound_of(cursor_bound(w.is_ranked(), cursor)->Ok_0);
            let whole = walked(s, w, desc, start, pages * page_limit(limit));
            let (nodes, ended) = paged(s, w, limit, desc, cursor, pages)->Ok_0;
            &&& whole is Ok
            &&& nodes == page_of(whole->Ok_0).0
            &&& ended ==> forall|key: Seq<u8>|
                w.keys(s).contains(key) && is_beyond(desc, start, key) ==> #[trigger] met_keys(
                    w,
                    whole->Ok_0,
                ).contains(key)
        }),
    decreases pages,
{
    let n = page_limit(limit);
    let start = w.bound_of(cursor_bound(w.is_ranked(), cursor)->Ok_0);
    if pages == 0 {
        assert(pages * n == 0) by (nonlinear_arith)
            requires
                pages == 0,
        ;
        assert(page_of(Seq::<Met>::empty()).0 =~= Seq::<NodeView>::empty());
    } else {
        let more = ((pages - 1) * n) as nat;
        assert(pages * n == n + more) by (nonlinear_arith)
            requires
                pages >= 1,
                more == (pages - 1) * n,
        ;
        let first = listed(s, w, limit, desc, cursor)->Ok_0;
        let met = walked(s, w, desc, start, n)->Ok_0;
        lemma_page_len_of_walk(s, w, desc, start, n);
        match first.cursor {
            None => {
                // The first page is the last: no key lies behind it.
                assert forall|key: Seq<u8>|
                    w.keys(s).contains(key) && is_beyond(desc, start, key) implies #[trigger] met_keys(
                    w,
                    met,
                ).contains(key) by {
                    lemma_no_cursor_is_the_end(s, w, limit, desc, cursor, key);
                }
                if met.len() < n {
                    lemma_walk_ended(s, w, desc, start, n, more);
                } else {
                    lemma_page_in_order(s, w, desc, start, n);
                    let end = walk_end(w, start, met);
                    assert forall|key: Seq<u8>| w.keys(s).contains(key) implies !is_beyond(
                        desc,
                        end,
                        key,
                    ) by {
                        if is_beyond(desc, end, key) {
                            lemma_behind_the_page(s, w, desc, start, n, key);
                            let i = choose|i: int|
                                0 <= i < met_keys(w, met).len() && met_keys(w, met)[i] == key;
                            lemma_not_behind_itself(desc, met_keys(w, met), i);
                        }
                    }
                    lemma_walk_of_nothing(s, w, desc, end, more);
                    lemma_walk_continues(s, w, desc, start, n, more);
                    assert(met + Seq::<Met>::empty() =~= met);
                }
            },
            Some(next) => {
                let last = page_of(met).1->Some_0;
                lemma_walk_entries(s, w, desc, start, n);
                assert(met.last().rank == last.0);
                lemma_cursor_round_trip(w.is_ranked(), last);
                assert(next == cursor_parts(w.is_ranked(), last));
                assert(w.bound_of(Some(last)) == walk_end(w, start, met));
                lemma_pages_cover_the_index(s, w, limit, desc, Some(next), (pages - 1) as nat);
                let tail = walked(s, w, desc, walk_end(w, start, met), more)->Ok_0;
                if met.len() == n {
                    lemma_walk_continues(s, w, desc, start, n, more);
                } else {
                    lemma_walk_ended(s, w, desc, start, n, more);
                    assert(met + tail =~= met);
                }
                assert((met + tail).map_values(|x: Met| x.node) =~= met.map_values(|x: Met| x.node)
                    + tail.map_values(|x: Met| x.node));
                let (rest, ended) = paged(s, w, limit, desc, Some(next), (pages - 1) as nat)->Ok_0;
                if ended {
                    assert forall|key: Seq<u8>|
                        w.keys(s).contains(key) && is_beyond(desc, start, key) implies #[trigger] met_keys(
                        w,
                        met + tail,
                    ).contains(key) by {
                        lemma_page_leaves_nothing_out(s, w, desc, start, n, key);
                        assert(met_keys(w, met + tail) =~= met_keys(w, met) + met_keys(w, tail));
                        if met_keys(w, met).contains(key) {
                            let i = choose|i: int|
                                0 <= i < met_keys(w, met).len() && met_keys(w, met)[i] == key;
                            assert((met_keys(w, met) + met_keys(w, tail))[i] == key);
                        } else {
                            assert(met_keys(w, tail).contains(key));
                            let j = choose|j: int|
                                0 <= j < met_keys(w, tail).len() && met_keys(w, tail)[j] == key;
                            assert((met_keys(w, met) + met_keys(w, tail))[met.len() + j] == key);
                        }
                    }
                }
            },
        }
    }
}

/// A key of the index behind the end of a full page that holds every key
/// behind its bound is in that page.
proof fn lemma_behind_the_page(s: Snapshot, w: Walk, desc: bool, start: Option<Seq<u8>>, n: nat, key: Seq<u8>)
    requires
        w.keys(s).finite(),
        walked(s, w, desc, start, n) is Ok,
        walked(s, w, desc, start, n)->Ok_0.len() == n,
        n > 0,
        w.keys(s).contains(key),
        is_beyond(desc, walk_end(w, start, walked(s, w, desc, start, n)->Ok_0), key),
        forall|k: Seq<u8>|
            w.keys(s).contains(k) && is_beyond(desc, start, k) ==> #[trigger] met_keys(
                w,
                walked(s, w, desc, start, n)->Ok_0,
            ).contains(k),
    ensures
        met_keys(w, walked(s, w, desc, start, n)->Ok_0).contains(key),
{
    let met = walked(s, w, desc, start, n)->Ok_0;
    lemma_page_in_order(s, w, desc, start, n);
    let keys = met_keys(w, met);
    let last = keys[n - 1];
    assert(last == w.key_of((met.last().rank, met.last().id)));
    assert(is_beyond(desc, start, last));
    if start is Some {
        if desc {
            lemma_bytes_lt_transitive(key, last, start->Some_0);
        } else {
            lemma_bytes_lt_transitive(start->Some_0, last, key);
        }
    }
}

/// No key of a page lies behind the page's last key.
proof fn lemma_not_behind_itself(desc: bool, keys: Seq<Seq<u8>>, i: int)
    requires
        0 <= i < keys.len(),
        forall|a: int, b: int| 0 <= a < b < keys.len() ==> comes_before(desc, #[trigger] keys[a], #[trigger] keys[b]),
    ensures
        !comes_before(desc, keys.last(), keys[i]),
{
    let last = keys.last();
    if i < keys.len() - 1 {
        assert(comes_before(desc, keys[i], keys[keys.len() - 1]));
        if desc {
            lemma_bytes_lt_asymmetric(last, keys[i]);
        } else {
            lemma_bytes_lt_asymmetric(keys[i], last);
        }
    } else {
        lemma_bytes_lt_irreflexive(last);
    }
}

} // verus!

use vstd::prelude::*;
use vstd::relations::{is_minimal, total_ordering};
use crate::keys::{
    bytes_lt, lemma_bytes_lt_asymmetric, lemma_bytes_lt_irreflexive, lemma_bytes_lt_total,
    lemma_bytes_lt_transitive,
};
use crate::store::{is_above, is_below, is_first_above, is_last_below};

verus! {

/// The most nodes that one page holds.
pub const MAX_LIMIT: u8 = 50;

/// The number of nodes that a page may hold: what was asked for, but no more
/// than `MAX_LIMIT`.
pub fn clamp_limit(limit: u8) -> (r: usize)
    ensures
        r == page_limit(limit),
{
    if limit > MAX_LIMIT {
        MAX_LIMIT as usize
    } else {
        limit as usize
    }
}

/// The number of nodes that a page may hold.
pub open spec fn page_limit(limit: u8) -> nat {
    if limit > MAX_LIMIT {
        MAX_LIMIT as nat
    } else {
        limit as nat
    }
}

/// Whether a walk in the given direction meets `a` before `b`.
pub open spec fn comes_before(desc: bool, a: Seq<u8>, b: Seq<u8>) -> bool {
    if desc {
        bytes_lt(b, a)
    } else {
        bytes_lt(a, b)
    }
}

/// Whether a walk in the given direction that starts behind `bound` meets `k`.
pub open spec fn is_beyond(desc: bool, bound: Option<Seq<u8>>, k: Seq<u8>) -> bool {
    if desc {
        is_below(bound, k)
    } else {
        is_above(bound, k)
    }
}

/// Whether `found` is the first key that a walk behind `bound` meets: the
/// key itself, or nothing where the walk meets none.
pub open spec fn is_next(keys: Set<Seq<u8>>, desc: bool, bound: Option<Seq<u8>>, found: Option<Seq<u8>>) -> bool {
    if desc {
        is_last_below(keys, bound, found)
    } else {
        is_first_above(keys, bound, found)
    }
}

/// The first key that a walk behind `bound` meets.
pub open spec fn next_key(keys: Set<Seq<u8>>, desc: bool, bound: Option<Seq<u8>>) -> Option<Seq<u8>> {
    choose|found: Option<Seq<u8>>| is_next(keys, desc, bound, found)
}

/// Whether every walk over `keys` has a first key or meets none: so it is
/// with the keys of a store, which are finitely many.
pub open spec fn is_walkable(keys: Set<Seq<u8>>, desc: bool) -> bool {
    forall|bound: Option<Seq<u8>>| is_next(keys, desc, bound, #[trigger] next_key(keys, desc, bound))
}

/// The first keys that a walk behind `bound` meets, `limit` of them at most.
pub open spec fn page_keys(keys: Set<Seq<u8>>, desc: bool, bound: Option<Seq<u8>>, limit: nat) -> Seq<
    Seq<u8>,
>
    decreases limit,
{
    if limit == 0 {
        Seq::empty()
    } else {
        match next_key(keys, desc, bound) {
            None => Seq::empty(),
            Some(k) => seq![k] + page_keys(keys, desc, Some(k), (limit - 1) as nat),
        }
    }
}

/// Where a page ended: at its last key, or at the bound it started from
/// where it is empty.
pub open spec fn page_end(bound: Option<Seq<u8>>, page: Seq<Seq<u8>>) -> Option<Seq<u8>> {
    if page.len() == 0 {
        bound
    } else {
        Some(page.last())
    }
}

/// A walk has one first key at most.
pub proof fn lemma_next_unique(
    keys: Set<Seq<u8>>,
    desc: bool,
    bound: Option<Seq<u8>>,
    a: Option<Seq<u8>>,
    b: Option<Seq<u8>>,
)
    requires
        is_next(keys, desc, bound, a),
        is_next(keys, desc, bound, b),
    ensures
        a == b,
{
    if a is Some && b is Some {
        lemma_bytes_lt_total(a->Some_0, b->Some_0);
    }
}

/// What a step of a walk found is the walk's first key.
pub proof fn lemma_next_found(keys: Set<Seq<u8>>, desc: bool, bound: Option<Seq<u8>>, found: Option<Seq<u8>>)
    requires
        is_next(keys, desc, bound, found),
    ensures
        next_key(keys, desc, bound) == found,
{
    lemma_next_unique(keys, desc, bound, found, next_key(keys, desc, bound));
}

/// A page holds no more keys than its limit.
pub proof fn lemma_page_len(keys: Set<Seq<u8>>, desc: bool, bound: Option<Seq<u8>>, limit: nat)
    ensures
        page_keys(keys, desc, bound, limit).len() <= limit,
    decreases limit,
{
    if limit > 0 {
        match next_key(keys, desc, bound) {
            None => {},
            Some(k) => {
                lemma_page_len(keys, desc, Some(k), (limit - 1) as nat);
            },
        }
    }
}

/// A page with one more key allowed is the page and, where it is full, the
/// next key behind its end.
pub proof fn lemma_page_step(keys: Set<Seq<u8>>, desc: bool, bound: Option<Seq<u8>>, limit: nat)
    ensures
        page_keys(keys, desc, bound, limit + 1) == ({
            let page = page_keys(keys, desc, bound, limit);
            if page.len() < limit {
                page
            } else {
                match next_key(keys, desc, page_end(bound, page)) {
                    None => page,
                    Some(k) => page.push(k),
                }
            }
        }),
    decreases limit,
{
    let page = page_keys(keys, desc, bound, limit);
    let longer = page_keys(keys, desc, bound, limit + 1);
    lemma_page_len(keys, desc, bound, limit);
    if limit == 0 {
        match next_key(keys, desc, bound) {
            None => {},
            Some(k) => {
                assert(page_keys(keys, desc, Some(k), 0) =~= Seq::empty());
                assert(longer =~= page.push(k));
            },
        }
    } else {
        match next_key(keys, desc, bound) {
            None => {},
            Some(first) => {
                let rest = page_keys(keys, desc, Some(first), (limit - 1) as nat);
                lemma_page_step(keys, desc, Some(first), (limit - 1) as nat);
                lemma_page_len(keys, desc, Some(first), (limit - 1) as nat);
                assert(page == seq![first] + rest);
                assert(longer == seq![first] + page_keys(keys, desc, Some(first), limit));
                if rest.len() < limit - 1 {
                } else {
                    assert(page_end(Some(first), rest) == page_end(bound, page)) by {
                        if rest.len() > 0 {
                            assert(page.last() == rest.last());
                        }
                    }
                    match next_key(keys, desc, page_end(bound, page)) {
                        None => {},
                        Some(k) => {
                            assert(seq![first] + rest.push(k) =~= page.push(k));
                        },
                    }
                }
            },
        }
    }
}

/// A page that is not full does not grow with its limit.
pub proof fn lemma_page_short(keys: Set<Seq<u8>>, desc: bool, bound: Option<Seq<u8>>, limit: nat, more: nat)
    requires
        page_keys(keys, desc, bound, limit).len() < limit,
    ensures
        page_keys(keys, desc, bound, limit + more) == page_keys(keys, desc, bound, limit),
    decreases more,
{
    if more > 0 {
        lemma_page_short(keys, desc, bound, limit, (more - 1) as nat);
        lemma_page_step(keys, desc, bound, (limit + more - 1) as nat);
    }
}

/// The page behind a full page takes up where that one ended: the two
/// together are the page of both limits together.
pub proof fn lemma_page_continues(
    keys: Set<Seq<u8>>,
    desc: bool,
    bound: Option<Seq<u8>>,
    limit: nat,
    more: nat,
)
    requires
        page_keys(keys, desc, bound, limit).len() == limit,
    ensures
        page_keys(keys, desc, bound, limit + more) == page_keys(keys, desc, bound, limit) + page_keys(
            keys,
            desc,
            page_end(bound, page_keys(keys, desc, bound, limit)),
            more,
        ),
    decreases limit,
{
    let page = page_keys(keys, desc, bound, limit);
    if limit == 0 {
        assert(page =~= Seq::empty());
        assert(page + page_keys(keys, desc, bound, more) =~= page_keys(keys, desc, bound, more));
    } else {
        let first = next_key(keys, desc, bound)->Some_0;
        let rest = page_keys(keys, desc, Some(first), (limit - 1) as nat);
        assert(page == seq![first] + rest);
        lemma_page_continues(keys, desc, Some(first), (limit - 1) as nat, more);
        assert(page_end(Some(first), rest) == page_end(bound, page)) by {
            if rest.len() > 0 {
                assert(page.last() == rest.last());
            }
        }
        let tail = page_keys(keys, desc, page_end(bound, page), more);
        assert(page_keys(keys, desc, bound, limit + more) == seq![first] + page_keys(
            keys,
            desc,
            Some(first),
            (limit - 1 + more) as nat,
        ));
        assert(seq![first] + (rest + tail) =~= page + tail);
    }
}

/// Every key of a page is a key of the index, lies behind the bound, and
/// comes before the keys that follow it in the page: a page holds no key
/// twice.
pub proof fn lemma_page_ordered(keys: Set<Seq<u8>>, desc: bool, bound: Option<Seq<u8>>, limit: nat)
    requires
        is_walkable(keys, desc),
    ensures
        forall|i: int|
            0 <= i < page_keys(keys, desc, bound, limit).len() ==> keys.contains(
                #[trigger] page_keys(keys, desc, bound, limit)[i],
            ) && is_beyond(desc, bound, page_keys(keys, desc, bound, limit)[i]),
        forall|i: int, j: int|
            0 <= i < j < page_keys(keys, desc, bound, limit).len() ==> comes_before(
                desc,
                #[trigger] page_keys(keys, desc, bound, limit)[i],
                #[trigger] page_keys(keys, desc, bound, limit)[j],
            ),
    decreases limit,
{
    let page = page_keys(keys, desc, bound, limit);
    if limit > 0 {
        assert(is_next(keys, desc, bound, next_key(keys, desc, bound)));
        match next_key(keys, desc, bound) {
            None => {},
            Some(first) => {
                let rest = page_keys(keys, desc, Some(first), (limit - 1) as nat);
                lemma_page_ordered(keys, desc, Some(first), (limit - 1) as nat);
                assert(page == seq![first] + rest);
                assert forall|i: int| 0 <= i < page.len() implies keys.contains(#[trigger] page[i])
                    && is_beyond(desc, bound, page[i]) by {
                    if i > 0 {
                        assert(page[i] == rest[i - 1]);
                        assert(is_beyond(desc, Some(first), rest[i - 1]));
                        if bound is Some {
                            if desc {
                                lemma_bytes_lt_transitive(rest[i - 1], first, bound->Some_0);
                            } else {
                                lemma_bytes_lt_transitive(bound->Some_0, first, rest[i - 1]);
                            }
                        }
                    }
                }
                assert forall|i: int, j: int| 0 <= i < j < page.len() implies comes_before(
                    desc,
                    #[trigger] page[i],
                    #[trigger] page[j],
                ) by {
                    assert(page[j] == rest[j - 1]);
                    if i > 0 {
                        assert(page[i] == rest[i - 1]);
                    } else {
                        assert(is_beyond(desc, Some(first), rest[j - 1]));
                    }
                }
            },
        }
    }
}

/// A page leaves out no key in its reach: a key of the index behind the
/// bound is in the page, or the page is full and ends before that key.
pub proof fn lemma_page_covers(keys: Set<Seq<u8>>, desc: bool, bound: Option<Seq<u8>>, limit: nat, k: Seq<u8>)
    requires
        is_walkable(keys, desc),
        keys.contains(k),
        is_beyond(desc, bound, k),
    ensures
        page_keys(keys, desc, bound, limit).contains(k) || (page_keys(keys, desc, bound, limit).len()
            == limit && is_beyond(desc, page_end(bound, page_keys(keys, desc, bound, limit)), k)),
    decreases limit,
{
    let page = page_keys(keys, desc, bound, limit);
    if limit > 0 {
        assert(is_next(keys, desc, bound, next_key(keys, desc, bound)));
        let first = next_key(keys, desc, bound)->Some_0;
        let rest = page_keys(keys, desc, Some(first), (limit - 1) as nat);
        assert(page == seq![first] + rest);
        lemma_bytes_lt_total(first, k);
        if first == k {
            assert(page[0] == k);
        } else {
            assert(is_beyond(desc, Some(first), k));
            lemma_page_covers(keys, desc, Some(first), (limit - 1) as nat, k);
            if rest.contains(k) {
                let i = choose|i: int| 0 <= i < rest.len() && rest[i] == k;
                assert(page[i + 1] == k);
            } else {
                if rest.len() > 0 {
                    assert(page.last() == rest.last());
                }
            }
        }
    } else {
        assert(page =~= Seq::empty());
    }
}

/// Whether a walk in the given direction meets `a` no later than `b`.
pub open spec fn comes_no_later(desc: bool, a: Seq<u8>, b: Seq<u8>) -> bool {
    a == b || comes_before(desc, a, b)
}

/// The keys of a walk are in one line: of any two, one comes no later than
/// the other, and two that come no later than each other are one.
pub proof fn lemma_walk_order_is_total(desc: bool)
    ensures
        total_ordering(|a: Seq<u8>, b: Seq<u8>| comes_no_later(desc, a, b)),
{
    let le = |a: Seq<u8>, b: Seq<u8>| comes_no_later(desc, a, b);
    assert forall|a: Seq<u8>, b: Seq<u8>| #[trigger] le(a, b) && #[trigger] le(b, a) implies a == b by {
        if a != b {
            if desc {
                lemma_bytes_lt_asymmetric(b, a);
            } else {
                lemma_bytes_lt_asymmetric(a, b);
            }
        }
    }
    assert forall|a: Seq<u8>, b: Seq<u8>, c: Seq<u8>| #[trigger] le(a, b) && #[trigger] le(b, c) implies le(
        a,
        c,
    ) by {
        if a != b && b != c {
            if desc {
                lemma_bytes_lt_transitive(c, b, a);
            } else {
                lemma_bytes_lt_transitive(a, b, c);
            }
        }
    }
    assert forall|a: Seq<u8>, b: Seq<u8>| #[trigger] le(a, b) || #[trigger] le(b, a) by {
        lemma_bytes_lt_total(a, b);
    }
}

/// A walk over finitely many keys has a first key or meets none.
pub proof fn lemma_finite_is_walkable(keys: Set<Seq<u8>>, desc: bool)
    requires
        keys.finite(),
    ensures
        is_walkable(keys, desc),
{
    assert forall|bound: Option<Seq<u8>>|
        is_next(keys, desc, bound, #[trigger] next_key(keys, desc, bound)) by {
        let le = |a: Seq<u8>, b: Seq<u8>| comes_no_later(desc, a, b);
        let ahead = keys.filter(|k: Seq<u8>| is_beyond(desc, bound, k));
        keys.lemma_len_filter(|k: Seq<u8>| is_beyond(desc, bound, k));
        if ahead.len() == 0 {
            assert forall|x: Seq<u8>| keys.contains(x) implies !is_beyond(desc, bound, x) by {
                if is_beyond(desc, bound, x) {
                    assert(ahead.contains(x));
                    ahead.lemma_len0_is_empty();
                }
            }
            assert(is_next(keys, desc, bound, None));
        } else {
            lemma_walk_order_is_total(desc);
            ahead.find_unique_minimal_ensures(le);
            let first = ahead.find_unique_minimal(le);
            assert(is_minimal(le, first, ahead));
            assert forall|x: Seq<u8>| keys.contains(x) && is_beyond(desc, bound, x) implies !comes_before(
                desc,
                x,
                first,
            ) by {
                assert(ahead.contains(x));
                if comes_before(desc, x, first) {
                    assert(le(x, first));
                    assert(le(first, x));
                    if desc {
                        lemma_bytes_lt_asymmetric(first, x);
                        lemma_bytes_lt_irreflexive(x);
                    } else {
                        lemma_bytes_lt_asymmetric(x, first);
                        lemma_bytes_lt_irreflexive(x);
                    }
                }
            }
            assert(is_next(keys, desc, bound, Some(first)));
        }
    }
}

} // verus!

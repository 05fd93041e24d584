use vstd::prelude::*;
use crate::execute::like::{like_applied, like_toggled, retagged};
use crate::contract::executed;
use crate::execute::delete::deleted;
use crate::msg::ExecuteMsg;
use crate::execute::tip::tipped;
use crate::keys::{
    fits_segment, lemma_pair_key_injective, lemma_ranked_key_injective, pair_key, ranked_key,
};
use crate::models::{ConfigView, ResponseView};
use crate::msg::NodeInitArgsView;
use crate::state::{
    initialized, lemma_counter_names_differ, new_node_id, node_created, record_header,
    NODE_ID_COUNTER_KEY,
};
use crate::store::Snapshot;
use crate::text::{decimal, lemma_decimal_round_trip, lowercase_all};

verus! {

/// The two directions of the index of likes mirror each other: `liker` is
/// among those who like `node` exactly where `node` is among what `liker`
/// likes.
pub open spec fn likes_mirrored(s: Snapshot) -> bool {
    forall|node: Seq<char>, liker: Seq<char>|
        #![trigger s.has_liked_by(node, liker)]
        #![trigger s.has_addr_liked(liker, node)]
        fits_segment(node) && fits_segment(liker) ==> (s.has_liked_by(node, liker) <==> s.has_addr_liked(
            liker,
            node,
        ))
}

/// The index of children by rank agrees with the like counters:
/// - a stored counter is above zero and belongs to a node;
/// - an entry stands under the parent of its node, at the node's count;
/// - a node with a count above zero has its entry, so that it has exactly
///   one; a node without likes has the entry at rank zero or none;
/// - the parent of a node fits in a key;
/// - the ids behind the id counter are not in use.
pub open spec fn ranks_consistent(s: Snapshot) -> bool {
    &&& forall|c: Seq<char>| #[trigger]
        s.likes.contains_key(c) ==> s.likes[c] > 0 && s.headers.contains_key(c)
    &&& forall|p: Seq<char>, r: u32, c: Seq<char>|
        fits_segment(p) && #[trigger] s.has_ranked(p, r, c) ==> s.headers.contains_key(c) && s.headers[c].1
            == p && r == s.like_count(c)
    &&& forall|c: Seq<char>| #[trigger]
        s.headers.contains_key(c) ==> fits_segment(s.headers[c].1) && (s.like_count(c) > 0
            ==> s.has_ranked(s.headers[c].1, s.like_count(c), c))
    &&& forall|k: nat|
        k > s.counter(NODE_ID_COUNTER_KEY@) ==> !s.headers.contains_key(#[trigger] decimal(k))
}

/// The index of children by parent agrees with the headers: an entry
/// stands under the parent of its node, so that no node is listed under two
/// parents.
pub open spec fn children_consistent(s: Snapshot) -> bool {
    forall|p: Seq<char>, c: Seq<char>|
        fits_segment(p) && #[trigger] s.has_child(p, c) ==> s.headers.contains_key(c) && s.headers[c].1
            == p
}

/// The headers agree with the keys they stand under, and only nodes are
/// liked: a header holds the id it is stored under, and whoever likes
/// something likes a node that has a header.
pub open spec fn nodes_consistent(s: Snapshot) -> bool {
    &&& forall|c: Seq<char>| #[trigger] s.headers.contains_key(c) ==> s.headers[c].0 == c
    &&& forall|l: Seq<char>, n: Seq<char>|
        fits_segment(l) && #[trigger] s.has_addr_liked(l, n) ==> s.headers.contains_key(n)
}

/// Whether the indices of the store agree with its records and with each
/// other.
pub open spec fn is_consistent(s: Snapshot) -> bool {
    likes_mirrored(s) && ranks_consistent(s) && children_consistent(s) && nodes_consistent(s)
}

/// A store that holds nothing.
pub open spec fn is_fresh(s: Snapshot) -> bool {
    &&& s.counters == Map::<Seq<char>, u64>::empty()
    &&& s.headers == Map::<Seq<char>, (Seq<char>, Seq<char>, Seq<char>)>::empty()
    &&& s.likes == Map::<Seq<char>, u32>::empty()
    &&& s.ranked == Set::<Seq<u8>>::empty()
    &&& s.children == Set::<Seq<u8>>::empty()
    &&& s.liked_by == Set::<Seq<u8>>::empty()
    &&& s.addr_liked == Set::<Seq<u8>>::empty()
}

/// A store that holds nothing is consistent.
pub proof fn lemma_fresh_store_is_consistent(s: Snapshot)
    requires
        is_fresh(s),
    ensures
        is_consistent(s),
{
}

/// Two numbers with the same numeral are the same number: no id is given
/// twice.
pub proof fn lemma_decimal_injective(a: nat, b: nat)
    requires
        decimal(a) == decimal(b),
    ensures
        a == b,
{
    lemma_decimal_round_trip(a);
    lemma_decimal_round_trip(b);
}

/// A like or unlike keeps the two directions of the index of likes in step.
pub proof fn lemma_like_keeps_mirror(s: Snapshot, node: Seq<char>, liker: Seq<char>)
    requires
        likes_mirrored(s),
        like_toggled(s, node, liker) is Ok,
    ensures
        likes_mirrored(like_toggled(s, node, liker)->Ok_0.0),
{
    let after = like_toggled(s, node, liker)->Ok_0.0;
    assert forall|n: Seq<char>, l: Seq<char>| fits_segment(n) && fits_segment(l) implies (after.has_liked_by(
        n,
        l,
    ) <==> after.has_addr_liked(l, n)) by {
        assert(s.has_liked_by(n, l) <==> s.has_addr_liked(l, n));
        if pair_key(n, l) == pair_key(node, liker) {
            lemma_pair_key_injective((n, l), (node, liker));
        }
        if pair_key(l, n) == pair_key(liker, node) {
            lemma_pair_key_injective((l, n), (liker, node));
        }
    }
}

/// Creating a node leaves the index of likes as it is.
pub proof fn lemma_create_keeps_mirror(
    s: Snapshot,
    sender: Seq<char>,
    time: u64,
    args: NodeInitArgsView,
    lowered: Seq<Seq<char>>,
)
    requires
        likes_mirrored(s),
        node_created(s, sender, time, args, lowered) is Ok,
    ensures
        likes_mirrored(node_created(s, sender, time, args, lowered)->Ok_0),
{
    let after = node_created(s, sender, time, args, lowered)->Ok_0;
    assert forall|n: Seq<char>, l: Seq<char>| fits_segment(n) && fits_segment(l) implies (after.has_liked_by(
        n,
        l,
    ) <==> after.has_addr_liked(l, n)) by {
        assert(s.has_liked_by(n, l) <==> s.has_addr_liked(l, n));
    }
}

/// The invariants speak of the headers, the id counter, the like counters and
/// the indices of likes and of children: a store that agrees with a
/// consistent one in these is consistent.
pub proof fn lemma_same_indices(s: Snapshot, after: Snapshot)
    requires
        after.headers == s.headers,
        after.counters == s.counters,
        after.likes == s.likes,
        after.ranked == s.ranked,
        after.children == s.children,
        after.liked_by == s.liked_by,
        after.addr_liked == s.addr_liked,
    ensures
        likes_mirrored(s) ==> likes_mirrored(after),
        ranks_consistent(s) ==> ranks_consistent(after),
        children_consistent(s) ==> children_consistent(after),
        nodes_consistent(s) ==> nodes_consistent(after),
{
    if children_consistent(s) {
        assert forall|p: Seq<char>, c: Seq<char>|
            fits_segment(p) && #[trigger] after.has_child(p, c) implies after.headers.contains_key(c)
            && after.headers[c].1 == p by {
            assert(s.has_child(p, c));
        }
    }
    if nodes_consistent(s) {
        assert forall|l: Seq<char>, n: Seq<char>|
            fits_segment(l) && #[trigger] after.has_addr_liked(l, n) implies after.headers.contains_key(
            n,
        ) by {
            assert(s.has_addr_liked(l, n));
        }
    }
    if likes_mirrored(s) {
        assert forall|n: Seq<char>, l: Seq<char>| fits_segment(n) && fits_segment(l) implies (
        after.has_liked_by(n, l) <==> after.has_addr_liked(l, n)) by {
            assert(s.has_liked_by(n, l) <==> s.has_addr_liked(l, n));
        }
    }
    if ranks_consistent(s) {
        assert forall|p: Seq<char>, r: u32, c: Seq<char>|
            fits_segment(p) && #[trigger] after.has_ranked(p, r, c) implies after.headers.contains_key(c)
            && after.headers[c].1 == p && r == after.like_count(c) by {
            assert(s.has_ranked(p, r, c));
        }
        assert forall|c: Seq<char>| #[trigger] after.headers.contains_key(c) implies fits_segment(
            after.headers[c].1,
        ) && (after.like_count(c) > 0 ==> after.has_ranked(after.headers[c].1, after.like_count(c), c)) by {
            assert(s.headers.contains_key(c));
        }
        assert forall|c: Seq<char>| #[trigger] after.likes.contains_key(c) implies after.likes[c] > 0
            && after.headers.contains_key(c) by {
            assert(s.likes.contains_key(c));
        }
        assert(after.counter(NODE_ID_COUNTER_KEY@) == s.counter(NODE_ID_COUNTER_KEY@));
    }
}

/// A tip leaves the indices and the like counters as they are.
pub proof fn lemma_tip_keeps_invariants(
    s: Snapshot,
    resp: ResponseView,
    config: ConfigView,
    creator: Seq<char>,
    tip: Option<u128>,
    node: Seq<char>,
)
    requires
        tipped(s, resp, config, creator, tip, node) is Ok,
    ensures
        likes_mirrored(s) ==> likes_mirrored(tipped(s, resp, config, creator, tip, node)->Ok_0.0),
        ranks_consistent(s) ==> ranks_consistent(tipped(s, resp, config, creator, tip, node)->Ok_0.0),
        children_consistent(s) ==> children_consistent(
            tipped(s, resp, config, creator, tip, node)->Ok_0.0,
        ),
        nodes_consistent(s) ==> nodes_consistent(tipped(s, resp, config, creator, tip, node)->Ok_0.0),
{
    lemma_same_indices(s, tipped(s, resp, config, creator, tip, node)->Ok_0.0);
}

/// Deleting a node changes its status and nothing else.
pub proof fn lemma_delete_keeps_invariants(s: Snapshot, node: Seq<char>)
    requires
        deleted(s, node) is Ok,
    ensures
        likes_mirrored(s) ==> likes_mirrored(deleted(s, node)->Ok_0.0),
        ranks_consistent(s) ==> ranks_consistent(deleted(s, node)->Ok_0.0),
        children_consistent(s) ==> children_consistent(deleted(s, node)->Ok_0.0),
        nodes_consistent(s) ==> nodes_consistent(deleted(s, node)->Ok_0.0),
{
    lemma_same_indices(s, deleted(s, node)->Ok_0.0);
}

/// The first call leaves a consistent store consistent, as creating the root
/// does; so it does a store that holds nothing.
pub proof fn lemma_init_keeps_invariants(
    s: Snapshot,
    sender: Seq<char>,
    time: u64,
    config: ConfigView,
    operator: Option<Seq<char>>,
    root: NodeInitArgsView,
)
    requires
        is_consistent(s),
        initialized(s, sender, time, config, operator, root) is Ok,
    ensures
        is_consistent(initialized(s, sender, time, config, operator, root)->Ok_0),
{
    let args = NodeInitArgsView { parent_id: Seq::empty(), ..root };
    let with_root = node_created(s, sender, time, args, lowercase_all(args.tags_or_none()))->Ok_0;
    lemma_create_keeps_invariants(s, sender, time, args, lowercase_all(args.tags_or_none()));
    lemma_same_indices(with_root, initialized(s, sender, time, config, operator, root)->Ok_0);
}

/// After a like or unlike every node still has one entry at most under its
/// parent, at its count of likes, and has it where the count is above zero.
pub proof fn lemma_like_keeps_ranks(s: Snapshot, node: Seq<char>, liker: Seq<char>)
    requires
        ranks_consistent(s),
        like_toggled(s, node, liker) is Ok,
    ensures
        ranks_consistent(like_toggled(s, node, liker)->Ok_0.0),
{
    let after = like_toggled(s, node, liker)->Ok_0.0;
    let header = record_header(s.headers[node]);
    let parent = header.parent_id;
    let n = s.like_count(node);
    assert(s.headers.contains_key(node));
    assert(after.headers == s.headers);
    assert(after.counters == s.counters);
    assert forall|c: Seq<char>| #[trigger] after.likes.contains_key(c) implies after.likes[c] > 0
        && after.headers.contains_key(c) by {
        if c != node {
            assert(s.likes.contains_key(c));
        }
    }
    assert forall|p: Seq<char>, r: u32, c: Seq<char>|
        fits_segment(p) && #[trigger] after.has_ranked(p, r, c) implies after.headers.contains_key(c)
        && after.headers[c].1 == p && r == after.like_count(c) by {
        let key = ranked_key(p, r, c);
        if s.ranked.contains(key) {
            assert(s.has_ranked(p, r, c));
            if c == node {
                // The node's old entry stays only where the count stays.
                assert(r == n && p == parent);
                let m = after.like_count(node);
                if m != n && key == ranked_key(parent, m, node) {
                    lemma_ranked_key_injective((parent, n, node), (parent, m, node));
                }
            }
        } else {
            // The entry is the one that was put in.
            let m = after.like_count(node);
            assert(key == ranked_key(parent, m, node));
            lemma_ranked_key_injective((p, r, c), (parent, m, node));
        }
    }
    assert forall|c: Seq<char>| #[trigger] after.headers.contains_key(c) implies fits_segment(
        after.headers[c].1,
    ) && (after.like_count(c) > 0 ==> after.has_ranked(after.headers[c].1, after.like_count(c), c)) by {
        assert(s.headers.contains_key(c));
        if c != node && after.like_count(c) > 0 {
            assert(s.has_ranked(s.headers[c].1, s.like_count(c), c));
            if ranked_key(s.headers[c].1, s.like_count(c), c) == ranked_key(parent, n, node) {
                lemma_ranked_key_injective((s.headers[c].1, s.like_count(c), c), (parent, n, node));
            }
        }
    }
}

/// A new node gets an id that was not in use and one entry under its parent,
/// at rank zero.
pub proof fn lemma_create_keeps_ranks(
    s: Snapshot,
    sender: Seq<char>,
    time: u64,
    args: NodeInitArgsView,
    lowered: Seq<Seq<char>>,
)
    requires
        ranks_consistent(s),
        node_created(s, sender, time, args, lowered) is Ok,
    ensures
        ranks_consistent(node_created(s, sender, time, args, lowered)->Ok_0),
{
    let after = node_created(s, sender, time, args, lowered)->Ok_0;
    let id = new_node_id(s);
    let number = (s.counter(NODE_ID_COUNTER_KEY@) + 1) as nat;
    lemma_counter_names_differ();
    assert(after.counter(NODE_ID_COUNTER_KEY@) == number);
    assert(!s.headers.contains_key(decimal(number)));
    assert(!s.likes.contains_key(id));
    assert forall|c: Seq<char>| #[trigger] after.likes.contains_key(c) implies after.likes[c] > 0
        && after.headers.contains_key(c) by {
        assert(s.likes.contains_key(c));
    }
    assert forall|p: Seq<char>, r: u32, c: Seq<char>|
        fits_segment(p) && #[trigger] after.has_ranked(p, r, c) implies after.headers.contains_key(c)
        && after.headers[c].1 == p && r == after.like_count(c) by {
        let key = ranked_key(p, r, c);
        if s.ranked.contains(key) {
            assert(s.has_ranked(p, r, c));
        } else {
            lemma_ranked_key_injective((p, r, c), (args.parent_id, 0u32, id));
        }
    }
    assert forall|c: Seq<char>| #[trigger] after.headers.contains_key(c) implies fits_segment(
        after.headers[c].1,
    ) && (after.like_count(c) > 0 ==> after.has_ranked(after.headers[c].1, after.like_count(c), c)) by {
        if c != id {
            assert(s.headers.contains_key(c));
        }
    }
    assert forall|k: nat| k > after.counter(NODE_ID_COUNTER_KEY@) implies !after.headers.contains_key(
        #[trigger] decimal(k),
    ) by {
        assert(!s.headers.contains_key(decimal(k)));
        if decimal(k) == id {
            lemma_decimal_injective(k, number);
        }
    }
}

/// Creating a node lists it under its parent, and the parent is the one in
/// its header.
pub proof fn lemma_create_keeps_children(
    s: Snapshot,
    sender: Seq<char>,
    time: u64,
    args: NodeInitArgsView,
    lowered: Seq<Seq<char>>,
)
    requires
        ranks_consistent(s),
        children_consistent(s),
        node_created(s, sender, time, args, lowered) is Ok,
    ensures
        children_consistent(node_created(s, sender, time, args, lowered)->Ok_0),
{
    let after = node_created(s, sender, time, args, lowered)->Ok_0;
    let id = new_node_id(s);
    let number = (s.counter(NODE_ID_COUNTER_KEY@) + 1) as nat;
    assert(!s.headers.contains_key(decimal(number)));
    assert forall|p: Seq<char>, c: Seq<char>|
        fits_segment(p) && #[trigger] after.has_child(p, c) implies after.headers.contains_key(c)
        && after.headers[c].1 == p by {
        if s.children.contains(pair_key(p, c)) {
            assert(s.has_child(p, c));
        } else {
            lemma_pair_key_injective((p, c), (args.parent_id, id));
        }
    }
}

/// Creating a node leaves a consistent store consistent.
pub proof fn lemma_create_keeps_invariants(
    s: Snapshot,
    sender: Seq<char>,
    time: u64,
    args: NodeInitArgsView,
    lowered: Seq<Seq<char>>,
)
    requires
        is_consistent(s),
        node_created(s, sender, time, args, lowered) is Ok,
    ensures
        is_consistent(node_created(s, sender, time, args, lowered)->Ok_0),
{
    lemma_create_keeps_mirror(s, sender, time, args, lowered);
    lemma_create_keeps_ranks(s, sender, time, args, lowered);
    lemma_create_keeps_children(s, sender, time, args, lowered);
    let after = node_created(s, sender, time, args, lowered)->Ok_0;
    assert forall|l: Seq<char>, n: Seq<char>|
        fits_segment(l) && #[trigger] after.has_addr_liked(l, n) implies after.headers.contains_key(n) by {
        assert(s.has_addr_liked(l, n));
    }
}

/// A new node is liked by nobody, has no likes, and stands under its parent
/// at rank zero and at no other rank.
pub proof fn lemma_new_node_is_unliked(
    s: Snapshot,
    sender: Seq<char>,
    time: u64,
    args: NodeInitArgsView,
    lowered: Seq<Seq<char>>,
)
    requires
        is_consistent(s),
        node_created(s, sender, time, args, lowered) is Ok,
    ensures
        ({
            let after = node_created(s, sender, time, args, lowered)->Ok_0;
            let id = new_node_id(s);
            &&& after.like_count(id) == 0
            &&& forall|l: Seq<char>| fits_segment(l) ==> !(#[trigger] after.has_addr_liked(l, id))
            &&& forall|r: u32| #[trigger] after.has_ranked(args.parent_id, r, id) <==> r == 0
        }),
{
    let after = node_created(s, sender, time, args, lowered)->Ok_0;
    let id = new_node_id(s);
    let number = (s.counter(NODE_ID_COUNTER_KEY@) + 1) as nat;
    assert(!s.headers.contains_key(decimal(number)));
    assert(!s.likes.contains_key(id));
    assert forall|l: Seq<char>| fits_segment(l) implies !(#[trigger] after.has_addr_liked(l, id)) by {
        if s.has_addr_liked(l, id) {
        }
    }
    assert forall|r: u32| #[trigger] after.has_ranked(args.parent_id, r, id) <==> r == 0 by {
        if after.has_ranked(args.parent_id, r, id) && r != 0 {
            if s.has_ranked(args.parent_id, r, id) {
            } else {
                lemma_ranked_key_injective((args.parent_id, r, id), (args.parent_id, 0u32, id));
            }
        }
    }
}

/// A like or unlike leaves a consistent store consistent.
pub proof fn lemma_like_keeps_invariants(s: Snapshot, node: Seq<char>, liker: Seq<char>)
    requires
        is_consistent(s),
        like_toggled(s, node, liker) is Ok,
    ensures
        is_consistent(like_toggled(s, node, liker)->Ok_0.0),
{
    let after = like_toggled(s, node, liker)->Ok_0.0;
    lemma_like_keeps_mirror(s, node, liker);
    lemma_like_keeps_ranks(s, node, liker);
    assert forall|p: Seq<char>, c: Seq<char>|
        fits_segment(p) && #[trigger] after.has_child(p, c) implies after.headers.contains_key(c)
        && after.headers[c].1 == p by {
        assert(s.has_child(p, c));
    }
    assert forall|l: Seq<char>, n: Seq<char>|
        fits_segment(l) && #[trigger] after.has_addr_liked(l, n) implies after.headers.contains_key(n) by {
        if s.has_addr_liked(l, n) {
        } else {
            lemma_pair_key_injective((l, n), (liker, node));
        }
    }
}

/// Every request that changes the tree leaves a consistent store consistent:
/// the invariants hold between any two calls.
pub proof fn lemma_execute_keeps_invariants(s: Snapshot, sender: Seq<char>, time: u64, msg: ExecuteMsg)
    requires
        is_consistent(s),
        executed(s, sender, time, msg) is Ok,
    ensures
        is_consistent(executed(s, sender, time, msg)->Ok_0.0),
{
    let after = executed(s, sender, time, msg)->Ok_0.0;
    match msg {
        ExecuteMsg::Configure(_) => {
            lemma_same_indices(s, after);
        },
        ExecuteMsg::Reply(args) => {
            lemma_create_keeps_invariants(s, sender, time, args@, lowercase_all(args@.tags_or_none()));
        },
        ExecuteMsg::React(_) => {},
        ExecuteMsg::Like(like) => {
            let config = s.configuration()->Ok_0;
            let (toggled, header) = like_toggled(s, like.node_id@, sender)->Ok_0;
            lemma_like_keeps_invariants(s, like.node_id@, sender);
            lemma_tip_keeps_invariants(
                toggled,
                ResponseView::action("like"@),
                config,
                header.created_by,
                like.tip_amount,
                like.node_id@,
            );
        },
        ExecuteMsg::Tip(tip) => {
            let config = s.configuration()->Ok_0;
            let header = s.header(tip.node_id@)->Ok_0;
            lemma_tip_keeps_invariants(
                s,
                ResponseView::action("tip"@),
                config,
                header.created_by,
                Some(tip.tip_amount),
                tip.node_id@,
            );
        },
        ExecuteMsg::Delete(delete) => {
            lemma_delete_keeps_invariants(s, delete.node_id@);
        },
    }
}

/// A new node gets the numeral of the id counter's next value as its id, and
/// the counter then stands at that value; so the ids of successive nodes are
/// successive numerals, without gaps.
pub proof fn lemma_ids_count_up(
    s: Snapshot,
    sender: Seq<char>,
    time: u64,
    args: NodeInitArgsView,
    lowered: Seq<Seq<char>>,
)
    requires
        node_created(s, sender, time, args, lowered) is Ok,
    ensures
        ({
            let after = node_created(s, sender, time, args, lowered)->Ok_0;
            let id = decimal((s.counter(NODE_ID_COUNTER_KEY@) + 1) as nat);
            &&& after.counter(NODE_ID_COUNTER_KEY@) == s.counter(NODE_ID_COUNTER_KEY@) + 1
            &&& after.headers.contains_key(id)
            &&& after.headers[id] == (id, args.parent_id, sender)
            &&& new_node_id(after) == decimal((s.counter(NODE_ID_COUNTER_KEY@) + 2) as nat)
        }),
{
    lemma_counter_names_differ();
}

/// In a store whose id counter has not been used the first call creates the
/// root as node "1", with the empty id as its parent.
pub proof fn lemma_root_is_one(
    s: Snapshot,
    sender: Seq<char>,
    time: u64,
    config: ConfigView,
    operator: Option<Seq<char>>,
    root: NodeInitArgsView,
)
    requires
        !s.counters.contains_key(NODE_ID_COUNTER_KEY@),
        initialized(s, sender, time, config, operator, root) is Ok,
    ensures
        ({
            let after = initialized(s, sender, time, config, operator, root)->Ok_0;
            &&& after.headers.contains_key("1"@)
            &&& after.headers["1"@] == ("1"@, Seq::<char>::empty(), sender)
            &&& after.counter(NODE_ID_COUNTER_KEY@) == 1
        }),
{
    lemma_counter_names_differ();
    reveal_strlit("1");
    assert(decimal(1) =~= "1"@) by {
        reveal_with_fuel(decimal, 2);
    }
}

/// Whether a like and its unlike, or an unlike and its like, can bring the
/// store back: the node has no tags, for the index by tag follows likes
/// only; a liker who likes the node is counted; one who does not finds the
/// count below its ceiling, and a node without likes has no entry at rank
/// zero, for the unlike would not bring that entry back.
pub open spec fn toggles_back(s: Snapshot, node: Seq<char>, liker: Seq<char>) -> bool {
    &&& s.headers.contains_key(node)
    &&& s.tags.contains_key(node)
    &&& s.tags[node].len() == 0
    &&& if s.has_addr_liked(liker, node) {
        s.like_count(node) > 0
    } else {
        s.like_count(node) < u32::MAX && (s.like_count(node) > 0 || !s.has_ranked(
            s.headers[node].1,
            0,
            node,
        ))
    }
}

/// What a consistent store says of the entries of one node under its parent,
/// at its count of likes and at the counts next to it.
proof fn lemma_entries_around(s: Snapshot, node: Seq<char>, liker: Seq<char>)
    requires
        likes_mirrored(s),
        ranks_consistent(s),
        s.headers.contains_key(node),
        fits_segment(node),
        fits_segment(liker),
    ensures
        fits_segment(s.headers[node].1),
        s.has_liked_by(node, liker) <==> s.has_addr_liked(liker, node),
        s.likes.contains_key(node) ==> s.likes[node] > 0,
        s.like_count(node) > 0 ==> s.has_ranked(s.headers[node].1, s.like_count(node), node),
        forall|r: u32|
            r != s.like_count(node) ==> !s.ranked.contains(
                #[trigger] ranked_key(s.headers[node].1, r, node),
            ),
        forall|r: u32, q: u32|
            r != q ==> #[trigger] ranked_key(s.headers[node].1, r, node) != #[trigger] ranked_key(
                s.headers[node].1,
                q,
                node,
            ),
{
    let parent = s.headers[node].1;
    assert(s.has_liked_by(node, liker) <==> s.has_addr_liked(liker, node));
    assert forall|r: u32| r != s.like_count(node) implies !s.ranked.contains(
        #[trigger] ranked_key(parent, r, node),
    ) by {
        if s.has_ranked(parent, r, node) {
        }
    }
    assert forall|r: u32, q: u32| r != q implies #[trigger] ranked_key(parent, r, node)
        != #[trigger] ranked_key(parent, q, node) by {
        if ranked_key(parent, r, node) == ranked_key(parent, q, node) {
            lemma_ranked_key_injective((parent, r, node), (parent, q, node));
        }
    }
}

/// In a consistent store, two toggles in a row by the same liker on the same
/// node leave the store exactly as it was.
pub proof fn lemma_double_toggle(s: Snapshot, node: Seq<char>, liker: Seq<char>)
    requires
        likes_mirrored(s),
        ranks_consistent(s),
        toggles_back(s, node, liker),
        like_toggled(s, node, liker) is Ok,
    ensures
        like_toggled(like_toggled(s, node, liker)->Ok_0.0, node, liker) is Ok,
        like_toggled(like_toggled(s, node, liker)->Ok_0.0, node, liker)->Ok_0.0 == s,
{
    lemma_entries_around(s, node, liker);
    let header = record_header(s.headers[node]);
    let parent = header.parent_id;
    let n = s.like_count(node);
    let none = Seq::<Seq<char>>::empty();
    assert(lowercase_all(s.tags[node]) =~= none);
    let once = like_applied(s, header, node, liker, none);
    assert(like_toggled(s, node, liker)->Ok_0.0 == once);
    let twice = like_applied(once, header, node, liker, none);
    assert(like_toggled(once, node, liker)->Ok_0.0 == twice);
    let forth = pair_key(liker, node);
    let back = pair_key(node, liker);
    if s.has_addr_liked(liker, node) {
        // Unlike, then like again.
        let m = (n - 1) as u32;
        assert(!once.addr_liked.contains(forth));
        assert(once.like_count(node) == m);
        assert(retagged(once.tagged, none, node, m, n) == once.tagged);
        assert(twice.addr_liked =~= s.addr_liked);
        assert(twice.liked_by =~= s.liked_by);
        assert(twice.likes =~= s.likes);
        assert(s.ranked.contains(ranked_key(parent, n, node)));
        assert(!s.ranked.contains(ranked_key(parent, m, node)));
        assert(twice.ranked =~= s.ranked);
        assert(twice.tagged == s.tagged);
    } else {
        // Like, then unlike.
        let m = (n + 1) as u32;
        assert(once.addr_liked.contains(forth));
        assert(once.like_count(node) == m);
        assert(retagged(s.tagged, none, node, n, m) == s.tagged);
        assert(twice.addr_liked =~= s.addr_liked);
        assert(twice.liked_by =~= s.liked_by);
        assert(twice.likes =~= s.likes);
        assert(!s.ranked.contains(ranked_key(parent, m, node)));
        assert(n > 0 ==> s.ranked.contains(ranked_key(parent, n, node)));
        assert(n == 0 ==> !s.ranked.contains(ranked_key(parent, 0u32, node)));
        assert(twice.ranked =~= s.ranked);
        assert(twice.tagged == s.tagged);
    }
}

} // verus!

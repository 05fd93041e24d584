use vstd::prelude::*;
use crate::error::{answers, storage_result, ContractError};
use crate::models::{nodes_view, Node, NodeStatus, NodeView};
use crate::msg::{
    ChatPageView, ChatPaginationResponse, ChatQueryArgs, NodesByIdQueryArgs, NodesByParentIdQueryArgs,
    NodesByTagQueryArgs, NodesPageView, NodesPaginationResponse, OrderBy,
};
use crate::paging::{clamp_limit, page_limit};
use crate::query::walk::{
    lemma_walk_takes_any_input,
    collect_page, cursor_bound, cursor_parts, end_id, find_end_id, make_cursor, page, parse_cursor, Index,
    Walk,
};
use crate::records::{are_links, record_links};
use crate::state::{
    fits, load_attributes, load_header, record_header, NodeAttributes, NodeHeader, NodeHeaderView,
    NUM_NODES_COUNTER_KEY,
};
use crate::store::{Snapshot, Store};
use crate::text::{
    decimal, decimal_value, format_decimal, is_decimal, lowercase_of, parse_decimal, to_lowercase,
};

verus! {

impl Snapshot {
    /// The node that stands behind a header, put together from its records.
    /// A node without status, tags or attributes is `NotFound`; counters that
    /// are not stored count as zero.
    pub open spec fn node_of(self, header: NodeHeaderView) -> Result<NodeView, ContractError> {
        let id = header.id;
        if !self.deleted.contains_key(id) || !self.tags.contains_key(id) || !self.attributes.contains_key(
            id,
        ) {
            Err(ContractError::NotFound)
        } else if !are_links(self.attributes[id].3) {
            Err(ContractError::Storage)
        } else {
            Ok(
                NodeView {
                    id,
                    status: if self.deleted[id] {
                        NodeStatus::Deleted
                    } else {
                        NodeStatus::Normal
                    },
                    parent_id: header.parent_id,
                    n_replies: if self.replies.contains_key(id) {
                        self.replies[id]
                    } else {
                        0
                    },
                    n_reactions: if self.reactions.contains_key(id) {
                        self.reactions[id]
                    } else {
                        0
                    },
                    n_likes: self.like_count(id),
                    royalties: if self.node_royalties.contains_key(id) {
                        self.node_royalties[id]
                    } else {
                        0
                    },
                    created_by: header.created_by,
                    created_at: self.attributes[id].0,
                    updated_at: if self.updated_at.contains_key(id) {
                        self.updated_at[id]
                    } else {
                        0
                    },
                    title: self.attributes[id].1,
                    body: self.attributes[id].2,
                    links: record_links(self.attributes[id].3),
                    tags: self.tags[id],
                },
            )
        }
    }

    /// The node with the given id: `NotFound` where it has no header.
    pub open spec fn node(self, id: Seq<char>) -> Result<NodeView, ContractError> {
        if self.headers.contains_key(id) {
            self.node_of(record_header(self.headers[id]))
        } else {
            Err(ContractError::NotFound)
        }
    }
}

/// What `build_node` returns: always a node, where it returns without error.
pub open spec fn built(s: Snapshot, header: NodeHeaderView) -> Result<Option<NodeView>, ContractError> {
    match s.node_of(header) {
        Ok(node) => Ok(Some(node)),
        Err(e) => Err(e),
    }
}

/// Puts a node together from its header and its other records.
pub fn build_node(store: &Store, node_header: NodeHeader) -> (r: Result<Option<Node>, ContractError>)
    ensures
        answers(
            match r {
                Ok(Some(node)) => Ok(Some(node@)),
                Ok(None) => Ok(None),
                Err(e) => Err(e),
            },
            built(store@, node_header@),
            store.is_intact(),
        ),
{
    let NodeHeader { id, parent_id, created_by } = node_header;
    let deleted = match storage_result(store.load_deleted(&id))? {
        Some(deleted) => deleted,
        None => {
            return Err(ContractError::NotFound);
        },
    };
    let status = if deleted {
        NodeStatus::Deleted
    } else {
        NodeStatus::Normal
    };
    let updated_at: u64 = match storage_result(store.load_updated_at(&id))? {
        Some(t) => t,
        None => 0,
    };
    let n_replies: u16 = match storage_result(store.load_replies(&id))? {
        Some(n) => n,
        None => 0,
    };
    let n_reactions: u16 = match storage_result(store.load_reactions(&id))? {
        Some(n) => n,
        None => 0,
    };
    let n_likes: u32 = match storage_result(store.load_likes(&id))? {
        Some(n) => n,
        None => 0,
    };
    let royalties: u128 = match storage_result(store.load_node_royalties(&id))? {
        Some(n) => n,
        None => 0,
    };
    let tags = match storage_result(store.load_tags(&id))? {
        Some(tags) => tags,
        None => {
            return Err(ContractError::NotFound);
        },
    };
    let NodeAttributes { created_at, title, body, links } = load_attributes(store, &id)?;
    Ok(
        Some(
            Node {
                id,
                status,
                parent_id,
                n_replies,
                n_reactions,
                n_likes,
                royalties,
                created_by,
                created_at,
                updated_at,
                title,
                body,
                links,
                tags,
            },
        ),
    )
}

/// The cursor behind a page that ended at `last`, where the end of the data
/// is told by the last key of the whole index: none where the page ended at
/// that key's id.
pub open spec fn end_cursor(ranked: bool, last: (u32, Seq<char>), end: Option<Seq<char>>) -> Option<
    Seq<Seq<char>>,
> {
    if end == Some(last.1) {
        None
    } else {
        Some(cursor_parts(ranked, last))
    }
}

/// The cursor behind a page that ended at `last`, where the end of the data
/// is told by the page's size: none where the page is not full.
pub open spec fn full_page_cursor(last: (u32, Seq<char>), count: nat, limit: nat) -> Option<Seq<Seq<char>>> {
    if count == limit {
        Some(cursor_parts(true, last))
    } else {
        None
    }
}

/// A page of nodes and the cursor behind it. The limit is clamped; the
/// cursor bounds the walk on the side it starts from, and is itself left
/// out. An empty page has no cursor. Under a tag a cursor follows every full
/// page; elsewhere a cursor follows unless the page ended at the id of the
/// whole index's last key.
pub open spec fn listed(s: Snapshot, w: Walk, limit: u8, desc: bool, cursor: Option<Seq<Seq<char>>>) -> Result<
    NodesPageView,
    ContractError,
> {
    if !w.fits() {
        Err(ContractError::InvalidInput)
    } else {
        match cursor_bound(w.is_ranked(), cursor) {
            Err(e) => Err(e),
            Ok(bound) => match page(s, w, desc, bound, page_limit(limit)) {
                Err(e) => Err(e),
                Ok((nodes, last)) => match last {
                    None => Ok(NodesPageView { cursor: None, nodes }),
                    Some(entry) => if w is Tagged {
                        Ok(
                            NodesPageView {
                                cursor: full_page_cursor(entry, nodes.len(), page_limit(limit)),
                                nodes,
                            },
                        )
                    } else {
                        match end_id(s, w, desc) {
                            Err(e) => Err(e),
                            Ok(end) => Ok(
                                NodesPageView { cursor: end_cursor(w.is_ranked(), entry, end), nodes },
                            ),
                        }
                    },
                },
            },
        }
    }
}

/// Returns one page of an index, with the cursor for the page behind it.
pub fn list_nodes(store: &Store, index: &Index, limit: u8, desc: bool, cursor: Option<Vec<String>>) -> (r:
    Result<NodesPaginationResponse, ContractError>)
    ensures
        answers(
            match r {
                Ok(page) => Ok(page@),
                Err(e) => Err(e),
            },
            listed(store@, index@, limit, desc, cursor.deep_view()),
            store.is_intact(),
        ),
        listed(store@, index@, limit, desc, cursor.deep_view()) == Err::<NodesPageView, ContractError>(
            ContractError::InvalidInput,
        ) ==> r == Err::<NodesPaginationResponse, ContractError>(ContractError::InvalidInput),
{
    proof {
        let w = index@;
        let bound = cursor_bound(w.is_ranked(), cursor.deep_view());
        if w.fits() && bound is Ok {
            lemma_walk_takes_any_input(store@, w, desc, w.bound_of(bound->Ok_0), page_limit(limit));
        }
    }
    let (fitting, ranked, tagged) = match index {
        Index::Headers => (true, false, false),
        Index::Children(parent) => (fits(parent), false, false),
        Index::Ranked(parent) => (fits(parent), true, false),
        Index::Tagged(tag) => (fits(tag), true, true),
    };
    if !fitting {
        return Err(ContractError::InvalidInput);
    }
    let limit = clamp_limit(limit);
    let bound = parse_cursor(ranked, &cursor)?;
    let (nodes, last) = collect_page(store, index, desc, bound, limit)?;
    let next_cursor: Option<Vec<String>> = match &last {
        None => None,
        Some(entry) => {
            if tagged {
                if nodes.len() == limit {
                    Some(make_cursor(true, entry))
                } else {
                    None
                }
            } else {
                let at_end = match find_end_id(store, index, desc)? {
                    Some(end) => end == entry.1,
                    None => false,
                };
                if at_end {
                    None
                } else {
                    Some(make_cursor(ranked, entry))
                }
            }
        },
    };
    Ok(NodesPaginationResponse { cursor: next_cursor, nodes })
}

/// A page of all nodes, in the order of their ids as keys. The list of ids
/// and the order asked for do not bear on the page.
pub fn query_nodes_by_ids(store: &Store, params: NodesByIdQueryArgs) -> (r: Result<
    NodesPaginationResponse,
    ContractError,
>)
    ensures
        answers(
            match r {
                Ok(page) => Ok(page@),
                Err(e) => Err(e),
            },
            listed(store@, Walk::Headers, params.limit, params.desc, params.cursor.deep_view()),
            store.is_intact(),
        ),
        listed(store@, Walk::Headers, params.limit, params.desc, params.cursor.deep_view()) == Err::<NodesPageView, ContractError>(
            ContractError::InvalidInput,
        ) ==> r == Err::<NodesPaginationResponse, ContractError>(ContractError::InvalidInput),
{
    list_nodes(store, &Index::Headers, params.limit, params.desc, params.cursor)
}

/// The walk that a query for the children of a node takes.
pub open spec fn children_walk(parent: Seq<char>, order_by: OrderBy) -> Walk {
    match order_by {
        OrderBy::Time => Walk::Children(parent),
        OrderBy::Likes => Walk::Ranked(parent),
    }
}

/// A page of the children of a node: in the order of their ids as keys,
/// byte by byte, so that "10" comes before "2"; or by rank and then id.
pub fn query_nodes_by_parent_id(store: &Store, params: NodesByParentIdQueryArgs) -> (r: Result<
    NodesPaginationResponse,
    ContractError,
>)
    ensures
        answers(
            match r {
                Ok(page) => Ok(page@),
                Err(e) => Err(e),
            },
            listed(
                store@,
                children_walk(params.parent_id@, params.order_by),
                params.limit,
                params.desc,
                params.cursor.deep_view(),
            ),
            store.is_intact(),
        ),
        listed(
            store@,
            children_walk(params.parent_id@, params.order_by),
            params.limit,
            params.desc,
            params.cursor.deep_view(),
        ) == Err::<NodesPageView, ContractError>(
            ContractError::InvalidInput,
        ) ==> r == Err::<NodesPaginationResponse, ContractError>(ContractError::InvalidInput),
{
    match params.order_by {
        OrderBy::Time => list_nodes(
            store,
            &Index::Children(&params.parent_id),
            params.limit,
            params.desc,
            params.cursor,
        ),
        OrderBy::Likes => list_nodes(
            store,
            &Index::Ranked(&params.parent_id),
            params.limit,
            params.desc,
            params.cursor,
        ),
    }
}

/// A page of the nodes that carry a tag, by rank and then id. The tag is
/// looked up in lowercase, as it was indexed.
pub fn query_nodes_by_tag(store: &Store, params: NodesByTagQueryArgs) -> (r: Result<
    NodesPaginationResponse,
    ContractError,
>)
    ensures
        answers(
            match r {
                Ok(page) => Ok(page@),
                Err(e) => Err(e),
            },
            listed(
                store@,
                Walk::Tagged(lowercase_of(params.tag@)),
                params.limit,
                params.desc,
                params.cursor.deep_view(),
            ),
            store.is_intact(),
        ),
        listed(
            store@,
            Walk::Tagged(lowercase_of(params.tag@)),
            params.limit,
            params.desc,
            params.cursor.deep_view(),
        ) == Err::<NodesPageView, ContractError>(
            ContractError::InvalidInput,
        ) ==> r == Err::<NodesPaginationResponse, ContractError>(ContractError::InvalidInput),
{
    let tag = to_lowercase(params.tag.as_str());
    list_nodes(store, &Index::Tagged(&tag), params.limit, params.desc, params.cursor)
}

/// The number that a flat walk over all nodes starts with: just behind the
/// cursor, in the walk's direction; without a cursor the first number going
/// up, and the number of all nodes going down.
pub open spec fn chat_first(total: u64, desc: bool, cursor: Option<u64>) -> int {
    if desc {
        match cursor {
            Some(c) => if c - 1 < total {
                c - 1
            } else {
                total as int
            },
            None => total as int,
        }
    } else {
        match cursor {
            Some(c) => c + 1,
            None => 1,
        }
    }
}

/// The number of nodes that a flat walk meets, `limit` at most.
pub open spec fn chat_count(total: u64, desc: bool, cursor: Option<u64>, limit: nat) -> nat {
    let first = chat_first(total, desc, cursor);
    let reach = if desc {
        first
    } else {
        total - first + 1
    };
    if reach <= 0 {
        0
    } else if reach < limit {
        reach as nat
    } else {
        limit
    }
}

/// The numbers of the nodes that a flat walk meets, in the walk's order.
pub open spec fn chat_numbers(total: u64, desc: bool, cursor: Option<u64>, limit: nat) -> Seq<u64> {
    Seq::new(
        chat_count(total, desc, cursor, limit),
        |i: int|
            if desc {
                (chat_first(total, desc, cursor) - i) as u64
            } else {
                (chat_first(total, desc, cursor) + i) as u64
            },
    )
}

/// Where a flat walk starts and how many nodes it meets.
pub fn chat_range(total: u64, desc: bool, cursor: Option<u64>, limit: usize) -> (r: (u64, usize))
    ensures
        r.1 == chat_count(total, desc, cursor, limit as nat),
        r.1 > 0 ==> r.0 == chat_first(total, desc, cursor),
{
    if desc {
        let first: u64 = match cursor {
            Some(c) => if c == 0 {
                return (0, 0);
            } else if c - 1 < total {
                c - 1
            } else {
                total
            },
            None => total,
        };
        if first < limit as u64 {
            (first, first as usize)
        } else {
            (first, limit)
        }
    } else {
        let first: u64 = match cursor {
            Some(c) => if c == u64::MAX {
                return (0, 0);
            } else {
                c + 1
            },
            None => 1,
        };
        if first > total {
            return (first, 0);
        }
        let reach: u64 = total - first + 1;
        if reach < limit as u64 {
            (first, reach as usize)
        } else {
            (first, limit)
        }
    }
}

/// The nodes of the given numbers: the first that is missing is `NotFound`.
pub open spec fn nodes_numbered(s: Snapshot, numbers: Seq<u64>) -> Result<Seq<NodeView>, ContractError>
    decreases numbers.len(),
{
    if numbers.len() == 0 {
        Ok(Seq::empty())
    } else {
        match s.node(decimal(numbers[0] as nat)) {
            Err(e) => Err(e),
            Ok(node) => match nodes_numbered(s, numbers.drop_first()) {
                Err(e) => Err(e),
                Ok(rest) => Ok(seq![node] + rest),
            },
        }
    }
}

/// The number that the cursor of a flat walk names: `InvalidInput` where it
/// is no numeral of 64 bits.
pub open spec fn chat_cursor(cursor: Option<Seq<char>>) -> Result<Option<u64>, ContractError> {
    match cursor {
        None => Ok(None),
        Some(text) => if is_decimal(text) && decimal_value(text) <= u64::MAX {
            Ok(Some(decimal_value(text) as u64))
        } else {
            Err(ContractError::InvalidInput)
        },
    }
}

/// A page of the flat walk over all nodes, by number. A cursor follows every
/// full page. A cursor that is no numeral is `InvalidInput`, whatever the
/// store holds.
pub open spec fn chatted(s: Snapshot, limit: u8, desc: Option<bool>, cursor: Option<Seq<char>>) -> Result<
    ChatPageView,
    ContractError,
> {
    match chat_cursor(cursor) {
        Err(e) => Err(e),
        Ok(after) => if !s.counters.contains_key(NUM_NODES_COUNTER_KEY@) {
            Err(ContractError::NotFound)
        } else {
            let numbers = chat_numbers(
                s.counters[NUM_NODES_COUNTER_KEY@],
                desc == Some(true),
                after,
                page_limit(limit),
            );
            match nodes_numbered(s, numbers) {
                Err(e) => Err(e),
                Ok(nodes) => Ok(
                    ChatPageView {
                        cursor: if numbers.len() > 0 && numbers.len() == page_limit(limit) {
                            Some(decimal(numbers.last() as nat))
                        } else {
                            None
                        },
                        nodes,
                    },
                ),
            }
        },
    }
}

/// What is left of a list of nodes, put behind those collected so far.
pub open spec fn resumed_nodes(nodes: Seq<NodeView>, rest: Result<Seq<NodeView>, ContractError>) -> Result<
    Seq<NodeView>,
    ContractError,
> {
    match rest {
        Ok(more) => Ok(nodes + more),
        Err(e) => Err(e),
    }
}

/// A page of all nodes in the order of their numbers: going up from just
/// behind the cursor, or going down from just before it.
pub fn query_chat(store: &Store, params: ChatQueryArgs) -> (r: Result<ChatPaginationResponse, ContractError>)
    ensures
        answers(
            match r {
                Ok(page) => Ok(page@),
                Err(e) => Err(e),
            },
            chatted(store@, params.limit, params.desc, params.cursor.deep_view()),
            store.is_intact(),
        ),
        chat_cursor(params.cursor.deep_view()) is Err ==> r == Err::<ChatPaginationResponse, ContractError>(
            ContractError::InvalidInput,
        ),
{
    let limit = clamp_limit(params.limit);
    let after: Option<u64> = match &params.cursor {
        None => None,
        Some(text) => match parse_decimal(text.as_str(), u64::MAX as u128) {
            Some(n) => Some(n as u64),
            None => {
                return Err(ContractError::InvalidInput);
            },
        },
    };
    let total: u64 = match storage_result(store.load_counter(NUM_NODES_COUNTER_KEY))? {
        Some(n) => n,
        None => {
            return Err(ContractError::NotFound);
        },
    };
    let desc = match params.desc {
        Some(d) => d,
        None => false,
    };
    let (first, count) = chat_range(total, desc, after, limit);
    let ghost s = store@;
    let ghost numbers = chat_numbers(total, desc, after, limit as nat);
    let ghost whole = nodes_numbered(s, numbers);
    let mut nodes: Vec<Node> = Vec::new();
    let mut last: Option<String> = None;
    let mut i: usize = 0;
    assert(numbers.skip(0) =~= numbers);
    assert(resumed_nodes(nodes_view(nodes@), whole) == whole) by {
        if whole is Ok {
            assert(nodes_view(nodes@) + whole->Ok_0 =~= whole->Ok_0);
        }
    }
    while i < count
        invariant
            s == store@,
            0 <= i <= count,
            count == numbers.len(),
            numbers == chat_numbers(total, desc, after, limit as nat),
            count > 0 ==> first == chat_first(total, desc, after),
            whole == nodes_numbered(s, numbers),
            s.counters.contains_key(NUM_NODES_COUNTER_KEY@),
            total == s.counters[NUM_NODES_COUNTER_KEY@],
            chat_cursor(params.cursor.deep_view()) == Ok::<Option<u64>, ContractError>(after),
            desc == (params.desc == Some(true)),
            limit == page_limit(params.limit),
            nodes.len() == i,
            whole == resumed_nodes(nodes_view(nodes@), nodes_numbered(s, numbers.skip(i as int))),
            i > 0 ==> last.deep_view() == Some(decimal(numbers[i - 1] as nat)),
            i == 0 ==> last is None,
        decreases count - i,
    {
        let ghost here = numbers.skip(i as int);
        assert(here[0] == numbers[i as int]);
        assert(here.drop_first() =~= numbers.skip(i + 1));
        let number: u64 = if desc {
            first - i as u64
        } else {
            first + i as u64
        };
        assert(number == numbers[i as int]);
        let id = format_decimal(number as u128);
        let header = load_header(store, &id)?;
        let node = match build_node(store, header)? {
            Some(node) => node,
            None => {
                return Err(ContractError::Storage);
            },
        };
        proof {
            let before = nodes_view(nodes@);
            let after_push = nodes_view(nodes@.push(node));
            let rest = nodes_numbered(s, numbers.skip(i + 1));
            assert(after_push =~= before.push(node@));
            if rest is Ok {
                assert(before + (seq![node@] + rest->Ok_0) =~= before.push(node@) + rest->Ok_0);
            }
        }
        nodes.push(node);
        last = Some(id);
        i = i + 1;
    }
    assert(numbers.skip(count as int) =~= Seq::<u64>::empty());
    assert(nodes_view(nodes@) + Seq::<NodeView>::empty() =~= nodes_view(nodes@));
    let cursor = if count > 0 && count == limit {
        last
    } else {
        None
    };
    Ok(ChatPaginationResponse { cursor, nodes })
}

} // verus!

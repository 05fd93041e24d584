use vstd::prelude::*;
use crate::error::{answers, ContractError};
use crate::keys::{
    decode_pair_key, decode_rank_suffix, decode_ranked_key, decode_text, fits_segment,
    lemma_pair_key_injective, lemma_rank_suffix_injective, lemma_ranked_key_injective,
    lemma_text_bytes_injective, pair_key, rank_suffix, ranked_key, segment, text_bytes,
};
use crate::models::{nodes_view, Node, NodeView};
use crate::paging::{is_next, lemma_next_found, next_key};
use crate::query::nodes::build_node;
use crate::state::load_header;
use crate::store::indices::rank_bound;
use crate::store::nodes::id_bound;
use crate::store::{key_view, suffixes, Snapshot, Store};
use crate::text::{decimal, decimal_value, format_decimal, is_decimal, parse_decimal};

verus! {

/// An ordered index and the part of it that a query walks.
pub enum Index<'a> {
    /// All nodes, by id.
    Headers,
    /// The children of one node, by id.
    Children(&'a String),
    /// The children of one node, by rank and id.
    Ranked(&'a String),
    /// The nodes that carry one tag, by rank and id.
    Tagged(&'a String),
}

/// An index and the part of it that a query walks, as contracts see it.
pub enum Walk {
    Headers,
    Children(Seq<char>),
    Ranked(Seq<char>),
    Tagged(Seq<char>),
}

impl<'a> View for Index<'a> {
    type V = Walk;

    open spec fn view(&self) -> Walk {
        match self {
            Index::Headers => Walk::Headers,
            Index::Children(parent) => Walk::Children(parent@),
            Index::Ranked(parent) => Walk::Ranked(parent@),
            Index::Tagged(tag) => Walk::Tagged(tag@),
        }
    }
}

/// The rank and the id of an entry that a walk has met; the rank is zero
/// where the index has none.
pub type Entry = (u32, String);

/// The view of the entry that bounds a walk, if there is one.
pub open spec fn entry_view(entry: Option<Entry>) -> Option<(u32, Seq<char>)> {
    match entry {
        Some((rank, id)) => Some((rank, id@)),
        None => None,
    }
}

impl Walk {
    /// Whether the walk's prefix can stand in front of a key.
    pub open spec fn fits(self) -> bool {
        match self {
            Walk::Headers => true,
            Walk::Children(parent) => fits_segment(parent),
            Walk::Ranked(parent) => fits_segment(parent),
            Walk::Tagged(tag) => fits_segment(tag),
        }
    }

    /// Whether the keys that the walk meets hold a rank.
    pub open spec fn is_ranked(self) -> bool {
        self is Ranked || self is Tagged
    }

    /// The keys that the walk can meet, without the walk's prefix.
    pub open spec fn keys(self, s: Snapshot) -> Set<Seq<u8>> {
        match self {
            Walk::Headers => s.header_keys,
            Walk::Children(parent) => suffixes(s.children, segment(text_bytes(parent))),
            Walk::Ranked(parent) => suffixes(s.ranked, segment(text_bytes(parent))),
            Walk::Tagged(tag) => suffixes(s.tagged, segment(text_bytes(tag))),
        }
    }

    /// The key of an entry.
    pub open spec fn key_of(self, entry: (u32, Seq<char>)) -> Seq<u8> {
        if self.is_ranked() {
            rank_suffix(entry.0, entry.1)
        } else {
            text_bytes(entry.1)
        }
    }

    /// The entry that a key stands for, if it stands for one.
    pub open spec fn entry_of(self, key: Seq<u8>) -> Option<(u32, Seq<char>)> {
        if self.is_ranked() {
            if exists|e: (u32, Seq<char>)| rank_suffix(e.0, e.1) == key {
                Some(choose|e: (u32, Seq<char>)| rank_suffix(e.0, e.1) == key)
            } else {
                None
            }
        } else {
            if exists|id: Seq<char>| text_bytes(id) == key {
                Some((0u32, choose|id: Seq<char>| text_bytes(id) == key))
            } else {
                None
            }
        }
    }

    /// The key that bounds a walk, if an entry bounds it.
    pub open spec fn bound_of(self, bound: Option<(u32, Seq<char>)>) -> Option<Seq<u8>> {
        match bound {
            Some(entry) => Some(self.key_of(entry)),
            None => None,
        }
    }
}

/// One step of a walk: the entry behind the bound, or nothing at the walk's
/// end. A key that stands for no entry is a fault of the storage.
fn next_entry(store: &Store, index: &Index, desc: bool, bound: &Option<Entry>) -> (r: Result<
    Option<Entry>,
    ContractError,
>)
    requires
        index@.fits(),
    ensures
        match r {
            Ok(found) => {
                let key = next_key(index@.keys(store@), desc, index@.bound_of(entry_view(*bound)));
                match found {
                    Some((rank, id)) => key == Some(index@.key_of((rank, id@))) && index@.entry_of(key->Some_0)
                        == Some((rank, id@)),
                    None => key is None,
                }
            },
            Err(e) => {
                let key = next_key(index@.keys(store@), desc, index@.bound_of(entry_view(*bound)));
                e == ContractError::Storage && key is Some && index@.entry_of(key->Some_0) is None
            },
        },
{
    let ghost keys = index@.keys(store@);
    let ghost bound_key = index@.bound_of(entry_view(*bound));
    let id_only: Option<&String> = match bound {
        Some((_, id)) => Some(id),
        None => None,
    };
    let ranked: Option<(u32, &String)> = match bound {
        Some((rank, id)) => Some((*rank, id)),
        None => None,
    };
    let raw: Option<Vec<u8>> = match index {
        Index::Headers => {
            assert(id_bound(id_only) == bound_key);
            if desc {
                store.header_key_below(id_only)
            } else {
                store.header_key_above(id_only)
            }
        },
        Index::Children(parent) => {
            assert(id_bound(id_only) == bound_key);
            if desc {
                store.child_below(parent, id_only)
            } else {
                store.child_above(parent, id_only)
            }
        },
        Index::Ranked(parent) => {
            assert(rank_bound(ranked) == bound_key);
            if desc {
                store.ranked_below(parent, ranked)
            } else {
                store.ranked_above(parent, ranked)
            }
        },
        Index::Tagged(tag) => {
            assert(rank_bound(ranked) == bound_key);
            if desc {
                store.tagged_below(tag, ranked)
            } else {
                store.tagged_above(tag, ranked)
            }
        },
    };
    proof {
        assert(is_next(keys, desc, bound_key, key_view(raw)));
        lemma_next_found(keys, desc, bound_key, key_view(raw));
    }
    match raw {
        None => Ok(None),
        Some(key) => {
            let is_ranked = match index {
                Index::Ranked(_) => true,
                Index::Tagged(_) => true,
                _ => false,
            };
            if is_ranked {
                match decode_rank_suffix(key.as_slice()) {
                    Some((rank, id)) => {
                        proof {
                            let other = choose|e: (u32, Seq<char>)| rank_suffix(e.0, e.1) == key@;
                            lemma_rank_suffix_injective(other, (rank, id@));
                        }
                        Ok(Some((rank, id)))
                    },
                    None => Err(ContractError::Storage),
                }
            } else {
                let ghost key_bytes = key@;
                match decode_text(key) {
                    Some(id) => {
                        proof {
                            let other = choose|t: Seq<char>| text_bytes(t) == key_bytes;
                            lemma_text_bytes_injective(other, id@);
                        }
                        Ok(Some((0u32, id)))
                    },
                    None => Err(ContractError::Storage),
                }
            }
        },
    }
}

/// What a walk has met at one key: rank and id, as the key holds them, and
/// the node of that id.
pub struct Met {
    pub rank: u32,
    pub id: Seq<char>,
    pub node: NodeView,
}

/// What a walk behind `bound` meets, `limit` entries at most. A key that
/// stands for no entry is a fault of the storage; a key without its node is
/// `NotFound`: no key is passed over.
pub open spec fn walked(s: Snapshot, w: Walk, desc: bool, bound: Option<Seq<u8>>, limit: nat) -> Result<
    Seq<Met>,
    ContractError,
>
    decreases limit,
{
    if limit == 0 {
        Ok(Seq::empty())
    } else {
        match next_key(w.keys(s), desc, bound) {
            None => Ok(Seq::empty()),
            Some(key) => match w.entry_of(key) {
                None => Err(ContractError::Storage),
                Some((rank, id)) => match s.node(id) {
                    Err(e) => Err(e),
                    Ok(node) => match walked(s, w, desc, Some(key), (limit - 1) as nat) {
                        Err(e) => Err(e),
                        Ok(rest) => Ok(seq![Met { rank, id, node }] + rest),
                    },
                },
            },
        }
    }
}

/// A walk never ends in `InvalidInput`: what it can fail with is a key that
/// stands for no entry, or a node that is missing or cannot be put together.
pub proof fn lemma_walk_takes_any_input(s: Snapshot, w: Walk, desc: bool, bound: Option<Seq<u8>>, limit: nat)
    ensures
        walked(s, w, desc, bound, limit) != Err::<Seq<Met>, ContractError>(ContractError::InvalidInput),
    decreases limit,
{
    if limit > 0 {
        match next_key(w.keys(s), desc, bound) {
            None => {},
            Some(key) => {
                lemma_walk_takes_any_input(s, w, desc, Some(key), (limit - 1) as nat);
            },
        }
    }
}

/// The nodes of what a walk has met, with the entry that it met last.
pub open spec fn page_of(met: Seq<Met>) -> (Seq<NodeView>, Option<(u32, Seq<char>)>) {
    (
        met.map_values(|m: Met| m.node),
        if met.len() == 0 {
            None
        } else {
            Some((met.last().rank, met.last().id))
        },
    )
}

/// A page: the nodes that a walk behind `bound` meets, `limit` at most, and
/// the entry that it met last.
pub open spec fn page(s: Snapshot, w: Walk, desc: bool, bound: Option<(u32, Seq<char>)>, limit: nat) -> Result<
    (Seq<NodeView>, Option<(u32, Seq<char>)>),
    ContractError,
> {
    match walked(s, w, desc, w.bound_of(bound), limit) {
        Ok(met) => Ok(page_of(met)),
        Err(e) => Err(e),
    }
}

/// What is left of a walk, put behind what it has met so far.
pub open spec fn resumed(met: Seq<Met>, rest: Result<Seq<Met>, ContractError>) -> Result<
    Seq<Met>,
    ContractError,
> {
    match rest {
        Ok(more) => Ok(met + more),
        Err(e) => Err(e),
    }
}

/// Collects a page: walks the index behind `bound`, in the given direction,
/// and puts together the node of each entry, until `limit` nodes are
/// collected or the walk has ended.
pub fn collect_page(store: &Store, index: &Index, desc: bool, bound: Option<Entry>, limit: usize) -> (r: Result<
    (Vec<Node>, Option<Entry>),
    ContractError,
>)
    requires
        index@.fits(),
    ensures
        answers(
            match r {
                Ok((nodes, last)) => Ok((nodes_view(nodes@), entry_view(last))),
                Err(e) => Err(e),
            },
            page(store@, index@, desc, entry_view(bound), limit as nat),
            store.is_intact(),
        ),
{
    let ghost s = store@;
    let ghost w = index@;
    let ghost whole = walked(s, w, desc, w.bound_of(entry_view(bound)), limit as nat);
    let ghost first_bound = entry_view(bound);
    let mut nodes: Vec<Node> = Vec::new();
    let mut last: Option<Entry> = None;
    let mut cursor: Option<Entry> = bound;
    let ghost mut met: Seq<Met> = Seq::empty();
    assert(resumed(met, whole) == whole) by {
        if whole is Ok {
            assert(met + whole->Ok_0 =~= whole->Ok_0);
        }
    }
    while nodes.len() < limit
        invariant
            s == store@,
            w == index@,
            w.fits(),
            nodes.len() <= limit,
            nodes.len() == met.len(),
            whole == resumed(
                met,
                walked(s, w, desc, w.bound_of(entry_view(cursor)), (limit - nodes.len()) as nat),
            ),
            whole == walked(s, w, desc, w.bound_of(entry_view(bound)), limit as nat),
            page_of(met) == (nodes_view(nodes@), entry_view(last)),
        decreases limit - nodes.len(),
    {
        let ghost left = (limit - nodes.len()) as nat;
        let ghost here = walked(s, w, desc, w.bound_of(entry_view(cursor)), left);
        match next_entry(store, index, desc, &cursor)? {
            None => {
                assert(here == Ok::<Seq<Met>, ContractError>(Seq::empty()));
                assert(met + Seq::<Met>::empty() =~= met);
                return Ok((nodes, last));
            },
            Some((rank, id)) => {
                let ghost key = w.key_of((rank, id@));
                let header = load_header(store, &id)?;
                let node = match build_node(store, header)? {
                    Some(node) => node,
                    None => {
                        return Err(ContractError::Storage);
                    },
                };
                proof {
                    let m = Met { rank, id: id@, node: node@ };
                    let rest = walked(s, w, desc, Some(key), (left - 1) as nat);
                    assert(here == resumed(seq![m], rest));
                    if rest is Ok {
                        assert(met + (seq![m] + rest->Ok_0) =~= met.push(m) + rest->Ok_0);
                    }
                    let before = nodes_view(nodes@);
                    let after = nodes_view(nodes@.push(node));
                    assert(before == page_of(met).0);
                    assert forall|i: int| 0 <= i < after.len() implies page_of(met.push(m)).0[i]
                        == after[i] by {
                        if i < met.len() {
                            assert(page_of(met).0[i] == before[i]);
                        }
                    }
                    assert(page_of(met.push(m)).0 =~= after);
                    met = met.push(m);
                }
                nodes.push(node);
                last = Some((rank, id.clone()));
                cursor = Some((rank, id));
            },
        }
    }
    assert(met + Seq::<Met>::empty() =~= met);
    Ok((nodes, last))
}

/// The entry that a cursor names. Where the index holds ranks the cursor is
/// a rank, as a decimal numeral, and an id; else it is an id. A cursor with
/// too few parts, or with a rank that is no numeral of 32 bits, is
/// `InvalidInput`.
pub open spec fn cursor_bound(ranked: bool, cursor: Option<Seq<Seq<char>>>) -> Result<
    Option<(u32, Seq<char>)>,
    ContractError,
> {
    match cursor {
        None => Ok(None),
        Some(parts) => if !ranked {
            if parts.len() < 1 {
                Err(ContractError::InvalidInput)
            } else {
                Ok(Some((0u32, parts[0])))
            }
        } else {
            if parts.len() < 2 || !is_decimal(parts[0]) || decimal_value(parts[0]) > u32::MAX {
                Err(ContractError::InvalidInput)
            } else {
                Ok(Some((decimal_value(parts[0]) as u32, parts[1])))
            }
        },
    }
}

/// Reads the entry that a cursor names.
pub fn parse_cursor(ranked: bool, cursor: &Option<Vec<String>>) -> (r: Result<Option<Entry>, ContractError>)
    ensures
        match r {
            Ok(bound) => cursor_bound(ranked, cursor.deep_view()) == Ok::<
                Option<(u32, Seq<char>)>,
                ContractError,
            >(entry_view(bound)),
            Err(e) => cursor_bound(ranked, cursor.deep_view()) == Err::<
                Option<(u32, Seq<char>)>,
                ContractError,
            >(e),
        },
{
    match cursor {
        None => Ok(None),
        Some(parts) => {
            assert(cursor.deep_view() == Some(parts.deep_view()));
            if !ranked {
                if parts.len() < 1 {
                    Err(ContractError::InvalidInput)
                } else {
                    assert(parts.deep_view()[0] == parts[0]@);
                    Ok(Some((0u32, parts[0].clone())))
                }
            } else {
                if parts.len() < 2 {
                    return Err(ContractError::InvalidInput);
                }
                assert(parts.deep_view()[0] == parts[0]@);
                assert(parts.deep_view()[1] == parts[1]@);
                match parse_decimal(parts[0].as_str(), u32::MAX as u128) {
                    None => Err(ContractError::InvalidInput),
                    Some(rank) => Ok(Some((rank as u32, parts[1].clone()))),
                }
            }
        },
    }
}

/// The parts of the cursor that names an entry.
pub open spec fn cursor_parts(ranked: bool, entry: (u32, Seq<char>)) -> Seq<Seq<char>> {
    if ranked {
        seq![decimal(entry.0 as nat), entry.1]
    } else {
        seq![entry.1]
    }
}

/// Writes the cursor that names an entry.
pub fn make_cursor(ranked: bool, entry: &Entry) -> (r: Vec<String>)
    ensures
        r.deep_view() == cursor_parts(ranked, (entry.0, entry.1@)),
{
    let mut parts: Vec<String> = Vec::new();
    if ranked {
        parts.push(format_decimal(entry.0 as u128));
    }
    parts.push(entry.1.clone());
    assert(parts.deep_view() =~= cursor_parts(ranked, (entry.0, entry.1@)));
    parts
}

/// The pair that a key of a whole index of pairs stands for, if it stands
/// for one.
pub open spec fn pair_of(key: Seq<u8>) -> Option<(Seq<char>, Seq<char>)> {
    if exists|p: (Seq<char>, Seq<char>)| fits_segment(p.0) && pair_key(p.0, p.1) == key {
        Some(choose|p: (Seq<char>, Seq<char>)| fits_segment(p.0) && pair_key(p.0, p.1) == key)
    } else {
        None
    }
}

/// The entry that a key of a whole ranked index stands for, if it stands
/// for one.
pub open spec fn ranked_of(key: Seq<u8>) -> Option<(Seq<char>, u32, Seq<char>)> {
    if exists|e: (Seq<char>, u32, Seq<char>)| fits_segment(e.0) && ranked_key(e.0, e.1, e.2) == key {
        Some(choose|e: (Seq<char>, u32, Seq<char>)| fits_segment(e.0) && ranked_key(e.0, e.1, e.2) == key)
    } else {
        None
    }
}

impl Walk {
    /// The keys of the whole index that the walk belongs to.
    pub open spec fn all_keys(self, s: Snapshot) -> Set<Seq<u8>> {
        match self {
            Walk::Headers => s.header_keys,
            Walk::Children(_) => s.children,
            Walk::Ranked(_) => s.ranked,
            Walk::Tagged(_) => s.tagged,
        }
    }

    /// The id that a key of the whole index ends in, if the key is well
    /// formed.
    pub open spec fn id_in(self, key: Seq<u8>) -> Option<Seq<char>> {
        match self {
            Walk::Headers => match Walk::Headers.entry_of(key) {
                Some(entry) => Some(entry.1),
                None => None,
            },
            Walk::Children(_) => match pair_of(key) {
                Some(pair) => Some(pair.1),
                None => None,
            },
            _ => match ranked_of(key) {
                Some(entry) => Some(entry.2),
                None => None,
            },
        }
    }
}

/// The id in the last key that a walk over the whole index would meet, in
/// the given direction; nothing where the index is empty.
pub open spec fn end_id(s: Snapshot, w: Walk, desc: bool) -> Result<Option<Seq<char>>, ContractError> {
    match next_key(w.all_keys(s), !desc, None) {
        None => Ok(None),
        Some(key) => match w.id_in(key) {
            None => Err(ContractError::Storage),
            Some(id) => Ok(Some(id)),
        },
    }
}

/// Finds the id in the last key of the whole index, in the given direction.
pub(crate) fn find_end_id(store: &Store, index: &Index, desc: bool) -> (r: Result<Option<String>, ContractError>)
    requires
        !(index@ is Tagged),
    ensures
        answers(
            match r {
                Ok(id) => Ok(id.deep_view()),
                Err(e) => Err(e),
            },
            end_id(store@, index@, desc),
            store.is_intact(),
        ),
{
    let ghost keys = index@.all_keys(store@);
    let raw: Option<Vec<u8>> = match index {
        Index::Headers => if desc {
            store.header_key_above(None)
        } else {
            store.header_key_below(None)
        },
        Index::Children(_) => if desc {
            store.first_child_key()
        } else {
            store.last_child_key()
        },
        _ => if desc {
            store.first_ranked_key()
        } else {
            store.last_ranked_key()
        },
    };
    proof {
        assert(is_next(keys, !desc, None, key_view(raw)));
        lemma_next_found(keys, !desc, None, key_view(raw));
    }
    match raw {
        None => Ok(None),
        Some(key) => {
            let ghost key_bytes = key@;
            match index {
                Index::Headers => match decode_text(key) {
                    Some(id) => {
                        proof {
                            let other = choose|t: Seq<char>| text_bytes(t) == key_bytes;
                            lemma_text_bytes_injective(other, id@);
                        }
                        Ok(Some(id))
                    },
                    None => Err(ContractError::Storage),
                },
                Index::Children(_) => match decode_pair_key(key.as_slice()) {
                    Some((parent, child)) => {
                        proof {
                            let found = (parent@, child@);
                            assert(fits_segment(found.0) && pair_key(found.0, found.1) == key_bytes);
                            let other = choose|p: (Seq<char>, Seq<char>)|
                                fits_segment(p.0) && pair_key(p.0, p.1) == key_bytes;
                            lemma_pair_key_injective(other, (parent@, child@));
                        }
                        Ok(Some(child))
                    },
                    None => Err(ContractError::Storage),
                },
                _ => match decode_ranked_key(key.as_slice()) {
                    Some((parent, rank, child)) => {
                        proof {
                            let found = (parent@, rank, child@);
                            assert(fits_segment(found.0) && ranked_key(found.0, found.1, found.2)
                                == key_bytes);
                            let other = choose|e: (Seq<char>, u32, Seq<char>)|
                                fits_segment(e.0) && ranked_key(e.0, e.1, e.2) == key_bytes;
                            lemma_ranked_key_injective(other, (parent@, rank, child@));
                        }
                        Ok(Some(child))
                    },
                    None => Err(ContractError::Storage),
                },
            }
        },
    }
}

} // verus!

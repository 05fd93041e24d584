use vstd::prelude::*;
use crate::keys::{bytes_lt, pair_key, ranked_key};

pub mod globals;
pub mod indices;
pub mod nodes;

verus! {

/// A node's header as it is stored: id, parent id, creator.
pub type HeaderRecord = (String, String, String);

/// A link as it is stored: kind, URL, label, provider.
pub type LinkRecord = (u8, String, Option<String>, Option<String>);

/// A node's attributes as they are stored: creation time, title, body, links.
pub type AttributesRecord = (u64, String, Option<String>, Vec<LinkRecord>);

/// The six prices as they are stored: creation, reaction, link, text, tag,
/// tip rate.
pub type FeesRecord = (u128, u128, u128, u128, u128, u128);

/// The configuration as it is stored: whether the token is a contract, the
/// token's id, the fee recipient, the prices.
pub type ConfigRecord = (bool, String, Option<String>, FeesRecord);

/// A stored link, as contracts see it.
pub type LinkModel = (u8, Seq<char>, Option<Seq<char>>, Option<Seq<char>>);

/// A node's stored attributes, as contracts see them.
pub type AttributesModel = (u64, Seq<char>, Option<Seq<char>>, Seq<LinkModel>);

/// The stored configuration, as contracts see it.
pub type ConfigModel = (bool, Seq<char>, Option<Seq<char>>, FeesRecord);

/// The host's ordered key-value substrate, as handed to one call: a
/// `cosmwasm_std::Storage` behind a reference. The records live in it, each
/// kind under a prefix of its own.
///
/// What the store holds is told by the functions below, one for each kind of
/// record. A record that cannot be read back as its kind does not count as
/// stored; of an index the keys count, as bytes, whatever stands under them.
#[verifier::external_body]
pub struct Store<'a> {
    pub storage: &'a mut dyn cosmwasm_std::Storage,
}

/// The operator's address, if one is stored.
pub uninterp spec fn stored_operator(s: Store) -> Option<Seq<char>>;

/// The configuration, if one is stored.
pub uninterp spec fn stored_config(s: Store) -> Option<ConfigModel>;

/// The address that created the tree, if it is stored.
pub uninterp spec fn stored_created_by(s: Store) -> Option<Seq<char>>;

/// The time at which the tree was created, if it is stored.
pub uninterp spec fn stored_created_at(s: Store) -> Option<u64>;

/// The royalties of all nodes together, if the total is stored.
pub uninterp spec fn stored_royalties(s: Store) -> Option<u128>;

/// The global counters that are stored, by name.
pub uninterp spec fn stored_counters(s: Store) -> Map<Seq<char>, u64>;

/// The node headers that are stored, by node id.
pub uninterp spec fn stored_headers(s: Store) -> Map<Seq<char>, (Seq<char>, Seq<char>, Seq<char>)>;

/// The keys under which anything stands among the node headers.
pub uninterp spec fn stored_header_keys(s: Store) -> Set<Seq<u8>>;

/// The node attributes that are stored, by node id.
pub uninterp spec fn stored_attributes(s: Store) -> Map<Seq<char>, AttributesModel>;

/// For each node with a stored status, whether it is deleted.
pub uninterp spec fn stored_deleted(s: Store) -> Map<Seq<char>, bool>;

/// The tag lists that are stored, by node id.
pub uninterp spec fn stored_tags(s: Store) -> Map<Seq<char>, Seq<Seq<char>>>;

/// The times of last change that are stored, by node id.
pub uninterp spec fn stored_updated_at(s: Store) -> Map<Seq<char>, u64>;

/// The reply counters that are stored, by node id.
pub uninterp spec fn stored_replies(s: Store) -> Map<Seq<char>, u16>;

/// The reaction counters that are stored, by node id.
pub uninterp spec fn stored_reactions(s: Store) -> Map<Seq<char>, u16>;

/// The like counters that are stored, by node id.
pub uninterp spec fn stored_likes(s: Store) -> Map<Seq<char>, u32>;

/// The royalty totals that are stored, by node id.
pub uninterp spec fn stored_node_royalties(s: Store) -> Map<Seq<char>, u128>;

/// The keys of the index of children by parent.
pub uninterp spec fn stored_children(s: Store) -> Set<Seq<u8>>;

/// The keys of the index of children by parent and rank.
pub uninterp spec fn stored_ranked(s: Store) -> Set<Seq<u8>>;

/// The keys of the index of nodes by tag and rank.
pub uninterp spec fn stored_tagged(s: Store) -> Set<Seq<u8>>;

/// The keys of the index of likers by node.
pub uninterp spec fn stored_liked_by(s: Store) -> Set<Seq<u8>>;

/// The keys of the index of liked nodes by liker.
pub uninterp spec fn stored_addr_liked(s: Store) -> Set<Seq<u8>>;

/// The records that stand in the store but cannot be read back as their
/// kind: each by the prefix of its kind and by its key, which is empty for a
/// record that stands alone.
pub uninterp spec fn stored_faults(s: Store) -> Set<(Seq<char>, Seq<char>)>;

impl<'a> Store<'a> {
    /// Whether every record in the store can be read back as its kind: so
    /// it is with a store that only this library has written to.
    pub open spec fn is_intact(&self) -> bool {
        forall|fault: (Seq<char>, Seq<char>)| !stored_faults(*self).contains(fault)
    }
}

/// Whether every record that cannot be read back after a write could not be
/// read back before it: a write garbles nothing.
pub open spec fn garbles_nothing(before: Store, after: Store) -> bool {
    stored_faults(after).subset_of(stored_faults(before))
}

/// Everything that the store holds for this library.
pub struct Snapshot {
    pub operator: Option<Seq<char>>,
    pub config: Option<ConfigModel>,
    pub created_by: Option<Seq<char>>,
    pub created_at: Option<u64>,
    pub royalties: Option<u128>,
    pub counters: Map<Seq<char>, u64>,
    pub headers: Map<Seq<char>, (Seq<char>, Seq<char>, Seq<char>)>,
    pub header_keys: Set<Seq<u8>>,
    pub attributes: Map<Seq<char>, AttributesModel>,
    pub deleted: Map<Seq<char>, bool>,
    pub tags: Map<Seq<char>, Seq<Seq<char>>>,
    pub updated_at: Map<Seq<char>, u64>,
    pub replies: Map<Seq<char>, u16>,
    pub reactions: Map<Seq<char>, u16>,
    pub likes: Map<Seq<char>, u32>,
    pub node_royalties: Map<Seq<char>, u128>,
    pub children: Set<Seq<u8>>,
    pub ranked: Set<Seq<u8>>,
    pub tagged: Set<Seq<u8>>,
    pub liked_by: Set<Seq<u8>>,
    pub addr_liked: Set<Seq<u8>>,
}

impl<'a> View for Store<'a> {
    type V = Snapshot;

    open spec fn view(&self) -> Snapshot {
        Snapshot {
            operator: stored_operator(*self),
            config: stored_config(*self),
            created_by: stored_created_by(*self),
            created_at: stored_created_at(*self),
            royalties: stored_royalties(*self),
            counters: stored_counters(*self),
            headers: stored_headers(*self),
            header_keys: stored_header_keys(*self),
            attributes: stored_attributes(*self),
            deleted: stored_deleted(*self),
            tags: stored_tags(*self),
            updated_at: stored_updated_at(*self),
            replies: stored_replies(*self),
            reactions: stored_reactions(*self),
            likes: stored_likes(*self),
            node_royalties: stored_node_royalties(*self),
            children: stored_children(*self),
            ranked: stored_ranked(*self),
            tagged: stored_tagged(*self),
            liked_by: stored_liked_by(*self),
            addr_liked: stored_addr_liked(*self),
        }
    }
}

impl Snapshot {
    /// Whether `child` is listed under `parent` in the index by id.
    pub open spec fn has_child(self, parent: Seq<char>, child: Seq<char>) -> bool {
        self.children.contains(pair_key(parent, child))
    }

    /// Whether `child` is listed under `parent` at `rank`.
    pub open spec fn has_ranked(self, parent: Seq<char>, rank: u32, child: Seq<char>) -> bool {
        self.ranked.contains(ranked_key(parent, rank, child))
    }

    /// Whether `node` is listed under `tag` at `rank`.
    pub open spec fn has_tagged(self, tag: Seq<char>, rank: u32, node: Seq<char>) -> bool {
        self.tagged.contains(ranked_key(tag, rank, node))
    }

    /// Whether `liker` is listed among those who like `node`.
    pub open spec fn has_liked_by(self, node: Seq<char>, liker: Seq<char>) -> bool {
        self.liked_by.contains(pair_key(node, liker))
    }

    /// Whether `node` is listed among what `liker` likes.
    pub open spec fn has_addr_liked(self, liker: Seq<char>, node: Seq<char>) -> bool {
        self.addr_liked.contains(pair_key(liker, node))
    }
}

/// What a write leaves behind: `expected` where it succeeded, and what was
/// there before where it did not.
pub open spec fn wrote(
    r: Result<(), cosmwasm_std::StdError>,
    before: Snapshot,
    after: Snapshot,
    expected: Snapshot,
) -> bool {
    if r is Ok {
        after == expected
    } else {
        after == before
    }
}

/// Whether `found` is what `table` holds under `key`.
pub open spec fn is_entry<V>(table: Map<Seq<char>, V>, key: Seq<char>, found: Option<V>) -> bool {
    match found {
        Some(v) => table.contains_key(key) && table[key] == v,
        None => !table.contains_key(key),
    }
}

/// The keys of `keys` that start with `prefix`, without it.
pub open spec fn suffixes(keys: Set<Seq<u8>>, prefix: Seq<u8>) -> Set<Seq<u8>> {
    Set::new(|x: Seq<u8>| keys.contains(prefix + x))
}

/// Whether `k` comes after the bound, if there is one.
pub open spec fn is_above(after: Option<Seq<u8>>, k: Seq<u8>) -> bool {
    match after {
        Some(a) => bytes_lt(a, k),
        None => true,
    }
}

/// Whether `k` comes before the bound, if there is one.
pub open spec fn is_below(before: Option<Seq<u8>>, k: Seq<u8>) -> bool {
    match before {
        Some(b) => bytes_lt(k, b),
        None => true,
    }
}

/// Whether `found` is the first of `keys` after the bound: the key itself, or
/// nothing where no key comes after the bound.
pub open spec fn is_first_above(keys: Set<Seq<u8>>, after: Option<Seq<u8>>, found: Option<Seq<u8>>) -> bool {
    match found {
        Some(k) => keys.contains(k) && is_above(after, k) && forall|x: Seq<u8>|
            keys.contains(x) && is_above(after, x) ==> !bytes_lt(x, k),
        None => forall|x: Seq<u8>| keys.contains(x) ==> !is_above(after, x),
    }
}

/// Whether `found` is the last of `keys` before the bound: the key itself, or
/// nothing where no key comes before the bound.
pub open spec fn is_last_below(keys: Set<Seq<u8>>, before: Option<Seq<u8>>, found: Option<Seq<u8>>) -> bool {
    match found {
        Some(k) => keys.contains(k) && is_below(before, k) && forall|x: Seq<u8>|
            keys.contains(x) && is_below(before, x) ==> !bytes_lt(k, x),
        None => forall|x: Seq<u8>| keys.contains(x) ==> !is_below(before, x),
    }
}

/// The bytes of a key that was read, if one was.
pub open spec fn key_view(found: Option<Vec<u8>>) -> Option<Seq<u8>> {
    match found {
        Some(k) => Some(k@),
        None => None,
    }
}

} // verus!

use vstd::prelude::*;
use crate::error::{answers, storage_result, ContractError};
use crate::keys::{fits_segment, pair_key, ranked_key, text_bytes, MAX_SEGMENT};
use crate::math::add_u64;
use crate::models::{links_view, Config, ConfigView, Link, LinkView, Response, ResponseView};
use crate::msg::{InstantiateMsg, NodeInitArgs, NodeInitArgsView};
use crate::records::{
    are_links, config_from_record, config_record, config_to_record, link_records, links_from_records,
    links_to_records, record_config, record_links,
};
use crate::store::{garbles_nothing, AttributesModel, AttributesRecord, HeaderRecord, Snapshot, Store};
use crate::text::{decimal, format_decimal, lowercase_all, lowercase_list};

verus! {

/// The name of the counter that new node ids are taken from.
pub const NODE_ID_COUNTER_KEY: &'static str = "node_id";

/// The name of the counter of all nodes.
pub const NUM_NODES_COUNTER_KEY: &'static str = "num_nodes";

/// The part of a node that every operation on it reads.
#[derive(Clone, Debug, PartialEq, Eq)]
pub struct NodeHeader {
    pub id: String,
    pub parent_id: String,
    pub created_by: String,
}

/// A node's header, as contracts see it.
pub struct NodeHeaderView {
    pub id: Seq<char>,
    pub parent_id: Seq<char>,
    pub created_by: Seq<char>,
}

impl View for NodeHeader {
    type V = NodeHeaderView;

    open spec fn view(&self) -> NodeHeaderView {
        NodeHeaderView { id: self.id@, parent_id: self.parent_id@, created_by: self.created_by@ }
    }
}

/// The part of a node that only its creator's edits change.
#[derive(Clone, Debug, PartialEq, Eq)]
pub struct NodeAttributes {
    pub created_at: u64,
    pub title: String,
    pub body: Option<String>,
    pub links: Vec<Link>,
}

/// A node's attributes, as contracts see them.
pub struct NodeAttributesView {
    pub created_at: u64,
    pub title: Seq<char>,
    pub body: Option<Seq<char>>,
    pub links: Seq<LinkView>,
}

impl View for NodeAttributes {
    type V = NodeAttributesView;

    open spec fn view(&self) -> NodeAttributesView {
        NodeAttributesView {
            created_at: self.created_at,
            title: self.title@,
            body: self.body.deep_view(),
            links: links_view(self.links@),
        }
    }
}

/// The stored form of a node's attributes.
pub open spec fn attributes_record(a: NodeAttributesView) -> AttributesModel {
    (a.created_at, a.title, a.body, link_records(a.links))
}

/// The attributes that a stored record stands for, where each of its links
/// stands for one.
pub open spec fn record_attributes(m: AttributesModel) -> NodeAttributesView {
    NodeAttributesView { created_at: m.0, title: m.1, body: m.2, links: record_links(m.3) }
}

/// The header that a stored record stands for.
pub open spec fn record_header(m: (Seq<char>, Seq<char>, Seq<char>)) -> NodeHeaderView {
    NodeHeaderView { id: m.0, parent_id: m.1, created_by: m.2 }
}

impl Snapshot {
    /// What a global counter stands at: zero where it is not stored.
    pub open spec fn counter(self, name: Seq<char>) -> u64 {
        if self.counters.contains_key(name) {
            self.counters[name]
        } else {
            0
        }
    }

    /// The number of likes of a node: zero where no count is stored.
    pub open spec fn like_count(self, id: Seq<char>) -> u32 {
        if self.likes.contains_key(id) {
            self.likes[id]
        } else {
            0
        }
    }

    /// The configuration, or `NotFound`.
    pub open spec fn configuration(self) -> Result<ConfigView, ContractError> {
        match self.config {
            Some(record) => Ok(record_config(record)),
            None => Err(ContractError::NotFound),
        }
    }

    /// The attributes of a node, or `NotFound`. A record with a link of no
    /// known kind is a fault of the storage.
    pub open spec fn attributes_of(self, id: Seq<char>) -> Result<NodeAttributesView, ContractError> {
        if !self.attributes.contains_key(id) {
            Err(ContractError::NotFound)
        } else if !are_links(self.attributes[id].3) {
            Err(ContractError::Storage)
        } else {
            Ok(record_attributes(self.attributes[id]))
        }
    }

    /// The header of a node, or `NotFound`.
    pub open spec fn header(self, id: Seq<char>) -> Result<NodeHeaderView, ContractError> {
        if self.headers.contains_key(id) {
            Ok(record_header(self.headers[id]))
        } else {
            Err(ContractError::NotFound)
        }
    }
}

/// Loads the header of a node. A node without one is `NotFound`.
pub fn load_header(store: &Store, id: &String) -> (r: Result<NodeHeader, ContractError>)
    ensures
        answers(
            match r {
                Ok(h) => Ok(h@),
                Err(e) => Err(e),
            },
            store@.header(id@),
            store.is_intact(),
        ),
        store@.headers.contains_key(id@) ==> r is Ok,
{
    match storage_result(store.load_header(id))? {
        Some(record) => {
            let (id, parent_id, created_by) = record;
            Ok(NodeHeader { id, parent_id, created_by })
        },
        None => Err(ContractError::NotFound),
    }
}

/// Loads the attributes of a node. A node without them is `NotFound`.
pub fn load_attributes(store: &Store, id: &String) -> (r: Result<NodeAttributes, ContractError>)
    ensures
        answers(
            match r {
                Ok(a) => Ok(a@),
                Err(e) => Err(e),
            },
            store@.attributes_of(id@),
            store.is_intact(),
        ),
        store@.attributes.contains_key(id@) && are_links(store@.attributes[id@].3) ==> r is Ok,
{
    match storage_result(store.load_attributes(id))? {
        Some(record) => {
            let (created_at, title, body, link_list) = record;
            match links_from_records(&link_list) {
                Some(links) => Ok(NodeAttributes { created_at, title, body, links }),
                None => Err(ContractError::Storage),
            }
        },
        None => Err(ContractError::NotFound),
    }
}

/// Stores the attributes of a node. The call succeeds.
pub fn save_attributes(store: &mut Store, id: &String, attributes: NodeAttributes) -> (r: Result<
    (),
    ContractError,
>)
    ensures
        garbles_nothing(*old(store), *final(store)),
        r is Ok,
        final(store)@ == (Snapshot {
            attributes: old(store)@.attributes.insert(id@, attributes_record(attributes@)),
            ..old(store)@
        }),
{
    let NodeAttributes { created_at, title, body, links } = attributes;
    let record: AttributesRecord = (created_at, title, body, links_to_records(&links));
    storage_result(store.save_attributes(id, &record))?;
    Ok(())
}

/// Loads the configuration. A store without one is `NotFound`.
pub fn load_config(store: &Store) -> (r: Result<Config, ContractError>)
    ensures
        answers(
            match r {
                Ok(c) => Ok(c@),
                Err(e) => Err(e),
            },
            store@.configuration(),
            store.is_intact(),
        ),
        store@.config is Some ==> r is Ok,
{
    match storage_result(store.load_config())? {
        Some(record) => Ok(config_from_record(record)),
        None => Err(ContractError::NotFound),
    }
}

/// What a global counter would stand at, raised by `delta`: an `Overflow`
/// where it would leave its range.
pub open spec fn counter_next(s: Snapshot, name: Seq<char>, delta: u64) -> Result<u64, ContractError> {
    if s.counter(name) + delta > u64::MAX {
        Err(ContractError::Overflow)
    } else {
        Ok((s.counter(name) + delta) as u64)
    }
}

/// Reads what a global counter would stand at, raised by `delta`.
pub fn next_counter(store: &Store, name: &str, delta: u64) -> (r: Result<u64, ContractError>)
    ensures
        answers(r, counter_next(store@, name@, delta), store.is_intact()),
{
    let current: u64 = match storage_result(store.load_counter(name))? {
        Some(n) => n,
        None => 0,
    };
    add_u64(current, delta)
}

/// What `increment_counter` leaves behind and returns.
pub open spec fn counter_raised(s: Snapshot, name: Seq<char>, delta: u64) -> Result<
    (Snapshot, u64),
    ContractError,
> {
    match counter_next(s, name, delta) {
        Ok(n) => Ok((Snapshot { counters: s.counters.insert(name, n), ..s }, n)),
        Err(e) => Err(e),
    }
}

/// Adds `delta` to a global counter, which starts at zero, and returns what
/// it then stands at. A counter that would leave its range is an `Overflow`;
/// a call that fails leaves the store as it was.
pub fn increment_counter(store: &mut Store, name: &str, delta: u64) -> (r: Result<u64, ContractError>)
    ensures
        garbles_nothing(*old(store), *final(store)),
        answers(
            match r {
                Ok(n) => Ok((final(store)@, n)),
                Err(e) => Err(e),
            },
            counter_raised(old(store)@, name@, delta),
            old(store).is_intact(),
        ),
        r is Err ==> final(store)@ == old(store)@,
{
    let next = next_counter(store, name, delta)?;
    storage_result(store.save_counter(name, next))?;
    Ok(next)
}

/// Whether a text can be followed by another key component.
pub fn fits(s: &String) -> (r: bool)
    ensures
        r == fits_segment(s@),
{
    s.as_str().as_bytes().len() <= MAX_SEGMENT
}

/// Whether every text of a list can be followed by another key component.
pub open spec fn all_fit(texts: Seq<Seq<char>>) -> bool {
    forall|i: int| 0 <= i < texts.len() ==> fits_segment(#[trigger] texts[i])
}

/// Whether every text of a list can be followed by another key component.
pub fn fit_all(texts: &Vec<String>) -> (r: bool)
    ensures
        r == all_fit(texts.deep_view()),
{
    let mut i: usize = 0;
    while i < texts.len()
        invariant
            0 <= i <= texts.len(),
            forall|j: int| 0 <= j < i ==> fits_segment(#[trigger] texts.deep_view()[j]),
        decreases texts.len() - i,
    {
        assert(texts.deep_view()[i as int] == texts[i as int]@);
        if !fits(&texts[i]) {
            return false;
        }
        i = i + 1;
    }
    true
}

/// The index of nodes by tag, with `node` entered under each of `tags` at
/// `rank`.
pub open spec fn tag_all(tagged: Set<Seq<u8>>, tags: Seq<Seq<char>>, rank: u32, node: Seq<char>) -> Set<
    Seq<u8>,
>
    decreases tags.len(),
{
    if tags.len() == 0 {
        tagged
    } else {
        tag_all(tagged, tags.drop_last(), rank, node).insert(ranked_key(tags.last(), rank, node))
    }
}

/// What creating a node leaves behind, given the lowercase forms of its
/// tags. The node gets the next id, a header, a status, its attributes and
/// tags, an entry under its parent in both orders, at rank zero, and one
/// under each tag, and its reply counter starts at zero. Both global
/// counters go up by one.
pub open spec fn node_created(
    s: Snapshot,
    sender: Seq<char>,
    time: u64,
    args: NodeInitArgsView,
    lowered: Seq<Seq<char>>,
) -> Result<Snapshot, ContractError> {
    if !fits_segment(args.parent_id) || !all_fit(lowered) {
        Err(ContractError::InvalidInput)
    } else if s.counter(NUM_NODES_COUNTER_KEY@) + 1 > u64::MAX || s.counter(NODE_ID_COUNTER_KEY@) + 1
        > u64::MAX {
        Err(ContractError::Overflow)
    } else {
        let id = new_node_id(s);
        Ok(
            Snapshot {
                counters: s.counters.insert(
                    NUM_NODES_COUNTER_KEY@,
                    (s.counter(NUM_NODES_COUNTER_KEY@) + 1) as u64,
                ).insert(NODE_ID_COUNTER_KEY@, (s.counter(NODE_ID_COUNTER_KEY@) + 1) as u64),
                children: s.children.insert(pair_key(args.parent_id, id)),
                ranked: s.ranked.insert(ranked_key(args.parent_id, 0, id)),
                headers: s.headers.insert(id, (id, args.parent_id, sender)),
                header_keys: s.header_keys.insert(text_bytes(id)),
                updated_at: s.updated_at.insert(id, time),
                replies: s.replies.insert(id, 0),
                deleted: s.deleted.insert(id, false),
                attributes: s.attributes.insert(
                    id,
                    (time, args.title, args.body, link_records(args.links_or_none())),
                ),
                tags: s.tags.insert(id, args.tags_or_none()),
                tagged: tag_all(s.tagged, lowered, 0, id),
                ..s
            },
        )
    }
}

/// The id that the next node gets: the numeral of the id counter's next
/// value.
pub open spec fn new_node_id(s: Snapshot) -> Seq<char> {
    decimal((s.counter(NODE_ID_COUNTER_KEY@) + 1) as nat)
}

/// The two counters have different names.
pub proof fn lemma_counter_names_differ()
    ensures
        NUM_NODES_COUNTER_KEY@ != NODE_ID_COUNTER_KEY@,
{
    reveal_strlit("node_id");
    reveal_strlit("num_nodes");
    assert(NODE_ID_COUNTER_KEY@.len() == 7);
    assert(NUM_NODES_COUNTER_KEY@.len() == 9);
}

/// Creates a node, given the lowercase forms of its tags. A parent id or a
/// tag too long for a key is `InvalidInput`; a counter at its end is an
/// `Overflow`. A call that fails leaves the store as it was.
pub fn create_node(
    store: &mut Store,
    sender: &String,
    time: u64,
    args: NodeInitArgs,
    lowered_tags: &Vec<String>,
) -> (r: Result<(), ContractError>)
    ensures
        garbles_nothing(*old(store), *final(store)),
        answers(
            match r {
                Ok(_) => Ok(final(store)@),
                Err(e) => Err(e),
            },
            node_created(old(store)@, sender@, time, args@, lowered_tags.deep_view()),
            old(store).is_intact(),
        ),
        r is Err ==> final(store)@ == old(store)@,
        !fits_segment(args@.parent_id) || !all_fit(lowered_tags.deep_view()) ==> r == Err::<
            (),
            ContractError,
        >(ContractError::InvalidInput),
{
    if !fits(&args.parent_id) || !fit_all(lowered_tags) {
        return Err(ContractError::InvalidInput);
    }
    proof {
        lemma_counter_names_differ();
    }
    let ghost s0 = store@;
    let ghost lowered = lowered_tags.deep_view();
    // The total count of nodes and the next node id, before anything is
    // written.
    let count = next_counter(store, NUM_NODES_COUNTER_KEY, 1u64)?;
    let number = next_counter(store, NODE_ID_COUNTER_KEY, 1u64)?;
    let node_id = format_decimal(number as u128);
    assert(node_id@ == new_node_id(s0));
    storage_result(store.save_counter(NUM_NODES_COUNTER_KEY, count))?;
    storage_result(store.save_counter(NODE_ID_COUNTER_KEY, number))?;

    // The entries for looking up children by parent, in both orders.
    storage_result(store.save_child(&args.parent_id, &node_id))?;
    storage_result(store.save_ranked(&args.parent_id, 0, &node_id))?;

    // What every operation on the node reads.
    let header: HeaderRecord = (node_id.clone(), args.parent_id.clone(), sender.clone());
    storage_result(store.save_header(&node_id, &header))?;

    // What single operations change.
    storage_result(store.save_updated_at(&node_id, time))?;
    storage_result(store.save_replies(&node_id, 0))?;
    storage_result(store.save_deleted(&node_id, false))?;

    // What only the creator's edits change.
    let links = match args.links {
        Some(links) => links,
        None => Vec::new(),
    };
    assert(links_view(links@) =~= args@.links_or_none());
    let node_data = NodeAttributes { created_at: time, title: args.title, body: args.body, links };
    save_attributes(store, &node_id, node_data)?;

    let tags: Vec<String> = match args.tags {
        Some(tags) => tags,
        None => Vec::new(),
    };
    assert(tags.deep_view() =~= args@.tags_or_none());
    storage_result(store.save_tags(&node_id, &tags))?;

    // The entries for finding the node by its tags.
    let ghost base = store@;
    let mut i: usize = 0;
    while i < lowered_tags.len()
        invariant
            0 <= i <= lowered_tags.len(),
            lowered == lowered_tags.deep_view(),
            all_fit(lowered),
            store@ == (Snapshot { tagged: tag_all(base.tagged, lowered.take(i as int), 0, node_id@), ..base }),
            garbles_nothing(*old(store), *store),
        decreases lowered_tags.len() - i,
    {
        assert(lowered[i as int] == lowered_tags[i as int]@);
        storage_result(store.save_tagged(&lowered_tags[i], 0, &node_id))?;
        assert(lowered.take(i + 1).drop_last() =~= lowered.take(i as int));
        i = i + 1;
    }
    assert(lowered.take(i as int) =~= lowered);
    Ok(())
}

/// What `init_node` leaves behind.
pub open spec fn node_initialized(s: Snapshot, sender: Seq<char>, time: u64, args: NodeInitArgsView) -> Result<
    Snapshot,
    ContractError,
> {
    node_created(s, sender, time, args, lowercase_all(args.tags_or_none()))
}

/// Creates a node under the next id. Its tags are indexed in lowercase. A
/// call that fails leaves the store as it was.
pub fn init_node(store: &mut Store, sender: &String, time: u64, args: NodeInitArgs) -> (r: Result<
    (),
    ContractError,
>)
    ensures
        garbles_nothing(*old(store), *final(store)),
        answers(
            match r {
                Ok(_) => Ok(final(store)@),
                Err(e) => Err(e),
            },
            node_initialized(old(store)@, sender@, time, args@),
            old(store).is_intact(),
        ),
        r is Err ==> final(store)@ == old(store)@,
        !fits_segment(args@.parent_id) || !all_fit(lowercase_all(args@.tags_or_none())) ==> r == Err::<
            (),
            ContractError,
        >(ContractError::InvalidInput),
{
    let lowered = match &args.tags {
        Some(tags) => lowercase_list(tags),
        None => Vec::new(),
    };
    assert(lowered.deep_view() =~= lowercase_all(args@.tags_or_none()));
    create_node(store, sender, time, args, &lowered)
}

/// What the first call leaves behind: the root post, whose parent is the
/// empty id whatever the message says, the tree's time and creator, a
/// royalty total of zero, the configuration, and the operator, who is the
/// sender where none is named.
pub open spec fn initialized(
    s: Snapshot,
    sender: Seq<char>,
    time: u64,
    config: ConfigView,
    operator: Option<Seq<char>>,
    root: NodeInitArgsView,
) -> Result<Snapshot, ContractError> {
    match node_initialized(s, sender, time, NodeInitArgsView { parent_id: Seq::empty(), ..root }) {
        Ok(with_root) => Ok(
            Snapshot {
                created_at: Some(time),
                created_by: Some(sender),
                royalties: Some(0u128),
                config: Some(config_record(config)),
                operator: Some(
                    match operator {
                        Some(o) => o,
                        None => sender,
                    },
                ),
                ..with_root
            },
        ),
        Err(e) => Err(e),
    }
}

/// Sets the tree up: creates the root post and stores the global records. A
/// call that fails leaves the store as it was.
pub fn init(store: &mut Store, sender: &String, time: u64, msg: InstantiateMsg) -> (r: Result<
    Response,
    ContractError,
>)
    ensures
        garbles_nothing(*old(store), *final(store)),
        answers(
            match r {
                Ok(resp) => Ok((final(store)@, resp@)),
                Err(e) => Err(e),
            },
            match initialized(old(store)@, sender@, time, msg.config@, msg.operator.deep_view(), msg.root@) {
                Ok(s) => Ok((s, ResponseView::action("instantiate"@))),
                Err(e) => Err(e),
            },
            old(store).is_intact(),
        ),
        r is Err ==> final(store)@ == old(store)@,
{
    let InstantiateMsg { config, operator, root } = msg;

    // The root's parent is the empty id.
    let ghost given = root@;
    let NodeInitArgs { title, body, links, tags, parent_id: _ } = root;
    let root = NodeInitArgs { title, body, links, tags, parent_id: String::new() };
    assert(root@ == (NodeInitArgsView { parent_id: Seq::empty(), ..given }));
    init_node(store, sender, time, root)?;

    storage_result(store.save_created_at(time))?;
    storage_result(store.save_created_by(sender))?;
    storage_result(store.save_royalties(0))?;
    storage_result(store.save_config(&config_to_record(&config)))?;
    let operator = match operator {
        Some(o) => o,
        None => sender.clone(),
    };
    storage_result(store.save_operator(&operator))?;
    Ok(Response::action("instantiate"))
}

} // verus!

use vstd::prelude::*;
use crate::models::{links_view, nodes_view, Config, ConfigView, Link, LinkView, Node, NodeView};

verus! {

/// What the first call takes: the configuration, the operator and the root
/// post.
#[derive(Clone, Debug, PartialEq, Eq)]
pub struct InstantiateMsg {
    pub config: Config,
    /// The operator; the sender where none is given.
    pub operator: Option<String>,
    pub root: NodeInitArgs,
}

/// A request that changes the tree.
#[derive(Clone, Debug, PartialEq, Eq)]
pub enum ExecuteMsg {
    Configure(Config),
    Reply(NodeInitArgs),
    React(ReactMsg),
    Like(LikeMsg),
    Tip(TipMsg),
    Delete(DeleteMsg),
}

/// A request for a page of nodes.
#[derive(Clone, Debug, PartialEq, Eq)]
pub enum NodesQueryMsg {
    ByParentId(NodesByParentIdQueryArgs),
    ByIds(NodesByIdQueryArgs),
    ByTag(NodesByTagQueryArgs),
}

/// A request that reads the tree.
#[derive(Clone, Debug, PartialEq, Eq)]
pub enum QueryMsg {
    Info {  },
    Cost(CostQueryArgs),
    Nodes(NodesQueryMsg),
    Chat(ChatQueryArgs),
}

/// What a migration takes: nothing.
#[derive(Clone, Copy, Debug, PartialEq, Eq, Structural)]
pub struct MigrateMsg {}

/// The deletion of a node.
#[derive(Clone, Debug, PartialEq, Eq)]
pub struct DeleteMsg {
    pub node_id: String,
}

/// A tip for the creator of a node.
#[derive(Clone, Debug, PartialEq, Eq)]
pub struct TipMsg {
    pub node_id: String,
    pub tip_amount: u128,
}

/// A like or unlike of a node, with the tip that goes with it, if any.
#[derive(Clone, Debug, PartialEq, Eq)]
pub struct LikeMsg {
    pub node_id: String,
    pub tip_amount: Option<u128>,
}

/// A reaction to a node.
#[derive(Clone, Debug, PartialEq, Eq)]
pub enum ReactMsg {
    Image(String),
    Emoji(String),
}

/// A page of all nodes, in the order of their numbers.
#[derive(Clone, Debug, PartialEq, Eq)]
pub struct ChatQueryArgs {
    pub limit: u8,
    pub desc: Option<bool>,
    /// The id of the last node of the page before.
    pub cursor: Option<String>,
}

/// A page of the nodes, in the order of their ids as keys.
#[derive(Clone, Debug, PartialEq, Eq)]
pub struct NodesByIdQueryArgs {
    pub ids: Vec<String>,
    pub order_by: OrderBy,
    pub limit: u8,
    pub desc: bool,
    /// The id of the last node of the page before.
    pub cursor: Option<Vec<String>>,
}

/// A page of the children of one node.
#[derive(Clone, Debug, PartialEq, Eq)]
pub struct NodesByParentIdQueryArgs {
    pub parent_id: String,
    pub order_by: OrderBy,
    pub limit: u8,
    pub desc: bool,
    /// Of the last node of the page before: its id where the order is by
    /// time; its rank, then its id, where the order is by likes.
    pub cursor: Option<Vec<String>>,
}

/// A page of the nodes that carry one tag, by rank.
#[derive(Clone, Debug, PartialEq, Eq)]
pub struct NodesByTagQueryArgs {
    pub tag: String,
    pub limit: u8,
    pub desc: bool,
    /// Of the last node of the page before: its rank, then its id.
    pub cursor: Option<Vec<String>>,
}

/// The order in which the children of a node are listed.
#[derive(Clone, Copy, Debug, PartialEq, Eq, Structural)]
pub enum OrderBy {
    Time,
    Likes,
}

/// What the cost is asked of: a node to be, and whether it replaces one.
#[derive(Clone, Debug, PartialEq, Eq)]
pub struct CostQueryArgs {
    pub node: NodeInitArgs,
    pub is_update: bool,
}

/// What a new node is made of.
#[derive(Clone, Debug, PartialEq, Eq)]
pub struct NodeInitArgs {
    pub title: String,
    pub body: Option<String>,
    pub links: Option<Vec<Link>>,
    pub tags: Option<Vec<String>>,
    pub parent_id: String,
}

/// What a new node is made of, as contracts see it.
pub struct NodeInitArgsView {
    pub title: Seq<char>,
    pub body: Option<Seq<char>>,
    pub links: Option<Seq<LinkView>>,
    pub tags: Option<Seq<Seq<char>>>,
    pub parent_id: Seq<char>,
}

impl View for NodeInitArgs {
    type V = NodeInitArgsView;

    open spec fn view(&self) -> NodeInitArgsView {
        NodeInitArgsView {
            title: self.title@,
            body: self.body.deep_view(),
            links: match self.links {
                Some(links) => Some(links_view(links@)),
                None => None,
            },
            tags: self.tags.deep_view(),
            parent_id: self.parent_id@,
        }
    }
}

impl NodeInitArgsView {
    /// The links of the node: none where none are given.
    pub open spec fn links_or_none(self) -> Seq<LinkView> {
        match self.links {
            Some(links) => links,
            None => Seq::empty(),
        }
    }

    /// The tags of the node: none where none are given.
    pub open spec fn tags_or_none(self) -> Seq<Seq<char>> {
        match self.tags {
            Some(tags) => tags,
            None => Seq::empty(),
        }
    }
}

/// The configuration, as an answer of its own.
#[derive(Clone, Debug, PartialEq, Eq)]
pub struct ConfigResponse(pub Config);

/// A page of nodes from an index.
#[derive(Clone, Debug, PartialEq, Eq)]
pub struct NodesPaginationResponse {
    /// Where the next page starts; nothing at the end of the data.
    pub cursor: Option<Vec<String>>,
    pub nodes: Vec<Node>,
}

/// A page of nodes from an index, as contracts see it.
pub struct NodesPageView {
    pub cursor: Option<Seq<Seq<char>>>,
    pub nodes: Seq<NodeView>,
}

impl View for NodesPaginationResponse {
    type V = NodesPageView;

    open spec fn view(&self) -> NodesPageView {
        NodesPageView { cursor: self.cursor.deep_view(), nodes: nodes_view(self.nodes@) }
    }
}

/// A page of the flat list of all nodes.
#[derive(Clone, Debug, PartialEq, Eq)]
pub struct ChatPaginationResponse {
    /// Where the next page starts; nothing at the end of the data.
    pub cursor: Option<String>,
    pub nodes: Vec<Node>,
}

/// A page of the flat list of all nodes, as contracts see it.
pub struct ChatPageView {
    pub cursor: Option<Seq<char>>,
    pub nodes: Seq<NodeView>,
}

impl View for ChatPaginationResponse {
    type V = ChatPageView;

    open spec fn view(&self) -> ChatPageView {
        ChatPageView { cursor: self.cursor.deep_view(), nodes: nodes_view(self.nodes@) }
    }
}

/// The four parts of a node's cost.
#[derive(Clone, Copy, Debug, PartialEq, Eq, Structural)]
pub struct NodeCostSubtotals {
    pub creation: u128,
    pub body: u128,
    pub tags: u128,
    pub links: u128,
}

/// The tree's global records.
#[derive(Clone, Debug, PartialEq, Eq)]
pub struct InfoResponse {
    pub operator: String,
    pub config: Config,
    pub royalties: u128,
    pub n_nodes: u64,
}

/// The tree's global records, as contracts see them.
pub struct InfoView {
    pub operator: Seq<char>,
    pub config: ConfigView,
    pub royalties: u128,
    pub n_nodes: u64,
}

impl View for InfoResponse {
    type V = InfoView;

    open spec fn view(&self) -> InfoView {
        InfoView {
            operator: self.operator@,
            config: self.config@,
            royalties: self.royalties,
            n_nodes: self.n_nodes,
        }
    }
}

/// The cost of a node: the total, and the parts it is the sum of.
#[derive(Clone, Copy, Debug, PartialEq, Eq, Structural)]
pub struct CostResponse {
    pub total: u128,
    pub subtotals: NodeCostSubtotals,
}

} // verus!

use vstd::prelude::*;
use crate::error::{answers, ContractError};
use crate::execute::configure::exec_configure;
use crate::execute::delete::{deleted, exec_delete_node};
use crate::execute::like::{exec_toggle_like, liked};
use crate::execute::react::exec_toggle_reaction;
use crate::execute::reply::exec_reply;
use crate::execute::tip::{exec_tip, tip_sent};
use crate::execute::Context;
use crate::models::{Response, ResponseView};
use crate::msg::{
    ChatPageView, ChatPaginationResponse, CostResponse, ExecuteMsg, InfoResponse, InfoView, InstantiateMsg,
    NodesPageView, NodesPaginationResponse, NodesQueryMsg, QueryMsg,
};
use crate::query::cost::{cost, query_cost};
use crate::query::info::{info, query_info};
use crate::query::nodes::{
    chatted, children_walk, listed, query_chat, query_nodes_by_ids, query_nodes_by_parent_id,
    query_nodes_by_tag,
};
use crate::query::walk::Walk;
use crate::records::config_record;
use crate::state::{init, initialized, node_initialized};
use crate::store::{garbles_nothing, Snapshot, Store};
use crate::text::lowercase_of;

verus! {

/// What a query hands back.
#[derive(Clone, Debug, PartialEq, Eq)]
pub enum QueryResponse {
    Info(InfoResponse),
    Cost(CostResponse),
    Nodes(NodesPaginationResponse),
    Chat(ChatPaginationResponse),
}

/// What a query hands back, as contracts see it.
pub enum QueryResponseView {
    Info(InfoView),
    Cost(CostResponse),
    Nodes(NodesPageView),
    Chat(ChatPageView),
}

impl View for QueryResponse {
    type V = QueryResponseView;

    open spec fn view(&self) -> QueryResponseView {
        match self {
            QueryResponse::Info(r) => QueryResponseView::Info(r@),
            QueryResponse::Cost(r) => QueryResponseView::Cost(*r),
            QueryResponse::Nodes(r) => QueryResponseView::Nodes(r@),
            QueryResponse::Chat(r) => QueryResponseView::Chat(r@),
        }
    }
}

/// The first call: sets the tree up and creates the root post.
pub fn instantiate(store: &mut Store, ctx: &Context, msg: InstantiateMsg) -> (r: Result<
    Response,
    ContractError,
>)
    ensures
        garbles_nothing(*old(store), *final(store)),
        answers(
            match r {
                Ok(resp) => Ok((final(store)@, resp@)),
                Err(e) => Err(e),
            },
            match initialized(
                old(store)@,
                ctx.sender@,
                ctx.time,
                msg.config@,
                msg.operator.deep_view(),
                msg.root@,
            ) {
                Ok(s) => Ok((s, ResponseView::action("instantiate"@))),
                Err(e) => Err(e),
            },
            old(store).is_intact(),
        ),
        r is Err ==> final(store)@ == old(store)@,
{
    init(store, &ctx.sender, ctx.time, msg)
}

/// What a request that changes the tree leaves behind and hands back.
pub open spec fn executed(s: Snapshot, sender: Seq<char>, time: u64, msg: ExecuteMsg) -> Result<
    (Snapshot, ResponseView),
    ContractError,
> {
    match msg {
        ExecuteMsg::Configure(config) => Ok(
            (Snapshot { config: Some(config_record(config@)), ..s }, ResponseView::action("set_config"@)),
        ),
        ExecuteMsg::Reply(args) => match node_initialized(s, sender, time, args@) {
            Ok(after) => Ok((after, ResponseView::action("reply"@))),
            Err(e) => Err(e),
        },
        ExecuteMsg::React(_) => Ok((s, ResponseView::action("react"@))),
        ExecuteMsg::Like(like) => liked(s, sender, like.node_id@, like.tip_amount),
        ExecuteMsg::Tip(tip) => tip_sent(s, tip.node_id@, tip.tip_amount),
        ExecuteMsg::Delete(delete) => deleted(s, delete.node_id@),
    }
}

/// Carries out a request that changes the tree.
pub fn execute(store: &mut Store, ctx: &Context, msg: ExecuteMsg) -> (r: Result<Response, ContractError>)
    ensures
        garbles_nothing(*old(store), *final(store)),
        answers(
            match r {
                Ok(resp) => Ok((final(store)@, resp@)),
                Err(e) => Err(e),
            },
            executed(old(store)@, ctx.sender@, ctx.time, msg),
            old(store).is_intact(),
        ),
        r is Err ==> final(store)@ == old(store)@,
{
    match msg {
        // Overwrite the configuration.
        ExecuteMsg::Configure(config) => exec_configure(store, config),
        // Create a node under an existing one.
        ExecuteMsg::Reply(args) => exec_reply(store, ctx, args),
        // Toggle a like of a node.
        ExecuteMsg::Like(like) => exec_toggle_like(store, ctx, like),
        // Toggle a reaction to a node.
        ExecuteMsg::React(react) => exec_toggle_reaction(store, react),
        // Send the creator of a node a tip.
        ExecuteMsg::Tip(tip) => exec_tip(store, tip),
        // Delete the content of a node.
        ExecuteMsg::Delete(delete) => exec_delete_node(store, delete),
    }
}

/// What a request that reads the tree hands back.
pub open spec fn queried(s: Snapshot, msg: QueryMsg) -> Result<QueryResponseView, ContractError> {
    match msg {
        QueryMsg::Info {  } => match info(s) {
            Ok(r) => Ok(QueryResponseView::Info(r)),
            Err(e) => Err(e),
        },
        QueryMsg::Cost(args) => match cost(s, args.node@, args.is_update) {
            Ok(r) => Ok(QueryResponseView::Cost(r)),
            Err(e) => Err(e),
        },
        QueryMsg::Chat(args) => match chatted(s, args.limit, args.desc, args.cursor.deep_view()) {
            Ok(r) => Ok(QueryResponseView::Chat(r)),
            Err(e) => Err(e),
        },
        QueryMsg::Nodes(nodes) => match (match nodes {
            NodesQueryMsg::ByParentId(args) => listed(
                s,
                children_walk(args.parent_id@, args.order_by),
                args.limit,
                args.desc,
                args.cursor.deep_view(),
            ),
            NodesQueryMsg::ByIds(args) => listed(
                s,
                Walk::Headers,
                args.limit,
                args.desc,
                args.cursor.deep_view(),
            ),
            NodesQueryMsg::ByTag(args) => listed(
                s,
                Walk::Tagged(lowercase_of(args.tag@)),
                args.limit,
                args.desc,
                args.cursor.deep_view(),
            ),
        }) {
            Ok(r) => Ok(QueryResponseView::Nodes(r)),
            Err(e) => Err(e),
        },
    }
}

/// Answers a request that reads the tree.
pub fn query(store: &Store, msg: QueryMsg) -> (r: Result<QueryResponse, ContractError>)
    ensures
        answers(
            match r {
                Ok(resp) => Ok(resp@),
                Err(e) => Err(e),
            },
            queried(store@, msg),
            store.is_intact(),
        ),
{
    match msg {
        // The tree's global records.
        QueryMsg::Info {  } => Ok(QueryResponse::Info(query_info(store)?)),
        // The cost of a node, given what it would be made of.
        QueryMsg::Cost(args) => Ok(QueryResponse::Cost(query_cost(store, args)?)),
        // All nodes as a flat list, by number.
        QueryMsg::Chat(args) => Ok(QueryResponse::Chat(query_chat(store, args)?)),
        QueryMsg::Nodes(nodes) => match nodes {
            NodesQueryMsg::ByParentId(args) => Ok(QueryResponse::Nodes(query_nodes_by_parent_id(store, args)?)),
            NodesQueryMsg::ByIds(args) => Ok(QueryResponse::Nodes(query_nodes_by_ids(store, args)?)),
            NodesQueryMsg::ByTag(args) => Ok(QueryResponse::Nodes(query_nodes_by_tag(store, args)?)),
        },
    }
}

} // verus!

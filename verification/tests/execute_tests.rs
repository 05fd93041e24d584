use cosmwasm_std::testing::MockStorage;
use cw_post::error::ContractError;
use cw_post::execute::configure::exec_configure;
use cw_post::execute::delete::exec_delete_node;
use cw_post::execute::like::{exec_toggle_like, toggle_like};
use cw_post::execute::react::exec_toggle_reaction;
use cw_post::execute::reply::exec_reply;
use cw_post::execute::tip::{exec_tip, process_tip_amount};
use cw_post::execute::Context;
use cw_post::models::{Config, FeeParams, NodeStatus, Payment, Token};
use cw_post::msg::{
    ChatQueryArgs, CostQueryArgs, DeleteMsg, InstantiateMsg, LikeMsg, NodeInitArgs, NodesByParentIdQueryArgs,
    NodesByTagQueryArgs, OrderBy, ReactMsg, TipMsg,
};
use cw_post::query::cost::query_cost;
use cw_post::query::info::query_info;
use cw_post::query::nodes::{query_chat, query_nodes_by_parent_id, query_nodes_by_tag};
use cw_post::state::init;
use cw_post::store::Store;

fn fees(creation: u128, tip_pct: u128) -> FeeParams {
    FeeParams { creation, reaction: 0, link: 0, text: 0, tag: 0, tip_pct }
}

fn config(creation: u128, tip_pct: u128, fee_recipient: Option<&str>) -> Config {
    Config {
        token: Token::Denom("ujuno".to_string()),
        fee_recipient: fee_recipient.map(|s| s.to_string()),
        fees: fees(creation, tip_pct),
    }
}

fn node_args(parent: &str, title: &str, tags: &[&str]) -> NodeInitArgs {
    NodeInitArgs {
        title: title.to_string(),
        body: None,
        links: None,
        tags: if tags.is_empty() {
            None
        } else {
            Some(tags.iter().map(|t| t.to_string()).collect())
        },
        parent_id: parent.to_string(),
    }
}

fn setup(store: &mut Store, cfg: Config) {
    let msg = InstantiateMsg { config: cfg, operator: None, root: node_args("ignored", "root", &[]) };
    let resp = init(store, &"creator".to_string(), 1, msg).unwrap();
    assert_eq!(resp.attributes, vec![("action".to_string(), "instantiate".to_string())]);
}

fn ctx(sender: &str) -> Context {
    Context { sender: sender.to_string(), time: 5 }
}

fn chat(store: &Store, limit: u8, desc: Option<bool>, cursor: Option<&str>) -> (Vec<String>, Option<String>) {
    let page = query_chat(store, ChatQueryArgs { limit, desc, cursor: cursor.map(|s| s.to_string()) }).unwrap();
    (page.nodes.iter().map(|n| n.id.clone()).collect(), page.cursor)
}

fn ranked_children(store: &Store, parent: &str) -> Vec<(String, u32)> {
    let args = NodesByParentIdQueryArgs {
        parent_id: parent.to_string(),
        order_by: OrderBy::Likes,
        limit: 50,
        desc: false,
        cursor: None,
    };
    query_nodes_by_parent_id(store, args).unwrap().nodes.iter().map(|n| (n.id.clone(), n.n_likes)).collect()
}

#[test]
fn root_is_node_one_with_empty_parent() {
    let mut ms = MockStorage::new();
    let mut store = Store { storage: &mut ms };
    setup(&mut store, config(0, 0, None));
    let (ids, cursor) = chat(&store, 10, None, None);
    assert_eq!(ids, vec!["1"]);
    assert_eq!(cursor, None);
    let page = query_chat(&store, ChatQueryArgs { limit: 10, desc: None, cursor: None }).unwrap();
    assert_eq!(page.nodes[0].parent_id, "");
    assert_eq!(page.nodes[0].created_by, "creator");
    assert_eq!(page.nodes[0].title, "root");
    assert_eq!(page.nodes[0].status, NodeStatus::Normal);
    let info = query_info(&store).unwrap();
    assert_eq!(info.n_nodes, 1);
    assert_eq!(info.operator, "creator");
    assert_eq!(info.royalties, 0);
}

#[test]
fn replies_get_ids_without_gaps() {
    let mut ms = MockStorage::new();
    let mut store = Store { storage: &mut ms };
    setup(&mut store, config(0, 0, None));
    for i in 0..11 {
        let resp = exec_reply(&mut store, &ctx("bob"), node_args("1", &format!("r{}", i), &[])).unwrap();
        assert_eq!(resp.attributes, vec![("action".to_string(), "reply".to_string())]);
    }
    let (ids, cursor) = chat(&store, 50, None, None);
    assert_eq!(ids, vec!["1", "2", "3", "4", "5", "6", "7", "8", "9", "10", "11", "12"]);
    assert_eq!(cursor, None);
    assert_eq!(query_info(&store).unwrap().n_nodes, 12);
}

#[test]
fn chat_pages_in_both_directions() {
    let mut ms = MockStorage::new();
    let mut store = Store { storage: &mut ms };
    setup(&mut store, config(0, 0, None));
    for i in 0..4 {
        exec_reply(&mut store, &ctx("bob"), node_args("1", &format!("r{}", i), &[])).unwrap();
    }
    let (ids, cursor) = chat(&store, 2, Some(false), None);
    assert_eq!(ids, vec!["1", "2"]);
    assert_eq!(cursor, Some("2".to_string()));
    let (ids, cursor) = chat(&store, 2, Some(false), cursor.as_deref());
    assert_eq!(ids, vec!["3", "4"]);
    assert_eq!(cursor, Some("4".to_string()));
    let (ids, cursor) = chat(&store, 2, Some(false), cursor.as_deref());
    assert_eq!(ids, vec!["5"]);
    assert_eq!(cursor, None);
    let (ids, cursor) = chat(&store, 3, Some(true), None);
    assert_eq!(ids, vec!["5", "4", "3"]);
    assert_eq!(cursor, Some("3".to_string()));
    let (ids, cursor) = chat(&store, 3, Some(true), cursor.as_deref());
    assert_eq!(ids, vec!["2", "1"]);
    assert_eq!(cursor, None);
    let r = query_chat(&store, ChatQueryArgs { limit: 3, desc: None, cursor: Some("x1".to_string()) });
    assert_eq!(r, Err(ContractError::InvalidInput));
}

#[test]
fn cost_of_root_is_creation_fee() {
    let mut ms = MockStorage::new();
    let mut store = Store { storage: &mut ms };
    setup(&mut store, config(100000, 0, None));
    let args = CostQueryArgs {
        node: NodeInitArgs {
            title: String::new(),
            body: Some(String::new()),
            links: Some(vec![]),
            tags: Some(vec![]),
            parent_id: String::new(),
        },
        is_update: false,
    };
    let cost = query_cost(&store, args).unwrap();
    assert_eq!(cost.total, 100000);
    assert_eq!(cost.subtotals.creation, 100000);
    assert_eq!(cost.subtotals.body, 0);
    assert_eq!(cost.subtotals.tags, 0);
    assert_eq!(cost.subtotals.links, 0);
}

#[test]
fn like_then_unlike_moves_and_removes_rank_entry() {
    let mut ms = MockStorage::new();
    let mut store = Store { storage: &mut ms };
    setup(&mut store, config(0, 0, None));
    exec_reply(&mut store, &ctx("bob"), node_args("1", "reply", &[])).unwrap();
    assert_eq!(ranked_children(&store, "1"), vec![("2".to_string(), 0)]);

    let like = LikeMsg { node_id: "2".to_string(), tip_amount: None };
    let resp = exec_toggle_like(&mut store, &ctx("A"), like.clone()).unwrap();
    assert_eq!(resp.attributes, vec![("action".to_string(), "like".to_string())]);
    assert!(resp.payments.is_empty());
    assert_eq!(ranked_children(&store, "1"), vec![("2".to_string(), 1)]);
    // The entry stands at rank one, and at no other.
    let args = NodesByParentIdQueryArgs {
        parent_id: "1".to_string(),
        order_by: OrderBy::Likes,
        limit: 50,
        desc: false,
        cursor: Some(vec!["0".to_string(), "".to_string()]),
    };
    let page = query_nodes_by_parent_id(&store, args).unwrap();
    assert_eq!(page.nodes.len(), 1);
    assert_eq!(page.nodes[0].n_likes, 1);

    exec_toggle_like(&mut store, &ctx("A"), like).unwrap();
    assert_eq!(ranked_children(&store, "1"), vec![]);
    let page = query_chat(&store, ChatQueryArgs { limit: 10, desc: None, cursor: None }).unwrap();
    assert_eq!(page.nodes[1].n_likes, 0);
}

#[test]
fn two_likers_count_twice() {
    let mut ms = MockStorage::new();
    let mut store = Store { storage: &mut ms };
    setup(&mut store, config(0, 0, None));
    exec_reply(&mut store, &ctx("bob"), node_args("1", "a", &[])).unwrap();
    exec_reply(&mut store, &ctx("bob"), node_args("1", "b", &[])).unwrap();
    toggle_like(&mut store, &"3".to_string(), &"A".to_string()).unwrap();
    toggle_like(&mut store, &"3".to_string(), &"B".to_string()).unwrap();
    toggle_like(&mut store, &"2".to_string(), &"A".to_string()).unwrap();
    assert_eq!(ranked_children(&store, "1"), vec![("2".to_string(), 1), ("3".to_string(), 2)]);
    toggle_like(&mut store, &"3".to_string(), &"A".to_string()).unwrap();
    assert_eq!(ranked_children(&store, "1"), vec![("2".to_string(), 1), ("3".to_string(), 1)]);
}

#[test]
fn like_moves_tag_entries_but_unlike_does_not() {
    let mut ms = MockStorage::new();
    let mut store = Store { storage: &mut ms };
    setup(&mut store, config(0, 0, None));
    exec_reply(&mut store, &ctx("bob"), node_args("1", "a", &["Rust"])).unwrap();
    let by_tag = |store: &Store| -> Option<Vec<String>> {
        let args = NodesByTagQueryArgs { tag: "rust".to_string(), limit: 1, desc: false, cursor: None };
        query_nodes_by_tag(store, args).unwrap().cursor
    };
    assert_eq!(by_tag(&store), Some(vec!["0".to_string(), "2".to_string()]));
    toggle_like(&mut store, &"2".to_string(), &"A".to_string()).unwrap();
    assert_eq!(by_tag(&store), Some(vec!["1".to_string(), "2".to_string()]));
    toggle_like(&mut store, &"2".to_string(), &"A".to_string()).unwrap();
    assert_eq!(by_tag(&store), Some(vec!["1".to_string(), "2".to_string()]));
}

#[test]
fn like_of_missing_node_is_not_found() {
    let mut ms = MockStorage::new();
    let mut store = Store { storage: &mut ms };
    setup(&mut store, config(0, 0, None));
    let like = LikeMsg { node_id: "9".to_string(), tip_amount: None };
    assert_eq!(exec_toggle_like(&mut store, &ctx("A"), like), Err(ContractError::NotFound));
}

#[test]
fn tip_is_split_into_fee_and_royalty() {
    let mut ms = MockStorage::new();
    let mut store = Store { storage: &mut ms };
    setup(&mut store, config(0, 50000, Some("treasury")));
    exec_reply(&mut store, &ctx("bob"), node_args("1", "a", &[])).unwrap();
    let resp = exec_tip(&mut store, TipMsg { node_id: "2".to_string(), tip_amount: 1_000_000 }).unwrap();
    assert_eq!(
        resp.payments,
        vec![
            Payment { recipient: "treasury".to_string(), amount: 50000 },
            Payment { recipient: "bob".to_string(), amount: 950000 },
        ]
    );
    assert_eq!(
        resp.attributes,
        vec![
            ("action".to_string(), "tip".to_string()),
            ("fee_amount".to_string(), "50000".to_string()),
            ("fee_recipient".to_string(), "treasury".to_string()),
            ("royalty_amount".to_string(), "950000".to_string()),
        ]
    );
    assert_eq!(query_info(&store).unwrap().royalties, 1_000_000);
    let page = query_chat(&store, ChatQueryArgs { limit: 10, desc: None, cursor: None }).unwrap();
    assert_eq!(page.nodes[1].royalties, 1_000_000);
    assert_eq!(page.nodes[0].royalties, 0);
}

#[test]
fn tip_without_fee_recipient_pays_creator_everything() {
    let mut ms = MockStorage::new();
    let mut store = Store { storage: &mut ms };
    setup(&mut store, config(0, 50000, None));
    let resp = exec_tip(&mut store, TipMsg { node_id: "1".to_string(), tip_amount: 77 }).unwrap();
    assert_eq!(resp.payments, vec![Payment { recipient: "creator".to_string(), amount: 77 }]);
}

#[test]
fn like_with_tip_pays_and_counts() {
    let mut ms = MockStorage::new();
    let mut store = Store { storage: &mut ms };
    setup(&mut store, config(0, 100000, Some("treasury")));
    let like = LikeMsg { node_id: "1".to_string(), tip_amount: Some(10) };
    let resp = exec_toggle_like(&mut store, &ctx("A"), like).unwrap();
    assert_eq!(
        resp.payments,
        vec![
            Payment { recipient: "treasury".to_string(), amount: 1 },
            Payment { recipient: "creator".to_string(), amount: 9 },
        ]
    );
    assert_eq!(query_info(&store).unwrap().royalties, 10);
}

#[test]
fn tip_overflow_is_reported() {
    let mut ms = MockStorage::new();
    let mut store = Store { storage: &mut ms };
    setup(&mut store, config(0, 0, None));
    exec_tip(&mut store, TipMsg { node_id: "1".to_string(), tip_amount: u128::MAX }).unwrap();
    assert_eq!(
        exec_tip(&mut store, TipMsg { node_id: "1".to_string(), tip_amount: 1 }),
        Err(ContractError::Overflow)
    );
    assert_eq!(
        exec_tip(&mut store, TipMsg { node_id: "7".to_string(), tip_amount: 1 }),
        Err(ContractError::NotFound)
    );
}

#[test]
fn tip_split_is_exact() {
    let c = config(0, 333_333, Some("t"));
    assert_eq!(process_tip_amount(10, &c), Ok((7, 3)));
    assert_eq!(process_tip_amount(u128::MAX, &c).map(|(r, f)| r + f), Ok(u128::MAX));
    let all = config(0, 1_000_000, Some("t"));
    assert_eq!(process_tip_amount(10, &all), Ok((0, 10)));
    let too_much = config(0, 2_000_000, Some("t"));
    assert_eq!(process_tip_amount(10, &too_much), Err(ContractError::Overflow));
    let huge = config(0, u128::MAX, Some("t"));
    assert_eq!(process_tip_amount(u128::MAX, &huge), Err(ContractError::Overflow));
}

#[test]
fn configure_overwrites_config() {
    let mut ms = MockStorage::new();
    let mut store = Store { storage: &mut ms };
    setup(&mut store, config(1, 0, None));
    let new = Config {
        token: Token::Address("juno1token".to_string()),
        fee_recipient: Some("t".to_string()),
        fees: FeeParams { creation: 1, reaction: 2, link: 3, text: 4, tag: 5, tip_pct: 6 },
    };
    let resp = exec_configure(&mut store, new.clone()).unwrap();
    assert_eq!(resp.attributes, vec![("action".to_string(), "set_config".to_string())]);
    assert_eq!(query_info(&store).unwrap().config, new);
}

#[test]
fn delete_flips_status() {
    let mut ms = MockStorage::new();
    let mut store = Store { storage: &mut ms };
    setup(&mut store, config(0, 0, None));
    let resp = exec_delete_node(&mut store, DeleteMsg { node_id: "1".to_string() }).unwrap();
    assert_eq!(resp.attributes, vec![("action".to_string(), "delete".to_string())]);
    let page = query_chat(&store, ChatQueryArgs { limit: 10, desc: None, cursor: None }).unwrap();
    assert_eq!(page.nodes[0].status, NodeStatus::Deleted);
    assert_eq!(
        exec_delete_node(&mut store, DeleteMsg { node_id: "5".to_string() }),
        Err(ContractError::NotFound)
    );
}

#[test]
fn reaction_is_acknowledged() {
    let mut ms = MockStorage::new();
    let mut store = Store { storage: &mut ms };
    setup(&mut store, config(0, 0, None));
    let resp = exec_toggle_reaction(&mut store, ReactMsg::Emoji("+1".to_string())).unwrap();
    assert_eq!(resp.attributes, vec![("action".to_string(), "react".to_string())]);
}

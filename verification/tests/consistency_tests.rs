use cosmwasm_std::testing::MockStorage;
use cosmwasm_std::Storage;
use cw_post::contract::{execute, instantiate, query, QueryResponse};
use cw_post::error::ContractError;
use cw_post::execute::like::{clear_like, like_exists, move_ranked, set_like, toggle_like};
use cw_post::execute::Context;
use cw_post::models::{Config, FeeParams, Link, Node, Token};
use cw_post::msg::{
    ChatQueryArgs, CostQueryArgs, DeleteMsg, ExecuteMsg, InstantiateMsg, LikeMsg, NodeInitArgs,
    NodesByIdQueryArgs, NodesByParentIdQueryArgs, NodesQueryMsg, OrderBy, QueryMsg, ReactMsg, TipMsg,
};
use cw_post::query::nodes::{build_node, query_chat, query_nodes_by_parent_id};
use cw_post::state::{create_node, load_config, load_header};
use cw_post::store::Store;

fn config() -> Config {
    Config {
        token: Token::Denom("ujuno".to_string()),
        fee_recipient: None,
        fees: FeeParams { creation: 0, reaction: 0, link: 0, text: 0, tag: 0, tip_pct: 0 },
    }
}

fn args(parent: &str, title: &str) -> NodeInitArgs {
    NodeInitArgs { title: title.to_string(), body: None, links: None, tags: None, parent_id: parent.to_string() }
}

fn ctx(sender: &str) -> Context {
    Context { sender: sender.to_string(), time: 3 }
}

fn tree(ms: &mut MockStorage, replies: usize) {
    let mut store = Store { storage: ms };
    let msg = InstantiateMsg { config: config(), operator: Some("op".to_string()), root: args("x", "root") };
    instantiate(&mut store, &ctx("creator"), msg).unwrap();
    for i in 0..replies {
        execute(&mut store, &ctx("bob"), ExecuteMsg::Reply(args("1", &format!("r{}", i)))).unwrap();
    }
}

fn liked_by(ms: &MockStorage, node: &str, liker: &str) -> bool {
    cw_storage_plus::Map::<(&str, &str), u8>::new("lai").has(ms, (node, liker))
}

fn addr_liked(ms: &MockStorage, liker: &str, node: &str) -> bool {
    cw_storage_plus::Map::<(&str, &str), u8>::new("ali").has(ms, (liker, node))
}

fn ranked_entries(ms: &MockStorage) -> Vec<(String, u32, String)> {
    cw_storage_plus::Map::<(String, u32, String), u8>::new("nrpc")
        .keys(ms, None, None, cosmwasm_std::Order::Ascending)
        .map(|k| k.unwrap())
        .collect()
}

fn ids(nodes: &[Node]) -> Vec<String> {
    nodes.iter().map(|n| n.id.clone()).collect()
}

#[test]
fn like_index_is_written_in_both_directions() {
    let mut ms = MockStorage::new();
    tree(&mut ms, 1);
    assert!(!liked_by(&ms, "2", "A"));
    assert!(!addr_liked(&ms, "A", "2"));
    {
        let mut store = Store { storage: &mut ms };
        toggle_like(&mut store, &"2".to_string(), &"A".to_string()).unwrap();
        assert!(like_exists(&store, &"2".to_string(), &"A".to_string()));
        assert!(!like_exists(&store, &"2".to_string(), &"B".to_string()));
    }
    assert!(liked_by(&ms, "2", "A"));
    assert!(addr_liked(&ms, "A", "2"));
    assert!(!addr_liked(&ms, "2", "A"));
    {
        let mut store = Store { storage: &mut ms };
        toggle_like(&mut store, &"2".to_string(), &"A".to_string()).unwrap();
    }
    assert!(!liked_by(&ms, "2", "A"));
    assert!(!addr_liked(&ms, "A", "2"));
}

#[test]
fn set_and_clear_like_write_both_sides() {
    let mut ms = MockStorage::new();
    {
        let mut store = Store { storage: &mut ms };
        set_like(&mut store, &"n".to_string(), &"l".to_string()).unwrap();
    }
    assert!(liked_by(&ms, "n", "l"));
    assert!(addr_liked(&ms, "l", "n"));
    {
        let mut store = Store { storage: &mut ms };
        clear_like(&mut store, &"n".to_string(), &"l".to_string());
    }
    assert!(!liked_by(&ms, "n", "l"));
    assert!(!addr_liked(&ms, "l", "n"));
}

#[test]
fn each_child_has_one_rank_entry_at_its_count() {
    let mut ms = MockStorage::new();
    tree(&mut ms, 2);
    assert_eq!(
        ranked_entries(&ms),
        vec![
            ("".to_string(), 0, "1".to_string()),
            ("1".to_string(), 0, "2".to_string()),
            ("1".to_string(), 0, "3".to_string()),
        ]
    );
    {
        let mut store = Store { storage: &mut ms };
        toggle_like(&mut store, &"3".to_string(), &"A".to_string()).unwrap();
        toggle_like(&mut store, &"3".to_string(), &"B".to_string()).unwrap();
        toggle_like(&mut store, &"1".to_string(), &"B".to_string()).unwrap();
    }
    assert_eq!(
        ranked_entries(&ms),
        vec![
            ("".to_string(), 1, "1".to_string()),
            ("1".to_string(), 0, "2".to_string()),
            ("1".to_string(), 2, "3".to_string()),
        ]
    );
}

#[test]
fn double_toggle_restores_a_liked_node() {
    let mut ms = MockStorage::new();
    tree(&mut ms, 1);
    {
        let mut store = Store { storage: &mut ms };
        toggle_like(&mut store, &"2".to_string(), &"A".to_string()).unwrap();
    }
    let before: Vec<_> = ms.range(None, None, cosmwasm_std::Order::Ascending).collect();
    {
        let mut store = Store { storage: &mut ms };
        toggle_like(&mut store, &"2".to_string(), &"B".to_string()).unwrap();
        toggle_like(&mut store, &"2".to_string(), &"B".to_string()).unwrap();
    }
    let after: Vec<_> = ms.range(None, None, cosmwasm_std::Order::Ascending).collect();
    assert_eq!(before, after);
    {
        let mut store = Store { storage: &mut ms };
        toggle_like(&mut store, &"2".to_string(), &"A".to_string()).unwrap();
        toggle_like(&mut store, &"2".to_string(), &"A".to_string()).unwrap();
    }
    let again: Vec<_> = ms.range(None, None, cosmwasm_std::Order::Ascending).collect();
    assert_eq!(before, again);
}

#[test]
fn double_toggle_of_a_fresh_node_drops_its_rank_zero_entry() {
    let mut ms = MockStorage::new();
    tree(&mut ms, 1);
    {
        let mut store = Store { storage: &mut ms };
        toggle_like(&mut store, &"2".to_string(), &"A".to_string()).unwrap();
        toggle_like(&mut store, &"2".to_string(), &"A".to_string()).unwrap();
    }
    assert_eq!(ranked_entries(&ms), vec![("".to_string(), 0, "1".to_string())]);
}

#[test]
fn rank_entry_moves_as_one_step() {
    let mut ms = MockStorage::new();
    {
        let mut store = Store { storage: &mut ms };
        move_ranked(&mut store, &"p".to_string(), &"c".to_string(), 0, Some(4)).unwrap();
    }
    assert_eq!(ranked_entries(&ms), vec![("p".to_string(), 4, "c".to_string())]);
    {
        let mut store = Store { storage: &mut ms };
        move_ranked(&mut store, &"p".to_string(), &"c".to_string(), 4, Some(5)).unwrap();
    }
    assert_eq!(ranked_entries(&ms), vec![("p".to_string(), 5, "c".to_string())]);
    {
        let mut store = Store { storage: &mut ms };
        move_ranked(&mut store, &"p".to_string(), &"c".to_string(), 5, None).unwrap();
    }
    assert!(ranked_entries(&ms).is_empty());
}

#[test]
fn pages_put_together_are_the_whole_list() {
    let mut ms = MockStorage::new();
    tree(&mut ms, 23);
    {
        let mut store = Store { storage: &mut ms };
        for (node, liker) in [("5", "A"), ("5", "B"), ("9", "A"), ("17", "C"), ("17", "A"), ("17", "B")] {
            toggle_like(&mut store, &node.to_string(), &liker.to_string()).unwrap();
        }
    }
    let store = Store { storage: &mut ms };
    for order_by in [OrderBy::Time, OrderBy::Likes] {
        for desc in [false, true] {
            let whole = query_nodes_by_parent_id(
                &store,
                NodesByParentIdQueryArgs { parent_id: "1".to_string(), order_by, limit: 50, desc, cursor: None },
            )
            .unwrap();
            assert_eq!(whole.nodes.len(), 23);
            for limit in [1u8, 4, 7, 23] {
                let mut seen: Vec<String> = vec![];
                let mut cursor = None;
                loop {
                    let page = query_nodes_by_parent_id(
                        &store,
                        NodesByParentIdQueryArgs { parent_id: "1".to_string(), order_by, limit, desc, cursor },
                    )
                    .unwrap();
                    seen.extend(ids(&page.nodes));
                    cursor = page.cursor;
                    if cursor.is_none() {
                        break;
                    }
                }
                assert_eq!(seen, ids(&whole.nodes));
            }
        }
    }
}

#[test]
fn ranked_children_come_by_count_then_id() {
    let mut ms = MockStorage::new();
    tree(&mut ms, 4);
    let mut store = Store { storage: &mut ms };
    for (node, liker) in [("3", "A"), ("3", "B"), ("5", "A")] {
        toggle_like(&mut store, &node.to_string(), &liker.to_string()).unwrap();
    }
    let page = query_nodes_by_parent_id(
        &store,
        NodesByParentIdQueryArgs {
            parent_id: "1".to_string(),
            order_by: OrderBy::Likes,
            limit: 50,
            desc: true,
            cursor: None,
        },
    )
    .unwrap();
    assert_eq!(ids(&page.nodes), vec!["3", "5", "4", "2"]);
}

#[test]
fn corrupt_record_is_a_storage_fault() {
    let mut ms = MockStorage::new();
    tree(&mut ms, 0);
    // The key of the header of node "1", with a value that is no header.
    ms.set(b"\x00\x02nh1", b"17");
    let store = Store { storage: &mut ms };
    assert_eq!(load_header(&store, &"1".to_string()), Err(ContractError::Storage));
    let r = query_chat(&store, ChatQueryArgs { limit: 1, desc: None, cursor: None });
    assert_eq!(r, Err(ContractError::Storage));
}

#[test]
fn malformed_key_is_a_storage_fault() {
    let mut ms = MockStorage::new();
    tree(&mut ms, 1);
    // A key under parent "1" in the index by rank, too short to hold a rank.
    ms.set(b"\x00\x04nrpc\x00\x011\x00", b"0");
    let store = Store { storage: &mut ms };
    let r = query_nodes_by_parent_id(
        &store,
        NodesByParentIdQueryArgs {
            parent_id: "1".to_string(),
            order_by: OrderBy::Likes,
            limit: 5,
            desc: false,
            cursor: None,
        },
    );
    assert_eq!(r, Err(ContractError::Storage));
}

#[test]
fn index_entry_without_node_is_not_found() {
    let mut ms = MockStorage::new();
    tree(&mut ms, 1);
    cw_storage_plus::Map::<(&str, &str), u8>::new("npc").save(&mut ms, ("1", "77"), &0).unwrap();
    let store = Store { storage: &mut ms };
    let r = query_nodes_by_parent_id(
        &store,
        NodesByParentIdQueryArgs {
            parent_id: "1".to_string(),
            order_by: OrderBy::Time,
            limit: 5,
            desc: false,
            cursor: None,
        },
    );
    assert_eq!(r, Err(ContractError::NotFound));
}

#[test]
fn missing_config_is_not_found() {
    let mut ms = MockStorage::new();
    let mut store = Store { storage: &mut ms };
    assert_eq!(load_config(&store), Err(ContractError::NotFound));
    let like = LikeMsg { node_id: "1".to_string(), tip_amount: None };
    assert_eq!(execute(&mut store, &ctx("A"), ExecuteMsg::Like(like)), Err(ContractError::NotFound));
    assert_eq!(query(&store, QueryMsg::Info {}), Err(ContractError::NotFound));
}

#[test]
fn node_is_built_from_its_records() {
    let mut ms = MockStorage::new();
    tree(&mut ms, 0);
    let mut store = Store { storage: &mut ms };
    let links = vec![
        Link::Image { url: "https://x/i.png".to_string(), label: Some("pic".to_string()) },
        Link::Audio { url: "https://x/a".to_string(), label: None, provider: "sc".to_string() },
    ];
    let node_args = NodeInitArgs {
        title: "T".to_string(),
        body: Some("a \"quoted\" body\n".to_string()),
        links: Some(links.clone()),
        tags: Some(vec!["Mixed".to_string()]),
        parent_id: "1".to_string(),
    };
    create_node(&mut store, &"carol".to_string(), 99, node_args, &vec!["mixed".to_string()]).unwrap();
    let header = load_header(&store, &"2".to_string()).unwrap();
    let node = build_node(&store, header).unwrap().unwrap();
    assert_eq!(node.id, "2");
    assert_eq!(node.parent_id, "1");
    assert_eq!(node.created_by, "carol");
    assert_eq!(node.created_at, 99);
    assert_eq!(node.updated_at, 99);
    assert_eq!(node.title, "T");
    assert_eq!(node.body, Some("a \"quoted\" body\n".to_string()));
    assert_eq!(node.links, links);
    assert_eq!(node.tags, vec!["Mixed".to_string()]);
    assert_eq!(node.n_likes, 0);
    assert_eq!(node.n_replies, 0);
    assert_eq!(node.n_reactions, 0);
    assert_eq!(node.royalties, 0);
}

#[test]
fn requests_are_dispatched() {
    let mut ms = MockStorage::new();
    tree(&mut ms, 2);
    let mut store = Store { storage: &mut ms };
    let resp = execute(&mut store, &ctx("A"), ExecuteMsg::React(ReactMsg::Image("i".to_string()))).unwrap();
    assert_eq!(resp.attributes[0].1, "react");
    let resp = execute(&mut store, &ctx("A"), ExecuteMsg::Configure(config())).unwrap();
    assert_eq!(resp.attributes[0].1, "set_config");
    let resp = execute(
        &mut store,
        &ctx("A"),
        ExecuteMsg::Tip(TipMsg { node_id: "2".to_string(), tip_amount: 4 }),
    )
    .unwrap();
    assert_eq!(resp.payments[0].recipient, "bob");
    let resp =
        execute(&mut store, &ctx("A"), ExecuteMsg::Delete(DeleteMsg { node_id: "2".to_string() })).unwrap();
    assert_eq!(resp.attributes[0].1, "delete");
    let like = LikeMsg { node_id: "3".to_string(), tip_amount: None };
    execute(&mut store, &ctx("A"), ExecuteMsg::Like(like)).unwrap();

    match query(&store, QueryMsg::Info {}).unwrap() {
        QueryResponse::Info(info) => {
            assert_eq!(info.n_nodes, 3);
            assert_eq!(info.operator, "op");
            assert_eq!(info.royalties, 4);
        },
        other => panic!("{:?}", other),
    }
    match query(&store, QueryMsg::Cost(CostQueryArgs { node: args("1", "t"), is_update: true })).unwrap() {
        QueryResponse::Cost(cost) => assert_eq!(cost.total, 0),
        other => panic!("{:?}", other),
    }
    match query(&store, QueryMsg::Chat(ChatQueryArgs { limit: 9, desc: Some(true), cursor: None })).unwrap() {
        QueryResponse::Chat(page) => assert_eq!(ids(&page.nodes), vec!["3", "2", "1"]),
        other => panic!("{:?}", other),
    }
    let by_ids = NodesByIdQueryArgs {
        ids: vec!["1".to_string()],
        order_by: OrderBy::Time,
        limit: 9,
        desc: true,
        cursor: None,
    };
    match query(&store, QueryMsg::Nodes(NodesQueryMsg::ByIds(by_ids))).unwrap() {
        QueryResponse::Nodes(page) => {
            assert_eq!(ids(&page.nodes), vec!["3", "2", "1"]);
            assert_eq!(page.cursor, None);
        },
        other => panic!("{:?}", other),
    }
    let by_parent = NodesByParentIdQueryArgs {
        parent_id: "1".to_string(),
        order_by: OrderBy::Likes,
        limit: 9,
        desc: false,
        cursor: None,
    };
    match query(&store, QueryMsg::Nodes(NodesQueryMsg::ByParentId(by_parent))).unwrap() {
        QueryResponse::Nodes(page) => assert_eq!(ids(&page.nodes), vec!["2", "3"]),
        other => panic!("{:?}", other),
    }
}

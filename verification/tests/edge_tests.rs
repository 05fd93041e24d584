use cosmwasm_std::testing::MockStorage;
use cw_post::error::ContractError;
use cw_post::execute::like::{like_step, toggle_like, LikeStep, RankMove};
use cw_post::execute::reply::exec_reply;
use cw_post::execute::Context;
use cw_post::models::{Config, FeeParams, Token};
use cw_post::msg::{ChatQueryArgs, InstantiateMsg, NodeInitArgs, NodesByTagQueryArgs};
use cw_post::query::info::query_info;
use cw_post::query::nodes::{list_nodes, query_chat, query_nodes_by_tag};
use cw_post::query::walk::{collect_page, Index};
use cw_post::state::{init, load_attributes, save_attributes, NodeAttributes};
use cw_post::store::Store;

fn config() -> Config {
    Config {
        token: Token::Denom("ujuno".to_string()),
        fee_recipient: None,
        fees: FeeParams { creation: 0, reaction: 0, link: 0, text: 0, tag: 0, tip_pct: 0 },
    }
}

fn args(parent: &str, title: &str, tags: &[&str]) -> NodeInitArgs {
    NodeInitArgs {
        title: title.to_string(),
        body: None,
        links: None,
        tags: if tags.is_empty() {
            None
        } else {
            Some(tags.iter().map(|t| t.to_string()).collect())
        },
        parent_id: parent.to_string(),
    }
}

fn tree(ms: &mut MockStorage, operator: Option<&str>) {
    let mut store = Store { storage: ms };
    let msg = InstantiateMsg {
        config: config(),
        operator: operator.map(|o| o.to_string()),
        root: args("", "root", &[]),
    };
    init(&mut store, &"creator".to_string(), 1, msg).unwrap();
}

fn ctx(sender: &str) -> Context {
    Context { sender: sender.to_string(), time: 8 }
}

#[test]
fn operator_is_the_one_named() {
    let mut ms = MockStorage::new();
    tree(&mut ms, Some("ops"));
    let store = Store { storage: &mut ms };
    assert_eq!(query_info(&store).unwrap().operator, "ops");
}

#[test]
fn stored_counters_show_in_the_node() {
    let mut ms = MockStorage::new();
    tree(&mut ms, None);
    cw_storage_plus::Map::<&str, u16>::new("n_replies").save(&mut ms, "1", &7).unwrap();
    cw_storage_plus::Map::<&str, u16>::new("n_reacts").save(&mut ms, "1", &3).unwrap();
    let store = Store { storage: &mut ms };
    let page = query_chat(&store, ChatQueryArgs { limit: 1, desc: None, cursor: None }).unwrap();
    assert_eq!(page.nodes[0].n_replies, 7);
    assert_eq!(page.nodes[0].n_reactions, 3);
}

#[test]
fn like_count_stays_at_its_ceiling() {
    let mut ms = MockStorage::new();
    tree(&mut ms, None);
    cw_storage_plus::Map::<&str, u32>::new("n_likes").save(&mut ms, "1", &u32::MAX).unwrap();
    {
        let mut store = Store { storage: &mut ms };
        toggle_like(&mut store, &"1".to_string(), &"A".to_string()).unwrap();
        let page = query_chat(&store, ChatQueryArgs { limit: 1, desc: None, cursor: None }).unwrap();
        assert_eq!(page.nodes[0].n_likes, u32::MAX);
    }
    assert!(cw_storage_plus::Map::<(&str, &str), u8>::new("ali").has(&ms, ("A", "1")));
    // The entry under the parent has not moved.
    assert!(cw_storage_plus::Map::<(&str, u32, &str), u8>::new("nrpc").has(&ms, ("", 0, "1")));
}

#[test]
fn like_steps() {
    assert_eq!(like_step(false, 0), LikeStep { likes: true, rank: RankMove::MovesTo(1), tags_follow: true });
    assert_eq!(
        like_step(false, u32::MAX),
        LikeStep { likes: true, rank: RankMove::Stays, tags_follow: false }
    );
    assert_eq!(like_step(true, 0), LikeStep { likes: false, rank: RankMove::Stays, tags_follow: false });
    assert_eq!(like_step(true, 1), LikeStep { likes: false, rank: RankMove::Leaves, tags_follow: false });
    assert_eq!(like_step(true, 9), LikeStep { likes: false, rank: RankMove::MovesTo(8), tags_follow: false });
}

#[test]
fn overlong_ids_are_invalid_input() {
    let mut ms = MockStorage::new();
    tree(&mut ms, None);
    let mut store = Store { storage: &mut ms };
    let long = "x".repeat(0x1_0000);
    assert_eq!(toggle_like(&mut store, &long, &"A".to_string()), Err(ContractError::InvalidInput));
    assert_eq!(toggle_like(&mut store, &"1".to_string(), &long), Err(ContractError::InvalidInput));
    let r = exec_reply(&mut store, &ctx("bob"), args("1", "t", &["ok", &long]));
    assert_eq!(r, Err(ContractError::InvalidInput));
    // Nothing was written for the refused node.
    assert_eq!(query_info(&store).unwrap().n_nodes, 1);
    let r = list_nodes(&store, &Index::Children(&long), 5, false, None);
    assert_eq!(r, Err(ContractError::InvalidInput));
}

#[test]
fn tagged_nodes_descend_by_rank() {
    let mut ms = MockStorage::new();
    tree(&mut ms, None);
    let mut store = Store { storage: &mut ms };
    for i in 0..3 {
        exec_reply(&mut store, &ctx("bob"), args("1", &format!("r{}", i), &["News"])).unwrap();
    }
    toggle_like(&mut store, &"3".to_string(), &"A".to_string()).unwrap();
    let args = NodesByTagQueryArgs { tag: "NEWS".to_string(), limit: 10, desc: true, cursor: None };
    let page = query_nodes_by_tag(&store, args).unwrap();
    let ids: Vec<String> = page.nodes.iter().map(|n| n.id.clone()).collect();
    assert_eq!(ids, vec!["3", "4", "2"]);
    let args = NodesByTagQueryArgs {
        tag: "news".to_string(),
        limit: 10,
        desc: true,
        cursor: Some(vec!["1".to_string(), "3".to_string()]),
    };
    let page = query_nodes_by_tag(&store, args).unwrap();
    let ids: Vec<String> = page.nodes.iter().map(|n| n.id.clone()).collect();
    assert_eq!(ids, vec!["4", "2"]);
}

#[test]
fn page_names_its_last_entry() {
    let mut ms = MockStorage::new();
    tree(&mut ms, None);
    let mut store = Store { storage: &mut ms };
    for i in 0..3 {
        exec_reply(&mut store, &ctx("bob"), args("1", &format!("r{}", i), &[])).unwrap();
    }
    let parent = "1".to_string();
    let (nodes, last) = collect_page(&store, &Index::Ranked(&parent), false, None, 2).unwrap();
    assert_eq!(nodes.len(), 2);
    assert_eq!(last, Some((0, "3".to_string())));
    let (nodes, last) = collect_page(&store, &Index::Ranked(&parent), false, last, 2).unwrap();
    assert_eq!(nodes.len(), 1);
    assert_eq!(last, Some((0, "4".to_string())));
    let (nodes, last) = collect_page(&store, &Index::Children(&parent), true, None, 0).unwrap();
    assert!(nodes.is_empty());
    assert_eq!(last, None);
}

#[test]
fn attributes_are_stored_and_loaded() {
    let mut ms = MockStorage::new();
    let mut store = Store { storage: &mut ms };
    let id = "9".to_string();
    assert_eq!(load_attributes(&store, &id), Err(ContractError::NotFound));
    let attributes = NodeAttributes { created_at: 4, title: "t".to_string(), body: None, links: vec![] };
    save_attributes(&mut store, &id, attributes.clone()).unwrap();
    assert_eq!(load_attributes(&store, &id), Ok(attributes));
}

#[test]
fn link_of_unknown_kind_is_a_storage_fault() {
    let mut ms = MockStorage::new();
    let record: (u64, String, Option<String>, Vec<(u8, String, Option<String>, Option<String>)>) =
        (1, "t".to_string(), None, vec![(7, "u".to_string(), None, None)]);
    cw_storage_plus::Map::<&str, (u64, String, Option<String>, Vec<(u8, String, Option<String>, Option<String>)>)>::new(
        "node_attrs",
    )
    .save(&mut ms, "9", &record)
    .unwrap();
    let store = Store { storage: &mut ms };
    assert_eq!(load_attributes(&store, &"9".to_string()), Err(ContractError::Storage));
}

#[test]
fn odd_characters_are_read_back() {
    let mut ms = MockStorage::new();
    let mut store = Store { storage: &mut ms };
    let id = "\u{0}\u{1f}\"\\/\u{7f}\u{80}\u{7ff}\u{ffff}\u{1F600}\t\r\n".to_string();
    let attributes = NodeAttributes {
        created_at: u64::MAX,
        title: id.clone(),
        body: Some("\u{8}\u{c}\u{2028}\u{2029}\u{10FFFF}".to_string()),
        links: vec![],
    };
    save_attributes(&mut store, &id, attributes.clone()).unwrap();
    assert_eq!(load_attributes(&store, &id), Ok(attributes));
    let mut other = id.clone();
    other.push('x');
    assert_eq!(load_attributes(&store, &other), Err(ContractError::NotFound));
}

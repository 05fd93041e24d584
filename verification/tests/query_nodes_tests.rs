use cosmwasm_std::testing::MockStorage;
use cw_post::error::ContractError;
use cw_post::msg::{
    NodeInitArgs, NodesByIdQueryArgs, NodesByParentIdQueryArgs, NodesByTagQueryArgs, OrderBy,
};
use cw_post::query::nodes::{query_nodes_by_ids, query_nodes_by_parent_id, query_nodes_by_tag};
use cw_post::state::init_node;
use cw_post::store::Store;

fn reply(store: &mut Store, parent: &str, title: &str, tags: &[&str]) {
    let args = NodeInitArgs {
        title: title.to_string(),
        body: None,
        links: None,
        tags: if tags.is_empty() {
            None
        } else {
            Some(tags.iter().map(|t| t.to_string()).collect())
        },
        parent_id: parent.to_string(),
    };
    init_node(store, &"alice".to_string(), 7, args).unwrap();
}

fn by_parent(parent: &str, order_by: OrderBy, limit: u8, desc: bool, cursor: Option<Vec<String>>) -> NodesByParentIdQueryArgs {
    NodesByParentIdQueryArgs { parent_id: parent.to_string(), order_by, limit, desc, cursor }
}

fn ids(nodes: &[cw_post::models::Node]) -> Vec<String> {
    nodes.iter().map(|n| n.id.clone()).collect()
}

#[test]
fn children_by_time_are_paged_in_key_order() {
    let mut ms = MockStorage::new();
    let mut store = Store { storage: &mut ms };
    reply(&mut store, "", "root", &[]);
    for i in 0..5 {
        reply(&mut store, "1", &format!("r{}", i), &[]);
    }
    let page = query_nodes_by_parent_id(&store, by_parent("1", OrderBy::Time, 2, false, None)).unwrap();
    assert_eq!(ids(&page.nodes), vec!["2", "3"]);
    assert_eq!(page.cursor, Some(vec!["3".to_string()]));
    let page = query_nodes_by_parent_id(&store, by_parent("1", OrderBy::Time, 2, false, page.cursor)).unwrap();
    assert_eq!(ids(&page.nodes), vec!["4", "5"]);
    assert_eq!(page.cursor, Some(vec!["5".to_string()]));
    let page = query_nodes_by_parent_id(&store, by_parent("1", OrderBy::Time, 2, false, page.cursor)).unwrap();
    assert_eq!(ids(&page.nodes), vec!["6"]);
    assert_eq!(page.cursor, None);
}

#[test]
fn children_by_time_descending() {
    let mut ms = MockStorage::new();
    let mut store = Store { storage: &mut ms };
    reply(&mut store, "", "root", &[]);
    for i in 0..3 {
        reply(&mut store, "1", &format!("r{}", i), &[]);
    }
    let page = query_nodes_by_parent_id(&store, by_parent("1", OrderBy::Time, 2, true, None)).unwrap();
    assert_eq!(ids(&page.nodes), vec!["4", "3"]);
    assert_eq!(page.cursor, Some(vec!["3".to_string()]));
    let page = query_nodes_by_parent_id(&store, by_parent("1", OrderBy::Time, 2, true, page.cursor)).unwrap();
    assert_eq!(ids(&page.nodes), vec!["2"]);
    // The whole index starts with the root's own entry under the empty parent.
    assert_eq!(page.cursor, Some(vec!["2".to_string()]));
    let page = query_nodes_by_parent_id(&store, by_parent("1", OrderBy::Time, 2, true, page.cursor)).unwrap();
    assert!(page.nodes.is_empty());
    assert_eq!(page.cursor, None);
}

#[test]
fn children_by_likes_carry_rank_in_cursor() {
    let mut ms = MockStorage::new();
    let mut store = Store { storage: &mut ms };
    reply(&mut store, "", "root", &[]);
    reply(&mut store, "1", "a", &[]);
    reply(&mut store, "1", "b", &[]);
    let page = query_nodes_by_parent_id(&store, by_parent("1", OrderBy::Likes, 1, false, None)).unwrap();
    assert_eq!(ids(&page.nodes), vec!["2"]);
    assert_eq!(page.cursor, Some(vec!["0".to_string(), "2".to_string()]));
    let page = query_nodes_by_parent_id(&store, by_parent("1", OrderBy::Likes, 1, false, page.cursor)).unwrap();
    assert_eq!(ids(&page.nodes), vec!["3"]);
    assert_eq!(page.cursor, None);
}

#[test]
fn malformed_cursor_is_invalid_input() {
    let mut ms = MockStorage::new();
    let mut store = Store { storage: &mut ms };
    reply(&mut store, "", "root", &[]);
    let r = query_nodes_by_parent_id(
        &store,
        by_parent("1", OrderBy::Likes, 1, false, Some(vec!["x".to_string(), "2".to_string()])),
    );
    assert_eq!(r, Err(ContractError::InvalidInput));
    let r = query_nodes_by_parent_id(
        &store,
        by_parent("1", OrderBy::Likes, 1, false, Some(vec!["1".to_string()])),
    );
    assert_eq!(r, Err(ContractError::InvalidInput));
    let r = query_nodes_by_parent_id(&store, by_parent("1", OrderBy::Time, 1, false, Some(vec![])));
    assert_eq!(r, Err(ContractError::InvalidInput));
    let r = query_nodes_by_parent_id(
        &store,
        by_parent("1", OrderBy::Likes, 1, false, Some(vec!["4294967296".to_string(), "2".to_string()])),
    );
    assert_eq!(r, Err(ContractError::InvalidInput));
}

#[test]
fn limit_is_clamped_to_fifty() {
    let mut ms = MockStorage::new();
    let mut store = Store { storage: &mut ms };
    reply(&mut store, "", "root", &[]);
    for i in 0..60 {
        reply(&mut store, "1", &format!("r{}", i), &[]);
    }
    let page = query_nodes_by_parent_id(&store, by_parent("1", OrderBy::Time, 200, false, None)).unwrap();
    assert_eq!(page.nodes.len(), 50);
    let page = query_nodes_by_parent_id(&store, by_parent("1", OrderBy::Time, 0, false, None)).unwrap();
    assert!(page.nodes.is_empty());
    assert_eq!(page.cursor, None);
}

#[test]
fn nodes_by_ids_walk_headers_in_key_order() {
    let mut ms = MockStorage::new();
    let mut store = Store { storage: &mut ms };
    reply(&mut store, "", "root", &[]);
    for i in 0..10 {
        reply(&mut store, "1", &format!("r{}", i), &[]);
    }
    let args = NodesByIdQueryArgs { ids: vec![], order_by: OrderBy::Time, limit: 3, desc: false, cursor: None };
    let page = query_nodes_by_ids(&store, args).unwrap();
    // Keys are ordered byte by byte: "10" and "11" come before "2".
    assert_eq!(ids(&page.nodes), vec!["1", "10", "11"]);
    assert_eq!(page.cursor, Some(vec!["11".to_string()]));
    let args = NodesByIdQueryArgs { ids: vec![], order_by: OrderBy::Time, limit: 50, desc: false, cursor: page.cursor };
    let page = query_nodes_by_ids(&store, args).unwrap();
    assert_eq!(ids(&page.nodes), vec!["2", "3", "4", "5", "6", "7", "8", "9"]);
    assert_eq!(page.cursor, None);
}

#[test]
fn nodes_by_tag_are_found_in_lowercase() {
    let mut ms = MockStorage::new();
    let mut store = Store { storage: &mut ms };
    reply(&mut store, "", "root", &["Rust", "news"]);
    reply(&mut store, "1", "a", &["RUST"]);
    reply(&mut store, "1", "b", &["other"]);
    let args = NodesByTagQueryArgs { tag: "rUst".to_string(), limit: 10, desc: false, cursor: None };
    let page = query_nodes_by_tag(&store, args).unwrap();
    assert_eq!(ids(&page.nodes), vec!["1", "2"]);
    assert_eq!(page.cursor, None);
    assert_eq!(page.nodes[0].tags, vec!["Rust".to_string(), "news".to_string()]);
    let args = NodesByTagQueryArgs { tag: "rust".to_string(), limit: 1, desc: false, cursor: None };
    let page = query_nodes_by_tag(&store, args).unwrap();
    assert_eq!(ids(&page.nodes), vec!["1"]);
    assert_eq!(page.cursor, Some(vec!["0".to_string(), "1".to_string()]));
    let args = NodesByTagQueryArgs { tag: "rust".to_string(), limit: 1, desc: false, cursor: page.cursor };
    let page = query_nodes_by_tag(&store, args).unwrap();
    assert_eq!(ids(&page.nodes), vec!["2"]);
    // A full page is followed by a cursor, also at the end of the data.
    assert_eq!(page.cursor, Some(vec!["0".to_string(), "2".to_string()]));
    let args = NodesByTagQueryArgs { tag: "rust".to_string(), limit: 1, desc: false, cursor: page.cursor };
    let page = query_nodes_by_tag(&store, args).unwrap();
    assert!(page.nodes.is_empty());
    assert_eq!(page.cursor, None);
}

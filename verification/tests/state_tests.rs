use cosmwasm_std::testing::MockStorage;
use cw_post::error::ContractError;
use cw_post::msg::NodeInitArgs;
use cw_post::state::{increment_counter, init_node, load_header, NODE_ID_COUNTER_KEY};
use cw_post::store::Store;

fn args(parent: &str, title: &str, tags: Option<Vec<String>>) -> NodeInitArgs {
    NodeInitArgs {
        title: title.to_string(),
        body: None,
        links: None,
        tags,
        parent_id: parent.to_string(),
    }
}

#[test]
fn counter_starts_at_zero_and_counts_up() {
    let mut ms = MockStorage::new();
    let mut store = Store { storage: &mut ms };
    assert_eq!(increment_counter(&mut store, NODE_ID_COUNTER_KEY, 1), Ok(1));
    assert_eq!(increment_counter(&mut store, NODE_ID_COUNTER_KEY, 1), Ok(2));
    assert_eq!(increment_counter(&mut store, NODE_ID_COUNTER_KEY, 5), Ok(7));
}

#[test]
fn counter_overflow_is_reported() {
    let mut ms = MockStorage::new();
    let mut store = Store { storage: &mut ms };
    assert_eq!(increment_counter(&mut store, "c", u64::MAX), Ok(u64::MAX));
    assert_eq!(increment_counter(&mut store, "c", 1), Err(ContractError::Overflow));
}

#[test]
fn nodes_get_successive_ids() {
    let mut ms = MockStorage::new();
    let mut store = Store { storage: &mut ms };
    let sender = "alice".to_string();
    assert_eq!(init_node(&mut store, &sender, 10, args("", "root", None)), Ok(()));
    assert_eq!(init_node(&mut store, &sender, 11, args("1", "reply", None)), Ok(()));
    assert_eq!(init_node(&mut store, &sender, 12, args("1", "again", None)), Ok(()));
    let h1 = load_header(&store, &"1".to_string()).unwrap();
    assert_eq!(h1.id, "1");
    assert_eq!(h1.parent_id, "");
    assert_eq!(h1.created_by, "alice");
    let h3 = load_header(&store, &"3".to_string()).unwrap();
    assert_eq!(h3.parent_id, "1");
    assert_eq!(load_header(&store, &"4".to_string()), Err(ContractError::NotFound));
}

#[test]
fn overlong_parent_is_invalid_input() {
    let mut ms = MockStorage::new();
    let mut store = Store { storage: &mut ms };
    let sender = "alice".to_string();
    let parent = "p".repeat(0x1_0000);
    assert_eq!(
        init_node(&mut store, &sender, 10, args(&parent, "t", None)),
        Err(ContractError::InvalidInput)
    );
    assert_eq!(load_header(&store, &"1".to_string()), Err(ContractError::NotFound));
}

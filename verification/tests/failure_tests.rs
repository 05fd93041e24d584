use cosmwasm_std::testing::MockStorage;
use cosmwasm_std::{Order, Storage};
use cw_post::error::ContractError;
use cw_post::execute::like::{apply_like, exec_toggle_like, prepare_like};
use cw_post::execute::reply::exec_reply;
use cw_post::execute::tip::{apply_tip_if_exists, commit_tip, exec_tip, plan_tip, TipPlan};
use cw_post::execute::Context;
use cw_post::models::{Config, FeeParams, Payment, Response, Token};
use cw_post::msg::{InstantiateMsg, LikeMsg, NodeInitArgs, TipMsg};
use cw_post::state::{increment_counter, init, next_counter, NODE_ID_COUNTER_KEY};
use cw_post::store::Store;

fn config(tip_pct: u128, fee_recipient: Option<&str>) -> Config {
    Config {
        token: Token::Denom("ujuno".to_string()),
        fee_recipient: fee_recipient.map(|s| s.to_string()),
        fees: FeeParams { creation: 0, reaction: 0, link: 0, text: 0, tag: 0, tip_pct },
    }
}

fn args(parent: &str, title: &str, tags: Option<Vec<String>>) -> NodeInitArgs {
    NodeInitArgs { title: title.to_string(), body: None, links: None, tags, parent_id: parent.to_string() }
}

fn tree(ms: &mut MockStorage, cfg: Config) {
    let mut store = Store { storage: ms };
    let msg = InstantiateMsg { config: cfg, operator: None, root: args("xyz", "root", None) };
    init(&mut store, &"creator".to_string(), 1, msg).unwrap();
}

fn ctx(sender: &str) -> Context {
    Context { sender: sender.to_string(), time: 8 }
}

fn dump(ms: &MockStorage) -> Vec<(Vec<u8>, Vec<u8>)> {
    ms.range(None, None, Order::Ascending).collect()
}

#[test]
fn failed_tip_leaves_the_store_as_it_was() {
    let mut ms = MockStorage::new();
    tree(&mut ms, config(0, None));
    {
        let mut store = Store { storage: &mut ms };
        exec_tip(&mut store, TipMsg { node_id: "1".to_string(), tip_amount: u128::MAX - 1 }).unwrap();
    }
    let before = dump(&ms);
    {
        let mut store = Store { storage: &mut ms };
        let r = exec_tip(&mut store, TipMsg { node_id: "1".to_string(), tip_amount: 2 });
        assert_eq!(r, Err(ContractError::Overflow));
        let r = exec_tip(&mut store, TipMsg { node_id: "99".to_string(), tip_amount: 1 });
        assert_eq!(r, Err(ContractError::NotFound));
    }
    assert_eq!(before, dump(&ms));
}

#[test]
fn node_total_overflow_leaves_the_global_total() {
    let mut ms = MockStorage::new();
    tree(&mut ms, config(0, None));
    cw_storage_plus::Map::<&str, u128>::new("tip_totals").save(&mut ms, "1", &u128::MAX).unwrap();
    let before = dump(&ms);
    {
        let mut store = Store { storage: &mut ms };
        let r = exec_tip(&mut store, TipMsg { node_id: "1".to_string(), tip_amount: 1 });
        assert_eq!(r, Err(ContractError::Overflow));
    }
    assert_eq!(before, dump(&ms));
}

#[test]
fn failed_like_with_tip_leaves_the_like_untoggled() {
    let mut ms = MockStorage::new();
    tree(&mut ms, config(2_000_000, Some("fee")));
    let before = dump(&ms);
    {
        let mut store = Store { storage: &mut ms };
        // The fee would exceed the tip.
        let like = LikeMsg { node_id: "1".to_string(), tip_amount: Some(10) };
        assert_eq!(exec_toggle_like(&mut store, &ctx("A"), like), Err(ContractError::Overflow));
        let like = LikeMsg { node_id: "7".to_string(), tip_amount: None };
        assert_eq!(exec_toggle_like(&mut store, &ctx("A"), like), Err(ContractError::NotFound));
        let like = LikeMsg { node_id: "x".repeat(0x1_0000), tip_amount: None };
        assert_eq!(exec_toggle_like(&mut store, &ctx("A"), like), Err(ContractError::InvalidInput));
    }
    assert_eq!(before, dump(&ms));
}

#[test]
fn failed_reply_leaves_the_counters() {
    let mut ms = MockStorage::new();
    tree(&mut ms, config(0, None));
    {
        let mut store = Store { storage: &mut ms };
        // The id counter at its end, the node counter not.
        increment_counter(&mut store, NODE_ID_COUNTER_KEY, u64::MAX - 1).unwrap();
    }
    let before = dump(&ms);
    {
        let mut store = Store { storage: &mut ms };
        let r = exec_reply(&mut store, &ctx("B"), args("1", "t", None));
        assert_eq!(r, Err(ContractError::Overflow));
        let r = exec_reply(&mut store, &ctx("B"), args("1", "t", Some(vec!["T".repeat(0x1_0000)])));
        assert_eq!(r, Err(ContractError::InvalidInput));
    }
    assert_eq!(before, dump(&ms));
}

#[test]
fn failed_first_call_writes_nothing() {
    let mut ms = MockStorage::new();
    {
        let mut store = Store { storage: &mut ms };
        let msg = InstantiateMsg {
            config: config(0, None),
            operator: None,
            root: args("", "root", Some(vec!["t".repeat(0x1_0000)])),
        };
        let r = init(&mut store, &"creator".to_string(), 1, msg);
        assert_eq!(r, Err(ContractError::InvalidInput));
    }
    assert!(dump(&ms).is_empty());
}

#[test]
fn reply_counter_starts_under_the_new_id() {
    let mut ms = MockStorage::new();
    tree(&mut ms, config(0, None));
    {
        let mut store = Store { storage: &mut ms };
        exec_reply(&mut store, &ctx("B"), args("1", "t", None)).unwrap();
    }
    let replies = cw_storage_plus::Map::<&str, u16>::new("n_replies");
    assert_eq!(replies.may_load(&ms, "1").unwrap(), Some(0));
    assert_eq!(replies.may_load(&ms, "2").unwrap(), Some(0));
    assert_eq!(replies.may_load(&ms, "").unwrap(), None);
}

#[test]
fn counter_is_read_ahead_without_writing() {
    let mut ms = MockStorage::new();
    let mut store = Store { storage: &mut ms };
    assert_eq!(next_counter(&store, "c", 3), Ok(3));
    assert_eq!(next_counter(&store, "c", 3), Ok(3));
    assert_eq!(increment_counter(&mut store, "c", 3), Ok(3));
    assert_eq!(next_counter(&store, "c", 4), Ok(7));
    assert_eq!(next_counter(&store, "c", u64::MAX), Err(ContractError::Overflow));
}

#[test]
fn tip_is_planned_then_committed() {
    let mut ms = MockStorage::new();
    tree(&mut ms, config(50000, Some("fee")));
    let mut store = Store { storage: &mut ms };
    let cfg = config(50000, Some("fee"));
    let node = "1".to_string();
    let plan = plan_tip(&store, &cfg, 1_000_000, &node).unwrap();
    assert_eq!(plan, TipPlan { total: 1_000_000, node_total: 1_000_000, royalty: 950000, fee: 50000 });
    // Planning has written nothing.
    assert_eq!(plan_tip(&store, &cfg, 1_000_000, &node), Ok(plan));
    let resp = commit_tip(&mut store, Response::action("tip"), &cfg, "creator".to_string(), plan, &node);
    assert_eq!(
        resp.payments,
        vec![
            Payment { recipient: "fee".to_string(), amount: 50000 },
            Payment { recipient: "creator".to_string(), amount: 950000 },
        ]
    );
    assert_eq!(plan_tip(&store, &cfg, 1, &node).unwrap().total, 1_000_001);
    assert_eq!(plan_tip(&store, &cfg, u128::MAX, &node), Err(ContractError::Overflow));
}

#[test]
fn no_tip_changes_nothing_and_succeeds() {
    let mut ms = MockStorage::new();
    let before = dump(&ms);
    {
        let mut store = Store { storage: &mut ms };
        let cfg = config(50000, Some("fee"));
        let resp = Response::action("like");
        let out = apply_tip_if_exists(&mut store, resp.clone(), &cfg, "c".to_string(), None, &"1".to_string());
        assert_eq!(out, Ok(resp));
    }
    assert_eq!(before, dump(&ms));
}

#[test]
fn like_is_prepared_then_applied() {
    let mut ms = MockStorage::new();
    tree(&mut ms, config(0, None));
    let mut store = Store { storage: &mut ms };
    exec_reply(&mut store, &ctx("B"), args("1", "t", Some(vec!["Rust".to_string()]))).unwrap();
    let node = "2".to_string();
    let liker = "A".to_string();
    let (header, liked, n_likes, lowered) = prepare_like(&store, &node, &liker).unwrap();
    assert_eq!(header.parent_id, "1");
    assert_eq!(header.created_by, "B");
    assert!(!liked);
    assert_eq!(n_likes, 0);
    assert_eq!(lowered, vec!["rust".to_string()]);
    apply_like(&mut store, &header, &node, &liker, liked, n_likes, &lowered).unwrap();
    let (_, liked, n_likes, lowered) = prepare_like(&store, &node, &liker).unwrap();
    assert!(liked);
    assert_eq!(n_likes, 1);
    assert!(lowered.is_empty());
    assert_eq!(prepare_like(&store, &"9".to_string(), &liker), Err(ContractError::NotFound));
}

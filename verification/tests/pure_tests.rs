use cw_post::error::ContractError;
use cw_post::fees::{compute_node_cost, UNIT_TEXT_LENGTH};
use cw_post::keys::{
    decode_pair_key, decode_rank, decode_rank_suffix, decode_ranked_key, decode_text, split_segment,
};
use cw_post::math::{add_u128, add_u64, mul_ratio_u128, mul_u128, sub_u128};
use cw_post::models::{Config, FeeParams, Link, Response, Token};
use cw_post::msg::NodeCostSubtotals;
use cw_post::paging::{clamp_limit, MAX_LIMIT};
use cw_post::query::nodes::chat_range;
use cw_post::query::walk::{make_cursor, parse_cursor};
use cw_post::records::{
    config_from_record, config_to_record, link_from_record, link_to_record, links_from_records,
    links_to_records,
};
use cw_post::state::{fit_all, fits};
use cw_post::text::{format_decimal, lowercase_list, parse_decimal};

fn fees() -> FeeParams {
    FeeParams { creation: 1000, reaction: 7, link: 30, text: 5, tag: 200, tip_pct: 0 }
}

#[test]
fn decimal_numerals_are_written() {
    assert_eq!(format_decimal(0), "0");
    assert_eq!(format_decimal(7), "7");
    assert_eq!(format_decimal(10), "10");
    assert_eq!(format_decimal(1_000_000), "1000000");
    assert_eq!(format_decimal(u128::MAX), "340282366920938463463374607431768211455");
}

#[test]
fn decimal_numerals_are_read() {
    assert_eq!(parse_decimal("0", 10), Some(0));
    assert_eq!(parse_decimal("10", 10), Some(10));
    assert_eq!(parse_decimal("11", 10), None);
    assert_eq!(parse_decimal("007", 10), Some(7));
    assert_eq!(parse_decimal("", 10), None);
    assert_eq!(parse_decimal("+5", 10), None);
    assert_eq!(parse_decimal("-5", 10), None);
    assert_eq!(parse_decimal("5 ", 10), None);
    assert_eq!(parse_decimal("٣", 10), None);
    assert_eq!(parse_decimal("340282366920938463463374607431768211455", u128::MAX), Some(u128::MAX));
    assert_eq!(parse_decimal("340282366920938463463374607431768211456", u128::MAX), None);
    assert_eq!(parse_decimal("3402823669209384634633746074317682114550", u128::MAX), None);
}

#[test]
fn decimal_round_trip_on_values() {
    for n in [0u128, 1, 9, 10, 99, 100, 12345, u64::MAX as u128, u128::MAX] {
        assert_eq!(parse_decimal(&format_decimal(n), u128::MAX), Some(n));
    }
}

#[test]
fn texts_are_put_into_lowercase() {
    let out = lowercase_list(&vec!["Rust".to_string(), "ÄÖ".to_string(), "x1".to_string()]);
    assert_eq!(out, vec!["rust".to_string(), "äö".to_string(), "x1".to_string()]);
}

#[test]
fn checked_arithmetic_reports_overflow() {
    assert_eq!(add_u64(2, 3), Ok(5));
    assert_eq!(add_u64(u64::MAX, 1), Err(ContractError::Overflow));
    assert_eq!(add_u128(2, 3), Ok(5));
    assert_eq!(add_u128(u128::MAX, 1), Err(ContractError::Overflow));
    assert_eq!(sub_u128(3, 2), Ok(1));
    assert_eq!(sub_u128(2, 3), Err(ContractError::Overflow));
    assert_eq!(mul_u128(6, 7), Ok(42));
    assert_eq!(mul_u128(u128::MAX, 2), Err(ContractError::Overflow));
}

#[test]
fn ratio_is_floored_and_uses_wide_product() {
    assert_eq!(mul_ratio_u128(5, 99, 100), Ok(4));
    assert_eq!(mul_ratio_u128(1_000_000, 50_000, 1_000_000), Ok(50_000));
    // The product leaves 128 bits, the quotient does not.
    assert_eq!(mul_ratio_u128(u128::MAX, 1_000_000, 1_000_000), Ok(u128::MAX));
    assert_eq!(mul_ratio_u128(u128::MAX, 2, 1), Err(ContractError::Overflow));
    assert_eq!(mul_ratio_u128(1, 1, 0), Err(ContractError::InvalidInput));
}

#[test]
fn cost_is_sum_of_parts() {
    let (total, parts) = compute_node_cost(&fees(), false, 600, 3, 2).unwrap();
    assert_eq!(parts, NodeCostSubtotals { creation: 1000, body: 10, tags: 600, links: 60 });
    assert_eq!(total, 1670);
    let (total, parts) = compute_node_cost(&fees(), true, 600, 3, 2).unwrap();
    assert_eq!(parts.creation, 0);
    assert_eq!(total, 670);
}

#[test]
fn body_is_priced_by_whole_units() {
    assert_eq!(UNIT_TEXT_LENGTH, 280);
    assert_eq!(compute_node_cost(&fees(), true, 279, 0, 0).unwrap().0, 0);
    assert_eq!(compute_node_cost(&fees(), true, 280, 0, 0).unwrap().0, 5);
    assert_eq!(compute_node_cost(&fees(), true, 559, 0, 0).unwrap().0, 5);
    assert_eq!(compute_node_cost(&fees(), true, 560, 0, 0).unwrap().0, 10);
}

#[test]
fn cost_overflow_is_reported() {
    let big = FeeParams { creation: u128::MAX, reaction: 0, link: 0, text: 0, tag: 1, tip_pct: 0 };
    assert_eq!(compute_node_cost(&big, false, 0, 1, 0), Err(ContractError::Overflow));
    assert_eq!(compute_node_cost(&big, true, 0, 1, 0).map(|r| r.0), Ok(1));
    let big_tag = FeeParams { creation: 0, reaction: 0, link: 0, text: 0, tag: u128::MAX, tip_pct: 0 };
    assert_eq!(compute_node_cost(&big_tag, false, 0, 2, 0), Err(ContractError::Overflow));
}

#[test]
fn limit_is_clamped() {
    assert_eq!(MAX_LIMIT, 50);
    assert_eq!(clamp_limit(0), 0);
    assert_eq!(clamp_limit(49), 49);
    assert_eq!(clamp_limit(50), 50);
    assert_eq!(clamp_limit(51), 50);
    assert_eq!(clamp_limit(255), 50);
}

#[test]
fn keys_are_read_back() {
    assert_eq!(decode_text(b"abc".to_vec()), Some("abc".to_string()));
    assert_eq!(decode_text(vec![0xff, 0xfe]), None);
    assert_eq!(decode_rank(&[0, 0, 1, 2]), Some(258));
    assert_eq!(decode_rank(&[0xff, 0xff, 0xff, 0xff]), Some(u32::MAX));
    assert_eq!(decode_rank(&[0, 1, 2]), None);
    assert_eq!(split_segment(&[0, 2, b'a', b'b', b'c']), Some((b"ab".to_vec(), b"c".to_vec())));
    assert_eq!(split_segment(&[0, 2, b'a']), None);
    assert_eq!(split_segment(&[0]), None);
    assert_eq!(decode_rank_suffix(&[0, 4, 0, 0, 0, 9, b'1', b'2']), Some((9, "12".to_string())));
    assert_eq!(decode_rank_suffix(&[0, 3, 0, 0, 9, b'1']), None);
    assert_eq!(decode_pair_key(&[0, 1, b'p', b'c', b'd']), Some(("p".to_string(), "cd".to_string())));
    assert_eq!(decode_pair_key(&[0, 0]), Some((String::new(), String::new())));
    assert_eq!(
        decode_ranked_key(&[0, 1, b'p', 0, 4, 0, 0, 1, 0, b'7']),
        Some(("p".to_string(), 256, "7".to_string()))
    );
    assert_eq!(decode_ranked_key(&[0, 1, b'p', 0, 4, 0, 0, 1]), None);
}

#[test]
fn key_components_have_a_longest_length() {
    assert!(fits(&"a".repeat(0xFFFF)));
    assert!(!fits(&"a".repeat(0x1_0000)));
    // The length counts bytes, not characters.
    assert!(!fits(&"ä".repeat(0x8000)));
    assert!(fit_all(&vec!["a".to_string(), String::new()]));
    assert!(!fit_all(&vec!["a".to_string(), "b".repeat(0x1_0000)]));
}

#[test]
fn cursors_are_read_and_written() {
    assert_eq!(parse_cursor(false, &None), Ok(None));
    assert_eq!(parse_cursor(true, &None), Ok(None));
    assert_eq!(parse_cursor(false, &Some(vec!["7".to_string()])), Ok(Some((0, "7".to_string()))));
    assert_eq!(
        parse_cursor(true, &Some(vec!["3".to_string(), "7".to_string()])),
        Ok(Some((3, "7".to_string())))
    );
    assert_eq!(parse_cursor(true, &Some(vec!["7".to_string()])), Err(ContractError::InvalidInput));
    assert_eq!(parse_cursor(false, &Some(vec![])), Err(ContractError::InvalidInput));
    assert_eq!(
        parse_cursor(true, &Some(vec!["x".to_string(), "7".to_string()])),
        Err(ContractError::InvalidInput)
    );
    assert_eq!(make_cursor(false, &(5, "9".to_string())), vec!["9".to_string()]);
    assert_eq!(make_cursor(true, &(5, "9".to_string())), vec!["5".to_string(), "9".to_string()]);
    let entry = (4_000_000_000u32, "12".to_string());
    assert_eq!(parse_cursor(true, &Some(make_cursor(true, &entry))), Ok(Some(entry)));
}

#[test]
fn chat_ranges() {
    assert_eq!(chat_range(5, false, None, 2), (1, 2));
    assert_eq!(chat_range(5, false, Some(2), 2), (3, 2));
    assert_eq!(chat_range(5, false, Some(4), 2), (5, 1));
    assert_eq!(chat_range(5, false, Some(5), 2).1, 0);
    assert_eq!(chat_range(5, false, Some(u64::MAX), 2).1, 0);
    assert_eq!(chat_range(5, true, None, 2), (5, 2));
    assert_eq!(chat_range(5, true, Some(5), 10), (4, 4));
    assert_eq!(chat_range(5, true, Some(100), 10), (5, 5));
    assert_eq!(chat_range(5, true, Some(1), 10).1, 0);
    assert_eq!(chat_range(5, true, Some(0), 10).1, 0);
    assert_eq!(chat_range(0, true, None, 10).1, 0);
    assert_eq!(chat_range(0, false, None, 10).1, 0);
    assert_eq!(chat_range(5, false, None, 0).1, 0);
}

#[test]
fn links_keep_their_kind_when_stored() {
    let links = vec![
        Link::Generic { url: "g".to_string(), label: None },
        Link::Image { url: "i".to_string(), label: Some("l".to_string()) },
        Link::Video { url: "v".to_string(), label: None, provider: "yt".to_string() },
        Link::Audio { url: "a".to_string(), label: Some("x".to_string()), provider: "sc".to_string() },
    ];
    let records = links_to_records(&links);
    assert_eq!(records[0], (0, "g".to_string(), None, None));
    assert_eq!(records[3], (3, "a".to_string(), Some("x".to_string()), Some("sc".to_string())));
    assert_eq!(links_from_records(&records), Some(links.clone()));
    assert_eq!(link_from_record(&link_to_record(&links[2])), Some(links[2].clone()));
    assert_eq!(link_from_record(&(4, "u".to_string(), None, None)), None);
    assert_eq!(link_from_record(&(0, "u".to_string(), None, Some("p".to_string()))), None);
    assert_eq!(link_from_record(&(2, "u".to_string(), None, None)), None);
    assert_eq!(links_from_records(&vec![(0, "u".to_string(), None, None), (9, "u".to_string(), None, None)]), None);
}

#[test]
fn config_keeps_its_token_when_stored() {
    let config = Config {
        token: Token::Address("juno1abc".to_string()),
        fee_recipient: Some("t".to_string()),
        fees: FeeParams { creation: 1, reaction: 2, link: 3, text: 4, tag: 5, tip_pct: 6 },
    };
    let record = config_to_record(&config);
    assert_eq!(record, (true, "juno1abc".to_string(), Some("t".to_string()), (1, 2, 3, 4, 5, 6)));
    assert_eq!(config_from_record(record), config);
    let native = Config { token: Token::Denom("ujuno".to_string()), fee_recipient: None, fees: fees() };
    assert_eq!(config_to_record(&native).0, false);
    assert_eq!(config_from_record(config_to_record(&native)), native);
}

#[test]
fn responses_collect_attributes_and_payments() {
    let mut resp = Response::action("tip");
    resp.add_attribute("k", "v".to_string());
    resp.add_payment("bob".to_string(), 5);
    assert_eq!(
        resp.attributes,
        vec![("action".to_string(), "tip".to_string()), ("k".to_string(), "v".to_string())]
    );
    assert_eq!(resp.payments.len(), 1);
    assert_eq!(resp.payments[0].recipient, "bob");
    assert_eq!(resp.payments[0].amount, 5);
}

#[test]
fn errors_describe_themselves() {
    assert_eq!(ContractError::NotFound.message(), "not found");
    assert_eq!(ContractError::Overflow.message(), "arithmetic overflow");
    assert_eq!(ContractError::InvalidInput.message(), "invalid input");
    assert_eq!(ContractError::Unauthorized.message(), "unauthorized");
    assert_eq!(ContractError::Storage.message(), "storage fault");
}

use vstd::prelude::*;
use crate::error::ContractError;
use crate::math::{add_u128, mul_u128};
use crate::models::FeeParams;
use crate::msg::NodeCostSubtotals;

verus! {

/// The number of bytes of body text that one unit of the text price pays for.
pub const UNIT_TEXT_LENGTH: usize = 280;

/// The four parts of a node's cost, before any check of their size.
pub open spec fn cost_parts(
    fees: FeeParams,
    is_update: bool,
    body_len: usize,
    n_tags: usize,
    n_links: usize,
) -> (int, int, int, int) {
    (
        if is_update {
            0
        } else {
            fees.creation as int
        },
        fees.text * (body_len / UNIT_TEXT_LENGTH),
        fees.tag * n_tags,
        fees.link * n_links,
    )
}

/// The cost of a node: its total and the four parts of it, or `Overflow`
/// where a part or the total does not fit in 128 bits.
pub open spec fn node_cost(
    fees: FeeParams,
    is_update: bool,
    body_len: usize,
    n_tags: usize,
    n_links: usize,
) -> Result<(u128, NodeCostSubtotals), ContractError> {
    let (creation, body, tags, links) = cost_parts(fees, is_update, body_len, n_tags, n_links);
    if body > u128::MAX || tags > u128::MAX || links > u128::MAX || creation + body + tags + links
        > u128::MAX {
        Err(ContractError::Overflow)
    } else {
        Ok(
            (
                (creation + body + tags + links) as u128,
                NodeCostSubtotals {
                    creation: creation as u128,
                    body: body as u128,
                    tags: tags as u128,
                    links: links as u128,
                },
            ),
        )
    }
}

/// Prices a node from the current prices and its shape: the length of its
/// body in bytes, the number of its tags and of its links. An update pays no
/// creation price. The total is the sum of the four parts.
pub fn compute_node_cost(
    fees: &FeeParams,
    is_update: bool,
    body_len: usize,
    n_tags: usize,
    n_links: usize,
) -> (r: Result<(u128, NodeCostSubtotals), ContractError>)
    ensures
        r == node_cost(*fees, is_update, body_len, n_tags, n_links),
        match r {
            Ok((total, parts)) => total == parts.creation + parts.body + parts.tags + parts.links && (
            is_update ==> parts.creation == 0),
            Err(e) => e == ContractError::Overflow,
        },
{
    let tag_fee = mul_u128(fees.tag, n_tags as u128)?;
    let link_fee = mul_u128(fees.link, n_links as u128)?;
    let text_fee = mul_u128(fees.text, (body_len / UNIT_TEXT_LENGTH) as u128)?;
    let creation_fee: u128 = if is_update {
        0
    } else {
        fees.creation
    };
    let total = add_u128(add_u128(add_u128(tag_fee, link_fee)?, text_fee)?, creation_fee)?;
    Ok((total, NodeCostSubtotals { creation: creation_fee, body: text_fee, tags: tag_fee, links: link_fee }))
}

} // verus!

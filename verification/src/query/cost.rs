use vstd::prelude::*;
use crate::error::{answers, ContractError};
use crate::fees::{compute_node_cost, node_cost};
use crate::keys::text_bytes;
use crate::models::FeeParams;
use crate::msg::{CostQueryArgs, CostResponse, NodeInitArgsView};
use crate::state::load_config;
use crate::store::{Snapshot, Store};

verus! {

impl NodeInitArgsView {
    /// The length of the body in bytes: zero where there is none.
    pub open spec fn body_len(self) -> nat {
        match self.body {
            Some(body) => text_bytes(body).len(),
            None => 0,
        }
    }
}

/// The cost of a node of the given shape at the given prices.
pub open spec fn shape_cost(fees: FeeParams, node: NodeInitArgsView, is_update: bool) -> Result<
    CostResponse,
    ContractError,
> {
    match node_cost(
        fees,
        is_update,
        node.body_len() as usize,
        node.tags_or_none().len() as usize,
        node.links_or_none().len() as usize,
    ) {
        Ok((total, subtotals)) => Ok(CostResponse { total, subtotals }),
        Err(e) => Err(e),
    }
}

/// The cost of a node at the stored prices: `NotFound` without a
/// configuration.
pub open spec fn cost(s: Snapshot, node: NodeInitArgsView, is_update: bool) -> Result<
    CostResponse,
    ContractError,
> {
    match s.configuration() {
        Ok(config) => shape_cost(config.fees, node, is_update),
        Err(e) => Err(e),
    }
}

/// Prices a node, given what it would be made of, at the stored prices.
/// With a configuration in the store the answer is exact.
pub fn query_cost(store: &Store, args: CostQueryArgs) -> (r: Result<CostResponse, ContractError>)
    ensures
        answers(r, cost(store@, args.node@, args.is_update), store.is_intact()),
        store@.config is Some ==> r == cost(store@, args.node@, args.is_update),
{
    let CostQueryArgs { is_update, node } = args;
    let config = load_config(store)?;
    let body_len: usize = match &node.body {
        Some(body) => body.as_str().as_bytes().len(),
        None => 0,
    };
    let n_tags: usize = match &node.tags {
        Some(tags) => tags.len(),
        None => 0,
    };
    let n_links: usize = match &node.links {
        Some(links) => links.len(),
        None => 0,
    };
    let (total, subtotals) = compute_node_cost(&config.fees, is_update, body_len, n_tags, n_links)?;
    Ok(CostResponse { total, subtotals })
}

} // verus!

use vstd::prelude::*;
use crate::error::{answers, storage_result, ContractError};
use crate::msg::{InfoResponse, InfoView};
use crate::records::record_config;
use crate::state::{load_config, NUM_NODES_COUNTER_KEY};
use crate::store::{Snapshot, Store};

verus! {

/// The tree's global records: `NotFound` where one of them is missing.
pub open spec fn info(s: Snapshot) -> Result<InfoView, ContractError> {
    if !s.counters.contains_key(NUM_NODES_COUNTER_KEY@) || s.royalties is None || s.operator is None
        || s.config is None {
        Err(ContractError::NotFound)
    } else {
        Ok(
            InfoView {
                operator: s.operator->Some_0,
                config: record_config(s.config->Some_0),
                royalties: s.royalties->Some_0,
                n_nodes: s.counters[NUM_NODES_COUNTER_KEY@],
            },
        )
    }
}

/// Returns the configuration, the operator, the total of all royalties and
/// the number of nodes. Where all four are stored the call succeeds.
pub fn query_info(store: &Store) -> (r: Result<InfoResponse, ContractError>)
    ensures
        answers(
            match r {
                Ok(info) => Ok(info@),
                Err(e) => Err(e),
            },
            info(store@),
            store.is_intact(),
        ),
        info(store@) is Ok ==> r is Ok,
{
    let n_nodes = match storage_result(store.load_counter(NUM_NODES_COUNTER_KEY))? {
        Some(n) => n,
        None => {
            return Err(ContractError::NotFound);
        },
    };
    let royalties = match storage_result(store.load_royalties())? {
        Some(n) => n,
        None => {
            return Err(ContractError::NotFound);
        },
    };
    let operator = match storage_result(store.load_operator())? {
        Some(o) => o,
        None => {
            return Err(ContractError::NotFound);
        },
    };
    let config = load_config(store)?;
    Ok(InfoResponse { n_nodes, operator, royalties, config })
}

} // verus!

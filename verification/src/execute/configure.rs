use vstd::prelude::*;
use crate::error::{storage_result, ContractError};
use crate::models::{Config, Response, ResponseView};
use crate::records::{config_record, config_to_record};
use crate::store::{garbles_nothing, Snapshot, Store};

verus! {

/// Overwrites the configuration. The call succeeds.
pub fn exec_configure(store: &mut Store, config: Config) -> (r: Result<Response, ContractError>)
    ensures
        garbles_nothing(*old(store), *final(store)),
        r is Ok,
        r->Ok_0@ == ResponseView::action("set_config"@),
        final(store)@ == (Snapshot { config: Some(config_record(config@)), ..old(store)@ }),
{
    storage_result(store.save_config(&config_to_record(&config)))?;
    Ok(Response::action("set_config"))
}

} // verus!

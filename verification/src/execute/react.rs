use vstd::prelude::*;
use crate::error::ContractError;
use crate::models::{Response, ResponseView};
use crate::msg::ReactMsg;
use crate::store::{garbles_nothing, Store};

verus! {

/// Acknowledges a reaction. The store is left as it is.
pub fn exec_toggle_reaction(store: &mut Store, msg: ReactMsg) -> (r: Result<Response, ContractError>)
    ensures
        garbles_nothing(*old(store), *final(store)),
        final(store)@ == old(store)@,
        r is Ok,
        r->Ok_0@ == ResponseView::action("react"@),
{
    Ok(Response::action("react"))
}

} // verus!

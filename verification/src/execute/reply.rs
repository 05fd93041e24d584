use vstd::prelude::*;
use crate::error::{answers, ContractError};
use crate::execute::Context;
use crate::keys::fits_segment;
use crate::models::{Response, ResponseView};
use crate::msg::NodeInitArgs;
use crate::state::{all_fit, init_node, node_initialized};
use crate::store::{garbles_nothing, Store};
use crate::text::lowercase_all;

verus! {

/// Creates a node under the next id, with the sender as its creator and the
/// block time as its time of creation. A call that fails leaves the store
/// as it was.
pub fn exec_reply(store: &mut Store, ctx: &Context, node_init_args: NodeInitArgs) -> (r: Result<
    Response,
    ContractError,
>)
    ensures
        garbles_nothing(*old(store), *final(store)),
        answers(
            match r {
                Ok(resp) => Ok((final(store)@, resp@)),
                Err(e) => Err(e),
            },
            match node_initialized(old(store)@, ctx.sender@, ctx.time, node_init_args@) {
                Ok(s) => Ok((s, ResponseView::action("reply"@))),
                Err(e) => Err(e),
            },
            old(store).is_intact(),
        ),
        r is Err ==> final(store)@ == old(store)@,
        !fits_segment(node_init_args@.parent_id) || !all_fit(
            lowercase_all(node_init_args@.tags_or_none()),
        ) ==> r == Err::<Response, ContractError>(ContractError::InvalidInput),
{
    init_node(store, &ctx.sender, ctx.time, node_init_args)?;
    Ok(Response::action("reply"))
}

} // verus!

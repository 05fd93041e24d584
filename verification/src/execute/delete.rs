use vstd::prelude::*;
use crate::error::{answers, storage_result, ContractError};
use crate::models::{Response, ResponseView};
use crate::msg::DeleteMsg;
use crate::state::load_header;
use crate::store::{garbles_nothing, Snapshot, Store};

verus! {

/// What deleting a node leaves behind: the node's status is `Deleted`, and
/// nothing else has changed. A node without a header is `NotFound`.
pub open spec fn deleted(s: Snapshot, node: Seq<char>) -> Result<(Snapshot, ResponseView), ContractError> {
    if s.headers.contains_key(node) {
        Ok((Snapshot { deleted: s.deleted.insert(node, true), ..s }, ResponseView::action("delete"@)))
    } else {
        Err(ContractError::NotFound)
    }
}

/// Marks a node as deleted. Its records stay as they are. A call that fails
/// leaves the store as it was.
pub fn exec_delete_node(store: &mut Store, msg: DeleteMsg) -> (r: Result<Response, ContractError>)
    ensures
        garbles_nothing(*old(store), *final(store)),
        answers(
            match r {
                Ok(resp) => Ok((final(store)@, resp@)),
                Err(e) => Err(e),
            },
            deleted(old(store)@, msg.node_id@),
            old(store).is_intact(),
        ),
        r is Err ==> final(store)@ == old(store)@,
{
    load_header(store, &msg.node_id)?;
    storage_result(store.save_deleted(&msg.node_id, true))?;
    Ok(Response::action("delete"))
}

} // verus!

use vstd::prelude::*;

pub mod configure;
pub mod delete;
pub mod like;
pub mod react;
pub mod reply;
pub mod tip;

verus! {

/// What a call that changes the tree knows of its caller and of the block
/// it runs in.
#[derive(Clone, Debug, PartialEq, Eq)]
pub struct Context {
    /// The account that sent the request.
    pub sender: String,
    /// The block time, in nanoseconds.
    pub time: u64,
}

} // verus!

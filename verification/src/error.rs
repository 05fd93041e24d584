use vstd::prelude::*;

verus! {

/// Why a call failed. A call that fails has written nothing.
#[derive(Clone, Copy, Debug, PartialEq, Eq, Structural)]
pub enum ContractError {
    /// A required record is missing from the store.
    NotFound,
    /// A checked arithmetic step left the range of its integer type.
    Overflow,
    /// The request is structurally invalid.
    InvalidInput,
    /// The caller may not perform the operation.
    Unauthorized,
    /// The store holds a record or a key that cannot be read back.
    Storage,
}

impl ContractError {
    /// A short description of the error.
    pub fn message(&self) -> (s: String)
        ensures
            s@ == (match *self {
                ContractError::NotFound => "not found"@,
                ContractError::Overflow => "arithmetic overflow"@,
                ContractError::InvalidInput => "invalid input"@,
                ContractError::Unauthorized => "unauthorized"@,
                ContractError::Storage => "storage fault"@,
            }),
    {
        match self {
            ContractError::NotFound => String::from_str("not found"),
            ContractError::Overflow => String::from_str("arithmetic overflow"),
            ContractError::InvalidInput => String::from_str("invalid input"),
            ContractError::Unauthorized => String::from_str("unauthorized"),
            ContractError::Storage => String::from_str("storage fault"),
        }
    }
}

/// Turns the outcome of a storage call into the library's own error type.
pub fn storage_result<T>(r: Result<T, cosmwasm_std::StdError>) -> (out: Result<T, ContractError>)
    ensures
        match r {
            Ok(v) => out == Ok::<T, ContractError>(v),
            Err(_) => out == Err::<T, ContractError>(ContractError::Storage),
        },
{
    match r {
        Ok(v) => Ok(v),
        Err(_) => Err(ContractError::Storage),
    }
}

/// Whether a call ended as `expected`, or in a fault of the storage in its
/// place: a record that cannot be read back can fail any call that reads it.
pub open spec fn ends_with<V>(outcome: Result<V, ContractError>, expected: Result<V, ContractError>) -> bool {
    match outcome {
        Ok(v) => expected == Ok::<V, ContractError>(v),
        Err(e) => e == ContractError::Storage || expected == Err::<V, ContractError>(e),
    }
}

/// Whether a call ended as `expected`. On a store that is intact it did,
/// errors included; elsewhere a fault of the storage may stand in its place.
pub open spec fn answers<V>(
    outcome: Result<V, ContractError>,
    expected: Result<V, ContractError>,
    intact: bool,
) -> bool {
    ends_with(outcome, expected) && (intact ==> outcome == expected)
}

/// The error type of `cosmwasm_std`, carried through opaquely.
#[verifier::external_type_specification]
#[verifier::external_body]
pub struct ExStdError(cosmwasm_std::StdError);

} // verus!

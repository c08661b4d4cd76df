//! What a mutating operation hands back: the index of its record in the
//! history, or the reason why it was rejected.

use vstd::prelude::*;

verus! {

/// Why an operation was rejected.
#[derive(Clone, Copy, Debug, PartialEq, Eq, Structural)]
pub enum TxError {
    /// The account holds less than the operation would take from it.
    InsufficientBalance,
    /// The spender is allowed less than the operation would move.
    InsufficientAllowance,
}

/// The index of the record written for an accepted operation, or the reason
/// for its rejection.
pub type TxReceipt = Result<usize, TxError>;

/// A receipt with its index as a mathematical number.
pub open spec fn receipt_view(receipt: TxReceipt) -> Result<nat, TxError> {
    match receipt {
        Ok(index) => Ok(index as nat),
        Err(reason) => Err(reason),
    }
}

} // verus!

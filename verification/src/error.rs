//! Why a checkout yields no connection.

use vstd::prelude::*;

verus! {

/// Why a checkout yields no connection.
#[derive(Clone, Copy, Debug, PartialEq, Eq, Structural)]
#[non_exhaustive]
pub enum Error {
    PoolDisabled,
    CheckoutNoLongerWanted,
    CheckedOutClosedValue,
}

impl Error {
    /// Whether the connection that was handed over had been closed.
    pub fn is_canceled(&self) -> (canceled: bool)
        ensures
            canceled == (*self is CheckedOutClosedValue),
    {
        matches!(self, Error::CheckedOutClosedValue)
    }

    /// The error in words.
    pub fn message(&self) -> (words: &'static str)
        ensures
            words@ == (match *self {
                Error::PoolDisabled => "pool is disabled"@,
                Error::CheckedOutClosedValue => "checked out connection was closed"@,
                Error::CheckoutNoLongerWanted => "request was canceled"@,
            }),
    {
        match self {
            Error::PoolDisabled => "pool is disabled",
            Error::CheckedOutClosedValue => "checked out connection was closed",
            Error::CheckoutNoLongerWanted => "request was canceled",
        }
    }
}

} // verus!

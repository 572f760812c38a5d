//! Errors of the DNS client.
use vstd::prelude::*;

verus! {

/// Errors returned by `DnsSocket`.
#[derive(Debug, PartialEq, Eq, Structural, Clone, Copy)]
pub enum Error {
    /// Invalid name
    InvalidName,
    /// Name too long
    NameTooLong,
    /// Name lookup failed
    Failed,
}

/// Why the network stack did not start a query.
#[derive(Debug, PartialEq, Eq, Structural, Clone, Copy)]
pub enum StartQueryError {
    /// Every query slot is taken.
    NoFreeSlot,
    /// The name is malformed.
    InvalidName,
    /// The name does not fit its buffer.
    NameTooLong,
}

/// Why a `smoltcp` DNS socket has no answers to a query.
#[verifier::external_type_specification]
#[verifier::external_body]
pub struct ExGetQueryResultError(smoltcp::socket::dns::GetQueryResultError);

impl vstd::std_specs::convert::FromSpecImpl<smoltcp::socket::dns::GetQueryResultError> for Error {
    open spec fn obeys_from_spec() -> bool {
        true
    }

    open spec fn from_spec(_error: smoltcp::socket::dns::GetQueryResultError) -> Error {
        Error::Failed
    }
}

impl From<smoltcp::socket::dns::GetQueryResultError> for Error {
    fn from(_error: smoltcp::socket::dns::GetQueryResultError) -> (e: Error)
        ensures
            e == Error::Failed,
    {
        Error::Failed
    }
}

impl vstd::std_specs::convert::FromSpecImpl<StartQueryError> for Error {
    open spec fn obeys_from_spec() -> bool {
        true
    }

    open spec fn from_spec(error: StartQueryError) -> Error {
        match error {
            StartQueryError::NoFreeSlot => Error::Failed,
            StartQueryError::InvalidName => Error::InvalidName,
            StartQueryError::NameTooLong => Error::NameTooLong,
        }
    }
}

impl From<StartQueryError> for Error {
    fn from(error: StartQueryError) -> (e: Error)
        ensures
            error == StartQueryError::NoFreeSlot ==> e == Error::Failed,
            error == StartQueryError::InvalidName ==> e == Error::InvalidName,
            error == StartQueryError::NameTooLong ==> e == Error::NameTooLong,
    {
        match error {
            StartQueryError::NoFreeSlot => Error::Failed,
            StartQueryError::InvalidName => Error::InvalidName,
            StartQueryError::NameTooLong => Error::NameTooLong,
        }
    }
}

impl vstd::std_specs::convert::FromSpecImpl<core::convert::Infallible> for Error {
    open spec fn obeys_from_spec() -> bool {
        true
    }

    open spec fn from_spec(_error: core::convert::Infallible) -> Error {
        Error::Failed
    }
}

/// There is no error to convert: a conversion into a name that cannot fail gives none.
impl From<core::convert::Infallible> for Error {
    fn from(_error: core::convert::Infallible) -> (e: Error) {
        Error::Failed
    }
}

impl Error {
    /// The name of the error.
    pub fn as_str(&self) -> (text: &'static str)
        ensures
            text@ == (match *self {
                Error::InvalidName => "InvalidName"@,
                Error::NameTooLong => "NameTooLong"@,
                Error::Failed => "Failed"@,
            }),
    {
        match self {
            Error::InvalidName => "InvalidName",
            Error::NameTooLong => "NameTooLong",
            Error::Failed => "Failed",
        }
    }
}

} // verus!

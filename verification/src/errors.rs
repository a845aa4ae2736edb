//! The error kinds the library reports.

use vstd::prelude::*;
use crate::acl::Forbidden;

verus! {

/// Why an operation did not give what it was asked for.
#[derive(Clone, Copy, Debug, PartialEq, Eq, Structural)]
pub enum Error {
    /// An entity, a country or a rate is absent.
    NotFound,
    /// Authorization was denied.
    Forbidden(Forbidden),
    /// A malformed geography code, a dimension that is not positive, or a
    /// record that contradicts what is stored.
    Validate,
    /// More than one binding is eligible where exactly one was expected.
    AmbiguousMatch,
    /// The parcel exceeds every tier of the lane.
    NoApplicableRate,
    /// The storage could not be reached.
    Connection,
    /// A storage transaction failed.
    Transaction,
    /// A request could not be read: a parameter is missing or malformed.
    Parse,
}

impl Error {
    /// A failure of the service rather than of the request: these are the
    /// errors that operators are told of.
    pub open spec fn is_internal_spec(&self) -> bool {
        *self == Error::Connection || *self == Error::Transaction
    }

    /// The status a request that ended in the error is answered with.
    pub open spec fn status_spec(&self) -> u16 {
        match *self {
            Error::NotFound => 404,
            Error::Forbidden(_) => 403,
            Error::Validate => 400,
            Error::AmbiguousMatch => 409,
            Error::NoApplicableRate => 422,
            Error::Connection => 500,
            Error::Transaction => 500,
            Error::Parse => 400,
        }
    }

    /// The status to answer with. It is 500 for the failures of the service
    /// and for no other error.
    pub fn status(&self) -> (code: u16)
        ensures
            code == self.status_spec(),
            code == 500 <==> self.is_internal_spec(),
    {
        match self {
            Error::NotFound => 404,
            Error::Forbidden(_) => 403,
            Error::Validate => 400,
            Error::AmbiguousMatch => 409,
            Error::NoApplicableRate => 422,
            Error::Connection => 500,
            Error::Transaction => 500,
            Error::Parse => 400,
        }
    }

    /// Whether the error is a failure of the service.
    pub fn is_internal(&self) -> (internal: bool)
        ensures
            internal == self.is_internal_spec(),
    {
        match self {
            Error::Connection => true,
            Error::Transaction => true,
            _ => false,
        }
    }
}

} // verus!

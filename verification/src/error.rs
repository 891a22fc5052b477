//! The failures the crawler tells apart.

use vstd::prelude::*;
use vstd::std_specs::convert::FromSpecImpl;
use vstd::string::StringExecFns;

verus! {

/// A call to the chain endpoint failed.
#[derive(Clone, Copy, Debug, PartialEq, Eq, Structural)]
pub enum RpcError {
    /// The request could not be delivered, or no answer came back in time.
    Transport,
    /// The endpoint answered with a status outside the success class.
    Status(u16),
    /// The answer was not the document the method promises.
    Malformed,
}

/// Processing of one block failed.
#[derive(Clone, Copy, Debug, PartialEq, Eq, Structural)]
pub enum ProcessError {
    /// The block's transactions could not be fetched.
    FetchFailed(RpcError),
}

/// The store of watermarks and wallets failed.
#[derive(Clone, Copy, Debug, PartialEq, Eq, Structural)]
pub enum PersistenceError {
    /// The store holds no record for the network.
    NotFound,
    /// The store already holds a record for the network.
    AlreadyExists,
    /// The store could not be reached or refused the write.
    Unavailable,
}

impl RpcError {
    /// What to write in the log for this failure.
    pub fn message(&self) -> (text: String)
        ensures
            text@ == match *self {
                RpcError::Transport => "chain endpoint unreachable"@,
                RpcError::Status(_) => "chain endpoint refused the request"@,
                RpcError::Malformed => "malformed answer from the chain endpoint"@,
            },
    {
        match self {
            RpcError::Transport => String::from_str("chain endpoint unreachable"),
            RpcError::Status(_) => String::from_str("chain endpoint refused the request"),
            RpcError::Malformed => String::from_str("malformed answer from the chain endpoint"),
        }
    }
}

impl From<RpcError> for ProcessError {
    fn from(error: RpcError) -> (e: ProcessError) {
        ProcessError::FetchFailed(error)
    }
}

impl FromSpecImpl<RpcError> for ProcessError {
    open spec fn obeys_from_spec() -> bool {
        true
    }

    open spec fn from_spec(error: RpcError) -> ProcessError {
        ProcessError::FetchFailed(error)
    }
}

impl ProcessError {
    /// The failure of the endpoint that made the block fail.
    pub fn cause(&self) -> (e: RpcError)
        ensures
            *self == ProcessError::FetchFailed(e),
    {
        match self {
            ProcessError::FetchFailed(e) => *e,
        }
    }
}

} // verus!

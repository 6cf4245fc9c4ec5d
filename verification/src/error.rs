//! The error of a client whose only failures are those of input and output.
use vstd::prelude::*;

verus! {

#[derive(Debug)]
pub enum ClientError {
    Io(std::io::Error),
}

impl From<std::io::Error> for ClientError {
    fn from(err: std::io::Error) -> (r: Self) {
        ClientError::Io(err)
    }
}

impl vstd::std_specs::convert::FromSpecImpl<std::io::Error> for ClientError {
    open spec fn obeys_from_spec() -> bool {
        true
    }

    open spec fn from_spec(err: std::io::Error) -> Self {
        ClientError::Io(err)
    }
}

pub type ClientResult<T> = Result<T, ClientError>;

} // verus!

//! What the client and the server share: the wire format and its errors.
use vstd::prelude::*;

pub mod context;
pub mod impls;
pub mod packet;
pub mod wire;

verus! {

/// `std::io::Error`, carried opaquely by the errors of connection tasks.
#[verifier::external_type_specification]
#[verifier::external_body]
pub struct ExIoError(std::io::Error);

pub type CommonResult<T> = Result<T, CommonError>;

#[derive(Debug)]
pub enum CommonError {
    Io(std::io::Error),
    Deserialize(packet::PacketDeserializeError),
    Serialize(packet::PacketSerializeError),
    ConnectionReset,
}

impl From<std::io::Error> for CommonError {
    fn from(err: std::io::Error) -> (r: Self) {
        CommonError::Io(err)
    }
}

impl vstd::std_specs::convert::FromSpecImpl<std::io::Error> for CommonError {
    open spec fn obeys_from_spec() -> bool {
        true
    }

    open spec fn from_spec(err: std::io::Error) -> Self {
        CommonError::Io(err)
    }
}

impl From<packet::PacketDeserializeError> for CommonError {
    fn from(err: packet::PacketDeserializeError) -> (r: Self) {
        CommonError::Deserialize(err)
    }
}

impl vstd::std_specs::convert::FromSpecImpl<packet::PacketDeserializeError> for CommonError {
    open spec fn obeys_from_spec() -> bool {
        true
    }

    open spec fn from_spec(err: packet::PacketDeserializeError) -> Self {
        CommonError::Deserialize(err)
    }
}

impl From<packet::PacketSerializeError> for CommonError {
    fn from(err: packet::PacketSerializeError) -> (r: Self) {
        CommonError::Serialize(err)
    }
}

impl vstd::std_specs::convert::FromSpecImpl<packet::PacketSerializeError> for CommonError {
    open spec fn obeys_from_spec() -> bool {
        true
    }

    open spec fn from_spec(err: packet::PacketSerializeError) -> Self {
        CommonError::Serialize(err)
    }
}

} // verus!

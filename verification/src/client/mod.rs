//! The chat client: its screen, its widgets, its connection state and its errors.
use vstd::prelude::*;

use crate::common::packet::{PacketDeserializeError, PacketSerializeError};
use crate::common::CommonError;

pub mod app;
pub mod backend;
pub mod connection_handler;
pub mod net_handlers;
pub mod terminal;
pub mod widget;

verus! {

#[derive(Debug)]
pub enum ClientError {
    Common(CommonError),
    UnexpectedEndOfStream,
    NoConnectAck,
    NoDisconnectAck,
    NoPeerListingResponse,
    NoPeerInfoResponse,
    NoMessageAck,
}

impl From<CommonError> for ClientError {
    fn from(err: CommonError) -> (r: Self) {
        ClientError::Common(err)
    }
}

impl vstd::std_specs::convert::FromSpecImpl<CommonError> for ClientError {
    open spec fn obeys_from_spec() -> bool {
        true
    }

    open spec fn from_spec(err: CommonError) -> Self {
        ClientError::Common(err)
    }
}

impl From<std::io::Error> for ClientError {
    fn from(err: std::io::Error) -> (r: Self) {
        ClientError::Common(CommonError::Io(err))
    }
}

impl vstd::std_specs::convert::FromSpecImpl<std::io::Error> for ClientError {
    open spec fn obeys_from_spec() -> bool {
        true
    }

    open spec fn from_spec(err: std::io::Error) -> Self {
        ClientError::Common(CommonError::Io(err))
    }
}

impl From<PacketDeserializeError> for ClientError {
    fn from(err: PacketDeserializeError) -> (r: Self) {
        ClientError::Common(CommonError::Deserialize(err))
    }
}

impl vstd::std_specs::convert::FromSpecImpl<PacketDeserializeError> for ClientError {
    open spec fn obeys_from_spec() -> bool {
        true
    }

    open spec fn from_spec(err: PacketDeserializeError) -> Self {
        ClientError::Common(CommonError::Deserialize(err))
    }
}

impl From<PacketSerializeError> for ClientError {
    fn from(err: PacketSerializeError) -> (r: Self) {
        ClientError::Common(CommonError::Serialize(err))
    }
}

impl vstd::std_specs::convert::FromSpecImpl<PacketSerializeError> for ClientError {
    open spec fn obeys_from_spec() -> bool {
        true
    }

    open spec fn from_spec(err: PacketSerializeError) -> Self {
        ClientError::Common(CommonError::Serialize(err))
    }
}

pub type ClientResult<T> = Result<T, ClientError>;

/// What a widget is drawn with besides its frame (nothing so far).
pub struct WidgetContext {}

/// A run of text in one style.
pub type StyledSpan = widget::text::StyledSegment;

/// Text made of styled runs.
pub type Styled = widget::text::StyledText;

} // verus!

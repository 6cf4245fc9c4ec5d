//! A small chat system: a wire format shared by a server and a terminal
//! client, the server's registry of clients and rooms, and the client's
//! screen, widgets and connection state.
use vstd::prelude::*;

pub mod client;
pub mod common;
pub mod error;
pub mod server;

verus! {

/// What the program is asked to run: the server, or a client with an
/// optional username.
#[derive(Debug)]
pub enum RunArguments {
    Server {},
    Client { username: Option<String> },
}

} // verus!

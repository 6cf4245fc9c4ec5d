//! What the client's connection handler keeps and decides: the identity the
//! server gave it, what it knows of its peers, and the tasks waiting for
//! responses. The sockets and channels around it live with the caller.
use vstd::prelude::*;

use std::collections::HashMap;

use crate::common::packet::{
    ClientId, ClientToServerPacket, PacketCodec, PeerInfo, ResponseId, ServerToClientPacket,
    ServerToClientResponsePacket,
};

verus! {

#[derive(Clone, Debug, Eq, PartialEq, Hash)]
pub enum ConnectionHandlerCommand {
    SetConnectionId(ClientId),
    SendPacket(ClientToServerPacket),
    AddPeer(ClientId),
    AddConnectionInfo { client_id: ClientId, info: PeerInfo },
}

/// What reaches the connection handler: a packet from the server, the end of
/// a task, or a command from a task.
#[derive(Clone, Debug, Eq, PartialEq)]
pub enum ConnectionHandlerEvent {
    Packet(ServerToClientPacket),
    DeadTask(ResponseId),
    Command(ConnectionHandlerCommand),
}

/// What the handler does with an event.
pub enum Routing {
    /// Give the response to the task waiting under this identifier.
    ToTask(ResponseId, ServerToClientResponsePacket),
    /// A response for which no task waits; it is dropped.
    Dropped,
    /// Hand the packet to the application.
    ToApplication(ServerToClientPacket),
    /// Write this packet to the server.
    Write(ClientToServerPacket),
    /// The event was taken in; nothing more to do.
    Handled,
}

/// The handler's state, with `T` the handle of a waiting task.
#[derive(Debug)]
pub struct ConnectionState<T> {
    client_id: Option<ClientId>,
    peer_ids: Vec<ClientId>,
    connection_infos: HashMap<ClientId, PeerInfo>,
    tasks: HashMap<u32, T>,
    current_response_id: u32,
}

impl<T> ConnectionState<T> {
    pub closed spec fn spec_client_id(&self) -> Option<ClientId> {
        self.client_id
    }

    pub closed spec fn peers(&self) -> Seq<ClientId> {
        self.peer_ids@
    }

    pub closed spec fn infos(&self) -> Map<ClientId, PeerInfo> {
        self.connection_infos@
    }

    /// The waiting tasks, by the identifier of the responses they wait for.
    pub closed spec fn tasks(&self) -> Map<u32, T> {
        self.tasks@
    }

    /// The identifier the next task gets.
    pub closed spec fn next_response_id(&self) -> u32 {
        self.current_response_id
    }

    /// Every waiting task was registered under an identifier below the next one.
    pub open spec fn wf(&self) -> bool {
        forall|id: u32| #[trigger] self.tasks().contains_key(id) ==> id < self.next_response_id()
    }

    pub fn new() -> (r: Self)
        ensures
            r.wf(),
            r.spec_client_id() == None::<ClientId>,
            r.peers() == Seq::<ClientId>::empty(),
            r.infos() == Map::<ClientId, PeerInfo>::empty(),
            r.tasks() == Map::<u32, T>::empty(),
            r.next_response_id() == 0,
    {
        Self {
            client_id: None,
            peer_ids: Vec::new(),
            connection_infos: HashMap::new(),
            tasks: HashMap::new(),
            current_response_id: 0,
        }
    }

    /// Whether an identifier is left for another task.
    pub fn can_register_task(&self) -> (r: bool)
        ensures
            r == (self.next_response_id() < u32::MAX),
    {
        self.current_response_id < u32::MAX
    }

    /// Registers a new task, which waits for responses under a fresh identifier.
    pub fn register_task(&mut self, handle: T) -> (r: ResponseId)
        requires
            old(self).wf(),
            old(self).next_response_id() < u32::MAX,
        ensures
            final(self).wf(),
            r.0 == old(self).next_response_id(),
            !old(self).tasks().contains_key(r.0),
            final(self).next_response_id() == old(self).next_response_id() + 1,
            final(self).tasks() == old(self).tasks().insert(r.0, handle),
            final(self).spec_client_id() == old(self).spec_client_id(),
            final(self).peers() == old(self).peers(),
            final(self).infos() == old(self).infos(),
    {
        broadcast use vstd::std_specs::hash::group_hash_axioms;

        let ghost before = *self;
        let rid = ResponseId(self.current_response_id);
        self.current_response_id = self.current_response_id + 1;
        self.tasks.insert(rid.0, handle);
        proof {
            assert forall|id: u32| #[trigger] self.tasks().contains_key(id) implies id
                < self.next_response_id() by {
                if id != rid.0 {
                    assert(before.tasks().contains_key(id));
                }
            }
        }
        rid
    }

    /// Takes in a command from a task; a packet to send is handed back to be written.
    pub fn handle_command(&mut self, cmd: ConnectionHandlerCommand) -> (r: Option<ClientToServerPacket>)
        requires
            old(self).wf(),
        ensures
            final(self).wf(),
            final(self).tasks() == old(self).tasks(),
            final(self).next_response_id() == old(self).next_response_id(),
            match cmd {
                ConnectionHandlerCommand::SetConnectionId(id) => {
                    &&& r is None
                    &&& final(self).spec_client_id() == Some(id)
                    &&& final(self).peers() == old(self).peers()
                    &&& final(self).infos() == old(self).infos()
                },
                ConnectionHandlerCommand::SendPacket(packet) => {
                    &&& r == Some(packet)
                    &&& final(self).spec_client_id() == old(self).spec_client_id()
                    &&& final(self).peers() == old(self).peers()
                    &&& final(self).infos() == old(self).infos()
                },
                ConnectionHandlerCommand::AddPeer(peer_id) => {
                    &&& r is None
                    &&& final(self).spec_client_id() == old(self).spec_client_id()
                    &&& final(self).peers() == old(self).peers().push(peer_id)
                    &&& final(self).infos() == old(self).infos()
                },
                ConnectionHandlerCommand::AddConnectionInfo { client_id, info } => {
                    &&& r is None
                    &&& final(self).spec_client_id() == old(self).spec_client_id()
                    &&& final(self).peers() == old(self).peers()
                    &&& final(self).infos() == old(self).infos().insert(client_id, info)
                },
            },
    {
        broadcast use vstd::std_specs::hash::group_hash_axioms;

        let ghost before = *self;
        let r = match cmd {
            ConnectionHandlerCommand::SetConnectionId(id) => {
                self.client_id = Some(id);
                None
            },
            ConnectionHandlerCommand::SendPacket(packet) => Some(packet),
            ConnectionHandlerCommand::AddPeer(peer_id) => {
                self.peer_ids.push(peer_id);
                None
            },
            ConnectionHandlerCommand::AddConnectionInfo { client_id, info } => {
                self.connection_infos.insert(client_id, info);
                None
            },
        };
        proof {
            assert forall|id: u32| #[trigger] self.tasks().contains_key(id) implies id
                < self.next_response_id() by {
                assert(before.tasks().contains_key(id));
            }
        }
        r
    }

    /// Decides what becomes of an event: a response goes to the task that
    /// waits for it (or is dropped), another packet goes to the application,
    /// a finished task is forgotten, and a command is taken in.
    pub fn route(&mut self, event: ConnectionHandlerEvent) -> (r: Routing)
        requires
            old(self).wf(),
        ensures
            final(self).wf(),
            final(self).next_response_id() == old(self).next_response_id(),
            match event {
                ConnectionHandlerEvent::Packet(ServerToClientPacket::Response { rid, packet }) => {
                    &&& old(self).tasks().contains_key(rid.0) ==> r == Routing::ToTask(rid, packet)
                    &&& !old(self).tasks().contains_key(rid.0) ==> r is Dropped
                    &&& final(self).tasks() == old(self).tasks()
                    &&& final(self).spec_client_id() == old(self).spec_client_id()
                    &&& final(self).peers() == old(self).peers()
                    &&& final(self).infos() == old(self).infos()
                },
                ConnectionHandlerEvent::Packet(packet) => {
                    &&& r == Routing::ToApplication(packet)
                    &&& final(self).tasks() == old(self).tasks()
                    &&& final(self).spec_client_id() == old(self).spec_client_id()
                    &&& final(self).peers() == old(self).peers()
                    &&& final(self).infos() == old(self).infos()
                },
                ConnectionHandlerEvent::DeadTask(rid) => {
                    &&& r is Handled
                    &&& final(self).tasks() == old(self).tasks().remove(rid.0)
                    &&& final(self).spec_client_id() == old(self).spec_client_id()
                    &&& final(self).peers() == old(self).peers()
                    &&& final(self).infos() == old(self).infos()
                },
                ConnectionHandlerEvent::Command(ConnectionHandlerCommand::SendPacket(packet)) => {
                    &&& r == Routing::Write(packet)
                    &&& final(self).tasks() == old(self).tasks()
                    &&& final(self).spec_client_id() == old(self).spec_client_id()
                    &&& final(self).peers() == old(self).peers()
                    &&& final(self).infos() == old(self).infos()
                },
                ConnectionHandlerEvent::Command(cmd) => {
                    &&& r is Handled
                    &&& final(self).tasks() == old(self).tasks()
                    &&& match cmd {
                        ConnectionHandlerCommand::SetConnectionId(id) => final(self).spec_client_id()
                            == Some(id) && final(self).peers() == old(self).peers()
                            && final(self).infos() == old(self).infos(),
                        ConnectionHandlerCommand::AddPeer(peer_id) => final(self).spec_client_id()
                            == old(self).spec_client_id() && final(self).peers() == old(
                            self,
                        ).peers().push(peer_id) && final(self).infos() == old(self).infos(),
                        ConnectionHandlerCommand::AddConnectionInfo {
                            client_id,
                            info,
                        } => final(self).spec_client_id() == old(self).spec_client_id()
                            && final(self).peers() == old(self).peers() && final(self).infos()
                            == old(self).infos().insert(client_id, info),
                        ConnectionHandlerCommand::SendPacket(_) => true,
                    }
                },
            },
    {
        broadcast use vstd::std_specs::hash::group_hash_axioms;

        let ghost before = *self;
        let r = match event {
            ConnectionHandlerEvent::Packet(ServerToClientPacket::Response { rid, packet }) => {
                if self.tasks.contains_key(&rid.0) {
                    Routing::ToTask(rid, packet)
                } else {
                    Routing::Dropped
                }
            },
            ConnectionHandlerEvent::Packet(packet) => Routing::ToApplication(packet),
            ConnectionHandlerEvent::DeadTask(id) => {
                self.tasks.remove(&id.0);
                Routing::Handled
            },
            ConnectionHandlerEvent::Command(cmd) => match self.handle_command(cmd) {
                Some(packet) => Routing::Write(packet),
                None => Routing::Handled,
            },
        };
        proof {
            assert forall|id: u32| #[trigger] self.tasks().contains_key(id) implies id
                < self.next_response_id() by {
                assert(before.tasks().contains_key(id));
            }
        }
        r
    }

    /// The handle of the task waiting under `rid`.
    pub fn task(&self, rid: ResponseId) -> (r: Option<&T>)
        ensures
            self.tasks().contains_key(rid.0) ==> r == Some(&self.tasks()[rid.0]),
            !self.tasks().contains_key(rid.0) ==> r is None,
    {
        broadcast use vstd::std_specs::hash::group_hash_axioms;

        self.tasks.get(&rid.0)
    }

    pub fn client_id(&self) -> (r: Option<ClientId>)
        ensures
            r == self.spec_client_id(),
    {
        self.client_id
    }

    pub fn connection_info(&self, id: ClientId) -> (r: Option<&PeerInfo>)
        ensures
            self.infos().contains_key(id) ==> r == Some(&self.infos()[id]),
            !self.infos().contains_key(id) ==> r is None,
    {
        broadcast use vstd::std_specs::hash::group_hash_axioms;

        self.connection_infos.get(&id)
    }

    pub fn peer_ids(&self) -> (r: &Vec<ClientId>)
        ensures
            r@ == self.peers(),
    {
        &self.peer_ids
    }
}

} // verus!

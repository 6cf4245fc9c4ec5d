//! What the client's tasks do with the server's answers.
use vstd::prelude::*;

use std::collections::HashMap;
use vstd::std_specs::iter::IteratorSpec;

use super::app::{AppCommand, ChatLine};
use super::connection_handler::ConnectionHandlerCommand;
use super::ClientError;
use crate::common::packet::{ClientId, PeerInfo, ServerToClientResponsePacket};

verus! {

broadcast use vstd::std_specs::hash::group_hash_axioms;

/// A copy of `info`.
fn copy_peer_info(info: &PeerInfo) -> (r: PeerInfo)
    ensures
        r == *info,
{
    let username = match &info.username {
        Some(name) => Some(name.clone()),
        None => None,
    };
    PeerInfo { username }
}

/// `cmds` records each entry of `peers` once, and nothing else.
pub open spec fn records_each_peer(cmds: Seq<ConnectionHandlerCommand>, peers: Map<ClientId, PeerInfo>) -> bool {
    &&& cmds.len() == peers.len()
    &&& forall|i: int|
        0 <= i < cmds.len() ==> (#[trigger] cmds[i] matches ConnectionHandlerCommand::AddConnectionInfo {
            client_id,
            info,
        } && peers.contains_key(client_id) && peers[client_id] == info)
    &&& forall|i: int, j: int|
        0 <= i < j < cmds.len() ==> #[trigger] cmds[i] != #[trigger] cmds[j]
    &&& forall|id: ClientId| #[trigger]
        peers.contains_key(id) ==> cmds.contains(
            (ConnectionHandlerCommand::AddConnectionInfo { client_id: id, info: peers[id] }),
        )
}

/// The commands that record what a peer information response tells: one for
/// each peer it describes, in no particular order.
pub fn peer_info_commands(peers: &HashMap<ClientId, PeerInfo>) -> (r: Vec<ConnectionHandlerCommand>)
    ensures
        records_each_peer(r@, peers@),
{
    let mut cmds: Vec<ConnectionHandlerCommand> = Vec::new();
    let iter = peers.iter();
    let ghost walk = iter.remaining();
    proof {
        vstd::std_specs::hash::axiom_spec_hash_map_iter(peers);
        assert(walk.no_duplicates());
    }
    for entry in it: iter
        invariant
            walk == it.seq(),
            walk.no_duplicates(),
            walk.len() == peers@.dom().len(),
            forall|i: int|
                0 <= i < walk.len() ==> peers@.contains_key(*walk[i].0) && peers@[*walk[i].0]
                    == *walk[i].1,
            cmds@.len() == it.index(),
            forall|i: int|
                0 <= i < cmds@.len() ==> cmds@[i] == (ConnectionHandlerCommand::AddConnectionInfo {
                    client_id: *walk[i].0,
                    info: *walk[i].1,
                }),
    {
        let info = copy_peer_info(entry.1);
        cmds.push(ConnectionHandlerCommand::AddConnectionInfo { client_id: *entry.0, info });
    }
    proof {
        assert forall|i: int| 0 <= i < cmds@.len() implies (#[trigger] cmds@[i] matches ConnectionHandlerCommand::AddConnectionInfo {
            client_id,
            info,
        } && peers@.contains_key(client_id) && peers@[client_id] == info) by {
            assert(peers@.contains_key(*walk[i].0));
        }
        assert forall|i: int, j: int| 0 <= i < j < cmds@.len() implies #[trigger] cmds@[i]
            != #[trigger] cmds@[j] by {
            if cmds@[i] == cmds@[j] {
                assert(walk[i] == walk[j]);
            }
        }
        assert forall|id: ClientId| #[trigger] peers@.contains_key(id) implies cmds@.contains(
            (ConnectionHandlerCommand::AddConnectionInfo { client_id: id, info: peers@[id] }),
        ) by {
            assert(walk.contains((&id, &peers@[id])));
            let j = choose|j: int| 0 <= j < walk.len() && walk[j] == (&id, &peers@[id]);
            assert(cmds@[j] == (ConnectionHandlerCommand::AddConnectionInfo {
                client_id: id,
                info: peers@[id],
            }));
        }
    }
    cmds
}

/// What the client knows of its peers after taking in `cmds`, one after the
/// other, as [`ConnectionState::handle_command`](super::connection_handler::ConnectionState::handle_command)
/// takes them in.
pub open spec fn infos_after(infos: Map<ClientId, PeerInfo>, cmds: Seq<ConnectionHandlerCommand>) -> Map<
    ClientId,
    PeerInfo,
>
    decreases cmds.len(),
{
    if cmds.len() == 0 {
        infos
    } else {
        let before = infos_after(infos, cmds.drop_last());
        match cmds.last() {
            ConnectionHandlerCommand::AddConnectionInfo { client_id, info } => before.insert(
                client_id,
                info,
            ),
            _ => before,
        }
    }
}

/// Whether `cmds` records information about `id`.
pub open spec fn records(cmds: Seq<ConnectionHandlerCommand>, id: ClientId) -> bool {
    exists|i: int|
        0 <= i < cmds.len() && (#[trigger] cmds[i] matches ConnectionHandlerCommand::AddConnectionInfo {
            client_id,
            ..
        } && client_id == id)
}

proof fn lemma_infos_after_prefix(
    infos: Map<ClientId, PeerInfo>,
    cmds: Seq<ConnectionHandlerCommand>,
    peers: Map<ClientId, PeerInfo>,
    n: int,
)
    requires
        records_each_peer(cmds, peers),
        0 <= n <= cmds.len(),
    ensures
        forall|id: ClientId| #[trigger]
            infos_after(infos, cmds.take(n)).contains_key(id) <==> infos.contains_key(id) || records(
                cmds.take(n),
                id,
            ),
        forall|id: ClientId| #[trigger]
            records(cmds.take(n), id) ==> infos_after(infos, cmds.take(n))[id] == peers[id],
        forall|id: ClientId|
            #![trigger infos_after(infos, cmds.take(n))[id]]
            !records(cmds.take(n), id) && infos.contains_key(id) ==> infos_after(infos, cmds.take(n))[id]
                == infos[id],
    decreases n,
{
    let prefix = cmds.take(n);
    if n == 0 {
        assert(prefix =~= Seq::<ConnectionHandlerCommand>::empty());
        assert(infos_after(infos, prefix) == infos);
        assert forall|id: ClientId| !records(prefix, id) by {}
    } else {
        lemma_infos_after_prefix(infos, cmds, peers, n - 1);
        let shorter = cmds.take(n - 1);
        assert(prefix.drop_last() =~= shorter);
        assert(prefix.last() == cmds[n - 1]);
        let c = cmds[n - 1];
        assert(c matches ConnectionHandlerCommand::AddConnectionInfo { client_id, info }
            && peers.contains_key(client_id) && peers[client_id] == info);
        if let ConnectionHandlerCommand::AddConnectionInfo { client_id: key, info } = c {
            assert(infos_after(infos, prefix) == infos_after(infos, shorter).insert(key, info));
            assert forall|id: ClientId| #[trigger] records(prefix, id) <==> records(shorter, id) || id
                == key by {
                if records(prefix, id) {
                    let i = choose|i: int|
                        0 <= i < prefix.len() && (#[trigger] prefix[i] matches ConnectionHandlerCommand::AddConnectionInfo {
                            client_id,
                            ..
                        } && client_id == id);
                    if i < n - 1 {
                        assert(shorter[i] == prefix[i]);
                    }
                }
                if records(shorter, id) {
                    let i = choose|i: int|
                        0 <= i < shorter.len() && (#[trigger] shorter[i] matches ConnectionHandlerCommand::AddConnectionInfo {
                            client_id,
                            ..
                        } && client_id == id);
                    assert(prefix[i] == shorter[i]);
                }
                if id == key {
                    assert(prefix[n - 1] == c);
                }
            }
        }
    }
}

/// Taking in the commands made of a peer information response leaves the
/// client knowing of each peer in it exactly what the response says, and of
/// the others what it knew before.
pub proof fn lemma_peer_info_response_recorded(
    infos: Map<ClientId, PeerInfo>,
    cmds: Seq<ConnectionHandlerCommand>,
    peers: Map<ClientId, PeerInfo>,
)
    requires
        records_each_peer(cmds, peers),
    ensures
        infos_after(infos, cmds) == infos.union_prefer_right(peers),
{
    lemma_infos_after_prefix(infos, cmds, peers, cmds.len() as int);
    assert(cmds.take(cmds.len() as int) =~= cmds);
    assert forall|id: ClientId| #[trigger] records(cmds, id) <==> peers.contains_key(id) by {
        if peers.contains_key(id) {
            let c = ConnectionHandlerCommand::AddConnectionInfo { client_id: id, info: peers[id] };
            assert(cmds.contains(c));
            let i = choose|i: int| 0 <= i < cmds.len() && cmds[i] == c;
            assert(cmds[i] matches ConnectionHandlerCommand::AddConnectionInfo { client_id, .. } && client_id == id);
        }
    }
    assert(infos_after(infos, cmds) =~= infos.union_prefer_right(peers));
}

/// What the connect handshake takes from the server's answer: the identifier
/// the server gave this client, with the command that records it. Any other
/// answer is [`ClientError::NoConnectAck`].
pub fn connect_response_step(response: ServerToClientResponsePacket) -> (r: Result<
    (ClientId, ConnectionHandlerCommand),
    ClientError,
>)
    ensures
        match response {
            ServerToClientResponsePacket::ConnectAck { connection_id } => r matches Ok((id, cmd)) && id
                == connection_id && cmd == ConnectionHandlerCommand::SetConnectionId(connection_id),
            _ => r matches Err(ClientError::NoConnectAck),
        },
{
    match response {
        ServerToClientResponsePacket::ConnectAck { connection_id } => Ok(
            (connection_id, ConnectionHandlerCommand::SetConnectionId(connection_id)),
        ),
        _ => Err(ClientError::NoConnectAck),
    }
}

/// What a peer query takes from the server's answer: the commands that record
/// each peer it describes (see [`peer_info_commands`]). Any other answer is
/// [`ClientError::NoPeerInfoResponse`].
pub fn peer_info_response_step(response: &ServerToClientResponsePacket) -> (r: Result<
    Vec<ConnectionHandlerCommand>,
    ClientError,
>)
    ensures
        match response {
            ServerToClientResponsePacket::PeerInfoResponse { peers } => r matches Ok(cmds)
                && records_each_peer(cmds@, peers@),
            _ => r matches Err(ClientError::NoPeerInfoResponse),
        },
{
    match response {
        ServerToClientResponsePacket::PeerInfoResponse { peers } => Ok(peer_info_commands(peers)),
        _ => Err(ClientError::NoPeerInfoResponse),
    }
}

/// What sending a message takes from the server's answer: once the server
/// acknowledges it, the command that shows the message as this client's own
/// chat line. Any other answer is [`ClientError::NoMessageAck`].
pub fn message_response_step(response: &ServerToClientResponsePacket, self_id: ClientId, message: String) -> (r:
    Result<AppCommand, ClientError>)
    ensures
        match response {
            ServerToClientResponsePacket::MessageAck {  } => r matches Ok(
                AppCommand::AddChatLine(ChatLine::Text { peer_id, message: text }),
            ) && peer_id == self_id && text@ == message@,
            _ => r matches Err(ClientError::NoMessageAck),
        },
{
    match response {
        ServerToClientResponsePacket::MessageAck {  } => Ok(
            AppCommand::AddChatLine(ChatLine::Text { peer_id: self_id, message }),
        ),
        _ => Err(ClientError::NoMessageAck),
    }
}

} // verus!

//! What the server does with a request from a connected client.
use vstd::prelude::*;

use std::collections::HashMap;

use super::instance::{handle_query_peer_info, handle_update_client_username, peer_info, Instance};
use crate::common::packet::{
    ClientId, ClientToServerPacket, ClientToServerPacketKind, PeerInfo, ServerToClientPacket,
    ServerToClientResponsePacket,
};

verus! {

broadcast use vstd::std_specs::hash::group_hash_axioms;

/// What the server knows of each of the peers in `ids` that is connected.
pub open spec fn peer_infos<C, R>(instance: Instance<C, R>, ids: Seq<ClientId>) -> Map<ClientId, PeerInfo>
    decreases ids.len(),
{
    if ids.len() == 0 {
        Map::empty()
    } else {
        let known = peer_infos(instance, ids.drop_last());
        match peer_info(instance, ids.last()) {
            Some(info) => known.insert(ids.last(), info),
            None => known,
        }
    }
}

/// A request for peer information is answered for exactly the peers asked
/// about that are connected, each with the username it gave, if it gave one.
pub proof fn lemma_peer_infos_exact<C, R>(instance: Instance<C, R>, ids: Seq<ClientId>)
    ensures
        forall|id: ClientId| #[trigger]
            peer_infos(instance, ids).contains_key(id) <==> (ids.contains(id)
                && instance.clients().contains_key(id)),
        forall|id: ClientId| #[trigger]
            peer_infos(instance, ids).contains_key(id) ==> peer_infos(instance, ids)[id] == (PeerInfo {
                username: if instance.usernames().contains_key(id) {
                    Some(instance.usernames()[id])
                } else {
                    None
                },
            }),
    decreases ids.len(),
{
    if ids.len() > 0 {
        let init = ids.drop_last();
        lemma_peer_infos_exact(instance, init);
        assert forall|id: ClientId| ids.contains(id) <==> (init.contains(id) || id == ids.last()) by {
            if ids.contains(id) {
                let i = choose|i: int| 0 <= i < ids.len() && ids[i] == id;
                if i < ids.len() - 1 {
                    assert(init[i] == id);
                }
            }
            if init.contains(id) {
                let i = choose|i: int| 0 <= i < init.len() && init[i] == id;
                assert(ids[i] == id);
            }
            if id == ids.last() {
                assert(ids[ids.len() - 1] == id);
            }
        }
    }
}

/// A client that connected with a username is reported with that username
/// when a peer asks about it, as long as it stays connected.
pub proof fn lemma_connect_then_peer_info<C, R>(
    before: Instance<C, R>,
    after: Instance<C, R>,
    client: ClientId,
    username: String,
)
    requires
        before.clients().contains_key(client),
        after.clients() == before.clients(),
        after.usernames() == before.usernames().insert(client, username),
    ensures
        peer_infos(after, seq![client]) == map![client => PeerInfo { username: Some(username) }],
{
    let ids = seq![client];
    assert(ids.drop_last() =~= Seq::<ClientId>::empty());
    assert(ids.last() == client);
    assert(peer_infos(after, ids.drop_last()) == Map::<ClientId, PeerInfo>::empty());
    assert(after.usernames().contains_key(client) && after.usernames()[client] == username);
    assert(peer_info(after, client) == Some(PeerInfo { username: Some(username) }));
    assert(peer_infos(after, seq![client]) =~= map![client => PeerInfo { username: Some(username) }]);
}

/// Takes in `packet` from the client `client` and gives the response to send
/// it, if any: a connection records the username and is acknowledged with the
/// client's identifier; a request for peer information is answered with what
/// is known of each connected peer asked about. A message and a request for
/// the peer listing name a room the client is in, and the client is in none
/// (nothing lets it join one), so they are not answered; neither is a shutdown.
pub fn handle_receive_packet<C, R>(
    instance: &mut Instance<C, R>,
    client: ClientId,
    packet: ClientToServerPacket,
) -> (r: Option<ServerToClientPacket>)
    requires
        old(instance).wf(),
    ensures
        final(instance).wf(),
        final(instance).clients() == old(instance).clients(),
        final(instance).next_client() == old(instance).next_client(),
        final(instance).rooms() == old(instance).rooms(),
        final(instance).room_names() == old(instance).room_names(),
        final(instance).next_room() == old(instance).next_room(),
        match packet.kind {
            ClientToServerPacketKind::Connect { username } => {
                &&& final(instance).usernames() == old(instance).usernames().insert(client, username)
                &&& r == Some(
                    ServerToClientPacket::Response {
                        rid: packet.rid,
                        packet: ServerToClientResponsePacket::ConnectAck { connection_id: client },
                    },
                )
            },
            ClientToServerPacketKind::RequestPeerInfo { peer_ids } => {
                &&& final(instance).usernames() == old(instance).usernames()
                &&& r matches Some(ServerToClientPacket::Response { rid, packet: response })
                &&& rid == packet.rid
                &&& response matches ServerToClientResponsePacket::PeerInfoResponse { peers }
                &&& peers@ == peer_infos(*old(instance), peer_ids@)
            },
            _ => final(instance).usernames() == old(instance).usernames() && r is None,
        },
{
    let rid = packet.rid;
    match packet.kind {
        ClientToServerPacketKind::Connect { username } => {
            handle_update_client_username(instance, client, username);
            Some(
                ServerToClientPacket::Response {
                    rid,
                    packet: ServerToClientResponsePacket::ConnectAck { connection_id: client },
                },
            )
        },
        ClientToServerPacketKind::RequestPeerInfo { peer_ids } => {
            let mut infos: HashMap<ClientId, PeerInfo> = HashMap::new();
            let mut i: usize = 0;
            while i < peer_ids.len()
                invariant
                    i <= peer_ids@.len(),
                    infos@ == peer_infos(*instance, peer_ids@.take(i as int)),
                decreases peer_ids@.len() - i,
            {
                let peer = peer_ids[i];
                proof {
                    assert(peer_ids@.take(i + 1).drop_last() =~= peer_ids@.take(i as int));
                    assert(peer_ids@.take(i + 1).last() == peer);
                }
                match handle_query_peer_info(instance, peer) {
                    Some(info) => {
                        infos.insert(peer, info);
                    },
                    None => {},
                }
                i = i + 1;
            }
            proof {
                assert(peer_ids@.take(i as int) =~= peer_ids@);
            }
            Some(
                ServerToClientPacket::Response {
                    rid,
                    packet: ServerToClientResponsePacket::PeerInfoResponse { peers: infos },
                },
            )
        },
        _ => None,
    }
}

} // verus!

//! The server's registry of connected clients and chat rooms, and how it
//! answers the questions the clients' tasks put to it.
use vstd::prelude::*;

use std::collections::HashMap;
use vstd::std_specs::iter::IteratorSpec;

use crate::common::packet::{ClientId, PeerInfo, RoomId, RoomInfo};

verus! {

broadcast use vstd::std_specs::hash::group_hash_axioms;

/// The registry, with `C` the handle of a client's task and `R` that of a room's.
#[derive(Debug)]
pub struct Instance<C, R> {
    next_client_id: ClientId,
    clients: HashMap<ClientId, C>,
    usernames: HashMap<ClientId, String>,
    next_room_id: RoomId,
    rooms: HashMap<RoomId, R>,
    room_names: HashMap<RoomId, String>,
}

impl<C, R> Instance<C, R> {
    /// The identifier the next client gets.
    pub closed spec fn next_client(&self) -> ClientId {
        self.next_client_id
    }

    /// The connected clients, by identifier.
    pub closed spec fn clients(&self) -> Map<ClientId, C> {
        self.clients@
    }

    /// The usernames the clients gave.
    pub closed spec fn usernames(&self) -> Map<ClientId, String> {
        self.usernames@
    }

    /// The identifier the next room gets.
    pub closed spec fn next_room(&self) -> RoomId {
        self.next_room_id
    }

    /// The rooms, by identifier.
    pub closed spec fn rooms(&self) -> Map<RoomId, R> {
        self.rooms@
    }

    /// The rooms' names.
    pub closed spec fn room_names(&self) -> Map<RoomId, String> {
        self.room_names@
    }

    /// Every client and room was given an identifier below the next one, and
    /// every room has a name.
    pub open spec fn wf(&self) -> bool {
        &&& forall|id: ClientId| #[trigger] self.clients().contains_key(id) ==> id < self.next_client()
        &&& forall|id: RoomId| #[trigger] self.rooms().contains_key(id) ==> id < self.next_room()
        &&& self.rooms().dom() == self.room_names().dom()
    }

    pub fn new() -> (r: Self)
        ensures
            r.wf(),
            r.next_client() == 0,
            r.clients() == Map::<ClientId, C>::empty(),
            r.usernames() == Map::<ClientId, String>::empty(),
            r.next_room() == 0,
            r.rooms() == Map::<RoomId, R>::empty(),
            r.room_names() == Map::<RoomId, String>::empty(),
    {
        let r = Self {
            next_client_id: 0,
            clients: HashMap::new(),
            usernames: HashMap::new(),
            next_room_id: 0,
            rooms: HashMap::new(),
            room_names: HashMap::new(),
        };
        proof {
            assert(r.rooms().dom() =~= r.room_names().dom());
        }
        r
    }

    /// Whether an identifier is left for another client.
    pub fn can_accept_client(&self) -> (r: bool)
        ensures
            r == (self.next_client() < u64::MAX),
    {
        self.next_client_id < u64::MAX
    }

    /// The handle of the connected client `id`.
    pub fn client(&self, id: ClientId) -> (r: Option<&C>)
        ensures
            self.clients().contains_key(id) ==> r == Some(&self.clients()[id]),
            !self.clients().contains_key(id) ==> r is None,
    {
        self.clients.get(&id)
    }

    /// Hands out the next client identifier.
    pub fn next_client_id(&mut self) -> (r: ClientId)
        requires
            old(self).next_client() < u64::MAX,
        ensures
            r == old(self).next_client(),
            final(self).next_client() == old(self).next_client() + 1,
            final(self).clients() == old(self).clients(),
            final(self).usernames() == old(self).usernames(),
            final(self).next_room() == old(self).next_room(),
            final(self).rooms() == old(self).rooms(),
            final(self).room_names() == old(self).room_names(),
    {
        let res = self.next_client_id;
        self.next_client_id = self.next_client_id + 1;
        res
    }

    /// Hands out the next room identifier.
    pub fn next_room_id(&mut self) -> (r: RoomId)
        requires
            old(self).next_room() < u64::MAX,
        ensures
            r == old(self).next_room(),
            final(self).next_room() == old(self).next_room() + 1,
            final(self).next_client() == old(self).next_client(),
            final(self).clients() == old(self).clients(),
            final(self).usernames() == old(self).usernames(),
            final(self).rooms() == old(self).rooms(),
            final(self).room_names() == old(self).room_names(),
    {
        let res = self.next_room_id;
        self.next_room_id = self.next_room_id + 1;
        res
    }
}

/// Opens a room named `name` under the next room identifier; `create` starts
/// the room's task given that identifier. Gives the identifier back.
pub fn handle_create_room<C, R, F: FnOnce(RoomId) -> R>(
    instance: &mut Instance<C, R>,
    name: String,
    create: F,
) -> (r: RoomId)
    requires
        old(instance).wf(),
        old(instance).next_room() < u64::MAX,
        create.requires((old(instance).next_room(),)),
    ensures
        final(instance).wf(),
        r == old(instance).next_room(),
        !old(instance).rooms().contains_key(r),
        final(instance).next_room() == r + 1,
        final(instance).rooms().contains_key(r),
        create.ensures((r,), final(instance).rooms()[r]),
        final(instance).rooms() == old(instance).rooms().insert(r, final(instance).rooms()[r]),
        final(instance).room_names() == old(instance).room_names().insert(r, name),
        final(instance).next_client() == old(instance).next_client(),
        final(instance).clients() == old(instance).clients(),
        final(instance).usernames() == old(instance).usernames(),
{
    let id = instance.next_room_id();
    let room = create(id);
    instance.room_names.insert(id, name);
    instance.rooms.insert(id, room);
    proof {
        assert(instance.rooms().dom() =~= instance.room_names().dom());
    }
    id
}

/// Opens the rooms every server starts with, `general`, `test` and
/// `unsafe_unsafe`, in that order; `create` starts each room's task.
pub fn create_default_rooms<C, R, F: Fn(RoomId) -> R>(instance: &mut Instance<C, R>, create: &F) -> (r:
    Vec<RoomId>)
    requires
        old(instance).wf(),
        old(instance).next_room() + 3 <= u64::MAX,
        forall|id: RoomId| create.requires((id,)),
    ensures
        final(instance).wf(),
        r@ == seq![
            old(instance).next_room(),
            (old(instance).next_room() + 1) as u64,
            (old(instance).next_room() + 2) as u64,
        ],
        final(instance).next_room() == old(instance).next_room() + 3,
        final(instance).room_names()[r@[0]]@ == "general"@,
        final(instance).room_names()[r@[1]]@ == "test"@,
        final(instance).room_names()[r@[2]]@ == "unsafe_unsafe"@,
        final(instance).room_names() == old(instance).room_names().insert(
            r@[0],
            final(instance).room_names()[r@[0]],
        ).insert(r@[1], final(instance).room_names()[r@[1]]).insert(
            r@[2],
            final(instance).room_names()[r@[2]],
        ),
        forall|k: int| 0 <= k < 3 ==> create.ensures((r@[k],), #[trigger] final(instance).rooms()[r@[k]]),
        final(instance).rooms() == old(instance).rooms().insert(
            r@[0],
            final(instance).rooms()[r@[0]],
        ).insert(r@[1], final(instance).rooms()[r@[1]]).insert(
            r@[2],
            final(instance).rooms()[r@[2]],
        ),
        final(instance).next_client() == old(instance).next_client(),
        final(instance).clients() == old(instance).clients(),
        final(instance).usernames() == old(instance).usernames(),
{
    let general = handle_create_room(instance, String::from_str("general"), |id: RoomId| -> (room: R)
            ensures
                create.ensures((id,), room),
            { create(id) });
    let test = handle_create_room(instance, String::from_str("test"), |id: RoomId| -> (room: R)
            ensures
                create.ensures((id,), room),
            { create(id) });
    let other = handle_create_room(instance, String::from_str("unsafe_unsafe"), |id: RoomId| -> (room: R)
            ensures
                create.ensures((id,), room),
            { create(id) });
    let mut ids: Vec<RoomId> = Vec::new();
    ids.push(general);
    ids.push(test);
    ids.push(other);
    ids
}

/// Registers a new connection under the next client identifier; `create`
/// starts the client's tasks given that identifier. Gives the identifier back.
pub fn handle_establish_connection<C, R, F: FnOnce(ClientId) -> C>(
    instance: &mut Instance<C, R>,
    create: F,
) -> (r: ClientId)
    requires
        old(instance).wf(),
        old(instance).next_client() < u64::MAX,
        create.requires((old(instance).next_client(),)),
    ensures
        final(instance).wf(),
        r == old(instance).next_client(),
        !old(instance).clients().contains_key(r),
        final(instance).next_client() == r + 1,
        final(instance).clients().contains_key(r),
        create.ensures((r,), final(instance).clients()[r]),
        final(instance).clients() == old(instance).clients().insert(r, final(instance).clients()[r]),
        final(instance).usernames() == old(instance).usernames(),
        final(instance).next_room() == old(instance).next_room(),
        final(instance).rooms() == old(instance).rooms(),
        final(instance).room_names() == old(instance).room_names(),
{
    let id = instance.next_client_id();
    let client = create(id);
    instance.clients.insert(id, client);
    id
}

/// Forgets the connection of `client`.
pub fn handle_disconnect_client<C, R>(instance: &mut Instance<C, R>, client: ClientId)
    requires
        old(instance).wf(),
    ensures
        final(instance).wf(),
        final(instance).clients() == old(instance).clients().remove(client),
        final(instance).next_client() == old(instance).next_client(),
        final(instance).usernames() == old(instance).usernames(),
        final(instance).next_room() == old(instance).next_room(),
        final(instance).rooms() == old(instance).rooms(),
        final(instance).room_names() == old(instance).room_names(),
{
    let ghost before = *instance;
    instance.clients.remove(&client);
    proof {
        assert forall|id: ClientId| #[trigger] instance.clients().contains_key(id) implies id
            < instance.next_client() by {
            assert(before.clients().contains_key(id));
        }
        assert(instance.rooms().dom() =~= instance.room_names().dom());
    }
}

/// What is known of `client`: nothing when it is not connected, else its
/// username if it gave one.
pub open spec fn peer_info<C, R>(instance: Instance<C, R>, client: ClientId) -> Option<PeerInfo> {
    if instance.clients().contains_key(client) {
        Some(
            PeerInfo {
                username: if instance.usernames().contains_key(client) {
                    Some(instance.usernames()[client])
                } else {
                    None
                },
            },
        )
    } else {
        None
    }
}

/// What is known of `client`.
pub fn handle_query_peer_info<C, R>(instance: &Instance<C, R>, client: ClientId) -> (r: Option<
    PeerInfo,
>)
    ensures
        r == peer_info(*instance, client),
{
    if !instance.clients.contains_key(&client) {
        return None;
    }
    let username = match instance.usernames.get(&client) {
        Some(name) => Some(name.clone()),
        None => None,
    };
    Some(PeerInfo { username })
}

/// The name of the room `room_id`, if there is such a room.
pub fn handle_query_room_info<C, R>(instance: &Instance<C, R>, room_id: RoomId) -> (r: Option<
    RoomInfo,
>)
    ensures
        r == if instance.room_names().contains_key(room_id) {
            Some(RoomInfo { name: instance.room_names()[room_id] })
        } else {
            None
        },
{
    match instance.room_names.get(&room_id) {
        Some(name) => Some(RoomInfo { name: name.clone() }),
        None => None,
    }
}

/// Records the username `client` gave.
pub fn handle_update_client_username<C, R>(
    instance: &mut Instance<C, R>,
    client: ClientId,
    username: String,
)
    requires
        old(instance).wf(),
    ensures
        final(instance).wf(),
        final(instance).usernames() == old(instance).usernames().insert(client, username),
        final(instance).next_client() == old(instance).next_client(),
        final(instance).clients() == old(instance).clients(),
        final(instance).next_room() == old(instance).next_room(),
        final(instance).rooms() == old(instance).rooms(),
        final(instance).room_names() == old(instance).room_names(),
{
    let ghost before = *instance;
    instance.usernames.insert(client, username);
    proof {
        assert forall|id: ClientId| #[trigger] instance.clients().contains_key(id) implies id
            < instance.next_client() by {
            assert(before.clients().contains_key(id));
        }
        assert forall|id: RoomId| #[trigger] instance.rooms().contains_key(id) implies id
            < instance.next_room() by {
            assert(before.rooms().contains_key(id));
        }
        assert(instance.rooms().dom() =~= instance.room_names().dom());
    }
}

/// The rooms, each once, in no particular order.
pub fn handle_query_room_list<C, R>(instance: &Instance<C, R>) -> (r: Vec<(RoomId, &R)>)
    ensures
        r@.len() == instance.rooms().len(),
        forall|i: int|
            0 <= i < r@.len() ==> #[trigger] instance.rooms().contains_key(r@[i].0)
                && instance.rooms()[r@[i].0] == *r@[i].1,
        forall|id: RoomId| #[trigger]
            instance.rooms().contains_key(id) ==> exists|i: int| 0 <= i < r@.len() && r@[i].0 == id,
{
    let mut listing: Vec<(RoomId, &R)> = Vec::new();
    let iter = instance.rooms.iter();
    let ghost walk = iter.remaining();
    proof {
        vstd::std_specs::hash::axiom_spec_hash_map_iter(&instance.rooms);
    }
    for entry in it: iter
        invariant
            walk == it.seq(),
            walk.len() == instance.rooms@.dom().len(),
            forall|i: int|
                0 <= i < walk.len() ==> instance.rooms@.contains_key(*walk[i].0)
                    && instance.rooms@[*walk[i].0] == *walk[i].1,
            listing@.len() == it.index(),
            forall|i: int|
                0 <= i < listing@.len() ==> listing@[i].0 == *walk[i].0 && listing@[i].1
                    == walk[i].1,
    {
        listing.push((*entry.0, entry.1));
    }
    proof {
        assert forall|i: int| 0 <= i < listing@.len() implies #[trigger] instance.rooms().contains_key(
            listing@[i].0,
        ) && instance.rooms()[listing@[i].0] == *listing@[i].1 by {
            assert(instance.rooms@.contains_key(*walk[i].0));
        }
        assert forall|id: RoomId| #[trigger] instance.rooms().contains_key(id) implies exists|i: int|
            0 <= i < listing@.len() && listing@[i].0 == id by {
            assert(walk.contains((&id, &instance.rooms@[id])));
            let i = choose|i: int| 0 <= i < walk.len() && walk[i] == (&id, &instance.rooms@[id]);
            assert(listing@[i].0 == id);
        }
    }
    listing
}

} // verus!

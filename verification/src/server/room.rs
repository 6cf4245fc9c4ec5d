//! A chat room's members, and which of them a room's messages go to.
use vstd::prelude::*;

use std::collections::HashMap;
use vstd::std_specs::iter::IteratorSpec;

use crate::common::packet::ClientId;

verus! {

broadcast use vstd::std_specs::hash::group_hash_axioms;

/// Asks a room to let the client `client` go.
#[derive(Copy, Clone, Debug, Eq, PartialEq, Hash)]
pub struct RemoveClient {
    pub client: ClientId,
}

/// A room, with `C` the handle of a member's task.
#[derive(Debug)]
pub struct Room<C> {
    clients: HashMap<ClientId, C>,
}

/// `ids` names each member of `members` but `except`, each once.
pub open spec fn lists_others<C>(ids: Seq<ClientId>, members: Map<ClientId, C>, except: ClientId) -> bool {
    &&& ids.no_duplicates()
    &&& forall|i: int|
        0 <= i < ids.len() ==> #[trigger] members.contains_key(ids[i]) && ids[i] != except
    &&& forall|id: ClientId| #[trigger]
        members.contains_key(id) && id != except ==> ids.contains(id)
}

impl<C> Room<C> {
    /// The members, by identifier.
    pub closed spec fn clients(&self) -> Map<ClientId, C> {
        self.clients@
    }

    pub fn new() -> (r: Self)
        ensures
            r.clients() == Map::<ClientId, C>::empty(),
    {
        Room { clients: HashMap::new() }
    }

    /// The members other than `client`, in no particular order: those a
    /// message, a connection or a disconnection of `client` is told to.
    pub fn query_peers(&self, client: ClientId) -> (r: Vec<ClientId>)
        ensures
            lists_others(r@, self.clients(), client),
    {
        let mut peers: Vec<ClientId> = Vec::new();
        let iter = self.clients.iter();
        let ghost walk = iter.remaining();
        let ghost keys = walk.map_values(|e: (&ClientId, &C)| *e.0);
        proof {
            vstd::std_specs::hash::axiom_spec_hash_map_iter(&self.clients);
        }
        for entry in it: iter
            invariant
                walk == it.seq(),
                keys == walk.map_values(|e: (&ClientId, &C)| *e.0),
                peers@ == others(keys.take(it.index() as int), client),
        {
            proof {
                let n = it.index() as int;
                assert(keys.take(n + 1).drop_last() =~= keys.take(n));
                assert(keys.take(n + 1).last() == *entry.0);
            }
            if *entry.0 != client {
                peers.push(*entry.0);
            }
        }
        proof {
            assert(keys.take(walk.len() as int) =~= keys);
            assert(keys.no_duplicates()) by {
                assert forall|i: int, j: int| 0 <= i < keys.len() && 0 <= j < keys.len() && i != j implies keys[i]
                    != keys[j] by {
                    if keys[i] == keys[j] {
                        assert(self.clients@.contains_key(*walk[i].0));
                        assert(self.clients@.contains_key(*walk[j].0));
                        assert(walk[i] == walk[j]);
                    }
                }
            }
            lemma_others(keys, client);
            assert forall|id: ClientId| #[trigger]
                self.clients@.contains_key(id) && id != client implies peers@.contains(id) by {
                assert(walk.contains((&id, &self.clients@[id])));
                let j = choose|j: int| 0 <= j < walk.len() && walk[j] == (&id, &self.clients@[id]);
                assert(keys[j] == id);
            }
            assert forall|i: int| 0 <= i < peers@.len() implies #[trigger] self.clients@.contains_key(
                peers@[i],
            ) && peers@[i] != client by {
                assert(peers@.contains(peers@[i]));
                let j = choose|j: int| 0 <= j < keys.len() && keys[j] == peers@[i];
                assert(self.clients@.contains_key(*walk[j].0));
            }
        }
        peers
    }
}

/// The items of `keys` other than `except`, in order.
pub open spec fn others(keys: Seq<ClientId>, except: ClientId) -> Seq<ClientId>
    decreases keys.len(),
{
    if keys.len() == 0 {
        Seq::empty()
    } else if keys.last() != except {
        others(keys.drop_last(), except).push(keys.last())
    } else {
        others(keys.drop_last(), except)
    }
}

/// Leaving out `except` keeps the items distinct, and keeps every other item.
proof fn lemma_others(keys: Seq<ClientId>, except: ClientId)
    requires
        keys.no_duplicates(),
    ensures
        others(keys, except).no_duplicates(),
        forall|id: ClientId| #[trigger]
            others(keys, except).contains(id) <==> keys.contains(id) && id != except,
    decreases keys.len(),
{
    if keys.len() > 0 {
        let init = keys.drop_last();
        assert(init.no_duplicates());
        lemma_others(init, except);
        assert forall|id: ClientId| #[trigger] keys.contains(id) <==> init.contains(id) || id
            == keys.last() by {
            if keys.contains(id) {
                let i = choose|i: int| 0 <= i < keys.len() && keys[i] == id;
                if i < keys.len() - 1 {
                    assert(init[i] == id);
                }
            }
            if init.contains(id) {
                let i = choose|i: int| 0 <= i < init.len() && init[i] == id;
                assert(keys[i] == id);
            }
            if id == keys.last() {
                assert(keys[keys.len() - 1] == id);
            }
        }
        assert(!init.contains(keys.last())) by {
            if init.contains(keys.last()) {
                let i = choose|i: int| 0 <= i < init.len() && init[i] == keys.last();
                assert(keys[i] == keys[keys.len() - 1]);
            }
        }
        let rest = others(init, except);
        if keys.last() != except {
            assert(!rest.contains(keys.last()));
            let all = rest.push(keys.last());
            assert forall|i: int, j: int| 0 <= i < all.len() && 0 <= j < all.len() && i != j implies all[i]
                != all[j] by {
                if j == rest.len() {
                    assert(all[i] == rest[i]);
                } else if i == rest.len() {
                    assert(all[j] == rest[j]);
                }
            }
            assert forall|id: ClientId| #[trigger] rest.push(keys.last()).contains(id) <==> rest.contains(id)
                || id == keys.last() by {
                if rest.push(keys.last()).contains(id) {
                    let i = choose|i: int| 0 <= i < rest.len() + 1 && rest.push(keys.last())[i] == id;
                    if i < rest.len() {
                        assert(rest[i] == id);
                    }
                }
                if rest.contains(id) {
                    let i = choose|i: int| 0 <= i < rest.len() && rest[i] == id;
                    assert(rest.push(keys.last())[i] == id);
                }
                if id == keys.last() {
                    assert(rest.push(keys.last())[rest.len() as int] == id);
                }
            }
        }
    }
}

} // verus!

//! The push channel: clients subscribe, and every event that the bus hands
//! over is mirrored to each of them, to be sent as one text event each.

use crate::events::VinylEvent;
use vstd::prelude::*;

verus! {

/// The subscribed clients, each with the events that wait to be sent to it.
pub struct SseManager {
    /// For each client that ever subscribed, by id: the events that wait for
    /// it, oldest first, or `None` once it has unsubscribed.
    clients: Vec<Option<Vec<VinylEvent>>>,
}

/// What waits for each client after `event` was mirrored: the same as
/// before, and `event` behind it.
pub open spec fn mirrored(clients: Map<usize, Seq<VinylEvent>>, event: VinylEvent) -> Map<
    usize,
    Seq<VinylEvent>,
> {
    Map::new(|c: usize| clients.contains_key(c), |c: usize| clients[c].push(event))
}

impl View for SseManager {
    type V = Map<usize, Seq<VinylEvent>>;

    /// For each subscribed client, the events that wait to be sent to it.
    closed spec fn view(&self) -> Map<usize, Seq<VinylEvent>> {
        Map::new(
            |c: usize| c < self.clients@.len() && self.clients@[c as int] is Some,
            |c: usize| self.clients@[c as int].unwrap()@,
        )
    }
}

impl SseManager {
    /// How many clients ever subscribed. The next one gets this as its id.
    pub closed spec fn issued(&self) -> nat {
        self.clients@.len()
    }

    /// The id of a subscribed client is one that was issued.
    pub proof fn lemma_subscribed_was_issued(&self, client: usize)
        requires
            self@.contains_key(client),
        ensures
            client < self.issued(),
    {
    }

    /// A push channel without clients.
    pub fn new() -> (manager: SseManager)
        ensures
            manager.issued() == 0,
            manager@ == Map::<usize, Seq<VinylEvent>>::empty(),
    {
        let manager = SseManager { clients: Vec::new() };
        proof {
            assert(manager@ =~= Map::<usize, Seq<VinylEvent>>::empty());
        }
        manager
    }

    /// Subscribes a client. Nothing waits for it yet. Returns its id.
    pub fn subscribe(&mut self) -> (client: usize)
        ensures
            client == old(self).issued(),
            !old(self)@.contains_key(client),
            final(self).issued() == old(self).issued() + 1,
            final(self)@ == old(self)@.insert(client, Seq::<VinylEvent>::empty()),
    {
        let client = self.clients.len();
        self.clients.push(Some(Vec::new()));
        proof {
            assert(self@ =~= old(self)@.insert(client, Seq::<VinylEvent>::empty()));
        }
        client
    }

    /// Unsubscribes `client`, and drops what waited for it. Returns whether
    /// it was subscribed.
    pub fn unsubscribe(&mut self, client: usize) -> (subscribed: bool)
        ensures
            subscribed == old(self)@.contains_key(client),
            final(self).issued() == old(self).issued(),
            final(self)@ == old(self)@.remove(client),
    {
        if client >= self.clients.len() {
            proof {
                assert(self@ =~= old(self)@.remove(client));
            }
            return false;
        }
        let subscribed = self.clients[client].is_some();
        self.clients[client] = None;
        proof {
            assert(self@ =~= old(self)@.remove(client));
        }
        subscribed
    }

    /// Mirrors `event` to every subscribed client.
    pub fn handle(&mut self, event: &VinylEvent)
        ensures
            final(self).issued() == old(self).issued(),
            final(self)@ == mirrored(old(self)@, *event),
    {
        let mut c: usize = 0;
        while c < self.clients.len()
            invariant
                c <= self.clients@.len(),
                self.clients@.len() == old(self).clients@.len(),
                forall|k: int|
                    0 <= k < c ==> #[trigger] self.clients@[k] is Some == old(
                        self,
                    ).clients@[k] is Some,
                forall|k: int|
                    0 <= k < c && self.clients@[k] is Some ==> (#[trigger] self.clients@[k]).unwrap()@
                        == old(self).clients@[k].unwrap()@.push(*event),
                forall|k: int|
                    c <= k < self.clients@.len() ==> #[trigger] self.clients@[k] == old(
                        self,
                    ).clients@[k],
            decreases self.clients@.len() - c,
        {
            let mut waiting: Option<Vec<VinylEvent>> = None;
            std::mem::swap(&mut waiting, &mut self.clients[c]);
            match waiting {
                Some(mut events) => {
                    events.push(event.clone());
                    self.clients[c] = Some(events);
                },
                None => {},
            }
            c += 1;
        }
        proof {
            assert(self@ =~= mirrored(old(self)@, *event));
        }
    }

    /// Takes what waits for `client`, oldest first, to be sent to it. `None`
    /// where no such client is subscribed; nothing changes then.
    pub fn take(&mut self, client: usize) -> (events: Option<Vec<VinylEvent>>)
        ensures
            final(self).issued() == old(self).issued(),
            match events {
                Some(events) => {
                    &&& old(self)@.contains_key(client)
                    &&& events@ == old(self)@[client]
                    &&& final(self)@ == old(self)@.insert(client, Seq::<VinylEvent>::empty())
                },
                None => !old(self)@.contains_key(client) && final(self)@ == old(self)@,
            },
    {
        if client >= self.clients.len() {
            return None;
        }
        if self.clients[client].is_none() {
            return None;
        }
        let mut waiting: Option<Vec<VinylEvent>> = Some(Vec::new());
        std::mem::swap(&mut waiting, &mut self.clients[client]);
        proof {
            assert(self@ =~= old(self)@.insert(client, Seq::<VinylEvent>::empty()));
        }
        waiting
    }
}

} // verus!

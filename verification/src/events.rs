//! The facts that the stores publish, and the two ends of the queue that
//! carries them: an `Emitter` on the side of each producer, and the `Channel`
//! that the bus consumes.

use crate::rooms::Room;
use std::collections::VecDeque;
use vstd::prelude::*;

verus! {

/// What happened to a room.
#[derive(Debug, PartialEq, Eq)]
pub enum RoomEvent {
    /// The room was created and registered.
    Created(Room),
}

/// What the playback engine did in a room, given by the room's id.
#[derive(Debug, PartialEq, Eq)]
pub enum AudioEvent {
    /// The track at the head of the room's queue began to play.
    TrackStarted(u64),
    /// The track that was playing came to its end and left the queue.
    TrackEnded(u64),
}

/// What happened to a queue, given by the queue's id.
#[derive(Debug, PartialEq, Eq)]
pub enum QueueEvent {
    /// A track was appended.
    Pushed(usize),
    /// The track at the head was removed.
    Dequeued(usize),
}

/// How the ingestion of a fingerprint ended.
#[derive(Debug, PartialEq, Eq)]
pub enum IngestionEvent {
    /// The fingerprint, and the source location that it resolved to.
    Resolved(String, String),
    /// The fingerprint, and the reason for which its resolution failed.
    Failed(String, String),
}

/// A fact published on the bus.
#[derive(Debug, PartialEq, Eq)]
pub enum VinylEvent {
    Room(RoomEvent),
    Audio(AudioEvent),
    Queue(QueueEvent),
    Ingestion(IngestionEvent),
}

/// Why a handler could not react to an event.
#[derive(Debug, PartialEq, Eq)]
pub enum HandlerError {
    /// An ingestion was reported as resolved without a source location; the
    /// fingerprint is given.
    EmptySource(String),
}

impl Clone for HandlerError {
    fn clone(&self) -> (r: Self)
        ensures
            r == *self,
    {
        match self {
            HandlerError::EmptySource(fingerprint) => HandlerError::EmptySource(fingerprint.clone()),
        }
    }
}

impl Clone for RoomEvent {
    fn clone(&self) -> (r: Self)
        ensures
            r == *self,
    {
        match self {
            RoomEvent::Created(room) => RoomEvent::Created(room.clone()),
        }
    }
}

impl Clone for AudioEvent {
    fn clone(&self) -> (r: Self)
        ensures
            r == *self,
    {
        match self {
            AudioEvent::TrackStarted(room) => AudioEvent::TrackStarted(*room),
            AudioEvent::TrackEnded(room) => AudioEvent::TrackEnded(*room),
        }
    }
}

impl Clone for QueueEvent {
    fn clone(&self) -> (r: Self)
        ensures
            r == *self,
    {
        match self {
            QueueEvent::Pushed(queue) => QueueEvent::Pushed(*queue),
            QueueEvent::Dequeued(queue) => QueueEvent::Dequeued(*queue),
        }
    }
}

impl Clone for IngestionEvent {
    fn clone(&self) -> (r: Self)
        ensures
            r == *self,
    {
        match self {
            IngestionEvent::Resolved(fingerprint, source) => IngestionEvent::Resolved(
                fingerprint.clone(),
                source.clone(),
            ),
            IngestionEvent::Failed(fingerprint, reason) => IngestionEvent::Failed(
                fingerprint.clone(),
                reason.clone(),
            ),
        }
    }
}

impl Clone for VinylEvent {
    fn clone(&self) -> (r: Self)
        ensures
            r == *self,
    {
        match self {
            VinylEvent::Room(event) => VinylEvent::Room(event.clone()),
            VinylEvent::Audio(event) => VinylEvent::Audio(event.clone()),
            VinylEvent::Queue(event) => VinylEvent::Queue(event.clone()),
            VinylEvent::Ingestion(event) => VinylEvent::Ingestion(event.clone()),
        }
    }
}

/// The producing end: the events that one producer has emitted and that the
/// channel has not taken over yet, oldest first.
pub struct Emitter {
    pending: Vec<VinylEvent>,
}

/// The queue of events that await dispatch, oldest first. It has no bound.
pub struct Channel {
    queue: VecDeque<VinylEvent>,
}

impl View for Emitter {
    type V = Seq<VinylEvent>;

    closed spec fn view(&self) -> Seq<VinylEvent> {
        self.pending@
    }
}

impl Emitter {
    /// An emitter that has emitted nothing.
    pub fn new() -> (emitter: Emitter)
        ensures
            emitter@ == Seq::<VinylEvent>::empty(),
    {
        Emitter { pending: Vec::new() }
    }

    /// Appends `event` to what this producer has emitted.
    pub fn emit(&mut self, event: VinylEvent)
        ensures
            final(self)@ == old(self)@.push(event),
    {
        self.pending.push(event);
    }

    /// How many events wait to be taken over.
    pub fn len(&self) -> (n: usize)
        ensures
            n == self@.len(),
    {
        self.pending.len()
    }

    /// Hands out everything that was emitted, oldest first, and keeps
    /// nothing.
    pub fn take(&mut self) -> (events: Vec<VinylEvent>)
        ensures
            events@ == old(self)@,
            final(self)@ == Seq::<VinylEvent>::empty(),
    {
        let mut events: Vec<VinylEvent> = Vec::new();
        std::mem::swap(&mut events, &mut self.pending);
        events
    }
}

impl View for Channel {
    type V = Seq<VinylEvent>;

    closed spec fn view(&self) -> Seq<VinylEvent> {
        self.queue@
    }
}

impl Channel {
    /// A channel with nothing in it.
    pub fn new() -> (channel: Channel)
        ensures
            channel@ == Seq::<VinylEvent>::empty(),
    {
        Channel { queue: VecDeque::new() }
    }

    /// Appends one event.
    pub fn send(&mut self, event: VinylEvent)
        ensures
            final(self)@ == old(self)@.push(event),
    {
        self.queue.push_back(event);
    }

    /// Takes over everything that `emitter` holds, in the order in which it
    /// was emitted, behind what the channel already holds.
    pub fn accept(&mut self, emitter: &mut Emitter)
        ensures
            final(self)@ == old(self)@ + old(emitter)@,
            final(emitter)@ == Seq::<VinylEvent>::empty(),
    {
        let mut taken: Vec<VinylEvent> = Vec::new();
        std::mem::swap(&mut taken, &mut emitter.pending);
        let mut i: usize = 0;
        while i < taken.len()
            invariant
                i <= taken.len(),
                self@ == old(self)@ + taken@.take(i as int),
            decreases taken.len() - i,
        {
            self.queue.push_back(taken[i].clone());
            proof {
                assert(taken@.take(i + 1) =~= taken@.take(i as int).push(taken@[i as int]));
                assert(self@ =~= old(self)@ + taken@.take(i + 1));
            }
            i += 1;
        }
        proof {
            assert(taken@.take(taken@.len() as int) =~= taken@);
        }
    }

    /// Removes and returns the oldest event; `None` where there is none.
    pub fn recv(&mut self) -> (event: Option<VinylEvent>)
        ensures
            match event {
                Some(e) => old(self)@.len() > 0 && e == old(self)@[0] && final(self)@ == old(
                    self,
                )@.drop_first(),
                None => old(self)@.len() == 0 && final(self)@ == old(self)@,
            },
    {
        let event = self.queue.pop_front();
        proof {
            if old(self)@.len() > 0 {
                assert(self@ =~= old(self)@.drop_first());
            }
        }
        event
    }

    /// How many events await dispatch.
    pub fn len(&self) -> (n: usize)
        ensures
            n == self@.len(),
    {
        self.queue.len()
    }
}

} // verus!

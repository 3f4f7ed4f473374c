//! The playback engine: for each room a station that is idle or plays the
//! track at the head of the room's queue, and broadcasts what it plays.

use crate::fanout::{fed, Broadcast};
use crate::events::{AudioEvent, Emitter, QueueEvent, VinylEvent};
use crate::queue::{reaction, QueueStore};
use crate::track::Track;
use vstd::prelude::*;

verus! {

/// What a station does.
#[derive(Debug, Clone, Copy, PartialEq, Eq, Structural)]
pub enum PlaybackState {
    /// Nothing plays: the queue has no playable head.
    Idle,
    /// The track at the head of the queue plays.
    Playing,
}

/// What the end of a track led to.
#[derive(Debug, PartialEq, Eq)]
pub enum Progress {
    /// The station was not playing; nothing happened.
    NotPlaying,
    /// The track left the queue and nothing playable follows: the station is
    /// idle.
    Stopped,
    /// The track left the queue, and the next one plays, from this source.
    Next(String),
}

struct Station {
    room: u64,
    state: PlaybackState,
    broadcast: Broadcast,
}

/// The stations, each found by the id of its room's queue.
pub struct Playback {
    stations: Vec<Station>,
}

/// A station as contracts speak of it.
pub struct StationView {
    /// The id of the room that the station plays for.
    pub room: u64,
    pub state: PlaybackState,
    /// For each attached listener, the bytes broadcast and not yet read.
    pub listeners: Map<usize, Seq<u8>>,
    /// How many listeners were ever attached.
    pub issued: nat,
}

/// The source of the track at the head of `queue`, if it has a head and the
/// head is resolved.
pub open spec fn playable_head(queue: Seq<Track>) -> Option<String> {
    if queue.len() > 0 {
        queue[0].playable()
    } else {
        None
    }
}

/// Stations and queues belong together: there is one station for each queue,
/// and where a station plays, the head of its queue is a resolved track.
pub open spec fn in_tune(stations: Seq<StationView>, queues: Seq<Seq<Track>>) -> bool {
    &&& stations.len() == queues.len()
    &&& forall|s: int|
        0 <= s < stations.len() && (#[trigger] stations[s]).state == PlaybackState::Playing
            ==> playable_head(queues[s]) is Some
}

/// A track appended to a queue disturbs no station: what plays is at the
/// head.
pub proof fn lemma_in_tune_after_push(
    stations: Seq<StationView>,
    queues: Seq<Seq<Track>>,
    slot: int,
    track: Track,
)
    requires
        in_tune(stations, queues),
        0 <= slot < queues.len(),
    ensures
        in_tune(stations, queues.update(slot, queues[slot].push(track))),
{
    let after = queues.update(slot, queues[slot].push(track));
    assert forall|s: int|
        0 <= s < stations.len() && (#[trigger] stations[s]).state
            == PlaybackState::Playing implies playable_head(after[s]) is Some by {
        assert(playable_head(queues[s]) is Some);
    }
}

/// The queue store's reaction to an event disturbs no station: a resolved
/// track stays as it is.
pub proof fn lemma_in_tune_after_reaction(
    stations: Seq<StationView>,
    queues: Seq<Seq<Track>>,
    event: VinylEvent,
)
    requires
        in_tune(stations, queues),
    ensures
        in_tune(stations, reaction(queues, event)),
{
    let after = reaction(queues, event);
    assert forall|s: int|
        0 <= s < stations.len() && (#[trigger] stations[s]).state
            == PlaybackState::Playing implies playable_head(after[s]) is Some by {
        assert(playable_head(queues[s]) is Some);
    }
}

impl Station {
    spec fn view(self) -> StationView {
        StationView {
            room: self.room,
            state: self.state,
            listeners: self.broadcast@,
            issued: self.broadcast.issued(),
        }
    }
}

impl View for Playback {
    type V = Seq<StationView>;

    closed spec fn view(&self) -> Seq<StationView> {
        Seq::new(self.stations@.len(), |s: int| self.stations@[s].view())
    }
}

impl Playback {
    /// Every station's broadcast is well formed.
    pub closed spec fn wf(&self) -> bool {
        forall|s: int| 0 <= s < self.stations@.len() ==> (#[trigger] self.stations@[s]).broadcast.wf()
    }

    /// The id of an attached listener is one that its station issued.
    pub proof fn lemma_attached_was_issued(&self, slot: int, listener: usize)
        requires
            0 <= slot < self@.len(),
            self@[slot].listeners.contains_key(listener),
        ensures
            listener < self@[slot].issued,
    {
        self.stations@[slot].broadcast.lemma_attached_was_issued(listener);
    }

    /// An engine without stations.
    pub fn new() -> (engine: Playback)
        ensures
            engine.wf(),
            engine@ == Seq::<StationView>::empty(),
    {
        let engine = Playback { stations: Vec::new() };
        proof {
            assert(engine@ =~= Seq::<StationView>::empty());
        }
        engine
    }

    /// How many stations there are.
    pub fn count(&self) -> (n: usize)
        ensures
            n == self@.len(),
    {
        self.stations.len()
    }

    /// Sets up the station of `room`: idle, with no listener. Returns its
    /// slot.
    pub fn open(&mut self, room: u64) -> (slot: usize)
        requires
            old(self).wf(),
        ensures
            final(self).wf(),
            slot == old(self)@.len(),
            final(self)@ == old(self)@.push(
                StationView {
                    room,
                    state: PlaybackState::Idle,
                    listeners: Map::empty(),
                    issued: 0,
                },
            ),
    {
        let slot = self.stations.len();
        self.stations.push(Station { room, state: PlaybackState::Idle, broadcast: Broadcast::new() });
        proof {
            assert(self@ =~= old(self)@.push(
                StationView {
                    room,
                    state: PlaybackState::Idle,
                    listeners: Map::empty(),
                    issued: 0,
                },
            ));
        }
        slot
    }

    /// What the station at `slot` does; `None` where there is no such
    /// station.
    pub fn state(&self, slot: usize) -> (state: Option<PlaybackState>)
        ensures
            state == if slot < self@.len() {
                Some(self@[slot as int].state)
            } else {
                None
            },
    {
        if slot < self.stations.len() {
            Some(self.stations[slot].state)
        } else {
            None
        }
    }

    /// Idle to playing: where the station at `slot` is idle and the head of
    /// its queue is resolved, the station begins to play it, publishes that,
    /// and the source to decode is returned. In every other case nothing
    /// changes and `None` is returned.
    pub fn start(&mut self, queues: &QueueStore, emitter: &mut Emitter, slot: usize) -> (source:
        Option<String>)
        requires
            old(self).wf(),
        ensures
            final(self).wf(),
            match source {
                Some(source) => {
                    &&& slot < old(self)@.len()
                    &&& slot < queues@.len()
                    &&& old(self)@[slot as int].state == PlaybackState::Idle
                    &&& playable_head(queues@[slot as int]) == Some(source)
                    &&& final(self)@ == old(self)@.update(
                        slot as int,
                        StationView { state: PlaybackState::Playing, ..old(self)@[slot as int] },
                    )
                    &&& final(emitter)@ == old(emitter)@.push(
                        VinylEvent::Audio(AudioEvent::TrackStarted(old(self)@[slot as int].room)),
                    )
                },
                None => {
                    &&& !(slot < old(self)@.len() && slot < queues@.len() && old(
                        self,
                    )@[slot as int].state == PlaybackState::Idle && playable_head(
                        queues@[slot as int],
                    ) is Some)
                    &&& final(self)@ == old(self)@
                    &&& final(emitter)@ == old(emitter)@
                },
            },
            in_tune(old(self)@, queues@) ==> in_tune(final(self)@, queues@),
    {
        if slot >= self.stations.len() {
            return None;
        }
        if self.stations[slot].state != PlaybackState::Idle {
            return None;
        }
        let source = match queues.head(slot) {
            Some(track) => match track.source() {
                Some(source) => source.clone(),
                None => {
                    return None;
                },
            },
            None => {
                return None;
            },
        };
        self.stations[slot].state = PlaybackState::Playing;
        emitter.emit(VinylEvent::Audio(AudioEvent::TrackStarted(self.stations[slot].room)));
        proof {
            assert(self@ =~= old(self)@.update(
                slot as int,
                StationView { state: PlaybackState::Playing, ..old(self)@[slot as int] },
            ));
        }
        Some(source)
    }

    /// The track that the station at `slot` plays has come to its end. It
    /// leaves the queue, and that is published, first by the queue store,
    /// then by the engine. Where the next head of the queue is resolved, the
    /// station plays on with it and publishes that; else it falls idle.
    /// Where the station was not playing, nothing happens.
    pub fn finish(&mut self, queues: &mut QueueStore, emitter: &mut Emitter, slot: usize) -> (progress:
        Progress)
        requires
            old(self).wf(),
            in_tune(old(self)@, old(queues)@),
        ensures
            final(self).wf(),
            in_tune(final(self)@, final(queues)@),
            old(queues).wf() ==> final(queues).wf(),
            progress is NotPlaying <==> !(slot < old(self)@.len() && old(self)@[slot as int].state
                == PlaybackState::Playing),
            progress is NotPlaying ==> {
                &&& final(self)@ == old(self)@
                &&& final(queues)@ == old(queues)@
                &&& final(emitter)@ == old(emitter)@
            },
            !(progress is NotPlaying) ==> {
                let rest = old(queues)@[slot as int].drop_first();
                let room = old(self)@[slot as int].room;
                let ended = old(emitter)@.push(VinylEvent::Queue(QueueEvent::Dequeued(slot))).push(
                    VinylEvent::Audio(AudioEvent::TrackEnded(room)),
                );
                &&& final(queues)@ == old(queues)@.update(slot as int, rest)
                &&& match progress {
                    Progress::Next(source) => {
                        &&& playable_head(rest) == Some(source)
                        &&& final(self)@ == old(self)@
                        &&& final(emitter)@ == ended.push(
                            VinylEvent::Audio(AudioEvent::TrackStarted(room)),
                        )
                    },
                    _ => {
                        &&& playable_head(rest) is None
                        &&& final(self)@ == old(self)@.update(
                            slot as int,
                            StationView { state: PlaybackState::Idle, ..old(self)@[slot as int] },
                        )
                        &&& final(emitter)@ == ended
                    },
                }
            },
    {
        if slot >= self.stations.len() {
            return Progress::NotPlaying;
        }
        if self.stations[slot].state != PlaybackState::Playing {
            return Progress::NotPlaying;
        }
        let room = self.stations[slot].room;
        proof {
            assert(self@[slot as int].state == PlaybackState::Playing);
        }
        let _ended = queues.dequeue(emitter, slot);
        emitter.emit(VinylEvent::Audio(AudioEvent::TrackEnded(room)));
        let next: Option<String> = match queues.head(slot) {
            Some(track) => match track.source() {
                Some(source) => Some(source.clone()),
                None => None,
            },
            None => None,
        };
        match next {
            Some(source) => {
                emitter.emit(VinylEvent::Audio(AudioEvent::TrackStarted(room)));
                proof {
                    assert(self@ =~= old(self)@);
                    assert forall|s: int|
                        0 <= s < self@.len() && (#[trigger] self@[s]).state
                            == PlaybackState::Playing implies playable_head(queues@[s]) is Some by {
                        if s != slot {
                            assert(old(self)@[s].state == PlaybackState::Playing);
                        }
                    }
                }
                Progress::Next(source)
            },
            None => {
                self.stations[slot].state = PlaybackState::Idle;
                proof {
                    assert(self@ =~= old(self)@.update(
                        slot as int,
                        StationView { state: PlaybackState::Idle, ..old(self)@[slot as int] },
                    ));
                    assert forall|s: int|
                        0 <= s < self@.len() && (#[trigger] self@[s]).state
                            == PlaybackState::Playing implies playable_head(queues@[s]) is Some by {
                        if s != slot {
                            assert(old(self)@[s].state == PlaybackState::Playing);
                        }
                    }
                }
                Progress::Stopped
            },
        }
    }

    /// Broadcasts `bytes`, decoded from the track that plays, to the
    /// listeners of the station at `slot`. Returns whether the station
    /// plays; where it does not, nothing is written.
    pub fn write(&mut self, slot: usize, bytes: &Vec<u8>) -> (playing: bool)
        requires
            old(self).wf(),
        ensures
            final(self).wf(),
            playing == (slot < old(self)@.len() && old(self)@[slot as int].state
                == PlaybackState::Playing),
            playing ==> final(self)@ == old(self)@.update(
                slot as int,
                StationView {
                    listeners: fed(old(self)@[slot as int].listeners, bytes@),
                    ..old(self)@[slot as int]
                },
            ),
            !playing ==> final(self)@ == old(self)@,
    {
        if slot >= self.stations.len() {
            return false;
        }
        if self.stations[slot].state != PlaybackState::Playing {
            return false;
        }
        self.stations[slot].broadcast.write(bytes);
        proof {
            assert(self@ =~= old(self)@.update(
                slot as int,
                StationView {
                    listeners: fed(old(self)@[slot as int].listeners, bytes@),
                    ..old(self)@[slot as int]
                },
            ));
        }
        true
    }

    /// Attaches a listener to the station at `slot`, at the live position.
    /// Returns the listener's id; `None` where there is no such station.
    pub fn connect(&mut self, slot: usize) -> (listener: Option<usize>)
        requires
            old(self).wf(),
        ensures
            final(self).wf(),
            match listener {
                Some(listener) => {
                    &&& slot < old(self)@.len()
                    &&& listener == old(self)@[slot as int].issued
                    &&& !old(self)@[slot as int].listeners.contains_key(listener)
                    &&& final(self)@ == old(self)@.update(
                        slot as int,
                        StationView {
                            listeners: old(self)@[slot as int].listeners.insert(
                                listener,
                                Seq::<u8>::empty(),
                            ),
                            issued: old(self)@[slot as int].issued + 1,
                            ..old(self)@[slot as int]
                        },
                    )
                },
                None => slot >= old(self)@.len() && final(self)@ == old(self)@,
            },
    {
        if slot >= self.stations.len() {
            return None;
        }
        let listener = self.stations[slot].broadcast.attach();
        proof {
            assert(self@ =~= old(self)@.update(
                slot as int,
                StationView {
                    listeners: old(self)@[slot as int].listeners.insert(
                        listener,
                        Seq::<u8>::empty(),
                    ),
                    issued: old(self)@[slot as int].issued + 1,
                    ..old(self)@[slot as int]
                },
            ));
        }
        Some(listener)
    }

    /// Detaches `listener` from the station at `slot`. Returns whether it
    /// was attached there. What the station does, and what its other
    /// listeners have before them, stays as it is.
    pub fn disconnect(&mut self, slot: usize, listener: usize) -> (attached: bool)
        requires
            old(self).wf(),
        ensures
            final(self).wf(),
            attached == (slot < old(self)@.len() && old(self)@[slot as int].listeners.contains_key(
                listener,
            )),
            slot < old(self)@.len() ==> final(self)@ == old(self)@.update(
                slot as int,
                StationView {
                    listeners: old(self)@[slot as int].listeners.remove(listener),
                    ..old(self)@[slot as int]
                },
            ),
            slot >= old(self)@.len() ==> final(self)@ == old(self)@,
    {
        if slot >= self.stations.len() {
            return false;
        }
        let attached = self.stations[slot].broadcast.detach(listener);
        proof {
            assert(self@ =~= old(self)@.update(
                slot as int,
                StationView {
                    listeners: old(self)@[slot as int].listeners.remove(listener),
                    ..old(self)@[slot as int]
                },
            ));
        }
        attached
    }

    /// Hands `listener` what the station at `slot` has broadcast since the
    /// listener last read. `None` where no such listener is attached there.
    pub fn read(&mut self, slot: usize, listener: usize) -> (bytes: Option<Vec<u8>>)
        requires
            old(self).wf(),
        ensures
            final(self).wf(),
            match bytes {
                Some(bytes) => {
                    &&& slot < old(self)@.len()
                    &&& old(self)@[slot as int].listeners.contains_key(listener)
                    &&& bytes@ == old(self)@[slot as int].listeners[listener]
                    &&& final(self)@ == old(self)@.update(
                        slot as int,
                        StationView {
                            listeners: old(self)@[slot as int].listeners.insert(
                                listener,
                                Seq::<u8>::empty(),
                            ),
                            ..old(self)@[slot as int]
                        },
                    )
                },
                None => {
                    &&& !(slot < old(self)@.len() && old(self)@[slot as int].listeners.contains_key(
                        listener,
                    ))
                    &&& final(self)@ == old(self)@
                },
            },
    {
        if slot >= self.stations.len() {
            return None;
        }
        let bytes = self.stations[slot].broadcast.read(listener);
        proof {
            if bytes is Some {
                assert(self@ =~= old(self)@.update(
                    slot as int,
                    StationView {
                        listeners: old(self)@[slot as int].listeners.insert(
                            listener,
                            Seq::<u8>::empty(),
                        ),
                        ..old(self)@[slot as int]
                    },
                ));
            } else {
                assert(self@ =~= old(self)@);
            }
        }
        bytes
    }
}

} // verus!

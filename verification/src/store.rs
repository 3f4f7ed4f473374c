//! The composition root: the room store, the queue store, the ingestion
//! pipeline and the playback engine, with the emitter through which all of
//! them publish.

use crate::audio::{
    in_tune, lemma_in_tune_after_push, lemma_in_tune_after_reaction, playable_head, Playback,
    PlaybackState, Progress, StationView,
};
use crate::fanout::fed;
use crate::events::{AudioEvent, Emitter, HandlerError, QueueEvent, RoomEvent, VinylEvent};
use crate::ingest::{is_failure, is_resolution, settled, submitted, Ingestion, Job, Submission};
use crate::input::{described, fingerprint_of, Input};
use crate::queue::{reaction, refused, QueueStore, SerializedQueue};
use crate::rooms::{
    empty_queues, fresh_station, fresh_stations, has_id, lemma_index_of, next_free, offence,
    offends, slots_extended, Listener, RestoreError, Room, RoomStore, RoomsView,
};
use crate::track::{Track, TrackStatus};
use crate::util::{ApiError, DatabaseError, Resource};
use vstd::prelude::*;

verus! {

/// All state of the server that outlives a request.
pub struct Store {
    pub room_store: RoomStore,
    pub queue_store: QueueStore,
    pub ingestion: Ingestion,
    pub playback: Playback,
    /// What the stores have published and the bus has not taken over yet.
    pub emitter: Emitter,
}

/// The store as contracts speak of it.
pub struct StoreView {
    pub rooms: RoomsView,
    /// The queues, by queue id.
    pub queues: Seq<Seq<Track>>,
    /// What the ingestion pipeline knows, by fingerprint.
    pub jobs: Map<Seq<char>, Job>,
    /// The stations, by queue id.
    pub stations: Seq<StationView>,
    /// What was published and not taken over yet, oldest first.
    pub emitted: Seq<VinylEvent>,
}

impl View for Store {
    type V = StoreView;

    open spec fn view(&self) -> StoreView {
        StoreView {
            rooms: self.room_store@,
            queues: self.queue_store@,
            jobs: self.ingestion@,
            stations: self.playback@,
            emitted: self.emitter@,
        }
    }
}

impl Store {
    /// Every part is well formed, there are as many queues and stations as
    /// rooms, every room has a queue and a station of its own, and where a
    /// station plays, a resolved track is at the head of its queue.
    pub open spec fn wf(&self) -> bool {
        &&& self.room_store@.wf()
        &&& self.room_store@.rooms.len() == self.queue_store@.len()
        &&& self.room_store@.linked(self.queue_store@.len())
        &&& self.queue_store.wf()
        &&& self.ingestion.wf()
        &&& self.playback.wf()
        &&& in_tune(self.playback@, self.queue_store@)
    }

    /// A store without rooms that publishes through `emitter`.
    pub fn new(emitter: Emitter) -> (store: Store)
        ensures
            store.wf(),
            store@ == (StoreView {
                rooms: RoomsView { rooms: Seq::empty(), slots: Seq::empty(), next_id: 0 },
                queues: Seq::empty(),
                jobs: Map::empty(),
                stations: Seq::empty(),
                emitted: emitter@,
            }),
    {
        Store {
            room_store: RoomStore::new(),
            queue_store: QueueStore::new(),
            ingestion: Ingestion::new(),
            playback: Playback::new(),
            emitter,
        }
    }

    /// Restores the rooms that were persisted, in the order given, each with
    /// an empty queue and an idle station, behind the rooms that the store
    /// holds. Nothing is published. Where one of them cannot be restored,
    /// none is, and the first such is reported.
    pub fn init(&mut self, persisted: &Vec<Room>) -> (restored: Result<(), RestoreError>)
        requires
            old(self).wf(),
        ensures
            final(self).wf(),
            final(self)@.jobs == old(self)@.jobs,
            final(self)@.emitted == old(self)@.emitted,
            match restored {
                Ok(()) => {
                    let all = old(self)@.rooms.rooms + persisted@;
                    &&& forall|i: int| 0 <= i < all.len() ==> !offends(all, i)
                    &&& final(self)@.rooms.rooms == all
                    &&& slots_extended(
                        final(self)@.rooms.slots,
                        old(self)@.rooms.slots,
                        old(self)@.queues.len(),
                        persisted@.len(),
                    )
                    &&& final(self)@.rooms.next_id == if next_free(persisted@) > old(
                        self,
                    )@.rooms.next_id {
                        next_free(persisted@)
                    } else {
                        old(self)@.rooms.next_id as nat
                    }
                    &&& final(self)@.queues == old(self)@.queues + empty_queues(persisted@.len())
                    &&& final(self)@.stations == old(self)@.stations + fresh_stations(persisted@)
                },
                Err(e) => {
                    let all = old(self)@.rooms.rooms + persisted@;
                    &&& final(self)@ == old(self)@
                    &&& exists|i: int|
                        {
                            &&& old(self)@.rooms.rooms.len() <= i < all.len()
                            &&& #[trigger] offends(all, i)
                            &&& e == offence(all[i])
                            &&& forall|k: int| 0 <= k < i ==> !offends(all, k)
                        }
                },
            },
    {
        let restored = self.room_store.init(&mut self.queue_store, &mut self.playback, persisted);
        proof {
            if let Err(e) = restored {
                let all = old(self)@.rooms.rooms + persisted@;
                assert(exists|i: int|
                    {
                        &&& old(self)@.rooms.rooms.len() <= i < all.len()
                        &&& #[trigger] offends(all, i)
                        &&& e == offence(all[i])
                        &&& forall|k: int| 0 <= k < i ==> !offends(all, k)
                    });
            }
        }
        restored
    }

    /// Creates a room for `owner`, given how persisting its draft ended.
    /// Where that succeeded, the room is registered behind all others under
    /// the next id, with an empty queue and an idle station of its own, and
    /// its creation is published. Where it failed, or no id is left, nothing
    /// changes.
    pub fn create_room(
        &mut self,
        owner: String,
        name: String,
        persisted: Result<(), DatabaseError>,
    ) -> (created: Result<Room, ApiError>)
        requires
            old(self).wf(),
        ensures
            final(self).wf(),
            match created {
                Ok(room) => {
                    &&& persisted is Ok
                    &&& old(self)@.rooms.next_id < u64::MAX
                    &&& room == (Room { id: old(self)@.rooms.next_id, name, owner })
                    &&& final(self)@.rooms.rooms == old(self)@.rooms.rooms.push(room)
                    &&& slots_extended(
                        final(self)@.rooms.slots,
                        old(self)@.rooms.slots,
                        old(self)@.queues.len(),
                        1,
                    )
                    &&& final(self)@.rooms.next_id == old(self)@.rooms.next_id + 1
                    &&& final(self)@.queues == old(self)@.queues.push(Seq::<Track>::empty())
                    &&& final(self)@.stations == old(self)@.stations.push(fresh_station(room.id))
                    &&& final(self)@.jobs == old(self)@.jobs
                    &&& final(self)@.emitted == old(self)@.emitted.push(
                        VinylEvent::Room(RoomEvent::Created(room)),
                    )
                },
                Err(e) => {
                    &&& final(self)@ == old(self)@
                    &&& if old(self)@.rooms.next_id == u64::MAX {
                        e == ApiError::Exhausted
                    } else {
                        persisted is Err && e == ApiError::Database(persisted->Err_0)
                    }
                },
            },
    {
        self.room_store.create_room(
            &mut self.queue_store,
            &mut self.playback,
            &mut self.emitter,
            owner,
            name,
            persisted,
        )
    }

    /// Queues `input` in the room with the id `room` as a pending track, at
    /// once, and hands it to the ingestion pipeline. Fails where there is no
    /// such room; nothing changes then. The user who submits is not
    /// recorded.
    pub fn add_input(&mut self, user: &String, room: u64, input: Input) -> (added: Result<
        Submission,
        ApiError,
    >)
        requires
            old(self).wf(),
        ensures
            final(self).wf(),
            final(self)@.rooms == old(self)@.rooms,
            final(self)@.stations == old(self)@.stations,
            match added {
                Ok(submission) => {
                    let slot = old(self)@.rooms.slot_of(room);
                    let pushed = old(self)@.emitted.push(VinylEvent::Queue(QueueEvent::Pushed(slot)));
                    &&& has_id(old(self)@.rooms.rooms, room)
                    &&& final(self)@.queues == old(self)@.queues.update(
                        slot as int,
                        old(self)@.queues[slot as int].push(
                            Track { input, status: TrackStatus::Pending },
                        ),
                    )
                    &&& final(self)@.jobs == submitted(old(self)@.jobs, fingerprint_of(input@))
                    &&& match submission {
                        Submission::Cached(source) => {
                            &&& old(self)@.jobs.contains_key(fingerprint_of(input@))
                            &&& old(self)@.jobs[fingerprint_of(input@)] == Job::Cached(source@)
                            &&& final(self)@.emitted.len() == pushed.len() + 1
                            &&& final(self)@.emitted.drop_last() == pushed
                            &&& is_resolution(final(self)@.emitted.last(), fingerprint_of(input@), source@)
                        },
                        Submission::Joined => {
                            &&& old(self)@.jobs.contains_key(fingerprint_of(input@))
                            &&& old(self)@.jobs[fingerprint_of(input@)] == Job::Resolving
                            &&& final(self)@.emitted == pushed
                        },
                        Submission::Started => {
                            &&& !old(self)@.jobs.contains_key(fingerprint_of(input@))
                            &&& final(self)@.emitted == pushed
                        },
                    }
                },
                Err(e) => {
                    &&& !has_id(old(self)@.rooms.rooms, room)
                    &&& e == ApiError::NotFound(Resource::Room)
                    &&& final(self)@ == old(self)@
                },
            },
    {
        let added = self.room_store.add_input(
            &mut self.queue_store,
            &mut self.ingestion,
            &mut self.emitter,
            user,
            room,
            input,
        );
        proof {
            if added is Ok {
                let slot = old(self)@.rooms.slot_of(room);
                lemma_index_of(old(self)@.rooms, old(self)@.rooms.index_of(room));
                lemma_in_tune_after_push(
                    old(self)@.stations,
                    old(self)@.queues,
                    slot as int,
                    Track { input, status: TrackStatus::Pending },
                );
            }
        }
        added
    }

    /// The queue of the room with the id `room`, as an API response shows
    /// it. Fails where there is no such room.
    pub fn queue(&self, room: u64) -> (listing: Result<SerializedQueue, ApiError>)
        requires
            self.wf(),
        ensures
            match listing {
                Ok(listing) => {
                    let slot = self@.rooms.slot_of(room);
                    &&& has_id(self@.rooms.rooms, room)
                    &&& listing.id == slot
                    &&& listing.tracks@.len() == self@.queues[slot as int].len()
                    &&& forall|i: int|
                        0 <= i < listing.tracks@.len() ==> {
                            let track = self@.queues[slot as int][i];
                            &&& (#[trigger] listing.tracks@[i]).name@ == described(track.input@)
                            &&& listing.tracks@[i].resolution == track.status.resolution()
                        }
                },
                Err(e) => !has_id(self@.rooms.rooms, room) && e == ApiError::NotFound(
                    Resource::Room,
                ),
            },
    {
        let slot = match self.room_store.queue_of(room) {
            Ok(slot) => slot,
            Err(e) => {
                return Err(e);
            },
        };
        proof {
            lemma_index_of(self@.rooms, self@.rooms.index_of(room));
        }
        self.queue_store.serialized(slot)
    }

    /// Attaches a listener for `user` to the broadcast of the room with the
    /// id `room`, at the live position. Fails where there is no such room;
    /// nothing changes then.
    pub fn connect(&mut self, user: String, room: u64) -> (listener: Result<Listener, ApiError>)
        requires
            old(self).wf(),
        ensures
            final(self).wf(),
            match listener {
                Ok(listener) => {
                    let slot = old(self)@.rooms.slot_of(room);
                    let station = old(self)@.stations[slot as int];
                    &&& has_id(old(self)@.rooms.rooms, room)
                    &&& listener.room == room
                    &&& listener.slot == slot
                    &&& listener.id == station.issued
                    &&& listener.user == user
                    &&& !station.listeners.contains_key(listener.id)
                    &&& final(self)@ == (StoreView {
                        stations: old(self)@.stations.update(
                            slot as int,
                            StationView {
                                listeners: station.listeners.insert(listener.id, Seq::<u8>::empty()),
                                issued: station.issued + 1,
                                ..station
                            },
                        ),
                        ..old(self)@
                    })
                },
                Err(e) => {
                    &&& !has_id(old(self)@.rooms.rooms, room)
                    &&& e == ApiError::NotFound(Resource::Room)
                    &&& final(self)@ == old(self)@
                },
            },
    {
        self.room_store.connect(&mut self.playback, user, room)
    }

    /// Detaches `listener`. Returns whether it was attached. Playback goes
    /// on as before, the queues stay as they are, and so does what every
    /// other listener has before it.
    pub fn disconnect(&mut self, listener: &Listener) -> (attached: bool)
        requires
            old(self).wf(),
        ensures
            final(self).wf(),
            attached == (listener.slot < old(self)@.stations.len() && old(
                self,
            )@.stations[listener.slot as int].listeners.contains_key(listener.id)),
            listener.slot < old(self)@.stations.len() ==> final(self)@ == (StoreView {
                stations: old(self)@.stations.update(
                    listener.slot as int,
                    StationView {
                        listeners: old(self)@.stations[listener.slot as int].listeners.remove(
                            listener.id,
                        ),
                        ..old(self)@.stations[listener.slot as int]
                    },
                ),
                ..old(self)@
            }),
            listener.slot >= old(self)@.stations.len() ==> final(self)@ == old(self)@,
    {
        self.playback.disconnect(listener.slot, listener.id)
    }

    /// Hands `listener` what its room has broadcast since it last read, or
    /// since it was attached. `None` where it is not attached.
    pub fn read(&mut self, listener: &Listener) -> (bytes: Option<Vec<u8>>)
        requires
            old(self).wf(),
        ensures
            final(self).wf(),
            match bytes {
                Some(bytes) => {
                    let station = old(self)@.stations[listener.slot as int];
                    &&& listener.slot < old(self)@.stations.len()
                    &&& station.listeners.contains_key(listener.id)
                    &&& bytes@ == station.listeners[listener.id]
                    &&& final(self)@ == (StoreView {
                        stations: old(self)@.stations.update(
                            listener.slot as int,
                            StationView {
                                listeners: station.listeners.insert(
                                    listener.id,
                                    Seq::<u8>::empty(),
                                ),
                                ..station
                            },
                        ),
                        ..old(self)@
                    })
                },
                None => {
                    &&& !(listener.slot < old(self)@.stations.len() && old(
                        self,
                    )@.stations[listener.slot as int].listeners.contains_key(listener.id))
                    &&& final(self)@ == old(self)@
                },
            },
    {
        self.playback.read(listener.slot, listener.id)
    }

    /// Takes the outcome of the resolution of `fingerprint` into account and
    /// publishes it. Returns whether such a resolution was under way; where
    /// none was, nothing changes and nothing is published. A source that is
    /// not empty is cached; a failure, and an empty source, leave nothing
    /// behind.
    pub fn complete(&mut self, fingerprint: &String, outcome: Result<String, String>) -> (expected:
        bool)
        requires
            old(self).wf(),
        ensures
            final(self).wf(),
            final(self)@.rooms == old(self)@.rooms,
            final(self)@.queues == old(self)@.queues,
            final(self)@.stations == old(self)@.stations,
            expected == (old(self)@.jobs.contains_key(fingerprint@) && old(self)@.jobs[fingerprint@]
                == Job::Resolving),
            !expected ==> final(self)@ == old(self)@,
            expected ==> {
                &&& final(self)@.emitted.len() == old(self)@.emitted.len() + 1
                &&& final(self)@.emitted.drop_last() == old(self)@.emitted
                &&& match settled(outcome) {
                    Ok(source) => {
                        &&& final(self)@.jobs == old(self)@.jobs.insert(
                            fingerprint@,
                            Job::Cached(source),
                        )
                        &&& is_resolution(final(self)@.emitted.last(), fingerprint@, source)
                    },
                    Err(reason) => {
                        &&& final(self)@.jobs == old(self)@.jobs.remove(fingerprint@)
                        &&& is_failure(final(self)@.emitted.last(), fingerprint@, reason)
                    },
                }
            },
    {
        self.ingestion.complete(&mut self.emitter, fingerprint, outcome)
    }

    /// The queue store's reaction to an event from the bus: the outcome of
    /// an ingestion is applied to the tracks that waited for it. A
    /// resolution without a source location is refused and changes nothing.
    pub fn handle(&mut self, event: &VinylEvent) -> (outcome: Result<(), HandlerError>)
        requires
            old(self).wf(),
        ensures
            final(self).wf(),
            final(self)@ == (StoreView { queues: reaction(old(self)@.queues, *event), ..old(self)@ }),
            outcome is Err <==> refused(*event),
    {
        proof {
            lemma_in_tune_after_reaction(old(self)@.stations, old(self)@.queues, *event);
        }
        self.queue_store.handle(event)
    }

    /// Idle to playing: where the station of the room with the id `room` is
    /// idle and the head of the room's queue is resolved, the station begins
    /// to play it, publishes that, and the source to decode is returned. In
    /// every other case nothing changes; `Ok(None)` where there is such a
    /// room.
    pub fn start(&mut self, room: u64) -> (source: Result<Option<String>, ApiError>)
        requires
            old(self).wf(),
        ensures
            final(self).wf(),
            match source {
                Ok(Some(source)) => {
                    let slot = old(self)@.rooms.slot_of(room);
                    &&& has_id(old(self)@.rooms.rooms, room)
                    &&& old(self)@.stations[slot as int].state == PlaybackState::Idle
                    &&& playable_head(old(self)@.queues[slot as int]) == Some(source)
                    &&& final(self)@ == (StoreView {
                        stations: old(self)@.stations.update(
                            slot as int,
                            StationView {
                                state: PlaybackState::Playing,
                                ..old(self)@.stations[slot as int]
                            },
                        ),
                        emitted: old(self)@.emitted.push(
                            VinylEvent::Audio(
                                AudioEvent::TrackStarted(old(self)@.stations[slot as int].room),
                            ),
                        ),
                        ..old(self)@
                    })
                },
                Ok(None) => {
                    let slot = old(self)@.rooms.slot_of(room);
                    &&& has_id(old(self)@.rooms.rooms, room)
                    &&& !(old(self)@.stations[slot as int].state == PlaybackState::Idle
                        && playable_head(old(self)@.queues[slot as int]) is Some)
                    &&& final(self)@ == old(self)@
                },
                Err(e) => {
                    &&& !has_id(old(self)@.rooms.rooms, room)
                    &&& e == ApiError::NotFound(Resource::Room)
                    &&& final(self)@ == old(self)@
                },
            },
    {
        let slot = match self.room_store.queue_of(room) {
            Ok(slot) => slot,
            Err(e) => {
                return Err(e);
            },
        };
        proof {
            lemma_index_of(self@.rooms, self@.rooms.index_of(room));
        }
        Ok(self.playback.start(&self.queue_store, &mut self.emitter, slot))
    }

    /// The track that plays in the room with the id `room` has come to its
    /// end: it leaves the queue, which the queue store and then the engine
    /// publish. Where the next head of the queue is resolved, the station
    /// plays on with it and publishes that; else it falls idle. Where the
    /// station was not playing, nothing happens.
    pub fn finish(&mut self, room: u64) -> (progress: Result<Progress, ApiError>)
        requires
            old(self).wf(),
        ensures
            final(self).wf(),
            final(self)@.rooms == old(self)@.rooms,
            final(self)@.jobs == old(self)@.jobs,
            match progress {
                Err(e) => {
                    &&& !has_id(old(self)@.rooms.rooms, room)
                    &&& e == ApiError::NotFound(Resource::Room)
                    &&& final(self)@ == old(self)@
                },
                Ok(Progress::NotPlaying) => {
                    &&& has_id(old(self)@.rooms.rooms, room)
                    &&& old(self)@.stations[old(self)@.rooms.slot_of(room) as int].state
                        != PlaybackState::Playing
                    &&& final(self)@ == old(self)@
                },
                Ok(progress) => {
                    let slot = old(self)@.rooms.slot_of(room);
                    let station = old(self)@.stations[slot as int];
                    let rest = old(self)@.queues[slot as int].drop_first();
                    let ended = old(self)@.emitted.push(
                        VinylEvent::Queue(QueueEvent::Dequeued(slot)),
                    ).push(VinylEvent::Audio(AudioEvent::TrackEnded(station.room)));
                    &&& has_id(old(self)@.rooms.rooms, room)
                    &&& station.state == PlaybackState::Playing
                    &&& final(self)@.queues == old(self)@.queues.update(slot as int, rest)
                    &&& match progress {
                        Progress::Next(source) => {
                            &&& playable_head(rest) == Some(source)
                            &&& final(self)@.stations == old(self)@.stations
                            &&& final(self)@.emitted == ended.push(
                                VinylEvent::Audio(AudioEvent::TrackStarted(station.room)),
                            )
                        },
                        _ => {
                            &&& playable_head(rest) is None
                            &&& final(self)@.stations == old(self)@.stations.update(
                                slot as int,
                                StationView { state: PlaybackState::Idle, ..station },
                            )
                            &&& final(self)@.emitted == ended
                        },
                    }
                },
            },
    {
        let slot = match self.room_store.queue_of(room) {
            Ok(slot) => slot,
            Err(e) => {
                return Err(e);
            },
        };
        proof {
            lemma_index_of(self@.rooms, self@.rooms.index_of(room));
        }
        Ok(self.playback.finish(&mut self.queue_store, &mut self.emitter, slot))
    }

    /// Broadcasts `bytes`, decoded from the track that plays, to the
    /// listeners of the room with the id `room`. Returns whether the room's
    /// station plays; where it does not, nothing is written.
    pub fn write(&mut self, room: u64, bytes: &Vec<u8>) -> (playing: Result<bool, ApiError>)
        requires
            old(self).wf(),
        ensures
            final(self).wf(),
            match playing {
                Ok(playing) => {
                    let slot = old(self)@.rooms.slot_of(room);
                    let station = old(self)@.stations[slot as int];
                    &&& has_id(old(self)@.rooms.rooms, room)
                    &&& playing == (station.state == PlaybackState::Playing)
                    &&& playing ==> final(self)@ == (StoreView {
                        stations: old(self)@.stations.update(
                            slot as int,
                            StationView { listeners: fed(station.listeners, bytes@), ..station },
                        ),
                        ..old(self)@
                    })
                    &&& !playing ==> final(self)@ == old(self)@
                },
                Err(e) => {
                    &&& !has_id(old(self)@.rooms.rooms, room)
                    &&& e == ApiError::NotFound(Resource::Room)
                    &&& final(self)@ == old(self)@
                },
            },
    {
        let slot = match self.room_store.queue_of(room) {
            Ok(slot) => slot,
            Err(e) => {
                return Err(e);
            },
        };
        proof {
            lemma_index_of(self@.rooms, self@.rooms.index_of(room));
        }
        Ok(self.playback.write(slot, bytes))
    }
}

} // verus!

//! What the routes decide: each function takes what a request carries, as
//! plain values, and returns what the response is made from.

use crate::audio::StationView;
use crate::events::{QueueEvent, RoomEvent, VinylEvent};
use crate::ingest::{is_resolution, submitted, Job, Submission};
use crate::input::{
    described, fingerprint_of, parsed, recognized, Input, Lookup, SourceKind, VideoView,
};
use crate::queue::SerializedQueue;
use crate::rooms::{
    fresh_station, lemma_index_of, lemma_room_named, room_named, slots_extended, Listener, Room,
};
use crate::store::StoreView;
use crate::track::TrackStatus;
use crate::util::{ApiError, DatabaseError, ParseError, Resource};
use crate::vinyl::VinylContext;
use vstd::prelude::*;
use vstd::string::StringExecFns;

verus! {

/// What became of an accepted submission.
#[derive(Debug, PartialEq, Eq)]
pub struct Added {
    /// The confirmation that the submitter reads.
    pub response: String,
    /// The fingerprint of what was submitted.
    pub fingerprint: String,
    /// What the ingestion pipeline made of it: where it says `Started`, the
    /// caller is to resolve the fingerprint and to report the outcome.
    pub submission: Submission,
}

/// The status of a response to a request that succeeded.
pub const OK: u16 = 200;

/// The status of the response to a request that created a room.
pub const CREATED: u16 = 201;

/// The headers of a stream response, in the order in which they are set.
pub open spec fn stream_header_lines() -> Seq<(Seq<char>, Seq<char>)> {
    seq![
        ("Transfer-Encoding"@, "chunked"@),
        ("Content-Type"@, "audio/wav"@),
        ("Cache-Control"@, "no-store"@),
        ("Content-Disposition"@, "inline; filename=\"stream.wav\""@),
    ]
}

/// The confirmation that the submitter of a video reads.
pub open spec fn confirmation(video: VideoView) -> Seq<char> {
    "Added "@ + described(video) + " to the queue"@
}

/// Why a query with its lookup parses to nothing.
pub open spec fn parse_error(query: Seq<char>) -> ParseError {
    if recognized(query) is None {
        ParseError::Unrecognized
    } else {
        ParseError::Unresolvable
    }
}

/// The headers of a stream response: the body is sent in chunks as it is
/// produced, it is WAV audio, and nothing may store it.
pub fn stream_headers() -> (headers: Vec<(String, String)>)
    ensures
        headers@.len() == stream_header_lines().len(),
        forall|i: int|
            0 <= i < headers@.len() ==> (#[trigger] headers@[i]).0@ == stream_header_lines()[i].0
                && headers@[i].1@ == stream_header_lines()[i].1,
{
    let mut headers: Vec<(String, String)> = Vec::new();
    headers.push(("Transfer-Encoding".to_string(), "chunked".to_string()));
    headers.push(("Content-Type".to_string(), "audio/wav".to_string()));
    headers.push(("Cache-Control".to_string(), "no-store".to_string()));
    headers.push(("Content-Disposition".to_string(), "inline; filename=\"stream.wav\"".to_string()));
    headers
}

/// `POST /rooms`: creates a room that the user owns, given how persisting
/// its draft ended.
pub fn create_room(
    context: &mut VinylContext,
    user: &String,
    name: String,
    persisted: Result<(), DatabaseError>,
) -> (created: Result<Room, ApiError>)
    requires
        old(context).store.wf(),
    ensures
        final(context).store.wf(),
        final(context).sse == old(context).sse,
        match created {
            Ok(room) => {
                let before = old(context).store@;
                &&& persisted is Ok
                &&& before.rooms.next_id < u64::MAX
                &&& room == (Room { id: before.rooms.next_id, name, owner: *user })
                &&& final(context).store@.rooms.rooms == before.rooms.rooms.push(room)
                &&& slots_extended(
                    final(context).store@.rooms.slots,
                    before.rooms.slots,
                    before.queues.len(),
                    1,
                )
                &&& final(context).store@.rooms.next_id == before.rooms.next_id + 1
                &&& final(context).store@.queues == before.queues.push(Seq::empty())
                &&& final(context).store@.stations == before.stations.push(
                    fresh_station(room.id),
                )
                &&& final(context).store@.jobs == before.jobs
                &&& final(context).store@.emitted == before.emitted.push(
                    VinylEvent::Room(RoomEvent::Created(room)),
                )
            },
            Err(e) => {
                &&& final(context).store@ == old(context).store@
                &&& if old(context).store@.rooms.next_id == u64::MAX {
                    e == ApiError::Exhausted
                } else {
                    persisted is Err && e == ApiError::Database(persisted->Err_0)
                }
            },
        },
{
    context.store.create_room(user.clone(), name, persisted)
}

/// `GET /rooms`: all rooms, in the order in which they were registered.
pub fn get_rooms(context: &VinylContext) -> (rooms: Vec<Room>)
    ensures
        rooms@ == context.store@.rooms.rooms,
{
    context.store.room_store.rooms()
}

/// `GET /rooms/:id`: the room that `id` names.
pub fn get_room(context: &VinylContext, id: &str) -> (room: Result<Room, ApiError>)
    requires
        context.store.wf(),
    ensures
        match room_named(context.store@.rooms.rooms, id@) {
            Some(found) => room == Ok::<Room, ApiError>(
                context.store@.rooms.rooms[context.store@.rooms.index_of(found)],
            ),
            None => room == Err::<Room, ApiError>(ApiError::NotFound(Resource::Room)),
        },
{
    proof {
        lemma_room_named(context.store@.rooms.rooms, id@);
    }
    match context.store.room_store.find(id) {
        Ok(found) => context.store.room_store.get_room(found),
        Err(e) => Err(e),
    }
}

/// Whether a submission of `query` to the room that `id` names calls for a
/// lookup: only where there is such a room and some parser of the registry
/// recognizes the query. In every other case the submission is turned down
/// whatever a lookup would say.
pub fn wants_lookup(context: &VinylContext, id: &str, query: &str) -> (wanted: bool)
    ensures
        wanted == (room_named(context.store@.rooms.rooms, id@) is Some && recognized(query@)
            is Some),
{
    context.store.room_store.find(id).is_ok() && SourceKind::recognize(query).is_some()
}

/// Without a lookup nothing is lost: where `wants_lookup` says no, a
/// submission ends the same way whatever lookup it is given.
pub proof fn lemma_lookup_not_needed(rooms: Seq<Room>, id: Seq<char>, query: Seq<char>, any: Lookup)
    requires
        !(room_named(rooms, id) is Some && recognized(query) is Some),
    ensures
        room_named(rooms, id) is None || (parsed(query, any) is None && parse_error(query)
            == ParseError::Unrecognized),
{
}

/// `POST /rooms/:id/queue`: queues what `query` refers to in the room that
/// `id` names, given the lookup that was made for the query, and returns the
/// confirmation. An unknown room is reported first, then a query that
/// parses to nothing; in both cases nothing changes. Else the queue has one
/// more track at its tail, pending, and the ingestion pipeline has taken the
/// submission into account.
pub fn add_input(
    context: &mut VinylContext,
    user: &String,
    id: &str,
    query: &str,
    lookup: &Lookup,
) -> (added: Result<Added, ApiError>)
    requires
        old(context).store.wf(),
    ensures
        final(context).store.wf(),
        final(context).sse == old(context).sse,
        match room_named(old(context).store@.rooms.rooms, id@) {
            None => {
                &&& added == Err::<Added, ApiError>(ApiError::NotFound(Resource::Room))
                &&& final(context).store@ == old(context).store@
            },
            Some(room) => match parsed(query@, *lookup) {
                None => {
                    &&& added == Err::<Added, ApiError>(ApiError::Parse(parse_error(query@)))
                    &&& final(context).store@ == old(context).store@
                },
                Some(video) => {
                    let before = old(context).store@;
                    let after = final(context).store@;
                    let slot = before.rooms.slot_of(room);
                    let pushed = before.emitted.push(VinylEvent::Queue(QueueEvent::Pushed(slot)));
                    &&& added is Ok
                    &&& added->Ok_0.response@ == confirmation(video)
                    &&& added->Ok_0.fingerprint@ == fingerprint_of(video)
                    &&& after.rooms == before.rooms
                    &&& after.stations == before.stations
                    &&& after.queues.len() == before.queues.len()
                    &&& forall|q: int|
                        0 <= q < before.queues.len() && q != slot ==> after.queues[q]
                            == before.queues[q]
                    &&& after.queues[slot as int].len() == before.queues[slot as int].len() + 1
                    &&& after.queues[slot as int].drop_last() == before.queues[slot as int]
                    &&& after.queues[slot as int].last().status == TrackStatus::Pending
                    &&& after.queues[slot as int].last().input@ == video
                    &&& after.jobs == submitted(before.jobs, fingerprint_of(video))
                    &&& match before.jobs.get(fingerprint_of(video)) {
                        Some(Job::Cached(source)) => {
                            &&& added->Ok_0.submission matches Submission::Cached(s) && s@
                                == source
                            &&& after.emitted.len() == pushed.len() + 1
                            &&& after.emitted.drop_last() == pushed
                            &&& is_resolution(after.emitted.last(), fingerprint_of(video), source)
                        },
                        Some(Job::Resolving) => {
                            &&& added->Ok_0.submission == Submission::Joined
                            &&& after.emitted == pushed
                        },
                        None => {
                            &&& added->Ok_0.submission == Submission::Started
                            &&& after.emitted == pushed
                        },
                    }
                },
            },
        },
{
    let room = match context.store.room_store.find(id) {
        Ok(room) => room,
        Err(e) => {
            return Err(e);
        },
    };
    let input = match Input::parse(query, lookup) {
        Some(input) => input,
        None => {
            let error = if SourceKind::recognize(query).is_none() {
                ParseError::Unrecognized
            } else {
                ParseError::Unresolvable
            };
            return Err(ApiError::Parse(error));
        },
    };
    let mut response = "Added ".to_string();
    response.append(input.to_string().as_str());
    response.append(" to the queue");
    proof {
        lemma_room_named(context.store@.rooms.rooms, id@);
        assert(response@ =~= confirmation(input@));
    }
    let fingerprint = input.fingerprint();
    let ghost before = context.store@;
    let submission = match context.store.add_input(user, room, input) {
        Ok(submission) => submission,
        Err(e) => {
            return Err(e);
        },
    };
    proof {
        let slot = before.rooms.slot_of(room);
        lemma_index_of(before.rooms, before.rooms.index_of(room));
        assert(context.store@.queues[slot as int].drop_last() =~= before.queues[slot as int]);
    }
    Ok(Added { response, fingerprint, submission })
}

/// `GET /rooms/:id/stream`: attaches a listener for the user to the
/// broadcast of the room that `id` names, at the live position.
pub fn get_room_stream(context: &mut VinylContext, user: String, id: &str) -> (listener: Result<
    Listener,
    ApiError,
>)
    requires
        old(context).store.wf(),
    ensures
        final(context).store.wf(),
        final(context).sse == old(context).sse,
        match room_named(old(context).store@.rooms.rooms, id@) {
            None => {
                &&& listener == Err::<Listener, ApiError>(ApiError::NotFound(Resource::Room))
                &&& final(context).store@ == old(context).store@
            },
            Some(room) => {
                let before = old(context).store@;
                let slot = before.rooms.slot_of(room);
                let station = before.stations[slot as int];
                &&& listener is Ok
                &&& listener->Ok_0.room == room
                &&& listener->Ok_0.slot == slot
                &&& listener->Ok_0.id == station.issued
                &&& listener->Ok_0.user == user
                &&& !station.listeners.contains_key(listener->Ok_0.id)
                &&& final(context).store@ == (StoreView {
                    stations: before.stations.update(
                        slot as int,
                        StationView {
                            listeners: station.listeners.insert(
                                listener->Ok_0.id,
                                Seq::<u8>::empty(),
                            ),
                            issued: station.issued + 1,
                            ..station
                        },
                    ),
                    ..before
                })
            },
        },
{
    proof {
        lemma_room_named(context.store@.rooms.rooms, id@);
    }
    let room = match context.store.room_store.find(id) {
        Ok(room) => room,
        Err(e) => {
            return Err(e);
        },
    };
    context.store.connect(user, room)
}

/// `GET /rooms/:id/queue`: the queue of the room that `id` names, its tracks
/// in play order, each with its name and how far it has come.
pub fn get_room_queue(context: &VinylContext, id: &str) -> (listing: Result<
    SerializedQueue,
    ApiError,
>)
    requires
        context.store.wf(),
    ensures
        match room_named(context.store@.rooms.rooms, id@) {
            None => listing == Err::<SerializedQueue, ApiError>(
                ApiError::NotFound(Resource::Room),
            ),
            Some(room) => {
                let slot = context.store@.rooms.slot_of(room);
                let queue = context.store@.queues[slot as int];
                &&& listing is Ok
                &&& listing->Ok_0.id == slot
                &&& listing->Ok_0.tracks@.len() == queue.len()
                &&& forall|i: int|
                    0 <= i < queue.len() ==> {
                        &&& (#[trigger] listing->Ok_0.tracks@[i]).name@ == described(queue[i].input@)
                        &&& listing->Ok_0.tracks@[i].resolution == queue[i].status.resolution()
                    }
            },
        },
{
    proof {
        lemma_room_named(context.store@.rooms.rooms, id@);
    }
    let room = match context.store.room_store.find(id) {
        Ok(room) => room,
        Err(e) => {
            return Err(e);
        },
    };
    context.store.queue(room)
}

} // verus!

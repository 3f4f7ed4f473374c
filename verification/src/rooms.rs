//! Rooms and the store that holds them: which rooms there are, in the order
//! in which they came, and which queue belongs to each.

use crate::audio::{in_tune, playable_head, Playback, PlaybackState, StationView};
use crate::events::{Emitter, QueueEvent, RoomEvent, VinylEvent};
use crate::ingest::{is_resolution, submitted, Ingestion, Job, Submission};
use crate::input::{fingerprint_of, Input};
use crate::queue::QueueStore;
use crate::track::{Track, TrackStatus};
use crate::url::chars_of;
use crate::url::same_chars;
use crate::util::{
    decimal, decimal_chars, lemma_decimal_injective, ApiError, DatabaseError, Resource,
};
use vstd::prelude::*;

verus! {

/// A named space with one queue and one live broadcast.
#[derive(Debug, PartialEq, Eq)]
pub struct Room {
    pub id: u64,
    pub name: String,
    /// The user who created the room.
    pub owner: String,
}

/// The attachment of a user's connection to the broadcast of a room.
#[derive(Debug, PartialEq, Eq)]
pub struct Listener {
    /// The id of the room.
    pub room: u64,
    /// The slot of the room's station.
    pub slot: usize,
    /// The listener's id at that station.
    pub id: usize,
    pub user: String,
}

/// Why persisted rooms cannot be restored.
#[derive(Debug, Clone, Copy, PartialEq, Eq, Structural)]
pub enum RestoreError {
    /// Two rooms have this id.
    DuplicateId(u64),
    /// A room has this id, after which no further id could be given out.
    IdOutOfRange(u64),
}

/// The rooms, in the order in which they were registered.
pub struct RoomStore {
    rooms: Vec<Room>,
    /// For each room, at the same index, the id of its queue.
    slots: Vec<usize>,
    /// The id that the next room gets.
    next_id: u64,
}

/// The room store as contracts speak of it.
pub struct RoomsView {
    /// The rooms, in the order in which they were registered.
    pub rooms: Seq<Room>,
    /// For each room, at the same index, the id of its queue, which is also
    /// the slot of its station.
    pub slots: Seq<usize>,
    /// The id that the next room gets.
    pub next_id: u64,
}

impl Clone for Room {
    fn clone(&self) -> (r: Self)
        ensures
            r == *self,
    {
        Room { id: self.id, name: self.name.clone(), owner: self.owner.clone() }
    }
}

impl Clone for Listener {
    fn clone(&self) -> (r: Self)
        ensures
            r == *self,
    {
        Listener { room: self.room, slot: self.slot, id: self.id, user: self.user.clone() }
    }
}

/// Some room of `rooms` has the id `id`.
pub open spec fn has_id(rooms: Seq<Room>, id: u64) -> bool {
    exists|i: int| 0 <= i < rooms.len() && (#[trigger] rooms[i]).id == id
}

/// The id of the first of `rooms` whose id, in decimal, is `text`.
pub open spec fn room_named(rooms: Seq<Room>, text: Seq<char>) -> Option<u64>
    decreases rooms.len(),
{
    if rooms.len() == 0 {
        None
    } else if decimal(rooms[0].id as nat) == text {
        Some(rooms[0].id)
    } else {
        room_named(rooms.drop_first(), text)
    }
}

/// A room that a text names is one of the rooms, and the text is its id.
pub proof fn lemma_room_named(rooms: Seq<Room>, text: Seq<char>)
    ensures
        match room_named(rooms, text) {
            Some(id) => has_id(rooms, id) && decimal(id as nat) == text,
            None => true,
        },
    decreases rooms.len(),
{
    if rooms.len() > 0 {
        if decimal(rooms[0].id as nat) == text {
            assert(rooms[0].id == rooms[0].id);
        } else {
            lemma_room_named(rooms.drop_first(), text);
            if let Some(id) = room_named(rooms.drop_first(), text) {
                let i = choose|i: int|
                    0 <= i < rooms.drop_first().len() && (#[trigger] rooms.drop_first()[i]).id == id;
                assert(rooms[i + 1].id == id);
            }
        }
    }
}

/// A room is found by its id in decimal: in a well-formed store, the text of
/// a room's id names that room and no other.
pub proof fn lemma_room_found_by_its_text(view: RoomsView, i: int)
    requires
        view.wf(),
        0 <= i < view.rooms.len(),
    ensures
        room_named(view.rooms, decimal(view.rooms[i].id as nat)) == Some(view.rooms[i].id),
{
    let text = decimal(view.rooms[i].id as nat);
    lemma_first_named(view.rooms, text, i);
    lemma_decimal_injective(room_named(view.rooms, text)->Some_0 as nat, view.rooms[i].id as nat);
}

proof fn lemma_first_named(rooms: Seq<Room>, text: Seq<char>, i: int)
    requires
        0 <= i < rooms.len(),
        decimal(rooms[i].id as nat) == text,
    ensures
        room_named(rooms, text) is Some,
        decimal(room_named(rooms, text)->Some_0 as nat) == text,
    decreases rooms.len(),
{
    if decimal(rooms[0].id as nat) != text {
        assert(rooms.drop_first()[i - 1] == rooms[i]);
        lemma_first_named(rooms.drop_first(), text, i - 1);
    }
}

/// The room at index `i` cannot be restored behind those before it: its id
/// is taken, or is the last one there is.
pub open spec fn offends(rooms: Seq<Room>, i: int) -> bool {
    rooms[i].id == u64::MAX || has_id(rooms.take(i), rooms[i].id)
}

/// What is wrong with a room that cannot be restored.
pub open spec fn offence(room: Room) -> RestoreError {
    if room.id == u64::MAX {
        RestoreError::IdOutOfRange(room.id)
    } else {
        RestoreError::DuplicateId(room.id)
    }
}

/// The least id that is above every id of `rooms`.
pub open spec fn next_free(rooms: Seq<Room>) -> nat
    decreases rooms.len(),
{
    if rooms.len() == 0 {
        0
    } else {
        let earlier = next_free(rooms.drop_last());
        if rooms.last().id >= earlier {
            (rooms.last().id + 1) as nat
        } else {
            earlier
        }
    }
}

/// The station of a room in which nothing has happened yet.
pub open spec fn fresh_station(room: u64) -> StationView {
    StationView { room, state: PlaybackState::Idle, listeners: Map::empty(), issued: 0 }
}

/// The stations of rooms in which nothing has happened yet, one for each of
/// `rooms`, in order.
pub open spec fn fresh_stations(rooms: Seq<Room>) -> Seq<StationView> {
    Seq::new(rooms.len(), |k: int| fresh_station(rooms[k].id))
}

/// `slots` are `before`, followed by the ids of `count` queues that were
/// created one after the other when there were `queues` queues.
pub open spec fn slots_extended(
    slots: Seq<usize>,
    before: Seq<usize>,
    queues: nat,
    count: nat,
) -> bool {
    &&& slots.len() == before.len() + count
    &&& forall|j: int|
        0 <= j < slots.len() ==> #[trigger] slots[j] == if j < before.len() {
            before[j] as int
        } else {
            queues + (j - before.len())
        }
}

/// `count` queues without tracks.
pub open spec fn empty_queues(count: nat) -> Seq<Seq<Track>> {
    Seq::new(count, |k: int| Seq::<Track>::empty())
}

impl RoomsView {
    /// Every room has a queue, no two rooms share an id or a queue, and
    /// every id in use is below the next one to be given out.
    pub open spec fn wf(self) -> bool {
        &&& self.slots.len() == self.rooms.len()
        &&& forall|i: int| 0 <= i < self.rooms.len() ==> (#[trigger] self.rooms[i]).id < self.next_id
        &&& forall|i: int, j: int|
            0 <= i < j < self.rooms.len() ==> (#[trigger] self.rooms[i]).id != (
            #[trigger] self.rooms[j]).id
        &&& forall|i: int, j: int|
            0 <= i < j < self.slots.len() ==> (#[trigger] self.slots[i]) != (
            #[trigger] self.slots[j])
    }

    /// Every room's queue is one of the first `queues` queues.
    pub open spec fn linked(self, queues: nat) -> bool {
        forall|i: int| 0 <= i < self.slots.len() ==> (#[trigger] self.slots[i]) < queues
    }

    /// The index of the room with the id `id`.
    pub open spec fn index_of(self, id: u64) -> int {
        choose|i: int| 0 <= i < self.rooms.len() && (#[trigger] self.rooms[i]).id == id
    }

    /// The id of the queue of the room with the id `id`.
    pub open spec fn slot_of(self, id: u64) -> usize {
        self.slots[self.index_of(id)]
    }
}

/// In a well-formed store, the room at an index is the one that its id
/// finds.
pub proof fn lemma_index_of(view: RoomsView, i: int)
    requires
        view.wf(),
        0 <= i < view.rooms.len(),
    ensures
        has_id(view.rooms, view.rooms[i].id),
        view.index_of(view.rooms[i].id) == i,
{
    let c = view.index_of(view.rooms[i].id);
    if c < i {
        assert(view.rooms[c].id != view.rooms[i].id);
    } else if i < c {
        assert(view.rooms[i].id != view.rooms[c].id);
    }
}

/// From creation to listing: a room registered under the next id stands
/// last in the listing, no other room has its id, and looking its id up
/// finds the room itself, field for field. The rooms listed before are
/// listed as before.
pub proof fn lemma_created_room_is_listed(before: RoomsView, after: RoomsView, room: Room)
    requires
        before.wf(),
        room.id == before.next_id,
        after.rooms == before.rooms.push(room),
    ensures
        after.rooms.last() == room,
        after.rooms.drop_last() == before.rooms,
        !has_id(before.rooms, room.id),
        has_id(after.rooms, room.id),
        after.rooms[after.index_of(room.id)] == room,
{
    assert(after.rooms.drop_last() =~= before.rooms);
    assert(after.rooms[before.rooms.len() as int].id == room.id);
    let found = after.index_of(room.id);
    if found < before.rooms.len() {
        assert(before.rooms[found].id < before.next_id);
    }
    if has_id(before.rooms, room.id) {
        let i = choose|i: int| 0 <= i < before.rooms.len() && (#[trigger] before.rooms[i]).id == room.id;
        assert(before.rooms[i].id < before.next_id);
    }
}

impl View for RoomStore {
    type V = RoomsView;

    closed spec fn view(&self) -> RoomsView {
        RoomsView { rooms: self.rooms@, slots: self.slots@, next_id: self.next_id }
    }
}

impl RoomStore {
    /// A store without rooms. The first room gets the id 0.
    pub fn new() -> (store: RoomStore)
        ensures
            store@ == (RoomsView { rooms: Seq::empty(), slots: Seq::empty(), next_id: 0 }),
            store@.wf(),
    {
        RoomStore { rooms: Vec::new(), slots: Vec::new(), next_id: 0 }
    }

    fn position(&self, id: u64) -> (found: Option<usize>)
        ensures
            match found {
                Some(i) => i < self@.rooms.len() && self@.rooms[i as int].id == id,
                None => !has_id(self@.rooms, id),
            },
    {
        let mut i: usize = 0;
        while i < self.rooms.len()
            invariant
                i <= self.rooms@.len(),
                forall|j: int| 0 <= j < i ==> (#[trigger] self.rooms@[j]).id != id,
            decreases self.rooms@.len() - i,
        {
            if self.rooms[i].id == id {
                return Some(i);
            }
            i += 1;
        }
        None
    }

    /// A snapshot of all rooms, in the order in which they were registered.
    pub fn rooms(&self) -> (snapshot: Vec<Room>)
        ensures
            snapshot@ == self@.rooms,
    {
        let mut snapshot: Vec<Room> = Vec::new();
        let mut i: usize = 0;
        while i < self.rooms.len()
            invariant
                i <= self.rooms@.len(),
                snapshot@ == self.rooms@.take(i as int),
            decreases self.rooms@.len() - i,
        {
            snapshot.push(self.rooms[i].clone());
            proof {
                assert(snapshot@ =~= self.rooms@.take(i + 1));
            }
            i += 1;
        }
        proof {
            assert(self.rooms@.take(self.rooms@.len() as int) =~= self.rooms@);
        }
        snapshot
    }

    /// The room with the id `id`.
    pub fn get_room(&self, id: u64) -> (room: Result<Room, ApiError>)
        requires
            self@.wf(),
        ensures
            match room {
                Ok(room) => has_id(self@.rooms, id) && room == self@.rooms[self@.index_of(id)],
                Err(e) => !has_id(self@.rooms, id) && e == ApiError::NotFound(Resource::Room),
            },
    {
        match self.position(id) {
            Some(i) => {
                proof {
                    lemma_index_of(self@, i as int);
                }
                Ok(self.rooms[i].clone())
            },
            None => Err(ApiError::NotFound(Resource::Room)),
        }
    }

    /// The id of the room that a request path names: that of the first room
    /// whose id, in decimal, is `text`.
    pub fn find(&self, text: &str) -> (id: Result<u64, ApiError>)
        ensures
            match id {
                Ok(id) => room_named(self@.rooms, text@) == Some(id),
                Err(e) => room_named(self@.rooms, text@) is None && e == ApiError::NotFound(
                    Resource::Room,
                ),
            },
    {
        let wanted = chars_of(text);
        let mut i: usize = 0;
        proof {
            assert(self.rooms@.skip(0) =~= self.rooms@);
        }
        while i < self.rooms.len()
            invariant
                i <= self.rooms@.len(),
                wanted@ == text@,
                room_named(self.rooms@, text@) == room_named(self.rooms@.skip(i as int), text@),
            decreases self.rooms@.len() - i,
        {
            proof {
                assert(self.rooms@.skip(i as int).drop_first() =~= self.rooms@.skip(i + 1));
            }
            let own = decimal_chars(self.rooms[i].id);
            if same_chars(&own, &wanted) {
                return Ok(self.rooms[i].id);
            }
            i += 1;
        }
        Err(ApiError::NotFound(Resource::Room))
    }

    /// The id of the queue of the room with the id `id`.
    pub fn queue_of(&self, id: u64) -> (slot: Result<usize, ApiError>)
        requires
            self@.wf(),
        ensures
            match slot {
                Ok(slot) => has_id(self@.rooms, id) && slot == self@.slot_of(id),
                Err(e) => !has_id(self@.rooms, id) && e == ApiError::NotFound(Resource::Room),
            },
    {
        match self.position(id) {
            Some(i) => {
                proof {
                    lemma_index_of(self@, i as int);
                }
                Ok(self.slots[i])
            },
            None => Err(ApiError::NotFound(Resource::Room)),
        }
    }

    /// The room that the next call of `create_room` registers for this owner
    /// and name, for the caller to persist beforehand. `None` where every id
    /// has been given out.
    pub fn draft(&self, owner: &String, name: &String) -> (room: Option<Room>)
        ensures
            match room {
                Some(room) => self@.next_id < u64::MAX && room == (Room {
                    id: self@.next_id,
                    name: *name,
                    owner: *owner,
                }),
                None => self@.next_id == u64::MAX,
            },
    {
        if self.next_id == u64::MAX {
            None
        } else {
            Some(Room { id: self.next_id, name: name.clone(), owner: owner.clone() })
        }
    }

    /// Creates a room for `owner`, given how persisting its draft ended.
    /// Where that succeeded, the room is registered behind all others under
    /// the next id, with an empty queue and an idle station of its own, and
    /// its creation is published. Where it failed, or no id is left, nothing
    /// changes.
    pub fn create_room(
        &mut self,
        queues: &mut QueueStore,
        playback: &mut Playback,
        emitter: &mut Emitter,
        owner: String,
        name: String,
        persisted: Result<(), DatabaseError>,
    ) -> (created: Result<Room, ApiError>)
        requires
            old(self)@.wf(),
            old(self)@.linked(old(queues)@.len()),
            old(playback).wf(),
            old(playback)@.len() == old(queues)@.len(),
        ensures
            final(self)@.wf(),
            final(self)@.linked(final(queues)@.len()),
            final(playback).wf(),
            final(playback)@.len() == final(queues)@.len(),
            old(queues).wf() ==> final(queues).wf(),
            in_tune(old(playback)@, old(queues)@) ==> in_tune(final(playback)@, final(queues)@),
            match created {
                Ok(room) => {
                    &&& persisted is Ok
                    &&& old(self)@.next_id < u64::MAX
                    &&& room == (Room { id: old(self)@.next_id, name, owner })
                    &&& final(self)@.rooms == old(self)@.rooms.push(room)
                    &&& slots_extended(final(self)@.slots, old(self)@.slots, old(queues)@.len(), 1)
                    &&& final(self)@.next_id == old(self)@.next_id + 1
                    &&& final(queues)@ == old(queues)@.push(Seq::<Track>::empty())
                    &&& final(playback)@ == old(playback)@.push(fresh_station(room.id))
                    &&& final(emitter)@ == old(emitter)@.push(
                        VinylEvent::Room(RoomEvent::Created(room)),
                    )
                },
                Err(e) => {
                    &&& final(self)@ == old(self)@
                    &&& final(queues)@ == old(queues)@
                    &&& final(playback)@ == old(playback)@
                    &&& final(emitter)@ == old(emitter)@
                    &&& if old(self)@.next_id == u64::MAX {
                        e == ApiError::Exhausted
                    } else {
                        persisted is Err && e == ApiError::Database(persisted->Err_0)
                    }
                },
            },
    {
        if self.next_id == u64::MAX {
            return Err(ApiError::Exhausted);
        }
        match persisted {
            Err(e) => {
                return Err(ApiError::Database(e));
            },
            Ok(_) => {},
        }
        let room = Room { id: self.next_id, name, owner };
        let slot = queues.create();
        let _station = playback.open(room.id);
        self.rooms.push(room.clone());
        self.slots.push(slot);
        self.next_id = self.next_id + 1;
        emitter.emit(VinylEvent::Room(RoomEvent::Created(room.clone())));
        proof {
            assert forall|s: int|
                0 <= s < playback@.len() && (#[trigger] playback@[s]).state
                    == PlaybackState::Playing implies s < old(playback)@.len() by {}
        }
        Ok(room)
    }

    /// Restores rooms that were persisted, in the order given, each with an
    /// empty queue and an idle station of its own, behind the rooms that the
    /// store holds. Nothing is published. Where one of them cannot be
    /// restored, none is, and the first such is reported.
    pub fn init(
        &mut self,
        queues: &mut QueueStore,
        playback: &mut Playback,
        persisted: &Vec<Room>,
    ) -> (restored: Result<(), RestoreError>)
        requires
            old(self)@.wf(),
            old(self)@.linked(old(queues)@.len()),
            old(playback).wf(),
            old(playback)@.len() == old(queues)@.len(),
        ensures
            final(self)@.wf(),
            final(self)@.linked(final(queues)@.len()),
            final(playback).wf(),
            final(playback)@.len() == final(queues)@.len(),
            old(queues).wf() ==> final(queues).wf(),
            in_tune(old(playback)@, old(queues)@) ==> in_tune(final(playback)@, final(queues)@),
            match restored {
                Ok(_) => {
                    let all = old(self)@.rooms + persisted@;
                    &&& forall|i: int| 0 <= i < all.len() ==> !offends(all, i)
                    &&& final(self)@.rooms == all
                    &&& slots_extended(
                        final(self)@.slots,
                        old(self)@.slots,
                        old(queues)@.len(),
                        persisted@.len(),
                    )
                    &&& final(self)@.next_id == if next_free(persisted@) > old(self)@.next_id {
                        next_free(persisted@)
                    } else {
                        old(self)@.next_id as nat
                    }
                    &&& final(queues)@ == old(queues)@ + empty_queues(persisted@.len())
                    &&& final(playback)@ == old(playback)@ + fresh_stations(persisted@)
                },
                Err(e) => {
                    let all = old(self)@.rooms + persisted@;
                    &&& final(self)@ == old(self)@
                    &&& final(queues)@ == old(queues)@
                    &&& final(playback)@ == old(playback)@
                    &&& exists|i: int|
                        {
                            &&& old(self)@.rooms.len() <= i < all.len()
                            &&& #[trigger] offends(all, i)
                            &&& e == offence(all[i])
                            &&& forall|k: int| 0 <= k < i ==> !offends(all, k)
                        }
                },
            },
    {
        let ghost all = self@.rooms + persisted@;
        let ghost held = self@.rooms.len() as int;
        proof {
            assert forall|k: int| 0 <= k < held implies !offends(all, k) by {
                if has_id(all.take(k), all[k].id) {
                    let j = choose|j: int|
                        0 <= j < all.take(k).len() && (#[trigger] all.take(k)[j]).id == all[k].id;
                    assert(self@.rooms[j].id != self@.rooms[k].id);
                }
                assert(self@.rooms[k].id < self@.next_id);
            }
        }
        let mut i: usize = 0;
        while i < persisted.len()
            invariant
                i <= persisted@.len(),
                *self == *old(self),
                *queues == *old(queues),
                *playback == *old(playback),
                self@.linked(queues@.len()),
                playback.wf(),
                playback@.len() == queues@.len(),
                self@.wf(),
                all == self@.rooms + persisted@,
                held == self@.rooms.len(),
                forall|k: int| 0 <= k < held + i ==> !offends(all, k),
            decreases persisted@.len() - i,
        {
            let id = persisted[i].id;
            proof {
                assert(all[held + i] == persisted@[i as int]);
            }
            if id == u64::MAX {
                proof {
                    assert(offends(all, held + i));
                }
                return Err(RestoreError::IdOutOfRange(id));
            }
            let mut taken = self.position(id).is_some();
            let mut j: usize = 0;
            while j < i
                invariant
                    j <= i < persisted@.len(),
                    id == persisted@[i as int].id,
                    taken == (has_id(self@.rooms, id) || has_id(persisted@.take(j as int), id)),
                decreases i - j,
            {
                proof {
                    let before = persisted@.take(j as int);
                    let after = persisted@.take(j + 1);
                    assert(after.drop_last() =~= before);
                    assert(after.last() == persisted@[j as int]);
                    if has_id(after, id) {
                        let c = choose|c: int| 0 <= c < after.len() && (#[trigger] after[c]).id == id;
                        if c < j {
                            assert(before[c].id == id);
                        }
                    }
                    if has_id(before, id) {
                        let c = choose|c: int|
                            0 <= c < before.len() && (#[trigger] before[c]).id == id;
                        assert(after[c].id == id);
                    }
                    if persisted@[j as int].id == id {
                        assert(after[j as int].id == id);
                    }
                }
                if persisted[j].id == id {
                    taken = true;
                }
                j += 1;
            }
            proof {
                let earlier = all.take(held + i);
                assert(earlier =~= self@.rooms + persisted@.take(i as int));
                if has_id(earlier, id) {
                    let c = choose|c: int| 0 <= c < earlier.len() && (#[trigger] earlier[c]).id == id;
                    if c < held {
                        assert(self@.rooms[c].id == id);
                    } else {
                        assert(persisted@.take(i as int)[c - held].id == id);
                    }
                }
                if has_id(self@.rooms, id) {
                    let c = choose|c: int|
                        0 <= c < self@.rooms.len() && (#[trigger] self@.rooms[c]).id == id;
                    assert(earlier[c].id == id);
                }
                if has_id(persisted@.take(i as int), id) {
                    let c = choose|c: int|
                        0 <= c < persisted@.take(i as int).len() && (#[trigger] persisted@.take(
                            i as int,
                        )[c]).id == id;
                    assert(earlier[held + c].id == id);
                }
                assert(taken == has_id(earlier, id));
            }
            if taken {
                proof {
                    assert(offends(all, held + i));
                }
                return Err(RestoreError::DuplicateId(id));
            }
            i += 1;
        }
        let ghost first_slot = queues@.len();
        let mut i: usize = 0;
        while i < persisted.len()
            invariant
                i <= persisted@.len(),
                all == old(self)@.rooms + persisted@,
                held == old(self)@.rooms.len(),
                first_slot == old(queues)@.len(),
                forall|k: int| 0 <= k < all.len() ==> !offends(all, k),
                self@.wf(),
                self@.linked(queues@.len()),
                playback.wf(),
                playback@.len() == queues@.len(),
                old(queues).wf() ==> queues.wf(),
                in_tune(old(playback)@, old(queues)@) ==> in_tune(playback@, queues@),
                self@.rooms == all.take(held + i),
                slots_extended(self@.slots, old(self)@.slots, first_slot, i as nat),
                self@.next_id == if next_free(persisted@.take(i as int)) > old(self)@.next_id {
                    next_free(persisted@.take(i as int))
                } else {
                    old(self)@.next_id as nat
                },
                queues@ == old(queues)@ + empty_queues(i as nat),
                playback@ == old(playback)@ + fresh_stations(persisted@.take(i as int)),
            decreases persisted@.len() - i,
        {
            let room = persisted[i].clone();
            let ghost before = self@;
            let ghost queues_before = queues@;
            let ghost playback_before = playback@;
            proof {
                assert(all[held + i] == room);
                assert(!offends(all, held + i));
                assert(room.id < u64::MAX);
                assert(!has_id(self@.rooms, room.id));
                assert(persisted@.take(i + 1).drop_last() =~= persisted@.take(i as int));
                assert(persisted@.take(i + 1).last() == room);
            }
            let slot = queues.create();
            let _station = playback.open(room.id);
            if room.id >= self.next_id {
                self.next_id = room.id + 1;
            }
            self.rooms.push(room);
            self.slots.push(slot);
            proof {
                assert(self@.rooms =~= all.take(held + i + 1));
                assert(queues@ =~= old(queues)@ + empty_queues((i + 1) as nat));
                assert(playback@ =~= old(playback)@ + fresh_stations(persisted@.take(i + 1)));
                assert forall|a: int, b: int| 0 <= a < b < self@.rooms.len() implies (
                #[trigger] self@.rooms[a]).id != (#[trigger] self@.rooms[b]).id by {
                    if b == before.rooms.len() {
                        assert(before.rooms[a].id != room.id);
                    } else {
                        assert(before.rooms[a].id != before.rooms[b].id);
                    }
                }
                assert forall|a: int, b: int| 0 <= a < b < self@.slots.len() implies (
                #[trigger] self@.slots[a]) != (#[trigger] self@.slots[b]) by {
                    if b == before.slots.len() {
                        assert(before.slots[a] < queues_before.len());
                    } else {
                        assert(before.slots[a] != before.slots[b]);
                    }
                }
                assert forall|a: int| 0 <= a < self@.rooms.len() implies (
                #[trigger] self@.rooms[a]).id < self@.next_id by {
                    if a < before.rooms.len() {
                        assert(before.rooms[a].id < before.next_id);
                    }
                }
                assert forall|a: int| 0 <= a < self@.slots.len() implies (
                #[trigger] self@.slots[a]) < queues@.len() by {
                    if a < before.slots.len() {
                        assert(before.slots[a] < queues_before.len());
                    }
                }
                if in_tune(old(playback)@, old(queues)@) {
                    assert forall|s: int|
                        0 <= s < playback@.len() && (#[trigger] playback@[s]).state
                            == PlaybackState::Playing implies playable_head(
                        queues@[s],
                    ) is Some by {
                        if s < playback_before.len() {
                            assert(playback_before[s].state == PlaybackState::Playing);
                            assert(queues@[s] == queues_before[s]);
                        }
                    }
                }
            }
            i += 1;
        }
        proof {
            assert(all.take(held + persisted@.len()) =~= all);
            assert(persisted@.take(persisted@.len() as int) =~= persisted@);
        }
        Ok(())
    }

    /// Queues `input` in the room with the id `room` as a pending track, at
    /// once, and hands it to the ingestion pipeline. Fails where there is no
    /// such room; nothing changes then. The user who submits is not
    /// recorded.
    #[allow(unused_variables)]
    pub fn add_input(
        &self,
        queues: &mut QueueStore,
        ingestion: &mut Ingestion,
        emitter: &mut Emitter,
        user: &String,
        room: u64,
        input: Input,
    ) -> (added: Result<Submission, ApiError>)
        requires
            self@.wf(),
            self@.linked(old(queues)@.len()),
            old(ingestion).wf(),
        ensures
            final(ingestion).wf(),
            old(queues).wf() ==> final(queues).wf(),
            final(queues)@.len() == old(queues)@.len(),
            match added {
                Ok(submission) => {
                    let slot = self@.slot_of(room);
                    let pushed = old(emitter)@.push(VinylEvent::Queue(QueueEvent::Pushed(slot)));
                    &&& has_id(self@.rooms, room)
                    &&& final(queues)@ == old(queues)@.update(
                        slot as int,
                        old(queues)@[slot as int].push(
                            Track { input, status: TrackStatus::Pending },
                        ),
                    )
                    &&& final(ingestion)@ == submitted(old(ingestion)@, fingerprint_of(input@))
                    &&& match submission {
                        Submission::Cached(source) => {
                            &&& old(ingestion)@.contains_key(fingerprint_of(input@))
                            &&& old(ingestion)@[fingerprint_of(input@)] == Job::Cached(source@)
                            &&& final(emitter)@.len() == pushed.len() + 1
                            &&& final(emitter)@.drop_last() == pushed
                            &&& is_resolution(final(emitter)@.last(), fingerprint_of(input@), source@)
                        },
                        Submission::Joined => {
                            &&& old(ingestion)@.contains_key(fingerprint_of(input@))
                            &&& old(ingestion)@[fingerprint_of(input@)] == Job::Resolving
                            &&& final(emitter)@ == pushed
                        },
                        Submission::Started => {
                            &&& !old(ingestion)@.contains_key(fingerprint_of(input@))
                            &&& final(emitter)@ == pushed
                        },
                    }
                },
                Err(e) => {
                    &&& !has_id(self@.rooms, room)
                    &&& e == ApiError::NotFound(Resource::Room)
                    &&& final(queues)@ == old(queues)@
                    &&& final(ingestion)@ == old(ingestion)@
                    &&& final(emitter)@ == old(emitter)@
                },
            },
    {
        let slot = match self.queue_of(room) {
            Ok(slot) => slot,
            Err(e) => {
                return Err(e);
            },
        };
        proof {
            lemma_index_of(self@, self@.index_of(room));
        }
        let track = Track::pending(input.clone());
        let _found = queues.push(emitter, slot, track);
        let submission = ingestion.submit(emitter, &input);
        Ok(submission)
    }

    /// Attaches a listener for `user` to the broadcast of the room with the
    /// id `room`, at the live position. Fails where there is no such room;
    /// nothing changes then.
    pub fn connect(&self, playback: &mut Playback, user: String, room: u64) -> (listener: Result<
        Listener,
        ApiError,
    >)
        requires
            self@.wf(),
            self@.linked(old(playback)@.len()),
            old(playback).wf(),
        ensures
            final(playback).wf(),
            match listener {
                Ok(listener) => {
                    let slot = self@.slot_of(room);
                    let station = old(playback)@[slot as int];
                    &&& has_id(self@.rooms, room)
                    &&& listener.room == room
                    &&& listener.slot == slot
                    &&& listener.id == station.issued
                    &&& listener.user == user
                    &&& !station.listeners.contains_key(listener.id)
                    &&& final(playback)@ == old(playback)@.update(
                        slot as int,
                        StationView {
                            listeners: station.listeners.insert(listener.id, Seq::<u8>::empty()),
                            issued: station.issued + 1,
                            ..station
                        },
                    )
                },
                Err(e) => {
                    &&& !has_id(self@.rooms, room)
                    &&& e == ApiError::NotFound(Resource::Room)
                    &&& final(playback)@ == old(playback)@
                },
            },
    {
        let slot = match self.queue_of(room) {
            Ok(slot) => slot,
            Err(e) => {
                return Err(e);
            },
        };
        proof {
            lemma_index_of(self@, self@.index_of(room));
        }
        match playback.connect(slot) {
            Some(id) => Ok(Listener { room, slot, id, user }),
            None => Err(ApiError::NotFound(Resource::Room)),
        }
    }
}

} // verus!

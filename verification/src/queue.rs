//! The queue store: for each room one ordered sequence of tracks, first in,
//! first out, and its reaction to the outcome of ingestions.

use crate::events::{Emitter, HandlerError, IngestionEvent, QueueEvent, VinylEvent};
use crate::input::{described, fingerprint_of, Input};
use crate::track::{SerializedTrack, Track, TrackStatus};
use crate::util::{ApiError, Resource};
use vstd::prelude::*;

verus! {

/// All queues, each found by its id: the position at which it was created.
pub struct QueueStore {
    queues: Vec<Vec<Track>>,
}

/// A queue as an API response shows it.
#[derive(Debug, PartialEq, Eq)]
pub struct SerializedQueue {
    pub id: usize,
    /// The tracks in play order.
    pub tracks: Vec<SerializedTrack>,
}

/// A queue after the ingestion of `fingerprint` has yielded `source`: every
/// track that waited for it is resolved, at its place.
pub open spec fn promote_queue(queue: Seq<Track>, fingerprint: Seq<char>, source: String) -> Seq<
    Track,
> {
    Seq::new(queue.len(), |i: int| queue[i].promoted(fingerprint, source))
}

/// All queues after the ingestion of `fingerprint` has yielded `source`.
pub open spec fn promote_all(
    queues: Seq<Seq<Track>>,
    fingerprint: Seq<char>,
    source: String,
) -> Seq<Seq<Track>> {
    Seq::new(queues.len(), |q: int| promote_queue(queues[q], fingerprint, source))
}

/// A queue after the ingestion of `fingerprint` has failed for `reason`:
/// every track that waited for it is failed, at its place.
pub open spec fn reject_queue(queue: Seq<Track>, fingerprint: Seq<char>, reason: String) -> Seq<
    Track,
> {
    Seq::new(queue.len(), |i: int| queue[i].rejected(fingerprint, reason))
}

/// All queues after the ingestion of `fingerprint` has failed for `reason`.
pub open spec fn reject_all(
    queues: Seq<Seq<Track>>,
    fingerprint: Seq<char>,
    reason: String,
) -> Seq<Seq<Track>> {
    Seq::new(queues.len(), |q: int| reject_queue(queues[q], fingerprint, reason))
}

/// The queue store cannot react to a resolution that names no source.
pub open spec fn refused(event: VinylEvent) -> bool {
    match event {
        VinylEvent::Ingestion(IngestionEvent::Resolved(_, source)) => source@.len() == 0,
        _ => false,
    }
}

/// The queues after the store has been handed `event`: a resolution promotes
/// and a failure rejects the tracks that waited for the fingerprint; any
/// other event, and a resolution without a source, leaves them as they are.
pub open spec fn reaction(queues: Seq<Seq<Track>>, event: VinylEvent) -> Seq<Seq<Track>> {
    match event {
        VinylEvent::Ingestion(IngestionEvent::Resolved(fingerprint, source)) => {
            if source@.len() == 0 {
                queues
            } else {
                promote_all(queues, fingerprint@, source)
            }
        },
        VinylEvent::Ingestion(IngestionEvent::Failed(fingerprint, reason)) => reject_all(
            queues,
            fingerprint@,
            reason,
        ),
        _ => queues,
    }
}

/// Joint resolution: one resolution resolves every track that waited for
/// the fingerprint, all to the same source, and no other track; each stays
/// at its place, and the queue is as long as before.
pub proof fn lemma_joint_resolution(queue: Seq<Track>, fingerprint: Seq<char>, source: String)
    ensures
        promote_queue(queue, fingerprint, source).len() == queue.len(),
        forall|i: int|
            0 <= i < queue.len() && (#[trigger] queue[i]).awaits(fingerprint) ==> promote_queue(
                queue,
                fingerprint,
                source,
            )[i] == (Track { input: queue[i].input, status: TrackStatus::Resolved(source) }),
        forall|i: int|
            0 <= i < queue.len() && !(#[trigger] queue[i]).awaits(fingerprint) ==> promote_queue(
                queue,
                fingerprint,
                source,
            )[i] == queue[i],
{
}

/// From submission to resolution: a track that was just appended as pending
/// is resolved by the resolution of its fingerprint, where it stands, and
/// is not duplicated. Where no other track of the queue waited for the same
/// fingerprint, the queue is otherwise as it was before the submission.
pub proof fn lemma_added_then_resolved(queue: Seq<Track>, input: Input, source: String)
    ensures
        ({
            let added = queue.push(Track { input, status: TrackStatus::Pending });
            let resolved = promote_queue(added, fingerprint_of(input@), source);
            &&& resolved.len() == queue.len() + 1
            &&& resolved.last() == (Track { input, status: TrackStatus::Resolved(source) })
            &&& resolved.drop_last() == promote_queue(queue, fingerprint_of(input@), source)
            &&& (forall|i: int|
                0 <= i < queue.len() ==> !(#[trigger] queue[i]).awaits(fingerprint_of(input@)))
                ==> resolved.drop_last() == queue
        }),
{
    let added = queue.push(Track { input, status: TrackStatus::Pending });
    let resolved = promote_queue(added, fingerprint_of(input@), source);
    assert(added.last().awaits(fingerprint_of(input@)));
    assert(resolved.drop_last() =~= promote_queue(queue, fingerprint_of(input@), source));
    if forall|i: int| 0 <= i < queue.len() ==> !(#[trigger] queue[i]).awaits(fingerprint_of(input@)) {
        assert(resolved.drop_last() =~= queue);
    }
}

/// Every track of every queue is well formed.
pub open spec fn all_wf(queues: Seq<Seq<Track>>) -> bool {
    forall|q: int, i: int|
        0 <= q < queues.len() && 0 <= i < queues[q].len() ==> (#[trigger] queues[q][i]).wf()
}

impl View for QueueStore {
    type V = Seq<Seq<Track>>;

    closed spec fn view(&self) -> Seq<Seq<Track>> {
        Seq::new(self.queues@.len(), |q: int| self.queues@[q]@)
    }
}

impl QueueStore {
    /// Every resolved track has a source location.
    pub open spec fn wf(&self) -> bool {
        all_wf(self@)
    }

    /// A store without queues.
    pub fn new() -> (store: QueueStore)
        ensures
            store@ == Seq::<Seq<Track>>::empty(),
            store.wf(),
    {
        let store = QueueStore { queues: Vec::new() };
        proof {
            assert(store@ =~= Seq::<Seq<Track>>::empty());
        }
        store
    }

    /// How many queues there are.
    pub fn count(&self) -> (n: usize)
        ensures
            n == self@.len(),
    {
        self.queues.len()
    }

    /// Creates an empty queue and returns its id.
    pub fn create(&mut self) -> (id: usize)
        ensures
            id == old(self)@.len(),
            final(self)@ == old(self)@.push(Seq::<Track>::empty()),
            old(self).wf() ==> final(self).wf(),
    {
        let id = self.queues.len();
        self.queues.push(Vec::new());
        proof {
            assert(self@ =~= old(self)@.push(Seq::<Track>::empty()));
        }
        id
    }

    /// Appends `track` to the tail of `queue` and publishes that. Returns
    /// whether there is such a queue; where there is none, nothing changes.
    pub fn push(&mut self, emitter: &mut Emitter, queue: usize, track: Track) -> (found: bool)
        ensures
            found == (queue < old(self)@.len()),
            found ==> final(self)@ == old(self)@.update(
                queue as int,
                old(self)@[queue as int].push(track),
            ) && final(emitter)@ == old(emitter)@.push(
                VinylEvent::Queue(QueueEvent::Pushed(queue)),
            ),
            !found ==> final(self)@ == old(self)@ && final(emitter)@ == old(emitter)@,
            old(self).wf() && track.wf() ==> final(self).wf(),
    {
        if queue >= self.queues.len() {
            return false;
        }
        self.queues[queue].push(track);
        emitter.emit(VinylEvent::Queue(QueueEvent::Pushed(queue)));
        proof {
            assert(self@ =~= old(self)@.update(queue as int, old(self)@[queue as int].push(track)));
        }
        true
    }

    /// Removes the track at the head of `queue`, publishes that and returns
    /// the track. `None` where the queue is empty or there is no such queue;
    /// nothing changes then.
    pub fn dequeue(&mut self, emitter: &mut Emitter, queue: usize) -> (head: Option<Track>)
        ensures
            match head {
                Some(track) => {
                    &&& queue < old(self)@.len()
                    &&& old(self)@[queue as int].len() > 0
                    &&& track == old(self)@[queue as int][0]
                    &&& final(self)@ == old(self)@.update(
                        queue as int,
                        old(self)@[queue as int].drop_first(),
                    )
                    &&& final(emitter)@ == old(emitter)@.push(
                        VinylEvent::Queue(QueueEvent::Dequeued(queue)),
                    )
                },
                None => {
                    &&& queue >= old(self)@.len() || old(self)@[queue as int].len() == 0
                    &&& final(self)@ == old(self)@
                    &&& final(emitter)@ == old(emitter)@
                },
            },
            old(self).wf() ==> final(self).wf(),
    {
        if queue >= self.queues.len() {
            return None;
        }
        if self.queues[queue].len() == 0 {
            return None;
        }
        let track = self.queues[queue].remove(0);
        emitter.emit(VinylEvent::Queue(QueueEvent::Dequeued(queue)));
        proof {
            assert(self.queues@[queue as int]@ =~= old(self)@[queue as int].drop_first());
            assert(self@ =~= old(self)@.update(
                queue as int,
                old(self)@[queue as int].drop_first(),
            ));
        }
        Some(track)
    }

    /// The track at the head of `queue`: the one that plays, or plays next.
    pub fn head(&self, queue: usize) -> (head: Option<&Track>)
        ensures
            match head {
                Some(track) => queue < self@.len() && self@[queue as int].len() > 0 && *track
                    == self@[queue as int][0],
                None => queue >= self@.len() || self@[queue as int].len() == 0,
            },
    {
        if queue >= self.queues.len() {
            return None;
        }
        if self.queues[queue].len() == 0 {
            return None;
        }
        Some(&self.queues[queue][0])
    }

    /// A listing of `queue` for an API response: its tracks in play order,
    /// each with its name and how far it has come. Fails where there is no
    /// such queue.
    pub fn serialized(&self, queue: usize) -> (listing: Result<SerializedQueue, ApiError>)
        ensures
            match listing {
                Ok(listing) => {
                    &&& queue < self@.len()
                    &&& listing.id == queue
                    &&& listing.tracks@.len() == self@[queue as int].len()
                    &&& forall|i: int|
                        0 <= i < listing.tracks@.len() ==> {
                            let track = self@[queue as int][i];
                            &&& (#[trigger] listing.tracks@[i]).name@ == described(track.input@)
                            &&& listing.tracks@[i].resolution == track.status.resolution()
                        }
                },
                Err(e) => queue >= self@.len() && e == ApiError::NotFound(Resource::Queue),
            },
    {
        if queue >= self.queues.len() {
            return Err(ApiError::NotFound(Resource::Queue));
        }
        let tracks = &self.queues[queue];
        let mut entries: Vec<SerializedTrack> = Vec::new();
        let mut i: usize = 0;
        while i < tracks.len()
            invariant
                i <= tracks.len(),
                entries@.len() == i,
                forall|j: int|
                    0 <= j < i ==> {
                        &&& (#[trigger] entries@[j]).name@ == described(tracks@[j].input@)
                        &&& entries@[j].resolution == tracks@[j].status.resolution()
                    },
            decreases tracks.len() - i,
        {
            entries.push(tracks[i].serialized());
            i += 1;
        }
        Ok(SerializedQueue { id: queue, tracks: entries })
    }

    /// Promotes every pending track that waits for `fingerprint` to resolved,
    /// with `source`, each at its place in its queue.
    fn promote(&mut self, fingerprint: &String, source: &String)
        requires
            source@.len() > 0,
        ensures
            final(self)@ == promote_all(old(self)@, fingerprint@, *source),
            old(self).wf() ==> final(self).wf(),
    {
        let mut q: usize = 0;
        while q < self.queues.len()
            invariant
                q <= self.queues@.len(),
                self.queues@.len() == old(self).queues@.len(),
                forall|k: int|
                    0 <= k < q ==> (#[trigger] self.queues@[k])@ == promote_queue(
                        old(self).queues@[k]@,
                        fingerprint@,
                        *source,
                    ),
                forall|k: int|
                    q <= k < self.queues@.len() ==> (#[trigger] self.queues@[k])
                        == old(self).queues@[k],
            decreases self.queues@.len() - q,
        {
            let mut i: usize = 0;
            while i < self.queues[q].len()
                invariant
                    q < self.queues@.len(),
                    self.queues@.len() == old(self).queues@.len(),
                    i <= self.queues@[q as int]@.len(),
                    self.queues@[q as int]@.len() == old(self).queues@[q as int]@.len(),
                    forall|j: int|
                        0 <= j < i ==> (#[trigger] self.queues@[q as int]@[j]) == old(
                            self,
                        ).queues@[q as int]@[j].promoted(fingerprint@, *source),
                    forall|j: int|
                        i <= j < self.queues@[q as int]@.len() ==> (
                        #[trigger] self.queues@[q as int]@[j]) == old(self).queues@[q as int]@[j],
                    forall|k: int|
                        0 <= k < q ==> (#[trigger] self.queues@[k])@ == promote_queue(
                            old(self).queues@[k]@,
                            fingerprint@,
                            *source,
                        ),
                    forall|k: int|
                        q < k < self.queues@.len() ==> (#[trigger] self.queues@[k])
                            == old(self).queues@[k],
                decreases self.queues@[q as int]@.len() - i,
            {
                if self.queues[q][i].is_waiting_for(fingerprint) {
                    self.queues[q][i].status = TrackStatus::Resolved(source.clone());
                }
                i += 1;
            }
            proof {
                assert(self.queues@[q as int]@ =~= promote_queue(
                    old(self).queues@[q as int]@,
                    fingerprint@,
                    *source,
                ));
            }
            q += 1;
        }
        proof {
            assert(self@ =~= promote_all(old(self)@, fingerprint@, *source));
        }
    }

    /// Marks every pending track that waits for `fingerprint` as failed, for
    /// `reason`, each at its place in its queue.
    fn fail(&mut self, fingerprint: &String, reason: &String)
        ensures
            final(self)@ == reject_all(old(self)@, fingerprint@, *reason),
            old(self).wf() ==> final(self).wf(),
    {
        let mut q: usize = 0;
        while q < self.queues.len()
            invariant
                q <= self.queues@.len(),
                self.queues@.len() == old(self).queues@.len(),
                forall|k: int|
                    0 <= k < q ==> (#[trigger] self.queues@[k])@ == reject_queue(
                        old(self).queues@[k]@,
                        fingerprint@,
                        *reason,
                    ),
                forall|k: int|
                    q <= k < self.queues@.len() ==> (#[trigger] self.queues@[k])
                        == old(self).queues@[k],
            decreases self.queues@.len() - q,
        {
            let mut i: usize = 0;
            while i < self.queues[q].len()
                invariant
                    q < self.queues@.len(),
                    self.queues@.len() == old(self).queues@.len(),
                    i <= self.queues@[q as int]@.len(),
                    self.queues@[q as int]@.len() == old(self).queues@[q as int]@.len(),
                    forall|j: int|
                        0 <= j < i ==> (#[trigger] self.queues@[q as int]@[j]) == old(
                            self,
                        ).queues@[q as int]@[j].rejected(fingerprint@, *reason),
                    forall|j: int|
                        i <= j < self.queues@[q as int]@.len() ==> (
                        #[trigger] self.queues@[q as int]@[j]) == old(self).queues@[q as int]@[j],
                    forall|k: int|
                        0 <= k < q ==> (#[trigger] self.queues@[k])@ == reject_queue(
                            old(self).queues@[k]@,
                            fingerprint@,
                            *reason,
                        ),
                    forall|k: int|
                        q < k < self.queues@.len() ==> (#[trigger] self.queues@[k])
                            == old(self).queues@[k],
                decreases self.queues@[q as int]@.len() - i,
            {
                if self.queues[q][i].is_waiting_for(fingerprint) {
                    self.queues[q][i].status = TrackStatus::Failed(reason.clone());
                }
                i += 1;
            }
            proof {
                assert(self.queues@[q as int]@ =~= reject_queue(
                    old(self).queues@[q as int]@,
                    fingerprint@,
                    *reason,
                ));
            }
            q += 1;
        }
        proof {
            assert(self@ =~= reject_all(old(self)@, fingerprint@, *reason));
        }
    }

    /// Reacts to an event from the bus. The outcome of an ingestion is
    /// applied to the tracks that waited for it; a resolution without a
    /// source location is refused and changes nothing; other events are
    /// none of the queue store's business.
    pub fn handle(&mut self, event: &VinylEvent) -> (outcome: Result<(), HandlerError>)
        ensures
            final(self)@ == reaction(old(self)@, *event),
            outcome is Err <==> refused(*event),
            old(self).wf() ==> final(self).wf(),
    {
        match event {
            VinylEvent::Ingestion(IngestionEvent::Resolved(fingerprint, source)) => {
                if source.as_str().is_empty() {
                    Err(HandlerError::EmptySource(fingerprint.clone()))
                } else {
                    self.promote(fingerprint, source);
                    Ok(())
                }
            },
            VinylEvent::Ingestion(IngestionEvent::Failed(fingerprint, reason)) => {
                self.fail(fingerprint, reason);
                Ok(())
            },
            _ => Ok(()),
        }
    }
}

} // verus!

//! The ingestion pipeline's bookkeeping: which fingerprints are being
//! resolved, and which have been resolved and to what source. A fingerprint
//! is resolved at most once at a time, whoever asks and however often.

use crate::events::{Emitter, IngestionEvent, VinylEvent};
use crate::input::{fingerprint_of, Input};
use vstd::prelude::*;

verus! {

/// What the pipeline knows of a fingerprint.
pub enum Job {
    /// Its resolution has begun and has not come back.
    Resolving,
    /// It has been resolved to this source location.
    Cached(Seq<char>),
}

/// What became of a submission.
#[derive(Debug, PartialEq, Eq)]
pub enum Submission {
    /// The fingerprint was in the cache, with this source. The resolution
    /// has been published at once.
    Cached(String),
    /// A resolution of the fingerprint is under way; this submission shares
    /// its outcome.
    Joined,
    /// Nothing was known of the fingerprint. The caller is to resolve it and
    /// to report the outcome with `complete`.
    Started,
}

struct Entry {
    fingerprint: String,
    source: Option<String>,
}

/// The jobs of the pipeline, by fingerprint.
pub struct Ingestion {
    entries: Vec<Entry>,
}

impl Entry {
    spec fn job(self) -> Job {
        match self.source {
            Some(source) => Job::Cached(source@),
            None => Job::Resolving,
        }
    }
}

spec fn listed(entries: Seq<Entry>, key: Seq<char>) -> bool {
    exists|i: int| 0 <= i < entries.len() && (#[trigger] entries[i]).fingerprint@ == key
}

spec fn index_of(entries: Seq<Entry>, key: Seq<char>) -> int {
    choose|i: int| 0 <= i < entries.len() && (#[trigger] entries[i]).fingerprint@ == key
}

spec fn distinct(entries: Seq<Entry>) -> bool {
    forall|i: int, j: int|
        0 <= i < j < entries.len() ==> (#[trigger] entries[i]).fingerprint@ != (
        #[trigger] entries[j]).fingerprint@
}

spec fn as_map(entries: Seq<Entry>) -> Map<Seq<char>, Job> {
    Map::new(|key: Seq<char>| listed(entries, key), |key: Seq<char>| entries[index_of(entries, key)].job())
}

proof fn lemma_entry(entries: Seq<Entry>, i: int)
    requires
        distinct(entries),
        0 <= i < entries.len(),
    ensures
        as_map(entries).contains_key(entries[i].fingerprint@),
        as_map(entries)[entries[i].fingerprint@] == entries[i].job(),
{
    let key = entries[i].fingerprint@;
    assert(listed(entries, key));
    let c = index_of(entries, key);
    assert(c == i);
}

proof fn lemma_pushed(before: Seq<Entry>, entry: Entry)
    requires
        distinct(before),
        !listed(before, entry.fingerprint@),
    ensures
        distinct(before.push(entry)),
        as_map(before.push(entry)) == as_map(before).insert(entry.fingerprint@, entry.job()),
{
    let after = before.push(entry);
    assert forall|i: int, j: int| 0 <= i < j < after.len() implies (#[trigger] after[i]).fingerprint@
        != (#[trigger] after[j]).fingerprint@ by {
        assert(before[i] == after[i]);
        if j < before.len() {
            assert(before[j] == after[j]);
        }
    }
    assert forall|key: Seq<char>| listed(after, key) <==> (listed(before, key) || key
        == entry.fingerprint@) by {
        if listed(before, key) {
            assert(after[index_of(before, key)] == before[index_of(before, key)]);
        }
        if key == entry.fingerprint@ {
            assert(after[before.len() as int].fingerprint@ == key);
        }
        if listed(after, key) && index_of(after, key) < before.len() {
            assert(after[index_of(after, key)] == before[index_of(after, key)]);
        }
    }
    assert forall|key: Seq<char>| listed(after, key) implies as_map(after)[key] == as_map(
        before,
    ).insert(entry.fingerprint@, entry.job())[key] by {
        let i = index_of(after, key);
        lemma_entry(after, i);
        if i < before.len() {
            assert(after[i] == before[i]);
            lemma_entry(before, i);
        }
    }
    assert(as_map(after) =~= as_map(before).insert(entry.fingerprint@, entry.job()));
}

proof fn lemma_updated(before: Seq<Entry>, i: int, entry: Entry)
    requires
        distinct(before),
        0 <= i < before.len(),
        entry.fingerprint@ == before[i].fingerprint@,
    ensures
        distinct(before.update(i, entry)),
        as_map(before.update(i, entry)) == as_map(before).insert(entry.fingerprint@, entry.job()),
{
    let after = before.update(i, entry);
    assert forall|a: int, b: int| 0 <= a < b < after.len() implies (#[trigger] after[a]).fingerprint@
        != (#[trigger] after[b]).fingerprint@ by {
        assert(before[a].fingerprint@ != before[b].fingerprint@);
    }
    assert forall|key: Seq<char>| listed(after, key) <==> listed(before, key) by {
        if listed(before, key) {
            assert(after[index_of(before, key)].fingerprint@ == key);
        }
        if listed(after, key) {
            assert(before[index_of(after, key)].fingerprint@ == key);
        }
    }
    assert(listed(before, entry.fingerprint@));
    assert forall|key: Seq<char>| listed(after, key) implies as_map(after)[key] == as_map(
        before,
    ).insert(entry.fingerprint@, entry.job())[key] by {
        let j = index_of(after, key);
        lemma_entry(after, j);
        lemma_entry(before, j);
    }
    assert(as_map(after) =~= as_map(before).insert(entry.fingerprint@, entry.job()));
}

proof fn lemma_removed(before: Seq<Entry>, i: int)
    requires
        distinct(before),
        0 <= i < before.len(),
    ensures
        distinct(before.remove(i)),
        as_map(before.remove(i)) == as_map(before).remove(before[i].fingerprint@),
{
    let after = before.remove(i);
    let gone = before[i].fingerprint@;
    assert forall|j: int| 0 <= j < after.len() implies #[trigger] after[j] == before[if j < i {
        j
    } else {
        j + 1
    }] by {}
    assert forall|a: int, b: int| 0 <= a < b < after.len() implies (#[trigger] after[a]).fingerprint@
        != (#[trigger] after[b]).fingerprint@ by {
        let a0 = if a < i { a } else { a + 1 };
        let b0 = if b < i { b } else { b + 1 };
        assert(after[a] == before[a0]);
        assert(after[b] == before[b0]);
        assert(before[a0].fingerprint@ != before[b0].fingerprint@);
    }
    assert forall|key: Seq<char>| listed(after, key) <==> (listed(before, key) && key != gone) by {
        if listed(before, key) && key != gone {
            let j = index_of(before, key);
            if j < i {
                assert(after[j] == before[j]);
            } else {
                assert(after[j - 1] == before[j]);
            }
        }
        if listed(after, key) {
            let j = index_of(after, key);
            let j0 = if j < i { j } else { j + 1 };
            assert(after[j] == before[j0]);
            assert(before[j0].fingerprint@ == key);
            if j0 < i {
                assert(before[j0].fingerprint@ != before[i].fingerprint@);
            } else {
                assert(before[i].fingerprint@ != before[j0].fingerprint@);
            }
        }
    }
    assert forall|key: Seq<char>| listed(after, key) implies as_map(after)[key] == as_map(
        before,
    ).remove(gone)[key] by {
        let j = index_of(after, key);
        let j0 = if j < i { j } else { j + 1 };
        assert(after[j] == before[j0]);
        lemma_entry(after, j);
        lemma_entry(before, j0);
    }
    assert(as_map(after) =~= as_map(before).remove(gone));
}

/// The jobs after a submission of `fingerprint`: a fingerprint of which
/// nothing was known is now being resolved; nothing else changes.
pub open spec fn submitted(jobs: Map<Seq<char>, Job>, fingerprint: Seq<char>) -> Map<
    Seq<char>,
    Job,
> {
    if jobs.contains_key(fingerprint) {
        jobs
    } else {
        jobs.insert(fingerprint, Job::Resolving)
    }
}

/// The jobs after one submission for each of `fingerprints`, in order.
pub open spec fn submitted_all(jobs: Map<Seq<char>, Job>, fingerprints: Seq<Seq<char>>) -> Map<
    Seq<char>,
    Job,
>
    decreases fingerprints.len(),
{
    if fingerprints.len() == 0 {
        jobs
    } else {
        submitted(submitted_all(jobs, fingerprints.drop_last()), fingerprints.last())
    }
}

/// How many of the submissions for `fingerprints`, made in order, start a
/// resolution of `fingerprint`.
pub open spec fn resolutions_started(
    jobs: Map<Seq<char>, Job>,
    fingerprints: Seq<Seq<char>>,
    fingerprint: Seq<char>,
) -> nat
    decreases fingerprints.len(),
{
    if fingerprints.len() == 0 {
        0
    } else {
        let before = submitted_all(jobs, fingerprints.drop_last());
        let earlier = resolutions_started(jobs, fingerprints.drop_last(), fingerprint);
        if fingerprints.last() == fingerprint && !before.contains_key(fingerprint) {
            earlier + 1
        } else {
            earlier
        }
    }
}

/// `event` says that `fingerprint` has been resolved to `source`.
pub open spec fn is_resolution(event: VinylEvent, fingerprint: Seq<char>, source: Seq<char>) -> bool {
    match event {
        VinylEvent::Ingestion(IngestionEvent::Resolved(f, s)) => f@ == fingerprint && s@ == source,
        _ => false,
    }
}

/// `event` says that the resolution of `fingerprint` has failed for `reason`.
pub open spec fn is_failure(event: VinylEvent, fingerprint: Seq<char>, reason: Seq<char>) -> bool {
    match event {
        VinylEvent::Ingestion(IngestionEvent::Failed(f, r)) => f@ == fingerprint && r@ == reason,
        _ => false,
    }
}

/// The reason that is published where a resolution came back without a
/// source location.
pub open spec fn missing_source() -> Seq<char> {
    "missing source location"@
}

/// What a resolution's outcome amounts to: the source location, if it came
/// back with one that is not empty, else the reason of the failure.
pub open spec fn settled(outcome: Result<String, String>) -> Result<Seq<char>, Seq<char>> {
    match outcome {
        Ok(source) => if source@.len() > 0 {
            Ok(source@)
        } else {
            Err(missing_source())
        },
        Err(reason) => Err(reason@),
    }
}

/// Single flight: of any number of submissions, in any order and mixed with
/// submissions of other fingerprints, exactly one starts the resolution of a
/// fingerprint of which nothing was known before, and none starts that of
/// one which was known. Afterwards the fingerprint is known.
pub proof fn lemma_single_flight(
    jobs: Map<Seq<char>, Job>,
    fingerprints: Seq<Seq<char>>,
    fingerprint: Seq<char>,
)
    ensures
        jobs.contains_key(fingerprint) ==> resolutions_started(jobs, fingerprints, fingerprint)
            == 0,
        !jobs.contains_key(fingerprint) && fingerprints.contains(fingerprint)
            ==> resolutions_started(jobs, fingerprints, fingerprint) == 1,
        !jobs.contains_key(fingerprint) && !fingerprints.contains(fingerprint)
            ==> resolutions_started(jobs, fingerprints, fingerprint) == 0,
        submitted_all(jobs, fingerprints).contains_key(fingerprint) <==> jobs.contains_key(
            fingerprint,
        ) || fingerprints.contains(fingerprint),
    decreases fingerprints.len(),
{
    if fingerprints.len() > 0 {
        let earlier = fingerprints.drop_last();
        lemma_single_flight(jobs, earlier, fingerprint);
        assert(fingerprints.contains(fingerprint) <==> earlier.contains(fingerprint)
            || fingerprints.last() == fingerprint) by {
            if earlier.contains(fingerprint) {
                let i = choose|i: int| 0 <= i < earlier.len() && earlier[i] == fingerprint;
                assert(fingerprints[i] == fingerprint);
            }
            if fingerprints.contains(fingerprint) {
                let i = choose|i: int| 0 <= i < fingerprints.len() && fingerprints[i] == fingerprint;
                if i < fingerprints.len() - 1 {
                    assert(earlier[i] == fingerprint);
                }
            }
            if fingerprints.last() == fingerprint {
                assert(fingerprints[fingerprints.len() - 1] == fingerprint);
            }
        }
    }
}

impl View for Ingestion {
    type V = Map<Seq<char>, Job>;

    closed spec fn view(&self) -> Map<Seq<char>, Job> {
        as_map(self.entries@)
    }
}

impl Ingestion {
    /// No fingerprint is listed twice, and no cached source is empty.
    pub closed spec fn wf(&self) -> bool {
        &&& distinct(self.entries@)
        &&& forall|i: int|
            0 <= i < self.entries@.len() ==> match (#[trigger] self.entries@[i]).source {
                Some(source) => source@.len() > 0,
                None => true,
            }
    }

    /// A pipeline that knows of no fingerprint.
    pub fn new() -> (pipeline: Ingestion)
        ensures
            pipeline.wf(),
            pipeline@ == Map::<Seq<char>, Job>::empty(),
    {
        let pipeline = Ingestion { entries: Vec::new() };
        proof {
            assert(pipeline@ =~= Map::<Seq<char>, Job>::empty());
        }
        pipeline
    }

    /// Every cached source is a location that is not empty.
    pub proof fn lemma_cached_sources(&self, fingerprint: Seq<char>)
        requires
            self.wf(),
            self@.contains_key(fingerprint),
        ensures
            match self@[fingerprint] {
                Job::Cached(source) => source.len() > 0,
                Job::Resolving => true,
            },
    {
        let i = index_of(self.entries@, fingerprint);
        assert(listed(self.entries@, fingerprint));
        lemma_entry(self.entries@, i);
    }

    fn find(&self, fingerprint: &String) -> (found: Option<usize>)
        requires
            self.wf(),
        ensures
            match found {
                Some(i) => i < self.entries@.len() && self.entries@[i as int].fingerprint@
                    == fingerprint@ && self@.contains_key(fingerprint@) && self@[fingerprint@]
                    == self.entries@[i as int].job(),
                None => !self@.contains_key(fingerprint@),
            },
    {
        let mut i: usize = 0;
        while i < self.entries.len()
            invariant
                self.wf(),
                i <= self.entries@.len(),
                forall|j: int| 0 <= j < i ==> (#[trigger] self.entries@[j]).fingerprint@ != fingerprint@,
            decreases self.entries@.len() - i,
        {
            if self.entries[i].fingerprint == *fingerprint {
                proof {
                    lemma_entry(self.entries@, i as int);
                }
                return Some(i);
            }
            i += 1;
        }
        None
    }

    /// The source that `fingerprint` is cached with, if it is.
    pub fn cached(&self, fingerprint: &String) -> (source: Option<String>)
        requires
            self.wf(),
        ensures
            match source {
                Some(source) => self@.contains_key(fingerprint@) && self@[fingerprint@]
                    == Job::Cached(source@),
                None => !self@.contains_key(fingerprint@) || self@[fingerprint@] == Job::Resolving,
            },
    {
        match self.find(fingerprint) {
            Some(i) => match &self.entries[i].source {
                Some(source) => Some(source.clone()),
                None => None,
            },
            None => None,
        }
    }

    /// Whether a resolution of `fingerprint` is under way.
    pub fn in_flight(&self, fingerprint: &String) -> (resolving: bool)
        requires
            self.wf(),
        ensures
            resolving == (self@.contains_key(fingerprint@) && self@[fingerprint@]
                == Job::Resolving),
    {
        match self.find(fingerprint) {
            Some(i) => self.entries[i].source.is_none(),
            None => false,
        }
    }

    /// Takes the submission of `input` into account. A fingerprint in the
    /// cache is published as resolved at once, with the cached source. One
    /// whose resolution is under way joins it. For any other, a resolution
    /// is now under way, and it is for the caller to carry it out.
    pub fn submit(&mut self, emitter: &mut Emitter, input: &Input) -> (submission: Submission)
        requires
            old(self).wf(),
        ensures
            final(self).wf(),
            final(self)@ == submitted(old(self)@, fingerprint_of(input@)),
            match submission {
                Submission::Cached(source) => {
                    &&& old(self)@.contains_key(fingerprint_of(input@))
                    &&& old(self)@[fingerprint_of(input@)] == Job::Cached(source@)
                    &&& final(emitter)@.len() == old(emitter)@.len() + 1
                    &&& final(emitter)@.drop_last() == old(emitter)@
                    &&& is_resolution(final(emitter)@.last(), fingerprint_of(input@), source@)
                },
                Submission::Joined => {
                    &&& old(self)@.contains_key(fingerprint_of(input@))
                    &&& old(self)@[fingerprint_of(input@)] == Job::Resolving
                    &&& final(emitter)@ == old(emitter)@
                },
                Submission::Started => {
                    &&& !old(self)@.contains_key(fingerprint_of(input@))
                    &&& final(emitter)@ == old(emitter)@
                },
            },
    {
        let fingerprint = input.fingerprint();
        match self.find(&fingerprint) {
            Some(i) => match &self.entries[i].source {
                Some(source) => {
                    let source = source.clone();
                    emitter.emit(
                        VinylEvent::Ingestion(IngestionEvent::Resolved(fingerprint, source.clone())),
                    );
                    proof {
                        assert(emitter@.drop_last() =~= old(emitter)@);
                    }
                    Submission::Cached(source)
                },
                None => Submission::Joined,
            },
            None => {
                proof {
                    lemma_pushed(self.entries@, Entry { fingerprint, source: None });
                }
                self.entries.push(Entry { fingerprint, source: None });
                Submission::Started
            },
        }
    }

    /// Takes the outcome of the resolution of `fingerprint` into account and
    /// publishes it. Returns whether such a resolution was under way; where
    /// none was, nothing changes and nothing is published. A source that is
    /// not empty is cached. A failure, and a source that is empty, leave
    /// nothing behind: a later submission starts anew.
    pub fn complete(
        &mut self,
        emitter: &mut Emitter,
        fingerprint: &String,
        outcome: Result<String, String>,
    ) -> (expected: bool)
        requires
            old(self).wf(),
        ensures
            final(self).wf(),
            expected == (old(self)@.contains_key(fingerprint@) && old(self)@[fingerprint@]
                == Job::Resolving),
            !expected ==> final(self)@ == old(self)@ && final(emitter)@ == old(emitter)@,
            expected ==> {
                &&& final(emitter)@.len() == old(emitter)@.len() + 1
                &&& final(emitter)@.drop_last() == old(emitter)@
                &&& match settled(outcome) {
                    Ok(source) => {
                        &&& final(self)@ == old(self)@.insert(fingerprint@, Job::Cached(source))
                        &&& is_resolution(final(emitter)@.last(), fingerprint@, source)
                    },
                    Err(reason) => {
                        &&& final(self)@ == old(self)@.remove(fingerprint@)
                        &&& is_failure(final(emitter)@.last(), fingerprint@, reason)
                    },
                }
            },
    {
        let i = match self.find(fingerprint) {
            Some(i) => i,
            None => {
                return false;
            },
        };
        if self.entries[i].source.is_some() {
            return false;
        }
        let cached: Option<String> = match &outcome {
            Ok(source) => if source.as_str().is_empty() {
                None
            } else {
                Some(source.clone())
            },
            Err(_) => None,
        };
        match cached {
            Some(source) => {
                self.entries[i].source = Some(source.clone());
                emitter.emit(
                    VinylEvent::Ingestion(IngestionEvent::Resolved(fingerprint.clone(), source)),
                );
                proof {
                    let entry = self.entries@[i as int];
                    assert(emitter@.drop_last() =~= old(emitter)@);
                    assert(self.entries@ =~= old(self).entries@.update(i as int, entry));
                    lemma_updated(old(self).entries@, i as int, entry);
                }
            },
            None => {
                let reason = match outcome {
                    Ok(_) => "missing source location".to_string(),
                    Err(reason) => reason,
                };
                self.entries.remove(i);
                emitter.emit(VinylEvent::Ingestion(IngestionEvent::Failed(fingerprint.clone(), reason)));
                proof {
                    assert(emitter@.drop_last() =~= old(emitter)@);
                    lemma_removed(old(self).entries@, i as int);
                    assert forall|j: int| 0 <= j < self.entries@.len() implies match (
                    #[trigger] self.entries@[j]).source {
                        Some(source) => source@.len() > 0,
                        None => true,
                    } by {
                        assert(self.entries@[j] == old(self).entries@[if j < i {
                            j
                        } else {
                            j + 1
                        }]);
                    }
                }
            },
        }
        true
    }
}

} // verus!

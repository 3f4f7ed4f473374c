//! Tracks: what a queue holds. A track is pending from the moment it is
//! submitted, and becomes resolved or failed when its ingestion completes.

use crate::input::{described, fingerprint_of, Input};
use vstd::prelude::*;

verus! {

/// How far the ingestion of a track has come.
#[derive(Debug, PartialEq, Eq)]
pub enum TrackStatus {
    /// Submitted; no playable source is known yet.
    Pending,
    /// Ready to play from the given source location.
    Resolved(String),
    /// Ingestion gave up, for the given reason. Nothing retries it.
    Failed(String),
}

/// An entry of a queue.
#[derive(Debug, PartialEq, Eq)]
pub struct Track {
    pub input: Input,
    pub status: TrackStatus,
}

/// How far a track has come, as a queue listing shows it.
#[derive(Debug, PartialEq, Eq)]
pub enum Resolution {
    Pending,
    Resolved,
    Failed(String),
}

/// A track as a queue listing shows it.
#[derive(Debug, PartialEq, Eq)]
pub struct SerializedTrack {
    /// Title and channel, as a listener reads them.
    pub name: String,
    pub resolution: Resolution,
}

impl Clone for TrackStatus {
    fn clone(&self) -> (r: Self)
        ensures
            r == *self,
    {
        match self {
            TrackStatus::Pending => TrackStatus::Pending,
            TrackStatus::Resolved(source) => TrackStatus::Resolved(source.clone()),
            TrackStatus::Failed(reason) => TrackStatus::Failed(reason.clone()),
        }
    }
}

impl Clone for Resolution {
    fn clone(&self) -> (r: Self)
        ensures
            r == *self,
    {
        match self {
            Resolution::Pending => Resolution::Pending,
            Resolution::Resolved => Resolution::Resolved,
            Resolution::Failed(reason) => Resolution::Failed(reason.clone()),
        }
    }
}

impl Clone for SerializedTrack {
    fn clone(&self) -> (r: Self)
        ensures
            r == *self,
    {
        SerializedTrack { name: self.name.clone(), resolution: self.resolution.clone() }
    }
}

impl Clone for Track {
    fn clone(&self) -> (r: Self)
        ensures
            r == *self,
    {
        Track { input: self.input.clone(), status: self.status.clone() }
    }
}

impl TrackStatus {
    /// The status as a listing shows it: the source location is left out.
    pub open spec fn resolution(self) -> Resolution {
        match self {
            TrackStatus::Pending => Resolution::Pending,
            TrackStatus::Resolved(_) => Resolution::Resolved,
            TrackStatus::Failed(reason) => Resolution::Failed(reason),
        }
    }
}

impl Track {
    /// A resolved track has a source location that is not empty.
    pub open spec fn wf(self) -> bool {
        match self.status {
            TrackStatus::Resolved(source) => source@.len() > 0,
            _ => true,
        }
    }

    /// The track is pending and waits for the ingestion of `fingerprint`.
    pub open spec fn awaits(self, fingerprint: Seq<char>) -> bool {
        self.status is Pending && fingerprint_of(self.input@) == fingerprint
    }

    /// The track after the ingestion of `fingerprint` has yielded `source`:
    /// resolved if it waited for that, and unchanged if not.
    pub open spec fn promoted(self, fingerprint: Seq<char>, source: String) -> Track {
        if self.awaits(fingerprint) {
            Track { input: self.input, status: TrackStatus::Resolved(source) }
        } else {
            self
        }
    }

    /// The track after the ingestion of `fingerprint` has failed for
    /// `reason`: failed if it waited for that, and unchanged if not.
    pub open spec fn rejected(self, fingerprint: Seq<char>, reason: String) -> Track {
        if self.awaits(fingerprint) {
            Track { input: self.input, status: TrackStatus::Failed(reason) }
        } else {
            self
        }
    }

    /// The source location of a resolved track.
    pub open spec fn playable(self) -> Option<String> {
        match self.status {
            TrackStatus::Resolved(source) => Some(source),
            _ => None,
        }
    }

    /// The placeholder that enters a queue when `input` is submitted.
    pub fn pending(input: Input) -> (track: Track)
        ensures
            track == (Track { input, status: TrackStatus::Pending }),
            track.wf(),
    {
        Track { input, status: TrackStatus::Pending }
    }

    /// Whether the track is pending and waits for `fingerprint`.
    pub fn is_waiting_for(&self, fingerprint: &String) -> (b: bool)
        ensures
            b == self.awaits(fingerprint@),
    {
        match self.status {
            TrackStatus::Pending => {
                let own = self.input.fingerprint();
                own == *fingerprint
            },
            _ => false,
        }
    }

    /// The source location to play the track from, once it is resolved.
    pub fn source(&self) -> (source: Option<&String>)
        ensures
            match source {
                Some(s) => self.playable() == Some(*s),
                None => self.playable() is None,
            },
    {
        match &self.status {
            TrackStatus::Resolved(source) => Some(source),
            _ => None,
        }
    }

    /// The track as a queue listing shows it.
    pub fn serialized(&self) -> (entry: SerializedTrack)
        ensures
            entry.name@ == described(self.input@),
            entry.resolution == self.status.resolution(),
    {
        let resolution = match &self.status {
            TrackStatus::Pending => Resolution::Pending,
            TrackStatus::Resolved(_) => Resolution::Resolved,
            TrackStatus::Failed(reason) => Resolution::Failed(reason.clone()),
        };
        SerializedTrack { name: self.input.to_string(), resolution }
    }
}

} // verus!

//! What a user submits to a room: a reference to a track on one of the known
//! sources, together with the metadata that was looked up for it.

use crate::url::{is_video_url, is_youtube_video_url};
use vstd::prelude::*;
use vstd::string::StringExecFns;

verus! {

/// One of the encodings in which a video is offered.
#[derive(Debug, PartialEq, Eq)]
pub struct Format {
    /// The name of the encoding.
    pub format: Option<String>,
    /// Where the encoded stream can be fetched.
    pub url: Option<String>,
}

/// The metadata of a single video, as the lookup tool reports it.
#[derive(Debug, PartialEq, Eq)]
pub struct VideoInfo {
    pub id: String,
    pub title: String,
    pub channel: Option<String>,
    /// The name of the encoding that the tool chose.
    pub format: Option<String>,
    /// All encodings on offer.
    pub formats: Option<Vec<Format>>,
}

/// What a metadata lookup for a URL came back with.
#[derive(Debug, PartialEq, Eq)]
pub enum Lookup {
    /// The lookup did not succeed.
    Failed,
    /// The URL names a playlist, not a video.
    Playlist,
    /// The URL names one video.
    SingleVideo(VideoInfo),
}

/// A video with everything needed to queue and play it.
#[derive(Debug, PartialEq, Eq)]
pub struct YouTubeVideo {
    id: String,
    title: String,
    channel: String,
    audio_stream_url: String,
}

/// The fields of a `YouTubeVideo`, as sequences of characters.
pub struct VideoView {
    pub id: Seq<char>,
    pub title: Seq<char>,
    pub channel: Seq<char>,
    pub audio_stream_url: Seq<char>,
}

/// A submitted track, tagged by the source it comes from.
#[derive(Debug, PartialEq, Eq)]
pub enum Input {
    YouTube(YouTubeVideo),
}

/// The sources that submissions can come from.
#[derive(Debug, Clone, Copy, PartialEq, Eq, Structural)]
pub enum SourceKind {
    YouTube,
}

/// Two optional names are the same: both absent, or both present with the
/// same characters.
pub open spec fn same_name(a: Option<String>, b: Option<String>) -> bool {
    match (a, b) {
        (None, None) => true,
        (Some(x), Some(y)) => x@ == y@,
        _ => false,
    }
}

/// The first of `formats` that goes by `name`.
pub open spec fn chosen_format(formats: Seq<Format>, name: Option<String>) -> Option<Format>
    decreases formats.len(),
{
    if formats.len() == 0 {
        None
    } else if same_name(formats[0].format, name) {
        Some(formats[0])
    } else {
        chosen_format(formats.drop_first(), name)
    }
}

/// The video that a lookup yields: the lookup found a single video, its list
/// of encodings holds one that goes by the chosen encoding's name, and the
/// first such has a stream URL. A missing channel name reads `Unknown`.
pub open spec fn video_of(lookup: Lookup) -> Option<VideoView> {
    match lookup {
        Lookup::SingleVideo(info) => match info.formats {
            Some(formats) => match chosen_format(formats@, info.format) {
                Some(Format { url: Some(url), .. }) => Some(
                    VideoView {
                        id: info.id@,
                        title: info.title@,
                        channel: match info.channel {
                            Some(channel) => channel@,
                            None => "Unknown"@,
                        },
                        audio_stream_url: url@,
                    },
                ),
                _ => None,
            },
            None => None,
        },
        _ => None,
    }
}

/// A video as a listener reads it: title, ` by `, channel.
pub open spec fn described(video: VideoView) -> Seq<char> {
    video.title + " by "@ + video.channel
}

/// The fingerprint of a video: its title, and nothing else of it.
pub open spec fn fingerprint_of(video: VideoView) -> Seq<char> {
    video.title
}

/// Fingerprint determinism: two videos with the same title have the same
/// fingerprint, whatever else tells them apart.
pub proof fn lemma_fingerprint_determined_by_title(a: VideoView, b: VideoView)
    requires
        a.title == b.title,
    ensures
        fingerprint_of(a) == fingerprint_of(b),
{
}

/// The parsers that a submission is tried against, in order of priority.
pub open spec fn parsers() -> Seq<SourceKind> {
    seq![SourceKind::YouTube]
}

/// The first of `kinds` that recognizes `reference`.
pub open spec fn first_accepting(kinds: Seq<SourceKind>, reference: Seq<char>) -> Option<
    SourceKind,
>
    decreases kinds.len(),
{
    if kinds.len() == 0 {
        None
    } else if kinds[0].accepts(reference) {
        Some(kinds[0])
    } else {
        first_accepting(kinds.drop_first(), reference)
    }
}

/// The source kind that a reference is taken for: that of the first parser in
/// the registry that recognizes it.
pub open spec fn recognized(reference: Seq<char>) -> Option<SourceKind> {
    first_accepting(parsers(), reference)
}

/// What a reference and the lookup made for it parse to.
pub open spec fn parsed(reference: Seq<char>, lookup: Lookup) -> Option<VideoView> {
    match recognized(reference) {
        Some(SourceKind::YouTube) => video_of(lookup),
        None => None,
    }
}

impl Clone for Format {
    fn clone(&self) -> (r: Self)
        ensures
            r == *self,
    {
        Format { format: self.format.clone(), url: self.url.clone() }
    }
}

impl Clone for YouTubeVideo {
    fn clone(&self) -> (r: Self)
        ensures
            r == *self,
    {
        YouTubeVideo {
            id: self.id.clone(),
            title: self.title.clone(),
            channel: self.channel.clone(),
            audio_stream_url: self.audio_stream_url.clone(),
        }
    }
}

impl Clone for Input {
    fn clone(&self) -> (r: Self)
        ensures
            r == *self,
    {
        match self {
            Input::YouTube(video) => Input::YouTube(video.clone()),
        }
    }
}

impl View for YouTubeVideo {
    type V = VideoView;

    closed spec fn view(&self) -> VideoView {
        VideoView {
            id: self.id@,
            title: self.title@,
            channel: self.channel@,
            audio_stream_url: self.audio_stream_url@,
        }
    }
}

impl SourceKind {
    /// Whether references of this shape belong to the source.
    pub open spec fn accepts(self, reference: Seq<char>) -> bool {
        match self {
            SourceKind::YouTube => is_youtube_video_url(reference),
        }
    }

    /// Whether `reference` has the shape of a reference to this source.
    pub fn recognizes(&self, reference: &str) -> (b: bool)
        ensures
            b == self.accepts(reference@),
    {
        match self {
            SourceKind::YouTube => YouTubeVideo::is_valid_url(reference),
        }
    }

    /// The parser registry: every source kind, in the order in which a
    /// submission is tried against them.
    pub fn registry() -> (kinds: Vec<SourceKind>)
        ensures
            kinds@ == parsers(),
    {
        let mut kinds: Vec<SourceKind> = Vec::new();
        kinds.push(SourceKind::YouTube);
        proof {
            assert(kinds@ =~= parsers());
        }
        kinds
    }

    /// The source kind that `reference` belongs to, by the first parser of
    /// the registry that recognizes it; `None` where none does.
    pub fn recognize(reference: &str) -> (kind: Option<SourceKind>)
        ensures
            kind == recognized(reference@),
    {
        let kinds = SourceKind::registry();
        let mut i: usize = 0;
        proof {
            assert(kinds@ =~= kinds@.skip(0));
        }
        while i < kinds.len()
            invariant
                i <= kinds.len(),
                first_accepting(kinds@, reference@) == first_accepting(
                    kinds@.skip(i as int),
                    reference@,
                ),
                kinds@ == parsers(),
            decreases kinds.len() - i,
        {
            proof {
                assert(kinds@.skip(i as int).drop_first() =~= kinds@.skip(i + 1));
            }
            if kinds[i].recognizes(reference) {
                return Some(kinds[i]);
            }
            i += 1;
        }
        None
    }
}

/// Whether two optional names are the same.
fn names_match(a: &Option<String>, b: &Option<String>) -> (r: bool)
    ensures
        r == same_name(*a, *b),
{
    match (a, b) {
        (None, None) => true,
        (Some(x), Some(y)) => *x == *y,
        _ => false,
    }
}

/// The first of `formats` that goes by `name`.
fn choose_format<'a>(formats: &'a Vec<Format>, name: &Option<String>) -> (r: Option<&'a Format>)
    ensures
        match r {
            Some(format) => chosen_format(formats@, *name) == Some(*format),
            None => chosen_format(formats@, *name) is None,
        },
{
    let mut i: usize = 0;
    proof {
        assert(formats@ =~= formats@.skip(0));
    }
    while i < formats.len()
        invariant
            i <= formats.len(),
            chosen_format(formats@, *name) == chosen_format(formats@.skip(i as int), *name),
        decreases formats.len() - i,
    {
        proof {
            assert(formats@.skip(i as int).drop_first() =~= formats@.skip(i + 1));
        }
        if names_match(&formats[i].format, name) {
            return Some(&formats[i]);
        }
        i += 1;
    }
    None
}

impl YouTubeVideo {
    /// The key under which this video is cached: its title.
    pub fn fingerprint(&self) -> (key: String)
        ensures
            key@ == fingerprint_of(self@),
    {
        self.title.clone()
    }

    /// The video that `lookup` describes, if `url` is the URL of a YouTube
    /// video and the lookup found one with a stream to play.
    pub fn from_url(url: &str, lookup: &Lookup) -> (video: Option<Self>)
        ensures
            match video {
                Some(v) => is_youtube_video_url(url@) && video_of(*lookup) == Some(v@),
                None => !is_youtube_video_url(url@) || video_of(*lookup) is None,
            },
    {
        if !Self::is_valid_url(url) {
            return None;
        }
        Self::from_lookup(lookup)
    }

    /// The video that `lookup` describes: `None` unless the lookup found a
    /// single video whose chosen encoding is on offer with a stream URL.
    pub fn from_lookup(lookup: &Lookup) -> (video: Option<Self>)
        ensures
            match video {
                Some(v) => video_of(*lookup) == Some(v@),
                None => video_of(*lookup) is None,
            },
    {
        let info = match lookup {
            Lookup::SingleVideo(info) => info,
            _ => {
                return None;
            },
        };
        let formats = match &info.formats {
            Some(formats) => formats,
            None => {
                return None;
            },
        };
        let format = match choose_format(formats, &info.format) {
            Some(format) => format,
            None => {
                return None;
            },
        };
        let audio_stream_url = match &format.url {
            Some(url) => url.clone(),
            None => {
                return None;
            },
        };
        let channel = match &info.channel {
            Some(channel) => channel.clone(),
            None => "Unknown".to_string(),
        };
        Some(
            YouTubeVideo {
                id: info.id.clone(),
                title: info.title.clone(),
                channel,
                audio_stream_url,
            },
        )
    }

    /// Returns true if this is a valid YouTube video url.
    pub fn is_valid_url(url: &str) -> (b: bool)
        ensures
            b == is_youtube_video_url(url@),
    {
        is_video_url(url)
    }

    /// The video as a listener reads it: title, ` by `, channel.
    pub fn to_string(&self) -> (text: String)
        ensures
            text@ == described(self@),
    {
        let mut text = self.title.clone();
        text.append(" by ");
        text.append(self.channel.as_str());
        text
    }

    /// Where the audio of this video can be fetched.
    pub fn audio_stream_url(&self) -> (url: &String)
        ensures
            url@ == self@.audio_stream_url,
    {
        &self.audio_stream_url
    }
}

impl View for Input {
    type V = VideoView;

    open spec fn view(&self) -> VideoView {
        match self {
            Input::YouTube(video) => video@,
        }
    }
}

impl Input {
    /// Returns the fingerprint used to check if this is already in cache.
    pub fn fingerprint(&self) -> (key: String)
        ensures
            key@ == fingerprint_of(self@),
    {
        match self {
            Input::YouTube(v) => v.fingerprint(),
        }
    }

    /// The input that `reference` and the lookup made for it stand for:
    /// `None` where no parser of the registry recognizes the reference, or
    /// the lookup yields nothing playable.
    pub fn parse(reference: &str, lookup: &Lookup) -> (input: Option<Self>)
        ensures
            match input {
                Some(i) => parsed(reference@, *lookup) == Some(i@),
                None => parsed(reference@, *lookup) is None,
            },
    {
        match SourceKind::recognize(reference) {
            Some(SourceKind::YouTube) => match YouTubeVideo::from_lookup(lookup) {
                Some(video) => Some(Input::YouTube(video)),
                None => None,
            },
            None => None,
        }
    }

    /// The input as a listener reads it.
    pub fn to_string(&self) -> (text: String)
        ensures
            text@ == described(self@),
    {
        match self {
            Input::YouTube(video) => video.to_string(),
        }
    }
}

/// The text of an input is what a listener reads of it.
impl From<&Input> for String {
    fn from(x: &Input) -> (text: String)
        ensures
            text@ == described(x@),
    {
        x.to_string()
    }
}

/// A `String` cannot be named in specifications by its characters, so the
/// conversion states its result on `from` itself, by the result's view.
impl vstd::std_specs::convert::FromSpecImpl<&Input> for String {
    open spec fn obeys_from_spec() -> bool {
        false
    }

    open spec fn from_spec(x: &Input) -> String {
        arbitrary()
    }
}

} // verus!

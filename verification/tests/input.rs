use vinyl::input::{Format, Input, Lookup, SourceKind, VideoInfo, YouTubeVideo};

fn format(name: Option<&str>, url: Option<&str>) -> Format {
    Format {
        format: name.map(|n| n.to_string()),
        url: url.map(|u| u.to_string()),
    }
}

fn single(title: &str, channel: Option<&str>, chosen: Option<&str>, formats: Option<Vec<Format>>) -> Lookup {
    Lookup::SingleVideo(VideoInfo {
        id: "RiZ_5jo9WBg".to_string(),
        title: title.to_string(),
        channel: channel.map(|c| c.to_string()),
        format: chosen.map(|c| c.to_string()),
        formats,
    })
}

#[test]
fn test_url() {
    assert!(YouTubeVideo::is_valid_url(
        "https://www.youtube.com/watch?v=RiZ_5jo9WBg"
    ));
    assert!(YouTubeVideo::is_valid_url(
        "https://youtube.com/watch?v=RiZ_5jo9WBg"
    ));
    assert!(YouTubeVideo::is_valid_url(
        "youtube.com/watch?v=RiZ_5jo9WBg"
    ));

    assert!(!YouTubeVideo::is_valid_url(
        "yourtube.com/watch?v=RiZ_5jo9WBg"
    ));
    assert!(!YouTubeVideo::is_valid_url("https://google.com"));
    assert!(!YouTubeVideo::is_valid_url("kpofkagt"));
}

#[test]
fn reference_validity_of_the_named_examples() {
    assert!(YouTubeVideo::is_valid_url("https://www.youtube.com/watch?v=X"));
    assert!(YouTubeVideo::is_valid_url("https://youtube.com/watch?v=X"));
    assert!(YouTubeVideo::is_valid_url("youtube.com/watch?v=X"));
    assert!(!YouTubeVideo::is_valid_url("yourtube.com/watch?v=X"));
    assert!(!YouTubeVideo::is_valid_url("https://google.com"));
    assert!(!YouTubeVideo::is_valid_url("kpofkagt"));
}

#[test]
fn short_links_need_a_path() {
    assert!(YouTubeVideo::is_valid_url("youtu.be/RiZ_5jo9WBg"));
    assert!(YouTubeVideo::is_valid_url("https://youtu.be/RiZ_5jo9WBg"));
    assert!(YouTubeVideo::is_valid_url("https://www.youtu.be/"));
    assert!(!YouTubeVideo::is_valid_url("youtu.be"));
    assert!(!YouTubeVideo::is_valid_url("https://youtu.be"));
}

#[test]
fn the_path_must_begin_with_watch() {
    assert!(YouTubeVideo::is_valid_url("youtube.com/watch?v="));
    assert!(YouTubeVideo::is_valid_url("youtube.com/watch?v=a/b/c"));
    assert!(!YouTubeVideo::is_valid_url("youtube.com/watch"));
    assert!(!YouTubeVideo::is_valid_url("youtube.com/"));
    assert!(!YouTubeVideo::is_valid_url("youtube.com"));
    assert!(!YouTubeVideo::is_valid_url("youtube.com//watch?v=X"));
    assert!(!YouTubeVideo::is_valid_url("youtube.com/x/watch?v=X"));
    assert!(!YouTubeVideo::is_valid_url(""));
}

#[test]
fn scheme_and_www_are_cut_at_their_first_occurrence() {
    assert!(YouTubeVideo::is_valid_url("anything://youtube.com/watch?v=X"));
    assert!(YouTubeVideo::is_valid_url("junkwww.youtube.com/watch?v=X"));
    assert!(YouTubeVideo::is_valid_url("://www.youtube.com/watch?v=X"));
    assert!(!YouTubeVideo::is_valid_url("a://b://youtube.com/watch?v=X"));
    assert!(!YouTubeVideo::is_valid_url("www.www.youtube.com/watch?v=X"));
    assert!(!YouTubeVideo::is_valid_url("https://www.youtube.comwatch?v=X"));
    assert!(!YouTubeVideo::is_valid_url("Youtube.com/watch?v=X"));
}

#[test]
fn a_lookup_yields_the_chosen_format() {
    let lookup = single(
        "Song",
        Some("Band"),
        Some("251 - audio only"),
        Some(vec![
            format(Some("140 - audio only"), Some("https://cdn/140")),
            format(Some("251 - audio only"), Some("https://cdn/251")),
            format(Some("251 - audio only"), Some("https://cdn/other")),
        ]),
    );
    let video = YouTubeVideo::from_lookup(&lookup).unwrap();
    assert_eq!(video.audio_stream_url(), "https://cdn/251");
    assert_eq!(video.fingerprint(), "Song");
    assert_eq!(video.to_string(), "Song by Band");
}

#[test]
fn a_missing_channel_reads_unknown() {
    let lookup = single("Song", None, Some("f"), Some(vec![format(Some("f"), Some("u"))]));
    let video = YouTubeVideo::from_lookup(&lookup).unwrap();
    assert_eq!(video.to_string(), "Song by Unknown");
}

#[test]
fn a_lookup_without_a_playable_format_yields_nothing() {
    assert_eq!(YouTubeVideo::from_lookup(&Lookup::Failed), None);
    assert_eq!(YouTubeVideo::from_lookup(&Lookup::Playlist), None);
    assert_eq!(YouTubeVideo::from_lookup(&single("S", None, Some("f"), None)), None);
    assert_eq!(
        YouTubeVideo::from_lookup(&single("S", None, Some("f"), Some(vec![]))),
        None
    );
    assert_eq!(
        YouTubeVideo::from_lookup(&single(
            "S",
            None,
            Some("f"),
            Some(vec![format(Some("g"), Some("u")), format(None, Some("v"))])
        )),
        None
    );
}

#[test]
fn only_the_first_format_of_the_chosen_name_counts() {
    let lookup = single(
        "S",
        None,
        Some("f"),
        Some(vec![format(Some("f"), None), format(Some("f"), Some("u"))]),
    );
    assert_eq!(YouTubeVideo::from_lookup(&lookup), None);
}

#[test]
fn an_unnamed_choice_matches_an_unnamed_format() {
    let lookup = single(
        "S",
        None,
        None,
        Some(vec![format(Some("f"), Some("named")), format(None, Some("unnamed"))]),
    );
    let video = YouTubeVideo::from_lookup(&lookup).unwrap();
    assert_eq!(video.audio_stream_url(), "unnamed");
}

#[test]
fn from_url_needs_a_valid_url_and_a_playable_lookup() {
    let lookup = single("S", Some("C"), Some("f"), Some(vec![format(Some("f"), Some("u"))]));
    assert!(YouTubeVideo::from_url("youtube.com/watch?v=X", &lookup).is_some());
    assert_eq!(YouTubeVideo::from_url("yourtube.com/watch?v=X", &lookup), None);
    assert_eq!(YouTubeVideo::from_url("youtube.com/watch?v=X", &Lookup::Failed), None);
}

#[test]
fn videos_that_share_a_title_share_a_fingerprint() {
    let one = Lookup::SingleVideo(VideoInfo {
        id: "first".to_string(),
        title: "Same Title".to_string(),
        channel: Some("One".to_string()),
        format: Some("f".to_string()),
        formats: Some(vec![format(Some("f"), Some("https://one"))]),
    });
    let other = Lookup::SingleVideo(VideoInfo {
        id: "second".to_string(),
        title: "Same Title".to_string(),
        channel: Some("Other".to_string()),
        format: Some("f".to_string()),
        formats: Some(vec![format(Some("f"), Some("https://other"))]),
    });
    let a = Input::parse("youtube.com/watch?v=first", &one).unwrap();
    let b = Input::parse("youtu.be/second", &other).unwrap();
    assert_ne!(a, b);
    assert_eq!(a.fingerprint(), b.fingerprint());
    assert_eq!(a.fingerprint(), "Same Title");
}

#[test]
fn parse_goes_by_the_registry() {
    let lookup = single("S", Some("C"), Some("f"), Some(vec![format(Some("f"), Some("u"))]));
    assert_eq!(SourceKind::registry(), vec![SourceKind::YouTube]);
    assert_eq!(SourceKind::recognize("youtu.be/x"), Some(SourceKind::YouTube));
    assert_eq!(SourceKind::recognize("https://google.com"), None);
    assert!(SourceKind::YouTube.recognizes("youtube.com/watch?v=1"));
    let input = Input::parse("https://www.youtube.com/watch?v=X", &lookup).unwrap();
    assert_eq!(input.to_string(), "S by C");
    assert_eq!(String::from(&input), "S by C");
    assert!(matches!(input, Input::YouTube(_)));
    assert_eq!(Input::parse("https://google.com", &lookup), None);
    assert_eq!(Input::parse("youtu.be/x", &Lookup::Playlist), None);
}

#[test]
fn a_clone_is_the_same_input() {
    let lookup = single("S", Some("C"), Some("f"), Some(vec![format(Some("f"), Some("u"))]));
    let input = Input::parse("youtu.be/x", &lookup).unwrap();
    assert_eq!(input.clone(), input);
}

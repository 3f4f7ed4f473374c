use vinyl::audio::{PlaybackState, Progress};
use vinyl::bus::Subscriber;
use vinyl::events::{AudioEvent, Emitter, IngestionEvent, QueueEvent, RoomEvent};
use vinyl::ingest::Submission;
use vinyl::input::{Format, Input, Lookup, VideoInfo};
use vinyl::rooms::{RestoreError, Room};
use vinyl::router::{
    add_input, create_room, get_room, get_room_queue, get_room_stream, get_rooms, stream_headers,
    wants_lookup, Added,
};
use vinyl::store::Store;
use vinyl::track::Resolution;
use vinyl::util::{ApiError, DatabaseError, ParseError, Resource};
use vinyl::vinyl::Boot;
use vinyl::{Vinyl, VinylContext, VinylError, VinylEvent};

fn metadata(title: &str, channel: &str) -> Lookup {
    Lookup::SingleVideo(VideoInfo {
        id: "id".to_string(),
        title: title.to_string(),
        channel: Some(channel.to_string()),
        format: Some("best".to_string()),
        formats: Some(vec![Format {
            format: Some("best".to_string()),
            url: Some("https://cdn/stream".to_string()),
        }]),
    })
}

fn song(title: &str) -> Input {
    Input::parse("youtu.be/x", &metadata(title, "Band")).unwrap()
}

fn restored(id: u64, name: &str) -> Room {
    Room {
        id,
        name: name.to_string(),
        owner: "owner".to_string(),
    }
}

fn server(rooms: Vec<Room>) -> Vinyl {
    Vinyl::new(Boot::Loaded(rooms)).unwrap()
}

fn listing(context: &VinylContext, id: &str) -> Vec<(String, Resolution)> {
    get_room_queue(context, id)
        .unwrap()
        .tracks
        .into_iter()
        .map(|t| (t.name, t.resolution))
        .collect()
}

#[test]
fn startup_restores_the_persisted_rooms() {
    let rooms = vec![restored(3, "three"), restored(1, "one")];
    let vinyl = server(rooms.clone());
    assert_eq!(get_rooms(vinyl.context()), rooms);
    assert_eq!(get_room(vinyl.context(), "1"), Ok(rooms[1].clone()));
    assert_eq!(listing(vinyl.context(), "3"), vec![]);
    assert_eq!(vinyl.event_bus.pending(), 0);
    assert_eq!(vinyl.context.store.emitter.len(), 0);
}

#[test]
fn startup_fails_as_far_as_the_preparations_came() {
    assert_eq!(
        Vinyl::new(Boot::RuntimeFailed("no threads".to_string())).err(),
        Some(VinylError::Fatal("no threads".to_string()))
    );
    assert_eq!(
        Vinyl::new(Boot::ConnectFailed(DatabaseError {
            message: "refused".to_string()
        }))
        .err(),
        Some(VinylError::Database(DatabaseError {
            message: "refused".to_string()
        }))
    );
    let unread = Vinyl::new(Boot::LoadFailed(DatabaseError {
        message: "bad record".to_string(),
    }))
    .err()
    .unwrap();
    assert_eq!(
        unread,
        VinylError::Database(DatabaseError {
            message: "bad record".to_string()
        })
    );
    assert_eq!(unread.to_string(), "Could not initialize database: bad record");
    assert_eq!(
        unread.hint(),
        "This is a database error. Make sure the SurrealDB instance is properly installed and running, then try again."
    );
    assert_eq!(
        Vinyl::new(Boot::Loaded(vec![restored(1, "a"), restored(1, "b")])).err(),
        Some(VinylError::Fatal(
            "Two persisted rooms share an id".to_string()
        ))
    );
    assert_eq!(
        Vinyl::new(Boot::Loaded(vec![restored(u64::MAX, "a")])).err(),
        Some(VinylError::Fatal(
            "A persisted room has the last id there is".to_string()
        ))
    );
}

#[test]
fn startup_errors_give_their_words_and_their_hint() {
    let database = VinylError::Database(DatabaseError {
        message: "refused".to_string(),
    });
    let fatal = VinylError::Fatal("no threads".to_string());
    assert_eq!(database.to_string(), "Could not initialize database: refused");
    assert_eq!(fatal.to_string(), "Fatal error: no threads");
    assert_eq!(
        database.hint(),
        "This is a database error. Make sure the SurrealDB instance is properly installed and running, then try again."
    );
    assert_eq!(fatal.hint(), "This error is fatal, and should not happen.");
    assert_eq!(
        RestoreError::DuplicateId(4).to_string(),
        "Two persisted rooms share an id"
    );
    assert_eq!(
        RestoreError::IdOutOfRange(u64::MAX).to_string(),
        "A persisted room has the last id there is"
    );
}

#[test]
fn a_created_room_shows_in_the_next_listing() {
    let mut vinyl = server(vec![restored(4, "old")]);
    let user = "ann".to_string();
    let created = create_room(&mut vinyl.context, &user, "Lounge".to_string(), Ok(())).unwrap();
    assert_eq!(
        created,
        Room {
            id: 5,
            name: "Lounge".to_string(),
            owner: "ann".to_string()
        }
    );
    assert_eq!(
        get_rooms(vinyl.context()),
        vec![restored(4, "old"), created.clone()]
    );
    assert_eq!(get_room(vinyl.context(), "5"), Ok(created.clone()));
    assert_eq!(
        get_room(vinyl.context(), "6"),
        Err(ApiError::NotFound(Resource::Room))
    );
    let tick = vinyl.tick().unwrap();
    assert_eq!(tick.event, VinylEvent::Room(RoomEvent::Created(created)));
    assert_eq!(vinyl.tick(), None);
}

#[test]
fn a_room_that_was_not_persisted_does_not_show() {
    let mut vinyl = server(vec![]);
    let user = "ann".to_string();
    let failed = create_room(
        &mut vinyl.context,
        &user,
        "Lounge".to_string(),
        Err(DatabaseError {
            message: "down".to_string(),
        }),
    );
    assert_eq!(
        failed,
        Err(ApiError::Database(DatabaseError {
            message: "down".to_string()
        }))
    );
    assert_eq!(get_rooms(vinyl.context()), vec![]);
    assert_eq!(vinyl.tick(), None);
}

#[test]
fn adding_an_input_answers_with_a_confirmation() {
    let mut vinyl = server(vec![restored(0, "room")]);
    let user = "bob".to_string();
    let response = add_input(
        &mut vinyl.context,
        &user,
        "0",
        "https://www.youtube.com/watch?v=X",
        &metadata("Song", "Band"),
    );
    assert_eq!(
        response,
        Ok(Added {
            response: "Added Song by Band to the queue".to_string(),
            fingerprint: "Song".to_string(),
            submission: Submission::Started,
        })
    );
    assert_eq!(
        listing(vinyl.context(), "0"),
        vec![("Song by Band".to_string(), Resolution::Pending)]
    );
    let again = add_input(
        &mut vinyl.context,
        &user,
        "0",
        "youtu.be/other",
        &metadata("Song", "Someone Else"),
    )
    .unwrap();
    assert_eq!(again.response, "Added Song by Someone Else to the queue");
    assert_eq!(again.submission, Submission::Joined);
    vinyl
        .context
        .store
        .complete(&"Song".to_string(), Ok("song.wav".to_string()));
    let cached = add_input(
        &mut vinyl.context,
        &user,
        "0",
        "youtu.be/x",
        &metadata("Song", "Band"),
    )
    .unwrap();
    assert_eq!(cached.submission, Submission::Cached("song.wav".to_string()));
}

#[test]
fn an_unknown_room_is_reported_before_a_bad_reference() {
    let mut vinyl = server(vec![restored(0, "room")]);
    let user = "bob".to_string();
    assert_eq!(
        add_input(&mut vinyl.context, &user, "1", "kpofkagt", &Lookup::Failed),
        Err(ApiError::NotFound(Resource::Room))
    );
    assert_eq!(
        add_input(
            &mut vinyl.context,
            &user,
            "1",
            "youtu.be/x",
            &metadata("Song", "Band")
        ),
        Err(ApiError::NotFound(Resource::Room))
    );
    assert_eq!(
        add_input(
            &mut vinyl.context,
            &user,
            "0",
            "kpofkagt",
            &metadata("Song", "Band")
        ),
        Err(ApiError::Parse(ParseError::Unrecognized))
    );
    assert_eq!(
        add_input(&mut vinyl.context, &user, "0", "youtu.be/x", &Lookup::Failed),
        Err(ApiError::Parse(ParseError::Unresolvable))
    );
    assert_eq!(
        add_input(&mut vinyl.context, &user, "0", "youtu.be/x", &Lookup::Playlist),
        Err(ApiError::Parse(ParseError::Unresolvable))
    );
    assert_eq!(listing(vinyl.context(), "0"), vec![]);
    assert_eq!(vinyl.tick(), None);
    assert_eq!(
        get_room_queue(vinyl.context(), "1"),
        Err(ApiError::NotFound(Resource::Room))
    );
}

#[test]
fn a_lookup_is_wanted_for_a_known_room_and_a_recognized_reference() {
    let vinyl = server(vec![restored(0, "room"), restored(12, "other")]);
    assert!(wants_lookup(vinyl.context(), "0", "youtu.be/x"));
    assert!(wants_lookup(
        vinyl.context(),
        "12",
        "https://www.youtube.com/watch?v=X"
    ));
    assert!(!wants_lookup(vinyl.context(), "1", "youtu.be/x"));
    assert!(!wants_lookup(vinyl.context(), "0", "kpofkagt"));
    assert!(!wants_lookup(vinyl.context(), "1", "kpofkagt"));
    assert!(!wants_lookup(vinyl.context(), "", "youtu.be/x"));
    assert!(!wants_lookup(vinyl.context(), "012", "youtu.be/x"));
}

#[test]
fn a_resolution_reaches_the_queue_through_the_bus() {
    let mut vinyl = server(vec![restored(0, "room"), restored(1, "other")]);
    let user = "bob".to_string();
    for _ in 0..3 {
        add_input(
            &mut vinyl.context,
            &user,
            "0",
            "youtu.be/x",
            &metadata("Song", "Band"),
        )
        .unwrap();
    }
    add_input(&mut vinyl.context, &user, "1", "youtu.be/y", &metadata("Song", "Band")).unwrap();
    add_input(&mut vinyl.context, &user, "1", "youtu.be/z", &metadata("Tune", "Band")).unwrap();
    assert!(vinyl
        .context
        .store
        .complete(&"Song".to_string(), Ok("song.wav".to_string())));
    assert_eq!(
        listing(vinyl.context(), "0"),
        vec![("Song by Band".to_string(), Resolution::Pending); 3]
    );
    let mut events = vec![];
    while let Some(tick) = vinyl.tick() {
        assert_eq!(tick.deliveries.len(), 2);
        assert_eq!(tick.deliveries[0].subscriber, Subscriber::Queues);
        assert_eq!(tick.deliveries[1].subscriber, Subscriber::Pusher);
        events.push(tick.event);
    }
    assert_eq!(
        events,
        vec![
            VinylEvent::Queue(QueueEvent::Pushed(0)),
            VinylEvent::Queue(QueueEvent::Pushed(0)),
            VinylEvent::Queue(QueueEvent::Pushed(0)),
            VinylEvent::Queue(QueueEvent::Pushed(1)),
            VinylEvent::Queue(QueueEvent::Pushed(1)),
            VinylEvent::Ingestion(IngestionEvent::Resolved(
                "Song".to_string(),
                "song.wav".to_string()
            )),
        ]
    );
    assert_eq!(
        listing(vinyl.context(), "0"),
        vec![("Song by Band".to_string(), Resolution::Resolved); 3]
    );
    assert_eq!(
        listing(vinyl.context(), "1"),
        vec![
            ("Song by Band".to_string(), Resolution::Resolved),
            ("Tune by Band".to_string(), Resolution::Pending),
        ]
    );
    assert!(vinyl
        .context
        .store
        .complete(&"Tune".to_string(), Err("gone".to_string())));
    vinyl.tick().unwrap();
    assert_eq!(
        listing(vinyl.context(), "1"),
        vec![
            ("Song by Band".to_string(), Resolution::Resolved),
            ("Tune by Band".to_string(), Resolution::Failed("gone".to_string())),
        ]
    );
}

#[test]
fn the_push_channel_mirrors_what_the_bus_dispatches() {
    let mut vinyl = server(vec![restored(0, "room")]);
    let client = vinyl.context.sse.subscribe();
    let user = "bob".to_string();
    add_input(&mut vinyl.context, &user, "0", "youtu.be/x", &metadata("Song", "Band")).unwrap();
    vinyl
        .context
        .store
        .complete(&"Song".to_string(), Ok("song.wav".to_string()));
    while vinyl.tick().is_some() {}
    assert_eq!(
        vinyl.context.sse.take(client),
        Some(vec![
            VinylEvent::Queue(QueueEvent::Pushed(0)),
            VinylEvent::Ingestion(IngestionEvent::Resolved(
                "Song".to_string(),
                "song.wav".to_string()
            )),
        ])
    );
}

#[test]
fn a_stream_joins_the_broadcast_at_the_live_position() {
    let mut vinyl = server(vec![restored(7, "room")]);
    let store = &mut vinyl.context.store;
    store.add_input(&"bob".to_string(), 7, song("Song")).unwrap();
    store.complete(&"Song".to_string(), Ok("song.wav".to_string()));
    store.handle(&VinylEvent::Ingestion(IngestionEvent::Resolved(
        "Song".to_string(),
        "song.wav".to_string(),
    )))
    .unwrap();
    assert_eq!(store.start(7), Ok(Some("song.wav".to_string())));
    assert_eq!(store.write(7, &vec![1, 2, 3]), Ok(true));
    let early = get_room_stream(&mut vinyl.context, "ann".to_string(), "7").unwrap();
    assert_eq!((early.room, early.slot, early.id), (7, 0, 0));
    assert_eq!(early.user, "ann");
    vinyl.context.store.write(7, &vec![4, 5]).unwrap();
    let late = get_room_stream(&mut vinyl.context, "bob".to_string(), "7").unwrap();
    vinyl.context.store.write(7, &vec![6]).unwrap();
    assert_eq!(vinyl.context.store.read(&early), Some(vec![4, 5, 6]));
    assert!(vinyl.context.store.disconnect(&early));
    vinyl.context.store.write(7, &vec![7]).unwrap();
    assert_eq!(vinyl.context.store.read(&late), Some(vec![6, 7]));
    assert_eq!(vinyl.context.store.read(&early), None);
    assert_eq!(
        get_room_stream(&mut vinyl.context, "ann".to_string(), "8"),
        Err(ApiError::NotFound(Resource::Room))
    );
}

#[test]
fn a_dropped_stream_changes_nothing_for_another_stream() {
    let mut runs = vec![];
    for drop_first in [true, false] {
        let mut vinyl = server(vec![restored(3, "room")]);
        let store = &mut vinyl.context.store;
        store.add_input(&"bob".to_string(), 3, song("A")).unwrap();
        store.add_input(&"bob".to_string(), 3, song("B")).unwrap();
        store.complete(&"A".to_string(), Ok("a.wav".to_string()));
        store.complete(&"B".to_string(), Ok("b.wav".to_string()));
        while vinyl.tick().is_some() {}
        assert_eq!(vinyl.context.store.start(3), Ok(Some("a.wav".to_string())));
        let first = get_room_stream(&mut vinyl.context, "ann".to_string(), "3").unwrap();
        let second = get_room_stream(&mut vinyl.context, "bob".to_string(), "3").unwrap();
        assert_ne!(first.id, second.id);
        let store = &mut vinyl.context.store;
        store.write(3, &vec![1, 2]).unwrap();
        let mut heard = vec![store.read(&second)];
        if drop_first {
            assert!(store.disconnect(&first));
        }
        store.write(3, &vec![3]).unwrap();
        heard.push(store.read(&second));
        store.write(3, &vec![4, 5]).unwrap();
        let progress = store.finish(3);
        store.write(3, &vec![6]).unwrap();
        heard.push(store.read(&second));
        runs.push((heard, progress, store.queue(3).unwrap(), store.emitter.take()));
    }
    assert_eq!(runs[0], runs[1]);
    assert_eq!(
        runs[0].0,
        vec![Some(vec![1, 2]), Some(vec![3]), Some(vec![4, 5, 6])]
    );
    assert_eq!(runs[0].1, Ok(Progress::Next("b.wav".to_string())));
}

#[test]
fn stream_responses_carry_the_streaming_headers() {
    let headers: Vec<(String, String)> = stream_headers();
    let expected: Vec<(String, String)> = vec![
        ("Transfer-Encoding", "chunked"),
        ("Content-Type", "audio/wav"),
        ("Cache-Control", "no-store"),
        ("Content-Disposition", "inline; filename=\"stream.wav\""),
    ]
    .into_iter()
    .map(|(name, value)| (name.to_string(), value.to_string()))
    .collect();
    assert_eq!(headers, expected);
}

#[test]
fn the_store_plays_a_room_through_its_queue() {
    let mut store = Store::new(Emitter::new());
    let user = "ann".to_string();
    let room = store
        .create_room(user.clone(), "Lounge".to_string(), Ok(()))
        .unwrap();
    assert_eq!(store.start(room.id), Ok(None));
    assert_eq!(store.finish(room.id), Ok(Progress::NotPlaying));
    assert_eq!(store.write(room.id, &vec![1]), Ok(false));
    assert_eq!(
        store.add_input(&user, room.id, song("A")),
        Ok(Submission::Started)
    );
    assert_eq!(
        store.add_input(&user, room.id, song("B")),
        Ok(Submission::Started)
    );
    assert_eq!(store.start(room.id), Ok(None));
    store.complete(&"A".to_string(), Ok("a.wav".to_string()));
    for event in store.emitter.take() {
        store.handle(&event).unwrap();
    }
    assert_eq!(store.start(room.id), Ok(Some("a.wav".to_string())));
    assert_eq!(store.playback.state(0), Some(PlaybackState::Playing));
    assert_eq!(store.finish(room.id), Ok(Progress::Stopped));
    assert_eq!(
        store.emitter.take(),
        vec![
            VinylEvent::Audio(AudioEvent::TrackStarted(room.id)),
            VinylEvent::Queue(QueueEvent::Dequeued(0)),
            VinylEvent::Audio(AudioEvent::TrackEnded(room.id)),
        ]
    );
    assert_eq!(store.queue(room.id).unwrap().tracks.len(), 1);
    store.complete(&"B".to_string(), Ok("b.wav".to_string()));
    for event in store.emitter.take() {
        store.handle(&event).unwrap();
    }
    assert_eq!(store.start(room.id), Ok(Some("b.wav".to_string())));
    for unknown in [1, 2, u64::MAX] {
        assert_eq!(store.start(unknown), Err(ApiError::NotFound(Resource::Room)));
        assert_eq!(store.finish(unknown), Err(ApiError::NotFound(Resource::Room)));
        assert_eq!(
            store.write(unknown, &vec![1]),
            Err(ApiError::NotFound(Resource::Room))
        );
        assert_eq!(
            store.queue(unknown).err(),
            Some(ApiError::NotFound(Resource::Room))
        );
        assert_eq!(
            store.connect(user.clone(), unknown),
            Err(ApiError::NotFound(Resource::Room))
        );
        assert_eq!(
            store.add_input(&user, unknown, song("C")),
            Err(ApiError::NotFound(Resource::Room))
        );
    }
}

#[test]
fn the_store_restores_rooms_or_none() {
    let mut store = Store::new(Emitter::new());
    assert_eq!(
        store.init(&vec![restored(2, "a"), restored(2, "b")]),
        Err(RestoreError::DuplicateId(2))
    );
    assert_eq!(store.room_store.rooms(), vec![]);
    assert_eq!(store.init(&vec![restored(2, "a"), restored(0, "b")]), Ok(()));
    assert_eq!(store.room_store.rooms().len(), 2);
    assert_eq!(store.queue(0).unwrap().id, 1);
    assert_eq!(store.queue(2).unwrap().id, 0);
}

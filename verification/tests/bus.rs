use vinyl::bus::{Bus, Subscriber};
use vinyl::events::{
    AudioEvent, Channel, Emitter, HandlerError, IngestionEvent, QueueEvent, VinylEvent,
};
use vinyl::input::{Format, Input, Lookup, VideoInfo};
use vinyl::queue::QueueStore;
use vinyl::sse::SseManager;
use vinyl::track::{Resolution, Track};

fn bus_input(title: &str) -> Input {
    let lookup = Lookup::SingleVideo(VideoInfo {
        id: "id".to_string(),
        title: title.to_string(),
        channel: None,
        format: None,
        formats: Some(vec![Format {
            format: None,
            url: Some("https://cdn/stream".to_string()),
        }]),
    });
    Input::parse("youtu.be/x", &lookup).unwrap()
}

fn started(room: u64) -> VinylEvent {
    VinylEvent::Audio(AudioEvent::TrackStarted(room))
}

fn resolution(fingerprint: &str, source: &str) -> VinylEvent {
    VinylEvent::Ingestion(IngestionEvent::Resolved(
        fingerprint.to_string(),
        source.to_string(),
    ))
}

#[test]
fn an_emitter_keeps_the_order_of_emission() {
    let mut emitter = Emitter::new();
    emitter.emit(started(1));
    emitter.emit(started(2));
    assert_eq!(emitter.len(), 2);
    assert_eq!(emitter.take(), vec![started(1), started(2)]);
    assert_eq!(emitter.len(), 0);
    assert_eq!(emitter.take(), vec![]);
}

#[test]
fn a_channel_hands_out_the_oldest_event_first() {
    let mut channel = Channel::new();
    let mut emitter = Emitter::new();
    assert_eq!(channel.recv(), None);
    channel.send(started(1));
    emitter.emit(started(2));
    emitter.emit(started(3));
    channel.accept(&mut emitter);
    channel.send(started(4));
    assert_eq!(emitter.len(), 0);
    assert_eq!(channel.len(), 4);
    for room in 1..=4 {
        assert_eq!(channel.recv(), Some(started(room)));
    }
    assert_eq!(channel.recv(), None);
    assert_eq!(channel.len(), 0);
}

#[test]
fn a_tick_on_an_empty_channel_does_nothing() {
    let mut bus = Bus::new(Channel::new());
    let mut queues = QueueStore::new();
    let mut sse = SseManager::new();
    assert!(bus.register(Subscriber::Pusher));
    let client = sse.subscribe();
    assert_eq!(bus.tick(&mut queues, &mut sse), None);
    assert_eq!(sse.take(client), Some(vec![]));
    assert_eq!(bus.drain(&mut queues, &mut sse), vec![]);
}

#[test]
fn a_tick_reaches_every_handler_in_the_order_of_registration() {
    let mut bus = Bus::new(Channel::new());
    let mut queues = QueueStore::new();
    let mut sse = SseManager::new();
    let mut emitter = Emitter::new();
    let queue = queues.create();
    queues.push(&mut emitter, queue, Track::pending(bus_input("Song")));
    let client = sse.subscribe();
    assert!(bus.register(Subscriber::Pusher));
    assert!(bus.register(Subscriber::Queues));
    assert!(bus.register(Subscriber::Pusher));
    bus.send(resolution("Song", "song.wav"));
    bus.send(started(0));
    assert_eq!(bus.pending(), 2);
    let tick = bus.tick(&mut queues, &mut sse).unwrap();
    assert_eq!(tick.event, resolution("Song", "song.wav"));
    assert_eq!(tick.deliveries.len(), 3);
    for (place, delivery) in tick.deliveries.iter().enumerate() {
        assert_eq!(delivery.handler, place);
        assert_eq!(delivery.outcome, Ok(()));
    }
    assert_eq!(tick.deliveries[0].subscriber, Subscriber::Pusher);
    assert_eq!(tick.deliveries[1].subscriber, Subscriber::Queues);
    assert_eq!(tick.deliveries[2].subscriber, Subscriber::Pusher);
    assert_eq!(bus.pending(), 1);
    assert_eq!(
        queues.serialized(queue).unwrap().tracks[0].resolution,
        Resolution::Resolved
    );
    assert_eq!(
        sse.take(client),
        Some(vec![
            resolution("Song", "song.wav"),
            resolution("Song", "song.wav")
        ])
    );
}

#[test]
fn no_handler_is_registered_once_dispatch_has_started() {
    let mut bus = Bus::new(Channel::new());
    let mut queues = QueueStore::new();
    let mut sse = SseManager::new();
    let client = sse.subscribe();
    assert!(bus.register(Subscriber::Queues));
    assert_eq!(bus.tick(&mut queues, &mut sse), None);
    assert!(!bus.register(Subscriber::Pusher));
    bus.send(started(1));
    let tick = bus.tick(&mut queues, &mut sse).unwrap();
    assert_eq!(tick.deliveries.len(), 1);
    assert_eq!(tick.deliveries[0].subscriber, Subscriber::Queues);
    assert_eq!(sse.take(client), Some(vec![]));
}

#[test]
fn a_failing_handler_stops_nothing() {
    let mut bus = Bus::new(Channel::new());
    let mut queues = QueueStore::new();
    let mut sse = SseManager::new();
    let mut emitter = Emitter::new();
    let queue = queues.create();
    queues.push(&mut emitter, queue, Track::pending(bus_input("Song")));
    let client = sse.subscribe();
    assert!(bus.register(Subscriber::Queues));
    assert!(bus.register(Subscriber::Pusher));
    bus.send(resolution("Song", ""));
    bus.send(resolution("Song", "song.wav"));
    let ticks = bus.drain(&mut queues, &mut sse);
    assert_eq!(ticks.len(), 2);
    assert_eq!(
        ticks[0].deliveries[0].outcome,
        Err(HandlerError::EmptySource("Song".to_string()))
    );
    assert_eq!(ticks[0].deliveries[1].outcome, Ok(()));
    assert_eq!(ticks[1].deliveries[0].outcome, Ok(()));
    assert_eq!(ticks[1].deliveries[1].outcome, Ok(()));
    assert_eq!(bus.pending(), 0);
    assert_eq!(
        sse.take(client),
        Some(vec![resolution("Song", ""), resolution("Song", "song.wav")])
    );
    assert_eq!(
        queues.serialized(queue).unwrap().tracks[0].resolution,
        Resolution::Resolved
    );
}

#[test]
fn every_handler_sees_the_events_of_all_producers_in_one_order() {
    let mut bus = Bus::new(Channel::new());
    let mut queues = QueueStore::new();
    let mut sse = SseManager::new();
    assert!(bus.register(Subscriber::Pusher));
    assert!(bus.register(Subscriber::Queues));
    let watcher = sse.subscribe();
    let mut rooms_side = Emitter::new();
    let mut audio_side = Emitter::new();
    rooms_side.emit(VinylEvent::Queue(QueueEvent::Pushed(0)));
    audio_side.emit(started(1));
    rooms_side.emit(VinylEvent::Queue(QueueEvent::Pushed(1)));
    audio_side.emit(VinylEvent::Audio(AudioEvent::TrackEnded(1)));
    bus.accept(&mut audio_side);
    bus.accept(&mut rooms_side);
    audio_side.emit(started(2));
    bus.accept(&mut audio_side);
    let expected = vec![
        started(1),
        VinylEvent::Audio(AudioEvent::TrackEnded(1)),
        VinylEvent::Queue(QueueEvent::Pushed(0)),
        VinylEvent::Queue(QueueEvent::Pushed(1)),
        started(2),
    ];
    let ticks = bus.drain(&mut queues, &mut sse);
    let dispatched: Vec<VinylEvent> = ticks.iter().map(|t| t.event.clone()).collect();
    assert_eq!(dispatched, expected);
    for handler in 0..2 {
        let seen: Vec<VinylEvent> = ticks
            .iter()
            .flat_map(|t| {
                t.deliveries
                    .iter()
                    .filter(|d| d.handler == handler)
                    .map(|_| t.event.clone())
                    .collect::<Vec<VinylEvent>>()
            })
            .collect();
        assert_eq!(seen, expected);
    }
    assert_eq!(sse.take(watcher), Some(expected));
}

#[test]
fn the_push_channel_mirrors_to_subscribed_clients_only() {
    let mut sse = SseManager::new();
    let first = sse.subscribe();
    sse.handle(&started(1));
    let second = sse.subscribe();
    sse.handle(&started(2));
    assert!(sse.unsubscribe(first));
    assert!(!sse.unsubscribe(first));
    assert!(!sse.unsubscribe(9));
    sse.handle(&started(3));
    assert_eq!(sse.take(first), None);
    assert_eq!(sse.take(9), None);
    assert_eq!(sse.take(second), Some(vec![started(2), started(3)]));
    assert_eq!(sse.take(second), Some(vec![]));
    assert_eq!(sse.subscribe(), 2);
}

use vinyl::audio::{Playback, PlaybackState, Progress};
use vinyl::fanout::Broadcast;
use vinyl::events::{AudioEvent, Emitter, IngestionEvent, QueueEvent, VinylEvent};
use vinyl::input::{Format, Input, Lookup, VideoInfo};
use vinyl::queue::QueueStore;
use vinyl::track::{Track, TrackStatus};

fn played_input(title: &str) -> Input {
    let lookup = Lookup::SingleVideo(VideoInfo {
        id: "id".to_string(),
        title: title.to_string(),
        channel: None,
        format: None,
        formats: Some(vec![Format {
            format: None,
            url: Some("https://cdn/stream".to_string()),
        }]),
    });
    Input::parse("youtu.be/x", &lookup).unwrap()
}

fn ready(title: &str, source: &str) -> Track {
    Track {
        input: played_input(title),
        status: TrackStatus::Resolved(source.to_string()),
    }
}

#[test]
fn a_listener_hears_nothing_of_what_came_before() {
    let mut broadcast = Broadcast::new();
    broadcast.write(&vec![1, 2, 3]);
    let early = broadcast.attach();
    broadcast.write(&vec![4, 5]);
    let late = broadcast.attach();
    broadcast.write(&vec![6]);
    assert_eq!((early, late), (0, 1));
    assert_eq!(broadcast.read(early), Some(vec![4, 5, 6]));
    assert_eq!(broadcast.read(late), Some(vec![6]));
    assert_eq!(broadcast.read(early), Some(vec![]));
    broadcast.write(&vec![]);
    broadcast.write(&vec![7]);
    assert_eq!(broadcast.read(late), Some(vec![7]));
    assert_eq!(broadcast.read(early), Some(vec![7]));
}

#[test]
fn a_detached_listener_leaves_the_others_alone() {
    let mut with_detach = Broadcast::new();
    let mut without = Broadcast::new();
    for broadcast in [&mut with_detach, &mut without] {
        broadcast.attach();
        broadcast.attach();
        broadcast.attach();
        broadcast.write(&vec![10, 11]);
    }
    assert!(with_detach.detach(1));
    for broadcast in [&mut with_detach, &mut without] {
        broadcast.write(&vec![12]);
        broadcast.write(&vec![13, 14]);
    }
    assert_eq!(with_detach.read(0), without.read(0));
    assert_eq!(with_detach.read(2), without.read(2));
    assert_eq!(with_detach.read(2), Some(vec![]));
    assert_eq!(with_detach.read(1), None);
    assert_eq!(without.read(1), Some(vec![10, 11, 12, 13, 14]));
    assert!(!with_detach.is_attached(1));
    assert!(with_detach.is_attached(0));
    assert!(!with_detach.detach(1));
    assert!(!with_detach.detach(7));
    assert_eq!(with_detach.attach(), 3);
}

#[test]
fn the_buffer_holds_what_the_slowest_listener_has_not_read() {
    let mut broadcast = Broadcast::new();
    broadcast.write(&vec![9, 9, 9]);
    assert_eq!(broadcast.buffered(), 0);
    let slow = broadcast.attach();
    let fast = broadcast.attach();
    broadcast.write(&vec![1, 2, 3, 4]);
    assert_eq!(broadcast.buffered(), 4);
    assert_eq!(broadcast.read(fast), Some(vec![1, 2, 3, 4]));
    assert_eq!(broadcast.buffered(), 4);
    broadcast.write(&vec![5]);
    assert_eq!(broadcast.buffered(), 5);
    assert_eq!(broadcast.read(slow), Some(vec![1, 2, 3, 4, 5]));
    assert_eq!(broadcast.buffered(), 1);
    assert_eq!(broadcast.read(fast), Some(vec![5]));
    assert_eq!(broadcast.buffered(), 0);
    broadcast.write(&vec![6, 7]);
    assert_eq!(broadcast.read(fast), Some(vec![6, 7]));
    assert_eq!(broadcast.buffered(), 2);
    broadcast.detach(slow);
    assert_eq!(broadcast.buffered(), 0);
    broadcast.write(&vec![8]);
    broadcast.detach(fast);
    assert_eq!(broadcast.buffered(), 0);
}

#[test]
fn a_station_starts_only_on_a_resolved_head() {
    let mut queues = QueueStore::new();
    let mut engine = Playback::new();
    let mut emitter = Emitter::new();
    let slot = queues.create();
    assert_eq!(engine.open(42), slot);
    assert_eq!(engine.count(), 1);
    assert_eq!(engine.state(slot), Some(PlaybackState::Idle));
    assert_eq!(engine.state(slot + 1), None);
    assert_eq!(engine.start(&queues, &mut emitter, slot), None);
    queues.push(&mut emitter, slot, Track::pending(played_input("A")));
    assert_eq!(engine.start(&queues, &mut emitter, slot), None);
    assert_eq!(engine.state(slot), Some(PlaybackState::Idle));
    queues.handle(&VinylEvent::Ingestion(IngestionEvent::Resolved("A".to_string(), "a.wav".to_string()))).unwrap();
    emitter.take();
    assert_eq!(
        engine.start(&queues, &mut emitter, slot),
        Some("a.wav".to_string())
    );
    assert_eq!(engine.state(slot), Some(PlaybackState::Playing));
    assert_eq!(
        emitter.take(),
        vec![VinylEvent::Audio(AudioEvent::TrackStarted(42))]
    );
    assert_eq!(engine.start(&queues, &mut emitter, slot), None);
    assert_eq!(engine.start(&queues, &mut emitter, slot + 1), None);
    assert_eq!(emitter.len(), 0);
}

#[test]
fn the_end_of_a_track_moves_the_queue_on() {
    let mut queues = QueueStore::new();
    let mut engine = Playback::new();
    let mut emitter = Emitter::new();
    let slot = queues.create();
    engine.open(7);
    queues.push(&mut emitter, slot, ready("A", "a.wav"));
    queues.push(&mut emitter, slot, ready("B", "b.wav"));
    queues.push(&mut emitter, slot, Track::pending(played_input("C")));
    assert_eq!(
        engine.finish(&mut queues, &mut emitter, slot),
        Progress::NotPlaying
    );
    engine.start(&queues, &mut emitter, slot);
    emitter.take();
    assert_eq!(
        engine.finish(&mut queues, &mut emitter, slot),
        Progress::Next("b.wav".to_string())
    );
    assert_eq!(engine.state(slot), Some(PlaybackState::Playing));
    assert_eq!(
        emitter.take(),
        vec![
            VinylEvent::Queue(QueueEvent::Dequeued(slot)),
            VinylEvent::Audio(AudioEvent::TrackEnded(7)),
            VinylEvent::Audio(AudioEvent::TrackStarted(7)),
        ]
    );
    assert_eq!(
        engine.finish(&mut queues, &mut emitter, slot),
        Progress::Stopped
    );
    assert_eq!(engine.state(slot), Some(PlaybackState::Idle));
    assert_eq!(
        emitter.take(),
        vec![
            VinylEvent::Queue(QueueEvent::Dequeued(slot)),
            VinylEvent::Audio(AudioEvent::TrackEnded(7)),
        ]
    );
    assert_eq!(queues.serialized(slot).unwrap().tracks.len(), 1);
    assert_eq!(
        engine.finish(&mut queues, &mut emitter, slot),
        Progress::NotPlaying
    );
    assert_eq!(
        engine.finish(&mut queues, &mut emitter, slot + 1),
        Progress::NotPlaying
    );
    assert_eq!(emitter.len(), 0);
}

#[test]
fn the_last_track_leaves_the_station_idle() {
    let mut queues = QueueStore::new();
    let mut engine = Playback::new();
    let mut emitter = Emitter::new();
    let slot = queues.create();
    engine.open(1);
    queues.push(&mut emitter, slot, ready("A", "a.wav"));
    engine.start(&queues, &mut emitter, slot);
    assert_eq!(
        engine.finish(&mut queues, &mut emitter, slot),
        Progress::Stopped
    );
    assert_eq!(engine.state(slot), Some(PlaybackState::Idle));
    assert_eq!(queues.head(slot), None);
}

#[test]
fn only_a_playing_station_broadcasts() {
    let mut queues = QueueStore::new();
    let mut engine = Playback::new();
    let mut emitter = Emitter::new();
    let slot = queues.create();
    engine.open(1);
    let listener = engine.connect(slot).unwrap();
    assert_eq!(engine.connect(slot + 1), None);
    assert!(!engine.write(slot, &vec![1, 2]));
    assert!(!engine.write(slot + 1, &vec![1, 2]));
    assert_eq!(engine.read(slot, listener), Some(vec![]));
    queues.push(&mut emitter, slot, ready("A", "a.wav"));
    engine.start(&queues, &mut emitter, slot);
    assert!(engine.write(slot, &vec![3, 4]));
    let late = engine.connect(slot).unwrap();
    assert!(engine.write(slot, &vec![5]));
    assert_eq!(engine.read(slot, listener), Some(vec![3, 4, 5]));
    assert_eq!(engine.read(slot, late), Some(vec![5]));
    assert_eq!(engine.read(slot, late + 1), None);
    assert_eq!(engine.read(slot + 1, listener), None);
}

#[test]
fn disconnecting_changes_neither_playback_nor_other_listeners() {
    let mut queues = QueueStore::new();
    let mut engine = Playback::new();
    let mut emitter = Emitter::new();
    let slot = queues.create();
    engine.open(1);
    queues.push(&mut emitter, slot, ready("A", "a.wav"));
    queues.push(&mut emitter, slot, ready("B", "b.wav"));
    engine.start(&queues, &mut emitter, slot);
    let stays = engine.connect(slot).unwrap();
    let leaves = engine.connect(slot).unwrap();
    engine.write(slot, &vec![1, 2]);
    emitter.take();
    assert!(engine.disconnect(slot, leaves));
    assert!(!engine.disconnect(slot, leaves));
    assert!(!engine.disconnect(slot + 1, stays));
    assert_eq!(emitter.len(), 0);
    assert_eq!(engine.state(slot), Some(PlaybackState::Playing));
    assert_eq!(queues.serialized(slot).unwrap().tracks.len(), 2);
    engine.write(slot, &vec![3]);
    assert_eq!(engine.read(slot, stays), Some(vec![1, 2, 3]));
    assert_eq!(engine.read(slot, leaves), None);
    assert_eq!(
        engine.finish(&mut queues, &mut emitter, slot),
        Progress::Next("b.wav".to_string())
    );
}

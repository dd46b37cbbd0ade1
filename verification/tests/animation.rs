use hermes_five::animations::Easing;
use hermes_five::utils::State;
use hermes_studio::animation::{
    arrange_steps, Animation, AnimationPayload, GroupTrack, HardwareKeyframe, Keyframe, Playback,
    PlaybackError, Step, Timeline,
};
use hermes_studio::board::{Board, BoardType};
use hermes_studio::database::Database;
use hermes_studio::device::{Device, DeviceType, Led};
use hermes_studio::entity::Id;
use hermes_studio::group::Group;
use hermes_studio::posture::{Position, Posture};

fn board(connected: bool) -> Board {
    Board {
        id: 0,
        name: "uno".to_string(),
        model: BoardType::Unknown,
        protocol: String::new(),
        connected,
    }
}

fn led(bid: Id) -> Device {
    Device {
        id: 0,
        bid,
        name: "led".to_string(),
        inner: DeviceType::Led(Led { pin: 13, state: 0, default: 0, brightness: 255 }),
    }
}

fn on(device: Id) -> Position {
    Position { device, target: State::Boolean(true) }
}

fn keyframe(devices: &[Id], start: u64, end: u64) -> Keyframe {
    Keyframe::new(devices.iter().map(|d| on(*d)).collect(), start, end, Easing::Linear).unwrap()
}

fn animation(tracks: Vec<GroupTrack>) -> Animation {
    Animation {
        id: 0,
        name: "wave".to_string(),
        description: String::new(),
        repeat: false,
        loopback: 0,
        speed: 100,
        fps: 40,
        tracks,
        inner: Timeline::blank(),
    }
}

/// Two boards, the first connected; device 1 on board 1, device 2 on board 2; one group
/// per device and a composite group 3.
fn topology() -> Database {
    let mut db = Database::init_volatile().unwrap();
    db.insert(board(true)).unwrap();
    db.insert(board(false)).unwrap();
    db.insert(led(1)).unwrap();
    db.insert(led(2)).unwrap();
    db.insert(Group::new("both".to_string())).unwrap();
    db
}

#[test]
fn a_keyframe_rejects_a_reversed_interval() {
    assert!(Keyframe::new(vec![], 10, 9, Easing::Linear).is_none());
    let k = Keyframe::new(vec![on(1)], 10, 10, Easing::SineInOut).unwrap();
    assert_eq!(k.start(), 10);
    assert_eq!(k.end(), 10);
    assert_eq!(k.transition(), Easing::SineInOut);
    assert_eq!(k.positions().len(), 1);
    assert_eq!(k.positions()[0].device, 1);
}

#[test]
fn a_position_on_a_disconnected_board_is_passed_over() {
    let db = topology();
    let mut a = animation(vec![GroupTrack { group: 3, keyframes: vec![keyframe(&[1, 2], 0, 1000)] }]);
    a.build(&db);
    assert_eq!(a.inner.tracks.len(), 1);
    assert_eq!(a.inner.tracks[0].device, 1);
    assert_eq!(a.inner.tracks[0].keyframes.len(), 1);
    assert_eq!(a.inner.tracks[0].keyframes[0].start, 0);
    assert_eq!(a.inner.tracks[0].keyframes[0].end, 1000);
    assert_eq!(a.inner.tracks[0].keyframes[0].target, State::Boolean(true));
    assert_eq!(a.inner.tracks[0].keyframes[0].transition, Easing::Linear);
    assert_eq!(a.inner.get_duration(), 1000);
    assert_eq!(a.inner.status, Playback::Idle);
}

#[test]
fn resolution_takes_the_settings_of_the_animation() {
    let db = topology();
    let mut a = animation(vec![GroupTrack { group: 1, keyframes: vec![keyframe(&[1], 0, 10)] }]);
    a.repeat = true;
    a.loopback = 5;
    a.speed = 50;
    a.fps = 25;
    a.build(&db);
    assert_eq!(a.inner.repeat, true);
    assert_eq!(a.inner.loopback, 5);
    assert_eq!(a.inner.speed, 50);
    assert_eq!(a.inner.fps, 25);
    let segment = a.inner.segment();
    assert_eq!(segment.is_repeat(), true);
    assert_eq!(segment.get_loopback(), 5);
    assert_eq!(segment.get_speed(), 50);
    assert_eq!(segment.get_fps(), 25);
    assert!(segment.get_tracks().is_empty());
}

#[test]
fn resolution_is_idempotent() {
    let db = topology();
    let mut a = animation(vec![
        GroupTrack { group: 1, keyframes: vec![keyframe(&[1], 0, 500), keyframe(&[1, 2], 500, 900)] },
        GroupTrack { group: 3, keyframes: vec![keyframe(&[2, 1], 100, 200)] },
    ]);
    a.build(&db);
    let first = a.inner.clone();
    a.build(&db);
    assert_eq!(first, a.inner);
    assert_eq!(a.inner.tracks.len(), 1);
    let ends: Vec<u64> = a.inner.tracks[0].keyframes.iter().map(|k| k.end).collect();
    assert_eq!(ends, vec![500, 900, 200]);
    assert_eq!(a.inner.get_duration(), 900);
}

#[test]
fn a_deleted_device_is_omitted_and_the_others_resolve() {
    let mut db = Database::init_volatile().unwrap();
    db.insert(board(true)).unwrap();
    db.insert(led(1)).unwrap();
    db.insert(led(1)).unwrap();
    db.insert(led(1)).unwrap();
    db.delete::<Device>(2).unwrap();
    let mut a = animation(vec![GroupTrack { group: 1, keyframes: vec![keyframe(&[1, 2, 3], 0, 300)] }]);
    a.build(&db);
    let devices: Vec<Id> = a.inner.tracks.iter().map(|t| t.device).collect();
    assert_eq!(devices, vec![1, 3]);
    assert_eq!(a.play(&db), Ok(()));
}

#[test]
fn a_track_of_a_deleted_group_is_dropped() {
    let mut db = topology();
    db.delete::<Group>(3).unwrap();
    let mut a = animation(vec![
        GroupTrack { group: 3, keyframes: vec![keyframe(&[1], 0, 700)] },
        GroupTrack { group: 1, keyframes: vec![keyframe(&[1], 0, 400)] },
    ]);
    a.build(&db);
    assert_eq!(a.inner.tracks.len(), 1);
    assert_eq!(a.inner.get_duration(), 400);
}

#[test]
fn a_device_of_a_missing_board_is_passed_over() {
    let mut db = Database::init_volatile().unwrap();
    db.insert(led(5)).unwrap();
    let mut a = animation(vec![GroupTrack { group: 1, keyframes: vec![keyframe(&[1], 0, 700)] }]);
    a.build(&db);
    assert!(a.inner.tracks.is_empty());
}

#[test]
fn one_device_gets_one_track_across_groups() {
    let mut db = Database::init_volatile().unwrap();
    db.insert(board(true)).unwrap();
    db.insert(led(1)).unwrap();
    db.insert(led(1)).unwrap();
    let mut a = animation(vec![
        GroupTrack { group: 1, keyframes: vec![keyframe(&[2], 0, 100), keyframe(&[1], 100, 200)] },
        GroupTrack { group: 2, keyframes: vec![keyframe(&[2], 200, 300)] },
    ]);
    a.build(&db);
    let devices: Vec<Id> = a.inner.tracks.iter().map(|t| t.device).collect();
    assert_eq!(devices, vec![2, 1]);
    let ends: Vec<u64> = a.inner.tracks[0].keyframes.iter().map(|k| k.end).collect();
    assert_eq!(ends, vec![100, 300]);
    assert_eq!(a.inner.tracks[1].keyframes.len(), 1);
}

#[test]
fn play_fails_when_every_board_is_disconnected() {
    let mut db = Database::init_volatile().unwrap();
    db.insert(board(false)).unwrap();
    db.insert(led(1)).unwrap();
    let mut a = animation(vec![GroupTrack { group: 1, keyframes: vec![keyframe(&[1], 0, 1000)] }]);
    assert_eq!(a.play(&db), Err(PlaybackError::EmptyTimeline));
    assert_eq!(a.inner.status, Playback::Idle);
    assert_eq!(a.inner.get_duration(), 0);
    assert!(!a.inner.is_playing());
}

#[test]
fn play_fails_for_a_repeating_animation_without_tracks() {
    let db = Database::init_volatile().unwrap();
    let mut a = animation(vec![]);
    a.repeat = true;
    assert_eq!(a.play(&db), Err(PlaybackError::EmptyTimeline));
}

#[test]
fn playback_goes_through_its_states() {
    let db = topology();
    let mut a = animation(vec![GroupTrack { group: 1, keyframes: vec![keyframe(&[1], 0, 1000)] }]);
    assert_eq!(a.inner.status, Playback::Idle);
    a.pause();
    assert_eq!(a.inner.status, Playback::Idle);
    assert_eq!(a.play(&db), Ok(()));
    assert_eq!(a.inner.status, Playback::Playing);
    assert!(a.inner.is_playing());
    a.pause();
    assert_eq!(a.inner.status, Playback::Paused);
    a.complete();
    assert_eq!(a.inner.status, Playback::Paused);
    assert_eq!(a.play(&db), Ok(()));
    assert_eq!(a.inner.status, Playback::Playing);
    a.complete();
    assert_eq!(a.inner.status, Playback::Idle);
    assert_eq!(a.play(&db), Ok(()));
    a.stop();
    assert_eq!(a.inner.status, Playback::Idle);
    a.inner.status = Playback::Paused;
    a.stop();
    assert_eq!(a.inner.status, Playback::Idle);
}

#[test]
fn the_duration_is_the_latest_end() {
    let frame = |end: u64| HardwareKeyframe {
        target: State::Integer(1),
        start: 0,
        end,
        transition: Easing::Linear,
    };
    let steps = vec![
        Step { device: 4, keyframe: frame(50) },
        Step { device: 2, keyframe: frame(2200) },
        Step { device: 4, keyframe: frame(1000) },
    ];
    let mut timeline = Timeline::blank();
    assert_eq!(timeline.get_duration(), 0);
    timeline.tracks = arrange_steps(steps);
    assert_eq!(timeline.tracks.len(), 2);
    assert_eq!(timeline.tracks[0].device, 4);
    assert_eq!(timeline.tracks[0].keyframes.len(), 2);
    assert_eq!(timeline.get_duration(), 2200);
}

#[test]
fn a_payload_tells_of_the_playback() {
    let db = topology();
    let mut a = animation(vec![GroupTrack { group: 1, keyframes: vec![keyframe(&[1], 0, 1000)] }]);
    a.id = 7;
    a.play(&db).unwrap();
    let payload = AnimationPayload::from(a);
    assert_eq!(payload.id, 7);
    assert_eq!(payload.name, "wave");
    assert_eq!(payload.playing, true);
    assert_eq!(payload.duration, 1000);
    assert_eq!(payload.progress, 0);
    assert_eq!(payload.keyframes.len(), 1);
    assert_eq!(payload.fps, 40);
}

#[test]
fn a_loaded_animation_is_resolved_against_the_loaded_store() {
    let mut source = topology();
    source
        .insert(animation(vec![GroupTrack { group: 3, keyframes: vec![keyframe(&[1, 2], 0, 1000)] }]))
        .unwrap();
    let loaded =
        Database::init_persistent("store".to_string(), false, true, source.snapshot()).unwrap();
    let animations = loaded.list::<Animation>();
    assert_eq!(animations.len(), 1);
    assert_eq!(animations[0].inner.tracks.len(), 1);
    assert_eq!(animations[0].inner.tracks[0].device, 1);
    assert_eq!(animations[0].inner.get_duration(), 1000);
    assert!(loaded.list::<Board>().iter().all(|b| !b.connected));
    assert_eq!(loaded.list::<Device>().len(), 2);
    assert_eq!(loaded.list::<Group>().len(), 3);
}

#[test]
fn a_posture_applies_the_positions_that_can_be_driven() {
    let db = topology();
    let posture = Posture {
        id: 0,
        name: "rest".to_string(),
        description: String::new(),
        positions: vec![
            Position { device: 2, target: State::Integer(10) },
            Position { device: 1, target: State::Integer(20) },
            Position { device: 9, target: State::Integer(30) },
            Position { device: 1, target: State::Integer(40) },
        ],
    };
    let commands = posture.play(&db);
    let targets: Vec<(Id, State)> = commands.into_iter().map(|p| (p.device, p.target)).collect();
    assert_eq!(targets, vec![(1, State::Integer(20)), (1, State::Integer(40))]);
}

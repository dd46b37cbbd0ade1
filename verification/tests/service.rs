use hermes_five::animations::Easing;
use hermes_five::utils::State;
use hermes_studio::ack::Ack;
use hermes_studio::animation::{Animation, GroupTrack, Keyframe, Playback, Timeline};
use hermes_studio::board::{ArduinoType, Board, BoardType, CreateBoard};
use hermes_studio::database::{Database, StoredFiles};
use hermes_studio::device::{Device, DeviceType, Led};
use hermes_studio::entity::{EntityType, Id};
use hermes_studio::group::Group;
use hermes_studio::model::StoreError;
use hermes_studio::posture::{Position, Posture};
use hermes_studio::service::{
    animation_payloads, board_to_bind, close_board, complete_animation, create, create_board,
    create_group, lost_board, mark_board, pause_animation, play_animation, play_posture,
    record_device, remove, rename_group, replace, replace_board, require, save_groups,
    stop_animation, ServiceError,
};

fn persistent() -> Database {
    Database::init_persistent("store".to_string(), true, true, StoredFiles::none()).unwrap()
}

fn board(connected: bool) -> Board {
    Board {
        id: 0,
        name: "uno".to_string(),
        model: BoardType::Arduino(ArduinoType::UNO),
        protocol: "{}".to_string(),
        connected,
    }
}

fn led(bid: Id) -> Device {
    Device {
        id: 0,
        bid,
        name: "led".to_string(),
        inner: DeviceType::Led(Led { pin: 13, state: 0, default: 0, brightness: 255 }),
    }
}

fn animation(device: Id) -> Animation {
    let keyframe = Keyframe::new(
        vec![Position { device, target: State::Boolean(true) }],
        0,
        1000,
        Easing::Linear,
    )
    .unwrap();
    Animation {
        id: 0,
        name: "wave".to_string(),
        description: String::new(),
        repeat: false,
        loopback: 0,
        speed: 100,
        fps: 40,
        tracks: vec![GroupTrack { group: 1, keyframes: vec![keyframe] }],
        inner: Timeline::blank(),
    }
}

#[test]
fn groups_are_created_renamed_and_removed() {
    let mut db = persistent();
    let g = create_group(&mut db, "arm".to_string()).unwrap();
    assert_eq!(g.id, 1);
    assert_eq!(g.name, Some("arm".to_string()));
    let g = rename_group(&mut db, 1, "leg".to_string()).unwrap();
    assert_eq!(g.name, Some("leg".to_string()));
    assert_eq!(db.get::<Group>(&1).unwrap().name, Some("leg".to_string()));
    assert_eq!(
        rename_group(&mut db, 2, "x".to_string()).err(),
        Some(ServiceError::NotFound(EntityType::Group))
    );
    assert_eq!(remove::<Group>(&mut db, 1).unwrap().id, 1);
    assert_eq!(remove::<Group>(&mut db, 1).err(), Some(ServiceError::NotFound(EntityType::Group)));
}

#[test]
fn a_batch_of_groups_is_persisted_once() {
    let mut db = persistent();
    create_group(&mut db, "arm".to_string()).unwrap();
    db.take_pending();
    let mut arm = Group::new("arm2".to_string());
    arm.id = 1;
    let mut leg = Group::new("leg".to_string());
    leg.id = 5;
    let new = Group::new("new".to_string());
    let all = save_groups(&mut db, vec![arm, leg, new]).unwrap();
    let names: Vec<(Id, Option<String>)> = all.into_iter().map(|g| (g.id, g.name)).collect();
    assert_eq!(
        names,
        vec![
            (1, Some("arm2".to_string())),
            (5, Some("leg".to_string())),
            (6, Some("new".to_string()))
        ]
    );
    assert_eq!(db.take_pending(), vec![EntityType::Group]);
    assert!(db.autosave());
}

#[test]
fn a_batch_on_a_volatile_store_is_refused_and_autosave_is_on_afterwards() {
    let mut db = Database::init_volatile().unwrap();
    let r = save_groups(&mut db, vec![Group::new("arm".to_string())]);
    assert_eq!(r.err(), Some(ServiceError::Store(StoreError::MissingDestination)));
    assert_eq!(db.list::<Group>().len(), 1);
    assert!(db.autosave());
}

#[test]
fn a_batch_stops_at_the_first_refusal() {
    let mut db = persistent();
    let mut last = Group::new("last".to_string());
    last.id = usize::MAX;
    let r = save_groups(
        &mut db,
        vec![last, Group::new("more".to_string()), Group::new("never".to_string())],
    );
    assert_eq!(r.err(), Some(ServiceError::Database(StoreError::IdSpaceExhausted)));
    assert_eq!(db.list::<Group>().len(), 1);
    assert!(db.take_pending().is_empty());
    assert!(db.autosave());
}

#[test]
fn boards_are_created_marked_and_replaced() {
    let mut db = persistent();
    let request = CreateBoard { name: "uno".to_string(), model: BoardType::Arduino(ArduinoType::MEGA) };
    let b = create_board(&mut db, request).unwrap();
    assert_eq!(b.id, 1);
    assert_eq!(b.name, "uno");
    assert_eq!(b.model, BoardType::Unknown);
    assert_eq!(b.connected, false);
    assert_eq!(mark_board(&mut db, 1, true).unwrap().connected, true);
    assert_eq!(db.get::<Board>(&1).unwrap().connected, true);
    assert_eq!(lost_board(&db, 1).unwrap().connected, false);
    assert_eq!(db.get::<Board>(&1).unwrap().connected, true);
    assert_eq!(close_board(&mut db, 1).unwrap().connected, false);
    assert_eq!(db.get::<Board>(&1).unwrap().connected, false);
    assert_eq!(close_board(&mut db, 2).err(), Some(ServiceError::NotFound(EntityType::Board)));
    assert_eq!(lost_board(&db, 2).err(), Some(ServiceError::NotFound(EntityType::Board)));

    let mut other = board(false);
    other.id = 4;
    assert_eq!(replace_board(&mut db, other).err(), Some(ServiceError::BoardMissing(4)));
    let mut same = board(false);
    same.id = 1;
    same.name = "renamed".to_string();
    assert_eq!(replace_board(&mut db, same).unwrap().name, "renamed");
}

#[test]
fn a_device_is_bound_to_a_connected_board_only() {
    let mut db = persistent();
    create(&mut db, board(true)).unwrap();
    create(&mut db, board(false)).unwrap();
    assert_eq!(board_to_bind(&db, 1).unwrap().map(|b| b.id), Some(1));
    assert_eq!(board_to_bind(&db, 2).unwrap().map(|b| b.id), None);
    assert_eq!(board_to_bind(&db, 3).err(), Some(ServiceError::BoardMissing(3)));
}

#[test]
fn a_device_state_is_recorded_without_a_write() {
    let mut db = persistent();
    create(&mut db, board(true)).unwrap();
    let mut d = create(&mut db, led(1)).unwrap();
    db.take_pending();
    d.inner = DeviceType::Led(Led { pin: 13, state: 255, default: 0, brightness: 255 });
    let stored = record_device(&mut db, d).unwrap();
    assert_eq!(stored.id, 1);
    assert!(db.take_pending().is_empty());
    assert!(db.autosave());
    match db.get::<Device>(&1).unwrap().inner {
        DeviceType::Led(l) => assert_eq!(l.state, 255),
        _ => panic!("a light was stored"),
    }
}

#[test]
fn records_are_required_created_and_replaced() {
    let mut db = persistent();
    assert_eq!(require::<Device>(&db, 1).err(), Some(ServiceError::NotFound(EntityType::Device)));
    let mut with_id = led(1);
    with_id.id = 3;
    assert_eq!(
        create(&mut db, with_id.clone()).err(),
        Some(ServiceError::Store(StoreError::AlreadyHasId))
    );
    assert_eq!(replace(&mut db, with_id).err(), Some(ServiceError::Store(StoreError::NotFound)));
    let d = create(&mut db, led(1)).unwrap();
    assert_eq!(require::<Device>(&db, d.id).unwrap().id, 1);
    assert_eq!(remove::<Device>(&mut db, 1).unwrap().id, 1);
    assert_eq!(remove::<Device>(&mut db, 1).err(), Some(ServiceError::NotFound(EntityType::Device)));
    assert_eq!(
        remove::<Posture>(&mut db, 1).err(),
        Some(ServiceError::NotFound(EntityType::Posture))
    );
}

#[test]
fn an_animation_plays_pauses_stops_and_completes() {
    let mut db = persistent();
    create(&mut db, board(true)).unwrap();
    create(&mut db, led(1)).unwrap();
    create(&mut db, animation(1)).unwrap();
    db.take_pending();

    let payload = play_animation(&mut db, 1).unwrap();
    assert_eq!(payload.playing, true);
    assert_eq!(payload.duration, 1000);
    assert_eq!(db.get::<Animation>(&1).unwrap().inner.status, Playback::Playing);
    assert_eq!(db.take_pending(), vec![EntityType::Animation]);
    assert_eq!(animation_payloads(&db)[0].playing, true);

    let payload = pause_animation(&mut db, 1).unwrap();
    assert_eq!(payload.playing, false);
    assert_eq!(db.get::<Animation>(&1).unwrap().inner.status, Playback::Paused);
    assert!(db.take_pending().is_empty());

    play_animation(&mut db, 1).unwrap();
    let payload = complete_animation(&mut db, 1).unwrap();
    assert_eq!(payload.playing, false);
    assert_eq!(db.get::<Animation>(&1).unwrap().inner.status, Playback::Idle);

    play_animation(&mut db, 1).unwrap();
    let payload = stop_animation(&mut db, 1).unwrap();
    assert_eq!(payload.playing, false);
    assert_eq!(payload.duration, 1000);
    assert_eq!(db.get::<Animation>(&1).unwrap().inner.status, Playback::Idle);

    assert_eq!(
        play_animation(&mut db, 2).err(),
        Some(ServiceError::NotFound(EntityType::Animation))
    );
    assert_eq!(
        pause_animation(&mut db, 2).err(),
        Some(ServiceError::NotFound(EntityType::Animation))
    );
    assert_eq!(
        stop_animation(&mut db, 2).err(),
        Some(ServiceError::NotFound(EntityType::Animation))
    );
    assert!(complete_animation(&mut db, 2).is_none());
}

#[test]
fn an_animation_on_disconnected_boards_is_empty() {
    let mut db = persistent();
    create(&mut db, board(false)).unwrap();
    create(&mut db, led(1)).unwrap();
    create(&mut db, animation(1)).unwrap();
    assert_eq!(play_animation(&mut db, 1).err(), Some(ServiceError::AnimationEmpty));
    assert_eq!(db.get::<Animation>(&1).unwrap().inner.status, Playback::Idle);
    mark_board(&mut db, 1, true).unwrap();
    assert!(play_animation(&mut db, 1).is_ok());
}

#[test]
fn a_posture_is_played_from_the_store() {
    let mut db = persistent();
    create(&mut db, board(true)).unwrap();
    create(&mut db, led(1)).unwrap();
    let posture = Posture {
        id: 0,
        name: "rest".to_string(),
        description: String::new(),
        positions: vec![
            Position { device: 1, target: State::Integer(20) },
            Position { device: 2, target: State::Integer(30) },
        ],
    };
    create(&mut db, posture).unwrap();
    let commands = play_posture(&db, 1).unwrap();
    assert_eq!(commands.len(), 1);
    assert_eq!(commands[0].device, 1);
    assert_eq!(commands[0].target, State::Integer(20));
    assert_eq!(play_posture(&db, 2).err(), Some(ServiceError::NotFound(EntityType::Posture)));
}

#[test]
fn errors_say_what_went_wrong() {
    assert_eq!(ServiceError::NotFound(EntityType::Group).message(), "Group not found");
    assert_eq!(ServiceError::NotFound(EntityType::Animation).message(), "Animation not found");
    assert_eq!(ServiceError::BoardMissing(0).message(), "Board [0] not found");
    assert_eq!(ServiceError::BoardMissing(1204).message(), "Board [1204] not found");
    assert_eq!(
        ServiceError::AnimationEmpty.message(),
        "Animation empty: check if it has keyframes or board(s) are connected."
    );
    assert_eq!(
        ServiceError::Store(StoreError::NotFound).message(),
        "No entity found with this ID."
    );
    assert_eq!(
        ServiceError::Database(StoreError::MissingDestination).message(),
        "Database error: Destination folder undefined."
    );
}

#[test]
fn an_answer_is_acknowledged() {
    let ack = Ack::from(Ok::<u32, ServiceError>(5));
    assert!(ack.is_success());
    match ack {
        Ack::Success { success } => assert_eq!(success, 5),
        Ack::Error { .. } => panic!("the request went well"),
    }
    let ack = Ack::from(Err::<u32, ServiceError>(ServiceError::NotFound(EntityType::Board)));
    assert!(!ack.is_success());
    match ack {
        Ack::Error { error } => assert_eq!(error, "Board not found"),
        Ack::Success { .. } => panic!("the request was refused"),
    }
    match Ack::<u32>::refusal("Invalid group: missing field".to_string()) {
        Ack::Error { error } => assert_eq!(error, "Invalid group: missing field"),
        Ack::Success { .. } => panic!("the request was refused"),
    }
}

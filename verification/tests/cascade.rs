use hermes_studio::board::{Board, BoardType};
use hermes_studio::database::{Database, StoredFiles};
use hermes_studio::device::{Device, DeviceType, Led};
use hermes_studio::entity::{EntityType, Id};
use hermes_studio::group::Group;
use hermes_studio::model::StoreError;

fn persistent() -> Database {
    Database::init_persistent("store".to_string(), true, true, StoredFiles::none()).unwrap()
}

fn board(name: &str) -> Board {
    Board {
        id: 0,
        name: name.to_string(),
        model: BoardType::Unknown,
        protocol: String::new(),
        connected: false,
    }
}

fn led(bid: Id) -> Device {
    Device {
        id: 0,
        bid,
        name: "led".to_string(),
        inner: DeviceType::Led(Led { pin: 13, state: 0, default: 0, brightness: 255 }),
    }
}

#[test]
fn deleting_a_board_removes_its_device_and_the_group_of_the_device() {
    let mut db = persistent();
    let b = db.insert(board("uno")).unwrap();
    assert_eq!(b.id, 1);
    let d = db.insert(led(1)).unwrap();
    assert_eq!(d.id, 1);
    let groups = db.list::<Group>();
    assert_eq!(groups.len(), 1);
    assert_eq!(groups[0].id, 1);
    assert_eq!(groups[0].device, Some(1));
    assert_eq!(groups[0].name, None);
    assert!(groups[0].children.is_empty());

    let deleted = db.delete::<Board>(1).unwrap();
    assert_eq!(deleted.unwrap().name, "uno");
    assert!(db.get::<Device>(&1).is_none());
    assert!(db.get::<Group>(&1).is_none());
    assert!(db.list::<Device>().is_empty());
    assert!(db.list::<Group>().is_empty());
    assert!(db.list::<Board>().is_empty());
}

#[test]
fn deleting_a_board_leaves_the_devices_of_other_boards() {
    let mut db = persistent();
    db.insert(board("uno")).unwrap();
    db.insert(board("due")).unwrap();
    db.insert(led(1)).unwrap();
    db.insert(led(2)).unwrap();
    db.insert(led(1)).unwrap();
    db.take_pending();

    db.delete::<Board>(1).unwrap();
    let devices: Vec<Id> = db.list::<Device>().iter().map(|d| d.id).collect();
    assert_eq!(devices, vec![2]);
    let groups = db.list::<Group>();
    assert_eq!(groups.len(), 1);
    assert_eq!(groups[0].device, Some(2));
    assert_eq!(
        db.take_pending(),
        vec![
            EntityType::Group,
            EntityType::Device,
            EntityType::Group,
            EntityType::Device,
            EntityType::Board
        ]
    );
}

#[test]
fn a_stored_device_is_wrapped_once() {
    let mut db = persistent();
    db.insert(board("uno")).unwrap();
    let mut d = db.insert(led(1)).unwrap();
    assert_eq!(db.wrapper_of(d.id), Some(1));
    d.name = "lamp".to_string();
    db.update(d).unwrap();
    assert_eq!(db.list::<Group>().len(), 1);
    assert_eq!(db.get::<Device>(&1).unwrap().name, "lamp");
}

#[test]
fn deleting_a_device_removes_its_group_and_the_mention_of_the_group() {
    let mut db = persistent();
    db.insert(board("uno")).unwrap();
    db.insert(led(1)).unwrap();
    db.insert(led(1)).unwrap();
    let mut parent = Group::new("arm".to_string());
    parent.children = vec![1, 2, 1];
    let parent = db.insert(parent).unwrap();
    assert_eq!(db.parent_of(1), Some(parent.id));

    let deleted = db.delete::<Device>(1).unwrap();
    assert_eq!(deleted.unwrap().id, 1);
    assert!(db.get::<Group>(&1).is_none());
    assert_eq!(db.get::<Group>(&parent.id).unwrap().children, vec![2]);
    assert!(db.get::<Device>(&2).is_some());
    assert!(db.get::<Group>(&2).is_some());
}

#[test]
fn deleting_a_group_removes_the_device_that_it_wraps() {
    let mut db = persistent();
    db.insert(board("uno")).unwrap();
    db.insert(led(1)).unwrap();
    let deleted = db.delete::<Group>(1).unwrap();
    assert_eq!(deleted.unwrap().device, Some(1));
    assert!(db.list::<Device>().is_empty());
    assert!(db.list::<Group>().is_empty());
    assert_eq!(db.list::<Board>().len(), 1);
}

#[test]
fn without_autosave_a_delete_does_not_cascade() {
    let mut db = Database::init_volatile().unwrap();
    db.insert(board("uno")).unwrap();
    db.insert(led(1)).unwrap();
    db.delete::<Board>(1).unwrap();
    assert_eq!(db.list::<Device>().len(), 1);
    assert_eq!(db.list::<Group>().len(), 1);
}

#[test]
fn a_cascade_without_destination_stops_at_the_first_write() {
    let mut db = Database::init_volatile().unwrap();
    db.insert(board("uno")).unwrap();
    db.insert(led(1)).unwrap();
    db.insert(led(1)).unwrap();
    db.set_autosave(true);
    assert_eq!(db.delete::<Board>(1).err(), Some(StoreError::MissingDestination));
    assert!(db.list::<Board>().is_empty());
    let devices: Vec<Id> = db.list::<Device>().iter().map(|d| d.id).collect();
    assert_eq!(devices, vec![2]);
    let groups: Vec<Id> = db.list::<Group>().iter().map(|g| g.id).collect();
    assert_eq!(groups, vec![2]);
}

#[test]
fn devices_of_lists_the_devices_of_a_board_in_order() {
    let mut db = persistent();
    db.insert(board("uno")).unwrap();
    db.insert(board("due")).unwrap();
    db.insert(led(2)).unwrap();
    db.insert(led(1)).unwrap();
    db.insert(led(2)).unwrap();
    assert_eq!(db.devices_of(2), vec![1, 3]);
    assert_eq!(db.devices_of(1), vec![2]);
    assert!(db.devices_of(3).is_empty());
}

#[test]
fn remove_child_takes_every_occurrence() {
    let mut g = Group::new("arm".to_string());
    g.children = vec![3, 1, 3, 2];
    assert!(g.has_child(3));
    g.remove_child(3);
    assert_eq!(g.children, vec![1, 2]);
    assert!(!g.has_child(3));
}

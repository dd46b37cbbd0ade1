use hermes_studio::board::{Board, BoardType};
use hermes_studio::database::{Database, StoredFiles};
use hermes_studio::entity::{Entity, EntityType, Id};
use hermes_studio::group::Group;
use hermes_studio::model::StoreError;
use hermes_studio::posture::Posture;

fn mock_entity() -> Posture {
    Posture { id: 0, name: String::new(), description: String::new(), positions: vec![] }
}

fn board(name: &str) -> Board {
    Board {
        id: 0,
        name: name.to_string(),
        model: BoardType::Unknown,
        protocol: String::new(),
        connected: false,
    }
}

#[test]
fn test_init_volatile() {
    let db = Database::init_volatile().expect("Failed to initialize volatile storage");
    assert_eq!(db.destination(), None);
    assert_eq!(db.autosave(), false);
}

#[test]
fn test_init_persistent_create_new() {
    let db = Database::init_persistent("store".to_string(), true, false, StoredFiles::none())
        .expect("Failed to initialize persistent storage");
    assert!(db.destination().is_some());
    assert_eq!(db.autosave(), false);
}

#[test]
fn test_init_persistent_load_existing() {
    let mut db = Database::init_persistent("store".to_string(), true, true, StoredFiles::none())
        .expect("Failed to initialize persistent storage");

    let entity = mock_entity();
    db.set(entity.clone()).expect("Failed to set entity");
    assert_eq!(db.take_pending(), vec![EntityType::Posture]);

    let db_loaded = Database::init_persistent("store".to_string(), false, false, db.snapshot())
        .expect("Failed to initialize persistent storage");
    let entities: Vec<Posture> = db_loaded.list();
    assert_eq!(entities.len(), 1);
}

#[test]
fn test_set_and_get_entity() {
    let mut db = Database::init_volatile().expect("Failed to initialize volatile storage");
    let entity = mock_entity();
    let saved_entity = db.set(entity.clone()).expect("Failed to save entity");
    assert_eq!(saved_entity.get_id(), 1);
    let retrieved_entity = db.get::<Posture>(&saved_entity.get_id());
    assert!(retrieved_entity.is_some());
    assert_eq!(retrieved_entity.unwrap().get_id(), 1);
}

#[test]
fn test_get_with_nonexistent_entity() {
    let db = Database::init_volatile().expect("Failed to initialize volatile storage");
    let result = db.get::<Posture>(&1);
    assert!(result.is_none());
}

#[test]
fn test_delete_entity() {
    let mut db = Database::init_volatile().expect("Failed to initialize volatile storage");
    let entity = mock_entity();
    let saved_entity = db.set(entity.clone()).expect("Failed to save entity");
    assert_eq!(saved_entity.get_id(), 1);
    let deleted_entity = db.delete::<Posture>(1).expect("Failed to delete entity");
    assert!(deleted_entity.is_some());
    let retrieved_entity = db.get::<Posture>(&1);
    assert!(retrieved_entity.is_none());
}

#[test]
fn test_delete_with_nonexistent_entity() {
    let mut db = Database::init_volatile().expect("Failed to initialize volatile storage");
    let result = db.delete::<Posture>(1);
    assert!(result.is_ok());
    assert!(result.unwrap().is_none());
}

#[test]
fn test_dump_and_load() {
    let mut db = Database::init_persistent("store".to_string(), true, true, StoredFiles::none())
        .expect("Failed to initialize persistent storage");

    let entity = mock_entity();
    db.set(entity.clone()).expect("Failed to save entity");
    db.dump().expect("Failed to dump storage");
    assert_eq!(db.take_pending(), vec![EntityType::Posture, EntityType::Posture]);

    let db_reloaded = Database::init_persistent("store".to_string(), false, false, db.snapshot())
        .expect("Failed to initialize persistent storage");
    let entities: Vec<Posture> = db_reloaded.list();
    assert_eq!(entities.len(), 1);
}

#[test]
fn test_dump_without_destination() {
    let mut db = Database::init_volatile().expect("Failed to initialize volatile storage");
    let result = db.dump();
    assert!(result.is_err());
    assert_eq!(result, Err(StoreError::MissingDestination));
}

#[test]
fn insert_then_get_returns_the_entity_under_a_fresh_id() {
    let mut db = Database::init_volatile().unwrap();
    let stored = db.insert(board("uno")).unwrap();
    assert_eq!(stored.id, 1);
    assert_eq!(stored.name, "uno");
    let found = db.get::<Board>(&stored.id).unwrap();
    assert_eq!(found.id, 1);
    assert_eq!(found.name, "uno");
    assert_eq!(found.model, BoardType::Unknown);
    assert_eq!(found.connected, false);
}

#[test]
fn insert_refuses_an_entity_that_has_an_id() {
    let mut db = Database::init_volatile().unwrap();
    let mut b = board("uno");
    b.id = 7;
    assert_eq!(db.insert(b).err(), Some(StoreError::AlreadyHasId));
    assert!(db.list::<Board>().is_empty());
}

#[test]
fn update_refuses_an_entity_that_is_not_stored() {
    let mut db = Database::init_volatile().unwrap();
    let mut b = board("uno");
    b.id = 3;
    assert_eq!(db.update(b).err(), Some(StoreError::NotFound));
    assert!(db.get::<Board>(&3).is_none());
}

#[test]
fn update_replaces_the_stored_entity() {
    let mut db = Database::init_volatile().unwrap();
    let mut stored = db.insert(board("uno")).unwrap();
    stored.name = "mega".to_string();
    let updated = db.update(stored).unwrap();
    assert_eq!(updated.id, 1);
    assert_eq!(db.get::<Board>(&1).unwrap().name, "mega");
    assert_eq!(db.list::<Board>().len(), 1);
}

#[test]
fn ids_ascend_and_the_next_is_one_more_than_the_largest() {
    let mut db = Database::init_volatile().unwrap();
    let ids: Vec<Id> = (0..4).map(|_| db.insert(board("b")).unwrap().id).collect();
    assert_eq!(ids, vec![1, 2, 3, 4]);
    db.delete::<Board>(2).unwrap();
    assert_eq!(db.insert(board("b")).unwrap().id, 5);
    db.delete::<Board>(5).unwrap();
    assert_eq!(db.insert(board("b")).unwrap().id, 5);
}

#[test]
fn the_only_id_is_reissued_after_its_entity_is_deleted() {
    let mut db = Database::init_volatile().unwrap();
    assert_eq!(db.insert(board("b")).unwrap().id, 1);
    db.delete::<Board>(1).unwrap();
    assert_eq!(db.insert(board("b")).unwrap().id, 1);
}

#[test]
fn set_keeps_a_given_id() {
    let mut db = Database::init_volatile().unwrap();
    let mut g = Group::new("arm".to_string());
    g.id = 9;
    assert_eq!(db.set(g).unwrap().id, 9);
    assert_eq!(db.insert(Group::new("leg".to_string())).unwrap().id, 10);
    let listed: Vec<Id> = db.list::<Group>().iter().map(|g| g.id).collect();
    assert_eq!(listed, vec![9, 10]);
}

#[test]
fn no_id_is_left_after_the_largest() {
    let mut db = Database::init_volatile().unwrap();
    let mut g = Group::new("last".to_string());
    g.id = usize::MAX;
    db.set(g).unwrap();
    assert_eq!(
        db.insert(Group::new("more".to_string())).err(),
        Some(StoreError::IdSpaceExhausted)
    );
    assert_eq!(db.list::<Group>().len(), 1);
}

#[test]
fn list_of_an_untouched_category_is_empty() {
    let db = Database::init_volatile().unwrap();
    assert!(db.list::<Board>().is_empty());
    assert!(db.list::<Group>().is_empty());
    assert!(!db.is_defined(EntityType::Board));
}

#[test]
fn autosave_journals_each_write() {
    let mut db =
        Database::init_persistent("store".to_string(), true, true, StoredFiles::none()).unwrap();
    db.insert(board("uno")).unwrap();
    db.insert(Group::new("arm".to_string())).unwrap();
    assert_eq!(db.take_pending(), vec![EntityType::Board, EntityType::Group]);
    assert!(db.take_pending().is_empty());
    db.set_autosave(false);
    db.insert(board("due")).unwrap();
    assert!(db.take_pending().is_empty());
}

#[test]
fn autosave_without_destination_fails_after_the_write() {
    let mut db = Database::init_volatile().unwrap();
    db.set_autosave(true);
    assert_eq!(db.insert(board("uno")).err(), Some(StoreError::MissingDestination));
    assert_eq!(db.list::<Board>().len(), 1);
}

#[test]
fn save_to_file_needs_a_destination_and_a_category() {
    let mut db = Database::init_volatile().unwrap();
    assert_eq!(db.save_to_file(EntityType::Board), Err(StoreError::MissingDestination));
    let mut db =
        Database::init_persistent("store".to_string(), true, false, StoredFiles::none()).unwrap();
    assert_eq!(db.save_to_file(EntityType::Board), Err(StoreError::UnknownCategory));
    db.insert(board("uno")).unwrap();
    assert_eq!(db.save_to_file(EntityType::Board), Ok(()));
    assert_eq!(db.take_pending(), vec![EntityType::Board]);
}

#[test]
fn dump_journals_the_categories_that_exist() {
    let mut db =
        Database::init_persistent("store".to_string(), true, false, StoredFiles::none()).unwrap();
    db.insert(Group::new("arm".to_string())).unwrap();
    db.insert(board("uno")).unwrap();
    db.dump().unwrap();
    assert_eq!(db.take_pending(), vec![EntityType::Board, EntityType::Group]);
}

#[test]
fn load_resets_the_connection_of_boards() {
    let mut source = Database::init_volatile().unwrap();
    let mut b = board("uno");
    b.connected = true;
    source.set(b).unwrap();
    let loaded =
        Database::init_persistent("store".to_string(), false, true, source.snapshot()).unwrap();
    let boards = loaded.list::<Board>();
    assert_eq!(boards.len(), 1);
    assert_eq!(boards[0].name, "uno");
    assert_eq!(boards[0].connected, false);
}

#[test]
fn load_takes_the_later_of_two_records_with_one_id() {
    let mut first = Group::new("first".to_string());
    first.id = 4;
    let mut second = Group::new("second".to_string());
    second.id = 4;
    let mut files = StoredFiles::none();
    files.groups = Some(vec![first, second]);
    let db = Database::init_persistent("store".to_string(), false, false, files).unwrap();
    let groups = db.list::<Group>();
    assert_eq!(groups.len(), 1);
    assert_eq!(groups[0].name, Some("second".to_string()));
    assert!(db.is_defined(EntityType::Group));
    assert!(!db.is_defined(EntityType::Board));
}

#[test]
fn reset_ignores_the_files() {
    let mut files = StoredFiles::none();
    files.groups = Some(vec![Group::new("old".to_string())]);
    let db = Database::init_persistent("store".to_string(), true, false, files).unwrap();
    assert!(db.list::<Group>().is_empty());
}

#[test]
fn a_volatile_store_loads_nothing() {
    let mut db = Database::init_volatile().unwrap();
    let mut files = StoredFiles::none();
    files.groups = Some(vec![Group::new("old".to_string())]);
    db.load(files);
    assert!(db.list::<Group>().is_empty());
}

#[test]
fn store_error_messages() {
    assert_eq!(StoreError::NotFound.message(), "No entity found with this ID.");
    assert_eq!(
        StoreError::AlreadyHasId.message(),
        "Cannot insert an entity that already have an id"
    );
    assert_eq!(StoreError::MissingDestination.message(), "Destination folder undefined.");
    assert_eq!(StoreError::UnknownCategory.message(), "Entity type undefined.");
}

#[test]
fn a_reloaded_store_holds_the_same_records() {
    let mut source = Database::init_persistent("store".to_string(), true, true, StoredFiles::none())
        .unwrap();
    source.insert(board("uno")).unwrap();
    source.insert(board("due")).unwrap();
    let mut g = Group::new("arm".to_string());
    g.children = vec![4, 2];
    source.insert(g).unwrap();
    let mut p = mock_entity();
    p.name = "rest".to_string();
    source.insert(p).unwrap();
    source.dump().unwrap();

    let loaded =
        Database::init_persistent("elsewhere".to_string(), false, false, source.snapshot())
            .unwrap();
    assert_eq!(loaded.list::<Board>(), source.list::<Board>());
    assert_eq!(loaded.list::<Group>(), source.list::<Group>());
    assert_eq!(loaded.list::<Posture>(), source.list::<Posture>());
    assert_eq!(loaded.destination(), Some("elsewhere".to_string()));
    assert!(loaded.is_defined(EntityType::Device));
}

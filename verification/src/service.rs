//! What the interface asks of the store, event by event: the decisions between a
//! request and its answer. Talking to clients and to hardware is left to the caller.

use vstd::prelude::*;
use vstd::string::StringExecFns;
use crate::animation::{Animation, AnimationPayload, AnimationPayloadView, AnimationView, Playback, TimelineView};
use crate::board::{Board, BoardView, CreateBoard};
use crate::database::{Database, Stored};
use crate::device::Device;
use crate::entity::{views_of, Entity, EntityType, Id};
use crate::group::{Group, GroupView};
use crate::model::{StoreError, StoreView, Verdict};
use crate::posture::{applicable, Position, Posture};
use crate::table::lists;
use crate::text::{decimal, format_number};

verus! {

/// Why a request is turned down.
#[derive(Clone, Copy, Debug, PartialEq, Eq, Structural)]
pub enum ServiceError {
    /// No record of that category is stored under the identifier that was given.
    NotFound(EntityType),
    /// The board that a device or an update names is not stored.
    BoardMissing(Id),
    /// The animation resolved to nothing that can be played.
    AnimationEmpty,
    /// The store turned the operation down.
    Store(StoreError),
    /// The store turned a batch of operations down.
    Database(StoreError),
}

impl ServiceError {
    /// What the error says.
    pub open spec fn spec_message(self) -> Seq<char> {
        match self {
            ServiceError::NotFound(kind) => kind.spec_name() + " not found"@,
            ServiceError::BoardMissing(id) => "Board ["@ + decimal(id as nat) + "] not found"@,
            ServiceError::AnimationEmpty => "Animation empty: check if it has keyframes or board(s) are connected."@,
            ServiceError::Store(e) => e.spec_message(),
            ServiceError::Database(e) => "Database error: "@ + e.spec_message(),
        }
    }

    /// What the error says.
    pub fn message(&self) -> (text: String)
        ensures
            text@ == self.spec_message(),
    {
        match self {
            ServiceError::NotFound(kind) => kind.name().concat(" not found"),
            ServiceError::BoardMissing(id) => {
                let number = format_number(*id);
                "Board [".to_owned().concat(number.as_str()).concat("] not found")
            },
            ServiceError::AnimationEmpty => "Animation empty: check if it has keyframes or board(s) are connected.".to_owned(),
            ServiceError::Store(e) => e.message(),
            ServiceError::Database(e) => {
                let reason = e.message();
                "Database error: ".to_owned().concat(reason.as_str())
            },
        }
    }
}

/// The outcome of a request that hands a record back.
pub type Answer<V> = Result<V, ServiceError>;

/// The store's outcome as the answer to a request.
pub open spec fn lifted<V>(v: Verdict<V>) -> Answer<V> {
    match v {
        Ok(x) => Ok(x),
        Err(e) => Err(ServiceError::Store(e)),
    }
}

/// The store's outcome of a removal as the answer to a request: having nothing to
/// remove is a refusal.
pub open spec fn removed<V>(kind: EntityType, v: Verdict<Option<V>>) -> Answer<V> {
    match v {
        Ok(Some(x)) => Ok(x),
        Ok(None) => Err(ServiceError::NotFound(kind)),
        Err(e) => Err(ServiceError::Store(e)),
    }
}

/// `r` is the executable form of the answer `v`.
pub open spec fn answers<T: View>(r: Result<T, ServiceError>, v: Answer<T::V>) -> bool {
    match v {
        Ok(x) => r matches Ok(e) && e@ == x,
        Err(e) => r == Err::<T, ServiceError>(e),
    }
}

/// A copy of the record of type `T` stored under `id`; a refusal where there is none.
pub fn require<T: Stored>(database: &Database, id: Id) -> (r: Result<T, ServiceError>)
    ensures
        T::table(database@).contains_key(id) ==> (r matches Ok(e) && e@ == T::table(
            database@,
        )[id]),
        !T::table(database@).contains_key(id) ==> r == Err::<T, ServiceError>(
            ServiceError::NotFound(T::kind()),
        ),
{
    match database.get::<T>(&id) {
        Some(entity) => Ok(entity),
        None => Err(ServiceError::NotFound(T::get_entity_type())),
    }
}

/// Deletes the record of type `T` stored under `id` and hands it back; a refusal
/// where there is none.
pub fn remove<T: Stored>(database: &mut Database, id: Id) -> (r: Result<T, ServiceError>)
    ensures
        final(database)@ == T::deleted(old(database)@, id).0,
        answers(r, removed(T::kind(), T::deleted(old(database)@, id).1)),
{
    match database.delete::<T>(id) {
        Ok(Some(entity)) => Ok(entity),
        Ok(None) => Err(ServiceError::NotFound(T::get_entity_type())),
        Err(e) => Err(ServiceError::Store(e)),
    }
}

/// Stores a new record of type `T`.
pub fn create<T: Stored>(database: &mut Database, entity: T) -> (r: Result<T, ServiceError>)
    ensures
        T::id_of(entity@) != 0 ==> r == Err::<T, ServiceError>(
            ServiceError::Store(StoreError::AlreadyHasId),
        ) && final(database)@ == old(database)@,
        T::id_of(entity@) == 0 ==> final(database)@ == T::stored(old(database)@, entity@).0
            && answers(r, lifted(T::stored(old(database)@, entity@).1)),
{
    match database.insert(entity) {
        Ok(stored) => Ok(stored),
        Err(e) => Err(ServiceError::Store(e)),
    }
}

/// Replaces a stored record of type `T`.
pub fn replace<T: Stored>(database: &mut Database, entity: T) -> (r: Result<T, ServiceError>)
    ensures
        !T::table(old(database)@).contains_key(T::id_of(entity@)) ==> r == Err::<
            T,
            ServiceError,
        >(ServiceError::Store(StoreError::NotFound)) && final(database)@ == old(database)@,
        T::table(old(database)@).contains_key(T::id_of(entity@)) ==> final(database)@
            == T::stored(old(database)@, entity@).0 && answers(
            r,
            lifted(T::stored(old(database)@, entity@).1),
        ),
{
    match database.update(entity) {
        Ok(stored) => Ok(stored),
        Err(e) => Err(ServiceError::Store(e)),
    }
}

// ---------------------------------------------------------------------- groups

/// Creates an empty composite group with the given name.
pub fn create_group(database: &mut Database, name: String) -> (r: Result<Group, ServiceError>)
    ensures
        final(database)@ == old(database)@.set_group(Group::new_view(name@)).0,
        answers(r, lifted(old(database)@.set_group(Group::new_view(name@)).1)),
{
    create(database, Group::new(name))
}

/// Gives the group stored under `id` another name.
pub fn rename_group(database: &mut Database, id: Id, name: String) -> (r: Result<
    Group,
    ServiceError,
>)
    ensures
        !old(database)@.groups.contains_key(id) ==> r == Err::<Group, ServiceError>(
            ServiceError::NotFound(EntityType::Group),
        ) && final(database)@ == old(database)@,
        old(database)@.groups.contains_key(id) ==> {
            let renamed = GroupView { name: Some(name@), ..old(database)@.groups[id] };
            &&& final(database)@ == old(database)@.set_group(renamed).0
            &&& answers(r, lifted(old(database)@.set_group(renamed).1))
        },
{
    let mut group = match database.get_group(id) {
        None => {
            return Err(ServiceError::NotFound(EntityType::Group));
        },
        Some(group) => group,
    };
    proof {
        (*database).lemma_keyed();
    }
    group.name = Some(name);
    match database.update_group(group) {
        Ok(stored) => Ok(stored),
        Err(e) => Err(ServiceError::Store(e)),
    }
}

/// What saving a whole set of groups makes of the store: with autosave off, the groups
/// are stored one after the other; where that went well the category is persisted
/// once; autosave is on afterwards, whatever happened.
pub open spec fn groups_saved(store: StoreView, groups: Seq<GroupView>) -> (
    StoreView,
    Answer<()>,
) {
    let quiet = StoreView { autosave: false, ..store };
    let (written, verdict) = quiet.set_groups(groups);
    match verdict {
        Err(e) => (StoreView { autosave: true, ..written }, Err(ServiceError::Database(e))),
        Ok(_) => match written.persist(EntityType::Group) {
            Err(e) => (StoreView { autosave: true, ..written }, Err(ServiceError::Store(e))),
            Ok(persisted) => (StoreView { autosave: true, ..persisted }, Ok(())),
        },
    }
}

/// Saves a whole set of groups at once and hands back all groups of the store.
/// Autosave is suspended over the batch, the category is persisted once at its end,
/// and autosave is on afterwards.
pub fn save_groups(database: &mut Database, groups: Vec<Group>) -> (r: Result<
    Vec<Group>,
    ServiceError,
>)
    ensures
        final(database)@ == groups_saved(old(database)@, views_of(groups@)).0,
        match groups_saved(old(database)@, views_of(groups@)).1 {
            Ok(_) => r matches Ok(all) && lists::<Group>(views_of(all@), final(database)@.groups),
            Err(e) => r == Err::<Vec<Group>, ServiceError>(e),
        },
{
    database.set_autosave(false);
    let ghost quiet = database@;
    let ghost all = views_of(groups@);
    let mut i: usize = 0;
    proof {
        assert(all.skip(0) =~= all);
    }
    while i < groups.len()
        invariant
            i <= groups@.len(),
            all == views_of(groups@),
            quiet == (StoreView { autosave: false, ..old(database)@ }),
            quiet.set_groups(all) == database@.set_groups(all.skip(i as int)),
        decreases groups@.len() - i,
    {
        proof {
            let rest = all.skip(i as int);
            assert(rest.first() == groups@[i as int]@);
            assert(rest.drop_first() =~= all.skip(i + 1));
        }
        match database.set_group(groups[i].duplicate()) {
            Err(e) => {
                database.set_autosave(true);
                return Err(ServiceError::Database(e));
            },
            Ok(_) => {},
        }
        i += 1;
    }
    match database.save_to_file(EntityType::Group) {
        Err(e) => {
            database.set_autosave(true);
            Err(ServiceError::Store(e))
        },
        Ok(()) => {
            database.set_autosave(true);
            Ok(database.list_groups())
        },
    }
}

// ---------------------------------------------------------------------- boards

/// Creates the board that a client asks for.
pub fn create_board(database: &mut Database, request: CreateBoard) -> (r: Result<
    Board,
    ServiceError,
>)
    ensures
        final(database)@ == old(database)@.set_board(request.spec_board()).0,
        answers(r, lifted(old(database)@.set_board(request.spec_board()).1)),
{
    create(database, request.into_board())
}

/// Replaces a stored board; the refusal names the board where it is not stored.
pub fn replace_board(database: &mut Database, board: Board) -> (r: Result<Board, ServiceError>)
    ensures
        !old(database)@.boards.contains_key(board@.id) ==> r == Err::<Board, ServiceError>(
            ServiceError::BoardMissing(board@.id),
        ) && final(database)@ == old(database)@,
        old(database)@.boards.contains_key(board@.id) ==> final(database)@
            == old(database)@.set_board(board@).0 && answers(
            r,
            lifted(old(database)@.set_board(board@).1),
        ),
{
    if database.find_board(board.id).is_none() {
        return Err(ServiceError::BoardMissing(board.id));
    }
    match database.update_board(board) {
        Ok(stored) => Ok(stored),
        Err(e) => Err(ServiceError::Store(e)),
    }
}

/// Records whether the board stored under `id` is connected, after its connection was
/// opened or closed.
pub fn mark_board(database: &mut Database, id: Id, connected: bool) -> (r: Result<
    Board,
    ServiceError,
>)
    ensures
        !old(database)@.boards.contains_key(id) ==> r == Err::<Board, ServiceError>(
            ServiceError::NotFound(EntityType::Board),
        ) && final(database)@ == old(database)@,
        old(database)@.boards.contains_key(id) ==> {
            let marked = BoardView { connected, ..old(database)@.boards[id] };
            &&& final(database)@ == old(database)@.set_board(marked).0
            &&& answers(r, lifted(old(database)@.set_board(marked).1))
        },
{
    let board = match database.get_board(id) {
        None => {
            return Err(ServiceError::NotFound(EntityType::Board));
        },
        Some(board) => board,
    };
    match database.set_board(board.open(connected)) {
        Ok(stored) => Ok(stored),
        Err(e) => Err(ServiceError::Store(e)),
    }
}

/// Records that the connection of the board stored under `id` was closed.
pub fn close_board(database: &mut Database, id: Id) -> (r: Result<Board, ServiceError>)
    ensures
        !old(database)@.boards.contains_key(id) ==> r == Err::<Board, ServiceError>(
            ServiceError::NotFound(EntityType::Board),
        ) && final(database)@ == old(database)@,
        old(database)@.boards.contains_key(id) ==> {
            let closed = old(database)@.boards[id].disconnected();
            &&& final(database)@ == old(database)@.set_board(closed).0
            &&& answers(r, lifted(old(database)@.set_board(closed).1))
        },
{
    mark_board(database, id, false)
}

/// The board stored under `id` as clients are to see it after a command to one of its
/// devices failed: not connected. The store is left as it is.
pub fn lost_board(database: &Database, id: Id) -> (r: Result<Board, ServiceError>)
    ensures
        database@.boards.contains_key(id) ==> (r matches Ok(b) && b@
            == database@.boards[id].disconnected()),
        !database@.boards.contains_key(id) ==> r == Err::<Board, ServiceError>(
            ServiceError::NotFound(EntityType::Board),
        ),
{
    match database.get_board(id) {
        None => Err(ServiceError::NotFound(EntityType::Board)),
        Some(board) => Ok(board.close()),
    }
}

// ---------------------------------------------------------------------- devices

/// The board that a device has to be bound to before it is stored: the board that
/// the device names, where that board is connected; none where it is not connected; a
/// refusal where it is not stored.
pub fn board_to_bind(database: &Database, bid: Id) -> (r: Result<Option<Board>, ServiceError>)
    ensures
        !database@.boards.contains_key(bid) ==> r == Err::<Option<Board>, ServiceError>(
            ServiceError::BoardMissing(bid),
        ),
        database@.boards.contains_key(bid) && !database@.boards[bid].connected ==> r == Ok::<
            Option<Board>,
            ServiceError,
        >(None),
        database@.boards.contains_key(bid) && database@.boards[bid].connected ==> (r matches Ok(
            Some(b),
        ) && b@ == database@.boards[bid]),
{
    match database.get_board(bid) {
        None => Err(ServiceError::BoardMissing(bid)),
        Some(board) => {
            if board.connected {
                Ok(Some(board))
            } else {
                Ok(None)
            }
        },
    }
}

/// What recording a device's new state makes of the store: the device is stored with
/// autosave off, and autosave is on afterwards.
pub open spec fn device_recorded(store: StoreView, device: crate::device::DeviceView) -> (
    StoreView,
    Answer<crate::device::DeviceView>,
) {
    let quiet = StoreView { autosave: false, ..store };
    let (written, verdict) = quiet.set_device(device);
    (StoreView { autosave: true, ..written }, lifted(verdict))
}

/// Stores a device after a command changed its state. Nothing is persisted for it:
/// autosave is suspended over the write and on afterwards.
pub fn record_device(database: &mut Database, device: Device) -> (r: Result<
    Device,
    ServiceError,
>)
    ensures
        final(database)@ == device_recorded(old(database)@, device@).0,
        answers(r, device_recorded(old(database)@, device@).1),
{
    database.set_autosave(false);
    let written = database.set_device(device);
    database.set_autosave(true);
    match written {
        Ok(stored) => Ok(stored),
        Err(e) => Err(ServiceError::Store(e)),
    }
}

// ---------------------------------------------------------------------- animations

/// What clients are told of every animation, in ascending order of the identifiers.
pub fn animation_payloads(database: &Database) -> (all: Vec<AnimationPayload>)
    ensures
        exists|listing: Seq<AnimationView>|
            lists::<Animation>(listing, database@.animations) && listing.len() == all@.len()
                && forall|i: int|
                0 <= i < all@.len() ==> (#[trigger] all@[i])@ == listing[i].payload(),
{
    let animations = database.list_animations();
    let ghost listing = views_of(animations@);
    let mut all: Vec<AnimationPayload> = Vec::new();
    let mut i: usize = 0;
    while i < animations.len()
        invariant
            i <= animations@.len(),
            all@.len() == i,
            listing == views_of(animations@),
            forall|k: int| 0 <= k < i ==> (#[trigger] all@[k])@ == listing[k].payload(),
        decreases animations@.len() - i,
    {
        all.push(AnimationPayload::from(animations[i].duplicate()));
        i += 1;
    }
    all
}

/// What playing an animation makes of the store and answers: the animation is resolved
/// against the store and stored again with its timeline, playing where the timeline
/// lasts; a timeline of zero duration is a refusal.
pub open spec fn animation_played(store: StoreView, id: Id) -> (
    StoreView,
    Answer<AnimationPayloadView>,
) {
    if !store.animations.contains_key(id) {
        (store, Err(ServiceError::NotFound(EntityType::Animation)))
    } else {
        let timeline = store.animations[id].resolve(store);
        let playable = timeline.duration() > 0;
        let animation = AnimationView {
            inner: if playable {
                TimelineView { status: Playback::Playing, ..timeline }
            } else {
                timeline
            },
            ..store.animations[id]
        };
        let (written, verdict) = store.set_animation(animation);
        match verdict {
            Err(e) => (written, Err(ServiceError::Store(e))),
            Ok(stored) => if playable {
                (written, Ok(stored.payload()))
            } else {
                (written, Err(ServiceError::AnimationEmpty))
            },
        }
    }
}

/// Plays the animation stored under `id`: resolves it against the store as it is now,
/// stores it with its timeline, and answers with what clients are told of it. Where
/// nothing resolved that lasts, the answer is that the animation is empty.
pub fn play_animation(database: &mut Database, id: Id) -> (r: Result<
    AnimationPayload,
    ServiceError,
>)
    ensures
        final(database)@ == animation_played(old(database)@, id).0,
        answers(r, animation_played(old(database)@, id).1),
{
    let mut animation = match database.get_animation(id) {
        None => {
            return Err(ServiceError::NotFound(EntityType::Animation));
        },
        Some(animation) => animation,
    };
    proof {
        (*database).lemma_keyed();
    }
    let started = animation.play(database);
    let stored = match database.update_animation(animation) {
        Err(e) => {
            return Err(ServiceError::Store(e));
        },
        Ok(stored) => stored,
    };
    match started {
        Err(_) => Err(ServiceError::AnimationEmpty),
        Ok(()) => Ok(AnimationPayload::from(stored)),
    }
}

/// The status of a timeline after a pause.
pub open spec fn paused(status: Playback) -> Playback {
    if status == Playback::Playing {
        Playback::Paused
    } else {
        status
    }
}

/// The status of a timeline after the engine played it to its end.
pub open spec fn completed(status: Playback) -> Playback {
    if status == Playback::Playing {
        Playback::Idle
    } else {
        status
    }
}

/// The animation with the status of its timeline replaced.
pub open spec fn with_status(animation: AnimationView, status: Playback) -> AnimationView {
    AnimationView { inner: TimelineView { status, ..animation.inner }, ..animation }
}

/// Pauses the animation stored under `id`. Nothing is persisted.
pub fn pause_animation(database: &mut Database, id: Id) -> (r: Result<
    AnimationPayload,
    ServiceError,
>)
    ensures
        !old(database)@.animations.contains_key(id) ==> r == Err::<
            AnimationPayload,
            ServiceError,
        >(ServiceError::NotFound(EntityType::Animation)) && final(database)@ == old(database)@,
        old(database)@.animations.contains_key(id) ==> {
            let animation = old(database)@.animations[id];
            let after = with_status(animation, paused(animation.inner.status));
            &&& final(database)@ == old(database)@.keep_timeline(id, after.inner)
            &&& r matches Ok(p)
            &&& p@ == after.payload()
        },
{
    let mut animation = match database.get_animation(id) {
        None => {
            return Err(ServiceError::NotFound(EntityType::Animation));
        },
        Some(animation) => animation,
    };
    animation.pause();
    database.keep_timeline(id, animation.inner.duplicate());
    Ok(AnimationPayload::from(animation))
}

/// Stops the animation stored under `id`. Nothing is persisted.
pub fn stop_animation(database: &mut Database, id: Id) -> (r: Result<
    AnimationPayload,
    ServiceError,
>)
    ensures
        !old(database)@.animations.contains_key(id) ==> r == Err::<
            AnimationPayload,
            ServiceError,
        >(ServiceError::NotFound(EntityType::Animation)) && final(database)@ == old(database)@,
        old(database)@.animations.contains_key(id) ==> {
            let after = with_status(old(database)@.animations[id], Playback::Idle);
            &&& final(database)@ == old(database)@.keep_timeline(id, after.inner)
            &&& r matches Ok(p)
            &&& p@ == after.payload()
        },
{
    let mut animation = match database.get_animation(id) {
        None => {
            return Err(ServiceError::NotFound(EntityType::Animation));
        },
        Some(animation) => animation,
    };
    animation.stop();
    database.keep_timeline(id, animation.inner.duplicate());
    Ok(AnimationPayload::from(animation))
}

/// Takes note that the engine played the animation stored under `id` to its end, and
/// hands back what clients are told of it; nothing where the animation is gone.
/// Nothing is persisted.
pub fn complete_animation(database: &mut Database, id: Id) -> (r: Option<AnimationPayload>)
    ensures
        !old(database)@.animations.contains_key(id) ==> r is None && final(database)@ == old(
            database,
        )@,
        old(database)@.animations.contains_key(id) ==> {
            let animation = old(database)@.animations[id];
            let after = with_status(animation, completed(animation.inner.status));
            &&& final(database)@ == old(database)@.keep_timeline(id, after.inner)
            &&& r matches Some(p)
            &&& p@ == after.payload()
        },
{
    let mut animation = match database.get_animation(id) {
        None => {
            return None;
        },
        Some(animation) => animation,
    };
    animation.complete();
    database.keep_timeline(id, animation.inner.duplicate());
    Some(AnimationPayload::from(animation))
}

// ---------------------------------------------------------------------- postures

/// The positions to apply when the posture stored under `id` is played.
pub fn play_posture(database: &Database, id: Id) -> (r: Result<Vec<Position>, ServiceError>)
    ensures
        !database@.postures.contains_key(id) ==> r == Err::<Vec<Position>, ServiceError>(
            ServiceError::NotFound(EntityType::Posture),
        ),
        database@.postures.contains_key(id) ==> (r matches Ok(commands) && commands@
            == applicable(
            database@,
            database@.postures[id].positions,
            database@.postures[id].positions.len() as int,
        )),
{
    match database.get_posture(id) {
        None => Err(ServiceError::NotFound(EntityType::Posture)),
        Some(posture) => Ok(posture.play(database)),
    }
}

} // verus!

//! The object store: one table per category, kept consistent by cascades.
//!
//! The store works in memory. Where it has a destination, the categories whose files
//! have to be rewritten are journalled in the order in which the writes were asked for;
//! whoever owns the files takes the journal with [`Database::take_pending`] and writes
//! them.

use vstd::prelude::*;
use crate::animation::Animation;
use crate::board::Board;
use crate::device::Device;
use crate::entity::{views_of, Entity, EntityType, Id};
use crate::group::Group;
use crate::model::{
    agrees, agrees_removed, Verdict, all_disconnected, all_rebuilt, defined_set, holds, is_parent_of,
    is_roster, is_wrapper_of, parent_of, roster_of, wrapper_of, wraps, StoreError, StoreView,
    StoredFilesView,
};
use crate::posture::Posture;
use crate::table::{lemma_listing_round_trip, lists, occurs, position_of, Table};

verus! {

/// The store of all records.
pub struct Database {
    destination: Option<String>,
    autosave: bool,
    boards: Table<Board>,
    devices: Table<Device>,
    groups: Table<Group>,
    animations: Table<Animation>,
    postures: Table<Posture>,
    pending: Vec<EntityType>,
}

/// A strictly ascending sequence is determined by the values that occur in it.
pub proof fn lemma_ascending_unique(a: Seq<Id>, b: Seq<Id>)
    requires
        forall|i: int, j: int| 0 <= i < j < a.len() ==> a[i] < a[j],
        forall|i: int, j: int| 0 <= i < j < b.len() ==> b[i] < b[j],
        forall|x: Id| a.contains(x) <==> b.contains(x),
    ensures
        a == b,
    decreases a.len(),
{
    if a.len() == 0 {
        if b.len() > 0 {
            assert(b.contains(b[0]));
        }
        assert(a =~= b);
    } else {
        let top = a.last();
        assert(a.contains(top));
        assert(b.contains(top));
        assert(b.len() > 0);
        let other = b.last();
        assert(b.contains(other));
        assert(a.contains(other));
        let i = choose|i: int| 0 <= i < a.len() && a[i] == other;
        let j = choose|j: int| 0 <= j < b.len() && b[j] == top;
        if i < a.len() - 1 {
            assert(a[i] < a[a.len() - 1]);
        }
        if j < b.len() - 1 {
            assert(b[j] < b[b.len() - 1]);
        }
        assert(top == other);
        let a0 = a.drop_last();
        let b0 = b.drop_last();
        assert forall|x: Id| a0.contains(x) <==> b0.contains(x) by {
            if a0.contains(x) {
                let k = choose|k: int| 0 <= k < a0.len() && a0[k] == x;
                assert(a[k] == x);
                assert(a[k] < a[a.len() - 1]);
                assert(a.contains(x));
                let m = choose|m: int| 0 <= m < b.len() && b[m] == x;
                assert(m < b.len() - 1);
                assert(b0[m] == x);
            }
            if b0.contains(x) {
                let k = choose|k: int| 0 <= k < b0.len() && b0[k] == x;
                assert(b[k] == x);
                assert(b[k] < b[b.len() - 1]);
                assert(b.contains(x));
                let m = choose|m: int| 0 <= m < a.len() && a[m] == x;
                assert(m < a.len() - 1);
                assert(a0[m] == x);
            }
        }
        assert forall|i: int, j: int| 0 <= i < j < a0.len() implies a0[i] < a0[j] by {
            assert(a[i] < a[j]);
        }
        assert forall|i: int, j: int| 0 <= i < j < b0.len() implies b0[i] < b0[j] by {
            assert(b[i] < b[j]);
        }
        lemma_ascending_unique(a0, b0);
        assert(a =~= a0.push(top));
        assert(b =~= b0.push(other));
    }
}

/// What was read from the store's folder: for each category whose file exists, the
/// records in the file.
pub struct StoredFiles {
    pub boards: Option<Vec<Board>>,
    pub devices: Option<Vec<Device>>,
    pub groups: Option<Vec<Group>>,
    pub animations: Option<Vec<Animation>>,
    pub postures: Option<Vec<Posture>>,
}

impl View for StoredFiles {
    type V = StoredFilesView;

    open spec fn view(&self) -> StoredFilesView {
        StoredFilesView {
            boards: match self.boards {
                Some(rows) => Some(views_of(rows@)),
                None => None,
            },
            devices: match self.devices {
                Some(rows) => Some(views_of(rows@)),
                None => None,
            },
            groups: match self.groups {
                Some(rows) => Some(views_of(rows@)),
                None => None,
            },
            animations: match self.animations {
                Some(rows) => Some(views_of(rows@)),
                None => None,
            },
            postures: match self.postures {
                Some(rows) => Some(views_of(rows@)),
                None => None,
            },
        }
    }
}

impl StoredFiles {
    /// A folder without any category file.
    pub fn none() -> (files: Self)
        ensures
            files@ == StoredFilesView::none(),
    {
        StoredFiles { boards: None, devices: None, groups: None, animations: None, postures: None }
    }
}

impl View for Database {
    type V = StoreView;

    closed spec fn view(&self) -> StoreView {
        StoreView {
            destination: match self.destination {
                Some(folder) => Some(folder@),
                None => None,
            },
            autosave: self.autosave,
            boards: self.boards@,
            devices: self.devices@,
            groups: self.groups@,
            animations: self.animations@,
            postures: self.postures@,
            defined: defined_set(
                self.boards.is_defined(),
                self.devices.is_defined(),
                self.groups.is_defined(),
                self.animations.is_defined(),
                self.postures.is_defined(),
            ),
            pending: self.pending@,
        }
    }
}

impl Database {
    /// A store that lives in memory only: no destination, no autosave, no record.
    pub fn init_volatile() -> (r: Result<Self, StoreError>)
        ensures
            r matches Ok(db) && db@ == StoreView::empty(None, false),
    {
        let db = Database {
            destination: None,
            autosave: false,
            boards: Table::new(),
            devices: Table::new(),
            groups: Table::new(),
            animations: Table::new(),
            postures: Table::new(),
            pending: Vec::new(),
        };
        assert(db@ =~= StoreView::empty(None, false));
        Ok(db)
    }

    /// Whether every mutation also asks for the file of its category to be rewritten.
    pub fn autosave(&self) -> (on: bool)
        ensures
            on == self@.autosave,
    {
        self.autosave
    }

    /// The folder that the store persists to, if it has one.
    pub fn destination(&self) -> (folder: Option<String>)
        ensures
            folder.is_some() == self@.destination.is_some(),
            folder matches Some(f) ==> self@.destination == Some(f@),
    {
        match &self.destination {
            Some(folder) => Some(folder.clone()),
            None => None,
        }
    }

    /// Turns autosave on or off. Whoever turns it off around a batch of mutations
    /// persists the touched categories afterwards.
    pub fn set_autosave(&mut self, autosave: bool)
        ensures
            final(self)@ == (StoreView { autosave, ..old(self)@ }),
    {
        self.autosave = autosave;
    }

    /// Whether category `kind` exists in the store.
    pub fn is_defined(&self, kind: EntityType) -> (r: bool)
        ensures
            r == self@.defined.contains(kind),
    {
        match kind {
            EntityType::Board => self.boards.defined(),
            EntityType::Device => self.devices.defined(),
            EntityType::Group => self.groups.defined(),
            EntityType::Animation => self.animations.defined(),
            EntityType::Posture => self.postures.defined(),
        }
    }

    /// Asks for the file of category `kind` to be rewritten.
    pub fn save_to_file(&mut self, kind: EntityType) -> (r: Result<(), StoreError>)
        ensures
            match old(self)@.persist(kind) {
                Ok(next) => r is Ok && final(self)@ == next,
                Err(e) => r == Err::<(), StoreError>(e) && final(self)@ == old(self)@,
            },
    {
        if self.destination.is_none() {
            return Err(StoreError::MissingDestination);
        }
        if !self.is_defined(kind) {
            return Err(StoreError::UnknownCategory);
        }
        self.pending.push(kind);
        Ok(())
    }

    /// The categories whose files were asked to be rewritten since the journal was last
    /// taken, oldest first. Taking the journal empties it.
    pub fn take_pending(&mut self) -> (journal: Vec<EntityType>)
        ensures
            journal@ == old(self)@.pending,
            final(self)@ == (StoreView { pending: Seq::empty(), ..old(self)@ }),
    {
        let mut journal: Vec<EntityType> = Vec::new();
        core::mem::swap(&mut self.pending, &mut journal);
        journal
    }

    /// Persists a category after a mutation, where autosave is on.
    fn autosaved(&mut self, kind: EntityType) -> (r: Result<(), StoreError>)
        ensures
            match old(self)@.autosaved(kind) {
                Ok(next) => r is Ok && final(self)@ == next,
                Err(e) => r == Err::<(), StoreError>(e) && final(self)@ == old(self)@,
            },
    {
        if self.autosave {
            self.save_to_file(kind)
        } else {
            Ok(())
        }
    }

    /// Marks category `kind` as existing.
    fn define(&mut self, kind: EntityType)
        ensures
            final(self)@ == old(self)@.define(kind),
    {
        match kind {
            EntityType::Board => self.boards.define(),
            EntityType::Device => self.devices.define(),
            EntityType::Group => self.groups.define(),
            EntityType::Animation => self.animations.define(),
            EntityType::Posture => self.postures.define(),
        }
        assert(self@ =~= old(self)@.define(kind));
    }

    // ------------------------------------------------------------------ boards

    /// A copy of the board stored under `id`, if there is one.
    pub fn get_board(&self, id: Id) -> (r: Option<Board>)
        ensures
            r.is_some() == self@.boards.contains_key(id),
            r matches Some(b) ==> b@ == self@.boards[id],
    {
        self.boards.get(id)
    }

    /// Copies of all boards, in ascending order of their identifiers.
    pub fn list_boards(&self) -> (all: Vec<Board>)
        ensures
            lists::<Board>(views_of(all@), self@.boards),
    {
        self.boards.list()
    }

    /// Stores a board: under its own identifier where it has one, replacing what was
    /// there, and under the next free identifier where it has none.
    pub fn set_board(&mut self, board: Board) -> (r: Result<Board, StoreError>)
        ensures
            final(self)@ == old(self)@.set_board(board@).0,
            agrees(r, old(self)@.set_board(board@).1),
    {
        let stored = match self.boards.store(board) {
            None => {
                return Err(StoreError::IdSpaceExhausted);
            },
            Some(stored) => stored,
        };
        assert(self@ =~= (StoreView {
            boards: old(self)@.boards.insert(stored@.id, stored@),
            ..old(self)@
        }).define(EntityType::Board));
        match self.autosaved(EntityType::Board) {
            Err(e) => Err(e),
            Ok(()) => Ok(stored),
        }
    }

    /// Stores a new board. A board that already has an identifier is turned down.
    pub fn insert_board(&mut self, board: Board) -> (r: Result<Board, StoreError>)
        ensures
            board@.id != 0 ==> r == Err::<Board, StoreError>(StoreError::AlreadyHasId)
                && final(self)@ == old(self)@,
            board@.id == 0 ==> final(self)@ == old(self)@.set_board(board@).0 && agrees(
                r,
                old(self)@.set_board(board@).1,
            ),
            r matches Ok(e) ==> {
                &&& e@.id != 0
                &&& e@ == (crate::board::BoardView { id: e@.id, ..board@ })
                &&& !old(self)@.boards.contains_key(e@.id)
                &&& final(self)@.boards.contains_key(e@.id)
                &&& final(self)@.boards[e@.id] == e@
            },
    {
        if board.id > 0 {
            return Err(StoreError::AlreadyHasId);
        }
        proof {
            if old(self)@.set_board(board@).1 is Ok {
                crate::store_laws::lemma_inserted_board_is_stored(old(self)@, board@);
            }
        }
        self.set_board(board)
    }

    /// Replaces a stored board. A board that is not stored is turned down.
    pub fn update_board(&mut self, board: Board) -> (r: Result<Board, StoreError>)
        ensures
            !old(self)@.boards.contains_key(board@.id) ==> r == Err::<Board, StoreError>(
                StoreError::NotFound,
            ) && final(self)@ == old(self)@,
            old(self)@.boards.contains_key(board@.id) ==> final(self)@ == old(self)@.set_board(
                board@,
            ).0 && agrees(r, old(self)@.set_board(board@).1),
    {
        if !self.boards.contains(board.id) {
            return Err(StoreError::NotFound);
        }
        self.set_board(board)
    }

    // ------------------------------------------------------------------ groups

    /// A copy of the group stored under `id`, if there is one.
    pub fn get_group(&self, id: Id) -> (r: Option<Group>)
        ensures
            r.is_some() == self@.groups.contains_key(id),
            r matches Some(g) ==> g@ == self@.groups[id],
    {
        self.groups.get(id)
    }

    /// Copies of all groups, in ascending order of their identifiers.
    pub fn list_groups(&self) -> (all: Vec<Group>)
        ensures
            lists::<Group>(views_of(all@), self@.groups),
    {
        self.groups.list()
    }

    /// Stores a group: under its own identifier where it has one, replacing what was
    /// there, and under the next free identifier where it has none.
    pub fn set_group(&mut self, group: Group) -> (r: Result<Group, StoreError>)
        ensures
            final(self)@ == old(self)@.set_group(group@).0,
            agrees(r, old(self)@.set_group(group@).1),
    {
        let stored = match self.groups.store(group) {
            None => {
                return Err(StoreError::IdSpaceExhausted);
            },
            Some(stored) => stored,
        };
        assert(self@ =~= (StoreView {
            groups: old(self)@.groups.insert(stored@.id, stored@),
            ..old(self)@
        }).define(EntityType::Group));
        match self.autosaved(EntityType::Group) {
            Err(e) => Err(e),
            Ok(()) => Ok(stored),
        }
    }

    /// Stores a new group. A group that already has an identifier is turned down.
    pub fn insert_group(&mut self, group: Group) -> (r: Result<Group, StoreError>)
        ensures
            group@.id != 0 ==> r == Err::<Group, StoreError>(StoreError::AlreadyHasId)
                && final(self)@ == old(self)@,
            group@.id == 0 ==> final(self)@ == old(self)@.set_group(group@).0 && agrees(
                r,
                old(self)@.set_group(group@).1,
            ),
            r matches Ok(e) ==> {
                &&& e@.id != 0
                &&& e@ == (crate::group::GroupView { id: e@.id, ..group@ })
                &&& !old(self)@.groups.contains_key(e@.id)
                &&& final(self)@.groups.contains_key(e@.id)
                &&& final(self)@.groups[e@.id] == e@
            },
    {
        if group.id > 0 {
            return Err(StoreError::AlreadyHasId);
        }
        proof {
            if old(self)@.set_group(group@).1 is Ok {
                crate::store_laws::lemma_inserted_group_is_stored(old(self)@, group@);
            }
        }
        self.set_group(group)
    }

    /// Replaces a stored group. A group that is not stored is turned down.
    pub fn update_group(&mut self, group: Group) -> (r: Result<Group, StoreError>)
        ensures
            !old(self)@.groups.contains_key(group@.id) ==> r == Err::<Group, StoreError>(
                StoreError::NotFound,
            ) && final(self)@ == old(self)@,
            old(self)@.groups.contains_key(group@.id) ==> final(self)@ == old(self)@.set_group(
                group@,
            ).0 && agrees(r, old(self)@.set_group(group@).1),
    {
        if !self.groups.contains(group.id) {
            return Err(StoreError::NotFound);
        }
        self.set_group(group)
    }

    // ------------------------------------------------------------------ animations

    /// A copy of the animation stored under `id`, if there is one.
    pub fn get_animation(&self, id: Id) -> (r: Option<Animation>)
        ensures
            r.is_some() == self@.animations.contains_key(id),
            r matches Some(e) ==> e@ == self@.animations[id],
    {
        self.animations.get(id)
    }

    /// Copies of all animations, in ascending order of their identifiers.
    pub fn list_animations(&self) -> (all: Vec<Animation>)
        ensures
            lists::<Animation>(views_of(all@), self@.animations),
    {
        self.animations.list()
    }

    /// Stores an animation: under its own identifier where it has one, replacing what was
    /// there, and under the next free identifier where it has none.
    pub fn set_animation(&mut self, animation: Animation) -> (r: Result<Animation, StoreError>)
        ensures
            final(self)@ == old(self)@.set_animation(animation@).0,
            agrees(r, old(self)@.set_animation(animation@).1),
    {
        let stored = match self.animations.store(animation) {
            None => {
                return Err(StoreError::IdSpaceExhausted);
            },
            Some(stored) => stored,
        };
        assert(self@ =~= (StoreView {
            animations: old(self)@.animations.insert(stored@.id, stored@),
            ..old(self)@
        }).define(EntityType::Animation));
        match self.autosaved(EntityType::Animation) {
            Err(e) => Err(e),
            Ok(()) => Ok(stored),
        }
    }

    /// Stores a new animation. One that already has an identifier is turned down.
    pub fn insert_animation(&mut self, animation: Animation) -> (r: Result<Animation, StoreError>)
        ensures
            animation@.id != 0 ==> r == Err::<Animation, StoreError>(StoreError::AlreadyHasId)
                && final(self)@ == old(self)@,
            animation@.id == 0 ==> final(self)@ == old(self)@.set_animation(animation@).0 && agrees(
                r,
                old(self)@.set_animation(animation@).1,
            ),
            r matches Ok(e) ==> {
                &&& e@.id != 0
                &&& e@ == (crate::animation::AnimationView { id: e@.id, ..animation@ })
                &&& !old(self)@.animations.contains_key(e@.id)
                &&& final(self)@.animations.contains_key(e@.id)
                &&& final(self)@.animations[e@.id] == e@
            },
    {
        if animation.id > 0 {
            return Err(StoreError::AlreadyHasId);
        }
        proof {
            if old(self)@.set_animation(animation@).1 is Ok {
                crate::store_laws::lemma_inserted_animation_is_stored(old(self)@, animation@);
            }
        }
        self.set_animation(animation)
    }

    /// Replaces a stored animation. One that is not stored is turned down.
    pub fn update_animation(&mut self, animation: Animation) -> (r: Result<Animation, StoreError>)
        ensures
            !old(self)@.animations.contains_key(animation@.id) ==> r == Err::<Animation, StoreError>(
                StoreError::NotFound,
            ) && final(self)@ == old(self)@,
            old(self)@.animations.contains_key(animation@.id) ==> final(self)@ == old(self)@.set_animation(
                animation@,
            ).0 && agrees(r, old(self)@.set_animation(animation@).1),
    {
        if !self.animations.contains(animation.id) {
            return Err(StoreError::NotFound);
        }
        self.set_animation(animation)
    }

    /// Removes the animation stored under `id` and returns it; nothing is removed, and
    /// nothing returned, where there is none.
    pub fn delete_animation(&mut self, id: Id) -> (r: Result<Option<Animation>, StoreError>)
        ensures
            final(self)@ == old(self)@.delete_animation(id).0,
            agrees_removed(r, old(self)@.delete_animation(id).1),
    {
        self.define(EntityType::Animation);
        let removed = match self.animations.remove(id) {
            None => {
                return Ok(None);
            },
            Some(removed) => removed,
        };
        assert(self@ =~= (StoreView {
            animations: old(self)@.define(EntityType::Animation).animations.remove(id),
            ..old(self)@.define(EntityType::Animation)
        }));
        match self.autosaved(EntityType::Animation) {
            Err(e) => Err(e),
            Ok(()) => Ok(Some(removed)),
        }
    }

    // ------------------------------------------------------------------ postures

    /// A copy of the posture stored under `id`, if there is one.
    pub fn get_posture(&self, id: Id) -> (r: Option<Posture>)
        ensures
            r.is_some() == self@.postures.contains_key(id),
            r matches Some(e) ==> e@ == self@.postures[id],
    {
        self.postures.get(id)
    }

    /// Copies of all postures, in ascending order of their identifiers.
    pub fn list_postures(&self) -> (all: Vec<Posture>)
        ensures
            lists::<Posture>(views_of(all@), self@.postures),
    {
        self.postures.list()
    }

    /// Stores a posture: under its own identifier where it has one, replacing what was
    /// there, and under the next free identifier where it has none.
    pub fn set_posture(&mut self, posture: Posture) -> (r: Result<Posture, StoreError>)
        ensures
            final(self)@ == old(self)@.set_posture(posture@).0,
            agrees(r, old(self)@.set_posture(posture@).1),
    {
        let stored = match self.postures.store(posture) {
            None => {
                return Err(StoreError::IdSpaceExhausted);
            },
            Some(stored) => stored,
        };
        assert(self@ =~= (StoreView {
            postures: old(self)@.postures.insert(stored@.id, stored@),
            ..old(self)@
        }).define(EntityType::Posture));
        match self.autosaved(EntityType::Posture) {
            Err(e) => Err(e),
            Ok(()) => Ok(stored),
        }
    }

    /// Stores a new posture. One that already has an identifier is turned down.
    pub fn insert_posture(&mut self, posture: Posture) -> (r: Result<Posture, StoreError>)
        ensures
            posture@.id != 0 ==> r == Err::<Posture, StoreError>(StoreError::AlreadyHasId)
                && final(self)@ == old(self)@,
            posture@.id == 0 ==> final(self)@ == old(self)@.set_posture(posture@).0 && agrees(
                r,
                old(self)@.set_posture(posture@).1,
            ),
            r matches Ok(e) ==> {
                &&& e@.id != 0
                &&& e@ == (crate::posture::PostureView { id: e@.id, ..posture@ })
                &&& !old(self)@.postures.contains_key(e@.id)
                &&& final(self)@.postures.contains_key(e@.id)
                &&& final(self)@.postures[e@.id] == e@
            },
    {
        if posture.id > 0 {
            return Err(StoreError::AlreadyHasId);
        }
        proof {
            if old(self)@.set_posture(posture@).1 is Ok {
                crate::store_laws::lemma_inserted_posture_is_stored(old(self)@, posture@);
            }
        }
        self.set_posture(posture)
    }

    /// Replaces a stored posture. One that is not stored is turned down.
    pub fn update_posture(&mut self, posture: Posture) -> (r: Result<Posture, StoreError>)
        ensures
            !old(self)@.postures.contains_key(posture@.id) ==> r == Err::<Posture, StoreError>(
                StoreError::NotFound,
            ) && final(self)@ == old(self)@,
            old(self)@.postures.contains_key(posture@.id) ==> final(self)@ == old(self)@.set_posture(
                posture@,
            ).0 && agrees(r, old(self)@.set_posture(posture@).1),
    {
        if !self.postures.contains(posture.id) {
            return Err(StoreError::NotFound);
        }
        self.set_posture(posture)
    }

    /// Removes the posture stored under `id` and returns it; nothing is removed, and
    /// nothing returned, where there is none.
    pub fn delete_posture(&mut self, id: Id) -> (r: Result<Option<Posture>, StoreError>)
        ensures
            final(self)@ == old(self)@.delete_posture(id).0,
            agrees_removed(r, old(self)@.delete_posture(id).1),
    {
        self.define(EntityType::Posture);
        let removed = match self.postures.remove(id) {
            None => {
                return Ok(None);
            },
            Some(removed) => removed,
        };
        assert(self@ =~= (StoreView {
            postures: old(self)@.define(EntityType::Posture).postures.remove(id),
            ..old(self)@.define(EntityType::Posture)
        }));
        match self.autosaved(EntityType::Posture) {
            Err(e) => Err(e),
            Ok(()) => Ok(Some(removed)),
        }
    }

    // ------------------------------------------------------------------ devices

    /// A copy of the device stored under `id`, if there is one.
    pub fn get_device(&self, id: Id) -> (r: Option<Device>)
        ensures
            r.is_some() == self@.devices.contains_key(id),
            r matches Some(e) ==> e@ == self@.devices[id],
    {
        self.devices.get(id)
    }

    /// Copies of all devices, in ascending order of their identifiers.
    pub fn list_devices(&self) -> (all: Vec<Device>)
        ensures
            lists::<Device>(views_of(all@), self@.devices),
    {
        self.devices.list()
    }

    /// The group that stands for `device`: the one with the smallest identifier among
    /// the groups that wrap it, if any does.
    pub fn wrapper_of(&self, device: Id) -> (r: Option<Id>)
        ensures
            r == wrapper_of(self@.groups, device),
    {
        let ids = self.groups.ids();
        let ghost groups = self@.groups;
        let mut i: usize = 0;
        while i < ids.len()
            invariant
                i <= ids@.len(),
                groups == self@.groups,
                forall|a: int, b: int| 0 <= a < b < ids@.len() ==> ids@[a] < ids@[b],
                forall|id: Id| ids@.contains(id) == groups.contains_key(id),
                forall|k: int| 0 <= k < i ==> !wraps(groups, #[trigger] ids@[k], device),
            decreases ids@.len() - i,
        {
            let g = ids[i];
            assert(ids@.contains(g));
            let found = match self.groups.find(g) {
                Some(group) => match group.device {
                    Some(d) => d == device,
                    None => false,
                },
                None => false,
            };
            if found {
                proof {
                    assert(wraps(groups, g, device));
                    assert forall|h: Id| h < g implies !wraps(groups, h, device) by {
                        if wraps(groups, h, device) {
                            assert(ids@.contains(h));
                            let k = choose|k: int| 0 <= k < ids@.len() && ids@[k] == h;
                            if k >= i {
                                if k > i {
                                    assert(ids@[i as int] < ids@[k]);
                                }
                            }
                        }
                    }
                    assert(is_wrapper_of(groups, g, device));
                    let c = choose|c: Id| is_wrapper_of(groups, c, device);
                    assert(is_wrapper_of(groups, c, device));
                    if c < g {
                        assert(!wraps(groups, c, device));
                    }
                    if g < c {
                        assert(!wraps(groups, g, device));
                    }
                }
                return Some(g);
            }
            i += 1;
        }
        proof {
            assert forall|g: Id| !is_wrapper_of(groups, g, device) by {
                if wraps(groups, g, device) {
                    assert(ids@.contains(g));
                    let k = choose|k: int| 0 <= k < ids@.len() && ids@[k] == g;
                    assert(!wraps(groups, ids@[k], device));
                }
            }
        }
        None
    }

    /// The group that lists `child` among its children: the one with the smallest
    /// identifier, if any does.
    pub fn parent_of(&self, child: Id) -> (r: Option<Id>)
        ensures
            r == parent_of(self@.groups, child),
    {
        let ids = self.groups.ids();
        let ghost groups = self@.groups;
        let mut i: usize = 0;
        while i < ids.len()
            invariant
                i <= ids@.len(),
                groups == self@.groups,
                forall|a: int, b: int| 0 <= a < b < ids@.len() ==> ids@[a] < ids@[b],
                forall|id: Id| ids@.contains(id) == groups.contains_key(id),
                forall|k: int| 0 <= k < i ==> !holds(groups, #[trigger] ids@[k], child),
            decreases ids@.len() - i,
        {
            let p = ids[i];
            assert(ids@.contains(p));
            let found = match self.groups.find(p) {
                Some(group) => group.has_child(child),
                None => false,
            };
            if found {
                proof {
                    assert(holds(groups, p, child));
                    assert forall|h: Id| h < p implies !holds(groups, h, child) by {
                        if holds(groups, h, child) {
                            assert(ids@.contains(h));
                            let k = choose|k: int| 0 <= k < ids@.len() && ids@[k] == h;
                            if k >= i {
                                if k > i {
                                    assert(ids@[i as int] < ids@[k]);
                                }
                            }
                        }
                    }
                    assert(is_parent_of(groups, p, child));
                    let c = choose|c: Id| is_parent_of(groups, c, child);
                    assert(is_parent_of(groups, c, child));
                    if c < p {
                        assert(!holds(groups, c, child));
                    }
                    if p < c {
                        assert(!holds(groups, p, child));
                    }
                }
                return Some(p);
            }
            i += 1;
        }
        proof {
            assert forall|p: Id| !is_parent_of(groups, p, child) by {
                if holds(groups, p, child) {
                    assert(ids@.contains(p));
                    let k = choose|k: int| 0 <= k < ids@.len() && ids@[k] == p;
                    assert(!holds(groups, ids@[k], child));
                }
            }
        }
        None
    }

    /// The devices wired to `board`, in ascending order of their identifiers.
    pub fn devices_of(&self, board: Id) -> (roster: Vec<Id>)
        ensures
            is_roster(roster@, self@.devices, board),
            roster@ == roster_of(self@.devices, board),
    {
        let ids = self.devices.ids();
        let ghost devices = self@.devices;
        let mut roster: Vec<Id> = Vec::new();
        let mut i: usize = 0;
        while i < ids.len()
            invariant
                i <= ids@.len(),
                devices == self@.devices,
                forall|a: int, b: int| 0 <= a < b < ids@.len() ==> ids@[a] < ids@[b],
                forall|id: Id| ids@.contains(id) == devices.contains_key(id),
                forall|a: int, b: int| 0 <= a < b < roster@.len() ==> roster@[a] < roster@[b],
                forall|k: int|
                    0 <= k < roster@.len() ==> i > 0 && #[trigger] roster@[k] <= ids@[i - 1],
                forall|d: Id|
                    roster@.contains(d) <==> (devices.contains_key(d) && devices[d].bid == board
                        && exists|k: int| 0 <= k < i && ids@[k] == d),
            decreases ids@.len() - i,
        {
            let d = ids[i];
            assert(ids@.contains(d));
            let wired = match self.devices.find(d) {
                Some(device) => device.bid == board,
                None => false,
            };
            let ghost before = roster@;
            if wired {
                roster.push(d);
            }
            proof {
                if i > 0 {
                    assert(ids@[i - 1] < ids@[i as int]);
                }
                assert forall|x: Id|
                    roster@.contains(x) <==> (devices.contains_key(x) && devices[x].bid == board
                        && exists|k: int| 0 <= k < i + 1 && ids@[k] == x) by {
                    if roster@.contains(x) {
                        let j = choose|j: int| 0 <= j < roster@.len() && roster@[j] == x;
                        if j < before.len() {
                            assert(before[j] == x);
                            assert(before.contains(x));
                            let k = choose|k: int| 0 <= k < i && ids@[k] == x;
                            assert(0 <= k < i + 1 && ids@[k] == x);
                        } else {
                            assert(x == d);
                            assert(ids@[i as int] == x);
                        }
                    }
                    if devices.contains_key(x) && devices[x].bid == board && exists|k: int|
                        0 <= k < i + 1 && ids@[k] == x {
                        let k = choose|k: int| 0 <= k < i + 1 && ids@[k] == x;
                        if k < i {
                            assert(before.contains(x));
                            let j = choose|j: int| 0 <= j < before.len() && before[j] == x;
                            assert(roster@[j] == x);
                        } else {
                            assert(x == d);
                            assert(wired);
                            assert(roster@[roster@.len() - 1] == x);
                        }
                    }
                }
            }
            i += 1;
        }
        proof {
            assert forall|d: Id|
                roster@.contains(d) <==> (devices.contains_key(d) && devices[d].bid
                    == board) by {
                if devices.contains_key(d) && devices[d].bid == board {
                    assert(ids@.contains(d));
                    let k = choose|k: int| 0 <= k < ids@.len() && ids@[k] == d;
                    assert(0 <= k < i && ids@[k] == d);
                }
            }
            assert(is_roster(roster@, devices, board));
            let chosen = roster_of(devices, board);
            assert(is_roster(chosen, devices, board));
            lemma_ascending_unique(roster@, chosen);
        }
        roster
    }

    /// Stores a device, new or known, and makes sure that a group wraps it: where none
    /// does, the implicit group of the device is inserted.
    pub fn set_device(&mut self, device: Device) -> (r: Result<Device, StoreError>)
        ensures
            final(self)@ == old(self)@.set_device(device@).0,
            agrees(r, old(self)@.set_device(device@).1),
    {
        let stored = match self.devices.store(device) {
            None => {
                return Err(StoreError::IdSpaceExhausted);
            },
            Some(stored) => stored,
        };
        assert(self@ =~= (StoreView {
            devices: old(self)@.devices.insert(stored@.id, stored@),
            ..old(self)@
        }).define(EntityType::Device));
        match self.autosaved(EntityType::Device) {
            Err(e) => {
                return Err(e);
            },
            Ok(()) => {},
        }
        if self.wrapper_of(stored.id).is_none() {
            match self.insert_group(Group::wrapping(stored.id)) {
                Err(e) => {
                    return Err(e);
                },
                Ok(_) => {},
            }
        }
        Ok(stored)
    }

    /// Stores a new device. One that already has an identifier is turned down.
    pub fn insert_device(&mut self, device: Device) -> (r: Result<Device, StoreError>)
        ensures
            device@.id != 0 ==> r == Err::<Device, StoreError>(StoreError::AlreadyHasId)
                && final(self)@ == old(self)@,
            device@.id == 0 ==> final(self)@ == old(self)@.set_device(device@).0 && agrees(
                r,
                old(self)@.set_device(device@).1,
            ),
            r matches Ok(e) ==> {
                &&& e@.id != 0
                &&& e@ == (crate::device::DeviceView { id: e@.id, ..device@ })
                &&& !old(self)@.devices.contains_key(e@.id)
                &&& final(self)@.devices.contains_key(e@.id)
                &&& final(self)@.devices[e@.id] == e@
            },
    {
        if device.id > 0 {
            return Err(StoreError::AlreadyHasId);
        }
        proof {
            if old(self)@.set_device(device@).1 is Ok {
                crate::store_laws::lemma_inserted_device_is_stored(old(self)@, device@);
            }
        }
        self.set_device(device)
    }

    /// Replaces a stored device. One that is not stored is turned down.
    pub fn update_device(&mut self, device: Device) -> (r: Result<Device, StoreError>)
        ensures
            !old(self)@.devices.contains_key(device@.id) ==> r == Err::<Device, StoreError>(
                StoreError::NotFound,
            ) && final(self)@ == old(self)@,
            old(self)@.devices.contains_key(device@.id) ==> final(self)@
                == old(self)@.set_device(device@).0 && agrees(
                r,
                old(self)@.set_device(device@).1,
            ),
    {
        if !self.devices.contains(device.id) {
            return Err(StoreError::NotFound);
        }
        self.set_device(device)
    }

    // ------------------------------------------------------------------ cascades

    /// Makes the parent of group `child`, if it has one, let go of it.
    fn release_child(&mut self, child: Id) -> (r: Result<(), StoreError>)
        ensures
            final(self)@ == old(self)@.release_child(child).0,
            r == old(self)@.release_child(child).1,
    {
        match self.parent_of(child) {
            None => Ok(()),
            Some(p) => {
                let mut parent = match self.groups.get(p) {
                    Some(parent) => parent,
                    None => {
                        return Ok(());
                    },
                };
                parent.remove_child(child);
                match self.set_group(parent) {
                    Err(e) => Err(e),
                    Ok(_) => Ok(()),
                }
            },
        }
    }

    /// Ends the removal of `group`: its parent lets go of it, then the category is
    /// persisted.
    fn finish_group(&mut self, group: Group) -> (r: Result<Option<Group>, StoreError>)
        requires
            old(self)@.autosave,
        ensures
            final(self)@ == old(self)@.finish_group(group@).0,
            agrees_removed(r, old(self)@.finish_group(group@).1),
    {
        match self.release_child(group.id) {
            Err(e) => {
                return Err(e);
            },
            Ok(()) => {},
        }
        match self.save_to_file(EntityType::Group) {
            Err(e) => Err(e),
            Ok(()) => Ok(Some(group)),
        }
    }

    /// Removes a group whose device, if it had one, is no longer stored.
    fn drop_group(&mut self, id: Id) -> (r: Result<Option<Group>, StoreError>)
        ensures
            final(self)@ == old(self)@.drop_group(id).0,
            agrees_removed(r, old(self)@.drop_group(id).1),
    {
        self.define(EntityType::Group);
        let removed = match self.groups.remove(id) {
            None => {
                return Ok(None);
            },
            Some(removed) => removed,
        };
        assert(self@ =~= (StoreView {
            groups: old(self)@.define(EntityType::Group).groups.remove(id),
            ..old(self)@.define(EntityType::Group)
        }));
        if !self.autosave {
            return Ok(Some(removed));
        }
        self.finish_group(removed)
    }

    /// Removes the device stored under `id` and returns it. Where autosave is on, the
    /// group that wraps the device goes with it.
    pub fn delete_device(&mut self, id: Id) -> (r: Result<Option<Device>, StoreError>)
        ensures
            final(self)@ == old(self)@.delete_device(id).0,
            agrees_removed(r, old(self)@.delete_device(id).1),
    {
        self.define(EntityType::Device);
        let removed = match self.devices.remove(id) {
            None => {
                return Ok(None);
            },
            Some(removed) => removed,
        };
        assert(self@ =~= (StoreView {
            devices: old(self)@.define(EntityType::Device).devices.remove(id),
            ..old(self)@.define(EntityType::Device)
        }));
        if !self.autosave {
            return Ok(Some(removed));
        }
        match self.wrapper_of(removed.id) {
            Some(g) => match self.drop_group(g) {
                Err(e) => {
                    return Err(e);
                },
                Ok(_) => {},
            },
            None => {},
        }
        match self.save_to_file(EntityType::Device) {
            Err(e) => Err(e),
            Ok(()) => Ok(Some(removed)),
        }
    }

    /// Removes the group stored under `id` and returns it. Where autosave is on, the
    /// device that the group wraps goes with it, and the group that lists it among its
    /// children lets go of it.
    pub fn delete_group(&mut self, id: Id) -> (r: Result<Option<Group>, StoreError>)
        ensures
            final(self)@ == old(self)@.delete_group(id).0,
            agrees_removed(r, old(self)@.delete_group(id).1),
    {
        self.define(EntityType::Group);
        let removed = match self.groups.remove(id) {
            None => {
                return Ok(None);
            },
            Some(removed) => removed,
        };
        assert(self@ =~= (StoreView {
            groups: old(self)@.define(EntityType::Group).groups.remove(id),
            ..old(self)@.define(EntityType::Group)
        }));
        if !self.autosave {
            return Ok(Some(removed));
        }
        match removed.device {
            Some(d) => {
                if self.devices.contains(d) {
                    match self.delete_device(d) {
                        Err(e) => {
                            return Err(e);
                        },
                        Ok(_) => {},
                    }
                }
            },
            None => {},
        }
        self.finish_group(removed)
    }

    /// Removes the devices of `roster` one after the other, stopping at the first
    /// refusal.
    fn delete_devices(&mut self, roster: &Vec<Id>) -> (r: Result<(), StoreError>)
        ensures
            final(self)@ == old(self)@.delete_devices(roster@).0,
            r == old(self)@.delete_devices(roster@).1,
    {
        let mut i: usize = 0;
        proof {
            assert(roster@.skip(0) =~= roster@);
        }
        while i < roster.len()
            invariant
                i <= roster@.len(),
                old(self)@.delete_devices(roster@) == self@.delete_devices(roster@.skip(i as int)),
            decreases roster@.len() - i,
        {
            proof {
                let rest = roster@.skip(i as int);
                assert(rest.first() == roster@[i as int]);
                assert(rest.drop_first() =~= roster@.skip(i + 1));
            }
            match self.delete_device(roster[i]) {
                Err(e) => {
                    return Err(e);
                },
                Ok(_) => {},
            }
            i += 1;
        }
        Ok(())
    }

    /// Removes the board stored under `id` and returns it. Where autosave is on, every
    /// device wired to the board goes with it, each with its group.
    pub fn delete_board(&mut self, id: Id) -> (r: Result<Option<Board>, StoreError>)
        ensures
            final(self)@ == old(self)@.delete_board(id).0,
            agrees_removed(r, old(self)@.delete_board(id).1),
    {
        self.define(EntityType::Board);
        let removed = match self.boards.remove(id) {
            None => {
                return Ok(None);
            },
            Some(removed) => removed,
        };
        assert(self@ =~= (StoreView {
            boards: old(self)@.define(EntityType::Board).boards.remove(id),
            ..old(self)@.define(EntityType::Board)
        }));
        if !self.autosave {
            return Ok(Some(removed));
        }
        let roster = self.devices_of(removed.id);
        match self.delete_devices(&roster) {
            Err(e) => {
                return Err(e);
            },
            Ok(()) => {},
        }
        match self.save_to_file(EntityType::Board) {
            Err(e) => Err(e),
            Ok(()) => Ok(Some(removed)),
        }
    }

    // ------------------------------------------------------------------ lookups

    /// The board stored under `id`, if there is one.
    pub fn find_board(&self, id: Id) -> (r: Option<&Board>)
        ensures
            r.is_some() == self@.boards.contains_key(id),
            r matches Some(e) ==> e@ == self@.boards[id] && e@.id == id,
    {
        self.boards.find(id)
    }

    /// The device stored under `id`, if there is one.
    pub fn find_device(&self, id: Id) -> (r: Option<&Device>)
        ensures
            r.is_some() == self@.devices.contains_key(id),
            r matches Some(e) ==> e@ == self@.devices[id] && e@.id == id,
    {
        self.devices.find(id)
    }

    /// The group stored under `id`, if there is one.
    pub fn find_group(&self, id: Id) -> (r: Option<&Group>)
        ensures
            r.is_some() == self@.groups.contains_key(id),
            r matches Some(e) ==> e@ == self@.groups[id] && e@.id == id,
    {
        self.groups.find(id)
    }

    /// Whether `device` can be driven: it is stored, and so is its board, which is
    /// connected.
    pub fn reachable(&self, device: Id) -> (r: bool)
        ensures
            r == self@.reachable(device),
    {
        match self.devices.find(device) {
            None => false,
            Some(found) => match self.boards.find(found.bid) {
                None => false,
                Some(board) => board.connected,
            },
        }
    }

    // ------------------------------------------------------------------ persistence

    /// A store that persists to `folder`. With `reset_if_exists` it starts empty,
    /// whatever the folder held; without, it starts from `files`, what was read from the
    /// folder, as [`Database::load`] takes it in.
    pub fn init_persistent(
        folder: String,
        reset_if_exists: bool,
        autosave: bool,
        files: StoredFiles,
    ) -> (r: Result<Self, StoreError>)
        ensures
            r matches Ok(db) && db@ == if reset_if_exists {
                StoreView::empty(Some(folder@), autosave)
            } else {
                StoreView::empty(Some(folder@), autosave).load(files@)
            },
    {
        let mut db = Database {
            destination: Some(folder),
            autosave,
            boards: Table::new(),
            devices: Table::new(),
            groups: Table::new(),
            animations: Table::new(),
            postures: Table::new(),
            pending: Vec::new(),
        };
        assert(db@ =~= StoreView::empty(Some(folder@), autosave));
        if !reset_if_exists {
            db.load(files);
        }
        Ok(db)
    }

    /// What the files of the store hold once every category is written: for each
    /// category, its records in ascending order of their identifiers.
    pub fn snapshot(&self) -> (files: StoredFiles)
        ensures
            crate::store_laws::files_of(self@, files@),
    {
        StoredFiles {
            boards: Some(self.boards.list()),
            devices: Some(self.devices.list()),
            groups: Some(self.groups.list()),
            animations: Some(self.animations.list()),
            postures: Some(self.postures.list()),
        }
    }

    /// Asks for the file of every category that exists to be rewritten. A store without
    /// a destination cannot be dumped.
    pub fn dump(&mut self) -> (r: Result<(), StoreError>)
        ensures
            match old(self)@.dump() {
                Ok(next) => r is Ok && final(self)@ == next,
                Err(e) => r == Err::<(), StoreError>(e) && final(self)@ == old(self)@,
            },
    {
        if self.destination.is_none() {
            return Err(StoreError::MissingDestination);
        }
        if self.boards.defined() {
            self.pending.push(EntityType::Board);
        }
        if self.devices.defined() {
            self.pending.push(EntityType::Device);
        }
        if self.groups.defined() {
            self.pending.push(EntityType::Group);
        }
        if self.animations.defined() {
            self.pending.push(EntityType::Animation);
        }
        if self.postures.defined() {
            self.pending.push(EntityType::Posture);
        }
        Ok(())
    }

    /// Takes in what was read from the store's folder. Each category that has a file is
    /// replaced by the records of its file. Then every record is brought to its
    /// starting state against the store as it was read: boards are not connected, and
    /// animations are resolved. A store without a destination loads nothing.
    pub fn load(&mut self, files: StoredFiles)
        ensures
            final(self)@ == old(self)@.load(files@),
    {
        if self.destination.is_none() {
            return;
        }
        match &files.boards {
            Some(rows) => {
                self.boards = Table::from_rows(rows);
            },
            None => {},
        }
        match &files.devices {
            Some(rows) => {
                self.devices = Table::from_rows(rows);
            },
            None => {},
        }
        match &files.groups {
            Some(rows) => {
                self.groups = Table::from_rows(rows);
            },
            None => {},
        }
        match &files.animations {
            Some(rows) => {
                self.animations = Table::from_rows(rows);
            },
            None => {},
        }
        match &files.postures {
            Some(rows) => {
                self.postures = Table::from_rows(rows);
            },
            None => {},
        }
        assert(self@ =~= old(self)@.filled(files@));
        let ghost snapshot = self@;
        let animations = self.rebuilt_animations();
        let boards = self.disconnected_boards();
        match animations {
            Some(rows) => {
                self.animations = Table::from_rows(&rows);
            },
            None => {},
        }
        match boards {
            Some(rows) => {
                self.boards = Table::from_rows(&rows);
            },
            None => {},
        }
        assert(self@ =~= snapshot.refreshed());
    }

    /// The animations of the store, each resolved against the store as it is; nothing
    /// where the category does not exist.
    fn rebuilt_animations(&self) -> (r: Option<Vec<Animation>>)
        ensures
            r.is_some() == self@.defined.contains(EntityType::Animation),
            r is None ==> all_rebuilt(self@.animations, self@) == self@.animations,
            r matches Some(rows) ==> crate::table::table_of::<Animation>(views_of(rows@))
                == all_rebuilt(self@.animations, self@),
    {
        if !self.animations.defined() {
            assert(all_rebuilt(self@.animations, self@) =~= self@.animations);
            return None;
        }
        let listing = self.animations.list();
        let mut rows: Vec<Animation> = Vec::new();
        let mut i: usize = 0;
        while i < listing.len()
            invariant
                i <= listing@.len(),
                rows@.len() == i,
                forall|k: int| 0 <= k < i ==> (#[trigger] rows@[k])@ == listing@[k]@.rebuilt(self@),
            decreases listing@.len() - i,
        {
            let mut animation = listing[i].duplicate();
            animation.post_load(self);
            rows.push(animation);
            i += 1;
        }
        proof {
            let before = views_of(listing@);
            let after = views_of(rows@);
            let target = all_rebuilt(self@.animations, self@);
            assert forall|a: int, b: int| 0 <= a < b < after.len() implies Animation::id_of(
                #[trigger] after[a],
            ) < Animation::id_of(#[trigger] after[b]) by {
                assert(Animation::id_of(before[a]) < Animation::id_of(before[b]));
            }
            assert forall|k: int| 0 <= k < after.len() implies {
                &&& target.contains_key(Animation::id_of(#[trigger] after[k]))
                &&& target[Animation::id_of(after[k])] == after[k]
            } by {
                assert(self@.animations.contains_key(Animation::id_of(before[k])));
            }
            assert forall|id: Id| target.contains_key(id) implies occurs::<Animation>(
                after,
                id,
            ) by {
                assert(occurs::<Animation>(before, id));
                let p = position_of::<Animation>(before, id);
                assert(Animation::id_of(after[p]) == id);
            }
            lemma_listing_round_trip::<Animation>(after, target);
        }
        Some(rows)
    }

    /// The boards of the store, each not connected; nothing where the category does not
    /// exist.
    fn disconnected_boards(&self) -> (r: Option<Vec<Board>>)
        ensures
            r.is_some() == self@.defined.contains(EntityType::Board),
            r is None ==> all_disconnected(self@.boards) == self@.boards,
            r matches Some(rows) ==> crate::table::table_of::<Board>(views_of(rows@))
                == all_disconnected(self@.boards),
    {
        if !self.boards.defined() {
            assert(all_disconnected(self@.boards) =~= self@.boards);
            return None;
        }
        let listing = self.boards.list();
        let mut rows: Vec<Board> = Vec::new();
        let mut i: usize = 0;
        while i < listing.len()
            invariant
                i <= listing@.len(),
                rows@.len() == i,
                forall|k: int| 0 <= k < i ==> (#[trigger] rows@[k])@ == listing@[k]@.disconnected(),
            decreases listing@.len() - i,
        {
            let mut board = listing[i].duplicate();
            board.post_load();
            rows.push(board);
            i += 1;
        }
        proof {
            let before = views_of(listing@);
            let after = views_of(rows@);
            let target = all_disconnected(self@.boards);
            assert forall|a: int, b: int| 0 <= a < b < after.len() implies Board::id_of(
                #[trigger] after[a],
            ) < Board::id_of(#[trigger] after[b]) by {
                assert(Board::id_of(before[a]) < Board::id_of(before[b]));
            }
            assert forall|k: int| 0 <= k < after.len() implies {
                &&& target.contains_key(Board::id_of(#[trigger] after[k]))
                &&& target[Board::id_of(after[k])] == after[k]
            } by {
                assert(self@.boards.contains_key(Board::id_of(before[k])));
            }
            assert forall|id: Id| target.contains_key(id) implies occurs::<Board>(after, id) by {
                assert(occurs::<Board>(before, id));
                let p = position_of::<Board>(before, id);
                assert(Board::id_of(after[p]) == id);
            }
            lemma_listing_round_trip::<Board>(after, target);
        }
        Some(rows)
    }

    /// Every record of a store is kept under the identifier that it carries.
    pub proof fn lemma_keyed(self)
        ensures
            crate::store_laws::keyed(self@),
            forall|id: Id| self@.animations.contains_key(id) ==> (#[trigger] self@.animations[id]).id == id,
            forall|id: Id| self@.postures.contains_key(id) ==> (#[trigger] self@.postures[id]).id == id,
    {
        self.boards.lemma_keyed();
        self.devices.lemma_keyed();
        self.groups.lemma_keyed();
        self.animations.lemma_keyed();
        self.postures.lemma_keyed();
    }

    /// Puts the volatile timeline of a stored animation in place of the one that the
    /// store holds, without persisting anything: a timeline is never persisted.
    pub fn keep_timeline(&mut self, id: Id, timeline: crate::animation::Timeline) -> (kept: bool)
        ensures
            kept == old(self)@.animations.contains_key(id),
            final(self)@ == old(self)@.keep_timeline(id, timeline@),
    {
        let mut animation = match self.animations.get(id) {
            None => {
                return false;
            },
            Some(animation) => animation,
        };
        proof {
            self.animations.lemma_keyed();
        }
        let defined = self.animations.defined();
        assert(defined);
        animation.inner = timeline;
        self.animations.put(animation);
        assert(self@ =~= old(self)@.keep_timeline(id, timeline@));
        true
    }

    // ------------------------------------------------------------------ any category

    /// A copy of the record of type `T` stored under `id`, if there is one.
    pub fn get<T: Stored>(&self, id: &Id) -> (r: Option<T>)
        ensures
            r.is_some() == T::table(self@).contains_key(*id),
            r matches Some(e) ==> e@ == T::table(self@)[*id],
    {
        T::fetch(self, *id)
    }

    /// Copies of all records of type `T`, in ascending order of their identifiers. A
    /// category that the store never touched lists nothing.
    pub fn list<T: Stored>(&self) -> (all: Vec<T>)
        ensures
            lists::<T>(views_of(all@), T::table(self@)),
    {
        T::fetch_all(self)
    }

    /// Stores a record: under its own identifier where it has one, replacing what was
    /// there, and under the next free identifier where it has none. The cascade of the
    /// record's type follows.
    pub fn set<T: Stored>(&mut self, entity: T) -> (r: Result<T, StoreError>)
        ensures
            final(self)@ == T::stored(old(self)@, entity@).0,
            agrees(r, T::stored(old(self)@, entity@).1),
    {
        T::store(self, entity)
    }

    /// Stores a new record. One that already has an identifier is turned down and
    /// nothing changes.
    pub fn insert<T: Stored>(&mut self, entity: T) -> (r: Result<T, StoreError>)
        ensures
            T::id_of(entity@) != 0 ==> r == Err::<T, StoreError>(StoreError::AlreadyHasId)
                && final(self)@ == old(self)@,
            T::id_of(entity@) == 0 ==> final(self)@ == T::stored(old(self)@, entity@).0
                && agrees(r, T::stored(old(self)@, entity@).1),
    {
        if entity.get_id() > 0 {
            return Err(StoreError::AlreadyHasId);
        }
        T::store(self, entity)
    }

    /// Replaces a stored record. One whose identifier is not in use is turned down and
    /// nothing changes.
    pub fn update<T: Stored>(&mut self, entity: T) -> (r: Result<T, StoreError>)
        ensures
            !T::table(old(self)@).contains_key(T::id_of(entity@)) ==> r == Err::<T, StoreError>(
                StoreError::NotFound,
            ) && final(self)@ == old(self)@,
            T::table(old(self)@).contains_key(T::id_of(entity@)) ==> final(self)@ == T::stored(
                old(self)@,
                entity@,
            ).0 && agrees(r, T::stored(old(self)@, entity@).1),
    {
        if T::fetch(self, entity.get_id()).is_none() {
            return Err(StoreError::NotFound);
        }
        T::store(self, entity)
    }

    /// Removes the record of type `T` stored under `id` and returns it; where there is
    /// none, nothing is removed and nothing returned. Where autosave is on, the cascade
    /// of the record's type follows.
    pub fn delete<T: Stored>(&mut self, id: Id) -> (r: Result<Option<T>, StoreError>)
        ensures
            final(self)@ == T::deleted(old(self)@, id).0,
            agrees_removed(r, T::deleted(old(self)@, id).1),
    {
        T::discard(self, id)
    }
}

/// A type of record that the store has a table for. The store's operations that are
/// generic in the type of record go through this trait to the table of the type.
pub trait Stored: Entity {
    /// The table of this type of record in a store.
    spec fn table(store: StoreView) -> Map<Id, Self::V>;

    /// What storing a record of this type does to a store, and what it hands back.
    spec fn stored(store: StoreView, entity: Self::V) -> (StoreView, Verdict<Self::V>);

    /// What deleting a record of this type does to a store, and what it hands back.
    spec fn deleted(store: StoreView, id: Id) -> (StoreView, Verdict<Option<Self::V>>);

    /// A copy of the record stored under `id`.
    fn fetch(database: &Database, id: Id) -> (r: Option<Self>)
        ensures
            r.is_some() == Self::table(database@).contains_key(id),
            r matches Some(e) ==> e@ == Self::table(database@)[id],
    ;

    /// Copies of all records of this type, in ascending order of their identifiers.
    fn fetch_all(database: &Database) -> (all: Vec<Self>)
        ensures
            lists::<Self>(views_of(all@), Self::table(database@)),
    ;

    /// Stores a record of this type.
    fn store(database: &mut Database, entity: Self) -> (r: Result<Self, StoreError>)
        ensures
            final(database)@ == Self::stored(old(database)@, entity@).0,
            agrees(r, Self::stored(old(database)@, entity@).1),
    ;

    /// Deletes the record of this type stored under `id`.
    fn discard(database: &mut Database, id: Id) -> (r: Result<Option<Self>, StoreError>)
        ensures
            final(database)@ == Self::deleted(old(database)@, id).0,
            agrees_removed(r, Self::deleted(old(database)@, id).1),
    ;
}

impl Stored for Board {
    open spec fn table(store: StoreView) -> Map<Id, Self::V> {
        store.boards
    }

    open spec fn stored(store: StoreView, entity: Self::V) -> (StoreView, Verdict<Self::V>) {
        store.set_board(entity)
    }

    open spec fn deleted(store: StoreView, id: Id) -> (StoreView, Verdict<Option<Self::V>>) {
        store.delete_board(id)
    }

    fn fetch(database: &Database, id: Id) -> (r: Option<Self>) {
        database.get_board(id)
    }

    fn fetch_all(database: &Database) -> (all: Vec<Self>) {
        database.list_boards()
    }

    fn store(database: &mut Database, entity: Self) -> (r: Result<Self, StoreError>) {
        database.set_board(entity)
    }

    fn discard(database: &mut Database, id: Id) -> (r: Result<Option<Self>, StoreError>) {
        database.delete_board(id)
    }
}

impl Stored for Device {
    open spec fn table(store: StoreView) -> Map<Id, Self::V> {
        store.devices
    }

    open spec fn stored(store: StoreView, entity: Self::V) -> (StoreView, Verdict<Self::V>) {
        store.set_device(entity)
    }

    open spec fn deleted(store: StoreView, id: Id) -> (StoreView, Verdict<Option<Self::V>>) {
        store.delete_device(id)
    }

    fn fetch(database: &Database, id: Id) -> (r: Option<Self>) {
        database.get_device(id)
    }

    fn fetch_all(database: &Database) -> (all: Vec<Self>) {
        database.list_devices()
    }

    fn store(database: &mut Database, entity: Self) -> (r: Result<Self, StoreError>) {
        database.set_device(entity)
    }

    fn discard(database: &mut Database, id: Id) -> (r: Result<Option<Self>, StoreError>) {
        database.delete_device(id)
    }
}

impl Stored for Group {
    open spec fn table(store: StoreView) -> Map<Id, Self::V> {
        store.groups
    }

    open spec fn stored(store: StoreView, entity: Self::V) -> (StoreView, Verdict<Self::V>) {
        store.set_group(entity)
    }

    open spec fn deleted(store: StoreView, id: Id) -> (StoreView, Verdict<Option<Self::V>>) {
        store.delete_group(id)
    }

    fn fetch(database: &Database, id: Id) -> (r: Option<Self>) {
        database.get_group(id)
    }

    fn fetch_all(database: &Database) -> (all: Vec<Self>) {
        database.list_groups()
    }

    fn store(database: &mut Database, entity: Self) -> (r: Result<Self, StoreError>) {
        database.set_group(entity)
    }

    fn discard(database: &mut Database, id: Id) -> (r: Result<Option<Self>, StoreError>) {
        database.delete_group(id)
    }
}

impl Stored for Animation {
    open spec fn table(store: StoreView) -> Map<Id, Self::V> {
        store.animations
    }

    open spec fn stored(store: StoreView, entity: Self::V) -> (StoreView, Verdict<Self::V>) {
        store.set_animation(entity)
    }

    open spec fn deleted(store: StoreView, id: Id) -> (StoreView, Verdict<Option<Self::V>>) {
        store.delete_animation(id)
    }

    fn fetch(database: &Database, id: Id) -> (r: Option<Self>) {
        database.get_animation(id)
    }

    fn fetch_all(database: &Database) -> (all: Vec<Self>) {
        database.list_animations()
    }

    fn store(database: &mut Database, entity: Self) -> (r: Result<Self, StoreError>) {
        database.set_animation(entity)
    }

    fn discard(database: &mut Database, id: Id) -> (r: Result<Option<Self>, StoreError>) {
        database.delete_animation(id)
    }
}

impl Stored for Posture {
    open spec fn table(store: StoreView) -> Map<Id, Self::V> {
        store.postures
    }

    open spec fn stored(store: StoreView, entity: Self::V) -> (StoreView, Verdict<Self::V>) {
        store.set_posture(entity)
    }

    open spec fn deleted(store: StoreView, id: Id) -> (StoreView, Verdict<Option<Self::V>>) {
        store.delete_posture(id)
    }

    fn fetch(database: &Database, id: Id) -> (r: Option<Self>) {
        database.get_posture(id)
    }

    fn fetch_all(database: &Database) -> (all: Vec<Self>) {
        database.list_postures()
    }

    fn store(database: &mut Database, entity: Self) -> (r: Result<Self, StoreError>) {
        database.set_posture(entity)
    }

    fn discard(database: &mut Database, id: Id) -> (r: Result<Option<Self>, StoreError>) {
        database.delete_posture(id)
    }
}

} // verus!

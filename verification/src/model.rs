//! The store as the contracts see it: five maps, two settings and a journal, with the
//! effect of every operation written as a function on that value.

use vstd::prelude::*;
use crate::animation::AnimationView;
use crate::board::{Board, BoardView};
use crate::device::{Device, DeviceView};
use crate::entity::{EntityType, Id};
use crate::group::{Group, GroupView};
use crate::posture::PostureView;
use crate::table::{assign, table_of};

verus! {

/// Why the store turns an operation down.
#[derive(Clone, Copy, Debug, PartialEq, Eq, Structural)]
pub enum StoreError {
    /// An update names a record that is not stored.
    NotFound,
    /// An insert brings a record that already has an identifier.
    AlreadyHasId,
    /// The store was asked to persist and has no folder to persist to.
    MissingDestination,
    /// The store was asked to persist a category that it has never touched.
    UnknownCategory,
    /// A new record would need an identifier beyond the largest the machine has.
    IdSpaceExhausted,
}

impl StoreError {
    /// What the error says.
    pub open spec fn spec_message(self) -> Seq<char> {
        match self {
            StoreError::NotFound => "No entity found with this ID."@,
            StoreError::AlreadyHasId => "Cannot insert an entity that already have an id"@,
            StoreError::MissingDestination => "Destination folder undefined."@,
            StoreError::UnknownCategory => "Entity type undefined."@,
            StoreError::IdSpaceExhausted => "No identifier left for a new entity."@,
        }
    }

    /// What the error says.
    pub fn message(&self) -> (text: String)
        ensures
            text@ == self.spec_message(),
    {
        match self {
            StoreError::NotFound => "No entity found with this ID.".to_owned(),
            StoreError::AlreadyHasId => "Cannot insert an entity that already have an id".to_owned(),
            StoreError::MissingDestination => "Destination folder undefined.".to_owned(),
            StoreError::UnknownCategory => "Entity type undefined.".to_owned(),
            StoreError::IdSpaceExhausted => "No identifier left for a new entity.".to_owned(),
        }
    }
}

/// What a [`crate::database::Database`] is to the contracts.
///
/// `defined` holds the categories that exist in the store, `pending` the categories
/// whose files were asked to be rewritten and have not been handed out yet, oldest
/// first.
#[verifier::ext_equal]
pub struct StoreView {
    pub destination: Option<Seq<char>>,
    pub autosave: bool,
    pub boards: Map<Id, BoardView>,
    pub devices: Map<Id, DeviceView>,
    pub groups: Map<Id, GroupView>,
    pub animations: Map<Id, AnimationView>,
    pub postures: Map<Id, PostureView>,
    pub defined: Set<EntityType>,
    pub pending: Seq<EntityType>,
}

/// The set of categories among the five whose flag is set.
pub open spec fn defined_set(
    boards: bool,
    devices: bool,
    groups: bool,
    animations: bool,
    postures: bool,
) -> Set<EntityType> {
    Set::new(
        |kind: EntityType|
            match kind {
                EntityType::Board => boards,
                EntityType::Device => devices,
                EntityType::Group => groups,
                EntityType::Animation => animations,
                EntityType::Posture => postures,
            },
    )
}

/// What was read from the store's folder, as the contracts see it.
pub struct StoredFilesView {
    pub boards: Option<Seq<BoardView>>,
    pub devices: Option<Seq<DeviceView>>,
    pub groups: Option<Seq<GroupView>>,
    pub animations: Option<Seq<AnimationView>>,
    pub postures: Option<Seq<PostureView>>,
}

impl StoredFilesView {
    /// A folder without any category file.
    pub open spec fn none() -> StoredFilesView {
        StoredFilesView { boards: None, devices: None, groups: None, animations: None, postures: None }
    }

    /// The categories that have a file.
    pub open spec fn named(self) -> Set<EntityType> {
        defined_set(
            self.boards is Some,
            self.devices is Some,
            self.groups is Some,
            self.animations is Some,
            self.postures is Some,
        )
    }
}

/// The boards of `boards`, each not connected.
pub open spec fn all_disconnected(boards: Map<Id, BoardView>) -> Map<Id, BoardView> {
    Map::new(|id: Id| boards.contains_key(id), |id: Id| boards[id].disconnected())
}

/// The animations of `animations`, each resolved against `store`.
pub open spec fn all_rebuilt(animations: Map<Id, AnimationView>, store: StoreView) -> Map<
    Id,
    AnimationView,
> {
    Map::new(|id: Id| animations.contains_key(id), |id: Id| animations[id].rebuilt(store))
}

/// The outcome of an operation that hands a record back.
pub type Verdict<V> = Result<V, StoreError>;

/// `r` is the executable form of the outcome `v`.
pub open spec fn agrees<T: View>(r: Result<T, StoreError>, v: Verdict<T::V>) -> bool {
    match v {
        Ok(x) => r matches Ok(e) && e@ == x,
        Err(e) => r == Err::<T, StoreError>(e),
    }
}

/// `r` is the executable form of the outcome `v` of a removal.
pub open spec fn agrees_removed<T: View>(
    r: Result<Option<T>, StoreError>,
    v: Verdict<Option<T::V>>,
) -> bool {
    match v {
        Ok(Some(x)) => r matches Ok(Some(e)) && e@ == x,
        Ok(None) => r == Ok::<Option<T>, StoreError>(None),
        Err(e) => r == Err::<Option<T>, StoreError>(e),
    }
}

/// Group `g` wraps device `d`.
pub open spec fn wraps(groups: Map<Id, GroupView>, g: Id, d: Id) -> bool {
    groups.contains_key(g) && groups[g].device == Some(d)
}

/// Group `g` is the one with the smallest identifier among those that wrap device `d`.
pub open spec fn is_wrapper_of(groups: Map<Id, GroupView>, g: Id, d: Id) -> bool {
    wraps(groups, g, d) && forall|h: Id| h < g ==> !wraps(groups, h, d)
}

/// The group that stands for device `d`, if any group wraps it.
pub open spec fn wrapper_of(groups: Map<Id, GroupView>, d: Id) -> Option<Id> {
    if exists|g: Id| is_wrapper_of(groups, g, d) {
        Some(choose|g: Id| is_wrapper_of(groups, g, d))
    } else {
        None
    }
}

/// Group `p` lists group `c` among its children.
pub open spec fn holds(groups: Map<Id, GroupView>, p: Id, c: Id) -> bool {
    groups.contains_key(p) && groups[p].children.contains(c)
}

/// Group `p` is the one with the smallest identifier among those that list `c`.
pub open spec fn is_parent_of(groups: Map<Id, GroupView>, p: Id, c: Id) -> bool {
    holds(groups, p, c) && forall|h: Id| h < p ==> !holds(groups, h, c)
}

/// The group that lists `c` among its children, if any does.
pub open spec fn parent_of(groups: Map<Id, GroupView>, c: Id) -> Option<Id> {
    if exists|p: Id| is_parent_of(groups, p, c) {
        Some(choose|p: Id| is_parent_of(groups, p, c))
    } else {
        None
    }
}

/// `roster` lists, in ascending order and once each, the devices wired to `board`.
pub open spec fn is_roster(roster: Seq<Id>, devices: Map<Id, DeviceView>, board: Id) -> bool {
    &&& forall|i: int, j: int| 0 <= i < j < roster.len() ==> roster[i] < roster[j]
    &&& forall|d: Id|
        roster.contains(d) <==> (devices.contains_key(d) && devices[d].bid == board)
}

/// The devices wired to `board`, in ascending order.
pub open spec fn roster_of(devices: Map<Id, DeviceView>, board: Id) -> Seq<Id> {
    choose|roster: Seq<Id>| is_roster(roster, devices, board)
}

impl StoreView {
    /// A store that holds nothing.
    pub open spec fn empty(destination: Option<Seq<char>>, autosave: bool) -> StoreView {
        StoreView {
            destination,
            autosave,
            boards: Map::empty(),
            devices: Map::empty(),
            groups: Map::empty(),
            animations: Map::empty(),
            postures: Map::empty(),
            defined: Set::empty(),
            pending: Seq::empty(),
        }
    }

    /// The store with the volatile timeline of animation `id` replaced, where that
    /// animation is stored.
    pub open spec fn keep_timeline(self, id: Id, timeline: crate::animation::TimelineView) -> StoreView {
        if self.animations.contains_key(id) {
            StoreView {
                animations: self.animations.insert(
                    id,
                    AnimationView { inner: timeline, ..self.animations[id] },
                ),
                ..self
            }
        } else {
            self
        }
    }

    /// The store with the category `kind` journalled where it exists.
    pub open spec fn journal(self, kind: EntityType) -> StoreView {
        if self.defined.contains(kind) {
            StoreView { pending: self.pending.push(kind), ..self }
        } else {
            self
        }
    }

    /// Asks for the file of every category that exists to be rewritten, in the order
    /// boards, devices, groups, animations, postures. A store without a destination
    /// cannot be dumped.
    pub open spec fn dump(self) -> Result<StoreView, StoreError> {
        if self.destination is None {
            Err(StoreError::MissingDestination)
        } else {
            Ok(
                self.journal(EntityType::Board).journal(EntityType::Device).journal(
                    EntityType::Group,
                ).journal(EntityType::Animation).journal(EntityType::Posture),
            )
        }
    }

    /// The store with each category that has a file replaced by the records of its
    /// file.
    pub open spec fn filled(self, files: StoredFilesView) -> StoreView {
        StoreView {
            boards: match files.boards {
                Some(rows) => table_of::<Board>(rows),
                None => self.boards,
            },
            devices: match files.devices {
                Some(rows) => table_of::<Device>(rows),
                None => self.devices,
            },
            groups: match files.groups {
                Some(rows) => table_of::<Group>(rows),
                None => self.groups,
            },
            animations: match files.animations {
                Some(rows) => table_of::<crate::animation::Animation>(rows),
                None => self.animations,
            },
            postures: match files.postures {
                Some(rows) => table_of::<crate::posture::Posture>(rows),
                None => self.postures,
            },
            defined: self.defined.union(files.named()),
            ..self
        }
    }

    /// The store with every record brought to its starting state against the store as
    /// it stands: boards not connected, animations resolved.
    pub open spec fn refreshed(self) -> StoreView {
        StoreView {
            boards: all_disconnected(self.boards),
            animations: all_rebuilt(self.animations, self),
            ..self
        }
    }

    /// What a load makes of the store: nothing without a destination; with one, the
    /// files are taken in and every record is brought to its starting state.
    pub open spec fn load(self, files: StoredFilesView) -> StoreView {
        if self.destination is None {
            self
        } else {
            self.filled(files).refreshed()
        }
    }

    /// Whether `device` can be driven: it is stored, and so is its board, which is
    /// connected.
    pub open spec fn reachable(self, device: Id) -> bool {
        &&& self.devices.contains_key(device)
        &&& self.boards.contains_key(self.devices[device].bid)
        &&& self.boards[self.devices[device].bid].connected
    }

    /// The store with category `kind` marked as existing.
    pub open spec fn define(self, kind: EntityType) -> StoreView {
        StoreView { defined: self.defined.insert(kind), ..self }
    }

    /// Asks for the file of category `kind` to be rewritten: refused without a
    /// destination and for a category that does not exist, journalled otherwise.
    pub open spec fn persist(self, kind: EntityType) -> Result<StoreView, StoreError> {
        if self.destination is None {
            Err(StoreError::MissingDestination)
        } else if !self.defined.contains(kind) {
            Err(StoreError::UnknownCategory)
        } else {
            Ok(StoreView { pending: self.pending.push(kind), ..self })
        }
    }

    /// What a mutation of category `kind` does once the table is changed: it persists
    /// the category where autosave is on.
    pub open spec fn autosaved(self, kind: EntityType) -> Result<StoreView, StoreError> {
        if self.autosave {
            self.persist(kind)
        } else {
            Ok(self)
        }
    }

    /// The end of every plain write: the category is persisted where autosave is on,
    /// and the value `v` is handed back where that went well.
    pub open spec fn settle<V>(self, kind: EntityType, v: V) -> (StoreView, Verdict<V>) {
        match self.autosaved(kind) {
            Ok(next) => (next, Ok(v)),
            Err(e) => (self, Err(e)),
        }
    }

    /// Stores a board, new or known.
    pub open spec fn set_board(self, board: BoardView) -> (StoreView, Verdict<BoardView>) {
        match assign::<Board>(self.boards, board) {
            None => (self, Err(StoreError::IdSpaceExhausted)),
            Some(b) => (StoreView { boards: self.boards.insert(b.id, b), ..self }).define(
                EntityType::Board,
            ).settle(EntityType::Board, b),
        }
    }

    /// Stores a group, new or known.
    pub open spec fn set_group(self, group: GroupView) -> (StoreView, Verdict<GroupView>) {
        match assign::<Group>(self.groups, group) {
            None => (self, Err(StoreError::IdSpaceExhausted)),
            Some(g) => (StoreView { groups: self.groups.insert(g.id, g), ..self }).define(
                EntityType::Group,
            ).settle(EntityType::Group, g),
        }
    }

    /// Stores an animation, new or known.
    pub open spec fn set_animation(self, animation: AnimationView) -> (
        StoreView,
        Verdict<AnimationView>,
    ) {
        match assign::<crate::animation::Animation>(self.animations, animation) {
            None => (self, Err(StoreError::IdSpaceExhausted)),
            Some(a) => (StoreView { animations: self.animations.insert(a.id, a), ..self }).define(
                EntityType::Animation,
            ).settle(EntityType::Animation, a),
        }
    }

    /// Stores a posture, new or known.
    pub open spec fn set_posture(self, posture: PostureView) -> (
        StoreView,
        Verdict<PostureView>,
    ) {
        match assign::<crate::posture::Posture>(self.postures, posture) {
            None => (self, Err(StoreError::IdSpaceExhausted)),
            Some(p) => (StoreView { postures: self.postures.insert(p.id, p), ..self }).define(
                EntityType::Posture,
            ).settle(EntityType::Posture, p),
        }
    }

    /// Stores a device, new or known, and then makes sure that a group wraps it: where
    /// none does, the implicit group is inserted.
    pub open spec fn set_device(self, device: DeviceView) -> (StoreView, Verdict<DeviceView>) {
        match assign::<Device>(self.devices, device) {
            None => (self, Err(StoreError::IdSpaceExhausted)),
            Some(d) => {
                let (stored, verdict) = (StoreView {
                    devices: self.devices.insert(d.id, d),
                    ..self
                }).define(EntityType::Device).settle(EntityType::Device, d);
                if verdict is Err || wrapper_of(stored.groups, d.id) is Some {
                    (stored, verdict)
                } else {
                    let (wrapped, group) = stored.set_group(GroupView::wrapping(d.id));
                    match group {
                        Ok(_) => (wrapped, Ok(d)),
                        Err(e) => (wrapped, Err(e)),
                    }
                }
            },
        }
    }

    /// Takes `child` out of the children of the group that lists it, if one does, and
    /// stores that group again.
    pub open spec fn release_child(self, child: Id) -> (StoreView, Verdict<()>) {
        match parent_of(self.groups, child) {
            None => (self, Ok(())),
            Some(p) => {
                let (next, verdict) = self.set_group(self.groups[p].without_child(child));
                match verdict {
                    Ok(_) => (next, Ok(())),
                    Err(e) => (next, Err(e)),
                }
            },
        }
    }

    /// The end of a group's removal: its parent lets go of it, then the category is
    /// persisted.
    pub open spec fn finish_group(self, group: GroupView) -> (
        StoreView,
        Verdict<Option<GroupView>>,
    ) {
        let (next, verdict) = self.release_child(group.id);
        match verdict {
            Err(e) => (next, Err(e)),
            Ok(_) => match next.persist(EntityType::Group) {
                Ok(last) => (last, Ok(Some(group))),
                Err(e) => (next, Err(e)),
            },
        }
    }

    /// Removes a group whose device, if it had one, is no longer stored.
    pub open spec fn drop_group(self, id: Id) -> (StoreView, Verdict<Option<GroupView>>) {
        let start = self.define(EntityType::Group);
        if !start.groups.contains_key(id) {
            (start, Ok(None))
        } else {
            let group = start.groups[id];
            let removed = StoreView { groups: start.groups.remove(id), ..start };
            if !removed.autosave {
                (removed, Ok(Some(group)))
            } else {
                removed.finish_group(group)
            }
        }
    }

    /// Removes a device and, where autosave is on, the group that wraps it.
    pub open spec fn delete_device(self, id: Id) -> (StoreView, Verdict<Option<DeviceView>>) {
        let start = self.define(EntityType::Device);
        if !start.devices.contains_key(id) {
            (start, Ok(None))
        } else {
            let device = start.devices[id];
            let removed = StoreView { devices: start.devices.remove(id), ..start };
            if !removed.autosave {
                (removed, Ok(Some(device)))
            } else {
                let (next, verdict) = match wrapper_of(removed.groups, device.id) {
                    Some(g) => removed.drop_group(g),
                    None => (removed, Ok(None)),
                };
                match verdict {
                    Err(e) => (next, Err(e)),
                    Ok(_) => match next.persist(EntityType::Device) {
                        Ok(last) => (last, Ok(Some(device))),
                        Err(e) => (next, Err(e)),
                    },
                }
            }
        }
    }

    /// Removes a group and, where autosave is on, the device that it wraps and its own
    /// mention among its parent's children.
    pub open spec fn delete_group(self, id: Id) -> (StoreView, Verdict<Option<GroupView>>) {
        let start = self.define(EntityType::Group);
        if !start.groups.contains_key(id) {
            (start, Ok(None))
        } else {
            let group = start.groups[id];
            let removed = StoreView { groups: start.groups.remove(id), ..start };
            if !removed.autosave {
                (removed, Ok(Some(group)))
            } else {
                match group.device {
                    Some(d) if removed.devices.contains_key(d) => {
                        let (next, verdict) = removed.delete_device(d);
                        match verdict {
                            Err(e) => (next, Err(e)),
                            Ok(_) => next.finish_group(group),
                        }
                    },
                    _ => removed.finish_group(group),
                }
            }
        }
    }

    /// Stores the groups of `groups` one after the other, stopping at the first refusal.
    pub open spec fn set_groups(self, groups: Seq<GroupView>) -> (StoreView, Verdict<()>)
        decreases groups.len(),
    {
        if groups.len() == 0 {
            (self, Ok(()))
        } else {
            let (next, verdict) = self.set_group(groups.first());
            match verdict {
                Err(e) => (next, Err(e)),
                Ok(_) => next.set_groups(groups.drop_first()),
            }
        }
    }

    /// Removes the devices of `roster` one after the other, stopping at the first
    /// refusal.
    pub open spec fn delete_devices(self, roster: Seq<Id>) -> (StoreView, Verdict<()>)
        decreases roster.len(),
    {
        if roster.len() == 0 {
            (self, Ok(()))
        } else {
            let (next, verdict) = self.delete_device(roster.first());
            match verdict {
                Err(e) => (next, Err(e)),
                Ok(_) => next.delete_devices(roster.drop_first()),
            }
        }
    }

    /// Removes a board and, where autosave is on, every device wired to it.
    pub open spec fn delete_board(self, id: Id) -> (StoreView, Verdict<Option<BoardView>>) {
        let start = self.define(EntityType::Board);
        if !start.boards.contains_key(id) {
            (start, Ok(None))
        } else {
            let board = start.boards[id];
            let removed = StoreView { boards: start.boards.remove(id), ..start };
            if !removed.autosave {
                (removed, Ok(Some(board)))
            } else {
                let (next, verdict) = removed.delete_devices(
                    roster_of(removed.devices, board.id),
                );
                match verdict {
                    Err(e) => (next, Err(e)),
                    Ok(_) => match next.persist(EntityType::Board) {
                        Ok(last) => (last, Ok(Some(board))),
                        Err(e) => (next, Err(e)),
                    },
                }
            }
        }
    }

    /// Removes an animation.
    pub open spec fn delete_animation(self, id: Id) -> (
        StoreView,
        Verdict<Option<AnimationView>>,
    ) {
        let start = self.define(EntityType::Animation);
        if !start.animations.contains_key(id) {
            (start, Ok(None))
        } else {
            (StoreView { animations: start.animations.remove(id), ..start }).settle(
                EntityType::Animation,
                Some(start.animations[id]),
            )
        }
    }

    /// Removes a posture.
    pub open spec fn delete_posture(self, id: Id) -> (StoreView, Verdict<Option<PostureView>>) {
        let start = self.define(EntityType::Posture);
        if !start.postures.contains_key(id) {
            (start, Ok(None))
        } else {
            (StoreView { postures: start.postures.remove(id), ..start }).settle(
                EntityType::Posture,
                Some(start.postures[id]),
            )
        }
    }
}

} // verus!

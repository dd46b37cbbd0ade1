//! What holds of the store's operations, proved from their contracts.

use vstd::prelude::*;
use crate::animation::{Animation, AnimationView};
use crate::board::{Board, BoardView};
use crate::device::{Device, DeviceView};
use crate::entity::{Entity, EntityType, Id};
use crate::group::{without, Group, GroupView};
use crate::laws::lemma_resolution_reads_topology;
use crate::database::lemma_ascending_unique;
use crate::model::{
    all_disconnected, all_rebuilt, holds, is_parent_of, is_roster, is_wrapper_of, parent_of,
    roster_of, wrapper_of, wraps, StoreError, StoreView, StoredFilesView,
};
use crate::posture::{Posture, PostureView};
use crate::table::{assign, is_next_id, lemma_listing_round_trip, lists, next_id};

verus! {

/// A record without an identifier is stored under the identifier that follows the
/// largest one in use, which is not zero and was not in use, and is otherwise stored as
/// it came.
pub proof fn lemma_assign_fresh<T: Entity>(m: Map<Id, T::V>, e: T::V)
    requires
        T::id_of(e) == 0,
        assign::<T>(m, e) is Some,
    ensures
        ({
            let stored = assign::<T>(m, e)->0;
            let id = T::id_of(stored);
            &&& id != 0
            &&& is_next_id(m, id)
            &&& !m.contains_key(id)
            &&& stored == T::with_id(e, id)
        }),
{
    let id = next_id(m)->0;
    assert(is_next_id(m, id));
    T::lemma_with_id(e, id);
}

/// A record without an identifier gets one as long as the largest identifier in use is
/// not the largest that the machine has.
pub proof fn lemma_assign_succeeds<T: Entity>(m: Map<Id, T::V>, e: T::V, free: Id)
    requires
        free > 0,
        forall|k: Id| m.contains_key(k) ==> k < free,
    ensures
        assign::<T>(m, e) is Some,
    decreases free,
{
    if T::id_of(e) == 0 {
        if free == 1 || m.contains_key((free - 1) as usize) {
            assert(is_next_id(m, free));
        } else {
            lemma_assign_succeeds::<T>(m, e, (free - 1) as usize);
        }
    }
}

/// Identifiers handed out one after the other ascend by one.
pub proof fn lemma_consecutive_ids<V>(m: Map<Id, V>, first: Id, v: V, second: Id)
    requires
        is_next_id(m, first),
        is_next_id(m.insert(first, v), second),
    ensures
        second == first + 1,
{
    assert(m.insert(first, v).contains_key(first));
    if second != 1 {
        let before = (second - 1) as usize;
        assert(m.insert(first, v).contains_key(before));
        if before != first {
            assert(m.contains_key(before));
        }
    }
}

/// The next identifier is one more than the largest in use, so removing the record
/// that was stored last frees its identifier for the next one.
pub proof fn lemma_freed_id_reissued<V>(m: Map<Id, V>, id: Id, v: V)
    requires
        is_next_id(m, id),
    ensures
        is_next_id(m.insert(id, v).remove(id), id),
{
    assert(m.insert(id, v).remove(id) =~= m);
}

/// Removing a record below the largest identifier in use frees nothing: the next
/// identifier still lies above every one that remains.
pub proof fn lemma_removed_id_not_reissued<V>(m: Map<Id, V>, removed: Id, higher: Id, next: Id)
    requires
        m.contains_key(removed),
        m.contains_key(higher),
        removed < higher,
        is_next_id(m.remove(removed), next),
    ensures
        next > higher,
        next != removed,
        is_next_id(m, next),
{
    assert(m.remove(removed).contains_key(higher));
    assert forall|k: Id| m.contains_key(k) implies k < next by {
        if k != removed {
            assert(m.remove(removed).contains_key(k));
        }
    }
    if next != 1 {
        assert(m.remove(removed).contains_key((next - 1) as usize));
    }
}

/// Inserting a board and getting it back by its new identifier gives the board
/// that was inserted, but for the identifier, which is fresh and not zero.
pub proof fn lemma_inserted_board_is_stored(store: StoreView, board: BoardView)
    requires
        board.id == 0,
        store.set_board(board).1 is Ok,
    ensures
        ({
            let (after, verdict) = store.set_board(board);
            let stored = verdict->Ok_0;
            &&& stored.id != 0
            &&& is_next_id(store.boards, stored.id)
            &&& !store.boards.contains_key(stored.id)
            &&& stored == (BoardView { id: stored.id, ..board })
            &&& after.boards.contains_key(stored.id)
            &&& after.boards[stored.id] == stored
        }),
{
    lemma_assign_fresh::<Board>(store.boards, board);
}

/// Inserting a board succeeds wherever an identifier is left for it and the store
/// either does not autosave or has a destination.
pub proof fn lemma_insert_board_succeeds(store: StoreView, board: BoardView, free: Id)
    requires
        board.id == 0,
        free > 0,
        forall|k: Id| store.boards.contains_key(k) ==> k < free,
        store.autosave ==> store.destination is Some,
    ensures
        store.set_board(board).1 is Ok,
{
    lemma_assign_succeeds::<Board>(store.boards, board, free);
}

/// Inserting a device and getting it back by its new identifier gives the device
/// that was inserted, but for the identifier, which is fresh and not zero.
pub proof fn lemma_inserted_device_is_stored(store: StoreView, device: DeviceView)
    requires
        device.id == 0,
        store.set_device(device).1 is Ok,
    ensures
        ({
            let (after, verdict) = store.set_device(device);
            let stored = verdict->Ok_0;
            &&& stored.id != 0
            &&& is_next_id(store.devices, stored.id)
            &&& !store.devices.contains_key(stored.id)
            &&& stored == (DeviceView { id: stored.id, ..device })
            &&& after.devices.contains_key(stored.id)
            &&& after.devices[stored.id] == stored
        }),
{
    lemma_assign_fresh::<Device>(store.devices, device);
}

/// Inserting a group and getting it back by its new identifier gives the group
/// that was inserted, but for the identifier, which is fresh and not zero.
pub proof fn lemma_inserted_group_is_stored(store: StoreView, group: GroupView)
    requires
        group.id == 0,
        store.set_group(group).1 is Ok,
    ensures
        ({
            let (after, verdict) = store.set_group(group);
            let stored = verdict->Ok_0;
            &&& stored.id != 0
            &&& is_next_id(store.groups, stored.id)
            &&& !store.groups.contains_key(stored.id)
            &&& stored == (GroupView { id: stored.id, ..group })
            &&& after.groups.contains_key(stored.id)
            &&& after.groups[stored.id] == stored
        }),
{
    lemma_assign_fresh::<Group>(store.groups, group);
}

/// Inserting a group succeeds wherever an identifier is left for it and the store
/// either does not autosave or has a destination.
pub proof fn lemma_insert_group_succeeds(store: StoreView, group: GroupView, free: Id)
    requires
        group.id == 0,
        free > 0,
        forall|k: Id| store.groups.contains_key(k) ==> k < free,
        store.autosave ==> store.destination is Some,
    ensures
        store.set_group(group).1 is Ok,
{
    lemma_assign_succeeds::<Group>(store.groups, group, free);
}

/// Inserting an animation and getting it back by its new identifier gives the animation
/// that was inserted, but for the identifier, which is fresh and not zero.
pub proof fn lemma_inserted_animation_is_stored(store: StoreView, animation: AnimationView)
    requires
        animation.id == 0,
        store.set_animation(animation).1 is Ok,
    ensures
        ({
            let (after, verdict) = store.set_animation(animation);
            let stored = verdict->Ok_0;
            &&& stored.id != 0
            &&& is_next_id(store.animations, stored.id)
            &&& !store.animations.contains_key(stored.id)
            &&& stored == (AnimationView { id: stored.id, ..animation })
            &&& after.animations.contains_key(stored.id)
            &&& after.animations[stored.id] == stored
        }),
{
    lemma_assign_fresh::<Animation>(store.animations, animation);
}

/// Inserting an animation succeeds wherever an identifier is left for it and the store
/// either does not autosave or has a destination.
pub proof fn lemma_insert_animation_succeeds(store: StoreView, animation: AnimationView, free: Id)
    requires
        animation.id == 0,
        free > 0,
        forall|k: Id| store.animations.contains_key(k) ==> k < free,
        store.autosave ==> store.destination is Some,
    ensures
        store.set_animation(animation).1 is Ok,
{
    lemma_assign_succeeds::<Animation>(store.animations, animation, free);
}

/// Inserting a posture and getting it back by its new identifier gives the posture
/// that was inserted, but for the identifier, which is fresh and not zero.
pub proof fn lemma_inserted_posture_is_stored(store: StoreView, posture: PostureView)
    requires
        posture.id == 0,
        store.set_posture(posture).1 is Ok,
    ensures
        ({
            let (after, verdict) = store.set_posture(posture);
            let stored = verdict->Ok_0;
            &&& stored.id != 0
            &&& is_next_id(store.postures, stored.id)
            &&& !store.postures.contains_key(stored.id)
            &&& stored == (PostureView { id: stored.id, ..posture })
            &&& after.postures.contains_key(stored.id)
            &&& after.postures[stored.id] == stored
        }),
{
    lemma_assign_fresh::<Posture>(store.postures, posture);
}

/// Inserting a posture succeeds wherever an identifier is left for it and the store
/// either does not autosave or has a destination.
pub proof fn lemma_insert_posture_succeeds(store: StoreView, posture: PostureView, free: Id)
    requires
        posture.id == 0,
        free > 0,
        forall|k: Id| store.postures.contains_key(k) ==> k < free,
        store.autosave ==> store.destination is Some,
    ensures
        store.set_posture(posture).1 is Ok,
{
    lemma_assign_succeeds::<Posture>(store.postures, posture, free);
}

/// Inserting a device succeeds wherever identifiers are left for it and for its group
/// and the store either does not autosave or has a destination.
pub proof fn lemma_insert_device_succeeds(
    store: StoreView,
    device: DeviceView,
    free: Id,
    free_group: Id,
)
    requires
        device.id == 0,
        free > 0,
        forall|k: Id| store.devices.contains_key(k) ==> k < free,
        free_group > 0,
        forall|k: Id| store.groups.contains_key(k) ==> k < free_group,
        store.autosave ==> store.destination is Some,
    ensures
        store.set_device(device).1 is Ok,
{
    lemma_assign_succeeds::<Device>(store.devices, device, free);
    let d = assign::<Device>(store.devices, device)->0;
    lemma_assign_succeeds::<Group>(store.groups, GroupView::wrapping(d.id), free_group);
}

/// After a device is stored, a group wraps it: the one that did before, or the
/// implicit group that the store inserted for it.
pub proof fn lemma_stored_device_is_wrapped(store: StoreView, device: DeviceView)
    requires
        store.set_device(device).1 is Ok,
    ensures
        ({
            let (after, verdict) = store.set_device(device);
            exists|g: Id| crate::model::wraps(after.groups, g, verdict->Ok_0.id)
        }),
{
    let d = assign::<Device>(store.devices, device)->0;
    let (stored, verdict) = (StoreView {
        devices: store.devices.insert(d.id, d),
        ..store
    }).define(EntityType::Device).settle(EntityType::Device, d);
    if wrapper_of(stored.groups, d.id) is Some {
        let g = choose|g: Id| crate::model::is_wrapper_of(stored.groups, g, d.id);
        assert(crate::model::wraps(stored.groups, g, d.id));
    } else {
        let wrapping = GroupView::wrapping(d.id);
        let (wrapped, group) = stored.set_group(wrapping);
        let g = assign::<Group>(stored.groups, wrapping)->0;
        lemma_assign_fresh::<Group>(stored.groups, wrapping);
        assert(wrapped.groups.contains_key(g.id));
        assert(crate::model::wraps(wrapped.groups, g.id, d.id));
    }
}

/// What the listings of a store's categories are, as files: each category has its
/// file, which lists the category.
pub open spec fn files_of(store: StoreView, files: StoredFilesView) -> bool {
    &&& files.boards matches Some(rows) && lists::<Board>(rows, store.boards)
    &&& files.devices matches Some(rows) && lists::<Device>(rows, store.devices)
    &&& files.groups matches Some(rows) && lists::<Group>(rows, store.groups)
    &&& files.animations matches Some(rows) && lists::<Animation>(rows, store.animations)
    &&& files.postures matches Some(rows) && lists::<Posture>(rows, store.postures)
}

/// Persisting every category and loading the files into a fresh store gives the same
/// records back, but for what is volatile: boards come back not connected, and
/// animations come back resolved, each against all the boards, devices and groups
/// that were persisted.
pub proof fn lemma_reload(store: StoreView, files: StoredFilesView, folder: Seq<char>, autosave: bool)
    requires
        files_of(store, files),
    ensures
        ({
            let loaded = StoreView::empty(Some(folder), autosave).load(files);
            &&& loaded.devices == store.devices
            &&& loaded.groups == store.groups
            &&& loaded.postures == store.postures
            &&& loaded.boards == all_disconnected(store.boards)
            &&& loaded.animations == all_rebuilt(store.animations, store)
            &&& loaded.destination == Some(folder)
            &&& loaded.autosave == autosave
            &&& loaded.pending == Seq::<EntityType>::empty()
        }),
{
    let fresh = StoreView::empty(Some(folder), autosave);
    let filled = fresh.filled(files);
    lemma_listing_round_trip::<Board>(files.boards->0, store.boards);
    lemma_listing_round_trip::<Device>(files.devices->0, store.devices);
    lemma_listing_round_trip::<Group>(files.groups->0, store.groups);
    lemma_listing_round_trip::<Animation>(files.animations->0, store.animations);
    lemma_listing_round_trip::<Posture>(files.postures->0, store.postures);
    assert forall|id: Id| store.animations.contains_key(id) implies store.animations[id].rebuilt(
        filled,
    ) == store.animations[id].rebuilt(store) by {
        lemma_resolution_reads_topology(filled, store, store.animations[id]);
    }
    assert(all_rebuilt(filled.animations, filled) =~= all_rebuilt(store.animations, store));
}

/// The store persists every mutation: autosave is on and there is a destination.
pub open spec fn saves(store: StoreView) -> bool {
    store.autosave && store.destination is Some
}

/// Every board, device and group is stored under the identifier that it carries.
pub open spec fn keyed(store: StoreView) -> bool {
    &&& forall|id: Id| store.boards.contains_key(id) ==> (#[trigger] store.boards[id]).id == id
    &&& forall|id: Id| store.devices.contains_key(id) ==> (#[trigger] store.devices[id]).id == id
    &&& forall|id: Id| store.groups.contains_key(id) ==> (#[trigger] store.groups[id]).id == id
}

/// The groups are as the store's own cascades leave them: none is stored under the
/// identifier zero, and no device is wrapped by two groups.
pub open spec fn coherent(store: StoreView) -> bool {
    &&& keyed(store)
    &&& !store.groups.contains_key(0)
    &&& forall|g: Id, h: Id, d: Id|
        wraps(store.groups, g, d) && wraps(store.groups, h, d) ==> g == h
}

/// `after` holds the groups of `before` but for those that wrap a device of `gone`,
/// each with the device and the identifier that it had.
pub open spec fn groups_follow(
    before: Map<Id, GroupView>,
    after: Map<Id, GroupView>,
    gone: Set<Id>,
) -> bool {
    &&& forall|h: Id| #[trigger]
        after.contains_key(h) <==> before.contains_key(h) && !(before[h].device is Some
            && gone.contains(before[h].device->0))
    &&& forall|h: Id| #[trigger]
        after.contains_key(h) ==> after[h].device == before[h].device && after[h].id
            == before[h].id
}

proof fn lemma_least_wrapper(groups: Map<Id, GroupView>, g: Id, d: Id)
    requires
        wraps(groups, g, d),
    ensures
        exists|h: Id| is_wrapper_of(groups, h, d),
    decreases g,
{
    if forall|h: Id| h < g ==> !wraps(groups, h, d) {
        assert(is_wrapper_of(groups, g, d));
    } else {
        let h = choose|h: Id| h < g && wraps(groups, h, d);
        lemma_least_wrapper(groups, h, d);
    }
}

/// Removing a group that wraps no stored device, from a store that persists, takes
/// that group away and changes no other group but in its children.
pub proof fn lemma_drop_group(store: StoreView, g: Id)
    requires
        saves(store),
        keyed(store),
        !store.groups.contains_key(0),
        store.groups.contains_key(g),
    ensures
        ({
            let (after, verdict) = store.drop_group(g);
            &&& verdict == Ok::<Option<GroupView>, StoreError>(Some(store.groups[g]))
            &&& saves(after)
            &&& after.boards == store.boards
            &&& after.devices == store.devices
            &&& forall|k: EntityType| store.defined.contains(k) ==> after.defined.contains(k)
            &&& forall|h: Id| #[trigger]
                after.groups.contains_key(h) <==> store.groups.contains_key(h) && h != g
            &&& forall|h: Id| #[trigger]
                after.groups.contains_key(h) ==> after.groups[h].device == store.groups[h].device
                    && after.groups[h].id == store.groups[h].id
        }),
{
    let start = store.define(EntityType::Group);
    let group = start.groups[g];
    let removed = StoreView { groups: start.groups.remove(g), ..start };
    assert(group.id == g);
    assert(start.defined.contains(EntityType::Group));
    match parent_of(removed.groups, g) {
        None => {},
        Some(p) => {
            assert(is_parent_of(removed.groups, p, g));
            assert(holds(removed.groups, p, g));
            assert(removed.groups.contains_key(p));
            assert(store.groups.contains_key(p));
            assert(removed.groups[p].id == p);
            let cleaned = removed.groups[p].without_child(g);
            assert(assign::<Group>(removed.groups, cleaned) == Some(cleaned));
            let written = (StoreView {
                groups: removed.groups.insert(p, cleaned),
                ..removed
            }).define(EntityType::Group);
            assert(written.defined.contains(EntityType::Group));
        },
    }
}

/// Deleting a device from a coherent store that persists takes away the device and the
/// group that wraps it, and nothing else but mentions of that group among children.
pub proof fn lemma_delete_device(store: StoreView, d: Id)
    requires
        saves(store),
        coherent(store),
        store.devices.contains_key(d),
    ensures
        ({
            let (after, verdict) = store.delete_device(d);
            &&& verdict == Ok::<Option<DeviceView>, StoreError>(Some(store.devices[d]))
            &&& saves(after)
            &&& coherent(after)
            &&& after.boards == store.boards
            &&& after.devices == store.devices.remove(d)
            &&& groups_follow(store.groups, after.groups, set![d])
        }),
{
    let start = store.define(EntityType::Device);
    let device = start.devices[d];
    let removed = StoreView { devices: start.devices.remove(d), ..start };
    assert(device.id == d);
    assert(start.defined.contains(EntityType::Device));
    assert(keyed(removed));
    match wrapper_of(removed.groups, d) {
        Some(g) => {
            assert(is_wrapper_of(removed.groups, g, d));
            assert(wraps(store.groups, g, d));
            lemma_drop_group(removed, g);
            let (next, verdict) = removed.drop_group(g);
            assert(next.defined.contains(EntityType::Device));
            let last = next.persist(EntityType::Device)->Ok_0;
            assert forall|h: Id| #[trigger]
                last.groups.contains_key(h) <==> store.groups.contains_key(h) && !(
                store.groups[h].device is Some && set![d].contains(
                    store.groups[h].device->0,
                )) by {
                if store.groups.contains_key(h) && store.groups[h].device == Some(d) {
                    assert(wraps(store.groups, h, d));
                    assert(h == g);
                }
            }
            assert(groups_follow(store.groups, last.groups, set![d]));
            assert forall|a: Id, b: Id, x: Id|
                wraps(last.groups, a, x) && wraps(last.groups, b, x) implies a == b by {
                assert(wraps(store.groups, a, x));
                assert(wraps(store.groups, b, x));
            }
            assert(coherent(last));
        },
        None => {
            assert forall|h: Id| !wraps(removed.groups, h, d) by {
                if wraps(removed.groups, h, d) {
                    lemma_least_wrapper(removed.groups, h, d);
                }
            }
            let last = removed.persist(EntityType::Device)->Ok_0;
            assert forall|h: Id| #[trigger]
                last.groups.contains_key(h) <==> store.groups.contains_key(h) && !(
                store.groups[h].device is Some && set![d].contains(
                    store.groups[h].device->0,
                )) by {
                if store.groups.contains_key(h) && store.groups[h].device == Some(d) {
                    assert(wraps(removed.groups, h, d));
                }
            }
            assert(groups_follow(store.groups, last.groups, set![d]));
            assert forall|a: Id, b: Id, x: Id|
                wraps(last.groups, a, x) && wraps(last.groups, b, x) implies a == b by {
                assert(wraps(store.groups, a, x));
                assert(wraps(store.groups, b, x));
            }
            assert(coherent(last));
        },
    }
}

/// Deleting the devices of a roster from a coherent store that persists takes away
/// those devices and the groups that wrap them, and no other device or group.
pub proof fn lemma_delete_devices(store: StoreView, roster: Seq<Id>)
    requires
        saves(store),
        coherent(store),
        forall|i: int, j: int| 0 <= i < j < roster.len() ==> roster[i] < roster[j],
        forall|i: int| 0 <= i < roster.len() ==> store.devices.contains_key(#[trigger] roster[i]),
    ensures
        ({
            let (after, verdict) = store.delete_devices(roster);
            &&& verdict == Ok::<(), StoreError>(())
            &&& saves(after)
            &&& coherent(after)
            &&& after.boards == store.boards
            &&& forall|x: Id| #[trigger]
                after.devices.contains_key(x) <==> store.devices.contains_key(x)
                    && !roster.contains(x)
            &&& forall|x: Id| #[trigger]
                after.devices.contains_key(x) ==> after.devices[x] == store.devices[x]
            &&& groups_follow(store.groups, after.groups, roster.to_set())
        }),
    decreases roster.len(),
{
    if roster.len() == 0 {
        let (after, verdict) = store.delete_devices(roster);
        assert(after == store);
        assert forall|x: Id| !roster.contains(x) by {}
    } else {
        let first = roster.first();
        let rest = roster.drop_first();
        assert(roster[0] == first);
        lemma_delete_device(store, first);
        let (next, _) = store.delete_device(first);
        assert forall|i: int, j: int| 0 <= i < j < rest.len() implies rest[i] < rest[j] by {
            assert(roster[i + 1] < roster[j + 1]);
        }
        assert forall|i: int| 0 <= i < rest.len() implies next.devices.contains_key(
            #[trigger] rest[i],
        ) by {
            assert(rest[i] == roster[i + 1]);
            assert(roster[0] < roster[i + 1]);
        }
        lemma_delete_devices(next, rest);
        let (after, verdict) = next.delete_devices(rest);
        assert(store.delete_devices(roster) == (after, verdict));
        assert forall|x: Id| roster.contains(x) <==> (x == first || rest.contains(x)) by {
            if roster.contains(x) {
                let i = choose|i: int| 0 <= i < roster.len() && roster[i] == x;
                if i > 0 {
                    assert(rest[i - 1] == x);
                }
            }
            if rest.contains(x) {
                let i = choose|i: int| 0 <= i < rest.len() && rest[i] == x;
                assert(roster[i + 1] == x);
            }
        }
        assert forall|x: Id| #[trigger]
            after.devices.contains_key(x) <==> store.devices.contains_key(x) && !roster.contains(
                x,
            ) by {
            if after.devices.contains_key(x) {
                assert(next.devices.contains_key(x));
            }
        }
        assert forall|x: Id| #[trigger] after.devices.contains_key(x) implies after.devices[x]
            == store.devices[x] by {
            assert(next.devices.contains_key(x));
        }
        assert forall|h: Id| #[trigger]
            after.groups.contains_key(h) <==> store.groups.contains_key(h) && !(
            store.groups[h].device is Some && roster.to_set().contains(
                store.groups[h].device->0,
            )) by {
            if after.groups.contains_key(h) {
                assert(next.groups.contains_key(h));
            }
            if store.groups.contains_key(h) && !(store.groups[h].device is Some
                && roster.to_set().contains(store.groups[h].device->0)) {
                assert(next.groups.contains_key(h));
                if next.groups[h].device is Some {
                    assert(!rest.contains(next.groups[h].device->0));
                }
            }
        }
        assert forall|h: Id| #[trigger] after.groups.contains_key(h) implies after.groups[h].device
            == store.groups[h].device && after.groups[h].id == store.groups[h].id by {
            assert(next.groups.contains_key(h));
        }
    }
}

/// Deleting a board from a coherent store that persists removes the board, every
/// device wired to it and every group that wraps one of those devices, in one
/// operation that succeeds. No device that is left names the board, no group that is
/// left names one of its devices, and every other device and group is still there.
pub proof fn lemma_delete_board_cascades(store: StoreView, board: Id, roster: Seq<Id>)
    requires
        saves(store),
        coherent(store),
        store.boards.contains_key(board),
        is_roster(roster, store.devices, board),
    ensures
        ({
            let (after, verdict) = store.delete_board(board);
            &&& verdict == Ok::<Option<BoardView>, StoreError>(Some(store.boards[board]))
            &&& after.boards == store.boards.remove(board)
            &&& forall|x: Id| #[trigger]
                after.devices.contains_key(x) <==> store.devices.contains_key(x)
                    && store.devices[x].bid != board
            &&& forall|x: Id| #[trigger]
                after.devices.contains_key(x) ==> after.devices[x] == store.devices[x]
            &&& forall|x: Id| #[trigger] after.devices.contains_key(x) ==> after.devices[x].bid != board
            &&& forall|h: Id, x: Id|
                wraps(after.groups, h, x) ==> !(store.devices.contains_key(x)
                    && store.devices[x].bid == board)
            &&& forall|h: Id| #[trigger]
                after.groups.contains_key(h) <==> store.groups.contains_key(h) && !(
                store.groups[h].device matches Some(x) && store.devices.contains_key(x)
                    && store.devices[x].bid == board)
            &&& coherent(after)
        }),
{
    let start = store.define(EntityType::Board);
    let record = start.boards[board];
    let removed = StoreView { boards: start.boards.remove(board), ..start };
    assert(record.id == board);
    assert(keyed(removed));
    assert(coherent(removed));
    let chosen = roster_of(removed.devices, board);
    assert(is_roster(roster, removed.devices, board));
    assert(is_roster(chosen, removed.devices, board));
    lemma_ascending_unique(roster, chosen);
    assert forall|i: int| 0 <= i < roster.len() implies removed.devices.contains_key(
        #[trigger] roster[i],
    ) by {
        assert(roster.contains(roster[i]));
    }
    lemma_delete_devices(removed, roster);
    let (next, _) = removed.delete_devices(roster);
    assert(next.defined.contains(EntityType::Board)) by {
        lemma_delete_devices_keeps_defined(removed, roster, EntityType::Board);
    }
    let last = next.persist(EntityType::Board)->Ok_0;
    assert(store.delete_board(board) == (last, Ok::<Option<BoardView>, StoreError>(Some(record))));
    assert forall|h: Id, x: Id| wraps(last.groups, h, x) implies !(store.devices.contains_key(x)
        && store.devices[x].bid == board) by {
        assert(last.groups.contains_key(h));
        assert(store.groups[h].device == Some(x));
        if store.devices.contains_key(x) && store.devices[x].bid == board {
            assert(roster.contains(x));
            assert(roster.to_set().contains(x));
        }
    }
    assert forall|h: Id| #[trigger]
        last.groups.contains_key(h) <==> store.groups.contains_key(h) && !(
        store.groups[h].device matches Some(x) && store.devices.contains_key(x)
            && store.devices[x].bid == board) by {
        if store.groups.contains_key(h) && store.groups[h].device is Some {
            let x = store.groups[h].device->0;
            assert(roster.to_set().contains(x) == roster.contains(x));
        }
    }
}

proof fn lemma_drop_group_keeps_defined(store: StoreView, g: Id, kind: EntityType)
    requires
        store.defined.contains(kind),
    ensures
        store.drop_group(g).0.defined.contains(kind),
{
    let start = store.define(EntityType::Group);
    if start.groups.contains_key(g) {
        let removed = StoreView { groups: start.groups.remove(g), ..start };
        if removed.autosave {
            match parent_of(removed.groups, g) {
                None => {},
                Some(p) => {},
            }
        }
    }
}

proof fn lemma_delete_device_keeps_defined(store: StoreView, d: Id, kind: EntityType)
    requires
        store.defined.contains(kind),
    ensures
        store.delete_device(d).0.defined.contains(kind),
{
    let start = store.define(EntityType::Device);
    if start.devices.contains_key(d) {
        let removed = StoreView { devices: start.devices.remove(d), ..start };
        if removed.autosave {
            match wrapper_of(removed.groups, start.devices[d].id) {
                Some(g) => {
                    lemma_drop_group_keeps_defined(removed, g, kind);
                },
                None => {},
            }
        }
    }
}

proof fn lemma_delete_devices_keeps_defined(store: StoreView, roster: Seq<Id>, kind: EntityType)
    requires
        store.defined.contains(kind),
    ensures
        store.delete_devices(roster).0.defined.contains(kind),
    decreases roster.len(),
{
    if roster.len() > 0 {
        lemma_delete_device_keeps_defined(store, roster.first(), kind);
        let (next, verdict) = store.delete_device(roster.first());
        if verdict is Ok {
            lemma_delete_devices_keeps_defined(next, roster.drop_first(), kind);
        }
    }
}

/// A board that is stored under its own identifier replaces the one that was
/// there: getting it back gives the board that was stored, and no other board
/// changes.
pub proof fn lemma_stored_board_replaces(store: StoreView, board: BoardView)
    requires
        board.id != 0,
    ensures
        ({
            let (after, verdict) = store.set_board(board);
            &&& after.boards.contains_key(board.id)
            &&& after.boards[board.id] == board
            &&& forall|id: Id| id != board.id ==> (after.boards.contains_key(id)
                <==> store.boards.contains_key(id))
            &&& forall|id: Id| id != board.id && after.boards.contains_key(id) ==> after.boards[id]
                == store.boards[id]
            &&& (verdict is Ok ==> verdict->Ok_0 == board)
            &&& (store.autosave ==> store.destination is Some) ==> verdict is Ok
        }),
{
}

/// Two boards inserted one after the other get identifiers that ascend by one.
pub proof fn lemma_board_ids_ascend(store: StoreView, first: BoardView, second: BoardView)
    requires
        first.id == 0,
        second.id == 0,
        store.set_board(first).1 is Ok,
        store.set_board(first).0.set_board(second).1 is Ok,
    ensures
        ({
            let (between, a) = store.set_board(first);
            let (after, b) = between.set_board(second);
            b->Ok_0.id == a->Ok_0.id + 1
        }),
{
    let (between, a) = store.set_board(first);
    lemma_inserted_board_is_stored(store, first);
    lemma_inserted_board_is_stored(between, second);
    let stored = a->Ok_0;
    assert(between.boards == store.boards.insert(stored.id, stored));
    lemma_consecutive_ids(
        store.boards,
        stored.id,
        stored,
        between.set_board(second).1->Ok_0.id,
    );
}

/// A device that is stored under its own identifier replaces the one that was
/// there: getting it back gives the device that was stored, and no other device
/// changes.
pub proof fn lemma_stored_device_replaces(store: StoreView, device: DeviceView)
    requires
        device.id != 0,
    ensures
        ({
            let (after, verdict) = store.set_device(device);
            &&& after.devices.contains_key(device.id)
            &&& after.devices[device.id] == device
            &&& forall|id: Id| id != device.id ==> (after.devices.contains_key(id)
                <==> store.devices.contains_key(id))
            &&& forall|id: Id| id != device.id && after.devices.contains_key(id) ==> after.devices[id]
                == store.devices[id]
            &&& (verdict is Ok ==> verdict->Ok_0 == device)
        }),
{
}

/// Two devices inserted one after the other get identifiers that ascend by one.
pub proof fn lemma_device_ids_ascend(store: StoreView, first: DeviceView, second: DeviceView)
    requires
        first.id == 0,
        second.id == 0,
        store.set_device(first).1 is Ok,
        store.set_device(first).0.set_device(second).1 is Ok,
    ensures
        ({
            let (between, a) = store.set_device(first);
            let (after, b) = between.set_device(second);
            b->Ok_0.id == a->Ok_0.id + 1
        }),
{
    let (between, a) = store.set_device(first);
    lemma_inserted_device_is_stored(store, first);
    lemma_inserted_device_is_stored(between, second);
    let stored = a->Ok_0;
    assert(between.devices == store.devices.insert(stored.id, stored));
    lemma_consecutive_ids(
        store.devices,
        stored.id,
        stored,
        between.set_device(second).1->Ok_0.id,
    );
}

/// A group that is stored under its own identifier replaces the one that was
/// there: getting it back gives the group that was stored, and no other group
/// changes.
pub proof fn lemma_stored_group_replaces(store: StoreView, group: GroupView)
    requires
        group.id != 0,
    ensures
        ({
            let (after, verdict) = store.set_group(group);
            &&& after.groups.contains_key(group.id)
            &&& after.groups[group.id] == group
            &&& forall|id: Id| id != group.id ==> (after.groups.contains_key(id)
                <==> store.groups.contains_key(id))
            &&& forall|id: Id| id != group.id && after.groups.contains_key(id) ==> after.groups[id]
                == store.groups[id]
            &&& (verdict is Ok ==> verdict->Ok_0 == group)
            &&& (store.autosave ==> store.destination is Some) ==> verdict is Ok
        }),
{
}

/// Two groups inserted one after the other get identifiers that ascend by one.
pub proof fn lemma_group_ids_ascend(store: StoreView, first: GroupView, second: GroupView)
    requires
        first.id == 0,
        second.id == 0,
        store.set_group(first).1 is Ok,
        store.set_group(first).0.set_group(second).1 is Ok,
    ensures
        ({
            let (between, a) = store.set_group(first);
            let (after, b) = between.set_group(second);
            b->Ok_0.id == a->Ok_0.id + 1
        }),
{
    let (between, a) = store.set_group(first);
    lemma_inserted_group_is_stored(store, first);
    lemma_inserted_group_is_stored(between, second);
    let stored = a->Ok_0;
    assert(between.groups == store.groups.insert(stored.id, stored));
    lemma_consecutive_ids(
        store.groups,
        stored.id,
        stored,
        between.set_group(second).1->Ok_0.id,
    );
}

/// An animation that is stored under its own identifier replaces the one that was
/// there: getting it back gives the animation that was stored, and no other animation
/// changes.
pub proof fn lemma_stored_animation_replaces(store: StoreView, animation: AnimationView)
    requires
        animation.id != 0,
    ensures
        ({
            let (after, verdict) = store.set_animation(animation);
            &&& after.animations.contains_key(animation.id)
            &&& after.animations[animation.id] == animation
            &&& forall|id: Id| id != animation.id ==> (after.animations.contains_key(id)
                <==> store.animations.contains_key(id))
            &&& forall|id: Id| id != animation.id && after.animations.contains_key(id) ==> after.animations[id]
                == store.animations[id]
            &&& (verdict is Ok ==> verdict->Ok_0 == animation)
            &&& (store.autosave ==> store.destination is Some) ==> verdict is Ok
        }),
{
}

/// Two animations inserted one after the other get identifiers that ascend by one.
pub proof fn lemma_animation_ids_ascend(store: StoreView, first: AnimationView, second: AnimationView)
    requires
        first.id == 0,
        second.id == 0,
        store.set_animation(first).1 is Ok,
        store.set_animation(first).0.set_animation(second).1 is Ok,
    ensures
        ({
            let (between, a) = store.set_animation(first);
            let (after, b) = between.set_animation(second);
            b->Ok_0.id == a->Ok_0.id + 1
        }),
{
    let (between, a) = store.set_animation(first);
    lemma_inserted_animation_is_stored(store, first);
    lemma_inserted_animation_is_stored(between, second);
    let stored = a->Ok_0;
    assert(between.animations == store.animations.insert(stored.id, stored));
    lemma_consecutive_ids(
        store.animations,
        stored.id,
        stored,
        between.set_animation(second).1->Ok_0.id,
    );
}

/// A posture that is stored under its own identifier replaces the one that was
/// there: getting it back gives the posture that was stored, and no other posture
/// changes.
pub proof fn lemma_stored_posture_replaces(store: StoreView, posture: PostureView)
    requires
        posture.id != 0,
    ensures
        ({
            let (after, verdict) = store.set_posture(posture);
            &&& after.postures.contains_key(posture.id)
            &&& after.postures[posture.id] == posture
            &&& forall|id: Id| id != posture.id ==> (after.postures.contains_key(id)
                <==> store.postures.contains_key(id))
            &&& forall|id: Id| id != posture.id && after.postures.contains_key(id) ==> after.postures[id]
                == store.postures[id]
            &&& (verdict is Ok ==> verdict->Ok_0 == posture)
            &&& (store.autosave ==> store.destination is Some) ==> verdict is Ok
        }),
{
}

/// Two postures inserted one after the other get identifiers that ascend by one.
pub proof fn lemma_posture_ids_ascend(store: StoreView, first: PostureView, second: PostureView)
    requires
        first.id == 0,
        second.id == 0,
        store.set_posture(first).1 is Ok,
        store.set_posture(first).0.set_posture(second).1 is Ok,
    ensures
        ({
            let (between, a) = store.set_posture(first);
            let (after, b) = between.set_posture(second);
            b->Ok_0.id == a->Ok_0.id + 1
        }),
{
    let (between, a) = store.set_posture(first);
    lemma_inserted_posture_is_stored(store, first);
    lemma_inserted_posture_is_stored(between, second);
    let stored = a->Ok_0;
    assert(between.postures == store.postures.insert(stored.id, stored));
    lemma_consecutive_ids(
        store.postures,
        stored.id,
        stored,
        between.set_posture(second).1->Ok_0.id,
    );
}

/// Without autosave a delete removes the record and nothing else: no cascade runs and
/// nothing is journalled.
pub proof fn lemma_plain_delete(store: StoreView, id: Id)
    requires
        !store.autosave,
    ensures
        store.delete_board(id).0 == (StoreView {
            boards: store.boards.remove(id),
            ..store.define(EntityType::Board)
        }),
        store.delete_device(id).0 == (StoreView {
            devices: store.devices.remove(id),
            ..store.define(EntityType::Device)
        }),
        store.delete_group(id).0 == (StoreView {
            groups: store.groups.remove(id),
            ..store.define(EntityType::Group)
        }),
        store.delete_animation(id).0 == (StoreView {
            animations: store.animations.remove(id),
            ..store.define(EntityType::Animation)
        }),
        store.delete_posture(id).0 == (StoreView {
            postures: store.postures.remove(id),
            ..store.define(EntityType::Posture)
        }),
        store.delete_board(id).1 == if store.boards.contains_key(id) {
            Ok::<Option<BoardView>, StoreError>(Some(store.boards[id]))
        } else {
            Ok(None)
        },
        store.delete_device(id).1 == if store.devices.contains_key(id) {
            Ok::<Option<DeviceView>, StoreError>(Some(store.devices[id]))
        } else {
            Ok(None)
        },
        store.delete_group(id).1 == if store.groups.contains_key(id) {
            Ok::<Option<GroupView>, StoreError>(Some(store.groups[id]))
        } else {
            Ok(None)
        },
{
    assert(store.boards.remove(id) =~= store.define(EntityType::Board).boards.remove(id));
    if !store.boards.contains_key(id) {
        assert(store.boards.remove(id) =~= store.boards);
    }
    if !store.devices.contains_key(id) {
        assert(store.devices.remove(id) =~= store.devices);
    }
    if !store.groups.contains_key(id) {
        assert(store.groups.remove(id) =~= store.groups);
    }
    if !store.animations.contains_key(id) {
        assert(store.animations.remove(id) =~= store.animations);
    }
    if !store.postures.contains_key(id) {
        assert(store.postures.remove(id) =~= store.postures);
    }
}

/// Deleting a group that wraps a device from a coherent store that persists removes the
/// group and the device with it; no other device goes, and no other group but one that
/// wrapped the same device.
pub proof fn lemma_delete_group(store: StoreView, g: Id)
    requires
        saves(store),
        coherent(store),
        store.groups.contains_key(g),
    ensures
        ({
            let (after, verdict) = store.delete_group(g);
            let group = store.groups[g];
            &&& verdict == Ok::<Option<GroupView>, StoreError>(Some(group))
            &&& !after.groups.contains_key(g)
            &&& after.boards == store.boards
            &&& group.device matches Some(d) ==> after.devices == store.devices.remove(d)
            &&& group.device is None ==> after.devices == store.devices
            &&& forall|h: Id| h != g && store.groups.contains_key(h) ==> after.groups.contains_key(h)
            &&& forall|h: Id| #[trigger] after.groups.contains_key(h) ==> store.groups.contains_key(h)
        }),
{
    let start = store.define(EntityType::Group);
    let group = start.groups[g];
    let removed = StoreView { groups: start.groups.remove(g), ..start };
    assert(group.id == g);
    assert(keyed(removed));
    assert(coherent(removed)) by {
        assert forall|a: Id, b: Id, x: Id|
            wraps(removed.groups, a, x) && wraps(removed.groups, b, x) implies a == b by {
            assert(wraps(store.groups, a, x));
            assert(wraps(store.groups, b, x));
        }
    }
    match group.device {
        Some(d) => {
            if removed.devices.contains_key(d) {
                lemma_delete_device(removed, d);
                let (next, _) = removed.delete_device(d);
                assert forall|h: Id| removed.groups.contains_key(h)
                    implies removed.groups[h].device != Some(d) by {
                    if removed.groups[h].device == Some(d) {
                        assert(wraps(store.groups, h, d));
                        assert(wraps(store.groups, g, d));
                    }
                }
                lemma_finish_group(next, group);
            } else {
                assert(store.devices.remove(d) =~= store.devices);
                lemma_finish_group(removed, group);
            }
        },
        None => {
            lemma_finish_group(removed, group);
        },
    }
}

proof fn lemma_finish_group(store: StoreView, group: GroupView)
    requires
        saves(store),
        keyed(store),
        !store.groups.contains_key(0),
        store.defined.contains(EntityType::Group),
    ensures
        ({
            let (after, verdict) = store.finish_group(group);
            &&& verdict == Ok::<Option<GroupView>, StoreError>(Some(group))
            &&& after.boards == store.boards
            &&& after.devices == store.devices
            &&& forall|h: Id| #[trigger]
                after.groups.contains_key(h) <==> store.groups.contains_key(h)
        }),
{
    match parent_of(store.groups, group.id) {
        None => {},
        Some(p) => {
            assert(is_parent_of(store.groups, p, group.id));
            assert(holds(store.groups, p, group.id));
            assert(store.groups[p].id == p);
            let cleaned = store.groups[p].without_child(group.id);
            assert(assign::<Group>(store.groups, cleaned) == Some(cleaned));
        },
    }
}

/// Taking a child out of a list of children leaves no occurrence of it, and keeps
/// every other child.
pub proof fn lemma_without(children: Seq<Id>, child: Id)
    ensures
        !without(children, child).contains(child),
        forall|c: Id| c != child ==> (without(children, child).contains(c) <==> children.contains(
            c,
        )),
    decreases children.len(),
{
    if children.len() > 0 {
        let front = children.drop_last();
        let last = children.last();
        lemma_without(front, child);
        let rest = without(front, child);
        let result = without(children, child);
        assert forall|c: Id| result.contains(c) <==> (rest.contains(c) || (c == last && last
            != child)) by {
            if result.contains(c) {
                let i = choose|i: int| 0 <= i < result.len() && result[i] == c;
                if i < rest.len() {
                    assert(rest[i] == c);
                }
            }
            if rest.contains(c) {
                let i = choose|i: int| 0 <= i < rest.len() && rest[i] == c;
                assert(result[i] == c);
            }
            if c == last && last != child {
                assert(result[result.len() - 1] == c);
            }
        }
        assert forall|c: Id| children.contains(c) <==> (front.contains(c) || c == last) by {
            if children.contains(c) {
                let i = choose|i: int| 0 <= i < children.len() && children[i] == c;
                if i < front.len() {
                    assert(front[i] == c);
                }
            }
            if front.contains(c) {
                let i = choose|i: int| 0 <= i < front.len() && front[i] == c;
                assert(children[i] == c);
            }
            if c == last {
                assert(children[children.len() - 1] == c);
            }
        }
    }
}

/// No group is listed among the children of two groups.
pub open spec fn single_parents(store: StoreView) -> bool {
    forall|p: Id, q: Id, c: Id| holds(store.groups, p, c) && holds(store.groups, q, c) ==> p == q
}

proof fn lemma_least_parent(groups: Map<Id, GroupView>, p: Id, c: Id)
    requires
        holds(groups, p, c),
    ensures
        exists|h: Id| is_parent_of(groups, h, c),
    decreases p,
{
    if forall|h: Id| h < p ==> !holds(groups, h, c) {
        assert(is_parent_of(groups, p, c));
    } else {
        let h = choose|h: Id| h < p && holds(groups, h, c);
        lemma_least_parent(groups, h, c);
    }
}

/// Once a group is removed from a store that persists and in which no group has two
/// parents, no group that is left lists it among its children; every other child of
/// every group stays.
pub proof fn lemma_removed_group_is_released(store: StoreView, g: Id)
    requires
        saves(store),
        keyed(store),
        !store.groups.contains_key(0),
        single_parents(store),
        store.groups.contains_key(g),
    ensures
        ({
            let (after, verdict) = store.drop_group(g);
            &&& forall|h: Id| !holds(after.groups, h, g)
            &&& forall|h: Id, c: Id| c != g ==> (holds(after.groups, h, c) <==> h != g && holds(
                store.groups,
                h,
                c,
            ))
            &&& single_parents(after)
        }),
{
    let start = store.define(EntityType::Group);
    let group = start.groups[g];
    let removed = StoreView { groups: start.groups.remove(g), ..start };
    assert(group.id == g);
    let (after, verdict) = store.drop_group(g);
    match parent_of(removed.groups, g) {
        None => {
            assert forall|h: Id| !holds(removed.groups, h, g) by {
                if holds(removed.groups, h, g) {
                    lemma_least_parent(removed.groups, h, g);
                }
            }
            assert(after.groups == removed.groups);
        },
        Some(p) => {
            assert(is_parent_of(removed.groups, p, g));
            assert(holds(removed.groups, p, g));
            assert(removed.groups[p].id == p);
            let cleaned = removed.groups[p].without_child(g);
            assert(assign::<Group>(removed.groups, cleaned) == Some(cleaned));
            assert(after.groups == removed.groups.insert(p, cleaned));
            lemma_without(removed.groups[p].children, g);
            assert forall|h: Id| !holds(after.groups, h, g) by {
                if holds(after.groups, h, g) {
                    if h != p {
                        assert(holds(store.groups, h, g));
                        assert(holds(store.groups, p, g));
                    }
                }
            }
            assert forall|h: Id, c: Id| c != g implies (holds(after.groups, h, c) <==> h != g
                && holds(store.groups, h, c)) by {
                if h == p {
                    assert(after.groups[p].children == without(store.groups[p].children, g));
                }
            }
        },
    }
    assert forall|p: Id, q: Id, c: Id|
        holds(after.groups, p, c) && holds(after.groups, q, c) implies p == q by {
        assert(c != g);
        assert(holds(store.groups, p, c));
        assert(holds(store.groups, q, c));
    }
}

/// Storing a device keeps a coherent store coherent: the store wraps a device in a
/// group of its own only where no group wraps it yet.
pub proof fn lemma_set_device_keeps_coherent(store: StoreView, device: DeviceView)
    requires
        coherent(store),
    ensures
        coherent(store.set_device(device).0),
{
    match assign::<Device>(store.devices, device) {
        None => {},
        Some(d) => {
            if device.id == 0 {
                lemma_assign_fresh::<Device>(store.devices, device);
            }
            let (stored, verdict) = (StoreView {
                devices: store.devices.insert(d.id, d),
                ..store
            }).define(EntityType::Device).settle(EntityType::Device, d);
            assert(stored.groups == store.groups);
            assert(keyed(stored));
            if !(verdict is Err || wrapper_of(stored.groups, d.id) is Some) {
                let wrapping = GroupView::wrapping(d.id);
                assert forall|h: Id| !wraps(stored.groups, h, d.id) by {
                    if wraps(stored.groups, h, d.id) {
                        lemma_least_wrapper(stored.groups, h, d.id);
                    }
                }
                match assign::<Group>(stored.groups, wrapping) {
                    None => {},
                    Some(g) => {
                        lemma_assign_fresh::<Group>(stored.groups, wrapping);
                        let (wrapped, _) = stored.set_group(wrapping);
                        assert(wrapped.groups == stored.groups.insert(g.id, g));
                        assert forall|a: Id, b: Id, x: Id|
                            wraps(wrapped.groups, a, x) && wraps(wrapped.groups, b, x) implies a
                            == b by {
                            if a != g.id {
                                assert(wraps(stored.groups, a, x));
                            }
                            if b != g.id {
                                assert(wraps(stored.groups, b, x));
                            }
                        }
                    },
                }
            }
        },
    }
}

} // verus!

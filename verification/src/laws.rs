//! What holds of the store and of the resolution of animations, proved from the
//! contracts of their operations.

use vstd::prelude::*;
use crate::animation::{
    arrange, is_slot, keyframe_steps, keyframes_steps, latest, lemma_slot_unique, place,
    resolved_steps, slot, span, step_of, track_steps, tracks_steps, AnimationView,
    GroupTrackView, HardwareKeyframe, KeyframeView, Step, TrackView,
};
use crate::entity::Id;
use crate::model::StoreView;

verus! {

/// Two stores agree on what animations are resolved against: their boards, devices
/// and groups.
pub open spec fn same_topology(a: StoreView, b: StoreView) -> bool {
    &&& a.boards == b.boards
    &&& a.devices == b.devices
    &&& a.groups == b.groups
}

/// No position of the animation names a device that can be driven.
pub open spec fn nothing_reachable(store: StoreView, animation: AnimationView) -> bool {
    forall|t: int, k: int, p: int|
        #![trigger animation.tracks[t].keyframes[k].positions[p]]
        0 <= t < animation.tracks.len() && 0 <= k < animation.tracks[t].keyframes.len() && 0 <= p
            < animation.tracks[t].keyframes[k].positions.len() ==> !store.reachable(
            animation.tracks[t].keyframes[k].positions[p].device,
        )
}

proof fn lemma_keyframe_steps_topology(a: StoreView, b: StoreView, k: KeyframeView, n: int)
    requires
        same_topology(a, b),
    ensures
        keyframe_steps(a, k, n) == keyframe_steps(b, k, n),
    decreases n,
{
    if n > 0 {
        lemma_keyframe_steps_topology(a, b, k, n - 1);
    }
}

proof fn lemma_keyframes_steps_topology(
    a: StoreView,
    b: StoreView,
    keyframes: Seq<KeyframeView>,
    n: int,
)
    requires
        same_topology(a, b),
    ensures
        keyframes_steps(a, keyframes, n) == keyframes_steps(b, keyframes, n),
    decreases n,
{
    if n > 0 {
        lemma_keyframes_steps_topology(a, b, keyframes, n - 1);
        let k = keyframes[n - 1];
        lemma_keyframe_steps_topology(a, b, k, k.positions.len() as int);
    }
}

proof fn lemma_tracks_steps_topology(
    a: StoreView,
    b: StoreView,
    tracks: Seq<GroupTrackView>,
    n: int,
)
    requires
        same_topology(a, b),
    ensures
        tracks_steps(a, tracks, n) == tracks_steps(b, tracks, n),
    decreases n,
{
    if n > 0 {
        lemma_tracks_steps_topology(a, b, tracks, n - 1);
        let t = tracks[n - 1];
        lemma_keyframes_steps_topology(a, b, t.keyframes, t.keyframes.len() as int);
    }
}

/// Resolution reads the boards, devices and groups of the store and nothing else: two
/// stores that agree on them give the same timeline.
pub proof fn lemma_resolution_reads_topology(a: StoreView, b: StoreView, animation: AnimationView)
    requires
        same_topology(a, b),
    ensures
        animation.resolve(a) == animation.resolve(b),
        animation.rebuilt(a) == animation.rebuilt(b),
{
    lemma_tracks_steps_topology(a, b, animation.tracks, animation.tracks.len() as int);
}

/// Resolution is idempotent: resolving an animation that was already resolved against
/// the same store gives the same timeline, and leaves the animation as it was.
pub proof fn lemma_resolution_is_idempotent(store: StoreView, animation: AnimationView)
    ensures
        animation.rebuilt(store).resolve(store) == animation.resolve(store),
        animation.rebuilt(store).rebuilt(store) == animation.rebuilt(store),
{
}

/// Every step of `steps` is for a device that can be driven.
pub open spec fn all_reachable(store: StoreView, steps: Seq<Step>) -> bool {
    forall|i: int| 0 <= i < steps.len() ==> store.reachable((#[trigger] steps[i]).device)
}

proof fn lemma_all_reachable_join(store: StoreView, a: Seq<Step>, b: Seq<Step>)
    requires
        all_reachable(store, a),
        all_reachable(store, b),
    ensures
        all_reachable(store, a + b),
{
    assert forall|i: int| 0 <= i < (a + b).len() implies store.reachable(
        (#[trigger] (a + b)[i]).device,
    ) by {
        if i < a.len() {
            assert((a + b)[i] == a[i]);
        } else {
            assert((a + b)[i] == b[i - a.len()]);
        }
    }
}

proof fn lemma_keyframe_steps_sound(store: StoreView, k: KeyframeView, n: int)
    requires
        n <= k.positions.len(),
    ensures
        all_reachable(store, keyframe_steps(store, k, n)),
    decreases n,
{
    if n > 0 {
        lemma_keyframe_steps_sound(store, k, n - 1);
        let earlier = keyframe_steps(store, k, n - 1);
        let p = k.positions[n - 1];
        if store.reachable(p.device) {
            lemma_all_reachable_join(store, earlier, seq![step_of(k, p)]);
            assert(earlier.push(step_of(k, p)) =~= earlier + seq![step_of(k, p)]);
        }
    }
}

proof fn lemma_keyframes_steps_sound(store: StoreView, keyframes: Seq<KeyframeView>, n: int)
    requires
        n <= keyframes.len(),
    ensures
        all_reachable(store, keyframes_steps(store, keyframes, n)),
    decreases n,
{
    if n > 0 {
        lemma_keyframes_steps_sound(store, keyframes, n - 1);
        let k = keyframes[n - 1];
        lemma_keyframe_steps_sound(store, k, k.positions.len() as int);
        lemma_all_reachable_join(
            store,
            keyframes_steps(store, keyframes, n - 1),
            keyframe_steps(store, k, k.positions.len() as int),
        );
    }
}

proof fn lemma_tracks_steps_sound(store: StoreView, tracks: Seq<GroupTrackView>, n: int)
    requires
        n <= tracks.len(),
    ensures
        all_reachable(store, tracks_steps(store, tracks, n)),
    decreases n,
{
    if n > 0 {
        lemma_tracks_steps_sound(store, tracks, n - 1);
        let t = tracks[n - 1];
        lemma_keyframes_steps_sound(store, t.keyframes, t.keyframes.len() as int);
        lemma_all_reachable_join(store, tracks_steps(store, tracks, n - 1), track_steps(store, t));
    }
}

/// Every step that an animation resolves to is for a device that can be driven: a
/// device that is gone, or whose board is gone or not connected, gets none.
pub proof fn lemma_steps_are_reachable(store: StoreView, animation: AnimationView)
    ensures
        all_reachable(store, resolved_steps(store, animation)),
{
    lemma_tracks_steps_sound(store, animation.tracks, animation.tracks.len() as int);
}

proof fn lemma_keyframe_steps_complete(store: StoreView, k: KeyframeView, n: int, p: int)
    requires
        0 <= p < n <= k.positions.len(),
        store.reachable(k.positions[p].device),
    ensures
        keyframe_steps(store, k, n).contains(step_of(k, k.positions[p])),
    decreases n,
{
    if p == n - 1 {
        let s = keyframe_steps(store, k, n);
        assert(s[s.len() - 1] == step_of(k, k.positions[p]));
    } else {
        lemma_keyframe_steps_complete(store, k, n - 1, p);
        let earlier = keyframe_steps(store, k, n - 1);
        let i = choose|i: int| 0 <= i < earlier.len() && earlier[i] == step_of(k, k.positions[p]);
        assert(keyframe_steps(store, k, n)[i] == step_of(k, k.positions[p]));
    }
}

proof fn lemma_keyframes_steps_complete(
    store: StoreView,
    keyframes: Seq<KeyframeView>,
    n: int,
    k: int,
    p: int,
)
    requires
        0 <= k < n <= keyframes.len(),
        0 <= p < keyframes[k].positions.len(),
        store.reachable(keyframes[k].positions[p].device),
    ensures
        keyframes_steps(store, keyframes, n).contains(
            step_of(keyframes[k], keyframes[k].positions[p]),
        ),
    decreases n,
{
    let wanted = step_of(keyframes[k], keyframes[k].positions[p]);
    let earlier = keyframes_steps(store, keyframes, n - 1);
    let last = keyframes[n - 1];
    let tail = keyframe_steps(store, last, last.positions.len() as int);
    if k == n - 1 {
        lemma_keyframe_steps_complete(store, last, last.positions.len() as int, p);
        let i = choose|i: int| 0 <= i < tail.len() && tail[i] == wanted;
        assert((earlier + tail)[earlier.len() + i] == wanted);
    } else {
        lemma_keyframes_steps_complete(store, keyframes, n - 1, k, p);
        let i = choose|i: int| 0 <= i < earlier.len() && earlier[i] == wanted;
        assert((earlier + tail)[i] == wanted);
    }
}

proof fn lemma_tracks_steps_complete(
    store: StoreView,
    tracks: Seq<GroupTrackView>,
    n: int,
    t: int,
    k: int,
    p: int,
)
    requires
        0 <= t < n <= tracks.len(),
        store.groups.contains_key(tracks[t].group),
        0 <= k < tracks[t].keyframes.len(),
        0 <= p < tracks[t].keyframes[k].positions.len(),
        store.reachable(tracks[t].keyframes[k].positions[p].device),
    ensures
        tracks_steps(store, tracks, n).contains(
            step_of(tracks[t].keyframes[k], tracks[t].keyframes[k].positions[p]),
        ),
    decreases n,
{
    let wanted = step_of(tracks[t].keyframes[k], tracks[t].keyframes[k].positions[p]);
    let earlier = tracks_steps(store, tracks, n - 1);
    let tail = track_steps(store, tracks[n - 1]);
    if t == n - 1 {
        lemma_keyframes_steps_complete(
            store,
            tracks[t].keyframes,
            tracks[t].keyframes.len() as int,
            k,
            p,
        );
        let i = choose|i: int| 0 <= i < tail.len() && tail[i] == wanted;
        assert((earlier + tail)[earlier.len() + i] == wanted);
    } else {
        lemma_tracks_steps_complete(store, tracks, n - 1, t, k, p);
        let i = choose|i: int| 0 <= i < earlier.len() && earlier[i] == wanted;
        assert((earlier + tail)[i] == wanted);
    }
}

/// A stale reference costs only itself: every position whose device can be driven, in
/// a track whose group is stored, resolves to its step, whatever the other positions
/// of the animation name.
pub proof fn lemma_valid_positions_resolve(
    store: StoreView,
    animation: AnimationView,
    t: int,
    k: int,
    p: int,
)
    requires
        0 <= t < animation.tracks.len(),
        store.groups.contains_key(animation.tracks[t].group),
        0 <= k < animation.tracks[t].keyframes.len(),
        0 <= p < animation.tracks[t].keyframes[k].positions.len(),
        store.reachable(animation.tracks[t].keyframes[k].positions[p].device),
    ensures
        resolved_steps(store, animation).contains(
            step_of(
                animation.tracks[t].keyframes[k],
                animation.tracks[t].keyframes[k].positions[p],
            ),
        ),
{
    lemma_tracks_steps_complete(store, animation.tracks, animation.tracks.len() as int, t, k, p);
}

proof fn lemma_keyframe_steps_none(store: StoreView, k: KeyframeView, n: int)
    requires
        n <= k.positions.len(),
        forall|p: int| 0 <= p < k.positions.len() ==> !store.reachable(
            (#[trigger] k.positions[p]).device),
    ensures
        keyframe_steps(store, k, n) == Seq::<Step>::empty(),
    decreases n,
{
    if n > 0 {
        lemma_keyframe_steps_none(store, k, n - 1);
        assert(!store.reachable(k.positions[n - 1].device));
    }
}

proof fn lemma_keyframes_steps_none(store: StoreView, keyframes: Seq<KeyframeView>, n: int)
    requires
        n <= keyframes.len(),
        forall|k: int, p: int|
            #![trigger keyframes[k].positions[p]]
            0 <= k < keyframes.len() && 0 <= p < keyframes[k].positions.len()
                ==> !store.reachable(keyframes[k].positions[p].device),
    ensures
        keyframes_steps(store, keyframes, n) == Seq::<Step>::empty(),
    decreases n,
{
    if n > 0 {
        lemma_keyframes_steps_none(store, keyframes, n - 1);
        let k = keyframes[n - 1];
        assert forall|p: int| 0 <= p < k.positions.len() implies !store.reachable(
            (#[trigger] k.positions[p]).device,
        ) by {
            assert(!store.reachable(keyframes[n - 1].positions[p].device));
        }
        lemma_keyframe_steps_none(store, k, k.positions.len() as int);
        assert(keyframes_steps(store, keyframes, n) =~= Seq::<Step>::empty());
    }
}

proof fn lemma_tracks_steps_none(store: StoreView, animation: AnimationView, n: int)
    requires
        n <= animation.tracks.len(),
        nothing_reachable(store, animation),
    ensures
        tracks_steps(store, animation.tracks, n) == Seq::<Step>::empty(),
    decreases n,
{
    if n > 0 {
        lemma_tracks_steps_none(store, animation, n - 1);
        let t = animation.tracks[n - 1];
        assert forall|k: int, p: int|
            #![trigger t.keyframes[k].positions[p]]
            0 <= k < t.keyframes.len() && 0 <= p < t.keyframes[k].positions.len()
                implies !store.reachable(t.keyframes[k].positions[p].device) by {
            assert(!store.reachable(animation.tracks[n - 1].keyframes[k].positions[p].device));
        }
        lemma_keyframes_steps_none(store, t.keyframes, t.keyframes.len() as int);
        assert(tracks_steps(store, animation.tracks, n) =~= Seq::<Step>::empty());
    }
}

/// Where no position of an animation names a device that can be driven, as when every
/// board is disconnected, the animation resolves to a timeline without tracks and of
/// zero duration: one that `play` turns down as empty.
pub proof fn lemma_unreachable_animation_is_empty(store: StoreView, animation: AnimationView)
    requires
        nothing_reachable(store, animation),
    ensures
        resolved_steps(store, animation) == Seq::<Step>::empty(),
        animation.resolve(store).tracks == Seq::<TrackView>::empty(),
        animation.resolve(store).duration() == 0,
{
    lemma_tracks_steps_none(store, animation, animation.tracks.len() as int);
}

/// The keyframes that `steps` hold for `device`, in step order.
pub open spec fn frames_of(steps: Seq<Step>, device: Id) -> Seq<HardwareKeyframe>
    decreases steps.len(),
{
    if steps.len() == 0 {
        Seq::empty()
    } else {
        let earlier = frames_of(steps.drop_last(), device);
        if steps.last().device == device {
            earlier.push(steps.last().keyframe)
        } else {
            earlier
        }
    }
}

/// `tracks` is what `steps` make up: one track for each device that has a step and for
/// no other, no device twice, each track with all the keyframes of its device in step
/// order.
pub open spec fn arranged(tracks: Seq<TrackView>, steps: Seq<Step>) -> bool {
    &&& forall|i: int, j: int|
        0 <= i < j < tracks.len() ==> (#[trigger] tracks[i]).device != (#[trigger] tracks[j]).device
    &&& forall|i: int|
        0 <= i < tracks.len() ==> {
            &&& (#[trigger] tracks[i]).keyframes == frames_of(steps, tracks[i].device)
            &&& tracks[i].keyframes.len() > 0
        }
    &&& forall|j: int|
        0 <= j < steps.len() ==> exists|i: int|
            0 <= i < tracks.len() && (#[trigger] tracks[i]).device == (#[trigger] steps[j]).device
}

proof fn lemma_slot_upto(tracks: Seq<TrackView>, device: Id, n: int)
    requires
        0 <= n <= tracks.len(),
    ensures
        (exists|i: int| 0 <= i < n && is_slot(tracks, device, i)) || (forall|k: int|
            0 <= k < n ==> (#[trigger] tracks[k]).device != device),
    decreases n,
{
    if n > 0 {
        lemma_slot_upto(tracks, device, n - 1);
        if !(exists|i: int| 0 <= i < n - 1 && is_slot(tracks, device, i)) {
            if tracks[n - 1].device == device {
                assert(is_slot(tracks, device, n - 1));
            }
        } else {
            let i = choose|i: int| 0 <= i < n - 1 && is_slot(tracks, device, i);
            assert(0 <= i < n && is_slot(tracks, device, i));
        }
    }
}

/// Every device has a slot in every sequence of tracks.
pub proof fn lemma_slot(tracks: Seq<TrackView>, device: Id)
    ensures
        is_slot(tracks, device, slot(tracks, device)),
{
    lemma_slot_upto(tracks, device, tracks.len() as int);
    if !(exists|i: int| 0 <= i < tracks.len() && is_slot(tracks, device, i)) {
        assert(is_slot(tracks, device, tracks.len() as int));
    } else {
        let i = choose|i: int| 0 <= i < tracks.len() && is_slot(tracks, device, i);
        assert(is_slot(tracks, device, i));
    }
}

proof fn lemma_frames_of_absent(steps: Seq<Step>, device: Id)
    requires
        forall|j: int| 0 <= j < steps.len() ==> (#[trigger] steps[j]).device != device,
    ensures
        frames_of(steps, device) == Seq::<HardwareKeyframe>::empty(),
    decreases steps.len(),
{
    if steps.len() > 0 {
        let front = steps.drop_last();
        assert forall|j: int| 0 <= j < front.len() implies (#[trigger] front[j]).device
            != device by {
            assert(front[j] == steps[j]);
        }
        lemma_frames_of_absent(front, device);
        assert(steps[steps.len() - 1].device != device);
    }
}

/// Arranging steps gives one merged track per device: however many groups and
/// keyframes name a device, its keyframes end up in one track, in step order.
pub proof fn lemma_arrange(steps: Seq<Step>)
    ensures
        arranged(arrange(steps), steps),
    decreases steps.len(),
{
    if steps.len() > 0 {
        let front = steps.drop_last();
        let last = steps.last();
        let before = arrange(front);
        let after = arrange(steps);
        lemma_arrange(front);
        lemma_slot(before, last.device);
        let at = slot(before, last.device);
        assert(after == place(before, last));
        if at < before.len() {
            assert forall|i: int, j: int| 0 <= i < j < after.len() implies (#[trigger] after[i]).device
                != (#[trigger] after[j]).device by {
                assert(after[i].device == before[i].device);
                assert(after[j].device == before[j].device);
            }
            assert forall|i: int| 0 <= i < after.len() implies {
                &&& (#[trigger] after[i]).keyframes == frames_of(steps, after[i].device)
                &&& after[i].keyframes.len() > 0
            } by {
                assert(before[i].keyframes == frames_of(front, before[i].device));
                if i != at {
                    if i < at {
                        assert(before[i].device != before[at].device);
                    } else {
                        assert(before[at].device != before[i].device);
                    }
                }
            }
            assert forall|j: int| 0 <= j < steps.len() implies exists|i: int|
                0 <= i < after.len() && (#[trigger] after[i]).device == (
                #[trigger] steps[j]).device by {
                if j < front.len() {
                    assert(front[j] == steps[j]);
                    let i = choose|i: int|
                        0 <= i < before.len() && (#[trigger] before[i]).device == front[j].device;
                    assert(after[i].device == steps[j].device);
                } else {
                    assert(after[at].device == steps[j].device);
                }
            }
        } else {
            assert forall|j: int| 0 <= j < front.len() implies (#[trigger] front[j]).device
                != last.device by {
                let i = choose|i: int|
                    0 <= i < before.len() && (#[trigger] before[i]).device == front[j].device;
                assert(before[i].device != last.device);
            }
            lemma_frames_of_absent(front, last.device);
            assert forall|i: int, j: int| 0 <= i < j < after.len() implies (#[trigger] after[i]).device
                != (#[trigger] after[j]).device by {
                if j < before.len() {
                    assert(after[i] == before[i]);
                    assert(after[j] == before[j]);
                } else {
                    assert(after[i] == before[i]);
                }
            }
            assert forall|i: int| 0 <= i < after.len() implies {
                &&& (#[trigger] after[i]).keyframes == frames_of(steps, after[i].device)
                &&& after[i].keyframes.len() > 0
            } by {
                if i < before.len() {
                    assert(after[i] == before[i]);
                    assert(before[i].keyframes == frames_of(front, before[i].device));
                    assert(before[i].device != last.device);
                } else {
                    assert(after[i].keyframes =~= frames_of(steps, last.device));
                }
            }
            assert forall|j: int| 0 <= j < steps.len() implies exists|i: int|
                0 <= i < after.len() && (#[trigger] after[i]).device == (
                #[trigger] steps[j]).device by {
                if j < front.len() {
                    assert(front[j] == steps[j]);
                    let i = choose|i: int|
                        0 <= i < before.len() && (#[trigger] before[i]).device == front[j].device;
                    assert(after[i] == before[i]);
                } else {
                    assert(after[before.len() as int].device == steps[j].device);
                }
            }
        }
    }
}

/// The tracks of a resolved timeline are for devices that can be driven, one track per
/// device: a device that is gone has no track, and the others keep theirs.
pub proof fn lemma_tracks_are_reachable(store: StoreView, animation: AnimationView)
    ensures
        arranged(animation.resolve(store).tracks, resolved_steps(store, animation)),
        forall|i: int|
            0 <= i < animation.resolve(store).tracks.len() ==> store.reachable(
                (#[trigger] animation.resolve(store).tracks[i]).device,
            ),
{
    let steps = resolved_steps(store, animation);
    let tracks = arrange(steps);
    lemma_arrange(steps);
    lemma_steps_are_reachable(store, animation);
    assert forall|i: int| 0 <= i < tracks.len() implies store.reachable(
        (#[trigger] tracks[i]).device,
    ) by {
        lemma_frames_of_occurs(steps, tracks[i].device);
    }
}

proof fn lemma_frames_of_occurs(steps: Seq<Step>, device: Id)
    requires
        frames_of(steps, device).len() > 0,
    ensures
        exists|j: int| 0 <= j < steps.len() && (#[trigger] steps[j]).device == device,
{
    if forall|j: int| 0 <= j < steps.len() ==> (#[trigger] steps[j]).device != device {
        lemma_frames_of_absent(steps, device);
    }
}

/// `latest` is the greatest end among the keyframes: none ends later, and one ends
/// then.
pub proof fn lemma_latest(keyframes: Seq<HardwareKeyframe>)
    ensures
        forall|j: int| 0 <= j < keyframes.len() ==> (#[trigger] keyframes[j]).end <= latest(keyframes),
        keyframes.len() > 0 ==> exists|j: int|
            0 <= j < keyframes.len() && (#[trigger] keyframes[j]).end == latest(keyframes),
        keyframes.len() == 0 ==> latest(keyframes) == 0,
    decreases keyframes.len(),
{
    if keyframes.len() > 0 {
        let front = keyframes.drop_last();
        lemma_latest(front);
        assert forall|j: int| 0 <= j < keyframes.len() implies (#[trigger] keyframes[j]).end
            <= latest(keyframes) by {
            if j < front.len() {
                assert(front[j] == keyframes[j]);
            }
        }
        if keyframes.last().end > latest(front) || front.len() == 0 {
            assert(keyframes[keyframes.len() - 1].end == latest(keyframes));
        } else {
            let j = choose|j: int| 0 <= j < front.len() && (#[trigger] front[j]).end == latest(front);
            assert(keyframes[j].end == latest(keyframes));
        }
    }
}

/// The duration of a timeline is the greatest end among all its keyframes: no keyframe
/// of any track ends later, and where the duration is not zero some keyframe ends
/// then.
pub proof fn lemma_span(tracks: Seq<TrackView>)
    ensures
        forall|i: int, j: int|
            0 <= i < tracks.len() && 0 <= j < tracks[i].keyframes.len() ==> (
            #[trigger] tracks[i].keyframes[j]).end <= span(tracks),
        span(tracks) > 0 ==> exists|i: int, j: int|
            0 <= i < tracks.len() && 0 <= j < tracks[i].keyframes.len() && (
            #[trigger] tracks[i].keyframes[j]).end == span(tracks),
    decreases tracks.len(),
{
    if tracks.len() > 0 {
        let front = tracks.drop_last();
        let last = tracks.last();
        lemma_span(front);
        lemma_latest(last.keyframes);
        assert forall|i: int, j: int|
            0 <= i < tracks.len() && 0 <= j < tracks[i].keyframes.len() implies (
        #[trigger] tracks[i].keyframes[j]).end <= span(tracks) by {
            if i < front.len() {
                assert(front[i] == tracks[i]);
                assert(front[i].keyframes[j].end <= span(front));
            }
        }
        if span(tracks) > 0 {
            if latest(last.keyframes) > span(front) {
                let j = choose|j: int|
                    0 <= j < last.keyframes.len() && (#[trigger] last.keyframes[j]).end == latest(
                        last.keyframes,
                    );
                assert(tracks[tracks.len() - 1].keyframes[j].end == span(tracks));
            } else {
                let (i, j) = choose|i: int, j: int|
                    0 <= i < front.len() && 0 <= j < front[i].keyframes.len() && (
                    #[trigger] front[i].keyframes[j]).end == span(front);
                assert(front[i] == tracks[i]);
                assert(tracks[i].keyframes[j].end == span(tracks));
            }
        }
    }
}

} // verus!

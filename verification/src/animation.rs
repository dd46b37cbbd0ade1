//! Animations: authored keyframes per group, and the hardware timeline they resolve to.

use vstd::prelude::*;
use crate::database::Database;
use crate::entity::{views_of, Entity, EntityType, Id};
use crate::model::StoreView;
use crate::posture::{clone_positions, Position};

verus! {

/// An authored keyframe: a time interval, a transition, and the positions that the
/// devices are to reach in it. The interval is never reversed.
#[derive(Debug, PartialEq)]
pub struct Keyframe {
    positions: Vec<Position>,
    start: u64,
    end: u64,
    transition: hermes_five::animations::Easing,
}

/// What a [`Keyframe`] is to the contracts.
pub struct KeyframeView {
    pub positions: Seq<Position>,
    pub start: u64,
    pub end: u64,
    pub transition: hermes_five::animations::Easing,
}

impl View for Keyframe {
    type V = KeyframeView;

    closed spec fn view(&self) -> KeyframeView {
        KeyframeView {
            positions: self.positions@,
            start: self.start,
            end: self.end,
            transition: self.transition,
        }
    }
}

impl Keyframe {
    #[verifier::type_invariant]
    closed spec fn well_formed(self) -> bool {
        self.start <= self.end
    }

    /// A keyframe over `[start, end]`, or nothing where the interval is reversed.
    pub fn new(
        positions: Vec<Position>,
        start: u64,
        end: u64,
        transition: hermes_five::animations::Easing,
    ) -> (keyframe: Option<Self>)
        ensures
            keyframe.is_some() == (start <= end),
            keyframe matches Some(k) ==> k@ == (KeyframeView {
                positions: positions@,
                start,
                end,
                transition,
            }),
    {
        if start <= end {
            Some(Keyframe { positions, start, end, transition })
        } else {
            None
        }
    }

    /// The positions that the keyframe drives.
    pub fn positions(&self) -> (positions: &Vec<Position>)
        ensures
            positions@ == self@.positions,
    {
        &self.positions
    }

    /// The time, in milliseconds, at which the keyframe starts.
    pub fn start(&self) -> (start: u64)
        ensures
            start == self@.start,
            self@.start <= self@.end,
    {
        proof {
            use_type_invariant(self);
        }
        self.start
    }

    /// The time, in milliseconds, at which the keyframe ends.
    pub fn end(&self) -> (end: u64)
        ensures
            end == self@.end,
            self@.start <= self@.end,
    {
        proof {
            use_type_invariant(self);
        }
        self.end
    }

    /// The transition along which the devices move.
    pub fn transition(&self) -> (transition: hermes_five::animations::Easing)
        ensures
            transition == self@.transition,
    {
        self.transition
    }

    /// A copy with the same view.
    pub fn duplicate(&self) -> (copy: Self)
        ensures
            copy@ == self@,
    {
        proof {
            use_type_invariant(self);
        }
        Keyframe {
            positions: clone_positions(&self.positions),
            start: self.start,
            end: self.end,
            transition: self.transition,
        }
    }
}

impl Clone for Keyframe {
    fn clone(&self) -> (copy: Self)
        ensures
            copy@ == self@,
    {
        self.duplicate()
    }
}

/// Copies a list of keyframes.
pub fn clone_keyframes(keyframes: &Vec<Keyframe>) -> (copy: Vec<Keyframe>)
    ensures
        views_of(copy@) == views_of(keyframes@),
{
    let mut copy: Vec<Keyframe> = Vec::new();
    let mut i: usize = 0;
    while i < keyframes.len()
        invariant
            i <= keyframes@.len(),
            copy@.len() == i,
            forall|k: int| 0 <= k < i ==> (#[trigger] copy@[k])@ == keyframes@[k]@,
        decreases keyframes@.len() - i,
    {
        copy.push(keyframes[i].duplicate());
        i += 1;
    }
    proof {
        assert(views_of(copy@) =~= views_of(keyframes@));
    }
    copy
}

/// The keyframes authored for one group.
#[derive(Clone, Debug, PartialEq)]
pub struct GroupTrack {
    pub group: Id,
    pub keyframes: Vec<Keyframe>,
}

/// What a [`GroupTrack`] is to the contracts.
pub struct GroupTrackView {
    pub group: Id,
    pub keyframes: Seq<KeyframeView>,
}

impl View for GroupTrack {
    type V = GroupTrackView;

    open spec fn view(&self) -> GroupTrackView {
        GroupTrackView { group: self.group, keyframes: views_of(self.keyframes@) }
    }
}

impl GroupTrack {
    /// A copy with the same view.
    pub fn duplicate(&self) -> (copy: Self)
        ensures
            copy@ == self@,
    {
        GroupTrack { group: self.group, keyframes: clone_keyframes(&self.keyframes) }
    }
}

/// A hardware keyframe: the state one device is to reach, over which interval and
/// along which transition.
#[derive(Clone, Debug, PartialEq)]
pub struct HardwareKeyframe {
    pub target: hermes_five::utils::State,
    pub start: u64,
    pub end: u64,
    pub transition: hermes_five::animations::Easing,
}

impl HardwareKeyframe {
    /// A copy of the keyframe.
    pub fn duplicate(&self) -> (copy: Self)
        ensures
            copy == *self,
    {
        HardwareKeyframe {
            target: self.target.clone(),
            start: self.start,
            end: self.end,
            transition: self.transition,
        }
    }
}

/// The hardware keyframes of one device, in the order in which they were resolved.
#[derive(Clone, Debug, PartialEq)]
pub struct Track {
    pub device: Id,
    pub keyframes: Vec<HardwareKeyframe>,
}

/// What a [`Track`] is to the contracts.
pub struct TrackView {
    pub device: Id,
    pub keyframes: Seq<HardwareKeyframe>,
}

impl View for Track {
    type V = TrackView;

    open spec fn view(&self) -> TrackView {
        TrackView { device: self.device, keyframes: self.keyframes@ }
    }
}

/// Copies a list of hardware keyframes.
pub fn clone_hardware_keyframes(keyframes: &Vec<HardwareKeyframe>) -> (copy: Vec<
    HardwareKeyframe,
>)
    ensures
        copy@ == keyframes@,
{
    let mut copy: Vec<HardwareKeyframe> = Vec::new();
    let mut i: usize = 0;
    while i < keyframes.len()
        invariant
            i <= keyframes@.len(),
            copy@ == keyframes@.take(i as int),
        decreases keyframes@.len() - i,
    {
        copy.push(keyframes[i].duplicate());
        proof {
            assert(keyframes@.take(i + 1) =~= keyframes@.take(i as int).push(keyframes@[i as int]));
        }
        i += 1;
    }
    proof {
        assert(keyframes@.take(i as int) =~= keyframes@);
    }
    copy
}

impl Track {
    /// An empty track for a device.
    pub fn new(device: Id) -> (track: Self)
        ensures
            track@ == (TrackView { device, keyframes: Seq::empty() }),
    {
        Track { device, keyframes: Vec::new() }
    }

    /// A copy with the same view.
    pub fn duplicate(&self) -> (copy: Self)
        ensures
            copy@ == self@,
    {
        Track { device: self.device, keyframes: clone_hardware_keyframes(&self.keyframes) }
    }
}

/// Copies a list of tracks.
pub fn clone_tracks(tracks: &Vec<Track>) -> (copy: Vec<Track>)
    ensures
        views_of(copy@) == views_of(tracks@),
{
    let mut copy: Vec<Track> = Vec::new();
    let mut i: usize = 0;
    while i < tracks.len()
        invariant
            i <= tracks@.len(),
            copy@.len() == i,
            forall|k: int| 0 <= k < i ==> (#[trigger] copy@[k])@ == tracks@[k]@,
        decreases tracks@.len() - i,
    {
        copy.push(tracks[i].duplicate());
        i += 1;
    }
    proof {
        assert(views_of(copy@) =~= views_of(tracks@));
    }
    copy
}

/// Where a timeline stands in its playback.
#[derive(Clone, Copy, Debug, PartialEq, Eq, Structural)]
pub enum Playback {
    Idle,
    Playing,
    Paused,
}

/// The playable form of an animation: one segment of device tracks that share the
/// timing settings, and the state of its playback. It is derived, never persisted.
#[derive(Clone, Debug, PartialEq)]
pub struct Timeline {
    pub repeat: bool,
    pub loopback: u64,
    pub speed: u8,
    pub fps: u8,
    pub tracks: Vec<Track>,
    pub status: Playback,
}

/// What a [`Timeline`] is to the contracts.
pub struct TimelineView {
    pub repeat: bool,
    pub loopback: u64,
    pub speed: u8,
    pub fps: u8,
    pub tracks: Seq<TrackView>,
    pub status: Playback,
}

impl View for Timeline {
    type V = TimelineView;

    open spec fn view(&self) -> TimelineView {
        TimelineView {
            repeat: self.repeat,
            loopback: self.loopback,
            speed: self.speed,
            fps: self.fps,
            tracks: views_of(self.tracks@),
            status: self.status,
        }
    }
}

impl TimelineView {
    /// The timeline of an animation that was never resolved: the engine's default
    /// settings and no track.
    pub open spec fn blank() -> TimelineView {
        TimelineView {
            repeat: false,
            loopback: 0,
            speed: 100,
            fps: 60,
            tracks: Seq::empty(),
            status: Playback::Idle,
        }
    }
}

impl Timeline {
    /// The timeline of an animation that was never resolved.
    pub fn blank() -> (timeline: Self)
        ensures
            timeline@ == TimelineView::blank(),
    {
        let timeline = Timeline {
            repeat: false,
            loopback: 0,
            speed: 100,
            fps: 60,
            tracks: Vec::new(),
            status: Playback::Idle,
        };
        assert(timeline@.tracks =~= Seq::empty());
        timeline
    }

    /// A copy with the same view.
    pub fn duplicate(&self) -> (copy: Self)
        ensures
            copy@ == self@,
    {
        Timeline {
            repeat: self.repeat,
            loopback: self.loopback,
            speed: self.speed,
            fps: self.fps,
            tracks: clone_tracks(&self.tracks),
            status: self.status,
        }
    }
}

/// An animation record. `inner` is the resolved timeline: volatile, rebuilt from
/// `tracks` and the store whenever the animation is loaded or played.
#[derive(Clone, Debug, PartialEq)]
pub struct Animation {
    pub id: Id,
    pub name: String,
    pub description: String,
    pub repeat: bool,
    pub loopback: u64,
    pub speed: u8,
    pub fps: u8,
    pub tracks: Vec<GroupTrack>,
    pub inner: Timeline,
}

/// What an [`Animation`] is to the contracts.
pub struct AnimationView {
    pub id: Id,
    pub name: Seq<char>,
    pub description: Seq<char>,
    pub repeat: bool,
    pub loopback: u64,
    pub speed: u8,
    pub fps: u8,
    pub tracks: Seq<GroupTrackView>,
    pub inner: TimelineView,
}

impl View for Animation {
    type V = AnimationView;

    open spec fn view(&self) -> AnimationView {
        AnimationView {
            id: self.id,
            name: self.name@,
            description: self.description@,
            repeat: self.repeat,
            loopback: self.loopback,
            speed: self.speed,
            fps: self.fps,
            tracks: views_of(self.tracks@),
            inner: self.inner@,
        }
    }
}

/// Copies a list of group tracks.
pub fn clone_group_tracks(tracks: &Vec<GroupTrack>) -> (copy: Vec<GroupTrack>)
    ensures
        views_of(copy@) == views_of(tracks@),
{
    let mut copy: Vec<GroupTrack> = Vec::new();
    let mut i: usize = 0;
    while i < tracks.len()
        invariant
            i <= tracks@.len(),
            copy@.len() == i,
            forall|k: int| 0 <= k < i ==> (#[trigger] copy@[k])@ == tracks@[k]@,
        decreases tracks@.len() - i,
    {
        copy.push(tracks[i].duplicate());
        i += 1;
    }
    proof {
        assert(views_of(copy@) =~= views_of(tracks@));
    }
    copy
}

impl Entity for Animation {
    open spec fn id_of(v: AnimationView) -> Id {
        v.id
    }

    open spec fn with_id(v: AnimationView, id: Id) -> AnimationView {
        AnimationView { id, ..v }
    }

    open spec fn kind() -> EntityType {
        EntityType::Animation
    }

    proof fn lemma_with_id(v: AnimationView, id: Id) {
    }

    fn get_id(&self) -> (id: Id) {
        self.id
    }

    fn set_id(&mut self, id: Id) {
        self.id = id;
    }

    fn duplicate(&self) -> (copy: Self) {
        Animation {
            id: self.id,
            name: self.name.clone(),
            description: self.description.clone(),
            repeat: self.repeat,
            loopback: self.loopback,
            speed: self.speed,
            fps: self.fps,
            tracks: clone_group_tracks(&self.tracks),
            inner: self.inner.duplicate(),
        }
    }

    fn get_entity_type() -> (kind: EntityType) {
        EntityType::Animation
    }
}

/// One resolved position: a hardware keyframe and the device that it is for.
#[derive(Clone, Debug, PartialEq)]
pub struct Step {
    pub device: Id,
    pub keyframe: HardwareKeyframe,
}

/// The step that position `p` of keyframe `k` resolves to.
pub open spec fn step_of(k: KeyframeView, p: Position) -> Step {
    Step {
        device: p.device,
        keyframe: HardwareKeyframe {
            target: p.target,
            start: k.start,
            end: k.end,
            transition: k.transition,
        },
    }
}

/// The steps of the first `n` positions of keyframe `k`: one for each position whose
/// device can be driven, in the order of the positions.
pub open spec fn keyframe_steps(store: StoreView, k: KeyframeView, n: int) -> Seq<Step>
    decreases n,
{
    if n <= 0 {
        Seq::empty()
    } else {
        let earlier = keyframe_steps(store, k, n - 1);
        let p = k.positions[n - 1];
        if store.reachable(p.device) {
            earlier.push(step_of(k, p))
        } else {
            earlier
        }
    }
}

/// The steps of the first `n` keyframes of `keyframes`, one keyframe after the other.
pub open spec fn keyframes_steps(store: StoreView, keyframes: Seq<KeyframeView>, n: int) -> Seq<
    Step,
>
    decreases n,
{
    if n <= 0 {
        Seq::empty()
    } else {
        let k = keyframes[n - 1];
        keyframes_steps(store, keyframes, n - 1) + keyframe_steps(store, k, k.positions.len() as int)
    }
}

/// The steps of one group track: those of all its keyframes where its group is stored,
/// none where it is not.
pub open spec fn track_steps(store: StoreView, track: GroupTrackView) -> Seq<Step> {
    if store.groups.contains_key(track.group) {
        keyframes_steps(store, track.keyframes, track.keyframes.len() as int)
    } else {
        Seq::empty()
    }
}

/// The steps of the first `n` group tracks of `tracks`, one track after the other.
pub open spec fn tracks_steps(store: StoreView, tracks: Seq<GroupTrackView>, n: int) -> Seq<Step>
    decreases n,
{
    if n <= 0 {
        Seq::empty()
    } else {
        tracks_steps(store, tracks, n - 1) + track_steps(store, tracks[n - 1])
    }
}

/// Every step that the animation resolves to against the store, in authoring order.
pub open spec fn resolved_steps(store: StoreView, animation: AnimationView) -> Seq<Step> {
    tracks_steps(store, animation.tracks, animation.tracks.len() as int)
}

/// `i` is where the track of `device` stands in `tracks`: the first track of that
/// device, or the end of `tracks` where it has none.
pub open spec fn is_slot(tracks: Seq<TrackView>, device: Id, i: int) -> bool {
    &&& 0 <= i <= tracks.len()
    &&& forall|k: int| 0 <= k < i ==> (#[trigger] tracks[k]).device != device
    &&& i < tracks.len() ==> tracks[i].device == device
}

/// Where the track of `device` stands in `tracks`.
pub open spec fn slot(tracks: Seq<TrackView>, device: Id) -> int {
    choose|i: int| is_slot(tracks, device, i)
}

/// The tracks after one more step: its keyframe goes to the end of its device's track,
/// which is opened at the end of `tracks` where the device had none.
pub open spec fn place(tracks: Seq<TrackView>, step: Step) -> Seq<TrackView> {
    let i = slot(tracks, step.device);
    if i < tracks.len() {
        tracks.update(
            i,
            TrackView { device: tracks[i].device, keyframes: tracks[i].keyframes.push(step.keyframe) },
        )
    } else {
        tracks.push(TrackView { device: step.device, keyframes: seq![step.keyframe] })
    }
}

/// The device tracks that a sequence of steps makes up: one track per device, in the
/// order in which the devices first occur, each with its keyframes in step order.
pub open spec fn arrange(steps: Seq<Step>) -> Seq<TrackView>
    decreases steps.len(),
{
    if steps.len() == 0 {
        Seq::empty()
    } else {
        place(arrange(steps.drop_last()), steps.last())
    }
}

/// The latest end among `keyframes`, zero where there is none.
pub open spec fn latest(keyframes: Seq<HardwareKeyframe>) -> u64
    decreases keyframes.len(),
{
    if keyframes.len() == 0 {
        0
    } else {
        let earlier = latest(keyframes.drop_last());
        if keyframes.last().end > earlier {
            keyframes.last().end
        } else {
            earlier
        }
    }
}

/// The latest end among all keyframes of `tracks`, zero where there is none.
pub open spec fn span(tracks: Seq<TrackView>) -> u64
    decreases tracks.len(),
{
    if tracks.len() == 0 {
        0
    } else {
        let earlier = span(tracks.drop_last());
        if latest(tracks.last().keyframes) > earlier {
            latest(tracks.last().keyframes)
        } else {
            earlier
        }
    }
}

/// No keyframe of the steps ends before it starts.
pub open spec fn steps_timed(steps: Seq<Step>) -> bool {
    forall|i: int| 0 <= i < steps.len() ==> (#[trigger] steps[i]).keyframe.start <= steps[i].keyframe.end
}

/// No keyframe of the tracks ends before it starts.
pub open spec fn tracks_timed(tracks: Seq<TrackView>) -> bool {
    forall|i: int, j: int|
        0 <= i < tracks.len() && 0 <= j < tracks[i].keyframes.len() ==> (
        #[trigger] tracks[i].keyframes[j]).start <= tracks[i].keyframes[j].end
}

/// At most one position is the slot of a device.
pub proof fn lemma_slot_unique(tracks: Seq<TrackView>, device: Id, i: int, j: int)
    requires
        is_slot(tracks, device, i),
        is_slot(tracks, device, j),
    ensures
        i == j,
{
    if i < j {
        assert(tracks[i].device != device);
    }
    if j < i {
        assert(tracks[j].device != device);
    }
}

impl TimelineView {
    /// How long the timeline plays: up to the latest end of its keyframes.
    pub open spec fn duration(self) -> u64 {
        span(self.tracks)
    }
}

impl AnimationView {
    /// The timeline that the animation resolves to against the store: its own timing
    /// settings over the arranged steps, not playing.
    pub open spec fn resolve(self, store: StoreView) -> TimelineView {
        TimelineView {
            repeat: self.repeat,
            loopback: self.loopback,
            speed: self.speed,
            fps: self.fps,
            tracks: arrange(resolved_steps(store, self)),
            status: Playback::Idle,
        }
    }

    /// The animation with its timeline resolved afresh against the store.
    pub open spec fn rebuilt(self, store: StoreView) -> AnimationView {
        AnimationView { inner: self.resolve(store), ..self }
    }
}

/// Why a timeline does not start.
#[derive(Clone, Copy, Debug, PartialEq, Eq, Structural)]
pub enum PlaybackError {
    /// Nothing resolved, or nothing that lasts: there is nothing to play.
    EmptyTimeline,
}

/// Puts one step into the tracks.
pub fn place_step(tracks: &mut Vec<Track>, step: Step)
    ensures
        views_of(final(tracks)@) == place(views_of(old(tracks)@), step),
        tracks_timed(views_of(old(tracks)@)) && step.keyframe.start <= step.keyframe.end
            ==> tracks_timed(views_of(final(tracks)@)),
{
    let ghost before = views_of(tracks@);
    let ghost timed = step.keyframe.start <= step.keyframe.end;
    let mut i: usize = 0;
    while i < tracks.len() && tracks[i].device != step.device
        invariant
            i <= tracks@.len(),
            before == views_of(tracks@),
            forall|k: int| 0 <= k < i ==> (#[trigger] before[k]).device != step.device,
        decreases tracks@.len() - i,
    {
        i += 1;
    }
    proof {
        assert(i < tracks@.len() ==> before[i as int].device == step.device);
        assert(is_slot(before, step.device, i as int));
        lemma_slot_unique(before, step.device, i as int, slot(before, step.device));
    }
    if i < tracks.len() {
        let mut track = Track::new(step.device);
        core::mem::swap(&mut tracks[i], &mut track);
        track.keyframes.push(step.keyframe);
        tracks.set(i, track);
        proof {
            let after = views_of(tracks@);
            assert(after =~= place(before, step));
            if tracks_timed(before) && timed {
                assert forall|a: int, b: int|
                    0 <= a < after.len() && 0 <= b < after[a].keyframes.len() implies (
                #[trigger] after[a].keyframes[b]).start <= after[a].keyframes[b].end by {
                    if a != i {
                        assert(after[a] == before[a]);
                        assert(before[a].keyframes[b].start <= before[a].keyframes[b].end);
                    } else if b < before[a].keyframes.len() {
                        assert(after[a].keyframes[b] == before[a].keyframes[b]);
                        assert(before[a].keyframes[b].start <= before[a].keyframes[b].end);
                    }
                }
            }
        }
    } else {
        let mut track = Track::new(step.device);
        track.keyframes.push(step.keyframe);
        tracks.push(track);
        proof {
            let after = views_of(tracks@);
            assert(track@.keyframes =~= seq![step.keyframe]);
            assert(after =~= place(before, step));
            if tracks_timed(before) && timed {
                assert forall|a: int, b: int|
                    0 <= a < after.len() && 0 <= b < after[a].keyframes.len() implies (
                #[trigger] after[a].keyframes[b]).start <= after[a].keyframes[b].end by {
                    if a < before.len() {
                        assert(after[a] == before[a]);
                        assert(before[a].keyframes[b].start <= before[a].keyframes[b].end);
                    }
                }
            }
        }
    }
}

/// Makes up the device tracks of a sequence of steps.
pub fn arrange_steps(steps: Vec<Step>) -> (tracks: Vec<Track>)
    ensures
        views_of(tracks@) == arrange(steps@),
        steps_timed(steps@) ==> tracks_timed(views_of(tracks@)),
{
    let mut tracks: Vec<Track> = Vec::new();
    let mut i: usize = 0;
    proof {
        assert(views_of(tracks@) =~= Seq::<TrackView>::empty());
        assert(steps@.take(0) =~= Seq::<Step>::empty());
    }
    while i < steps.len()
        invariant
            i <= steps@.len(),
            views_of(tracks@) == arrange(steps@.take(i as int)),
            steps_timed(steps@) ==> tracks_timed(views_of(tracks@)),
        decreases steps@.len() - i,
    {
        let step = Step { device: steps[i].device, keyframe: steps[i].keyframe.duplicate() };
        proof {
            let longer = steps@.take(i + 1);
            assert(longer.drop_last() =~= steps@.take(i as int));
            assert(longer.last() == step);
        }
        place_step(&mut tracks, step);
        i += 1;
    }
    proof {
        assert(steps@.take(i as int) =~= steps@);
    }
    tracks
}

/// The latest end among `keyframes`, zero where there is none.
pub fn latest_end(keyframes: &Vec<HardwareKeyframe>) -> (end: u64)
    ensures
        end == latest(keyframes@),
{
    let mut end: u64 = 0;
    let mut i: usize = 0;
    proof {
        assert(keyframes@.take(0) =~= Seq::<HardwareKeyframe>::empty());
    }
    while i < keyframes.len()
        invariant
            i <= keyframes@.len(),
            end == latest(keyframes@.take(i as int)),
        decreases keyframes@.len() - i,
    {
        proof {
            let longer = keyframes@.take(i + 1);
            assert(longer.drop_last() =~= keyframes@.take(i as int));
            assert(longer.last() == keyframes@[i as int]);
        }
        if keyframes[i].end > end {
            end = keyframes[i].end;
        }
        i += 1;
    }
    proof {
        assert(keyframes@.take(i as int) =~= keyframes@);
    }
    end
}

impl Timeline {
    /// How long the timeline plays, in milliseconds: up to the latest end of its
    /// keyframes, zero where it has none.
    pub fn get_duration(&self) -> (duration: u64)
        ensures
            duration == self@.duration(),
    {
        let mut duration: u64 = 0;
        let mut i: usize = 0;
        let ghost tracks = views_of(self.tracks@);
        proof {
            assert(tracks.take(0) =~= Seq::<TrackView>::empty());
        }
        while i < self.tracks.len()
            invariant
                i <= self.tracks@.len(),
                tracks == views_of(self.tracks@),
                duration == span(tracks.take(i as int)),
            decreases self.tracks@.len() - i,
        {
            proof {
                let longer = tracks.take(i + 1);
                assert(longer.drop_last() =~= tracks.take(i as int));
                assert(longer.last() == self.tracks@[i as int]@);
            }
            let end = latest_end(&self.tracks[i].keyframes);
            if end > duration {
                duration = end;
            }
            i += 1;
        }
        proof {
            assert(tracks.take(i as int) =~= tracks);
        }
        duration
    }

    /// The engine's segment for this timeline, with the timeline's timing settings and
    /// no track yet: whoever holds the devices adds one track for each of `tracks`.
    pub fn segment(&self) -> (segment: hermes_five::animations::Segment)
        ensures
            segment == crate::engine::engine_segment(
                self@.repeat,
                self@.loopback,
                self@.speed,
                self@.fps,
            ),
    {
        crate::engine::new_segment(self.repeat, self.loopback, self.speed, self.fps)
    }

    /// Whether the timeline is playing.
    pub fn is_playing(&self) -> (playing: bool)
        ensures
            playing == (self@.status == Playback::Playing),
    {
        match self.status {
            Playback::Playing => true,
            _ => false,
        }
    }

    /// Starts or resumes the timeline. A timeline of zero duration is not started.
    pub fn play(&mut self) -> (r: Result<(), PlaybackError>)
        ensures
            old(self)@.duration() == 0 ==> r == Err::<(), PlaybackError>(
                PlaybackError::EmptyTimeline,
            ) && final(self)@ == old(self)@,
            old(self)@.duration() > 0 ==> r is Ok && final(self)@ == (TimelineView {
                status: Playback::Playing,
                ..old(self)@
            }),
    {
        if self.get_duration() == 0 {
            return Err(PlaybackError::EmptyTimeline);
        }
        self.status = Playback::Playing;
        Ok(())
    }

    /// Pauses a playing timeline; one that is not playing stays as it is.
    pub fn pause(&mut self)
        ensures
            final(self)@ == (TimelineView {
                status: if old(self)@.status == Playback::Playing {
                    Playback::Paused
                } else {
                    old(self)@.status
                },
                ..old(self)@
            }),
    {
        match self.status {
            Playback::Playing => {
                self.status = Playback::Paused;
            },
            _ => {},
        }
    }

    /// Stops the timeline and puts it back to its start.
    pub fn stop(&mut self)
        ensures
            final(self)@ == (TimelineView { status: Playback::Idle, ..old(self)@ }),
    {
        self.status = Playback::Idle;
    }

    /// Takes note that the engine played the timeline to its end: a playing timeline
    /// becomes idle, any other stays as it is.
    pub fn complete(&mut self)
        ensures
            final(self)@ == (TimelineView {
                status: if old(self)@.status == Playback::Playing {
                    Playback::Idle
                } else {
                    old(self)@.status
                },
                ..old(self)@
            }),
    {
        match self.status {
            Playback::Playing => {
                self.status = Playback::Idle;
            },
            _ => {},
        }
    }
}

impl Animation {
    /// Every step that the animation resolves to against the store, in authoring
    /// order. A track whose group is gone, and a position whose device is gone or
    /// cannot be driven, is passed over.
    pub fn steps(&self, database: &Database) -> (steps: Vec<Step>)
        ensures
            steps@ == resolved_steps(database@, self@),
            steps_timed(steps@),
    {
        let ghost store = database@;
        let ghost tracks = views_of(self.tracks@);
        let mut steps: Vec<Step> = Vec::new();
        let mut i: usize = 0;
        proof {
            assert(steps@ =~= tracks_steps(store, tracks, 0));
        }
        while i < self.tracks.len()
            invariant
                i <= self.tracks@.len(),
                store == database@,
                tracks == views_of(self.tracks@),
                steps@ == tracks_steps(store, tracks, i as int),
                steps_timed(steps@),
            decreases self.tracks@.len() - i,
        {
            let track = &self.tracks[i];
            let ghost done = steps@;
            let ghost keyframes = views_of(track.keyframes@);
            assert(tracks[i as int] == track@);
            if database.find_group(track.group).is_some() {
                let mut j: usize = 0;
                proof {
                    assert(steps@ =~= done + keyframes_steps(store, keyframes, 0));
                }
                while j < track.keyframes.len()
                    invariant
                        j <= track.keyframes@.len(),
                        store == database@,
                        keyframes == views_of(track.keyframes@),
                        steps@ == done + keyframes_steps(store, keyframes, j as int),
                        steps_timed(steps@),
                    decreases track.keyframes@.len() - j,
                {
                    let keyframe = &track.keyframes[j];
                    let ghost k = keyframe@;
                    let ghost so_far = steps@;
                    assert(keyframes[j as int] == k);
                    let mut n: usize = 0;
                    proof {
                        use_type_invariant(keyframe);
                        assert(steps@ =~= so_far + keyframe_steps(store, k, 0));
                    }
                    while n < keyframe.positions.len()
                        invariant
                            n <= keyframe.positions@.len(),
                            store == database@,
                            k == keyframe@,
                            k.positions == keyframe.positions@,
                            steps@ == so_far + keyframe_steps(store, k, n as int),
                            steps_timed(steps@),
                            keyframe.start <= keyframe.end,
                        decreases keyframe.positions@.len() - n,
                    {
                        let position = &keyframe.positions[n];
                        if database.reachable(position.device) {
                            steps.push(
                                Step {
                                    device: position.device,
                                    keyframe: HardwareKeyframe {
                                        target: position.target.clone(),
                                        start: keyframe.start,
                                        end: keyframe.end,
                                        transition: keyframe.transition,
                                    },
                                },
                            );
                        }
                        proof {
                            assert(steps@ =~= so_far + keyframe_steps(store, k, n + 1));
                        }
                        n += 1;
                    }
                    proof {
                        assert(steps@ =~= done + keyframes_steps(store, keyframes, j + 1));
                    }
                    j += 1;
                }
            } else {
                proof {
                    assert(steps@ =~= done + track_steps(store, track@));
                }
            }
            i += 1;
        }
        steps
    }

    /// Resolves the animation against the store and keeps the timeline in `inner`,
    /// not playing. The store is only read. No keyframe of the timeline ends before it
    /// starts.
    pub fn build(&mut self, database: &Database)
        ensures
            final(self)@ == old(self)@.rebuilt(database@),
            tracks_timed(final(self)@.inner.tracks),
            crate::laws::arranged(
                final(self)@.inner.tracks,
                resolved_steps(database@, old(self)@),
            ),
            forall|i: int|
                0 <= i < final(self)@.inner.tracks.len() ==> database@.reachable(
                    (#[trigger] final(self)@.inner.tracks[i]).device,
                ),
    {
        proof {
            crate::laws::lemma_tracks_are_reachable(database@, self@);
        }
        let steps = self.steps(database);
        self.inner = Timeline {
            repeat: self.repeat,
            loopback: self.loopback,
            speed: self.speed,
            fps: self.fps,
            tracks: arrange_steps(steps),
            status: Playback::Idle,
        };
    }

    /// Brings a freshly loaded animation to its starting state: resolved against the
    /// store as loaded.
    pub fn post_load(&mut self, database: &Database)
        ensures
            final(self)@ == old(self)@.rebuilt(database@),
    {
        self.build(database);
    }

    /// Resolves the animation against the store as it is now and starts it. Where the
    /// timeline has zero duration, nothing starts.
    pub fn play(&mut self, database: &Database) -> (r: Result<(), PlaybackError>)
        ensures
            old(self)@.resolve(database@).duration() == 0 ==> r == Err::<(), PlaybackError>(
                PlaybackError::EmptyTimeline,
            ) && final(self)@ == old(self)@.rebuilt(database@),
            old(self)@.resolve(database@).duration() > 0 ==> r is Ok && final(self)@ == (
            AnimationView {
                inner: TimelineView {
                    status: Playback::Playing,
                    ..old(self)@.resolve(database@)
                },
                ..old(self)@
            }),
    {
        self.build(database);
        self.inner.play()
    }

    /// Pauses the animation where it plays.
    pub fn pause(&mut self)
        ensures
            final(self)@ == (AnimationView {
                inner: TimelineView {
                    status: if old(self)@.inner.status == Playback::Playing {
                        Playback::Paused
                    } else {
                        old(self)@.inner.status
                    },
                    ..old(self)@.inner
                },
                ..old(self)@
            }),
    {
        self.inner.pause();
    }

    /// Stops the animation and puts it back to its start.
    pub fn stop(&mut self)
        ensures
            final(self)@ == (AnimationView {
                inner: TimelineView { status: Playback::Idle, ..old(self)@.inner },
                ..old(self)@
            }),
    {
        self.inner.stop();
    }

    /// Takes note that the engine played the animation to its end.
    pub fn complete(&mut self)
        ensures
            final(self)@ == (AnimationView {
                inner: TimelineView {
                    status: if old(self)@.inner.status == Playback::Playing {
                        Playback::Idle
                    } else {
                        old(self)@.inner.status
                    },
                    ..old(self)@.inner
                },
                ..old(self)@
            }),
    {
        self.inner.complete();
    }
}

/// What clients are told of an animation: the record, and what its timeline says of
/// its playback.
#[derive(Clone, Debug, PartialEq)]
pub struct AnimationPayload {
    pub id: Id,
    pub name: String,
    pub description: String,
    pub repeat: bool,
    pub loopback: u64,
    pub speed: u8,
    pub fps: u8,
    pub keyframes: Vec<GroupTrack>,
    pub playing: bool,
    pub duration: u64,
    pub progress: u64,
}

/// What an [`AnimationPayload`] is to the contracts.
pub struct AnimationPayloadView {
    pub id: Id,
    pub name: Seq<char>,
    pub description: Seq<char>,
    pub repeat: bool,
    pub loopback: u64,
    pub speed: u8,
    pub fps: u8,
    pub keyframes: Seq<GroupTrackView>,
    pub playing: bool,
    pub duration: u64,
    pub progress: u64,
}

impl View for AnimationPayload {
    type V = AnimationPayloadView;

    open spec fn view(&self) -> AnimationPayloadView {
        AnimationPayloadView {
            id: self.id,
            name: self.name@,
            description: self.description@,
            repeat: self.repeat,
            loopback: self.loopback,
            speed: self.speed,
            fps: self.fps,
            keyframes: views_of(self.keyframes@),
            playing: self.playing,
            duration: self.duration,
            progress: self.progress,
        }
    }
}

impl AnimationView {
    /// What clients are told of the animation. The library does not follow the clock:
    /// the progress that it reports is zero, for whoever drives the engine to fill in.
    pub open spec fn payload(self) -> AnimationPayloadView {
        AnimationPayloadView {
            id: self.id,
            name: self.name,
            description: self.description,
            repeat: self.repeat,
            loopback: self.loopback,
            speed: self.speed,
            fps: self.fps,
            keyframes: self.tracks,
            playing: self.inner.status == Playback::Playing,
            duration: self.inner.duration(),
            progress: 0,
        }
    }
}

impl AnimationPayload {
    /// What clients are told of `animation`.
    pub fn from(animation: Animation) -> (payload: Self)
        ensures
            payload@ == animation@.payload(),
    {
        let playing = animation.inner.is_playing();
        let duration = animation.inner.get_duration();
        AnimationPayload {
            id: animation.id,
            name: animation.name,
            description: animation.description,
            repeat: animation.repeat,
            loopback: animation.loopback,
            speed: animation.speed,
            fps: animation.fps,
            keyframes: animation.tracks,
            playing,
            duration,
            progress: 0,
        }
    }
}

} // verus!

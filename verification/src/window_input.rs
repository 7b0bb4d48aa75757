//! The per-frame decisions for one spatial egui window: which input method drives the
//! cursor, which button presses and releases to report, and which touches start, move
//! and end. The caller measures the spatial input (distances, contact, button readings)
//! and turns the returned events into egui events at the measured positions.
use crate::edge::{check, edge};
use crate::entity_set::{
    entity_bits, entity_set_bits, entity_set_contains, entity_set_insert, entity_set_new,
    entity_set_remove, entity_to_bits,
};
use bevy::ecs::entity::{Entity, EntityHashSet};
use vstd::prelude::*;

verus! {

/// The egui pointer buttons this window reports.
#[derive(Clone, Copy, Debug, PartialEq, Eq)]
pub enum PointerButton {
    Primary,
    Secondary,
    Middle,
}

/// The phase of a touch.
#[derive(Clone, Copy, Debug, PartialEq, Eq)]
pub enum TouchPhase {
    Start,
    Move,
    End,
}

/// Where the position of an event is to be measured: at the cursor of the closest
/// hovering input method, or at the touch point of an entry of one of the frame's lists.
#[derive(Clone, Copy, Debug, PartialEq, Eq)]
pub enum PointSource {
    Cursor,
    Started(usize),
    Acting(usize),
    Stopped(usize),
}

/// One egui event for the window, with its position given by where to measure it.
#[derive(Clone, Copy, Debug, PartialEq, Eq)]
pub enum WindowEvent {
    /// No input method hovers the window any more.
    PointerGone,
    /// The pointer moved to the given point.
    PointerMoved(PointSource),
    /// A pointer button went down (`pressed`) or up at the given point.
    PointerButton { at: PointSource, button: PointerButton, pressed: bool },
    /// The cursor's input method scrolled.
    MouseWheel,
    /// A touch by the input method whose `Entity::to_bits` is `id`.
    Touch { id: u64, phase: TouchPhase, at: PointSource },
}

/// What was measured of one input method that currently hovers the window.
#[derive(Clone, Copy, Debug, PartialEq, Eq)]
pub struct HoverSample {
    /// It is close enough to drive the cursor.
    pub eligible: bool,
    /// Its distance to the window, as a key that orders like the distance.
    pub distance_key: u32,
    /// Its select, secondary and context readings are past the press threshold.
    pub select: bool,
    pub secondary: bool,
    pub context: bool,
    /// It reports a non-zero scroll.
    pub scrolling: bool,
}

/// An input method that started acting on the window this frame.
#[derive(Clone, Copy, Debug)]
pub struct StartedSample {
    pub input_method: Entity,
    /// It touches the window (its touch distance is not positive).
    pub in_contact: bool,
}

/// Everything the window's decisions need of one frame of spatial input.
pub struct FrameInput {
    /// No input method hovers the window.
    pub hover_set_empty: bool,
    /// The input methods that currently hover the window.
    pub hovering: Vec<HoverSample>,
    /// The input methods that started acting on the window.
    pub started: Vec<StartedSample>,
    /// The input methods that are acting on the window.
    pub acting: Vec<Entity>,
    /// The input methods that stopped acting on the window.
    pub stopped: Vec<Entity>,
}

/// What the window remembers between frames: the input methods that touch it, and
/// which pointer buttons were last reported down.
pub struct SpatialEguiState {
    pub touching: EntityHashSet,
    pub left_clicked: bool,
    pub right_clicked: bool,
    pub middle_clicked: bool,
}

/// The mathematical value of a `SpatialEguiState`.
pub ghost struct InputStateView {
    pub touching: Set<u64>,
    pub left_clicked: bool,
    pub right_clicked: bool,
    pub middle_clicked: bool,
}

impl View for SpatialEguiState {
    type V = InputStateView;

    open spec fn view(&self) -> InputStateView {
        InputStateView {
            touching: entity_set_bits(self.touching),
            left_clicked: self.left_clicked,
            right_clicked: self.right_clicked,
            middle_clicked: self.middle_clicked,
        }
    }
}

impl Default for SpatialEguiState {
    fn default() -> (s: Self)
        ensures
            s@.touching == Set::<u64>::empty(),
            !s.left_clicked,
            !s.right_clicked,
            !s.middle_clicked,
    {
        SpatialEguiState {
            touching: entity_set_new(),
            left_clicked: false,
            right_clicked: false,
            middle_clicked: false,
        }
    }
}

// ---------------------------------------------------------------------------------------
// Choosing the input method that drives the cursor
// ---------------------------------------------------------------------------------------

/// Some hovering input method is close enough to drive the cursor.
pub open spec fn has_eligible(h: Seq<HoverSample>) -> bool {
    exists|j: int| 0 <= j < h.len() && #[trigger] h[j].eligible
}

/// Entry `i` is the eligible entry with the least distance, the last one among equals.
pub open spec fn is_closest(h: Seq<HoverSample>, i: int) -> bool {
    &&& 0 <= i < h.len()
    &&& h[i].eligible
    &&& forall|j: int|
        0 <= j < h.len() && #[trigger] h[j].eligible ==> h[i].distance_key <= h[j].distance_key
    &&& forall|j: int|
        i < j < h.len() && #[trigger] h[j].eligible ==> h[i].distance_key < h[j].distance_key
}

/// The entry that drives the cursor, if any.
pub open spec fn closest(h: Seq<HoverSample>) -> Option<int> {
    if has_eligible(h) {
        Some(choose|i: int| is_closest(h, i))
    } else {
        None
    }
}

/// At most one entry is the closest.
pub proof fn lemma_closest_unique(h: Seq<HoverSample>, i: int, j: int)
    requires
        is_closest(h, i),
        is_closest(h, j),
    ensures
        i == j,
{
    if i < j {
        assert(h[j].eligible);
    } else if j < i {
        assert(h[i].eligible);
    }
}

/// Picks the eligible hovering input method with the least distance; among equal
/// distances the last one wins.
pub fn closest_hover(h: &Vec<HoverSample>) -> (r: Option<usize>)
    ensures
        r is None <==> !has_eligible(h@),
        r matches Some(i) ==> is_closest(h@, i as int),
        r matches Some(i) ==> closest(h@) == Some(i as int),
        r is None ==> closest(h@) is None,
{
    let mut best: Option<usize> = None;
    let mut idx: usize = 0;
    while idx < h.len()
        invariant
            idx <= h.len(),
            best is None ==> forall|j: int| 0 <= j < idx ==> !(#[trigger] h@[j].eligible),
            best matches Some(b) ==> {
                &&& b < idx
                &&& h@[b as int].eligible
                &&& forall|j: int|
                    0 <= j < idx && #[trigger] h@[j].eligible ==> h@[b as int].distance_key
                        <= h@[j].distance_key
                &&& forall|j: int|
                    b < j < idx && #[trigger] h@[j].eligible ==> h@[b as int].distance_key
                        < h@[j].distance_key
            },
        decreases h.len() - idx,
    {
        if h[idx].eligible {
            match best {
                None => {
                    best = Some(idx);
                },
                Some(b) => {
                    if !(h[b].distance_key < h[idx].distance_key) {
                        best = Some(idx);
                    }
                },
            }
        }
        idx = idx + 1;
    }
    proof {
        match best {
            Some(b) => {
                assert(has_eligible(h@)) by {
                    assert(h@[b as int].eligible);
                }
                let c = choose|i: int| is_closest(h@, i);
                assert(is_closest(h@, b as int));
                lemma_closest_unique(h@, b as int, c);
            },
            None => {},
        }
    }
    best
}

// ---------------------------------------------------------------------------------------
// What one frame reports
// ---------------------------------------------------------------------------------------

/// The event that reports an edge of `button` at the cursor, if the reading changed.
pub open spec fn button_events(button: PointerButton, curr: bool, last: bool) -> Seq<
    WindowEvent,
> {
    match edge(curr, last) {
        Some(p) => seq![WindowEvent::PointerButton { at: PointSource::Cursor, button, pressed: p }],
        None => Seq::empty(),
    }
}

/// The events of the input method that drives the cursor: the cursor moves, each button
/// whose reading changed is reported, and a scroll is passed on.
pub open spec fn hover_events(s: HoverSample, st: InputStateView) -> Seq<WindowEvent> {
    seq![WindowEvent::PointerMoved(PointSource::Cursor)] + button_events(
        PointerButton::Primary,
        s.select,
        st.left_clicked,
    ) + button_events(PointerButton::Secondary, s.secondary, st.right_clicked) + button_events(
        PointerButton::Middle,
        s.context,
        st.middle_clicked,
    ) + if s.scrolling {
        seq![WindowEvent::MouseWheel]
    } else {
        Seq::empty()
    }
}

/// The input methods among the first `n` started ones that are in contact.
pub open spec fn contact_bits(s: Seq<StartedSample>, n: nat) -> Set<u64>
    decreases n,
{
    if n == 0 {
        Set::empty()
    } else {
        let prev = contact_bits(s, (n - 1) as nat);
        if s[n - 1].in_contact {
            prev.insert(entity_bits(s[n - 1].input_method))
        } else {
            prev
        }
    }
}

/// The events of the first `n` started input methods: each one in contact starts a touch
/// and presses the primary button at its touch point.
pub open spec fn started_events(s: Seq<StartedSample>, n: nat) -> Seq<WindowEvent>
    decreases n,
{
    if n == 0 {
        Seq::empty()
    } else {
        let prev = started_events(s, (n - 1) as nat);
        if s[n - 1].in_contact {
            let at = PointSource::Started((n - 1) as usize);
            prev + seq![
                WindowEvent::Touch {
                    id: entity_bits(s[n - 1].input_method),
                    phase: TouchPhase::Start,
                    at,
                },
                WindowEvent::PointerButton { at, button: PointerButton::Primary, pressed: true },
            ]
        } else {
            prev
        }
    }
}

/// The events of the first `n` acting input methods: each one that touches the window
/// moves its touch and the pointer to its touch point.
pub open spec fn acting_events(touching: Set<u64>, a: Seq<Entity>, n: nat) -> Seq<WindowEvent>
    decreases n,
{
    if n == 0 {
        Seq::empty()
    } else {
        let prev = acting_events(touching, a, (n - 1) as nat);
        if touching.contains(entity_bits(a[n - 1])) {
            let at = PointSource::Acting((n - 1) as usize);
            prev + seq![
                WindowEvent::Touch { id: entity_bits(a[n - 1]), phase: TouchPhase::Move, at },
                WindowEvent::PointerMoved(at),
            ]
        } else {
            prev
        }
    }
}

/// The touching set and the events after the first `n` stopped input methods: each one
/// that still touches the window leaves the set, ends its touch and releases the primary
/// button at its touch point.
pub open spec fn stopped_fold(touching: Set<u64>, s: Seq<Entity>, n: nat) -> (Set<u64>, Seq<
    WindowEvent,
>)
    decreases n,
{
    if n == 0 {
        (touching, Seq::empty())
    } else {
        let prev = stopped_fold(touching, s, (n - 1) as nat);
        let b = entity_bits(s[n - 1]);
        if prev.0.contains(b) {
            let at = PointSource::Stopped((n - 1) as usize);
            (
                prev.0.remove(b),
                prev.1 + seq![
                    WindowEvent::Touch { id: b, phase: TouchPhase::End, at },
                    WindowEvent::PointerButton {
                        at,
                        button: PointerButton::Primary,
                        pressed: false,
                    },
                ],
            )
        } else {
            prev
        }
    }
}

/// The state after the cursor part of a frame: the closest hovering input method's
/// readings become the remembered button states; without one they stay.
pub open spec fn state_after_hover(st: InputStateView, h: Seq<HoverSample>) -> InputStateView {
    match closest(h) {
        Some(i) => InputStateView {
            left_clicked: h[i].select,
            right_clicked: h[i].secondary,
            middle_clicked: h[i].context,
            ..st
        },
        None => st,
    }
}

/// The events of the cursor part of a frame.
pub open spec fn cursor_events(st: InputStateView, h: Seq<HoverSample>) -> Seq<WindowEvent> {
    match closest(h) {
        Some(i) => hover_events(h[i], st),
        None => Seq::empty(),
    }
}

/// The touching set once the started input methods in contact have joined it.
pub open spec fn touching_after_start(st: InputStateView, f: FrameInput) -> Set<u64> {
    st.touching.union(contact_bits(f.started@, f.started@.len()))
}

/// The state and the events of one frame.
pub open spec fn frame_step(st: InputStateView, f: FrameInput) -> (InputStateView, Seq<
    WindowEvent,
>) {
    let gone = if f.hover_set_empty {
        seq![WindowEvent::PointerGone]
    } else {
        Seq::empty()
    };
    let t1 = touching_after_start(st, f);
    let stops = stopped_fold(t1, f.stopped@, f.stopped@.len());
    (
        InputStateView { touching: stops.0, ..state_after_hover(st, f.hovering@) },
        gone + cursor_events(st, f.hovering@) + started_events(f.started@, f.started@.len())
            + acting_events(t1, f.acting@, f.acting@.len()) + stops.1,
    )
}

/// Reports the cursor part of a frame for the input method `h` that drives the cursor.
fn report_cursor(state: &mut SpatialEguiState, h: HoverSample, events: &mut Vec<WindowEvent>)
    ensures
        final(events)@ == old(events)@ + hover_events(h, old(state)@),
        final(state).touching == old(state).touching,
        final(state).left_clicked == h.select,
        final(state).right_clicked == h.secondary,
        final(state).middle_clicked == h.context,
{
    let ghost st0 = state@;
    let ghost ev0 = events@;
    events.push(WindowEvent::PointerMoved(PointSource::Cursor));
    let ghost p1 = seq![WindowEvent::PointerMoved(PointSource::Cursor)];
    assert(events@ =~= ev0 + p1);
    report_button(PointerButton::Primary, h.select, &mut state.left_clicked, events);
    let ghost p2 = button_events(PointerButton::Primary, h.select, st0.left_clicked);
    assert(events@ =~= ev0 + (p1 + p2));
    report_button(PointerButton::Secondary, h.secondary, &mut state.right_clicked, events);
    let ghost p3 = button_events(PointerButton::Secondary, h.secondary, st0.right_clicked);
    assert(events@ =~= ev0 + (p1 + p2 + p3));
    report_button(PointerButton::Middle, h.context, &mut state.middle_clicked, events);
    let ghost p4 = button_events(PointerButton::Middle, h.context, st0.middle_clicked);
    assert(events@ =~= ev0 + (p1 + p2 + p3 + p4));
    if h.scrolling {
        events.push(WindowEvent::MouseWheel);
    }
    assert(events@ =~= ev0 + hover_events(h, st0));
}

/// Reports the edge of one button at the cursor, if its reading changed.
fn report_button(
    button: PointerButton,
    curr: bool,
    last: &mut bool,
    events: &mut Vec<WindowEvent>,
)
    ensures
        final(events)@ == old(events)@ + button_events(button, curr, *old(last)),
        *final(last) == curr,
{
    let ghost ev0 = events@;
    let ghost l0 = *last;
    if let Some(pressed) = check(curr, last) {
        events.push(WindowEvent::PointerButton { at: PointSource::Cursor, button, pressed });
    }
    assert(events@ =~= ev0 + button_events(button, curr, l0));
}

/// Starts a touch for each started input method in contact.
fn start_touches(
    touching: &mut EntityHashSet,
    started: &Vec<StartedSample>,
    events: &mut Vec<WindowEvent>,
)
    ensures
        final(events)@ == old(events)@ + started_events(started@, started@.len()),
        entity_set_bits(*final(touching)) == entity_set_bits(*old(touching)).union(
            contact_bits(started@, started@.len()),
        ),
{
    let ghost ev0 = events@;
    let ghost t0 = entity_set_bits(*touching);
    let mut i: usize = 0;
    while i < started.len()
        invariant
            i <= started.len(),
            events@ == ev0 + started_events(started@, i as nat),
            entity_set_bits(*touching) == t0.union(contact_bits(started@, i as nat)),
        decreases started.len() - i,
    {
        let sample = started[i];
        if sample.in_contact {
            entity_set_insert(touching, sample.input_method);
            let id = entity_to_bits(&sample.input_method);
            let at = PointSource::Started(i);
            events.push(WindowEvent::Touch { id, phase: TouchPhase::Start, at });
            events.push(
                WindowEvent::PointerButton { at, button: PointerButton::Primary, pressed: true },
            );
        }
        proof {
            assert(events@ =~= ev0 + started_events(started@, (i + 1) as nat));
            assert(entity_set_bits(*touching) =~= t0.union(contact_bits(started@, (i + 1) as nat)));
        }
        i = i + 1;
    }
}

/// Moves the touch of each acting input method that touches the window.
fn move_touches(touching: &EntityHashSet, acting: &Vec<Entity>, events: &mut Vec<WindowEvent>)
    ensures
        final(events)@ == old(events)@ + acting_events(
            entity_set_bits(*touching),
            acting@,
            acting@.len(),
        ),
{
    let ghost ev0 = events@;
    let ghost t = entity_set_bits(*touching);
    let mut i: usize = 0;
    while i < acting.len()
        invariant
            i <= acting.len(),
            t == entity_set_bits(*touching),
            events@ == ev0 + acting_events(t, acting@, i as nat),
        decreases acting.len() - i,
    {
        let e = &acting[i];
        if entity_set_contains(touching, e) {
            let id = entity_to_bits(e);
            let at = PointSource::Acting(i);
            events.push(WindowEvent::Touch { id, phase: TouchPhase::Move, at });
            events.push(WindowEvent::PointerMoved(at));
        }
        proof {
            assert(events@ =~= ev0 + acting_events(t, acting@, (i + 1) as nat));
        }
        i = i + 1;
    }
}

/// Ends the touch of each stopped input method that still touches the window.
fn end_touches(touching: &mut EntityHashSet, stopped: &Vec<Entity>, events: &mut Vec<WindowEvent>)
    ensures
        final(events)@ == old(events)@ + stopped_fold(
            entity_set_bits(*old(touching)),
            stopped@,
            stopped@.len(),
        ).1,
        entity_set_bits(*final(touching)) == stopped_fold(
            entity_set_bits(*old(touching)),
            stopped@,
            stopped@.len(),
        ).0,
{
    let ghost ev0 = events@;
    let ghost t0 = entity_set_bits(*touching);
    let mut i: usize = 0;
    while i < stopped.len()
        invariant
            i <= stopped.len(),
            events@ == ev0 + stopped_fold(t0, stopped@, i as nat).1,
            entity_set_bits(*touching) == stopped_fold(t0, stopped@, i as nat).0,
        decreases stopped.len() - i,
    {
        let e = &stopped[i];
        if entity_set_remove(touching, e) {
            let id = entity_to_bits(e);
            let at = PointSource::Stopped(i);
            events.push(WindowEvent::Touch { id, phase: TouchPhase::End, at });
            events.push(
                WindowEvent::PointerButton { at, button: PointerButton::Primary, pressed: false },
            );
        }
        proof {
            assert(events@ =~= ev0 + stopped_fold(t0, stopped@, (i + 1) as nat).1);
        }
        i = i + 1;
    }
}

/// Runs one frame of the window's input decisions: updates the remembered state and
/// returns the egui events to send, in order.
pub fn update_spatial_window_input(state: &mut SpatialEguiState, frame: &FrameInput) -> (events:
    Vec<WindowEvent>)
    ensures
        (final(state)@, events@) == frame_step(old(state)@, *frame),
{
    let ghost st0 = state@;
    let mut events: Vec<WindowEvent> = Vec::new();
    if frame.hover_set_empty {
        events.push(WindowEvent::PointerGone);
    }
    match closest_hover(&frame.hovering) {
        Some(i) => {
            report_cursor(state, frame.hovering[i], &mut events);
        },
        None => {},
    }
    start_touches(&mut state.touching, &frame.started, &mut events);
    move_touches(&state.touching, &frame.acting, &mut events);
    end_touches(&mut state.touching, &frame.stopped, &mut events);
    proof {
        assert(events@ =~= frame_step(st0, *frame).1);
        assert(state@ =~= frame_step(st0, *frame).0);
    }
    events
}

// ---------------------------------------------------------------------------------------
// Laws of a frame
// ---------------------------------------------------------------------------------------

/// The event starts a touch by `id`.
pub open spec fn starts_touch(e: WindowEvent, id: u64) -> bool {
    e matches WindowEvent::Touch { id: i, phase: TouchPhase::Start, .. } && i == id
}

/// The event moves a touch by `id`.
pub open spec fn moves_touch(e: WindowEvent, id: u64) -> bool {
    e matches WindowEvent::Touch { id: i, phase: TouchPhase::Move, .. } && i == id
}

/// The event ends a touch by `id`.
pub open spec fn ends_touch(e: WindowEvent, id: u64) -> bool {
    e matches WindowEvent::Touch { id: i, phase: TouchPhase::End, .. } && i == id
}

/// The input methods among the first `n` stopped ones.
pub open spec fn stopped_bits(s: Seq<Entity>, n: nat) -> Set<u64>
    decreases n,
{
    if n == 0 {
        Set::empty()
    } else {
        stopped_bits(s, (n - 1) as nat).insert(entity_bits(s[n - 1]))
    }
}

proof fn lemma_contact_bits_grow(s: Seq<StartedSample>, m: nat, n: nat)
    requires
        m <= n,
    ensures
        contact_bits(s, m).subset_of(contact_bits(s, n)),
    decreases n,
{
    if m < n {
        lemma_contact_bits_grow(s, m, (n - 1) as nat);
    }
}

proof fn lemma_started_events_shape(s: Seq<StartedSample>, n: nat)
    ensures
        forall|k: int, id: u64|
            0 <= k < started_events(s, n).len() && #[trigger] starts_touch(
                started_events(s, n)[k],
                id,
            ) ==> contact_bits(s, n).contains(id),
        forall|k: int, id: u64|
            0 <= k < started_events(s, n).len() ==> !#[trigger] ends_touch(
                started_events(s, n)[k],
                id,
            ),
        forall|k: int, id: u64|
            0 <= k < started_events(s, n).len() ==> !#[trigger] moves_touch(
                started_events(s, n)[k],
                id,
            ),
        forall|k: int| 0 <= k < started_events(s, n).len() ==> started_events(s, n)[k] != WindowEvent::PointerGone,
    decreases n,
{
    if n > 0 {
        lemma_started_events_shape(s, (n - 1) as nat);
        lemma_contact_bits_grow(s, (n - 1) as nat, n);
    }
}

proof fn lemma_acting_events_shape(t: Set<u64>, a: Seq<Entity>, n: nat)
    ensures
        forall|k: int, id: u64|
            0 <= k < acting_events(t, a, n).len() && #[trigger] moves_touch(
                acting_events(t, a, n)[k],
                id,
            ) ==> t.contains(id),
        forall|k: int, id: u64|
            0 <= k < acting_events(t, a, n).len() ==> !#[trigger] ends_touch(
                acting_events(t, a, n)[k],
                id,
            ),
        forall|k: int, id: u64|
            0 <= k < acting_events(t, a, n).len() ==> !#[trigger] starts_touch(
                acting_events(t, a, n)[k],
                id,
            ),
        forall|k: int| 0 <= k < acting_events(t, a, n).len() ==> acting_events(t, a, n)[k] != WindowEvent::PointerGone,
    decreases n,
{
    if n > 0 {
        lemma_acting_events_shape(t, a, (n - 1) as nat);
    }
}

pub(crate) proof fn lemma_stopped_fold_shape(t: Set<u64>, s: Seq<Entity>, n: nat)
    ensures
        stopped_fold(t, s, n).0 == t.difference(stopped_bits(s, n)),
        forall|k: int, id: u64|
            0 <= k < stopped_fold(t, s, n).1.len() && #[trigger] ends_touch(
                stopped_fold(t, s, n).1[k],
                id,
            ) ==> t.contains(id) && stopped_bits(s, n).contains(id),
        forall|k1: int, k2: int, id: u64|
            0 <= k1 < k2 < stopped_fold(t, s, n).1.len() && #[trigger] ends_touch(
                stopped_fold(t, s, n).1[k1],
                id,
            ) ==> !#[trigger] ends_touch(stopped_fold(t, s, n).1[k2], id),
        forall|k: int, id: u64|
            0 <= k < stopped_fold(t, s, n).1.len() ==> !#[trigger] starts_touch(
                stopped_fold(t, s, n).1[k],
                id,
            ),
        forall|k: int, id: u64|
            0 <= k < stopped_fold(t, s, n).1.len() ==> !#[trigger] moves_touch(
                stopped_fold(t, s, n).1[k],
                id,
            ),
        forall|k: int| 0 <= k < stopped_fold(t, s, n).1.len() ==> stopped_fold(t, s, n).1[k] != WindowEvent::PointerGone,
    decreases n,
{
    if n > 0 {
        let m = (n - 1) as nat;
        lemma_stopped_fold_shape(t, s, m);
        let prev = stopped_fold(t, s, m);
        let b = entity_bits(s[n - 1]);
        assert(t.difference(stopped_bits(s, n)) =~= t.difference(stopped_bits(s, m)).remove(b));
        if prev.0.contains(b) {
            let cur = stopped_fold(t, s, n);
            assert forall|k1: int, k2: int, id: u64|
                0 <= k1 < k2 < cur.1.len() && #[trigger] ends_touch(cur.1[k1], id) implies !#[trigger] ends_touch(
                cur.1[k2],
                id,
            ) by {
                if k2 >= prev.1.len() && k1 < prev.1.len() {
                    assert(cur.1[k1] == prev.1[k1]);
                    if ends_touch(cur.1[k2], id) {
                        assert(id == b);
                        assert(!prev.0.contains(id));
                    }
                }
                if k2 < prev.1.len() {
                    assert(cur.1[k1] == prev.1[k1]);
                    assert(cur.1[k2] == prev.1[k2]);
                }
            }
        } else {
            assert(t.difference(stopped_bits(s, m)).remove(b) =~= t.difference(stopped_bits(s, m)));
        }
    }
}

proof fn lemma_hover_events_shape(st: InputStateView, h: Seq<HoverSample>)
    ensures
        forall|k: int, id: u64|
            0 <= k < cursor_events(st, h).len() ==> !#[trigger] ends_touch(
                cursor_events(st, h)[k],
                id,
            ),
        forall|k: int, id: u64|
            0 <= k < cursor_events(st, h).len() ==> !#[trigger] starts_touch(
                cursor_events(st, h)[k],
                id,
            ),
        forall|k: int, id: u64|
            0 <= k < cursor_events(st, h).len() ==> !#[trigger] moves_touch(
                cursor_events(st, h)[k],
                id,
            ),
        forall|k: int| 0 <= k < cursor_events(st, h).len() ==> cursor_events(st, h)[k] != WindowEvent::PointerGone,
{
    match closest(h) {
        Some(i) => {
            let e = cursor_events(st, h);
            assert forall|k: int| 0 <= k < e.len() implies (e[k] is PointerMoved || e[k] is PointerButton || e[k] is MouseWheel) by {
                let s = h[i];
                let p1 = seq![WindowEvent::PointerMoved(PointSource::Cursor)];
                let p2 = button_events(PointerButton::Primary, s.select, st.left_clicked);
                let p3 = button_events(PointerButton::Secondary, s.secondary, st.right_clicked);
                let p4 = button_events(PointerButton::Middle, s.context, st.middle_clicked);
                let p5 = if s.scrolling { seq![WindowEvent::MouseWheel] } else { Seq::<WindowEvent>::empty() };
                assert(e == p1 + p2 + p3 + p4 + p5);
            }
        },
        None => {},
    }
}

/// After a frame, the window is touched by exactly the input methods that touched it
/// before or came into contact this frame, less those that stopped acting.
pub proof fn law_touching_after_frame(st: InputStateView, f: FrameInput)
    ensures
        frame_step(st, f).0.touching == st.touching.union(
            contact_bits(f.started@, f.started@.len()),
        ).difference(stopped_bits(f.stopped@, f.stopped@.len())),
{
    lemma_stopped_fold_shape(touching_after_start(st, f), f.stopped@, f.stopped@.len());
}

/// A frame ends a touch only for an input method that touched the window before or came
/// into contact in the same frame and that stopped acting; it no longer touches the
/// window afterwards, and no touch ends twice in one frame.
pub proof fn law_touch_ends_only_after_start(st: InputStateView, f: FrameInput)
    ensures
        forall|k: int, id: u64|
            0 <= k < frame_step(st, f).1.len() && #[trigger] ends_touch(frame_step(st, f).1[k], id)
                ==> touching_after_start(st, f).contains(id) && stopped_bits(
                f.stopped@,
                f.stopped@.len(),
            ).contains(id) && !frame_step(st, f).0.touching.contains(id),
        forall|k1: int, k2: int, id: u64|
            0 <= k1 < k2 < frame_step(st, f).1.len() && #[trigger] ends_touch(
                frame_step(st, f).1[k1],
                id,
            ) ==> !#[trigger] ends_touch(frame_step(st, f).1[k2], id),
{
    let t1 = touching_after_start(st, f);
    let gone = if f.hover_set_empty {
        seq![WindowEvent::PointerGone]
    } else {
        Seq::<WindowEvent>::empty()
    };
    let c = cursor_events(st, f.hovering@);
    let a = started_events(f.started@, f.started@.len());
    let m = acting_events(t1, f.acting@, f.acting@.len());
    let z = stopped_fold(t1, f.stopped@, f.stopped@.len());
    lemma_hover_events_shape(st, f.hovering@);
    lemma_started_events_shape(f.started@, f.started@.len());
    lemma_acting_events_shape(t1, f.acting@, f.acting@.len());
    lemma_stopped_fold_shape(t1, f.stopped@, f.stopped@.len());
    let pre = gone + c + a + m;
    let ev = frame_step(st, f).1;
    assert(ev == pre + z.1);
    assert forall|k: int, id: u64| 0 <= k < pre.len() implies !#[trigger] ends_touch(pre[k], id) by {
        let g = gone + c;
        let ga = gone + c + a;
        if k < gone.len() {
            assert(pre[k] == gone[k]);
        } else if k < g.len() {
            assert(pre[k] == c[k - gone.len()]);
        } else if k < ga.len() {
            assert(pre[k] == a[k - g.len()]);
        } else {
            assert(pre[k] == m[k - ga.len()]);
        }
    }
    assert forall|k: int, id: u64|
        0 <= k < ev.len() && #[trigger] ends_touch(ev[k], id) implies k >= pre.len() && z.1[k - pre.len()] == ev[k] by {
        if k < pre.len() {
            assert(ev[k] == pre[k]);
        }
    }
    assert forall|k1: int, k2: int, id: u64|
        0 <= k1 < k2 < ev.len() && #[trigger] ends_touch(ev[k1], id) implies !#[trigger] ends_touch(ev[k2], id) by {
        if ends_touch(ev[k2], id) {
            assert(ends_touch(z.1[k1 - pre.len()], id));
            assert(ends_touch(z.1[k2 - pre.len()], id));
        }
    }
    assert forall|k: int, id: u64|
        0 <= k < ev.len() && #[trigger] ends_touch(ev[k], id) implies t1.contains(id) && stopped_bits(
            f.stopped@,
            f.stopped@.len(),
        ).contains(id) && !frame_step(st, f).0.touching.contains(id) by {
        assert(ends_touch(z.1[k - pre.len()], id));
    }
}

/// A frame starts a touch only for a started input method that is in contact, and moves a
/// touch only for an input method that touches the window once the frame's starts are in.
pub proof fn law_touch_starts_and_moves(st: InputStateView, f: FrameInput)
    ensures
        forall|k: int, id: u64|
            0 <= k < frame_step(st, f).1.len() && #[trigger] starts_touch(
                frame_step(st, f).1[k],
                id,
            ) ==> contact_bits(f.started@, f.started@.len()).contains(id),
        forall|k: int, id: u64|
            0 <= k < frame_step(st, f).1.len() && #[trigger] moves_touch(
                frame_step(st, f).1[k],
                id,
            ) ==> touching_after_start(st, f).contains(id),
{
    let t1 = touching_after_start(st, f);
    let gone = if f.hover_set_empty {
        seq![WindowEvent::PointerGone]
    } else {
        Seq::<WindowEvent>::empty()
    };
    let c = cursor_events(st, f.hovering@);
    let a = started_events(f.started@, f.started@.len());
    let m = acting_events(t1, f.acting@, f.acting@.len());
    let z = stopped_fold(t1, f.stopped@, f.stopped@.len());
    lemma_hover_events_shape(st, f.hovering@);
    lemma_started_events_shape(f.started@, f.started@.len());
    lemma_acting_events_shape(t1, f.acting@, f.acting@.len());
    lemma_stopped_fold_shape(t1, f.stopped@, f.stopped@.len());
    let ev = frame_step(st, f).1;
    let g = gone + c;
    let ga = g + a;
    let gam = ga + m;
    assert(ev == gam + z.1);
    assert forall|k: int, id: u64|
        0 <= k < ev.len() && #[trigger] starts_touch(ev[k], id) implies contact_bits(
            f.started@,
            f.started@.len(),
        ).contains(id) by {
        if k < gone.len() {
            assert(ev[k] == gone[k]);
        } else if k < g.len() {
            assert(ev[k] == c[k - gone.len()]);
        } else if k < ga.len() {
            assert(ev[k] == a[k - g.len()]);
        } else if k < gam.len() {
            assert(ev[k] == m[k - ga.len()]);
        } else {
            assert(ev[k] == z.1[k - gam.len()]);
        }
    }
    assert forall|k: int, id: u64|
        0 <= k < ev.len() && #[trigger] moves_touch(ev[k], id) implies t1.contains(id) by {
        if k < gone.len() {
            assert(ev[k] == gone[k]);
        } else if k < g.len() {
            assert(ev[k] == c[k - gone.len()]);
        } else if k < ga.len() {
            assert(ev[k] == a[k - g.len()]);
        } else if k < gam.len() {
            assert(ev[k] == m[k - ga.len()]);
        } else {
            assert(ev[k] == z.1[k - gam.len()]);
        }
    }
}

/// A frame reports that the pointer is gone exactly when no input method hovers the
/// window, and then as its first event.
pub proof fn law_pointer_gone_first(st: InputStateView, f: FrameInput)
    ensures
        (exists|k: int|
            0 <= k < frame_step(st, f).1.len() && #[trigger] frame_step(st, f).1[k]
                == WindowEvent::PointerGone) <==> f.hover_set_empty,
        f.hover_set_empty ==> frame_step(st, f).1[0] == WindowEvent::PointerGone,
{
    let t1 = touching_after_start(st, f);
    let gone = if f.hover_set_empty {
        seq![WindowEvent::PointerGone]
    } else {
        Seq::<WindowEvent>::empty()
    };
    let c = cursor_events(st, f.hovering@);
    let a = started_events(f.started@, f.started@.len());
    let m = acting_events(t1, f.acting@, f.acting@.len());
    let z = stopped_fold(t1, f.stopped@, f.stopped@.len());
    lemma_hover_events_shape(st, f.hovering@);
    lemma_started_events_shape(f.started@, f.started@.len());
    lemma_acting_events_shape(t1, f.acting@, f.acting@.len());
    lemma_stopped_fold_shape(t1, f.stopped@, f.stopped@.len());
    let ev = frame_step(st, f).1;
    let g = gone + c;
    let ga = g + a;
    let gam = ga + m;
    assert(ev == gam + z.1);
    if f.hover_set_empty {
        assert(ev[0] == WindowEvent::PointerGone);
    } else {
        assert forall|k: int| 0 <= k < ev.len() implies #[trigger] ev[k] != WindowEvent::PointerGone by {
            if k < g.len() {
                assert(ev[k] == c[k]);
            } else if k < ga.len() {
                assert(ev[k] == a[k - g.len()]);
            } else if k < gam.len() {
                assert(ev[k] == m[k - ga.len()]);
            } else {
                assert(ev[k] == z.1[k - gam.len()]);
            }
        }
    }
}

// ---------------------------------------------------------------------------------------
// Touches are bracketed across frames
// ---------------------------------------------------------------------------------------

/// The input methods with an open touch after the events `evs`, starting from the open
/// touches `t`: a touch start opens one, a touch end closes it.
pub open spec fn open_after(t: Set<u64>, evs: Seq<WindowEvent>) -> Set<u64>
    decreases evs.len(),
{
    if evs.len() == 0 {
        t
    } else {
        let prev = open_after(t, evs.drop_last());
        match evs.last() {
            WindowEvent::Touch { id, phase: TouchPhase::Start, .. } => prev.insert(id),
            WindowEvent::Touch { id, phase: TouchPhase::End, .. } => prev.remove(id),
            _ => prev,
        }
    }
}

/// The state and the events after a run of frames.
pub open spec fn run_frames(st: InputStateView, frames: Seq<FrameInput>) -> (InputStateView, Seq<
    WindowEvent,
>)
    decreases frames.len(),
{
    if frames.len() == 0 {
        (st, Seq::empty())
    } else {
        let prev = run_frames(st, frames.drop_last());
        let step = frame_step(prev.0, frames.last());
        (step.0, prev.1 + step.1)
    }
}

proof fn lemma_open_after_concat(t: Set<u64>, a: Seq<WindowEvent>, b: Seq<WindowEvent>)
    ensures
        open_after(t, a + b) == open_after(open_after(t, a), b),
    decreases b.len(),
{
    if b.len() > 0 {
        lemma_open_after_concat(t, a, b.drop_last());
        assert((a + b).drop_last() =~= a + b.drop_last());
        assert((a + b).last() == b.last());
    }
}

proof fn lemma_open_after_single(t: Set<u64>, x: WindowEvent)
    ensures
        open_after(t, seq![x]) == match x {
            WindowEvent::Touch { id, phase: TouchPhase::Start, .. } => t.insert(id),
            WindowEvent::Touch { id, phase: TouchPhase::End, .. } => t.remove(id),
            _ => t,
        },
{
    assert(seq![x].drop_last() =~= Seq::<WindowEvent>::empty());
    assert(open_after(t, Seq::<WindowEvent>::empty()) == t);
    assert(seq![x].last() == x);
}

proof fn lemma_open_after_pair(t: Set<u64>, x: WindowEvent, y: WindowEvent)
    ensures
        open_after(t, seq![x, y]) == open_after(open_after(t, seq![x]), seq![y]),
{
    lemma_open_after_concat(t, seq![x], seq![y]);
    assert(seq![x] + seq![y] =~= seq![x, y]);
}

proof fn lemma_open_after_no_touch(t: Set<u64>, evs: Seq<WindowEvent>)
    requires
        forall|k: int| 0 <= k < evs.len() ==> !(#[trigger] evs[k] is Touch),
    ensures
        forall|k: int| 0 <= k <= evs.len() ==> #[trigger] open_after(t, evs.take(k)) == t,
    decreases evs.len(),
{
    if evs.len() > 0 {
        let d = evs.drop_last();
        lemma_open_after_no_touch(t, d);
        assert forall|k: int| 0 <= k <= evs.len() implies #[trigger] open_after(t, evs.take(k)) == t by {
            if k < evs.len() {
                assert(evs.take(k) =~= d.take(k));
            } else {
                assert(evs.take(k) =~= evs);
                assert(d.take(d.len() as int) =~= d);
                let x = evs[evs.len() - 1];
                assert(open_after(t, evs) == open_after(t, d));
            }
        }
    }
}

proof fn lemma_cursor_events_no_touch(st: InputStateView, h: Seq<HoverSample>)
    ensures
        forall|k: int|
            0 <= k < cursor_events(st, h).len() ==> !(#[trigger] cursor_events(st, h)[k] is Touch),
{
    match closest(h) {
        Some(i) => {
            let e = cursor_events(st, h);
            let s = h[i];
            let p1 = seq![WindowEvent::PointerMoved(PointSource::Cursor)];
            let p2 = button_events(PointerButton::Primary, s.select, st.left_clicked);
            let p3 = button_events(PointerButton::Secondary, s.secondary, st.right_clicked);
            let p4 = button_events(PointerButton::Middle, s.context, st.middle_clicked);
            let p5 = if s.scrolling {
                seq![WindowEvent::MouseWheel]
            } else {
                Seq::<WindowEvent>::empty()
            };
            assert(e == p1 + p2 + p3 + p4 + p5);
        },
        None => {},
    }
}

proof fn lemma_started_events_open(t: Set<u64>, s: Seq<StartedSample>, n: nat)
    ensures
        open_after(t, started_events(s, n)) == t.union(contact_bits(s, n)),
    decreases n,
{
    if n > 0 {
        let m = (n - 1) as nat;
        lemma_started_events_open(t, s, m);
        if s[n - 1].in_contact {
            let at = PointSource::Started((n - 1) as usize);
            let x = WindowEvent::Touch {
                id: entity_bits(s[n - 1].input_method),
                phase: TouchPhase::Start,
                at,
            };
            let y = WindowEvent::PointerButton { at, button: PointerButton::Primary, pressed: true };
            lemma_open_after_concat(t, started_events(s, m), seq![x, y]);
            lemma_open_after_pair(open_after(t, started_events(s, m)), x, y);
            lemma_open_after_single(open_after(t, started_events(s, m)), x);
            lemma_open_after_single(open_after(open_after(t, started_events(s, m)), seq![x]), y);
            assert(open_after(t, started_events(s, n)) =~= t.union(contact_bits(s, n)));
        }
    }
}

proof fn lemma_acting_events_open(t: Set<u64>, a: Seq<Entity>, n: nat)
    ensures
        forall|k: int|
            0 <= k <= acting_events(t, a, n).len() ==> #[trigger] open_after(
                t,
                acting_events(t, a, n).take(k),
            ) == t,
    decreases n,
{
    let e = acting_events(t, a, n);
    lemma_acting_events_shape(t, a, n);
    assert forall|k: int| 0 <= k < e.len() implies !(#[trigger] e[k] is Touch) || e[k]->phase
        == TouchPhase::Move by {
        if e[k] is Touch {
            let id = e[k]->id;
            assert(!starts_touch(e[k], id));
            assert(!ends_touch(e[k], id));
        }
    }
    lemma_open_after_moves_only(t, e);
}

proof fn lemma_open_after_moves_only(t: Set<u64>, evs: Seq<WindowEvent>)
    requires
        forall|k: int|
            0 <= k < evs.len() ==> !(#[trigger] evs[k] is Touch) || evs[k]->phase
                == TouchPhase::Move,
    ensures
        forall|k: int| 0 <= k <= evs.len() ==> #[trigger] open_after(t, evs.take(k)) == t,
    decreases evs.len(),
{
    if evs.len() > 0 {
        let d = evs.drop_last();
        lemma_open_after_moves_only(t, d);
        assert forall|k: int| 0 <= k <= evs.len() implies #[trigger] open_after(t, evs.take(k)) == t by {
            if k < evs.len() {
                assert(evs.take(k) =~= d.take(k));
            } else {
                assert(evs.take(k) =~= evs);
                assert(d.take(d.len() as int) =~= d);
                let x = evs[evs.len() - 1];
                assert(open_after(t, evs) == open_after(t, d));
            }
        }
    }
}

proof fn lemma_stopped_fold_open(t: Set<u64>, s: Seq<Entity>, n: nat)
    ensures
        open_after(t, stopped_fold(t, s, n).1) == stopped_fold(t, s, n).0,
        forall|k: int, id: u64|
            0 <= k < stopped_fold(t, s, n).1.len() && #[trigger] ends_touch(
                stopped_fold(t, s, n).1[k],
                id,
            ) ==> open_after(t, stopped_fold(t, s, n).1.take(k)).contains(id),
    decreases n,
{
    if n > 0 {
        let m = (n - 1) as nat;
        lemma_stopped_fold_open(t, s, m);
        let prev = stopped_fold(t, s, m);
        let b = entity_bits(s[n - 1]);
        if prev.0.contains(b) {
            let cur = stopped_fold(t, s, n);
            let at = PointSource::Stopped((n - 1) as usize);
            let x = WindowEvent::Touch { id: b, phase: TouchPhase::End, at };
            let y = WindowEvent::PointerButton { at, button: PointerButton::Primary, pressed: false };
            assert(cur.1 == prev.1 + seq![x, y]);
            lemma_open_after_concat(t, prev.1, seq![x, y]);
            lemma_open_after_pair(prev.0, x, y);
            lemma_open_after_single(prev.0, x);
            lemma_open_after_single(prev.0.remove(b), y);
            assert forall|k: int, id: u64|
                0 <= k < cur.1.len() && #[trigger] ends_touch(cur.1[k], id) implies open_after(
                t,
                cur.1.take(k),
            ).contains(id) by {
                if k < prev.1.len() {
                    assert(cur.1[k] == prev.1[k]);
                    assert(cur.1.take(k) =~= prev.1.take(k));
                } else if k == prev.1.len() {
                    assert(cur.1.take(k) =~= prev.1);
                } else {
                    assert(cur.1[k] == y);
                }
            }
        }
    }
}

/// The events of a frame before its acting part: pointer gone, cursor, started touches.
pub open spec fn events_before_acting(st: InputStateView, f: FrameInput) -> Seq<WindowEvent> {
    let gone = if f.hover_set_empty {
        seq![WindowEvent::PointerGone]
    } else {
        Seq::empty()
    };
    gone + cursor_events(st, f.hovering@) + started_events(f.started@, f.started@.len())
}

/// The events of a frame before its stopped part.
pub open spec fn events_before_stopping(st: InputStateView, f: FrameInput) -> Seq<WindowEvent> {
    events_before_acting(st, f) + acting_events(
        touching_after_start(st, f),
        f.acting@,
        f.acting@.len(),
    )
}

pub(crate) proof fn lemma_frame_events_split(st: InputStateView, f: FrameInput)
    ensures
        frame_step(st, f).1 == events_before_stopping(st, f) + stopped_fold(
            touching_after_start(st, f),
            f.stopped@,
            f.stopped@.len(),
        ).1,
{
}

proof fn lemma_before_acting_open(st: InputStateView, f: FrameInput)
    ensures
        open_after(st.touching, events_before_acting(st, f)) == touching_after_start(st, f),
        forall|k: int, id: u64|
            0 <= k < events_before_acting(st, f).len() ==> !#[trigger] ends_touch(
                events_before_acting(st, f)[k],
                id,
            ),
        forall|k: int, id: u64|
            0 <= k < events_before_acting(st, f).len() ==> !#[trigger] moves_touch(
                events_before_acting(st, f)[k],
                id,
            ),
{
    let t0 = st.touching;
    let gone = if f.hover_set_empty {
        seq![WindowEvent::PointerGone]
    } else {
        Seq::<WindowEvent>::empty()
    };
    let c = cursor_events(st, f.hovering@);
    let a = started_events(f.started@, f.started@.len());
    let g = gone + c;
    let ga = events_before_acting(st, f);
    assert(ga == g + a);
    lemma_cursor_events_no_touch(st, f.hovering@);
    assert forall|k: int| 0 <= k < g.len() implies !(#[trigger] g[k] is Touch) by {
        if k < gone.len() {
            assert(g[k] == gone[k]);
        } else {
            assert(g[k] == c[k - gone.len()]);
        }
    }
    lemma_open_after_no_touch(t0, g);
    assert(g.take(g.len() as int) =~= g);
    lemma_started_events_open(t0, f.started@, f.started@.len());
    lemma_open_after_concat(t0, g, a);
    lemma_started_events_shape(f.started@, f.started@.len());
    assert forall|k: int, id: u64| 0 <= k < ga.len() implies !#[trigger] ends_touch(ga[k], id)
        && !moves_touch(ga[k], id) by {
        if k < g.len() {
            assert(ga[k] == g[k]);
        } else {
            assert(ga[k] == a[k - g.len()]);
        }
    }
}

proof fn lemma_before_stopping_open(st: InputStateView, f: FrameInput)
    ensures
        open_after(st.touching, events_before_stopping(st, f)) == touching_after_start(st, f),
        forall|k: int, id: u64|
            0 <= k < events_before_stopping(st, f).len() ==> !#[trigger] ends_touch(
                events_before_stopping(st, f)[k],
                id,
            ),
        forall|k: int, id: u64|
            0 <= k < events_before_stopping(st, f).len() && #[trigger] moves_touch(
                events_before_stopping(st, f)[k],
                id,
            ) ==> open_after(st.touching, events_before_stopping(st, f).take(k)).contains(id),
{
    let t0 = st.touching;
    let t1 = touching_after_start(st, f);
    let ga = events_before_acting(st, f);
    let m = acting_events(t1, f.acting@, f.acting@.len());
    let gam = events_before_stopping(st, f);
    assert(gam == ga + m);
    lemma_before_acting_open(st, f);
    lemma_acting_events_open(t1, f.acting@, f.acting@.len());
    lemma_acting_events_shape(t1, f.acting@, f.acting@.len());
    assert(m.take(m.len() as int) =~= m);
    lemma_open_after_concat(t0, ga, m);
    assert forall|k: int, id: u64| 0 <= k < gam.len() implies !#[trigger] ends_touch(gam[k], id) by {
        if k < ga.len() {
            assert(gam[k] == ga[k]);
        } else {
            assert(gam[k] == m[k - ga.len()]);
        }
    }
    assert forall|k: int, id: u64|
        0 <= k < gam.len() && #[trigger] moves_touch(gam[k], id) implies open_after(
        t0,
        gam.take(k),
    ).contains(id) by {
        if k < ga.len() {
            assert(gam[k] == ga[k]);
        } else {
            let k2 = k - ga.len();
            assert(gam[k] == m[k2]);
            assert(gam.take(k) =~= ga + m.take(k2));
            lemma_open_after_concat(t0, ga, m.take(k2));
        }
    }
}

/// Touch events are bracketed: within a frame, a touch ends or moves only while it is
/// open (started and not yet ended, counting from the touches open before the frame), and
/// after the frame the window's touching set is exactly the set of open touches.
pub proof fn law_touches_bracketed(st: InputStateView, f: FrameInput)
    ensures
        open_after(st.touching, frame_step(st, f).1) == frame_step(st, f).0.touching,
        forall|k: int, id: u64|
            0 <= k < frame_step(st, f).1.len() && #[trigger] ends_touch(frame_step(st, f).1[k], id)
                ==> open_after(st.touching, frame_step(st, f).1.take(k)).contains(id),
        forall|k: int, id: u64|
            0 <= k < frame_step(st, f).1.len() && #[trigger] moves_touch(
                frame_step(st, f).1[k],
                id,
            ) ==> open_after(st.touching, frame_step(st, f).1.take(k)).contains(id),
{
    let t0 = st.touching;
    let t1 = touching_after_start(st, f);
    let gam = events_before_stopping(st, f);
    let z = stopped_fold(t1, f.stopped@, f.stopped@.len());
    let ev = frame_step(st, f).1;
    lemma_frame_events_split(st, f);
    lemma_before_stopping_open(st, f);
    lemma_stopped_fold_open(t1, f.stopped@, f.stopped@.len());
    lemma_stopped_fold_shape(t1, f.stopped@, f.stopped@.len());
    lemma_open_after_concat(t0, gam, z.1);
    assert forall|k: int, id: u64|
        0 <= k < ev.len() && #[trigger] ends_touch(ev[k], id) implies open_after(
        t0,
        ev.take(k),
    ).contains(id) by {
        if k < gam.len() {
            assert(ev[k] == gam[k]);
        } else {
            let k2 = k - gam.len();
            assert(ev[k] == z.1[k2]);
            assert(ev.take(k) =~= gam + z.1.take(k2));
            lemma_open_after_concat(t0, gam, z.1.take(k2));
        }
    }
    assert forall|k: int, id: u64|
        0 <= k < ev.len() && #[trigger] moves_touch(ev[k], id) implies open_after(
        t0,
        ev.take(k),
    ).contains(id) by {
        if k < gam.len() {
            assert(ev[k] == gam[k]);
            assert(ev.take(k) =~= gam.take(k));
        } else {
            assert(ev[k] == z.1[k - gam.len()]);
        }
    }
}

/// Over any run of frames, the window's touching set is exactly the set of touches opened
/// and not yet closed by the events it has reported, counted from the touches open at the
/// start of the run (none, for a fresh window).
pub proof fn law_touching_is_open_touches(st: InputStateView, frames: Seq<FrameInput>)
    ensures
        run_frames(st, frames).0.touching == open_after(st.touching, run_frames(st, frames).1),
    decreases frames.len(),
{
    if frames.len() > 0 {
        let prev = run_frames(st, frames.drop_last());
        law_touching_is_open_touches(st, frames.drop_last());
        law_touches_bracketed(prev.0, frames.last());
        lemma_open_after_concat(st.touching, prev.1, frame_step(prev.0, frames.last()).1);
    }
}

} // verus!

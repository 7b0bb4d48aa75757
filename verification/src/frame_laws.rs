//! Laws that say, in terms of a frame's inputs alone, which events a frame must report:
//! the cursor follows the closest eligible hover whatever else acts, every input method
//! that comes into contact starts a touch, every touching one that acts moves it, and
//! every touching one that stops ends it.
use crate::entity_set::entity_bits;
use crate::window_input::{
    acting_events, button_events, closest, cursor_events, events_before_stopping, frame_step,
    has_eligible, is_closest, lemma_closest_unique, lemma_frame_events_split,
    lemma_stopped_fold_shape, law_touching_after_frame, started_events, stopped_bits,
    stopped_fold, touching_after_start, contact_bits, FrameInput, InputStateView, PointSource,
    PointerButton, StartedSample, TouchPhase, WindowEvent,
};
use bevy::ecs::entity::Entity;
use vstd::prelude::*;

verus! {

/// `x` is immediately followed by `y` somewhere in `ev`.
pub open spec fn has_pair(ev: Seq<WindowEvent>, x: WindowEvent, y: WindowEvent) -> bool {
    exists|k: int| 0 <= k && k + 1 < ev.len() && #[trigger] ev[k] == x && ev[k + 1] == y
}

/// A pointer button event at the cursor.
pub open spec fn cursor_button(button: PointerButton, pressed: bool) -> WindowEvent {
    WindowEvent::PointerButton { at: PointSource::Cursor, button, pressed }
}

/// A primary button event at the given point.
pub open spec fn primary_at(at: PointSource, pressed: bool) -> WindowEvent {
    WindowEvent::PointerButton { at, button: PointerButton::Primary, pressed }
}

/// A touch event.
pub open spec fn touch(id: u64, phase: TouchPhase, at: PointSource) -> WindowEvent {
    WindowEvent::Touch { id, phase, at }
}

/// The event belongs to the cursor: a move or a button at the cursor, or a wheel.
pub open spec fn is_cursor_event(e: WindowEvent) -> bool {
    ||| e == WindowEvent::PointerMoved(PointSource::Cursor)
    ||| (e matches WindowEvent::PointerButton { at: PointSource::Cursor, .. })
    ||| e == WindowEvent::MouseWheel
}

/// Some started input method among the frame's is in contact and has the bits `b`.
pub open spec fn comes_into_contact(f: FrameInput, b: u64) -> bool {
    exists|k: int|
        0 <= k < f.started@.len() && f.started@[k].in_contact && entity_bits(
            #[trigger] f.started@[k].input_method,
        ) == b
}

/// Some stopped input method among the first `n` of the frame's has the bits `b`.
pub open spec fn stops_among(s: Seq<Entity>, n: int, b: u64) -> bool {
    exists|k: int| 0 <= k < n && entity_bits(#[trigger] s[k]) == b
}

// ---------------------------------------------------------------------------------------
// Sequence helpers
// ---------------------------------------------------------------------------------------

proof fn lemma_contains_concat(a: Seq<WindowEvent>, b: Seq<WindowEvent>, x: WindowEvent)
    ensures
        (a + b).contains(x) <==> a.contains(x) || b.contains(x),
{
    if a.contains(x) {
        let k = choose|k: int| 0 <= k < a.len() && a[k] == x;
        assert((a + b)[k] == x);
    }
    if b.contains(x) {
        let k = choose|k: int| 0 <= k < b.len() && b[k] == x;
        assert((a + b)[a.len() + k] == x);
    }
    if (a + b).contains(x) {
        let k = choose|k: int| 0 <= k < (a + b).len() && (a + b)[k] == x;
        if k < a.len() {
            assert(a[k] == x);
        } else {
            assert(b[k - a.len()] == x);
        }
    }
}

proof fn lemma_pair_prefix(a: Seq<WindowEvent>, b: Seq<WindowEvent>, x: WindowEvent, y: WindowEvent)
    requires
        has_pair(a, x, y),
    ensures
        has_pair(a + b, x, y),
{
    let k = choose|k: int| 0 <= k && k + 1 < a.len() && #[trigger] a[k] == x && a[k + 1] == y;
    assert((a + b)[k] == x && (a + b)[k + 1] == y);
}

proof fn lemma_pair_suffix(a: Seq<WindowEvent>, b: Seq<WindowEvent>, x: WindowEvent, y: WindowEvent)
    requires
        has_pair(b, x, y),
    ensures
        has_pair(a + b, x, y),
{
    let k = choose|k: int| 0 <= k && k + 1 < b.len() && #[trigger] b[k] == x && b[k + 1] == y;
    assert((a + b)[a.len() + k] == x && (a + b)[a.len() + k + 1] == y);
}

proof fn lemma_pair_end(a: Seq<WindowEvent>, x: WindowEvent, y: WindowEvent)
    ensures
        has_pair(a + seq![x, y], x, y),
{
    let e = a + seq![x, y];
    assert(e[a.len() as int] == x && e[a.len() + 1int] == y);
}

proof fn lemma_no_cursor_single(x: WindowEvent)
    requires
        !is_cursor_event(x),
    ensures
        forall|k: int| 0 <= k < seq![x].len() ==> !is_cursor_event(#[trigger] seq![x][k]),
{
    assert forall|k: int| 0 <= k < seq![x].len() implies !is_cursor_event(#[trigger] seq![x][k]) by {
        assert(seq![x][k] == x);
    }
}

proof fn lemma_no_cursor_contains(a: Seq<WindowEvent>, x: WindowEvent)
    requires
        forall|k: int| 0 <= k < a.len() ==> !is_cursor_event(#[trigger] a[k]),
        is_cursor_event(x),
    ensures
        !a.contains(x),
{
}

// ---------------------------------------------------------------------------------------
// The parts of a frame
// ---------------------------------------------------------------------------------------

proof fn lemma_started_no_cursor(s: Seq<StartedSample>, n: nat)
    ensures
        forall|k: int|
            0 <= k < started_events(s, n).len() ==> !is_cursor_event(
                #[trigger] started_events(s, n)[k],
            ),
    decreases n,
{
    if n > 0 {
        let m = (n - 1) as nat;
        lemma_started_no_cursor(s, m);
        let e = started_events(s, n);
        let p = started_events(s, m);
        assert forall|k: int| 0 <= k < e.len() implies !is_cursor_event(#[trigger] e[k]) by {
            if k < p.len() {
                assert(e[k] == p[k]);
            }
        }
    }
}

proof fn lemma_acting_no_cursor(t: Set<u64>, a: Seq<Entity>, n: nat)
    ensures
        forall|k: int|
            0 <= k < acting_events(t, a, n).len() ==> !is_cursor_event(
                #[trigger] acting_events(t, a, n)[k],
            ),
    decreases n,
{
    if n > 0 {
        let m = (n - 1) as nat;
        lemma_acting_no_cursor(t, a, m);
        let e = acting_events(t, a, n);
        let p = acting_events(t, a, m);
        assert forall|k: int| 0 <= k < e.len() implies !is_cursor_event(#[trigger] e[k]) by {
            if k < p.len() {
                assert(e[k] == p[k]);
            }
        }
    }
}

proof fn lemma_stopped_no_cursor(t: Set<u64>, s: Seq<Entity>, n: nat)
    ensures
        forall|k: int|
            0 <= k < stopped_fold(t, s, n).1.len() ==> !is_cursor_event(
                #[trigger] stopped_fold(t, s, n).1[k],
            ),
    decreases n,
{
    if n > 0 {
        let m = (n - 1) as nat;
        lemma_stopped_no_cursor(t, s, m);
        let e = stopped_fold(t, s, n).1;
        let p = stopped_fold(t, s, m).1;
        assert forall|k: int| 0 <= k < e.len() implies !is_cursor_event(#[trigger] e[k]) by {
            if k < p.len() {
                assert(e[k] == p[k]);
            }
        }
    }
}

proof fn lemma_started_pair(s: Seq<StartedSample>, n: nat, j: usize)
    requires
        j < n <= s.len(),
        s[j as int].in_contact,
    ensures
        has_pair(
            started_events(s, n),
            touch(
                entity_bits(s[j as int].input_method),
                TouchPhase::Start,
                PointSource::Started(j),
            ),
            primary_at(PointSource::Started(j), true),
        ),
    decreases n,
{
    let m = (n - 1) as nat;
    let x = touch(entity_bits(s[j as int].input_method), TouchPhase::Start, PointSource::Started(j));
    let y = primary_at(PointSource::Started(j), true);
    if j == m {
        assert(started_events(s, n) == started_events(s, m) + seq![x, y]);
        lemma_pair_end(started_events(s, m), x, y);
    } else {
        lemma_started_pair(s, m, j);
        if s[m as int].in_contact {
            let at = PointSource::Started(m as usize);
            lemma_pair_prefix(
                started_events(s, m),
                seq![
                    touch(entity_bits(s[m as int].input_method), TouchPhase::Start, at),
                    primary_at(at, true),
                ],
                x,
                y,
            );
        }
    }
}

proof fn lemma_acting_pair(t: Set<u64>, a: Seq<Entity>, n: nat, j: usize)
    requires
        j < n <= a.len(),
        t.contains(entity_bits(a[j as int])),
    ensures
        has_pair(
            acting_events(t, a, n),
            touch(entity_bits(a[j as int]), TouchPhase::Move, PointSource::Acting(j)),
            WindowEvent::PointerMoved(PointSource::Acting(j)),
        ),
    decreases n,
{
    let m = (n - 1) as nat;
    let x = touch(entity_bits(a[j as int]), TouchPhase::Move, PointSource::Acting(j));
    let y = WindowEvent::PointerMoved(PointSource::Acting(j));
    if j == m {
        assert(acting_events(t, a, n) == acting_events(t, a, m) + seq![x, y]);
        lemma_pair_end(acting_events(t, a, m), x, y);
    } else {
        lemma_acting_pair(t, a, m, j);
        if t.contains(entity_bits(a[m as int])) {
            let at = PointSource::Acting(m as usize);
            lemma_pair_prefix(
                acting_events(t, a, m),
                seq![
                    touch(entity_bits(a[m as int]), TouchPhase::Move, at),
                    WindowEvent::PointerMoved(at),
                ],
                x,
                y,
            );
        }
    }
}

proof fn lemma_stopped_bits_are_stopped(s: Seq<Entity>, n: nat, b: u64)
    requires
        n <= s.len(),
    ensures
        stopped_bits(s, n).contains(b) <==> stops_among(s, n as int, b),
    decreases n,
{
    if n > 0 {
        let m = (n - 1) as nat;
        lemma_stopped_bits_are_stopped(s, m, b);
        if stops_among(s, n as int, b) && !stops_among(s, m as int, b) {
            let k = choose|k: int| 0 <= k < n && entity_bits(#[trigger] s[k]) == b;
            assert(k == m);
        }
        if stops_among(s, m as int, b) {
            let k = choose|k: int| 0 <= k < m && entity_bits(#[trigger] s[k]) == b;
            assert(entity_bits(s[k]) == b);
        }
        if entity_bits(s[m as int]) == b {
            assert(entity_bits(s[m as int]) == b);
        }
    }
}

proof fn lemma_stopped_pair(t: Set<u64>, s: Seq<Entity>, n: nat, j: usize)
    requires
        j < n <= s.len(),
        t.contains(entity_bits(s[j as int])),
        !stops_among(s, j as int, entity_bits(s[j as int])),
    ensures
        has_pair(
            stopped_fold(t, s, n).1,
            touch(entity_bits(s[j as int]), TouchPhase::End, PointSource::Stopped(j)),
            primary_at(PointSource::Stopped(j), false),
        ),
    decreases n,
{
    let m = (n - 1) as nat;
    let b = entity_bits(s[j as int]);
    let x = touch(b, TouchPhase::End, PointSource::Stopped(j));
    let y = primary_at(PointSource::Stopped(j), false);
    if j == m {
        lemma_stopped_fold_shape(t, s, m);
        lemma_stopped_bits_are_stopped(s, m, b);
        assert(stopped_fold(t, s, m).0.contains(b));
        assert(stopped_fold(t, s, n).1 == stopped_fold(t, s, m).1 + seq![x, y]);
        lemma_pair_end(stopped_fold(t, s, m).1, x, y);
    } else {
        lemma_stopped_pair(t, s, m, j);
        let prev = stopped_fold(t, s, m);
        let c = entity_bits(s[m as int]);
        if prev.0.contains(c) {
            let at = PointSource::Stopped(m as usize);
            lemma_pair_prefix(
                prev.1,
                seq![touch(c, TouchPhase::End, at), primary_at(at, false)],
                x,
                y,
            );
        }
    }
}

// ---------------------------------------------------------------------------------------
// Laws
// ---------------------------------------------------------------------------------------

/// The started input methods counted as coming into contact are exactly those marked in
/// contact.
pub proof fn law_contact_bits_are_in_contact(s: Seq<StartedSample>, n: nat, b: u64)
    requires
        n <= s.len(),
    ensures
        contact_bits(s, n).contains(b) <==> exists|k: int|
            0 <= k < n && s[k].in_contact && entity_bits(#[trigger] s[k].input_method) == b,
    decreases n,
{
    if n > 0 {
        let m = (n - 1) as nat;
        law_contact_bits_are_in_contact(s, m, b);
        if exists|k: int|
            0 <= k < n && s[k].in_contact && entity_bits(#[trigger] s[k].input_method) == b {
            let k = choose|k: int|
                0 <= k < n && s[k].in_contact && entity_bits(#[trigger] s[k].input_method) == b;
            if k < m {
                assert(s[k].in_contact && entity_bits(s[k].input_method) == b);
            }
        }
        if s[m as int].in_contact && entity_bits(s[m as int].input_method) == b {
            assert(s[m as int].in_contact && entity_bits(s[m as int].input_method) == b);
        }
        if exists|k: int|
            0 <= k < m && s[k].in_contact && entity_bits(#[trigger] s[k].input_method) == b {
            let k = choose|k: int|
                0 <= k < m && s[k].in_contact && entity_bits(#[trigger] s[k].input_method) == b;
            assert(s[k].in_contact && entity_bits(s[k].input_method) == b);
        }
    }
}

proof fn lemma_touching_after_start_is(st: InputStateView, f: FrameInput, b: u64)
    ensures
        touching_after_start(st, f).contains(b) <==> st.touching.contains(b) || comes_into_contact(
            f,
            b,
        ),
{
    law_contact_bits_are_in_contact(f.started@, f.started@.len(), b);
    if comes_into_contact(f, b) {
        let k = choose|k: int|
            0 <= k < f.started@.len() && f.started@[k].in_contact && entity_bits(
                #[trigger] f.started@[k].input_method,
            ) == b;
        assert(f.started@[k].in_contact && entity_bits(f.started@[k].input_method) == b);
    }
}

/// The events of a frame other than its cursor part hold no cursor event.
proof fn lemma_cursor_events_only_from_cursor(st: InputStateView, f: FrameInput, x: WindowEvent)
    requires
        is_cursor_event(x),
    ensures
        frame_step(st, f).1.contains(x) <==> cursor_events(st, f.hovering@).contains(x),
{
    let t1 = touching_after_start(st, f);
    let gone = if f.hover_set_empty {
        seq![WindowEvent::PointerGone]
    } else {
        Seq::<WindowEvent>::empty()
    };
    let c = cursor_events(st, f.hovering@);
    let a = started_events(f.started@, f.started@.len());
    let m = acting_events(t1, f.acting@, f.acting@.len());
    let z = stopped_fold(t1, f.stopped@, f.stopped@.len()).1;
    assert(frame_step(st, f).1 == gone + c + a + m + z);
    if f.hover_set_empty {
        lemma_no_cursor_single(WindowEvent::PointerGone);
    }
    lemma_no_cursor_contains(gone, x);
    lemma_started_no_cursor(f.started@, f.started@.len());
    lemma_no_cursor_contains(a, x);
    lemma_acting_no_cursor(t1, f.acting@, f.acting@.len());
    lemma_no_cursor_contains(m, x);
    lemma_stopped_no_cursor(t1, f.stopped@, f.stopped@.len());
    lemma_no_cursor_contains(z, x);
    lemma_contains_concat(gone, c, x);
    lemma_contains_concat(gone + c, a, x);
    lemma_contains_concat(gone + c + a, m, x);
    lemma_contains_concat(gone + c + a + m, z, x);
}

proof fn lemma_button_events_contain(b: PointerButton, curr: bool, last: bool, x: WindowEvent)
    ensures
        button_events(b, curr, last).contains(x) <==> (curr != last && x == cursor_button(b, curr)),
{
    if curr != last {
        assert(button_events(b, curr, last)[0] == cursor_button(b, curr));
    }
}

/// The cursor follows the closest eligible hovering input method, whatever the frame's
/// started, acting and stopped input methods are: the pointer moves to the cursor, each
/// button whose reading differs from the remembered state is reported at the cursor with
/// its new reading (and no other button event at the cursor is), the wheel is reported
/// exactly when it scrolls, and the remembered button states become its readings.
pub proof fn law_cursor_follows_closest(st: InputStateView, f: FrameInput, i: int)
    requires
        is_closest(f.hovering@, i),
    ensures
        frame_step(st, f).0.left_clicked == f.hovering@[i].select,
        frame_step(st, f).0.right_clicked == f.hovering@[i].secondary,
        frame_step(st, f).0.middle_clicked == f.hovering@[i].context,
        frame_step(st, f).1.contains(WindowEvent::PointerMoved(PointSource::Cursor)),
        forall|p: bool|
            #[trigger] frame_step(st, f).1.contains(cursor_button(PointerButton::Primary, p)) <==> (
            f.hovering@[i].select != st.left_clicked && p == f.hovering@[i].select),
        forall|p: bool|
            #[trigger] frame_step(st, f).1.contains(cursor_button(PointerButton::Secondary, p))
                <==> (f.hovering@[i].secondary != st.right_clicked && p
                == f.hovering@[i].secondary),
        forall|p: bool|
            #[trigger] frame_step(st, f).1.contains(cursor_button(PointerButton::Middle, p)) <==> (
            f.hovering@[i].context != st.middle_clicked && p == f.hovering@[i].context),
        frame_step(st, f).1.contains(WindowEvent::MouseWheel) <==> f.hovering@[i].scrolling,
{
    let hs = f.hovering@;
    assert(has_eligible(hs)) by {
        assert(hs[i].eligible);
    }
    let c0 = choose|k: int| is_closest(hs, k);
    lemma_closest_unique(hs, i, c0);
    assert(closest(hs) == Some(i));
    let h = hs[i];
    let c = cursor_events(st, hs);
    let p1 = seq![WindowEvent::PointerMoved(PointSource::Cursor)];
    let p2 = button_events(PointerButton::Primary, h.select, st.left_clicked);
    let p3 = button_events(PointerButton::Secondary, h.secondary, st.right_clicked);
    let p4 = button_events(PointerButton::Middle, h.context, st.middle_clicked);
    let p5 = if h.scrolling {
        seq![WindowEvent::MouseWheel]
    } else {
        Seq::<WindowEvent>::empty()
    };
    assert(c == p1 + p2 + p3 + p4 + p5);
    assert forall|x: WindowEvent| #[trigger] c.contains(x) <==> (p1.contains(x) || p2.contains(x)
        || p3.contains(x) || p4.contains(x) || p5.contains(x)) by {
        lemma_contains_concat(p1, p2, x);
        lemma_contains_concat(p1 + p2, p3, x);
        lemma_contains_concat(p1 + p2 + p3, p4, x);
        lemma_contains_concat(p1 + p2 + p3 + p4, p5, x);
    }
    assert forall|x: WindowEvent| is_cursor_event(x) implies (#[trigger] frame_step(
        st,
        f,
    ).1.contains(x) <==> c.contains(x)) by {
        lemma_cursor_events_only_from_cursor(st, f, x);
    }
    let mv = WindowEvent::PointerMoved(PointSource::Cursor);
    assert(p1[0] == mv);
    assert(c.contains(mv));
    assert(frame_step(st, f).1.contains(mv));
    assert forall|x: WindowEvent| #![all_triggers] true implies (p2.contains(x) <==> (h.select
        != st.left_clicked && x == cursor_button(PointerButton::Primary, h.select))) && (
    p3.contains(x) <==> (h.secondary != st.right_clicked && x == cursor_button(
        PointerButton::Secondary,
        h.secondary,
    ))) && (p4.contains(x) <==> (h.context != st.middle_clicked && x == cursor_button(
        PointerButton::Middle,
        h.context,
    ))) && (p1.contains(x) <==> x == mv) && (p5.contains(x) <==> (h.scrolling && x
        == WindowEvent::MouseWheel)) by {
        lemma_button_events_contain(PointerButton::Primary, h.select, st.left_clicked, x);
        lemma_button_events_contain(PointerButton::Secondary, h.secondary, st.right_clicked, x);
        lemma_button_events_contain(PointerButton::Middle, h.context, st.middle_clicked, x);
        if p1.contains(x) {
            let k = choose|k: int| 0 <= k < p1.len() && p1[k] == x;
            assert(k == 0);
        }
        if x == mv {
            assert(p1[0] == x);
        }
        if p5.contains(x) {
            let k = choose|k: int| 0 <= k < p5.len() && p5[k] == x;
            assert(k == 0);
        }
        if h.scrolling && x == WindowEvent::MouseWheel {
            assert(p5[0] == x);
        }
    }
    assert forall|p: bool|
        #[trigger] frame_step(st, f).1.contains(cursor_button(PointerButton::Primary, p)) <==> (
        h.select != st.left_clicked && p == h.select) by {
        let x = cursor_button(PointerButton::Primary, p);
        assert(frame_step(st, f).1.contains(x) <==> c.contains(x));
        assert(c.contains(x) <==> (p1.contains(x) || p2.contains(x) || p3.contains(x)
            || p4.contains(x) || p5.contains(x)));
    }
    assert forall|p: bool|
        #[trigger] frame_step(st, f).1.contains(cursor_button(PointerButton::Secondary, p)) <==> (
        h.secondary != st.right_clicked && p == h.secondary) by {
        let x = cursor_button(PointerButton::Secondary, p);
        assert(frame_step(st, f).1.contains(x) <==> c.contains(x));
        assert(c.contains(x) <==> (p1.contains(x) || p2.contains(x) || p3.contains(x)
            || p4.contains(x) || p5.contains(x)));
    }
    assert forall|p: bool|
        #[trigger] frame_step(st, f).1.contains(cursor_button(PointerButton::Middle, p)) <==> (
        h.context != st.middle_clicked && p == h.context) by {
        let x = cursor_button(PointerButton::Middle, p);
        assert(frame_step(st, f).1.contains(x) <==> c.contains(x));
        assert(c.contains(x) <==> (p1.contains(x) || p2.contains(x) || p3.contains(x)
            || p4.contains(x) || p5.contains(x)));
    }
    let w = WindowEvent::MouseWheel;
    assert(frame_step(st, f).1.contains(w) <==> c.contains(w));
    assert(c.contains(w) <==> (p1.contains(w) || p2.contains(w) || p3.contains(w) || p4.contains(
        w,
    ) || p5.contains(w)));
}

/// Without an eligible hovering input method, a frame reports no cursor event and keeps
/// the remembered button states.
pub proof fn law_no_cursor_without_eligible(st: InputStateView, f: FrameInput)
    requires
        !has_eligible(f.hovering@),
    ensures
        frame_step(st, f).0.left_clicked == st.left_clicked,
        frame_step(st, f).0.right_clicked == st.right_clicked,
        frame_step(st, f).0.middle_clicked == st.middle_clicked,
        forall|x: WindowEvent| is_cursor_event(x) ==> !#[trigger] frame_step(st, f).1.contains(x),
{
    assert forall|x: WindowEvent| is_cursor_event(x) implies !#[trigger] frame_step(
        st,
        f,
    ).1.contains(x) by {
        lemma_cursor_events_only_from_cursor(st, f, x);
    }
}

/// Every started input method in contact starts a touch with its bits at its index,
/// followed by a primary press there; it touches the window after the frame unless it
/// also stopped in the frame.
pub proof fn law_contact_starts_touch(st: InputStateView, f: FrameInput, j: usize)
    requires
        j < f.started@.len(),
        f.started@[j as int].in_contact,
    ensures
        has_pair(
            frame_step(st, f).1,
            touch(
                entity_bits(f.started@[j as int].input_method),
                TouchPhase::Start,
                PointSource::Started(j),
            ),
            primary_at(PointSource::Started(j), true),
        ),
        !stops_among(
            f.stopped@,
            f.stopped@.len() as int,
            entity_bits(f.started@[j as int].input_method),
        ) ==> frame_step(st, f).0.touching.contains(entity_bits(f.started@[j as int].input_method)),
{
    let b = entity_bits(f.started@[j as int].input_method);
    let x = touch(b, TouchPhase::Start, PointSource::Started(j));
    let y = primary_at(PointSource::Started(j), true);
    let t1 = touching_after_start(st, f);
    let gone = if f.hover_set_empty {
        seq![WindowEvent::PointerGone]
    } else {
        Seq::<WindowEvent>::empty()
    };
    let c = cursor_events(st, f.hovering@);
    let a = started_events(f.started@, f.started@.len());
    let m = acting_events(t1, f.acting@, f.acting@.len());
    let z = stopped_fold(t1, f.stopped@, f.stopped@.len()).1;
    assert(frame_step(st, f).1 == gone + c + a + m + z);
    lemma_started_pair(f.started@, f.started@.len(), j);
    lemma_pair_suffix(gone + c, a, x, y);
    lemma_pair_prefix(gone + c + a, m, x, y);
    lemma_pair_prefix(gone + c + a + m, z, x, y);
    law_touching_after_frame(st, f);
    lemma_touching_after_start_is(st, f, b);
    assert(comes_into_contact(f, b)) by {
        assert(f.started@[j as int].in_contact && entity_bits(f.started@[j as int].input_method)
            == b);
    }
    lemma_stopped_bits_are_stopped(f.stopped@, f.stopped@.len(), b);
}

/// Every acting input method that touches the window (before the frame, or since coming
/// into contact in it) moves its touch at its index, followed by a pointer move there.
pub proof fn law_touching_actor_moves(st: InputStateView, f: FrameInput, j: usize)
    requires
        j < f.acting@.len(),
        st.touching.contains(entity_bits(f.acting@[j as int])) || comes_into_contact(
            f,
            entity_bits(f.acting@[j as int]),
        ),
    ensures
        has_pair(
            frame_step(st, f).1,
            touch(entity_bits(f.acting@[j as int]), TouchPhase::Move, PointSource::Acting(j)),
            WindowEvent::PointerMoved(PointSource::Acting(j)),
        ),
{
    let b = entity_bits(f.acting@[j as int]);
    let x = touch(b, TouchPhase::Move, PointSource::Acting(j));
    let y = WindowEvent::PointerMoved(PointSource::Acting(j));
    let t1 = touching_after_start(st, f);
    let gone = if f.hover_set_empty {
        seq![WindowEvent::PointerGone]
    } else {
        Seq::<WindowEvent>::empty()
    };
    let c = cursor_events(st, f.hovering@);
    let a = started_events(f.started@, f.started@.len());
    let m = acting_events(t1, f.acting@, f.acting@.len());
    let z = stopped_fold(t1, f.stopped@, f.stopped@.len()).1;
    assert(frame_step(st, f).1 == gone + c + a + m + z);
    lemma_touching_after_start_is(st, f, b);
    lemma_acting_pair(t1, f.acting@, f.acting@.len(), j);
    lemma_pair_suffix(gone + c + a, m, x, y);
    lemma_pair_prefix(gone + c + a + m, z, x, y);
}

/// Every stopped input method that touches the window (before the frame, or since coming
/// into contact in it), at its first place in the stopped list, ends its touch there,
/// followed by a primary release there, and no longer touches the window after the frame.
pub proof fn law_touching_actor_stop_ends(st: InputStateView, f: FrameInput, j: usize)
    requires
        j < f.stopped@.len(),
        st.touching.contains(entity_bits(f.stopped@[j as int])) || comes_into_contact(
            f,
            entity_bits(f.stopped@[j as int]),
        ),
        !stops_among(f.stopped@, j as int, entity_bits(f.stopped@[j as int])),
    ensures
        has_pair(
            frame_step(st, f).1,
            touch(entity_bits(f.stopped@[j as int]), TouchPhase::End, PointSource::Stopped(j)),
            primary_at(PointSource::Stopped(j), false),
        ),
        !frame_step(st, f).0.touching.contains(entity_bits(f.stopped@[j as int])),
{
    let b = entity_bits(f.stopped@[j as int]);
    let x = touch(b, TouchPhase::End, PointSource::Stopped(j));
    let y = primary_at(PointSource::Stopped(j), false);
    let t1 = touching_after_start(st, f);
    lemma_touching_after_start_is(st, f, b);
    lemma_stopped_pair(t1, f.stopped@, f.stopped@.len(), j);
    lemma_frame_events_split(st, f);
    lemma_pair_suffix(
        events_before_stopping(st, f),
        stopped_fold(t1, f.stopped@, f.stopped@.len()).1,
        x,
        y,
    );
    law_touching_after_frame(st, f);
    lemma_stopped_bits_are_stopped(f.stopped@, f.stopped@.len(), b);
    assert(stops_among(f.stopped@, f.stopped@.len() as int, b)) by {
        assert(entity_bits(f.stopped@[j as int]) == b);
    }
}

} // verus!

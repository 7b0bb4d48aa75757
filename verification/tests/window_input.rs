use bevy::ecs::entity::Entity;
use bevy_spatial_egui::window_input::{
    closest_hover, update_spatial_window_input, FrameInput, HoverSample, PointSource,
    PointerButton, SpatialEguiState, StartedSample, TouchPhase, WindowEvent,
};

fn hover(eligible: bool, distance_key: u32) -> HoverSample {
    HoverSample {
        eligible,
        distance_key,
        select: false,
        secondary: false,
        context: false,
        scrolling: false,
    }
}

fn empty_frame() -> FrameInput {
    FrameInput {
        hover_set_empty: false,
        hovering: vec![],
        started: vec![],
        acting: vec![],
        stopped: vec![],
    }
}

#[test]
fn fresh_state_touches_nothing() {
    let s = SpatialEguiState::default();
    assert!(s.touching.is_empty());
    assert!(!s.left_clicked && !s.right_clicked && !s.middle_clicked);
}

#[test]
fn pointer_gone_when_nothing_hovers() {
    let mut s = SpatialEguiState::default();
    let mut f = empty_frame();
    f.hover_set_empty = true;
    assert_eq!(update_spatial_window_input(&mut s, &f), vec![WindowEvent::PointerGone]);
}

#[test]
fn quiet_frame_reports_nothing() {
    let mut s = SpatialEguiState::default();
    assert_eq!(update_spatial_window_input(&mut s, &empty_frame()), vec![]);
}

#[test]
fn closest_is_least_distance_last_among_ties() {
    assert_eq!(closest_hover(&vec![]), None);
    assert_eq!(closest_hover(&vec![hover(false, 1), hover(false, 0)]), None);
    assert_eq!(closest_hover(&vec![hover(true, 5), hover(true, 3), hover(false, 1)]), Some(1));
    assert_eq!(closest_hover(&vec![hover(true, 3), hover(true, 7), hover(true, 3)]), Some(2));
    assert_eq!(closest_hover(&vec![hover(true, 2), hover(true, 3)]), Some(0));
}

#[test]
fn cursor_press_and_release() {
    let mut s = SpatialEguiState::default();
    let mut f = empty_frame();
    let mut h = hover(true, 10);
    h.select = true;
    f.hovering = vec![hover(true, 20), h];
    assert_eq!(
        update_spatial_window_input(&mut s, &f),
        vec![
            WindowEvent::PointerMoved(PointSource::Cursor),
            WindowEvent::PointerButton {
                at: PointSource::Cursor,
                button: PointerButton::Primary,
                pressed: true
            },
        ]
    );
    assert!(s.left_clicked);
    // held: only the move
    assert_eq!(
        update_spatial_window_input(&mut s, &f),
        vec![WindowEvent::PointerMoved(PointSource::Cursor)]
    );
    f.hovering = vec![hover(true, 10)];
    assert_eq!(
        update_spatial_window_input(&mut s, &f),
        vec![
            WindowEvent::PointerMoved(PointSource::Cursor),
            WindowEvent::PointerButton {
                at: PointSource::Cursor,
                button: PointerButton::Primary,
                pressed: false
            },
        ]
    );
    assert!(!s.left_clicked);
}

#[test]
fn all_buttons_and_scroll() {
    let mut s = SpatialEguiState::default();
    s.right_clicked = true;
    let mut f = empty_frame();
    let mut h = hover(true, 0);
    h.select = true;
    h.secondary = false;
    h.context = true;
    h.scrolling = true;
    f.hovering = vec![h];
    assert_eq!(
        update_spatial_window_input(&mut s, &f),
        vec![
            WindowEvent::PointerMoved(PointSource::Cursor),
            WindowEvent::PointerButton {
                at: PointSource::Cursor,
                button: PointerButton::Primary,
                pressed: true
            },
            WindowEvent::PointerButton {
                at: PointSource::Cursor,
                button: PointerButton::Secondary,
                pressed: false
            },
            WindowEvent::PointerButton {
                at: PointSource::Cursor,
                button: PointerButton::Middle,
                pressed: true
            },
            WindowEvent::MouseWheel,
        ]
    );
    assert!(s.left_clicked && !s.right_clicked && s.middle_clicked);
}

#[test]
fn buttons_kept_without_eligible_cursor() {
    let mut s = SpatialEguiState::default();
    s.left_clicked = true;
    let mut f = empty_frame();
    f.hovering = vec![hover(false, 0)];
    assert_eq!(update_spatial_window_input(&mut s, &f), vec![]);
    assert!(s.left_clicked);
}

#[test]
fn touch_lifecycle() {
    let a = Entity::from_raw(7);
    let b = Entity::from_raw(9);
    let mut s = SpatialEguiState::default();
    let mut f = empty_frame();
    f.started = vec![
        StartedSample { input_method: b, in_contact: false },
        StartedSample { input_method: a, in_contact: true },
    ];
    f.acting = vec![b, a];
    assert_eq!(
        update_spatial_window_input(&mut s, &f),
        vec![
            WindowEvent::Touch { id: a.to_bits(), phase: TouchPhase::Start, at: PointSource::Started(1) },
            WindowEvent::PointerButton {
                at: PointSource::Started(1),
                button: PointerButton::Primary,
                pressed: true
            },
            WindowEvent::Touch { id: a.to_bits(), phase: TouchPhase::Move, at: PointSource::Acting(1) },
            WindowEvent::PointerMoved(PointSource::Acting(1)),
        ]
    );
    assert!(s.touching.contains(&a));
    assert!(!s.touching.contains(&b));
    assert_eq!(s.touching.len(), 1);

    let mut f = empty_frame();
    f.stopped = vec![b, a, a];
    assert_eq!(
        update_spatial_window_input(&mut s, &f),
        vec![
            WindowEvent::Touch { id: a.to_bits(), phase: TouchPhase::End, at: PointSource::Stopped(1) },
            WindowEvent::PointerButton {
                at: PointSource::Stopped(1),
                button: PointerButton::Primary,
                pressed: false
            },
        ]
    );
    assert!(s.touching.is_empty());
}

#[test]
fn touch_started_and_stopped_in_one_frame() {
    let a = Entity::from_raw(3);
    let mut s = SpatialEguiState::default();
    let mut f = empty_frame();
    f.hover_set_empty = true;
    f.started = vec![StartedSample { input_method: a, in_contact: true }];
    f.stopped = vec![a];
    let ev = update_spatial_window_input(&mut s, &f);
    assert_eq!(ev.len(), 5);
    assert_eq!(ev[0], WindowEvent::PointerGone);
    assert_eq!(ev[1], WindowEvent::Touch { id: a.to_bits(), phase: TouchPhase::Start, at: PointSource::Started(0) });
    assert_eq!(ev[3], WindowEvent::Touch { id: a.to_bits(), phase: TouchPhase::End, at: PointSource::Stopped(0) });
    assert!(s.touching.is_empty());
}

#[test]
fn stop_without_touch_is_silent() {
    let a = Entity::from_raw(1);
    let mut s = SpatialEguiState::default();
    let mut f = empty_frame();
    f.acting = vec![a];
    f.stopped = vec![a];
    assert_eq!(update_spatial_window_input(&mut s, &f), vec![]);
}

#[test]
fn touch_id_is_entity_bits() {
    let a = Entity::from_raw(42);
    let mut s = SpatialEguiState::default();
    let mut f = empty_frame();
    f.started = vec![StartedSample { input_method: a, in_contact: true }];
    let ev = update_spatial_window_input(&mut s, &f);
    assert_eq!(ev[0], WindowEvent::Touch { id: a.to_bits(), phase: TouchPhase::Start, at: PointSource::Started(0) });
    assert_ne!(a.to_bits(), 42);
}

use bevy_spatial_egui::edge::check;

#[test]
fn press_is_reported_once() {
    let mut state = false;
    assert_eq!(check(true, &mut state), Some(true));
    assert!(state);
    assert_eq!(check(true, &mut state), None);
    assert!(state);
}

#[test]
fn release_is_reported_once() {
    let mut state = true;
    assert_eq!(check(false, &mut state), Some(false));
    assert!(!state);
    assert_eq!(check(false, &mut state), None);
}

#[test]
fn idle_button_reports_nothing() {
    let mut state = false;
    assert_eq!(check(false, &mut state), None);
    assert!(!state);
}

#[test]
fn edges_alternate_over_a_run() {
    let mut state = false;
    let readings = [true, true, false, true, false, false, true];
    let mut edges = Vec::new();
    for r in readings {
        if let Some(p) = check(r, &mut state) {
            edges.push(p);
        }
    }
    assert_eq!(edges, vec![true, false, true, false, true]);
    assert!(state);
}

use bevy_spatial_egui::event_forwarding::{forwarded_events, is_forwarded, EguiEventKind};

#[test]
fn clipboard_text_and_keys_are_forwarded() {
    assert!(is_forwarded(EguiEventKind::Copy));
    assert!(is_forwarded(EguiEventKind::Cut));
    assert!(is_forwarded(EguiEventKind::Paste));
    assert!(is_forwarded(EguiEventKind::Text));
    assert!(is_forwarded(EguiEventKind::Key));
    assert!(!is_forwarded(EguiEventKind::Other));
}

#[test]
fn forwarded_positions_keep_order() {
    let kinds = vec![
        EguiEventKind::Other,
        EguiEventKind::Text,
        EguiEventKind::Key,
        EguiEventKind::Other,
        EguiEventKind::Paste,
        EguiEventKind::Copy,
        EguiEventKind::Other,
        EguiEventKind::Cut,
    ];
    assert_eq!(forwarded_events(&kinds), vec![1, 2, 4, 5, 7]);
}

#[test]
fn nothing_to_forward() {
    assert_eq!(forwarded_events(&vec![]), Vec::<usize>::new());
    assert_eq!(
        forwarded_events(&vec![EguiEventKind::Other, EguiEventKind::Other]),
        Vec::<usize>::new()
    );
}

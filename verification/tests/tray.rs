use wsrx_desktop::tray::{
    destroy, event_shows_window, install, is_created, layout_for_new_tray, load_icon_pixels,
    localized_labels, menu_action, tray_layout, ClickButton, ClickState, TrayAction, TrayEvent,
    TrayLayout, TrayMenuEntry, TraySlot,
};

const TWO_PIXEL_PNG: [u8; 70] = [
    137, 80, 78, 71, 13, 10, 26, 10, 0, 0, 0, 13, 73, 72, 68, 82, 0, 0, 0, 2, 0, 0, 0, 1, 8, 2,
    0, 0, 0, 123, 64, 232, 221, 0, 0, 0, 13, 73, 68, 65, 84, 120, 156, 99, 248, 207, 0, 4, 255, 1,
    7, 0, 1, 255, 226, 35, 158, 89, 0, 0, 0, 0, 73, 69, 78, 68, 174, 66, 96, 130,
];

#[test]
fn labels_follow_the_ui_language() {
    assert_eq!(localized_labels("zh_CN"), ("显示窗口", "退出"));
    assert_eq!(localized_labels("zh_TW"), ("顯示視窗", "退出"));
    assert_eq!(localized_labels("en_US"), ("Show", "Quit"));
    assert_eq!(localized_labels(""), ("Show", "Quit"));
    assert_eq!(localized_labels("zh_CN "), ("Show", "Quit"));
    assert_eq!(localized_labels("zh"), ("Show", "Quit"));
}

#[test]
fn a_new_slot_holds_no_tray() {
    let slot: TraySlot<u8> = TraySlot::new();
    assert!(!is_created(&slot));
    assert_eq!(menu_action(&slot, "show"), None);
}

#[test]
fn installed_tray_routes_its_menu_entries() {
    let mut slot: TraySlot<u8> = TraySlot::new();
    install(&mut slot, 7, "1001".to_string(), "1002".to_string());
    assert!(is_created(&slot));
    assert_eq!(menu_action(&slot, "1001"), Some(TrayAction::Show));
    assert_eq!(menu_action(&slot, "1002"), Some(TrayAction::Quit));
    assert_eq!(menu_action(&slot, "1003"), None);
    assert_eq!(menu_action(&slot, ""), None);
}

#[test]
fn same_ids_route_to_show_first() {
    let mut slot: TraySlot<u8> = TraySlot::new();
    install(&mut slot, 1, "x".to_string(), "x".to_string());
    assert_eq!(menu_action(&slot, "x"), Some(TrayAction::Show));
}

#[test]
fn destroyed_tray_routes_nothing_and_destroy_repeats_safely() {
    let mut slot: TraySlot<u8> = TraySlot::new();
    install(&mut slot, 7, "a".to_string(), "b".to_string());
    destroy(&mut slot);
    assert!(!is_created(&slot));
    assert_eq!(menu_action(&slot, "a"), None);
    destroy(&mut slot);
    assert!(!is_created(&slot));
}

fn labels(layout: &TrayLayout) -> Vec<Option<(TrayAction, &'static str, bool)>> {
    layout
        .entries
        .iter()
        .map(|e| match e {
            TrayMenuEntry::Item { action, label, enabled } => Some((*action, *label, *enabled)),
            TrayMenuEntry::Separator => None,
        })
        .collect()
}

#[test]
fn creating_again_is_a_no_op() {
    let mut slot: TraySlot<u8> = TraySlot::new();
    let l = layout_for_new_tray(&slot, "zh_TW").expect("no tray exists yet");
    assert_eq!(
        labels(&l),
        vec![Some((TrayAction::Show, "顯示視窗", true)), None, Some((TrayAction::Quit, "退出", true))]
    );
    install(&mut slot, 0, "s".to_string(), "q".to_string());
    assert!(layout_for_new_tray(&slot, "zh_TW").is_none());
    destroy(&mut slot);
    let l = layout_for_new_tray(&slot, "fr").expect("the tray was destroyed");
    assert_eq!(l.entries[0], TrayMenuEntry::Item { action: TrayAction::Show, label: "Show", enabled: true });
}

#[test]
fn only_a_left_release_shows_the_window() {
    let click = |button, state| TrayEvent::Click { button, state };
    assert!(event_shows_window(click(ClickButton::Left, ClickState::Up)));
    assert!(!event_shows_window(click(ClickButton::Left, ClickState::Down)));
    assert!(!event_shows_window(click(ClickButton::Right, ClickState::Up)));
    assert!(!event_shows_window(click(ClickButton::Middle, ClickState::Up)));
    assert!(!event_shows_window(TrayEvent::DoubleClick { button: ClickButton::Left }));
    assert!(!event_shows_window(TrayEvent::Enter));
    assert!(!event_shows_window(TrayEvent::Move));
    assert!(!event_shows_window(TrayEvent::Leave));
}

#[test]
fn tray_history_keeps_the_last_install() {
    let mut slot: TraySlot<u8> = TraySlot::new();
    install(&mut slot, 1, "a".to_string(), "b".to_string());
    destroy(&mut slot);
    assert!(!is_created(&slot));
    install(&mut slot, 2, "c".to_string(), "d".to_string());
    assert!(is_created(&slot));
    assert_eq!(menu_action(&slot, "a"), None);
    assert_eq!(menu_action(&slot, "c"), Some(TrayAction::Show));
}

#[test]
fn icon_pixels_are_decoded_to_rgba() {
    let p = load_icon_pixels(&TWO_PIXEL_PNG).expect("the image decodes");
    assert_eq!(p.width, 2);
    assert_eq!(p.height, 1);
    assert_eq!(p.rgba, vec![255, 0, 0, 255, 0, 0, 255, 255]);
    assert_eq!(p.rgba.len() as u32, 4 * p.width * p.height);
}

#[test]
fn bytes_that_are_no_image_give_no_icon() {
    assert!(load_icon_pixels(&[1, 2, 3, 4]).is_none());
    assert!(load_icon_pixels(&[]).is_none());
    assert!(load_icon_pixels(&TWO_PIXEL_PNG[..40]).is_none());
}

#[test]
fn tray_layout_is_show_separator_quit() {
    let l = tray_layout("zh_CN");
    assert_eq!(
        labels(&l),
        vec![Some((TrayAction::Show, "显示窗口", true)), None, Some((TrayAction::Quit, "退出", true))]
    );
    assert_eq!(l.tooltip, "WebSocket Reflector X");
    assert!(!l.menu_on_left_click);
}

use xhub::floating_ball::{ball_visible, normalize_buttons, trigger_action, DockState, TriggerAction, MAX_BUTTONS};

fn strs(v: &[&str]) -> Vec<String> {
    v.iter().map(|s| s.to_string()).collect()
}

#[test]
fn buttons_are_deduplicated_in_order_and_capped() {
    assert_eq!(
        normalize_buttons(strs(&["a", "b", "a", "c", "b"])),
        strs(&["a", "b", "c"])
    );
    let many = strs(&["1", "2", "3", "4", "5", "6", "7", "8", "9", "10"]);
    assert_eq!(normalize_buttons(many), strs(&["1", "2", "3", "4", "5", "6", "7", "8"]));
    let dups = strs(&["1", "1", "2", "3", "4", "5", "6", "7", "7", "8", "9"]);
    assert_eq!(normalize_buttons(dups).len(), MAX_BUTTONS);
    assert_eq!(normalize_buttons(vec![]), Vec::<String>::new());
}

#[test]
fn ball_shows_when_the_main_window_is_not_visible() {
    assert!(ball_visible(false, false, false));
    assert!(ball_visible(true, true, false));
    assert!(!ball_visible(true, false, false));
    assert!(ball_visible(true, false, true));
}

#[test]
fn ring_actions() {
    assert_eq!(trigger_action("act:clipboard"), TriggerAction::ToggleClipboard);
    assert_eq!(trigger_action("act:main"), TriggerAction::ToggleMainWindow);
    assert_eq!(trigger_action("view:notes"), TriggerAction::ShowMainAndDispatch);
}

#[test]
fn default_dock_state_is_undocked() {
    let d = DockState::default();
    assert!(!d.left && !d.right && !d.top && !d.bottom);
}

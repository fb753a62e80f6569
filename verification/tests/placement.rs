use xhub::placement::{drag_end_center, initial_center, notice_anchor, WorkArea};

const WA: WorkArea = WorkArea { x: 0, y: 0, width: 1920, height: 1040 };

#[test]
fn drag_end_keeps_the_center_on_the_work_area() {
    assert_eq!(drag_end_center(-50, 2000, Some(WA), false, 48), (0, 1040));
    assert_eq!(drag_end_center(500, 400, Some(WA), false, 48), (500, 400));
    assert_eq!(drag_end_center(-50, 2000, None, true, 48), (-50, 2000));
}

#[test]
fn drag_end_docks_near_edges_when_auto_hide_is_on() {
    assert_eq!(drag_end_center(47, 500, Some(WA), true, 48), (0, 500));
    assert_eq!(drag_end_center(48, 500, Some(WA), true, 48), (48, 500));
    assert_eq!(drag_end_center(1900, 1030, Some(WA), true, 48), (1920, 1040));
    assert_eq!(drag_end_center(10, 10, Some(WA), false, 48), (10, 10));
    let tiny = WorkArea { x: 100, y: 100, width: 40, height: 40 };
    assert_eq!(drag_end_center(120, 130, Some(tiny), true, 48), (100, 140));
}

#[test]
fn default_center_is_bottom_right_inside_the_work_area() {
    assert_eq!(initial_center(WA, 24, 7), (1889, 1009));
    let second = WorkArea { x: -1280, y: 200, width: 1280, height: 984 };
    assert_eq!(initial_center(second, 30, 9), (-39, 1145));
}

#[test]
fn notice_window_anchors_to_the_bottom_right() {
    assert_eq!(notice_anchor(WA, 360, 104, 8), (1552, 928));
    let small = WorkArea { x: 10, y: 20, width: 100, height: 50 };
    assert_eq!(notice_anchor(small, 360, 104, 8), (10, 20));
}

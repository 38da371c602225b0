use nexterm_client::drop_target::{compute_drop_target, DropTarget, OsWindowBounds};

fn bounds(id: u32, x: i32, y: i32, w: u32, h: u32) -> OsWindowBounds {
    OsWindowBounds { window_id: id as u64, position: (x, y), size: (w, h) }
}

#[test]
fn same_window_drop_on_tab_bar() {
    let windows = [bounds(1, 100, 100, 800, 600)];
    let result = compute_drop_target((200, 110), 1, &windows);
    assert_eq!(result, DropTarget::SameWindow { window_id: 1 });
}

#[test]
fn same_window_drop_on_pane_area() {
    let windows = [bounds(1, 100, 100, 800, 600)];
    let result = compute_drop_target((200, 200), 1, &windows);
    assert_eq!(result, DropTarget::SameWindow { window_id: 1 });
}

#[test]
fn other_window_drop_on_tab_bar() {
    let windows = [bounds(1, 100, 100, 800, 600), bounds(2, 1000, 100, 800, 600)];
    let result = compute_drop_target((1200, 110), 1, &windows);
    assert_eq!(result, DropTarget::OtherWindowTabBar { window_id: 2 });
}

#[test]
fn no_window_hit_spawns_new_window() {
    let windows = [bounds(1, 100, 100, 800, 600)];
    let result = compute_drop_target((2000, 2000), 1, &windows);
    assert_eq!(result, DropTarget::NewWindow);
}

#[test]
fn empty_os_windows_spawns_new_window() {
    let windows: [OsWindowBounds; 0] = [];
    let result = compute_drop_target((100, 100), 1, &windows);
    assert_eq!(result, DropTarget::NewWindow);
}

#[test]
fn top_left_corner_counts_as_inside() {
    let windows = [bounds(1, 100, 100, 800, 600)];
    let result = compute_drop_target((100, 100), 1, &windows);
    assert_eq!(result, DropTarget::SameWindow { window_id: 1 });
}

#[test]
fn bottom_right_corner_counts_as_outside() {
    let windows = [bounds(1, 100, 100, 800, 600)];
    let result = compute_drop_target((900, 700), 1, &windows);
    assert_eq!(result, DropTarget::NewWindow);
}

#[test]
fn tab_bar_disabled_falls_back_to_pane_area() {
    // The tab bar's extent plays no part in the decision.
    let windows = [OsWindowBounds { window_id: 1, position: (100, 100), size: (800, 600) }];
    let result = compute_drop_target((200, 110), 1, &windows);
    assert_eq!(result, DropTarget::SameWindow { window_id: 1 });
}

#[test]
fn other_window_pane_area_is_provisional_other_window_tab_bar() {
    let windows = [bounds(1, 100, 100, 800, 600), bounds(2, 1000, 100, 800, 600)];
    let result = compute_drop_target((1200, 200), 1, &windows);
    assert_eq!(result, DropTarget::OtherWindowTabBar { window_id: 2 });
}

#[test]
fn overlapping_windows_first_one_wins() {
    let windows = [bounds(1, 100, 100, 800, 600), bounds(2, 100, 100, 800, 600)];
    let result = compute_drop_target((200, 110), 1, &windows);
    assert_eq!(result, DropTarget::SameWindow { window_id: 1 });
}

#[test]
fn negative_coordinates_and_zero_sized_windows() {
    let windows = [bounds(3, -500, -50, 0, 100), bounds(4, -500, -50, 400, 100)];
    assert_eq!(
        compute_drop_target((-500, -50), 1, &windows),
        DropTarget::OtherWindowTabBar { window_id: 4 }
    );
    assert_eq!(compute_drop_target((-101, 49), 1, &windows), DropTarget::OtherWindowTabBar { window_id: 4 });
    assert_eq!(compute_drop_target((-100, 49), 1, &windows), DropTarget::NewWindow);
}

#[test]
fn windows_after_the_hit_are_not_examined() {
    let windows = [bounds(1, 0, 0, 100, 100), bounds(9, i32::MAX - 1, 0, 100, 100)];
    assert_eq!(compute_drop_target((50, 50), 1, &windows), DropTarget::SameWindow { window_id: 1 });
}

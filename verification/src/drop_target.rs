//! Where a dragged tab was dropped: on its own window, on another window, or
//! outside every window (which opens a new one).
//!
//! The decision rests on the windows' outer rectangles alone: a drop on
//! another window counts as a drop on its tab bar whether or not it hit the
//! tab bar, so the tab bar's extent plays no part here.

use vstd::prelude::*;

verus! {

/// Outer rectangle of a window in screen pixels: top-left corner and size.
#[derive(Clone, Copy, Debug, PartialEq, Eq)]
pub struct OsWindowBounds {
    pub window_id: u64,
    pub position: (i32, i32),
    pub size: (u32, u32),
}

/// Where a tab was dropped.
#[derive(Clone, Copy, Debug, PartialEq, Eq, Structural)]
pub enum DropTarget {
    /// Inside the window the tab came from.
    SameWindow { window_id: u64 },
    /// Inside another window (provisionally treated as its tab bar).
    OtherWindowTabBar { window_id: u64 },
    /// Outside every window: open a new one.
    NewWindow,
}

/// The window's right and bottom edges fit in `i32` (the size is read as an
/// `i32`). The search adds them up for every window it reaches, so a window
/// whose edges overflow is only allowed after the one that takes the drop.
pub open spec fn edges_fit(w: OsWindowBounds) -> bool {
    i32::MIN <= w.position.0 + (w.size.0 as i32) <= i32::MAX
        && i32::MIN <= w.position.1 + (w.size.1 as i32) <= i32::MAX
}

/// `(px, py)` lies in the window: left and top edges included, right and
/// bottom edges excluded.
pub open spec fn contains_point(w: OsWindowBounds, px: i32, py: i32) -> bool {
    px >= w.position.0 && px < w.position.0 + (w.size.0 as i32) && py >= w.position.1 && py
        < w.position.1 + (w.size.1 as i32)
}

/// The drop target among the windows from position `k` on: the first window
/// containing the point decides.
pub open spec fn spec_drop_from(drop_pos: (i32, i32), source: u64, windows: Seq<OsWindowBounds>, k: int) -> DropTarget
    decreases windows.len() - k,
{
    if k >= windows.len() || k < 0 {
        DropTarget::NewWindow
    } else if contains_point(windows[k], drop_pos.0, drop_pos.1) {
        if windows[k].window_id == source {
            DropTarget::SameWindow { window_id: windows[k].window_id }
        } else {
            DropTarget::OtherWindowTabBar { window_id: windows[k].window_id }
        }
    } else {
        spec_drop_from(drop_pos, source, windows, k + 1)
    }
}

/// Decide where a tab dragged out of window `source_window_id` was dropped.
/// The windows are tried in order and the first one containing the point
/// wins: the source window gives `SameWindow`, any other window
/// `OtherWindowTabBar`; when none contains it, `NewWindow`.
pub fn compute_drop_target(drop_pos: (i32, i32), source_window_id: u64, os_windows: &[OsWindowBounds]) -> (r: DropTarget)
    requires
        forall|i: int|
            0 <= i < os_windows@.len() && (forall|j: int|
                0 <= j < i ==> !contains_point(#[trigger] os_windows@[j], drop_pos.0, drop_pos.1))
                ==> edges_fit(#[trigger] os_windows@[i]),
    ensures
        r == spec_drop_from(drop_pos, source_window_id, os_windows@, 0),
{
    let (px, py) = drop_pos;
    let mut i: usize = 0;
    while i < os_windows.len()
        invariant
            i <= os_windows@.len(),
            px == drop_pos.0,
            py == drop_pos.1,
            forall|k: int|
                0 <= k < os_windows@.len() && (forall|j: int|
                    0 <= j < k ==> !contains_point(#[trigger] os_windows@[j], drop_pos.0, drop_pos.1))
                    ==> edges_fit(#[trigger] os_windows@[k]),
            forall|j: int| 0 <= j < i ==> !contains_point(#[trigger] os_windows@[j], drop_pos.0, drop_pos.1),
            spec_drop_from(drop_pos, source_window_id, os_windows@, 0) == spec_drop_from(
                drop_pos,
                source_window_id,
                os_windows@,
                i as int,
            ),
        decreases os_windows.len() - i,
    {
        let w = os_windows[i];
        assert(edges_fit(os_windows@[i as int]));
        let (wx, wy) = w.position;
        let (ww, wh) = w.size;
        let right: i32 = wx + ww as i32;
        let bottom: i32 = wy + wh as i32;
        let in_bounds = px >= wx && px < right && py >= wy && py < bottom;
        assert(w == os_windows@[i as int]);
        assert(in_bounds == contains_point(os_windows@[i as int], drop_pos.0, drop_pos.1));
        if in_bounds {
            if w.window_id == source_window_id {
                return DropTarget::SameWindow { window_id: w.window_id };
            } else {
                return DropTarget::OtherWindowTabBar { window_id: w.window_id };
            }
        }
        i = i + 1;
    }
    DropTarget::NewWindow
}

} // verus!

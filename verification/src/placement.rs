//! Placement of the floating ball and of the notification window on a
//! monitor's work area, in physical pixels. The host converts logical sizes
//! with the window's DPI scale and moves the windows.
use vstd::prelude::*;

verus! {

/// Work area of a monitor (the screen minus the taskbar), physical pixels.
#[derive(Clone, Copy, Debug)]
pub struct WorkArea {
    pub x: i32,
    pub y: i32,
    pub width: u32,
    pub height: u32,
}

pub open spec fn right_of(a: WorkArea) -> int {
    a.x + a.width
}

pub open spec fn bottom_of(a: WorkArea) -> int {
    a.y + a.height
}

/// `v.clamp(lo, max(hi, lo))`.
pub open spec fn clamp_to(v: int, lo: int, hi: int) -> int {
    let top = if hi < lo { lo } else { hi };
    if v < lo {
        lo
    } else if v > top {
        top
    } else {
        v
    }
}

/// Auto-hide docking along one axis: a ball released closer than `trigger`
/// to an edge has its center put on that edge (the nearer edge first).
pub open spec fn dock_axis(c: int, lo: int, hi: int, trigger: int) -> int {
    let d_lo = c - lo;
    let d_hi = hi - c;
    if d_lo < trigger && d_lo <= d_hi {
        lo
    } else if d_hi < trigger {
        hi
    } else {
        c
    }
}

/// Where a dragged ball's center settles: kept inside the work area, and
/// docked on an edge when auto-hide is on.
pub open spec fn spec_drag_end_center(
    cx: int,
    cy: int,
    area: Option<WorkArea>,
    auto_hide: bool,
    trigger: int,
) -> (int, int) {
    match area {
        None => (cx, cy),
        Some(a) => {
            let x = clamp_to(cx, a.x as int, right_of(a));
            let y = clamp_to(cy, a.y as int, bottom_of(a));
            if auto_hide {
                (dock_axis(x, a.x as int, right_of(a), trigger), dock_axis(y, a.y as int, bottom_of(a), trigger))
            } else {
                (x, y)
            }
        },
    }
}

fn clamp_exec(v: i64, lo: i64, hi: i64) -> (r: i64)
    ensures
        r == clamp_to(v as int, lo as int, hi as int),
{
    let top = if hi < lo { lo } else { hi };
    if v < lo {
        lo
    } else if v > top {
        top
    } else {
        v
    }
}

fn dock_exec(c: i64, lo: i64, hi: i64, trigger: i64) -> (r: i64)
    requires
        lo <= c <= hi,
        hi - lo <= u32::MAX,
    ensures
        r == dock_axis(c as int, lo as int, hi as int, trigger as int),
        lo <= r <= hi,
{
    let d_lo = c - lo;
    let d_hi = hi - c;
    if d_lo < trigger && d_lo <= d_hi {
        lo
    } else if d_hi < trigger {
        hi
    } else {
        c
    }
}

/// Center of the ball after a drag ends. `cx`, `cy`: its center when
/// released; `area`: the work area of its monitor, when known; `trigger`:
/// the docking distance in physical pixels, rounded up.
pub fn drag_end_center(cx: i64, cy: i64, area: Option<WorkArea>, auto_hide: bool, trigger: i64) -> (r: (
    i64,
    i64,
))
    ensures
        (r.0 as int, r.1 as int) == spec_drag_end_center(cx as int, cy as int, area, auto_hide, trigger as int),
        area matches Some(a) ==> a.x <= r.0 <= right_of(a) && a.y <= r.1 <= bottom_of(a),
{
    match area {
        None => (cx, cy),
        Some(a) => {
            let left = a.x as i64;
            let top = a.y as i64;
            let right = left + a.width as i64;
            let bottom = top + a.height as i64;
            let x = clamp_exec(cx, left, right);
            let y = clamp_exec(cy, top, bottom);
            if auto_hide {
                (dock_exec(x, left, right, trigger), dock_exec(y, top, bottom, trigger))
            } else {
                (x, y)
            }
        },
    }
}

/// Default center of the ball: the bottom-right corner of the primary work
/// area, the ball's edge `gap` pixels inside it.
pub fn initial_center(area: WorkArea, ball_r: i64, gap: i64) -> (r: (i64, i64))
    requires
        0 <= ball_r <= i32::MAX,
        0 <= gap <= i32::MAX,
    ensures
        r.0 == right_of(area) - ball_r - gap,
        r.1 == bottom_of(area) - ball_r - gap,
{
    (area.x as i64 + area.width as i64 - ball_r - gap, area.y as i64 + area.height as i64 - ball_r - gap)
}

/// Top-left corner of the notification window of size `w` x `h`: the
/// bottom-right corner of the work area, `margin` pixels in, but never left
/// of or above the work area.
pub fn notice_anchor(area: WorkArea, w: i64, h: i64, margin: i64) -> (r: (i64, i64))
    requires
        0 <= w <= i32::MAX,
        0 <= h <= i32::MAX,
        0 <= margin <= i32::MAX,
    ensures
        r.0 == (if right_of(area) - w - margin < area.x { area.x as int } else { right_of(area) - w - margin }),
        r.1 == (if bottom_of(area) - h - margin < area.y { area.y as int } else { bottom_of(area) - h - margin }),
        r.0 >= area.x && r.1 >= area.y,
{
    let left = area.x as i64;
    let top = area.y as i64;
    let x = left + area.width as i64 - w - margin;
    let y = top + area.height as i64 - h - margin;
    (if x < left { left } else { x }, if y < top { top } else { y })
}

} // verus!

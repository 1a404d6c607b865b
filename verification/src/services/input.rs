use vstd::prelude::*;
use rand::Rng;
use std::time::Duration;

verus! {

/// Direction in which the camera is moved between two cells.
#[derive(PartialEq, Eq, Structural, Clone, Copy, Debug)]
pub enum CameraDirection {
    Right,
    Left,
    Down,
}

/// Draws a whole number uniformly from `lo..=hi` with the thread-local
/// generator (`rand::Rng::gen_range`). Only the range of the outcome is
/// claimed.
#[verifier::external_body]
fn random_u64_inclusive(lo: u64, hi: u64) -> (r: u64)
    requires
        lo <= hi,
    ensures
        lo <= r <= hi,
{
    rand::thread_rng().gen_range(lo..=hi)
}

/// The `Duration` that `Duration::from_millis` builds from a millisecond count.
pub uninterp spec fn duration_from_millis_spec(ms: u64) -> Duration;

/// `Duration::from_millis`: the duration of `ms` milliseconds.
#[verifier::external_body]
fn duration_from_millis(ms: u64) -> (d: Duration)
    ensures
        d == duration_from_millis_spec(ms),
{
    Duration::from_millis(ms)
}

/// A random pause of 0 to 60 milliseconds (a jitter of plus or minus 30 ms
/// around a 30 ms mean) that makes the input timing look human.
pub fn jitter_30ms() -> (d: Duration)
    ensures
        exists|ms: u64| ms <= 60 && d == duration_from_millis_spec(ms),
{
    let ms = random_u64_inclusive(0, 60);
    duration_from_millis(ms)
}

/// Start and end points of a camera drag (see `calc_drag_coords`).
pub open spec fn drag_coords_spec(
    direction: CameraDirection,
    dx: int,
    dy: int,
    client_left: int,
    client_top: int,
    client_h: int,
    margin_bottom: int,
    margin_left: int,
) -> ((int, int), (int, int)) {
    let base_x = client_left + margin_left;
    let base_y_h = client_top + client_h - margin_bottom;
    let base_y_v = client_top + margin_bottom;
    let drag_x = client_left + dx + margin_left;
    let drag_y = client_top + dy + margin_bottom;
    match direction {
        CameraDirection::Right => ((drag_x, base_y_h), (base_x, base_y_h)),
        CameraDirection::Left => ((base_x, base_y_h), (drag_x, base_y_h)),
        CameraDirection::Down => ((base_x, drag_y), (base_x, base_y_v)),
    }
}

/// The sums that `calc_drag_coords` forms all fit in `i32`.
pub open spec fn drag_coords_fit(
    dx: int,
    dy: int,
    client_left: int,
    client_top: int,
    client_h: int,
    margin_bottom: int,
    margin_left: int,
) -> bool {
    let fits = |v: int| i32::MIN <= v <= i32::MAX;
    &&& fits(client_left + margin_left)
    &&& fits(client_top + client_h)
    &&& fits(client_top + client_h - margin_bottom)
    &&& fits(client_top + margin_bottom)
    &&& fits(client_left + dx)
    &&& fits(client_left + dx + margin_left)
    &&& fits(client_top + dy)
    &&& fits(client_top + dy + margin_bottom)
}

/// Whether `calc_drag_coords` can be called: every sum it forms fits in
/// `i32`.
pub fn drag_coords_fit_check(
    drag_distance: (i32, i32),
    client_left: i32,
    client_top: i32,
    client_h: i32,
    margin_bottom: i32,
    margin_left: i32,
) -> (r: bool)
    ensures
        r == drag_coords_fit(
            drag_distance.0 as int,
            drag_distance.1 as int,
            client_left as int,
            client_top as int,
            client_h as int,
            margin_bottom as int,
            margin_left as int,
        ),
{
    let fits = |v: i64| -> (b: bool)
        ensures
            b == (i32::MIN <= v <= i32::MAX),
        { v >= i32::MIN as i64 && v <= i32::MAX as i64 };
    let (dx, dy) = (drag_distance.0 as i64, drag_distance.1 as i64);
    let (l, t, h, mb, ml) = (client_left as i64, client_top as i64, client_h as i64, margin_bottom as i64, margin_left as i64);
    fits(l + ml) && fits(t + h) && fits(t + h - mb) && fits(t + mb) && fits(l + dx) && fits(l + dx + ml) && fits(t + dy)
        && fits(t + dy + mb)
}

/// Start and end screen points of the middle-button drag that moves the
/// camera by one cell. Horizontal drags run along a line `margin_bottom`
/// above the bottom of the client area; the vertical drag runs along a
/// line `margin_left` right of its left edge.
pub fn calc_drag_coords(
    direction: CameraDirection,
    drag_distance: (i32, i32),
    client_left: i32,
    client_top: i32,
    client_h: i32,
    margin_bottom: i32,
    margin_left: i32,
) -> (r: ((i32, i32), (i32, i32)))
    requires
        drag_coords_fit(
            drag_distance.0 as int,
            drag_distance.1 as int,
            client_left as int,
            client_top as int,
            client_h as int,
            margin_bottom as int,
            margin_left as int,
        ),
    ensures
        ((r.0.0 as int, r.0.1 as int), (r.1.0 as int, r.1.1 as int)) == drag_coords_spec(
            direction,
            drag_distance.0 as int,
            drag_distance.1 as int,
            client_left as int,
            client_top as int,
            client_h as int,
            margin_bottom as int,
            margin_left as int,
        ),
{
    let dx = drag_distance.0;
    let dy = drag_distance.1;
    let base_x = client_left + margin_left;
    let base_y_h = client_top + client_h - margin_bottom;
    let base_y_v = client_top + margin_bottom;
    let drag_x = client_left + dx + margin_left;
    let drag_y = client_top + dy + margin_bottom;
    match direction {
        CameraDirection::Right => ((drag_x, base_y_h), (base_x, base_y_h)),
        CameraDirection::Left => ((base_x, base_y_h), (drag_x, base_y_h)),
        CameraDirection::Down => ((base_x, drag_y), (base_x, base_y_v)),
    }
}

/// A left drag is a right drag run backwards, every horizontal drag keeps
/// its height and covers exactly the requested distance, and the downward
/// drag keeps its column and covers exactly the requested distance.
pub proof fn lemma_drag_geometry(
    dx: int,
    dy: int,
    client_left: int,
    client_top: int,
    client_h: int,
    margin_bottom: int,
    margin_left: int,
)
    ensures
        ({
            let right = drag_coords_spec(CameraDirection::Right, dx, dy, client_left, client_top, client_h, margin_bottom, margin_left);
            let left = drag_coords_spec(CameraDirection::Left, dx, dy, client_left, client_top, client_h, margin_bottom, margin_left);
            let down = drag_coords_spec(CameraDirection::Down, dx, dy, client_left, client_top, client_h, margin_bottom, margin_left);
            &&& left.0 == right.1 && left.1 == right.0
            &&& right.0.1 == right.1.1
            &&& right.0.0 - right.1.0 == dx
            &&& down.0.0 == down.1.0
            &&& down.0.1 - down.1.1 == dy
        }),
{
}

/// Points of the round-trip drag that refreshes the view after zooming:
/// it starts 300 px right and below the anchor point
/// (`window_left + margin_left`, `window_top + margin_bottom`), drags to the
/// anchor and back.
pub fn refresh_view_points(window_left: i32, window_top: i32, margin_bottom: i32, margin_left: i32) -> (r: ((i32, i32), (i32, i32)))
    requires
        i32::MIN <= window_left + margin_left,
        window_left + margin_left + 300 <= i32::MAX,
        i32::MIN <= window_top + margin_bottom,
        window_top + margin_bottom + 300 <= i32::MAX,
    ensures
        r.1.0 == window_left + margin_left,
        r.1.1 == window_top + margin_bottom,
        r.0.0 == r.1.0 + 300,
        r.0.1 == r.1.1 + 300,
{
    let start_x = window_left + margin_left;
    let start_y = window_top + margin_bottom;
    let end_x = start_x + 300;
    let end_y = start_y + 300;
    ((end_x, end_y), (start_x, start_y))
}

} // verus!

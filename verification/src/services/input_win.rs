use vstd::prelude::*;

verus! {

/// Win32's wheel step: one notch of the mouse wheel.
pub const WHEEL_DELTA: u32 = 120;

/// `a / b` rounded toward zero, for `b > 0` (Rust's integer division).
pub open spec fn div_toward_zero(a: int, b: int) -> int {
    if a >= 0 {
        a / b
    } else {
        -((-a) / b)
    }
}

/// A screen coordinate mapped to the 0..=65535 absolute range of
/// `SendInput` for a screen `screen` pixels wide (at least 1), kept as
/// `i32` the way `as` does.
pub open spec fn normalized_coord(v: int, screen: int) -> i32 {
    let s = if screen < 1 { 1 } else { screen };
    div_toward_zero(v * 65535, s) as i32
}

/// Maps a screen coordinate to the absolute range used by `SendInput`.
pub fn normalize_coord(v: i32, screen: i32) -> (r: i32)
    ensures
        r == normalized_coord(v as int, screen as int),
{
    let s: i64 = if screen < 1 { 1 } else { screen as i64 };
    let a: i64 = v as i64 * 65535;
    let q: i64 = a / s;
    q as i32
}

/// What one wheel event carries for a scroll of `amount` notches, and how
/// many such events are sent: one notch up (positive) or down (negative)
/// per event, `|amount|` events.
pub fn wheel_events(amount: i32) -> (r: (u32, u32))
    requires
        amount > i32::MIN,
    ensures
        r.0 == (if amount < 0 { (-120i32) as u32 } else { 120u32 }),
        r.1 == (if amount < 0 { -amount } else { amount as int }),
{
    let direction: i32 = if amount < 0 { -1 } else { 1 };
    let count: i32 = if amount < 0 { -amount } else { amount };
    ((direction * (WHEEL_DELTA as i32)) as u32, count as u32)
}

/// A point on the screen (`0 <= v <= screen`) lands in the absolute range
/// `0..=65535`, its left edge at 0 and its right edge at 65535.
pub proof fn lemma_normalized_in_range(v: int, screen: int)
    requires
        1 <= screen <= i32::MAX,
        0 <= v <= screen,
    ensures
        0 <= normalized_coord(v, screen) <= 65535,
        normalized_coord(0, screen) == 0,
        normalized_coord(screen, screen) == 65535,
{
    assert(0 <= v * 65535) by (nonlinear_arith)
        requires
            0 <= v,
    ;
    assert(v * 65535 <= screen * 65535) by (nonlinear_arith)
        requires
            v <= screen,
    ;
    assert((v * 65535) / screen <= 65535) by (nonlinear_arith)
        requires
            0 <= v * 65535 <= screen * 65535,
            screen >= 1,
    ;
    assert(0 <= (v * 65535) / screen) by (nonlinear_arith)
        requires
            0 <= v * 65535,
            screen >= 1,
    ;
    assert((screen * 65535) / screen == 65535) by (nonlinear_arith)
        requires
            screen >= 1,
    ;
}

} // verus!

use vstd::prelude::*;

use crate::services::shared::now_str;

verus! {

/// Saved position, size and flags of the main window (one row).
pub struct WindowState {
    pub x: Option<i32>,
    pub y: Option<i32>,
    pub width: Option<i32>,
    pub height: Option<i32>,
    pub is_maximized: bool,
    pub always_on_top: bool,
    pub updated_at: String,
}

impl Default for WindowState {
    /// No saved position, a 900 x 600 window, neither maximized nor on top,
    /// stamped with the current local time.
    fn default() -> (s: WindowState)
        ensures
            s.x is None,
            s.y is None,
            s.width == Some(900i32),
            s.height == Some(600i32),
            !s.is_maximized,
            !s.always_on_top,
    {
        WindowState {
            x: None,
            y: None,
            width: Some(900),
            height: Some(600),
            is_maximized: false,
            always_on_top: false,
            updated_at: now_str(),
        }
    }
}

impl WindowState {
    /// The state of a window seen at `(x, y)` with outer size
    /// `width` x `height`, stamped with the current local time. The sizes are
    /// stored as `i32`, wrapping as `as` does.
    pub fn observed(x: i32, y: i32, width: u32, height: u32, is_maximized: bool, always_on_top: bool) -> (s: WindowState)
        ensures
            s.x == Some(x),
            s.y == Some(y),
            s.width == Some(width as i32),
            s.height == Some(height as i32),
            s.is_maximized == is_maximized,
            s.always_on_top == always_on_top,
    {
        WindowState {
            x: Some(x),
            y: Some(y),
            width: Some(width as i32),
            height: Some(height as i32),
            is_maximized,
            always_on_top,
            updated_at: now_str(),
        }
    }
}

} // verus!

use vstd::prelude::*;

use crate::error::{AppError, AppResult};
use crate::services::game_window;

verus! {

/// The game window, as handed to the front end.
#[derive(Debug)]
pub struct WindowInfo {
    pub title: String,
    pub hwnd: isize,
    pub left: i32,
    pub top: i32,
    pub width: i32,
    pub height: i32,
}

impl WindowInfo {
    /// The same window, field for field.
    pub fn from_found(info: game_window::WindowInfo) -> (w: WindowInfo)
        ensures
            w.title@ == info.title@,
            w.hwnd == info.hwnd,
            w.left == info.left,
            w.top == info.top,
            w.width == info.width,
            w.height == info.height,
    {
        WindowInfo {
            title: info.title,
            hwnd: info.hwnd,
            left: info.left,
            top: info.top,
            width: info.width,
            height: info.height,
        }
    }
}

/// The answer to a search for the game window: the window found, if any, or
/// the search's error text under the code `WINDOW_ERROR`.
pub fn game_window_answer(found: Result<Option<game_window::WindowInfo>, String>) -> (r: AppResult<Option<WindowInfo>>)
    ensures
        match (found, r) {
            (Ok(Some(i)), Ok(Some(w))) => w.title@ == i.title@ && w.hwnd == i.hwnd && w.left == i.left
                && w.top == i.top && w.width == i.width && w.height == i.height,
            (Ok(None), Ok(None)) => true,
            (Err(m), Err(e)) => e.message@ == m@ && e.code@ == "WINDOW_ERROR"@,
            _ => false,
        },
{
    match found {
        Ok(Some(info)) => Ok(Some(WindowInfo::from_found(info))),
        Ok(None) => Ok(None),
        Err(m) => Err(AppError::with_message(m, "WINDOW_ERROR")),
    }
}

} // verus!

use vstd::prelude::*;

use crate::text::{contains, contains_spec, lowercase_spec, str_chars, to_lowercase};

verus! {

/// A top-level window found on the desktop.
#[derive(Clone, Debug)]
pub struct WindowInfo {
    pub title: String,
    pub hwnd: isize,
    pub left: i32,
    pub top: i32,
    pub width: i32,
    pub height: i32,
}

/// The client area of a window, in screen coordinates.
#[derive(PartialEq, Eq, Structural, Clone, Copy, Debug)]
pub struct ClientRect {
    pub left: i32,
    pub top: i32,
    pub width: i32,
    pub height: i32,
}

/// Whether a window title names the game: its lower-cased form contains
/// `endfield`.
pub open spec fn is_endfield_title_spec(title: Seq<char>) -> bool {
    contains_spec(lowercase_spec(title), "endfield"@)
}

/// Whether a window with this title is the game window.
pub fn is_endfield_title(title: &str) -> (r: bool)
    ensures
        r == is_endfield_title_spec(title@),
{
    let lower = to_lowercase(title);
    let hay = str_chars(lower.as_str());
    let needle = str_chars("endfield");
    contains(&hay, &needle)
}

/// The description of window `hwnd` titled `title` whose outer rectangle is
/// `(left, top, right, bottom)`.
pub fn window_info_from_rect(title: String, hwnd: isize, rect: (i32, i32, i32, i32)) -> (w: WindowInfo)
    requires
        i32::MIN <= rect.2 - rect.0 <= i32::MAX,
        i32::MIN <= rect.3 - rect.1 <= i32::MAX,
    ensures
        w.title@ == title@,
        w.hwnd == hwnd,
        w.left == rect.0,
        w.top == rect.1,
        w.width == rect.2 - rect.0,
        w.height == rect.3 - rect.1,
{
    WindowInfo { title, hwnd, left: rect.0, top: rect.1, width: rect.2 - rect.0, height: rect.3 - rect.1 }
}

/// The client area whose client rectangle is `(left, top, right, bottom)`
/// and whose top-left corner lies at `origin` on the screen.
pub fn client_rect_from(client: (i32, i32, i32, i32), origin: (i32, i32)) -> (c: ClientRect)
    requires
        i32::MIN <= client.2 - client.0 <= i32::MAX,
        i32::MIN <= client.3 - client.1 <= i32::MAX,
    ensures
        c.left == origin.0,
        c.top == origin.1,
        c.width == client.2 - client.0,
        c.height == client.3 - client.1,
{
    ClientRect { left: origin.0, top: origin.1, width: client.2 - client.0, height: client.3 - client.1 }
}

} // verus!

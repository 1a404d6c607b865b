use vstd::prelude::*;

use crate::models::window_state::WindowState;

verus! {

/// Whether `(x, y)` lies in the work area `(left, top, right, bottom)` of a
/// monitor, right and bottom edges excluded.
pub open spec fn in_work_area(x: int, y: int, area: (i32, i32, i32, i32)) -> bool {
    area.0 <= x < area.2 && area.1 <= y < area.3
}

/// Whether `(x, y)` lies in the work area of a monitor.
pub fn point_in_work_area(x: i32, y: i32, area: (i32, i32, i32, i32)) -> (r: bool)
    ensures
        r == in_work_area(x as int, y as int, area),
{
    x >= area.0 && x < area.2 && y >= area.1 && y < area.3
}

/// What to do to the main window at start-up.
#[derive(Clone, Copy, Debug)]
pub struct RestorePlan {
    /// Maximize the window.
    pub maximize: bool,
    /// Move the window there.
    pub position: Option<(i32, i32)>,
    /// Center the window on its monitor.
    pub center: bool,
    /// Resize the window to this outer size.
    pub size: Option<(u32, u32)>,
    /// Keep the window above the others.
    pub always_on_top: bool,
}

/// The restore plan for a saved state. `work_area` is the work area of the
/// monitor that holds the saved position, if a position was saved and some
/// monitor holds it.
pub open spec fn restore_plan_spec(
    state: WindowState,
    work_area: Option<(i32, i32, i32, i32)>,
) -> RestorePlan {
    if state.is_maximized {
        RestorePlan {
            maximize: true,
            position: None,
            center: false,
            size: None,
            always_on_top: state.always_on_top,
        }
    } else {
        let on_screen = match (state.x, state.y, work_area) {
            (Some(x), Some(y), Some(a)) => in_work_area(x as int, y as int, a),
            _ => false,
        };
        RestorePlan {
            maximize: false,
            position: if on_screen { Some((state.x->0, state.y->0)) } else { None },
            center: !on_screen,
            size: match (state.width, state.height) {
                (Some(w), Some(h)) => Some((w as u32, h as u32)),
                _ => None,
            },
            always_on_top: state.always_on_top,
        }
    }
}

/// Decides how the main window is restored from its saved state: maximized,
/// or moved back to its saved position when that lies on a monitor's work
/// area (centered otherwise) and resized to its saved size; the
/// always-on-top flag is restored in every case.
pub fn restore_plan(state: &WindowState, work_area: Option<(i32, i32, i32, i32)>) -> (p: RestorePlan)
    ensures
        p == restore_plan_spec(*state, work_area),
        p.always_on_top == state.always_on_top,
        p.maximize == state.is_maximized,
{
    if state.is_maximized {
        return RestorePlan {
            maximize: true,
            position: None,
            center: false,
            size: None,
            always_on_top: state.always_on_top,
        };
    }
    let on_screen = match (state.x, state.y, work_area) {
        (Some(x), Some(y), Some(a)) => point_in_work_area(x, y, a),
        _ => false,
    };
    let position = if on_screen {
        match (state.x, state.y) {
            (Some(x), Some(y)) => Some((x, y)),
            _ => None,
        }
    } else {
        None
    };
    let size = match (state.width, state.height) {
        (Some(w), Some(h)) => Some((w as u32, h as u32)),
        _ => None,
    };
    RestorePlan { maximize: false, position, center: !on_screen, size, always_on_top: state.always_on_top }
}

/// Whether a position was saved and lies in the given work area.
pub open spec fn saved_position_visible(state: WindowState, work_area: Option<(i32, i32, i32, i32)>) -> bool {
    match (state.x, state.y, work_area) {
        (Some(x), Some(y), Some(a)) => in_work_area(x as int, y as int, a),
        _ => false,
    }
}

/// What a restore plan keeps of the saved state, for every state and work
/// area: the always-on-top flag is the saved one whether or not the window
/// was maximized; a maximized window is only maximized again; any other is
/// either moved to its saved position, which then lies in the work area, or
/// centered, never both, and gets its saved size when one was saved.
pub proof fn lemma_restore_plan_keeps_state(state: WindowState, work_area: Option<(i32, i32, i32, i32)>)
    ensures
        restore_plan_spec(state, work_area).always_on_top == state.always_on_top,
        restore_plan_spec(state, work_area).maximize == state.is_maximized,
        state.is_maximized ==> {
            let p = restore_plan_spec(state, work_area);
            &&& p.position is None
            &&& !p.center
            &&& p.size is None
        },
        !state.is_maximized ==> {
            let p = restore_plan_spec(state, work_area);
            &&& p.center == (p.position is None)
            &&& (p.position is Some <==> saved_position_visible(state, work_area))
            &&& (p.position is Some ==> {
                let (x, y) = p.position->0;
                state.x == Some(x) && state.y == Some(y)
            })
            &&& (p.size is Some <==> (state.width is Some && state.height is Some))
        },
{
}

} // verus!

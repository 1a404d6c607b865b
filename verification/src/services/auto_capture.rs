use vstd::prelude::*;

use crate::error::AppError;
use crate::services::game_window::ClientRect;
use crate::services::input::CameraDirection;
use crate::services::screenshot::half_toward_zero;
use crate::text::{
    append_str, dec_int, parse_i32, parse_i32_spec, push_dec_i64, str_chars, str_eq, string_from_chars,
};

verus! {

/// One step of the serpentine capture walk.
#[derive(PartialEq, Eq, Structural, Clone, Copy, Debug)]
pub enum CaptureAction {
    /// Capture the cell at this grid position.
    Capture { row: u32, col: u32 },
    /// Drag the camera by one cell in this direction.
    Move(CameraDirection),
    /// The walk is over (completed, or stopped by the user).
    Finish,
}

/// Number of steps of the full walk over a `rows` x `cols` grid: every cell
/// is captured, `cols - 1` moves are made inside each row and one move down
/// between consecutive rows.
pub open spec fn plan_len(rows: nat, cols: nat) -> nat {
    if rows == 0 || cols == 0 {
        0
    } else {
        (2 * rows * cols - 1) as nat
    }
}

/// Column visited at position `k` of row `r`: even rows run left to right,
/// odd rows right to left.
pub open spec fn serpentine_col(cols: nat, r: nat, k: nat) -> nat {
    if r % 2 == 0 {
        k
    } else {
        (cols - 1 - k) as nat
    }
}

/// Step `i` of the full walk. Each row occupies a block of `2 * cols` steps:
/// captures at even offsets, a horizontal move between two captures at odd
/// offsets, and the last offset of the block moves down to the next row.
pub open spec fn plan_action(rows: nat, cols: nat, i: nat) -> CaptureAction {
    let r = i / (2 * cols);
    let j = i % (2 * cols);
    if j == 2 * cols - 1 {
        CaptureAction::Move(CameraDirection::Down)
    } else if j % 2 == 0 {
        CaptureAction::Capture { row: r as u32, col: serpentine_col(cols, r, j / 2) as u32 }
    } else if r % 2 == 0 {
        CaptureAction::Move(CameraDirection::Right)
    } else {
        CaptureAction::Move(CameraDirection::Left)
    }
}

/// Steps before which the walk checks whether the user asked to stop: every
/// capture and every move down to the next row.
pub open spec fn is_checkpoint(a: CaptureAction) -> bool {
    a is Capture || a == CaptureAction::Move(CameraDirection::Down)
}

/// What the walk does at step `pos` when `running` tells whether the user
/// still wants it to go on.
pub open spec fn next_action_spec(rows: nat, cols: nat, pos: nat, running: bool) -> CaptureAction {
    if pos >= plan_len(rows, cols) {
        CaptureAction::Finish
    } else if !running && is_checkpoint(plan_action(rows, cols, pos)) {
        CaptureAction::Finish
    } else {
        plan_action(rows, cols, pos)
    }
}

/// The grid is small enough for its shot count to fit in `u32`.
pub open spec fn grid_fits(rows: nat, cols: nat) -> bool {
    rows * cols <= u32::MAX
}

/// Decides the next step of the serpentine walk over a `rows` x `cols` grid.
/// `pos` counts the steps already taken; `running` is false once the user
/// asked to stop. The caller performs the returned action and calls again
/// with `pos + 1`, until `Finish`.
pub fn next_capture_action(rows: u32, cols: u32, pos: u64, running: bool) -> (a: CaptureAction)
    requires
        grid_fits(rows as nat, cols as nat),
    ensures
        a == next_action_spec(rows as nat, cols as nat, pos as nat, running),
{
    if rows == 0 || cols == 0 {
        return CaptureAction::Finish;
    }
    let ghost g_rows = rows as nat;
    let ghost g_cols = cols as nat;
    proof {
        assert(rows as nat * cols as nat <= u32::MAX);
        assert(2 * (rows as nat) * (cols as nat) <= 2 * (u32::MAX as nat)) by (nonlinear_arith)
            requires rows as nat * cols as nat <= u32::MAX;
        assert(2 * (rows as nat) * (cols as nat) >= 2) by (nonlinear_arith)
            requires rows > 0, cols > 0;
    }
    let block: u64 = 2 * (cols as u64);
    let len: u64 = 2 * (rows as u64) * (cols as u64) - 1;
    if pos >= len {
        return CaptureAction::Finish;
    }
    let r: u64 = pos / block;
    let j: u64 = pos % block;
    proof {
        assert(r <= pos);
        lemma_div_bound(pos as nat, cols as nat, rows as nat);
    }
    let action = if j == block - 1 {
        CaptureAction::Move(CameraDirection::Down)
    } else if j % 2 == 0 {
        let k: u64 = j / 2;
        let col: u64 = if r % 2 == 0 { k } else { (cols as u64) - 1 - k };
        CaptureAction::Capture { row: r as u32, col: col as u32 }
    } else if r % 2 == 0 {
        CaptureAction::Move(CameraDirection::Right)
    } else {
        CaptureAction::Move(CameraDirection::Left)
    };
    let checkpoint = match action {
        CaptureAction::Capture { .. } => true,
        CaptureAction::Move(CameraDirection::Down) => true,
        _ => false,
    };
    if !running && checkpoint {
        CaptureAction::Finish
    } else {
        action
    }
}

proof fn lemma_div_bound(pos: nat, cols: nat, rows: nat)
    requires
        cols > 0,
        rows > 0,
        pos < 2 * rows * cols - 1,
    ensures
        pos / (2 * cols) < rows,
        pos % (2 * cols) < 2 * cols,
{
    vstd::arithmetic::div_mod::lemma_div_pos_is_pos(pos as int, (2 * cols) as int);
    vstd::arithmetic::div_mod::lemma_mod_pos_bound(pos as int, (2 * cols) as int);
    if pos / (2 * cols) >= rows {
        vstd::arithmetic::div_mod::lemma_fundamental_div_mod(pos as int, (2 * cols) as int);
        assert((2 * cols) * (pos / (2 * cols)) >= (2 * cols) * rows) by (nonlinear_arith)
            requires pos / (2 * cols) >= rows, cols > 0;
        assert(2 * cols * rows == 2 * rows * cols) by (nonlinear_arith);
    }
}

} // verus!

verus! {

/// Step of the walk at which cell (`r`, `c`) is captured.
pub open spec fn capture_index(cols: nat, r: nat, c: nat) -> nat {
    let k = if r % 2 == 0 { c } else { (cols - 1 - c) as nat };
    2 * cols * r + 2 * k
}

proof fn lemma_split(i: nat, cols: nat)
    requires
        cols > 0,
    ensures
        i == 2 * cols * (i / (2 * cols)) + i % (2 * cols),
        i % (2 * cols) < 2 * cols,
{
    vstd::arithmetic::div_mod::lemma_fundamental_div_mod(i as int, (2 * cols) as int);
    vstd::arithmetic::div_mod::lemma_mod_pos_bound(i as int, (2 * cols) as int);
}

proof fn lemma_join(cols: nat, q: nat, j: nat)
    requires
        cols > 0,
        j < 2 * cols,
    ensures
        (2 * cols * q + j) / (2 * cols) == q,
        (2 * cols * q + j) % (2 * cols) == j,
{
    assert(2 * cols * q == q * (2 * cols)) by (nonlinear_arith);
    vstd::arithmetic::div_mod::lemma_fundamental_div_mod_converse(
        (2 * cols * q + j) as int,
        (2 * cols) as int,
        q as int,
        j as int,
    );
}

proof fn lemma_row_bound(rows: nat, cols: nat, q: nat, j: nat)
    requires
        cols > 0,
        rows > 0,
        j < 2 * cols,
    ensures
        q < rows && j < 2 * cols - 1 ==> 2 * cols * q + j < plan_len(rows, cols),
        2 * cols * q + j < plan_len(rows, cols) ==> q < rows,
        plan_len(rows, cols) == 2 * rows * cols - 1,
{
    assert(2 * rows * cols >= 2) by (nonlinear_arith)
        requires rows > 0, cols > 0;
    if q < rows && j < 2 * cols - 1 {
        assert(2 * cols * q + j < 2 * rows * cols - 1) by (nonlinear_arith)
            requires q < rows, j < 2 * cols - 1, cols > 0;
    }
    if 2 * cols * q + j < 2 * rows * cols - 1 && q >= rows {
        assert(2 * cols * q >= 2 * rows * cols) by (nonlinear_arith)
            requires q >= rows, cols > 0;
    }
}

/// Position of step `i` in the walk: its row block `q` and its offset `j`
/// inside the block.
proof fn lemma_locate(rows: nat, cols: nat, i: nat)
    requires
        grid_fits(rows, cols),
        i < plan_len(rows, cols),
    ensures
        rows > 0,
        cols > 0,
        rows <= u32::MAX,
        cols <= u32::MAX,
        i == 2 * cols * (i / (2 * cols)) + i % (2 * cols),
        i / (2 * cols) < rows,
        i % (2 * cols) < 2 * cols,
        plan_len(rows, cols) == 2 * rows * cols - 1,
{
    assert(rows <= rows * cols) by (nonlinear_arith)
        requires cols > 0;
    assert(cols <= rows * cols) by (nonlinear_arith)
        requires rows > 0;
    lemma_split(i, cols);
    lemma_row_bound(rows, cols, i / (2 * cols), i % (2 * cols));
}

/// The walk captures every cell of the grid exactly once: cell (`r`, `c`) is
/// captured at step `capture_index(cols, r, c)` of the walk and at no other
/// step.
pub proof fn lemma_walk_captures_each_cell_once(rows: nat, cols: nat, r: nat, c: nat)
    requires
        grid_fits(rows, cols),
        r < rows,
        c < cols,
    ensures
        capture_index(cols, r, c) < plan_len(rows, cols),
        plan_action(rows, cols, capture_index(cols, r, c)) == (CaptureAction::Capture { row: r as u32, col: c as u32 }),
        forall|i: nat|
            i < plan_len(rows, cols) && #[trigger] plan_action(rows, cols, i) == (CaptureAction::Capture {
                row: r as u32,
                col: c as u32,
            }) ==> i == capture_index(cols, r, c),
{
    assert(rows <= rows * cols) by (nonlinear_arith)
        requires cols > 0;
    let k: nat = if r % 2 == 0 { c } else { (cols - 1 - c) as nat };
    let ci = capture_index(cols, r, c);
    assert(ci == 2 * cols * r + 2 * k);
    lemma_join(cols, r, 2 * k);
    lemma_row_bound(rows, cols, r, 2 * k);
    assert((2 * k) % 2 == 0);
    assert((2 * k) / 2 == k);
    assert(serpentine_col(cols, r, k) == c);
    assert forall|i: nat|
        i < plan_len(rows, cols) && #[trigger] plan_action(rows, cols, i) == (CaptureAction::Capture {
            row: r as u32,
            col: c as u32,
        }) implies i == ci by {
        lemma_locate(rows, cols, i);
        let q = i / (2 * cols);
        let j = i % (2 * cols);
        assert(j != 2 * cols - 1);
        assert(j % 2 == 0);
        assert((q as u32) as nat == q);
        assert(q == r);
        assert(j == 2 * (j / 2));
        assert(j / 2 < cols);
        let col = serpentine_col(cols, q, j / 2);
        assert(col < cols);
        assert((col as u32) as nat == col);
        assert(col == c);
        assert(j / 2 == k);
    }
}

/// Every capture of the walk lies inside the grid.
pub proof fn lemma_walk_stays_in_grid(rows: nat, cols: nat, i: nat)
    requires
        grid_fits(rows, cols),
        i < plan_len(rows, cols),
        plan_action(rows, cols, i) is Capture,
    ensures
        (plan_action(rows, cols, i)->row as nat) < rows,
        (plan_action(rows, cols, i)->col as nat) < cols,
{
    lemma_locate(rows, cols, i);
    let q = i / (2 * cols);
    let j = i % (2 * cols);
    assert(j != 2 * cols - 1);
    assert(j / 2 < cols);
    assert(serpentine_col(cols, q, j / 2) < cols);
}

/// Every move of the walk joins two neighbouring captures: a move right goes
/// from column `c` to `c + 1` of the same row, a move left from `c` to
/// `c - 1`, and a move down from row `r` to row `r + 1` in the same column
/// (the walk never travels back across a row).
pub proof fn lemma_walk_moves_join_neighbours(rows: nat, cols: nat, i: nat)
    requires
        grid_fits(rows, cols),
        i < plan_len(rows, cols),
        plan_action(rows, cols, i) is Move,
    ensures
        0 < i,
        i + 1 < plan_len(rows, cols),
        plan_action(rows, cols, (i - 1) as nat) is Capture,
        plan_action(rows, cols, (i + 1) as nat) is Capture,
        ({
            let before = plan_action(rows, cols, (i - 1) as nat);
            let after = plan_action(rows, cols, (i + 1) as nat);
            match plan_action(rows, cols, i)->Move_0 {
                CameraDirection::Right => after->row == before->row && after->col == before->col + 1,
                CameraDirection::Left => after->row == before->row && after->col + 1 == before->col,
                CameraDirection::Down => after->row == before->row + 1 && after->col == before->col,
            }
        }),
{
    lemma_locate(rows, cols, i);
    let q = i / (2 * cols);
    let j = i % (2 * cols);
    assert(j % 2 == 1);
    assert(j >= 1);
    let jp = (j - 1) as nat;
    lemma_join(cols, q, jp);
    assert(2 * cols * q + jp == i - 1);
    assert(jp % 2 == 0);
    assert(jp / 2 < cols);
    if j == 2 * cols - 1 {
        assert(q + 1 < rows) by {
            if q + 1 >= rows {
                assert(2 * cols * q + 2 * cols - 1 >= 2 * rows * cols - 1) by (nonlinear_arith)
                    requires q + 1 >= rows, cols > 0;
            }
        }
        assert(i + 1 == 2 * cols * (q + 1) + 0) by (nonlinear_arith)
            requires i == 2 * cols * q + j, j == 2 * cols - 1;
        lemma_join(cols, q + 1, 0);
        lemma_row_bound(rows, cols, q + 1, 0);
        assert(jp / 2 == cols - 1);
        assert(((q + 1) as u32) as nat == q + 1);
        assert((q as u32) as nat == q);
        assert(((q + 1) % 2 == 0) == (q % 2 != 0));
    } else {
        lemma_join(cols, q, j + 1);
        assert(2 * cols * q + (j + 1) == i + 1);
        lemma_row_bound(rows, cols, q, j + 1);
        assert((j + 1) % 2 == 0);
        assert(jp / 2 + 1 == (j + 1) / 2);
        assert((j + 1) / 2 < cols);
    }
}

} // verus!

verus! {

/// Once the user has asked to stop, the walk captures no further cell and
/// does not move on to another row.
pub proof fn lemma_stop_ends_captures(rows: nat, cols: nat, pos: nat)
    ensures
        !(next_action_spec(rows, cols, pos, false) is Capture),
        next_action_spec(rows, cols, pos, false) != CaptureAction::Move(CameraDirection::Down),
{
}

/// Message of the error raised for a grid with a non-positive dimension.
pub open spec fn grid_error_message(rows: int, cols: int) -> Seq<char> {
    "网格行列数必须大于 0（收到 "@ + dec_int(rows) + "x"@ + dec_int(cols) + "）"@
}

/// The `INVALID_GRID` error for a grid of `rows` x `cols`.
pub fn invalid_grid_error(rows: i64, cols: i64) -> (e: AppError)
    ensures
        e.message@ == grid_error_message(rows as int, cols as int),
        e.code@ == "INVALID_GRID"@,
{
    let mut v = str_chars("网格行列数必须大于 0（收到 ");
    push_dec_i64(&mut v, rows);
    append_str(&mut v, "x");
    push_dec_i64(&mut v, cols);
    append_str(&mut v, "）");
    let message = string_from_chars(&v);
    AppError::with_message(message, "INVALID_GRID")
}

/// Checks the grid of a capture request before anything is moved: both
/// dimensions must be positive. Returns the number of shots to take.
pub fn validate_grid(rows: i32, cols: i32) -> (r: Result<u32, AppError>)
    requires
        rows <= 0 || cols <= 0 || rows * cols <= u32::MAX,
    ensures
        match r {
            Ok(total) => rows > 0 && cols > 0 && total == rows * cols,
            Err(e) => !(rows > 0 && cols > 0) && e.code@ == "INVALID_GRID"@
                && e.message@ == grid_error_message(rows as int, cols as int),
        },
{
    if rows <= 0 || cols <= 0 {
        return Err(invalid_grid_error(rows as i64, cols as i64));
    }
    Ok((rows as u32) * (cols as u32))
}

/// Applies a grid size given with the capture request (both or neither) on
/// top of the configured one. A requested zero dimension is refused; the
/// requested sizes are stored as `i32` exactly as an `as` cast does.
pub fn apply_grid_override(grid_rows: i32, grid_cols: i32, rows: Option<u32>, cols: Option<u32>) -> (r: Result<
    (i32, i32),
    AppError,
>)
    ensures
        match (rows, cols) {
            (Some(a), Some(b)) => if a == 0 || b == 0 {
                r matches Err(e) && e.code@ == "INVALID_GRID"@ && e.message@ == grid_error_message(a as int, b as int)
            } else {
                r == Ok::<(i32, i32), AppError>((a as i32, b as i32))
            },
            _ => r == Ok::<(i32, i32), AppError>((grid_rows, grid_cols)),
        },
{
    match (rows, cols) {
        (Some(a), Some(b)) => {
            if a == 0 || b == 0 {
                Err(invalid_grid_error(a as i64, b as i64))
            } else {
                Ok((a as i32, b as i32))
            }
        },
        _ => Ok((grid_rows, grid_cols)),
    }
}

/// Whether the main window is minimized during a capture: unless the
/// `minimize_on_capture` setting reads exactly `false`.
pub fn minimize_on_capture(setting: Option<&str>) -> (r: bool)
    ensures
        r == match setting {
            Some(v) => v@ != "false"@,
            None => true,
        },
{
    match setting {
        Some(v) => !str_eq(v, "false"),
        None => true,
    }
}

/// An integer setting: its value when it parses as an `i32`, `default`
/// otherwise or when it is missing.
pub fn int_setting_or(setting: Option<&str>, default: i32) -> (r: i32)
    ensures
        r as int == match setting {
            Some(v) => match parse_i32_spec(v@) {
                Some(x) => x,
                None => default as int,
            },
            None => default as int,
        },
{
    match setting {
        Some(v) => match parse_i32(v) {
            Some(x) => x,
            None => default,
        },
        None => default,
    }
}

/// The centre of a client area, where the wheel is turned.
pub fn client_center(rect: ClientRect) -> (r: (i32, i32))
    requires
        i32::MIN <= rect.left + half_toward_zero(rect.width as int) <= i32::MAX,
        i32::MIN <= rect.top + half_toward_zero(rect.height as int) <= i32::MAX,
    ensures
        r.0 == rect.left + half_toward_zero(rect.width as int),
        r.1 == rect.top + half_toward_zero(rect.height as int),
{
    (rect.left + rect.width / 2, rect.top + rect.height / 2)
}

/// An error whose message is `"{context}: {detail}"`.
pub fn labeled_error(context: &str, detail: &str, code: &str) -> (e: AppError)
    ensures
        e.message@ == context@ + ": "@ + detail@,
        e.code@ == code@,
{
    let mut m: Vec<char> = Vec::new();
    append_str(&mut m, context);
    append_str(&mut m, ": ");
    append_str(&mut m, detail);
    AppError::with_message(string_from_chars(&m), code)
}

/// What is done next while turning the wheel before a capture.
#[derive(PartialEq, Eq, Structural, Clone, Copy, Debug)]
pub enum ScrollStep {
    /// Send one more notch down.
    Notch,
    /// Stop turning the wheel.
    Done,
}

/// Whether notches remain to be sent after `sent` of `scroll_count`; only
/// then is the running flag consulted for the next step.
pub fn scroll_pending(scroll_count: i32, sent: i32) -> (r: bool)
    ensures
        r == (sent < scroll_count),
{
    sent < scroll_count
}

/// Next step after `sent` notches of a zoom by `scroll_count` notches: one
/// more notch while fewer than `scroll_count` were sent and the capture is
/// still running.
pub fn next_scroll_step(scroll_count: i32, sent: i32, running: bool) -> (s: ScrollStep)
    ensures
        s == (if running && sent < scroll_count { ScrollStep::Notch } else { ScrollStep::Done }),
{
    if running && sent < scroll_count {
        ScrollStep::Notch
    } else {
        ScrollStep::Done
    }
}

} // verus!

use vstd::prelude::*;

use crate::error::AppError;
use crate::models::scroll_mode::ScrollMode;
use crate::models::session::{status_name, CaptureSession, SessionStatus};
use crate::text::{append_str, str_eq, string_from_chars};

verus! {

/// Refuses to start a capture while another one runs
/// (`CAPTURE_IN_PROGRESS`).
pub fn ensure_idle(running: bool) -> (r: Result<(), AppError>)
    ensures
        r is Ok <==> !running,
        r matches Err(e) ==> e.code@ == "CAPTURE_IN_PROGRESS"@ && e.message@ == "截图正在进行中，请先停止当前任务"@,
{
    if running {
        Err(AppError::new("截图正在进行中，请先停止当前任务", "CAPTURE_IN_PROGRESS"))
    } else {
        Ok(())
    }
}

/// The message of a missing region configuration.
pub open spec fn region_not_found_message(name: Seq<char>, aspect_ratio: Seq<char>, scroll_mode: Seq<char>) -> Seq<
    char,
> {
    "未找到区域配置: "@ + name + "/"@ + aspect_ratio + "/"@ + scroll_mode
}

/// The `REGION_NOT_FOUND` error for a region, aspect ratio and zoom level
/// that have no configuration.
pub fn region_not_found_error(name: &str, aspect_ratio: &str, scroll_mode: &str) -> (e: AppError)
    ensures
        e.code@ == "REGION_NOT_FOUND"@,
        e.message@ == region_not_found_message(name@, aspect_ratio@, scroll_mode@),
{
    let mut m: Vec<char> = Vec::new();
    append_str(&mut m, "未找到区域配置: ");
    append_str(&mut m, name);
    append_str(&mut m, "/");
    append_str(&mut m, aspect_ratio);
    append_str(&mut m, "/");
    append_str(&mut m, scroll_mode);
    AppError::with_message(string_from_chars(&m), "REGION_NOT_FOUND")
}

/// Whether no zoom level of `modes` before index `k` is named `name`.
pub open spec fn none_named_before(modes: Seq<ScrollMode>, name: Seq<char>, k: int) -> bool {
    forall|j: int| 0 <= j < k ==> (#[trigger] modes[j]).name@ != name
}

/// The zoom level named `name`: the first of `modes` with that name, or the
/// `SCROLL_MODE_NOT_FOUND` error when none has it.
pub fn find_scroll_mode(modes: &Vec<ScrollMode>, name: &str) -> (r: Result<ScrollMode, AppError>)
    ensures
        match r {
            Ok(m) => exists|i: int|
                0 <= i < modes@.len() && none_named_before(modes@, name@, i) && #[trigger] modes@[i].name@ == name@
                    && m.id == modes@[i].id && m.name@ == modes@[i].name@ && m.scroll_count
                    == modes@[i].scroll_count && m.is_default == modes@[i].is_default,
            Err(e) => none_named_before(modes@, name@, modes@.len() as int) && e.code@
                == "SCROLL_MODE_NOT_FOUND"@ && e.message@ == "未找到滚动模式: "@ + name@,
        },
{
    let mut i: usize = 0;
    while i < modes.len()
        invariant
            i <= modes.len(),
            none_named_before(modes@, name@, i as int),
        decreases modes.len() - i,
    {
        let m = &modes[i];
        if str_eq(m.name.as_str(), name) {
            return Ok(
                ScrollMode {
                    id: m.id,
                    name: m.name.clone(),
                    scroll_count: m.scroll_count,
                    is_default: m.is_default,
                },
            );
        }
        i = i + 1;
    }
    let mut msg: Vec<char> = Vec::new();
    append_str(&mut msg, "未找到滚动模式: ");
    append_str(&mut msg, name);
    Err(AppError::with_message(string_from_chars(&msg), "SCROLL_MODE_NOT_FOUND"))
}

/// The session recorded when a capture of `rows` x `cols` shots starts over
/// `region` at zoom level `scroll_mode`.
pub fn start_session(region: String, scroll_mode: String, rows: i32, cols: i32) -> (s: CaptureSession)
    requires
        (rows as u32) * (cols as u32) <= u32::MAX,
    ensures
        s.id is None,
        s.finished_at is None,
        s.region matches Some(r) && r@ == region@,
        s.scroll_mode matches Some(m) && m@ == scroll_mode@,
        s.grid_rows == Some(rows),
        s.grid_cols == Some(cols),
        s.total_shots == Some((((rows as u32) * (cols as u32)) as u32) as i32),
        s.status@ == status_name(SessionStatus::Capturing),
        s.original_path is None,
        s.exported_path is None,
        s.thumbnail_path is None,
        s.crop_box is None,
        s.output_format is None,
        s.jpg_quality is None,
{
    let total: u32 = (rows as u32) * (cols as u32);
    let mut session = CaptureSession::new(Some(region), Some(scroll_mode));
    session.grid_rows = Some(rows);
    session.grid_cols = Some(cols);
    session.total_shots = Some(total as i32);
    session
}

} // verus!

use vstd::prelude::*;

use crate::services::shared::now_str;

verus! {

/// State of a capture session.
#[derive(PartialEq, Eq, Structural, Clone, Copy, Debug)]
pub enum SessionStatus {
    Capturing,
    Completed,
    Interrupted,
    Error,
}

/// The name under which a status is stored and sent.
pub open spec fn status_name(s: SessionStatus) -> Seq<char> {
    match s {
        SessionStatus::Capturing => "capturing"@,
        SessionStatus::Completed => "completed"@,
        SessionStatus::Interrupted => "interrupted"@,
        SessionStatus::Error => "error"@,
    }
}

impl SessionStatus {
    /// The stored name of the status, in lower case.
    pub fn as_str(&self) -> (r: &'static str)
        ensures
            r@ == status_name(*self),
    {
        match self {
            SessionStatus::Capturing => "capturing",
            SessionStatus::Completed => "completed",
            SessionStatus::Interrupted => "interrupted",
            SessionStatus::Error => "error",
        }
    }
}

/// Two different statuses are never stored under the same name, so a stored
/// name tells the status back.
pub proof fn lemma_status_names_distinct(a: SessionStatus, b: SessionStatus)
    ensures
        status_name(a) == status_name(b) <==> a == b,
{
    reveal_strlit("capturing");
    reveal_strlit("completed");
    reveal_strlit("interrupted");
    reveal_strlit("error");
    if a != b {
        match (a, b) {
            (SessionStatus::Capturing, SessionStatus::Completed) => {
                assert(status_name(a)[2] != status_name(b)[2]);
            },
            (SessionStatus::Completed, SessionStatus::Capturing) => {
                assert(status_name(a)[2] != status_name(b)[2]);
            },
            _ => {
                assert(status_name(a).len() != status_name(b).len() || status_name(a)[0] != status_name(b)[0]);
            },
        }
    }
}

/// Crop rectangle, in pixels of the source image.
#[derive(PartialEq, Eq, Structural, Clone, Copy, Debug)]
pub struct CropBox {
    pub x: u32,
    pub y: u32,
    pub w: u32,
    pub h: u32,
}

/// One capture session, as stored in the history table.
pub struct CaptureSession {
    pub id: Option<i64>,
    pub started_at: String,
    pub finished_at: Option<String>,
    pub region: Option<String>,
    pub scroll_mode: Option<String>,
    pub grid_rows: Option<i32>,
    pub grid_cols: Option<i32>,
    pub total_shots: Option<i32>,
    pub status: String,
    pub original_path: Option<String>,
    pub exported_path: Option<String>,
    pub thumbnail_path: Option<String>,
    pub crop_box: Option<String>,
    pub output_format: Option<String>,
    pub jpg_quality: Option<i32>,
}

impl CaptureSession {
    /// A fresh session for `region` and `scroll_mode`, started now, in the
    /// capturing state, with nothing else filled in.
    pub fn new(region: Option<String>, scroll_mode: Option<String>) -> (s: CaptureSession)
        ensures
            s.id is None,
            s.finished_at is None,
            s.region == region,
            s.scroll_mode == scroll_mode,
            s.grid_rows is None,
            s.grid_cols is None,
            s.total_shots is None,
            s.status@ == status_name(SessionStatus::Capturing),
            s.original_path is None,
            s.exported_path is None,
            s.thumbnail_path is None,
            s.crop_box is None,
            s.output_format is None,
            s.jpg_quality is None,
    {
        let now = now_str();
        CaptureSession {
            id: None,
            started_at: now,
            finished_at: None,
            region,
            scroll_mode,
            grid_rows: None,
            grid_cols: None,
            total_shots: None,
            status: SessionStatus::Capturing.as_str().to_string(),
            original_path: None,
            exported_path: None,
            thumbnail_path: None,
            crop_box: None,
            output_format: None,
            jpg_quality: None,
        }
    }
}

} // verus!

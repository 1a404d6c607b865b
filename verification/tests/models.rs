use zmd_prtsc::error::AppError;
use zmd_prtsc::models::scroll_mode::{
    default_scroll_modes, get_drag_max, get_drag_max_by_count, parse_scroll_count, scroll_mode_name_of,
};
use zmd_prtsc::models::session::{CaptureSession, CropBox, SessionStatus};
use zmd_prtsc::models::setting::default_settings;
use zmd_prtsc::models::window_state::WindowState;

#[test]
fn app_error_new_keeps_message_and_code() {
    let e = AppError::new("出错了", "SOME_CODE");
    assert_eq!(e.message, "出错了");
    assert_eq!(e.code, "SOME_CODE");
    let e = AppError::with_message("owned".to_string(), "X");
    assert_eq!(e.message, "owned");
    assert_eq!(e.code, "X");
}

#[test]
fn parse_scroll_count_reads_levels() {
    assert_eq!(parse_scroll_count("0次"), Some(0));
    assert_eq!(parse_scroll_count("5次"), Some(5));
    assert_eq!(parse_scroll_count("8次"), Some(8));
    assert_eq!(parse_scroll_count("+3次"), Some(3));
    assert_eq!(parse_scroll_count("03次"), Some(3));
}

#[test]
fn parse_scroll_count_refuses_other_text() {
    assert_eq!(parse_scroll_count("9次"), None);
    assert_eq!(parse_scroll_count("-1次"), None);
    assert_eq!(parse_scroll_count("次"), None);
    assert_eq!(parse_scroll_count("5"), None);
    assert_eq!(parse_scroll_count(""), None);
    assert_eq!(parse_scroll_count("abc次"), None);
    assert_eq!(parse_scroll_count(" 5次"), None);
    assert_eq!(parse_scroll_count("2147483647次"), None);
    assert_eq!(parse_scroll_count("-2147483648次"), None);
    assert_eq!(parse_scroll_count("2147483648次"), None);
    assert_eq!(parse_scroll_count("5次次"), None);
}

#[test]
fn drag_limits_per_level() {
    assert_eq!(get_drag_max_by_count(0), Some((905, 525)));
    assert_eq!(get_drag_max_by_count(1), Some((971, 563)));
    assert_eq!(get_drag_max_by_count(5), Some((1235, 716)));
    assert_eq!(get_drag_max_by_count(6), Some((1276, 716)));
    assert_eq!(get_drag_max_by_count(8), Some((1276, 716)));
    assert_eq!(get_drag_max_by_count(9), None);
    assert_eq!(get_drag_max_by_count(-1), None);
    assert_eq!(get_drag_max("2次"), Some((1037, 602)));
    assert_eq!(get_drag_max("x次"), None);
}

#[test]
fn scroll_mode_names_read_back() {
    for c in 0..=8 {
        let name = scroll_mode_name_of(c);
        assert_eq!(name, format!("{}次", c));
        assert_eq!(parse_scroll_count(&name), Some(c));
        assert!(get_drag_max(&name).is_some());
    }
}

#[test]
fn default_scroll_modes_are_nine_levels() {
    let modes = default_scroll_modes();
    assert_eq!(modes.len(), 9);
    for (i, m) in modes.iter().enumerate() {
        assert_eq!(m.id, None);
        assert_eq!(m.name, format!("{}次", i));
        assert_eq!(m.scroll_count, i as i32);
        assert_eq!(m.is_default, i == 0);
    }
}

#[test]
fn session_status_names() {
    assert_eq!(SessionStatus::Capturing.as_str(), "capturing");
    assert_eq!(SessionStatus::Completed.as_str(), "completed");
    assert_eq!(SessionStatus::Interrupted.as_str(), "interrupted");
    assert_eq!(SessionStatus::Error.as_str(), "error");
    let all = [SessionStatus::Capturing, SessionStatus::Completed, SessionStatus::Interrupted, SessionStatus::Error];
    for a in all.iter() {
        for b in all.iter() {
            assert_eq!(a.as_str() == b.as_str(), a == b);
        }
    }
}

#[test]
fn new_session_is_capturing() {
    let s = CaptureSession::new(Some("武陵-武陵城".to_string()), Some("0次".to_string()));
    assert_eq!(s.id, None);
    assert_eq!(s.region.as_deref(), Some("武陵-武陵城"));
    assert_eq!(s.scroll_mode.as_deref(), Some("0次"));
    assert_eq!(s.status, "capturing");
    assert_eq!(s.finished_at, None);
    assert_eq!(s.grid_rows, None);
    assert_eq!(s.total_shots, None);
    assert_eq!(s.original_path, None);
    assert_eq!(s.thumbnail_path, None);
    assert_eq!(s.started_at.len(), 19);
}

#[test]
fn crop_box_fields() {
    let c = CropBox { x: 1, y: 2, w: 3, h: 4 };
    assert_eq!(c, CropBox { x: 1, y: 2, w: 3, h: 4 });
}

#[test]
fn default_settings_values() {
    let s = default_settings();
    assert_eq!(s.len(), 22);
    assert_eq!(s[0], ("theme", "dark"));
    assert_eq!(s[2], ("output_format", "JPG"));
    assert_eq!(s[3], ("jpg_quality", "95"));
    assert_eq!(s[15], ("minimize_on_capture", "true"));
    assert_eq!(s[16], ("filename_pattern", "{region}_{timestamp}_{scrollMode}"));
    assert_eq!(s[17], ("last_region", "武陵-武陵城"));
    assert_eq!(s[21], ("last_cols", "2"));
    for i in 0..s.len() {
        for j in (i + 1)..s.len() {
            assert_ne!(s[i].0, s[j].0);
        }
    }
}

#[test]
fn window_state_default_size() {
    let w = WindowState::default();
    assert_eq!(w.x, None);
    assert_eq!(w.y, None);
    assert_eq!(w.width, Some(900));
    assert_eq!(w.height, Some(600));
    assert!(!w.is_maximized);
    assert!(!w.always_on_top);
    assert_eq!(w.updated_at.len(), 19);
}

#[test]
fn window_state_observed_wraps_sizes() {
    let w = WindowState::observed(-5, 7, 1024, 3_000_000_000, true, false);
    assert_eq!(w.x, Some(-5));
    assert_eq!(w.y, Some(7));
    assert_eq!(w.width, Some(1024));
    assert_eq!(w.height, Some(3_000_000_000u32 as i32));
    assert!(w.is_maximized);
    assert!(!w.always_on_top);
}

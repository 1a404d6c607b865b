use zmd_prtsc::services::capture_store::CaptureStore;
use zmd_prtsc::services::stitcher::RgbaImage;
use zmd_prtsc::commands::capture::{ensure_idle, find_scroll_mode, region_not_found_error, start_session};
use zmd_prtsc::commands::history::{files_to_delete, split_paths, trim_text};
use zmd_prtsc::commands::window::{game_window_answer, WindowInfo as FrontWindowInfo};
use zmd_prtsc::models::scroll_mode::default_scroll_modes;
use zmd_prtsc::models::session::{CaptureSession, SessionStatus};
use zmd_prtsc::models::window_state::WindowState;
use zmd_prtsc::services::auto_capture::{
    apply_grid_override, client_center, int_setting_or, invalid_grid_error, labeled_error, minimize_on_capture,
    next_capture_action, next_scroll_step, scroll_pending, validate_grid, CaptureAction, ScrollStep,
};
use zmd_prtsc::services::capture_pipeline::{
    build_filename, finish_session, folder_setting, image_extension, jpg_quality, outcome_status, output_format,
};
use zmd_prtsc::services::game_window::{client_rect_from, is_endfield_title, window_info_from_rect, ClientRect};
use zmd_prtsc::services::input::{calc_drag_coords, jitter_30ms, refresh_view_points, CameraDirection};
use zmd_prtsc::services::input_win::{normalize_coord, wheel_events};
use zmd_prtsc::services::persistence::{
    is_fixed_category, missing_columns, scroll_count_or_error, seeds_region,
};
use zmd_prtsc::services::screenshot::{
    bgra_to_rgba, center_capture_rect, validate_capture_rect, validate_client_size,
};
use zmd_prtsc::services::shared::{candidate_path, now_str, pick_unique_path, resolve_unique_path, LogPayload};
use zmd_prtsc::services::uac::to_wide;
use zmd_prtsc::services::window_state::{point_in_work_area, restore_plan};

#[test]
fn drag_coords_right_left_down() {
    let r = calc_drag_coords(CameraDirection::Right, (300, 200), 100, 50, 720, 10, 20);
    assert_eq!(r, ((420, 760), (120, 760)));
    let l = calc_drag_coords(CameraDirection::Left, (300, 200), 100, 50, 720, 10, 20);
    assert_eq!(l, ((120, 760), (420, 760)));
    let d = calc_drag_coords(CameraDirection::Down, (300, 200), 100, 50, 720, 10, 20);
    assert_eq!(d, ((120, 260), (120, 60)));
    assert_eq!(l.0, r.1);
    assert_eq!(l.1, r.0);
}

#[test]
fn refresh_view_goes_300_right_and_down() {
    assert_eq!(refresh_view_points(10, 20, 5, 7), ((317, 325), (17, 25)));
}

#[test]
fn jitter_is_at_most_60ms() {
    for _ in 0..50 {
        assert!(jitter_30ms() <= std::time::Duration::from_millis(60));
    }
}

#[test]
fn serpentine_walk_two_by_two() {
    let mut steps = Vec::new();
    let mut pos = 0u64;
    loop {
        let a = next_capture_action(2, 2, pos, true);
        steps.push(a);
        if a == CaptureAction::Finish {
            break;
        }
        pos += 1;
    }
    assert_eq!(
        steps,
        vec![
            CaptureAction::Capture { row: 0, col: 0 },
            CaptureAction::Move(CameraDirection::Right),
            CaptureAction::Capture { row: 0, col: 1 },
            CaptureAction::Move(CameraDirection::Down),
            CaptureAction::Capture { row: 1, col: 1 },
            CaptureAction::Move(CameraDirection::Left),
            CaptureAction::Capture { row: 1, col: 0 },
            CaptureAction::Finish,
        ]
    );
}

#[test]
fn serpentine_walk_captures_each_cell_once() {
    let (rows, cols) = (3u32, 4u32);
    let mut seen = vec![vec![0; cols as usize]; rows as usize];
    let mut pos = 0u64;
    loop {
        match next_capture_action(rows, cols, pos, true) {
            CaptureAction::Capture { row, col } => seen[row as usize][col as usize] += 1,
            CaptureAction::Move(_) => {}
            CaptureAction::Finish => break,
        }
        pos += 1;
    }
    assert!(seen.iter().all(|r| r.iter().all(|&c| c == 1)));
}

#[test]
fn serpentine_walk_stops_when_asked() {
    assert_eq!(next_capture_action(2, 2, 0, false), CaptureAction::Finish);
    assert_eq!(next_capture_action(2, 2, 3, false), CaptureAction::Finish);
    assert_eq!(next_capture_action(2, 2, 1, false), CaptureAction::Move(CameraDirection::Right));
    assert_eq!(next_capture_action(0, 5, 0, true), CaptureAction::Finish);
}

#[test]
fn grid_checks() {
    assert_eq!(validate_grid(2, 3).ok(), Some(6));
    let e = validate_grid(0, 3).err().unwrap();
    assert_eq!(e.code, "INVALID_GRID");
    assert_eq!(e.message, "网格行列数必须大于 0（收到 0x3）");
    let e = invalid_grid_error(-1, 2);
    assert_eq!(e.message, "网格行列数必须大于 0（收到 -1x2）");
    assert_eq!(apply_grid_override(2, 2, Some(3), Some(4)).ok(), Some((3, 4)));
    assert_eq!(apply_grid_override(2, 2, Some(3), None).ok(), Some((2, 2)));
    let e = apply_grid_override(2, 2, Some(0), Some(4)).err().unwrap();
    assert_eq!(e.code, "INVALID_GRID");
    assert_eq!(e.message, "网格行列数必须大于 0（收到 0x4）");
}

#[test]
fn capture_settings() {
    assert!(!minimize_on_capture(Some("false")));
    assert!(minimize_on_capture(Some("False")));
    assert!(minimize_on_capture(Some("true")));
    assert!(minimize_on_capture(None));
    assert_eq!(int_setting_or(Some("12"), 10), 12);
    assert_eq!(int_setting_or(Some("-3"), 10), -3);
    assert_eq!(int_setting_or(Some("x"), 10), 10);
    assert_eq!(int_setting_or(None, 10), 10);
}

#[test]
fn wheel_turns_at_client_center() {
    let c = ClientRect { left: 100, top: 50, width: 1281, height: 721 };
    assert_eq!(client_center(c), (740, 410));
    let c = ClientRect { left: 0, top: 0, width: -3, height: -5 };
    assert_eq!(client_center(c), (-1, -2));
}

#[test]
fn scroll_steps() {
    let mut sent = 0;
    while next_scroll_step(3, sent, true) == ScrollStep::Notch {
        sent += 1;
    }
    assert_eq!(sent, 3);
    assert_eq!(next_scroll_step(0, 0, true), ScrollStep::Done);
    assert_eq!(next_scroll_step(3, 1, false), ScrollStep::Done);
    assert!(scroll_pending(3, 2));
    assert!(!scroll_pending(3, 3));
    assert!(!scroll_pending(0, 0));
}

#[test]
fn labeled_errors() {
    let e = labeled_error("查找窗口失败", "boom", "WINDOW_FIND_FAILED");
    assert_eq!(e.message, "查找窗口失败: boom");
    assert_eq!(e.code, "WINDOW_FIND_FAILED");
}

#[test]
fn pipeline_settings() {
    assert_eq!(output_format(Some("png")), "PNG");
    assert_eq!(output_format(Some("Jpg")), "JPG");
    assert_eq!(output_format(None), "JPG");
    assert_eq!(jpg_quality(Some("80")), 80);
    assert_eq!(jpg_quality(Some("300")), 95);
    assert_eq!(jpg_quality(Some("")), 95);
    assert_eq!(jpg_quality(None), 95);
    assert_eq!(image_extension("PNG"), "png");
    assert_eq!(image_extension("JPG"), "jpg");
    assert_eq!(image_extension("png"), "jpg");
    assert_eq!(folder_setting(Some("D:/out")), Some("D:/out".to_string()));
    assert_eq!(folder_setting(Some("")), None);
    assert_eq!(folder_setting(None), None);
}

#[test]
fn filenames_from_pattern() {
    assert_eq!(build_filename(None, "20240102_030405", "武陵-武陵城", "0次"), "武陵-武陵城_20240102_030405_0次");
    assert_eq!(build_filename(Some("{prefix}_{timestamp}"), "T", "R", "M"), "stitched_T");
    assert_eq!(build_filename(Some("{region}{region}"), "T", "R", "M"), "RR");
    assert_eq!(build_filename(Some("plain"), "T", "R", "M"), "plain");
}

#[test]
fn capture_outcomes() {
    assert_eq!(outcome_status(false, 4, true), SessionStatus::Error);
    assert_eq!(outcome_status(true, 0, true), SessionStatus::Interrupted);
    assert_eq!(outcome_status(true, 4, false), SessionStatus::Error);
    assert_eq!(outcome_status(true, 4, true), SessionStatus::Completed);
}

#[test]
fn finishing_sessions() {
    let mut s = CaptureSession::new(Some("r".to_string()), Some("0次".to_string()));
    finish_session(&mut s, SessionStatus::Completed, "2024-01-01 00:00:00".to_string(), Some("a.jpg".to_string()), Some("t.jpg".to_string()));
    assert_eq!(s.status, "completed");
    assert_eq!(s.finished_at.as_deref(), Some("2024-01-01 00:00:00"));
    assert_eq!(s.original_path.as_deref(), Some("a.jpg"));
    assert_eq!(s.thumbnail_path.as_deref(), Some("t.jpg"));
    let mut s = CaptureSession::new(None, None);
    finish_session(&mut s, SessionStatus::Interrupted, "x".to_string(), Some("a.jpg".to_string()), None);
    assert_eq!(s.status, "interrupted");
    assert_eq!(s.original_path, None);
}

#[test]
fn game_window_titles() {
    assert!(is_endfield_title("Arknights: Endfield"));
    assert!(is_endfield_title("ENDFIELD"));
    assert!(!is_endfield_title("Notepad"));
    assert!(!is_endfield_title("End field"));
    let w = window_info_from_rect("Endfield".to_string(), 42, (10, 20, 1930, 1100));
    assert_eq!((w.left, w.top, w.width, w.height, w.hwnd), (10, 20, 1920, 1080, 42));
    let c = client_rect_from((0, 0, 1280, 720), (5, 6));
    assert_eq!(c, ClientRect { left: 5, top: 6, width: 1280, height: 720 });
}

#[test]
fn game_window_answers() {
    let info = window_info_from_rect("Endfield".to_string(), 7, (0, 0, 10, 10));
    let found: FrontWindowInfo = game_window_answer(Ok(Some(info))).ok().unwrap().unwrap();
    assert_eq!(found.title, "Endfield");
    assert_eq!(found.width, 10);
    assert!(game_window_answer(Ok(None)).ok().unwrap().is_none());
    let e = game_window_answer(Err("gone".to_string())).err().unwrap();
    assert_eq!(e.message, "gone");
    assert_eq!(e.code, "WINDOW_ERROR");
}

#[test]
fn normalized_coordinates() {
    assert_eq!(normalize_coord(960, 1920), 32767);
    assert_eq!(normalize_coord(1920, 1920), 65535);
    assert_eq!(normalize_coord(-1, 1920), -34);
    assert_eq!(normalize_coord(1, 0), 65535);
    assert_eq!(normalize_coord(1, -5), 65535);
}

#[test]
fn wheel_event_data() {
    assert_eq!(wheel_events(-3), ((-120i32) as u32, 3));
    assert_eq!(wheel_events(2), (120, 2));
    assert_eq!(wheel_events(0), (120, 0));
}

#[test]
fn pixels_become_rgba() {
    let mut p = vec![1u8, 2, 3, 0, 5, 6, 7, 8];
    bgra_to_rgba(&mut p);
    assert_eq!(p, vec![3, 2, 1, 255, 7, 6, 5, 255]);
    bgra_to_rgba(&mut p);
    assert_eq!(p, vec![1, 2, 3, 255, 5, 6, 7, 255]);
    let mut q = vec![1u8, 2, 3];
    bgra_to_rgba(&mut q);
    assert_eq!(q, vec![3, 2, 1]);
}

#[test]
fn capture_rect_checks() {
    assert!(validate_capture_rect((1, 2, 3, 4)).is_ok());
    let e = validate_capture_rect((1, -2, 0, 5)).err().unwrap();
    assert_eq!(e.code, "INVALID_RECT");
    assert_eq!(e.message, "无效的截图区域: (1, -2, 0, 5)");
    let e = validate_client_size(ClientRect { left: 0, top: 0, width: 0, height: 10 }).err().unwrap();
    assert_eq!(e.code, "INVALID_CLIENT_RECT");
    assert_eq!(e.message, "客户区尺寸无效: 0x10");
    assert!(validate_client_size(ClientRect { left: 0, top: 0, width: 1, height: 1 }).is_ok());
}

#[test]
fn capture_region_is_centered() {
    let c = ClientRect { left: 100, top: 50, width: 1920, height: 1080 };
    assert_eq!(center_capture_rect(c, 1202, 700, 22), (459, 262, 1202, 700));
    let c = ClientRect { left: 0, top: 0, width: 10, height: 10 };
    assert_eq!(center_capture_rect(c, 13, 13, 0), (-1, -1, 13, 13));
}

#[test]
fn wide_strings() {
    assert_eq!(to_wide(""), vec![0]);
    assert_eq!(to_wide("runas"), vec![114, 117, 110, 97, 115, 0]);
    assert_eq!(to_wide("终😀"), vec![0x7EC8, 0xD83D, 0xDE00, 0]);
    let s = "C:\\游戏\\a.exe";
    let mut expected: Vec<u16> = s.encode_utf16().collect();
    expected.push(0);
    assert_eq!(to_wide(s), expected);
}

#[test]
fn window_restore_plans() {
    let mut st = WindowState::observed(100, 100, 800, 600, false, true);
    let p = restore_plan(&st, Some((0, 0, 1920, 1040)));
    assert!(!p.maximize);
    assert_eq!(p.position, Some((100, 100)));
    assert!(!p.center);
    assert_eq!(p.size, Some((800, 600)));
    assert!(p.always_on_top);
    let p = restore_plan(&st, Some((0, 0, 50, 50)));
    assert_eq!(p.position, None);
    assert!(p.center);
    let p = restore_plan(&st, None);
    assert!(p.center);
    st.is_maximized = true;
    let p = restore_plan(&st, Some((0, 0, 1920, 1040)));
    assert!(p.maximize);
    assert_eq!(p.position, None);
    assert_eq!(p.size, None);
    assert!(p.always_on_top);
    let d = WindowState::default();
    let p = restore_plan(&d, None);
    assert!(p.center);
    assert_eq!(p.size, Some((900, 600)));
    assert!(!p.always_on_top);
}

#[test]
fn work_area_edges() {
    assert!(point_in_work_area(0, 0, (0, 0, 10, 10)));
    assert!(!point_in_work_area(10, 0, (0, 0, 10, 10)));
    assert!(!point_in_work_area(0, 10, (0, 0, 10, 10)));
    assert!(!point_in_work_area(-1, 5, (0, 0, 10, 10)));
}

#[test]
fn unique_paths() {
    assert_eq!(resolve_unique_path("definitely_not_here_123.png"), "definitely_not_here_123.png");
    assert_eq!(resolve_unique_path("/tmp"), "/tmp_1.jpg");
    assert_eq!(candidate_path("dir/a.png", 2), "dir/a_2.png");
    assert_eq!(candidate_path("noext", 1), "noext_1.jpg");
    assert_eq!(candidate_path("x/y/pic.tar.gz", 12), "x/y/pic.tar_12.gz");
    assert_eq!(pick_unique_path("d/a.png", &vec![false]), Some("d/a.png".to_string()));
    assert_eq!(pick_unique_path("d/a.png", &vec![true, true, false]), Some("d/a_2.png".to_string()));
    assert_eq!(pick_unique_path("d/a.png", &vec![true, false, false]), Some("d/a_1.png".to_string()));
    assert_eq!(pick_unique_path("d/a.png", &vec![true, true]), None);
    assert_eq!(pick_unique_path("d/a.png", &vec![]), None);
}

#[test]
fn log_payloads() {
    let p = LogPayload::new("warn", "注意".to_string());
    assert_eq!(p.level, "warn");
    assert_eq!(p.message, "注意");
    assert_eq!(p.timestamp.len(), 19);
    assert_eq!(now_str().len(), 19);
}

#[test]
fn capture_command_helpers() {
    assert!(ensure_idle(false).is_ok());
    let e = ensure_idle(true).err().unwrap();
    assert_eq!(e.code, "CAPTURE_IN_PROGRESS");
    assert_eq!(e.message, "截图正在进行中，请先停止当前任务");
    let e = region_not_found_error("武陵", "16:9", "3次");
    assert_eq!(e.code, "REGION_NOT_FOUND");
    assert_eq!(e.message, "未找到区域配置: 武陵/16:9/3次");
    let modes = default_scroll_modes();
    let m = find_scroll_mode(&modes, "4次").ok().unwrap();
    assert_eq!(m.scroll_count, 4);
    assert_eq!(m.name, "4次");
    let e = find_scroll_mode(&modes, "9次").err().unwrap();
    assert_eq!(e.code, "SCROLL_MODE_NOT_FOUND");
    assert_eq!(e.message, "未找到滚动模式: 9次");
    let s = start_session("武陵".to_string(), "0次".to_string(), 3, 4);
    assert_eq!(s.grid_rows, Some(3));
    assert_eq!(s.grid_cols, Some(4));
    assert_eq!(s.total_shots, Some(12));
    assert_eq!(s.status, "capturing");
}

#[test]
fn history_files() {
    assert_eq!(split_paths("a.png\n b.png \r\n\n"), vec!["a.png".to_string(), "b.png".to_string()]);
    assert_eq!(split_paths(""), Vec::<String>::new());
    assert_eq!(split_paths("only"), vec!["only".to_string()]);
    assert_eq!(split_paths("\u{3000}c.png\u{a0}\n\t\u{2003}\n"), vec!["c.png".to_string()]);
    assert_eq!(split_paths("a b.png"), vec!["a b.png".to_string()]);
    assert_eq!(trim_text(" \t x y \u{205f}"), "x y");
    assert_eq!(trim_text("\u{200b}x"), "\u{200b}x");
    let mut s = CaptureSession::new(None, None);
    s.thumbnail_path = Some("t.jpg".to_string());
    s.original_path = Some("o.png".to_string());
    s.exported_path = Some("e1.jpg\ne2.jpg".to_string());
    assert_eq!(files_to_delete(&s, false, false), vec!["t.jpg".to_string()]);
    assert_eq!(files_to_delete(&s, true, false), vec!["t.jpg".to_string(), "o.png".to_string()]);
    assert_eq!(
        files_to_delete(&s, true, true),
        vec!["t.jpg".to_string(), "o.png".to_string(), "e1.jpg".to_string(), "e2.jpg".to_string()]
    );
    s.thumbnail_path = Some(String::new());
    assert_eq!(files_to_delete(&s, false, true), vec!["e1.jpg".to_string(), "e2.jpg".to_string()]);
}

#[test]
fn persistence_rules() {
    assert!(is_fixed_category("大地图"));
    assert!(is_fixed_category("自定义"));
    assert!(!is_fixed_category("基建"));
    assert!(seeds_region("大地图", "3次"));
    assert!(seeds_region("武陵", "0次"));
    assert!(!seeds_region("武陵", "3次"));
    assert_eq!(scroll_count_or_error("7次").ok(), Some(7));
    let e = scroll_count_or_error("x").err().unwrap();
    assert_eq!(e.code, "INVALID_SCROLL_MODE");
    assert_eq!(e.message, "无效的 scroll_mode: x");
    let existing = vec!["id".to_string(), "capture_region_x".to_string()];
    let wanted = vec!["capture_region_x", "capture_region_y", "capture_offset_y", "template_ref"];
    assert_eq!(missing_columns(&existing, &wanted), vec![1, 2, 3]);
    assert_eq!(missing_columns(&vec![], &wanted), vec![0, 1, 2, 3]);
}

#[test]
fn replace_with_empty_pattern_matches_every_boundary() {
    assert_eq!(zmd_prtsc::text::replace_all("ab", "", "x"), "xaxbx");
    assert_eq!(zmd_prtsc::text::replace_all("", "", "x"), "x");
    assert_eq!(zmd_prtsc::text::replace_all("终a", "", "-"), "-终-a-");
    assert_eq!(zmd_prtsc::text::replace_all("aaa", "aa", "b"), "ba");
}

#[test]
fn capture_store_hands_results_out_once() {
    let mut st = CaptureStore::new();
    assert!(st.take_preview_png().is_none());
    assert_eq!(st.preview_path(), None);
    st.set_preview_png(vec![1, 2, 3]);
    assert_eq!(st.take_preview_png(), Some(vec![1, 2, 3]));
    assert_eq!(st.take_preview_png(), None);
    st.set_preview_path("a.png".to_string());
    assert_eq!(st.preview_path(), Some("a.png".to_string()));
    assert_eq!(st.preview_path(), Some("a.png".to_string()));
    st.store_screenshots(vec![(0, 1, RgbaImage::new(1, 1))]);
    let shots = st.take_screenshots();
    assert_eq!(shots.len(), 1);
    assert_eq!((shots[0].0, shots[0].1), (0, 1));
    assert!(st.take_screenshots().is_empty());
}

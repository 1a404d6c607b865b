use vstd::prelude::*;

verus! {

/// The settings a fresh installation starts with, as (key, value) pairs.
pub open spec fn default_setting_pairs() -> Seq<(Seq<char>, Seq<char>)> {
    seq![
        ("theme"@, "dark"@),
        ("language"@, "zh"@),
        ("output_format"@, "JPG"@),
        ("jpg_quality"@, "95"@),
        ("original_folder"@, ""@),
        ("screenshot_folder"@, ""@),
        ("thumbnail_folder"@, ""@),
        ("stabilize_delay"@, "0.13"@),
        ("screenshot_delay"@, "0.13"@),
        ("drag_duration"@, "0.07"@),
        ("drag_margin_bottom"@, "10"@),
        ("drag_margin_left"@, "10"@),
        ("capture_offset_y"@, "0.02"@),
        ("overlap_min"@, "0.0"@),
        ("overlap_max"@, "0.5"@),
        ("minimize_on_capture"@, "true"@),
        ("filename_pattern"@, "{region}_{timestamp}_{scrollMode}"@),
        ("last_region"@, "武陵-武陵城"@),
        ("last_scroll_mode"@, "0次"@),
        ("last_aspect_ratio"@, "16:9"@),
        ("last_rows"@, "2"@),
        ("last_cols"@, "2"@),
    ]
}

/// The text of a list of (key, value) pairs.
pub open spec fn pairs_view(v: Seq<(&'static str, &'static str)>) -> Seq<(Seq<char>, Seq<char>)> {
    v.map_values(|p: (&'static str, &'static str)| (p.0@, p.1@))
}

/// The default application settings, in the order in which they are seeded.
pub fn default_settings() -> (v: Vec<(&'static str, &'static str)>)
    ensures
        pairs_view(v@) == default_setting_pairs(),
{
    let mut v: Vec<(&'static str, &'static str)> = Vec::new();
    v.push(("theme", "dark"));
    v.push(("language", "zh"));
    v.push(("output_format", "JPG"));
    v.push(("jpg_quality", "95"));
    v.push(("original_folder", ""));
    v.push(("screenshot_folder", ""));
    v.push(("thumbnail_folder", ""));
    v.push(("stabilize_delay", "0.13"));
    v.push(("screenshot_delay", "0.13"));
    v.push(("drag_duration", "0.07"));
    v.push(("drag_margin_bottom", "10"));
    v.push(("drag_margin_left", "10"));
    v.push(("capture_offset_y", "0.02"));
    v.push(("overlap_min", "0.0"));
    v.push(("overlap_max", "0.5"));
    v.push(("minimize_on_capture", "true"));
    v.push(("filename_pattern", "{region}_{timestamp}_{scrollMode}"));
    v.push(("last_region", "武陵-武陵城"));
    v.push(("last_scroll_mode", "0次"));
    v.push(("last_aspect_ratio", "16:9"));
    v.push(("last_rows", "2"));
    v.push(("last_cols", "2"));
    assert(pairs_view(v@) =~= default_setting_pairs());
    v
}

/// No key is seeded twice: the default settings name distinct keys.
pub proof fn lemma_default_setting_keys_distinct()
    ensures
        forall|i: int, j: int|
            0 <= i < j < default_setting_pairs().len() ==> #[trigger] default_setting_pairs()[i].0
                != #[trigger] default_setting_pairs()[j].0,
{
    let p = default_setting_pairs();
    reveal_strlit("theme");
    reveal_strlit("language");
    reveal_strlit("output_format");
    reveal_strlit("jpg_quality");
    reveal_strlit("original_folder");
    reveal_strlit("screenshot_folder");
    reveal_strlit("thumbnail_folder");
    reveal_strlit("stabilize_delay");
    reveal_strlit("screenshot_delay");
    reveal_strlit("drag_duration");
    reveal_strlit("drag_margin_bottom");
    reveal_strlit("drag_margin_left");
    reveal_strlit("capture_offset_y");
    reveal_strlit("overlap_min");
    reveal_strlit("overlap_max");
    reveal_strlit("minimize_on_capture");
    reveal_strlit("filename_pattern");
    reveal_strlit("last_region");
    reveal_strlit("last_scroll_mode");
    reveal_strlit("last_aspect_ratio");
    reveal_strlit("last_rows");
    reveal_strlit("last_cols");
    assert(p[0].0 == "theme"@);
    assert(p[1].0 == "language"@);
    assert(p[2].0 == "output_format"@);
    assert(p[3].0 == "jpg_quality"@);
    assert(p[4].0 == "original_folder"@);
    assert(p[5].0 == "screenshot_folder"@);
    assert(p[6].0 == "thumbnail_folder"@);
    assert(p[7].0 == "stabilize_delay"@);
    assert(p[8].0 == "screenshot_delay"@);
    assert(p[9].0 == "drag_duration"@);
    assert(p[10].0 == "drag_margin_bottom"@);
    assert(p[11].0 == "drag_margin_left"@);
    assert(p[12].0 == "capture_offset_y"@);
    assert(p[13].0 == "overlap_min"@);
    assert(p[14].0 == "overlap_max"@);
    assert(p[15].0 == "minimize_on_capture"@);
    assert(p[16].0 == "filename_pattern"@);
    assert(p[17].0 == "last_region"@);
    assert(p[18].0 == "last_scroll_mode"@);
    assert(p[19].0 == "last_aspect_ratio"@);
    assert(p[20].0 == "last_rows"@);
    assert(p[21].0 == "last_cols"@);
    assert("theme"@.len() == 5);
    assert("language"@.len() == 8);
    assert("output_format"@.len() == 13);
    assert("jpg_quality"@.len() == 11);
    assert("original_folder"@.len() == 15);
    assert("screenshot_folder"@.len() == 17);
    assert("thumbnail_folder"@.len() == 16);
    assert("stabilize_delay"@.len() == 15);
    assert("screenshot_delay"@.len() == 16);
    assert("drag_duration"@.len() == 13);
    assert("drag_margin_bottom"@.len() == 18);
    assert("drag_margin_left"@.len() == 16);
    assert("capture_offset_y"@.len() == 16);
    assert("overlap_min"@.len() == 11);
    assert("overlap_max"@.len() == 11);
    assert("minimize_on_capture"@.len() == 19);
    assert("filename_pattern"@.len() == 16);
    assert("last_region"@.len() == 11);
    assert("last_scroll_mode"@.len() == 16);
    assert("last_aspect_ratio"@.len() == 17);
    assert("last_rows"@.len() == 9);
    assert("last_cols"@.len() == 9);
    assert("output_format"@[0] != "drag_duration"@[0]);
    assert("jpg_quality"@[0] != "overlap_min"@[0]);
    assert("jpg_quality"@[0] != "overlap_max"@[0]);
    assert("jpg_quality"@[0] != "last_region"@[0]);
    assert("original_folder"@[0] != "stabilize_delay"@[0]);
    assert("screenshot_folder"@[0] != "last_aspect_ratio"@[0]);
    assert("thumbnail_folder"@[0] != "screenshot_delay"@[0]);
    assert("thumbnail_folder"@[0] != "drag_margin_left"@[0]);
    assert("thumbnail_folder"@[0] != "capture_offset_y"@[0]);
    assert("thumbnail_folder"@[0] != "filename_pattern"@[0]);
    assert("thumbnail_folder"@[0] != "last_scroll_mode"@[0]);
    assert("screenshot_delay"@[0] != "drag_margin_left"@[0]);
    assert("screenshot_delay"@[0] != "capture_offset_y"@[0]);
    assert("screenshot_delay"@[0] != "filename_pattern"@[0]);
    assert("screenshot_delay"@[0] != "last_scroll_mode"@[0]);
    assert("drag_margin_left"@[0] != "capture_offset_y"@[0]);
    assert("drag_margin_left"@[0] != "filename_pattern"@[0]);
    assert("drag_margin_left"@[0] != "last_scroll_mode"@[0]);
    assert("capture_offset_y"@[0] != "filename_pattern"@[0]);
    assert("capture_offset_y"@[0] != "last_scroll_mode"@[0]);
    assert("overlap_min"@[9] != "overlap_max"@[9]);
    assert("overlap_min"@[0] != "last_region"@[0]);
    assert("overlap_max"@[0] != "last_region"@[0]);
    assert("filename_pattern"@[0] != "last_scroll_mode"@[0]);
    assert("last_rows"@[5] != "last_cols"@[5]);
    assert forall|i: int, j: int| 0 <= i < j < p.len() implies #[trigger] p[i].0 != #[trigger] p[j].0 by {
        assert(i == 0 || i == 1 || i == 2 || i == 3 || i == 4 || i == 5 || i == 6 || i == 7 || i == 8 || i == 9 || i == 10 || i == 11 || i == 12 || i == 13 || i == 14 || i == 15 || i == 16 || i == 17 || i == 18 || i == 19 || i == 20 || i == 21);
        assert(j == 0 || j == 1 || j == 2 || j == 3 || j == 4 || j == 5 || j == 6 || j == 7 || j == 8 || j == 9 || j == 10 || j == 11 || j == 12 || j == 13 || j == 14 || j == 15 || j == 16 || j == 17 || j == 18 || j == 19 || j == 20 || j == 21);
    }
}

} // verus!

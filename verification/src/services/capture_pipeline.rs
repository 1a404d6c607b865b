use vstd::prelude::*;

use crate::error::AppError;
use crate::models::session::{status_name, CaptureSession, SessionStatus};
use crate::services::stitcher::{
    encode_jpeg, encode_png, black_where_transparent, generate_thumbnail, jpeg_encoding, lemma_extent_nonneg,
    max_col, max_row, png_fast_encoding, step, stitch_error_code, stitch_error_message, stitch_images,
    stitch_ready, stitched_h, stitched_pixels, stitched_w, thumbnail_encodes, thumbnail_fails, thumbnail_height, thumbnail_width, tile_h,
    tile_w, RgbaImage, Shot, THUMBNAIL_QUALITY,
};
use crate::text::{
    append_str, parse_u8, parse_u8_spec, replace_all, replace_spec, str_eq, string_from_chars, to_uppercase,
    uppercase_spec,
};

verus! {

/// The output format named by the `output_format` setting, upper-cased;
/// `JPG` when the setting is missing.
pub open spec fn output_format_spec(setting: Option<Seq<char>>) -> Seq<char> {
    match setting {
        Some(s) => uppercase_spec(s),
        None => "JPG"@,
    }
}

/// Reads the output format from its setting.
pub fn output_format(setting: Option<&str>) -> (r: String)
    ensures
        r@ == output_format_spec(
            match setting {
                Some(s) => Some(s@),
                None => None,
            },
        ),
{
    match setting {
        Some(s) => to_uppercase(s),
        None => "JPG".to_string(),
    }
}

/// The JPEG quality named by the `jpg_quality` setting: its value when it
/// parses as a `u8`, 95 otherwise.
pub open spec fn jpg_quality_spec(setting: Option<Seq<char>>) -> int {
    match setting {
        Some(s) => match parse_u8_spec(s) {
            Some(v) => v,
            None => 95,
        },
        None => 95,
    }
}

/// Reads the JPEG quality from its setting.
pub fn jpg_quality(setting: Option<&str>) -> (r: u8)
    ensures
        r as int == jpg_quality_spec(
            match setting {
                Some(s) => Some(s@),
                None => None,
            },
        ),
{
    match setting {
        Some(s) => match parse_u8(s) {
            Some(v) => v,
            None => 95,
        },
        None => 95,
    }
}

/// The file name pattern used when none is set.
pub open spec fn default_filename_pattern() -> Seq<char> {
    "{region}_{timestamp}_{scrollMode}"@
}

/// The file name (without extension) of a stitched image: the pattern with
/// `{prefix}` replaced by `stitched`, then `{timestamp}`, `{region}` and
/// `{scrollMode}` by their values, in that order.
pub open spec fn filename_spec(pattern: Seq<char>, timestamp: Seq<char>, region: Seq<char>, scroll_mode: Seq<char>) -> Seq<
    char,
> {
    replace_spec(
        replace_spec(
            replace_spec(replace_spec(pattern, "{prefix}"@, "stitched"@), "{timestamp}"@, timestamp),
            "{region}"@,
            region,
        ),
        "{scrollMode}"@,
        scroll_mode,
    )
}

/// Builds the file name of a stitched image from the `filename_pattern`
/// setting (the default pattern when it is missing).
pub fn build_filename(pattern: Option<&str>, timestamp: &str, region: &str, scroll_mode: &str) -> (r: String)
    ensures
        r@ == filename_spec(
            match pattern {
                Some(p) => p@,
                None => default_filename_pattern(),
            },
            timestamp@,
            region@,
            scroll_mode@,
        ),
{
    let p: &str = match pattern {
        Some(p) => p,
        None => "{region}_{timestamp}_{scrollMode}",
    };
    proof {
        reveal_strlit("{prefix}");
        reveal_strlit("{timestamp}");
        reveal_strlit("{region}");
        reveal_strlit("{scrollMode}");
    }
    let a = replace_all(p, "{prefix}", "stitched");
    let b = replace_all(a.as_str(), "{timestamp}", timestamp);
    let c = replace_all(b.as_str(), "{region}", region);
    replace_all(c.as_str(), "{scrollMode}", scroll_mode)
}

/// The file extension for an output format: `png` for `PNG`, `jpg` for any
/// other.
pub fn image_extension(format: &str) -> (r: &'static str)
    ensures
        r@ == (if format@ == "PNG"@ { "png"@ } else { "jpg"@ }),
{
    if str_eq(format, "PNG") {
        "png"
    } else {
        "jpg"
    }
}

/// The file name of a saved image: its name and extension joined by a dot.
pub fn output_file_name(name: &str, ext: &str) -> (r: String)
    ensures
        r@ == name@ + "."@ + ext@,
{
    let mut m: Vec<char> = Vec::new();
    append_str(&mut m, name);
    append_str(&mut m, ".");
    append_str(&mut m, ext);
    string_from_chars(&m)
}

/// The file name of the thumbnail of a saved image: the saved file's stem
/// (the planned name when the stem cannot be read) with `.jpg`.
pub fn thumbnail_file_name(saved_stem: Option<&str>, planned: &str) -> (r: String)
    ensures
        r@ == match saved_stem {
            Some(s) => s@,
            None => planned@,
        } + ".jpg"@,
{
    let stem: &str = match saved_stem {
        Some(s) => s,
        None => planned,
    };
    proof {
        reveal_strlit(".");
        reveal_strlit("jpg");
        reveal_strlit(".jpg");
        assert(stem@ + "."@ + "jpg"@ =~= stem@ + ".jpg"@);
    }
    output_file_name(stem, "jpg")
}

/// Encodes a stitched image in the output format: fast PNG for `PNG`, JPEG
/// at `quality` (transparent pixels black) for any other.
pub fn encode_stitched(image: &RgbaImage, format: &str, quality: u8) -> (r: Result<Vec<u8>, AppError>)
    requires
        image.wf(),
    ensures
        ({
            let named = encoded_output(image.width, image.height, image.data@, format@, quality);
            match r {
                Ok(v) => named == Some(v@),
                Err(e) => named is None && e.code@ == "IMAGE_ERROR"@,
            }
        }),
        format@ == "PNG"@ ==> match r {
            Ok(v) => png_fast_encoding(image.width, image.height, image.data@) == Some(v@),
            Err(_) => png_fast_encoding(image.width, image.height, image.data@) is None,
        },
        format@ != "PNG"@ ==> match r {
            Ok(v) => jpeg_encoding(image.width, image.height, black_where_transparent(image.data@), quality) == Some(
                v@,
            ),
            Err(_) => jpeg_encoding(image.width, image.height, black_where_transparent(image.data@), quality) is None,
        },
{
    if str_eq(format, "PNG") {
        encode_png(image, true)
    } else {
        encode_jpeg(image, quality)
    }
}

/// Maximum width of the history thumbnail.
pub const THUMBNAIL_MAX_WIDTH: u32 = 400;

/// The bytes of a `w` x `h` image in the output format: fast PNG for `PNG`,
/// JPEG at `quality` of the pixels, transparent ones made black, for any
/// other (`None` when the encoder fails).
pub open spec fn encoded_output(w: u32, h: u32, px: Seq<u8>, format: Seq<char>, quality: u8) -> Option<Seq<u8>> {
    if format == "PNG"@ {
        png_fast_encoding(w, h, px)
    } else {
        jpeg_encoding(w, h, black_where_transparent(px), quality)
    }
}

/// What the output format and quality do to the saved bytes, for every
/// image: any format but `PNG` gives the JPEG encoding at exactly the quality
/// passed in, of the pixels with the transparent ones made black, so two
/// qualities are each encoded at their own; `PNG` gives the fast PNG encoding
/// of the pixels as they are, whatever the quality.
pub proof fn lemma_encoded_output_by_format(
    w: u32,
    h: u32,
    px: Seq<u8>,
    format: Seq<char>,
    quality: u8,
    other_quality: u8,
)
    ensures
        format != "PNG"@ ==> encoded_output(w, h, px, format, quality) == jpeg_encoding(
            w,
            h,
            black_where_transparent(px),
            quality,
        ),
        format != "PNG"@ ==> encoded_output(w, h, px, format, other_quality) == jpeg_encoding(
            w,
            h,
            black_where_transparent(px),
            other_quality,
        ),
        format == "PNG"@ ==> encoded_output(w, h, px, format, quality) == png_fast_encoding(w, h, px),
        format == "PNG"@ ==> encoded_output(w, h, px, format, quality) == encoded_output(
            w,
            h,
            px,
            format,
            other_quality,
        ),
{
}

/// Width and height of the thumbnail of a `w` x `h` image.
pub open spec fn thumbnail_size(w: u32, h: u32) -> (int, int) {
    let nw = thumbnail_width(w as int, THUMBNAIL_MAX_WIDTH as int);
    (nw, thumbnail_height(w as int, h as int, nw))
}

/// Turns the screenshots of a finished capture into the bytes of the saved
/// image and of its thumbnail: stitches them (`stitch_images`), encodes the
/// result in the output format and builds a thumbnail at most 400 pixels
/// wide (`generate_thumbnail`). The first failing step's error is returned.
pub fn process_screenshots(
    screenshots: &[Shot],
    grid: (u32, u32),
    overlap_px: (u32, u32),
    format: &str,
    quality: u8,
) -> (r: Result<(Vec<u8>, Vec<u8>), AppError>)
    requires
        forall|i: int| 0 <= i < screenshots@.len() ==> (#[trigger] screenshots@[i]).2.wf(),
        stitch_ready(screenshots@, grid) ==> stitched_w(screenshots@, overlap_px.0 as int) * stitched_h(
            screenshots@,
            overlap_px.1 as int,
        ) * 4 <= usize::MAX,
    ensures
        !stitch_ready(screenshots@, grid) ==> (r matches Err(e) && e.code@ == stitch_error_code(screenshots@, grid)
            && e.message@ == stitch_error_message(screenshots@, grid)),
        stitch_ready(screenshots@, grid) ==> ({
            let w = stitched_w(screenshots@, overlap_px.0 as int) as u32;
            let h = stitched_h(screenshots@, overlap_px.1 as int) as u32;
            let px = stitched_pixels(screenshots@, overlap_px.0 as int, overlap_px.1 as int);
            let (nw, nh) = thumbnail_size(w, h);
            match encoded_output(w, h, px, format@, quality) {
                None => r matches Err(e) && e.code@ == "IMAGE_ERROR"@,
                Some(b) => match r {
                    Ok((x, t)) => x@ == b && thumbnail_encodes(w, h, px, nw, nh, t@),
                    Err(e) => thumbnail_fails(w, h, px, nw, nh) && e.code@ == "IMAGE_ERROR"@,
                },
            }
        }),
        stitch_ready(screenshots@, grid) && r is Ok ==> ({
            let w = stitched_w(screenshots@, overlap_px.0 as int) as u32;
            let h = stitched_h(screenshots@, overlap_px.1 as int) as u32;
            let px = stitched_pixels(screenshots@, overlap_px.0 as int, overlap_px.1 as int);
            let saved = r->Ok_0.0@;
            if format@ == "PNG"@ {
                png_fast_encoding(w, h, px) == Some(saved)
            } else {
                jpeg_encoding(w, h, black_where_transparent(px), quality) == Some(saved)
            }
        }),
{
    let stitched = stitch_images(screenshots, grid, overlap_px)?;
    proof {
        lemma_extent_nonneg(screenshots@);
        assert(step(tile_w(screenshots@), overlap_px.0 as int) * max_col(screenshots@) >= 0) by (nonlinear_arith)
            requires
                step(tile_w(screenshots@), overlap_px.0 as int) >= 0,
                max_col(screenshots@) >= 0,
        ;
        assert(step(tile_h(screenshots@), overlap_px.1 as int) * max_row(screenshots@) >= 0) by (nonlinear_arith)
            requires
                step(tile_h(screenshots@), overlap_px.1 as int) >= 0,
                max_row(screenshots@) >= 0,
        ;
    }
    let bytes = encode_stitched(&stitched, format, quality)?;
    let thumb = generate_thumbnail(&stitched, THUMBNAIL_MAX_WIDTH)?;
    Ok((bytes, thumb))
}

/// The state a capture ends in: an error when capturing or processing
/// failed, interrupted when it produced no screenshot, completed otherwise.
pub open spec fn outcome_status_spec(capture_ok: bool, shots: nat, processed_ok: bool) -> SessionStatus {
    if !capture_ok {
        SessionStatus::Error
    } else if shots == 0 {
        SessionStatus::Interrupted
    } else if !processed_ok {
        SessionStatus::Error
    } else {
        SessionStatus::Completed
    }
}

/// Decides the state a capture ends in.
pub fn outcome_status(capture_ok: bool, shots: usize, processed_ok: bool) -> (s: SessionStatus)
    ensures
        s == outcome_status_spec(capture_ok, shots as nat, processed_ok),
        !capture_ok ==> s == SessionStatus::Error,
        s == SessionStatus::Interrupted <==> (capture_ok && shots == 0),
        s == SessionStatus::Completed <==> (capture_ok && shots > 0 && processed_ok),
        s != SessionStatus::Capturing,
{
    if !capture_ok {
        SessionStatus::Error
    } else if shots == 0 {
        SessionStatus::Interrupted
    } else if !processed_ok {
        SessionStatus::Error
    } else {
        SessionStatus::Completed
    }
}

/// How a capture ends, for every outcome of its steps: a failed capture is
/// an error whatever was shot and processed; a capture that succeeded
/// without a screenshot is interrupted; one that succeeded with screenshots
/// is completed exactly when processing succeeded, an error otherwise; and
/// only whether there were screenshots matters, not how many.
pub proof fn lemma_outcome_status_cases(capture_ok: bool, shots: nat, processed_ok: bool, more_shots: nat)
    ensures
        !capture_ok ==> outcome_status_spec(capture_ok, shots, processed_ok) == SessionStatus::Error,
        (outcome_status_spec(capture_ok, shots, processed_ok) == SessionStatus::Interrupted) <==> (capture_ok && shots
            == 0),
        (outcome_status_spec(capture_ok, shots, processed_ok) == SessionStatus::Completed) <==> (capture_ok && shots > 0
            && processed_ok),
        (outcome_status_spec(capture_ok, shots, processed_ok) == SessionStatus::Error) <==> (!capture_ok || (shots > 0
            && !processed_ok)),
        shots > 0 && more_shots > 0 ==> outcome_status_spec(capture_ok, shots, processed_ok) == outcome_status_spec(
            capture_ok,
            more_shots,
            processed_ok,
        ),
{
}

/// Closes a session: records its final state and when it ended; a
/// completed session also records where its image and thumbnail were saved.
/// Nothing else changes.
pub fn finish_session(
    session: &mut CaptureSession,
    status: SessionStatus,
    finished_at: String,
    original_path: Option<String>,
    thumbnail_path: Option<String>,
)
    ensures
        final(session).status@ == status_name(status),
        final(session).finished_at == Some(finished_at),
        status == SessionStatus::Completed ==> final(session).original_path == original_path
            && final(session).thumbnail_path == thumbnail_path,
        status != SessionStatus::Completed ==> final(session).original_path == old(session).original_path
            && final(session).thumbnail_path == old(session).thumbnail_path,
        final(session).id == old(session).id,
        final(session).started_at == old(session).started_at,
        final(session).region == old(session).region,
        final(session).scroll_mode == old(session).scroll_mode,
        final(session).grid_rows == old(session).grid_rows,
        final(session).grid_cols == old(session).grid_cols,
        final(session).total_shots == old(session).total_shots,
        final(session).exported_path == old(session).exported_path,
        final(session).crop_box == old(session).crop_box,
        final(session).output_format == old(session).output_format,
        final(session).jpg_quality == old(session).jpg_quality,
{
    session.status = status.as_str().to_string();
    session.finished_at = Some(finished_at);
    if status == SessionStatus::Completed {
        session.original_path = original_path;
        session.thumbnail_path = thumbnail_path;
    }
}

/// The folder named by a folder setting: its value when set and not empty.
pub fn folder_setting(setting: Option<&str>) -> (r: Option<String>)
    ensures
        match setting {
            Some(s) => if s@.len() > 0 { r matches Some(v) && v@ == s@ } else { r is None },
            None => r is None,
        },
{
    match setting {
        Some(s) => {
            if s.unicode_len() > 0 {
                Some(s.to_string())
            } else {
                None
            }
        },
        None => None,
    }
}

} // verus!

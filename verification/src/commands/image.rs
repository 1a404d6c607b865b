use vstd::prelude::*;

use crate::error::AppError;
use crate::models::session::CropBox;
use crate::services::stitcher::{
    crop_image, crop_rect, cropped_pixels, encode_jpeg, encode_png, black_where_transparent, image_error_text, jpeg_encoding,
    png_default_encoding, RgbaImage,
};
use crate::text::{append_str, str_eq, string_from_chars, to_uppercase, uppercase_spec};

verus! {

/// What `image::load_from_memory` followed by `DynamicImage::to_rgba8`
/// gives for the bytes of an encoded image: its width, height and RGBA
/// bytes (`None` when the bytes are not an image it can decode).
pub uninterp spec fn decoded_rgba(data: Seq<u8>) -> Option<(u32, u32, Seq<u8>)>;

/// `image::load_from_memory` then `DynamicImage::to_rgba8`; the image is
/// named by `decoded_rgba`. An `ImageBuffer` always holds `width * height`
/// pixels of four bytes.
#[verifier::external_body]
fn decode_rgba(data: &Vec<u8>) -> (r: Result<RgbaImage, image::ImageError>)
    ensures
        match r {
            Ok(img) => img.wf() && decoded_rgba(data@) == Some((img.width, img.height, img.data@)),
            Err(_) => decoded_rgba(data@) is None,
        },
{
    let img = image::load_from_memory(data)?.to_rgba8();
    let (width, height) = img.dimensions();
    Ok(RgbaImage { width, height, data: img.into_raw() })
}

/// The message of a missing source file.
pub fn source_not_found_error(path: &str) -> (e: AppError)
    ensures
        e.code@ == "SOURCE_NOT_FOUND"@,
        e.message@ == "源文件不存在: "@ + path@,
{
    let mut m: Vec<char> = Vec::new();
    append_str(&mut m, "源文件不存在: ");
    append_str(&mut m, path);
    AppError::with_message(string_from_chars(&m), "SOURCE_NOT_FOUND")
}

/// The image that is exported from a decoded `w` x `h` image: the whole
/// image, or the part the crop box keeps.
pub open spec fn export_source(w: u32, h: u32, px: Seq<u8>, crop: Option<CropBox>) -> (u32, u32, Seq<u8>) {
    match crop {
        None => (w, h, px),
        Some(c) => {
            let r = crop_rect(w as int, h as int, c.x as int, c.y as int, c.w as int, c.h as int);
            (r.2 as u32, r.3 as u32, cropped_pixels(w as int, h as int, px, (c.x, c.y, c.w, c.h)))
        },
    }
}

/// Whether an upper-cased format name asks for JPEG.
pub open spec fn names_jpeg(u: Seq<char>) -> bool {
    u == "JPG"@ || u == "JPEG"@
}

/// What exporting the decoded `w` x `h` image with bytes `px` gives (see
/// `export_decoded`).
pub open spec fn export_result_ok(
    w: u32,
    h: u32,
    px: Seq<u8>,
    crop: Option<CropBox>,
    format: Seq<char>,
    quality: u8,
    r: Result<Vec<u8>, AppError>,
) -> bool {
    let (cw, ch, cpx) = export_source(w, h, px, crop);
    let u = uppercase_spec(format);
    if names_jpeg(u) {
        match jpeg_encoding(cw, ch, black_where_transparent(cpx), quality) {
            Some(b) => r matches Ok(v) && v@ == b,
            None => r matches Err(e) && e.code@ == "IMAGE_ERROR"@,
        }
    } else if u == "PNG"@ {
        match png_default_encoding(cw, ch, cpx) {
            Some(b) => r matches Ok(v) && v@ == b,
            None => r matches Err(e) && e.code@ == "IMAGE_ERROR"@,
        }
    } else {
        r matches Err(e) && e.code@ == "INVALID_FORMAT"@ && e.message@ == "不支持的图像格式: "@ + format
    }
}

/// Exports a decoded image: crops it when a crop box is given, and encodes
/// it as JPEG at `quality`, transparent pixels black (format `JPG` or
/// `JPEG`), or as PNG with the encoder's defaults (format `PNG`), the format
/// read without regard to case. Another format gives `INVALID_FORMAT`, an
/// encoder failure `IMAGE_ERROR`.
pub fn export_decoded(image: RgbaImage, crop: Option<CropBox>, format: &str, quality: u8) -> (r: Result<
    Vec<u8>,
    AppError,
>)
    requires
        image.wf(),
    ensures
        export_result_ok(image.width, image.height, image.data@, crop, format@, quality, r),
{
    let img = match crop {
        Some(c) => match crop_image(&image, (c.x, c.y, c.w, c.h)) {
            Ok(cropped) => cropped,
            Err(e) => {
                return Err(e);
            },
        },
        None => image,
    };
    let upper = to_uppercase(format);
    if str_eq(upper.as_str(), "JPG") || str_eq(upper.as_str(), "JPEG") {
        encode_jpeg(&img, quality)
    } else if str_eq(upper.as_str(), "PNG") {
        encode_png(&img, false)
    } else {
        let mut m: Vec<char> = Vec::new();
        append_str(&mut m, "不支持的图像格式: ");
        append_str(&mut m, format);
        Err(AppError::with_message(string_from_chars(&m), "INVALID_FORMAT"))
    }
}

/// Exports an encoded image: decodes `data` and exports the decoded image
/// (`export_decoded`). Undecodable bytes give `IMAGE_DECODE_ERROR`.
pub fn export_image_bytes(data: &Vec<u8>, crop: Option<CropBox>, format: &str, quality: u8) -> (r: Result<
    Vec<u8>,
    AppError,
>)
    ensures
        decoded_rgba(data@) is None ==> (r matches Err(e) && e.code@ == "IMAGE_DECODE_ERROR"@ && exists|t: Seq<
            char,
        >| e.message@ == "解码图像失败: "@ + t),
        decoded_rgba(data@) matches Some(d) ==> export_result_ok(d.0, d.1, d.2, crop, format@, quality, r),
{
    match decode_rgba(data) {
        Ok(img) => export_decoded(img, crop, format, quality),
        Err(e) => {
            let mut m: Vec<char> = Vec::new();
            append_str(&mut m, "解码图像失败: ");
            let t = image_error_text(&e);
            append_str(&mut m, t.as_str());
            Err(AppError::with_message(string_from_chars(&m), "IMAGE_DECODE_ERROR"))
        },
    }
}

} // verus!

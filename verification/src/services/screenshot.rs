use vstd::prelude::*;

use crate::error::AppError;
use crate::services::game_window::ClientRect;
use crate::text::{append_str, dec_int, push_dec_i64, string_from_chars};

verus! {

/// BGRA pixels turned into RGBA ones: the first and third byte of each
/// pixel exchanged and the fourth (alpha) set to 255, so that every
/// captured pixel is opaque. A trailing partial pixel of three bytes has its
/// first and third byte exchanged.
pub open spec fn rgba_from_bgra(s: Seq<u8>) -> Seq<u8> {
    Seq::new(
        s.len(),
        |i: int|
            if i % 4 == 0 && i + 2 < s.len() {
                s[i + 2]
            } else if i % 4 == 2 {
                s[i - 2]
            } else if i % 4 == 3 {
                255u8
            } else {
                s[i]
            },
    )
}

/// Turns BGRA pixels, as the screen hands them out, into opaque RGBA ones
/// in place.
pub fn bgra_to_rgba(pixels: &mut Vec<u8>)
    requires
        old(pixels).len() % 4 == 0 || old(pixels).len() % 4 == 3,
    ensures
        final(pixels)@ == rgba_from_bgra(old(pixels)@),
{
    let ghost orig = pixels@;
    let n = pixels.len();
    let mut i: usize = 0;
    while i < n && n - i > 2
        invariant
            n == orig.len(),
            pixels.len() == n,
            n % 4 == 0 || n % 4 == 3,
            i % 4 == 0 || i == n,
            i <= n,
            forall|j: int| 0 <= j < i ==> pixels@[j] == #[trigger] rgba_from_bgra(orig)[j],
            forall|j: int| i <= j < n ==> pixels@[j] == orig[j],
        decreases n - i,
    {
        let b = pixels[i];
        let r = pixels[i + 2];
        pixels.set(i, r);
        pixels.set(i + 2, b);
        if n - i < 4 {
            i = n;
        } else {
            pixels.set(i + 3, 255);
            i = i + 4;
        }
    }
    assert(pixels@ =~= rgba_from_bgra(orig));
}

/// After the conversion every pixel is opaque, and converting again gives
/// the colour bytes back: red and blue are exchanged, green stays.
pub proof fn lemma_rgba_from_bgra(s: Seq<u8>)
    requires
        s.len() % 4 == 0 || s.len() % 4 == 3,
    ensures
        forall|i: int| 0 <= i < s.len() && i % 4 == 3 ==> #[trigger] rgba_from_bgra(s)[i] == 255u8,
        forall|i: int|
            0 <= i < s.len() && i % 4 != 3 ==> #[trigger] rgba_from_bgra(rgba_from_bgra(s))[i] == s[i],
{
}

/// The message refusing a capture rectangle.
pub open spec fn invalid_rect_message(rect: (i32, i32, i32, i32)) -> Seq<char> {
    "无效的截图区域: ("@ + dec_int(rect.0 as int) + ", "@ + dec_int(rect.1 as int) + ", "@ + dec_int(
        rect.2 as int,
    ) + ", "@ + dec_int(rect.3 as int) + ")"@
}

/// Accepts a capture rectangle `(left, top, width, height)` of positive
/// size; refuses any other with `INVALID_RECT`.
pub fn validate_capture_rect(rect: (i32, i32, i32, i32)) -> (r: Result<(), AppError>)
    ensures
        r is Ok <==> (rect.2 > 0 && rect.3 > 0),
        r matches Err(e) ==> e.code@ == "INVALID_RECT"@ && e.message@ == invalid_rect_message(rect),
{
    if rect.2 <= 0 || rect.3 <= 0 {
        let mut m: Vec<char> = Vec::new();
        append_str(&mut m, "无效的截图区域: (");
        push_dec_i64(&mut m, rect.0 as i64);
        append_str(&mut m, ", ");
        push_dec_i64(&mut m, rect.1 as i64);
        append_str(&mut m, ", ");
        push_dec_i64(&mut m, rect.2 as i64);
        append_str(&mut m, ", ");
        push_dec_i64(&mut m, rect.3 as i64);
        append_str(&mut m, ")");
        return Err(AppError::with_message(string_from_chars(&m), "INVALID_RECT"));
    }
    Ok(())
}

/// The message refusing a client area.
pub open spec fn invalid_client_message(w: i32, h: i32) -> Seq<char> {
    "客户区尺寸无效: "@ + dec_int(w as int) + "x"@ + dec_int(h as int)
}

/// Accepts a client area of positive size; refuses any other with
/// `INVALID_CLIENT_RECT`.
pub fn validate_client_size(client: ClientRect) -> (r: Result<(), AppError>)
    ensures
        r is Ok <==> (client.width > 0 && client.height > 0),
        r matches Err(e) ==> e.code@ == "INVALID_CLIENT_RECT"@ && e.message@ == invalid_client_message(
            client.width,
            client.height,
        ),
{
    if client.width <= 0 || client.height <= 0 {
        let mut m: Vec<char> = Vec::new();
        append_str(&mut m, "客户区尺寸无效: ");
        push_dec_i64(&mut m, client.width as i64);
        append_str(&mut m, "x");
        push_dec_i64(&mut m, client.height as i64);
        return Err(AppError::with_message(string_from_chars(&m), "INVALID_CLIENT_RECT"));
    }
    Ok(())
}

/// Half of `a`, rounded toward zero (Rust's `/ 2`).
pub open spec fn half_toward_zero(a: int) -> int {
    if a >= 0 {
        a / 2
    } else {
        -((-a) / 2)
    }
}

/// The capture rectangle `(x, y, width, height)` of a `region_w` x
/// `region_h` region centered in the client area and moved down by
/// `offset_y`.
pub open spec fn center_rect_spec(client: ClientRect, region_w: int, region_h: int, offset_y: int) -> (
    int,
    int,
    int,
    int,
) {
    (
        client.left + half_toward_zero(client.width - region_w),
        client.top + half_toward_zero(client.height - region_h) + offset_y,
        region_w,
        region_h,
    )
}

/// Places a region of the given size in the middle of the client area,
/// shifted down by `offset_y`.
pub fn center_capture_rect(client: ClientRect, region_w: i32, region_h: i32, offset_y: i32) -> (r: (
    i32,
    i32,
    i32,
    i32,
))
    requires
        i32::MIN <= client.width - region_w <= i32::MAX,
        i32::MIN <= client.height - region_h <= i32::MAX,
        i32::MIN <= client.left + half_toward_zero(client.width - region_w) <= i32::MAX,
        i32::MIN <= client.top + half_toward_zero(client.height - region_h) <= i32::MAX,
        i32::MIN <= client.top + half_toward_zero(client.height - region_h) + offset_y <= i32::MAX,
    ensures
        (r.0 as int, r.1 as int, r.2 as int, r.3 as int) == center_rect_spec(
            client,
            region_w as int,
            region_h as int,
            offset_y as int,
        ),
{
    let dx = client.width - region_w;
    let dy = client.height - region_h;
    let x = client.left + dx / 2;
    let y = client.top + dy / 2 + offset_y;
    (x, y, region_w, region_h)
}

/// A region no larger than the client area is centered in it: the space
/// left of it and right of it differ by at most one pixel (the odd pixel
/// goes to the right), and likewise above and below before the vertical
/// offset is applied.
pub proof fn lemma_capture_rect_centered(client: ClientRect, region_w: int, region_h: int, offset_y: int)
    requires
        0 <= region_w <= client.width,
        0 <= region_h <= client.height,
    ensures
        ({
            let r = center_rect_spec(client, region_w, region_h, offset_y);
            let left_gap = r.0 - client.left;
            let right_gap = client.left + client.width - (r.0 + region_w);
            let top_gap = r.1 - offset_y - client.top;
            let bottom_gap = client.top + client.height - (r.1 - offset_y + region_h);
            &&& 0 <= left_gap <= right_gap <= left_gap + 1
            &&& 0 <= top_gap <= bottom_gap <= top_gap + 1
        }),
{
}

} // verus!

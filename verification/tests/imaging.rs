use zmd_prtsc::commands::image::export_decoded;
use zmd_prtsc::commands::image::{export_image_bytes, source_not_found_error};
use zmd_prtsc::models::session::CropBox;
use zmd_prtsc::services::capture_pipeline::{encode_stitched, process_screenshots};
use zmd_prtsc::services::stitcher::{
    crop_image, encode_jpeg, encode_png, fill_transparent_black, generate_thumbnail, sat_mul, stitch_fits, stitch_images,
    thumbnail_from_resized, RgbaImage,
};

fn solid(w: u32, h: u32, px: [u8; 4]) -> RgbaImage {
    let mut data = Vec::new();
    for _ in 0..(w * h) {
        data.extend_from_slice(&px);
    }
    RgbaImage::from_raw(w, h, data).unwrap()
}

fn numbered(w: u32, h: u32) -> RgbaImage {
    let data: Vec<u8> = (0..(w * h * 4)).map(|i| (i % 251) as u8).collect();
    RgbaImage::from_raw(w, h, data).unwrap()
}

fn pixel(img: &RgbaImage, x: u32, y: u32) -> [u8; 4] {
    let o = ((y * img.width + x) * 4) as usize;
    [img.data[o], img.data[o + 1], img.data[o + 2], img.data[o + 3]]
}

fn decode(bytes: &[u8]) -> image::RgbaImage {
    image::load_from_memory(bytes).unwrap().to_rgba8()
}

#[test]
fn raw_images() {
    assert!(RgbaImage::from_raw(2, 2, vec![0; 15]).is_none());
    let img = RgbaImage::new(3, 2);
    assert_eq!(img.dimensions(), (3, 2));
    assert_eq!(img.data, vec![0u8; 24]);
}

#[test]
fn saturating_multiplication() {
    assert_eq!(sat_mul(3, 4), 12);
    assert_eq!(sat_mul(u32::MAX, 2), u32::MAX);
}

#[test]
fn stitch_two_tiles_side_by_side() {
    let a = solid(4, 2, [255, 0, 0, 255]);
    let b = solid(4, 2, [0, 0, 255, 255]);
    let shots = vec![(0u32, 0u32, a), (0u32, 1u32, b)];
    let out = stitch_images(&shots, (1, 2), (1, 0)).ok().unwrap();
    assert_eq!(out.dimensions(), (7, 2));
    assert_eq!(pixel(&out, 0, 0), [255, 0, 0, 255]);
    assert_eq!(pixel(&out, 2, 1), [255, 0, 0, 255]);
    assert_eq!(pixel(&out, 3, 0), [0, 0, 255, 255]);
    assert_eq!(pixel(&out, 6, 1), [0, 0, 255, 255]);
}

#[test]
fn stitch_rows_later_row_on_top() {
    let a = solid(2, 3, [1, 1, 1, 1]);
    let b = solid(2, 3, [2, 2, 2, 2]);
    let shots = vec![(1u32, 0u32, b), (0u32, 0u32, a)];
    let out = stitch_images(&shots, (2, 1), (0, 1)).ok().unwrap();
    assert_eq!(out.dimensions(), (2, 5));
    assert_eq!(pixel(&out, 0, 0), [1, 1, 1, 1]);
    assert_eq!(pixel(&out, 1, 1), [1, 1, 1, 1]);
    assert_eq!(pixel(&out, 0, 2), [2, 2, 2, 2]);
    assert_eq!(pixel(&out, 1, 4), [2, 2, 2, 2]);
}

#[test]
fn stitch_single_tile_is_the_tile() {
    let a = numbered(5, 3);
    let shots = vec![(0u32, 0u32, numbered(5, 3))];
    let out = stitch_images(&shots, (1, 1), (2, 2)).ok().unwrap();
    assert_eq!(out.dimensions(), (5, 3));
    assert_eq!(out.data, a.data);
}

#[test]
fn stitch_errors() {
    let e = stitch_images(&[], (1, 1), (0, 0)).err().unwrap();
    assert_eq!(e.code, "STITCH_EMPTY");
    assert_eq!(e.message, "没有截图可拼接");
    let shots = vec![(0u32, 0u32, solid(2, 2, [0, 0, 0, 0]))];
    let e = stitch_images(&shots, (0, 1), (0, 0)).err().unwrap();
    assert_eq!(e.code, "STITCH_INVALID_GRID");
    assert_eq!(e.message, "网格行列数必须大于 0");
    let shots = vec![(0u32, 0u32, RgbaImage::new(0, 2))];
    let e = stitch_images(&shots, (1, 1), (0, 0)).err().unwrap();
    assert_eq!(e.code, "STITCH_INVALID_SIZE");
    assert_eq!(e.message, "子图尺寸不能为 0");
}

#[test]
fn stitch_size_check() {
    let shots = vec![(0u32, 0u32, solid(2, 2, [0, 0, 0, 0]))];
    assert!(stitch_fits(&shots, (1, 1), (0, 0)));
    let far = vec![(0u32, 0u32, solid(2, 2, [0, 0, 0, 0])), (100_000u32, 100_000u32, solid(2, 2, [0, 0, 0, 0]))];
    assert_eq!(stitch_fits(&far, (1, 1), (0, 0)), (200_002u64 * 200_002u64 * 4) <= usize::MAX as u64);
    assert!(stitch_fits(&[], (1, 1), (0, 0)));
}

#[test]
fn png_encoding_round_trips() {
    let img = numbered(6, 4);
    for fast in [true, false] {
        let bytes = encode_png(&img, fast).ok().unwrap();
        assert_eq!(&bytes[..8], &[0x89, b'P', b'N', b'G', 0x0D, 0x0A, 0x1A, 0x0A]);
        let back = decode(&bytes);
        assert_eq!(back.dimensions(), (6, 4));
        assert_eq!(back.into_raw(), img.data);
    }
}

#[test]
fn jpeg_encoding_is_jpeg() {
    let img = solid(8, 8, [200, 100, 50, 255]);
    let bytes = encode_jpeg(&img, 90).ok().unwrap();
    assert_eq!(&bytes[..2], &[0xFF, 0xD8]);
    assert_eq!(decode(&bytes).dimensions(), (8, 8));
    let e = encode_jpeg(&RgbaImage::new(0, 0), 90).err().unwrap();
    assert_eq!(e.code, "IMAGE_ERROR");
}

#[test]
fn thumbnails_keep_aspect_ratio() {
    let img = solid(800, 10, [9, 9, 9, 255]);
    let t = generate_thumbnail(&img, 400).ok().unwrap();
    assert_eq!(&t[..2], &[0xFF, 0xD8]);
    assert_eq!(decode(&t).dimensions(), (400, 5));
    let img = solid(30, 7, [9, 9, 9, 255]);
    assert_eq!(decode(&generate_thumbnail(&img, 400).ok().unwrap()).dimensions(), (30, 7));
    let img = solid(600, 5, [9, 9, 9, 255]);
    assert_eq!(decode(&generate_thumbnail(&img, 400).ok().unwrap()).dimensions(), (400, 3));
    let e = generate_thumbnail(&RgbaImage::new(0, 5), 400).err().unwrap();
    assert_eq!(e.code, "INVALID_IMAGE");
    assert_eq!(e.message, "无效的图像尺寸");
}

#[test]
fn cropping_clamps_to_the_image() {
    let img = numbered(5, 4);
    let c = crop_image(&img, (1, 1, 2, 2)).ok().unwrap();
    assert_eq!(c.dimensions(), (2, 2));
    assert_eq!(pixel(&c, 0, 0), pixel(&img, 1, 1));
    assert_eq!(pixel(&c, 1, 1), pixel(&img, 2, 2));
    let c = crop_image(&img, (3, 2, 10, 10)).ok().unwrap();
    assert_eq!(c.dimensions(), (2, 2));
    assert_eq!(pixel(&c, 1, 1), pixel(&img, 4, 3));
    let c = crop_image(&img, (9, 9, 3, 3)).ok().unwrap();
    assert_eq!(c.dimensions(), (0, 0));
    let whole = crop_image(&img, (0, 0, 5, 4)).ok().unwrap();
    assert_eq!(whole.data, img.data);
}

#[test]
fn stitched_output_formats() {
    let img = numbered(3, 3);
    let png = encode_stitched(&img, "PNG", 80).ok().unwrap();
    assert_eq!(&png[..4], &[0x89, b'P', b'N', b'G']);
    let jpg = encode_stitched(&img, "JPG", 80).ok().unwrap();
    assert_eq!(&jpg[..2], &[0xFF, 0xD8]);
    let other = encode_stitched(&img, "png", 80).ok().unwrap();
    assert_eq!(&other[..2], &[0xFF, 0xD8]);
}

#[test]
fn processing_screenshots() {
    let shots = vec![(0u32, 0u32, solid(4, 4, [10, 20, 30, 255])), (0u32, 1u32, solid(4, 4, [10, 20, 30, 255]))];
    let (bytes, thumb) = process_screenshots(&shots, (1, 2), (0, 0), "PNG", 95).ok().unwrap();
    let back = decode(&bytes);
    assert_eq!(back.dimensions(), (8, 4));
    assert_eq!(back.get_pixel(7, 3).0, [10, 20, 30, 255]);
    assert_eq!(decode(&thumb).dimensions(), (8, 4));
    let e = process_screenshots(&[], (1, 2), (0, 0), "PNG", 95).err().unwrap();
    assert_eq!(e.code, "STITCH_EMPTY");
}

#[test]
fn exporting_images() {
    let src = encode_png(&numbered(6, 5), false).ok().unwrap();
    let out = export_image_bytes(&src, None, "png", 90).ok().unwrap();
    assert_eq!(decode(&out).into_raw(), numbered(6, 5).data);
    let out = export_image_bytes(&src, Some(CropBox { x: 1, y: 2, w: 3, h: 2 }), "PNG", 90).ok().unwrap();
    let back = decode(&out);
    assert_eq!(back.dimensions(), (3, 2));
    assert_eq!(back.get_pixel(0, 0).0, pixel(&numbered(6, 5), 1, 2));
    let out = export_image_bytes(&src, None, "jpeg", 90).ok().unwrap();
    assert_eq!(&out[..2], &[0xFF, 0xD8]);
    let out = export_image_bytes(&src, None, "Jpg", 90).ok().unwrap();
    assert_eq!(&out[..2], &[0xFF, 0xD8]);
    let e = export_image_bytes(&src, None, "bmp", 90).err().unwrap();
    assert_eq!(e.code, "INVALID_FORMAT");
    assert_eq!(e.message, "不支持的图像格式: bmp");
    let e = export_image_bytes(&vec![1, 2, 3], None, "png", 90).err().unwrap();
    assert_eq!(e.code, "IMAGE_DECODE_ERROR");
    assert!(e.message.starts_with("解码图像失败: "));
    let e = source_not_found_error("C:/x.png");
    assert_eq!(e.code, "SOURCE_NOT_FOUND");
    assert_eq!(e.message, "源文件不存在: C:/x.png");
}

#[test]
fn tiles_land_in_place_without_overlap() {
    let tile = |seed: u8| {
        let data: Vec<u8> = (0..(3 * 2 * 4)).map(|i| seed.wrapping_mul(31).wrapping_add(i as u8)).collect();
        RgbaImage::from_raw(3, 2, data).unwrap()
    };
    let shots = vec![
        (0u32, 0u32, tile(1)),
        (0u32, 1u32, tile(2)),
        (1u32, 1u32, tile(3)),
        (1u32, 0u32, tile(4)),
    ];
    let out = stitch_images(&shots, (2, 2), (0, 0)).ok().unwrap();
    assert_eq!(out.dimensions(), (6, 4));
    for (r, c, t) in shots.iter() {
        for y in 0..2 {
            for x in 0..3 {
                assert_eq!(pixel(&out, c * 3 + x, r * 2 + y), pixel(t, x, y));
            }
        }
    }
}

#[test]
fn jpeg_lays_transparent_pixels_over_black() {
    let mut img = solid(8, 8, [255, 255, 255, 0]);
    let bytes = encode_jpeg(&img, 95).ok().unwrap();
    let back = decode(&bytes);
    assert!(back.pixels().all(|p| p.0[0] < 16 && p.0[1] < 16 && p.0[2] < 16));
    img = solid(8, 8, [255, 255, 255, 255]);
    let back = decode(&encode_jpeg(&img, 95).ok().unwrap());
    assert!(back.pixels().all(|p| p.0[0] > 240 && p.0[1] > 240 && p.0[2] > 240));
}

#[test]
fn transparent_pixels_become_black_others_keep_colour() {
    let px = vec![200u8, 100, 50, 0, 200, 100, 50, 255, 200, 100, 50, 128];
    assert_eq!(fill_transparent_black(&px), vec![0, 0, 0, 255, 200, 100, 50, 255, 200, 100, 50, 255]);
}

#[test]
fn thumbnails_from_resized_pixels() {
    let t = thumbnail_from_resized(4, 2, vec![10u8; 32]).ok().unwrap();
    assert_eq!(decode(&t).dimensions(), (4, 2));
    assert_eq!(thumbnail_from_resized(0, 2, vec![]).err().unwrap().code, "IMAGE_ERROR");
}

#[test]
fn stitching_ignores_order_and_grid_size() {
    let tile = |seed: u8| {
        let data: Vec<u8> = (0..(4 * 3 * 4)).map(|i| seed.wrapping_mul(17).wrapping_add(i as u8)).collect();
        RgbaImage::from_raw(4, 3, data).unwrap()
    };
    let a = vec![(0u32, 0u32, tile(1)), (0u32, 1u32, tile(2)), (1u32, 0u32, tile(3)), (1u32, 1u32, tile(4))];
    let b = vec![(1u32, 1u32, tile(4)), (0u32, 1u32, tile(2)), (1u32, 0u32, tile(3)), (0u32, 0u32, tile(1))];
    let x = stitch_images(&a, (2, 2), (1, 1)).ok().unwrap();
    let y = stitch_images(&b, (2, 2), (1, 1)).ok().unwrap();
    let z = stitch_images(&a, (9, 1), (1, 1)).ok().unwrap();
    assert_eq!(x.dimensions(), (7, 5));
    assert_eq!(x.data, y.data);
    assert_eq!(x.data, z.data);
}

#[test]
fn exporting_decoded_images() {
    let out = export_decoded(numbered(4, 4), Some(CropBox { x: 2, y: 2, w: 9, h: 9 }), "png", 90).ok().unwrap();
    let back = decode(&out);
    assert_eq!(back.dimensions(), (2, 2));
    assert_eq!(back.get_pixel(1, 1).0, pixel(&numbered(4, 4), 3, 3));
    let e = export_decoded(numbered(2, 2), None, "gif", 90).err().unwrap();
    assert_eq!(e.code, "INVALID_FORMAT");
    assert_eq!(e.message, "不支持的图像格式: gif");
    let out = export_decoded(solid(8, 8, [255, 255, 255, 0]), None, "JPEG", 95).ok().unwrap();
    assert!(decode(&out).pixels().all(|p| p.0[0] < 16));
}

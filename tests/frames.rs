use media_frames::color::{clamp, convert_rgb_to_yuv420sp_nv12};
use media_frames::poster::{frame_from_image_bytes, frame_from_pixels, placeholder_frame};

#[test]
fn clamp_saturates() {
    assert_eq!(clamp(-5), 0);
    assert_eq!(clamp(0), 0);
    assert_eq!(clamp(17), 17);
    assert_eq!(clamp(255), 255);
    assert_eq!(clamp(300), 255);
}

#[test]
fn output_length_is_three_halves_of_pixels() {
    for &(w, h) in &[(2u32, 2u32), (4, 2), (2, 4), (6, 4), (16, 10)] {
        let rgb = vec![7u8; (w * h * 3) as usize];
        let yuv = convert_rgb_to_yuv420sp_nv12(&rgb, w, h, 3);
        assert_eq!(yuv.len(), (w * h * 3 / 2) as usize);
        let rgba = vec![7u8; (w * h * 4) as usize];
        let yuv = convert_rgb_to_yuv420sp_nv12(&rgba, w, h, 4);
        assert_eq!(yuv.len(), (w * h * 3 / 2) as usize);
    }
}

#[test]
fn black_four_by_two() {
    let rgb = vec![0u8; 24];
    let yuv = convert_rgb_to_yuv420sp_nv12(&rgb, 4, 2, 3);
    assert_eq!(yuv, vec![0, 0, 0, 0, 0, 0, 0, 0, 128, 128, 128, 128]);
}

#[test]
fn black_frame_any_even_size() {
    let rgb = vec![0u8; 8 * 6 * 3];
    let yuv = convert_rgb_to_yuv420sp_nv12(&rgb, 8, 6, 3);
    assert!(yuv[..48].iter().all(|&b| b == 0));
    assert!(yuv[48..].iter().all(|&b| b == 128));
}

#[test]
fn white_pixel_values() {
    let rgb = vec![255u8; 12];
    let yuv = convert_rgb_to_yuv420sp_nv12(&rgb, 2, 2, 3);
    assert_eq!(yuv, vec![255, 255, 255, 255, 128, 128]);
}

#[test]
fn chroma_taken_from_top_left_pixel() {
    // top-left red, the rest black
    let mut rgb = vec![0u8; 12];
    rgb[0] = 255;
    let yuv = convert_rgb_to_yuv420sp_nv12(&rgb, 2, 2, 3);
    assert_eq!(yuv, vec![77, 0, 0, 0, 85, 255]);
    // top-right red: its luma shows, the chroma does not
    let mut rgb = vec![0u8; 12];
    rgb[3] = 255;
    let yuv = convert_rgb_to_yuv420sp_nv12(&rgb, 2, 2, 3);
    assert_eq!(yuv, vec![0, 77, 0, 0, 128, 128]);
}

#[test]
fn rgba_stride_skips_alpha() {
    let rgba = vec![255, 0, 0, 9, 0, 0, 0, 9, 0, 0, 0, 9, 0, 0, 0, 9];
    let yuv = convert_rgb_to_yuv420sp_nv12(&rgba, 2, 2, 4);
    assert_eq!(yuv, vec![77, 0, 0, 0, 85, 255]);
}

#[test]
fn chroma_rows_follow_block_grid() {
    // 4x4 image: each 2x2 block's top-left pixel gets its own green level
    let mut rgb = vec![0u8; 4 * 4 * 3];
    let tops = [(0usize, 0usize), (0, 2), (2, 0), (2, 2)];
    for (n, &(r, c)) in tops.iter().enumerate() {
        rgb[(r * 4 + c) * 3 + 1] = 60 * (n as u8 + 1);
    }
    let yuv = convert_rgb_to_yuv420sp_nv12(&rgb, 4, 4, 3);
    let expect_uv = |g: i32| {
        let u = ((-84 * g + 128) >> 8) + 128;
        let v = ((-106 * g + 128) >> 8) + 128;
        (u as u8, v as u8)
    };
    for (n, _) in tops.iter().enumerate() {
        let (u, v) = expect_uv(60 * (n as i32 + 1));
        assert_eq!(yuv[16 + 2 * n], u);
        assert_eq!(yuv[16 + 2 * n + 1], v);
    }
}

#[test]
fn placeholder_is_black_640_by_480() {
    let (v, w, h) = placeholder_frame();
    assert_eq!((w, h), (640, 480));
    assert_eq!(v.len(), 460800);
    assert!(v.iter().all(|&b| b == 0));
}

#[test]
fn no_source_gives_placeholder() {
    let (v, w, h) = frame_from_image_bytes(None);
    assert_eq!((w, h), (640, 480));
    assert_eq!(v.len(), 640 * 480 * 3 / 2);
    assert!(v.iter().all(|&b| b == 0));
}

#[test]
fn undecodable_source_gives_placeholder() {
    let junk = vec![1u8, 2, 3, 4, 5];
    let (v, w, h) = frame_from_image_bytes(Some(&junk));
    assert_eq!((w, h), (640, 480));
    assert_eq!(v.len(), 460800);
    assert!(v.iter().all(|&b| b == 0));
}

#[test]
fn decoded_png_is_converted() {
    let mut pixels = vec![0u8; 4 * 2 * 3];
    pixels[0] = 255;
    let img = image::RgbImage::from_raw(4, 2, pixels.clone()).unwrap();
    let mut buf = std::io::Cursor::new(Vec::new());
    image::DynamicImage::ImageRgb8(img).write_to(&mut buf, image::ImageFormat::Png).unwrap();
    let encoded = buf.into_inner();
    let (v, w, h) = frame_from_image_bytes(Some(&encoded));
    assert_eq!((w, h), (4, 2));
    assert_eq!(v, convert_rgb_to_yuv420sp_nv12(&pixels, 4, 2, 3));
    assert_eq!(v[0], 77);
}

#[test]
fn unusable_pixels_give_placeholder() {
    // odd width
    let (_, w, h) = frame_from_pixels(&vec![0u8; 3 * 2 * 3], 3, 2);
    assert_eq!((w, h), (640, 480));
    // buffer too short
    let (_, w, h) = frame_from_pixels(&vec![0u8; 5], 2, 2);
    assert_eq!((w, h), (640, 480));
    // empty image
    let (v, w, h) = frame_from_pixels(&[], 0, 0);
    assert_eq!((w, h, v.len()), (640, 480, 460800));
}

#[test]
fn usable_pixels_are_converted() {
    let rgb = vec![255u8; 12];
    let (v, w, h) = frame_from_pixels(&rgb, 2, 2);
    assert_eq!((w, h), (2, 2));
    assert_eq!(v, vec![255, 255, 255, 255, 128, 128]);
}

#[test]
fn decoded_rgba_png_is_read_as_rgb() {
    let rgba = vec![255u8, 0, 0, 40, 0, 0, 0, 40, 0, 0, 0, 40, 0, 0, 0, 40];
    let img = image::RgbaImage::from_raw(2, 2, rgba).unwrap();
    let mut buf = std::io::Cursor::new(Vec::new());
    image::DynamicImage::ImageRgba8(img).write_to(&mut buf, image::ImageFormat::Png).unwrap();
    let (v, w, h) = frame_from_image_bytes(Some(&buf.into_inner()));
    assert_eq!((w, h), (2, 2));
    assert_eq!(v, vec![77, 0, 0, 0, 85, 255]);
}

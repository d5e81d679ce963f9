use image::imageops::{flip_horizontal, flip_vertical, rotate180, rotate270, rotate90};
use image::{ImageBuffer, Rgba};
use marshmallow::decode::frame::{apply_fix, decode_for_display, display_from_decoded, is_packed, orient_and_scale, packed_or_error};
use marshmallow::decode::worker::{orientation_fix, OrientationFix};
use marshmallow::decode::DecodedImage;

type RgbaImage = ImageBuffer<Rgba<u8>, Vec<u8>>;

fn sample(width: u32, height: u32) -> DecodedImage {
    let mut rgba = Vec::new();
    for i in 0..(width * height) {
        rgba.extend_from_slice(&[i as u8, (i * 7) as u8, (i * 13) as u8, 255]);
    }
    DecodedImage { width, height, rgba }
}

fn as_buffer(img: &DecodedImage) -> RgbaImage {
    RgbaImage::from_raw(img.width, img.height, img.rgba.clone()).unwrap()
}

fn png_bytes(img: &DecodedImage) -> Vec<u8> {
    let mut out = std::io::Cursor::new(Vec::new());
    as_buffer(img).write_to(&mut out, image::ImageFormat::Png).unwrap();
    out.into_inner()
}

#[test]
fn fixes_match_the_image_crate_operations() {
    let src = sample(3, 2);
    let buf = as_buffer(&src);
    let cases: Vec<(OrientationFix, RgbaImage)> = vec![
        (OrientationFix::Keep, buf.clone()),
        (OrientationFix::FlipHorizontal, flip_horizontal(&buf)),
        (OrientationFix::Rotate180, rotate180(&buf)),
        (OrientationFix::FlipVertical, flip_vertical(&buf)),
        (OrientationFix::Rotate90FlipHorizontal, flip_horizontal(&rotate90(&buf))),
        (OrientationFix::Rotate90, rotate90(&buf)),
        (OrientationFix::Rotate270FlipHorizontal, flip_horizontal(&rotate270(&buf))),
        (OrientationFix::Rotate270, rotate270(&buf)),
    ];
    for (fix, expected) in cases {
        let out = apply_fix(&src, fix);
        assert_eq!((out.width, out.height), expected.dimensions(), "{fix:?}");
        assert_eq!(out.rgba, expected.into_raw(), "{fix:?}");
    }
}

#[test]
fn exif_orientation_six_turns_a_quarter_clockwise() {
    let src = sample(2, 1);
    let out = orient_and_scale(src.clone(), Some(6), 0).unwrap();
    assert_eq!((out.width, out.height), (1, 2));
    let expected = apply_fix(&src, orientation_fix(6));
    assert_eq!(out.rgba, expected.rgba);
}

#[test]
fn no_orientation_and_no_target_keeps_the_frame() {
    let src = sample(4, 3);
    let out = orient_and_scale(src.clone(), None, 0).unwrap();
    assert_eq!((out.width, out.height), (4, 3));
    assert_eq!(out.rgba, src.rgba);
    let same = orient_and_scale(src.clone(), Some(1), 10).unwrap();
    assert_eq!(same.rgba, src.rgba);
}

#[test]
fn larger_frames_are_resampled_to_the_target() {
    let src = sample(4, 2);
    let out = orient_and_scale(src, None, 2).unwrap();
    assert_eq!((out.width, out.height), (2, 1));
    assert_eq!(out.rgba.len(), 2 * 1 * 4);
}

#[test]
fn turned_frames_are_resampled_by_their_upright_size() {
    let src = sample(8, 4);
    let out = orient_and_scale(src, Some(8), 4).unwrap();
    assert_eq!((out.width, out.height), (2, 4));
    assert_eq!(out.rgba.len(), 2 * 4 * 4);
}

#[test]
fn png_bytes_decode_to_their_pixels() {
    let src = sample(3, 2);
    let out = decode_for_display(&png_bytes(&src), None, 0).unwrap();
    assert_eq!((out.width, out.height), (3, 2));
    assert_eq!(out.rgba, src.rgba);
}

#[test]
fn png_bytes_are_scaled_to_the_target() {
    let src = sample(6, 3);
    let out = decode_for_display(&png_bytes(&src), None, 2).unwrap();
    assert_eq!((out.width, out.height), (2, 1));
}

#[test]
fn undecodable_bytes_are_an_error() {
    assert!(decode_for_display(&b"not an image".to_vec(), None, 0).is_err());
}

#[test]
fn the_scaled_jpeg_frame_is_used_when_packed() {
    let frame = sample(2, 2);
    let out = decode_for_display(&b"not an image".to_vec(), Some(frame.clone()), 0).unwrap();
    assert_eq!(out.rgba, frame.rgba);
}

#[test]
fn a_frame_that_is_not_packed_falls_back_to_decoding() {
    let broken = DecodedImage { width: 2, height: 2, rgba: vec![0u8; 3] };
    assert!(!is_packed(&broken));
    assert!(decode_for_display(&b"not an image".to_vec(), Some(broken), 0).is_err());
    let src = sample(2, 1);
    let broken = DecodedImage { width: 5, height: 5, rgba: vec![] };
    let out = decode_for_display(&png_bytes(&src), Some(broken), 0).unwrap();
    assert_eq!(out.rgba, src.rgba);
}

#[test]
fn only_packed_decodes_pass() {
    let good = sample(2, 2);
    assert_eq!(packed_or_error(Ok(good.clone())).unwrap().rgba, good.rgba);
    let broken = DecodedImage { width: 2, height: 2, rgba: vec![0u8; 5] };
    assert!(packed_or_error(Ok(broken)).is_err());
    assert_eq!(packed_or_error(Err("bad".to_string())).unwrap_err(), "bad");
}

#[test]
fn decoder_results_are_shown_or_passed_on() {
    let frame = sample(4, 2);
    let shown = display_from_decoded(Ok(frame.clone()), Some(6), 0).unwrap();
    assert_eq!((shown.width, shown.height), (2, 4));
    assert_eq!(display_from_decoded(Err("no".to_string()), None, 0).unwrap_err(), "no");
    let broken = DecodedImage { width: 3, height: 3, rgba: vec![] };
    assert!(display_from_decoded(Ok(broken), None, 0).is_err());
}

//! From a file's bytes to the picture shown for it: decode (or take the
//! frame the scaled JPEG decoder produced), turn it upright by its EXIF
//! orientation, and bring it to display size.

use vstd::prelude::*;
use crate::decode::request::DecodedImage;
use crate::decode::worker::{orientation_fix, scaled_dims, scaled_dims_spec, OrientationFix};
use fast_image_resize::images::Image as FirImage;
use fast_image_resize::pixels::PixelType;
use fast_image_resize::Resizer;

verus! {

/// Whether the pixel data is tightly packed RGBA8 for the image's size.
pub open spec fn packed(img: DecodedImage) -> bool {
    img.rgba@.len() == img.width as int * img.height as int * 4
}

/// Byte `k` (0..4: red, green, blue, alpha) of pixel (`x`, `y`).
pub open spec fn pixel_byte(img: DecodedImage, x: int, y: int, k: int) -> u8 {
    img.rgba@[(y * img.width as int + x) * 4 + k]
}

/// The source pixel of pixel (`x`, `y`) of a horizontal flip of an image
/// `width` pixels wide.
pub open spec fn flip_horizontal_source(width: int, x: int, y: int) -> (int, int) {
    (width - 1 - x, y)
}

/// The source pixel of pixel (`x`, `y`) of a vertical flip of an image
/// `height` pixels high.
pub open spec fn flip_vertical_source(height: int, x: int, y: int) -> (int, int) {
    (x, height - 1 - y)
}

/// The source pixel of pixel (`x`, `y`) of a clockwise quarter turn of an
/// image `height` pixels high.
pub open spec fn rotate90_source(height: int, x: int, y: int) -> (int, int) {
    (y, height - 1 - x)
}

/// The source pixel of pixel (`x`, `y`) of a half turn of a `width` x
/// `height` image.
pub open spec fn rotate180_source(width: int, height: int, x: int, y: int) -> (int, int) {
    (width - 1 - x, height - 1 - y)
}

/// The source pixel of pixel (`x`, `y`) of a clockwise three-quarter turn
/// of an image `width` pixels wide.
pub open spec fn rotate270_source(width: int, x: int, y: int) -> (int, int) {
    (width - 1 - y, x)
}

/// The source pixel of pixel (`x`, `y`) of a `width` x `height` image
/// after `fix` (a turn followed by a flip is the flip of the turned image,
/// which is `height` pixels wide).
pub open spec fn fix_source(fix: OrientationFix, width: int, height: int, x: int, y: int) -> (
    int,
    int,
) {
    match fix {
        OrientationFix::Keep => (x, y),
        OrientationFix::FlipHorizontal => flip_horizontal_source(width, x, y),
        OrientationFix::Rotate180 => rotate180_source(width, height, x, y),
        OrientationFix::FlipVertical => flip_vertical_source(height, x, y),
        OrientationFix::Rotate90FlipHorizontal => {
            let (tx, ty) = flip_horizontal_source(height, x, y);
            rotate90_source(height, tx, ty)
        },
        OrientationFix::Rotate90 => rotate90_source(height, x, y),
        OrientationFix::Rotate270FlipHorizontal => {
            let (tx, ty) = flip_horizontal_source(height, x, y);
            rotate270_source(width, tx, ty)
        },
        OrientationFix::Rotate270 => rotate270_source(width, x, y),
    }
}

/// Whether `fix` turns the image by a quarter (width and height swap).
pub open spec fn quarter_turn(fix: OrientationFix) -> bool {
    match fix {
        OrientationFix::Rotate90FlipHorizontal | OrientationFix::Rotate90
        | OrientationFix::Rotate270FlipHorizontal | OrientationFix::Rotate270 => true,
        _ => false,
    }
}

/// The size of a `width` x `height` image after `fix`.
pub open spec fn fixed_dims(fix: OrientationFix, width: u32, height: u32) -> (u32, u32) {
    if quarter_turn(fix) {
        (height, width)
    } else {
        (width, height)
    }
}

/// Whether `out` is `src` after `fix`: the size that `fix` gives, packed,
/// and each pixel taken from its source pixel.
pub open spec fn fixed_copy(src: DecodedImage, fix: OrientationFix, out: DecodedImage) -> bool {
    &&& (out.width, out.height) == fixed_dims(fix, src.width, src.height)
    &&& packed(out)
    &&& forall|x: int, y: int, k: int|
        0 <= x < out.width && 0 <= y < out.height && 0 <= k < 4 ==> #[trigger] pixel_byte(
            out,
            x,
            y,
            k,
        ) == pixel_byte(
            src,
            fix_source(fix, src.width as int, src.height as int, x, y).0,
            fix_source(fix, src.width as int, src.height as int, x, y).1,
            k,
        )
}

/// The fix for an EXIF orientation read from a file (none when absent).
pub open spec fn fix_for(orientation: Option<u32>) -> OrientationFix {
    match orientation {
        Some(2) => OrientationFix::FlipHorizontal,
        Some(3) => OrientationFix::Rotate180,
        Some(4) => OrientationFix::FlipVertical,
        Some(5) => OrientationFix::Rotate90FlipHorizontal,
        Some(6) => OrientationFix::Rotate90,
        Some(7) => OrientationFix::Rotate270FlipHorizontal,
        Some(8) => OrientationFix::Rotate270,
        _ => OrientationFix::Keep,
    }
}

/// Whether `r` is what is shown for `frame` with EXIF orientation
/// `orientation` at a target long edge of `target_long_edge`: the frame
/// turned upright; unchanged further when that is already its display size,
/// otherwise resampled to the display size (its pixel values are the
/// resampler's), which fails only when that size is too large to allocate
/// (more than `isize::MAX` bytes).
pub open spec fn shown_as(
    frame: DecodedImage,
    orientation: Option<u32>,
    target_long_edge: u32,
    r: Result<DecodedImage, String>,
) -> bool {
    let fix = fix_for(orientation);
    let (w, h) = fixed_dims(fix, frame.width, frame.height);
    let (dw, dh) = scaled_dims_spec(w, h, target_long_edge);
    if dw == w && dh == h {
        r matches Ok(img) && fixed_copy(frame, fix, img)
    } else if dw as int * dh as int * 4 <= isize::MAX {
        r matches Ok(img) && img.width == dw && img.height == dh && packed(img)
    } else {
        r is Err
    }
}

/// Law of the EXIF orientations: with no limit on the size, the picture
/// shown for a frame with EXIF orientation `o` is the frame turned upright:
/// the sides swap for orientations 5 to 8, and each pixel (`x`, `y`) is the
/// frame's pixel that the orientation puts there: for 2 mirrored left to
/// right, 3 turned half round, 4 mirrored top to bottom, 5 transposed, 6
/// turned a quarter clockwise, 7 transposed the other way, 8 turned a
/// quarter anticlockwise; 1 and unknown values keep every pixel.
pub proof fn lemma_exif_orientations(frame: DecodedImage, o: u32, r: Result<DecodedImage, String>)
    requires
        packed(frame),
        shown_as(frame, Some(o), 0, r),
    ensures
        r matches Ok(img) && packed(img) && (if 5 <= o <= 8 {
            img.width == frame.height && img.height == frame.width
        } else {
            img.width == frame.width && img.height == frame.height
        }),
        o == 2 ==> (r matches Ok(img) && forall|x: int, y: int, k: int|
            0 <= x < img.width && 0 <= y < img.height && 0 <= k < 4 ==> #[trigger] pixel_byte(img, x, y, k)
                == pixel_byte(frame, frame.width - 1 - x, y, k)),
        o == 3 ==> (r matches Ok(img) && forall|x: int, y: int, k: int|
            0 <= x < img.width && 0 <= y < img.height && 0 <= k < 4 ==> #[trigger] pixel_byte(img, x, y, k)
                == pixel_byte(frame, frame.width - 1 - x, frame.height - 1 - y, k)),
        o == 4 ==> (r matches Ok(img) && forall|x: int, y: int, k: int|
            0 <= x < img.width && 0 <= y < img.height && 0 <= k < 4 ==> #[trigger] pixel_byte(img, x, y, k)
                == pixel_byte(frame, x, frame.height - 1 - y, k)),
        o == 5 ==> (r matches Ok(img) && forall|x: int, y: int, k: int|
            0 <= x < img.width && 0 <= y < img.height && 0 <= k < 4 ==> #[trigger] pixel_byte(img, x, y, k)
                == pixel_byte(frame, y, x, k)),
        o == 6 ==> (r matches Ok(img) && forall|x: int, y: int, k: int|
            0 <= x < img.width && 0 <= y < img.height && 0 <= k < 4 ==> #[trigger] pixel_byte(img, x, y, k)
                == pixel_byte(frame, y, frame.height - 1 - x, k)),
        o == 7 ==> (r matches Ok(img) && forall|x: int, y: int, k: int|
            0 <= x < img.width && 0 <= y < img.height && 0 <= k < 4 ==> #[trigger] pixel_byte(img, x, y, k)
                == pixel_byte(frame, frame.width - 1 - y, frame.height - 1 - x, k)),
        o == 8 ==> (r matches Ok(img) && forall|x: int, y: int, k: int|
            0 <= x < img.width && 0 <= y < img.height && 0 <= k < 4 ==> #[trigger] pixel_byte(img, x, y, k)
                == pixel_byte(frame, frame.width - 1 - y, x, k)),
        !(2 <= o <= 8) ==> (r matches Ok(img) && forall|x: int, y: int, k: int|
            0 <= x < img.width && 0 <= y < img.height && 0 <= k < 4 ==> #[trigger] pixel_byte(img, x, y, k)
                == pixel_byte(frame, x, y, k)),
{
    let fix = fix_for(Some(o));
    let (w, h) = fixed_dims(fix, frame.width, frame.height);
    assert(scaled_dims_spec(w, h, 0) == (w, h));
    let img = r->Ok_0;
    assert(fixed_copy(frame, fix, img));
}

proof fn lemma_flat_position(p: int, ow: int, oh: int)
    requires
        0 <= p < ow * oh,
        ow > 0,
    ensures
        0 <= p % ow < ow,
        0 <= p / ow < oh,
        p == (p / ow) * ow + p % ow,
{
    vstd::arithmetic::div_mod::lemma_fundamental_div_mod(p, ow);
    vstd::arithmetic::div_mod::lemma_mod_pos_bound(p, ow);
    let q = p / ow;
    assert(ow * q == q * ow) by (nonlinear_arith);
    assert(q >= 0) by (nonlinear_arith)
        requires
            p == ow * q + p % ow,
            p % ow < ow,
            p >= 0,
            ow > 0,
    ;
    assert(q < oh) by (nonlinear_arith)
        requires
            p == ow * q + p % ow,
            p % ow >= 0,
            p < ow * oh,
            ow > 0,
    ;
}

proof fn lemma_pixel_in_bounds(x: int, y: int, w: int, h: int)
    requires
        0 <= x < w,
        0 <= y < h,
    ensures
        0 <= y * w + x < w * h,
{
    assert(0 <= y * w + x < w * h) by (nonlinear_arith)
        requires
            0 <= x < w,
            0 <= y < h,
    ;
}

/// The source pixel of output pixel (`x`, `y`) after `fix` (see
/// [`fix_source`]).
fn source_of(fix: OrientationFix, width: u32, height: u32, x: u32, y: u32) -> (r: (u32, u32))
    requires
        x < fixed_dims(fix, width, height).0,
        y < fixed_dims(fix, width, height).1,
    ensures
        (r.0 as int, r.1 as int) == fix_source(fix, width as int, height as int, x as int, y as int),
        r.0 < width,
        r.1 < height,
{
    match fix {
        OrientationFix::Keep => (x, y),
        OrientationFix::FlipHorizontal => (width - 1 - x, y),
        OrientationFix::Rotate180 => (width - 1 - x, height - 1 - y),
        OrientationFix::FlipVertical => (x, height - 1 - y),
        OrientationFix::Rotate90FlipHorizontal => (y, x),
        OrientationFix::Rotate90 => (y, height - 1 - x),
        OrientationFix::Rotate270FlipHorizontal => (width - 1 - y, height - 1 - x),
        OrientationFix::Rotate270 => (width - 1 - y, x),
    }
}

/// `src` turned upright by `fix` (see [`fixed_copy`]).
pub fn apply_fix(src: &DecodedImage, fix: OrientationFix) -> (out: DecodedImage)
    requires
        packed(*src),
    ensures
        fixed_copy(*src, fix, out),
{
    let w = src.width;
    let h = src.height;
    let quarter = match fix {
        OrientationFix::Rotate90FlipHorizontal | OrientationFix::Rotate90
        | OrientationFix::Rotate270FlipHorizontal | OrientationFix::Rotate270 => true,
        _ => false,
    };
    let (ow, oh) = if quarter {
        (h, w)
    } else {
        (w, h)
    };
    assert((ow, oh) == fixed_dims(fix, w, h));
    let total: usize = src.rgba.len();
    let n: usize = total / 4;
    proof {
        assert(ow as int * oh as int == w as int * h as int) by (nonlinear_arith)
            requires
                (ow == w && oh == h) || (ow == h && oh == w),
        ;
        assert(n as int == w as int * h as int);
    }
    let mut out: Vec<u8> = Vec::new();
    let mut p: usize = 0;
    while p < n
        invariant
            packed(*src),
            w == src.width,
            h == src.height,
            (ow, oh) == fixed_dims(fix, w, h),
            n as int == w as int * h as int,
            n as int == ow as int * oh as int,
            n as int * 4 == src.rgba@.len(),
            n as int * 4 <= usize::MAX,
            p <= n,
            out@.len() == p as int * 4,
            forall|q: int, k: int|
                0 <= q < p && 0 <= k < 4 ==> #[trigger] out@[q * 4 + k] == pixel_byte(
                    *src,
                    fix_source(fix, w as int, h as int, q % ow as int, q / ow as int).0,
                    fix_source(fix, w as int, h as int, q % ow as int, q / ow as int).1,
                    k,
                ),
        decreases n - p,
    {
        proof {
            assert(ow > 0) by (nonlinear_arith)
                requires
                    0 <= p < ow as int * oh as int,
            ;
            lemma_flat_position(p as int, ow as int, oh as int);
        }
        let ow_n = ow as usize;
        let x = (p % ow_n) as u32;
        let y = (p / ow_n) as u32;
        let (sx, sy) = source_of(fix, w, h, x, y);
        proof {
            lemma_pixel_in_bounds(sx as int, sy as int, w as int, h as int);
            assert(sy as int * w as int <= sy as int * w as int + sx as int);
        }
        let s: usize = (sy as usize) * (w as usize) + (sx as usize);
        assert(s < n);
        let b: usize = s * 4;
        let ghost before = out@;
        out.push(src.rgba[b]);
        out.push(src.rgba[b + 1]);
        out.push(src.rgba[b + 2]);
        out.push(src.rgba[b + 3]);
        proof {
            assert forall|q: int, k: int| 0 <= q < p + 1 && 0 <= k < 4 implies #[trigger] out@[q * 4
                + k] == pixel_byte(
                *src,
                fix_source(fix, w as int, h as int, q % ow as int, q / ow as int).0,
                fix_source(fix, w as int, h as int, q % ow as int, q / ow as int).1,
                k,
            ) by {
                if q < p {
                    assert(out@[q * 4 + k] == before[q * 4 + k]);
                } else {
                    assert(q == p);
                }
            }
        }
        p = p + 1;
    }
    let img = DecodedImage { width: ow, height: oh, rgba: out };
    proof {
        assert forall|x: int, y: int, k: int|
            0 <= x < img.width && 0 <= y < img.height && 0 <= k < 4 implies #[trigger] pixel_byte(
            img,
            x,
            y,
            k,
        ) == pixel_byte(
            *src,
            fix_source(fix, w as int, h as int, x, y).0,
            fix_source(fix, w as int, h as int, x, y).1,
            k,
        ) by {
            let q = y * ow as int + x;
            lemma_pixel_in_bounds(x, y, ow as int, oh as int);
            vstd::arithmetic::div_mod::lemma_fundamental_div_mod_converse(q, ow as int, y, x);
            assert(q * 4 + k == (y * img.width as int + x) * 4 + k);
        }
    }
    img
}

/// Whether `img` is packed (see [`packed`]).
pub fn is_packed(img: &DecodedImage) -> (r: bool)
    ensures
        r == packed(*img),
{
    proof {
        assert(img.width as int * img.height as int * 4 <= 0xffff_ffff * 0xffff_ffff * 4) by (
        nonlinear_arith)
            requires
                img.width <= 0xffff_ffff,
                img.height <= 0xffff_ffff,
        ;
    }
    (img.width as u128) * (img.height as u128) * 4 == img.rgba.len() as u128
}

/// Decodes an image file's contents with the `image` crate:
/// `ImageReader::with_guessed_format` (the format told from the leading
/// bytes by the decoders registered in the process), `decode`, then
/// `to_rgba8`; the error's message otherwise. Claimed of it: a decoded image
/// is packed. `DynamicImage::from_decoder` fills a buffer of the decoder's
/// `total_bytes`, which every decoder this program links (the crate's own
/// and the HEIF hooks) leaves at width x height x bytes per pixel, and
/// `to_rgba8` either keeps an RGBA8 buffer or converts into a new one of
/// width x height x 4. Which image comes out is not stated: which formats
/// decode depends on the decoders registered in the process at run time.
#[verifier::external_body]
fn decode_rgba(bytes: &Vec<u8>) -> (r: Result<DecodedImage, String>)
    ensures
        r matches Ok(img) ==> packed(img),
{
    let reader = image::ImageReader::new(std::io::Cursor::new(bytes.as_slice()));
    match reader.with_guessed_format() {
        Ok(reader) => match reader.decode() {
            Ok(img) => {
                let rgba = img.to_rgba8();
                Ok(DecodedImage { width: rgba.width(), height: rgba.height(), rgba: rgba.into_raw() })
            },
            Err(e) => Err(e.to_string()),
        },
        Err(e) => Err(e.to_string()),
    }
}

/// The EXIF orientation of an image file's contents, a function of the
/// bytes alone (see [`exif_orientation`]).
pub uninterp spec fn exif_orientation_of(bytes: Seq<u8>) -> Option<u32>;

/// Reads the EXIF orientation tag of an image file's contents with
/// `kamadak-exif`: `Reader::read_from_container`, then the primary image's
/// `Orientation` field and its `get_uint(0)`; `None` where the bytes hold
/// no readable EXIF data or no such field. The result is named
/// [`exif_orientation_of`] of the bytes.
#[verifier::external_body]
fn exif_orientation(bytes: &Vec<u8>) -> (r: Option<u32>)
    ensures
        r == exif_orientation_of(bytes@),
{
    let mut reader = std::io::Cursor::new(bytes.as_slice());
    let exif = exif::Reader::new().read_from_container(&mut reader).ok()?;
    let field = exif.get_field(exif::Tag::Orientation, exif::In::PRIMARY)?;
    field.value.get_uint(0)
}

/// Resamples the packed RGBA8 pixels of a `width` x `height` image to
/// `dst_width` x `dst_height` with `fast_image_resize`: `Resizer::resize`
/// with its default options, from an `Image::new` of the source size filled
/// with the pixels into one of the destination size. Claimed of it: it
/// succeeds (for two U8x4 images and no crop box the resizer has no error
/// to give: an empty source or destination is left as it is, and the full
/// source is a valid crop), and the result is the destination's buffer,
/// `dst_width * dst_height * 4` bytes. The values of the resampled pixels
/// are not stated: the resampler chooses among code paths for the CPU it
/// runs on.
#[verifier::external_body]
fn resample_rgba(rgba: &Vec<u8>, width: u32, height: u32, dst_width: u32, dst_height: u32) -> (r:
    Result<Vec<u8>, String>)
    requires
        rgba@.len() == width as int * height as int * 4,
        dst_width as int * dst_height as int * 4 <= isize::MAX,
    ensures
        r is Ok,
        r matches Ok(v) ==> v@.len() == dst_width as int * dst_height as int * 4,
{
    let mut src = FirImage::new(width, height, PixelType::U8x4);
    src.buffer_mut().copy_from_slice(rgba.as_slice());
    let mut dst = FirImage::new(dst_width, dst_height, PixelType::U8x4);
    match Resizer::new().resize(&src, &mut dst, None) {
        Ok(()) => Ok(dst.into_vec()),
        Err(e) => Err(e.to_string()),
    }
}

/// The picture shown for `frame` with EXIF orientation `orientation` (see
/// [`shown_as`]). A display size too large to allocate is an error.
pub fn orient_and_scale(frame: DecodedImage, orientation: Option<u32>, target_long_edge: u32) -> (r:
    Result<DecodedImage, String>)
    requires
        packed(frame),
    ensures
        shown_as(frame, orientation, target_long_edge, r),
{
    let fix = match orientation {
        Some(o) => orientation_fix(o),
        None => OrientationFix::Keep,
    };
    assert(fix == fix_for(orientation));
    let ghost original = frame;
    let upright = match fix {
        OrientationFix::Keep => frame,
        _ => apply_fix(&frame, fix),
    };
    assert(fixed_copy(original, fix, upright));
    let (dw, dh) = scaled_dims(upright.width, upright.height, target_long_edge);
    if dw == upright.width && dh == upright.height {
        return Ok(upright);
    }
    proof {
        assert(dw as int * dh as int * 4 <= 0xffff_ffff * 0xffff_ffff * 4) by (nonlinear_arith)
            requires
                dw <= 0xffff_ffff,
                dh <= 0xffff_ffff,
        ;
    }
    if (dw as u128) * (dh as u128) * 4 > isize::MAX as u128 {
        return Err("image too large to resample".to_owned());
    }
    match resample_rgba(&upright.rgba, upright.width, upright.height, dw, dh) {
        Ok(rgba) => Ok(DecodedImage { width: dw, height: dh, rgba }),
        Err(e) => Err(e),
    }
}

/// Whether `o` holds a packed frame.
pub open spec fn usable_frame(o: Option<DecodedImage>) -> bool {
    o matches Some(f) && packed(f)
}

/// What a decode gives when a packed frame is needed: a packed frame
/// decoded as it is, a frame that is not packed an error, and a decode error
/// that error.
pub fn packed_or_error(decoded: Result<DecodedImage, String>) -> (r: Result<DecodedImage, String>)
    ensures
        match decoded {
            Ok(img) => if packed(img) {
                r == Ok::<DecodedImage, String>(img)
            } else {
                r is Err
            },
            Err(e) => r == Err::<DecodedImage, String>(e),
        },
{
    match decoded {
        Ok(img) => {
            if is_packed(&img) {
                Ok(img)
            } else {
                Err("decoded pixel buffer does not match the image size".to_owned())
            }
        },
        Err(e) => Err(e),
    }
}

/// What is shown for the decoder's result `decoded`: a packed frame as
/// [`shown_as`] says; a frame that is not packed is an error, and a decode
/// error is passed on.
pub open spec fn displayed_as(
    decoded: Result<DecodedImage, String>,
    orientation: Option<u32>,
    target_long_edge: u32,
    r: Result<DecodedImage, String>,
) -> bool {
    match decoded {
        Ok(f) => if packed(f) {
            shown_as(f, orientation, target_long_edge, r)
        } else {
            r is Err
        },
        Err(e) => r == Err::<DecodedImage, String>(e),
    }
}

/// The picture shown for the decoder's result `decoded` (see
/// [`displayed_as`]).
pub fn display_from_decoded(
    decoded: Result<DecodedImage, String>,
    orientation: Option<u32>,
    target_long_edge: u32,
) -> (r: Result<DecodedImage, String>)
    ensures
        displayed_as(decoded, orientation, target_long_edge, r),
{
    let frame = packed_or_error(decoded)?;
    orient_and_scale(frame, orientation, target_long_edge)
}

/// The picture shown for an image file with contents `bytes`: the frame
/// `scaled_jpeg` that the scaled JPEG decoder produced when it is packed,
/// otherwise what the `image` crate decodes of the bytes (see
/// [`display_from_decoded`]); turned upright by the file's EXIF orientation
/// and brought to display size (see [`shown_as`]).
pub fn decode_for_display(bytes: &Vec<u8>, scaled_jpeg: Option<DecodedImage>, target_long_edge: u32) -> (r:
    Result<DecodedImage, String>)
    ensures
        usable_frame(scaled_jpeg) ==> shown_as(
            scaled_jpeg.unwrap(),
            exif_orientation_of(bytes@),
            target_long_edge,
            r,
        ),
        !usable_frame(scaled_jpeg) ==> exists|decoded: Result<DecodedImage, String>|
            #[trigger] displayed_as(decoded, exif_orientation_of(bytes@), target_long_edge, r) && (
            decoded matches Ok(f) ==> packed(f)),
{
    let orientation = exif_orientation(bytes);
    match scaled_jpeg {
        Some(f) => {
            if is_packed(&f) {
                orient_and_scale(f, orientation, target_long_edge)
            } else {
                display_from_decoded(decode_rgba(bytes), orientation, target_long_edge)
            }
        },
        None => display_from_decoded(decode_rgba(bytes), orientation, target_long_edge),
    }
}

} // verus!

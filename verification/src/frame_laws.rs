//! What holds of captured frames, formats and pictures, whatever was captured. Each law
//! speaks of what a call may return for what it was given.

use vstd::prelude::*;

use crate::pixels::{
    expected_frame_size, expected_frame_size_from_stride, expected_frame_stride, frame_pixel,
    half_up, image_row, image_rows, larger, packed_rgb, pixel_or_black, raw_frame_to_rgb_image,
    raw_pixel_rgb, rgb_view, yuv_to_rgb, RawFrame, RawFrameFormat, RgbImage,
};

verus! {

/// Where a channel of a packed pixel stands: bytes of a pixel, and the bytes before red,
/// green and blue.
pub open spec fn is_packed(format: RawFrameFormat, bytes: int, red: int, green: int, blue: int) -> bool {
    match format {
        RawFrameFormat::Rgb => bytes == 3 && red == 0 && green == 1 && blue == 2,
        RawFrameFormat::Bgr => bytes == 3 && red == 2 && green == 1 && blue == 0,
        RawFrameFormat::Rgba => bytes == 4 && red == 0 && green == 1 && blue == 2,
        RawFrameFormat::Rgbx => bytes == 4 && red == 0 && green == 1 && blue == 2,
        RawFrameFormat::Bgra => bytes == 4 && red == 2 && green == 1 && blue == 0,
        RawFrameFormat::Bgrx => bytes == 4 && red == 2 && green == 1 && blue == 0,
        RawFrameFormat::Argb => bytes == 4 && red == 1 && green == 2 && blue == 3,
        RawFrameFormat::Xrgb => bytes == 4 && red == 1 && green == 2 && blue == 3,
        RawFrameFormat::Abgr => bytes == 4 && red == 3 && green == 2 && blue == 1,
        RawFrameFormat::Xbgr => bytes == 4 && red == 3 && green == 2 && blue == 1,
        _ => false,
    }
}

proof fn lemma_pixel_bytes(frame: RawFrame, x: int, y: int)
    ensures
        pixel_or_black(frame_pixel(frame, x, y)).len() == 3,
{
}

/// Behind a run of pixels, the run stays and the next pixel follows.
proof fn lemma_joined(before: Seq<u8>, last: Seq<u8>, columns: int, x: int)
    requires
        before.len() == 3 * columns,
        last.len() == 3,
        0 <= x <= columns,
    ensures
        x < columns ==> (before + last).subrange(3 * x, 3 * x + 3) == before.subrange(
            3 * x,
            3 * x + 3,
        ),
        x == columns ==> (before + last).subrange(3 * x, 3 * x + 3) == last,
{
    if x < columns {
        assert((before + last).subrange(3 * x, 3 * x + 3) =~= before.subrange(3 * x, 3 * x + 3));
    } else {
        assert((before + last).subrange(3 * x, 3 * x + 3) =~= last);
    }
}

/// Three bytes of an image stand where its pixel is.
#[verifier::rlimit(60)]
#[verifier::spinoff_prover]
proof fn lemma_row_pixel(frame: RawFrame, y: int, columns: int, x: int)
    requires
        0 <= x < columns,
    ensures
        image_row(frame, y, columns).len() == 3 * columns,
        image_row(frame, y, columns).subrange(3 * x, 3 * x + 3) == pixel_or_black(
            frame_pixel(frame, x, y),
        ),
    decreases columns,
{
    let before = image_row(frame, y, columns - 1);
    let last = pixel_or_black(frame_pixel(frame, columns - 1, y));
    if columns > 1 {
        lemma_row_pixel(frame, y, columns - 1, 0);
    }
    lemma_pixel_bytes(frame, columns - 1, y);
    if x < columns - 1 {
        lemma_row_pixel(frame, y, columns - 1, x);
    }
    lemma_joined(before, last, columns - 1, x);
}

proof fn lemma_row_bytes(frame: RawFrame, y: int, columns: int)
    requires
        columns >= 0,
    ensures
        image_row(frame, y, columns).len() == 3 * columns,
{
    if columns > 0 {
        lemma_row_pixel(frame, y, columns, 0);
    }
}

/// Three bytes of an image stand where its pixel is.
proof fn lemma_image_pixel(frame: RawFrame, rows: int, x: int, y: int)
    requires
        0 <= x < frame.width,
        0 <= y < rows,
    ensures
        image_rows(frame, rows).len() == 3 * (frame.width * rows),
        3 * (y * frame.width + x) + 3 <= image_rows(frame, rows).len(),
        image_rows(frame, rows).subrange(
            3 * (y * frame.width + x),
            3 * (y * frame.width + x) + 3,
        ) == pixel_or_black(frame_pixel(frame, x, y)),
    decreases rows,
{
    let width = frame.width as int;
    let before = image_rows(frame, rows - 1);
    let last = image_row(frame, rows - 1, width);
    let at = 3 * (y * width + x);
    lemma_row_bytes(frame, rows - 1, width);
    if rows > 1 {
        lemma_image_pixel(frame, rows - 1, x, 0);
    } else {
        assert(width * 0 == 0) by (nonlinear_arith);
    }
    assert(before.len() == 3 * (width * (rows - 1)));
    assert(width * (rows - 1) + width == width * rows) by (nonlinear_arith);
    if y < rows - 1 {
        lemma_image_pixel(frame, rows - 1, x, y);
        assert((before + last).subrange(at, at + 3) =~= before.subrange(at, at + 3));
    } else {
        lemma_row_pixel(frame, y, width, x);
        assert(y * width == width * (rows - 1)) by (nonlinear_arith)
            requires
                y == rows - 1,
        ;
        assert((before + last).subrange(at, at + 3) =~= last.subrange(3 * x, 3 * x + 3));
    }
}

proof fn lemma_three_bytes(pixels: Seq<u8>, at: int, pixel: Seq<u8>, rgb: Option<[u8; 3]>)
    requires
        0 <= at <= pixels.len() - 3,
        pixels.subrange(at, at + 3) == pixel,
        pixel == pixel_or_black(rgb_view(rgb)),
    ensures
        forall|c: int|
            0 <= c < 3 ==> #[trigger] pixels[at + c] == match rgb {
                Some(rgb) => rgb@[c],
                None => 0,
            },
{
    assert forall|c: int| 0 <= c < 3 implies #[trigger] pixels[at + c] == match rgb {
        Some(rgb) => rgb@[c],
        None => 0,
    } by {
        assert(pixels.subrange(at, at + 3)[c] == pixels[at + c]);
    }
}

/// An image has three bytes for each pixel, row by row, and each three are what reading that
/// one pixel of the frame gives, or black where it gives nothing.
#[verifier::rlimit(60)]
#[verifier::spinoff_prover]
pub proof fn images_are_read_pixel_by_pixel(
    frame: &RawFrame,
    image: RgbImage,
    x: usize,
    y: usize,
    rgb: Option<[u8; 3]>,
)
    requires
        call_ensures(raw_frame_to_rgb_image, (frame,), image),
        call_ensures(raw_pixel_rgb, (frame, x, y), rgb),
        x < frame.width,
        y < frame.height,
    ensures
        image.width == frame.width,
        image.height == frame.height,
        image.pixels@.len() == 3 * (frame.width * frame.height),
        ({
            let at = 3 * (y * frame.width + x);
            &&& 0 <= at < image.pixels@.len() - 2
            &&& forall|c: int|
                0 <= c < 3 ==> #[trigger] image.pixels@[at + c] == match rgb {
                    Some(rgb) => rgb@[c],
                    None => 0,
                }
        }),
{
    lemma_image_pixel(*frame, frame.height as int, x as int, y as int);
    let at = 3 * (y * frame.width + x);
    assert(at >= 0) by (nonlinear_arith)
        requires
            at == 3 * (y * frame.width + x),
            y >= 0,
            x >= 0,
            frame.width >= 0,
    ;
    lemma_three_bytes(
        image.pixels@,
        at,
        pixel_or_black(frame_pixel(*frame, x as int, y as int)),
        rgb,
    );
}

/// Pixels of packed layouts are read in place: the pixel in column `x` of row `y` begins `y`
/// strides and `x` pixels into the frame. Where one of its three channels lies behind the
/// end, it is not there.
pub proof fn packed_pixels_are_read_in_place(
    frame: &RawFrame,
    x: usize,
    y: usize,
    rgb: Option<[u8; 3]>,
    bytes: int,
    red: int,
    green: int,
    blue: int,
)
    requires
        call_ensures(raw_pixel_rgb, (frame, x, y), rgb),
        is_packed(frame.format, bytes, red, green, blue),
    ensures
        ({
            let first = y * frame.stride + x * bytes;
            match rgb {
                Some(rgb) => {
                    &&& first + red < frame.data@.len()
                    &&& first + green < frame.data@.len()
                    &&& first + blue < frame.data@.len()
                    &&& rgb@[0] == frame.data@[first + red]
                    &&& rgb@[1] == frame.data@[first + green]
                    &&& rgb@[2] == frame.data@[first + blue]
                },
                None => first + red >= frame.data@.len() || first + green >= frame.data@.len()
                    || first + blue >= frame.data@.len(),
            }
        }),
{
}

/// Any three channels are read in place.
pub proof fn channels_are_read_in_place(
    data: &[u8],
    y: usize,
    stride: usize,
    x: usize,
    bytes: usize,
    channels: [usize; 3],
    rgb: Option<[u8; 3]>,
)
    requires
        call_ensures(packed_rgb, (data, y, stride, x, bytes, channels), rgb),
    ensures
        rgb is Some <==> forall|c: int|
            0 <= c < 3 ==> y * stride + x * bytes + #[trigger] channels@[c] < data@.len(),
        rgb matches Some(rgb) ==> forall|c: int|
            0 <= c < 3 ==> #[trigger] rgb@[c] == data@[y * stride + x * bytes + channels@[c]],
{
    let first = y * stride + x * bytes;
    if rgb is None {
        assert(first + channels@[0] >= data@.len() || first + channels@[1] >= data@.len() || first
            + channels@[2] >= data@.len());
    } else {
        assert(first + channels@[0] < data@.len() && first + channels@[1] < data@.len() && first
            + channels@[2] < data@.len());
    }
}

/// The same bytes of two rows of a packed frame are a whole number of strides apart: a frame
/// that holds the lower rows of another reads as its upper rows.
pub proof fn rows_are_a_stride_apart(
    frame: &RawFrame,
    lower: &RawFrame,
    x: usize,
    y: usize,
    skipped: usize,
    rgb: Option<[u8; 3]>,
    moved: Option<[u8; 3]>,
    row: usize,
)
    requires
        frame.format != RawFrameFormat::I420,
        lower.format == frame.format,
        lower.stride == frame.stride,
        skipped * frame.stride <= frame.data@.len(),
        lower.data@ == frame.data@.skip(skipped * frame.stride),
        row == y + skipped,
        call_ensures(raw_pixel_rgb, (frame, x, row), rgb),
        call_ensures(raw_pixel_rgb, (lower, x, y), moved),
    ensures
        rgb_view(rgb) == rgb_view(moved),
{
    let stride = frame.stride as int;
    let cut = skipped * stride;
    assert(row * stride == y * stride + cut) by (nonlinear_arith)
        requires
            row == y + skipped,
            cut == skipped * stride,
    ;
    let near = y * stride;
    assert(near >= 0) by (nonlinear_arith)
        requires
            near == y * stride,
            y >= 0,
            stride >= 0,
    ;
    assert forall|k: int| 0 <= k < lower.data@.len() implies #[trigger] lower.data@[k]
        == frame.data@[k + cut] by {}
    let a = frame_pixel(*frame, x as int, row as int);
    let b = frame_pixel(*lower, x as int, y as int);
    assert(x * 3 >= 0 && x * 4 >= 0);
    assert(a is Some <==> b is Some);
    if a is Some {
        assert(a->0 =~= b->0);
    }
}

/// A frame of red, green and blue without padding is its own image.
pub proof fn tight_frames_are_their_own_image(frame: &RawFrame, image: RgbImage)
    requires
        call_ensures(raw_frame_to_rgb_image, (frame,), image),
        frame.format == RawFrameFormat::Rgb,
        frame.stride == 3 * frame.width,
        frame.data@.len() == 3 * (frame.width * frame.height),
    ensures
        image.pixels@ == frame.data@,
{
    let width = frame.width as int;
    let height = frame.height as int;
    let pixels = image.pixels@;
    assert(width * height * 3 == 3 * (width * height));
    assert forall|k: int| 0 <= k < pixels.len() implies pixels[k] == frame.data@[k] by {
        let c = k % 3;
        let p = k / 3;
        assert(width > 0) by (nonlinear_arith)
            requires
                3 * (width * height) > 0,
                width >= 0,
        ;
        let y = p / width;
        let x = p % width;
        assert(p == y * width + x && 0 <= x < width && 0 <= y < height) by (nonlinear_arith)
            requires
                width > 0,
                0 <= p < width * height,
                y == p / width,
                x == p % width,
        ;
        lemma_image_pixel(*frame, height, x, y);
        let at = 3 * (y * width + x);
        assert(y * (3 * width) + x * 3 == at) by (nonlinear_arith)
            requires
                at == 3 * (y * width + x),
        ;
        assert(pixels.subrange(at, at + 3)[c] == pixels[at + c]);
        assert(frame_pixel(*frame, x, y) is Some);
    }
    assert(pixels =~= frame.data@);
}

/// Pixels that share chroma in pairs: the two of a pair have luma samples of their own, two
/// bytes apart, and the same two chroma samples.
pub proof fn paired_pixels_share_chroma(
    frame: &RawFrame,
    x: usize,
    y: usize,
    rgb: Option<[u8; 3]>,
    pair: int,
    converted: [u8; 3],
)
    requires
        frame.format == RawFrameFormat::Yuy2,
        call_ensures(raw_pixel_rgb, (frame, x, y), rgb),
        x == 2 * pair || x == 2 * pair + 1,
        y * frame.stride + 4 * pair + 3 < frame.data@.len(),
        call_ensures(
            yuv_to_rgb,
            (
                frame.data@[y * frame.stride + 2 * x],
                frame.data@[y * frame.stride + 4 * pair + 1],
                frame.data@[y * frame.stride + 4 * pair + 3],
            ),
            converted,
        ),
    ensures
        rgb_view(rgb) == Some(converted@),
{
    assert(x / 2 == pair);
}

/// A frame with shared chroma ends where the last four bytes of a pair do.
pub proof fn missing_pairs_are_not_read(
    frame: &RawFrame,
    x: usize,
    y: usize,
    rgb: Option<[u8; 3]>,
    pair: int,
)
    requires
        frame.format == RawFrameFormat::Yuy2,
        call_ensures(raw_pixel_rgb, (frame, x, y), rgb),
        x == 2 * pair || x == 2 * pair + 1,
        y * frame.stride + 4 * pair + 3 >= frame.data@.len(),
    ensures
        rgb is None,
{
    assert(x / 2 == pair);
}

/// Planar frames: a plane of luma comes first, then two planes of chroma with half as many
/// rows and columns, rounded up. Each square of four pixels has the same chroma samples.
pub proof fn planar_pixels_share_chroma(
    frame: &RawFrame,
    x: usize,
    y: usize,
    rgb: Option<[u8; 3]>,
    column: int,
    line: int,
    half_row: int,
    half_height: int,
    converted: [u8; 3],
)
    requires
        frame.format == RawFrameFormat::I420,
        frame.stride >= frame.width,
        call_ensures(raw_pixel_rgb, (frame, x, y), rgb),
        x == 2 * column || x == 2 * column + 1,
        y == 2 * line || y == 2 * line + 1,
        2 * half_row == frame.stride || 2 * half_row == frame.stride + 1,
        2 * half_height == frame.height || 2 * half_height == frame.height + 1,
        ({
            let luma = frame.stride * frame.height;
            let chroma = half_row * half_height;
            let at = line * half_row + column;
            &&& y * frame.stride + x < frame.data@.len()
            &&& luma + at < frame.data@.len()
            &&& luma + chroma + at < frame.data@.len()
            &&& call_ensures(
                yuv_to_rgb,
                (
                    frame.data@[y * frame.stride + x],
                    frame.data@[luma + at],
                    frame.data@[luma + chroma + at],
                ),
                converted,
            )
        }),
    ensures
        rgb_view(rgb) == Some(converted@),
{
    assert(half_up(frame.stride as int) == half_row);
    assert(half_up(frame.height as int) == half_height);
    assert(x as int / 2 == column);
    assert(y as int / 2 == line);
    assert(larger(frame.stride as int, frame.width as int) == frame.stride);
}

/// A number of two hundred and fifty-sixths, rounded to the nearest byte.
pub open spec fn rounds_to(byte: u8, scaled: int) -> bool {
    &&& scaled <= 0 ==> byte == 0
    &&& scaled >= 255 * 256 ==> byte == 255
    &&& 0 < scaled < 255 * 256 ==> -128 <= scaled - 256 * byte <= 128
}

/// Conversion from luma and chroma is that of standard-definition video with studio swing:
/// black is at sixteen and white at two hundred and thirty-five, and red, green and blue are
/// the nearest bytes to the weighted sums.
pub proof fn video_samples_convert_to_the_nearest_byte(y: u8, u: u8, v: u8, rgb: [u8; 3])
    requires
        call_ensures(yuv_to_rgb, (y, u, v), rgb),
        y >= 16,
    ensures
        rounds_to(rgb@[0], 298 * (y - 16) + 409 * (v - 128)),
        rounds_to(rgb@[1], 298 * (y - 16) - 100 * (u - 128) - 208 * (v - 128)),
        rounds_to(rgb@[2], 298 * (y - 16) + 516 * (u - 128)),
{
}

/// Luma below black is black.
pub proof fn luma_below_black_is_black(y: u8, u: u8, v: u8, rgb: [u8; 3], black: [u8; 3])
    requires
        call_ensures(yuv_to_rgb, (y, u, v), rgb),
        call_ensures(yuv_to_rgb, (16u8, u, v), black),
        y <= 16,
    ensures
        rgb@ == black@,
{
}

/// More luma makes no channel darker.
pub proof fn more_luma_is_no_darker(y: u8, more: u8, u: u8, v: u8, rgb: [u8; 3], lighter: [u8; 3])
    requires
        call_ensures(yuv_to_rgb, (y, u, v), rgb),
        call_ensures(yuv_to_rgb, (more, u, v), lighter),
        y <= more,
    ensures
        forall|c: int| 0 <= c < 3 ==> #[trigger] rgb@[c] <= lighter@[c],
{
}

/// A row of a frame without padding has room for each of its pixels: three bytes for packed
/// colours without a fourth channel, four with one, two for shared chroma and one for planes.
pub proof fn rows_hold_their_pixels(number: u32, width: u32, stride: Option<u32>)
    requires
        call_ensures(expected_frame_stride, (number, width), stride),
    ensures
        ({
            let bytes = if number == 15 || number == 16 {
                3int
            } else if number == 4 {
                2
            } else if number == 2 {
                1
            } else {
                4
            };
            let known = number == 2 || number == 4 || 7 <= number <= 16;
            stride == if known && width * bytes <= u32::MAX {
                Some((width * bytes) as u32)
            } else {
                None
            }
        }),
{
}

/// A frame without padding has as many bytes as its rows have together; a planar one has half
/// as many again for chroma.
pub proof fn frames_hold_their_rows(
    number: u32,
    width: u32,
    height: u32,
    stride: Option<u32>,
    size: Option<u32>,
)
    requires
        call_ensures(expected_frame_stride, (number, width), stride),
        call_ensures(expected_frame_size, (number, width, height), size),
    ensures
        stride is None ==> size is None,
        stride matches Some(bytes) ==> if number == 2 {
            size == if 3 * (bytes * height) <= u32::MAX {
                Some((3 * (bytes * height) / 2) as u32)
            } else {
                None
            }
        } else {
            size == if bytes * height <= u32::MAX {
                Some((bytes * height) as u32)
            } else {
                None
            }
        },
{
    if number == 2 {
        assert(width * height * 3 == 3 * (width * height));
        assert(3 * (width * height) <= u32::MAX || true);
        if stride is None {
            assert(width * 1 <= u32::MAX);
        }
    }
}

/// The bytes of a frame with padded rows: every row is a stride, and a planar frame has two
/// planes of chroma, each half as high and half as wide, rounded up.
pub proof fn padded_frames_hold_their_planes(
    format: RawFrameFormat,
    stride: usize,
    width: u32,
    height: u32,
    size: Option<usize>,
    half_row: int,
    half_height: int,
)
    requires
        call_ensures(expected_frame_size_from_stride, (format, stride, width, height), size),
        stride >= width,
        2 * half_row == stride || 2 * half_row == stride + 1,
        2 * half_height == height || 2 * half_height == height + 1,
    ensures
        ({
            let bytes = if format == RawFrameFormat::I420 {
                stride * height + 2 * (half_row * half_height)
            } else {
                stride * height
            };
            size == if bytes <= usize::MAX {
                Some(bytes as usize)
            } else {
                None
            }
        }),
{
    assert(half_up(stride as int) == half_row);
    assert(half_up(height as int) == half_height);
    assert(half_up(width as int) <= half_row);
    assert(half_row * half_height * 2 == 2 * (half_row * half_height));
}

} // verus!

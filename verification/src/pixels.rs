//! Pixel formats of captured frames and their conversion to red, green and blue.

use image::{imageops, ImageBuffer, Rgb};
use vstd::prelude::*;

use crate::text::text_of;

verus! {

/// How the pixels of a captured frame are laid out.
#[derive(Clone, Copy, Debug, PartialEq, Eq, Structural)]
pub enum RawFrameFormat {
    /// Red, green, blue.
    Rgb,
    /// Red, green, blue, alpha.
    Rgba,
    /// Red, green, blue, unused.
    Rgbx,
    /// Blue, green, red.
    Bgr,
    /// Blue, green, red, alpha.
    Bgra,
    /// Blue, green, red, unused.
    Bgrx,
    /// Unused, red, green, blue.
    Xrgb,
    /// Unused, blue, green, red.
    Xbgr,
    /// Alpha, red, green, blue.
    Argb,
    /// Alpha, blue, green, red.
    Abgr,
    /// Luma of two pixels with shared chroma.
    Yuy2,
    /// A luma plane and two chroma planes of half the size.
    I420,
}

/// The layout that a number of the capture server stands for.
pub open spec fn frame_format_of(number: u32) -> Option<RawFrameFormat> {
    if number == 2 {
        Some(RawFrameFormat::I420)
    } else if number == 4 {
        Some(RawFrameFormat::Yuy2)
    } else if number == 7 {
        Some(RawFrameFormat::Rgbx)
    } else if number == 8 {
        Some(RawFrameFormat::Bgrx)
    } else if number == 9 {
        Some(RawFrameFormat::Xrgb)
    } else if number == 10 {
        Some(RawFrameFormat::Xbgr)
    } else if number == 11 {
        Some(RawFrameFormat::Rgba)
    } else if number == 12 {
        Some(RawFrameFormat::Bgra)
    } else if number == 13 {
        Some(RawFrameFormat::Argb)
    } else if number == 14 {
        Some(RawFrameFormat::Abgr)
    } else if number == 15 {
        Some(RawFrameFormat::Rgb)
    } else if number == 16 {
        Some(RawFrameFormat::Bgr)
    } else {
        None
    }
}

/// The layout that a number of the capture server stands for.
pub fn raw_frame_format_for_video_format(number: u32) -> (format: Option<RawFrameFormat>)
    ensures
        format == frame_format_of(number),
{
    match number {
        2 => Some(RawFrameFormat::I420),
        4 => Some(RawFrameFormat::Yuy2),
        7 => Some(RawFrameFormat::Rgbx),
        8 => Some(RawFrameFormat::Bgrx),
        9 => Some(RawFrameFormat::Xrgb),
        10 => Some(RawFrameFormat::Xbgr),
        11 => Some(RawFrameFormat::Rgba),
        12 => Some(RawFrameFormat::Bgra),
        13 => Some(RawFrameFormat::Argb),
        14 => Some(RawFrameFormat::Abgr),
        15 => Some(RawFrameFormat::Rgb),
        16 => Some(RawFrameFormat::Bgr),
        _ => None,
    }
}

/// The number of four characters, the first lowest.
pub open spec fn fourcc(a: u8, b: u8, c: u8, d: u8) -> u32 {
    (a + 0x100 * b + 0x1_0000 * c + 0x100_0000 * d) as u32
}

/// The number of four characters, the first lowest.
pub fn drm_fourcc(a: u8, b: u8, c: u8, d: u8) -> (code: u32)
    ensures
        code == fourcc(a, b, c, d),
{
    a as u32 + 0x100 * b as u32 + 0x1_0000 * c as u32 + 0x100_0000 * d as u32
}

/// The graphics driver's name of a layout.
pub open spec fn fourcc_of(number: u32) -> Option<u32> {
    match frame_format_of(number) {
        Some(RawFrameFormat::Bgrx) => Some(fourcc(88, 82, 50, 52)),
        Some(RawFrameFormat::Bgra) => Some(fourcc(65, 82, 50, 52)),
        Some(RawFrameFormat::Rgbx) => Some(fourcc(88, 66, 50, 52)),
        Some(RawFrameFormat::Rgba) => Some(fourcc(65, 66, 50, 52)),
        Some(RawFrameFormat::Xrgb) => Some(fourcc(66, 71, 82, 88)),
        Some(RawFrameFormat::Xbgr) => Some(fourcc(82, 71, 66, 88)),
        Some(RawFrameFormat::Argb) => Some(fourcc(66, 71, 82, 65)),
        Some(RawFrameFormat::Abgr) => Some(fourcc(82, 71, 66, 65)),
        Some(RawFrameFormat::Rgb) => Some(fourcc(82, 71, 50, 52)),
        Some(RawFrameFormat::Bgr) => Some(fourcc(66, 71, 50, 52)),
        Some(RawFrameFormat::Yuy2) => Some(fourcc(89, 85, 89, 86)),
        _ => None,
    }
}

/// The graphics driver's name of a layout: `XR24`, `AR24`, `XB24`, `AB24`, `BGRX`, `RGBX`,
/// `BGRA`, `RGBA`, `RG24`, `BG24` or `YUYV`.
pub fn drm_fourcc_for_video_format(number: u32) -> (code: Option<u32>)
    ensures
        code == fourcc_of(number),
{
    match raw_frame_format_for_video_format(number) {
        Some(RawFrameFormat::Bgrx) => Some(drm_fourcc(88, 82, 50, 52)),
        Some(RawFrameFormat::Bgra) => Some(drm_fourcc(65, 82, 50, 52)),
        Some(RawFrameFormat::Rgbx) => Some(drm_fourcc(88, 66, 50, 52)),
        Some(RawFrameFormat::Rgba) => Some(drm_fourcc(65, 66, 50, 52)),
        Some(RawFrameFormat::Xrgb) => Some(drm_fourcc(66, 71, 82, 88)),
        Some(RawFrameFormat::Xbgr) => Some(drm_fourcc(82, 71, 66, 88)),
        Some(RawFrameFormat::Argb) => Some(drm_fourcc(66, 71, 82, 65)),
        Some(RawFrameFormat::Abgr) => Some(drm_fourcc(82, 71, 66, 65)),
        Some(RawFrameFormat::Rgb) => Some(drm_fourcc(82, 71, 50, 52)),
        Some(RawFrameFormat::Bgr) => Some(drm_fourcc(66, 71, 50, 52)),
        Some(RawFrameFormat::Yuy2) => Some(drm_fourcc(89, 85, 89, 86)),
        _ => None,
    }
}

/// A byte as a character that can be shown.
pub open spec fn shown_char(byte: u32) -> char {
    if 0x20 <= byte <= 0x7e {
        byte as char
    } else {
        '.'
    }
}

fn shown(byte: u8) -> (c: char)
    ensures
        c == shown_char(byte as u32),
{
    if byte >= 0x20 && byte <= 0x7e {
        byte as char
    } else {
        '.'
    }
}

/// The four characters of a name, with a dot for what cannot be shown.
pub fn drm_fourcc_name(format: u32) -> (name: String)
    ensures
        name@ == seq![
            shown_char(format % 0x100),
            shown_char(format / 0x100 % 0x100),
            shown_char(format / 0x1_0000 % 0x100),
            shown_char(format / 0x100_0000),
        ],
{
    let mut chars: Vec<char> = Vec::new();
    chars.push(shown((format % 0x100) as u8));
    chars.push(shown((format / 0x100 % 0x100) as u8));
    chars.push(shown((format / 0x1_0000 % 0x100) as u8));
    chars.push(shown((format / 0x100_0000) as u8));
    let name = text_of(&chars, 0, 4);
    assert(chars@.subrange(0, 4) =~= chars@);
    name
}

/// Bytes from one pixel to the next of a row.
pub open spec fn bytes_per_pixel(format: RawFrameFormat) -> int {
    match format {
        RawFrameFormat::Rgb | RawFrameFormat::Bgr => 3,
        RawFrameFormat::Yuy2 => 2,
        RawFrameFormat::I420 => 1,
        _ => 4,
    }
}

fn pixel_bytes(format: RawFrameFormat) -> (bytes: u32)
    ensures
        bytes == bytes_per_pixel(format),
{
    match format {
        RawFrameFormat::Rgb | RawFrameFormat::Bgr => 3,
        RawFrameFormat::Yuy2 => 2,
        RawFrameFormat::I420 => 1,
        _ => 4,
    }
}

/// A number that may be too large.
pub open spec fn fitting_u32(value: int) -> Option<u32> {
    if value > u32::MAX {
        None
    } else {
        Some(value as u32)
    }
}

/// Bytes of a row without padding.
pub fn expected_frame_stride(number: u32, width: u32) -> (stride: Option<u32>)
    ensures
        stride == match frame_format_of(number) {
            None => None,
            Some(format) => fitting_u32(width * bytes_per_pixel(format)),
        },
{
    match raw_frame_format_for_video_format(number) {
        None => None,
        Some(format) => {
            let bytes: u32 = pixel_bytes(format);
            assert(0 <= width * bytes <= 0xffff_ffff * 4) by (nonlinear_arith)
                requires
                    0 <= width <= 0xffff_ffff,
                    0 < bytes <= 4,
            ;
            width.checked_mul(bytes)
        },
    }
}

/// Bytes of a frame without padding.
pub fn expected_frame_size(number: u32, width: u32, height: u32) -> (size: Option<u32>)
    ensures
        size == match frame_format_of(number) {
            None => None,
            Some(RawFrameFormat::I420) => if width * height * 3 > u32::MAX {
                None
            } else {
                Some((width * height * 3 / 2) as u32)
            },
            Some(format) => if width * bytes_per_pixel(format) > u32::MAX {
                None
            } else {
                fitting_u32(width * bytes_per_pixel(format) * height)
            },
        },
{
    match raw_frame_format_for_video_format(number) {
        None => None,
        Some(RawFrameFormat::I420) => {
            assert(width * height > u32::MAX ==> width * height * 3 > u32::MAX);
            match width.checked_mul(height) {
                None => None,
                Some(area) => match area.checked_mul(3) {
                    None => None,
                    Some(bytes) => Some(bytes / 2),
                },
            }
        },
        Some(format) => match expected_frame_stride(number, width) {
            None => None,
            Some(stride) => stride.checked_mul(height),
        },
    }
}

/// Half of a number, rounded up.
pub open spec fn half_up(value: int) -> int {
    value / 2 + value % 2
}

/// The larger of two numbers.
pub open spec fn larger(a: int, b: int) -> int {
    if a >= b {
        a
    } else {
        b
    }
}

/// Bytes of a frame with a given row length.
pub open spec fn frame_bytes(format: RawFrameFormat, stride: int, width: int, height: int) -> int {
    if format == RawFrameFormat::I420 {
        stride * height + larger(half_up(stride), half_up(width)) * half_up(height) * 2
    } else {
        stride * height
    }
}

/// Bytes of a frame with a given row length, where they can be counted.
pub fn expected_frame_size_from_stride(
    format: RawFrameFormat,
    stride: usize,
    width: u32,
    height: u32,
) -> (size: Option<usize>)
    ensures
        ({
            let bytes = frame_bytes(format, stride as int, width as int, height as int);
            size == if bytes > usize::MAX {
                None::<usize>
            } else {
                Some(bytes as usize)
            }
        }),
{
    if format != RawFrameFormat::I420 {
        return stride.checked_mul(height as usize);
    }
    let half_stride: usize = stride / 2 + stride % 2;
    let half_width: usize = width as usize / 2 + width as usize % 2;
    let half_height: usize = height as usize / 2 + height as usize % 2;
    let chroma: usize = if half_stride >= half_width {
        half_stride
    } else {
        half_width
    };
    proof {
        let luma = stride * height;
        let plane = chroma * half_height;
        assert(luma >= 0) by (nonlinear_arith)
            requires
                luma == stride * height,
                stride >= 0,
                height >= 0,
        ;
        assert(plane >= 0) by (nonlinear_arith)
            requires
                plane == chroma * half_height,
                chroma >= 0,
                half_height >= 0,
        ;
    }
    match stride.checked_mul(height as usize) {
        None => None,
        Some(luma) => match chroma.checked_mul(half_height) {
            None => None,
            Some(plane) => match plane.checked_mul(2) {
                None => None,
                Some(planes) => luma.checked_add(planes),
            },
        },
    }
}

/// A captured frame in memory.
#[derive(Debug)]
pub struct RawFrame {
    /// Number of the frame.
    pub serial: u64,
    /// Whether its pixels are damaged, as far as is known.
    pub damage: Option<bool>,
    /// Width in pixels.
    pub width: u32,
    /// Height in pixels.
    pub height: u32,
    /// Bytes from one row to the next.
    pub stride: usize,
    /// Layout of the pixels.
    pub format: RawFrameFormat,
    /// The pixels.
    pub data: Vec<u8>,
}

/// A value within a byte.
pub open spec fn byte_of(value: int) -> u8 {
    if value < 0 {
        0
    } else if value > 255 {
        255
    } else {
        value as u8
    }
}

/// A value within a byte.
pub fn clamp_u8(value: i32) -> (byte: u8)
    ensures
        byte == byte_of(value as int),
{
    if value < 0 {
        0
    } else if value > 255 {
        255
    } else {
        value as u8
    }
}

/// Red, green and blue of a luma and two chroma samples.
pub open spec fn rgb_of_yuv(y: u8, u: u8, v: u8) -> Seq<u8> {
    let c = if y < 16 {
        0
    } else {
        y - 16
    };
    let d = u - 128;
    let e = v - 128;
    seq![
        byte_of((298 * c + 409 * e + 128) / 256),
        byte_of((298 * c - 100 * d - 208 * e + 128) / 256),
        byte_of((298 * c + 516 * d + 128) / 256),
    ]
}

/// A scaled value within a byte.
fn scaled_byte(value: i32) -> (byte: u8)
    ensures
        byte == byte_of(value as int / 256),
{
    if value < 0 {
        0
    } else {
        clamp_u8(value / 256)
    }
}

/// Converts a luma and two chroma samples.
pub fn yuv_to_rgb(y: u8, u: u8, v: u8) -> (rgb: [u8; 3])
    ensures
        rgb@ == rgb_of_yuv(y, u, v),
{
    let c: i32 = if y < 16 {
        0
    } else {
        y as i32 - 16
    };
    let d: i32 = u as i32 - 128;
    let e: i32 = v as i32 - 128;
    let rgb: [u8; 3] = [
        scaled_byte(298 * c + 409 * e + 128),
        scaled_byte(298 * c - 100 * d - 208 * e + 128),
        scaled_byte(298 * c + 516 * d + 128),
    ];
    assert(rgb@ =~= rgb_of_yuv(y, u, v));
    rgb
}

/// The largest of three positions.
pub open spec fn largest(channels: [usize; 3]) -> int {
    larger(larger(channels@[0] as int, channels@[1] as int), channels@[2] as int)
}

/// A pixel of packed channels, if it is there.
pub open spec fn packed_pixel(
    data: Seq<u8>,
    y: int,
    stride: int,
    x: int,
    bytes: int,
    channels: [usize; 3],
) -> Option<Seq<u8>> {
    let base = y * stride + x * bytes;
    if base + largest(channels) >= data.len() {
        None
    } else {
        Some(
            seq![
                data[base + channels@[0]],
                data[base + channels@[1]],
                data[base + channels@[2]],
            ],
        )
    }
}

/// A pixel that may be absent, as a mathematical value.
pub open spec fn rgb_view(rgb: Option<[u8; 3]>) -> Option<Seq<u8>> {
    match rgb {
        Some(rgb) => Some(rgb@),
        None => None,
    }
}

/// The sum of two products, where it can be counted.
fn sum_of_products(a: usize, b: usize, c: usize, d: usize) -> (sum: Option<usize>)
    ensures
        sum == if a * b + c * d > usize::MAX {
            None::<usize>
        } else {
            Some((a * b + c * d) as usize)
        },
{
    assert(a * b >= 0) by (nonlinear_arith)
        requires
            a >= 0,
            b >= 0,
    ;
    assert(c * d >= 0) by (nonlinear_arith)
        requires
            c >= 0,
            d >= 0,
    ;
    match (a.checked_mul(b), c.checked_mul(d)) {
        (Some(first), Some(second)) => first.checked_add(second),
        _ => None,
    }
}

/// A pixel of packed channels, if it is there.
pub fn packed_rgb(
    data: &[u8],
    y: usize,
    stride: usize,
    x: usize,
    bytes_per_pixel: usize,
    channels: [usize; 3],
) -> (rgb: Option<[u8; 3]>)
    ensures
        rgb_view(rgb) == packed_pixel(
            data@,
            y as int,
            stride as int,
            x as int,
            bytes_per_pixel as int,
            channels,
        ),
{
    let length: usize = data.len();
    let mut last: usize = channels[0];
    if channels[1] > last {
        last = channels[1];
    }
    if channels[2] > last {
        last = channels[2];
    }
    match sum_of_products(y, stride, x, bytes_per_pixel) {
        None => None,
        Some(base) => match base.checked_add(last) {
            None => None,
            Some(end) => {
                if end >= length {
                    return None;
                }
                let rgb: [u8; 3] = [
                    data[base + channels[0]],
                    data[base + channels[1]],
                    data[base + channels[2]],
                ];
                assert(rgb@ =~= packed_pixel(
                    data@,
                    y as int,
                    stride as int,
                    x as int,
                    bytes_per_pixel as int,
                    channels,
                )->0);
                Some(rgb)
            },
        },
    }
}

/// A pixel of a frame whose pixels share chroma in pairs, if it is there.
pub open spec fn yuy2_pixel(data: Seq<u8>, stride: int, x: int, y: int) -> Option<Seq<u8>> {
    let base = y * stride + x / 2 * 4;
    if base + 3 >= data.len() {
        None
    } else {
        Some(rgb_of_yuv(data[base + if x % 2 == 0 {
            0int
        } else {
            2int
        }], data[base + 1], data[base + 3]))
    }
}

/// A pixel of a frame whose pixels share chroma in pairs, if it is there.
pub fn yuy2_rgb(frame: &RawFrame, x: usize, y: usize) -> (rgb: Option<[u8; 3]>)
    ensures
        rgb_view(rgb) == yuy2_pixel(frame.data@, frame.stride as int, x as int, y as int),
{
    let length: usize = frame.data.len();
    match sum_of_products(y, frame.stride, x / 2, 4) {
        None => None,
        Some(base) => {
            if length < 4 || base > length - 4 {
                return None;
            }
            let luma: u8 = if x % 2 == 0 {
                frame.data[base]
            } else {
                frame.data[base + 2]
            };
            Some(yuv_to_rgb(luma, frame.data[base + 1], frame.data[base + 3]))
        },
    }
}

/// A pixel of a planar frame, if all its samples are there.
pub open spec fn i420_pixel(
    data: Seq<u8>,
    stride: int,
    width: int,
    height: int,
    x: int,
    y: int,
) -> Option<Seq<u8>> {
    let row = larger(stride, width);
    let chroma_row = half_up(row);
    let u_plane = row * height;
    let v_plane = u_plane + chroma_row * half_up(height);
    let luma = y * row + x;
    let chroma = y / 2 * chroma_row + x / 2;
    if luma >= data.len() || u_plane + chroma >= data.len() || v_plane + chroma >= data.len() {
        None
    } else {
        Some(rgb_of_yuv(data[luma], data[u_plane + chroma], data[v_plane + chroma]))
    }
}

/// A pixel of a planar frame, if all its samples are there.
pub fn i420_rgb(frame: &RawFrame, x: usize, y: usize) -> (rgb: Option<[u8; 3]>)
    ensures
        rgb_view(rgb) == i420_pixel(
            frame.data@,
            frame.stride as int,
            frame.width as int,
            frame.height as int,
            x as int,
            y as int,
        ),
{
    let length: usize = frame.data.len();
    let width: usize = frame.width as usize;
    let height: usize = frame.height as usize;
    let row: usize = if frame.stride >= width {
        frame.stride
    } else {
        width
    };
    let chroma_row: usize = row / 2 + row % 2;
    let chroma_height: usize = height / 2 + height % 2;
    proof {
        assert(row * height >= 0) by (nonlinear_arith)
            requires
                row >= 0,
                height >= 0,
        ;
        assert(chroma_row * chroma_height >= 0) by (nonlinear_arith)
            requires
                chroma_row >= 0,
                chroma_height >= 0,
        ;
        let half = y as int / 2;
        assert(half * chroma_row >= 0) by (nonlinear_arith)
            requires
                half >= 0,
                chroma_row >= 0,
        ;
    }
    let luma = sum_of_products(y, row, x, 1);
    let u_plane = row.checked_mul(height);
    let v_plane = sum_of_products(row, height, chroma_row, chroma_height);
    let chroma = sum_of_products(y / 2, chroma_row, x / 2, 1);
    match (luma, u_plane, v_plane, chroma) {
        (Some(luma), Some(u_plane), Some(v_plane), Some(chroma)) => {
            match (u_plane.checked_add(chroma), v_plane.checked_add(chroma)) {
                (Some(u_at), Some(v_at)) => {
                    if luma >= length || u_at >= length || v_at >= length {
                        None
                    } else {
                        Some(yuv_to_rgb(frame.data[luma], frame.data[u_at], frame.data[v_at]))
                    }
                },
                _ => None,
            }
        },
        _ => None,
    }
}

/// The channels of a packed layout.
pub open spec fn channels_of(format: RawFrameFormat) -> [usize; 3] {
    match format {
        RawFrameFormat::Rgb | RawFrameFormat::Rgba | RawFrameFormat::Rgbx => [0, 1, 2],
        RawFrameFormat::Bgr | RawFrameFormat::Bgra | RawFrameFormat::Bgrx => [2, 1, 0],
        RawFrameFormat::Xrgb | RawFrameFormat::Argb => [1, 2, 3],
        _ => [3, 2, 1],
    }
}

/// A pixel of a frame, if it is there.
pub open spec fn frame_pixel(frame: RawFrame, x: int, y: int) -> Option<Seq<u8>> {
    if frame.format == RawFrameFormat::Yuy2 {
        yuy2_pixel(frame.data@, frame.stride as int, x, y)
    } else if frame.format == RawFrameFormat::I420 {
        i420_pixel(
            frame.data@,
            frame.stride as int,
            frame.width as int,
            frame.height as int,
            x,
            y,
        )
    } else {
        packed_pixel(
            frame.data@,
            y,
            frame.stride as int,
            x,
            bytes_per_pixel(frame.format),
            channels_of(frame.format),
        )
    }
}

/// A pixel of a frame, if it is there.
pub fn raw_pixel_rgb(frame: &RawFrame, x: usize, y: usize) -> (rgb: Option<[u8; 3]>)
    ensures
        rgb_view(rgb) == frame_pixel(*frame, x as int, y as int),
{
    let data = frame.data.as_slice();
    match frame.format {
        RawFrameFormat::Rgb => packed_rgb(data, y, frame.stride, x, 3, [0, 1, 2]),
        RawFrameFormat::Bgr => packed_rgb(data, y, frame.stride, x, 3, [2, 1, 0]),
        RawFrameFormat::Rgba | RawFrameFormat::Rgbx => {
            packed_rgb(data, y, frame.stride, x, 4, [0, 1, 2])
        },
        RawFrameFormat::Bgra | RawFrameFormat::Bgrx => {
            packed_rgb(data, y, frame.stride, x, 4, [2, 1, 0])
        },
        RawFrameFormat::Xrgb | RawFrameFormat::Argb => {
            packed_rgb(data, y, frame.stride, x, 4, [1, 2, 3])
        },
        RawFrameFormat::Xbgr | RawFrameFormat::Abgr => {
            packed_rgb(data, y, frame.stride, x, 4, [3, 2, 1])
        },
        RawFrameFormat::Yuy2 => yuy2_rgb(frame, x, y),
        RawFrameFormat::I420 => i420_rgb(frame, x, y),
    }
}

/// An image of red, green and blue, row by row.
#[derive(Debug)]
pub struct RgbImage {
    /// Width in pixels.
    pub width: u32,
    /// Height in pixels.
    pub height: u32,
    /// Three bytes for each pixel.
    pub pixels: Vec<u8>,
}

impl RgbImage {
    /// Whether every pixel has its bytes.
    pub open spec fn wf(&self) -> bool {
        self.pixels@.len() == self.width * self.height * 3
    }
}

/// A pixel, or black where there is none.
pub open spec fn pixel_or_black(pixel: Option<Seq<u8>>) -> Seq<u8> {
    match pixel {
        Some(pixel) => pixel,
        None => seq![0u8, 0, 0],
    }
}

/// The first pixels of a row of a frame.
pub open spec fn image_row(frame: RawFrame, y: int, columns: int) -> Seq<u8>
    decreases columns,
{
    if columns <= 0 {
        Seq::empty()
    } else {
        image_row(frame, y, columns - 1) + pixel_or_black(frame_pixel(frame, columns - 1, y))
    }
}

/// The first rows of a frame.
pub open spec fn image_rows(frame: RawFrame, rows: int) -> Seq<u8>
    decreases rows,
{
    if rows <= 0 {
        Seq::empty()
    } else {
        image_rows(frame, rows - 1) + image_row(frame, rows - 1, frame.width as int)
    }
}

proof fn lemma_frame_pixel_len(frame: RawFrame, x: int, y: int)
    ensures
        pixel_or_black(frame_pixel(frame, x, y)).len() == 3,
{
}

proof fn lemma_image_row_len(frame: RawFrame, y: int, columns: int)
    requires
        columns >= 0,
    ensures
        image_row(frame, y, columns).len() == 3 * columns,
    decreases columns,
{
    if columns > 0 {
        lemma_image_row_len(frame, y, columns - 1);
        lemma_frame_pixel_len(frame, columns - 1, y);
    }
}

/// The image of a frame has three bytes for each of its pixels.
pub proof fn frame_images_are_whole(frame: RawFrame, rows: int)
    requires
        rows >= 0,
    ensures
        image_rows(frame, rows).len() == frame.width * rows * 3,
    decreases rows,
{
    if rows > 0 {
        frame_images_are_whole(frame, rows - 1);
        lemma_image_row_len(frame, rows - 1, frame.width as int);
        assert(frame.width * (rows - 1) * 3 + 3 * frame.width == frame.width * rows * 3)
            by (nonlinear_arith);
    } else {
        assert(frame.width * 0 * 3 == 0) by (nonlinear_arith);
    }
}

/// Converts a frame. Pixels whose samples are not all there stay black.
pub fn raw_frame_to_rgb_image(frame: &RawFrame) -> (image: RgbImage)
    requires
        frame.width * frame.height * 3 <= usize::MAX,
    ensures
        image.wf(),
        image.width == frame.width,
        image.height == frame.height,
        image.pixels@ == image_rows(*frame, frame.height as int),
{
    let mut pixels: Vec<u8> = Vec::new();
    let mut y: u32 = 0;
    while y < frame.height
        invariant
            y <= frame.height,
            pixels@ == image_rows(*frame, y as int),
        decreases frame.height - y,
    {
        let ghost before = pixels@;
        let mut x: u32 = 0;
        assert(before + image_row(*frame, y as int, 0) =~= before);
        while x < frame.width
            invariant
                x <= frame.width,
                pixels@ == before + image_row(*frame, y as int, x as int),
            decreases frame.width - x,
        {
            let ghost done = pixels@;
            let rgb: [u8; 3] = match raw_pixel_rgb(frame, x as usize, y as usize) {
                Some(rgb) => rgb,
                None => [0, 0, 0],
            };
            assert(rgb@ =~= pixel_or_black(frame_pixel(*frame, x as int, y as int)));
            pixels.push(rgb[0]);
            pixels.push(rgb[1]);
            pixels.push(rgb[2]);
            assert(pixels@ =~= done + rgb@);
            assert(pixels@ =~= before + image_row(*frame, y as int, x + 1));
            x += 1;
        }
        y += 1;
    }
    proof {
        frame_images_are_whole(*frame, frame.height as int);
    }
    RgbImage { width: frame.width, height: frame.height, pixels }
}

/// Pixels that a side may have where an image is resized. The resampling places pixels by
/// single-precision numbers. Up to this size they are off by less than half a pixel, so
/// every new pixel lies over an old one; far beyond it a new pixel at the edge can miss all
/// old ones, and the resampling then panics on a sum of no weights.
pub const MAX_RESIZED_SIDE: u32 = 1_048_576;

/// An image of red, green and blue resized with a triangle filter.
pub uninterp spec fn triangle_resized(
    pixels: Seq<u8>,
    width: u32,
    height: u32,
    new_width: u32,
    new_height: u32,
) -> Seq<u8>;

/// Calls `imageops::resize` of the `image` crate with `FilterType::Triangle`. The new image
/// depends on the old one and the sizes alone and has three bytes for each pixel. The call
/// does not panic where no side is longer than the resampling can place pixels on and both
/// the image between its two passes, four floats for each pixel, and the new one fit in
/// memory.
#[verifier::external_body]
fn resize_triangle(
    pixels: Vec<u8>,
    width: u32,
    height: u32,
    new_width: u32,
    new_height: u32,
) -> (resized: Vec<u8>)
    requires
        pixels@.len() == width * height * 3,
        width <= MAX_RESIZED_SIDE,
        height <= MAX_RESIZED_SIDE,
        new_width <= MAX_RESIZED_SIDE,
        new_height <= MAX_RESIZED_SIDE,
        width * new_height * 16 <= isize::MAX,
        new_width * new_height * 3 <= isize::MAX,
    ensures
        resized@ == triangle_resized(pixels@, width, height, new_width, new_height),
        resized@.len() == new_width * new_height * 3,
{
    ImageBuffer::<Rgb<u8>, Vec<u8>>::from_raw(width, height, pixels)
        .map(|image| {
            imageops::resize(&image, new_width, new_height, imageops::FilterType::Triangle)
                .into_raw()
        })
        .unwrap_or_default()
}

/// Whether an image is within bounds, each of one pixel at least.
pub open spec fn fits(width: u32, height: u32, max_width: u32, max_height: u32) -> bool {
    width <= larger(max_width as int, 1) && height <= larger(max_height as int, 1)
}

/// Shrinks an image that is not within bounds to a size that is. One within bounds stays as
/// it is.
pub fn resize_rgb_image_to_fit(
    image: RgbImage,
    max_width: u32,
    max_height: u32,
    target: (u32, u32),
) -> (resized: RgbImage)
    requires
        image.wf(),
        !fits(image.width, image.height, max_width, max_height) ==> {
            &&& image.width <= MAX_RESIZED_SIDE
            &&& image.height <= MAX_RESIZED_SIDE
            &&& target.0 <= MAX_RESIZED_SIDE
            &&& target.1 <= MAX_RESIZED_SIDE
            &&& image.width * target.1 * 16 <= isize::MAX
            &&& target.0 * target.1 * 3 <= isize::MAX
        },
    ensures
        resized.wf(),
        fits(image.width, image.height, max_width, max_height) ==> resized == image,
        !fits(image.width, image.height, max_width, max_height) ==> {
            &&& resized.width == target.0
            &&& resized.height == target.1
            &&& resized.pixels@ == triangle_resized(
                image.pixels@,
                image.width,
                image.height,
                target.0,
                target.1,
            )
        },
{
    let bound_width: u32 = if max_width > 1 {
        max_width
    } else {
        1
    };
    let bound_height: u32 = if max_height > 1 {
        max_height
    } else {
        1
    };
    if image.width <= bound_width && image.height <= bound_height {
        return image;
    }
    RgbImage {
        width: target.0,
        height: target.1,
        pixels: resize_triangle(image.pixels, image.width, image.height, target.0, target.1),
    }
}

/// Shades of grey stay grey: without chroma all three channels are the same.
pub proof fn neutral_chroma_is_grey(y: u8)
    ensures
        rgb_of_yuv(y, 128, 128)[0] == rgb_of_yuv(y, 128, 128)[1],
        rgb_of_yuv(y, 128, 128)[1] == rgb_of_yuv(y, 128, 128)[2],
        y <= 16 ==> rgb_of_yuv(y, 128, 128)[0] == 0,
        y >= 235 ==> rgb_of_yuv(y, 128, 128)[0] == 255,
{
}

} // verus!

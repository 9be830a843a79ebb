//! Cursor and damage metadata that a capture server attaches to its buffers.
//!
//! The server writes the metadata; nothing in it is trusted. Fields are 32-bit
//! little-endian words.

use vstd::prelude::*;

use crate::order::{first_where, lemma_first_where};
use crate::text::{append, decimal_text, format_u64};

verus! {

/// Metadata with a region of damaged pixels.
pub const META_VIDEO_DAMAGE: u32 = 3;

/// Metadata with the cursor.
pub const META_CURSOR: u32 = 5;

/// Bytes of the fixed part of cursor metadata.
pub const CURSOR_META_SIZE: usize = 28;

/// Bytes of the header of a cursor bitmap.
pub const BITMAP_META_SIZE: usize = 20;

/// Bytes of one damage region.
pub const REGION_META_SIZE: usize = 16;

/// Pixels that a side of a cursor bitmap may have.
pub const CURSOR_MAX_BITMAP_SIDE: u32 = 512;

/// The contents of one piece of metadata.
#[derive(Debug)]
pub enum MetaData {
    /// There are none; the server still names a size.
    Missing(u32),
    /// The bytes.
    Bytes(Vec<u8>),
}

/// One piece of metadata of a buffer.
#[derive(Debug)]
pub struct BufferMeta {
    /// What it is.
    pub kind: u32,
    /// Its contents.
    pub data: MetaData,
}

/// An image of the cursor.
#[derive(Debug)]
pub struct CursorBitmap {
    /// Width in pixels.
    pub width: u32,
    /// Height in pixels.
    pub height: u32,
    /// The pixel that points, from the left.
    pub hotspot_x: i32,
    /// The pixel that points, from the top.
    pub hotspot_y: i32,
    /// Red, green, blue and alpha of each pixel, row by row.
    pub rgba: Vec<u8>,
}

/// An image of the cursor as a mathematical value.
#[verifier::ext_equal]
pub struct CursorBitmapModel {
    /// Width in pixels.
    pub width: u32,
    /// Height in pixels.
    pub height: u32,
    /// The pixel that points, from the left.
    pub hotspot_x: i32,
    /// The pixel that points, from the top.
    pub hotspot_y: i32,
    /// Red, green, blue and alpha of each pixel, row by row.
    pub rgba: Seq<u8>,
}

impl View for CursorBitmap {
    type V = CursorBitmapModel;

    open spec fn view(&self) -> CursorBitmapModel {
        CursorBitmapModel {
            width: self.width,
            height: self.height,
            hotspot_x: self.hotspot_x,
            hotspot_y: self.hotspot_y,
            rgba: self.rgba@,
        }
    }
}

impl CursorBitmap {
    /// An equal image.
    pub fn duplicate(&self) -> (copy: CursorBitmap)
        ensures
            copy@ == self@,
    {
        CursorBitmap {
            width: self.width,
            height: self.height,
            hotspot_x: self.hotspot_x,
            hotspot_y: self.hotspot_y,
            rgba: self.rgba.clone(),
        }
    }
}

/// An image that may be absent, as a mathematical value.
pub open spec fn bitmap_view(bitmap: Option<CursorBitmap>) -> Option<CursorBitmapModel> {
    match bitmap {
        Some(bitmap) => Some(bitmap@),
        None => None,
    }
}

/// The word at a position.
pub open spec fn word(bytes: Seq<u8>, at: int) -> nat {
    (bytes[at] + 256 * bytes[at + 1] + 65_536 * bytes[at + 2] + 16_777_216 * bytes[at + 3]) as nat
}

/// The signed word at a position.
pub open spec fn signed_word(bytes: Seq<u8>, at: int) -> int {
    if word(bytes, at) >= 0x8000_0000 {
        word(bytes, at) - 0x1_0000_0000
    } else {
        word(bytes, at) as int
    }
}

fn read_word(bytes: &Vec<u8>, at: usize) -> (value: u32)
    requires
        at + 4 <= bytes@.len(),
    ensures
        value == word(bytes@, at as int),
{
    let size: usize = bytes.len();
    assert(at + 4 <= size);
    bytes[at] as u32 + 256 * bytes[at + 1] as u32 + 65_536 * bytes[at + 2] as u32 + 16_777_216
        * bytes[at + 3] as u32
}

fn read_signed_word(bytes: &Vec<u8>, at: usize) -> (value: i32)
    requires
        at + 4 <= bytes@.len(),
    ensures
        value == signed_word(bytes@, at as int),
{
    let value: u32 = read_word(bytes, at);
    if value >= 0x8000_0000 {
        (value as i64 - 0x1_0000_0000) as i32
    } else {
        value as i32
    }
}

/// How the four bytes of a cursor pixel are to be read.
#[derive(Clone, Copy, Debug, PartialEq, Eq, Structural)]
pub enum CursorPixelFormat {
    /// Red, green, blue, alpha.
    Rgba,
    /// Blue, green, red, alpha.
    Bgra,
    /// Alpha, red, green, blue.
    Argb,
    /// Alpha, blue, green, red.
    Abgr,
    /// Red, green, blue, unused.
    Rgbx,
    /// Blue, green, red, unused.
    Bgrx,
    /// Unused, red, green, blue.
    Xrgb,
    /// Unused, blue, green, red.
    Xbgr,
}

/// The cursor pixel format that a number of the capture server stands for.
pub open spec fn cursor_format_of(number: nat) -> Option<CursorPixelFormat> {
    if number == 7 {
        Some(CursorPixelFormat::Rgbx)
    } else if number == 8 {
        Some(CursorPixelFormat::Bgrx)
    } else if number == 9 {
        Some(CursorPixelFormat::Xrgb)
    } else if number == 10 {
        Some(CursorPixelFormat::Xbgr)
    } else if number == 11 {
        Some(CursorPixelFormat::Rgba)
    } else if number == 12 {
        Some(CursorPixelFormat::Bgra)
    } else if number == 13 {
        Some(CursorPixelFormat::Argb)
    } else if number == 14 {
        Some(CursorPixelFormat::Abgr)
    } else {
        None
    }
}

/// The cursor pixel format that a number of the capture server stands for.
pub fn cursor_format(number: u32) -> (format: Option<CursorPixelFormat>)
    ensures
        format == cursor_format_of(number as nat),
{
    match number {
        7 => Some(CursorPixelFormat::Rgbx),
        8 => Some(CursorPixelFormat::Bgrx),
        9 => Some(CursorPixelFormat::Xrgb),
        10 => Some(CursorPixelFormat::Xbgr),
        11 => Some(CursorPixelFormat::Rgba),
        12 => Some(CursorPixelFormat::Bgra),
        13 => Some(CursorPixelFormat::Argb),
        14 => Some(CursorPixelFormat::Abgr),
        _ => None,
    }
}

/// A pixel's red, green, blue and alpha.
pub open spec fn as_rgba(format: CursorPixelFormat, pixel: Seq<u8>) -> Seq<u8> {
    match format {
        CursorPixelFormat::Rgba => seq![pixel[0], pixel[1], pixel[2], pixel[3]],
        CursorPixelFormat::Bgra => seq![pixel[2], pixel[1], pixel[0], pixel[3]],
        CursorPixelFormat::Argb => seq![pixel[1], pixel[2], pixel[3], pixel[0]],
        CursorPixelFormat::Abgr => seq![pixel[3], pixel[2], pixel[1], pixel[0]],
        CursorPixelFormat::Rgbx => seq![pixel[0], pixel[1], pixel[2], 255],
        CursorPixelFormat::Bgrx => seq![pixel[2], pixel[1], pixel[0], 255],
        CursorPixelFormat::Xrgb => seq![pixel[1], pixel[2], pixel[3], 255],
        CursorPixelFormat::Xbgr => seq![pixel[3], pixel[2], pixel[1], 255],
    }
}

/// Converts a pixel. There is none where the format is unknown or the pixel has not four
/// bytes.
pub fn cursor_pixel_as_rgba(number: u32, pixel: &[u8]) -> (rgba: Option<[u8; 4]>)
    ensures
        match rgba {
            Some(rgba) => {
                &&& pixel@.len() == 4
                &&& cursor_format_of(number as nat) matches Some(format) && rgba@ == as_rgba(
                    format,
                    pixel@,
                )
            },
            None => pixel@.len() != 4 || cursor_format_of(number as nat) is None,
        },
{
    if pixel.len() != 4 {
        return None;
    }
    let (first, second, third, fourth) = (pixel[0], pixel[1], pixel[2], pixel[3]);
    match cursor_format(number) {
        None => None,
        Some(format) => {
            let rgba: [u8; 4] = match format {
                CursorPixelFormat::Rgba => [first, second, third, fourth],
                CursorPixelFormat::Bgra => [third, second, first, fourth],
                CursorPixelFormat::Argb => [second, third, fourth, first],
                CursorPixelFormat::Abgr => [fourth, third, second, first],
                CursorPixelFormat::Rgbx => [first, second, third, 255],
                CursorPixelFormat::Bgrx => [third, second, first, 255],
                CursorPixelFormat::Xrgb => [second, third, fourth, 255],
                CursorPixelFormat::Xbgr => [fourth, third, second, 255],
            };
            assert(rgba@ =~= as_rgba(format, pixel@));
            Some(rgba)
        },
    }
}

/// Where the pixels of a bitmap stand in the metadata.
pub struct BitmapLayout {
    /// Number of the pixel format.
    pub format: nat,
    /// Width in pixels.
    pub width: nat,
    /// Height in pixels.
    pub height: nat,
    /// Bytes from one row to the next.
    pub stride: nat,
    /// Where the first row starts.
    pub start: nat,
}

/// The layout of the bitmap in cursor metadata, if there is a sound one: header and pixel
/// rows lie within the metadata and behind what precedes them, the header is aligned, the
/// sides are within bounds and rows do not overlap.
pub open spec fn bitmap_layout(meta: Seq<u8>) -> Option<BitmapLayout> {
    let header = word(meta, 24) as int;
    let layout = BitmapLayout {
        format: word(meta, header),
        width: word(meta, header + 4),
        height: word(meta, header + 8),
        stride: word(meta, header + 12),
        start: (header + word(meta, header + 16)) as nat,
    };
    if header < CURSOR_META_SIZE || header + BITMAP_META_SIZE > meta.len() || header % 4 != 0 {
        None
    } else if cursor_format_of(layout.format) is None || layout.width == 0 || layout.height == 0
        || layout.width > CURSOR_MAX_BITMAP_SIDE || layout.height > CURSOR_MAX_BITMAP_SIDE
        || signed_word(meta, header + 12) <= 0 || word(meta, header + 16) < BITMAP_META_SIZE {
        None
    } else if layout.stride < layout.width * 4 || layout.start + layout.stride * (layout.height - 1)
        + layout.width * 4 > meta.len() {
        None
    } else {
        Some(layout)
    }
}

/// Where a pixel stands in the metadata.
pub open spec fn pixel_start(layout: BitmapLayout, row: int, column: int) -> int {
    layout.start + row * layout.stride + 4 * column
}

/// The pixels of a row, up to a column.
pub open spec fn row_pixels(meta: Seq<u8>, layout: BitmapLayout, row: int, columns: int) -> Seq<u8>
    decreases columns,
{
    if columns <= 0 {
        Seq::empty()
    } else {
        let at = pixel_start(layout, row, columns - 1);
        row_pixels(meta, layout, row, columns - 1) + as_rgba(
            cursor_format_of(layout.format)->0,
            meta.subrange(at, at + 4),
        )
    }
}

/// The pixels of a bitmap, up to a row.
pub open spec fn bitmap_pixels(meta: Seq<u8>, layout: BitmapLayout, rows: int) -> Seq<u8>
    decreases rows,
{
    if rows <= 0 {
        Seq::empty()
    } else {
        bitmap_pixels(meta, layout, rows - 1) + row_pixels(
            meta,
            layout,
            rows - 1,
            layout.width as int,
        )
    }
}

/// A coordinate within a side.
pub open spec fn within_side(value: int, side: nat) -> i32 {
    if value < 0 {
        0
    } else if value > side - 1 {
        (side - 1) as i32
    } else {
        value as i32
    }
}

/// The bitmap in cursor metadata.
pub open spec fn bitmap_in(meta: Seq<u8>) -> Option<CursorBitmapModel> {
    match bitmap_layout(meta) {
        None => None,
        Some(layout) => Some(
            CursorBitmapModel {
                width: layout.width as u32,
                height: layout.height as u32,
                hotspot_x: within_side(signed_word(meta, 16), layout.width),
                hotspot_y: within_side(signed_word(meta, 20), layout.height),
                rgba: bitmap_pixels(meta, layout, layout.height as int),
            },
        ),
    }
}

fn clamp_to_side(value: i32, side: usize) -> (clamped: i32)
    requires
        0 < side <= CURSOR_MAX_BITMAP_SIDE,
    ensures
        clamped == within_side(value as int, side as nat),
{
    let last: i32 = (side - 1) as i32;
    if value < 0 {
        0
    } else if value > last {
        last
    } else {
        value
    }
}

/// Decodes the bitmap in cursor metadata.
pub fn pipewire_cursor_bitmap(meta: &Vec<u8>) -> (bitmap: Option<CursorBitmap>)
    requires
        meta@.len() >= CURSOR_META_SIZE,
    ensures
        bitmap_view(bitmap) == bitmap_in(meta@),
{
    let size: usize = meta.len();
    let header: u32 = read_word(meta, 24);
    if (header as u64) < CURSOR_META_SIZE as u64 || header as u64 + BITMAP_META_SIZE as u64
        > size as u64 || header % 4 != 0 {
        return None;
    }
    let at: usize = header as usize;
    let number: u32 = read_word(meta, at);
    let width: u32 = read_word(meta, at + 4);
    let height: u32 = read_word(meta, at + 8);
    let signed_stride: i32 = read_signed_word(meta, at + 12);
    let offset: u32 = read_word(meta, at + 16);
    if cursor_format(number).is_none() || width == 0 || height == 0 || width
        > CURSOR_MAX_BITMAP_SIDE || height > CURSOR_MAX_BITMAP_SIDE || signed_stride <= 0 || (
    offset as u64) < BITMAP_META_SIZE as u64 {
        return None;
    }
    let stride: u64 = signed_stride as u64;
    let row_bytes: u64 = width as u64 * 4;
    if stride < row_bytes {
        return None;
    }
    let start: u64 = header as u64 + offset as u64;
    assert(0 <= stride * (height - 1) <= 0x7fff_ffff * 512) by (nonlinear_arith)
        requires
            0 < stride <= 0x7fff_ffff,
            0 < height <= 512,
    ;
    let end: u64 = start + stride * (height as u64 - 1) + row_bytes;
    if end > size as u64 {
        return None;
    }
    let ghost layout = bitmap_layout(meta@)->0;
    assert(bitmap_layout(meta@) is Some);
    let mut rgba: Vec<u8> = Vec::new();
    let mut row: u32 = 0;
    while row < height
        invariant
            row <= height,
            bitmap_layout(meta@) == Some(layout),
            layout.format == number,
            layout.width == width,
            layout.height == height,
            layout.stride == stride,
            layout.start == start,
            0 < height <= 512,
            0 < width <= 512,
            0 < stride <= 0x7fff_ffff,
            start <= 0x1_ffff_fffe,
            size == meta@.len(),
            rgba@ == bitmap_pixels(meta@, layout, row as int),
        decreases height - row,
    {
        append_row(meta, number, start, stride, width, row, &mut rgba, Ghost(layout));
        row += 1;
    }
    Some(
        CursorBitmap {
            width,
            height,
            hotspot_x: clamp_to_side(read_signed_word(meta, 16), width as usize),
            hotspot_y: clamp_to_side(read_signed_word(meta, 20), height as usize),
            rgba,
        },
    )
}

fn append_row(
    meta: &Vec<u8>,
    number: u32,
    start: u64,
    stride: u64,
    width: u32,
    row: u32,
    rgba: &mut Vec<u8>,
    Ghost(layout): Ghost<BitmapLayout>,
)
    requires
        bitmap_layout(meta@) == Some(layout),
        layout.format == number,
        layout.width == width,
        layout.stride == stride,
        layout.start == start,
        row < layout.height,
        stride <= 0x7fff_ffff,
        start <= 0x1_ffff_fffe,
    ensures
        final(rgba)@ == old(rgba)@ + row_pixels(meta@, layout, row as int, width as int),
{
    let ghost before = rgba@;
    assert(before + row_pixels(meta@, layout, row as int, 0) =~= before);
    assert(0 <= row * stride <= (layout.height - 1) * layout.stride) by (nonlinear_arith)
        requires
            0 <= row < layout.height,
            stride == layout.stride,
            stride >= 0,
    ;
    assert((layout.height - 1) * layout.stride == layout.stride * (layout.height - 1))
        by (nonlinear_arith);
    assert(row * stride == (row as int) * layout.stride);
    assert(0 <= row * stride <= 512 * 0x7fff_ffff) by (nonlinear_arith)
        requires
            0 <= row < 512,
            0 <= stride <= 0x7fff_ffff,
    ;
    let size: usize = meta.len();
    let row_start: u64 = start + row as u64 * stride;
    let mut column: u32 = 0;
    while column < width
        invariant
            column <= width,
            size == meta@.len(),
            width <= 512,
            layout.width == width,
            layout.format == number,
            cursor_format_of(layout.format) is Some,
            row_start == layout.start + row * layout.stride,
            row_start + 4 * width <= meta@.len(),
            row_start <= 0x1_ffff_fffe + 512 * 0x7fff_ffff,
            rgba@ == before + row_pixels(meta@, layout, row as int, column as int),
        decreases width - column,
    {
        let at: usize = (row_start + 4 * column as u64) as usize;
        let pixel: [u8; 4] = [meta[at], meta[at + 1], meta[at + 2], meta[at + 3]];
        assert(pixel@ =~= meta@.subrange(at as int, at + 4));
        match cursor_pixel_as_rgba(number, &pixel) {
            Some(converted) => {
                let ghost done = rgba@;
                rgba.push(converted[0]);
                rgba.push(converted[1]);
                rgba.push(converted[2]);
                rgba.push(converted[3]);
                assert(rgba@ =~= done + converted@);
                assert(pixel_start(layout, row as int, column as int) == at);
                assert(rgba@ =~= before + row_pixels(meta@, layout, row as int, column + 1));
            },
            None => {},
        }
        column += 1;
    }
}

/// Whether a piece of metadata holds a whole cursor.
pub open spec fn is_cursor_meta(meta: BufferMeta) -> bool {
    meta.kind == META_CURSOR && (meta.data matches MetaData::Bytes(bytes) && bytes@.len()
        >= CURSOR_META_SIZE)
}

/// Whether a buffer comes with a cursor.
pub open spec fn has_cursor(metas: Seq<BufferMeta>) -> bool {
    exists|i: int| 0 <= i < metas.len() && is_cursor_meta(#[trigger] metas[i])
}

fn find_cursor(metas: &Vec<BufferMeta>) -> (at: usize)
    ensures
        at <= metas@.len(),
        at < metas@.len() ==> is_cursor_meta(metas@[at as int]),
        forall|k: int| 0 <= k < at ==> !is_cursor_meta(#[trigger] metas@[k]),
{
    let count: usize = metas.len();
    let mut at: usize = 0;
    while at < count
        invariant
            at <= count == metas@.len(),
            forall|k: int| 0 <= k < at ==> !is_cursor_meta(#[trigger] metas@[k]),
        decreases count - at,
    {
        if metas[at].kind == META_CURSOR {
            match &metas[at].data {
                MetaData::Bytes(bytes) => {
                    if bytes.len() >= CURSOR_META_SIZE {
                        return at;
                    }
                },
                MetaData::Missing(_) => {},
            }
        }
        at += 1;
    }
    at
}

/// Whether a buffer comes with a cursor.
pub fn pipewire_buffer_has_cursor_meta(metas: &Vec<BufferMeta>) -> (found: bool)
    ensures
        found == has_cursor(metas@),
{
    find_cursor(metas) < metas.len()
}

/// A visible cursor.
#[derive(Debug)]
pub struct PipewireCursorState {
    /// The server's number of the cursor.
    pub id: u32,
    /// Position from the left.
    pub x: i32,
    /// Position from the top.
    pub y: i32,
    /// Its image; absent where it is the one before.
    pub bitmap: Option<CursorBitmap>,
}

/// A visible cursor as a mathematical value.
#[verifier::ext_equal]
pub struct CursorStateModel {
    /// The server's number of the cursor.
    pub id: u32,
    /// Position from the left.
    pub x: i32,
    /// Position from the top.
    pub y: i32,
    /// Its image.
    pub bitmap: Option<CursorBitmapModel>,
}

impl View for PipewireCursorState {
    type V = CursorStateModel;

    open spec fn view(&self) -> CursorStateModel {
        CursorStateModel {
            id: self.id,
            x: self.x,
            y: self.y,
            bitmap: bitmap_view(self.bitmap),
        }
    }
}

/// What a buffer says of the cursor.
#[derive(Debug)]
pub enum PipewireCursorUpdate {
    /// Nothing.
    Unchanged,
    /// It is hidden.
    Hidden,
    /// It is visible.
    Visible(PipewireCursorState),
}

/// What a buffer says of the cursor, as a mathematical value.
#[verifier::ext_equal]
pub enum CursorUpdateModel {
    /// Nothing.
    Unchanged,
    /// It is hidden.
    Hidden,
    /// It is visible.
    Visible(CursorStateModel),
}

impl View for PipewireCursorUpdate {
    type V = CursorUpdateModel;

    open spec fn view(&self) -> CursorUpdateModel {
        match self {
            PipewireCursorUpdate::Unchanged => CursorUpdateModel::Unchanged,
            PipewireCursorUpdate::Hidden => CursorUpdateModel::Hidden,
            PipewireCursorUpdate::Visible(state) => CursorUpdateModel::Visible(state@),
        }
    }
}

/// What cursor metadata says.
pub open spec fn cursor_said(meta: Seq<u8>) -> CursorUpdateModel {
    if word(meta, 0) == 0 {
        CursorUpdateModel::Hidden
    } else {
        CursorUpdateModel::Visible(
            CursorStateModel {
                id: word(meta, 0) as u32,
                x: signed_word(meta, 8) as i32,
                y: signed_word(meta, 12) as i32,
                bitmap: bitmap_in(meta),
            },
        )
    }
}

/// Metadata that holds a whole cursor.
pub open spec fn whole_cursors() -> spec_fn(BufferMeta) -> bool {
    |meta: BufferMeta| is_cursor_meta(meta)
}

/// What a buffer says of the cursor: the first whole cursor counts.
pub open spec fn cursor_in(metas: Seq<BufferMeta>) -> CursorUpdateModel {
    let at = first_where(metas, whole_cursors());
    if at < metas.len() {
        cursor_said(metas[at].data->Bytes_0@)
    } else {
        CursorUpdateModel::Unchanged
    }
}

/// Reads what a buffer says of the cursor: the first whole cursor counts, and the number
/// zero means that it is hidden.
pub fn pipewire_cursor_update(metas: &Vec<BufferMeta>) -> (update: PipewireCursorUpdate)
    ensures
        update@ == cursor_in(metas@),
{
    let at: usize = find_cursor(metas);
    proof {
        lemma_first_where(metas@, whole_cursors(), at as int);
    }
    if at >= metas.len() {
        return PipewireCursorUpdate::Unchanged;
    }
    let update = match &metas[at].data {
        MetaData::Missing(_) => PipewireCursorUpdate::Unchanged,
        MetaData::Bytes(bytes) => {
            let id: u32 = read_word(bytes, 0);
            if id == 0 {
                PipewireCursorUpdate::Hidden
            } else {
                PipewireCursorUpdate::Visible(
                    PipewireCursorState {
                        id,
                        x: read_signed_word(bytes, 8),
                        y: read_signed_word(bytes, 12),
                        bitmap: pipewire_cursor_bitmap(bytes),
                    },
                )
            }
        },
    };
    assert(update@ == cursor_said(metas@[at as int].data->Bytes_0@));
    update
}

/// What damage metadata says: whether the first region has an area. Metadata that does not
/// hold whole regions says nothing.
pub open spec fn damage_said(data: MetaData) -> Option<bool> {
    match data {
        MetaData::Missing(_) => None,
        MetaData::Bytes(bytes) => if bytes@.len() % 16 != 0 {
            None
        } else {
            Some(bytes@.len() > 0 && word(bytes@, 8) != 0 && word(bytes@, 12) != 0)
        },
    }
}

/// Metadata of damage.
pub open spec fn damages() -> spec_fn(BufferMeta) -> bool {
    |meta: BufferMeta| meta.kind == META_VIDEO_DAMAGE
}

/// Whether a buffer's pixels are damaged, as far as the server says: the first metadata of
/// damage counts.
pub open spec fn damage_in(metas: Seq<BufferMeta>) -> Option<bool> {
    let at = first_where(metas, damages());
    if at < metas.len() {
        damage_said(metas[at].data)
    } else {
        None
    }
}

/// Whether a buffer's pixels are damaged, as far as the server says.
pub fn pipewire_video_damage(metas: &Vec<BufferMeta>) -> (damage: Option<bool>)
    ensures
        damage == damage_in(metas@),
{
    let count: usize = metas.len();
    let mut at: usize = 0;
    while at < count && metas[at].kind != META_VIDEO_DAMAGE
        invariant
            at <= count == metas@.len(),
            forall|k: int| 0 <= k < at ==> (#[trigger] metas@[k]).kind != META_VIDEO_DAMAGE,
        decreases count - at,
    {
        at += 1;
    }
    proof {
        lemma_first_where(metas@, damages(), at as int);
    }
    if at >= count {
        return None;
    }
    match &metas[at].data {
        MetaData::Missing(_) => None,
        MetaData::Bytes(bytes) => {
            if bytes.len() % REGION_META_SIZE != 0 {
                None
            } else {
                Some(bytes.len() > 0 && read_word(bytes, 8) != 0 && read_word(bytes, 12) != 0)
            }
        },
    }
}

/// The name of a kind of metadata.
pub open spec fn meta_name(kind: u32) -> Seq<char> {
    if kind == 1 {
        "Header"@
    } else if kind == 2 {
        "VideoCrop"@
    } else if kind == META_VIDEO_DAMAGE {
        "VideoDamage"@
    } else if kind == 4 {
        "Bitmap"@
    } else if kind == META_CURSOR {
        "Cursor"@
    } else if kind == 6 {
        "Control"@
    } else if kind == 7 {
        "Busy"@
    } else {
        "Unknown"@
    }
}

/// The name of a kind of metadata.
pub fn pipewire_meta_type_name(kind: u32) -> (name: &'static str)
    ensures
        name@ == meta_name(kind),
{
    match kind {
        1 => "Header",
        2 => "VideoCrop",
        3 => "VideoDamage",
        4 => "Bitmap",
        5 => "Cursor",
        6 => "Control",
        7 => "Busy",
        _ => "Unknown",
    }
}

/// The bytes of a piece of metadata, or what the server says of them.
pub open spec fn meta_size(data: MetaData) -> nat {
    match data {
        MetaData::Missing(size) => size as nat,
        MetaData::Bytes(bytes) => bytes@.len(),
    }
}

/// One piece of metadata in words.
pub open spec fn meta_words(meta: BufferMeta) -> Seq<char> {
    meta_name(meta.kind) + "("@ + decimal_text(meta.kind as nat) + ") size="@ + decimal_text(
        meta_size(meta.data),
    ) + " data_null="@ + if meta.data is Missing {
        "true"@
    } else {
        "false"@
    }
}

/// The metadata of a buffer in words.
pub open spec fn metas_words(metas: Seq<BufferMeta>) -> Seq<char>
    decreases metas.len(),
{
    if metas.len() == 0 {
        Seq::empty()
    } else if metas.len() == 1 {
        meta_words(metas[0])
    } else {
        metas_words(metas.drop_last()) + ", "@ + meta_words(metas.last())
    }
}

/// The metadata of a buffer in words, for an operator.
pub fn pipewire_buffer_meta_summary(metas: &Vec<BufferMeta>) -> (summary: String)
    ensures
        summary@ == metas_words(metas@),
{
    let mut summary = String::new();
    let count: usize = metas.len();
    let mut i: usize = 0;
    assert(summary@ =~= Seq::empty());
    while i < count
        invariant
            i <= count == metas@.len(),
            summary@ == metas_words(metas@.take(i as int)),
        decreases count - i,
    {
        let ghost before = summary@;
        assert(metas@.take(i + 1).drop_last() =~= metas@.take(i as int));
        if i > 0 {
            append(&mut summary, ", ");
        }
        append(&mut summary, pipewire_meta_type_name(metas[i].kind));
        append(&mut summary, "(");
        append(&mut summary, format_u64(metas[i].kind as u64).as_str());
        append(&mut summary, ") size=");
        let size: u64 = match &metas[i].data {
            MetaData::Missing(size) => *size as u64,
            MetaData::Bytes(bytes) => bytes.len() as u64,
        };
        append(&mut summary, format_u64(size).as_str());
        append(&mut summary, " data_null=");
        match &metas[i].data {
            MetaData::Missing(_) => append(&mut summary, "true"),
            MetaData::Bytes(_) => append(&mut summary, "false"),
        }
        proof {
            let words = meta_words(metas@[i as int]);
            if i > 0 {
                assert(summary@ =~= before + ", "@ + words);
            } else {
                assert(before =~= Seq::empty());
                assert(summary@ =~= words);
            }
        }
        i += 1;
    }
    assert(metas@.take(count as int) =~= metas@);
    summary
}

/// Looks at the first buffer only: whether it comes with a cursor. Without a buffer, or
/// once one was looked at, there is nothing to say.
pub fn inspect_metas_once(metas: Option<&Vec<BufferMeta>>, inspected: &mut bool) -> (has_cursor:
    Option<bool>)
    ensures
        *old(inspected) || metas is None ==> has_cursor is None && *final(inspected) == *old(
            inspected,
        ),
        !*old(inspected) && metas is Some ==> has_cursor == Some(self::has_cursor(metas->0@))
            && *final(inspected),
{
    if *inspected {
        return None;
    }
    match metas {
        None => None,
        Some(metas) => {
            *inspected = true;
            Some(pipewire_buffer_has_cursor_meta(metas))
        },
    }
}

/// A decoded bitmap has exactly its pixels, sides within bounds and a hotspot inside.
pub proof fn decoded_bitmaps_are_whole(meta: Seq<u8>)
    requires
        meta.len() >= CURSOR_META_SIZE,
        bitmap_in(meta) is Some,
    ensures
        ({
            let bitmap = bitmap_in(meta)->0;
            &&& 0 < bitmap.width <= CURSOR_MAX_BITMAP_SIDE
            &&& 0 < bitmap.height <= CURSOR_MAX_BITMAP_SIDE
            &&& bitmap.rgba.len() == bitmap.width * bitmap.height * 4
            &&& 0 <= bitmap.hotspot_x < bitmap.width
            &&& 0 <= bitmap.hotspot_y < bitmap.height
        }),
{
    let layout = bitmap_layout(meta)->0;
    lemma_bitmap_pixels_len(meta, layout, layout.height as int);
    assert(layout.height * (4 * layout.width) == layout.width * layout.height * 4)
        by (nonlinear_arith);
}

/// A row has four bytes for each of its pixels.
pub proof fn lemma_row_pixels_len(meta: Seq<u8>, layout: BitmapLayout, row: int, columns: int)
    requires
        columns >= 0,
    ensures
        row_pixels(meta, layout, row, columns).len() == 4 * columns,
    decreases columns,
{
    if columns > 0 {
        lemma_row_pixels_len(meta, layout, row, columns - 1);
    }
}

/// A bitmap has four bytes for each of its pixels.
pub proof fn lemma_bitmap_pixels_len(meta: Seq<u8>, layout: BitmapLayout, rows: int)
    requires
        rows >= 0,
    ensures
        bitmap_pixels(meta, layout, rows).len() == rows * (4 * layout.width),
    decreases rows,
{
    if rows > 0 {
        lemma_bitmap_pixels_len(meta, layout, rows - 1);
        lemma_row_pixels_len(meta, layout, rows - 1, layout.width as int);
        assert((rows - 1) * (4 * layout.width) + 4 * layout.width == rows * (4 * layout.width))
            by (nonlinear_arith);
    } else {
        assert(0 * (4 * layout.width) == 0) by (nonlinear_arith);
    }
}

} // verus!

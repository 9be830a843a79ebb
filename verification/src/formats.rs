//! What a publisher offers a capture server: pixel formats, memory layouts and buffers.

use vstd::prelude::*;

use crate::cursor_meta::{META_CURSOR, META_VIDEO_DAMAGE, REGION_META_SIZE};
use crate::order::{first_where, lemma_first_where};
use crate::pixels::{
    bytes_per_pixel,
    drm_fourcc_for_video_format,
    expected_frame_size,
    expected_frame_stride,
    fourcc_of,
    frame_format_of,
    raw_frame_format_for_video_format,
    RawFrameFormat,
};

verus! {

/// The memory layout without tiling.
pub const DRM_FORMAT_MOD_LINEAR: u64 = 0;

/// The memory layout that the driver knows but does not name.
pub const DRM_FORMAT_MOD_INVALID: u64 = 0x00ff_ffff_ffff_ffff;

/// Bytes of metadata for the damage of a frame: sixteen regions.
pub const DAMAGE_META_SIZE: i32 = 256;

/// Side of the smallest cursor image that is asked for.
pub const CURSOR_MIN_BITMAP_SIDE: usize = 1;

/// Side of the cursor image that is asked for by default.
pub const CURSOR_DEFAULT_BITMAP_SIDE: usize = 64;

/// Side of the largest cursor image that is asked for.
pub const CURSOR_NEGOTIATED_MAX_BITMAP_SIDE: usize = 384;

/// The greatest common divisor, by Euclid's rule.
pub open spec fn gcd_of(a: nat, b: nat) -> nat
    decreases b,
{
    if b == 0 {
        a
    } else {
        gcd_of(b, a % b)
    }
}

/// The greatest common divisor.
pub fn gcd(a: u32, b: u32) -> (divisor: u32)
    ensures
        divisor == gcd_of(a as nat, b as nat),
{
    let mut first: u32 = a;
    let mut second: u32 = b;
    while second != 0
        invariant
            gcd_of(first as nat, second as nat) == gcd_of(a as nat, b as nat),
        decreases second,
    {
        let next: u32 = first % second;
        first = second;
        second = next;
    }
    first
}

/// What Euclid's rule gives divides both numbers, and every number that divides both
/// divides it.
pub proof fn common_divisor_is_greatest(a: nat, b: nat)
    requires
        a > 0 || b > 0,
    ensures
        gcd_of(a, b) > 0,
        a % gcd_of(a, b) == 0,
        b % gcd_of(a, b) == 0,
        forall|d: nat| d > 0 && a % d == 0 && b % d == 0 ==> #[trigger] (gcd_of(a, b) % d) == 0,
    decreases b,
{
    if b > 0 {
        common_divisor_is_greatest(b, a % b);
        let g = gcd_of(a, b);
        lemma_divides_sum(a, b, g);
        assert forall|d: nat| d > 0 && a % d == 0 && b % d == 0 implies #[trigger] (gcd_of(a, b)
            % d) == 0 by {
            lemma_divides_remainder(a, b, d);
        }
    } else {
        assert(a % a == 0) by (nonlinear_arith)
            requires
                a > 0,
        ;
        assert(0nat % a == 0) by (nonlinear_arith)
            requires
                a > 0,
        ;
    }
}

proof fn lemma_divides_sum(a: nat, b: nat, d: nat)
    requires
        b > 0,
        d > 0,
        b % d == 0,
        (a % b) % d == 0,
    ensures
        a % d == 0,
{
    let q = a / b;
    let k = b / d;
    let j = (a % b) / d;
    assert(a == b * q + a % b) by (nonlinear_arith)
        requires
            b > 0,
            q == a / b,
    ;
    assert(b == d * k) by (nonlinear_arith)
        requires
            d > 0,
            b % d == 0,
            k == b / d,
    ;
    let r = a % b;
    assert(r == d * j) by (nonlinear_arith)
        requires
            d > 0,
            r % d == 0,
            j == r / d,
    ;
    assert(a == d * (k * q + j)) by (nonlinear_arith)
        requires
            a == b * q + r,
            b == d * k,
            r == d * j,
    ;
    lemma_multiple((k * q + j) as int, d as int);
    assert((d * (k * q + j)) == ((k * q + j) * d)) by (nonlinear_arith);
}

proof fn lemma_divides_remainder(a: nat, b: nat, d: nat)
    requires
        b > 0,
        d > 0,
        a % d == 0,
        b % d == 0,
    ensures
        (a % b) % d == 0,
{
    let q = a / b;
    let k = b / d;
    let m = a / d;
    let r = a % b;
    assert(a == b * q + r) by (nonlinear_arith)
        requires
            b > 0,
            q == a / b,
            r == a % b,
    ;
    assert(b == d * k) by (nonlinear_arith)
        requires
            d > 0,
            b % d == 0,
            k == b / d,
    ;
    assert(a == d * m) by (nonlinear_arith)
        requires
            d > 0,
            a % d == 0,
            m == a / d,
    ;
    assert(r == (m - k * q) * d) by (nonlinear_arith)
        requires
            a == b * q + r,
            b == d * k,
            a == d * m,
    ;
    lemma_multiple(m - k * q, d as int);
}

proof fn lemma_multiple(k: int, d: int)
    requires
        d > 0,
    ensures
        (k * d) % d == 0,
{
    vstd::arithmetic::div_mod::lemma_mod_multiples_basic(k, d);
}

/// A frame rate in thousandths of a frame per second, as a fraction in lowest terms.
pub open spec fn is_rate(rate: (u32, u32), thousandths: u32) -> bool {
    &&& rate.0 == thousandths as nat / gcd_of(thousandths as nat, 1000)
    &&& rate.1 == 1000nat / gcd_of(thousandths as nat, 1000)
}

/// A frame rate in thousandths of a frame per second, as a fraction in lowest terms.
pub fn fps_fraction(thousandths: u32) -> (fraction: (u32, u32))
    ensures
        is_rate(fraction, thousandths),
        fraction.0 * 1000 == thousandths * fraction.1,
        fraction.1 > 0,
{
    let divisor: u32 = gcd(thousandths, 1000);
    proof {
        common_divisor_is_greatest(thousandths as nat, 1000);
        let g = divisor as int;
        let n = thousandths as int;
        assert(n == g * (n / g)) by (nonlinear_arith)
            requires
                g > 0,
                n % g == 0,
        ;
        assert(1000 == g * (1000int / g)) by (nonlinear_arith)
            requires
                g > 0,
                1000int % g == 0,
        ;
        let a = n / g;
        let b = 1000int / g;
        assert(a * 1000 == n * b) by (nonlinear_arith)
            requires
                n == g * a,
                1000 == g * b,
        ;
        assert(b > 0) by (nonlinear_arith)
            requires
                1000 == g * b,
                g > 0,
        ;
    }
    (thousandths / divisor, 1000 / divisor)
}

/// Bytes of metadata for a cursor with a square image.
pub fn pipewire_cursor_meta_size(bitmap_side: usize) -> (size: i32)
    ensures
        size == if 48 + 4 * bitmap_side * bitmap_side > i32::MAX {
            i32::MAX as int
        } else {
            48 + 4 * bitmap_side * bitmap_side
        },
{
    if bitmap_side > 30_000 {
        assert(4 * bitmap_side * bitmap_side > 3_600_000_000) by (nonlinear_arith)
            requires
                bitmap_side > 30_000,
        ;
        return i32::MAX;
    }
    let side: u64 = bitmap_side as u64;
    assert(0 <= 4 * side * side <= 3_600_000_000) by (nonlinear_arith)
        requires
            0 <= side <= 30_000,
    ;
    assert(4 * bitmap_side * bitmap_side == 4 * side * side);
    assert(0 <= 4 * side <= 120_000);
    let bytes: u64 = 48 + 4 * side * side;
    if bytes > 0x7fff_ffff {
        i32::MAX
    } else {
        bytes as i32
    }
}

/// Metadata that is asked of a capture server.
#[derive(Clone, Copy, Debug, PartialEq, Eq)]
pub struct MetaRequest {
    /// Which metadata.
    pub kind: u32,
    /// Bytes that are asked for.
    pub size: i32,
    /// The fewest and the most bytes that will do, where others will.
    pub range: Option<(i32, i32)>,
}

/// Asks for the cursor, with an image of the usual size or any other up to the largest.
pub fn cursor_meta_request() -> (request: MetaRequest)
    ensures
        request == (MetaRequest {
            kind: META_CURSOR,
            size: (48 + 4 * CURSOR_DEFAULT_BITMAP_SIDE * CURSOR_DEFAULT_BITMAP_SIDE) as i32,
            range: Some(
                (
                    (48 + 4 * CURSOR_MIN_BITMAP_SIDE * CURSOR_MIN_BITMAP_SIDE) as i32,
                    (48 + 4 * CURSOR_NEGOTIATED_MAX_BITMAP_SIDE
                        * CURSOR_NEGOTIATED_MAX_BITMAP_SIDE) as i32,
                ),
            ),
        }),
{
    MetaRequest {
        kind: META_CURSOR,
        size: pipewire_cursor_meta_size(CURSOR_DEFAULT_BITMAP_SIDE),
        range: Some(
            (
                pipewire_cursor_meta_size(CURSOR_MIN_BITMAP_SIDE),
                pipewire_cursor_meta_size(CURSOR_NEGOTIATED_MAX_BITMAP_SIDE),
            ),
        ),
    }
}

/// Asks for the damage of a frame, with room for sixteen regions.
pub fn damage_meta_request() -> (request: MetaRequest)
    ensures
        request == (MetaRequest {
            kind: META_VIDEO_DAMAGE,
            size: (16 * REGION_META_SIZE) as i32,
            range: None,
        }),
{
    MetaRequest { kind: META_VIDEO_DAMAGE, size: DAMAGE_META_SIZE, range: None }
}

/// A signed number as the unsigned one with the same bits.
pub open spec fn as_unsigned(value: i64) -> u64 {
    if value < 0 {
        (value + 0x1_0000_0000_0000_0000) as u64
    } else {
        value as u64
    }
}

fn unsigned(value: i64) -> (result: u64)
    ensures
        result == as_unsigned(value),
{
    if value < 0 {
        (value as i128 + 0x1_0000_0000_0000_0000) as u64
    } else {
        value as u64
    }
}

/// Memory layouts that a capture server offers, as it writes them down.
#[derive(Debug)]
pub enum ModifierChoice {
    /// One.
    Single(i64),
    /// A default between two others.
    Range {
        /// The default.
        default: i64,
        /// The lowest.
        min: i64,
        /// The highest.
        max: i64,
    },
    /// A default behind others.
    Alternatives {
        /// The default.
        default: i64,
        /// The others.
        others: Vec<i64>,
    },
    /// Something that names no layout.
    Other,
}

/// The offered layouts in their order.
pub open spec fn modifiers_of(choice: ModifierChoice) -> Seq<u64> {
    match choice {
        ModifierChoice::Single(value) => seq![as_unsigned(value)],
        ModifierChoice::Range { default, min, max } => seq![
            as_unsigned(default),
            as_unsigned(min),
            as_unsigned(max),
        ],
        ModifierChoice::Alternatives { default, others } => others@.map_values(
            |value: i64| as_unsigned(value),
        ).push(as_unsigned(default)),
        ModifierChoice::Other => Seq::empty(),
    }
}

/// The offered layouts in their order.
pub fn modifier_values_from_choice(choice: &ModifierChoice) -> (values: Vec<u64>)
    ensures
        values@ == modifiers_of(*choice),
{
    let mut values: Vec<u64> = Vec::new();
    match choice {
        ModifierChoice::Single(value) => {
            values.push(unsigned(*value));
        },
        ModifierChoice::Range { default, min, max } => {
            values.push(unsigned(*default));
            values.push(unsigned(*min));
            values.push(unsigned(*max));
        },
        ModifierChoice::Alternatives { default, others } => {
            let count: usize = others.len();
            let mut i: usize = 0;
            while i < count
                invariant
                    i <= count == others@.len(),
                    values@.len() == i,
                    forall|k: int| 0 <= k < i ==> values@[k] == as_unsigned(#[trigger] others@[k]),
                decreases count - i,
            {
                values.push(unsigned(others[i]));
                i += 1;
            }
            values.push(unsigned(*default));
        },
        ModifierChoice::Other => {},
    }
    assert(values@ =~= modifiers_of(*choice));
    values
}

/// A layout that is named.
pub open spec fn explicit() -> spec_fn(u64) -> bool {
    |modifier: u64| modifier != DRM_FORMAT_MOD_INVALID
}

/// The layout that is read back with the least trouble: without tiling, else the first that
/// is named, else the driver's own.
pub open spec fn preferred_modifier(modifiers: Seq<u64>) -> Option<u64> {
    let first = first_where(modifiers, explicit());
    if modifiers.contains(DRM_FORMAT_MOD_LINEAR) {
        Some(DRM_FORMAT_MOD_LINEAR)
    } else if first < modifiers.len() {
        Some(modifiers[first])
    } else if modifiers.len() > 0 {
        Some(DRM_FORMAT_MOD_INVALID)
    } else {
        None
    }
}

/// The layout that is read back with the least trouble.
pub fn preferred_safe_readback_modifier_from_values(modifiers: &[u64]) -> (modifier: Option<u64>)
    ensures
        modifier == preferred_modifier(modifiers@),
{
    let count: usize = modifiers.len();
    let mut first: usize = count;
    let mut i: usize = 0;
    while i < count
        invariant
            i <= count == modifiers@.len(),
            forall|k: int| 0 <= k < i ==> modifiers@[k] != DRM_FORMAT_MOD_LINEAR,
            first == count || first < i,
            first == count ==> forall|k: int|
                0 <= k < i ==> !explicit()(#[trigger] modifiers@[k]),
            first < count ==> explicit()(modifiers@[first as int]) && forall|k: int|
                0 <= k < first ==> !explicit()(#[trigger] modifiers@[k]),
        decreases count - i,
    {
        if modifiers[i] == DRM_FORMAT_MOD_LINEAR {
            assert(modifiers@[i as int] == DRM_FORMAT_MOD_LINEAR);
            return Some(DRM_FORMAT_MOD_LINEAR);
        }
        if first == count && modifiers[i] != DRM_FORMAT_MOD_INVALID {
            first = i;
        }
        i += 1;
    }
    proof {
        lemma_first_where(modifiers@, explicit(), first as int);
    }
    if first < count {
        return Some(modifiers[first]);
    }
    if count > 0 {
        return Some(DRM_FORMAT_MOD_INVALID);
    }
    None
}

/// Whether a buffer must be read back through the graphics driver.
pub fn dmabuf_requires_gpu_readback(is_dmabuf: bool, mappable: bool, modifier: u64) -> (required:
    bool)
    ensures
        required == (is_dmabuf && (!mappable || modifier != DRM_FORMAT_MOD_LINEAR)),
{
    is_dmabuf && (!mappable || modifier != DRM_FORMAT_MOD_LINEAR)
}

/// Whether the flags of a buffer say that its memory can be mapped.
pub fn data_is_mappable(flags: u32) -> (mappable: bool)
    ensures
        mappable == ((flags / 8) % 2 == 1),
{
    assert((flags & 8 != 0) == ((flags / 8) % 2 == 1)) by (bit_vector);
    flags & 8 != 0
}

/// A format that a capture server advertises.
#[derive(Debug)]
pub struct AdvertisedFormat {
    /// Whether it is uncompressed video whose description can be read.
    pub is_raw_video: bool,
    /// Number of its pixel format.
    pub number: u32,
    /// Width in pixels.
    pub width: u32,
    /// Height in pixels.
    pub height: u32,
    /// The memory layouts, where it names any.
    pub modifiers: Option<Vec<u64>>,
}

/// A format that a publisher offers.
#[derive(Clone, Copy, Debug, PartialEq, Eq, Structural)]
pub struct FormatOffer {
    /// Number of its pixel format.
    pub number: u32,
    /// Width in pixels.
    pub width: u32,
    /// Height in pixels.
    pub height: u32,
    /// The memory layout; shared memory where there is none.
    pub modifier: Option<u64>,
}

/// Whether an advertised format can be read by the processor.
pub open spec fn is_readable(format: AdvertisedFormat) -> bool {
    &&& format.is_raw_video
    &&& frame_format_of(format.number) is Some
    &&& format.width > 0
    &&& format.height > 0
    &&& format.modifiers matches Some(modifiers) ==> modifiers@.len() > 0
}

/// The layout that is picked for a format; none where it names none.
pub open spec fn picked(format: AdvertisedFormat) -> Option<u64> {
    match format.modifiers {
        None => None,
        Some(modifiers) => preferred_modifier(modifiers@),
    }
}

/// The offer of a format in shared memory.
pub open spec fn plain_offer(format: AdvertisedFormat) -> FormatOffer {
    FormatOffer {
        number: format.number,
        width: format.width,
        height: format.height,
        modifier: None,
    }
}

/// The offers for one format: shared memory first, then the layout that is read back with
/// the least trouble.
pub open spec fn offers_for(format: AdvertisedFormat) -> Seq<FormatOffer> {
    if picked(format) is Some {
        seq![plain_offer(format), FormatOffer { modifier: picked(format), ..plain_offer(format) }]
    } else {
        seq![plain_offer(format)]
    }
}

/// Offers for advertised formats.
pub open spec fn offers_of(formats: Seq<AdvertisedFormat>) -> Seq<FormatOffer>
    decreases formats.len(),
{
    if formats.len() == 0 {
        Seq::empty()
    } else if is_readable(formats.last()) {
        offers_of(formats.drop_last()) + offers_for(formats.last())
    } else {
        offers_of(formats.drop_last())
    }
}

/// Formats that are offered for reading by the processor. Each readable one is offered in
/// shared memory first.
pub fn format_offers(formats: &Vec<AdvertisedFormat>) -> (offers: Vec<FormatOffer>)
    ensures
        offers@ == offers_of(formats@),
{
    let mut offers: Vec<FormatOffer> = Vec::new();
    let count: usize = formats.len();
    let mut i: usize = 0;
    assert(formats@.take(0) =~= Seq::empty());
    while i < count
        invariant
            i <= count == formats@.len(),
            offers@ == offers_of(formats@.take(i as int)),
        decreases count - i,
    {
        let ghost before = offers@;
        assert(formats@.take(i + 1).drop_last() =~= formats@.take(i as int));
        let format = &formats[i];
        let (modifier, named) = match &format.modifiers {
            None => (None, true),
            Some(modifiers) => (
                preferred_safe_readback_modifier_from_values(modifiers.as_slice()),
                modifiers.len() > 0,
            ),
        };
        if format.is_raw_video && raw_frame_format_for_video_format(format.number).is_some()
            && format.width > 0 && format.height > 0 && named {
            let plain = FormatOffer {
                number: format.number,
                width: format.width,
                height: format.height,
                modifier: None,
            };
            offers.push(plain);
            if modifier.is_some() {
                offers.push(FormatOffer { modifier, ..plain });
            }
            assert(offers@ =~= before + offers_for(*format));
        }
        i += 1;
    }
    assert(formats@.take(count as int) =~= formats@);
    offers
}

/// Every readable format is offered in shared memory, whatever layouts it names.
pub proof fn shared_memory_is_always_offered(formats: Seq<AdvertisedFormat>, i: int)
    requires
        0 <= i < formats.len(),
        is_readable(formats[i]),
    ensures
        offers_of(formats).contains(plain_offer(formats[i])),
    decreases formats.len(),
{
    let before = offers_of(formats.drop_last());
    let all = offers_of(formats);
    if i < formats.len() - 1 {
        shared_memory_is_always_offered(formats.drop_last(), i);
        let k = choose|k: int| 0 <= k < before.len() && before[k] == plain_offer(formats[i]);
        assert(all[k] == plain_offer(formats[i]));
    } else {
        assert(all[before.len() as int] == plain_offer(formats[i]));
    }
}

/// Whether an advertised format can be handed to the graphics driver.
pub open spec fn is_importable(format: AdvertisedFormat) -> bool {
    format.is_raw_video && fourcc_of(format.number) is Some
}

/// The positions of the formats that can be handed to the graphics driver.
pub open spec fn importable(formats: Seq<AdvertisedFormat>) -> Seq<int>
    decreases formats.len(),
{
    if formats.len() == 0 {
        Seq::empty()
    } else if is_importable(formats.last()) {
        importable(formats.drop_last()).push(formats.len() - 1)
    } else {
        importable(formats.drop_last())
    }
}

/// The positions of the formats that can be handed to the graphics driver.
pub fn importable_formats(formats: &Vec<AdvertisedFormat>) -> (positions: Vec<usize>)
    ensures
        positions@.map_values(|at: usize| at as int) == importable(formats@),
{
    let mut positions: Vec<usize> = Vec::new();
    let count: usize = formats.len();
    let mut i: usize = 0;
    assert(formats@.take(0) =~= Seq::empty());
    assert(positions@.map_values(|at: usize| at as int) =~= Seq::empty());
    while i < count
        invariant
            i <= count == formats@.len(),
            positions@.map_values(|at: usize| at as int) == importable(formats@.take(i as int)),
        decreases count - i,
    {
        let ghost before = positions@;
        assert(formats@.take(i + 1).drop_last() =~= formats@.take(i as int));
        if formats[i].is_raw_video && drm_fourcc_for_video_format(formats[i].number).is_some() {
            positions.push(i);
            assert(positions@.map_values(|at: usize| at as int) =~= before.map_values(
                |at: usize| at as int,
            ).push(i as int));
        }
        i += 1;
    }
    assert(formats@.take(count as int) =~= formats@);
    positions
}

/// What a publisher asks of a capture server's buffers.
#[derive(Clone, Copy, Debug, PartialEq, Eq, Structural)]
pub struct BufferRequest {
    /// Bytes of a row.
    pub stride: u32,
    /// Bytes of a buffer.
    pub size: u32,
    /// The sort of memory that is preferred, as a bit.
    pub preferred_memory: u32,
    /// The sorts of memory that are accepted, as bits.
    pub accepted_memory: u32,
}

/// Memory behind a pointer, as a bit.
pub const MEMORY_POINTER: u32 = 2;

/// Memory behind a shared descriptor, as a bit.
pub const MEMORY_SHARED: u32 = 4;

/// Memory of the graphics driver, as a bit.
pub const MEMORY_GRAPHICS: u32 = 8;

/// The least of two numbers.
pub open spec fn least(a: int, b: int) -> int {
    if a <= b {
        a
    } else {
        b
    }
}

/// The greater of a number and one.
pub open spec fn one_at_least(a: u32) -> int {
    if a == 0 {
        1
    } else {
        a as int
    }
}

/// Bytes of a row: as the format has it, else four for each pixel.
pub open spec fn requested_stride(number: u32, width: u32) -> int {
    match frame_format_of(number) {
        Some(format) => if width * bytes_per_pixel(format) <= u32::MAX {
            width * bytes_per_pixel(format)
        } else {
            least(width * 4, u32::MAX as int)
        },
        None => least(width * 4, u32::MAX as int),
    }
}

/// What is asked of the buffers for a format.
pub open spec fn requested_buffers(
    number: u32,
    width: u32,
    height: u32,
    modifier: u64,
) -> BufferRequest {
    let stride = requested_stride(number, width) as u32;
    BufferRequest {
        stride,
        size: match expected_size(number, width, height) {
            Some(size) => size,
            None => least(one_at_least(stride) * one_at_least(height), i32::MAX as int) as u32,
        },
        preferred_memory: if modifier == DRM_FORMAT_MOD_LINEAR {
            MEMORY_SHARED
        } else {
            MEMORY_GRAPHICS
        },
        accepted_memory: if modifier == DRM_FORMAT_MOD_LINEAR {
            (MEMORY_SHARED + MEMORY_POINTER + MEMORY_GRAPHICS) as u32
        } else {
            MEMORY_GRAPHICS
        },
    }
}

/// What is asked of the buffers for a format: shared memory is preferred for the layout
/// without tiling, and only the graphics driver's memory will do for any other.
pub fn buffer_request(number: u32, width: u32, height: u32, modifier: u64) -> (request:
    BufferRequest)
    ensures
        request == requested_buffers(number, width, height, modifier),
{
    let stride: u32 = match expected_frame_stride(number, width) {
        Some(stride) => stride,
        None => {
            let wide: u64 = width as u64 * 4;
            if wide > 0xffff_ffff {
                0xffff_ffff
            } else {
                wide as u32
            }
        },
    };
    let size: u32 = match expected_frame_size(number, width, height) {
        Some(size) => size,
        None => {
            let rows: u64 = if height == 0 {
                1
            } else {
                height as u64
            };
            let row: u64 = if stride == 0 {
                1
            } else {
                stride as u64
            };
            assert(0 <= row * rows <= 0xffff_ffff * 0xffff_ffff) by (nonlinear_arith)
                requires
                    0 <= row <= 0xffff_ffff,
                    0 <= rows <= 0xffff_ffff,
            ;
            let bytes: u64 = row * rows;
            if bytes > 0x7fff_ffff {
                0x7fff_ffff
            } else {
                bytes as u32
            }
        },
    };
    let (preferred_memory, accepted_memory): (u32, u32) = if modifier == DRM_FORMAT_MOD_LINEAR {
        (MEMORY_SHARED, MEMORY_SHARED + MEMORY_POINTER + MEMORY_GRAPHICS)
    } else {
        (MEMORY_GRAPHICS, MEMORY_GRAPHICS)
    };
    BufferRequest { stride, size, preferred_memory, accepted_memory }
}

/// Bytes of a frame without padding, where they can be counted.
pub open spec fn expected_size(number: u32, width: u32, height: u32) -> Option<u32> {
    match frame_format_of(number) {
        None => None,
        Some(RawFrameFormat::I420) => if width * height * 3 > u32::MAX {
            None
        } else {
            Some((width * height * 3 / 2) as u32)
        },
        Some(format) => if width * bytes_per_pixel(format) > u32::MAX || width * bytes_per_pixel(
            format,
        ) * height > u32::MAX {
            None
        } else {
            Some((width * bytes_per_pixel(format) * height) as u32)
        },
    }
}

/// How a slice of a descriptor's memory is read.
#[derive(Clone, Copy, Debug, PartialEq, Eq, Structural)]
pub enum MapPlan {
    /// It cannot be.
    Refused,
    /// There is nothing to read.
    Empty,
    /// Some pages are mapped, and the slice is within them.
    Pages {
        /// Where the pages start.
        offset: i64,
        /// Bytes of the pages.
        length: usize,
        /// Where the slice starts in them.
        delta: usize,
    },
}

/// Decides how a slice of a descriptor's memory is read. `extent` is the size that the
/// system reports, where it does; a slice beyond it is refused.
pub fn map_plan(
    fd: i32,
    offset: usize,
    size: usize,
    extent: Option<usize>,
    page_size: i64,
) -> (plan: MapPlan)
    ensures
        ({
            let page = if page_size > 0 && page_size <= usize::MAX {
                page_size as int
            } else {
                4096
            };
            let delta = offset as int % page;
            plan == if fd < 0 {
                MapPlan::Refused
            } else if size == 0 {
                MapPlan::Empty
            } else if offset + size > usize::MAX {
                MapPlan::Refused
            } else if extent matches Some(extent) && 0 < extent < offset + size {
                MapPlan::Refused
            } else if offset - delta > i64::MAX {
                MapPlan::Refused
            } else {
                MapPlan::Pages {
                    offset: (offset - delta) as i64,
                    length: (delta + size) as usize,
                    delta: delta as usize,
                }
            }
        }),
{
    if fd < 0 {
        return MapPlan::Refused;
    }
    if size == 0 {
        return MapPlan::Empty;
    }
    let end: usize = match offset.checked_add(size) {
        None => {
            return MapPlan::Refused;
        },
        Some(end) => end,
    };
    match extent {
        Some(extent) => {
            if extent > 0 && end > extent {
                return MapPlan::Refused;
            }
        },
        None => {},
    }
    let page: usize = if page_size > 0 && page_size as u64 <= usize::MAX as u64 {
        page_size as usize
    } else {
        4096
    };
    let delta: usize = offset % page;
    assert(delta <= offset) by (nonlinear_arith)
        requires
            page > 0,
            delta == offset % page,
            offset >= 0,
    ;
    let aligned: usize = offset - delta;
    if aligned as u64 > 0x7fff_ffff_ffff_ffff {
        return MapPlan::Refused;
    }
    MapPlan::Pages { offset: aligned as i64, length: delta + size, delta }
}

/// Sides of the largest frame that is accepted.
pub const MAX_FRAME_SIDE: u32 = 16_384;

/// A format as it is asked of a capture server.
#[derive(Debug)]
pub struct FormatRequest {
    /// Numbers of pixel formats, the preferred one first.
    pub numbers: Vec<u32>,
    /// Width in pixels.
    pub width: u32,
    /// Height in pixels.
    pub height: u32,
    /// Whether other sizes up to the largest are accepted.
    pub any_size: bool,
    /// Frames per second as a fraction, which is the most that is wanted.
    pub rate: (u32, u32),
    /// The memory layout, which must be kept to where there is one.
    pub modifier: Option<u64>,
}

/// The pixel formats that are accepted where the server advertises none.
pub open spec fn default_numbers() -> Seq<u32> {
    seq![15u32, 15, 16, 11, 12, 7, 8, 9, 10, 13, 14, 4, 2]
}

/// A side of one pixel at least.
pub open spec fn side_at_least(side: u32) -> u32 {
    if side == 0 {
        1
    } else {
        side
    }
}

/// What a request for an offer asks for.
pub open spec fn asks_for(request: FormatRequest, offer: FormatOffer) -> bool {
    &&& request.numbers@ == seq![offer.number]
    &&& request.width == side_at_least(offer.width)
    &&& request.height == side_at_least(offer.height)
    &&& !request.any_size
    &&& request.modifier == offer.modifier
}

/// What the request asks for where the server advertises nothing of use.
pub open spec fn asks_for_anything(request: FormatRequest, width: u32, height: u32) -> bool {
    &&& request.numbers@ == default_numbers()
    &&& request.width == side_at_least(width)
    &&& request.height == side_at_least(height)
    &&& request.any_size
    &&& request.modifier is None
}

fn side(value: u32) -> (side: u32)
    ensures
        side == side_at_least(value),
{
    if value == 0 {
        1
    } else {
        value
    }
}

/// The request for anything that can be read, of a preferred size and at a rate.
pub fn default_format_request(width: u32, height: u32, thousandths: u32) -> (request: FormatRequest)
    ensures
        asks_for_anything(request, width, height),
        is_rate(request.rate, thousandths),
{
    let mut numbers: Vec<u32> = Vec::new();
    numbers.push(15);
    numbers.push(15);
    numbers.push(16);
    numbers.push(11);
    numbers.push(12);
    numbers.push(7);
    numbers.push(8);
    numbers.push(9);
    numbers.push(10);
    numbers.push(13);
    numbers.push(14);
    numbers.push(4);
    numbers.push(2);
    assert(numbers@ =~= default_numbers());
    FormatRequest {
        numbers,
        width: side(width),
        height: side(height),
        any_size: true,
        rate: fps_fraction(thousandths),
        modifier: None,
    }
}

/// The formats that are asked for: one request for each offer, or a single one for anything
/// that can be read where there is no offer.
pub fn format_requests(
    formats: &Vec<AdvertisedFormat>,
    width: u32,
    height: u32,
    thousandths: u32,
) -> (requests: Vec<FormatRequest>)
    ensures
        ({
            let offers = offers_of(formats@);
            if offers.len() == 0 {
                requests@.len() == 1 && asks_for_anything(requests@[0], width, height) && is_rate(
                    requests@[0].rate,
                    thousandths,
                )
            } else {
                &&& requests@.len() == offers.len()
                &&& forall|i: int|
                    0 <= i < requests@.len() ==> asks_for(#[trigger] requests@[i], offers[i])
                        && is_rate(requests@[i].rate, thousandths)
            }
        }),
{
    let rate = fps_fraction(thousandths);
    let offers = format_offers(formats);
    let mut requests: Vec<FormatRequest> = Vec::new();
    let count: usize = offers.len();
    if count == 0 {
        requests.push(default_format_request(width, height, thousandths));
        return requests;
    }
    let mut i: usize = 0;
    while i < count
        invariant
            i <= count == offers@.len(),
            requests@.len() == i,
            is_rate(rate, thousandths),
            forall|k: int|
                0 <= k < i ==> asks_for(#[trigger] requests@[k], offers@[k]) && is_rate(
                    requests@[k].rate,
                    thousandths,
                ),
        decreases count - i,
    {
        let mut numbers: Vec<u32> = Vec::new();
        numbers.push(offers[i].number);
        assert(numbers@ =~= seq![offers@[i as int].number]);
        requests.push(
            FormatRequest {
                numbers,
                width: side(offers[i].width),
                height: side(offers[i].height),
                any_size: false,
                rate,
                modifier: offers[i].modifier,
            },
        );
        i += 1;
    }
    requests
}

/// What is asked of a capture server where frames go to the graphics driver.
#[derive(Debug)]
pub enum VideoFormatRequests {
    /// The advertised formats at these positions, as they were advertised.
    Advertised(Vec<usize>),
    /// A single request for anything.
    Default(FormatRequest),
}

/// The formats that are asked for where frames go to the graphics driver: every advertised
/// format that can be handed to it, unchanged, or a single request for anything where there
/// is none.
pub fn video_format_requests(
    formats: &Vec<AdvertisedFormat>,
    width: u32,
    height: u32,
    thousandths: u32,
) -> (requests: VideoFormatRequests)
    ensures
        match requests {
            VideoFormatRequests::Advertised(positions) => importable(formats@).len() > 0
                && positions@.map_values(|at: usize| at as int) == importable(formats@),
            VideoFormatRequests::Default(request) => importable(formats@).len() == 0
                && asks_for_anything(request, width, height) && is_rate(request.rate, thousandths),
        },
{
    let positions = importable_formats(formats);
    assert(positions@.map_values(|at: usize| at as int).len() == positions@.len());
    if positions.len() == 0 {
        VideoFormatRequests::Default(default_format_request(width, height, thousandths))
    } else {
        VideoFormatRequests::Advertised(positions)
    }
}

} // verus!

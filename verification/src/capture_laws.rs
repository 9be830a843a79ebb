//! What holds of a capture: formats, buffers, frames, the rate at which they come and the
//! pictures that are made up for tests. Each law speaks of what a call may return, or leave
//! behind, for what it was given.

use vstd::prelude::*;

use crate::capture::{
    capture_backend_name, connect_node, start_step, BufferFacts, CaptureError, CaptureState,
    FrameFeed, FramePlan, NegotiatedFormat, StartStep, WaitStep,
};
use crate::cursor::{
    pipewire_cursor_sample, sample_view, state_view, AccumulatedFrameDamage, PipewireCursorSample,
};
use crate::cursor_meta::{
    pipewire_buffer_has_cursor_meta, pipewire_cursor_update, pipewire_video_damage, BufferMeta,
    PipewireCursorState, PipewireCursorUpdate,
};
use crate::formats::{
    buffer_request, cursor_meta_request, damage_meta_request, data_is_mappable,
    default_format_request, dmabuf_requires_gpu_readback, format_offers, format_requests,
    fps_fraction, gcd, importable, importable_formats, is_readable, map_plan,
    modifier_values_from_choice, offers_of, pipewire_cursor_meta_size,
    preferred_safe_readback_modifier_from_values, video_format_requests, AdvertisedFormat,
    BufferRequest, FormatOffer, FormatRequest, MapPlan, MetaRequest, ModifierChoice,
    VideoFormatRequests,
};
use crate::meter::{report_capture_rate, CaptureCounts, CaptureRateMeter};
use crate::pixels::{
    clamp_u8, drm_fourcc, drm_fourcc_for_video_format, drm_fourcc_name,
    expected_frame_size, expected_frame_size_from_stride, expected_frame_stride,
    raw_frame_format_for_video_format, RawFrameFormat, RgbImage,
};
use crate::startup::ScreenCastBackend;
use crate::test_pattern::{
    pattern_row, pattern_rows, test_pattern_cursor_visible, test_pattern_pixel,
    TestPatternCapture, TestPatternMode,
};

verus! {

/// The graphics driver's name of a format is read back from its number, character by
/// character, as long as the characters can be shown.
pub proof fn driver_names_read_back(a: u8, b: u8, c: u8, d: u8, code: u32, name: String)
    requires
        call_ensures(drm_fourcc, (a, b, c, d), code),
        call_ensures(drm_fourcc_name, (code,), name),
    ensures
        name@.len() == 4,
        32 <= a < 127 ==> name@[0] == a as char,
        32 <= b < 127 ==> name@[1] == b as char,
        32 <= c < 127 ==> name@[2] == c as char,
        32 <= d < 127 ==> name@[3] == d as char,
        !(32 <= a < 127) ==> name@[0] == '.',
        !(32 <= b < 127) ==> name@[1] == '.',
        !(32 <= c < 127) ==> name@[2] == '.',
        !(32 <= d < 127) ==> name@[3] == '.',
{
    lemma_four_bytes(a as int, b as int, c as int, d as int, code as int);
}

proof fn lemma_four_bytes(a: int, b: int, c: int, d: int, code: int)
    requires
        0 <= a < 0x100,
        0 <= b < 0x100,
        0 <= c < 0x100,
        0 <= d < 0x100,
        code == a + 0x100 * b + 0x1_0000 * c + 0x100_0000 * d,
    ensures
        code % 0x100 == a,
        code / 0x100 % 0x100 == b,
        code / 0x1_0000 % 0x100 == c,
        code / 0x100_0000 == d,
{
    assert(code / 0x100 == b + 0x100 * c + 0x1_0000 * d);
    assert(code / 0x1_0000 == c + 0x100 * d);
}

/// A layout with alpha is that without, four numbers on, and the driver's name of it says A
/// for X. Names of layouts that end with alpha tell the bytes from the last to the first.
pub proof fn layouts_have_their_numbers(
    number: u32,
    format: Option<RawFrameFormat>,
    with_alpha: Option<RawFrameFormat>,
    code: Option<u32>,
    code_with_alpha: Option<u32>,
)
    requires
        number < 1_000,
        call_ensures(raw_frame_format_for_video_format, (number,), format),
        call_ensures(raw_frame_format_for_video_format, ((number + 4) as u32,), with_alpha),
        call_ensures(drm_fourcc_for_video_format, (number,), code),
        call_ensures(drm_fourcc_for_video_format, ((number + 4) as u32,), code_with_alpha),
    ensures
        format is Some <==> number == 2 || number == 4 || 7 <= number <= 16,
        code is Some <==> number == 4 || 7 <= number <= 16,
        format == Some(RawFrameFormat::I420) <==> number == 2,
        format == Some(RawFrameFormat::Yuy2) <==> number == 4,
        format == Some(RawFrameFormat::Rgb) <==> number == 15,
        format == Some(RawFrameFormat::Bgr) <==> number == 16,
        format == Some(RawFrameFormat::Rgbx) <==> with_alpha == Some(RawFrameFormat::Rgba),
        format == Some(RawFrameFormat::Bgrx) <==> with_alpha == Some(RawFrameFormat::Bgra),
        format == Some(RawFrameFormat::Xrgb) <==> with_alpha == Some(RawFrameFormat::Argb),
        format == Some(RawFrameFormat::Xbgr) <==> with_alpha == Some(RawFrameFormat::Abgr),
        format == Some(RawFrameFormat::Rgbx) <==> number == 7,
        format == Some(RawFrameFormat::Bgrx) <==> number == 8,
        format == Some(RawFrameFormat::Xrgb) <==> number == 9,
        format == Some(RawFrameFormat::Xbgr) <==> number == 10,
        format == Some(RawFrameFormat::Bgrx) ==> code == Some(0x3432_5258u32),
        format == Some(RawFrameFormat::Rgbx) ==> code == Some(0x3432_4258u32),
        format == Some(RawFrameFormat::Xrgb) ==> code == Some(0x5852_4742u32),
        format == Some(RawFrameFormat::Xbgr) ==> code == Some(0x5842_4752u32),
        format == Some(RawFrameFormat::Rgb) ==> code == Some(0x3432_4752u32),
        format == Some(RawFrameFormat::Bgr) ==> code == Some(0x3432_4742u32),
        format == Some(RawFrameFormat::Yuy2) ==> code == Some(0x5659_5559u32),
        7 <= number <= 8 ==> code_with_alpha->0 == code->0 - 0x17,
        9 <= number <= 10 ==> code_with_alpha->0 == code->0 - 0x1700_0000,
{
}

/// A colour value outside of a byte is moved to its nearest end.
pub proof fn colours_are_held_within_a_byte(value: i32, byte: u8)
    requires
        call_ensures(clamp_u8, (value,), byte),
    ensures
        0 <= value <= 255 ==> byte == value,
        value < 0 ==> byte == 0,
        value > 255 ==> byte == 255,
{
}

/// A format is accepted if it has the size of the chosen source and, where frames are handed
/// to the graphics driver, a name there. It is remembered, and buffers are asked for it.
pub proof fn chosen_sources_are_captured(
    state: &mut CaptureState,
    format: NegotiatedFormat,
    name: &String,
    result: Result<BufferRequest, CaptureError>,
    code: Option<u32>,
    request: BufferRequest,
)
    requires
        call_ensures(CaptureState::negotiated, (state, format, name), result),
        call_ensures(drm_fourcc_for_video_format, (format.number,), code),
        call_ensures(
            buffer_request,
            (format.number, format.width, format.height, format.modifier),
            request,
        ),
    ensures
        result is Ok <==> (format.width, format.height) == (
            old(state).expected_width,
            old(state).expected_height,
        ) && (code is Some || !old(state).imports_frames),
        result matches Ok(asked) ==> asked == request,
        (format.width, format.height) != (old(state).expected_width, old(state).expected_height)
            ==> (result matches Err(CaptureError::UnexpectedSize {
            node_id,
            expected_width,
            expected_height,
            width,
            height,
            imports_frames,
        }) && node_id == old(state).node_id && expected_width == old(state).expected_width
            && expected_height == old(state).expected_height && width == format.width && height
            == format.height && imports_frames == old(state).imports_frames),
        result matches Err(CaptureError::UnsupportedFormat { name: told }) ==> told == *name,
        final(state).format == format,
        final(state).serial == old(state).serial,
        final(state).last_frame_at == old(state).last_frame_at,
{
}

/// A buffer's cursor is sampled and the buffer counted as soon as a format is agreed on, with
/// a cursor or where none is required. Else nothing is counted or sampled, and the capture
/// ends once a required cursor has been missing for five seconds.
pub proof fn buffers_are_sampled_and_counted(
    state: &mut CaptureState,
    metas: &Vec<BufferMeta>,
    now: u64,
    result: Result<Option<(Option<PipewireCursorSample>, Option<CaptureCounts>)>, CaptureError>,
    found: bool,
    update: PipewireCursorUpdate,
    serial: &mut u64,
    last: &mut Option<PipewireCursorState>,
    sample: Option<PipewireCursorSample>,
    meter: &mut CaptureRateMeter,
    counts: Option<CaptureCounts>,
)
    requires
        call_ensures(CaptureState::observe_cursor, (state, metas, now), result),
        call_ensures(pipewire_buffer_has_cursor_meta, (metas,), found),
        call_ensures(pipewire_cursor_update, (metas,), update),
        *old(serial) == old(state).cursor_serial,
        *old(last) == old(state).last_cursor_state,
        call_ensures(
            pipewire_cursor_sample,
            (update, old(state).format.width, old(state).format.height, serial, last),
            sample,
        ),
        *old(meter) == old(state).meter,
        call_ensures(CaptureRateMeter::record, (meter, now, sample is Some), counts),
    ensures
        ({
            let agreed = old(state).format.width > 0 && old(state).format.height > 0;
            let ready = agreed && (found || !old(state).require_cursor_metadata);
            &&& ready <==> (result matches Ok(Some(_)))
            &&& ready ==> (result matches Ok(Some((taken, told))) && sample_view(taken)
                == sample_view(sample) && told == counts)
            &&& ready ==> final(state).meter == *final(meter) && final(state).cursor_serial
                == *final(serial) && state_view(final(state).last_cursor_state) == state_view(
                *final(last),
            )
            &&& !ready ==> final(state).meter == old(state).meter && final(state).cursor_serial
                == old(state).cursor_serial && final(state).last_cursor_state == old(state).last_cursor_state
            &&& !agreed ==> result is Ok && final(state).cursor_missing_since == old(state).cursor_missing_since
            &&& agreed && !ready ==> (result is Err <==> old(state).cursor_missing_since is Some
                && now >= old(state).cursor_missing_since->0 + 5_000_000_000)
            &&& agreed && !ready ==> final(state).cursor_missing_since == (if old(state).cursor_missing_since is None {
                Some(now)
            } else {
                old(state).cursor_missing_since
            })
            &&& agreed && found && old(state).require_cursor_metadata ==> final(state).cursor_missing_since is None && final(state).cursor_verified
        }),
        final(state).format == old(state).format,
        final(state).serial == old(state).serial,
        final(state).pending_damage == old(state).pending_damage,
        final(state).last_frame_at == old(state).last_frame_at,
{
    assert(sample_view(sample) is Some <==> sample is Some);
    if let Ok(Some((taken, told))) = result {
        assert(sample_view(taken) is Some <==> taken is Some);
    }
}

/// Whether it is time for another frame: the first, or one that is not too close to the last.
pub open spec fn is_time(state: CaptureState, now: u64) -> bool {
    match state.last_frame_at {
        None => true,
        Some(last) => state.min_frame_interval == 0 || now >= last + state.min_frame_interval,
    }
}

/// A buffer's damage counts whatever becomes of its frame. A frame that comes too early, or
/// without data, rows or a known layout, is passed over and leaves no trace; any other marks
/// the time.
pub proof fn frames_are_taken_in_time(
    state: &mut CaptureState,
    metas: &Vec<BufferMeta>,
    facts: &BufferFacts,
    now: u64,
    plan: FramePlan,
    damage: Option<bool>,
    pending: &mut AccumulatedFrameDamage,
    format: Option<RawFrameFormat>,
    code: Option<u32>,
)
    requires
        call_ensures(CaptureState::plan_frame, (state, metas, facts, now), plan),
        call_ensures(pipewire_video_damage, (metas,), damage),
        *old(pending) == old(state).pending_damage,
        call_ensures(AccumulatedFrameDamage::observe, (pending, damage), ()),
        call_ensures(raw_frame_format_for_video_format, (old(state).format.number,), format),
        call_ensures(drm_fourcc_for_video_format, (old(state).format.number,), code),
    ensures
        final(state).pending_damage == *final(pending),
        ({
            let usable = facts.has_data && format is Some && facts.stride > 0 && (code is Some
                || !old(state).imports_frames);
            &&& !usable || !is_time(*old(state), now) ==> plan is Skip && final(state).last_frame_at == old(state).last_frame_at && final(state).serial == old(state).serial
            &&& usable && is_time(*old(state), now) && facts.size > 0 ==> final(state).last_frame_at == Some(now)
            &&& !(plan is Skip) ==> final(state).last_frame_at == Some(now)
            &&& !(plan is Skip) && old(state).imports_frames && old(state).serial < u64::MAX
                ==> final(state).serial == old(state).serial + 1
            &&& !old(state).imports_frames ==> final(state).serial == old(state).serial
        }),
        final(state).format == old(state).format,
        final(state).meter == old(state).meter,
        final(state).cursor_serial == old(state).cursor_serial,
{
}

/// Where a frame that is taken stands. Memory of the graphics driver goes to it where frames
/// are handed on, or where the processor cannot read it; mapped memory is read within its
/// bounds, and else the descriptor is mapped. The picture starts where the server says and
/// has as many bytes as the server says, where it says so.
pub proof fn frames_are_taken_from_their_memory(
    state: &mut CaptureState,
    metas: &Vec<BufferMeta>,
    facts: &BufferFacts,
    now: u64,
    plan: FramePlan,
    by_driver: bool,
)
    requires
        call_ensures(CaptureState::plan_frame, (state, metas, facts, now), plan),
        call_ensures(
            dmabuf_requires_gpu_readback,
            (facts.is_dmabuf, facts.mappable, old(state).format.modifier),
            by_driver,
        ),
    ensures
        !(plan is Skip) ==> (plan is Graphics <==> by_driver || (facts.is_dmabuf && old(state).imports_frames)),
        plan is Slice ==> facts.mapped_len is Some,
        plan is Descriptor ==> facts.mapped_len is None,
        plan matches FramePlan::Slice { from, to } ==> from == facts.offset && from <= to
            <= facts.mapped_len->0,
        plan matches FramePlan::Descriptor { offset, size } ==> offset == facts.map_offset
            + facts.offset,
        plan matches FramePlan::Graphics { offset, size } ==> offset == facts.map_offset
            + facts.offset,
        facts.size > 0 && !old(state).imports_frames ==> {
            &&& plan matches FramePlan::Slice { from, to } ==> to - from == facts.size
            &&& plan matches FramePlan::Descriptor { offset, size } ==> size == facts.size
            &&& plan matches FramePlan::Graphics { offset, size } ==> size == facts.size
        },
{
    if !(plan is Skip) {
        let format = crate::pixels::frame_format_of(old(state).format.number)->0;
        crate::capture::lemma_frame_bytes_positive(
            format,
            facts.stride as int,
            old(state).format.width as int,
            old(state).format.height as int,
        );
    }
}

/// A picture of unknown length has the bytes that its rows need, and the graphics driver is
/// handed no less.
pub proof fn whole_pictures_are_taken(
    state: &mut CaptureState,
    metas: &Vec<BufferMeta>,
    facts: &BufferFacts,
    now: u64,
    plan: FramePlan,
    format: Option<RawFrameFormat>,
    needed: Option<usize>,
)
    requires
        call_ensures(CaptureState::plan_frame, (state, metas, facts, now), plan),
        call_ensures(raw_frame_format_for_video_format, (old(state).format.number,), format),
        format is Some,
        facts.stride > 0,
        call_ensures(
            expected_frame_size_from_stride,
            (
                format->0,
                facts.stride as usize,
                old(state).format.width,
                old(state).format.height,
            ),
            needed,
        ),
    ensures
        facts.size == 0 && needed is Some ==> {
            &&& plan matches FramePlan::Slice { from, to } ==> to - from == needed->0
            &&& plan matches FramePlan::Descriptor { offset, size } ==> size == needed->0
            &&& plan matches FramePlan::Graphics { offset, size } ==> size == needed->0
        },
        facts.size == 0 && needed is None && !old(state).imports_frames ==> plan is Skip,
        old(state).imports_frames && facts.is_dmabuf && needed is Some ==> (plan matches
            FramePlan::Graphics { offset, size } ==> size >= needed->0 && size >= facts.size
            && (size == needed->0 || size == facts.size)),
{
    crate::capture::lemma_frame_bytes_positive(
        format->0,
        facts.stride as int,
        old(state).format.width as int,
        old(state).format.height as int,
    );
}

/// A frame that is read has a number of its own and the damage that added up since the last;
/// damage then starts over. A frame that is handed on keeps the number of its plan.
pub proof fn taken_frames_are_numbered(
    state: &mut CaptureState,
    taken: (u64, Option<bool>),
    pending: &mut AccumulatedFrameDamage,
    damage: Option<bool>,
)
    requires
        call_ensures(CaptureState::frame_taken, (state,), taken),
        *old(pending) == old(state).pending_damage,
        call_ensures(AccumulatedFrameDamage::take, (pending,), damage),
    ensures
        taken.1 == damage,
        taken.0 == final(state).serial,
        !old(state).imports_frames ==> taken.0 != old(state).serial,
        !old(state).imports_frames && old(state).serial < u64::MAX ==> taken.0 == old(state).serial
            + 1,
        old(state).imports_frames ==> taken.0 == old(state).serial,
        final(state).pending_damage == *final(pending),
        final(state).last_frame_at == old(state).last_frame_at,
        final(state).format == old(state).format,
{
}

/// A frame that could not be read ends a capture whose frames are read here; frames that are
/// handed on, or were passed over, do not.
pub proof fn unread_frames_end_the_capture(
    state: &CaptureState,
    plan: &FramePlan,
    reason: &String,
    error: Option<CaptureError>,
)
    requires
        call_ensures(CaptureState::frame_unread, (state, plan, reason), error),
    ensures
        error is Some <==> !state.imports_frames && (*plan is Graphics || *plan is Descriptor),
        error matches Some(error) ==> (*plan is Graphics ==> error == (
        CaptureError::ReadbackFailed { node_id: state.node_id, reason: *reason })) && (*plan
            is Descriptor ==> error == (CaptureError::UnreadableMemory { node_id: state.node_id })),
{
}

/// A publisher that waits takes each frame once, as soon as it is there, even late. It waits
/// no longer than until its deadline, and a failure ends the waiting first.
pub proof fn frames_are_waited_for(
    feed: &mut FrameFeed,
    failed: bool,
    newest: Option<u64>,
    now: u64,
    deadline: u64,
    step: WaitStep,
)
    requires
        call_ensures(FrameFeed::step, (feed, failed, newest, now, deadline), step),
    ensures
        step is Fail <==> failed,
        step is Take <==> !failed && newest is Some && newest != Some(old(feed).last_serial),
        step is Take ==> newest == Some(final(feed).last_serial),
        !(step is Take) ==> *final(feed) == *old(feed),
        step is TimedOut ==> now >= deadline,
        step matches WaitStep::Wait { remaining } ==> now + remaining == deadline && remaining > 0,
{
}

/// A capture thread is started once it can be stopped, failed if it says so first, and given
/// up at the deadline.
pub proof fn captures_start_in_time(
    failed: bool,
    stoppable: bool,
    now: u64,
    deadline: u64,
    step: StartStep,
)
    requires
        call_ensures(start_step, (failed, stoppable, now, deadline), step),
    ensures
        step is Failed <==> failed,
        step is Started <==> stoppable && !failed,
        step is TimedOut || step is Wait <==> !failed && !stoppable,
        step is TimedOut ==> now >= deadline,
        step is Wait ==> now < deadline,
{
}

/// A stream connects to its node unless its target is named.
pub proof fn streams_connect_to_their_node(
    by_target: bool,
    has_target: bool,
    node_id: u32,
    node: Option<u32>,
)
    requires
        call_ensures(connect_node, (by_target, has_target, node_id), node),
    ensures
        node is None <==> by_target && has_target,
        node matches Some(node) ==> node == node_id,
{
}

/// The greatest common divisor divides both numbers, and whatever divides both divides it.
pub proof fn divisors_are_greatest(a: u32, b: u32, divisor: u32, other: nat)
    requires
        call_ensures(gcd, (a, b), divisor),
        a > 0 || b > 0,
        other > 0,
        a as nat % other == 0,
        b as nat % other == 0,
    ensures
        divisor > 0,
        a % divisor == 0,
        b % divisor == 0,
        divisor as nat % other == 0,
{
    crate::formats::common_divisor_is_greatest(a as nat, b as nat);
}

/// A frame rate is handed on as a fraction of the same value: thousandths over a thousand.
pub proof fn rates_keep_their_value(thousandths: u32, fraction: (u32, u32))
    requires
        call_ensures(fps_fraction, (thousandths,), fraction),
    ensures
        fraction.1 > 0,
        fraction.0 * 1_000 == thousandths * fraction.1,
        1_000int % fraction.1 as int == 0,
{
    let g = crate::formats::gcd_of(thousandths as nat, 1000) as int;
    crate::formats::common_divisor_is_greatest(thousandths as nat, 1000);
    let q = fraction.1 as int;
    assert(1_000int == g * q + 1_000int % g) by {
        vstd::arithmetic::div_mod::lemma_fundamental_div_mod(1_000, g);
    }
    assert(1_000int % q == 0) by {
        vstd::arithmetic::div_mod::lemma_mod_multiples_basic(g, q);
    }
}

/// Cursor metadata has room for the words in front of the image and four bytes for each of
/// its pixels: it grows with the image by four times the square of its side.
pub proof fn cursor_metadata_has_room(side: usize, size: i32, request: MetaRequest, damage: MetaRequest)
    requires
        call_ensures(pipewire_cursor_meta_size, (side,), size),
        call_ensures(cursor_meta_request, (), request),
        call_ensures(damage_meta_request, (), damage),
    ensures
        side <= 23_000 ==> size == 28 + 20 + 4 * (side * side),
        size >= 48,
        request.kind == 5,
        request.size == 48 + 4 * 64 * 64,
        request.range == Some((52i32, 589_872i32)),
        damage.kind == 3,
        damage.size == 256,
        damage.range is None,
{
    let s = side as int;
    assert(4 * s * s == 4 * (s * s)) by (nonlinear_arith);
    assert(s * s <= 23_000 * 23_000 || s > 23_000) by (nonlinear_arith)
        requires
            s >= 0,
    ;
    assert(4 * s * s >= 0) by (nonlinear_arith)
        requires
            s >= 0,
    ;
}

/// A server's memory layouts are read in their order, the default of several alternatives
/// last, and bit by bit: a negative number stands for the one that is two to the sixty-fourth
/// larger.
pub proof fn layouts_are_read_in_order(choice: &ModifierChoice, values: Vec<u64>, i: int)
    requires
        call_ensures(modifier_values_from_choice, (choice,), values),
        0 <= i < values@.len(),
    ensures
        ({
            let given = match *choice {
                ModifierChoice::Single(value) => seq![value],
                ModifierChoice::Range { default, min, max } => seq![default, min, max],
                ModifierChoice::Alternatives { default, others } => others@ + seq![default],
                ModifierChoice::Other => Seq::empty(),
            };
            &&& values@.len() == given.len()
            &&& given[i] >= 0 ==> values@[i] == given[i]
            &&& given[i] < 0 ==> values@[i] - 0x1_0000_0000_0000_0000 == given[i]
        }),
{
}

/// The memory layout without tiling is preferred wherever it is offered. Else it is the first
/// that is named, and the one that is not named only where there is no other.
pub proof fn plain_layouts_are_preferred(modifiers: &[u64], modifier: Option<u64>, at: int)
    requires
        call_ensures(preferred_safe_readback_modifier_from_values, (modifiers,), modifier),
        0 <= at < modifiers@.len(),
    ensures
        modifier matches Some(picked) && modifiers@.contains(picked),
        modifiers@[at] == 0 ==> modifier == Some(0u64),
        modifier == Some(0x00ff_ffff_ffff_ffffu64) ==> modifiers@[at] == 0x00ff_ffff_ffff_ffff,
        (forall|k: int| 0 <= k < modifiers@.len() ==> #[trigger] modifiers@[k] != 0) && (forall|
            k: int,
        |
            0 <= k < at ==> #[trigger] modifiers@[k] == 0x00ff_ffff_ffff_ffff) && modifiers@[at]
            != 0x00ff_ffff_ffff_ffff ==> modifier == Some(modifiers@[at]),
{
    let named = crate::formats::explicit();
    crate::order::lemma_first_where_means(modifiers@, named);
    let first = crate::order::first_where(modifiers@, named);
    if first >= modifiers@.len() {
        assert forall|k: int| 0 <= k < modifiers@.len() implies #[trigger] modifiers@[k]
            == 0x00ff_ffff_ffff_ffff by {
            assert(!named(modifiers@[k]));
        }
        assert(modifiers@[0] == 0x00ff_ffff_ffff_ffff);
    } else {
        assert(named(modifiers@[first]));
    }
    if forall|k: int| 0 <= k < at ==> #[trigger] modifiers@[k] == 0x00ff_ffff_ffff_ffff {
        if modifiers@[at] != 0x00ff_ffff_ffff_ffff {
            if first < at {
                assert(modifiers@[first] == 0x00ff_ffff_ffff_ffff);
            }
            if at < first {
                assert(!named(modifiers@[at]));
            }
        }
    }
}

/// Graphics memory is read by the processor only if it can be mapped and is not tiled.
pub proof fn tiled_memory_needs_the_driver(
    is_dmabuf: bool,
    mappable: bool,
    modifier: u64,
    required: bool,
    flags: u32,
    flagged: bool,
)
    requires
        call_ensures(dmabuf_requires_gpu_readback, (is_dmabuf, mappable, modifier), required),
        call_ensures(data_is_mappable, (flags,), flagged),
    ensures
        !required <==> !is_dmabuf || (mappable && modifier == 0),
        flagged <==> flags & 8 != 0,
{
    assert((flags / 8) % 2 == 1 <==> flags & 8 != 0) by (bit_vector);
}

/// Whether a format is readable: raw video of a known layout, of a size, and of some memory
/// layout where it speaks of any.
pub open spec fn can_be_read(format: AdvertisedFormat) -> bool {
    &&& format.is_raw_video && format.width > 0 && format.height > 0
    &&& format.number == 2 || format.number == 4 || 7 <= format.number <= 16
    &&& format.modifiers is None || format.modifiers->0@.len() > 0
}

/// Whether an offer is of a format, in shared memory or in a memory layout of the format's.
pub open spec fn offers(offer: FormatOffer, format: AdvertisedFormat) -> bool {
    &&& offer.number == format.number
    &&& offer.width == format.width
    &&& offer.height == format.height
    &&& offer.modifier matches Some(modifier) ==> format.modifiers is Some
        && format.modifiers->0@.contains(modifier)
}

proof fn lemma_offers(formats: Seq<AdvertisedFormat>, j: int)
    requires
        0 <= j < offers_of(formats).len(),
    ensures
        exists|i: int|
            0 <= i < formats.len() && is_readable(#[trigger] formats[i]) && offers(
                offers_of(formats)[j],
                formats[i],
            ),
    decreases formats.len(),
{
    let rest = formats.drop_last();
    let before = offers_of(rest);
    if j < before.len() {
        lemma_offers(rest, j);
        let i = choose|i: int|
            0 <= i < rest.len() && is_readable(#[trigger] rest[i]) && offers(before[j], rest[i]);
        assert(formats[i] == rest[i]);
    } else {
        let last = formats[formats.len() - 1];
        assert(last == formats.last());
        assert(is_readable(last));
        if last.modifiers is Some {
            let modifiers = last.modifiers->0@;
            let named = crate::formats::explicit();
            crate::order::lemma_first_where_means(modifiers, named);
            if crate::order::first_where(modifiers, named) >= modifiers.len() {
                assert(!named(modifiers[0]));
                assert(modifiers[0] == 0x00ff_ffff_ffff_ffff);
            }
            assert(modifiers.contains(crate::formats::picked(last)->0));
        }
        assert(offers(offers_of(formats)[j], last));
    }
}

proof fn lemma_offered(formats: Seq<AdvertisedFormat>, i: int)
    requires
        0 <= i < formats.len(),
        is_readable(formats[i]),
    ensures
        exists|j: int|
            {
                &&& 0 <= j < offers_of(formats).len()
                &&& #[trigger] offers_of(formats)[j] == crate::formats::plain_offer(formats[i])
                &&& formats[i].modifiers is Some ==> j + 1 < offers_of(formats).len() && offers_of(
                    formats,
                )[j + 1] == (FormatOffer {
                    modifier: crate::formats::picked(formats[i]),
                    ..crate::formats::plain_offer(formats[i])
                })
            },
    decreases formats.len(),
{
    let rest = formats.drop_last();
    let before = offers_of(rest);
    let all = offers_of(formats);
    if i < rest.len() {
        assert(rest[i] == formats[i]);
        lemma_offered(rest, i);
        let j = choose|j: int|
            {
                &&& 0 <= j < before.len()
                &&& #[trigger] before[j] == crate::formats::plain_offer(rest[i])
                &&& rest[i].modifiers is Some ==> j + 1 < before.len() && before[j + 1] == (
                FormatOffer {
                    modifier: crate::formats::picked(rest[i]),
                    ..crate::formats::plain_offer(rest[i])
                })
            };
        assert(all[j] == before[j]);
        if rest[i].modifiers is Some {
            assert(all[j + 1] == before[j + 1]);
        }
    } else {
        let last = formats.last();
        assert(all[before.len() as int] == crate::formats::plain_offer(last));
        if last.modifiers is Some {
            assert(all[before.len() as int + 1] == (FormatOffer {
                modifier: crate::formats::picked(last),
                ..crate::formats::plain_offer(last)
            }));
        }
    }
}

/// Every readable format is offered in shared memory and, where it names memory layouts,
/// right behind in the preferred one.
pub proof fn readable_formats_are_offered(
    formats: &Vec<AdvertisedFormat>,
    result: Vec<FormatOffer>,
    i: int,
    modifiers: &[u64],
    preferred: Option<u64>,
)
    requires
        call_ensures(format_offers, (formats,), result),
        0 <= i < formats@.len(),
        can_be_read(formats@[i]),
        formats@[i].modifiers matches Some(named) ==> modifiers@ == named@ && call_ensures(
            preferred_safe_readback_modifier_from_values,
            (modifiers,),
            preferred,
        ),
    ensures
        exists|j: int|
            {
                &&& 0 <= j < result@.len()
                &&& offers(#[trigger] result@[j], formats@[i])
                &&& result@[j].modifier is None
                &&& formats@[i].modifiers is Some ==> j + 1 < result@.len() && offers(
                    result@[j + 1],
                    formats@[i],
                ) && result@[j + 1].modifier == preferred && preferred is Some
            },
{
    let format = formats@[i];
    assert(is_readable(format));
    lemma_offered(formats@, i);
    let j = choose|j: int|
        {
            &&& 0 <= j < offers_of(formats@).len()
            &&& #[trigger] offers_of(formats@)[j] == crate::formats::plain_offer(format)
            &&& format.modifiers is Some ==> j + 1 < offers_of(formats@).len() && offers_of(
                formats@,
            )[j + 1] == (FormatOffer {
                modifier: crate::formats::picked(format),
                ..crate::formats::plain_offer(format)
            })
        };
    assert(offers(result@[j], format));
    if format.modifiers is Some {
        plain_layouts_are_preferred(modifiers, preferred, 0);
        assert(result@[j + 1].modifier == preferred);
    }
}

/// Nothing else is offered: each offer is of a readable format that was advertised, in a
/// memory layout that it names.
pub proof fn only_readable_formats_are_offered(
    formats: &Vec<AdvertisedFormat>,
    result: Vec<FormatOffer>,
    j: int,
)
    requires
        call_ensures(format_offers, (formats,), result),
        0 <= j < result@.len(),
    ensures
        exists|i: int|
            0 <= i < formats@.len() && can_be_read(#[trigger] formats@[i]) && offers(
                result@[j],
                formats@[i],
            ),
{
    lemma_offers(formats@, j);
    let i = choose|i: int|
        0 <= i < formats@.len() && is_readable(#[trigger] formats@[i]) && offers(
            offers_of(formats@)[j],
            formats@[i],
        );
    assert(can_be_read(formats@[i]));
}

/// Whether a format can be handed to the graphics driver: raw video of a layout that the
/// driver has a name for.
pub open spec fn can_be_imported(format: AdvertisedFormat) -> bool {
    format.is_raw_video && (format.number == 4 || 7 <= format.number <= 16)
}

proof fn lemma_importable(formats: Seq<AdvertisedFormat>, i: int)
    ensures
        importable(formats).contains(i) <==> 0 <= i < formats.len() && can_be_imported(formats[i]),
        forall|a: int, b: int|
            0 <= a < b < importable(formats).len() ==> #[trigger] importable(formats)[a]
                < #[trigger] importable(formats)[b],
        forall|a: int| 0 <= a < importable(formats).len() ==> 0 <= #[trigger] importable(formats)[a]
            < formats.len(),
    decreases formats.len(),
{
    if formats.len() > 0 {
        let rest = formats.drop_last();
        lemma_importable(rest, i);
        let before = importable(rest);
        let all = importable(formats);
        if before.contains(i) {
            let k = choose|k: int| 0 <= k < before.len() && before[k] == i;
            assert(all[k] == i);
        }
        if all.contains(i) && i != formats.len() - 1 {
            let k = choose|k: int| 0 <= k < all.len() && all[k] == i;
            assert(before[k] == i);
        }
        if i == formats.len() - 1 {
            if crate::formats::is_importable(formats.last()) {
                assert(all[all.len() - 1] == i);
            } else if all.contains(i) {
                let k = choose|k: int| 0 <= k < all.len() && all[k] == i;
                assert(before[k] < rest.len());
            }
        }
        assert forall|a: int, b: int| 0 <= a < b < all.len() implies #[trigger] all[a]
            < #[trigger] all[b] by {
            assert(all[a] == before[a]);
            if b < before.len() {
                assert(all[b] == before[b]);
            }
        }
        assert forall|a: int| 0 <= a < all.len() implies 0 <= #[trigger] all[a]
            < formats.len() by {
            if a < before.len() {
                assert(all[a] == before[a]);
            }
        }
    }
}

/// What goes to the graphics driver is asked for as it was advertised: every format that can
/// be imported, each once and in its order, or else anything.
pub proof fn importable_formats_are_asked_for(
    formats: &Vec<AdvertisedFormat>,
    positions: Vec<usize>,
    width: u32,
    height: u32,
    thousandths: u32,
    requests: VideoFormatRequests,
    i: int,
)
    requires
        call_ensures(importable_formats, (formats,), positions),
        call_ensures(video_format_requests, (formats, width, height, thousandths), requests),
        0 <= i < formats@.len(),
    ensures
        (exists|k: int| 0 <= k < positions@.len() && #[trigger] positions@[k] == i)
            <==> can_be_imported(formats@[i]),
        forall|a: int, b: int|
            0 <= a < b < positions@.len() ==> #[trigger] positions@[a] < #[trigger] positions@[b],
        requests is Default <==> positions@.len() == 0,
        requests matches VideoFormatRequests::Advertised(asked) ==> asked@ == positions@,
{
    lemma_importable(formats@, i);
    let all = importable(formats@);
    let mapped = positions@.map_values(|at: usize| at as int);
    assert forall|k: int| 0 <= k < positions@.len() implies #[trigger] positions@[k] as int
        == all[k] by {
        assert(mapped[k] == positions@[k] as int);
    }
    if can_be_imported(formats@[i]) {
        let k = choose|k: int| 0 <= k < all.len() && all[k] == i;
        assert(mapped[k] == i);
        assert(positions@[k] == i);
    }
    if exists|k: int| 0 <= k < positions@.len() && #[trigger] positions@[k] == i {
        let k = choose|k: int| 0 <= k < positions@.len() && #[trigger] positions@[k] == i;
        assert(all[k] == i);
        assert(all.contains(i));
    }
    assert forall|a: int, b: int| 0 <= a < b < positions@.len() implies #[trigger] positions@[a]
        < #[trigger] positions@[b] by {
        assert(all[a] < all[b]);
    }
    if let VideoFormatRequests::Advertised(asked) = requests {
        let other = asked@.map_values(|at: usize| at as int);
        assert forall|k: int| 0 <= k < positions@.len() implies asked@[k] == positions@[k] by {
            assert(other[k] == asked@[k] as int);
        }
        assert(asked@ =~= positions@);
    }
}

/// What is asked of a server: each offer as it is, a pixel at least on each side, or anything
/// that can be read where there is no offer, always at the rate that is wanted.
pub proof fn offers_are_asked_for(
    formats: &Vec<AdvertisedFormat>,
    width: u32,
    height: u32,
    thousandths: u32,
    result: Vec<FormatOffer>,
    requests: Vec<FormatRequest>,
    anything: FormatRequest,
    rate: (u32, u32),
)
    requires
        call_ensures(format_offers, (formats,), result),
        call_ensures(format_requests, (formats, width, height, thousandths), requests),
        call_ensures(default_format_request, (width, height, thousandths), anything),
        call_ensures(fps_fraction, (thousandths,), rate),
    ensures
        requests@.len() == if result@.len() == 0 {
            1
        } else {
            result@.len()
        },
        forall|i: int|
            0 <= i < result@.len() ==> {
                &&& (#[trigger] requests@[i]).numbers@ == seq![result@[i].number]
                &&& result@[i].width > 0 ==> requests@[i].width == result@[i].width
                &&& result@[i].height > 0 ==> requests@[i].height == result@[i].height
                &&& !requests@[i].any_size
                &&& requests@[i].modifier == result@[i].modifier
                &&& requests@[i].rate == rate
            },
        result@.len() == 0 ==> {
            &&& requests@[0].any_size && requests@[0].modifier is None
            &&& requests@[0].numbers@ == anything.numbers@
            &&& requests@[0].width == anything.width
            &&& requests@[0].height == anything.height
            &&& requests@[0].rate == rate
        },
        anything.any_size && anything.modifier is None && anything.rate == rate,
        width > 0 ==> anything.width == width,
        height > 0 ==> anything.height == height,
        width == 0 ==> anything.width == 1,
        height == 0 ==> anything.height == 1,
        forall|number: u32| #[trigger]
            anything.numbers@.contains(number) <==> number == 2 || number == 4 || 7 <= number
                <= 16,
{
    assert forall|i: int| 0 <= i < result@.len() implies {
        &&& (#[trigger] requests@[i]).numbers@ == seq![result@[i].number]
        &&& result@[i].width > 0 ==> requests@[i].width == result@[i].width
        &&& result@[i].height > 0 ==> requests@[i].height == result@[i].height
        &&& !requests@[i].any_size
        &&& requests@[i].modifier == result@[i].modifier
        &&& requests@[i].rate == rate
    } by {
        assert(crate::formats::asks_for(requests@[i], offers_of(formats@)[i]));
    }
    let numbers = anything.numbers@;
    assert(numbers == seq![15u32, 15, 16, 11, 12, 7, 8, 9, 10, 13, 14, 4, 2]);
    assert(numbers[1] == 15 && numbers[2] == 16 && numbers[3] == 11 && numbers[4] == 12 && numbers[5]
        == 7 && numbers[6] == 8 && numbers[7] == 9 && numbers[8] == 10 && numbers[9] == 13
        && numbers[10] == 14 && numbers[11] == 4 && numbers[12] == 2);
}

/// Buffers are asked for by the bytes that a frame needs, in shared memory where it can be
/// read without tiling, and of the graphics driver alone for any other layout.
pub proof fn buffers_have_room_for_a_frame(
    number: u32,
    width: u32,
    height: u32,
    modifier: u64,
    request: BufferRequest,
    stride: Option<u32>,
    size: Option<u32>,
)
    requires
        call_ensures(buffer_request, (number, width, height, modifier), request),
        call_ensures(expected_frame_stride, (number, width), stride),
        call_ensures(expected_frame_size, (number, width, height), size),
    ensures
        stride matches Some(stride) ==> request.stride == stride,
        stride is None && width <= 0x3fff_ffff ==> request.stride == 4 * width,
        size matches Some(size) ==> request.size == size,
        size is None && request.stride > 0 && height > 0 && request.stride * height <= i32::MAX
            ==> request.size == request.stride * height,
        size is None ==> 0 < request.size <= i32::MAX,
        modifier == 0 ==> request.preferred_memory == 4 && request.accepted_memory == 4 + 2 + 8,
        modifier != 0 ==> request.preferred_memory == 8 && request.accepted_memory == 8,
{
    let a = crate::formats::one_at_least(request.stride);
    let b = crate::formats::one_at_least(height);
    assert(a * b >= 1) by (nonlinear_arith)
        requires
            a >= 1,
            b >= 1,
    ;
}

/// A slice of a descriptor's memory is mapped by whole pages: they start at a multiple of the
/// page size, no more than a page before the slice, and reach to its end. What lies beyond
/// the memory that the system reports is refused.
pub proof fn slices_are_mapped_by_pages(
    fd: i32,
    offset: usize,
    size: usize,
    extent: Option<usize>,
    page_size: i64,
    plan: MapPlan,
)
    requires
        call_ensures(map_plan, (fd, offset, size, extent, page_size), plan),
    ensures
        plan is Empty <==> fd >= 0 && size == 0,
        plan matches MapPlan::Pages { offset: start, length, delta } ==> {
            &&& start + delta == offset
            &&& start + length == offset + size
            &&& 0 < page_size <= usize::MAX ==> start as int % page_size as int == 0 && delta < page_size
            &&& page_size <= 0 ==> start % 4096 == 0 && delta < 4096
        },
        plan is Refused ==> fd < 0 || offset + size > usize::MAX || offset > i64::MAX || (extent is Some && 0 < extent->0
            < offset + size),
        fd < 0 ==> plan is Refused,
        size > 0 && extent is Some && 0 < extent->0 < offset + size ==> plan is Refused,
{
    let page: int = if page_size > 0 && page_size <= usize::MAX {
        page_size as int
    } else {
        4096
    };
    vstd::arithmetic::div_mod::lemma_fundamental_div_mod(offset as int, page);
    let times = offset as int / page;
    let delta = offset as int % page;
    assert(offset - delta == times * page) by (nonlinear_arith)
        requires
            offset as int == page * times + delta,
    ;
    vstd::arithmetic::div_mod::lemma_mod_multiples_basic(times, page);
    assert((offset - delta) % page == 0);
}

/// A window is reported by the first buffer that comes five seconds after it began, with what
/// it counted, that buffer too; then the next begins. Until then each buffer adds one, and
/// each cursor sample too.
pub proof fn windows_last_five_seconds(
    meter: &mut CaptureRateMeter,
    now: u64,
    cursor_changed: bool,
    counts: Option<CaptureCounts>,
    started: CaptureRateMeter,
    reported: &mut CaptureRateMeter,
    same: Option<CaptureCounts>,
)
    requires
        call_ensures(CaptureRateMeter::record, (meter, now, cursor_changed), counts),
        call_ensures(CaptureRateMeter::new, (now,), started),
        *old(reported) == *old(meter),
        call_ensures(report_capture_rate, (reported, now, cursor_changed), same),
        old(meter).buffers < u32::MAX && old(meter).cursor_samples < u32::MAX,
    ensures
        same == counts && *final(reported) == *final(meter),
        counts is Some <==> now >= old(meter).window_started + 5_000_000_000,
        ({
            let pause = match old(meter).last_cursor_sample {
                Some(before) if cursor_changed && now - before > old(meter).max_cursor_gap => (now
                    - before) as u64,
                _ => old(meter).max_cursor_gap,
            };
            let samples = old(meter).cursor_samples + if cursor_changed {
                1int
            } else {
                0
            };
            &&& counts matches Some(counts) ==> {
                &&& counts.buffers == old(meter).buffers + 1
                &&& counts.cursor_samples == samples
                &&& counts.elapsed == now - old(meter).window_started
                &&& counts.max_cursor_gap == pause
                &&& final(meter).window_started == now
                &&& final(meter).buffers == 0 && final(meter).cursor_samples == 0
                &&& final(meter).max_cursor_gap == 0
            }
            &&& counts is None ==> {
                &&& final(meter).window_started == old(meter).window_started
                &&& final(meter).buffers == old(meter).buffers + 1
                &&& final(meter).cursor_samples == samples
                &&& final(meter).max_cursor_gap == pause
            }
            &&& final(meter).last_cursor_sample == if cursor_changed {
                Some(now)
            } else {
                old(meter).last_cursor_sample
            }
        }),
        started.window_started == now && started.buffers == 0 && started.cursor_samples == 0
            && started.last_cursor_sample is None && started.max_cursor_gap == 0,
{
}

proof fn lemma_pattern_row(mode: TestPatternMode, tick: u32, y: int, columns: int, x: int, k: int)
    requires
        0 <= x < columns,
        0 <= k < 3,
    ensures
        pattern_row(mode, tick, y, columns).len() == 3 * columns,
        pattern_row(mode, tick, y, columns)[3 * x + k] == crate::test_pattern::pattern_pixel(
            mode,
            tick,
            x as u32,
            y as u32,
        )[k],
    decreases columns,
{
    if columns > 1 {
        lemma_pattern_row(mode, tick, y, columns - 1, if x < columns - 1 { x } else { 0 }, k);
    } else {
        assert(pattern_row(mode, tick, y, 0).len() == 0);
    }
}

proof fn lemma_pattern_rows(
    mode: TestPatternMode,
    tick: u32,
    width: u32,
    rows: int,
    x: int,
    y: int,
    k: int,
)
    requires
        0 <= x < width,
        0 <= y < rows,
        0 <= k < 3,
    ensures
        pattern_rows(mode, tick, width, rows).len() == rows * (3 * width),
        0 <= y * (3 * width) + (3 * x + k) < rows * (3 * width),
        pattern_rows(mode, tick, width, rows)[y * (3 * width) + (3 * x + k)]
            == crate::test_pattern::pattern_pixel(mode, tick, x as u32, y as u32)[k],
    decreases rows,
{
    let w = width as int;
    lemma_pattern_row(mode, tick, rows - 1, w, x, k);
    if rows > 1 {
        lemma_pattern_rows(mode, tick, width, rows - 1, x, if y < rows - 1 { y } else { 0 }, k);
    } else {
        assert(pattern_rows(mode, tick, width, 0).len() == 0);
        assert(0 * (3 * w) == 0);
    }
    assert((rows - 1) * (3 * w) + 3 * w == rows * (3 * w)) by (nonlinear_arith);
    assert(y * (3 * w) >= 0 && (y <= rows - 2 ==> y * (3 * w) + 3 * w <= (rows - 1) * (3 * w)))
        by (nonlinear_arith)
        requires
            y >= 0,
            w >= 0,
    ;
}

/// A made-up picture is made pixel by pixel, row by row, of the next number.
pub proof fn patterns_are_made_pixel_by_pixel(
    capture: &mut TestPatternCapture,
    image: RgbImage,
    x: u32,
    y: u32,
    k: int,
    rgb: [u8; 3],
)
    requires
        call_ensures(TestPatternCapture::next_rgb, (capture,), image),
        x < old(capture).width,
        y < old(capture).height,
        0 <= k < 3,
        call_ensures(test_pattern_pixel, (old(capture).mode, final(capture).tick, x, y), rgb),
    ensures
        image.width == old(capture).width && image.height == old(capture).height,
        image.pixels@.len() == 3 * (image.width * image.height),
        image.pixels@[3 * (y * image.width + x) + k] == rgb@[k],
        old(capture).tick < u32::MAX ==> final(capture).tick == old(capture).tick + 1,
        final(capture).width == old(capture).width && final(capture).height == old(capture).height
            && final(capture).mode == old(capture).mode,
{
    let w = old(capture).width as int;
    let h = old(capture).height as int;
    lemma_pattern_rows(
        old(capture).mode,
        final(capture).tick,
        old(capture).width,
        h,
        x as int,
        y as int,
        k,
    );
    let (xi, yi) = (x as int, y as int);
    assert(yi * (3 * w) + (3 * xi + k) == 3 * (yi * w + xi) + k) by (nonlinear_arith);
    assert(h * (3 * w) == 3 * (w * h)) by (nonlinear_arith);
}

/// Typing adds a block of 24 pixels every fourth picture, on the line from 64 to 87; nothing
/// else changes. A still picture is the same at every number.
pub proof fn patterns_move_as_they_say(
    tick: u32,
    x: u32,
    y: u32,
    typed: [u8; 3],
    still: [u8; 3],
    later: [u8; 3],
)
    requires
        tick < 1_000_000,
        x < 1_000_000,
        y < 1_000_000,
        call_ensures(test_pattern_pixel, (TestPatternMode::Typing, tick, x, y), typed),
        call_ensures(test_pattern_pixel, (TestPatternMode::Static, tick, x, y), still),
        call_ensures(test_pattern_pixel, (TestPatternMode::Static, 0u32, x, y), later),
    ensures
        typed@ == seq![235u8, 235u8, 225u8] <==> 64 <= y <= 87 && 64 <= x && x < 64 + 24 * (tick
            / 4),
        typed@ != seq![235u8, 235u8, 225u8] ==> typed@ == seq![24u8, 28u8, 34u8],
        still@ == later@,
        still@[0] as int == x as int % 251,
        still@[1] as int == y as int % 241,
{
    assert(seq![24u8, 28u8, 34u8][0] != seq![235u8, 235u8, 225u8][0]);
}

/// A moving picture shifts by 17 to the left and 29 up with each number, its third colour by
/// 11; a scrolling one by 12 up.
pub proof fn moving_patterns_shift(
    tick: u32,
    x: u32,
    y: u32,
    motion: [u8; 3],
    moved: [u8; 3],
    scroll: [u8; 3],
    scrolled: [u8; 3],
)
    requires
        tick < 1_000_000,
        x < 1_000_000,
        y < 1_000_000,
        call_ensures(test_pattern_pixel, (TestPatternMode::Motion, tick, x, y), motion),
        call_ensures(
            test_pattern_pixel,
            (
                TestPatternMode::Motion,
                0u32,
                (x + 17 * tick) as u32,
                (y + 29 * tick) as u32,
            ),
            moved,
        ),
        call_ensures(test_pattern_pixel, (TestPatternMode::Scroll, tick, x, y), scroll),
        call_ensures(
            test_pattern_pixel,
            (TestPatternMode::Scroll, 0u32, x, (y + 12 * tick) as u32),
            scrolled,
        ),
    ensures
        motion@[0] == moved@[0],
        motion@[1] == moved@[1],
        motion@[2] as int == (x / 8 + y / 8 + 11 * tick) as int % 255,
        scroll@ == scrolled@,
        scroll@[0] == 40 + 35 * ((y + 12 * tick) / 48 % 4),
        scroll@[2] == 90 + 25 * ((y + 12 * tick) / 48 % 4),
        scroll@[1] as int == (x / 8 + 17 * ((y + 12 * tick) / 48 % 4)) as int % 255,
{
    assert(scroll@ =~= scrolled@);
}

/// The made-up cursor shows for twenty of every thirty events.
pub proof fn pattern_cursors_come_and_go(sequence: u64, visible: bool, later: bool)
    requires
        sequence <= u64::MAX - 30,
        call_ensures(test_pattern_cursor_visible, (sequence,), visible),
        call_ensures(test_pattern_cursor_visible, ((sequence + 30) as u64,), later),
    ensures
        visible == later,
        sequence < 20 ==> visible,
        20 <= sequence < 30 ==> !visible,
{
}

} // verus!

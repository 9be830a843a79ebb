use glacialcast::capture::{
    capture_backend_name, connect_node, start_step, BufferFacts, CaptureError, CaptureState,
    FrameFeed, FramePlan, NegotiatedFormat, StartStep, WaitStep,
};
use glacialcast::client::is_fatal_capture_error;
use glacialcast::cursor::{
    clamped_cursor_position, cursor_to_dash_event, frame_change_from_damage,
    pipewire_cursor_metadata_gate, pipewire_cursor_sample, AccumulatedFrameDamage, CursorBatch,
    CursorError, CursorFeed, DashCursorEvent, DashCursorBitmapState, PipewireCursorMetadataGate,
    CURSOR_BITMAP_REFRESH_TICKS, CURSOR_METADATA_GRACE_NANOS,
};
use glacialcast::cursor_meta::{
    cursor_pixel_as_rgba, inspect_metas_once, pipewire_buffer_has_cursor_meta,
    pipewire_buffer_meta_summary, pipewire_cursor_bitmap, pipewire_cursor_update,
    pipewire_video_damage, BufferMeta, CursorBitmap, MetaData, PipewireCursorUpdate,
    CURSOR_MAX_BITMAP_SIDE, META_CURSOR, META_VIDEO_DAMAGE,
};
use glacialcast::dash::{frame_changed, FrameChange};
use glacialcast::formats::{
    buffer_request, cursor_meta_request, damage_meta_request, data_is_mappable,
    dmabuf_requires_gpu_readback, format_offers,
    format_requests, fps_fraction, gcd, importable_formats, map_plan,
    modifier_values_from_choice, pipewire_cursor_meta_size,
    preferred_safe_readback_modifier_from_values, video_format_requests, AdvertisedFormat,
    FormatOffer, MapPlan, MetaRequest, ModifierChoice, VideoFormatRequests, CURSOR_DEFAULT_BITMAP_SIDE, CURSOR_MIN_BITMAP_SIDE,
    CURSOR_NEGOTIATED_MAX_BITMAP_SIDE, DRM_FORMAT_MOD_INVALID,
    DRM_FORMAT_MOD_LINEAR, MEMORY_GRAPHICS, MEMORY_POINTER, MEMORY_SHARED,
};
use glacialcast::meter::{report_capture_rate, CaptureRateMeter, CAPTURE_RATE_WINDOW_NANOS};
use glacialcast::pixels::{
    clamp_u8, drm_fourcc, drm_fourcc_for_video_format, drm_fourcc_name, expected_frame_size,
    expected_frame_size_from_stride, expected_frame_stride, packed_rgb, raw_frame_to_rgb_image,
    raw_pixel_rgb, resize_rgb_image_to_fit, yuv_to_rgb, RawFrame, RawFrameFormat, RgbImage,
};
use glacialcast::startup::ScreenCastBackend;
use glacialcast::test_pattern::{
    test_pattern_cursor_visible, test_pattern_pixel, TestPatternCapture, TestPatternMode,
};

const BGRX: u32 = 8;
const RGBA: u32 = 11;
const SECOND: u64 = 1_000_000_000;

fn words(values: &[u32]) -> Vec<u8> {
    let mut bytes = Vec::new();
    for value in values {
        bytes.extend_from_slice(&value.to_le_bytes());
    }
    bytes
}

fn cursor_bytes(id: u32, x: i32, y: i32, hotspot_x: i32, hotspot_y: i32, offset: u32) -> Vec<u8> {
    words(&[
        id,
        0,
        x as u32,
        y as u32,
        hotspot_x as u32,
        hotspot_y as u32,
        offset,
    ])
}

fn meta(kind: u32, bytes: Vec<u8>) -> BufferMeta {
    BufferMeta { kind, data: MetaData::Bytes(bytes) }
}

fn busy() -> BufferMeta {
    BufferMeta { kind: 7, data: MetaData::Missing(8) }
}

#[test]
fn dmabuf_readback_only_bypasses_gpu_for_linear_mappable_memory() {
    assert!(!dmabuf_requires_gpu_readback(true, true, DRM_FORMAT_MOD_LINEAR));
    assert!(dmabuf_requires_gpu_readback(true, false, DRM_FORMAT_MOD_LINEAR));
    assert!(dmabuf_requires_gpu_readback(true, true, DRM_FORMAT_MOD_INVALID));
    assert!(dmabuf_requires_gpu_readback(true, true, 0x10));
    assert!(!dmabuf_requires_gpu_readback(false, false, DRM_FORMAT_MOD_INVALID));
}

#[test]
fn explicit_modifier_is_preferred_to_implicit_when_linear_is_unavailable() {
    const EXPLICIT_MODIFIER: u64 = 0x0300_0000_0060_6010;
    assert_eq!(
        preferred_safe_readback_modifier_from_values(&[
            DRM_FORMAT_MOD_INVALID,
            EXPLICIT_MODIFIER,
        ]),
        Some(EXPLICIT_MODIFIER)
    );
    assert_eq!(
        preferred_safe_readback_modifier_from_values(&[
            EXPLICIT_MODIFIER,
            DRM_FORMAT_MOD_INVALID,
            DRM_FORMAT_MOD_LINEAR,
        ]),
        Some(DRM_FORMAT_MOD_LINEAR)
    );
    assert_eq!(preferred_safe_readback_modifier_from_values(&[]), None);
}

#[test]
fn fd_mapping_rejects_a_slice_beyond_the_reported_extent() {
    assert_eq!(
        map_plan(3, 4000, 96, Some(4096), 4096),
        MapPlan::Pages { offset: 0, length: 4096, delta: 4000 }
    );
    assert_eq!(map_plan(3, 4000, 97, Some(4096), 4096), MapPlan::Refused);
    assert_eq!(map_plan(3, usize::MAX, 1, Some(4096), 4096), MapPlan::Refused);
    assert_eq!(map_plan(-1, 0, 1, None, 4096), MapPlan::Refused);
    assert_eq!(map_plan(3, 0, 0, None, 4096), MapPlan::Empty);
    assert_eq!(
        map_plan(3, 5000, 10, None, -1),
        MapPlan::Pages { offset: 4096, length: 914, delta: 904 }
    );
}

#[test]
fn rgb_fingerprint_defends_against_incorrect_change_hints() {
    let first = Some([1; 32]);
    let second = Some([2; 32]);
    assert!(!frame_changed(FrameChange::Unknown, &first, &first));
    assert!(frame_changed(FrameChange::Unknown, &first, &second));
    assert!(frame_changed(FrameChange::Unchanged, &first, &second));
    assert!(!frame_changed(FrameChange::Changed, &first, &first));
    assert!(frame_changed(FrameChange::Changed, &None, &None));
    assert!(frame_changed(FrameChange::Unknown, &None, &None));
}

#[test]
fn hints_decide_without_fingerprints() {
    assert!(!frame_changed(FrameChange::Unchanged, &None, &Some([1; 32])));
    assert_eq!(frame_change_from_damage(Some(true)), FrameChange::Changed);
    assert_eq!(frame_change_from_damage(Some(false)), FrameChange::Unchanged);
    assert_eq!(frame_change_from_damage(None), FrameChange::Unknown);
}

#[test]
fn pipewire_damage_accumulates_across_video_throttling() {
    let mut damage = AccumulatedFrameDamage::default();

    damage.observe(Some(false));
    assert_eq!(damage.take(), Some(false));

    damage.observe(Some(false));
    damage.observe(Some(true));
    damage.observe(Some(false));
    assert_eq!(damage.take(), Some(true));

    damage.observe(None);
    damage.observe(Some(false));
    assert_eq!(damage.take(), None);
    assert_eq!(damage.take(), None);
}

#[test]
fn test_patterns_model_static_typing_scroll_and_motion_damage() {
    let mut static_pattern = TestPatternCapture::new(96, 96, TestPatternMode::Static);
    let static_first = static_pattern.next_rgb();
    let static_second = static_pattern.next_rgb();
    assert_eq!(static_first.pixels, static_second.pixels);
    assert!(!static_pattern.frame_changed());

    let mut typing = TestPatternCapture::new(96, 96, TestPatternMode::Typing);
    let first = typing.next_rgb();
    let second = typing.next_rgb();
    assert_eq!(first.pixels, second.pixels);
    typing.next_rgb();
    let fourth = typing.next_rgb();
    assert_ne!(second.pixels, fourth.pixels);
    assert!(typing.frame_changed());

    for mode in [TestPatternMode::Scroll, TestPatternMode::Motion] {
        let mut pattern = TestPatternCapture::new(96, 96, mode);
        let first = pattern.next_rgb();
        let second = pattern.next_rgb();
        assert_ne!(first.pixels, second.pixels);
        assert!(pattern.frame_changed());
    }
}

#[test]
fn pattern_pixels_have_known_values() {
    assert_eq!(test_pattern_pixel(TestPatternMode::Static, 5, 300, 250), [49, 9, 68]);
    assert_eq!(test_pattern_pixel(TestPatternMode::Typing, 4, 64, 64), [235, 235, 225]);
    assert_eq!(test_pattern_pixel(TestPatternMode::Typing, 4, 88, 64), [24, 28, 34]);
    assert_eq!(test_pattern_pixel(TestPatternMode::Scroll, 4, 80, 0), [75, 27, 115]);
    assert_eq!(test_pattern_pixel(TestPatternMode::Motion, 2, 10, 20), [44, 78, 25]);
    assert_eq!(
        test_pattern_pixel(TestPatternMode::Motion, u32::MAX, u32::MAX, 0)[0],
        ((u64::from(u32::MAX) * 18) % 255) as u8
    );
}

#[test]
fn test_pattern_cursor_cycles_through_visible_and_hidden_states() {
    assert!(test_pattern_cursor_visible(1));
    assert!(test_pattern_cursor_visible(19));
    assert!(!test_pattern_cursor_visible(20));
    assert!(!test_pattern_cursor_visible(29));
    assert!(test_pattern_cursor_visible(30));
}

#[test]
fn capture_rate_meter_reports_once_per_window() {
    let start = 7 * SECOND;
    let mut meter = CaptureRateMeter::new(start);
    assert!(meter.record(start + SECOND, true).is_none());
    let counts = meter
        .record(start + CAPTURE_RATE_WINDOW_NANOS, false)
        .expect("the window closes once it is full");
    let seconds = counts.elapsed as f64 / SECOND as f64;
    let buffer_hz = f64::from(counts.buffers) / seconds;
    let cursor_hz = f64::from(counts.cursor_samples) / seconds;
    assert!((buffer_hz - 0.4).abs() < 1e-9, "{buffer_hz}");
    assert!((cursor_hz - 0.2).abs() < 1e-9, "{cursor_hz}");
    assert!(meter
        .record(start + CAPTURE_RATE_WINDOW_NANOS + SECOND, true)
        .is_none());
}

#[test]
fn capture_rate_meter_measures_the_worst_pause_across_windows() {
    let start = 3 * SECOND;
    let millis = 1_000_000;
    let mut meter = CaptureRateMeter::new(start);
    let step = 20 * millis;
    meter.record(start, true);
    meter.record(start + step, true);
    meter.record(start + 520 * millis, true);
    let mut at = 520 * millis;
    let mut closed = None;
    while closed.is_none() {
        at += step;
        closed = meter.record(start + at, true);
    }
    let rates = closed.expect("the window closes once it is full");
    assert_eq!(rates.max_cursor_gap, 500 * millis);

    at += 300 * millis;
    let mut closed = report_capture_rate(&mut meter, start + at, true);
    while closed.is_none() {
        at += step;
        closed = meter.record(start + at, true);
    }
    let next = closed.expect("the second window closes too");
    assert!(next.max_cursor_gap >= 300 * millis);
}

#[test]
fn capture_windows_are_reported_whole() {
    let mut meter = CaptureRateMeter::new(SECOND);
    assert!(meter.record(2 * SECOND, true).is_none());
    assert!(meter.record(5 * SECOND, false).is_none());
    // One tick before the window is full nothing is reported.
    assert!(meter.record(6 * SECOND - 1, false).is_none());
    let first = meter.record(6 * SECOND, false).unwrap();
    assert_eq!((first.buffers, first.cursor_samples), (4, 1));
    assert_eq!((first.elapsed, first.max_cursor_gap), (5 * SECOND, 0));
    // The pause that began in the first window counts in the second, where it ends.
    assert!(meter.record(8 * SECOND, true).is_none());
    let second = meter.record(13 * SECOND, true).unwrap();
    assert_eq!((second.buffers, second.cursor_samples), (2, 2));
    assert_eq!((second.elapsed, second.max_cursor_gap), (7 * SECOND, 6 * SECOND));
    let third = meter.record(18 * SECOND, false).unwrap();
    assert_eq!((third.buffers, third.cursor_samples), (1, 0));
    assert_eq!((third.elapsed, third.max_cursor_gap), (5 * SECOND, 0));
}

#[test]
fn pipewire_cursor_meta_request_reserves_bitmap_space() {
    assert!(
        pipewire_cursor_meta_size(CURSOR_DEFAULT_BITMAP_SIDE)
            >= (28 + 20 + CURSOR_DEFAULT_BITMAP_SIDE * CURSOR_DEFAULT_BITMAP_SIDE * 4) as i32
    );
}

#[test]
fn pipewire_cursor_meta_request_negotiates_ecosystem_bitmap_range() {
    assert_eq!(pipewire_cursor_meta_size(CURSOR_DEFAULT_BITMAP_SIDE), 16_432);
    assert_eq!(pipewire_cursor_meta_size(CURSOR_MIN_BITMAP_SIDE), 52);
    assert_eq!(pipewire_cursor_meta_size(CURSOR_NEGOTIATED_MAX_BITMAP_SIDE), 589_872);
    assert_eq!(pipewire_cursor_meta_size(usize::MAX), i32::MAX);
    assert_eq!(META_CURSOR, 5);
    assert_eq!(
        cursor_meta_request(),
        MetaRequest { kind: META_CURSOR, size: 16_432, range: Some((52, 589_872)) }
    );
}

#[test]
fn pipewire_damage_meta_request_has_type_and_capacity() {
    let request = damage_meta_request();
    assert_eq!(request.kind, META_VIDEO_DAMAGE);
    assert_eq!(META_VIDEO_DAMAGE, 3);
    assert_eq!(request.size, 16 * 16);
    assert_eq!(request.range, None);
}

#[test]
fn pipewire_damage_metadata_distinguishes_idle_changed_and_unknown_buffers() {
    let damage = |width: u32, height: u32, complete: bool| {
        let mut bytes = words(&[0, 0, width, height]);
        if !complete {
            bytes.pop();
        }
        pipewire_video_damage(&vec![meta(META_VIDEO_DAMAGE, bytes)])
    };

    assert_eq!(damage(0, 0, true), Some(false));
    assert_eq!(damage(12, 8, true), Some(true));
    assert_eq!(damage(12, 8, false), None);
    assert_eq!(pipewire_video_damage(&vec![]), None);
}

#[test]
fn empty_and_missing_damage_say_different_things() {
    assert_eq!(
        pipewire_video_damage(&vec![busy(), meta(META_VIDEO_DAMAGE, vec![])]),
        Some(false)
    );
    let missing = BufferMeta { kind: META_VIDEO_DAMAGE, data: MetaData::Missing(16) };
    assert_eq!(
        pipewire_video_damage(&vec![missing, meta(META_VIDEO_DAMAGE, words(&[0, 0, 1, 1]))]),
        None
    );
}

#[test]
fn pipewire_cursor_metadata_coalesces_duplicates_without_losing_changes() {
    let mut serial = 0;
    let mut last_state = None;
    let buffer = vec![meta(META_CURSOR, cursor_bytes(7, 25, 40, 0, 0, 0))];

    let first = pipewire_cursor_sample(
        pipewire_cursor_update(&buffer),
        100,
        80,
        &mut serial,
        &mut last_state,
    )
    .expect("first cursor sample");
    assert_eq!(first.serial, 1);
    assert_eq!(first.x, 25);
    assert_eq!(first.y, 40);
    assert!(first.visible);
    assert!(first.bitmap.is_none());
    assert!(pipewire_cursor_sample(
        pipewire_cursor_update(&buffer),
        100,
        80,
        &mut serial,
        &mut last_state
    )
    .is_none());

    let buffer = vec![meta(META_CURSOR, cursor_bytes(7, 30, 40, 0, 0, 0))];
    let moved = pipewire_cursor_sample(
        pipewire_cursor_update(&buffer),
        100,
        80,
        &mut serial,
        &mut last_state,
    )
    .expect("changed cursor sample");
    assert_eq!(moved.serial, 2);
    assert_eq!(moved.x, 30);
}

fn bitmap_meta(
    cursor: Vec<u8>,
    format: u32,
    width: u32,
    height: u32,
    stride: u32,
    offset: u32,
    pixels: &[u8],
) -> Vec<u8> {
    let mut bytes = cursor;
    bytes.extend_from_slice(&words(&[format, width, height, stride, offset]));
    bytes.extend_from_slice(pixels);
    bytes
}

#[test]
fn pipewire_cursor_metadata_decodes_bitmap_and_hotspot() {
    let rgba_pixels = [
        255, 0, 0, 255, 0, 255, 0, 128, 0, 0, 255, 64, 255, 255, 255, 0,
    ];
    let bytes = bitmap_meta(
        cursor_bytes(11, 25, 40, 3, 4, 28),
        RGBA,
        2,
        2,
        8,
        20,
        &rgba_pixels,
    );
    let buffer = vec![meta(META_CURSOR, bytes)];

    let PipewireCursorUpdate::Visible(state) = pipewire_cursor_update(&buffer) else {
        panic!("expected visible cursor state");
    };
    let bitmap = state.bitmap.expect("cursor bitmap");
    assert_eq!(bitmap.width, 2);
    assert_eq!(bitmap.height, 2);
    assert_eq!(bitmap.hotspot_x, 1);
    assert_eq!(bitmap.hotspot_y, 1);
    assert_eq!(bitmap.rgba, rgba_pixels);

    let mut serial = 0;
    let mut last_state = None;
    let first = pipewire_cursor_sample(
        pipewire_cursor_update(&buffer),
        100,
        80,
        &mut serial,
        &mut last_state,
    )
    .expect("bitmap cursor sample");
    let bytes = bitmap_meta(
        cursor_bytes(11, 26, 40, 3, 4, 0),
        RGBA,
        2,
        2,
        8,
        20,
        &rgba_pixels,
    );
    let buffer = vec![meta(META_CURSOR, bytes)];
    let moved = pipewire_cursor_sample(
        pipewire_cursor_update(&buffer),
        100,
        80,
        &mut serial,
        &mut last_state,
    )
    .expect("position-only cursor sample");
    assert_eq!(
        first.bitmap.as_ref().unwrap().rgba,
        moved.bitmap.as_ref().unwrap().rgba
    );
}

#[test]
fn padded_rows_are_skipped_between_pixels() {
    let pixels = [1, 2, 3, 4, 99, 99, 99, 99, 5, 6, 7, 8];
    let bytes = bitmap_meta(cursor_bytes(1, 0, 0, 0, 0, 28), 12, 1, 2, 8, 20, &pixels);
    let bitmap = pipewire_cursor_bitmap(&bytes).unwrap();
    assert_eq!(bitmap.rgba, vec![3, 2, 1, 4, 7, 6, 5, 8]);
}

fn message_bitmap(rgba: &[u8], width: u32, height: u32) -> CursorBitmap {
    CursorBitmap { width, height, hotspot_x: 0, hotspot_y: 0, rgba: rgba.to_vec() }
}

#[test]
fn dash_cursor_sends_bitmap_pixels_on_change_and_periodic_refresh() {
    let rgba = [255, 0, 0, 255, 0, 255, 0, 255];
    let bitmap = || Some(message_bitmap(&rgba, 2, 1));
    let mut state = DashCursorBitmapState::new();
    let mut event = |timestamp: u64, bitmap: Option<CursorBitmap>| {
        cursor_to_dash_event(timestamp, 10_000_000, 20_000_000, true, bitmap, &mut state).unwrap()
    };
    let first = event(10, bitmap());
    let repeated = event(20, bitmap());
    let refreshed = event(CURSOR_BITMAP_REFRESH_TICKS + 10, bitmap());
    let position_only = event(CURSOR_BITMAP_REFRESH_TICKS + 20, None);

    assert!(first.bitmap.is_some());
    assert!(repeated.bitmap.is_none());
    assert!(refreshed.bitmap.is_some());
    assert_eq!(repeated.bitmap_id, first.bitmap_id);
    assert_eq!(refreshed.bitmap_id, first.bitmap_id);
    assert_eq!(position_only.bitmap_id, first.bitmap_id);
    let other = event(CURSOR_BITMAP_REFRESH_TICKS + 30, Some(message_bitmap(&[0; 4], 1, 1)));
    assert_eq!(other.bitmap_id, first.bitmap_id + 1);
    assert_eq!(other.x_micropixels, 10_000_000);
}

#[test]
fn dash_cursor_rejects_inconsistent_bitmap_dimensions() {
    let result = cursor_to_dash_event(
        0,
        0,
        0,
        true,
        Some(message_bitmap(&[0u8; 15], 2, 2)),
        &mut DashCursorBitmapState::new(),
    );
    assert_eq!(result.err(), Some(CursorError::BitmapMismatch));
    let result = cursor_to_dash_event(
        0,
        0,
        0,
        true,
        Some(message_bitmap(&[], u32::MAX, u32::MAX)),
        &mut DashCursorBitmapState::new(),
    );
    assert_eq!(result.err(), Some(CursorError::BitmapOverflow));
}

#[test]
fn pipewire_cursor_pixel_formats_convert_without_panicking_on_short_input() {
    let pixel = [10, 20, 30, 40];
    for (format, expected) in [
        (11, [10, 20, 30, 40]),
        (12, [30, 20, 10, 40]),
        (13, [20, 30, 40, 10]),
        (14, [40, 30, 20, 10]),
        (7, [10, 20, 30, 255]),
        (8, [30, 20, 10, 255]),
        (9, [20, 30, 40, 255]),
        (10, [40, 30, 20, 255]),
    ] {
        assert_eq!(cursor_pixel_as_rgba(format, &pixel), Some(expected));
    }
    assert_eq!(cursor_pixel_as_rgba(RGBA, &[1, 2, 3]), None);
    assert_eq!(cursor_pixel_as_rgba(0, &pixel), None);
}

#[test]
fn pipewire_cursor_bitmap_rejects_malformed_layouts_and_excessive_dimensions() {
    let pixels = [0u8; 16];
    let good = bitmap_meta(cursor_bytes(1, 0, 0, 0, 0, 28), RGBA, 2, 2, 8, 20, &pixels);
    assert!(pipewire_cursor_bitmap(&good).is_some());

    let stride = bitmap_meta(cursor_bytes(1, 0, 0, 0, 0, 28), RGBA, 2, 2, 7, 20, &pixels);
    assert!(pipewire_cursor_bitmap(&stride).is_none());
    let offset = bitmap_meta(cursor_bytes(1, 0, 0, 0, 0, 28), RGBA, 2, 2, 8, 0, &pixels);
    assert!(pipewire_cursor_bitmap(&offset).is_none());
    let wide = bitmap_meta(
        cursor_bytes(1, 0, 0, 0, 0, 28),
        RGBA,
        CURSOR_MAX_BITMAP_SIDE + 1,
        2,
        8,
        20,
        &pixels,
    );
    assert!(pipewire_cursor_bitmap(&wide).is_none());
    let header = bitmap_meta(cursor_bytes(1, 0, 0, 0, 0, 1), RGBA, 2, 2, 8, 20, &pixels);
    assert!(pipewire_cursor_bitmap(&header).is_none());
    let unaligned = bitmap_meta(cursor_bytes(1, 0, 0, 0, 0, 30), RGBA, 2, 2, 8, 20, &pixels);
    assert!(pipewire_cursor_bitmap(&unaligned).is_none());
    let short = bitmap_meta(cursor_bytes(1, 0, 0, 0, 0, 28), RGBA, 2, 2, 8, 20, &pixels[..15]);
    assert!(pipewire_cursor_bitmap(&short).is_none());
    let negative =
        bitmap_meta(cursor_bytes(1, 0, 0, 0, 0, 28), RGBA, 2, 2, u32::MAX, 20, &pixels);
    assert!(pipewire_cursor_bitmap(&negative).is_none());
}

#[test]
fn pipewire_cursor_metadata_zero_id_hides_a_visible_cursor_once() {
    let mut serial = 0;
    let mut last_state = None;
    let shown = vec![meta(META_CURSOR, cursor_bytes(7, 12, 18, 0, 0, 0))];
    assert!(
        pipewire_cursor_sample(
            pipewire_cursor_update(&shown),
            100,
            80,
            &mut serial,
            &mut last_state
        )
        .unwrap()
        .visible
    );

    let gone = vec![meta(META_CURSOR, cursor_bytes(0, 12, 18, 0, 0, 0))];
    let hidden = pipewire_cursor_sample(
        pipewire_cursor_update(&gone),
        100,
        80,
        &mut serial,
        &mut last_state,
    )
    .expect("cursor hidden update");
    assert!(!hidden.visible);
    assert!(hidden.bitmap.is_none());
    assert!(pipewire_cursor_sample(
        pipewire_cursor_update(&gone),
        100,
        80,
        &mut serial,
        &mut last_state
    )
    .is_none());
}

#[test]
fn pipewire_buffer_cursor_meta_detection_distinguishes_busy_meta() {
    assert!(!pipewire_buffer_has_cursor_meta(&vec![busy()]));
    assert!(pipewire_buffer_has_cursor_meta(&vec![
        busy(),
        meta(META_CURSOR, cursor_bytes(0, 0, 0, 0, 0, 0)),
    ]));
    let missing = BufferMeta { kind: META_CURSOR, data: MetaData::Missing(28) };
    assert!(!pipewire_buffer_has_cursor_meta(&vec![busy(), missing]));
    let mut short = cursor_bytes(0, 0, 0, 0, 0, 0);
    short.pop();
    assert!(!pipewire_buffer_has_cursor_meta(&vec![busy(), meta(META_CURSOR, short)]));
}

#[test]
fn required_pipewire_cursor_metadata_waits_during_grace() {
    let mut verified = false;
    let mut missing_since = None;
    let has_meta = pipewire_buffer_has_cursor_meta(&vec![busy()]);
    assert_eq!(
        pipewire_cursor_metadata_gate(has_meta, true, &mut verified, &mut missing_since, SECOND),
        PipewireCursorMetadataGate::Pending
    );
    assert!(!verified);
    assert!(missing_since.is_some());
}

#[test]
fn required_pipewire_cursor_metadata_fails_after_grace() {
    let now = 100 * SECOND;
    let mut verified = false;
    let mut missing_since = Some(now - CURSOR_METADATA_GRACE_NANOS);
    let has_meta = pipewire_buffer_has_cursor_meta(&vec![busy()]);
    assert_eq!(
        pipewire_cursor_metadata_gate(has_meta, true, &mut verified, &mut missing_since, now),
        PipewireCursorMetadataGate::Fatal
    );
    assert!(!verified);
}

#[test]
fn required_pipewire_cursor_metadata_recovers_when_meta_appears() {
    let now = 100 * SECOND;
    let mut verified = false;
    let mut missing_since = Some(now - SECOND);
    let buffer = vec![meta(META_CURSOR, cursor_bytes(0, 0, 0, 0, 0, 0))];
    let has_meta = pipewire_buffer_has_cursor_meta(&buffer);
    assert_eq!(
        pipewire_cursor_metadata_gate(has_meta, true, &mut verified, &mut missing_since, now),
        PipewireCursorMetadataGate::Ready
    );
    assert!(verified);
    assert!(missing_since.is_none());
}

#[test]
fn required_pipewire_cursor_metadata_fails_if_allocation_disappears() {
    let now = 100 * SECOND;
    let mut verified = false;
    let mut missing_since = None;
    assert_eq!(
        pipewire_cursor_metadata_gate(true, true, &mut verified, &mut missing_since, now),
        PipewireCursorMetadataGate::Ready
    );
    let missing = BufferMeta { kind: META_CURSOR, data: MetaData::Missing(28) };
    let has_meta = pipewire_buffer_has_cursor_meta(&vec![missing]);
    assert_eq!(
        pipewire_cursor_metadata_gate(
            has_meta,
            true,
            &mut verified,
            &mut missing_since,
            now + 1_000_000
        ),
        PipewireCursorMetadataGate::Pending
    );
    assert_eq!(
        pipewire_cursor_metadata_gate(
            has_meta,
            true,
            &mut verified,
            &mut missing_since,
            now + CURSOR_METADATA_GRACE_NANOS + 1_000_000
        ),
        PipewireCursorMetadataGate::Fatal
    );
}

#[test]
fn pipewire_buffer_meta_inspection_reports_cursor_presence_once() {
    let busy_buffer = vec![busy()];
    let mut logged = false;
    assert_eq!(inspect_metas_once(Some(&busy_buffer), &mut logged), Some(false));
    assert_eq!(inspect_metas_once(Some(&busy_buffer), &mut logged), None);

    let cursor_buffer = vec![meta(META_CURSOR, cursor_bytes(0, 0, 0, 0, 0, 0))];
    let mut logged = false;
    assert_eq!(inspect_metas_once(None, &mut logged), None);
    assert_eq!(inspect_metas_once(Some(&cursor_buffer), &mut logged), Some(true));
}

#[test]
fn metadata_is_summarized_for_operators() {
    let metas = vec![busy(), meta(META_CURSOR, vec![0; 28])];
    assert_eq!(
        pipewire_buffer_meta_summary(&metas),
        "Busy(7) size=8 data_null=true, Cursor(5) size=28 data_null=false"
    );
}

fn advertised(modifiers: Option<Vec<u64>>) -> AdvertisedFormat {
    AdvertisedFormat { is_raw_video: true, number: BGRX, width: 100, height: 80, modifiers }
}

#[test]
fn exact_cpu_pipewire_format_preserves_invalid_modifier() {
    let requests =
        format_requests(&vec![advertised(Some(vec![DRM_FORMAT_MOD_INVALID]))], 1, 1, 20_000);
    assert_eq!(requests[1].modifier, Some(DRM_FORMAT_MOD_INVALID));
    assert_eq!(requests[1].numbers, vec![BGRX]);
    assert_eq!((requests[1].width, requests[1].height), (100, 80));
    assert_eq!(requests[1].rate, (20, 1));
}

#[test]
fn cpu_pipewire_formats_try_modifierless_before_implicit_dmabuf() {
    let offers = format_offers(&vec![advertised(Some(vec![DRM_FORMAT_MOD_INVALID]))]);
    assert_eq!(offers.len(), 2);
    assert_eq!(offers[0].modifier, None);
    assert_eq!(offers[1].modifier, Some(DRM_FORMAT_MOD_INVALID));
}

#[test]
fn cpu_pipewire_formats_offer_shared_memory_for_vendor_only_modifiers() {
    const EXPLICIT_MODIFIER: u64 = 0x0300_0000_0060_6010;
    let offers = format_offers(&vec![advertised(Some(vec![EXPLICIT_MODIFIER]))]);
    assert_eq!(offers.len(), 2);
    assert_eq!(offers[0].modifier, None);
    assert_eq!(offers[1].modifier, Some(EXPLICIT_MODIFIER));
}

#[test]
fn implicit_modifier_buffers_require_dmabuf() {
    let request = buffer_request(BGRX, 100, 80, DRM_FORMAT_MOD_INVALID);
    assert_eq!(request.preferred_memory, MEMORY_GRAPHICS);
    assert_eq!(request.accepted_memory, MEMORY_GRAPHICS);
    assert_eq!(request.stride, 400);
    assert_eq!(request.size, 32_000);
    let linear = buffer_request(BGRX, 100, 80, DRM_FORMAT_MOD_LINEAR);
    assert_eq!(linear.preferred_memory, MEMORY_SHARED);
    assert_eq!(
        linear.accepted_memory,
        MEMORY_SHARED | MEMORY_POINTER | MEMORY_GRAPHICS
    );
    let unknown = buffer_request(0, u32::MAX, 0, DRM_FORMAT_MOD_LINEAR);
    assert_eq!((unknown.stride, unknown.size), (u32::MAX, i32::MAX as u32));
}

#[test]
fn unreadable_formats_are_not_offered() {
    let formats = vec![
        advertised(Some(vec![])),
        AdvertisedFormat { number: 1, ..advertised(None) },
        AdvertisedFormat { width: 0, ..advertised(None) },
        AdvertisedFormat { is_raw_video: false, ..advertised(None) },
        advertised(None),
        AdvertisedFormat { number: 2, ..advertised(None) },
    ];
    assert_eq!(
        format_offers(&formats),
        vec![
            FormatOffer { number: BGRX, width: 100, height: 80, modifier: None },
            FormatOffer { number: 2, width: 100, height: 80, modifier: None },
        ]
    );
    assert_eq!(importable_formats(&formats), vec![0, 2, 4]);
    let fallback = format_requests(&vec![], 0, 7, 15_000);
    assert_eq!(fallback.len(), 1);
    assert_eq!((fallback[0].width, fallback[0].height), (1, 7));
    assert!(fallback[0].any_size);
    assert_eq!(fallback[0].numbers.len(), 13);
}

#[test]
fn offered_layouts_keep_their_bits() {
    assert_eq!(modifier_values_from_choice(&ModifierChoice::Single(-1)), vec![u64::MAX]);
    assert_eq!(
        modifier_values_from_choice(&ModifierChoice::Range { default: 1, min: 2, max: 3 }),
        vec![1, 2, 3]
    );
    assert_eq!(
        modifier_values_from_choice(&ModifierChoice::Alternatives { default: 9, others: vec![4] }),
        vec![4, 9]
    );
    assert_eq!(modifier_values_from_choice(&ModifierChoice::Other), Vec::<u64>::new());
    assert!(data_is_mappable(8));
    assert!(!data_is_mappable(7));
}

#[test]
fn frame_rates_are_reduced_fractions() {
    assert_eq!(gcd(12, 18), 6);
    assert_eq!(gcd(0, 0), 0);
    assert_eq!(gcd(7, 0), 7);
    assert_eq!(fps_fraction(500), (1, 2));
    assert_eq!(fps_fraction(29_970), (2_997, 100));
    assert_eq!(fps_fraction(60_000), (60, 1));
}

#[test]
fn driver_names_have_four_characters() {
    assert_eq!(drm_fourcc(b'X', b'R', b'2', b'4'), 0x3432_5258);
    assert_eq!(drm_fourcc_name(drm_fourcc_for_video_format(BGRX).unwrap()), "XR24");
    assert_eq!(drm_fourcc_name(drm_fourcc_for_video_format(4).unwrap()), "YUYV");
    assert_eq!(drm_fourcc_for_video_format(2), None);
    assert_eq!(drm_fourcc_name(0x2041_0a7f), "..A ");
}

#[test]
fn frames_have_the_bytes_of_their_layout() {
    assert_eq!(expected_frame_stride(15, 10), Some(30));
    assert_eq!(expected_frame_stride(4, 10), Some(20));
    assert_eq!(expected_frame_stride(BGRX, u32::MAX), None);
    assert_eq!(expected_frame_size(2, 4, 4), Some(24));
    assert_eq!(expected_frame_size(BGRX, 4, 4), Some(64));
    assert_eq!(expected_frame_size_from_stride(RawFrameFormat::I420, 4, 4, 4), Some(24));
    assert_eq!(expected_frame_size_from_stride(RawFrameFormat::I420, 3, 8, 3), Some(25));
    assert_eq!(expected_frame_size_from_stride(RawFrameFormat::Rgb, 30, 10, 2), Some(60));
    assert_eq!(expected_frame_size_from_stride(RawFrameFormat::Rgb, usize::MAX, 1, 2), None);
}

fn frame(format: RawFrameFormat, width: u32, height: u32, stride: usize, data: &[u8]) -> RawFrame {
    RawFrame { serial: 1, damage: None, width, height, stride, format, data: data.to_vec() }
}

#[test]
fn pixels_convert_from_every_layout() {
    let data = [10, 20, 30, 40, 50, 60, 70, 80];
    let rgb = |format| raw_pixel_rgb(&frame(format, 2, 1, 8, &data), 1, 0);
    assert_eq!(rgb(RawFrameFormat::Rgba), Some([50, 60, 70]));
    assert_eq!(rgb(RawFrameFormat::Rgbx), Some([50, 60, 70]));
    assert_eq!(rgb(RawFrameFormat::Bgra), Some([70, 60, 50]));
    assert_eq!(rgb(RawFrameFormat::Bgrx), Some([70, 60, 50]));
    assert_eq!(rgb(RawFrameFormat::Xrgb), Some([60, 70, 80]));
    assert_eq!(rgb(RawFrameFormat::Argb), Some([60, 70, 80]));
    assert_eq!(rgb(RawFrameFormat::Xbgr), Some([80, 70, 60]));
    assert_eq!(rgb(RawFrameFormat::Abgr), Some([80, 70, 60]));
    assert_eq!(rgb(RawFrameFormat::Rgb), Some([40, 50, 60]));
    assert_eq!(rgb(RawFrameFormat::Bgr), Some([60, 50, 40]));
    assert_eq!(packed_rgb(&data, usize::MAX, 8, 0, 4, [0, 1, 2]), None);
    assert_eq!(packed_rgb(&data, 0, 8, 1, 4, [0, 1, 4]), None);
    let yuy2 = frame(RawFrameFormat::Yuy2, 2, 1, 4, &[16, 128, 235, 128]);
    assert_eq!(raw_pixel_rgb(&yuy2, 0, 0), Some([0, 0, 0]));
    assert_eq!(raw_pixel_rgb(&yuy2, 1, 0), Some([255, 255, 255]));
    assert_eq!(raw_pixel_rgb(&yuy2, 2, 0), None);
    let i420 = frame(RawFrameFormat::I420, 2, 2, 2, &[16, 235, 81, 145, 90, 240]);
    assert_eq!(raw_pixel_rgb(&i420, 0, 1), Some(yuv_to_rgb(81, 90, 240)));
    assert_eq!(raw_pixel_rgb(&i420, 0, 2), None);
    assert_eq!(yuv_to_rgb(81, 90, 240), [255, 0, 0]);
    assert_eq!(yuv_to_rgb(145, 54, 34), [0, 255, 1]);
    assert_eq!((clamp_u8(-1), clamp_u8(256), clamp_u8(7)), (0, 255, 7));
}

#[test]
fn missing_samples_stay_black() {
    let image = raw_frame_to_rgb_image(&frame(RawFrameFormat::Rgb, 1, 2, 3, &[1, 2, 3]));
    assert_eq!(image.pixels, vec![1, 2, 3, 0, 0, 0]);
}

#[test]
fn images_shrink_only_where_they_do_not_fit() {
    let grey = |width: u32, height: u32| RgbImage {
        width,
        height,
        pixels: vec![77; (width * height * 3) as usize],
    };
    let same = resize_rgb_image_to_fit(grey(4, 2), 4, 2, (1, 1));
    assert_eq!((same.width, same.height), (4, 2));
    let empty = resize_rgb_image_to_fit(grey(0, 3), 4, 3, (0, u32::MAX));
    assert_eq!((empty.width, empty.height), (0, 3));
    let smaller = resize_rgb_image_to_fit(grey(4, 2), 2, 2, (2, 1));
    assert_eq!((smaller.width, smaller.height), (2, 1));
    assert_eq!(smaller.pixels, vec![77; 6]);
    let mut halves = grey(2, 1);
    halves.pixels = vec![0, 0, 0, 100, 100, 100];
    let one = resize_rgb_image_to_fit(halves, 1, 1, (1, 1));
    assert_eq!(one.pixels, vec![50, 50, 50]);
}

fn capture(imports_frames: bool) -> CaptureState {
    let mut state = CaptureState::new(7, 4, 2, SECOND, false, imports_frames, 0);
    state
        .negotiated(
            NegotiatedFormat { number: BGRX, width: 4, height: 2, modifier: 0 },
            &"BGRx".to_string(),
        )
        .unwrap();
    state
}

fn facts() -> BufferFacts {
    BufferFacts {
        has_data: true,
        offset: 8,
        size: 0,
        stride: 16,
        is_dmabuf: false,
        mappable: true,
        map_offset: 0,
        mapped_len: Some(40),
    }
}

#[test]
fn negotiation_refuses_another_source() {
    let mut state = CaptureState::new(7, 4, 2, SECOND, false, true, 0);
    let size = NegotiatedFormat { number: BGRX, width: 5, height: 2, modifier: 0 };
    let refused = state.negotiated(size, &"BGRx".to_string()).unwrap_err();
    assert_eq!(
        refused,
        CaptureError::UnexpectedSize {
            node_id: 7,
            expected_width: 4,
            expected_height: 2,
            width: 5,
            height: 2,
            imports_frames: true,
        }
    );
    assert_eq!(
        refused.text(),
        "portal selected 4x2 node 7, but PipeWire video negotiated 5x2; \
         refusing likely wrong source"
    );
    assert!(!is_fatal_capture_error(&vec![refused.text()]));
    let planar = NegotiatedFormat { number: 2, width: 4, height: 2, modifier: 0 };
    let unnamed = state.negotiated(planar, &"VideoFormat::I420".to_string()).unwrap_err();
    assert_eq!(
        unnamed,
        CaptureError::UnsupportedFormat { name: "VideoFormat::I420".to_string() }
    );
    assert_eq!(
        unnamed.text(),
        "PipeWire video negotiated unsupported DMA-BUF raw format VideoFormat::I420"
    );
    let good = NegotiatedFormat { number: BGRX, width: 4, height: 2, modifier: 0 };
    assert_eq!(state.negotiated(good, &"BGRx".to_string()).unwrap().stride, 16);
}

#[test]
fn frames_are_taken_no_closer_than_the_interval() {
    let mut state = capture(false);
    let damaged = vec![meta(META_VIDEO_DAMAGE, words(&[0, 0, 1, 1]))];
    let clean = vec![meta(META_VIDEO_DAMAGE, words(&[0, 0, 0, 0]))];
    assert_eq!(
        state.plan_frame(&clean, &facts(), SECOND),
        FramePlan::Slice { from: 8, to: 40 }
    );
    assert_eq!(state.frame_taken(), (1, Some(false)));
    assert_eq!(state.plan_frame(&damaged, &facts(), SECOND + 1), FramePlan::Skip);
    assert_eq!(
        state.plan_frame(&clean, &facts(), 2 * SECOND),
        FramePlan::Slice { from: 8, to: 40 }
    );
    assert_eq!(state.frame_taken(), (2, Some(true)));
}

#[test]
fn buffers_are_read_where_their_memory_is() {
    let plan = |facts: BufferFacts| capture(false).plan_frame(&vec![], &facts, SECOND);
    assert_eq!(
        plan(BufferFacts { mapped_len: Some(39), ..facts() }),
        FramePlan::Skip
    );
    assert_eq!(
        plan(BufferFacts { mapped_len: None, map_offset: 4, ..facts() }),
        FramePlan::Descriptor { offset: 12, size: 32 }
    );
    assert_eq!(
        plan(BufferFacts { is_dmabuf: true, mappable: false, size: 10, ..facts() }),
        FramePlan::Graphics { offset: 8, size: 10 }
    );
    assert_eq!(plan(BufferFacts { stride: 0, ..facts() }), FramePlan::Skip);
    assert_eq!(plan(BufferFacts { has_data: false, ..facts() }), FramePlan::Skip);

    let mut importing = capture(true);
    assert_eq!(
        importing.plan_frame(
            &vec![],
            &BufferFacts { is_dmabuf: true, size: 10, ..facts() },
            SECOND
        ),
        FramePlan::Graphics { offset: 8, size: 32 }
    );
    assert_eq!(importing.frame_taken(), (1, None));
}

#[test]
fn cursors_are_sampled_once_and_required_ones_awaited() {
    let mut state = capture(false);
    let shown = vec![meta(META_CURSOR, cursor_bytes(7, 90, 1, 0, 0, 0))];
    let (sample, counts) = state.observe_cursor(&shown, SECOND).unwrap().unwrap();
    let sample = sample.unwrap();
    assert_eq!((sample.x, sample.y), (4, 1));
    assert!(counts.is_none());
    let (sample, _) = state.observe_cursor(&shown, SECOND).unwrap().unwrap();
    assert!(sample.is_none());

    let mut strict = CaptureState::new(7, 4, 2, SECOND, true, false, 0);
    assert!(strict.observe_cursor(&shown, SECOND).unwrap().is_none());
    strict
        .negotiated(
            NegotiatedFormat { number: BGRX, width: 4, height: 2, modifier: 0 },
            &"BGRx".to_string(),
        )
        .unwrap();
    assert!(strict.observe_cursor(&vec![], SECOND).unwrap().is_none());
    let missing = strict.observe_cursor(&vec![], 6 * SECOND).unwrap_err();
    assert_eq!(missing, CaptureError::CursorMetadataMissing { imports_frames: false });
    assert_eq!(
        missing.text(),
        "PipeWire buffer does not include SPA_META_Cursor while --require-cursor-metadata is set"
    );
    let video = CaptureError::CursorMetadataMissing { imports_frames: true };
    for error in [missing, video] {
        let wrapped = format!("PipeWire stream failed: {}", error.text());
        assert!(is_fatal_capture_error(&vec!["capturing".to_string(), wrapped]));
    }
}

#[test]
fn frames_that_cannot_be_read_end_the_capture() {
    let state = capture(false);
    let graphics = FramePlan::Graphics { offset: 0, size: 32 };
    let memory = FramePlan::Descriptor { offset: 0, size: 32 };
    let reason = "no device: gone".to_string();
    let failed = state.frame_unread(&graphics, &reason).unwrap();
    assert_eq!(
        failed.text(),
        "PipeWire DMA-BUF requires GPU readback, \
         but no driver path produced linear pixels for node 7: no device: gone"
    );
    assert!(is_fatal_capture_error(&vec![failed.text()]));
    let unread = state.frame_unread(&memory, &reason).unwrap();
    assert_eq!(
        unread.text(),
        "PipeWire delivered an fd buffer that could not be read from CPU memory for node 7"
    );
    assert!(!is_fatal_capture_error(&vec![unread.text()]));
    assert_eq!(state.frame_unread(&FramePlan::Skip, &reason), None);
    assert_eq!(capture(true).frame_unread(&graphics, &reason), None);
    assert_eq!(capture(true).frame_unread(&memory, &reason), None);
}

#[test]
fn video_formats_fall_back_to_anything() {
    let format = |number: u32| AdvertisedFormat {
        is_raw_video: true,
        number,
        width: 640,
        height: 480,
        modifiers: None,
    };
    match video_format_requests(&vec![format(2), format(BGRX)], 640, 480, 30_000) {
        VideoFormatRequests::Advertised(positions) => assert_eq!(positions, vec![1]),
        VideoFormatRequests::Default(_) => panic!("a format can be imported"),
    }
    match video_format_requests(&vec![format(2)], 640, 0, 29_970) {
        VideoFormatRequests::Default(request) => {
            assert_eq!(request.numbers, vec![15, 15, 16, 11, 12, 7, 8, 9, 10, 13, 14, 4, 2]);
            assert_eq!((request.width, request.height), (640, 1));
            assert!(request.any_size);
            assert_eq!(request.rate, (2_997, 100));
            assert_eq!(request.modifier, None);
        }
        VideoFormatRequests::Advertised(_) => panic!("nothing can be imported"),
    }
}

#[test]
fn waiting_prefers_failures_then_frames_then_time() {
    let mut feed = FrameFeed { last_serial: 0 };
    assert_eq!(feed.step(true, Some(1), 0, 10), WaitStep::Fail);
    assert_eq!(feed.step(false, Some(1), 20, 10), WaitStep::Take);
    assert_eq!(feed.step(false, Some(1), 4, 10), WaitStep::Wait { remaining: 6 });
    assert_eq!(feed.step(false, None, 10, 10), WaitStep::TimedOut);
    assert_eq!(start_step(true, true, 0, 1), StartStep::Failed);
    assert_eq!(start_step(false, true, 9, 1), StartStep::Started);
    assert_eq!(start_step(false, false, 1, 1), StartStep::TimedOut);
    assert_eq!(start_step(false, false, 0, 1), StartStep::Wait);
    let mut cursor = CursorFeed { last_serial: 0 };
    assert!(!cursor.take(None));
    assert!(cursor.take(Some(4)));
    assert!(!cursor.take(Some(4)));
    assert_eq!(connect_node(true, true, 9), None);
    assert_eq!(connect_node(true, false, 9), Some(9));
    assert_eq!(
        capture_backend_name(ScreenCastBackend::Mutter),
        "mutter-screencast+pipewire-rs"
    );
    assert_eq!(
        capture_backend_name(ScreenCastBackend::Portal),
        "xdg-desktop-portal+pipewire-rs"
    );
    assert_eq!(clamped_cursor_position(-3, 10), 0);
    assert_eq!(clamped_cursor_position(30, 10), 10);
    assert_eq!(clamped_cursor_position(i32::MAX, u32::MAX), i32::MAX);
}

#[test]
fn cursor_events_are_gathered_and_handed_out_in_order() {
    let event = |timestamp: u64| DashCursorEvent {
        timestamp,
        x_micropixels: 0,
        y_micropixels: 0,
        visible: true,
        bitmap_id: 0,
        bitmap: None,
    };
    let times = |events: Vec<DashCursorEvent>| {
        events.iter().map(|event| event.timestamp).collect::<Vec<_>>()
    };
    let mut batch = CursorBatch::new(0, 0);
    assert_eq!(batch.flush_every, 1_000_000);
    assert!(batch.hand_over(5_000_000).is_none());
    assert_eq!(batch.last_flush, 0);
    batch.push(event(1));
    batch.push(event(2));
    assert!(batch.hand_over(999_999).is_none());
    assert_eq!(times(batch.hand_over(1_000_000).unwrap()), [1, 2]);
    assert_eq!(batch.last_flush, 1_000_000);
    batch.push(event(3));
    assert_eq!(times(batch.join(vec![event(4), event(5)])), [3, 4, 5]);
    assert!(batch.flush(1_500_000).is_none());
    assert!(batch.flush(2_000_000).unwrap().is_empty());
    assert_eq!(batch.last_flush, 2_000_000);
}

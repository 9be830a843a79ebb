//! What holds of the cursor's course, from the server's metadata to published events. Each
//! law speaks of what a call may return, or leave behind, for what it was given.

use vstd::prelude::*;

use crate::cursor::{
    clamped_cursor_position, cursor_to_dash_event, dash_cursor_bitmap, frame_change_from_damage,
    pipewire_cursor_metadata_gate, pipewire_cursor_sample, sample_view, state_view,
    AccumulatedFrameDamage, CursorBatch, CursorError, CursorFeed, DashCursorBitmapState,
    DashCursorEvent, PipewireCursorMetadataGate, PipewireCursorSample,
};
use crate::cursor_meta::{
    as_rgba, bitmap_layout, bitmap_pixels, bitmap_view, cursor_format, cursor_format_of,
    cursor_pixel_as_rgba, inspect_metas_once, lemma_bitmap_pixels_len, lemma_row_pixels_len,
    pipewire_buffer_has_cursor_meta, pipewire_cursor_bitmap, pipewire_cursor_update,
    pipewire_meta_type_name, pipewire_video_damage, row_pixels, BitmapLayout, BufferMeta,
    CursorBitmap, MetaData, PipewireCursorState, PipewireCursorUpdate,
};
use crate::dash::FrameChange;
use crate::order::lemma_first_where_means;

verus! {

/// Capture does not wait for cursor metadata that is not required. Required metadata may be
/// missing for less than five seconds from the first buffer without it; a buffer with it
/// starts over.
pub proof fn missing_cursors_are_borne_for_five_seconds(
    has_meta: bool,
    required: bool,
    verified: &mut bool,
    missing_since: &mut Option<u64>,
    now: u64,
    gate: PipewireCursorMetadataGate,
)
    requires
        call_ensures(
            pipewire_cursor_metadata_gate,
            (has_meta, required, verified, missing_since, now),
            gate,
        ),
    ensures
        gate == PipewireCursorMetadataGate::Ready <==> !required || has_meta,
        required && has_meta ==> *final(verified) && *final(missing_since) is None,
        !required || !has_meta ==> *final(verified) == *old(verified),
        !required ==> *final(missing_since) == *old(missing_since),
        required && !has_meta && *old(missing_since) is None ==> *final(missing_since) == Some(now)
            && gate == PipewireCursorMetadataGate::Pending,
        *old(missing_since) matches Some(since) ==> (required && !has_meta ==> *final(missing_since) == Some(since) && (gate == PipewireCursorMetadataGate::Fatal <==> now >= since
            + 5_000_000_000)),
{
}

/// A cursor within the source stays where it is; one outside is moved to the nearest edge.
pub proof fn cursors_stay_on_their_source(position: i32, extent: u32, clamped: i32)
    requires
        call_ensures(clamped_cursor_position, (position, extent), clamped),
    ensures
        0 <= clamped <= extent,
        0 <= position <= extent ==> clamped == position,
        position < 0 ==> clamped == 0,
        position > extent ==> clamped == extent,
{
}

/// A cursor that moves, or changes its number, gives a sample where it is now. The sample
/// has its image; where the server leaves the image out it is the one of the same cursor
/// before, and none of another cursor's.
pub proof fn moved_cursors_are_sampled(
    update: PipewireCursorUpdate,
    state: PipewireCursorState,
    source_width: u32,
    source_height: u32,
    cursor_serial: &mut u64,
    last: &mut Option<PipewireCursorState>,
    sample: Option<PipewireCursorSample>,
    x: i32,
    y: i32,
)
    requires
        update == PipewireCursorUpdate::Visible(state),
        call_ensures(
            pipewire_cursor_sample,
            (update, source_width, source_height, cursor_serial, last),
            sample,
        ),
        call_ensures(clamped_cursor_position, (state.x, source_width), x),
        call_ensures(clamped_cursor_position, (state.y, source_height), y),
        *old(last) matches Some(before) ==> before.id != state.id || before.x != state.x
            || before.y != state.y || (state.bitmap is Some && bitmap_view(before.bitmap)
            != bitmap_view(state.bitmap)),
    ensures
        sample matches Some(sample) && {
            &&& sample.visible
            &&& sample.x == x && sample.y == y
            &&& sample.source_width == source_width && sample.source_height == source_height
            &&& state.bitmap is Some ==> bitmap_view(sample.bitmap) == bitmap_view(state.bitmap)
            &&& state.bitmap is None ==> bitmap_view(sample.bitmap) == (if *old(last) is Some
                && old(last)->0.id == state.id {
                bitmap_view(old(last)->0.bitmap)
            } else {
                None
            })
            &&& sample.serial == *final(cursor_serial)
            &&& *final(last) matches Some(after) && {
                &&& after.id == state.id && after.x == state.x && after.y == state.y
                &&& bitmap_view(after.bitmap) == bitmap_view(sample.bitmap)
            }
        },
        *old(cursor_serial) < u64::MAX ==> *final(cursor_serial) == *old(cursor_serial) + 1,
        *final(cursor_serial) > 0,
{
    let sample_model = sample_view(sample);
    let after = state_view(*final(last));
    assert(sample_model is Some);
    if let Some(before) = *old(last) {
        assert(state_view(*old(last)) == Some(before@));
    }
}

/// A cursor that stays as it was gives no sample, whether its image comes again or is left
/// out, and neither does a buffer that says nothing. A hidden cursor gives one sample, at its
/// last place and without an image, and none while it stays hidden.
pub proof fn resting_cursors_are_not_sampled(
    update: PipewireCursorUpdate,
    source_width: u32,
    source_height: u32,
    cursor_serial: &mut u64,
    last: &mut Option<PipewireCursorState>,
    sample: Option<PipewireCursorSample>,
    x: i32,
    y: i32,
)
    requires
        call_ensures(
            pipewire_cursor_sample,
            (update, source_width, source_height, cursor_serial, last),
            sample,
        ),
        *old(last) matches Some(before) ==> call_ensures(
            clamped_cursor_position,
            (before.x, source_width),
            x,
        ) && call_ensures(clamped_cursor_position, (before.y, source_height), y),
    ensures
        update is Unchanged || (update is Hidden && *old(last) is None) || (update matches
            PipewireCursorUpdate::Visible(state) && (*old(last) matches Some(before) && before.id
            == state.id && before.x == state.x && before.y == state.y && (state.bitmap is None
            || bitmap_view(state.bitmap) == bitmap_view(before.bitmap)))) ==> {
            &&& sample is None
            &&& *final(cursor_serial) == *old(cursor_serial)
            &&& state_view(*final(last)) == state_view(*old(last))
        },
        *old(last) matches Some(before) ==> (update is Hidden ==> {
            &&& sample matches Some(sample) && !sample.visible && sample.bitmap is None
                && sample.serial == *final(cursor_serial) && sample.x == x && sample.y == y
            &&& *final(last) is None
        }),
{
    if let Some(before) = *old(last) {
        assert(state_view(*old(last)) == Some(before@));
    }
    assert(sample_view(sample) is Some <==> sample is Some);
    assert(state_view(*final(last)) is Some <==> *final(last) is Some);
    if update is Hidden && *old(last) is Some {
        assert(sample->0@ == sample_view(sample)->0);
    }
}

/// Each sample is handed out once: the newest one if it was not the last, and then not again.
pub proof fn samples_are_handed_out_once(
    feed: &mut CursorFeed,
    newest: Option<u64>,
    fresh: bool,
    again: &mut CursorFeed,
    second: bool,
)
    requires
        call_ensures(CursorFeed::take, (feed, newest), fresh),
        *old(again) == *final(feed),
        call_ensures(CursorFeed::take, (again, newest), second),
    ensures
        !second,
        fresh <==> newest is Some && newest != Some(old(feed).last_serial),
{
}

/// Whether accumulated damage is that of some buffers.
pub open spec fn accumulates(damage: AccumulatedFrameDamage, buffers: Seq<Option<bool>>) -> bool {
    match damage {
        AccumulatedFrameDamage::Empty => buffers.len() == 0,
        AccumulatedFrameDamage::Unchanged => buffers.len() > 0 && forall|i: int|
            0 <= i < buffers.len() ==> #[trigger] buffers[i] == Some(false),
        AccumulatedFrameDamage::Unknown => (exists|i: int|
            0 <= i < buffers.len() && #[trigger] buffers[i] is None) && forall|i: int|
            0 <= i < buffers.len() ==> #[trigger] buffers[i] != Some(true),
        AccumulatedFrameDamage::Changed => exists|i: int|
            0 <= i < buffers.len() && #[trigger] buffers[i] == Some(true),
    }
}

/// Damage adds up from buffer to buffer until it is taken: a frame is damaged if one of them
/// was, and undamaged only if each of them is known to be. Then it starts over.
pub proof fn damage_adds_up(
    observed: &mut AccumulatedFrameDamage,
    buffers: Seq<Option<bool>>,
    damage: Option<bool>,
    taken: &mut AccumulatedFrameDamage,
    result: Option<bool>,
)
    requires
        call_ensures(AccumulatedFrameDamage::observe, (observed, damage), ()),
        accumulates(*old(observed), buffers),
        call_ensures(AccumulatedFrameDamage::take, (taken,), result),
        accumulates(*old(taken), buffers),
    ensures
        accumulates(*final(observed), buffers.push(damage)),
        accumulates(*final(taken), Seq::empty()),
        result == Some(true) <==> exists|i: int|
            0 <= i < buffers.len() && #[trigger] buffers[i] == Some(true),
        result == Some(false) <==> buffers.len() > 0 && forall|i: int|
            0 <= i < buffers.len() ==> #[trigger] buffers[i] == Some(false),
{
    let all = buffers.push(damage);
    assert(all[buffers.len() as int] == damage);
    assert forall|i: int| 0 <= i < all.len() implies #[trigger] all[i] == (if i < buffers.len() {
        buffers[i]
    } else {
        damage
    }) by {
    }
    match *old(observed) {
        AccumulatedFrameDamage::Changed => {
            let i = choose|i: int| 0 <= i < buffers.len() && #[trigger] buffers[i] == Some(true);
            assert(all[i] == Some(true));
        },
        AccumulatedFrameDamage::Unknown => {
            let i = choose|i: int| 0 <= i < buffers.len() && #[trigger] buffers[i] is None;
            assert(all[i] is None);
        },
        _ => {},
    }
    match *final(observed) {
        AccumulatedFrameDamage::Changed => {
            assert(exists|i: int| 0 <= i < all.len() && #[trigger] all[i] == Some(true));
        },
        AccumulatedFrameDamage::Unknown => {
            assert(exists|i: int| 0 <= i < all.len() && #[trigger] all[i] is None);
            assert(forall|i: int| 0 <= i < all.len() ==> #[trigger] all[i] != Some(true));
        },
        AccumulatedFrameDamage::Unchanged => {
            assert(forall|i: int| 0 <= i < all.len() ==> #[trigger] all[i] == Some(false));
        },
        AccumulatedFrameDamage::Empty => {},
    }
    if *old(taken) is Unknown {
        let i = choose|i: int| 0 <= i < buffers.len() && #[trigger] buffers[i] is None;
        assert(buffers[i] != Some(false));
    }
    if *old(taken) is Changed {
        let i = choose|i: int| 0 <= i < buffers.len() && #[trigger] buffers[i] == Some(true);
        assert(buffers[i] != Some(false));
    }
    if *old(taken) is Unchanged {
        assert(buffers[0] == Some(false));
    }
}

/// Damage says of a frame whether it changed; without it nothing is known.
pub proof fn damage_tells_of_change(damage: Option<bool>, change: FrameChange)
    requires
        call_ensures(frame_change_from_damage, (damage,), change),
    ensures
        change == FrameChange::Unknown <==> damage is None,
        change == FrameChange::Changed <==> damage == Some(true),
{
}

/// Whether an image has four bytes for each pixel.
pub open spec fn is_whole(bitmap: CursorBitmap) -> bool {
    bitmap.rgba@.len() == 4 * (bitmap.width * bitmap.height)
}

/// An image is published as it is if it has four bytes for each pixel, and else refused.
pub proof fn only_whole_images_are_published(
    bitmap: &CursorBitmap,
    result: Result<CursorBitmap, CursorError>,
)
    requires
        call_ensures(dash_cursor_bitmap, (bitmap,), result),
        bitmap.rgba@.len() <= usize::MAX,
    ensures
        result is Ok <==> is_whole(*bitmap),
        result matches Ok(published) ==> published@ == bitmap@,
{
}

/// An event carries the cursor's image when it differs from the last one sent, or when that
/// was sent a minute ago or earlier, and not otherwise. A new image has a new number, an old
/// one keeps it, and the event names the number of the image.
pub proof fn images_are_sent_when_new_or_old(
    timestamp: u64,
    x: i64,
    y: i64,
    visible: bool,
    bitmap: Option<CursorBitmap>,
    state: &mut DashCursorBitmapState,
    result: Result<DashCursorEvent, CursorError>,
)
    requires
        call_ensures(cursor_to_dash_event, (timestamp, x, y, visible, bitmap, state), result),
        bitmap matches Some(image) ==> image.rgba@.len() <= usize::MAX,
    ensures
        ({
            let same = bitmap_view(old(state).last) == bitmap_view(bitmap);
            let old_enough = old(state).last_sent_timestamp is None || timestamp >= old(state).last_sent_timestamp->0 + 60 * 90_000;
            let sent = bitmap is Some && (!same || old_enough);
            &&& result is Err <==> sent && !is_whole(bitmap->0)
            &&& result matches Ok(event) ==> {
                &&& event.timestamp == timestamp
                &&& event.x_micropixels == x
                &&& event.y_micropixels == y
                &&& event.visible == visible
                &&& event.bitmap is Some <==> sent
                &&& sent ==> bitmap_view(event.bitmap) == bitmap_view(bitmap)
                &&& event.bitmap_id == final(state).current_id
            }
            &&& sent ==> bitmap_view(final(state).last) == bitmap_view(bitmap) && final(state).last_sent_timestamp == Some(timestamp)
            &&& !sent ==> final(state)@ == old(state)@
            &&& sent && !same && old(state).current_id < u64::MAX ==> final(state).current_id
                == old(state).current_id + 1
            &&& sent && !same ==> final(state).current_id != 0
            &&& same ==> final(state).current_id == old(state).current_id
        }),
{
    assert(bitmap_view(bitmap) is Some <==> bitmap is Some);
    if let Ok(event) = result {
        assert(bitmap_view(event.bitmap) is Some <==> event.bitmap is Some);
    }
}

/// Events wait in their order. They are handed out, each once, when the time since they were
/// handed out last has come to the gathering time: at least a millisecond, else as many as
/// were asked for.
pub proof fn cursor_events_are_gathered(
    flush_ms: u64,
    start: u64,
    batch: CursorBatch,
    pushed: &mut CursorBatch,
    event: DashCursorEvent,
    joined: &mut CursorBatch,
    gathered: Vec<DashCursorEvent>,
    all: Vec<DashCursorEvent>,
)
    requires
        call_ensures(CursorBatch::new, (flush_ms, start), batch),
        call_ensures(CursorBatch::push, (pushed, event), ()),
        call_ensures(CursorBatch::join, (joined, gathered), all),
    ensures
        batch.events@.len() == 0 && batch.last_flush == start,
        flush_ms == 0 ==> batch.flush_every == 1_000_000,
        0 < flush_ms <= 18_446_744_073_709 ==> batch.flush_every == flush_ms * 1_000_000,
        final(pushed).events@ == old(pushed).events@ + seq![event],
        final(pushed).last_flush == old(pushed).last_flush,
        final(pushed).flush_every == old(pushed).flush_every,
        all@ == old(joined).events@ + gathered@,
        final(joined).events@.len() == 0,
        final(joined).last_flush == old(joined).last_flush,
        final(joined).flush_every == old(joined).flush_every,
{
    assert(old(pushed).events@ + seq![event] =~= old(pushed).events@.push(event));
}

/// Events that have been gathered for long enough are handed out whole and the gathering
/// starts over; until then nothing changes. A sampler of its own hands out no empty lot.
pub proof fn gathered_events_are_handed_out(
    own: &mut CursorBatch,
    own_lot: Option<Vec<DashCursorEvent>>,
    shared: &mut CursorBatch,
    shared_lot: Option<Vec<DashCursorEvent>>,
    now: u64,
)
    requires
        call_ensures(CursorBatch::hand_over, (own, now), own_lot),
        call_ensures(CursorBatch::flush, (shared, now), shared_lot),
    ensures
        old(shared).last_flush <= now ==> (shared_lot is Some <==> now >= old(shared).last_flush
            + old(shared).flush_every),
        old(own).last_flush <= now ==> (own_lot is Some <==> now >= old(own).last_flush + old(own).flush_every && old(own).events@.len() > 0),
        own_lot matches Some(events) ==> events@ == old(own).events@ && final(own).events@.len()
            == 0 && final(own).last_flush == now,
        shared_lot matches Some(events) ==> events@ == old(shared).events@ && final(shared).events@.len() == 0 && final(shared).last_flush == now,
        own_lot is None ==> final(own).events@ == old(own).events@ && final(own).last_flush
            == old(own).last_flush,
        shared_lot is None ==> final(shared).events@ == old(shared).events@ && final(shared).last_flush == old(shared).last_flush,
        final(own).flush_every == old(own).flush_every,
        final(shared).flush_every == old(shared).flush_every,
{
}

/// The formats with an unused byte are those with alpha, four numbers on, taken as opaque;
/// no other numbers are known.
pub proof fn pixels_without_alpha_are_opaque(
    number: u32,
    pixel: &[u8],
    unused: Option<[u8; 4]>,
    alpha: Option<[u8; 4]>,
)
    requires
        number <= 1_000_000,
        call_ensures(cursor_pixel_as_rgba, (number, pixel), unused),
        call_ensures(cursor_pixel_as_rgba, ((number + 4) as u32, pixel), alpha),
    ensures
        unused is Some <==> pixel@.len() == 4 && 7 <= number <= 14,
        alpha is Some <==> pixel@.len() == 4 && 3 <= number <= 10,
        7 <= number <= 10 && pixel@.len() == 4 ==> {
            &&& unused->0@.take(3) == alpha->0@.take(3)
            &&& unused->0@[3] == 255
        },
{
    if 7 <= number <= 10 && pixel@.len() == 4 {
        assert(unused->0@.take(3) =~= alpha->0@.take(3));
    }
}

/// Formats differ in the order of the bytes alone: the first of the four with alpha is red,
/// green, blue and alpha, the second has red and blue the other way round, the third has
/// alpha in front, and the fourth is the first backwards.
pub proof fn pixels_are_put_in_order(
    pixel: &[u8],
    rgba: Option<[u8; 4]>,
    bgra: Option<[u8; 4]>,
    argb: Option<[u8; 4]>,
    abgr: Option<[u8; 4]>,
)
    requires
        pixel@.len() == 4,
        call_ensures(cursor_pixel_as_rgba, (11, pixel), rgba),
        call_ensures(cursor_pixel_as_rgba, (12, pixel), bgra),
        call_ensures(cursor_pixel_as_rgba, (13, pixel), argb),
        call_ensures(cursor_pixel_as_rgba, (14, pixel), abgr),
    ensures
        rgba matches Some(out) && out@ == pixel@,
        bgra matches Some(out) && out@[0] == pixel@[2] && out@[1] == pixel@[1] && out@[2]
            == pixel@[0] && out@[3] == pixel@[3],
        argb matches Some(out) && out@ == pixel@.skip(1) + pixel@.take(1),
        abgr matches Some(out) && out@ == pixel@.reverse(),
{
    assert(rgba->0@ =~= pixel@);
    assert(argb->0@ =~= pixel@.skip(1) + pixel@.take(1));
    assert(abgr->0@ =~= pixel@.reverse());
}

/// A little-endian word.
pub open spec fn le32(bytes: Seq<u8>, at: int) -> int {
    bytes[at] + 0x100 * (bytes[at + 1] + 0x100 * (bytes[at + 2] + 0x100 * bytes[at + 3]))
}

/// A signed little-endian word: two to the thirty-second less where the highest bit is set.
pub open spec fn sle32(bytes: Seq<u8>, at: int) -> int {
    if bytes[at + 3] >= 128 {
        le32(bytes, at) - 0x1_0000_0000
    } else {
        le32(bytes, at)
    }
}

proof fn lemma_row_pixel(meta: Seq<u8>, layout: BitmapLayout, row: int, columns: int, c: int, k: int)
    requires
        0 <= c < columns,
        0 <= k < 4,
    ensures
        row_pixels(meta, layout, row, columns)[4 * c + k] == as_rgba(
            cursor_format_of(layout.format)->0,
            meta.subrange(
                layout.start + row * layout.stride + 4 * c,
                layout.start + row * layout.stride + 4 * c + 4,
            ),
        )[k],
    decreases columns,
{
    lemma_row_pixels_len(meta, layout, row, columns - 1);
    if c < columns - 1 {
        lemma_row_pixel(meta, layout, row, columns - 1, c, k);
    }
}

proof fn lemma_bitmap_pixel(meta: Seq<u8>, layout: BitmapLayout, rows: int, r: int, c: int, k: int)
    requires
        0 <= r < rows,
        0 <= c < layout.width,
        0 <= k < 4,
    ensures
        0 <= r * (4 * layout.width) + (4 * c + k) < bitmap_pixels(meta, layout, rows).len(),
        bitmap_pixels(meta, layout, rows)[r * (4 * layout.width) + (4 * c + k)] == as_rgba(
            cursor_format_of(layout.format)->0,
            meta.subrange(
                layout.start + r * layout.stride + 4 * c,
                layout.start + r * layout.stride + 4 * c + 4,
            ),
        )[k],
    decreases rows,
{
    let width = layout.width as int;
    lemma_bitmap_pixels_len(meta, layout, rows - 1);
    lemma_bitmap_pixels_len(meta, layout, rows);
    lemma_row_pixels_len(meta, layout, rows - 1, width);
    assert(r * (4 * width) >= 0) by (nonlinear_arith)
        requires
            r >= 0,
            width >= 0,
    ;
    assert(r <= rows - 2 ==> r * (4 * width) + 4 * width <= (rows - 1) * (4 * width))
        by (nonlinear_arith)
        requires
            width >= 0,
    ;
    if r < rows - 1 {
        lemma_bitmap_pixel(meta, layout, rows - 1, r, c, k);
    } else {
        lemma_row_pixel(meta, layout, rows - 1, width, c, k);
    }
}

/// The pixels of a decoded image are those of the metadata, put in order one by one. The
/// header stands where the metadata says; its second and third words are the sides, its
/// fourth the bytes from row to row and its fifth where the pixels start behind it.
pub proof fn images_are_decoded_pixel_by_pixel(
    meta: &Vec<u8>,
    bitmap: Option<CursorBitmap>,
    row: int,
    column: int,
    channel: int,
    pixel: &[u8],
    rgba: Option<[u8; 4]>,
)
    requires
        meta@.len() >= 28,
        call_ensures(pipewire_cursor_bitmap, (meta,), bitmap),
        bitmap is Some,
        0 <= row < bitmap->0.height,
        0 <= column < bitmap->0.width,
        0 <= channel < 4,
        ({
            let header = le32(meta@, 24);
            let at = header + le32(meta@, header + 16) + row * le32(meta@, header + 12) + 4
                * column;
            &&& pixel@ == meta@.subrange(at, at + 4)
            &&& call_ensures(
                cursor_pixel_as_rgba,
                (le32(meta@, header) as u32, pixel),
                rgba,
            )
        }),
    ensures
        bitmap->0.width == le32(meta@, le32(meta@, 24) + 4),
        bitmap->0.height == le32(meta@, le32(meta@, 24) + 8),
        bitmap->0.rgba@.len() == 4 * (bitmap->0.width * bitmap->0.height),
        rgba matches Some(rgba) && bitmap->0.rgba@[4 * (row * bitmap->0.width + column) + channel]
            == rgba@[channel],
{
    let model = bitmap_view(bitmap)->0;
    assert(model == bitmap->0@);
    let layout = bitmap_layout(meta@)->0;
    let header = le32(meta@, 24);
    assert(crate::cursor_meta::word(meta@, 24) == header);
    assert(crate::cursor_meta::word(meta@, header) == le32(meta@, header));
    assert(crate::cursor_meta::word(meta@, header + 4) == le32(meta@, header + 4));
    assert(crate::cursor_meta::word(meta@, header + 8) == le32(meta@, header + 8));
    assert(crate::cursor_meta::word(meta@, header + 12) == le32(meta@, header + 12));
    assert(crate::cursor_meta::word(meta@, header + 16) == le32(meta@, header + 16));
    crate::cursor_meta::decoded_bitmaps_are_whole(meta@);
    lemma_bitmap_pixel(meta@, layout, layout.height as int, row, column, channel);
    let width = layout.width as int;
    let height = layout.height as int;
    assert(width * height * 4 == 4 * (width * height)) by (nonlinear_arith);
    assert(row * (4 * width) + (4 * column + channel) == 4 * (row * width + column) + channel)
        by (nonlinear_arith);
    let at = layout.start + row * layout.stride + 4 * column;
    assert(row * layout.stride >= 0) by (nonlinear_arith)
        requires
            row >= 0,
            layout.stride >= 0,
    ;
    assert(row * layout.stride <= (height - 1) * layout.stride) by (nonlinear_arith)
        requires
            row <= height - 1,
            layout.stride >= 0,
    ;
    assert(layout.stride * (layout.height - 1) == (height - 1) * layout.stride)
        by (nonlinear_arith)
        requires
            height == layout.height,
    ;
    assert(at + 4 <= meta@.len());
    assert(pixel@.len() == 4);
}

/// An image is decoded if and only if its header and its pixels are within the metadata and
/// behind what stands before them, the header is aligned, the format is known, both sides
/// lie between 1 and 512 and rows do not overlap. The pixel that points is then the nearest
/// one within the image.
pub proof fn sound_images_are_decoded(meta: &Vec<u8>, bitmap: Option<CursorBitmap>)
    requires
        meta@.len() >= 28,
        call_ensures(pipewire_cursor_bitmap, (meta,), bitmap),
    ensures
        ({
            let bytes = meta@;
            let header = le32(bytes, 24);
            let (format, width, height) = (
                le32(bytes, header),
                le32(bytes, header + 4),
                le32(bytes, header + 8),
            );
            let (stride, pixels) = (sle32(bytes, header + 12), le32(bytes, header + 16));
            &&& bitmap is Some <==> {
                &&& header >= 28 && header % 4 == 0 && header + 20 <= bytes.len()
                &&& 7 <= format <= 14
                &&& 1 <= width <= 512 && 1 <= height <= 512
                &&& stride >= 4 * width && pixels >= 20
                &&& header + pixels + (height - 1) * stride + 4 * width <= bytes.len()
            }
            &&& bitmap matches Some(image) ==> {
                &&& 0 <= image.hotspot_x < width && 0 <= image.hotspot_y < height
                &&& 0 <= sle32(bytes, 16) < width ==> image.hotspot_x == sle32(bytes, 16)
                &&& 0 <= sle32(bytes, 20) < height ==> image.hotspot_y == sle32(bytes, 20)
                &&& sle32(bytes, 16) < 0 ==> image.hotspot_x == 0
                &&& sle32(bytes, 20) < 0 ==> image.hotspot_y == 0
                &&& sle32(bytes, 16) >= width ==> image.hotspot_x == width - 1
                &&& sle32(bytes, 20) >= height ==> image.hotspot_y == height - 1
            }
        }),
{
    let bytes = meta@;
    let header = le32(bytes, 24);
    assert(bitmap_view(bitmap) is Some <==> bitmap is Some);
    assert(crate::cursor_meta::word(bytes, 24) == header);
    assert(crate::cursor_meta::signed_word(bytes, 16) == sle32(bytes, 16));
    assert(crate::cursor_meta::signed_word(bytes, 20) == sle32(bytes, 20));
    assert(crate::cursor_meta::word(bytes, header) == le32(bytes, header));
    assert(crate::cursor_meta::word(bytes, header + 4) == le32(bytes, header + 4));
    assert(crate::cursor_meta::word(bytes, header + 8) == le32(bytes, header + 8));
    assert(crate::cursor_meta::word(bytes, header + 12) == le32(bytes, header + 12));
    assert(crate::cursor_meta::word(bytes, header + 16) == le32(bytes, header + 16));
    assert(crate::cursor_meta::signed_word(bytes, header + 12) == sle32(bytes, header + 12));
    let height = le32(bytes, header + 8);
    let stride = le32(bytes, header + 12);
    assert((height - 1) * stride == stride * (height - 1)) by (nonlinear_arith);
}

/// Whether metadata is a whole cursor.
pub open spec fn holds_cursor(meta: BufferMeta) -> bool {
    meta.kind == 5 && (meta.data matches MetaData::Bytes(bytes) && bytes@.len() >= 28)
}

/// Only the first whole cursor of a buffer counts, and what it says is read from its words:
/// its number, none of which means that it is hidden, its place and its image. Without a
/// whole cursor the buffer says nothing.
pub proof fn first_cursors_count(
    metas: &Vec<BufferMeta>,
    update: PipewireCursorUpdate,
    at: int,
    image: Option<CursorBitmap>,
    found: bool,
)
    requires
        call_ensures(pipewire_cursor_update, (metas,), update),
        call_ensures(pipewire_buffer_has_cursor_meta, (metas,), found),
        0 <= at <= metas@.len(),
        forall|k: int| 0 <= k < at ==> !holds_cursor(#[trigger] metas@[k]),
        at < metas@.len() ==> holds_cursor(metas@[at]),
        at < metas@.len() ==> call_ensures(
            pipewire_cursor_bitmap,
            (&metas@[at].data->Bytes_0,),
            image,
        ),
    ensures
        found <==> at < metas@.len(),
        update is Unchanged <==> at == metas@.len(),
        at < metas@.len() ==> ({
            let bytes = metas@[at].data->Bytes_0@;
            &&& update is Hidden <==> le32(bytes, 0) == 0
            &&& update matches PipewireCursorUpdate::Visible(state) ==> {
                &&& state.id == le32(bytes, 0)
                &&& state.x == sle32(bytes, 8)
                &&& state.y == sle32(bytes, 12)
                &&& bitmap_view(state.bitmap) == bitmap_view(image)
            }
        }),
{
    assert forall|k: int| 0 <= k < at implies !(crate::cursor_meta::whole_cursors())(
        #[trigger] metas@[k],
    ) by {
        assert(!holds_cursor(metas@[k]));
    }
    crate::order::lemma_first_where(metas@, crate::cursor_meta::whole_cursors(), at);
    if at < metas@.len() {
        let bytes = metas@[at].data->Bytes_0@;
        assert(crate::cursor_meta::is_cursor_meta(metas@[at]));
        assert(crate::cursor_meta::word(bytes, 0) == le32(bytes, 0));
        assert(crate::cursor_meta::signed_word(bytes, 8) == sle32(bytes, 8));
        assert(crate::cursor_meta::signed_word(bytes, 12) == sle32(bytes, 12));
        if let PipewireCursorUpdate::Visible(state) = update {
            assert(update@ == crate::cursor_meta::CursorUpdateModel::Visible(state@));
        }
    } else {
        assert forall|k: int| 0 <= k < metas@.len() implies !crate::cursor_meta::is_cursor_meta(
            #[trigger] metas@[k],
        ) by {
            assert(!holds_cursor(metas@[k]));
        }
    }
}

/// Only the first metadata of damage counts. It says that a frame is damaged if its first
/// region has an area, and undamaged if it has none or there is no region; what is no list
/// of regions says nothing.
pub proof fn first_damage_counts(metas: &Vec<BufferMeta>, damage: Option<bool>, at: int)
    requires
        call_ensures(pipewire_video_damage, (metas,), damage),
        0 <= at <= metas@.len(),
        forall|k: int| 0 <= k < at ==> (#[trigger] metas@[k]).kind != 3,
        at < metas@.len() ==> metas@[at].kind == 3,
    ensures
        damage is Some <==> at < metas@.len() && (metas@[at].data matches MetaData::Bytes(bytes)
            && bytes@.len() % 16 == 0),
        damage matches Some(damaged) ==> ({
            let bytes = metas@[at].data->Bytes_0@;
            damaged <==> bytes.len() >= 16 && le32(bytes, 8) > 0 && le32(bytes, 12) > 0
        }),
{
    assert forall|k: int| 0 <= k < at implies !(crate::cursor_meta::damages())(
        #[trigger] metas@[k],
    ) by {
        assert(metas@[k].kind != 3);
    }
    crate::order::lemma_first_where(metas@, crate::cursor_meta::damages(), at);
    if at < metas@.len() && metas@[at].data is Bytes {
        let bytes = metas@[at].data->Bytes_0@;
        assert(crate::cursor_meta::word(bytes, 8) == le32(bytes, 8));
        assert(crate::cursor_meta::word(bytes, 12) == le32(bytes, 12));
    }
}

/// The first buffer is looked at, and no other.
pub proof fn one_buffer_is_inspected(
    metas: Option<&Vec<BufferMeta>>,
    inspected: &mut bool,
    result: Option<bool>,
    found: bool,
)
    requires
        call_ensures(inspect_metas_once, (metas, inspected), result),
        metas matches Some(metas) ==> call_ensures(
            pipewire_buffer_has_cursor_meta,
            (metas,),
            found,
        ),
    ensures
        result is Some <==> !*old(inspected) && metas is Some,
        result matches Some(has_cursor) ==> has_cursor == found,
        *final(inspected) <==> *old(inspected) || metas is Some,
{
}

} // verus!

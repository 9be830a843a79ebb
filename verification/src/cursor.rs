//! The cursor's course: from buffer metadata over samples to published events.

use vstd::prelude::*;

use crate::bytes::bytes_equal;
use crate::cursor_meta::{
    bitmap_view, CursorBitmap, CursorBitmapModel, CursorStateModel, CursorUpdateModel,
    PipewireCursorState, PipewireCursorUpdate,
};
use crate::dash::FrameChange;

verus! {

/// How long required cursor metadata may be missing.
pub const CURSOR_METADATA_GRACE_NANOS: u64 = 5_000_000_000;

/// Media ticks after which an unchanged cursor image is sent again.
pub const CURSOR_BITMAP_REFRESH_TICKS: u64 = 5_400_000;

/// Whether capture goes on as far as the cursor is concerned.
#[derive(Clone, Copy, Debug, PartialEq, Eq, Structural)]
pub enum PipewireCursorMetadataGate {
    /// It does.
    Ready,
    /// Required metadata is missing for now.
    Pending,
    /// Required metadata has been missing for too long.
    Fatal,
}

/// Decides whether capture goes on. `now` and `missing_since` count nanoseconds of one
/// monotonic clock.
pub fn pipewire_cursor_metadata_gate(
    has_meta: bool,
    required: bool,
    verified: &mut bool,
    missing_since: &mut Option<u64>,
    now: u64,
) -> (gate: PipewireCursorMetadataGate)
    ensures
        !required ==> {
            &&& gate == PipewireCursorMetadataGate::Ready
            &&& *final(verified) == *old(verified)
            &&& *final(missing_since) == *old(missing_since)
        },
        required && has_meta ==> {
            &&& gate == PipewireCursorMetadataGate::Ready
            &&& *final(verified)
            &&& *final(missing_since) is None
        },
        required && !has_meta ==> {
            let since = match *old(missing_since) {
                Some(since) => since,
                None => now,
            };
            &&& *final(verified) == *old(verified)
            &&& *final(missing_since) == Some(since)
            &&& gate == if now - since >= CURSOR_METADATA_GRACE_NANOS {
                PipewireCursorMetadataGate::Fatal
            } else {
                PipewireCursorMetadataGate::Pending
            }
        },
{
    if !required {
        return PipewireCursorMetadataGate::Ready;
    }
    if has_meta {
        *verified = true;
        *missing_since = None;
        return PipewireCursorMetadataGate::Ready;
    }
    let since: u64 = match *missing_since {
        Some(since) => since,
        None => now,
    };
    *missing_since = Some(since);
    if now.saturating_sub(since) >= CURSOR_METADATA_GRACE_NANOS {
        PipewireCursorMetadataGate::Fatal
    } else {
        PipewireCursorMetadataGate::Pending
    }
}

/// What is known of the cursor at one moment.
#[derive(Debug)]
pub struct PipewireCursorSample {
    /// Number of the sample.
    pub serial: u64,
    /// Position from the left, within the source.
    pub x: i32,
    /// Position from the top, within the source.
    pub y: i32,
    /// Whether the cursor is visible.
    pub visible: bool,
    /// Width of the source.
    pub source_width: u32,
    /// Height of the source.
    pub source_height: u32,
    /// Its image.
    pub bitmap: Option<CursorBitmap>,
}

/// What is known of the cursor at one moment, as a mathematical value.
#[verifier::ext_equal]
pub struct CursorSampleModel {
    /// Number of the sample.
    pub serial: u64,
    /// Position from the left.
    pub x: int,
    /// Position from the top.
    pub y: int,
    /// Whether the cursor is visible.
    pub visible: bool,
    /// Width of the source.
    pub source_width: u32,
    /// Height of the source.
    pub source_height: u32,
    /// Its image.
    pub bitmap: Option<CursorBitmapModel>,
}

impl View for PipewireCursorSample {
    type V = CursorSampleModel;

    open spec fn view(&self) -> CursorSampleModel {
        CursorSampleModel {
            serial: self.serial,
            x: self.x as int,
            y: self.y as int,
            visible: self.visible,
            source_width: self.source_width,
            source_height: self.source_height,
            bitmap: bitmap_view(self.bitmap),
        }
    }
}

/// A position within an extent.
pub open spec fn within_extent(position: int, extent: u32) -> int {
    let last = if extent > i32::MAX {
        i32::MAX as int
    } else {
        extent as int
    };
    if position < 0 {
        0
    } else if position > last {
        last
    } else {
        position
    }
}

/// A position within an extent.
pub fn clamped_cursor_position(position: i32, extent: u32) -> (clamped: i32)
    ensures
        clamped == within_extent(position as int, extent),
{
    let last: i32 = if extent > 0x7fff_ffff {
        i32::MAX
    } else {
        extent as i32
    };
    if position < 0 {
        0
    } else if position > last {
        last
    } else {
        position
    }
}

/// The number of the next sample. Zero is left out.
pub open spec fn next_serial(serial: u64) -> u64 {
    if serial == u64::MAX {
        1
    } else {
        (serial + 1) as u64
    }
}

fn advance(serial: u64) -> (next: u64)
    ensures
        next == next_serial(serial),
{
    if serial == u64::MAX {
        1
    } else {
        serial + 1
    }
}

fn bitmaps_equal(a: &CursorBitmap, b: &CursorBitmap) -> (equal: bool)
    ensures
        equal == (a@ == b@),
{
    let equal = a.width == b.width && a.height == b.height && a.hotspot_x == b.hotspot_x
        && a.hotspot_y == b.hotspot_y && bytes_equal(a.rgba.as_slice(), b.rgba.as_slice());
    assert(equal == (a@ =~= b@));
    equal
}

fn images_equal(a: &Option<CursorBitmap>, b: &Option<CursorBitmap>) -> (equal: bool)
    ensures
        equal == (bitmap_view(*a) == bitmap_view(*b)),
{
    match (a, b) {
        (Some(a), Some(b)) => bitmaps_equal(a, b),
        (None, None) => true,
        _ => false,
    }
}

fn copy_image(bitmap: &Option<CursorBitmap>) -> (copy: Option<CursorBitmap>)
    ensures
        bitmap_view(copy) == bitmap_view(*bitmap),
{
    match bitmap {
        Some(bitmap) => Some(bitmap.duplicate()),
        None => None,
    }
}

/// A visible cursor that may be absent, as a mathematical value.
pub open spec fn state_view(state: Option<PipewireCursorState>) -> Option<CursorStateModel> {
    match state {
        Some(state) => Some(state@),
        None => None,
    }
}

/// A sample that may be absent, as a mathematical value.
pub open spec fn sample_view(sample: Option<PipewireCursorSample>) -> Option<CursorSampleModel> {
    match sample {
        Some(sample) => Some(sample@),
        None => None,
    }
}

/// What is remembered of the cursor.
#[verifier::ext_equal]
pub struct CursorMemory {
    /// Number of the last sample.
    pub serial: u64,
    /// The cursor while it is visible.
    pub last: Option<CursorStateModel>,
}

impl CursorMemory {
    /// The cursor that a buffer shows. One that comes without its image keeps the image of
    /// the cursor of the same number.
    pub open spec fn completed(self, state: CursorStateModel) -> CursorStateModel {
        if state.bitmap is None && (self.last matches Some(last) && last.id == state.id) {
            CursorStateModel { bitmap: self.last->0.bitmap, ..state }
        } else {
            state
        }
    }

    /// Whether an update is news.
    pub open spec fn is_news(self, update: CursorUpdateModel) -> bool {
        match update {
            CursorUpdateModel::Unchanged => false,
            CursorUpdateModel::Hidden => self.last is Some,
            CursorUpdateModel::Visible(state) => self.last != Some(self.completed(state)),
        }
    }

    /// The sample that an update gives.
    pub open spec fn sample(
        self,
        update: CursorUpdateModel,
        source_width: u32,
        source_height: u32,
    ) -> Option<CursorSampleModel> {
        if !self.is_news(update) {
            None
        } else {
            let (position, visible, bitmap) = match update {
                CursorUpdateModel::Visible(state) => (state, true, self.completed(state).bitmap),
                _ => (self.last->0, false, None),
            };
            Some(
                CursorSampleModel {
                    serial: next_serial(self.serial),
                    x: within_extent(position.x as int, source_width),
                    y: within_extent(position.y as int, source_height),
                    visible,
                    source_width,
                    source_height,
                    bitmap,
                },
            )
        }
    }

    /// What is remembered after an update.
    pub open spec fn after(self, update: CursorUpdateModel) -> CursorMemory {
        if !self.is_news(update) {
            self
        } else {
            CursorMemory {
                serial: next_serial(self.serial),
                last: match update {
                    CursorUpdateModel::Visible(state) => Some(self.completed(state)),
                    _ => None,
                },
            }
        }
    }
}

/// Turns what a buffer says of the cursor into a sample, where it is news.
pub fn pipewire_cursor_sample(
    update: PipewireCursorUpdate,
    source_width: u32,
    source_height: u32,
    cursor_serial: &mut u64,
    last_cursor_state: &mut Option<PipewireCursorState>,
) -> (sample: Option<PipewireCursorSample>)
    ensures
        ({
            let memory = CursorMemory {
                serial: *old(cursor_serial),
                last: state_view(*old(last_cursor_state)),
            };
            &&& sample_view(sample) == memory.sample(update@, source_width, source_height)
            &&& memory.after(update@) == CursorMemory {
                serial: *final(cursor_serial),
                last: state_view(*final(last_cursor_state)),
            }
        }),
{
    match update {
        PipewireCursorUpdate::Unchanged => None,
        PipewireCursorUpdate::Hidden => {
            let (x, y) = match &*last_cursor_state {
                None => {
                    return None;
                },
                Some(previous) => (previous.x, previous.y),
            };
            *last_cursor_state = None;
            *cursor_serial = advance(*cursor_serial);
            Some(
                PipewireCursorSample {
                    serial: *cursor_serial,
                    x: clamped_cursor_position(x, source_width),
                    y: clamped_cursor_position(y, source_height),
                    visible: false,
                    source_width,
                    source_height,
                    bitmap: None,
                },
            )
        },
        PipewireCursorUpdate::Visible(shown) => {
            let ghost memory = CursorMemory {
                serial: *cursor_serial,
                last: state_view(*last_cursor_state),
            };
            let ghost said = shown@;
            let mut state = shown;
            let same = match &*last_cursor_state {
                None => false,
                Some(previous) => {
                    if state.bitmap.is_none() && previous.id == state.id {
                        state.bitmap = copy_image(&previous.bitmap);
                    }
                    previous.id == state.id && previous.x == state.x && previous.y == state.y
                        && images_equal(&previous.bitmap, &state.bitmap)
                },
            };
            assert(state@ =~= memory.completed(said));
            if same {
                return None;
            }
            *cursor_serial = advance(*cursor_serial);
            let sample = PipewireCursorSample {
                serial: *cursor_serial,
                x: clamped_cursor_position(state.x, source_width),
                y: clamped_cursor_position(state.y, source_height),
                visible: true,
                source_width,
                source_height,
                bitmap: copy_image(&state.bitmap),
            };
            *last_cursor_state = Some(state);
            Some(sample)
        },
    }
}

/// Hands out each sample once.
#[derive(Clone, Copy, Debug, PartialEq, Eq, Structural)]
pub struct CursorFeed {
    /// Number of the sample that was handed out last.
    pub last_serial: u64,
}

impl CursorFeed {
    /// Whether the newest sample has not been handed out yet.
    pub fn take(&mut self, newest: Option<u64>) -> (fresh: bool)
        ensures
            fresh == (newest is Some && newest->0 != old(self).last_serial),
            final(self).last_serial == if fresh {
                newest->0
            } else {
                old(self).last_serial
            },
    {
        match newest {
            None => false,
            Some(serial) => {
                if serial == self.last_serial {
                    return false;
                }
                self.last_serial = serial;
                true
            },
        }
    }
}

/// What damage metadata says of a frame.
pub fn frame_change_from_damage(damage: Option<bool>) -> (change: FrameChange)
    ensures
        change == match damage {
            Some(true) => FrameChange::Changed,
            Some(false) => FrameChange::Unchanged,
            None => FrameChange::Unknown,
        },
{
    match damage {
        Some(true) => FrameChange::Changed,
        Some(false) => FrameChange::Unchanged,
        None => FrameChange::Unknown,
    }
}

/// Damage of the buffers since the last frame that was taken.
#[derive(Clone, Copy, Debug, PartialEq, Eq, Structural)]
pub enum AccumulatedFrameDamage {
    /// There was no buffer.
    Empty,
    /// None is damaged.
    Unchanged,
    /// None is known to be damaged; of some nothing is known.
    Unknown,
    /// One is damaged.
    Changed,
}

/// The damage of several buffers taken together.
pub open spec fn accumulated(damages: Seq<Option<bool>>) -> AccumulatedFrameDamage {
    if damages.contains(Some(true)) {
        AccumulatedFrameDamage::Changed
    } else if damages.contains(None) {
        AccumulatedFrameDamage::Unknown
    } else if damages.len() > 0 {
        AccumulatedFrameDamage::Unchanged
    } else {
        AccumulatedFrameDamage::Empty
    }
}

impl Default for AccumulatedFrameDamage {
    fn default() -> (damage: AccumulatedFrameDamage)
        ensures
            damage == AccumulatedFrameDamage::Empty,
    {
        AccumulatedFrameDamage::Empty
    }
}

impl AccumulatedFrameDamage {
    /// The damage with one more buffer.
    pub open spec fn with(self, damage: Option<bool>) -> AccumulatedFrameDamage {
        if self == AccumulatedFrameDamage::Changed || damage == Some(true) {
            AccumulatedFrameDamage::Changed
        } else if self == AccumulatedFrameDamage::Unknown || damage is None {
            AccumulatedFrameDamage::Unknown
        } else {
            AccumulatedFrameDamage::Unchanged
        }
    }

    /// Takes note of a buffer's damage.
    pub fn observe(&mut self, damage: Option<bool>)
        ensures
            *final(self) == old(self).with(damage),
    {
        *self = match (*self, damage) {
            (AccumulatedFrameDamage::Changed, _) => AccumulatedFrameDamage::Changed,
            (_, Some(true)) => AccumulatedFrameDamage::Changed,
            (AccumulatedFrameDamage::Unknown, _) => AccumulatedFrameDamage::Unknown,
            (_, None) => AccumulatedFrameDamage::Unknown,
            (_, Some(false)) => AccumulatedFrameDamage::Unchanged,
        };
    }

    /// Gives the damage up to now and starts over.
    pub fn take(&mut self) -> (damage: Option<bool>)
        ensures
            damage == match *old(self) {
                AccumulatedFrameDamage::Changed => Some(true),
                AccumulatedFrameDamage::Unchanged => Some(false),
                _ => None,
            },
            *final(self) == AccumulatedFrameDamage::Empty,
    {
        let damage = *self;
        *self = AccumulatedFrameDamage::Empty;
        match damage {
            AccumulatedFrameDamage::Changed => Some(true),
            AccumulatedFrameDamage::Unchanged => Some(false),
            _ => None,
        }
    }
}

/// Damage that was seen while frames were passed over is never lost: what is taken is the
/// damage of all buffers since.
pub proof fn damage_accumulates(damages: Seq<Option<bool>>, damage: Option<bool>)
    ensures
        accumulated(damages).with(damage) == accumulated(damages.push(damage)),
        accumulated(Seq::empty()) == AccumulatedFrameDamage::Empty,
{
    let more = damages.push(damage);
    assert(more[damages.len() as int] == damage);
    assert forall|one: Option<bool>|
        #[trigger] more.contains(one) == (damages.contains(one) || one == damage) by {
        if damages.contains(one) {
            let i = choose|i: int| 0 <= i < damages.len() && damages[i] == one;
            assert(more[i] == one);
        }
    }
}

/// Why a cursor cannot be published.
#[derive(Clone, Copy, Debug, PartialEq, Eq, Structural)]
pub enum CursorError {
    /// Its image has more bytes than can be counted.
    BitmapOverflow,
    /// The bytes of its image do not fit its sides.
    BitmapMismatch,
}

/// Why an image cannot be published.
pub open spec fn bitmap_objection(bitmap: CursorBitmapModel) -> Option<CursorError> {
    if bitmap.width * bitmap.height * 4 > usize::MAX {
        Some(CursorError::BitmapOverflow)
    } else if bitmap.rgba.len() != bitmap.width * bitmap.height * 4 {
        Some(CursorError::BitmapMismatch)
    } else {
        None
    }
}

/// The image as it is published.
pub fn dash_cursor_bitmap(bitmap: &CursorBitmap) -> (result: Result<CursorBitmap, CursorError>)
    ensures
        match result {
            Ok(published) => bitmap_objection(bitmap@) is None && published@ == bitmap@,
            Err(error) => bitmap_objection(bitmap@) == Some(error),
        },
{
    let length: u128 = bitmap.rgba.len() as u128;
    let (width, height): (u128, u128) = (bitmap.width as u128, bitmap.height as u128);
    assert(0 <= width * height <= 0xffff_ffff * 0xffff_ffff) by (nonlinear_arith)
        requires
            0 <= width <= 0xffff_ffff,
            0 <= height <= 0xffff_ffff,
    ;
    let expected: u128 = width * height * 4;
    if expected > usize::MAX as u128 {
        return Err(CursorError::BitmapOverflow);
    }
    if length != expected {
        return Err(CursorError::BitmapMismatch);
    }
    Ok(bitmap.duplicate())
}

/// What is remembered of the image that was published last.
#[derive(Debug)]
pub struct DashCursorBitmapState {
    /// Number of the image.
    pub current_id: u64,
    /// The image.
    pub last: Option<CursorBitmap>,
    /// When it was sent last.
    pub last_sent_timestamp: Option<u64>,
}

/// What is remembered of the image that was published last, as a mathematical value.
#[verifier::ext_equal]
pub struct BitmapStateModel {
    /// Number of the image.
    pub current_id: u64,
    /// The image.
    pub last: Option<CursorBitmapModel>,
    /// When it was sent last.
    pub last_sent_timestamp: Option<u64>,
}

impl View for DashCursorBitmapState {
    type V = BitmapStateModel;

    open spec fn view(&self) -> BitmapStateModel {
        BitmapStateModel {
            current_id: self.current_id,
            last: bitmap_view(self.last),
            last_sent_timestamp: self.last_sent_timestamp,
        }
    }
}

impl BitmapStateModel {
    /// Whether the last image is due to be sent again.
    pub open spec fn refresh_due(self, timestamp: u64) -> bool {
        self.last_sent_timestamp matches Some(last) ==> timestamp - last
            >= CURSOR_BITMAP_REFRESH_TICKS
    }

    /// Whether an image is sent with an event.
    pub open spec fn sends(self, bitmap: Option<CursorBitmapModel>, timestamp: u64) -> bool {
        bitmap is Some && (self.last != bitmap || self.refresh_due(timestamp))
    }

    /// What is remembered after an event.
    pub open spec fn after(self, bitmap: Option<CursorBitmapModel>, timestamp: u64) -> BitmapStateModel {
        if !self.sends(bitmap, timestamp) {
            self
        } else {
            BitmapStateModel {
                current_id: if self.last == bitmap {
                    self.current_id
                } else {
                    next_serial(self.current_id)
                },
                last: bitmap,
                last_sent_timestamp: Some(timestamp),
            }
        }
    }
}

/// A cursor at one moment, as it is published.
#[derive(Debug)]
pub struct DashCursorEvent {
    /// When, in media ticks.
    pub timestamp: u64,
    /// Position from the left in millionths of a pixel.
    pub x_micropixels: i64,
    /// Position from the top in millionths of a pixel.
    pub y_micropixels: i64,
    /// Whether the cursor is visible.
    pub visible: bool,
    /// Number of its image.
    pub bitmap_id: u64,
    /// Its image, where it is sent along.
    pub bitmap: Option<CursorBitmap>,
}

impl DashCursorBitmapState {
    /// Nothing was published.
    pub fn new() -> (state: Self)
        ensures
            state@ == (BitmapStateModel { current_id: 0, last: None, last_sent_timestamp: None }),
    {
        DashCursorBitmapState { current_id: 0, last: None, last_sent_timestamp: None }
    }
}

/// Turns a cursor into an event. Its image goes along when it is new and, unchanged, once
/// per refresh period; the image that is due but cannot be published fails the event.
pub fn cursor_to_dash_event(
    timestamp: u64,
    x_micropixels: i64,
    y_micropixels: i64,
    visible: bool,
    bitmap: Option<CursorBitmap>,
    state: &mut DashCursorBitmapState,
) -> (result: Result<DashCursorEvent, CursorError>)
    ensures
        final(state)@ == old(state)@.after(bitmap_view(bitmap), timestamp),
        ({
            let sends = old(state)@.sends(bitmap_view(bitmap), timestamp);
            match result {
                Err(error) => sends && bitmap_objection(bitmap->0@) == Some(error),
                Ok(event) => {
                    &&& sends ==> bitmap_objection(bitmap->0@) is None
                    &&& event.timestamp == timestamp
                    &&& event.x_micropixels == x_micropixels
                    &&& event.y_micropixels == y_micropixels
                    &&& event.visible == visible
                    &&& event.bitmap_id == final(state)@.current_id
                    &&& bitmap_view(event.bitmap) == if sends {
                        bitmap_view(bitmap)
                    } else {
                        None
                    }
                },
            }
        }),
{
    let sent: Option<CursorBitmap> = match bitmap {
        None => None,
        Some(bitmap) => {
            let same = match &state.last {
                Some(last) => bitmaps_equal(last, &bitmap),
                None => false,
            };
            let due = match state.last_sent_timestamp {
                Some(last) => timestamp.saturating_sub(last) >= CURSOR_BITMAP_REFRESH_TICKS,
                None => true,
            };
            if same && !due {
                None
            } else {
                if !same {
                    state.current_id = advance(state.current_id);
                    state.last = Some(bitmap.duplicate());
                }
                state.last_sent_timestamp = Some(timestamp);
                match dash_cursor_bitmap(&bitmap) {
                    Ok(published) => Some(published),
                    Err(error) => {
                        return Err(error);
                    },
                }
            }
        },
    };
    Ok(
        DashCursorEvent {
            timestamp,
            x_micropixels,
            y_micropixels,
            visible,
            bitmap_id: state.current_id,
            bitmap: sent,
        },
    )
}

/// Cursor events that wait to be sent, with the times that decide when they are.
#[derive(Debug)]
pub struct CursorBatch {
    /// The events, oldest first.
    pub events: Vec<DashCursorEvent>,
    /// When events were sent last, in nanoseconds.
    pub last_flush: u64,
    /// How long events are gathered, in nanoseconds.
    pub flush_every: u64,
}

impl CursorBatch {
    /// Whether events have been gathered for long enough.
    pub open spec fn is_due(self, now: u64) -> bool {
        now >= self.last_flush && now - self.last_flush >= self.flush_every || self.flush_every
            == 0
    }

    /// Begins to gather events, each for some milliseconds, one at least.
    pub fn new(flush_ms: u64, now: u64) -> (batch: Self)
        ensures
            batch.events@ == Seq::<DashCursorEvent>::empty(),
            batch.last_flush == now,
            batch.flush_every == if flush_ms == 0 {
                1_000_000
            } else if flush_ms * 1_000_000 > u64::MAX {
                u64::MAX as int
            } else {
                flush_ms * 1_000_000
            },
    {
        let milliseconds: u64 = if flush_ms == 0 {
            1
        } else {
            flush_ms
        };
        CursorBatch {
            events: Vec::new(),
            last_flush: now,
            flush_every: match milliseconds.checked_mul(1_000_000) {
                Some(nanoseconds) => nanoseconds,
                None => u64::MAX,
            },
        }
    }

    /// Adds an event.
    pub fn push(&mut self, event: DashCursorEvent)
        ensures
            final(self).events@ == old(self).events@.push(event),
            final(self).last_flush == old(self).last_flush,
            final(self).flush_every == old(self).flush_every,
    {
        self.events.push(event);
    }

    /// Adds events that were gathered elsewhere and hands out all that wait.
    pub fn join(&mut self, gathered: Vec<DashCursorEvent>) -> (events: Vec<DashCursorEvent>)
        ensures
            events@ == old(self).events@ + gathered@,
            final(self).events@ == Seq::<DashCursorEvent>::empty(),
            final(self).last_flush == old(self).last_flush,
            final(self).flush_every == old(self).flush_every,
    {
        let mut events: Vec<DashCursorEvent> = Vec::new();
        let mut gathered = gathered;
        core::mem::swap(&mut events, &mut self.events);
        events.append(&mut gathered);
        events
    }

    /// Hands out the events of a sampler that runs by itself: once they have been gathered
    /// for long enough, and only if there are any.
    pub fn hand_over(&mut self, now: u64) -> (events: Option<Vec<DashCursorEvent>>)
        ensures
            match events {
                Some(events) => {
                    &&& old(self).is_due(now) && old(self).events@.len() > 0
                    &&& events@ == old(self).events@
                    &&& final(self).events@ == Seq::<DashCursorEvent>::empty()
                    &&& final(self).last_flush == now
                },
                None => {
                    &&& !old(self).is_due(now) || old(self).events@.len() == 0
                    &&& final(self).events@ == old(self).events@
                    &&& final(self).last_flush == old(self).last_flush
                },
            },
            final(self).flush_every == old(self).flush_every,
    {
        if self.events.len() == 0 {
            return None;
        }
        self.flush(now)
    }

    /// Hands out the events of a sampler that shares its task with the video: once they
    /// have been gathered for long enough, none at all included.
    pub fn flush(&mut self, now: u64) -> (events: Option<Vec<DashCursorEvent>>)
        ensures
            match events {
                Some(events) => {
                    &&& old(self).is_due(now)
                    &&& events@ == old(self).events@
                    &&& final(self).events@ == Seq::<DashCursorEvent>::empty()
                    &&& final(self).last_flush == now
                },
                None => {
                    &&& !old(self).is_due(now)
                    &&& final(self).events@ == old(self).events@
                    &&& final(self).last_flush == old(self).last_flush
                },
            },
            final(self).flush_every == old(self).flush_every,
    {
        if now.saturating_sub(self.last_flush) < self.flush_every {
            return None;
        }
        let mut events: Vec<DashCursorEvent> = Vec::new();
        core::mem::swap(&mut events, &mut self.events);
        self.last_flush = now;
        Some(events)
    }
}

/// A cursor that does not change gives no sample after the first, and hiding it gives
/// exactly one.
pub proof fn repeated_cursors_give_one_sample(
    memory: CursorMemory,
    state: CursorStateModel,
    source_width: u32,
    source_height: u32,
)
    ensures
        ({
            let shown = memory.after(CursorUpdateModel::Visible(state));
            let hidden = shown.after(CursorUpdateModel::Hidden);
            &&& shown.sample(CursorUpdateModel::Visible(state), source_width, source_height) is None
            &&& shown.after(CursorUpdateModel::Visible(state)) == shown
            &&& shown.sample(CursorUpdateModel::Hidden, source_width, source_height) is Some
            &&& hidden.sample(CursorUpdateModel::Hidden, source_width, source_height) is None
        }),
{
    let shown = memory.after(CursorUpdateModel::Visible(state));
    assert(shown.last == Some(memory.completed(state)));
    assert(shown.completed(state) =~= memory.completed(state));
}

/// A viewer that joins is never without the cursor's image for longer than the refresh
/// period: an image that was sent is sent again once the period has passed.
pub proof fn cursor_images_are_refreshed(
    state: BitmapStateModel,
    bitmap: CursorBitmapModel,
    sent_at: u64,
    later: u64,
)
    requires
        state.sends(Some(bitmap), sent_at),
    ensures
        state.after(Some(bitmap), sent_at).sends(Some(bitmap), later) <==> later - sent_at
            >= CURSOR_BITMAP_REFRESH_TICKS,
        state.after(Some(bitmap), sent_at).after(Some(bitmap), later).current_id == state.after(
            Some(bitmap),
            sent_at,
        ).current_id,
{
}

} // verus!

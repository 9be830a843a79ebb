//! What a capture does with each format and buffer that the capture server delivers.
//!
//! Moments and spans count nanoseconds of one monotonic clock.

use vstd::prelude::*;

use crate::cursor::{
    pipewire_cursor_metadata_gate, pipewire_cursor_sample, state_view, sample_view,
    AccumulatedFrameDamage, CursorMemory, PipewireCursorMetadataGate, PipewireCursorSample,
    CURSOR_METADATA_GRACE_NANOS,
};
use crate::cursor_meta::{
    cursor_in, damage_in, has_cursor, pipewire_buffer_has_cursor_meta, pipewire_cursor_update,
    pipewire_video_damage, BufferMeta, PipewireCursorState,
};
use crate::formats::{
    buffer_request, dmabuf_requires_gpu_readback, requested_buffers, BufferRequest,
};
use crate::meter::{span, CaptureCounts, CaptureRateMeter};
use crate::pixels::{
    drm_fourcc_for_video_format, expected_frame_size_from_stride, fourcc_of, frame_bytes,
    frame_format_of, raw_frame_format_for_video_format, RawFrameFormat,
};
use crate::startup::ScreenCastBackend;
use crate::text::{append, decimal_text, format_u64};

verus! {

/// Why a capture ends.
#[derive(Debug, PartialEq, Eq)]
pub enum CaptureError {
    /// The size is not that of the chosen source.
    UnexpectedSize {
        /// The node that is captured.
        node_id: u32,
        /// Width of the chosen source.
        expected_width: u32,
        /// Height of the chosen source.
        expected_height: u32,
        /// Width that was agreed on.
        width: u32,
        /// Height that was agreed on.
        height: u32,
        /// Whether frames were to be handed to the graphics driver.
        imports_frames: bool,
    },
    /// The graphics driver has no name for the pixel format.
    UnsupportedFormat {
        /// What the capture server calls the pixel format.
        name: String,
    },
    /// Required cursor metadata has been missing for too long.
    CursorMetadataMissing {
        /// Whether frames were to be handed to the graphics driver.
        imports_frames: bool,
    },
    /// The graphics driver cannot read a frame back.
    ReadbackFailed {
        /// The node that is captured.
        node_id: u32,
        /// Why, in the driver's words.
        reason: String,
    },
    /// A frame's memory cannot be mapped.
    UnreadableMemory {
        /// The node that is captured.
        node_id: u32,
    },
}

/// What a capture is called: one whose frames are handed on is a video capture.
pub open spec fn capture_name(imports_frames: bool) -> Seq<char> {
    if imports_frames {
        "PipeWire video"@
    } else {
        "PipeWire"@
    }
}

/// The text of a size.
pub open spec fn size_text(width: u32, height: u32) -> Seq<char> {
    decimal_text(width as nat) + "x"@ + decimal_text(height as nat)
}

fn append_size(text: &mut String, width: u32, height: u32)
    ensures
        final(text)@ == old(text)@ + size_text(width, height),
{
    append(text, format_u64(width as u64).as_str());
    append(text, "x");
    append(text, format_u64(height as u64).as_str());
    assert(text@ =~= old(text)@ + size_text(width, height));
}

fn append_capture_name(text: &mut String, imports_frames: bool)
    ensures
        final(text)@ == old(text)@ + capture_name(imports_frames),
{
    if imports_frames {
        append(text, "PipeWire video");
    } else {
        append(text, "PipeWire");
    }
}

impl CaptureError {
    /// What the error says.
    pub open spec fn words(self) -> Seq<char> {
        match self {
            CaptureError::UnexpectedSize {
                node_id,
                expected_width,
                expected_height,
                width,
                height,
                imports_frames,
            } => "portal selected "@ + size_text(expected_width, expected_height) + " node "@
                + decimal_text(node_id as nat) + ", but "@ + capture_name(imports_frames)
                + " negotiated "@ + size_text(width, height) + "; refusing likely wrong source"@,
            CaptureError::UnsupportedFormat { name } =>
            "PipeWire video negotiated unsupported DMA-BUF raw format "@ + name@,
            CaptureError::CursorMetadataMissing { imports_frames } => capture_name(imports_frames)
                + " buffer does not include SPA_META_Cursor while --require-cursor-metadata is set"@,
            CaptureError::ReadbackFailed { node_id, reason } =>
            "PipeWire DMA-BUF requires GPU readback, but no driver path produced linear pixels for node "@
                + decimal_text(node_id as nat) + ": "@ + reason@,
            CaptureError::UnreadableMemory { node_id } =>
            "PipeWire delivered an fd buffer that could not be read from CPU memory for node "@
                + decimal_text(node_id as nat),
        }
    }

    /// What the error says.
    pub fn text(&self) -> (text: String)
        ensures
            text@ == self.words(),
    {
        let mut text = String::new();
        match self {
            CaptureError::UnexpectedSize {
                node_id,
                expected_width,
                expected_height,
                width,
                height,
                imports_frames,
            } => {
                append(&mut text, "portal selected ");
                append_size(&mut text, *expected_width, *expected_height);
                append(&mut text, " node ");
                append(&mut text, format_u64(*node_id as u64).as_str());
                append(&mut text, ", but ");
                append_capture_name(&mut text, *imports_frames);
                append(&mut text, " negotiated ");
                append_size(&mut text, *width, *height);
                append(&mut text, "; refusing likely wrong source");
            },
            CaptureError::UnsupportedFormat { name } => {
                append(&mut text, "PipeWire video negotiated unsupported DMA-BUF raw format ");
                append(&mut text, name.as_str());
            },
            CaptureError::CursorMetadataMissing { imports_frames } => {
                append_capture_name(&mut text, *imports_frames);
                append(
                    &mut text,
                    " buffer does not include SPA_META_Cursor while --require-cursor-metadata is set",
                );
            },
            CaptureError::ReadbackFailed { node_id, reason } => {
                append(
                    &mut text,
                    "PipeWire DMA-BUF requires GPU readback, but no driver path produced linear pixels for node ",
                );
                append(&mut text, format_u64(*node_id as u64).as_str());
                append(&mut text, ": ");
                append(&mut text, reason.as_str());
            },
            CaptureError::UnreadableMemory { node_id } => {
                append(
                    &mut text,
                    "PipeWire delivered an fd buffer that could not be read from CPU memory for node ",
                );
                append(&mut text, format_u64(*node_id as u64).as_str());
            },
        }
        assert(text@ =~= self.words());
        text
    }
}

/// The format that was agreed on.
#[derive(Clone, Copy, Debug, PartialEq, Eq, Structural)]
pub struct NegotiatedFormat {
    /// Number of the pixel format.
    pub number: u32,
    /// Width in pixels.
    pub width: u32,
    /// Height in pixels.
    pub height: u32,
    /// The memory layout.
    pub modifier: u64,
}

/// A running capture.
#[derive(Debug)]
pub struct CaptureState {
    /// The node that is captured.
    pub node_id: u32,
    /// Width of the chosen source.
    pub expected_width: u32,
    /// Height of the chosen source.
    pub expected_height: u32,
    /// Shortest span between two frames that are taken.
    pub min_frame_interval: u64,
    /// Whether cursor metadata must be there.
    pub require_cursor_metadata: bool,
    /// Whether frames are handed to the graphics driver.
    pub imports_frames: bool,
    /// The format that was agreed on.
    pub format: NegotiatedFormat,
    /// When a frame was taken last.
    pub last_frame_at: Option<u64>,
    /// Damage since then.
    pub pending_damage: AccumulatedFrameDamage,
    /// Number of the last frame.
    pub serial: u64,
    /// The cursor while it is visible.
    pub last_cursor_state: Option<PipewireCursorState>,
    /// Since when cursor metadata has been missing.
    pub cursor_missing_since: Option<u64>,
    /// Whether cursor metadata was there.
    pub cursor_verified: bool,
    /// Number of the last cursor sample.
    pub cursor_serial: u64,
    /// How fast buffers come.
    pub meter: CaptureRateMeter,
}

/// What one buffer brings.
#[derive(Clone, Copy, Debug, PartialEq, Eq, Structural)]
pub struct BufferFacts {
    /// Whether it has data.
    pub has_data: bool,
    /// Where its picture starts.
    pub offset: u32,
    /// Bytes of its picture; none where the server does not say.
    pub size: u32,
    /// Bytes from one row to the next.
    pub stride: i32,
    /// Whether its memory is the graphics driver's.
    pub is_dmabuf: bool,
    /// Whether its memory can be mapped.
    pub mappable: bool,
    /// Where its memory starts in the descriptor.
    pub map_offset: u32,
    /// Bytes of its memory where it is mapped already.
    pub mapped_len: Option<usize>,
}

/// How a frame is taken from a buffer.
#[derive(Clone, Copy, Debug, PartialEq, Eq, Structural)]
pub enum FramePlan {
    /// Not at all.
    Skip,
    /// From mapped memory.
    Slice {
        /// The first byte.
        from: usize,
        /// Behind the last byte.
        to: usize,
    },
    /// By mapping the descriptor.
    Descriptor {
        /// The first byte.
        offset: usize,
        /// How many.
        size: usize,
    },
    /// By the graphics driver.
    Graphics {
        /// The first byte.
        offset: usize,
        /// How many.
        size: usize,
    },
}

/// Bytes of the picture in a buffer: as the server says, or as rows and format have it. A
/// frame that is handed to the graphics driver has the bytes that its format needs.
pub open spec fn picture_bytes(facts: BufferFacts, state: CaptureState) -> Option<int> {
    let format = frame_format_of(state.format.number)->0;
    let needed = frame_bytes(
        format,
        facts.stride as int,
        state.format.width as int,
        state.format.height as int,
    );
    let countable = needed <= usize::MAX;
    if state.imports_frames {
        if countable && (facts.is_dmabuf && facts.size < needed || facts.size == 0) {
            Some(needed)
        } else {
            Some(facts.size as int)
        }
    } else if facts.size > 0 {
        Some(facts.size as int)
    } else if countable {
        Some(needed)
    } else {
        None
    }
}

/// Whether a buffer has a picture that can be taken at all.
pub open spec fn has_picture(facts: BufferFacts, state: CaptureState) -> bool {
    &&& facts.has_data
    &&& frame_format_of(state.format.number) is Some
    &&& state.imports_frames ==> fourcc_of(state.format.number) is Some
    &&& facts.stride > 0
    &&& picture_bytes(facts, state) is Some
}

/// Whether it is too early for another frame.
pub open spec fn is_early(state: CaptureState, now: u64) -> bool {
    state.last_frame_at matches Some(last) && span(last, now) < state.min_frame_interval
}

/// Whether the graphics driver takes the frame.
pub open spec fn by_graphics(facts: BufferFacts, state: CaptureState) -> bool {
    facts.is_dmabuf && (state.imports_frames || !facts.mappable || state.format.modifier != 0)
}

/// How a frame is taken from a buffer with a picture.
pub open spec fn planned(facts: BufferFacts, state: CaptureState) -> FramePlan {
    let size = picture_bytes(facts, state)->0;
    let offset = facts.map_offset + facts.offset;
    if state.imports_frames && offset > usize::MAX {
        FramePlan::Skip
    } else if by_graphics(facts, state) {
        if offset > usize::MAX {
            FramePlan::Skip
        } else {
            FramePlan::Graphics { offset: offset as usize, size: size as usize }
        }
    } else {
        match facts.mapped_len {
            Some(length) => if facts.offset + size > length {
                FramePlan::Skip
            } else {
                FramePlan::Slice {
                    from: facts.offset as usize,
                    to: (facts.offset + size) as usize,
                }
            },
            None => if offset > usize::MAX {
                FramePlan::Skip
            } else {
                FramePlan::Descriptor { offset: offset as usize, size: size as usize }
            },
        }
    }
}

/// The number of the next frame.
pub open spec fn next_frame(serial: u64) -> u64 {
    if serial == u64::MAX {
        0
    } else {
        (serial + 1) as u64
    }
}

impl CaptureState {
    /// A capture of a chosen source.
    pub fn new(
        node_id: u32,
        expected_width: u32,
        expected_height: u32,
        min_frame_interval: u64,
        require_cursor_metadata: bool,
        imports_frames: bool,
        now: u64,
    ) -> (state: Self)
        ensures
            state == (CaptureState {
                node_id,
                expected_width,
                expected_height,
                min_frame_interval,
                require_cursor_metadata,
                imports_frames,
                format: NegotiatedFormat { number: 0, width: 0, height: 0, modifier: 0 },
                last_frame_at: None,
                pending_damage: AccumulatedFrameDamage::Empty,
                serial: 0,
                last_cursor_state: None,
                cursor_missing_since: None,
                cursor_verified: false,
                cursor_serial: 0,
                meter: CaptureRateMeter::started(now, None),
            }),
    {
        CaptureState {
            node_id,
            expected_width,
            expected_height,
            min_frame_interval,
            require_cursor_metadata,
            imports_frames,
            format: NegotiatedFormat { number: 0, width: 0, height: 0, modifier: 0 },
            last_frame_at: None,
            pending_damage: AccumulatedFrameDamage::Empty,
            serial: 0,
            last_cursor_state: None,
            cursor_missing_since: None,
            cursor_verified: false,
            cursor_serial: 0,
            meter: CaptureRateMeter::new(now),
        }
    }

    /// The error of a size that is not that of the chosen source.
    pub open spec fn unexpected_size(self, format: NegotiatedFormat) -> CaptureError {
        CaptureError::UnexpectedSize {
            node_id: self.node_id,
            expected_width: self.expected_width,
            expected_height: self.expected_height,
            width: format.width,
            height: format.height,
            imports_frames: self.imports_frames,
        }
    }

    /// Takes note of the format that was agreed on and says what buffers are asked for. A
    /// size other than the chosen source's ends the capture: it is likely another source.
    /// `name` is what the server calls the pixel format.
    pub fn negotiated(&mut self, format: NegotiatedFormat, name: &String) -> (result: Result<
        BufferRequest,
        CaptureError,
    >)
        ensures
            *final(self) == (CaptureState { format, ..*old(self) }),
            ({
                let fits = format.width == old(self).expected_width && format.height
                    == old(self).expected_height;
                let named = old(self).imports_frames ==> fourcc_of(format.number) is Some;
                match result {
                    Err(error) => error == if !fits {
                        old(self).unexpected_size(format)
                    } else {
                        CaptureError::UnsupportedFormat { name: *name }
                    } && !(fits && named),
                    Ok(request) => fits && named && request == requested_buffers(
                        format.number,
                        format.width,
                        format.height,
                        format.modifier,
                    ),
                }
            }),
    {
        self.format = format;
        if format.width != self.expected_width || format.height != self.expected_height {
            return Err(
                CaptureError::UnexpectedSize {
                    node_id: self.node_id,
                    expected_width: self.expected_width,
                    expected_height: self.expected_height,
                    width: format.width,
                    height: format.height,
                    imports_frames: self.imports_frames,
                },
            );
        }
        if self.imports_frames && drm_fourcc_for_video_format(format.number).is_none() {
            return Err(CaptureError::UnsupportedFormat { name: name.clone() });
        }
        Ok(buffer_request(format.number, format.width, format.height, format.modifier))
    }

    /// Looks at a buffer's cursor. Before a format is agreed on, or where required metadata
    /// is missing, the buffer is left alone, and in the latter case the capture ends after a
    /// while; else the sample is there to be published, where it is news, and the buffer is
    /// counted.
    pub fn observe_cursor(&mut self, metas: &Vec<BufferMeta>, now: u64) -> (result: Result<
        Option<(Option<PipewireCursorSample>, Option<CaptureCounts>)>,
        CaptureError,
    >)
        ensures
            final(self).node_id == old(self).node_id,
            final(self).expected_width == old(self).expected_width,
            final(self).expected_height == old(self).expected_height,
            final(self).min_frame_interval == old(self).min_frame_interval,
            final(self).require_cursor_metadata == old(self).require_cursor_metadata,
            final(self).imports_frames == old(self).imports_frames,
            final(self).format == old(self).format,
            final(self).last_frame_at == old(self).last_frame_at,
            final(self).pending_damage == old(self).pending_damage,
            final(self).serial == old(self).serial,
            ({
                let ready = !old(self).require_cursor_metadata || has_cursor(metas@);
                let since = match old(self).cursor_missing_since {
                    Some(since) => since,
                    None => now,
                };
                let memory = CursorMemory {
                    serial: old(self).cursor_serial,
                    last: state_view(old(self).last_cursor_state),
                };
                if old(self).format.width == 0 || old(self).format.height == 0 {
                    &&& result matches Ok(outcome) && outcome is None
                    &&& *final(self) == *old(self)
                } else if !ready {
                    &&& result matches Err(error) ==> error == (
                    CaptureError::CursorMetadataMissing {
                        imports_frames: old(self).imports_frames,
                    }) && now - since >= CURSOR_METADATA_GRACE_NANOS
                    &&& result matches Ok(outcome) ==> outcome is None && now - since
                        < CURSOR_METADATA_GRACE_NANOS
                    &&& final(self).cursor_missing_since == Some(since)
                    &&& final(self).cursor_verified == old(self).cursor_verified
                    &&& final(self).last_cursor_state == old(self).last_cursor_state
                    &&& final(self).cursor_serial == old(self).cursor_serial
                    &&& final(self).meter == old(self).meter
                } else {
                    &&& result matches Ok(Some((sample, counts)))
                    &&& counts == old(self).meter.report(now, sample is Some)
                    &&& final(self).meter == old(self).meter.behind(now, sample is Some)
                    &&& sample_view(sample) == memory.sample(
                        cursor_in(metas@),
                        old(self).format.width,
                        old(self).format.height,
                    )
                    &&& memory.after(cursor_in(metas@)) == CursorMemory {
                        serial: final(self).cursor_serial,
                        last: state_view(final(self).last_cursor_state),
                    }
                    &&& old(self).require_cursor_metadata ==> final(self).cursor_verified
                        && final(self).cursor_missing_since is None
                    &&& !old(self).require_cursor_metadata ==> final(self).cursor_verified
                        == old(self).cursor_verified && final(self).cursor_missing_since
                        == old(self).cursor_missing_since
                }
            }),
    {
        if self.format.width == 0 || self.format.height == 0 {
            return Ok(None);
        }
        let has_meta = pipewire_buffer_has_cursor_meta(metas);
        let gate = pipewire_cursor_metadata_gate(
            has_meta,
            self.require_cursor_metadata,
            &mut self.cursor_verified,
            &mut self.cursor_missing_since,
            now,
        );
        match gate {
            PipewireCursorMetadataGate::Pending => {
                return Ok(None);
            },
            PipewireCursorMetadataGate::Fatal => {
                return Err(
                    CaptureError::CursorMetadataMissing { imports_frames: self.imports_frames },
                );
            },
            PipewireCursorMetadataGate::Ready => {},
        }
        let update = pipewire_cursor_update(metas);
        let (width, height) = (self.format.width, self.format.height);
        let sample = pipewire_cursor_sample(
            update,
            width,
            height,
            &mut self.cursor_serial,
            &mut self.last_cursor_state,
        );
        let counts = self.meter.record(now, sample.is_some());
        Ok(Some((sample, counts)))
    }

    /// Takes note of a buffer's damage and decides how its frame is taken. A buffer that
    /// comes too early is passed over; its damage counts for the next frame.
    pub fn plan_frame(&mut self, metas: &Vec<BufferMeta>, facts: &BufferFacts, now: u64) -> (plan:
        FramePlan)
        ensures
            ({
                let taken = has_picture(*facts, *old(self)) && !is_early(*old(self), now);
                &&& plan == if taken {
                    planned(*facts, *old(self))
                } else {
                    FramePlan::Skip
                }
                &&& *final(self) == CaptureState {
                    pending_damage: old(self).pending_damage.with(damage_in(metas@)),
                    last_frame_at: if taken {
                        Some(now)
                    } else {
                        old(self).last_frame_at
                    },
                    serial: if taken && old(self).imports_frames && facts.map_offset
                        + facts.offset <= usize::MAX {
                        next_frame(old(self).serial)
                    } else {
                        old(self).serial
                    },
                    ..*old(self)
                }
            }),
    {
        let seen = pipewire_video_damage(metas);
        self.pending_damage.observe(seen);
        if !facts.has_data {
            return FramePlan::Skip;
        }
        let format = match raw_frame_format_for_video_format(self.format.number) {
            None => {
                return FramePlan::Skip;
            },
            Some(format) => format,
        };
        if self.imports_frames && drm_fourcc_for_video_format(self.format.number).is_none() {
            return FramePlan::Skip;
        }
        if facts.stride <= 0 {
            return FramePlan::Skip;
        }
        let size: usize = match self.picture_size(format, facts) {
            None => {
                return FramePlan::Skip;
            },
            Some(size) => size,
        };
        match self.last_frame_at {
            Some(last) => {
                if now.saturating_sub(last) < self.min_frame_interval {
                    return FramePlan::Skip;
                }
            },
            None => {},
        }
        self.last_frame_at = Some(now);
        let offset = (facts.map_offset as usize).checked_add(facts.offset as usize);
        if self.imports_frames {
            if offset.is_none() {
                return FramePlan::Skip;
            }
            self.serial = self.serial.wrapping_add(1);
        }
        let graphics = if self.imports_frames {
            facts.is_dmabuf
        } else {
            dmabuf_requires_gpu_readback(facts.is_dmabuf, facts.mappable, self.format.modifier)
        };
        if graphics {
            return match offset {
                None => FramePlan::Skip,
                Some(offset) => FramePlan::Graphics { offset, size },
            };
        }
        match facts.mapped_len {
            Some(length) => {
                let from: usize = facts.offset as usize;
                match from.checked_add(size) {
                    None => FramePlan::Skip,
                    Some(to) => {
                        if to > length {
                            FramePlan::Skip
                        } else {
                            FramePlan::Slice { from, to }
                        }
                    },
                }
            },
            None => match offset {
                None => FramePlan::Skip,
                Some(offset) => FramePlan::Descriptor { offset, size },
            },
        }
    }

    fn picture_size(&self, format: RawFrameFormat, facts: &BufferFacts) -> (size: Option<usize>)
        requires
            frame_format_of(self.format.number) == Some(format),
            facts.stride > 0,
        ensures
            match size {
                Some(size) => picture_bytes(*facts, *self) == Some(size as int),
                None => picture_bytes(*facts, *self) is None,
            },
    {
        let needed = expected_frame_size_from_stride(
            format,
            facts.stride as usize,
            self.format.width,
            self.format.height,
        );
        let said: usize = facts.size as usize;
        if self.imports_frames {
            match needed {
                Some(needed) => {
                    if (facts.is_dmabuf && said < needed) || said == 0 {
                        Some(needed)
                    } else {
                        Some(said)
                    }
                },
                None => Some(said),
            }
        } else if said > 0 {
            Some(said)
        } else {
            needed
        }
    }

    /// What it means that a frame could not be taken as planned: the capture ends, except
    /// where frames are handed on or the frame was passed over anyway. `reason` is what the
    /// graphics driver says of it.
    pub fn frame_unread(&self, plan: &FramePlan, reason: &String) -> (error: Option<CaptureError>)
        ensures
            error == match *plan {
                FramePlan::Graphics { .. } if !self.imports_frames => Some(
                    CaptureError::ReadbackFailed { node_id: self.node_id, reason: *reason },
                ),
                FramePlan::Descriptor { .. } if !self.imports_frames => Some(
                    CaptureError::UnreadableMemory { node_id: self.node_id },
                ),
                _ => None,
            },
    {
        if self.imports_frames {
            return None;
        }
        match plan {
            FramePlan::Graphics { .. } => Some(
                CaptureError::ReadbackFailed { node_id: self.node_id, reason: reason.clone() },
            ),
            FramePlan::Descriptor { .. } => Some(
                CaptureError::UnreadableMemory { node_id: self.node_id },
            ),
            _ => None,
        }
    }

    /// Numbers a frame that was read and gives the damage since the one before. A frame
    /// that is handed on was numbered when it was planned.
    pub fn frame_taken(&mut self) -> (taken: (u64, Option<bool>))
        ensures
            *final(self) == (CaptureState {
                serial: if old(self).imports_frames {
                    old(self).serial
                } else {
                    next_frame(old(self).serial)
                },
                pending_damage: AccumulatedFrameDamage::Empty,
                ..*old(self)
            }),
            taken.0 == final(self).serial,
            taken.1 == match old(self).pending_damage {
                AccumulatedFrameDamage::Changed => Some(true),
                AccumulatedFrameDamage::Unchanged => Some(false),
                _ => None,
            },
    {
        if !self.imports_frames {
            self.serial = self.serial.wrapping_add(1);
        }
        let damage = self.pending_damage.take();
        (self.serial, damage)
    }
}

/// Hands out each frame once.
#[derive(Clone, Copy, Debug, PartialEq, Eq, Structural)]
pub struct FrameFeed {
    /// Number of the frame that was handed out last.
    pub last_serial: u64,
}

/// What a publisher that waits for a frame does.
#[derive(Clone, Copy, Debug, PartialEq, Eq, Structural)]
pub enum WaitStep {
    /// The capture failed.
    Fail,
    /// It takes the newest frame.
    Take,
    /// It has waited for too long.
    TimedOut,
    /// It waits on.
    Wait {
        /// For how long at most.
        remaining: u64,
    },
}

impl FrameFeed {
    /// Decides what a publisher that waits for a frame does. A failure counts before a
    /// frame, and a frame before the deadline.
    pub fn step(&mut self, failed: bool, newest: Option<u64>, now: u64, deadline: u64) -> (step:
        WaitStep)
        ensures
            step == if failed {
                WaitStep::Fail
            } else if newest is Some && newest->0 != old(self).last_serial {
                WaitStep::Take
            } else if now >= deadline {
                WaitStep::TimedOut
            } else {
                WaitStep::Wait { remaining: (deadline - now) as u64 }
            },
            final(self).last_serial == if step == WaitStep::Take {
                newest->0
            } else {
                old(self).last_serial
            },
    {
        if failed {
            return WaitStep::Fail;
        }
        match newest {
            Some(serial) => {
                if serial != self.last_serial {
                    self.last_serial = serial;
                    return WaitStep::Take;
                }
            },
            None => {},
        }
        if now >= deadline {
            return WaitStep::TimedOut;
        }
        WaitStep::Wait { remaining: deadline - now }
    }
}

/// What the starter of a capture thread does.
#[derive(Clone, Copy, Debug, PartialEq, Eq, Structural)]
pub enum StartStep {
    /// The thread failed: it is stopped.
    Failed,
    /// The thread runs.
    Started,
    /// The thread did not start in time: it is stopped.
    TimedOut,
    /// It looks again.
    Wait,
}

/// Decides what the starter of a capture thread does. The thread runs once it has said how
/// it can be stopped.
pub fn start_step(failed: bool, stoppable: bool, now: u64, deadline: u64) -> (step: StartStep)
    ensures
        step == if failed {
            StartStep::Failed
        } else if stoppable {
            StartStep::Started
        } else if now >= deadline {
            StartStep::TimedOut
        } else {
            StartStep::Wait
        },
{
    if failed {
        StartStep::Failed
    } else if stoppable {
        StartStep::Started
    } else if now >= deadline {
        StartStep::TimedOut
    } else {
        StartStep::Wait
    }
}

/// The name of a capture's interface, as viewers are told.
pub fn capture_backend_name(backend: ScreenCastBackend) -> (name: &'static str)
    ensures
        name@ == if backend == ScreenCastBackend::Mutter {
            "mutter-screencast+pipewire-rs"@
        } else {
            "xdg-desktop-portal+pipewire-rs"@
        },
{
    if backend == ScreenCastBackend::Mutter {
        "mutter-screencast+pipewire-rs"
    } else {
        "xdg-desktop-portal+pipewire-rs"
    }
}

/// Where a stream connects: to the node itself, unless its target is named.
pub fn connect_node(by_target: bool, has_target: bool, node_id: u32) -> (node: Option<u32>)
    ensures
        node == if by_target && has_target {
            None::<u32>
        } else {
            Some(node_id)
        },
{
    if by_target && has_target {
        None
    } else {
        Some(node_id)
    }
}

/// Frames are never taken closer together than the shortest span, and what is read of
/// mapped memory lies within it.
pub proof fn frames_are_throttled_and_within_memory(
    state: CaptureState,
    facts: BufferFacts,
    last: u64,
    now: u64,
)
    requires
        state.last_frame_at == Some(last),
        has_picture(facts, state),
        !is_early(state, now),
    ensures
        span(last, now) >= state.min_frame_interval,
        planned(facts, state) matches FramePlan::Slice { from, to } ==> from <= to && (
        facts.mapped_len matches Some(length) && to <= length),
{
    let format = frame_format_of(state.format.number)->0;
    lemma_frame_bytes_positive(
        format,
        facts.stride as int,
        state.format.width as int,
        state.format.height as int,
    );
}

/// A frame has no fewer than no bytes.
pub proof fn lemma_frame_bytes_positive(format: RawFrameFormat, stride: int, width: int, height: int)
    requires
        stride >= 0,
        width >= 0,
        height >= 0,
    ensures
        frame_bytes(format, stride, width, height) >= 0,
{
    assert(stride * height >= 0) by (nonlinear_arith)
        requires
            stride >= 0,
            height >= 0,
    ;
    let row = crate::pixels::larger(
        crate::pixels::half_up(stride),
        crate::pixels::half_up(width),
    );
    let rows = crate::pixels::half_up(height);
    assert(row * rows >= 0) by (nonlinear_arith)
        requires
            row >= 0,
            rows >= 0,
    ;
}

} // verus!

//! One segmented-media session: resuming, numbering, segments, acknowledgements and the
//! course of each captured frame.

use core::time::Duration;

use rand::{rngs::OsRng, RngCore};
use vstd::prelude::*;

use crate::bytes::id_equal;
use crate::cadence::{held_duration, later, ticks_after, AdaptiveMediaCadence, MEDIA_TIMESCALE};
use crate::resend::{
    object_image, objects_between, stream_objects, unacknowledged, DashObject, DashObjectHeader,
    DashObjectKind, DashObjectModel, DashResendBuffer, ResendModel,
};
use crate::identity::text_view;
use crate::text::{append, decimal_text, format_u64, quoted, quoted_text, shown_option};
use crate::time::duration_nanos;

verus! {

/// Why a session ends.
#[derive(Debug, PartialEq, Eq)]
#[allow(inconsistent_fields)]
pub enum DashError {
    /// A segment must have a frame.
    NoSegmentFrames,
    /// The relay's transport key is not configured.
    ServerKeyMissing,
    /// The relay turned the publisher away.
    HelloRejected {
        /// Why, in its words.
        reason: Option<String>,
    },
    /// The relay answered something else.
    UnexpectedReply {
        /// What it answered.
        answer: String,
    },
    /// No sequence is left.
    SequenceExhausted,
    /// An epoch has as many fragments as can be numbered.
    TooManyFragments,
    /// The video is too wide to be described.
    WidthTooLarge,
    /// The video is too high to be described.
    HeightTooLarge,
    /// The epoch did not begin with an independently decodable picture.
    EpochWithoutIdr,
    /// A segment did not begin with an independently decodable picture.
    SegmentWithoutIdr,
    /// The encoder gave no decoder configuration.
    ConfigMissing,
    /// The relay declined an object for good.
    Refused {
        /// The object.
        sequence: u64,
        /// Why, in the relay's words.
        reason: String,
    },
    /// Objects that the relay asked for again are no longer held.
    ResendMissing {
        /// The first.
        from_seq: u64,
        /// The last.
        to_seq: u64,
    },
}

impl DashError {
    /// What the error says.
    pub open spec fn words(self) -> Seq<char> {
        match self {
            DashError::NoSegmentFrames => "--segment-frames must be at least 1"@,
            DashError::ServerKeyMissing =>
            "ingest server key is required; pass --ingest-server-key or set ingest_server_key in client.toml"@,
            DashError::HelloRejected { reason } => "server rejected hello: "@ + shown_option(
                text_view(reason),
            ),
            DashError::UnexpectedReply { answer } => "server sent unexpected first response: "@
                + answer@,
            DashError::SequenceExhausted => "DASH sequence exhausted"@,
            DashError::TooManyFragments => "DASH epoch has too many media fragments"@,
            DashError::WidthTooLarge => "video width does not fit MPEG-DASH metadata"@,
            DashError::HeightTooLarge => "video height does not fit MPEG-DASH metadata"@,
            DashError::EpochWithoutIdr =>
            "H.264 encoder did not begin the epoch with a random-access frame"@,
            DashError::SegmentWithoutIdr =>
            "H.264 encoder did not produce an IDR at the segment boundary"@,
            DashError::ConfigMissing =>
            "H.264 encoder did not provide an AVC decoder configuration"@,
            DashError::Refused { sequence, reason } => "relay refused object "@ + decimal_text(
                sequence as nat,
            ) + ": "@ + reason@,
            DashError::ResendMissing { from_seq, to_seq } => "server requested DASH objects "@
                + decimal_text(from_seq as nat) + "..="@ + decimal_text(to_seq as nat)
                + ", but the resend buffer no longer contains all of them"@,
        }
    }

    /// What the error says.
    pub fn text(&self) -> (text: String)
        ensures
            text@ == self.words(),
    {
        let mut text = String::new();
        match self {
            DashError::NoSegmentFrames => append(
                &mut text,
                "--segment-frames must be at least 1",
            ),
            DashError::ServerKeyMissing => append(
                &mut text,
                "ingest server key is required; pass --ingest-server-key or set ingest_server_key in client.toml",
            ),
            DashError::HelloRejected { reason } => {
                append(&mut text, "server rejected hello: ");
                match reason {
                    Some(reason) => {
                        append(&mut text, "Some(");
                        append(&mut text, quoted(reason.as_str()).as_str());
                        append(&mut text, ")");
                    },
                    None => append(&mut text, "None"),
                }
            },
            DashError::UnexpectedReply { answer } => {
                append(&mut text, "server sent unexpected first response: ");
                append(&mut text, answer.as_str());
            },
            DashError::SequenceExhausted => append(&mut text, "DASH sequence exhausted"),
            DashError::TooManyFragments => append(
                &mut text,
                "DASH epoch has too many media fragments",
            ),
            DashError::WidthTooLarge => append(
                &mut text,
                "video width does not fit MPEG-DASH metadata",
            ),
            DashError::HeightTooLarge => append(
                &mut text,
                "video height does not fit MPEG-DASH metadata",
            ),
            DashError::EpochWithoutIdr => append(
                &mut text,
                "H.264 encoder did not begin the epoch with a random-access frame",
            ),
            DashError::SegmentWithoutIdr => append(
                &mut text,
                "H.264 encoder did not produce an IDR at the segment boundary",
            ),
            DashError::ConfigMissing => append(
                &mut text,
                "H.264 encoder did not provide an AVC decoder configuration",
            ),
            DashError::Refused { sequence, reason } => {
                append(&mut text, "relay refused object ");
                append(&mut text, format_u64(*sequence).as_str());
                append(&mut text, ": ");
                append(&mut text, reason.as_str());
            },
            DashError::ResendMissing { from_seq, to_seq } => {
                append(&mut text, "server requested DASH objects ");
                append(&mut text, format_u64(*from_seq).as_str());
                append(&mut text, "..=");
                append(&mut text, format_u64(*to_seq).as_str());
                append(&mut text, ", but the resend buffer no longer contains all of them");
            },
        }
        assert(text@ =~= self.words());
        text
    }
}

/// Checks what a session needs before it connects.
pub fn check_start(segment_frames: u16, has_server_key: bool) -> (result: Result<(), DashError>)
    ensures
        result == if segment_frames == 0 {
            Err::<(), DashError>(DashError::NoSegmentFrames)
        } else if !has_server_key {
            Err::<(), DashError>(DashError::ServerKeyMissing)
        } else {
            Ok::<(), DashError>(())
        },
{
    if segment_frames == 0 {
        return Err(DashError::NoSegmentFrames);
    }
    if !has_server_key {
        return Err(DashError::ServerKeyMissing);
    }
    Ok(())
}

/// What the relay says to a publisher of segmented media.
#[derive(Debug)]
#[allow(inconsistent_fields)]
pub enum ServerMessage {
    /// The answer to the greeting.
    HelloAck {
        /// Whether the publisher is let in.
        accepted: bool,
        /// Its stream.
        stream_id: Option<u128>,
        /// The last sequence that the relay has.
        last_sequence: u64,
        /// Why the publisher is not let in.
        reason: Option<String>,
    },
    /// Objects up to a sequence are stored.
    Ack {
        /// The last of them.
        through_seq: u64,
    },
    /// Objects are asked for again.
    ResendRequest {
        /// The first.
        from_seq: u64,
        /// The last.
        to_seq: u64,
    },
    /// The publisher is to pause.
    Backpressure {
        /// For how long.
        pause_ms: u64,
        /// Why.
        reason: String,
    },
    /// An object was declined for good.
    Refused {
        /// The object.
        sequence: u64,
        /// Why.
        reason: String,
    },
    /// A sign of life.
    Pong,
}

impl ServerMessage {
    /// What the message looks like to an operator: its name and, but for the answer to the
    /// greeting, its fields.
    pub open spec fn words(self) -> Seq<char> {
        match self {
            ServerMessage::HelloAck { .. } => "HelloAck"@,
            ServerMessage::Ack { through_seq } => "Ack { through_seq: "@ + decimal_text(
                through_seq as nat,
            ) + " }"@,
            ServerMessage::ResendRequest { from_seq, to_seq } => "ResendRequest { from_seq: "@
                + decimal_text(from_seq as nat) + ", to_seq: "@ + decimal_text(to_seq as nat)
                + " }"@,
            ServerMessage::Backpressure { pause_ms, reason } => "Backpressure { pause_ms: "@
                + decimal_text(pause_ms as nat) + ", reason: "@ + quoted_text(reason@) + " }"@,
            ServerMessage::Refused { sequence, reason } => "Refused { sequence: "@ + decimal_text(
                sequence as nat,
            ) + ", reason: "@ + quoted_text(reason@) + " }"@,
            ServerMessage::Pong => "Pong"@,
        }
    }

    /// What the message looks like to an operator.
    fn text(&self) -> (text: String)
        ensures
            text@ == self.words(),
    {
        let mut text = String::new();
        match self {
            ServerMessage::HelloAck { .. } => append(&mut text, "HelloAck"),
            ServerMessage::Ack { through_seq } => {
                append(&mut text, "Ack { through_seq: ");
                append(&mut text, format_u64(*through_seq).as_str());
                append(&mut text, " }");
            },
            ServerMessage::ResendRequest { from_seq, to_seq } => {
                append(&mut text, "ResendRequest { from_seq: ");
                append(&mut text, format_u64(*from_seq).as_str());
                append(&mut text, ", to_seq: ");
                append(&mut text, format_u64(*to_seq).as_str());
                append(&mut text, " }");
            },
            ServerMessage::Backpressure { pause_ms, reason } => {
                append(&mut text, "Backpressure { pause_ms: ");
                append(&mut text, format_u64(*pause_ms).as_str());
                append(&mut text, ", reason: ");
                append(&mut text, quoted(reason.as_str()).as_str());
                append(&mut text, " }");
            },
            ServerMessage::Refused { sequence, reason } => {
                append(&mut text, "Refused { sequence: ");
                append(&mut text, format_u64(*sequence).as_str());
                append(&mut text, ", reason: ");
                append(&mut text, quoted(reason.as_str()).as_str());
                append(&mut text, " }");
            },
            ServerMessage::Pong => append(&mut text, "Pong"),
        }
        assert(text@ =~= self.words());
        text
    }
}

/// The stream that the relay lets the publisher into, and the last sequence that it has.
pub fn hello_accepted(message: &ServerMessage) -> (result: Result<(u128, u64), DashError>)
    ensures
        match *message {
            ServerMessage::HelloAck { accepted, stream_id, last_sequence, reason } => result
                == if accepted && stream_id is Some {
                Ok::<(u128, u64), DashError>((stream_id->0, last_sequence))
            } else {
                Err::<(u128, u64), DashError>(DashError::HelloRejected { reason })
            },
            _ => result matches Err(DashError::UnexpectedReply { answer }) && answer@
                == message.words(),
        },
{
    match message {
        ServerMessage::HelloAck { accepted, stream_id, last_sequence, reason } => {
            match stream_id {
                Some(stream_id) if *accepted => Ok((*stream_id, *last_sequence)),
                _ => Err(
                    DashError::HelloRejected {
                        reason: match reason {
                            Some(reason) => Some(reason.clone()),
                            None => None,
                        },
                    },
                ),
            }
        },
        _ => Err(DashError::UnexpectedReply { answer: message.text() }),
    }
}

/// What a buffer holds once a stream is resumed behind a sequence.
pub open spec fn resumed_objects(
    objects: Seq<DashObjectModel>,
    stream_id: u128,
    server_last_sequence: u64,
) -> Seq<DashObjectModel> {
    unacknowledged(stream_objects(objects, stream_id), server_last_sequence)
}

/// Resumes a stream: what the relay has, or what belongs to another stream, is let go of;
/// the rest is what is sent again first.
pub fn resume(
    buffer: &mut DashResendBuffer,
    stream_id: u128,
    server_last_sequence: u64,
) -> (pending: Vec<DashObject>)
    requires
        old(buffer).wf(),
    ensures
        final(buffer).wf(),
        final(buffer)@ == (ResendModel {
            objects: resumed_objects(old(buffer)@.objects, stream_id, server_last_sequence),
            ..old(buffer)@
        }),
        ({
            let held = final(buffer)@.objects;
            pending@.map_values(object_image()) == if held.len() > 0
                && held.last().header.sequence > server_last_sequence {
                objects_between(
                    held,
                    (server_last_sequence + 1) as u64,
                    held.last().header.sequence,
                )
            } else {
                Seq::empty()
            }
        }),
{
    buffer.drop_other_streams(stream_id);
    buffer.ack(server_last_sequence);
    let (_, newest) = buffer.range();
    match newest {
        Some(highest) if highest > server_last_sequence => {
            buffer.objects(server_last_sequence + 1, highest)
        },
        _ => {
            let pending: Vec<DashObject> = Vec::new();
            assert(pending@.map_values(object_image()) =~= Seq::empty());
            pending
        },
    }
}

/// Whether a sequence lies before none of some others.
pub open spec fn reaches_all(sequence: u64, others: Seq<u64>) -> bool {
    forall|i: int| 0 <= i < others.len() ==> sequence >= #[trigger] others[i]
}

/// The last sequence in use once a stream is resumed: the relay's, what it acknowledged of
/// the objects that were sent again, and what is still held.
pub fn resumed_sequence(
    server_last_sequence: u64,
    acknowledged: &Vec<u64>,
    newest: Option<u64>,
) -> (sequence: u64)
    ensures
        sequence >= server_last_sequence,
        newest matches Some(highest) ==> sequence >= highest,
        reaches_all(sequence, acknowledged@),
        sequence == server_last_sequence || newest == Some(sequence) || acknowledged@.contains(
            sequence,
        ),
{
    let mut sequence: u64 = server_last_sequence;
    let count: usize = acknowledged.len();
    let mut i: usize = 0;
    while i < count
        invariant
            i <= count == acknowledged@.len(),
            sequence >= server_last_sequence,
            forall|k: int| 0 <= k < i ==> sequence >= #[trigger] acknowledged@[k],
            sequence == server_last_sequence || acknowledged@.contains(sequence),
        decreases count - i,
    {
        if acknowledged[i] > sequence {
            sequence = acknowledged[i];
        }
        i += 1;
    }
    match newest {
        Some(highest) if highest > sequence => highest,
        _ => sequence,
    }
}

/// What a publisher does while it waits for an acknowledgement.
#[derive(Debug)]
pub enum AckStep {
    /// The object is stored.
    Done {
        /// Everything up to here is.
        through_seq: u64,
    },
    /// It waits on.
    Wait,
    /// It sends objects again and waits on.
    Resend(Vec<DashObject>),
    /// It pauses and waits on.
    Pause {
        /// For how long.
        pause_ms: u64,
    },
    /// The session ends.
    Fail(DashError),
}

/// Takes a message of the relay while an object is waiting for its acknowledgement.
pub fn ack_step(
    buffer: &mut DashResendBuffer,
    message: &ServerMessage,
    expected_sequence: u64,
) -> (step: AckStep)
    requires
        old(buffer).wf(),
    ensures
        final(buffer).wf(),
        final(buffer)@ == match *message {
            ServerMessage::Ack { through_seq } => ResendModel {
                objects: unacknowledged(old(buffer)@.objects, through_seq),
                ..old(buffer)@
            },
            _ => old(buffer)@,
        },
        match *message {
            ServerMessage::Ack { through_seq } => step == if through_seq >= expected_sequence {
                AckStep::Done { through_seq }
            } else {
                AckStep::Wait
            },
            ServerMessage::ResendRequest { from_seq, to_seq } => {
                let found = objects_between(old(buffer)@.objects, from_seq, to_seq);
                if found.len() == requested_count(from_seq, to_seq) {
                    step matches AckStep::Resend(objects) && objects@.map_values(object_image())
                        == found
                } else {
                    step == AckStep::Fail(DashError::ResendMissing { from_seq, to_seq })
                }
            },
            ServerMessage::Backpressure { pause_ms, .. } => step == (AckStep::Pause { pause_ms }),
            ServerMessage::Refused { sequence, reason } => step == AckStep::Fail(
                DashError::Refused { sequence, reason },
            ),
            ServerMessage::Pong => step == AckStep::Wait,
            ServerMessage::HelloAck { .. } => step == AckStep::Wait,
        },
{
    match message {
        ServerMessage::Ack { through_seq } => {
            buffer.ack(*through_seq);
            if *through_seq >= expected_sequence {
                AckStep::Done { through_seq: *through_seq }
            } else {
                AckStep::Wait
            }
        },
        ServerMessage::ResendRequest { from_seq, to_seq } => {
            let objects = buffer.objects(*from_seq, *to_seq);
            let expected: u64 = (*to_seq).saturating_sub(*from_seq).saturating_add(1);
            assert(objects@.len() == objects@.map_values(object_image()).len());
            if objects.len() as u64 != expected {
                AckStep::Fail(DashError::ResendMissing { from_seq: *from_seq, to_seq: *to_seq })
            } else {
                AckStep::Resend(objects)
            }
        },
        ServerMessage::Backpressure { pause_ms, .. } => AckStep::Pause { pause_ms: *pause_ms },
        ServerMessage::Refused { sequence, reason } => {
            AckStep::Fail(DashError::Refused { sequence: *sequence, reason: reason.clone() })
        },
        ServerMessage::Pong => AckStep::Wait,
        ServerMessage::HelloAck { .. } => AckStep::Wait,
    }
}

/// How many objects are expected between two sequences.
pub open spec fn requested_count(from_seq: u64, to_seq: u64) -> int {
    if to_seq < from_seq {
        1
    } else if to_seq - from_seq == u64::MAX {
        u64::MAX as int
    } else {
        to_seq - from_seq + 1
    }
}

/// How a captured frame relates to the one before.
#[derive(Clone, Copy, Debug, PartialEq, Eq, Structural)]
pub enum FrameChange {
    /// It differs.
    Changed,
    /// It is the same.
    Unchanged,
    /// The source does not say.
    Unknown,
}

/// Whether a frame counts as changed. Fingerprints decide where both are known; else the
/// source's hint does, and what it does not know counts as changed.
pub open spec fn counts_as_changed(
    change: FrameChange,
    previous: Option<[u8; 32]>,
    current: Option<[u8; 32]>,
) -> bool {
    if previous is Some && current is Some {
        previous != current
    } else {
        change != FrameChange::Unchanged
    }
}

/// Decides whether a frame counts as changed.
pub fn frame_changed(
    change: FrameChange,
    previous_fingerprint: &Option<[u8; 32]>,
    current_fingerprint: &Option<[u8; 32]>,
) -> (changed: bool)
    ensures
        changed == counts_as_changed(change, *previous_fingerprint, *current_fingerprint),
{
    match (previous_fingerprint, current_fingerprint) {
        (Some(previous), Some(current)) => !id_equal(previous, current),
        _ => match change {
            FrameChange::Changed => true,
            FrameChange::Unchanged => false,
            FrameChange::Unknown => true,
        },
    }
}

/// The largest even number up to an extent, and two at least.
pub open spec fn even_extent(extent: u32) -> u32 {
    if extent < 2 {
        2
    } else {
        (extent - extent % 2) as u32
    }
}

fn even(extent: u32) -> (result: u32)
    ensures
        result == even_extent(extent),
{
    if extent < 2 {
        2
    } else {
        assert(extent & !1u32 == extent - extent % 2) by (bit_vector);
        extent & !1
    }
}

/// The size at which a frame is encoded: the one that is asked for, or else the frame's
/// own, made even.
pub fn normalize_dash_input(width: u32, height: u32, target: Option<(u32, u32)>) -> (size: (
    u32,
    u32,
))
    ensures
        size == match target {
            Some(target) => target,
            None => (even_extent(width), even_extent(height)),
        },
{
    match target {
        Some(target) => target,
        None => (even(width), even(height)),
    }
}

/// A captured frame: its size and how it relates to the one before.
#[derive(Clone, Copy, Debug, PartialEq, Eq, Structural)]
pub struct CapturedDashFrame {
    /// Width in pixels.
    pub width: u32,
    /// Height in pixels.
    pub height: u32,
    /// How it relates to the one before.
    pub change: FrameChange,
}

/// A captured frame at the size at which it is encoded.
pub fn normalize_captured_dash_frame(
    capture: CapturedDashFrame,
    target: Option<(u32, u32)>,
) -> (normalized: CapturedDashFrame)
    ensures
        normalized.change == capture.change,
        (normalized.width, normalized.height) == match target {
            Some(target) => target,
            None => (even_extent(capture.width), even_extent(capture.height)),
        },
{
    let (width, height) = normalize_dash_input(capture.width, capture.height, target);
    CapturedDashFrame { width, height, change: capture.change }
}

/// The size of the video as an epoch describes it.
pub fn describe_size(width: u32, height: u32) -> (result: Result<(u16, u16), DashError>)
    ensures
        match result {
            Ok((w, h)) => w == width && h == height,
            Err(error) => error == if width > u16::MAX {
                DashError::WidthTooLarge
            } else {
                DashError::HeightTooLarge
            },
        },
        result is Err <==> width > u16::MAX || height > u16::MAX,
{
    if width > 0xffff {
        return Err(DashError::WidthTooLarge);
    }
    if height > 0xffff {
        return Err(DashError::HeightTooLarge);
    }
    Ok((width as u16, height as u16))
}

/// A duration in ticks of the media timescale, rounded down.
pub open spec fn media_ticks(duration: Duration) -> u64 {
    let ticks = duration_nanos(duration) * 90_000 / 1_000_000_000;
    if ticks > u64::MAX {
        u64::MAX
    } else {
        ticks as u64
    }
}

/// A duration in ticks of the media timescale, rounded down.
pub fn duration_to_media_ticks(duration: Duration) -> (ticks: u64)
    ensures
        ticks == media_ticks(duration),
{
    match duration.as_nanos().checked_mul(MEDIA_TIMESCALE as u128) {
        None => u64::MAX,
        Some(scaled) => {
            let ticks: u128 = scaled / 1_000_000_000;
            if ticks > u64::MAX as u128 {
                u64::MAX
            } else {
                ticks as u64
            }
        },
    }
}

/// Fills an initialization vector by `OsRng.fill_bytes` of the `rand` crate. Its bytes are
/// random: nothing is promised of them.
#[verifier::external_body]
fn random_iv() -> (iv: [u8; 16]) {
    let mut iv = [0u8; 16];
    OsRng.fill_bytes(&mut iv);
    iv
}

/// A session once the relay has let the publisher in.
#[derive(Clone, Copy, Debug)]
pub struct DashSession {
    /// The stream.
    pub stream_id: u128,
    /// The epoch.
    pub epoch_id: u128,
    /// Frames of a segment.
    pub segment_frames: u16,
    /// Ticks of a frame.
    pub frame_duration: u32,
    /// Sequence of the last object.
    pub sequence: u64,
    /// Number of the next media fragment.
    pub media_index: u64,
    /// When frames are sent.
    pub cadence: AdaptiveMediaCadence,
    /// Fingerprint of the frame that was published last.
    pub last_fingerprint: Option<[u8; 32]>,
    /// Timestamp of the encoded frame that waits for its duration.
    pub pending_media: Option<u64>,
}

/// What becomes of a captured frame.
#[derive(Clone, Copy, Debug, PartialEq, Eq)]
pub struct FrameStep {
    /// Whether the frame counts as changed.
    pub changed: bool,
    /// Timestamp and duration of the waiting frame, which is published first.
    pub flush: Option<(u64, u32)>,
    /// Timestamp at which the frame is encoded and published.
    pub publish: Option<u64>,
    /// Timestamp at which the frame is encoded and waits.
    pub hold: Option<u64>,
}

/// What a media fragment is made of.
#[derive(Clone, Copy, Debug)]
pub struct MediaPlan {
    /// Number of the fragment, counted from one.
    pub fragment_sequence: u32,
    /// Random initialization vector.
    pub iv: [u8; 16],
    /// Header of its object.
    pub header: DashObjectHeader,
}

/// The timestamp and duration of a waiting frame that something follows.
pub open spec fn flushed(pending: Option<u64>, duration: Option<u32>) -> Option<(u64, u32)> {
    match (pending, duration) {
        (Some(timestamp), Some(duration)) => Some((timestamp, duration)),
        _ => None,
    }
}

impl DashSession {
    /// A segment has a frame, and the waiting frame is the one that the cadence waits for.
    pub open spec fn wf(self) -> bool {
        &&& self.segment_frames > 0
        &&& self.pending_media == self.cadence.pending_timestamp
        &&& self.cadence.wf()
    }

    /// A session that starts an epoch.
    pub fn new(
        stream_id: u128,
        epoch_id: u128,
        segment_frames: u16,
        frame_duration: u32,
        heartbeat_ticks: u64,
        sequence: u64,
        first_fingerprint: Option<[u8; 32]>,
    ) -> (session: DashSession)
        requires
            segment_frames > 0,
        ensures
            session.wf(),
            session.stream_id == stream_id,
            session.epoch_id == epoch_id,
            session.segment_frames == segment_frames,
            session.frame_duration == frame_duration,
            session.sequence == sequence,
            session.media_index == 0,
            session.cadence == (AdaptiveMediaCadence {
                frame_duration: frame_duration as u64,
                heartbeat_ticks: if later(heartbeat_ticks, frame_duration as u64) > u32::MAX {
                    u32::MAX as u64
                } else {
                    later(heartbeat_ticks, frame_duration as u64)
                },
                media_end: frame_duration as u64,
                pending_timestamp: None,
            }),
            session.last_fingerprint == first_fingerprint,
            session.pending_media is None,
    {
        DashSession {
            stream_id,
            epoch_id,
            segment_frames,
            frame_duration,
            sequence,
            media_index: 0,
            cadence: AdaptiveMediaCadence::new(frame_duration as u64, heartbeat_ticks),
            last_fingerprint: first_fingerprint,
            pending_media: None,
        }
    }

    /// Checks the encoder's first picture.
    pub fn check_first_frame(keyframe: bool, has_config: bool) -> (result: Result<(), DashError>)
        ensures
            result == if !keyframe {
                Err::<(), DashError>(DashError::EpochWithoutIdr)
            } else if !has_config {
                Err::<(), DashError>(DashError::ConfigMissing)
            } else {
                Ok::<(), DashError>(())
            },
    {
        if !keyframe {
            return Err(DashError::EpochWithoutIdr);
        }
        if !has_config {
            return Err(DashError::ConfigMissing);
        }
        Ok(())
    }

    /// Whether the next fragment opens a segment.
    pub open spec fn opens_segment(self) -> bool {
        self.media_index % (self.segment_frames as u64) == 0
    }

    /// Whether the next frame must be independently decodable.
    pub fn segment_start(&self) -> (start: bool)
        requires
            self.wf(),
        ensures
            start == self.opens_segment(),
    {
        self.media_index % (self.segment_frames as u64) == 0
    }

    /// Checks an encoded picture against what was asked of the encoder.
    pub fn check_frame(segment_start: bool, keyframe: bool) -> (result: Result<(), DashError>)
        ensures
            result == if segment_start && !keyframe {
                Err::<(), DashError>(DashError::SegmentWithoutIdr)
            } else {
                Ok::<(), DashError>(())
            },
    {
        if segment_start && !keyframe {
            Err(DashError::SegmentWithoutIdr)
        } else {
            Ok(())
        }
    }

    /// The header of the next object.
    fn next_dash_object(
        &mut self,
        kind: DashObjectKind,
        segment_number: u64,
        chunk_index: u16,
        timestamp: u64,
        duration: u64,
        random_access: bool,
    ) -> (result: Result<DashObjectHeader, DashError>)
        ensures
            match result {
                Err(error) => {
                    &&& error == DashError::SequenceExhausted
                    &&& old(self).sequence == u64::MAX
                    &&& *final(self) == *old(self)
                },
                Ok(header) => {
                    &&& old(self).sequence < u64::MAX
                    &&& *final(self) == DashSession {
                        sequence: (old(self).sequence + 1) as u64,
                        ..*old(self)
                    }
                    &&& header == DashObjectHeader {
                        stream_id: old(self).stream_id,
                        epoch_id: old(self).epoch_id,
                        kind,
                        sequence: (old(self).sequence + 1) as u64,
                        segment_number,
                        chunk_index,
                        timestamp,
                        duration,
                        random_access,
                    }
                },
            },
    {
        match self.sequence.checked_add(1) {
            None => Err(DashError::SequenceExhausted),
            Some(sequence) => {
                self.sequence = sequence;
                Ok(
                    DashObjectHeader {
                        stream_id: self.stream_id,
                        epoch_id: self.epoch_id,
                        kind,
                        sequence,
                        segment_number,
                        chunk_index,
                        timestamp,
                        duration,
                        random_access,
                    },
                )
            },
        }
    }

    /// The header of the object that describes the epoch, or that initializes its decoder.
    pub fn epoch_object(&mut self, initialization: bool) -> (result: Result<
        DashObjectHeader,
        DashError,
    >)
        ensures
            match result {
                Err(error) => {
                    &&& error == DashError::SequenceExhausted
                    &&& old(self).sequence == u64::MAX
                    &&& *final(self) == *old(self)
                },
                Ok(header) => {
                    &&& old(self).sequence < u64::MAX
                    &&& *final(self) == DashSession {
                        sequence: (old(self).sequence + 1) as u64,
                        ..*old(self)
                    }
                    &&& header == DashObjectHeader {
                        stream_id: old(self).stream_id,
                        epoch_id: old(self).epoch_id,
                        kind: if initialization {
                            DashObjectKind::Initialization
                        } else {
                            DashObjectKind::Epoch
                        },
                        sequence: (old(self).sequence + 1) as u64,
                        segment_number: 0,
                        chunk_index: 0,
                        timestamp: 0,
                        duration: 0,
                        random_access: true,
                    }
                },
            },
    {
        let kind = if initialization {
            DashObjectKind::Initialization
        } else {
            DashObjectKind::Epoch
        };
        self.next_dash_object(kind, 0, 0, 0, 0, true)
    }

    /// The segment of a media fragment, counted from one.
    pub open spec fn segment_of(self, media_index: u64) -> int {
        media_index / (self.segment_frames as u64) + 1
    }

    /// The position of a media fragment in its segment.
    pub open spec fn chunk_of(self, media_index: u64) -> int {
        (media_index % (self.segment_frames as u64)) as int
    }

    /// What the next media fragment is made of.
    pub fn build_dash_media_object(
        &mut self,
        timestamp: u64,
        duration: u32,
        keyframe: bool,
    ) -> (result: Result<MediaPlan, DashError>)
        requires
            old(self).wf(),
        ensures
            final(self).wf(),
            match result {
                Err(error) => {
                    &&& error == if old(self).media_index >= u32::MAX {
                        DashError::TooManyFragments
                    } else {
                        DashError::SequenceExhausted
                    }
                    &&& old(self).media_index >= u32::MAX || old(self).sequence == u64::MAX
                    &&& *final(self) == *old(self)
                },
                Ok(plan) => {
                    &&& old(self).media_index < u32::MAX && old(self).sequence < u64::MAX
                    &&& *final(self) == DashSession {
                        sequence: (old(self).sequence + 1) as u64,
                        ..*old(self)
                    }
                    &&& plan.fragment_sequence == old(self).media_index + 1
                    &&& plan.header == DashObjectHeader {
                        stream_id: old(self).stream_id,
                        epoch_id: old(self).epoch_id,
                        kind: DashObjectKind::Media,
                        sequence: (old(self).sequence + 1) as u64,
                        segment_number: old(self).segment_of(old(self).media_index) as u64,
                        chunk_index: old(self).chunk_of(old(self).media_index) as u16,
                        timestamp,
                        duration: duration as u64,
                        random_access: keyframe,
                    }
                },
            },
    {
        if self.media_index >= 0xffff_ffff {
            return Err(DashError::TooManyFragments);
        }
        let frames: u64 = self.segment_frames as u64;
        let index: u64 = self.media_index;
        assert(index / frames <= index) by (nonlinear_arith)
            requires
                frames > 0,
                index >= 0,
        ;
        let segment_number: u64 = index / frames + 1;
        assert(index % frames < frames);
        let chunk_index: u16 = (index % frames) as u16;
        match self.next_dash_object(
            DashObjectKind::Media,
            segment_number,
            chunk_index,
            timestamp,
            duration as u64,
            keyframe,
        ) {
            Err(error) => Err(error),
            Ok(header) => Ok(
                MediaPlan { fragment_sequence: (index + 1) as u32, iv: random_iv(), header },
            ),
        }
    }

    /// Takes note that the relay has the media fragment.
    pub fn media_published(&mut self)
        requires
            old(self).wf(),
        ensures
            final(self).wf(),
            *final(self) == (DashSession {
                media_index: if old(self).media_index == u64::MAX {
                    u64::MAX
                } else {
                    (old(self).media_index + 1) as u64
                },
                ..*old(self)
            }),
    {
        self.media_index = self.media_index.saturating_add(1);
    }

    /// What becomes of a captured frame.
    pub open spec fn frame_step(
        self,
        change: FrameChange,
        fingerprint: Option<[u8; 32]>,
        now: u64,
    ) -> FrameStep {
        let changed = counts_as_changed(change, self.last_fingerprint, fingerprint);
        if changed {
            FrameStep {
                changed,
                flush: flushed(self.pending_media, self.cadence.flush_at(now)),
                publish: Some(self.cadence.change_start(now)),
                hold: None,
            }
        } else if self.cadence.still_due(now) {
            FrameStep {
                changed,
                flush: flushed(self.pending_media, self.cadence.flush_at(now)),
                publish: None,
                hold: Some(self.cadence.still_start(now)),
            }
        } else {
            FrameStep { changed, flush: None, publish: None, hold: None }
        }
    }

    /// The session once a captured frame has taken its course.
    pub open spec fn after_frame(
        self,
        change: FrameChange,
        fingerprint: Option<[u8; 32]>,
        now: u64,
    ) -> DashSession {
        let changed = counts_as_changed(change, self.last_fingerprint, fingerprint);
        if changed {
            DashSession {
                cadence: self.cadence.after_change(now),
                last_fingerprint: fingerprint,
                pending_media: None,
                ..self
            }
        } else if self.cadence.still_due(now) {
            DashSession {
                cadence: AdaptiveMediaCadence {
                    media_end: self.cadence.still_start(now),
                    pending_timestamp: Some(self.cadence.still_start(now)),
                    ..self.cadence
                },
                pending_media: Some(self.cadence.still_start(now)),
                ..self
            }
        } else {
            self
        }
    }

    /// Decides the course of a captured frame.
    pub fn observe_frame(
        &mut self,
        change: FrameChange,
        fingerprint: Option<[u8; 32]>,
        now: u64,
    ) -> (step: FrameStep)
        requires
            old(self).wf(),
        ensures
            final(self).wf(),
            step == old(self).frame_step(change, fingerprint, now),
            *final(self) == old(self).after_frame(change, fingerprint, now),
    {
        let changed = frame_changed(change, &self.last_fingerprint, &fingerprint);
        let decision = self.cadence.observe(now, changed);
        let flush: Option<(u64, u32)> = match (self.pending_media, decision.flush_pending_duration)
        {
            (Some(timestamp), Some(duration)) => Some((timestamp, duration)),
            _ => None,
        };
        match decision.publish_current_timestamp {
            Some(_) => {
                self.last_fingerprint = fingerprint;
                self.pending_media = None;
            },
            None => {
                match decision.encode_pending_timestamp {
                    Some(timestamp) => {
                        self.pending_media = Some(timestamp);
                    },
                    None => {},
                }
            },
        }
        FrameStep {
            changed,
            flush,
            publish: decision.publish_current_timestamp,
            hold: decision.encode_pending_timestamp,
        }
    }

    /// Ends the session: the waiting frame, which is published with the time it was shown.
    pub fn finish(&mut self, now: u64) -> (flush: Option<(u64, u32)>)
        requires
            old(self).wf(),
        ensures
            flush == flushed(old(self).pending_media, old(self).cadence.flush_at(now)),
            final(self).wf(),
            *final(self) == (DashSession {
                cadence: AdaptiveMediaCadence {
                    media_end: match old(self).cadence.pending_timestamp {
                        Some(start) => ticks_after(start, held_duration(start, now) as u64),
                        None => old(self).cadence.media_end,
                    },
                    pending_timestamp: None,
                    ..old(self).cadence
                },
                pending_media: None,
                ..*old(self)
            }),
    {
        let pending = self.pending_media;
        self.pending_media = None;
        match (pending, self.cadence.finish(now)) {
            (Some(timestamp), Some(duration)) => Some((timestamp, duration)),
            _ => None,
        }
    }

    /// Ticks of a whole segment, one at least.
    pub open spec fn segment_ticks(self) -> int {
        if self.frame_duration * self.segment_frames == 0 {
            1
        } else {
            self.frame_duration * self.segment_frames
        }
    }

    /// The header of an object with cursor events, which come in rising order of time.
    /// There is none without events.
    pub fn cursor_object(&mut self, timestamps: &Vec<u64>) -> (result: Result<
        Option<DashObjectHeader>,
        DashError,
    >)
        requires
            old(self).wf(),
            timestamps@.len() > 0 ==> timestamps@[0] / (old(self).segment_ticks() as u64)
                < u64::MAX,
        ensures
            final(self).wf(),
            match result {
                Err(error) => {
                    &&& error == DashError::SequenceExhausted
                    &&& timestamps@.len() > 0
                    &&& old(self).sequence == u64::MAX
                    &&& *final(self) == *old(self)
                },
                Ok(None) => timestamps@.len() == 0 && *final(self) == *old(self),
                Ok(Some(header)) => {
                    &&& timestamps@.len() > 0
                    &&& old(self).sequence < u64::MAX
                    &&& *final(self) == DashSession {
                        sequence: (old(self).sequence + 1) as u64,
                        ..*old(self)
                    }
                    &&& header == DashObjectHeader {
                        stream_id: old(self).stream_id,
                        epoch_id: old(self).epoch_id,
                        kind: DashObjectKind::Cursor,
                        sequence: (old(self).sequence + 1) as u64,
                        segment_number: (timestamps@[0] / (old(self).segment_ticks() as u64)
                            + 1) as u64,
                        chunk_index: 0,
                        timestamp: timestamps@[0],
                        duration: if timestamps@.last() <= timestamps@[0] {
                            1
                        } else {
                            (timestamps@.last() - timestamps@[0]) as u64
                        },
                        random_access: true,
                    }
                },
            },
    {
        let count: usize = timestamps.len();
        if count == 0 {
            return Ok(None);
        }
        let start: u64 = timestamps[0];
        let end: u64 = timestamps[count - 1];
        let a: u64 = self.frame_duration as u64;
        let b: u64 = self.segment_frames as u64;
        assert(0 <= a * b <= 0xffff_ffff * 0xffff) by (nonlinear_arith)
            requires
                0 <= a <= 0xffff_ffff,
                0 <= b <= 0xffff,
        ;
        let product: u64 = a * b;
        let ticks: u64 = if product == 0 {
            1
        } else {
            product
        };
        let span: u64 = end.saturating_sub(start);
        let duration: u64 = if span == 0 {
            1
        } else {
            span
        };
        match self.next_dash_object(
            DashObjectKind::Cursor,
            start / ticks + 1,
            0,
            start,
            duration,
            true,
        ) {
            Err(error) => Err(error),
            Ok(header) => Ok(Some(header)),
        }
    }
}

/// Media fragments fill segments one after the other: two fragments are never at the same
/// place, a later one never comes before, and a segment opens with its first place.
pub proof fn fragments_fill_segments_in_order(session: DashSession, a: u64, b: u64)
    requires
        session.wf(),
        a < b,
    ensures
        session.chunk_of(a) < session.segment_frames,
        session.segment_of(a) < session.segment_of(b) || session.segment_of(a)
            == session.segment_of(b) && session.chunk_of(a) < session.chunk_of(b),
        (DashSession { media_index: a, ..session }).opens_segment() <==> session.chunk_of(a) == 0,
{
    let frames = session.segment_frames as int;
    assert(a / frames as u64 <= b / frames as u64) by (nonlinear_arith)
        requires
            frames > 0,
            a < b,
            frames <= 0xffff,
    ;
    assert(a == frames * (a / frames as u64) + a % frames as u64) by (nonlinear_arith)
        requires
            0 < frames <= 0xffff,
    ;
    assert(b == frames * (b / frames as u64) + b % frames as u64) by (nonlinear_arith)
        requires
            0 < frames <= 0xffff,
    ;
}

/// The frame that waits for its duration is never lost: whenever the cadence sends it, it
/// is there, and while it is there the cadence waits for it.
pub proof fn waiting_frame_is_never_lost(
    session: DashSession,
    change: FrameChange,
    fingerprint: Option<[u8; 32]>,
    now: u64,
)
    requires
        session.wf(),
    ensures
        session.after_frame(change, fingerprint, now).wf(),
        ({
            let step = session.frame_step(change, fingerprint, now);
            &&& session.pending_media matches Some(start) ==> step.flush matches Some((at, _))
                && at == start || session.after_frame(change, fingerprint, now).pending_media
                == session.pending_media
            &&& session.pending_media is None ==> step.flush is None
        }),
{
}

} // verus!

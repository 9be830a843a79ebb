//! What holds of sent media, whatever was captured: when frames are shown, how objects are
//! numbered and what is kept. Each law speaks of what a call may return for what it was
//! given.

use core::time::Duration;

use vstd::prelude::*;

use crate::cadence::{AdaptiveMediaCadence, MediaCadenceDecision};
use crate::dash::{
    ack_step, check_start, describe_size, duration_to_media_ticks, frame_changed, hello_accepted,
    normalize_captured_dash_frame, normalize_dash_input, resume, resumed_sequence, AckStep,
    CapturedDashFrame, DashError, DashSession, FrameChange, FrameStep, MediaPlan, ServerMessage,
};
use crate::resend::{
    object_image, objects_between, stream_objects, unacknowledged, DashObject, DashObjectHeader,
    DashObjectKind, DashObjectModel, DashResendBuffer,
};
use crate::time::duration_nanos;

verus! {

/// A cadence begins with a frame that is shown from zero for one frame's time. A still
/// screen is repeated after the heartbeat, but no sooner than a frame lasts and no later
/// than a sample can last.
pub proof fn cadences_begin_at_zero(
    frame_duration: u64,
    heartbeat_ticks: u64,
    cadence: AdaptiveMediaCadence,
)
    requires
        call_ensures(AdaptiveMediaCadence::new, (frame_duration, heartbeat_ticks), cadence),
    ensures
        cadence.media_end == frame_duration,
        cadence.pending_timestamp is None,
        cadence.frame_duration == frame_duration,
        frame_duration <= heartbeat_ticks <= u32::MAX ==> cadence.heartbeat_ticks
            == heartbeat_ticks,
        heartbeat_ticks <= frame_duration <= u32::MAX ==> cadence.heartbeat_ticks
            == frame_duration,
        cadence.heartbeat_ticks <= u32::MAX,
        heartbeat_ticks > u32::MAX || frame_duration > u32::MAX ==> cadence.heartbeat_ticks
            == u32::MAX,
{
}

/// A changed frame is published at the time it was captured, as soon as everything published
/// before has ended, else right when that ends. It then lasts one frame's time.
pub proof fn changed_frames_are_published_when_captured(
    cadence: &mut AdaptiveMediaCadence,
    timestamp: u64,
    decision: MediaCadenceDecision,
)
    requires
        call_ensures(AdaptiveMediaCadence::observe, (cadence, timestamp, true), decision),
        old(cadence).pending_timestamp is None,
    ensures
        timestamp >= old(cadence).media_end ==> decision.publish_current_timestamp == Some(
            timestamp,
        ),
        timestamp <= old(cadence).media_end ==> decision.publish_current_timestamp == Some(
            old(cadence).media_end,
        ),
        decision.flush_pending_duration is None,
        decision.encode_pending_timestamp is None,
        final(cadence).pending_timestamp is None,
        final(cadence).frame_duration == old(cadence).frame_duration,
        final(cadence).heartbeat_ticks == old(cadence).heartbeat_ticks,
        decision.publish_current_timestamp->0 + old(cadence).frame_duration <= u64::MAX
            ==> final(cadence).media_end == decision.publish_current_timestamp->0 + old(cadence).frame_duration,
{
}

/// A held frame is shown until the changed frame that follows it was captured, which is
/// published at that very time. A held frame that nothing was shown of yet gets one tick.
pub proof fn held_frames_last_until_the_change(
    cadence: &mut AdaptiveMediaCadence,
    start: u64,
    timestamp: u64,
    decision: MediaCadenceDecision,
)
    requires
        call_ensures(AdaptiveMediaCadence::observe, (cadence, timestamp, true), decision),
        old(cadence).pending_timestamp == Some(start),
        start < u64::MAX,
        timestamp <= start + u32::MAX,
    ensures
        timestamp > start ==> decision.flush_pending_duration == Some((timestamp - start) as u32)
            && decision.publish_current_timestamp == Some(timestamp),
        timestamp <= start ==> decision.flush_pending_duration == Some(1u32)
            && decision.publish_current_timestamp == Some((start + 1) as u64),
        decision.encode_pending_timestamp is None,
        final(cadence).pending_timestamp is None,
        decision.publish_current_timestamp->0 + old(cadence).frame_duration <= u64::MAX
            ==> final(cadence).media_end == decision.publish_current_timestamp->0 + old(cadence).frame_duration,
{
}

/// A frame that was held for longer than a sample can last is shown for as long as one can,
/// and the changed frame is still published when it was captured.
pub proof fn long_held_frames_do_not_delay_the_change(
    cadence: &mut AdaptiveMediaCadence,
    start: u64,
    timestamp: u64,
    decision: MediaCadenceDecision,
)
    requires
        call_ensures(AdaptiveMediaCadence::observe, (cadence, timestamp, true), decision),
        old(cadence).pending_timestamp == Some(start),
        timestamp >= start + u32::MAX,
    ensures
        decision.flush_pending_duration == Some(u32::MAX),
        decision.publish_current_timestamp == Some(timestamp),
{
}

/// The first still frame is held from where the published media ends, once it has ended;
/// one that comes earlier is passed over.
pub proof fn still_frames_are_held_once_the_media_ends(
    cadence: &mut AdaptiveMediaCadence,
    timestamp: u64,
    decision: MediaCadenceDecision,
)
    requires
        call_ensures(AdaptiveMediaCadence::observe, (cadence, timestamp, false), decision),
        old(cadence).pending_timestamp is None,
    ensures
        decision.publish_current_timestamp is None,
        decision.flush_pending_duration is None,
        decision.encode_pending_timestamp == if timestamp >= old(cadence).media_end {
            Some(old(cadence).media_end)
        } else {
            None
        },
        final(cadence).pending_timestamp == decision.encode_pending_timestamp,
        final(cadence).media_end == old(cadence).media_end,
        final(cadence).frame_duration == old(cadence).frame_duration,
        final(cadence).heartbeat_ticks == old(cadence).heartbeat_ticks,
{
}

/// While the screen is still, nothing is sent until a heartbeat has passed since the held
/// frame began. Then the held frame is sent with the time it was shown, and the next one is
/// held from there on.
pub proof fn still_frames_are_sent_once_per_heartbeat(
    cadence: &mut AdaptiveMediaCadence,
    start: u64,
    timestamp: u64,
    decision: MediaCadenceDecision,
)
    requires
        call_ensures(AdaptiveMediaCadence::observe, (cadence, timestamp, false), decision),
        old(cadence).pending_timestamp == Some(start),
        old(cadence).heartbeat_ticks > 0,
        timestamp <= start + u32::MAX,
    ensures
        decision.publish_current_timestamp is None,
        timestamp < start + old(cadence).heartbeat_ticks ==> decision.flush_pending_duration
            is None && decision.encode_pending_timestamp is None && *final(cadence) == *old(cadence),
        timestamp >= start + old(cadence).heartbeat_ticks ==> decision.flush_pending_duration
            == Some((timestamp - start) as u32) && decision.encode_pending_timestamp == Some(
            timestamp,
        ) && final(cadence).pending_timestamp == Some(timestamp) && final(cadence).media_end
            == timestamp,
{
}

/// A cadence ends with the frame that is held, shown until then and for one tick at least.
pub proof fn finished_cadences_send_the_held_frame(
    cadence: &mut AdaptiveMediaCadence,
    timestamp: u64,
    duration: Option<u32>,
)
    requires
        call_ensures(AdaptiveMediaCadence::finish, (cadence, timestamp), duration),
        old(cadence).pending_timestamp matches Some(start) ==> timestamp <= start + u32::MAX
            && start < u64::MAX,
    ensures
        duration == match old(cadence).pending_timestamp {
            None => None,
            Some(start) => Some(
                if timestamp > start {
                    (timestamp - start) as u32
                } else {
                    1
                },
            ),
        },
        final(cadence).pending_timestamp is None,
        old(cadence).pending_timestamp matches Some(start) ==> final(cadence).media_end == start
            + duration->0,
        old(cadence).pending_timestamp is None ==> final(cadence).media_end == old(cadence).media_end,
{
}

/// A frame of a session takes the course that its cadence gives it: a change is published
/// when it was captured, behind the frame that waited, which gets the time up to it.
pub proof fn changed_session_frames_are_published_when_captured(
    session: &mut DashSession,
    change: FrameChange,
    fingerprint: Option<[u8; 32]>,
    now: u64,
    step: FrameStep,
)
    requires
        call_ensures(DashSession::observe_frame, (session, change, fingerprint, now), step),
        old(session).wf(),
        step.changed,
        now < u64::MAX,
        old(session).pending_media matches Some(start) ==> start < now <= start + u32::MAX,
        old(session).pending_media is None ==> now >= old(session).cadence.media_end,
    ensures
        step.publish == Some(now),
        step.hold is None,
        step.flush == match old(session).pending_media {
            Some(start) => Some((start, (now - start) as u32)),
            None => None,
        },
        final(session).pending_media is None,
        final(session).last_fingerprint == fingerprint,
        final(session).sequence == old(session).sequence,
        final(session).media_index == old(session).media_index,
{
}

/// A still frame of a session is never published itself. It waits from the end of the media
/// on, and what waited is published once a heartbeat has passed.
pub proof fn still_session_frames_wait(
    session: &mut DashSession,
    change: FrameChange,
    fingerprint: Option<[u8; 32]>,
    now: u64,
    step: FrameStep,
)
    requires
        call_ensures(DashSession::observe_frame, (session, change, fingerprint, now), step),
        old(session).wf(),
        !step.changed,
        old(session).cadence.heartbeat_ticks > 0,
        old(session).pending_media matches Some(start) ==> now <= start + u32::MAX,
    ensures
        step.publish is None,
        final(session).last_fingerprint == old(session).last_fingerprint,
        match old(session).pending_media {
            None => {
                &&& step.flush is None
                &&& step.hold == if now >= old(session).cadence.media_end {
                    Some(old(session).cadence.media_end)
                } else {
                    None
                }
                &&& final(session).pending_media == step.hold
            },
            Some(start) => if now < start + old(session).cadence.heartbeat_ticks {
                step.flush is None && step.hold is None && final(session).pending_media == Some(
                    start,
                )
            } else {
                step.flush == Some((start, (now - start) as u32)) && step.hold == Some(now)
                    && final(session).pending_media == Some(now)
            },
        },
{
}

/// Two frames of which the fingerprints are known differ if and only if those do, whatever
/// the source says of them. Else the source decides, and only what it calls unchanged is.
pub proof fn fingerprints_decide_what_changed(
    change: FrameChange,
    previous: &Option<[u8; 32]>,
    current: &Option<[u8; 32]>,
    changed: bool,
)
    requires
        call_ensures(frame_changed, (change, previous, current), changed),
    ensures
        *previous is Some && *current is Some ==> (changed <==> *previous != *current),
        !(*previous is Some && *current is Some) ==> (changed <==> !(change is Unchanged)),
{
}

/// Frames are encoded at even sides: the frame's own where they are even, else one pixel
/// less, but two at least. A size that was asked for is kept.
pub proof fn encoded_sides_are_even(
    width: u32,
    height: u32,
    target: Option<(u32, u32)>,
    size: (u32, u32),
)
    requires
        call_ensures(normalize_dash_input, (width, height, target), size),
    ensures
        target matches Some(wanted) ==> size == wanted,
        target is None ==> {
            &&& size.0 % 2 == 0 && size.1 % 2 == 0
            &&& size.0 >= 2 && size.1 >= 2
            &&& width >= 2 ==> size.0 <= width <= size.0 + 1
            &&& height >= 2 ==> size.1 <= height <= size.1 + 1
            &&& width < 2 ==> size.0 == 2
            &&& height < 2 ==> size.1 == 2
        },
{
}

/// A second of media has ninety thousand ticks, and only whole ticks count.
pub proof fn media_has_ninety_thousand_ticks_a_second(duration: Duration, ticks: u64)
    requires
        call_ensures(duration_to_media_ticks, (duration,), ticks),
        duration_nanos(duration) * 90_000 < u64::MAX * 1_000_000_000,
    ensures
        ticks * 1_000_000_000 <= duration_nanos(duration) * 90_000,
        duration_nanos(duration) * 90_000 < (ticks + 1) * 1_000_000_000,
{
}

/// Media fragments are numbered from one, and the place of each in its segment follows from
/// its number: as many fragments come before it as its segment and place say. Objects of a
/// session have consecutive sequences.
pub proof fn fragments_are_numbered_without_gaps(
    session: &mut DashSession,
    timestamp: u64,
    duration: u32,
    keyframe: bool,
    result: Result<MediaPlan, DashError>,
)
    requires
        call_ensures(
            DashSession::build_dash_media_object,
            (session, timestamp, duration, keyframe),
            result,
        ),
        old(session).wf(),
    ensures
        result is Ok <==> old(session).media_index < u32::MAX && old(session).sequence < u64::MAX,
        result matches Ok(plan) ==> {
            &&& plan.fragment_sequence == old(session).media_index + 1
            &&& (plan.header.segment_number - 1) * old(session).segment_frames
                + plan.header.chunk_index == old(session).media_index
            &&& plan.header.chunk_index < old(session).segment_frames
            &&& plan.header.sequence == old(session).sequence + 1
            &&& final(session).sequence == plan.header.sequence
            &&& final(session).media_index == old(session).media_index
            &&& plan.header.kind is Media
            &&& plan.header.stream_id == old(session).stream_id
            &&& plan.header.epoch_id == old(session).epoch_id
            &&& plan.header.timestamp == timestamp
            &&& plan.header.duration == duration
            &&& plan.header.random_access == keyframe
        },
        result matches Err(error) ==> *final(session) == *old(session) && (error is
            TooManyFragments <==> old(session).media_index >= u32::MAX) && (error is
            TooManyFragments || error is SequenceExhausted),
{
    if result is Ok {
        let index = old(session).media_index as int;
        let frames = old(session).segment_frames as int;
        assert(index == (index / frames) * frames + index % frames) by (nonlinear_arith)
            requires
                frames > 0,
        ;
        assert(0 <= index / frames <= index) by (nonlinear_arith)
            requires
                frames > 0,
                index >= 0,
        ;
    }
}

/// A fragment opens a segment if and only if a whole number of segments comes before it, and
/// the next fragment follows once it is published.
pub proof fn segments_open_after_whole_segments(
    session: &DashSession,
    start: bool,
    published: &mut DashSession,
    segments: int,
)
    requires
        call_ensures(DashSession::segment_start, (session,), start),
        session.wf(),
        call_ensures(DashSession::media_published, (published,), ()),
        old(published).wf(),
        old(published).media_index < u64::MAX,
    ensures
        session.media_index == segments * session.segment_frames ==> start,
        segments * session.segment_frames < session.media_index < (segments + 1)
            * session.segment_frames ==> !start,
        final(published).media_index == old(published).media_index + 1,
        final(published).sequence == old(published).sequence,
{
    let index = session.media_index as int;
    let frames = session.segment_frames as int;
    if index == segments * frames {
        assert(index % frames == 0) by (nonlinear_arith)
            requires
                frames > 0,
                index == segments * frames,
        ;
    }
    if segments * frames < index < (segments + 1) * frames {
        assert(index % frames != 0) by (nonlinear_arith)
            requires
                frames > 0,
                segments * frames < index < (segments + 1) * frames,
        ;
    }
}

/// Cursor events go with the segment during which the first of them happened, for as long as
/// they span. Without events there is no object.
pub proof fn cursor_events_go_with_their_segment(
    session: &mut DashSession,
    timestamps: &Vec<u64>,
    result: Result<Option<DashObjectHeader>, DashError>,
    segment: int,
)
    requires
        call_ensures(DashSession::cursor_object, (session, timestamps), result),
        old(session).wf(),
        old(session).frame_duration > 0,
        segment >= 0,
        timestamps@.len() > 0 ==> segment * (old(session).frame_duration * old(session).segment_frames) <= timestamps@[0] < (segment + 1) * (old(session).frame_duration
            * old(session).segment_frames) && segment < u64::MAX,
    ensures
        timestamps@.len() == 0 ==> (result matches Ok(None)) && *final(session) == *old(session),
        timestamps@.len() > 0 && old(session).sequence == u64::MAX ==> result is Err,
        timestamps@.len() > 0 && old(session).sequence < u64::MAX ==> {
            &&& result matches Ok(Some(header))
            &&& header.kind is Cursor
            &&& header.sequence == old(session).sequence + 1
            &&& final(session).sequence == header.sequence
            &&& final(session).media_index == old(session).media_index
            &&& header.segment_number == segment + 1
            &&& header.timestamp == timestamps@[0]
            &&& timestamps@.last() > timestamps@[0] ==> header.timestamp + header.duration
                == timestamps@.last()
            &&& timestamps@.last() <= timestamps@[0] ==> header.duration == 1
            &&& header.stream_id == old(session).stream_id
            &&& header.epoch_id == old(session).epoch_id
        },
{
    if timestamps@.len() > 0 {
        let frame = old(session).frame_duration as int;
        let frames = old(session).segment_frames as int;
        let ticks = frame * frames;
        let first = timestamps@[0] as int;
        assert(0 < ticks <= 0xffff_ffff * 0xffff) by (nonlinear_arith)
            requires
                ticks == frame * frames,
                0 < frame <= 0xffff_ffff,
                0 < frames <= 0xffff,
        ;
        assert(first / ticks == segment) by (nonlinear_arith)
            requires
                ticks > 0,
                segment * ticks <= first < (segment + 1) * ticks,
        ;
    }
}

/// The objects that open an epoch have consecutive sequences, stand before its media and can
/// be decoded by themselves.
pub proof fn epochs_are_opened_before_their_media(
    session: &mut DashSession,
    initialization: bool,
    result: Result<DashObjectHeader, DashError>,
)
    requires
        call_ensures(DashSession::epoch_object, (session, initialization), result),
    ensures
        result is Ok <==> old(session).sequence < u64::MAX,
        result matches Ok(header) ==> {
            &&& header.sequence == old(session).sequence + 1
            &&& final(session).sequence == header.sequence
            &&& initialization ==> header.kind is Initialization
            &&& !initialization ==> header.kind is Epoch
            &&& header.segment_number == 0
            &&& header.timestamp == 0
            &&& header.random_access
            &&& header.stream_id == old(session).stream_id
            &&& header.epoch_id == old(session).epoch_id
        },
{
}

/// A publisher waits on until the relay has stored the object that it waits for, or more.
pub proof fn publishers_wait_for_their_object(
    buffer: &mut DashResendBuffer,
    message: &ServerMessage,
    expected: u64,
    step: AckStep,
)
    requires
        call_ensures(ack_step, (buffer, message, expected), step),
        old(buffer).wf(),
    ensures
        *message matches ServerMessage::Ack { through_seq } ==> (step is Done <==> through_seq
            >= expected) && (step is Wait <==> through_seq < expected),
        step matches AckStep::Done { through_seq } ==> *message == (ServerMessage::Ack {
            through_seq,
        }),
        step is Fail ==> (*message is Refused || *message is ResendRequest),
        *message is Refused ==> (step matches AckStep::Fail(DashError::Refused { .. })),
        step is Resend ==> *message is ResendRequest,
        *message matches ServerMessage::Backpressure { pause_ms, .. } ==> step == (AckStep::Pause {
            pause_ms,
        }),
        !(*message is Ack) ==> final(buffer)@ == old(buffer)@,
{
}

/// A publisher is let in by an acceptance that names a stream, and by nothing else.
pub proof fn only_an_acceptance_lets_a_publisher_in(
    message: &ServerMessage,
    result: Result<(u128, u64), DashError>,
)
    requires
        call_ensures(hello_accepted, (message,), result),
    ensures
        result is Ok <==> (*message matches ServerMessage::HelloAck { accepted, stream_id, .. }
            && accepted && stream_id is Some),
        result matches Ok((stream, last)) ==> (*message matches ServerMessage::HelloAck {
            stream_id,
            last_sequence,
            ..
        } && stream_id == Some(stream) && last_sequence == last),
        *message is HelloAck && result is Err ==> result->Err_0 is HelloRejected,
        !(*message is HelloAck) ==> result is Err && result->Err_0 is UnexpectedReply,
{
}

/// When a stream is resumed, what is kept is of that stream and ends with its newest objects;
/// nothing of it that the relay lacks is let go of, as long as its objects rise. Everything
/// that is kept is sent again, in its order.
pub proof fn resumed_streams_send_what_is_lacking(
    buffer: &mut DashResendBuffer,
    stream_id: u128,
    last: u64,
    pending: Vec<DashObject>,
    object: DashObjectModel,
)
    requires
        old(buffer).wf(),
        call_ensures(resume, (buffer, stream_id, last), pending),
        crate::resend::is_rising(old(buffer)@.objects),
    ensures
        final(buffer)@.objects.contains(object) <==> old(buffer)@.objects.contains(object)
            && object.header.stream_id == stream_id && object.header.sequence > last,
        pending@.map_values(object_image()).contains(object) <==> final(buffer)@.objects.contains(
            object,
        ),
        final(buffer)@.max_bytes == old(buffer)@.max_bytes,
{
    let all = old(buffer)@.objects;
    let own = stream_objects(all, stream_id);
    lemma_own_objects(all, stream_id, object);
    let kept = final(buffer)@.objects;
    crate::resend::acknowledgement_is_exact(
        crate::resend::ResendModel { max_bytes: old(buffer)@.max_bytes, objects: own },
        last,
        object,
    );
    crate::resend::lemma_unacknowledged(own, last);
    if kept.len() > 0 {
        let newest = kept.last().header.sequence;
        let end = kept.len() - 1;
        assert(kept[0].header.sequence > last);
        if end > 0 {
            assert(own[own.len() - kept.len()].header.sequence < own[own.len() - 1].header.sequence);
        }
        assert(newest > last);
        crate::resend::requested_objects_are_exact(kept, (last + 1) as u64, newest, object);
        if kept.contains(object) {
            let k = choose|k: int| 0 <= k < kept.len() && kept[k] == object;
            assert(kept[k] == own[own.len() - kept.len() + k]);
            if k < end {
                assert(own[own.len() - kept.len() + k].header.sequence < own[own.len()
                    - 1].header.sequence);
            }
        }
    }
}

proof fn lemma_own_objects(objects: Seq<DashObjectModel>, stream_id: u128, object: DashObjectModel)
    requires
        crate::resend::is_rising(objects),
    ensures
        stream_objects(objects, stream_id).contains(object) <==> objects.contains(object)
            && object.header.stream_id == stream_id,
        crate::resend::is_rising(stream_objects(objects, stream_id)),
        stream_objects(objects, stream_id).len() > 0 ==> objects.len() > 0 && stream_objects(
            objects,
            stream_id,
        ).last().header.sequence <= objects.last().header.sequence,
    decreases objects.len(),
{
    if objects.len() > 0 {
        let rest = objects.drop_last();
        let last = objects.last();
        assert forall|i: int, j: int| 0 <= i < j < rest.len() implies (
        #[trigger] rest[i]).header.sequence < (#[trigger] rest[j]).header.sequence by {
            assert(objects[i].header.sequence < objects[j].header.sequence);
        }
        lemma_own_objects(rest, stream_id, object);
        let before = stream_objects(rest, stream_id);
        let own = stream_objects(objects, stream_id);
        if rest.len() > 0 {
            assert(objects[rest.len() - 1].header.sequence < objects[objects.len()
                - 1].header.sequence);
        }
        assert forall|i: int, j: int| 0 <= i < j < own.len() implies (
        #[trigger] own[i]).header.sequence < (#[trigger] own[j]).header.sequence by {
            if j < before.len() {
                assert(before[i].header.sequence < before[j].header.sequence);
            } else if i < before.len() - 1 {
                assert(before[i].header.sequence < before[before.len() - 1].header.sequence);
            }
        }
        if own.contains(object) {
            let k = choose|k: int| 0 <= k < own.len() && own[k] == object;
            if k < before.len() {
                assert(before[k] == object);
                let i = choose|i: int| 0 <= i < rest.len() && rest[i] == object;
                assert(objects[i] == object);
            } else {
                assert(objects[objects.len() - 1] == object);
            }
        }
        if objects.contains(object) && object.header.stream_id == stream_id {
            let i = choose|i: int| 0 <= i < objects.len() && objects[i] == object;
            if i < rest.len() {
                assert(rest[i] == object);
                let k = choose|k: int| 0 <= k < before.len() && before[k] == object;
                assert(own[k] == object);
            } else {
                assert(own[own.len() - 1] == object);
            }
        }
    }
}

/// Numbering goes on behind everything that is known to have been numbered, and no further.
pub proof fn numbering_goes_on_behind_everything(
    server_last: u64,
    acknowledged: &Vec<u64>,
    newest: Option<u64>,
    sequence: u64,
    i: int,
)
    requires
        call_ensures(resumed_sequence, (server_last, acknowledged, newest), sequence),
        0 <= i < acknowledged@.len(),
    ensures
        sequence >= server_last,
        sequence >= acknowledged@[i],
        newest matches Some(highest) ==> sequence >= highest,
        sequence > server_last && newest != Some(sequence) ==> exists|k: int|
            0 <= k < acknowledged@.len() && #[trigger] acknowledged@[k] == sequence,
{
}

/// A frame is encoded at the size that is asked for, else at its own with an odd pixel cut
/// off, two pixels at least. Whether it changed is not for its size to say.
pub proof fn captured_frames_are_made_even(
    capture: CapturedDashFrame,
    target: Option<(u32, u32)>,
    normalized: CapturedDashFrame,
)
    requires
        call_ensures(normalize_captured_dash_frame, (capture, target), normalized),
    ensures
        normalized.change == capture.change,
        target matches Some((width, height)) ==> normalized.width == width && normalized.height
            == height,
        target is None ==> {
            &&& normalized.width % 2 == 0 && normalized.height % 2 == 0
            &&& normalized.width >= 2 && normalized.height >= 2
            &&& capture.width >= 2 ==> capture.width - 1 <= normalized.width <= capture.width
            &&& capture.height >= 2 ==> capture.height - 1 <= normalized.height <= capture.height
        },
{
}

/// A publication starts with segments of a frame at least and a key to know the relay by. An
/// epoch and every segment start with a picture that can be decoded by itself.
pub proof fn segments_start_where_decoding_can(
    segment_frames: u16,
    has_server_key: bool,
    started: Result<(), DashError>,
    keyframe: bool,
    has_config: bool,
    first: Result<(), DashError>,
    segment_start: bool,
    checked: Result<(), DashError>,
)
    requires
        call_ensures(check_start, (segment_frames, has_server_key), started),
        call_ensures(DashSession::check_first_frame, (keyframe, has_config), first),
        call_ensures(DashSession::check_frame, (segment_start, keyframe), checked),
    ensures
        started is Ok <==> segment_frames > 0 && has_server_key,
        first is Ok <==> keyframe && has_config,
        checked is Ok <==> keyframe || !segment_start,
        started matches Err(error) ==> (error == DashError::NoSegmentFrames <==> segment_frames
            == 0),
        first matches Err(error) ==> (error == DashError::EpochWithoutIdr <==> !keyframe),
{
}

/// A size is described as it is, as far as sixteen bits go.
pub proof fn sizes_are_described(
    width: u32,
    height: u32,
    result: Result<(u16, u16), DashError>,
)
    requires
        call_ensures(describe_size, (width, height), result),
    ensures
        result is Ok <==> width < 65_536 && height < 65_536,
        result matches Ok((w, h)) ==> w == width && h == height,
        result matches Err(error) ==> (error == DashError::WidthTooLarge <==> width >= 65_536),
{
}

} // verus!

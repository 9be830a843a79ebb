use std::time::Duration;

use glacialcast::client::is_fatal_dash_error;
use glacialcast::dash::{
    ack_step, check_start, describe_size, duration_to_media_ticks, hello_accepted,
    normalize_captured_dash_frame, normalize_dash_input, resume, resumed_sequence, AckStep,
    CapturedDashFrame, DashError, DashSession, FrameChange, FrameStep, ServerMessage,
};
use glacialcast::resend::{DashObject, DashObjectHeader, DashObjectKind, DashResendBuffer};

fn resend_object(stream_id: u128, sequence: u64, payload_len: usize) -> DashObject {
    DashObject {
        header: DashObjectHeader {
            stream_id,
            epoch_id: 1,
            kind: DashObjectKind::Media,
            sequence,
            segment_number: sequence,
            chunk_index: 0,
            timestamp: sequence,
            duration: 1,
            random_access: true,
        },
        payload: vec![sequence as u8; payload_len],
        seal: vec![7; 32],
    }
}

#[test]
fn resend_buffer_bounds_history_but_always_keeps_latest_object() {
    let stream_id = 2;
    let mut resend = DashResendBuffer::new(5);
    resend.push(resend_object(stream_id, 1, 3));
    resend.push(resend_object(stream_id, 2, 3));
    assert_eq!(resend.range(), (Some(2), Some(2)));
    assert_eq!(resend.bytes(), 3);

    resend.push(resend_object(stream_id, 3, 10));
    assert_eq!(resend.range(), (Some(3), Some(3)));
    assert_eq!(resend.bytes(), 10);
}

#[test]
fn resend_buffer_ack_and_range_selection_are_inclusive() {
    let stream_id = 3;
    let mut resend = DashResendBuffer::new(1024);
    for sequence in 1..=4 {
        resend.push(resend_object(stream_id, sequence, sequence as usize));
    }
    assert_eq!(
        resend
            .objects(2, 3)
            .into_iter()
            .map(|object| object.header.sequence)
            .collect::<Vec<_>>(),
        vec![2, 3]
    );
    resend.ack(0);
    assert_eq!(resend.range(), (Some(1), Some(4)));
    resend.ack(2);
    assert_eq!(resend.range(), (Some(3), Some(4)));
    assert_eq!(resend.bytes(), 7);
    resend.ack(u64::MAX);
    assert_eq!(resend.range(), (None, None));
    assert_eq!(resend.bytes(), 0);
}

#[test]
fn resend_buffer_drops_objects_assigned_to_a_previous_stream() {
    let retained_stream = 4;
    let old_stream = 5;
    let mut resend = DashResendBuffer::new(1024);
    resend.push(resend_object(old_stream, 1, 4));
    resend.push(resend_object(retained_stream, 2, 5));
    resend.push(resend_object(old_stream, 3, 6));

    resend.drop_other_streams(retained_stream);
    assert_eq!(resend.range(), (Some(2), Some(2)));
    assert_eq!(resend.bytes(), 5);
    assert_eq!(resend.len(), 1);
}

#[test]
fn the_longest_newest_run_is_held() {
    let mut resend = DashResendBuffer::new(10);
    for (sequence, length) in [(1, 4), (2, 3), (3, 3), (4, 4)] {
        resend.push(resend_object(9, sequence, length));
    }
    // Three objects are ten bytes; with the one before them they would be over the limit.
    assert_eq!(resend.range(), (Some(2), Some(4)));
    assert_eq!(resend.bytes(), 10);
}

#[test]
fn session_failures_speak_for_themselves() {
    let text = |error: DashError| error.text();
    assert_eq!(text(DashError::NoSegmentFrames), "--segment-frames must be at least 1");
    assert_eq!(
        text(DashError::ServerKeyMissing),
        "ingest server key is required; pass --ingest-server-key \
         or set ingest_server_key in client.toml"
    );
    assert_eq!(
        text(DashError::HelloRejected { reason: Some("bad \"token\"\n".to_string()) }),
        "server rejected hello: Some(\"bad \\\"token\\\"\\n\")"
    );
    assert_eq!(
        text(DashError::HelloRejected { reason: None }),
        "server rejected hello: None"
    );
    assert_eq!(
        text(DashError::UnexpectedReply { answer: "Pong".to_string() }),
        "server sent unexpected first response: Pong"
    );
    assert_eq!(text(DashError::SequenceExhausted), "DASH sequence exhausted");
    assert_eq!(text(DashError::TooManyFragments), "DASH epoch has too many media fragments");
    assert_eq!(text(DashError::WidthTooLarge), "video width does not fit MPEG-DASH metadata");
    assert_eq!(text(DashError::HeightTooLarge), "video height does not fit MPEG-DASH metadata");
    assert_eq!(
        text(DashError::EpochWithoutIdr),
        "H.264 encoder did not begin the epoch with a random-access frame"
    );
    assert_eq!(
        text(DashError::SegmentWithoutIdr),
        "H.264 encoder did not produce an IDR at the segment boundary"
    );
    assert_eq!(
        text(DashError::ConfigMissing),
        "H.264 encoder did not provide an AVC decoder configuration"
    );
    assert_eq!(
        text(DashError::Refused { sequence: 12, reason: "quota of \"desk\"".to_string() }),
        "relay refused object 12: quota of \"desk\""
    );
    assert_eq!(
        text(DashError::ResendMissing { from_seq: 3, to_seq: 40 }),
        "server requested DASH objects 3..=40, \
         but the resend buffer no longer contains all of them"
    );
}

#[test]
fn permanent_session_failures_are_not_retried() {
    let fatal = |error: DashError| {
        let wrapped = format!("publishing: {}", error.text());
        is_fatal_dash_error(&vec!["fatal DASH publisher error".to_string(), wrapped], false)
    };
    for error in [
        DashError::NoSegmentFrames,
        DashError::HelloRejected { reason: Some("no such client".to_string()) },
        DashError::WidthTooLarge,
        DashError::HeightTooLarge,
    ] {
        assert!(fatal(error));
    }
    for error in [
        DashError::ServerKeyMissing,
        DashError::UnexpectedReply { answer: "Pong".to_string() },
        DashError::SequenceExhausted,
        DashError::TooManyFragments,
        DashError::EpochWithoutIdr,
        DashError::SegmentWithoutIdr,
        DashError::ConfigMissing,
        DashError::ResendMissing { from_seq: 1, to_seq: 2 },
    ] {
        assert!(!fatal(error));
    }
}

#[test]
fn sessions_need_segments_and_a_pinned_relay() {
    assert_eq!(check_start(0, false), Err(DashError::NoSegmentFrames));
    assert_eq!(check_start(1, false), Err(DashError::ServerKeyMissing));
    assert_eq!(check_start(1, true), Ok(()));
    let reason = Some("full".to_string());
    let hello = |accepted, stream_id| {
        let reason = reason.clone();
        hello_accepted(&ServerMessage::HelloAck { accepted, stream_id, last_sequence: 6, reason })
    };
    assert_eq!(hello(true, Some(9)), Ok((9, 6)));
    assert_eq!(hello(true, None), Err(DashError::HelloRejected { reason: reason.clone() }));
    assert_eq!(hello(false, Some(9)), Err(DashError::HelloRejected { reason: reason.clone() }));
    let unexpected = |message: ServerMessage| match hello_accepted(&message) {
        Err(DashError::UnexpectedReply { answer }) => answer,
        other => panic!("unexpected outcome {other:?}"),
    };
    assert_eq!(unexpected(ServerMessage::Pong), "Pong");
    assert_eq!(unexpected(ServerMessage::Ack { through_seq: 3 }), "Ack { through_seq: 3 }");
    assert_eq!(
        unexpected(ServerMessage::ResendRequest { from_seq: 1, to_seq: 20 }),
        "ResendRequest { from_seq: 1, to_seq: 20 }"
    );
    assert_eq!(
        unexpected(ServerMessage::Backpressure { pause_ms: 5, reason: "busy".to_string() }),
        "Backpressure { pause_ms: 5, reason: \"busy\" }"
    );
    assert_eq!(
        unexpected(ServerMessage::Refused { sequence: 4, reason: "a\tb".to_string() }),
        "Refused { sequence: 4, reason: \"a\\tb\" }"
    );
}

#[test]
fn resuming_sends_what_the_relay_lacks() {
    let mut buffer = DashResendBuffer::new(1024);
    buffer.push(resend_object(8, 2, 1));
    for sequence in 3..=6 {
        buffer.push(resend_object(9, sequence, 1));
    }
    let pending = resume(&mut buffer, 9, 4);
    assert_eq!(
        pending.iter().map(|object| object.header.sequence).collect::<Vec<_>>(),
        vec![5, 6]
    );
    assert_eq!(buffer.range(), (Some(5), Some(6)));
    assert_eq!(resumed_sequence(4, &vec![5, 6], buffer.range().1), 6);
    assert_eq!(resumed_sequence(4, &vec![], None), 4);
    assert_eq!(resumed_sequence(4, &vec![9], Some(6)), 9);
    assert!(resume(&mut buffer, 9, 6).is_empty());
}

#[test]
fn acknowledgements_requests_and_refusals_are_told_apart() {
    let mut buffer = DashResendBuffer::new(1024);
    for sequence in 1..=4 {
        buffer.push(resend_object(9, sequence, 1));
    }
    assert!(matches!(
        ack_step(&mut buffer, &ServerMessage::Ack { through_seq: 1 }, 4),
        AckStep::Wait
    ));
    assert_eq!(buffer.range(), (Some(2), Some(4)));
    match ack_step(&mut buffer, &ServerMessage::ResendRequest { from_seq: 2, to_seq: 3 }, 4) {
        AckStep::Resend(objects) => assert_eq!(objects.len(), 2),
        other => panic!("unexpected step {other:?}"),
    }
    assert!(matches!(
        ack_step(&mut buffer, &ServerMessage::ResendRequest { from_seq: 1, to_seq: 3 }, 4),
        AckStep::Fail(DashError::ResendMissing { from_seq: 1, to_seq: 3 })
    ));
    assert!(matches!(
        ack_step(
            &mut buffer,
            &ServerMessage::Backpressure { pause_ms: 250, reason: "busy".to_string() },
            4
        ),
        AckStep::Pause { pause_ms: 250 }
    ));
    let refused = ServerMessage::Refused { sequence: 4, reason: "policy".to_string() };
    assert!(matches!(
        ack_step(&mut buffer, &refused, 4),
        AckStep::Fail(DashError::Refused { sequence: 4, reason }) if reason == "policy"
    ));
    assert!(matches!(ack_step(&mut buffer, &ServerMessage::Pong, 4), AckStep::Wait));
    assert!(matches!(
        ack_step(&mut buffer, &ServerMessage::Ack { through_seq: 7 }, 4),
        AckStep::Done { through_seq: 7 }
    ));
    assert_eq!(buffer.len(), 0);
}

fn session() -> DashSession {
    DashSession::new(9, 1, 4, 90_000, 900_000, 10, Some([1; 32]))
}

#[test]
fn objects_are_numbered_and_placed_in_segments() {
    let mut session = session();
    let epoch = session.epoch_object(false).unwrap();
    assert_eq!((epoch.kind, epoch.sequence), (DashObjectKind::Epoch, 11));
    let init = session.epoch_object(true).unwrap();
    assert_eq!((init.kind, init.sequence), (DashObjectKind::Initialization, 12));
    for index in 0..6u64 {
        assert_eq!(session.segment_start(), index % 4 == 0);
        let plan = session.build_dash_media_object(index * 90_000, 90_000, index == 0).unwrap();
        assert_eq!(plan.fragment_sequence, index as u32 + 1);
        assert_eq!(plan.header.sequence, 13 + index);
        assert_eq!(plan.header.segment_number, index / 4 + 1);
        assert_eq!(u64::from(plan.header.chunk_index), index % 4);
        assert_eq!(plan.header.random_access, index == 0);
        session.media_published();
    }
    let cursor = session.cursor_object(&vec![400_000, 500_000]).unwrap().unwrap();
    assert_eq!(cursor.segment_number, 400_000 / 360_000 + 1);
    assert_eq!((cursor.timestamp, cursor.duration), (400_000, 100_000));
    assert_eq!(cursor.kind, DashObjectKind::Cursor);
    assert_eq!(session.cursor_object(&vec![7]).unwrap().unwrap().duration, 1);
    assert_eq!(session.cursor_object(&vec![]), Ok(None));
}

#[test]
fn initialization_vectors_are_random() {
    let first = session().build_dash_media_object(0, 1, true).unwrap().iv;
    let second = session().build_dash_media_object(0, 1, true).unwrap().iv;
    assert_ne!(first, second);
    assert_ne!(first, [0; 16]);
}

#[test]
fn exhausted_numbers_end_a_session() {
    let mut full = session();
    full.sequence = u64::MAX;
    assert_eq!(full.epoch_object(false), Err(DashError::SequenceExhausted));
    assert_eq!(full.cursor_object(&vec![1]), Err(DashError::SequenceExhausted));
    assert_eq!(
        full.build_dash_media_object(0, 1, true).err(),
        Some(DashError::SequenceExhausted)
    );
    let mut long = session();
    long.media_index = u64::from(u32::MAX);
    assert_eq!(
        long.build_dash_media_object(0, 1, true).err(),
        Some(DashError::TooManyFragments)
    );
    assert_eq!(DashSession::check_first_frame(false, true), Err(DashError::EpochWithoutIdr));
    assert_eq!(DashSession::check_first_frame(true, false), Err(DashError::ConfigMissing));
    assert_eq!(DashSession::check_first_frame(true, true), Ok(()));
    assert_eq!(DashSession::check_frame(true, false), Err(DashError::SegmentWithoutIdr));
    assert_eq!(DashSession::check_frame(false, false), Ok(()));
}

#[test]
fn still_frames_wait_and_are_flushed_before_changes() {
    let mut session = session();
    let same = Some([1; 32]);
    assert_eq!(
        session.observe_frame(FrameChange::Changed, same, 90_000),
        FrameStep { changed: false, flush: None, publish: None, hold: Some(90_000) }
    );
    assert_eq!(
        session.observe_frame(FrameChange::Unknown, same, 100_000),
        FrameStep { changed: false, flush: None, publish: None, hold: None }
    );
    assert_eq!(
        session.observe_frame(FrameChange::Unchanged, Some([2; 32]), 180_000),
        FrameStep {
            changed: true,
            flush: Some((90_000, 90_000)),
            publish: Some(180_000),
            hold: None,
        }
    );
    assert_eq!(session.last_fingerprint, Some([2; 32]));
    assert_eq!(session.finish(300_000), None);
    session.observe_frame(FrameChange::Unknown, Some([2; 32]), 300_000);
    assert_eq!(session.finish(400_000), Some((270_000, 130_000)));
}

#[test]
fn sizes_are_even_and_described() {
    assert_eq!(normalize_dash_input(1279, 719, None), (1278, 718));
    assert_eq!(normalize_dash_input(1, 0, None), (2, 2));
    assert_eq!(normalize_dash_input(5, 5, Some((3, 9))), (3, 9));
    assert_eq!(
        normalize_captured_dash_frame(
            CapturedDashFrame { width: 7, height: 9, change: FrameChange::Unknown },
            None
        ),
        CapturedDashFrame { width: 6, height: 8, change: FrameChange::Unknown }
    );
    assert_eq!(describe_size(65_535, 2), Ok((65_535, 2)));
    assert_eq!(describe_size(65_536, 65_536), Err(DashError::WidthTooLarge));
    assert_eq!(describe_size(2, 65_536), Err(DashError::HeightTooLarge));
}

#[test]
fn durations_count_in_media_ticks() {
    assert_eq!(duration_to_media_ticks(Duration::from_secs(1)), 90_000);
    assert_eq!(duration_to_media_ticks(Duration::from_nanos(11_112)), 1);
    assert_eq!(duration_to_media_ticks(Duration::from_nanos(11_111)), 0);
    assert_eq!(duration_to_media_ticks(Duration::MAX), u64::MAX);
}

//! The relay's publisher and viewer sessions, message by message.

use std::time::Duration;

use glacialcast::access::{
    CredentialRole, NativeAccessError, NativeAccessPolicy, NativeAdmission, RelayAccessMode,
    SessionHello,
};
use glacialcast::pairing::{DecisionEvidence, PairingStore};
use glacialcast::records::{
    IdentityPublic, KeyEnvelope, KeyEnvelopeHeader, NativeObject, NativeObjectHeader,
    NativeObjectKind, PairDecisionReason, PairOffer, PairRequest, PublisherDecision,
    StreamDescriptor, SubscriptionStart, ViewerConfirmation,
};
use glacialcast::service::{
    active_credential_error_code, read_deadline, welcome, NativeRelayService,
    NativeServiceLimits, PublisherMessage, PublisherReply, PublisherSession, ReadDeadline,
    RelayErrorCode, RelayResumeStream, ServiceError, SessionRefusal, ViewerMessage, ViewerReply,
    ViewerSession, PAIRING_REQUEST_LIFETIME_MS,
};
use glacialcast::store::NativeStore;
use glacialcast::store_model::StoreError;
use glacialcast::subscription::{
    deadline_passed, session_gate, subscription_gate, LiveEvent, LiveStep, PageEnd, Subscription,
    ViewerDelivery,
};

const NOW: i64 = 1_700_000_000_000;

const REQUEST_ID: [u8; 32] = [0x11; 32];

fn identity(number: u8) -> IdentityPublic {
    IdentityPublic { keys: [number; 64], fingerprint: Some([number; 32]) }
}

fn service(access: NativeAccessPolicy) -> NativeRelayService {
    let store = NativeStore::open(Some(10_000_000), None).unwrap();
    NativeRelayService::new(store, PairingStore::open(4_096), access, [7; 32], true).unwrap()
}

fn hello(identity: IdentityPublic, role: CredentialRole) -> Option<SessionHello> {
    Some(SessionHello { role, identity, credential: None })
}

fn publisher(service: &NativeRelayService, who: IdentityPublic) -> PublisherSession {
    let admission = service
        .open_session(&hello(who, CredentialRole::Publisher), CredentialRole::Publisher, false)
        .unwrap();
    assert_eq!(welcome(admission, NOW).access_mode, RelayAccessMode::Public);
    service.publisher_session(who, admission).unwrap()
}

fn viewer(service: &NativeRelayService, who: IdentityPublic) -> ViewerSession {
    let admission = service
        .open_session(&hello(who, CredentialRole::Viewer), CredentialRole::Viewer, false)
        .unwrap();
    assert_eq!(welcome(admission, NOW).access_mode, RelayAccessMode::Public);
    ViewerSession { identity: who, admission }
}

fn descriptor(publisher: IdentityPublic, stream_id: u128) -> StreamDescriptor {
    StreamDescriptor { stream_id, publisher, encoded: b"screen".to_vec(), valid: true }
}

fn object(
    publisher: IdentityPublic,
    stream_id: u128,
    group: u64,
    sequence: u64,
    timestamp: u64,
    kind: NativeObjectKind,
    encoded: &[u8],
) -> NativeObject {
    NativeObject {
        header: NativeObjectHeader {
            stream_id,
            publisher_id: publisher.fingerprint.unwrap(),
            epoch_id: 0xe0,
            key_group: group,
            key_id: 0x1000 + u128::from(group),
            sequence,
            timestamp,
            kind,
            random_access: true,
        },
        encoded: encoded.to_vec(),
        shape_valid: true,
        signer: Some(publisher),
    }
}

fn envelope(publisher: IdentityPublic, viewer: IdentityPublic, group: u64) -> KeyEnvelope {
    KeyEnvelope {
        header: KeyEnvelopeHeader {
            stream_id: 1,
            publisher_id: publisher.fingerprint.unwrap(),
            recipient_id: viewer.fingerprint.unwrap(),
            epoch_id: 0xe0,
            key_group_id: group,
            key_id: 0x1000 + u128::from(group),
        },
        encoded: vec![group as u8; 20],
        shape_valid: true,
        signer: Some(publisher),
    }
}

fn sequences(deliveries: &[ViewerDelivery]) -> Vec<i64> {
    deliveries
        .iter()
        .map(|delivery| match delivery {
            ViewerDelivery::Object(object) => object.header.sequence as i64,
            ViewerDelivery::Envelope(envelope) => -(envelope.header.key_group_id as i64),
        })
        .collect()
}

#[test]
fn service_limits_reject_zero_and_idle_reads_time_out() {
    let limits = NativeServiceLimits { max_connections: 0, ..NativeServiceLimits::default() };
    let made = NativeRelayService::new_with_limits(
        NativeStore::open(None, None).unwrap(),
        PairingStore::open(4_096),
        NativeAccessPolicy::Public,
        [7; 32],
        true,
        limits,
    );
    assert_eq!(made.err(), Some(ServiceError::LimitsNotPositive));
    let made = NativeRelayService::new(
        NativeStore::open(None, None).unwrap(),
        PairingStore::open(4_096),
        NativeAccessPolicy::Public,
        [7; 32],
        false,
    );
    assert_eq!(made.err(), Some(ServiceError::InvalidNoiseIdentity));

    let deadline = read_deadline(None, NOW, Duration::from_millis(1));
    assert!(matches!(deadline, ReadDeadline::UntilIdle(wait) if wait == Duration::from_millis(1)));
    assert_eq!(
        deadline_passed(&deadline),
        SessionRefusal { reply: None, reason: ServiceError::IdleTimeout }
    );
    let deadline = read_deadline(Some(NOW + 5), NOW, Duration::from_secs(1));
    assert!(
        matches!(deadline, ReadDeadline::UntilExpiry(wait) if wait == Duration::from_millis(5))
    );
    assert_eq!(
        deadline_passed(&deadline),
        SessionRefusal {
            reply: Some(RelayErrorCode::CredentialExpired),
            reason: ServiceError::CredentialExpired,
        }
    );
    assert!(matches!(
        read_deadline(Some(NOW - 1), NOW, Duration::from_secs(1)),
        ReadDeadline::Expired
    ));
}

#[test]
fn public_relay_publishes_catalog_and_gapless_retained_subscription() {
    let mut relay = service(NativeAccessPolicy::Public);
    let owner = identity(1);
    let mut session = publisher(&relay, owner);
    assert!(matches!(
        relay.publisher_message(
            &mut session,
            &PublisherMessage::Descriptor(descriptor(owner, 1)),
            NOW
        ),
        Ok(PublisherReply::Nothing)
    ));
    let one = object(owner, 1, 1, 1, 0, NativeObjectKind::Media, &[0, 0, 1, 0x65]);
    assert!(matches!(
        relay.publisher_message(&mut session, &PublisherMessage::Object(one), NOW),
        Ok(PublisherReply::PublishAck { stream_id: 1, committed_through: 1, broadcast: true })
    ));
    let two = object(owner, 1, 2, 2, 3_000, NativeObjectKind::Media, &[0, 0, 1, 0x65, 2]);
    assert!(matches!(
        relay.publisher_message(&mut session, &PublisherMessage::Object(two), NOW),
        Ok(PublisherReply::PublishAck { stream_id: 1, committed_through: 2, broadcast: true })
    ));
    // A repeated object is acknowledged and not sent out again.
    let two = object(owner, 1, 2, 2, 3_000, NativeObjectKind::Media, &[0, 0, 1, 0x65, 2]);
    assert!(matches!(
        relay.publisher_message(&mut session, &PublisherMessage::Object(two), NOW),
        Ok(PublisherReply::PublishAck { stream_id: 1, committed_through: 2, broadcast: false })
    ));

    let watcher = viewer(&relay, identity(2));
    let Ok(ViewerReply::Catalog(catalog)) =
        relay.viewer_message(&watcher, &ViewerMessage::Catalog, NOW)
    else {
        panic!("expected catalog");
    };
    assert_eq!(catalog.len(), 1);
    assert_eq!(catalog[0].descriptor.stream_id, 1);
    assert_eq!(catalog[0].descriptor.encoded, b"screen");
    assert!(catalog[0].publisher_online);

    let opening =
        relay.subscribe([2; 32], [1; 32], 1, SubscriptionStart::OldestRetained).unwrap();
    assert_eq!(opening.first_sequence, 1);
    assert!(!opening.live);
    let mut place = opening.subscription;
    let page = relay.replay_page(&mut place);
    assert_eq!(sequences(&page.deliveries), [1, 2]);
    let ViewerDelivery::Object(first) = &page.deliveries[0] else {
        panic!("expected object");
    };
    assert_eq!(first.encoded, [0, 0, 1, 0x65]);
    let ViewerDelivery::Object(second) = &page.deliveries[1] else {
        panic!("expected object");
    };
    assert_eq!(second.encoded, [0, 0, 1, 0x65, 2]);
    assert_eq!(place.live_marker(), Some(2));
    let page = relay.replay_page(&mut place);
    assert_eq!(page.end, PageEnd::Done);
    assert!(page.deliveries.is_empty());

    relay.close_publisher(session);
    let Ok(ViewerReply::Catalog(catalog)) =
        relay.viewer_message(&watcher, &ViewerMessage::Catalog, NOW)
    else {
        panic!("expected catalog");
    };
    assert!(!catalog[0].publisher_online);
    assert_eq!(catalog[0].retained.unwrap().newest_sequence, 2);
}

#[test]
fn signed_relay_rejects_before_exposing_catalog() {
    let relay = service(NativeAccessPolicy::Signed);
    assert_eq!(
        relay.open_session(
            &hello(identity(2), CredentialRole::Viewer),
            CredentialRole::Viewer,
            false
        ),
        Err(SessionRefusal {
            reply: Some(RelayErrorCode::Unauthorized),
            reason: ServiceError::Access(NativeAccessError::MissingCredential),
        })
    );
    assert_eq!(
        relay.open_session(&None, CredentialRole::Viewer, false),
        Err(SessionRefusal {
            reply: Some(RelayErrorCode::ProtocolViolation),
            reason: ServiceError::HelloNotFirst,
        })
    );
}

fn request(stream_id: u128, id: [u8; 32]) -> PairRequest {
    PairRequest {
        request_id: Some(id),
        publisher: identity(1),
        viewer: identity(2),
        stream_id,
        device_label: "viewer".to_string(),
        issued_at_ms: NOW,
        expires_at_ms: NOW + PAIRING_REQUEST_LIFETIME_MS,
        has_credential: false,
        encoded: vec![id[0]; 30],
    }
}

fn request_message(stream_id: u128, id: [u8; 32]) -> ViewerMessage {
    ViewerMessage::PairRequest {
        request: request(stream_id, id),
        source_addr: "127.0.0.1:4321".to_string(),
        verified: true,
    }
}

#[test]
fn pairing_request_offer_confirmation_and_decision_queue_while_offline() {
    let mut relay = service(NativeAccessPolicy::Public);
    let owner = identity(1);
    let mut session = publisher(&relay, owner);
    relay
        .publisher_message(
            &mut session,
            &PublisherMessage::Descriptor(descriptor(owner, 1)),
            NOW,
        )
        .unwrap();
    relay.close_publisher(session);

    let watcher = viewer(&relay, identity(2));
    assert!(matches!(
        relay.viewer_message(&watcher, &request_message(2, [0x12; 32]), NOW),
        Ok(ViewerReply::Refused(RelayErrorCode::NotFound))
    ));
    assert!(matches!(
        relay.viewer_message(&watcher, &request_message(1, REQUEST_ID), NOW),
        Ok(ViewerReply::PairingQueued { request_id: REQUEST_ID })
    ));

    let mut session = publisher(&relay, owner);
    let Ok(PublisherReply::PairingInbox(inbox)) = relay.publisher_message(
        &mut session,
        &PublisherMessage::FetchPairingInbox { unverified: vec![] },
        NOW,
    ) else {
        panic!("expected queued pair request");
    };
    assert_eq!(inbox.requests.len(), 1);
    assert_eq!(inbox.requests[0].request.encoded, request(1, REQUEST_ID).encoded);
    assert!(inbox.confirmations.is_empty());
    let offer =
        PairOffer { request_id: REQUEST_ID, publisher: owner, encoded: vec![0x0f; 30] };
    assert!(matches!(
        relay.publisher_message(
            &mut session,
            &PublisherMessage::PairOffer { offer: offer.duplicate(), verified: true },
            NOW + 1,
        ),
        Ok(PublisherReply::PairingAck { request_id: REQUEST_ID })
    ));
    relay.close_publisher(session);

    let Ok(ViewerReply::Inbox { pairing, envelopes, failed: None }) =
        relay.viewer_message(&watcher, &ViewerMessage::FetchInbox, NOW + 1)
    else {
        panic!("expected inbox");
    };
    assert_eq!(pairing.offers.len(), 1);
    assert_eq!(pairing.offers[0].encoded, offer.encoded);
    assert!(pairing.decisions.is_empty());
    assert!(envelopes.is_empty());
    let confirmation = ViewerConfirmation {
        request_id: REQUEST_ID,
        viewer_id: [2; 32],
        encoded: vec![0xc0; 30],
    };
    assert!(matches!(
        relay.viewer_message(
            &watcher,
            &ViewerMessage::PairConfirmation {
                confirmation: confirmation.duplicate(),
                verified: true,
            },
            NOW + 2,
        ),
        Ok(ViewerReply::PairingQueued { request_id: REQUEST_ID })
    ));

    let mut session = publisher(&relay, owner);
    let Ok(PublisherReply::PairingInbox(inbox)) = relay.publisher_message(
        &mut session,
        &PublisherMessage::FetchPairingInbox { unverified: vec![] },
        NOW + 2,
    ) else {
        panic!("expected inbox");
    };
    assert_eq!(inbox.requests.len(), 1);
    assert_eq!(inbox.confirmations.len(), 1);
    assert_eq!(inbox.confirmations[0].encoded, confirmation.encoded);
    let decision = PublisherDecision {
        request_id: REQUEST_ID,
        reason: PairDecisionReason::ManualVerified,
        transcript_hash: [0x77; 32],
        encoded: vec![0xd0; 30],
    };
    assert!(matches!(
        relay.publisher_message(
            &mut session,
            &PublisherMessage::PairDecision {
                decision: decision.duplicate(),
                evidence: DecisionEvidence {
                    verified: true,
                    ceremony_verified: true,
                    transcript: Some([0x77; 32]),
                },
            },
            NOW + 3,
        ),
        Ok(PublisherReply::PairingAck { request_id: REQUEST_ID })
    ));
    let Ok(ViewerReply::Inbox { pairing, failed: None, .. }) =
        relay.viewer_message(&watcher, &ViewerMessage::FetchInbox, NOW + 3)
    else {
        panic!("expected inbox");
    };
    assert_eq!(pairing.offers.len(), 1);
    assert_eq!(pairing.decisions.len(), 1);
    assert_eq!(pairing.decisions[0].encoded, decision.encoded);

    relay
        .publisher_message(
            &mut session,
            &PublisherMessage::Descriptor(descriptor(owner, 1)),
            NOW,
        )
        .unwrap();
    for (group, sequence, timestamp, kind, bytes) in [
        (1u64, 1u64, 0u64, NativeObjectKind::Epoch, [0u8, 0, 0, 1, 0x67, 1]),
        (1, 2, 0, NativeObjectKind::Media, [0, 0, 0, 1, 0x65, 9]),
        (2, 3, 45_000, NativeObjectKind::Epoch, [0, 0, 0, 1, 0x67, 1]),
    ] {
        let item = object(owner, 1, group, sequence, timestamp, kind, &bytes);
        assert!(matches!(
            relay.publisher_message(&mut session, &PublisherMessage::Object(item), NOW),
            Ok(PublisherReply::PublishAck { committed_through, .. })
                if committed_through == sequence
        ));
    }
    assert!(matches!(
        relay.publisher_message(
            &mut session,
            &PublisherMessage::KeyEnvelope(envelope(owner, identity(2), 1)),
            NOW,
        ),
        Ok(PublisherReply::EnvelopeStored { broadcast: true })
    ));
    assert!(matches!(
        relay.publisher_message(&mut session, &PublisherMessage::Ping, NOW),
        Ok(PublisherReply::Pong { now_ms: NOW })
    ));
    let Ok(ViewerReply::Inbox { envelopes, failed: None, .. }) =
        relay.viewer_message(&watcher, &ViewerMessage::FetchInbox, NOW + 4)
    else {
        panic!("expected inbox");
    };
    assert_eq!(envelopes.len(), 1);
    assert_eq!(envelopes[0].encoded, envelope(owner, identity(2), 1).encoded);

    let opening =
        relay.subscribe([2; 32], [1; 32], 1, SubscriptionStart::OldestRetained).unwrap();
    assert_eq!(opening.first_sequence, 1);
    let mut place = opening.subscription;
    let page = relay.replay_page(&mut place);
    assert_eq!(sequences(&page.deliveries), [-1, 1, 2, 3]);
    assert_eq!(place.live_marker(), Some(3));

    relay
        .publisher_message(
            &mut session,
            &PublisherMessage::KeyEnvelope(envelope(owner, identity(2), 2)),
            NOW,
        )
        .unwrap();
    assert_eq!(place.live_item(&LiveEvent::Envelope([2; 32])), LiveStep::Forward);
    assert_eq!(place.live_item(&LiveEvent::Envelope([3; 32])), LiveStep::Ignore);
    let media = object(owner, 1, 2, 4, 45_000, NativeObjectKind::Media, &[0, 0, 0, 1, 0x65, 6]);
    assert!(matches!(
        relay.publisher_message(&mut session, &PublisherMessage::Object(media), NOW),
        Ok(PublisherReply::PublishAck { committed_through: 4, .. })
    ));
    assert_eq!(place.live_item(&LiveEvent::Object(4)), LiveStep::Forward);
    assert_eq!(place.last_sequence, 4);

    // A live join anchors at the current group's start, so that the joiner can decode at
    // once. The group's envelope precedes the replayed objects, and the live marker closes
    // the replay.
    let opening = relay.subscribe([2; 32], [1; 32], 1, SubscriptionStart::Live).unwrap();
    assert_eq!(opening.first_sequence, 3);
    assert!(!opening.live);
    let mut joiner = opening.subscription;
    let page = relay.replay_page(&mut joiner);
    assert_eq!(sequences(&page.deliveries), [-2, 3, 4]);
    assert_eq!(joiner.live_marker(), Some(4));
}

#[test]
fn sessions_end_on_each_violation() {
    let mut relay = service(NativeAccessPolicy::Public);
    let owner = identity(1);
    let mut session = publisher(&relay, owner);
    let ends = |reason: ServiceError| SessionRefusal { reply: None, reason };
    let mut refused = |message: PublisherMessage| {
        relay.publisher_message(&mut session, &message, NOW).err().unwrap().reason
    };
    assert_eq!(refused(PublisherMessage::Hello), ServiceError::DuplicateHello);
    assert_eq!(
        refused(PublisherMessage::Resume { publisher_id: [9; 32], streams: vec![] }),
        ServiceError::IdentityMismatch
    );
    assert_eq!(
        refused(PublisherMessage::Descriptor(descriptor(identity(9), 1))),
        ServiceError::IdentityMismatch
    );
    let foreign = object(identity(9), 1, 1, 1, 0, NativeObjectKind::Media, &[1]);
    assert_eq!(refused(PublisherMessage::Object(foreign)), ServiceError::IdentityMismatch);
    let stray = object(owner, 1, 1, 1, 0, NativeObjectKind::Media, &[1]);
    assert_eq!(
        refused(PublisherMessage::Object(stray)),
        ServiceError::Store(StoreError::UnknownStream)
    );

    let states = relay
        .publisher_message(
            &mut session,
            &PublisherMessage::Resume { publisher_id: [1; 32], streams: vec![1, 2] },
            NOW,
        )
        .unwrap();
    assert!(matches!(states, PublisherReply::ResumeState(states) if states == [
        RelayResumeStream { stream_id: 1, committed_through: 0 },
        RelayResumeStream { stream_id: 2, committed_through: 0 },
    ]));
    // A second session cannot take a claimed stream.
    let mut rival = publisher(&relay, owner);
    assert_eq!(
        relay
            .publisher_message(
                &mut rival,
                &PublisherMessage::Descriptor(descriptor(owner, 2)),
                NOW
            )
            .err()
            .unwrap()
            .reason,
        ServiceError::StreamBusy
    );
    relay.close_publisher(session);
    assert!(relay
        .publisher_message(
            &mut rival,
            &PublisherMessage::Descriptor(descriptor(owner, 2)),
            NOW
        )
        .is_ok());

    let watcher = viewer(&relay, identity(2));
    assert_eq!(
        relay.viewer_message(&watcher, &ViewerMessage::Hello, NOW).err(),
        Some(ends(ServiceError::DuplicateHello))
    );
    assert!(matches!(
        relay.viewer_message(&watcher, &ViewerMessage::Reanchor, NOW),
        Ok(ViewerReply::Refused(RelayErrorCode::ProtocolViolation))
    ));
    assert!(matches!(
        relay.viewer_message(&watcher, &ViewerMessage::Ping, NOW),
        Ok(ViewerReply::Pong { now_ms: NOW })
    ));
    let mut nobody = identity(2);
    nobody.fingerprint = None;
    let admission = NativeAdmission { mode: RelayAccessMode::Public, expires_at_ms: None };
    assert_eq!(
        relay.publisher_session(nobody, admission).err(),
        Some(ends(ServiceError::Unidentified))
    );
    assert_eq!(
        relay.subscribe([2; 32], [1; 32], 9, SubscriptionStart::Live).err(),
        Some(ends(ServiceError::StreamNotFound))
    );
    assert_eq!(
        relay.subscribe([2; 32], [9; 32], 2, SubscriptionStart::Live).err(),
        Some(ends(ServiceError::IdentityMismatch))
    );
}

#[test]
fn a_viewer_without_a_fingerprint_is_told_what_precedes_the_failure() {
    let mut relay = service(NativeAccessPolicy::Public);
    let owner = identity(1);
    let mut session = publisher(&relay, owner);
    relay
        .publisher_message(
            &mut session,
            &PublisherMessage::Descriptor(descriptor(owner, 1)),
            NOW,
        )
        .unwrap();
    let one = object(owner, 1, 1, 1, 0, NativeObjectKind::Media, &[1]);
    relay.publisher_message(&mut session, &PublisherMessage::Object(one), NOW).unwrap();
    relay.close_publisher(session);

    // Nothing is replayed, so the envelope of the newest group is looked up. The start is
    // announced all the same.
    let opening = relay.subscribe([0; 32], [1; 32], 1, SubscriptionStart::Live).unwrap();
    assert_eq!(opening.first_sequence, 2);
    assert!(opening.live);
    assert!(opening.retained.is_some());
    assert!(opening.envelope.is_none());
    assert_eq!(opening.failed, Some(ServiceError::Store(StoreError::InvalidRequest)));
    let opening = relay.subscribe([2; 32], [1; 32], 1, SubscriptionStart::Live).unwrap();
    assert!(opening.envelope.is_none());
    assert_eq!(opening.failed, None);

    let zero = viewer(&relay, IdentityPublic { keys: [0; 64], fingerprint: Some([0; 32]) });
    let Ok(ViewerReply::Inbox { pairing, envelopes, failed }) =
        relay.viewer_message(&zero, &ViewerMessage::FetchInbox, NOW)
    else {
        panic!("expected inbox");
    };
    assert!(pairing.offers.is_empty() && pairing.decisions.is_empty());
    assert!(envelopes.is_empty());
    assert_eq!(failed, Some(ServiceError::Store(StoreError::InvalidRequest)));
}

#[test]
fn live_delivery_asks_the_store_for_what_is_missing() {
    let mut place = Subscription { recipient_id: [2; 32], stream_id: 1, last_sequence: 4 };
    assert_eq!(place.live_item(&LiveEvent::Object(4)), LiveStep::Ignore);
    assert_eq!(place.live_item(&LiveEvent::Object(6)), LiveStep::Reanchor);
    assert_eq!(place.live_item(&LiveEvent::Lagged), LiveStep::Reanchor);
    assert_eq!(place.last_sequence, 4);
    assert_eq!(
        place.gap_closed(4),
        Some(SessionRefusal {
            reply: Some(RelayErrorCode::HistoryUnavailable),
            reason: ServiceError::GapUnavailable,
        })
    );
    assert_eq!(place.gap_closed(3), None);
    place.last_sequence = 0;
    assert_eq!(place.live_marker(), None);
}

#[test]
fn credentials_are_judged_throughout_a_session() {
    let admission =
        NativeAdmission { mode: RelayAccessMode::Signed, expires_at_ms: Some(NOW + 10) };
    assert_eq!(session_gate(admission, true, NOW), None);
    assert_eq!(
        session_gate(admission, false, NOW).unwrap().reply,
        Some(RelayErrorCode::Unauthorized)
    );
    assert_eq!(
        session_gate(admission, false, NOW + 10).unwrap().reply,
        Some(RelayErrorCode::CredentialExpired)
    );
    assert_eq!(active_credential_error_code(admission, NOW), RelayErrorCode::Unauthorized);
    let idle = Duration::from_secs(30);
    assert_eq!(
        subscription_gate(admission, true, NOW, idle, Duration::from_secs(5)),
        Ok(Duration::from_secs(1))
    );
    assert_eq!(
        subscription_gate(admission, true, NOW, idle, Duration::from_millis(29_600)),
        Ok(Duration::from_millis(400))
    );
    assert_eq!(
        subscription_gate(admission, true, NOW, idle, idle).err().unwrap().reason,
        ServiceError::IdleTimeout
    );
    assert_eq!(
        subscription_gate(admission, false, NOW, idle, idle).err().unwrap().reason,
        ServiceError::CredentialInvalid
    );
    assert_eq!(
        subscription_gate(admission, true, NOW + 10, idle, idle).err().unwrap().reason,
        ServiceError::CredentialExpired
    );
}

#[test]
fn peers_change_only_what_is_theirs() {
    let mut relay = service(NativeAccessPolicy::Public);
    let (first, second) = (identity(1), identity(3));
    let mut one = publisher(&relay, first);
    let mut two = publisher(&relay, second);
    for (session, owner, stream_id) in [(&mut one, first, 1), (&mut two, second, 2)] {
        relay
            .publisher_message(
                session,
                &PublisherMessage::Descriptor(descriptor(owner, stream_id)),
                NOW,
            )
            .unwrap();
        let item = object(owner, stream_id, 1, 1, 0, NativeObjectKind::Media, &[1, 2, 3]);
        relay.publisher_message(session, &PublisherMessage::Object(item), NOW).unwrap();
    }
    relay.close_publisher(one);
    assert_eq!(relay.store().high_water(1), Some(1));
    assert_eq!(relay.store().retained_bounds(2), None);

    // The second publisher cannot take or extend the stream of the first.
    let taken = PublisherMessage::Descriptor(descriptor(second, 1));
    assert_eq!(
        relay.publisher_message(&mut two, &taken, NOW).err().unwrap().reason,
        ServiceError::Store(StoreError::StreamOwnedByAnother)
    );
    let foreign = object(second, 1, 1, 2, 0, NativeObjectKind::Media, &[9]);
    assert_eq!(
        relay
            .publisher_message(&mut two, &PublisherMessage::Object(foreign), NOW)
            .err()
            .unwrap()
            .reason,
        ServiceError::Store(StoreError::SignerMismatch)
    );
    assert_eq!(relay.store().high_water(1), Some(1));
    assert_eq!(relay.store().high_water(2), Some(1));
    assert_eq!(relay.store().descriptor(1).unwrap().publisher.fingerprint, Some([1; 32]));

    // A viewer that asks for what is not there changes nothing.
    let watcher = viewer(&relay, identity(2));
    assert!(matches!(
        relay.viewer_message(&watcher, &request_message(9, [0x13; 32]), NOW),
        Ok(ViewerReply::Refused(RelayErrorCode::NotFound))
    ));
    assert!(relay.pairing().rows().is_empty());
}

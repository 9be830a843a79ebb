//! The relay's pairing queue and admission.

use glacialcast::access::{
    CredentialRole, NativeAccessError, NativeAccessPolicy, NativeCredential, RelayAccessMode,
    SessionHello,
};
use glacialcast::pairing::{DecisionEvidence, PairRow, PairingStore};
use glacialcast::pairing_model::PairingError;
use glacialcast::records::{
    IdentityPublic, PairDecisionReason, PairOffer, PairRequest, PublisherDecision,
    ViewerConfirmation,
};

const DAY_MS: i64 = 24 * 60 * 60 * 1_000;

const REQUEST_ID: [u8; 32] = [0x11; 32];

const TRANSCRIPT: [u8; 32] = [0x77; 32];

fn identity(number: u8) -> IdentityPublic {
    IdentityPublic { keys: [number; 64], fingerprint: Some([number; 32]) }
}

fn source() -> String {
    "127.0.0.1:4321".to_string()
}

fn request(id: [u8; 32], issued_at_ms: i64) -> PairRequest {
    PairRequest {
        request_id: Some(id),
        publisher: identity(1),
        viewer: identity(2),
        stream_id: 1,
        device_label: "viewer".to_string(),
        issued_at_ms,
        expires_at_ms: issued_at_ms + DAY_MS,
        has_credential: false,
        encoded: vec![id[0]; 40],
    }
}

fn offer(seed: u8) -> PairOffer {
    PairOffer { request_id: REQUEST_ID, publisher: identity(1), encoded: vec![seed; 40] }
}

fn confirmation(seed: u8) -> ViewerConfirmation {
    ViewerConfirmation { request_id: REQUEST_ID, viewer_id: [2; 32], encoded: vec![seed; 40] }
}

fn decision(seed: u8) -> PublisherDecision {
    PublisherDecision {
        request_id: REQUEST_ID,
        reason: PairDecisionReason::ManualVerified,
        transcript_hash: TRANSCRIPT,
        encoded: vec![seed; 40],
    }
}

fn evidence() -> DecisionEvidence {
    DecisionEvidence { verified: true, ceremony_verified: true, transcript: Some(TRANSCRIPT) }
}

fn copied(rows: &[PairRow]) -> Vec<PairRow> {
    rows.iter()
        .map(|row| PairRow {
            request_id: row.request_id,
            publisher_id: row.publisher_id,
            viewer_id: row.viewer_id,
            source_addr: row.source_addr.clone(),
            received_at_ms: row.received_at_ms,
            request: row.request.duplicate(),
            offer: row.offer.as_ref().map(PairOffer::duplicate),
            confirmation: row.confirmation.as_ref().map(ViewerConfirmation::duplicate),
            decision: row.decision.as_ref().map(PublisherDecision::duplicate),
            decided_at_ms: row.decided_at_ms,
        })
        .collect()
}

#[test]
fn resigned_ceremony_resubmissions_keep_the_first_artifact() {
    let mut store = PairingStore::open(1_024);
    assert_eq!(store.enqueue_request(&request(REQUEST_ID, 1_000), &source(), 1_500, true), Ok(true));

    // A restarted peer signs each record again, so the same ceremony arrives with different
    // bytes. It has to succeed without replacing what the other side may have acted on.
    assert_eq!(store.store_offer(&offer(1), 2_100, true), Ok(true));
    assert_eq!(store.store_offer(&offer(2), 2_300, true), Ok(false));
    assert_eq!(store.store_confirmation(&confirmation(3), 3_100, true), Ok(true));
    assert_eq!(store.store_confirmation(&confirmation(4), 3_300, true), Ok(false));
    assert_eq!(store.store_decision(&decision(5), 4_100, &evidence()), Ok(true));
    assert_eq!(store.store_decision(&decision(6), 4_300, &evidence()), Ok(false));

    let inbox = store.viewer_inbox(&identity(2), 4_400).unwrap();
    assert_eq!(inbox.decisions.len(), 1);
    assert_eq!(inbox.decisions[0].encoded, decision(5).encoded);
    let row = &store.rows()[0];
    assert_eq!(row.offer.as_ref().unwrap().encoded, offer(1).encoded);
    assert_eq!(row.confirmation.as_ref().unwrap().encoded, confirmation(3).encoded);
}

#[test]
fn pairing_records_queue_offline_and_survive_restart() {
    let mut store = PairingStore::open(1_024);
    let wanted = request(REQUEST_ID, 1_000);
    assert_eq!(store.enqueue_request(&wanted, &source(), 2_000, true), Ok(true));
    assert_eq!(store.enqueue_request(&wanted, &source(), 2_001, true), Ok(false));
    store.store_offer(&offer(1), 4_000, true).unwrap();
    store.store_confirmation(&confirmation(3), 5_000, true).unwrap();
    let rows = copied(store.rows());
    drop(store);

    assert!(PairingStore::rows_agree(1_024, &rows));
    let mut reopened = PairingStore::restore(1_024, rows);
    let publisher_inbox = reopened.publisher_inbox(&identity(1), 6_000, &vec![]).unwrap();
    assert_eq!(publisher_inbox.requests.len(), 1);
    assert_eq!(publisher_inbox.requests[0].source_addr, source());
    assert_eq!(publisher_inbox.requests[0].received_at_ms, 2_000);
    assert_eq!(publisher_inbox.confirmations.len(), 1);
    assert_eq!(publisher_inbox.confirmations[0].encoded, confirmation(3).encoded);
    let viewer_inbox = reopened.viewer_inbox(&identity(2), 6_000).unwrap();
    assert_eq!(viewer_inbox.offers.len(), 1);
    assert_eq!(viewer_inbox.offers[0].encoded, offer(1).encoded);

    reopened.store_decision(&decision(5), 7_000, &evidence()).unwrap();
    let publisher_inbox = reopened.publisher_inbox(&identity(1), 8_000, &vec![]).unwrap();
    assert!(publisher_inbox.requests.is_empty());
    let viewer_inbox = reopened.viewer_inbox(&identity(2), 8_000).unwrap();
    assert_eq!(viewer_inbox.decisions.len(), 1);
    assert_eq!(viewer_inbox.decisions[0].encoded, decision(5).encoded);
}

#[test]
fn expired_requests_and_identity_or_transcript_substitution_fail_closed() {
    let mut store = PairingStore::open(1_024);
    let mut expired = request(REQUEST_ID, 1_000);
    expired.expires_at_ms = 2_000;
    // An expired request does not verify.
    assert_eq!(
        store.enqueue_request(&expired, &source(), 2_000, false),
        Err(PairingError::NotVerified)
    );
    assert!(store.rows().is_empty());

    store.enqueue_request(&request(REQUEST_ID, 3_000), &source(), 4_000, true).unwrap();
    // An offer that another publisher signed does not verify either.
    let mut foreign = offer(1);
    foreign.publisher = identity(9);
    assert_eq!(store.store_offer(&foreign, 5_000, false), Err(PairingError::NotVerified));
    assert!(store.rows()[0].offer.is_none());

    assert_eq!(
        store.store_decision(&decision(5), 5_000, &evidence()),
        Err(PairingError::MissingOffer)
    );
    assert_eq!(
        store.store_confirmation(&confirmation(3), 5_000, true),
        Err(PairingError::MissingOffer)
    );
    store.store_offer(&offer(1), 5_000, true).unwrap();
    assert_eq!(
        store.store_decision(&decision(5), 5_000, &evidence()),
        Err(PairingError::MissingConfirmation)
    );
    store.store_confirmation(&confirmation(3), 5_000, true).unwrap();
    let mut substituted = decision(5);
    substituted.transcript_hash = [0x78; 32];
    assert_eq!(
        store.store_decision(&substituted, 5_000, &evidence()),
        Err(PairingError::TranscriptMismatch)
    );
    let unverified = DecisionEvidence { verified: false, ..evidence() };
    assert_eq!(
        store.store_decision(&decision(5), 5_000, &unverified),
        Err(PairingError::NotVerified)
    );
    let after_expiry = 3_000 + DAY_MS;
    assert_eq!(
        store.store_decision(&decision(5), after_expiry, &evidence()),
        Err(PairingError::UnknownRequest)
    );
}

#[test]
fn requests_are_bounded_per_minute_and_by_size() {
    let mut store = PairingStore::open(40);
    let mut long = request(REQUEST_ID, 0);
    long.encoded.push(0);
    assert_eq!(store.enqueue_request(&long, &source(), 1, true), Err(PairingError::RecordTooLarge));
    let mut nameless = request(REQUEST_ID, 0);
    nameless.request_id = None;
    assert_eq!(
        store.enqueue_request(&nameless, &source(), 1, true),
        Err(PairingError::Unidentified)
    );
    assert_eq!(
        store.enqueue_request(&request(REQUEST_ID, 0), &"ab".to_string(), 1, true),
        Err(PairingError::SourceAddressInvalid)
    );
    for number in 0..10u8 {
        assert_eq!(
            store.enqueue_request(&request([number; 32], 0), &source(), 1, true),
            Ok(true)
        );
    }
    assert_eq!(
        store.enqueue_request(&request([10; 32], 0), &source(), 1, true),
        Err(PairingError::SourceRateExceeded)
    );
    assert_eq!(
        store.enqueue_request(&request([10; 32], 0), &"10.0.0.1:1".to_string(), 1, true),
        Err(PairingError::ViewerRateExceeded)
    );
    assert_eq!(store.rows().len(), 10);
    // Retries are not rate limited, from wherever they come, and queue nothing.
    for number in 0..10u8 {
        assert_eq!(
            store.enqueue_request(&request([number; 32], 0), &"10.0.0.1:1".to_string(), 2, true),
            Ok(false)
        );
    }
    assert_eq!(store.rows().len(), 10);
    let mut changed = request([3; 32], 0);
    changed.encoded[0] ^= 1;
    assert_eq!(store.enqueue_request(&changed, &source(), 1, true), Err(PairingError::Conflict));
    // A minute later there is room again.
    assert_eq!(
        store.enqueue_request(&request([10; 32], 0), &source(), 60_002, true),
        Ok(true)
    );
    // Requests are delivered in the order in which they arrived.
    let inbox = store.publisher_inbox(&identity(1), 60_003, &vec![[4; 32]]);
    assert_eq!(inbox.err(), Some(PairingError::NotVerified));
    let inbox = store.publisher_inbox(&identity(1), 60_003, &vec![]).unwrap();
    let order: Vec<u8> =
        inbox.requests.iter().map(|delivery| delivery.request.request_id.unwrap()[0]).collect();
    assert_eq!(order, [0, 1, 2, 3, 4, 5, 6, 7, 8, 9, 10]);
    let mut nobody = identity(1);
    nobody.fingerprint = None;
    assert_eq!(
        store.publisher_inbox(&nobody, 60_003, &vec![]).err(),
        Some(PairingError::Unidentified)
    );
}

#[test]
fn contradicting_pairing_rows_are_told_from_recorded_ones() {
    let mut store = PairingStore::open(1_024);
    store.enqueue_request(&request(REQUEST_ID, 1_000), &source(), 2_000, true).unwrap();
    let mut rows = copied(store.rows());
    rows[0].publisher_id = [9; 32];
    assert!(!PairingStore::rows_agree(1_024, &rows));
    let mut rows = copied(store.rows());
    rows.extend(copied(store.rows()));
    assert!(!PairingStore::rows_agree(1_024, &rows));
    // A record that is longer than allowed is not taken over, whichever it is.
    let rows = copied(store.rows());
    assert!(!PairingStore::rows_agree(39, &rows));
    let mut rows = copied(store.rows());
    rows[0].offer = Some(offer(1));
    rows[0].offer.as_mut().unwrap().encoded.push(0);
    assert!(!PairingStore::rows_agree(40, &rows));
    let mut rows = copied(store.rows());
    rows[0].offer = Some(offer(1));
    rows[0].confirmation = Some(confirmation(1));
    assert!(PairingStore::rows_agree(40, &rows));
    rows[0].confirmation.as_mut().unwrap().encoded.push(0);
    assert!(!PairingStore::rows_agree(40, &rows));
    let mut rows = copied(store.rows());
    rows[0].offer = Some(offer(1));
    rows[0].confirmation = Some(confirmation(1));
    rows[0].decision = Some(decision(1));
    rows[0].decision.as_mut().unwrap().encoded.push(0);
    assert!(!PairingStore::rows_agree(40, &rows));
    let mut rows = copied(store.rows());
    rows[0].source_addr = "ab".to_string();
    assert!(!PairingStore::rows_agree(40, &rows));
}

fn signed_hello() -> SessionHello {
    SessionHello {
        role: CredentialRole::Viewer,
        identity: identity(2),
        credential: Some(NativeCredential { identity: identity(2), not_after_ms: 2_000 + DAY_MS }),
    }
}

#[test]
fn signed_mode_binds_role_noise_key_expiry_and_revocation() {
    let policy = NativeAccessPolicy::Signed;
    let hello = signed_hello();
    let admission = policy.admit_peer(&hello, CredentialRole::Viewer, true).unwrap();
    assert_eq!(admission.mode, RelayAccessMode::Signed);
    assert_eq!(admission.expires_at_ms, Some(2_000 + DAY_MS));
    assert_eq!(
        policy.admit_peer(&hello, CredentialRole::Publisher, true),
        Err(NativeAccessError::WrongRole)
    );
    // Another transport key, an expired credential and a revoked serial do not verify.
    assert_eq!(
        policy.admit_peer(&hello, CredentialRole::Viewer, false),
        Err(NativeAccessError::CredentialRejected)
    );
    let mut borrowed = hello;
    borrowed.identity = identity(3);
    assert_eq!(
        policy.admit_peer(&borrowed, CredentialRole::Viewer, true),
        Err(NativeAccessError::CredentialIdentity)
    );
}

#[test]
fn signed_mode_requires_credentials_while_public_mode_does_not() {
    let mut hello = signed_hello();
    hello.credential = None;
    assert_eq!(
        NativeAccessPolicy::Signed.admit_peer(&hello, CredentialRole::Viewer, false),
        Err(NativeAccessError::MissingCredential)
    );
    let admission =
        NativeAccessPolicy::Public.admit_peer(&hello, CredentialRole::Viewer, false).unwrap();
    assert_eq!(admission.mode, RelayAccessMode::Public);
    assert_eq!(admission.expires_at_ms, None);
}

//! The publisher's approval state.

use glacialcast::admin::{
    accept_state, add_approved, approved_viewers, check_for_saving, check_history_answer,
    check_relay_key, confirmed_requests, decide, delivery_answered, history_groups,
    history_sent, is_admin_command, load_policy, next_delivery, queue_decision,
    receive_confirmations, receive_requests, relay_fingerprint, request_action, revoke,
    select_request, unique_grant, unique_index, unique_request, validate_state, AdminCommand,
    CheckedConfirmation, DecodedState, IncomingRequest, OutboxItem, PendingPairing,
    PublisherState,
};
use glacialcast::admin_model::{
    AdminError, ApprovalPolicy, RequestAction, RevokedGrant, StreamGrant, ViewerPolicy,
    PAIR_LIFETIME_MS, STATE_VERSION,
};
use glacialcast::digest::{fresh_epoch_id, stable_stream_id};
use glacialcast::key_history::RetainedGroupKey;
use glacialcast::listing::{approved_line, request_line, revoked_line};
use glacialcast::publication::RelayAnswer;
use glacialcast::records::{
    IdentityPublic, PairDecisionReason, PairOffer, PairRequest, PublisherDecision,
    ViewerConfirmation,
};
use glacialcast::service::PublisherReply;

const NOW: i64 = 1_700_000_000_000;

fn identity(number: u8) -> IdentityPublic {
    IdentityPublic { keys: [number; 64], fingerprint: Some([number; 32]) }
}

fn request(id: [u8; 32], stream_id: u128, viewer: u8) -> PairRequest {
    PairRequest {
        request_id: Some(id),
        publisher: identity(1),
        viewer: identity(viewer),
        stream_id,
        device_label: "device".to_string(),
        issued_at_ms: NOW,
        expires_at_ms: NOW + PAIR_LIFETIME_MS,
        has_credential: false,
        encoded: vec![id[0]; 20],
    }
}

fn offer(id: [u8; 32]) -> PairOffer {
    PairOffer { request_id: id, publisher: identity(1), encoded: vec![id[0] ^ 0xff; 20] }
}

fn confirmation(id: [u8; 32]) -> ViewerConfirmation {
    ViewerConfirmation { request_id: id, viewer_id: [2; 32], encoded: vec![3; 20] }
}

fn decision(id: [u8; 32], reason: PairDecisionReason) -> PublisherDecision {
    PublisherDecision { request_id: id, reason, transcript_hash: [0; 32], encoded: vec![4; 20] }
}

fn pending(id: [u8; 32]) -> PendingPairing {
    PendingPairing {
        request: request(id, 1, 2),
        offer: offer(id),
        confirmation: None,
        source_addr: "127.0.0.1:1".to_string(),
    }
}

fn incoming(id: [u8; 32], stream_id: u128, viewer: u8) -> IncomingRequest {
    IncomingRequest {
        request: request(id, stream_id, viewer),
        source_addr: "127.0.0.1:1".to_string(),
        verified: true,
        credential_verified: false,
        decision: Some(decision(id, PairDecisionReason::OpenPolicy)),
        offer: Some(offer(id)),
    }
}

fn policy(mode: ViewerPolicy) -> ApprovalPolicy {
    ApprovalPolicy { mode, has_authority: false }
}

fn acknowledged(id: [u8; 32]) -> RelayAnswer {
    RelayAnswer::Reply(PublisherReply::PairingAck { request_id: id })
}

#[test]
fn request_prefixes_must_be_unique_and_hexadecimal() {
    let id = [0xab; 32];
    let waiting = vec![pending(id)];
    assert_eq!(unique_request(&waiting, "abababababab"), Ok(0));
    assert_eq!(unique_request(&waiting, "ABAB"), Ok(0));
    assert_eq!(unique_request(&waiting, "not-hex"), Err(AdminError::PrefixNotHex));
    assert_eq!(unique_request(&waiting, ""), Err(AdminError::PrefixNotHex));
    assert_eq!(unique_request(&waiting, "ac"), Err(AdminError::NoMatch));
    let twice = vec![pending(id), pending([0xac; 32])];
    assert_eq!(unique_request(&twice, "a"), Err(AdminError::Ambiguous));
    assert_eq!(unique_request(&twice, "ac"), Ok(1));
    let values = vec![None, Some("00ff".to_string())];
    assert_eq!(unique_index(&values, "00F"), Ok(1));
    let grants = vec![
        StreamGrant { stream_id: 1, viewer: identity(0x21) },
        StreamGrant { stream_id: 2, viewer: identity(0x22) },
    ];
    assert_eq!(unique_grant(&grants, 2, "2"), Ok(1));
    assert_eq!(unique_grant(&grants, 3, "2"), Err(AdminError::NoMatch));
}

#[test]
fn publisher_config_defaults_to_required_and_trusted_ca_needs_an_authority() {
    assert_eq!(
        load_policy(ViewerPolicy::Required, false, false, false),
        Ok(ApprovalPolicy { mode: ViewerPolicy::Required, has_authority: false })
    );
    assert_eq!(
        load_policy(ViewerPolicy::TrustedCa, false, false, false),
        Err(AdminError::AuthorityMissing)
    );
    assert_eq!(
        load_policy(ViewerPolicy::TrustedCa, true, true, false),
        Err(AdminError::RevocationsInvalid)
    );
    assert_eq!(
        load_policy(ViewerPolicy::TrustedCa, true, true, true),
        Ok(ApprovalPolicy { mode: ViewerPolicy::TrustedCa, has_authority: true })
    );
}

#[test]
fn approvals_and_permanent_revocations_are_scoped_to_one_stream() {
    let viewer = identity(2);
    let state = add_approved(PublisherState::new(), 1, viewer).unwrap();
    assert_eq!(state.approved.iter().filter(|grant| grant.stream_id == 1).count(), 1);
    assert!(state.approved.iter().all(|grant| grant.stream_id != 2));

    let mut state = state;
    state.approved.clear();
    state.revoked.push(RevokedGrant { stream_id: 1, viewer_id: [2; 32] });
    assert_eq!(add_approved(state, 1, viewer).err(), Some(AdminError::PermanentlyRevoked));
    let mut state = PublisherState::new();
    state.revoked.push(RevokedGrant { stream_id: 1, viewer_id: [2; 32] });
    let state = add_approved(state, 2, viewer).unwrap();
    assert_eq!(state.approved.len(), 1);
    assert_eq!(approved_viewers(&state, 2).len(), 1);
    assert!(approved_viewers(&state, 1).is_empty());
    let mut nobody = viewer;
    nobody.fingerprint = None;
    assert_eq!(
        add_approved(PublisherState::new(), 1, nobody).err(),
        Some(AdminError::ViewerInvalid)
    );
}

#[test]
fn version_two_state_migrates_and_queues_existing_grants_for_history() {
    let older = || DecodedState {
        version: 2,
        unread: 0,
        canonical: true,
        state: PublisherState {
            approved: vec![StreamGrant { stream_id: 1, viewer: identity(2) }],
            ..PublisherState::new()
        },
    };
    let migrated = accept_state(None, Some(older())).unwrap();
    assert_eq!(STATE_VERSION, 3);
    assert_eq!(migrated.approved.len(), 1);
    assert!(migrated.offer_outbox.is_empty());
    assert!(migrated.decision_outbox.is_empty());
    assert_eq!(migrated.history_outbox.len(), 1);
    assert_eq!(migrated.history_outbox[0].stream_id, 1);

    let mut trailing = older();
    trailing.unread = 1;
    assert_eq!(accept_state(None, Some(trailing)).err(), Some(AdminError::StateNotCanonical));
    assert_eq!(accept_state(None, None).err(), Some(AdminError::StateNotCanonical));
    let mut current = older();
    current.version = STATE_VERSION;
    let accepted = accept_state(Some(current), None).unwrap();
    assert!(accepted.history_outbox.is_empty());
    let mut lost = older();
    lost.version = STATE_VERSION;
    lost.state.offer_outbox.push([1; 32]);
    assert_eq!(accept_state(Some(lost), None).err(), Some(AdminError::StateInvalid));
}

#[test]
fn approval_and_exact_decision_survive_before_relay_acknowledgement() {
    let id = [0x31; 32];
    let state = add_approved(PublisherState::new(), 9, identity(2)).unwrap();
    let state = queue_decision(state, decision(id, PairDecisionReason::OpenPolicy)).unwrap();
    assert_eq!(check_for_saving(&state, 100), Ok(()));
    assert_eq!(check_for_saving(&state, 4_194_305), Err(AdminError::StateTooLarge));

    let recovered = accept_state(
        Some(DecodedState { version: STATE_VERSION, unread: 0, canonical: true, state }),
        None,
    )
    .unwrap();
    assert_eq!(recovered.approved.len(), 1);
    assert_eq!(recovered.decision_outbox.len(), 1);
    assert_eq!(recovered.decision_outbox[0].encoded, vec![4; 20]);
    assert_eq!(recovered.history_outbox.len(), 1);

    // The same decision is queued once; another one on the same request is refused.
    let again = queue_decision(recovered, decision(id, PairDecisionReason::OpenPolicy)).unwrap();
    assert_eq!(again.decision_outbox.len(), 1);
    let mut other = decision(id, PairDecisionReason::Rejected);
    other.encoded = vec![5; 20];
    assert_eq!(queue_decision(again, other).err(), Some(AdminError::ConflictingDecision));
}

#[test]
fn requests_follow_the_policy() {
    let state = PublisherState::new();
    let wanted = request([1; 32], 1, 2);
    let action = |mode| request_action(&state, &policy(mode), &wanted, true);
    assert_eq!(action(ViewerPolicy::Required), Ok(RequestAction::Offer));
    assert_eq!(
        action(ViewerPolicy::Open),
        Ok(RequestAction::Approve(PairDecisionReason::OpenPolicy))
    );
    let mut nameless = request([1; 32], 1, 2);
    nameless.request_id = None;
    assert_eq!(
        request_action(&state, &policy(ViewerPolicy::Open), &nameless, true),
        Err(AdminError::RequestInvalid)
    );

    let approved = receive_requests(
        PublisherState::new(),
        &policy(ViewerPolicy::Open),
        vec![incoming([2; 32], 1, 2), incoming([1; 32], 2, 3)],
    )
    .unwrap();
    assert_eq!(approved.approved.len(), 2);
    assert!(approved.pending.is_empty());
    let order: Vec<u8> =
        approved.decision_outbox.iter().map(|queued| queued.request_id[0]).collect();
    assert_eq!(order, [1, 2]);

    let mut unverified = incoming([1; 32], 1, 2);
    unverified.verified = false;
    assert_eq!(
        receive_requests(
            PublisherState::new(),
            &policy(ViewerPolicy::Required),
            vec![unverified]
        )
        .err(),
        Some(AdminError::RequestInvalid)
    );
    let mut unsigned = incoming([1; 32], 1, 2);
    unsigned.offer = None;
    assert_eq!(
        receive_requests(PublisherState::new(), &policy(ViewerPolicy::Required), vec![unsigned])
            .err(),
        Some(AdminError::SigningFailed)
    );
}

#[test]
fn a_request_is_offered_confirmed_decided_and_delivered() {
    let id = [0x42; 32];
    let state = receive_requests(
        PublisherState::new(),
        &policy(ViewerPolicy::Required),
        vec![incoming(id, 1, 2)],
    )
    .unwrap();
    assert_eq!(state.pending.len(), 1);
    assert_eq!(state.offer_outbox, [id]);
    assert!(state.approved.is_empty());
    assert_eq!(select_request(&state, "42", true), Err(AdminError::NotConfirmed));
    assert_eq!(select_request(&state, "42", false), Ok(0));
    assert_eq!(
        request_line(&state.pending[0], "1234 5678").unwrap(),
        "424242424242  waiting     device                \
         00000000-0000-0000-0000-000000000001  127.0.0.1:1  1234 5678"
    );
    assert!(confirmed_requests(&state).is_empty());

    let mut state = state;
    assert!(matches!(
        next_delivery(&state),
        Ok(Some(OutboxItem::Offer(sent))) if sent.encoded == offer(id).encoded
    ));
    assert_eq!(delivery_answered(&mut state, &RelayAnswer::Error), Err(AdminError::Refused));
    assert_eq!(
        delivery_answered(&mut state, &acknowledged([9; 32])),
        Err(AdminError::UnexpectedReply)
    );
    assert_eq!(state.offer_outbox, [id]);
    assert_eq!(delivery_answered(&mut state, &acknowledged(id)), Ok(()));
    assert!(matches!(next_delivery(&state), Ok(None)));

    let state = receive_confirmations(
        state,
        vec![
            CheckedConfirmation { confirmation: confirmation([7; 32]), verified: false },
            CheckedConfirmation { confirmation: confirmation(id), verified: true },
        ],
    )
    .unwrap();
    assert_eq!(confirmed_requests(&state), ["42".repeat(32)]);
    let mut state =
        decide(state, "4242", true, Some(decision(id, PairDecisionReason::ManualVerified)))
            .unwrap();
    assert!(state.pending.is_empty());
    assert_eq!(state.approved.len(), 1);
    assert_eq!(state.history_outbox.len(), 1);
    assert_eq!(validate_state(&state), Ok(()));
    assert!(matches!(
        next_delivery(&state),
        Ok(Some(OutboxItem::Decision(sent)))
            if sent.reason == PairDecisionReason::ManualVerified
    ));
    assert_eq!(delivery_answered(&mut state, &acknowledged(id)), Ok(()));

    let grant = state.history_outbox[0];
    history_sent(&mut state, &grant);
    assert!(state.history_outbox.is_empty());
    assert_eq!(
        approved_line(&state.approved[0]).unwrap(),
        format!("approved 00000000-0000-0000-0000-000000000001 {}", "02".repeat(32))
    );

    // Revocation takes the grant away for good.
    let (state, viewer) = revoke(state, 1, "0202").unwrap();
    assert_eq!(viewer, [2; 32]);
    assert!(state.approved.is_empty());
    assert_eq!(
        revoked_line(&state.revoked[0]),
        format!("revoked  00000000-0000-0000-0000-000000000001 {}", "02".repeat(32))
    );
    let again = receive_requests(
        state,
        &policy(ViewerPolicy::Open),
        vec![incoming([0x43; 32], 1, 2)],
    );
    assert!(again.map_or(true, |state| state.approved.is_empty()));
}

#[test]
fn decisions_fail_for_each_reason() {
    let waiting = || PublisherState { pending: vec![pending([0x42; 32])], ..PublisherState::new() };
    assert_eq!(
        decide(waiting(), "42", true, None).err(),
        Some(AdminError::NotConfirmed)
    );
    assert_eq!(
        decide(waiting(), "42", false, None).err(),
        Some(AdminError::SigningFailed)
    );
    assert_eq!(decide(waiting(), "43", false, None).err(), Some(AdminError::NoMatch));
    let denied = decide(
        waiting(),
        "42",
        false,
        Some(decision([0x42; 32], PairDecisionReason::Rejected)),
    )
    .unwrap();
    assert!(denied.pending.is_empty());
    assert!(denied.approved.is_empty());
    assert_eq!(denied.decision_outbox.len(), 1);
    assert_eq!(
        receive_confirmations(
            waiting(),
            vec![CheckedConfirmation { confirmation: confirmation([0x42; 32]), verified: false }],
        )
        .err(),
        Some(AdminError::ConfirmationInvalid)
    );
    let lost = PublisherState { offer_outbox: vec![[1; 32]], ..PublisherState::new() };
    assert!(matches!(next_delivery(&lost), Err(AdminError::OfferLost)));
    assert_eq!(validate_state(&lost), Err(AdminError::StateInvalid));
    assert_eq!(revoke(PublisherState::new(), 1, "02").err(), Some(AdminError::NoMatch));
}

#[test]
fn kept_keys_are_sent_newest_first_where_something_was_published() {
    let group = |stream_id: u128, number: u64, bytes: u64| RetainedGroupKey {
        stream_id,
        epoch_id: 7,
        key_group_id: number,
        key_id: [1; 16],
        content_key: [2; 32],
        created_at_ms: NOW,
        content_bytes: bytes,
    };
    let groups = vec![group(1, 1, 10), group(2, 1, 10), group(1, 2, 0), group(1, 3, 5)];
    let picked = history_groups(&groups, 1);
    assert_eq!(picked.iter().map(|group| group.key_group_id).collect::<Vec<_>>(), [3, 1]);
    assert_eq!(
        check_history_answer(&RelayAnswer::Reply(PublisherReply::Pong { now_ms: 1 })),
        Ok(())
    );
    assert_eq!(check_history_answer(&RelayAnswer::Error), Err(AdminError::Refused));
    assert_eq!(check_history_answer(&acknowledged([1; 32])), Err(AdminError::UnexpectedReply));
}

#[test]
fn relay_keys_are_pinned_or_learned() {
    assert_eq!(check_relay_key(&None, &None, &[1; 32]), Some(true));
    assert_eq!(check_relay_key(&None, &Some([1; 32]), &[1; 32]), Some(true));
    assert_eq!(check_relay_key(&None, &Some([2; 32]), &[1; 32]), None);
    assert_eq!(check_relay_key(&Some([1; 32]), &Some([2; 32]), &[1; 32]), Some(false));
    assert_eq!(check_relay_key(&Some([3; 32]), &None, &[1; 32]), None);
    let words = |list: &[&str]| list.iter().map(|word| word.to_string()).collect::<Vec<_>>();
    assert!(is_admin_command(&words(&["gcpub", "--relay", "host", "approve-all"])));
    assert!(!is_admin_command(&words(&["gcpub", "--relay", "host"])));
    assert!(AdminCommand::Viewers.is_offline());
    assert!(!AdminCommand::Requests.is_offline());
    assert!(AdminCommand::Requests.uses_state());
    assert!(!AdminCommand::CredentialRequest.uses_state());
}

#[test]
fn digests_have_their_known_values() {
    let fingerprint = relay_fingerprint(&[0; 32]);
    let shown: String = fingerprint.iter().map(|byte| format!("{byte:02x}")).collect();
    assert_eq!(shown, "66687aadf862bd776c8fc18b8e9f8e20089714856ee233b3902a591d0d5f2925");
    assert_eq!(
        stable_stream_id(&[0; 32], "default"),
        0x8634_43c6_7b89_4662_91ef_9cbc_0493_5e41
    );
    assert_ne!(stable_stream_id(&[0; 32], "DP-1"), stable_stream_id(&[0; 32], "default"));
    let first = fresh_epoch_id();
    assert_ne!(first, fresh_epoch_id());
    assert_eq!((first >> 76) & 0xf, 4);
    assert_eq!((first >> 62) & 0x3, 2);
}

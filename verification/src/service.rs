//! The relay's data plane: what each message of a publisher or a viewer does to the
//! stores, what is answered, and when a session ends.
//!
//! Transport, clocks and signature checks lie outside: callers hand in decoded messages
//! with what checking them found.

use core::time::Duration;

use vstd::prelude::*;

use crate::access::{
    CredentialRole, NativeAccessError, NativeAccessPolicy, NativeAdmission, RelayAccessMode,
    SessionHello,
};
use crate::bytes::{id_equal, is_zero};
use crate::pairing::{
    confirmations_view, decisions_view, offers_view, DecisionEvidence, PairingStore,
    PublisherPairingInbox, ViewerPairingInbox,
};
use crate::pairing_model::{
    confirmations_of, decisions_of, delivery_refusal, offers_of, PairingError, PairingModel,
};
use crate::records::{
    IdentityPublic, KeyEnvelope, NativeObject, PairOffer, PairRequest, PublisherDecision,
    StreamDescriptor, ViewerConfirmation,
};
use crate::store::{lemma_find, total_due, NativeStore};
use crate::store_model::{
    bounds_of, delivered_envelope, envelopes_for, summary_of, NativeRetainedBounds, SentEnvelope,
    StoreError, StoreModel, StreamModel,
};
use crate::time::duration_nanos;

verus! {

/// Longest life of a pairing request, in milliseconds.
pub const PAIRING_REQUEST_LIFETIME_MS: i64 = 86_400_000;

/// Objects read from the store at once for a subscription.
pub const SUBSCRIPTION_PAGE: usize = 1_024;

/// Envelopes delivered per stream with a viewer's inbox.
pub const INBOX_ENVELOPES: usize = 4_096;

/// Hard bounds applied to relay connections.
#[derive(Clone, Copy, Debug)]
pub struct NativeServiceLimits {
    /// Maximum publisher and viewer sessions combined.
    pub max_connections: usize,
    /// Maximum time allowed for the handshake and the first application message.
    pub handshake_timeout: Duration,
    /// Maximum time a connected peer may send no application data.
    pub idle_timeout: Duration,
    /// Maximum opaque live items retained in memory per stream.
    pub live_channel_capacity: usize,
}

impl NativeServiceLimits {
    /// Every bound is positive.
    pub open spec fn positive(self) -> bool {
        &&& self.max_connections > 0
        &&& duration_nanos(self.handshake_timeout) > 0
        &&& duration_nanos(self.idle_timeout) > 0
        &&& self.live_channel_capacity > 0
    }
}

impl Default for NativeServiceLimits {
    fn default() -> (limits: NativeServiceLimits)
        ensures
            limits.max_connections == 256,
            duration_nanos(limits.handshake_timeout) == 10_000_000_000,
            duration_nanos(limits.idle_timeout) == 120_000_000_000,
            limits.live_channel_capacity == 32,
    {
        NativeServiceLimits {
            max_connections: 256,
            handshake_timeout: Duration::from_secs(10),
            idle_timeout: Duration::from_secs(120),
            live_channel_capacity: 32,
        }
    }
}

/// What a peer is told when something is refused.
#[derive(Clone, Copy, Debug, PartialEq, Eq, Structural)]
pub enum RelayErrorCode {
    /// The message does not belong here.
    ProtocolViolation,
    /// The credential was rejected or is no longer valid.
    Unauthorized,
    /// The credential has expired.
    CredentialExpired,
    /// The requested stream is not published by that identity.
    NotFound,
    /// A live gap is no longer retained.
    HistoryUnavailable,
}

/// Why a session ended, or a service could not be made.
#[derive(Clone, Copy, Debug, PartialEq, Eq, Structural)]
pub enum ServiceError {
    /// A limit is zero.
    LimitsNotPositive,
    /// The relay's transport key pair is inconsistent.
    InvalidNoiseIdentity,
    /// The first message was not a hello.
    HelloNotFirst,
    /// A second hello arrived.
    DuplicateHello,
    /// Admission refused the peer.
    Access(NativeAccessError),
    /// The peer's identity has no fingerprint.
    Unidentified,
    /// A record names another identity than the session's.
    IdentityMismatch,
    /// The stream already has an active publisher session.
    StreamBusy,
    /// The stream does not exist.
    StreamNotFound,
    /// The store refused the record.
    Store(StoreError),
    /// The pairing queue refused the record.
    Pairing(PairingError),
    /// The retained stream has a gap.
    SequenceGap,
    /// The credential expired.
    CredentialExpired,
    /// The credential is no longer valid.
    CredentialInvalid,
    /// Nothing happened for too long.
    IdleTimeout,
    /// A live gap could not be closed from the store.
    GapUnavailable,
}

/// The relay's answer to an admitted hello.
#[derive(Clone, Copy, Debug, PartialEq, Eq, Structural)]
pub struct RelayWelcome {
    /// How the relay admits peers.
    pub access_mode: RelayAccessMode,
    /// The relay's clock, Unix milliseconds.
    pub relay_time_ms: i64,
    /// Exclusive end of the peer's credential.
    pub credential_expires_at_ms: Option<i64>,
}

/// The welcome that announces an admission.
pub fn welcome(admission: NativeAdmission, now_ms: i64) -> (answer: RelayWelcome)
    ensures
        answer == (RelayWelcome {
            access_mode: admission.mode,
            relay_time_ms: now_ms,
            credential_expires_at_ms: admission.expires_at_ms,
        }),
{
    RelayWelcome {
        access_mode: admission.mode,
        relay_time_ms: now_ms,
        credential_expires_at_ms: admission.expires_at_ms,
    }
}

/// Whether an admission has run out at a time.
pub open spec fn has_expired(admission: NativeAdmission, now_ms: i64) -> bool {
    admission.expires_at_ms matches Some(expiry) && now_ms >= expiry
}

/// What a peer is told when its credential stops being valid.
pub fn active_credential_error_code(admission: NativeAdmission, now_ms: i64) -> (code:
    RelayErrorCode)
    ensures
        code == if has_expired(admission, now_ms) {
            RelayErrorCode::CredentialExpired
        } else {
            RelayErrorCode::Unauthorized
        },
{
    match admission.expires_at_ms {
        Some(expiry) => if now_ms >= expiry {
            RelayErrorCode::CredentialExpired
        } else {
            RelayErrorCode::Unauthorized
        },
        None => RelayErrorCode::Unauthorized,
    }
}

/// How long a session waits for the next message.
#[derive(Clone, Copy, Debug)]
pub enum ReadDeadline {
    /// The credential has already expired.
    Expired,
    /// Wait that long; running out means that the credential expired.
    UntilExpiry(Duration),
    /// Wait that long; running out means that the peer is idle.
    UntilIdle(Duration),
}

/// How long to wait for the next message of a session: as long as a peer may be idle, but
/// not beyond the end of its credential.
pub fn read_deadline(expires_at_ms: Option<i64>, now_ms: i64, idle_timeout: Duration) -> (deadline:
    ReadDeadline)
    ensures
        match expires_at_ms {
            None => deadline matches ReadDeadline::UntilIdle(timeout) && timeout == idle_timeout,
            Some(expiry) => if expiry < now_ms {
                deadline is Expired
            } else {
                let remaining = if expiry - now_ms > i64::MAX {
                    i64::MAX as int
                } else {
                    expiry - now_ms
                };
                if remaining * 1_000_000 <= duration_nanos(idle_timeout) {
                    deadline matches ReadDeadline::UntilExpiry(timeout) && duration_nanos(timeout)
                        == remaining * 1_000_000
                } else {
                    deadline matches ReadDeadline::UntilIdle(timeout) && timeout == idle_timeout
                }
            },
        },
{
    match expires_at_ms {
        None => ReadDeadline::UntilIdle(idle_timeout),
        Some(expiry) => {
            let exact: i128 = expiry as i128 - now_ms as i128;
            if exact < 0 {
                return ReadDeadline::Expired;
            }
            let remaining_ms: u64 = if exact > 0x7fff_ffff_ffff_ffff {
                0x7fff_ffff_ffff_ffff
            } else {
                exact as u64
            };
            if remaining_ms as u128 * 1_000_000 <= idle_timeout.as_nanos() {
                ReadDeadline::UntilExpiry(Duration::from_millis(remaining_ms))
            } else {
                ReadDeadline::UntilIdle(idle_timeout)
            }
        },
    }
}

/// A refused session: what the peer is told, if anything, and why it ended.
#[derive(Clone, Copy, Debug, PartialEq, Eq, Structural)]
pub struct SessionRefusal {
    /// What the peer is told before the connection closes.
    pub reply: Option<RelayErrorCode>,
    /// Why the session ended.
    pub reason: ServiceError,
}

/// An admitted publisher connection.
#[derive(Debug)]
pub struct PublisherSession {
    /// The publisher's identity.
    pub identity: IdentityPublic,
    /// Its fingerprint.
    pub publisher_id: [u8; 32],
    /// How it was admitted.
    pub admission: NativeAdmission,
    /// Streams that this session has claimed, in the order of claiming.
    pub touched: Vec<u128>,
}

/// An admitted viewer connection.
#[derive(Clone, Copy, Debug)]
pub struct ViewerSession {
    /// The viewer's identity.
    pub identity: IdentityPublic,
    /// How it was admitted.
    pub admission: NativeAdmission,
}

/// The service's state as mathematical values.
#[verifier::ext_equal]
pub struct ServiceModel {
    /// Stored streams.
    pub store: StoreModel,
    /// Queued pairing records.
    pub pairing: PairingModel,
    /// Streams that a connected publisher has claimed.
    pub online: Seq<u128>,
}

impl ServiceModel {
    /// The stores are in order and no stream is claimed twice.
    pub open spec fn wf(self) -> bool {
        &&& self.store.wf()
        &&& self.pairing.wf()
        &&& self.online.no_duplicates()
    }
}

/// Shared relay service state.
#[derive(Debug)]
pub struct NativeRelayService {
    store: NativeStore,
    pairing: PairingStore,
    access: NativeAccessPolicy,
    noise_public_key: [u8; 32],
    online: Vec<u128>,
    limits: NativeServiceLimits,
}

impl View for NativeRelayService {
    type V = ServiceModel;

    closed spec fn view(&self) -> ServiceModel {
        ServiceModel { store: self.store@, pairing: self.pairing@, online: self.online@ }
    }
}

/// Whether a stream is in a list.
fn contains_stream(streams: &Vec<u128>, stream_id: u128) -> (found: bool)
    ensures
        found == streams@.contains(stream_id),
{
    let mut i: usize = 0;
    while i < streams.len()
        invariant
            i <= streams@.len(),
            forall|k: int| 0 <= k < i ==> streams@[k] != stream_id,
        decreases streams@.len() - i,
    {
        if streams[i] == stream_id {
            assert(streams@[i as int] == stream_id);
            return true;
        }
        i += 1;
    }
    false
}

/// What claiming a stream for a session makes of the claims.
pub open spec fn claimed(claims: Seq<u128>, touched: Seq<u128>, stream_id: u128) -> Seq<u128> {
    if touched.contains(stream_id) {
        claims
    } else {
        claims.push(stream_id)
    }
}

/// Whether a session may publish a stream: nobody else is.
pub open spec fn may_claim(online: Seq<u128>, touched: Seq<u128>, stream_id: u128) -> bool {
    touched.contains(stream_id) || !online.contains(stream_id)
}

impl NativeRelayService {
    /// The policy that peers are admitted by.
    pub closed spec fn policy(&self) -> NativeAccessPolicy {
        self.access
    }

    /// The relay's transport key.
    pub closed spec fn transport_key(&self) -> [u8; 32] {
        self.noise_public_key
    }

    /// The hard bounds on connections.
    pub closed spec fn bounds(&self) -> NativeServiceLimits {
        self.limits
    }

    /// Creates a relay around its stores and its transport identity, with default limits.
    pub fn new(
        store: NativeStore,
        pairing: PairingStore,
        access: NativeAccessPolicy,
        noise_public_key: [u8; 32],
        noise_identity_valid: bool,
    ) -> (result: Result<NativeRelayService, ServiceError>)
        requires
            store@.wf(),
            pairing@.wf(),
        ensures
            match result {
                Ok(service) => {
                    &&& noise_identity_valid
                    &&& service@.wf()
                    &&& service@ == (ServiceModel {
                        store: store@,
                        pairing: pairing@,
                        online: Seq::empty(),
                    })
                    &&& service.policy() == access
                    &&& service.transport_key() == noise_public_key
                    &&& service.bounds().max_connections == 256
                    &&& duration_nanos(service.bounds().handshake_timeout) == 10_000_000_000
                    &&& duration_nanos(service.bounds().idle_timeout) == 120_000_000_000
                    &&& service.bounds().live_channel_capacity == 32
                },
                Err(error) => !noise_identity_valid && error == ServiceError::InvalidNoiseIdentity,
            },
    {
        NativeRelayService::new_with_limits(
            store,
            pairing,
            access,
            noise_public_key,
            noise_identity_valid,
            NativeServiceLimits::default(),
        )
    }

    /// Creates a relay with explicit hard connection and timeout bounds.
    ///
    /// `noise_identity_valid` says whether the relay's transport keys form a pair.
    pub fn new_with_limits(
        store: NativeStore,
        pairing: PairingStore,
        access: NativeAccessPolicy,
        noise_public_key: [u8; 32],
        noise_identity_valid: bool,
        limits: NativeServiceLimits,
    ) -> (result: Result<NativeRelayService, ServiceError>)
        requires
            store@.wf(),
            pairing@.wf(),
        ensures
            match result {
                Ok(service) => {
                    &&& limits.positive()
                    &&& noise_identity_valid
                    &&& service@.wf()
                    &&& service@ == (ServiceModel {
                        store: store@,
                        pairing: pairing@,
                        online: Seq::empty(),
                    })
                    &&& service.policy() == access
                    &&& service.transport_key() == noise_public_key
                    &&& service.bounds() == limits
                },
                Err(error) => {
                    ||| !limits.positive() && error == ServiceError::LimitsNotPositive
                    ||| limits.positive() && !noise_identity_valid && error
                        == ServiceError::InvalidNoiseIdentity
                },
            },
    {
        if limits.max_connections == 0 || limits.handshake_timeout.as_nanos() == 0
            || limits.idle_timeout.as_nanos() == 0 || limits.live_channel_capacity == 0 {
            return Err(ServiceError::LimitsNotPositive);
        }
        if !noise_identity_valid {
            return Err(ServiceError::InvalidNoiseIdentity);
        }
        Ok(
            NativeRelayService {
                store,
                pairing,
                access,
                noise_public_key,
                online: Vec::new(),
                limits,
            },
        )
    }

    /// The relay's transport public key for invitations and explicit pins.
    pub fn noise_public_key(&self) -> (key: [u8; 32])
        ensures
            key == self.transport_key(),
    {
        self.noise_public_key
    }

    /// The hard bounds on connections.
    pub fn limits(&self) -> (limits: NativeServiceLimits)
        ensures
            limits == self.bounds(),
    {
        self.limits
    }

    /// The stored streams.
    pub fn store(&self) -> (store: &NativeStore)
        ensures
            store@ == self@.store,
    {
        &self.store
    }

    /// The queued pairing records.
    pub fn pairing(&self) -> (pairing: &PairingStore)
        ensures
            pairing@ == self@.pairing,
    {
        &self.pairing
    }

    /// Applies retention to every stream. Returns how many groups left.
    pub fn enforce_retention_at(&mut self, now_ms: i64) -> (removed: usize)
        requires
            old(self)@.wf(),
        ensures
            final(self)@.wf(),
            final(self)@ == (ServiceModel {
                store: old(self)@.store.after_retention(now_ms),
                ..old(self)@
            }),
            removed == if total_due(old(self)@.store, old(self)@.store.streams, now_ms)
                > usize::MAX {
                usize::MAX as nat
            } else {
                total_due(old(self)@.store, old(self)@.store.streams, now_ms)
            },
            final(self).policy() == old(self).policy(),
            final(self).transport_key() == old(self).transport_key(),
            final(self).bounds() == old(self).bounds(),
    {
        self.store.enforce_retention_at(now_ms)
    }

    /// Judges the first message of a connection at a listener.
    ///
    /// `hello` is absent where the first message was something else. Nothing is exposed
    /// to a peer before this succeeds.
    pub fn open_session(
        &self,
        hello: &Option<SessionHello>,
        role: CredentialRole,
        credential_verified: bool,
    ) -> (result: Result<NativeAdmission, SessionRefusal>)
        ensures
            result == match hello {
                None => Err::<NativeAdmission, SessionRefusal>(
                    SessionRefusal {
                        reply: Some(RelayErrorCode::ProtocolViolation),
                        reason: ServiceError::HelloNotFirst,
                    },
                ),
                Some(first) => match self.policy().answer(*first, role, credential_verified) {
                    Ok(admission) => Ok::<NativeAdmission, SessionRefusal>(admission),
                    Err(error) => Err::<NativeAdmission, SessionRefusal>(
                        SessionRefusal {
                            reply: Some(RelayErrorCode::Unauthorized),
                            reason: ServiceError::Access(error),
                        },
                    ),
                },
            },
    {
        match hello {
            None => Err(
                SessionRefusal {
                    reply: Some(RelayErrorCode::ProtocolViolation),
                    reason: ServiceError::HelloNotFirst,
                },
            ),
            Some(first) => match self.access.admit_peer(first, role, credential_verified) {
                Ok(admission) => Ok(admission),
                Err(error) => Err(
                    SessionRefusal {
                        reply: Some(RelayErrorCode::Unauthorized),
                        reason: ServiceError::Access(error),
                    },
                ),
            },
        }
    }
}

/// A session that ends without a word to the peer.
pub open spec fn ends(reason: ServiceError) -> SessionRefusal {
    SessionRefusal { reply: None, reason }
}

/// How far one stream was committed before its publisher came back.
#[derive(Clone, Copy, Debug, PartialEq, Eq, Structural)]
pub struct RelayResumeStream {
    /// The stream.
    pub stream_id: u128,
    /// Inclusive committed sequence, zero for a new stream.
    pub committed_through: u64,
}

/// A message of an admitted publisher, with what checking its signatures found.
#[derive(Debug)]
pub enum PublisherMessage {
    /// A second hello.
    Hello,
    /// The publisher comes back to its streams.
    Resume {
        /// The identity that it claims.
        publisher_id: [u8; 32],
        /// The streams that it will publish.
        streams: Vec<u128>,
    },
    /// A stream is described.
    Descriptor(StreamDescriptor),
    /// A stream object is published.
    Object(NativeObject),
    /// A content key is wrapped for a viewer.
    KeyEnvelope(KeyEnvelope),
    /// A viewer's request is answered.
    PairOffer {
        /// The offer.
        offer: PairOffer,
        /// Whether it verifies for the stored request.
        verified: bool,
    },
    /// A viewer's request is decided.
    PairDecision {
        /// The decision.
        decision: PublisherDecision,
        /// What checking it against the stored ceremony found.
        evidence: DecisionEvidence,
    },
    /// The publisher asks for its pairing inbox.
    FetchPairingInbox {
        /// Queued requests that do not verify any more.
        unverified: Vec<[u8; 32]>,
    },
    /// The publisher asks for a sign of life.
    Ping,
}

/// What the relay answers a publisher.
#[derive(Debug)]
pub enum PublisherReply {
    /// Nothing is answered.
    Nothing,
    /// How far the resumed streams were committed.
    ResumeState(Vec<RelayResumeStream>),
    /// The object is stored.
    PublishAck {
        /// Its stream.
        stream_id: u128,
        /// Inclusive sequence that is now durable.
        committed_through: u64,
        /// Whether live viewers are sent the object.
        broadcast: bool,
    },
    /// The envelope is stored; no acknowledgement is sent.
    EnvelopeStored {
        /// Whether live viewers are sent the envelope.
        broadcast: bool,
    },
    /// The pairing record is queued.
    PairingAck {
        /// The request that it belongs to.
        request_id: [u8; 32],
    },
    /// The pairing inbox, closed by its end marker.
    PairingInbox(PublisherPairingInbox),
    /// A sign of life.
    Pong {
        /// The relay's clock.
        now_ms: i64,
    },
}

/// How far resuming streams has come.
#[verifier::ext_equal]
pub struct ResumeProgress {
    /// Claims of all sessions.
    pub online: Seq<u128>,
    /// Claims of this session.
    pub touched: Seq<u128>,
    /// What is answered.
    pub states: Seq<RelayResumeStream>,
    /// Why the session ends, if it does.
    pub failed: Option<ServiceError>,
}

/// Resuming streams one after the other: each must belong to the publisher, if it is
/// known at all, and must not be published by another session.
pub open spec fn resume_progress(
    before: ServiceModel,
    identity: IdentityPublic,
    touched: Seq<u128>,
    streams: Seq<u128>,
) -> ResumeProgress
    decreases streams.len(),
{
    if streams.len() == 0 {
        ResumeProgress { online: before.online, touched, states: Seq::empty(), failed: None }
    } else {
        let earlier = resume_progress(before, identity, touched, streams.drop_last());
        let stream_id = streams.last();
        if earlier.failed is Some {
            earlier
        } else if before.store.stream(stream_id) matches Some(stream) && stream.publisher
            != identity {
            ResumeProgress { failed: Some(ServiceError::IdentityMismatch), ..earlier }
        } else if !may_claim(earlier.online, earlier.touched, stream_id) {
            ResumeProgress { failed: Some(ServiceError::StreamBusy), ..earlier }
        } else {
            ResumeProgress {
                online: claimed(earlier.online, earlier.touched, stream_id),
                touched: claimed(earlier.touched, earlier.touched, stream_id),
                states: earlier.states.push(
                    RelayResumeStream {
                        stream_id,
                        committed_through: match before.store.stream(stream_id) {
                            Some(stream) => stream.high_water,
                            None => 0,
                        },
                    },
                ),
                failed: None,
            }
        }
    }
}

/// Once resuming has failed nothing more happens.
proof fn lemma_resume_failed(
    before: ServiceModel,
    identity: IdentityPublic,
    touched: Seq<u128>,
    streams: Seq<u128>,
    count: int,
)
    requires
        0 <= count <= streams.len(),
        resume_progress(before, identity, touched, streams.take(count)).failed is Some,
    ensures
        resume_progress(before, identity, touched, streams) == resume_progress(
            before,
            identity,
            touched,
            streams.take(count),
        ),
    decreases streams.len() - count,
{
    if count == streams.len() {
        assert(streams.take(count) =~= streams);
    } else {
        assert(streams.take(count + 1).drop_last() =~= streams.take(count));
        lemma_resume_failed(before, identity, touched, streams, count + 1);
    }
}

/// A session's claims are among the claims of all sessions, none twice.
pub open spec fn session_wf(service: ServiceModel, touched: Seq<u128>) -> bool {
    &&& touched.no_duplicates()
    &&& forall|i: int|
        0 <= i < touched.len() ==> service.online.contains(#[trigger] touched[i])
}

/// What a publisher's message makes of the service and of its session, and what is
/// answered.
pub open spec fn publisher_step(
    before: ServiceModel,
    session: PublisherSession,
    message: PublisherMessage,
    now_ms: i64,
    after: ServiceModel,
    touched: Seq<u128>,
    result: Result<PublisherReply, SessionRefusal>,
) -> bool {
    let unchanged = after == before && touched == session.touched@;
    match message {
        PublisherMessage::Hello => unchanged && result == Err::<PublisherReply, SessionRefusal>(
            SessionRefusal {
                reply: Some(RelayErrorCode::ProtocolViolation),
                reason: ServiceError::DuplicateHello,
            },
        ),
        PublisherMessage::Resume { publisher_id, streams } => if publisher_id
            != session.publisher_id {
            unchanged && result == Err::<PublisherReply, SessionRefusal>(
                ends(ServiceError::IdentityMismatch),
            )
        } else {
            let progress = resume_progress(
                before,
                session.identity,
                session.touched@,
                streams@,
            );
            &&& after == (ServiceModel { online: progress.online, ..before })
            &&& touched == progress.touched
            &&& match progress.failed {
                Some(error) => result == Err::<PublisherReply, SessionRefusal>(ends(error)),
                None => result matches Ok(PublisherReply::ResumeState(states)) && states@
                    == progress.states,
            }
        },
        PublisherMessage::Descriptor(descriptor) => if descriptor.publisher != session.identity {
            unchanged && result == Err::<PublisherReply, SessionRefusal>(
                ends(ServiceError::IdentityMismatch),
            )
        } else if !may_claim(before.online, session.touched@, descriptor.stream_id) {
            unchanged && result == Err::<PublisherReply, SessionRefusal>(
                ends(ServiceError::StreamBusy),
            )
        } else {
            &&& touched == claimed(session.touched@, session.touched@, descriptor.stream_id)
            &&& after.online == claimed(before.online, session.touched@, descriptor.stream_id)
            &&& after.pairing == before.pairing
            &&& before.store.describes(
                descriptor.stream_id,
                descriptor.publisher,
                descriptor.encoded@,
                descriptor.valid,
                after.store,
            )
            &&& result == match before.store.descriptor_refusal(
                descriptor.stream_id,
                descriptor.publisher,
                descriptor.valid,
            ) {
                Some(error) => Err::<PublisherReply, SessionRefusal>(
                    ends(ServiceError::Store(error)),
                ),
                None => Ok::<PublisherReply, SessionRefusal>(PublisherReply::Nothing),
            }
        },
        PublisherMessage::Object(object) => if object.header.publisher_id
            != session.publisher_id {
            unchanged && result == Err::<PublisherReply, SessionRefusal>(
                ends(ServiceError::IdentityMismatch),
            )
        } else if !may_claim(before.online, session.touched@, object.header.stream_id) {
            unchanged && result == Err::<PublisherReply, SessionRefusal>(
                ends(ServiceError::StreamBusy),
            )
        } else {
            &&& touched == claimed(session.touched@, session.touched@, object.header.stream_id)
            &&& after == (ServiceModel {
                store: before.store.after_object(object@, now_ms),
                online: claimed(before.online, session.touched@, object.header.stream_id),
                ..before
            })
            &&& result == match before.store.object_reply(object@, now_ms) {
                Err(error) => Err::<PublisherReply, SessionRefusal>(
                    ends(ServiceError::Store(error)),
                ),
                Ok(commit) => Ok::<PublisherReply, SessionRefusal>(
                    PublisherReply::PublishAck {
                        stream_id: object.header.stream_id,
                        committed_through: commit.committed_through,
                        broadcast: commit.inserted,
                    },
                ),
            }
        },
        PublisherMessage::KeyEnvelope(envelope) => if envelope.header.publisher_id
            != session.publisher_id {
            unchanged && result == Err::<PublisherReply, SessionRefusal>(
                ends(ServiceError::IdentityMismatch),
            )
        } else {
            &&& touched == session.touched@
            &&& after == (ServiceModel {
                store: before.store.after_envelope(envelope@, now_ms),
                ..before
            })
            &&& result == match before.store.envelope_refusal(envelope@) {
                Some(error) => Err::<PublisherReply, SessionRefusal>(
                    ends(ServiceError::Store(error)),
                ),
                None => Ok::<PublisherReply, SessionRefusal>(
                    PublisherReply::EnvelopeStored {
                        broadcast: !before.store.envelope_is_retry(envelope@),
                    },
                ),
            }
        },
        PublisherMessage::PairOffer { offer, verified } => if offer.publisher
            != session.identity {
            unchanged && result == Err::<PublisherReply, SessionRefusal>(
                ends(ServiceError::IdentityMismatch),
            )
        } else {
            &&& touched == session.touched@
            &&& after == (ServiceModel {
                pairing: before.pairing.after_offer(offer@, now_ms, verified),
                ..before
            })
            &&& result == match before.pairing.offer_refusal(offer@, now_ms, verified) {
                Some(error) => Err::<PublisherReply, SessionRefusal>(
                    ends(ServiceError::Pairing(error)),
                ),
                None => Ok::<PublisherReply, SessionRefusal>(
                    PublisherReply::PairingAck { request_id: offer.request_id },
                ),
            }
        },
        PublisherMessage::PairDecision { decision, evidence } => {
            &&& touched == session.touched@
            &&& after == (ServiceModel {
                pairing: before.pairing.after_decision(
                    decision@,
                    now_ms,
                    evidence.verified,
                    evidence.ceremony_verified,
                    evidence.transcript,
                ),
                ..before
            })
            &&& result == match before.pairing.decision_refusal(
                decision@,
                now_ms,
                evidence.verified,
                evidence.ceremony_verified,
                evidence.transcript,
            ) {
                Some(error) => Err::<PublisherReply, SessionRefusal>(
                    ends(ServiceError::Pairing(error)),
                ),
                None => Ok::<PublisherReply, SessionRefusal>(
                    PublisherReply::PairingAck { request_id: decision.request_id },
                ),
            }
        },
        PublisherMessage::FetchPairingInbox { unverified } => {
            let rows = before.pairing.publisher_delivery(session.publisher_id, now_ms);
            match delivery_refusal(rows, unverified@) {
                Some(error) => unchanged && result == Err::<PublisherReply, SessionRefusal>(
                    ends(ServiceError::Pairing(error)),
                ),
                None => {
                    &&& touched == session.touched@
                    &&& after == (ServiceModel {
                        pairing: before.pairing.purged(now_ms),
                        ..before
                    })
                    &&& result matches Ok(PublisherReply::PairingInbox(inbox))
                    &&& inbox.requests@.len() == rows.len()
                    &&& forall|i: int|
                        0 <= i < rows.len() ==> {
                            &&& (#[trigger] inbox.requests@[i]).request@ == rows[i].request
                            &&& inbox.requests@[i].source_addr@ == rows[i].source_addr
                            &&& inbox.requests@[i].received_at_ms == rows[i].received_at_ms
                        }
                    &&& confirmations_view(inbox.confirmations@) == confirmations_of(rows)
                },
            }
        },
        PublisherMessage::Ping => unchanged && result == Ok::<PublisherReply, SessionRefusal>(
            PublisherReply::Pong { now_ms },
        ),
    }
}

/// Ends a session without a word to the peer.
fn end_session(reason: ServiceError) -> (refusal: SessionRefusal)
    ensures
        refusal == ends(reason),
{
    SessionRefusal { reply: None, reason }
}

/// Claiming a stream keeps the claims in order.
proof fn lemma_claim(service: ServiceModel, touched: Seq<u128>, stream_id: u128)
    requires
        service.online.no_duplicates(),
        session_wf(service, touched),
        may_claim(service.online, touched, stream_id),
    ensures
        claimed(service.online, touched, stream_id).no_duplicates(),
        claimed(touched, touched, stream_id).no_duplicates(),
        forall|i: int|
            0 <= i < claimed(touched, touched, stream_id).len() ==> claimed(
                service.online,
                touched,
                stream_id,
            ).contains(#[trigger] claimed(touched, touched, stream_id)[i]),
{
    let online = claimed(service.online, touched, stream_id);
    let own = claimed(touched, touched, stream_id);
    assert forall|i: int| 0 <= i < own.len() implies online.contains(#[trigger] own[i]) by {
        if i < touched.len() {
            assert(service.online.contains(touched[i]));
            let k = choose|k: int|
                0 <= k < service.online.len() && service.online[k] == touched[i];
            assert(online[k] == own[i]);
        } else {
            assert(online[online.len() - 1] == own[i]);
        }
    }
}

impl NativeRelayService {
    /// Admits a publisher: the session that its messages belong to.
    pub fn publisher_session(&self, identity: IdentityPublic, admission: NativeAdmission) -> (result:
        Result<PublisherSession, SessionRefusal>)
        ensures
            match identity.fingerprint {
                Some(publisher_id) => result matches Ok(session) && session.identity == identity
                    && session.publisher_id == publisher_id && session.admission == admission
                    && session.touched@ == Seq::<u128>::empty() && session_wf(
                    self@,
                    session.touched@,
                ),
                None => result == Err::<PublisherSession, SessionRefusal>(
                    ends(ServiceError::Unidentified),
                ),
            },
    {
        match identity.fingerprint {
            Some(publisher_id) => Ok(
                PublisherSession { identity, publisher_id, admission, touched: Vec::new() },
            ),
            None => Err(end_session(ServiceError::Unidentified)),
        }
    }

    /// Claims a stream for a session. A stream has one publishing session at a time.
    fn claim_online(&mut self, stream_id: u128, touched: &mut Vec<u128>) -> (result: Result<
        (),
        ServiceError,
    >)
        requires
            old(self)@.wf(),
            session_wf(old(self)@, old(touched)@),
        ensures
            final(self)@.wf(),
            session_wf(final(self)@, final(touched)@),
            final(self).policy() == old(self).policy(),
            final(self).transport_key() == old(self).transport_key(),
            final(self).bounds() == old(self).bounds(),
            if may_claim(old(self)@.online, old(touched)@, stream_id) {
                &&& result is Ok
                &&& final(touched)@ == claimed(old(touched)@, old(touched)@, stream_id)
                &&& final(self)@ == (ServiceModel {
                    online: claimed(old(self)@.online, old(touched)@, stream_id),
                    ..old(self)@
                })
            } else {
                &&& result == Err::<(), ServiceError>(ServiceError::StreamBusy)
                &&& final(touched)@ == old(touched)@
                &&& final(self)@ == old(self)@
            },
    {
        if contains_stream(touched, stream_id) {
            return Ok(());
        }
        if contains_stream(&self.online, stream_id) {
            return Err(ServiceError::StreamBusy);
        }
        proof {
            lemma_claim(self@, touched@, stream_id);
        }
        self.online.push(stream_id);
        touched.push(stream_id);
        Ok(())
    }

    /// Resumes a publisher's streams.
    fn resume(&mut self, session: &mut PublisherSession, streams: &Vec<u128>) -> (result: Result<
        Vec<RelayResumeStream>,
        ServiceError,
    >)
        requires
            old(self)@.wf(),
            session_wf(old(self)@, old(session).touched@),
        ensures
            final(self)@.wf(),
            session_wf(final(self)@, final(session).touched@),
            final(self).policy() == old(self).policy(),
            final(self).transport_key() == old(self).transport_key(),
            final(self).bounds() == old(self).bounds(),
            final(session).identity == old(session).identity,
            final(session).publisher_id == old(session).publisher_id,
            final(session).admission == old(session).admission,
            ({
                let progress = resume_progress(
                    old(self)@,
                    old(session).identity,
                    old(session).touched@,
                    streams@,
                );
                &&& final(self)@ == (ServiceModel { online: progress.online, ..old(self)@ })
                &&& final(session).touched@ == progress.touched
                &&& match progress.failed {
                    Some(error) => result == Err::<Vec<RelayResumeStream>, ServiceError>(error),
                    None => result matches Ok(states) && states@ == progress.states,
                }
            }),
    {
        let ghost before = self@;
        let ghost touched = session.touched@;
        let mut states: Vec<RelayResumeStream> = Vec::new();
        let mut i: usize = 0;
        assert(streams@.take(0) =~= Seq::<u128>::empty());
        while i < streams.len()
            invariant
                before == old(self)@,
                touched == old(session).touched@,
                before.wf(),
                self@.wf(),
                session_wf(self@, session.touched@),
                self.policy() == old(self).policy(),
                self.transport_key() == old(self).transport_key(),
                self.bounds() == old(self).bounds(),
                session.identity == old(session).identity,
                session.publisher_id == old(session).publisher_id,
                session.admission == old(session).admission,
                i <= streams@.len(),
                ({
                    let progress = resume_progress(
                        before,
                        old(session).identity,
                        touched,
                        streams@.take(i as int),
                    );
                    &&& progress.failed is None
                    &&& self@ == (ServiceModel { online: progress.online, ..before })
                    &&& session.touched@ == progress.touched
                    &&& states@ == progress.states
                }),
            decreases streams@.len() - i,
        {
            let stream_id: u128 = streams[i];
            assert(streams@.take(i + 1).drop_last() =~= streams@.take(i as int));
            let described = self.store.descriptor(stream_id);
            if let Some(descriptor) = &described {
                if !descriptor.publisher.same(&session.identity) {
                    proof {
                        lemma_resume_failed(before, session.identity, touched, streams@, i + 1);
                    }
                    return Err(ServiceError::IdentityMismatch);
                }
            }
            match self.claim_online(stream_id, &mut session.touched) {
                Ok(_) => {},
                Err(error) => {
                    proof {
                        lemma_resume_failed(before, session.identity, touched, streams@, i + 1);
                    }
                    return Err(error);
                },
            }
            let committed_through: u64 = match self.store.high_water(stream_id) {
                Some(high_water) => high_water,
                None => 0,
            };
            states.push(RelayResumeStream { stream_id, committed_through });
            i += 1;
        }
        assert(streams@.take(i as int) =~= streams@);
        Ok(states)
    }

    /// Takes one message of an admitted publisher.
    ///
    /// Where the answer acknowledges something, that has to be durable before it is sent.
    pub fn publisher_message(
        &mut self,
        session: &mut PublisherSession,
        message: &PublisherMessage,
        now_ms: i64,
    ) -> (result: Result<PublisherReply, SessionRefusal>)
        requires
            old(self)@.wf(),
            session_wf(old(self)@, old(session).touched@),
            old(session).identity.fingerprint == Some(old(session).publisher_id),
        ensures
            final(self)@.wf(),
            session_wf(final(self)@, final(session).touched@),
            final(self).policy() == old(self).policy(),
            final(self).transport_key() == old(self).transport_key(),
            final(self).bounds() == old(self).bounds(),
            final(session).identity == old(session).identity,
            final(session).publisher_id == old(session).publisher_id,
            final(session).admission == old(session).admission,
            publisher_step(
                old(self)@,
                *old(session),
                *message,
                now_ms,
                final(self)@,
                final(session).touched@,
                result,
            ),
    {
        match message {
            PublisherMessage::Hello => Err(
                SessionRefusal {
                    reply: Some(RelayErrorCode::ProtocolViolation),
                    reason: ServiceError::DuplicateHello,
                },
            ),
            PublisherMessage::Resume { publisher_id, streams } => {
                if !id_equal(publisher_id, &session.publisher_id) {
                    return Err(end_session(ServiceError::IdentityMismatch));
                }
                match self.resume(session, streams) {
                    Ok(states) => Ok(PublisherReply::ResumeState(states)),
                    Err(error) => Err(end_session(error)),
                }
            },
            PublisherMessage::Descriptor(descriptor) => {
                if !descriptor.publisher.same(&session.identity) {
                    return Err(end_session(ServiceError::IdentityMismatch));
                }
                if let Err(error) = self.claim_online(descriptor.stream_id, &mut session.touched) {
                    return Err(end_session(error));
                }
                match self.store.put_descriptor(descriptor) {
                    Ok(_) => Ok(PublisherReply::Nothing),
                    Err(error) => Err(end_session(ServiceError::Store(error))),
                }
            },
            PublisherMessage::Object(object) => {
                if !id_equal(&object.header.publisher_id, &session.publisher_id) {
                    return Err(end_session(ServiceError::IdentityMismatch));
                }
                let stream_id: u128 = object.header.stream_id;
                if let Err(error) = self.claim_online(stream_id, &mut session.touched) {
                    return Err(end_session(error));
                }
                match self.store.store_object(object, now_ms) {
                    Ok(commit) => Ok(
                        PublisherReply::PublishAck {
                            stream_id,
                            committed_through: commit.committed_through,
                            broadcast: commit.inserted,
                        },
                    ),
                    Err(error) => Err(end_session(ServiceError::Store(error))),
                }
            },
            PublisherMessage::KeyEnvelope(envelope) => {
                if !id_equal(&envelope.header.publisher_id, &session.publisher_id) {
                    return Err(end_session(ServiceError::IdentityMismatch));
                }
                match self.store.store_envelope(envelope, now_ms) {
                    Ok(inserted) => Ok(PublisherReply::EnvelopeStored { broadcast: inserted }),
                    Err(error) => Err(end_session(ServiceError::Store(error))),
                }
            },
            PublisherMessage::PairOffer { offer, verified } => {
                if !offer.publisher.same(&session.identity) {
                    return Err(end_session(ServiceError::IdentityMismatch));
                }
                match self.pairing.store_offer(offer, now_ms, *verified) {
                    Ok(_) => Ok(PublisherReply::PairingAck { request_id: offer.request_id }),
                    Err(error) => Err(end_session(ServiceError::Pairing(error))),
                }
            },
            PublisherMessage::PairDecision { decision, evidence } => {
                match self.pairing.store_decision(decision, now_ms, evidence) {
                    Ok(_) => Ok(PublisherReply::PairingAck { request_id: decision.request_id }),
                    Err(error) => Err(end_session(ServiceError::Pairing(error))),
                }
            },
            PublisherMessage::FetchPairingInbox { unverified } => {
                match self.pairing.publisher_inbox(&session.identity, now_ms, unverified) {
                    Ok(inbox) => Ok(PublisherReply::PairingInbox(inbox)),
                    Err(error) => Err(end_session(ServiceError::Pairing(error))),
                }
            },
            PublisherMessage::Ping => Ok(PublisherReply::Pong { now_ms }),
        }
    }
}

/// The store after a session's streams were closed one after the other.
pub open spec fn finalized_all(store: StoreModel, streams: Seq<u128>) -> StoreModel
    decreases streams.len(),
{
    if streams.len() == 0 {
        store
    } else {
        finalized_all(store, streams.drop_last()).after_finalize(streams.last())
    }
}

/// What the catalog says of one stream.
#[derive(Debug)]
pub struct CatalogEntry {
    /// The stream's descriptor.
    pub descriptor: StreamDescriptor,
    /// Whether a publisher is connected for it.
    pub publisher_online: bool,
    /// The retained complete range, if there is one.
    pub retained: Option<NativeRetainedBounds>,
}

/// A message of an admitted viewer, with what checking its signatures found. A request to
/// subscribe is answered by [`NativeRelayService::subscribe`].
#[derive(Debug)]
pub enum ViewerMessage {
    /// A second hello.
    Hello,
    /// The viewer asks which streams there are.
    Catalog,
    /// The viewer asks for a sign of life.
    Ping,
    /// The viewer asks to be let into a stream.
    PairRequest {
        /// The request.
        request: PairRequest,
        /// Network peer that the relay observed.
        source_addr: String,
        /// Whether signature and validity period hold.
        verified: bool,
    },
    /// The viewer confirms the authentication string.
    PairConfirmation {
        /// The confirmation.
        confirmation: ViewerConfirmation,
        /// Whether it verifies for the stored request and offer.
        verified: bool,
    },
    /// The viewer asks for its inbox.
    FetchInbox,
    /// The viewer asks to move a subscription, without having one.
    Reanchor,
}

/// What the relay answers a viewer.
#[derive(Debug)]
pub enum ViewerReply {
    /// The streams, in the order of their identifiers.
    Catalog(Vec<CatalogEntry>),
    /// A sign of life.
    Pong {
        /// The relay's clock.
        now_ms: i64,
    },
    /// The request is refused; the session goes on.
    Refused(RelayErrorCode),
    /// The pairing record is queued.
    PairingQueued {
        /// The request that it belongs to.
        request_id: [u8; 32],
    },
    /// The inbox: offers, decisions and envelopes, closed by its end marker.
    Inbox {
        /// Offers and decisions.
        pairing: ViewerPairingInbox,
        /// Envelopes of all streams in the order of their identifiers, newest group
        /// first.
        envelopes: Vec<KeyEnvelope>,
        /// Why the session ends after what was sent, in place of the end marker, where it
        /// does: the envelopes cannot be listed.
        failed: Option<ServiceError>,
    },
}

/// One viewer's envelopes in a run of streams, as many per stream as are delivered.
pub open spec fn inbox_envelopes(streams: Seq<StreamModel>, recipient_id: [u8; 32]) -> Seq<
    SentEnvelope,
>
    decreases streams.len(),
{
    if streams.len() == 0 {
        Seq::empty()
    } else {
        let stream = streams.last();
        let all = envelopes_for(stream.groups, recipient_id);
        let count = if all.len() < INBOX_ENVELOPES {
            all.len() as int
        } else {
            INBOX_ENVELOPES as int
        };
        inbox_envelopes(streams.drop_last(), recipient_id) + Seq::new(
            count as nat,
            |k: int| delivered_envelope(all[k], stream.publisher),
        )
    }
}

/// Envelopes as mathematical values.
pub open spec fn sent_envelopes(envelopes: Seq<KeyEnvelope>) -> Seq<SentEnvelope> {
    envelopes.map_values(|envelope: KeyEnvelope| envelope@)
}

/// Whether a catalog entry says of a stream what holds of it.
pub open spec fn catalogued(entry: CatalogEntry, stream: StreamModel, online: Seq<u128>) -> bool {
    &&& entry.descriptor.stream_id == stream.stream_id
    &&& entry.descriptor.publisher == stream.publisher
    &&& entry.descriptor.encoded@ == stream.descriptor
    &&& entry.descriptor.valid
    &&& entry.publisher_online == online.contains(stream.stream_id)
    &&& entry.retained == bounds_of(stream)
}

/// What a viewer's message makes of the service, and what is answered.
pub open spec fn viewer_step(
    before: ServiceModel,
    session: ViewerSession,
    message: ViewerMessage,
    now_ms: i64,
    after: ServiceModel,
    result: Result<ViewerReply, SessionRefusal>,
) -> bool {
    match message {
        ViewerMessage::Hello => after == before && result == Err::<ViewerReply, SessionRefusal>(
            ends(ServiceError::DuplicateHello),
        ),
        ViewerMessage::Catalog => {
            &&& after == before
            &&& result matches Ok(ViewerReply::Catalog(entries))
            &&& entries@.len() == before.store.streams.len()
            &&& forall|i: int|
                0 <= i < entries@.len() ==> catalogued(
                    #[trigger] entries@[i],
                    before.store.streams[i],
                    before.online,
                )
        },
        ViewerMessage::Ping => after == before && result == Ok::<ViewerReply, SessionRefusal>(
            ViewerReply::Pong { now_ms },
        ),
        ViewerMessage::PairRequest { request, source_addr, verified } => if request.viewer
            != session.identity {
            after == before && result == Err::<ViewerReply, SessionRefusal>(
                ends(ServiceError::IdentityMismatch),
            )
        } else if !(before.store.stream(request.stream_id) matches Some(stream)
            && stream.publisher == request.publisher) {
            after == before && result == Ok::<ViewerReply, SessionRefusal>(
                ViewerReply::Refused(RelayErrorCode::NotFound),
            )
        } else if request.request_id is None {
            after == before && result == Err::<ViewerReply, SessionRefusal>(
                ends(ServiceError::Unidentified),
            )
        } else {
            &&& after.store == before.store
            &&& after.online == before.online
            &&& before.pairing.enqueues(
                request@,
                source_addr@,
                now_ms,
                verified,
                after.pairing,
            )
            &&& result == match before.pairing.request_refusal(
                request@,
                source_addr@,
                now_ms,
                verified,
            ) {
                Some(error) => Err::<ViewerReply, SessionRefusal>(
                    ends(ServiceError::Pairing(error)),
                ),
                None => Ok::<ViewerReply, SessionRefusal>(
                    ViewerReply::PairingQueued { request_id: request.request_id->0 },
                ),
            }
        },
        ViewerMessage::PairConfirmation { confirmation, verified } => match session.identity.fingerprint {
            None => after == before && result == Err::<ViewerReply, SessionRefusal>(
                ends(ServiceError::Unidentified),
            ),
            Some(viewer_id) => if confirmation.viewer_id != viewer_id {
                after == before && result == Err::<ViewerReply, SessionRefusal>(
                    ends(ServiceError::IdentityMismatch),
                )
            } else {
                &&& after == (ServiceModel {
                    pairing: before.pairing.after_confirmation(confirmation@, now_ms, verified),
                    ..before
                })
                &&& result == match before.pairing.confirmation_refusal(
                    confirmation@,
                    now_ms,
                    verified,
                ) {
                    Some(error) => Err::<ViewerReply, SessionRefusal>(
                        ends(ServiceError::Pairing(error)),
                    ),
                    None => Ok::<ViewerReply, SessionRefusal>(
                        ViewerReply::PairingQueued { request_id: confirmation.request_id },
                    ),
                }
            },
        },
        ViewerMessage::FetchInbox => match session.identity.fingerprint {
            None => after == before && result == Err::<ViewerReply, SessionRefusal>(
                ends(ServiceError::Pairing(PairingError::Unidentified)),
            ),
            Some(viewer_id) => {
                let rows = before.pairing.viewer_delivery(viewer_id, now_ms);
                &&& after == (ServiceModel { pairing: before.pairing.purged(now_ms), ..before })
                &&& result matches Ok(ViewerReply::Inbox { pairing, envelopes, failed })
                &&& offers_view(pairing.offers@) == offers_of(rows)
                &&& decisions_view(pairing.decisions@) == decisions_of(rows)
                &&& if is_zero(viewer_id) && before.store.streams.len() > 0 {
                    envelopes@.len() == 0 && failed == Some(
                        ServiceError::Store(StoreError::InvalidRequest),
                    )
                } else {
                    sent_envelopes(envelopes@) == inbox_envelopes(before.store.streams, viewer_id)
                        && failed is None
                }
            },
        },
        ViewerMessage::Reanchor => after == before && result == Ok::<ViewerReply, SessionRefusal>(
            ViewerReply::Refused(RelayErrorCode::ProtocolViolation),
        ),
    }
}

impl NativeRelayService {
    /// Ends a publisher session: its streams are closed and free to be claimed again.
    pub fn close_publisher(&mut self, session: PublisherSession)
        requires
            old(self)@.wf(),
            session_wf(old(self)@, session.touched@),
        ensures
            final(self)@.wf(),
            final(self).policy() == old(self).policy(),
            final(self).transport_key() == old(self).transport_key(),
            final(self).bounds() == old(self).bounds(),
            final(self)@.store == finalized_all(old(self)@.store, session.touched@),
            final(self)@.pairing == old(self)@.pairing,
            forall|stream_id: u128|
                #![trigger final(self)@.online.contains(stream_id)]
                final(self)@.online.contains(stream_id) <==> old(self)@.online.contains(stream_id)
                    && !session.touched@.contains(stream_id),
    {
        let ghost before = self@;
        let touched = session.touched;
        let mut i: usize = 0;
        assert(touched@.take(0) =~= Seq::<u128>::empty());
        while i < touched.len()
            invariant
                i <= touched@.len(),
                self@.wf(),
                self.policy() == old(self).policy(),
                self.transport_key() == old(self).transport_key(),
                self.bounds() == old(self).bounds(),
                self@ == (ServiceModel {
                    store: finalized_all(before.store, touched@.take(i as int)),
                    ..before
                }),
            decreases touched@.len() - i,
        {
            assert(touched@.take(i + 1).drop_last() =~= touched@.take(i as int));
            let _ = self.store.finalize_stream(touched[i]);
            i += 1;
        }
        assert(touched@.take(i as int) =~= touched@);
        let mut k: usize = 0;
        while k < self.online.len()
            invariant
                k <= self.online@.len(),
                self.policy() == old(self).policy(),
                self.transport_key() == old(self).transport_key(),
                self.bounds() == old(self).bounds(),
                self@.wf(),
                self@.store == finalized_all(before.store, touched@),
                self@.pairing == before.pairing,
                forall|j: int| 0 <= j < k ==> !touched@.contains(#[trigger] self.online@[j]),
                forall|j: int|
                    0 <= j < self.online@.len() ==> before.online.contains(
                        #[trigger] self.online@[j],
                    ),
                forall|stream_id: u128|
                    before.online.contains(stream_id) && !touched@.contains(stream_id)
                        ==> #[trigger] self.online@.contains(stream_id),
            decreases self.online@.len() - k,
        {
            if contains_stream(&touched, self.online[k]) {
                let ghost online = self.online@;
                self.online.remove(k);
                proof {
                    assert(self.online@ =~= online.remove(k as int));
                    assert(self.online@.no_duplicates()) by {
                        assert forall|a: int, b: int|
                            0 <= a < b < self.online@.len() implies self.online@[a]
                            != self.online@[b] by {
                            let x = if a < k {
                                a
                            } else {
                                a + 1
                            };
                            let y = if b < k {
                                b
                            } else {
                                b + 1
                            };
                            assert(self.online@[a] == online[x] && self.online@[b] == online[y]);
                        }
                    }
                    assert forall|j: int| 0 <= j < self.online@.len() implies
                        before.online.contains(#[trigger] self.online@[j]) by {
                        let x = if j < k {
                            j
                        } else {
                            j + 1
                        };
                        assert(self.online@[j] == online[x]);
                    }
                    assert forall|stream_id: u128|
                        before.online.contains(stream_id) && !touched@.contains(
                            stream_id,
                        ) implies #[trigger] self.online@.contains(stream_id) by {
                        assert(online.contains(stream_id));
                        let j = choose|j: int| 0 <= j < online.len() && online[j] == stream_id;
                        let x = if j < k {
                            j
                        } else {
                            j - 1
                        };
                        assert(self.online@[x] == stream_id);
                    }
                }
            } else {
                k += 1;
            }
        }
    }

    /// The streams that there are, in the order of their identifiers.
    fn catalog(&self) -> (entries: Vec<CatalogEntry>)
        requires
            self@.wf(),
        ensures
            entries@.len() == self@.store.streams.len(),
            forall|i: int|
                0 <= i < entries@.len() ==> catalogued(
                    #[trigger] entries@[i],
                    self@.store.streams[i],
                    self@.online,
                ),
    {
        let summaries = self.store.summaries();
        let mut entries: Vec<CatalogEntry> = Vec::new();
        let mut i: usize = 0;
        while i < summaries.len()
            invariant
                self@.wf(),
                i <= summaries@.len(),
                summaries@.len() == self@.store.streams.len(),
                forall|k: int|
                    0 <= k < summaries@.len() ==> (#[trigger] summaries@[k]) == (
                        self@.store.streams[k].stream_id,
                        summary_of(self@.store.streams[k]),
                    ),
                entries@.len() == i,
                forall|k: int|
                    0 <= k < i ==> catalogued(
                        #[trigger] entries@[k],
                        self@.store.streams[k],
                        self@.online,
                    ),
            decreases summaries@.len() - i,
        {
            let (stream_id, summary) = summaries[i];
            assert(summaries@[i as int] == (stream_id, summary));
            proof {
                lemma_find(self@.store, stream_id, i as int);
            }
            if let Some(descriptor) = self.store.descriptor(stream_id) {
                entries.push(
                    CatalogEntry {
                        descriptor,
                        publisher_online: contains_stream(&self.online, stream_id),
                        retained: summary.retained,
                    },
                );
            }
            i += 1;
        }
        entries
    }

    /// One viewer's envelopes of all streams.
    fn envelopes_of(&self, recipient_id: [u8; 32]) -> (result: Result<Vec<KeyEnvelope>, StoreError>)
        requires
            self@.wf(),
        ensures
            if is_zero(recipient_id) && self@.store.streams.len() > 0 {
                result matches Err(StoreError::InvalidRequest)
            } else {
                result matches Ok(envelopes) && sent_envelopes(envelopes@) == inbox_envelopes(
                    self@.store.streams,
                    recipient_id,
                )
            },
    {
        let summaries = self.store.summaries();
        let ghost streams = self@.store.streams;
        let mut envelopes: Vec<KeyEnvelope> = Vec::new();
        let mut i: usize = 0;
        assert(sent_envelopes(envelopes@) =~= inbox_envelopes(streams.take(0), recipient_id));
        while i < summaries.len()
            invariant
                self@.wf(),
                streams == self@.store.streams,
                i <= summaries@.len(),
                summaries@.len() == streams.len(),
                forall|k: int|
                    0 <= k < summaries@.len() ==> (#[trigger] summaries@[k]) == (
                        streams[k].stream_id,
                        summary_of(streams[k]),
                    ),
                i > 0 ==> !is_zero(recipient_id),
                sent_envelopes(envelopes@) == inbox_envelopes(
                    streams.take(i as int),
                    recipient_id,
                ),
            decreases summaries@.len() - i,
        {
            let (stream_id, summary) = summaries[i];
            assert(summaries@[i as int] == (stream_id, summary));
            proof {
                lemma_find(self@.store, stream_id, i as int);
                assert(streams.take(i + 1).drop_last() =~= streams.take(i as int));
                assert(streams.take(i + 1).last() == streams[i as int]);
            }
            match self.store.list_envelopes(stream_id, recipient_id, INBOX_ENVELOPES) {
                Ok(listed) => {
                    let mut listed = listed;
                    let ghost earlier = envelopes@;
                    let ghost added = listed@;
                    envelopes.append(&mut listed);
                    proof {
                        let stream = streams[i as int];
                        let all = envelopes_for(stream.groups, recipient_id);
                        let given = Seq::new(
                            added.len(),
                            |k: int| delivered_envelope(all[k], stream.publisher),
                        );
                        assert(sent_envelopes(envelopes@) =~= sent_envelopes(earlier) + given);
                    }
                },
                Err(error) => {
                    return Err(error);
                },
            }
            i += 1;
        }
        assert(streams.take(i as int) =~= streams);
        Ok(envelopes)
    }

    /// Takes one message of an admitted viewer, other than a request to subscribe.
    pub fn viewer_message(
        &mut self,
        session: &ViewerSession,
        message: &ViewerMessage,
        now_ms: i64,
    ) -> (result: Result<ViewerReply, SessionRefusal>)
        requires
            old(self)@.wf(),
        ensures
            final(self)@.wf(),
            final(self).policy() == old(self).policy(),
            final(self).transport_key() == old(self).transport_key(),
            final(self).bounds() == old(self).bounds(),
            viewer_step(old(self)@, *session, *message, now_ms, final(self)@, result),
    {
        match message {
            ViewerMessage::Hello => Err(end_session(ServiceError::DuplicateHello)),
            ViewerMessage::Catalog => Ok(ViewerReply::Catalog(self.catalog())),
            ViewerMessage::Ping => Ok(ViewerReply::Pong { now_ms }),
            ViewerMessage::PairRequest { request, source_addr, verified } => {
                if !request.viewer.same(&session.identity) {
                    return Err(end_session(ServiceError::IdentityMismatch));
                }
                let published: bool = match self.store.descriptor(request.stream_id) {
                    Some(descriptor) => descriptor.publisher.same(&request.publisher),
                    None => false,
                };
                if !published {
                    return Ok(ViewerReply::Refused(RelayErrorCode::NotFound));
                }
                let request_id: [u8; 32] = match request.request_id {
                    Some(request_id) => request_id,
                    None => {
                        return Err(end_session(ServiceError::Unidentified));
                    },
                };
                match self.pairing.enqueue_request(request, source_addr, now_ms, *verified) {
                    Ok(_) => Ok(ViewerReply::PairingQueued { request_id }),
                    Err(error) => Err(end_session(ServiceError::Pairing(error))),
                }
            },
            ViewerMessage::PairConfirmation { confirmation, verified } => {
                let viewer_id: [u8; 32] = match session.identity.fingerprint {
                    Some(viewer_id) => viewer_id,
                    None => {
                        return Err(end_session(ServiceError::Unidentified));
                    },
                };
                if !id_equal(&confirmation.viewer_id, &viewer_id) {
                    return Err(end_session(ServiceError::IdentityMismatch));
                }
                match self.pairing.store_confirmation(confirmation, now_ms, *verified) {
                    Ok(_) => Ok(
                        ViewerReply::PairingQueued { request_id: confirmation.request_id },
                    ),
                    Err(error) => Err(end_session(ServiceError::Pairing(error))),
                }
            },
            ViewerMessage::FetchInbox => {
                let pairing = match self.pairing.viewer_inbox(&session.identity, now_ms) {
                    Ok(pairing) => pairing,
                    Err(error) => {
                        return Err(end_session(ServiceError::Pairing(error)));
                    },
                };
                let viewer_id: [u8; 32] = match session.identity.fingerprint {
                    Some(viewer_id) => viewer_id,
                    None => {
                        return Err(end_session(ServiceError::Unidentified));
                    },
                };
                match self.envelopes_of(viewer_id) {
                    Ok(envelopes) => Ok(ViewerReply::Inbox { pairing, envelopes, failed: None }),
                    Err(error) => Ok(
                        ViewerReply::Inbox {
                            pairing,
                            envelopes: Vec::new(),
                            failed: Some(ServiceError::Store(error)),
                        },
                    ),
                }
            },
            ViewerMessage::Reanchor => Ok(ViewerReply::Refused(RelayErrorCode::ProtocolViolation)),
        }
    }
}

} // verus!

//! Signed records as the relay and the publisher see them: the fields that decisions
//! read, the canonical bytes, and what checking the signature found.

use vstd::prelude::*;

use crate::bytes::id_equal;

verus! {

/// A peer's public application identity.
#[derive(Clone, Copy, Debug)]
pub struct IdentityPublic {
    /// Encoded public keys.
    pub keys: [u8; 64],
    /// Fingerprint of the keys; absent where they do not form a valid identity.
    pub fingerprint: Option<[u8; 32]>,
}

impl IdentityPublic {
    /// Whether two identities are the same.
    pub fn same(&self, other: &IdentityPublic) -> (same: bool)
        ensures
            same == (*self == *other),
    {
        let mut i: usize = 0;
        while i < 64
            invariant
                i <= 64,
                forall|k: int| 0 <= k < i ==> self.keys@[k] == other.keys@[k],
            decreases 64 - i,
        {
            if self.keys[i] != other.keys[i] {
                return false;
            }
            i += 1;
        }
        assert(self.keys@ =~= other.keys@);
        assert(self.keys =~= other.keys);
        match (&self.fingerprint, &other.fingerprint) {
            (Some(a), Some(b)) => id_equal(a, b),
            (None, None) => true,
            _ => false,
        }
    }
}

/// What a native object carries.
#[derive(Clone, Copy, Debug, PartialEq, Eq, Structural)]
pub enum NativeObjectKind {
    /// Codec configuration that opens a key group.
    Epoch,
    /// Encoded video.
    Media,
    /// Cursor positions and bitmaps.
    Cursor,
}

/// The signed header of a native object.
#[derive(Clone, Copy, Debug)]
pub struct NativeObjectHeader {
    /// Stream that the object belongs to.
    pub stream_id: u128,
    /// Fingerprint of the publisher.
    pub publisher_id: [u8; 32],
    /// Publication epoch.
    pub epoch_id: u128,
    /// Key group within the epoch, counted from one.
    pub key_group: u64,
    /// Identifier of the group's content key.
    pub key_id: u128,
    /// Position in the stream, counted from one.
    pub sequence: u64,
    /// Presentation time in 90 kHz ticks.
    pub timestamp: u64,
    /// What the object carries.
    pub kind: NativeObjectKind,
    /// Whether decoding can start here.
    pub random_access: bool,
}

/// One signed opaque stream object.
#[derive(Debug)]
pub struct NativeObject {
    /// Signed header.
    pub header: NativeObjectHeader,
    /// Canonical encoding of the whole object.
    pub encoded: Vec<u8>,
    /// Whether the object keeps the structural rules of its kind.
    pub shape_valid: bool,
    /// Identity under which the signature verifies, if any.
    pub signer: Option<IdentityPublic>,
}

/// The header of a key envelope.
#[derive(Clone, Copy, Debug)]
pub struct KeyEnvelopeHeader {
    /// Stream whose content key the envelope wraps.
    pub stream_id: u128,
    /// Fingerprint of the publisher.
    pub publisher_id: [u8; 32],
    /// Fingerprint of the viewer that can open the envelope.
    pub recipient_id: [u8; 32],
    /// Publication epoch.
    pub epoch_id: u128,
    /// Key group within the epoch.
    pub key_group_id: u64,
    /// Identifier of the wrapped content key.
    pub key_id: u128,
}

/// A content key wrapped for one viewer.
#[derive(Debug)]
pub struct KeyEnvelope {
    /// Signed header.
    pub header: KeyEnvelopeHeader,
    /// Canonical encoding of the whole envelope.
    pub encoded: Vec<u8>,
    /// Whether the envelope keeps the structural rules.
    pub shape_valid: bool,
    /// Identity under which the signature verifies, if any.
    pub signer: Option<IdentityPublic>,
}

/// A publisher's signed description of one stream.
#[derive(Debug)]
pub struct StreamDescriptor {
    /// Stream that is described.
    pub stream_id: u128,
    /// Publisher that owns the stream.
    pub publisher: IdentityPublic,
    /// Canonical encoding of the whole descriptor.
    pub encoded: Vec<u8>,
    /// Whether fields and signature are valid.
    pub valid: bool,
}

/// Where a viewer asks a subscription to begin.
#[derive(Clone, Copy, Debug, PartialEq, Eq, Structural)]
pub enum SubscriptionStart {
    /// With what the publisher sends next.
    Live,
    /// With the oldest complete retained group.
    OldestRetained,
    /// With the group that holds a sequence.
    Sequence(u64),
    /// With the group that holds a timestamp.
    Timestamp(u64),
}

/// A viewer's signed request to be let into a stream.
#[derive(Debug)]
pub struct PairRequest {
    /// Fingerprint of the request; absent where it cannot be computed.
    pub request_id: Option<[u8; 32]>,
    /// Publisher that is asked.
    pub publisher: IdentityPublic,
    /// Viewer that asks.
    pub viewer: IdentityPublic,
    /// Stream that access is asked for.
    pub stream_id: u128,
    /// Name of the viewer's device.
    pub device_label: String,
    /// Time of signing, Unix milliseconds.
    pub issued_at_ms: i64,
    /// Exclusive end of validity, Unix milliseconds.
    pub expires_at_ms: i64,
    /// Whether the viewer attached a credential.
    pub has_credential: bool,
    /// Canonical encoding of the whole request.
    pub encoded: Vec<u8>,
}

/// A pair request as a mathematical value.
#[verifier::ext_equal]
pub struct PairRequestModel {
    /// Fingerprint of the request.
    pub request_id: Option<[u8; 32]>,
    /// Publisher that is asked.
    pub publisher: IdentityPublic,
    /// Viewer that asks.
    pub viewer: IdentityPublic,
    /// Stream that access is asked for.
    pub stream_id: u128,
    /// Name of the viewer's device.
    pub device_label: Seq<char>,
    /// Time of signing.
    pub issued_at_ms: i64,
    /// Exclusive end of validity.
    pub expires_at_ms: i64,
    /// Whether the viewer attached a credential.
    pub has_credential: bool,
    /// Canonical encoding.
    pub encoded: Seq<u8>,
}

impl View for PairRequest {
    type V = PairRequestModel;

    open spec fn view(&self) -> PairRequestModel {
        PairRequestModel {
            request_id: self.request_id,
            publisher: self.publisher,
            viewer: self.viewer,
            stream_id: self.stream_id,
            device_label: self.device_label@,
            issued_at_ms: self.issued_at_ms,
            expires_at_ms: self.expires_at_ms,
            has_credential: self.has_credential,
            encoded: self.encoded@,
        }
    }
}

impl PairRequest {
    /// An equal request.
    pub fn duplicate(&self) -> (copy: PairRequest)
        ensures
            copy@ == self@,
    {
        PairRequest {
            request_id: self.request_id,
            publisher: self.publisher,
            viewer: self.viewer,
            stream_id: self.stream_id,
            device_label: self.device_label.clone(),
            issued_at_ms: self.issued_at_ms,
            expires_at_ms: self.expires_at_ms,
            has_credential: self.has_credential,
            encoded: self.encoded.clone(),
        }
    }
}

/// A publisher's signed offer to verify a viewer.
#[derive(Debug)]
pub struct PairOffer {
    /// Request that is answered.
    pub request_id: [u8; 32],
    /// Publisher that answers.
    pub publisher: IdentityPublic,
    /// Canonical encoding of the whole offer.
    pub encoded: Vec<u8>,
}

/// A pair offer as a mathematical value.
#[verifier::ext_equal]
pub struct PairOfferModel {
    /// Request that is answered.
    pub request_id: [u8; 32],
    /// Publisher that answers.
    pub publisher: IdentityPublic,
    /// Canonical encoding.
    pub encoded: Seq<u8>,
}

impl View for PairOffer {
    type V = PairOfferModel;

    open spec fn view(&self) -> PairOfferModel {
        PairOfferModel {
            request_id: self.request_id,
            publisher: self.publisher,
            encoded: self.encoded@,
        }
    }
}

impl PairOffer {
    /// An equal offer.
    pub fn duplicate(&self) -> (copy: PairOffer)
        ensures
            copy@ == self@,
    {
        PairOffer {
            request_id: self.request_id,
            publisher: self.publisher,
            encoded: self.encoded.clone(),
        }
    }
}

/// A viewer's signed confirmation of the authentication string.
#[derive(Debug)]
pub struct ViewerConfirmation {
    /// Request that is confirmed.
    pub request_id: [u8; 32],
    /// Viewer that confirms.
    pub viewer_id: [u8; 32],
    /// Canonical encoding of the whole confirmation.
    pub encoded: Vec<u8>,
}

/// A confirmation as a mathematical value.
#[verifier::ext_equal]
pub struct ViewerConfirmationModel {
    /// Request that is confirmed.
    pub request_id: [u8; 32],
    /// Viewer that confirms.
    pub viewer_id: [u8; 32],
    /// Canonical encoding.
    pub encoded: Seq<u8>,
}

impl View for ViewerConfirmation {
    type V = ViewerConfirmationModel;

    open spec fn view(&self) -> ViewerConfirmationModel {
        ViewerConfirmationModel {
            request_id: self.request_id,
            viewer_id: self.viewer_id,
            encoded: self.encoded@,
        }
    }
}

impl ViewerConfirmation {
    /// An equal confirmation.
    pub fn duplicate(&self) -> (copy: ViewerConfirmation)
        ensures
            copy@ == self@,
    {
        ViewerConfirmation {
            request_id: self.request_id,
            viewer_id: self.viewer_id,
            encoded: self.encoded.clone(),
        }
    }
}

/// Why a publisher decided as it did.
#[derive(Clone, Copy, Debug, PartialEq, Eq, Structural)]
pub enum PairDecisionReason {
    /// Both sides compared the authentication string.
    ManualVerified,
    /// A trusted authority vouches for the viewer.
    TrustedViewerCa,
    /// The publisher lets everyone in.
    OpenPolicy,
    /// The publisher turned the viewer away.
    Rejected,
}

/// A publisher's signed final decision on a request.
#[derive(Debug)]
pub struct PublisherDecision {
    /// Request that is decided.
    pub request_id: [u8; 32],
    /// Why.
    pub reason: PairDecisionReason,
    /// Hash of the ceremony that the decision refers to.
    pub transcript_hash: [u8; 32],
    /// Canonical encoding of the whole decision.
    pub encoded: Vec<u8>,
}

/// A decision as a mathematical value.
#[verifier::ext_equal]
pub struct PublisherDecisionModel {
    /// Request that is decided.
    pub request_id: [u8; 32],
    /// Why.
    pub reason: PairDecisionReason,
    /// Hash of the ceremony that the decision refers to.
    pub transcript_hash: [u8; 32],
    /// Canonical encoding.
    pub encoded: Seq<u8>,
}

impl View for PublisherDecision {
    type V = PublisherDecisionModel;

    open spec fn view(&self) -> PublisherDecisionModel {
        PublisherDecisionModel {
            request_id: self.request_id,
            reason: self.reason,
            transcript_hash: self.transcript_hash,
            encoded: self.encoded@,
        }
    }
}

impl PublisherDecision {
    /// An equal decision.
    pub fn duplicate(&self) -> (copy: PublisherDecision)
        ensures
            copy@ == self@,
    {
        PublisherDecision {
            request_id: self.request_id,
            reason: self.reason,
            transcript_hash: self.transcript_hash,
            encoded: self.encoded.clone(),
        }
    }
}

} // verus!

//! What a publisher's approval state is and what each operation makes of it.

use vstd::prelude::*;

use crate::bytes::id_order;
use crate::order::{ascending, first_where, kept_where, stable_sorted};
use crate::records::{
    IdentityPublic,
    PairDecisionReason,
    PairOfferModel,
    PairRequestModel,
    PublisherDecisionModel,
    ViewerConfirmationModel,
};
use crate::text::{begins_with, hex_text, is_hex_prefix, lowered};

verus! {

/// Records of one sort that a state may hold.
pub const MAX_STATE_RECORDS: usize = 65_536;

/// Bytes that an encoded state may have.
pub const MAX_STATE_BYTES: usize = 4_194_304;

/// Version of the state file.
pub const STATE_VERSION: u16 = 3;

/// How long a pairing ceremony may take.
pub const PAIR_LIFETIME_MS: i64 = 86_400_000;

/// Why an operation on the approval state fails.
#[derive(Clone, Copy, Debug, PartialEq, Eq, Structural)]
pub enum AdminError {
    /// A request's signature or lifetime is not valid.
    RequestInvalid,
    /// The viewer's keys do not form an identity.
    ViewerInvalid,
    /// An answer could not be signed.
    SigningFailed,
    /// The viewer is permanently revoked for the stream.
    PermanentlyRevoked,
    /// Another decision on the same request is queued already.
    ConflictingDecision,
    /// A confirmation does not fit its request and offer.
    ConfirmationInvalid,
    /// The viewer has not confirmed the authentication string.
    NotConfirmed,
    /// An identifier prefix must be hexadecimal.
    PrefixNotHex,
    /// Nothing has an identifier with the prefix.
    NoMatch,
    /// More than one has an identifier with the prefix.
    Ambiguous,
    /// Bounds, order or references of a state are not valid.
    StateInvalid,
    /// A stored state is not in its one canonical form.
    StateNotCanonical,
    /// An encoded state is too large.
    StateTooLarge,
    /// A queued offer has no pending request.
    OfferLost,
    /// The relay refused what was sent.
    Refused,
    /// The relay answered something else.
    UnexpectedReply,
    /// The policy needs an authority.
    AuthorityMissing,
    /// The list of revoked credentials is not valid.
    RevocationsInvalid,
}

/// How viewers are approved.
#[derive(Clone, Copy, Debug, PartialEq, Eq, Structural)]
pub enum ViewerPolicy {
    /// By hand, after both sides compared the authentication string.
    Required,
    /// Everyone is.
    Open,
    /// Those that a trusted authority vouches for.
    TrustedCa,
}

/// A policy with what it needs.
#[derive(Clone, Copy, Debug, PartialEq, Eq, Structural)]
pub struct ApprovalPolicy {
    /// How viewers are approved.
    pub mode: ViewerPolicy,
    /// Whether there is a trusted authority.
    pub has_authority: bool,
}

/// Access of one viewer to one stream.
#[derive(Clone, Copy, Debug)]
pub struct StreamGrant {
    /// The stream.
    pub stream_id: u128,
    /// The viewer.
    pub viewer: IdentityPublic,
}

/// Access that was taken away for good.
#[derive(Clone, Copy, Debug)]
pub struct RevokedGrant {
    /// The stream.
    pub stream_id: u128,
    /// The viewer.
    pub viewer_id: [u8; 32],
}

/// A request that waits for a decision.
#[verifier::ext_equal]
pub struct PendingModel {
    /// The viewer's request.
    pub request: PairRequestModel,
    /// The publisher's offer.
    pub offer: PairOfferModel,
    /// The viewer's confirmation.
    pub confirmation: Option<ViewerConfirmationModel>,
    /// Network peer that the relay saw.
    pub source_addr: Seq<char>,
}

/// A publisher's approval state.
#[verifier::ext_equal]
pub struct AdminModel {
    /// Requests that wait for a decision.
    pub pending: Seq<PendingModel>,
    /// Access that is granted.
    pub approved: Seq<StreamGrant>,
    /// Access that was taken away.
    pub revoked: Seq<RevokedGrant>,
    /// Requests whose offer the relay has not acknowledged.
    pub offer_outbox: Seq<[u8; 32]>,
    /// Decisions that the relay has not acknowledged.
    pub decision_outbox: Seq<PublisherDecisionModel>,
    /// Grants whose viewers have not been sent the kept keys.
    pub history_outbox: Seq<StreamGrant>,
}

/// A request from the relay's inbox with what was found of it.
#[verifier::ext_equal]
pub struct IncomingModel {
    /// The request.
    pub request: PairRequestModel,
    /// Network peer that the relay saw.
    pub source_addr: Seq<char>,
    /// Whether its signature and lifetime are valid.
    pub verified: bool,
    /// Whether the trusted authority vouches for its credential.
    pub credential_verified: bool,
    /// The signed approval, where one could be signed.
    pub decision: Option<PublisherDecisionModel>,
    /// The signed offer, where one could be signed.
    pub offer: Option<PairOfferModel>,
}

/// A confirmation from the relay's inbox.
#[verifier::ext_equal]
pub struct CheckedConfirmationModel {
    /// The confirmation.
    pub confirmation: ViewerConfirmationModel,
    /// Whether it fits its request and offer.
    pub verified: bool,
}

/// What becomes of a request.
#[derive(Clone, Copy, Debug, PartialEq, Eq, Structural)]
pub enum RequestAction {
    /// It is passed over.
    Skip,
    /// It is approved by policy.
    Approve(PairDecisionReason),
    /// It is offered verification and waits.
    Offer,
}

/// The rank of an identity that may be absent.
pub open spec fn print_rank(print: Option<[u8; 32]>) -> nat {
    match print {
        Some(id) => id_order(id),
        None => 0,
    }
}

/// Grants by stream and viewer.
pub open spec fn grants() -> spec_fn(StreamGrant, StreamGrant) -> bool {
    |a: StreamGrant, b: StreamGrant|
        a.stream_id < b.stream_id || a.stream_id == b.stream_id && print_rank(a.viewer.fingerprint)
            <= print_rank(b.viewer.fingerprint)
}

/// Revoked grants by stream and viewer.
pub open spec fn revocations() -> spec_fn(RevokedGrant, RevokedGrant) -> bool {
    |a: RevokedGrant, b: RevokedGrant|
        a.stream_id < b.stream_id || a.stream_id == b.stream_id && id_order(a.viewer_id)
            <= id_order(b.viewer_id)
}

/// Identifiers by value.
pub open spec fn ids() -> spec_fn([u8; 32], [u8; 32]) -> bool {
    |a: [u8; 32], b: [u8; 32]| id_order(a) <= id_order(b)
}

/// Decisions by request.
pub open spec fn decisions() -> spec_fn(PublisherDecisionModel, PublisherDecisionModel) -> bool {
    |a: PublisherDecisionModel, b: PublisherDecisionModel|
        id_order(a.request_id) <= id_order(b.request_id)
}

/// Pending requests by identifier.
pub open spec fn pendings() -> spec_fn(PendingModel, PendingModel) -> bool {
    |a: PendingModel, b: PendingModel|
        print_rank(a.request.request_id) <= print_rank(b.request.request_id)
}

/// A pending request with some identifier.
pub open spec fn pending_id(id: [u8; 32]) -> spec_fn(PendingModel) -> bool {
    |pending: PendingModel| pending.request.request_id == Some(id)
}

/// A decision on some request.
pub open spec fn decision_on(id: [u8; 32]) -> spec_fn(PublisherDecisionModel) -> bool {
    |decision: PublisherDecisionModel| decision.request_id == id
}

/// Any identifier but one.
pub open spec fn id_other_than(id: [u8; 32]) -> spec_fn([u8; 32]) -> bool {
    |other: [u8; 32]| other != id
}

/// Any grant but those of one viewer on one stream.
pub open spec fn grant_other_than(stream_id: u128, viewer: Option<[u8; 32]>) -> spec_fn(
    StreamGrant,
) -> bool {
    |grant: StreamGrant| grant.stream_id != stream_id || grant.viewer.fingerprint != viewer
}

/// A grant of one viewer on one stream.
pub open spec fn is_grant_of(grant: StreamGrant, stream_id: u128, viewer_id: [u8; 32]) -> bool {
    grant.stream_id == stream_id && grant.viewer.fingerprint == Some(viewer_id)
}

/// A value that begins with a prefix.
pub open spec fn has_prefix(prefix: Seq<char>) -> spec_fn(Option<Seq<char>>) -> bool {
    |value: Option<Seq<char>>| value matches Some(text) && begins_with(text, lowered(prefix))
}

/// The one value that begins with a hexadecimal prefix.
pub open spec fn unique_match(values: Seq<Option<Seq<char>>>, prefix: Seq<char>) -> Result<
    int,
    AdminError,
> {
    let found = kept_where(values, has_prefix(prefix)).len();
    if !is_hex_prefix(prefix) {
        Err(AdminError::PrefixNotHex)
    } else if found == 0 {
        Err(AdminError::NoMatch)
    } else if found > 1 {
        Err(AdminError::Ambiguous)
    } else {
        Ok(first_where(values, has_prefix(prefix)))
    }
}

/// An identifier as text.
pub open spec fn id_name(print: Option<[u8; 32]>) -> Option<Seq<char>> {
    match print {
        Some(id) => Some(hex_text(id@)),
        None => None,
    }
}

/// The identifiers of pending requests as text.
pub open spec fn request_names(pending: Seq<PendingModel>) -> Seq<Option<Seq<char>>> {
    Seq::new(pending.len(), |i: int| id_name(pending[i].request.request_id))
}

/// The viewers of a stream's grants as text.
pub open spec fn grant_names(approved: Seq<StreamGrant>, stream_id: u128) -> Seq<
    Option<Seq<char>>,
> {
    Seq::new(
        approved.len(),
        |i: int|
            if approved[i].stream_id == stream_id {
                id_name(approved[i].viewer.fingerprint)
            } else {
                None
            },
    )
}

impl AdminModel {
    /// A state with nothing in it.
    pub open spec fn initial() -> AdminModel {
        AdminModel {
            pending: Seq::empty(),
            approved: Seq::empty(),
            revoked: Seq::empty(),
            offer_outbox: Seq::empty(),
            decision_outbox: Seq::empty(),
            history_outbox: Seq::empty(),
        }
    }

    /// Whether a request waits for a decision.
    pub open spec fn is_pending(self, id: [u8; 32]) -> bool {
        exists|i: int|
            0 <= i < self.pending.len() && (#[trigger] self.pending[i]).request.request_id == Some(
                id,
            )
    }

    /// Whether access was taken away.
    pub open spec fn is_revoked(self, stream_id: u128, viewer_id: [u8; 32]) -> bool {
        self.revoked.contains(RevokedGrant { stream_id, viewer_id })
    }

    /// Whether access is granted.
    pub open spec fn is_approved(self, stream_id: u128, viewer_id: [u8; 32]) -> bool {
        exists|i: int|
            0 <= i < self.approved.len() && is_grant_of(
                #[trigger] self.approved[i],
                stream_id,
                viewer_id,
            )
    }

    /// Whether bounds, order and references are valid.
    pub open spec fn is_valid(self) -> bool {
        &&& self.pending.len() <= MAX_STATE_RECORDS
        &&& self.approved.len() <= MAX_STATE_RECORDS
        &&& self.revoked.len() <= MAX_STATE_RECORDS
        &&& self.offer_outbox.len() <= MAX_STATE_RECORDS
        &&& self.decision_outbox.len() <= MAX_STATE_RECORDS
        &&& self.history_outbox.len() <= MAX_STATE_RECORDS
        &&& self.is_ordered()
    }

    /// Whether order and references are valid.
    pub open spec fn is_ordered(self) -> bool {
        &&& ascending(self.offer_outbox, ids())
        &&& ascending(self.decision_outbox, decisions())
        &&& ascending(self.history_outbox, grants())
        &&& forall|i: int|
            0 <= i < self.offer_outbox.len() ==> self.is_pending(#[trigger] self.offer_outbox[i])
    }

    /// The state with access granted. What is granted already stays as it is; a new grant
    /// is queued for the kept keys.
    pub open spec fn granted(self, stream_id: u128, viewer: IdentityPublic) -> Result<
        AdminModel,
        AdminError,
    > {
        let grant = StreamGrant { stream_id, viewer };
        match viewer.fingerprint {
            None => Err(AdminError::ViewerInvalid),
            Some(id) => if self.is_revoked(stream_id, id) {
                Err(AdminError::PermanentlyRevoked)
            } else if self.is_approved(stream_id, id) {
                Ok(self)
            } else {
                Ok(
                    AdminModel {
                        approved: stable_sorted(self.approved.push(grant), grants()),
                        history_outbox: stable_sorted(self.history_outbox.push(grant), grants()),
                        ..self
                    },
                )
            },
        }
    }

    /// The state with a decision queued. The same decision is queued once; another one on
    /// the same request is refused.
    pub open spec fn decision_queued(self, decision: PublisherDecisionModel) -> Result<
        AdminModel,
        AdminError,
    > {
        let at = first_where(self.decision_outbox, decision_on(decision.request_id));
        if at < self.decision_outbox.len() {
            if self.decision_outbox[at] == decision {
                Ok(self)
            } else {
                Err(AdminError::ConflictingDecision)
            }
        } else {
            Ok(
                AdminModel {
                    decision_outbox: stable_sorted(
                        self.decision_outbox.push(decision),
                        decisions(),
                    ),
                    ..self
                },
            )
        }
    }

    /// What becomes of a request under a policy.
    pub open spec fn action_for(
        self,
        policy: ApprovalPolicy,
        request: PairRequestModel,
        credential_verified: bool,
    ) -> RequestAction {
        let request_id = request.request_id->0;
        let viewer_id = request.viewer.fingerprint->0;
        if self.is_revoked(request.stream_id, viewer_id) || self.is_pending(request_id) {
            RequestAction::Skip
        } else {
            match policy.mode {
                ViewerPolicy::Open => RequestAction::Approve(PairDecisionReason::OpenPolicy),
                ViewerPolicy::TrustedCa => if request.has_credential && policy.has_authority
                    && credential_verified {
                    RequestAction::Approve(PairDecisionReason::TrustedViewerCa)
                } else {
                    RequestAction::Skip
                },
                ViewerPolicy::Required => RequestAction::Offer,
            }
        }
    }

    /// The state after one request of the inbox.
    pub open spec fn after_request(self, policy: ApprovalPolicy, incoming: IncomingModel) -> Result<
        AdminModel,
        AdminError,
    > {
        let request = incoming.request;
        if !incoming.verified || request.request_id is None {
            Err(AdminError::RequestInvalid)
        } else if request.viewer.fingerprint is None {
            Err(AdminError::ViewerInvalid)
        } else {
            match self.action_for(policy, request, incoming.credential_verified) {
                RequestAction::Skip => Ok(self),
                RequestAction::Approve(_) => match incoming.decision {
                    None => Err(AdminError::SigningFailed),
                    Some(decision) => match self.granted(request.stream_id, request.viewer) {
                        Err(error) => Err(error),
                        Ok(granted) => granted.decision_queued(decision),
                    },
                },
                RequestAction::Offer => match incoming.offer {
                    None => Err(AdminError::SigningFailed),
                    Some(offer) => Ok(self.offered(request, offer, incoming.source_addr)),
                },
            }
        }
    }

    /// The state with a request that was offered verification.
    pub open spec fn offered(
        self,
        request: PairRequestModel,
        offer: PairOfferModel,
        source_addr: Seq<char>,
    ) -> AdminModel {
        let id = request.request_id->0;
        AdminModel {
            pending: self.pending.push(
                PendingModel { request, offer, confirmation: None, source_addr },
            ),
            offer_outbox: if self.offer_outbox.contains(id) {
                self.offer_outbox
            } else {
                stable_sorted(self.offer_outbox.push(id), ids())
            },
            ..self
        }
    }

    /// The state after the requests of the inbox.
    pub open spec fn after_requests(
        self,
        policy: ApprovalPolicy,
        incoming: Seq<IncomingModel>,
    ) -> Result<AdminModel, AdminError>
        decreases incoming.len(),
    {
        if incoming.len() == 0 {
            Ok(self)
        } else {
            match self.after_requests(policy, incoming.drop_last()) {
                Err(error) => Err(error),
                Ok(before) => before.after_request(policy, incoming.last()),
            }
        }
    }

    /// The state after one confirmation of the inbox. One for an unknown request is passed
    /// over.
    pub open spec fn after_confirmation(self, checked: CheckedConfirmationModel) -> Result<
        AdminModel,
        AdminError,
    > {
        let at = first_where(self.pending, pending_id(checked.confirmation.request_id));
        if at >= self.pending.len() {
            Ok(self)
        } else if !checked.verified {
            Err(AdminError::ConfirmationInvalid)
        } else {
            Ok(
                AdminModel {
                    pending: self.pending.update(
                        at,
                        PendingModel {
                            confirmation: Some(checked.confirmation),
                            ..self.pending[at]
                        },
                    ),
                    ..self
                },
            )
        }
    }

    /// The state after the confirmations of the inbox, before its requests are sorted.
    pub open spec fn after_confirmations(self, checked: Seq<CheckedConfirmationModel>) -> Result<
        AdminModel,
        AdminError,
    >
        decreases checked.len(),
    {
        if checked.len() == 0 {
            Ok(self)
        } else {
            match self.after_confirmations(checked.drop_last()) {
                Err(error) => Err(error),
                Ok(before) => before.after_confirmation(checked.last()),
            }
        }
    }

    /// The state with its requests sorted.
    pub open spec fn requests_sorted(self) -> AdminModel {
        AdminModel { pending: stable_sorted(self.pending, pendings()), ..self }
    }

    /// The state after a request was approved or denied by hand.
    pub open spec fn decided(
        self,
        prefix: Seq<char>,
        approve: bool,
        decision: Option<PublisherDecisionModel>,
    ) -> Result<AdminModel, AdminError> {
        match self.selected(prefix, approve) {
            Err(error) => Err(error),
            Ok(at) => match decision {
                None => Err(AdminError::SigningFailed),
                Some(decision) => {
                    let pending = self.pending[at];
                    let granted = if approve {
                        self.granted(pending.request.stream_id, pending.request.viewer)
                    } else {
                        Ok(self)
                    };
                    match granted {
                        Err(error) => Err(error),
                        Ok(granted) => match granted.decision_queued(decision) {
                            Err(error) => Err(error),
                            Ok(queued) => Ok(
                                AdminModel {
                                    pending: queued.pending.remove(at),
                                    offer_outbox: kept_where(
                                        queued.offer_outbox,
                                        id_other_than(pending.request.request_id->0),
                                    ),
                                    ..queued
                                },
                            ),
                        },
                    }
                },
            },
        }
    }

    /// The request that is to be decided. Approving needs the viewer's confirmation.
    pub open spec fn selected(self, prefix: Seq<char>, approve: bool) -> Result<int, AdminError> {
        match unique_match(request_names(self.pending), prefix) {
            Err(error) => Err(error),
            Ok(at) => if approve && self.pending[at].confirmation is None {
                Err(AdminError::NotConfirmed)
            } else {
                Ok(at)
            },
        }
    }

    /// The state after access was taken away.
    pub open spec fn revoke(self, stream_id: u128, prefix: Seq<char>) -> Result<
        AdminModel,
        AdminError,
    > {
        match unique_match(grant_names(self.approved, stream_id), prefix) {
            Err(error) => Err(error),
            Ok(at) => {
                let viewer = self.approved[at].viewer.fingerprint;
                let gone = RevokedGrant { stream_id, viewer_id: viewer->0 };
                Ok(
                    AdminModel {
                        approved: self.approved.remove(at),
                        revoked: if self.revoked.contains(gone) {
                            self.revoked
                        } else {
                            stable_sorted(self.revoked.push(gone), revocations())
                        },
                        history_outbox: kept_where(
                            self.history_outbox,
                            grant_other_than(stream_id, viewer),
                        ),
                        ..self
                    },
                )
            },
        }
    }

    /// The state after the relay acknowledged the front of the outbox: offers go first.
    pub open spec fn front_delivered(self) -> AdminModel {
        if self.offer_outbox.len() > 0 {
            AdminModel { offer_outbox: self.offer_outbox.drop_first(), ..self }
        } else {
            AdminModel { decision_outbox: self.decision_outbox.drop_first(), ..self }
        }
    }

    /// The state after a viewer was sent the kept keys.
    pub open spec fn history_delivered(self, grant: StreamGrant) -> AdminModel {
        AdminModel {
            history_outbox: kept_where(
                self.history_outbox,
                grant_other_than(grant.stream_id, grant.viewer.fingerprint),
            ),
            ..self
        }
    }
}

} // verus!

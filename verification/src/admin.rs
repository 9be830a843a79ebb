//! The publisher's durable record of viewer requests, approvals and revocations.
//!
//! Operations take the state and give back the next one; where one fails the state is
//! gone and the stored one still stands. What the operations mean is said over
//! [`AdminModel`].

use vstd::prelude::*;

use crate::admin_model::{
    decision_on, decisions, grant_names, grant_other_than, grants, has_prefix, id_name,
    id_other_than, ids, is_grant_of, pending_id, pendings, print_rank, request_names, revocations,
    unique_match, AdminError, AdminModel, ApprovalPolicy, CheckedConfirmationModel, IncomingModel,
    PendingModel, RequestAction, RevokedGrant, StreamGrant, ViewerPolicy, MAX_STATE_BYTES,
    MAX_STATE_RECORDS, STATE_VERSION,
};
use crate::bytes::{bytes_equal, id_before, id_equal, id_order};
use crate::digest::{sha256, sha256_of};
use crate::key_history::RetainedGroupKey;
use crate::order::{
    ascending, first_where, kept_where, lemma_first_where, lemma_first_where_means,
    lemma_sorted_images, stable_sort,
};
use crate::publication::RelayAnswer;
use crate::records::{
    IdentityPublic, PairDecisionReason, PairOffer, PairOfferModel, PairRequest,
    PublisherDecision, PublisherDecisionModel, ViewerConfirmation, ViewerConfirmationModel,
};
use crate::service::PublisherReply;
use crate::text::{
    hex, hex_prefix, hex_text, lowered, starts_with, texts_equal, to_lowercase,
};

verus! {

/// A request that waits for a decision.
#[derive(Debug)]
pub struct PendingPairing {
    /// The viewer's request.
    pub request: PairRequest,
    /// The publisher's offer.
    pub offer: PairOffer,
    /// The viewer's confirmation.
    pub confirmation: Option<ViewerConfirmation>,
    /// Network peer that the relay saw.
    pub source_addr: String,
}

/// A confirmation that may be absent, as a mathematical value.
pub open spec fn confirmation_view(confirmation: Option<ViewerConfirmation>) -> Option<
    ViewerConfirmationModel,
> {
    match confirmation {
        Some(confirmation) => Some(confirmation@),
        None => None,
    }
}

/// A decision that may be absent, as a mathematical value.
pub open spec fn decision_view(decision: Option<PublisherDecision>) -> Option<
    PublisherDecisionModel,
> {
    match decision {
        Some(decision) => Some(decision@),
        None => None,
    }
}

/// An offer that may be absent, as a mathematical value.
pub open spec fn offer_view(offer: Option<PairOffer>) -> Option<PairOfferModel> {
    match offer {
        Some(offer) => Some(offer@),
        None => None,
    }
}

impl View for PendingPairing {
    type V = PendingModel;

    open spec fn view(&self) -> PendingModel {
        PendingModel {
            request: self.request@,
            offer: self.offer@,
            confirmation: confirmation_view(self.confirmation),
            source_addr: self.source_addr@,
        }
    }
}

/// What one pending request stands for.
pub open spec fn pending_image() -> spec_fn(PendingPairing) -> PendingModel {
    |pending: PendingPairing| pending@
}

/// What one decision stands for.
pub open spec fn decision_image() -> spec_fn(PublisherDecision) -> PublisherDecisionModel {
    |decision: PublisherDecision| decision@
}

/// A publisher's approval state.
#[derive(Debug)]
pub struct PublisherState {
    /// Requests that wait for a decision.
    pub pending: Vec<PendingPairing>,
    /// Access that is granted.
    pub approved: Vec<StreamGrant>,
    /// Access that was taken away.
    pub revoked: Vec<RevokedGrant>,
    /// Requests whose offer the relay has not acknowledged.
    pub offer_outbox: Vec<[u8; 32]>,
    /// Decisions that the relay has not acknowledged.
    pub decision_outbox: Vec<PublisherDecision>,
    /// Grants whose viewers have not been sent the kept keys.
    pub history_outbox: Vec<StreamGrant>,
}

impl View for PublisherState {
    type V = AdminModel;

    open spec fn view(&self) -> AdminModel {
        AdminModel {
            pending: self.pending@.map_values(pending_image()),
            approved: self.approved@,
            revoked: self.revoked@,
            offer_outbox: self.offer_outbox@,
            decision_outbox: self.decision_outbox@.map_values(decision_image()),
            history_outbox: self.history_outbox@,
        }
    }
}

/// A request from the relay's inbox with what was found of it.
#[derive(Debug)]
pub struct IncomingRequest {
    /// The request.
    pub request: PairRequest,
    /// Network peer that the relay saw.
    pub source_addr: String,
    /// Whether its signature and lifetime are valid.
    pub verified: bool,
    /// Whether the trusted authority vouches for its credential.
    pub credential_verified: bool,
    /// The signed approval, where one could be signed.
    pub decision: Option<PublisherDecision>,
    /// The signed offer, where one could be signed.
    pub offer: Option<PairOffer>,
}

impl View for IncomingRequest {
    type V = IncomingModel;

    open spec fn view(&self) -> IncomingModel {
        IncomingModel {
            request: self.request@,
            source_addr: self.source_addr@,
            verified: self.verified,
            credential_verified: self.credential_verified,
            decision: decision_view(self.decision),
            offer: offer_view(self.offer),
        }
    }
}

/// What one incoming request stands for.
pub open spec fn incoming_image() -> spec_fn(IncomingRequest) -> IncomingModel {
    |incoming: IncomingRequest| incoming@
}

/// A confirmation from the relay's inbox.
#[derive(Debug)]
pub struct CheckedConfirmation {
    /// The confirmation.
    pub confirmation: ViewerConfirmation,
    /// Whether it fits its request and offer.
    pub verified: bool,
}

impl View for CheckedConfirmation {
    type V = CheckedConfirmationModel;

    open spec fn view(&self) -> CheckedConfirmationModel {
        CheckedConfirmationModel {
            confirmation: self.confirmation@,
            verified: self.verified,
        }
    }
}

/// What one checked confirmation stands for.
pub open spec fn checked_image() -> spec_fn(CheckedConfirmation) -> CheckedConfirmationModel {
    |checked: CheckedConfirmation| checked@
}

/// The outcome of an operation against what it should be.
pub open spec fn outcome(
    result: Result<PublisherState, AdminError>,
    expected: Result<AdminModel, AdminError>,
) -> bool {
    match result {
        Ok(state) => expected == Ok::<AdminModel, AdminError>(state@),
        Err(error) => expected == Err::<AdminModel, AdminError>(error),
    }
}

/// Whether an identifier that may be absent is a given one.
fn print_is(print: &Option<[u8; 32]>, id: &[u8; 32]) -> (same: bool)
    ensures
        same == (*print == Some(*id)),
{
    match print {
        Some(other) => id_equal(other, id),
        None => false,
    }
}

/// Whether two identifiers that may be absent are the same.
fn prints_equal(a: &Option<[u8; 32]>, b: &Option<[u8; 32]>) -> (same: bool)
    ensures
        same == (*a == *b),
{
    match (a, b) {
        (Some(a), Some(b)) => id_equal(a, b),
        (None, None) => true,
        _ => false,
    }
}

/// Whether an identifier that may be absent ranks no higher than another.
fn print_at_most(a: &Option<[u8; 32]>, b: &Option<[u8; 32]>) -> (at_most: bool)
    ensures
        at_most == (print_rank(*a) <= print_rank(*b)),
{
    let zero: [u8; 32] = [0; 32];
    proof {
        lemma_zero_ranks_lowest(zero);
    }
    match (a, b) {
        (Some(a), Some(b)) => !id_before(b, a),
        (None, _) => true,
        (Some(a), None) => !id_before(&zero, a),
    }
}

proof fn lemma_zero_ranks_lowest(zero: [u8; 32])
    requires
        forall|i: int| 0 <= i < 32 ==> zero@[i] == 0,
    ensures
        id_order(zero) == 0,
{
    lemma_zero_bytes(zero@);
}

proof fn lemma_zero_bytes(bytes: Seq<u8>)
    requires
        forall|i: int| 0 <= i < bytes.len() ==> bytes[i] == 0,
    ensures
        crate::bytes::big_endian(bytes) == 0,
    decreases bytes.len(),
{
    if bytes.len() > 0 {
        lemma_zero_bytes(bytes.drop_last());
    }
}

fn grant_at_most(a: &StreamGrant, b: &StreamGrant) -> (at_most: bool)
    ensures
        at_most == grants()(*a, *b),
{
    a.stream_id < b.stream_id || (a.stream_id == b.stream_id && print_at_most(
        &a.viewer.fingerprint,
        &b.viewer.fingerprint,
    ))
}

fn revoked_at_most(a: &RevokedGrant, b: &RevokedGrant) -> (at_most: bool)
    ensures
        at_most == revocations()(*a, *b),
{
    a.stream_id < b.stream_id || (a.stream_id == b.stream_id && !id_before(
        &b.viewer_id,
        &a.viewer_id,
    ))
}

fn id_at_most(a: &[u8; 32], b: &[u8; 32]) -> (at_most: bool)
    ensures
        at_most == ids()(*a, *b),
{
    !id_before(b, a)
}

/// Decisions by request.
pub open spec fn decision_items() -> spec_fn(PublisherDecision, PublisherDecision) -> bool {
    |a: PublisherDecision, b: PublisherDecision| decisions()(a@, b@)
}

fn decision_at_most(a: &PublisherDecision, b: &PublisherDecision) -> (at_most: bool)
    ensures
        at_most == decision_items()(*a, *b),
{
    !id_before(&b.request_id, &a.request_id)
}

/// Pending requests by identifier.
pub open spec fn pending_items() -> spec_fn(PendingPairing, PendingPairing) -> bool {
    |a: PendingPairing, b: PendingPairing| pendings()(a@, b@)
}

fn pending_at_most(a: &PendingPairing, b: &PendingPairing) -> (at_most: bool)
    ensures
        at_most == pending_items()(*a, *b),
{
    print_at_most(&a.request.request_id, &b.request.request_id)
}

fn decisions_equal(a: &PublisherDecision, b: &PublisherDecision) -> (equal: bool)
    ensures
        equal == (a@ == b@),
{
    let same = id_equal(&a.request_id, &b.request_id) && a.reason == b.reason && id_equal(
        &a.transcript_hash,
        &b.transcript_hash,
    ) && bytes_equal(a.encoded.as_slice(), b.encoded.as_slice());
    assert(same == (a@ =~= b@));
    same
}

/// The position of a pending request, or their number.
fn find_pending(pending: &Vec<PendingPairing>, id: &[u8; 32]) -> (at: usize)
    ensures
        at == first_where(pending@.map_values(pending_image()), pending_id(*id)),
        at <= pending@.len(),
        at < pending@.len() ==> pending@[at as int].request.request_id == Some(*id),
        at == pending@.len() ==> forall|k: int|
            0 <= k < pending@.len() ==> (#[trigger] pending@[k]).request.request_id != Some(*id),
{
    let count: usize = pending.len();
    let mut at: usize = 0;
    while at < count && !print_is(&pending[at].request.request_id, id)
        invariant
            at <= count == pending@.len(),
            forall|k: int|
                0 <= k < at ==> (#[trigger] pending@[k]).request.request_id != Some(*id),
        decreases count - at,
    {
        at += 1;
    }
    proof {
        let models = pending@.map_values(pending_image());
        assert forall|k: int| 0 <= k < at implies !pending_id(*id)(#[trigger] models[k]) by {
            assert(pending@[k].request.request_id != Some(*id));
        }
        lemma_first_where(models, pending_id(*id), at as int);
    }
    at
}

impl PublisherState {
    /// A state with nothing in it.
    pub fn new() -> (state: PublisherState)
        ensures
            state@ == AdminModel::initial(),
    {
        let state = PublisherState {
            pending: Vec::new(),
            approved: Vec::new(),
            revoked: Vec::new(),
            offer_outbox: Vec::new(),
            decision_outbox: Vec::new(),
            history_outbox: Vec::new(),
        };
        assert(state@ =~= AdminModel::initial());
        state
    }

    fn is_pending(&self, id: &[u8; 32]) -> (found: bool)
        ensures
            found == self@.is_pending(*id),
    {
        let at: usize = find_pending(&self.pending, id);
        assert forall|k: int| 0 <= k < self.pending@.len() implies (
        #[trigger] self@.pending[k]).request.request_id == self.pending@[k].request.request_id by {}
        if at < self.pending.len() {
            assert(self@.pending[at as int].request.request_id == Some(*id));
            true
        } else {
            false
        }
    }

    fn is_revoked(&self, gone: &RevokedGrant) -> (found: bool)
        ensures
            found == self@.revoked.contains(*gone),
    {
        let count: usize = self.revoked.len();
        let mut i: usize = 0;
        while i < count
            invariant
                i <= count == self.revoked@.len(),
                forall|k: int| 0 <= k < i ==> self.revoked@[k] != *gone,
            decreases count - i,
        {
            if self.revoked[i].stream_id == gone.stream_id && id_equal(
                &self.revoked[i].viewer_id,
                &gone.viewer_id,
            ) {
                assert(self.revoked@[i as int] == *gone);
                return true;
            }
            i += 1;
        }
        false
    }

    fn is_approved(&self, stream_id: u128, viewer_id: &[u8; 32]) -> (found: bool)
        ensures
            found == self@.is_approved(stream_id, *viewer_id),
    {
        let count: usize = self.approved.len();
        let mut i: usize = 0;
        while i < count
            invariant
                i <= count == self.approved@.len(),
                forall|k: int|
                    0 <= k < i ==> !is_grant_of(
                        #[trigger] self.approved@[k],
                        stream_id,
                        *viewer_id,
                    ),
            decreases count - i,
        {
            if self.approved[i].stream_id == stream_id && print_is(
                &self.approved[i].viewer.fingerprint,
                viewer_id,
            ) {
                assert(is_grant_of(self@.approved[i as int], stream_id, *viewer_id));
                return true;
            }
            i += 1;
        }
        false
    }
}

/// Grants a viewer access to a stream.
pub fn add_approved(state: PublisherState, stream_id: u128, viewer: IdentityPublic) -> (result:
    Result<PublisherState, AdminError>)
    ensures
        outcome(result, state@.granted(stream_id, viewer)),
{
    let id = match viewer.fingerprint {
        None => {
            return Err(AdminError::ViewerInvalid);
        },
        Some(id) => id,
    };
    if state.is_revoked(&RevokedGrant { stream_id, viewer_id: id }) {
        return Err(AdminError::PermanentlyRevoked);
    }
    if state.is_approved(stream_id, &id) {
        return Ok(state);
    }
    let grant = StreamGrant { stream_id, viewer };
    let mut next = state;
    next.approved.push(grant);
    next.history_outbox.push(grant);
    next.approved = stable_sort(next.approved, grant_at_most, Ghost(grants()));
    next.history_outbox = stable_sort(next.history_outbox, grant_at_most, Ghost(grants()));
    Ok(next)
}

/// Queues a decision for the relay.
pub fn queue_decision(state: PublisherState, decision: PublisherDecision) -> (result: Result<
    PublisherState,
    AdminError,
>)
    ensures
        outcome(result, state@.decision_queued(decision@)),
{
    let ghost models = state@.decision_outbox;
    let ghost wanted = decision_on(decision@.request_id);
    let count: usize = state.decision_outbox.len();
    let mut at: usize = 0;
    while at < count && !id_equal(&state.decision_outbox[at].request_id, &decision.request_id)
        invariant
            at <= count == state.decision_outbox@.len(),
            models == state@.decision_outbox,
            wanted == decision_on(decision@.request_id),
            forall|k: int| 0 <= k < at ==> !wanted(#[trigger] models[k]),
        decreases count - at,
    {
        at += 1;
    }
    proof {
        lemma_first_where(models, wanted, at as int);
    }
    if at < count {
        if !decisions_equal(&state.decision_outbox[at], &decision) {
            return Err(AdminError::ConflictingDecision);
        }
        return Ok(state);
    }
    let mut next = state;
    next.decision_outbox.push(decision);
    let ghost pushed = next.decision_outbox@;
    next.decision_outbox =
    stable_sort(next.decision_outbox, decision_at_most, Ghost(decision_items()));
    proof {
        assert(pushed.map_values(decision_image()) =~= models.push(decision@));
        lemma_sorted_images(pushed, decision_image(), decision_items(), decisions());
    }
    Ok(next)
}

/// What becomes of a request, so that the answer can be signed.
pub fn request_action(
    state: &PublisherState,
    policy: &ApprovalPolicy,
    request: &PairRequest,
    credential_verified: bool,
) -> (result: Result<RequestAction, AdminError>)
    ensures
        result == if request.request_id is None {
            Err::<RequestAction, AdminError>(AdminError::RequestInvalid)
        } else if request.viewer.fingerprint is None {
            Err::<RequestAction, AdminError>(AdminError::ViewerInvalid)
        } else {
            Ok::<RequestAction, AdminError>(
                state@.action_for(*policy, request@, credential_verified),
            )
        },
{
    let request_id = match request.request_id {
        None => {
            return Err(AdminError::RequestInvalid);
        },
        Some(id) => id,
    };
    let viewer_id = match request.viewer.fingerprint {
        None => {
            return Err(AdminError::ViewerInvalid);
        },
        Some(id) => id,
    };
    if state.is_revoked(&RevokedGrant { stream_id: request.stream_id, viewer_id })
        || state.is_pending(&request_id) {
        return Ok(RequestAction::Skip);
    }
    Ok(
        match policy.mode {
            ViewerPolicy::Open => RequestAction::Approve(PairDecisionReason::OpenPolicy),
            ViewerPolicy::TrustedCa => if request.has_credential && policy.has_authority
                && credential_verified {
                RequestAction::Approve(PairDecisionReason::TrustedViewerCa)
            } else {
                RequestAction::Skip
            },
            ViewerPolicy::Required => RequestAction::Offer,
        },
    )
}

fn id_listed(list: &Vec<[u8; 32]>, id: &[u8; 32]) -> (found: bool)
    ensures
        found == list@.contains(*id),
{
    let count: usize = list.len();
    let mut i: usize = 0;
    while i < count
        invariant
            i <= count == list@.len(),
            forall|k: int| 0 <= k < i ==> list@[k] != *id,
        decreases count - i,
    {
        if id_equal(&list[i], id) {
            assert(list@[i as int] == *id);
            return true;
        }
        i += 1;
    }
    false
}

/// Takes one request of the inbox.
pub fn receive_request(
    state: PublisherState,
    policy: &ApprovalPolicy,
    incoming: IncomingRequest,
) -> (result: Result<PublisherState, AdminError>)
    ensures
        outcome(result, state@.after_request(*policy, incoming@)),
{
    if !incoming.verified {
        return Err(AdminError::RequestInvalid);
    }
    let request_id = match incoming.request.request_id {
        None => {
            return Err(AdminError::RequestInvalid);
        },
        Some(id) => id,
    };
    let action = request_action(&state, policy, &incoming.request, incoming.credential_verified);
    match action {
        Err(error) => Err(error),
        Ok(RequestAction::Skip) => Ok(state),
        Ok(RequestAction::Approve(_)) => match incoming.decision {
            None => Err(AdminError::SigningFailed),
            Some(decision) => match add_approved(
                state,
                incoming.request.stream_id,
                incoming.request.viewer,
            ) {
                Err(error) => Err(error),
                Ok(granted) => queue_decision(granted, decision),
            },
        },
        Ok(RequestAction::Offer) => match incoming.offer {
            None => Err(AdminError::SigningFailed),
            Some(offer) => {
                let ghost before = state@;
                let ghost model = incoming@;
                let mut next = state;
                next.pending.push(
                    PendingPairing {
                        request: incoming.request,
                        offer,
                        confirmation: None,
                        source_addr: incoming.source_addr,
                    },
                );
                if !id_listed(&next.offer_outbox, &request_id) {
                    next.offer_outbox.push(request_id);
                    next.offer_outbox = stable_sort(next.offer_outbox, id_at_most, Ghost(ids()));
                }
                assert(next@ =~= before.offered(model.request, offer@, model.source_addr));
                Ok(next)
            },
        },
    }
}

/// Takes the requests of the inbox in their order. The first that fails ends it.
pub fn receive_requests(
    state: PublisherState,
    policy: &ApprovalPolicy,
    incoming: Vec<IncomingRequest>,
) -> (result: Result<PublisherState, AdminError>)
    ensures
        outcome(
            result,
            state@.after_requests(*policy, incoming@.map_values(incoming_image())),
        ),
{
    let ghost initial = state@;
    let ghost items = incoming@;
    let ghost all = items.map_values(incoming_image());
    let mut next = state;
    let mut rest = incoming;
    let ghost mut done: int = 0;
    assert(all.take(0) =~= Seq::empty());
    while rest.len() > 0
        invariant
            0 <= done <= all.len(),
            initial == state@,
            items == incoming@,
            all == items.map_values(incoming_image()),
            rest@ == items.skip(done),
            initial.after_requests(*policy, all.take(done)) == Ok::<AdminModel, AdminError>(
                next@,
            ),
        decreases rest@.len(),
    {
        let item = rest.remove(0);
        proof {
            assert(item == items[done]);
            assert(all.take(done + 1).drop_last() =~= all.take(done));
            assert(all.take(done + 1).last() == item@);
            assert(rest@ =~= items.skip(done + 1));
        }
        match receive_request(next, policy, item) {
            Err(error) => {
                proof {
                    lemma_request_failure_stays(initial, *policy, all, done + 1, error);
                }
                return Err(error);
            },
            Ok(after) => {
                next = after;
            },
        }
        proof {
            done = done + 1;
        }
    }
    assert(all.take(done) =~= all);
    Ok(next)
}

proof fn lemma_request_failure_stays(
    initial: AdminModel,
    policy: ApprovalPolicy,
    all: Seq<IncomingModel>,
    at: int,
    error: AdminError,
)
    requires
        0 <= at <= all.len(),
        initial.after_requests(policy, all.take(at)) == Err::<AdminModel, AdminError>(error),
    ensures
        initial.after_requests(policy, all) == Err::<AdminModel, AdminError>(error),
    decreases all.len() - at,
{
    if at == all.len() {
        assert(all.take(at) =~= all);
    } else {
        assert(all.take(at + 1).drop_last() =~= all.take(at));
        lemma_request_failure_stays(initial, policy, all, at + 1, error);
    }
}

fn receive_confirmation(state: PublisherState, checked: CheckedConfirmation) -> (result: Result<
    PublisherState,
    AdminError,
>)
    ensures
        outcome(result, state@.after_confirmation(checked@)),
{
    let at: usize = find_pending(&state.pending, &checked.confirmation.request_id);
    if at >= state.pending.len() {
        return Ok(state);
    }
    if !checked.verified {
        return Err(AdminError::ConfirmationInvalid);
    }
    let ghost before = state@;
    let ghost model = checked@;
    let mut next = state;
    next.pending[at].confirmation = Some(checked.confirmation);
    proof {
        let expected = before.pending.update(
            at as int,
            PendingModel {
                confirmation: Some(model.confirmation),
                ..before.pending[at as int]
            },
        );
        assert(next@.pending =~= expected);
    }
    Ok(next)
}

/// Takes the confirmations of the inbox in their order and sorts what is pending. The
/// first that fails ends it.
pub fn receive_confirmations(state: PublisherState, checked: Vec<CheckedConfirmation>) -> (result:
    Result<PublisherState, AdminError>)
    ensures
        match state@.after_confirmations(checked@.map_values(checked_image())) {
            Err(error) => result == Err::<PublisherState, AdminError>(error),
            Ok(after) => result matches Ok(next) && next@ == after.requests_sorted(),
        },
{
    let ghost initial = state@;
    let ghost items = checked@;
    let ghost all = items.map_values(checked_image());
    let mut next = state;
    let mut rest = checked;
    let ghost mut done: int = 0;
    assert(all.take(0) =~= Seq::empty());
    while rest.len() > 0
        invariant
            0 <= done <= all.len(),
            initial == state@,
            items == checked@,
            all == items.map_values(checked_image()),
            rest@ == items.skip(done),
            initial.after_confirmations(all.take(done)) == Ok::<AdminModel, AdminError>(next@),
        decreases rest@.len(),
    {
        let item = rest.remove(0);
        proof {
            assert(item == items[done]);
            assert(all.take(done + 1).drop_last() =~= all.take(done));
            assert(all.take(done + 1).last() == item@);
            assert(rest@ =~= items.skip(done + 1));
        }
        match receive_confirmation(next, item) {
            Err(error) => {
                proof {
                    lemma_confirmation_failure_stays(initial, all, done + 1, error);
                }
                return Err(error);
            },
            Ok(after) => {
                next = after;
            },
        }
        proof {
            done = done + 1;
        }
    }
    assert(all.take(done) =~= all);
    let ghost pending = next.pending@;
    next.pending = stable_sort(next.pending, pending_at_most, Ghost(pending_items()));
    proof {
        lemma_sorted_images(pending, pending_image(), pending_items(), pendings());
    }
    Ok(next)
}

proof fn lemma_confirmation_failure_stays(
    initial: AdminModel,
    all: Seq<CheckedConfirmationModel>,
    at: int,
    error: AdminError,
)
    requires
        0 <= at <= all.len(),
        initial.after_confirmations(all.take(at)) == Err::<AdminModel, AdminError>(error),
    ensures
        initial.after_confirmations(all) == Err::<AdminModel, AdminError>(error),
    decreases all.len() - at,
{
    if at == all.len() {
        assert(all.take(at) =~= all);
    } else {
        assert(all.take(at + 1).drop_last() =~= all.take(at));
        lemma_confirmation_failure_stays(initial, all, at + 1, error);
    }
}

/// Values that may be absent, as mathematical values.
pub open spec fn values_view(values: Seq<Option<String>>) -> Seq<Option<Seq<char>>> {
    Seq::new(
        values.len(),
        |i: int|
            match values[i] {
                Some(text) => Some(text@),
                None => None,
            },
    )
}

/// The outcome of a search against what it should be.
pub open spec fn found(result: Result<usize, AdminError>, expected: Result<int, AdminError>) -> bool {
    match result {
        Ok(at) => expected == Ok::<int, AdminError>(at as int),
        Err(error) => expected == Err::<int, AdminError>(error),
    }
}

/// The position of the one value that begins with a hexadecimal prefix, in either case of
/// letters. A value that is absent begins with none.
pub fn unique_index(values: &Vec<Option<String>>, prefix: &str) -> (result: Result<
    usize,
    AdminError,
>)
    ensures
        found(result, unique_match(values_view(values@), prefix@)),
        result matches Ok(at) ==> at < values@.len(),
{
    if !hex_prefix(prefix) {
        return Err(AdminError::PrefixNotHex);
    }
    let lower = to_lowercase(prefix);
    let ghost views = values_view(values@);
    let ghost wanted = has_prefix(prefix@);
    let count: usize = values.len();
    let mut matches: usize = 0;
    let mut first: usize = 0;
    let mut i: usize = 0;
    while i < count
        invariant
            i <= count == values@.len(),
            views == values_view(values@),
            wanted == has_prefix(prefix@),
            lower@ == lowered(prefix@),
            matches <= i,
            matches == kept_where(views.take(i as int), wanted).len(),
            matches == 0 ==> forall|k: int| 0 <= k < i ==> !wanted(#[trigger] views[k]),
            matches > 0 ==> first < i && wanted(views[first as int]) && forall|k: int|
                0 <= k < first ==> !wanted(#[trigger] views[k]),
        decreases count - i,
    {
        assert(views.take(i + 1).drop_last() =~= views.take(i as int));
        let hit = match &values[i] {
            Some(text) => starts_with(text.as_str(), lower.as_str()),
            None => false,
        };
        assert(hit == wanted(views[i as int]));
        if hit {
            if matches == 0 {
                first = i;
            }
            matches += 1;
        }
        i += 1;
    }
    assert(views.take(count as int) =~= views);
    if matches == 0 {
        return Err(AdminError::NoMatch);
    }
    if matches > 1 {
        return Err(AdminError::Ambiguous);
    }
    proof {
        lemma_first_where(views, wanted, first as int);
    }
    Ok(first)
}

fn id_text(print: &Option<[u8; 32]>) -> (text: Option<String>)
    ensures
        match text {
            Some(text) => id_name(*print) == Some(text@),
            None => id_name(*print) is None,
        },
{
    match print {
        Some(id) => Some(hex(id)),
        None => None,
    }
}

/// The position of the one pending request whose identifier begins with a prefix.
pub fn unique_request(pending: &Vec<PendingPairing>, prefix: &str) -> (result: Result<
    usize,
    AdminError,
>)
    ensures
        found(
            result,
            unique_match(request_names(pending@.map_values(pending_image())), prefix@),
        ),
        result matches Ok(at) ==> at < pending@.len(),
{
    let mut names: Vec<Option<String>> = Vec::new();
    let count: usize = pending.len();
    let mut i: usize = 0;
    while i < count
        invariant
            i <= count == pending@.len(),
            names@.len() == i,
            forall|k: int|
                0 <= k < i ==> values_view(names@)[k] == id_name(
                    (#[trigger] pending@[k]).request.request_id,
                ),
        decreases count - i,
    {
        names.push(id_text(&pending[i].request.request_id));
        i += 1;
    }
    assert(values_view(names@) =~= request_names(pending@.map_values(pending_image())));
    unique_index(&names, prefix)
}

/// The position of a stream's one grant whose viewer's identifier begins with a prefix.
pub fn unique_grant(approved: &Vec<StreamGrant>, stream_id: u128, prefix: &str) -> (result: Result<
    usize,
    AdminError,
>)
    ensures
        found(result, unique_match(grant_names(approved@, stream_id), prefix@)),
        result matches Ok(at) ==> at < approved@.len(),
{
    let mut names: Vec<Option<String>> = Vec::new();
    let count: usize = approved.len();
    let mut i: usize = 0;
    while i < count
        invariant
            i <= count == approved@.len(),
            names@.len() == i,
            forall|k: int|
                0 <= k < i ==> values_view(names@)[k] == if (
                #[trigger] approved@[k]).stream_id == stream_id {
                    id_name(approved@[k].viewer.fingerprint)
                } else {
                    None
                },
        decreases count - i,
    {
        if approved[i].stream_id == stream_id {
            names.push(id_text(&approved[i].viewer.fingerprint));
        } else {
            names.push(None);
        }
        i += 1;
    }
    assert(values_view(names@) =~= grant_names(approved@, stream_id));
    unique_index(&names, prefix)
}

proof fn lemma_unique_match_matches(values: Seq<Option<Seq<char>>>, prefix: Seq<char>)
    ensures
        unique_match(values, prefix) matches Ok(at) ==> 0 <= at < values.len() && values[at]
            is Some,
{
    if unique_match(values, prefix) is Ok {
        lemma_first_where_means(values, has_prefix(prefix));
        if first_where(values, has_prefix(prefix)) >= values.len() {
            lemma_nothing_kept(values, has_prefix(prefix));
        }
    }
}

proof fn lemma_nothing_kept<T>(items: Seq<T>, wanted: spec_fn(T) -> bool)
    requires
        forall|k: int| 0 <= k < items.len() ==> !wanted(#[trigger] items[k]),
    ensures
        kept_where(items, wanted).len() == 0,
    decreases items.len(),
{
    if items.len() > 0 {
        lemma_nothing_kept(items.drop_last(), wanted);
    }
}

/// The request that is to be decided, so that the decision can be signed.
pub fn select_request(state: &PublisherState, prefix: &str, approve: bool) -> (result: Result<
    usize,
    AdminError,
>)
    ensures
        found(result, state@.selected(prefix@, approve)),
        result matches Ok(at) ==> at < state.pending@.len()
            && state.pending@[at as int].request.request_id is Some,
{
    proof {
        lemma_unique_match_matches(request_names(state@.pending), prefix@);
    }
    match unique_request(&state.pending, prefix) {
        Err(error) => Err(error),
        Ok(at) => {
            if approve && state.pending[at].confirmation.is_none() {
                Err(AdminError::NotConfirmed)
            } else {
                Ok(at)
            }
        },
    }
}

fn drop_id(list: &Vec<[u8; 32]>, id: &[u8; 32]) -> (kept: Vec<[u8; 32]>)
    ensures
        kept@ == kept_where(list@, id_other_than(*id)),
{
    let mut kept: Vec<[u8; 32]> = Vec::new();
    let count: usize = list.len();
    let mut i: usize = 0;
    while i < count
        invariant
            i <= count == list@.len(),
            kept@ == kept_where(list@.take(i as int), id_other_than(*id)),
        decreases count - i,
    {
        assert(list@.take(i + 1).drop_last() =~= list@.take(i as int));
        if !id_equal(&list[i], id) {
            kept.push(list[i]);
        }
        i += 1;
    }
    assert(list@.take(count as int) =~= list@);
    kept
}

fn drop_grant(list: &Vec<StreamGrant>, stream_id: u128, viewer: &Option<[u8; 32]>) -> (kept: Vec<
    StreamGrant,
>)
    ensures
        kept@ == kept_where(list@, grant_other_than(stream_id, *viewer)),
{
    let mut kept: Vec<StreamGrant> = Vec::new();
    let count: usize = list.len();
    let mut i: usize = 0;
    while i < count
        invariant
            i <= count == list@.len(),
            kept@ == kept_where(list@.take(i as int), grant_other_than(stream_id, *viewer)),
        decreases count - i,
    {
        assert(list@.take(i + 1).drop_last() =~= list@.take(i as int));
        if list[i].stream_id != stream_id || !prints_equal(&list[i].viewer.fingerprint, viewer) {
            kept.push(list[i]);
        }
        i += 1;
    }
    assert(list@.take(count as int) =~= list@);
    kept
}

/// Approves or denies the one pending request with a prefix. The signed decision is queued
/// and the request no longer waits.
pub fn decide(
    state: PublisherState,
    prefix: &str,
    approve: bool,
    decision: Option<PublisherDecision>,
) -> (result: Result<PublisherState, AdminError>)
    ensures
        outcome(result, state@.decided(prefix@, approve, decision_view(decision))),
{
    let at: usize = match select_request(&state, prefix, approve) {
        Err(error) => {
            return Err(error);
        },
        Ok(at) => at,
    };
    let decision = match decision {
        None => {
            return Err(AdminError::SigningFailed);
        },
        Some(decision) => decision,
    };
    let ghost before = state@;
    let ghost pending = state@.pending[at as int];
    let request_id = match state.pending[at].request.request_id {
        Some(id) => id,
        None => {
            return Err(AdminError::RequestInvalid);
        },
    };
    let stream_id = state.pending[at].request.stream_id;
    let viewer = state.pending[at].request.viewer;
    let granted = if approve {
        match add_approved(state, stream_id, viewer) {
            Err(error) => {
                return Err(error);
            },
            Ok(granted) => granted,
        }
    } else {
        state
    };
    let ghost granted_model = granted@;
    match queue_decision(granted, decision) {
        Err(error) => Err(error),
        Ok(queued) => {
            let ghost queued_model = queued@;
            let mut next = queued;
            let removed = next.pending.remove(at);
            next.offer_outbox = drop_id(&next.offer_outbox, &request_id);
            assert(next@.pending =~= queued_model.pending.remove(at as int));
            Ok(next)
        },
    }
}

/// The identifiers of the requests that every viewer confirmed, in their order.
pub fn confirmed_requests(state: &PublisherState) -> (requests: Vec<String>)
    requires
        forall|i: int|
            0 <= i < state.pending@.len() && (#[trigger] state.pending@[i]).confirmation is Some
                ==> state.pending@[i].request.request_id is Some,
    ensures
        requests@.map_values(|text: String| text@) == confirmed_names(state@.pending),
{
    let ghost models = state@.pending;
    let mut requests: Vec<String> = Vec::new();
    let count: usize = state.pending.len();
    let mut i: usize = 0;
    while i < count
        invariant
            i <= count == state.pending@.len(),
            models == state@.pending,
            requests@.map_values(|text: String| text@) == confirmed_names(models.take(i as int)),
            forall|k: int|
                0 <= k < state.pending@.len() && (#[trigger] state.pending@[k]).confirmation
                    is Some ==> state.pending@[k].request.request_id is Some,
        decreases count - i,
    {
        assert(models.take(i + 1).drop_last() =~= models.take(i as int));
        assert(models[i as int] == state.pending@[i as int]@);
        if state.pending[i].confirmation.is_some() {
            let ghost before = requests@;
            match &state.pending[i].request.request_id {
                Some(id) => requests.push(hex(id)),
                None => {},
            }
            assert(requests@.map_values(|text: String| text@) =~= before.map_values(
                |text: String| text@,
            ).push(requests@.last()@));
        }
        i += 1;
    }
    assert(models.take(count as int) =~= models);
    requests
}

/// The identifiers of the requests that were confirmed, as text, in their order.
pub open spec fn confirmed_names(pending: Seq<PendingModel>) -> Seq<Seq<char>>
    decreases pending.len(),
{
    if pending.len() == 0 {
        Seq::empty()
    } else if pending.last().confirmation is Some {
        confirmed_names(pending.drop_last()).push(hex_text((pending.last().request.request_id->0)@))
    } else {
        confirmed_names(pending.drop_last())
    }
}

/// Takes a stream's access away from the one viewer with a prefix, for good.
pub fn revoke(state: PublisherState, stream_id: u128, prefix: &str) -> (result: Result<
    (PublisherState, [u8; 32]),
    AdminError,
>)
    ensures
        match result {
            Err(error) => state@.revoke(stream_id, prefix@) == Err::<AdminModel, AdminError>(error),
            Ok((next, viewer_id)) => {
                &&& state@.revoke(stream_id, prefix@) == Ok::<AdminModel, AdminError>(next@)
                &&& unique_match(grant_names(state@.approved, stream_id), prefix@) matches Ok(at)
                    && is_grant_of(state@.approved[at], stream_id, viewer_id)
            },
        },
{
    proof {
        lemma_unique_match_matches(grant_names(state@.approved, stream_id), prefix@);
    }
    let at: usize = match unique_grant(&state.approved, stream_id, prefix) {
        Err(error) => {
            return Err(error);
        },
        Ok(at) => at,
    };
    let ghost before = state@;
    let viewer = state.approved[at].viewer.fingerprint;
    let viewer_id = match viewer {
        Some(id) => id,
        None => {
            return Err(AdminError::ViewerInvalid);
        },
    };
    assert(state.approved@[at as int].stream_id == stream_id);
    let mut next = state;
    let removed = next.approved.remove(at);
    let gone = RevokedGrant { stream_id, viewer_id };
    if !next.is_revoked(&gone) {
        next.revoked.push(gone);
        next.revoked = stable_sort(next.revoked, revoked_at_most, Ghost(revocations()));
    }
    next.history_outbox = drop_grant(&next.history_outbox, stream_id, &viewer);
    Ok((next, viewer_id))
}

/// The viewers of a stream's grants, in their order.
pub open spec fn viewers_of(approved: Seq<StreamGrant>, stream_id: u128) -> Seq<IdentityPublic>
    decreases approved.len(),
{
    if approved.len() == 0 {
        Seq::empty()
    } else if approved.last().stream_id == stream_id {
        viewers_of(approved.drop_last(), stream_id).push(approved.last().viewer)
    } else {
        viewers_of(approved.drop_last(), stream_id)
    }
}

/// The viewers that may see a stream.
pub fn approved_viewers(state: &PublisherState, stream_id: u128) -> (viewers: Vec<IdentityPublic>)
    ensures
        viewers@ == viewers_of(state@.approved, stream_id),
{
    let mut viewers: Vec<IdentityPublic> = Vec::new();
    let count: usize = state.approved.len();
    let mut i: usize = 0;
    while i < count
        invariant
            i <= count == state.approved@.len(),
            viewers@ == viewers_of(state.approved@.take(i as int), stream_id),
        decreases count - i,
    {
        assert(state.approved@.take(i + 1).drop_last() =~= state.approved@.take(i as int));
        if state.approved[i].stream_id == stream_id {
            viewers.push(state.approved[i].viewer);
        }
        i += 1;
    }
    assert(state.approved@.take(count as int) =~= state.approved@);
    viewers
}

/// What the relay is sent next from the outbox.
#[derive(Debug)]
pub enum OutboxItem {
    /// An offer.
    Offer(PairOffer),
    /// A decision.
    Decision(PublisherDecision),
}

/// What is sent next: offers by request, then decisions by request.
pub fn next_delivery(state: &PublisherState) -> (result: Result<Option<OutboxItem>, AdminError>)
    ensures
        match result {
            Err(error) => {
                &&& error == AdminError::OfferLost
                &&& state@.offer_outbox.len() > 0
                &&& !state@.is_pending(state@.offer_outbox[0])
            },
            Ok(Some(OutboxItem::Offer(offer))) => {
                &&& state@.offer_outbox.len() > 0
                &&& state@.is_pending(state@.offer_outbox[0])
                &&& offer@ == state@.pending[first_where(
                    state@.pending,
                    pending_id(state@.offer_outbox[0]),
                )].offer
            },
            Ok(Some(OutboxItem::Decision(decision))) => {
                &&& state@.offer_outbox.len() == 0
                &&& state@.decision_outbox.len() > 0
                &&& decision@ == state@.decision_outbox[0]
            },
            Ok(None) => state@.offer_outbox.len() == 0 && state@.decision_outbox.len() == 0,
        },
{
    if state.offer_outbox.len() > 0 {
        let id = state.offer_outbox[0];
        let known = state.is_pending(&id);
        let at: usize = find_pending(&state.pending, &id);
        if at >= state.pending.len() {
            assert forall|k: int| 0 <= k < state@.pending.len() implies (
            #[trigger] state@.pending[k]).request.request_id != Some(id) by {
                assert(state.pending@[k].request.request_id != Some(id));
            }
            return Err(AdminError::OfferLost);
        }
        assert(state@.pending[at as int].request.request_id == Some(id));
        return Ok(Some(OutboxItem::Offer(state.pending[at].offer.duplicate())));
    }
    if state.decision_outbox.len() > 0 {
        return Ok(Some(OutboxItem::Decision(state.decision_outbox[0].duplicate())));
    }
    Ok(None)
}

/// Whether the relay acknowledged a pairing record.
pub fn check_pairing_ack(answer: &RelayAnswer, expected: &[u8; 32]) -> (result: Result<
    (),
    AdminError,
>)
    ensures
        result == match *answer {
            RelayAnswer::Error => Err::<(), AdminError>(AdminError::Refused),
            RelayAnswer::Reply(PublisherReply::PairingAck { request_id }) => if request_id
                == *expected {
                Ok::<(), AdminError>(())
            } else {
                Err::<(), AdminError>(AdminError::UnexpectedReply)
            },
            _ => Err::<(), AdminError>(AdminError::UnexpectedReply),
        },
{
    match answer {
        RelayAnswer::Error => Err(AdminError::Refused),
        RelayAnswer::Reply(PublisherReply::PairingAck { request_id }) => {
            if id_equal(request_id, expected) {
                Ok(())
            } else {
                Err(AdminError::UnexpectedReply)
            }
        },
        _ => Err(AdminError::UnexpectedReply),
    }
}

/// The request that the front of the outbox belongs to.
pub open spec fn front_request(state: AdminModel) -> [u8; 32] {
    if state.offer_outbox.len() > 0 {
        state.offer_outbox[0]
    } else {
        state.decision_outbox[0].request_id
    }
}

/// Takes the relay's answer to the front of the outbox. What it acknowledged leaves the
/// outbox; anything else leaves it as it is.
pub fn delivery_answered(state: &mut PublisherState, answer: &RelayAnswer) -> (result: Result<
    (),
    AdminError,
>)
    requires
        old(state)@.offer_outbox.len() > 0 || old(state)@.decision_outbox.len() > 0,
    ensures
        match *answer {
            RelayAnswer::Error => result == Err::<(), AdminError>(AdminError::Refused),
            RelayAnswer::Reply(PublisherReply::PairingAck { request_id }) => result
                == if request_id == front_request(old(state)@) {
                Ok::<(), AdminError>(())
            } else {
                Err::<(), AdminError>(AdminError::UnexpectedReply)
            },
            _ => result == Err::<(), AdminError>(AdminError::UnexpectedReply),
        },
        final(state)@ == if result is Ok {
            old(state)@.front_delivered()
        } else {
            old(state)@
        },
{
    let expected = if state.offer_outbox.len() > 0 {
        state.offer_outbox[0]
    } else {
        state.decision_outbox[0].request_id
    };
    let checked = check_pairing_ack(answer, &expected);
    if checked.is_ok() {
        if state.offer_outbox.len() > 0 {
            let sent = state.offer_outbox.remove(0);
            assert(state.offer_outbox@ =~= old(state)@.offer_outbox.drop_first());
        } else {
            let sent = state.decision_outbox.remove(0);
            assert(state@.decision_outbox =~= old(state)@.decision_outbox.drop_first());
        }
    }
    checked
}

/// A group of one stream under which something was published.
pub open spec fn is_sendable(group: RetainedGroupKey, stream_id: u128) -> bool {
    group.stream_id == stream_id && group.content_bytes > 0
}

/// The groups whose keys a newly approved viewer is sent: the newest first.
pub open spec fn sendable_groups(groups: Seq<RetainedGroupKey>, stream_id: u128) -> Seq<
    RetainedGroupKey,
>
    decreases groups.len(),
{
    if groups.len() == 0 {
        Seq::empty()
    } else if is_sendable(groups.first(), stream_id) {
        sendable_groups(groups.drop_first(), stream_id).push(groups.first())
    } else {
        sendable_groups(groups.drop_first(), stream_id)
    }
}

/// Picks the groups whose keys a newly approved viewer is sent, the newest first. A group
/// without content is left out: the relay holds nothing of it and would refuse its key.
pub fn history_groups(groups: &Vec<RetainedGroupKey>, stream_id: u128) -> (picked: Vec<
    RetainedGroupKey,
>)
    ensures
        picked@ == sendable_groups(groups@, stream_id),
{
    let mut picked: Vec<RetainedGroupKey> = Vec::new();
    let mut at: usize = groups.len();
    let ghost all = sendable_groups(groups@, stream_id);
    assert(groups@.skip(0) =~= groups@);
    assert(all =~= picked@ + sendable_groups(groups@.take(at as int), stream_id)) by {
        assert(groups@.take(at as int) =~= groups@);
    }
    while at > 0
        invariant
            at <= groups@.len(),
            all == picked@ + sendable_groups(groups@.take(at as int), stream_id),
        decreases at,
    {
        at -= 1;
        let group = groups[at];
        proof {
            lemma_sendable_from_behind(groups@.take(at + 1), stream_id);
            assert(groups@.take(at + 1).drop_last() =~= groups@.take(at as int));
        }
        if group.stream_id == stream_id && group.has_published_content() {
            picked.push(group);
        }
        assert(all =~= picked@ + sendable_groups(groups@.take(at as int), stream_id));
    }
    assert(picked@ =~= all);
    picked
}

proof fn lemma_sendable_from_behind(groups: Seq<RetainedGroupKey>, stream_id: u128)
    requires
        groups.len() > 0,
    ensures
        sendable_groups(groups, stream_id) == if is_sendable(groups.last(), stream_id) {
            seq![groups.last()] + sendable_groups(groups.drop_last(), stream_id)
        } else {
            sendable_groups(groups.drop_last(), stream_id)
        },
    decreases groups.len(),
{
    reveal_with_fuel(sendable_groups, 2);
    if groups.len() > 1 {
        let rest = groups.drop_first();
        lemma_sendable_from_behind(rest, stream_id);
        assert(rest.drop_last() =~= groups.drop_last().drop_first());
        assert(rest.last() == groups.last());
        assert(groups.drop_last().first() == groups.first());
        let inner = sendable_groups(rest.drop_last(), stream_id);
        assert((seq![groups.last()] + inner).push(groups.first()) =~= seq![groups.last()]
            + inner.push(groups.first()));
        assert(sendable_groups(groups, stream_id) =~= if is_sendable(groups.last(), stream_id) {
            seq![groups.last()] + sendable_groups(groups.drop_last(), stream_id)
        } else {
            sendable_groups(groups.drop_last(), stream_id)
        });
    } else {
        assert(groups.drop_first() =~= Seq::empty());
        assert(groups.drop_last() =~= Seq::empty());
        assert(groups.first() == groups.last());
        assert(sendable_groups(groups, stream_id) =~= if is_sendable(groups.last(), stream_id) {
            seq![groups.last()] + sendable_groups(groups.drop_last(), stream_id)
        } else {
            sendable_groups(groups.drop_last(), stream_id)
        });
    }
}

/// Whether the relay confirmed that it took the kept keys: it answers the ping behind them.
pub fn check_history_answer(answer: &RelayAnswer) -> (result: Result<(), AdminError>)
    ensures
        result == match *answer {
            RelayAnswer::Error => Err::<(), AdminError>(AdminError::Refused),
            RelayAnswer::Reply(PublisherReply::Pong { .. }) => Ok::<(), AdminError>(()),
            _ => Err::<(), AdminError>(AdminError::UnexpectedReply),
        },
{
    match answer {
        RelayAnswer::Error => Err(AdminError::Refused),
        RelayAnswer::Reply(PublisherReply::Pong { .. }) => Ok(()),
        _ => Err(AdminError::UnexpectedReply),
    }
}

/// Takes a grant out of the queue for the kept keys.
pub fn history_sent(state: &mut PublisherState, grant: &StreamGrant)
    ensures
        final(state)@ == old(state)@.history_delivered(*grant),
{
    state.history_outbox =
    drop_grant(&state.history_outbox, grant.stream_id, &grant.viewer.fingerprint);
}

fn ids_ascending(list: &Vec<[u8; 32]>) -> (ordered: bool)
    ensures
        ordered == ascending(list@, ids()),
{
    let count: usize = list.len();
    let mut i: usize = 1;
    while i < count
        invariant
            1 <= i,
            count == list@.len(),
            forall|j: int, k: int|
                0 <= j < k < i && k < count ==> id_order(#[trigger] list@[j]) < id_order(
                    #[trigger] list@[k],
                ),
        decreases count - i,
    {
        if !id_before(&list[i - 1], &list[i]) {
            assert(ids()(list@[i as int], list@[i - 1]));
            return false;
        }
        assert forall|j: int, k: int| 0 <= j < k < i + 1 implies id_order(#[trigger] list@[j])
            < id_order(#[trigger] list@[k]) by {
            assert(j == i - 1 || id_order(list@[j]) < id_order(list@[i - 1]) || k < i);
        }
        i += 1;
    }
    true
}

fn decisions_ascending(list: &Vec<PublisherDecision>) -> (ordered: bool)
    ensures
        ordered == ascending(list@.map_values(decision_image()), decisions()),
{
    let ghost models = list@.map_values(decision_image());
    let count: usize = list.len();
    let mut i: usize = 1;
    while i < count
        invariant
            1 <= i,
            count == list@.len(),
            models == list@.map_values(decision_image()),
            forall|j: int, k: int|
                0 <= j < k < i && k < count ==> id_order((#[trigger] models[j]).request_id)
                    < id_order((#[trigger] models[k]).request_id),
        decreases count - i,
    {
        if !id_before(&list[i - 1].request_id, &list[i].request_id) {
            assert(decisions()(models[i as int], models[i - 1]));
            return false;
        }
        assert forall|j: int, k: int| 0 <= j < k < i + 1 implies id_order(
            (#[trigger] models[j]).request_id,
        ) < id_order((#[trigger] models[k]).request_id) by {
            assert(id_order(models[i - 1].request_id) < id_order(models[i as int].request_id));
            assert(j == i - 1 || id_order(models[j].request_id) < id_order(
                models[i - 1].request_id,
            ) || k < i);
        }
        i += 1;
    }
    true
}

fn grants_ascending(list: &Vec<StreamGrant>) -> (ordered: bool)
    ensures
        ordered == ascending(list@, grants()),
{
    let count: usize = list.len();
    let mut i: usize = 1;
    while i < count
        invariant
            1 <= i,
            count == list@.len(),
            forall|j: int, k: int|
                0 <= j < k < i && k < count ==> !grants()(
                    #[trigger] list@[k],
                    #[trigger] list@[j],
                ),
        decreases count - i,
    {
        if grant_at_most(&list[i], &list[i - 1]) {
            return false;
        }
        assert forall|j: int, k: int| 0 <= j < k < i + 1 implies !grants()(
            #[trigger] list@[k],
            #[trigger] list@[j],
        ) by {
            if k == i && j < i - 1 {
                assert(!grants()(list@[i - 1], list@[j]));
                assert(!grants()(list@[i as int], list@[i - 1]));
            }
        }
        i += 1;
    }
    true
}

/// Checks bounds, order and references of a state.
pub fn validate_state(state: &PublisherState) -> (result: Result<(), AdminError>)
    ensures
        result == if state@.is_valid() {
            Ok::<(), AdminError>(())
        } else {
            Err::<(), AdminError>(AdminError::StateInvalid)
        },
{
    if state.pending.len() > MAX_STATE_RECORDS || state.approved.len() > MAX_STATE_RECORDS
        || state.revoked.len() > MAX_STATE_RECORDS || state.offer_outbox.len() > MAX_STATE_RECORDS
        || state.decision_outbox.len() > MAX_STATE_RECORDS || state.history_outbox.len()
        > MAX_STATE_RECORDS {
        return Err(AdminError::StateInvalid);
    }
    if !ids_ascending(&state.offer_outbox) || !decisions_ascending(&state.decision_outbox)
        || !grants_ascending(&state.history_outbox) {
        return Err(AdminError::StateInvalid);
    }
    let count: usize = state.offer_outbox.len();
    let mut i: usize = 0;
    while i < count
        invariant
            i <= count == state.offer_outbox@.len(),
            forall|k: int|
                0 <= k < i ==> state@.is_pending(#[trigger] state@.offer_outbox[k]),
        decreases count - i,
    {
        if !state.is_pending(&state.offer_outbox[i]) {
            assert(!state@.is_pending(state@.offer_outbox[i as int]));
            return Err(AdminError::StateInvalid);
        }
        i += 1;
    }
    Ok(())
}

/// A state as it was decoded from a file.
#[derive(Debug)]
pub struct DecodedState {
    /// Version that the file names.
    pub version: u16,
    /// Bytes that followed it.
    pub unread: usize,
    /// Whether it encodes to the very bytes that it was read from.
    pub canonical: bool,
    /// The state; one of the older version has nothing in its outboxes.
    pub state: PublisherState,
}

/// Whether a decoded state is the one canonical form of a version.
pub open spec fn is_canonical(decoded: DecodedState, version: u16) -> bool {
    decoded.unread == 0 && decoded.version == version && decoded.canonical
}

/// Accepts a stored state: one of the current version, or else one of the version before,
/// whose grants are all queued for the kept keys.
pub fn accept_state(current: Option<DecodedState>, older: Option<DecodedState>) -> (result: Result<
    PublisherState,
    AdminError,
>)
    ensures
        ({
            let migrated = AdminModel {
                pending: older->0.state@.pending,
                approved: older->0.state@.approved,
                revoked: older->0.state@.revoked,
                history_outbox: older->0.state@.approved,
                ..AdminModel::initial()
            };
            outcome(
                result,
                if current is Some && is_canonical(current->0, STATE_VERSION) {
                    if current->0.state@.is_valid() {
                        Ok(current->0.state@)
                    } else {
                        Err(AdminError::StateInvalid)
                    }
                } else if older is Some && is_canonical(older->0, 2) {
                    if migrated.is_valid() {
                        Ok(migrated)
                    } else {
                        Err(AdminError::StateInvalid)
                    }
                } else {
                    Err(AdminError::StateNotCanonical)
                },
            )
        }),
{
    match current {
        Some(decoded) => {
            if decoded.unread == 0 && decoded.version == STATE_VERSION && decoded.canonical {
                return match validate_state(&decoded.state) {
                    Err(error) => Err(error),
                    Ok(()) => Ok(decoded.state),
                };
            }
        },
        None => {},
    }
    match older {
        None => Err(AdminError::StateNotCanonical),
        Some(decoded) => {
            if decoded.unread > 0 || decoded.version != 2 || !decoded.canonical {
                return Err(AdminError::StateNotCanonical);
            }
            let old = decoded.state;
            let queued = copy_grants(&old.approved);
            let state = PublisherState {
                pending: old.pending,
                approved: old.approved,
                revoked: old.revoked,
                offer_outbox: Vec::new(),
                decision_outbox: Vec::new(),
                history_outbox: queued,
            };
            assert(state@.decision_outbox =~= Seq::empty());
            match validate_state(&state) {
                Err(error) => Err(error),
                Ok(()) => Ok(state),
            }
        },
    }
}

fn copy_grants(list: &Vec<StreamGrant>) -> (copy: Vec<StreamGrant>)
    ensures
        copy@ == list@,
{
    let mut copy: Vec<StreamGrant> = Vec::new();
    let count: usize = list.len();
    let mut i: usize = 0;
    while i < count
        invariant
            i <= count == list@.len(),
            copy@ == list@.take(i as int),
        decreases count - i,
    {
        copy.push(list[i]);
        i += 1;
    }
    assert(copy@ =~= list@);
    copy
}

/// Checks a state and the size of its encoding before it is written.
pub fn check_for_saving(state: &PublisherState, encoded_len: usize) -> (result: Result<
    (),
    AdminError,
>)
    ensures
        result == if !state@.is_valid() {
            Err::<(), AdminError>(AdminError::StateInvalid)
        } else if encoded_len > MAX_STATE_BYTES {
            Err::<(), AdminError>(AdminError::StateTooLarge)
        } else {
            Ok::<(), AdminError>(())
        },
{
    match validate_state(state) {
        Err(error) => Err(error),
        Ok(()) => {
            if encoded_len > MAX_STATE_BYTES {
                Err(AdminError::StateTooLarge)
            } else {
                Ok(())
            }
        },
    }
}

/// Settles the approval policy. Trusting an authority needs one; where there is both an
/// authority and a list of revoked credentials, the list must be valid.
pub fn load_policy(
    mode: ViewerPolicy,
    has_authority: bool,
    has_revocations: bool,
    revocations_valid: bool,
) -> (result: Result<ApprovalPolicy, AdminError>)
    ensures
        result == if mode == ViewerPolicy::TrustedCa && !has_authority {
            Err::<ApprovalPolicy, AdminError>(AdminError::AuthorityMissing)
        } else if has_authority && has_revocations && !revocations_valid {
            Err::<ApprovalPolicy, AdminError>(AdminError::RevocationsInvalid)
        } else {
            Ok::<ApprovalPolicy, AdminError>(ApprovalPolicy { mode, has_authority })
        },
{
    if mode == ViewerPolicy::TrustedCa && !has_authority {
        return Err(AdminError::AuthorityMissing);
    }
    if has_authority && has_revocations && !revocations_valid {
        return Err(AdminError::RevocationsInvalid);
    }
    Ok(ApprovalPolicy { mode, has_authority })
}

/// The fingerprint by which an offer names the relay.
pub fn relay_fingerprint(relay_key: &[u8; 32]) -> (fingerprint: [u8; 32])
    ensures
        fingerprint == sha256_of(relay_key@),
{
    sha256(relay_key)
}

/// Whether a word of the command line names an administrative command.
pub open spec fn names_command(word: Seq<char>) -> bool {
    ||| word == "requests"@
    ||| word == "approve"@
    ||| word == "approve-all"@
    ||| word == "deny"@
    ||| word == "revoke"@
    ||| word == "viewers"@
    ||| word == "credential-request"@
}

/// Whether a word of the arguments names an administrative command.
pub open spec fn hold_command(arguments: Seq<String>) -> bool {
    exists|i: int| 0 <= i < arguments.len() && names_command((#[trigger] arguments[i])@)
}

/// Whether the arguments ask for an administrative command.
pub fn is_admin_command(arguments: &Vec<String>) -> (found: bool)
    ensures
        found == hold_command(arguments@),
{
    let count: usize = arguments.len();
    let mut i: usize = 0;
    while i < count
        invariant
            i <= count == arguments@.len(),
            forall|k: int| 0 <= k < i ==> !names_command((#[trigger] arguments@[k])@),
        decreases count - i,
    {
        let word = arguments[i].as_str();
        if texts_equal(word, "requests") || texts_equal(word, "approve") || texts_equal(
            word,
            "approve-all",
        ) || texts_equal(word, "deny") || texts_equal(word, "revoke") || texts_equal(
            word,
            "viewers",
        ) || texts_equal(word, "credential-request") {
            assert(names_command(arguments@[i as int]@));
            return true;
        }
        i += 1;
    }
    false
}

/// Whether a relay's transport key is accepted, and whether it is to be learned: an
/// explicit pin counts before what is known, and nothing is learned under one.
pub fn check_relay_key(
    pin: &Option<[u8; 32]>,
    known: &Option<[u8; 32]>,
    actual: &[u8; 32],
) -> (learn: Option<bool>)
    ensures
        ({
            let expected = if pin is Some {
                *pin
            } else {
                *known
            };
            learn == if expected is Some && expected->0 != *actual {
                None::<bool>
            } else {
                Some(pin is None)
            }
        }),
{
    let expected = match pin {
        Some(_) => pin,
        None => known,
    };
    match expected {
        Some(key) => {
            if !id_equal(key, actual) {
                return None;
            }
        },
        None => {},
    }
    Some(pin.is_none())
}

/// What an administrator asks for.
#[derive(Debug)]
pub enum AdminCommand {
    /// Fetch and show pending requests.
    Requests,
    /// Approve a confirmed request.
    Approve {
        /// Its identifier or a unique prefix of it.
        request: String,
    },
    /// Approve every confirmed request.
    ApproveAll,
    /// Turn a request away.
    Deny {
        /// Its identifier or a unique prefix of it.
        request: String,
    },
    /// Take a viewer's access to a stream away for good.
    Revoke {
        /// The viewer's identifier or a unique prefix of it.
        viewer: String,
        /// The stream.
        stream: u128,
    },
    /// List viewers.
    Viewers,
    /// Make a request for an authority.
    CredentialRequest,
}

impl AdminCommand {
    /// Whether the command works without the relay. The others empty the outbox and fetch
    /// the inbox first, and empty the outbox again behind.
    pub fn is_offline(&self) -> (offline: bool)
        ensures
            offline == (self is Viewers || self is Revoke || self is CredentialRequest),
    {
        match self {
            AdminCommand::Viewers => true,
            AdminCommand::Revoke { .. } => true,
            AdminCommand::CredentialRequest => true,
            _ => false,
        }
    }

    /// Whether the command works on the stored state.
    pub fn uses_state(&self) -> (uses: bool)
        ensures
            uses == !(self is CredentialRequest),
    {
        match self {
            AdminCommand::CredentialRequest => false,
            _ => true,
        }
    }
}

} // verus!

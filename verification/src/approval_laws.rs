//! What holds of a publisher's approvals, whatever was asked and decided before. Each law
//! speaks of what a call may return for what it was given.

use vstd::prelude::*;

use crate::admin::{
    add_approved, approved_viewers, decide, delivery_answered, history_groups, history_sent,
    next_delivery, queue_decision, receive_confirmations, receive_request, request_action,
    revoke, select_request, sendable_groups, unique_index, values_view, viewers_of,
    CheckedConfirmation, IncomingRequest, OutboxItem, PublisherState,
};
use crate::admin_laws::{lemma_two_are_kept, lemma_unique_match};
use crate::admin_model::{
    decision_on, decisions, grant_names, grants, has_prefix, ids, is_grant_of, pending_id,
    request_names, revocations, unique_match, AdminError, AdminModel, ApprovalPolicy,
    PendingModel, RequestAction, RevokedGrant, StreamGrant,
};
use crate::key_history::RetainedGroupKey;
use crate::order::{
    first_where, kept_where, lemma_first_where_means, lemma_kept_where, sorting_keeps_every_item,
};
use crate::publication::RelayAnswer;
use crate::records::{
    IdentityPublic, PairDecisionReason, PairRequest, PublisherDecision, PublisherDecisionModel,
};
use crate::service::PublisherReply;
use crate::text::{begins_with, hex_text, lower, lowered, stands_at};

verus! {

/// Whether a viewer may see a stream.
pub open spec fn may_watch(state: PublisherState, stream_id: u128, viewer_id: [u8; 32]) -> bool {
    exists|i: int|
        0 <= i < state.approved@.len() && (#[trigger] state.approved@[i]).stream_id == stream_id
            && state.approved@[i].viewer.fingerprint == Some(viewer_id)
}

/// Whether a stream was taken away from a viewer.
pub open spec fn lost_for_good(state: PublisherState, stream_id: u128, viewer_id: [u8; 32]) -> bool {
    exists|i: int|
        0 <= i < state.revoked@.len() && (#[trigger] state.revoked@[i]).stream_id == stream_id
            && state.revoked@[i].viewer_id == viewer_id
}

/// Whether a request waits for a decision.
pub open spec fn waits(state: PublisherState, request_id: [u8; 32]) -> bool {
    exists|i: int|
        0 <= i < state.pending@.len() && (#[trigger] state.pending@[i]).request.request_id == Some(
            request_id,
        )
}

/// Whether a decision is on its way to the relay.
pub open spec fn is_queued(state: PublisherState, decision: PublisherDecisionModel) -> bool {
    exists|i: int|
        0 <= i < state.decision_outbox@.len() && (#[trigger] state.decision_outbox@[i])@
            == decision
}

/// Whether a decision on a request, other than a given one, is on its way to the relay.
pub open spec fn conflicts(state: PublisherState, decision: PublisherDecisionModel) -> bool {
    exists|i: int|
        0 <= i < state.decision_outbox@.len() && (
        #[trigger] state.decision_outbox@[i]).request_id == decision.request_id
            && state.decision_outbox@[i]@ != decision
}

/// Whether a viewer is to be sent the kept keys of a stream.
pub open spec fn awaits_history(state: PublisherState, stream_id: u128, viewer_id: [u8; 32]) -> bool {
    exists|i: int|
        0 <= i < state.history_outbox@.len() && (#[trigger] state.history_outbox@[i]).stream_id
            == stream_id && state.history_outbox@[i].viewer.fingerprint == Some(viewer_id)
}

proof fn lemma_state(state: PublisherState, stream_id: u128, id: [u8; 32])
    ensures
        may_watch(state, stream_id, id) <==> state@.is_approved(stream_id, id),
        lost_for_good(state, stream_id, id) <==> state@.is_revoked(stream_id, id),
        waits(state, id) <==> state@.is_pending(id),
{
    if state@.is_pending(id) {
        let i = choose|i: int|
            0 <= i < state@.pending.len() && (#[trigger] state@.pending[i]).request.request_id
                == Some(id);
        assert(state.pending@[i].request.request_id == Some(id));
    }
    if waits(state, id) {
        let i = choose|i: int|
            0 <= i < state.pending@.len() && (#[trigger] state.pending@[i]).request.request_id
                == Some(id);
        assert(state@.pending[i].request.request_id == Some(id));
    }
    if may_watch(state, stream_id, id) {
        let i = choose|i: int|
            0 <= i < state.approved@.len() && (#[trigger] state.approved@[i]).stream_id
                == stream_id && state.approved@[i].viewer.fingerprint == Some(id);
        assert(is_grant_of(state@.approved[i], stream_id, id));
    }
    if state@.is_approved(stream_id, id) {
        let i = choose|i: int|
            0 <= i < state@.approved.len() && is_grant_of(
                #[trigger] state@.approved[i],
                stream_id,
                id,
            );
        assert(state.approved@[i].stream_id == stream_id);
    }
    let gone = RevokedGrant { stream_id, viewer_id: id };
    if lost_for_good(state, stream_id, id) {
        let i = choose|i: int|
            0 <= i < state.revoked@.len() && (#[trigger] state.revoked@[i]).stream_id == stream_id
                && state.revoked@[i].viewer_id == id;
        assert(state@.revoked[i] == gone);
    }
}

proof fn lemma_queued(state: PublisherState, decision: PublisherDecisionModel)
    ensures
        is_queued(state, decision) <==> state@.decision_outbox.contains(decision),
{
    if is_queued(state, decision) {
        let i = choose|i: int|
            0 <= i < state.decision_outbox@.len() && (#[trigger] state.decision_outbox@[i])@
                == decision;
        assert(state@.decision_outbox[i] == decision);
    }
    if state@.decision_outbox.contains(decision) {
        let i = choose|i: int|
            0 <= i < state@.decision_outbox.len() && state@.decision_outbox[i] == decision;
        assert(state.decision_outbox@[i]@ == decision);
    }
}

/// A verified request of a viewer that was not turned away for good, and that does not wait
/// already, is approved by the open policy, approved by the trusted authority where one is
/// set and vouches for its credential, and offered verification where approval is by hand.
/// The trusted authority's policy passes over everyone else. A request that waits, or of a
/// viewer that was turned away, is passed over under every policy.
pub proof fn policies_decide_requests(
    state: &PublisherState,
    policy: &ApprovalPolicy,
    request: &PairRequest,
    vouched: bool,
    result: Result<RequestAction, AdminError>,
    request_id: [u8; 32],
    viewer_id: [u8; 32],
)
    requires
        call_ensures(request_action, (state, policy, request, vouched), result),
        request.request_id == Some(request_id),
        request.viewer.fingerprint == Some(viewer_id),
    ensures
        result is Ok,
        lost_for_good(*state, request.stream_id, viewer_id) || waits(*state, request_id)
            ==> result->Ok_0 is Skip,
        !lost_for_good(*state, request.stream_id, viewer_id) && !waits(*state, request_id) ==> {
            &&& policy.mode is Open ==> result->Ok_0 == RequestAction::Approve(
                PairDecisionReason::OpenPolicy,
            )
            &&& policy.mode is Required ==> result->Ok_0 is Offer
            &&& policy.mode is TrustedCa && policy.has_authority && request.has_credential
                && vouched ==> result->Ok_0 == RequestAction::Approve(
                PairDecisionReason::TrustedViewerCa,
            )
            &&& policy.mode is TrustedCa && !(policy.has_authority && request.has_credential
                && vouched) ==> result->Ok_0 is Skip
        },
{
    lemma_state(*state, request.stream_id, viewer_id);
    lemma_state(*state, request.stream_id, request_id);
}

/// Whether a policy approves a request by itself.
pub open spec fn approves(policy: ApprovalPolicy, has_credential: bool, vouched: bool) -> bool {
    policy.mode is Open || policy.mode is TrustedCa && policy.has_authority && has_credential
        && vouched
}

/// The state after access was granted and a decision queued.
proof fn lemma_granted_and_queued(
    before: PublisherState,
    after: PublisherState,
    stream_id: u128,
    viewer: IdentityPublic,
    viewer_id: [u8; 32],
    decision: PublisherDecisionModel,
)
    requires
        viewer.fingerprint == Some(viewer_id),
        !conflicts(before, decision),
        !before@.is_revoked(stream_id, viewer_id),
        before@.granted(stream_id, viewer) matches Ok(granted) && granted.decision_queued(decision)
            == Ok::<AdminModel, AdminError>(after@),
    ensures
        may_watch(after, stream_id, viewer_id),
        is_queued(after, decision),
        forall|s: u128, v: [u8; 32]| #[trigger]
            may_watch(before, s, v) ==> may_watch(after, s, v),
        forall|s: u128, v: [u8; 32]| #[trigger]
            may_watch(after, s, v) ==> may_watch(before, s, v) || (s == stream_id && v
                == viewer_id),
        !may_watch(before, stream_id, viewer_id) ==> awaits_history(after, stream_id, viewer_id),
{
    let grant = StreamGrant { stream_id, viewer };
    let granted = before@.granted(stream_id, viewer)->Ok_0;
    lemma_state(before, stream_id, viewer_id);
    sorting_keeps_every_item(before@.approved.push(grant), grants());
    sorting_keeps_every_item(before@.history_outbox.push(grant), grants());
    sorting_keeps_every_item(granted.decision_outbox.push(decision), decisions());
    let pushed = before@.approved.push(grant);
    assert(pushed[pushed.len() - 1] == grant);
    let history = before@.history_outbox.push(grant);
    assert(history[history.len() - 1] == grant);
    let queued = granted.decision_outbox.push(decision);
    assert(queued[queued.len() - 1] == decision);
    lemma_first_where_means(granted.decision_outbox, decision_on(decision.request_id));
    let at = first_where(granted.decision_outbox, decision_on(decision.request_id));
    if at < granted.decision_outbox.len() {
        assert(granted.decision_outbox[at] == decision);
    }
    assert(after@.decision_outbox.contains(decision));
    lemma_queued(after, decision);
    if !before@.is_approved(stream_id, viewer_id) {
        assert(pushed.contains(grant));
        assert(after@.approved.contains(grant));
        let i = choose|i: int| 0 <= i < after@.approved.len() && after@.approved[i] == grant;
        assert(after.approved@[i].stream_id == stream_id);
        assert(history.contains(grant));
        assert(after@.history_outbox.contains(grant));
        let j = choose|j: int|
            0 <= j < after@.history_outbox.len() && after@.history_outbox[j] == grant;
        assert(after.history_outbox@[j].stream_id == stream_id);
    } else {
        assert(after.approved@ == before.approved@);
        assert(may_watch(before, stream_id, viewer_id));
        let i = choose|i: int|
            0 <= i < before.approved@.len() && (#[trigger] before.approved@[i]).stream_id
                == stream_id && before.approved@[i].viewer.fingerprint == Some(viewer_id);
        assert(after.approved@[i].stream_id == stream_id);
    }
    assert forall|s: u128, v: [u8; 32]| #[trigger] may_watch(before, s, v) implies may_watch(
        after,
        s,
        v,
    ) by {
        let i = choose|i: int|
            0 <= i < before.approved@.len() && (#[trigger] before.approved@[i]).stream_id == s
                && before.approved@[i].viewer.fingerprint == Some(v);
        let item = before.approved@[i];
        assert(pushed[i] == item);
        assert(pushed.contains(item));
        if before@.is_approved(stream_id, viewer_id) {
            assert(after.approved@[i] == item);
        } else {
            assert(after@.approved.contains(item));
            let k = choose|k: int| 0 <= k < after@.approved.len() && after@.approved[k] == item;
            assert(after.approved@[k] == item);
        }
    }
    assert forall|s: u128, v: [u8; 32]| #[trigger] may_watch(after, s, v) implies may_watch(
        before,
        s,
        v,
    ) || (s == stream_id && v == viewer_id) by {
        let i = choose|i: int|
            0 <= i < after.approved@.len() && (#[trigger] after.approved@[i]).stream_id == s
                && after.approved@[i].viewer.fingerprint == Some(v);
        let item = after.approved@[i];
        if before@.is_approved(stream_id, viewer_id) {
            assert(before.approved@[i] == item);
        } else {
            assert(after@.approved.contains(item));
            assert(pushed.contains(item));
            let k = choose|k: int| 0 <= k < pushed.len() && pushed[k] == item;
            if k < before@.approved.len() {
                assert(before.approved@[k] == item);
            }
        }
    }
}

/// A viewer that a policy approves may watch the stream that it asked for, the signed
/// decision is on its way, and the kept keys are sent to it. No other viewer gains or loses
/// anything.
pub proof fn approved_requests_are_granted(
    state: PublisherState,
    policy: &ApprovalPolicy,
    incoming: IncomingRequest,
    result: Result<PublisherState, AdminError>,
    request_id: [u8; 32],
    viewer_id: [u8; 32],
    decision: PublisherDecision,
)
    requires
        call_ensures(receive_request, (state, policy, incoming), result),
        incoming.verified,
        incoming.request.request_id == Some(request_id),
        incoming.request.viewer.fingerprint == Some(viewer_id),
        !lost_for_good(state, incoming.request.stream_id, viewer_id),
        !waits(state, request_id),
        approves(*policy, incoming.request.has_credential, incoming.credential_verified),
        incoming.decision == Some(decision),
        !conflicts(state, decision@),
    ensures
        result matches Ok(next) && {
            let stream_id = incoming.request.stream_id;
            &&& may_watch(next, stream_id, viewer_id)
            &&& is_queued(next, decision@)
            &&& !may_watch(state, stream_id, viewer_id) ==> awaits_history(
                next,
                stream_id,
                viewer_id,
            )
            &&& next.pending@.len() == state.pending@.len()
            &&& next.revoked@ == state.revoked@
            &&& forall|s: u128, v: [u8; 32]| #[trigger]
                may_watch(next, s, v) ==> may_watch(state, s, v) || (s == stream_id && v
                    == viewer_id)
            &&& forall|s: u128, v: [u8; 32]| #[trigger]
                may_watch(state, s, v) ==> may_watch(next, s, v)
        },
{
    let stream_id = incoming.request.stream_id;
    lemma_state(state, stream_id, viewer_id);
    lemma_state(state, stream_id, request_id);
    let granted = state@.granted(stream_id, incoming.request.viewer);
    assert(granted is Ok);
    let outbox = granted->Ok_0.decision_outbox;
    assert(outbox == state@.decision_outbox);
    lemma_first_where_means(outbox, decision_on(decision@.request_id));
    let at = first_where(outbox, decision_on(decision@.request_id));
    if at < outbox.len() {
        assert(outbox[at] == state.decision_outbox@[at]@);
        assert(state.decision_outbox@[at].request_id == decision@.request_id);
        assert(outbox[at] == decision@);
    }
    assert(result is Ok);
    let next = result->Ok_0;
    lemma_granted_and_queued(
        state,
        next,
        stream_id,
        incoming.request.viewer,
        viewer_id,
        decision@,
    );
    assert(next@.pending.len() == next.pending@.len());
    assert(state@.pending.len() == state.pending@.len());
}

/// Where approval is by hand, a new request waits with its offer, which is on its way, and
/// nobody may watch who could not before.
pub proof fn requests_wait_where_approval_is_by_hand(
    state: PublisherState,
    policy: &ApprovalPolicy,
    incoming: IncomingRequest,
    result: Result<PublisherState, AdminError>,
    request_id: [u8; 32],
    viewer_id: [u8; 32],
)
    requires
        call_ensures(receive_request, (state, policy, incoming), result),
        incoming.verified,
        incoming.request.request_id == Some(request_id),
        incoming.request.viewer.fingerprint == Some(viewer_id),
        !lost_for_good(state, incoming.request.stream_id, viewer_id),
        !waits(state, request_id),
        policy.mode is Required,
        incoming.offer is Some,
    ensures
        result matches Ok(next) && {
            &&& next.pending@.len() == state.pending@.len() + 1
            &&& ({
                let last = next.pending@[next.pending@.len() - 1];
                &&& last.request@ == incoming.request@
                &&& last.offer@ == incoming.offer->0@
                &&& last.confirmation is None
                &&& last.source_addr@ == incoming.source_addr@
            })
            &&& next.offer_outbox@.contains(request_id)
            &&& next.approved@ == state.approved@
            &&& next.revoked@ == state.revoked@
            &&& next.history_outbox@ == state.history_outbox@
            &&& next@.decision_outbox == state@.decision_outbox
        },
{
    lemma_state(state, incoming.request.stream_id, viewer_id);
    lemma_state(state, incoming.request.stream_id, request_id);
    let next = result->Ok_0;
    let pushed = state@.offer_outbox.push(request_id);
    sorting_keeps_every_item(pushed, ids());
    assert(pushed[pushed.len() - 1] == request_id);
    assert(pushed.contains(request_id));
    let models = next@.pending;
    assert(models.len() == next.pending@.len());
    assert(models.last() == next.pending@[next.pending@.len() - 1]@);
}

/// A request that does not verify changes nothing.
pub proof fn unverified_requests_are_refused(
    state: PublisherState,
    policy: &ApprovalPolicy,
    incoming: IncomingRequest,
    result: Result<PublisherState, AdminError>,
)
    requires
        call_ensures(receive_request, (state, policy, incoming), result),
        !incoming.verified || incoming.request.request_id is None
            || incoming.request.viewer.fingerprint is None,
    ensures
        result is Err,
{
}

/// Access is granted to whoever it was not taken away from, once.
pub proof fn access_is_granted_once(
    state: PublisherState,
    stream_id: u128,
    viewer: IdentityPublic,
    result: Result<PublisherState, AdminError>,
    viewer_id: [u8; 32],
)
    requires
        call_ensures(add_approved, (state, stream_id, viewer), result),
        viewer.fingerprint == Some(viewer_id),
    ensures
        result is Ok <==> !lost_for_good(state, stream_id, viewer_id),
        result matches Err(error) ==> error is PermanentlyRevoked,
        result matches Ok(next) ==> {
            &&& may_watch(next, stream_id, viewer_id)
            &&& may_watch(state, stream_id, viewer_id) ==> next@ == state@
            &&& !may_watch(state, stream_id, viewer_id) ==> next.approved@.len()
                == state.approved@.len() + 1 && awaits_history(next, stream_id, viewer_id)
        },
{
    let grant = StreamGrant { stream_id, viewer };
    lemma_state(state, stream_id, viewer_id);
    let pushed = state@.approved.push(grant);
    let history = state@.history_outbox.push(grant);
    sorting_keeps_every_item(pushed, grants());
    sorting_keeps_every_item(history, grants());
    assert(pushed[pushed.len() - 1] == grant);
    assert(history[history.len() - 1] == grant);
    assert(pushed.contains(grant) && history.contains(grant));
    if result is Ok {
        let next = result->Ok_0;
        if !state@.is_approved(stream_id, viewer_id) {
            assert(next@.approved.contains(grant));
            let i = choose|i: int| 0 <= i < next@.approved.len() && next@.approved[i] == grant;
            assert(next.approved@[i].stream_id == stream_id);
            assert(next@.history_outbox.contains(grant));
            let j = choose|j: int|
                0 <= j < next@.history_outbox.len() && next@.history_outbox[j] == grant;
            assert(next.history_outbox@[j].stream_id == stream_id);
        } else {
            lemma_state(next, stream_id, viewer_id);
        }
    }
}

/// Whether a text begins with a prefix of hexadecimal digits, whose capitals count as small
/// letters.
pub open spec fn is_abbreviated(text: Seq<char>, prefix: Seq<char>) -> bool {
    prefix.len() <= text.len() && forall|k: int|
        0 <= k < prefix.len() ==> #[trigger] text[k] == if 'A' <= prefix[k] && prefix[k] <= 'Z' {
            (prefix[k] as u32 + 32) as char
        } else {
            prefix[k]
        }
}

/// Whether a prefix is made of hexadecimal digits.
pub open spec fn is_hexadecimal(prefix: Seq<char>) -> bool {
    prefix.len() > 0 && forall|k: int|
        0 <= k < prefix.len() ==> {
            ||| '0' <= #[trigger] prefix[k] && prefix[k] <= '9'
            ||| 'a' <= prefix[k] && prefix[k] <= 'f'
            ||| 'A' <= prefix[k] && prefix[k] <= 'F'
        }
}

/// A name is abbreviated where it begins with the prefix, capitals made small.
pub proof fn lemma_abbreviated(value: Option<Seq<char>>, prefix: Seq<char>)
    ensures
        has_prefix(prefix)(value) <==> (value matches Some(text) && is_abbreviated(text, prefix)),
{
    if let Some(text) = value {
        let small = lowered(prefix);
        if begins_with(text, small) {
            assert forall|k: int| 0 <= k < prefix.len() implies #[trigger] text[k] == lower(
                prefix[k],
            ) by {
                assert(text.subrange(0, small.len() as int)[k] == small[k]);
            }
            assert(is_abbreviated(text, prefix));
        }
        if is_abbreviated(text, prefix) {
            assert(text.subrange(0, small.len() as int) =~= small) by {
                assert forall|k: int| 0 <= k < small.len() implies text.subrange(
                    0,
                    small.len() as int,
                )[k] == small[k] by {
                    assert(text[k] == lower(prefix[k]));
                }
            }
            assert(stands_at(text, small, 0));
        }
    }
}

/// A prefix stands for the one value that begins with it. It is refused where it is not
/// hexadecimal, where no value begins with it, and where more than one does.
pub proof fn prefixes_stand_for_one_value(
    values: &Vec<Option<String>>,
    prefix: &str,
    result: Result<usize, AdminError>,
    at: int,
    other: int,
)
    requires
        call_ensures(unique_index, (values, prefix), result),
    ensures
        !is_hexadecimal(prefix@) <==> (result matches Err(AdminError::PrefixNotHex)),
        result matches Ok(found) ==> {
            &&& found < values@.len()
            &&& values@[found as int] is Some
            &&& is_abbreviated(values@[found as int]->0@, prefix@)
            &&& 0 <= other < values@.len() && other != found && values@[other] is Some
                ==> !is_abbreviated(values@[other]->0@, prefix@)
        },
        is_hexadecimal(prefix@) && 0 <= at < values@.len() && values@[at] is Some
            && is_abbreviated(values@[at]->0@, prefix@) ==> {
            &&& !(result matches Err(AdminError::NoMatch))
            &&& 0 <= other < values@.len() && other != at && values@[other] is Some
                && is_abbreviated(values@[other]->0@, prefix@) ==> (result matches Err(
                AdminError::Ambiguous,
            ))
        },
        result matches Err(error) ==> error is PrefixNotHex || error is NoMatch || error
            is Ambiguous,
{
    let views = values_view(values@);
    let wanted = has_prefix(prefix@);
    if result is Ok {
        lemma_unique_match(views, prefix@);
        lemma_abbreviated(views[result->Ok_0 as int], prefix@);
    }
    if 0 <= other < values@.len() {
        lemma_abbreviated(views[other], prefix@);
    }
    if 0 <= at < values@.len() {
        lemma_abbreviated(views[at], prefix@);
        if wanted(views[at]) {
            lemma_kept_where(views, wanted);
            assert(views.contains(views[at]));
            assert(kept_where(views, wanted).contains(views[at]));
            if 0 <= other < values@.len() && other != at && wanted(views[other]) {
                if at < other {
                    lemma_two_are_kept(views, wanted, at, other);
                } else {
                    lemma_two_are_kept(views, wanted, other, at);
                }
            }
        }
    }
}

/// Approving or denying by hand picks the one waiting request with a prefix, and approving
/// needs that its viewer has confirmed.
pub proof fn decisions_pick_one_request(
    state: &PublisherState,
    prefix: &str,
    approve: bool,
    result: Result<usize, AdminError>,
    at: usize,
)
    requires
        call_ensures(select_request, (state, prefix, approve), result),
        result == Ok::<usize, AdminError>(at),
    ensures
        at < state.pending@.len(),
        state.pending@[at as int].request.request_id is Some,
        is_abbreviated(hex_text((state.pending@[at as int].request.request_id->0)@), prefix@),
        approve ==> state.pending@[at as int].confirmation is Some,
        forall|k: int|
            0 <= k < state.pending@.len() && k != at && (
            #[trigger] state.pending@[k]).request.request_id is Some ==> !is_abbreviated(
                hex_text((state.pending@[k].request.request_id->0)@),
                prefix@,
            ),
{
    let names = request_names(state@.pending);
    lemma_unique_match(names, prefix@);
    lemma_abbreviated(names[at as int], prefix@);
    assert(state@.pending[at as int] == state.pending@[at as int]@);
    assert forall|k: int|
        0 <= k < state.pending@.len() && k != at && (
        #[trigger] state.pending@[k]).request.request_id is Some implies !is_abbreviated(
        hex_text((state.pending@[k].request.request_id->0)@),
        prefix@,
    ) by {
        assert(state@.pending[k] == state.pending@[k]@);
        assert(!has_prefix(prefix@)(names[k]));
        lemma_abbreviated(names[k], prefix@);
    }
}

/// A request that was approved by hand no longer waits, its viewer may watch the stream that
/// it asked for, and the decision is on its way. One that was denied no longer waits either,
/// the decision is on its way, and nobody may watch who could not before.
pub proof fn decided_requests_take_effect(
    state: PublisherState,
    prefix: &str,
    approve: bool,
    decision: PublisherDecision,
    result: Result<PublisherState, AdminError>,
    at: usize,
    viewer_id: [u8; 32],
)
    requires
        call_ensures(decide, (state, prefix, approve, Some(decision)), result),
        call_ensures(select_request, (&state, prefix, approve), Ok(at)),
        state.pending@[at as int].request.viewer.fingerprint == Some(viewer_id),
        approve ==> !lost_for_good(
            state,
            state.pending@[at as int].request.stream_id,
            viewer_id,
        ),
        !conflicts(state, decision@),
    ensures
        result matches Ok(next) && {
            let request = state.pending@[at as int].request;
            &&& next@.pending == state@.pending.remove(at as int)
            &&& is_queued(next, decision@)
            &&& !next.offer_outbox@.contains(request.request_id->0)
            &&& approve ==> may_watch(next, request.stream_id, viewer_id)
            &&& !approve ==> next.approved@ == state.approved@
            &&& next.revoked@ == state.revoked@
        },
{
    let request = state.pending@[at as int].request;
    let stream_id = request.stream_id;
    lemma_unique_match(request_names(state@.pending), prefix@);
    assert(state@.pending[at as int] == state.pending@[at as int]@);
    lemma_state(state, stream_id, viewer_id);
    let granted = if approve {
        state@.granted(stream_id, request.viewer)
    } else {
        Ok::<AdminModel, AdminError>(state@)
    };
    assert(granted is Ok);
    let outbox = granted->Ok_0.decision_outbox;
    lemma_first_where_means(outbox, decision_on(decision@.request_id));
    let first = first_where(outbox, decision_on(decision@.request_id));
    if first < outbox.len() {
        assert(outbox[first] == state.decision_outbox@[first]@);
        assert(state.decision_outbox@[first].request_id == decision@.request_id);
        assert(outbox[first] == decision@);
    }
    let queued = granted->Ok_0.decision_queued(decision@);
    assert(queued is Ok);
    let next = result->Ok_0;
    let pushed = outbox.push(decision@);
    sorting_keeps_every_item(pushed, decisions());
    assert(pushed[pushed.len() - 1] == decision@);
    assert(pushed.contains(decision@));
    if first < outbox.len() {
        assert(outbox.contains(decision@));
    }
    lemma_queued(next, decision@);
    lemma_kept_where(
        queued->Ok_0.offer_outbox,
        crate::admin_model::id_other_than(request.request_id->0),
    );
    if approve {
        let grant = StreamGrant { stream_id, viewer: request.viewer };
        let grown = state@.approved.push(grant);
        sorting_keeps_every_item(grown, grants());
        assert(grown[grown.len() - 1] == grant);
        assert(grown.contains(grant));
        if !state@.is_approved(stream_id, viewer_id) {
            assert(next@.approved.contains(grant));
            let i = choose|i: int| 0 <= i < next@.approved.len() && next@.approved[i] == grant;
            assert(next.approved@[i].stream_id == stream_id);
        } else {
            let i = choose|i: int|
                0 <= i < state.approved@.len() && (#[trigger] state.approved@[i]).stream_id
                    == stream_id && state.approved@[i].viewer.fingerprint == Some(viewer_id);
            assert(next.approved@[i].stream_id == stream_id);
        }
    }
}

/// A viewer whose access was revoked may not watch that stream any more, is never granted it
/// again and is sent no kept keys of it. Every other grant stays.
pub proof fn revoked_viewers_lose_their_stream(
    state: PublisherState,
    stream_id: u128,
    prefix: &str,
    result: Result<(PublisherState, [u8; 32]), AdminError>,
    next: PublisherState,
    viewer_id: [u8; 32],
)
    requires
        call_ensures(revoke, (state, stream_id, prefix), result),
        result == Ok::<(PublisherState, [u8; 32]), AdminError>((next, viewer_id)),
    ensures
        is_abbreviated(hex_text(viewer_id@), prefix@),
        may_watch(state, stream_id, viewer_id),
        !may_watch(next, stream_id, viewer_id),
        lost_for_good(next, stream_id, viewer_id),
        !awaits_history(next, stream_id, viewer_id),
        forall|s: u128, v: [u8; 32]|
            (s, v) != (stream_id, viewer_id) && #[trigger] may_watch(state, s, v) ==> may_watch(
                next,
                s,
                v,
            ),
        forall|s: u128, v: [u8; 32]| #[trigger] may_watch(next, s, v) ==> may_watch(state, s, v),
        forall|s: u128, v: [u8; 32]| #[trigger]
            lost_for_good(state, s, v) ==> lost_for_good(next, s, v),
        forall|s: u128, v: [u8; 32]| #[trigger]
            lost_for_good(next, s, v) ==> lost_for_good(state, s, v) || (s == stream_id && v
                == viewer_id),
{
    let names = grant_names(state@.approved, stream_id);
    lemma_unique_match(names, prefix@);
    let at = unique_match(names, prefix@)->Ok_0;
    lemma_abbreviated(names[at], prefix@);
    assert(state.approved@[at].stream_id == stream_id);
    let gone = RevokedGrant { stream_id, viewer_id };
    let pushed = state@.revoked.push(gone);
    sorting_keeps_every_item(pushed, revocations());
    assert(pushed[pushed.len() - 1] == gone);
    assert(pushed.contains(gone));
    assert(next@.revoked.contains(gone));
    lemma_state(next, stream_id, viewer_id);
    lemma_kept_where(
        state@.history_outbox,
        crate::admin_model::grant_other_than(stream_id, Some(viewer_id)),
    );
    if awaits_history(next, stream_id, viewer_id) {
        let i = choose|i: int|
            0 <= i < next.history_outbox@.len() && (#[trigger] next.history_outbox@[i]).stream_id
                == stream_id && next.history_outbox@[i].viewer.fingerprint == Some(viewer_id);
        assert(next@.history_outbox.contains(next.history_outbox@[i]));
    }
    let left = state@.approved.remove(at);
    assert(next.approved@ == left);
    if may_watch(next, stream_id, viewer_id) {
        let i = choose|i: int|
            0 <= i < next.approved@.len() && (#[trigger] next.approved@[i]).stream_id == stream_id
                && next.approved@[i].viewer.fingerprint == Some(viewer_id);
        let k = if i < at {
            i
        } else {
            i + 1
        };
        assert(state@.approved[k] == next.approved@[i]);
        assert(!has_prefix(prefix@)(names[k]));
        assert(names[k] == names[at]);
    }
    assert forall|s: u128, v: [u8; 32]|
        (s, v) != (stream_id, viewer_id) && #[trigger] may_watch(state, s, v) implies may_watch(
        next,
        s,
        v,
    ) by {
        let i = choose|i: int|
            0 <= i < state.approved@.len() && (#[trigger] state.approved@[i]).stream_id == s
                && state.approved@[i].viewer.fingerprint == Some(v);
        assert(i != at);
        let k = if i < at {
            i
        } else {
            i - 1
        };
        assert(next.approved@[k] == state.approved@[i]);
    }
    assert forall|s: u128, v: [u8; 32]| #[trigger] may_watch(next, s, v) implies may_watch(
        state,
        s,
        v,
    ) by {
        let i = choose|i: int|
            0 <= i < next.approved@.len() && (#[trigger] next.approved@[i]).stream_id == s
                && next.approved@[i].viewer.fingerprint == Some(v);
        let k = if i < at {
            i
        } else {
            i + 1
        };
        assert(state.approved@[k] == next.approved@[i]);
    }
    assert forall|s: u128, v: [u8; 32]| #[trigger] lost_for_good(state, s, v) implies lost_for_good(
        next,
        s,
        v,
    ) by {
        lemma_state(state, s, v);
        lemma_state(next, s, v);
        let item = RevokedGrant { stream_id: s, viewer_id: v };
        let i = choose|i: int| 0 <= i < state@.revoked.len() && state@.revoked[i] == item;
        assert(pushed[i] == item);
        assert(pushed.contains(item));
    }
    assert forall|s: u128, v: [u8; 32]| #[trigger] lost_for_good(next, s, v) implies lost_for_good(
        state,
        s,
        v,
    ) || (s == stream_id && v == viewer_id) by {
        lemma_state(state, s, v);
        lemma_state(next, s, v);
        let item = RevokedGrant { stream_id: s, viewer_id: v };
        if !state@.revoked.contains(gone) {
            assert(pushed.contains(item));
            let k = choose|k: int| 0 <= k < pushed.len() && pushed[k] == item;
            if k < state@.revoked.len() {
                assert(state@.revoked[k] == item);
            }
        }
    }
}

/// The viewers of a stream are those that were granted it, and no others.
pub proof fn streams_are_shown_to_their_viewers(
    state: &PublisherState,
    stream_id: u128,
    viewers: Vec<IdentityPublic>,
    viewer: IdentityPublic,
)
    requires
        call_ensures(approved_viewers, (state, stream_id), viewers),
    ensures
        viewers@.contains(viewer) <==> exists|i: int|
            0 <= i < state.approved@.len() && (#[trigger] state.approved@[i]).stream_id
                == stream_id && state.approved@[i].viewer == viewer,
        viewers@ == state.approved@.filter(
            |grant: StreamGrant| grant.stream_id == stream_id,
        ).map_values(|grant: StreamGrant| grant.viewer),
{
    lemma_viewers(state.approved@, stream_id, viewer);
}

proof fn lemma_viewers(approved: Seq<StreamGrant>, stream_id: u128, viewer: IdentityPublic)
    ensures
        viewers_of(approved, stream_id).contains(viewer) <==> exists|i: int|
            0 <= i < approved.len() && (#[trigger] approved[i]).stream_id == stream_id
                && approved[i].viewer == viewer,
        viewers_of(approved, stream_id) == approved.filter(
            |grant: StreamGrant| grant.stream_id == stream_id,
        ).map_values(|grant: StreamGrant| grant.viewer),
    decreases approved.len(),
{
    reveal(Seq::filter);
    let all = viewers_of(approved, stream_id);
    if approved.len() > 0 {
        let shorter = approved.drop_last();
        let before = viewers_of(shorter, stream_id);
        lemma_viewers(shorter, stream_id, viewer);
        if before.contains(viewer) {
            let i = choose|i: int|
                0 <= i < shorter.len() && (#[trigger] shorter[i]).stream_id == stream_id
                    && shorter[i].viewer == viewer;
            assert(approved[i] == shorter[i]);
            let k = choose|k: int| 0 <= k < before.len() && before[k] == viewer;
            assert(all[k] == viewer);
        }
        if exists|i: int|
            0 <= i < approved.len() && (#[trigger] approved[i]).stream_id == stream_id
                && approved[i].viewer == viewer {
            let i = choose|i: int|
                0 <= i < approved.len() && (#[trigger] approved[i]).stream_id == stream_id
                    && approved[i].viewer == viewer;
            if i < approved.len() - 1 {
                assert(shorter[i] == approved[i]);
            } else {
                assert(all[all.len() - 1] == viewer);
            }
        }
        if all.contains(viewer) && !before.contains(viewer) {
            let k = choose|k: int| 0 <= k < all.len() && all[k] == viewer;
            if k < before.len() {
                assert(before[k] == viewer);
            }
            assert(approved[approved.len() - 1].stream_id == stream_id);
        }
        assert(all =~= approved.filter(
            |grant: StreamGrant| grant.stream_id == stream_id,
        ).map_values(|grant: StreamGrant| grant.viewer));
    } else {
        assert(all =~= approved.filter(
            |grant: StreamGrant| grant.stream_id == stream_id,
        ).map_values(|grant: StreamGrant| grant.viewer));
    }
}

/// A decision is queued once, and never beside another one on the same request.
pub proof fn decisions_are_queued_once(
    state: PublisherState,
    decision: PublisherDecision,
    result: Result<PublisherState, AdminError>,
)
    requires
        call_ensures(queue_decision, (state, decision), result),
    ensures
        !conflicts(state, decision@) ==> (result matches Ok(next) && is_queued(next, decision@)
            && next.decision_outbox@.len() == state.decision_outbox@.len() + if is_queued(
            state,
            decision@,
        ) {
            0int
        } else {
            1int
        }),
        result is Err ==> conflicts(state, decision@) && result->Err_0 is ConflictingDecision,
        result matches Ok(next) ==> next.approved@ == state.approved@ && next.revoked@
            == state.revoked@ && next@.pending == state@.pending,
{
    let outbox = state@.decision_outbox;
    let wanted = decision_on(decision@.request_id);
    lemma_queued(state, decision@);
    lemma_first_where_means(outbox, wanted);
    let at = first_where(outbox, wanted);
    if at < outbox.len() {
        assert(outbox[at] == state.decision_outbox@[at]@);
        assert(state.decision_outbox@[at].request_id == decision@.request_id);
    } else if outbox.contains(decision@) {
        let k = choose|k: int| 0 <= k < outbox.len() && outbox[k] == decision@;
        assert(!wanted(outbox[k]));
    }
    let pushed = outbox.push(decision@);
    sorting_keeps_every_item(pushed, decisions());
    assert(pushed[pushed.len() - 1] == decision@);
    assert(pushed.contains(decision@));
    if result is Ok {
        lemma_queued(result->Ok_0, decision@);
        assert(result->Ok_0@.decision_outbox.len() == result->Ok_0.decision_outbox@.len());
    }
}

/// Offers are sent before decisions, and each from the front of its queue.
pub proof fn offers_are_sent_first(
    state: &PublisherState,
    result: Result<Option<OutboxItem>, AdminError>,
)
    requires
        call_ensures(next_delivery, (state,), result),
    ensures
        result matches Ok(None) <==> state.offer_outbox@.len() == 0
            && state.decision_outbox@.len() == 0,
        state.offer_outbox@.len() > 0 && waits(*state, state.offer_outbox@[0]) ==> (result matches Ok(
            Some(OutboxItem::Offer(offer)),
        ) && exists|i: int|
            0 <= i < state.pending@.len() && (#[trigger] state.pending@[i]).request.request_id
                == Some(state.offer_outbox@[0]) && state.pending@[i].offer@ == offer@),
        state.offer_outbox@.len() > 0 && !waits(*state, state.offer_outbox@[0]) ==> result is Err,
        state.offer_outbox@.len() == 0 && state.decision_outbox@.len() > 0 ==> (result matches Ok(
            Some(OutboxItem::Decision(decision)),
        ) && decision@ == state.decision_outbox@[0]@),
{
    assert(state@.decision_outbox.len() == state.decision_outbox@.len());
    if state.offer_outbox@.len() > 0 {
        let id = state.offer_outbox@[0];
        lemma_state(*state, 0, id);
        let wanted = pending_id(id);
        lemma_first_where_means(state@.pending, wanted);
        if waits(*state, id) {
            let i = choose|i: int|
                0 <= i < state.pending@.len() && (
                #[trigger] state.pending@[i]).request.request_id == Some(id);
            assert(wanted(state@.pending[i]));
            let at = first_where(state@.pending, wanted);
            assert(wanted(state@.pending[at]));
            assert(state@.pending[at] == state.pending@[at]@);
        }
    } else if state.decision_outbox@.len() > 0 {
        assert(state@.decision_outbox[0] == state.decision_outbox@[0]@);
    }
}

/// What the relay acknowledged leaves the front of its queue; any other answer leaves the
/// queues as they are, so that it is sent again.
pub proof fn acknowledged_items_leave_the_queue(
    state: &mut PublisherState,
    answer: &RelayAnswer,
    result: Result<(), AdminError>,
)
    requires
        call_ensures(delivery_answered, (state, answer), result),
        old(state).offer_outbox@.len() > 0 || old(state).decision_outbox@.len() > 0,
    ensures
        ({
            let sent = if old(state).offer_outbox@.len() > 0 {
                old(state).offer_outbox@[0]
            } else {
                old(state).decision_outbox@[0].request_id
            };
            result is Ok <==> *answer == RelayAnswer::Reply(
                PublisherReply::PairingAck { request_id: sent },
            )
        }),
        result is Err ==> final(state)@ == old(state)@,
        result is Ok && old(state).offer_outbox@.len() > 0 ==> final(state).offer_outbox@ == old(
            state,
        ).offer_outbox@.skip(1) && final(state)@.decision_outbox == old(state)@.decision_outbox,
        result is Ok && old(state).offer_outbox@.len() == 0 ==> final(state)@.decision_outbox
            == old(state)@.decision_outbox.skip(1),
        final(state).approved@ == old(state).approved@,
        final(state).revoked@ == old(state).revoked@,
        final(state)@.pending == old(state)@.pending,
        final(state).history_outbox@ == old(state).history_outbox@,
{
    assert(old(state)@.decision_outbox.len() == old(state).decision_outbox@.len());
    if old(state).offer_outbox@.len() > 0 {
        assert(old(state)@.offer_outbox.drop_first() =~= old(state).offer_outbox@.skip(1));
    } else {
        assert(old(state)@.decision_outbox[0] == old(state).decision_outbox@[0]@);
        assert(old(state)@.decision_outbox.drop_first() =~= old(state)@.decision_outbox.skip(1));
    }
}

/// A newly approved viewer is sent the keys of every kept group of its stream under which
/// something was published, the newest first, and of no other.
pub proof fn kept_keys_are_sent_newest_first(
    groups: &Vec<RetainedGroupKey>,
    stream_id: u128,
    picked: Vec<RetainedGroupKey>,
)
    requires
        call_ensures(history_groups, (groups, stream_id), picked),
    ensures
        picked@.reverse() == groups@.filter(
            |group: RetainedGroupKey| group.stream_id == stream_id && group.content_bytes > 0,
        ),
{
    lemma_sendable(groups@, stream_id);
}

proof fn lemma_sendable(groups: Seq<RetainedGroupKey>, stream_id: u128)
    ensures
        sendable_groups(groups, stream_id).reverse() == groups.filter(
            |group: RetainedGroupKey| group.stream_id == stream_id && group.content_bytes > 0,
        ),
    decreases groups.len(),
{
    let keep = |group: RetainedGroupKey|
        group.stream_id == stream_id && group.content_bytes > 0;
    reveal_with_fuel(Seq::filter, 2);
    if groups.len() == 0 {
        assert(sendable_groups(groups, stream_id).reverse() =~= groups.filter(keep));
    } else {
        let rest = groups.drop_first();
        let first = seq![groups.first()];
        lemma_sendable(rest, stream_id);
        assert(groups =~= first + rest);
        Seq::filter_distributes_over_add(first, rest, keep);
        assert(first.drop_last() =~= Seq::empty());
        assert(first.filter(keep) =~= if keep(groups.first()) {
            first
        } else {
            Seq::empty()
        });
        assert(sendable_groups(groups, stream_id).reverse() =~= first.filter(keep) + rest.filter(
            keep,
        ));
    }
}

/// Once a viewer was sent the kept keys of a stream, exactly that is no longer queued.
pub proof fn sent_history_leaves_the_queue(state: &mut PublisherState, grant: &StreamGrant)
    requires
        call_ensures(history_sent, (state, grant), ()),
    ensures
        final(state).history_outbox@ == old(state).history_outbox@.filter(
            |queued: StreamGrant|
                queued.stream_id != grant.stream_id || queued.viewer.fingerprint
                    != grant.viewer.fingerprint,
        ),
        final(state).approved@ == old(state).approved@,
        final(state).revoked@ == old(state).revoked@,
        final(state).offer_outbox@ == old(state).offer_outbox@,
        final(state)@.decision_outbox == old(state)@.decision_outbox,
        final(state)@.pending == old(state)@.pending,
{
    let wanted = crate::admin_model::grant_other_than(grant.stream_id, grant.viewer.fingerprint);
    lemma_kept_is_filter(old(state).history_outbox@, wanted, |queued: StreamGrant|
        queued.stream_id != grant.stream_id || queued.viewer.fingerprint
            != grant.viewer.fingerprint);
}

proof fn lemma_kept_is_filter<T>(
    items: Seq<T>,
    wanted: spec_fn(T) -> bool,
    keep: spec_fn(T) -> bool,
)
    requires
        forall|item: T| #[trigger] wanted(item) == keep(item),
    ensures
        kept_where(items, wanted) == items.filter(keep),
    decreases items.len(),
{
    reveal(Seq::filter);
    if items.len() > 0 {
        lemma_kept_is_filter(items.drop_last(), wanted, keep);
        assert(wanted(items.last()) == keep(items.last()));
    }
}

/// A verified confirmation is recorded with the request that it confirms, which still waits;
/// one for a request that does not wait changes nothing, and one that does not fit is
/// refused.
pub proof fn confirmations_are_recorded(
    state: PublisherState,
    checked: Vec<CheckedConfirmation>,
    result: Result<PublisherState, AdminError>,
    at: int,
)
    requires
        call_ensures(receive_confirmations, (state, checked), result),
        checked@.len() == 1,
        0 <= at < state.pending@.len(),
        state.pending@[at].request.request_id == Some(checked@[0].confirmation.request_id),
        forall|k: int|
            0 <= k < at ==> (#[trigger] state.pending@[k]).request.request_id
                != state.pending@[at].request.request_id,
    ensures
        result is Ok <==> checked@[0].verified,
        result matches Ok(next) ==> {
            &&& next@.pending.to_multiset() == state@.pending.update(
                at,
                PendingModel {
                    confirmation: Some(checked@[0].confirmation@),
                    ..state@.pending[at]
                },
            ).to_multiset()
            &&& next.approved@ == state.approved@
            &&& next.revoked@ == state.revoked@
        },
{
    let all = checked@.map_values(crate::admin::checked_image());
    assert(all.drop_last() =~= Seq::empty());
    assert(all.last() == checked@[0]@);
    reveal_with_fuel(AdminModel::after_confirmations, 3);
    let wanted = pending_id(checked@[0].confirmation.request_id);
    lemma_first_where_means(state@.pending, wanted);
    let first = first_where(state@.pending, wanted);
    assert(state@.pending[at] == state.pending@[at]@);
    assert(wanted(state@.pending[at]));
    if first < at {
        assert(state@.pending[first] == state.pending@[first]@);
        assert(wanted(state@.pending[first]));
    }
    assert(first == at);
    let updated = state@.pending.update(
        at,
        PendingModel { confirmation: Some(checked@[0].confirmation@), ..state@.pending[at] },
    );
    sorting_keeps_every_item(updated, crate::admin_model::pendings());
}

} // verus!

//! What holds of a publisher's approvals whatever happens.

use vstd::prelude::*;

use crate::admin_model::{
    decision_on, decisions, grant_names, grant_other_than, grants, has_prefix, id_other_than, ids,
    is_grant_of, pendings, request_names, revocations, unique_match, AdminModel, ApprovalPolicy,
    CheckedConfirmationModel, IncomingModel, PendingModel, RequestAction, RevokedGrant,
    StreamGrant, ViewerPolicy,
};
use crate::bytes::{id_order, lemma_id_order_injective};
use crate::order::{
    ascending, first_where, is_order, kept_where, lemma_ascending_with, lemma_ascending_without,
    lemma_first_where_means, lemma_kept_ascending, lemma_kept_where, sorting_keeps_every_item,
    stable_sorted,
};
use crate::records::{IdentityPublic, PublisherDecisionModel};

verus! {

/// What can happen to an approval state.
pub enum AdminEvent {
    /// The requests of the relay's inbox arrive.
    Requests(ApprovalPolicy, Seq<IncomingModel>),
    /// The confirmations of the relay's inbox arrive.
    Confirmations(Seq<CheckedConfirmationModel>),
    /// A request is approved or denied by hand.
    Decide(Seq<char>, bool, Option<PublisherDecisionModel>),
    /// Access is taken away.
    Revoke(u128, Seq<char>),
    /// The relay acknowledges the front of the outbox.
    Delivered,
    /// A viewer was sent the kept keys.
    HistorySent(StreamGrant),
}

/// The state after something happened. What fails leaves the stored state as it was.
pub open spec fn after_event(state: AdminModel, event: AdminEvent) -> AdminModel {
    let result = match event {
        AdminEvent::Requests(policy, incoming) => state.after_requests(policy, incoming),
        AdminEvent::Confirmations(checked) => match state.after_confirmations(checked) {
            Ok(after) => Ok(after.requests_sorted()),
            Err(error) => Err(error),
        },
        AdminEvent::Decide(prefix, approve, decision) => state.decided(prefix, approve, decision),
        AdminEvent::Revoke(stream_id, prefix) => state.revoke(stream_id, prefix),
        AdminEvent::Delivered => if state.offer_outbox.len() > 0 || state.decision_outbox.len()
            > 0 {
            Ok(state.front_delivered())
        } else {
            Ok(state)
        },
        AdminEvent::HistorySent(grant) => Ok(state.history_delivered(grant)),
    };
    match result {
        Ok(after) => after,
        Err(_) => state,
    }
}

/// The state after several things happened.
pub open spec fn after_events(state: AdminModel, events: Seq<AdminEvent>) -> AdminModel
    decreases events.len(),
{
    if events.len() == 0 {
        state
    } else {
        after_event(after_events(state, events.drop_last()), events.last())
    }
}

/// Outboxes are in order without repetition, every queued offer has its request, nobody
/// whose access was taken away is approved, and kept keys are queued for approved viewers
/// only.
pub open spec fn is_sound(state: AdminModel) -> bool {
    &&& state.is_ordered()
    &&& forall|i: int|
        0 <= i < state.approved.len() ==> is_lawful(state, #[trigger] state.approved[i])
    &&& forall|i: int|
        0 <= i < state.history_outbox.len() ==> is_standing(
            state,
            #[trigger] state.history_outbox[i],
        )
}

/// A grant to a valid identity that was not taken away.
pub open spec fn is_lawful(state: AdminModel, grant: StreamGrant) -> bool {
    grant.viewer.fingerprint matches Some(id) && !state.is_revoked(grant.stream_id, id)
}

/// A grant that stands.
pub open spec fn is_standing(state: AdminModel, grant: StreamGrant) -> bool {
    grant.viewer.fingerprint matches Some(id) && state.is_approved(grant.stream_id, id)
}

/// Whether what was taken away stays so.
pub open spec fn keeps_revocations(before: AdminModel, after: AdminModel) -> bool {
    forall|gone: RevokedGrant| #[trigger]
        before.revoked.contains(gone) ==> after.revoked.contains(gone)
}

proof fn lemma_orders()
    ensures
        is_order(ids()),
        is_order(grants()),
        is_order(decisions()),
{
    assert forall|a: StreamGrant, b: StreamGrant, c: StreamGrant|
        #[trigger] grants()(a, b) && #[trigger] grants()(b, c) implies grants()(a, c) by {}
}

/// Who is approved after a grant: those who were, and the new viewer.
proof fn lemma_granted(state: AdminModel, stream_id: u128, viewer: IdentityPublic)
    requires
        is_sound(state),
        state.granted(stream_id, viewer) is Ok,
    ensures
        is_sound(state.granted(stream_id, viewer)->Ok_0),
        keeps_revocations(state, state.granted(stream_id, viewer)->Ok_0),
        viewer.fingerprint is Some,
        forall|s: u128, v: [u8; 32]| #[trigger]
            state.granted(stream_id, viewer)->Ok_0.is_approved(s, v) <==> state.is_approved(s, v)
                || (s == stream_id && viewer.fingerprint == Some(v)),
        state.granted(stream_id, viewer)->Ok_0.pending == state.pending,
        state.granted(stream_id, viewer)->Ok_0.decision_outbox == state.decision_outbox,
        state.granted(stream_id, viewer)->Ok_0.offer_outbox == state.offer_outbox,
{
    let after = state.granted(stream_id, viewer)->Ok_0;
    let id = viewer.fingerprint->0;
    let grant = StreamGrant { stream_id, viewer };
    if !state.is_approved(stream_id, id) {
        lemma_orders();
        sorting_keeps_every_item(state.approved.push(grant), grants());
        sorting_keeps_every_item(state.history_outbox.push(grant), grants());
        assert forall|s: u128, v: [u8; 32]| #[trigger]
            after.is_approved(s, v) <==> state.is_approved(s, v) || (s == stream_id && id == v) by {
            lemma_approved_after_push(state, after, grant, s, v);
        }
        assert forall|k: int| 0 <= k < state.history_outbox.len() implies !(grants()(
            #[trigger] state.history_outbox[k],
            grant,
        ) && grants()(grant, state.history_outbox[k])) by {
            let other = state.history_outbox[k];
            assert(is_standing(state, other));
            if other.stream_id == stream_id && id_order(other.viewer.fingerprint->0) == id_order(
                id,
            ) {
                lemma_id_order_injective(other.viewer.fingerprint->0, id);
            }
        }
        lemma_ascending_with(state.history_outbox, grant, grants());
        assert forall|i: int| 0 <= i < after.history_outbox.len() implies is_standing(
            after,
            #[trigger] after.history_outbox[i],
        ) by {
            let item = after.history_outbox[i];
            assert(after.history_outbox.contains(item));
            assert(state.history_outbox.push(grant).contains(item));
            let k = choose|k: int|
                0 <= k < state.history_outbox.push(grant).len() && state.history_outbox.push(
                    grant,
                )[k] == item;
            if k < state.history_outbox.len() {
                assert(is_standing(state, state.history_outbox[k]));
                assert(after.is_approved(item.stream_id, item.viewer.fingerprint->0));
            } else {
                assert(after.is_approved(stream_id, id));
            }
        }
        assert forall|i: int| 0 <= i < after.approved.len() implies is_lawful(
            after,
            #[trigger] after.approved[i],
        ) by {
            let item = after.approved[i];
            assert(after.approved.contains(item));
            assert(state.approved.push(grant).contains(item));
            let k = choose|k: int|
                0 <= k < state.approved.push(grant).len() && state.approved.push(grant)[k] == item;
            if k < state.approved.len() {
                assert(is_lawful(state, state.approved[k]));
            }
        }
        assert forall|i: int| 0 <= i < after.offer_outbox.len() implies after.is_pending(
            #[trigger] after.offer_outbox[i],
        ) by {
            assert(state.is_pending(state.offer_outbox[i]));
            let k = choose|k: int|
                0 <= k < state.pending.len() && (#[trigger] state.pending[k]).request.request_id
                    == Some(state.offer_outbox[i]);
            assert(after.pending[k].request.request_id == Some(after.offer_outbox[i]));
        }
    }
}

proof fn lemma_approved_after_push(
    state: AdminModel,
    after: AdminModel,
    grant: StreamGrant,
    s: u128,
    v: [u8; 32],
)
    requires
        after.approved == stable_sorted(state.approved.push(grant), grants()),
        forall|item: StreamGrant| #[trigger]
            after.approved.contains(item) == state.approved.push(grant).contains(item),
    ensures
        after.is_approved(s, v) <==> state.is_approved(s, v) || is_grant_of(grant, s, v),
{
    let pushed = state.approved.push(grant);
    if after.is_approved(s, v) {
        let i = choose|i: int|
            0 <= i < after.approved.len() && is_grant_of(#[trigger] after.approved[i], s, v);
        assert(after.approved.contains(after.approved[i]));
        let k = choose|k: int| 0 <= k < pushed.len() && pushed[k] == after.approved[i];
        if k < state.approved.len() {
            assert(is_grant_of(state.approved[k], s, v));
        }
    }
    if state.is_approved(s, v) {
        let k = choose|k: int|
            0 <= k < state.approved.len() && is_grant_of(#[trigger] state.approved[k], s, v);
        assert(pushed[k] == state.approved[k]);
        assert(pushed.contains(state.approved[k]));
        assert(after.approved.contains(state.approved[k]));
        let i = choose|i: int| 0 <= i < after.approved.len() && after.approved[i]
            == state.approved[k];
        assert(is_grant_of(after.approved[i], s, v));
    }
    if is_grant_of(grant, s, v) {
        assert(pushed[pushed.len() - 1] == grant);
        assert(pushed.contains(grant));
        assert(after.approved.contains(grant));
        let i = choose|i: int| 0 <= i < after.approved.len() && after.approved[i] == grant;
        assert(is_grant_of(after.approved[i], s, v));
    }
}

/// Soundness depends on pending requests, offers, grants and their queues.
proof fn lemma_sound_with_decisions(
    state: AdminModel,
    queue: Seq<PublisherDecisionModel>,
)
    requires
        is_sound(state),
        ascending(queue, decisions()),
    ensures
        is_sound(AdminModel { decision_outbox: queue, ..state }),
        keeps_revocations(state, AdminModel { decision_outbox: queue, ..state }),
        forall|s: u128, v: [u8; 32]| #[trigger]
            (AdminModel { decision_outbox: queue, ..state }).is_approved(s, v)
                == state.is_approved(s, v),
{
    let after = AdminModel { decision_outbox: queue, ..state };
    assert forall|s: u128, v: [u8; 32]| #[trigger]
        after.is_approved(s, v) == state.is_approved(s, v) by {
        lemma_same_grants(state, after, s, v);
    }
    assert forall|i: int| 0 <= i < after.offer_outbox.len() implies after.is_pending(
        #[trigger] after.offer_outbox[i],
    ) by {
        assert(state.is_pending(state.offer_outbox[i]));
        let k = choose|k: int|
            0 <= k < state.pending.len() && (#[trigger] state.pending[k]).request.request_id
                == Some(state.offer_outbox[i]);
        assert(after.pending[k].request.request_id == Some(after.offer_outbox[i]));
    }
    assert forall|i: int| 0 <= i < after.approved.len() implies is_lawful(
        after,
        #[trigger] after.approved[i],
    ) by {
        assert(is_lawful(state, state.approved[i]));
    }
    assert forall|i: int| 0 <= i < after.history_outbox.len() implies is_standing(
        after,
        #[trigger] after.history_outbox[i],
    ) by {
        assert(is_standing(state, state.history_outbox[i]));
    }
}

proof fn lemma_same_grants(state: AdminModel, after: AdminModel, s: u128, v: [u8; 32])
    requires
        after.approved == state.approved,
    ensures
        after.is_approved(s, v) == state.is_approved(s, v),
{
    if state.is_approved(s, v) {
        let k = choose|k: int|
            0 <= k < state.approved.len() && is_grant_of(#[trigger] state.approved[k], s, v);
        assert(is_grant_of(after.approved[k], s, v));
    }
    if after.is_approved(s, v) {
        let k = choose|k: int|
            0 <= k < after.approved.len() && is_grant_of(#[trigger] after.approved[k], s, v);
        assert(is_grant_of(state.approved[k], s, v));
    }
}

proof fn lemma_decision_queued(state: AdminModel, decision: PublisherDecisionModel)
    requires
        is_sound(state),
        state.decision_queued(decision) is Ok,
    ensures
        is_sound(state.decision_queued(decision)->Ok_0),
        keeps_revocations(state, state.decision_queued(decision)->Ok_0),
        forall|s: u128, v: [u8; 32]| #[trigger]
            state.decision_queued(decision)->Ok_0.is_approved(s, v) == state.is_approved(s, v),
        state.decision_queued(decision)->Ok_0 == (AdminModel {
            decision_outbox: state.decision_queued(decision)->Ok_0.decision_outbox,
            ..state
        }),
        state.decision_queued(decision)->Ok_0.decision_outbox.contains(decision),
        forall|queued: PublisherDecisionModel| #[trigger]
            state.decision_outbox.contains(queued) ==> state.decision_queued(
                decision,
            )->Ok_0.decision_outbox.contains(queued),
{
    let queue = state.decision_outbox;
    let wanted = decision_on(decision.request_id);
    lemma_first_where_means(queue, wanted);
    let at = first_where(queue, wanted);
    if at >= queue.len() {
        lemma_orders();
        assert forall|k: int| 0 <= k < queue.len() implies !(decisions()(
            #[trigger] queue[k],
            decision,
        ) && decisions()(decision, queue[k])) by {
            assert(!wanted(queue[k]));
            if id_order(queue[k].request_id) == id_order(decision.request_id) {
                lemma_id_order_injective(queue[k].request_id, decision.request_id);
            }
        }
        lemma_ascending_with(queue, decision, decisions());
        sorting_keeps_every_item(queue.push(decision), decisions());
        let pushed = queue.push(decision);
        assert(pushed[pushed.len() - 1] == decision);
        assert(pushed.contains(decision));
        assert forall|queued: PublisherDecisionModel| #[trigger]
            queue.contains(queued) implies stable_sorted(pushed, decisions()).contains(queued) by {
            let k = choose|k: int| 0 <= k < queue.len() && queue[k] == queued;
            assert(pushed[k] == queued);
            assert(pushed.contains(queued));
        }
        lemma_sound_with_decisions(state, stable_sorted(pushed, decisions()));
    } else {
        assert(queue[at] == decision);
    }
}

proof fn lemma_offered(
    state: AdminModel,
    request: crate::records::PairRequestModel,
    offer: crate::records::PairOfferModel,
    source_addr: Seq<char>,
)
    requires
        is_sound(state),
        request.request_id is Some,
    ensures
        is_sound(state.offered(request, offer, source_addr)),
        forall|s: u128, v: [u8; 32]| #[trigger]
            state.offered(request, offer, source_addr).is_approved(s, v) == state.is_approved(
                s,
                v,
            ),
{
    let after = state.offered(request, offer, source_addr);
    let id = request.request_id->0;
    lemma_orders();
    assert forall|s: u128, v: [u8; 32]| #[trigger]
        after.is_approved(s, v) == state.is_approved(s, v) by {
        lemma_same_grants(state, after, s, v);
    }
    let pushed = state.offer_outbox.push(id);
    sorting_keeps_every_item(pushed, ids());
    if !state.offer_outbox.contains(id) {
        assert forall|k: int| 0 <= k < state.offer_outbox.len() implies !(ids()(
            #[trigger] state.offer_outbox[k],
            id,
        ) && ids()(id, state.offer_outbox[k])) by {
            if id_order(state.offer_outbox[k]) == id_order(id) {
                lemma_id_order_injective(state.offer_outbox[k], id);
            }
        }
        lemma_ascending_with(state.offer_outbox, id, ids());
    }
    assert forall|i: int| 0 <= i < after.offer_outbox.len() implies after.is_pending(
        #[trigger] after.offer_outbox[i],
    ) by {
        let item = after.offer_outbox[i];
        assert(after.offer_outbox.contains(item));
        if state.offer_outbox.contains(item) {
            let j = choose|j: int| 0 <= j < state.offer_outbox.len() && state.offer_outbox[j]
                == item;
            assert(state.is_pending(state.offer_outbox[j]));
            let k = choose|k: int|
                0 <= k < state.pending.len() && (#[trigger] state.pending[k]).request.request_id
                    == Some(item);
            assert(after.pending[k].request.request_id == Some(item));
        } else {
            assert(pushed.contains(item));
            let j = choose|j: int| 0 <= j < pushed.len() && pushed[j] == item;
            assert(j == state.offer_outbox.len()) by {
                if j < state.offer_outbox.len() {
                    assert(state.offer_outbox[j] == item);
                }
            }
            assert(after.pending[state.pending.len() as int].request.request_id == Some(item));
        }
    }
    assert forall|i: int| 0 <= i < after.approved.len() implies is_lawful(
        after,
        #[trigger] after.approved[i],
    ) by {
        assert(is_lawful(state, state.approved[i]));
    }
    assert forall|i: int| 0 <= i < after.history_outbox.len() implies is_standing(
        after,
        #[trigger] after.history_outbox[i],
    ) by {
        assert(is_standing(state, state.history_outbox[i]));
    }
}

/// Whether a policy lets the publisher decide by hand alone.
pub open spec fn is_manual(policy: ApprovalPolicy) -> bool {
    policy.mode == ViewerPolicy::Required
}

proof fn lemma_after_request(state: AdminModel, policy: ApprovalPolicy, incoming: IncomingModel)
    requires
        is_sound(state),
        state.after_request(policy, incoming) is Ok,
    ensures
        is_sound(state.after_request(policy, incoming)->Ok_0),
        keeps_revocations(state, state.after_request(policy, incoming)->Ok_0),
        forall|queued: PublisherDecisionModel| #[trigger]
            state.decision_outbox.contains(queued) ==> state.after_request(
                policy,
                incoming,
            )->Ok_0.decision_outbox.contains(queued),
        is_manual(policy) ==> forall|s: u128, v: [u8; 32]| #[trigger]
            state.after_request(policy, incoming)->Ok_0.is_approved(s, v) == state.is_approved(
                s,
                v,
            ),
{
    let request = incoming.request;
    match state.action_for(policy, request, incoming.credential_verified) {
        RequestAction::Skip => {},
        RequestAction::Approve(_) => {
            lemma_granted(state, request.stream_id, request.viewer);
            let granted = state.granted(request.stream_id, request.viewer)->Ok_0;
            lemma_decision_queued(granted, incoming.decision->0);
        },
        RequestAction::Offer => {
            lemma_offered(state, request, incoming.offer->0, incoming.source_addr);
        },
    }
}

proof fn lemma_after_requests(
    state: AdminModel,
    policy: ApprovalPolicy,
    incoming: Seq<IncomingModel>,
)
    requires
        is_sound(state),
        state.after_requests(policy, incoming) is Ok,
    ensures
        is_sound(state.after_requests(policy, incoming)->Ok_0),
        keeps_revocations(state, state.after_requests(policy, incoming)->Ok_0),
        forall|queued: PublisherDecisionModel| #[trigger]
            state.decision_outbox.contains(queued) ==> state.after_requests(
                policy,
                incoming,
            )->Ok_0.decision_outbox.contains(queued),
        is_manual(policy) ==> forall|s: u128, v: [u8; 32]| #[trigger]
            state.after_requests(policy, incoming)->Ok_0.is_approved(s, v) == state.is_approved(
                s,
                v,
            ),
    decreases incoming.len(),
{
    if incoming.len() > 0 {
        lemma_after_requests(state, policy, incoming.drop_last());
        let before = state.after_requests(policy, incoming.drop_last())->Ok_0;
        lemma_after_request(before, policy, incoming.last());
    }
}

proof fn lemma_confirmed(state: AdminModel, pending: Seq<PendingModel>)
    requires
        is_sound(state),
        forall|id: [u8; 32]| #[trigger]
            state.is_pending(id) ==> (AdminModel { pending, ..state }).is_pending(id),
    ensures
        is_sound(AdminModel { pending, ..state }),
        keeps_revocations(state, AdminModel { pending, ..state }),
        forall|s: u128, v: [u8; 32]| #[trigger]
            (AdminModel { pending, ..state }).is_approved(s, v) == state.is_approved(s, v),
{
    let after = AdminModel { pending, ..state };
    assert forall|s: u128, v: [u8; 32]| #[trigger]
        after.is_approved(s, v) == state.is_approved(s, v) by {
        lemma_same_grants(state, after, s, v);
    }
    assert forall|i: int| 0 <= i < after.offer_outbox.len() implies after.is_pending(
        #[trigger] after.offer_outbox[i],
    ) by {
        assert(state.is_pending(state.offer_outbox[i]));
    }
    assert forall|i: int| 0 <= i < after.approved.len() implies is_lawful(
        after,
        #[trigger] after.approved[i],
    ) by {
        assert(is_lawful(state, state.approved[i]));
    }
    assert forall|i: int| 0 <= i < after.history_outbox.len() implies is_standing(
        after,
        #[trigger] after.history_outbox[i],
    ) by {
        assert(is_standing(state, state.history_outbox[i]));
    }
}

proof fn lemma_after_confirmations(state: AdminModel, checked: Seq<CheckedConfirmationModel>)
    requires
        is_sound(state),
        state.after_confirmations(checked) is Ok,
    ensures
        ({
            let after = state.after_confirmations(checked)->Ok_0;
            &&& is_sound(after)
            &&& after == AdminModel { pending: after.pending, ..state }
            &&& keeps_revocations(state, after)
            &&& forall|s: u128, v: [u8; 32]| #[trigger]
                after.is_approved(s, v) == state.is_approved(s, v)
        }),
    decreases checked.len(),
{
    if checked.len() > 0 {
        lemma_after_confirmations(state, checked.drop_last());
        let before = state.after_confirmations(checked.drop_last())->Ok_0;
        let after = before.after_confirmation(checked.last())->Ok_0;
        assert forall|id: [u8; 32]| #[trigger] before.is_pending(id) implies after.is_pending(
            id,
        ) by {
            let k = choose|k: int|
                0 <= k < before.pending.len() && (#[trigger] before.pending[k]).request.request_id
                    == Some(id);
            lemma_first_where_means(
                before.pending,
                crate::admin_model::pending_id(checked.last().confirmation.request_id),
            );
            assert(after.pending[k].request.request_id == Some(id));
        }
        assert(after =~= AdminModel { pending: after.pending, ..before });
        lemma_confirmed(before, after.pending);
    }
}

proof fn lemma_requests_sorted(state: AdminModel)
    requires
        is_sound(state),
    ensures
        is_sound(state.requests_sorted()),
        keeps_revocations(state, state.requests_sorted()),
        forall|s: u128, v: [u8; 32]| #[trigger]
            state.requests_sorted().is_approved(s, v) == state.is_approved(s, v),
{
    let after = state.requests_sorted();
    sorting_keeps_every_item(state.pending, pendings());
    assert forall|id: [u8; 32]| #[trigger] state.is_pending(id) implies after.is_pending(id) by {
        let k = choose|k: int|
            0 <= k < state.pending.len() && (#[trigger] state.pending[k]).request.request_id
                == Some(id);
        assert(state.pending.contains(state.pending[k]));
        assert(after.pending.contains(state.pending[k]));
        let i = choose|i: int| 0 <= i < after.pending.len() && after.pending[i]
            == state.pending[k];
        assert(after.pending[i].request.request_id == Some(id));
    }
    lemma_confirmed(state, after.pending);
}

/// The one match of a prefix is a match, and there is no other.
pub proof fn lemma_unique_match(values: Seq<Option<Seq<char>>>, prefix: Seq<char>)
    requires
        unique_match(values, prefix) is Ok,
    ensures
        ({
            let at = unique_match(values, prefix)->Ok_0;
            &&& 0 <= at < values.len()
            &&& has_prefix(prefix)(values[at])
            &&& forall|k: int|
                0 <= k < values.len() && k != at ==> !has_prefix(prefix)(#[trigger] values[k])
        }),
{
    let wanted = has_prefix(prefix);
    let at = first_where(values, wanted);
    lemma_first_where_means(values, wanted);
    lemma_kept_where(values, wanted);
    if at >= values.len() {
        let kept = kept_where(values, wanted);
        assert(kept.contains(kept[0]));
        let k = choose|k: int| 0 <= k < values.len() && values[k] == kept[0];
        assert(!wanted(values[k]));
    }
    assert forall|k: int| 0 <= k < values.len() && k != at implies !wanted(
        #[trigger] values[k],
    ) by {
        if wanted(values[k]) {
            lemma_two_are_kept(values, wanted, at, k);
        }
    }
}

/// Two wanted items are both kept.
pub proof fn lemma_two_are_kept<T>(items: Seq<T>, wanted: spec_fn(T) -> bool, a: int, b: int)
    requires
        0 <= a < b < items.len(),
        wanted(items[a]),
        wanted(items[b]),
    ensures
        kept_where(items, wanted).len() >= 2,
    decreases items.len(),
{
    let before = items.drop_last();
    if b < before.len() {
        lemma_two_are_kept(before, wanted, a, b);
    } else {
        lemma_kept_where(before, wanted);
        assert(before[a] == items[a]);
        assert(before.contains(items[a]));
        assert(kept_where(before, wanted).contains(items[a]));
    }
}

proof fn lemma_decided(
    state: AdminModel,
    prefix: Seq<char>,
    approve: bool,
    decision: Option<PublisherDecisionModel>,
)
    requires
        is_sound(state),
        state.decided(prefix, approve, decision) is Ok,
    ensures
        ({
            let after = state.decided(prefix, approve, decision)->Ok_0;
            let at = state.selected(prefix, approve)->Ok_0;
            let request = state.pending[at].request;
            &&& is_sound(after)
            &&& keeps_revocations(state, after)
            &&& state.selected(prefix, approve) is Ok
            &&& 0 <= at < state.pending.len()
            &&& request.request_id is Some
            &&& decision is Some
            &&& after.decision_outbox.contains(decision->0)
            &&& forall|queued: PublisherDecisionModel| #[trigger]
                state.decision_outbox.contains(queued) ==> after.decision_outbox.contains(queued)
            &&& forall|s: u128, v: [u8; 32]| #[trigger]
                after.is_approved(s, v) <==> state.is_approved(s, v) || (approve && s
                    == request.stream_id && request.viewer.fingerprint == Some(v))
        }),
{
    let after = state.decided(prefix, approve, decision)->Ok_0;
    let at = state.selected(prefix, approve)->Ok_0;
    lemma_unique_match(request_names(state.pending), prefix);
    let request = state.pending[at].request;
    let id = request.request_id->0;
    let granted = if approve {
        lemma_granted(state, request.stream_id, request.viewer);
        state.granted(request.stream_id, request.viewer)->Ok_0
    } else {
        state
    };
    lemma_decision_queued(granted, decision->0);
    let queued = granted.decision_queued(decision->0)->Ok_0;
    lemma_kept_where(queued.offer_outbox, id_other_than(id));
    lemma_kept_ascending(queued.offer_outbox, id_other_than(id), ids());
    assert forall|s: u128, v: [u8; 32]| #[trigger]
        after.is_approved(s, v) == queued.is_approved(s, v) by {
        lemma_same_grants(queued, after, s, v);
    }
    assert forall|i: int| 0 <= i < after.offer_outbox.len() implies after.is_pending(
        #[trigger] after.offer_outbox[i],
    ) by {
        let item = after.offer_outbox[i];
        assert(after.offer_outbox.contains(item));
        let j = choose|j: int| 0 <= j < queued.offer_outbox.len() && queued.offer_outbox[j] == item;
        assert(queued.is_pending(queued.offer_outbox[j]));
        let k = choose|k: int|
            0 <= k < queued.pending.len() && (#[trigger] queued.pending[k]).request.request_id
                == Some(item);
        assert(k != at);
        let place = if k < at { k } else { k - 1 };
        assert(after.pending[place] == queued.pending[k]);
    }
    assert forall|i: int| 0 <= i < after.approved.len() implies is_lawful(
        after,
        #[trigger] after.approved[i],
    ) by {
        assert(is_lawful(queued, queued.approved[i]));
    }
    assert forall|i: int| 0 <= i < after.history_outbox.len() implies is_standing(
        after,
        #[trigger] after.history_outbox[i],
    ) by {
        assert(is_standing(queued, queued.history_outbox[i]));
    }
}

proof fn lemma_revoke(state: AdminModel, stream_id: u128, prefix: Seq<char>)
    requires
        is_sound(state),
        state.revoke(stream_id, prefix) is Ok,
    ensures
        ({
            let after = state.revoke(stream_id, prefix)->Ok_0;
            let at = unique_match(grant_names(state.approved, stream_id), prefix)->Ok_0;
            let viewer = state.approved[at].viewer.fingerprint;
            &&& 0 <= at < state.approved.len()
            &&& viewer is Some
            &&& state.is_approved(stream_id, viewer->0)
            &&& is_sound(after)
            &&& keeps_revocations(state, after)
            &&& after.is_revoked(stream_id, viewer->0)
            &&& forall|s: u128, v: [u8; 32]| #[trigger]
                after.is_approved(s, v) <==> state.is_approved(s, v) && !(s == stream_id && viewer
                    == Some(v))
        }),
{
    let names = grant_names(state.approved, stream_id);
    lemma_unique_match(names, prefix);
    let at = unique_match(names, prefix)->Ok_0;
    let after = state.revoke(stream_id, prefix)->Ok_0;
    let viewer = state.approved[at].viewer.fingerprint;
    let id = viewer->0;
    assert(names[at] is Some);
    assert(is_grant_of(state.approved[at], stream_id, id));
    let gone = RevokedGrant { stream_id, viewer_id: id };
    let pushed = state.revoked.push(gone);
    sorting_keeps_every_item(pushed, revocations());
    assert(pushed[pushed.len() - 1] == gone);
    assert forall|other: RevokedGrant| #[trigger] state.revoked.contains(other) implies pushed.contains(
        other,
    ) by {
        let k = choose|k: int| 0 <= k < state.revoked.len() && state.revoked[k] == other;
        assert(pushed[k] == other);
    }
    assert(pushed.contains(gone));
    assert(after.revoked.contains(gone));
    assert forall|k: int|
        0 <= k < state.approved.len() && k != at implies !is_grant_of(
        #[trigger] state.approved[k],
        stream_id,
        id,
    ) by {
        assert(!has_prefix(prefix)(names[k]));
    }
    assert forall|s: u128, v: [u8; 32]| #[trigger]
        after.is_approved(s, v) <==> state.is_approved(s, v) && !(s == stream_id && id == v) by {
        if after.is_approved(s, v) {
            let i = choose|i: int|
                0 <= i < after.approved.len() && is_grant_of(#[trigger] after.approved[i], s, v);
            let k = if i < at { i } else { i + 1 };
            assert(is_grant_of(state.approved[k], s, v));
        }
        if state.is_approved(s, v) && !(s == stream_id && id == v) {
            let k = choose|k: int|
                0 <= k < state.approved.len() && is_grant_of(#[trigger] state.approved[k], s, v);
            let i = if k < at { k } else { k - 1 };
            assert(is_grant_of(after.approved[i], s, v));
        }
    }
    assert forall|i: int| 0 <= i < after.approved.len() implies is_lawful(
        after,
        #[trigger] after.approved[i],
    ) by {
        let k = if i < at { i } else { i + 1 };
        assert(is_lawful(state, state.approved[k]));
        let grant = state.approved[k];
        let other = RevokedGrant {
            stream_id: grant.stream_id,
            viewer_id: grant.viewer.fingerprint->0,
        };
        if after.revoked.contains(other) {
            assert(pushed.contains(other) || state.revoked.contains(other));
            if !state.revoked.contains(other) {
                let j = choose|j: int| 0 <= j < pushed.len() && pushed[j] == other;
                if j < state.revoked.len() {
                    assert(state.revoked[j] == other);
                }
                assert(other == gone);
                assert(is_grant_of(state.approved[k], stream_id, id));
            }
        }
    }
    lemma_kept_where(state.history_outbox, grant_other_than(stream_id, viewer));
    lemma_kept_ascending(state.history_outbox, grant_other_than(stream_id, viewer), grants());
    assert forall|i: int| 0 <= i < after.history_outbox.len() implies is_standing(
        after,
        #[trigger] after.history_outbox[i],
    ) by {
        let item = after.history_outbox[i];
        assert(after.history_outbox.contains(item));
        let k = choose|k: int|
            0 <= k < state.history_outbox.len() && state.history_outbox[k] == item;
        assert(is_standing(state, state.history_outbox[k]));
        assert(after.is_approved(item.stream_id, item.viewer.fingerprint->0));
    }
    assert forall|i: int| 0 <= i < after.offer_outbox.len() implies after.is_pending(
        #[trigger] after.offer_outbox[i],
    ) by {
        lemma_still_pending(state, after, i);
    }
}

proof fn lemma_still_pending(state: AdminModel, after: AdminModel, i: int)
    requires
        state.is_ordered(),
        after.pending == state.pending,
        0 <= i < after.offer_outbox.len(),
        state.offer_outbox.contains(after.offer_outbox[i]),
    ensures
        after.is_pending(after.offer_outbox[i]),
{
    let j = choose|j: int| 0 <= j < state.offer_outbox.len() && state.offer_outbox[j]
        == after.offer_outbox[i];
    assert(state.is_pending(state.offer_outbox[j]));
    let k = choose|k: int|
        0 <= k < state.pending.len() && (#[trigger] state.pending[k]).request.request_id == Some(
            state.offer_outbox[j],
        );
    assert(after.pending[k].request.request_id == Some(after.offer_outbox[i]));
}

proof fn lemma_delivered(state: AdminModel)
    requires
        is_sound(state),
        state.offer_outbox.len() > 0 || state.decision_outbox.len() > 0,
    ensures
        is_sound(state.front_delivered()),
        keeps_revocations(state, state.front_delivered()),
        forall|s: u128, v: [u8; 32]| #[trigger]
            state.front_delivered().is_approved(s, v) == state.is_approved(s, v),
{
    let after = state.front_delivered();
    if state.offer_outbox.len() > 0 {
        assert(state.offer_outbox.drop_first() =~= state.offer_outbox.remove(0));
        lemma_ascending_without(state.offer_outbox, 0, ids());
    } else {
        assert(state.decision_outbox.drop_first() =~= state.decision_outbox.remove(0));
        lemma_ascending_without(state.decision_outbox, 0, decisions());
    }
    assert forall|s: u128, v: [u8; 32]| #[trigger]
        after.is_approved(s, v) == state.is_approved(s, v) by {
        lemma_same_grants(state, after, s, v);
    }
    assert forall|i: int| 0 <= i < after.offer_outbox.len() implies after.is_pending(
        #[trigger] after.offer_outbox[i],
    ) by {
        assert(after.offer_outbox[i] == state.offer_outbox[i + 1]);
        lemma_still_pending(state, after, i);
    }
    assert forall|i: int| 0 <= i < after.approved.len() implies is_lawful(
        after,
        #[trigger] after.approved[i],
    ) by {
        assert(is_lawful(state, state.approved[i]));
    }
    assert forall|i: int| 0 <= i < after.history_outbox.len() implies is_standing(
        after,
        #[trigger] after.history_outbox[i],
    ) by {
        assert(is_standing(state, state.history_outbox[i]));
    }
}

proof fn lemma_history_sent(state: AdminModel, grant: StreamGrant)
    requires
        is_sound(state),
    ensures
        is_sound(state.history_delivered(grant)),
        keeps_revocations(state, state.history_delivered(grant)),
        forall|s: u128, v: [u8; 32]| #[trigger]
            state.history_delivered(grant).is_approved(s, v) == state.is_approved(s, v),
{
    let after = state.history_delivered(grant);
    let wanted = grant_other_than(grant.stream_id, grant.viewer.fingerprint);
    lemma_kept_where(state.history_outbox, wanted);
    lemma_kept_ascending(state.history_outbox, wanted, grants());
    assert forall|s: u128, v: [u8; 32]| #[trigger]
        after.is_approved(s, v) == state.is_approved(s, v) by {
        lemma_same_grants(state, after, s, v);
    }
    assert forall|i: int| 0 <= i < after.offer_outbox.len() implies after.is_pending(
        #[trigger] after.offer_outbox[i],
    ) by {
        lemma_still_pending(state, after, i);
    }
    assert forall|i: int| 0 <= i < after.approved.len() implies is_lawful(
        after,
        #[trigger] after.approved[i],
    ) by {
        assert(is_lawful(state, state.approved[i]));
    }
    assert forall|i: int| 0 <= i < after.history_outbox.len() implies is_standing(
        after,
        #[trigger] after.history_outbox[i],
    ) by {
        let item = after.history_outbox[i];
        assert(after.history_outbox.contains(item));
        let k = choose|k: int|
            0 <= k < state.history_outbox.len() && state.history_outbox[k] == item;
        assert(is_standing(state, state.history_outbox[k]));
    }
}

/// Nothing that happens makes a sound state unsound, and what was taken away once stays
/// taken away.
pub proof fn every_event_keeps_the_state_sound(state: AdminModel, event: AdminEvent)
    requires
        is_sound(state),
    ensures
        is_sound(after_event(state, event)),
        keeps_revocations(state, after_event(state, event)),
{
    match event {
        AdminEvent::Requests(policy, incoming) => {
            if state.after_requests(policy, incoming) is Ok {
                lemma_after_requests(state, policy, incoming);
            }
        },
        AdminEvent::Confirmations(checked) => {
            if state.after_confirmations(checked) is Ok {
                lemma_after_confirmations(state, checked);
                lemma_requests_sorted(state.after_confirmations(checked)->Ok_0);
            }
        },
        AdminEvent::Decide(prefix, approve, decision) => {
            if state.decided(prefix, approve, decision) is Ok {
                lemma_decided(state, prefix, approve, decision);
            }
        },
        AdminEvent::Revoke(stream_id, prefix) => {
            if state.revoke(stream_id, prefix) is Ok {
                lemma_revoke(state, stream_id, prefix);
            }
        },
        AdminEvent::Delivered => {
            if state.offer_outbox.len() > 0 || state.decision_outbox.len() > 0 {
                lemma_delivered(state);
            }
        },
        AdminEvent::HistorySent(grant) => {
            lemma_history_sent(state, grant);
        },
    }
}

/// Every state that a fresh one can come to is sound.
pub proof fn every_reachable_state_is_sound(events: Seq<AdminEvent>)
    ensures
        is_sound(after_events(AdminModel::initial(), events)),
    decreases events.len(),
{
    if events.len() > 0 {
        every_reachable_state_is_sound(events.drop_last());
        every_event_keeps_the_state_sound(
            after_events(AdminModel::initial(), events.drop_last()),
            events.last(),
        );
    }
}

/// Access that was taken away is never granted again, whatever happens.
pub proof fn revocation_is_permanent(
    state: AdminModel,
    events: Seq<AdminEvent>,
    stream_id: u128,
    viewer_id: [u8; 32],
)
    requires
        is_sound(state),
        state.is_revoked(stream_id, viewer_id),
    ensures
        after_events(state, events).is_revoked(stream_id, viewer_id),
        !after_events(state, events).is_approved(stream_id, viewer_id),
        is_sound(after_events(state, events)),
    decreases events.len(),
{
    let after = after_events(state, events);
    if events.len() > 0 {
        revocation_is_permanent(state, events.drop_last(), stream_id, viewer_id);
        every_event_keeps_the_state_sound(
            after_events(state, events.drop_last()),
            events.last(),
        );
    }
    if after.is_approved(stream_id, viewer_id) {
        let i = choose|i: int|
            0 <= i < after.approved.len() && is_grant_of(
                #[trigger] after.approved[i],
                stream_id,
                viewer_id,
            );
        assert(is_lawful(after, after.approved[i]));
    }
}

/// A revocation takes one viewer's access to one stream away and no other.
pub proof fn revocation_is_scoped_to_one_stream(
    state: AdminModel,
    stream_id: u128,
    prefix: Seq<char>,
    other_stream: u128,
    other_viewer: [u8; 32],
)
    requires
        is_sound(state),
        state.revoke(stream_id, prefix) is Ok,
        other_stream != stream_id || state.approved[unique_match(
            grant_names(state.approved, stream_id),
            prefix,
        )->Ok_0].viewer.fingerprint != Some(other_viewer),
    ensures
        state.revoke(stream_id, prefix)->Ok_0.is_approved(other_stream, other_viewer)
            == state.is_approved(other_stream, other_viewer),
{
    lemma_revoke(state, stream_id, prefix);
}

/// Where viewers are approved by hand, access is granted only by approving a request of
/// that viewer for that stream which the viewer confirmed. The comparison cannot be skipped.
pub proof fn manual_approval_needs_a_confirmation(
    state: AdminModel,
    event: AdminEvent,
    stream_id: u128,
    viewer_id: [u8; 32],
)
    requires
        is_sound(state),
        event matches AdminEvent::Requests(policy, _) ==> is_manual(policy),
        !state.is_approved(stream_id, viewer_id),
        after_event(state, event).is_approved(stream_id, viewer_id),
    ensures
        event matches AdminEvent::Decide(prefix, approve, _) && {
            &&& approve
            &&& state.selected(prefix, approve) matches Ok(at) && {
                &&& 0 <= at < state.pending.len()
                &&& state.pending[at].confirmation is Some
                &&& state.pending[at].request.stream_id == stream_id
                &&& state.pending[at].request.viewer.fingerprint == Some(viewer_id)
            }
        },
{
    match event {
        AdminEvent::Requests(policy, incoming) => {
            if state.after_requests(policy, incoming) is Ok {
                lemma_after_requests(state, policy, incoming);
            }
        },
        AdminEvent::Confirmations(checked) => {
            if state.after_confirmations(checked) is Ok {
                lemma_after_confirmations(state, checked);
                lemma_requests_sorted(state.after_confirmations(checked)->Ok_0);
            }
        },
        AdminEvent::Decide(prefix, approve, decision) => {
            if state.decided(prefix, approve, decision) is Ok {
                lemma_decided(state, prefix, approve, decision);
            }
        },
        AdminEvent::Revoke(stream, prefix) => {
            if state.revoke(stream, prefix) is Ok {
                lemma_revoke(state, stream, prefix);
            }
        },
        AdminEvent::Delivered => {
            if state.offer_outbox.len() > 0 || state.decision_outbox.len() > 0 {
                lemma_delivered(state);
            }
        },
        AdminEvent::HistorySent(grant) => {
            lemma_history_sent(state, grant);
        },
    }
}

/// A queued decision stays queued as it is until the relay acknowledges it.
pub proof fn queued_decisions_stay(
    state: AdminModel,
    event: AdminEvent,
    decision: PublisherDecisionModel,
)
    requires
        is_sound(state),
        state.decision_outbox.contains(decision),
        event is Delivered ==> state.offer_outbox.len() > 0 || state.decision_outbox[0] != decision,
    ensures
        after_event(state, event).decision_outbox.contains(decision),
{
    match event {
        AdminEvent::Requests(policy, incoming) => {
            if state.after_requests(policy, incoming) is Ok {
                lemma_after_requests(state, policy, incoming);
            }
        },
        AdminEvent::Confirmations(checked) => {
            if state.after_confirmations(checked) is Ok {
                lemma_after_confirmations(state, checked);
            }
        },
        AdminEvent::Decide(prefix, approve, made) => {
            if state.decided(prefix, approve, made) is Ok {
                lemma_decided(state, prefix, approve, made);
            }
        },
        AdminEvent::Delivered => {
            let queue = state.decision_outbox;
            let k = choose|k: int| 0 <= k < queue.len() && queue[k] == decision;
            if state.offer_outbox.len() == 0 {
                assert(queue.drop_first()[k - 1] == decision);
            }
        },
        _ => {},
    }
}

} // verus!

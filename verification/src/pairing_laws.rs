//! What holds of the pairing queue as a whole, whatever is sent to it.

use vstd::prelude::*;

use crate::pairing::{
    lemma_find_row, lemma_inserted_wf, lemma_kept_rows, lemma_live_find, lemma_purged_wf,
    lemma_replaced_wf,
};
use crate::pairing_model::{
    before_ms, kept_rows, pending_count, pending_for, publisher_pending_count, source_count,
    viewer_count, PairRowModel, PairingError, PairingModel, MAX_PENDING_GLOBAL, MAX_PENDING_PER_PUBLISHER,
    MAX_REQUESTS_PER_MINUTE, RATE_WINDOW_MS,
};
use crate::records::{
    PairDecisionReason, PairOfferModel, PairRequestModel, PublisherDecisionModel,
    ViewerConfirmationModel,
};

verus! {

/// Everything that changes a pairing queue.
pub enum PairingEvent {
    /// A viewer sent a request.
    Request {
        /// The request.
        request: PairRequestModel,
        /// Where it came from.
        source_addr: Seq<char>,
        /// Whether it verifies.
        verified: bool,
    },
    /// A publisher sent an offer.
    Offer {
        /// The offer.
        offer: PairOfferModel,
        /// Whether it verifies.
        verified: bool,
    },
    /// A viewer sent a confirmation.
    Confirmation {
        /// The confirmation.
        confirmation: ViewerConfirmationModel,
        /// Whether it verifies.
        verified: bool,
    },
    /// A publisher sent a decision.
    Decision {
        /// The decision.
        decision: PublisherDecisionModel,
        /// Whether it verifies.
        verified: bool,
        /// Whether the stored confirmation verifies.
        ceremony_verified: bool,
        /// Hash of the stored ceremony.
        transcript: Option<[u8; 32]>,
    },
    /// An inbox was fetched.
    Inbox,
}

/// Whether `after` is what an event at a time makes of a queue.
pub open spec fn follows(
    before: PairingModel,
    event: PairingEvent,
    now_ms: i64,
    after: PairingModel,
) -> bool {
    match event {
        PairingEvent::Request { request, source_addr, verified } => before.enqueues(
            request,
            source_addr,
            now_ms,
            verified,
            after,
        ),
        PairingEvent::Offer { offer, verified } => after == before.after_offer(
            offer,
            now_ms,
            verified,
        ),
        PairingEvent::Confirmation { confirmation, verified } => after
            == before.after_confirmation(confirmation, now_ms, verified),
        PairingEvent::Decision { decision, verified, ceremony_verified, transcript } => after
            == before.after_decision(decision, now_ms, verified, ceremony_verified, transcript),
        PairingEvent::Inbox => after == before.purged(now_ms),
    }
}

/// How the row of one request can differ after one event: what was recorded stays, and
/// only what was missing can be added.
pub open spec fn row_evolves(before: PairRowModel, after: PairRowModel) -> bool {
    &&& after.request == before.request
    &&& after.request_id == before.request_id
    &&& after.source_addr == before.source_addr
    &&& after.received_at_ms == before.received_at_ms
    &&& before.offer is Some ==> after.offer == before.offer
    &&& before.confirmation is Some ==> after.confirmation == before.confirmation
    &&& before.decision is Some ==> after.decision == before.decision && after.decided_at_ms
        == before.decided_at_ms
}

/// Whatever is sent, a request that has not lapsed stays queued, and the first artifact of
/// each kind stays with it: its offer, its confirmation and its decision once recorded.
pub proof fn first_artifacts_stay(
    before: PairingModel,
    event: PairingEvent,
    now_ms: i64,
    after: PairingModel,
    index: int,
)
    requires
        before.wf(),
        follows(before, event, now_ms, after),
        0 <= index < before.rows.len(),
        !before.rows[index].lapsed(now_ms),
    ensures
        after.wf(),
        after.find(before.rows[index].request_id) is Some,
        0 <= after.find(before.rows[index].request_id)->0 < after.rows.len(),
        row_evolves(
            before.rows[index],
            after.rows[after.find(before.rows[index].request_id)->0],
        ),
{
    let request_id = before.rows[index].request_id;
    let live = before.purged(now_ms);
    lemma_live_find(before, index, now_ms);
    lemma_find_row(before, request_id, index);
    let k = live.find(request_id)->0;
    every_event_keeps_the_queue_in_order(before, event, now_ms, after);
    if after != before && after != live {
        match event {
            PairingEvent::Request { request, source_addr, verified } => {
                let p = choose|p: int| #[trigger]
                    live.is_row_position(now_ms, request.request_id->0, p) && after == (
                    PairingModel {
                        rows: live.rows.insert(
                            p,
                            PairingModel::fresh_row(request, source_addr, now_ms),
                        ),
                        ..live
                    });
                let j = if k < p {
                    k
                } else {
                    k + 1
                };
                assert(after.rows[j] == live.rows[k]);
                lemma_find_row(after, request_id, j);
            },
            PairingEvent::Offer { offer, verified } => {
                lemma_find_row(after, request_id, k);
            },
            PairingEvent::Confirmation { confirmation, verified } => {
                lemma_find_row(after, request_id, k);
            },
            PairingEvent::Decision { decision, verified, ceremony_verified, transcript } => {
                lemma_find_row(after, request_id, k);
            },
            PairingEvent::Inbox => {},
        }
    }
}

/// Whatever is sent, the queue stays in order: no request occurs twice, every
/// confirmation answers a stored offer, and every manual approval refers to a stored offer
/// and a stored confirmation.
pub proof fn every_event_keeps_the_queue_in_order(
    before: PairingModel,
    event: PairingEvent,
    now_ms: i64,
    after: PairingModel,
)
    requires
        before.wf(),
        follows(before, event, now_ms, after),
    ensures
        after.wf(),
        forall|i: int|
            0 <= i < after.rows.len() ==> {
                &&& (#[trigger] after.rows[i]).confirmation is Some ==> after.rows[i].offer is Some
                &&& (after.rows[i].decision matches Some(decision) && decision.reason
                    == PairDecisionReason::ManualVerified) ==> after.rows[i].offer is Some
                    && after.rows[i].confirmation is Some
            },
{
    let live = before.purged(now_ms);
    lemma_purged_wf(before, now_ms);
    if after != before && after != live {
        match event {
            PairingEvent::Request { request, source_addr, verified } => {
                let p = choose|p: int| #[trigger]
                    live.is_row_position(now_ms, request.request_id->0, p) && after == (
                    PairingModel {
                        rows: live.rows.insert(
                            p,
                            PairingModel::fresh_row(request, source_addr, now_ms),
                        ),
                        ..live
                    });
                lemma_inserted_wf(
                    live,
                    PairingModel::fresh_row(request, source_addr, now_ms),
                    p,
                );
            },
            PairingEvent::Offer { offer, verified } => {
                let i = live.find(offer.request_id)->0;
                assert(live.rows[i].request_id == offer.request_id);
                assert(live.rows[i].wf(live.max_record_bytes));
                lemma_replaced_wf(live, i, after.rows[i]);
            },
            PairingEvent::Confirmation { confirmation, verified } => {
                let i = live.find(confirmation.request_id)->0;
                assert(live.rows[i].request_id == confirmation.request_id);
                assert(live.rows[i].wf(live.max_record_bytes));
                lemma_replaced_wf(live, i, after.rows[i]);
            },
            PairingEvent::Decision { decision, verified, ceremony_verified, transcript } => {
                let i = live.find(decision.request_id)->0;
                assert(live.rows[i].request_id == decision.request_id);
                assert(live.rows[i].wf(live.max_record_bytes));
                lemma_replaced_wf(live, i, after.rows[i]);
            },
            PairingEvent::Inbox => {},
        }
    }
    assert forall|i: int| 0 <= i < after.rows.len() implies {
        &&& (#[trigger] after.rows[i]).confirmation is Some ==> after.rows[i].offer is Some
        &&& (after.rows[i].decision matches Some(decision) && decision.reason
            == PairDecisionReason::ManualVerified) ==> after.rows[i].offer is Some
            && after.rows[i].confirmation is Some
    } by {
        assert(after.rows[i].wf(after.max_record_bytes));
    }
}

/// The queue is within its bounds.
pub open spec fn within_bounds(queue: PairingModel) -> bool {
    &&& pending_count(queue.rows) <= MAX_PENDING_GLOBAL
    &&& forall|publisher_id: [u8; 32]| #[trigger]
        publisher_pending_count(queue.rows, publisher_id) <= MAX_PENDING_PER_PUBLISHER
}

/// Nothing that is sent makes the queue exceed its bounds.
pub proof fn queue_bounds_are_never_exceeded(
    before: PairingModel,
    event: PairingEvent,
    now_ms: i64,
    after: PairingModel,
)
    requires
        before.wf(),
        within_bounds(before),
        follows(before, event, now_ms, after),
    ensures
        within_bounds(after),
{
    let live = before.purged(now_ms);
    lemma_purged_wf(before, now_ms);
    lemma_kept_counts(before.rows, now_ms);
    assert(within_bounds(live)) by {
        assert forall|publisher_id: [u8; 32]| #[trigger]
            publisher_pending_count(live.rows, publisher_id) <= MAX_PENDING_PER_PUBLISHER by {
            assert(publisher_pending_count(before.rows, publisher_id)
                <= MAX_PENDING_PER_PUBLISHER);
        }
    }
    if after != before && after != live {
        match event {
            PairingEvent::Request { request, source_addr, verified } => {
                let fresh = PairingModel::fresh_row(request, source_addr, now_ms);
                let p = choose|p: int| #[trigger]
                    live.is_row_position(now_ms, request.request_id->0, p) && after == (
                    PairingModel { rows: live.rows.insert(p, fresh), ..live });
                assert forall|publisher_id: [u8; 32]| #[trigger]
                    publisher_pending_count(after.rows, publisher_id)
                        <= MAX_PENDING_PER_PUBLISHER by {
                    lemma_inserted_counts(live.rows, p, fresh, publisher_id);
                    assert(publisher_pending_count(live.rows, publisher_id)
                        <= MAX_PENDING_PER_PUBLISHER);
                }
                lemma_inserted_counts(live.rows, p, fresh, fresh.publisher_id);
            },
            PairingEvent::Offer { offer, verified } => {
                lemma_replaced_bounds(live, live.find(offer.request_id)->0, after);
            },
            PairingEvent::Confirmation { confirmation, verified } => {
                lemma_replaced_bounds(live, live.find(confirmation.request_id)->0, after);
            },
            PairingEvent::Decision { decision, verified, ceremony_verified, transcript } => {
                lemma_replaced_bounds(live, live.find(decision.request_id)->0, after);
            },
            PairingEvent::Inbox => {},
        }
    }
}

proof fn lemma_replaced_bounds(live: PairingModel, index: int, after: PairingModel)
    requires
        within_bounds(live),
        0 <= index < live.rows.len(),
        after == live.with_row(index, after.rows[index]),
        after.rows[index].publisher_id == live.rows[index].publisher_id,
        live.rows[index].decision is Some ==> after.rows[index].decision is Some,
    ensures
        within_bounds(after),
{
    assert forall|publisher_id: [u8; 32]| #[trigger]
        publisher_pending_count(after.rows, publisher_id) <= MAX_PENDING_PER_PUBLISHER by {
        lemma_replaced_counts(live.rows, index, after.rows[index], publisher_id);
        assert(publisher_pending_count(live.rows, publisher_id) <= MAX_PENDING_PER_PUBLISHER);
    }
    lemma_replaced_counts(live.rows, index, after.rows[index], live.rows[index].publisher_id);
}

proof fn lemma_kept_counts(rows: Seq<PairRowModel>, now_ms: i64)
    ensures
        pending_count(kept_rows(rows, now_ms)) <= pending_count(rows),
        forall|publisher_id: [u8; 32]| #[trigger]
            publisher_pending_count(kept_rows(rows, now_ms), publisher_id)
                <= publisher_pending_count(rows, publisher_id),
    decreases rows.len(),
{
    if rows.len() > 0 {
        let shorter = rows.drop_last();
        let earlier = kept_rows(shorter, now_ms);
        let row = rows.last();
        lemma_kept_counts(shorter, now_ms);
        assert(earlier.push(row).drop_last() =~= earlier);
        assert forall|publisher_id: [u8; 32]| #[trigger]
            publisher_pending_count(kept_rows(rows, now_ms), publisher_id)
                <= publisher_pending_count(rows, publisher_id) by {
            assert(publisher_pending_count(earlier, publisher_id) <= publisher_pending_count(
                shorter,
                publisher_id,
            ));
        }
    }
}

proof fn lemma_inserted_counts(
    rows: Seq<PairRowModel>,
    at: int,
    row: PairRowModel,
    publisher_id: [u8; 32],
)
    requires
        0 <= at <= rows.len(),
        row.decision is None,
    ensures
        pending_count(rows.insert(at, row)) == pending_count(rows) + 1,
        publisher_pending_count(rows.insert(at, row), publisher_id) == publisher_pending_count(
            rows,
            publisher_id,
        ) + if row.publisher_id == publisher_id {
            1nat
        } else {
            0
        },
    decreases rows.len(),
{
    let inserted = rows.insert(at, row);
    if at == rows.len() {
        assert(inserted.drop_last() =~= rows);
    } else {
        lemma_inserted_counts(rows.drop_last(), at, row, publisher_id);
        assert(inserted.drop_last() =~= rows.drop_last().insert(at, row));
    }
}

proof fn lemma_inserted_recent(
    rows: Seq<PairRowModel>,
    at: int,
    row: PairRowModel,
    since_ms: i64,
)
    requires
        0 <= at <= rows.len(),
        row.received_at_ms >= since_ms,
    ensures
        source_count(rows.insert(at, row), row.source_addr, since_ms) == source_count(
            rows,
            row.source_addr,
            since_ms,
        ) + 1,
        viewer_count(rows.insert(at, row), row.viewer_id, since_ms) == viewer_count(
            rows,
            row.viewer_id,
            since_ms,
        ) + 1,
    decreases rows.len(),
{
    let inserted = rows.insert(at, row);
    if at == rows.len() {
        assert(inserted.drop_last() =~= rows);
    } else {
        lemma_inserted_recent(rows.drop_last(), at, row, since_ms);
        assert(inserted.drop_last() =~= rows.drop_last().insert(at, row));
    }
}

proof fn lemma_replaced_counts(
    rows: Seq<PairRowModel>,
    index: int,
    row: PairRowModel,
    publisher_id: [u8; 32],
)
    requires
        0 <= index < rows.len(),
        row.publisher_id == rows[index].publisher_id,
        rows[index].decision is Some ==> row.decision is Some,
    ensures
        pending_count(rows.update(index, row)) <= pending_count(rows),
        publisher_pending_count(rows.update(index, row), publisher_id) <= publisher_pending_count(
            rows,
            publisher_id,
        ),
    decreases rows.len(),
{
    let updated = rows.update(index, row);
    if index == rows.len() - 1 {
        assert(updated.drop_last() =~= rows.drop_last());
    } else {
        lemma_replaced_counts(rows.drop_last(), index, row, publisher_id);
        assert(updated.drop_last() =~= rows.drop_last().update(index, row));
    }
}

/// When a new request is accepted, its source and its viewer have sent no more than the
/// allowed number within the last minute, this one included.
pub proof fn request_rates_are_bounded(
    before: PairingModel,
    request: PairRequestModel,
    source_addr: Seq<char>,
    now_ms: i64,
    verified: bool,
    after: PairingModel,
)
    requires
        before.wf(),
        before.enqueues(request, source_addr, now_ms, verified, after),
        before.request_refusal(request, source_addr, now_ms, verified) is None,
        before.purged(now_ms).find(request.request_id->0) is None,
    ensures
        source_count(after.rows, source_addr, before_ms(now_ms, RATE_WINDOW_MS))
            <= MAX_REQUESTS_PER_MINUTE,
        viewer_count(
            after.rows,
            request.viewer.fingerprint->0,
            before_ms(now_ms, RATE_WINDOW_MS),
        ) <= MAX_REQUESTS_PER_MINUTE,
{
    let live = before.purged(now_ms);
    let fresh = PairingModel::fresh_row(request, source_addr, now_ms);
    let p = choose|p: int| #[trigger]
        live.is_row_position(now_ms, request.request_id->0, p) && after == (PairingModel {
            rows: live.rows.insert(p, fresh),
            ..live
        });
    lemma_inserted_recent(live.rows, p, fresh, before_ms(now_ms, RATE_WINDOW_MS));
}

/// Once a viewer, or the source that its request comes from, has reached the number of
/// requests that a minute allows, a new request is refused and nothing is queued.
pub proof fn requests_beyond_the_rate_are_refused(
    before: PairingModel,
    request: PairRequestModel,
    source_addr: Seq<char>,
    now_ms: i64,
    verified: bool,
    after: PairingModel,
)
    requires
        before.wf(),
        before.enqueues(request, source_addr, now_ms, verified, after),
        request.request_id matches Some(request_id) ==> before.purged(now_ms).find(request_id)
            is None,
        ({
            let live = before.purged(now_ms).rows;
            let since_ms = before_ms(now_ms, RATE_WINDOW_MS);
            source_count(live, source_addr, since_ms) >= MAX_REQUESTS_PER_MINUTE || (
            request.viewer.fingerprint matches Some(viewer_id) && viewer_count(
                live,
                viewer_id,
                since_ms,
            ) >= MAX_REQUESTS_PER_MINUTE)
        }),
    ensures
        before.enqueue_result(request, source_addr, now_ms, verified) is Err,
        after == before,
{
}

/// Sending a queued request again, byte for byte, is answered as known, from wherever it
/// comes and however many requests its viewer and its source have sent: retries are not
/// rate limited. The queue still holds the request, as it was, and holds it once.
pub proof fn identical_retries_are_not_rate_limited(
    before: PairingModel,
    request: PairRequestModel,
    source_addr: Seq<char>,
    now_ms: i64,
    index: int,
    after: PairingModel,
)
    requires
        before.wf(),
        before.enqueues(request, source_addr, now_ms, true, after),
        0 <= index < before.rows.len(),
        !before.rows[index].lapsed(now_ms),
        request.encoded == before.rows[index].request.encoded,
        request.request_id == Some(before.rows[index].request_id),
        request.publisher.fingerprint is Some,
        request.viewer.fingerprint is Some,
    ensures
        before.enqueue_result(request, source_addr, now_ms, true) == Ok::<bool, PairingError>(
            false,
        ),
        after == before.purged(now_ms),
        exists|i: int|
            0 <= i < after.rows.len() && #[trigger] after.rows[i] == before.rows[index],
        forall|i: int, j: int|
            0 <= i < after.rows.len() && 0 <= j < after.rows.len() && (
            #[trigger] after.rows[i]).request_id == request.request_id->0 && (
            #[trigger] after.rows[j]).request_id == request.request_id->0 ==> i == j,
{
    let request_id = before.rows[index].request_id;
    assert(before.rows[index].wf(before.max_record_bytes));
    lemma_live_find(before, index, now_ms);
    let live = before.purged(now_ms);
    let found = live.find(request_id)->0;
    assert(live.rows[found] == before.rows[index]);
    assert forall|i: int, j: int|
        0 <= i < after.rows.len() && 0 <= j < after.rows.len() && (
        #[trigger] after.rows[i]).request_id == request.request_id->0 && (
        #[trigger] after.rows[j]).request_id == request.request_id->0 implies i == j by {
        lemma_find_row(live, request_id, i);
        lemma_find_row(live, request_id, j);
    }
}

/// An undecided request is delivered to its publisher on every fetch until it expires.
pub proof fn pending_requests_are_delivered(queue: PairingModel, index: int, now_ms: i64)
    requires
        queue.wf(),
        within_bounds(queue),
        0 <= index < queue.rows.len(),
        queue.rows[index].decision is None,
        now_ms < queue.rows[index].request.expires_at_ms,
    ensures
        queue.publisher_delivery(queue.rows[index].publisher_id, now_ms).contains(
            queue.rows[index],
        ),
{
    let row = queue.rows[index];
    let kept = kept_rows(queue.rows, now_ms);
    lemma_kept_rows(queue.rows, now_ms);
    lemma_kept_counts(queue.rows, now_ms);
    assert(kept.contains(row));
    let k = choose|k: int| 0 <= k < kept.len() && kept[k] == row;
    lemma_pending_for(kept, row.publisher_id, k);
    assert(publisher_pending_count(kept, row.publisher_id) <= publisher_pending_count(
        queue.rows,
        row.publisher_id,
    ));
    assert(publisher_pending_count(queue.rows, row.publisher_id) <= MAX_PENDING_PER_PUBLISHER);
}

proof fn lemma_pending_for(rows: Seq<PairRowModel>, publisher_id: [u8; 32], index: int)
    requires
        0 <= index < rows.len(),
        rows[index].decision is None,
        rows[index].publisher_id == publisher_id,
    ensures
        pending_for(rows, publisher_id).contains(rows[index]),
        pending_for(rows, publisher_id).len() == publisher_pending_count(rows, publisher_id),
    decreases rows.len(),
{
    let all = pending_for(rows, publisher_id);
    lemma_pending_for_len(rows, publisher_id);
    if index == rows.len() - 1 {
        assert(all[all.len() - 1] == rows[index]);
    } else {
        lemma_pending_for(rows.drop_last(), publisher_id, index);
        let earlier = pending_for(rows.drop_last(), publisher_id);
        let k = choose|k: int| 0 <= k < earlier.len() && earlier[k] == rows[index];
        assert(all[k] == rows[index]);
    }
}

proof fn lemma_pending_for_len(rows: Seq<PairRowModel>, publisher_id: [u8; 32])
    ensures
        pending_for(rows, publisher_id).len() == publisher_pending_count(rows, publisher_id),
        forall|i: int|
            0 <= i < pending_for(rows, publisher_id).len() ==> (#[trigger] pending_for(
                rows,
                publisher_id,
            )[i]).decision is None && pending_for(rows, publisher_id)[i].publisher_id
                == publisher_id,
    decreases rows.len(),
{
    if rows.len() > 0 {
        lemma_pending_for_len(rows.drop_last(), publisher_id);
        let earlier = pending_for(rows.drop_last(), publisher_id);
        let all = pending_for(rows, publisher_id);
        assert forall|i: int| 0 <= i < all.len() implies (#[trigger] all[i]).decision is None
            && all[i].publisher_id == publisher_id by {
            if i < earlier.len() {
                assert(all[i] == earlier[i]);
            }
        }
    }
}

/// A publisher is delivered its own undecided requests only: what is decided, or asked of
/// another publisher, does not reach it.
pub proof fn only_own_undecided_requests_are_delivered(
    queue: PairingModel,
    publisher_id: [u8; 32],
    now_ms: i64,
    index: int,
)
    requires
        0 <= index < queue.publisher_delivery(publisher_id, now_ms).len(),
    ensures
        queue.publisher_delivery(publisher_id, now_ms)[index].decision is None,
        queue.publisher_delivery(publisher_id, now_ms)[index].publisher_id == publisher_id,
{
    lemma_pending_for_len(kept_rows(queue.rows, now_ms), publisher_id);
}

} // verus!

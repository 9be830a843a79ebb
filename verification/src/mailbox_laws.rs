//! What holds of the relay's pairing mailboxes, whatever is queued. Each law speaks of what
//! a call may return for what it was given.

use vstd::prelude::*;

use crate::pairing::{
    confirmations_view, decisions_view, lemma_find_row, lemma_kept_rows, lemma_live_find,
    lemma_live_find_none, lemma_purged_wf, offers_view, DecisionEvidence, PairingStore,
    PublisherPairingInbox, ViewerPairingInbox,
};
use crate::pairing_model::{
    answered_for, confirmations_of, decisions_of, delivery_refusal, is_listed, kept_rows,
    offers_of, pending_count, pending_for, publisher_pending_count, source_count, viewer_count,
    PairRowModel, PairingError, PairingModel,
};
use crate::records::{
    IdentityPublic, PairDecisionReason, PairOffer, PairOfferModel, PairRequest,
    PublisherDecision, PublisherDecisionModel, ViewerConfirmation, ViewerConfirmationModel,
};

verus! {

/// Thirty days, in milliseconds.
pub open spec fn thirty_days() -> int {
    30int * 24 * 60 * 60 * 1000
}

/// Whether a row still counts: an undecided request until it expires, a decided one for
/// thirty days.
pub open spec fn is_live(row: PairRowModel, now_ms: i64) -> bool {
    match row.decision {
        None => now_ms < row.request.expires_at_ms,
        Some(_) => row.decided_at_ms >= now_ms - thirty_days(),
    }
}

/// Whether a row is an undecided request that still counts.
pub open spec fn is_open(row: PairRowModel, now_ms: i64) -> bool {
    row.decision is None && now_ms < row.request.expires_at_ms
}

proof fn lemma_live(row: PairRowModel, now_ms: i64)
    ensures
        row.lapsed(now_ms) <==> !is_live(row, now_ms),
{
}

/// What a pairing queue keeps is what still counts.
proof fn lemma_kept(rows: Seq<PairRowModel>, now_ms: i64)
    ensures
        kept_rows(rows, now_ms) == rows.filter(|row: PairRowModel| is_live(row, now_ms)),
    decreases rows.len(),
{
    reveal(Seq::filter);
    if rows.len() > 0 {
        lemma_kept(rows.drop_last(), now_ms);
        lemma_live(rows.last(), now_ms);
    }
}

/// Whether a row is an answer to a viewer: it still counts and holds an offer or a decision.
pub open spec fn answers(row: PairRowModel, viewer_id: [u8; 32], now_ms: i64) -> bool {
    row.viewer_id == viewer_id && (row.offer is Some || row.decision is Some) && is_live(
        row,
        now_ms,
    )
}

/// Whether a row asks a publisher: it is undecided and has not expired.
pub open spec fn asks(row: PairRowModel, publisher_id: [u8; 32], now_ms: i64) -> bool {
    row.publisher_id == publisher_id && is_open(row, now_ms)
}

proof fn lemma_answered(rows: Seq<PairRowModel>, viewer_id: [u8; 32], now_ms: i64)
    ensures
        answered_for(kept_rows(rows, now_ms), viewer_id) == rows.filter(
            |row: PairRowModel| answers(row, viewer_id, now_ms),
        ),
    decreases rows.len(),
{
    reveal(Seq::filter);
    if rows.len() > 0 {
        let shorter = rows.drop_last();
        lemma_answered(shorter, viewer_id, now_ms);
        lemma_live(rows.last(), now_ms);
        let kept = kept_rows(shorter, now_ms);
        if !rows.last().lapsed(now_ms) {
            assert(kept.push(rows.last()).drop_last() =~= kept);
        }
    }
}

proof fn lemma_asked(rows: Seq<PairRowModel>, publisher_id: [u8; 32], now_ms: i64)
    ensures
        pending_for(kept_rows(rows, now_ms), publisher_id) == rows.filter(
            |row: PairRowModel| asks(row, publisher_id, now_ms),
        ),
    decreases rows.len(),
{
    reveal(Seq::filter);
    if rows.len() > 0 {
        let shorter = rows.drop_last();
        lemma_asked(shorter, publisher_id, now_ms);
        lemma_live(rows.last(), now_ms);
        let kept = kept_rows(shorter, now_ms);
        if !rows.last().lapsed(now_ms) {
            assert(kept.push(rows.last()).drop_last() =~= kept);
        }
    }
}

/// The offers of some rows, in their order.
pub open spec fn offers_in(rows: Seq<PairRowModel>) -> Seq<PairOfferModel> {
    rows.filter(|row: PairRowModel| row.offer is Some).map_values(
        |row: PairRowModel| row.offer->0,
    )
}

/// The decisions of some rows, in their order.
pub open spec fn decisions_in(rows: Seq<PairRowModel>) -> Seq<PublisherDecisionModel> {
    rows.filter(|row: PairRowModel| row.decision is Some).map_values(
        |row: PairRowModel| row.decision->0,
    )
}

/// The confirmations of some rows, in their order.
pub open spec fn confirmations_in(rows: Seq<PairRowModel>) -> Seq<ViewerConfirmationModel> {
    rows.filter(|row: PairRowModel| row.confirmation is Some).map_values(
        |row: PairRowModel| row.confirmation->0,
    )
}

proof fn lemma_records_in(rows: Seq<PairRowModel>)
    ensures
        offers_of(rows) == offers_in(rows),
        decisions_of(rows) == decisions_in(rows),
        confirmations_of(rows) == confirmations_in(rows),
    decreases rows.len(),
{
    reveal(Seq::filter);
    if rows.len() > 0 {
        lemma_records_in(rows.drop_last());
    }
    assert(offers_of(rows) =~= offers_in(rows));
    assert(decisions_of(rows) =~= decisions_in(rows));
    assert(confirmations_of(rows) =~= confirmations_in(rows));
}

/// The first rows of a run, four thousand and ninety-six at most.
pub open spec fn first_page(rows: Seq<PairRowModel>) -> Seq<PairRowModel> {
    if rows.len() <= 4096 {
        rows
    } else {
        rows.take(4096)
    }
}

/// A viewer's inbox holds the offers and the decisions of all its requests that still count
/// and were answered, by either or by both, in the order in which the requests arrived.
pub proof fn viewers_receive_every_answer(
    store: &mut PairingStore,
    viewer: &IdentityPublic,
    now_ms: i64,
    result: Result<ViewerPairingInbox, PairingError>,
    viewer_id: [u8; 32],
)
    requires
        old(store)@.wf(),
        call_ensures(PairingStore::viewer_inbox, (store, viewer, now_ms), result),
        viewer.fingerprint == Some(viewer_id),
    ensures
        ({
            let answered = first_page(
                old(store)@.rows.filter(|row: PairRowModel| answers(row, viewer_id, now_ms)),
            );
            &&& result matches Ok(inbox)
            &&& offers_view(inbox.offers@) == offers_in(answered)
            &&& decisions_view(inbox.decisions@) == decisions_in(answered)
        }),
{
    let rows = old(store)@.rows;
    lemma_answered(rows, viewer_id, now_ms);
    lemma_records_in(
        first_page(rows.filter(|row: PairRowModel| answers(row, viewer_id, now_ms))),
    );
}

/// A decision on a viewer's request reaches the viewer for thirty days, whether or not the
/// request was ever offered verification, as long as no more than a page of answers waits.
pub proof fn decisions_reach_their_viewer(
    store: &mut PairingStore,
    viewer: &IdentityPublic,
    now_ms: i64,
    result: Result<ViewerPairingInbox, PairingError>,
    index: int,
)
    requires
        old(store)@.wf(),
        call_ensures(PairingStore::viewer_inbox, (store, viewer, now_ms), result),
        0 <= index < old(store)@.rows.len(),
        viewer.fingerprint == Some(old(store)@.rows[index].viewer_id),
        old(store)@.rows[index].decision is Some || old(store)@.rows[index].offer is Some,
        is_live(old(store)@.rows[index], now_ms),
        old(store)@.rows.filter(
            |row: PairRowModel| answers(row, viewer.fingerprint->0, now_ms),
        ).len() <= 4096,
    ensures
        result matches Ok(inbox) && (old(store)@.rows[index].decision matches Some(decision)
            ==> decisions_view(inbox.decisions@).contains(decision)) && (
        old(store)@.rows[index].offer matches Some(offer) ==> offers_view(
            inbox.offers@,
        ).contains(offer)),
{
    let rows = old(store)@.rows;
    let row = rows[index];
    let viewer_id = viewer.fingerprint->0;
    viewers_receive_every_answer(store, viewer, now_ms, result, viewer_id);
    let answered = rows.filter(|row: PairRowModel| answers(row, viewer_id, now_ms));
    lemma_filter_contains(rows, |row: PairRowModel| answers(row, viewer_id, now_ms), index);
    let k = choose|k: int| 0 <= k < answered.len() && answered[k] == row;
    if row.decision is Some {
        let picked = answered.filter(|row: PairRowModel| row.decision is Some);
        lemma_filter_contains(answered, |row: PairRowModel| row.decision is Some, k);
        let d = choose|d: int| 0 <= d < picked.len() && picked[d] == row;
        assert(decisions_in(answered)[d] == row.decision->0);
    }
    if row.offer is Some {
        let picked = answered.filter(|row: PairRowModel| row.offer is Some);
        lemma_filter_contains(answered, |row: PairRowModel| row.offer is Some, k);
        let d = choose|d: int| 0 <= d < picked.len() && picked[d] == row;
        assert(offers_in(answered)[d] == row.offer->0);
    }
}

/// What passes a filter is in what is left.
proof fn lemma_filter_contains<T>(items: Seq<T>, keep: spec_fn(T) -> bool, index: int)
    requires
        0 <= index < items.len(),
        keep(items[index]),
    ensures
        items.filter(keep).contains(items[index]),
    decreases items.len(),
{
    reveal(Seq::filter);
    let shorter = items.drop_last();
    let kept = items.filter(keep);
    if index < items.len() - 1 {
        lemma_filter_contains(shorter, keep, index);
        let before = shorter.filter(keep);
        let k = choose|k: int| 0 <= k < before.len() && before[k] == items[index];
        assert(kept[k] == items[index]);
    } else {
        assert(kept[kept.len() - 1] == items[index]);
    }
}

/// A publisher's inbox holds all its undecided requests that have not expired, in the order
/// in which they arrived, with where they came from and when, and the confirmations of those
/// that were confirmed.
pub proof fn publishers_receive_every_request(
    store: &mut PairingStore,
    publisher: &IdentityPublic,
    now_ms: i64,
    unverified: &Vec<[u8; 32]>,
    result: Result<PublisherPairingInbox, PairingError>,
    publisher_id: [u8; 32],
)
    requires
        old(store)@.wf(),
        call_ensures(
            PairingStore::publisher_inbox,
            (store, publisher, now_ms, unverified),
            result,
        ),
        publisher.fingerprint == Some(publisher_id),
        unverified@.len() == 0,
        forall|i: int|
            0 <= i < old(store)@.rows.len() ==> i64::MIN <= (
            #[trigger] old(store)@.rows[i]).request.expires_at_ms
                - old(store)@.rows[i].request.issued_at_ms <= i64::MAX,
    ensures
        ({
            let asked = first_page(
                old(store)@.rows.filter(|row: PairRowModel| asks(row, publisher_id, now_ms)),
            );
            &&& result matches Ok(inbox)
            &&& inbox.requests@.len() == asked.len()
            &&& forall|i: int|
                0 <= i < asked.len() ==> {
                    &&& (#[trigger] inbox.requests@[i]).request@ == asked[i].request
                    &&& inbox.requests@[i].source_addr@ == asked[i].source_addr
                    &&& inbox.requests@[i].received_at_ms == asked[i].received_at_ms
                }
            &&& confirmations_view(inbox.confirmations@) == confirmations_in(asked)
        }),
{
    let rows = old(store)@.rows;
    lemma_asked(rows, publisher_id, now_ms);
    let all = rows.filter(|row: PairRowModel| asks(row, publisher_id, now_ms));
    let asked = first_page(all);
    lemma_records_in(asked);
    assert forall|i: int| 0 <= i < asked.len() implies i64::MIN <= (
    #[trigger] asked[i]).request.expires_at_ms - asked[i].request.issued_at_ms <= i64::MAX by {
        assert(asked[i] == all[i]);
        lemma_filter_within(rows, |row: PairRowModel| asks(row, publisher_id, now_ms), i);
        let k = choose|k: int| 0 <= k < rows.len() && rows[k] == all[i];
        assert(rows[k].request.expires_at_ms - rows[k].request.issued_at_ms <= i64::MAX);
    }
    lemma_nothing_refused(asked, unverified@);
}

/// What is left by a filter was there and passes it.
proof fn lemma_filter_within<T>(items: Seq<T>, keep: spec_fn(T) -> bool, index: int)
    requires
        0 <= index < items.filter(keep).len(),
    ensures
        items.contains(items.filter(keep)[index]),
        keep(items.filter(keep)[index]),
    decreases items.len(),
{
    reveal(Seq::filter);
    if items.len() > 0 {
        let shorter = items.drop_last();
        let before = shorter.filter(keep);
        if index < before.len() {
            lemma_filter_within(shorter, keep, index);
            let k = choose|k: int| 0 <= k < shorter.len() && shorter[k] == before[index];
            assert(items[k] == before[index]);
        } else {
            assert(items[items.len() - 1] == items.filter(keep)[index]);
        }
    }
}

proof fn lemma_nothing_refused(rows: Seq<PairRowModel>, unverified: Seq<[u8; 32]>)
    requires
        unverified.len() == 0,
        forall|i: int|
            0 <= i < rows.len() ==> i64::MIN <= (#[trigger] rows[i]).request.expires_at_ms
                - rows[i].request.issued_at_ms <= i64::MAX,
    ensures
        delivery_refusal(rows, unverified) is None,
    decreases rows.len(),
{
    if rows.len() > 0 {
        assert(rows.last() == rows[rows.len() - 1]);
        let shorter = rows.drop_last();
        assert forall|i: int| 0 <= i < shorter.len() implies i64::MIN <= (
        #[trigger] shorter[i]).request.expires_at_ms - shorter[i].request.issued_at_ms
            <= i64::MAX by {
            assert(shorter[i] == rows[i]);
        }
        lemma_nothing_refused(shorter, unverified);
    }
}

/// Nothing is delivered to a publisher where one of the requests no longer verifies.
pub proof fn unverified_requests_are_not_delivered(
    store: &mut PairingStore,
    publisher: &IdentityPublic,
    now_ms: i64,
    unverified: &Vec<[u8; 32]>,
    result: Result<PublisherPairingInbox, PairingError>,
    inbox: PublisherPairingInbox,
    i: int,
)
    requires
        old(store)@.wf(),
        call_ensures(
            PairingStore::publisher_inbox,
            (store, publisher, now_ms, unverified),
            result,
        ),
        result == Ok::<PublisherPairingInbox, PairingError>(inbox),
        0 <= i < inbox.requests@.len(),
    ensures
        inbox.requests@[i].request.request_id is Some,
        !unverified@.contains(inbox.requests@[i].request.request_id->0),
{
    let publisher_id = publisher.fingerprint->0;
    let rows = old(store)@.publisher_delivery(publisher_id, now_ms);
    lemma_none_listed(rows, unverified@, i);
    let kept = kept_rows(old(store)@.rows, now_ms);
    lemma_asked(old(store)@.rows, publisher_id, now_ms);
    let all = pending_for(kept, publisher_id);
    assert(rows[i] == all[i]);
    lemma_filter_within(
        old(store)@.rows,
        |row: PairRowModel| asks(row, publisher_id, now_ms),
        i,
    );
    let k = choose|k: int| 0 <= k < old(store)@.rows.len() && old(store)@.rows[k] == all[i];
    assert(old(store)@.rows[k].wf(old(store)@.max_record_bytes));
    assert(inbox.requests@[i].request@ == rows[i].request);
    if unverified@.contains(rows[i].request_id) {
        let j = choose|j: int| 0 <= j < unverified@.len() && unverified@[j] == rows[i].request_id;
        assert(is_listed(unverified@, rows[i].request_id));
    }
}

proof fn lemma_none_listed(rows: Seq<PairRowModel>, unverified: Seq<[u8; 32]>, index: int)
    requires
        delivery_refusal(rows, unverified) is None,
        0 <= index < rows.len(),
    ensures
        !is_listed(unverified, rows[index].request_id),
    decreases rows.len(),
{
    if index < rows.len() - 1 {
        lemma_none_listed(rows.drop_last(), unverified, index);
    }
}

/// Whether a request of a source still counts and arrived during the last minute.
pub open spec fn is_recent_from(row: PairRowModel, source_addr: Seq<char>, now_ms: i64) -> bool {
    row.source_addr == source_addr && row.received_at_ms >= now_ms - 60_000 && is_live(row, now_ms)
}

/// Whether a request of a viewer still counts and arrived during the last minute.
pub open spec fn is_recent_of(row: PairRowModel, viewer_id: [u8; 32], now_ms: i64) -> bool {
    row.viewer_id == viewer_id && row.received_at_ms >= now_ms - 60_000 && is_live(row, now_ms)
}

proof fn lemma_counts(
    rows: Seq<PairRowModel>,
    publisher_id: [u8; 32],
    viewer_id: [u8; 32],
    source_addr: Seq<char>,
    now_ms: i64,
    since_ms: i64,
)
    requires
        since_ms == if now_ms - 60_000 < i64::MIN {
            i64::MIN as int
        } else {
            now_ms - 60_000
        },
    ensures
        ({
            let kept = kept_rows(rows, now_ms);
            &&& pending_count(kept) == rows.filter(
                |row: PairRowModel| is_open(row, now_ms),
            ).len()
            &&& publisher_pending_count(kept, publisher_id) == rows.filter(
                |row: PairRowModel| asks(row, publisher_id, now_ms),
            ).len()
            &&& source_count(kept, source_addr, since_ms) == rows.filter(
                |row: PairRowModel| is_recent_from(row, source_addr, now_ms),
            ).len()
            &&& viewer_count(kept, viewer_id, since_ms) == rows.filter(
                |row: PairRowModel| is_recent_of(row, viewer_id, now_ms),
            ).len()
        }),
    decreases rows.len(),
{
    reveal(Seq::filter);
    if rows.len() > 0 {
        let shorter = rows.drop_last();
        lemma_counts(shorter, publisher_id, viewer_id, source_addr, now_ms, since_ms);
        lemma_live(rows.last(), now_ms);
        let kept = kept_rows(shorter, now_ms);
        if !rows.last().lapsed(now_ms) {
            assert(kept.push(rows.last()).drop_last() =~= kept);
        }
    }
}

/// Whether a live row has an identifier.
pub open spec fn is_known(rows: Seq<PairRowModel>, request_id: [u8; 32], now_ms: i64) -> bool {
    exists|i: int|
        0 <= i < rows.len() && (#[trigger] rows[i]).request_id == request_id && is_live(
            rows[i],
            now_ms,
        )
}

proof fn lemma_unknown(queue: PairingModel, request_id: [u8; 32], now_ms: i64)
    requires
        queue.wf(),
        !is_known(queue.rows, request_id, now_ms),
    ensures
        queue.purged(now_ms).wf(),
        queue.purged(now_ms).find(request_id) is None,
{
    assert forall|i: int|
        0 <= i < queue.rows.len() && (#[trigger] queue.rows[i]).request_id
            == request_id implies queue.rows[i].lapsed(now_ms) by {
        lemma_live(queue.rows[i], now_ms);
    }
    lemma_live_find_none(queue, request_id, now_ms);
}

/// Whether a new request is within every limit of the queue: sixteen thousand three hundred
/// and eighty-four undecided requests in all, one thousand and twenty-four for one publisher,
/// and ten from one source and of one viewer within a minute.
pub open spec fn has_room(
    rows: Seq<PairRowModel>,
    publisher_id: [u8; 32],
    viewer_id: [u8; 32],
    source_addr: Seq<char>,
    now_ms: i64,
) -> bool {
    &&& rows.filter(|row: PairRowModel| is_open(row, now_ms)).len() < 16_384
    &&& rows.filter(|row: PairRowModel| asks(row, publisher_id, now_ms)).len() < 1_024
    &&& rows.filter(|row: PairRowModel| is_recent_from(row, source_addr, now_ms)).len() < 10
    &&& rows.filter(|row: PairRowModel| is_recent_of(row, viewer_id, now_ms)).len() < 10
}

/// A new request is queued if and only if there is room for it: it then waits unanswered,
/// with where it came from and when, and every request that still counts stays. Where there
/// is no room it is refused, and nothing changes.
pub proof fn new_requests_are_queued_while_there_is_room(
    store: &mut PairingStore,
    request: &PairRequest,
    source_addr: &String,
    now_ms: i64,
    result: Result<bool, PairingError>,
    request_id: [u8; 32],
    publisher_id: [u8; 32],
    viewer_id: [u8; 32],
)
    requires
        old(store)@.wf(),
        call_ensures(
            PairingStore::enqueue_request,
            (store, request, source_addr, now_ms, true),
            result,
        ),
        request.request_id == Some(request_id),
        request.publisher.fingerprint == Some(publisher_id),
        request.viewer.fingerprint == Some(viewer_id),
        request.encoded@.len() <= old(store)@.max_record_bytes,
        3 <= source_addr@.len() <= 128,
        !is_known(old(store)@.rows, request_id, now_ms),
    ensures
        has_room(old(store)@.rows, publisher_id, viewer_id, source_addr@, now_ms) ==> {
            &&& result == Ok::<bool, PairingError>(true)
            &&& exists|p: int|
                0 <= p < final(store)@.rows.len() && ({
                    let row = #[trigger] final(store)@.rows[p];
                    &&& row.request_id == request_id
                    &&& row.publisher_id == publisher_id
                    &&& row.viewer_id == viewer_id
                    &&& row.request == request@
                    &&& row.source_addr == source_addr@
                    &&& row.received_at_ms == now_ms
                    &&& row.offer is None && row.confirmation is None && row.decision is None
                    &&& final(store)@.rows.remove(p) == old(store)@.rows.filter(
                        |row: PairRowModel| is_live(row, now_ms),
                    )
                })
        },
        !has_room(old(store)@.rows, publisher_id, viewer_id, source_addr@, now_ms) ==> {
            &&& result is Err
            &&& final(store)@ == old(store)@
        },
{
    let queue = old(store)@;
    let live = queue.purged(now_ms);
    lemma_unknown(queue, request_id, now_ms);
    lemma_counts(
        queue.rows,
        publisher_id,
        viewer_id,
        source_addr@,
        now_ms,
        crate::pairing_model::before_ms(now_ms, 60_000),
    );
    lemma_kept(queue.rows, now_ms);
    if has_room(queue.rows, publisher_id, viewer_id, source_addr@, now_ms) {
        let fresh = PairingModel::fresh_row(request@, source_addr@, now_ms);
        let p = choose|p: int| #[trigger]
            live.is_row_position(now_ms, request_id, p) && final(store)@ == (PairingModel {
                rows: live.rows.insert(p, fresh),
                ..live
            });
        assert(final(store)@.rows[p] == fresh);
        assert(final(store)@.rows.remove(p) =~= live.rows);
    }
}

/// A request that does not verify, is too long or lacks an identity is refused, whatever
/// room there is, and nothing changes.
pub proof fn faulty_requests_are_refused(
    store: &mut PairingStore,
    request: &PairRequest,
    source_addr: &String,
    now_ms: i64,
    verified: bool,
    result: Result<bool, PairingError>,
)
    requires
        old(store)@.wf(),
        call_ensures(
            PairingStore::enqueue_request,
            (store, request, source_addr, now_ms, verified),
            result,
        ),
        !verified || request.encoded@.len() > old(store)@.max_record_bytes
            || request.request_id is None || request.publisher.fingerprint is None
            || request.viewer.fingerprint is None,
    ensures
        result is Err,
        final(store)@ == old(store)@,
{
}

/// The row of a known request, before and after something was recorded for it.
pub open spec fn becomes(
    before: PairingModel,
    after: PairingModel,
    index: int,
    row: PairRowModel,
    now_ms: i64,
) -> bool {
    exists|k: int|
        {
            &&& 0 <= k < after.rows.len()
            &&& #[trigger] after.rows[k] == row
            &&& after.rows.update(k, before.rows[index]) == before.rows.filter(
                |row: PairRowModel| is_live(row, now_ms),
            )
        }
}

proof fn lemma_becomes(before: PairingModel, index: int, row: PairRowModel, now_ms: i64)
    requires
        before.wf(),
        0 <= index < before.rows.len(),
        is_live(before.rows[index], now_ms),
    ensures
        ({
            let live = before.purged(now_ms);
            let k = live.find(before.rows[index].request_id)->0;
            &&& live.find(before.rows[index].request_id) is Some
            &&& live.rows[k] == before.rows[index]
            &&& becomes(before, live.with_row(k, row), index, row, now_ms)
            &&& becomes(before, live, index, before.rows[index], now_ms)
        }),
{
    lemma_live(before.rows[index], now_ms);
    lemma_live_find(before, index, now_ms);
    lemma_kept(before.rows, now_ms);
    let live = before.purged(now_ms);
    let k = live.find(before.rows[index].request_id)->0;
    let after = live.with_row(k, row);
    assert(after.rows[k] == row);
    assert(after.rows.update(k, before.rows[index]) =~= live.rows);
    assert(live.rows.update(k, before.rows[index]) =~= live.rows);
}

/// The first verified offer for a request that still counts is recorded with it; a later one
/// is taken note of and leaves the first in place. Nothing else changes.
pub proof fn first_offers_are_recorded(
    store: &mut PairingStore,
    offer: &PairOffer,
    now_ms: i64,
    verified: bool,
    result: Result<bool, PairingError>,
    index: int,
)
    requires
        old(store)@.wf(),
        call_ensures(PairingStore::store_offer, (store, offer, now_ms, verified), result),
        0 <= index < old(store)@.rows.len(),
        old(store)@.rows[index].request_id == offer.request_id,
        is_live(old(store)@.rows[index], now_ms),
    ensures
        ({
            let row = old(store)@.rows[index];
            if verified && offer.encoded@.len() <= old(store)@.max_record_bytes {
                &&& result == Ok::<bool, PairingError>(row.offer is None)
                &&& becomes(
                    old(store)@,
                    final(store)@,
                    index,
                    if row.offer is None {
                        PairRowModel { offer: Some(offer@), ..row }
                    } else {
                        row
                    },
                    now_ms,
                )
            } else {
                result is Err && final(store)@ == old(store)@
            }
        }),
{
    let row = old(store)@.rows[index];
    lemma_becomes(old(store)@, index, PairRowModel { offer: Some(offer@), ..row }, now_ms);
}

/// The first verified confirmation of an offered request is recorded with it; a later one
/// leaves the first in place. Without an offer there is nothing to confirm.
pub proof fn first_confirmations_are_recorded(
    store: &mut PairingStore,
    confirmation: &ViewerConfirmation,
    now_ms: i64,
    verified: bool,
    result: Result<bool, PairingError>,
    index: int,
)
    requires
        old(store)@.wf(),
        call_ensures(
            PairingStore::store_confirmation,
            (store, confirmation, now_ms, verified),
            result,
        ),
        0 <= index < old(store)@.rows.len(),
        old(store)@.rows[index].request_id == confirmation.request_id,
        is_live(old(store)@.rows[index], now_ms),
    ensures
        ({
            let row = old(store)@.rows[index];
            if verified && row.offer is Some && confirmation.encoded@.len() <= old(
                store,
            )@.max_record_bytes {
                &&& result == Ok::<bool, PairingError>(row.confirmation is None)
                &&& becomes(
                    old(store)@,
                    final(store)@,
                    index,
                    if row.confirmation is None {
                        PairRowModel { confirmation: Some(confirmation@), ..row }
                    } else {
                        row
                    },
                    now_ms,
                )
            } else {
                result is Err && final(store)@ == old(store)@
            }
        }),
{
    let row = old(store)@.rows[index];
    lemma_becomes(
        old(store)@,
        index,
        PairRowModel { confirmation: Some(confirmation@), ..row },
        now_ms,
    );
}

/// The first verified decision on a request is recorded with it, with the time it arrived; a
/// later one leaves the first in place. A manual approval needs the offer, the confirmation
/// and the ceremony that it refers to; one by policy and a rejection need none of them.
pub proof fn first_decisions_are_recorded(
    store: &mut PairingStore,
    decision: &PublisherDecision,
    now_ms: i64,
    evidence: &DecisionEvidence,
    result: Result<bool, PairingError>,
    index: int,
)
    requires
        old(store)@.wf(),
        call_ensures(
            PairingStore::store_decision,
            (store, decision, now_ms, evidence),
            result,
        ),
        0 <= index < old(store)@.rows.len(),
        old(store)@.rows[index].request_id == decision.request_id,
        is_live(old(store)@.rows[index], now_ms),
    ensures
        ({
            let row = old(store)@.rows[index];
            let founded = decision.reason is ManualVerified ==> row.offer is Some
                && row.confirmation is Some && evidence.ceremony_verified && evidence.transcript
                == Some(decision.transcript_hash);
            if evidence.verified && founded && decision.encoded@.len() <= old(
                store,
            )@.max_record_bytes {
                &&& result == Ok::<bool, PairingError>(row.decision is None)
                &&& becomes(
                    old(store)@,
                    final(store)@,
                    index,
                    if row.decision is None {
                        PairRowModel {
                            decision: Some(decision@),
                            decided_at_ms: now_ms,
                            ..row
                        }
                    } else {
                        row
                    },
                    now_ms,
                )
            } else {
                result is Err && final(store)@ == old(store)@
            }
        }),
{
    let row = old(store)@.rows[index];
    lemma_becomes(
        old(store)@,
        index,
        PairRowModel { decision: Some(decision@), decided_at_ms: now_ms, ..row },
        now_ms,
    );
}

/// Nothing is recorded for a request that is not there, or counts no longer.
pub proof fn unknown_requests_are_not_answered(
    store: &mut PairingStore,
    offer: &PairOffer,
    now_ms: i64,
    verified: bool,
    result: Result<bool, PairingError>,
)
    requires
        old(store)@.wf(),
        call_ensures(PairingStore::store_offer, (store, offer, now_ms, verified), result),
        !is_known(old(store)@.rows, offer.request_id, now_ms),
    ensures
        result == Err::<bool, PairingError>(PairingError::UnknownRequest),
        final(store)@ == old(store)@,
{
    lemma_unknown(old(store)@, offer.request_id, now_ms);
}

/// Nothing is recorded for a request that is not there, or counts no longer.
pub proof fn unknown_requests_are_not_decided(
    store: &mut PairingStore,
    decision: &PublisherDecision,
    now_ms: i64,
    evidence: &DecisionEvidence,
    result: Result<bool, PairingError>,
)
    requires
        old(store)@.wf(),
        call_ensures(
            PairingStore::store_decision,
            (store, decision, now_ms, evidence),
            result,
        ),
        !is_known(old(store)@.rows, decision.request_id, now_ms),
    ensures
        result == Err::<bool, PairingError>(PairingError::UnknownRequest),
        final(store)@ == old(store)@,
{
    lemma_unknown(old(store)@, decision.request_id, now_ms);
}

} // verus!

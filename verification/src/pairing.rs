//! The relay's bounded queue of signed offline pairing records.
//!
//! Each operation either takes effect as a whole or leaves the queue as it was. What the
//! operations mean is said over [`PairingModel`].

use vstd::prelude::*;
use vstd::string::StrSliceExecFns;

use crate::bytes::{bytes_equal, id_before, id_equal, id_order, lemma_id_order_injective};
use crate::pairing_model::{
    answered_for, before_ms, confirmations_of, decisions_of, delivered_rows, delivery_refusal,
    is_listed, kept_rows, offers_of, pending_count, pending_for, publisher_pending_count,
    source_count, viewer_count, PairRowModel, PairingError, PairingModel, DECISION_RETENTION_MS,
    MAX_INBOX_RECORDS, MAX_PENDING_GLOBAL, MAX_PENDING_PER_PUBLISHER, MAX_REQUESTS_PER_MINUTE,
    RATE_WINDOW_MS,
};
use crate::records::{
    IdentityPublic, PairDecisionReason, PairOffer, PairOfferModel, PairRequest,
    PublisherDecision, PublisherDecisionModel, ViewerConfirmation, ViewerConfirmationModel,
};

verus! {

/// One queued request with what came of it.
#[derive(Debug)]
pub struct PairRow {
    /// Fingerprint of the request.
    pub request_id: [u8; 32],
    /// Publisher that is asked.
    pub publisher_id: [u8; 32],
    /// Viewer that asks.
    pub viewer_id: [u8; 32],
    /// Network peer that delivered the request.
    pub source_addr: String,
    /// Relay receive time.
    pub received_at_ms: i64,
    /// The request.
    pub request: PairRequest,
    /// The publisher's offer.
    pub offer: Option<PairOffer>,
    /// The viewer's confirmation.
    pub confirmation: Option<ViewerConfirmation>,
    /// The publisher's decision.
    pub decision: Option<PublisherDecision>,
    /// When the decision arrived.
    pub decided_at_ms: i64,
}

impl View for PairRow {
    type V = PairRowModel;

    open spec fn view(&self) -> PairRowModel {
        PairRowModel {
            request_id: self.request_id,
            publisher_id: self.publisher_id,
            viewer_id: self.viewer_id,
            source_addr: self.source_addr@,
            received_at_ms: self.received_at_ms,
            request: self.request@,
            offer: match self.offer {
                Some(offer) => Some(offer@),
                None => None,
            },
            confirmation: match self.confirmation {
                Some(confirmation) => Some(confirmation@),
                None => None,
            },
            decision: match self.decision {
                Some(decision) => Some(decision@),
                None => None,
            },
            decided_at_ms: self.decided_at_ms,
        }
    }
}

/// Rows as mathematical values.
pub open spec fn rows_view(rows: Seq<PairRow>) -> Seq<PairRowModel> {
    rows.map_values(|row: PairRow| row@)
}

/// Request plus relay-observed informational delivery metadata.
#[derive(Debug)]
pub struct PairRequestDelivery {
    /// Unmodified viewer-signed request.
    pub request: PairRequest,
    /// Actual network peer observed by the relay.
    pub source_addr: String,
    /// Relay receive time as Unix milliseconds.
    pub received_at_ms: i64,
}

/// Pending records delivered to an online publisher.
#[derive(Debug)]
pub struct PublisherPairingInbox {
    /// Undecided, unexpired requests for this publisher.
    pub requests: Vec<PairRequestDelivery>,
    /// Viewer confirmations not yet followed by a final decision.
    pub confirmations: Vec<ViewerConfirmation>,
}

/// Queued records delivered to one viewer.
#[derive(Debug)]
pub struct ViewerPairingInbox {
    /// Publisher offers for this viewer's requests.
    pub offers: Vec<PairOffer>,
    /// Final publisher approvals or rejections.
    pub decisions: Vec<PublisherDecision>,
}

/// Confirmations as mathematical values.
pub open spec fn confirmations_view(confirmations: Seq<ViewerConfirmation>) -> Seq<
    ViewerConfirmationModel,
> {
    confirmations.map_values(|confirmation: ViewerConfirmation| confirmation@)
}

/// Offers as mathematical values.
pub open spec fn offers_view(offers: Seq<PairOffer>) -> Seq<PairOfferModel> {
    offers.map_values(|offer: PairOffer| offer@)
}

/// Decisions as mathematical values.
pub open spec fn decisions_view(decisions: Seq<PublisherDecision>) -> Seq<PublisherDecisionModel> {
    decisions.map_values(|decision: PublisherDecision| decision@)
}

/// What checking a decision against the stored ceremony found.
#[derive(Clone, Copy, Debug)]
pub struct DecisionEvidence {
    /// Whether the decision verifies for the stored request and its publisher.
    pub verified: bool,
    /// Whether the stored confirmation verifies for the stored request and offer.
    pub ceremony_verified: bool,
    /// Hash of the stored request and offer.
    pub transcript: Option<[u8; 32]>,
}

/// Bounded pairing queue.
#[derive(Debug)]
pub struct PairingStore {
    rows: Vec<PairRow>,
    max_record_bytes: usize,
}

impl View for PairingStore {
    type V = PairingModel;

    closed spec fn view(&self) -> PairingModel {
        PairingModel { rows: rows_view(self.rows@), max_record_bytes: self.max_record_bytes }
    }
}

/// A request is found where it stands.
pub proof fn lemma_find_row(queue: PairingModel, request_id: [u8; 32], index: int)
    requires
        queue.wf(),
        0 <= index < queue.rows.len(),
        queue.rows[index].request_id == request_id,
    ensures
        queue.find(request_id) == Some(index),
{
    let found = choose|i: int|
        0 <= i < queue.rows.len() && (#[trigger] queue.rows[i]).request_id == request_id;
    assert(queue.rows[found].request_id == request_id);
    if found < index {
        assert(queue.rows[found].request_id != queue.rows[index].request_id);
    }
    if index < found {
        assert(queue.rows[index].request_id != queue.rows[found].request_id);
    }
}

/// What is kept is a part of what was there, in its order.
pub proof fn lemma_kept_rows(rows: Seq<PairRowModel>, now_ms: i64)
    ensures
        kept_rows(rows, now_ms).len() <= rows.len(),
        forall|i: int|
            0 <= i < kept_rows(rows, now_ms).len() ==> !(#[trigger] kept_rows(
                rows,
                now_ms,
            )[i]).lapsed(now_ms) && rows.contains(kept_rows(rows, now_ms)[i]),
        forall|i: int|
            0 <= i < rows.len() && !(#[trigger] rows[i]).lapsed(now_ms) ==> kept_rows(
                rows,
                now_ms,
            ).contains(rows[i]),
    decreases rows.len(),
{
    let kept = kept_rows(rows, now_ms);
    if rows.len() > 0 {
        let shorter = rows.drop_last();
        let earlier = kept_rows(shorter, now_ms);
        lemma_kept_rows(shorter, now_ms);
        assert forall|i: int| 0 <= i < kept.len() implies !(#[trigger] kept[i]).lapsed(now_ms)
            && rows.contains(kept[i]) by {
            if i < earlier.len() {
                assert(kept[i] == earlier[i]);
                let k = choose|k: int| 0 <= k < shorter.len() && shorter[k] == earlier[i];
                assert(rows[k] == kept[i]);
            } else {
                assert(rows[rows.len() - 1] == kept[i]);
            }
        }
        assert forall|i: int| 0 <= i < rows.len() && !(#[trigger] rows[i]).lapsed(
            now_ms,
        ) implies kept.contains(rows[i]) by {
            if i < rows.len() - 1 {
                assert(shorter[i] == rows[i]);
                assert(earlier.contains(shorter[i]));
                let k = choose|k: int| 0 <= k < earlier.len() && earlier[k] == shorter[i];
                assert(kept[k] == rows[i]);
            } else {
                assert(kept[kept.len() - 1] == rows[i]);
            }
        }
    }
}

/// Forgetting rows keeps the queue in order.
pub proof fn lemma_purged_wf(queue: PairingModel, now_ms: i64)
    requires
        queue.wf(),
    ensures
        queue.purged(now_ms).wf(),
    decreases queue.rows.len(),
{
    let kept = kept_rows(queue.rows, now_ms);
    if queue.rows.len() > 0 {
        let shorter = PairingModel { rows: queue.rows.drop_last(), ..queue };
        assert(shorter.wf()) by {
            assert forall|i: int| 0 <= i < shorter.rows.len() implies (
            #[trigger] shorter.rows[i]).wf(shorter.max_record_bytes) by {
                assert(queue.rows[i].wf(queue.max_record_bytes));
            }
            assert forall|i: int, j: int| 0 <= i < j < shorter.rows.len() implies (
            #[trigger] shorter.rows[i]).precedes(
                (#[trigger] shorter.rows[j]).received_at_ms,
                shorter.rows[j].request_id,
            ) by {
                assert(queue.rows[i].precedes(
                    queue.rows[j].received_at_ms,
                    queue.rows[j].request_id,
                ));
            }
            assert forall|i: int, j: int| 0 <= i < j < shorter.rows.len() implies (
            #[trigger] shorter.rows[i]).request_id != (#[trigger] shorter.rows[j]).request_id by {
                assert(queue.rows[i].request_id != queue.rows[j].request_id);
            }
        }
        lemma_purged_wf(shorter, now_ms);
        lemma_kept_rows(shorter.rows, now_ms);
        let earlier = kept_rows(shorter.rows, now_ms);
        let last = queue.rows.last();
        if !last.lapsed(now_ms) {
            assert(kept == earlier.push(last));
            assert forall|i: int| 0 <= i < earlier.len() implies (#[trigger] earlier[i]).precedes(
                last.received_at_ms,
                last.request_id,
            ) && earlier[i].request_id != last.request_id by {
                let k = choose|k: int| 0 <= k < shorter.rows.len() && shorter.rows[k] == earlier[i];
                assert(queue.rows[k].precedes(last.received_at_ms, last.request_id));
                assert(queue.rows[k].request_id != last.request_id);
            }
            let purged = queue.purged(now_ms);
            let before = shorter.purged(now_ms);
            assert(queue.rows[queue.rows.len() - 1].wf(queue.max_record_bytes));
            assert forall|i: int| 0 <= i < purged.rows.len() implies (
            #[trigger] purged.rows[i]).wf(purged.max_record_bytes) by {
                if i < earlier.len() {
                    assert(before.rows[i].wf(before.max_record_bytes));
                }
            }
            assert forall|i: int, j: int| 0 <= i < j < purged.rows.len() implies (
            #[trigger] purged.rows[i]).precedes(
                (#[trigger] purged.rows[j]).received_at_ms,
                purged.rows[j].request_id,
            ) by {
                assert(purged.rows[i] == before.rows[i]);
                if j < earlier.len() {
                    assert(purged.rows[j] == before.rows[j]);
                }
            }
            assert forall|i: int, j: int| 0 <= i < j < purged.rows.len() implies (
            #[trigger] purged.rows[i]).request_id != (#[trigger] purged.rows[j]).request_id by {
                assert(purged.rows[i] == before.rows[i]);
                if j < earlier.len() {
                    assert(purged.rows[j] == before.rows[j]);
                }
            }
        }
    }
}

impl PairRow {
    /// Whether a recorded row keeps every rule of queued rows.
    fn is_sound(&self, max_record_bytes: usize) -> (sound: bool)
        ensures
            sound == self@.wf(max_record_bytes),
    {
        let named: bool = match &self.request.request_id {
            Some(id) => id_equal(id, &self.request_id),
            None => false,
        };
        let asked: bool = match &self.request.publisher.fingerprint {
            Some(id) => id_equal(id, &self.publisher_id),
            None => false,
        };
        let asking: bool = match &self.request.viewer.fingerprint {
            Some(id) => id_equal(id, &self.viewer_id),
            None => false,
        };
        let offered: bool = match &self.offer {
            Some(offer) => id_equal(&offer.request_id, &self.request_id) && offer.encoded.len()
                <= max_record_bytes,
            None => true,
        };
        let confirmed: bool = match &self.confirmation {
            Some(confirmation) => id_equal(&confirmation.request_id, &self.request_id)
                && self.offer.is_some() && confirmation.encoded.len() <= max_record_bytes,
            None => true,
        };
        let decided: bool = match &self.decision {
            Some(decision) => id_equal(&decision.request_id, &self.request_id) && (decision.reason
                != PairDecisionReason::ManualVerified || self.confirmation.is_some())
                && decision.encoded.len() <= max_record_bytes,
            None => true,
        };
        let length: usize = self.source_addr.as_str().unicode_len();
        named && asked && asking && offered && confirmed && decided && 3 <= length && length <= 128
            && self.request.encoded.len() <= max_record_bytes
    }

    /// Whether the row comes before another in delivery order.
    fn precedes(&self, received_at_ms: i64, request_id: &[u8; 32]) -> (precedes: bool)
        ensures
            precedes == self@.precedes(received_at_ms, *request_id),
    {
        self.received_at_ms < received_at_ms || (self.received_at_ms == received_at_ms
            && id_before(&self.request_id, request_id))
    }

    /// Whether the row is to be forgotten.
    fn has_lapsed(&self, now_ms: i64) -> (lapsed: bool)
        ensures
            lapsed == self@.lapsed(now_ms),
    {
        match &self.decision {
            None => self.request.expires_at_ms <= now_ms,
            Some(_) => self.decided_at_ms < earlier_by(now_ms, DECISION_RETENTION_MS),
        }
    }
}

/// A number of milliseconds before a time, held at the earliest representable one.
fn earlier_by(now_ms: i64, span_ms: i64) -> (time_ms: i64)
    requires
        span_ms >= 0,
    ensures
        time_ms == before_ms(now_ms, span_ms),
{
    let exact: i128 = now_ms as i128 - span_ms as i128;
    let smallest: i64 = i64::MIN;
    if exact < smallest as i128 {
        smallest
    } else {
        exact as i64
    }
}

impl PairingStore {
    /// Creates an empty queue for records of at most that many encoded bytes.
    pub fn open(max_record_bytes: usize) -> (store: PairingStore)
        ensures
            store@.rows == Seq::<PairRowModel>::empty(),
            store@.max_record_bytes == max_record_bytes,
            store@.wf(),
    {
        let store = PairingStore { rows: Vec::new(), max_record_bytes };
        assert(store@.rows =~= Seq::<PairRowModel>::empty());
        store
    }

    /// The queued rows, in delivery order.
    pub fn rows(&self) -> (rows: &Vec<PairRow>)
        ensures
            rows_view(rows@) == self@.rows,
    {
        &self.rows
    }

    /// Position of a request among the rows that are not to be forgotten.
    fn live_position(&self, request_id: &[u8; 32], now_ms: i64) -> (position: Option<usize>)
        requires
            self@.wf(),
        ensures
            match position {
                Some(i) => i < self.rows@.len() && self@.rows[i as int].request_id == *request_id
                    && !self@.rows[i as int].lapsed(now_ms),
                None => forall|i: int|
                    0 <= i < self@.rows.len() && (#[trigger] self@.rows[i]).request_id
                        == *request_id ==> self@.rows[i].lapsed(now_ms),
            },
    {
        let mut i: usize = 0;
        while i < self.rows.len()
            invariant
                i <= self.rows@.len(),
                forall|k: int|
                    0 <= k < i && (#[trigger] self@.rows[k]).request_id == *request_id
                        ==> self@.rows[k].lapsed(now_ms),
            decreases self.rows@.len() - i,
        {
            assert(self@.rows[i as int] == self.rows@[i as int]@);
            if id_equal(&self.rows[i].request_id, request_id) && !self.rows[i].has_lapsed(now_ms) {
                return Some(i);
            }
            i += 1;
        }
        None
    }

    /// Position of a request, if the queue has it.
    fn position(&self, request_id: &[u8; 32]) -> (position: Option<usize>)
        requires
            self@.wf(),
        ensures
            match position {
                Some(i) => i < self.rows@.len() && self@.find(*request_id) == Some(i as int)
                    && self@.rows[i as int].request_id == *request_id,
                None => self@.find(*request_id) is None,
            },
    {
        let mut i: usize = 0;
        while i < self.rows.len()
            invariant
                self@.wf(),
                i <= self.rows@.len(),
                forall|k: int| 0 <= k < i ==> (#[trigger] self@.rows[k]).request_id != *request_id,
            decreases self.rows@.len() - i,
        {
            assert(self@.rows[i as int] == self.rows@[i as int]@);
            if id_equal(&self.rows[i].request_id, request_id) {
                proof {
                    lemma_find_row(self@, *request_id, i as int);
                }
                return Some(i);
            }
            i += 1;
        }
        None
    }

    /// Forgets lapsed rows.
    fn purge(&mut self, now_ms: i64)
        requires
            old(self)@.wf(),
        ensures
            final(self)@ == old(self)@.purged(now_ms),
            final(self)@.wf(),
    {
        let ghost before = self@.rows;
        let mut i: usize = 0;
        let ghost mut scanned: int = 0;
        assert(before.skip(0) =~= before);
        assert(kept_rows(before.take(0), now_ms) + before.skip(0) =~= before);
        while i < self.rows.len()
            invariant
                self.max_record_bytes == old(self).max_record_bytes,
                0 <= scanned <= before.len(),
                i == kept_rows(before.take(scanned), now_ms).len(),
                self@.rows == kept_rows(before.take(scanned), now_ms) + before.skip(scanned),
                self.rows@.len() == i + before.len() - scanned,
            decreases before.len() - scanned,
        {
            let ghost kept = kept_rows(before.take(scanned), now_ms);
            assert(self@.rows[i as int] == before.skip(scanned)[0]);
            assert(self@.rows[i as int] == self.rows@[i as int]@);
            assert(before.take(scanned + 1).drop_last() =~= before.take(scanned));
            assert(before.take(scanned + 1).last() == before[scanned]);
            if self.rows[i].has_lapsed(now_ms) {
                let ghost rows = self@.rows;
                self.rows.remove(i);
                assert(self@.rows =~= rows.remove(i as int));
                assert(self@.rows =~= kept + before.skip(scanned + 1));
            } else {
                i += 1;
                assert(self@.rows =~= kept.push(before[scanned]) + before.skip(scanned + 1));
            }
            proof {
                scanned = scanned + 1;
            }
        }
        assert(before.take(scanned) =~= before);
        assert(self@.rows =~= kept_rows(before, now_ms));
        proof {
            lemma_purged_wf(old(self)@, now_ms);
        }
    }

    /// Undecided requests, undecided requests for one publisher, recent requests from one
    /// source and from one viewer, among the rows that are not to be forgotten.
    fn live_counts(
        &self,
        now_ms: i64,
        publisher_id: &[u8; 32],
        viewer_id: &[u8; 32],
        source_addr: &String,
        since_ms: i64,
    ) -> (counts: (usize, usize, usize, usize))
        ensures
            counts.0 == pending_count(kept_rows(self@.rows, now_ms)),
            counts.1 == publisher_pending_count(kept_rows(self@.rows, now_ms), *publisher_id),
            counts.2 == source_count(kept_rows(self@.rows, now_ms), source_addr@, since_ms),
            counts.3 == viewer_count(kept_rows(self@.rows, now_ms), *viewer_id, since_ms),
    {
        let mut pending: usize = 0;
        let mut for_publisher: usize = 0;
        let mut from_source: usize = 0;
        let mut from_viewer: usize = 0;
        let mut i: usize = 0;
        let ghost rows = self@.rows;
        while i < self.rows.len()
            invariant
                rows == self@.rows,
                i <= self.rows@.len(),
                pending <= i && for_publisher <= i && from_source <= i && from_viewer <= i,
                pending == pending_count(kept_rows(rows.take(i as int), now_ms)),
                for_publisher == publisher_pending_count(
                    kept_rows(rows.take(i as int), now_ms),
                    *publisher_id,
                ),
                from_source == source_count(
                    kept_rows(rows.take(i as int), now_ms),
                    source_addr@,
                    since_ms,
                ),
                from_viewer == viewer_count(
                    kept_rows(rows.take(i as int), now_ms),
                    *viewer_id,
                    since_ms,
                ),
            decreases self.rows@.len() - i,
        {
            let row = &self.rows[i];
            let ghost kept = kept_rows(rows.take(i as int), now_ms);
            assert(rows[i as int] == row@);
            assert(rows.take(i + 1).drop_last() =~= rows.take(i as int));
            assert(rows.take(i + 1).last() == row@);
            if !row.has_lapsed(now_ms) {
                assert(kept.push(row@).drop_last() =~= kept);
                if row.decision.is_none() {
                    pending += 1;
                    if id_equal(&row.publisher_id, publisher_id) {
                        for_publisher += 1;
                    }
                }
                if row.received_at_ms >= since_ms {
                    if row.source_addr == *source_addr {
                        from_source += 1;
                    }
                    if id_equal(&row.viewer_id, viewer_id) {
                        from_viewer += 1;
                    }
                }
            }
            i += 1;
        }
        assert(rows.take(i as int) =~= rows);
        (pending, for_publisher, from_source, from_viewer)
    }

    /// Queues one verified signed request, deduplicated by its fingerprint. Returns
    /// whether it is new.
    ///
    /// `source_addr` is what the relay observed. Rate limits apply independently by
    /// source and by viewer over a rolling minute. `verified` says whether signature and
    /// validity period hold at `now_ms`.
    pub fn enqueue_request(
        &mut self,
        request: &PairRequest,
        source_addr: &String,
        now_ms: i64,
        verified: bool,
    ) -> (result: Result<bool, PairingError>)
        requires
            old(self)@.wf(),
        ensures
            final(self)@.wf(),
            old(self)@.enqueues(request@, source_addr@, now_ms, verified, final(self)@),
            result == old(self)@.enqueue_result(request@, source_addr@, now_ms, verified),
    {
        let ghost before = self@;
        if !verified {
            return Err(PairingError::NotVerified);
        }
        if request.encoded.len() > self.max_record_bytes {
            return Err(PairingError::RecordTooLarge);
        }
        let (request_id, publisher_id, viewer_id): ([u8; 32], [u8; 32], [u8; 32]) = match (
            request.request_id,
            request.publisher.fingerprint,
            request.viewer.fingerprint,
        ) {
            (Some(request_id), Some(publisher_id), Some(viewer_id)) => (
                request_id,
                publisher_id,
                viewer_id,
            ),
            _ => {
                return Err(PairingError::Unidentified);
            },
        };
        if let Some(at) = self.live_position(&request_id, now_ms) {
            proof {
                lemma_live_find(before, at as int, now_ms);
            }
            assert(before.rows[at as int] == self.rows@[at as int]@);
            if !bytes_equal(
                self.rows[at].request.encoded.as_slice(),
                request.encoded.as_slice(),
            ) {
                return Err(PairingError::Conflict);
            }
            self.purge(now_ms);
            return Ok(false);
        }
        proof {
            lemma_live_find_none(before, request_id, now_ms);
        }
        let window_start: i64 = earlier_by(now_ms, RATE_WINDOW_MS);
        let (pending, for_publisher, from_source, from_viewer) = self.live_counts(
            now_ms,
            &publisher_id,
            &viewer_id,
            source_addr,
            window_start,
        );
        if pending >= MAX_PENDING_GLOBAL {
            return Err(PairingError::GlobalQueueFull);
        }
        if for_publisher >= MAX_PENDING_PER_PUBLISHER {
            return Err(PairingError::PublisherQueueFull);
        }
        if from_source >= MAX_REQUESTS_PER_MINUTE {
            return Err(PairingError::SourceRateExceeded);
        }
        if from_viewer >= MAX_REQUESTS_PER_MINUTE {
            return Err(PairingError::ViewerRateExceeded);
        }
        let length: usize = source_addr.as_str().unicode_len();
        if length < 3 || length > 128 {
            return Err(PairingError::SourceAddressInvalid);
        }
        self.purge(now_ms);
        let ghost live = self@;
        let mut at: usize = 0;
        while at < self.rows.len() && self.rows[at].precedes(now_ms, &request_id)
            invariant
                live == self@,
                at <= self.rows@.len(),
                forall|i: int|
                    0 <= i < at ==> (#[trigger] live.rows[i]).precedes(now_ms, request_id),
            decreases self.rows@.len() - at,
        {
            at += 1;
        }
        proof {
            assert forall|i: int| at <= i < live.rows.len() implies !(
            #[trigger] live.rows[i]).precedes(now_ms, request_id) by {
                if at < i {
                    assert(live.rows[at as int].precedes(
                        live.rows[i].received_at_ms,
                        live.rows[i].request_id,
                    ));
                }
            }
            assert(live.is_row_position(now_ms, request_id, at as int));
        }
        let row = PairRow {
            request_id,
            publisher_id,
            viewer_id,
            source_addr: source_addr.clone(),
            received_at_ms: now_ms,
            request: request.duplicate(),
            offer: None,
            confirmation: None,
            decision: None,
            decided_at_ms: 0,
        };
        let ghost fresh = PairingModel::fresh_row(request@, source_addr@, now_ms);
        assert(row@ == fresh);
        self.rows.insert(at, row);
        proof {
            assert(self@.rows =~= live.rows.insert(at as int, fresh));
            lemma_inserted_wf(live, fresh, at as int);
        }
        Ok(true)
    }

    /// Queues a publisher's offer for its exact pending request. Returns whether it is
    /// the first; a later one leaves the first in place. `verified` says whether the
    /// offer verifies for the stored request at `now_ms`.
    pub fn store_offer(&mut self, offer: &PairOffer, now_ms: i64, verified: bool) -> (result: Result<
        bool,
        PairingError,
    >)
        requires
            old(self)@.wf(),
        ensures
            final(self)@.wf(),
            final(self)@ == old(self)@.after_offer(offer@, now_ms, verified),
            result == match old(self)@.offer_refusal(offer@, now_ms, verified) {
                Some(error) => Err::<bool, PairingError>(error),
                None => {
                    let live = old(self)@.purged(now_ms);
                    Ok::<bool, PairingError>(live.rows[live.find(offer.request_id)->0].offer is None)
                },
            },
    {
        let ghost before = self@;
        match self.live_position(&offer.request_id, now_ms) {
            None => {
                proof {
                    lemma_live_find_none(before, offer.request_id, now_ms);
                }
                return Err(PairingError::UnknownRequest);
            },
            Some(at) => {
                proof {
                    lemma_live_find(before, at as int, now_ms);
                }
            },
        }
        if !verified {
            return Err(PairingError::NotVerified);
        }
        if offer.encoded.len() > self.max_record_bytes {
            return Err(PairingError::RecordTooLarge);
        }
        self.purge(now_ms);
        let ghost live = self@;
        match self.position(&offer.request_id) {
            Some(at) => {
                assert(live.rows[at as int] == self.rows@[at as int]@);
                if self.rows[at].offer.is_some() {
                    return Ok(false);
                }
                self.rows[at].offer = Some(offer.duplicate());
                proof {
                    let row = PairRowModel { offer: Some(offer@), ..live.rows[at as int] };
                    assert(self.rows@[at as int]@ == row);
                    assert(self@.rows =~= live.rows.update(at as int, row));
                    lemma_replaced_wf(live, at as int, row);
                }
                Ok(true)
            },
            None => {
                assert(false);
                Err(PairingError::UnknownRequest)
            },
        }
    }

    /// Queues a viewer's confirmation. Returns whether it is the first; a later one
    /// leaves the first in place. `verified` says whether the confirmation verifies for
    /// the stored request and offer.
    pub fn store_confirmation(
        &mut self,
        confirmation: &ViewerConfirmation,
        now_ms: i64,
        verified: bool,
    ) -> (result: Result<bool, PairingError>)
        requires
            old(self)@.wf(),
        ensures
            final(self)@.wf(),
            final(self)@ == old(self)@.after_confirmation(confirmation@, now_ms, verified),
            result == match old(self)@.confirmation_refusal(confirmation@, now_ms, verified) {
                Some(error) => Err::<bool, PairingError>(error),
                None => {
                    let live = old(self)@.purged(now_ms);
                    Ok::<bool, PairingError>(
                        live.rows[live.find(confirmation.request_id)->0].confirmation is None,
                    )
                },
            },
    {
        let ghost before = self@;
        match self.live_position(&confirmation.request_id, now_ms) {
            None => {
                proof {
                    lemma_live_find_none(before, confirmation.request_id, now_ms);
                }
                return Err(PairingError::UnknownRequest);
            },
            Some(at) => {
                proof {
                    lemma_live_find(before, at as int, now_ms);
                }
                assert(before.rows[at as int] == self.rows@[at as int]@);
                if self.rows[at].offer.is_none() {
                    return Err(PairingError::MissingOffer);
                }
            },
        }
        if !verified {
            return Err(PairingError::NotVerified);
        }
        if confirmation.encoded.len() > self.max_record_bytes {
            return Err(PairingError::RecordTooLarge);
        }
        self.purge(now_ms);
        let ghost live = self@;
        match self.position(&confirmation.request_id) {
            Some(at) => {
                assert(live.rows[at as int] == self.rows@[at as int]@);
                if self.rows[at].confirmation.is_some() {
                    return Ok(false);
                }
                self.rows[at].confirmation = Some(confirmation.duplicate());
                proof {
                    let row = PairRowModel {
                        confirmation: Some(confirmation@),
                        ..live.rows[at as int]
                    };
                    assert(self.rows@[at as int]@ == row);
                    assert(self@.rows =~= live.rows.update(at as int, row));
                    lemma_replaced_wf(live, at as int, row);
                }
                Ok(true)
            },
            None => {
                assert(false);
                Err(PairingError::UnknownRequest)
            },
        }
    }

    /// Queues the publisher's final approval or rejection. Returns whether it is the
    /// first; a later one leaves the first in place, which the viewer may already have
    /// acted on.
    ///
    /// A manual approval refers to the exact stored offer and confirmation. Decisions by
    /// policy need neither.
    pub fn store_decision(
        &mut self,
        decision: &PublisherDecision,
        now_ms: i64,
        evidence: &DecisionEvidence,
    ) -> (result: Result<bool, PairingError>)
        requires
            old(self)@.wf(),
        ensures
            final(self)@.wf(),
            final(self)@ == old(self)@.after_decision(
                decision@,
                now_ms,
                evidence.verified,
                evidence.ceremony_verified,
                evidence.transcript,
            ),
            result == match old(self)@.decision_refusal(
                decision@,
                now_ms,
                evidence.verified,
                evidence.ceremony_verified,
                evidence.transcript,
            ) {
                Some(error) => Err::<bool, PairingError>(error),
                None => {
                    let live = old(self)@.purged(now_ms);
                    Ok::<bool, PairingError>(
                        live.rows[live.find(decision.request_id)->0].decision is None,
                    )
                },
            },
    {
        let ghost before = self@;
        match self.live_position(&decision.request_id, now_ms) {
            None => {
                proof {
                    lemma_live_find_none(before, decision.request_id, now_ms);
                }
                return Err(PairingError::UnknownRequest);
            },
            Some(at) => {
                proof {
                    lemma_live_find(before, at as int, now_ms);
                }
                assert(before.rows[at as int] == self.rows@[at as int]@);
                if !evidence.verified {
                    return Err(PairingError::NotVerified);
                }
                if decision.reason == PairDecisionReason::ManualVerified {
                    if self.rows[at].offer.is_none() {
                        return Err(PairingError::MissingOffer);
                    }
                    if self.rows[at].confirmation.is_none() {
                        return Err(PairingError::MissingConfirmation);
                    }
                    if !evidence.ceremony_verified {
                        return Err(PairingError::NotVerified);
                    }
                    let same: bool = match &evidence.transcript {
                        Some(transcript) => id_equal(transcript, &decision.transcript_hash),
                        None => false,
                    };
                    if !same {
                        return Err(PairingError::TranscriptMismatch);
                    }
                }
            },
        }
        if decision.encoded.len() > self.max_record_bytes {
            return Err(PairingError::RecordTooLarge);
        }
        self.purge(now_ms);
        let ghost live = self@;
        match self.position(&decision.request_id) {
            Some(at) => {
                assert(live.rows[at as int] == self.rows@[at as int]@);
                if self.rows[at].decision.is_some() {
                    return Ok(false);
                }
                self.rows[at].decision = Some(decision.duplicate());
                self.rows[at].decided_at_ms = now_ms;
                proof {
                    let row = PairRowModel {
                        decision: Some(decision@),
                        decided_at_ms: now_ms,
                        ..live.rows[at as int]
                    };
                    assert(self.rows@[at as int]@ == row);
                    assert(self@.rows =~= live.rows.update(at as int, row));
                    lemma_replaced_wf(live, at as int, row);
                }
                Ok(true)
            },
            None => {
                assert(false);
                Err(PairingError::UnknownRequest)
            },
        }
    }

    /// Lists an online publisher's undecided requests and their confirmations.
    ///
    /// `unverified` lists the queued requests whose signature or validity period does not
    /// hold at `now_ms`: nothing is delivered where one of them would be.
    pub fn publisher_inbox(
        &mut self,
        publisher: &IdentityPublic,
        now_ms: i64,
        unverified: &Vec<[u8; 32]>,
    ) -> (result: Result<PublisherPairingInbox, PairingError>)
        requires
            old(self)@.wf(),
        ensures
            final(self)@.wf(),
            match publisher.fingerprint {
                None => final(self)@ == old(self)@ && (result matches Err(error) && error
                    == PairingError::Unidentified),
                Some(publisher_id) => {
                    let rows = old(self)@.publisher_delivery(publisher_id, now_ms);
                    match delivery_refusal(rows, unverified@) {
                        Some(refusal) => final(self)@ == old(self)@ && (result matches Err(error)
                            && error == refusal),
                        None => {
                            &&& final(self)@ == old(self)@.purged(now_ms)
                            &&& result matches Ok(inbox)
                            &&& inbox.requests@.len() == rows.len()
                            &&& forall|i: int|
                                0 <= i < rows.len() ==> {
                                    &&& (#[trigger] inbox.requests@[i]).request@ == rows[i].request
                                    &&& inbox.requests@[i].source_addr@ == rows[i].source_addr
                                    &&& inbox.requests@[i].received_at_ms == rows[i].received_at_ms
                                }
                            &&& confirmations_view(inbox.confirmations@) == confirmations_of(rows)
                        },
                    }
                },
            },
    {
        let publisher_id: [u8; 32] = match publisher.fingerprint {
            Some(publisher_id) => publisher_id,
            None => {
                return Err(PairingError::Unidentified);
            },
        };
        let ghost all = self@.rows;
        let mut requests: Vec<PairRequestDelivery> = Vec::new();
        let mut confirmations: Vec<ViewerConfirmation> = Vec::new();
        let ghost mut selected: Seq<PairRowModel> = Seq::empty();
        let mut i: usize = 0;
        assert(confirmations_view(confirmations@) =~= confirmations_of(selected));
        while i < self.rows.len()
            invariant
                all == self@.rows,
                i <= self.rows@.len(),
                selected == delivered_rows(
                    pending_for(kept_rows(all.take(i as int), now_ms), publisher_id),
                ),
                delivery_refusal(selected, unverified@) is None,
                requests@.len() == selected.len(),
                forall|k: int|
                    0 <= k < selected.len() ==> {
                        &&& (#[trigger] requests@[k]).request@ == selected[k].request
                        &&& requests@[k].source_addr@ == selected[k].source_addr
                        &&& requests@[k].received_at_ms == selected[k].received_at_ms
                    },
                confirmations_view(confirmations@) == confirmations_of(selected),
                *self == *old(self),
                old(self)@.wf(),
                publisher.fingerprint == Some(publisher_id),
            decreases self.rows@.len() - i,
        {
            let row = &self.rows[i];
            let ghost kept = kept_rows(all.take(i as int), now_ms);
            let ghost pending = pending_for(kept, publisher_id);
            assert(all[i as int] == row@);
            assert(all.take(i + 1).drop_last() =~= all.take(i as int));
            assert(all.take(i + 1).last() == row@);
            if !row.has_lapsed(now_ms) {
                assert(kept.push(row@).drop_last() =~= kept);
                if row.decision.is_none() && id_equal(&row.publisher_id, &publisher_id) {
                    assert(pending_for(kept.push(row@), publisher_id) == pending.push(row@));
                    if requests.len() < MAX_INBOX_RECORDS {
                        let ghost longer = selected.push(row@);
                        assert(longer.drop_last() =~= selected);
                        assert(delivered_rows(pending.push(row@)) =~= longer);
                        let lifetime: i128 = row.request.expires_at_ms as i128
                            - row.request.issued_at_ms as i128;
                        let smallest: i64 = i64::MIN;
                        let largest: i64 = i64::MAX;
                        let refused: Option<PairingError> = if lifetime < smallest as i128
                            || lifetime > largest as i128 {
                            Some(PairingError::InvalidLifetime)
                        } else if contains_id(unverified, &row.request_id) {
                            Some(PairingError::NotVerified)
                        } else {
                            None
                        };
                        assert(delivery_refusal(longer, unverified@) == refused);
                        if let Some(error) = refused {
                            proof {
                                lemma_refusal_of_prefix(
                                    all,
                                    i + 1,
                                    now_ms,
                                    publisher_id,
                                    unverified@,
                                );
                            }
                            return Err(error);
                        }
                        requests.push(
                            PairRequestDelivery {
                                request: row.request.duplicate(),
                                source_addr: row.source_addr.clone(),
                                received_at_ms: row.received_at_ms,
                            },
                        );
                        if let Some(confirmation) = &row.confirmation {
                            let ghost earlier = confirmations@;
                            confirmations.push(confirmation.duplicate());
                            assert(confirmations_view(confirmations@) =~= confirmations_view(
                                earlier,
                            ).push(confirmation@));
                        }
                        proof {
                            selected = longer;
                        }
                    } else {
                        assert(delivered_rows(pending.push(row@)) =~= selected);
                    }
                } else {
                    assert(pending_for(kept.push(row@), publisher_id) == pending);
                }
            }
            i += 1;
        }
        assert(all.take(i as int) =~= all);
        self.purge(now_ms);
        Ok(PublisherPairingInbox { requests, confirmations })
    }

    /// Lists queued offers and decisions addressed to one viewer.
    pub fn viewer_inbox(&mut self, viewer: &IdentityPublic, now_ms: i64) -> (result: Result<
        ViewerPairingInbox,
        PairingError,
    >)
        requires
            old(self)@.wf(),
        ensures
            final(self)@.wf(),
            match viewer.fingerprint {
                None => final(self)@ == old(self)@ && (result matches Err(error) && error
                    == PairingError::Unidentified),
                Some(viewer_id) => {
                    let rows = old(self)@.viewer_delivery(viewer_id, now_ms);
                    &&& final(self)@ == old(self)@.purged(now_ms)
                    &&& result matches Ok(inbox)
                    &&& offers_view(inbox.offers@) == offers_of(rows)
                    &&& decisions_view(inbox.decisions@) == decisions_of(rows)
                },
            },
    {
        let viewer_id: [u8; 32] = match viewer.fingerprint {
            Some(viewer_id) => viewer_id,
            None => {
                return Err(PairingError::Unidentified);
            },
        };
        let ghost all = self@.rows;
        let mut count: usize = 0;
        let mut offers: Vec<PairOffer> = Vec::new();
        let mut decisions: Vec<PublisherDecision> = Vec::new();
        let ghost mut selected: Seq<PairRowModel> = Seq::empty();
        let mut i: usize = 0;
        assert(offers_view(offers@) =~= offers_of(selected));
        assert(decisions_view(decisions@) =~= decisions_of(selected));
        while i < self.rows.len()
            invariant
                all == self@.rows,
                i <= self.rows@.len(),
                selected == delivered_rows(
                    answered_for(kept_rows(all.take(i as int), now_ms), viewer_id),
                ),
                count == selected.len(),
                count <= MAX_INBOX_RECORDS,
                offers_view(offers@) == offers_of(selected),
                decisions_view(decisions@) == decisions_of(selected),
                *self == *old(self),
            decreases self.rows@.len() - i,
        {
            let row = &self.rows[i];
            let ghost kept = kept_rows(all.take(i as int), now_ms);
            let ghost answered = answered_for(kept, viewer_id);
            assert(all[i as int] == row@);
            assert(all.take(i + 1).drop_last() =~= all.take(i as int));
            assert(all.take(i + 1).last() == row@);
            if !row.has_lapsed(now_ms) {
                assert(kept.push(row@).drop_last() =~= kept);
                if id_equal(&row.viewer_id, &viewer_id) && (row.offer.is_some()
                    || row.decision.is_some()) {
                    assert(answered_for(kept.push(row@), viewer_id) == answered.push(row@));
                    if count < MAX_INBOX_RECORDS {
                        let ghost longer = selected.push(row@);
                        assert(longer.drop_last() =~= selected);
                        assert(delivered_rows(answered.push(row@)) =~= longer);
                        if let Some(offer) = &row.offer {
                            let ghost earlier = offers@;
                            offers.push(offer.duplicate());
                            assert(offers_view(offers@) =~= offers_view(earlier).push(offer@));
                        }
                        if let Some(decision) = &row.decision {
                            let ghost earlier = decisions@;
                            decisions.push(decision.duplicate());
                            assert(decisions_view(decisions@) =~= decisions_view(earlier).push(
                                decision@,
                            ));
                        }
                        count += 1;
                        proof {
                            selected = longer;
                        }
                    } else {
                        assert(delivered_rows(answered.push(row@)) =~= selected);
                    }
                } else {
                    assert(answered_for(kept.push(row@), viewer_id) == answered);
                }
            }
            i += 1;
        }
        assert(all.take(i as int) =~= all);
        self.purge(now_ms);
        Ok(ViewerPairingInbox { offers, decisions })
    }

    /// Whether recorded rows agree with one another, as those that a queue has written do.
    pub fn rows_agree(max_record_bytes: usize, rows: &Vec<PairRow>) -> (agree: bool)
        ensures
            agree == (PairingModel { rows: rows_view(rows@), max_record_bytes }).wf(),
    {
        let ghost recorded = PairingModel { rows: rows_view(rows@), max_record_bytes };
        let mut j: usize = 0;
        while j < rows.len()
            invariant
                recorded == (PairingModel { rows: rows_view(rows@), max_record_bytes }),
                j <= rows@.len(),
                forall|i: int|
                    0 <= i < j ==> (#[trigger] recorded.rows[i]).wf(recorded.max_record_bytes),
                forall|i: int, k: int|
                    0 <= i < k < j ==> (#[trigger] recorded.rows[i]).precedes(
                        (#[trigger] recorded.rows[k]).received_at_ms,
                        recorded.rows[k].request_id,
                    ),
                forall|i: int, k: int|
                    0 <= i < k < j ==> (#[trigger] recorded.rows[i]).request_id != (
                    #[trigger] recorded.rows[k]).request_id,
            decreases rows@.len() - j,
        {
            let row = &rows[j];
            assert(recorded.rows[j as int] == row@);
            if !row.is_sound(max_record_bytes) {
                return false;
            }
            let mut i: usize = 0;
            while i < j
                invariant
                    recorded == (PairingModel { rows: rows_view(rows@), max_record_bytes }),
                    i <= j < rows@.len(),
                    recorded.rows[j as int] == row@,
                    forall|k: int|
                        0 <= k < i ==> (#[trigger] recorded.rows[k]).precedes(
                            row.received_at_ms,
                            row.request_id,
                        ) && recorded.rows[k].request_id != row.request_id,
                decreases j - i,
            {
                assert(recorded.rows[i as int] == rows@[i as int]@);
                if id_equal(&rows[i].request_id, &row.request_id) {
                    assert(recorded.rows[i as int].request_id
                        == recorded.rows[j as int].request_id);
                    return false;
                }
                if !rows[i].precedes(row.received_at_ms, &row.request_id) {
                    assert(!recorded.rows[i as int].precedes(
                        recorded.rows[j as int].received_at_ms,
                        recorded.rows[j as int].request_id,
                    ));
                    return false;
                }
                i += 1;
            }
            j += 1;
        }
        true
    }

    /// Opens a queue on the rows that it has recorded, in delivery order.
    pub fn restore(max_record_bytes: usize, rows: Vec<PairRow>) -> (store: PairingStore)
        requires
            (PairingModel { rows: rows_view(rows@), max_record_bytes }).wf(),
        ensures
            store@ == (PairingModel { rows: rows_view(rows@), max_record_bytes }),
            store@.wf(),
    {
        PairingStore { rows, max_record_bytes }
    }
}

/// Whether an identifier is in a list.
fn contains_id(list: &Vec<[u8; 32]>, id: &[u8; 32]) -> (found: bool)
    ensures
        found == is_listed(list@, *id),
{
    let mut i: usize = 0;
    while i < list.len()
        invariant
            i <= list@.len(),
            forall|k: int| 0 <= k < i ==> #[trigger] list@[k] != *id,
        decreases list@.len() - i,
    {
        if id_equal(&list[i], id) {
            assert(list@[i as int] == *id);
            return true;
        }
        i += 1;
    }
    false
}

/// Whatever stands against delivering the first requests stands against delivering all.
proof fn lemma_refusal_of_prefix(
    rows: Seq<PairRowModel>,
    count: int,
    now_ms: i64,
    publisher_id: [u8; 32],
    unverified: Seq<[u8; 32]>,
)
    requires
        0 <= count <= rows.len(),
        delivery_refusal(
            delivered_rows(pending_for(kept_rows(rows.take(count), now_ms), publisher_id)),
            unverified,
        ) is Some,
    ensures
        delivery_refusal(
            delivered_rows(pending_for(kept_rows(rows, now_ms), publisher_id)),
            unverified,
        ) == delivery_refusal(
            delivered_rows(pending_for(kept_rows(rows.take(count), now_ms), publisher_id)),
            unverified,
        ),
    decreases rows.len() - count,
{
    if count == rows.len() {
        assert(rows.take(count) =~= rows);
    } else {
        let kept = kept_rows(rows.take(count), now_ms);
        let pending = pending_for(kept, publisher_id);
        let row = rows[count];
        assert(rows.take(count + 1).drop_last() =~= rows.take(count));
        assert(rows.take(count + 1).last() == row);
        if !row.lapsed(now_ms) {
            assert(kept.push(row).drop_last() =~= kept);
            if row.decision is None && row.publisher_id == publisher_id {
                let selected = delivered_rows(pending);
                if pending.len() < MAX_INBOX_RECORDS {
                    assert(selected.push(row).drop_last() =~= selected);
                    assert(delivered_rows(pending.push(row)) =~= selected.push(row));
                } else {
                    assert(delivered_rows(pending.push(row)) =~= selected);
                }
            }
        }
        lemma_refusal_of_prefix(rows, count + 1, now_ms, publisher_id, unverified);
    }
}

/// A row that is not to be forgotten is found after forgetting.
pub proof fn lemma_live_find(queue: PairingModel, index: int, now_ms: i64)
    requires
        queue.wf(),
        0 <= index < queue.rows.len(),
        !queue.rows[index].lapsed(now_ms),
    ensures
        queue.purged(now_ms).wf(),
        queue.purged(now_ms).find(queue.rows[index].request_id) is Some,
        ({
            let live = queue.purged(now_ms);
            let found = live.find(queue.rows[index].request_id)->0;
            0 <= found < live.rows.len() && live.rows[found] == queue.rows[index]
        }),
{
    let live = queue.purged(now_ms);
    lemma_purged_wf(queue, now_ms);
    lemma_kept_rows(queue.rows, now_ms);
    assert(live.rows.contains(queue.rows[index]));
    let k = choose|k: int| 0 <= k < live.rows.len() && live.rows[k] == queue.rows[index];
    lemma_find_row(live, queue.rows[index].request_id, k);
}

/// A request whose rows are all to be forgotten is not found after forgetting.
pub proof fn lemma_live_find_none(queue: PairingModel, request_id: [u8; 32], now_ms: i64)
    requires
        queue.wf(),
        forall|i: int|
            0 <= i < queue.rows.len() && (#[trigger] queue.rows[i]).request_id == request_id
                ==> queue.rows[i].lapsed(now_ms),
    ensures
        queue.purged(now_ms).wf(),
        queue.purged(now_ms).find(request_id) is None,
{
    let live = queue.purged(now_ms);
    lemma_purged_wf(queue, now_ms);
    lemma_kept_rows(queue.rows, now_ms);
    if live.find(request_id) is Some {
        let found = choose|i: int|
            0 <= i < live.rows.len() && (#[trigger] live.rows[i]).request_id == request_id;
        assert(queue.rows.contains(live.rows[found]));
        let k = choose|k: int| 0 <= k < queue.rows.len() && queue.rows[k] == live.rows[found];
        assert(queue.rows[k].request_id == request_id);
    }
}

/// A queue stays in order when a row is replaced by one of the same place.
pub proof fn lemma_replaced_wf(queue: PairingModel, index: int, row: PairRowModel)
    requires
        queue.wf(),
        0 <= index < queue.rows.len(),
        row.wf(queue.max_record_bytes),
        row.request_id == queue.rows[index].request_id,
        row.received_at_ms == queue.rows[index].received_at_ms,
    ensures
        queue.with_row(index, row).wf(),
{
    let after = queue.with_row(index, row);
    assert forall|i: int| 0 <= i < after.rows.len() implies (#[trigger] after.rows[i]).wf(
        after.max_record_bytes,
    ) by {
        assert(queue.rows[i].wf(queue.max_record_bytes));
    }
    assert forall|i: int, j: int| 0 <= i < j < after.rows.len() implies (
    #[trigger] after.rows[i]).precedes(
        (#[trigger] after.rows[j]).received_at_ms,
        after.rows[j].request_id,
    ) by {
        assert(queue.rows[i].precedes(queue.rows[j].received_at_ms, queue.rows[j].request_id));
    }
    assert forall|i: int, j: int| 0 <= i < j < after.rows.len() implies (
    #[trigger] after.rows[i]).request_id != (#[trigger] after.rows[j]).request_id by {
        assert(queue.rows[i].request_id != queue.rows[j].request_id);
    }
}

/// A queue stays in order when a new request is put in its place.
pub proof fn lemma_inserted_wf(queue: PairingModel, row: PairRowModel, at: int)
    requires
        queue.wf(),
        row.wf(queue.max_record_bytes),
        queue.find(row.request_id) is None,
        queue.is_row_position(row.received_at_ms, row.request_id, at),
    ensures
        (PairingModel { rows: queue.rows.insert(at, row), ..queue }).wf(),
{
    let after = PairingModel { rows: queue.rows.insert(at, row), ..queue };
    assert forall|i: int| 0 <= i < queue.rows.len() implies (#[trigger] queue.rows[i]).request_id
        != row.request_id by {}
    assert forall|i: int| at <= i < queue.rows.len() implies row.precedes(
        (#[trigger] queue.rows[i]).received_at_ms,
        queue.rows[i].request_id,
    ) by {
        assert(!queue.rows[i].precedes(row.received_at_ms, row.request_id));
        if id_order(queue.rows[i].request_id) == id_order(row.request_id) {
            lemma_id_order_injective(queue.rows[i].request_id, row.request_id);
        }
    }
    assert forall|i: int| 0 <= i < after.rows.len() implies (#[trigger] after.rows[i]).wf(
        after.max_record_bytes,
    ) by {
        if i < at {
            assert(after.rows[i] == queue.rows[i]);
        } else if i > at {
            assert(after.rows[i] == queue.rows[i - 1]);
        }
    }
    assert forall|i: int, j: int| 0 <= i < j < after.rows.len() implies (
    #[trigger] after.rows[i]).precedes(
        (#[trigger] after.rows[j]).received_at_ms,
        after.rows[j].request_id,
    ) by {
        if i < at {
            assert(after.rows[i] == queue.rows[i]);
        } else if i > at {
            assert(after.rows[i] == queue.rows[i - 1]);
        }
        if j < at {
            assert(after.rows[j] == queue.rows[j]);
        } else if j > at {
            assert(after.rows[j] == queue.rows[j - 1]);
        }
    }
    assert forall|i: int, j: int| 0 <= i < j < after.rows.len() implies (
    #[trigger] after.rows[i]).request_id != (#[trigger] after.rows[j]).request_id by {
        if i < at {
            assert(after.rows[i] == queue.rows[i]);
        } else if i > at {
            assert(after.rows[i] == queue.rows[i - 1]);
        }
        if j < at {
            assert(after.rows[j] == queue.rows[j]);
        } else if j > at {
            assert(after.rows[j] == queue.rows[j - 1]);
        }
    }
}

} // verus!

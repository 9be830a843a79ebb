//! What the relay's pairing queue holds, as mathematical values, and what each operation
//! makes of it.

use vstd::prelude::*;

use crate::bytes::id_order;
use crate::records::{
    PairDecisionReason, PairOfferModel, PairRequestModel, PublisherDecisionModel,
    ViewerConfirmationModel,
};

verus! {

/// Undecided requests that the relay holds at most.
pub const MAX_PENDING_GLOBAL: usize = 16_384;

/// Undecided requests that the relay holds at most for one publisher.
pub const MAX_PENDING_PER_PUBLISHER: usize = 1_024;

/// Requests accepted from one source, and from one viewer, within a minute.
pub const MAX_REQUESTS_PER_MINUTE: usize = 10;

/// Records delivered at once.
pub const MAX_INBOX_RECORDS: usize = 4_096;

/// How long a decision stays deliverable, in milliseconds.
pub const DECISION_RETENTION_MS: i64 = 2_592_000_000;

/// The rolling window of the request rate limits, in milliseconds.
pub const RATE_WINDOW_MS: i64 = 60_000;

/// Why the pairing queue refused an operation.
#[derive(Clone, Copy, Debug, PartialEq, Eq, Structural)]
pub enum PairingError {
    /// The record's signature, transcript or validity period does not verify.
    NotVerified,
    /// The encoded record is too long.
    RecordTooLarge,
    /// The request or one of its identities has no fingerprint.
    Unidentified,
    /// The observed source address has an impossible length.
    SourceAddressInvalid,
    /// The request is known with different content.
    Conflict,
    /// No further undecided request fits.
    GlobalQueueFull,
    /// No further undecided request for this publisher fits.
    PublisherQueueFull,
    /// Too many requests from one source within a minute.
    SourceRateExceeded,
    /// Too many requests from one viewer within a minute.
    ViewerRateExceeded,
    /// The request is unknown, expired or forgotten.
    UnknownRequest,
    /// No offer is stored for the request.
    MissingOffer,
    /// No confirmation is stored for the request.
    MissingConfirmation,
    /// The decision does not refer to the stored ceremony.
    TranscriptMismatch,
    /// A queued request has an impossible lifetime.
    InvalidLifetime,
}

/// One queued request with what came of it.
#[verifier::ext_equal]
pub struct PairRowModel {
    /// Fingerprint of the request.
    pub request_id: [u8; 32],
    /// Publisher that is asked.
    pub publisher_id: [u8; 32],
    /// Viewer that asks.
    pub viewer_id: [u8; 32],
    /// Network peer that delivered the request.
    pub source_addr: Seq<char>,
    /// Relay receive time.
    pub received_at_ms: i64,
    /// The request.
    pub request: PairRequestModel,
    /// The publisher's offer.
    pub offer: Option<PairOfferModel>,
    /// The viewer's confirmation.
    pub confirmation: Option<ViewerConfirmationModel>,
    /// The publisher's decision.
    pub decision: Option<PublisherDecisionModel>,
    /// When the decision arrived.
    pub decided_at_ms: i64,
}

/// A number of milliseconds before a time, held at the earliest representable one.
pub open spec fn before_ms(now_ms: i64, span_ms: i64) -> i64 {
    if now_ms - span_ms < i64::MIN {
        i64::MIN
    } else {
        (now_ms - span_ms) as i64
    }
}

impl PairRowModel {
    /// Whether the row is to be forgotten: an undecided request when it expires, a
    /// decided one when its retention has passed.
    pub open spec fn lapsed(self, now_ms: i64) -> bool {
        match self.decision {
            None => self.request.expires_at_ms <= now_ms,
            Some(_) => self.decided_at_ms < before_ms(now_ms, DECISION_RETENTION_MS),
        }
    }

    /// Delivery order: by receive time, then by request.
    pub open spec fn precedes(self, received_at_ms: i64, request_id: [u8; 32]) -> bool {
        self.received_at_ms < received_at_ms || (self.received_at_ms == received_at_ms && id_order(
            self.request_id,
        ) < id_order(request_id))
    }

    /// A confirmation answers an offer, a manual approval refers to both, and no record is
    /// longer than allowed.
    pub open spec fn wf(self, max_record_bytes: usize) -> bool {
        &&& self.request.request_id == Some(self.request_id)
        &&& self.request.publisher.fingerprint == Some(self.publisher_id)
        &&& self.request.viewer.fingerprint == Some(self.viewer_id)
        &&& self.offer matches Some(offer) ==> offer.request_id == self.request_id
        &&& self.confirmation matches Some(confirmation) ==> {
            &&& confirmation.request_id == self.request_id
            &&& self.offer is Some
        }
        &&& self.decision matches Some(decision) ==> {
            &&& decision.request_id == self.request_id
            &&& decision.reason == PairDecisionReason::ManualVerified ==> self.confirmation is Some
        }
        &&& 3 <= self.source_addr.len() <= 128
        &&& self.request.encoded.len() <= max_record_bytes
        &&& self.offer matches Some(offer) ==> offer.encoded.len() <= max_record_bytes
        &&& self.confirmation matches Some(confirmation) ==> confirmation.encoded.len()
            <= max_record_bytes
        &&& self.decision matches Some(decision) ==> decision.encoded.len() <= max_record_bytes
    }
}

/// The rows that are not forgotten.
pub open spec fn kept_rows(rows: Seq<PairRowModel>, now_ms: i64) -> Seq<PairRowModel>
    decreases rows.len(),
{
    if rows.len() == 0 {
        Seq::empty()
    } else {
        let earlier = kept_rows(rows.drop_last(), now_ms);
        if rows.last().lapsed(now_ms) {
            earlier
        } else {
            earlier.push(rows.last())
        }
    }
}

/// Number of undecided requests.
pub open spec fn pending_count(rows: Seq<PairRowModel>) -> nat
    decreases rows.len(),
{
    if rows.len() == 0 {
        0
    } else {
        pending_count(rows.drop_last()) + if rows.last().decision is None {
            1nat
        } else {
            0
        }
    }
}

/// Number of undecided requests for one publisher.
pub open spec fn publisher_pending_count(rows: Seq<PairRowModel>, publisher_id: [u8; 32]) -> nat
    decreases rows.len(),
{
    if rows.len() == 0 {
        0
    } else {
        publisher_pending_count(rows.drop_last(), publisher_id) + if rows.last().decision is None
            && rows.last().publisher_id == publisher_id {
            1nat
        } else {
            0
        }
    }
}

/// Number of requests from one source since a time.
pub open spec fn source_count(rows: Seq<PairRowModel>, source_addr: Seq<char>, since_ms: i64) -> nat
    decreases rows.len(),
{
    if rows.len() == 0 {
        0
    } else {
        source_count(rows.drop_last(), source_addr, since_ms) + if rows.last().source_addr
            == source_addr && rows.last().received_at_ms >= since_ms {
            1nat
        } else {
            0
        }
    }
}

/// Number of requests from one viewer since a time.
pub open spec fn viewer_count(rows: Seq<PairRowModel>, viewer_id: [u8; 32], since_ms: i64) -> nat
    decreases rows.len(),
{
    if rows.len() == 0 {
        0
    } else {
        viewer_count(rows.drop_last(), viewer_id, since_ms) + if rows.last().viewer_id == viewer_id
            && rows.last().received_at_ms >= since_ms {
            1nat
        } else {
            0
        }
    }
}

/// The undecided requests for one publisher, in delivery order.
pub open spec fn pending_for(rows: Seq<PairRowModel>, publisher_id: [u8; 32]) -> Seq<PairRowModel>
    decreases rows.len(),
{
    if rows.len() == 0 {
        Seq::empty()
    } else {
        let earlier = pending_for(rows.drop_last(), publisher_id);
        if rows.last().decision is None && rows.last().publisher_id == publisher_id {
            earlier.push(rows.last())
        } else {
            earlier
        }
    }
}

/// The requests of one viewer that were answered, in delivery order.
pub open spec fn answered_for(rows: Seq<PairRowModel>, viewer_id: [u8; 32]) -> Seq<PairRowModel>
    decreases rows.len(),
{
    if rows.len() == 0 {
        Seq::empty()
    } else {
        let earlier = answered_for(rows.drop_last(), viewer_id);
        if rows.last().viewer_id == viewer_id && (rows.last().offer is Some || rows.last().decision
            is Some) {
            earlier.push(rows.last())
        } else {
            earlier
        }
    }
}

/// The confirmations of a run of rows.
pub open spec fn confirmations_of(rows: Seq<PairRowModel>) -> Seq<ViewerConfirmationModel>
    decreases rows.len(),
{
    if rows.len() == 0 {
        Seq::empty()
    } else {
        let earlier = confirmations_of(rows.drop_last());
        match rows.last().confirmation {
            Some(confirmation) => earlier.push(confirmation),
            None => earlier,
        }
    }
}

/// The offers of a run of rows.
pub open spec fn offers_of(rows: Seq<PairRowModel>) -> Seq<PairOfferModel>
    decreases rows.len(),
{
    if rows.len() == 0 {
        Seq::empty()
    } else {
        let earlier = offers_of(rows.drop_last());
        match rows.last().offer {
            Some(offer) => earlier.push(offer),
            None => earlier,
        }
    }
}

/// The decisions of a run of rows.
pub open spec fn decisions_of(rows: Seq<PairRowModel>) -> Seq<PublisherDecisionModel>
    decreases rows.len(),
{
    if rows.len() == 0 {
        Seq::empty()
    } else {
        let earlier = decisions_of(rows.drop_last());
        match rows.last().decision {
            Some(decision) => earlier.push(decision),
            None => earlier,
        }
    }
}

/// The first records of a run, as many as are delivered at once.
pub open spec fn delivered_rows(rows: Seq<PairRowModel>) -> Seq<PairRowModel> {
    if rows.len() <= MAX_INBOX_RECORDS {
        rows
    } else {
        rows.take(MAX_INBOX_RECORDS as int)
    }
}

/// Whether an identifier is in a list.
pub open spec fn is_listed(list: Seq<[u8; 32]>, id: [u8; 32]) -> bool {
    exists|i: int| 0 <= i < list.len() && #[trigger] list[i] == id
}

/// The first reason not to deliver a run of requests: a lifetime that is no number of
/// milliseconds, or a request that does not verify any more.
pub open spec fn delivery_refusal(rows: Seq<PairRowModel>, unverified: Seq<[u8; 32]>) -> Option<
    PairingError,
>
    decreases rows.len(),
{
    if rows.len() == 0 {
        None
    } else if let Some(error) = delivery_refusal(rows.drop_last(), unverified) {
        Some(error)
    } else {
        let request = rows.last().request;
        let lifetime = request.expires_at_ms - request.issued_at_ms;
        if lifetime < i64::MIN || lifetime > i64::MAX {
            Some(PairingError::InvalidLifetime)
        } else if is_listed(unverified, rows.last().request_id) {
            Some(PairingError::NotVerified)
        } else {
            None
        }
    }
}

/// The whole queue.
#[verifier::ext_equal]
pub struct PairingModel {
    /// Rows in delivery order.
    pub rows: Seq<PairRowModel>,
    /// Longest encoded record.
    pub max_record_bytes: usize,
}

impl PairingModel {
    /// Rows are well formed, in delivery order, and no request occurs twice.
    pub open spec fn wf(self) -> bool {
        &&& forall|i: int|
            0 <= i < self.rows.len() ==> (#[trigger] self.rows[i]).wf(self.max_record_bytes)
        &&& forall|i: int, j: int|
            0 <= i < j < self.rows.len() ==> (#[trigger] self.rows[i]).precedes(
                (#[trigger] self.rows[j]).received_at_ms,
                self.rows[j].request_id,
            )
        &&& forall|i: int, j: int|
            0 <= i < j < self.rows.len() ==> (#[trigger] self.rows[i]).request_id != (
            #[trigger] self.rows[j]).request_id
    }

    /// The queue without forgotten rows.
    pub open spec fn purged(self, now_ms: i64) -> PairingModel {
        PairingModel { rows: kept_rows(self.rows, now_ms), ..self }
    }

    /// Position of a request, if the queue has it.
    pub open spec fn find(self, request_id: [u8; 32]) -> Option<int> {
        if exists|i: int|
            0 <= i < self.rows.len() && (#[trigger] self.rows[i]).request_id == request_id {
            Some(
                choose|i: int|
                    0 <= i < self.rows.len() && (#[trigger] self.rows[i]).request_id
                        == request_id,
            )
        } else {
            None
        }
    }

    /// The queue with one row replaced.
    pub open spec fn with_row(self, index: int, row: PairRowModel) -> PairingModel {
        PairingModel { rows: self.rows.update(index, row), ..self }
    }

    /// Why a request is refused at a time; `None` where it is queued or known. The first
    /// reason counts.
    pub open spec fn request_refusal(
        self,
        request: PairRequestModel,
        source_addr: Seq<char>,
        now_ms: i64,
        verified: bool,
    ) -> Option<PairingError> {
        let live = self.purged(now_ms);
        let window_start = before_ms(now_ms, RATE_WINDOW_MS);
        if !verified {
            Some(PairingError::NotVerified)
        } else if request.encoded.len() > self.max_record_bytes {
            Some(PairingError::RecordTooLarge)
        } else if request.request_id is None || request.publisher.fingerprint is None
            || request.viewer.fingerprint is None {
            Some(PairingError::Unidentified)
        } else if let Some(i) = live.find(request.request_id->0) {
            if live.rows[i].request.encoded != request.encoded {
                Some(PairingError::Conflict)
            } else {
                None
            }
        } else if pending_count(live.rows) >= MAX_PENDING_GLOBAL {
            Some(PairingError::GlobalQueueFull)
        } else if publisher_pending_count(live.rows, request.publisher.fingerprint->0)
            >= MAX_PENDING_PER_PUBLISHER {
            Some(PairingError::PublisherQueueFull)
        } else if source_count(live.rows, source_addr, window_start) >= MAX_REQUESTS_PER_MINUTE {
            Some(PairingError::SourceRateExceeded)
        } else if viewer_count(live.rows, request.viewer.fingerprint->0, window_start)
            >= MAX_REQUESTS_PER_MINUTE {
            Some(PairingError::ViewerRateExceeded)
        } else if source_addr.len() < 3 || source_addr.len() > 128 {
            Some(PairingError::SourceAddressInvalid)
        } else {
            None
        }
    }

    /// What sending a request returns: whether it is new, or why it is refused.
    pub open spec fn enqueue_result(
        self,
        request: PairRequestModel,
        source_addr: Seq<char>,
        now_ms: i64,
        verified: bool,
    ) -> Result<bool, PairingError> {
        match self.request_refusal(request, source_addr, now_ms, verified) {
            Some(error) => Err(error),
            None => Ok(self.purged(now_ms).find(request.request_id->0) is None),
        }
    }

    /// Where a row goes in delivery order.
    pub open spec fn is_row_position(
        self,
        received_at_ms: i64,
        request_id: [u8; 32],
        position: int,
    ) -> bool {
        &&& 0 <= position <= self.rows.len()
        &&& forall|i: int|
            0 <= i < position ==> (#[trigger] self.rows[i]).precedes(received_at_ms, request_id)
        &&& forall|i: int|
            position <= i < self.rows.len() ==> !(#[trigger] self.rows[i]).precedes(
                received_at_ms,
                request_id,
            )
    }

    /// The row of a request that has just arrived.
    pub open spec fn fresh_row(
        request: PairRequestModel,
        source_addr: Seq<char>,
        now_ms: i64,
    ) -> PairRowModel {
        PairRowModel {
            request_id: request.request_id->0,
            publisher_id: request.publisher.fingerprint->0,
            viewer_id: request.viewer.fingerprint->0,
            source_addr,
            received_at_ms: now_ms,
            request,
            offer: None,
            confirmation: None,
            decision: None,
            decided_at_ms: 0,
        }
    }

    /// Whether `after` is the queue after a request was sent.
    pub open spec fn enqueues(
        self,
        request: PairRequestModel,
        source_addr: Seq<char>,
        now_ms: i64,
        verified: bool,
        after: PairingModel,
    ) -> bool {
        let live = self.purged(now_ms);
        if self.request_refusal(request, source_addr, now_ms, verified) is Some {
            after == self
        } else if live.find(request.request_id->0) is Some {
            after == live
        } else {
            exists|p: int| #[trigger]
                live.is_row_position(now_ms, request.request_id->0, p) && after == (PairingModel {
                    rows: live.rows.insert(
                        p,
                        PairingModel::fresh_row(request, source_addr, now_ms),
                    ),
                    ..live
                })
        }
    }

    /// Why an offer is refused at a time. The first reason counts.
    pub open spec fn offer_refusal(self, offer: PairOfferModel, now_ms: i64, verified: bool) -> Option<
        PairingError,
    > {
        if self.purged(now_ms).find(offer.request_id) is None {
            Some(PairingError::UnknownRequest)
        } else if !verified {
            Some(PairingError::NotVerified)
        } else if offer.encoded.len() > self.max_record_bytes {
            Some(PairingError::RecordTooLarge)
        } else {
            None
        }
    }

    /// The queue after an offer was sent: the first one stays.
    pub open spec fn after_offer(self, offer: PairOfferModel, now_ms: i64, verified: bool) -> PairingModel {
        let live = self.purged(now_ms);
        if self.offer_refusal(offer, now_ms, verified) is Some {
            self
        } else {
            let i = live.find(offer.request_id)->0;
            if live.rows[i].offer is Some {
                live
            } else {
                live.with_row(i, PairRowModel { offer: Some(offer), ..live.rows[i] })
            }
        }
    }

    /// Why a confirmation is refused at a time. The first reason counts.
    pub open spec fn confirmation_refusal(
        self,
        confirmation: ViewerConfirmationModel,
        now_ms: i64,
        verified: bool,
    ) -> Option<PairingError> {
        let live = self.purged(now_ms);
        match live.find(confirmation.request_id) {
            None => Some(PairingError::UnknownRequest),
            Some(i) => if live.rows[i].offer is None {
                Some(PairingError::MissingOffer)
            } else if !verified {
                Some(PairingError::NotVerified)
            } else if confirmation.encoded.len() > self.max_record_bytes {
                Some(PairingError::RecordTooLarge)
            } else {
                None
            },
        }
    }

    /// The queue after a confirmation was sent: the first one stays.
    pub open spec fn after_confirmation(
        self,
        confirmation: ViewerConfirmationModel,
        now_ms: i64,
        verified: bool,
    ) -> PairingModel {
        let live = self.purged(now_ms);
        if self.confirmation_refusal(confirmation, now_ms, verified) is Some {
            self
        } else {
            let i = live.find(confirmation.request_id)->0;
            if live.rows[i].confirmation is Some {
                live
            } else {
                live.with_row(i, PairRowModel { confirmation: Some(confirmation), ..live.rows[i] })
            }
        }
    }

    /// Why a decision is refused at a time. The first reason counts.
    pub open spec fn decision_refusal(
        self,
        decision: PublisherDecisionModel,
        now_ms: i64,
        verified: bool,
        ceremony_verified: bool,
        transcript: Option<[u8; 32]>,
    ) -> Option<PairingError> {
        let live = self.purged(now_ms);
        match live.find(decision.request_id) {
            None => Some(PairingError::UnknownRequest),
            Some(i) => if !verified {
                Some(PairingError::NotVerified)
            } else if decision.reason == PairDecisionReason::ManualVerified && live.rows[i].offer
                is None {
                Some(PairingError::MissingOffer)
            } else if decision.reason == PairDecisionReason::ManualVerified
                && live.rows[i].confirmation is None {
                Some(PairingError::MissingConfirmation)
            } else if decision.reason == PairDecisionReason::ManualVerified && !ceremony_verified {
                Some(PairingError::NotVerified)
            } else if decision.reason == PairDecisionReason::ManualVerified && transcript != Some(
                decision.transcript_hash,
            ) {
                Some(PairingError::TranscriptMismatch)
            } else if decision.encoded.len() > self.max_record_bytes {
                Some(PairingError::RecordTooLarge)
            } else {
                None
            },
        }
    }

    /// The queue after a decision was sent: the first one stays.
    pub open spec fn after_decision(
        self,
        decision: PublisherDecisionModel,
        now_ms: i64,
        verified: bool,
        ceremony_verified: bool,
        transcript: Option<[u8; 32]>,
    ) -> PairingModel {
        let live = self.purged(now_ms);
        if self.decision_refusal(decision, now_ms, verified, ceremony_verified, transcript)
            is Some {
            self
        } else {
            let i = live.find(decision.request_id)->0;
            if live.rows[i].decision is Some {
                live
            } else {
                live.with_row(
                    i,
                    PairRowModel {
                        decision: Some(decision),
                        decided_at_ms: now_ms,
                        ..live.rows[i]
                    },
                )
            }
        }
    }

    /// The requests delivered to a publisher at a time.
    pub open spec fn publisher_delivery(self, publisher_id: [u8; 32], now_ms: i64) -> Seq<
        PairRowModel,
    > {
        delivered_rows(pending_for(kept_rows(self.rows, now_ms), publisher_id))
    }

    /// The answered requests delivered to a viewer at a time.
    pub open spec fn viewer_delivery(self, viewer_id: [u8; 32], now_ms: i64) -> Seq<PairRowModel> {
        delivered_rows(answered_for(kept_rows(self.rows, now_ms), viewer_id))
    }
}

} // verus!

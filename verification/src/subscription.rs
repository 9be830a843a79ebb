//! A viewer's subscription: where it starts, what is replayed from the store, and which
//! live items are passed on.

use core::time::Duration;

use vstd::prelude::*;

use crate::access::NativeAdmission;
use crate::bytes::{id_equal, is_zero};
use crate::records::{KeyEnvelope, NativeObject, SubscriptionStart};
use crate::service::{
    active_credential_error_code, ends, has_expired, NativeRelayService, ReadDeadline,
    RelayErrorCode, ServiceError, SessionRefusal, SUBSCRIPTION_PAGE,
};
use crate::store::start_is_durable;
use crate::store_laws::subscription_starts_at_a_boundary;
use crate::store_lemmas::{lemma_object_at, lemma_retained_run};
use crate::store_model::{
    anchor_of, bounds_of, delivered, listing_count, listing_start, live_anchor_of,
    NativeRetainedBounds, SentEnvelope, SentObject, StoreError, StoreModel, StreamModel,
    MAX_DURABLE,
};
use crate::time::duration_nanos;

verus! {

/// A viewer's place in a stream.
#[derive(Clone, Copy, Debug)]
pub struct Subscription {
    /// The viewer's fingerprint.
    pub recipient_id: [u8; 32],
    /// The stream.
    pub stream_id: u128,
    /// The last sequence that the viewer was sent, or the one before the first.
    pub last_sequence: u64,
}

/// How a subscription begins.
#[derive(Debug)]
pub struct SubscriptionOpening {
    /// The subscription.
    pub subscription: Subscription,
    /// First sequence that the viewer will be sent.
    pub first_sequence: u64,
    /// Complete retained range, if there is one.
    pub retained: Option<NativeRetainedBounds>,
    /// Whether nothing is replayed.
    pub live: bool,
    /// Envelope for the group that is being published, where nothing is replayed.
    pub envelope: Option<KeyEnvelope>,
    /// Why the session ends once the start is announced, where it does: the envelope
    /// cannot be looked up.
    pub failed: Option<ServiceError>,
}

/// An envelope that may be missing, as a mathematical value.
pub open spec fn envelope_view(envelope: Option<KeyEnvelope>) -> Option<SentEnvelope> {
    match envelope {
        Some(envelope) => Some(envelope@),
        None => None,
    }
}

/// Something sent to a subscribed viewer.
#[derive(Debug)]
pub enum ViewerDelivery {
    /// The viewer's envelope for the group that follows.
    Envelope(KeyEnvelope),
    /// A stream object.
    Object(NativeObject),
}

/// Something sent to a subscribed viewer, as a mathematical value.
pub enum DeliveryModel {
    /// An envelope.
    Envelope(SentEnvelope),
    /// An object.
    Object(SentObject),
}

impl View for ViewerDelivery {
    type V = DeliveryModel;

    open spec fn view(&self) -> DeliveryModel {
        match self {
            ViewerDelivery::Envelope(envelope) => DeliveryModel::Envelope(envelope@),
            ViewerDelivery::Object(object) => DeliveryModel::Object(object@),
        }
    }
}

/// Deliveries as mathematical values.
pub open spec fn deliveries_view(deliveries: Seq<ViewerDelivery>) -> Seq<DeliveryModel> {
    deliveries.map_values(|delivery: ViewerDelivery| delivery@)
}

/// Where a subscription starts: a live join with the group that is being published, every
/// other request as the store resolves it.
pub open spec fn opening_anchor(stream: StreamModel, start: SubscriptionStart) -> u64 {
    if start is Live {
        live_anchor_of(stream)
    } else {
        anchor_of(stream, start)
    }
}

/// One page of a stream's objects after a sequence.
pub open spec fn page_objects(stream: StreamModel, after: u64) -> Seq<SentObject> {
    Seq::new(
        listing_count(stream, after, SUBSCRIPTION_PAGE) as nat,
        |k: int|
            delivered(
                stream.object_at((listing_start(stream, after) + k) as u64)->0,
                stream.publisher,
            ),
    )
}

/// Objects as mathematical values.
pub open spec fn sent_objects(objects: Seq<NativeObject>) -> Seq<SentObject> {
    objects.map_values(|object: NativeObject| object@)
}

/// What one object adds to a replay: where its key group differs from that of the object
/// before it, the viewer's envelope for the group, then the object. Nothing is added where
/// the envelope cannot be looked up.
pub open spec fn with_replayed(
    store: StoreModel,
    stream_id: u128,
    recipient_id: [u8; 32],
    group: Option<(u128, u64)>,
    object: SentObject,
    earlier: Seq<DeliveryModel>,
) -> (Seq<DeliveryModel>, Option<StoreError>) {
    let header = object.header;
    let sent = DeliveryModel::Object(object);
    if group == Some((header.epoch_id, header.key_group)) {
        (earlier.push(sent), None)
    } else {
        match store.envelope_lookup(stream_id, header.epoch_id, header.key_group, recipient_id) {
            Err(error) => (earlier, Some(error)),
            Ok(None) => (earlier.push(sent), None),
            Ok(Some(envelope)) => (
                earlier.push(DeliveryModel::Envelope(envelope)).push(sent),
                None,
            ),
        }
    }
}

/// The key group of the last object of a run.
pub open spec fn last_group(objects: Seq<SentObject>) -> Option<(u128, u64)> {
    if objects.len() == 0 {
        None
    } else {
        Some((objects.last().header.epoch_id, objects.last().header.key_group))
    }
}

/// What a run of objects is sent as. The run ends before an object whose envelope cannot
/// be looked up.
pub open spec fn replayed(
    store: StoreModel,
    stream_id: u128,
    recipient_id: [u8; 32],
    objects: Seq<SentObject>,
) -> (Seq<DeliveryModel>, Option<StoreError>)
    decreases objects.len(),
{
    if objects.len() == 0 {
        (Seq::empty(), None)
    } else {
        let (earlier, failed) = replayed(store, stream_id, recipient_id, objects.drop_last());
        if failed is Some {
            (earlier, failed)
        } else {
            with_replayed(
                store,
                stream_id,
                recipient_id,
                last_group(objects.drop_last()),
                objects.last(),
                earlier,
            )
        }
    }
}

/// How a page of the replay ended.
#[derive(Clone, Copy, Debug, PartialEq, Eq, Structural)]
pub enum PageEnd {
    /// The store may hold more.
    More,
    /// Everything retained has been sent.
    Done,
    /// The session ends after what was sent.
    Failed(ServiceError),
}

/// One page of a replay.
#[derive(Debug)]
pub struct ReplayPage {
    /// What is sent, in order.
    pub deliveries: Vec<ViewerDelivery>,
    /// Whether and how the replay goes on.
    pub end: PageEnd,
}

/// Number of objects in a run that ended early or not: those that were sent.
pub open spec fn objects_sent(deliveries: Seq<DeliveryModel>) -> nat
    decreases deliveries.len(),
{
    if deliveries.len() == 0 {
        0
    } else {
        objects_sent(deliveries.drop_last()) + if deliveries.last() is Object {
            1nat
        } else {
            0
        }
    }
}

/// Once a replay has failed nothing more is sent.
proof fn lemma_replay_failed(
    store: StoreModel,
    stream_id: u128,
    recipient_id: [u8; 32],
    objects: Seq<SentObject>,
    count: int,
)
    requires
        0 <= count <= objects.len(),
        replayed(store, stream_id, recipient_id, objects.take(count)).1 is Some,
    ensures
        replayed(store, stream_id, recipient_id, objects) == replayed(
            store,
            stream_id,
            recipient_id,
            objects.take(count),
        ),
    decreases objects.len() - count,
{
    if count == objects.len() {
        assert(objects.take(count) =~= objects);
    } else {
        assert(objects.take(count + 1).drop_last() =~= objects.take(count));
        lemma_replay_failed(store, stream_id, recipient_id, objects, count + 1);
    }
}

proof fn lemma_objects_sent_push(deliveries: Seq<DeliveryModel>, delivery: DeliveryModel)
    ensures
        objects_sent(deliveries.push(delivery)) == objects_sent(deliveries) + if delivery
            is Object {
            1nat
        } else {
            0
        },
{
    assert(deliveries.push(delivery).drop_last() =~= deliveries);
}

impl NativeRelayService {
    /// Opens a viewer's subscription to a publisher's stream.
    pub fn subscribe(
        &self,
        recipient_id: [u8; 32],
        publisher_id: [u8; 32],
        stream_id: u128,
        start: SubscriptionStart,
    ) -> (result: Result<SubscriptionOpening, SessionRefusal>)
        requires
            self@.wf(),
        ensures
            match self@.store.stream(stream_id) {
                None => result == Err::<SubscriptionOpening, SessionRefusal>(
                    ends(ServiceError::StreamNotFound),
                ),
                Some(stream) => if stream.publisher_id != publisher_id {
                    result == Err::<SubscriptionOpening, SessionRefusal>(
                        ends(ServiceError::IdentityMismatch),
                    )
                } else if !start_is_durable(start) {
                    result == Err::<SubscriptionOpening, SessionRefusal>(
                        ends(ServiceError::Store(StoreError::BeyondDurableBound)),
                    )
                } else {
                    let anchor = opening_anchor(stream, start);
                    let waits = anchor > stream.high_water && stream.object_at(
                        stream.high_water,
                    ) is Some;
                    let newest = stream.object_at(stream.high_water)->0.header;
                    let lookup = self@.store.envelope_lookup(
                        stream_id,
                        newest.epoch_id,
                        newest.key_group,
                        recipient_id,
                    );
                    &&& result matches Ok(opening)
                    &&& opening.first_sequence == anchor
                    &&& opening.retained == bounds_of(stream)
                    &&& opening.live == (anchor > stream.high_water)
                    &&& opening.subscription.recipient_id == recipient_id
                    &&& opening.subscription.stream_id == stream_id
                    &&& opening.subscription.last_sequence == anchor - 1
                    &&& if waits {
                        match lookup {
                            Ok(found) => envelope_view(opening.envelope) == found
                                && opening.failed is None,
                            Err(error) => opening.envelope is None && opening.failed == Some(
                                ServiceError::Store(error),
                            ),
                        }
                    } else {
                        opening.envelope is None && opening.failed is None
                    }
                },
            },
    {
        let descriptor = match self.store().descriptor(stream_id) {
            Some(descriptor) => descriptor,
            None => {
                return Err(
                    SessionRefusal { reply: None, reason: ServiceError::StreamNotFound },
                );
            },
        };
        let ghost stream = self@.store.stream(stream_id)->0;
        assert(stream.wf()) by {
            let i = self@.store.find(stream_id)->0;
            assert(self@.store.streams[i].wf());
        }
        let owned: bool = match &descriptor.publisher.fingerprint {
            Some(fingerprint) => id_equal(fingerprint, &publisher_id),
            None => false,
        };
        if !owned {
            return Err(SessionRefusal { reply: None, reason: ServiceError::IdentityMismatch });
        }
        let resolved: Result<u64, StoreError> = match start {
            SubscriptionStart::Live => self.store().live_anchor(stream_id),
            _ => self.store().subscription_anchor(stream_id, start),
        };
        let anchor: u64 = match resolved {
            Ok(anchor) => anchor,
            Err(error) => {
                return Err(SessionRefusal { reply: None, reason: ServiceError::Store(error) });
            },
        };
        proof {
            lemma_anchor_positive(stream, start);
        }
        let retained = self.store().retained_bounds(stream_id);
        let high_water: u64 = match self.store().high_water(stream_id) {
            Some(high_water) => high_water,
            None => 0,
        };
        proof {
            lemma_retained_run(stream, high_water);
            if stream.retains(high_water) {
                let i = choose|i: int|
                    0 <= i < stream.groups.len() && (#[trigger] stream.groups[i]).first_sequence
                        <= high_water <= stream.groups[i].last_sequence;
                assert(stream.groups[i].wf());
            }
        }
        let mut envelope: Option<KeyEnvelope> = None;
        let mut failed: Option<ServiceError> = None;
        if anchor > high_water && high_water > 0 {
            match self.store().get_object(stream_id, high_water) {
                Ok(Some(object)) => {
                    match self.store().get_envelope(
                        stream_id,
                        object.header.epoch_id,
                        object.header.key_group,
                        recipient_id,
                    ) {
                        Ok(found) => {
                            envelope = found;
                        },
                        Err(error) => {
                            failed = Some(ServiceError::Store(error));
                        },
                    }
                },
                Ok(None) => {},
                Err(error) => {
                    failed = Some(ServiceError::Store(error));
                },
            }
        }
        Ok(
            SubscriptionOpening {
                subscription: Subscription {
                    recipient_id,
                    stream_id,
                    last_sequence: anchor - 1,
                },
                first_sequence: anchor,
                retained,
                live: anchor > high_water,
                envelope,
                failed,
            },
        )
    }

    /// Adds one object to a replay. Returns why the session ends, if it does.
    fn replay_object(
        &self,
        stream_id: u128,
        recipient_id: [u8; 32],
        group: Option<(u128, u64)>,
        object: NativeObject,
        deliveries: &mut Vec<ViewerDelivery>,
    ) -> (failed: Option<StoreError>)
        requires
            self@.wf(),
        ensures
            (deliveries_view(final(deliveries)@), failed) == with_replayed(
                self@.store,
                stream_id,
                recipient_id,
                group,
                object@,
                deliveries_view(old(deliveries)@),
            ),
            objects_sent(deliveries_view(final(deliveries)@)) == objects_sent(
                deliveries_view(old(deliveries)@),
            ) + if failed is None {
                1nat
            } else {
                0
            },
    {
        let header = object.header;
        let ghost before = deliveries_view(deliveries@);
        if group != Some((header.epoch_id, header.key_group)) {
            match self.store().get_envelope(
                stream_id,
                header.epoch_id,
                header.key_group,
                recipient_id,
            ) {
                Ok(Some(envelope)) => {
                    let ghost model = DeliveryModel::Envelope(envelope@);
                    deliveries.push(ViewerDelivery::Envelope(envelope));
                    proof {
                        assert(deliveries_view(deliveries@) =~= before.push(model));
                        lemma_objects_sent_push(before, model);
                    }
                },
                Ok(None) => {},
                Err(error) => {
                    return Some(error);
                },
            }
        }
        let ghost middle = deliveries_view(deliveries@);
        let ghost model = DeliveryModel::Object(object@);
        deliveries.push(ViewerDelivery::Object(object));
        proof {
            assert(deliveries_view(deliveries@) =~= middle.push(model));
            lemma_objects_sent_push(middle, model);
        }
        None
    }

    /// Sends the next page of what the store retains after a subscription's place, and
    /// moves the place along.
    pub fn replay_page(&self, subscription: &mut Subscription) -> (page: ReplayPage)
        requires
            self@.wf(),
        ensures
            final(subscription).recipient_id == old(subscription).recipient_id,
            final(subscription).stream_id == old(subscription).stream_id,
            match self@.store.stream(old(subscription).stream_id) {
                None => {
                    &&& page.end == PageEnd::Failed(ServiceError::Store(StoreError::UnknownStream))
                    &&& page.deliveries@.len() == 0
                    &&& final(subscription).last_sequence == old(subscription).last_sequence
                },
                Some(stream) => if old(subscription).last_sequence > MAX_DURABLE {
                    &&& page.end == PageEnd::Failed(
                        ServiceError::Store(StoreError::BeyondDurableBound),
                    )
                    &&& page.deliveries@.len() == 0
                    &&& final(subscription).last_sequence == old(subscription).last_sequence
                } else {
                    let after = old(subscription).last_sequence;
                    let objects = page_objects(stream, after);
                    let (deliveries, failed) = replayed(
                        self@.store,
                        old(subscription).stream_id,
                        old(subscription).recipient_id,
                        objects,
                    );
                    if objects.len() == 0 {
                        &&& page.end == PageEnd::Done
                        &&& page.deliveries@.len() == 0
                        &&& final(subscription).last_sequence == after
                    } else if listing_start(stream, after) != after + 1 {
                        &&& page.end == PageEnd::Failed(ServiceError::SequenceGap)
                        &&& page.deliveries@.len() == 0
                        &&& final(subscription).last_sequence == after
                    } else {
                        &&& deliveries_view(page.deliveries@) == deliveries
                        &&& final(subscription).last_sequence == after + objects_sent(deliveries)
                        &&& page.end == match failed {
                            Some(error) => PageEnd::Failed(ServiceError::Store(error)),
                            None => if objects.len() < SUBSCRIPTION_PAGE {
                                PageEnd::Done
                            } else {
                                PageEnd::More
                            },
                        }
                    }
                },
            },
    {
        let after: u64 = subscription.last_sequence;
        let stream_id: u128 = subscription.stream_id;
        let recipient_id: [u8; 32] = subscription.recipient_id;
        let deliveries: Vec<ViewerDelivery> = Vec::new();
        let objects = match self.store().list_objects(stream_id, after, SUBSCRIPTION_PAGE) {
            Ok(objects) => objects,
            Err(error) => {
                return ReplayPage { deliveries, end: PageEnd::Failed(ServiceError::Store(error)) };
            },
        };
        let ghost stream = self@.store.stream(stream_id)->0;
        let ghost listed = page_objects(stream, after);
        assert(stream.stream_id == stream_id && stream.wf()) by {
            let i = self@.store.find(stream_id)->0;
            assert(self@.store.streams[i].stream_id == stream_id);
            assert(self@.store.streams[i].wf());
        }
        let count: usize = objects.len();
        if count == 0 {
            return ReplayPage { deliveries, end: PageEnd::Done };
        }
        assert(objects@[0].header.sequence == listing_start(stream, after));
        if objects[0].header.sequence != after + 1 {
            return ReplayPage { deliveries, end: PageEnd::Failed(ServiceError::SequenceGap) };
        }
        assert(sent_objects(objects@) =~= listed);
        let (sent, failed) = self.replay_run(stream_id, recipient_id, objects);
        proof {
            lemma_objects_sent_bounded(
                self@.store,
                stream_id,
                recipient_id,
                listed,
            );
        }
        subscription.last_sequence = after + sent.1 as u64;
        let end = match failed {
            Some(error) => PageEnd::Failed(ServiceError::Store(error)),
            None => if count < SUBSCRIPTION_PAGE {
                PageEnd::Done
            } else {
                PageEnd::More
            },
        };
        ReplayPage { deliveries: sent.0, end }
    }

    /// Sends a run of objects: what is sent, how many objects that is, and why the session
    /// ends, if it does.
    fn replay_run(&self, stream_id: u128, recipient_id: [u8; 32], objects: Vec<NativeObject>) -> (
        result: ((Vec<ViewerDelivery>, usize), Option<StoreError>))
        requires
            self@.wf(),
        ensures
            (deliveries_view(result.0.0@), result.1) == replayed(
                self@.store,
                stream_id,
                recipient_id,
                sent_objects(objects@),
            ),
            result.0.1 == objects_sent(deliveries_view(result.0.0@)),
    {
        let ghost all = objects@;
        let ghost listed = sent_objects(all);
        let count: usize = objects.len();
        let mut remaining = objects;
        let mut deliveries: Vec<ViewerDelivery> = Vec::new();
        let mut group: Option<(u128, u64)> = None;
        let mut i: usize = 0;
        assert(listed.take(0) =~= Seq::<SentObject>::empty());
        assert(deliveries_view(deliveries@) =~= Seq::<DeliveryModel>::empty());
        assert(all.skip(0) =~= all);
        while i < count
            invariant
                self@.wf(),
                i <= count,
                all == objects@,
                listed == sent_objects(all),
                all.len() == count,
                remaining@ == all.skip(i as int),
                group == last_group(listed.take(i as int)),
                replayed(self@.store, stream_id, recipient_id, listed.take(i as int)) == (
                    deliveries_view(deliveries@),
                    None::<StoreError>,
                ),
                objects_sent(deliveries_view(deliveries@)) == i,
            decreases count - i,
        {
            let object = remaining.remove(0);
            let header = object.header;
            proof {
                assert(object == all[i as int]);
                assert(remaining@ =~= all.skip(i + 1));
                assert(listed.take(i + 1).drop_last() =~= listed.take(i as int));
                assert(listed.take(i + 1).last() == object@);
            }
            if let Some(error) = self.replay_object(
                stream_id,
                recipient_id,
                group,
                object,
                &mut deliveries,
            ) {
                proof {
                    lemma_replay_failed(self@.store, stream_id, recipient_id, listed, i + 1);
                }
                return ((deliveries, i), Some(error));
            }
            group = Some((header.epoch_id, header.key_group));
            i += 1;
        }
        assert(listed.take(i as int) =~= listed);
        ((deliveries, i), None)
    }
}

/// No more objects are sent than there are, and all of them unless something fails.
pub proof fn lemma_objects_sent_bounded(
    store: StoreModel,
    stream_id: u128,
    recipient_id: [u8; 32],
    objects: Seq<SentObject>,
)
    ensures
        objects_sent(replayed(store, stream_id, recipient_id, objects).0) <= objects.len(),
        replayed(store, stream_id, recipient_id, objects).1 is None ==> objects_sent(
            replayed(store, stream_id, recipient_id, objects).0,
        ) == objects.len(),
    decreases objects.len(),
{
    if objects.len() > 0 {
        lemma_objects_sent_bounded(store, stream_id, recipient_id, objects.drop_last());
        let (earlier, failed) = replayed(store, stream_id, recipient_id, objects.drop_last());
        let sent = DeliveryModel::Object(objects.last());
        lemma_objects_sent_push(earlier, sent);
        if let Ok(Some(envelope)) = store.envelope_lookup(
            stream_id,
            objects.last().header.epoch_id,
            objects.last().header.key_group,
            recipient_id,
        ) {
            let middle = earlier.push(DeliveryModel::Envelope(envelope));
            lemma_objects_sent_push(earlier, DeliveryModel::Envelope(envelope));
            lemma_objects_sent_push(middle, sent);
        }
    }
}

/// A subscription never starts at sequence zero.
proof fn lemma_anchor_positive(stream: StreamModel, start: SubscriptionStart)
    requires
        stream.wf(),
    ensures
        1 <= opening_anchor(stream, start) <= MAX_DURABLE + 1,
{
    subscription_starts_at_a_boundary(stream, start);
    if start is Live {
        if stream.active is Some {
            assert(stream.groups[stream.groups.len() - 1].wf());
        }
    } else if anchor_of(stream, start) != stream.high_water + 1 {
        let i = choose|i: int|
            0 <= i < stream.groups.len() && (#[trigger] stream.groups[i]).first_sequence
                == anchor_of(stream, start) && listing_start(
                stream,
                (anchor_of(stream, start) - 1) as u64,
            ) == anchor_of(stream, start);
        assert(stream.groups[i].wf());
    }
}

/// Something that reaches a subscription from the live channel.
#[derive(Clone, Copy, Debug)]
pub enum LiveEvent {
    /// A published object with its sequence.
    Object(u64),
    /// An envelope with the viewer that it is for.
    Envelope([u8; 32]),
    /// Items were lost because the viewer is slow.
    Lagged,
}

/// What becomes of a live item.
#[derive(Clone, Copy, Debug, PartialEq, Eq, Structural)]
pub enum LiveStep {
    /// The viewer is not sent the item.
    Ignore,
    /// The viewer is sent the item.
    Forward,
    /// Something is missing: the store is asked for it.
    Reanchor,
}

/// What becomes of a live item for a viewer at a place.
pub open spec fn live_step(subscription: Subscription, event: LiveEvent) -> LiveStep {
    match event {
        LiveEvent::Envelope(recipient_id) => if recipient_id == subscription.recipient_id {
            LiveStep::Forward
        } else {
            LiveStep::Ignore
        },
        LiveEvent::Object(sequence) => if sequence <= subscription.last_sequence {
            LiveStep::Ignore
        } else if sequence == subscription.last_sequence + 1 {
            LiveStep::Forward
        } else {
            LiveStep::Reanchor
        },
        LiveEvent::Lagged => LiveStep::Reanchor,
    }
}

/// A viewer's place after a live item.
pub open spec fn after_live(subscription: Subscription, event: LiveEvent) -> Subscription {
    match event {
        LiveEvent::Object(sequence) => if live_step(subscription, event) is Forward {
            Subscription { last_sequence: sequence, ..subscription }
        } else {
            subscription
        },
        _ => subscription,
    }
}

impl Subscription {
    /// Decides what becomes of a live item and moves the viewer's place along.
    pub fn live_item(&mut self, event: &LiveEvent) -> (step: LiveStep)
        ensures
            step == live_step(*old(self), *event),
            *final(self) == after_live(*old(self), *event),
    {
        match event {
            LiveEvent::Envelope(recipient_id) => if id_equal(recipient_id, &self.recipient_id) {
                LiveStep::Forward
            } else {
                LiveStep::Ignore
            },
            LiveEvent::Object(sequence) => {
                if *sequence <= self.last_sequence {
                    LiveStep::Ignore
                } else if *sequence - 1 == self.last_sequence {
                    self.last_sequence = *sequence;
                    LiveStep::Forward
                } else {
                    LiveStep::Reanchor
                }
            },
            LiveEvent::Lagged => LiveStep::Reanchor,
        }
    }

    /// The sequence through which the viewer has caught up, announced after a replay.
    pub fn live_marker(&self) -> (through: Option<u64>)
        ensures
            through == if self.last_sequence > 0 {
                Some(self.last_sequence)
            } else {
                None
            },
    {
        if self.last_sequence > 0 {
            Some(self.last_sequence)
        } else {
            None
        }
    }

    /// Judges a replay that was to close a live gap: without progress the session ends.
    pub fn gap_closed(&self, before: u64) -> (refusal: Option<SessionRefusal>)
        ensures
            refusal == if self.last_sequence == before {
                Some(
                    SessionRefusal {
                        reply: Some(RelayErrorCode::HistoryUnavailable),
                        reason: ServiceError::GapUnavailable,
                    },
                )
            } else {
                None
            },
    {
        if self.last_sequence == before {
            Some(
                SessionRefusal {
                    reply: Some(RelayErrorCode::HistoryUnavailable),
                    reason: ServiceError::GapUnavailable,
                },
            )
        } else {
            None
        }
    }
}

/// Judges a session before it waits for the next message. `active` says whether the peer's
/// credential is still valid.
pub fn session_gate(admission: NativeAdmission, active: bool, now_ms: i64) -> (refusal: Option<
    SessionRefusal,
>)
    ensures
        refusal == if active {
            None
        } else {
            Some(
                SessionRefusal {
                    reply: Some(
                        if has_expired(admission, now_ms) {
                            RelayErrorCode::CredentialExpired
                        } else {
                            RelayErrorCode::Unauthorized
                        },
                    ),
                    reason: ServiceError::CredentialInvalid,
                },
            )
        },
{
    if active {
        None
    } else {
        Some(
            SessionRefusal {
                reply: Some(active_credential_error_code(admission, now_ms)),
                reason: ServiceError::CredentialInvalid,
            },
        )
    }
}

/// What ends a session when its read deadline passes.
pub fn deadline_passed(deadline: &ReadDeadline) -> (refusal: SessionRefusal)
    ensures
        refusal == match deadline {
            ReadDeadline::UntilIdle(_) => ends(ServiceError::IdleTimeout),
            _ => SessionRefusal {
                reply: Some(RelayErrorCode::CredentialExpired),
                reason: ServiceError::CredentialExpired,
            },
        },
{
    match deadline {
        ReadDeadline::UntilIdle(_) => SessionRefusal {
            reply: None,
            reason: ServiceError::IdleTimeout,
        },
        _ => SessionRefusal {
            reply: Some(RelayErrorCode::CredentialExpired),
            reason: ServiceError::CredentialExpired,
        },
    }
}

/// Judges a subscription before it waits for the next live item: how long it may wait until
/// it is judged again.
pub fn subscription_gate(
    admission: NativeAdmission,
    active: bool,
    now_ms: i64,
    idle_timeout: Duration,
    since_last_item: Duration,
) -> (result: Result<Duration, SessionRefusal>)
    ensures
        if has_expired(admission, now_ms) {
            result == Err::<Duration, SessionRefusal>(
                SessionRefusal {
                    reply: Some(RelayErrorCode::CredentialExpired),
                    reason: ServiceError::CredentialExpired,
                },
            )
        } else if !active {
            result == Err::<Duration, SessionRefusal>(
                SessionRefusal {
                    reply: Some(RelayErrorCode::Unauthorized),
                    reason: ServiceError::CredentialInvalid,
                },
            )
        } else if duration_nanos(idle_timeout) <= duration_nanos(since_last_item) {
            result == Err::<Duration, SessionRefusal>(ends(ServiceError::IdleTimeout))
        } else {
            let remaining = duration_nanos(idle_timeout) - duration_nanos(since_last_item);
            result matches Ok(wait) && duration_nanos(wait) == if remaining < 1_000_000_000 {
                remaining
            } else {
                1_000_000_000
            }
        },
{
    if let Some(expiry) = admission.expires_at_ms {
        if now_ms >= expiry {
            return Err(
                SessionRefusal {
                    reply: Some(RelayErrorCode::CredentialExpired),
                    reason: ServiceError::CredentialExpired,
                },
            );
        }
    }
    if let Some(refusal) = session_gate(admission, active, now_ms) {
        return Err(refusal);
    }
    let allowed: u128 = idle_timeout.as_nanos();
    let waited: u128 = since_last_item.as_nanos();
    if allowed <= waited {
        return Err(SessionRefusal { reply: None, reason: ServiceError::IdleTimeout });
    }
    let remaining: u128 = allowed - waited;
    if remaining < 1_000_000_000 {
        Ok(Duration::from_nanos(remaining as u64))
    } else {
        Ok(Duration::from_secs(1))
    }
}

/// The sequences of the objects in a run of deliveries.
pub open spec fn delivered_sequences(deliveries: Seq<DeliveryModel>) -> Seq<u64>
    decreases deliveries.len(),
{
    if deliveries.len() == 0 {
        Seq::empty()
    } else {
        let earlier = delivered_sequences(deliveries.drop_last());
        match deliveries.last() {
            DeliveryModel::Object(object) => earlier.push(object.header.sequence),
            DeliveryModel::Envelope(_) => earlier,
        }
    }
}

proof fn lemma_sequences_push(deliveries: Seq<DeliveryModel>, delivery: DeliveryModel)
    ensures
        delivered_sequences(deliveries.push(delivery)) == match delivery {
            DeliveryModel::Object(object) => delivered_sequences(deliveries).push(
                object.header.sequence,
            ),
            DeliveryModel::Envelope(_) => delivered_sequences(deliveries),
        },
{
    assert(deliveries.push(delivery).drop_last() =~= deliveries);
}

/// A replay has no gap: the objects of a page that follows a viewer's place carry the very
/// next sequences, one after the other, in order.
pub proof fn replay_has_no_gap(
    store: StoreModel,
    stream: StreamModel,
    recipient_id: [u8; 32],
    after: u64,
)
    requires
        stream.wf(),
        listing_start(stream, after) == after + 1,
    ensures
        ({
            let sent = delivered_sequences(
                replayed(store, stream.stream_id, recipient_id, page_objects(stream, after)).0,
            );
            &&& sent.len() <= page_objects(stream, after).len()
            &&& forall|k: int| 0 <= k < sent.len() ==> #[trigger] sent[k] == after + 1 + k
        }),
{
    let objects = page_objects(stream, after);
    assert forall|k: int| 0 <= k < objects.len() implies (#[trigger] objects[k]).header.sequence
        == after + 1 + k by {
        let sequence = (after + 1 + k) as u64;
        lemma_retained_run(stream, sequence);
        let i = choose|i: int|
            0 <= i < stream.groups.len() && (#[trigger] stream.groups[i]).first_sequence
                <= sequence <= stream.groups[i].last_sequence;
        lemma_object_at(stream, sequence, i);
    }
    lemma_replayed_sequences(store, stream.stream_id, recipient_id, objects, after);
}

proof fn lemma_replayed_sequences(
    store: StoreModel,
    stream_id: u128,
    recipient_id: [u8; 32],
    objects: Seq<SentObject>,
    after: u64,
)
    requires
        forall|k: int|
            0 <= k < objects.len() ==> (#[trigger] objects[k]).header.sequence == after + 1 + k,
    ensures
        ({
            let (deliveries, failed) = replayed(store, stream_id, recipient_id, objects);
            let sent = delivered_sequences(deliveries);
            &&& sent.len() <= objects.len()
            &&& failed is None ==> sent.len() == objects.len()
            &&& forall|k: int| 0 <= k < sent.len() ==> #[trigger] sent[k] == after + 1 + k
        }),
    decreases objects.len(),
{
    if objects.len() > 0 {
        let shorter = objects.drop_last();
        let object = objects.last();
        lemma_replayed_sequences(store, stream_id, recipient_id, shorter, after);
        let (earlier, failed) = replayed(store, stream_id, recipient_id, shorter);
        let sent = DeliveryModel::Object(object);
        lemma_sequences_push(earlier, sent);
        if let Ok(Some(envelope)) = store.envelope_lookup(
            stream_id,
            object.header.epoch_id,
            object.header.key_group,
            recipient_id,
        ) {
            let middle = earlier.push(DeliveryModel::Envelope(envelope));
            lemma_sequences_push(earlier, DeliveryModel::Envelope(envelope));
            lemma_sequences_push(middle, sent);
        }
    }
}

/// The objects in a run of deliveries.
pub open spec fn delivered_objects(deliveries: Seq<DeliveryModel>) -> Seq<SentObject>
    decreases deliveries.len(),
{
    if deliveries.len() == 0 {
        Seq::empty()
    } else {
        let earlier = delivered_objects(deliveries.drop_last());
        match deliveries.last() {
            DeliveryModel::Object(object) => earlier.push(object),
            DeliveryModel::Envelope(_) => earlier,
        }
    }
}

proof fn lemma_objects_push(deliveries: Seq<DeliveryModel>, delivery: DeliveryModel)
    ensures
        delivered_objects(deliveries.push(delivery)) == match delivery {
            DeliveryModel::Object(object) => delivered_objects(deliveries).push(object),
            DeliveryModel::Envelope(_) => delivered_objects(deliveries),
        },
{
    assert(deliveries.push(delivery).drop_last() =~= deliveries);
}

proof fn lemma_replayed_objects(
    store: StoreModel,
    stream_id: u128,
    recipient_id: [u8; 32],
    objects: Seq<SentObject>,
)
    requires
        forall|k: int|
            0 <= k < objects.len() ==> store.envelope_lookup(
                stream_id,
                (#[trigger] objects[k]).header.epoch_id,
                objects[k].header.key_group,
                recipient_id,
            ) is Ok,
    ensures
        replayed(store, stream_id, recipient_id, objects).1 is None,
        delivered_objects(replayed(store, stream_id, recipient_id, objects).0) == objects,
    decreases objects.len(),
{
    if objects.len() > 0 {
        let shorter = objects.drop_last();
        let object = objects.last();
        assert forall|k: int| 0 <= k < shorter.len() implies store.envelope_lookup(
            stream_id,
            (#[trigger] shorter[k]).header.epoch_id,
            shorter[k].header.key_group,
            recipient_id,
        ) is Ok by {
            assert(shorter[k] == objects[k]);
        }
        lemma_replayed_objects(store, stream_id, recipient_id, shorter);
        let (earlier, failed) = replayed(store, stream_id, recipient_id, shorter);
        let sent = DeliveryModel::Object(object);
        assert(object == objects[objects.len() - 1]);
        assert(shorter.push(object) =~= objects);
        lemma_objects_push(earlier, sent);
        if let Ok(Some(envelope)) = store.envelope_lookup(
            stream_id,
            object.header.epoch_id,
            object.header.key_group,
            recipient_id,
        ) {
            let middle = earlier.push(DeliveryModel::Envelope(envelope));
            lemma_objects_push(earlier, DeliveryModel::Envelope(envelope));
            lemma_objects_push(middle, sent);
        }
    } else {
        assert(objects =~= Seq::empty());
    }
}

/// What is retained reaches the viewer: a page of a replay sends every object after the
/// viewer's place, as many as fit a page, with the very bytes and under the very publisher
/// that the store holds. Streams, epochs and viewers with the identifier zero, for which no
/// envelope can be looked up, are left out.
pub proof fn retained_objects_reach_the_viewer(
    store: StoreModel,
    stream: StreamModel,
    recipient_id: [u8; 32],
    after: u64,
)
    requires
        store.wf(),
        store.stream(stream.stream_id) == Some(stream),
        stream.stream_id != 0,
        !is_zero(recipient_id),
        forall|i: int| 0 <= i < stream.groups.len() ==> (#[trigger] stream.groups[i]).epoch_id != 0,
    ensures
        ({
            let objects = page_objects(stream, after);
            let (deliveries, failed) = replayed(store, stream.stream_id, recipient_id, objects);
            &&& failed is None
            &&& delivered_objects(deliveries) == objects
            &&& forall|k: int|
                0 <= k < objects.len() ==> stream.object_at(
                    (listing_start(stream, after) + k) as u64,
                ) is Some && #[trigger] objects[k] == delivered(
                    stream.object_at((listing_start(stream, after) + k) as u64)->0,
                    stream.publisher,
                )
        }),
{
    let objects = page_objects(stream, after);
    let start = listing_start(stream, after);
    assert(stream == store.streams[store.find(stream.stream_id)->0]);
    assert(stream.wf());
    assert forall|k: int| 0 <= k < objects.len() implies stream.object_at((start + k) as u64) is Some
        && store.envelope_lookup(
        stream.stream_id,
        (#[trigger] objects[k]).header.epoch_id,
        objects[k].header.key_group,
        recipient_id,
    ) is Ok by {
        let sequence = (start + k) as u64;
        lemma_retained_run(stream, sequence);
        let i = choose|i: int|
            0 <= i < stream.groups.len() && (#[trigger] stream.groups[i]).first_sequence
                <= sequence <= stream.groups[i].last_sequence;
        lemma_object_at(stream, sequence, i);
        assert(stream.groups[i].wf());
        let held = stream.groups[i].objects[sequence - stream.groups[i].first_sequence];
        assert(objects[k] == delivered(held, stream.publisher));
    }
    lemma_replayed_objects(store, stream.stream_id, recipient_id, objects);
}

/// In every page of a replay a viewer that has an envelope for a group is sent it before
/// the group's objects.
pub proof fn envelopes_precede_their_objects(
    store: StoreModel,
    stream_id: u128,
    recipient_id: [u8; 32],
    objects: Seq<SentObject>,
    position: int,
)
    requires
        0 <= position < replayed(store, stream_id, recipient_id, objects).0.len(),
        replayed(store, stream_id, recipient_id, objects).0[position] is Object,
    ensures
        ({
            let deliveries = replayed(store, stream_id, recipient_id, objects).0;
            let header = deliveries[position]->Object_0.header;
            store.envelope_lookup(
                stream_id,
                header.epoch_id,
                header.key_group,
                recipient_id,
            ) matches Ok(Some(envelope)) ==> exists|i: int|
                0 <= i < position && #[trigger] deliveries[i] == DeliveryModel::Envelope(envelope)
        }),
    decreases objects.len(),
{
    let shorter = objects.drop_last();
    let (earlier, failed) = replayed(store, stream_id, recipient_id, shorter);
    let deliveries = replayed(store, stream_id, recipient_id, objects).0;
    if position < earlier.len() {
        envelopes_precede_their_objects(store, stream_id, recipient_id, shorter, position);
        assert(deliveries[position] == earlier[position]);
        let header = deliveries[position]->Object_0.header;
        if let Ok(Some(envelope)) = store.envelope_lookup(
            stream_id,
            header.epoch_id,
            header.key_group,
            recipient_id,
        ) {
            let i = choose|i: int|
                0 <= i < position && #[trigger] earlier[i] == DeliveryModel::Envelope(envelope);
            assert(deliveries[i] == DeliveryModel::Envelope(envelope));
        }
    } else {
        let header = objects.last().header;
        assert(deliveries[position] == DeliveryModel::Object(objects.last()));
        if last_group(shorter) == Some((header.epoch_id, header.key_group)) {
            lemma_last_delivery(store, stream_id, recipient_id, shorter);
            envelopes_precede_their_objects(
                store,
                stream_id,
                recipient_id,
                shorter,
                earlier.len() - 1,
            );
            if let Ok(Some(envelope)) = store.envelope_lookup(
                stream_id,
                header.epoch_id,
                header.key_group,
                recipient_id,
            ) {
                let i = choose|i: int|
                    0 <= i < earlier.len() - 1 && #[trigger] earlier[i] == DeliveryModel::Envelope(
                        envelope,
                    );
                assert(deliveries[i] == DeliveryModel::Envelope(envelope));
            }
        } else {
            if let Ok(Some(envelope)) = store.envelope_lookup(
                stream_id,
                header.epoch_id,
                header.key_group,
                recipient_id,
            ) {
                assert(deliveries[position - 1] == DeliveryModel::Envelope(envelope));
            }
        }
    }
}

proof fn lemma_last_delivery(
    store: StoreModel,
    stream_id: u128,
    recipient_id: [u8; 32],
    objects: Seq<SentObject>,
)
    requires
        objects.len() > 0,
        replayed(store, stream_id, recipient_id, objects).1 is None,
    ensures
        replayed(store, stream_id, recipient_id, objects).0.len() > 0,
        replayed(store, stream_id, recipient_id, objects).0.last() == DeliveryModel::Object(
            objects.last(),
        ),
{
}

/// The sequences that a run of live items has forwarded to a viewer.
pub open spec fn forwarded(subscription: Subscription, events: Seq<LiveEvent>) -> Seq<u64>
    decreases events.len(),
{
    if events.len() == 0 {
        Seq::empty()
    } else {
        let earlier = forwarded(subscription, events.drop_last());
        let place = after_all_live(subscription, events.drop_last());
        match events.last() {
            LiveEvent::Object(sequence) => if live_step(place, events.last()) is Forward {
                earlier.push(sequence)
            } else {
                earlier
            },
            _ => earlier,
        }
    }
}

/// A viewer's place after a run of live items.
pub open spec fn after_all_live(subscription: Subscription, events: Seq<LiveEvent>) -> Subscription
    decreases events.len(),
{
    if events.len() == 0 {
        subscription
    } else {
        after_live(after_all_live(subscription, events.drop_last()), events.last())
    }
}

/// A live subscription has no gap and repeats nothing: whatever arrives, the objects passed
/// on carry the sequences after the viewer's place, one after the other, in order.
pub proof fn live_delivery_has_no_gap(subscription: Subscription, events: Seq<LiveEvent>)
    ensures
        forall|k: int|
            0 <= k < forwarded(subscription, events).len() ==> #[trigger] forwarded(
                subscription,
                events,
            )[k] == subscription.last_sequence + 1 + k,
        after_all_live(subscription, events).last_sequence == subscription.last_sequence
            + forwarded(subscription, events).len(),
    decreases events.len(),
{
    if events.len() > 0 {
        live_delivery_has_no_gap(subscription, events.drop_last());
    }
}

} // verus!

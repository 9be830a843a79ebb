//! What holds of publisher and viewer sessions, whatever the relay has stored. Each law
//! speaks of what a call may return for what it was given.

use core::time::Duration;

use vstd::prelude::*;

use crate::access::{
    CredentialRole, NativeAccessError, NativeAccessPolicy, NativeAdmission, RelayAccessMode,
    SessionHello,
};
use crate::pairing::{PairRow, PairingStore};
use crate::records::{NativeObject, NativeObjectKind, SubscriptionStart};
use crate::service::{
    active_credential_error_code, read_deadline, resume_progress, welcome, NativeRelayService,
    NativeServiceLimits,
    PublisherMessage, PublisherReply, PublisherSession, ReadDeadline, RelayErrorCode,
    RelayResumeStream, RelayWelcome, ServiceError, ServiceModel, SessionRefusal, ViewerMessage,
    ViewerReply, ViewerSession,
};
use crate::store::{lemma_find, NativeStore};
use crate::store_laws::acknowledged_object_reads_back;
use crate::store_lemmas::{lemma_object_at, lemma_retained_run};
use crate::store_model::{
    groups_bytes, publisher_bytes, streams_bytes, NativeCommit, StoreError, StoreModel,
    StreamModel,
};
use crate::subscription::{
    session_gate, subscription_gate, LiveEvent, LiveStep, PageEnd, ReplayPage, Subscription,
    SubscriptionOpening, ViewerDelivery,
};
use crate::time::duration_nanos;

verus! {

/// Whether a sequence is retained: it lies between the first retained one and the last.
pub open spec fn is_retained(stream: StreamModel, sequence: u64) -> bool {
    stream.groups.len() > 0 && stream.groups[0].first_sequence <= sequence <= stream.high_water
}

/// Whether a new object fits into a store: in the group, in its publisher's share and in all.
pub open spec fn fits(store: StoreModel, stream: StreamModel, items: int, bytes: int, added: int) -> bool {
    &&& items < store.limits.max_objects_per_group
    &&& bytes + added <= store.limits.max_group_bytes
    &&& publisher_bytes(store.streams, stream.publisher_id) + added
        <= store.limits.max_publisher_bytes
    &&& streams_bytes(store.streams) + added <= store.limits.max_total_bytes
    &&& streams_bytes(store.streams) + added <= 0x7fff_ffff_ffff_ffff
}

/// A signed object with the next sequence goes into the open group, under that group's key
/// and not before its first time, as long as it fits. It is acknowledged by its sequence,
/// which is then the last one.
pub proof fn next_objects_continue_the_open_group(
    store: &mut NativeStore,
    object: &NativeObject,
    received_at_ms: i64,
    result: Result<NativeCommit, StoreError>,
)
    requires
        old(store)@.wf(),
        call_ensures(NativeStore::store_object, (store, object, received_at_ms), result),
        old(store)@.stream(object.header.stream_id) is Some,
        ({
            let stream = old(store)@.stream(object.header.stream_id)->0;
            let header = object.header;
            let group = stream.groups.last();
            &&& object.shape_valid
            &&& object.signer == Some(stream.publisher)
            &&& header.sequence == stream.high_water + 1
            &&& header.sequence <= 0x7fff_ffff_ffff_ffff
            &&& header.timestamp <= 0x7fff_ffff_ffff_ffff
            &&& stream.groups.len() > 0 && !group.complete
            &&& group.epoch_id == header.epoch_id && group.key_group == header.key_group
            &&& group.key_id == header.key_id
            &&& header.timestamp >= group.first_timestamp
            &&& fits(
                old(store)@,
                stream,
                group.objects.len() as int,
                group.retained_bytes as int,
                object.encoded@.len() as int,
            )
        }),
    ensures
        result matches Ok(commit) && commit.inserted && commit.committed_through
            == object.header.sequence,
        final(store)@.stream(object.header.stream_id) matches Some(after) && after.high_water
            == object.header.sequence,
{
    let index = old(store)@.find(object.header.stream_id)->0;
    let stream = old(store)@.streams[index];
    assert(stream.wf());
    assert(stream.groups[stream.groups.len() - 1].wf());
    lemma_retained_run(stream, object.header.sequence);
    acknowledged_object_reads_back(old(store)@, object@, received_at_ms);
}

/// A signed, decodable object with the next sequence opens a new group where no group is
/// open, in a new epoch, or with a higher group number, as long as it fits.
pub proof fn next_objects_open_new_groups(
    store: &mut NativeStore,
    object: &NativeObject,
    received_at_ms: i64,
    result: Result<NativeCommit, StoreError>,
)
    requires
        old(store)@.wf(),
        call_ensures(NativeStore::store_object, (store, object, received_at_ms), result),
        old(store)@.stream(object.header.stream_id) is Some,
        ({
            let stream = old(store)@.stream(object.header.stream_id)->0;
            let header = object.header;
            &&& object.shape_valid
            &&& object.signer == Some(stream.publisher)
            &&& header.sequence == stream.high_water + 1
            &&& header.sequence <= 0x7fff_ffff_ffff_ffff
            &&& header.timestamp <= 0x7fff_ffff_ffff_ffff
            &&& 0 < header.key_group <= 0x7fff_ffff_ffff_ffff
            &&& !(header.kind is Cursor) && header.random_access
            &&& stream.groups.len() > 0 && !stream.groups.last().complete ==> (
            stream.groups.last().epoch_id != header.epoch_id || stream.groups.last().key_group
                < header.key_group)
            &&& forall|g: int|
                0 <= g < stream.groups.len() ==> (#[trigger] stream.groups[g]).epoch_id
                    != header.epoch_id || stream.groups[g].key_group != header.key_group
            &&& fits(old(store)@, stream, 0, 0, object.encoded@.len() as int)
        }),
    ensures
        result matches Ok(commit) && commit.inserted && commit.committed_through
            == object.header.sequence,
        final(store)@.stream(object.header.stream_id) matches Some(after) && after.high_water
            == object.header.sequence,
{
    let index = old(store)@.find(object.header.stream_id)->0;
    let stream = old(store)@.streams[index];
    assert(stream.wf());
    lemma_retained_run(stream, object.header.sequence);
    if stream.group_index(object.header.epoch_id, object.header.key_group) is Some {
        let g = choose|i: int|
            0 <= i < stream.groups.len() && (#[trigger] stream.groups[i]).is_named(
                object.header.epoch_id,
                object.header.key_group,
            );
        assert(stream.groups[g].is_named(object.header.epoch_id, object.header.key_group));
    }
    acknowledged_object_reads_back(old(store)@, object@, received_at_ms);
}

/// Only what its publisher signed is stored, under the next sequence or as the very bytes
/// that are stored already. A new object continues the open group under its key, or is
/// decodable by itself.
pub proof fn stored_objects_were_signed_and_next(
    store: &mut NativeStore,
    object: &NativeObject,
    received_at_ms: i64,
    result: Result<NativeCommit, StoreError>,
    commit: NativeCommit,
)
    requires
        old(store)@.wf(),
        call_ensures(NativeStore::store_object, (store, object, received_at_ms), result),
        result == Ok::<NativeCommit, StoreError>(commit),
    ensures
        object.shape_valid,
        old(store)@.stream(object.header.stream_id) is Some,
        commit.committed_through == object.header.sequence,
        ({
            let stream = old(store)@.stream(object.header.stream_id)->0;
            let header = object.header;
            let group = stream.groups.last();
            &&& object.signer == Some(stream.publisher)
            &&& commit.inserted <==> !is_retained(stream, header.sequence)
            &&& commit.inserted ==> {
                &&& header.sequence == stream.high_water + 1
                &&& ({
                    ||| stream.groups.len() > 0 && !group.complete && group.epoch_id
                        == header.epoch_id && group.key_group == header.key_group
                        && group.key_id == header.key_id && header.timestamp
                        >= group.first_timestamp && fits(
                        old(store)@,
                        stream,
                        group.objects.len() as int,
                        group.retained_bytes as int,
                        object.encoded@.len() as int,
                    )
                    ||| header.random_access && !(header.kind is Cursor) && header.key_group > 0
                        && fits(old(store)@, stream, 0, 0, object.encoded@.len() as int)
                })
            }
            &&& !commit.inserted ==> final(store)@ == old(store)@ && stream.object_at(
                header.sequence,
            )->0.encoded == object.encoded@
        }),
{
    let index = old(store)@.find(object.header.stream_id)->0;
    let stream = old(store)@.streams[index];
    assert(stream.wf());
    lemma_retained_run(stream, object.header.sequence);
}

/// A refused object changes nothing.
pub proof fn refused_objects_change_nothing(
    store: &mut NativeStore,
    object: &NativeObject,
    received_at_ms: i64,
    result: Result<NativeCommit, StoreError>,
)
    requires
        old(store)@.wf(),
        call_ensures(NativeStore::store_object, (store, object, received_at_ms), result),
        result is Err,
    ensures
        final(store)@ == old(store)@,
{
}

/// A hello is admitted at its own listener alone. A public relay then asks for nothing else
/// and sets no end; a signed one asks for a verified credential of the very identity that
/// says hello, with which the admission ends.
pub proof fn admission_asks_for_role_and_credential(
    policy: &NativeAccessPolicy,
    hello: &SessionHello,
    role: CredentialRole,
    verified: bool,
    result: Result<NativeAdmission, NativeAccessError>,
)
    requires
        call_ensures(NativeAccessPolicy::admit_peer, (policy, hello, role, verified), result),
    ensures
        result is Ok <==> hello.role == role && (*policy is Public || verified && (
        hello.credential matches Some(credential) && credential.identity == hello.identity)),
        result matches Ok(admission) ==> if *policy is Public {
            admission.mode is Public && admission.expires_at_ms is None
        } else {
            admission.mode is Signed && admission.expires_at_ms == Some(
                hello.credential->0.not_after_ms,
            )
        },
{
}

/// A session is opened by a hello that the relay's policy admits, and by nothing else.
pub proof fn sessions_open_with_an_admitted_hello(
    service: &NativeRelayService,
    hello: &Option<SessionHello>,
    role: CredentialRole,
    verified: bool,
    result: Result<NativeAdmission, SessionRefusal>,
    admitted: Result<NativeAdmission, NativeAccessError>,
)
    requires
        call_ensures(NativeRelayService::open_session, (service, hello, role, verified), result),
        *hello is Some ==> call_ensures(
            NativeAccessPolicy::admit_peer,
            (&service.policy(), &(*hello)->0, role, verified),
            admitted,
        ),
    ensures
        *hello is None ==> result is Err && result->Err_0.reply == Some(
            RelayErrorCode::ProtocolViolation,
        ),
        *hello is Some ==> (result is Ok <==> admitted is Ok),
        *hello is Some && result is Ok ==> result->Ok_0 == admitted->Ok_0,
        *hello is Some && result is Err ==> result->Err_0.reply == Some(
            RelayErrorCode::Unauthorized,
        ),
{
}

/// A welcome announces the admission and the relay's clock.
pub proof fn welcomes_announce_the_admission(
    admission: NativeAdmission,
    now_ms: i64,
    answer: RelayWelcome,
)
    requires
        call_ensures(welcome, (admission, now_ms), answer),
    ensures
        answer.access_mode == admission.mode,
        answer.relay_time_ms == now_ms,
        answer.credential_expires_at_ms == admission.expires_at_ms,
{
}

/// A session never waits longer than a peer may be idle, nor beyond the end of its
/// credential, and it waits as long as both allow.
pub proof fn sessions_wait_within_both_limits(
    expires_at_ms: Option<i64>,
    now_ms: i64,
    idle_timeout: Duration,
    deadline: ReadDeadline,
)
    requires
        call_ensures(read_deadline, (expires_at_ms, now_ms, idle_timeout), deadline),
        expires_at_ms matches Some(expiry) ==> expiry - now_ms <= i64::MAX,
    ensures
        deadline is Expired <==> (expires_at_ms matches Some(expiry) && expiry < now_ms),
        deadline matches ReadDeadline::UntilExpiry(wait) ==> (expires_at_ms matches Some(expiry)
            && duration_nanos(wait) == (expiry - now_ms) * 1_000_000 && duration_nanos(wait)
            <= duration_nanos(idle_timeout)),
        deadline matches ReadDeadline::UntilIdle(wait) ==> wait == idle_timeout && (
        expires_at_ms matches Some(expiry) ==> (expiry - now_ms) * 1_000_000 > duration_nanos(
            idle_timeout,
        )),
{
}

/// A session goes on while its credential is valid. When it stops, the peer is told whether
/// it expired or was taken away.
pub proof fn sessions_end_with_their_credential(
    admission: NativeAdmission,
    active: bool,
    now_ms: i64,
    refusal: Option<SessionRefusal>,
    code: RelayErrorCode,
)
    requires
        call_ensures(session_gate, (admission, active, now_ms), refusal),
        call_ensures(active_credential_error_code, (admission, now_ms), code),
    ensures
        refusal is None <==> active,
        refusal matches Some(refusal) ==> refusal.reply == Some(code),
        code == if admission.expires_at_ms matches Some(expiry) && expiry <= now_ms {
            RelayErrorCode::CredentialExpired
        } else {
            RelayErrorCode::Unauthorized
        },
{
}

/// A subscription is judged again within a second, and no later than its viewer may be idle.
/// It ends when the credential has expired or is no longer valid, and when nothing was sent
/// for too long.
pub proof fn subscriptions_are_judged_every_second(
    admission: NativeAdmission,
    active: bool,
    now_ms: i64,
    idle_timeout: Duration,
    since: Duration,
    result: Result<Duration, SessionRefusal>,
)
    requires
        call_ensures(
            subscription_gate,
            (admission, active, now_ms, idle_timeout, since),
            result,
        ),
    ensures
        ({
            let expired = admission.expires_at_ms matches Some(expiry) && expiry <= now_ms;
            let idle = duration_nanos(since) >= duration_nanos(idle_timeout);
            &&& result is Ok <==> !expired && active && !idle
            &&& result matches Ok(wait) ==> {
                &&& 0 < duration_nanos(wait) <= 1_000_000_000
                &&& duration_nanos(wait) + duration_nanos(since) <= duration_nanos(idle_timeout)
                &&& duration_nanos(wait) == 1_000_000_000 || duration_nanos(wait)
                    + duration_nanos(since) == duration_nanos(idle_timeout)
            }
            &&& result matches Err(refusal) ==> refusal.reply == if expired {
                Some(RelayErrorCode::CredentialExpired)
            } else if !active {
                Some(RelayErrorCode::Unauthorized)
            } else {
                None
            }
        }),
{
}

/// A viewer is sent each live object once, in order: the very next one is forwarded, one that
/// it has is passed over, and one that is too far ahead is asked of the store. Envelopes are
/// forwarded to the viewer that they are for and to nobody else.
pub proof fn live_items_are_forwarded_in_order(
    place: &mut Subscription,
    event: &LiveEvent,
    step: LiveStep,
)
    requires
        call_ensures(Subscription::live_item, (place, event), step),
    ensures
        *event matches LiveEvent::Object(sequence) ==> {
            &&& step is Forward <==> sequence == old(place).last_sequence + 1
            &&& step is Ignore <==> sequence <= old(place).last_sequence
            &&& step is Reanchor <==> sequence > old(place).last_sequence + 1
            &&& final(place).last_sequence == if step is Forward {
                sequence
            } else {
                old(place).last_sequence
            }
        },
        *event matches LiveEvent::Envelope(recipient_id) ==> {
            &&& step is Forward <==> recipient_id == old(place).recipient_id
            &&& step is Ignore <==> recipient_id != old(place).recipient_id
            &&& *final(place) == *old(place)
        },
        *event is Lagged ==> step is Reanchor && *final(place) == *old(place),
        final(place).recipient_id == old(place).recipient_id,
        final(place).stream_id == old(place).stream_id,
{
}

/// A subscription begins where the store finds its start; a live one with the group that is
/// open. It is announced as live if and only if nothing is replayed.
pub proof fn subscriptions_begin_at_their_start(
    service: &NativeRelayService,
    store: &NativeStore,
    recipient_id: [u8; 32],
    publisher_id: [u8; 32],
    stream_id: u128,
    start: SubscriptionStart,
    result: Result<SubscriptionOpening, SessionRefusal>,
    anchor: Result<u64, StoreError>,
    live_anchor: Result<u64, StoreError>,
)
    requires
        service@.wf(),
        store@ == service@.store,
        call_ensures(
            NativeRelayService::subscribe,
            (service, recipient_id, publisher_id, stream_id, start),
            result,
        ),
        call_ensures(NativeStore::subscription_anchor, (store, stream_id, start), anchor),
        call_ensures(NativeStore::live_anchor, (store, stream_id), live_anchor),
    ensures
        result is Ok <==> anchor is Ok && service@.store.stream(stream_id)->0.publisher_id
            == publisher_id,
        result matches Ok(opening) ==> {
            let stream = service@.store.stream(stream_id)->0;
            &&& opening.first_sequence == if start is Live {
                live_anchor->Ok_0
            } else {
                anchor->Ok_0
            }
            &&& opening.live <==> opening.first_sequence > stream.high_water
            &&& opening.subscription.last_sequence + 1 == opening.first_sequence
            &&& opening.subscription.recipient_id == recipient_id
            &&& opening.subscription.stream_id == stream_id
        },
{
}

/// A replay that is done has brought its viewer up to the last sequence, wherever it began
/// within what is retained; one that is not done has brought it a whole page further.
pub proof fn replays_bring_viewers_up_to_date(
    service: &NativeRelayService,
    place: &mut Subscription,
    page: ReplayPage,
)
    requires
        service@.wf(),
        call_ensures(NativeRelayService::replay_page, (service, place), page),
        service@.store.stream(old(place).stream_id) is Some,
        ({
            let stream = service@.store.stream(old(place).stream_id)->0;
            &&& stream.groups.len() > 0
            &&& stream.groups[0].first_sequence <= old(place).last_sequence + 1
            &&& old(place).last_sequence <= stream.high_water
        }),
    ensures
        ({
            let stream = service@.store.stream(old(place).stream_id)->0;
            &&& page.end is Done ==> final(place).last_sequence == stream.high_water
            &&& page.end is More ==> final(place).last_sequence == old(place).last_sequence + 1_024
            &&& final(place).last_sequence >= old(place).last_sequence
            &&& final(place).last_sequence <= stream.high_water
        }),
{
    let stream = service@.store.stream(old(place).stream_id)->0;
    let index = service@.store.find(old(place).stream_id)->0;
    assert(service@.store.streams[index].wf());
    assert(stream.groups[0].wf());
    let after = old(place).last_sequence;
    let objects = crate::subscription::page_objects(stream, after);
    let (deliveries, failed) = crate::subscription::replayed(
        service@.store,
        old(place).stream_id,
        old(place).recipient_id,
        objects,
    );
    if objects.len() > 0 {
        crate::subscription::lemma_objects_sent_bounded(
            service@.store,
            old(place).stream_id,
            old(place).recipient_id,
            objects,
        );
    }
}

/// Who a publisher's message claims to be from, where it says so.
pub open spec fn claims(message: PublisherMessage, session: PublisherSession) -> bool {
    match message {
        PublisherMessage::Resume { publisher_id, .. } => publisher_id == session.publisher_id,
        PublisherMessage::Descriptor(descriptor) => descriptor.publisher == session.identity,
        PublisherMessage::Object(object) => object.header.publisher_id == session.publisher_id,
        PublisherMessage::KeyEnvelope(envelope) => envelope.header.publisher_id
            == session.publisher_id,
        PublisherMessage::PairOffer { offer, .. } => offer.publisher == session.identity,
        _ => true,
    }
}

/// Publishers speak for themselves: a message that names another publisher, or a second
/// hello, ends the session, and nothing changes.
pub proof fn publishers_speak_for_themselves(
    service: &mut NativeRelayService,
    session: &mut PublisherSession,
    message: &PublisherMessage,
    now_ms: i64,
    result: Result<PublisherReply, SessionRefusal>,
)
    requires
        old(service)@.wf(),
        call_ensures(
            NativeRelayService::publisher_message,
            (service, session, message, now_ms),
            result,
        ),
        !claims(*message, *old(session)) || *message is Hello,
    ensures
        result is Err,
        final(service)@ == old(service)@,
        final(session).touched@ == old(session).touched@,
{
}

/// A stream is published by one session at a time: while another session has it, it can be
/// neither described nor published, and nothing changes.
pub proof fn busy_streams_are_left_alone(
    service: &mut NativeRelayService,
    session: &mut PublisherSession,
    message: &PublisherMessage,
    now_ms: i64,
    result: Result<PublisherReply, SessionRefusal>,
    stream_id: u128,
)
    requires
        old(service)@.wf(),
        call_ensures(
            NativeRelayService::publisher_message,
            (service, session, message, now_ms),
            result,
        ),
        (*message matches PublisherMessage::Descriptor(descriptor) && descriptor.stream_id
            == stream_id) || (*message matches PublisherMessage::Object(object)
            && object.header.stream_id == stream_id),
        old(service)@.online.contains(stream_id),
        !old(session).touched@.contains(stream_id),
    ensures
        result is Err,
        final(service)@ == old(service)@,
        final(session).touched@ == old(session).touched@,
{
}

/// A published object is acknowledged by its own sequence once it is stored: the relay then
/// reads back the very bytes. Live viewers are sent it if and only if it is new, and the
/// session has the stream from then on.
pub proof fn published_objects_are_acknowledged_and_sent_once(
    service: &mut NativeRelayService,
    session: &mut PublisherSession,
    message: &PublisherMessage,
    object: NativeObject,
    now_ms: i64,
    result: Result<PublisherReply, SessionRefusal>,
)
    requires
        old(service)@.wf(),
        *message == PublisherMessage::Object(object),
        call_ensures(
            NativeRelayService::publisher_message,
            (service, session, message, now_ms),
            result,
        ),
        result is Ok,
    ensures
        result matches Ok(PublisherReply::PublishAck { stream_id, committed_through, broadcast })
            && stream_id == object.header.stream_id && committed_through == object.header.sequence
            && (broadcast <==> !is_retained(
            old(service)@.store.stream(stream_id)->0,
            committed_through,
        )),
        final(session).touched@.contains(object.header.stream_id),
        final(service)@.online.contains(object.header.stream_id),
        final(service)@.pairing == old(service)@.pairing,
        final(service)@.store.stream(object.header.stream_id) matches Some(stream) && {
            &&& is_retained(stream, object.header.sequence)
            &&& stream.object_at(object.header.sequence)->0.encoded == object.encoded@
        },
{
    let store = old(service)@.store;
    let id = object.header.stream_id;
    let index = store.find(id)->0;
    assert(store.streams[index].wf());
    lemma_retained_run(store.streams[index], object.header.sequence);
    acknowledged_object_reads_back(store, object@, now_ms);
    let after = final(service)@.store;
    let stream = after.stream(id)->0;
    assert(after.wf());
    assert(after.streams[after.find(id)->0].wf());
    lemma_retained_run(stream, object.header.sequence);
    let touched = old(session).touched@;
    let grown = touched.push(id);
    assert(grown[grown.len() - 1] == id);
    let online = old(service)@.online.push(id);
    assert(online[online.len() - 1] == id);
}

/// Resuming claims each stream and tells the publisher how far it was committed: nothing of a
/// stream that is new.
pub proof fn resumed_streams_are_told_how_far_they_are(
    service: &mut NativeRelayService,
    session: &mut PublisherSession,
    message: &PublisherMessage,
    streams: Vec<u128>,
    now_ms: i64,
    result: Result<PublisherReply, SessionRefusal>,
)
    requires
        old(service)@.wf(),
        *message == (PublisherMessage::Resume {
            publisher_id: old(session).publisher_id,
            streams,
        }),
        call_ensures(
            NativeRelayService::publisher_message,
            (service, session, message, now_ms),
            result,
        ),
        forall|i: int|
            0 <= i < streams@.len() ==> {
                &&& old(service)@.store.stream(#[trigger] streams@[i]) matches Some(stream)
                    ==> stream.publisher == old(session).identity
                &&& old(session).touched@.contains(streams@[i]) || !old(service)@.online.contains(streams@[i])
            },
    ensures
        result matches Ok(PublisherReply::ResumeState(states)) && states@.len() == streams@.len()
            && forall|i: int|
            0 <= i < states@.len() ==> (#[trigger] states@[i]).stream_id == streams@[i]
                && states@[i].committed_through == match old(service)@.store.stream(streams@[i]) {
                Some(stream) => stream.high_water,
                None => 0,
            },
        forall|i: int|
            0 <= i < streams@.len() ==> final(session).touched@.contains(#[trigger] streams@[i]),
        final(service)@.store == old(service)@.store,
        final(service)@.pairing == old(service)@.pairing,
{
    lemma_resumed(old(service)@, old(session).identity, old(session).touched@, streams@);
}

proof fn lemma_resumed(
    before: ServiceModel,
    identity: crate::records::IdentityPublic,
    touched: Seq<u128>,
    streams: Seq<u128>,
)
    requires
        forall|i: int|
            0 <= i < streams.len() ==> {
                &&& before.store.stream(#[trigger] streams[i]) matches Some(stream)
                    ==> stream.publisher == identity
                &&& touched.contains(streams[i]) || !before.online.contains(streams[i])
            },
    ensures
        ({
            let progress = resume_progress(before, identity, touched, streams);
            &&& progress.failed is None
            &&& progress.states.len() == streams.len()
            &&& forall|i: int|
                0 <= i < streams.len() ==> (#[trigger] progress.states[i]).stream_id == streams[i]
                    && progress.states[i].committed_through == match before.store.stream(
                    streams[i],
                ) {
                    Some(stream) => stream.high_water,
                    None => 0,
                }
            &&& forall|id: u128| #[trigger]
                progress.touched.contains(id) <==> touched.contains(id) || streams.contains(id)
            &&& forall|id: u128| #[trigger]
                progress.online.contains(id) ==> before.online.contains(id) || streams.contains(id)
        }),
    decreases streams.len(),
{
    if streams.len() > 0 {
        let shorter = streams.drop_last();
        let last = streams.last();
        assert(last == streams[streams.len() - 1]);
        assert forall|i: int| 0 <= i < shorter.len() implies ({
            &&& before.store.stream(#[trigger] shorter[i]) matches Some(stream)
                ==> stream.publisher == identity
            &&& touched.contains(shorter[i]) || !before.online.contains(shorter[i])
        }) by {
            assert(shorter[i] == streams[i]);
        }
        lemma_resumed(before, identity, touched, shorter);
        let earlier = resume_progress(before, identity, touched, shorter);
        let progress = resume_progress(before, identity, touched, streams);
        assert(progress.failed is None);
        assert forall|id: u128| #[trigger] progress.touched.contains(id) <==> touched.contains(id)
            || streams.contains(id) by {
            lemma_pushed(shorter, last, id);
            assert(shorter.push(last) =~= streams);
            lemma_pushed(earlier.touched, last, id);
        }
        assert forall|id: u128| #[trigger] progress.online.contains(id) implies
            before.online.contains(id) || streams.contains(id) by {
            lemma_pushed(shorter, last, id);
            assert(shorter.push(last) =~= streams);
            lemma_pushed(earlier.online, last, id);
        }
    }
}

proof fn lemma_pushed(items: Seq<u128>, last: u128, id: u128)
    ensures
        items.push(last).contains(id) <==> items.contains(id) || id == last,
{
    let all = items.push(last);
    if items.contains(id) {
        let k = choose|k: int| 0 <= k < items.len() && items[k] == id;
        assert(all[k] == id);
    }
    if id == last {
        assert(all[items.len() as int] == id);
    }
    if all.contains(id) && id != last {
        let k = choose|k: int| 0 <= k < all.len() && all[k] == id;
        assert(items[k] == id);
    }
}

/// A sign of life is answered with the relay's clock, and nothing changes.
pub proof fn signs_of_life_are_answered(
    service: &mut NativeRelayService,
    session: &mut PublisherSession,
    message: &PublisherMessage,
    now_ms: i64,
    result: Result<PublisherReply, SessionRefusal>,
)
    requires
        old(service)@.wf(),
        *message is Ping,
        call_ensures(
            NativeRelayService::publisher_message,
            (service, session, message, now_ms),
            result,
        ),
    ensures
        result matches Ok(PublisherReply::Pong { now_ms: told }) && told == now_ms,
        final(service)@ == old(service)@,
{
}

/// When a publisher goes, its streams are free to be claimed again and their groups are
/// complete; everything stored stays, and other publishers' streams are as they were.
pub proof fn closed_publishers_leave_complete_streams(
    service: &mut NativeRelayService,
    session: PublisherSession,
    stream_id: u128,
)
    requires
        old(service)@.wf(),
        call_ensures(NativeRelayService::close_publisher, (service, session), ()),
        old(service)@.store.stream(stream_id) is Some,
    ensures
        final(service)@.pairing == old(service)@.pairing,
        final(service)@.online.contains(stream_id) <==> old(service)@.online.contains(stream_id)
            && !session.touched@.contains(stream_id),
        final(service)@.store.stream(stream_id) is Some,
        ({
            let before = old(service)@.store.stream(stream_id)->0;
            let after = final(service)@.store.stream(stream_id)->0;
            if session.touched@.contains(stream_id) {
                &&& after.high_water == before.high_water
                &&& after.groups.len() == before.groups.len()
                &&& forall|g: int|
                    0 <= g < after.groups.len() ==> {
                        &&& (#[trigger] after.groups[g]).complete
                        &&& after.groups[g].objects == before.groups[g].objects
                        &&& after.groups[g].envelopes == before.groups[g].envelopes
                        &&& after.groups[g].first_sequence == before.groups[g].first_sequence
                    }
            } else {
                after == before
            }
        }),
{
    lemma_all_finalized(old(service)@.store, session.touched@, stream_id);
    let before = old(service)@.store.stream(stream_id)->0;
    let index = old(service)@.store.find(stream_id)->0;
    assert(old(service)@.store.streams[index].wf());
    let after = final(service)@.store.stream(stream_id)->0;
    if session.touched@.contains(stream_id) {
        assert forall|g: int| 0 <= g < after.groups.len() implies ({
            &&& (#[trigger] after.groups[g]).complete
            &&& after.groups[g].objects == before.groups[g].objects
            &&& after.groups[g].envelopes == before.groups[g].envelopes
            &&& after.groups[g].first_sequence == before.groups[g].first_sequence
        }) by {
            assert(before.groups[g].wf());
        }
    }
}

proof fn lemma_all_finalized(store: StoreModel, streams: Seq<u128>, stream_id: u128)
    requires
        store.wf(),
        store.stream(stream_id) is Some,
    ensures
        crate::service::finalized_all(store, streams).wf(),
        crate::service::finalized_all(store, streams).stream(stream_id) == Some(
            if streams.contains(stream_id) {
                store.stream(stream_id)->0.finalized()
            } else {
                store.stream(stream_id)->0
            },
        ),
    decreases streams.len(),
{
    if streams.len() > 0 {
        let shorter = streams.drop_last();
        let last = streams.last();
        lemma_all_finalized(store, shorter, stream_id);
        let before = crate::service::finalized_all(store, shorter);
        assert(shorter.push(last) =~= streams);
        lemma_pushed(shorter, last, stream_id);
        if let Some(index) = before.find(last) {
            let stream = before.streams[index];
            assert(stream.stream_id == last);
            assert(stream.wf());
            lemma_find(before, last, index);
            crate::store_lemmas::lemma_completed_groups_wf(stream);
            crate::store_lemmas::lemma_with_stream_wf(before, index, stream.finalized());
            crate::store_laws::lemma_stream_stays(before, index, stream.finalized(), stream_id);
        }
    }
}

/// The catalog lists every stream, with its description, whether a publisher has it and what
/// is retained of it as the store tells.
pub proof fn catalogs_list_every_stream(
    service: &mut NativeRelayService,
    store: &NativeStore,
    session: &ViewerSession,
    message: &ViewerMessage,
    now_ms: i64,
    result: Result<ViewerReply, SessionRefusal>,
    i: int,
    retained: Option<crate::store_model::NativeRetainedBounds>,
)
    requires
        old(service)@.wf(),
        *message is Catalog,
        call_ensures(
            NativeRelayService::viewer_message,
            (service, session, message, now_ms),
            result,
        ),
        0 <= i < old(service)@.store.streams.len(),
        store@ == old(service)@.store,
        call_ensures(
            NativeStore::retained_bounds,
            (store, old(service)@.store.streams[i].stream_id),
            retained,
        ),
    ensures
        result matches Ok(ViewerReply::Catalog(entries)) && entries@.len()
            == old(service)@.store.streams.len() && ({
            let stream = old(service)@.store.streams[i];
            let entry = entries@[i];
            &&& entry.descriptor.stream_id == stream.stream_id
            &&& entry.descriptor.publisher == stream.publisher
            &&& entry.descriptor.encoded@ == stream.descriptor
            &&& entry.publisher_online <==> old(service)@.online.contains(stream.stream_id)
            &&& entry.retained == retained
        }),
        final(service)@ == old(service)@,
{
    lemma_find(old(service)@.store, old(service)@.store.streams[i].stream_id, i);
    if let Ok(ViewerReply::Catalog(entries)) = result {
        assert(crate::service::catalogued(
            entries@[i],
            old(service)@.store.streams[i],
            old(service)@.online,
        ));
    }
}

/// Viewers speak for themselves too: a pairing record that names another viewer, or a second
/// hello, ends the session, and nothing changes. A request for a stream that is not published
/// by the one it names is refused, and the session goes on.
pub proof fn viewers_speak_for_themselves(
    service: &mut NativeRelayService,
    session: &ViewerSession,
    message: &ViewerMessage,
    now_ms: i64,
    result: Result<ViewerReply, SessionRefusal>,
)
    requires
        old(service)@.wf(),
        call_ensures(
            NativeRelayService::viewer_message,
            (service, session, message, now_ms),
            result,
        ),
    ensures
        *message is Hello ==> result is Err,
        *message matches ViewerMessage::PairRequest { request, .. } ==> {
            &&& request.viewer != session.identity ==> result is Err
            &&& request.viewer == session.identity && !(old(service)@.store.stream(
                request.stream_id,
            ) matches Some(stream) && stream.publisher == request.publisher) ==> (result matches Ok(
                ViewerReply::Refused(RelayErrorCode::NotFound),
            ))
            &&& result matches Ok(ViewerReply::PairingQueued { request_id }) ==> Some(request_id)
                == request.request_id
        },
        *message matches ViewerMessage::PairConfirmation { confirmation, .. } ==> {
            &&& Some(confirmation.viewer_id) != session.identity.fingerprint ==> result is Err
            &&& result matches Ok(reply) ==> reply == (ViewerReply::PairingQueued {
                request_id: confirmation.request_id,
            })
        },
        *message is Reanchor ==> (result matches Ok(
            ViewerReply::Refused(RelayErrorCode::ProtocolViolation),
        )),
        *message is Ping ==> (result matches Ok(ViewerReply::Pong { now_ms: told }) && told
            == now_ms),
        result is Err ==> final(service)@ == old(service)@,
        final(service)@.store == old(service)@.store,
        final(service)@.online == old(service)@.online,
{
}

/// A service opens with what it is given, nobody being online, if its limits are positive and
/// its transport key is sound.
pub proof fn services_open_with_what_they_are_given(
    store: NativeStore,
    pairing: PairingStore,
    access: NativeAccessPolicy,
    key: [u8; 32],
    key_valid: bool,
    limits: NativeServiceLimits,
    result: Result<NativeRelayService, ServiceError>,
    service: &NativeRelayService,
    shown_key: [u8; 32],
    shown_limits: NativeServiceLimits,
    shown_store: &NativeStore,
    shown_pairing: &PairingStore,
)
    requires
        call_ensures(
            NativeRelayService::new_with_limits,
            (store, pairing, access, key, key_valid, limits),
            result,
        ),
        result matches Ok(opened) ==> *service == opened,
        call_ensures(NativeRelayService::noise_public_key, (service,), shown_key),
        call_ensures(NativeRelayService::limits, (service,), shown_limits),
        call_ensures(NativeRelayService::store, (service,), shown_store),
        call_ensures(NativeRelayService::pairing, (service,), shown_pairing),
    ensures
        result is Ok ==> {
            &&& key_valid
            &&& service@.online.len() == 0
            &&& shown_key == key
            &&& shown_limits == limits
            &&& shown_store@ == store@
            &&& shown_pairing@ == pairing@
            &&& limits.max_connections > 0 && limits.live_channel_capacity > 0
            &&& duration_nanos(limits.handshake_timeout) > 0 && duration_nanos(limits.idle_timeout)
                > 0
        },
        result is Err ==> !key_valid || limits.max_connections == 0 || limits.live_channel_capacity
            == 0 || duration_nanos(limits.handshake_timeout) == 0 || duration_nanos(
            limits.idle_timeout,
        ) == 0,
{
}

/// A publisher with an identity gets a session that has no stream yet.
pub proof fn sessions_begin_without_streams(
    service: &NativeRelayService,
    identity: crate::records::IdentityPublic,
    admission: NativeAdmission,
    result: Result<PublisherSession, SessionRefusal>,
)
    requires
        call_ensures(NativeRelayService::publisher_session, (service, identity, admission), result),
    ensures
        result is Ok <==> identity.fingerprint is Some,
        result matches Ok(session) ==> session.identity == identity && Some(session.publisher_id)
            == identity.fingerprint && session.admission == admission && session.touched@.len()
            == 0,
{
}

/// A subscription is live from the last object that it was sent on, if there was one. A gap
/// that nothing closes ends it, and so does a deadline: with a word if a credential expired,
/// and without if nothing was said for too long.
pub proof fn subscriptions_end_for_a_reason(
    subscription: &Subscription,
    through: Option<u64>,
    before: u64,
    refusal: Option<SessionRefusal>,
    deadline: &ReadDeadline,
    passed: SessionRefusal,
)
    requires
        call_ensures(Subscription::live_marker, (subscription,), through),
        call_ensures(Subscription::gap_closed, (subscription, before), refusal),
        call_ensures(crate::subscription::deadline_passed, (deadline,), passed),
    ensures
        through is None <==> subscription.last_sequence == 0,
        through matches Some(last) ==> last == subscription.last_sequence,
        refusal is Some <==> subscription.last_sequence == before,
        refusal matches Some(refusal) ==> refusal.reply == Some(RelayErrorCode::HistoryUnavailable),
        *deadline is UntilIdle ==> passed.reply is None && passed.reason
            == ServiceError::IdleTimeout,
        !(*deadline is UntilIdle) ==> passed.reply == Some(RelayErrorCode::CredentialExpired)
            && passed.reason == ServiceError::CredentialExpired,
{
}

/// A mailbox that was written down is read back with every record as it was; a new one is
/// empty.
pub proof fn restored_mailboxes_are_the_same(
    max_record_bytes: usize,
    new: PairingStore,
    pairing: &PairingStore,
    rows: &Vec<PairRow>,
    agree: bool,
    copy: Vec<PairRow>,
    restored: PairingStore,
)
    requires
        pairing@.wf(),
        pairing@.max_record_bytes == max_record_bytes,
        call_ensures(PairingStore::open, (max_record_bytes,), new),
        call_ensures(PairingStore::rows, (pairing,), rows),
        call_ensures(PairingStore::rows_agree, (max_record_bytes, rows), agree),
        crate::pairing::rows_view(copy@) == crate::pairing::rows_view(rows@),
        call_ensures(PairingStore::restore, (max_record_bytes, copy), restored),
    ensures
        new@.rows.len() == 0,
        agree,
        restored@ == pairing@,
{
}

} // verus!

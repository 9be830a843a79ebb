//! What holds of the relay service as a whole, whatever its peers send.

use vstd::prelude::*;

use crate::records::{IdentityPublic, NativeObject};
use crate::service::{
    claimed, may_claim, publisher_step, resume_progress, session_wf, viewer_step,
    PublisherMessage, PublisherReply, PublisherSession, ServiceModel, SessionRefusal,
    ViewerMessage, ViewerReply, ViewerSession,
};
use crate::store_laws::{acknowledged_object_reads_back, other_streams_stay, StoreEvent};

verus! {

/// Two lists of streams have none in common.
pub open spec fn disjoint(a: Seq<u128>, b: Seq<u128>) -> bool {
    forall|i: int, j: int|
        0 <= i < a.len() && 0 <= j < b.len() ==> #[trigger] a[i] != #[trigger] b[j]
}

/// The claims of one session grow by a stream that nobody publishes, and the claims of
/// another stay as they were.
proof fn lemma_claim_is_exclusive(
    online: Seq<u128>,
    touched: Seq<u128>,
    other: Seq<u128>,
    stream_id: u128,
)
    requires
        may_claim(online, touched, stream_id),
        disjoint(touched, other),
        forall|i: int| 0 <= i < other.len() ==> online.contains(#[trigger] other[i]),
    ensures
        disjoint(claimed(touched, touched, stream_id), other),
        forall|i: int|
            0 <= i < other.len() ==> claimed(online, touched, stream_id).contains(
                #[trigger] other[i],
            ),
{
    let after = claimed(online, touched, stream_id);
    assert forall|i: int| 0 <= i < other.len() implies after.contains(#[trigger] other[i]) by {
        assert(online.contains(other[i]));
        let k = choose|k: int| 0 <= k < online.len() && online[k] == other[i];
        assert(after[k] == other[i]);
    }
    let own = claimed(touched, touched, stream_id);
    assert forall|i: int, j: int|
        0 <= i < own.len() && 0 <= j < other.len() implies #[trigger] own[i]
        != #[trigger] other[j] by {
        if i < touched.len() {
            assert(touched[i] != other[j]);
        } else {
            assert(online.contains(other[j]));
        }
    }
}

proof fn lemma_resume_is_exclusive(
    before: ServiceModel,
    identity: IdentityPublic,
    touched: Seq<u128>,
    streams: Seq<u128>,
    other: Seq<u128>,
)
    requires
        disjoint(touched, other),
        forall|i: int| 0 <= i < other.len() ==> before.online.contains(#[trigger] other[i]),
    ensures
        disjoint(resume_progress(before, identity, touched, streams).touched, other),
        forall|i: int|
            0 <= i < other.len() ==> resume_progress(
                before,
                identity,
                touched,
                streams,
            ).online.contains(#[trigger] other[i]),
    decreases streams.len(),
{
    if streams.len() > 0 {
        lemma_resume_is_exclusive(before, identity, touched, streams.drop_last(), other);
        let earlier = resume_progress(before, identity, touched, streams.drop_last());
        if may_claim(earlier.online, earlier.touched, streams.last()) {
            lemma_claim_is_exclusive(earlier.online, earlier.touched, other, streams.last());
        }
    }
}

/// A stream has one publisher at a time: whatever one session sends, it never gains a
/// stream that another connected session publishes, and the other keeps its streams.
pub proof fn sessions_never_share_a_stream(
    before: ServiceModel,
    session: PublisherSession,
    message: PublisherMessage,
    now_ms: i64,
    after: ServiceModel,
    touched: Seq<u128>,
    result: Result<PublisherReply, SessionRefusal>,
    other: Seq<u128>,
)
    requires
        publisher_step(before, session, message, now_ms, after, touched, result),
        session_wf(before, other),
        disjoint(session.touched@, other),
    ensures
        session_wf(after, other),
        disjoint(touched, other),
{
    match message {
        PublisherMessage::Resume { publisher_id, streams } => {
            lemma_resume_is_exclusive(before, session.identity, session.touched@, streams@, other);
        },
        PublisherMessage::Descriptor(descriptor) => {
            if may_claim(before.online, session.touched@, descriptor.stream_id) {
                lemma_claim_is_exclusive(
                    before.online,
                    session.touched@,
                    other,
                    descriptor.stream_id,
                );
            }
        },
        PublisherMessage::Object(object) => {
            if may_claim(before.online, session.touched@, object.header.stream_id) {
                lemma_claim_is_exclusive(
                    before.online,
                    session.touched@,
                    other,
                    object.header.stream_id,
                );
            }
        },
        _ => {},
    }
}

/// What is acknowledged is stored: when a publisher is told that an object is committed,
/// the store gives back the bytes that were sent.
pub proof fn acknowledged_means_stored(
    before: ServiceModel,
    session: PublisherSession,
    object: NativeObject,
    now_ms: i64,
    after: ServiceModel,
    touched: Seq<u128>,
    result: Result<PublisherReply, SessionRefusal>,
)
    requires
        before.wf(),
        publisher_step(
            before,
            session,
            PublisherMessage::Object(object),
            now_ms,
            after,
            touched,
            result,
        ),
        result is Ok,
    ensures
        result == Ok::<PublisherReply, SessionRefusal>(
            PublisherReply::PublishAck {
                stream_id: object.header.stream_id,
                committed_through: object.header.sequence,
                broadcast: !before.store.object_is_retry(object@),
            },
        ),
        after.store.stream(object.header.stream_id) is Some,
        after.store.stream(object.header.stream_id)->0.object_at(object.header.sequence) is Some,
        after.store.stream(object.header.stream_id)->0.object_at(
            object.header.sequence,
        )->0.encoded == object.encoded@,
{
    acknowledged_object_reads_back(before.store, object@, now_ms);
}

/// A message that ends a publisher's session stores nothing and queues nothing.
pub proof fn refused_messages_store_nothing(
    before: ServiceModel,
    session: PublisherSession,
    message: PublisherMessage,
    now_ms: i64,
    after: ServiceModel,
    touched: Seq<u128>,
    result: Result<PublisherReply, SessionRefusal>,
)
    requires
        publisher_step(before, session, message, now_ms, after, touched, result),
        result is Err,
    ensures
        after.store == before.store,
        after.pairing == before.pairing,
{
}

/// Viewers change no stream and claim none, and a viewer that is turned away, or whose
/// pairing record is refused, changes nothing at all.
pub proof fn viewers_change_no_stream(
    before: ServiceModel,
    session: ViewerSession,
    message: ViewerMessage,
    now_ms: i64,
    after: ServiceModel,
    result: Result<ViewerReply, SessionRefusal>,
)
    requires
        viewer_step(before, session, message, now_ms, after, result),
    ensures
        after.store == before.store,
        after.online == before.online,
        result matches Ok(ViewerReply::Refused(_)) ==> after == before,
        result is Err ==> after == before,
{
}

/// Whether a signature on a message is that of the publisher that the message names.
pub open spec fn signed_as_named(message: PublisherMessage) -> bool {
    match message {
        PublisherMessage::Object(object) => object.signer matches Some(signer)
            ==> signer.fingerprint == Some(object.header.publisher_id),
        PublisherMessage::KeyEnvelope(envelope) => envelope.signer matches Some(signer)
            ==> signer.fingerprint == Some(envelope.header.publisher_id),
        _ => true,
    }
}

/// Publishers change their own streams only: whatever one sends, the streams of every
/// other stay exactly as they were.
pub proof fn publishers_change_only_their_own_streams(
    before: ServiceModel,
    session: PublisherSession,
    message: PublisherMessage,
    now_ms: i64,
    after: ServiceModel,
    touched: Seq<u128>,
    result: Result<PublisherReply, SessionRefusal>,
    stream_id: u128,
)
    requires
        before.wf(),
        publisher_step(before, session, message, now_ms, after, touched, result),
        session.identity.fingerprint == Some(session.publisher_id),
        signed_as_named(message),
        before.store.stream(stream_id) is Some,
        before.store.stream(stream_id)->0.publisher_id != session.publisher_id,
    ensures
        after.store.stream(stream_id) == before.store.stream(stream_id),
{
    let stream = before.store.stream(stream_id)->0;
    assert(stream == before.store.streams[before.store.find(stream_id)->0]);
    assert(stream.wf());
    match message {
        PublisherMessage::Object(object) => {
            if object.header.stream_id != stream_id && after.store != before.store {
                other_streams_stay(
                    before.store,
                    StoreEvent::Object { object: object@, received_at_ms: now_ms },
                    after.store,
                    stream_id,
                );
            }
        },
        PublisherMessage::KeyEnvelope(envelope) => {
            if envelope.header.stream_id != stream_id && after.store != before.store {
                other_streams_stay(
                    before.store,
                    StoreEvent::Envelope { envelope: envelope@, received_at_ms: now_ms },
                    after.store,
                    stream_id,
                );
            }
        },
        PublisherMessage::Descriptor(descriptor) => {
            if descriptor.stream_id != stream_id && after.store != before.store {
                other_streams_stay(
                    before.store,
                    StoreEvent::Descriptor {
                        stream_id: descriptor.stream_id,
                        publisher: descriptor.publisher,
                        encoded: descriptor.encoded@,
                        valid: descriptor.valid,
                    },
                    after.store,
                    stream_id,
                );
            }
        },
        _ => {},
    }
}

} // verus!

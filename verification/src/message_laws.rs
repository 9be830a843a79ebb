//! What a message does is what the store and the mailbox do with what it carries. Each law
//! sets a session's answer beside the answer of the part that it speaks to.

use vstd::prelude::*;

use crate::pairing::{
    confirmations_view, decisions_view, offers_view, DecisionEvidence, PairingStore,
    PublisherPairingInbox, ViewerPairingInbox,
};
use crate::pairing_model::PairingError;
use crate::records::{
    KeyEnvelope, NativeObject, PairOffer, PairRequest, PublisherDecision, StreamDescriptor,
    ViewerConfirmation,
};
use crate::service::{
    inbox_envelopes, resume_progress, NativeRelayService, PublisherMessage, PublisherReply,
    PublisherSession, ServiceError, ServiceModel, SessionRefusal, ViewerMessage,
    ViewerReply, ViewerSession,
};
use crate::store::NativeStore;
use crate::store_model::{NativeCommit, StoreError, StreamModel};

verus! {

/// A published object is stored as the store stores it, at the time it came. The publisher is
/// told how far the store has committed, and live viewers are sent the object if the store
/// says that it is new.
pub proof fn objects_go_to_the_store(
    service: &mut NativeRelayService,
    session: &mut PublisherSession,
    message: &PublisherMessage,
    object: &NativeObject,
    now_ms: i64,
    result: Result<PublisherReply, SessionRefusal>,
    store: &mut NativeStore,
    stored: Result<NativeCommit, StoreError>,
)
    requires
        old(service)@.wf(),
        *message == PublisherMessage::Object(*object),
        call_ensures(
            NativeRelayService::publisher_message,
            (service, session, message, now_ms),
            result,
        ),
        object.header.publisher_id == old(session).publisher_id,
        old(session).touched@.contains(object.header.stream_id) || !old(service)@.online.contains(
            object.header.stream_id,
        ),
        old(store)@ == old(service)@.store,
        call_ensures(NativeStore::store_object, (store, object, now_ms), stored),
    ensures
        final(service)@.store == final(store)@,
        result is Ok <==> stored is Ok,
        stored matches Ok(commit) ==> result == Ok::<PublisherReply, SessionRefusal>(
            PublisherReply::PublishAck {
                stream_id: object.header.stream_id,
                committed_through: commit.committed_through,
                broadcast: commit.inserted,
            },
        ),
        stored matches Err(error) ==> result->Err_0.reason == ServiceError::Store(error)
            && result->Err_0.reply is None,
        final(session).touched@.contains(object.header.stream_id),
{
    let touched = old(session).touched@;
    assert(touched.push(object.header.stream_id)[touched.len() as int]
        == object.header.stream_id);
}

/// A description is stored as the store stores it, and claims its stream.
pub proof fn descriptions_go_to_the_store(
    service: &mut NativeRelayService,
    session: &mut PublisherSession,
    message: &PublisherMessage,
    descriptor: &StreamDescriptor,
    now_ms: i64,
    result: Result<PublisherReply, SessionRefusal>,
    store: &mut NativeStore,
    stored: Result<(), StoreError>,
)
    requires
        old(service)@.wf(),
        *message == PublisherMessage::Descriptor(*descriptor),
        call_ensures(
            NativeRelayService::publisher_message,
            (service, session, message, now_ms),
            result,
        ),
        descriptor.publisher == old(session).identity,
        old(session).touched@.contains(descriptor.stream_id) || !old(service)@.online.contains(
            descriptor.stream_id,
        ),
        old(store)@ == old(service)@.store,
        call_ensures(NativeStore::put_descriptor, (store, descriptor), stored),
    ensures
        result is Ok <==> stored is Ok,
        stored is Ok ==> result == Ok::<PublisherReply, SessionRefusal>(PublisherReply::Nothing),
        stored matches Err(error) ==> result->Err_0.reason == ServiceError::Store(error),
        stored is Err ==> final(service)@.store == old(service)@.store,
        final(session).touched@.contains(descriptor.stream_id),
        final(service)@.online.contains(descriptor.stream_id) || old(session).touched@.contains(
            descriptor.stream_id,
        ),
        final(service)@.pairing == old(service)@.pairing,
{
    let touched = old(session).touched@;
    assert(touched.push(descriptor.stream_id)[touched.len() as int] == descriptor.stream_id);
    let online = old(service)@.online;
    assert(online.push(descriptor.stream_id)[online.len() as int] == descriptor.stream_id);
}

/// An envelope is stored as the store stores it. Its viewer is sent it live if the store says
/// that it is new; no stream is claimed by it.
pub proof fn envelopes_go_to_the_store(
    service: &mut NativeRelayService,
    session: &mut PublisherSession,
    message: &PublisherMessage,
    envelope: &KeyEnvelope,
    now_ms: i64,
    result: Result<PublisherReply, SessionRefusal>,
    store: &mut NativeStore,
    stored: Result<bool, StoreError>,
)
    requires
        old(service)@.wf(),
        *message == PublisherMessage::KeyEnvelope(*envelope),
        call_ensures(
            NativeRelayService::publisher_message,
            (service, session, message, now_ms),
            result,
        ),
        envelope.header.publisher_id == old(session).publisher_id,
        old(store)@ == old(service)@.store,
        call_ensures(NativeStore::store_envelope, (store, envelope, now_ms), stored),
    ensures
        final(service)@.store == final(store)@,
        final(service)@.online == old(service)@.online,
        final(session).touched@ == old(session).touched@,
        stored matches Ok(new) ==> result == Ok::<PublisherReply, SessionRefusal>(
            PublisherReply::EnvelopeStored { broadcast: new },
        ),
        stored matches Err(error) ==> result is Err && result->Err_0.reason == ServiceError::Store(
            error,
        ),
{
}

/// A publisher's offer and its decision go to the mailbox, and are acknowledged under the
/// request that they answer.
pub proof fn answers_go_to_the_mailbox(
    service: &mut NativeRelayService,
    session: &mut PublisherSession,
    message: &PublisherMessage,
    offer: &PairOffer,
    verified: bool,
    now_ms: i64,
    result: Result<PublisherReply, SessionRefusal>,
    pairing: &mut PairingStore,
    stored: Result<bool, PairingError>,
)
    requires
        old(service)@.wf(),
        *message == (PublisherMessage::PairOffer { offer: *offer, verified }),
        call_ensures(
            NativeRelayService::publisher_message,
            (service, session, message, now_ms),
            result,
        ),
        offer.publisher == old(session).identity,
        old(pairing)@ == old(service)@.pairing,
        call_ensures(PairingStore::store_offer, (pairing, offer, now_ms, verified), stored),
    ensures
        final(service)@.pairing == final(pairing)@,
        final(service)@.store == old(service)@.store,
        stored is Ok ==> result == Ok::<PublisherReply, SessionRefusal>(
            PublisherReply::PairingAck { request_id: offer.request_id },
        ),
        stored matches Err(error) ==> result is Err && result->Err_0.reason
            == ServiceError::Pairing(error),
{
}

/// A decision goes to the mailbox with the evidence for it, and is acknowledged under its
/// request.
pub proof fn decisions_go_to_the_mailbox(
    service: &mut NativeRelayService,
    session: &mut PublisherSession,
    message: &PublisherMessage,
    decision: &PublisherDecision,
    evidence: DecisionEvidence,
    now_ms: i64,
    result: Result<PublisherReply, SessionRefusal>,
    pairing: &mut PairingStore,
    stored: Result<bool, PairingError>,
)
    requires
        old(service)@.wf(),
        *message == (PublisherMessage::PairDecision { decision: *decision, evidence }),
        call_ensures(
            NativeRelayService::publisher_message,
            (service, session, message, now_ms),
            result,
        ),
        old(pairing)@ == old(service)@.pairing,
        call_ensures(
            PairingStore::store_decision,
            (pairing, decision, now_ms, &evidence),
            stored,
        ),
    ensures
        final(service)@.pairing == final(pairing)@,
        final(service)@.store == old(service)@.store,
        stored is Ok ==> result == Ok::<PublisherReply, SessionRefusal>(
            PublisherReply::PairingAck { request_id: decision.request_id },
        ),
        stored matches Err(error) ==> result is Err && result->Err_0.reason
            == ServiceError::Pairing(error),
{
}

/// A publisher's inbox is what the mailbox holds for it.
pub proof fn publishers_fetch_their_mailbox(
    service: &mut NativeRelayService,
    session: &mut PublisherSession,
    message: &PublisherMessage,
    unverified: &Vec<[u8; 32]>,
    now_ms: i64,
    result: Result<PublisherReply, SessionRefusal>,
    pairing: &mut PairingStore,
    fetched: Result<PublisherPairingInbox, PairingError>,
    i: int,
)
    requires
        old(service)@.wf(),
        *message == (PublisherMessage::FetchPairingInbox { unverified: *unverified }),
        call_ensures(
            NativeRelayService::publisher_message,
            (service, session, message, now_ms),
            result,
        ),
        old(session).identity.fingerprint == Some(old(session).publisher_id),
        old(pairing)@ == old(service)@.pairing,
        call_ensures(
            PairingStore::publisher_inbox,
            (pairing, &old(session).identity, now_ms, unverified),
            fetched,
        ),
    ensures
        final(service)@.pairing == final(pairing)@,
        result is Ok <==> fetched is Ok,
        fetched matches Ok(held) ==> (result matches Ok(PublisherReply::PairingInbox(inbox))
            && inbox.requests@.len() == held.requests@.len() && (0 <= i < held.requests@.len()
            ==> inbox.requests@[i].request@ == held.requests@[i].request@
            && inbox.requests@[i].source_addr@ == held.requests@[i].source_addr@
            && inbox.requests@[i].received_at_ms == held.requests@[i].received_at_ms)
            && confirmations_view(inbox.confirmations@) == confirmations_view(
            held.confirmations@,
        )),
{
}

/// A viewer's request goes to the mailbox, and is acknowledged under its identifier.
pub proof fn requests_go_to_the_mailbox(
    service: &mut NativeRelayService,
    session: &ViewerSession,
    message: &ViewerMessage,
    request: &PairRequest,
    source_addr: &String,
    verified: bool,
    now_ms: i64,
    result: Result<ViewerReply, SessionRefusal>,
    pairing: &mut PairingStore,
    stored: Result<bool, PairingError>,
)
    requires
        old(service)@.wf(),
        *message == (ViewerMessage::PairRequest {
            request: *request,
            source_addr: *source_addr,
            verified,
        }),
        call_ensures(
            NativeRelayService::viewer_message,
            (service, session, message, now_ms),
            result,
        ),
        request.viewer == session.identity,
        request.request_id is Some,
        old(service)@.store.stream(request.stream_id) matches Some(stream) && stream.publisher
            == request.publisher,
        old(pairing)@ == old(service)@.pairing,
        call_ensures(
            PairingStore::enqueue_request,
            (pairing, request, source_addr, now_ms, verified),
            stored,
        ),
    ensures
        stored is Ok ==> result == Ok::<ViewerReply, SessionRefusal>(
            ViewerReply::PairingQueued { request_id: request.request_id->0 },
        ),
        stored matches Err(error) ==> result is Err && result->Err_0.reason
            == ServiceError::Pairing(error),
        stored is Err || stored == Ok::<bool, PairingError>(false) ==> final(service)@.pairing
            == final(pairing)@,
        stored == Ok::<bool, PairingError>(true) ==> final(service)@.pairing.rows.len()
            == final(pairing)@.rows.len(),
{
}

/// A viewer's confirmation goes to the mailbox, and is acknowledged under its request.
pub proof fn confirmations_go_to_the_mailbox(
    service: &mut NativeRelayService,
    session: &ViewerSession,
    message: &ViewerMessage,
    confirmation: &ViewerConfirmation,
    verified: bool,
    now_ms: i64,
    result: Result<ViewerReply, SessionRefusal>,
    pairing: &mut PairingStore,
    stored: Result<bool, PairingError>,
)
    requires
        old(service)@.wf(),
        *message == (ViewerMessage::PairConfirmation { confirmation: *confirmation, verified }),
        call_ensures(
            NativeRelayService::viewer_message,
            (service, session, message, now_ms),
            result,
        ),
        session.identity.fingerprint == Some(confirmation.viewer_id),
        old(pairing)@ == old(service)@.pairing,
        call_ensures(
            PairingStore::store_confirmation,
            (pairing, confirmation, now_ms, verified),
            stored,
        ),
    ensures
        final(service)@.pairing == final(pairing)@,
        stored is Ok ==> result == Ok::<ViewerReply, SessionRefusal>(
            ViewerReply::PairingQueued { request_id: confirmation.request_id },
        ),
        stored matches Err(error) ==> result is Err && result->Err_0.reason
            == ServiceError::Pairing(error),
{
}

proof fn lemma_inbox(streams: Seq<StreamModel>, recipient_id: [u8; 32], i: int, k: int)
    requires
        0 <= i < streams.len(),
        0 <= k < 4_096,
        k < crate::store_model::envelopes_for(streams[i].groups, recipient_id).len(),
    ensures
        inbox_envelopes(streams, recipient_id).contains(
            crate::store_model::delivered_envelope(
                crate::store_model::envelopes_for(streams[i].groups, recipient_id)[k],
                streams[i].publisher,
            ),
        ),
    decreases streams.len(),
{
    let rest = streams.drop_last();
    let before = inbox_envelopes(rest, recipient_id);
    let all = inbox_envelopes(streams, recipient_id);
    let wanted = crate::store_model::delivered_envelope(
        crate::store_model::envelopes_for(streams[i].groups, recipient_id)[k],
        streams[i].publisher,
    );
    if i < rest.len() {
        assert(rest[i] == streams[i]);
        lemma_inbox(rest, recipient_id, i, k);
        let j = choose|j: int| 0 <= j < before.len() && before[j] == wanted;
        assert(all[j] == wanted);
    } else {
        assert(all[before.len() + k] == wanted);
    }
}

/// A viewer's inbox holds what the mailbox has for it, and of every stream the envelopes that
/// the store lists for it.
pub proof fn viewers_fetch_mailbox_and_envelopes(
    service: &mut NativeRelayService,
    session: &ViewerSession,
    message: &ViewerMessage,
    now_ms: i64,
    result: Result<ViewerReply, SessionRefusal>,
    pairing: &mut PairingStore,
    fetched: Result<ViewerPairingInbox, PairingError>,
    viewer_id: [u8; 32],
    store: &NativeStore,
    i: int,
    listed: Result<Vec<KeyEnvelope>, StoreError>,
    k: int,
)
    requires
        old(service)@.wf(),
        *message is FetchInbox,
        call_ensures(
            NativeRelayService::viewer_message,
            (service, session, message, now_ms),
            result,
        ),
        session.identity.fingerprint == Some(viewer_id),
        !crate::bytes::is_zero(viewer_id),
        old(pairing)@ == old(service)@.pairing,
        call_ensures(PairingStore::viewer_inbox, (pairing, &session.identity, now_ms), fetched),
        store@ == old(service)@.store,
        0 <= i < store@.streams.len(),
        call_ensures(
            NativeStore::list_envelopes,
            (store, store@.streams[i].stream_id, viewer_id, 4_096),
            listed,
        ),
    ensures
        final(service)@.pairing == final(pairing)@,
        final(service)@.store == old(service)@.store,
        result matches Ok(ViewerReply::Inbox { pairing: inbox, envelopes, failed }) && {
            &&& failed is None
            &&& fetched matches Ok(held) && offers_view(inbox.offers@) == offers_view(held.offers@)
                && decisions_view(inbox.decisions@) == decisions_view(held.decisions@)
            &&& listed matches Ok(list) && (0 <= k < list@.len() ==> exists|j: int|
                0 <= j < envelopes@.len() && (#[trigger] envelopes@[j])@ == list@[k]@)
        },
{
    crate::store::lemma_find(store@, store@.streams[i].stream_id, i);
    if let Ok(ViewerReply::Inbox { pairing: inbox, envelopes, failed }) = result {
        if let Ok(list) = listed {
            if 0 <= k < list@.len() {
                let all = crate::store_model::envelopes_for(store@.streams[i].groups, viewer_id);
                lemma_inbox(store@.streams, viewer_id, i, k);
                let wanted = crate::store_model::delivered_envelope(
                    all[k],
                    store@.streams[i].publisher,
                );
                let sent = crate::service::sent_envelopes(envelopes@);
                assert(sent.contains(wanted));
                let j = choose|j: int| 0 <= j < sent.len() && sent[j] == wanted;
                assert(envelopes@[j]@ == wanted);
            }
        }
    }
}

proof fn lemma_resume_refused(
    before: ServiceModel,
    identity: crate::records::IdentityPublic,
    touched: Seq<u128>,
    streams: Seq<u128>,
    i: int,
)
    requires
        0 <= i < streams.len(),
        before.store.stream(streams[i]) matches Some(stream) && stream.publisher != identity,
    ensures
        resume_progress(before, identity, touched, streams).failed is Some,
    decreases streams.len(),
{
    let rest = streams.drop_last();
    if i < rest.len() {
        assert(rest[i] == streams[i]);
        lemma_resume_refused(before, identity, touched, rest, i);
    }
}

proof fn lemma_resume_busy(
    before: ServiceModel,
    identity: crate::records::IdentityPublic,
    touched: Seq<u128>,
    streams: Seq<u128>,
    i: int,
)
    requires
        0 <= i < streams.len(),
        before.online.contains(streams[i]),
        !touched.contains(streams[i]),
    ensures
        resume_progress(before, identity, touched, streams).failed is Some,
        forall|id: u128|
            before.online.contains(id) && !touched.contains(id)
                ==> !(#[trigger] resume_progress(before, identity, touched, streams).touched.contains(
                id,
            )),
    decreases streams.len(),
{
    lemma_resume_keeps(before, identity, touched, streams);
    let rest = streams.drop_last();
    lemma_resume_keeps(before, identity, touched, rest);
    if i < rest.len() {
        assert(rest[i] == streams[i]);
        lemma_resume_busy(before, identity, touched, rest, i);
    }
}

proof fn lemma_resume_keeps(
    before: ServiceModel,
    identity: crate::records::IdentityPublic,
    touched: Seq<u128>,
    streams: Seq<u128>,
)
    ensures
        forall|id: u128|
            before.online.contains(id) && !touched.contains(id)
                ==> !(#[trigger] resume_progress(before, identity, touched, streams).touched.contains(
                id,
            )),
        forall|id: u128|
            before.online.contains(id) ==> #[trigger] resume_progress(
                before,
                identity,
                touched,
                streams,
            ).online.contains(id),
    decreases streams.len(),
{
    if streams.len() > 0 {
        let rest = streams.drop_last();
        lemma_resume_keeps(before, identity, touched, rest);
        let earlier = resume_progress(before, identity, touched, rest);
        let now = resume_progress(before, identity, touched, streams);
        let last = streams.last();
        assert forall|id: u128| before.online.contains(id) && !touched.contains(id) implies !(
        #[trigger] now.touched.contains(id)) by {
            assert(!earlier.touched.contains(id));
            assert(earlier.online.contains(id));
            if now.touched.contains(id) {
                let k = choose|k: int| 0 <= k < now.touched.len() && now.touched[k] == id;
                if k < earlier.touched.len() {
                    assert(earlier.touched[k] == id);
                }
            }
        }
        assert forall|id: u128| before.online.contains(id) implies #[trigger] now.online.contains(
            id,
        ) by {
            assert(earlier.online.contains(id));
            let k = choose|k: int| 0 <= k < earlier.online.len() && earlier.online[k] == id;
            assert(now.online[k] == id);
        }
    }
}

/// A session cannot resume another publisher's stream, nor one that another session has: it
/// ends, and nothing stored changes.
pub proof fn foreign_streams_are_not_resumed(
    service: &mut NativeRelayService,
    session: &mut PublisherSession,
    message: &PublisherMessage,
    streams: Vec<u128>,
    now_ms: i64,
    result: Result<PublisherReply, SessionRefusal>,
    i: int,
)
    requires
        old(service)@.wf(),
        *message == (PublisherMessage::Resume {
            publisher_id: old(session).publisher_id,
            streams,
        }),
        call_ensures(
            NativeRelayService::publisher_message,
            (service, session, message, now_ms),
            result,
        ),
        0 <= i < streams@.len(),
        (old(service)@.store.stream(streams@[i]) matches Some(stream) && stream.publisher != old(session).identity) || (old(service)@.online.contains(streams@[i]) && !old(session).touched@.contains(streams@[i])),
    ensures
        result is Err,
        final(service)@.store == old(service)@.store,
        final(service)@.pairing == old(service)@.pairing,
{
    if old(service)@.store.stream(streams@[i]) matches Some(stream) && stream.publisher
        != old(session).identity {
        lemma_resume_refused(
            old(service)@,
            old(session).identity,
            old(session).touched@,
            streams@,
            i,
        );
    } else {
        lemma_resume_busy(
            old(service)@,
            old(session).identity,
            old(session).touched@,
            streams@,
            i,
        );
    }
}

} // verus!

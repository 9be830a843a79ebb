//! What holds of the store as a whole, whatever is sent to it.

use vstd::prelude::*;

use crate::bytes::is_zero;
use crate::records::{IdentityPublic, KeyEnvelopeHeader, SubscriptionStart};
use crate::store::lemma_find;
use crate::store_lemmas::{
    lemma_completed_groups_wf, lemma_evict_count_bounded, lemma_group_index,
    lemma_envelope_of, lemma_groups_bytes_skip, lemma_object_at, lemma_publisher_bytes_insert,
    lemma_publisher_bytes_update, lemma_retained_run,
    lemma_streams_bytes_insert, lemma_streams_bytes_member, lemma_streams_bytes_update,
    lemma_with_envelope_wf, lemma_with_object_wf, lemma_with_stream_wf, lemma_without_oldest_wf,
};
use crate::store_model::{
    anchor_group, anchor_of, bounds_of, cutoff_at, evict_count, fresh_stream, groups_bytes,
    last_group_at, latest_group_at, listing_start, live_anchor_of, outlived,
    publisher_bytes, publisher_streams, streams_agree, streams_bytes, EnvelopeModel, GroupModel, ObjectModel,
    SentEnvelope, SentObject, StoreError, StoreModel, StreamModel, MAX_DURABLE,
};

verus! {

/// Everything that changes a store.
pub enum StoreEvent {
    /// A publisher sent an object.
    Object {
        /// The object.
        object: SentObject,
        /// Relay receive time.
        received_at_ms: i64,
    },
    /// A publisher sent an envelope.
    Envelope {
        /// The envelope.
        envelope: SentEnvelope,
        /// Relay receive time.
        received_at_ms: i64,
    },
    /// Periodic retention ran.
    Retention {
        /// The time it ran at.
        now_ms: i64,
    },
    /// A publisher session ended.
    Finalize {
        /// The stream it published.
        stream_id: u128,
    },
    /// A publisher described a stream.
    Descriptor {
        /// The stream.
        stream_id: u128,
        /// Its publisher.
        publisher: IdentityPublic,
        /// Encoded descriptor.
        encoded: Seq<u8>,
        /// Whether fields and signature are valid.
        valid: bool,
    },
}

/// Whether `after` is what an event makes of a store.
pub open spec fn follows(before: StoreModel, event: StoreEvent, after: StoreModel) -> bool {
    match event {
        StoreEvent::Object { object, received_at_ms } => after == before.after_object(
            object,
            received_at_ms,
        ),
        StoreEvent::Envelope { envelope, received_at_ms } => after == before.after_envelope(
            envelope,
            received_at_ms,
        ),
        StoreEvent::Retention { now_ms } => after == before.after_retention(now_ms),
        StoreEvent::Finalize { stream_id } => after == before.after_finalize(stream_id),
        StoreEvent::Descriptor { stream_id, publisher, encoded, valid } => before.describes(
            stream_id,
            publisher,
            encoded,
            valid,
            after,
        ),
    }
}

/// How one stream can differ after one event: it keeps its identifier and its owner, its
/// high-water mark does not fall, and the retained content of a sequence does not change.
pub open spec fn evolves(before: StreamModel, after: StreamModel) -> bool {
    &&& after.stream_id == before.stream_id
    &&& after.publisher_id == before.publisher_id
    &&& before.high_water <= after.high_water
    &&& forall|sequence: u64|
        before.object_at(sequence) is Some && (#[trigger] after.object_at(sequence)) is Some
            ==> after.object_at(sequence) == before.object_at(sequence)
}

/// Replacing one stream leaves the others where they are.
pub proof fn lemma_stream_stays(store: StoreModel, index: int, stream: StreamModel, stream_id: u128)
    requires
        store.wf(),
        store.with_stream(index, stream).wf(),
        0 <= index < store.streams.len(),
        stream.stream_id == store.streams[index].stream_id,
        store.stream(stream_id) is Some,
    ensures
        store.with_stream(index, stream).stream(stream_id) is Some,
        stream_id == stream.stream_id ==> store.stream(stream_id) == Some(store.streams[index])
            && store.with_stream(index, stream).stream(stream_id) == Some(stream),
        stream_id != stream.stream_id ==> store.with_stream(index, stream).stream(stream_id)
            == store.stream(stream_id),
{
    let i = store.find(stream_id)->0;
    assert(store.streams[i].stream_id == stream_id);
    lemma_find(store, stream_id, i);
    let after = store.with_stream(index, stream);
    assert(after.streams[i].stream_id == stream_id);
    lemma_find(after, stream_id, i);
    if stream_id == stream.stream_id {
        lemma_find(store, stream_id, index);
    }
}

/// The groups that stay are those of the stream, so their content is.
proof fn lemma_pruned_evolves(stream: StreamModel, count: nat)
    requires
        stream.wf(),
        count <= stream.complete_count(),
    ensures
        evolves(stream, stream.without_oldest(count)),
{
    let kept = stream.without_oldest(count);
    lemma_without_oldest_wf(stream, count);
    assert forall|sequence: u64|
        stream.object_at(sequence) is Some && (#[trigger] kept.object_at(sequence))
            is Some implies kept.object_at(sequence) == stream.object_at(sequence) by {
        let i = choose|i: int|
            0 <= i < kept.groups.len() && (#[trigger] kept.groups[i]).first_sequence <= sequence
                <= kept.groups[i].last_sequence;
        assert(kept.groups[i] == stream.groups[i + count]);
        lemma_object_at(stream, sequence, i + count);
    }
}

/// Only complete groups are due.
pub proof fn lemma_due_bounded(store: StoreModel, stream: StreamModel, now_ms: i64)
    requires
        stream.wf(),
    ensures
        store.due_groups(stream, now_ms) <= stream.complete_count(),
{
    let due = store.due_groups(stream, now_ms);
    lemma_evict_count_bounded(
        stream.groups,
        store.retention_bytes,
        cutoff_at(store.retention_age_ms, now_ms),
    );
    if due > stream.complete_count() {
        assert(stream.groups[stream.groups.len() - 1].complete);
    }
}

proof fn lemma_evolves_transitive(a: StreamModel, b: StreamModel, c: StreamModel)
    requires
        evolves(a, b),
        evolves(b, c),
        forall|sequence: u64|
            (#[trigger] c.object_at(sequence)) is Some && a.object_at(sequence) is Some
                ==> b.object_at(sequence) is Some,
    ensures
        evolves(a, c),
{
    assert forall|sequence: u64|
        a.object_at(sequence) is Some && (#[trigger] c.object_at(sequence)) is Some implies
        c.object_at(sequence) == a.object_at(sequence) by {
        assert(b.object_at(sequence) is Some);
    }
}

/// Without its oldest groups a stream retains nothing that it did not retain before.
proof fn lemma_pruned_retains_less(stream: StreamModel, count: nat, sequence: u64)
    requires
        stream.wf(),
        count <= stream.complete_count(),
    ensures
        stream.without_oldest(count).retains(sequence) ==> stream.retains(sequence),
{
    let kept = stream.without_oldest(count);
    if kept.retains(sequence) {
        let i = choose|i: int|
            0 <= i < kept.groups.len() && (#[trigger] kept.groups[i]).first_sequence <= sequence
                <= kept.groups[i].last_sequence;
        assert(kept.groups[i] == stream.groups[i + count]);
    }
}

/// A new object leaves what is retained as it was.
proof fn lemma_grown_by_object_evolves(
    store: StoreModel,
    object: SentObject,
    received_at_ms: i64,
)
    requires
        store.wf(),
        store.object_refusal(object) is None,
        !store.object_is_retry(object),
    ensures
        store.find(object.header.stream_id) is Some,
        0 <= store.find(object.header.stream_id)->0 < store.streams.len(),
        ({
            let index = store.find(object.header.stream_id)->0;
            let stream = store.streams[index];
            let grown = store.grown_by_object(object, received_at_ms);
            &&& stream.stream_id == object.header.stream_id
            &&& store.stream(object.header.stream_id) == Some(stream)
            &&& grown.wf()
            &&& groups_bytes(grown.groups) == groups_bytes(stream.groups) + object.encoded.len()
            &&& streams_bytes(store.streams) + object.encoded.len() <= MAX_DURABLE
            &&& evolves(stream, grown)
            &&& forall|sequence: u64|
                (#[trigger] stream.object_at(sequence)) is Some ==> grown.object_at(sequence)
                    == stream.object_at(sequence)
            &&& grown.object_at(object.header.sequence) == Some(
                ObjectModel { header: object.header, encoded: object.encoded, received_at_ms },
            )
        }),
{
    let index = store.find(object.header.stream_id)->0;
    let stream = store.streams[index];
    assert(stream.stream_id == object.header.stream_id);
    assert(stream.wf());
    let new_object = ObjectModel {
        header: object.header,
        encoded: object.encoded,
        received_at_ms,
    };
    let grown = store.grown_by_object(object, received_at_ms);
    lemma_streams_bytes_member(store.streams, index);
    lemma_with_object_wf(stream, new_object);
    let last = grown.groups.len() - 1;
    assert(grown.groups[last].objects.last() == new_object);
    assert(grown.groups[last].wf());
    assert(grown.groups[last].last_sequence == object.header.sequence);
    assert(grown.groups[last].objects[object.header.sequence - grown.groups[last].first_sequence]
        == new_object);
    lemma_object_at(grown, object.header.sequence, last);
    assert forall|sequence: u64| (#[trigger] stream.object_at(sequence)) is Some implies
        grown.object_at(sequence) == stream.object_at(sequence) by {
        let i = choose|i: int|
            0 <= i < stream.groups.len() && (#[trigger] stream.groups[i]).first_sequence
                <= sequence <= stream.groups[i].last_sequence;
        assert(stream.groups[i].wf());
        assert(grown.groups[i].first_sequence == stream.groups[i].first_sequence);
        assert(stream.groups[i].last_sequence <= grown.groups[i].last_sequence) by {
            if stream.continues_group(object.header) && i == stream.groups.len() - 1 {
                assert(stream.groups[i].last_sequence == stream.high_water);
            }
        }
        lemma_object_at(stream, sequence, i);
        lemma_object_at(grown, sequence, i);
        let k = sequence - stream.groups[i].first_sequence;
        assert(grown.groups[i].objects[k] == stream.groups[i].objects[k]);
    }
}

/// A new envelope leaves the objects as they were.
proof fn lemma_grown_by_envelope_evolves(
    store: StoreModel,
    envelope: SentEnvelope,
    received_at_ms: i64,
)
    requires
        store.wf(),
        store.envelope_refusal(envelope) is None,
        !store.envelope_is_retry(envelope),
    ensures
        store.find(envelope.header.stream_id) is Some,
        0 <= store.find(envelope.header.stream_id)->0 < store.streams.len(),
        ({
            let index = store.find(envelope.header.stream_id)->0;
            let stream = store.streams[index];
            let grown = store.grown_by_envelope(envelope, received_at_ms);
            &&& stream.stream_id == envelope.header.stream_id
            &&& store.stream(envelope.header.stream_id) == Some(stream)
            &&& grown.wf()
            &&& groups_bytes(grown.groups) == groups_bytes(stream.groups) + envelope.encoded.len()
            &&& streams_bytes(store.streams) + envelope.encoded.len() <= MAX_DURABLE
            &&& evolves(stream, grown)
            &&& forall|sequence: u64|
                (#[trigger] stream.object_at(sequence)) is Some ==> grown.object_at(sequence)
                    is Some
        }),
{
    let index = store.find(envelope.header.stream_id)->0;
    let stream = store.streams[index];
    assert(stream.stream_id == envelope.header.stream_id);
    assert(stream.wf());
    let group = stream.group_index(envelope.header.epoch_id, envelope.header.key_group_id)->0;
    assert(stream.groups[group].is_named(envelope.header.epoch_id, envelope.header.key_group_id));
    let new_envelope = EnvelopeModel {
        header: envelope.header,
        encoded: envelope.encoded,
        received_at_ms,
    };
    let grown = store.grown_by_envelope(envelope, received_at_ms);
    lemma_streams_bytes_member(store.streams, index);
    lemma_with_envelope_wf(stream, group, new_envelope);
    assert forall|sequence: u64| (#[trigger] stream.object_at(sequence)) is Some implies
        grown.object_at(sequence) == stream.object_at(sequence) by {
        let i = choose|i: int|
            0 <= i < stream.groups.len() && (#[trigger] stream.groups[i]).first_sequence
                <= sequence <= stream.groups[i].last_sequence;
        lemma_object_at(stream, sequence, i);
        assert(grown.groups[i].objects == stream.groups[i].objects);
        lemma_object_at(grown, sequence, i);
    }
}

/// Whatever happens, a well-formed store stays well formed; a stream stays, keeps its
/// owner and the content of its sequences, and its high-water mark does not fall.
pub proof fn every_event_preserves_streams(
    before: StoreModel,
    event: StoreEvent,
    after: StoreModel,
    stream_id: u128,
)
    requires
        before.wf(),
        follows(before, event, after),
        before.stream(stream_id) is Some,
    ensures
        after.wf(),
        after.stream(stream_id) is Some,
        evolves(before.stream(stream_id)->0, after.stream(stream_id)->0),
{
    match event {
        StoreEvent::Object { object, received_at_ms } => {
            if before.object_refusal(object) is None && !before.object_is_retry(object) {
                lemma_grown_by_object_evolves(before, object, received_at_ms);
                let index = before.find(object.header.stream_id)->0;
                let stream = before.streams[index];
                let grown = before.grown_by_object(object, received_at_ms);
                lemma_prune_step(before, index, grown, received_at_ms, stream_id);
            }
        },
        StoreEvent::Envelope { envelope, received_at_ms } => {
            if before.envelope_refusal(envelope) is None && !before.envelope_is_retry(envelope) {
                lemma_grown_by_envelope_evolves(before, envelope, received_at_ms);
                let index = before.find(envelope.header.stream_id)->0;
                let grown = before.grown_by_envelope(envelope, received_at_ms);
                lemma_prune_step(before, index, grown, received_at_ms, stream_id);
            }
        },
        StoreEvent::Retention { now_ms } => {
            lemma_retention_step(before, now_ms);
            let i = before.find(stream_id)->0;
            assert(before.streams[i].stream_id == stream_id);
            lemma_find(before, stream_id, i);
            assert(after.streams[i].stream_id == stream_id);
            lemma_find(after, stream_id, i);
            lemma_due_bounded(before, before.streams[i], now_ms);
            lemma_pruned_evolves(
                before.streams[i],
                before.due_groups(before.streams[i], now_ms),
            );
        },
        StoreEvent::Finalize { stream_id: ended } => {
            if let Some(index) = before.find(ended) {
                let stream = before.streams[index];
                assert(stream.wf());
                lemma_completed_groups_wf(stream);
                lemma_with_stream_wf(before, index, stream.finalized());
                lemma_stream_stays(before, index, stream.finalized(), stream_id);
                assert(evolves(stream, stream.finalized())) by {
                    let closed = stream.finalized();
                    assert forall|sequence: u64|
                        stream.object_at(sequence) is Some && (
                        #[trigger] closed.object_at(sequence)) is Some implies closed.object_at(
                        sequence,
                    ) == stream.object_at(sequence) by {
                        let i = choose|i: int|
                            0 <= i < stream.groups.len() && (
                            #[trigger] stream.groups[i]).first_sequence <= sequence
                                <= stream.groups[i].last_sequence;
                        lemma_object_at(stream, sequence, i);
                        assert(closed.groups[i].objects == stream.groups[i].objects);
                        lemma_object_at(closed, sequence, i);
                    }
                }
            }
        },
        StoreEvent::Descriptor { stream_id: described, publisher, encoded, valid } => {
            lemma_descriptor_step(before, described, publisher, encoded, valid, after, stream_id);
        },
    }
}

/// Replacing a stream by a grown and then pruned one keeps the store in order.
proof fn lemma_prune_step(
    store: StoreModel,
    index: int,
    grown: StreamModel,
    now_ms: i64,
    stream_id: u128,
)
    requires
        store.wf(),
        0 <= index < store.streams.len(),
        grown.wf(),
        evolves(store.streams[index], grown),
        forall|sequence: u64|
            (#[trigger] store.streams[index].object_at(sequence)) is Some ==> grown.object_at(
                sequence,
            ) is Some,
        streams_bytes(store.streams) - groups_bytes(store.streams[index].groups) + groups_bytes(
            grown.groups,
        ) <= MAX_DURABLE,
        store.stream(stream_id) is Some,
    ensures
        store.with_stream(index, store.pruned(grown, now_ms)).wf(),
        store.with_stream(index, store.pruned(grown, now_ms)).stream(stream_id) is Some,
        evolves(
            store.stream(stream_id)->0,
            store.with_stream(index, store.pruned(grown, now_ms)).stream(stream_id)->0,
        ),
{
    let stream = store.streams[index];
    let pruned = store.pruned(grown, now_ms);
    let due = store.due_groups(grown, now_ms);
    lemma_due_bounded(store, grown, now_ms);
    lemma_without_oldest_wf(grown, due);
    lemma_pruned_evolves(grown, due);
    lemma_groups_bytes_skip(grown.groups, due as int);
    lemma_with_stream_wf(store, index, pruned);
    lemma_stream_stays(store, index, pruned, stream_id);
    assert forall|sequence: u64|
        (#[trigger] pruned.object_at(sequence)) is Some && stream.object_at(sequence)
            is Some implies grown.object_at(sequence) is Some by {
        lemma_pruned_retains_less(grown, due, sequence);
    }
    lemma_evolves_transitive(stream, grown, pruned);
}

/// Retention on every stream keeps the store in order.
proof fn lemma_retention_step(store: StoreModel, now_ms: i64)
    requires
        store.wf(),
    ensures
        store.after_retention(now_ms).wf(),
{
    let after = store.after_retention(now_ms);
    assert forall|i: int| 0 <= i < after.streams.len() implies (
    #[trigger] after.streams[i]).wf() by {
        assert(store.streams[i].wf());
        lemma_due_bounded(store, store.streams[i], now_ms);
        lemma_without_oldest_wf(store.streams[i], store.due_groups(store.streams[i], now_ms));
    }
    assert forall|i: int, j: int| 0 <= i < j < after.streams.len() implies (
    #[trigger] after.streams[i]).stream_id < (#[trigger] after.streams[j]).stream_id by {
        assert(store.streams[i].stream_id < store.streams[j].stream_id);
    }
    lemma_pruned_bytes(store, store.streams, now_ms);
}

proof fn lemma_pruned_bytes(store: StoreModel, streams: Seq<StreamModel>, now_ms: i64)
    requires
        forall|i: int| 0 <= i < streams.len() ==> (#[trigger] streams[i]).wf(),
    ensures
        streams_bytes(
            streams.map_values(|stream: StreamModel| store.pruned(stream, now_ms)),
        ) <= streams_bytes(streams),
    decreases streams.len(),
{
    let prune = |stream: StreamModel| store.pruned(stream, now_ms);
    let pruned = streams.map_values(prune);
    if streams.len() > 0 {
        let last = streams.last();
        assert(last.wf());
        lemma_pruned_bytes(store, streams.drop_last(), now_ms);
        assert(pruned.drop_last() =~= streams.drop_last().map_values(prune));
        lemma_due_bounded(store, last, now_ms);
        lemma_groups_bytes_skip(last.groups, store.due_groups(last, now_ms) as int);
    }
}

proof fn lemma_descriptor_step(
    before: StoreModel,
    described: u128,
    publisher: IdentityPublic,
    encoded: Seq<u8>,
    valid: bool,
    after: StoreModel,
    stream_id: u128,
)
    requires
        before.wf(),
        before.describes(described, publisher, encoded, valid, after),
    ensures
        after.wf(),
        before.stream(stream_id) is Some ==> after.stream(stream_id) is Some && evolves(
            before.stream(stream_id)->0,
            after.stream(stream_id)->0,
        ),
{
    if before.descriptor_refusal(described, publisher, valid) is None {
        match before.find(described) {
            Some(index) => {
                let stream = before.streams[index];
                if stream.descriptor != encoded {
                    let renewed = StreamModel { publisher, descriptor: encoded, ..stream };
                    assert(stream.wf());
                    lemma_with_stream_wf(before, index, renewed);
                    assert forall|sequence: u64| #[trigger]
                        renewed.object_at(sequence) == stream.object_at(sequence) by {
                        assert(renewed.groups == stream.groups);
                        if stream.retains(sequence) {
                            let i = choose|i: int|
                                0 <= i < stream.groups.len() && (
                                #[trigger] stream.groups[i]).first_sequence <= sequence
                                    <= stream.groups[i].last_sequence;
                            lemma_object_at(stream, sequence, i);
                            lemma_object_at(renewed, sequence, i);
                        }
                    }
                    if before.stream(stream_id) is Some {
                        lemma_stream_stays(before, index, renewed, stream_id);
                    }
                }
            },
            None => {
                let p = choose|p: int| #[trigger]
                    before.is_insertion_point(described, p) && after == (StoreModel {
                        streams: before.streams.insert(
                            p,
                            fresh_stream(described, publisher, encoded),
                        ),
                        ..before
                    });
                let fresh = fresh_stream(described, publisher, encoded);
                lemma_streams_bytes_insert(before.streams, p, fresh);
                assert(groups_bytes(fresh.groups) == 0);
                assert forall|i: int| 0 <= i < after.streams.len() implies (
                #[trigger] after.streams[i]).wf() by {
                    if i < p {
                        assert(after.streams[i] == before.streams[i]);
                    } else if i > p {
                        assert(after.streams[i] == before.streams[i - 1]);
                    }
                }
                assert forall|i: int, j: int| 0 <= i < j < after.streams.len() implies (
                #[trigger] after.streams[i]).stream_id < (
                #[trigger] after.streams[j]).stream_id by {
                    if i < p {
                        assert(after.streams[i] == before.streams[i]);
                    } else if i > p {
                        assert(after.streams[i] == before.streams[i - 1]);
                    }
                    if j < p {
                        assert(after.streams[j] == before.streams[j]);
                    } else if j > p {
                        assert(after.streams[j] == before.streams[j - 1]);
                    }
                }
                if let Some(i) = before.find(stream_id) {
                    assert(before.streams[i].stream_id == stream_id);
                    let k = if i < p {
                        i
                    } else {
                        i + 1
                    };
                    assert(after.streams[k] == before.streams[i]);
                    lemma_find(after, stream_id, k);
                }
            },
        }
    }
}

/// An acknowledged object is there to be read: whatever retention evicts in the same
/// step, the sequence that was acknowledged gives back the bytes that were sent.
pub proof fn acknowledged_object_reads_back(
    store: StoreModel,
    object: SentObject,
    received_at_ms: i64,
)
    requires
        store.wf(),
        store.object_refusal(object) is None,
    ensures
        store.after_object(object, received_at_ms).stream(object.header.stream_id) is Some,
        ({
            let stream = store.after_object(object, received_at_ms).stream(
                object.header.stream_id,
            )->0;
            &&& stream.object_at(object.header.sequence) is Some
            &&& stream.object_at(object.header.sequence)->0.encoded == object.encoded
            &&& !store.object_is_retry(object) ==> {
                &&& stream.object_at(object.header.sequence)->0.header == object.header
                &&& stream.high_water == object.header.sequence
            }
        }),
{
    if !store.object_is_retry(object) {
        lemma_grown_by_object_evolves(store, object, received_at_ms);
        let index = store.find(object.header.stream_id)->0;
        let grown = store.grown_by_object(object, received_at_ms);
        let due = store.due_groups(grown, received_at_ms);
        let pruned = store.pruned(grown, received_at_ms);
        lemma_due_bounded(store, grown, received_at_ms);
        lemma_without_oldest_wf(grown, due);
        lemma_groups_bytes_skip(grown.groups, due as int);
        lemma_with_stream_wf(store, index, pruned);
        lemma_stream_stays(store, index, pruned, object.header.stream_id);
        let last = pruned.groups.len() - 1;
        assert(grown.active is Some);
        assert(pruned.groups[last] == grown.groups[grown.groups.len() - 1]);
        assert(grown.groups[grown.groups.len() - 1].wf());
        lemma_object_at(pruned, object.header.sequence, last);
        lemma_object_at(grown, object.header.sequence, grown.groups.len() - 1);
    }
}

/// Sending an acknowledged object again is answered like the first time, except that
/// nothing is new, and changes nothing.
pub proof fn repeated_object_changes_nothing(
    store: StoreModel,
    object: SentObject,
    received_at_ms: i64,
    repeated_at_ms: i64,
)
    requires
        store.wf(),
        store.object_refusal(object) is None,
    ensures
        ({
            let after = store.after_object(object, received_at_ms);
            let reply = after.object_reply(object, repeated_at_ms);
            &&& after.after_object(object, repeated_at_ms) == after
            &&& reply is Ok
            &&& reply->Ok_0.committed_through == object.header.sequence
            &&& !reply->Ok_0.inserted
        }),
{
    acknowledged_object_reads_back(store, object, received_at_ms);
    if !store.object_is_retry(object) {
        lemma_grown_by_object_evolves(store, object, received_at_ms);
        let index = store.find(object.header.stream_id)->0;
        let grown = store.grown_by_object(object, received_at_ms);
        let pruned = store.pruned(grown, received_at_ms);
        lemma_due_bounded(store, grown, received_at_ms);
        lemma_without_oldest_wf(grown, store.due_groups(grown, received_at_ms));
        lemma_groups_bytes_skip(grown.groups, store.due_groups(grown, received_at_ms) as int);
        lemma_with_stream_wf(store, index, pruned);
        lemma_stream_stays(store, index, pruned, object.header.stream_id);
    }
}

/// A refused record leaves the store exactly as it was.
pub proof fn refusal_changes_nothing(
    store: StoreModel,
    object: SentObject,
    envelope: SentEnvelope,
    received_at_ms: i64,
)
    ensures
        store.object_refusal(object) is Some ==> store.after_object(object, received_at_ms)
            == store,
        store.envelope_refusal(envelope) is Some ==> store.after_envelope(
            envelope,
            received_at_ms,
        ) == store,
{
}

/// A new object is accepted at one sequence only: the one after the high-water mark.
pub proof fn only_the_next_sequence_is_new(store: StoreModel, object: SentObject)
    requires
        store.wf(),
        store.object_refusal(object) is None,
        !store.object_is_retry(object),
    ensures
        object.header.sequence == store.stream(object.header.stream_id)->0.high_water + 1,
{
}

/// Retention takes complete groups whole, from the old end: what stays is the run of
/// newer groups unchanged, an open group always stays, and an evicted group takes all of
/// its sequences and envelopes with it.
pub proof fn retention_takes_whole_complete_groups(
    store: StoreModel,
    stream: StreamModel,
    now_ms: i64,
)
    requires
        stream.wf(),
    ensures
        ({
            let due = store.due_groups(stream, now_ms);
            let kept = store.pruned(stream, now_ms);
            &&& due <= stream.complete_count()
            &&& kept.wf()
            &&& kept.high_water == stream.high_water
            &&& kept.active == stream.active
            &&& kept.groups == stream.groups.skip(due as int)
            &&& forall|i: int| 0 <= i < due ==> (#[trigger] stream.groups[i]).complete
            &&& forall|i: int|
                0 <= i < due ==> kept.group_index(
                    (#[trigger] stream.groups[i]).epoch_id,
                    stream.groups[i].key_group,
                ) is None
            &&& forall|i: int, sequence: u64|
                0 <= i < due && (#[trigger] stream.groups[i]).first_sequence <= sequence
                    <= stream.groups[i].last_sequence ==> !#[trigger] kept.retains(sequence)
        }),
{
    let due = store.due_groups(stream, now_ms);
    let kept = store.pruned(stream, now_ms);
    lemma_due_bounded(store, stream, now_ms);
    lemma_without_oldest_wf(stream, due);
    lemma_evict_count_bounded(
        stream.groups,
        store.retention_bytes,
        cutoff_at(store.retention_age_ms, now_ms),
    );
    assert forall|i: int| 0 <= i < due implies kept.group_index(
        (#[trigger] stream.groups[i]).epoch_id,
        stream.groups[i].key_group,
    ) is None by {
        if let Some(found) = kept.group_index(stream.groups[i].epoch_id, stream.groups[i].key_group) {
            assert(kept.groups[found] == stream.groups[found + due]);
            assert(!stream.groups[i].is_named(
                stream.groups[found + due].epoch_id,
                stream.groups[found + due].key_group,
            ));
        }
    }
    assert forall|i: int, sequence: u64|
        0 <= i < due && (#[trigger] stream.groups[i]).first_sequence <= sequence
            <= stream.groups[i].last_sequence implies !#[trigger] kept.retains(sequence) by {
        if kept.retains(sequence) {
            let j = choose|j: int|
                0 <= j < kept.groups.len() && (#[trigger] kept.groups[j]).first_sequence
                    <= sequence <= kept.groups[j].last_sequence;
            assert(kept.groups[j] == stream.groups[j + due]);
            assert(stream.groups[i].last_sequence < stream.groups[j + due].first_sequence);
        }
    }
}

/// Retention does enough and no more: afterwards no complete group remains that has
/// outlived a bound, and every group that left had.
pub proof fn retention_is_exact(store: StoreModel, stream: StreamModel, now_ms: i64)
    requires
        stream.wf(),
    ensures
        ({
            let cutoff = cutoff_at(store.retention_age_ms, now_ms);
            let due = store.due_groups(stream, now_ms);
            let kept = store.pruned(stream, now_ms);
            &&& kept.complete_count() > 0 ==> !outlived(
                kept.groups,
                store.retention_bytes,
                cutoff,
            )
            &&& forall|i: int|
                0 <= i < due ==> outlived(
                    #[trigger] stream.groups.skip(i),
                    store.retention_bytes,
                    cutoff,
                )
        }),
{
    let cutoff = cutoff_at(store.retention_age_ms, now_ms);
    lemma_evict_count_exact(stream.groups, store.retention_bytes, cutoff);
    lemma_due_bounded(store, stream, now_ms);
    let due = store.due_groups(stream, now_ms);
    let kept = store.pruned(stream, now_ms);
    if kept.complete_count() > 0 {
        assert(kept.groups[0] == stream.groups[due as int]);
        assert(stream.groups[due as int].complete) by {
            if stream.active is None && due == stream.groups.len() - 1 {
                assert(stream.groups.last().complete);
            }
        }
    }
}

proof fn lemma_evict_count_exact(
    groups: Seq<GroupModel>,
    byte_limit: Option<u64>,
    cutoff_ms: Option<i64>,
)
    ensures
        ({
            let due = evict_count(groups, byte_limit, cutoff_ms);
            &&& due <= groups.len()
            &&& due < groups.len() && groups[due as int].complete ==> !outlived(
                groups.skip(due as int),
                byte_limit,
                cutoff_ms,
            )
            &&& forall|i: int|
                0 <= i < due ==> outlived(#[trigger] groups.skip(i), byte_limit, cutoff_ms)
        }),
    decreases groups.len(),
{
    assert(groups.skip(0) =~= groups);
    if groups.len() > 0 && groups[0].complete && outlived(groups, byte_limit, cutoff_ms) {
        let rest = groups.drop_first();
        lemma_evict_count_exact(rest, byte_limit, cutoff_ms);
        let due = evict_count(groups, byte_limit, cutoff_ms);
        assert(rest.skip(due - 1) =~= groups.skip(due as int));
        assert forall|i: int| 0 <= i < due implies outlived(
            #[trigger] groups.skip(i),
            byte_limit,
            cutoff_ms,
        ) by {
            if i > 0 {
                assert(rest.skip(i - 1) =~= groups.skip(i));
            }
        }
    }
}

/// Whatever a store has recorded, it can be opened on again.
pub proof fn recorded_streams_reopen(store: StoreModel)
    requires
        store.wf(),
    ensures
        streams_agree(store.streams),
{
}

/// A stored envelope can be fetched by its viewer for as long as its group is retained.
pub proof fn stored_envelope_reads_back(
    store: StoreModel,
    envelope: SentEnvelope,
    received_at_ms: i64,
)
    requires
        store.wf(),
        store.envelope_refusal(envelope) is None,
    ensures
        store.after_envelope(envelope, received_at_ms).stream(envelope.header.stream_id) is Some,
        ({
            let header = envelope.header;
            let stream = store.after_envelope(envelope, received_at_ms).stream(
                header.stream_id,
            )->0;
            stream.group_index(header.epoch_id, header.key_group_id) matches Some(i) ==> {
                &&& stream.groups[i].envelope_of(header.recipient_id) is Some
                &&& stream.groups[i].envelope_of(header.recipient_id)->0.encoded
                    == envelope.encoded
            }
        }),
{
    let header = envelope.header;
    if !store.envelope_is_retry(envelope) {
        lemma_grown_by_envelope_evolves(store, envelope, received_at_ms);
        let index = store.find(header.stream_id)->0;
        let stream = store.streams[index];
        let grown = store.grown_by_envelope(envelope, received_at_ms);
        let due = store.due_groups(grown, received_at_ms);
        let pruned = store.pruned(grown, received_at_ms);
        lemma_due_bounded(store, grown, received_at_ms);
        lemma_without_oldest_wf(grown, due);
        lemma_groups_bytes_skip(grown.groups, due as int);
        lemma_with_stream_wf(store, index, pruned);
        lemma_stream_stays(store, index, pruned, header.stream_id);
        if let Some(i) = pruned.group_index(header.epoch_id, header.key_group_id) {
            let g = stream.group_index(header.epoch_id, header.key_group_id)->0;
            assert(stream.groups[g].is_named(header.epoch_id, header.key_group_id));
            assert(pruned.groups[i].is_named(header.epoch_id, header.key_group_id));
            assert(pruned.groups[i] == grown.groups[i + due]);
            assert(grown.groups[g].is_named(header.epoch_id, header.key_group_id));
            lemma_group_index(grown, header.epoch_id, header.key_group_id, g);
            lemma_group_index(grown, header.epoch_id, header.key_group_id, i + due);
            let group = grown.groups[g];
            let at = group.envelopes.len() - 1;
            assert(group.envelopes[at].header == header);
            assert(group.wf());
            lemma_envelope_of(group, header.recipient_id, at);
        }
    }
}

/// Whether a stream retains the group that an envelope is for, under the same key.
pub open spec fn retains_group_of(stream: StreamModel, header: KeyEnvelopeHeader) -> bool {
    exists|i: int|
        0 <= i < stream.groups.len() && (#[trigger] stream.groups[i]).is_named(
            header.epoch_id,
            header.key_group_id,
        ) && stream.groups[i].key_id == header.key_id
}

/// Envelopes need the exact group and key that they are for, and cannot conflict. In a
/// store without retention limits, an envelope that its publisher signed and whose
/// identifiers are not zero is refused unless its group is retained under its key. Where
/// its viewer has none for the group yet, it is stored and fetched as it was sent, or
/// refused at a hard limit. The same bytes again change nothing, and other bytes are
/// refused while the stored envelope stays.
pub proof fn envelopes_need_their_group_and_never_conflict(
    store: StoreModel,
    envelope: SentEnvelope,
    received_at_ms: i64,
)
    requires
        store.wf(),
        store.retention_bytes is None,
        store.retention_age_ms is None,
        envelope.shape_valid,
        store.stream(envelope.header.stream_id) matches Some(stream) ==> envelope.signer == Some(
            stream.publisher,
        ),
        envelope.header.stream_id != 0,
        envelope.header.epoch_id != 0,
        !is_zero(envelope.header.recipient_id),
    ensures
        ({
            let header = envelope.header;
            let after = store.after_envelope(envelope, received_at_ms);
            let result = store.envelope_result(envelope);
            let stored = store.envelope_lookup(
                header.stream_id,
                header.epoch_id,
                header.key_group_id,
                header.recipient_id,
            );
            let fetched = after.envelope_lookup(
                header.stream_id,
                header.epoch_id,
                header.key_group_id,
                header.recipient_id,
            );
            if store.stream(header.stream_id) matches Some(stream) && retains_group_of(
                stream,
                header,
            ) {
                match stored {
                    Ok(None) => {
                        ||| result == Ok::<bool, StoreError>(true) && fetched == Ok::<
                            Option<SentEnvelope>,
                            StoreError,
                        >(Some(envelope))
                        ||| {
                            &&& after == store
                            &&& result == Err::<bool, StoreError>(StoreError::GroupLimitReached)
                                || result == Err::<bool, StoreError>(StoreError::QuotaReached)
                                || result == Err::<bool, StoreError>(StoreError::BeyondDurableBound)
                        }
                    },
                    Ok(Some(existing)) => {
                        &&& after == store
                        &&& fetched == stored
                        &&& if existing.encoded == envelope.encoded {
                            result == Ok::<bool, StoreError>(false)
                        } else {
                            result == Err::<bool, StoreError>(StoreError::Conflict)
                        }
                    },
                    Err(_) => false,
                }
            } else {
                result is Err && after == store
            }
        }),
{
    let header = envelope.header;
    if store.stream(header.stream_id) is Some {
        let stream = store.stream(header.stream_id)->0;
        let index = store.find(header.stream_id)->0;
        assert(store.streams[index].wf());
        if retains_group_of(stream, header) {
            let g = choose|i: int|
                0 <= i < stream.groups.len() && (#[trigger] stream.groups[i]).is_named(
                    header.epoch_id,
                    header.key_group_id,
                ) && stream.groups[i].key_id == header.key_id;
            lemma_group_index(stream, header.epoch_id, header.key_group_id, g);
            assert(stream.groups[g].wf());
            if store.envelope_refusal(envelope) is None && !store.envelope_is_retry(envelope) {
                lemma_grown_by_envelope_evolves(store, envelope, received_at_ms);
                let grown = store.grown_by_envelope(envelope, received_at_ms);
                let pruned = store.pruned(grown, received_at_ms);
                assert(store.due_groups(grown, received_at_ms) == 0);
                lemma_due_bounded(store, grown, received_at_ms);
                lemma_without_oldest_wf(grown, 0);
                assert(pruned.groups =~= grown.groups);
                lemma_groups_bytes_skip(grown.groups, 0);
                lemma_with_stream_wf(store, index, pruned);
                lemma_stream_stays(store, index, pruned, header.stream_id);
                assert(grown.groups[g].is_named(header.epoch_id, header.key_group_id));
                lemma_group_index(pruned, header.epoch_id, header.key_group_id, g);
                let group = grown.groups[g];
                let at = group.envelopes.len() - 1;
                assert(group.envelopes[at].header == header);
                assert(group.wf());
                lemma_envelope_of(group, header.recipient_id, at);
            }
        } else if stream.group_index(header.epoch_id, header.key_group_id) is Some {
            let g = stream.group_index(header.epoch_id, header.key_group_id)->0;
            assert(stream.groups[g].is_named(header.epoch_id, header.key_group_id));
        }
    }
}

/// Whether a group is what became of another: it has its name and its envelopes, and
/// reaches from the same first sequence at least as far.
pub open spec fn group_continues(before: GroupModel, after: GroupModel) -> bool {
    &&& after.is_named(before.epoch_id, before.key_group)
    &&& after.first_sequence == before.first_sequence
    &&& after.last_sequence >= before.last_sequence
    &&& before.envelopes.is_prefix_of(after.envelopes)
}

/// Whether a stream is what became of another when its `gone` oldest groups left: every
/// other group continues in its order, and a group that follows them is new.
pub open spec fn groups_continue(before: StreamModel, after: StreamModel, gone: int) -> bool {
    &&& 0 <= gone <= before.groups.len()
    &&& before.groups.len() - gone <= after.groups.len()
    &&& forall|i: int|
        gone <= i < before.groups.len() ==> group_continues(
            #[trigger] before.groups[i],
            after.groups[i - gone],
        )
    &&& forall|j: int|
        before.groups.len() - gone <= j < after.groups.len() ==> {
            &&& (#[trigger] after.groups[j]).first_sequence > before.high_water
            &&& before.group_index(after.groups[j].epoch_id, after.groups[j].key_group) is None
        }
}

proof fn lemma_groups_continue_after(
    before: StreamModel,
    grown: StreamModel,
    count: nat,
)
    requires
        groups_continue(before, grown, 0),
        count <= before.groups.len(),
    ensures
        groups_continue(before, grown.without_oldest(count), count as int),
{
    let kept = grown.without_oldest(count);
    assert forall|i: int| count <= i < before.groups.len() implies group_continues(
        #[trigger] before.groups[i],
        kept.groups[i - count],
    ) by {
        assert(kept.groups[i - count] == grown.groups[i]);
    }
    assert forall|j: int| before.groups.len() - count <= j < kept.groups.len() implies {
        &&& (#[trigger] kept.groups[j]).first_sequence > before.high_water
        &&& before.group_index(kept.groups[j].epoch_id, kept.groups[j].key_group) is None
    } by {
        assert(kept.groups[j] == grown.groups[j + count]);
    }
}

/// An object continues the open group or opens a new one.
proof fn lemma_object_continues_groups(
    before: StoreModel,
    object: SentObject,
    received_at_ms: i64,
)
    requires
        before.wf(),
        before.object_refusal(object) is None,
        !before.object_is_retry(object),
    ensures
        groups_continue(
            before.stream(object.header.stream_id)->0,
            before.grown_by_object(object, received_at_ms),
            0,
        ),
{
    let index = before.find(object.header.stream_id)->0;
    let stream = before.streams[index];
    assert(stream.wf());
    let grown = before.grown_by_object(object, received_at_ms);
    let last = stream.groups.len() - 1;
    assert forall|i: int| 0 <= i < stream.groups.len() implies group_continues(
        #[trigger] stream.groups[i],
        grown.groups[i],
    ) by {
        if i == last {
            assert(stream.groups[last].last_sequence == stream.high_water);
        }
    }
}

/// An envelope joins its group.
proof fn lemma_envelope_continues_groups(
    before: StoreModel,
    envelope: SentEnvelope,
    received_at_ms: i64,
)
    requires
        before.wf(),
        before.envelope_refusal(envelope) is None,
        !before.envelope_is_retry(envelope),
    ensures
        groups_continue(
            before.stream(envelope.header.stream_id)->0,
            before.grown_by_envelope(envelope, received_at_ms),
            0,
        ),
{
    let header = envelope.header;
    let stream = before.streams[before.find(header.stream_id)->0];
    let group = stream.group_index(header.epoch_id, header.key_group_id)->0;
    assert(stream.groups[group].is_named(header.epoch_id, header.key_group_id));
}

/// What a stream that grew and was pruned keeps of its groups, and what the other streams
/// keep: everything.
proof fn lemma_growth_continues_groups(
    store: StoreModel,
    index: int,
    grown: StreamModel,
    now_ms: i64,
    stream_id: u128,
) -> (gone: int)
    requires
        store.wf(),
        0 <= index < store.streams.len(),
        grown.wf(),
        grown.stream_id == store.streams[index].stream_id,
        store.with_stream(index, store.pruned(grown, now_ms)).wf(),
        store.stream(stream_id) is Some,
        groups_continue(store.streams[index], grown, 0),
        store.due_groups(grown, now_ms) <= store.streams[index].groups.len(),
    ensures
        groups_continue(
            store.stream(stream_id)->0,
            store.with_stream(index, store.pruned(grown, now_ms)).stream(stream_id)->0,
            gone,
        ),
{
    let due = store.due_groups(grown, now_ms);
    lemma_stream_stays(store, index, store.pruned(grown, now_ms), stream_id);
    if stream_id == grown.stream_id {
        lemma_groups_continue_after(store.streams[index], grown, due);
        due as int
    } else {
        0
    }
}

/// Closing the open group keeps every group.
proof fn lemma_finalize_continues_groups(before: StoreModel, ended: u128, stream_id: u128)
    requires
        before.wf(),
        before.stream(stream_id) is Some,
    ensures
        groups_continue(
            before.stream(stream_id)->0,
            before.after_finalize(ended).stream(stream_id)->0,
            0,
        ),
{
    if let Some(index) = before.find(ended) {
        let stream = before.streams[index];
        assert(stream.stream_id == ended);
        assert(stream.wf());
        lemma_completed_groups_wf(stream);
        lemma_with_stream_wf(before, index, stream.finalized());
        lemma_stream_stays(before, index, stream.finalized(), stream_id);
    }
}

/// What one event makes of the groups of a stream.
proof fn lemma_event_continues_groups(
    before: StoreModel,
    event: StoreEvent,
    after: StoreModel,
    stream_id: u128,
) -> (gone: int)
    requires
        before.wf(),
        follows(before, event, after),
        before.stream(stream_id) is Some,
    ensures
        groups_continue(before.stream(stream_id)->0, after.stream(stream_id)->0, gone),
{
    every_event_preserves_streams(before, event, after, stream_id);
    let own = before.stream(stream_id)->0;
    let at = before.find(stream_id)->0;
    assert(before.streams[at].stream_id == stream_id);
    assert(own.wf());
    match event {
        StoreEvent::Object { object, received_at_ms } => {
            if before.object_refusal(object) is None && !before.object_is_retry(object) {
                let index = before.find(object.header.stream_id)->0;
                let grown = before.grown_by_object(object, received_at_ms);
                lemma_grown_by_object_evolves(before, object, received_at_ms);
                lemma_due_bounded(before, grown, received_at_ms);
                lemma_object_continues_groups(before, object, received_at_ms);
                lemma_growth_continues_groups(before, index, grown, received_at_ms, stream_id)
            } else {
                0
            }
        },
        StoreEvent::Envelope { envelope, received_at_ms } => {
            if before.envelope_refusal(envelope) is None && !before.envelope_is_retry(envelope) {
                let index = before.find(envelope.header.stream_id)->0;
                let grown = before.grown_by_envelope(envelope, received_at_ms);
                lemma_grown_by_envelope_evolves(before, envelope, received_at_ms);
                lemma_due_bounded(before, grown, received_at_ms);
                lemma_envelope_continues_groups(before, envelope, received_at_ms);
                lemma_growth_continues_groups(before, index, grown, received_at_ms, stream_id)
            } else {
                0
            }
        },
        StoreEvent::Retention { now_ms } => {
            assert(after.streams[at].stream_id == stream_id);
            lemma_find(after, stream_id, at);
            lemma_due_bounded(before, own, now_ms);
            lemma_groups_continue_after(own, own, before.due_groups(own, now_ms));
            before.due_groups(own, now_ms) as int
        },
        StoreEvent::Finalize { stream_id: ended } => {
            lemma_finalize_continues_groups(before, ended, stream_id);
            0
        },
        StoreEvent::Descriptor { stream_id: described, publisher, encoded, valid } => {
            lemma_descriptor_keeps_groups(
                before,
                described,
                publisher,
                encoded,
                valid,
                after,
                stream_id,
            );
            0
        },
    }
}

/// Whether an event is about a stream. Retention is about every one.
pub open spec fn concerns(event: StoreEvent, stream_id: u128) -> bool {
    match event {
        StoreEvent::Object { object, .. } => object.header.stream_id == stream_id,
        StoreEvent::Envelope { envelope, .. } => envelope.header.stream_id == stream_id,
        StoreEvent::Retention { .. } => true,
        StoreEvent::Finalize { stream_id: ended } => ended == stream_id,
        StoreEvent::Descriptor { stream_id: described, .. } => described == stream_id,
    }
}

/// What happens to one stream leaves every other exactly as it was.
pub proof fn other_streams_stay(
    before: StoreModel,
    event: StoreEvent,
    after: StoreModel,
    stream_id: u128,
)
    requires
        before.wf(),
        follows(before, event, after),
        !concerns(event, stream_id),
    ensures
        after.stream(stream_id) == before.stream(stream_id),
{
    if before.stream(stream_id) is Some {
        every_event_preserves_streams(before, event, after, stream_id);
    }
    match event {
        StoreEvent::Object { object, received_at_ms } => {
            if before.object_refusal(object) is None && !before.object_is_retry(object) {
                lemma_grown_by_object_evolves(before, object, received_at_ms);
                let grown = before.grown_by_object(object, received_at_ms);
                lemma_replaced_stream(
                    before,
                    object.header.stream_id,
                    before.pruned(grown, received_at_ms),
                    stream_id,
                );
            }
        },
        StoreEvent::Envelope { envelope, received_at_ms } => {
            if before.envelope_refusal(envelope) is None && !before.envelope_is_retry(envelope) {
                lemma_grown_by_envelope_evolves(before, envelope, received_at_ms);
                let grown = before.grown_by_envelope(envelope, received_at_ms);
                lemma_replaced_stream(
                    before,
                    envelope.header.stream_id,
                    before.pruned(grown, received_at_ms),
                    stream_id,
                );
            }
        },
        StoreEvent::Retention { .. } => {},
        StoreEvent::Finalize { stream_id: ended } => {
            if let Some(index) = before.find(ended) {
                lemma_replaced_stream(
                    before,
                    ended,
                    before.streams[index].finalized(),
                    stream_id,
                );
            }
        },
        StoreEvent::Descriptor { stream_id: described, publisher, encoded, valid } => {
            if before.descriptor_refusal(described, publisher, valid) is None {
                match before.find(described) {
                    Some(index) => {
                        let stream = before.streams[index];
                        if stream.descriptor != encoded {
                            lemma_replaced_stream(
                                before,
                                described,
                                StreamModel { publisher, descriptor: encoded, ..stream },
                                stream_id,
                            );
                        }
                    },
                    None => {
                        let p = choose|p: int| #[trigger]
                            before.is_insertion_point(described, p) && after == (StoreModel {
                                streams: before.streams.insert(
                                    p,
                                    fresh_stream(described, publisher, encoded),
                                ),
                                ..before
                            });
                        lemma_inserted_stream(
                            before,
                            after,
                            p,
                            fresh_stream(described, publisher, encoded),
                            stream_id,
                        );
                    },
                }
            }
        },
    }
}

/// Replacing one stream leaves the others where they are.
proof fn lemma_replaced_stream(
    store: StoreModel,
    replaced: u128,
    stream: StreamModel,
    stream_id: u128,
)
    requires
        store.wf(),
        store.find(replaced) is Some,
        stream.stream_id == replaced,
        stream_id != replaced,
        store.stream(stream_id) is Some ==> store.with_stream(
            store.find(replaced)->0,
            stream,
        ).wf(),
    ensures
        store.with_stream(store.find(replaced)->0, stream).stream(stream_id) == store.stream(
            stream_id,
        ),
{
    let index = store.find(replaced)->0;
    let after = store.with_stream(index, stream);
    assert(store.streams[index].stream_id == replaced);
    if store.stream(stream_id) is Some {
        lemma_stream_stays(store, index, stream, stream_id);
    } else if let Some(i) = after.find(stream_id) {
        assert(after.streams[i].stream_id == stream_id);
        assert(store.streams[i].stream_id == stream_id);
    }
}

/// A new stream leaves the others as they were.
proof fn lemma_inserted_stream(
    store: StoreModel,
    after: StoreModel,
    p: int,
    fresh: StreamModel,
    stream_id: u128,
)
    requires
        store.wf(),
        0 <= p <= store.streams.len(),
        after.streams == store.streams.insert(p, fresh),
        fresh.stream_id != stream_id,
        store.stream(stream_id) is Some ==> after.wf(),
    ensures
        after.stream(stream_id) == store.stream(stream_id),
{
    match store.find(stream_id) {
        Some(i) => {
            assert(store.streams[i].stream_id == stream_id);
            let k = if i < p {
                i
            } else {
                i + 1
            };
            assert(after.streams[k] == store.streams[i]);
            lemma_find(after, stream_id, k);
        },
        None => {
            if let Some(k) = after.find(stream_id) {
                assert(after.streams[k].stream_id == stream_id);
                let i = if k < p {
                    k
                } else {
                    k - 1
                };
                assert(k != p);
                assert(store.streams[i].stream_id == stream_id);
            }
        },
    }
}

/// Envelopes share the lifetime of their group. Whatever happens, a retained group keeps
/// the envelope of each viewer and all of its sequences; a group that leaves takes its
/// envelopes and all of its sequences with it.
pub proof fn envelopes_live_and_leave_with_their_group(
    before: StoreModel,
    event: StoreEvent,
    after: StoreModel,
    stream_id: u128,
    epoch_id: u128,
    key_group: u64,
    recipient_id: [u8; 32],
)
    requires
        before.wf(),
        follows(before, event, after),
        before.stream(stream_id) is Some,
        before.stream(stream_id)->0.group_index(epoch_id, key_group) is Some,
    ensures
        after.stream(stream_id) is Some,
        ({
            let own = before.stream(stream_id)->0;
            let next = after.stream(stream_id)->0;
            let group = own.groups[own.group_index(epoch_id, key_group)->0];
            &&& next.group_index(epoch_id, key_group) is Some && group.envelope_of(
                recipient_id,
            ) is Some ==> next.groups[next.group_index(epoch_id, key_group)->0].envelope_of(
                recipient_id,
            ) == group.envelope_of(recipient_id)
            &&& forall|sequence: u64|
                group.first_sequence <= sequence <= group.last_sequence ==> (
                #[trigger] next.retains(sequence) <==> next.group_index(epoch_id, key_group)
                    is Some)
        }),
{
    let gone = lemma_event_continues_groups(before, event, after, stream_id);
    every_event_preserves_streams(before, event, after, stream_id);
    let own = before.stream(stream_id)->0;
    let next = after.stream(stream_id)->0;
    let at = own.group_index(epoch_id, key_group)->0;
    let group = own.groups[at];
    assert(own == before.streams[before.find(stream_id)->0]);
    assert(next == after.streams[after.find(stream_id)->0]);
    assert(own.wf());
    assert(next.wf());
    assert(group.is_named(epoch_id, key_group));
    if at >= gone {
        let now = next.groups[at - gone];
        assert(group_continues(group, now));
        lemma_group_index(next, epoch_id, key_group, at - gone);
        if group.envelope_of(recipient_id) is Some {
            let k = choose|k: int|
                0 <= k < group.envelopes.len() && (
                #[trigger] group.envelopes[k]).header.recipient_id == recipient_id;
            assert(group.wf());
            assert(now.wf());
            lemma_envelope_of(group, recipient_id, k);
            assert(now.envelopes[k] == group.envelopes[k]);
            lemma_envelope_of(now, recipient_id, k);
        }
    } else {
        if let Some(j) = next.group_index(epoch_id, key_group) {
            assert(next.groups[j].is_named(epoch_id, key_group));
            if j < own.groups.len() - gone {
                assert(group_continues(own.groups[j + gone], next.groups[j]));
                assert(!own.groups[at].is_named(
                    own.groups[j + gone].epoch_id,
                    own.groups[j + gone].key_group,
                ));
            }
        }
        assert forall|sequence: u64|
            group.first_sequence <= sequence <= group.last_sequence implies !#[trigger] next.retains(
            sequence,
        ) by {
            if next.retains(sequence) {
                let j = choose|j: int|
                    0 <= j < next.groups.len() && (#[trigger] next.groups[j]).first_sequence
                        <= sequence <= next.groups[j].last_sequence;
                if j < own.groups.len() - gone {
                    assert(group_continues(own.groups[j + gone], next.groups[j]));
                    assert(own.groups[at].last_sequence < own.groups[j + gone].first_sequence);
                } else {
                    let last = own.groups.len() - 1;
                    if at < last {
                        assert(own.groups[at].last_sequence < own.groups[last].first_sequence);
                        assert(own.groups[last].wf());
                    }
                    assert(own.groups[last].last_sequence == own.high_water);
                }
            }
        }
    }
}

/// Describing a stream leaves every group as it was.
proof fn lemma_descriptor_keeps_groups(
    before: StoreModel,
    described: u128,
    publisher: IdentityPublic,
    encoded: Seq<u8>,
    valid: bool,
    after: StoreModel,
    stream_id: u128,
)
    requires
        before.wf(),
        before.describes(described, publisher, encoded, valid, after),
        before.stream(stream_id) is Some,
    ensures
        after.stream(stream_id) is Some,
        after.stream(stream_id)->0.groups == before.stream(stream_id)->0.groups,
        after.stream(stream_id)->0.high_water == before.stream(stream_id)->0.high_water,
{
    lemma_descriptor_step(before, described, publisher, encoded, valid, after, stream_id);
    if before.descriptor_refusal(described, publisher, valid) is None {
        let i = before.find(stream_id)->0;
        assert(before.streams[i].stream_id == stream_id);
        match before.find(described) {
            Some(index) => {
                let stream = before.streams[index];
                if stream.descriptor != encoded {
                    let renewed = StreamModel { publisher, descriptor: encoded, ..stream };
                    lemma_stream_stays(before, index, renewed, stream_id);
                }
            },
            None => {
                let p = choose|p: int| #[trigger]
                    before.is_insertion_point(described, p) && after == (StoreModel {
                        streams: before.streams.insert(
                            p,
                            fresh_stream(described, publisher, encoded),
                        ),
                        ..before
                    });
                let k = if i < p {
                    i
                } else {
                    i + 1
                };
                assert(after.streams[k] == before.streams[i]);
                lemma_find(after, stream_id, k);
                lemma_find(before, stream_id, i);
            },
        }
    }
}

/// A subscription starts at a group boundary or with the next live sequence, and what is
/// listed from there begins exactly at the anchor and has no gap up to the high-water
/// mark.
pub proof fn subscription_starts_at_a_boundary(stream: StreamModel, start: SubscriptionStart)
    requires
        stream.wf(),
    ensures
        ({
            let anchor = anchor_of(stream, start);
            ||| anchor == stream.high_water + 1
            ||| exists|i: int|
                0 <= i < stream.groups.len() && (#[trigger] stream.groups[i]).first_sequence
                    == anchor && listing_start(stream, (anchor - 1) as u64) == anchor
        }),
        start is Live ==> anchor_of(stream, start) == stream.high_water + 1,
        stream.groups.len() == 0 ==> anchor_of(stream, start) == stream.high_water + 1,
        start matches SubscriptionStart::Sequence(sequence) ==> stream.retains(sequence)
            ==> anchor_of(stream, start) <= sequence,
{
    lemma_last_group_at(stream.groups);
    lemma_latest_group_at(stream.groups);
    if let Some(i) = anchor_group(stream, start) {
        assert(0 <= i < stream.groups.len());
        assert(stream.groups[i].wf());
        if i > 0 {
            assert(stream.groups[0].wf());
            assert(stream.groups[0].last_sequence < stream.groups[i].first_sequence);
        }
        assert(stream.groups[i].first_sequence == anchor_of(stream, start));
    }
    if let SubscriptionStart::Sequence(sequence) = start {
        if stream.retains(sequence) {
            lemma_retained_run(stream, sequence);
            lemma_some_group_at(stream.groups, sequence);
        }
    }
}

proof fn lemma_last_group_at(groups: Seq<GroupModel>)
    ensures
        forall|sequence: u64|
            #[trigger] last_group_at(groups, sequence) matches Some(i) ==> 0 <= i < groups.len()
                && groups[i].first_sequence <= sequence,
    decreases groups.len(),
{
    if groups.len() > 0 {
        lemma_last_group_at(groups.drop_last());
        assert forall|sequence: u64|
            #[trigger] last_group_at(groups, sequence) matches Some(i) ==> 0 <= i < groups.len()
                && groups[i].first_sequence <= sequence by {
            let earlier = last_group_at(groups.drop_last(), sequence);
        }
    }
}

proof fn lemma_some_group_at(groups: Seq<GroupModel>, sequence: u64)
    requires
        groups.len() > 0,
        groups[0].first_sequence <= sequence,
    ensures
        last_group_at(groups, sequence) is Some,
    decreases groups.len(),
{
    if groups.len() > 1 {
        lemma_some_group_at(groups.drop_last(), sequence);
    }
}

proof fn lemma_latest_group_at(groups: Seq<GroupModel>)
    ensures
        forall|timestamp: u64|
            #[trigger] latest_group_at(groups, timestamp) matches Some(i) ==> 0 <= i < groups.len()
                && groups[i].first_timestamp <= timestamp,
    decreases groups.len(),
{
    if groups.len() > 0 {
        lemma_latest_group_at(groups.drop_last());
        assert forall|timestamp: u64|
            #[trigger] latest_group_at(groups, timestamp) matches Some(i) ==> 0 <= i < groups.len()
                && groups[i].first_timestamp <= timestamp by {
            let earlier = latest_group_at(groups.drop_last(), timestamp);
        }
    }
}

/// A viewer that joins live starts at a group boundary or with the next live sequence.
pub proof fn live_join_starts_at_a_boundary(stream: StreamModel)
    requires
        stream.wf(),
    ensures
        stream.active is Some ==> {
            &&& live_anchor_of(stream) == stream.groups.last().first_sequence
            &&& live_anchor_of(stream) <= stream.high_water
        },
        stream.active is None ==> live_anchor_of(stream) == stream.high_water + 1,
{
    if stream.active is Some {
        assert(stream.groups[stream.groups.len() - 1].wf());
    }
}

/// After a publisher has gone everything retained counts as history: the bounds reach
/// the high-water mark.
pub proof fn finalized_stream_is_history(stream: StreamModel)
    requires
        stream.wf(),
        stream.groups.len() > 0,
    ensures
        bounds_of(stream.finalized()) is Some,
        bounds_of(stream.finalized())->0.newest_sequence == stream.high_water,
        bounds_of(stream.finalized())->0.oldest_sequence == stream.groups[0].first_sequence,
{
    lemma_completed_groups_wf(stream);
    let closed = stream.finalized();
    assert(closed.groups.take(closed.groups.len() as int) =~= closed.groups);
}

/// A group keeps the hard limits of the store.
pub open spec fn group_within_limits(store: StoreModel, group: GroupModel) -> bool {
    &&& group.objects.len() <= store.limits.max_objects_per_group
    &&& group.envelopes.len() <= store.limits.max_envelopes_per_group
    &&& group.retained_bytes <= store.limits.max_group_bytes
}

/// A store keeps all of its hard limits.
pub open spec fn within_limits(store: StoreModel) -> bool {
    &&& store.streams.len() <= store.limits.max_streams
    &&& streams_bytes(store.streams) <= store.limits.max_total_bytes
    &&& forall|publisher_id: [u8; 32]| #[trigger]
        publisher_streams(store.streams, publisher_id) <= store.limits.max_streams_per_publisher
    &&& forall|publisher_id: [u8; 32]| #[trigger]
        publisher_bytes(store.streams, publisher_id) <= store.limits.max_publisher_bytes
    &&& forall|i: int, g: int|
        0 <= i < store.streams.len() && 0 <= g < store.streams[i].groups.len()
            ==> group_within_limits(store, #[trigger] store.streams[i].groups[g])
}

/// Replacing a stream by a grown and then pruned one of the same owner keeps the limits,
/// where the grown one does.
proof fn lemma_limits_step(store: StoreModel, index: int, grown: StreamModel, now_ms: i64)
    requires
        store.wf(),
        within_limits(store),
        0 <= index < store.streams.len(),
        grown.wf(),
        grown.publisher_id == store.streams[index].publisher_id,
        groups_bytes(store.streams[index].groups) <= groups_bytes(grown.groups),
        streams_bytes(store.streams) - groups_bytes(store.streams[index].groups) + groups_bytes(
            grown.groups,
        ) <= store.limits.max_total_bytes,
        publisher_bytes(store.streams, grown.publisher_id) - groups_bytes(
            store.streams[index].groups,
        ) + groups_bytes(grown.groups) <= store.limits.max_publisher_bytes,
        forall|g: int|
            0 <= g < grown.groups.len() ==> group_within_limits(store, #[trigger] grown.groups[g]),
    ensures
        within_limits(store.with_stream(index, store.pruned(grown, now_ms))),
{
    let due = store.due_groups(grown, now_ms);
    let pruned = store.pruned(grown, now_ms);
    let after = store.with_stream(index, pruned);
    lemma_due_bounded(store, grown, now_ms);
    lemma_groups_bytes_skip(grown.groups, due as int);
    lemma_streams_bytes_update(store.streams, index, pruned);
    assert forall|publisher_id: [u8; 32]| #[trigger]
        publisher_streams(after.streams, publisher_id)
            <= after.limits.max_streams_per_publisher by {
        lemma_publisher_bytes_update(store.streams, index, pruned, publisher_id);
        assert(publisher_streams(store.streams, publisher_id)
            <= store.limits.max_streams_per_publisher);
    }
    assert forall|publisher_id: [u8; 32]| #[trigger]
        publisher_bytes(after.streams, publisher_id) <= after.limits.max_publisher_bytes by {
        lemma_publisher_bytes_update(store.streams, index, pruned, publisher_id);
        assert(publisher_bytes(store.streams, publisher_id) <= store.limits.max_publisher_bytes);
    }
    assert forall|i: int, g: int|
        0 <= i < after.streams.len() && 0 <= g < after.streams[i].groups.len() implies
        group_within_limits(after, #[trigger] after.streams[i].groups[g]) by {
        if i == index {
            assert(after.streams[i].groups[g] == grown.groups[g + due]);
            assert(group_within_limits(store, grown.groups[g + due]));
        } else {
            assert(group_within_limits(store, store.streams[i].groups[g]));
        }
    }
}

/// Nothing that is sent makes the store exceed its hard limits.
pub proof fn hard_limits_are_never_exceeded(before: StoreModel, event: StoreEvent, after: StoreModel)
    requires
        before.wf(),
        within_limits(before),
        follows(before, event, after),
    ensures
        within_limits(after),
{
    match event {
        StoreEvent::Object { object, received_at_ms } => {
            if before.object_refusal(object) is None && !before.object_is_retry(object) {
                lemma_grown_by_object_evolves(before, object, received_at_ms);
                let index = before.find(object.header.stream_id)->0;
                let stream = before.streams[index];
                let grown = before.grown_by_object(object, received_at_ms);
                assert(stream.wf());
                assert(grown.groups.len() >= 1);
                assert forall|g: int| 0 <= g < grown.groups.len() implies group_within_limits(
                    before,
                    #[trigger] grown.groups[g],
                ) by {
                    if g < stream.groups.len() {
                        assert(group_within_limits(before, before.streams[index].groups[g]));
                    }
                    assert(grown.groups[g].wf());
                }
                lemma_limits_step(before, index, grown, received_at_ms);
            }
        },
        StoreEvent::Envelope { envelope, received_at_ms } => {
            if before.envelope_refusal(envelope) is None && !before.envelope_is_retry(envelope) {
                lemma_grown_by_envelope_evolves(before, envelope, received_at_ms);
                let index = before.find(envelope.header.stream_id)->0;
                let grown = before.grown_by_envelope(envelope, received_at_ms);
                assert forall|g: int| 0 <= g < grown.groups.len() implies group_within_limits(
                    before,
                    #[trigger] grown.groups[g],
                ) by {
                    assert(group_within_limits(before, before.streams[index].groups[g]));
                    assert(grown.groups[g].wf());
                }
                lemma_limits_step(before, index, grown, received_at_ms);
            }
        },
        StoreEvent::Retention { now_ms } => {
            lemma_retention_keeps_limits(before, now_ms, before.streams.len());
            let pruned = before.streams.map_values(
                |stream: StreamModel| before.pruned(stream, now_ms),
            );
            assert(pruned_prefix(before, now_ms, before.streams.len()) =~= pruned);
        },
        StoreEvent::Finalize { stream_id } => {
            if let Some(index) = before.find(stream_id) {
                let stream = before.streams[index];
                let closed = stream.finalized();
                assert(stream.wf());
                lemma_completed_groups_wf(stream);
                lemma_streams_bytes_update(before.streams, index, closed);
                assert forall|publisher_id: [u8; 32]| #[trigger]
                    publisher_streams(after.streams, publisher_id)
                        <= after.limits.max_streams_per_publisher by {
                    lemma_publisher_bytes_update(before.streams, index, closed, publisher_id);
                    assert(publisher_streams(before.streams, publisher_id)
                        <= before.limits.max_streams_per_publisher);
                }
                assert forall|publisher_id: [u8; 32]| #[trigger]
                    publisher_bytes(after.streams, publisher_id)
                        <= after.limits.max_publisher_bytes by {
                    lemma_publisher_bytes_update(before.streams, index, closed, publisher_id);
                    assert(publisher_bytes(before.streams, publisher_id)
                        <= before.limits.max_publisher_bytes);
                }
                assert forall|i: int, g: int|
                    0 <= i < after.streams.len() && 0 <= g
                        < after.streams[i].groups.len() implies group_within_limits(
                    after,
                    #[trigger] after.streams[i].groups[g],
                ) by {
                    assert(group_within_limits(before, before.streams[i].groups[g]));
                }
            }
        },
        StoreEvent::Descriptor { stream_id, publisher, encoded, valid } => {
            lemma_descriptor_limits(before, stream_id, publisher, encoded, valid, after);
        },
    }
}

/// The streams after retention was applied to the first `count` of them.
spec fn pruned_prefix(store: StoreModel, now_ms: i64, count: nat) -> Seq<StreamModel> {
    Seq::new(
        store.streams.len(),
        |i: int|
            if i < count {
                store.pruned(store.streams[i], now_ms)
            } else {
                store.streams[i]
            },
    )
}

proof fn lemma_retention_keeps_limits(store: StoreModel, now_ms: i64, count: nat)
    requires
        store.wf(),
        within_limits(store),
        count <= store.streams.len(),
    ensures
        within_limits(StoreModel { streams: pruned_prefix(store, now_ms, count), ..store }),
    decreases count,
{
    if count == 0 {
        assert(pruned_prefix(store, now_ms, 0) =~= store.streams);
    } else {
        let i = count - 1;
        lemma_retention_keeps_limits(store, now_ms, (count - 1) as nat);
        let earlier = StoreModel { streams: pruned_prefix(store, now_ms, i as nat), ..store };
        let stream = store.streams[i];
        assert(stream.wf());
        assert(earlier.streams[i] == stream);
        let pruned = store.pruned(stream, now_ms);
        let later = StoreModel { streams: pruned_prefix(store, now_ms, count), ..store };
        assert(later.streams =~= earlier.streams.update(i, pruned));
        lemma_due_bounded(store, stream, now_ms);
        let due = store.due_groups(stream, now_ms);
        lemma_groups_bytes_skip(stream.groups, due as int);
        lemma_streams_bytes_update(earlier.streams, i, pruned);
        assert forall|publisher_id: [u8; 32]| #[trigger]
            publisher_streams(later.streams, publisher_id)
                <= later.limits.max_streams_per_publisher by {
            lemma_publisher_bytes_update(earlier.streams, i, pruned, publisher_id);
            assert(publisher_streams(earlier.streams, publisher_id)
                <= store.limits.max_streams_per_publisher);
        }
        assert forall|publisher_id: [u8; 32]| #[trigger]
            publisher_bytes(later.streams, publisher_id) <= later.limits.max_publisher_bytes by {
            lemma_publisher_bytes_update(earlier.streams, i, pruned, publisher_id);
            assert(publisher_bytes(earlier.streams, publisher_id)
                <= store.limits.max_publisher_bytes);
        }
        assert forall|k: int, g: int|
            0 <= k < later.streams.len() && 0 <= g < later.streams[k].groups.len() implies
            group_within_limits(later, #[trigger] later.streams[k].groups[g]) by {
            if k == i {
                assert(later.streams[k].groups[g] == earlier.streams[k].groups[g + due]);
                assert(group_within_limits(earlier, earlier.streams[k].groups[g + due]));
            } else {
                assert(group_within_limits(earlier, earlier.streams[k].groups[g]));
            }
        }
    }
}

proof fn lemma_descriptor_limits(
    before: StoreModel,
    stream_id: u128,
    publisher: IdentityPublic,
    encoded: Seq<u8>,
    valid: bool,
    after: StoreModel,
)
    requires
        before.wf(),
        within_limits(before),
        before.describes(stream_id, publisher, encoded, valid, after),
    ensures
        within_limits(after),
{
    if before.descriptor_refusal(stream_id, publisher, valid) is None && after != before {
        match before.find(stream_id) {
            Some(index) => {
                let stream = before.streams[index];
                let renewed = StreamModel { publisher, descriptor: encoded, ..stream };
                lemma_streams_bytes_update(before.streams, index, renewed);
                assert forall|publisher_id: [u8; 32]| #[trigger]
                    publisher_streams(after.streams, publisher_id)
                        <= after.limits.max_streams_per_publisher by {
                    lemma_publisher_bytes_update(before.streams, index, renewed, publisher_id);
                    assert(publisher_streams(before.streams, publisher_id)
                        <= before.limits.max_streams_per_publisher);
                }
                assert forall|publisher_id: [u8; 32]| #[trigger]
                    publisher_bytes(after.streams, publisher_id)
                        <= after.limits.max_publisher_bytes by {
                    lemma_publisher_bytes_update(before.streams, index, renewed, publisher_id);
                    assert(publisher_bytes(before.streams, publisher_id)
                        <= before.limits.max_publisher_bytes);
                }
                assert forall|i: int, g: int|
                    0 <= i < after.streams.len() && 0 <= g
                        < after.streams[i].groups.len() implies group_within_limits(
                    after,
                    #[trigger] after.streams[i].groups[g],
                ) by {
                    assert(group_within_limits(before, before.streams[i].groups[g]));
                }
            },
            None => {
                let fresh = fresh_stream(stream_id, publisher, encoded);
                let p = choose|p: int| #[trigger]
                    before.is_insertion_point(stream_id, p) && after == (StoreModel {
                        streams: before.streams.insert(p, fresh),
                        ..before
                    });
                assert(groups_bytes(fresh.groups) == 0);
                lemma_streams_bytes_insert(before.streams, p, fresh);
                assert forall|publisher_id: [u8; 32]| #[trigger]
                    publisher_streams(after.streams, publisher_id)
                        <= after.limits.max_streams_per_publisher by {
                    lemma_publisher_bytes_insert(before.streams, p, fresh, publisher_id);
                    assert(publisher_streams(before.streams, publisher_id)
                        <= before.limits.max_streams_per_publisher);
                }
                assert forall|publisher_id: [u8; 32]| #[trigger]
                    publisher_bytes(after.streams, publisher_id)
                        <= after.limits.max_publisher_bytes by {
                    lemma_publisher_bytes_insert(before.streams, p, fresh, publisher_id);
                    assert(publisher_bytes(before.streams, publisher_id)
                        <= before.limits.max_publisher_bytes);
                }
                assert forall|i: int, g: int|
                    0 <= i < after.streams.len() && 0 <= g
                        < after.streams[i].groups.len() implies group_within_limits(
                    after,
                    #[trigger] after.streams[i].groups[g],
                ) by {
                    if i < p {
                        assert(after.streams[i] == before.streams[i]);
                        assert(group_within_limits(before, before.streams[i].groups[g]));
                    } else if i > p {
                        assert(after.streams[i] == before.streams[i - 1]);
                        assert(group_within_limits(before, before.streams[i - 1].groups[g]));
                    }
                }
            },
        }
    }
}

} // verus!

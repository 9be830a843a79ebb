//! What holds of envelopes, descriptions and the store as a whole. Each law speaks of what a
//! call may return, or leave behind, for what it was given.

use core::time::Duration;

use vstd::prelude::*;

use crate::records::{KeyEnvelope, StreamDescriptor};
use crate::store::{lemma_find, streams_view, NativeStore, StoredStream};
use crate::store_lemmas::{lemma_envelope_of, lemma_group_index};
use crate::store_model::{
    envelopes_for, GroupModel, NativeRetainedBounds, NativeStoreLimits, NativeStreamSummary,
    StoreError,
};

verus! {

/// An envelope is stored if its publisher signed it for a group that is retained under its
/// key and its viewer has none there yet, or refused at a limit. The same envelope again
/// changes nothing and is not new; another one for the same viewer is refused.
pub proof fn envelopes_are_stored_once(
    store: &mut NativeStore,
    envelope: &KeyEnvelope,
    received_at_ms: i64,
    result: Result<bool, StoreError>,
    g: int,
)
    requires
        old(store)@.wf(),
        call_ensures(NativeStore::store_envelope, (store, envelope, received_at_ms), result),
        old(store)@.stream(envelope.header.stream_id) is Some,
        0 <= g < old(store)@.stream(envelope.header.stream_id)->0.groups.len(),
        ({
            let group = old(store)@.stream(envelope.header.stream_id)->0.groups[g];
            group.epoch_id == envelope.header.epoch_id && group.key_group
                == envelope.header.key_group_id
        }),
    ensures
        ({
            let stream = old(store)@.stream(envelope.header.stream_id)->0;
            let group = stream.groups[g];
            let sound = envelope.shape_valid && envelope.signer == Some(stream.publisher)
                && group.key_id == envelope.header.key_id;
            let held = exists|k: int|
                0 <= k < group.envelopes.len() && (
                #[trigger] group.envelopes[k]).header.recipient_id == envelope.header.recipient_id;
            &&& !sound ==> result is Err
            &&& result is Err ==> final(store)@ == old(store)@
            &&& result == Ok::<bool, StoreError>(false) ==> final(store)@ == old(store)@
            &&& sound && held ==> result == (if exists|k: int|
                0 <= k < group.envelopes.len() && (
                #[trigger] group.envelopes[k]).header.recipient_id == envelope.header.recipient_id
                    && group.envelopes[k].encoded == envelope.encoded@ {
                Ok::<bool, StoreError>(false)
            } else {
                Err::<bool, StoreError>(StoreError::Conflict)
            })
            &&& sound && !held ==> (result == Ok::<bool, StoreError>(true) || result == Err::<
                bool,
                StoreError,
            >(StoreError::GroupLimitReached) || result == Err::<bool, StoreError>(
                StoreError::QuotaReached,
            ) || result == Err::<bool, StoreError>(StoreError::BeyondDurableBound))
            &&& sound && !held && group.envelopes.len() >= old(store)@.limits.max_envelopes_per_group ==> result is Err
        }),
{
    let header = envelope.header;
    let stream = old(store)@.stream(header.stream_id)->0;
    let index = old(store)@.find(header.stream_id)->0;
    assert(old(store)@.streams[index].wf());
    let group = stream.groups[g];
    assert(group.is_named(header.epoch_id, header.key_group_id));
    lemma_group_index(stream, header.epoch_id, header.key_group_id, g);
    assert(group.wf());
    if exists|k: int|
        0 <= k < group.envelopes.len() && (#[trigger] group.envelopes[k]).header.recipient_id
            == header.recipient_id {
        let k = choose|k: int|
            0 <= k < group.envelopes.len() && (#[trigger] group.envelopes[k]).header.recipient_id
                == header.recipient_id;
        lemma_envelope_of(group, header.recipient_id, k);
        assert forall|j: int|
            0 <= j < group.envelopes.len() && (#[trigger] group.envelopes[j]).header.recipient_id
                == header.recipient_id implies j == k by {
            lemma_envelope_of(group, header.recipient_id, j);
            if j < k {
                assert(group.envelopes[j].header.recipient_id
                    != group.envelopes[k].header.recipient_id);
            }
            if k < j {
                assert(group.envelopes[k].header.recipient_id
                    != group.envelopes[j].header.recipient_id);
            }
        }
    }
}

/// An envelope for a stream or a group that is not there is refused, and nothing changes.
pub proof fn envelopes_need_their_group(
    store: &mut NativeStore,
    envelope: &KeyEnvelope,
    received_at_ms: i64,
    result: Result<bool, StoreError>,
)
    requires
        old(store)@.wf(),
        call_ensures(NativeStore::store_envelope, (store, envelope, received_at_ms), result),
        old(store)@.stream(envelope.header.stream_id) matches Some(stream) ==> forall|g: int|
            0 <= g < stream.groups.len() ==> (#[trigger] stream.groups[g]).epoch_id
                != envelope.header.epoch_id || stream.groups[g].key_group
                != envelope.header.key_group_id,
    ensures
        result is Err,
        final(store)@ == old(store)@,
{
    let header = envelope.header;
    if let Some(stream) = old(store)@.stream(header.stream_id) {
        if stream.group_index(header.epoch_id, header.key_group_id) is Some {
            let g = stream.group_index(header.epoch_id, header.key_group_id)->0;
            assert(stream.groups[g].is_named(header.epoch_id, header.key_group_id));
        }
    }
}

/// A stored envelope is fetched by its viewer, byte for byte, for as long as its group is
/// retained.
pub proof fn stored_envelopes_are_fetched(
    store: &mut NativeStore,
    envelope: &KeyEnvelope,
    received_at_ms: i64,
    result: Result<bool, StoreError>,
    after: &NativeStore,
    fetched: Result<Option<KeyEnvelope>, StoreError>,
)
    requires
        old(store)@.wf(),
        call_ensures(NativeStore::store_envelope, (store, envelope, received_at_ms), result),
        result is Ok,
        after@ == final(store)@,
        call_ensures(
            NativeStore::get_envelope,
            (
                after,
                envelope.header.stream_id,
                envelope.header.epoch_id,
                envelope.header.key_group_id,
                envelope.header.recipient_id,
            ),
            fetched,
        ),
        envelope.header.stream_id != 0,
        envelope.header.epoch_id != 0,
        !crate::bytes::is_zero(envelope.header.recipient_id),
        exists|g: int|
            0 <= g < final(store)@.stream(envelope.header.stream_id)->0.groups.len() && (
            #[trigger] final(store)@.stream(envelope.header.stream_id)->0.groups[g]).is_named(
                envelope.header.epoch_id,
                envelope.header.key_group_id,
            ),
    ensures
        fetched matches Ok(Some(given)) && given.encoded@ == envelope.encoded@
            && given.header.recipient_id == envelope.header.recipient_id,
{
    let header = envelope.header;
    crate::store_laws::stored_envelope_reads_back(old(store)@, envelope@, received_at_ms);
    let stream = final(store)@.stream(header.stream_id)->0;
    let index = final(store)@.find(header.stream_id)->0;
    assert(final(store)@.streams[index].wf());
    let g = stream.group_index(header.epoch_id, header.key_group_id)->0;
    assert(stream.groups[g].wf());
    assert(stream.groups[g].is_named(header.epoch_id, header.key_group_id));
    if let Ok(Some(given)) = fetched {
        assert(given@ == crate::store_model::delivered_envelope(
            stream.groups[g].envelope_of(header.recipient_id)->0,
            stream.publisher,
        ));
    }
}

proof fn lemma_envelopes_for(groups: Seq<GroupModel>, recipient_id: [u8; 32])
    ensures
        forall|k: int|
            0 <= k < envelopes_for(groups, recipient_id).len() ==> exists|g: int|
                0 <= g < groups.len() && (#[trigger] groups[g]).envelope_of(recipient_id) == Some(
                    #[trigger] envelopes_for(groups, recipient_id)[k],
                ),
        forall|g: int|
            0 <= g < groups.len() ==> ((#[trigger] groups[g]).envelope_of(recipient_id) matches Some(
                envelope,
            ) ==> envelopes_for(groups, recipient_id).contains(envelope)),
        groups.len() > 0 && groups.last().envelope_of(recipient_id) is Some ==> envelopes_for(
            groups,
            recipient_id,
        ).len() > 0 && envelopes_for(groups, recipient_id)[0] == groups.last().envelope_of(
            recipient_id,
        )->0,
    decreases groups.len(),
{
    if groups.len() > 0 {
        let rest = groups.drop_last();
        lemma_envelopes_for(rest, recipient_id);
        let older = envelopes_for(rest, recipient_id);
        let all = envelopes_for(groups, recipient_id);
        let newest = groups.last().envelope_of(recipient_id);
        let shift: int = if newest is Some {
            1
        } else {
            0
        };
        assert forall|k: int| 0 <= k < all.len() implies exists|g: int|
            0 <= g < groups.len() && (#[trigger] groups[g]).envelope_of(recipient_id) == Some(
                #[trigger] all[k],
            ) by {
            if k < shift {
                assert(groups[groups.len() - 1].envelope_of(recipient_id) == Some(all[k]));
            } else {
                assert(all[k] == older[k - shift]);
                let g = choose|g: int|
                    0 <= g < rest.len() && (#[trigger] rest[g]).envelope_of(recipient_id) == Some(
                        older[k - shift],
                    );
                assert(groups[g].envelope_of(recipient_id) == Some(all[k]));
            }
        }
        assert forall|g: int| 0 <= g < groups.len() implies ((#[trigger] groups[g]).envelope_of(
            recipient_id,
        ) matches Some(envelope) ==> all.contains(envelope)) by {
            if let Some(envelope) = groups[g].envelope_of(recipient_id) {
                if g < rest.len() {
                    assert(rest[g] == groups[g]);
                    let k = choose|k: int| 0 <= k < older.len() && older[k] == envelope;
                    assert(all[k + shift] == envelope);
                } else {
                    assert(all[0] == envelope);
                }
            }
        }
    }
}

/// A viewer's list holds only its own envelopes, those of the newest group first and no more
/// than it asked for; where it asked for enough it holds every one that is retained.
pub proof fn viewers_list_their_envelopes(
    store: &NativeStore,
    stream_id: u128,
    recipient_id: [u8; 32],
    limit: usize,
    result: Result<Vec<KeyEnvelope>, StoreError>,
    g: int,
    e: int,
)
    requires
        store@.wf(),
        call_ensures(NativeStore::list_envelopes, (store, stream_id, recipient_id, limit), result),
        store@.stream(stream_id) is Some,
        0 <= g < store@.stream(stream_id)->0.groups.len(),
        0 <= e < store@.stream(stream_id)->0.groups[g].envelopes.len(),
        store@.stream(stream_id)->0.groups[g].envelopes[e].header.recipient_id == recipient_id,
    ensures
        result is Ok <==> 1 <= limit <= 16_384 && !crate::bytes::is_zero(recipient_id),
        result matches Ok(listed) ==> {
            let stream = store@.stream(stream_id)->0;
            &&& 1 <= listed@.len() <= limit
            &&& forall|k: int|
                0 <= k < listed@.len() ==> (#[trigger] listed@[k]).header.recipient_id
                    == recipient_id && listed@[k].signer == Some(stream.publisher)
            &&& g == stream.groups.len() - 1 ==> listed@[0].encoded@
                == stream.groups[g].envelopes[e].encoded
            &&& listed@.len() < limit ==> exists|k: int|
                0 <= k < listed@.len() && (#[trigger] listed@[k]).encoded@
                    == stream.groups[g].envelopes[e].encoded
        },
{
    let stream = store@.stream(stream_id)->0;
    let index = store@.find(stream_id)->0;
    assert(store@.streams[index].wf());
    let group = stream.groups[g];
    assert(group.wf());
    lemma_envelope_of(group, recipient_id, e);
    lemma_envelopes_for(stream.groups, recipient_id);
    let all = envelopes_for(stream.groups, recipient_id);
    assert(all.contains(group.envelopes[e]));
    if let Ok(listed) = result {
        assert forall|k: int| 0 <= k < listed@.len() implies (
        #[trigger] listed@[k]).header.recipient_id == recipient_id && listed@[k].signer == Some(
            stream.publisher,
        ) by {
            assert(listed@[k]@ == crate::store_model::delivered_envelope(
                all[k],
                stream.publisher,
            ));
            let h = choose|h: int|
                0 <= h < stream.groups.len() && (#[trigger] stream.groups[h]).envelope_of(
                    recipient_id,
                ) == Some(all[k]);
            assert(stream.groups[h].wf());
        }
        if listed@.len() < limit {
            let k = choose|k: int| 0 <= k < all.len() && all[k] == group.envelopes[e];
            assert(listed@[k]@ == crate::store_model::delivered_envelope(
                all[k],
                stream.publisher,
            ));
            assert(listed@[k].encoded@ == group.envelopes[e].encoded);
        }
        assert(listed@.len() >= 1);
        assert(listed@[0]@ == crate::store_model::delivered_envelope(all[0], stream.publisher));
    }
}

/// A description is stored if it is valid, its publisher has an identity, the stream is its
/// own and there is room. It is then read back as it was given, and the stream keeps what was
/// published of it; a new stream has nothing yet.
pub proof fn described_streams_are_kept(
    store: &mut NativeStore,
    descriptor: &StreamDescriptor,
    result: Result<(), StoreError>,
    after: &NativeStore,
    read: Option<StreamDescriptor>,
)
    requires
        old(store)@.wf(),
        call_ensures(NativeStore::put_descriptor, (store, descriptor), result),
        after@ == final(store)@,
        call_ensures(NativeStore::descriptor, (after, descriptor.stream_id), read),
    ensures
        result is Err ==> final(store)@ == old(store)@,
        !descriptor.valid || descriptor.publisher.fingerprint is None ==> result is Err,
        old(store)@.stream(descriptor.stream_id) matches Some(stream) ==> {
            &&& descriptor.publisher.fingerprint != Some(stream.publisher_id) ==> result is Err
            &&& descriptor.valid && descriptor.publisher.fingerprint == Some(stream.publisher_id)
                ==> result is Ok
        },
        old(store)@.stream(descriptor.stream_id) is None && old(store)@.streams.len() >= old(store)@.limits.max_streams ==> result is Err,
        result is Ok ==> {
            &&& read matches Some(read) && read.encoded@ == descriptor.encoded@
                && read.publisher.fingerprint == descriptor.publisher.fingerprint
            &&& final(store)@.stream(descriptor.stream_id) matches Some(stream) && match old(store)@.stream(descriptor.stream_id) {
                Some(before) => stream.groups == before.groups && stream.high_water
                    == before.high_water && stream.active == before.active,
                None => stream.groups.len() == 0 && stream.high_water == 0 && stream.active
                    is None,
            }
        },
{
    let id = descriptor.stream_id;
    let before = old(store)@;
    let now = final(store)@;
    if result is Ok {
        if let Some(index) = before.find(id) {
            assert(before.streams[index].stream_id == id);
            assert(before.streams[index].wf());
            if now != before {
                lemma_find(now, id, index);
            }
        } else {
            let p = choose|p: int| #[trigger]
                before.is_insertion_point(id, p) && now == (crate::store_model::StoreModel {
                    streams: before.streams.insert(
                        p,
                        crate::store_model::fresh_stream(
                            id,
                            descriptor.publisher,
                            descriptor.encoded@,
                        ),
                    ),
                    ..before
                });
            assert(now.streams[p].stream_id == id);
            lemma_find(now, id, p);
        }
    }
}

/// A stream whose publisher has gone keeps everything, and its groups are complete. A stream
/// that is not there cannot be ended.
pub proof fn finalized_streams_keep_everything(
    store: &mut NativeStore,
    stream_id: u128,
    result: Result<(), StoreError>,
    after: &NativeStore,
    high_water: Option<u64>,
)
    requires
        old(store)@.wf(),
        call_ensures(NativeStore::finalize_stream, (store, stream_id), result),
        after@ == final(store)@,
        call_ensures(NativeStore::high_water, (after, stream_id), high_water),
    ensures
        result is Ok <==> old(store)@.stream(stream_id) is Some,
        result is Err ==> final(store)@ == old(store)@,
        old(store)@.stream(stream_id) matches Some(before) ==> {
            &&& high_water == Some(before.high_water)
            &&& final(store)@.stream(stream_id) matches Some(stream) && {
                &&& stream.active is None
                &&& stream.groups.len() == before.groups.len()
                &&& forall|g: int|
                    0 <= g < stream.groups.len() ==> {
                        &&& (#[trigger] stream.groups[g]).complete
                        &&& stream.groups[g].objects == before.groups[g].objects
                        &&& stream.groups[g].envelopes == before.groups[g].envelopes
                    }
            }
        },
{
    if let Some(index) = old(store)@.find(stream_id) {
        let before = old(store)@.streams[index];
        assert(before.stream_id == stream_id);
        assert(before.wf());
        lemma_find(final(store)@, stream_id, index);
        let stream = final(store)@.stream(stream_id)->0;
        assert forall|g: int| 0 <= g < stream.groups.len() implies ({
            &&& (#[trigger] stream.groups[g]).complete
            &&& stream.groups[g].objects == before.groups[g].objects
            &&& stream.groups[g].envelopes == before.groups[g].envelopes
        }) by {
            assert(before.groups[g].wf());
        }
    }
}

/// A summary tells of each stream, in the order of their identifiers, what the store tells of
/// it one by one.
pub proof fn summaries_tell_what_the_store_tells(
    store: &NativeStore,
    result: Vec<(u128, NativeStreamSummary)>,
    i: int,
    j: int,
    high_water: Option<u64>,
    retained: Option<NativeRetainedBounds>,
)
    requires
        store@.wf(),
        call_ensures(NativeStore::summaries, (store,), result),
        0 <= i < j < result@.len(),
        call_ensures(NativeStore::high_water, (store, result@[i].0), high_water),
        call_ensures(NativeStore::retained_bounds, (store, result@[i].0), retained),
    ensures
        result@.len() == store@.streams.len(),
        result@[i].0 < result@[j].0,
        Some(result@[i].1.high_water) == high_water,
        result@[i].1.retained == retained,
        store@.stream(result@[i].0) matches Some(stream) && stream.publisher_id
            == result@[i].1.publisher_id,
{
    lemma_find(store@, store@.streams[i].stream_id, i);
    assert(store@.streams[i].stream_id < store@.streams[j].stream_id);
}

/// A store opens empty. Retention limits must be positive, and limits must fit each other.
pub proof fn stores_open_empty(
    retention_bytes: Option<u64>,
    retention_age: Option<Duration>,
    limits: NativeStoreLimits,
    result: Result<NativeStore, StoreError>,
    plain: Result<NativeStore, StoreError>,
    stream_id: u128,
)
    requires
        call_ensures(
            NativeStore::open_with_limits,
            (retention_bytes, retention_age, limits),
            result,
        ),
        call_ensures(NativeStore::open, (retention_bytes, retention_age), plain),
    ensures
        result matches Ok(store) ==> {
            &&& store@.streams.len() == 0
            &&& store@.stream(stream_id) is None
            &&& store@.limits == limits
            &&& store@.retention_bytes == retention_bytes
            &&& retention_age is None ==> store@.retention_age_ms is None
            &&& retention_age matches Some(age) ==> (store@.retention_age_ms matches Some(ms)
                && (ms == i64::MAX || (ms * 1_000_000 <= crate::time::duration_nanos(age)
                && crate::time::duration_nanos(age) < (ms + 1) * 1_000_000)))
        },
        plain matches Ok(store) ==> store@.streams.len() == 0 && store@.retention_bytes
            == retention_bytes,
        retention_bytes == Some(0u64) ==> result is Err && plain is Err,
        retention_bytes != Some(0u64) && retention_age is None ==> plain is Ok && (result is Ok
            <==> limits.max_streams_per_publisher >= 1 && limits.max_streams_per_publisher
            <= limits.max_streams && limits.max_objects_per_group >= 1 && limits.max_group_bytes
            >= 1 && limits.max_envelopes_per_group >= 1 && 1 <= limits.max_publisher_bytes
            <= limits.max_total_bytes),
{
}

/// A store that was written down is read back with every stream as it was.
pub proof fn restored_stores_are_the_same(
    store: &NativeStore,
    streams: &Vec<StoredStream>,
    agree: bool,
    copy: Vec<StoredStream>,
    retention_bytes: Option<u64>,
    retention_age: Option<Duration>,
    limits: NativeStoreLimits,
    result: Result<NativeStore, StoreError>,
)
    requires
        store@.wf(),
        call_ensures(NativeStore::streams, (store,), streams),
        call_ensures(NativeStore::rows_agree, (streams,), agree),
        streams_view(copy@) == streams_view(streams@),
        limits == store@.limits,
        call_ensures(
            NativeStore::restore,
            (retention_bytes, retention_age, limits, copy),
            result,
        ),
    ensures
        result matches Ok(restored) ==> restored@.streams == store@.streams && restored@.limits
            == store@.limits,
        retention_bytes != Some(0u64) && retention_age is None ==> result is Ok,
{
}

} // verus!

//! What holds of the relay's answers, whatever it has stored. Each law speaks of what a call
//! may return for what it was given.

use core::time::Duration;

use vstd::prelude::*;

use crate::access::NativeAdmission;
use crate::records::{KeyEnvelope, NativeObject, NativeObjectKind, SubscriptionStart};
use crate::service::{
    read_deadline, ReadDeadline, RelayErrorCode, ServiceError, SessionRefusal,
};
use crate::store::{lemma_find, NativeStore};
use crate::store_laws::lemma_due_bounded;
use crate::store_lemmas::{
    lemma_envelope_of, lemma_group_index, lemma_object_at, lemma_retained_run,
};
use crate::store_model::{
    cutoff_at, envelopes_bytes, envelopes_for, evict_count, groups_bytes, last_group_at, latest_group_at,
    newest_timestamp, objects_bytes, oldest_timestamp, EnvelopeModel, GroupModel, NativeCommit,
    NativeRetainedBounds, ObjectModel, StoreError, StoreModel, StreamModel,
};
use crate::subscription::{
    session_gate, subscription_gate, LiveEvent, LiveStep, Subscription,
};
use crate::time::duration_nanos;

verus! {

/// The bytes of a run of groups, added up.
pub open spec fn total_bytes(groups: Seq<GroupModel>) -> int {
    groups.fold_left(0int, |sum: int, group: GroupModel| sum + group.retained_bytes)
}

/// The bytes of the objects of a group, added up.
pub open spec fn object_total(objects: Seq<ObjectModel>) -> int {
    objects.fold_left(0int, |sum: int, object: ObjectModel| sum + object.encoded.len())
}

/// The bytes of the envelopes of a group, added up.
pub open spec fn envelope_total(envelopes: Seq<EnvelopeModel>) -> int {
    envelopes.fold_left(0int, |sum: int, envelope: EnvelopeModel| sum + envelope.encoded.len())
}

proof fn lemma_total_bytes(groups: Seq<GroupModel>)
    ensures
        groups_bytes(groups) == total_bytes(groups),
    decreases groups.len(),
{
    if groups.len() > 0 {
        lemma_total_bytes(groups.drop_last());
    }
}

proof fn lemma_object_total(objects: Seq<ObjectModel>)
    ensures
        objects_bytes(objects) == object_total(objects),
    decreases objects.len(),
{
    if objects.len() > 0 {
        lemma_object_total(objects.drop_last());
    }
}

proof fn lemma_envelope_total(envelopes: Seq<EnvelopeModel>)
    ensures
        envelopes_bytes(envelopes) == envelope_total(envelopes),
    decreases envelopes.len(),
{
    if envelopes.len() > 0 {
        lemma_envelope_total(envelopes.drop_last());
    }
}

/// A group counts every byte of its objects and of its envelopes.
pub proof fn groups_count_every_byte(group: GroupModel)
    requires
        group.wf(),
    ensures
        group.retained_bytes == object_total(group.objects) + envelope_total(group.envelopes),
{
    lemma_object_total(group.objects);
    lemma_envelope_total(group.envelopes);
}

/// The group of a time is found: the latest start at or before it, and of equal starts the
/// newest.
proof fn lemma_latest_group(groups: Seq<GroupModel>, timestamp: u64)
    ensures
        match latest_group_at(groups, timestamp) {
            Some(g) => {
                &&& 0 <= g < groups.len()
                &&& groups[g].first_timestamp <= timestamp
                &&& forall|h: int|
                    0 <= h < groups.len() && (#[trigger] groups[h]).first_timestamp <= timestamp
                        ==> groups[h].first_timestamp < groups[g].first_timestamp || (
                    groups[h].first_timestamp == groups[g].first_timestamp && h <= g)
            },
            None => forall|h: int|
                0 <= h < groups.len() ==> (#[trigger] groups[h]).first_timestamp > timestamp,
        },
    decreases groups.len(),
{
    if groups.len() > 0 {
        let shorter = groups.drop_last();
        lemma_latest_group(shorter, timestamp);
        let last = groups.len() - 1;
        match latest_group_at(groups, timestamp) {
            Some(g) => {
                assert forall|h: int|
                    0 <= h < groups.len() && (#[trigger] groups[h]).first_timestamp
                        <= timestamp implies groups[h].first_timestamp
                    < groups[g].first_timestamp || (groups[h].first_timestamp
                    == groups[g].first_timestamp && h <= g) by {
                    if h < last {
                        assert(shorter[h] == groups[h]);
                    }
                    if g < last {
                        assert(shorter[g] == groups[g]);
                    }
                }
            },
            None => {
                assert forall|h: int| 0 <= h < groups.len() implies (
                #[trigger] groups[h]).first_timestamp > timestamp by {
                    if h < last {
                        assert(shorter[h] == groups[h]);
                    }
                }
            },
        }
    }
}

proof fn lemma_last_group(groups: Seq<GroupModel>, sequence: u64)
    ensures
        match last_group_at(groups, sequence) {
            Some(g) => {
                &&& 0 <= g < groups.len()
                &&& groups[g].first_sequence <= sequence
                &&& forall|h: int|
                    g < h < groups.len() ==> (#[trigger] groups[h]).first_sequence > sequence
            },
            None => forall|h: int|
                0 <= h < groups.len() ==> (#[trigger] groups[h]).first_sequence > sequence,
        },
    decreases groups.len(),
{
    if groups.len() > 0 && groups.last().first_sequence > sequence {
        let shorter = groups.drop_last();
        lemma_last_group(shorter, sequence);
        assert forall|h: int|
            0 <= h < groups.len() && (last_group_at(groups, sequence) matches Some(g) ==> g
                < h) implies (#[trigger] groups[h]).first_sequence > sequence by {
            if h < groups.len() - 1 {
                assert(shorter[h] == groups[h]);
            }
        }
    }
}

/// A subscription from a time begins with the group that starts latest at or before it, the
/// newest of them where several start together, however long ago that group ended.
pub proof fn time_starts_find_their_group(
    store: &NativeStore,
    stream_id: u128,
    timestamp: u64,
    result: Result<u64, StoreError>,
    g: int,
)
    requires
        store@.wf(),
        call_ensures(
            NativeStore::subscription_anchor,
            (store, stream_id, SubscriptionStart::Timestamp(timestamp)),
            result,
        ),
        timestamp <= 0x7fff_ffff_ffff_ffff,
        store@.stream(stream_id) is Some,
        ({
            let groups = store@.stream(stream_id)->0.groups;
            &&& 0 <= g < groups.len()
            &&& groups[g].first_timestamp <= timestamp
            &&& forall|h: int|
                0 <= h < groups.len() && (#[trigger] groups[h]).first_timestamp <= timestamp
                    ==> groups[h].first_timestamp <= groups[g].first_timestamp
            &&& forall|h: int|
                g < h < groups.len() ==> (#[trigger] groups[h]).first_timestamp
                    != groups[g].first_timestamp
        }),
    ensures
        result == Ok::<u64, StoreError>(store@.stream(stream_id)->0.groups[g].first_sequence),
{
    let groups = store@.stream(stream_id)->0.groups;
    lemma_latest_group(groups, timestamp);
    let found = latest_group_at(groups, timestamp)->0;
    assert(groups[g].first_timestamp <= timestamp);
    assert(groups[found].first_timestamp <= timestamp);
    assert(found == g);
}

/// A subscription from a sequence begins with the group that holds it, or else with the
/// nearest group before it.
pub proof fn sequence_starts_find_their_group(
    store: &NativeStore,
    stream_id: u128,
    sequence: u64,
    result: Result<u64, StoreError>,
    g: int,
)
    requires
        store@.wf(),
        call_ensures(
            NativeStore::subscription_anchor,
            (store, stream_id, SubscriptionStart::Sequence(sequence)),
            result,
        ),
        sequence <= 0x7fff_ffff_ffff_ffff,
        store@.stream(stream_id) is Some,
        ({
            let groups = store@.stream(stream_id)->0.groups;
            &&& 0 <= g < groups.len()
            &&& groups[g].first_sequence <= sequence
            &&& g + 1 < groups.len() ==> sequence < groups[g + 1].first_sequence
        }),
    ensures
        result == Ok::<u64, StoreError>(store@.stream(stream_id)->0.groups[g].first_sequence),
{
    let stream = store@.stream(stream_id)->0;
    let groups = stream.groups;
    let index = store@.find(stream_id)->0;
    assert(store@.streams[index].wf());
    lemma_last_group(groups, sequence);
    let found = last_group_at(groups, sequence)->0;
    assert(groups[g].first_sequence <= sequence);
    if found > g {
        assert(groups[g + 1].wf() && groups[found].wf());
        if found > g + 1 {
            assert(groups[g + 1].last_sequence < groups[found].first_sequence);
        }
    }
    assert(found == g);
}

/// A start that lies before everything retained, or asks for the oldest, begins with the
/// oldest complete group. Without one, and for a start that waits for what is next, it begins
/// behind the last sequence.
pub proof fn early_starts_begin_with_the_oldest_group(
    store: &NativeStore,
    stream_id: u128,
    start: SubscriptionStart,
    result: Result<u64, StoreError>,
)
    requires
        store@.wf(),
        call_ensures(NativeStore::subscription_anchor, (store, stream_id, start), result),
        store@.stream(stream_id) is Some,
        ({
            let groups = store@.stream(stream_id)->0.groups;
            match start {
                SubscriptionStart::Live => true,
                SubscriptionStart::OldestRetained => true,
                SubscriptionStart::Sequence(sequence) => sequence <= 0x7fff_ffff_ffff_ffff
                    && forall|h: int|
                    0 <= h < groups.len() ==> (#[trigger] groups[h]).first_sequence > sequence,
                SubscriptionStart::Timestamp(timestamp) => timestamp <= 0x7fff_ffff_ffff_ffff
                    && forall|h: int|
                    0 <= h < groups.len() ==> (#[trigger] groups[h]).first_timestamp > timestamp,
            }
        }),
    ensures
        ({
            let stream = store@.stream(stream_id)->0;
            result == Ok::<u64, StoreError>(
                if !(start is Live) && stream.groups.len() > 0 && stream.groups[0].complete {
                    stream.groups[0].first_sequence
                } else {
                    (stream.high_water + 1) as u64
                },
            )
        }),
{
    let stream = store@.stream(stream_id)->0;
    let index = store@.find(stream_id)->0;
    assert(store@.streams[index].wf());
    if let SubscriptionStart::Sequence(sequence) = start {
        lemma_last_group(stream.groups, sequence);
    }
    if let SubscriptionStart::Timestamp(timestamp) = start {
        lemma_latest_group(stream.groups, timestamp);
    }
    if stream.groups.len() > 0 && stream.groups[0].complete {
        assert(stream.complete_count() > 0);
    } else if stream.groups.len() > 0 {
        assert(stream.groups.len() == 1);
    }
}

/// A live join begins with the group that is open, so that the viewer can decode at once, or
/// else behind the last sequence.
pub proof fn live_joins_begin_with_the_open_group(
    store: &NativeStore,
    stream_id: u128,
    result: Result<u64, StoreError>,
)
    requires
        store@.wf(),
        call_ensures(NativeStore::live_anchor, (store, stream_id), result),
    ensures
        store@.stream(stream_id) is None ==> result == Err::<u64, StoreError>(
            StoreError::UnknownStream,
        ),
        store@.stream(stream_id) matches Some(stream) ==> result == Ok::<u64, StoreError>(
            if stream.groups.len() > 0 && !stream.groups.last().complete {
                stream.groups.last().first_sequence
            } else {
                (stream.high_water + 1) as u64
            },
        ),
{
    if store@.stream(stream_id) is Some {
        let index = store@.find(stream_id)->0;
        assert(store@.streams[index].wf());
    }
}

/// Every object of every retained group is read by its sequence, as it was stored, and no
/// other sequence gives anything.
pub proof fn objects_are_read_by_their_sequence(
    store: &NativeStore,
    stream_id: u128,
    sequence: u64,
    result: Result<Option<NativeObject>, StoreError>,
    g: int,
    k: int,
)
    requires
        store@.wf(),
        call_ensures(NativeStore::get_object, (store, stream_id, sequence), result),
        sequence <= 0x7fff_ffff_ffff_ffff,
    ensures
        store@.stream(stream_id) is None ==> (result matches Ok(None)),
        store@.stream(stream_id) matches Some(stream) ==> {
            &&& 0 <= g < stream.groups.len() && 0 <= k < stream.groups[g].objects.len()
                && sequence == stream.groups[g].first_sequence + k ==> {
                &&& result matches Ok(Some(object))
                &&& object.header == stream.groups[g].objects[k].header
                &&& object.encoded@ == stream.groups[g].objects[k].encoded
                &&& object.signer == Some(stream.publisher)
            }
            &&& (stream.groups.len() == 0 || sequence < stream.groups[0].first_sequence || sequence
                > stream.high_water) ==> (result matches Ok(None))
        },
{
    if let Some(stream) = store@.stream(stream_id) {
        let index = store@.find(stream_id)->0;
        assert(store@.streams[index].wf());
        lemma_retained_run(stream, sequence);
        if 0 <= g < stream.groups.len() && 0 <= k < stream.groups[g].objects.len() && sequence
            == stream.groups[g].first_sequence + k {
            assert(stream.groups[g].wf());
            lemma_object_at(stream, sequence, g);
        }
    }
}

/// A listing holds every retained object behind a sequence, in order and without gaps, as
/// many as were asked for.
pub proof fn listings_hold_what_follows(
    store: &NativeStore,
    stream_id: u128,
    after: u64,
    limit: usize,
    result: Result<Vec<NativeObject>, StoreError>,
)
    requires
        store@.wf(),
        call_ensures(NativeStore::list_objects, (store, stream_id, after, limit), result),
        0 < limit <= 16_384,
        after <= 0x7fff_ffff_ffff_ffff,
        store@.stream(stream_id) is Some,
    ensures
        ({
            let stream = store@.stream(stream_id)->0;
            &&& result matches Ok(listed)
            &&& listed@.len() <= limit
            &&& stream.groups.len() == 0 ==> listed@.len() == 0
            &&& listed@.len() > 0 ==> listed@[0].header.sequence == if after
                < stream.groups[0].first_sequence {
                stream.groups[0].first_sequence as int
            } else {
                after + 1
            }
            &&& forall|k: int|
                0 < k < listed@.len() ==> (#[trigger] listed@[k]).header.sequence
                    == listed@[0].header.sequence + k
            &&& 0 < listed@.len() < limit ==> listed@.last().header.sequence == stream.high_water
            &&& listed@.len() == 0 && stream.groups.len() > 0 ==> after >= stream.high_water
        }),
{
    let stream = store@.stream(stream_id)->0;
    let index = store@.find(stream_id)->0;
    assert(store@.streams[index].wf());
    if stream.groups.len() > 0 {
        assert(stream.groups[0].wf());
        lemma_retained_run(stream, stream.groups[0].first_sequence);
        assert(stream.retains(stream.groups[0].first_sequence));
    }
}

/// The retained range reaches from the first complete group to the last one. Its times are
/// those of some of them and enclose those of all of them.
pub proof fn retained_ranges_enclose_complete_groups(
    store: &NativeStore,
    stream_id: u128,
    result: Option<NativeRetainedBounds>,
)
    requires
        store@.wf(),
        call_ensures(NativeStore::retained_bounds, (store, stream_id), result),
        store@.stream(stream_id) is Some,
    ensures
        ({
            let groups = store@.stream(stream_id)->0.groups;
            match result {
                None => forall|g: int|
                    0 <= g < groups.len() ==> !(#[trigger] groups[g]).complete,
                Some(bounds) => {
                    &&& groups.len() > 0 && groups[0].complete
                    &&& bounds.oldest_sequence == groups[0].first_sequence
                    &&& forall|g: int|
                        0 <= g < groups.len() && (#[trigger] groups[g]).complete && (g
                            == groups.len() - 1 || !groups[g + 1].complete)
                            ==> bounds.newest_sequence == groups[g].last_sequence
                    &&& forall|g: int|
                        0 <= g < groups.len() && (#[trigger] groups[g]).complete
                            ==> bounds.oldest_timestamp <= groups[g].first_timestamp
                            && groups[g].last_timestamp <= bounds.newest_timestamp
                    &&& exists|g: int|
                        0 <= g < groups.len() && (#[trigger] groups[g]).complete
                            && groups[g].first_timestamp == bounds.oldest_timestamp
                    &&& exists|g: int|
                        0 <= g < groups.len() && (#[trigger] groups[g]).complete
                            && groups[g].last_timestamp == bounds.newest_timestamp
                },
            }
        }),
{
    let stream = store@.stream(stream_id)->0;
    let index = store@.find(stream_id)->0;
    assert(store@.streams[index].wf());
    let groups = stream.groups;
    let count = stream.complete_count() as int;
    let complete = groups.take(count);
    if stream.active is Some {
        assert(!groups[groups.len() - 1].complete);
    } else if groups.len() > 0 {
        assert(groups[groups.len() - 1].complete);
    }
    if count > 0 {
        lemma_times_enclose(complete);
        assert(groups[0].complete);
        let first = choose|g: int|
            0 <= g < complete.len() && (#[trigger] complete[g]).first_timestamp
                == oldest_timestamp(complete);
        let last = choose|g: int|
            0 <= g < complete.len() && (#[trigger] complete[g]).last_timestamp
                == newest_timestamp(complete);
        assert(groups[first] == complete[first] && groups[last] == complete[last]);
        assert(groups[first].complete && groups[last].complete);
        assert forall|g: int| 0 <= g < groups.len() && (#[trigger] groups[g]).complete implies g
            < count by {}
        assert forall|g: int| 0 <= g < groups.len() && (#[trigger] groups[g]).complete implies
            oldest_timestamp(complete) <= groups[g].first_timestamp && groups[g].last_timestamp
            <= newest_timestamp(complete) by {
            assert(complete[g] == groups[g]);
        }
        assert forall|g: int|
            0 <= g < groups.len() && (#[trigger] groups[g]).complete && (g == groups.len() - 1
                || !groups[g + 1].complete) implies complete.last().last_sequence
            == groups[g].last_sequence by {
            if g < count - 1 {
                assert(groups[g + 1].complete);
            }
        }
    }
}

proof fn lemma_times_enclose(groups: Seq<GroupModel>)
    requires
        groups.len() > 0,
    ensures
        forall|g: int|
            0 <= g < groups.len() ==> oldest_timestamp(groups) <= (
            #[trigger] groups[g]).first_timestamp && groups[g].last_timestamp <= newest_timestamp(
                groups,
            ),
        exists|g: int|
            0 <= g < groups.len() && (#[trigger] groups[g]).first_timestamp == oldest_timestamp(
                groups,
            ),
        exists|g: int|
            0 <= g < groups.len() && (#[trigger] groups[g]).last_timestamp == newest_timestamp(
                groups,
            ),
    decreases groups.len(),
{
    let last = groups.len() - 1;
    assert(groups[last] == groups.last());
    if groups.len() > 1 {
        let shorter = groups.drop_last();
        lemma_times_enclose(shorter);
        assert forall|g: int| 0 <= g < groups.len() implies oldest_timestamp(groups) <= (
        #[trigger] groups[g]).first_timestamp && groups[g].last_timestamp <= newest_timestamp(
            groups,
        ) by {
            if g < last {
                assert(shorter[g] == groups[g]);
            }
        }
        let a = choose|g: int|
            0 <= g < shorter.len() && (#[trigger] shorter[g]).first_timestamp == oldest_timestamp(
                shorter,
            );
        let b = choose|g: int|
            0 <= g < shorter.len() && (#[trigger] shorter[g]).last_timestamp == newest_timestamp(
                shorter,
            );
        assert(groups[a] == shorter[a] && groups[b] == shorter[b]);
    }
}

/// Whether a run of groups is over a limit: it has too many bytes, or the oldest was last
/// added to before the age limit.
pub open spec fn is_over(
    groups: Seq<GroupModel>,
    bytes: Option<u64>,
    age: Option<i64>,
    now_ms: i64,
) -> bool {
    ||| bytes matches Some(limit) && total_bytes(groups) > limit
    ||| age matches Some(age) && groups[0].received_last_ms < now_ms - age
}

/// Retention lets go of complete groups from the old end, one after the other, for as long as
/// the rest is over the byte limit or the oldest was last added to before the age limit. A
/// group that is neither stays, and so does an open one.
pub proof fn retention_keeps_to_its_limits(
    store: &mut NativeStore,
    now_ms: i64,
    removed: usize,
    index: int,
)
    requires
        old(store)@.wf(),
        call_ensures(NativeStore::enforce_retention_at, (store, now_ms), removed),
        0 <= index < old(store)@.streams.len(),
        old(store)@.retention_age_ms matches Some(age) ==> now_ms - age >= i64::MIN,
    ensures
        final(store)@.streams.len() == old(store)@.streams.len(),
        ({
            let before = old(store)@.streams[index];
            let after = final(store)@.streams[index];
            let gone = before.groups.len() - after.groups.len();
            let bytes = old(store)@.retention_bytes;
            let age = old(store)@.retention_age_ms;
            &&& 0 <= gone
            &&& after.stream_id == before.stream_id
            &&& after.high_water == before.high_water
            &&& after.groups == before.groups.skip(gone)
            &&& forall|i: int|
                0 <= i < gone ==> (#[trigger] before.groups[i]).complete && is_over(
                    before.groups.skip(i),
                    bytes,
                    age,
                    now_ms,
                )
            &&& after.groups.len() > 0 && after.groups[0].complete ==> !is_over(
                after.groups,
                bytes,
                age,
                now_ms,
            )
        }),
{
    let model = old(store)@;
    let before = model.streams[index];
    assert(before.wf());
    lemma_evictions(before.groups, model.retention_bytes, model.retention_age_ms, now_ms);
    lemma_due_bounded(model, before, now_ms);
    let due = model.due_groups(before, now_ms) as int;
    let after = final(store)@.streams[index];
    assert(after == model.pruned(before, now_ms));
    assert(after.groups == before.groups.skip(due));
    assert(after.groups.len() == before.groups.len() - due);
    if after.groups.len() > 0 {
        assert(after.groups[0] == before.groups[due]);
    }
}

proof fn lemma_evictions(
    groups: Seq<GroupModel>,
    bytes: Option<u64>,
    age: Option<i64>,
    now_ms: i64,
)
    requires
        age matches Some(age) ==> i64::MIN <= now_ms - age <= i64::MAX,
    ensures
        ({
            let due = evict_count(groups, bytes, cutoff_at(age, now_ms)) as int;
            &&& due <= groups.len()
            &&& forall|i: int|
                0 <= i < due ==> (#[trigger] groups[i]).complete && is_over(
                    groups.skip(i),
                    bytes,
                    age,
                    now_ms,
                )
            &&& due < groups.len() && groups[due].complete ==> !is_over(
                groups.skip(due),
                bytes,
                age,
                now_ms,
            )
        }),
    decreases groups.len(),
{
    assert(groups.skip(0) =~= groups);
    lemma_total_bytes(groups);
    let due = evict_count(groups, bytes, cutoff_at(age, now_ms)) as int;
    if due > 0 {
        let rest = groups.drop_first();
        lemma_evictions(rest, bytes, age, now_ms);
        assert(rest.skip(due - 1) =~= groups.skip(due));
        assert forall|i: int| 0 <= i < due implies (#[trigger] groups[i]).complete && is_over(
            groups.skip(i),
            bytes,
            age,
            now_ms,
        ) by {
            if i > 0 {
                assert(rest.skip(i - 1) =~= groups.skip(i));
                assert(rest[i - 1] == groups[i]);
            }
        }
        if due < groups.len() {
            assert(rest[due - 1] == groups[due]);
        }
    }
}

} // verus!

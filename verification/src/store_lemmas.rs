//! Facts about stored groups and streams that the store's operations rest on.

use vstd::prelude::*;

use crate::store_model::{
    envelopes_bytes, evict_count, groups_bytes, objects_bytes, outlived, publisher_bytes,
    publisher_streams, streams_bytes, EnvelopeModel, GroupModel, ObjectModel, StoreModel,
    StreamModel, MAX_DURABLE,
};

verus! {

pub proof fn lemma_groups_bytes_push(groups: Seq<GroupModel>, group: GroupModel)
    ensures
        groups_bytes(groups.push(group)) == groups_bytes(groups) + group.retained_bytes,
{
    assert(groups.push(group).drop_last() =~= groups);
}

pub proof fn lemma_groups_bytes_update(groups: Seq<GroupModel>, index: int, group: GroupModel)
    requires
        0 <= index < groups.len(),
    ensures
        groups_bytes(groups.update(index, group)) == groups_bytes(groups)
            - groups[index].retained_bytes + group.retained_bytes,
    decreases groups.len(),
{
    let updated = groups.update(index, group);
    if index == groups.len() - 1 {
        assert(updated.drop_last() =~= groups.drop_last());
    } else {
        lemma_groups_bytes_update(groups.drop_last(), index, group);
        assert(updated.drop_last() =~= groups.drop_last().update(index, group));
    }
}

pub proof fn lemma_groups_bytes_first(groups: Seq<GroupModel>)
    requires
        groups.len() > 0,
    ensures
        groups_bytes(groups) == groups[0].retained_bytes + groups_bytes(groups.drop_first()),
    decreases groups.len(),
{
    if groups.len() == 1 {
        assert(groups.drop_last() =~= Seq::<GroupModel>::empty());
        assert(groups.drop_first() =~= Seq::<GroupModel>::empty());
    } else {
        lemma_groups_bytes_first(groups.drop_last());
        assert(groups.drop_last().drop_first() =~= groups.drop_first().drop_last());
    }
}

pub proof fn lemma_groups_bytes_member(groups: Seq<GroupModel>, index: int)
    requires
        0 <= index < groups.len(),
    ensures
        groups[index].retained_bytes <= groups_bytes(groups),
    decreases groups.len(),
{
    if index < groups.len() - 1 {
        lemma_groups_bytes_member(groups.drop_last(), index);
    }
}

pub proof fn lemma_groups_bytes_prefix(groups: Seq<GroupModel>, count: int)
    requires
        0 <= count <= groups.len(),
    ensures
        groups_bytes(groups.take(count)) <= groups_bytes(groups),
    decreases groups.len(),
{
    if count == groups.len() {
        assert(groups.take(count) =~= groups);
    } else {
        lemma_groups_bytes_prefix(groups.drop_last(), count);
        assert(groups.drop_last().take(count) =~= groups.take(count));
    }
}

/// A group is found where it stands.
pub proof fn lemma_group_index(stream: StreamModel, epoch_id: u128, key_group: u64, index: int)
    requires
        stream.wf(),
        0 <= index < stream.groups.len(),
        stream.groups[index].is_named(epoch_id, key_group),
    ensures
        stream.group_index(epoch_id, key_group) == Some(index),
{
    let found = choose|i: int|
        0 <= i < stream.groups.len() && (#[trigger] stream.groups[i]).is_named(
            epoch_id,
            key_group,
        );
    assert(stream.groups[found].is_named(epoch_id, key_group));
    if found < index {
        assert(!stream.groups[found].is_named(
            stream.groups[index].epoch_id,
            stream.groups[index].key_group,
        ));
    }
    if index < found {
        assert(!stream.groups[index].is_named(
            stream.groups[found].epoch_id,
            stream.groups[found].key_group,
        ));
    }
}

/// An object is found in the group that covers its sequence.
pub proof fn lemma_object_at(stream: StreamModel, sequence: u64, index: int)
    requires
        stream.wf(),
        0 <= index < stream.groups.len(),
        stream.groups[index].first_sequence <= sequence <= stream.groups[index].last_sequence,
    ensures
        stream.retains(sequence),
        stream.object_at(sequence) == Some(
            stream.groups[index].objects[sequence - stream.groups[index].first_sequence],
        ),
        stream.object_at(sequence)->0.header.sequence == sequence,
{
    let found = choose|i: int|
        0 <= i < stream.groups.len() && (#[trigger] stream.groups[i]).first_sequence <= sequence
            <= stream.groups[i].last_sequence;
    assert(stream.groups[found].first_sequence <= sequence <= stream.groups[found].last_sequence);
    if found < index {
        assert(stream.groups[found].last_sequence < stream.groups[index].first_sequence);
    }
    if index < found {
        assert(stream.groups[index].last_sequence < stream.groups[found].first_sequence);
    }
    assert(stream.groups[index].wf());
}

pub proof fn lemma_objects_bytes_prefix(objects: Seq<ObjectModel>, count: int)
    requires
        0 <= count <= objects.len(),
    ensures
        objects_bytes(objects.take(count)) <= objects_bytes(objects),
    decreases objects.len(),
{
    if count == objects.len() {
        assert(objects.take(count) =~= objects);
    } else {
        lemma_objects_bytes_prefix(objects.drop_last(), count);
        assert(objects.drop_last().take(count) =~= objects.take(count));
    }
}

pub proof fn lemma_envelopes_bytes_prefix(envelopes: Seq<EnvelopeModel>, count: int)
    requires
        0 <= count <= envelopes.len(),
    ensures
        envelopes_bytes(envelopes.take(count)) <= envelopes_bytes(envelopes),
    decreases envelopes.len(),
{
    if count == envelopes.len() {
        assert(envelopes.take(count) =~= envelopes);
    } else {
        lemma_envelopes_bytes_prefix(envelopes.drop_last(), count);
        assert(envelopes.drop_last().take(count) =~= envelopes.take(count));
    }
}

/// Groups that follow one another without gaps are in order throughout.
pub proof fn lemma_adjacent_groups_ordered(groups: Seq<GroupModel>)
    requires
        forall|i: int| 0 <= i < groups.len() ==> (#[trigger] groups[i]).wf(),
        forall|i: int, j: int|
            0 <= i && j == i + 1 && j < groups.len() ==> (#[trigger] groups[i]).last_sequence + 1
                == (#[trigger] groups[j]).first_sequence,
    ensures
        forall|i: int, j: int|
            0 <= i < j < groups.len() ==> (#[trigger] groups[i]).last_sequence < (
            #[trigger] groups[j]).first_sequence,
    decreases groups.len(),
{
    if groups.len() > 1 {
        let shorter = groups.drop_last();
        assert forall|i: int, j: int| 0 <= i && j == i + 1 && j < shorter.len() implies (
        #[trigger] shorter[i]).last_sequence + 1 == (#[trigger] shorter[j]).first_sequence by {
            assert(shorter[i] == groups[i] && shorter[j] == groups[j]);
        }
        lemma_adjacent_groups_ordered(shorter);
        let last = groups.len() - 1;
        assert forall|i: int, j: int| 0 <= i < j < groups.len() implies (
        #[trigger] groups[i]).last_sequence < (#[trigger] groups[j]).first_sequence by {
            if j < last {
                assert(shorter[i].last_sequence < shorter[j].first_sequence);
            } else {
                assert(groups[last - 1].last_sequence + 1 == groups[last].first_sequence);
                assert(groups[last - 1].wf());
                if i < last - 1 {
                    assert(shorter[i].last_sequence < shorter[last - 1].first_sequence);
                }
            }
        }
    }
}

/// A stream retains exactly the sequences from its oldest group up to the high-water
/// mark.
pub proof fn lemma_retained_run(stream: StreamModel, sequence: u64)
    requires
        stream.wf(),
    ensures
        stream.retains(sequence) <==> stream.groups.len() > 0 && stream.groups[0].first_sequence
            <= sequence <= stream.high_water,
{
    if stream.retains(sequence) {
        let i = choose|i: int|
            0 <= i < stream.groups.len() && (#[trigger] stream.groups[i]).first_sequence
                <= sequence <= stream.groups[i].last_sequence;
        assert(stream.groups[i].wf());
        if i > 0 {
            assert(stream.groups[0].last_sequence < stream.groups[i].first_sequence);
            assert(stream.groups[0].wf());
        }
        if i < stream.groups.len() - 1 {
            assert(stream.groups[i].last_sequence < stream.groups[stream.groups.len()
                - 1].first_sequence);
            assert(stream.groups[stream.groups.len() - 1].wf());
        }
    }
    if stream.groups.len() > 0 && stream.groups[0].first_sequence <= sequence
        <= stream.high_water {
        lemma_covering_group(stream, sequence, stream.groups.len() - 1);
    }
}

proof fn lemma_covering_group(stream: StreamModel, sequence: u64, index: int)
    requires
        stream.wf(),
        0 <= index < stream.groups.len(),
        stream.groups[0].first_sequence <= sequence <= stream.groups[index].last_sequence,
    ensures
        stream.retains(sequence),
    decreases index,
{
    if stream.groups[index].first_sequence > sequence {
        assert(stream.groups[index - 1].last_sequence + 1 == stream.groups[index].first_sequence);
        lemma_covering_group(stream, sequence, index - 1);
    }
}

/// A viewer's envelope is found where it stands.
pub proof fn lemma_envelope_of(group: GroupModel, recipient_id: [u8; 32], index: int)
    requires
        group.wf(),
        0 <= index < group.envelopes.len(),
        group.envelopes[index].header.recipient_id == recipient_id,
    ensures
        group.envelope_of(recipient_id) == Some(group.envelopes[index]),
{
    let found = choose|k: int|
        0 <= k < group.envelopes.len() && (#[trigger] group.envelopes[k]).header.recipient_id
            == recipient_id;
    assert(group.envelopes[found].header.recipient_id == recipient_id);
    if found < index {
        assert(group.envelopes[found].header.recipient_id
            != group.envelopes[index].header.recipient_id);
    }
    if index < found {
        assert(group.envelopes[index].header.recipient_id
            != group.envelopes[found].header.recipient_id);
    }
}

/// A stream stays well formed with one more envelope, and grows by its bytes.
pub proof fn lemma_with_envelope_wf(stream: StreamModel, index: int, envelope: EnvelopeModel)
    requires
        stream.wf(),
        0 <= index < stream.groups.len(),
        stream.groups[index].is_named(envelope.header.epoch_id, envelope.header.key_group_id),
        stream.groups[index].key_id == envelope.header.key_id,
        stream.groups[index].envelope_of(envelope.header.recipient_id) is None,
        groups_bytes(stream.groups) + envelope.encoded.len() <= MAX_DURABLE,
    ensures
        stream.with_envelope(index, envelope).wf(),
        groups_bytes(stream.with_envelope(index, envelope).groups) == groups_bytes(stream.groups)
            + envelope.encoded.len(),
{
    let grown = stream.with_envelope(index, envelope);
    let group = stream.groups[index];
    let longer = group.with_envelope(envelope);
    lemma_groups_bytes_member(stream.groups, index);
    lemma_groups_bytes_update(stream.groups, index, longer);
    lemma_envelopes_bytes_push(group.envelopes, envelope);
    assert(longer.wf()) by {
        assert forall|k: int| 0 <= k < longer.envelopes.len() implies (
        #[trigger] longer.envelopes[k]).header.epoch_id == longer.epoch_id
            && longer.envelopes[k].header.key_group_id == longer.key_group
            && longer.envelopes[k].header.key_id == longer.key_id by {
            if k < group.envelopes.len() {
                assert(longer.envelopes[k] == group.envelopes[k]);
            }
        }
        assert forall|j: int, k: int| 0 <= j < k < longer.envelopes.len() implies (
        #[trigger] longer.envelopes[j]).header.recipient_id != (
        #[trigger] longer.envelopes[k]).header.recipient_id by {
            assert(longer.envelopes[j] == group.envelopes[j]);
            if k < group.envelopes.len() {
                assert(longer.envelopes[k] == group.envelopes[k]);
            }
        }
    }
    assert forall|i: int| 0 <= i < grown.groups.len() implies (#[trigger] grown.groups[i]).wf() by {
        assert(stream.groups[i].wf());
    }
    assert forall|i: int, j: int|
        0 <= i < j < grown.groups.len() implies (#[trigger] grown.groups[i]).last_sequence < (
    #[trigger] grown.groups[j]).first_sequence by {
        assert(stream.groups[i].last_sequence < stream.groups[j].first_sequence);
    }
    assert forall|i: int, j: int|
        0 <= i && j == i + 1 && j < grown.groups.len() implies (
    #[trigger] grown.groups[i]).last_sequence + 1 == (
    #[trigger] grown.groups[j]).first_sequence by {
        assert(stream.groups[i].last_sequence + 1 == stream.groups[j].first_sequence);
    }
    assert forall|i: int, j: int| 0 <= i < j < grown.groups.len() implies !(
    #[trigger] grown.groups[i]).is_named(
        (#[trigger] grown.groups[j]).epoch_id,
        grown.groups[j].key_group,
    ) by {
        assert(!stream.groups[i].is_named(stream.groups[j].epoch_id, stream.groups[j].key_group));
    }
    assert forall|i: int| 0 <= i < grown.groups.len() - 1 implies (
    #[trigger] grown.groups[i]).complete by {
        assert(stream.groups[i].complete);
    }
}

pub proof fn lemma_groups_bytes_skip(groups: Seq<GroupModel>, count: int)
    requires
        0 <= count <= groups.len(),
    ensures
        groups_bytes(groups.skip(count)) <= groups_bytes(groups),
    decreases count,
{
    if count == 0 {
        assert(groups.skip(0) =~= groups);
    } else {
        lemma_groups_bytes_first(groups);
        lemma_groups_bytes_skip(groups.drop_first(), count - 1);
        assert(groups.drop_first().skip(count - 1) =~= groups.skip(count));
    }
}

pub proof fn lemma_streams_bytes_update(streams: Seq<StreamModel>, index: int, stream: StreamModel)
    requires
        0 <= index < streams.len(),
    ensures
        streams_bytes(streams.update(index, stream)) == streams_bytes(streams) - groups_bytes(
            streams[index].groups,
        ) + groups_bytes(stream.groups),
    decreases streams.len(),
{
    let updated = streams.update(index, stream);
    if index == streams.len() - 1 {
        assert(updated.drop_last() =~= streams.drop_last());
    } else {
        lemma_streams_bytes_update(streams.drop_last(), index, stream);
        assert(updated.drop_last() =~= streams.drop_last().update(index, stream));
    }
}

pub proof fn lemma_streams_bytes_insert(streams: Seq<StreamModel>, index: int, stream: StreamModel)
    requires
        0 <= index <= streams.len(),
    ensures
        streams_bytes(streams.insert(index, stream)) == streams_bytes(streams) + groups_bytes(
            stream.groups,
        ),
    decreases streams.len(),
{
    let inserted = streams.insert(index, stream);
    if index == streams.len() {
        assert(inserted.drop_last() =~= streams);
    } else {
        lemma_streams_bytes_insert(streams.drop_last(), index, stream);
        assert(inserted.drop_last() =~= streams.drop_last().insert(index, stream));
    }
}

pub proof fn lemma_streams_bytes_member(streams: Seq<StreamModel>, index: int)
    requires
        0 <= index < streams.len(),
    ensures
        groups_bytes(streams[index].groups) <= streams_bytes(streams),
    decreases streams.len(),
{
    if index < streams.len() - 1 {
        lemma_streams_bytes_member(streams.drop_last(), index);
    }
}

pub proof fn lemma_streams_bytes_prefix(streams: Seq<StreamModel>, count: int)
    requires
        0 <= count <= streams.len(),
    ensures
        streams_bytes(streams.take(count)) <= streams_bytes(streams),
        forall|publisher: [u8; 32]|
            #[trigger] publisher_bytes(streams.take(count), publisher) <= streams_bytes(
                streams.take(count),
            ),
    decreases streams.len(),
{
    if count == streams.len() {
        assert(streams.take(count) =~= streams);
        lemma_publisher_bytes_bounded(streams);
    } else {
        lemma_streams_bytes_prefix(streams.drop_last(), count);
        assert(streams.drop_last().take(count) =~= streams.take(count));
    }
}

pub proof fn lemma_publisher_bytes_bounded(streams: Seq<StreamModel>)
    ensures
        forall|publisher: [u8; 32]| #[trigger]
            publisher_bytes(streams, publisher) <= streams_bytes(streams),
    decreases streams.len(),
{
    if streams.len() > 0 {
        lemma_publisher_bytes_bounded(streams.drop_last());
        assert forall|publisher: [u8; 32]| #[trigger]
            publisher_bytes(streams, publisher) <= streams_bytes(streams) by {
            assert(publisher_bytes(streams.drop_last(), publisher) <= streams_bytes(
                streams.drop_last(),
            ));
        }
    }
}

pub proof fn lemma_objects_bytes_push(objects: Seq<ObjectModel>, object: ObjectModel)
    ensures
        objects_bytes(objects.push(object)) == objects_bytes(objects) + object.encoded.len(),
{
    assert(objects.push(object).drop_last() =~= objects);
}

pub proof fn lemma_envelopes_bytes_push(envelopes: Seq<EnvelopeModel>, envelope: EnvelopeModel)
    ensures
        envelopes_bytes(envelopes.push(envelope)) == envelopes_bytes(envelopes)
            + envelope.encoded.len(),
{
    assert(envelopes.push(envelope).drop_last() =~= envelopes);
}

/// Retention never reaches an open group.
pub proof fn lemma_evict_count_bounded(
    groups: Seq<GroupModel>,
    byte_limit: Option<u64>,
    cutoff_ms: Option<i64>,
)
    ensures
        evict_count(groups, byte_limit, cutoff_ms) <= groups.len(),
        forall|i: int|
            0 <= i < evict_count(groups, byte_limit, cutoff_ms) ==> (
            #[trigger] groups[i]).complete,
    decreases groups.len(),
{
    if groups.len() > 0 && groups[0].complete && outlived(groups, byte_limit, cutoff_ms) {
        let rest = groups.drop_first();
        lemma_evict_count_bounded(rest, byte_limit, cutoff_ms);
        assert forall|i: int| 0 <= i < evict_count(groups, byte_limit, cutoff_ms) implies (
        #[trigger] groups[i]).complete by {
            if i > 0 {
                assert(rest[i - 1] == groups[i]);
            }
        }
    }
}

/// A stream stays well formed without any number of its oldest complete groups.
pub proof fn lemma_without_oldest_wf(stream: StreamModel, count: nat)
    requires
        stream.wf(),
        count <= stream.complete_count(),
    ensures
        stream.without_oldest(count).wf(),
{
    let kept = stream.without_oldest(count);
    assert forall|i: int| 0 <= i < kept.groups.len() implies (#[trigger] kept.groups[i]).wf() by {
        assert(kept.groups[i] == stream.groups[i + count]);
    }
    assert forall|i: int, j: int|
        0 <= i < j < kept.groups.len() implies (#[trigger] kept.groups[i]).last_sequence < (
    #[trigger] kept.groups[j]).first_sequence by {
        assert(kept.groups[i] == stream.groups[i + count]);
        assert(kept.groups[j] == stream.groups[j + count]);
    }
    assert forall|i: int, j: int|
        0 <= i && j == i + 1 && j < kept.groups.len() implies (
    #[trigger] kept.groups[i]).last_sequence + 1 == (
    #[trigger] kept.groups[j]).first_sequence by {
        assert(kept.groups[i] == stream.groups[i + count]);
        assert(kept.groups[j] == stream.groups[j + count]);
    }
    assert forall|i: int, j: int| 0 <= i < j < kept.groups.len() implies !(
    #[trigger] kept.groups[i]).is_named(
        (#[trigger] kept.groups[j]).epoch_id,
        kept.groups[j].key_group,
    ) by {
        assert(kept.groups[i] == stream.groups[i + count]);
        assert(kept.groups[j] == stream.groups[j + count]);
    }
    assert forall|i: int| 0 <= i < kept.groups.len() - 1 implies (
    #[trigger] kept.groups[i]).complete by {
        assert(kept.groups[i] == stream.groups[i + count]);
    }
    if kept.groups.len() > 0 {
        assert(kept.groups.last() == stream.groups.last());
    }
}

/// A stream stays well formed when its active group is closed.
pub proof fn lemma_completed_groups_wf(stream: StreamModel)
    requires
        stream.wf(),
    ensures
        stream.finalized().wf(),
        groups_bytes(stream.completed_groups()) == groups_bytes(stream.groups),
{
    if stream.active is Some {
        lemma_groups_bytes_update(
            stream.groups,
            stream.groups.len() - 1,
            stream.groups.last().completed(),
        );
        let closed = stream.finalized();
        assert forall|i: int| 0 <= i < closed.groups.len() implies (
        #[trigger] closed.groups[i]).wf() by {
            assert(stream.groups[i].wf());
        }
        assert forall|i: int, j: int|
            0 <= i < j < closed.groups.len() implies (#[trigger] closed.groups[i]).last_sequence < (
        #[trigger] closed.groups[j]).first_sequence by {
            assert(stream.groups[i].last_sequence < stream.groups[j].first_sequence);
        }
        assert forall|i: int, j: int|
            0 <= i && j == i + 1 && j < closed.groups.len() implies (
        #[trigger] closed.groups[i]).last_sequence + 1 == (
        #[trigger] closed.groups[j]).first_sequence by {
            assert(stream.groups[i].last_sequence + 1 == stream.groups[j].first_sequence);
        }
        assert forall|i: int, j: int| 0 <= i < j < closed.groups.len() implies !(
        #[trigger] closed.groups[i]).is_named(
            (#[trigger] closed.groups[j]).epoch_id,
            closed.groups[j].key_group,
        ) by {
            assert(!stream.groups[i].is_named(
                stream.groups[j].epoch_id,
                stream.groups[j].key_group,
            ));
        }
    }
}

/// A stream stays well formed with the next object, and grows by its bytes.
pub proof fn lemma_with_object_wf(stream: StreamModel, object: ObjectModel)
    requires
        stream.wf(),
        object.header.sequence == stream.high_water + 1,
        object.header.sequence <= MAX_DURABLE,
        object.header.timestamp <= MAX_DURABLE,
        groups_bytes(stream.groups) + object.encoded.len() <= MAX_DURABLE,
        if stream.continues_group(object.header) {
            stream.groups.last().key_id == object.header.key_id
                && stream.groups.last().first_timestamp <= object.header.timestamp
        } else {
            1 <= object.header.key_group <= MAX_DURABLE && stream.group_index(
                object.header.epoch_id,
                object.header.key_group,
            ) is None
        },
    ensures
        stream.with_object(object).wf(),
        groups_bytes(stream.with_object(object).groups) == groups_bytes(stream.groups)
            + object.encoded.len(),
{
    let grown = stream.with_object(object);
    let last = stream.groups.len() - 1;
    if stream.continues_group(object.header) {
        let group = stream.groups.last();
        let longer = group.with_object(object);
        lemma_groups_bytes_member(stream.groups, last);
        lemma_groups_bytes_update(stream.groups, last, longer);
        lemma_objects_bytes_push(group.objects, object);
        assert(group.wf());
        assert(longer.wf()) by {
            assert forall|k: int| 0 <= k < longer.objects.len() implies (
            #[trigger] longer.objects[k]).header.sequence == longer.first_sequence + k
                && longer.objects[k].header.epoch_id == longer.epoch_id
                && longer.objects[k].header.key_group == longer.key_group
                && longer.objects[k].header.key_id == longer.key_id by {
                if k < group.objects.len() {
                    assert(longer.objects[k] == group.objects[k]);
                }
            }
        }
        assert forall|i: int| 0 <= i < grown.groups.len() implies (
        #[trigger] grown.groups[i]).wf() by {
            assert(i != last ==> grown.groups[i] == stream.groups[i]);
            assert(stream.groups[i].wf());
        }
        assert forall|i: int, j: int|
            0 <= i < j < grown.groups.len() implies (#[trigger] grown.groups[i]).last_sequence < (
        #[trigger] grown.groups[j]).first_sequence by {
            assert(stream.groups[i].last_sequence < stream.groups[j].first_sequence);
        }
        assert forall|i: int, j: int|
            0 <= i && j == i + 1 && j < grown.groups.len() implies (
        #[trigger] grown.groups[i]).last_sequence + 1 == (
        #[trigger] grown.groups[j]).first_sequence by {
            assert(stream.groups[i].last_sequence + 1 == stream.groups[j].first_sequence);
        }
        assert forall|i: int, j: int| 0 <= i < j < grown.groups.len() implies !(
        #[trigger] grown.groups[i]).is_named(
            (#[trigger] grown.groups[j]).epoch_id,
            grown.groups[j].key_group,
        ) by {
            assert(!stream.groups[i].is_named(
                stream.groups[j].epoch_id,
                stream.groups[j].key_group,
            ));
        }
    } else {
        let closed = stream.finalized();
        let opened = GroupModel::opened_by(object);
        lemma_completed_groups_wf(stream);
        lemma_groups_bytes_push(closed.groups, opened);
        assert(objects_bytes(opened.objects) == object.encoded.len()) by {
            assert(opened.objects =~= Seq::<ObjectModel>::empty().push(object));
            lemma_objects_bytes_push(Seq::empty(), object);
        }
        assert(opened.wf());
        assert forall|i: int| 0 <= i < closed.groups.len() implies !(
        #[trigger] closed.groups[i]).is_named(opened.epoch_id, opened.key_group) by {
            assert(closed.groups[i].is_named(opened.epoch_id, opened.key_group)
                == stream.groups[i].is_named(opened.epoch_id, opened.key_group));
        }
        assert forall|i: int| 0 <= i < closed.groups.len() implies (
        #[trigger] closed.groups[i]).last_sequence <= stream.high_water by {
            if i < closed.groups.len() - 1 {
                assert(closed.groups[i].last_sequence < closed.groups.last().first_sequence);
                assert(closed.groups[closed.groups.len() - 1].wf());
            }
        }
        assert forall|i: int| 0 <= i < grown.groups.len() implies (
        #[trigger] grown.groups[i]).wf() by {
            if i < closed.groups.len() {
                assert(grown.groups[i] == closed.groups[i]);
            }
        }
        assert forall|i: int| 0 <= i < grown.groups.len() - 1 implies (
        #[trigger] grown.groups[i]).complete by {
            assert(grown.groups[i] == closed.groups[i]);
            if i == closed.groups.len() - 1 {
                assert(closed.groups.last().complete);
            }
        }
    }
}

/// A store stays well formed when a stream is replaced by one that is well formed, has
/// the same identifier and keeps the sum of bytes in bounds.
pub proof fn lemma_with_stream_wf(store: StoreModel, index: int, stream: StreamModel)
    requires
        store.wf(),
        0 <= index < store.streams.len(),
        stream.wf(),
        stream.stream_id == store.streams[index].stream_id,
        streams_bytes(store.streams) - groups_bytes(store.streams[index].groups) + groups_bytes(
            stream.groups,
        ) <= MAX_DURABLE,
    ensures
        store.with_stream(index, stream).wf(),
{
    lemma_streams_bytes_update(store.streams, index, stream);
    let replaced = store.with_stream(index, stream);
    assert forall|i: int| 0 <= i < replaced.streams.len() implies (
    #[trigger] replaced.streams[i]).wf() by {
        assert(store.streams[i].wf());
    }
    assert forall|i: int, j: int|
        0 <= i < j < replaced.streams.len() implies (#[trigger] replaced.streams[i]).stream_id < (
    #[trigger] replaced.streams[j]).stream_id by {
        assert(store.streams[i].stream_id < store.streams[j].stream_id);
    }
}

/// Replacing a stream by another of the same owner changes the owner's bytes alone.
pub proof fn lemma_publisher_bytes_update(
    streams: Seq<StreamModel>,
    index: int,
    stream: StreamModel,
    publisher_id: [u8; 32],
)
    requires
        0 <= index < streams.len(),
        stream.publisher_id == streams[index].publisher_id,
    ensures
        publisher_bytes(streams.update(index, stream), publisher_id) == publisher_bytes(
            streams,
            publisher_id,
        ) + if stream.publisher_id == publisher_id {
            groups_bytes(stream.groups) - groups_bytes(streams[index].groups)
        } else {
            0
        },
        publisher_streams(streams.update(index, stream), publisher_id) == publisher_streams(
            streams,
            publisher_id,
        ),
    decreases streams.len(),
{
    let updated = streams.update(index, stream);
    if index == streams.len() - 1 {
        assert(updated.drop_last() =~= streams.drop_last());
    } else {
        lemma_publisher_bytes_update(streams.drop_last(), index, stream, publisher_id);
        assert(updated.drop_last() =~= streams.drop_last().update(index, stream));
    }
}

/// A new stream adds its bytes and itself to its owner.
pub proof fn lemma_publisher_bytes_insert(
    streams: Seq<StreamModel>,
    index: int,
    stream: StreamModel,
    publisher_id: [u8; 32],
)
    requires
        0 <= index <= streams.len(),
    ensures
        publisher_bytes(streams.insert(index, stream), publisher_id) == publisher_bytes(
            streams,
            publisher_id,
        ) + if stream.publisher_id == publisher_id {
            groups_bytes(stream.groups)
        } else {
            0
        },
        publisher_streams(streams.insert(index, stream), publisher_id) == publisher_streams(
            streams,
            publisher_id,
        ) + if stream.publisher_id == publisher_id {
            1int
        } else {
            0
        },
    decreases streams.len(),
{
    let inserted = streams.insert(index, stream);
    if index == streams.len() {
        assert(inserted.drop_last() =~= streams);
    } else {
        lemma_publisher_bytes_insert(streams.drop_last(), index, stream, publisher_id);
        assert(inserted.drop_last() =~= streams.drop_last().insert(index, stream));
    }
}

} // verus!

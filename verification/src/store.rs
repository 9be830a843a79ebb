//! The relay's store of opaque stream groups and viewer envelopes.
//!
//! Each operation either takes effect as a whole or leaves the store as it was. What
//! the operations mean is said over [`StoreModel`].

use core::time::Duration;

use vstd::prelude::*;

use crate::bytes::{bytes_equal, id_equal, id_is_zero, is_zero};
use crate::records::{
    IdentityPublic, KeyEnvelope, KeyEnvelopeHeader, NativeObject, NativeObjectHeader,
    NativeObjectKind, StreamDescriptor, SubscriptionStart,
};
use crate::store_lemmas::{
    lemma_adjacent_groups_ordered, lemma_envelopes_bytes_prefix, lemma_objects_bytes_prefix,
    lemma_completed_groups_wf, lemma_envelope_of, lemma_evict_count_bounded, lemma_group_index,
    lemma_groups_bytes_first, lemma_groups_bytes_member, lemma_groups_bytes_prefix,
    lemma_groups_bytes_skip, lemma_object_at, lemma_retained_run, lemma_streams_bytes_insert,
    lemma_streams_bytes_member, lemma_streams_bytes_prefix, lemma_with_envelope_wf,
    lemma_with_object_wf, lemma_with_stream_wf, lemma_without_oldest_wf,
};
use crate::store_model::{
    anchor_of, bounds_of, delivered, delivered_envelope, envelopes_bytes, envelopes_for,
    evict_count, fresh_stream, groups_bytes, last_group_at, latest_group_at, listing_count,
    listing_start, live_anchor_of, newest_timestamp, objects_bytes, oldest_timestamp,
    publisher_bytes, publisher_streams, streams_agree, streams_bytes, summary_of, EnvelopeModel,
    GroupModel,
    NativeCommit, NativeRetainedBounds, NativeStoreLimits, NativeStreamSummary, ObjectModel,
    SentEnvelope, SentObject, StoreError, StoreModel, StreamModel, MAX_DURABLE, MAX_LIST_OBJECTS,
};
use crate::time::{bounded_millis, duration_nanos, whole_millis};

verus! {

/// A stored object.
#[derive(Debug)]
pub struct StoredObject {
    /// Signed header.
    pub header: NativeObjectHeader,
    /// Canonical encoding.
    pub encoded: Vec<u8>,
    /// Relay receive time.
    pub received_at_ms: i64,
}

impl View for StoredObject {
    type V = ObjectModel;

    open spec fn view(&self) -> ObjectModel {
        ObjectModel {
            header: self.header,
            encoded: self.encoded@,
            received_at_ms: self.received_at_ms,
        }
    }
}

/// A stored envelope.
#[derive(Debug)]
pub struct StoredEnvelope {
    /// Signed header.
    pub header: KeyEnvelopeHeader,
    /// Canonical encoding.
    pub encoded: Vec<u8>,
    /// Relay receive time.
    pub received_at_ms: i64,
}

impl View for StoredEnvelope {
    type V = EnvelopeModel;

    open spec fn view(&self) -> EnvelopeModel {
        EnvelopeModel {
            header: self.header,
            encoded: self.encoded@,
            received_at_ms: self.received_at_ms,
        }
    }
}

/// A stored keyframe group.
#[derive(Debug)]
pub struct StoredGroup {
    /// Publication epoch.
    pub epoch_id: u128,
    /// Key group within the epoch.
    pub key_group: u64,
    /// Identifier of the content key.
    pub key_id: u128,
    /// Sequence of the first object.
    pub first_sequence: u64,
    /// Sequence of the last object.
    pub last_sequence: u64,
    /// Timestamp of the first object.
    pub first_timestamp: u64,
    /// Timestamp of the last object.
    pub last_timestamp: u64,
    /// Receive time of the first object.
    pub received_first_ms: i64,
    /// Latest receive time of an object.
    pub received_last_ms: i64,
    /// Bytes of all objects and envelopes.
    pub retained_bytes: u64,
    /// Whether no object can follow.
    pub complete: bool,
    /// The objects, in sequence order.
    pub objects: Vec<StoredObject>,
    /// The viewers' envelopes, in arrival order.
    pub envelopes: Vec<StoredEnvelope>,
}

/// The objects of a group as mathematical values.
pub open spec fn objects_view(objects: Seq<StoredObject>) -> Seq<ObjectModel> {
    objects.map_values(|object: StoredObject| object@)
}

/// The envelopes of a group as mathematical values.
pub open spec fn envelopes_view(envelopes: Seq<StoredEnvelope>) -> Seq<EnvelopeModel> {
    envelopes.map_values(|envelope: StoredEnvelope| envelope@)
}

impl View for StoredGroup {
    type V = GroupModel;

    open spec fn view(&self) -> GroupModel {
        GroupModel {
            epoch_id: self.epoch_id,
            key_group: self.key_group,
            key_id: self.key_id,
            first_sequence: self.first_sequence,
            last_sequence: self.last_sequence,
            first_timestamp: self.first_timestamp,
            last_timestamp: self.last_timestamp,
            received_first_ms: self.received_first_ms,
            received_last_ms: self.received_last_ms,
            retained_bytes: self.retained_bytes,
            complete: self.complete,
            objects: objects_view(self.objects@),
            envelopes: envelopes_view(self.envelopes@),
        }
    }
}

/// A stored stream.
#[derive(Debug)]
pub struct StoredStream {
    /// Stream identifier.
    pub stream_id: u128,
    /// Publisher that owns the stream.
    pub publisher: IdentityPublic,
    /// The publisher's fingerprint.
    pub publisher_id: [u8; 32],
    /// Encoded descriptor.
    pub descriptor: Vec<u8>,
    /// Highest sequence ever committed.
    pub high_water: u64,
    /// Epoch and number of the group that objects are added to.
    pub active: Option<(u128, u64)>,
    /// Retained groups, oldest first.
    pub groups: Vec<StoredGroup>,
}

/// The groups of a stream as mathematical values.
pub open spec fn groups_view(groups: Seq<StoredGroup>) -> Seq<GroupModel> {
    groups.map_values(|group: StoredGroup| group@)
}

impl View for StoredStream {
    type V = StreamModel;

    open spec fn view(&self) -> StreamModel {
        StreamModel {
            stream_id: self.stream_id,
            publisher: self.publisher,
            publisher_id: self.publisher_id,
            descriptor: self.descriptor@,
            high_water: self.high_water,
            active: self.active,
            groups: groups_view(self.groups@),
        }
    }
}

/// Bytes of all groups of a stream.
fn bytes_of_groups(groups: &Vec<StoredGroup>) -> (bytes: u64)
    requires
        groups_bytes(groups_view(groups@)) <= MAX_DURABLE,
    ensures
        bytes == groups_bytes(groups_view(groups@)),
{
    let mut bytes: u64 = 0;
    let mut i: usize = 0;
    let ghost all = groups_view(groups@);
    while i < groups.len()
        invariant
            i <= groups@.len(),
            all == groups_view(groups@),
            groups_bytes(all) <= MAX_DURABLE,
            bytes == groups_bytes(all.take(i as int)),
        decreases groups@.len() - i,
    {
        proof {
            assert(all.take(i + 1).drop_last() =~= all.take(i as int));
            lemma_groups_bytes_prefix(all, i + 1);
        }
        bytes = bytes + groups[i].retained_bytes;
        i += 1;
    }
    assert(all.take(all.len() as int) =~= all);
    bytes
}

/// Removes complete groups from the old end for as long as the oldest has outlived a
/// retention bound.
fn evict_outlived(
    groups: &mut Vec<StoredGroup>,
    byte_limit: Option<u64>,
    cutoff_ms: Option<i64>,
) -> (removed: usize)
    requires
        groups_bytes(groups_view(old(groups)@)) <= MAX_DURABLE,
    ensures
        removed == evict_count(groups_view(old(groups)@), byte_limit, cutoff_ms),
        groups_view(final(groups)@) == groups_view(old(groups)@).skip(removed as int),
        removed <= old(groups)@.len(),
{
    let ghost before = groups_view(groups@);
    let count: usize = groups.len();
    let mut bytes: u64 = bytes_of_groups(groups);
    let mut removed: usize = 0;
    assert(before.skip(0) =~= before);
    while groups.len() > 0 && groups[0].complete
        invariant
            before.len() == count,
            removed <= count,
            groups@.len() == count - removed,
            groups_view(groups@) == before.skip(removed as int),
            bytes == groups_bytes(groups_view(groups@)),
            evict_count(before, byte_limit, cutoff_ms) == removed + evict_count(
                groups_view(groups@),
                byte_limit,
                cutoff_ms,
            ),
        ensures
            evict_count(groups_view(groups@), byte_limit, cutoff_ms) == 0,
        decreases groups@.len(),
    {
        let too_many: bool = match byte_limit {
            Some(limit) => bytes > limit,
            None => false,
        };
        let too_old: bool = match cutoff_ms {
            Some(cutoff) => groups[0].received_last_ms < cutoff,
            None => false,
        };
        assert(groups_view(groups@)[0] == groups@[0]@);
        if !too_many && !too_old {
            break;
        }
        proof {
            lemma_groups_bytes_first(groups_view(groups@));
        }
        let ghost current = groups_view(groups@);
        bytes = bytes - groups[0].retained_bytes;
        groups.remove(0);
        removed += 1;
        assert(groups_view(groups@) =~= current.drop_first());
        assert(groups_view(groups@) =~= before.skip(removed as int));
    }
    removed
}

impl StoredGroup {
    /// Whether a recorded group keeps every rule of stored groups.
    fn is_sound(&self) -> (sound: bool)
        ensures
            sound == self@.wf(),
    {
        let ghost model = self@;
        if self.objects.len() == 0 || self.first_sequence == 0 || self.last_sequence > MAX_DURABLE
            || self.last_sequence < self.first_sequence || self.last_sequence - self.first_sequence
            != self.objects.len() as u64 - 1 || self.key_group == 0 || self.key_group > MAX_DURABLE
            || self.first_timestamp > self.last_timestamp || self.last_timestamp > MAX_DURABLE {
            return false;
        }
        let mut bytes: u128 = 0;
        let mut k: usize = 0;
        while k < self.objects.len()
            invariant
                model == self@,
                k <= self.objects@.len(),
                self.objects@.len() == self.last_sequence - self.first_sequence + 1,
                self.last_sequence <= MAX_DURABLE,
                bytes == objects_bytes(model.objects.take(k as int)),
                bytes <= self.retained_bytes,
                forall|j: int|
                    0 <= j < k ==> (#[trigger] model.objects[j]).header.sequence
                        == model.first_sequence + j && model.objects[j].header.epoch_id
                        == model.epoch_id && model.objects[j].header.key_group == model.key_group
                        && model.objects[j].header.key_id == model.key_id,
            decreases self.objects@.len() - k,
        {
            let object = &self.objects[k];
            assert(model.objects[k as int] == object@);
            if object.header.sequence != self.first_sequence + k as u64 || object.header.epoch_id
                != self.epoch_id || object.header.key_group != self.key_group
                || object.header.key_id != self.key_id {
                return false;
            }
            proof {
                assert(model.objects.take(k + 1).drop_last() =~= model.objects.take(k as int));
                lemma_objects_bytes_prefix(model.objects, k + 1);
            }
            bytes = bytes + object.encoded.len() as u128;
            if bytes > self.retained_bytes as u128 {
                return false;
            }
            k += 1;
        }
        assert(model.objects.take(k as int) =~= model.objects);
        let ghost object_bytes = bytes;
        let mut k: usize = 0;
        assert(model.envelopes.take(0) =~= Seq::<EnvelopeModel>::empty());
        while k < self.envelopes.len()
            invariant
                model == self@,
                k <= self.envelopes@.len(),
                object_bytes == objects_bytes(model.objects),
                bytes == object_bytes + envelopes_bytes(model.envelopes.take(k as int)),
                bytes <= self.retained_bytes,
                forall|j: int|
                    0 <= j < k ==> (#[trigger] model.envelopes[j]).header.epoch_id
                        == model.epoch_id && model.envelopes[j].header.key_group_id
                        == model.key_group && model.envelopes[j].header.key_id == model.key_id,
                forall|i: int, j: int|
                    0 <= i < j < k ==> (#[trigger] model.envelopes[i]).header.recipient_id != (
                    #[trigger] model.envelopes[j]).header.recipient_id,
            decreases self.envelopes@.len() - k,
        {
            let envelope = &self.envelopes[k];
            assert(model.envelopes[k as int] == envelope@);
            if envelope.header.epoch_id != self.epoch_id || envelope.header.key_group_id
                != self.key_group || envelope.header.key_id != self.key_id {
                return false;
            }
            let mut i: usize = 0;
            while i < k
                invariant
                    model == self@,
                    i <= k < self.envelopes@.len(),
                    model.envelopes[k as int] == envelope@,
                    forall|j: int|
                        0 <= j < i ==> (#[trigger] model.envelopes[j]).header.recipient_id
                            != envelope.header.recipient_id,
                decreases k - i,
            {
                assert(model.envelopes[i as int] == self.envelopes@[i as int]@);
                if id_equal(
                    &self.envelopes[i].header.recipient_id,
                    &envelope.header.recipient_id,
                ) {
                    assert(model.envelopes[i as int].header.recipient_id
                        == model.envelopes[k as int].header.recipient_id);
                    return false;
                }
                i += 1;
            }
            proof {
                assert(model.envelopes.take(k + 1).drop_last() =~= model.envelopes.take(k as int));
                lemma_envelopes_bytes_prefix(model.envelopes, k + 1);
            }
            bytes = bytes + envelope.encoded.len() as u128;
            if bytes > self.retained_bytes as u128 {
                return false;
            }
            k += 1;
        }
        assert(model.envelopes.take(k as int) =~= model.envelopes);
        bytes == self.retained_bytes as u128
    }

    /// Position of one viewer's envelope, if there is one.
    fn envelope_position(&self, recipient_id: &[u8; 32]) -> (position: Option<usize>)
        requires
            self@.wf(),
        ensures
            match position {
                Some(k) => k < self.envelopes@.len() && self@.envelope_of(*recipient_id) == Some(
                    self.envelopes@[k as int]@,
                ),
                None => self@.envelope_of(*recipient_id) is None,
            },
    {
        let mut k: usize = 0;
        while k < self.envelopes.len()
            invariant
                self@.wf(),
                k <= self.envelopes@.len(),
                forall|j: int|
                    0 <= j < k ==> (#[trigger] self@.envelopes[j]).header.recipient_id
                        != *recipient_id,
            decreases self.envelopes@.len() - k,
        {
            assert(self@.envelopes[k as int] == self.envelopes@[k as int]@);
            if id_equal(&self.envelopes[k].header.recipient_id, recipient_id) {
                proof {
                    lemma_envelope_of(self@, *recipient_id, k as int);
                }
                return Some(k);
            }
            k += 1;
        }
        None
    }
}

impl StoredStream {
    /// Whether a recorded stream keeps every rule of stored streams.
    fn is_sound(&self) -> (sound: bool)
        ensures
            sound == self@.wf(),
    {
        let ghost model = self@;
        let identified: bool = match &self.publisher.fingerprint {
            Some(fingerprint) => id_equal(fingerprint, &self.publisher_id),
            None => false,
        };
        if !identified || self.high_water > MAX_DURABLE {
            return false;
        }
        let count: usize = self.groups.len();
        let mut j: usize = 0;
        while j < count
            invariant
                model == self@,
                j <= count == self.groups@.len(),
                forall|i: int| 0 <= i < j ==> (#[trigger] model.groups[i]).wf(),
                forall|i: int| 0 <= i < j && i < count - 1 ==> (#[trigger] model.groups[i]).complete,
                forall|i: int, k: int|
                    0 <= i && k == i + 1 && k < j ==> (#[trigger] model.groups[i]).last_sequence + 1
                        == (#[trigger] model.groups[k]).first_sequence,
                forall|i: int, k: int|
                    0 <= i < k < j ==> !(#[trigger] model.groups[i]).is_named(
                        (#[trigger] model.groups[k]).epoch_id,
                        model.groups[k].key_group,
                    ),
            decreases count - j,
        {
            let group = &self.groups[j];
            assert(model.groups[j as int] == group@);
            if !group.is_sound() {
                return false;
            }
            if j < count - 1 && !group.complete {
                return false;
            }
            if j > 0 {
                assert(model.groups[j - 1] == self.groups@[j - 1]@);
                assert(model.groups[j - 1].wf());
                if self.groups[j - 1].last_sequence + 1 != group.first_sequence {
                    assert(model.groups[j - 1].last_sequence + 1
                        != model.groups[j as int].first_sequence);
                    return false;
                }
            }
            let mut i: usize = 0;
            while i < j
                invariant
                    model == self@,
                    i <= j < count == self.groups@.len(),
                    model.groups[j as int] == group@,
                    forall|k: int|
                        0 <= k < i ==> !(#[trigger] model.groups[k]).is_named(
                            group.epoch_id,
                            group.key_group,
                        ),
                decreases j - i,
            {
                assert(model.groups[i as int] == self.groups@[i as int]@);
                if self.groups[i].epoch_id == group.epoch_id && self.groups[i].key_group
                    == group.key_group {
                    assert(model.groups[i as int].is_named(
                        model.groups[j as int].epoch_id,
                        model.groups[j as int].key_group,
                    ));
                    return false;
                }
                i += 1;
            }
            j += 1;
        }
        proof {
            lemma_adjacent_groups_ordered(model.groups);
        }
        if count > 0 {
            assert(model.groups.last() == self.groups@[count - 1]@);
            if self.groups[count - 1].last_sequence != self.high_water {
                return false;
            }
        }
        match self.active {
            Some((epoch_id, key_group)) => count > 0 && !self.groups[count - 1].complete
                && self.groups[count - 1].epoch_id == epoch_id && self.groups[count - 1].key_group
                == key_group,
            None => count == 0 || self.groups[count - 1].complete,
        }
    }

    /// Position of the retained group with a name, if there is one.
    fn group_position(&self, epoch_id: u128, key_group: u64) -> (position: Option<usize>)
        requires
            self@.wf(),
        ensures
            match position {
                Some(i) => i < self.groups@.len() && self@.group_index(epoch_id, key_group)
                    == Some(i as int) && self@.groups[i as int].is_named(epoch_id, key_group),
                None => self@.group_index(epoch_id, key_group) is None,
            },
    {
        let mut i: usize = 0;
        while i < self.groups.len()
            invariant
                self@.wf(),
                i <= self.groups@.len(),
                forall|k: int| 0 <= k < i ==> !self@.groups[k].is_named(epoch_id, key_group),
            decreases self.groups@.len() - i,
        {
            assert(self@.groups[i as int] == self.groups@[i as int]@);
            if self.groups[i].epoch_id == epoch_id && self.groups[i].key_group == key_group {
                proof {
                    lemma_group_index(self@, epoch_id, key_group, i as int);
                }
                return Some(i);
            }
            i += 1;
        }
        None
    }

    /// Positions of the group and of the object with a sequence, if it is retained.
    fn object_position(&self, sequence: u64) -> (position: Option<(usize, usize)>)
        requires
            self@.wf(),
        ensures
            match position {
                Some((i, k)) => i < self.groups@.len() && k < self.groups@[i as int].objects@.len()
                    && self@.object_at(sequence) == Some(
                    self.groups@[i as int].objects@[k as int]@,
                ) && self.groups@[i as int].objects@[k as int].header.sequence == sequence,
                None => self@.object_at(sequence) is None,
            },
    {
        let mut i: usize = 0;
        while i < self.groups.len()
            invariant
                self@.wf(),
                i <= self.groups@.len(),
                forall|k: int|
                    0 <= k < i ==> !((#[trigger] self@.groups[k]).first_sequence <= sequence
                        <= self@.groups[k].last_sequence),
            decreases self.groups@.len() - i,
        {
            assert(self@.groups[i as int] == self.groups@[i as int]@);
            assert(self@.groups[i as int].wf());
            if self.groups[i].first_sequence <= sequence && sequence
                <= self.groups[i].last_sequence {
                let count: usize = self.groups[i].objects.len();
                assert(self@.groups[i as int].objects.len() == count);
                let k: usize = (sequence - self.groups[i].first_sequence) as usize;
                proof {
                    lemma_object_at(self@, sequence, i as int);
                    assert(self@.groups[i as int].objects[k as int]
                        == self.groups@[i as int].objects@[k as int]@);
                }
                return Some((i, k));
            }
            i += 1;
        }
        None
    }

    /// Adds the next object, opening a group where it does not continue the active one.
    fn add_object(&mut self, object: StoredObject)
        requires
            old(self)@.wf(),
            groups_bytes(old(self)@.groups) + object.encoded@.len() <= MAX_DURABLE,
        ensures
            final(self)@ == old(self)@.with_object(object@),
    {
        let ghost before = self@;
        let added: u64 = object.encoded.len() as u64;
        let header = object.header;
        let received_at_ms: i64 = object.received_at_ms;
        let count: usize = self.groups.len();
        self.high_water = header.sequence;
        if self.active == Some((header.epoch_id, header.key_group)) {
            let last: usize = count - 1;
            proof {
                lemma_groups_bytes_member(before.groups, last as int);
            }
            let ghost group = self.groups@[last as int]@;
            assert(group == before.groups.last());
            let ghost new_object = object@;
            self.groups[last].last_sequence = header.sequence;
            self.groups[last].last_timestamp = header.timestamp;
            if received_at_ms > self.groups[last].received_last_ms {
                self.groups[last].received_last_ms = received_at_ms;
            }
            let bytes: u64 = self.groups[last].retained_bytes;
            self.groups[last].retained_bytes = bytes + added;
            self.groups[last].objects.push(object);
            proof {
                assert(self.groups@[last as int]@.objects =~= group.objects.push(new_object));
                assert(self.groups@[last as int]@ == group.with_object(new_object));
                assert(self@.groups =~= before.groups.update(
                    last as int,
                    group.with_object(new_object),
                ));
            }
        } else {
            if self.active.is_some() {
                let last: usize = count - 1;
                self.groups[last].complete = true;
                proof {
                    assert(self.groups@[last as int]@.objects =~= before.groups.last().objects);
                    assert(self@.groups =~= before.completed_groups());
                }
            } else {
                assert(self@.groups =~= before.completed_groups());
            }
            let ghost new_object = object@;
            let mut objects: Vec<StoredObject> = Vec::new();
            objects.push(object);
            let group = StoredGroup {
                epoch_id: header.epoch_id,
                key_group: header.key_group,
                key_id: header.key_id,
                first_sequence: header.sequence,
                last_sequence: header.sequence,
                first_timestamp: header.timestamp,
                last_timestamp: header.timestamp,
                received_first_ms: received_at_ms,
                received_last_ms: received_at_ms,
                retained_bytes: added,
                complete: false,
                objects,
                envelopes: Vec::new(),
            };
            assert(group@.objects =~= seq![new_object]);
            assert(group@.envelopes =~= Seq::<EnvelopeModel>::empty());
            assert(group@ == GroupModel::opened_by(new_object));
            self.groups.push(group);
            self.active = Some((header.epoch_id, header.key_group));
            assert(self@.groups =~= before.completed_groups().push(
                GroupModel::opened_by(new_object),
            ));
        }
    }

    /// Number of complete groups.
    fn complete_groups(&self) -> (count: usize)
        requires
            self@.wf(),
        ensures
            count == self@.complete_count(),
    {
        if self.active.is_some() {
            self.groups.len() - 1
        } else {
            self.groups.len()
        }
    }

    /// The range of the complete groups, if there are any.
    fn bounds(&self) -> (result: Option<NativeRetainedBounds>)
        requires
            self@.wf(),
        ensures
            result == bounds_of(self@),
    {
        let count: usize = self.complete_groups();
        if count == 0 {
            return None;
        }
        let ghost complete = self@.groups.take(count as int);
        assert(complete[0] == self.groups@[0]@);
        let mut oldest: u64 = self.groups[0].first_timestamp;
        let mut newest: u64 = self.groups[0].last_timestamp;
        let mut i: usize = 1;
        while i < count
            invariant
                1 <= i <= count <= self.groups@.len(),
                complete == self@.groups.take(count as int),
                oldest == oldest_timestamp(complete.take(i as int)),
                newest == newest_timestamp(complete.take(i as int)),
            decreases count - i,
        {
            assert(complete[i as int] == self.groups@[i as int]@);
            assert(complete.take(i + 1).drop_last() =~= complete.take(i as int));
            if self.groups[i].first_timestamp < oldest {
                oldest = self.groups[i].first_timestamp;
            }
            if self.groups[i].last_timestamp > newest {
                newest = self.groups[i].last_timestamp;
            }
            i += 1;
        }
        assert(complete.take(count as int) =~= complete);
        assert(complete.last() == self.groups@[count - 1]@);
        Some(
            NativeRetainedBounds {
                oldest_sequence: self.groups[0].first_sequence,
                newest_sequence: self.groups[count - 1].last_sequence,
                oldest_timestamp: oldest,
                newest_timestamp: newest,
            },
        )
    }

    /// The newest group whose first sequence is not after `sequence`.
    fn group_before_sequence(&self, sequence: u64) -> (position: Option<usize>)
        ensures
            match position {
                Some(i) => i < self.groups@.len() && last_group_at(self@.groups, sequence) == Some(
                    i as int,
                ),
                None => last_group_at(self@.groups, sequence) is None,
            },
    {
        let mut i: usize = self.groups.len();
        assert(self@.groups.take(i as int) =~= self@.groups);
        while i > 0
            invariant
                i <= self.groups@.len(),
                last_group_at(self@.groups, sequence) == last_group_at(
                    self@.groups.take(i as int),
                    sequence,
                ),
            decreases i,
        {
            assert(self@.groups.take(i as int).drop_last() =~= self@.groups.take(i - 1));
            assert(self@.groups.take(i as int).last() == self.groups@[i - 1]@);
            if self.groups[i - 1].first_sequence <= sequence {
                return Some(i - 1);
            }
            i -= 1;
        }
        None
    }

    /// The group that starts latest among those that start at or before `timestamp`.
    fn group_before_timestamp(&self, timestamp: u64) -> (position: Option<usize>)
        ensures
            match position {
                Some(i) => i < self.groups@.len() && latest_group_at(self@.groups, timestamp)
                    == Some(i as int),
                None => latest_group_at(self@.groups, timestamp) is None,
            },
    {
        let mut best: Option<usize> = None;
        let mut i: usize = 0;
        while i < self.groups.len()
            invariant
                i <= self.groups@.len(),
                match best {
                    Some(b) => b < i && latest_group_at(self@.groups.take(i as int), timestamp)
                        == Some(b as int),
                    None => latest_group_at(self@.groups.take(i as int), timestamp) is None,
                },
            decreases self.groups@.len() - i,
        {
            assert(self@.groups.take(i + 1).drop_last() =~= self@.groups.take(i as int));
            assert(self@.groups.take(i + 1).last() == self.groups@[i as int]@);
            let later: bool = match best {
                Some(b) => {
                    assert(self@.groups.take(i + 1)[b as int] == self.groups@[b as int]@);
                    self.groups[b].first_timestamp <= self.groups[i].first_timestamp
                },
                None => true,
            };
            if self.groups[i].first_timestamp <= timestamp && later {
                best = Some(i);
            }
            i += 1;
        }
        assert(self@.groups.take(self@.groups.len() as int) =~= self@.groups);
        best
    }

    /// Closes the active group.
    fn complete_active(&mut self)
        requires
            old(self)@.wf(),
        ensures
            final(self)@ == old(self)@.finalized(),
    {
        let ghost before = self@;
        if self.active.is_some() {
            let last: usize = self.groups.len() - 1;
            self.groups[last].complete = true;
            self.active = None;
        }
        assert(self@.groups =~= before.completed_groups());
    }
}

/// The streams of a store as mathematical values.
pub open spec fn streams_view(streams: Seq<StoredStream>) -> Seq<StreamModel> {
    streams.map_values(|stream: StoredStream| stream@)
}

/// Payload-opaque store of native streams.
#[derive(Debug)]
pub struct NativeStore {
    streams: Vec<StoredStream>,
    limits: NativeStoreLimits,
    retention_bytes: Option<u64>,
    retention_age_ms: Option<i64>,
}

impl View for NativeStore {
    type V = StoreModel;

    closed spec fn view(&self) -> StoreModel {
        StoreModel {
            streams: streams_view(self.streams@),
            limits: self.limits,
            retention_bytes: self.retention_bytes,
            retention_age_ms: self.retention_age_ms,
        }
    }
}

impl View for NativeObject {
    type V = SentObject;

    open spec fn view(&self) -> SentObject {
        SentObject {
            header: self.header,
            encoded: self.encoded@,
            shape_valid: self.shape_valid,
            signer: self.signer,
        }
    }
}

impl View for KeyEnvelope {
    type V = SentEnvelope;

    open spec fn view(&self) -> SentEnvelope {
        SentEnvelope {
            header: self.header,
            encoded: self.encoded@,
            shape_valid: self.shape_valid,
            signer: self.signer,
        }
    }
}

impl Default for NativeStoreLimits {
    fn default() -> (limits: NativeStoreLimits)
        ensures
            limits.max_streams == 1_024,
            limits.max_streams_per_publisher == 16,
            limits.max_objects_per_group == 4_096,
            limits.max_group_bytes == 64 * 1024 * 1024,
            limits.max_envelopes_per_group == 128,
            limits.max_total_bytes == 10 * 1024 * 1024 * 1024,
            limits.max_publisher_bytes == 1024 * 1024 * 1024,
            limits.consistent(),
    {
        NativeStoreLimits {
            max_streams: 1_024,
            max_streams_per_publisher: 16,
            max_objects_per_group: 4_096,
            max_group_bytes: 64 * 1024 * 1024,
            max_envelopes_per_group: 128,
            max_total_bytes: 10 * 1024 * 1024 * 1024,
            max_publisher_bytes: 1024 * 1024 * 1024,
        }
    }
}

impl NativeStoreLimits {
    /// Whether every limit is positive and no publisher may hold more than the relay.
    pub fn is_consistent(&self) -> (consistent: bool)
        ensures
            consistent == self.consistent(),
    {
        self.max_streams != 0 && self.max_streams_per_publisher != 0
            && self.max_streams_per_publisher <= self.max_streams && self.max_objects_per_group
            != 0 && self.max_group_bytes != 0 && self.max_envelopes_per_group != 0
            && self.max_total_bytes != 0 && self.max_publisher_bytes != 0
            && self.max_publisher_bytes <= self.max_total_bytes
    }
}

impl NativeStore {
    /// Creates an empty store with the default hard limits.
    ///
    /// `retention_bytes` and `retention_age` are independent optional per-stream limits.
    /// Where both exist, complete groups are evicted at whichever is reached first.
    pub fn open(retention_bytes: Option<u64>, retention_age: Option<Duration>) -> (result: Result<
        NativeStore,
        StoreError,
    >)
        ensures
            match result {
                Ok(store) => {
                    &&& retention_is_positive(retention_bytes, retention_age)
                    &&& store@.wf()
                    &&& store@.streams == Seq::<StreamModel>::empty()
                    &&& store@.limits.max_streams == 1_024
                    &&& store@.limits.max_streams_per_publisher == 16
                    &&& store@.limits.max_objects_per_group == 4_096
                    &&& store@.limits.max_group_bytes == 64 * 1024 * 1024
                    &&& store@.limits.max_envelopes_per_group == 128
                    &&& store@.limits.max_total_bytes == 10 * 1024 * 1024 * 1024
                    &&& store@.limits.max_publisher_bytes == 1024 * 1024 * 1024
                    &&& store@.retention_bytes == retention_bytes
                    &&& store@.retention_age_ms == age_limit(retention_age)
                },
                Err(error) => !retention_is_positive(retention_bytes, retention_age) && error
                    == StoreError::RetentionNotPositive,
            },
    {
        NativeStore::open_with_limits(retention_bytes, retention_age, NativeStoreLimits::default())
    }

    /// Creates an empty store with explicit hard limits.
    pub fn open_with_limits(
        retention_bytes: Option<u64>,
        retention_age: Option<Duration>,
        limits: NativeStoreLimits,
    ) -> (result: Result<NativeStore, StoreError>)
        ensures
            match result {
                Ok(store) => {
                    &&& retention_is_positive(retention_bytes, retention_age)
                    &&& limits.consistent()
                    &&& store@.wf()
                    &&& store@ == StoreModel {
                        streams: Seq::empty(),
                        limits,
                        retention_bytes,
                        retention_age_ms: age_limit(retention_age),
                    }
                },
                Err(error) => {
                    ||| error == StoreError::RetentionNotPositive && !retention_is_positive(
                        retention_bytes,
                        retention_age,
                    )
                    ||| error == StoreError::LimitsInconsistent && retention_is_positive(
                        retention_bytes,
                        retention_age,
                    ) && !limits.consistent()
                },
            },
    {
        let retention_age_ms: Option<i64> = match retention_age {
            Some(age) => {
                if age.as_nanos() == 0 {
                    return Err(StoreError::RetentionNotPositive);
                }
                Some(whole_millis(age))
            },
            None => None,
        };
        if retention_bytes == Some(0) {
            return Err(StoreError::RetentionNotPositive);
        }
        if !limits.is_consistent() {
            return Err(StoreError::LimitsInconsistent);
        }
        let store = NativeStore { streams: Vec::new(), limits, retention_bytes, retention_age_ms };
        assert(store@.streams =~= Seq::<StreamModel>::empty());
        Ok(store)
    }

    /// Whether recorded streams agree with one another, as those that a store has written
    /// do.
    pub fn rows_agree(streams: &Vec<StoredStream>) -> (agree: bool)
        ensures
            agree == streams_agree(streams_view(streams@)),
    {
        let ghost model = streams_view(streams@);
        let mut total: u64 = 0;
        let mut i: usize = 0;
        assert(model.take(0) =~= Seq::<StreamModel>::empty());
        while i < streams.len()
            invariant
                model == streams_view(streams@),
                i <= streams@.len(),
                forall|k: int| 0 <= k < i ==> (#[trigger] model[k]).wf(),
                forall|j: int, k: int|
                    0 <= j < k < i ==> (#[trigger] model[j]).stream_id < (
                    #[trigger] model[k]).stream_id,
                total == streams_bytes(model.take(i as int)),
                total <= MAX_DURABLE,
            decreases streams@.len() - i,
        {
            let stream = &streams[i];
            assert(model[i as int] == stream@);
            if !stream.is_sound() {
                return false;
            }
            if i > 0 {
                assert(model[i - 1] == streams@[i - 1]@);
                if streams[i - 1].stream_id >= stream.stream_id {
                    assert(model[i - 1].stream_id >= model[i as int].stream_id);
                    return false;
                }
            }
            proof {
                assert(model.take(i + 1).drop_last() =~= model.take(i as int));
                lemma_streams_bytes_prefix(model, i + 1);
                lemma_groups_bytes_prefix(stream@.groups, 0);
            }
            let mut j: usize = 0;
            let ghost before_groups = total;
            assert(stream@.groups.take(0) =~= Seq::<GroupModel>::empty());
            while j < stream.groups.len()
                invariant
                    model == streams_view(streams@),
                    i < streams@.len(),
                    model[i as int] == stream@,
                    j <= stream.groups@.len(),
                    total == before_groups + groups_bytes(stream@.groups.take(j as int)),
                    total <= MAX_DURABLE,
                    before_groups + groups_bytes(stream@.groups) == streams_bytes(
                        model.take(i + 1),
                    ),
                    streams_bytes(model.take(i + 1)) <= streams_bytes(model),
                decreases stream.groups@.len() - j,
            {
                proof {
                    let groups = stream@.groups;
                    assert(groups[j as int] == stream.groups@[j as int]@);
                    assert(groups.take(j + 1).drop_last() =~= groups.take(j as int));
                    lemma_groups_bytes_prefix(groups, j + 1);
                }
                let bytes: u64 = stream.groups[j].retained_bytes;
                if bytes > MAX_DURABLE - total {
                    return false;
                }
                total = total + bytes;
                j += 1;
            }
            assert(stream@.groups.take(j as int) =~= stream@.groups);
            i += 1;
        }
        assert(model.take(i as int) =~= model);
        true
    }

    /// Opens a store on the streams that it has recorded, in the order of their
    /// identifiers.
    pub fn restore(
        retention_bytes: Option<u64>,
        retention_age: Option<Duration>,
        limits: NativeStoreLimits,
        streams: Vec<StoredStream>,
    ) -> (result: Result<NativeStore, StoreError>)
        requires
            streams_agree(streams_view(streams@)),
        ensures
            match result {
                Ok(store) => {
                    &&& retention_is_positive(retention_bytes, retention_age)
                    &&& limits.consistent()
                    &&& store@ == (StoreModel {
                        streams: streams_view(streams@),
                        limits,
                        retention_bytes,
                        retention_age_ms: age_limit(retention_age),
                    })
                    &&& store@.wf()
                },
                Err(error) => error == if !retention_is_positive(retention_bytes, retention_age) {
                    StoreError::RetentionNotPositive
                } else {
                    StoreError::LimitsInconsistent
                } && !(retention_is_positive(retention_bytes, retention_age)
                    && limits.consistent()),
            },
    {
        let mut store = NativeStore::open_with_limits(retention_bytes, retention_age, limits)?;
        store.streams = streams;
        Ok(store)
    }

    /// The stored streams, in the order of their identifiers.
    pub fn streams(&self) -> (streams: &Vec<StoredStream>)
        ensures
            streams_view(streams@) == self@.streams,
    {
        &self.streams
    }

    /// Position of a stream, if the store has it.
    fn position(&self, stream_id: u128) -> (position: Option<usize>)
        requires
            self@.wf(),
        ensures
            match position {
                Some(i) => i < self.streams@.len() && self@.find(stream_id) == Some(i as int)
                    && self@.streams[i as int].stream_id == stream_id,
                None => self@.find(stream_id) is None,
            },
    {
        let mut i: usize = 0;
        while i < self.streams.len()
            invariant
                self@.wf(),
                i <= self.streams@.len(),
                forall|k: int| 0 <= k < i ==> self@.streams[k].stream_id != stream_id,
            decreases self.streams@.len() - i,
        {
            if self.streams[i].stream_id == stream_id {
                proof {
                    lemma_find(self@, stream_id, i as int);
                }
                return Some(i);
            }
            i += 1;
        }
        None
    }

    /// Bytes retained across the whole store, and by one publisher.
    fn usage(&self, publisher_id: &[u8; 32]) -> (usage: (u64, u64))
        requires
            self@.wf(),
        ensures
            usage.0 == streams_bytes(self@.streams),
            usage.1 == publisher_bytes(self@.streams, *publisher_id),
    {
        let mut total: u64 = 0;
        let mut owned: u64 = 0;
        let mut i: usize = 0;
        let ghost all = self@.streams;
        while i < self.streams.len()
            invariant
                all == self@.streams,
                self@.wf(),
                i <= self.streams@.len(),
                total == streams_bytes(all.take(i as int)),
                owned == publisher_bytes(all.take(i as int), *publisher_id),
            decreases self.streams@.len() - i,
        {
            proof {
                assert(all[i as int] == self.streams@[i as int]@);
                assert(all.take(i + 1).drop_last() =~= all.take(i as int));
                lemma_streams_bytes_prefix(all, i + 1);
                lemma_streams_bytes_member(all, i as int);
                assert(publisher_bytes(all.take(i + 1), *publisher_id) <= streams_bytes(
                    all.take(i + 1),
                ));
            }
            let bytes: u64 = bytes_of_groups(&self.streams[i].groups);
            total = total + bytes;
            if id_equal(&self.streams[i].publisher_id, publisher_id) {
                owned = owned + bytes;
            }
            i += 1;
        }
        assert(all.take(all.len() as int) =~= all);
        (total, owned)
    }

    /// Why a group cannot grow, if anything stands against it.
    fn check_group_growth(
        &self,
        publisher_id: &[u8; 32],
        group_items: usize,
        item_limit: u64,
        group_bytes: u64,
        added: u64,
    ) -> (refusal: Option<StoreError>)
        requires
            self@.wf(),
        ensures
            refusal == self@.growth_refusal(
                *publisher_id,
                group_items as nat,
                item_limit,
                group_bytes as nat,
                added as nat,
            ),
    {
        if group_items as u64 >= item_limit || group_bytes as u128 + added as u128
            > self.limits.max_group_bytes as u128 {
            return Some(StoreError::GroupLimitReached);
        }
        let (total, owned) = self.usage(publisher_id);
        if total as u128 + added as u128 > self.limits.max_total_bytes as u128 || owned as u128
            + added as u128 > self.limits.max_publisher_bytes as u128 {
            return Some(StoreError::QuotaReached);
        }
        if total as u128 + added as u128 > MAX_DURABLE as u128 {
            return Some(StoreError::BeyondDurableBound);
        }
        None
    }

    /// Why an object cannot open a new group, if anything stands against it.
    fn validate_group_progression(&self, index: usize, header: &NativeObjectHeader) -> (refusal:
        Option<StoreError>)
        requires
            self@.wf(),
            index < self.streams@.len(),
        ensures
            refusal == self@.opening_refusal(self@.streams[index as int], *header),
    {
        assert(self@.streams[index as int] == self.streams@[index as int]@);
        let stream = &self.streams[index];
        if let Some((epoch_id, key_group)) = stream.active {
            if epoch_id == header.epoch_id && header.key_group <= key_group {
                return Some(StoreError::GroupRegressed);
            }
        }
        if header.kind == NativeObjectKind::Cursor || !header.random_access {
            return Some(StoreError::NotRandomAccess);
        }
        if header.timestamp > MAX_DURABLE {
            return Some(StoreError::BeyondDurableBound);
        }
        if header.key_group == 0 {
            return Some(StoreError::GroupNumberZero);
        }
        if stream.group_position(header.epoch_id, header.key_group).is_some() {
            return Some(StoreError::GroupReopened);
        }
        None
    }

    /// Evicts what retention does not allow one stream to keep.
    fn enforce_retention(&mut self, index: usize, now_ms: i64) -> (removed: usize)
        requires
            old(self)@.wf(),
            index < old(self)@.streams.len(),
        ensures
            final(self)@.wf(),
            removed == old(self)@.due_groups(old(self)@.streams[index as int], now_ms),
            final(self)@ == old(self)@.with_stream(
                index as int,
                old(self)@.pruned(old(self)@.streams[index as int], now_ms),
            ),
    {
        let ghost before = self@;
        let ghost stream = before.streams[index as int];
        assert(stream == self.streams@[index as int]@);
        let cutoff_ms: Option<i64> = match self.retention_age_ms {
            Some(age) => {
                let oldest: i128 = now_ms as i128 - age as i128;
                let smallest: i64 = i64::MIN;
                Some(
                    if oldest < smallest as i128 {
                        smallest
                    } else {
                        oldest as i64
                    },
                )
            },
            None => None,
        };
        proof {
            lemma_streams_bytes_member(before.streams, index as int);
        }
        let byte_limit: Option<u64> = self.retention_bytes;
        let removed: usize = evict_outlived(&mut self.streams[index].groups, byte_limit, cutoff_ms);
        proof {
            let pruned = before.pruned(stream, now_ms);
            lemma_evict_count_bounded(stream.groups, byte_limit, cutoff_ms);
            assert(removed <= stream.complete_count()) by {
                if removed > stream.complete_count() {
                    assert(stream.groups[stream.groups.len() - 1].complete);
                }
            }
            lemma_without_oldest_wf(stream, removed as nat);
            lemma_groups_bytes_skip(stream.groups, removed as int);
            lemma_with_stream_wf(before, index as int, pruned);
            assert(self.streams@[index as int]@.groups =~= pruned.groups);
            assert(self@.streams =~= before.streams.update(index as int, pruned));
        }
        removed
    }

    /// Stores one signed opaque object and applies complete-group retention.
    ///
    /// Sequences are immutable and contiguous. Crossing to a new group completes the
    /// previous one. A retry with the same bytes returns the existing acknowledgement.
    pub fn store_object(&mut self, object: &NativeObject, received_at_ms: i64) -> (result: Result<
        NativeCommit,
        StoreError,
    >)
        requires
            old(self)@.wf(),
        ensures
            final(self)@.wf(),
            final(self)@ == old(self)@.after_object(object@, received_at_ms),
            result == old(self)@.object_reply(object@, received_at_ms),
    {
        let ghost before = self@;
        let header = object.header;
        if !object.shape_valid {
            return Err(StoreError::Malformed);
        }
        let index: usize = match self.position(header.stream_id) {
            Some(index) => index,
            None => {
                return Err(StoreError::UnknownStream);
            },
        };
        let ghost stream = before.streams[index as int];
        assert(stream == self.streams@[index as int]@);
        let signed: bool = match &object.signer {
            Some(signer) => signer.same(&self.streams[index].publisher),
            None => false,
        };
        if !signed {
            return Err(StoreError::SignerMismatch);
        }
        if header.sequence > MAX_DURABLE {
            return Err(StoreError::BeyondDurableBound);
        }
        if let Some((group, at)) = self.streams[index].object_position(header.sequence) {
            if !bytes_equal(
                self.streams[index].groups[group].objects[at].encoded.as_slice(),
                object.encoded.as_slice(),
            ) {
                return Err(StoreError::Conflict);
            }
            return Ok(
                NativeCommit {
                    committed_through: header.sequence,
                    evicted_groups: 0,
                    inserted: false,
                },
            );
        }
        let high_water: u64 = self.streams[index].high_water;
        if high_water == MAX_DURABLE {
            return Err(StoreError::SequenceExhausted);
        }
        if header.sequence != high_water + 1 {
            return Err(StoreError::OutOfOrder { expected: high_water + 1 });
        }
        if header.key_group > MAX_DURABLE {
            return Err(StoreError::BeyondDurableBound);
        }
        let added: u64 = object.encoded.len() as u64;
        if self.streams[index].active == Some((header.epoch_id, header.key_group)) {
            let last: usize = self.streams[index].groups.len() - 1;
            assert(stream.groups.last() == self.streams@[index as int].groups@[last as int]@);
            if self.streams[index].groups[last].key_id != header.key_id {
                return Err(StoreError::KeyChanged);
            }
            if let Some(error) = self.check_group_growth(
                &self.streams[index].publisher_id,
                self.streams[index].groups[last].objects.len(),
                self.limits.max_objects_per_group,
                self.streams[index].groups[last].retained_bytes,
                added,
            ) {
                return Err(error);
            }
            if header.timestamp > MAX_DURABLE {
                return Err(StoreError::BeyondDurableBound);
            }
            if header.timestamp < self.streams[index].groups[last].first_timestamp {
                return Err(StoreError::TimestampBeforeGroup);
            }
        } else {
            if let Some(error) = self.validate_group_progression(index, &header) {
                return Err(error);
            }
            if let Some(error) = self.check_group_growth(
                &self.streams[index].publisher_id,
                0,
                self.limits.max_objects_per_group,
                0,
                added,
            ) {
                return Err(error);
            }
        }
        let stored = StoredObject { header, encoded: object.encoded.clone(), received_at_ms };
        let ghost grown = stream.with_object(stored@);
        proof {
            lemma_streams_bytes_member(before.streams, index as int);
            lemma_with_object_wf(stream, stored@);
            lemma_with_stream_wf(before, index as int, grown);
        }
        self.streams[index].add_object(stored);
        assert(self@ == before.with_stream(index as int, grown)) by {
            assert(self@.streams =~= before.streams.update(index as int, grown));
        }
        let evicted_groups: usize = self.enforce_retention(index, received_at_ms);
        proof {
            let pruned = before.pruned(grown, received_at_ms);
            assert(before.with_stream(index as int, grown).with_stream(index as int, pruned).streams
                =~= before.with_stream(index as int, pruned).streams);
        }
        Ok(NativeCommit { committed_through: header.sequence, evicted_groups, inserted: true })
    }

    /// Stores one viewer envelope under the exact retained group's lifetime. Returns
    /// whether it is new.
    pub fn store_envelope(&mut self, envelope: &KeyEnvelope, received_at_ms: i64) -> (result:
        Result<bool, StoreError>)
        requires
            old(self)@.wf(),
        ensures
            final(self)@.wf(),
            final(self)@ == old(self)@.after_envelope(envelope@, received_at_ms),
            result == old(self)@.envelope_result(envelope@),
    {
        let ghost before = self@;
        let header = envelope.header;
        if !envelope.shape_valid {
            return Err(StoreError::Malformed);
        }
        let index: usize = match self.position(header.stream_id) {
            Some(index) => index,
            None => {
                return Err(StoreError::UnknownStream);
            },
        };
        let ghost stream = before.streams[index as int];
        assert(stream == self.streams@[index as int]@);
        let signed: bool = match &envelope.signer {
            Some(signer) => signer.same(&self.streams[index].publisher),
            None => false,
        };
        if !signed {
            return Err(StoreError::SignerMismatch);
        }
        if header.key_group_id > MAX_DURABLE {
            return Err(StoreError::BeyondDurableBound);
        }
        let group: usize = match self.streams[index].group_position(
            header.epoch_id,
            header.key_group_id,
        ) {
            Some(group) => group,
            None => {
                return Err(StoreError::NoMatchingGroup);
            },
        };
        assert(stream.groups[group as int] == self.streams@[index as int].groups@[group as int]@);
        assert(stream.groups[group as int].wf());
        if self.streams[index].groups[group].key_id != header.key_id {
            return Err(StoreError::NoMatchingGroup);
        }
        if let Some(at) = self.streams[index].groups[group].envelope_position(
            &header.recipient_id,
        ) {
            if !bytes_equal(
                self.streams[index].groups[group].envelopes[at].encoded.as_slice(),
                envelope.encoded.as_slice(),
            ) {
                return Err(StoreError::Conflict);
            }
            return Ok(false);
        }
        let added: u64 = envelope.encoded.len() as u64;
        if let Some(error) = self.check_group_growth(
            &self.streams[index].publisher_id,
            self.streams[index].groups[group].envelopes.len(),
            self.limits.max_envelopes_per_group,
            self.streams[index].groups[group].retained_bytes,
            added,
        ) {
            return Err(error);
        }
        let stored = StoredEnvelope { header, encoded: envelope.encoded.clone(), received_at_ms };
        let ghost new_envelope = stored@;
        let ghost grown = stream.with_envelope(group as int, new_envelope);
        proof {
            lemma_streams_bytes_member(before.streams, index as int);
            lemma_groups_bytes_member(stream.groups, group as int);
            lemma_with_envelope_wf(stream, group as int, new_envelope);
            lemma_with_stream_wf(before, index as int, grown);
        }
        let bytes: u64 = self.streams[index].groups[group].retained_bytes;
        self.streams[index].groups[group].retained_bytes = bytes + added;
        self.streams[index].groups[group].envelopes.push(stored);
        proof {
            assert(self.streams@[index as int].groups@[group as int]@.envelopes
                =~= stream.groups[group as int].envelopes.push(new_envelope));
            assert(self.streams@[index as int]@.groups =~= grown.groups);
            assert(self@.streams =~= before.streams.update(index as int, grown));
        }
        self.enforce_retention(index, received_at_ms);
        proof {
            let pruned = before.pruned(grown, received_at_ms);
            assert(before.with_stream(index as int, grown).with_stream(index as int, pruned).streams
                =~= before.with_stream(index as int, pruned).streams);
        }
        Ok(true)
    }

    /// Publishes a verified stream descriptor.
    ///
    /// Replacing metadata is allowed only for the same publisher and stream. A retry
    /// with the same bytes changes nothing.
    pub fn put_descriptor(&mut self, descriptor: &StreamDescriptor) -> (result: Result<
        (),
        StoreError,
    >)
        requires
            old(self)@.wf(),
        ensures
            final(self)@.wf(),
            old(self)@.describes(
                descriptor.stream_id,
                descriptor.publisher,
                descriptor.encoded@,
                descriptor.valid,
                final(self)@,
            ),
            result == match old(self)@.descriptor_refusal(
                descriptor.stream_id,
                descriptor.publisher,
                descriptor.valid,
            ) {
                Some(error) => Err::<(), StoreError>(error),
                None => Ok::<(), StoreError>(()),
            },
    {
        let ghost before = self@;
        if !descriptor.valid {
            return Err(StoreError::DescriptorInvalid);
        }
        let publisher_id: [u8; 32] = match descriptor.publisher.fingerprint {
            Some(publisher_id) => publisher_id,
            None => {
                return Err(StoreError::PublisherUnidentified);
            },
        };
        if let Some(index) = self.position(descriptor.stream_id) {
            let ghost stream = before.streams[index as int];
            assert(stream == self.streams@[index as int]@);
            if !id_equal(&self.streams[index].publisher_id, &publisher_id) {
                return Err(StoreError::StreamOwnedByAnother);
            }
            if !bytes_equal(
                self.streams[index].descriptor.as_slice(),
                descriptor.encoded.as_slice(),
            ) {
                self.streams[index].descriptor = descriptor.encoded.clone();
                self.streams[index].publisher = descriptor.publisher;
                proof {
                    let described = StreamModel {
                        publisher: descriptor.publisher,
                        descriptor: descriptor.encoded@,
                        ..stream
                    };
                    lemma_with_stream_wf(before, index as int, described);
                    assert(self.streams@[index as int]@ == described);
                    assert(self@.streams =~= before.streams.update(index as int, described));
                }
            }
            return Ok(());
        }
        if self.streams.len() as u64 >= self.limits.max_streams || self.streams_of(&publisher_id)
            >= self.limits.max_streams_per_publisher {
            return Err(StoreError::StreamLimitReached);
        }
        let mut at: usize = 0;
        while at < self.streams.len() && self.streams[at].stream_id < descriptor.stream_id
            invariant
                self@.wf(),
                at <= self.streams@.len(),
                forall|i: int|
                    0 <= i < at ==> (#[trigger] self@.streams[i]).stream_id
                        < descriptor.stream_id,
            decreases self.streams@.len() - at,
        {
            assert(self@.streams[at as int] == self.streams@[at as int]@);
            at += 1;
        }
        proof {
            assert forall|i: int| at <= i < before.streams.len() implies descriptor.stream_id < (
            #[trigger] before.streams[i]).stream_id by {
                assert(before.streams[at as int] == self.streams@[at as int]@);
                assert(before.streams[i].stream_id != descriptor.stream_id);
                if at < i {
                    assert(before.streams[at as int].stream_id < before.streams[i].stream_id);
                }
            }
            assert(before.is_insertion_point(descriptor.stream_id, at as int));
        }
        let stream = StoredStream {
            stream_id: descriptor.stream_id,
            publisher: descriptor.publisher,
            publisher_id,
            descriptor: descriptor.encoded.clone(),
            high_water: 0,
            active: None,
            groups: Vec::new(),
        };
        let ghost fresh = fresh_stream(
            descriptor.stream_id,
            descriptor.publisher,
            descriptor.encoded@,
        );
        assert(stream@.groups =~= Seq::<GroupModel>::empty());
        assert(stream@ == fresh);
        self.streams.insert(at, stream);
        proof {
            assert(self@.streams =~= before.streams.insert(at as int, fresh));
            lemma_streams_bytes_insert(before.streams, at as int, fresh);
            assert(groups_bytes(fresh.groups) == 0);
            let after = self@;
            assert forall|i: int| 0 <= i < after.streams.len() implies (
            #[trigger] after.streams[i]).wf() by {
                if i < at {
                    assert(after.streams[i] == before.streams[i]);
                } else if i > at {
                    assert(after.streams[i] == before.streams[i - 1]);
                }
            }
            assert forall|i: int, j: int| 0 <= i < j < after.streams.len() implies (
            #[trigger] after.streams[i]).stream_id < (#[trigger] after.streams[j]).stream_id by {
                if i < at {
                    assert(after.streams[i] == before.streams[i]);
                } else if i > at {
                    assert(after.streams[i] == before.streams[i - 1]);
                }
                if j < at {
                    assert(after.streams[j] == before.streams[j]);
                } else if j > at {
                    assert(after.streams[j] == before.streams[j - 1]);
                }
            }
        }
        Ok(())
    }

    /// Number of streams that one publisher owns.
    fn streams_of(&self, publisher_id: &[u8; 32]) -> (count: u64)
        ensures
            count == publisher_streams(self@.streams, *publisher_id),
            count <= self@.streams.len(),
    {
        let mut count: u64 = 0;
        let mut i: usize = 0;
        let ghost all = self@.streams;
        while i < self.streams.len()
            invariant
                all == self@.streams,
                i <= self.streams@.len(),
                count <= i,
                count == publisher_streams(all.take(i as int), *publisher_id),
            decreases self.streams@.len() - i,
        {
            assert(all[i as int] == self.streams@[i as int]@);
            assert(all.take(i + 1).drop_last() =~= all.take(i as int));
            if id_equal(&self.streams[i].publisher_id, publisher_id) {
                count = count + 1;
            }
            i += 1;
        }
        assert(all.take(all.len() as int) =~= all);
        count
    }

    /// Applies age and byte limits to the complete groups of every stream. Returns how
    /// many groups left.
    pub fn enforce_retention_at(&mut self, now_ms: i64) -> (removed: usize)
        requires
            old(self)@.wf(),
        ensures
            final(self)@.wf(),
            final(self)@ == old(self)@.after_retention(now_ms),
            removed == if total_due(old(self)@, old(self)@.streams, now_ms) > usize::MAX {
                usize::MAX as nat
            } else {
                total_due(old(self)@, old(self)@.streams, now_ms)
            },
    {
        let ghost before = self@;
        let count: usize = self.streams.len();
        let mut removed: usize = 0;
        let mut i: usize = 0;
        while i < count
            invariant
                i <= count,
                count == before.streams.len(),
                self@.wf(),
                self@ == (StoreModel { streams: self@.streams, ..before }),
                self@.streams.len() == count,
                forall|k: int|
                    0 <= k < i ==> (#[trigger] self@.streams[k]) == before.pruned(
                        before.streams[k],
                        now_ms,
                    ),
                forall|k: int|
                    i <= k < count ==> (#[trigger] self@.streams[k]) == before.streams[k],
                removed == if total_due(before, before.streams.take(i as int), now_ms)
                    > usize::MAX {
                    usize::MAX as nat
                } else {
                    total_due(before, before.streams.take(i as int), now_ms)
                },
            decreases count - i,
        {
            assert(before.streams.take(i + 1).drop_last() =~= before.streams.take(i as int));
            let here: usize = self.enforce_retention(i, now_ms);
            removed = removed.saturating_add(here);
            i += 1;
        }
        proof {
            assert(before.streams.take(count as int) =~= before.streams);
            assert(self@.streams =~= before.streams.map_values(
                |stream: StreamModel| before.pruned(stream, now_ms),
            ));
        }
        removed
    }

    /// One object by its exact sequence. A stream that the store does not have holds no
    /// objects.
    pub fn get_object(&self, stream_id: u128, sequence: u64) -> (result: Result<
        Option<NativeObject>,
        StoreError,
    >)
        requires
            self@.wf(),
        ensures
            match self@.stream(stream_id) {
                None => result matches Ok(None),
                Some(stream) => if sequence > MAX_DURABLE {
                    result matches Err(StoreError::BeyondDurableBound)
                } else {
                    match stream.object_at(sequence) {
                        None => result matches Ok(None),
                        Some(object) => result matches Ok(Some(found)) && found@ == delivered(
                            object,
                            stream.publisher,
                        ),
                    }
                },
            },
    {
        let index: usize = match self.position(stream_id) {
            Some(index) => index,
            None => {
                return Ok(None);
            },
        };
        assert(self@.streams[index as int] == self.streams@[index as int]@);
        if sequence > MAX_DURABLE {
            return Err(StoreError::BeyondDurableBound);
        }
        match self.streams[index].object_position(sequence) {
            Some((group, at)) => Ok(
                Some(
                    deliver(
                        &self.streams[index].groups[group].objects[at],
                        &self.streams[index].publisher,
                    ),
                ),
            ),
            None => Ok(None),
        }
    }

    /// Objects after an exclusive sequence, in ascending order and without gaps.
    pub fn list_objects(&self, stream_id: u128, after_sequence: u64, limit: usize) -> (result:
        Result<Vec<NativeObject>, StoreError>)
        requires
            self@.wf(),
        ensures
            if limit == 0 || limit > MAX_LIST_OBJECTS {
                result matches Err(StoreError::InvalidRequest)
            } else {
                match self@.stream(stream_id) {
                    None => result matches Err(StoreError::UnknownStream),
                    Some(stream) => if after_sequence > MAX_DURABLE {
                        result matches Err(StoreError::BeyondDurableBound)
                    } else {
                        &&& result matches Ok(listed)
                        &&& listed@.len() == listing_count(stream, after_sequence, limit)
                        &&& forall|k: int|
                            0 <= k < listed@.len() ==> {
                                let sequence = (listing_start(stream, after_sequence) + k) as u64;
                                &&& stream.object_at(sequence) is Some
                                &&& (#[trigger] listed@[k])@ == delivered(
                                    stream.object_at(sequence)->0,
                                    stream.publisher,
                                )
                                &&& listed@[k].header.sequence == listing_start(
                                    stream,
                                    after_sequence,
                                ) + k
                            }
                    },
                }
            },
    {
        if limit == 0 || limit > MAX_LIST_OBJECTS {
            return Err(StoreError::InvalidRequest);
        }
        let index: usize = match self.position(stream_id) {
            Some(index) => index,
            None => {
                return Err(StoreError::UnknownStream);
            },
        };
        let ghost stream = self@.streams[index as int];
        assert(stream == self.streams@[index as int]@);
        assert(stream.wf());
        if after_sequence > MAX_DURABLE {
            return Err(StoreError::BeyondDurableBound);
        }
        let source = &self.streams[index];
        let mut listed: Vec<NativeObject> = Vec::new();
        if source.groups.len() == 0 {
            return Ok(listed);
        }
        assert(stream.groups[0] == source.groups@[0]@);
        let start: u64 = if after_sequence < source.groups[0].first_sequence {
            source.groups[0].first_sequence
        } else {
            after_sequence + 1
        };
        let mut sequence: u64 = start;
        while listed.len() < limit && sequence <= source.high_water
            invariant
                source@ == stream,
                stream.wf(),
                stream.groups.len() > 0,
                start == listing_start(stream, after_sequence),
                stream.groups[0].first_sequence <= start,
                start <= sequence <= MAX_DURABLE + 1,
                start < sequence ==> sequence <= stream.high_water + 1,
                sequence == start + listed@.len(),
                listed@.len() <= limit,
                forall|k: int|
                    0 <= k < listed@.len() ==> {
                        &&& stream.object_at((start + k) as u64) is Some
                        &&& (#[trigger] listed@[k])@ == delivered(
                            stream.object_at((start + k) as u64)->0,
                            stream.publisher,
                        )
                        &&& listed@[k].header.sequence == start + k
                    },
            decreases limit - listed.len(),
        {
            proof {
                lemma_retained_run(stream, sequence);
            }
            match source.object_position(sequence) {
                Some((group, at)) => {
                    listed.push(deliver(&source.groups[group].objects[at], &source.publisher));
                },
                None => {
                    assert(false);
                },
            }
            sequence = sequence + 1;
        }
        Ok(listed)
    }

    /// One viewer's envelopes for retained groups, newest first.
    pub fn list_envelopes(&self, stream_id: u128, recipient_id: [u8; 32], limit: usize) -> (result:
        Result<Vec<KeyEnvelope>, StoreError>)
        requires
            self@.wf(),
        ensures
            if is_zero(recipient_id) || limit == 0 || limit > MAX_LIST_OBJECTS {
                result matches Err(StoreError::InvalidRequest)
            } else {
                match self@.stream(stream_id) {
                    None => result matches Err(StoreError::UnknownStream),
                    Some(stream) => {
                        let all = envelopes_for(stream.groups, recipient_id);
                        &&& result matches Ok(listed)
                        &&& listed@.len() == if all.len() < limit {
                            all.len()
                        } else {
                            limit as nat
                        }
                        &&& forall|k: int|
                            0 <= k < listed@.len() ==> (#[trigger] listed@[k])@
                                == delivered_envelope(all[k], stream.publisher)
                    },
                }
            },
    {
        if id_is_zero(&recipient_id) || limit == 0 || limit > MAX_LIST_OBJECTS {
            return Err(StoreError::InvalidRequest);
        }
        let index: usize = match self.position(stream_id) {
            Some(index) => index,
            None => {
                return Err(StoreError::UnknownStream);
            },
        };
        let ghost stream = self@.streams[index as int];
        assert(stream == self.streams@[index as int]@);
        assert(stream.wf());
        let source = &self.streams[index];
        let ghost all = envelopes_for(stream.groups, recipient_id);
        let mut listed: Vec<KeyEnvelope> = Vec::new();
        let mut i: usize = source.groups.len();
        assert(stream.groups.take(i as int) =~= stream.groups);
        while i > 0 && listed.len() < limit
            invariant
                source@ == stream,
                stream.wf(),
                i <= stream.groups.len(),
                all == envelopes_for(stream.groups, recipient_id),
                listed@.len() <= limit,
                all.len() == listed@.len() + envelopes_for(
                    stream.groups.take(i as int),
                    recipient_id,
                ).len(),
                all.skip(listed@.len() as int) == envelopes_for(
                    stream.groups.take(i as int),
                    recipient_id,
                ),
                forall|k: int|
                    0 <= k < listed@.len() ==> (#[trigger] listed@[k])@ == delivered_envelope(
                        all[k],
                        stream.publisher,
                    ),
            decreases i,
        {
            let ghost rest = envelopes_for(stream.groups.take(i as int), recipient_id);
            i -= 1;
            proof {
                assert(stream.groups[i as int] == source.groups@[i as int]@);
                assert(stream.groups[i as int].wf());
                assert(stream.groups.take(i + 1).drop_last() =~= stream.groups.take(i as int));
                assert(stream.groups.take(i + 1).last() == stream.groups[i as int]);
            }
            if let Some(at) = source.groups[i].envelope_position(&recipient_id) {
                let ghost count = listed@.len() as int;
                let ghost older = envelopes_for(stream.groups.take(i as int), recipient_id);
                let stored = &source.groups[i].envelopes[at];
                assert(rest == seq![stored@] + older);
                assert(all[count] == all.skip(count)[0]);
                assert(all[count] == stored@);
                listed.push(deliver_envelope(stored, &source.publisher));
                assert(all.skip(count + 1) =~= all.skip(count).skip(1));
                assert(rest.skip(1) =~= older);
            }
        }
        Ok(listed)
    }

    /// One viewer's envelope for an exact retained key group.
    pub fn get_envelope(
        &self,
        stream_id: u128,
        epoch_id: u128,
        key_group: u64,
        recipient_id: [u8; 32],
    ) -> (result: Result<Option<KeyEnvelope>, StoreError>)
        requires
            self@.wf(),
        ensures
            match self@.envelope_lookup(stream_id, epoch_id, key_group, recipient_id) {
                Ok(Some(envelope)) => result matches Ok(Some(given)) && given@ == envelope,
                Ok(None) => result matches Ok(None),
                Err(refusal) => result matches Err(error) && error == refusal,
            },
    {
        if stream_id == 0 || epoch_id == 0 || key_group == 0 || id_is_zero(&recipient_id) {
            return Err(StoreError::InvalidRequest);
        }
        let index: usize = match self.position(stream_id) {
            Some(index) => index,
            None => {
                return Err(StoreError::UnknownStream);
            },
        };
        let ghost stream = self@.streams[index as int];
        assert(stream == self.streams@[index as int]@);
        assert(stream.wf());
        if key_group > MAX_DURABLE {
            return Err(StoreError::BeyondDurableBound);
        }
        let source = &self.streams[index];
        match source.group_position(epoch_id, key_group) {
            Some(group) => {
                assert(stream.groups[group as int] == source.groups@[group as int]@);
                assert(stream.groups[group as int].wf());
                match source.groups[group].envelope_position(&recipient_id) {
                    Some(at) => Ok(
                        Some(
                            deliver_envelope(
                                &source.groups[group].envelopes[at],
                                &source.publisher,
                            ),
                        ),
                    ),
                    None => Ok(None),
                }
            },
            None => Ok(None),
        }
    }

    /// A stream's verified descriptor, if the store has it.
    pub fn descriptor(&self, stream_id: u128) -> (result: Option<StreamDescriptor>)
        requires
            self@.wf(),
        ensures
            match self@.stream(stream_id) {
                Some(stream) => {
                    &&& result matches Some(descriptor)
                    &&& descriptor.stream_id == stream_id
                    &&& descriptor.publisher == stream.publisher
                    &&& descriptor.encoded@ == stream.descriptor
                    &&& descriptor.valid
                },
                None => result is None,
            },
    {
        match self.position(stream_id) {
            Some(index) => {
                assert(self@.streams[index as int] == self.streams@[index as int]@);
                Some(
                    StreamDescriptor {
                        stream_id,
                        publisher: self.streams[index].publisher,
                        encoded: self.streams[index].descriptor.clone(),
                        valid: true,
                    },
                )
            },
            None => None,
        }
    }

    /// The highest sequence ever committed for a stream, if the store has it.
    pub fn high_water(&self, stream_id: u128) -> (result: Option<u64>)
        requires
            self@.wf(),
        ensures
            result == match self@.stream(stream_id) {
                Some(stream) => Some(stream.high_water),
                None => None,
            },
    {
        match self.position(stream_id) {
            Some(index) => {
                assert(self@.streams[index as int] == self.streams@[index as int]@);
                Some(self.streams[index].high_water)
            },
            None => None,
        }
    }

    /// Closes the active group when its publisher session ends, which makes it eligible
    /// for retained-history bounds and eviction.
    pub fn finalize_stream(&mut self, stream_id: u128) -> (result: Result<(), StoreError>)
        requires
            old(self)@.wf(),
        ensures
            final(self)@.wf(),
            final(self)@ == old(self)@.after_finalize(stream_id),
            result == match old(self)@.find(stream_id) {
                Some(_) => Ok::<(), StoreError>(()),
                None => Err::<(), StoreError>(StoreError::UnknownStream),
            },
    {
        let ghost before = self@;
        match self.position(stream_id) {
            Some(index) => {
                let ghost stream = before.streams[index as int];
                assert(stream == self.streams@[index as int]@);
                self.streams[index].complete_active();
                proof {
                    lemma_completed_groups_wf(stream);
                    lemma_with_stream_wf(before, index as int, stream.finalized());
                    assert(self@.streams =~= before.streams.update(
                        index as int,
                        stream.finalized(),
                    ));
                }
                Ok(())
            },
            None => Err(StoreError::UnknownStream),
        }
    }

    /// The range of a stream's complete retained groups, if it has any.
    pub fn retained_bounds(&self, stream_id: u128) -> (result: Option<NativeRetainedBounds>)
        requires
            self@.wf(),
        ensures
            result == match self@.stream(stream_id) {
                Some(stream) => bounds_of(stream),
                None => None,
            },
    {
        match self.position(stream_id) {
            Some(index) => {
                assert(self@.streams[index as int] == self.streams@[index as int]@);
                self.streams[index].bounds()
            },
            None => None,
        }
    }

    /// Resolves a subscription request to a keyframe-group sequence boundary.
    ///
    /// Live starts after the current high-water mark. Explicit sequence and time starts
    /// select the containing or immediately preceding group, falling back to the oldest
    /// complete retained group. Without a retained group the result is the next live
    /// sequence.
    pub fn subscription_anchor(&self, stream_id: u128, start: SubscriptionStart) -> (result: Result<
        u64,
        StoreError,
    >)
        requires
            self@.wf(),
        ensures
            result == match self@.stream(stream_id) {
                None => Err::<u64, StoreError>(StoreError::UnknownStream),
                Some(stream) => if start_is_durable(start) {
                    Ok::<u64, StoreError>(anchor_of(stream, start))
                } else {
                    Err::<u64, StoreError>(StoreError::BeyondDurableBound)
                },
            },
    {
        let index: usize = match self.position(stream_id) {
            Some(index) => index,
            None => {
                return Err(StoreError::UnknownStream);
            },
        };
        let ghost stream = self@.streams[index as int];
        assert(stream == self.streams@[index as int]@);
        assert(stream.wf());
        let source = &self.streams[index];
        let next_live: u64 = source.high_water + 1;
        let containing: Option<usize> = match start {
            SubscriptionStart::Live => {
                return Ok(next_live);
            },
            SubscriptionStart::OldestRetained => None,
            SubscriptionStart::Sequence(sequence) => {
                if sequence > MAX_DURABLE {
                    return Err(StoreError::BeyondDurableBound);
                }
                source.group_before_sequence(sequence)
            },
            SubscriptionStart::Timestamp(timestamp) => {
                if timestamp > MAX_DURABLE {
                    return Err(StoreError::BeyondDurableBound);
                }
                source.group_before_timestamp(timestamp)
            },
        };
        match containing {
            Some(group) => {
                assert(stream.groups[group as int] == source.groups@[group as int]@);
                Ok(source.groups[group].first_sequence)
            },
            None => {
                if source.complete_groups() > 0 {
                    assert(stream.groups[0] == source.groups@[0]@);
                    Ok(source.groups[0].first_sequence)
                } else {
                    Ok(next_live)
                }
            },
        }
    }

    /// Where a viewer that joins live starts: at the start of the group that is being
    /// published, so that it can decode at once, or after the high-water mark when no
    /// group is.
    pub fn live_anchor(&self, stream_id: u128) -> (result: Result<u64, StoreError>)
        requires
            self@.wf(),
        ensures
            result == match self@.stream(stream_id) {
                None => Err::<u64, StoreError>(StoreError::UnknownStream),
                Some(stream) => Ok::<u64, StoreError>(live_anchor_of(stream)),
            },
    {
        match self.position(stream_id) {
            Some(index) => {
                let ghost stream = self@.streams[index as int];
                assert(stream == self.streams@[index as int]@);
                assert(stream.wf());
                let source = &self.streams[index];
                if source.active.is_some() {
                    let last: usize = source.groups.len() - 1;
                    assert(stream.groups[last as int] == source.groups@[last as int]@);
                    Ok(source.groups[last].first_sequence)
                } else {
                    Ok(source.high_water + 1)
                }
            },
            None => Err(StoreError::UnknownStream),
        }
    }

    /// Summaries of every stream, in the order of stream identifiers.
    pub fn summaries(&self) -> (result: Vec<(u128, NativeStreamSummary)>)
        requires
            self@.wf(),
        ensures
            result@.len() == self@.streams.len(),
            forall|i: int|
                0 <= i < result@.len() ==> (#[trigger] result@[i]) == (
                    self@.streams[i].stream_id,
                    summary_of(self@.streams[i]),
                ),
    {
        let mut result: Vec<(u128, NativeStreamSummary)> = Vec::new();
        let mut i: usize = 0;
        while i < self.streams.len()
            invariant
                self@.wf(),
                i <= self.streams@.len(),
                result@.len() == i,
                forall|k: int|
                    0 <= k < i ==> (#[trigger] result@[k]) == (
                        self@.streams[k].stream_id,
                        summary_of(self@.streams[k]),
                    ),
            decreases self.streams@.len() - i,
        {
            assert(self@.streams[i as int] == self.streams@[i as int]@);
            proof {
                lemma_streams_bytes_member(self@.streams, i as int);
            }
            let stream = &self.streams[i];
            result.push(
                (
                    stream.stream_id,
                    NativeStreamSummary {
                        publisher_id: stream.publisher_id,
                        high_water: stream.high_water,
                        retained_bytes: bytes_of_groups(&stream.groups),
                        retained: stream.bounds(),
                    },
                ),
            );
            i += 1;
        }
        result
    }
}

/// A stored object as it is handed out.
fn deliver(object: &StoredObject, publisher: &IdentityPublic) -> (given: NativeObject)
    ensures
        given@ == delivered(object@, *publisher),
{
    NativeObject {
        header: object.header,
        encoded: object.encoded.clone(),
        shape_valid: true,
        signer: Some(*publisher),
    }
}

/// A stored envelope as it is handed out.
fn deliver_envelope(envelope: &StoredEnvelope, publisher: &IdentityPublic) -> (given: KeyEnvelope)
    ensures
        given@ == delivered_envelope(envelope@, *publisher),
{
    KeyEnvelope {
        header: envelope.header,
        encoded: envelope.encoded.clone(),
        shape_valid: true,
        signer: Some(*publisher),
    }
}

/// The bound of a subscription request fits a database integer.
pub open spec fn start_is_durable(start: SubscriptionStart) -> bool {
    match start {
        SubscriptionStart::Sequence(sequence) => sequence <= MAX_DURABLE,
        SubscriptionStart::Timestamp(timestamp) => timestamp <= MAX_DURABLE,
        _ => true,
    }
}

/// Groups that retention evicts from a run of streams at a time.
pub open spec fn total_due(store: StoreModel, streams: Seq<StreamModel>, now_ms: i64) -> nat
    decreases streams.len(),
{
    if streams.len() == 0 {
        0
    } else {
        total_due(store, streams.drop_last(), now_ms) + store.due_groups(streams.last(), now_ms)
    }
}

/// Configured retention bounds are not zero.
pub open spec fn retention_is_positive(bytes: Option<u64>, age: Option<Duration>) -> bool {
    bytes != Some(0u64) && (age matches Some(duration) ==> duration_nanos(duration) > 0)
}

/// The age bound in milliseconds.
pub open spec fn age_limit(age: Option<Duration>) -> Option<i64> {
    match age {
        Some(duration) => Some(bounded_millis(duration)),
        None => None,
    }
}

/// A stream is found where it stands.
pub proof fn lemma_find(store: StoreModel, stream_id: u128, index: int)
    requires
        store.wf(),
        0 <= index < store.streams.len(),
        store.streams[index].stream_id == stream_id,
    ensures
        store.find(stream_id) == Some(index),
        store.stream(stream_id) == Some(store.streams[index]),
{
    let found = choose|i: int|
        0 <= i < store.streams.len() && (#[trigger] store.streams[i]).stream_id == stream_id;
    assert(store.streams[found].stream_id == stream_id);
    if found < index {
        assert(store.streams[found].stream_id < store.streams[index].stream_id);
    }
    if index < found {
        assert(store.streams[index].stream_id < store.streams[found].stream_id);
    }
}

} // verus!

//! What the relay store holds, as mathematical values, and what each operation makes
//! of it.
//!
//! A stream is a run of keyframe groups without gaps. Objects and envelopes belong to
//! their group and leave with it.

use vstd::prelude::*;

use crate::bytes::is_zero;
use crate::records::{
    IdentityPublic, KeyEnvelopeHeader, NativeObjectHeader, NativeObjectKind, SubscriptionStart,
};

verus! {

/// Largest integer that a database row holds.
pub const MAX_DURABLE: u64 = 0x7fff_ffff_ffff_ffff;

/// Largest number of records that one listing returns.
pub const MAX_LIST_OBJECTS: usize = 16_384;

/// Why the store refused an operation.
#[derive(Clone, Copy, Debug, PartialEq, Eq, Structural)]
pub enum StoreError {
    /// A configured retention bound is zero.
    RetentionNotPositive,
    /// The hard limits are zero or contradict one another.
    LimitsInconsistent,
    /// The descriptor does not encode or its signature is invalid.
    DescriptorInvalid,
    /// The publisher's identity has no fingerprint.
    PublisherUnidentified,
    /// The stream already belongs to another publisher.
    StreamOwnedByAnother,
    /// No further stream fits.
    StreamLimitReached,
    /// The record breaks the structural rules of its kind.
    Malformed,
    /// The stream has no descriptor.
    UnknownStream,
    /// The signature is not the stream publisher's.
    SignerMismatch,
    /// A number does not fit a database row.
    BeyondDurableBound,
    /// The sequence or the viewer's envelope exists with different content.
    Conflict,
    /// No sequence is left.
    SequenceExhausted,
    /// The sequence is not the next one.
    OutOfOrder {
        /// The sequence that would have been accepted.
        expected: u64,
    },
    /// The key group went back within one epoch.
    GroupRegressed,
    /// A new group does not begin at a random-access video boundary.
    NotRandomAccess,
    /// The group was closed before and cannot be opened again.
    GroupReopened,
    /// The key group number is zero.
    GroupNumberZero,
    /// The content key changed within a group.
    KeyChanged,
    /// The timestamp lies before the start of its group.
    TimestampBeforeGroup,
    /// The group's item or byte limit is reached.
    GroupLimitReached,
    /// The relay's or the publisher's byte quota is reached.
    QuotaReached,
    /// The envelope does not match a retained ciphertext group.
    NoMatchingGroup,
    /// A listing or lookup was asked for with arguments out of bounds.
    InvalidRequest,
}

/// Hard limits that bound what a hostile publisher can make the relay hold.
#[derive(Clone, Copy, Debug, PartialEq, Eq, Structural)]
pub struct NativeStoreLimits {
    /// Maximum descriptors retained globally.
    pub max_streams: u64,
    /// Maximum descriptors owned by one publisher identity.
    pub max_streams_per_publisher: u64,
    /// Maximum encoded objects in one keyframe group.
    pub max_objects_per_group: u64,
    /// Maximum objects plus envelopes in one keyframe group, in bytes.
    pub max_group_bytes: u64,
    /// Maximum viewer envelopes in one keyframe group.
    pub max_envelopes_per_group: u64,
    /// Maximum retained bytes across the complete relay store.
    pub max_total_bytes: u64,
    /// Maximum retained bytes owned by one publisher identity.
    pub max_publisher_bytes: u64,
}

impl NativeStoreLimits {
    /// Every limit is positive, and no publisher may hold more than the relay.
    pub open spec fn consistent(self) -> bool {
        &&& 0 < self.max_streams_per_publisher <= self.max_streams
        &&& 0 < self.max_objects_per_group
        &&& 0 < self.max_group_bytes
        &&& 0 < self.max_envelopes_per_group
        &&& 0 < self.max_publisher_bytes <= self.max_total_bytes
    }
}

/// Result of committing one native stream object.
#[derive(Clone, Copy, Debug, PartialEq, Eq, Structural)]
pub struct NativeCommit {
    /// Inclusive sequence that is now durable.
    pub committed_through: u64,
    /// Number of complete groups evicted in the same transaction.
    pub evicted_groups: usize,
    /// Whether this call published new bytes rather than matching a retry.
    pub inserted: bool,
}

/// Complete retained range for one stream.
#[derive(Clone, Copy, Debug, PartialEq, Eq, Structural)]
pub struct NativeRetainedBounds {
    /// First retained sequence, always a group boundary.
    pub oldest_sequence: u64,
    /// Last sequence in the newest complete retained group.
    pub newest_sequence: u64,
    /// First retained timestamp in 90 kHz ticks.
    pub oldest_timestamp: u64,
    /// Last retained timestamp in 90 kHz ticks.
    pub newest_timestamp: u64,
}

/// One stream's durable high-water and retention summary.
#[derive(Clone, Copy, Debug)]
pub struct NativeStreamSummary {
    /// Publisher identity fingerprint.
    pub publisher_id: [u8; 32],
    /// Highest sequence ever committed, including evicted objects.
    pub high_water: u64,
    /// Bytes currently retained across objects and envelopes.
    pub retained_bytes: u64,
    /// Complete retained range, if any.
    pub retained: Option<NativeRetainedBounds>,
}

/// A stored object.
#[verifier::ext_equal]
pub struct ObjectModel {
    /// Signed header.
    pub header: NativeObjectHeader,
    /// Canonical encoding.
    pub encoded: Seq<u8>,
    /// Relay receive time.
    pub received_at_ms: i64,
}

/// A stored envelope.
#[verifier::ext_equal]
pub struct EnvelopeModel {
    /// Signed header.
    pub header: KeyEnvelopeHeader,
    /// Canonical encoding.
    pub encoded: Seq<u8>,
    /// Relay receive time.
    pub received_at_ms: i64,
}

/// Bytes of a run of objects.
pub open spec fn objects_bytes(objects: Seq<ObjectModel>) -> nat
    decreases objects.len(),
{
    if objects.len() == 0 {
        0
    } else {
        objects_bytes(objects.drop_last()) + objects.last().encoded.len()
    }
}

/// Bytes of a run of envelopes.
pub open spec fn envelopes_bytes(envelopes: Seq<EnvelopeModel>) -> nat
    decreases envelopes.len(),
{
    if envelopes.len() == 0 {
        0
    } else {
        envelopes_bytes(envelopes.drop_last()) + envelopes.last().encoded.len()
    }
}

/// A keyframe group: everything sealed under one content key.
#[verifier::ext_equal]
pub struct GroupModel {
    /// Publication epoch.
    pub epoch_id: u128,
    /// Key group within the epoch.
    pub key_group: u64,
    /// Identifier of the content key.
    pub key_id: u128,
    /// Sequence of the first object.
    pub first_sequence: u64,
    /// Sequence of the last object.
    pub last_sequence: u64,
    /// Timestamp of the first object.
    pub first_timestamp: u64,
    /// Timestamp of the last object.
    pub last_timestamp: u64,
    /// Receive time of the first object.
    pub received_first_ms: i64,
    /// Latest receive time of an object.
    pub received_last_ms: i64,
    /// Bytes of all objects and envelopes.
    pub retained_bytes: u64,
    /// Whether no object can follow.
    pub complete: bool,
    /// The objects, in sequence order.
    pub objects: Seq<ObjectModel>,
    /// The viewers' envelopes, in arrival order.
    pub envelopes: Seq<EnvelopeModel>,
}

impl GroupModel {
    /// The group is named by its epoch and number.
    pub open spec fn is_named(self, epoch_id: u128, key_group: u64) -> bool {
        self.epoch_id == epoch_id && self.key_group == key_group
    }

    /// Sequences run without gaps, every record carries the group's name and key, no
    /// viewer has two envelopes, and the byte count is exact.
    pub open spec fn wf(self) -> bool {
        &&& self.objects.len() >= 1
        &&& 1 <= self.first_sequence
        &&& self.last_sequence == self.first_sequence + self.objects.len() - 1
        &&& self.last_sequence <= MAX_DURABLE
        &&& 1 <= self.key_group <= MAX_DURABLE
        &&& self.first_timestamp <= self.last_timestamp <= MAX_DURABLE
        &&& self.retained_bytes == objects_bytes(self.objects) + envelopes_bytes(self.envelopes)
        &&& forall|k: int|
            0 <= k < self.objects.len() ==> (#[trigger] self.objects[k]).header.sequence
                == self.first_sequence + k && self.objects[k].header.epoch_id == self.epoch_id
                && self.objects[k].header.key_group == self.key_group
                && self.objects[k].header.key_id == self.key_id
        &&& forall|k: int|
            0 <= k < self.envelopes.len() ==> (#[trigger] self.envelopes[k]).header.epoch_id
                == self.epoch_id && self.envelopes[k].header.key_group_id == self.key_group
                && self.envelopes[k].header.key_id == self.key_id
        &&& forall|j: int, k: int|
            0 <= j < k < self.envelopes.len() ==> (
            #[trigger] self.envelopes[j]).header.recipient_id != (
            #[trigger] self.envelopes[k]).header.recipient_id
    }

    /// The group that one object opens.
    pub open spec fn opened_by(object: ObjectModel) -> GroupModel {
        GroupModel {
            epoch_id: object.header.epoch_id,
            key_group: object.header.key_group,
            key_id: object.header.key_id,
            first_sequence: object.header.sequence,
            last_sequence: object.header.sequence,
            first_timestamp: object.header.timestamp,
            last_timestamp: object.header.timestamp,
            received_first_ms: object.received_at_ms,
            received_last_ms: object.received_at_ms,
            retained_bytes: object.encoded.len() as u64,
            complete: false,
            objects: seq![object],
            envelopes: Seq::empty(),
        }
    }

    /// The group with one more object at its end.
    pub open spec fn with_object(self, object: ObjectModel) -> GroupModel {
        GroupModel {
            last_sequence: object.header.sequence,
            last_timestamp: object.header.timestamp,
            received_last_ms: if object.received_at_ms > self.received_last_ms {
                object.received_at_ms
            } else {
                self.received_last_ms
            },
            retained_bytes: (self.retained_bytes + object.encoded.len()) as u64,
            objects: self.objects.push(object),
            ..self
        }
    }

    /// The group with one more envelope.
    pub open spec fn with_envelope(self, envelope: EnvelopeModel) -> GroupModel {
        GroupModel {
            retained_bytes: (self.retained_bytes + envelope.encoded.len()) as u64,
            envelopes: self.envelopes.push(envelope),
            ..self
        }
    }

    /// The group after which no object can follow.
    pub open spec fn completed(self) -> GroupModel {
        GroupModel { complete: true, ..self }
    }

    /// The envelope of one viewer, if there is one.
    pub open spec fn envelope_of(self, recipient_id: [u8; 32]) -> Option<EnvelopeModel> {
        if exists|k: int|
            0 <= k < self.envelopes.len() && (#[trigger] self.envelopes[k]).header.recipient_id
                == recipient_id {
            let k = choose|k: int|
                0 <= k < self.envelopes.len() && (#[trigger] self.envelopes[k]).header.recipient_id
                    == recipient_id;
            Some(self.envelopes[k])
        } else {
            None
        }
    }
}

/// Bytes of a run of groups.
pub open spec fn groups_bytes(groups: Seq<GroupModel>) -> nat
    decreases groups.len(),
{
    if groups.len() == 0 {
        0
    } else {
        groups_bytes(groups.drop_last()) + groups.last().retained_bytes as nat
    }
}

/// Whether the oldest group has outlived a retention bound: the run holds more bytes
/// than allowed, or the group's last object is older than the cutoff.
pub open spec fn outlived(
    groups: Seq<GroupModel>,
    byte_limit: Option<u64>,
    cutoff_ms: Option<i64>,
) -> bool {
    ||| (byte_limit matches Some(limit) && groups_bytes(groups) > limit)
    ||| (cutoff_ms matches Some(cutoff) && groups[0].received_last_ms < cutoff)
}

/// How many groups retention evicts from the old end of a run: complete ones, for as
/// long as the oldest has outlived a bound.
pub open spec fn evict_count(
    groups: Seq<GroupModel>,
    byte_limit: Option<u64>,
    cutoff_ms: Option<i64>,
) -> nat
    decreases groups.len(),
{
    if groups.len() > 0 && groups[0].complete && outlived(groups, byte_limit, cutoff_ms) {
        1 + evict_count(groups.drop_first(), byte_limit, cutoff_ms)
    } else {
        0
    }
}

/// The receive time before which retained groups are too old.
pub open spec fn cutoff_at(age_limit_ms: Option<i64>, now_ms: i64) -> Option<i64> {
    match age_limit_ms {
        Some(age) => Some(
            if now_ms - age < i64::MIN {
                i64::MIN
            } else {
                (now_ms - age) as i64
            },
        ),
        None => None,
    }
}

/// One stream.
#[verifier::ext_equal]
pub struct StreamModel {
    /// Stream identifier.
    pub stream_id: u128,
    /// Publisher that owns the stream.
    pub publisher: IdentityPublic,
    /// The publisher's fingerprint.
    pub publisher_id: [u8; 32],
    /// Encoded descriptor.
    pub descriptor: Seq<u8>,
    /// Highest sequence ever committed.
    pub high_water: u64,
    /// Epoch and number of the group that objects are added to.
    pub active: Option<(u128, u64)>,
    /// Retained groups, oldest first.
    pub groups: Seq<GroupModel>,
}

impl StreamModel {
    /// Groups follow one another without gaps up to the high-water mark, no two share a
    /// name, and only the last can be open: it is then the active one.
    pub open spec fn wf(self) -> bool {
        &&& self.publisher.fingerprint == Some(self.publisher_id)
        &&& self.high_water <= MAX_DURABLE
        &&& forall|i: int| 0 <= i < self.groups.len() ==> (#[trigger] self.groups[i]).wf()
        &&& forall|i: int, j: int|
            0 <= i < j < self.groups.len() ==> (#[trigger] self.groups[i]).last_sequence < (
            #[trigger] self.groups[j]).first_sequence
        &&& forall|i: int, j: int|
            0 <= i && j == i + 1 && j < self.groups.len() ==> (
            #[trigger] self.groups[i]).last_sequence + 1 == (
            #[trigger] self.groups[j]).first_sequence
        &&& forall|i: int, j: int|
            0 <= i < j < self.groups.len() ==> !(#[trigger] self.groups[i]).is_named(
                (#[trigger] self.groups[j]).epoch_id,
                self.groups[j].key_group,
            )
        &&& self.groups.len() > 0 ==> self.groups.last().last_sequence == self.high_water
        &&& forall|i: int|
            0 <= i < self.groups.len() - 1 ==> (#[trigger] self.groups[i]).complete
        &&& match self.active {
            Some((epoch_id, key_group)) => self.groups.len() > 0 && !self.groups.last().complete
                && self.groups.last().is_named(epoch_id, key_group),
            None => self.groups.len() > 0 ==> self.groups.last().complete,
        }
    }

    /// Position of the retained group with a name, if there is one.
    pub open spec fn group_index(self, epoch_id: u128, key_group: u64) -> Option<int> {
        if exists|i: int|
            0 <= i < self.groups.len() && (#[trigger] self.groups[i]).is_named(
                epoch_id,
                key_group,
            ) {
            Some(
                choose|i: int|
                    0 <= i < self.groups.len() && (#[trigger] self.groups[i]).is_named(
                        epoch_id,
                        key_group,
                    ),
            )
        } else {
            None
        }
    }

    /// Whether a sequence lies in a retained group.
    pub open spec fn retains(self, sequence: u64) -> bool {
        exists|i: int|
            0 <= i < self.groups.len() && (#[trigger] self.groups[i]).first_sequence <= sequence
                <= self.groups[i].last_sequence
    }

    /// The retained object with a sequence.
    pub open spec fn object_at(self, sequence: u64) -> Option<ObjectModel> {
        if self.retains(sequence) {
            let i = choose|i: int|
                0 <= i < self.groups.len() && (#[trigger] self.groups[i]).first_sequence
                    <= sequence <= self.groups[i].last_sequence;
            Some(self.groups[i].objects[sequence - self.groups[i].first_sequence])
        } else {
            None
        }
    }

    /// Every retained object, in sequence order.
    pub open spec fn objects(self) -> Seq<ObjectModel> {
        objects_of(self.groups)
    }

    /// Whether an object goes into the active group rather than opening a new one.
    pub open spec fn continues_group(self, header: NativeObjectHeader) -> bool {
        self.active == Some((header.epoch_id, header.key_group))
    }

    /// The groups once the active one is complete.
    pub open spec fn completed_groups(self) -> Seq<GroupModel> {
        if self.active is Some {
            self.groups.update(self.groups.len() - 1, self.groups.last().completed())
        } else {
            self.groups
        }
    }

    /// The stream with one more object, before retention.
    pub open spec fn with_object(self, object: ObjectModel) -> StreamModel {
        if self.continues_group(object.header) {
            StreamModel {
                high_water: object.header.sequence,
                groups: self.groups.update(
                    self.groups.len() - 1,
                    self.groups.last().with_object(object),
                ),
                ..self
            }
        } else {
            StreamModel {
                high_water: object.header.sequence,
                active: Some((object.header.epoch_id, object.header.key_group)),
                groups: self.completed_groups().push(GroupModel::opened_by(object)),
                ..self
            }
        }
    }

    /// The stream with one more envelope in a group, before retention.
    pub open spec fn with_envelope(self, index: int, envelope: EnvelopeModel) -> StreamModel {
        StreamModel {
            groups: self.groups.update(index, self.groups[index].with_envelope(envelope)),
            ..self
        }
    }

    /// The stream without its `count` oldest groups.
    pub open spec fn without_oldest(self, count: nat) -> StreamModel {
        StreamModel { groups: self.groups.skip(count as int), ..self }
    }

    /// The stream after its publisher has gone.
    pub open spec fn finalized(self) -> StreamModel {
        StreamModel { active: None, groups: self.completed_groups(), ..self }
    }

    /// Number of complete groups, which are the oldest ones.
    pub open spec fn complete_count(self) -> nat {
        if self.active is Some {
            (self.groups.len() - 1) as nat
        } else {
            self.groups.len()
        }
    }
}

/// Every object of a run of groups, in order.
pub open spec fn objects_of(groups: Seq<GroupModel>) -> Seq<ObjectModel>
    decreases groups.len(),
{
    if groups.len() == 0 {
        Seq::empty()
    } else {
        objects_of(groups.drop_last()) + groups.last().objects
    }
}

/// Retained bytes of a run of streams.
pub open spec fn streams_bytes(streams: Seq<StreamModel>) -> nat
    decreases streams.len(),
{
    if streams.len() == 0 {
        0
    } else {
        streams_bytes(streams.drop_last()) + groups_bytes(streams.last().groups)
    }
}

/// Retained bytes of one publisher in a run of streams.
pub open spec fn publisher_bytes(streams: Seq<StreamModel>, publisher_id: [u8; 32]) -> nat
    decreases streams.len(),
{
    if streams.len() == 0 {
        0
    } else {
        publisher_bytes(streams.drop_last(), publisher_id) + if streams.last().publisher_id
            == publisher_id {
            groups_bytes(streams.last().groups)
        } else {
            0
        }
    }
}

/// Number of streams of one publisher in a run of streams.
pub open spec fn publisher_streams(streams: Seq<StreamModel>, publisher_id: [u8; 32]) -> nat
    decreases streams.len(),
{
    if streams.len() == 0 {
        0
    } else {
        publisher_streams(streams.drop_last(), publisher_id) + if streams.last().publisher_id
            == publisher_id {
            1nat
        } else {
            0
        }
    }
}

/// The whole store.
#[verifier::ext_equal]
pub struct StoreModel {
    /// Streams in the order of their identifiers.
    pub streams: Seq<StreamModel>,
    /// Hard limits.
    pub limits: NativeStoreLimits,
    /// Retained bytes allowed per stream.
    pub retention_bytes: Option<u64>,
    /// Retained age allowed per stream, in milliseconds.
    pub retention_age_ms: Option<i64>,
}

/// A record that a publisher sent, as the store judges it.
pub struct SentObject {
    /// Signed header.
    pub header: NativeObjectHeader,
    /// Canonical encoding.
    pub encoded: Seq<u8>,
    /// Whether the structural rules are kept.
    pub shape_valid: bool,
    /// Identity under which the signature verifies.
    pub signer: Option<IdentityPublic>,
}

/// An envelope that a publisher sent, as the store judges it.
pub struct SentEnvelope {
    /// Signed header.
    pub header: KeyEnvelopeHeader,
    /// Canonical encoding.
    pub encoded: Seq<u8>,
    /// Whether the structural rules are kept.
    pub shape_valid: bool,
    /// Identity under which the signature verifies.
    pub signer: Option<IdentityPublic>,
}

/// Whether recorded streams agree with one another, as those of a store do: they are well
/// formed and in strict order, and the sum of all bytes fits a database integer.
pub open spec fn streams_agree(streams: Seq<StreamModel>) -> bool {
    &&& forall|i: int| 0 <= i < streams.len() ==> (#[trigger] streams[i]).wf()
    &&& forall|i: int, j: int|
        0 <= i < j < streams.len() ==> (#[trigger] streams[i]).stream_id < (
        #[trigger] streams[j]).stream_id
    &&& streams_bytes(streams) <= MAX_DURABLE
}

impl StoreModel {
    /// Streams are well formed and in strict order, the configuration is sound, and the
    /// sum of all bytes fits a database integer.
    pub open spec fn wf(self) -> bool {
        &&& self.limits.consistent()
        &&& self.retention_bytes != Some(0u64)
        &&& self.retention_age_ms matches Some(age) ==> age >= 0
        &&& forall|i: int| 0 <= i < self.streams.len() ==> (#[trigger] self.streams[i]).wf()
        &&& forall|i: int, j: int|
            0 <= i < j < self.streams.len() ==> (#[trigger] self.streams[i]).stream_id < (
            #[trigger] self.streams[j]).stream_id
        &&& streams_bytes(self.streams) <= MAX_DURABLE
    }

    /// Position of a stream, if the store has it.
    pub open spec fn find(self, stream_id: u128) -> Option<int> {
        if exists|i: int|
            0 <= i < self.streams.len() && (#[trigger] self.streams[i]).stream_id == stream_id {
            Some(
                choose|i: int|
                    0 <= i < self.streams.len() && (#[trigger] self.streams[i]).stream_id
                        == stream_id,
            )
        } else {
            None
        }
    }

    /// The stream with an identifier, if the store has it.
    pub open spec fn stream(self, stream_id: u128) -> Option<StreamModel> {
        match self.find(stream_id) {
            Some(i) => Some(self.streams[i]),
            None => None,
        }
    }

    /// The store with one stream replaced.
    pub open spec fn with_stream(self, index: int, stream: StreamModel) -> StoreModel {
        StoreModel { streams: self.streams.update(index, stream), ..self }
    }

    /// How many groups of a stream retention evicts at a time.
    pub open spec fn due_groups(self, stream: StreamModel, now_ms: i64) -> nat {
        evict_count(stream.groups, self.retention_bytes, cutoff_at(self.retention_age_ms, now_ms))
    }

    /// A stream after retention at a time.
    pub open spec fn pruned(self, stream: StreamModel, now_ms: i64) -> StreamModel {
        stream.without_oldest(self.due_groups(stream, now_ms))
    }

    /// Why a group cannot grow: its item count, its bytes, or a quota stands against it.
    pub open spec fn growth_refusal(
        self,
        publisher_id: [u8; 32],
        group_items: nat,
        item_limit: u64,
        group_bytes: nat,
        added: nat,
    ) -> Option<StoreError> {
        if group_items >= item_limit || group_bytes + added > self.limits.max_group_bytes {
            Some(StoreError::GroupLimitReached)
        } else if streams_bytes(self.streams) + added > self.limits.max_total_bytes
            || publisher_bytes(self.streams, publisher_id) + added
            > self.limits.max_publisher_bytes {
            Some(StoreError::QuotaReached)
        } else if streams_bytes(self.streams) + added > MAX_DURABLE {
            Some(StoreError::BeyondDurableBound)
        } else {
            None
        }
    }

    /// Why an object cannot open a new group of a stream.
    pub open spec fn opening_refusal(self, stream: StreamModel, header: NativeObjectHeader) -> Option<
        StoreError,
    > {
        if stream.active matches Some((epoch_id, key_group)) && epoch_id == header.epoch_id
            && header.key_group <= key_group {
            Some(StoreError::GroupRegressed)
        } else if header.kind == NativeObjectKind::Cursor || !header.random_access {
            Some(StoreError::NotRandomAccess)
        } else if header.timestamp > MAX_DURABLE {
            Some(StoreError::BeyondDurableBound)
        } else if header.key_group == 0 {
            Some(StoreError::GroupNumberZero)
        } else if stream.group_index(header.epoch_id, header.key_group) is Some {
            Some(StoreError::GroupReopened)
        } else {
            None
        }
    }

    /// Why a new object is refused; `None` where it is stored. The first reason counts.
    pub open spec fn object_refusal(self, object: SentObject) -> Option<StoreError> {
        let header = object.header;
        if !object.shape_valid {
            Some(StoreError::Malformed)
        } else if self.stream(header.stream_id) is None {
            Some(StoreError::UnknownStream)
        } else {
            let stream = self.stream(header.stream_id)->0;
            if object.signer != Some(stream.publisher) {
                Some(StoreError::SignerMismatch)
            } else if header.sequence > MAX_DURABLE {
                Some(StoreError::BeyondDurableBound)
            } else if let Some(existing) = stream.object_at(header.sequence) {
                if existing.encoded != object.encoded {
                    Some(StoreError::Conflict)
                } else {
                    None
                }
            } else if stream.high_water == MAX_DURABLE {
                Some(StoreError::SequenceExhausted)
            } else if header.sequence != stream.high_water + 1 {
                Some(StoreError::OutOfOrder { expected: (stream.high_water + 1) as u64 })
            } else if header.key_group > MAX_DURABLE {
                Some(StoreError::BeyondDurableBound)
            } else if stream.continues_group(header) {
                let group = stream.groups.last();
                if group.key_id != header.key_id {
                    Some(StoreError::KeyChanged)
                } else if let Some(error) = self.growth_refusal(
                    stream.publisher_id,
                    group.objects.len(),
                    self.limits.max_objects_per_group,
                    group.retained_bytes as nat,
                    object.encoded.len(),
                ) {
                    Some(error)
                } else if header.timestamp > MAX_DURABLE {
                    Some(StoreError::BeyondDurableBound)
                } else if header.timestamp < group.first_timestamp {
                    Some(StoreError::TimestampBeforeGroup)
                } else {
                    None
                }
            } else if let Some(error) = self.opening_refusal(stream, header) {
                Some(error)
            } else {
                self.growth_refusal(
                    stream.publisher_id,
                    0,
                    self.limits.max_objects_per_group,
                    0,
                    object.encoded.len(),
                )
            }
        }
    }

    /// Whether an object that is not refused matches one that is retained.
    pub open spec fn object_is_retry(self, object: SentObject) -> bool {
        self.stream(object.header.stream_id) matches Some(stream) && stream.object_at(
            object.header.sequence,
        ) is Some
    }

    /// The stream of a new object once the object is in it, before retention.
    pub open spec fn grown_by_object(self, object: SentObject, received_at_ms: i64) -> StreamModel {
        self.stream(object.header.stream_id)->0.with_object(
            ObjectModel { header: object.header, encoded: object.encoded, received_at_ms },
        )
    }

    /// The store after an object was sent: refused and repeated objects change nothing.
    pub open spec fn after_object(self, object: SentObject, received_at_ms: i64) -> StoreModel {
        if self.object_refusal(object) is Some || self.object_is_retry(object) {
            self
        } else {
            self.with_stream(
                self.find(object.header.stream_id)->0,
                self.pruned(self.grown_by_object(object, received_at_ms), received_at_ms),
            )
        }
    }

    /// What the sender of an object is told.
    pub open spec fn object_reply(self, object: SentObject, received_at_ms: i64) -> Result<
        NativeCommit,
        StoreError,
    > {
        match self.object_refusal(object) {
            Some(error) => Err(error),
            None => Ok(
                NativeCommit {
                    committed_through: object.header.sequence,
                    evicted_groups: if self.object_is_retry(object) {
                        0
                    } else {
                        self.due_groups(
                            self.grown_by_object(object, received_at_ms),
                            received_at_ms,
                        ) as usize
                    },
                    inserted: !self.object_is_retry(object),
                },
            ),
        }
    }

    /// Why an envelope is refused; `None` where it is stored. The first reason counts.
    pub open spec fn envelope_refusal(self, envelope: SentEnvelope) -> Option<StoreError> {
        let header = envelope.header;
        if !envelope.shape_valid {
            Some(StoreError::Malformed)
        } else if self.stream(header.stream_id) is None {
            Some(StoreError::UnknownStream)
        } else {
            let stream = self.stream(header.stream_id)->0;
            if envelope.signer != Some(stream.publisher) {
                Some(StoreError::SignerMismatch)
            } else if header.key_group_id > MAX_DURABLE {
                Some(StoreError::BeyondDurableBound)
            } else if stream.group_index(header.epoch_id, header.key_group_id) is None {
                Some(StoreError::NoMatchingGroup)
            } else {
                let group = stream.groups[stream.group_index(
                    header.epoch_id,
                    header.key_group_id,
                )->0];
                if group.key_id != header.key_id {
                    Some(StoreError::NoMatchingGroup)
                } else if let Some(existing) = group.envelope_of(header.recipient_id) {
                    if existing.encoded != envelope.encoded {
                        Some(StoreError::Conflict)
                    } else {
                        None
                    }
                } else {
                    self.growth_refusal(
                        stream.publisher_id,
                        group.envelopes.len(),
                        self.limits.max_envelopes_per_group,
                        group.retained_bytes as nat,
                        envelope.encoded.len(),
                    )
                }
            }
        }
    }

    /// Whether an envelope that is not refused matches one that is retained.
    pub open spec fn envelope_is_retry(self, envelope: SentEnvelope) -> bool {
        let header = envelope.header;
        self.stream(header.stream_id) matches Some(stream) && stream.group_index(
            header.epoch_id,
            header.key_group_id,
        ) matches Some(g) && stream.groups[g].envelope_of(header.recipient_id) is Some
    }

    /// The stream of a new envelope once the envelope is in it, before retention.
    pub open spec fn grown_by_envelope(
        self,
        envelope: SentEnvelope,
        received_at_ms: i64,
    ) -> StreamModel {
        let header = envelope.header;
        let stream = self.stream(header.stream_id)->0;
        stream.with_envelope(
            stream.group_index(header.epoch_id, header.key_group_id)->0,
            EnvelopeModel { header, encoded: envelope.encoded, received_at_ms },
        )
    }

    /// What sending an envelope returns: whether it is new, or why it is refused.
    pub open spec fn envelope_result(self, envelope: SentEnvelope) -> Result<bool, StoreError> {
        match self.envelope_refusal(envelope) {
            Some(error) => Err(error),
            None => Ok(!self.envelope_is_retry(envelope)),
        }
    }

    /// The store after an envelope was sent: refused and repeated envelopes change
    /// nothing.
    pub open spec fn after_envelope(self, envelope: SentEnvelope, received_at_ms: i64) -> StoreModel {
        if self.envelope_refusal(envelope) is Some || self.envelope_is_retry(envelope) {
            self
        } else {
            self.with_stream(
                self.find(envelope.header.stream_id)->0,
                self.pruned(self.grown_by_envelope(envelope, received_at_ms), received_at_ms),
            )
        }
    }

    /// The store after retention was applied to every stream.
    pub open spec fn after_retention(self, now_ms: i64) -> StoreModel {
        StoreModel {
            streams: self.streams.map_values(|stream: StreamModel| self.pruned(stream, now_ms)),
            ..self
        }
    }

    /// The store after a stream's publisher has gone.
    pub open spec fn after_finalize(self, stream_id: u128) -> StoreModel {
        match self.find(stream_id) {
            Some(index) => self.with_stream(index, self.streams[index].finalized()),
            None => self,
        }
    }

    /// Whether `after` is the store after a descriptor was sent.
    pub open spec fn describes(
        self,
        stream_id: u128,
        publisher: IdentityPublic,
        encoded: Seq<u8>,
        valid: bool,
        after: StoreModel,
    ) -> bool {
        if self.descriptor_refusal(stream_id, publisher, valid) is Some {
            after == self
        } else {
            match self.find(stream_id) {
                Some(index) => if self.streams[index].descriptor == encoded {
                    after == self
                } else {
                    after == self.with_stream(
                        index,
                        StreamModel { publisher, descriptor: encoded, ..self.streams[index] },
                    )
                },
                None => exists|p: int| #[trigger]
                    self.is_insertion_point(stream_id, p) && after == (StoreModel {
                        streams: self.streams.insert(p, fresh_stream(stream_id, publisher, encoded)),
                        ..self
                    }),
            }
        }
    }

    /// Why a descriptor is refused; `None` where it is stored. The first reason counts.
    pub open spec fn descriptor_refusal(
        self,
        stream_id: u128,
        publisher: IdentityPublic,
        valid: bool,
    ) -> Option<StoreError> {
        if !valid {
            Some(StoreError::DescriptorInvalid)
        } else if publisher.fingerprint is None {
            Some(StoreError::PublisherUnidentified)
        } else if let Some(stream) = self.stream(stream_id) {
            if Some(stream.publisher_id) != publisher.fingerprint {
                Some(StoreError::StreamOwnedByAnother)
            } else {
                None
            }
        } else if self.streams.len() >= self.limits.max_streams || publisher_streams(
            self.streams,
            publisher.fingerprint->0,
        ) >= self.limits.max_streams_per_publisher {
            Some(StoreError::StreamLimitReached)
        } else {
            None
        }
    }

    /// Where a new stream goes in the order of identifiers.
    pub open spec fn is_insertion_point(self, stream_id: u128, position: int) -> bool {
        &&& 0 <= position <= self.streams.len()
        &&& forall|i: int|
            0 <= i < position ==> (#[trigger] self.streams[i]).stream_id < stream_id
        &&& forall|i: int|
            position <= i < self.streams.len() ==> stream_id < (
            #[trigger] self.streams[i]).stream_id
    }
}

/// An object as the store hands it out: verified, under its publisher's signature.
pub open spec fn delivered(object: ObjectModel, publisher: IdentityPublic) -> SentObject {
    SentObject {
        header: object.header,
        encoded: object.encoded,
        shape_valid: true,
        signer: Some(publisher),
    }
}

/// An envelope as the store hands it out: verified, under its publisher's signature.
pub open spec fn delivered_envelope(
    envelope: EnvelopeModel,
    publisher: IdentityPublic,
) -> SentEnvelope {
    SentEnvelope {
        header: envelope.header,
        encoded: envelope.encoded,
        shape_valid: true,
        signer: Some(publisher),
    }
}

/// One viewer's envelopes in a run of groups, newest group first.
pub open spec fn envelopes_for(groups: Seq<GroupModel>, recipient_id: [u8; 32]) -> Seq<
    EnvelopeModel,
>
    decreases groups.len(),
{
    if groups.len() == 0 {
        Seq::empty()
    } else {
        let older = envelopes_for(groups.drop_last(), recipient_id);
        match groups.last().envelope_of(recipient_id) {
            Some(envelope) => seq![envelope] + older,
            None => older,
        }
    }
}

/// The first sequence that a listing after `after` begins with.
pub open spec fn listing_start(stream: StreamModel, after: u64) -> int {
    if stream.groups.len() > 0 && after < stream.groups[0].first_sequence {
        stream.groups[0].first_sequence as int
    } else {
        after + 1
    }
}

/// How many objects a listing after `after` holds.
pub open spec fn listing_count(stream: StreamModel, after: u64, limit: usize) -> int {
    let available = stream.high_water - listing_start(stream, after) + 1;
    if stream.groups.len() == 0 || available <= 0 {
        0
    } else if available < limit {
        available
    } else {
        limit as int
    }
}

impl StoreModel {
    /// What a lookup of one viewer's envelope for an exact group answers.
    pub open spec fn envelope_lookup(
        self,
        stream_id: u128,
        epoch_id: u128,
        key_group: u64,
        recipient_id: [u8; 32],
    ) -> Result<Option<SentEnvelope>, StoreError> {
        if stream_id == 0 || epoch_id == 0 || key_group == 0 || is_zero(recipient_id) {
            Err(StoreError::InvalidRequest)
        } else {
            match self.stream(stream_id) {
                None => Err(StoreError::UnknownStream),
                Some(stream) => if key_group > MAX_DURABLE {
                    Err(StoreError::BeyondDurableBound)
                } else {
                    match stream.group_index(epoch_id, key_group) {
                        None => Ok(None),
                        Some(i) => match stream.groups[i].envelope_of(recipient_id) {
                            Some(envelope) => Ok(
                                Some(delivered_envelope(envelope, stream.publisher)),
                            ),
                            None => Ok(None),
                        },
                    }
                },
            }
        }
    }
}

/// A stream that has just been described for the first time.
pub open spec fn fresh_stream(
    stream_id: u128,
    publisher: IdentityPublic,
    descriptor: Seq<u8>,
) -> StreamModel {
    StreamModel {
        stream_id,
        publisher,
        publisher_id: publisher.fingerprint->0,
        descriptor,
        high_water: 0,
        active: None,
        groups: Seq::empty(),
    }
}

/// The summary of one stream.
pub open spec fn summary_of(stream: StreamModel) -> NativeStreamSummary {
    NativeStreamSummary {
        publisher_id: stream.publisher_id,
        high_water: stream.high_water,
        retained_bytes: groups_bytes(stream.groups) as u64,
        retained: bounds_of(stream),
    }
}

/// The first sequence of the group that a subscription starts with, where a retained
/// group answers the request. The starts of the oldest complete group serve requests
/// that lie before everything retained.
pub open spec fn anchor_group(stream: StreamModel, start: SubscriptionStart) -> Option<int> {
    let containing = match start {
        SubscriptionStart::Sequence(sequence) => last_group_at(stream.groups, sequence),
        SubscriptionStart::Timestamp(timestamp) => latest_group_at(stream.groups, timestamp),
        _ => None,
    };
    if start is Live {
        None
    } else if containing is Some {
        containing
    } else if stream.complete_count() > 0 {
        Some(0int)
    } else {
        None
    }
}

/// The newest group whose first sequence is not after `sequence`.
pub open spec fn last_group_at(groups: Seq<GroupModel>, sequence: u64) -> Option<int>
    decreases groups.len(),
{
    if groups.len() == 0 {
        None
    } else if groups.last().first_sequence <= sequence {
        Some(groups.len() - 1)
    } else {
        last_group_at(groups.drop_last(), sequence)
    }
}

/// The group that starts latest among those that start at or before `timestamp`; the
/// newest of them where several start together.
pub open spec fn latest_group_at(groups: Seq<GroupModel>, timestamp: u64) -> Option<int>
    decreases groups.len(),
{
    if groups.len() == 0 {
        None
    } else {
        let earlier = latest_group_at(groups.drop_last(), timestamp);
        if groups.last().first_timestamp <= timestamp && (earlier matches Some(i)
            ==> groups[i].first_timestamp <= groups.last().first_timestamp) {
            Some(groups.len() - 1)
        } else {
            earlier
        }
    }
}

/// The least first timestamp of a run of groups, where it has one.
pub open spec fn oldest_timestamp(groups: Seq<GroupModel>) -> u64
    decreases groups.len(),
{
    if groups.len() <= 1 {
        groups[0].first_timestamp
    } else {
        let earlier = oldest_timestamp(groups.drop_last());
        if groups.last().first_timestamp < earlier {
            groups.last().first_timestamp
        } else {
            earlier
        }
    }
}

/// The greatest last timestamp of a run of groups, where it has one.
pub open spec fn newest_timestamp(groups: Seq<GroupModel>) -> u64
    decreases groups.len(),
{
    if groups.len() <= 1 {
        groups[0].last_timestamp
    } else {
        let earlier = newest_timestamp(groups.drop_last());
        if groups.last().last_timestamp > earlier {
            groups.last().last_timestamp
        } else {
            earlier
        }
    }
}

/// The range of a stream's complete groups, if it has any.
pub open spec fn bounds_of(stream: StreamModel) -> Option<NativeRetainedBounds> {
    let complete = stream.groups.take(stream.complete_count() as int);
    if complete.len() == 0 {
        None
    } else {
        Some(
            NativeRetainedBounds {
                oldest_sequence: complete[0].first_sequence,
                newest_sequence: complete.last().last_sequence,
                oldest_timestamp: oldest_timestamp(complete),
                newest_timestamp: newest_timestamp(complete),
            },
        )
    }
}

/// Where a viewer that joins live starts: at the start of the group that is being
/// published, or after the high-water mark when no group is.
pub open spec fn live_anchor_of(stream: StreamModel) -> u64 {
    if stream.active is Some {
        stream.groups.last().first_sequence
    } else {
        (stream.high_water + 1) as u64
    }
}

/// The sequence at which a subscription starts.
pub open spec fn anchor_of(stream: StreamModel, start: SubscriptionStart) -> u64 {
    match anchor_group(stream, start) {
        Some(i) => stream.groups[i].first_sequence,
        None => (stream.high_water + 1) as u64,
    }
}

} // verus!

//! The relay's ciphertext store.

use std::time::Duration;

use glacialcast::records::{
    IdentityPublic, KeyEnvelope, KeyEnvelopeHeader, NativeObject, NativeObjectHeader,
    NativeObjectKind, StreamDescriptor, SubscriptionStart,
};
use glacialcast::store::{
    NativeStore, StoredEnvelope, StoredGroup, StoredObject, StoredStream,
};
use glacialcast::store_model::{NativeRetainedBounds, NativeStoreLimits, StoreError};

fn identity(number: u8) -> IdentityPublic {
    IdentityPublic { keys: [number; 64], fingerprint: Some([number; 32]) }
}

fn descriptor(publisher: IdentityPublic, stream_id: u128) -> StreamDescriptor {
    StreamDescriptor { stream_id, publisher, encoded: vec![1, 2, 3], valid: true }
}

struct Fixture {
    publisher: IdentityPublic,
    viewer: IdentityPublic,
    stream_id: u128,
    epoch_id: u128,
    next_sequence: u64,
    next_group: u64,
}

struct Group {
    number: u64,
    key_id: u128,
}

impl Fixture {
    fn new() -> Self {
        Self {
            publisher: identity(1),
            viewer: identity(2),
            stream_id: 0x51,
            epoch_id: 0xe0,
            next_sequence: 1,
            next_group: 1,
        }
    }

    fn descriptor(&self) -> StreamDescriptor {
        descriptor(self.publisher, self.stream_id)
    }

    fn group(&mut self) -> Group {
        let number = self.next_group;
        self.next_group += 1;
        Group { number, key_id: 0x1000 + u128::from(number) }
    }

    fn media(&mut self, group: &Group, bytes: usize) -> NativeObject {
        let sequence = self.next_sequence;
        self.next_sequence += 1;
        NativeObject {
            header: NativeObjectHeader {
                stream_id: self.stream_id,
                publisher_id: self.publisher.fingerprint.unwrap(),
                epoch_id: self.epoch_id,
                key_group: group.number,
                key_id: group.key_id,
                sequence,
                timestamp: sequence * 3_000,
                kind: NativeObjectKind::Media,
                random_access: true,
            },
            encoded: vec![0x65; bytes.max(4)],
            shape_valid: true,
            signer: Some(self.publisher),
        }
    }

    fn envelope(&self, group: &Group, viewer: IdentityPublic) -> KeyEnvelope {
        KeyEnvelope {
            header: KeyEnvelopeHeader {
                stream_id: self.stream_id,
                publisher_id: self.publisher.fingerprint.unwrap(),
                recipient_id: viewer.fingerprint.unwrap(),
                epoch_id: self.epoch_id,
                key_group_id: group.number,
                key_id: group.key_id,
            },
            encoded: vec![0x4b; 60],
            shape_valid: true,
            signer: Some(self.publisher),
        }
    }
}

fn copied(streams: &[StoredStream]) -> Vec<StoredStream> {
    streams
        .iter()
        .map(|stream| StoredStream {
            stream_id: stream.stream_id,
            publisher: stream.publisher,
            publisher_id: stream.publisher_id,
            descriptor: stream.descriptor.clone(),
            high_water: stream.high_water,
            active: stream.active,
            groups: stream
                .groups
                .iter()
                .map(|group| StoredGroup {
                    epoch_id: group.epoch_id,
                    key_group: group.key_group,
                    key_id: group.key_id,
                    first_sequence: group.first_sequence,
                    last_sequence: group.last_sequence,
                    first_timestamp: group.first_timestamp,
                    last_timestamp: group.last_timestamp,
                    received_first_ms: group.received_first_ms,
                    received_last_ms: group.received_last_ms,
                    retained_bytes: group.retained_bytes,
                    complete: group.complete,
                    objects: group
                        .objects
                        .iter()
                        .map(|object| StoredObject {
                            header: object.header,
                            encoded: object.encoded.clone(),
                            received_at_ms: object.received_at_ms,
                        })
                        .collect(),
                    envelopes: group
                        .envelopes
                        .iter()
                        .map(|envelope| StoredEnvelope {
                            header: envelope.header,
                            encoded: envelope.encoded.clone(),
                            received_at_ms: envelope.received_at_ms,
                        })
                        .collect(),
                })
                .collect(),
        })
        .collect()
}

#[test]
fn store_recovers_high_water_and_idempotent_objects_after_restart() {
    let mut fixture = Fixture::new();
    let mut store = NativeStore::open(Some(10_000_000), Some(Duration::from_secs(60))).unwrap();
    store.put_descriptor(&fixture.descriptor()).unwrap();
    let group = fixture.group();
    let object = fixture.media(&group, 100);
    let commit = store.store_object(&object, 1_000).unwrap();
    assert_eq!(commit.committed_through, 1);
    assert!(commit.inserted);
    assert!(!store.store_object(&object, 1_001).unwrap().inserted);
    let rows = copied(store.streams());
    drop(store);
    assert!(NativeStore::rows_agree(&rows));

    let reopened = NativeStore::restore(
        Some(10_000_000),
        Some(Duration::from_secs(60)),
        NativeStoreLimits::default(),
        rows,
    )
    .unwrap();
    assert_eq!(reopened.high_water(fixture.stream_id), Some(1));
    let stored = reopened.get_object(fixture.stream_id, 1).unwrap().unwrap();
    assert_eq!(stored.encoded, object.encoded);
    assert_eq!(stored.header.sequence, object.header.sequence);
    assert_eq!(stored.header.timestamp, object.header.timestamp);
    assert_eq!(stored.header.key_id, object.header.key_id);
    assert!(stored.signer.unwrap().same(&fixture.publisher));
}

#[test]
fn contradicting_rows_are_told_from_recorded_ones() {
    let mut fixture = Fixture::new();
    let mut store = NativeStore::open(None, None).unwrap();
    store.put_descriptor(&fixture.descriptor()).unwrap();
    let group = fixture.group();
    store.store_object(&fixture.media(&group, 100), 1_000).unwrap();
    let mut rows = copied(store.streams());
    assert!(NativeStore::rows_agree(&rows));
    rows[0].groups[0].retained_bytes += 1;
    assert!(!NativeStore::rows_agree(&rows));
    let mut rows = copied(store.streams());
    rows[0].high_water = 2;
    assert!(!NativeStore::rows_agree(&rows));
    let mut rows = copied(store.streams());
    rows.extend(copied(store.streams()));
    assert!(!NativeStore::rows_agree(&rows));
    assert_eq!(
        NativeStore::restore(Some(0), None, NativeStoreLimits::default(), vec![]).err(),
        Some(StoreError::RetentionNotPositive)
    );
    let limits = NativeStoreLimits { max_streams: 0, ..NativeStoreLimits::default() };
    assert_eq!(
        NativeStore::restore(None, None, limits, vec![]).err(),
        Some(StoreError::LimitsInconsistent)
    );
}

#[test]
fn complete_group_retention_cascades_objects_and_envelopes_atomically() {
    let mut fixture = Fixture::new();
    let mut store = NativeStore::open(Some(900), None).unwrap();
    store.put_descriptor(&fixture.descriptor()).unwrap();

    let first_group = fixture.group();
    let first = fixture.media(&first_group, 480);
    store.store_object(&first, 1_000).unwrap();
    let envelope = fixture.envelope(&first_group, fixture.viewer);
    store.store_envelope(&envelope, 1_001).unwrap();

    let second_group = fixture.group();
    let second = fixture.media(&second_group, 480);
    let commit = store.store_object(&second, 2_000).unwrap();
    assert_eq!(commit.evicted_groups, 1);
    assert!(store.get_object(fixture.stream_id, 1).unwrap().is_none());
    assert!(store
        .list_envelopes(fixture.stream_id, fixture.viewer.fingerprint.unwrap(), 10)
        .unwrap()
        .is_empty());
    assert_eq!(store.high_water(fixture.stream_id), Some(2));
    let summaries = store.summaries();
    assert_eq!(summaries.len(), 1);
    assert_eq!(summaries[0].0, fixture.stream_id);
    assert_eq!(summaries[0].1.high_water, 2);
    assert_eq!(summaries[0].1.retained_bytes, 480);
}

#[test]
fn envelopes_require_exact_group_key_and_cannot_conflict() {
    let mut fixture = Fixture::new();
    let mut store = NativeStore::open(None, None).unwrap();
    store.put_descriptor(&fixture.descriptor()).unwrap();
    let group = fixture.group();
    let object = fixture.media(&group, 20);
    store.store_object(&object, 1_000).unwrap();
    let envelope = fixture.envelope(&group, fixture.viewer);
    assert!(store.store_envelope(&envelope, 1_001).unwrap());
    assert!(!store.store_envelope(&envelope, 1_002).unwrap());
    let stored = store
        .get_envelope(
            fixture.stream_id,
            fixture.epoch_id,
            object.header.key_group,
            fixture.viewer.fingerprint.unwrap(),
        )
        .unwrap()
        .unwrap();
    assert_eq!(stored.encoded, envelope.encoded);
    assert_eq!(stored.header.recipient_id, envelope.header.recipient_id);
    assert_eq!(stored.header.key_id, envelope.header.key_id);
    assert!(store
        .get_envelope(fixture.stream_id, fixture.epoch_id, object.header.key_group, [0x77; 32])
        .unwrap()
        .is_none());
    let mut wrong_group = fixture.envelope(&group, fixture.viewer);
    wrong_group.header.key_group_id += 1;
    assert_eq!(store.store_envelope(&wrong_group, 1_003), Err(StoreError::NoMatchingGroup));
    let mut wrong_key = fixture.envelope(&group, fixture.viewer);
    wrong_key.header.key_id += 1;
    assert_eq!(store.store_envelope(&wrong_key, 1_003), Err(StoreError::NoMatchingGroup));
    let mut other_content = fixture.envelope(&group, fixture.viewer);
    other_content.encoded[0] ^= 1;
    assert_eq!(store.store_envelope(&other_content, 1_003), Err(StoreError::Conflict));
    let kept = store
        .get_envelope(
            fixture.stream_id,
            fixture.epoch_id,
            object.header.key_group,
            fixture.viewer.fingerprint.unwrap(),
        )
        .unwrap()
        .unwrap();
    assert_eq!(kept.encoded, envelope.encoded);
    let mut other_signer = fixture.envelope(&group, fixture.viewer);
    other_signer.signer = Some(identity(9));
    assert_eq!(store.store_envelope(&other_signer, 1_003), Err(StoreError::SignerMismatch));
    let mut malformed = fixture.envelope(&group, fixture.viewer);
    malformed.shape_valid = false;
    assert_eq!(store.store_envelope(&malformed, 1_003), Err(StoreError::Malformed));
    let mut elsewhere = fixture.envelope(&group, fixture.viewer);
    elsewhere.header.stream_id += 1;
    assert_eq!(store.store_envelope(&elsewhere, 1_003), Err(StoreError::UnknownStream));
}

#[test]
fn hard_limits_reject_stream_object_envelope_and_byte_exhaustion() {
    let mut fixture = Fixture::new();
    let limits = NativeStoreLimits {
        max_streams: 2,
        max_streams_per_publisher: 1,
        max_objects_per_group: 1,
        max_envelopes_per_group: 1,
        ..NativeStoreLimits::default()
    };
    let mut store = NativeStore::open_with_limits(None, None, limits).unwrap();
    store.put_descriptor(&fixture.descriptor()).unwrap();
    assert_eq!(
        store.put_descriptor(&descriptor(fixture.publisher, 0x52)),
        Err(StoreError::StreamLimitReached)
    );
    store.put_descriptor(&descriptor(identity(3), 0x53)).unwrap();
    assert_eq!(
        store.put_descriptor(&descriptor(identity(4), 0x54)),
        Err(StoreError::StreamLimitReached)
    );

    let group = fixture.group();
    let first = fixture.media(&group, 20);
    store.store_object(&first, 1_000).unwrap();
    let second = fixture.media(&group, 20);
    assert_eq!(store.store_object(&second, 1_001), Err(StoreError::GroupLimitReached));
    assert_eq!(store.high_water(fixture.stream_id), Some(1));

    store.store_envelope(&fixture.envelope(&group, fixture.viewer), 1_002).unwrap();
    assert_eq!(
        store.store_envelope(&fixture.envelope(&group, identity(5)), 1_003),
        Err(StoreError::GroupLimitReached)
    );

    let mut byte_fixture = Fixture::new();
    let mut byte_store = NativeStore::open_with_limits(
        None,
        None,
        NativeStoreLimits {
            max_group_bytes: 1,
            max_total_bytes: 1,
            max_publisher_bytes: 1,
            ..NativeStoreLimits::default()
        },
    )
    .unwrap();
    byte_store.put_descriptor(&byte_fixture.descriptor()).unwrap();
    let byte_group = byte_fixture.group();
    let object = byte_fixture.media(&byte_group, 20);
    assert_eq!(byte_store.store_object(&object, 1_000), Err(StoreError::GroupLimitReached));
    assert_eq!(byte_store.high_water(byte_fixture.stream_id), Some(0));

    let mut quota_store = NativeStore::open_with_limits(
        None,
        None,
        NativeStoreLimits {
            max_total_bytes: 10,
            max_publisher_bytes: 10,
            ..NativeStoreLimits::default()
        },
    )
    .unwrap();
    quota_store.put_descriptor(&byte_fixture.descriptor()).unwrap();
    assert_eq!(quota_store.store_object(&object, 1_000), Err(StoreError::QuotaReached));
}

#[test]
fn periodic_age_retention_evicts_only_complete_groups() {
    let mut fixture = Fixture::new();
    let mut store = NativeStore::open(None, Some(Duration::from_secs(1))).unwrap();
    store.put_descriptor(&fixture.descriptor()).unwrap();

    let first_group = fixture.group();
    let first = fixture.media(&first_group, 20);
    store.store_object(&first, 1_000).unwrap();
    assert_eq!(store.enforce_retention_at(10_000), 0);
    assert!(store.get_object(fixture.stream_id, 1).unwrap().is_some());

    let second_group = fixture.group();
    let second = fixture.media(&second_group, 20);
    store.store_object(&second, 1_500).unwrap();
    assert_eq!(store.enforce_retention_at(3_000), 1);
    assert!(store.get_object(fixture.stream_id, 1).unwrap().is_none());
    assert!(store.get_object(fixture.stream_id, 2).unwrap().is_some());
    assert_eq!(store.high_water(fixture.stream_id), Some(2));
}

#[test]
fn disconnect_finalizes_history_and_allows_a_fresh_epoch() {
    let mut fixture = Fixture::new();
    let mut store = NativeStore::open(None, None).unwrap();
    store.put_descriptor(&fixture.descriptor()).unwrap();
    let first_group = fixture.group();
    let first = fixture.media(&first_group, 20);
    store.store_object(&first, 1_000).unwrap();
    assert!(store.retained_bounds(fixture.stream_id).is_none());
    store.finalize_stream(fixture.stream_id).unwrap();
    assert_eq!(
        store.retained_bounds(fixture.stream_id),
        Some(NativeRetainedBounds {
            oldest_sequence: 1,
            newest_sequence: 1,
            oldest_timestamp: 3_000,
            newest_timestamp: 3_000,
        })
    );

    fixture.epoch_id = 0xe1;
    fixture.next_group = 1;
    let next_group = fixture.group();
    let second = fixture.media(&next_group, 4);
    assert_eq!(second.header.sequence, 2);
    assert_eq!(second.header.timestamp, 6_000);
    store.store_object(&second, 2_000).unwrap();
    assert_eq!(store.high_water(fixture.stream_id), Some(2));
    assert_eq!(store.finalize_stream(0x99), Err(StoreError::UnknownStream));
}

#[test]
fn objects_are_refused_for_each_reason() {
    let mut fixture = Fixture::new();
    let mut store = NativeStore::open(None, None).unwrap();
    let group = fixture.group();
    let first = fixture.media(&group, 20);
    assert_eq!(store.store_object(&first, 1), Err(StoreError::UnknownStream));
    let mut invalid = fixture.descriptor();
    invalid.valid = false;
    assert_eq!(store.put_descriptor(&invalid), Err(StoreError::DescriptorInvalid));
    let mut nobody = fixture.descriptor();
    nobody.publisher.fingerprint = None;
    assert_eq!(store.put_descriptor(&nobody), Err(StoreError::PublisherUnidentified));
    store.put_descriptor(&fixture.descriptor()).unwrap();
    assert_eq!(
        store.put_descriptor(&descriptor(identity(3), fixture.stream_id)),
        Err(StoreError::StreamOwnedByAnother)
    );
    let mut renewed = fixture.descriptor();
    renewed.encoded = vec![9, 9];
    store.put_descriptor(&renewed).unwrap();
    assert_eq!(store.descriptor(fixture.stream_id).unwrap().encoded, [9, 9]);
    assert!(store.descriptor(0x99).is_none());

    let mut object = fixture.media(&group, 20);
    assert_eq!(store.store_object(&object, 1), Err(StoreError::OutOfOrder { expected: 1 }));
    object.header.sequence = 1;
    object.header.random_access = false;
    assert_eq!(store.store_object(&object, 1), Err(StoreError::NotRandomAccess));
    object.header.random_access = true;
    object.header.kind = NativeObjectKind::Cursor;
    assert_eq!(store.store_object(&object, 1), Err(StoreError::NotRandomAccess));
    object.header.kind = NativeObjectKind::Epoch;
    object.header.key_group = 0;
    assert_eq!(store.store_object(&object, 1), Err(StoreError::GroupNumberZero));
    object.header.key_group = u64::MAX;
    assert_eq!(store.store_object(&object, 1), Err(StoreError::BeyondDurableBound));
    object.header.key_group = 5;
    object.header.timestamp = u64::MAX;
    assert_eq!(store.store_object(&object, 1), Err(StoreError::BeyondDurableBound));
    object.header.timestamp = 3_000;
    object.signer = None;
    assert_eq!(store.store_object(&object, 1), Err(StoreError::SignerMismatch));
    object.signer = Some(fixture.publisher);
    object.shape_valid = false;
    assert_eq!(store.store_object(&object, 1), Err(StoreError::Malformed));
    object.shape_valid = true;
    store.store_object(&object, 1).unwrap();
    object.encoded[0] ^= 1;
    assert_eq!(store.store_object(&object, 1), Err(StoreError::Conflict));

    object.header.sequence = 2;
    object.header.key_group = 4;
    assert_eq!(store.store_object(&object, 1), Err(StoreError::GroupRegressed));
    object.header.key_group = 5;
    object.header.key_id += 1;
    assert_eq!(store.store_object(&object, 1), Err(StoreError::KeyChanged));
    object.header.key_id -= 1;
    object.header.timestamp = 2_999;
    assert_eq!(store.store_object(&object, 1), Err(StoreError::TimestampBeforeGroup));
    store.finalize_stream(fixture.stream_id).unwrap();
    object.header.timestamp = 3_000;
    assert_eq!(store.store_object(&object, 1), Err(StoreError::GroupReopened));
    object.header.sequence = u64::MAX;
    assert_eq!(store.store_object(&object, 1), Err(StoreError::BeyondDurableBound));
    assert_eq!(store.high_water(fixture.stream_id), Some(1));
}

#[test]
fn zero_retention_and_contradicting_limits_are_refused() {
    assert_eq!(NativeStore::open(Some(0), None).err(), Some(StoreError::RetentionNotPositive));
    assert_eq!(
        NativeStore::open(None, Some(Duration::ZERO)).err(),
        Some(StoreError::RetentionNotPositive)
    );
    let limits = NativeStoreLimits { max_streams: 1, ..NativeStoreLimits::default() };
    assert!(!limits.is_consistent());
    assert_eq!(
        NativeStore::open_with_limits(None, None, limits).err(),
        Some(StoreError::LimitsInconsistent)
    );
    let limits = NativeStoreLimits { max_objects_per_group: 0, ..NativeStoreLimits::default() };
    assert!(!limits.is_consistent());
    assert!(NativeStoreLimits::default().is_consistent());
}

#[test]
fn subscriptions_are_anchored_at_group_starts() {
    let mut fixture = Fixture::new();
    let mut store = NativeStore::open(None, None).unwrap();
    store.put_descriptor(&fixture.descriptor()).unwrap();
    assert_eq!(store.live_anchor(fixture.stream_id), Ok(1));
    assert_eq!(
        store.subscription_anchor(fixture.stream_id, SubscriptionStart::OldestRetained),
        Ok(1)
    );
    for _ in 0..3 {
        let group = fixture.group();
        for _ in 0..2 {
            let object = fixture.media(&group, 20);
            store.store_object(&object, 1_000).unwrap();
        }
    }
    let anchor = |start| store.subscription_anchor(fixture.stream_id, start).unwrap();
    assert_eq!(anchor(SubscriptionStart::OldestRetained), 1);
    assert_eq!(anchor(SubscriptionStart::Sequence(4)), 3);
    assert_eq!(anchor(SubscriptionStart::Timestamp(11_999)), 3);
    assert_eq!(store.live_anchor(fixture.stream_id), Ok(5));
    assert_eq!(store.live_anchor(0x99), Err(StoreError::UnknownStream));
    assert_eq!(
        store.subscription_anchor(fixture.stream_id, SubscriptionStart::Sequence(u64::MAX)),
        Err(StoreError::BeyondDurableBound)
    );
    let page = store.list_objects(fixture.stream_id, 2, 3).unwrap();
    assert_eq!(page.iter().map(|object| object.header.sequence).collect::<Vec<_>>(), [3, 4, 5]);
    assert_eq!(
        store.list_objects(fixture.stream_id, 0, 0).err(),
        Some(StoreError::InvalidRequest)
    );
    assert_eq!(
        store.list_envelopes(fixture.stream_id, [0; 32], 1).err(),
        Some(StoreError::InvalidRequest)
    );
}

#[test]
fn envelopes_live_and_leave_with_their_group() {
    let mut fixture = Fixture::new();
    let mut store = NativeStore::open(None, Some(Duration::from_secs(1))).unwrap();
    store.put_descriptor(&fixture.descriptor()).unwrap();
    let viewer_id = fixture.viewer.fingerprint.unwrap();
    let first_group = fixture.group();
    let first = fixture.media(&first_group, 20);
    store.store_object(&first, 1_000).unwrap();
    store.store_envelope(&fixture.envelope(&first_group, fixture.viewer), 1_000).unwrap();
    let more = fixture.media(&first_group, 20);
    store.store_object(&more, 1_100).unwrap();
    let kept = |store: &NativeStore, number: u64| {
        store.get_envelope(fixture.stream_id, fixture.epoch_id, number, viewer_id).unwrap()
    };
    assert!(kept(&store, 1).is_some());
    store.put_descriptor(&descriptor(fixture.publisher, fixture.stream_id)).unwrap();
    store.finalize_stream(fixture.stream_id).unwrap();
    assert!(kept(&store, 1).is_some());
    assert!(store.get_object(fixture.stream_id, 2).unwrap().is_some());
    // The group leaves with both of its objects and with its envelope.
    assert_eq!(store.enforce_retention_at(2_101), 1);
    assert!(kept(&store, 1).is_none());
    assert!(store.get_object(fixture.stream_id, 1).unwrap().is_none());
    assert!(store.get_object(fixture.stream_id, 2).unwrap().is_none());
    assert_eq!(store.high_water(fixture.stream_id), Some(2));
}

use glacialcast::digest::{fresh_epoch_id, identifier_from_digest, stable_stream_id};
use glacialcast::key_history::{
    accept_key_history, check_encoded_size, prune_key_history, replace_stream_key_history,
    KeyHistoryError, RetainedGroupKey, MAX_KEY_HISTORY_BYTES,
};
use glacialcast::publication::{
    check_acknowledgement, history_age_ms, resumed_from, ParameterSets, Publication,
    PublicationSettings, PublishError, RelayAnswer,
};
use glacialcast::records::{IdentityPublic, NativeObjectKind};
use glacialcast::service::{PublisherReply, RelayResumeStream};

#[test]
fn stable_stream_ids_are_label_and_publisher_specific() {
    let first = [1u8; 32];
    let second = [2u8; 32];
    assert_eq!(stable_stream_id(&first, "one"), stable_stream_id(&first, "one"));
    assert_ne!(stable_stream_id(&first, "one"), stable_stream_id(&first, "two"));
    assert_ne!(stable_stream_id(&first, "one"), stable_stream_id(&second, "one"));
}

#[test]
fn stream_ids_are_shaped_digests() {
    let id = stable_stream_id(&[0u8; 32], "default");
    assert_eq!((id >> 76) & 0xf, 4);
    assert_eq!((id >> 62) & 0x3, 2);
    let mut digest = [0u8; 32];
    for (index, byte) in digest.iter_mut().enumerate() {
        *byte = index as u8 * 16 + 15;
    }
    assert_eq!(
        identifier_from_digest(&digest),
        0x0f1f_2f3f_4f5f_4f7f_8f9f_afbf_cfdf_efff
    );
}

#[test]
fn epochs_are_fresh() {
    let first = fresh_epoch_id();
    assert_ne!(first, fresh_epoch_id());
    assert_eq!((first >> 76) & 0xf, 4);
    assert_eq!((first >> 62) & 0x3, 2);
}

fn group(stream_id: u128, id: u64, created_at_ms: i64, content_bytes: u64) -> RetainedGroupKey {
    RetainedGroupKey {
        stream_id,
        epoch_id: 2,
        key_group_id: id,
        key_id: [id as u8; 16],
        content_key: [id as u8; 32],
        created_at_ms,
        content_bytes,
    }
}

fn ids(groups: &[RetainedGroupKey]) -> Vec<u64> {
    groups.iter().map(|group| group.key_group_id).collect()
}

#[test]
fn key_history_is_private_and_prunes_oldest_groups_by_age_and_bytes() {
    const HISTORY_BYTES: u64 = 100 * 1024 * 1024;
    const HISTORY_AGE_MS: i64 = 24 * 60 * 60 * 1_000;
    let now = 2 * HISTORY_AGE_MS;
    let mut groups = vec![
        group(1, 1, 0, 1),
        group(1, 2, now - 1_000, HISTORY_BYTES - 1),
        group(1, 3, now, 1),
    ];
    prune_key_history(&mut groups, now, HISTORY_BYTES, HISTORY_AGE_MS);
    assert_eq!(ids(&groups), [2, 3]);
    let loaded = accept_key_history(1, groups, 0, true).unwrap();
    assert_eq!(loaded.len(), 2);
}

#[test]
fn pruning_keeps_the_newest_group_whatever_its_size() {
    let mut groups = vec![group(1, 1, 0, 5), group(1, 2, 1, 50), group(1, 3, 2, 500)];
    prune_key_history(&mut groups, 2, 10, 100);
    assert_eq!(ids(&groups), [3]);
    let mut all = vec![group(1, 1, i64::MIN, u64::MAX), group(1, 2, 0, u64::MAX)];
    prune_key_history(&mut all, i64::MAX, u64::MAX, i64::MAX);
    assert_eq!(ids(&all), [1, 2]);
    let mut old = vec![group(1, 1, 0, 1)];
    prune_key_history(&mut old, 11, 10, 10);
    assert!(old.is_empty());
    assert!(group(1, 1, 0, 1).has_published_content());
    assert!(!group(1, 1, 0, 0).has_published_content());
}

#[test]
fn pruning_keeps_the_longest_newest_run() {
    let mut groups =
        vec![group(1, 1, 0, 4), group(1, 2, 1, 3), group(1, 3, 2, 0), group(1, 4, 3, 7)];
    prune_key_history(&mut groups, 3, 10, 100);
    assert_eq!(ids(&groups), [2, 3, 4]);
}

#[test]
fn stream_history_updates_preserve_other_monitor_groups() {
    const HISTORY_BYTES: u64 = 10;
    let entry = |stream_id: u128, id: u64| RetainedGroupKey {
        epoch_id: u128::from(id),
        ..group(stream_id, id, id as i64, HISTORY_BYTES)
    };
    let groups = replace_stream_key_history(&vec![], 1, &vec![entry(1, 1)]);
    let groups = replace_stream_key_history(&groups, 2, &vec![entry(2, 2)]);
    let groups = replace_stream_key_history(&groups, 1, &vec![entry(1, 3)]);

    assert_eq!(groups.len(), 2);
    assert!(groups.iter().any(|group| group.stream_id == 2));
    assert!(groups.iter().any(|group| group.key_group_id == 3));
    assert!(!groups.iter().any(|group| group.key_group_id == 1));
    assert_eq!(ids(&groups), [3, 2]);
}

#[test]
fn stored_histories_have_one_form() {
    assert_eq!(
        accept_key_history(2, vec![], 0, true).err(),
        Some(KeyHistoryError::NotCanonical)
    );
    assert!(accept_key_history(1, vec![], 1, true).is_err());
    assert!(accept_key_history(1, vec![], 0, false).is_err());
    assert!(accept_key_history(1, vec![group(1, 1, 0, 0); 65_537], 0, true).is_err());
    assert_eq!(check_encoded_size(MAX_KEY_HISTORY_BYTES), Ok(()));
    assert_eq!(
        check_encoded_size(MAX_KEY_HISTORY_BYTES + 1),
        Err(KeyHistoryError::TooLarge)
    );
    assert_eq!(history_age_ms(86_400), 86_400_000);
    assert_eq!(history_age_ms(u64::MAX), i64::MAX);
}

fn viewer(id: u8) -> IdentityPublic {
    IdentityPublic { keys: [id; 64], fingerprint: Some([id; 32]) }
}

fn settings() -> PublicationSettings {
    PublicationSettings {
        stream_id: 7,
        epoch_id: 0,
        group_frames: 3,
        frame_duration: 90,
        history_bytes: 1_000,
        history_age_ms: 1_000,
    }
}

fn sets() -> Option<ParameterSets> {
    Some(ParameterSets { sps: vec![5], pps: vec![6, 7] })
}

#[test]
fn frames_continue_the_stream_and_open_groups_in_time() {
    let stored = vec![group(7, 1, 0, 4), group(8, 9, 0, 4)];
    let announced = PublicationSettings { epoch_id: fresh_epoch_id(), ..settings() };
    let mut publication = Publication::start(&announced, 40, vec![viewer(1)], &stored);
    assert_eq!(publication.settings.epoch_id, announced.epoch_id);
    assert_eq!(ids(&publication.history), [1]);
    for frame in 0..4u64 {
        let plan = publication.begin_frame(vec![viewer(1)]).unwrap();
        assert_eq!(plan.starts_group, frame % 3 == 0);
        assert!(plan.envelopes.is_empty());
        if plan.starts_group {
            let (epoch, config) = publication.open_group(true, &sets()).unwrap();
            assert_eq!(epoch.kind, NativeObjectKind::Epoch);
            assert_eq!(epoch.duration, 1);
            assert_eq!(config, vec![0, 0, 0, 1, 5, 0, 0, 0, 1, 6, 7]);
            publication.group_opened([1; 16], [2; 32], 10, 10);
        }
        let media = publication.next_media(plan.starts_group);
        assert_eq!(media.timestamp, frame * 90);
        assert_eq!(media.duration, 90);
        let cursor = publication.next_cursor().unwrap();
        assert_eq!(cursor.sequence, media.sequence + 1);
        publication.finish_frame(100, Some(11), 10);
    }
    assert_eq!(publication.sequence, 40 + 2 + 4 + 4);
    assert_eq!(publication.settings.epoch_id, announced.epoch_id);
    assert_eq!(publication.history.last().unwrap().epoch_id, announced.epoch_id);
    assert_eq!(publication.group_id, 2);
    assert_eq!(
        publication.history.iter().map(|group| group.content_bytes).collect::<Vec<_>>(),
        vec![4, 333, 111]
    );
}

#[test]
fn approvals_reach_the_open_group_and_revocations_end_it() {
    let mut publication = Publication::start(&settings(), 0, vec![viewer(1)], &vec![]);
    assert!(publication.begin_frame(vec![viewer(1)]).unwrap().starts_group);
    publication.finish_frame(1, None, 0);
    let plan = publication.begin_frame(vec![viewer(1), viewer(2)]).unwrap();
    assert!(!plan.starts_group);
    assert_eq!(plan.envelopes.len(), 1);
    assert_eq!(plan.envelopes[0].fingerprint, Some([2; 32]));
    publication.finish_frame(1, None, 0);
    let group_before = publication.group_id;
    let plan = publication.begin_frame(vec![viewer(2)]).unwrap();
    assert!(plan.starts_group);
    assert!(plan.envelopes.is_empty());
    assert_eq!(publication.group_id, group_before + 1);
    assert_eq!(publication.approved.len(), 1);
    let broken = IdentityPublic { keys: [3; 64], fingerprint: None };
    assert_eq!(
        publication.begin_frame(vec![broken]).err(),
        Some(PublishError::ViewerInvalid)
    );
}

#[test]
fn publications_end_on_unusable_pictures_and_numbers() {
    let mut publication = Publication::start(&settings(), u64::MAX, vec![], &vec![]);
    assert_eq!(
        publication.open_group(false, &sets()).err(),
        Some(PublishError::GroupWithoutIdr)
    );
    assert_eq!(
        publication.open_group(true, &None).err(),
        Some(PublishError::ConfigMissing)
    );
    assert_eq!(publication.next_cursor().err(), Some(PublishError::SequenceExhausted));
    assert_eq!(publication.next_media(true).sequence, u64::MAX);
}

#[test]
fn relay_answers_are_held_against_what_was_sent() {
    let states = |stream_id| {
        RelayAnswer::Reply(PublisherReply::ResumeState(vec![RelayResumeStream {
            stream_id,
            committed_through: 12,
        }]))
    };
    assert_eq!(resumed_from(&states(7), 7), Ok(12));
    assert_eq!(resumed_from(&states(8), 7), Err(PublishError::StreamOmitted));
    assert_eq!(
        resumed_from(&RelayAnswer::Reply(PublisherReply::ResumeState(vec![])), 7),
        Err(PublishError::StreamOmitted)
    );
    assert_eq!(resumed_from(&RelayAnswer::Error, 7), Err(PublishError::Refused));
    assert_eq!(
        resumed_from(&RelayAnswer::Reply(PublisherReply::Nothing), 7),
        Err(PublishError::UnexpectedReply)
    );
    let ack = |stream_id, committed_through| {
        RelayAnswer::Reply(PublisherReply::PublishAck {
            stream_id,
            committed_through,
            broadcast: true,
        })
    };
    assert_eq!(check_acknowledgement(&ack(7, 5), 7, 5), Ok(()));
    assert_eq!(
        check_acknowledgement(&ack(7, 6), 7, 5),
        Err(PublishError::UnexpectedReply)
    );
    assert_eq!(
        check_acknowledgement(&ack(8, 5), 7, 5),
        Err(PublishError::UnexpectedReply)
    );
    assert_eq!(
        check_acknowledgement(&RelayAnswer::Error, 7, 5),
        Err(PublishError::Refused)
    );
}

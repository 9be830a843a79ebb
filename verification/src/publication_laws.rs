//! What holds of publications, of the keys they keep and of the objects they may send again.
//! Each law speaks of what a call may return, or leave behind, for what it was given.

use vstd::prelude::*;

use crate::key_history::{
    accept_key_history, check_encoded_size, filed, filing, groups_of_stream, other_streams,
    prune_key_history, published_bytes, replace_stream_key_history, stream_groups,
    KeyHistoryError, RetainedGroupKey,
};
use crate::order::{in_order, sorted_items_are_in_order};
use crate::publication::{
    check_acknowledgement, history_age_ms, newly_approved, resumed_from, NewNativeObject,
    ParameterSets, Publication, PublicationSettings, PublishError, RelayAnswer,
};
use crate::records::{IdentityPublic, NativeObjectKind};
use crate::resend::{
    payload_bytes, stream_objects, unacknowledged, objects_between, object_image, DashObject,
    DashObjectModel, DashResendBuffer,
};
use crate::service::{PublisherReply, RelayResumeStream};

verus! {

/// Adds what was published under a group to a total.
pub open spec fn content_total() -> spec_fn(int, RetainedGroupKey) -> int {
    |sum: int, group: RetainedGroupKey| sum + group.content_bytes
}

/// Adds an object's payload to a total.
pub open spec fn payload_total() -> spec_fn(int, DashObjectModel) -> int {
    |sum: int, object: DashObjectModel| sum + object.payload.len()
}

proof fn lemma_content_total(groups: Seq<RetainedGroupKey>, start: int)
    ensures
        groups.fold_left(start, content_total()) == start + published_bytes(groups),
    decreases groups.len(),
{
    if groups.len() > 0 {
        groups.lemma_fold_left_alt(start, content_total());
        let rest = groups.drop_first();
        rest.lemma_fold_left_alt(start + groups[0].content_bytes, content_total());
        assert(groups.subrange(1, groups.len() as int) =~= rest);
        lemma_content_total(rest, start + groups[0].content_bytes);
    }
}

proof fn lemma_payload_total(objects: Seq<DashObjectModel>, start: int)
    ensures
        objects.fold_left(start, payload_total()) == start + payload_bytes(objects),
    decreases objects.len(),
{
    if objects.len() > 0 {
        objects.lemma_fold_left_alt(start, payload_total());
        let rest = objects.drop_first();
        let next = start + objects[0].payload.len() as int;
        rest.lemma_fold_left_alt(next, payload_total());
        assert(objects.subrange(1, objects.len() as int) =~= rest);
        lemma_payload_total(rest, next);
    }
}

/// Whether a group is young enough: no more than the given time has passed since it opened.
pub open spec fn is_young(now_ms: i64, max_age_ms: i64) -> spec_fn(RetainedGroupKey) -> bool {
    |group: RetainedGroupKey|
        group.created_at_ms + max_age_ms >= now_ms || max_age_ms == i64::MAX
}

/// Whether a group belongs to a stream.
pub open spec fn is_of(stream_id: u128) -> spec_fn(RetainedGroupKey) -> bool {
    |group: RetainedGroupKey| group.stream_id == stream_id
}

/// Whether a group belongs to another stream.
pub open spec fn is_not_of(stream_id: u128) -> spec_fn(RetainedGroupKey) -> bool {
    |group: RetainedGroupKey| group.stream_id != stream_id
}

proof fn lemma_fresh_filter(groups: Seq<RetainedGroupKey>, now_ms: i64, max_age_ms: i64)
    ensures
        crate::key_history::fresh_groups(groups, now_ms, max_age_ms) == groups.filter(
            is_young(now_ms, max_age_ms),
        ),
    decreases groups.len(),
{
    reveal(Seq::filter);
    if groups.len() > 0 {
        lemma_fresh_filter(groups.drop_last(), now_ms, max_age_ms);
    }
}

proof fn lemma_stream_filter(groups: Seq<RetainedGroupKey>, stream_id: u128)
    ensures
        stream_groups(groups, stream_id) == groups.filter(is_of(stream_id)),
        other_streams(groups, stream_id) == groups.filter(is_not_of(stream_id)),
    decreases groups.len(),
{
    reveal(Seq::filter);
    if groups.len() > 0 {
        lemma_stream_filter(groups.drop_last(), stream_id);
    }
}

/// What is left of a key history: of the groups that are young enough the newest, as many as
/// fit into the byte limit together, and the newest of all in any case. One more would not
/// fit.
pub proof fn histories_keep_their_newest_keys(
    groups: &mut Vec<RetainedGroupKey>,
    now_ms: i64,
    max_content_bytes: u64,
    max_age_ms: i64,
)
    requires
        call_ensures(prune_key_history, (groups, now_ms, max_content_bytes, max_age_ms), ()),
    ensures
        ({
            let young = old(groups)@.filter(is_young(now_ms, max_age_ms));
            let kept = final(groups)@;
            let gone = young.len() - kept.len();
            &&& gone >= 0
            &&& kept == young.skip(gone)
            &&& young.len() > 0 ==> kept.len() > 0
            &&& kept.len() > 1 ==> kept.fold_left(0int, content_total()) <= max_content_bytes
                || max_content_bytes == u64::MAX
            &&& forall|start: int|
                0 <= start < gone ==> (#[trigger] young.skip(start)).fold_left(
                    0int,
                    content_total(),
                ) > max_content_bytes
        }),
{
    let all = old(groups)@;
    let young = all.filter(is_young(now_ms, max_age_ms));
    let kept = final(groups)@;
    lemma_fresh_filter(all, now_ms, max_age_ms);
    crate::key_history::pruning_keeps_the_newest(all, now_ms, max_content_bytes, max_age_ms);
    lemma_content_total(kept, 0);
    assert forall|start: int| 0 <= start < young.len() - kept.len() implies (
    #[trigger] young.skip(start)).fold_left(0int, content_total()) > max_content_bytes by {
        lemma_content_total(young.skip(start), 0);
    }
}

/// A stream's keys are picked out of a history in their order, and nothing else is.
pub proof fn streams_pick_their_keys(
    groups: &Vec<RetainedGroupKey>,
    stream_id: u128,
    found: Vec<RetainedGroupKey>,
)
    requires
        call_ensures(groups_of_stream, (groups, stream_id), found),
    ensures
        found@ == groups@.filter(is_of(stream_id)),
{
    lemma_stream_filter(groups@, stream_id);
}

/// Whether one group is filed before another: by stream first, then by time, then by epoch
/// and last by number.
pub open spec fn precedes(a: RetainedGroupKey, b: RetainedGroupKey) -> bool {
    ||| a.stream_id < b.stream_id
    ||| a.stream_id == b.stream_id && a.created_at_ms < b.created_at_ms
    ||| a.stream_id == b.stream_id && a.created_at_ms == b.created_at_ms && a.epoch_id < b.epoch_id
    ||| a.stream_id == b.stream_id && a.created_at_ms == b.created_at_ms && a.epoch_id
        == b.epoch_id && a.key_group_id < b.key_group_id
}

/// Filing a stream's keys replaces what was stored of the stream and keeps the rest: nothing
/// is lost or doubled, and no key stands behind one that it precedes.
pub proof fn filed_keys_replace_their_stream(
    stored: &Vec<RetainedGroupKey>,
    stream_id: u128,
    replacement: &Vec<RetainedGroupKey>,
    groups: Vec<RetainedGroupKey>,
    group: RetainedGroupKey,
)
    requires
        call_ensures(replace_stream_key_history, (stored, stream_id, replacement), groups),
    ensures
        groups@.to_multiset().count(group) == replacement@.to_multiset().count(group) + if
            group.stream_id == stream_id {
            0
        } else {
            stored@.to_multiset().count(group)
        },
        forall|i: int, j: int|
            0 <= i < j < groups@.len() ==> !precedes(
                #[trigger] groups@[j],
                #[trigger] groups@[i],
            ),
{
    broadcast use vstd::seq_lib::group_to_multiset_ensures;

    let others = other_streams(stored@, stream_id);
    crate::order::sorting_keeps_every_item(others + replacement@, filing());
    vstd::seq_lib::lemma_multiset_commutative(others, replacement@);
    crate::key_history::lemma_other_streams_count(stored@, stream_id, group);
    sorted_items_are_in_order(others + replacement@, filing());
    let less = filing();
    assert(in_order(groups@, less));
    assert forall|i: int, j: int| 0 <= i < j < groups@.len() implies !precedes(
        #[trigger] groups@[j],
        #[trigger] groups@[i],
    ) by {
        assert(less(groups@[i], groups@[j]));
    }
}

/// A key history is read back only whole, unchanged, in its one version and up to 65536
/// groups, and written up to 16 MiB.
pub proof fn only_sound_histories_are_accepted(
    version: u16,
    groups: Vec<RetainedGroupKey>,
    unread: usize,
    canonical: bool,
    result: Result<Vec<RetainedGroupKey>, KeyHistoryError>,
    encoded_len: usize,
    written: Result<(), KeyHistoryError>,
)
    requires
        call_ensures(accept_key_history, (version, groups, unread, canonical), result),
        call_ensures(check_encoded_size, (encoded_len,), written),
    ensures
        result is Ok <==> version == 1 && unread == 0 && canonical && groups@.len() <= 65_536,
        result matches Ok(accepted) ==> accepted@ == groups@,
        written is Ok <==> encoded_len <= 16_777_216,
{
}

/// A publication continues a stream right behind what the relay has committed, with the
/// stored keys of that stream, at its first frame and without a group.
pub proof fn publications_continue_their_stream(
    settings: &PublicationSettings,
    committed_through: u64,
    approved: Vec<IdentityPublic>,
    stored_history: &Vec<RetainedGroupKey>,
    publication: Publication,
)
    requires
        call_ensures(
            Publication::start,
            (settings, committed_through, approved, stored_history),
            publication,
        ),
    ensures
        publication@.settings == *settings,
        publication@.sequence == committed_through,
        publication@.approved == approved@,
        publication@.history == stored_history@.filter(is_of(settings.stream_id)),
        publication@.timestamp == 0 && publication@.frame_index == 0 && publication@.group_id == 0
            && !publication@.group_open,
{
    lemma_stream_filter(stored_history@, settings.stream_id);
}

/// Whether somebody with a viewer's keys is among others.
pub open spec fn has_approval(viewer: IdentityPublic, approved: Seq<IdentityPublic>) -> bool {
    approved.map_values(|other: IdentityPublic| other.fingerprint).contains(viewer.fingerprint)
}

/// Whether a viewer is without approval among some.
pub open spec fn lacks_approval(approved: Seq<IdentityPublic>) -> spec_fn(IdentityPublic) -> bool {
    |viewer: IdentityPublic| !has_approval(viewer, approved)
}

proof fn lemma_approval(viewer: IdentityPublic, approved: Seq<IdentityPublic>)
    ensures
        has_approval(viewer, approved) == crate::publication::is_among(viewer, approved),
{
    let prints = approved.map_values(|other: IdentityPublic| other.fingerprint);
    if has_approval(viewer, approved) {
        let k = choose|k: int| 0 <= k < prints.len() && prints[k] == viewer.fingerprint;
        assert(approved[k].fingerprint == viewer.fingerprint);
    }
    if crate::publication::is_among(viewer, approved) {
        let k = choose|k: int|
            0 <= k < approved.len() && (#[trigger] approved[k]).fingerprint == viewer.fingerprint;
        assert(prints[k] == viewer.fingerprint);
    }
}

proof fn lemma_newcomers(previous: Seq<IdentityPublic>, latest: Seq<IdentityPublic>)
    ensures
        newly_approved(previous, latest) == latest.filter(lacks_approval(previous)),
    decreases latest.len(),
{
    reveal(Seq::filter);
    if latest.len() > 0 {
        lemma_newcomers(previous, latest.drop_last());
        lemma_approval(latest.last(), previous);
    }
}

/// A frame opens a key group if and only if none is open, a viewer has lost its approval, or
/// the frame's number is a multiple of the group's length. The group then has the next
/// number, so that no two groups share a key, and no key is sent ahead of it.
pub proof fn groups_open_on_time(
    publication: &mut Publication,
    latest: Vec<IdentityPublic>,
    result: Result<crate::publication::FramePlan, PublishError>,
    times: int,
)
    requires
        call_ensures(Publication::begin_frame, (publication, latest), result),
        result is Ok,
    ensures
        !old(publication)@.group_open ==> result->Ok_0.starts_group,
        (exists|i: int|
            0 <= i < old(publication)@.approved.len() && !has_approval(
                #[trigger] old(publication)@.approved[i],
                latest@,
            )) ==> result->Ok_0.starts_group,
        old(publication)@.frame_index == times * old(publication)@.settings.group_frames
            ==> result->Ok_0.starts_group,
        result->Ok_0.starts_group && old(publication)@.group_open && (forall|i: int|
            0 <= i < old(publication)@.approved.len() ==> has_approval(
                #[trigger] old(publication)@.approved[i],
                latest@,
            )) ==> exists|k: int|
            old(publication)@.frame_index == #[trigger] (k
                * old(publication)@.settings.group_frames),
        result->Ok_0.starts_group ==> final(publication)@.group_id > old(publication)@.group_id
            || old(publication)@.group_id == u64::MAX,
        result->Ok_0.starts_group ==> final(publication)@.group_id <= old(publication)@.group_id
            + 1 && result->Ok_0.envelopes@.len() == 0,
        !result->Ok_0.starts_group ==> final(publication)@.group_id == old(publication)@.group_id,
        final(publication)@.group_open,
        final(publication)@.approved == latest@,
        final(publication)@.settings == old(publication)@.settings,
        final(publication)@.history == old(publication)@.history,
        final(publication)@.sequence == old(publication)@.sequence,
        final(publication)@.timestamp == old(publication)@.timestamp,
        final(publication)@.frame_index == old(publication)@.frame_index,
{
    let before = old(publication)@;
    let index = before.frame_index as int;
    let length = before.settings.group_frames as int;
    assert forall|i: int| 0 <= i < before.approved.len() implies has_approval(
        #[trigger] before.approved[i],
        latest@,
    ) == crate::publication::is_among(before.approved[i], latest@) by {
        lemma_approval(before.approved[i], latest@);
    }
    if length == 0 {
        assert(0 * length == 0);
        assert(times * length == 0);
    } else {
        if index == times * length {
            assert(index % length == 0) by {
                vstd::arithmetic::div_mod::lemma_mod_multiples_basic(times, length);
            }
        }
        if index % length == 0 {
            vstd::arithmetic::div_mod::lemma_fundamental_div_mod(index, length);
            assert(index == (index / length) * length) by (nonlinear_arith)
                requires
                    index == length * (index / length) + index % length,
                    index % length == 0,
            ;
        }
    }
}

/// While a group stays open its key goes to exactly the viewers that are newly approved, in
/// their order. A viewer whose keys do not form an identity stops the frame, and nothing
/// changes.
pub proof fn newcomers_are_sent_the_open_key(
    publication: &mut Publication,
    latest: Vec<IdentityPublic>,
    result: Result<crate::publication::FramePlan, PublishError>,
)
    requires
        call_ensures(Publication::begin_frame, (publication, latest), result),
    ensures
        result matches Ok(plan) ==> (!plan.starts_group ==> plan.envelopes@ == latest@.filter(
            lacks_approval(old(publication)@.approved),
        )),
        result is Err <==> exists|viewer: IdentityPublic|
            (old(publication)@.approved + latest@).contains(viewer) && viewer.fingerprint is None,
        result matches Err(error) ==> error == PublishError::ViewerInvalid && final(publication)@
            == old(publication)@,
{
    lemma_newcomers(old(publication)@.approved, latest@);
    let approved = old(publication)@.approved;
    let all = approved + latest@;
    if result is Err {
        if !crate::publication::all_valid(approved) {
            let i = choose|i: int|
                0 <= i < approved.len() && (#[trigger] approved[i]).fingerprint is None;
            assert(all[i] == approved[i]);
            assert(all.contains(approved[i]));
        } else {
            let i = choose|i: int|
                0 <= i < latest@.len() && (#[trigger] latest@[i]).fingerprint is None;
            assert(all[approved.len() + i] == latest@[i]);
            assert(all.contains(latest@[i]));
        }
    } else {
        assert forall|viewer: IdentityPublic| all.contains(viewer) implies viewer.fingerprint
            is Some by {
            let i = choose|i: int| 0 <= i < all.len() && all[i] == viewer;
            if i < approved.len() {
                assert(approved[i] == viewer);
            } else {
                assert(latest@[i - approved.len()] == viewer);
            }
        }
    }
}

/// Whether a call numbers one object: the object has the number behind the last one, and
/// nothing else of the publication changes.
pub open spec fn numbers(
    before: crate::publication::PublicationModel,
    after: crate::publication::PublicationModel,
    header: NewNativeObject,
) -> bool {
    &&& before.sequence < u64::MAX ==> header.sequence == before.sequence + 1
    &&& after.sequence == header.sequence
    &&& header.timestamp == before.timestamp == after.timestamp
    &&& after.settings == before.settings
    &&& after.approved == before.approved
    &&& after.history == before.history
    &&& after.frame_index == before.frame_index
    &&& after.group_id == before.group_id
    &&& after.group_open == before.group_open
}

/// A group opens with an epoch object where decoding can start. It carries both parameter
/// sets, each behind a start code. Without a key frame or without the sets there is none.
pub proof fn groups_open_with_their_configuration(
    publication: &mut Publication,
    keyframe: bool,
    parameter_sets: &Option<ParameterSets>,
    result: Result<(NewNativeObject, Vec<u8>), PublishError>,
)
    requires
        call_ensures(Publication::open_group, (publication, keyframe, parameter_sets), result),
    ensures
        result is Ok <==> keyframe && parameter_sets is Some,
        result matches Err(error) ==> final(publication)@ == old(publication)@ && (error
            == PublishError::GroupWithoutIdr <==> !keyframe),
        result matches Ok((header, config)) ==> {
            let sps = parameter_sets->0.sps@;
            let pps = parameter_sets->0.pps@;
            &&& numbers(old(publication)@, final(publication)@, header)
            &&& header.kind == NativeObjectKind::Epoch && header.random_access
            &&& header.names_codec && header.duration == 1
            &&& config@.len() == sps.len() + pps.len() + 8
            &&& config@.take(4) == seq![0u8, 0u8, 0u8, 1u8]
            &&& config@.subrange(4, 4int + sps.len()) == sps
            &&& config@.subrange(4int + sps.len(), 8int + sps.len()) == seq![0u8, 0u8, 0u8, 1u8]
            &&& config@.skip(8int + sps.len()) == pps
        },
{
    if let Ok((header, config)) = result {
        let sps = parameter_sets->0.sps@;
        let pps = parameter_sets->0.pps@;
        assert(config@.take(4) =~= seq![0u8, 0u8, 0u8, 1u8]);
        assert(config@.subrange(4, 4int + sps.len()) =~= sps);
        assert(config@.subrange(4int + sps.len(), 8int + sps.len()) =~= seq![0u8, 0u8, 0u8, 1u8]);
        assert(config@.skip(8int + sps.len()) =~= pps);
    }
}

/// A frame's media object lasts as long as a frame; decoding can start at a key frame only.
/// Its cursor object needs a number of its own, and names no codec.
pub proof fn frames_are_numbered(
    publication: &mut Publication,
    keyframe: bool,
    media: NewNativeObject,
    other: &mut Publication,
    cursor: Result<NewNativeObject, PublishError>,
)
    requires
        call_ensures(Publication::next_media, (publication, keyframe), media),
        call_ensures(Publication::next_cursor, (other,), cursor),
    ensures
        numbers(old(publication)@, final(publication)@, media),
        media.kind == NativeObjectKind::Media && media.names_codec,
        media.random_access <==> keyframe,
        media.duration == old(publication)@.settings.frame_duration,
        cursor is Err <==> old(other)@.sequence == u64::MAX,
        cursor is Err ==> final(other)@ == old(other)@,
        cursor matches Ok(header) ==> {
            &&& numbers(old(other)@, final(other)@, header)
            &&& header.kind == NativeObjectKind::Cursor && !header.random_access
            &&& !header.names_codec && header.duration == 1
        },
{
}

/// Whether a key is the newest of a history, and whether the rest is a run of an earlier one.
pub open spec fn ends_with(history: Seq<RetainedGroupKey>, key: RetainedGroupKey) -> bool {
    history.len() > 0 && history[history.len() - 1] == key
}

/// The key of an opened group is recorded under the publication's stream and epoch and the
/// group's number, with nothing published yet. It is the newest of the history unless it is
/// already too old.
pub proof fn opened_groups_are_remembered(
    publication: &mut Publication,
    key_id: [u8; 16],
    content_key: [u8; 32],
    created_at_ms: i64,
    now_ms: i64,
)
    requires
        call_ensures(
            Publication::group_opened,
            (publication, key_id, content_key, created_at_ms, now_ms),
            (),
        ),
        created_at_ms + old(publication)@.settings.history_age_ms >= now_ms,
    ensures
        ends_with(
            final(publication)@.history,
            (RetainedGroupKey {
                stream_id: old(publication)@.settings.stream_id,
                epoch_id: old(publication)@.settings.epoch_id,
                key_group_id: old(publication)@.group_id,
                key_id,
                content_key,
                created_at_ms,
                content_bytes: 0,
            }),
        ),
        final(publication)@.sequence == old(publication)@.sequence,
        final(publication)@.timestamp == old(publication)@.timestamp,
        final(publication)@.frame_index == old(publication)@.frame_index,
        final(publication)@.group_id == old(publication)@.group_id,
        final(publication)@.group_open == old(publication)@.group_open,
        final(publication)@.approved == old(publication)@.approved,
        final(publication)@.settings == old(publication)@.settings,
{
    let before = old(publication)@;
    let record = before.group_record(key_id, content_key, created_at_ms);
    let all = before.history.push(record);
    let settings = before.settings;
    crate::key_history::pruning_keeps_the_newest(
        all,
        now_ms,
        settings.history_bytes,
        settings.history_age_ms,
    );
    assert(all.last() == record);
    assert(crate::key_history::fresh_groups(all, now_ms, settings.history_age_ms).last()
        == record);
}

/// A finished frame moves the publication on by one frame and its duration. Its bytes, those
/// of the cursor object too, are counted on the current group's key, which stays while it is
/// young enough.
pub proof fn finished_frames_move_on(
    publication: &mut Publication,
    video_bytes: u64,
    cursor_bytes: Option<u64>,
    now_ms: i64,
)
    requires
        call_ensures(
            Publication::finish_frame,
            (publication, video_bytes, cursor_bytes, now_ms),
            (),
        ),
        old(publication)@.frame_index < u64::MAX,
        old(publication)@.timestamp + old(publication)@.settings.frame_duration <= u64::MAX,
    ensures
        final(publication)@.frame_index == old(publication)@.frame_index + 1,
        final(publication)@.timestamp - old(publication)@.timestamp == old(
            publication,
        )@.settings.frame_duration,
        final(publication)@.sequence == old(publication)@.sequence,
        final(publication)@.group_id == old(publication)@.group_id,
        final(publication)@.group_open == old(publication)@.group_open,
        final(publication)@.approved == old(publication)@.approved,
        final(publication)@.settings == old(publication)@.settings,
        old(publication)@.history.len() > 0 ==> {
            let last = old(publication)@.history.last();
            let settings = old(publication)@.settings;
            let total = last.content_bytes + video_bytes + match cursor_bytes {
                Some(bytes) => bytes as int,
                None => 0,
            };
            last.stream_id == settings.stream_id && last.epoch_id == settings.epoch_id
                && last.key_group_id == old(publication)@.group_id && last.created_at_ms
                + settings.history_age_ms >= now_ms ==> ends_with(
                final(publication)@.history,
                (RetainedGroupKey {
                    content_bytes: if total <= u64::MAX {
                        total as u64
                    } else {
                        u64::MAX
                    },
                    ..last
                }),
            )
        },
{
    let before = old(publication)@;
    let settings = before.settings;
    if before.history.len() > 0 {
        let bytes = match cursor_bytes {
            Some(bytes) => crate::publication::capped(video_bytes + bytes),
            None => video_bytes,
        };
        let all = before.counted(bytes);
        crate::key_history::pruning_keeps_the_newest(
            all,
            now_ms,
            settings.history_bytes,
            settings.history_age_ms,
        );
        let last = before.history.last();
        if last.stream_id == settings.stream_id && last.epoch_id == settings.epoch_id
            && last.key_group_id == before.group_id && last.created_at_ms
            + settings.history_age_ms >= now_ms {
            assert(all.last().created_at_ms == last.created_at_ms);
            assert(crate::key_history::fresh_groups(all, now_ms, settings.history_age_ms).last()
                == all.last());
        }
    }
}

/// A publication goes on where the relay says that its stream was committed, and only if the
/// relay speaks of that stream. An object is acknowledged only by its own stream and number.
pub proof fn relays_answer_for_what_was_sent(
    answer: &RelayAnswer,
    stream_id: u128,
    resumed: Result<u64, PublishError>,
    expected: u64,
    acknowledged: Result<(), PublishError>,
)
    requires
        call_ensures(resumed_from, (answer, stream_id), resumed),
        call_ensures(check_acknowledgement, (answer, stream_id, expected), acknowledged),
    ensures
        resumed is Ok <==> (*answer matches RelayAnswer::Reply(PublisherReply::ResumeState(states))
            && states@.len() > 0 && states@[0].stream_id == stream_id),
        resumed matches Ok(through) ==> (*answer matches RelayAnswer::Reply(
            PublisherReply::ResumeState(states),
        ) && states@[0] == (RelayResumeStream { stream_id, committed_through: through })),
        acknowledged is Ok <==> (*answer matches RelayAnswer::Reply(
            PublisherReply::PublishAck { stream_id: told, committed_through, .. },
        ) && told == stream_id && committed_through == expected),
        *answer is Error ==> resumed == Err::<u64, PublishError>(PublishError::Refused)
            && acknowledged == Err::<(), PublishError>(PublishError::Refused),
{
}

/// Keys are kept for the seconds that were asked for, a thousand milliseconds each, as far as
/// the clock goes.
pub proof fn keys_are_kept_for_seconds(seconds: u64, age: i64)
    requires
        call_ensures(history_age_ms, (seconds,), age),
    ensures
        age <= seconds * 1_000,
        age == seconds * 1_000 || age == i64::MAX,
        0 <= age,
{
}

/// An object that was sent is kept with the newest before it: as many as fit into the limit
/// together, and the object itself in any case. One more would not fit.
pub proof fn sent_objects_are_kept(buffer: &mut DashResendBuffer, object: DashObject)
    requires
        call_ensures(DashResendBuffer::push, (buffer, object), ()),
    ensures
        ({
            let all = old(buffer)@.objects.push(object@);
            let kept = final(buffer)@.objects;
            let gone = all.len() - kept.len();
            &&& 0 <= gone < all.len()
            &&& kept == all.skip(gone)
            &&& kept.len() > 1 ==> kept.fold_left(0int, payload_total()) <= old(buffer)@.max_bytes
            &&& forall|start: int|
                0 <= start < gone ==> (#[trigger] all.skip(start)).fold_left(
                    0int,
                    payload_total(),
                ) > old(buffer)@.max_bytes
            &&& final(buffer)@.max_bytes == old(buffer)@.max_bytes
        }),
{
    let all = old(buffer)@.objects.push(object@);
    let kept = final(buffer)@.objects;
    crate::resend::resend_buffer_is_bounded(old(buffer)@, object@);
    lemma_payload_total(kept, 0);
    assert forall|start: int| 0 <= start < all.len() - kept.len() implies (
    #[trigger] all.skip(start)).fold_left(0int, payload_total()) > old(buffer)@.max_bytes by {
        lemma_payload_total(all.skip(start), 0);
    }
}

/// An acknowledgement lets go of the objects from the front, up to the first one that lies
/// behind it, and of nothing else.
pub proof fn acknowledged_objects_are_let_go(buffer: &mut DashResendBuffer, through: u64)
    requires
        call_ensures(DashResendBuffer::ack, (buffer, through), ()),
    ensures
        ({
            let before = old(buffer)@.objects;
            let after = final(buffer)@.objects;
            let gone = before.len() - after.len();
            &&& gone >= 0
            &&& after == before.skip(gone)
            &&& forall|i: int| 0 <= i < gone ==> (#[trigger] before[i]).header.sequence <= through
            &&& after.len() > 0 ==> after[0].header.sequence > through
            &&& final(buffer)@.max_bytes == old(buffer)@.max_bytes
        }),
{
    crate::resend::lemma_unacknowledged(old(buffer)@.objects, through);
}

/// Whether an object is of a stream.
pub open spec fn belongs_to(stream_id: u128) -> spec_fn(DashObjectModel) -> bool {
    |object: DashObjectModel| object.header.stream_id == stream_id
}

/// Whether an object lies between two sequences, both included.
pub open spec fn lies_between(from: u64, to: u64) -> spec_fn(DashObjectModel) -> bool {
    |object: DashObjectModel| from <= object.header.sequence <= to
}

proof fn lemma_object_filters(objects: Seq<DashObjectModel>, stream_id: u128, from: u64, to: u64)
    ensures
        stream_objects(objects, stream_id) == objects.filter(belongs_to(stream_id)),
        objects_between(objects, from, to) == objects.filter(lies_between(from, to)),
    decreases objects.len(),
{
    reveal(Seq::filter);
    if objects.len() > 0 {
        lemma_object_filters(objects.drop_last(), stream_id, from, to);
    }
}

/// When a stream begins, what was sent of other streams is let go of, and nothing else.
pub proof fn other_streams_are_let_go(buffer: &mut DashResendBuffer, stream_id: u128)
    requires
        call_ensures(DashResendBuffer::drop_other_streams, (buffer, stream_id), ()),
    ensures
        final(buffer)@.objects == old(buffer)@.objects.filter(belongs_to(stream_id)),
        final(buffer)@.max_bytes == old(buffer)@.max_bytes,
{
    lemma_object_filters(old(buffer)@.objects, stream_id, 0, 0);
}

/// What is asked for again is what is held between the two sequences, in its order. The
/// buffer tells its bytes, its length and the sequences of its ends.
pub proof fn kept_objects_are_resent(
    buffer: &DashResendBuffer,
    from: u64,
    to: u64,
    found: Vec<DashObject>,
    range: (Option<u64>, Option<u64>),
    bytes: u64,
    len: usize,
)
    requires
        call_ensures(DashResendBuffer::objects, (buffer, from, to), found),
        call_ensures(DashResendBuffer::range, (buffer,), range),
        call_ensures(DashResendBuffer::bytes, (buffer,), bytes),
        call_ensures(DashResendBuffer::len, (buffer,), len),
    ensures
        found@.map_values(object_image()) == buffer@.objects.filter(lies_between(from, to)),
        bytes == buffer@.objects.fold_left(0int, payload_total()),
        len == buffer@.objects.len(),
        range.0 is Some <==> len > 0,
        range.1 is Some <==> len > 0,
        len > 0 ==> range.0 == Some(buffer@.objects[0].header.sequence),
        len > 0 ==> range.1 == Some(buffer@.objects[len - 1].header.sequence),
{
    lemma_object_filters(buffer@.objects, 0, from, to);
    lemma_payload_total(buffer@.objects, 0);
}

} // verus!

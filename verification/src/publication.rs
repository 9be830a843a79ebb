//! One native publication: numbering, key groups, viewers and key history, frame by frame.

use vstd::prelude::*;

use crate::bytes::id_equal;
use crate::key_history::{
    fresh_groups,
    groups_of_stream,
    prune_key_history,
    pruned,
    pruning_keeps_the_newest,
    stream_groups,
    RetainedGroupKey,
};
use crate::records::{IdentityPublic, NativeObjectKind};
use crate::service::PublisherReply;

verus! {

/// Why a publication ends.
#[derive(Clone, Copy, Debug, PartialEq, Eq, Structural)]
pub enum PublishError {
    /// The relay refused what was sent.
    Refused,
    /// The relay answered something else.
    UnexpectedReply,
    /// The relay did not report the resumed stream.
    StreamOmitted,
    /// The keys of an approved viewer do not form an identity.
    ViewerInvalid,
    /// A key group did not begin with an independently decodable picture.
    GroupWithoutIdr,
    /// The encoder gave no parameter sets for a key group.
    ConfigMissing,
    /// No sequence is left for a cursor object.
    SequenceExhausted,
}

/// The relay's answer to a publisher, or its refusal.
#[derive(Debug)]
pub enum RelayAnswer {
    /// An ordinary answer.
    Reply(PublisherReply),
    /// A refusal.
    Error,
}

/// How far the resumed stream was committed: the relay reports it first.
pub fn resumed_from(answer: &RelayAnswer, stream_id: u128) -> (result: Result<u64, PublishError>)
    ensures
        result == match *answer {
            RelayAnswer::Error => Err::<u64, PublishError>(PublishError::Refused),
            RelayAnswer::Reply(PublisherReply::ResumeState(states)) => if states@.len() > 0
                && states@[0].stream_id == stream_id {
                Ok::<u64, PublishError>(states@[0].committed_through)
            } else {
                Err::<u64, PublishError>(PublishError::StreamOmitted)
            },
            _ => Err::<u64, PublishError>(PublishError::UnexpectedReply),
        },
{
    match answer {
        RelayAnswer::Error => Err(PublishError::Refused),
        RelayAnswer::Reply(PublisherReply::ResumeState(states)) => {
            if states.len() > 0 && states[0].stream_id == stream_id {
                Ok(states[0].committed_through)
            } else {
                Err(PublishError::StreamOmitted)
            }
        },
        _ => Err(PublishError::UnexpectedReply),
    }
}

/// Holds the relay's answer to a published object against what was sent.
pub fn check_acknowledgement(
    answer: &RelayAnswer,
    stream_id: u128,
    expected: u64,
) -> (result: Result<(), PublishError>)
    ensures
        result == match *answer {
            RelayAnswer::Error => Err::<(), PublishError>(PublishError::Refused),
            RelayAnswer::Reply(
                PublisherReply::PublishAck { stream_id: acknowledged, committed_through, .. },
            ) => if acknowledged == stream_id && committed_through == expected {
                Ok::<(), PublishError>(())
            } else {
                Err::<(), PublishError>(PublishError::UnexpectedReply)
            },
            _ => Err::<(), PublishError>(PublishError::UnexpectedReply),
        },
{
    match answer {
        RelayAnswer::Error => Err(PublishError::Refused),
        RelayAnswer::Reply(
            PublisherReply::PublishAck { stream_id: acknowledged, committed_through, .. },
        ) => {
            if *acknowledged == stream_id && *committed_through == expected {
                Ok(())
            } else {
                Err(PublishError::UnexpectedReply)
            }
        },
        _ => Err(PublishError::UnexpectedReply),
    }
}

/// The age limit of a key history in milliseconds.
pub fn history_age_ms(seconds: u64) -> (age: i64)
    ensures
        age == if seconds * 1000 > i64::MAX {
            i64::MAX as int
        } else {
            seconds * 1000
        },
{
    if seconds > 9_223_372_036_854_775 {
        i64::MAX
    } else {
        (seconds * 1000) as i64
    }
}

/// The parameter sets of an encoded picture.
#[derive(Debug)]
pub struct ParameterSets {
    /// Sequence parameter set.
    pub sps: Vec<u8>,
    /// Picture parameter set.
    pub pps: Vec<u8>,
}

/// Parameter sets as a decoder expects them: each behind a start code.
pub open spec fn annex_b(sps: Seq<u8>, pps: Seq<u8>) -> Seq<u8> {
    seq![0u8, 0, 0, 1] + sps + seq![0u8, 0, 0, 1] + pps
}

fn annex_b_config(sps: &Vec<u8>, pps: &Vec<u8>) -> (config: Vec<u8>)
    ensures
        config@ == annex_b(sps@, pps@),
{
    let start: [u8; 4] = [0, 0, 0, 1];
    let mut config: Vec<u8> = Vec::new();
    config.extend_from_slice(&start);
    config.extend_from_slice(sps.as_slice());
    config.extend_from_slice(&start);
    config.extend_from_slice(pps.as_slice());
    assert(start@ =~= seq![0u8, 0, 0, 1]);
    assert(config@ =~= annex_b(sps@, pps@));
    config
}

/// The header of an object that is to be sealed.
#[derive(Clone, Copy, Debug, PartialEq, Eq, Structural)]
pub struct NewNativeObject {
    /// Its sequence.
    pub sequence: u64,
    /// Its timestamp in media ticks.
    pub timestamp: u64,
    /// Its duration in media ticks.
    pub duration: u32,
    /// What it carries.
    pub kind: NativeObjectKind,
    /// Whether decoding can start at it.
    pub random_access: bool,
    /// Whether it names the video codec.
    pub names_codec: bool,
}

/// What stays the same during a publication.
#[derive(Clone, Copy, Debug)]
pub struct PublicationSettings {
    /// The stream.
    pub stream_id: u128,
    /// The epoch.
    pub epoch_id: u128,
    /// Frames of a key group.
    pub group_frames: u16,
    /// Duration of a frame in media ticks.
    pub frame_duration: u32,
    /// Bytes of content whose keys are kept.
    pub history_bytes: u64,
    /// Age up to which keys are kept.
    pub history_age_ms: i64,
}

/// A running publication.
#[derive(Debug)]
pub struct Publication {
    /// What stays the same.
    pub settings: PublicationSettings,
    /// Viewers that were approved when last asked.
    pub approved: Vec<IdentityPublic>,
    /// Keys of this stream's groups.
    pub history: Vec<RetainedGroupKey>,
    /// Sequence of the last object.
    pub sequence: u64,
    /// Timestamp of the current frame.
    pub timestamp: u64,
    /// Number of the current frame.
    pub frame_index: u64,
    /// Number of the current group.
    pub group_id: u64,
    /// Whether a group is open.
    pub group_open: bool,
}

/// What a publication is.
#[verifier::ext_equal]
pub struct PublicationModel {
    /// What stays the same.
    pub settings: PublicationSettings,
    /// Viewers that were approved when last asked.
    pub approved: Seq<IdentityPublic>,
    /// Keys of this stream's groups.
    pub history: Seq<RetainedGroupKey>,
    /// Sequence of the last object.
    pub sequence: u64,
    /// Timestamp of the current frame.
    pub timestamp: u64,
    /// Number of the current frame.
    pub frame_index: u64,
    /// Number of the current group.
    pub group_id: u64,
    /// Whether a group is open.
    pub group_open: bool,
}

impl View for Publication {
    type V = PublicationModel;

    open spec fn view(&self) -> PublicationModel {
        PublicationModel {
            settings: self.settings,
            approved: self.approved@,
            history: self.history@,
            sequence: self.sequence,
            timestamp: self.timestamp,
            frame_index: self.frame_index,
            group_id: self.group_id,
            group_open: self.group_open,
        }
    }
}

/// What a frame begins with.
#[derive(Debug)]
pub struct FramePlan {
    /// Whether it opens a key group, and must be independently decodable.
    pub starts_group: bool,
    /// Viewers that are sent the open group's key right away.
    pub envelopes: Vec<IdentityPublic>,
}

/// A sum that stops at the largest number.
pub open spec fn capped(sum: int) -> u64 {
    if sum > u64::MAX {
        u64::MAX
    } else {
        sum as u64
    }
}

/// Whether every viewer has a valid identity.
pub open spec fn all_valid(viewers: Seq<IdentityPublic>) -> bool {
    forall|i: int| 0 <= i < viewers.len() ==> (#[trigger] viewers[i]).fingerprint is Some
}

/// Whether a viewer is among others, by fingerprint.
pub open spec fn is_among(viewer: IdentityPublic, viewers: Seq<IdentityPublic>) -> bool {
    exists|i: int|
        0 <= i < viewers.len() && (#[trigger] viewers[i]).fingerprint == viewer.fingerprint
}

/// Whether a viewer lost its approval.
pub open spec fn revoked(previous: Seq<IdentityPublic>, latest: Seq<IdentityPublic>) -> bool {
    exists|i: int| 0 <= i < previous.len() && !is_among(#[trigger] previous[i], latest)
}

/// The viewers that were not approved before, in their order.
pub open spec fn newly_approved(previous: Seq<IdentityPublic>, latest: Seq<IdentityPublic>) -> Seq<
    IdentityPublic,
>
    decreases latest.len(),
{
    if latest.len() == 0 {
        Seq::empty()
    } else {
        let before = newly_approved(previous, latest.drop_last());
        if is_among(latest.last(), previous) {
            before
        } else {
            before.push(latest.last())
        }
    }
}

impl PublicationModel {
    /// Whether the current frame opens a key group: there is none yet, a viewer lost its
    /// approval, or the group has all its frames.
    pub open spec fn starts_group(self, latest: Seq<IdentityPublic>) -> bool {
        ||| !self.group_open
        ||| revoked(self.approved, latest)
        ||| if self.settings.group_frames == 0 {
            self.frame_index == 0
        } else {
            self.frame_index % (self.settings.group_frames as u64) == 0
        }
    }

    /// The viewers that are sent the open group's key as the frame begins.
    pub open spec fn early_envelopes(self, latest: Seq<IdentityPublic>) -> Seq<IdentityPublic> {
        if self.starts_group(latest) {
            Seq::empty()
        } else {
            newly_approved(self.approved, latest)
        }
    }

    /// The publication once the frame has begun.
    pub open spec fn begun(self, latest: Seq<IdentityPublic>) -> PublicationModel {
        PublicationModel {
            approved: latest,
            group_id: if self.starts_group(latest) {
                capped(self.group_id + 1)
            } else {
                self.group_id
            },
            group_open: true,
            ..self
        }
    }

    /// The publication with one more object.
    pub open spec fn numbered(self) -> PublicationModel {
        PublicationModel { sequence: capped(self.sequence + 1), ..self }
    }

    /// The history pruned at some time.
    pub open spec fn prune(self, history: Seq<RetainedGroupKey>, now_ms: i64) -> Seq<
        RetainedGroupKey,
    > {
        pruned(history, now_ms, self.settings.history_bytes, self.settings.history_age_ms)
    }

    /// The key record of the group that just opened.
    pub open spec fn group_record(
        self,
        key_id: [u8; 16],
        content_key: [u8; 32],
        created_at_ms: i64,
    ) -> RetainedGroupKey {
        RetainedGroupKey {
            stream_id: self.settings.stream_id,
            epoch_id: self.settings.epoch_id,
            key_group_id: self.group_id,
            key_id,
            content_key,
            created_at_ms,
            content_bytes: 0,
        }
    }

    /// The history with a frame's bytes counted on the current group.
    pub open spec fn counted(self, bytes: u64) -> Seq<RetainedGroupKey> {
        let last = self.history.last();
        if self.history.len() > 0 && last.stream_id == self.settings.stream_id && last.epoch_id
            == self.settings.epoch_id && last.key_group_id == self.group_id {
            self.history.update(
                self.history.len() - 1,
                RetainedGroupKey { content_bytes: capped(last.content_bytes + bytes), ..last },
            )
        } else {
            self.history
        }
    }

    /// The publication once a frame is done.
    pub open spec fn finished(self, bytes: u64, now_ms: i64) -> PublicationModel {
        PublicationModel {
            history: self.prune(self.counted(bytes), now_ms),
            frame_index: capped(self.frame_index + 1),
            timestamp: capped(self.timestamp + self.settings.frame_duration),
            ..self
        }
    }
}

fn every_valid(viewers: &Vec<IdentityPublic>) -> (valid: bool)
    ensures
        valid == all_valid(viewers@),
{
    let count: usize = viewers.len();
    let mut i: usize = 0;
    while i < count
        invariant
            i <= count == viewers@.len(),
            forall|k: int| 0 <= k < i ==> (#[trigger] viewers@[k]).fingerprint is Some,
        decreases count - i,
    {
        if viewers[i].fingerprint.is_none() {
            assert(viewers@[i as int].fingerprint is None);
            return false;
        }
        i += 1;
    }
    true
}

fn among(viewer: &IdentityPublic, viewers: &Vec<IdentityPublic>) -> (found: bool)
    ensures
        found == is_among(*viewer, viewers@),
{
    let count: usize = viewers.len();
    let mut i: usize = 0;
    while i < count
        invariant
            i <= count == viewers@.len(),
            forall|k: int|
                0 <= k < i ==> (#[trigger] viewers@[k]).fingerprint != viewer.fingerprint,
        decreases count - i,
    {
        let same = match (&viewers[i].fingerprint, &viewer.fingerprint) {
            (Some(a), Some(b)) => id_equal(a, b),
            (None, None) => true,
            _ => false,
        };
        if same {
            assert(viewers@[i as int].fingerprint == viewer.fingerprint);
            return true;
        }
        i += 1;
    }
    false
}

fn any_revoked(previous: &Vec<IdentityPublic>, latest: &Vec<IdentityPublic>) -> (found: bool)
    ensures
        found == revoked(previous@, latest@),
{
    let count: usize = previous.len();
    let mut i: usize = 0;
    while i < count
        invariant
            i <= count == previous@.len(),
            forall|k: int| 0 <= k < i ==> is_among(#[trigger] previous@[k], latest@),
        decreases count - i,
    {
        if !among(&previous[i], latest) {
            assert(!is_among(previous@[i as int], latest@));
            return true;
        }
        i += 1;
    }
    false
}

fn new_viewers(previous: &Vec<IdentityPublic>, latest: &Vec<IdentityPublic>) -> (found: Vec<
    IdentityPublic,
>)
    ensures
        found@ == newly_approved(previous@, latest@),
{
    let mut found: Vec<IdentityPublic> = Vec::new();
    let count: usize = latest.len();
    let mut i: usize = 0;
    while i < count
        invariant
            i <= count == latest@.len(),
            found@ == newly_approved(previous@, latest@.take(i as int)),
        decreases count - i,
    {
        assert(latest@.take(i + 1).drop_last() =~= latest@.take(i as int));
        if !among(&latest[i], previous) {
            found.push(latest[i]);
        }
        i += 1;
    }
    assert(latest@.take(count as int) =~= latest@);
    found
}

impl Publication {
    /// A publication that continues a stream behind what the relay has committed, under the
    /// epoch that was announced when it resumed.
    pub fn start(
        settings: &PublicationSettings,
        committed_through: u64,
        approved: Vec<IdentityPublic>,
        stored_history: &Vec<RetainedGroupKey>,
    ) -> (publication: Publication)
        ensures
            publication@ == (PublicationModel {
                settings: *settings,
                approved: approved@,
                history: stream_groups(stored_history@, settings.stream_id),
                sequence: committed_through,
                timestamp: 0,
                frame_index: 0,
                group_id: 0,
                group_open: false,
            }),
    {
        Publication {
            settings: *settings,
            approved,
            history: groups_of_stream(stored_history, settings.stream_id),
            sequence: committed_through,
            timestamp: 0,
            frame_index: 0,
            group_id: 0,
            group_open: false,
        }
    }

    /// Begins a frame with the viewers that are approved now.
    pub fn begin_frame(&mut self, latest: Vec<IdentityPublic>) -> (result: Result<
        FramePlan,
        PublishError,
    >)
        ensures
            match result {
                Err(error) => {
                    &&& error == PublishError::ViewerInvalid
                    &&& !all_valid(old(self)@.approved) || !all_valid(latest@)
                    &&& final(self)@ == old(self)@
                },
                Ok(plan) => {
                    &&& all_valid(old(self)@.approved) && all_valid(latest@)
                    &&& plan.starts_group == old(self)@.starts_group(latest@)
                    &&& plan.envelopes@ == old(self)@.early_envelopes(latest@)
                    &&& final(self)@ == old(self)@.begun(latest@)
                },
            },
    {
        if !every_valid(&self.approved) || !every_valid(&latest) {
            return Err(PublishError::ViewerInvalid);
        }
        let full = if self.settings.group_frames == 0 {
            self.frame_index == 0
        } else {
            self.frame_index % (self.settings.group_frames as u64) == 0
        };
        let starts_group = !self.group_open || any_revoked(&self.approved, &latest) || full;
        let envelopes: Vec<IdentityPublic> = if starts_group {
            self.group_id = self.group_id.saturating_add(1);
            self.group_open = true;
            Vec::new()
        } else {
            new_viewers(&self.approved, &latest)
        };
        self.approved = latest;
        Ok(FramePlan { starts_group, envelopes })
    }

    /// Opens the key group of an encoded frame: the header of its epoch object and the
    /// decoder configuration that the object carries.
    pub fn open_group(
        &mut self,
        keyframe: bool,
        parameter_sets: &Option<ParameterSets>,
    ) -> (result: Result<(NewNativeObject, Vec<u8>), PublishError>)
        ensures
            match result {
                Err(error) => {
                    &&& error == if !keyframe {
                        PublishError::GroupWithoutIdr
                    } else {
                        PublishError::ConfigMissing
                    }
                    &&& !keyframe || parameter_sets is None
                    &&& final(self)@ == old(self)@
                },
                Ok((header, config)) => {
                    &&& keyframe && parameter_sets is Some
                    &&& final(self)@ == old(self)@.numbered()
                    &&& header == NewNativeObject {
                        sequence: final(self)@.sequence,
                        timestamp: old(self)@.timestamp,
                        duration: 1,
                        kind: NativeObjectKind::Epoch,
                        random_access: true,
                        names_codec: true,
                    }
                    &&& config@ == annex_b(parameter_sets->0.sps@, parameter_sets->0.pps@)
                },
            },
    {
        if !keyframe {
            return Err(PublishError::GroupWithoutIdr);
        }
        match parameter_sets {
            None => Err(PublishError::ConfigMissing),
            Some(sets) => {
                let config = annex_b_config(&sets.sps, &sets.pps);
                self.sequence = self.sequence.saturating_add(1);
                Ok(
                    (
                        NewNativeObject {
                            sequence: self.sequence,
                            timestamp: self.timestamp,
                            duration: 1,
                            kind: NativeObjectKind::Epoch,
                            random_access: true,
                            names_codec: true,
                        },
                        config,
                    ),
                )
            },
        }
    }

    /// Records the key of the group whose epoch object the relay acknowledged. Every
    /// approved viewer is sent it next.
    pub fn group_opened(
        &mut self,
        key_id: [u8; 16],
        content_key: [u8; 32],
        created_at_ms: i64,
        now_ms: i64,
    )
        ensures
            final(self)@ == (PublicationModel {
                history: old(self)@.prune(
                    old(self)@.history.push(
                        old(self)@.group_record(key_id, content_key, created_at_ms),
                    ),
                    now_ms,
                ),
                ..old(self)@
            }),
    {
        self.history.push(
            RetainedGroupKey {
                stream_id: self.settings.stream_id,
                epoch_id: self.settings.epoch_id,
                key_group_id: self.group_id,
                key_id,
                content_key,
                created_at_ms,
                content_bytes: 0,
            },
        );
        prune_key_history(
            &mut self.history,
            now_ms,
            self.settings.history_bytes,
            self.settings.history_age_ms,
        );
    }

    /// The header of the frame's media object.
    pub fn next_media(&mut self, keyframe: bool) -> (header: NewNativeObject)
        ensures
            final(self)@ == old(self)@.numbered(),
            header == (NewNativeObject {
                sequence: final(self)@.sequence,
                timestamp: old(self)@.timestamp,
                duration: old(self)@.settings.frame_duration,
                kind: NativeObjectKind::Media,
                random_access: keyframe,
                names_codec: true,
            }),
    {
        self.sequence = self.sequence.saturating_add(1);
        NewNativeObject {
            sequence: self.sequence,
            timestamp: self.timestamp,
            duration: self.settings.frame_duration,
            kind: NativeObjectKind::Media,
            random_access: keyframe,
            names_codec: true,
        }
    }

    /// The header of the frame's cursor object.
    pub fn next_cursor(&mut self) -> (result: Result<NewNativeObject, PublishError>)
        ensures
            match result {
                Err(error) => {
                    &&& error == PublishError::SequenceExhausted
                    &&& old(self)@.sequence == u64::MAX
                    &&& final(self)@ == old(self)@
                },
                Ok(header) => {
                    &&& old(self)@.sequence < u64::MAX
                    &&& final(self)@ == old(self)@.numbered()
                    &&& header == NewNativeObject {
                        sequence: final(self)@.sequence,
                        timestamp: old(self)@.timestamp,
                        duration: 1,
                        kind: NativeObjectKind::Cursor,
                        random_access: false,
                        names_codec: false,
                    }
                },
            },
    {
        match self.sequence.checked_add(1) {
            None => Err(PublishError::SequenceExhausted),
            Some(sequence) => {
                self.sequence = sequence;
                Ok(
                    NewNativeObject {
                        sequence,
                        timestamp: self.timestamp,
                        duration: 1,
                        kind: NativeObjectKind::Cursor,
                        random_access: false,
                        names_codec: false,
                    },
                )
            },
        }
    }

    /// Ends a frame whose objects the relay acknowledged.
    pub fn finish_frame(&mut self, video_bytes: u64, cursor_bytes: Option<u64>, now_ms: i64)
        ensures
            final(self)@ == old(self)@.finished(
                match cursor_bytes {
                    Some(bytes) => capped(video_bytes + bytes),
                    None => video_bytes,
                },
                now_ms,
            ),
    {
        let bytes: u64 = match cursor_bytes {
            Some(bytes) => video_bytes.saturating_add(bytes),
            None => video_bytes,
        };
        let count: usize = self.history.len();
        if count > 0 {
            let last = self.history[count - 1];
            if last.stream_id == self.settings.stream_id && last.epoch_id == self.settings.epoch_id
                && last.key_group_id == self.group_id {
                self.history[count - 1] = RetainedGroupKey {
                    content_bytes: last.content_bytes.saturating_add(bytes),
                    ..last
                };
            }
        }
        assert(self.history@ =~= old(self)@.counted(bytes));
        prune_key_history(
            &mut self.history,
            now_ms,
            self.settings.history_bytes,
            self.settings.history_age_ms,
        );
        self.frame_index = self.frame_index.saturating_add(1);
        self.timestamp = self.timestamp.saturating_add(self.settings.frame_duration as u64);
    }
}

/// The fingerprints of some viewers.
pub open spec fn fingerprints(viewers: Seq<IdentityPublic>) -> Set<Option<[u8; 32]>> {
    Set::new(
        |print: Option<[u8; 32]>|
            exists|i: int| 0 <= i < viewers.len() && (#[trigger] viewers[i]).fingerprint == print,
    )
}

/// Who has been sent the current group's key once a frame has begun, given who had been
/// before: a new group's key goes to every approved viewer, an open group's to the new ones.
pub open spec fn key_holders(
    publication: PublicationModel,
    holders: Set<Option<[u8; 32]>>,
    latest: Seq<IdentityPublic>,
) -> Set<Option<[u8; 32]>> {
    if publication.starts_group(latest) {
        fingerprints(latest)
    } else {
        holders.union(fingerprints(publication.early_envelopes(latest)))
    }
}

/// At every frame exactly the approved viewers have been sent the current group's key. A
/// viewer that loses its approval is never sent a later one, and one that gains it need not
/// wait for the next group.
pub proof fn key_holders_are_the_approved_viewers(
    publication: PublicationModel,
    holders: Set<Option<[u8; 32]>>,
    latest: Seq<IdentityPublic>,
)
    requires
        publication.group_open ==> holders == fingerprints(publication.approved),
    ensures
        key_holders(publication, holders, latest) == fingerprints(latest),
        fingerprints(latest) == fingerprints(publication.begun(latest).approved),
{
    if !publication.starts_group(latest) {
        let previous = publication.approved;
        let early = newly_approved(previous, latest);
        lemma_newly_approved(previous, latest);
        assert forall|print: Option<[u8; 32]>|
            fingerprints(previous).union(fingerprints(early)).contains(print) == fingerprints(
                latest,
            ).contains(print) by {
            if fingerprints(previous).contains(print) {
                let i = choose|i: int|
                    0 <= i < previous.len() && (#[trigger] previous[i]).fingerprint == print;
                assert(is_among(previous[i], latest));
            }
            if fingerprints(early).contains(print) {
                let i = choose|i: int|
                    0 <= i < early.len() && (#[trigger] early[i]).fingerprint == print;
                assert(latest.contains(early[i]));
                let k = choose|k: int| 0 <= k < latest.len() && latest[k] == early[i];
                assert(latest[k].fingerprint == print);
            }
            if fingerprints(latest).contains(print) {
                let k = choose|k: int|
                    0 <= k < latest.len() && (#[trigger] latest[k]).fingerprint == print;
                if is_among(latest[k], previous) {
                    let i = choose|i: int|
                        0 <= i < previous.len() && (#[trigger] previous[i]).fingerprint
                            == latest[k].fingerprint;
                    assert(previous[i].fingerprint == print);
                } else {
                    assert(early.contains(latest[k]));
                    let i = choose|i: int| 0 <= i < early.len() && early[i] == latest[k];
                    assert(early[i].fingerprint == print);
                }
            }
        }
        assert(key_holders(publication, holders, latest) =~= fingerprints(latest));
    }
}

proof fn lemma_newly_approved(previous: Seq<IdentityPublic>, latest: Seq<IdentityPublic>)
    ensures
        forall|i: int|
            0 <= i < newly_approved(previous, latest).len() ==> latest.contains(
                #[trigger] newly_approved(previous, latest)[i],
            ),
        forall|k: int|
            0 <= k < latest.len() && !is_among(#[trigger] latest[k], previous) ==> newly_approved(
                previous,
                latest,
            ).contains(latest[k]),
    decreases latest.len(),
{
    if latest.len() > 0 {
        let rest = latest.drop_last();
        lemma_newly_approved(previous, rest);
        let before = newly_approved(previous, rest);
        let all = newly_approved(previous, latest);
        assert forall|i: int| 0 <= i < all.len() implies latest.contains(#[trigger] all[i]) by {
            if i < before.len() {
                assert(all[i] == before[i]);
                let k = choose|k: int| 0 <= k < rest.len() && rest[k] == before[i];
                assert(latest[k] == all[i]);
            } else {
                assert(latest[latest.len() - 1] == all[i]);
            }
        }
        assert forall|k: int|
            0 <= k < latest.len() && !is_among(#[trigger] latest[k], previous) implies all.contains(
            latest[k],
        ) by {
            if k < rest.len() {
                assert(rest[k] == latest[k]);
                let i = choose|i: int| 0 <= i < before.len() && before[i] == rest[k];
                assert(all[i] == latest[k]);
            } else {
                assert(all[all.len() - 1] == latest[k]);
            }
        }
    }
}

/// A viewer that loses its approval ends the group: the frame opens a new one with a higher
/// number, as long as numbers last.
pub proof fn revocation_rotates_the_key(
    publication: PublicationModel,
    latest: Seq<IdentityPublic>,
    viewer: IdentityPublic,
)
    requires
        publication.approved.contains(viewer),
        !is_among(viewer, latest),
        publication.group_id < u64::MAX,
    ensures
        publication.starts_group(latest),
        publication.begun(latest).group_id == publication.group_id + 1,
        !fingerprints(publication.begun(latest).approved).contains(viewer.fingerprint),
{
    let i = choose|i: int| 0 <= i < publication.approved.len() && publication.approved[i] == viewer;
    assert(!is_among(publication.approved[i], latest));
}

/// Whether every key of a publication's history is of its own stream.
pub open spec fn of_one_stream(publication: PublicationModel) -> bool {
    forall|i: int|
        0 <= i < publication.history.len() ==> (#[trigger] publication.history[i]).stream_id
            == publication.settings.stream_id
}

/// The stream and the epoch that a publication was started under stay those of every group
/// whose key it records.
pub proof fn publications_keep_their_epoch(
    publication: PublicationModel,
    latest: Seq<IdentityPublic>,
    key_id: [u8; 16],
    content_key: [u8; 32],
    created_at_ms: i64,
    bytes: u64,
    now_ms: i64,
)
    ensures
        publication.begun(latest).settings == publication.settings,
        publication.numbered().settings == publication.settings,
        publication.finished(bytes, now_ms).settings == publication.settings,
        publication.group_record(key_id, content_key, created_at_ms).stream_id
            == publication.settings.stream_id,
        publication.group_record(key_id, content_key, created_at_ms).epoch_id
            == publication.settings.epoch_id,
{
}

/// Opening groups and finishing frames keeps a publication's history to its own stream.
pub proof fn history_stays_within_the_stream(
    publication: PublicationModel,
    key_id: [u8; 16],
    content_key: [u8; 32],
    created_at_ms: i64,
    bytes: u64,
    now_ms: i64,
)
    requires
        of_one_stream(publication),
    ensures
        of_one_stream(publication.finished(bytes, now_ms)),
        of_one_stream(
            (PublicationModel {
                history: publication.prune(
                    publication.history.push(
                        publication.group_record(key_id, content_key, created_at_ms),
                    ),
                    now_ms,
                ),
                ..publication
            }),
        ),
{
    let opened = publication.history.push(
        publication.group_record(key_id, content_key, created_at_ms),
    );
    lemma_pruned_is_contained(
        opened,
        now_ms,
        publication.settings.history_bytes,
        publication.settings.history_age_ms,
    );
    lemma_pruned_is_contained(
        publication.counted(bytes),
        now_ms,
        publication.settings.history_bytes,
        publication.settings.history_age_ms,
    );
}

/// A stream's own groups are all of that stream.
pub proof fn picked_groups_are_of_the_stream(groups: Seq<RetainedGroupKey>, stream_id: u128)
    ensures
        forall|i: int|
            0 <= i < stream_groups(groups, stream_id).len() ==> (#[trigger] stream_groups(
                groups,
                stream_id,
            )[i]).stream_id == stream_id,
    decreases groups.len(),
{
    if groups.len() > 0 {
        picked_groups_are_of_the_stream(groups.drop_last(), stream_id);
        let before = stream_groups(groups.drop_last(), stream_id);
        let all = stream_groups(groups, stream_id);
        assert forall|i: int| 0 <= i < all.len() implies (#[trigger] all[i]).stream_id
            == stream_id by {
            if i < before.len() {
                assert(all[i] == before[i]);
            }
        }
    }
}

proof fn lemma_pruned_is_contained(
    groups: Seq<RetainedGroupKey>,
    now_ms: i64,
    max_content_bytes: u64,
    max_age_ms: i64,
)
    ensures
        forall|i: int|
            0 <= i < pruned(groups, now_ms, max_content_bytes, max_age_ms).len()
                ==> groups.contains(
                #[trigger] pruned(groups, now_ms, max_content_bytes, max_age_ms)[i],
            ),
{
    let fresh = fresh_groups(groups, now_ms, max_age_ms);
    let kept = pruned(groups, now_ms, max_content_bytes, max_age_ms);
    pruning_keeps_the_newest(groups, now_ms, max_content_bytes, max_age_ms);
    lemma_fresh_is_contained(groups, now_ms, max_age_ms);
    assert forall|i: int| 0 <= i < kept.len() implies groups.contains(#[trigger] kept[i]) by {
        assert(kept[i] == fresh[fresh.len() - kept.len() + i]);
    }
}

proof fn lemma_fresh_is_contained(groups: Seq<RetainedGroupKey>, now_ms: i64, max_age_ms: i64)
    ensures
        forall|i: int|
            0 <= i < fresh_groups(groups, now_ms, max_age_ms).len() ==> groups.contains(
                #[trigger] fresh_groups(groups, now_ms, max_age_ms)[i],
            ),
    decreases groups.len(),
{
    if groups.len() > 0 {
        lemma_fresh_is_contained(groups.drop_last(), now_ms, max_age_ms);
        let rest = groups.drop_last();
        let before = fresh_groups(rest, now_ms, max_age_ms);
        let all = fresh_groups(groups, now_ms, max_age_ms);
        assert forall|i: int| 0 <= i < all.len() implies groups.contains(#[trigger] all[i]) by {
            if i < before.len() {
                assert(all[i] == before[i]);
                let k = choose|k: int| 0 <= k < rest.len() && rest[k] == before[i];
                assert(groups[k] == all[i]);
            } else {
                assert(groups[groups.len() - 1] == all[i]);
            }
        }
    }
}

} // verus!

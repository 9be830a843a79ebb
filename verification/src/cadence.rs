//! Adaptive media cadence: when a captured frame is published at once, when it is
//! encoded and held, and how long the held frame is said to last.
//!
//! Timestamps and durations are counted in ticks of the media timescale.

use vstd::prelude::*;

verus! {

/// Ticks per second of every published timestamp.
pub const MEDIA_TIMESCALE: u32 = 90_000;

/// What the publisher does with the frame it has just captured.
#[derive(Clone, Copy, Debug, PartialEq, Eq, Structural)]
pub struct MediaCadenceDecision {
    /// Duration to stamp on the held frame, which is sent before anything else.
    pub flush_pending_duration: Option<u32>,
    /// Timestamp at which the captured frame is published at once.
    pub publish_current_timestamp: Option<u64>,
    /// Timestamp at which the captured frame is encoded and held.
    pub encode_pending_timestamp: Option<u64>,
}

/// The decision that neither sends nor holds a frame.
pub open spec fn idle_decision() -> MediaCadenceDecision {
    MediaCadenceDecision {
        flush_pending_duration: None,
        publish_current_timestamp: None,
        encode_pending_timestamp: None,
    }
}

impl Default for MediaCadenceDecision {
    fn default() -> (decision: MediaCadenceDecision)
        ensures
            decision == idle_decision(),
    {
        MediaCadenceDecision {
            flush_pending_duration: None,
            publish_current_timestamp: None,
            encode_pending_timestamp: None,
        }
    }
}

/// The sum of two tick counts, held at the largest representable one.
pub open spec fn ticks_after(start: u64, ticks: u64) -> u64 {
    if start + ticks > u64::MAX {
        u64::MAX
    } else {
        (start + ticks) as u64
    }
}

/// The duration of a frame shown from `start` until `end`: at least one tick, at most
/// what a media sample can carry.
pub open spec fn held_duration(start: u64, end: u64) -> u32 {
    if end <= start {
        1
    } else if end - start > u32::MAX {
        u32::MAX
    } else {
        (end - start) as u32
    }
}

/// The later of two timestamps.
pub open spec fn later(a: u64, b: u64) -> u64 {
    if a >= b {
        a
    } else {
        b
    }
}

/// Decides, frame by frame, what reaches the wire: changed frames immediately, still
/// frames once per heartbeat.
#[derive(Clone, Copy, Debug, PartialEq, Eq, Structural)]
pub struct AdaptiveMediaCadence {
    /// Ticks a published frame lasts until the next one is known.
    pub frame_duration: u64,
    /// Ticks after which a still frame is repeated.
    pub heartbeat_ticks: u64,
    /// End of everything published so far.
    pub media_end: u64,
    /// Start of the encoded frame that is still waiting for its duration.
    pub pending_timestamp: Option<u64>,
}

impl AdaptiveMediaCadence {
    /// The held frame, if there is one, starts where the published media ends.
    pub open spec fn wf(self) -> bool {
        self.pending_timestamp matches Some(start) ==> start == self.media_end
    }

    /// The cadence after a changed frame was captured at `timestamp`.
    pub open spec fn after_change(self, timestamp: u64) -> AdaptiveMediaCadence {
        AdaptiveMediaCadence {
            media_end: ticks_after(self.change_start(timestamp), self.frame_duration),
            pending_timestamp: None,
            ..self
        }
    }

    /// Where a changed frame captured at `timestamp` starts: never before the end of
    /// what precedes it, the held frame included.
    pub open spec fn change_start(self, timestamp: u64) -> u64 {
        match self.pending_timestamp {
            Some(start) => later(
                timestamp,
                ticks_after(start, held_duration(start, timestamp) as u64),
            ),
            None => later(timestamp, self.media_end),
        }
    }

    /// Whether a still frame captured at `timestamp` is due: the first one once the
    /// published media has ended, a repetition once a heartbeat has passed.
    pub open spec fn still_due(self, timestamp: u64) -> bool {
        match self.pending_timestamp {
            Some(start) => timestamp - start >= self.heartbeat_ticks || self.heartbeat_ticks == 0,
            None => timestamp >= self.media_end,
        }
    }

    /// Where the next held frame starts when a still frame is due at `timestamp`.
    pub open spec fn still_start(self, timestamp: u64) -> u64 {
        match self.pending_timestamp {
            Some(start) => ticks_after(start, held_duration(start, timestamp) as u64),
            None => self.media_end,
        }
    }

    /// The duration stamped on the held frame when something follows it at `timestamp`.
    pub open spec fn flush_at(self, timestamp: u64) -> Option<u32> {
        match self.pending_timestamp {
            Some(start) => Some(held_duration(start, timestamp)),
            None => None,
        }
    }

    /// The cadence after it was ended at `timestamp`: nothing is held any more.
    pub open spec fn finished(self, timestamp: u64) -> AdaptiveMediaCadence {
        AdaptiveMediaCadence {
            media_end: self.still_start(timestamp),
            pending_timestamp: None,
            ..self
        }
    }

    /// Starts a cadence whose first frame is published at zero.
    pub fn new(frame_duration: u64, heartbeat_ticks: u64) -> (cadence: Self)
        ensures
            cadence.frame_duration == frame_duration,
            cadence.heartbeat_ticks == if later(heartbeat_ticks, frame_duration) > u32::MAX {
                u32::MAX as u64
            } else {
                later(heartbeat_ticks, frame_duration)
            },
            cadence.media_end == frame_duration,
            cadence.pending_timestamp is None,
            cadence.wf(),
    {
        let longest: u64 = if heartbeat_ticks > frame_duration {
            heartbeat_ticks
        } else {
            frame_duration
        };
        let bounded: u64 = if longest > 0xffff_ffff {
            0xffff_ffff
        } else {
            longest
        };
        AdaptiveMediaCadence {
            frame_duration,
            heartbeat_ticks: bounded,
            media_end: frame_duration,
            pending_timestamp: None,
        }
    }

    /// Takes note of a frame captured at `timestamp` and says what becomes of it.
    pub fn observe(&mut self, timestamp: u64, changed: bool) -> (decision: MediaCadenceDecision)
        ensures
            changed ==> {
                &&& *final(self) == old(self).after_change(timestamp)
                &&& decision == MediaCadenceDecision {
                    flush_pending_duration: old(self).flush_at(timestamp),
                    publish_current_timestamp: Some(old(self).change_start(timestamp)),
                    encode_pending_timestamp: None,
                }
            },
            !changed && !old(self).still_due(timestamp) ==> {
                &&& *final(self) == *old(self)
                &&& decision == idle_decision()
            },
            !changed && old(self).still_due(timestamp) ==> {
                &&& *final(self) == (AdaptiveMediaCadence {
                    media_end: old(self).still_start(timestamp),
                    pending_timestamp: Some(old(self).still_start(timestamp)),
                    ..*old(self)
                })
                &&& decision == MediaCadenceDecision {
                    flush_pending_duration: old(self).flush_at(timestamp),
                    publish_current_timestamp: None,
                    encode_pending_timestamp: Some(old(self).still_start(timestamp)),
                }
            },
            old(self).wf() ==> final(self).wf(),
    {
        if changed {
            let flushed: Option<u32> = match self.pending_timestamp {
                Some(pending_timestamp) => {
                    let duration: u32 = sample_duration(pending_timestamp, timestamp);
                    self.media_end = pending_timestamp.saturating_add(duration as u64);
                    Some(duration)
                },
                None => None,
            };
            self.pending_timestamp = None;
            let current: u64 = if timestamp > self.media_end {
                timestamp
            } else {
                self.media_end
            };
            self.media_end = current.saturating_add(self.frame_duration);
            return MediaCadenceDecision {
                flush_pending_duration: flushed,
                publish_current_timestamp: Some(current),
                encode_pending_timestamp: None,
            };
        }
        match self.pending_timestamp {
            None => {
                if timestamp >= self.media_end {
                    self.pending_timestamp = Some(self.media_end);
                    MediaCadenceDecision {
                        flush_pending_duration: None,
                        publish_current_timestamp: None,
                        encode_pending_timestamp: self.pending_timestamp,
                    }
                } else {
                    MediaCadenceDecision::default()
                }
            },
            Some(pending_timestamp) => {
                if timestamp.saturating_sub(pending_timestamp) < self.heartbeat_ticks {
                    return MediaCadenceDecision::default();
                }
                let duration: u32 = sample_duration(pending_timestamp, timestamp);
                self.media_end = pending_timestamp.saturating_add(duration as u64);
                self.pending_timestamp = Some(self.media_end);
                MediaCadenceDecision {
                    flush_pending_duration: Some(duration),
                    publish_current_timestamp: None,
                    encode_pending_timestamp: self.pending_timestamp,
                }
            },
        }
    }

    /// Ends the cadence at `timestamp`: the duration of the held frame, if there is one.
    pub fn finish(&mut self, timestamp: u64) -> (duration: Option<u32>)
        ensures
            duration == old(self).flush_at(timestamp),
            *final(self) == old(self).finished(timestamp),
            final(self).wf(),
    {
        match self.pending_timestamp {
            None => None,
            Some(pending_timestamp) => {
                self.pending_timestamp = None;
                let duration: u32 = sample_duration(pending_timestamp, timestamp);
                self.media_end = pending_timestamp.saturating_add(duration as u64);
                Some(duration)
            },
        }
    }
}

/// The duration of a frame shown from `start` until `end`.
fn sample_duration(start: u64, end: u64) -> (duration: u32)
    ensures
        duration == held_duration(start, end),
{
    let ticks: u64 = end.saturating_sub(start);
    if ticks < 1 {
        1
    } else if ticks > 0xffff_ffff {
        0xffff_ffff
    } else {
        ticks as u32
    }
}

/// One published media sample: where it starts and where it ends.
pub struct MediaSpan {
    /// First tick of the sample.
    pub start: u64,
    /// Tick at which the sample ends.
    pub end: u64,
}

/// The samples that one observation sends, in sending order.
pub open spec fn sent_by(before: AdaptiveMediaCadence, timestamp: u64, changed: bool) -> Seq<
    MediaSpan,
> {
    let flushed = match before.pending_timestamp {
        Some(start) if changed || before.still_due(timestamp) => seq![
            MediaSpan { start, end: ticks_after(start, held_duration(start, timestamp) as u64) },
        ],
        _ => Seq::empty(),
    };
    if changed {
        flushed.push(
            MediaSpan {
                start: before.change_start(timestamp),
                end: ticks_after(before.change_start(timestamp), before.frame_duration),
            },
        )
    } else {
        flushed
    }
}

/// The cadence after one observation.
pub open spec fn observed(
    before: AdaptiveMediaCadence,
    timestamp: u64,
    changed: bool,
) -> AdaptiveMediaCadence {
    if changed {
        before.after_change(timestamp)
    } else if before.still_due(timestamp) {
        AdaptiveMediaCadence {
            media_end: before.still_start(timestamp),
            pending_timestamp: Some(before.still_start(timestamp)),
            ..before
        }
    } else {
        before
    }
}

/// The cadence after a run of observations.
pub open spec fn observed_all(
    before: AdaptiveMediaCadence,
    frames: Seq<(u64, bool)>,
) -> AdaptiveMediaCadence
    decreases frames.len(),
{
    if frames.len() == 0 {
        before
    } else {
        let earlier = observed_all(before, frames.drop_last());
        observed(earlier, frames.last().0, frames.last().1)
    }
}

/// The samples sent over a run of observations, in sending order.
pub open spec fn sent_by_all(before: AdaptiveMediaCadence, frames: Seq<(u64, bool)>) -> Seq<
    MediaSpan,
>
    decreases frames.len(),
{
    if frames.len() == 0 {
        Seq::empty()
    } else {
        let earlier = observed_all(before, frames.drop_last());
        sent_by_all(before, frames.drop_last()) + sent_by(
            earlier,
            frames.last().0,
            frames.last().1,
        )
    }
}

/// Whatever frames a publisher captures, and in whatever order their timestamps come,
/// no published sample overlaps an earlier one: each starts at or after the end of all
/// samples sent before it, and the cadence never reports less than their end.
pub proof fn published_samples_never_overlap(
    before: AdaptiveMediaCadence,
    frames: Seq<(u64, bool)>,
)
    requires
        before.wf(),
    ensures
        forall|i: int, j: int|
            0 <= i < j < sent_by_all(before, frames).len() ==> (
            #[trigger] sent_by_all(before, frames)[i]).end <= (#[trigger] sent_by_all(
                before,
                frames,
            )[j]).start,
        forall|i: int|
            0 <= i < sent_by_all(before, frames).len() ==> {
                &&& before.media_end <= (#[trigger] sent_by_all(before, frames)[i]).start
                &&& sent_by_all(before, frames)[i].start <= sent_by_all(before, frames)[i].end
                &&& sent_by_all(before, frames)[i].end <= observed_all(before, frames).media_end
            },
        before.media_end <= observed_all(before, frames).media_end,
        observed_all(before, frames).wf(),
    decreases frames.len(),
{
    if frames.len() > 0 {
        published_samples_never_overlap(before, frames.drop_last());
        let earlier = observed_all(before, frames.drop_last());
        let (timestamp, changed) = frames.last();
        let sent = sent_by_all(before, frames.drop_last());
        let added = sent_by(earlier, timestamp, changed);
        let all = sent_by_all(before, frames);
        lemma_one_observation_sends_in_order(earlier, timestamp, changed);
        assert(all == sent + added);
        assert(observed_all(before, frames) == observed(earlier, timestamp, changed));
        assert forall|i: int, j: int| 0 <= i < j < all.len() implies (#[trigger] all[i]).end <= (
        #[trigger] all[j]).start by {
            if j >= sent.len() {
                assert(all[j] == added[j - sent.len()]);
                if i >= sent.len() {
                    assert(all[i] == added[i - sent.len()]);
                } else {
                    assert(all[i] == sent[i]);
                }
            } else {
                assert(all[i] == sent[i] && all[j] == sent[j]);
            }
        }
        assert forall|i: int| 0 <= i < all.len() implies {
            &&& before.media_end <= (#[trigger] all[i]).start
            &&& all[i].start <= all[i].end
            &&& all[i].end <= observed_all(before, frames).media_end
        } by {
            if i >= sent.len() {
                assert(all[i] == added[i - sent.len()]);
            } else {
                assert(all[i] == sent[i]);
            }
        }
    }
}

/// The sample that ending a cadence sends: the held frame, if there is one.
pub open spec fn sent_by_finish(before: AdaptiveMediaCadence, timestamp: u64) -> Seq<MediaSpan> {
    match before.pending_timestamp {
        Some(start) => seq![
            MediaSpan { start, end: ticks_after(start, held_duration(start, timestamp) as u64) },
        ],
        None => Seq::empty(),
    }
}

/// What ending a cadence sends does not overlap anything either: over a whole session, the
/// last held frame included, each sample starts at or after the end of all samples sent
/// before it, and the session ends no earlier than any of them.
pub proof fn finished_sessions_never_overlap(
    before: AdaptiveMediaCadence,
    frames: Seq<(u64, bool)>,
    timestamp: u64,
)
    requires
        before.wf(),
    ensures
        ({
            let last = observed_all(before, frames);
            let sent = sent_by_all(before, frames) + sent_by_finish(last, timestamp);
            &&& forall|i: int, j: int|
                0 <= i < j < sent.len() ==> (#[trigger] sent[i]).end <= (#[trigger] sent[j]).start
            &&& forall|i: int|
                0 <= i < sent.len() ==> {
                    &&& before.media_end <= (#[trigger] sent[i]).start
                    &&& sent[i].start <= sent[i].end
                    &&& sent[i].end <= last.finished(timestamp).media_end
                }
            &&& last.finished(timestamp).pending_timestamp is None
        }),
{
    published_samples_never_overlap(before, frames);
    let last = observed_all(before, frames);
    let earlier = sent_by_all(before, frames);
    let added = sent_by_finish(last, timestamp);
    let sent = earlier + added;
    assert forall|i: int| 0 <= i < sent.len() implies {
        &&& before.media_end <= (#[trigger] sent[i]).start
        &&& sent[i].start <= sent[i].end
        &&& sent[i].end <= last.finished(timestamp).media_end
    } by {
        if i < earlier.len() {
            assert(sent[i] == earlier[i]);
        } else {
            assert(sent[i] == added[0]);
        }
    }
    assert forall|i: int, j: int| 0 <= i < j < sent.len() implies (#[trigger] sent[i]).end <= (
    #[trigger] sent[j]).start by {
        assert(sent[i] == earlier[i]);
        if j < earlier.len() {
            assert(sent[j] == earlier[j]);
        } else {
            assert(sent[j] == added[0]);
        }
    }
}

/// The samples of one observation start at or after the published end, follow one
/// another, and end at or before the new published end.
proof fn lemma_one_observation_sends_in_order(
    before: AdaptiveMediaCadence,
    timestamp: u64,
    changed: bool,
)
    requires
        before.wf(),
    ensures
        observed(before, timestamp, changed).wf(),
        before.media_end <= observed(before, timestamp, changed).media_end,
        forall|i: int|
            0 <= i < sent_by(before, timestamp, changed).len() ==> {
                &&& before.media_end <= (#[trigger] sent_by(before, timestamp, changed)[i]).start
                &&& sent_by(before, timestamp, changed)[i].start <= sent_by(
                    before,
                    timestamp,
                    changed,
                )[i].end
                &&& sent_by(before, timestamp, changed)[i].end <= observed(
                    before,
                    timestamp,
                    changed,
                ).media_end
            },
        forall|i: int, j: int|
            0 <= i < j < sent_by(before, timestamp, changed).len() ==> (#[trigger] sent_by(
                before,
                timestamp,
                changed,
            )[i]).end <= (#[trigger] sent_by(before, timestamp, changed)[j]).start,
{
}

/// While the screen is still, every heartbeat repeats the frame: an unchanged frame
/// captured a heartbeat or more after the held one sends it and holds the next.
pub proof fn still_screen_is_repeated_each_heartbeat(
    before: AdaptiveMediaCadence,
    start: u64,
    timestamp: u64,
)
    requires
        before.pending_timestamp == Some(start),
        timestamp >= start + before.heartbeat_ticks,
    ensures
        before.still_due(timestamp),
        sent_by(before, timestamp, false).len() == 1,
        sent_by(before, timestamp, false)[0].start == start,
        observed(before, timestamp, false).pending_timestamp is Some,
{
}

} // verus!

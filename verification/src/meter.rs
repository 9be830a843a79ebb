//! How fast a compositor feeds a capture.
//!
//! Moments and spans count nanoseconds of one monotonic clock.

use vstd::prelude::*;

verus! {

/// Nanoseconds over which the meter counts before it reports.
pub const CAPTURE_RATE_WINDOW_NANOS: u64 = 5_000_000_000;

/// Counts buffers and cursor samples.
#[derive(Clone, Copy, Debug, PartialEq, Eq, Structural)]
pub struct CaptureRateMeter {
    /// When the window began.
    pub window_started: u64,
    /// Buffers in it.
    pub buffers: u32,
    /// Cursor samples in it.
    pub cursor_samples: u32,
    /// The last cursor sample, of this window or an earlier one.
    pub last_cursor_sample: Option<u64>,
    /// The longest pause between two cursor samples that ended in it.
    pub max_cursor_gap: u64,
}

/// What a window counted.
#[derive(Clone, Copy, Debug, PartialEq, Eq, Structural)]
pub struct CaptureCounts {
    /// Buffers.
    pub buffers: u32,
    /// Cursor samples.
    pub cursor_samples: u32,
    /// How long the window was.
    pub elapsed: u64,
    /// The longest pause between two cursor samples.
    pub max_cursor_gap: u64,
}

/// The span from one moment to another, none if it lies before.
pub open spec fn span(from: u64, to: u64) -> u64 {
    if to < from {
        0
    } else {
        (to - from) as u64
    }
}

/// One more, up to the largest count.
pub open spec fn one_more(count: u32) -> u32 {
    if count == u32::MAX {
        count
    } else {
        (count + 1) as u32
    }
}

impl CaptureRateMeter {
    /// A meter whose first window begins now.
    pub fn new(now: u64) -> (meter: Self)
        ensures
            meter == CaptureRateMeter::started(now, None),
    {
        CaptureRateMeter {
            window_started: now,
            buffers: 0,
            cursor_samples: 0,
            last_cursor_sample: None,
            max_cursor_gap: 0,
        }
    }

    /// A meter at the beginning of a window.
    pub open spec fn started(now: u64, last_cursor_sample: Option<u64>) -> CaptureRateMeter {
        CaptureRateMeter {
            window_started: now,
            buffers: 0,
            cursor_samples: 0,
            last_cursor_sample,
            max_cursor_gap: 0,
        }
    }

    /// The meter with one more buffer.
    pub open spec fn counted(self, now: u64, cursor_changed: bool) -> CaptureRateMeter {
        if !cursor_changed {
            CaptureRateMeter { buffers: one_more(self.buffers), ..self }
        } else {
            CaptureRateMeter {
                buffers: one_more(self.buffers),
                cursor_samples: one_more(self.cursor_samples),
                last_cursor_sample: Some(now),
                max_cursor_gap: match self.last_cursor_sample {
                    Some(previous) => if span(previous, now) > self.max_cursor_gap {
                        span(previous, now)
                    } else {
                        self.max_cursor_gap
                    },
                    None => self.max_cursor_gap,
                },
                ..self
            }
        }
    }

    /// What is reported with one more buffer: the whole window, once it is full.
    pub open spec fn report(self, now: u64, cursor_changed: bool) -> Option<CaptureCounts> {
        let counted = self.counted(now, cursor_changed);
        if span(self.window_started, now) < CAPTURE_RATE_WINDOW_NANOS {
            None
        } else {
            Some(
                CaptureCounts {
                    buffers: counted.buffers,
                    cursor_samples: counted.cursor_samples,
                    elapsed: span(self.window_started, now),
                    max_cursor_gap: counted.max_cursor_gap,
                },
            )
        }
    }

    /// The meter behind one more buffer: with what is reported, a new window begins.
    pub open spec fn behind(self, now: u64, cursor_changed: bool) -> CaptureRateMeter {
        let counted = self.counted(now, cursor_changed);
        if self.report(now, cursor_changed) is None {
            counted
        } else {
            CaptureRateMeter::started(now, counted.last_cursor_sample)
        }
    }

    /// Counts a buffer. Once the window is full it is reported and the next one begins.
    pub fn record(&mut self, now: u64, cursor_changed: bool) -> (counts: Option<CaptureCounts>)
        ensures
            counts == old(self).report(now, cursor_changed),
            *final(self) == old(self).behind(now, cursor_changed),
    {
        self.buffers = self.buffers.saturating_add(1);
        if cursor_changed {
            self.cursor_samples = self.cursor_samples.saturating_add(1);
            match self.last_cursor_sample {
                Some(previous) => {
                    let gap: u64 = now.saturating_sub(previous);
                    if gap > self.max_cursor_gap {
                        self.max_cursor_gap = gap;
                    }
                },
                None => {},
            }
            self.last_cursor_sample = Some(now);
        }
        let elapsed: u64 = now.saturating_sub(self.window_started);
        if elapsed < CAPTURE_RATE_WINDOW_NANOS {
            return None;
        }
        let counts = CaptureCounts {
            buffers: self.buffers,
            cursor_samples: self.cursor_samples,
            elapsed,
            max_cursor_gap: self.max_cursor_gap,
        };
        let last_cursor_sample = self.last_cursor_sample;
        *self = CaptureRateMeter::new(now);
        self.last_cursor_sample = last_cursor_sample;
        Some(counts)
    }
}

/// Counts a delivered buffer; what a full window counted is there to be reported.
pub fn report_capture_rate(meter: &mut CaptureRateMeter, now: u64, cursor_changed: bool) -> (counts:
    Option<CaptureCounts>)
    ensures
        counts == old(meter).report(now, cursor_changed),
        *final(meter) == old(meter).behind(now, cursor_changed),
{
    meter.record(now, cursor_changed)
}

/// A pause that began in one window and ended in the next is measured whole.
pub proof fn pauses_across_windows_are_measured(
    meter: CaptureRateMeter,
    last: u64,
    boundary: u64,
    now: u64,
)
    requires
        last <= boundary <= now,
        meter.last_cursor_sample == Some(last),
        meter.report(boundary, false) is Some,
    ensures
        meter.behind(boundary, false).counted(now, true).max_cursor_gap == now - last,
{
}

/// One call of [`CaptureRateMeter::record`].
pub struct BufferRecord {
    /// When the buffer was delivered.
    pub at: u64,
    /// Whether it carried a cursor sample.
    pub cursor_changed: bool,
}

/// A meter that was made at a time, after a run of records.
pub open spec fn meter_after(start: u64, records: Seq<BufferRecord>) -> CaptureRateMeter
    decreases records.len(),
{
    if records.len() == 0 {
        CaptureRateMeter::started(start, None)
    } else {
        meter_after(start, records.drop_last()).behind(
            records.last().at,
            records.last().cursor_changed,
        )
    }
}

/// What the record at a place of a run returned.
pub open spec fn reported_at(start: u64, records: Seq<BufferRecord>, index: int) -> Option<
    CaptureCounts,
> {
    meter_after(start, records.take(index)).report(records[index].at, records[index].cursor_changed)
}

/// Whether the clock did not go back during a run of records.
pub open spec fn in_time_order(start: u64, records: Seq<BufferRecord>) -> bool {
    &&& forall|i: int| 0 <= i < records.len() ==> start <= (#[trigger] records[i]).at
    &&& forall|i: int, j: int|
        0 <= i <= j < records.len() ==> (#[trigger] records[i]).at <= (#[trigger] records[j]).at
}

/// Whether the window that is open behind a run of records begins with the record at a
/// place: the one before it reported, and none since.
pub open spec fn window_opens_at(start: u64, records: Seq<BufferRecord>, first: int) -> bool {
    &&& 0 <= first <= records.len()
    &&& first > 0 ==> reported_at(start, records, first - 1) is Some
    &&& forall|i: int|
        first <= i < records.len() ==> (#[trigger] reported_at(start, records, i)) is None
}

/// When the window that begins with the record at a place was opened.
pub open spec fn window_start(start: u64, records: Seq<BufferRecord>, first: int) -> u64 {
    if first == 0 {
        start
    } else {
        records[first - 1].at
    }
}

/// Number of cursor samples in a run of records.
pub open spec fn samples_in(records: Seq<BufferRecord>) -> nat
    decreases records.len(),
{
    if records.len() == 0 {
        0
    } else {
        samples_in(records.drop_last()) + if records.last().cursor_changed {
            1nat
        } else {
            0
        }
    }
}

/// Whether two records carry cursor samples and none between them does.
pub open spec fn consecutive_samples(records: Seq<BufferRecord>, i: int, j: int) -> bool {
    &&& 0 <= i < j < records.len()
    &&& records[i].cursor_changed
    &&& records[j].cursor_changed
    &&& forall|k: int| i < k < j ==> !(#[trigger] records[k]).cursor_changed
}

/// Whether a span is the longest between two consecutive cursor samples of which the later
/// one stands at a place or behind it, zero if there are no such two. The earlier one may
/// stand before the place.
pub open spec fn is_longest_pause(records: Seq<BufferRecord>, first: int, pause: u64) -> bool {
    &&& forall|i: int, j: int| #[trigger]
        consecutive_samples(records, i, j) && first <= j ==> records[j].at - records[i].at <= pause
    &&& pause == 0 || exists|i: int, j: int| #[trigger]
        consecutive_samples(records, i, j) && first <= j && records[j].at - records[i].at == pause
}

/// A count held at the largest number.
pub open spec fn held(count: nat) -> u32 {
    if count > u32::MAX {
        u32::MAX
    } else {
        count as u32
    }
}

/// A meter reports a record if and only if five seconds have passed since its window was
/// opened, which is when it was made or when it last reported. It then reports how many
/// records and how many cursor samples came since, this one included, how long that took,
/// and the longest pause between two consecutive cursor samples that ended in the window,
/// even where the pause began in an earlier one.
pub proof fn windows_are_reported_whole(start: u64, records: Seq<BufferRecord>, first: int)
    requires
        records.len() > 0,
        in_time_order(start, records),
        window_opens_at(start, records.drop_last(), first),
    ensures
        ({
            let opened = window_start(start, records, first);
            let now = records.last().at;
            let report = reported_at(start, records, records.len() - 1);
            &&& report is Some <==> now - opened >= CAPTURE_RATE_WINDOW_NANOS
            &&& report matches Some(counts) ==> {
                &&& counts.elapsed == now - opened
                &&& counts.buffers == held((records.len() - first) as nat)
                &&& counts.cursor_samples == held(samples_in(records.skip(first)))
                &&& is_longest_pause(records, first, counts.max_cursor_gap)
            }
        }),
{
    let earlier = records.drop_last();
    let meter = meter_after(start, earlier);
    let last = records.last();
    assert(records.take(records.len() - 1) =~= earlier);
    assert(records =~= earlier.push(last));
    assert(in_time_order(start, earlier)) by {
        assert forall|i: int, j: int| 0 <= i <= j < earlier.len() implies (
        #[trigger] earlier[i]).at <= (#[trigger] earlier[j]).at by {
            assert(records[i].at <= records[j].at);
        }
        assert forall|i: int| 0 <= i < earlier.len() implies start <= (#[trigger] earlier[i]).at by {
            assert(start <= records[i].at);
        }
    }
    lemma_open_window(start, earlier, first);
    lemma_last_sample(start, earlier);
    assert forall|i: int| 0 <= i < earlier.len() implies (#[trigger] earlier[i]).at <= last.at by {
        assert(records[i].at <= records[records.len() - 1].at);
    }
    lemma_pause_counted(earlier, first, last, meter);
    if first > 0 {
        assert(earlier[first - 1] == records[first - 1]);
        assert(records[first - 1].at <= records[records.len() - 1].at);
    } else {
        assert(start <= records[records.len() - 1].at);
    }
    lemma_samples_push(earlier, first, last);
}

/// One more record adds to the samples of a window what it carries.
proof fn lemma_samples_push(records: Seq<BufferRecord>, first: int, last: BufferRecord)
    requires
        0 <= first <= records.len(),
    ensures
        samples_in(records.push(last).skip(first)) == samples_in(records.skip(first)) + (
        if last.cursor_changed {
            1nat
        } else {
            0
        }),
{
    let window = records.push(last).skip(first);
    assert(window.drop_last() =~= records.skip(first));
    assert(window.last() == last);
}

/// Whether a moment is that of the last cursor sample of a run, if there is one.
spec fn is_last_sample(records: Seq<BufferRecord>, sample: Option<u64>) -> bool {
    match sample {
        None => forall|k: int| 0 <= k < records.len() ==> !(#[trigger] records[k]).cursor_changed,
        Some(at) => exists|i: int|
            {
                &&& 0 <= i < records.len()
                &&& #[trigger] records[i].cursor_changed
                &&& records[i].at == at
                &&& forall|k: int| i < k < records.len() ==> !(#[trigger] records[k]).cursor_changed
            },
    }
}

/// A meter remembers the last cursor sample across windows.
proof fn lemma_last_sample(start: u64, records: Seq<BufferRecord>)
    ensures
        is_last_sample(records, meter_after(start, records).last_cursor_sample),
    decreases records.len(),
{
    if records.len() > 0 {
        let earlier = records.drop_last();
        lemma_last_sample(start, earlier);
        let sample = meter_after(start, earlier).last_cursor_sample;
        if records.last().cursor_changed {
            assert(records[records.len() - 1].cursor_changed);
        } else if sample is Some {
            let i = choose|i: int|
                {
                    &&& 0 <= i < earlier.len()
                    &&& #[trigger] earlier[i].cursor_changed
                    &&& earlier[i].at == sample->0
                    &&& forall|k: int|
                        i < k < earlier.len() ==> !(#[trigger] earlier[k]).cursor_changed
                };
            assert(records[i].cursor_changed);
            assert forall|k: int| i < k < records.len() implies !(
            #[trigger] records[k]).cursor_changed by {
                if k < earlier.len() {
                    assert(records[k] == earlier[k]);
                }
            }
        } else {
            assert forall|k: int| 0 <= k < records.len() implies !(
            #[trigger] records[k]).cursor_changed by {
                if k < earlier.len() {
                    assert(records[k] == earlier[k]);
                }
            }
        }
    }
}

/// Counting a record keeps the longest pause.
proof fn lemma_pause_counted(
    records: Seq<BufferRecord>,
    first: int,
    last: BufferRecord,
    meter: CaptureRateMeter,
)
    requires
        0 <= first <= records.len(),
        is_last_sample(records, meter.last_cursor_sample),
        is_longest_pause(records, first, meter.max_cursor_gap),
        forall|i: int| 0 <= i < records.len() ==> (#[trigger] records[i]).at <= last.at,
    ensures
        is_longest_pause(
            records.push(last),
            first,
            meter.counted(last.at, last.cursor_changed).max_cursor_gap,
        ),
{
    let all = records.push(last);
    let pause = meter.counted(last.at, last.cursor_changed).max_cursor_gap;
    let count = records.len() as int;
    assert forall|i: int, j: int| 0 <= i < j < count implies consecutive_samples(all, i, j)
        == #[trigger] consecutive_samples(records, i, j) by {
        if consecutive_samples(records, i, j) {
            assert forall|k: int| i < k < j implies !(#[trigger] all[k]).cursor_changed by {
                assert(all[k] == records[k]);
            }
        }
        if consecutive_samples(all, i, j) {
            assert forall|k: int| i < k < j implies !(#[trigger] records[k]).cursor_changed by {
                assert(all[k] == records[k]);
            }
        }
    }
    assert forall|i: int, j: int| #[trigger]
        consecutive_samples(all, i, j) && first <= j implies all[j].at - all[i].at <= pause by {
        if j < count {
            assert(consecutive_samples(records, i, j));
        } else {
            assert(records[i].cursor_changed);
            assert(meter.last_cursor_sample is Some);
            let at = meter.last_cursor_sample->0;
            let s = choose|s: int|
                {
                    &&& 0 <= s < records.len()
                    &&& #[trigger] records[s].cursor_changed
                    &&& records[s].at == at
                    &&& forall|k: int|
                        s < k < records.len() ==> !(#[trigger] records[k]).cursor_changed
                };
            if s > i {
                assert(all[s].cursor_changed);
            }
            assert(s == i);
        }
    }
    if pause != 0 {
        if pause == meter.max_cursor_gap {
            let (i, j) = choose|i: int, j: int| #[trigger]
                consecutive_samples(records, i, j) && first <= j && records[j].at - records[i].at
                    == pause;
            assert(consecutive_samples(all, i, j));
        } else {
            let at = meter.last_cursor_sample->0;
            let s = choose|s: int|
                {
                    &&& 0 <= s < records.len()
                    &&& #[trigger] records[s].cursor_changed
                    &&& records[s].at == at
                    &&& forall|k: int|
                        s < k < records.len() ==> !(#[trigger] records[k]).cursor_changed
                };
            assert(consecutive_samples(all, s, count)) by {
                assert forall|k: int| s < k < count implies !(#[trigger] all[k]).cursor_changed by {
                    assert(all[k] == records[k]);
                }
            }
        }
    }
}

/// What a meter holds of the window that is open.
proof fn lemma_open_window(start: u64, records: Seq<BufferRecord>, first: int)
    requires
        in_time_order(start, records),
        window_opens_at(start, records, first),
    ensures
        ({
            let meter = meter_after(start, records);
            &&& meter.window_started == window_start(start, records, first)
            &&& meter.buffers == held((records.len() - first) as nat)
            &&& meter.cursor_samples == held(samples_in(records.skip(first)))
            &&& is_longest_pause(records, first, meter.max_cursor_gap)
        }),
    decreases records.len(),
{
    let meter = meter_after(start, records);
    if records.len() == 0 {
        assert(records.skip(first) =~= Seq::<BufferRecord>::empty());
    } else {
        let earlier = records.drop_last();
        let last = records.last();
        let count = records.len() as int;
        let before = meter_after(start, earlier);
        assert(records.take(count - 1) =~= earlier);
        if first == count {
            assert(reported_at(start, records, count - 1) is Some);
            assert(records.skip(first) =~= Seq::<BufferRecord>::empty());
        } else {
            assert(reported_at(start, records, count - 1) is None);
            assert(records =~= earlier.push(last));
            assert(window_opens_at(start, earlier, first)) by {
                if first > 0 {
                    assert(earlier.take(first - 1) =~= records.take(first - 1));
                }
                assert forall|i: int| first <= i < earlier.len() implies (#[trigger] reported_at(
                    start,
                    earlier,
                    i,
                )) is None by {
                    assert(earlier.take(i) =~= records.take(i));
                    assert(reported_at(start, records, i) is None);
                }
            }
            assert(in_time_order(start, earlier)) by {
                assert forall|i: int, j: int| 0 <= i <= j < earlier.len() implies (
                #[trigger] earlier[i]).at <= (#[trigger] earlier[j]).at by {
                    assert(records[i].at <= records[j].at);
                }
                assert forall|i: int| 0 <= i < earlier.len() implies start <= (
                #[trigger] earlier[i]).at by {
                    assert(start <= records[i].at);
                }
            }
            lemma_open_window(start, earlier, first);
            lemma_last_sample(start, earlier);
            assert forall|i: int| 0 <= i < earlier.len() implies (#[trigger] earlier[i]).at
                <= last.at by {
                assert(records[i].at <= records[count - 1].at);
            }
            lemma_pause_counted(earlier, first, last, before);
            lemma_samples_push(earlier, first, last);
        }
    }
}

} // verus!

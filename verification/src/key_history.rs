//! The content keys that a publisher keeps for viewers who are approved later.

use vstd::prelude::*;

use crate::order::{
    in_order,
    sorted_items_are_in_order,
    sorting_keeps_every_item,
    stable_sort,
    stable_sorted,
};

verus! {

/// Version of the key history file.
pub const KEY_HISTORY_VERSION: u16 = 1;

/// Bytes that a key history file may have.
pub const MAX_KEY_HISTORY_BYTES: usize = 16_777_216;

/// Groups that a key history may hold.
pub const MAX_KEY_HISTORY_GROUPS: usize = 65_536;

/// The content key of one key group and what was published under it.
#[derive(Clone, Copy, Debug)]
pub struct RetainedGroupKey {
    /// Stream that the group belongs to.
    pub stream_id: u128,
    /// Epoch of the group.
    pub epoch_id: u128,
    /// Number of the group within its epoch.
    pub key_group_id: u64,
    /// Identifier of the content key.
    pub key_id: [u8; 16],
    /// The content key.
    pub content_key: [u8; 32],
    /// When the group was opened.
    pub created_at_ms: i64,
    /// Bytes that were acknowledged under the group.
    pub content_bytes: u64,
}

impl RetainedGroupKey {
    /// True once at least one acknowledged byte exists under this group: a relay refuses
    /// envelopes for groups that it holds nothing of.
    pub fn has_published_content(&self) -> (published: bool)
        ensures
            published == (self.content_bytes > 0),
    {
        self.content_bytes > 0
    }
}

/// Why a key history file is refused.
#[derive(Clone, Copy, Debug, PartialEq, Eq, Structural)]
pub enum KeyHistoryError {
    /// It is invalid, or not in its one canonical form.
    NotCanonical,
    /// It is larger than a key history may be.
    TooLarge,
}

/// Accepts a decoded key history: `unread` bytes followed it, and `canonical` says that it
/// encodes to the very bytes that it was read from.
pub fn accept_key_history(
    version: u16,
    groups: Vec<RetainedGroupKey>,
    unread: usize,
    canonical: bool,
) -> (result: Result<Vec<RetainedGroupKey>, KeyHistoryError>)
    ensures
        match result {
            Ok(accepted) => {
                &&& unread == 0
                &&& version == KEY_HISTORY_VERSION
                &&& canonical
                &&& groups@.len() <= MAX_KEY_HISTORY_GROUPS
                &&& accepted@ == groups@
            },
            Err(error) => {
                &&& error == KeyHistoryError::NotCanonical
                &&& unread > 0 || version != KEY_HISTORY_VERSION || !canonical || groups@.len()
                    > MAX_KEY_HISTORY_GROUPS
            },
        },
{
    if unread > 0 || version != KEY_HISTORY_VERSION || !canonical || groups.len()
        > MAX_KEY_HISTORY_GROUPS {
        return Err(KeyHistoryError::NotCanonical);
    }
    Ok(groups)
}

/// Checks the size of an encoded key history before it is written.
pub fn check_encoded_size(encoded_len: usize) -> (result: Result<(), KeyHistoryError>)
    ensures
        result == if encoded_len > MAX_KEY_HISTORY_BYTES {
            Err::<(), KeyHistoryError>(KeyHistoryError::TooLarge)
        } else {
            Ok::<(), KeyHistoryError>(())
        },
{
    if encoded_len > MAX_KEY_HISTORY_BYTES {
        Err(KeyHistoryError::TooLarge)
    } else {
        Ok(())
    }
}

/// Whether a group is no older than a maximum age. The largest age keeps everything.
pub open spec fn is_fresh(group: RetainedGroupKey, now_ms: i64, max_age_ms: i64) -> bool {
    now_ms - group.created_at_ms <= max_age_ms || max_age_ms == i64::MAX
}

/// The groups that are no older than a maximum age, in their order.
pub open spec fn fresh_groups(groups: Seq<RetainedGroupKey>, now_ms: i64, max_age_ms: i64) -> Seq<
    RetainedGroupKey,
>
    decreases groups.len(),
{
    if groups.len() == 0 {
        Seq::empty()
    } else {
        let before = fresh_groups(groups.drop_last(), now_ms, max_age_ms);
        if is_fresh(groups.last(), now_ms, max_age_ms) {
            before.push(groups.last())
        } else {
            before
        }
    }
}

/// Bytes that were published under some groups.
pub open spec fn published_bytes(groups: Seq<RetainedGroupKey>) -> nat
    decreases groups.len(),
{
    if groups.len() == 0 {
        0
    } else {
        groups.first().content_bytes as nat + published_bytes(groups.drop_first())
    }
}

/// Whether some groups are within a byte limit. The largest limit keeps everything.
pub open spec fn within_bytes(groups: Seq<RetainedGroupKey>, max_content_bytes: u64) -> bool {
    published_bytes(groups) <= max_content_bytes || max_content_bytes == u64::MAX
}

/// The newest groups within a byte limit: the oldest leave until the rest fits, but the
/// newest always stays.
pub open spec fn newest_within(groups: Seq<RetainedGroupKey>, max_content_bytes: u64) -> Seq<
    RetainedGroupKey,
>
    decreases groups.len(),
{
    if groups.len() <= 1 || within_bytes(groups, max_content_bytes) {
        groups
    } else {
        newest_within(groups.drop_first(), max_content_bytes)
    }
}

/// What is left of a key history.
pub open spec fn pruned(
    groups: Seq<RetainedGroupKey>,
    now_ms: i64,
    max_content_bytes: u64,
    max_age_ms: i64,
) -> Seq<RetainedGroupKey> {
    newest_within(fresh_groups(groups, now_ms, max_age_ms), max_content_bytes)
}

proof fn lemma_skip_drop_first(groups: Seq<RetainedGroupKey>, from: int)
    requires
        0 <= from < groups.len(),
    ensures
        groups.skip(from).drop_first() == groups.skip(from + 1),
        groups.skip(from).first() == groups[from],
{
    assert(groups.skip(from).drop_first() =~= groups.skip(from + 1));
}

proof fn lemma_published_bytes_grow(groups: Seq<RetainedGroupKey>, from: int, to: int)
    requires
        0 <= from <= to <= groups.len(),
    ensures
        published_bytes(groups.skip(from)) >= published_bytes(groups.skip(to)),
    decreases to - from,
{
    if from < to {
        lemma_skip_drop_first(groups, from);
        lemma_published_bytes_grow(groups, from + 1, to);
    }
}

/// A suffix over the limit is not kept, and the longest one within it is.
proof fn lemma_newest_start(
    groups: Seq<RetainedGroupKey>,
    at: int,
    start: int,
    max_content_bytes: u64,
)
    requires
        0 <= at <= start < groups.len(),
        start == groups.len() - 1 || within_bytes(groups.skip(start), max_content_bytes),
        start > 0 ==> !within_bytes(groups.skip(start - 1), max_content_bytes),
    ensures
        newest_within(groups.skip(at), max_content_bytes) == groups.skip(start),
    decreases start - at,
{
    if at < start {
        lemma_published_bytes_grow(groups, at, start - 1);
        lemma_skip_drop_first(groups, at);
        lemma_newest_start(groups, at + 1, start, max_content_bytes);
    }
}

/// Drops the groups that are too old, then the oldest ones that are over the byte limit.
pub fn prune_key_history(
    groups: &mut Vec<RetainedGroupKey>,
    now_ms: i64,
    max_content_bytes: u64,
    max_age_ms: i64,
)
    ensures
        final(groups)@ == pruned(old(groups)@, now_ms, max_content_bytes, max_age_ms),
{
    let ghost all = groups@;
    let mut fresh: Vec<RetainedGroupKey> = Vec::new();
    let count: usize = groups.len();
    let mut i: usize = 0;
    while i < count
        invariant
            i <= count == groups@.len(),
            groups@ == all,
            fresh@ == fresh_groups(all.take(i as int), now_ms, max_age_ms),
        decreases count - i,
    {
        let group = groups[i];
        assert(all.take(i + 1).drop_last() =~= all.take(i as int));
        if now_ms as i128 - group.created_at_ms as i128 <= max_age_ms as i128 || max_age_ms
            == i64::MAX {
            fresh.push(group);
        }
        i += 1;
    }
    assert(all.take(count as int) =~= all);
    let total: usize = fresh.len();
    let mut retained: u64 = 0;
    let mut start: usize = total;
    let mut over = false;
    assert(published_bytes(fresh@.skip(total as int)) == 0);
    while start > 0 && !over
        invariant
            start <= total == fresh@.len(),
            retained == if published_bytes(fresh@.skip(start as int)) > u64::MAX {
                u64::MAX as nat
            } else {
                published_bytes(fresh@.skip(start as int))
            },
            start < total - 1 ==> within_bytes(fresh@.skip(start as int), max_content_bytes),
            over ==> 0 < start < total && !within_bytes(
                fresh@.skip(start - 1),
                max_content_bytes,
            ),
        decreases start + (if over { 0int } else { 1int }),
    {
        proof {
            lemma_skip_drop_first(fresh@, start - 1);
        }
        let next: u64 = retained.saturating_add(fresh[start - 1].content_bytes);
        if next > max_content_bytes && start < total {
            over = true;
        } else {
            retained = next;
            start -= 1;
        }
    }
    proof {
        assert(fresh@.skip(0) =~= fresh@);
        if total > 0 {
            lemma_newest_start(fresh@, 0, start as int, max_content_bytes);
        }
    }
    *groups = fresh.split_off(start);
}

/// Pruning keeps the longest run of the newest fresh groups that is within the byte limit,
/// in their order: one more group would be over it. The newest always stays.
pub proof fn pruning_keeps_the_newest(
    groups: Seq<RetainedGroupKey>,
    now_ms: i64,
    max_content_bytes: u64,
    max_age_ms: i64,
)
    ensures
        ({
            let fresh = fresh_groups(groups, now_ms, max_age_ms);
            let kept = pruned(groups, now_ms, max_content_bytes, max_age_ms);
            &&& kept.len() <= fresh.len()
            &&& kept == fresh.skip(fresh.len() - kept.len())
            &&& fresh.len() > 0 ==> kept.len() > 0 && kept.last() == fresh.last()
            &&& kept.len() > 1 ==> within_bytes(kept, max_content_bytes)
            &&& forall|start: int|
                0 <= start < fresh.len() - kept.len() ==> !within_bytes(
                    #[trigger] fresh.skip(start),
                    max_content_bytes,
                )
            &&& forall|i: int|
                0 <= i < kept.len() ==> is_fresh(#[trigger] kept[i], now_ms, max_age_ms)
        }),
{
    let fresh = fresh_groups(groups, now_ms, max_age_ms);
    lemma_newest_is_suffix(fresh, max_content_bytes);
    lemma_fresh_groups_are_fresh(groups, now_ms, max_age_ms);
}

/// Pruning again at the same time with the same limits changes nothing.
pub proof fn pruning_twice_is_pruning_once(
    groups: Seq<RetainedGroupKey>,
    now_ms: i64,
    max_content_bytes: u64,
    max_age_ms: i64,
)
    ensures
        ({
            let kept = pruned(groups, now_ms, max_content_bytes, max_age_ms);
            pruned(kept, now_ms, max_content_bytes, max_age_ms) == kept
        }),
{
    let kept = pruned(groups, now_ms, max_content_bytes, max_age_ms);
    pruning_keeps_the_newest(groups, now_ms, max_content_bytes, max_age_ms);
    lemma_all_fresh(kept, now_ms, max_age_ms);
}

/// What is within both limits stays whole.
pub proof fn history_within_limits_stays(
    groups: Seq<RetainedGroupKey>,
    now_ms: i64,
    max_content_bytes: u64,
    max_age_ms: i64,
)
    requires
        forall|i: int| 0 <= i < groups.len() ==> is_fresh(#[trigger] groups[i], now_ms, max_age_ms),
        within_bytes(groups, max_content_bytes),
    ensures
        pruned(groups, now_ms, max_content_bytes, max_age_ms) == groups,
{
    lemma_all_fresh(groups, now_ms, max_age_ms);
}

proof fn lemma_newest_is_suffix(groups: Seq<RetainedGroupKey>, max_content_bytes: u64)
    ensures
        ({
            let kept = newest_within(groups, max_content_bytes);
            &&& kept.len() <= groups.len()
            &&& kept == groups.skip(groups.len() - kept.len())
            &&& groups.len() > 0 ==> kept.len() > 0 && kept.last() == groups.last()
            &&& kept.len() > 1 ==> within_bytes(kept, max_content_bytes)
            &&& forall|start: int|
                0 <= start < groups.len() - kept.len() ==> !within_bytes(
                    #[trigger] groups.skip(start),
                    max_content_bytes,
                )
        }),
    decreases groups.len(),
{
    assert(groups.skip(0) =~= groups);
    if groups.len() > 1 && !within_bytes(groups, max_content_bytes) {
        let rest = groups.drop_first();
        lemma_newest_is_suffix(rest, max_content_bytes);
        let kept = newest_within(rest, max_content_bytes);
        assert(rest.skip(rest.len() - kept.len()) =~= groups.skip(groups.len() - kept.len()));
        assert forall|start: int| 0 <= start < groups.len() - kept.len() implies !within_bytes(
            #[trigger] groups.skip(start),
            max_content_bytes,
        ) by {
            if start > 0 {
                assert(rest.skip(start - 1) =~= groups.skip(start));
            }
        }
    }
}

proof fn lemma_fresh_groups_are_fresh(
    groups: Seq<RetainedGroupKey>,
    now_ms: i64,
    max_age_ms: i64,
)
    ensures
        forall|i: int|
            0 <= i < fresh_groups(groups, now_ms, max_age_ms).len() ==> is_fresh(
                #[trigger] fresh_groups(groups, now_ms, max_age_ms)[i],
                now_ms,
                max_age_ms,
            ),
    decreases groups.len(),
{
    if groups.len() > 0 {
        lemma_fresh_groups_are_fresh(groups.drop_last(), now_ms, max_age_ms);
        let before = fresh_groups(groups.drop_last(), now_ms, max_age_ms);
        let all = fresh_groups(groups, now_ms, max_age_ms);
        assert forall|i: int| 0 <= i < all.len() implies is_fresh(
            #[trigger] all[i],
            now_ms,
            max_age_ms,
        ) by {
            if i < before.len() {
                assert(all[i] == before[i]);
            }
        }
    }
}

proof fn lemma_all_fresh(groups: Seq<RetainedGroupKey>, now_ms: i64, max_age_ms: i64)
    requires
        forall|i: int| 0 <= i < groups.len() ==> is_fresh(#[trigger] groups[i], now_ms, max_age_ms),
    ensures
        fresh_groups(groups, now_ms, max_age_ms) == groups,
    decreases groups.len(),
{
    if groups.len() > 0 {
        lemma_all_fresh(groups.drop_last(), now_ms, max_age_ms);
        assert(groups.drop_last().push(groups.last()) =~= groups);
    }
}

/// Whether one group is filed no later than another: by stream, time, epoch and number.
pub open spec fn filed_by(a: RetainedGroupKey, b: RetainedGroupKey) -> bool {
    if a.stream_id != b.stream_id {
        a.stream_id < b.stream_id
    } else if a.created_at_ms != b.created_at_ms {
        a.created_at_ms < b.created_at_ms
    } else if a.epoch_id != b.epoch_id {
        a.epoch_id < b.epoch_id
    } else {
        a.key_group_id <= b.key_group_id
    }
}

fn is_filed_by(a: &RetainedGroupKey, b: &RetainedGroupKey) -> (filed: bool)
    ensures
        filed == filed_by(*a, *b),
{
    if a.stream_id != b.stream_id {
        a.stream_id < b.stream_id
    } else if a.created_at_ms != b.created_at_ms {
        a.created_at_ms < b.created_at_ms
    } else if a.epoch_id != b.epoch_id {
        a.epoch_id < b.epoch_id
    } else {
        a.key_group_id <= b.key_group_id
    }
}

/// The order in which groups are filed.
pub open spec fn filing() -> spec_fn(RetainedGroupKey, RetainedGroupKey) -> bool {
    |a: RetainedGroupKey, b: RetainedGroupKey| filed_by(a, b)
}

/// Groups in filing order; equal ones keep their order.
pub open spec fn filed(groups: Seq<RetainedGroupKey>) -> Seq<RetainedGroupKey> {
    stable_sorted(groups, filing())
}

/// The groups of other streams, in their order.
pub open spec fn other_streams(groups: Seq<RetainedGroupKey>, stream_id: u128) -> Seq<
    RetainedGroupKey,
>
    decreases groups.len(),
{
    if groups.len() == 0 {
        Seq::empty()
    } else {
        let before = other_streams(groups.drop_last(), stream_id);
        if groups.last().stream_id != stream_id {
            before.push(groups.last())
        } else {
            before
        }
    }
}

/// The groups of one stream, in their order.
pub open spec fn stream_groups(groups: Seq<RetainedGroupKey>, stream_id: u128) -> Seq<
    RetainedGroupKey,
>
    decreases groups.len(),
{
    if groups.len() == 0 {
        Seq::empty()
    } else {
        let before = stream_groups(groups.drop_last(), stream_id);
        if groups.last().stream_id == stream_id {
            before.push(groups.last())
        } else {
            before
        }
    }
}

/// Picks the groups of one stream.
pub fn groups_of_stream(groups: &Vec<RetainedGroupKey>, stream_id: u128) -> (found: Vec<
    RetainedGroupKey,
>)
    ensures
        found@ == stream_groups(groups@, stream_id),
{
    let mut found: Vec<RetainedGroupKey> = Vec::new();
    let count: usize = groups.len();
    let mut i: usize = 0;
    while i < count
        invariant
            i <= count == groups@.len(),
            found@ == stream_groups(groups@.take(i as int), stream_id),
        decreases count - i,
    {
        assert(groups@.take(i + 1).drop_last() =~= groups@.take(i as int));
        if groups[i].stream_id == stream_id {
            found.push(groups[i]);
        }
        i += 1;
    }
    assert(groups@.take(count as int) =~= groups@);
    found
}

/// Replaces one stream's groups in a stored history and files the result. Groups of other
/// streams stay.
pub fn replace_stream_key_history(
    stored: &Vec<RetainedGroupKey>,
    stream_id: u128,
    replacement: &Vec<RetainedGroupKey>,
) -> (groups: Vec<RetainedGroupKey>)
    ensures
        groups@ == filed(other_streams(stored@, stream_id) + replacement@),
{
    let mut groups: Vec<RetainedGroupKey> = Vec::new();
    let count: usize = stored.len();
    let mut i: usize = 0;
    while i < count
        invariant
            i <= count == stored@.len(),
            groups@ == other_streams(stored@.take(i as int), stream_id),
        decreases count - i,
    {
        assert(stored@.take(i + 1).drop_last() =~= stored@.take(i as int));
        if stored[i].stream_id != stream_id {
            groups.push(stored[i]);
        }
        i += 1;
    }
    assert(stored@.take(count as int) =~= stored@);
    let ghost others = groups@;
    let added: usize = replacement.len();
    let mut j: usize = 0;
    while j < added
        invariant
            j <= added == replacement@.len(),
            groups@ == others + replacement@.take(j as int),
        decreases added - j,
    {
        groups.push(replacement[j]);
        j += 1;
    }
    assert(replacement@.take(added as int) =~= replacement@);
    stable_sort(groups, is_filed_by, Ghost(filing()))
}

/// Filed groups are in order.
pub proof fn filed_groups_are_in_order(groups: Seq<RetainedGroupKey>)
    ensures
        in_order(filed(groups), filing()),
{
    sorted_items_are_in_order(groups, filing());
}

/// Replacing one stream's groups leaves those of every other stream as they were, and of
/// that stream exactly the new ones.
pub proof fn other_monitors_keep_their_groups(
    stored: Seq<RetainedGroupKey>,
    stream_id: u128,
    replacement: Seq<RetainedGroupKey>,
    group: RetainedGroupKey,
)
    requires
        forall|i: int| 0 <= i < replacement.len() ==> (#[trigger] replacement[i]).stream_id
            == stream_id,
    ensures
        ({
            let merged = filed(other_streams(stored, stream_id) + replacement);
            merged.to_multiset().count(group) == if group.stream_id == stream_id {
                replacement.to_multiset().count(group)
            } else {
                stored.to_multiset().count(group)
            }
        }),
{
    broadcast use vstd::seq_lib::group_to_multiset_ensures;

    let others = other_streams(stored, stream_id);
    sorting_keeps_every_item(others + replacement, filing());
    vstd::seq_lib::lemma_multiset_commutative(others, replacement);
    lemma_other_streams_count(stored, stream_id, group);
    if group.stream_id != stream_id {
        if replacement.contains(group) {
            let i = replacement.index_of(group);
            assert(replacement[i].stream_id == stream_id);
        }
        assert(replacement.to_multiset().count(group) == 0);
    }
}

/// A group of another stream is counted as often as in the whole history.
pub proof fn lemma_other_streams_count(
    stored: Seq<RetainedGroupKey>,
    stream_id: u128,
    group: RetainedGroupKey,
)
    ensures
        other_streams(stored, stream_id).to_multiset().count(group) == if group.stream_id
            == stream_id {
            0
        } else {
            stored.to_multiset().count(group)
        },
    decreases stored.len(),
{
    broadcast use vstd::seq_lib::group_to_multiset_ensures;

    if stored.len() > 0 {
        lemma_other_streams_count(stored.drop_last(), stream_id, group);
        assert(stored.drop_last().push(stored.last()) =~= stored);
    }
}

} // verus!

//! Objects that were sent and not yet acknowledged, kept for resending.

use std::collections::VecDeque;

use vstd::prelude::*;

verus! {

/// What a segmented-media object carries.
#[derive(Clone, Copy, Debug, PartialEq, Eq, Structural)]
pub enum DashObjectKind {
    /// Description of an epoch.
    Epoch,
    /// Initialization segment.
    Initialization,
    /// Media fragment.
    Media,
    /// Cursor batch.
    Cursor,
}

/// Where an object belongs.
#[derive(Clone, Copy, Debug, PartialEq, Eq, Structural)]
pub struct DashObjectHeader {
    /// The stream.
    pub stream_id: u128,
    /// The epoch.
    pub epoch_id: u128,
    /// What the object carries.
    pub kind: DashObjectKind,
    /// Position in the stream.
    pub sequence: u64,
    /// Segment that the object is part of.
    pub segment_number: u64,
    /// Position in the segment.
    pub chunk_index: u16,
    /// Start in media ticks.
    pub timestamp: u64,
    /// Duration in media ticks.
    pub duration: u64,
    /// Whether decoding can start at it.
    pub random_access: bool,
}

/// An object as it is sent.
#[derive(Debug)]
pub struct DashObject {
    /// Where it belongs.
    pub header: DashObjectHeader,
    /// What it carries.
    pub payload: Vec<u8>,
    /// What authenticates header and payload.
    pub seal: Vec<u8>,
}

/// An object as a mathematical value.
#[verifier::ext_equal]
pub struct DashObjectModel {
    /// Where it belongs.
    pub header: DashObjectHeader,
    /// What it carries.
    pub payload: Seq<u8>,
    /// What authenticates header and payload.
    pub seal: Seq<u8>,
}

impl View for DashObject {
    type V = DashObjectModel;

    open spec fn view(&self) -> DashObjectModel {
        DashObjectModel { header: self.header, payload: self.payload@, seal: self.seal@ }
    }
}

impl DashObject {
    /// An equal object.
    pub fn duplicate(&self) -> (copy: DashObject)
        ensures
            copy@ == self@,
    {
        DashObject {
            header: self.header,
            payload: self.payload.clone(),
            seal: self.seal.clone(),
        }
    }
}

/// What one object stands for.
pub open spec fn object_image() -> spec_fn(DashObject) -> DashObjectModel {
    |object: DashObject| object@
}

/// What a resend buffer holds.
#[verifier::ext_equal]
pub struct ResendModel {
    /// Payload bytes that it may hold.
    pub max_bytes: u64,
    /// The objects, the oldest first.
    pub objects: Seq<DashObjectModel>,
}

/// Payload bytes of some objects.
pub open spec fn payload_bytes(objects: Seq<DashObjectModel>) -> nat
    decreases objects.len(),
{
    if objects.len() == 0 {
        0
    } else {
        objects.first().payload.len() + payload_bytes(objects.drop_first())
    }
}

/// The newest objects within a byte limit; the newest always stays.
pub open spec fn newest_objects(objects: Seq<DashObjectModel>, max_bytes: u64) -> Seq<
    DashObjectModel,
>
    decreases objects.len(),
{
    if objects.len() <= 1 || payload_bytes(objects) <= max_bytes {
        objects
    } else {
        newest_objects(objects.drop_first(), max_bytes)
    }
}

/// What is left once the oldest objects up to a sequence are acknowledged.
pub open spec fn unacknowledged(objects: Seq<DashObjectModel>, through: u64) -> Seq<DashObjectModel>
    decreases objects.len(),
{
    if objects.len() > 0 && objects.first().header.sequence <= through {
        unacknowledged(objects.drop_first(), through)
    } else {
        objects
    }
}

/// The objects of one stream, in their order.
pub open spec fn stream_objects(objects: Seq<DashObjectModel>, stream_id: u128) -> Seq<
    DashObjectModel,
>
    decreases objects.len(),
{
    if objects.len() == 0 {
        Seq::empty()
    } else if objects.last().header.stream_id == stream_id {
        stream_objects(objects.drop_last(), stream_id).push(objects.last())
    } else {
        stream_objects(objects.drop_last(), stream_id)
    }
}

/// The objects between two sequences, both included, in their order.
pub open spec fn objects_between(objects: Seq<DashObjectModel>, from: u64, to: u64) -> Seq<
    DashObjectModel,
>
    decreases objects.len(),
{
    if objects.len() == 0 {
        Seq::empty()
    } else if from <= objects.last().header.sequence <= to {
        objects_between(objects.drop_last(), from, to).push(objects.last())
    } else {
        objects_between(objects.drop_last(), from, to)
    }
}

/// Sent objects that the relay may ask for again.
pub struct DashResendBuffer {
    max_bytes: u64,
    bytes: u64,
    objects: VecDeque<DashObject>,
}

impl View for DashResendBuffer {
    type V = ResendModel;

    closed spec fn view(&self) -> ResendModel {
        ResendModel {
            max_bytes: self.max_bytes,
            objects: self.objects@.map_values(object_image()),
        }
    }
}

impl DashResendBuffer {
    /// The count of bytes is right.
    pub closed spec fn wf(&self) -> bool {
        self.bytes == payload_bytes(self@.objects)
    }

    /// An empty buffer.
    pub fn new(max_bytes: u64) -> (buffer: Self)
        ensures
            buffer.wf(),
            buffer@ == (ResendModel { max_bytes, objects: Seq::empty() }),
    {
        let buffer = DashResendBuffer { max_bytes, bytes: 0, objects: VecDeque::new() };
        assert(buffer@.objects =~= Seq::empty());
        buffer
    }

    /// Payload bytes that are held.
    pub fn bytes(&self) -> (bytes: u64)
        requires
            self.wf(),
        ensures
            bytes == payload_bytes(self@.objects),
    {
        self.bytes
    }

    /// How many objects are held.
    pub fn len(&self) -> (len: usize)
        ensures
            len == self@.objects.len(),
    {
        self.objects.len()
    }

    fn drop_front(&mut self)
        requires
            old(self).wf(),
            old(self)@.objects.len() > 0,
        ensures
            final(self).wf(),
            final(self)@ == (ResendModel {
                objects: old(self)@.objects.drop_first(),
                ..old(self)@
            }),
    {
        match self.objects.pop_front() {
            Some(old_object) => {
                assert(old(self)@.objects.first() == old_object@);
                assert(self.objects@.map_values(object_image()) =~= old(
                    self,
                )@.objects.drop_first());
                self.bytes = self.bytes - old_object.payload.len() as u64;
            },
            None => {},
        }
    }

    /// Keeps a sent object. The oldest ones leave where the limit is passed, but the object
    /// itself stays.
    pub fn push(&mut self, object: DashObject)
        requires
            old(self).wf(),
            payload_bytes(old(self)@.objects) + object@.payload.len() <= u64::MAX,
        ensures
            final(self).wf(),
            final(self)@ == (ResendModel {
                objects: newest_objects(
                    old(self)@.objects.push(object@),
                    old(self)@.max_bytes,
                ),
                ..old(self)@
            }),
    {
        let ghost all = old(self)@.objects.push(object@);
        proof {
            lemma_payload_bytes_push(old(self)@.objects, object@);
        }
        self.bytes = self.bytes + object.payload.len() as u64;
        self.objects.push_back(object);
        assert(self@.objects =~= all);
        while self.bytes > self.max_bytes && self.objects.len() > 1
            invariant
                self.wf(),
                self@.max_bytes == old(self)@.max_bytes,
                newest_objects(self@.objects, old(self)@.max_bytes) == newest_objects(
                    all,
                    old(self)@.max_bytes,
                ),
            decreases self@.objects.len(),
        {
            self.drop_front();
        }
    }

    /// Lets go of the oldest objects up to a sequence.
    pub fn ack(&mut self, through_seq: u64)
        requires
            old(self).wf(),
        ensures
            final(self).wf(),
            final(self)@ == (ResendModel {
                objects: unacknowledged(old(self)@.objects, through_seq),
                ..old(self)@
            }),
    {
        while self.objects.len() > 0 && self.objects[0].header.sequence <= through_seq
            invariant
                self.wf(),
                self@.max_bytes == old(self)@.max_bytes,
                unacknowledged(self@.objects, through_seq) == unacknowledged(
                    old(self)@.objects,
                    through_seq,
                ),
            decreases self@.objects.len(),
        {
            assert(self@.objects.first() == self.objects@[0]@);
            self.drop_front();
        }
        assert(self@.objects.len() > 0 ==> self@.objects.first() == self.objects@[0]@);
    }

    /// Lets go of every object of another stream.
    pub fn drop_other_streams(&mut self, stream_id: u128)
        requires
            old(self).wf(),
        ensures
            final(self).wf(),
            final(self)@ == (ResendModel {
                objects: stream_objects(old(self)@.objects, stream_id),
                ..old(self)@
            }),
    {
        let ghost all = self@.objects;
        let ghost items = self.objects@;
        let mut kept: VecDeque<DashObject> = VecDeque::new();
        let mut bytes: u64 = 0;
        let ghost mut done: int = 0;
        assert(all.take(0) =~= Seq::empty());
        assert(kept@.map_values(object_image()) =~= Seq::empty());
        assert(all.skip(0) =~= all);
        while self.objects.len() > 0
            invariant
                all == items.map_values(object_image()),
                all == old(self)@.objects,
                self.max_bytes == old(self)@.max_bytes,
                0 <= done <= items.len(),
                self.objects@ == items.skip(done),
                kept@.map_values(object_image()) == stream_objects(all.take(done), stream_id),
                bytes == payload_bytes(kept@.map_values(object_image())),
                bytes + payload_bytes(all.skip(done)) <= u64::MAX,
            decreases self.objects@.len(),
        {
            let ghost before = kept@.map_values(object_image());
            proof {
                assert(all.take(done + 1).drop_last() =~= all.take(done));
                assert(all.skip(done).drop_first() =~= all.skip(done + 1));
                assert(all.skip(done).first() == items[done]@);
            }
            match self.objects.pop_front() {
                Some(object) => {
                    assert(self.objects@ =~= items.skip(done + 1));
                    if object.header.stream_id == stream_id {
                        proof {
                            lemma_payload_bytes_push(before, object@);
                        }
                        bytes = bytes + object.payload.len() as u64;
                        kept.push_back(object);
                        assert(kept@.map_values(object_image()) =~= before.push(object@));
                    }
                },
                None => {},
            }
            proof {
                done = done + 1;
            }
        }
        assert(all.take(done) =~= all);
        self.objects = kept;
        self.bytes = bytes;
    }

    /// The objects between two sequences, both included.
    pub fn objects(&self, from_seq: u64, to_seq: u64) -> (found: Vec<DashObject>)
        ensures
            found@.map_values(object_image()) == objects_between(self@.objects, from_seq, to_seq),
    {
        let ghost all = self@.objects;
        let mut found: Vec<DashObject> = Vec::new();
        let count: usize = self.objects.len();
        let mut i: usize = 0;
        assert(all.take(0) =~= Seq::empty());
        assert(found@.map_values(object_image()) =~= Seq::empty());
        while i < count
            invariant
                all == self@.objects,
                i <= count == self.objects@.len(),
                found@.map_values(object_image()) == objects_between(
                    all.take(i as int),
                    from_seq,
                    to_seq,
                ),
            decreases count - i,
        {
            let ghost before = found@.map_values(object_image());
            assert(all.take(i + 1).drop_last() =~= all.take(i as int));
            assert(all[i as int] == self.objects@[i as int]@);
            let sequence: u64 = self.objects[i].header.sequence;
            if sequence >= from_seq && sequence <= to_seq {
                let copy = self.objects[i].duplicate();
                found.push(copy);
                assert(found@.map_values(object_image()) =~= before.push(copy@));
            }
            i += 1;
        }
        assert(all.take(count as int) =~= all);
        found
    }

    /// The sequences of the oldest and the newest object.
    pub fn range(&self) -> (range: (Option<u64>, Option<u64>))
        ensures
            range == if self@.objects.len() == 0 {
                (None::<u64>, None::<u64>)
            } else {
                (
                    Some(self@.objects.first().header.sequence),
                    Some(self@.objects.last().header.sequence),
                )
            },
    {
        let count: usize = self.objects.len();
        if count == 0 {
            return (None, None);
        }
        (
            Some(self.objects[0].header.sequence),
            Some(self.objects[count - 1].header.sequence),
        )
    }
}

proof fn lemma_payload_bytes_push(objects: Seq<DashObjectModel>, object: DashObjectModel)
    ensures
        payload_bytes(objects.push(object)) == payload_bytes(objects) + object.payload.len(),
    decreases objects.len(),
{
    let pushed = objects.push(object);
    reveal_with_fuel(payload_bytes, 2);
    if objects.len() == 0 {
        assert(pushed.drop_first() =~= Seq::empty());
    } else {
        assert(pushed.drop_first() =~= objects.drop_first().push(object));
        lemma_payload_bytes_push(objects.drop_first(), object);
    }
}

/// Whether objects are of rising sequence.
pub open spec fn is_rising(objects: Seq<DashObjectModel>) -> bool {
    forall|i: int, j: int|
        0 <= i < j < objects.len() ==> (#[trigger] objects[i]).header.sequence < (
        #[trigger] objects[j]).header.sequence
}

/// The buffer never holds more than its limit unless one object alone does, and the object
/// that was sent last is always there to be resent. It holds the longest run of the newest
/// objects that is within the limit: one more object would be over it.
pub proof fn resend_buffer_is_bounded(
    buffer: ResendModel,
    object: DashObjectModel,
)
    ensures
        ({
            let all = buffer.objects.push(object);
            let kept = newest_objects(all, buffer.max_bytes);
            &&& 0 < kept.len() <= all.len()
            &&& kept == all.skip(all.len() - kept.len())
            &&& kept.last() == object
            &&& kept.len() == 1 || payload_bytes(kept) <= buffer.max_bytes
            &&& forall|start: int|
                0 <= start < all.len() - kept.len() ==> payload_bytes(#[trigger] all.skip(start))
                    > buffer.max_bytes
        }),
{
    lemma_newest_objects(buffer.objects.push(object), buffer.max_bytes);
}

proof fn lemma_newest_objects(objects: Seq<DashObjectModel>, max_bytes: u64)
    requires
        objects.len() > 0,
    ensures
        ({
            let kept = newest_objects(objects, max_bytes);
            &&& 0 < kept.len() <= objects.len()
            &&& kept == objects.skip(objects.len() - kept.len())
            &&& kept.last() == objects.last()
            &&& kept.len() == 1 || payload_bytes(kept) <= max_bytes
            &&& forall|start: int|
                0 <= start < objects.len() - kept.len() ==> payload_bytes(
                    #[trigger] objects.skip(start),
                ) > max_bytes
        }),
    decreases objects.len(),
{
    assert(objects.skip(0) =~= objects);
    if objects.len() > 1 && payload_bytes(objects) > max_bytes {
        let rest = objects.drop_first();
        lemma_newest_objects(rest, max_bytes);
        let kept = newest_objects(rest, max_bytes);
        assert(rest.skip(rest.len() - kept.len()) =~= objects.skip(objects.len() - kept.len()));
        assert forall|start: int| 0 <= start < objects.len() - kept.len() implies payload_bytes(
            #[trigger] objects.skip(start),
        ) > max_bytes by {
            if start > 0 {
                assert(rest.skip(start - 1) =~= objects.skip(start));
            }
        }
    }
}

/// Objects that are sent in rising sequence stay so whatever the buffer lets go of.
pub proof fn buffered_objects_stay_rising(
    buffer: ResendModel,
    object: DashObjectModel,
    through: u64,
)
    requires
        is_rising(buffer.objects),
        buffer.objects.len() > 0 ==> buffer.objects.last().header.sequence
            < object.header.sequence,
    ensures
        is_rising(newest_objects(buffer.objects.push(object), buffer.max_bytes)),
        is_rising(unacknowledged(buffer.objects, through)),
{
    let pushed = buffer.objects.push(object);
    assert forall|i: int, j: int| 0 <= i < j < pushed.len() implies (
    #[trigger] pushed[i]).header.sequence < (#[trigger] pushed[j]).header.sequence by {
        if j == buffer.objects.len() && i < buffer.objects.len() - 1 {
            assert(buffer.objects[i].header.sequence < buffer.objects[buffer.objects.len()
                - 1].header.sequence);
        }
    }
    lemma_newest_objects(pushed, buffer.max_bytes);
    lemma_unacknowledged(buffer.objects, through);
}

/// What is left is the longest end that begins behind the acknowledged sequence.
pub proof fn lemma_unacknowledged(objects: Seq<DashObjectModel>, through: u64)
    ensures
        ({
            let left = unacknowledged(objects, through);
            &&& left.len() <= objects.len()
            &&& left == objects.skip(objects.len() - left.len())
            &&& left.len() > 0 ==> left.first().header.sequence > through
            &&& forall|i: int|
                0 <= i < objects.len() - left.len() ==> (#[trigger] objects[i]).header.sequence
                    <= through
        }),
    decreases objects.len(),
{
    assert(objects.skip(0) =~= objects);
    if objects.len() > 0 && objects.first().header.sequence <= through {
        let rest = objects.drop_first();
        lemma_unacknowledged(rest, through);
        let left = unacknowledged(rest, through);
        assert(rest.skip(rest.len() - left.len()) =~= objects.skip(objects.len() - left.len()));
        assert forall|i: int| 0 <= i < objects.len() - left.len() implies (
        #[trigger] objects[i]).header.sequence <= through by {
            if i > 0 {
                assert(rest[i - 1] == objects[i]);
            }
        }
    }
}

/// An acknowledgement lets go of exactly the objects up to it: nothing later is lost, and
/// nothing acknowledged is resent.
pub proof fn acknowledgement_is_exact(
    buffer: ResendModel,
    through: u64,
    object: DashObjectModel,
)
    requires
        is_rising(buffer.objects),
    ensures
        unacknowledged(buffer.objects, through).contains(object) <==> buffer.objects.contains(
            object,
        ) && object.header.sequence > through,
{
    let objects = buffer.objects;
    let left = unacknowledged(objects, through);
    lemma_unacknowledged(objects, through);
    let gone = objects.len() - left.len();
    if left.contains(object) {
        let i = choose|i: int| 0 <= i < left.len() && left[i] == object;
        assert(objects[gone + i] == object);
        if i > 0 {
            assert(objects[gone].header.sequence < objects[gone + i].header.sequence);
        }
        assert(left.first() == objects[gone]);
    }
    if objects.contains(object) && object.header.sequence > through {
        let k = choose|k: int| 0 <= k < objects.len() && objects[k] == object;
        assert(k >= gone);
        assert(left[k - gone] == object);
    }
}

/// What is asked for again is exactly what is held between the two sequences.
pub proof fn requested_objects_are_exact(
    objects: Seq<DashObjectModel>,
    from: u64,
    to: u64,
    object: DashObjectModel,
)
    ensures
        objects_between(objects, from, to).contains(object) <==> objects.contains(object) && from
            <= object.header.sequence <= to,
    decreases objects.len(),
{
    if objects.len() > 0 {
        let before = objects.drop_last();
        requested_objects_are_exact(before, from, to, object);
        let inner = objects_between(before, from, to);
        let found = objects_between(objects, from, to);
        if found.contains(object) {
            let i = choose|i: int| 0 <= i < found.len() && found[i] == object;
            if i < inner.len() {
                assert(inner[i] == object);
                let k = choose|k: int| 0 <= k < before.len() && before[k] == object;
                assert(objects[k] == object);
            } else {
                assert(objects[objects.len() - 1] == object);
            }
        }
        if objects.contains(object) && from <= object.header.sequence <= to {
            let k = choose|k: int| 0 <= k < objects.len() && objects[k] == object;
            if k < before.len() {
                assert(before[k] == object);
                let i = choose|i: int| 0 <= i < inner.len() && inner[i] == object;
                assert(found[i] == object);
            } else {
                assert(found[found.len() - 1] == object);
            }
        }
    }
}

} // verus!

//! The receiver's sample buffer: a queue of bounded length that gives way at its old end.

use crate::stream::MAX_BUFFER_SAMPLES;
use vstd::prelude::*;

verus! {

/// The last `limit` items of a sequence, or all of it where it has no more.
pub open spec fn newest<T>(items: Seq<T>, limit: nat) -> Seq<T> {
    if items.len() <= limit {
        items
    } else {
        items.skip(items.len() - limit)
    }
}

/// Keeping the newest after every arrival is keeping the newest at the end.
pub proof fn law_newest_composes<T>(items: Seq<T>, more: Seq<T>, limit: nat, final_limit: nat)
    requires
        final_limit <= limit,
    ensures
        newest(newest(items, limit) + more, final_limit) == newest(items + more, final_limit),
{
    assert(newest(newest(items, limit) + more, final_limit) =~= newest(items + more, final_limit));
}

/// A queue of at most `MAX_BUFFER_SAMPLES` samples.
pub struct SampleRing {
    slots: Vec<u32>,
    read_index: usize,
    write_index: usize,
    queued: usize,
}

/// The slot of the `i`th place behind a slot.
spec fn slot(read_index: int, i: int) -> int {
    if read_index + i < MAX_BUFFER_SAMPLES {
        read_index + i
    } else {
        read_index + i - MAX_BUFFER_SAMPLES
    }
}

impl View for SampleRing {
    type V = Seq<u32>;

    /// The queued samples, oldest first.
    closed spec fn view(&self) -> Seq<u32> {
        Seq::new(self.queued as nat, |i: int| self.slots@[slot(self.read_index as int, i)])
    }
}

impl SampleRing {
    /// The indices lie in the buffer and are as far apart as there are samples.
    pub closed spec fn wf(&self) -> bool {
        &&& self.slots@.len() == MAX_BUFFER_SAMPLES
        &&& self.read_index < MAX_BUFFER_SAMPLES
        &&& self.queued <= MAX_BUFFER_SAMPLES
        &&& self.write_index == slot(self.read_index as int, self.queued as int) || (self.queued
            == MAX_BUFFER_SAMPLES && self.write_index == self.read_index)
    }

    pub proof fn lemma_len(&self)
        requires
            self.wf(),
        ensures
            self@.len() <= MAX_BUFFER_SAMPLES,
    {
    }

    /// An empty queue.
    pub fn new() -> (ring: Self)
        ensures
            ring.wf(),
            ring@ == Seq::<u32>::empty(),
    {
        let ring = SampleRing {
            slots: vec![0u32; MAX_BUFFER_SAMPLES],
            read_index: 0,
            write_index: 0,
            queued: 0,
        };
        proof {
            assert(ring@ =~= Seq::<u32>::empty());
        }
        ring
    }

    /// How many samples are queued.
    pub fn queued(&self) -> (count: usize)
        requires
            self.wf(),
        ensures
            count == self@.len(),
            count <= MAX_BUFFER_SAMPLES,
    {
        self.queued
    }

    /// Forgets all samples.
    pub fn clear(&mut self)
        requires
            old(self).wf(),
        ensures
            final(self).wf(),
            final(self)@ == Seq::<u32>::empty(),
    {
        self.read_index = 0;
        self.write_index = 0;
        self.queued = 0;
        proof {
            assert(self@ =~= Seq::<u32>::empty());
        }
    }

    /// Takes the oldest sample.
    pub fn pop(&mut self) -> (sample: Option<u32>)
        requires
            old(self).wf(),
        ensures
            final(self).wf(),
            old(self)@.len() == 0 ==> sample is None && final(self)@ == old(self)@,
            old(self)@.len() > 0 ==> sample == Some(old(self)@[0]) && final(self)@ == old(
                self,
            )@.skip(1),
    {
        if self.queued == 0 {
            return None;
        }
        let sample: u32 = self.slots[self.read_index];
        self.read_index = (self.read_index + 1) % MAX_BUFFER_SAMPLES;
        self.queued = self.queued - 1;
        proof {
            assert(self@ =~= old(self)@.skip(1));
        }
        Some(sample)
    }

    /// Forgets the oldest `count` samples, or all where there are fewer.
    pub fn drop_oldest(&mut self, count: usize)
        requires
            old(self).wf(),
        ensures
            final(self).wf(),
            final(self)@ == old(self)@.skip(
                if count < old(self)@.len() {
                    count as int
                } else {
                    old(self)@.len() as int
                },
            ),
    {
        let to_drop: usize = if count < self.queued {
            count
        } else {
            self.queued
        };
        self.read_index = (self.read_index + to_drop) % MAX_BUFFER_SAMPLES;
        self.queued = self.queued - to_drop;
        proof {
            assert(self@ =~= old(self)@.skip(to_drop as int));
        }
    }

    /// Adds the first `count` samples of a block. Where they do not fit, the oldest give way.
    pub fn push_block(&mut self, block: &[u32], count: usize)
        requires
            old(self).wf(),
            count <= block@.len(),
            count <= MAX_BUFFER_SAMPLES,
        ensures
            final(self).wf(),
            final(self)@ == newest(
                old(self)@ + block@.take(count as int),
                MAX_BUFFER_SAMPLES as nat,
            ),
    {
        let overflow: usize = (self.queued + count).saturating_sub(MAX_BUFFER_SAMPLES);
        if overflow > 0 {
            self.drop_oldest(overflow);
        }
        let ghost kept = self@;
        let ghost start = *self;
        proof {
            assert(kept + block@.take(count as int) =~= newest(
                old(self)@ + block@.take(count as int),
                MAX_BUFFER_SAMPLES as nat,
            ));
        }
        let mut index: usize = 0;
        while index < count
            invariant
                start.wf(),
                start@ == kept,
                kept.len() + count <= MAX_BUFFER_SAMPLES,
                count <= block@.len(),
                index <= count,
                self.slots@.len() == MAX_BUFFER_SAMPLES,
                self.read_index == start.read_index,
                self.queued == start.queued,
                self.write_index < MAX_BUFFER_SAMPLES,
                kept.len() + index < MAX_BUFFER_SAMPLES ==> self.write_index == slot(self.read_index as int, 
                    kept.len() + index,
                ),
                kept.len() + index == MAX_BUFFER_SAMPLES ==> self.write_index == self.read_index,
                forall|i: int|
                    0 <= i < kept.len() ==> #[trigger] self.slots@[slot(self.read_index as int, i)] == kept[i],
                forall|i: int|
                    kept.len() <= i < kept.len() + index ==> #[trigger] self.slots@[slot(self.read_index as int, i)]
                        == block@[i - kept.len()],
            decreases count - index,
        {
            self.slots[self.write_index] = block[index];
            self.write_index = (self.write_index + 1) % MAX_BUFFER_SAMPLES;
            index = index + 1;
        }
        self.queued = self.queued + count;
        proof {
            assert(self@ =~= kept + block@.take(count as int));
        }
    }
}

/// What a bounded queue keeps is the end of what came, as much of it as fits.
pub proof fn law_the_newest_stay<T>(items: Seq<T>, limit: nat, index: int)
    ensures
        newest(items, limit).len() <= limit,
        items.len() <= limit ==> newest(items, limit) == items,
        items.len() > limit ==> newest(items, limit).len() == limit,
        0 <= index < newest(items, limit).len() ==> newest(items, limit)[index] == items[items.len()
            - newest(items, limit).len() + index],
{
}

} // verus!

//! Grouping a stream of items into batches of a fixed size.

use vstd::prelude::*;

verus! {

/// Collects items and hands them out in batches of `batch_size`, in the
/// order in which they came.
pub struct Batcher<T> {
    batch_size: usize,
    buffer: Vec<T>,
}

impl<T> Batcher<T> {
    /// There is always room for one more item.
    #[verifier::type_invariant]
    spec fn has_room(self) -> bool {
        self.buffer@.len() < self.batch_size
    }

    /// The number of items in a full batch.
    pub closed spec fn batch_size(&self) -> int {
        self.batch_size as int
    }

    /// The items that wait for their batch to fill.
    pub closed spec fn pending(&self) -> Seq<T> {
        self.buffer@
    }

    /// A batcher without items that makes batches of `batch_size` items.
    pub fn new(batch_size: usize) -> (b: Self)
        requires
            batch_size > 0,
        ensures
            b.batch_size() == batch_size,
            b.pending() == Seq::<T>::empty(),
    {
        Self { batch_size, buffer: Vec::new() }
    }

    /// Adds an item. Hands out the batch that the item completes, if it
    /// completes one.
    pub fn push(&mut self, item: T) -> (batch: Option<Vec<T>>)
        ensures
            final(self).batch_size() == old(self).batch_size(),
            old(self).pending().len() < old(self).batch_size(),
            old(self).pending().len() + 1 == old(self).batch_size() ==> batch is Some
                && batch.unwrap()@ == old(self).pending().push(item) && final(self).pending()
                == Seq::<T>::empty(),
            old(self).pending().len() + 1 < old(self).batch_size() ==> batch is None && final(self).pending() == old(self).pending().push(item),
    {
        proof {
            use_type_invariant(&*self);
        }
        let mut buffer: Vec<T> = Vec::new();
        core::mem::swap(&mut buffer, &mut self.buffer);
        buffer.push(item);
        if buffer.len() == self.batch_size {
            Some(buffer)
        } else {
            self.buffer = buffer;
            None
        }
    }

    /// Ends the stream. Hands out the items that did not fill a batch, if
    /// there are any.
    pub fn finish(self) -> (batch: Option<Vec<T>>)
        ensures
            self.pending().len() > 0 ==> batch is Some && batch.unwrap()@ == self.pending(),
            self.pending().len() == 0 ==> batch is None,
    {
        let mut this = self;
        if this.buffer.len() > 0 {
            Some(this.flush())
        } else {
            None
        }
    }

    /// Hands out what is pending, however few.
    fn flush(&mut self) -> (batch: Vec<T>)
        ensures
            batch@ == old(self).pending(),
            final(self).pending() == Seq::<T>::empty(),
            final(self).batch_size() == old(self).batch_size(),
    {
        proof {
            use_type_invariant(&*self);
        }
        let mut current_batch: Vec<T> = Vec::new();
        core::mem::swap(&mut current_batch, &mut self.buffer);
        current_batch
    }
}

/// The `k`-th batch of the numbers below `items` in batches of
/// `batch_size`: the numbers from `k * batch_size` up to the next multiple
/// of `batch_size`, or up to `items` if that comes first.
pub open spec fn spec_typical_batch(batch_size: int, items: int, k: int) -> Seq<usize> {
    let first = k * batch_size;
    let len = if first + batch_size <= items {
        batch_size
    } else {
        items - first
    };
    Seq::new(len as nat, |j: int| (first + j) as usize)
}

/// The number of batches that the numbers below `items` make: the full
/// ones and, if the stream is finished, the one that is left over.
pub open spec fn spec_typical_batch_count(batch_size: int, items: int, finish: bool) -> int {
    if finish && items % batch_size != 0 {
        items / batch_size + 1
    } else {
        items / batch_size
    }
}

/// Pushes the numbers `0`, `1`, ... below `items` through a batcher and
/// collects the batches that come out, the leftover too if `finish`.
pub fn make_typical_batches(batch_size: usize, items: usize, finish: bool) -> (batches: Vec<
    Vec<usize>,
>)
    requires
        batch_size > 0,
    ensures
        batches@.len() == spec_typical_batch_count(batch_size as int, items as int, finish),
        forall|k: int|
            0 <= k < batches@.len() ==> (#[trigger] batches@[k])@ == spec_typical_batch(
                batch_size as int,
                items as int,
                k,
            ),
{
    let mut batches: Vec<Vec<usize>> = Vec::new();
    let mut batcher: Batcher<usize> = Batcher::new(batch_size);
    let mut i: usize = 0;
    let ghost mut full: int = 0;
    while i < items
        invariant
            i <= items,
            batch_size > 0,
            batcher.batch_size() == batch_size,
            0 <= full,
            batches@.len() == full,
            i == full * batch_size + batcher.pending().len(),
            batcher.pending().len() < batch_size,
            batcher.pending() == Seq::new(
                batcher.pending().len(),
                |j: int| (full * batch_size + j) as usize,
            ),
            forall|k: int|
                0 <= k < full ==> (#[trigger] batches@[k])@ == Seq::new(
                    batch_size as nat,
                    |j: int| (k * batch_size + j) as usize,
                ),
        decreases items - i,
    {
        let ghost before = batcher.pending();
        match batcher.push(i) {
            Some(batch) => {
                proof {
                    assert(batch@ =~= Seq::new(
                        batch_size as nat,
                        |j: int| (full * batch_size + j) as usize,
                    ));
                    assert((full + 1) * batch_size == full * batch_size + batch_size)
                        by (nonlinear_arith);
                }
                batches.push(batch);
                proof {
                    full = full + 1;
                    assert(batcher.pending() =~= Seq::new(
                        0nat,
                        |j: int| (full * batch_size + j) as usize,
                    ));
                }
            },
            None => {
                proof {
                    assert(batcher.pending() =~= Seq::new(
                        batcher.pending().len(),
                        |j: int| (full * batch_size + j) as usize,
                    ));
                }
            },
        }
        i = i + 1;
    }
    let ghost rem = batcher.pending().len() as int;
    proof {
        vstd::arithmetic::div_mod::lemma_fundamental_div_mod_converse(
            items as int,
            batch_size as int,
            full,
            rem,
        );
        assert forall|k: int| 0 <= k < full implies (#[trigger] batches@[k])@
            == spec_typical_batch(batch_size as int, items as int, k) by {
            assert(k * batch_size + batch_size <= full * batch_size) by (nonlinear_arith)
                requires
                    k + 1 <= full,
                    batch_size > 0,
            ;
        }
    }
    if finish {
        match batcher.finish() {
            Some(batch) => {
                proof {
                    assert(batch@ =~= spec_typical_batch(batch_size as int, items as int, full));
                }
                batches.push(batch);
            },
            None => {},
        }
    }
    batches
}

} // verus!

use std::collections::VecDeque;
use vstd::prelude::*;
use vstd::std_specs::iter::IteratorSpec;

verus! {

/// What a batch is, mathematically: its position in the partition and the
/// items it carries, in order.
pub struct BatchView<T> {
    pub id: int,
    pub items: Seq<T>,
}

/// A slice of the input sequence, tagged with its position among the slices.
pub struct WorkBatch<T> {
    pub id: usize,
    pub items: Vec<T>,
}

/// The results computed for one `WorkBatch`, under the same id.
pub struct OutputBatch<T> {
    pub id: usize,
    pub items: Vec<T>,
}

impl<T> View for WorkBatch<T> {
    type V = BatchView<T>;

    open spec fn view(&self) -> BatchView<T> {
        BatchView { id: self.id as int, items: self.items@ }
    }
}

impl<T> View for OutputBatch<T> {
    type V = BatchView<T>;

    open spec fn view(&self) -> BatchView<T> {
        BatchView { id: self.id as int, items: self.items@ }
    }
}

/// The views of a sequence of work batches, in the same order.
pub open spec fn work_views<T>(batches: Seq<WorkBatch<T>>) -> Seq<BatchView<T>> {
    Seq::new(batches.len(), |k: int| batches[k]@)
}

/// The views of a sequence of output batches, in the same order.
pub open spec fn output_views<T>(batches: Seq<OutputBatch<T>>) -> Seq<BatchView<T>> {
    Seq::new(batches.len(), |k: int| batches[k]@)
}

/// Number of items in each batch when `total` items are cut into
/// `batch_count` batches.
pub open spec fn batch_size(total: nat, batch_count: nat) -> int {
    total as int / batch_count as int
}

/// The partition of `items` into `batch_count` contiguous batches of equal
/// length: batch `k` has id `k` and holds the `k`-th slice.
pub open spec fn partition<T>(items: Seq<T>, batch_count: nat) -> Seq<BatchView<T>> {
    let size = batch_size(items.len(), batch_count);
    Seq::new(
        batch_count,
        |k: int| BatchView { id: k, items: items.subrange(k * size, (k + 1) * size) },
    )
}

/// A sequence can be cut into `batch_count` equal batches.
pub open spec fn divides_evenly(total: nat, batch_count: nat) -> bool {
    batch_count > 0 && total % batch_count == 0
}

/// With an even division, the batches cover the sequence exactly, and every
/// prefix of batches stays inside it.
pub proof fn lemma_batches_cover(total: nat, batch_count: nat, k: int)
    requires
        divides_evenly(total, batch_count),
        0 <= k <= batch_count,
    ensures
        batch_size(total, batch_count) * batch_count == total,
        0 <= k * batch_size(total, batch_count) <= total,
        k < batch_count ==> (k + 1) * batch_size(total, batch_count) <= total,
        (k + 1) * batch_size(total, batch_count) == k * batch_size(total, batch_count)
            + batch_size(total, batch_count),
{
    let size = batch_size(total, batch_count);
    vstd::arithmetic::div_mod::lemma_fundamental_div_mod(total as int, batch_count as int);
    assert(size * batch_count == total) by (nonlinear_arith)
        requires
            total == batch_count * size + 0,
    ;
    assert(0 <= size) by (nonlinear_arith)
        requires
            size * batch_count == total,
            batch_count > 0,
            total >= 0,
    ;
    assert(0 <= k * size <= size * batch_count) by (nonlinear_arith)
        requires
            0 <= k <= batch_count,
            0 <= size,
    ;
    assert((k + 1) * size == k * size + size) by (nonlinear_arith);
    if k < batch_count {
        assert((k + 1) * size <= size * batch_count) by (nonlinear_arith)
            requires
                0 <= k + 1 <= batch_count,
                0 <= size,
        ;
    }
}

impl<T> WorkBatch<T> {
    /// The batch with the given id and items.
    pub fn new(id: usize, items: Vec<T>) -> (batch: Self)
        ensures
            batch.id == id,
            batch.items == items,
    {
        Self { id, items }
    }
}

impl<T> OutputBatch<T> {
    /// An output batch with no results yet.
    pub fn new(id: usize) -> (batch: Self)
        ensures
            batch.id == id,
            batch.items@ == Seq::<T>::empty(),
    {
        let items = Vec::new();
        Self { id, items }
    }
}

impl<T> IntoIterator for OutputBatch<T> {
    type Item = T;

    type IntoIter = std::vec::IntoIter<T>;

    fn into_iter(self) -> (iter: Self::IntoIter)
        ensures
            IteratorSpec::remaining(&iter) == self.items@,
    {
        broadcast use vstd::std_specs::vec::axiom_spec_into_iter;

        self.items.into_iter()
    }
}

impl<'a, T> IntoIterator for &'a OutputBatch<T> {
    type Item = &'a T;

    type IntoIter = std::slice::Iter<'a, T>;

    fn into_iter(self) -> (iter: Self::IntoIter)
        ensures
            IteratorSpec::remaining(&iter).unref() == self.items@,
    {
        broadcast use vstd::std_specs::slice::axiom_spec_slice_iter;

        self.items.iter()
    }
}

/// Cuts a sequence of items into batches.
pub struct Batcher<T> {
    items: Vec<T>,
}

impl<T> View for Batcher<T> {
    type V = Seq<T>;

    closed spec fn view(&self) -> Seq<T> {
        self.items@
    }
}

impl<T> Batcher<T> {
    /// A batcher that holds `items`.
    pub fn new(items: Vec<T>) -> (batcher: Self)
        ensures
            batcher@ == items@,
    {
        Self { items }
    }

    /// Moves every item out into `batch_count` batches of equal length, in
    /// input order; batch `k` gets id `k`.
    pub fn create_batches(&mut self, batch_count: usize) -> (batches: VecDeque<WorkBatch<T>>)
        requires
            divides_evenly(old(self)@.len(), batch_count as nat),
        ensures
            work_views(batches@) == partition(old(self)@, batch_count as nat),
            final(self)@ == Seq::<T>::empty(),
    {
        let ghost all = self.items@;
        let ghost parts = partition(all, batch_count as nat);
        let batch_size = self.items.len() / batch_count;
        let mut work_batches: VecDeque<WorkBatch<T>> = VecDeque::new();
        let mut i: usize = batch_count;
        proof {
            lemma_batches_cover(all.len(), batch_count as nat, batch_count as int);
        }
        while i > 0
            invariant
                divides_evenly(all.len(), batch_count as nat),
                batch_size == self::batch_size(all.len(), batch_count as nat),
                parts == partition(all, batch_count as nat),
                0 <= i <= batch_count,
                all.len() <= usize::MAX,
                0 <= i * batch_size <= all.len(),
                self.items@ == all.subrange(0, i * batch_size),
                work_batches@.len() == batch_count - i,
                forall|j: int|
                    0 <= j < batch_count - i ==> (#[trigger] work_batches@[j])@ == parts[i + j],
            decreases i,
        {
            proof {
                lemma_batches_cover(all.len(), batch_count as nat, i - 1);
            }
            i -= 1;
            let tail = self.items.split_off(i * batch_size);
            let batch = WorkBatch::new(i, tail);
            assert(batch@.items =~= parts[i as int].items);
            work_batches.push_front(batch);
        }
        work_batches
    }
}

} // verus!

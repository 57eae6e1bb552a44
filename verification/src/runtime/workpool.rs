use super::batches::{
    batch_size, divides_evenly, lemma_batches_cover, work_views, BatchView, WorkBatch,
};
use super::runtime::WorkQueue;
use std::collections::VecDeque;
use std::marker::PhantomData;
use vstd::prelude::*;

verus! {

/// A queue that hands its batches out from the back. `id` names the worker
/// that the queue was made for, `items` is the number of batches that it was
/// made with.
pub struct BaseQueue<T> {
    pub id: usize,
    pub items: usize,
    pub work: VecDeque<WorkBatch<T>>,
}

impl<T> WorkQueue<T> for BaseQueue<T> {
    open spec fn queued(&self) -> Seq<BatchView<T>> {
        work_views(self.work@)
    }

    open spec fn owner(&self) -> usize {
        self.id
    }

    open spec fn assigned(&self) -> nat {
        self.items as nat
    }

    fn new(id: usize, batches: Vec<WorkBatch<T>>) -> (queue: Self) {
        let items = batches.len();
        let ghost all = batches@;
        let mut rest = batches;
        let mut work: VecDeque<WorkBatch<T>> = VecDeque::new();
        while rest.len() > 0
            invariant
                rest@.len() <= all.len(),
                rest@ == all.subrange(0, rest@.len() as int),
                work@ == all.subrange(rest@.len() as int, all.len() as int),
            decreases rest@.len(),
        {
            match rest.pop() {
                Some(batch) => {
                    work.push_front(batch);
                },
                None => {},
            }
        }
        Self { id, items, work }
    }

    fn empty(&self) -> (none: bool) {
        self.items <= 0
    }

    fn push(&mut self, batch: WorkBatch<T>) {
        self.work.push_front(batch);
    }

    fn pop(&mut self) -> (batch: Option<WorkBatch<T>>) {
        self.work.pop_back()
    }
}

/// The batches that fall to worker `w` when `batches` are dealt out evenly,
/// in order, to `worker_count` workers.
pub open spec fn share_of<T>(batches: Seq<BatchView<T>>, worker_count: nat, w: int) -> Seq<
    BatchView<T>,
> {
    let share = batch_size(batches.len(), worker_count);
    batches.subrange(w * share, (w + 1) * share)
}

/// One queue per worker.
pub struct WorkPool<T, Q> {
    pub pool: Vec<Q>,
    pub _phantom: PhantomData<T>,
}

impl<T, Q> View for WorkPool<T, Q> {
    type V = Seq<Q>;

    open spec fn view(&self) -> Seq<Q> {
        self.pool@
    }
}

impl<T, Q> WorkPool<T, Q> where Q: WorkQueue<T> {
    /// Deals the batches out to `worker_count` queues: the same number to
    /// each, in order, queue `w` made for worker `w`.
    pub fn new(worker_count: usize, mut batches: VecDeque<WorkBatch<T>>) -> (work_pool: Self)
        requires
            divides_evenly(batches@.len(), worker_count as nat),
        ensures
            work_pool@.len() == worker_count,
            forall|w: int|
                0 <= w < worker_count ==> {
                    &&& (#[trigger] work_pool@[w]).queued() == share_of(
                        work_views(batches@),
                        worker_count as nat,
                        w,
                    )
                    &&& work_pool@[w].owner() == w
                    &&& work_pool@[w].assigned() == batch_size(
                        batches@.len(),
                        worker_count as nat,
                    )
                },
    {
        let ghost all = batches@;
        let batch_count = batches.len() / worker_count;
        let mut pool: Vec<Q> = Vec::new();
        let mut i: usize = 0;
        proof {
            lemma_batches_cover(all.len(), worker_count as nat, 0);
        }
        while i < worker_count
            invariant
                divides_evenly(all.len(), worker_count as nat),
                batch_count == batch_size(all.len(), worker_count as nat),
                0 <= i <= worker_count,
                0 <= i * batch_count <= all.len(),
                batches@ == all.subrange(i * batch_count, all.len() as int),
                pool@.len() == i,
                forall|w: int|
                    0 <= w < i ==> {
                        &&& (#[trigger] pool@[w]).queued() == share_of(
                            work_views(all),
                            worker_count as nat,
                            w,
                        )
                        &&& pool@[w].owner() == w
                        &&& pool@[w].assigned() == batch_count
                    },
            decreases worker_count - i,
        {
            proof {
                lemma_batches_cover(all.len(), worker_count as nat, i as int);
            }
            let ghost start = i * batch_count;
            let mut queue_batches: Vec<WorkBatch<T>> = Vec::new();
            let mut j: usize = 0;
            while j < batch_count
                invariant
                    0 <= j <= batch_count,
                    0 <= start,
                    start + batch_count <= all.len(),
                    batches@ == all.subrange(start + j, all.len() as int),
                    queue_batches@ == all.subrange(start, start + j),
                decreases batch_count - j,
            {
                match batches.pop_front() {
                    Some(batch) => {
                        queue_batches.push(batch);
                    },
                    None => {},
                }
                j += 1;
            }
            let queue = Q::new(i, queue_batches);
            pool.push(queue);
            i += 1;
        }
        Self { pool, _phantom: PhantomData }
    }
}

} // verus!

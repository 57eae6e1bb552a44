use super::batches::{
    batch_size, divides_evenly, lemma_batches_cover, output_views, partition, work_views,
    BatchView, Batcher, OutputBatch, WorkBatch,
};
use super::assembly::{
    assemble, assembled, distinct_ids, has_id, in_id_order, lemma_every_id_present,
    lemma_flatten_uniform,
};
use super::workpool::{share_of, WorkPool};
use std::sync::Arc;
use vstd::prelude::*;

verus! {

/// A computation applied to every item of the input.
pub trait Job<T, U> {
    /// The outputs that `run` may give for an input. A pure job allows one
    /// output for each input; a job that draws random numbers allows many.
    /// A job that does not say allows any.
    open spec fn produces(&self, input: T, output: U) -> bool {
        true
    }

    fn run(&self, input: &T) -> (output: U)
        ensures
            self.produces(*input, output),
    ;
}

/// The batches that belong to one worker.
pub trait WorkQueue<T>: Sized {
    /// The batches waiting in the queue. `pop` takes from the end, `push`
    /// adds at the front.
    spec fn queued(&self) -> Seq<BatchView<T>>;

    /// The worker that the queue was made for.
    spec fn owner(&self) -> usize;

    /// The number of batches that the queue was made with.
    spec fn assigned(&self) -> nat;

    fn new(id: usize, batches: Vec<WorkBatch<T>>) -> (queue: Self)
        ensures
            queue.queued() == work_views(batches@),
            queue.owner() == id,
            queue.assigned() == batches@.len(),
    ;

    /// Whether the queue was made without any batch.
    fn empty(&self) -> (none: bool)
        ensures
            none == (self.assigned() == 0),
    ;

    fn push(&mut self, batch: WorkBatch<T>)
        ensures
            final(self).queued() == seq![batch@] + old(self).queued(),
            final(self).owner() == old(self).owner(),
            final(self).assigned() == old(self).assigned(),
    ;

    fn pop(&mut self) -> (batch: Option<WorkBatch<T>>)
        ensures
            match batch {
                Some(b) => {
                    &&& old(self).queued().len() > 0
                    &&& b@ == old(self).queued().last()
                    &&& final(self).queued() == old(self).queued().drop_last()
                },
                None => {
                    &&& old(self).queued().len() == 0
                    &&& final(self).queued() == old(self).queued()
                },
            },
            final(self).owner() == old(self).owner(),
            final(self).assigned() == old(self).assigned(),
    ;
}

/// The fixed parameters of one scheduler: how many workers, how many
/// batches, and the types of input, output, job and queue.
pub trait WorkConfig: Send + Sync + 'static {
    const THREAD_COUNT: usize;
    const BATCH_COUNT: usize;

    type Input: Send + Sync + 'static;
    type Output: Send + Sync + 'static;
    type Job: Job<Self::Input, Self::Output> + Send + Sync + 'static;
    type Queue: WorkQueue<Self::Input> + Send + Sync + 'static;
}

/// `out` is what `job` may give for the batch `work`: the same id, and one
/// output for each item, in the same order.
pub open spec fn answers<T, U, J: Job<T, U>>(
    job: J,
    work: BatchView<T>,
    out: BatchView<U>,
) -> bool {
    &&& out.id == work.id
    &&& out.items.len() == work.items.len()
    &&& forall|i: int|
        0 <= i < work.items.len() ==> #[trigger] job.produces(work.items[i], out.items[i])
}

/// The order of the inputs is restored whatever the order of arrival: where
/// each of the batches of a partition has been answered once, the assembled
/// results are as many as the inputs, and the result at each position is one
/// that the job may give for the input at that position.
pub proof fn lemma_order_restored<T, U, J: Job<T, U>>(
    job: J,
    inputs: Seq<T>,
    batch_count: nat,
    outputs: Seq<BatchView<U>>,
)
    requires
        divides_evenly(inputs.len(), batch_count),
        outputs.len() == batch_count,
        distinct_ids(outputs, batch_count),
        forall|k: int|
            0 <= k < outputs.len() ==> answers(
                job,
                partition(inputs, batch_count)[outputs[k].id],
                #[trigger] outputs[k],
            ),
    ensures
        assembled(outputs).len() == inputs.len(),
        forall|i: int|
            0 <= i < inputs.len() ==> job.produces(inputs[i], #[trigger] assembled(outputs)[i]),
{
    let slices = partition(inputs, batch_count);
    let size = batch_size(inputs.len(), batch_count);
    let parts = in_id_order(outputs);
    lemma_batches_cover(inputs.len(), batch_count, 0);
    lemma_every_id_present(outputs, batch_count);
    assert forall|id: int| 0 <= id < batch_count implies {
        &&& (#[trigger] parts[id]).len() == size
        &&& forall|j: int|
            0 <= j < size ==> job.produces(inputs[id * size + j], #[trigger] parts[id][j])
    } by {
        lemma_batches_cover(inputs.len(), batch_count, id);
        assert(has_id(outputs, id));
        assert forall|j: int| 0 <= j < size implies job.produces(
            inputs[id * size + j],
            #[trigger] parts[id][j],
        ) by {
            assert(slices[id].items[j] == inputs[id * size + j]);
        }
    }
    lemma_flatten_uniform(parts, size as nat);
    assert(parts.len() * size == size * batch_count) by (nonlinear_arith)
        requires
            parts.len() == batch_count,
    ;
    assert forall|i: int| 0 <= i < inputs.len() implies job.produces(
        inputs[i],
        #[trigger] assembled(outputs)[i],
    ) by {
        let id = i / size;
        let j = i % size;
        vstd::arithmetic::div_mod::lemma_fundamental_div_mod(i, size);
        assert(0 <= id < batch_count) by (nonlinear_arith)
            requires
                0 <= i < size * batch_count,
                size > 0,
                id == i / size,
        ;
        assert(assembled(outputs)[id * size + j] == parts[id][j]);
    }
}

/// With a pure job the results are the inputs' images: where the job allows
/// no output for an input but `f` of it, the assembled results are `f`
/// applied to each input, in input order, whatever the order of arrival.
pub proof fn lemma_pure_job_results<T, U, J: Job<T, U>>(
    job: J,
    inputs: Seq<T>,
    batch_count: nat,
    outputs: Seq<BatchView<U>>,
    f: spec_fn(T) -> U,
)
    requires
        forall|x: T, y: U| #[trigger] job.produces(x, y) ==> y == f(x),
        divides_evenly(inputs.len(), batch_count),
        outputs.len() == batch_count,
        distinct_ids(outputs, batch_count),
        forall|k: int|
            0 <= k < outputs.len() ==> answers(
                job,
                partition(inputs, batch_count)[outputs[k].id],
                #[trigger] outputs[k],
            ),
    ensures
        assembled(outputs) == inputs.map_values(f),
{
    lemma_order_restored(job, inputs, batch_count, outputs);
}

enum WorkStatus {
    Working,
    Completed,
}

/// One worker: a job, and the queue of batches that are its alone.
pub struct Worker<WC: WorkConfig> {
    _id: usize,
    job: Arc<WC::Job>,
    status: WorkStatus,
    work: WC::Queue,
}

impl<WC> Worker<WC> where WC: WorkConfig {
    /// The worker's number among the workers.
    pub closed spec fn id(&self) -> usize {
        self._id
    }

    /// The job that the worker runs.
    pub closed spec fn job(&self) -> WC::Job {
        *self.job
    }

    /// The batches still waiting; the last one is taken next.
    pub closed spec fn queued(&self) -> Seq<BatchView<WC::Input>> {
        self.work.queued()
    }

    /// Whether the worker has found its queue drained.
    pub closed spec fn completed(&self) -> bool {
        self.status is Completed
    }

    /// A worker that will run `job` on the batches of `work_queue`.
    pub fn new(_id: usize, job: &Arc<WC::Job>, work_queue: WC::Queue) -> (worker: Self)
        ensures
            worker.id() == _id,
            worker.job() == **job,
            worker.queued() == work_queue.queued(),
            !worker.completed(),
    {
        Self { _id, job: Arc::clone(job), status: WorkStatus::Working, work: work_queue }
    }

    /// Takes the next batch from the worker's own queue, if one is left.
    pub fn get_work(&mut self) -> (batch: Option<WorkBatch<WC::Input>>)
        ensures
            match batch {
                Some(b) => {
                    &&& old(self).queued().len() > 0
                    &&& b@ == old(self).queued().last()
                    &&& final(self).queued() == old(self).queued().drop_last()
                },
                None => {
                    &&& old(self).queued().len() == 0
                    &&& final(self).queued() == old(self).queued()
                },
            },
            final(self).id() == old(self).id(),
            final(self).job() == old(self).job(),
            final(self).completed() == old(self).completed(),
    {
        self.work.pop()
    }

    /// Runs the job on every item of the batch, in order.
    pub fn process_batch(&self, input_batch: &WorkBatch<WC::Input>) -> (output_batch: OutputBatch<
        WC::Output,
    >)
        ensures
            answers(self.job(), input_batch@, output_batch@),
    {
        let mut output_batch = OutputBatch::new(input_batch.id);
        let mut i: usize = 0;
        while i < input_batch.items.len()
            invariant
                0 <= i <= input_batch.items@.len(),
                output_batch.id == input_batch.id,
                output_batch.items@.len() == i,
                forall|k: int|
                    0 <= k < i ==> #[trigger] self.job().produces(
                        input_batch.items@[k],
                        output_batch.items@[k],
                    ),
            decreases input_batch.items@.len() - i,
        {
            let output_item = self.job.run(&input_batch.items[i]);
            output_batch.items.push(output_item);
            i += 1;
        }
        output_batch
    }

    /// Works the queue off: takes batch after batch until none is left, and
    /// returns the output batches in the order in which they were made.
    pub fn run(&mut self) -> (sent: Vec<OutputBatch<WC::Output>>)
        ensures
            sent@.len() == old(self).queued().len(),
            forall|m: int|
                0 <= m < sent@.len() ==> answers(
                    old(self).job(),
                    old(self).queued()[old(self).queued().len() - 1 - m],
                    #[trigger] sent@[m]@,
                ),
            final(self).queued() == Seq::<BatchView<WC::Input>>::empty(),
            final(self).completed(),
            final(self).id() == old(self).id(),
            final(self).job() == old(self).job(),
    {
        let ghost todo = self.queued();
        let mut sent: Vec<OutputBatch<WC::Output>> = Vec::new();
        loop
            invariant
                self.id() == old(self).id(),
                self.job() == old(self).job(),
                sent@.len() + self.queued().len() == todo.len(),
                self.queued() == todo.subrange(0, self.queued().len() as int),
                forall|m: int|
                    0 <= m < sent@.len() ==> answers(
                        self.job(),
                        todo[todo.len() - 1 - m],
                        #[trigger] sent@[m]@,
                    ),
            ensures
                sent@.len() == todo.len(),
                self.queued() == Seq::<BatchView<WC::Input>>::empty(),
            decreases self.queued().len(),
        {
            match self.get_work() {
                Some(batch) => {
                    let output_batch = self.process_batch(&batch);
                    sent.push(output_batch);
                },
                None => {
                    break ;
                },
            }
        }
        self.status = WorkStatus::Completed;
        sent
    }
}

/// Runs a job over a sequence of inputs: cuts the inputs into batches, deals
/// the batches out to workers, and puts the results back into input order.
pub struct Manager<WC: WorkConfig> {
    job: Arc<WC::Job>,
    workers: Vec<Worker<WC>>,
    collector: Vec<OutputBatch<WC::Output>>,
    inputs: Ghost<Seq<WC::Input>>,
}

impl<WC> Manager<WC> where WC: WorkConfig {
    /// The inputs that the manager was made with.
    pub closed spec fn inputs(&self) -> Seq<WC::Input> {
        self.inputs@
    }

    /// The job that is run on every input.
    pub closed spec fn job(&self) -> WC::Job {
        *self.job
    }

    /// The workers that the manager holds.
    pub closed spec fn staff(&self) -> Seq<Worker<WC>> {
        self.workers@
    }

    /// The output batches received so far, in the order of arrival.
    pub closed spec fn collected(&self) -> Seq<BatchView<WC::Output>> {
        output_views(self.collector@)
    }

    /// `total` inputs can be scheduled: they divide evenly into the batches,
    /// and the batches divide evenly among the workers.
    pub open spec fn valid_config(total: nat) -> bool {
        &&& divides_evenly(total, WC::BATCH_COUNT as nat)
        &&& divides_evenly(WC::BATCH_COUNT as nat, WC::THREAD_COUNT as nat)
    }

    /// The batches that the inputs are cut into.
    pub open spec fn slices(&self) -> Seq<BatchView<WC::Input>> {
        partition(self.inputs(), WC::BATCH_COUNT as nat)
    }

    /// The configuration fits the inputs, and no batch was received twice.
    pub open spec fn wf(&self) -> bool {
        &&& Self::valid_config(self.inputs().len())
        &&& distinct_ids(self.collected(), WC::BATCH_COUNT as nat)
    }

    /// Nothing has run yet: worker `w` holds its share of the batches.
    pub open spec fn ready(&self) -> bool {
        &&& self.wf()
        &&& self.collected().len() == 0
        &&& self.staff().len() == WC::THREAD_COUNT
        &&& forall|w: int|
            0 <= w < WC::THREAD_COUNT ==> {
                &&& (#[trigger] self.staff()[w]).job() == self.job()
                &&& self.staff()[w].id() == w
                &&& self.staff()[w].queued() == share_of(
                    self.slices(),
                    WC::THREAD_COUNT as nat,
                    w,
                )
            }
    }

    /// Every batch has been received, once.
    pub open spec fn complete(&self) -> bool {
        &&& self.wf()
        &&& self.collected().len() == WC::BATCH_COUNT
    }

    /// Every batch received holds what the job may give for the slice of
    /// the inputs that has its id.
    pub open spec fn served(&self) -> bool {
        forall|k: int|
            0 <= k < self.collected().len() ==> answers(
                self.job(),
                self.slices()[self.collected()[k].id],
                #[trigger] self.collected()[k],
            )
    }

    /// No manager holds work under a configuration that breaks a rule of
    /// division: wherever batches are dealt out or have been received, the
    /// inputs divide evenly into the batches and the batches evenly among
    /// the workers.
    pub proof fn lemma_work_divides_evenly(&self)
        requires
            self.wf(),
        ensures
            WC::BATCH_COUNT > 0,
            WC::THREAD_COUNT > 0,
            self.inputs().len() % (WC::BATCH_COUNT as nat) == 0,
            WC::BATCH_COUNT % WC::THREAD_COUNT == 0,
            batch_size(self.inputs().len(), WC::BATCH_COUNT as nat) * WC::BATCH_COUNT
                == self.inputs().len(),
            batch_size(WC::BATCH_COUNT as nat, WC::THREAD_COUNT as nat) * WC::THREAD_COUNT
                == WC::BATCH_COUNT,
    {
        lemma_batches_cover(self.inputs().len(), WC::BATCH_COUNT as nat, 0);
        lemma_batches_cover(WC::BATCH_COUNT as nat, WC::THREAD_COUNT as nat, 0);
    }

    /// Whether `total` inputs can be scheduled under this configuration.
    pub fn accepts(total: usize) -> (ok: bool)
        ensures
            ok == Self::valid_config(total as nat),
    {
        WC::BATCH_COUNT > 0 && total % WC::BATCH_COUNT == 0 && WC::THREAD_COUNT > 0
            && WC::BATCH_COUNT % WC::THREAD_COUNT == 0
    }

    /// Cuts `data` into `BATCH_COUNT` batches and deals them out to
    /// `THREAD_COUNT` workers.
    pub fn new(job: &Arc<WC::Job>, data: Vec<WC::Input>) -> (manager: Self)
        requires
            Self::valid_config(data@.len()),
        ensures
            manager.ready(),
            manager.inputs() == data@,
            manager.job() == **job,
    {
        let ghost inputs = data@;
        let mut workers: Vec<Worker<WC>> = Vec::new();
        let mut batcher = Batcher::new(data);
        let batches = batcher.create_batches(WC::BATCH_COUNT);
        assert(work_views(batches@).len() == batches@.len());
        let work_pool: WorkPool<WC::Input, WC::Queue> = WorkPool::new(WC::THREAD_COUNT, batches);
        let ghost queues = work_pool@;
        let ghost slices = partition(inputs, WC::BATCH_COUNT as nat);
        for queue in it: work_pool.pool
            invariant
                it.seq() == queues,
                queues.len() == WC::THREAD_COUNT,
                forall|w: int|
                    0 <= w < queues.len() ==> {
                        &&& (#[trigger] queues[w]).owner() == w
                        &&& queues[w].queued() == share_of(slices, WC::THREAD_COUNT as nat, w)
                    },
                workers@.len() == it.index(),
                forall|w: int|
                    0 <= w < workers@.len() ==> {
                        &&& (#[trigger] workers@[w]).job() == **job
                        &&& workers@[w].id() == w
                        &&& workers@[w].queued() == share_of(slices, WC::THREAD_COUNT as nat, w)
                    },
        {
            let idx = workers.len();
            let worker = Worker::new(idx, job, queue);
            workers.push(worker);
        }
        Self { job: Arc::clone(job), workers, collector: Vec::new(), inputs: Ghost(inputs) }
    }

    /// Schedules `data`, runs the job on all of it and returns the results
    /// in the order of the inputs.
    pub fn run(job: &Arc<WC::Job>, data: Vec<WC::Input>) -> (results: Vec<WC::Output>)
        requires
            Self::valid_config(data@.len()),
        ensures
            results@.len() == data@.len(),
            forall|i: int|
                0 <= i < data@.len() ==> job.produces(data@[i], #[trigger] results@[i]),
    {
        let mut manager = Self::new(job, data);
        manager.execute();
        manager.join()
    }

    /// Runs every worker to the end of its queue, one worker after the
    /// other, and receives what each has made.
    pub fn execute(&mut self)
        requires
            old(self).ready(),
        ensures
            final(self).complete(),
            final(self).served(),
            final(self).inputs() == old(self).inputs(),
            final(self).job() == old(self).job(),
            final(self).staff().len() == old(self).staff().len(),
            forall|w: int|
                0 <= w < final(self).staff().len() ==> {
                    &&& (#[trigger] final(self).staff()[w]).completed()
                    &&& final(self).staff()[w].queued().len() == 0
                },
    {
        let ghost slices = self.slices();
        let ghost share = batch_size(WC::BATCH_COUNT as nat, WC::THREAD_COUNT as nat);
        let mut w: usize = 0;
        proof {
            lemma_batches_cover(WC::BATCH_COUNT as nat, WC::THREAD_COUNT as nat, 0);
        }
        while w < self.workers.len()
            invariant
                self.inputs() == old(self).inputs(),
                self.job() == old(self).job(),
                Self::valid_config(self.inputs().len()),
                slices == self.slices(),
                share == batch_size(WC::BATCH_COUNT as nat, WC::THREAD_COUNT as nat),
                self.workers@.len() == WC::THREAD_COUNT,
                0 <= w <= WC::THREAD_COUNT,
                forall|v: int|
                    w <= v < WC::THREAD_COUNT ==> {
                        &&& (#[trigger] self.workers@[v]).job() == self.job()
                        &&& self.workers@[v].queued() == share_of(
                            slices,
                            WC::THREAD_COUNT as nat,
                            v,
                        )
                    },
                forall|v: int|
                    0 <= v < w ==> {
                        &&& (#[trigger] self.workers@[v]).completed()
                        &&& self.workers@[v].queued().len() == 0
                    },
                self.collected().len() == w * share,
                distinct_ids(self.collected(), (w * share) as nat),
                self.served(),
            decreases WC::THREAD_COUNT - w,
        {
            proof {
                lemma_batches_cover(WC::BATCH_COUNT as nat, WC::THREAD_COUNT as nat, w as int);
            }
            let ghost staff_before = self.workers@;
            let ghost got_before = self.collected();
            let mut sent = self.workers[w].run();
            let ghost sent_seq = sent@;
            let ghost sent_views = output_views(sent_seq);
            assert(forall|v: int|
                0 <= v < WC::THREAD_COUNT && v != w ==> self.workers@[v] == staff_before[v]);
            self.collector.append(&mut sent);
            proof {
                // Worker `w` held the batches `base .. base + share` and took them
                // from the back: its `m`-th output answers batch `base + share - 1 - m`.
                let base = w * share;
                assert(self.collected() =~= got_before + sent_views);
                assert(forall|m: int|
                    0 <= m < share ==> {
                        &&& (#[trigger] sent_views[m]).id == base + share - 1 - m
                        &&& answers(self.job(), slices[sent_views[m].id], sent_views[m])
                    });
                assert((w + 1) * share == base + share) by (nonlinear_arith)
                    requires
                        base == w * share,
                ;
            }
            w += 1;
        }
        proof {
            lemma_batches_cover(
                WC::BATCH_COUNT as nat,
                WC::THREAD_COUNT as nat,
                WC::THREAD_COUNT as int,
            );
        }
    }

    /// Hands the workers out, to be run elsewhere.
    pub fn take_workers(&mut self) -> (workers: Vec<Worker<WC>>)
        ensures
            workers@ == old(self).staff(),
            final(self).staff().len() == 0,
            final(self).collected() == old(self).collected(),
            final(self).inputs() == old(self).inputs(),
            final(self).job() == old(self).job(),
    {
        let mut workers: Vec<Worker<WC>> = Vec::new();
        std::mem::swap(&mut self.workers, &mut workers);
        workers
    }

    /// A batch that may be received now: its id is one of the partition's,
    /// and no batch with that id has come in yet.
    pub open spec fn admissible(&self, batch: BatchView<WC::Output>) -> bool {
        &&& 0 <= batch.id < WC::BATCH_COUNT
        &&& !has_id(self.collected(), batch.id)
    }

    /// Whether `batch` may be received now.
    pub fn admits(&self, batch: &OutputBatch<WC::Output>) -> (ok: bool)
        ensures
            ok == self.admissible(batch@),
    {
        if batch.id >= WC::BATCH_COUNT {
            return false;
        }
        let mut k: usize = 0;
        while k < self.collector.len()
            invariant
                0 <= k <= self.collector@.len(),
                forall|j: int| 0 <= j < k ==> (#[trigger] self.collected()[j]).id != batch.id,
            decreases self.collector@.len() - k,
        {
            if self.collector[k].id == batch.id {
                assert(self.collected()[k as int].id == batch@.id);
                return false;
            }
            k += 1;
        }
        true
    }

    /// Receives one output batch.
    pub fn collect(&mut self, batch: OutputBatch<WC::Output>)
        requires
            old(self).wf(),
            old(self).admissible(batch@),
        ensures
            final(self).wf(),
            final(self).collected() == old(self).collected().push(batch@),
            final(self).staff() == old(self).staff(),
            final(self).inputs() == old(self).inputs(),
            final(self).job() == old(self).job(),
    {
        let ghost before = self.collected();
        self.collector.push(batch);
        proof {
            assert(self.collected() =~= before.push(batch@));
        }
    }

    /// Whether every batch has been received.
    pub fn is_complete(&self) -> (done: bool)
        requires
            self.wf(),
        ensures
            done == self.complete(),
    {
        self.collector.len() == WC::BATCH_COUNT
    }

    /// Puts the results back into input order and returns them: the batches
    /// received are sorted by id and their items joined.
    pub fn join(&mut self) -> (results: Vec<WC::Output>)
        requires
            old(self).complete(),
        ensures
            results@ == assembled(old(self).collected()),
            old(self).served() ==> results@.len() == old(self).inputs().len(),
            old(self).served() ==> forall|i: int|
                0 <= i < results@.len() ==> old(self).job().produces(
                    old(self).inputs()[i],
                    #[trigger] results@[i],
                ),
            final(self).collected().len() == 0,
            final(self).wf(),
            final(self).staff() == old(self).staff(),
            final(self).inputs() == old(self).inputs(),
            final(self).job() == old(self).job(),
    {
        let mut batches: Vec<OutputBatch<WC::Output>> = Vec::new();
        std::mem::swap(&mut self.collector, &mut batches);
        proof {
            if old(self).served() {
                lemma_order_restored(
                    old(self).job(),
                    old(self).inputs(),
                    WC::BATCH_COUNT as nat,
                    old(self).collected(),
                );
            }
        }
        assemble(batches)
    }
}

} // verus!

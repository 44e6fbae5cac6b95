//! Bounded, archive-scoped workers for disk operations.
//!
//! A phase has a fixed number of workers and a short queue in front of them; one
//! worker serves many operations. Joining a phase closes its queue, lets the
//! workers empty it and ends each of them. A later operation begins another
//! phase. The threads themselves belong to the caller, who reports what they do
//! and is told what they do next.

use vstd::prelude::*;

verus! {

/// How many operations may wait in the queue of a phase.
pub const QUEUE_CAPACITY: usize = 5;

/// What a worker does.
#[derive(Debug, Clone, Copy, PartialEq, Eq, Structural)]
pub enum Worker {
    /// It has no operation.
    Waiting,
    /// It performs the operation.
    Running { work: u64 },
    /// It has ended, well or by a failed operation.
    Stopped { ok: bool },
}

/// One group of workers and the queue they share.
#[derive(Debug)]
pub struct Phase {
    queue: Vec<u64>,
    open: bool,
    workers: Vec<Worker>,
}

/// A pool of at most `limit` workers at a time.
#[derive(Debug)]
pub struct TokioPool {
    limit: usize,
    left: usize,
    phase: Option<Phase>,
}

/// A phase: the operations that wait, in order, whether more may come, and what
/// each worker does.
pub struct PhaseView {
    pub queue: Seq<u64>,
    pub open: bool,
    pub workers: Seq<Worker>,
}

/// A pool: its limit, how many operations count as queued that failed phases have
/// left undone, and the phase that is under way.
pub struct PoolView {
    pub limit: nat,
    pub left: usize,
    pub phase: Option<PhaseView>,
}

impl View for Phase {
    type V = PhaseView;

    closed spec fn view(&self) -> PhaseView {
        PhaseView { queue: self.queue@, open: self.open, workers: self.workers@ }
    }
}

impl View for TokioPool {
    type V = PoolView;

    closed spec fn view(&self) -> PoolView {
        PoolView {
            limit: self.limit as nat,
            left: self.left,
            phase: match self.phase {
                Some(phase) => Some(phase@),
                None => None,
            },
        }
    }
}

/// Whether every worker has ended.
pub open spec fn all_stopped(workers: Seq<Worker>) -> bool {
    forall|i: int| 0 <= i < workers.len() ==> #[trigger] workers[i] is Stopped
}

/// Whether every worker has ended well.
pub open spec fn all_stopped_well(workers: Seq<Worker>) -> bool {
    forall|i: int|
        0 <= i < workers.len() ==> #[trigger] workers[i] == (Worker::Stopped { ok: true })
}

impl PhaseView {
    /// The queue keeps its bound, and a worker ends well only once the queue is
    /// closed and empty.
    pub open spec fn wf(self) -> bool {
        &&& self.queue.len() <= QUEUE_CAPACITY
        &&& forall|i: int|
            0 <= i < self.workers.len() && #[trigger] self.workers[i] == (Worker::Stopped {
                ok: true,
            }) ==> !self.open && self.queue.len() == 0
    }
}

/// A counter once `more` was added to it, which starts again at nothing behind its
/// largest value.
pub open spec fn counted(count: usize, more: nat) -> usize {
    count.wrapping_add(more as usize)
}

impl PoolView {
    /// There are as many workers as the limit says.
    pub open spec fn wf(self) -> bool {
        &&& self.limit > 0
        &&& self.phase matches Some(phase) ==> phase.wf() && phase.workers.len() == self.limit
    }

    /// Whether an operation may be handed in: no phase is being joined.
    pub open spec fn accepts(self) -> bool {
        self.phase matches Some(phase) ==> phase.open
    }

    /// How many operations count as queued: those that wait, and those that failed
    /// phases have left undone.
    pub open spec fn queued(self) -> usize {
        match self.phase {
            Some(phase) => counted(self.left, phase.queue.len()),
            None => self.left,
        }
    }
}

/// The phase that begins with `limit` workers.
pub open spec fn fresh_phase(limit: nat) -> PhaseView {
    PhaseView {
        queue: seq![],
        open: true,
        workers: Seq::new(limit, |i: int| Worker::Waiting),
    }
}

/// The phase under way, or the one that begins.
pub open spec fn current_phase(pool: PoolView) -> PhaseView {
    match pool.phase {
        Some(phase) => phase,
        None => fresh_phase(pool.limit),
    }
}

/// What became of an operation that was handed in.
#[derive(Debug, Clone, Copy, PartialEq, Eq, Structural)]
pub enum Admission {
    /// It waits in the queue.
    Queued,
    /// The queue is full: hand it in again once a worker has taken one.
    Full,
    /// No worker is left to perform it. It counts as queued all the same.
    NoWorkers,
}

/// What becomes of an operation that is handed in.
pub open spec fn admission_of(pool: PoolView) -> Admission {
    let phase = current_phase(pool);
    if all_stopped(phase.workers) {
        Admission::NoWorkers
    } else if phase.queue.len() < QUEUE_CAPACITY {
        Admission::Queued
    } else {
        Admission::Full
    }
}

/// The pool once `work` was handed in.
pub open spec fn after_execute(pool: PoolView, work: u64) -> PoolView {
    let phase = current_phase(pool);
    match admission_of(pool) {
        Admission::Queued => PoolView {
            phase: Some(PhaseView { queue: phase.queue.push(work), ..phase }),
            ..pool
        },
        Admission::Full => PoolView { phase: Some(phase), ..pool },
        Admission::NoWorkers => PoolView {
            left: counted(pool.left, 1),
            phase: Some(phase),
            ..pool
        },
    }
}

/// What a worker does next.
#[derive(Debug, Clone, Copy, PartialEq, Eq, Structural)]
pub enum Turn {
    /// Perform the operation.
    Run { work: u64 },
    /// Wait until an operation comes or the queue is closed.
    Wait,
    /// End.
    Exit,
}

/// What a worker without an operation does next: the operation that waits
/// longest, and the end only once no more can come.
pub open spec fn turn_of(phase: PhaseView) -> Turn {
    if phase.queue.len() > 0 {
        Turn::Run { work: phase.queue[0] }
    } else if phase.open {
        Turn::Wait
    } else {
        Turn::Exit
    }
}

/// The phase once a worker has taken its turn.
pub open spec fn phase_after_take(phase: PhaseView, worker: int) -> PhaseView {
    match turn_of(phase) {
        Turn::Run { work } => PhaseView {
            queue: phase.queue.drop_first(),
            workers: phase.workers.update(worker, Worker::Running { work }),
            ..phase
        },
        Turn::Wait => phase,
        Turn::Exit => PhaseView {
            workers: phase.workers.update(worker, Worker::Stopped { ok: true }),
            ..phase
        },
    }
}

/// The pool once a worker has taken its turn.
pub open spec fn after_take(pool: PoolView, worker: int) -> PoolView {
    PoolView { phase: Some(phase_after_take(current_phase(pool), worker)), ..pool }
}

/// The pool once a worker has performed its operation: a failed operation ends
/// the worker.
pub open spec fn after_finish(pool: PoolView, worker: int, ok: bool) -> PoolView {
    let phase = current_phase(pool);
    let next = if ok {
        Worker::Waiting
    } else {
        Worker::Stopped { ok: false }
    };
    PoolView {
        phase: Some(PhaseView { workers: phase.workers.update(worker, next), ..phase }),
        ..pool
    }
}

/// How joining the phase stands.
#[derive(Debug, Clone, Copy, PartialEq, Eq, Structural)]
pub enum JoinStatus {
    /// No phase is under way.
    Idle,
    /// The queue is closed; workers have still to end.
    Draining,
    /// Every worker has ended well.
    Finished,
    /// Every worker has ended, one of them by a failed operation.
    Failed,
}

/// How joining stands.
pub open spec fn join_status_of(pool: PoolView) -> JoinStatus {
    match pool.phase {
        None => JoinStatus::Idle,
        Some(phase) => if !all_stopped(phase.workers) {
            JoinStatus::Draining
        } else if all_stopped_well(phase.workers) {
            JoinStatus::Finished
        } else {
            JoinStatus::Failed
        },
    }
}

/// The pool once joining was asked for: the queue is closed, and a phase whose
/// workers have all ended is over. What a failed phase leaves in its queue is
/// forgotten, but still counts as queued.
pub open spec fn after_join(pool: PoolView) -> PoolView {
    match join_status_of(pool) {
        JoinStatus::Idle => pool,
        JoinStatus::Draining => PoolView {
            phase: Some(PhaseView { open: false, ..pool.phase.unwrap() }),
            ..pool
        },
        JoinStatus::Finished => PoolView { phase: None, ..pool },
        JoinStatus::Failed => PoolView {
            left: counted(pool.left, pool.phase.unwrap().queue.len()),
            phase: None,
            ..pool
        },
    }
}

impl TokioPool {
    /// A pool of at most `limit` workers, none of them begun.
    pub fn new(limit: usize) -> (r: TokioPool)
        requires
            limit > 0,
        ensures
            r@ == (PoolView { limit: limit as nat, left: 0, phase: None }),
            r@.wf(),
    {
        TokioPool { limit, left: 0, phase: None }
    }

    /// A phase with all its workers waiting.
    pub fn start_phase(&self) -> (r: Phase)
        ensures
            r@ == fresh_phase(self@.limit),
    {
        let limit: usize = self.limit;
        let mut workers: Vec<Worker> = Vec::new();
        let mut i: usize = 0;
        while i < limit
            invariant
                i <= limit,
                workers@.len() == i,
                forall|j: int| 0 <= j < i ==> workers@[j] == Worker::Waiting,
            decreases limit - i,
        {
            workers.push(Worker::Waiting);
            i = i + 1;
        }
        let queue: Vec<u64> = Vec::new();
        assert(queue@ =~= seq![]);
        assert(workers@ =~= fresh_phase(limit as nat).workers);
        Phase { queue, open: true, workers }
    }

    /// Whether every worker of a list has ended, and whether all ended well.
    fn survey(workers: &Vec<Worker>) -> (r: (bool, bool))
        ensures
            r.0 == all_stopped(workers@),
            r.0 ==> r.1 == all_stopped_well(workers@),
    {
        let mut well: bool = true;
        let mut i: usize = 0;
        while i < workers.len()
            invariant
                i <= workers@.len(),
                forall|j: int| 0 <= j < i ==> #[trigger] workers@[j] is Stopped,
                well ==> forall|j: int|
                    0 <= j < i ==> #[trigger] workers@[j] == (Worker::Stopped { ok: true }),
                !well ==> exists|j: int|
                    0 <= j < i && #[trigger] workers@[j] != (Worker::Stopped { ok: true }),
            decreases workers@.len() - i,
        {
            match workers[i] {
                Worker::Stopped { ok } => {
                    if !ok {
                        well = false;
                    }
                },
                _ => {
                    assert(!(workers@[i as int] is Stopped));
                    return (false, false);
                },
            }
            i = i + 1;
        }
        (true, well)
    }

    /// Hands in the operation `work`, which begins a phase where none is under
    /// way.
    pub fn execute(&mut self, work: u64) -> (r: Admission)
        requires
            old(self)@.wf(),
            old(self)@.accepts(),
        ensures
            r == admission_of(old(self)@),
            final(self)@ == after_execute(old(self)@, work),
            final(self)@.wf(),
    {
        let mut phase = match self.phase.take() {
            Some(phase) => phase,
            None => self.start_phase(),
        };
        let ghost before = phase@;
        let (stopped, _) = Self::survey(&phase.workers);
        let admission = if stopped {
            self.left = self.left.wrapping_add(1);
            Admission::NoWorkers
        } else if phase.queue.len() < QUEUE_CAPACITY {
            phase.queue.push(work);
            Admission::Queued
        } else {
            Admission::Full
        };
        assert(phase@ =~= (if admission == Admission::Queued {
            PhaseView { queue: before.queue.push(work), ..before }
        } else {
            before
        }));
        self.phase = Some(phase);
        admission
    }

    /// What the worker does next, which has no operation.
    pub fn take(&mut self, worker: usize) -> (r: Turn)
        requires
            old(self)@.wf(),
            old(self)@.phase is Some,
            worker < old(self)@.limit,
            old(self)@.phase.unwrap().workers[worker as int] is Waiting,
        ensures
            r == turn_of(old(self)@.phase.unwrap()),
            final(self)@ == after_take(old(self)@, worker as int),
            final(self)@.wf(),
    {
        let mut phase = self.phase.take().unwrap();
        let ghost before = phase@;
        let turn = if phase.queue.len() > 0 {
            let work: u64 = phase.queue.remove(0);
            phase.workers.set(worker, Worker::Running { work });
            assert(phase.queue@ =~= before.queue.drop_first());
            Turn::Run { work }
        } else if phase.open {
            Turn::Wait
        } else {
            phase.workers.set(worker, Worker::Stopped { ok: true });
            Turn::Exit
        };
        assert(phase@ == phase_after_take(before, worker as int));
        self.phase = Some(phase);
        turn
    }

    /// Reports that the worker has performed its operation, or failed at it.
    pub fn finish(&mut self, worker: usize, ok: bool)
        requires
            old(self)@.wf(),
            old(self)@.phase is Some,
            worker < old(self)@.limit,
            old(self)@.phase.unwrap().workers[worker as int] is Running,
        ensures
            final(self)@ == after_finish(old(self)@, worker as int, ok),
            final(self)@.wf(),
    {
        let mut phase = self.phase.take().unwrap();
        phase.workers.set(
            worker,
            if ok {
                Worker::Waiting
            } else {
                Worker::Stopped { ok: false }
            },
        );
        self.phase = Some(phase);
    }

    /// Closes the queue of the phase under way, and ends the phase once all its
    /// workers have ended. To be called again while workers have still to end.
    pub fn join(&mut self) -> (r: JoinStatus)
        requires
            old(self)@.wf(),
        ensures
            r == join_status_of(old(self)@),
            final(self)@ == after_join(old(self)@),
            final(self)@.wf(),
    {
        match self.phase.take() {
            None => JoinStatus::Idle,
            Some(mut phase) => {
                let (stopped, well) = Self::survey(&phase.workers);
                if !stopped {
                    phase.open = false;
                    self.phase = Some(phase);
                    JoinStatus::Draining
                } else if well {
                    proof {
                        assert(phase@.workers[0] == (Worker::Stopped { ok: true }));
                    }
                    JoinStatus::Finished
                } else {
                    self.left = self.left.wrapping_add(phase.queue.len());
                    JoinStatus::Failed
                }
            },
        }
    }

    /// How many operations count as queued: those that no worker has taken yet, and
    /// those that failed phases have left undone.
    pub fn queued_count(&self) -> (r: usize)
        ensures
            r == self@.queued(),
    {
        match &self.phase {
            Some(phase) => self.left.wrapping_add(phase.queue.len()),
            None => self.left,
        }
    }

    /// How many workers the phase under way has, for the caller to begin.
    pub fn limit(&self) -> (r: usize)
        ensures
            r == self@.limit,
    {
        self.limit
    }

    /// Whether a phase is under way.
    pub fn has_phase(&self) -> (r: bool)
        ensures
            r == (self@.phase is Some),
    {
        self.phase.is_some()
    }
}

} // verus!

//! What holds of a pool whatever its callers and its workers do, in any order.

use vstd::multiset::*;
use vstd::prelude::*;

use crate::pool::{
    admission_of, after_execute, after_finish, after_join, after_take, all_stopped, counted,
    current_phase, fresh_phase, join_status_of, phase_after_take, turn_of, Admission, JoinStatus, PhaseView,
    PoolView, Turn, Worker, QUEUE_CAPACITY,
};

verus! {

/// What can happen to a pool.
pub enum PoolEvent {
    /// An operation is handed in.
    Execute { work: u64 },
    /// A worker without an operation takes its turn.
    Take { worker: int },
    /// A worker has performed its operation, well or not.
    Finish { worker: int, ok: bool },
    /// Joining is asked for.
    Join,
}

/// Whether a worker of the phase under way is as described.
pub open spec fn worker_is(pool: PoolView, worker: int, running: bool) -> bool {
    &&& pool.phase is Some
    &&& 0 <= worker < pool.limit
    &&& if running {
        pool.phase.unwrap().workers[worker] is Running
    } else {
        pool.phase.unwrap().workers[worker] is Waiting
    }
}

/// Whether an event can happen to a pool.
pub open spec fn possible(pool: PoolView, event: PoolEvent) -> bool {
    match event {
        PoolEvent::Execute { work } => pool.accepts(),
        PoolEvent::Take { worker } => worker_is(pool, worker, false),
        PoolEvent::Finish { worker, ok } => worker_is(pool, worker, true),
        PoolEvent::Join => true,
    }
}

/// The pool after an event.
pub open spec fn pool_after(pool: PoolView, event: PoolEvent) -> PoolView {
    match event {
        PoolEvent::Execute { work } => after_execute(pool, work),
        PoolEvent::Take { worker } => after_take(pool, worker),
        PoolEvent::Finish { worker, ok } => after_finish(pool, worker, ok),
        PoolEvent::Join => after_join(pool),
    }
}

/// A pool with what the phase under way, or else the last one, was used for: the
/// operations that were queued, started and performed so far, each in that order, and
/// those of the performed ones that failed.
pub struct PoolRun {
    pub pool: PoolView,
    pub queued: Seq<u64>,
    pub started: Seq<u64>,
    pub performed: Seq<u64>,
    pub failed: Seq<u64>,
}

/// A pool that was not used yet.
pub open spec fn unused(limit: nat) -> PoolRun {
    PoolRun {
        pool: PoolView { limit, left: 0, phase: None },
        queued: seq![],
        started: seq![],
        performed: seq![],
        failed: seq![],
    }
}

/// The run as an operation finds it: one that begins a phase finds nothing done.
pub open spec fn run_at_execute(run: PoolRun) -> PoolRun {
    if run.pool.phase is None {
        PoolRun { pool: run.pool, ..unused(run.pool.limit) }
    } else {
        run
    }
}

/// The run after one more event.
pub open spec fn run_after(run: PoolRun, event: PoolEvent) -> PoolRun {
    let pool = pool_after(run.pool, event);
    match event {
        PoolEvent::Execute { work } => {
            let before = run_at_execute(run);
            if admission_of(run.pool) == Admission::Queued {
                PoolRun { pool, queued: before.queued.push(work), ..before }
            } else {
                PoolRun { pool, ..before }
            }
        },
        PoolEvent::Take { worker } => match turn_of(current_phase(run.pool)) {
            Turn::Run { work } => PoolRun { pool, started: run.started.push(work), ..run },
            _ => PoolRun { pool, ..run },
        },
        PoolEvent::Finish { worker, ok } => {
            let work = current_phase(run.pool).workers[worker]->work;
            PoolRun {
                pool,
                performed: run.performed.push(work),
                failed: if ok {
                    run.failed
                } else {
                    run.failed.push(work)
                },
                ..run
            }
        },
        PoolEvent::Join => PoolRun { pool, ..run },
    }
}

/// The run that a list of events makes.
pub open spec fn run_of(limit: nat, events: Seq<PoolEvent>) -> PoolRun
    decreases events.len(),
{
    if events.len() == 0 {
        unused(limit)
    } else {
        run_after(run_of(limit, events.drop_last()), events.last())
    }
}

/// Whether each event of a list can happen where it stands.
pub open spec fn can_happen(limit: nat, events: Seq<PoolEvent>) -> bool
    decreases events.len(),
{
    events.len() > 0 ==> can_happen(limit, events.drop_last()) && possible(
        run_of(limit, events.drop_last()).pool,
        events.last(),
    )
}

/// The operations that the workers of a list perform.
pub open spec fn in_work(workers: Seq<Worker>) -> Multiset<u64>
    decreases workers.len(),
{
    if workers.len() == 0 {
        Multiset::empty()
    } else {
        match workers.last() {
            Worker::Running { work } => in_work(workers.drop_last()).insert(work),
            _ => in_work(workers.drop_last()),
        }
    }
}

/// The operations under way in a pool.
pub open spec fn under_way(pool: PoolView) -> Multiset<u64> {
    match pool.phase {
        Some(phase) => in_work(phase.workers),
        None => Multiset::empty(),
    }
}

/// The operations that wait in a pool, in order.
pub open spec fn waiting(pool: PoolView) -> Seq<u64> {
    match pool.phase {
        Some(phase) => phase.queue,
        None => seq![],
    }
}

/// What one worker adds to the operations in work.
spec fn share(worker: Worker) -> Multiset<u64> {
    match worker {
        Worker::Running { work } => Multiset::singleton(work),
        _ => Multiset::empty(),
    }
}

proof fn lemma_in_work_update(workers: Seq<Worker>, at: int, worker: Worker)
    requires
        0 <= at < workers.len(),
    ensures
        in_work(workers.update(at, worker)).add(share(workers[at])) == in_work(workers).add(
            share(worker),
        ),
    decreases workers.len(),
{
    let updated = workers.update(at, worker);
    let front = workers.drop_last();
    if at == workers.len() - 1 {
        assert(updated.drop_last() =~= front);
        assert(in_work(workers) =~= in_work(front).add(share(workers.last())));
        assert(in_work(updated) =~= in_work(front).add(share(worker)));
        assert(in_work(updated).add(share(workers[at])) =~= in_work(workers).add(share(worker)));
    } else {
        assert(updated.drop_last() =~= front.update(at, worker));
        lemma_in_work_update(front, at, worker);
        assert(in_work(workers) =~= in_work(front).add(share(workers.last())));
        assert(in_work(updated) =~= in_work(front.update(at, worker)).add(share(workers.last())));
        assert(in_work(updated).add(share(workers[at])) =~= in_work(front.update(at, worker)).add(
            share(workers[at]),
        ).add(share(workers.last())));
        assert(in_work(workers).add(share(worker)) =~= in_work(front).add(share(worker)).add(
            share(workers.last()),
        ));
    }
}

proof fn lemma_in_work_len(workers: Seq<Worker>)
    ensures
        in_work(workers).len() <= workers.len(),
    decreases workers.len(),
{
    if workers.len() > 0 {
        lemma_in_work_len(workers.drop_last());
    }
}

proof fn lemma_nothing_in_work(workers: Seq<Worker>)
    requires
        forall|i: int| 0 <= i < workers.len() ==> !(#[trigger] workers[i] is Running),
    ensures
        in_work(workers) == Multiset::<u64>::empty(),
    decreases workers.len(),
{
    if workers.len() > 0 {
        let front = workers.drop_last();
        assert forall|i: int| 0 <= i < front.len() implies !(#[trigger] front[i] is Running) by {
            assert(front[i] == workers[i]);
        }
        lemma_nothing_in_work(front);
        assert(!(workers[workers.len() - 1] is Running));
    }
}

/// How many workers of a list have ended by a failed operation.
pub open spec fn broken(workers: Seq<Worker>) -> nat
    decreases workers.len(),
{
    if workers.len() == 0 {
        0
    } else {
        broken(workers.drop_last()) + broken_one(workers.last())
    }
}

/// One for a worker that has ended by a failed operation.
pub open spec fn broken_one(worker: Worker) -> nat {
    if worker == (Worker::Stopped { ok: false }) {
        1
    } else {
        0
    }
}

proof fn lemma_broken_update(workers: Seq<Worker>, at: int, worker: Worker)
    requires
        0 <= at < workers.len(),
    ensures
        broken(workers.update(at, worker)) + broken_one(workers[at]) == broken(workers)
            + broken_one(worker),
    decreases workers.len(),
{
    let updated = workers.update(at, worker);
    if at == workers.len() - 1 {
        assert(updated.drop_last() =~= workers.drop_last());
    } else {
        assert(updated.drop_last() =~= workers.drop_last().update(at, worker));
        lemma_broken_update(workers.drop_last(), at, worker);
    }
}

/// A list has broken workers where one of its workers is, and one that is not where
/// they are fewer than all.
proof fn lemma_broken(workers: Seq<Worker>)
    ensures
        broken(workers) <= workers.len(),
        broken(workers) == 0 <==> forall|i: int|
            0 <= i < workers.len() ==> #[trigger] workers[i] != (Worker::Stopped { ok: false }),
        broken(workers) < workers.len() ==> exists|i: int|
            0 <= i < workers.len() && #[trigger] workers[i] != (Worker::Stopped { ok: false }),
    decreases workers.len(),
{
    if workers.len() > 0 {
        let front = workers.drop_last();
        let last = workers.len() - 1;
        lemma_broken(front);
        assert(workers[last] == workers.last());
        assert(forall|i: int| 0 <= i < last ==> front[i] == #[trigger] workers[i]);
        if broken(workers) == 0 {
            assert forall|i: int| 0 <= i < workers.len() implies #[trigger] workers[i] != (
            Worker::Stopped { ok: false }) by {
                if i < last {
                    assert(front[i] == workers[i]);
                }
            }
        } else if broken(front) > 0 {
            let i = choose|i: int|
                0 <= i < front.len() && #[trigger] front[i] == (Worker::Stopped { ok: false });
            assert(workers[i] == front[i]);
        }
        if broken(front) < front.len() {
            let i = choose|i: int|
                0 <= i < front.len() && #[trigger] front[i] != (Worker::Stopped { ok: false });
            assert(workers[i] == front[i]);
        }
    }
}

/// Nothing that was queued is lost or repeated: it was started, in order, or it
/// waits, unless its phase is over; what was started was performed or is under way;
/// and each operation that failed has ended one worker.
pub open spec fn accounted(run: PoolRun) -> bool {
    &&& run.pool.wf()
    &&& run.pool.phase is Some ==> run.queued == run.started + waiting(run.pool)
    &&& run.started.is_prefix_of(run.queued)
    &&& run.started.to_multiset() == run.performed.to_multiset().add(under_way(run.pool))
    &&& run.pool.phase matches Some(phase) ==> broken(phase.workers) == run.failed.len()
}

proof fn lemma_accounted_step(run: PoolRun, event: PoolEvent)
    requires
        accounted(run),
        possible(run.pool, event),
    ensures
        accounted(run_after(run, event)),
{
    broadcast use vstd::seq_lib::group_to_multiset_ensures;

    let next = run_after(run, event);
    let phase = current_phase(run.pool);
    match event {
        PoolEvent::Execute { work } => {
            let before = run_at_execute(run);
            if run.pool.phase is None {
                lemma_nothing_in_work(phase.workers);
                lemma_broken(phase.workers);
                assert(before.started.to_multiset() =~= before.performed.to_multiset().add(
                    Multiset::empty(),
                ));
            }
            assert(before.queued =~= before.started + phase.queue);
            assert(next.queued =~= next.started + waiting(next.pool));
            assert(next.queued.subrange(0, next.started.len() as int) =~= next.started);
        },
        PoolEvent::Take { worker } => {
            match turn_of(phase) {
                Turn::Run { work } => {
                    let changed = Worker::Running { work };
                    lemma_in_work_update(phase.workers, worker, changed);
                    lemma_broken_update(phase.workers, worker, changed);
                    assert(in_work(phase.workers.update(worker, changed)).add(Multiset::empty())
                        =~= in_work(phase.workers.update(worker, changed)));
                    assert(next.started.to_multiset() =~= run.started.to_multiset().insert(work));
                    assert(next.started.to_multiset() =~= run.performed.to_multiset().add(
                        in_work(phase.workers).add(Multiset::singleton(work)),
                    ));
                    assert(next.started + waiting(next.pool) =~= next.queued);
                    assert(next.queued.subrange(0, next.started.len() as int) =~= next.started);
                },
                Turn::Wait => {},
                Turn::Exit => {
                    let changed = Worker::Stopped { ok: true };
                    lemma_in_work_update(phase.workers, worker, changed);
                    lemma_broken_update(phase.workers, worker, changed);
                    assert(in_work(phase.workers.update(worker, changed)).add(Multiset::empty())
                        =~= in_work(phase.workers.update(worker, changed)));
                    assert(in_work(phase.workers).add(Multiset::empty()) =~= in_work(
                        phase.workers,
                    ));
                },
            }
        },
        PoolEvent::Finish { worker, ok } => {
            let changed = if ok {
                Worker::Waiting
            } else {
                Worker::Stopped { ok: false }
            };
            let work = phase.workers[worker]->work;
            lemma_in_work_update(phase.workers, worker, changed);
            lemma_broken_update(phase.workers, worker, changed);
            let rest = in_work(phase.workers.update(worker, changed));
            assert(in_work(phase.workers).add(Multiset::empty()) =~= in_work(phase.workers));
            assert(rest.add(Multiset::singleton(work)) == in_work(phase.workers));
            assert(next.performed.to_multiset() =~= run.performed.to_multiset().insert(work));
            assert(run.performed.to_multiset().insert(work).add(rest)
                =~= run.performed.to_multiset().add(rest.add(Multiset::singleton(work))));
        },
        PoolEvent::Join => {
            if run.pool.phase is Some && all_stopped(phase.workers) {
                lemma_nothing_in_work(phase.workers);
            }
        },
    }
}

/// In every run of a pool, nothing that was queued in a phase is lost or repeated
/// while the phase lasts.
pub proof fn every_operation_is_accounted_for(limit: nat, events: Seq<PoolEvent>)
    requires
        limit > 0,
        can_happen(limit, events),
    ensures
        accounted(run_of(limit, events)),
        run_of(limit, events).pool.limit == limit,
    decreases events.len(),
{
    broadcast use vstd::seq_lib::group_to_multiset_ensures;

    if events.len() == 0 {
        let run = unused(limit);
        assert(run.started + waiting(run.pool) =~= run.queued);
        assert(run.started.to_multiset() =~= run.performed.to_multiset().add(under_way(run.pool)));
    } else {
        every_operation_is_accounted_for(limit, events.drop_last());
        lemma_accounted_step(run_of(limit, events.drop_last()), events.last());
    }
}

/// At no time are more operations under way than the limit allows, or do more wait
/// than the queue holds.
pub proof fn work_stays_within_bounds(limit: nat, events: Seq<PoolEvent>)
    requires
        limit > 0,
        can_happen(limit, events),
    ensures
        under_way(run_of(limit, events).pool).len() <= limit,
        waiting(run_of(limit, events).pool).len() <= QUEUE_CAPACITY,
{
    every_operation_is_accounted_for(limit, events);
    let pool = run_of(limit, events).pool;
    if let Some(phase) = pool.phase {
        lemma_in_work_len(phase.workers);
    }
}

/// Whether an event is a failed operation.
pub open spec fn is_failure(event: PoolEvent) -> bool {
    event matches PoolEvent::Finish { ok, .. } && !ok
}

/// As long as no operation has failed, the count of queued operations is that of
/// those that wait, and every operation finds a worker.
pub proof fn count_is_exact_without_failures(limit: nat, events: Seq<PoolEvent>)
    requires
        limit > 0,
        can_happen(limit, events),
        forall|i: int| 0 <= i < events.len() ==> !is_failure(#[trigger] events[i]),
    ensures
        run_of(limit, events).failed.len() == 0,
        run_of(limit, events).pool.left == 0,
        run_of(limit, events).pool.queued() == waiting(run_of(limit, events).pool).len(),
        run_of(limit, events).pool.accepts() ==> admission_of(run_of(limit, events).pool)
            != Admission::NoWorkers,
    decreases events.len(),
{
    every_operation_is_accounted_for(limit, events);
    let pool = run_of(limit, events).pool;
    if events.len() > 0 {
        let before = events.drop_last();
        assert forall|i: int| 0 <= i < before.len() implies !is_failure(#[trigger] before[i]) by {
            assert(before[i] == events[i]);
        }
        count_is_exact_without_failures(limit, before);
        every_operation_is_accounted_for(limit, before);
        assert(!is_failure(events[events.len() - 1]));
        let earlier = run_of(limit, before).pool;
        lemma_broken(current_phase(earlier).workers);
        if let Some(phase) = earlier.phase {
            if all_stopped(phase.workers) {
                assert forall|i: int| 0 <= i < phase.workers.len() implies #[trigger] phase.workers[i]
                    == (Worker::Stopped { ok: true }) by {
                    assert(phase.workers[i] is Stopped);
                }
            }
        }
    }
    let phase = current_phase(pool);
    lemma_broken(phase.workers);
    if pool.accepts() && all_stopped(phase.workers) {
        assert(phase.workers[0] is Stopped);
        assert(phase.workers[0] == (Worker::Stopped { ok: true }));
    }
}

/// Operations start in the order in which they were handed in.
pub proof fn operations_start_in_order(limit: nat, events: Seq<PoolEvent>)
    requires
        limit > 0,
        can_happen(limit, events),
    ensures
        run_of(limit, events).started.is_prefix_of(run_of(limit, events).queued),
{
    every_operation_is_accounted_for(limit, events);
}

/// How joining stands in a run, told by what failed in its phase.
pub open spec fn join_is_told_by_failures(run: PoolRun) -> bool {
    let workers = run.pool.phase.unwrap().workers;
    let status = join_status_of(run.pool);
    let joined = after_join(run.pool);
    &&& status == JoinStatus::Draining <==> !all_stopped(workers)
    &&& status == JoinStatus::Finished <==> all_stopped(workers) && run.failed.len() == 0
    &&& status == JoinStatus::Failed <==> all_stopped(workers) && run.failed.len() > 0
    &&& all_stopped(workers) ==> {
        &&& joined.phase is None
        &&& join_status_of(joined) == JoinStatus::Idle
        &&& joined.accepts()
        &&& admission_of(joined) == Admission::Queued
    }
}

proof fn lemma_join_is_told_by_failures(run: PoolRun)
    requires
        accounted(run),
        run.pool.phase is Some,
    ensures
        join_is_told_by_failures(run),
{
    let workers = run.pool.phase.unwrap().workers;
    lemma_broken(workers);
    if all_stopped(workers) {
        if run.failed.len() == 0 {
            assert forall|i: int| 0 <= i < workers.len() implies #[trigger] workers[i] == (
            Worker::Stopped { ok: true }) by {
                assert(workers[i] is Stopped);
            }
        } else {
            let i = choose|i: int|
                0 <= i < workers.len() && #[trigger] workers[i] == (Worker::Stopped { ok: false });
            assert(workers[i] != (Worker::Stopped { ok: true }));
        }
        assert(!(fresh_phase(run.pool.limit).workers[0] is Stopped));
    }
}

/// Joining reports success exactly where every worker has ended and no operation of
/// the phase failed, and failure exactly where every worker has ended and one did.
/// Either way the phase is over, the report is not repeated, and another phase may
/// begin.
pub proof fn join_tells_of_every_failure(limit: nat, events: Seq<PoolEvent>)
    requires
        limit > 0,
        can_happen(limit, events),
        run_of(limit, events).pool.phase is Some,
    ensures
        join_is_told_by_failures(run_of(limit, events)),
{
    every_operation_is_accounted_for(limit, events);
    lemma_join_is_told_by_failures(run_of(limit, events));
}

/// Whether nothing is left undone in a run: every operation that was queued has been
/// started, in order, and performed, once.
pub open spec fn nothing_is_undone(run: PoolRun) -> bool {
    &&& waiting(run.pool).len() == 0
    &&& run.started == run.queued
    &&& run.performed.to_multiset() == run.queued.to_multiset()
    &&& after_join(run.pool).left == run.pool.left
}

proof fn lemma_nothing_is_undone(run: PoolRun)
    requires
        accounted(run),
        run.pool.phase is Some,
        all_stopped(run.pool.phase.unwrap().workers),
        run.failed.len() < run.pool.limit,
    ensures
        nothing_is_undone(run),
{
    let phase = run.pool.phase.unwrap();
    lemma_broken(phase.workers);
    let survivor = choose|i: int|
        0 <= i < phase.workers.len() && #[trigger] phase.workers[i] != (Worker::Stopped {
            ok: false,
        });
    assert(phase.workers[survivor] is Stopped);
    assert(phase.workers[survivor] == (Worker::Stopped { ok: true }));
    lemma_nothing_in_work(phase.workers);
    assert(run.started + waiting(run.pool) =~= run.started);
    assert(run.performed.to_multiset().add(Multiset::empty()) =~= run.performed.to_multiset());
}

/// A phase in which fewer operations failed than there are workers leaves nothing
/// undone once all its workers have ended.
pub proof fn surviving_worker_leaves_nothing_undone(limit: nat, events: Seq<PoolEvent>)
    requires
        limit > 0,
        can_happen(limit, events),
        run_of(limit, events).pool.phase is Some,
        all_stopped(run_of(limit, events).pool.phase.unwrap().workers),
        run_of(limit, events).failed.len() < limit,
    ensures
        nothing_is_undone(run_of(limit, events)),
{
    every_operation_is_accounted_for(limit, events);
    lemma_nothing_is_undone(run_of(limit, events));
}

/// A pool whose phase was just started, and used for nothing.
pub open spec fn started(limit: nat) -> PoolRun {
    PoolRun {
        pool: PoolView { limit, left: 0, phase: Some(fresh_phase(limit)) },
        ..unused(limit)
    }
}

/// The run that a list of events makes of a phase just started.
pub open spec fn phase_run(limit: nat, events: Seq<PoolEvent>) -> PoolRun
    decreases events.len(),
{
    if events.len() == 0 {
        started(limit)
    } else {
        run_after(phase_run(limit, events.drop_last()), events.last())
    }
}

/// Whether each event of a list can happen, where it stands, to a phase just started
/// that is not over before.
pub open spec fn phase_can_see(limit: nat, events: Seq<PoolEvent>) -> bool
    decreases events.len(),
{
    events.len() > 0 ==> {
        let before = phase_run(limit, events.drop_last());
        &&& phase_can_see(limit, events.drop_last())
        &&& before.pool.phase is Some
        &&& possible(before.pool, events.last())
    }
}

proof fn lemma_phase_accounted(limit: nat, events: Seq<PoolEvent>)
    requires
        limit > 0,
        phase_can_see(limit, events),
    ensures
        accounted(phase_run(limit, events)),
        phase_run(limit, events).pool.limit == limit,
    decreases events.len(),
{
    broadcast use vstd::seq_lib::group_to_multiset_ensures;

    if events.len() == 0 {
        let run = started(limit);
        let workers = fresh_phase(limit).workers;
        lemma_nothing_in_work(workers);
        lemma_broken(workers);
        assert(run.started + waiting(run.pool) =~= run.queued);
        assert(run.started.to_multiset() =~= run.performed.to_multiset().add(Multiset::empty()));
    } else {
        lemma_phase_accounted(limit, events.drop_last());
        lemma_accounted_step(phase_run(limit, events.drop_last()), events.last());
    }
}

/// Of a phase from its start to its end, whatever happens: no more operations are
/// under way than it has workers; they start in the order in which they were queued;
/// its end is told once, only after every worker has ended, and as a success exactly
/// where no operation failed; and where fewer failed than there are workers, each
/// operation that was queued has been performed, once.
pub proof fn started_phase_serves_to_its_end(limit: nat, events: Seq<PoolEvent>)
    requires
        limit > 0,
        phase_can_see(limit, events),
        phase_run(limit, events).pool.phase is Some,
    ensures
        ({
            let run = phase_run(limit, events);
            let ended = all_stopped(run.pool.phase.unwrap().workers);
            &&& under_way(run.pool).len() <= limit
            &&& run.started.is_prefix_of(run.queued)
            &&& join_is_told_by_failures(run)
            &&& ended && run.failed.len() < limit ==> nothing_is_undone(run)
        }),
{
    lemma_phase_accounted(limit, events);
    let run = phase_run(limit, events);
    let workers = run.pool.phase.unwrap().workers;
    lemma_in_work_len(workers);
    lemma_join_is_told_by_failures(run);
    if all_stopped(workers) && run.failed.len() < limit {
        lemma_nothing_is_undone(run);
    }
}

/// A worker that waits takes the operation that waits longest, whatever the other
/// workers do, and changes nothing for them.
pub proof fn waiting_worker_takes_the_next_operation(pool: PoolView, worker: int, other: int)
    requires
        pool.wf(),
        worker_is(pool, worker, false),
        waiting(pool).len() > 0,
    ensures
        possible(pool, PoolEvent::Take { worker }),
        ({
            let phase = pool.phase.unwrap();
            let after = after_take(pool, worker).phase.unwrap();
            &&& turn_of(phase) == (Turn::Run { work: phase.queue[0] })
            &&& after.workers[worker] == (Worker::Running { work: phase.queue[0] })
            &&& 0 <= other < pool.limit && other != worker ==> after.workers[other]
                == phase.workers[other]
            &&& after.queue == phase.queue.drop_first()
        }),
{
}

/// How much a worker has still to do before it ends.
pub open spec fn remaining_steps(worker: Worker) -> nat {
    match worker {
        Worker::Waiting => 1,
        Worker::Running { .. } => 2,
        Worker::Stopped { .. } => 0,
    }
}

/// How much the workers of a list have still to do.
pub open spec fn remaining_of_all(workers: Seq<Worker>) -> nat
    decreases workers.len(),
{
    if workers.len() == 0 {
        0
    } else {
        remaining_of_all(workers.drop_last()) + remaining_steps(workers.last())
    }
}

/// How much a phase has still to do before all its workers have ended.
pub open spec fn drain_distance(phase: PhaseView) -> nat {
    2 * phase.queue.len() + remaining_of_all(phase.workers)
}

proof fn lemma_remaining_update(workers: Seq<Worker>, at: int, worker: Worker)
    requires
        0 <= at < workers.len(),
    ensures
        remaining_of_all(workers.update(at, worker)) + remaining_steps(workers[at])
            == remaining_of_all(workers) + remaining_steps(worker),
    decreases workers.len(),
{
    let updated = workers.update(at, worker);
    if at == workers.len() - 1 {
        assert(updated.drop_last() =~= workers.drop_last());
    } else {
        assert(updated.drop_last() =~= workers.drop_last().update(at, worker));
        lemma_remaining_update(workers.drop_last(), at, worker);
    }
}

proof fn lemma_nothing_remains(workers: Seq<Worker>)
    ensures
        remaining_of_all(workers) == 0 <==> all_stopped(workers),
    decreases workers.len(),
{
    if workers.len() > 0 {
        let front = workers.drop_last();
        lemma_nothing_remains(front);
        if all_stopped(workers) {
            assert forall|i: int| 0 <= i < front.len() implies #[trigger] front[i] is Stopped by {
                assert(front[i] == workers[i]);
            }
            assert(workers[workers.len() - 1] is Stopped);
        } else if remaining_of_all(workers) == 0 {
            assert forall|i: int| 0 <= i < workers.len() implies #[trigger] workers[i]
                is Stopped by {
                if i < front.len() {
                    assert(front[i] == workers[i]);
                }
            }
        }
    }
}

/// Once the queue is closed, no worker waits, and every step that a worker takes
/// brings the phase nearer to its end, whichever worker takes it. So joining
/// comes to an end even where only one worker at a time gets to run.
pub proof fn draining_comes_to_an_end(pool: PoolView, event: PoolEvent)
    requires
        pool.wf(),
        pool.phase is Some,
        !pool.phase.unwrap().open,
        event is Take || event is Finish,
        possible(pool, event),
    ensures
        turn_of(pool.phase.unwrap()) != Turn::Wait,
        pool_after(pool, event).phase is Some,
        !pool_after(pool, event).phase.unwrap().open,
        drain_distance(pool_after(pool, event).phase.unwrap()) < drain_distance(
            pool.phase.unwrap(),
        ),
{
    let phase = pool.phase.unwrap();
    match event {
        PoolEvent::Take { worker } => {
            match turn_of(phase) {
                Turn::Run { work } => {
                    lemma_remaining_update(phase.workers, worker, Worker::Running { work });
                },
                _ => {
                    lemma_remaining_update(phase.workers, worker, Worker::Stopped { ok: true });
                },
            }
        },
        PoolEvent::Finish { worker, ok } => {
            let changed = if ok {
                Worker::Waiting
            } else {
                Worker::Stopped { ok: false }
            };
            lemma_remaining_update(phase.workers, worker, changed);
        },
        _ => {},
    }
}

/// While a phase is being joined, some worker can take a step until all have
/// ended.
pub proof fn draining_is_never_stuck(pool: PoolView)
    requires
        pool.wf(),
        pool.phase is Some,
    ensures
        join_status_of(pool) != JoinStatus::Draining || exists|worker: int|
            #![trigger pool.phase.unwrap().workers[worker]]
            worker_is(pool, worker, false) || worker_is(pool, worker, true),
        drain_distance(pool.phase.unwrap()) == 0 ==> join_status_of(pool) != JoinStatus::Draining,
{
    let phase = pool.phase.unwrap();
    lemma_nothing_remains(phase.workers);
    if !all_stopped(phase.workers) {
        let worker = choose|i: int|
            0 <= i < phase.workers.len() && !(#[trigger] phase.workers[i] is Stopped);
        assert(phase.workers[worker] is Waiting || phase.workers[worker] is Running);
    }
}

/// The phase once one worker alone has performed all that waits and has ended.
pub open spec fn drained_alone(phase: PhaseView, worker: int) -> PhaseView
    decreases phase.queue.len(),
{
    if phase.queue.len() == 0 {
        phase_after_take(phase, worker)
    } else {
        let taken = phase_after_take(phase, worker);
        drained_alone(
            PhaseView { workers: taken.workers.update(worker, Worker::Waiting), ..taken },
            worker,
        )
    }
}

/// One worker is enough to empty a closed queue, after which each other worker
/// that is still waiting finds nothing left and ends.
pub proof fn one_worker_empties_the_queue(phase: PhaseView, worker: int)
    requires
        !phase.open,
        0 <= worker < phase.workers.len(),
        phase.workers[worker] is Waiting,
    ensures
        drained_alone(phase, worker) == (PhaseView {
            queue: seq![],
            open: false,
            workers: phase.workers.update(worker, Worker::Stopped { ok: true }),
        }),
        turn_of(drained_alone(phase, worker)) == Turn::Exit,
    decreases phase.queue.len(),
{
    if phase.queue.len() == 0 {
        assert(phase.queue =~= seq![]);
    } else {
        let taken = phase_after_take(phase, worker);
        let next = PhaseView { workers: taken.workers.update(worker, Worker::Waiting), ..taken };
        one_worker_empties_the_queue(next, worker);
        assert(next.workers.update(worker, Worker::Stopped { ok: true }) =~= phase.workers.update(
            worker,
            Worker::Stopped { ok: true },
        ));
    }
}

/// Asking to join closes the phase, for every limit: one that is still under way admits
/// no more operations, and keeps its queue and its workers as they are. It is over only
/// once every worker has ended; `worker` is any of them.
pub proof fn joining_closes_the_phase(pool: PoolView, worker: int)
    ensures
        after_join(pool).limit == pool.limit,
        pool.phase is None ==> after_join(pool) == pool,
        after_join(pool).phase matches Some(after) ==> {
            &&& !after.open
            &&& !after_join(pool).accepts()
            &&& pool.phase matches Some(before) && after.queue == before.queue && after.workers
                == before.workers
            &&& after_join(pool).left == pool.left
        },
        pool.phase matches Some(before) ==> 0 <= worker < before.workers.len() && !(
        before.workers[worker] is Stopped) ==> after_join(pool).phase is Some,
{
}

/// What joining reports, told by the workers: nothing where there is no phase, that it
/// goes on where a worker has not ended, and else success or failure; `worker` is any of
/// them.
pub proof fn join_reports_what_the_workers_did(pool: PoolView, worker: int)
    ensures
        pool.phase is None <==> join_status_of(pool) == JoinStatus::Idle,
        pool.phase matches Some(phase) ==> {
            let known = 0 <= worker < phase.workers.len();
            &&& known && (phase.workers[worker] is Waiting || phase.workers[worker] is Running)
                ==> join_status_of(pool) == JoinStatus::Draining
            &&& known && join_status_of(pool) == JoinStatus::Finished ==> phase.workers[worker] == (
            Worker::Stopped { ok: true })
            &&& known && phase.workers[worker] == (Worker::Stopped { ok: false })
                ==> join_status_of(pool) != JoinStatus::Finished
            &&& join_status_of(pool) == JoinStatus::Draining ==> exists|k: int|
                0 <= k < phase.workers.len() && !(#[trigger] phase.workers[k] is Stopped)
            &&& join_status_of(pool) == JoinStatus::Failed ==> exists|k: int|
                0 <= k < phase.workers.len() && #[trigger] phase.workers[k] != (Worker::Stopped {
                    ok: true,
                })
        },
{
}

/// A pool takes an operation exactly where it has no phase or an open one.
pub proof fn open_phases_take_operations(pool: PoolView)
    ensures
        pool.accepts() <==> pool.phase is None || pool.phase->0.open,
{
}

/// The first operation begins a phase, with every worker waiting and the operation alone
/// in the queue; `worker` is any of them.
pub proof fn first_operation_begins_a_phase(pool: PoolView, work: u64, worker: int)
    requires
        pool.phase is None,
        pool.limit > 0,
    ensures
        admission_of(pool) == Admission::Queued,
        after_execute(pool, work).phase matches Some(phase) && {
            &&& phase.queue == seq![work]
            &&& phase.open
            &&& phase.workers.len() == pool.limit
            &&& 0 <= worker < pool.limit ==> phase.workers[worker] is Waiting
        },
        after_execute(pool, work).limit == pool.limit,
        after_execute(pool, work).left == pool.left,
{
    assert(!(fresh_phase(pool.limit).workers[0] is Stopped));
    assert(fresh_phase(pool.limit).queue.push(work) =~= seq![work]);
}

/// A later operation goes behind those that wait, as long as fewer than five do and a
/// worker has not ended; where five wait, or no worker is left, the phase stays as it
/// is. `worker` is any of them.
pub proof fn later_operation_goes_to_the_end_of_the_queue(pool: PoolView, work: u64, worker: int)
    requires
        pool.phase is Some,
        0 <= worker < pool.phase->0.workers.len(),
    ensures
        ({
            let before = pool.phase->0;
            let after = after_execute(pool, work);
            &&& !(before.workers[worker] is Stopped) && before.queue.len() < 5 ==> admission_of(
                pool,
            ) == Admission::Queued
            &&& !(before.workers[worker] is Stopped) && before.queue.len() >= 5 ==> admission_of(
                pool,
            ) == Admission::Full
            &&& admission_of(pool) == Admission::NoWorkers ==> before.workers[worker] is Stopped
            &&& after.limit == pool.limit
            &&& after.phase matches Some(phase) && phase.open == before.open && phase.workers
                == before.workers && phase.queue == (if admission_of(pool) == Admission::Queued {
                before.queue + seq![work]
            } else {
                before.queue
            })
            &&& admission_of(pool) != Admission::NoWorkers ==> after.left == pool.left
            &&& admission_of(pool) == Admission::NoWorkers ==> after.left == counted(pool.left, 1)
            &&& admission_of(pool) == Admission::Queued ==> before.queue.len() < 5
        }),
{
    let before = pool.phase->0;
    assert(before.queue.push(work) =~= before.queue + seq![work]);
}

/// A worker takes the operation at the head of the queue; with an empty queue it waits
/// where the phase is open, and ends, well, where it is closed. Nothing else changes;
/// `other` is any other worker.
pub proof fn worker_takes_the_head_of_the_queue(pool: PoolView, worker: int, other: int)
    requires
        pool.phase is Some,
        0 <= worker < pool.phase->0.workers.len(),
    ensures
        ({
            let before = pool.phase->0;
            let after = after_take(pool, worker);
            let phase = after.phase->0;
            &&& after.phase is Some
            &&& after.limit == pool.limit
            &&& after.left == pool.left
            &&& phase.open == before.open
            &&& phase.workers.len() == before.workers.len()
            &&& 0 <= other < before.workers.len() && other != worker ==> phase.workers[other]
                == before.workers[other]
            &&& if before.queue.len() > 0 {
                &&& turn_of(before) == (Turn::Run { work: before.queue[0] })
                &&& seq![before.queue[0]] + phase.queue == before.queue
                &&& phase.workers[worker] == (Worker::Running { work: before.queue[0] })
            } else {
                &&& phase.queue == before.queue
                &&& before.open ==> turn_of(before) == Turn::Wait && phase.workers[worker]
                    == before.workers[worker]
                &&& !before.open ==> turn_of(before) == Turn::Exit && phase.workers[worker] == (
                Worker::Stopped { ok: true })
            }
        }),
{
    let before = pool.phase->0;
    if before.queue.len() > 0 {
        assert(seq![before.queue[0]] + before.queue.drop_first() =~= before.queue);
    }
}

/// A worker that has performed its operation waits again, and one whose operation failed
/// has ended, not well. Nothing else changes; `other` is any other worker.
pub proof fn failed_operation_ends_its_worker(pool: PoolView, worker: int, ok: bool, other: int)
    requires
        pool.phase is Some,
        0 <= worker < pool.phase->0.workers.len(),
    ensures
        ({
            let before = pool.phase->0;
            let after = after_finish(pool, worker, ok);
            let phase = after.phase->0;
            &&& after.phase is Some
            &&& after.limit == pool.limit
            &&& after.left == pool.left
            &&& phase.open == before.open
            &&& phase.queue == before.queue
            &&& phase.workers.len() == before.workers.len()
            &&& 0 <= other < before.workers.len() && other != worker ==> phase.workers[other]
                == before.workers[other]
            &&& ok ==> phase.workers[worker] == Worker::Waiting
            &&& !ok ==> phase.workers[worker] == (Worker::Stopped { ok: false })
        }),
{
}

/// How many operations count as queued: those that wait, besides those that failed
/// phases have left; a failed phase leaves what waits in it.
pub proof fn what_waits_is_counted(pool: PoolView)
    requires
        pool.wf(),
    ensures
        pool.phase is None ==> pool.queued() == pool.left,
        pool.phase matches Some(phase) ==> pool.queued() == counted(pool.left, phase.queue.len()),
        join_status_of(pool) == JoinStatus::Failed ==> after_join(pool).left == counted(
            pool.left,
            pool.phase->0.queue.len(),
        ),
        join_status_of(pool) != JoinStatus::Failed ==> after_join(pool).left == pool.left,
{
}

/// A count goes up by what is added to it, and starts again at nothing behind its largest
/// value.
pub proof fn counts_go_round(count: usize, more: nat)
    requires
        more <= 5,
    ensures
        count + more <= usize::MAX ==> counted(count, more) == count + more,
        count + more > usize::MAX ==> counted(count, more) == count + more - usize::MAX - 1,
{
}

/// A pool is sound where it has a worker at all, as many as its limit in a phase, no
/// more than five operations waiting, and none that ended well before the queue was
/// closed and empty; `worker` is any of them.
pub proof fn sound_pools_keep_their_bounds(pool: PoolView, worker: int)
    requires
        pool.wf(),
    ensures
        pool.limit > 0,
        pool.phase matches Some(phase) ==> {
            &&& phase.workers.len() == pool.limit
            &&& phase.queue.len() <= 5
            &&& 0 <= worker < phase.workers.len() && phase.workers[worker] == (Worker::Stopped {
                ok: true,
            }) ==> !phase.open && phase.queue.len() == 0
        },
{
}

/// The pool after a list of events.
pub open spec fn pool_after_all(pool: PoolView, events: Seq<PoolEvent>) -> PoolView
    decreases events.len(),
{
    if events.len() == 0 {
        pool
    } else {
        pool_after(pool_after_all(pool, events.drop_last()), events.last())
    }
}

/// Whether a list of events is of turns and ends of operations alone, each of which can
/// happen where it stands.
pub open spec fn workers_go_on(pool: PoolView, events: Seq<PoolEvent>) -> bool
    decreases events.len(),
{
    events.len() > 0 ==> {
        &&& workers_go_on(pool, events.drop_last())
        &&& possible(pool_after_all(pool, events.drop_last()), events.last())
        &&& events.last() is Take || events.last() is Finish
    }
}

proof fn lemma_remaining_bound(workers: Seq<Worker>)
    ensures
        remaining_of_all(workers) <= 2 * workers.len(),
    decreases workers.len(),
{
    if workers.len() > 0 {
        lemma_remaining_bound(workers.drop_last());
    }
}

proof fn lemma_step_keeps_pool(pool: PoolView, event: PoolEvent)
    requires
        pool.wf(),
        pool.phase is Some,
        !pool.phase->0.open,
        possible(pool, event),
        event is Take || event is Finish,
    ensures
        pool_after(pool, event).wf(),
        pool_after(pool, event).phase is Some,
        !pool_after(pool, event).phase->0.open,
        pool_after(pool, event).limit == pool.limit,
{
}

proof fn lemma_workers_go_on(pool: PoolView, events: Seq<PoolEvent>)
    requires
        pool.wf(),
        pool.phase is Some,
        !pool.phase->0.open,
        workers_go_on(pool, events),
    ensures
        ({
            let after = pool_after_all(pool, events);
            &&& after.wf()
            &&& after.limit == pool.limit
            &&& after.phase is Some
            &&& !after.phase->0.open
            &&& events.len() + drain_distance(after.phase->0) <= drain_distance(pool.phase->0)
        }),
    decreases events.len(),
{
    if events.len() > 0 {
        let before = pool_after_all(pool, events.drop_last());
        lemma_workers_go_on(pool, events.drop_last());
        lemma_step_keeps_pool(before, events.last());
        draining_comes_to_an_end(before, events.last());
    }
}

/// After joining was asked for, the workers can take no more steps than two for each
/// operation that waits and two for each worker. Once none of them can take another,
/// joining reports success or failure.
pub proof fn joined_workers_come_to_their_end(pool: PoolView, events: Seq<PoolEvent>)
    requires
        pool.wf(),
        after_join(pool).phase is Some,
        workers_go_on(after_join(pool), events),
    ensures
        events.len() <= 2 * pool.phase->0.queue.len() + 2 * pool.limit,
        ({
            let after = pool_after_all(after_join(pool), events);
            &&& after.phase is Some
            &&& turn_of(after.phase->0) != Turn::Wait
            &&& (forall|worker: int|
                0 <= worker < pool.limit ==> !(#[trigger] after.phase->0.workers[worker] is Waiting)
                    && !(after.phase->0.workers[worker] is Running)) ==> join_status_of(after)
                == JoinStatus::Finished || join_status_of(after) == JoinStatus::Failed
        }),
{
    let joined = after_join(pool);
    lemma_workers_go_on(joined, events);
    lemma_remaining_bound(joined.phase->0.workers);
    let after = pool_after_all(joined, events);
    let workers = after.phase->0.workers;
    if forall|worker: int|
        0 <= worker < pool.limit ==> !(#[trigger] workers[worker] is Waiting)
            && !(workers[worker] is Running) {
        assert forall|i: int| 0 <= i < workers.len() implies #[trigger] workers[i] is Stopped by {}
        assert(all_stopped(workers));
    }
}

} // verus!

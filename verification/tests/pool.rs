use rustup::pool::{Admission, JoinStatus, TokioPool, Turn, QUEUE_CAPACITY};

/// Performs operations on a pool of `limit` workers of which `slots` at a time get
/// to run; gives how many were performed, in which order they started, and how many
/// were under way at most.
fn serve(limit: usize, slots: usize, operations: u64) -> (usize, Vec<u64>, usize) {
    let mut pool = TokioPool::new(limit);
    let mut waiting: Vec<usize> = (0..limit).collect();
    let mut running: Vec<(usize, Option<u64>)> = Vec::new();
    let mut started = Vec::new();
    let mut done = 0;
    let mut peak = 0;
    let mut next = 0;
    let mut joined = false;
    while !joined {
        if next < operations {
            if pool.execute(next) == Admission::Queued {
                next += 1;
            }
        } else {
            match pool.join() {
                JoinStatus::Draining => {}
                status => {
                    assert_eq!(status, JoinStatus::Finished);
                    joined = true;
                    continue;
                }
            }
        }
        // Each worker that holds a slot takes one step.
        let mut held = Vec::new();
        for (worker, work) in running.drain(..) {
            match work {
                Some(_) => {
                    pool.finish(worker, true);
                    done += 1;
                    held.push((worker, None));
                }
                None => match pool.take(worker) {
                    Turn::Run { work } => {
                        started.push(work);
                        held.push((worker, Some(work)));
                    }
                    Turn::Wait => held.push((worker, None)),
                    Turn::Exit => {}
                },
            }
        }
        while held.len() < slots && !waiting.is_empty() {
            held.push((waiting.remove(0), None));
        }
        running = held;
        peak = peak.max(running.iter().filter(|(_, work)| work.is_some()).count());
    }
    assert_eq!(pool.queued_count(), 0);
    assert!(!pool.has_phase());
    (done, started, peak)
}

#[test]
fn bounded_scheduler_and_single_blocking_slot() {
    let (done, started, peak) = serve(4, 1, 32);
    assert_eq!(done, 32);
    assert_eq!(peak, 1);
    assert_eq!(started, (0..32).collect::<Vec<u64>>());
}

#[test]
fn scheduler_respects_disk_limit() {
    let (done, started, peak) = serve(2, 8, 20);
    assert_eq!(done, 20);
    assert_eq!(peak, 2);
    assert_eq!(started, (0..20).collect::<Vec<u64>>());
}

#[test]
fn phase_starts_apart_from_the_pool() {
    let pool = TokioPool::new(2);
    let phase = pool.start_phase();
    assert!(!pool.has_phase());
    assert!(format!("{:?}", phase).contains("[Waiting, Waiting]"));
}

#[test]
fn queue_holds_five_operations() {
    let mut pool = TokioPool::new(2);
    assert_eq!(pool.limit(), 2);
    assert!(!pool.has_phase());
    for work in 0..5 {
        assert_eq!(pool.execute(work), Admission::Queued);
    }
    assert!(pool.has_phase());
    assert_eq!(QUEUE_CAPACITY, 5);
    assert_eq!(pool.queued_count(), 5);
    assert_eq!(pool.execute(5), Admission::Full);
    assert_eq!(pool.queued_count(), 5);
    assert_eq!(pool.take(1), Turn::Run { work: 0 });
    assert_eq!(pool.queued_count(), 4);
    assert_eq!(pool.execute(5), Admission::Queued);
}

#[test]
fn workers_wait_while_the_queue_is_open() {
    let mut pool = TokioPool::new(1);
    pool.execute(7);
    assert_eq!(pool.take(0), Turn::Run { work: 7 });
    pool.finish(0, true);
    assert_eq!(pool.take(0), Turn::Wait);
    assert_eq!(pool.join(), JoinStatus::Draining);
    assert_eq!(pool.take(0), Turn::Exit);
    assert_eq!(pool.join(), JoinStatus::Finished);
    assert_eq!(pool.join(), JoinStatus::Idle);
}

#[test]
fn later_operation_begins_another_phase() {
    let mut pool = TokioPool::new(1);
    for work in [3, 4] {
        assert_eq!(pool.execute(work), Admission::Queued);
        assert_eq!(pool.join(), JoinStatus::Draining);
        assert_eq!(pool.take(0), Turn::Run { work });
        pool.finish(0, true);
        assert_eq!(pool.take(0), Turn::Exit);
        assert_eq!(pool.join(), JoinStatus::Finished);
    }
}

#[test]
fn failed_operation_fails_the_join() {
    let mut pool = TokioPool::new(2);
    pool.execute(0);
    pool.execute(1);
    assert_eq!(pool.take(0), Turn::Run { work: 0 });
    pool.finish(0, false);
    // The other worker drains the queue all the same.
    assert_eq!(pool.join(), JoinStatus::Draining);
    assert_eq!(pool.take(1), Turn::Run { work: 1 });
    pool.finish(1, true);
    assert_eq!(pool.take(1), Turn::Exit);
    assert_eq!(pool.join(), JoinStatus::Failed);
    assert_eq!(pool.join(), JoinStatus::Idle);
}

#[test]
fn operations_need_a_worker() {
    let mut pool = TokioPool::new(1);
    pool.execute(0);
    assert_eq!(pool.take(0), Turn::Run { work: 0 });
    pool.finish(0, false);
    assert_eq!(pool.queued_count(), 0);
    assert_eq!(pool.execute(1), Admission::NoWorkers);
    assert_eq!(pool.queued_count(), 1);
    assert_eq!(pool.join(), JoinStatus::Failed);
}

#[test]
fn failed_phase_is_forgotten() {
    let mut pool = TokioPool::new(1);
    for work in 0..4 {
        assert_eq!(pool.execute(work), Admission::Queued);
    }
    assert_eq!(pool.take(0), Turn::Run { work: 0 });
    pool.finish(0, false);
    // Three operations are left undone, and still counted.
    assert_eq!(pool.join(), JoinStatus::Failed);
    assert_eq!(pool.queued_count(), 3);
    assert_eq!(pool.execute(9), Admission::Queued);
    assert_eq!(pool.queued_count(), 4);
    assert_eq!(pool.join(), JoinStatus::Draining);
    assert_eq!(pool.take(0), Turn::Run { work: 9 });
    assert_eq!(pool.queued_count(), 3);
    pool.finish(0, true);
    assert_eq!(pool.take(0), Turn::Exit);
    assert_eq!(pool.join(), JoinStatus::Finished);
}

#[test]
fn surviving_worker_leaves_nothing_undone() {
    let mut pool = TokioPool::new(2);
    for work in 0..5 {
        pool.execute(work);
    }
    assert_eq!(pool.take(0), Turn::Run { work: 0 });
    pool.finish(0, false);
    assert_eq!(pool.join(), JoinStatus::Draining);
    for work in 1..5 {
        assert_eq!(pool.take(1), Turn::Run { work });
        pool.finish(1, true);
    }
    assert_eq!(pool.take(1), Turn::Exit);
    assert_eq!(pool.queued_count(), 0);
    assert_eq!(pool.join(), JoinStatus::Failed);
    assert_eq!(pool.queued_count(), 0);
}

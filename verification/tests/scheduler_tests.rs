use mand_cluster::mock::MockCluster;
use mand_cluster::scheduler::{
    CalcError, CalculationRequest, ClusterScheduler, Completion, INTAKE_CAPACITY, RETRY_LIMIT,
    reset_all_cores,
};

fn rig(cores: u64) -> (ClusterScheduler, MockCluster) {
    let mut mock = MockCluster::new(cores, 64, 32);
    let sched = ClusterScheduler::new(cores);
    assert!(reset_all_cores(&mut mock));
    assert_eq!(mock.cores_busy_flags(), 0);
    assert_eq!(mock.cores_valid_flags(), 0);
    (sched, mock)
}

fn req(id: u64) -> CalculationRequest {
    CalculationRequest::new(0, 0, 0x3E8, id)
}

#[test]
fn protocol_constants_match_the_design() {
    assert_eq!(RETRY_LIMIT, 10_000);
    assert_eq!(INTAKE_CAPACITY, 1_000);
}

#[test]
fn single_request_immediate_success() {
    let (mut sched, mut mock) = rig(4);
    sched.submit(CalculationRequest::new(0, 0, 0x3E8, 1));
    let c = sched.cycle(&mut mock);
    assert!(c.is_empty());
    assert_eq!(sched.in_flight_count(), 1);
    assert_eq!(mock.cores_busy_flags() & 1, 1);
    // The core computes for a while: cycles pass without a completion.
    for _ in 0..100 {
        let c = sched.cycle(&mut mock);
        assert!(c.is_empty());
    }
    mock.complete_core(0, true, 0x3E8);
    let c = sched.cycle(&mut mock);
    assert_eq!(c.len(), 1);
    assert_eq!(c[0].request.request_id, 1);
    assert_eq!(c[0].outcome, Ok(0x3E8));
    assert_eq!(sched.in_flight_count(), 0);
    assert_eq!(sched.backlog_len(), 0);
}

#[test]
fn parallel_dispatch_fills_the_busy_bitmap() {
    let (mut sched, mut mock) = rig(4);
    for id in 1..=4 {
        sched.submit(req(id));
    }
    let c = sched.cycle(&mut mock);
    assert!(c.is_empty());
    assert_eq!(mock.cores_busy_flags(), 0b1111);
    assert_eq!(sched.in_flight_count(), 4);
    // Cores finish at different times, in ascending CoreId order, with
    // results 1..=4; dispatch paired submitter i with core i-1.
    let mut completions: Vec<Completion> = Vec::new();
    for core in 0..4u64 {
        mock.complete_core(core, true, core + 1);
        completions.extend(sched.cycle(&mut mock));
    }
    assert_eq!(completions.len(), 4);
    for core in 0..4u64 {
        let c = completions
            .iter()
            .find(|c| c.request.request_id == core + 1)
            .unwrap();
        assert_eq!(c.outcome, Ok(core + 1));
    }
}

#[test]
fn backlog_drains_through_four_cores() {
    let (mut sched, mut mock) = rig(4);
    for id in 1..=10 {
        sched.submit(req(id));
    }
    let mut done: Vec<Completion> = Vec::new();
    let mut guard = 0;
    while done.len() < 10 {
        done.extend(sched.cycle(&mut mock));
        assert!(sched.in_flight_count() <= 4);
        let busy = mock.cores_busy_flags();
        for core in 0..4u64 {
            if busy & (1 << core) != 0 {
                mock.complete_core(core, true, 7);
            }
        }
        guard += 1;
        assert!(guard < 100, "requests did not drain");
    }
    assert_eq!(done.len(), 10);
    assert!(done.iter().all(|c| c.outcome == Ok(7)));
    assert_eq!(sched.backlog_len(), 0);
    assert_eq!(sched.in_flight_count(), 0);
}

#[test]
fn mid_flight_reset_is_retried_to_success() {
    let (mut sched, mut mock) = rig(4);
    sched.submit(req(7));
    let c = sched.cycle(&mut mock);
    assert!(c.is_empty());
    // The core falls not-busy with no valid result: reset mid-flight.
    mock.complete_core(0, false, 0);
    let c = sched.cycle(&mut mock);
    assert!(c.is_empty());
    // The request went back through the backlog and is in flight again.
    assert_eq!(sched.in_flight_count(), 1);
    mock.complete_core(0, true, 99);
    let c = sched.cycle(&mut mock);
    assert_eq!(c.len(), 1);
    assert_eq!(c[0].outcome, Ok(99));
    assert_eq!(c[0].request.attempts, 1);
}

#[test]
fn reset_exhaustion_surfaces_the_terminal_error() {
    let (mut sched, mut mock) = rig(4);
    sched.submit(req(5));
    let c = sched.cycle(&mut mock);
    assert!(c.is_empty());
    let mut last: Vec<Completion> = Vec::new();
    for _ in 0..(RETRY_LIMIT + 1) {
        mock.complete_core(0, false, 0);
        last = sched.cycle(&mut mock);
        if !last.is_empty() {
            break;
        }
    }
    assert_eq!(last.len(), 1);
    assert_eq!(last[0].outcome, Err(CalcError::CoreWasReset));
    assert_eq!(last[0].request.attempts, RETRY_LIMIT);
    assert_eq!(sched.backlog_len(), 0);
    assert_eq!(sched.in_flight_count(), 0);
}

#[test]
fn start_rejections_do_not_raise_the_retry_counter() {
    let (mut sched, mut mock) = rig(4);
    sched.submit(req(3));
    mock.reject_next_starts(5);
    // First cycle: every core's Start is answered CoreBusy.
    let c = sched.cycle(&mut mock);
    assert!(c.is_empty());
    assert_eq!(sched.in_flight_count(), 0);
    assert_eq!(sched.backlog_len(), 1);
    // Second cycle: one more rejection, then a core accepts.
    let c = sched.cycle(&mut mock);
    assert!(c.is_empty());
    assert_eq!(sched.in_flight_count(), 1);
    assert_eq!(mock.cores_busy_flags(), 0b10);
    mock.complete_core(1, true, 8);
    let c = sched.cycle(&mut mock);
    assert_eq!(c.len(), 1);
    assert_eq!(c[0].outcome, Ok(8));
    assert_eq!(c[0].request.attempts, 0);
}

#[test]
fn submissions_dispatch_in_fifo_order_onto_ascending_cores() {
    let (mut sched, mut mock) = rig(2);
    for id in 1..=3 {
        sched.submit(req(id));
    }
    let c = sched.cycle(&mut mock);
    assert!(c.is_empty());
    // Two cores taken, the third request queued.
    assert_eq!(sched.in_flight_count(), 2);
    assert_eq!(sched.backlog_len(), 1);
    mock.complete_core(0, true, 10);
    mock.complete_core(1, true, 20);
    let c = sched.cycle(&mut mock);
    // The head of the backlog went to core 0 in the same cycle.
    assert_eq!(c.len(), 2);
    assert_eq!(c[0].request.request_id, 1);
    assert_eq!(c[0].outcome, Ok(10));
    assert_eq!(c[1].request.request_id, 2);
    assert_eq!(c[1].outcome, Ok(20));
    assert_eq!(sched.in_flight_count(), 1);
    mock.complete_core(0, true, 30);
    let c = sched.cycle(&mut mock);
    assert_eq!(c.len(), 1);
    assert_eq!(c[0].request.request_id, 3);
    assert_eq!(c[0].outcome, Ok(30));
}

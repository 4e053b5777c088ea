use nora_upkeep::cleanup::{next_phase, Ended, Phase, Schedule};

const RETENTION: usize = 0;
const GC: usize = 1;

#[test]
fn cycle_runs_passes_in_order_at_boot() {
    let mut schedule = Schedule::new(vec![10_000, 10_000], 5);
    assert_eq!(schedule.next_wake(), Some(5));
    assert_eq!(schedule.begin_cycle(5), vec![RETENTION, GC]);
    assert_eq!(schedule.next_wake(), Some(10_005));
}

#[test]
fn pass_panic_does_not_prevent_later_passes() {
    // Whatever becomes of a pass, the cycle names the later ones too, and the
    // next cycle names all of them again.
    let mut schedule = Schedule::new(vec![100, 100], 0);
    let mut seen = schedule.begin_cycle(0);
    seen.extend(schedule.begin_cycle(100));
    assert_eq!(seen, vec![RETENTION, GC, RETENTION, GC]);
    assert_eq!(next_phase(Phase::Run, Ended::Through), Phase::Sleep);
}

#[test]
fn cycle_waits_for_cleanup_lock_instead_of_skipping() {
    assert_eq!(next_phase(Phase::Sleep, Ended::Through), Phase::WaitForLock);
    assert_eq!(next_phase(Phase::WaitForLock, Ended::Through), Phase::Run);
    // The lock is got late: the passes still run, in order.
    let mut schedule = Schedule::new(vec![100, 100], 0);
    assert_eq!(schedule.begin_cycle(300), vec![RETENTION, GC]);
    assert_eq!(schedule.due, vec![400, 400]);
}

#[test]
fn cancel_while_parked_on_lock_stops_scheduler() {
    assert_eq!(next_phase(Phase::WaitForLock, Ended::Cancelled), Phase::Stop);
    assert_eq!(next_phase(Phase::Sleep, Ended::Cancelled), Phase::Stop);
    assert_eq!(next_phase(Phase::Stop, Ended::Through), Phase::Stop);
}

#[test]
fn passes_that_are_not_due_wait() {
    let mut schedule = Schedule::new(vec![10, 25], 0);
    assert_eq!(schedule.begin_cycle(0), vec![0, 1]);
    assert_eq!(schedule.next_wake(), Some(10));
    assert_eq!(schedule.begin_cycle(10), vec![0]);
    assert_eq!(schedule.begin_cycle(20), vec![0]);
    assert_eq!(schedule.begin_cycle(25), vec![1]);
    assert_eq!(schedule.due, vec![30, 50]);
    assert!(schedule.begin_cycle(29).is_empty());
}

#[test]
fn without_passes_there_is_nothing_to_wait_for() {
    let schedule = Schedule::new(vec![], 0);
    assert_eq!(schedule.next_wake(), None);
}

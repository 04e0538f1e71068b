use lmu_shared_memory::opening::{Step, Target};
use lmu_shared_memory::source::{
    source_stopped, wakes_waiters, LockAttempt, LOCK_DATA_SIZE, LOCK_EVENT_NAME, LOCK_MAPPING_NAME,
    MAX_LOCK_SPINS,
};
use lmu_shared_memory::source_window_alive;

#[test]
fn a_source_needs_a_window_that_exists() {
    assert!(source_window_alive(7, true));
    assert!(!source_window_alive(7, false));
    assert!(!source_window_alive(0, true));
}

#[test]
fn a_source_stops_with_its_last_shutdown() {
    assert!(!source_stopped(7, true, 1, 0));
    assert!(!source_stopped(7, true, 0, 0));
    assert!(!source_stopped(7, true, 2, 1));
    assert!(source_stopped(7, true, 1, 1));
    assert!(source_stopped(7, true, 1, 2));
    assert!(source_stopped(7, false, 1, 0));
}

#[test]
fn a_lock_is_looked_at_a_limited_number_of_times() {
    let mut attempt = LockAttempt::start();
    for spin in 1..MAX_LOCK_SPINS {
        attempt = attempt.look(false);
        assert_eq!(attempt, LockAttempt::Spinning(spin));
    }
    assert_eq!(attempt.look(true), LockAttempt::Acquired);
    assert_eq!(attempt.look(false), LockAttempt::GaveUp);
    assert_eq!(attempt.look(false).look(true), LockAttempt::GaveUp);
    assert_eq!(attempt.look(true).look(false), LockAttempt::Acquired);
}

#[test]
fn waiters_are_woken_if_there_are_any() {
    assert!(wakes_waiters(1));
    assert!(!wakes_waiters(0));
    assert!(!wakes_waiters(-1));
}

#[test]
fn the_lock_has_its_names() {
    assert_eq!(LOCK_MAPPING_NAME, "LMU_SharedMemoryLockData");
    assert_eq!(LOCK_EVENT_NAME, "LMU_SharedMemoryLockEvent");
    assert_eq!(LOCK_DATA_SIZE, 8);
}

#[test]
fn a_mapping_opens_in_two_steps() {
    let target = Target::mapping("LMU_Data");
    assert_eq!(target.advance(Step::Handle, None).unwrap(), Step::View);
    assert_eq!(target.advance(Step::View, None).unwrap(), Step::Open);
    assert_eq!(target.advance(Step::Open, None).unwrap(), Step::Open);
    let refusal = target.advance(Step::Handle, Some("not found".into())).unwrap_err();
    assert_eq!(
        refusal.error.message(),
        "shared memory 'LMU_Data' is unavailable: not found"
    );
    assert!(!refusal.close_handle);
    let refusal = target.advance(Step::View, Some("null".into())).unwrap_err();
    assert_eq!(refusal.error.message(), "failed to map shared memory 'LMU_Data'");
    assert!(refusal.close_handle);
}

#[test]
fn the_lock_opens_in_three_steps() {
    let target = Target::lock();
    assert_eq!(target.advance(Step::Handle, None).unwrap(), Step::View);
    assert_eq!(target.advance(Step::View, None).unwrap(), Step::Event);
    assert_eq!(target.advance(Step::Event, None).unwrap(), Step::Open);
    let refusal = target.advance(Step::Event, Some("denied".into())).unwrap_err();
    assert_eq!(
        refusal.error.message(),
        "shared memory 'LMU_SharedMemoryLockEvent' is unavailable: denied"
    );
    assert!(!refusal.close_handle);
    let refusal = target.advance(Step::Handle, Some("denied".into())).unwrap_err();
    assert_eq!(
        refusal.error.message(),
        "shared memory 'LMU_SharedMemoryLockData' is unavailable: denied"
    );
}

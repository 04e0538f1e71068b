//! The process behind the mapping: whether its window still stands, and the lock that
//! it shares with its readers.

use crate::error::{Error, ErrorView};
use crate::layout::MAPPING_NAME;
use vstd::prelude::*;

verus! {

/// The mapping in which the lock's two counters lie.
pub const LOCK_MAPPING_NAME: &'static str = "LMU_SharedMemoryLockData";

/// The event on which others wait for the lock.
pub const LOCK_EVENT_NAME: &'static str = "LMU_SharedMemoryLockEvent";

/// The size of the lock's mapping.
pub const LOCK_DATA_SIZE: usize = 8;

/// How often an attempt to take the lock looks at it.
pub const MAX_LOCK_SPINS: usize = 64;

/// Whether the source is alive: it has published a window, and the window exists.
pub fn source_window_alive(raw: u64, window_exists: bool) -> (alive: bool)
    ensures
        alive == (raw != 0 && window_exists),
{
    raw != 0 && window_exists
}

/// Whether the source no longer publishes: its window is gone, or it has been shut down
/// since it was last started.
pub open spec fn stopped(
    window: u64,
    window_exists: bool,
    startup: u32,
    shutdown: u32,
) -> bool {
    !(window != 0 && window_exists) || (shutdown > 0 && shutdown >= startup)
}

/// Whether the source no longer publishes.
pub fn source_stopped(window: u64, window_exists: bool, startup: u32, shutdown: u32) -> (yes: bool)
    ensures
        yes == stopped(window, window_exists, startup, shutdown),
{
    !source_window_alive(window, window_exists) || (shutdown > 0 && shutdown >= startup)
}

/// The error of a read while another holds the lock and the source is gone.
pub open spec fn stopped_while_busy() -> ErrorView {
    ErrorView::SharedMemoryUnavailable {
        name: MAPPING_NAME@,
        source: "source stopped while the shared lock was busy"@,
    }
}

/// Makes the error of a read while another holds the lock and the source is gone.
pub fn stopped_error() -> (error: Error)
    ensures
        error@ == stopped_while_busy(),
{
    Error::SharedMemoryUnavailable {
        name: MAPPING_NAME.to_owned(),
        source: "source stopped while the shared lock was busy".to_owned(),
    }
}

/// An attempt to take the lock.
#[derive(Clone, Copy, Debug, PartialEq, Eq, Structural)]
pub enum LockAttempt {
    /// It has looked so often at a lock that another held.
    Spinning(usize),
    /// It holds the lock.
    Acquired,
    /// It has looked as often as it may.
    GaveUp,
}

/// The attempt after one more look, which took the lock if it was free.
pub open spec fn after_look(attempt: LockAttempt, was_free: bool) -> LockAttempt {
    match attempt {
        LockAttempt::Spinning(spins) => if was_free {
            LockAttempt::Acquired
        } else if spins + 1 >= MAX_LOCK_SPINS {
            LockAttempt::GaveUp
        } else {
            LockAttempt::Spinning((spins + 1) as usize)
        },
        settled => settled,
    }
}

/// The attempt after the looks with these outcomes, in turn.
pub open spec fn after_looks(attempt: LockAttempt, were_free: Seq<bool>) -> LockAttempt
    decreases were_free.len(),
{
    if were_free.len() == 0 {
        attempt
    } else {
        after_look(after_looks(attempt, were_free.drop_last()), were_free.last())
    }
}

impl LockAttempt {
    /// An attempt that has not looked yet.
    pub fn start() -> (attempt: LockAttempt)
        ensures
            attempt == LockAttempt::Spinning(0),
    {
        LockAttempt::Spinning(0)
    }

    /// Takes note of one look at the lock, which took it if it was free.
    pub fn look(self, was_free: bool) -> (next: LockAttempt)
        ensures
            next == after_look(self, was_free),
    {
        match self {
            LockAttempt::Spinning(spins) => if was_free {
                LockAttempt::Acquired
            } else if spins >= MAX_LOCK_SPINS - 1 {
                LockAttempt::GaveUp
            } else {
                LockAttempt::Spinning(spins + 1)
            },
            settled => settled,
        }
    }
}

/// Whether those who wait are to be woken when the lock is released.
pub fn wakes_waiters(waiters: i32) -> (wakes: bool)
    ensures
        wakes == (waiters > 0),
{
    waiters > 0
}

/// An attempt settles within its looks: it has the lock exactly if one of them found it
/// free, and otherwise it gives up with the last and not before.
pub proof fn law_lock_attempt(were_free: Seq<bool>)
    requires
        were_free.len() <= MAX_LOCK_SPINS,
    ensures
        after_looks(LockAttempt::Spinning(0), were_free) == if were_free.contains(true) {
            LockAttempt::Acquired
        } else if were_free.len() == MAX_LOCK_SPINS {
            LockAttempt::GaveUp
        } else {
            LockAttempt::Spinning(were_free.len() as usize)
        },
    decreases were_free.len(),
{
    if were_free.len() > 0 {
        let before = were_free.drop_last();
        law_lock_attempt(before);
        if before.contains(true) {
            let i = choose|i: int| 0 <= i < before.len() && before[i] == true;
            assert(were_free[i]);
        } else if were_free.last() {
            assert(were_free[were_free.len() - 1]);
        } else if were_free.contains(true) {
            let i = choose|i: int| 0 <= i < were_free.len() && were_free[i] == true;
            assert(before[i]);
        }
    }
}

/// A source publishes exactly while its window exists and it has not been shut down since it
/// was last started; a count of zero says that it never was shut down.
pub proof fn law_source_stops(window: u64, window_exists: bool, startup: u32, shutdown: u32)
    ensures
        stopped(window, window_exists, startup, shutdown) <==> window == 0 || !window_exists || (
        shutdown != 0 && shutdown >= startup),
        MAX_LOCK_SPINS == 64,
        LOCK_DATA_SIZE == 8,
{
}

} // verus!

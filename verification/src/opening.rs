//! The steps by which a mapping or the lock is opened, and the errors by which it fails.

use crate::error::{Error, ErrorView};
use crate::source::{LOCK_EVENT_NAME, LOCK_MAPPING_NAME};
use crate::text;
use vstd::prelude::*;

verus! {

/// What is opened: a mapping by its name, and with the lock the event of that name.
#[derive(Debug)]
pub struct Target {
    pub mapping: String,
    pub event: Option<String>,
}

/// The step that an opening takes next.
#[derive(Clone, Copy, Debug, PartialEq, Eq, Structural)]
pub enum Step {
    /// Get a handle to the mapping.
    Handle,
    /// Map a view of it.
    View,
    /// Get a handle to the event.
    Event,
    /// Nothing is left to do.
    Open,
}

/// Why an opening ends, and whether the mapping's handle is to be closed.
#[derive(Debug)]
pub struct Refusal {
    pub error: Error,
    pub close_handle: bool,
}

/// The value of a [`Refusal`].
#[verifier::ext_equal]
pub struct RefusalView {
    pub error: ErrorView,
    pub close_handle: bool,
}

impl View for Refusal {
    type V = RefusalView;

    open spec fn view(&self) -> RefusalView {
        RefusalView { error: self.error@, close_handle: self.close_handle }
    }
}

/// The step after one that succeeded.
pub open spec fn next_step(target: Target, step: Step) -> Step {
    match step {
        Step::Handle => Step::View,
        Step::View => if target.event is Some {
            Step::Event
        } else {
            Step::Open
        },
        Step::Event => Step::Open,
        Step::Open => Step::Open,
    }
}

/// What comes of a step that failed for the given reason. A view that cannot be mapped
/// gives no reason of its own, and with it the handle goes.
pub open spec fn refused(target: Target, step: Step, reason: Seq<char>) -> RefusalView {
    match step {
        Step::View => RefusalView {
            error: ErrorView::MapViewFailed { name: target.mapping@ },
            close_handle: true,
        },
        Step::Event => RefusalView {
            error: ErrorView::SharedMemoryUnavailable {
                name: match target.event {
                    Some(name) => name@,
                    None => target.mapping@,
                },
                source: reason,
            },
            close_handle: false,
        },
        _ => RefusalView {
            error: ErrorView::SharedMemoryUnavailable { name: target.mapping@, source: reason },
            close_handle: false,
        },
    }
}

impl Target {
    /// A mapping alone.
    pub fn mapping(name: &str) -> (target: Target)
        ensures
            target.mapping@ == name@,
            target.event is None,
    {
        Target { mapping: name.to_owned(), event: None }
    }

    /// The lock: its mapping and its event.
    pub fn lock() -> (target: Target)
        ensures
            target.mapping@ == LOCK_MAPPING_NAME@,
            text::optional_text(target.event) == Some(LOCK_EVENT_NAME@),
    {
        Target { mapping: LOCK_MAPPING_NAME.to_owned(), event: Some(LOCK_EVENT_NAME.to_owned()) }
    }

    /// Goes on from a step, which failed if there is a reason.
    pub fn advance(&self, step: Step, failure: Option<String>) -> (next: Result<Step, Refusal>)
        ensures
            match failure {
                Some(reason) => next is Err && next->Err_0@ == refused(*self, step, reason@),
                None => next == Ok::<Step, Refusal>(next_step(*self, step)),
            },
    {
        match failure {
            None => Ok(
                match step {
                    Step::Handle => Step::View,
                    Step::View => if self.event.is_some() {
                        Step::Event
                    } else {
                        Step::Open
                    },
                    Step::Event => Step::Open,
                    Step::Open => Step::Open,
                },
            ),
            Some(reason) => Err(
                match step {
                    Step::View => Refusal {
                        error: Error::MapViewFailed { name: self.mapping.clone() },
                        close_handle: true,
                    },
                    Step::Event => Refusal {
                        error: Error::SharedMemoryUnavailable {
                            name: match &self.event {
                                Some(name) => name.clone(),
                                None => self.mapping.clone(),
                            },
                            source: reason,
                        },
                        close_handle: false,
                    },
                    _ => Refusal {
                        error: Error::SharedMemoryUnavailable {
                            name: self.mapping.clone(),
                            source: reason,
                        },
                        close_handle: false,
                    },
                },
            ),
        }
    }
}

/// A mapping is open after two steps that succeed, the lock after three and not before.
pub proof fn law_steps_to_open(target: Target)
    ensures
        ({
            let second = next_step(target, next_step(target, Step::Handle));
            (second == Step::Open <==> target.event is None) && next_step(target, second)
                == Step::Open
        }),
{
}

/// A failure is reported under the name of what failed with the reason given, but for a view
/// that could not be mapped, for which the handle is closed.
pub proof fn law_failures_name_what_failed(target: Target, reason: Seq<char>)
    ensures
        refused(target, Step::Handle, reason).error == (ErrorView::SharedMemoryUnavailable {
            name: target.mapping@,
            source: reason,
        }),
        refused(target, Step::View, reason).error == (ErrorView::MapViewFailed {
            name: target.mapping@,
        }),
        target.event is Some ==> refused(target, Step::Event, reason).error == (
        ErrorView::SharedMemoryUnavailable { name: target.event->0@, source: reason }),
        !refused(target, Step::Handle, reason).close_handle,
        refused(target, Step::View, reason).close_handle,
        !refused(target, Step::Event, reason).close_handle,
{
}

} // verus!

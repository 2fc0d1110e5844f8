//! The package operations a user can launch, and the event names their
//! progress is reported under. Spawning the operation's script and
//! streaming its output belong to the surrounding application.

use vstd::prelude::*;

verus! {

/// A long-running package operation.
#[derive(Debug, Clone, Copy, PartialEq, Eq, Structural)]
pub enum OperationType {
    Install,
}

impl OperationType {
    /// The operation's name, as the synchronisation script expects it.
    pub fn as_str(&self) -> (r: &'static str)
        ensures
            *self == OperationType::Install ==> r@ == "install"@,
    {
        match self {
            OperationType::Install => "install",
        }
    }

    /// The event progress lines are reported under.
    pub fn progress_event(&self) -> (r: &'static str)
        ensures
            *self == OperationType::Install ==> r@ == "install-progress"@,
    {
        match self {
            OperationType::Install => "install-progress",
        }
    }

    /// The event error lines are reported under.
    pub fn error_event(&self) -> (r: &'static str)
        ensures
            *self == OperationType::Install ==> r@ == "install-error"@,
    {
        match self {
            OperationType::Install => "install-error",
        }
    }

    /// The event completion is reported under.
    pub fn complete_event(&self) -> (r: &'static str)
        ensures
            *self == OperationType::Install ==> r@ == "install-complete"@,
    {
        match self {
            OperationType::Install => "install-complete",
        }
    }

    /// The message sent when the operation finishes.
    pub fn complete_message(&self) -> (r: &'static str)
        ensures
            *self == OperationType::Install ==> r@ == "Installation finished"@,
    {
        match self {
            OperationType::Install => "Installation finished",
        }
    }

    /// The message returned when the operation is launched.
    pub fn start_message(&self) -> (r: String)
        ensures
            *self == OperationType::Install ==> r@ == "Installation started"@,
    {
        match self {
            OperationType::Install => {
                let s = "Installation started";
                s.to_owned()
            },
        }
    }
}

} // verus!

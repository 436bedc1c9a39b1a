//! What can go wrong while counters are acquired or reported.

use vstd::prelude::*;

verus! {

/// Why a snapshot could not be acquired.
#[derive(Clone, Copy, Debug, PartialEq, Eq, Structural)]
pub enum AcquisitionError {
    /// The target could not be opened, or its directory could not be listed.
    /// `errno` is the error number of the operating system, 0 where it gave
    /// none.
    Io { errno: i32 },
    /// The target was opened, but the control request on it failed: most
    /// often the target is no part of a bcachefs filesystem.
    ControlRequestFailed { errno: i32 },
    /// The control request was answered with another number of values than
    /// the `expected` one: the answer's header counts `declared` values, and
    /// `received` values came with it.
    CountMismatch { expected: u16, declared: u16, received: usize },
}

/// The exit code of a run that ended as the user asked.
pub const EXIT_OK: u8 = 0;

/// The exit code of a run that ended on a failure.
pub const EXIT_FAILURE: u8 = 1;

impl AcquisitionError {
    /// The error speaks for a target outside a bcachefs filesystem, so that
    /// the user is to be told of that likely mistake.
    pub open spec fn suggests_wrong_target(self) -> bool {
        self is ControlRequestFailed
    }

    /// Whether the diagnostic is to say that the target is most likely no
    /// part of a bcachefs filesystem.
    pub fn wrong_target_hint(&self) -> (r: bool)
        ensures
            r == self.suggests_wrong_target(),
    {
        match self {
            AcquisitionError::ControlRequestFailed { .. } => true,
            _ => false,
        }
    }

    /// What went wrong, in words for the user.
    pub open spec fn description(self) -> Seq<char> {
        match self {
            AcquisitionError::Io { .. } => "Failed to open the target"@,
            AcquisitionError::ControlRequestFailed { .. } => "Failed to read counters"@,
            AcquisitionError::CountMismatch { .. } => "Failed to read counters: the answer holds another number of values than was asked for"@,
        }
    }

    /// What went wrong, in words for the user. A control request that failed
    /// reads otherwise than a target that could not be opened.
    pub fn describe(&self) -> (r: String)
        ensures
            r@ == self.description(),
    {
        match self {
            AcquisitionError::Io { .. } => "Failed to open the target".to_owned(),
            AcquisitionError::ControlRequestFailed { .. } => "Failed to read counters".to_owned(),
            AcquisitionError::CountMismatch { .. } => "Failed to read counters: the answer holds another number of values than was asked for".to_owned(),
        }
    }

    /// The error number of the operating system that the error carries.
    pub fn errno(&self) -> (r: Option<i32>)
        ensures
            r == match *self {
                AcquisitionError::Io { errno } => Some(errno),
                AcquisitionError::ControlRequestFailed { errno } => Some(errno),
                AcquisitionError::CountMismatch { .. } => None,
            },
    {
        match self {
            AcquisitionError::Io { errno } => Some(*errno),
            AcquisitionError::ControlRequestFailed { errno } => Some(*errno),
            AcquisitionError::CountMismatch { .. } => None,
        }
    }
}

} // verus!

use vstd::prelude::*;

verus! {

/// The failures the coordination core can report to its callers.
///
/// Registry-level errors are returned synchronously and never retried
/// automatically; the caller decides whether to surface them.
#[derive(Clone, Copy, Debug, PartialEq, Eq, Structural)]
pub enum CoreError {
    /// A folder watch was requested on a path that is not a directory.
    NotADirectory,
    /// The underlying OS watch could not be established.
    WatchStartFailed,
    /// A tab transfer named a target window that is no longer live.
    TargetUnavailable,
    /// The underlying window could not be constructed.
    WindowCreationFailed,
}

impl CoreError {
    /// The user-facing description of the failure.
    pub fn message(&self) -> (r: String)
        ensures
            *self == CoreError::NotADirectory ==> r@ == "Selected path is not a folder"@,
            *self == CoreError::WatchStartFailed ==> r@ == "Unable to start watcher"@,
            *self == CoreError::TargetUnavailable ==> r@ == "Target window is no longer available"@,
            *self == CoreError::WindowCreationFailed ==> r@ == "Unable to create window"@,
    {
        match self {
            CoreError::NotADirectory => "Selected path is not a folder".to_owned(),
            CoreError::WatchStartFailed => "Unable to start watcher".to_owned(),
            CoreError::TargetUnavailable => "Target window is no longer available".to_owned(),
            CoreError::WindowCreationFailed => "Unable to create window".to_owned(),
        }
    }
}

} // verus!

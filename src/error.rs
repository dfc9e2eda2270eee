use vstd::prelude::*;

verus! {

/// The only recoverable failure of the manager.
#[derive(Debug, Clone, PartialEq, Eq, Structural)]
pub enum RollbackError {
    /// An input was submitted for a frame that already left the window.
    InputTooOld { input_frame: usize, oldest_valid_frame: usize },
}

} // verus!

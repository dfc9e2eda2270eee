//! Deterministic rollback of a frame-based simulation.
//!
//! Inputs are recorded per frame and per participant; the state of any
//! frame inside the retained window is re-derived on demand by folding a
//! caller-supplied update rule over the resolved inputs, starting from a
//! checkpoint that compaction moves forward as frames leave the window.

use vstd::prelude::*;

pub mod error;
pub mod laws;
pub mod ledger;
pub mod manager;
pub mod replay;

pub use error::RollbackError;
pub use ledger::{FrameInputs, ParticipantId};
pub use manager::RollbackStateManager;

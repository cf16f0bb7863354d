//! The p-machine: an interpreter for the p-code produced by
//! [`crate::pcode`].

pub mod error;
pub mod laws;
pub mod machine;
pub mod word;

pub use error::{RuntimeError, RuntimeErrorView};
pub use machine::{FrameRecord, Image, MachineState, PMachine, StepOutcome};

//! Write-rate flow control for an LSM storage engine: sliding-window
//! statistics, the per-column-family throttle state machine, the worker's
//! decisions, and the probabilistic admission decision.

pub mod admission;
pub mod checker;
pub mod log2;
pub mod ratio;
pub mod smoother;
pub mod throttle;
pub mod worker;

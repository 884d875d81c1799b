pub mod commands;
pub mod execution;
pub mod grouping;
pub mod merge_laws;
pub mod priming;
pub mod probe_laws;
pub mod probing;
pub mod stack_laws;
pub mod stacking;
pub mod text;

pub use execution::{ExecuteError, Execution, Handle};
pub use grouping::{Group, Identifiable, Inputs, Position, Slider, Source};
pub use priming::{Duration, Primed};
pub use probing::{Probe, Probed, ProbedDimensions};
pub use stacking::{Stack, StackIdentity, Stacker, Xstack};

//! Dispatch core of a multi-backend renderer: a table of passes keyed by
//! (configuration kind, target kind), a per-tick job description, and the
//! submission walk that resolves every configuration against the table.

pub mod assoc;
pub mod names;
pub mod scene;
pub mod frame;
pub mod renderer;
pub mod laws;

pub use frame::{Frame, Layer, PassDescription, Target};
pub use names::NameMap;
pub use renderer::{Dispatch, Fault, Renderer, SubmitError};
pub use scene::Scene;

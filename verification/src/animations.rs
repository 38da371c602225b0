//! Time-based UI animations: the Fluent motion table, one-shot timers, and
//! the press and surface state machines built on them.
//!
//! Time is a count of nanoseconds from an arbitrary fixed origin, so the
//! timers can be reasoned about (and tested) without a clock. The eased,
//! floating-point progress values are computed by the renderer from the
//! timer's parts.

pub mod duration;
pub mod curve;
pub mod timed;
pub mod press;
pub mod surface;
pub mod timeline;

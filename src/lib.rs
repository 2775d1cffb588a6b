//! Time-driven automation: sorted timeline tables with a seek cursor,
//! easing shapes, envelope bounds, repeaters and a two-phase channel pipeline.
//!
//! Every real quantity (a time, a weight, a value) is a fixed-point integer
//! with `utils::ONE` units per whole unit; each product is rounded down to the
//! nearest unit. Easing shapes take a whole shape parameter: a power for a
//! positive one, a root for a negative one.
//!
//! - `utils`: fixed-point blending, the sorted-table search and its cursor.
//! - `easing`: the easing shapes.
//! - `repeater`: looping of clip-local time and its moving envelope.
//! - `automation`: anchors, bounds, hit reactions and clip evaluation.
//! - `channel`: channels and the per-tick seek and eval phases.
//! - `seeker`: a standalone cursor over a sorted table.
//! - `spline`: index mapping between a spline's anchors and its segments.

pub mod utils;
pub mod easing;
pub mod repeater;
pub mod automation;
pub mod channel;
pub mod seeker;
pub mod spline;

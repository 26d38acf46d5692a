//! Linear-programming model building for production planning.
//!
//! The crate turns tabular planning data — demand, capacities, costs and
//! quality requirements — into decision variables, linear constraints and an
//! objective, and reads a solved assignment back into domain reports:
//! production and inventory tables, resource utilization with bottleneck
//! detection, and blend composition. Solving itself is the business of an
//! external engine; the crate validates candidate assignments against the
//! model instead of trusting them.

pub mod blending;
pub mod errors;
pub mod linear;
pub mod planning;
pub mod registry;
pub mod solution;

//! A parallel connectivity prober: port specifications, probe targets,
//! per-target aggregation of attempt outcomes, and the scan cycle.
pub mod ports;
pub mod probe;
pub mod result;
pub mod scan;

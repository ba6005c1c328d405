//! Consistency and precondition core of an erasure-coded object store.
//!
//! The library decides how a read is served (which metadata replicas are
//! consulted and how their answers are reconciled), whether a conditional
//! write may proceed, whether a bucket's layout is sound, and where new
//! segments are placed.

pub mod bucket;
pub mod consistency;
pub mod deadline;
pub mod device;
pub mod expect;
pub mod object;
pub mod schema;
pub mod time;

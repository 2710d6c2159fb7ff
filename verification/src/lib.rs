//! Maintenance of a hierarchical time-series metric namespace stored in a
//! wide-column store: retention-stage time bucketing, glob-pattern compilation
//! to fixed-width component predicates, and tree maintenance with garbage
//! collection.

pub mod digits;
pub mod gc;
pub mod metric;
pub mod pattern;
pub mod stage;
pub mod text;
pub mod timerange;
pub mod tree;

//! Audit report over locally cached model artifacts: an index of
//! content-addressed manifests, a correlation pass over runtime logs,
//! and a three-table plain-text report.

pub mod ascii;
pub mod bytes;
pub mod logs;
pub mod manifest;
pub mod report;

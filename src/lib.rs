//! Conformance harness for robots-exclusion policies: loads test cases,
//! evaluates them against one matcher per agent, and summarises and reports
//! the outcomes.
pub mod model;
pub mod loader;
pub mod matcher;
pub mod engine;
pub mod summary;
pub mod report;
pub mod names;

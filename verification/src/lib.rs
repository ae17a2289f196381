//! diskzap: reclaim regenerable cache and build files, safely.
//!
//! The catalog (`targets`) is the only source of deletable things. Candidates
//! resolved from it (`resolve`) are deduplicated by nesting (`dedupe`), guarded
//! (`safety`), judged under the flags (`config`, `report`) and reported
//! (`report`, `render`). Paths are compared by component (`paths`).
pub mod config;
pub mod dedupe;
pub mod paths;
pub mod render;
pub mod report;
pub mod resolve;
pub mod safety;
pub mod targets;
pub mod text;
pub mod units;
pub mod volume;

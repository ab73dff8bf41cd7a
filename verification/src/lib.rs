//! Remote-repository acquisition support for a code-statistics tool.
//!
//! The library classifies raw inputs into remote repository references and
//! local paths, derives a deterministic scratch destination for every remote
//! reference, tracks multi-phase fetch progress and renders it as a
//! fixed-height terminal frame, merges fetched paths back into the input set,
//! and encodes/decodes statistics reports through a fixed codec order.

pub mod classify;
pub mod merge;
pub mod paths;
pub mod progress;
pub mod codec;
pub mod render;

pub use classify::is_git;
pub use paths::create_repo_dl_path;

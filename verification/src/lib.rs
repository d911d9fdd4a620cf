//! Core of a single-user hierarchical task tracker.
//!
//! The crate holds the task data model with its lifecycle state machine,
//! the in-memory task store with parent/child indexing and identifier
//! resolution, the tree builder that turns the flat store into a forest,
//! and the visibility projector that computes the flat, filtered view of
//! the hierarchy used by interactive browsing. File persistence, argument
//! handling and terminal rendering live outside the library and exchange
//! plain values with it.

pub mod clock;
pub mod config;
pub mod date;
pub mod effort;
pub mod errors;
pub mod id;
pub mod paths;
pub mod project;
pub mod resolve;
pub mod store;
pub mod strutil;
pub mod task;
pub mod timefmt;
pub mod tree;

pub use config::Config;
pub use effort::EffortEstimate;
pub use errors::TwigError;
pub use id::TaskId;
pub use paths::DataPaths;
pub use project::ViewState;
pub use store::Storage;
pub use task::Task;
pub use task::TaskStatus;
pub use task::TimeEntry;
pub use tree::TreeNode;

//! A local registry of "agent" files for a project.
//!
//! The registry tracks each agent's authoritative source (a local file or a
//! remote file reference), materializes enabled agents as symbolic links in a
//! well-known directory, and reconciles the declared configuration with the
//! observed filesystem state.
//!
//! This crate holds the verified core: the data model, path resolution, the
//! JSON codec of the persisted registry, an in-memory filesystem model, and
//! the reconciliation engine that plans filesystem actions from observed
//! state. Real filesystem and network I/O live outside this crate; they hand
//! in plain values (snapshots) and carry out the planned actions.

pub mod agent;
pub mod config;
pub mod engine;
pub mod errors;
pub mod fs;
pub mod json;
pub mod paths;
pub mod remote;

pub use agent::{Agent, AgentSource, AgentV, SourceV};
pub use config::AgentsConfig;
pub use engine::{
    clean_registry, disable_agent, doctor_fix, doctor_report, enable_agent, find_orphans,
    find_unmanaged, import_files, plan_add_local, register_agent, sync_registry, Issue,
    IssueType, SyncOutcome,
};
pub use errors::AgentError;
pub use fs::{FsAction, FsModel, FsNode, FsNodeV};
pub use paths::{join_paths, path_is_absolute};
pub use remote::{plan_fetch, FetchPlan};

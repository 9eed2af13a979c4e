use vstd::prelude::*;
use vstd::string::StringExecFns;

verus! {

/// The error kinds surfaced by registry and reconciliation operations.
///
/// Each variant carries the detail a report needs: the offending name, path,
/// or a description of what went wrong.
#[derive(Debug)]
pub enum AgentError {
    /// A remote reference is malformed or does not point at a single file.
    InvalidReference(String),
    /// A declared source path is absent from the filesystem.
    PathNotFound(String),
    /// An agent with this name is already registered.
    DuplicateName(String),
    /// The symlink primitive failed for this target path.
    LinkCreationFailed(String),
    /// An attempt to remove, as a symlink, a path that exists but is not one.
    NotASymlink(String),
    /// The persisted registry document could not be parsed.
    ConfigParseError(String),
    /// A remote fetch failed in transport or returned a non-success status.
    TransportError(String),
    /// The named agent is not in the registry.
    NotFound(String),
}

impl AgentError {
    /// A human-readable description of the error, for reports.
    pub fn message(&self) -> (r: String)
        ensures
            r@ == self.message_spec(),
    {
        match self {
            AgentError::InvalidReference(d) => d.clone(),
            AgentError::PathNotFound(p) => {
                String::from_str("Path does not exist: ").concat(p.as_str())
            },
            AgentError::DuplicateName(n) => {
                String::from_str("Agent '").concat(n.as_str()).concat("' already exists")
            },
            AgentError::LinkCreationFailed(p) => {
                String::from_str("Failed to create symlink at ").concat(p.as_str())
            },
            AgentError::NotASymlink(p) => {
                String::from_str("Not a symlink: ").concat(p.as_str())
            },
            AgentError::ConfigParseError(d) => {
                String::from_str("Failed to parse agents config: ").concat(d.as_str())
            },
            AgentError::TransportError(d) => {
                String::from_str("Download failed: ").concat(d.as_str())
            },
            AgentError::NotFound(n) => {
                String::from_str("Agent '").concat(n.as_str()).concat(
                    "' not found in .agents.json",
                )
            },
        }
    }

    /// What `message` returns, variant by variant.
    pub open spec fn message_spec(&self) -> Seq<char> {
        match self {
            AgentError::InvalidReference(d) => d@,
            AgentError::PathNotFound(p) => "Path does not exist: "@ + p@,
            AgentError::DuplicateName(n) => "Agent '"@ + n@ + "' already exists"@,
            AgentError::LinkCreationFailed(p) => "Failed to create symlink at "@ + p@,
            AgentError::NotASymlink(p) => "Not a symlink: "@ + p@,
            AgentError::ConfigParseError(d) => "Failed to parse agents config: "@ + d@,
            AgentError::TransportError(d) => "Download failed: "@ + d@,
            AgentError::NotFound(n) => "Agent '"@ + n@ + "' not found in .agents.json"@,
        }
    }
}

} // verus!

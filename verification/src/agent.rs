use vstd::prelude::*;
use vstd::string::StrSliceExecFns;
use vstd::string::StringExecFns;

use crate::errors::AgentError;
use crate::paths::{after_last_slash, join_path, join_paths, str_eq, tail_after_last_slash};

verus! {

/// The authoritative source of an agent: a path on disk, or a remote
/// file reference (a URL pointing at a single file on a known host).
#[derive(Debug)]
pub enum AgentSource {
    Local(String),
    GitHub(String),
}

/// A named, managed reference to an artifact. `name` is unique within a
/// registry and used as the link's filename; `enabled` says whether a
/// symlink should exist for it.
#[derive(Debug)]
pub struct Agent {
    pub name: String,
    pub source: AgentSource,
    pub enabled: bool,
}

impl Clone for AgentSource {
    fn clone(&self) -> (r: AgentSource)
        ensures
            r == *self,
    {
        match self {
            AgentSource::Local(p) => AgentSource::Local(p.clone()),
            AgentSource::GitHub(u) => AgentSource::GitHub(u.clone()),
        }
    }
}

impl Clone for Agent {
    fn clone(&self) -> (r: Agent)
        ensures
            r == *self,
    {
        Agent { name: self.name.clone(), source: self.source.clone(), enabled: self.enabled }
    }
}

/// The mathematical value of an `AgentSource`.
pub enum SourceV {
    Local(Seq<char>),
    GitHub(Seq<char>),
}

/// The mathematical value of an `Agent`.
pub struct AgentV {
    pub name: Seq<char>,
    pub source: SourceV,
    pub enabled: bool,
}

impl View for AgentSource {
    type V = SourceV;

    open spec fn view(&self) -> SourceV {
        match self {
            AgentSource::Local(p) => SourceV::Local(p@),
            AgentSource::GitHub(u) => SourceV::GitHub(u@),
        }
    }
}

impl View for Agent {
    type V = AgentV;

    open spec fn view(&self) -> AgentV {
        AgentV { name: self.name@, source: self.source@, enabled: self.enabled }
    }
}

/// Where an agent's content lives on disk: a local path resolved against
/// the project root, or, for a remote source, a fixed location in the
/// managed source directory.
pub open spec fn local_path_spec(a: AgentV, root: Seq<char>) -> Seq<char> {
    match a.source {
        SourceV::Local(p) => join_path(root, p),
        SourceV::GitHub(_) => root + "/.ccagents/"@ + a.name,
    }
}

/// Where an agent's symlink lives: always under the managed link
/// directory, named after the agent.
pub open spec fn link_path_spec(root: Seq<char>, name: Seq<char>) -> Seq<char> {
    root + "/.cc/agents/"@ + name
}

/// The filename component of a path: the part after the last '/', with
/// trailing separators stripped first. Absent when nothing remains or
/// when the component is "." or "..".
pub open spec fn file_name_of(p: Seq<char>) -> Option<Seq<char>> {
    let q = strip_trailing_slashes(p);
    let f = after_last_slash(q);
    if f.len() == 0 || f == "."@ || f == ".."@ {
        None
    } else {
        Some(f)
    }
}

pub open spec fn strip_trailing_slashes(p: Seq<char>) -> Seq<char>
    decreases p.len(),
{
    if p.len() > 0 && p.last() == '/' {
        strip_trailing_slashes(p.drop_last())
    } else {
        p
    }
}

impl Agent {
    /// A fresh agent is enabled.
    pub fn new(name: String, source: AgentSource) -> (r: Agent)
        ensures
            r@ == (AgentV { name: name@, source: source@, enabled: true }),
    {
        Agent { name, source, enabled: true }
    }

    /// Builds a local agent from a path, named after the path's filename
    /// component; fails when the path has none.
    pub fn from_path(path: &str) -> (r: Result<Agent, AgentError>)
        ensures
            match r {
                Ok(a) => file_name_of(path@) == Some(a@.name) && a@.source == SourceV::Local(path@)
                    && a@.enabled,
                Err(e) => file_name_of(path@) is None && e matches AgentError::InvalidReference(_),
            },
    {
        match file_name_component(path) {
            Some(name) => Ok(
                Agent {
                    name,
                    source: AgentSource::Local(String::from_str(path)),
                    enabled: true,
                },
            ),
            None => Err(AgentError::InvalidReference(String::from_str("Invalid agent path"))),
        }
    }

    /// The path where this agent's content lives, resolved against the
    /// project root.
    pub fn get_local_path(&self, project_root: &str) -> (r: String)
        ensures
            r@ == local_path_spec(self@, project_root@),
    {
        match &self.source {
            AgentSource::Local(p) => join_paths(project_root, p.as_str()),
            AgentSource::GitHub(_) => String::from_str(project_root).concat(
                "/.ccagents/",
            ).concat(self.name.as_str()),
        }
    }

    /// The path where this agent's symlink lives.
    pub fn get_link_path(&self, project_root: &str) -> (r: String)
        ensures
            r@ == link_path_spec(project_root@, self.name@),
    {
        String::from_str(project_root).concat("/.cc/agents/").concat(self.name.as_str())
    }
}

/// The filename component of `path`, per `file_name_of`.
pub fn file_name_component(path: &str) -> (r: Option<String>)
    ensures
        match r {
            Some(n) => file_name_of(path@) == Some(n@),
            None => file_name_of(path@) is None,
        },
{
    let stripped = strip_trailing(path);
    let f = tail_after_last_slash(stripped.as_str());
    if f.as_str().unicode_len() == 0 || str_eq(f.as_str(), ".") || str_eq(f.as_str(), "..") {
        None
    } else {
        Some(f)
    }
}

/// `path` with trailing separators removed, per `strip_trailing_slashes`.
fn strip_trailing(path: &str) -> (r: String)
    ensures
        r@ == strip_trailing_slashes(path@),
{
    let n = path.unicode_len();
    let mut j = n;
    proof {
        assert(path@.take(n as int) =~= path@);
    }
    while j > 0
        invariant
            j <= n,
            n == path@.len(),
            strip_trailing_slashes(path@) == strip_trailing_slashes(path@.take(j as int)),
        decreases j,
    {
        if path.get_char(j - 1) != '/' {
            let r = path.substring_char(0, j);
            proof {
                assert(r@ =~= path@.take(j as int));
            }
            return r.to_owned();
        }
        proof {
            assert(path@.take(j as int).last() == '/');
            assert(path@.take(j as int).drop_last() =~= path@.take(j - 1));
        }
        j = j - 1;
    }
    proof {
        assert(path@.take(0) =~= Seq::<char>::empty());
    }
    String::new()
}

} // verus!

use vstd::prelude::*;
use vstd::string::StringExecFns;

use crate::agent::Agent;
use crate::errors::AgentError;
use crate::paths::str_eq;

verus! {

/// The declared registry: an ordered list of agents. Insertion order is
/// preserved across the persisted form. `add_agent` keeps names unique;
/// a hand-edited document can still carry duplicates, which the doctor
/// pass detects and repairs.
#[derive(Debug)]
pub struct AgentsConfig {
    pub agents: Vec<Agent>,
}

/// True when some entry carries this name.
pub open spec fn has_name(agents: Seq<Agent>, name: Seq<char>) -> bool {
    exists|i: int| 0 <= i < agents.len() && agents[i].name@ == name
}

/// The index of the first entry with this name, or -1 when there is none.
pub open spec fn first_name_idx(agents: Seq<Agent>, name: Seq<char>) -> int
    decreases agents.len(),
{
    if agents.len() == 0 {
        -1
    } else if agents[0].name@ == name {
        0
    } else {
        let r = first_name_idx(agents.drop_first(), name);
        if r == -1 {
            -1
        } else {
            r + 1
        }
    }
}

/// A scan that finds the name at `i`, with no earlier hit, found the
/// first occurrence.
pub proof fn lemma_first_idx_found(agents: Seq<Agent>, name: Seq<char>, i: int)
    requires
        0 <= i < agents.len(),
        agents[i].name@ == name,
        forall|j: int| 0 <= j < i ==> agents[j].name@ != name,
    ensures
        first_name_idx(agents, name) == i,
        has_name(agents, name),
    decreases agents.len(),
{
    if i == 0 {
    } else {
        lemma_first_idx_found(agents.drop_first(), name, i - 1);
    }
}

/// A scan with no hit at all proves the name absent.
pub proof fn lemma_first_idx_absent(agents: Seq<Agent>, name: Seq<char>)
    requires
        forall|j: int| 0 <= j < agents.len() ==> agents[j].name@ != name,
    ensures
        first_name_idx(agents, name) == -1,
        !has_name(agents, name),
    decreases agents.len(),
{
    if agents.len() > 0 {
        lemma_first_idx_absent(agents.drop_first(), name);
    }
}

/// Where the name occurs, `first_name_idx` points at its first entry.
pub proof fn lemma_first_idx_props(agents: Seq<Agent>, name: Seq<char>)
    requires
        has_name(agents, name),
    ensures
        0 <= first_name_idx(agents, name) < agents.len(),
        agents[first_name_idx(agents, name)].name@ == name,
        forall|j: int| 0 <= j < first_name_idx(agents, name) ==> agents[j].name@ != name,
    decreases agents.len(),
{
    if agents.len() > 0 && agents[0].name@ != name {
        assert(has_name(agents.drop_first(), name)) by {
            let i = choose|i: int|
                0 <= i < agents.len() && agents[i].name@ == name;
            assert(agents.drop_first()[i - 1].name@ == name);
        }
        lemma_first_idx_props(agents.drop_first(), name);
        let r = first_name_idx(agents.drop_first(), name);
        assert forall|j: int| 0 <= j < r + 1 implies agents[j].name@ != name by {
            if j > 0 {
                assert(agents.drop_first()[j - 1] == agents[j]);
            }
        }
    }
}

/// An appended agent's name is taken: by the contract of `add_agent`, a
/// second add of the same name then fails and leaves the registry as it
/// was.
pub proof fn lemma_added_name_present(agents: Seq<Agent>, agent: Agent)
    ensures
        has_name(agents.push(agent), agent.name@),
{
    assert(agents.push(agent)[agents.len() as int].name@ == agent.name@);
}

impl AgentsConfig {
    /// An empty registry.
    pub fn new() -> (r: AgentsConfig)
        ensures
            r.agents@ =~= Seq::<Agent>::empty(),
    {
        AgentsConfig { agents: Vec::new() }
    }

    /// Appends the agent; fails, changing nothing, when an entry with
    /// the same name is already present.
    pub fn add_agent(&mut self, agent: Agent) -> (r: Result<(), AgentError>)
        ensures
            match r {
                Ok(()) => !has_name(old(self).agents@, agent.name@) && final (self).agents@ == old(
                    self,
                ).agents@.push(agent),
                Err(e) => has_name(old(self).agents@, agent.name@) && *final (self) == *old(self) && (
                e matches AgentError::DuplicateName(n) && n@ == agent.name@),
            },
    {
        let n = self.agents.len();
        let mut i: usize = 0;
        while i < n
            invariant
                i <= n,
                n == self.agents.len(),
                forall|j: int| 0 <= j < i ==> self.agents@[j].name@ != agent.name@,
        decreases n - i,
        {
            if str_eq(self.agents[i].name.as_str(), agent.name.as_str()) {
                return Err(AgentError::DuplicateName(agent.name.clone()));
            }
            i = i + 1;
        }
        self.agents.push(agent);
        Ok(())
    }

    /// Removes every entry with this name; fails, changing nothing, when
    /// there is none.
    pub fn remove_agent(&mut self, name: &str) -> (r: Result<(), AgentError>)
        ensures
            final (self).agents@ == old(self).agents@.filter(|a: Agent| a.name@ != name@),
            match r {
                Ok(()) => has_name(old(self).agents@, name@),
                Err(e) => !has_name(old(self).agents@, name@) && (
                e matches AgentError::NotFound(n) && n@ == name@),
            },
    {
        broadcast use vstd::seq_lib::group_filter_ensures, Seq::lemma_filter_push;

        let ghost orig = self.agents@;
        let mut kept: Vec<Agent> = Vec::new();
        let mut found = false;
        let n = self.agents.len();
        let mut i: usize = 0;
        proof {
            assert(orig.take(0) =~= Seq::<Agent>::empty());
            assert(kept@ =~= orig.take(0).filter(|a: Agent| a.name@ != name@));
        }
        while i < n
            invariant
                i <= n,
                n == orig.len(),
                self.agents@ == orig,
                kept@ == orig.take(i as int).filter(|a: Agent| a.name@ != name@),
                found <==> exists|j: int| 0 <= j < i && orig[j].name@ == name@,
            decreases n - i,
        {
            proof {
                assert(orig.take(i + 1) =~= orig.take(i as int).push(orig[i as int]));
                orig.take(i as int).lemma_filter_push(
                    orig[i as int],
                    |a: Agent| a.name@ != name@,
                );
            }
            let a = self.agents[i].clone();
            proof {
                assert(a == orig[i as int]);
            }
            if str_eq(a.name.as_str(), name) {
                found = true;
            } else {
                kept.push(a);
            }
            i = i + 1;
        }
        proof {
            assert(orig.take(n as int) =~= orig);
        }
        self.agents = kept;
        if found {
            Ok(())
        } else {
            Err(AgentError::NotFound(String::from_str(name)))
        }
    }

    /// The first entry with this name, if any.
    pub fn get_agent(&self, name: &str) -> (r: Option<&Agent>)
        ensures
            match r {
                Some(a) => has_name(self.agents@, name@) && *a == self.agents@[first_name_idx(
                    self.agents@,
                    name@,
                )],
                None => !has_name(self.agents@, name@),
            },
    {
        let n = self.agents.len();
        let mut i: usize = 0;
        while i < n
            invariant
                i <= n,
                n == self.agents.len(),
                forall|j: int| 0 <= j < i ==> self.agents@[j].name@ != name@,
            decreases n - i,
        {
            if str_eq(self.agents[i].name.as_str(), name) {
                proof {
                    lemma_first_idx_found(self.agents@, name@, i as int);
                }
                return Some(&self.agents[i]);
            }
            i = i + 1;
        }
        proof {
            lemma_first_idx_absent(self.agents@, name@);
        }
        None
    }

    /// The index of the first entry with this name, for in-place update.
    pub fn get_agent_idx(&self, name: &str) -> (r: Option<usize>)
        ensures
            match r {
                Some(i) => has_name(self.agents@, name@) && i == first_name_idx(
                    self.agents@,
                    name@,
                ),
                None => !has_name(self.agents@, name@),
            },
    {
        let n = self.agents.len();
        let mut i: usize = 0;
        while i < n
            invariant
                i <= n,
                n == self.agents.len(),
                forall|j: int| 0 <= j < i ==> self.agents@[j].name@ != name@,
            decreases n - i,
        {
            if str_eq(self.agents[i].name.as_str(), name) {
                proof {
                    lemma_first_idx_found(self.agents@, name@, i as int);
                }
                return Some(i);
            }
            i = i + 1;
        }
        proof {
            lemma_first_idx_absent(self.agents@, name@);
        }
        None
    }

    /// A mutable borrow of the first entry with this name, if any.
    pub fn get_agent_mut(&mut self, name: &str) -> (r: Option<&mut Agent>)
        ensures
            match r {
                Some(a) => has_name(old(self).agents@, name@) && *a == old(
                    self,
                ).agents@[first_name_idx(old(self).agents@, name@)] && final (self).agents@ == old(
                    self,
                ).agents@.update(first_name_idx(old(self).agents@, name@), *final (a)),
                None => !has_name(old(self).agents@, name@) && *final (self) == *old(self),
            },
    {
        match self.get_agent_idx(name) {
            Some(i) => {
                proof {
                    lemma_first_idx_props(self.agents@, name@);
                }
                Some(&mut self.agents[i])
            },
            None => None,
        }
    }

    /// The enabled entries, preserving relative order.
    pub fn enabled_agents(&self) -> (r: Vec<&Agent>)
        ensures
            r@.map_values(|a: &Agent| *a) == self.agents@.filter(|a: Agent| a.enabled),
    {
        broadcast use vstd::seq_lib::group_filter_ensures, Seq::lemma_filter_push;

        let mut out: Vec<&Agent> = Vec::new();
        let n = self.agents.len();
        let mut i: usize = 0;
        proof {
            assert(self.agents@.take(0) =~= Seq::<Agent>::empty());
            assert(out@.map_values(|a: &Agent| *a) =~= self.agents@.take(0).filter(
                |a: Agent| a.enabled,
            ));
        }
        while i < n
            invariant
                i <= n,
                n == self.agents.len(),
                out@.map_values(|a: &Agent| *a) == self.agents@.take(i as int).filter(
                    |a: Agent| a.enabled,
                ),
            decreases n - i,
        {
            proof {
                assert(self.agents@.take(i + 1) =~= self.agents@.take(i as int).push(
                    self.agents@[i as int],
                ));
                self.agents@.take(i as int).lemma_filter_push(
                    self.agents@[i as int],
                    |a: Agent| a.enabled,
                );
            }
            let ghost prev = out@.map_values(|a: &Agent| *a);
            if self.agents[i].enabled {
                out.push(&self.agents[i]);
                proof {
                    assert(out@.map_values(|a: &Agent| *a) =~= prev.push(self.agents@[i as int]));
                }
            }
            i = i + 1;
        }
        proof {
            assert(self.agents@.take(n as int) =~= self.agents@);
        }
        out
    }

    /// The disabled entries, preserving relative order.
    pub fn disabled_agents(&self) -> (r: Vec<&Agent>)
        ensures
            r@.map_values(|a: &Agent| *a) == self.agents@.filter(|a: Agent| !a.enabled),
    {
        broadcast use vstd::seq_lib::group_filter_ensures, Seq::lemma_filter_push;

        let mut out: Vec<&Agent> = Vec::new();
        let n = self.agents.len();
        let mut i: usize = 0;
        proof {
            assert(self.agents@.take(0) =~= Seq::<Agent>::empty());
            assert(out@.map_values(|a: &Agent| *a) =~= self.agents@.take(0).filter(
                |a: Agent| !a.enabled,
            ));
        }
        while i < n
            invariant
                i <= n,
                n == self.agents.len(),
                out@.map_values(|a: &Agent| *a) == self.agents@.take(i as int).filter(
                    |a: Agent| !a.enabled,
                ),
            decreases n - i,
        {
            proof {
                assert(self.agents@.take(i + 1) =~= self.agents@.take(i as int).push(
                    self.agents@[i as int],
                ));
                self.agents@.take(i as int).lemma_filter_push(
                    self.agents@[i as int],
                    |a: Agent| !a.enabled,
                );
            }
            let ghost prev = out@.map_values(|a: &Agent| *a);
            if !self.agents[i].enabled {
                out.push(&self.agents[i]);
                proof {
                    assert(out@.map_values(|a: &Agent| *a) =~= prev.push(self.agents@[i as int]));
                }
            }
            i = i + 1;
        }
        proof {
            assert(self.agents@.take(n as int) =~= self.agents@);
        }
        out
    }
}

impl Default for AgentsConfig {
    /// The default registry is empty.
    fn default() -> (r: AgentsConfig)
        ensures
            r.agents@ =~= Seq::<Agent>::empty(),
    {
        AgentsConfig { agents: Vec::new() }
    }
}

} // verus!

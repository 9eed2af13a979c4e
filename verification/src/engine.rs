use vstd::prelude::*;
use vstd::string::StringExecFns;

use crate::agent::{link_path_spec, local_path_spec, Agent, AgentSource};
use crate::config::{first_name_idx, has_name, AgentsConfig};
use crate::errors::AgentError;
use crate::fs::{fs_view, lookup_in, path_exists, valid_link, FsAction, FsActionV, FsModel, FsNodeV};

verus! {

// The reconciliation engine. Every command here is pure planning: it
// reads a filesystem snapshot, mutates the registry in memory, and hands
// back the filesystem actions that carry the change out. Whoever owns
// the real tree performs the actions in order; `FsModel::apply_all`
// plays them against the snapshot itself.
/// The agent with its enabled flag set as given.
pub open spec fn with_enabled(a: Agent, e: bool) -> Agent {
    Agent { name: a.name, source: a.source, enabled: e }
}

/// Enables a registered agent and plans its link. Fails without change
/// when the name is unknown, or when the agent's source is missing from
/// the snapshot. Enabling an agent that is already enabled changes
/// nothing and plans nothing.
pub fn enable_agent(config: &mut AgentsConfig, fsm: &FsModel, name: &str, root: &str) -> (r:
    Result<Vec<FsAction>, AgentError>)
    requires
        fsm.wf(),
    ensures
        ({
            let agents = old(config).agents@;
            let idx = first_name_idx(agents, name@);
            match r {
                Ok(actions) => has_name(agents, name@) && if agents[idx].enabled {
                    final (config).agents@ == agents && actions@.len() == 0
                } else {
                    let a = agents[idx];
                    &&& path_exists(fs_view(fsm), local_path_spec(a@, root@))
                    &&& final (config).agents@ == agents.update(idx, with_enabled(a, true))
                    &&& crate::fs::action_views(actions@) == seq![
                        FsActionV::Link {
                            source: local_path_spec(a@, root@),
                            target: link_path_spec(root@, a.name@),
                        },
                    ]
                },
                Err(e) => final (config).agents@ == agents && match e {
                    AgentError::NotFound(n) => n@ == name@ && !has_name(agents, name@),
                    AgentError::PathNotFound(p) => has_name(agents, name@)
                        && !agents[idx].enabled && !path_exists(
                        fs_view(fsm),
                        local_path_spec(agents[idx]@, root@),
                    ) && p@ == local_path_spec(agents[idx]@, root@),
                    _ => false,
                },
            }
        }),
{
    let i = match config.get_agent_idx(name) {
        Some(i) => i,
        None => {
            return Err(AgentError::NotFound(String::from_str(name)));
        },
    };
    proof {
        crate::config::lemma_first_idx_props(config.agents@, name@);
    }
    if config.agents[i].enabled {
        return Ok(Vec::new());
    }
    let local = config.agents[i].get_local_path(root);
    if !fsm.path_exists(local.as_str()) {
        return Err(AgentError::PathNotFound(local));
    }
    let link = config.agents[i].get_link_path(root);
    let ghost before = config.agents@;
    config.agents[i].enabled = true;
    proof {
        assert(config.agents@ =~= before.update(i as int, with_enabled(before[i as int], true)));
    }
    let mut actions: Vec<FsAction> = Vec::new();
    actions.push(FsAction::Link { source: local, target: link });
    proof {
        assert(crate::fs::action_views(actions@) =~= seq![actions@[0]@]);
    }
    Ok(actions)
}

/// Disables a registered agent and plans the removal of its link, if an
/// entry stands at the link path. Fails without change when the name is
/// unknown, or when the link path holds something other than a symbolic
/// link. Disabling a disabled agent changes nothing and plans nothing.
pub fn disable_agent(config: &mut AgentsConfig, fsm: &FsModel, name: &str, root: &str) -> (r:
    Result<Vec<FsAction>, AgentError>)
    requires
        fsm.wf(),
    ensures
        ({
            let agents = old(config).agents@;
            let idx = first_name_idx(agents, name@);
            match r {
                Ok(actions) => has_name(agents, name@) && if !agents[idx].enabled {
                    final (config).agents@ == agents && actions@.len() == 0
                } else {
                    let a = agents[idx];
                    let link = link_path_spec(root@, a.name@);
                    &&& final (config).agents@ == agents.update(idx, with_enabled(a, false))
                    &&& crate::fs::action_views(actions@) == (if lookup_in(
                        fs_view(fsm),
                        link,
                    ) is Some {
                        seq![FsActionV::Unlink { target: link }]
                    } else {
                        Seq::<FsActionV>::empty()
                    })
                    &&& (lookup_in(fs_view(fsm), link) matches Some(n) ==> n is Symlink)
                },
                Err(e) => final (config).agents@ == agents && match e {
                    AgentError::NotFound(n) => n@ == name@ && !has_name(agents, name@),
                    AgentError::NotASymlink(p) => {
                        let link = link_path_spec(root@, agents[idx].name@);
                        &&& has_name(agents, name@)
                        &&& agents[idx].enabled
                        &&& p@ == link
                        &&& lookup_in(fs_view(fsm), link) matches Some(n) && !(n is Symlink)
                    },
                    _ => false,
                },
            }
        }),
{
    let i = match config.get_agent_idx(name) {
        Some(i) => i,
        None => {
            return Err(AgentError::NotFound(String::from_str(name)));
        },
    };
    proof {
        crate::config::lemma_first_idx_props(config.agents@, name@);
    }
    if !config.agents[i].enabled {
        return Ok(Vec::new());
    }
    let link = config.agents[i].get_link_path(root);
    let kind: u8 = match fsm.get_node(link.as_str()) {
        None => 0,
        Some(crate::fs::FsNode::Symlink(_)) => 1,
        Some(_) => 2,
    };
    if kind == 2 {
        return Err(AgentError::NotASymlink(link));
    }
    let ghost before = config.agents@;
    config.agents[i].enabled = false;
    proof {
        assert(config.agents@ =~= before.update(i as int, with_enabled(before[i as int], false)));
    }
    let mut actions: Vec<FsAction> = Vec::new();
    if kind == 1 {
        actions.push(FsAction::Unlink { target: link });
        proof {
            assert(crate::fs::action_views(actions@) =~= seq![actions@[0]@]);
        }
    } else {
        proof {
            assert(crate::fs::action_views(actions@) =~= Seq::<FsActionV>::empty());
        }
    }
    Ok(actions)
}

/// An agent is an orphan when nothing exists at its resolved source.
pub open spec fn is_orphan(fsv: Seq<(Seq<char>, FsNodeV)>, a: Agent, root: Seq<char>) -> bool {
    !path_exists(fsv, local_path_spec(a@, root))
}

/// The names of the orphaned agents, in registry order.
pub fn find_orphans(config: &AgentsConfig, fsm: &FsModel, root: &str) -> (r: Vec<String>)
    requires
        fsm.wf(),
    ensures
        r.deep_view() == config.agents@.filter(
            |a: Agent| is_orphan(fs_view(fsm), a, root@),
        ).map_values(|a: Agent| a.name@),
    {
    let ghost fsv = fs_view(fsm);
    let mut out: Vec<String> = Vec::new();
    let n = config.agents.len();
    let mut i: usize = 0;
    proof {
        assert(config.agents@.take(0) =~= Seq::<Agent>::empty());
        assert(out.deep_view() =~= config.agents@.take(0).filter(
            |a: Agent| is_orphan(fsv, a, root@),
        ).map_values(|a: Agent| a.name@));
    }
    while i < n
        invariant
            i <= n,
            n == config.agents@.len(),
            fsv == fs_view(fsm),
            fsm.wf(),
            out.deep_view() == config.agents@.take(i as int).filter(
                |a: Agent| is_orphan(fsv, a, root@),
            ).map_values(|a: Agent| a.name@),
        decreases n - i,
    {
        proof {
            assert(config.agents@.take(i + 1) =~= config.agents@.take(i as int).push(
                config.agents@[i as int],
            ));
            config.agents@.take(i as int).lemma_filter_push(
                config.agents@[i as int],
                |a: Agent| is_orphan(fsv, a, root@),
            );
        }
        let local = config.agents[i].get_local_path(root);
        let ghost prev = out.deep_view();
        if !fsm.path_exists(local.as_str()) {
            out.push(config.agents[i].name.clone());
            proof {
                assert(out.deep_view() =~= prev.push(config.agents@[i as int].name@));
                assert(config.agents@.take(i as int).filter(
                    |a: Agent| is_orphan(fsv, a, root@),
                ).push(config.agents@[i as int]).map_values(|a: Agent| a.name@) =~= prev.push(
                    config.agents@[i as int].name@,
                ));
            }
        }
        i = i + 1;
    }
    proof {
        assert(config.agents@.take(n as int) =~= config.agents@);
    }
    out
}

/// Removes every orphaned agent from the registry and plans the removal
/// of whatever entries stand at their link paths. Exactly the agents
/// whose resolved source is missing leave; every agent whose source
/// exists stays.
pub fn clean_registry(config: &mut AgentsConfig, fsm: &FsModel, root: &str) -> (r: (
    Vec<String>,
    Vec<FsAction>,
))
    requires
        fsm.wf(),
    ensures
        final (config).agents@ == old(config).agents@.filter(
            |a: Agent| !is_orphan(fs_view(fsm), a, root@),
        ),
        r.0.deep_view() == old(config).agents@.filter(
            |a: Agent| is_orphan(fs_view(fsm), a, root@),
        ).map_values(|a: Agent| a.name@),
        crate::fs::action_views(r.1@) == old(config).agents@.filter(
            |a: Agent| is_orphan(fs_view(fsm), a, root@) && lookup_in(
                fs_view(fsm),
                link_path_spec(root@, a.name@),
            ) is Some,
        ).map_values(
            |a: Agent|
                FsActionV::RemoveEntry { target: link_path_spec(root@, a.name@) },
        ),
{
    let ghost fsv = fs_view(fsm);
    let ghost orig = config.agents@;
    let mut kept: Vec<Agent> = Vec::new();
    let mut removed: Vec<String> = Vec::new();
    let mut actions: Vec<FsAction> = Vec::new();
    let n = config.agents.len();
    let mut i: usize = 0;
    proof {
        assert(orig.take(0) =~= Seq::<Agent>::empty());
        assert(kept@ =~= orig.take(0).filter(|a: Agent| !is_orphan(fsv, a, root@)));
        assert(removed.deep_view() =~= orig.take(0).filter(
            |a: Agent| is_orphan(fsv, a, root@),
        ).map_values(|a: Agent| a.name@));
        assert(crate::fs::action_views(actions@) =~= orig.take(0).filter(
            |a: Agent| is_orphan(fsv, a, root@) && lookup_in(
                fsv,
                link_path_spec(root@, a.name@),
            ) is Some,
        ).map_values(
            |a: Agent| FsActionV::RemoveEntry { target: link_path_spec(root@, a.name@) },
        ));
    }
    while i < n
        invariant
            i <= n,
            n == orig.len(),
            config.agents@ == orig,
            fsv == fs_view(fsm),
            fsm.wf(),
            kept@ == orig.take(i as int).filter(|a: Agent| !is_orphan(fsv, a, root@)),
            removed.deep_view() == orig.take(i as int).filter(
                |a: Agent| is_orphan(fsv, a, root@),
            ).map_values(|a: Agent| a.name@),
            crate::fs::action_views(actions@) == orig.take(i as int).filter(
                |a: Agent| is_orphan(fsv, a, root@) && lookup_in(
                    fsv,
                    link_path_spec(root@, a.name@),
                ) is Some,
            ).map_values(
                |a: Agent| FsActionV::RemoveEntry { target: link_path_spec(root@, a.name@) },
            ),
        decreases n - i,
    {
        let ghost cur = orig[i as int];
        proof {
            assert(orig.take(i + 1) =~= orig.take(i as int).push(cur));
            orig.take(i as int).lemma_filter_push(cur, |a: Agent| !is_orphan(fsv, a, root@));
            orig.take(i as int).lemma_filter_push(cur, |a: Agent| is_orphan(fsv, a, root@));
            orig.take(i as int).lemma_filter_push(
                cur,
                |a: Agent| is_orphan(fsv, a, root@) && lookup_in(
                    fsv,
                    link_path_spec(root@, a.name@),
                ) is Some,
            );
        }
        let a = config.agents[i].clone();
        let local = a.get_local_path(root);
        let ghost kprev = kept@;
        let ghost rprev = removed.deep_view();
        let ghost aprev = crate::fs::action_views(actions@);
        if fsm.path_exists(local.as_str()) {
            kept.push(a);
        } else {
            removed.push(a.name.clone());
            let link = a.get_link_path(root);
            let present = match fsm.get_node(link.as_str()) {
                Some(_) => true,
                None => false,
            };
            if present {
                actions.push(FsAction::RemoveEntry { target: link });
                proof {
                    assert(crate::fs::action_views(actions@) =~= aprev.push(
                        FsActionV::RemoveEntry { target: link_path_spec(root@, cur.name@) },
                    ));
                }
            }
            proof {
                assert(removed.deep_view() =~= rprev.push(cur.name@));
                assert(orig.take(i as int).filter(|a: Agent| is_orphan(fsv, a, root@)).push(
                    cur,
                ).map_values(|a: Agent| a.name@) =~= rprev.push(cur.name@));
            }
        }
        proof {
            if is_orphan(fsv, cur, root@) && lookup_in(
                fsv,
                link_path_spec(root@, cur.name@),
            ) is Some {
                assert(orig.take(i as int).filter(
                    |a: Agent| is_orphan(fsv, a, root@) && lookup_in(
                        fsv,
                        link_path_spec(root@, a.name@),
                    ) is Some,
                ).push(cur).map_values(
                    |a: Agent| FsActionV::RemoveEntry { target: link_path_spec(root@, a.name@) },
                ) =~= aprev.push(
                    FsActionV::RemoveEntry { target: link_path_spec(root@, cur.name@) },
                ));
            }
        }
        i = i + 1;
    }
    proof {
        assert(orig.take(n as int) =~= orig);
    }
    config.agents = kept;
    (removed, actions)
}

} // verus!

verus! {

/// The managed source directory.
pub open spec fn ccagents_dir_spec(root: Seq<char>) -> Seq<char> {
    root + "/.ccagents"@
}

/// The managed link directory.
pub open spec fn link_dir_spec(root: Seq<char>) -> Seq<char> {
    root + "/.cc/agents"@
}

/// What the sweep phase of a sync does to the managed link directory:
/// one unlink per symbolic link found there.
pub open spec fn sweep_unlinks(children: Seq<(Seq<char>, FsNodeV)>, root: Seq<char>) -> Seq<
    FsActionV,
> {
    children.filter(|c: (Seq<char>, FsNodeV)| c.1 is Symlink).map_values(
        |c: (Seq<char>, FsNodeV)| FsActionV::Unlink { target: link_path_spec(root, c.0) },
    )
}

/// The regular files the sweep finds: unmanaged content.
pub open spec fn unmanaged_names(children: Seq<(Seq<char>, FsNodeV)>) -> Seq<Seq<char>> {
    children.filter(|c: (Seq<char>, FsNodeV)| c.1 is File).map_values(
        |c: (Seq<char>, FsNodeV)| c.0,
    )
}

/// What a sync plans for one enabled agent: a link when the source
/// exists; a fetch and a link for a remote agent whose source is
/// missing; nothing for a local agent whose source is missing (it is
/// skipped with a warning).
pub open spec fn agent_sync_actions(
    fsv: Seq<(Seq<char>, FsNodeV)>,
    a: Agent,
    root: Seq<char>,
) -> Seq<FsActionV> {
    let local = local_path_spec(a@, root);
    let link = link_path_spec(root, a.name@);
    if path_exists(fsv, local) {
        seq![FsActionV::Link { source: local, target: link }]
    } else {
        match a.source@ {
            crate::agent::SourceV::GitHub(u) => if crate::remote::fetchable(u) {
                seq![
                    FsActionV::Fetch {
                        content_url: crate::remote::raw_url_of(crate::remote::parts_path(u)),
                        dest: ccagents_dir_spec(root) + "/"@ + crate::paths::segments_of(
                            crate::remote::parts_path(u),
                        ).last(),
                    },
                    FsActionV::Link { source: local, target: link },
                ]
            } else {
                Seq::empty()
            },
            crate::agent::SourceV::Local(_) => Seq::empty(),
        }
    }
}

/// The link-phase actions for the first `i` agents, in registry order.
pub open spec fn sync_link_actions_upto(
    fsv: Seq<(Seq<char>, FsNodeV)>,
    agents: Seq<Agent>,
    root: Seq<char>,
    i: int,
) -> Seq<FsActionV>
    decreases i,
{
    if i <= 0 {
        Seq::empty()
    } else {
        sync_link_actions_upto(fsv, agents, root, i - 1) + (if agents[i - 1].enabled {
            agent_sync_actions(fsv, agents[i - 1], root)
        } else {
            Seq::empty()
        })
    }
}

/// The registry after the optional prune phase.
pub open spec fn pruned_of(
    agents: Seq<Agent>,
    fsv: Seq<(Seq<char>, FsNodeV)>,
    root: Seq<char>,
    prune: bool,
) -> Seq<Agent> {
    if prune {
        agents.filter(|a: Agent| !is_orphan(fsv, a, root))
    } else {
        agents
    }
}

/// The unlinks the prune phase plans: one per orphan whose link path
/// holds an entry.
pub open spec fn prune_unlinks(
    agents: Seq<Agent>,
    fsv: Seq<(Seq<char>, FsNodeV)>,
    root: Seq<char>,
    prune: bool,
) -> Seq<FsActionV> {
    if prune {
        agents.filter(
            |a: Agent| is_orphan(fsv, a, root) && lookup_in(
                fsv,
                link_path_spec(root, a.name@),
            ) is Some,
        ).map_values(|a: Agent| FsActionV::Unlink { target: link_path_spec(root, a.name@) })
    } else {
        Seq::<FsActionV>::empty()
    }
}

/// Everything a successful sync plans, in order: prune unlinks, the
/// sweep of the managed link directory, and one link (with a fetch
/// where needed) per enabled agent.
pub open spec fn sync_actions_spec(
    agents: Seq<Agent>,
    fsv: Seq<(Seq<char>, FsNodeV)>,
    root: Seq<char>,
    prune: bool,
) -> Seq<FsActionV> {
    let pruned = pruned_of(agents, fsv, root, prune);
    prune_unlinks(agents, fsv, root, prune) + sweep_unlinks(
        crate::fs::children_of(fsv, link_dir_spec(root)),
        root,
    ) + sync_link_actions_upto(fsv, pruned, root, pruned.len() as int)
}

/// A sync fails only over an enabled remote agent with a missing source
/// whose reference is not a single-file reference.
pub open spec fn sync_failure_witness(
    agents: Seq<Agent>,
    fsv: Seq<(Seq<char>, FsNodeV)>,
    root: Seq<char>,
) -> bool {
    exists|k: int|
        0 <= k < agents.len() && agents[k].enabled && is_orphan(fsv, agents[k], root) && (
        agents[k].source@ matches crate::agent::SourceV::GitHub(u) && !crate::remote::fetchable(u))
}

/// What a sync reports: the actions to carry out, and the names touched
/// by each phase.
#[derive(Debug)]
pub struct SyncOutcome {
    pub actions: Vec<FsAction>,
    pub pruned: Vec<String>,
    pub unmanaged: Vec<String>,
    pub skipped: Vec<String>,
    pub linked: Vec<String>,
    pub disabled_names: Vec<String>,
}

/// Synchronizes the registry against the snapshot. With `prune`, agents
/// whose source is missing leave the registry first, their stale links
/// unlinked. Every symbolic link in the managed link directory is then
/// swept away, unmanaged regular files are reported, and every enabled
/// agent is linked afresh: a remote agent whose source is missing gets a
/// fetch first, a local one is skipped with a warning. Fails, keeping
/// the pruned registry, when an enabled remote agent with a missing
/// source carries a reference that is not a single-file reference.
#[verifier::rlimit(100)]
#[verifier::spinoff_prover]
pub fn sync_registry(config: &mut AgentsConfig, fsm: &FsModel, root: &str, prune: bool) -> (r:
    Result<SyncOutcome, AgentError>)
    requires
        fsm.wf(),
    ensures
        final (config).agents@ == pruned_of(old(config).agents@, fs_view(fsm), root@, prune),
        r matches Ok(out) ==> crate::fs::action_views(out.actions@) == sync_actions_spec(
            old(config).agents@,
            fs_view(fsm),
            root@,
            prune,
        ),
        r matches Ok(out) ==> out.pruned.deep_view() == (if prune {
            old(config).agents@.filter(|a: Agent| is_orphan(fs_view(fsm), a, root@)).map_values(
                |a: Agent| a.name@,
            )
        } else {
            Seq::<Seq<char>>::empty()
        }),
        r matches Ok(out) ==> out.unmanaged.deep_view() == unmanaged_names(
            crate::fs::children_of(fs_view(fsm), link_dir_spec(root@)),
        ),
        r matches Ok(out) ==> out.skipped.deep_view() == pruned_of(
            old(config).agents@,
            fs_view(fsm),
            root@,
            prune,
        ).filter(
            |a: Agent| a.enabled && is_orphan(fs_view(fsm), a, root@) && a.source@ is Local,
        ).map_values(|a: Agent| a.name@),
        r matches Ok(out) ==> out.linked.deep_view() == pruned_of(
            old(config).agents@,
            fs_view(fsm),
            root@,
            prune,
        ).filter(
            |a: Agent| a.enabled && (!is_orphan(fs_view(fsm), a, root@) || a.source@ is GitHub),
        ).map_values(|a: Agent| a.name@),
        r matches Ok(out) ==> out.disabled_names.deep_view() == pruned_of(
            old(config).agents@,
            fs_view(fsm),
            root@,
            prune,
        ).filter(|a: Agent| !a.enabled).map_values(|a: Agent| a.name@),
        r matches Err(e) ==> (e matches AgentError::InvalidReference(_)) && sync_failure_witness(
            pruned_of(old(config).agents@, fs_view(fsm), root@, prune),
            fs_view(fsm),
            root@,
        ),
{
    let ghost fsv = fs_view(fsm);
    let ghost orig = config.agents@;
    let mut actions: Vec<FsAction> = Vec::new();
    let mut pruned_names: Vec<String> = Vec::new();

    if prune {
        let mut kept: Vec<Agent> = Vec::new();
        let n = config.agents.len();
        let mut i: usize = 0;
        proof {
            assert(orig.take(0) =~= Seq::<Agent>::empty());
            assert(kept@ =~= orig.take(0).filter(|a: Agent| !is_orphan(fsv, a, root@)));
            assert(pruned_names.deep_view() =~= orig.take(0).filter(
                |a: Agent| is_orphan(fsv, a, root@),
            ).map_values(|a: Agent| a.name@));
            assert(crate::fs::action_views(actions@) =~= orig.take(0).filter(
                |a: Agent| is_orphan(fsv, a, root@) && lookup_in(
                    fsv,
                    link_path_spec(root@, a.name@),
                ) is Some,
            ).map_values(
                |a: Agent| FsActionV::Unlink { target: link_path_spec(root@, a.name@) },
            ));
        }
        while i < n
            invariant
                i <= n,
                n == orig.len(),
                config.agents@ == orig,
                fsv == fs_view(fsm),
                fsm.wf(),
                kept@ == orig.take(i as int).filter(|a: Agent| !is_orphan(fsv, a, root@)),
                pruned_names.deep_view() == orig.take(i as int).filter(
                    |a: Agent| is_orphan(fsv, a, root@),
                ).map_values(|a: Agent| a.name@),
                crate::fs::action_views(actions@) == orig.take(i as int).filter(
                    |a: Agent| is_orphan(fsv, a, root@) && lookup_in(
                        fsv,
                        link_path_spec(root@, a.name@),
                    ) is Some,
                ).map_values(
                    |a: Agent| FsActionV::Unlink { target: link_path_spec(root@, a.name@) },
                ),
            decreases n - i,
        {
            let ghost cur = orig[i as int];
            proof {
                assert(orig.take(i + 1) =~= orig.take(i as int).push(cur));
                orig.take(i as int).lemma_filter_push(cur, |a: Agent| !is_orphan(fsv, a, root@));
                orig.take(i as int).lemma_filter_push(cur, |a: Agent| is_orphan(fsv, a, root@));
                orig.take(i as int).lemma_filter_push(
                    cur,
                    |a: Agent| is_orphan(fsv, a, root@) && lookup_in(
                        fsv,
                        link_path_spec(root@, a.name@),
                    ) is Some,
                );
            }
            let a = config.agents[i].clone();
            let local = a.get_local_path(root);
            let ghost rprev = pruned_names.deep_view();
            let ghost aprev = crate::fs::action_views(actions@);
            if fsm.path_exists(local.as_str()) {
                kept.push(a);
            } else {
                pruned_names.push(a.name.clone());
                let link = a.get_link_path(root);
                let present = match fsm.get_node(link.as_str()) {
                    Some(_) => true,
                    None => false,
                };
                if present {
                    actions.push(FsAction::Unlink { target: link });
                    proof {
                        assert(crate::fs::action_views(actions@) =~= aprev.push(
                            FsActionV::Unlink { target: link_path_spec(root@, cur.name@) },
                        ));
                    }
                }
                proof {
                    assert(pruned_names.deep_view() =~= rprev.push(cur.name@));
                    assert(orig.take(i as int).filter(|a: Agent| is_orphan(fsv, a, root@)).push(
                        cur,
                    ).map_values(|a: Agent| a.name@) =~= rprev.push(cur.name@));
                }
            }
            proof {
                if is_orphan(fsv, cur, root@) && lookup_in(
                    fsv,
                    link_path_spec(root@, cur.name@),
                ) is Some {
                    assert(orig.take(i as int).filter(
                        |a: Agent| is_orphan(fsv, a, root@) && lookup_in(
                            fsv,
                            link_path_spec(root@, a.name@),
                        ) is Some,
                    ).push(cur).map_values(
                        |a: Agent| FsActionV::Unlink { target: link_path_spec(root@, a.name@) },
                    ) =~= aprev.push(
                        FsActionV::Unlink { target: link_path_spec(root@, cur.name@) },
                    ));
                }
            }
            i = i + 1;
        }
        proof {
            assert(orig.take(n as int) =~= orig);
        }
        config.agents = kept;
    }
    let ghost prune_actions = crate::fs::action_views(actions@);
    let ghost pruned_agents = config.agents@;

    // Sweep the managed link directory: drop every symbolic link, note
    // every regular file as unmanaged.
    let linkdir = String::from_str(root).concat("/.cc/agents");
    let children = fsm.dir_children(linkdir.as_str());
    let ghost cv = children@.map_values(|e: (String, crate::fs::FsNode)| (e.0@, e.1@));
    let mut unmanaged: Vec<String> = Vec::new();
    let cn = children.len();
    let mut ci: usize = 0;
    proof {
        assert(cv == crate::fs::children_of(fsv, link_dir_spec(root@)));
        assert(cv.take(0) =~= Seq::<(Seq<char>, FsNodeV)>::empty());
        assert(crate::fs::action_views(actions@) =~= prune_actions + sweep_unlinks(
            cv.take(0),
            root@,
        ));
        assert(unmanaged.deep_view() =~= unmanaged_names(cv.take(0)));
    }
    while ci < cn
        invariant
            ci <= cn,
            cn == children@.len(),
            cv == children@.map_values(|e: (String, crate::fs::FsNode)| (e.0@, e.1@)),
            crate::fs::action_views(actions@) == prune_actions + sweep_unlinks(
                cv.take(ci as int),
                root@,
            ),
            unmanaged.deep_view() == unmanaged_names(cv.take(ci as int)),
        decreases cn - ci,
    {
        let ghost cur = cv[ci as int];
        proof {
            assert(cv.take(ci + 1) =~= cv.take(ci as int).push(cur));
            cv.take(ci as int).lemma_filter_push(
                cur,
                |c: (Seq<char>, FsNodeV)| c.1 is Symlink,
            );
            cv.take(ci as int).lemma_filter_push(cur, |c: (Seq<char>, FsNodeV)| c.1 is File);
        }
        let ghost aprev = crate::fs::action_views(actions@);
        let ghost uprev = unmanaged.deep_view();
        let kind: u8 = match &children[ci].1 {
            crate::fs::FsNode::Symlink(_) => 1,
            crate::fs::FsNode::File(_) => 2,
            crate::fs::FsNode::Dir => 0,
        };
        if kind == 1 {
            let target = String::from_str(root).concat("/.cc/agents/").concat(
                children[ci].0.as_str(),
            );
            actions.push(FsAction::Unlink { target });
            proof {
                assert(crate::fs::action_views(actions@) =~= aprev.push(
                    FsActionV::Unlink { target: link_path_spec(root@, cur.0) },
                ));
                assert(cv.take(ci as int).filter(|c: (Seq<char>, FsNodeV)| c.1 is Symlink).push(
                    cur,
                ).map_values(
                    |c: (Seq<char>, FsNodeV)| FsActionV::Unlink {
                        target: link_path_spec(root@, c.0),
                    },
                ) =~= cv.take(ci as int).filter(|c: (Seq<char>, FsNodeV)| c.1 is Symlink).map_values(
                    |c: (Seq<char>, FsNodeV)| FsActionV::Unlink {
                        target: link_path_spec(root@, c.0),
                    },
                ).push(FsActionV::Unlink { target: link_path_spec(root@, cur.0) }));
                assert(prune_actions + sweep_unlinks(cv.take(ci as int), root@).push(
                    FsActionV::Unlink { target: link_path_spec(root@, cur.0) },
                ) =~= (prune_actions + sweep_unlinks(cv.take(ci as int), root@)).push(
                    FsActionV::Unlink { target: link_path_spec(root@, cur.0) },
                ));
            }
        } else if kind == 2 {
            unmanaged.push(children[ci].0.clone());
            proof {
                assert(unmanaged.deep_view() =~= uprev.push(cur.0));
                assert(cv.take(ci as int).filter(|c: (Seq<char>, FsNodeV)| c.1 is File).push(
                    cur,
                ).map_values(|c: (Seq<char>, FsNodeV)| c.0) =~= uprev.push(cur.0));
            }
        }
        ci = ci + 1;
    }
    proof {
        assert(cv.take(cn as int) =~= cv);
    }
    let ghost base = crate::fs::action_views(actions@);

    // Link every enabled agent, fetching a missing remote source first.
    let ccdir = String::from_str(root).concat("/.ccagents");
    let mut skipped: Vec<String> = Vec::new();
    let mut linked: Vec<String> = Vec::new();
    let mut disabled_names: Vec<String> = Vec::new();
    let mut failed: Option<AgentError> = None;
    let n2 = config.agents.len();
    let mut j: usize = 0;
    proof {
        assert(pruned_agents.take(0) =~= Seq::<Agent>::empty());
        assert(crate::fs::action_views(actions@) =~= base + sync_link_actions_upto(
            fsv,
            pruned_agents,
            root@,
            0,
        ));
        assert(skipped.deep_view() =~= pruned_agents.take(0).filter(
            |a: Agent| a.enabled && is_orphan(fsv, a, root@) && a.source@ is Local,
        ).map_values(|a: Agent| a.name@));
        assert(linked.deep_view() =~= pruned_agents.take(0).filter(
            |a: Agent| a.enabled && (!is_orphan(fsv, a, root@) || a.source@ is GitHub),
        ).map_values(|a: Agent| a.name@));
        assert(disabled_names.deep_view() =~= pruned_agents.take(0).filter(
            |a: Agent| !a.enabled,
        ).map_values(|a: Agent| a.name@));
    }
    while j < n2 && failed.is_none()
        invariant
            j <= n2,
            n2 == pruned_agents.len(),
            failed matches Some(e) ==> (e matches AgentError::InvalidReference(_)) && exists|k: int|
                0 <= k < pruned_agents.len() && pruned_agents[k].enabled && is_orphan(
                    fsv,
                    pruned_agents[k],
                    root@,
                ) && (pruned_agents[k].source@ matches crate::agent::SourceV::GitHub(u)
                    && !crate::remote::fetchable(u)),
            config.agents@ == pruned_agents,
            orig == old(config).agents@,
            pruned_agents == (if prune {
                orig.filter(|a: Agent| !is_orphan(fsv, a, root@))
            } else {
                orig
            }),
            fsv == fs_view(fsm),
            fsm.wf(),
            ccdir@ == ccagents_dir_spec(root@),
            crate::fs::action_views(actions@) == base + sync_link_actions_upto(
                fsv,
                pruned_agents,
                root@,
                j as int,
            ),
            skipped.deep_view() == pruned_agents.take(j as int).filter(
                |a: Agent| a.enabled && is_orphan(fsv, a, root@) && a.source@ is Local,
            ).map_values(|a: Agent| a.name@),
            linked.deep_view() == pruned_agents.take(j as int).filter(
                |a: Agent| a.enabled && (!is_orphan(fsv, a, root@) || a.source@ is GitHub),
            ).map_values(|a: Agent| a.name@),
            disabled_names.deep_view() == pruned_agents.take(j as int).filter(
                |a: Agent| !a.enabled,
            ).map_values(|a: Agent| a.name@),
        decreases n2 - j + (if failed is None {
            1int
        } else {
            0int
        }),
    {
        let ghost cur = pruned_agents[j as int];
        proof {
            assert(pruned_agents.take(j + 1) =~= pruned_agents.take(j as int).push(cur));
            pruned_agents.take(j as int).lemma_filter_push(
                cur,
                |a: Agent| a.enabled && is_orphan(fsv, a, root@) && a.source@ is Local,
            );
            pruned_agents.take(j as int).lemma_filter_push(
                cur,
                |a: Agent| a.enabled && (!is_orphan(fsv, a, root@) || a.source@ is GitHub),
            );
            pruned_agents.take(j as int).lemma_filter_push(cur, |a: Agent| !a.enabled);
        }
        let ghost sprev = skipped.deep_view();
        let ghost lprev = linked.deep_view();
        let ghost dprev = disabled_names.deep_view();
        let ghost aprev = crate::fs::action_views(actions@);
        let a = config.agents[j].clone();
        if a.enabled {
            let local = a.get_local_path(root);
            let link = a.get_link_path(root);
            if fsm.path_exists(local.as_str()) {
                actions.push(FsAction::Link { source: local, target: link });
                linked.push(a.name.clone());
                proof {
                    assert(crate::fs::action_views(actions@) =~= aprev + agent_sync_actions(
                        fsv,
                        cur,
                        root@,
                    ));
                    assert(linked.deep_view() =~= lprev.push(cur.name@));
                    assert(pruned_agents.take(j as int).filter(
                        |a: Agent| a.enabled && (!is_orphan(fsv, a, root@)
                            || a.source@ is GitHub),
                    ).push(cur).map_values(|a: Agent| a.name@) =~= lprev.push(cur.name@));
                }
            } else {
                match &a.source {
                    AgentSource::GitHub(u) => {
                        match crate::remote::plan_fetch(u.as_str(), ccdir.as_str()) {
                            Ok(plan) => {
                                actions.push(
                                    FsAction::Fetch {
                                        content_url: plan.content_url,
                                        dest: plan.dest_path,
                                    },
                                );
                                actions.push(FsAction::Link { source: local, target: link });
                                linked.push(a.name.clone());
                                proof {
                                    assert(crate::fs::action_views(actions@)
                                        =~= aprev + agent_sync_actions(fsv, cur, root@));
                                    assert(linked.deep_view() =~= lprev.push(cur.name@));
                                    assert(pruned_agents.take(j as int).filter(
                                        |a: Agent| a.enabled && (!is_orphan(fsv, a, root@)
                                            || a.source@ is GitHub),
                                    ).push(cur).map_values(|a: Agent| a.name@) =~= lprev.push(
                                        cur.name@,
                                    ));
                                }
                            },
                            Err(e) => {
                                proof {
                                    assert(cur.source@ == crate::agent::SourceV::GitHub(u@));
                                    assert(!crate::remote::fetchable(u@));
                                    assert(0 <= j < pruned_agents.len() && pruned_agents[j as int].enabled
                                        && is_orphan(fsv, pruned_agents[j as int], root@) && (
                                    pruned_agents[j as int].source@ matches crate::agent::SourceV::GitHub(uu)
                                        && !crate::remote::fetchable(uu)));
                                }
                                failed = Some(e);
                            },
                        }
                    },
                    AgentSource::Local(_) => {
                        skipped.push(a.name.clone());
                        proof {
                            assert(agent_sync_actions(fsv, cur, root@) =~= Seq::<
                                FsActionV,
                            >::empty());
                            assert(aprev + Seq::<FsActionV>::empty() =~= aprev);
                            assert(skipped.deep_view() =~= sprev.push(cur.name@));
                            assert(pruned_agents.take(j as int).filter(
                                |a: Agent| a.enabled && is_orphan(fsv, a, root@)
                                    && a.source@ is Local,
                            ).push(cur).map_values(|a: Agent| a.name@) =~= sprev.push(cur.name@));
                        }
                    },
                }
            }
        } else {
            disabled_names.push(a.name.clone());
            proof {
                assert(aprev + Seq::<FsActionV>::empty() =~= aprev);
                assert(disabled_names.deep_view() =~= dprev.push(cur.name@));
                assert(pruned_agents.take(j as int).filter(|a: Agent| !a.enabled).push(
                    cur,
                ).map_values(|a: Agent| a.name@) =~= dprev.push(cur.name@));
            }
        }
        if failed.is_none() {
            j = j + 1;
        }
    }
    if let Some(e) = failed {
        return Err(e);
    }
    proof {
        assert(pruned_agents.take(n2 as int) =~= pruned_agents);
    }
    Ok(
        SyncOutcome {
            actions,
            pruned: pruned_names,
            unmanaged,
            skipped,
            linked,
            disabled_names,
        },
    )
}

} // verus!

verus! {

/// What the doctor can find.
#[derive(Debug, PartialEq, Eq, Structural, Clone, Copy)]
pub enum IssueType {
    MissingSource,
    BrokenSymlink,
    MissingSymlink,
    DuplicateAgent,
    OrphanedSymlink,
    UnmanagedFile,
}

/// One finding: the agent or file it concerns, what is wrong, and
/// whether a fix pass repairs it by itself.
#[derive(Debug)]
pub struct Issue {
    pub agent_name: String,
    pub issue_type: IssueType,
    pub fixable: bool,
}

/// The mathematical value of a finding.
pub struct IssueV {
    pub agent_name: Seq<char>,
    pub issue_type: IssueType,
    pub fixable: bool,
}

impl View for Issue {
    type V = IssueV;

    open spec fn view(&self) -> IssueV {
        IssueV { agent_name: self.agent_name@, issue_type: self.issue_type, fixable: self.fixable }
    }
}

/// The mathematical values of a list of findings.
pub open spec fn issue_views(issues: Seq<Issue>) -> Seq<IssueV> {
    issues.map_values(|i: Issue| i@)
}

/// The findings for the agent at index `i`: a missing source; else, for
/// an enabled agent, a missing or invalid link; and a duplicate when an
/// earlier entry carries the same name.
pub open spec fn issues_at(
    fsv: Seq<(Seq<char>, FsNodeV)>,
    agents: Seq<Agent>,
    root: Seq<char>,
    i: int,
) -> Seq<IssueV> {
    let a = agents[i];
    let local = local_path_spec(a@, root);
    let link = link_path_spec(root, a.name@);
    (if !path_exists(fsv, local) {
        seq![
            IssueV {
                agent_name: a.name@,
                issue_type: IssueType::MissingSource,
                fixable: true,
            },
        ]
    } else if a.enabled {
        if lookup_in(fsv, link) is None {
            seq![
                IssueV {
                    agent_name: a.name@,
                    issue_type: IssueType::MissingSymlink,
                    fixable: true,
                },
            ]
        } else if !valid_link(fsv, link) {
            seq![
                IssueV {
                    agent_name: a.name@,
                    issue_type: IssueType::BrokenSymlink,
                    fixable: true,
                },
            ]
        } else {
            Seq::empty()
        }
    } else {
        Seq::empty()
    }) + (if has_name(agents.take(i), a.name@) {
        seq![
            IssueV {
                agent_name: a.name@,
                issue_type: IssueType::DuplicateAgent,
                fixable: true,
            },
        ]
    } else {
        Seq::empty()
    })
}

/// The findings for the first `i` agents, in registry order.
pub open spec fn config_issues_upto(
    fsv: Seq<(Seq<char>, FsNodeV)>,
    agents: Seq<Agent>,
    root: Seq<char>,
    i: int,
) -> Seq<IssueV>
    decreases i,
{
    if i <= 0 {
        Seq::empty()
    } else {
        config_issues_upto(fsv, agents, root, i - 1) + issues_at(fsv, agents, root, i - 1)
    }
}

/// The findings from the managed link directory: a symbolic link with no
/// enabled agent of its name is orphaned; a regular file is unmanaged
/// and never repaired automatically.
pub open spec fn scan_issue_of(
    agents: Seq<Agent>,
    c: (Seq<char>, FsNodeV),
) -> Seq<IssueV> {
    match c.1 {
        FsNodeV::Symlink(_) => if !(exists|k: int|
            0 <= k < agents.len() && agents[k].name@ == c.0 && agents[k].enabled) {
            seq![
                IssueV {
                    agent_name: c.0,
                    issue_type: IssueType::OrphanedSymlink,
                    fixable: true,
                },
            ]
        } else {
            Seq::empty()
        },
        FsNodeV::File(_) => seq![
            IssueV { agent_name: c.0, issue_type: IssueType::UnmanagedFile, fixable: false },
        ],
        FsNodeV::Dir => Seq::empty(),
    }
}

/// The directory findings for the first `i` scanned entries.
pub open spec fn scan_issues_upto(
    agents: Seq<Agent>,
    children: Seq<(Seq<char>, FsNodeV)>,
    i: int,
) -> Seq<IssueV>
    decreases i,
{
    if i <= 0 {
        Seq::empty()
    } else {
        scan_issues_upto(agents, children, i - 1) + scan_issue_of(agents, children[i - 1])
    }
}

/// Everything a diagnosis reports, in order: per-agent findings, then
/// the directory scan.
pub open spec fn doctor_issues_spec(
    fsv: Seq<(Seq<char>, FsNodeV)>,
    agents: Seq<Agent>,
    root: Seq<char>,
) -> Seq<IssueV> {
    let children = crate::fs::children_of(fsv, link_dir_spec(root));
    config_issues_upto(fsv, agents, root, agents.len() as int) + scan_issues_upto(
        agents,
        children,
        children.len() as int,
    )
}

/// Whether some enabled agent carries this name.
fn any_enabled_with_name(config: &AgentsConfig, name: &str) -> (r: bool)
    ensures
        r == exists|k: int|
            0 <= k < config.agents@.len() && config.agents@[k].name@ == name@
                && config.agents@[k].enabled,
{
    let n = config.agents.len();
    let mut i: usize = 0;
    while i < n
        invariant
            i <= n,
            n == config.agents@.len(),
            forall|k: int|
                0 <= k < i ==> !(config.agents@[k].name@ == name@ && config.agents@[k].enabled),
        decreases n - i,
    {
        if config.agents[i].enabled && crate::paths::str_eq(
            config.agents[i].name.as_str(),
            name,
        ) {
            return true;
        }
        i = i + 1;
    }
    false
}

/// Diagnoses the registry against the snapshot, without changing either:
/// missing sources, missing and broken links of enabled agents,
/// duplicate names, orphaned links, and unmanaged files, in that order.
pub fn doctor_report(config: &AgentsConfig, fsm: &FsModel, root: &str) -> (r: Vec<Issue>)
    requires
        fsm.wf(),
    ensures
        issue_views(r@) == doctor_issues_spec(fs_view(fsm), config.agents@, root@),
{
    let ghost fsv = fs_view(fsm);
    let ghost agents = config.agents@;
    let mut issues: Vec<Issue> = Vec::new();
    let n = config.agents.len();
    let mut i: usize = 0;
    proof {
        assert(issue_views(issues@) =~= config_issues_upto(fsv, agents, root@, 0));
    }
    while i < n
        invariant
            i <= n,
            n == agents.len(),
            config.agents@ == agents,
            fsv == fs_view(fsm),
            fsm.wf(),
            issue_views(issues@) == config_issues_upto(fsv, agents, root@, i as int),
        decreases n - i,
    {
        let ghost cur = agents[i as int];
        let ghost iprev = issue_views(issues@);
        let a = config.agents[i].clone();
        let local = a.get_local_path(root);
        let link = a.get_link_path(root);
        if !fsm.path_exists(local.as_str()) {
            issues.push(
                Issue {
                    agent_name: a.name.clone(),
                    issue_type: IssueType::MissingSource,
                    fixable: true,
                },
            );
        } else if a.enabled {
            let present = match fsm.get_node(link.as_str()) {
                Some(_) => true,
                None => false,
            };
            if !present {
                issues.push(
                    Issue {
                        agent_name: a.name.clone(),
                        issue_type: IssueType::MissingSymlink,
                        fixable: true,
                    },
                );
            } else if !fsm.is_valid_link(link.as_str()) {
                issues.push(
                    Issue {
                        agent_name: a.name.clone(),
                        issue_type: IssueType::BrokenSymlink,
                        fixable: true,
                    },
                );
            }
        }
        let mut dup = false;
        let mut k: usize = 0;
        while k < i
            invariant
                k <= i,
                i < agents.len(),
                config.agents@ == agents,
                cur == agents[i as int],
                dup <==> exists|m: int| 0 <= m < k && agents[m].name@ == cur.name@,
            decreases i - k,
        {
            if crate::paths::str_eq(config.agents[k].name.as_str(), config.agents[i].name.as_str())
            {
                dup = true;
            }
            k = k + 1;
        }
        proof {
            assert(dup == has_name(agents.take(i as int), cur.name@)) by {
                if dup {
                    let m = choose|m: int| 0 <= m < i && agents[m].name@ == cur.name@;
                    assert(agents.take(i as int)[m].name@ == cur.name@);
                } else {
                    if has_name(agents.take(i as int), cur.name@) {
                        let m = choose|m: int|
                            0 <= m < agents.take(i as int).len() && agents.take(
                                i as int,
                            )[m].name@ == cur.name@;
                        assert(agents[m].name@ == cur.name@);
                    }
                }
            }
        }
        if dup {
            issues.push(
                Issue {
                    agent_name: a.name.clone(),
                    issue_type: IssueType::DuplicateAgent,
                    fixable: true,
                },
            );
        }
        proof {
            assert(issue_views(issues@) =~= iprev + issues_at(fsv, agents, root@, i as int));
            assert(config_issues_upto(fsv, agents, root@, i + 1) == config_issues_upto(
                fsv,
                agents,
                root@,
                i as int,
            ) + issues_at(fsv, agents, root@, i as int));
        }
        i = i + 1;
    }
    let ghost agent_part = issue_views(issues@);
    let linkdir = String::from_str(root).concat("/.cc/agents");
    let children = fsm.dir_children(linkdir.as_str());
    let ghost cv = children@.map_values(|e: (String, crate::fs::FsNode)| (e.0@, e.1@));
    let cn = children.len();
    let mut ci: usize = 0;
    proof {
        assert(cv == crate::fs::children_of(fsv, link_dir_spec(root@)));
        assert(issue_views(issues@) =~= agent_part + scan_issues_upto(agents, cv, 0));
    }
    while ci < cn
        invariant
            ci <= cn,
            cn == children@.len(),
            config.agents@ == agents,
            cv == children@.map_values(|e: (String, crate::fs::FsNode)| (e.0@, e.1@)),
            issue_views(issues@) == agent_part + scan_issues_upto(agents, cv, ci as int),
        decreases cn - ci,
    {
        let ghost cur = cv[ci as int];
        let ghost iprev = issue_views(issues@);
        let kind: u8 = match &children[ci].1 {
            crate::fs::FsNode::Symlink(_) => 1,
            crate::fs::FsNode::File(_) => 2,
            crate::fs::FsNode::Dir => 0,
        };
        if kind == 1 {
            if !any_enabled_with_name(config, children[ci].0.as_str()) {
                issues.push(
                    Issue {
                        agent_name: children[ci].0.clone(),
                        issue_type: IssueType::OrphanedSymlink,
                        fixable: true,
                    },
                );
            }
        } else if kind == 2 {
            issues.push(
                Issue {
                    agent_name: children[ci].0.clone(),
                    issue_type: IssueType::UnmanagedFile,
                    fixable: false,
                },
            );
        }
        proof {
            assert(issue_views(issues@) =~= iprev + scan_issue_of(agents, cur));
            assert(scan_issues_upto(agents, cv, ci + 1) == scan_issues_upto(agents, cv, ci as int)
                + scan_issue_of(agents, cur));
            assert(iprev + scan_issue_of(agents, cur) =~= agent_part + (scan_issues_upto(
                agents,
                cv,
                ci as int,
            ) + scan_issue_of(agents, cur)));
        }
        ci = ci + 1;
    }
    issues
}

} // verus!

verus! {

/// Whether appending one agent adds its name.
pub proof fn lemma_has_name_push(agents: Seq<Agent>, a: Agent, n: Seq<char>)
    ensures
        has_name(agents.push(a), n) <==> (has_name(agents, n) || a.name@ == n),
{
    if has_name(agents, n) {
        let m = choose|m: int| 0 <= m < agents.len() && agents[m].name@ == n;
        assert(agents.push(a)[m].name@ == n);
    }
    if a.name@ == n {
        assert(agents.push(a)[agents.len() as int].name@ == n);
    }
    if has_name(agents.push(a), n) && !(a.name@ == n) {
        let m = choose|m: int| 0 <= m < agents.push(a).len() && agents.push(a)[m].name@ == n;
        assert(agents[m].name@ == n);
    }
}

/// The registry with only the first entry of each name kept.
pub open spec fn dedup_first(agents: Seq<Agent>) -> Seq<Agent>
    decreases agents.len(),
{
    if agents.len() == 0 {
        Seq::empty()
    } else {
        let rest = dedup_first(agents.drop_last());
        if has_name(agents.drop_last(), agents.last().name@) {
            rest
        } else {
            rest.push(agents.last())
        }
    }
}

/// Deduplication keeps exactly the names that were there.
pub proof fn lemma_dedup_names(agents: Seq<Agent>, n: Seq<char>)
    ensures
        has_name(dedup_first(agents), n) <==> has_name(agents, n),
    decreases agents.len(),
{
    if agents.len() > 0 {
        let body = agents.drop_last();
        lemma_dedup_names(body, n);
        lemma_has_name_push(body, agents.last(), n);
        lemma_has_name_push(dedup_first(body), agents.last(), n);
        assert(body.push(agents.last()) =~= agents);
    }
}

/// What the fix pass plans for one finding: relink a missing or broken
/// link from the first surviving agent of that name; drop an orphaned
/// link; leave everything else alone (an unmanaged file is only
/// reported, with a pointer to the import command).
pub open spec fn fix_action_of(fixed: Seq<Agent>, root: Seq<char>, iss: IssueV) -> Seq<FsActionV> {
    match iss.issue_type {
        IssueType::BrokenSymlink => fix_link_action(fixed, root, iss.agent_name),
        IssueType::MissingSymlink => fix_link_action(fixed, root, iss.agent_name),
        IssueType::OrphanedSymlink => seq![
            FsActionV::Unlink { target: link_path_spec(root, iss.agent_name) },
        ],
        _ => Seq::empty(),
    }
}

/// The relink for one name, against the repaired registry.
pub open spec fn fix_link_action(fixed: Seq<Agent>, root: Seq<char>, name: Seq<char>) -> Seq<
    FsActionV,
> {
    if has_name(fixed, name) {
        seq![
            FsActionV::Link {
                source: local_path_spec(fixed[first_name_idx(fixed, name)]@, root),
                target: link_path_spec(root, name),
            },
        ]
    } else {
        Seq::empty()
    }
}

/// The fix actions for the first `i` findings, in order.
pub open spec fn fix_actions_upto(
    fixed: Seq<Agent>,
    root: Seq<char>,
    issues: Seq<IssueV>,
    i: int,
) -> Seq<FsActionV>
    decreases i,
{
    if i <= 0 {
        Seq::empty()
    } else {
        fix_actions_upto(fixed, root, issues, i - 1) + fix_action_of(fixed, root, issues[i - 1])
    }
}

/// Whether some entry of the vector carries this name.
fn vec_has_name(v: &Vec<Agent>, name: &str) -> (r: bool)
    ensures
        r == has_name(v@, name@),
{
    let n = v.len();
    let mut i: usize = 0;
    while i < n
        invariant
            i <= n,
            n == v@.len(),
            forall|k: int| 0 <= k < i ==> v@[k].name@ != name@,
        decreases n - i,
    {
        if crate::paths::str_eq(v[i].name.as_str(), name) {
            proof {
                assert(v@[i as int].name@ == name@);
            }
            return true;
        }
        i = i + 1;
    }
    proof {
        if has_name(v@, name@) {
            let m = choose|m: int| 0 <= m < v@.len() && v@[m].name@ == name@;
        }
    }
    false
}

/// Diagnoses and repairs: reports the findings of `doctor_report`, then
/// removes every agent whose source is missing, collapses duplicate
/// names onto their first entry, and plans one relink per missing or
/// broken link and one unlink per orphaned link. Unmanaged files stay
/// untouched.
pub fn doctor_fix(config: &mut AgentsConfig, fsm: &FsModel, root: &str) -> (r: (
    Vec<Issue>,
    Vec<FsAction>,
))
    requires
        fsm.wf(),
    ensures
        issue_views(r.0@) == doctor_issues_spec(fs_view(fsm), old(config).agents@, root@),
        final (config).agents@ == dedup_first(
            old(config).agents@.filter(|a: Agent| !is_orphan(fs_view(fsm), a, root@)),
        ),
        crate::fs::action_views(r.1@) == fix_actions_upto(
            final (config).agents@,
            root@,
            doctor_issues_spec(fs_view(fsm), old(config).agents@, root@),
            doctor_issues_spec(fs_view(fsm), old(config).agents@, root@).len() as int,
        ),
{
    let ghost fsv = fs_view(fsm);
    let ghost orig = config.agents@;
    let issues = doctor_report(config, fsm, root);

    let mut kept: Vec<Agent> = Vec::new();
    let n = config.agents.len();
    let mut i: usize = 0;
    proof {
        assert(orig.take(0) =~= Seq::<Agent>::empty());
        assert(orig.take(0).filter(|a: Agent| !is_orphan(fsv, a, root@)) =~= Seq::<Agent>::empty());
        assert(kept@ =~= dedup_first(orig.take(0).filter(|a: Agent| !is_orphan(fsv, a, root@))));
    }
    while i < n
        invariant
            i <= n,
            n == orig.len(),
            config.agents@ == orig,
            fsv == fs_view(fsm),
            fsm.wf(),
            kept@ == dedup_first(orig.take(i as int).filter(|a: Agent| !is_orphan(fsv, a, root@))),
        decreases n - i,
    {
        let ghost cur = orig[i as int];
        let ghost fprev = orig.take(i as int).filter(|a: Agent| !is_orphan(fsv, a, root@));
        proof {
            assert(orig.take(i + 1) =~= orig.take(i as int).push(cur));
            orig.take(i as int).lemma_filter_push(cur, |a: Agent| !is_orphan(fsv, a, root@));
        }
        let a = config.agents[i].clone();
        let local = a.get_local_path(root);
        if fsm.path_exists(local.as_str()) {
            let dup = vec_has_name(&kept, a.name.as_str());
            proof {
                lemma_dedup_names(fprev, cur.name@);
                assert(fprev.push(cur).drop_last() =~= fprev);
                assert(fprev.push(cur).last() == cur);
            }
            if !dup {
                kept.push(a);
            }
        }
        i = i + 1;
    }
    proof {
        assert(orig.take(n as int) =~= orig);
    }
    config.agents = kept;
    let ghost fixed = config.agents@;

    let ghost issuesv = issue_views(issues@);
    let mut actions: Vec<FsAction> = Vec::new();
    let m = issues.len();
    let mut k: usize = 0;
    proof {
        assert(crate::fs::action_views(actions@) =~= fix_actions_upto(fixed, root@, issuesv, 0));
    }
    while k < m
        invariant
            k <= m,
            m == issues@.len(),
            issuesv == issue_views(issues@),
            config.agents@ == fixed,
            crate::fs::action_views(actions@) == fix_actions_upto(fixed, root@, issuesv, k as int),
        decreases m - k,
    {
        let ghost iss = issuesv[k as int];
        let ghost aprev = crate::fs::action_views(actions@);
        let relink = match issues[k].issue_type {
            IssueType::BrokenSymlink => true,
            IssueType::MissingSymlink => true,
            _ => false,
        };
        if relink {
            match config.get_agent_idx(issues[k].agent_name.as_str()) {
                Some(f) => {
                    proof {
                        crate::config::lemma_first_idx_props(fixed, iss.agent_name);
                    }
                    let source = config.agents[f].get_local_path(root);
                    let target = String::from_str(root).concat("/.cc/agents/").concat(
                        issues[k].agent_name.as_str(),
                    );
                    actions.push(FsAction::Link { source, target });
                    proof {
                        assert(crate::fs::action_views(actions@) =~= aprev + fix_action_of(
                            fixed,
                            root@,
                            iss,
                        ));
                    }
                },
                None => {
                    proof {
                        assert(fix_action_of(fixed, root@, iss) =~= Seq::<FsActionV>::empty());
                        assert(aprev + Seq::<FsActionV>::empty() =~= aprev);
                    }
                },
            }
        } else {
            let orphan_link = match issues[k].issue_type {
                IssueType::OrphanedSymlink => true,
                _ => false,
            };
            if orphan_link {
                let target = String::from_str(root).concat("/.cc/agents/").concat(
                    issues[k].agent_name.as_str(),
                );
                actions.push(FsAction::Unlink { target });
                proof {
                    assert(crate::fs::action_views(actions@) =~= aprev + fix_action_of(
                        fixed,
                        root@,
                        iss,
                    ));
                }
            } else {
                proof {
                    assert(fix_action_of(fixed, root@, iss) =~= Seq::<FsActionV>::empty());
                    assert(aprev + Seq::<FsActionV>::empty() =~= aprev);
                }
            }
        }
        k = k + 1;
    }
    proof {
        assert(issue_views(issues@) =~= doctor_issues_spec(fsv, orig, root@));
    }
    (issues, actions)
}

} // verus!

verus! {

/// The name filter of an import: all unmanaged files, or one name.
pub open spec fn name_selected(filter: Option<Seq<char>>, n: Seq<char>) -> bool {
    match filter {
        Some(f) => n == f,
        None => true,
    }
}

/// The unmanaged regular files an import considers: regular files in the
/// managed link directory, matching the filter, not yet registered.
pub open spec fn unmanaged_candidates(
    fsv: Seq<(Seq<char>, FsNodeV)>,
    agents: Seq<Agent>,
    root: Seq<char>,
    filter: Option<Seq<char>>,
) -> Seq<Seq<char>> {
    crate::fs::children_of(fsv, link_dir_spec(root)).filter(
        |c: (Seq<char>, FsNodeV)| c.1 is File && name_selected(filter, c.0) && !has_name(
            agents,
            c.0,
        ),
    ).map_values(|c: (Seq<char>, FsNodeV)| c.0)
}

/// The names of the unmanaged files an import would take in, in scan
/// order.
pub fn find_unmanaged(
    config: &AgentsConfig,
    fsm: &FsModel,
    root: &str,
    specific: Option<&str>,
) -> (r: Vec<String>)
    requires
        fsm.wf(),
    ensures
        r.deep_view() == unmanaged_candidates(
            fs_view(fsm),
            config.agents@,
            root@,
            match specific {
                Some(s) => Some(s@),
                None => None,
            },
        ),
{
    let ghost fsv = fs_view(fsm);
    let ghost agents = config.agents@;
    let ghost filter = match specific {
        Some(s) => Some(s@),
        None => None,
    };
    let linkdir = String::from_str(root).concat("/.cc/agents");
    let children = fsm.dir_children(linkdir.as_str());
    let ghost cv = children@.map_values(|e: (String, crate::fs::FsNode)| (e.0@, e.1@));
    let mut out: Vec<String> = Vec::new();
    let cn = children.len();
    let mut ci: usize = 0;
    proof {
        assert(cv == crate::fs::children_of(fsv, link_dir_spec(root@)));
        assert(cv.take(0) =~= Seq::<(Seq<char>, FsNodeV)>::empty());
        assert(out.deep_view() =~= cv.take(0).filter(
            |c: (Seq<char>, FsNodeV)| c.1 is File && name_selected(filter, c.0) && !has_name(
                agents,
                c.0,
            ),
        ).map_values(|c: (Seq<char>, FsNodeV)| c.0));
    }
    while ci < cn
        invariant
            ci <= cn,
            cn == children@.len(),
            config.agents@ == agents,
            filter == (match specific {
                Some(s) => Some(s@),
                None => None,
            }),
            cv == children@.map_values(|e: (String, crate::fs::FsNode)| (e.0@, e.1@)),
            out.deep_view() == cv.take(ci as int).filter(
                |c: (Seq<char>, FsNodeV)| c.1 is File && name_selected(filter, c.0) && !has_name(
                    agents,
                    c.0,
                ),
            ).map_values(|c: (Seq<char>, FsNodeV)| c.0),
        decreases cn - ci,
    {
        let ghost cur = cv[ci as int];
        let ghost uprev = out.deep_view();
        proof {
            assert(cv.take(ci + 1) =~= cv.take(ci as int).push(cur));
            cv.take(ci as int).lemma_filter_push(
                cur,
                |c: (Seq<char>, FsNodeV)| c.1 is File && name_selected(filter, c.0) && !has_name(
                    agents,
                    c.0,
                ),
            );
        }
        let is_file = match &children[ci].1 {
            crate::fs::FsNode::File(_) => true,
            _ => false,
        };
        let selected = match specific {
            Some(s) => crate::paths::str_eq(children[ci].0.as_str(), s),
            None => true,
        };
        if is_file && selected && !vec_has_name(&config.agents, children[ci].0.as_str()) {
            out.push(children[ci].0.clone());
            proof {
                assert(out.deep_view() =~= uprev.push(cur.0));
                assert(cv.take(ci as int).filter(
                    |c: (Seq<char>, FsNodeV)| c.1 is File && name_selected(filter, c.0)
                        && !has_name(agents, c.0),
                ).push(cur).map_values(|c: (Seq<char>, FsNodeV)| c.0) =~= uprev.push(cur.0));
            }
        }
        ci = ci + 1;
    }
    proof {
        assert(cv.take(cn as int) =~= cv);
    }
    out
}

/// What an import plans for one unmanaged file: a copy into the managed
/// source directory unless a same-named entry is already there, then a
/// link that replaces the original file.
pub open spec fn import_actions_of(
    fsv: Seq<(Seq<char>, FsNodeV)>,
    root: Seq<char>,
    n: Seq<char>,
) -> Seq<FsActionV> {
    let cc = root + "/.ccagents/"@ + n;
    let lk = link_path_spec(root, n);
    (if lookup_in(fsv, cc) is None {
        seq![FsActionV::CopyEntry { from: lk, to: cc }]
    } else {
        Seq::<FsActionV>::empty()
    }) + seq![FsActionV::Link { source: cc, target: lk }]
}

/// The import actions for the first `i` candidates.
pub open spec fn import_actions_upto(
    fsv: Seq<(Seq<char>, FsNodeV)>,
    root: Seq<char>,
    names: Seq<Seq<char>>,
    i: int,
) -> Seq<FsActionV>
    decreases i,
{
    if i <= 0 {
        Seq::empty()
    } else {
        import_actions_upto(fsv, root, names, i - 1) + import_actions_of(fsv, root, names[i - 1])
    }
}

/// Imports the unmanaged files: each is copied into the managed source
/// directory (unless already there), replaced by a link to that copy,
/// and registered as an enabled local agent under a relative path.
pub fn import_files(
    config: &mut AgentsConfig,
    fsm: &FsModel,
    root: &str,
    specific: Option<&str>,
) -> (r: (Vec<FsAction>, Vec<String>))
    requires
        fsm.wf(),
    ensures
        ({
            let filter = match specific {
                Some(s) => Some(s@),
                None => None,
            };
            let names = unmanaged_candidates(fs_view(fsm), old(config).agents@, root@, filter);
            &&& r.1.deep_view() == names
            &&& crate::fs::action_views(r.0@) == import_actions_upto(
                fs_view(fsm),
                root@,
                names,
                names.len() as int,
            )
            &&& final (config).agents@.len() == old(config).agents@.len() + names.len()
            &&& forall|t: int|
                0 <= t < old(config).agents@.len() ==> final (config).agents@[t] == old(
                    config,
                ).agents@[t]
            &&& forall|t: int|
                0 <= t < names.len() ==> {
                    let a = #[trigger] final (config).agents@[old(config).agents@.len() + t];
                    &&& a.name@ == names[t]
                    &&& a.source@ == crate::agent::SourceV::Local(".ccagents/"@ + names[t])
                    &&& a.enabled
                }
        }),
{
    let ghost fsv = fs_view(fsm);
    let ghost orig = config.agents@;
    let names = find_unmanaged(config, fsm, root, specific);
    let ghost namesv = names.deep_view();
    let mut actions: Vec<FsAction> = Vec::new();
    let n = names.len();
    let mut j: usize = 0;
    proof {
        assert(namesv.len() == n);
        assert(crate::fs::action_views(actions@) =~= import_actions_upto(fsv, root@, namesv, 0));
    }
    while j < n
        invariant
            j <= n,
            n == names@.len(),
            namesv == names.deep_view(),
            fsv == fs_view(fsm),
            fsm.wf(),
            crate::fs::action_views(actions@) == import_actions_upto(fsv, root@, namesv, j as int),
            config.agents@.len() == orig.len() + j,
            forall|t: int| 0 <= t < orig.len() ==> config.agents@[t] == orig[t],
            forall|t: int|
                0 <= t < j ==> {
                    let a = #[trigger] config.agents@[orig.len() + t];
                    &&& a.name@ == namesv[t]
                    &&& a.source@ == crate::agent::SourceV::Local(".ccagents/"@ + namesv[t])
                    &&& a.enabled
                },
        decreases n - j,
    {
        let ghost cur = namesv[j as int];
        let ghost aprev = crate::fs::action_views(actions@);
        let name = names[j].clone();
        proof {
            assert(name@ == cur);
        }
        let cc = String::from_str(root).concat("/.ccagents/").concat(name.as_str());
        let lk = String::from_str(root).concat("/.cc/agents/").concat(name.as_str());
        let already = match fsm.get_node(cc.as_str()) {
            Some(_) => true,
            None => false,
        };
        if !already {
            actions.push(FsAction::CopyEntry { from: lk.clone(), to: cc.clone() });
        }
        actions.push(FsAction::Link { source: cc, target: lk });
        let rel = String::from_str(".ccagents/").concat(name.as_str());
        config.agents.push(Agent { name, source: AgentSource::Local(rel), enabled: true });
        proof {
            assert(crate::fs::action_views(actions@) =~= aprev + import_actions_of(
                fsv,
                root@,
                cur,
            ));
        }
        j = j + 1;
    }
    proof {
        assert(names.deep_view().len() == names@.len());
    }
    (actions, names)
}

} // verus!

verus! {

/// Link paths of distinct names are distinct.
pub proof fn lemma_link_path_injective(root: Seq<char>, n1: Seq<char>, n2: Seq<char>)
    requires
        link_path_spec(root, n1) == link_path_spec(root, n2),
    ensures
        n1 == n2,
{
    crate::paths::lemma_concat_cancel_left(root + "/.cc/agents/"@, n1, n2);
}

/// No two registered agents share a name.
pub open spec fn unique_names(agents: Seq<Agent>) -> bool {
    forall|i: int, j: int| 0 <= i < j < agents.len() ==> agents[i].name@ != agents[j].name@
}

/// Every enabled agent's resolved source exists in the snapshot.
pub open spec fn all_enabled_sources_exist(
    fsv: Seq<(Seq<char>, FsNodeV)>,
    agents: Seq<Agent>,
    root: Seq<char>,
) -> bool {
    forall|k: int|
        0 <= k < agents.len() && agents[k].enabled ==> path_exists(
            fsv,
            local_path_spec(#[trigger] agents[k]@, root),
        )
}

/// In the link phase, the last write to an enabled agent's link path is
/// its own link action.
proof fn lemma_upto_links(
    fsv: Seq<(Seq<char>, FsNodeV)>,
    agents: Seq<Agent>,
    root: Seq<char>,
    k: int,
    m: int,
)
    requires
        unique_names(agents),
        all_enabled_sources_exist(fsv, agents, root),
        0 <= k < m <= agents.len(),
        agents[k].enabled,
    ensures
        ({
            let acts = sync_link_actions_upto(fsv, agents, root, m);
            let target = link_path_spec(root, agents[k].name@);
            exists|p: int|
                0 <= p < acts.len() && acts[p] == (FsActionV::Link {
                    source: local_path_spec(agents[k]@, root),
                    target,
                }) && forall|i: int|
                    p < i < acts.len() ==> !crate::fs::action_writes(#[trigger] acts[i], target)
        }),
    decreases m,
{
    let target = link_path_spec(root, agents[k].name@);
    let source = local_path_spec(agents[k]@, root);
    let prev = sync_link_actions_upto(fsv, agents, root, m - 1);
    let tail = if agents[m - 1].enabled {
        agent_sync_actions(fsv, agents[m - 1], root)
    } else {
        Seq::<FsActionV>::empty()
    };
    let acts = sync_link_actions_upto(fsv, agents, root, m);
    assert(acts == prev + tail);
    if m - 1 == k {
        assert(path_exists(fsv, local_path_spec(agents[k]@, root)));
        assert(tail =~= seq![FsActionV::Link { source, target }]);
        let p = prev.len() as int;
        assert(acts[p] == (FsActionV::Link { source, target }));
        assert(forall|i: int|
            p < i < acts.len() ==> !crate::fs::action_writes(#[trigger] acts[i], target));
    } else {
        lemma_upto_links(fsv, agents, root, k, m - 1);
        let p = choose|p: int|
            0 <= p < prev.len() && prev[p] == (FsActionV::Link { source, target }) && forall|
                i: int,
            |
                p < i < prev.len() ==> !crate::fs::action_writes(#[trigger] prev[i], target);
        assert(acts[p] == prev[p]);
        if agents[m - 1].enabled {
            assert(path_exists(fsv, local_path_spec(agents[m - 1]@, root)));
            assert(tail =~= seq![
                FsActionV::Link {
                    source: local_path_spec(agents[m - 1]@, root),
                    target: link_path_spec(root, agents[m - 1].name@),
                },
            ]);
            assert(agents[m - 1].name@ != agents[k].name@);
            assert(link_path_spec(root, agents[m - 1].name@) != target) by {
                if link_path_spec(root, agents[m - 1].name@) == target {
                    lemma_link_path_injective(root, agents[m - 1].name@, agents[k].name@);
                }
            }
        }
        assert(forall|i: int|
            p < i < acts.len() ==> !crate::fs::action_writes(#[trigger] acts[i], target)) by {
            assert(forall|i: int| p < i < prev.len() ==> acts[i] == prev[i]);
            assert(forall|i: int|
                prev.len() <= i < acts.len() ==> acts[i] == tail[i - prev.len()]);
        }
    }
}

/// A successful sync converges: when no two agents share a name and
/// every enabled agent's source exists, carrying out the planned actions
/// leaves each enabled agent's link path holding a symbolic link to its
/// resolved source.
pub proof fn lemma_sync_converges(
    fsv: Seq<(Seq<char>, FsNodeV)>,
    agents: Seq<Agent>,
    root: Seq<char>,
    prune: bool,
    k: int,
)
    requires
        unique_names(pruned_of(agents, fsv, root, prune)),
        all_enabled_sources_exist(fsv, pruned_of(agents, fsv, root, prune), root),
        0 <= k < pruned_of(agents, fsv, root, prune).len(),
        pruned_of(agents, fsv, root, prune)[k].enabled,
    ensures
        ({
            let pruned = pruned_of(agents, fsv, root, prune);
            crate::fs::lookup_after(
                fsv,
                sync_actions_spec(agents, fsv, root, prune),
                link_path_spec(root, pruned[k].name@),
            ) == Some(FsNodeV::Symlink(local_path_spec(pruned[k]@, root)))
        }),
{
    let pruned = pruned_of(agents, fsv, root, prune);
    let target = link_path_spec(root, pruned[k].name@);
    let source = local_path_spec(pruned[k]@, root);
    let phase3 = sync_link_actions_upto(fsv, pruned, root, pruned.len() as int);
    let prefix = prune_unlinks(agents, fsv, root, prune) + sweep_unlinks(
        crate::fs::children_of(fsv, link_dir_spec(root)),
        root,
    );
    let full = sync_actions_spec(agents, fsv, root, prune);
    assert(full =~= prefix + phase3);
    lemma_upto_links(fsv, pruned, root, k, pruned.len() as int);
    let p = choose|p: int|
        0 <= p < phase3.len() && phase3[p] == (FsActionV::Link { source, target }) && forall|
            i: int,
        |
            p < i < phase3.len() ==> !crate::fs::action_writes(#[trigger] phase3[i], target);
    let fp = prefix.len() + p;
    assert(full[fp] == phase3[p]);
    assert(forall|i: int|
        fp < i < full.len() ==> !crate::fs::action_writes(#[trigger] full[i], target)) by {
        assert(forall|i: int| fp < i < full.len() ==> full[i] == phase3[i - prefix.len()]);
    }
    crate::fs::lemma_lookup_after_last_link(fsv, full, fp, source, target);
}

/// Importing one unmanaged file preserves its bytes: after the planned
/// actions, the managed source path holds the file's content, and the
/// original path holds a link to it.
pub proof fn lemma_import_preserves_content(
    fsv: Seq<(Seq<char>, FsNodeV)>,
    root: Seq<char>,
    n: Seq<char>,
    bytes: Seq<u8>,
)
    requires
        lookup_in(fsv, link_path_spec(root, n)) == Some(FsNodeV::File(bytes)),
        lookup_in(fsv, root + "/.ccagents/"@ + n) is None,
        link_path_spec(root, n) != root + "/.ccagents/"@ + n,
    ensures
        crate::fs::lookup_after(fsv, import_actions_of(fsv, root, n), root + "/.ccagents/"@ + n)
            == Some(FsNodeV::File(bytes)),
        crate::fs::lookup_after(fsv, import_actions_of(fsv, root, n), link_path_spec(root, n))
            == Some(FsNodeV::Symlink(root + "/.ccagents/"@ + n)),
{
    let cc = root + "/.ccagents/"@ + n;
    let lk = link_path_spec(root, n);
    let acts = import_actions_of(fsv, root, n);
    let copy = FsActionV::CopyEntry { from: lk, to: cc };
    let link = FsActionV::Link { source: cc, target: lk };
    assert(acts =~= seq![copy, link]);
    assert(acts.last() == link);
    assert(acts.drop_last() =~= seq![copy]);
    assert(seq![copy].last() == copy);
    assert(seq![copy].drop_last() =~= Seq::<FsActionV>::empty());
    assert(crate::fs::lookup_after(fsv, Seq::<FsActionV>::empty(), lk) == lookup_in(fsv, lk));
    assert(crate::fs::lookup_after(fsv, seq![copy], cc) == Some(FsNodeV::File(bytes)));
    assert(crate::fs::lookup_after(fsv, acts, cc) == Some(FsNodeV::File(bytes)));
    assert(crate::fs::lookup_after(fsv, acts, lk) == Some(FsNodeV::Symlink(cc)));
}

} // verus!

verus! {

/// A path strictly inside the project tree: it continues the root past a
/// separator.
pub open spec fn is_under_root(root: Seq<char>, p: Seq<char>) -> bool {
    p.len() > root.len() + 1 && p.take(root.len() + 1 as int) == root + "/"@
}

/// Decides how a local path joins the registry: a path inside the
/// project is registered under its project-relative form; one outside is
/// copied into the managed source directory first and registered under
/// the copy's relative path. Fails when nothing exists at the path, or
/// when it has no filename component.
pub fn plan_add_local(fsm: &FsModel, root: &str, source: &str) -> (r: Result<
    (Agent, Vec<FsAction>),
    AgentError,
>)
    requires
        fsm.wf(),
    ensures
        ({
            let abs = crate::paths::join_path(root@, source@);
            match r {
                Ok((agent, actions)) => path_exists(fs_view(fsm), abs) && if is_under_root(
                    root@,
                    abs,
                ) {
                    let rel = abs.skip(root@.len() + 1 as int);
                    &&& crate::agent::file_name_of(rel) == Some(agent@.name)
                    &&& agent@.source == crate::agent::SourceV::Local(rel)
                    &&& agent@.enabled
                    &&& actions@.len() == 0
                } else {
                    &&& crate::agent::file_name_of(abs) == Some(agent@.name)
                    &&& agent@.source == crate::agent::SourceV::Local(".ccagents/"@ + agent@.name)
                    &&& agent@.enabled
                    &&& crate::fs::action_views(actions@) == seq![
                        FsActionV::CopyEntry {
                            from: abs,
                            to: root@ + "/.ccagents/"@ + agent@.name,
                        },
                    ]
                },
                Err(e) => match e {
                    AgentError::PathNotFound(p) => !path_exists(fs_view(fsm), abs) && p@ == abs,
                    AgentError::InvalidReference(_) => path_exists(fs_view(fsm), abs) && (
                    if is_under_root(root@, abs) {
                        crate::agent::file_name_of(abs.skip(root@.len() + 1 as int)) is None
                    } else {
                        crate::agent::file_name_of(abs) is None
                    }),
                    _ => false,
                },
            }
        }),
{
    let abs = crate::paths::join_paths(root, source);
    if !fsm.path_exists(abs.as_str()) {
        return Err(AgentError::PathNotFound(abs));
    }
    let rootslash = String::from_str(root).concat("/");
    let abslen = abs.as_str().unicode_len();
    let plen = rootslash.as_str().unicode_len();
    if abslen > plen && crate::paths::str_starts_with(abs.as_str(), rootslash.as_str()) {
        let rel = abs.as_str().substring_char(plen, abslen).to_owned();
        proof {
            reveal_strlit("/");
            assert(rootslash@.len() == root@.len() + 1);
            assert(rel@ =~= abs@.skip(root@.len() + 1 as int));
            assert(abs@.take(root@.len() + 1 as int) =~= rootslash@);
        }
        match Agent::from_path(rel.as_str()) {
            Ok(agent) => Ok((agent, Vec::new())),
            Err(e) => Err(e),
        }
    } else {
        proof {
            reveal_strlit("/");
            assert(rootslash@.len() == root@.len() + 1);
            if is_under_root(root@, abs@) {
                assert(abs@.take(root@.len() + 1 as int) == root@ + "/"@);
                assert(abs@.take(root@.len() + 1 as int) =~= abs@.subrange(
                    0,
                    rootslash@.len() as int,
                ));
            }
        }
        let name = match crate::agent::file_name_component(abs.as_str()) {
            Some(n) => n,
            None => {
                return Err(AgentError::InvalidReference(String::from_str("Invalid path")));
            },
        };
        let cc = String::from_str(root).concat("/.ccagents/").concat(name.as_str());
        let rel = String::from_str(".ccagents/").concat(name.as_str());
        let mut actions: Vec<FsAction> = Vec::new();
        actions.push(FsAction::CopyEntry { from: abs, to: cc });
        let agent = Agent { name, source: AgentSource::Local(rel), enabled: true };
        proof {
            assert(crate::fs::action_views(actions@) =~= seq![actions@[0]@]);
        }
        Ok((agent, actions))
    }
}

/// Registers an agent and plans its link: fails, changing nothing, when
/// the name is already taken; otherwise appends it and, when enabled,
/// plans the link from its resolved source.
pub fn register_agent(config: &mut AgentsConfig, agent: Agent, root: &str) -> (r: Result<
    Vec<FsAction>,
    AgentError,
>)
    ensures
        match r {
            Ok(actions) => !has_name(old(config).agents@, agent.name@) && final (config).agents@
                == old(config).agents@.push(agent) && crate::fs::action_views(actions@) == (
            if agent.enabled {
                seq![
                    FsActionV::Link {
                        source: local_path_spec(agent@, root@),
                        target: link_path_spec(root@, agent.name@),
                    },
                ]
            } else {
                Seq::<FsActionV>::empty()
            }),
            Err(e) => has_name(old(config).agents@, agent.name@) && final (config).agents@ == old(
                config,
            ).agents@ && (e matches AgentError::DuplicateName(n) && n@ == agent.name@),
        },
{
    let enabled = agent.enabled;
    let local = agent.get_local_path(root);
    let link = agent.get_link_path(root);
    match config.add_agent(agent) {
        Ok(()) => {
            let mut actions: Vec<FsAction> = Vec::new();
            if enabled {
                actions.push(FsAction::Link { source: local, target: link });
                proof {
                    assert(crate::fs::action_views(actions@) =~= seq![actions@[0]@]);
                }
            } else {
                proof {
                    assert(crate::fs::action_views(actions@) =~= Seq::<FsActionV>::empty());
                }
            }
            Ok(actions)
        },
        Err(e) => Err(e),
    }
}

} // verus!

verus! {

/// Under existing sources, the link phase writes only link paths.
proof fn lemma_upto_writes(
    fsv: Seq<(Seq<char>, FsNodeV)>,
    agents: Seq<Agent>,
    root: Seq<char>,
    m: int,
    q: Seq<char>,
)
    requires
        all_enabled_sources_exist(fsv, agents, root),
        0 <= m <= agents.len(),
        forall|n: Seq<char>| q != link_path_spec(root, n),
    ensures
        ({
            let acts = sync_link_actions_upto(fsv, agents, root, m);
            forall|i: int| 0 <= i < acts.len() ==> !crate::fs::action_writes(#[trigger] acts[i], q)
        }),
    decreases m,
{
    if m > 0 {
        lemma_upto_writes(fsv, agents, root, m - 1, q);
        let prev = sync_link_actions_upto(fsv, agents, root, m - 1);
        let tail = if agents[m - 1].enabled {
            agent_sync_actions(fsv, agents[m - 1], root)
        } else {
            Seq::<FsActionV>::empty()
        };
        let acts = sync_link_actions_upto(fsv, agents, root, m);
        assert(acts == prev + tail);
        if agents[m - 1].enabled {
            assert(path_exists(fsv, local_path_spec(agents[m - 1]@, root)));
            assert(tail =~= seq![
                FsActionV::Link {
                    source: local_path_spec(agents[m - 1]@, root),
                    target: link_path_spec(root, agents[m - 1].name@),
                },
            ]);
        }
        assert forall|i: int|
            0 <= i < acts.len() implies !crate::fs::action_writes(#[trigger] acts[i], q) by {
            if i < prev.len() {
                assert(acts[i] == prev[i]);
            } else {
                assert(acts[i] == tail[i - prev.len()]);
            }
        }
    }
}

/// A path that is no agent's link path comes through a sync untouched,
/// as long as every enabled agent's source exists (so nothing is
/// fetched): every action of such a sync writes a link path.
pub proof fn lemma_sync_preserves_others(
    fsv: Seq<(Seq<char>, FsNodeV)>,
    agents: Seq<Agent>,
    root: Seq<char>,
    prune: bool,
    q: Seq<char>,
)
    requires
        all_enabled_sources_exist(fsv, pruned_of(agents, fsv, root, prune), root),
        forall|n: Seq<char>| q != link_path_spec(root, n),
    ensures
        crate::fs::lookup_after(fsv, sync_actions_spec(agents, fsv, root, prune), q) == lookup_in(
            fsv,
            q,
        ),
{
    let pruned = pruned_of(agents, fsv, root, prune);
    let pu = prune_unlinks(agents, fsv, root, prune);
    let sw = sweep_unlinks(crate::fs::children_of(fsv, link_dir_spec(root)), root);
    let p3 = sync_link_actions_upto(fsv, pruned, root, pruned.len() as int);
    let full = sync_actions_spec(agents, fsv, root, prune);
    assert(full =~= (pu + sw) + p3);
    lemma_upto_writes(fsv, pruned, root, pruned.len() as int, q);
    assert forall|i: int|
        0 <= i < full.len() implies !crate::fs::action_writes(#[trigger] full[i], q) by {
        if i < pu.len() {
            assert(full[i] == pu[i]);
            assert(pu[i] == (FsActionV::Unlink {
                target: link_path_spec(
                    root,
                    agents.filter(
                        |a: Agent| is_orphan(fsv, a, root) && lookup_in(
                            fsv,
                            link_path_spec(root, a.name@),
                        ) is Some,
                    )[i].name@,
                ),
            }));
        } else if i < pu.len() + sw.len() {
            assert(full[i] == sw[i - pu.len()]);
            let c = crate::fs::children_of(fsv, link_dir_spec(root)).filter(
                |c: (Seq<char>, FsNodeV)| c.1 is Symlink,
            )[i - pu.len()];
            assert(sw[i - pu.len()] == (FsActionV::Unlink {
                target: link_path_spec(root, c.0),
            }));
        } else {
            assert(full[i] == p3[i - (pu.len() + sw.len())]);
        }
    }
    crate::fs::lemma_lookup_after_frame(fsv, full, q);
}

/// A successful sync leaves every enabled agent in the valid-link state:
/// in any snapshot that reflects the planned actions, the agent's link
/// path is a symbolic link whose target -- the agent's resolved source --
/// exists. Asks that no two agents share a name, that every enabled
/// agent's source exists and is a regular file or directory, and that the
/// source does not itself sit at some agent link path.
pub proof fn lemma_sync_link_valid(
    s1: Seq<(Seq<char>, FsNodeV)>,
    fsv: Seq<(Seq<char>, FsNodeV)>,
    agents: Seq<Agent>,
    root: Seq<char>,
    prune: bool,
    k: int,
)
    requires
        forall|p: Seq<char>|
            lookup_in(s1, p) == crate::fs::lookup_after(
                fsv,
                sync_actions_spec(agents, fsv, root, prune),
                p,
            ),
        unique_names(pruned_of(agents, fsv, root, prune)),
        all_enabled_sources_exist(fsv, pruned_of(agents, fsv, root, prune), root),
        0 <= k < pruned_of(agents, fsv, root, prune).len(),
        pruned_of(agents, fsv, root, prune)[k].enabled,
        forall|n: Seq<char>|
            local_path_spec(pruned_of(agents, fsv, root, prune)[k]@, root) != link_path_spec(
                root,
                n,
            ),
        lookup_in(
            fsv,
            local_path_spec(pruned_of(agents, fsv, root, prune)[k]@, root),
        ) matches Some(nd) && !(nd is Symlink),
    ensures
        crate::fs::valid_link(
            s1,
            link_path_spec(root, pruned_of(agents, fsv, root, prune)[k].name@),
        ),
{
    let pruned = pruned_of(agents, fsv, root, prune);
    let target = link_path_spec(root, pruned[k].name@);
    let local = local_path_spec(pruned[k]@, root);
    lemma_sync_converges(fsv, agents, root, prune, k);
    assert(lookup_in(s1, target) == Some(FsNodeV::Symlink(local)));
    lemma_sync_preserves_others(fsv, agents, root, prune, local);
    assert(lookup_in(s1, local) == lookup_in(fsv, local));
    assert(crate::fs::path_exists(s1, local));
}

} // verus!

verus! {

/// The fix pass keeps exactly the names that had an entry with an
/// existing source: orphan removal and duplicate collapse drop no other
/// name and invent none.
pub proof fn lemma_doctor_fix_keeps_names(
    agents: Seq<Agent>,
    fsv: Seq<(Seq<char>, FsNodeV)>,
    root: Seq<char>,
    n: Seq<char>,
)
    ensures
        has_name(dedup_first(agents.filter(|a: Agent| !is_orphan(fsv, a, root))), n) <==> exists|
            i: int,
        | 0 <= i < agents.len() && agents[i].name@ == n && !is_orphan(fsv, agents[i], root),
{
    broadcast use vstd::seq_lib::group_filter_ensures;

    let kept = agents.filter(|a: Agent| !is_orphan(fsv, a, root));
    lemma_dedup_names(kept, n);
    if has_name(kept, n) {
        let j = choose|j: int| 0 <= j < kept.len() && kept[j].name@ == n;
        assert(kept.contains(kept[j]));
        assert(agents.contains(kept[j])) by {
            agents.lemma_filter_contains_rev(|a: Agent| !is_orphan(fsv, a, root), kept[j]);
        }
        assert(!is_orphan(fsv, kept[j], root)) by {
            agents.lemma_filter_pred(|a: Agent| !is_orphan(fsv, a, root), j);
        }
        let i = choose|i: int| 0 <= i < agents.len() && agents[i] == kept[j];
        assert(agents[i].name@ == n && !is_orphan(fsv, agents[i], root));
    }
    if exists|i: int|
        0 <= i < agents.len() && agents[i].name@ == n && !is_orphan(fsv, agents[i], root) {
        let i = choose|i: int|
            0 <= i < agents.len() && agents[i].name@ == n && !is_orphan(fsv, agents[i], root);
        assert(kept.contains(agents[i])) by {
            agents.lemma_filter_contains(|a: Agent| !is_orphan(fsv, a, root), i);
        }
        let j = choose|j: int| 0 <= j < kept.len() && kept[j] == agents[i];
        assert(kept[j].name@ == n);
    }
}

} // verus!

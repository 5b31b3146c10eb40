//! Choosing the agent and provider that run each analysis of a chapter: the agent
//! bound to the analysis's task, enabled, with its provider and a usable address and
//! model; where no analysis has one, the first enabled provider runs them all.
use vstd::prelude::*;
use crate::inbox::texts;
use crate::model::{task_type_of, ProviderConfig, TaskType};
use crate::text::{chars_of, str_eq, string_of};

verus! {

/// An analysis agent as the choice reads it.
pub struct AgentEntry {
    pub id: String,
    pub enabled: bool,
    pub provider_id: String,
    pub model: String,
}

/// Who runs the analyses of a chapter.
pub enum ChapterAgents {
    /// Each analysis type with a usable bound agent, with the positions of the agent
    /// and of its provider.
    Bound(Vec<(String, usize, usize)>),
    /// No analysis has one: the first enabled provider (its position) runs them all.
    Fallback(usize),
    /// No analysis has an agent and no provider is enabled.
    NoProvider,
}

/// The agent id bound to task `t` (the first binding of it).
pub open spec fn bound_agent(bindings: Seq<(TaskType, String)>, t: TaskType) -> Option<Seq<char>>
    decreases bindings.len(),
{
    if bindings.len() == 0 {
        None
    } else if bindings[0].0 == t {
        Some(bindings[0].1@)
    } else {
        bound_agent(bindings.drop_first(), t)
    }
}

/// The position of the first enabled agent with id `id`.
pub open spec fn enabled_agent(agents: Seq<AgentEntry>, id: Seq<char>) -> Option<int>
    decreases agents.len(),
{
    if agents.len() == 0 {
        None
    } else if agents[0].id@ == id && agents[0].enabled {
        Some(0)
    } else {
        match enabled_agent(agents.drop_first(), id) {
            Some(i) => Some(i + 1),
            None => None,
        }
    }
}

/// The position of the first provider with id `id`.
pub open spec fn provider_at(providers: Seq<ProviderConfig>, id: Seq<char>) -> Option<int>
    decreases providers.len(),
{
    if providers.len() == 0 {
        None
    } else if providers[0].id@ == id {
        Some(0)
    } else {
        match provider_at(providers.drop_first(), id) {
            Some(i) => Some(i + 1),
            None => None,
        }
    }
}

/// The position of the first enabled provider.
pub open spec fn first_enabled(providers: Seq<ProviderConfig>) -> Option<int>
    decreases providers.len(),
{
    if providers.len() == 0 {
        None
    } else if providers[0].enabled {
        Some(0)
    } else {
        match first_enabled(providers.drop_first()) {
            Some(i) => Some(i + 1),
            None => None,
        }
    }
}

/// A setting is usable when it is neither empty nor `unknown`.
pub open spec fn usable(s: Seq<char>) -> bool {
    s.len() > 0 && s != "unknown"@
}

/// The agent and provider (positions) that run an analysis type, where it has a bound,
/// enabled agent whose provider exists and whose address and model are usable.
pub open spec fn runner_for(
    bindings: Seq<(TaskType, String)>,
    agents: Seq<AgentEntry>,
    providers: Seq<ProviderConfig>,
    ty: Seq<char>,
) -> Option<(int, int)> {
    match task_type_of(ty) {
        Some(t) => match bound_agent(bindings, t) {
            Some(aid) => match enabled_agent(agents, aid) {
                Some(a) => match provider_at(providers, agents[a].provider_id@) {
                    Some(p) => if usable(providers[p].base_url@) && usable(agents[a].model@) {
                        Some((a, p))
                    } else {
                        None
                    },
                    None => None,
                },
                None => None,
            },
            None => None,
        },
        None => None,
    }
}

/// The analysis types with a runner, each with it, in order.
pub open spec fn bound_runners(
    bindings: Seq<(TaskType, String)>,
    agents: Seq<AgentEntry>,
    providers: Seq<ProviderConfig>,
    types: Seq<Seq<char>>,
) -> Seq<(Seq<char>, int, int)>
    decreases types.len(),
{
    if types.len() == 0 {
        Seq::empty()
    } else {
        bound_runners(bindings, agents, providers, types.drop_last()) + match runner_for(
            bindings,
            agents,
            providers,
            types.last(),
        ) {
            Some(r) => seq![(types.last(), r.0, r.1)],
            None => Seq::empty(),
        }
    }
}

pub open spec fn runners_view(v: Seq<(String, usize, usize)>) -> Seq<(Seq<char>, int, int)> {
    v.map_values(|r: (String, usize, usize)| (r.0@, r.1 as int, r.2 as int))
}

fn bound_agent_of<'a>(bindings: &'a Vec<(TaskType, String)>, t: TaskType) -> (res: Option<&'a String>)
    ensures
        match res {
            Some(a) => bound_agent(bindings@, t) == Some(a@),
            None => bound_agent(bindings@, t) is None,
        },
{
    let mut i: usize = 0;
    proof {
        assert(bindings@.skip(0) == bindings@);
    }
    while i < bindings.len()
        invariant
            i <= bindings@.len(),
            bound_agent(bindings@, t) == bound_agent(bindings@.skip(i as int), t),
        decreases bindings.len() - i,
    {
        proof {
            assert(bindings@.skip(i as int)[0] == bindings@[i as int]);
            assert(bindings@.skip(i as int).drop_first() == bindings@.skip(i + 1));
        }
        if bindings[i].0 == t {
            return Some(&bindings[i].1);
        }
        i = i + 1;
    }
    None
}

fn enabled_agent_of(agents: &Vec<AgentEntry>, id: &str) -> (res: Option<usize>)
    ensures
        match res {
            Some(i) => enabled_agent(agents@, id@) == Some(i as int) && i < agents@.len(),
            None => enabled_agent(agents@, id@) is None,
        },
{
    let mut i: usize = 0;
    proof {
        assert(agents@.skip(0) == agents@);
    }
    while i < agents.len()
        invariant
            i <= agents@.len(),
            enabled_agent(agents@, id@) == match enabled_agent(agents@.skip(i as int), id@) {
                Some(j) => Some(j + i),
                None => None,
            },
        decreases agents.len() - i,
    {
        proof {
            assert(agents@.skip(i as int)[0] == agents@[i as int]);
            assert(agents@.skip(i as int).drop_first() == agents@.skip(i + 1));
        }
        if str_eq(agents[i].id.as_str(), id) && agents[i].enabled {
            return Some(i);
        }
        i = i + 1;
    }
    None
}

fn provider_of(providers: &Vec<ProviderConfig>, id: &str) -> (res: Option<usize>)
    ensures
        match res {
            Some(i) => provider_at(providers@, id@) == Some(i as int) && i < providers@.len(),
            None => provider_at(providers@, id@) is None,
        },
{
    let mut i: usize = 0;
    proof {
        assert(providers@.skip(0) == providers@);
    }
    while i < providers.len()
        invariant
            i <= providers@.len(),
            provider_at(providers@, id@) == match provider_at(providers@.skip(i as int), id@) {
                Some(j) => Some(j + i),
                None => None,
            },
        decreases providers.len() - i,
    {
        proof {
            assert(providers@.skip(i as int)[0] == providers@[i as int]);
            assert(providers@.skip(i as int).drop_first() == providers@.skip(i + 1));
        }
        if str_eq(providers[i].id.as_str(), id) {
            return Some(i);
        }
        i = i + 1;
    }
    None
}

fn first_enabled_of(providers: &Vec<ProviderConfig>) -> (res: Option<usize>)
    ensures
        match res {
            Some(i) => first_enabled(providers@) == Some(i as int) && i < providers@.len(),
            None => first_enabled(providers@) is None,
        },
{
    let mut i: usize = 0;
    proof {
        assert(providers@.skip(0) == providers@);
    }
    while i < providers.len()
        invariant
            i <= providers@.len(),
            first_enabled(providers@) == match first_enabled(providers@.skip(i as int)) {
                Some(j) => Some(j + i),
                None => None,
            },
        decreases providers.len() - i,
    {
        proof {
            assert(providers@.skip(i as int)[0] == providers@[i as int]);
            assert(providers@.skip(i as int).drop_first() == providers@.skip(i + 1));
        }
        if providers[i].enabled {
            return Some(i);
        }
        i = i + 1;
    }
    None
}

fn is_usable(s: &str) -> (res: bool)
    ensures
        res == usable(s@),
{
    chars_of(s).len() > 0 && !str_eq(s, "unknown")
}

fn runner_of(
    bindings: &Vec<(TaskType, String)>,
    agents: &Vec<AgentEntry>,
    providers: &Vec<ProviderConfig>,
    ty: &str,
) -> (res: Option<(usize, usize)>)
    ensures
        match res {
            Some(r) => runner_for(bindings@, agents@, providers@, ty@) == Some((r.0 as int, r.1 as int)),
            None => runner_for(bindings@, agents@, providers@, ty@) is None,
        },
{
    let t = match TaskType::from_analysis_type(ty) {
        Some(t) => t,
        None => {
            return None;
        },
    };
    let aid = match bound_agent_of(bindings, t) {
        Some(a) => a,
        None => {
            return None;
        },
    };
    let a = match enabled_agent_of(agents, aid.as_str()) {
        Some(a) => a,
        None => {
            return None;
        },
    };
    let p = match provider_of(providers, agents[a].provider_id.as_str()) {
        Some(p) => p,
        None => {
            return None;
        },
    };
    if is_usable(providers[p].base_url.as_str()) && is_usable(agents[a].model.as_str()) {
        Some((a, p))
    } else {
        None
    }
}

/// Who runs the analyses of a chapter: the types with a runner (see `runner_for`);
/// where none has one, the first enabled provider; else none.
pub fn select_chapter_agents(
    types: &Vec<String>,
    bindings: &Vec<(TaskType, String)>,
    agents: &Vec<AgentEntry>,
    providers: &Vec<ProviderConfig>,
) -> (res: ChapterAgents)
    ensures
        ({
            let runners = bound_runners(bindings@, agents@, providers@, texts(types@));
            if runners.len() > 0 {
                res matches ChapterAgents::Bound(v) && runners_view(v@) == runners
            } else {
                match first_enabled(providers@) {
                    Some(p) => res matches ChapterAgents::Fallback(q) && q == p,
                    None => res is NoProvider,
                }
            }
        }),
{
    let ghost tv = texts(types@);
    let mut out: Vec<(String, usize, usize)> = Vec::new();
    let mut i: usize = 0;
    while i < types.len()
        invariant
            i <= types@.len(),
            tv == texts(types@),
            runners_view(out@) == bound_runners(bindings@, agents@, providers@, tv.take(i as int)),
        decreases types.len() - i,
    {
        proof {
            assert(tv.take(i + 1).drop_last() =~= tv.take(i as int));
            assert(tv.take(i + 1).last() == types@[i as int]@);
        }
        let ghost before = out@;
        match runner_of(bindings, agents, providers, types[i].as_str()) {
            Some(r) => {
                out.push((string_of(chars_of(types[i].as_str()).as_slice()), r.0, r.1));
                assert(runners_view(out@) =~= runners_view(before).push((types@[i as int]@, r.0 as int, r.1 as int)));
            },
            None => {
                assert(runners_view(out@) =~= runners_view(before));
            },
        }
        i = i + 1;
    }
    assert(tv.take(i as int) =~= tv);
    if out.len() > 0 {
        return ChapterAgents::Bound(out);
    }
    match first_enabled_of(providers) {
        Some(p) => ChapterAgents::Fallback(p),
        None => ChapterAgents::NoProvider,
    }
}

/// Why a single analysis cannot run, as the message tells it.
pub open spec fn single_agent_outcome(
    bindings: Seq<(TaskType, String)>,
    agents: Seq<AgentEntry>,
    providers: Seq<ProviderConfig>,
    ty: Seq<char>,
) -> Result<(int, int), Seq<char>> {
    match task_type_of(ty) {
        None => Err("Unknown agent type: "@ + ty),
        Some(t) => match bound_agent(bindings, t) {
            None => Err("No task binding found for "@ + ty),
            Some(aid) => match enabled_agent(agents, aid) {
                None => Err("Agent "@ + aid + " not found or disabled"@),
                Some(a) => match provider_at(providers, agents[a].provider_id@) {
                    None => Err("Provider not found for agent "@ + aid),
                    Some(p) => if !usable(providers[p].base_url@) {
                        Err(
                            "Provider "@ + providers[p].id@ + " has invalid base_url: '"@
                                + providers[p].base_url@
                                + "'. Please configure a valid URL in settings."@,
                        )
                    } else if !usable(agents[a].model@) {
                        Err(
                            "Agent "@ + agents[a].id@ + " has invalid model: '"@ + agents[a].model@
                                + "'. Please configure a valid model in settings."@,
                        )
                    } else {
                        Ok((a, p))
                    },
                },
            },
        },
    }
}

fn concat(parts: &Vec<&str>) -> (res: String)
    ensures
        res@ == parts@.map_values(|s: &str| s@).fold_left(Seq::<char>::empty(), |acc: Seq<char>, s: Seq<char>| acc + s),
{
    let ghost pv = parts@.map_values(|s: &str| s@);
    let mut out: Vec<char> = Vec::new();
    let mut i: usize = 0;
    assert(pv.take(0).fold_left(Seq::<char>::empty(), |acc: Seq<char>, s: Seq<char>| acc + s) =~= out@);
    while i < parts.len()
        invariant
            i <= parts@.len(),
            pv == parts@.map_values(|s: &str| s@),
            out@ == pv.take(i as int).fold_left(Seq::<char>::empty(), |acc: Seq<char>, s: Seq<char>| acc + s),
        decreases parts.len() - i,
    {
        crate::text::append_chars(&mut out, chars_of(parts[i]).as_slice());
        proof {
            assert(pv.take(i + 1).drop_last() =~= pv.take(i as int));
            assert(pv.take(i + 1).last() == parts@[i as int]@);
        }
        i = i + 1;
    }
    assert(pv.take(i as int) =~= pv);
    string_of(out.as_slice())
}

/// The agent and provider (positions) that run one analysis, or the message saying
/// why it cannot run (see `single_agent_outcome`).
pub fn select_single_agent(
    agent_type: &str,
    bindings: &Vec<(TaskType, String)>,
    agents: &Vec<AgentEntry>,
    providers: &Vec<ProviderConfig>,
) -> (res: Result<(usize, usize), String>)
    ensures
        match single_agent_outcome(bindings@, agents@, providers@, agent_type@) {
            Ok(r) => res matches Ok(q) && q.0 as int == r.0 && q.1 as int == r.1,
            Err(m) => res matches Err(e) && e@ == m,
        },
{
    let t = match TaskType::from_analysis_type(agent_type) {
        Some(t) => t,
        None => {
            let parts = vec!["Unknown agent type: ", agent_type];
            let m = concat(&parts);
            proof {
                reveal_with_fuel(Seq::fold_left, 3);
                assert(parts@.map_values(|s: &str| s@) =~= seq!["Unknown agent type: "@, agent_type@]);
            }
            return Err(m);
        },
    };
    let aid = match bound_agent_of(bindings, t) {
        Some(a) => a,
        None => {
            let parts = vec!["No task binding found for ", agent_type];
            let m = concat(&parts);
            proof {
                reveal_with_fuel(Seq::fold_left, 3);
                assert(parts@.map_values(|s: &str| s@) =~= seq!["No task binding found for "@, agent_type@]);
            }
            return Err(m);
        },
    };
    let a = match enabled_agent_of(agents, aid.as_str()) {
        Some(a) => a,
        None => {
            let parts = vec!["Agent ", aid.as_str(), " not found or disabled"];
            let m = concat(&parts);
            proof {
                reveal_with_fuel(Seq::fold_left, 4);
                assert(parts@.map_values(|s: &str| s@) =~= seq!["Agent "@, aid@, " not found or disabled"@]);
            }
            return Err(m);
        },
    };
    let p = match provider_of(providers, agents[a].provider_id.as_str()) {
        Some(p) => p,
        None => {
            let parts = vec!["Provider not found for agent ", aid.as_str()];
            let m = concat(&parts);
            proof {
                reveal_with_fuel(Seq::fold_left, 3);
                assert(parts@.map_values(|s: &str| s@) =~= seq!["Provider not found for agent "@, aid@]);
            }
            return Err(m);
        },
    };
    if !is_usable(providers[p].base_url.as_str()) {
        let parts = vec![
            "Provider ",
            providers[p].id.as_str(),
            " has invalid base_url: '",
            providers[p].base_url.as_str(),
            "'. Please configure a valid URL in settings.",
        ];
        let m = concat(&parts);
        proof {
            reveal_with_fuel(Seq::fold_left, 6);
            assert(parts@.map_values(|s: &str| s@) =~= seq![
                "Provider "@,
                providers@[p as int].id@,
                " has invalid base_url: '"@,
                providers@[p as int].base_url@,
                "'. Please configure a valid URL in settings."@,
            ]);
        }
        return Err(m);
    }
    if !is_usable(agents[a].model.as_str()) {
        let parts = vec![
            "Agent ",
            agents[a].id.as_str(),
            " has invalid model: '",
            agents[a].model.as_str(),
            "'. Please configure a valid model in settings.",
        ];
        let m = concat(&parts);
        proof {
            reveal_with_fuel(Seq::fold_left, 6);
            assert(parts@.map_values(|s: &str| s@) =~= seq![
                "Agent "@,
                agents@[a as int].id@,
                " has invalid model: '"@,
                agents@[a as int].model@,
                "'. Please configure a valid model in settings."@,
            ]);
        }
        return Err(m);
    }
    Ok((a, p))
}


/// The agent types, in order, that name an analysis (`technique`, `character`,
/// `setting`, `event`, `style`).
pub open spec fn supported_types(ts: Seq<Seq<char>>) -> Seq<Seq<char>>
    decreases ts.len(),
{
    if ts.len() == 0 {
        ts
    } else {
        let prev = supported_types(ts.drop_last());
        if task_type_of(ts.last()) is Some {
            prev.push(ts.last())
        } else {
            prev
        }
    }
}

/// Keeps the agent types of a batch analysis that name an analysis, in order;
/// refuses a batch where none does.
pub fn supported_agent_types(types: &Vec<String>) -> (res: Result<Vec<String>, String>)
    ensures
        match res {
            Ok(v) => texts(v@) == supported_types(texts(types@)) && v@.len() > 0,
            Err(m) => supported_types(texts(types@)).len() == 0 && m@ == "No valid agent types specified"@,
        },
{
    let mut kept: Vec<String> = Vec::new();
    let mut i: usize = 0;
    while i < types.len()
        invariant
            i <= types@.len(),
            texts(kept@) == supported_types(texts(types@).take(i as int)),
        decreases types.len() - i,
    {
        proof {
            assert(texts(types@).take(i + 1).drop_last() =~= texts(types@).take(i as int));
            assert(texts(types@).take(i + 1).last() == types@[i as int]@);
        }
        if TaskType::from_analysis_type(types[i].as_str()).is_some() {
            let ghost before = kept@;
            kept.push(string_of(chars_of(types[i].as_str()).as_slice()));
            proof {
                assert(texts(kept@) =~= texts(before).push(types@[i as int]@));
            }
        }
        i = i + 1;
    }
    assert(texts(types@).take(i as int) =~= texts(types@));
    if kept.len() == 0 {
        Err(String::from_str("No valid agent types specified"))
    } else {
        Ok(kept)
    }
}

} // verus!

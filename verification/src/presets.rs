//! What the command-line tool decides for presets: which preset a reference
//! names, which agents a deployment reaches, and how far a preset is
//! deployed to each agent.
use crate::cli::{err_view, index_result_view, indices_view, pair_present, pair_present_in};
use crate::error::{AppError, ErrorKind};
use crate::remote::contains_key;
use crate::skills::SkillTargetRecord;
use crate::sorting::{sorted_unique, strictly_sorted};
use crate::text::{clone_opt, count_where, first_where, lemma_first_where, lemma_first_where_is, push_str, str_eq, strs_view, trim, trimmed_str, opt_view};
use vstd::prelude::*;

verus! {

/// A preset as the store records it.
pub struct ScenarioRecord {
    pub id: String,
    pub name: String,
    pub description: Option<String>,
    pub icon: Option<String>,
    pub sort_order: i32,
    pub created_at: i64,
    pub updated_at: i64,
}

/// What the command-line tool shows of a preset.
pub struct PresetInfo {
    pub id: String,
    pub name: String,
    pub description: Option<String>,
    pub icon: Option<String>,
    pub sort_order: i32,
    pub skill_count: usize,
    pub active: bool,
}

/// An optional text as an optional character sequence.
pub open spec fn opt_str(s: Option<&str>) -> Option<Seq<char>> {
    match s {
        Some(t) => Some(t@),
        None => None,
    }
}

/// Whether `reference` names the preset: by its id or its name.
pub open spec fn names_preset(s: ScenarioRecord, reference: Seq<char>) -> bool {
    s.id@ == reference || s.name@ == reference
}

/// The test of naming a preset, as a predicate.
pub open spec fn names_pred(reference: Seq<char>) -> spec_fn(ScenarioRecord) -> bool {
    |s: ScenarioRecord| names_preset(s, reference)
}

/// The test of having the id `id`, as a predicate.
pub open spec fn has_id_pred(id: Seq<char>) -> spec_fn(ScenarioRecord) -> bool {
    |s: ScenarioRecord| s.id@ == id
}

/// What resolving a preset reference gives: `current` names the active
/// preset; another reference the one preset whose id or name it is. Else
/// the error's kind and message.
pub open spec fn spec_resolve_scenario(
    scenarios: Seq<ScenarioRecord>,
    active: Option<Seq<char>>,
    reference: Seq<char>,
) -> Result<int, (ErrorKind, Seq<char>)> {
    if reference == "current"@ {
        match active {
            None => Err((ErrorKind::NotFound, "no active preset"@)),
            Some(a) => {
                let f = first_where(scenarios, has_id_pred(a));
                if f < scenarios.len() {
                    Ok(f)
                } else {
                    Err((ErrorKind::NotFound, "active preset not found"@))
                }
            },
        }
    } else {
        let c = count_where(scenarios, names_pred(reference));
        if c == 1 {
            Ok(first_where(scenarios, names_pred(reference)))
        } else if c == 0 {
            Err((ErrorKind::NotFound, "preset not found: "@ + reference))
        } else {
            Err((ErrorKind::InvalidInput, "preset reference is ambiguous: "@ + reference))
        }
    }
}

/// The index of the first preset with the id `id`, if any.
fn find_scenario(scenarios: &Vec<ScenarioRecord>, id: &str) -> (r: Option<usize>)
    ensures
        match r {
            Some(k) => k == first_where(scenarios@, has_id_pred(id@)) && k < scenarios.len(),
            None => first_where(scenarios@, has_id_pred(id@)) == scenarios.len(),
        },
{
    let ghost p = has_id_pred(id@);
    let mut k: usize = 0;
    while k < scenarios.len()
        invariant
            k <= scenarios.len(),
            p == has_id_pred(id@),
            forall|t: int| 0 <= t < k ==> !p(#[trigger] scenarios@[t]),
        decreases scenarios.len() - k,
    {
        if str_eq(scenarios[k].id.as_str(), id) {
            proof {
                lemma_first_where_is(scenarios@, p, k as int);
            }
            return Some(k);
        }
        k += 1;
    }
    proof {
        lemma_first_where_is(scenarios@, p, k as int);
    }
    None
}

/// The preset that `reference` names (see [`spec_resolve_scenario`]), by
/// its index in `scenarios`; `active` is the id of the active preset.
pub fn resolve_scenario(scenarios: &Vec<ScenarioRecord>, active: Option<&str>, reference: &str) -> (r: Result<usize, AppError>)
    ensures
        index_result_view(r) == spec_resolve_scenario(scenarios@, opt_str(active), reference@),
        r matches Ok(i) ==> i < scenarios.len(),
{
    if str_eq(reference, "current") {
        return match active {
            None => Err(AppError::not_found("no active preset")),
            Some(a) => match find_scenario(scenarios, a) {
                Some(k) => Ok(k),
                None => Err(AppError::not_found("active preset not found")),
            },
        };
    }
    let ghost p = names_pred(reference@);
    let mut count: usize = 0;
    let mut first: usize = 0;
    let mut i: usize = 0;
    while i < scenarios.len()
        invariant
            i <= scenarios.len(),
            p == names_pred(reference@),
            count as nat == count_where(scenarios@.take(i as int), p),
            count <= i,
            first as int == first_where(scenarios@.take(i as int), p),
        decreases scenarios.len() - i,
    {
        assert(scenarios@.take(i as int + 1).drop_last() =~= scenarios@.take(i as int));
        proof {
            lemma_first_where(scenarios@.take(i as int), p);
        }
        let s = &scenarios[i];
        if str_eq(s.id.as_str(), reference) || str_eq(s.name.as_str(), reference) {
            count = count + 1;
        } else if first == i {
            first = i + 1;
        }
        i = i + 1;
    }
    assert(scenarios@.take(scenarios.len() as int) =~= scenarios@);
    proof {
        lemma_first_where(scenarios@, p);
    }
    if count == 1 {
        Ok(first)
    } else if count == 0 {
        let mut msg = "preset not found: ".to_string();
        push_str(&mut msg, reference);
        Err(AppError { kind: ErrorKind::NotFound, message: msg })
    } else {
        let mut msg = "preset reference is ambiguous: ".to_string();
        push_str(&mut msg, reference);
        Err(AppError { kind: ErrorKind::InvalidInput, message: msg })
    }
}

/// The test of having another id than `id`, as a predicate.
pub open spec fn other_id_pred(id: Seq<char>) -> spec_fn(ScenarioRecord) -> bool {
    |s: ScenarioRecord| s.id@ != id
}

/// The preset that becomes active when the active preset `deactivated_id`
/// is closed: the first other preset, if there is one.
pub fn replacement_preset_after_deactivate(scenarios: &Vec<ScenarioRecord>, deactivated_id: &str) -> (r: Option<usize>)
    ensures
        match r {
            Some(k) => k == first_where(scenarios@, other_id_pred(deactivated_id@)) && k < scenarios.len(),
            None => first_where(scenarios@, other_id_pred(deactivated_id@)) == scenarios.len(),
        },
{
    let ghost p = other_id_pred(deactivated_id@);
    let mut k: usize = 0;
    while k < scenarios.len()
        invariant
            k <= scenarios.len(),
            p == other_id_pred(deactivated_id@),
            forall|t: int| 0 <= t < k ==> !p(#[trigger] scenarios@[t]),
        decreases scenarios.len() - k,
    {
        if !str_eq(scenarios[k].id.as_str(), deactivated_id) {
            proof {
                lemma_first_where_is(scenarios@, p, k as int);
            }
            return Some(k);
        }
        k += 1;
    }
    proof {
        lemma_first_where_is(scenarios@, p, k as int);
    }
    None
}

/// How many `(preset id, skill id)` memberships name the preset `id`.
pub open spec fn member_count(memberships: Seq<(String, String)>, id: Seq<char>) -> nat {
    count_where(memberships, |m: (String, String)| m.0@ == id)
}

/// What the command-line tool shows of a preset: its fields, how many skills
/// it holds, and whether it is the active one.
pub fn preset_info(scenario: &ScenarioRecord, memberships: &Vec<(String, String)>, active: Option<&str>) -> (r: PresetInfo)
    ensures
        r.id@ == scenario.id@,
        r.name@ == scenario.name@,
        crate::text::opt_view(r.description) == crate::text::opt_view(scenario.description),
        crate::text::opt_view(r.icon) == crate::text::opt_view(scenario.icon),
        r.sort_order == scenario.sort_order,
        r.skill_count as nat == member_count(memberships@, scenario.id@),
        r.active == (opt_str(active) == Some(scenario.id@)),
{
    let ghost p = |m: (String, String)| m.0@ == scenario.id@;
    let mut count: usize = 0;
    let mut i: usize = 0;
    while i < memberships.len()
        invariant
            i <= memberships.len(),
            p == (|m: (String, String)| m.0@ == scenario.id@),
            count as nat == count_where(memberships@.take(i as int), p),
            count <= i,
        decreases memberships.len() - i,
    {
        assert(memberships@.take(i as int + 1).drop_last() =~= memberships@.take(i as int));
        if str_eq(memberships[i].0.as_str(), scenario.id.as_str()) {
            count += 1;
        }
        i += 1;
    }
    assert(memberships@.take(memberships.len() as int) =~= memberships@);
    let is_active = match active {
        Some(a) => str_eq(a, scenario.id.as_str()),
        None => false,
    };
    PresetInfo {
        id: scenario.id.clone(),
        name: scenario.name.clone(),
        description: clone_opt(&scenario.description),
        icon: clone_opt(&scenario.icon),
        sort_order: scenario.sort_order,
        skill_count: count,
        active: is_active,
    }
}


/// What the agent list reports of an agent.
pub struct ToolInfo {
    pub key: String,
    pub display_name: String,
    pub installed: bool,
    pub enabled: bool,
    /// Whether it is a coding agent (the category presets deploy to).
    pub coding: bool,
}

/// Whether a deployment without named agents reaches the agent: installed,
/// enabled, and a coding agent.
pub open spec fn available_coding(t: ToolInfo) -> bool {
    t.installed && t.enabled && t.coding
}

/// The test of having the key `key`, as a predicate.
pub open spec fn key_pred(key: Seq<char>) -> spec_fn(ToolInfo) -> bool {
    |t: ToolInfo| t.key@ == key
}

/// Whether one of the agents at `picked` has the key `key`.
pub open spec fn key_taken(infos: Seq<ToolInfo>, picked: Seq<int>, key: Seq<char>) -> bool {
    exists|j: int| 0 <= j < picked.len() && (#[trigger] infos[picked[j]]).key@ == key
}

/// What selecting the named agents in turn gives: the indices of the agents
/// they name, each agent once, in the order first named; or the error of
/// the first key that names no agent, or (when `require_available`) names
/// one that is not installed or is disabled.
pub open spec fn spec_select_agents(
    infos: Seq<ToolInfo>,
    requested: Seq<Seq<char>>,
    require_available: bool,
) -> Result<Seq<int>, (ErrorKind, Seq<char>)>
    decreases requested.len(),
{
    if requested.len() == 0 {
        Ok(seq![])
    } else {
        match spec_select_agents(infos, requested.drop_last(), require_available) {
            Err(e) => Err(e),
            Ok(picked) => {
                let key = requested.last();
                let f = first_where(infos, key_pred(key));
                if f >= infos.len() {
                    Err((ErrorKind::NotFound, "unknown agent: "@ + key))
                } else if require_available && !infos[f].installed {
                    Err((ErrorKind::InvalidInput, "agent is not installed: "@ + infos[f].display_name@))
                } else if require_available && !infos[f].enabled {
                    Err((ErrorKind::InvalidInput, "agent is disabled: "@ + infos[f].display_name@))
                } else if key_taken(infos, picked, infos[f].key@) {
                    Ok(picked)
                } else {
                    Ok(picked.push(f))
                }
            },
        }
    }
}

proof fn lemma_select_error_persists(infos: Seq<ToolInfo>, requested: Seq<Seq<char>>, require_available: bool, k: int)
    requires
        0 <= k <= requested.len(),
        spec_select_agents(infos, requested.take(k), require_available) is Err,
    ensures
        spec_select_agents(infos, requested, require_available) == spec_select_agents(infos, requested.take(k), require_available),
    decreases requested.len(),
{
    if k == requested.len() {
        assert(requested.take(k) =~= requested);
    } else {
        assert(requested.drop_last().take(k) =~= requested.take(k));
        lemma_select_error_persists(infos, requested.drop_last(), require_available, k);
    }
}


/// Selecting named agents never yields the same agent twice: the agents it
/// yields have distinct keys.
pub proof fn lemma_selected_agents_distinct(infos: Seq<ToolInfo>, requested: Seq<Seq<char>>, require_available: bool)
    ensures
        spec_select_agents(infos, requested, require_available) matches Ok(picked) ==> forall|a: int, b: int|
            0 <= a < b < picked.len() ==> (#[trigger] infos[picked[a]]).key@ != (#[trigger] infos[picked[b]]).key@,
    decreases requested.len(),
{
    if requested.len() > 0 {
        lemma_selected_agents_distinct(infos, requested.drop_last(), require_available);
        match spec_select_agents(infos, requested.drop_last(), require_available) {
            Ok(prev) => {
                let f = first_where(infos, key_pred(requested.last()));
                if f < infos.len() && !(require_available && !infos[f].installed)
                    && !(require_available && !infos[f].enabled) && !key_taken(infos, prev, infos[f].key@) {
                    let picked = prev.push(f);
                    assert forall|a: int, b: int| 0 <= a < b < picked.len()
                        implies (#[trigger] infos[picked[a]]).key@ != (#[trigger] infos[picked[b]]).key@ by {
                        assert(picked[a] == prev[a]);
                        if b == prev.len() {
                            if infos[prev[a]].key@ == infos[f].key@ {
                                assert(key_taken(infos, prev, infos[f].key@));
                            }
                        } else {
                            assert(picked[b] == prev[b]);
                        }
                    }
                }
            },
            Err(_) => {},
        }
    }
}

/// Selecting agents for a removal never names an agent twice.
pub proof fn lemma_removal_keys_distinct(
    known: Seq<Seq<char>>,
    requested: Seq<Seq<char>>,
    skill_ids: Seq<Seq<char>>,
    targets: Seq<SkillTargetRecord>,
)
    ensures
        spec_removal_keys(known, requested, skill_ids, targets) matches Ok(picked) ==> picked.no_duplicates(),
    decreases requested.len(),
{
    if requested.len() > 0 {
        lemma_removal_keys_distinct(known, requested.drop_last(), skill_ids, targets);
        match spec_removal_keys(known, requested.drop_last(), skill_ids, targets) {
            Ok(prev) => {
                let key = requested.last();
                if !prev.contains(key) {
                    let picked = prev.push(key);
                    assert forall|a: int, b: int| 0 <= a < b < picked.len() implies picked[a] != picked[b] by {
                        assert(picked[a] == prev[a]);
                        if b == prev.len() {
                            if prev[a] == key {
                                assert(prev.contains(key));
                            }
                        } else {
                            assert(picked[b] == prev[b]);
                        }
                    }
                }
            },
            Err(_) => {},
        }
    }
}

/// The index of the first agent with the key `key`, if any.
fn find_agent(infos: &Vec<ToolInfo>, key: &str) -> (r: Option<usize>)
    ensures
        match r {
            Some(k) => k == first_where(infos@, key_pred(key@)) && k < infos.len(),
            None => first_where(infos@, key_pred(key@)) == infos.len(),
        },
{
    let ghost p = key_pred(key@);
    let mut k: usize = 0;
    while k < infos.len()
        invariant
            k <= infos.len(),
            p == key_pred(key@),
            forall|t: int| 0 <= t < k ==> !p(#[trigger] infos@[t]),
        decreases infos.len() - k,
    {
        if str_eq(infos[k].key.as_str(), key) {
            proof {
                lemma_first_where_is(infos@, p, k as int);
            }
            return Some(k);
        }
        k += 1;
    }
    proof {
        lemma_first_where_is(infos@, p, k as int);
    }
    None
}

/// The agents a deployment reaches, by their indices in `infos`: without
/// named agents, every installed and enabled coding agent in order; else
/// the named ones (see [`spec_select_agents`]).
pub fn select_preset_agents(infos: &Vec<ToolInfo>, requested: &Vec<String>, require_available: bool) -> (r: Result<Vec<usize>, AppError>)
    ensures
        requested.len() == 0 ==> (r matches Ok(v) && indices_view(v@) == Seq::new(infos.len() as nat, |k: int| k).filter(
            |k: int| available_coding(infos@[k]),
        )),
        requested.len() > 0 ==> match spec_select_agents(infos@, crate::text::strs_view(requested@), require_available) {
            Ok(picked) => (r matches Ok(v) && indices_view(v@) == picked),
            Err(e) => (r matches Err(x) && err_view(x) == e),
        },
        r matches Ok(v) ==> forall|j: int| 0 <= j < v.len() ==> v@[j] < infos.len(),
{
    if requested.len() == 0 {
        let ghost keep = |k: int| available_coding(infos@[k]);
        let mut out: Vec<usize> = Vec::new();
        let mut k: usize = 0;
        while k < infos.len()
            invariant
                k <= infos.len(),
                keep == (|k: int| available_coding(infos@[k])),
                indices_view(out@) == Seq::new(k as nat, |x: int| x).filter(keep),
                forall|j: int| 0 <= j < out.len() ==> out@[j] < k,
            decreases infos.len() - k,
        {
            let ghost before = out@;
            proof {
                reveal(Seq::filter);
                assert(Seq::new(k as nat + 1, |x: int| x).drop_last() =~= Seq::new(k as nat, |x: int| x));
            }
            if infos[k].installed && infos[k].enabled && infos[k].coding {
                out.push(k);
                assert(indices_view(out@) =~= indices_view(before).push(k as int));
            }
            k += 1;
        }
        return Ok(out);
    }
    let ghost reqs = crate::text::strs_view(requested@);
    let mut picked: Vec<usize> = Vec::new();
    let mut i: usize = 0;
    assert(reqs.take(0) =~= Seq::<Seq<char>>::empty());
    assert(indices_view(picked@) =~= Seq::<int>::empty());
    while i < requested.len()
        invariant
            i <= requested.len(),
            reqs == crate::text::strs_view(requested@),
            spec_select_agents(infos@, reqs.take(i as int), require_available) == Ok::<Seq<int>, (ErrorKind, Seq<char>)>(indices_view(picked@)),
            forall|j: int| 0 <= j < picked.len() ==> picked@[j] < infos.len(),
        decreases requested.len() - i,
    {
        assert(reqs.take(i as int + 1).drop_last() =~= reqs.take(i as int));
        assert(reqs.take(i as int + 1).last() == requested@[i as int]@);
        let key = requested[i].as_str();
        let f = match find_agent(infos, key) {
            Some(f) => f,
            None => {
                proof {
                    lemma_select_error_persists(infos@, reqs, require_available, i as int + 1);
                }
                let mut msg = "unknown agent: ".to_string();
                push_str(&mut msg, key);
                return Err(AppError { kind: ErrorKind::NotFound, message: msg });
            },
        };
        if require_available && !infos[f].installed {
            proof {
                lemma_select_error_persists(infos@, reqs, require_available, i as int + 1);
            }
            let mut msg = "agent is not installed: ".to_string();
            push_str(&mut msg, infos[f].display_name.as_str());
            return Err(AppError { kind: ErrorKind::InvalidInput, message: msg });
        }
        if require_available && !infos[f].enabled {
            proof {
                lemma_select_error_persists(infos@, reqs, require_available, i as int + 1);
            }
            let mut msg = "agent is disabled: ".to_string();
            push_str(&mut msg, infos[f].display_name.as_str());
            return Err(AppError { kind: ErrorKind::InvalidInput, message: msg });
        }
        let mut taken = false;
        let mut j: usize = 0;
        while j < picked.len()
            invariant
                j <= picked.len(),
                f < infos.len(),
                forall|t: int| 0 <= t < picked.len() ==> picked@[t] < infos.len(),
                taken == exists|t: int| 0 <= t < j && (#[trigger] infos@[indices_view(picked@)[t]]).key@ == infos@[f as int].key@,
            decreases picked.len() - j,
        {
            let p = picked[j];
            if str_eq(infos[p].key.as_str(), infos[f].key.as_str()) {
                taken = true;
            }
            proof {
                if infos@[p as int].key@ == infos@[f as int].key@ {
                    assert(infos@[indices_view(picked@)[j as int]].key@ == infos@[f as int].key@);
                }
            }
            j = j + 1;
        }
        if !taken {
            let ghost before = picked@;
            picked.push(f);
            assert(indices_view(picked@) =~= indices_view(before).push(f as int));
        }
        i = i + 1;
    }
    assert(reqs.take(requested.len() as int) =~= reqs);
    Ok(picked)
}


/// Whether target `t` deploys one of `skill_ids` to the agent `key`.
pub open spec fn deploys_to(t: SkillTargetRecord, skill_ids: Seq<Seq<char>>, key: Seq<char>) -> bool {
    t.tool@ == key && skill_ids.contains(t.skill_id@)
}

/// Whether one of `targets` deploys one of `skill_ids` to the agent `key`.
pub open spec fn deployed_key(targets: Seq<SkillTargetRecord>, skill_ids: Seq<Seq<char>>, key: Seq<char>) -> bool {
    exists|k: int| 0 <= k < targets.len() && deploys_to(#[trigger] targets[k], skill_ids, key)
}

/// What selecting the named agents for a removal gives: each key once, in
/// the order first named; or the error of the first key that names neither
/// a known agent nor one the skills are deployed to.
pub open spec fn spec_removal_keys(
    known: Seq<Seq<char>>,
    requested: Seq<Seq<char>>,
    skill_ids: Seq<Seq<char>>,
    targets: Seq<SkillTargetRecord>,
) -> Result<Seq<Seq<char>>, (ErrorKind, Seq<char>)>
    decreases requested.len(),
{
    if requested.len() == 0 {
        Ok(seq![])
    } else {
        match spec_removal_keys(known, requested.drop_last(), skill_ids, targets) {
            Err(e) => Err(e),
            Ok(picked) => {
                let key = requested.last();
                if !known.contains(key) && !deployed_key(targets, skill_ids, key) {
                    Err((ErrorKind::NotFound, "unknown agent: "@ + key))
                } else if picked.contains(key) {
                    Ok(picked)
                } else {
                    Ok(picked.push(key))
                }
            },
        }
    }
}

proof fn lemma_removal_error_persists(
    known: Seq<Seq<char>>,
    requested: Seq<Seq<char>>,
    skill_ids: Seq<Seq<char>>,
    targets: Seq<SkillTargetRecord>,
    k: int,
)
    requires
        0 <= k <= requested.len(),
        spec_removal_keys(known, requested.take(k), skill_ids, targets) is Err,
    ensures
        spec_removal_keys(known, requested, skill_ids, targets) == spec_removal_keys(known, requested.take(k), skill_ids, targets),
    decreases requested.len(),
{
    if k == requested.len() {
        assert(requested.take(k) =~= requested);
    } else {
        assert(requested.drop_last().take(k) =~= requested.take(k));
        lemma_removal_error_persists(known, requested.drop_last(), skill_ids, targets, k);
    }
}

/// Whether one of `targets` deploys one of `skill_ids` to the agent `key`
/// (see [`deployed_key`]).
fn is_deployed_key(targets: &Vec<SkillTargetRecord>, skill_ids: &Vec<String>, key: &str) -> (r: bool)
    ensures
        r == deployed_key(targets@, strs_view(skill_ids@), key@),
{
    let mut k: usize = 0;
    while k < targets.len()
        invariant
            k <= targets.len(),
            forall|t: int| 0 <= t < k ==> !deploys_to(#[trigger] targets@[t], strs_view(skill_ids@), key@),
        decreases targets.len() - k,
    {
        if str_eq(targets[k].tool.as_str(), key) && contains_key(skill_ids, targets[k].skill_id.as_str()) {
            assert(deploys_to(targets@[k as int], strs_view(skill_ids@), key@));
            return true;
        }
        k += 1;
    }
    false
}

/// The agents a removal reaches, by key: without named agents, every agent
/// that one of the skills is deployed to, sorted and each once; else the
/// named ones (see [`spec_removal_keys`]); `known_keys` are the keys of the
/// agents the tool knows.
pub fn select_agent_keys_for_removal(
    known_keys: &Vec<String>,
    requested: &Vec<String>,
    skill_ids: &Vec<String>,
    targets: &Vec<SkillTargetRecord>,
) -> (r: Result<Vec<String>, AppError>)
    ensures
        requested.len() == 0 ==> (r matches Ok(v) && strictly_sorted(strs_view(v@))
            && strs_view(v@).to_set() == Set::new(|key: Seq<char>| deployed_key(targets@, strs_view(skill_ids@), key))),
        requested.len() > 0 ==> match spec_removal_keys(strs_view(known_keys@), strs_view(requested@), strs_view(skill_ids@), targets@) {
            Ok(picked) => (r matches Ok(v) && strs_view(v@) == picked),
            Err(e) => (r matches Err(x) && err_view(x) == e),
        },
{
    let ghost sk = strs_view(skill_ids@);
    if requested.len() == 0 {
        let mut tools: Vec<String> = Vec::new();
        let ghost mut src: Seq<int> = seq![];
        let mut k: usize = 0;
        while k < targets.len()
            invariant
                k <= targets.len(),
                sk == strs_view(skill_ids@),
                src.len() == tools.len(),
                forall|t: int| 0 <= t < tools.len() ==> 0 <= #[trigger] src[t] < k
                    && deploys_to(targets@[src[t]], sk, tools@[t]@),
                forall|t: int| 0 <= t < k && #[trigger] sk.contains(targets@[t].skill_id@)
                    ==> strs_view(tools@).contains(targets@[t].tool@),
            decreases targets.len() - k,
        {
            if contains_key(skill_ids, targets[k].skill_id.as_str()) {
                let ghost before = tools@;
                tools.push(targets[k].tool.clone());
                proof {
                    src = src.push(k as int);
                    assert(strs_view(tools@) =~= strs_view(before).push(targets@[k as int].tool@));
                    assert forall|t: int| 0 <= t < k && #[trigger] sk.contains(targets@[t].skill_id@)
                        implies strs_view(tools@).contains(targets@[t].tool@) by {
                        let x = choose|x: int| 0 <= x < strs_view(before).len() && strs_view(before)[x] == targets@[t].tool@;
                        assert(strs_view(tools@)[x] == targets@[t].tool@);
                    }
                    assert(strs_view(tools@)[before.len() as int] == targets@[k as int].tool@);
                }
            }
            k += 1;
        }
        let keys = sorted_unique(&tools);
        proof {
            let want = Set::new(|key: Seq<char>| deployed_key(targets@, sk, key));
            assert forall|key: Seq<char>| strs_view(tools@).to_set().contains(key) <==> want.contains(key) by {
                if strs_view(tools@).contains(key) {
                    let t = choose|t: int| 0 <= t < strs_view(tools@).len() && strs_view(tools@)[t] == key;
                    assert(deploys_to(targets@[src[t]], sk, key));
                }
                if deployed_key(targets@, sk, key) {
                    let t = choose|t: int| 0 <= t < targets@.len() && deploys_to(#[trigger] targets@[t], sk, key);
                    assert(sk.contains(targets@[t].skill_id@));
                }
            }
            assert(strs_view(tools@).to_set() =~= want);
        }
        return Ok(keys);
    }
    let ghost reqs = strs_view(requested@);
    let ghost known = strs_view(known_keys@);
    let mut picked: Vec<String> = Vec::new();
    let mut i: usize = 0;
    assert(reqs.take(0) =~= Seq::<Seq<char>>::empty());
    assert(strs_view(picked@) =~= Seq::<Seq<char>>::empty());
    while i < requested.len()
        invariant
            i <= requested.len(),
            reqs == strs_view(requested@),
            known == strs_view(known_keys@),
            sk == strs_view(skill_ids@),
            spec_removal_keys(known, reqs.take(i as int), sk, targets@) == Ok::<Seq<Seq<char>>, (ErrorKind, Seq<char>)>(strs_view(picked@)),
        decreases requested.len() - i,
    {
        assert(reqs.take(i as int + 1).drop_last() =~= reqs.take(i as int));
        assert(reqs.take(i as int + 1).last() == requested@[i as int]@);
        let key = requested[i].as_str();
        if !contains_key(known_keys, key) && !is_deployed_key(targets, skill_ids, key) {
            proof {
                lemma_removal_error_persists(known, reqs, sk, targets@, i as int + 1);
            }
            let mut msg = "unknown agent: ".to_string();
            push_str(&mut msg, key);
            return Err(AppError { kind: ErrorKind::NotFound, message: msg });
        }
        if !contains_key(&picked, key) {
            let ghost before = picked@;
            picked.push(requested[i].clone());
            assert(strs_view(picked@) =~= strs_view(before).push(key@));
        }
        i = i + 1;
    }
    assert(reqs.take(requested.len() as int) =~= reqs);
    Ok(picked)
}


/// How far a preset is deployed to one agent.
pub struct PresetAgentStatus {
    pub key: String,
    pub display_name: String,
    pub deployed: usize,
    pub total: usize,
    pub status: String,
}

/// The test of being deployed (in the `ok` state) to `agent`, as a predicate
/// on skill ids.
pub open spec fn deployed_pred(targets: Seq<SkillTargetRecord>, agent: Seq<char>) -> spec_fn(Seq<char>) -> bool {
    |s: Seq<char>| pair_present(targets, s, agent, true)
}

/// How many of the preset's skills are deployed to `agent`.
pub open spec fn deployed_count(skill_ids: Seq<Seq<char>>, targets: Seq<SkillTargetRecord>, agent: Seq<char>) -> nat {
    count_where(skill_ids, deployed_pred(targets, agent))
}

/// The word for how far a preset is deployed to an agent: `empty` for a
/// preset without skills, else `inactive` (none deployed), `active` (all)
/// or `partial`.
pub open spec fn status_word(deployed: nat, total: nat) -> Seq<char> {
    if total == 0 {
        "empty"@
    } else if deployed == 0 {
        "inactive"@
    } else if deployed == total {
        "active"@
    } else {
        "partial"@
    }
}

/// The display name of the agent `key`: that of the first agent with the
/// key, else the key itself.
pub open spec fn display_name_of(infos: Seq<ToolInfo>, key: Seq<char>) -> Seq<char> {
    let f = first_where(infos, key_pred(key));
    if f < infos.len() {
        infos[f].display_name@
    } else {
        key
    }
}

/// How far the preset with the skills `skill_ids` is deployed to the agent
/// `agent_key`, given the recorded `targets`.
pub fn preset_agent_status(
    infos: &Vec<ToolInfo>,
    skill_ids: &Vec<String>,
    targets: &Vec<SkillTargetRecord>,
    agent_key: &str,
) -> (r: PresetAgentStatus)
    ensures
        r.key@ == agent_key@,
        r.display_name@ == display_name_of(infos@, agent_key@),
        r.deployed as nat == deployed_count(strs_view(skill_ids@), targets@, agent_key@),
        r.total == skill_ids.len(),
        r.deployed <= r.total,
        r.status@ == status_word(r.deployed as nat, r.total as nat),
{
    let ghost sk = strs_view(skill_ids@);
    let ghost p = deployed_pred(targets@, agent_key@);
    let mut deployed: usize = 0;
    let mut i: usize = 0;
    while i < skill_ids.len()
        invariant
            i <= skill_ids.len(),
            sk == strs_view(skill_ids@),
            p == deployed_pred(targets@, agent_key@),
            deployed as nat == count_where(sk.take(i as int), p),
            deployed <= i,
        decreases skill_ids.len() - i,
    {
        assert(sk.take(i as int + 1).drop_last() =~= sk.take(i as int));
        assert(sk.take(i as int + 1).last() == skill_ids@[i as int]@);
        if pair_present_in(targets, skill_ids[i].as_str(), agent_key, true) {
            deployed += 1;
        }
        i += 1;
    }
    assert(sk.take(skill_ids.len() as int) =~= sk);
    let total = skill_ids.len();
    let status = if total == 0 {
        "empty"
    } else if deployed == 0 {
        "inactive"
    } else if deployed == total {
        "active"
    } else {
        "partial"
    };
    let display_name = match find_agent(infos, agent_key) {
        Some(f) => infos[f].display_name.clone(),
        None => agent_key.to_string(),
    };
    PresetAgentStatus {
        key: agent_key.to_string(),
        display_name,
        deployed,
        total,
        status: status.to_string(),
    }
}

/// Whether target `t` is an `ok` deployment of one of `skill_ids`.
pub open spec fn ok_member_target(t: SkillTargetRecord, skill_ids: Seq<Seq<char>>) -> bool {
    t.status@ == "ok"@ && skill_ids.contains(t.skill_id@)
}

/// The agents a preset's status covers when none are named: every
/// installed and enabled coding agent, in order, then each other agent that
/// one of the preset's skills is deployed to, in the order of `targets`.
pub open spec fn spec_status_keys(infos: Seq<ToolInfo>, skill_ids: Seq<Seq<char>>, targets: Seq<SkillTargetRecord>) -> Seq<Seq<char>>
    decreases targets.len(),
{
    if targets.len() == 0 {
        infos.filter(|t: ToolInfo| available_coding(t)).map_values(|t: ToolInfo| t.key@)
    } else {
        let keys = spec_status_keys(infos, skill_ids, targets.drop_last());
        let t = targets.last();
        if ok_member_target(t, skill_ids) && !keys.contains(t.tool@) {
            keys.push(t.tool@)
        } else {
            keys
        }
    }
}

/// The agents a preset's status covers when none are named (see
/// [`spec_status_keys`]).
pub fn default_status_agent_keys(infos: &Vec<ToolInfo>, skill_ids: &Vec<String>, targets: &Vec<SkillTargetRecord>) -> (r: Vec<String>)
    ensures
        strs_view(r@) == spec_status_keys(infos@, strs_view(skill_ids@), targets@),
{
    let ghost sk = strs_view(skill_ids@);
    let ghost keep = |t: ToolInfo| available_coding(t);
    let ghost key_of = |t: ToolInfo| t.key@;
    let mut keys: Vec<String> = Vec::new();
    let mut k: usize = 0;
    while k < infos.len()
        invariant
            k <= infos.len(),
            keep == (|t: ToolInfo| available_coding(t)),
            key_of == (|t: ToolInfo| t.key@),
            strs_view(keys@) == infos@.take(k as int).filter(keep).map_values(key_of),
        decreases infos.len() - k,
    {
        let ghost before = keys@;
        proof {
            reveal(Seq::filter);
            assert(infos@.take(k as int + 1).drop_last() =~= infos@.take(k as int));
        }
        if infos[k].installed && infos[k].enabled && infos[k].coding {
            keys.push(infos[k].key.clone());
            assert(infos@.take(k as int + 1).filter(keep) =~= infos@.take(k as int).filter(keep).push(infos@[k as int]));
            assert(strs_view(keys@) =~= strs_view(before).push(infos@[k as int].key@));
        } else {
            assert(infos@.take(k as int + 1).filter(keep) =~= infos@.take(k as int).filter(keep));
        }
        k += 1;
    }
    assert(infos@.take(infos.len() as int) =~= infos@);
    assert(targets@.take(0) =~= Seq::<SkillTargetRecord>::empty());
    let mut t: usize = 0;
    while t < targets.len()
        invariant
            t <= targets.len(),
            sk == strs_view(skill_ids@),
            strs_view(keys@) == spec_status_keys(infos@, sk, targets@.take(t as int)),
        decreases targets.len() - t,
    {
        assert(targets@.take(t as int + 1).drop_last() =~= targets@.take(t as int));
        assert(targets@.take(t as int + 1).last() == targets@[t as int]);
        let target = &targets[t];
        if str_eq(target.status.as_str(), "ok") && contains_key(skill_ids, target.skill_id.as_str())
            && !contains_key(&keys, target.tool.as_str()) {
            let ghost before = keys@;
            keys.push(target.tool.clone());
            assert(strs_view(keys@) =~= strs_view(before).push(target.tool@));
        }
        t += 1;
    }
    assert(targets@.take(targets.len() as int) =~= targets@);
    keys
}

/// How far the preset with the skills `skill_ids` is deployed to each of
/// `agent_keys`, in order (see [`preset_agent_status`]).
pub fn preset_status_agents(
    infos: &Vec<ToolInfo>,
    skill_ids: &Vec<String>,
    targets: &Vec<SkillTargetRecord>,
    agent_keys: &Vec<String>,
) -> (r: Vec<PresetAgentStatus>)
    ensures
        r.len() == agent_keys.len(),
        forall|j: int| 0 <= j < r.len() ==> {
            let a = #[trigger] r@[j];
            &&& a.key@ == agent_keys@[j]@
            &&& a.display_name@ == display_name_of(infos@, agent_keys@[j]@)
            &&& a.deployed as nat == deployed_count(strs_view(skill_ids@), targets@, agent_keys@[j]@)
            &&& a.total == skill_ids.len()
            &&& a.status@ == status_word(a.deployed as nat, a.total as nat)
        },
{
    let mut out: Vec<PresetAgentStatus> = Vec::new();
    let mut j: usize = 0;
    while j < agent_keys.len()
        invariant
            j <= agent_keys.len(),
            out.len() == j,
            forall|x: int| 0 <= x < out.len() ==> {
                let a = #[trigger] out@[x];
                &&& a.key@ == agent_keys@[x]@
                &&& a.display_name@ == display_name_of(infos@, agent_keys@[x]@)
                &&& a.deployed as nat == deployed_count(strs_view(skill_ids@), targets@, agent_keys@[x]@)
                &&& a.total == skill_ids.len()
                &&& a.status@ == status_word(a.deployed as nat, a.total as nat)
            },
        decreases agent_keys.len() - j,
    {
        let status = preset_agent_status(infos, skill_ids, targets, agent_keys[j].as_str());
        out.push(status);
        j += 1;
    }
    out
}

/// A deployment of a preset needs at least one agent: with none selected it
/// fails with "invalid input".
pub fn check_deployment_agents(deploy: bool, agent_count: usize) -> (r: Result<(), AppError>)
    ensures
        r is Err <==> deploy && agent_count == 0,
        r matches Err(e) ==> e.kind == ErrorKind::InvalidInput && e.message@ == "no enabled, installed coding agents found"@,
{
    if deploy && agent_count == 0 {
        Err(AppError::invalid_input("no enabled, installed coding agents found"))
    } else {
        Ok(())
    }
}


/// The presets as the command-line tool lists them, in order (see
/// [`preset_info`]).
pub fn list_presets(scenarios: &Vec<ScenarioRecord>, memberships: &Vec<(String, String)>, active: Option<&str>) -> (r: Vec<PresetInfo>)
    ensures
        r.len() == scenarios.len(),
        forall|j: int| 0 <= j < r.len() ==> {
            let p = #[trigger] r@[j];
            let s = scenarios@[j];
            &&& p.id@ == s.id@
            &&& p.name@ == s.name@
            &&& opt_view(p.description) == opt_view(s.description)
            &&& opt_view(p.icon) == opt_view(s.icon)
            &&& p.sort_order == s.sort_order
            &&& p.skill_count as nat == member_count(memberships@, s.id@)
            &&& p.active == (opt_str(active) == Some(s.id@))
        },
{
    let mut out: Vec<PresetInfo> = Vec::new();
    let mut j: usize = 0;
    while j < scenarios.len()
        invariant
            j <= scenarios.len(),
            out.len() == j,
            forall|x: int| 0 <= x < out.len() ==> {
                let p = #[trigger] out@[x];
                let s = scenarios@[x];
                &&& p.id@ == s.id@
                &&& p.name@ == s.name@
                &&& opt_view(p.description) == opt_view(s.description)
                &&& opt_view(p.icon) == opt_view(s.icon)
                &&& p.sort_order == s.sort_order
                &&& p.skill_count as nat == member_count(memberships@, s.id@)
                &&& p.active == (opt_str(active) == Some(s.id@))
            },
        decreases scenarios.len() - j,
    {
        let info = preset_info(&scenarios[j], memberships, active);
        out.push(info);
        j += 1;
    }
    out
}

/// The test of being the active preset, as a predicate.
pub open spec fn active_pred() -> spec_fn(PresetInfo) -> bool {
    |p: PresetInfo| p.active
}

/// The active preset among `presets`: the first marked active, if any.
pub fn current_preset(presets: &Vec<PresetInfo>) -> (r: Option<usize>)
    ensures
        match r {
            Some(k) => k == first_where(presets@, active_pred()) && k < presets.len(),
            None => first_where(presets@, active_pred()) == presets.len(),
        },
{
    let mut k: usize = 0;
    while k < presets.len()
        invariant
            k <= presets.len(),
            forall|t: int| 0 <= t < k ==> !active_pred()(#[trigger] presets@[t]),
        decreases presets.len() - k,
    {
        if presets[k].active {
            proof {
                lemma_first_where_is(presets@, active_pred(), k as int);
            }
            return Some(k);
        }
        k += 1;
    }
    proof {
        lemma_first_where_is(presets@, active_pred(), k as int);
    }
    None
}

/// An update of a preset must change at least one of its name, description
/// and icon: else it fails with "invalid input".
pub fn check_preset_update(name: &Option<String>, description: &Option<String>, icon: &Option<String>) -> (r: Result<(), AppError>)
    ensures
        r is Err <==> (name is None && description is None && icon is None),
        r matches Err(e) ==> e.kind == ErrorKind::InvalidInput
            && e.message@ == "pass at least one of --name, --description, or --icon"@,
{
    if name.is_none() && description.is_none() && icon.is_none() {
        Err(AppError::invalid_input("pass at least one of --name, --description, or --icon"))
    } else {
        Ok(())
    }
}

/// The description or icon a preset has after an update: a blank new value
/// clears it, another new value replaces it, and without one it stays.
pub open spec fn next_optional(value: Option<Seq<char>>, current: Option<Seq<char>>) -> Option<Seq<char>> {
    match value {
        Some(v) => if trim(v).len() == 0 {
            None
        } else {
            Some(v)
        },
        None => current,
    }
}

/// The description or icon a preset has after an update (see
/// [`next_optional`]).
pub fn next_optional_field(value: Option<String>, current: &Option<String>) -> (r: Option<String>)
    ensures
        opt_view(r) == next_optional(opt_view(value), opt_view(*current)),
{
    match value {
        Some(v) => {
            let t = trimmed_str(v.as_str());
            if t.as_str().is_empty() {
                None
            } else {
                Some(v)
            }
        },
        None => clone_opt(current),
    }
}


/// Which preset an install syncs the new skill to.
pub enum SyncTarget {
    /// None.
    NoSync,
    /// The active preset, if there is one.
    Active,
    /// The preset a reference names.
    Specific(String),
}

/// The id of the preset an install syncs to (see [`SyncTarget`]), or the
/// error of resolving the named preset.
pub fn resolve_sync_target(target: &SyncTarget, scenarios: &Vec<ScenarioRecord>, active: Option<&str>) -> (r: Result<Option<String>, AppError>)
    ensures
        match target {
            SyncTarget::NoSync => (r matches Ok(x) && x is None),
            SyncTarget::Active => (r matches Ok(x) && opt_view(x) == opt_str(active)),
            SyncTarget::Specific(reference) => match spec_resolve_scenario(scenarios@, opt_str(active), reference@) {
                Ok(i) => (r matches Ok(x) && opt_view(x) == Some(scenarios@[i].id@)),
                Err(e) => (r matches Err(x) && err_view(x) == e),
            },
        },
{
    match target {
        SyncTarget::NoSync => Ok(None),
        SyncTarget::Active => match active {
            Some(a) => Ok(Some(a.to_string())),
            None => Ok(None),
        },
        SyncTarget::Specific(reference) => match resolve_scenario(scenarios, active, reference.as_str()) {
            Ok(i) => Ok(Some(scenarios[i].id.clone())),
            Err(e) => Err(e),
        },
    }
}

/// The preset a sync acts on: the named one, else the active one; without
/// either the sync fails.
pub open spec fn spec_sync_preset(
    scenarios: Seq<ScenarioRecord>,
    active: Option<Seq<char>>,
    reference: Option<Seq<char>>,
) -> Result<int, (ErrorKind, Seq<char>)> {
    match reference {
        Some(x) => spec_resolve_scenario(scenarios, active, x),
        None => match active {
            None => Err((ErrorKind::NotFound, "no active preset; pass --preset"@)),
            Some(a) => {
                let f = first_where(scenarios, has_id_pred(a));
                if f < scenarios.len() {
                    Ok(f)
                } else {
                    Err((ErrorKind::NotFound, "active preset not found"@))
                }
            },
        },
    }
}

/// The preset a sync acts on, by index (see [`spec_sync_preset`]).
pub fn sync_preset(scenarios: &Vec<ScenarioRecord>, active: Option<&str>, reference: Option<&str>) -> (r: Result<usize, AppError>)
    ensures
        index_result_view(r) == spec_sync_preset(scenarios@, opt_str(active), opt_str(reference)),
        r matches Ok(i) ==> i < scenarios.len(),
{
    match reference {
        Some(x) => resolve_scenario(scenarios, active, x),
        None => match active {
            None => Err(AppError::not_found("no active preset; pass --preset")),
            Some(a) => match find_scenario(scenarios, a) {
                Some(k) => Ok(k),
                None => Err(AppError::not_found("active preset not found")),
            },
        },
    }
}

} // verus!

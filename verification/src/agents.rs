//! Agents (the tools that skills are deployed to): their configuration as the
//! UI shows it, and which of them a skill of a preset is deployed to.
use crate::error::{AppError, ErrorKind};
use crate::text::{opt_view, push_str, str_eq, strs_view};
use vstd::prelude::*;

verus! {

/// An agent's configuration as the UI shows it.
pub struct AgentConfigDto {
    pub tool_key: String,
    pub display_name: String,
    pub scenario_id: Option<String>,
    pub scenario_name: Option<String>,
    pub managed: bool,
    pub installed: bool,
    pub effective_skill_count: usize,
    pub extra_pack_count: usize,
}

/// Whether a skill of a preset is deployed to an agent, as the UI shows it.
pub struct SkillToolToggleDto {
    pub tool: String,
    pub display_name: String,
    pub installed: bool,
    pub globally_enabled: bool,
    pub enabled: bool,
}

/// What the agents view knows of an agent: its key, display name and
/// whether it is installed.
pub struct AgentInfo {
    pub key: String,
    pub display_name: String,
    pub installed: bool,
}

/// The name of the first scenario with the given id among `(id, name)` pairs.
pub open spec fn scenario_name_of(scenarios: Seq<(String, String)>, id: Seq<char>) -> Option<Seq<char>>
    decreases scenarios.len(),
{
    if scenarios.len() == 0 {
        None
    } else if scenarios[0].0@ == id {
        Some(scenarios[0].1@)
    } else {
        scenario_name_of(scenarios.drop_first(), id)
    }
}

pub(crate) fn find_scenario_name(scenarios: &[(String, String)], id: &str) -> (r: Option<String>)
    ensures
        opt_view(r) == scenario_name_of(scenarios@, id@),
{
    let mut i: usize = 0;
    assert(scenarios@.skip(0) =~= scenarios@);
    while i < scenarios.len()
        invariant
            i <= scenarios.len(),
            scenario_name_of(scenarios@, id@) == scenario_name_of(scenarios@.skip(i as int), id@),
        decreases scenarios.len() - i,
    {
        assert(scenarios@.skip(i as int)[0] == scenarios@[i as int]);
        assert(scenarios@.skip(i as int).drop_first() =~= scenarios@.skip(i + 1));
        if str_eq(scenarios[i].0.as_str(), id) {
            return Some(scenarios[i].1.clone());
        }
        i += 1;
    }
    None
}

/// An agent's configuration as the UI shows it: the display name of its
/// adapter (its key where it has none), whether it is installed, the name of
/// its scenario, and its counts.
pub fn agent_config_dto(
    tool_key: &str,
    scenario_id: Option<String>,
    managed: bool,
    adapter: Option<&AgentInfo>,
    scenarios: &[(String, String)],
    effective_skill_count: usize,
    extra_pack_count: usize,
) -> (r: AgentConfigDto)
    ensures
        r.tool_key@ == tool_key@,
        r.display_name@ == match adapter {
            Some(a) => a.display_name@,
            None => tool_key@,
        },
        r.installed == match adapter {
            Some(a) => a.installed,
            None => false,
        },
        opt_view(r.scenario_id) == opt_view(scenario_id),
        opt_view(r.scenario_name) == match scenario_id {
            Some(sid) => scenario_name_of(scenarios@, sid@),
            None => None,
        },
        r.managed == managed,
        r.effective_skill_count == effective_skill_count,
        r.extra_pack_count == extra_pack_count,
{
    let scenario_name = match &scenario_id {
        Some(sid) => find_scenario_name(scenarios, sid.as_str()),
        None => None,
    };
    AgentConfigDto {
        tool_key: tool_key.to_string(),
        display_name: match adapter {
            Some(a) => a.display_name.clone(),
            None => tool_key.to_string(),
        },
        scenario_id,
        scenario_name,
        managed,
        installed: match adapter {
            Some(a) => a.installed,
            None => false,
        },
        effective_skill_count,
        extra_pack_count,
    }
}

/// Whether `key` is among `keys`.
fn contains_str(keys: &[String], key: &str) -> (r: bool)
    ensures
        r == strs_view(keys@).contains(key@),
{
    let mut i: usize = 0;
    while i < keys.len()
        invariant
            i <= keys.len(),
            forall|j: int| 0 <= j < i ==> (#[trigger] keys@[j])@ != key@,
        decreases keys.len() - i,
    {
        if str_eq(keys[i].as_str(), key) {
            assert(strs_view(keys@)[i as int] == key@);
            return true;
        }
        i += 1;
    }
    proof {
        if strs_view(keys@).contains(key@) {
            let j = choose|j: int| 0 <= j < keys.len() && strs_view(keys@)[j] == key@;
            assert(keys@[j]@ == key@);
        }
    }
    false
}

/// The agents a skill is deployed to by default: those installed and not
/// disabled, in order.
pub open spec fn default_enabled(adapters: Seq<AgentInfo>, disabled: Seq<Seq<char>>) -> Seq<Seq<char>> {
    adapters.filter(|a: AgentInfo| a.installed && !disabled.contains(a.key@)).map_values(|a: AgentInfo| a.key@)
}

/// The keys of the agents a skill is deployed to by default (see
/// [`default_enabled`]).
pub fn default_enabled_tools(adapters: &[AgentInfo], disabled: &[String]) -> (r: Vec<String>)
    ensures
        strs_view(r@) == default_enabled(adapters@, strs_view(disabled@)),
{
    let ghost keep = |a: AgentInfo| a.installed && !strs_view(disabled@).contains(a.key@);
    let mut out: Vec<String> = Vec::new();
    let mut i: usize = 0;
    proof {
        reveal(Seq::filter);
        assert(adapters@.take(0) =~= Seq::<AgentInfo>::empty());
    }
    while i < adapters.len()
        invariant
            i <= adapters.len(),
            keep == (|a: AgentInfo| a.installed && !strs_view(disabled@).contains(a.key@)),
            strs_view(out@) == adapters@.take(i as int).filter(keep).map_values(|a: AgentInfo| a.key@),
        decreases adapters.len() - i,
    {
        let ghost before = out@;
        proof {
            let t = adapters@.take(i + 1);
            assert(t.drop_last() =~= adapters@.take(i as int));
            assert(t.last() == adapters@[i as int]);
            reveal(Seq::filter);
        }
        let a = &adapters[i];
        if a.installed && !contains_str(disabled, a.key.as_str()) {
            out.push(a.key.clone());
            proof {
                let t = adapters@.take(i + 1);
                assert(t.filter(keep) == adapters@.take(i as int).filter(keep).push(adapters@[i as int]));
                assert(strs_view(out@) =~= strs_view(before).push(adapters@[i as int].key@));
                assert(t.filter(keep).map_values(|a: AgentInfo| a.key@) =~= adapters@.take(i as int).filter(keep).map_values(
                    |a: AgentInfo| a.key@,
                ).push(adapters@[i as int].key@));
                assert(strs_view(out@) =~= t.filter(keep).map_values(|a: AgentInfo| a.key@));
            }
        } else {
            proof {
                let t = adapters@.take(i + 1);
                assert(t.filter(keep) == adapters@.take(i as int).filter(keep));
                assert(strs_view(out@) =~= t.filter(keep).map_values(|a: AgentInfo| a.key@));
            }
        }
        i += 1;
    }
    assert(adapters@.take(adapters.len() as int) =~= adapters@);
    out
}

/// The value the last toggle for `tool` records (the map that the toggles are
/// collected into keeps the last one of each tool).
pub open spec fn last_toggle(toggles: Seq<(String, bool)>, tool: Seq<char>) -> Option<bool>
    decreases toggles.len(),
{
    if toggles.len() == 0 {
        None
    } else if toggles.last().0@ == tool {
        Some(toggles.last().1)
    } else {
        last_toggle(toggles.drop_last(), tool)
    }
}

fn find_last_toggle(toggles: &[(String, bool)], tool: &str) -> (r: Option<bool>)
    ensures
        r == last_toggle(toggles@, tool@),
{
    let mut i: usize = toggles.len();
    assert(toggles@.take(toggles.len() as int) =~= toggles@);
    while i > 0
        invariant
            i <= toggles.len(),
            last_toggle(toggles@, tool@) == last_toggle(toggles@.take(i as int), tool@),
        decreases i,
    {
        assert(toggles@.take(i as int).last() == toggles@[i - 1]);
        assert(toggles@.take(i as int).drop_last() =~= toggles@.take(i - 1));
        if str_eq(toggles[i - 1].0.as_str(), tool) {
            return Some(toggles[i - 1].1);
        }
        i -= 1;
    }
    None
}

/// The toggle of one agent: an agent that is not installed or is disabled
/// everywhere is shown off; otherwise as its recorded toggle says (off where
/// none is recorded).
pub open spec fn toggle_shown(a: AgentInfo, disabled: Seq<Seq<char>>, toggles: Seq<(String, bool)>, t: SkillToolToggleDto) -> bool {
    let globally = !disabled.contains(a.key@);
    &&& t.tool@ == a.key@
    &&& t.display_name@ == a.display_name@
    &&& t.installed == a.installed
    &&& t.globally_enabled == globally
    &&& t.enabled == (a.installed && globally && last_toggle(toggles, a.key@) == Some(true))
}

/// The toggles of a skill of a preset, one per agent, in agent order (see
/// [`toggle_shown`]).
pub fn skill_tool_toggles(adapters: &[AgentInfo], disabled: &[String], toggles: &[(String, bool)]) -> (r: Vec<SkillToolToggleDto>)
    ensures
        r.len() == adapters.len(),
        forall|i: int| 0 <= i < r.len() ==> toggle_shown(adapters@[i], strs_view(disabled@), toggles@, #[trigger] r@[i]),
{
    let mut out: Vec<SkillToolToggleDto> = Vec::new();
    let mut i: usize = 0;
    while i < adapters.len()
        invariant
            i <= adapters.len(),
            out.len() == i,
            forall|k: int| 0 <= k < i ==> toggle_shown(adapters@[k], strs_view(disabled@), toggles@, #[trigger] out@[k]),
        decreases adapters.len() - i,
    {
        let a = &adapters[i];
        let globally = !contains_str(disabled, a.key.as_str());
        let available = a.installed && globally;
        let enabled = if available {
            match find_last_toggle(toggles, a.key.as_str()) {
                Some(v) => v,
                None => false,
            }
        } else {
            false
        };
        out.push(SkillToolToggleDto {
            tool: a.key.clone(),
            display_name: a.display_name.clone(),
            installed: a.installed,
            globally_enabled: globally,
            enabled,
        });
        i += 1;
    }
    out
}

/// Checks a change of a skill's toggle for an agent: the skill must be in the
/// preset and the agent known ("not found"); an agent can only be switched on
/// where it is installed ("not found") and not disabled everywhere ("invalid
/// input").
pub fn check_tool_toggle(
    skill_in_preset: bool,
    adapter: Option<&AgentInfo>,
    tool: &str,
    disabled: &[String],
    enabled: bool,
) -> (r: Result<(), AppError>)
    ensures
        !skill_in_preset ==> (r matches Err(e) && e.kind == ErrorKind::NotFound
            && e.message@ == "Skill is not enabled in this preset"@),
        skill_in_preset && adapter is None ==> (r matches Err(e) && e.kind == ErrorKind::NotFound
            && e.message@ == "Unknown tool: "@ + tool@),
        skill_in_preset ==> match adapter {
            Some(a) => if enabled && !a.installed {
                r matches Err(e) && e.kind == ErrorKind::NotFound && e.message@ == a.display_name@ + " is not installed"@
            } else if enabled && strs_view(disabled@).contains(tool@) {
                r matches Err(e) && e.kind == ErrorKind::InvalidInput && e.message@ == a.display_name@ + " is disabled"@
            } else {
                r is Ok
            },
            None => true,
        },
{
    if !skill_in_preset {
        return Err(AppError::not_found("Skill is not enabled in this preset"));
    }
    let a = match adapter {
        None => {
            let mut msg = "Unknown tool: ".to_string();
            push_str(&mut msg, tool);
            return Err(AppError { kind: ErrorKind::NotFound, message: msg });
        },
        Some(a) => a,
    };
    let globally = !contains_str(disabled, tool);
    if enabled {
        if !a.installed {
            let mut msg = a.display_name.clone();
            push_str(&mut msg, " is not installed");
            return Err(AppError { kind: ErrorKind::NotFound, message: msg });
        }
        if !globally {
            let mut msg = a.display_name.clone();
            push_str(&mut msg, " is disabled");
            return Err(AppError { kind: ErrorKind::InvalidInput, message: msg });
        }
    }
    Ok(())
}

} // verus!

//! Scenarios (presets of skills): their view in the UI, and which
//! deployments switching to a scenario creates, keeps and removes.
use crate::error::{AppError, ErrorKind};
use crate::skills::{join_path, join_path_exec, SkillTargetRecord};
use crate::presets::{has_id_pred, ScenarioRecord};
use crate::text::{clone_opt, first_where, lemma_first_where_is, opt_view, str_eq, strs_view};
use vstd::prelude::*;

verus! {

/// A scenario as the UI shows it.
pub struct ScenarioDto {
    pub id: String,
    pub name: String,
    pub description: Option<String>,
    pub icon: Option<String>,
    pub sort_order: i32,
    pub skill_count: i64,
    pub created_at: i64,
    pub updated_at: i64,
}

/// Fails with "not found" unless a scenario has the given id.
pub fn ensure_scenario_exists(scenario_ids: &[String], scenario_id: &str) -> (r: Result<(), AppError>)
    ensures
        r is Ok <==> strs_view(scenario_ids@).contains(scenario_id@),
        r matches Err(e) ==> e.kind == ErrorKind::NotFound && e.message@ == "Scenario not found"@,
{
    let mut i: usize = 0;
    while i < scenario_ids.len()
        invariant
            i <= scenario_ids.len(),
            forall|j: int| 0 <= j < i ==> (#[trigger] scenario_ids@[j])@ != scenario_id@,
        decreases scenario_ids.len() - i,
    {
        if str_eq(scenario_ids[i].as_str(), scenario_id) {
            assert(strs_view(scenario_ids@)[i as int] == scenario_id@);
            return Ok(());
        }
        i += 1;
    }
    proof {
        if strs_view(scenario_ids@).contains(scenario_id@) {
            let j = choose|j: int| 0 <= j < scenario_ids.len() && strs_view(scenario_ids@)[j] == scenario_id@;
            assert(scenario_ids@[j]@ == scenario_id@);
        }
    }
    Err(AppError::not_found("Scenario not found"))
}

/// A skill of a scenario: its id, where its central copy lives, and the
/// directory name it takes in an agent's skills directory.
pub struct ScenarioSkill {
    pub id: String,
    pub source: String,
    pub target_name: String,
}

/// An agent a skill is deployed to: its key, its skills directory and the
/// deployment mode it uses.
pub struct AgentTarget {
    pub key: String,
    pub skills_dir: String,
    pub mode: String,
}

/// One deployment a scenario asks for.
pub struct ScenarioSyncTarget {
    pub skill_id: String,
    pub tool: String,
    pub source: String,
    pub target: String,
    pub mode: String,
}

/// `t` is the deployment of skill `s` to agent `a`.
pub open spec fn deployment_of(s: ScenarioSkill, a: AgentTarget, t: ScenarioSyncTarget) -> bool {
    &&& t.skill_id@ == s.id@
    &&& t.tool@ == a.key@
    &&& t.source@ == s.source@
    &&& t.target@ == join_path(a.skills_dir@, s.target_name@)
    &&& t.mode@ == a.mode@
}

/// The number of deployments of the first `k` skills.
pub open spec fn count_before(agents: Seq<Vec<AgentTarget>>, k: int) -> nat
    decreases k,
{
    if k <= 0 {
        0
    } else {
        count_before(agents, k - 1) + agents[k - 1]@.len()
    }
}

proof fn lemma_count_before_monotone(agents: Seq<Vec<AgentTarget>>, a: int, b: int)
    requires
        0 <= a <= b,
    ensures
        count_before(agents, a) <= count_before(agents, b),
    decreases b - a,
{
    if a < b {
        lemma_count_before_monotone(agents, a, b - 1);
    }
}

/// The deployments a scenario asks for: for each of its skills in order, one
/// for each agent the skill is enabled for, in the agents' order. The
/// deployment of skill `i` to its `j`-th agent stands at
/// `count_before(agents, i) + j`.
pub fn collect_scenario_sync_targets(skills: &[ScenarioSkill], agents: &[Vec<AgentTarget>]) -> (r: Vec<ScenarioSyncTarget>)
    requires
        agents.len() == skills.len(),
    ensures
        r.len() == count_before(agents@, skills.len() as int),
        forall|i: int, j: int| 0 <= i < skills.len() && 0 <= j < agents@[i]@.len() ==> deployment_of(
            skills@[i],
            agents@[i]@[j],
            #[trigger] r@[count_before(agents@, i) + j],
        ),
{
    let mut out: Vec<ScenarioSyncTarget> = Vec::new();
    let mut i: usize = 0;
    while i < skills.len()
        invariant
            i <= skills.len() == agents.len(),
            out.len() == count_before(agents@, i as int),
            forall|p: int, j: int| 0 <= p < i && 0 <= j < agents@[p]@.len() ==> deployment_of(
                skills@[p],
                agents@[p]@[j],
                #[trigger] out@[count_before(agents@, p) + j],
            ),
        decreases skills.len() - i,
    {
        let s = &skills[i];
        let list = &agents[i];
        let mut j: usize = 0;
        while j < list.len()
            invariant
                j <= list.len(),
                i < skills.len() == agents.len(),
                *list == agents@[i as int],
                *s == skills@[i as int],
                out.len() == count_before(agents@, i as int) + j,
                forall|p: int, q: int| 0 <= p < i && 0 <= q < agents@[p]@.len() ==> deployment_of(
                    skills@[p],
                    agents@[p]@[q],
                    #[trigger] out@[count_before(agents@, p) + q],
                ),
                forall|q: int| 0 <= q < j ==> deployment_of(skills@[i as int], agents@[i as int]@[q], #[trigger] out@[count_before(agents@, i as int) + q]),
            decreases list.len() - j,
        {
            let a = &list[j];
            let ghost before = out@;
            out.push(ScenarioSyncTarget {
                skill_id: s.id.clone(),
                tool: a.key.clone(),
                source: s.source.clone(),
                target: join_path_exec(a.skills_dir.as_str(), s.target_name.as_str()),
                mode: a.mode.clone(),
            });
            proof {
                assert forall|p: int, q: int| 0 <= p < i && 0 <= q < agents@[p]@.len() implies deployment_of(
                    skills@[p],
                    agents@[p]@[q],
                    #[trigger] out@[count_before(agents@, p) + q],
                ) by {
                    lemma_count_before_monotone(agents@, p + 1, i as int);
                    assert(out@[count_before(agents@, p) + q] == before[count_before(agents@, p) + q]);
                }
                assert forall|q: int| 0 <= q < j + 1 implies deployment_of(skills@[i as int], agents@[i as int]@[q], #[trigger] out@[count_before(agents@, i as int) + q]) by {
                    if q < j {
                        assert(out@[count_before(agents@, i as int) + q] == before[count_before(agents@, i as int) + q]);
                    }
                }
            }
            j += 1;
        }
        i += 1;
    }
    out
}

/// Whether two paths are equal as `Path`s (component by component).
pub uninterp spec fn spec_same_path(a: Seq<char>, b: Seq<char>) -> bool;

/// `Path::new(a) == Path::new(b)`: the comparison of `std::path::Path`, which
/// compares the paths' components. Its rules are named, not restated.
#[verifier::external_body]
fn same_path(a: &str, b: &str) -> (r: bool)
    ensures
        r == spec_same_path(a@, b@),
{
    std::path::Path::new(a) == std::path::Path::new(b)
}

/// The last recorded deployment of a skill to an agent (the table that the
/// records are collected into keeps the last one of each pair).
pub open spec fn last_target(existing: Seq<SkillTargetRecord>, skill_id: Seq<char>, tool: Seq<char>) -> Option<int>
    decreases existing.len(),
{
    if existing.len() == 0 {
        None
    } else if existing.last().skill_id@ == skill_id && existing.last().tool@ == tool {
        Some(existing.len() - 1)
    } else {
        last_target(existing.drop_last(), skill_id, tool)
    }
}

proof fn lemma_last_target(existing: Seq<SkillTargetRecord>, skill_id: Seq<char>, tool: Seq<char>)
    ensures
        last_target(existing, skill_id, tool) matches Some(k) ==> 0 <= k < existing.len(),
    decreases existing.len(),
{
    if existing.len() > 0 {
        lemma_last_target(existing.drop_last(), skill_id, tool);
    }
}

fn find_last_target(existing: &[SkillTargetRecord], skill_id: &str, tool: &str) -> (r: Option<usize>)
    ensures
        r == match last_target(existing@, skill_id@, tool@) {
            Some(k) => Some(k as usize),
            None => None::<usize>,
        },
        r matches Some(k) ==> k < existing.len(),
        last_target(existing@, skill_id@, tool@) matches Some(k) ==> 0 <= k < existing.len(),
{
    proof {
        lemma_last_target(existing@, skill_id@, tool@);
    }
    let mut i: usize = existing.len();
    assert(existing@.take(existing.len() as int) =~= existing@);
    while i > 0
        invariant
            i <= existing.len(),
            last_target(existing@, skill_id@, tool@) == last_target(existing@.take(i as int), skill_id@, tool@),
        decreases i,
    {
        assert(existing@.take(i as int).last() == existing@[i - 1]);
        assert(existing@.take(i as int).drop_last() =~= existing@.take(i - 1));
        if str_eq(existing[i - 1].skill_id.as_str(), skill_id) && str_eq(existing[i - 1].tool.as_str(), tool) {
            return Some(i - 1);
        }
        i -= 1;
    }
    None
}

/// What switching to a scenario does with one deployment it asks for.
#[derive(PartialEq, Eq, Structural, Debug, Clone, Copy)]
pub enum TargetAction {
    /// The recorded deployment is current: leave it.
    Keep,
    /// Deploy the skill.
    Sync,
    /// A recorded deployment of the pair lies elsewhere: remove it and its
    /// record, then deploy the skill.
    ReplaceStale,
}

/// What to do with a desired deployment, given the recorded deployments and
/// whether the deployed copy is current: a recorded deployment of the same
/// skill to the same agent at another path is replaced; one at the same path
/// is kept where it has the desired mode, is `ok` and is current; anything
/// else is deployed.
pub open spec fn spec_target_action(desired: ScenarioSyncTarget, existing: Seq<SkillTargetRecord>, is_current: bool) -> TargetAction {
    match last_target(existing, desired.skill_id@, desired.tool@) {
        Some(k) => if !spec_same_path(existing[k].target_path@, desired.target@) {
            TargetAction::ReplaceStale
        } else if existing[k].mode@ == desired.mode@ && existing[k].status@ == "ok"@ && is_current {
            TargetAction::Keep
        } else {
            TargetAction::Sync
        },
        None => TargetAction::Sync,
    }
}

/// Whether record `t` is a deployment of the desired skill to the desired
/// agent.
pub open spec fn records_pair(t: SkillTargetRecord, desired: ScenarioSyncTarget) -> bool {
    t.skill_id@ == desired.skill_id@ && t.tool@ == desired.tool@
}

/// Whether `existing[k]` is the last record of the desired pair.
pub open spec fn last_record_of_pair(existing: Seq<SkillTargetRecord>, desired: ScenarioSyncTarget, k: int) -> bool {
    &&& 0 <= k < existing.len()
    &&& records_pair(existing[k], desired)
    &&& forall|j: int| k < j < existing.len() ==> !records_pair(#[trigger] existing[j], desired)
}

proof fn lemma_last_target_is_last(existing: Seq<SkillTargetRecord>, desired: ScenarioSyncTarget)
    ensures
        match last_target(existing, desired.skill_id@, desired.tool@) {
            Some(k) => last_record_of_pair(existing, desired, k),
            None => forall|j: int| 0 <= j < existing.len() ==> !records_pair(#[trigger] existing[j], desired),
        },
    decreases existing.len(),
{
    if existing.len() > 0 {
        let d = existing.drop_last();
        lemma_last_target_is_last(d, desired);
        assert forall|j: int| 0 <= j < d.len() implies #[trigger] existing[j] == d[j] by {}
    }
}

/// The last record of a pair is the only one that decides: a desired
/// deployment is kept exactly when that record is at the desired path, in the
/// desired mode, `ok`, and the deployed copy is current. A record in another
/// mode at the desired path is deployed again, and one at another path is
/// replaced.
pub proof fn lemma_kept_only_as_desired(
    desired: ScenarioSyncTarget,
    existing: Seq<SkillTargetRecord>,
    is_current: bool,
    k: int,
)
    requires
        last_record_of_pair(existing, desired, k),
    ensures
        (spec_target_action(desired, existing, is_current) == TargetAction::Keep) <==> (
            spec_same_path(existing[k].target_path@, desired.target@)
            && existing[k].mode@ == desired.mode@
            && existing[k].status@ == "ok"@
            && is_current),
        spec_same_path(existing[k].target_path@, desired.target@) && existing[k].mode@ != desired.mode@
            ==> spec_target_action(desired, existing, is_current) == TargetAction::Sync,
        spec_same_path(existing[k].target_path@, desired.target@) && !is_current
            ==> spec_target_action(desired, existing, is_current) == TargetAction::Sync,
        !spec_same_path(existing[k].target_path@, desired.target@)
            ==> spec_target_action(desired, existing, is_current) == TargetAction::ReplaceStale,
{
    lemma_last_target_is_last(existing, desired);
    match last_target(existing, desired.skill_id@, desired.tool@) {
        Some(j) => {
            if j < k {
                assert(!records_pair(existing[k], desired));
            } else if k < j {
                assert(!records_pair(existing[j], desired));
            }
        },
        None => {
            assert(!records_pair(existing[k], desired));
        },
    }
}

/// A desired deployment of a pair that has no record is always deployed.
pub proof fn lemma_unrecorded_pair_is_deployed(
    desired: ScenarioSyncTarget,
    existing: Seq<SkillTargetRecord>,
    is_current: bool,
)
    requires
        forall|j: int| 0 <= j < existing.len() ==> !records_pair(#[trigger] existing[j], desired),
    ensures
        spec_target_action(desired, existing, is_current) == TargetAction::Sync,
{
    lemma_last_target_is_last(existing, desired);
    if let Some(k) = last_target(existing, desired.skill_id@, desired.tool@) {
        assert(records_pair(existing[k], desired));
    }
}

/// What to do with a desired deployment (see [`spec_target_action`]); it is
/// kept only where the last record of its pair is in the desired mode.
pub fn desired_target_action(desired: &ScenarioSyncTarget, existing: &[SkillTargetRecord], is_current: bool) -> (r: TargetAction)
    ensures
        r == spec_target_action(*desired, existing@, is_current),
        r == TargetAction::Keep ==> exists|k: int| last_record_of_pair(existing@, *desired, k)
            && (#[trigger] existing@[k]).mode@ == desired.mode@
            && existing@[k].status@ == "ok"@
            && is_current,
{
    let r = match find_last_target(existing, desired.skill_id.as_str(), desired.tool.as_str()) {
        None => TargetAction::Sync,
        Some(k) => {
            let e = &existing[k];
            if !same_path(e.target_path.as_str(), desired.target.as_str()) {
                TargetAction::ReplaceStale
            } else if str_eq(e.mode.as_str(), desired.mode.as_str()) && str_eq(e.status.as_str(), "ok") && is_current {
                TargetAction::Keep
            } else {
                TargetAction::Sync
            }
        },
    };
    proof {
        lemma_last_target_is_last(existing@, *desired);
        if let Some(k) = last_target(existing@, desired.skill_id@, desired.tool@) {
            lemma_kept_only_as_desired(*desired, existing@, is_current, k);
        } else {
            lemma_unrecorded_pair_is_deployed(*desired, existing@, is_current);
        }
    }
    r
}

/// The path the desired deployments ask for a skill and an agent (the last
/// one, where several ask).
pub open spec fn desired_path(desired: Seq<ScenarioSyncTarget>, skill_id: Seq<char>, tool: Seq<char>) -> Option<Seq<char>>
    decreases desired.len(),
{
    if desired.len() == 0 {
        None
    } else if desired.last().skill_id@ == skill_id && desired.last().tool@ == tool {
        Some(desired.last().target@)
    } else {
        desired_path(desired.drop_last(), skill_id, tool)
    }
}

fn find_desired_path(desired: &[ScenarioSyncTarget], skill_id: &str, tool: &str) -> (r: Option<String>)
    ensures
        crate::text::opt_view(r) == desired_path(desired@, skill_id@, tool@),
{
    let mut i: usize = desired.len();
    assert(desired@.take(desired.len() as int) =~= desired@);
    while i > 0
        invariant
            i <= desired.len(),
            desired_path(desired@, skill_id@, tool@) == desired_path(desired@.take(i as int), skill_id@, tool@),
        decreases i,
    {
        assert(desired@.take(i as int).last() == desired@[i - 1]);
        assert(desired@.take(i as int).drop_last() =~= desired@.take(i - 1));
        if str_eq(desired[i - 1].skill_id.as_str(), skill_id) && str_eq(desired[i - 1].tool.as_str(), tool) {
            return Some(desired[i - 1].target.clone());
        }
        i -= 1;
    }
    None
}

/// A deployment of a skill of the old scenario survives the switch only where
/// the new scenario asks for the same skill, agent and path.
pub open spec fn obsolete(t: SkillTargetRecord, desired: Seq<ScenarioSyncTarget>) -> bool {
    match desired_path(desired, t.skill_id@, t.tool@) {
        Some(p) => !spec_same_path(p, t.target_path@),
        None => true,
    }
}

/// The path asked for a skill and an agent is that of the last desired
/// deployment of the pair.
proof fn lemma_desired_path_is_last(desired: Seq<ScenarioSyncTarget>, skill_id: Seq<char>, tool: Seq<char>, j: int)
    requires
        0 <= j < desired.len(),
        desired[j].skill_id@ == skill_id && desired[j].tool@ == tool,
        forall|k: int| j < k < desired.len() ==> !((#[trigger] desired[k]).skill_id@ == skill_id && desired[k].tool@ == tool),
    ensures
        desired_path(desired, skill_id, tool) == Some(desired[j].target@),
    decreases desired.len(),
{
    if j < desired.len() - 1 {
        assert(!(desired[desired.len() - 1].skill_id@ == skill_id && desired[desired.len() - 1].tool@ == tool));
        let rest = desired.drop_last();
        assert forall|k: int| j < k < rest.len() implies !((#[trigger] rest[k]).skill_id@ == skill_id && rest[k].tool@ == tool) by {
            assert(rest[k] == desired[k]);
        }
        lemma_desired_path_is_last(rest, skill_id, tool, j);
    }
}

/// Switching scenarios keeps a deployment the new scenario asks for: where
/// the last deployment the scenario wants of the same skill and agent lies
/// at the same path, the recorded one is not removed.
pub proof fn lemma_wanted_deployment_kept(t: SkillTargetRecord, desired: Seq<ScenarioSyncTarget>, j: int)
    requires
        0 <= j < desired.len(),
        desired[j].skill_id@ == t.skill_id@ && desired[j].tool@ == t.tool@,
        forall|k: int| j < k < desired.len() ==> !((#[trigger] desired[k]).skill_id@ == t.skill_id@ && desired[k].tool@ == t.tool@),
        spec_same_path(desired[j].target@, t.target_path@),
    ensures
        !obsolete(t, desired),
{
    lemma_desired_path_is_last(desired, t.skill_id@, t.tool@, j);
}

/// A deployment of a skill and agent that the new scenario does not ask
/// for at all is removed when switching.
pub proof fn lemma_unwanted_deployment_removed(t: SkillTargetRecord, desired: Seq<ScenarioSyncTarget>)
    requires
        forall|k: int| 0 <= k < desired.len() ==> !((#[trigger] desired[k]).skill_id@ == t.skill_id@ && desired[k].tool@ == t.tool@),
    ensures
        obsolete(t, desired),
    decreases desired.len(),
{
    if desired.len() > 0 {
        let rest = desired.drop_last();
        assert forall|k: int| 0 <= k < rest.len() implies !((#[trigger] rest[k]).skill_id@ == t.skill_id@ && rest[k].tool@ == t.tool@) by {
            assert(rest[k] == desired[k]);
        }
        assert(!(desired[desired.len() - 1].skill_id@ == t.skill_id@ && desired[desired.len() - 1].tool@ == t.tool@));
        lemma_unwanted_deployment_removed(t, rest);
    }
}

/// Which deployments of the old scenario's skills to remove when switching
/// to a scenario that asks for `desired`: one flag per deployment (see
/// [`obsolete`]).
pub fn obsolete_targets(old_targets: &[SkillTargetRecord], desired: &[ScenarioSyncTarget]) -> (r: Vec<bool>)
    ensures
        r.len() == old_targets.len(),
        forall|i: int| 0 <= i < r.len() ==> r@[i] == obsolete(#[trigger] old_targets@[i], desired@),
{
    let mut out: Vec<bool> = Vec::new();
    let mut i: usize = 0;
    while i < old_targets.len()
        invariant
            i <= old_targets.len(),
            out.len() == i,
            forall|k: int| 0 <= k < i ==> out@[k] == obsolete(#[trigger] old_targets@[k], desired@),
        decreases old_targets.len() - i,
    {
        let t = &old_targets[i];
        let keep = match find_desired_path(desired, t.skill_id.as_str(), t.tool.as_str()) {
            Some(p) => same_path(p.as_str(), t.target_path.as_str()),
            None => false,
        };
        out.push(!keep);
        i += 1;
    }
    out
}


/// What turning a skill off for one agent does to the files on disk.
#[derive(PartialEq, Eq, Structural, Debug, Clone, Copy)]
pub enum UnsyncStep {
    /// The skill has no target for the agent: only records change.
    NoTarget,
    /// The target at this index of the skill's targets shares its path with
    /// another deployment that stays: its files are kept.
    KeepShared(usize),
    /// The target at this index is removed from disk (where it still is
    /// what was deployed).
    Remove(usize),
}

/// Whether another deployment than (`skill_id`, `tool`) uses `path`.
pub open spec fn path_shared(all_targets: Seq<SkillTargetRecord>, path: Seq<char>, skill_id: Seq<char>, tool: Seq<char>) -> bool {
    exists|k: int| 0 <= k < all_targets.len() && {
        let t = #[trigger] all_targets[k];
        t.target_path@ == path && !(t.skill_id@ == skill_id && t.tool@ == tool)
    }
}

/// What turning the skill off for `tool` does on disk: nothing without a
/// target for the agent (the first of the skill's targets for it counts);
/// its files stay where another deployment shares the path; else they go.
pub open spec fn spec_unsync_step(
    skill_targets: Seq<SkillTargetRecord>,
    all_targets: Seq<SkillTargetRecord>,
    skill_id: Seq<char>,
    tool: Seq<char>,
) -> UnsyncStep {
    let f = crate::text::first_where(skill_targets, crate::skill_commands::tool_pred(tool));
    if f >= skill_targets.len() {
        UnsyncStep::NoTarget
    } else if path_shared(all_targets, skill_targets[f].target_path@, skill_id, tool) {
        UnsyncStep::KeepShared(f as usize)
    } else {
        UnsyncStep::Remove(f as usize)
    }
}

/// What turning the skill `skill_id` off for `tool` does on disk (see
/// [`spec_unsync_step`]); `skill_targets` are the skill's targets and
/// `all_targets` every recorded one.
pub fn unsync_step(
    skill_targets: &Vec<SkillTargetRecord>,
    all_targets: &Vec<SkillTargetRecord>,
    skill_id: &str,
    tool: &str,
) -> (r: UnsyncStep)
    ensures
        r == spec_unsync_step(skill_targets@, all_targets@, skill_id@, tool@),
{
    let f = match crate::skill_commands::first_target_for(skill_targets, tool) {
        Some(f) => f,
        None => return UnsyncStep::NoTarget,
    };
    let path = skill_targets[f].target_path.as_str();
    let mut k: usize = 0;
    while k < all_targets.len()
        invariant
            k <= all_targets.len(),
            f < skill_targets.len(),
            f as int == crate::text::first_where(skill_targets@, crate::skill_commands::tool_pred(tool@)),
            path@ == skill_targets@[f as int].target_path@,
            forall|x: int| 0 <= x < k ==> {
                let t = #[trigger] all_targets@[x];
                !(t.target_path@ == path@ && !(t.skill_id@ == skill_id@ && t.tool@ == tool@))
            },
        decreases all_targets.len() - k,
    {
        let t = &all_targets[k];
        if str_eq(t.target_path.as_str(), path) && !(str_eq(t.skill_id.as_str(), skill_id) && str_eq(t.tool.as_str(), tool)) {
            assert(path_shared(all_targets@, path@, skill_id@, tool@)) by {
                let w = all_targets@[k as int];
                assert(w.target_path@ == path@ && !(w.skill_id@ == skill_id@ && w.tool@ == tool@));
            }
            return UnsyncStep::KeepShared(f);
        }
        k += 1;
    }
    UnsyncStep::Remove(f)
}

// ---------------------------------------------------------------------------
// Listing, creating and deleting scenarios
// ---------------------------------------------------------------------------

/// `d` shows the scenario `s` with `skill_count` skills.
pub open spec fn shows_scenario(d: ScenarioDto, s: ScenarioRecord, skill_count: i64) -> bool {
    &&& d.id@ == s.id@
    &&& d.name@ == s.name@
    &&& opt_view(d.description) == opt_view(s.description)
    &&& opt_view(d.icon) == opt_view(s.icon)
    &&& d.sort_order == s.sort_order
    &&& d.skill_count == skill_count
    &&& d.created_at == s.created_at
    &&& d.updated_at == s.updated_at
}

/// The skill count shown for a scenario whose count was asked of the store:
/// zero where the store could not count.
pub open spec fn shown_count(count: Option<i64>) -> i64 {
    match count {
        Some(c) => c,
        None => 0,
    }
}

/// The view of a scenario with `skill_count` skills.
pub fn scenario_dto(s: &ScenarioRecord, skill_count: i64) -> (r: ScenarioDto)
    ensures
        shows_scenario(r, *s, skill_count),
{
    ScenarioDto {
        id: s.id.clone(),
        name: s.name.clone(),
        description: clone_opt(&s.description),
        icon: clone_opt(&s.icon),
        sort_order: s.sort_order,
        skill_count,
        created_at: s.created_at,
        updated_at: s.updated_at,
    }
}

/// The scenarios as the UI lists them, in order, each with the skill count
/// the store gave for it (`counts[i]` for the `i`-th; zero where it gave
/// none).
pub fn get_scenarios(scenarios: &Vec<ScenarioRecord>, counts: &Vec<Option<i64>>) -> (r: Vec<ScenarioDto>)
    requires
        counts.len() == scenarios.len(),
    ensures
        r.len() == scenarios.len(),
        forall|i: int| 0 <= i < r.len() ==> #[trigger] shows_scenario(r@[i], scenarios@[i], shown_count(counts@[i])),
{
    let mut out: Vec<ScenarioDto> = Vec::new();
    let mut i: usize = 0;
    while i < scenarios.len()
        invariant
            i <= scenarios.len() == counts.len(),
            out.len() == i,
            forall|k: int| 0 <= k < i ==> #[trigger] shows_scenario(out@[k], scenarios@[k], shown_count(counts@[k])),
        decreases scenarios.len() - i,
    {
        let c = match counts[i] {
            Some(c) => c,
            None => 0,
        };
        out.push(scenario_dto(&scenarios[i], c));
        i += 1;
    }
    out
}

/// The active scenario as the UI shows it: the first scenario whose id is
/// the active id, with the skill count the store gave for it (see
/// [`get_scenarios`]); none where no scenario is active or the active id
/// names none.
pub fn get_active_scenario(
    scenarios: &Vec<ScenarioRecord>,
    counts: &Vec<Option<i64>>,
    active: Option<&str>,
) -> (r: Option<ScenarioDto>)
    requires
        counts.len() == scenarios.len(),
    ensures
        match active {
            None => r is None,
            Some(a) => {
                let k = first_where(scenarios@, has_id_pred(a@));
                &&& r is Some <==> k < scenarios.len()
                &&& r matches Some(d) ==> shows_scenario(d, scenarios@[k], shown_count(counts@[k]))
            },
        },
{
    let a = match active {
        None => {
            return None;
        },
        Some(a) => a,
    };
    let ghost p = has_id_pred(a@);
    let mut k: usize = 0;
    while k < scenarios.len()
        invariant
            k <= scenarios.len() == counts.len(),
            active == Some(a),
            p == has_id_pred(a@),
            forall|t: int| 0 <= t < k ==> !p(#[trigger] scenarios@[t]),
        decreases scenarios.len() - k,
    {
        if str_eq(scenarios[k].id.as_str(), a) {
            proof {
                lemma_first_where_is(scenarios@, p, k as int);
            }
            let c = match counts[k] {
                Some(c) => c,
                None => 0,
            };
            return Some(scenario_dto(&scenarios[k], c));
        }
        k += 1;
    }
    proof {
        lemma_first_where_is(scenarios@, p, k as int);
    }
    None
}

/// The sort position a new scenario takes: after every other.
pub const NEW_SCENARIO_SORT_ORDER: i32 = 999;

/// What creating a scenario does: the record to insert, the previously
/// active scenario whose deployments to remove, if one was active, and the
/// new scenario's view (the new scenario becomes the active one).
pub struct NewScenario {
    pub record: ScenarioRecord,
    pub unsync: Option<String>,
    pub dto: ScenarioDto,
}

/// Creates the scenario `id` at `now_ms`: it is placed last, holds no
/// skills, and replaces the previously active scenario `previous_active`.
pub fn create_scenario(
    id: &str,
    name: &str,
    description: Option<String>,
    icon: Option<String>,
    now_ms: i64,
    previous_active: Option<&str>,
) -> (r: NewScenario)
    ensures
        r.record.id@ == id@,
        r.record.name@ == name@,
        opt_view(r.record.description) == opt_view(description),
        opt_view(r.record.icon) == opt_view(icon),
        r.record.sort_order == NEW_SCENARIO_SORT_ORDER,
        r.record.created_at == now_ms && r.record.updated_at == now_ms,
        opt_view(r.unsync) == crate::presets::opt_str(previous_active),
        shows_scenario(r.dto, r.record, 0),
{
    let record = ScenarioRecord {
        id: id.to_string(),
        name: name.to_string(),
        description,
        icon,
        sort_order: NEW_SCENARIO_SORT_ORDER,
        created_at: now_ms,
        updated_at: now_ms,
    };
    let dto = scenario_dto(&record, 0);
    let unsync = match previous_active {
        Some(p) => Some(p.to_string()),
        None => None,
    };
    NewScenario { record, unsync, dto }
}

/// What happens to the active scenario when a scenario is deleted.
#[derive(PartialEq, Eq, Structural, Debug, Clone, Copy)]
pub enum AfterScenarioDelete {
    /// The deleted scenario was not the active one: nothing changes.
    KeepActive,
    /// The deleted scenario was active: its deployments are removed before
    /// it is deleted, and the remaining scenario at this index becomes
    /// active and is deployed.
    Activate(usize),
    /// The deleted scenario was active and was the last one: its deployments
    /// are removed and no scenario is active.
    ClearActive,
}

/// What deleting the scenario `id` does to the active scenario `active`;
/// `remaining` are the scenarios that remain, in order.
pub fn delete_scenario(active: Option<&str>, id: &str, remaining: &Vec<ScenarioRecord>) -> (r: AfterScenarioDelete)
    ensures
        crate::presets::opt_str(active) != Some(id@) ==> r == AfterScenarioDelete::KeepActive,
        crate::presets::opt_str(active) == Some(id@) ==> r == (if remaining.len() > 0 {
            AfterScenarioDelete::Activate(0)
        } else {
            AfterScenarioDelete::ClearActive
        }),
{
    let was_active = match active {
        Some(a) => str_eq(a, id),
        None => false,
    };
    if !was_active {
        AfterScenarioDelete::KeepActive
    } else if remaining.len() > 0 {
        AfterScenarioDelete::Activate(0)
    } else {
        AfterScenarioDelete::ClearActive
    }
}

/// The scenario whose deployments are no longer wanted when `id` is applied
/// to the default targets: the previously active scenario, when it is
/// another one.
pub fn scenario_to_unsync_before_apply(active: Option<&str>, id: &str) -> (r: Option<String>)
    ensures
        opt_view(r) == match active {
            Some(a) => if a@ != id@ { Some(a@) } else { None },
            None => None,
        },
{
    match active {
        Some(a) => if str_eq(a, id) {
            None
        } else {
            Some(a.to_string())
        },
        None => None,
    }
}

/// Whether a skill added to the scenario `scenario_id` is deployed right
/// away: only when that scenario is the active one.
pub fn deploys_on_add(active: Option<&str>, scenario_id: &str) -> (r: bool)
    ensures
        r == (crate::presets::opt_str(active) == Some(scenario_id@)),
{
    match active {
        Some(a) => str_eq(a, scenario_id),
        None => false,
    }
}

/// The earlier deployment of a skill to the agent `tool` that deploying it
/// at `new_path` makes stale: the first recorded deployment to that agent
/// (among the skill's deployments `old_targets`), when it lies at another
/// path.
pub fn stale_target_for(old_targets: &[SkillTargetRecord], tool: &str, new_path: &str) -> (r: Option<usize>)
    ensures
        ({
            let k = first_where(old_targets@, tool_target_pred(tool@));
            match r {
                Some(i) => i == k && k < old_targets.len() && !spec_same_path(old_targets@[k].target_path@, new_path@),
                None => k == old_targets.len() || spec_same_path(old_targets@[k].target_path@, new_path@),
            }
        }),
{
    let ghost p = tool_target_pred(tool@);
    let mut k: usize = 0;
    while k < old_targets.len()
        invariant
            k <= old_targets.len(),
            p == tool_target_pred(tool@),
            forall|t: int| 0 <= t < k ==> !p(#[trigger] old_targets@[t]),
        decreases old_targets.len() - k,
    {
        if str_eq(old_targets[k].tool.as_str(), tool) {
            proof {
                lemma_first_where_is(old_targets@, p, k as int);
            }
            if same_path(old_targets[k].target_path.as_str(), new_path) {
                return None;
            }
            return Some(k);
        }
        k += 1;
    }
    proof {
        lemma_first_where_is(old_targets@, p, k as int);
    }
    None
}

/// The test of being a deployment to the agent `tool`, as a predicate.
pub open spec fn tool_target_pred(tool: Seq<char>) -> spec_fn(SkillTargetRecord) -> bool {
    |t: SkillTargetRecord| t.tool@ == tool
}

} // verus!

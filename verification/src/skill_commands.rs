//! What the skill commands of the command-line tool decide: which skills a
//! command acts on, how tags change, what a removal or a refresh does, and
//! which confirmations a destructive command needs.
use crate::cli::{err_view, index_result_view, indices_view, resolve_skill, spec_resolve_skill};
use crate::error::{AppError, ErrorKind};
use crate::remote::contains_key;
use crate::agents::{find_scenario_name, scenario_name_of};
use crate::remote::{spec_str_lowercase, str_lowercase};
use crate::skills::{BatchDeleteSkillsResult, BatchImportResult, BatchUpdateSkillsResult, lookup_strings, scenarios_for_skill, scenarios_of, tags_for_skill, SkillRecord, SkillTargetRecord};
use crate::presets::{select_preset_agents, spec_select_agents, ToolInfo};
use crate::sorting::{is_stable_sort_by, sort_by_keys, sorted_unique, strictly_sorted};
use crate::text::{clone_opt, clone_strings, contains_text, decimal, find, join_lines, join_with, opt_view, push_str, str_eq, strs_view, to_decimal, trim, trimmed_str};
use vstd::prelude::*;

verus! {

/// What adding `tags` to the tags `current` gives: each tag trimmed, and
/// appended unless it is blank or already there.
pub open spec fn spec_add_tags(current: Seq<Seq<char>>, tags: Seq<Seq<char>>) -> Seq<Seq<char>>
    decreases tags.len(),
{
    if tags.len() == 0 {
        current
    } else {
        let acc = spec_add_tags(current, tags.drop_last());
        let t = trim(tags.last());
        if t.len() > 0 && !acc.contains(t) {
            acc.push(t)
        } else {
            acc
        }
    }
}

/// The tags of a skill after adding `tags` (see [`spec_add_tags`]).
pub fn tags_after_add(current: &Vec<String>, tags: &Vec<String>) -> (r: Vec<String>)
    ensures
        strs_view(r@) == spec_add_tags(strs_view(current@), strs_view(tags@)),
{
    let ghost cur = strs_view(current@);
    let ghost tv = strs_view(tags@);
    let mut out = crate::text::clone_strings(current);
    let mut i: usize = 0;
    assert(tv.take(0) =~= Seq::<Seq<char>>::empty());
    while i < tags.len()
        invariant
            i <= tags.len(),
            cur == strs_view(current@),
            tv == strs_view(tags@),
            strs_view(out@) == spec_add_tags(cur, tv.take(i as int)),
        decreases tags.len() - i,
    {
        assert(tv.take(i as int + 1).drop_last() =~= tv.take(i as int));
        assert(tv.take(i as int + 1).last() == tags@[i as int]@);
        let t = trimmed_str(tags[i].as_str());
        if !t.as_str().is_empty() && !contains_key(&out, t.as_str()) {
            let ghost before = out@;
            out.push(t);
            assert(strs_view(out@) =~= strs_view(before).push(trim(tags@[i as int]@)));
        }
        i += 1;
    }
    assert(tv.take(tags.len() as int) =~= tv);
    out
}

/// What removing `tags` from the tags `current` gives: every tag equal to
/// one of `tags` trimmed leaves; the others keep their order.
pub open spec fn spec_remove_tags(current: Seq<Seq<char>>, tags: Seq<Seq<char>>) -> Seq<Seq<char>> {
    current.filter(|c: Seq<char>| !tags.map_values(|t: Seq<char>| trim(t)).contains(c))
}

/// The tags of a skill after removing `tags` (see [`spec_remove_tags`]).
pub fn tags_after_remove(current: &Vec<String>, tags: &Vec<String>) -> (r: Vec<String>)
    ensures
        strs_view(r@) == spec_remove_tags(strs_view(current@), strs_view(tags@)),
{
    let ghost cur = strs_view(current@);
    let ghost gone = strs_view(tags@).map_values(|t: Seq<char>| trim(t));
    let ghost keep = |c: Seq<char>| !gone.contains(c);
    let mut trimmed: Vec<String> = Vec::new();
    let mut k: usize = 0;
    while k < tags.len()
        invariant
            k <= tags.len(),
            gone == strs_view(tags@).map_values(|t: Seq<char>| trim(t)),
            strs_view(trimmed@) == gone.take(k as int),
        decreases tags.len() - k,
    {
        let ghost before = trimmed@;
        trimmed.push(trimmed_str(tags[k].as_str()));
        assert(strs_view(trimmed@) =~= strs_view(before).push(trim(tags@[k as int]@)));
        assert(gone[k as int] == trim(strs_view(tags@)[k as int]));
        assert(gone.take(k as int + 1) =~= gone.take(k as int).push(gone[k as int]));
        k += 1;
    }
    assert(gone.take(tags.len() as int) =~= gone);
    let mut out: Vec<String> = Vec::new();
    let mut i: usize = 0;
    while i < current.len()
        invariant
            i <= current.len(),
            cur == strs_view(current@),
            strs_view(trimmed@) == gone,
            keep == (|c: Seq<char>| !gone.contains(c)),
            strs_view(out@) == cur.take(i as int).filter(keep),
        decreases current.len() - i,
    {
        proof {
            reveal(Seq::filter);
            assert(cur.take(i as int + 1).drop_last() =~= cur.take(i as int));
            assert(cur.take(i as int + 1).last() == current@[i as int]@);
        }
        if !contains_key(&trimmed, current[i].as_str()) {
            let ghost before = out@;
            out.push(current[i].clone());
            assert(strs_view(out@) =~= strs_view(before).push(current@[i as int]@));
        }
        i += 1;
    }
    assert(cur.take(current.len() as int) =~= cur);
    out
}

/// The test of holding the tag `name`, as a predicate on a skill's entry in
/// the tags table.
pub open spec fn has_tag_pred(name: Seq<char>) -> spec_fn((String, Vec<String>)) -> bool {
    |e: (String, Vec<String>)| strs_view(e.1@).contains(name)
}

/// How many skills carry the tag `name`, counting the entries of the tags
/// table.
pub fn tag_usage_count(tags_map: &Vec<(String, Vec<String>)>, name: &str) -> (r: usize)
    ensures
        r as nat == crate::text::count_where(tags_map@, has_tag_pred(name@)),
{
    let ghost p = has_tag_pred(name@);
    let mut count: usize = 0;
    let mut i: usize = 0;
    while i < tags_map.len()
        invariant
            i <= tags_map.len(),
            p == has_tag_pred(name@),
            count as nat == crate::text::count_where(tags_map@.take(i as int), p),
            count <= i,
        decreases tags_map.len() - i,
    {
        assert(tags_map@.take(i as int + 1).drop_last() =~= tags_map@.take(i as int));
        if contains_key(&tags_map[i].1, name) {
            count += 1;
        }
        i += 1;
    }
    assert(tags_map@.take(tags_map.len() as int) =~= tags_map@);
    count
}

/// A destructive command that is not a dry run must be confirmed with
/// `--yes`: else it fails with "refusing to delete <what> without --yes".
pub fn require_confirmation(dry_run: bool, yes: bool, what: &str) -> (r: Result<(), AppError>)
    ensures
        r is Err <==> (!dry_run && !yes),
        r matches Err(e) ==> e.kind == ErrorKind::InvalidInput
            && e.message@ == "refusing to delete "@ + what@ + " without --yes"@,
{
    if !dry_run && !yes {
        let mut msg = "refusing to delete ".to_string();
        push_str(&mut msg, what);
        push_str(&mut msg, " without --yes");
        Err(AppError { kind: ErrorKind::InvalidInput, message: msg })
    } else {
        Ok(())
    }
}

/// The skills a refresh or check acts on, by index: the one a reference
/// names, or with `--all` every skill; both or neither is an error.
pub fn select_skill_ids(skills: &Vec<SkillRecord>, reference: Option<&str>, all: bool) -> (r: Result<Vec<usize>, AppError>)
    ensures
        match reference {
            Some(x) => if all {
                r matches Err(e) && e.kind == ErrorKind::InvalidInput && e.message@ == "pass either a ref or --all, not both"@
            } else {
                match spec_resolve_skill(skills@, x@) {
                    Ok(i) => (r matches Ok(v) && indices_view(v@) == seq![i]),
                    Err(e) => (r matches Err(y) && err_view(y) == e),
                }
            },
            None => if all {
                r matches Ok(v) && indices_view(v@) == Seq::new(skills.len() as nat, |k: int| k)
            } else {
                r matches Err(e) && e.kind == ErrorKind::InvalidInput && e.message@ == "pass a skill ref or --all"@
            },
        },
{
    match reference {
        Some(x) => {
            if all {
                return Err(AppError::invalid_input("pass either a ref or --all, not both"));
            }
            match resolve_skill(skills, x) {
                Ok(i) => {
                    let v = vec![i];
                    assert(indices_view(v@) =~= seq![i as int]);
                    Ok(v)
                },
                Err(e) => Err(e),
            }
        },
        None => {
            if !all {
                return Err(AppError::invalid_input("pass a skill ref or --all"));
            }
            let mut v: Vec<usize> = Vec::new();
            let mut k: usize = 0;
            while k < skills.len()
                invariant
                    k <= skills.len(),
                    indices_view(v@) == Seq::new(k as nat, |x: int| x),
                decreases skills.len() - k,
            {
                let ghost before = v@;
                v.push(k);
                assert(indices_view(v@) =~= indices_view(before).push(k as int));
                assert(indices_view(v@) =~= Seq::new(k as nat + 1, |x: int| x));
                k += 1;
            }
            Ok(v)
        },
    }
}

/// The entry of a removal report for a reference that names no skill or
/// several: the reference, a colon, and the error's message.
pub open spec fn failure_line(reference: Seq<char>, message: Seq<char>) -> Seq<char> {
    reference + ": "@ + message
}

/// What resolving the references of a removal gives: the index of the skill
/// each reference names, in order, and an entry (see [`failure_line`]) for
/// each reference that names none or several.
pub open spec fn spec_removal_targets(skills: Seq<SkillRecord>, references: Seq<Seq<char>>) -> (Seq<int>, Seq<Seq<char>>)
    decreases references.len(),
{
    if references.len() == 0 {
        (seq![], seq![])
    } else {
        let (ids, failed) = spec_removal_targets(skills, references.drop_last());
        let r = references.last();
        match spec_resolve_skill(skills, r) {
            Ok(i) => (ids.push(i), failed),
            Err(e) => (ids, failed.push(failure_line(r, e.1))),
        }
    }
}

/// The skills a removal acts on and the references it could not resolve
/// (see [`spec_removal_targets`]); no reference at all is an error.
pub fn removal_targets(skills: &Vec<SkillRecord>, references: &Vec<String>) -> (r: Result<(Vec<usize>, Vec<String>), AppError>)
    ensures
        references.len() == 0 ==> (r matches Err(e) && e.kind == ErrorKind::InvalidInput
            && e.message@ == "no skill ref provided"@),
        references.len() > 0 ==> (r matches Ok((ids, failed)) && (indices_view(ids@), strs_view(failed@))
            == spec_removal_targets(skills@, strs_view(references@))),
        r matches Ok((ids, failed)) ==> forall|j: int| 0 <= j < ids.len() ==> ids@[j] < skills.len(),
{
    if references.len() == 0 {
        return Err(AppError::invalid_input("no skill ref provided"));
    }
    let ghost refs = strs_view(references@);
    let mut ids: Vec<usize> = Vec::new();
    let mut failed: Vec<String> = Vec::new();
    let mut k: usize = 0;
    assert(refs.take(0) =~= Seq::<Seq<char>>::empty());
    assert(indices_view(ids@) =~= Seq::<int>::empty());
    assert(strs_view(failed@) =~= Seq::<Seq<char>>::empty());
    while k < references.len()
        invariant
            k <= references.len(),
            refs == strs_view(references@),
            (indices_view(ids@), strs_view(failed@)) == spec_removal_targets(skills@, refs.take(k as int)),
            forall|j: int| 0 <= j < ids.len() ==> ids@[j] < skills.len(),
        decreases references.len() - k,
    {
        assert(refs.take(k as int + 1).drop_last() =~= refs.take(k as int));
        assert(refs.take(k as int + 1).last() == references@[k as int]@);
        let r = references[k].as_str();
        match resolve_skill(skills, r) {
            Ok(i) => {
                let ghost before = ids@;
                ids.push(i);
                assert(indices_view(ids@) =~= indices_view(before).push(i as int));
            },
            Err(e) => {
                let ghost before = failed@;
                let mut line = r.to_string();
                push_str(&mut line, ": ");
                push_str(&mut line, e.message.as_str());
                failed.push(line);
                assert(strs_view(failed@) =~= strs_view(before).push(failure_line(r@, e.message@)));
            },
        }
        k += 1;
    }
    assert(refs.take(references.len() as int) =~= refs);
    Ok((ids, failed))
}

/// Whether a removal that is not a dry run may go ahead: every reference
/// must have resolved, and the removal must be confirmed with `--yes`.
pub fn check_removal(failed: &Vec<String>, count: usize, yes: bool) -> (r: Result<(), AppError>)
    ensures
        failed.len() > 0 ==> (r matches Err(e) && e.kind == ErrorKind::InvalidInput
            && e.message@ == "could not resolve every skill: "@ + join_with(strs_view(failed@), "; "@)),
        failed.len() == 0 && !yes ==> (r matches Err(e) && e.kind == ErrorKind::InvalidInput
            && e.message@ == "refusing to delete "@ + decimal(count as nat) + " skill(s) without --yes"@),
        failed.len() == 0 && yes ==> r is Ok,
{
    if failed.len() > 0 {
        let mut msg = "could not resolve every skill: ".to_string();
        let joined = join_lines(failed, "; ");
        push_str(&mut msg, joined.as_str());
        return Err(AppError { kind: ErrorKind::InvalidInput, message: msg });
    }
    if !yes {
        let mut msg = "refusing to delete ".to_string();
        let n = to_decimal(count as u128);
        push_str(&mut msg, n.as_str());
        push_str(&mut msg, " skill(s) without --yes");
        return Err(AppError { kind: ErrorKind::InvalidInput, message: msg });
    }
    Ok(())
}

/// What the deprecated enable and disable commands report for a skill.
pub struct DeprecatedEnableReport {
    pub skill_id: String,
    pub name: String,
    pub enabled: bool,
    pub changed: bool,
    pub deprecated: bool,
    pub message: String,
}

/// The report of the deprecated enable (`requested_enabled`) or disable
/// command for a skill: enabling repairs a disabled record, disabling
/// changes nothing, and both point to the deployment commands.
pub fn deprecated_enable_report(skill: &SkillRecord, requested_enabled: bool) -> (r: DeprecatedEnableReport)
    ensures
        r.skill_id@ == skill.id@,
        r.name@ == skill.name@,
        r.changed == (requested_enabled && !skill.enabled),
        r.enabled == (requested_enabled || skill.enabled),
        r.deprecated,
        r.message@ == (if requested_enabled {
            "Deprecated compatibility command: use `skills deploy --agent <key>` to make a skill available to an agent."@
        } else {
            "Deprecated compatibility command: use `skills undeploy --agent <key>` to remove a skill from an agent."@
        }),
{
    let message = if requested_enabled {
        "Deprecated compatibility command: use `skills deploy --agent <key>` to make a skill available to an agent."
    } else {
        "Deprecated compatibility command: use `skills undeploy --agent <key>` to remove a skill from an agent."
    };
    DeprecatedEnableReport {
        skill_id: skill.id.clone(),
        name: skill.name.clone(),
        enabled: requested_enabled || skill.enabled,
        changed: requested_enabled && !skill.enabled,
        deprecated: true,
        message: message.to_string(),
    }
}

/// How a skill is refreshed from its source.
#[derive(PartialEq, Eq, Structural, Debug, Clone, Copy)]
pub enum RefreshKind {
    /// Pulled again from its repository.
    Git,
    /// Imported again from its local source.
    Local,
    /// A source that cannot be refreshed.
    Unsupported,
}

/// How a skill of the given source type is refreshed: `git` and `skillssh`
/// from their repository, `local` and `import` from their local source.
pub open spec fn spec_refresh_kind(source_type: Seq<char>) -> RefreshKind {
    if source_type == "git"@ || source_type == "skillssh"@ {
        RefreshKind::Git
    } else if source_type == "local"@ || source_type == "import"@ {
        RefreshKind::Local
    } else {
        RefreshKind::Unsupported
    }
}

/// How a skill of the given source type is refreshed (see
/// [`spec_refresh_kind`]).
pub fn refresh_kind(source_type: &str) -> (r: RefreshKind)
    ensures
        r == spec_refresh_kind(source_type@),
{
    if str_eq(source_type, "git") || str_eq(source_type, "skillssh") {
        RefreshKind::Git
    } else if str_eq(source_type, "local") || str_eq(source_type, "import") {
        RefreshKind::Local
    } else {
        RefreshKind::Unsupported
    }
}

/// The error a refresh reports for a source type it cannot refresh.
pub fn unsupported_refresh_message(source_type: &str) -> (r: String)
    ensures
        r@ == "source type '"@ + source_type@ + "' cannot be refreshed"@,
{
    let mut msg = "source type '".to_string();
    push_str(&mut msg, source_type);
    push_str(&mut msg, "' cannot be refreshed");
    msg
}


/// Adding tags keeps the tags a skill had, in front and in order, and
/// leaves every given tag that is not blank among the skill's tags.
pub proof fn lemma_added_tags_present(current: Seq<Seq<char>>, tags: Seq<Seq<char>>)
    ensures
        spec_add_tags(current, tags).len() >= current.len(),
        spec_add_tags(current, tags).take(current.len() as int) == current,
        forall|i: int| 0 <= i < tags.len() && trim(#[trigger] tags[i]).len() > 0
            ==> spec_add_tags(current, tags).contains(trim(tags[i])),
    decreases tags.len(),
{
    if tags.len() > 0 {
        let rest = tags.drop_last();
        lemma_added_tags_present(current, rest);
        let acc = spec_add_tags(current, rest);
        let t = trim(tags.last());
        let out = spec_add_tags(current, tags);
        assert forall|i: int| 0 <= i < tags.len() && trim(#[trigger] tags[i]).len() > 0
            implies out.contains(trim(tags[i])) by {
            if i < tags.len() - 1 {
                assert(rest[i] == tags[i]);
                assert(acc.contains(trim(rest[i])));
                let j = choose|j: int| 0 <= j < acc.len() && acc[j] == trim(rest[i]);
                if t.len() > 0 && !acc.contains(t) {
                    assert(out[j] == acc[j]);
                }
            } else if !acc.contains(t) {
                assert(out[acc.len() as int] == t);
            }
        }
        if t.len() > 0 && !acc.contains(t) {
            assert(out.take(current.len() as int) =~= acc.take(current.len() as int));
        }
    } else {
        assert(current.take(current.len() as int) =~= current);
    }
}

/// Removing tags right after adding the same tags leaves what removing them
/// alone would: the added tags are all removed again.
pub proof fn lemma_remove_undoes_add(current: Seq<Seq<char>>, tags: Seq<Seq<char>>)
    ensures
        spec_remove_tags(spec_add_tags(current, tags), tags) == spec_remove_tags(current, tags),
{
    let gone = tags.map_values(|t: Seq<char>| trim(t));
    let keep = |c: Seq<char>| !gone.contains(c);
    assert forall|k: int| 0 <= k <= tags.len()
        implies #[trigger] spec_add_tags(current, tags.take(k)).filter(keep) == current.filter(keep) by {
        lemma_add_prefix_filtered(current, tags, k);
    }
    assert(tags.take(tags.len() as int) =~= tags);
    assert(spec_add_tags(current, tags.take(tags.len() as int)).filter(keep) == current.filter(keep));
}

proof fn lemma_add_prefix_filtered(current: Seq<Seq<char>>, tags: Seq<Seq<char>>, k: int)
    requires
        0 <= k <= tags.len(),
    ensures
        spec_add_tags(current, tags.take(k)).filter(|c: Seq<char>| !tags.map_values(|t: Seq<char>| trim(t)).contains(c))
            == current.filter(|c: Seq<char>| !tags.map_values(|t: Seq<char>| trim(t)).contains(c)),
    decreases k,
{
    let gone = tags.map_values(|t: Seq<char>| trim(t));
    let keep = |c: Seq<char>| !gone.contains(c);
    if k == 0 {
        assert(tags.take(0) =~= Seq::<Seq<char>>::empty());
    } else {
        lemma_add_prefix_filtered(current, tags, k - 1);
        assert(tags.take(k).drop_last() =~= tags.take(k - 1));
        assert(tags.take(k).last() == tags[k - 1]);
        let acc = spec_add_tags(current, tags.take(k - 1));
        let t = trim(tags[k - 1]);
        assert(gone[k - 1] == t);
        assert(!keep(t));
        acc.lemma_filter_push(t, keep);
    }
}


/// A skill as the command-line tool lists it.
#[derive(Debug)]
pub struct SkillSummary {
    pub id: String,
    pub name: String,
    pub description: Option<String>,
    pub path: String,
    pub enabled: bool,
    pub tags: Vec<String>,
    pub source_type: String,
    pub source_ref: Option<String>,
    pub preset_ids: Vec<String>,
    pub presets: Vec<String>,
    pub deployed_to: Vec<String>,
}

/// The names of the presets `ids`, in order, skipping ids that name no
/// preset among the `(id, name)` pairs.
pub open spec fn preset_names(scenarios: Seq<(String, String)>, ids: Seq<Seq<char>>) -> Seq<Seq<char>>
    decreases ids.len(),
{
    if ids.len() == 0 {
        seq![]
    } else {
        let rest = preset_names(scenarios, ids.drop_last());
        match scenario_name_of(scenarios, ids.last()) {
            Some(n) => rest.push(n),
            None => rest,
        }
    }
}

/// Whether an agent named `tool` has the skill deployed (in the `ok` state).
pub open spec fn deployed_tool(targets: Seq<SkillTargetRecord>, skill_id: Seq<char>, tool: Seq<char>) -> bool {
    exists|k: int| 0 <= k < targets.len() && {
        let t = #[trigger] targets[k];
        t.skill_id@ == skill_id && t.status@ == "ok"@ && t.tool@ == tool
    }
}

/// The agents the skill is deployed to, sorted and each once.
pub fn deployed_agents(targets: &Vec<SkillTargetRecord>, skill_id: &str) -> (r: Vec<String>)
    ensures
        strictly_sorted(strs_view(r@)),
        strs_view(r@).to_set() == Set::new(|tool: Seq<char>| deployed_tool(targets@, skill_id@, tool)),
{
    let mut tools: Vec<String> = Vec::new();
    let ghost mut src: Seq<int> = seq![];
    let mut k: usize = 0;
    while k < targets.len()
        invariant
            k <= targets.len(),
            src.len() == tools.len(),
            forall|t: int| 0 <= t < tools.len() ==> 0 <= #[trigger] src[t] < k && {
                let x = targets@[src[t]];
                x.skill_id@ == skill_id@ && x.status@ == "ok"@ && x.tool@ == tools@[t]@
            },
            forall|t: int| 0 <= t < k && (#[trigger] targets@[t]).skill_id@ == skill_id@ && targets@[t].status@ == "ok"@
                ==> strs_view(tools@).contains(targets@[t].tool@),
        decreases targets.len() - k,
    {
        if str_eq(targets[k].skill_id.as_str(), skill_id) && str_eq(targets[k].status.as_str(), "ok") {
            let ghost before = tools@;
            tools.push(targets[k].tool.clone());
            proof {
                src = src.push(k as int);
                assert(strs_view(tools@) =~= strs_view(before).push(targets@[k as int].tool@));
                assert forall|t: int| 0 <= t < k && (#[trigger] targets@[t]).skill_id@ == skill_id@ && targets@[t].status@ == "ok"@
                    implies strs_view(tools@).contains(targets@[t].tool@) by {
                    let x = choose|x: int| 0 <= x < strs_view(before).len() && strs_view(before)[x] == targets@[t].tool@;
                    assert(strs_view(tools@)[x] == targets@[t].tool@);
                }
                assert(strs_view(tools@)[before.len() as int] == targets@[k as int].tool@);
            }
        }
        k += 1;
    }
    let out = sorted_unique(&tools);
    proof {
        let want = Set::new(|tool: Seq<char>| deployed_tool(targets@, skill_id@, tool));
        assert forall|tool: Seq<char>| strs_view(tools@).to_set().contains(tool) <==> want.contains(tool) by {
            if strs_view(tools@).contains(tool) {
                let t = choose|t: int| 0 <= t < strs_view(tools@).len() && strs_view(tools@)[t] == tool;
                assert(targets@[src[t]].tool@ == tool);
            }
            if deployed_tool(targets@, skill_id@, tool) {
                let t = choose|t: int| 0 <= t < targets@.len() && {
                    let x = #[trigger] targets@[t];
                    x.skill_id@ == skill_id@ && x.status@ == "ok"@ && x.tool@ == tool
                };
                assert(strs_view(tools@).contains(targets@[t].tool@));
            }
        }
        assert(strs_view(tools@).to_set() =~= want);
    }
    out
}

/// The skill as the command-line tool lists it: its fields, its tags, the
/// presets it belongs to (by id and by name, from the `(preset id, skill
/// id)` memberships and the `(id, name)` presets), and the agents it is
/// deployed to.
pub fn skill_summary(
    skill: &SkillRecord,
    tags_map: &Vec<(String, Vec<String>)>,
    targets: &Vec<SkillTargetRecord>,
    memberships: &Vec<(String, String)>,
    scenarios: &Vec<(String, String)>,
) -> (r: SkillSummary)
    ensures
        r.id@ == skill.id@,
        r.name@ == skill.name@,
        opt_view(r.description) == opt_view(skill.description),
        r.path@ == skill.central_path@,
        r.enabled == skill.enabled,
        strs_view(r.tags@) == (match lookup_strings(tags_map@, skill.id@) {
            Some(t) => t,
            None => Seq::<Seq<char>>::empty(),
        }),
        r.source_type@ == skill.source_type@,
        opt_view(r.source_ref) == opt_view(skill.source_ref),
        strs_view(r.preset_ids@) == scenarios_of(memberships@, skill.id@),
        strs_view(r.presets@) == preset_names(scenarios@, scenarios_of(memberships@, skill.id@)),
        strictly_sorted(strs_view(r.deployed_to@)),
        strs_view(r.deployed_to@).to_set() == Set::new(|tool: Seq<char>| deployed_tool(targets@, skill.id@, tool)),
{
    let preset_ids = scenarios_for_skill(memberships.as_slice(), &skill.id);
    let ghost ids = strs_view(preset_ids@);
    let mut presets: Vec<String> = Vec::new();
    let mut i: usize = 0;
    assert(ids.take(0) =~= Seq::<Seq<char>>::empty());
    while i < preset_ids.len()
        invariant
            i <= preset_ids.len(),
            ids == strs_view(preset_ids@),
            strs_view(presets@) == preset_names(scenarios@, ids.take(i as int)),
        decreases preset_ids.len() - i,
    {
        assert(ids.take(i as int + 1).drop_last() =~= ids.take(i as int));
        assert(ids.take(i as int + 1).last() == preset_ids@[i as int]@);
        match find_scenario_name(scenarios.as_slice(), preset_ids[i].as_str()) {
            Some(n) => {
                let ghost before = presets@;
                presets.push(n);
                assert(strs_view(presets@) =~= strs_view(before).push(presets@[presets.len() - 1]@));
            },
            None => {},
        }
        i += 1;
    }
    assert(ids.take(preset_ids.len() as int) =~= ids);
    SkillSummary {
        id: skill.id.clone(),
        name: skill.name.clone(),
        description: clone_opt(&skill.description),
        path: skill.central_path.clone(),
        enabled: skill.enabled,
        tags: tags_for_skill(tags_map.as_slice(), &skill.id),
        source_type: skill.source_type.clone(),
        source_ref: clone_opt(&skill.source_ref),
        preset_ids,
        presets,
        deployed_to: deployed_agents(targets, skill.id.as_str()),
    }
}

/// The filters of a skill listing, normalised: the query and the source
/// trimmed and in lower case (none where blank), the wanted tags trimmed
/// (blank ones dropped).
#[derive(Debug)]
pub struct SkillFilters {
    pub query: Option<String>,
    pub tags: Vec<String>,
    pub untagged: bool,
    pub no_preset: bool,
    pub preset_id: Option<String>,
    pub deployed_to: Option<String>,
    pub source: Option<String>,
}

/// A search text normalised: trimmed and in lower case, none where blank.
pub open spec fn normalized_needle(value: Option<Seq<char>>) -> Option<Seq<char>> {
    match value {
        Some(v) => if trim(v).len() == 0 {
            None
        } else {
            Some(spec_str_lowercase(trim(v)))
        },
        None => None,
    }
}

/// The wanted tags: trimmed, blank ones dropped.
pub open spec fn wanted_tags(tags: Seq<Seq<char>>) -> Seq<Seq<char>> {
    tags.map_values(|t: Seq<char>| trim(t)).filter(|t: Seq<char>| t.len() > 0)
}

fn normalize_needle(value: Option<&str>) -> (r: Option<String>)
    ensures
        opt_view(r) == normalized_needle(crate::presets::opt_str(value)),
{
    match value {
        Some(v) => {
            let t = trimmed_str(v);
            if t.as_str().is_empty() {
                None
            } else {
                Some(str_lowercase(t.as_str()))
            }
        },
        None => None,
    }
}

fn opt_string(value: Option<&str>) -> (r: Option<String>)
    ensures
        opt_view(r) == crate::presets::opt_str(value),
{
    match value {
        Some(v) => Some(v.to_string()),
        None => None,
    }
}

/// The filters of a skill listing (see [`SkillFilters`]); `preset_id` is the
/// id of the preset already resolved from its reference, and an agent to
/// filter by must be one of `known_agents`, else the listing fails.
pub fn skill_filters(
    query: Option<&str>,
    tags: &Vec<String>,
    preset_id: Option<&str>,
    deployed_to: Option<&str>,
    untagged: bool,
    no_preset: bool,
    source: Option<&str>,
    known_agents: &Vec<String>,
) -> (r: Result<SkillFilters, AppError>)
    ensures
        match deployed_to {
            Some(a) => r is Err <==> !strs_view(known_agents@).contains(a@),
            None => r is Ok,
        },
        r matches Err(e) ==> e.kind == ErrorKind::NotFound && e.message@ == "unknown agent: "@ + deployed_to.unwrap()@,
        r matches Ok(f) ==> {
            &&& opt_view(f.query) == normalized_needle(crate::presets::opt_str(query))
            &&& strs_view(f.tags@) == wanted_tags(strs_view(tags@))
            &&& f.untagged == untagged
            &&& f.no_preset == no_preset
            &&& opt_view(f.preset_id) == crate::presets::opt_str(preset_id)
            &&& opt_view(f.deployed_to) == crate::presets::opt_str(deployed_to)
            &&& opt_view(f.source) == normalized_needle(crate::presets::opt_str(source))
        },
{
    if let Some(a) = deployed_to {
        if !contains_key(known_agents, a) {
            let mut msg = "unknown agent: ".to_string();
            push_str(&mut msg, a);
            return Err(AppError { kind: ErrorKind::NotFound, message: msg });
        }
    }
    let ghost tv = strs_view(tags@);
    let ghost trimmed = tv.map_values(|t: Seq<char>| trim(t));
    let ghost keep = |t: Seq<char>| t.len() > 0;
    let mut wanted: Vec<String> = Vec::new();
    let mut i: usize = 0;
    while i < tags.len()
        invariant
            i <= tags.len(),
            tv == strs_view(tags@),
            trimmed == tv.map_values(|t: Seq<char>| trim(t)),
            keep == (|t: Seq<char>| t.len() > 0),
            strs_view(wanted@) == trimmed.take(i as int).filter(keep),
        decreases tags.len() - i,
    {
        proof {
            reveal(Seq::filter);
            assert(trimmed.take(i as int + 1).drop_last() =~= trimmed.take(i as int));
            assert(trimmed.take(i as int + 1).last() == trim(tags@[i as int]@));
        }
        let t = trimmed_str(tags[i].as_str());
        if !t.as_str().is_empty() {
            let ghost before = wanted@;
            wanted.push(t);
            assert(strs_view(wanted@) =~= strs_view(before).push(trim(tags@[i as int]@)));
        }
        i += 1;
    }
    assert(trimmed.take(tags.len() as int) =~= trimmed);
    Ok(SkillFilters {
        query: normalize_needle(query),
        tags: wanted,
        untagged,
        no_preset,
        preset_id: opt_string(preset_id),
        deployed_to: opt_string(deployed_to),
        source: normalize_needle(source),
    })
}

/// An optional text, empty where it is missing.
pub open spec fn or_empty(value: Option<Seq<char>>) -> Seq<char> {
    match value {
        Some(v) => v,
        None => seq![],
    }
}

/// Whether `needle` occurs in `a` or `b`, each in lower case.
pub open spec fn mentions(a: Seq<char>, b: Seq<char>, needle: Seq<char>) -> bool {
    find(spec_str_lowercase(a), needle) is Some || find(spec_str_lowercase(b), needle) is Some
}

/// Whether a listed skill passes the filters: its name or description
/// mentions the query, it carries every wanted tag, it is untagged or in no
/// preset where asked, it belongs to the preset and is deployed to the
/// agent where given, and its source type or reference mentions the source.
pub open spec fn spec_summary_matches(s: SkillSummary, f: SkillFilters) -> bool {
    &&& match f.query {
        Some(q) => mentions(s.name@, or_empty(opt_view(s.description)), q@),
        None => true,
    }
    &&& forall|i: int| 0 <= i < f.tags.len() ==> strs_view(s.tags@).contains(#[trigger] f.tags@[i]@)
    &&& (!f.untagged || s.tags.len() == 0)
    &&& (!f.no_preset || s.preset_ids.len() == 0)
    &&& match f.preset_id {
        Some(id) => strs_view(s.preset_ids@).contains(id@),
        None => true,
    }
    &&& match f.deployed_to {
        Some(a) => strs_view(s.deployed_to@).contains(a@),
        None => true,
    }
    &&& match f.source {
        Some(q) => mentions(s.source_type@, or_empty(opt_view(s.source_ref)), q@),
        None => true,
    }
}

/// What each filter, where it is given, asks of a listed skill that passes:
/// its name or description mentions the query, it carries each wanted tag,
/// it has no tag or no preset where so asked, it belongs to the named preset,
/// it is deployed to the named agent, and its source mentions the source.
pub open spec fn passes_each_filter(s: SkillSummary, f: SkillFilters) -> bool {
    &&& (f.query matches Some(q) ==> mentions(s.name@, or_empty(opt_view(s.description)), q@))
    &&& (forall|i: int| 0 <= i < f.tags.len() ==> strs_view(s.tags@).contains(#[trigger] f.tags@[i]@))
    &&& (f.untagged ==> s.tags.len() == 0)
    &&& (f.no_preset ==> s.preset_ids.len() == 0)
    &&& (f.preset_id matches Some(id) ==> exists|j: int| 0 <= j < s.preset_ids.len() && (#[trigger] s.preset_ids@[j])@ == id@)
    &&& (f.deployed_to matches Some(a) ==> exists|j: int| 0 <= j < s.deployed_to.len() && (#[trigger] s.deployed_to@[j])@ == a@)
    &&& (f.source matches Some(q) ==> mentions(s.source_type@, or_empty(opt_view(s.source_ref)), q@))
}

/// A listed skill that passes the filters meets each filter that is given.
pub proof fn lemma_matching_passes_each_filter(s: SkillSummary, f: SkillFilters)
    requires
        spec_summary_matches(s, f),
    ensures
        passes_each_filter(s, f),
{
    if let Some(id) = f.preset_id {
        let j = choose|j: int| 0 <= j < strs_view(s.preset_ids@).len() && strs_view(s.preset_ids@)[j] == id@;
        assert(s.preset_ids@[j]@ == id@);
    }
    if let Some(a) = f.deployed_to {
        let j = choose|j: int| 0 <= j < strs_view(s.deployed_to@).len() && strs_view(s.deployed_to@)[j] == a@;
        assert(s.deployed_to@[j]@ == a@);
    }
}

/// The agent filter: where it names agent `a`, a listed skill passes exactly
/// when it passes the other filters and lists `a` among the agents it is
/// deployed to. Naming an agent never lets through a skill not deployed to
/// it, and never turns away one that is, for that reason.
pub proof fn lemma_deployed_to_filter(s: SkillSummary, f: SkillFilters, a: String)
    requires
        f.deployed_to == Some(a),
    ensures
        spec_summary_matches(s, f) <==> (spec_summary_matches(s, (SkillFilters { deployed_to: None, ..f }))
            && exists|j: int| 0 <= j < s.deployed_to.len() && (#[trigger] s.deployed_to@[j])@ == a@),
{
    let g = SkillFilters { deployed_to: None, ..f };
    if exists|j: int| 0 <= j < s.deployed_to.len() && (#[trigger] s.deployed_to@[j])@ == a@ {
        let j = choose|j: int| 0 <= j < s.deployed_to.len() && (#[trigger] s.deployed_to@[j])@ == a@;
        assert(strs_view(s.deployed_to@)[j] == a@);
    }
    if spec_summary_matches(s, f) {
        lemma_matching_passes_each_filter(s, f);
    }
    assert(g.tags == f.tags);
}

/// The preset filter: where it names preset `id`, a listed skill passes
/// exactly when it passes the other filters and belongs to that preset.
pub proof fn lemma_preset_filter(s: SkillSummary, f: SkillFilters, id: String)
    requires
        f.preset_id == Some(id),
    ensures
        spec_summary_matches(s, f) <==> (spec_summary_matches(s, (SkillFilters { preset_id: None, ..f }))
            && exists|j: int| 0 <= j < s.preset_ids.len() && (#[trigger] s.preset_ids@[j])@ == id@),
{
    let g = SkillFilters { preset_id: None, ..f };
    if exists|j: int| 0 <= j < s.preset_ids.len() && (#[trigger] s.preset_ids@[j])@ == id@ {
        let j = choose|j: int| 0 <= j < s.preset_ids.len() && (#[trigger] s.preset_ids@[j])@ == id@;
        assert(strs_view(s.preset_ids@)[j] == id@);
    }
    if spec_summary_matches(s, f) {
        lemma_matching_passes_each_filter(s, f);
    }
    assert(g.tags == f.tags);
}

/// The "untagged" and "in no preset" filters: asking for them lets through
/// exactly the skills that pass otherwise and have no tag, or are in no
/// preset.
pub proof fn lemma_untagged_and_no_preset_filters(s: SkillSummary, f: SkillFilters)
    ensures
        f.untagged ==> (spec_summary_matches(s, f) <==> (spec_summary_matches(s, (SkillFilters { untagged: false, ..f }))
            && s.tags.len() == 0)),
        f.no_preset ==> (spec_summary_matches(s, f) <==> (spec_summary_matches(s, (SkillFilters { no_preset: false, ..f }))
            && s.preset_ids.len() == 0)),
{
    let g = SkillFilters { untagged: false, ..f };
    let h = SkillFilters { no_preset: false, ..f };
    assert(g.tags == f.tags);
    assert(h.tags == f.tags);
}

/// The query and source filters: where the query `q` is given, a listed
/// skill passes exactly when it passes the other filters and its name or
/// description, in lower case, contains `q`; likewise for the source and the
/// skill's source type or reference.
pub proof fn lemma_query_and_source_filters(s: SkillSummary, f: SkillFilters)
    ensures
        f.query matches Some(q) ==> (spec_summary_matches(s, f) <==> (
            spec_summary_matches(s, (SkillFilters { query: None, ..f }))
            && (find(spec_str_lowercase(s.name@), q@) is Some
                || find(spec_str_lowercase(or_empty(opt_view(s.description))), q@) is Some))),
        f.source matches Some(q) ==> (spec_summary_matches(s, f) <==> (
            spec_summary_matches(s, (SkillFilters { source: None, ..f }))
            && (find(spec_str_lowercase(s.source_type@), q@) is Some
                || find(spec_str_lowercase(or_empty(opt_view(s.source_ref))), q@) is Some))),
{
    let g = SkillFilters { query: None, ..f };
    let h = SkillFilters { source: None, ..f };
    assert(g.tags == f.tags);
    assert(h.tags == f.tags);
}

/// The tag filter: comparing filters `f` and `g` that differ only in that
/// `g` asks for no tag, a listed skill passes `f` exactly when it passes `g`
/// and carries every tag that `f` asks for.
pub proof fn lemma_tags_filter(s: SkillSummary, f: SkillFilters, g: SkillFilters)
    requires
        g.tags.len() == 0,
        g.query == f.query,
        g.untagged == f.untagged,
        g.no_preset == f.no_preset,
        g.preset_id == f.preset_id,
        g.deployed_to == f.deployed_to,
        g.source == f.source,
    ensures
        spec_summary_matches(s, f) <==> (spec_summary_matches(s, g)
            && forall|i: int| 0 <= i < f.tags.len() ==> carries_tag(s, #[trigger] f.tags@[i]@)),
{
    assert forall|i: int| 0 <= i < f.tags.len() implies (strs_view(s.tags@).contains(#[trigger] f.tags@[i]@)
        <==> carries_tag(s, f.tags@[i]@)) by {
        if strs_view(s.tags@).contains(f.tags@[i]@) {
            let j = choose|j: int| 0 <= j < strs_view(s.tags@).len() && strs_view(s.tags@)[j] == f.tags@[i]@;
            assert(s.tags@[j]@ == f.tags@[i]@);
        }
        if carries_tag(s, f.tags@[i]@) {
            let j = choose|j: int| 0 <= j < s.tags.len() && (#[trigger] s.tags@[j])@ == f.tags@[i]@;
            assert(strs_view(s.tags@)[j] == f.tags@[i]@);
        }
    }
    assert(forall|i: int| 0 <= i < g.tags.len() ==> strs_view(s.tags@).contains(#[trigger] g.tags@[i]@));
}

/// Whether the listed skill `s` carries the tag `t`.
pub open spec fn carries_tag(s: SkillSummary, t: Seq<char>) -> bool {
    exists|j: int| 0 <= j < s.tags.len() && (#[trigger] s.tags@[j])@ == t
}

/// With no filter given, every listed skill passes.
pub proof fn lemma_no_filter_passes_all(s: SkillSummary, f: SkillFilters)
    requires
        f.query is None,
        f.tags.len() == 0,
        !f.untagged,
        !f.no_preset,
        f.preset_id is None,
        f.deployed_to is None,
        f.source is None,
    ensures
        spec_summary_matches(s, f),
{
}

fn mentions_exec(a: &str, b: &Option<String>, needle: &str) -> (r: bool)
    ensures
        r == mentions(a@, or_empty(opt_view(*b)), needle@),
{
    let la = str_lowercase(a);
    if contains_text(la.as_str(), needle) {
        return true;
    }
    let lb = match b {
        Some(v) => str_lowercase(v.as_str()),
        None => str_lowercase(""),
    };
    proof {
        if b is None {
            reveal_strlit("");
            assert(""@ =~= Seq::<char>::empty());
        }
    }
    contains_text(lb.as_str(), needle)
}

/// Whether a listed skill passes the filters (see [`spec_summary_matches`]).
pub fn summary_matches(s: &SkillSummary, f: &SkillFilters) -> (r: bool)
    ensures
        r == spec_summary_matches(*s, *f),
        r ==> passes_each_filter(*s, *f),
{
    if let Some(q) = &f.query {
        if !mentions_exec(s.name.as_str(), &s.description, q.as_str()) {
            return false;
        }
    }
    let mut i: usize = 0;
    while i < f.tags.len()
        invariant
            i <= f.tags.len(),
            forall|j: int| 0 <= j < i ==> strs_view(s.tags@).contains(#[trigger] f.tags@[j]@),
        decreases f.tags.len() - i,
    {
        if !contains_key(&s.tags, f.tags[i].as_str()) {
            return false;
        }
        i += 1;
    }
    if f.untagged && s.tags.len() != 0 {
        return false;
    }
    if f.no_preset && s.preset_ids.len() != 0 {
        return false;
    }
    if let Some(id) = &f.preset_id {
        if !contains_key(&s.preset_ids, id.as_str()) {
            return false;
        }
    }
    if let Some(a) = &f.deployed_to {
        if !contains_key(&s.deployed_to, a.as_str()) {
            return false;
        }
    }
    if let Some(q) = &f.source {
        if !mentions_exec(s.source_type.as_str(), &s.source_ref, q.as_str()) {
            return false;
        }
    }
    true
}

/// The listed skills that pass the filters, by index, in order.
pub fn filter_summaries(summaries: &Vec<SkillSummary>, f: &SkillFilters) -> (r: Vec<usize>)
    ensures
        indices_view(r@) == Seq::new(summaries.len() as nat, |k: int| k).filter(
            |k: int| spec_summary_matches(summaries@[k], *f),
        ),
        forall|i: int| 0 <= i < r.len() ==> (#[trigger] r@[i]) < summaries.len()
            && passes_each_filter(summaries@[r@[i] as int], *f),
{
    let ghost keep = |k: int| spec_summary_matches(summaries@[k], *f);
    let mut out: Vec<usize> = Vec::new();
    let mut k: usize = 0;
    while k < summaries.len()
        invariant
            k <= summaries.len(),
            keep == (|k: int| spec_summary_matches(summaries@[k], *f)),
            indices_view(out@) == Seq::new(k as nat, |x: int| x).filter(keep),
            forall|i: int| 0 <= i < out.len() ==> #[trigger] out@[i] < k,
        decreases summaries.len() - k,
    {
        let ghost before = out@;
        proof {
            reveal(Seq::filter);
            assert(Seq::new(k as nat + 1, |x: int| x).drop_last() =~= Seq::new(k as nat, |x: int| x));
        }
        if summary_matches(&summaries[k], f) {
            out.push(k);
            assert(indices_view(out@) =~= indices_view(before).push(k as int));
        }
        k += 1;
    }
    proof {
        let all = Seq::new(summaries.len() as nat, |x: int| x);
        assert forall|i: int| 0 <= i < out.len() implies (#[trigger] out@[i]) < summaries.len()
            && passes_each_filter(summaries@[out@[i] as int], *f) by {
            all.lemma_filter_pred(keep, i);
            assert(indices_view(out@)[i] == out@[i] as int);
            let x = all.filter(keep)[i];
            lemma_matching_passes_each_filter(summaries@[x], *f);
        }
    }
    out
}

/// Where and whether a skill is deployed to one agent.
pub struct SkillAgentStatus {
    pub key: String,
    pub display_name: String,
    pub installed: bool,
    pub globally_enabled: bool,
    pub deployed: bool,
    pub target_path: Option<String>,
}

/// The test of being a target for the agent `key`, as a predicate.
pub open spec fn tool_pred(key: Seq<char>) -> spec_fn(SkillTargetRecord) -> bool {
    |t: SkillTargetRecord| t.tool@ == key
}

/// The status of a skill for a known agent: from the agent's record and the
/// skill's first target for it.
pub open spec fn registered_status(a: SkillAgentStatus, info: ToolInfo, targets: Seq<SkillTargetRecord>) -> bool {
    let f = crate::text::first_where(targets, tool_pred(info.key@));
    &&& a.key@ == info.key@
    &&& a.display_name@ == info.display_name@
    &&& a.installed == info.installed
    &&& a.globally_enabled == info.enabled
    &&& a.deployed == (f < targets.len() && targets[f].status@ == "ok"@)
    &&& opt_view(a.target_path) == if f < targets.len() {
        Some(targets[f].target_path@)
    } else {
        None::<Seq<char>>
    }
}

/// The status of a skill for an agent that is no longer known, from its
/// target alone.
pub open spec fn unregistered_status(a: SkillAgentStatus, t: SkillTargetRecord) -> bool {
    &&& a.key@ == t.tool@
    &&& a.display_name@ == t.tool@
    &&& !a.installed
    &&& !a.globally_enabled
    &&& a.deployed == (t.status@ == "ok"@)
    &&& opt_view(a.target_path) == Some(t.target_path@)
}

/// Whether some known agent has the key `key`.
pub open spec fn known_tool(infos: Seq<ToolInfo>, key: Seq<char>) -> bool {
    exists|i: int| 0 <= i < infos.len() && (#[trigger] infos[i]).key@ == key
}

/// The indices of the targets whose agent is not known, in order.
pub open spec fn unregistered_targets(targets: Seq<SkillTargetRecord>, infos: Seq<ToolInfo>) -> Seq<int> {
    Seq::new(targets.len(), |k: int| k).filter(|k: int| !known_tool(infos, targets[k].tool@))
}

/// `statuses`, after one per known agent, hold one per target of an
/// unknown agent, in the `order` of a stable sort (by `idx`) of those
/// targets by agent key.
pub open spec fn unregistered_part(
    statuses: Seq<SkillAgentStatus>,
    infos: Seq<ToolInfo>,
    targets: Seq<SkillTargetRecord>,
    order: Seq<int>,
    idx: Seq<int>,
) -> bool {
    let u = unregistered_targets(targets, infos);
    &&& is_stable_sort_by(u, u.map_values(|k: int| targets[k].tool@), order, idx)
    &&& statuses.len() == infos.len() + order.len()
    &&& forall|j: int| 0 <= j < order.len() ==> unregistered_status(#[trigger] statuses[infos.len() + j], targets[order[j]])
}

/// Whether `tool` is the key of one of the known agents.
fn is_known_tool(infos: &Vec<ToolInfo>, tool: &str) -> (r: bool)
    ensures
        r == known_tool(infos@, tool@),
{
    let mut i: usize = 0;
    while i < infos.len()
        invariant
            i <= infos.len(),
            forall|j: int| 0 <= j < i ==> (#[trigger] infos@[j]).key@ != tool@,
        decreases infos.len() - i,
    {
        if str_eq(infos[i].key.as_str(), tool) {
            return true;
        }
        i += 1;
    }
    false
}

/// The first of `targets` for the agent `key`, if any.
pub(crate) fn first_target_for(targets: &Vec<SkillTargetRecord>, key: &str) -> (r: Option<usize>)
    ensures
        match r {
            Some(k) => k == crate::text::first_where(targets@, tool_pred(key@)) && k < targets.len(),
            None => crate::text::first_where(targets@, tool_pred(key@)) == targets.len(),
        },
{
    let ghost p = tool_pred(key@);
    let mut k: usize = 0;
    while k < targets.len()
        invariant
            k <= targets.len(),
            p == tool_pred(key@),
            forall|t: int| 0 <= t < k ==> !p(#[trigger] targets@[t]),
        decreases targets.len() - k,
    {
        if str_eq(targets[k].tool.as_str(), key) {
            proof {
                crate::text::lemma_first_where_is(targets@, p, k as int);
            }
            return Some(k);
        }
        k += 1;
    }
    proof {
        crate::text::lemma_first_where_is(targets@, p, k as int);
    }
    None
}

/// Where and whether a skill is deployed, agent by agent: first each known
/// agent in order (see [`registered_status`]), then each target of an agent
/// that is no longer known, stably sorted by agent key (see
/// [`unregistered_status`]). `targets` are the skill's targets.
pub fn skill_agent_statuses(infos: &Vec<ToolInfo>, targets: &Vec<SkillTargetRecord>) -> (r: Vec<SkillAgentStatus>)
    ensures
        r.len() >= infos.len(),
        forall|j: int| 0 <= j < infos.len() ==> registered_status(#[trigger] r@[j], infos@[j], targets@),
        exists|order: Seq<int>, idx: Seq<int>| #[trigger] unregistered_part(r@, infos@, targets@, order, idx),
{
    let mut out: Vec<SkillAgentStatus> = Vec::new();
    let mut i: usize = 0;
    while i < infos.len()
        invariant
            i <= infos.len(),
            out.len() == i,
            forall|j: int| 0 <= j < i ==> registered_status(#[trigger] out@[j], infos@[j], targets@),
        decreases infos.len() - i,
    {
        let info = &infos[i];
        let status = match first_target_for(targets, info.key.as_str()) {
            Some(f) => SkillAgentStatus {
                key: info.key.clone(),
                display_name: info.display_name.clone(),
                installed: info.installed,
                globally_enabled: info.enabled,
                deployed: str_eq(targets[f].status.as_str(), "ok"),
                target_path: Some(targets[f].target_path.clone()),
            },
            None => SkillAgentStatus {
                key: info.key.clone(),
                display_name: info.display_name.clone(),
                installed: info.installed,
                globally_enabled: info.enabled,
                deployed: false,
                target_path: None,
            },
        };
        out.push(status);
        i += 1;
    }
    let ghost keep = |k: int| !known_tool(infos@, targets@[k].tool@);
    let mut extra: Vec<usize> = Vec::new();
    let mut keys: Vec<String> = Vec::new();
    let mut k: usize = 0;
    while k < targets.len()
        invariant
            k <= targets.len(),
            keep == (|k: int| !known_tool(infos@, targets@[k].tool@)),
            indices_view(extra@) == Seq::new(k as nat, |x: int| x).filter(keep),
            keys.len() == extra.len(),
            forall|j: int| 0 <= j < extra.len() ==> #[trigger] extra@[j] < k && keys@[j]@ == targets@[extra@[j] as int].tool@,
        decreases targets.len() - k,
    {
        let ghost before = extra@;
        proof {
            reveal(Seq::filter);
            assert(Seq::new(k as nat + 1, |x: int| x).drop_last() =~= Seq::new(k as nat, |x: int| x));
        }
        if !is_known_tool(infos, targets[k].tool.as_str()) {
            extra.push(k);
            keys.push(targets[k].tool.clone());
            assert(indices_view(extra@) =~= indices_view(before).push(k as int));
        }
        k += 1;
    }
    let ghost u = unregistered_targets(targets@, infos@);
    assert(indices_view(extra@) == u);
    assert(strs_view(keys@) =~= u.map_values(|k: int| targets@[k].tool@)) by {
        assert forall|j: int| 0 <= j < keys.len() implies strs_view(keys@)[j] == u.map_values(|k: int| targets@[k].tool@)[j] by {
            assert(u[j] == extra@[j] as int);
        }
    }
    let ghost ev = extra@;
    let sorted = sort_by_keys(extra, keys);
    let ghost idx = choose|idx: Seq<int>| is_stable_sort_by(ev, strs_view(keys@), sorted@, idx);
    proof {
        assert forall|x: int| 0 <= x < sorted.len() implies (#[trigger] sorted@[x]) < targets.len() by {
            assert(sorted@[x] == ev[idx[x]]);
        }
    }
    let mut j: usize = 0;
    let base = out.len();
    while j < sorted.len()
        invariant
            j <= sorted.len(),
            base == infos.len(),
            out.len() == base + j,
            forall|x: int| 0 <= x < infos.len() ==> registered_status(#[trigger] out@[x], infos@[x], targets@),
            forall|x: int| 0 <= x < sorted.len() ==> (#[trigger] sorted@[x]) < targets.len(),
            forall|x: int| 0 <= x < j ==> unregistered_status(#[trigger] out@[base + x], targets@[sorted@[x] as int]),
        decreases sorted.len() - j,
    {
        let t = &targets[sorted[j]];
        out.push(SkillAgentStatus {
            key: t.tool.clone(),
            display_name: t.tool.clone(),
            installed: false,
            globally_enabled: false,
            deployed: str_eq(t.status.as_str(), "ok"),
            target_path: Some(t.target_path.clone()),
        });
        j += 1;
    }
    proof {
        let u = unregistered_targets(targets@, infos@);
        let sv = indices_view(sorted@);
        let kv = u.map_values(|k: int| targets@[k].tool@);
        assert(is_stable_sort_by(u, kv, sv, idx)) by {
            assert(indices_view(ev) == u);
            assert forall|p: int| 0 <= p < idx.len() implies 0 <= #[trigger] idx[p] < u.len() && sv[p] == u[idx[p]] by {
                assert(sorted@[p] == ev[idx[p]]);
            }
        }
        assert(unregistered_part(out@, infos@, targets@, sv, idx));
    }
    out
}


/// The agents an enable or disable command names, by index, each once, in
/// the order first named; no key at all, or one that names no agent, is an
/// error.
pub fn resolve_agent_keys(infos: &Vec<ToolInfo>, agents: &Vec<String>) -> (r: Result<Vec<usize>, AppError>)
    ensures
        agents.len() == 0 ==> (r matches Err(e) && e.kind == ErrorKind::InvalidInput
            && e.message@ == "no agent key provided"@),
        agents.len() > 0 ==> match spec_select_agents(infos@, strs_view(agents@), false) {
            Ok(picked) => (r matches Ok(v) && indices_view(v@) == picked),
            Err(e) => (r matches Err(x) && err_view(x) == e),
        },
        r matches Ok(v) ==> forall|j: int| 0 <= j < v.len() ==> v@[j] < infos.len(),
{
    if agents.len() == 0 {
        return Err(AppError::invalid_input("no agent key provided"));
    }
    select_preset_agents(infos, agents, false)
}

/// What enabling or disabling an agent reports.
pub struct AgentMutationReport {
    pub agent: String,
    pub enabled: bool,
    pub changed: bool,
}

/// The report of setting the agent's enabled state to `enabled`: changed
/// when that differs from its state before.
pub fn agent_mutation_report(info: &ToolInfo, enabled: bool) -> (r: AgentMutationReport)
    ensures
        r.agent@ == info.key@,
        r.enabled == enabled,
        r.changed == (info.enabled != enabled),
{
    AgentMutationReport { agent: info.key.clone(), enabled, changed: info.enabled != enabled }
}

/// How many results a search asks for: 60 by default, and at least 1 and
/// at most 300.
pub open spec fn spec_search_limit(limit: Option<usize>) -> usize {
    let n = match limit {
        Some(n) => n,
        None => 60,
    };
    if n < 1 {
        1
    } else if n > 300 {
        300
    } else {
        n
    }
}

/// How many results a search asks for (see [`spec_search_limit`]).
pub fn search_limit(limit: Option<usize>) -> (r: usize)
    ensures
        r == spec_search_limit(limit),
        1 <= r <= 300,
{
    let n = match limit {
        Some(n) => n,
        None => 60,
    };
    if n < 1 {
        1
    } else if n > 300 {
        300
    } else {
        n
    }
}

/// The install reference of a search hit (`source/skill`) and its page on
/// skills.sh.
pub fn search_refs(source: &str, skill_id: &str) -> (r: (String, String))
    ensures
        r.0@ == source@ + "/"@ + skill_id@,
        r.1@ == "https://skills.sh/"@ + source@ + "/"@ + skill_id@,
{
    let mut install_ref = source.to_string();
    push_str(&mut install_ref, "/");
    push_str(&mut install_ref, skill_id);
    let mut url = "https://skills.sh/".to_string();
    push_str(&mut url, source);
    push_str(&mut url, "/");
    push_str(&mut url, skill_id);
    (install_ref, url)
}

/// The arguments of an adoption: at least one path; a git URL with exactly
/// one path; a git subpath only with a git URL.
pub fn check_adopt_arguments(path_count: usize, has_git_url: bool, has_git_subpath: bool) -> (r: Result<(), AppError>)
    ensures
        path_count == 0 ==> (r matches Err(e) && e.message@ == "provide at least one path to scan"@),
        path_count > 0 && has_git_url && path_count != 1 ==> (r matches Err(e) && e.message@ == "--git-url requires exactly one path"@),
        path_count > 0 && !(has_git_url && path_count != 1) && has_git_subpath && !has_git_url
            ==> (r matches Err(e) && e.message@ == "--git-subpath requires --git-url"@),
        r is Ok <==> (path_count > 0 && !(has_git_url && path_count != 1) && !(has_git_subpath && !has_git_url)),
        r matches Err(e) ==> e.kind == ErrorKind::InvalidInput,
{
    if path_count == 0 {
        return Err(AppError::invalid_input("provide at least one path to scan"));
    }
    if has_git_url && path_count != 1 {
        return Err(AppError::invalid_input("--git-url requires exactly one path"));
    }
    if has_git_subpath && !has_git_url {
        return Err(AppError::invalid_input("--git-subpath requires --git-url"));
    }
    Ok(())
}

/// The subpath an adopted skill records for its git source: the one given
/// explicitly (an empty one meaning the repository root), else the one the
/// URL names; with neither, the adoption fails and says how to give one.
pub open spec fn spec_adopt_subpath(given: Option<Seq<char>>, from_url: Option<Seq<char>>) -> Result<Option<Seq<char>>, Seq<char>> {
    match given {
        Some(s) => Ok(if s.len() == 0 {
            None
        } else {
            Some(s)
        }),
        None => match from_url {
            Some(s) => Ok(Some(s)),
            None => Err(
                "--git-url has no subpath and --git-subpath was not provided. Pass --git-subpath \"\" if the skill lives at the repo root, --git-subpath <path> for a subdirectory, or use a URL like https://github.com/owner/repo/tree/branch/path/to/skill"@,
            ),
        },
    }
}

/// The subpath an adopted skill records for its git source (see
/// [`spec_adopt_subpath`]).
pub fn adopt_subpath(given: Option<&str>, from_url: Option<&str>) -> (r: Result<Option<String>, AppError>)
    ensures
        match spec_adopt_subpath(crate::presets::opt_str(given), crate::presets::opt_str(from_url)) {
            Ok(p) => (r matches Ok(q) && opt_view(q) == p),
            Err(m) => (r matches Err(e) && e.kind == ErrorKind::InvalidInput && e.message@ == m),
        },
{
    match given {
        Some(s) => {
            if s.is_empty() {
                Ok(None)
            } else {
                Ok(Some(s.to_string()))
            }
        },
        None => match from_url {
            Some(s) => Ok(Some(s.to_string())),
            None => Err(AppError::invalid_input(
                "--git-url has no subpath and --git-subpath was not provided. Pass --git-subpath \"\" if the skill lives at the repo root, --git-subpath <path> for a subdirectory, or use a URL like https://github.com/owner/repo/tree/branch/path/to/skill",
            )),
        },
    }
}

/// What an adoption scan makes of a directory.
#[derive(PartialEq, Eq, Structural, Debug, Clone, Copy)]
pub enum AdoptVerdict {
    /// A path given to scan that is not a directory.
    NotADirectory,
    /// Already the store's own or a deployment's path.
    AlreadyManaged,
    /// A link into the central repository.
    SymlinkIntoCentral,
    /// No `SKILL.md` in it.
    NotASkill,
    /// A skill that can be adopted.
    Ready,
}

/// What an adoption scan makes of a directory: one the store already knows
/// (itself or its canonical path) is managed; a link that resolves into the
/// central repository is managed; one without a skill file is no skill;
/// else it is ready.
pub open spec fn spec_adopt_verdict(excluded: bool, is_symlink: bool, into_central: bool, is_skill_dir: bool) -> AdoptVerdict {
    if excluded {
        AdoptVerdict::AlreadyManaged
    } else if is_symlink && into_central {
        AdoptVerdict::SymlinkIntoCentral
    } else if !is_skill_dir {
        AdoptVerdict::NotASkill
    } else {
        AdoptVerdict::Ready
    }
}

/// What an adoption scan makes of a directory (see [`spec_adopt_verdict`]).
pub fn adopt_verdict(excluded: bool, is_symlink: bool, into_central: bool, is_skill_dir: bool) -> (r: AdoptVerdict)
    ensures
        r == spec_adopt_verdict(excluded, is_symlink, into_central, is_skill_dir),
{
    if excluded {
        AdoptVerdict::AlreadyManaged
    } else if is_symlink && into_central {
        AdoptVerdict::SymlinkIntoCentral
    } else if !is_skill_dir {
        AdoptVerdict::NotASkill
    } else {
        AdoptVerdict::Ready
    }
}

/// The reason an adoption report gives for a verdict.
pub open spec fn spec_adopt_reason(v: AdoptVerdict) -> Seq<char> {
    match v {
        AdoptVerdict::NotADirectory => "not a directory"@,
        AdoptVerdict::AlreadyManaged => "already managed (in DB or sync target)"@,
        AdoptVerdict::SymlinkIntoCentral => "symlink into central repo (already managed)"@,
        AdoptVerdict::NotASkill => "no SKILL.md / skill.md"@,
        AdoptVerdict::Ready => "ready"@,
    }
}

/// The reason an adoption report gives for a verdict (see
/// [`spec_adopt_reason`]).
pub fn adopt_reason(v: AdoptVerdict) -> (r: String)
    ensures
        r@ == spec_adopt_reason(v),
{
    match v {
        AdoptVerdict::NotADirectory => "not a directory".to_string(),
        AdoptVerdict::AlreadyManaged => "already managed (in DB or sync target)".to_string(),
        AdoptVerdict::SymlinkIntoCentral => "symlink into central repo (already managed)".to_string(),
        AdoptVerdict::NotASkill => "no SKILL.md / skill.md".to_string(),
        AdoptVerdict::Ready => "ready".to_string(),
    }
}

/// An adoption from a git URL must find exactly one skill to adopt.
pub fn check_git_adoption(has_git_url: bool, candidate_count: usize) -> (r: Result<(), AppError>)
    ensures
        r is Err <==> (has_git_url && candidate_count != 1),
        r matches Err(e) ==> e.kind == ErrorKind::InvalidInput
            && e.message@ == "--git-url requires exactly one adoptable skill, found "@ + decimal(candidate_count as nat),
{
    if has_git_url && candidate_count != 1 {
        let mut msg = "--git-url requires exactly one adoptable skill, found ".to_string();
        let n = to_decimal(candidate_count as u128);
        push_str(&mut msg, n.as_str());
        return Err(AppError { kind: ErrorKind::InvalidInput, message: msg });
    }
    Ok(())
}


/// How refreshing one skill of a batch went.
pub enum RefreshOutcome {
    /// No skill has the id.
    Missing,
    /// Refreshed; `changed` tells whether its content changed (a local
    /// reimport always counts as changed).
    Refreshed { changed: bool },
    /// The refresh failed with this message.
    Failed(String),
    /// Its source type cannot be refreshed.
    Unsupported,
}

/// The line a batch refresh reports for a skill that failed, if it did:
/// an unknown id with "Skill not found", a failure with its message, an
/// unsupported source type with a note; each after the id or name.
pub open spec fn failure_of(id: Seq<char>, name: Seq<char>, outcome: RefreshOutcome) -> Option<Seq<char>> {
    match outcome {
        RefreshOutcome::Missing => Some(id + ": Skill not found"@),
        RefreshOutcome::Refreshed { .. } => None,
        RefreshOutcome::Failed(m) => Some(name + ": "@ + m@),
        RefreshOutcome::Unsupported => Some(name + ": Source type cannot be refreshed"@),
    }
}

/// The summary of a batch refresh of `(id, name, outcome)` items: how many
/// were refreshed with changed content, how many were unchanged, and the
/// failure lines in order.
pub open spec fn spec_tally(items: Seq<(String, String, RefreshOutcome)>) -> (nat, nat, Seq<Seq<char>>)
    decreases items.len(),
{
    if items.len() == 0 {
        (0, 0, seq![])
    } else {
        let (r, u, f) = spec_tally(items.drop_last());
        let (id, name, outcome) = items.last();
        match outcome {
            RefreshOutcome::Refreshed { changed } => if changed {
                (r + 1, u, f)
            } else {
                (r, u + 1, f)
            },
            _ => (r, u, f.push(failure_of(id@, name@, outcome).unwrap())),
        }
    }
}

/// A batch refresh accounts for every item once: as refreshed, unchanged
/// or failed.
pub proof fn lemma_tally_counts_each_item(items: Seq<(String, String, RefreshOutcome)>)
    ensures
        spec_tally(items).0 + spec_tally(items).1 + spec_tally(items).2.len() == items.len(),
    decreases items.len(),
{
    if items.len() > 0 {
        lemma_tally_counts_each_item(items.drop_last());
    }
}

/// The summary of a batch refresh (see [`spec_tally`]).
pub fn tally_batch_update(items: &Vec<(String, String, RefreshOutcome)>) -> (r: BatchUpdateSkillsResult)
    ensures
        (r.refreshed as nat, r.unchanged as nat, strs_view(r.failed@)) == spec_tally(items@),
{
    let mut refreshed: usize = 0;
    let mut unchanged: usize = 0;
    let mut failed: Vec<String> = Vec::new();
    let mut k: usize = 0;
    assert(items@.take(0) =~= Seq::<(String, String, RefreshOutcome)>::empty());
    assert(strs_view(failed@) =~= Seq::<Seq<char>>::empty());
    while k < items.len()
        invariant
            k <= items.len(),
            (refreshed as nat, unchanged as nat, strs_view(failed@)) == spec_tally(items@.take(k as int)),
        decreases items.len() - k,
    {
        assert(items@.take(k as int + 1).drop_last() =~= items@.take(k as int));
        assert(items@.take(k as int + 1).last() == items@[k as int]);
        proof {
            lemma_tally_counts_each_item(items@.take(k as int));
        }
        let (id, name, outcome) = &items[k];
        let ghost before = failed@;
        match outcome {
            RefreshOutcome::Refreshed { changed } => {
                if *changed {
                    refreshed += 1;
                } else {
                    unchanged += 1;
                }
            },
            RefreshOutcome::Missing => {
                let mut line = id.clone();
                push_str(&mut line, ": Skill not found");
                failed.push(line);
                assert(strs_view(failed@) =~= strs_view(before).push(id@ + ": Skill not found"@));
            },
            RefreshOutcome::Failed(m) => {
                let mut line = name.clone();
                push_str(&mut line, ": ");
                push_str(&mut line, m.as_str());
                failed.push(line);
                assert(strs_view(failed@) =~= strs_view(before).push(name@ + ": "@ + m@));
            },
            RefreshOutcome::Unsupported => {
                let mut line = name.clone();
                push_str(&mut line, ": Source type cannot be refreshed");
                failed.push(line);
                assert(strs_view(failed@) =~= strs_view(before).push(name@ + ": Source type cannot be refreshed"@));
            },
        }
        k += 1;
    }
    assert(items@.take(items.len() as int) =~= items@);
    BatchUpdateSkillsResult { refreshed, unchanged, failed }
}

/// The summary of deleting skills by id, given for each id whether the store
/// held a skill under it: how many were deleted, and the ids that were not
/// found, in order.
pub open spec fn spec_delete_tally(items: Seq<(String, bool)>) -> (nat, Seq<Seq<char>>)
    decreases items.len(),
{
    if items.len() == 0 {
        (0, seq![])
    } else {
        let (d, f) = spec_delete_tally(items.drop_last());
        let (id, found) = items.last();
        if found {
            (d + 1, f)
        } else {
            (d, f.push(id@))
        }
    }
}

/// Every id is either deleted or listed as failed.
pub proof fn lemma_delete_tally_counts_each_id(items: Seq<(String, bool)>)
    ensures
        spec_delete_tally(items).0 + spec_delete_tally(items).1.len() == items.len(),
    decreases items.len(),
{
    if items.len() > 0 {
        lemma_delete_tally_counts_each_id(items.drop_last());
    }
}

/// The summary of a batch deletion (see [`spec_delete_tally`]).
pub fn tally_batch_delete(items: &Vec<(String, bool)>) -> (r: BatchDeleteSkillsResult)
    ensures
        (r.deleted as nat, strs_view(r.failed@)) == spec_delete_tally(items@),
{
    let mut deleted: usize = 0;
    let mut failed: Vec<String> = Vec::new();
    let mut k: usize = 0;
    assert(items@.take(0) =~= Seq::<(String, bool)>::empty());
    assert(strs_view(failed@) =~= Seq::<Seq<char>>::empty());
    while k < items.len()
        invariant
            k <= items.len(),
            (deleted as nat, strs_view(failed@)) == spec_delete_tally(items@.take(k as int)),
        decreases items.len() - k,
    {
        assert(items@.take(k as int + 1).drop_last() =~= items@.take(k as int));
        assert(items@.take(k as int + 1).last() == items@[k as int]);
        proof {
            lemma_delete_tally_counts_each_id(items@.take(k as int));
        }
        let (id, found) = &items[k];
        if *found {
            deleted += 1;
        } else {
            let ghost before = failed@;
            failed.push(id.clone());
            assert(strs_view(failed@) =~= strs_view(before).push(id@));
        }
        k += 1;
    }
    assert(items@.take(items.len() as int) =~= items@);
    BatchDeleteSkillsResult { deleted, failed }
}

/// Deleting a single skill fails with "Skill not found" exactly when nothing
/// was deleted.
pub fn check_single_delete(result: &BatchDeleteSkillsResult) -> (r: Result<(), AppError>)
    ensures
        r is Ok <==> result.deleted > 0,
        r is Err ==> err_view(r->Err_0) == (ErrorKind::NotFound, "Skill not found"@),
{
    if result.deleted == 0 {
        return Err(AppError::not_found("Skill not found"));
    }
    Ok(())
}

/// What renaming the tag `old_name` to `new_name` does: the new name is
/// trimmed and may not be empty ("invalid input"); renaming a tag to itself
/// does nothing (`None`); else the tag is renamed to the trimmed name
/// (merged into it where it exists).
pub fn rename_tag(old_name: &str, new_name: &str) -> (r: Result<Option<String>, AppError>)
    ensures
        trim(new_name@).len() == 0 ==> (r matches Err(e) && e.kind == ErrorKind::InvalidInput
            && e.message@ == "Tag name cannot be empty"@),
        trim(new_name@).len() > 0 && trim(new_name@) == old_name@ ==> r matches Ok(None),
        trim(new_name@).len() > 0 && trim(new_name@) != old_name@ ==> (r matches Ok(Some(n)) && n@ == trim(new_name@)),
{
    if crate::skills::blank(new_name) {
        return Err(AppError::invalid_input("Tag name cannot be empty"));
    }
    let n = trimmed_str(new_name);
    if str_eq(n.as_str(), old_name) {
        return Ok(None);
    }
    Ok(Some(n))
}

/// What happened to one skill directory of a folder imported in bulk.
pub enum ImportOutcome {
    /// A skill already lives where this one would be installed.
    Skipped,
    /// It was installed.
    Imported,
    /// Installing it failed with this message.
    Failed(String),
}

/// The summary of importing a folder's skills, given each skill's name and
/// outcome: how many were imported, how many skipped, and a line for each
/// failure ("name: message"), in order.
pub open spec fn spec_import_tally(items: Seq<(String, ImportOutcome)>) -> (nat, nat, Seq<Seq<char>>)
    decreases items.len(),
{
    if items.len() == 0 {
        (0, 0, seq![])
    } else {
        let (i, s, e) = spec_import_tally(items.drop_last());
        let (name, outcome) = items.last();
        match outcome {
            ImportOutcome::Imported => (i + 1, s, e),
            ImportOutcome::Skipped => (i, s + 1, e),
            ImportOutcome::Failed(m) => (i, s, e.push(name@ + ": "@ + m@)),
        }
    }
}

/// Every skill of the folder is imported, skipped or reported once.
pub proof fn lemma_import_tally_counts_each_skill(items: Seq<(String, ImportOutcome)>)
    ensures
        spec_import_tally(items).0 + spec_import_tally(items).1 + spec_import_tally(items).2.len() == items.len(),
    decreases items.len(),
{
    if items.len() > 0 {
        lemma_import_tally_counts_each_skill(items.drop_last());
    }
}

/// Importing a folder needs a directory ("invalid input").
pub fn check_import_folder(is_dir: bool) -> (r: Result<(), AppError>)
    ensures
        r is Ok <==> is_dir,
        r matches Err(e) ==> e.kind == ErrorKind::InvalidInput && e.message@ == "Selected path is not a directory"@,
{
    if !is_dir {
        return Err(AppError::invalid_input("Selected path is not a directory"));
    }
    Ok(())
}

/// The summary of importing a folder (see [`spec_import_tally`]).
pub fn tally_batch_import(items: &Vec<(String, ImportOutcome)>) -> (r: BatchImportResult)
    ensures
        (r.imported as nat, r.skipped as nat, strs_view(r.errors@)) == spec_import_tally(items@),
{
    let mut imported: usize = 0;
    let mut skipped: usize = 0;
    let mut errors: Vec<String> = Vec::new();
    let mut k: usize = 0;
    assert(items@.take(0) =~= Seq::<(String, ImportOutcome)>::empty());
    assert(strs_view(errors@) =~= Seq::<Seq<char>>::empty());
    while k < items.len()
        invariant
            k <= items.len(),
            (imported as nat, skipped as nat, strs_view(errors@)) == spec_import_tally(items@.take(k as int)),
        decreases items.len() - k,
    {
        assert(items@.take(k as int + 1).drop_last() =~= items@.take(k as int));
        assert(items@.take(k as int + 1).last() == items@[k as int]);
        proof {
            lemma_import_tally_counts_each_skill(items@.take(k as int));
        }
        let (name, outcome) = &items[k];
        match outcome {
            ImportOutcome::Imported => {
                imported += 1;
            },
            ImportOutcome::Skipped => {
                skipped += 1;
            },
            ImportOutcome::Failed(m) => {
                let ghost before = errors@;
                let mut line = name.clone();
                push_str(&mut line, ": ");
                push_str(&mut line, m.as_str());
                errors.push(line);
                assert(strs_view(errors@) =~= strs_view(before).push(name@ + ": "@ + m@));
            },
        }
        k += 1;
    }
    assert(items@.take(items.len() as int) =~= items@);
    BatchImportResult { imported, skipped, errors }
}

/// Some skill of `skills` has the id `id`.
pub open spec fn has_skill_id(skills: Seq<SkillRecord>, id: Seq<char>) -> bool {
    exists|i: int| 0 <= i < skills.len() && (#[trigger] skills[i]).id@ == id
}

/// `id` is one of `ids`.
pub open spec fn among_ids(ids: Seq<String>, id: Seq<char>) -> bool {
    exists|i: int| 0 <= i < ids.len() && (#[trigger] ids[i])@ == id
}

/// The test of a skill being named for deletion, as a predicate.
pub open spec fn doomed_skill_pred(ids: Seq<String>) -> spec_fn(SkillRecord) -> bool {
    |s: SkillRecord| among_ids(ids, s.id@)
}

/// The test of a deployment belonging to a deleted skill, as a predicate.
pub open spec fn doomed_target_pred(skills: Seq<SkillRecord>, ids: Seq<String>) -> spec_fn(SkillTargetRecord) -> bool {
    |t: SkillTargetRecord| among_ids(ids, t.skill_id@) && has_skill_id(skills, t.skill_id@)
}

/// For each id of a batch deletion, whether it deletes a skill: the store
/// holds a skill with that id and no earlier id of the batch already
/// deleted it.
pub open spec fn delete_items(skills: Seq<SkillRecord>, ids: Seq<String>) -> Seq<(String, bool)> {
    Seq::new(ids.len(), |i: int| (ids[i], has_skill_id(skills, ids[i]@) && !among_ids(ids.take(i), ids[i]@)))
}

/// The distinct ids of `ids` that name a skill of `skills`.
pub open spec fn existing_ids(skills: Seq<SkillRecord>, ids: Seq<String>) -> Set<Seq<char>> {
    Set::new(|id: Seq<char>| among_ids(ids, id) && has_skill_id(skills, id))
}

/// A batch deletion deletes exactly the existing distinct ids: as many
/// skills as there are distinct ids in the batch that name a skill.
pub proof fn lemma_deleted_count(skills: Seq<SkillRecord>, ids: Seq<String>)
    ensures
        existing_ids(skills, ids).finite(),
        spec_delete_tally(delete_items(skills, ids)).0 == existing_ids(skills, ids).len(),
    decreases ids.len(),
{
    if ids.len() == 0 {
        assert(delete_items(skills, ids) =~= Seq::<(String, bool)>::empty());
        assert(existing_ids(skills, ids) =~= Set::<Seq<char>>::empty());
    } else {
        let prev = ids.drop_last();
        let x = ids.last();
        lemma_deleted_count(skills, prev);
        let items = delete_items(skills, ids);
        assert(items.drop_last() =~= delete_items(skills, prev)) by {
            assert forall|i: int| 0 <= i < prev.len() implies #[trigger] items.drop_last()[i] == delete_items(skills, prev)[i] by {
                assert(ids.take(i) =~= prev.take(i));
            }
        }
        assert(prev =~= ids.take(prev.len() as int));
        let before = existing_ids(skills, prev);
        let after = existing_ids(skills, ids);
        assert forall|id: Seq<char>| among_ids(ids, id) == (among_ids(prev, id) || x@ == id) by {
            if among_ids(ids, id) {
                let i = choose|i: int| 0 <= i < ids.len() && (#[trigger] ids[i])@ == id;
                if i < prev.len() {
                    assert(prev[i] == ids[i]);
                }
            }
            if among_ids(prev, id) {
                let i = choose|i: int| 0 <= i < prev.len() && (#[trigger] prev[i])@ == id;
                assert(ids[i] == prev[i]);
            }
            if x@ == id {
                assert(ids[ids.len() - 1] == x);
            }
        }
        if has_skill_id(skills, x@) && !among_ids(prev, x@) {
            assert(after =~= before.insert(x@));
            assert(!before.contains(x@));
        } else {
            assert(after =~= before);
        }
    }
}

/// What deleting skills by id does to the store's skills and deployments.
pub struct SkillDeletion {
    /// How many skills were deleted, and the ids that named none.
    pub result: BatchDeleteSkillsResult,
    /// The indices of the skills to delete (their center copies are removed
    /// from disk), in order.
    pub skills: Vec<usize>,
    /// The indices of the deployments of those skills (removed from the
    /// agents' directories and from the store), in order.
    pub targets: Vec<usize>,
}

/// Whether `id` names a skill of `skills`.
fn find_skill_id(skills: &Vec<SkillRecord>, id: &str) -> (r: bool)
    ensures
        r == has_skill_id(skills@, id@),
{
    let mut i: usize = 0;
    while i < skills.len()
        invariant
            i <= skills.len(),
            forall|j: int| 0 <= j < i ==> (#[trigger] skills@[j]).id@ != id@,
        decreases skills.len() - i,
    {
        if str_eq(skills[i].id.as_str(), id) {
            return true;
        }
        i += 1;
    }
    false
}

/// Whether `id` is one of the first `n` of `ids`.
fn find_id(ids: &Vec<String>, n: usize, id: &str) -> (r: bool)
    requires
        n <= ids.len(),
    ensures
        r == among_ids(ids@.take(n as int), id@),
{
    let mut i: usize = 0;
    while i < n
        invariant
            i <= n <= ids.len(),
            forall|j: int| 0 <= j < i ==> (#[trigger] ids@[j])@ != id@,
        decreases n - i,
    {
        if str_eq(ids[i].as_str(), id) {
            assert(ids@.take(n as int)[i as int] == ids@[i as int]);
            return true;
        }
        i += 1;
    }
    proof {
        if among_ids(ids@.take(n as int), id@) {
            let j = choose|j: int| 0 <= j < n && (#[trigger] ids@.take(n as int)[j])@ == id@;
            assert(ids@.take(n as int)[j] == ids@[j]);
        }
    }
    false
}

/// Deletes the skills named by `skill_ids` from a store holding `skills`
/// and `targets`: each id that names a skill not yet deleted in the batch
/// deletes it, with every deployment of it; the others are reported as
/// failed, in order (see [`spec_delete_tally`]). Every other skill and
/// deployment is kept.
pub fn delete_managed_skills_by_ids(
    skills: &Vec<SkillRecord>,
    targets: &Vec<SkillTargetRecord>,
    skill_ids: &Vec<String>,
) -> (r: SkillDeletion)
    ensures
        (r.result.deleted as nat, strs_view(r.result.failed@)) == spec_delete_tally(delete_items(skills@, skill_ids@)),
        r.result.deleted == existing_ids(skills@, skill_ids@).len(),
        r.skills@.map_values(|i: usize| i as int) == crate::text::indices_where(skills@, doomed_skill_pred(skill_ids@)),
        r.targets@.map_values(|i: usize| i as int) == crate::text::indices_where(
            targets@,
            doomed_target_pred(skills@, skill_ids@),
        ),
{
    let mut items: Vec<(String, bool)> = Vec::new();
    let mut i: usize = 0;
    while i < skill_ids.len()
        invariant
            i <= skill_ids.len(),
            items@.len() == i,
            forall|k: int| 0 <= k < i ==> #[trigger] items@[k] == delete_items(skills@, skill_ids@)[k],
        decreases skill_ids.len() - i,
    {
        let found = find_skill_id(skills, skill_ids[i].as_str()) && !find_id(skill_ids, i, skill_ids[i].as_str());
        items.push((skill_ids[i].clone(), found));
        i += 1;
    }
    assert(items@ =~= delete_items(skills@, skill_ids@));
    let result = tally_batch_delete(&items);
    proof {
        lemma_deleted_count(skills@, skill_ids@);
    }
    let ghost ps = doomed_skill_pred(skill_ids@);
    let mut doomed: Vec<usize> = Vec::new();
    let mut k: usize = 0;
    while k < skills.len()
        invariant
            k <= skills.len(),
            ps == doomed_skill_pred(skill_ids@),
            doomed@.map_values(|i: usize| i as int) == crate::text::indices_where(skills@.take(k as int), ps),
        decreases skills.len() - k,
    {
        assert(skills@.take(k + 1).drop_last() =~= skills@.take(k as int));
        assert(skills@.take(k + 1).last() == skills@[k as int]);
        let ghost before = doomed@;
        if find_id(skill_ids, skill_ids.len(), skills[k].id.as_str()) {
            assert(skill_ids@.take(skill_ids.len() as int) =~= skill_ids@);
            doomed.push(k);
            assert(doomed@.map_values(|i: usize| i as int) =~= before.map_values(|i: usize| i as int).push(k as int));
        } else {
            assert(skill_ids@.take(skill_ids.len() as int) =~= skill_ids@);
        }
        k += 1;
    }
    assert(skills@.take(skills.len() as int) =~= skills@);
    let ghost pt = doomed_target_pred(skills@, skill_ids@);
    let mut gone: Vec<usize> = Vec::new();
    let mut t: usize = 0;
    while t < targets.len()
        invariant
            t <= targets.len(),
            pt == doomed_target_pred(skills@, skill_ids@),
            gone@.map_values(|i: usize| i as int) == crate::text::indices_where(targets@.take(t as int), pt),
        decreases targets.len() - t,
    {
        assert(targets@.take(t + 1).drop_last() =~= targets@.take(t as int));
        assert(targets@.take(t + 1).last() == targets@[t as int]);
        let ghost before = gone@;
        let sid = targets[t].skill_id.as_str();
        assert(skill_ids@.take(skill_ids.len() as int) =~= skill_ids@);
        if find_id(skill_ids, skill_ids.len(), sid) && find_skill_id(skills, sid) {
            gone.push(t);
            assert(gone@.map_values(|i: usize| i as int) =~= before.map_values(|i: usize| i as int).push(t as int));
        }
        t += 1;
    }
    assert(targets@.take(targets.len() as int) =~= targets@);
    SkillDeletion { result, skills: doomed, targets: gone }
}

} // verus!

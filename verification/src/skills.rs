//! Managed skills: the records the store keeps, the views the UI receives,
//! where a skill's updates come from, and how a reimport from a local source
//! treats the central copy.
use crate::error::{AppError, ErrorKind};
use crate::text::{
    chars_of, clone_opt, clone_string, clone_strings, opt_view, push_str, str_eq, string_of,
    string_of_range,
    strs_view, trim_bounds,
};
use vstd::prelude::*;

verus! {

// ---------------------------------------------------------------------------
// Records
// ---------------------------------------------------------------------------

/// A skill of the central library, as the store records it.
#[derive(Debug)]
pub struct SkillRecord {
    pub id: String,
    pub name: String,
    pub description: Option<String>,
    pub source_type: String,
    pub source_ref: Option<String>,
    pub source_ref_resolved: Option<String>,
    pub source_subpath: Option<String>,
    pub source_branch: Option<String>,
    pub source_revision: Option<String>,
    pub remote_revision: Option<String>,
    pub central_path: String,
    pub content_hash: Option<String>,
    pub enabled: bool,
    pub created_at: i64,
    pub updated_at: i64,
    pub status: String,
    pub update_status: String,
    pub last_checked_at: Option<i64>,
    pub last_check_error: Option<String>,
}

/// A deployment of a skill into an agent's skills directory.
#[derive(Debug)]
pub struct SkillTargetRecord {
    pub id: String,
    pub skill_id: String,
    pub tool: String,
    pub target_path: String,
    pub mode: String,
    pub status: String,
    pub synced_at: Option<i64>,
    pub last_error: Option<String>,
    pub source_hash: Option<String>,
}

/// The tables of the skill store that the skill views are built from.
pub struct SkillStore {
    pub skills: Vec<SkillRecord>,
    pub targets: Vec<SkillTargetRecord>,
    /// Tags of each skill, keyed by skill id.
    pub tags: Vec<(String, Vec<String>)>,
    /// Scenario (preset) memberships: pairs of scenario id and skill id.
    pub scenario_skills: Vec<(String, String)>,
}

// ---------------------------------------------------------------------------
// Views for the UI
// ---------------------------------------------------------------------------

pub struct UpdateSkillResult {
    pub skill: ManagedSkillDto,
    /// Whether the skill's file content actually changed.
    pub content_changed: bool,
}

pub struct BatchUpdateSkillsResult {
    pub refreshed: usize,
    pub unchanged: usize,
    pub failed: Vec<String>,
}

pub struct BatchDeleteSkillsResult {
    pub deleted: usize,
    pub failed: Vec<String>,
}

pub struct ManagedSkillDto {
    pub id: String,
    pub name: String,
    pub description: Option<String>,
    pub source_type: String,
    pub source_ref: Option<String>,
    pub source_ref_resolved: Option<String>,
    pub source_subpath: Option<String>,
    pub source_branch: Option<String>,
    pub source_revision: Option<String>,
    pub remote_revision: Option<String>,
    pub update_status: String,
    pub last_checked_at: Option<i64>,
    pub last_check_error: Option<String>,
    pub central_path: String,
    pub enabled: bool,
    pub created_at: i64,
    pub updated_at: i64,
    pub status: String,
    pub targets: Vec<TargetDto>,
    pub preset_ids: Vec<String>,
    pub tags: Vec<String>,
}

pub struct TargetDto {
    pub id: String,
    pub skill_id: String,
    pub tool: String,
    pub target_path: String,
    pub mode: String,
    pub status: String,
    pub synced_at: Option<i64>,
}

pub struct SkillDocumentDto {
    pub skill_id: String,
    pub filename: String,
    pub content: String,
    pub central_path: String,
}

pub struct SourceSkillDocumentDto {
    pub skill_id: String,
    pub filename: String,
    pub content: String,
    pub source_label: String,
    pub revision: String,
}

/// Whole-directory diff between the central copy and the source.
pub struct SkillSourceDiffDto {
    pub skill_id: String,
    pub source_label: String,
    pub revision: String,
    pub entries: Vec<SkillSourceDiffEntryDto>,
}

pub struct SkillSourceDiffEntryDto {
    pub relative_path: String,
    /// "added" | "removed" | "modified"
    pub status: String,
    /// "text" | "binary" | "too_large" | "permission_only"
    pub content_kind: String,
    /// Present only when `content_kind == "text"`.
    pub original_text: Option<String>,
    pub updated_text: Option<String>,
    pub executable_before: bool,
    pub executable_after: bool,
}

#[derive(Debug)]
pub struct InstallSourceMetadata {
    pub source_type: String,
    pub source_ref: Option<String>,
    pub source_ref_resolved: Option<String>,
    pub source_subpath: Option<String>,
    pub source_branch: Option<String>,
    pub source_revision: Option<String>,
    pub remote_revision: Option<String>,
    pub update_status: String,
}

/// Where a git-based skill is fetched from.
#[derive(Debug)]
pub struct GitSkillSource {
    pub clone_url: String,
    pub branch: Option<String>,
    pub subpath: Option<String>,
    pub locator_skill_id: Option<String>,
}

pub struct GitSkillPreview {
    /// Path relative to the resolved scan root, using `/` separators.
    pub rel_path: String,
    pub name: String,
    pub description: Option<String>,
}

pub struct GitPreviewResult {
    pub temp_dir: String,
    pub skills: Vec<GitSkillPreview>,
}

pub struct SkillInstallItem {
    pub rel_path: String,
    pub name: String,
}

pub struct BatchImportResult {
    pub imported: usize,
    pub skipped: usize,
    pub errors: Vec<String>,
}


// ---------------------------------------------------------------------------
// Building the skill views
// ---------------------------------------------------------------------------

/// `d` shows the target record `t`.
pub open spec fn shows_target(d: TargetDto, t: SkillTargetRecord) -> bool {
    &&& d.id@ == t.id@
    &&& d.skill_id@ == t.skill_id@
    &&& d.tool@ == t.tool@
    &&& d.target_path@ == t.target_path@
    &&& d.mode@ == t.mode@
    &&& d.status@ == t.status@
    &&& d.synced_at == t.synced_at
}

/// The targets of the skill `id`, in store order.
pub open spec fn targets_of(ts: Seq<SkillTargetRecord>, id: Seq<char>) -> Seq<SkillTargetRecord>
    decreases ts.len(),
{
    if ts.len() == 0 {
        seq![]
    } else {
        let rest = targets_of(ts.drop_last(), id);
        if ts.last().skill_id@ == id {
            rest.push(ts.last())
        } else {
            rest
        }
    }
}

/// The value stored under the first key equal to `id`.
pub open spec fn lookup_strings(entries: Seq<(String, Vec<String>)>, id: Seq<char>) -> Option<
    Seq<Seq<char>>,
>
    decreases entries.len(),
{
    if entries.len() == 0 {
        None
    } else if entries[0].0@ == id {
        Some(strs_view(entries[0].1@))
    } else {
        lookup_strings(entries.drop_first(), id)
    }
}

/// The scenarios the skill `id` belongs to, in store order.
pub open spec fn scenarios_of(pairs: Seq<(String, String)>, id: Seq<char>) -> Seq<Seq<char>>
    decreases pairs.len(),
{
    if pairs.len() == 0 {
        seq![]
    } else {
        let rest = scenarios_of(pairs.drop_last(), id);
        if pairs.last().1@ == id {
            rest.push(pairs.last().0@)
        } else {
            rest
        }
    }
}

/// A string holds something other than whitespace.
pub open spec fn is_blank(s: Seq<char>) -> bool {
    crate::text::trim(s).len() == 0
}

/// The description shown for a skill: the one in its `SKILL.md` unless that
/// is missing or blank, else the one the store recorded.
pub open spec fn shown_description(md: Option<Seq<char>>, recorded: Option<Seq<char>>) -> Option<Seq<char>> {
    match md {
        Some(d) => if is_blank(d) {
            recorded
        } else {
            Some(d)
        },
        None => recorded,
    }
}

/// `d` is the view of `skill` with the given targets, scenarios, tags and
/// `SKILL.md` description.
pub open spec fn shows_skill(
    d: ManagedSkillDto,
    skill: SkillRecord,
    targets: Seq<SkillTargetRecord>,
    preset_ids: Seq<Seq<char>>,
    tags: Seq<Seq<char>>,
    md_description: Option<Seq<char>>,
) -> bool {
    &&& d.id@ == skill.id@
    &&& d.name@ == skill.name@
    &&& opt_view(d.description) == shown_description(md_description, opt_view(skill.description))
    &&& d.source_type@ == skill.source_type@
    &&& opt_view(d.source_ref) == opt_view(skill.source_ref)
    &&& opt_view(d.source_ref_resolved) == opt_view(skill.source_ref_resolved)
    &&& opt_view(d.source_subpath) == opt_view(skill.source_subpath)
    &&& opt_view(d.source_branch) == opt_view(skill.source_branch)
    &&& opt_view(d.source_revision) == opt_view(skill.source_revision)
    &&& opt_view(d.remote_revision) == opt_view(skill.remote_revision)
    &&& d.update_status@ == skill.update_status@
    &&& d.last_checked_at == skill.last_checked_at
    &&& opt_view(d.last_check_error) == opt_view(skill.last_check_error)
    &&& d.central_path@ == skill.central_path@
    &&& d.enabled == skill.enabled
    &&& d.created_at == skill.created_at
    &&& d.updated_at == skill.updated_at
    &&& d.status@ == skill.status@
    &&& d.targets@.len() == targets.len()
    &&& forall|k: int| 0 <= k < targets.len() ==> shows_target(#[trigger] d.targets@[k], targets[k])
    &&& strs_view(d.preset_ids@) == preset_ids
    &&& strs_view(d.tags@) == tags
}

/// The view of one target record.
pub fn target_to_dto(t: &SkillTargetRecord) -> (d: TargetDto)
    ensures
        shows_target(d, *t),
{
    TargetDto {
        id: t.id.clone(),
        skill_id: t.skill_id.clone(),
        tool: t.tool.clone(),
        target_path: t.target_path.clone(),
        mode: t.mode.clone(),
        status: t.status.clone(),
        synced_at: t.synced_at,
    }
}

/// The views of the targets of the skill `skill_id`.
pub fn targets_for_skill(all_targets: &[SkillTargetRecord], skill_id: &String) -> (r: Vec<TargetDto>)
    ensures
        r@.len() == targets_of(all_targets@, skill_id@).len(),
        forall|k: int| 0 <= k < r@.len() ==> shows_target(#[trigger] r@[k], targets_of(all_targets@, skill_id@)[k]),
{
    let mut out: Vec<TargetDto> = Vec::new();
    let mut i: usize = 0;
    while i < all_targets.len()
        invariant
            i <= all_targets.len(),
            out@.len() == targets_of(all_targets@.take(i as int), skill_id@).len(),
            forall|k: int| 0 <= k < out@.len() ==> shows_target(#[trigger] out@[k], targets_of(all_targets@.take(i as int), skill_id@)[k]),
        decreases all_targets.len() - i,
    {
        assert(all_targets@.take(i + 1).drop_last() =~= all_targets@.take(i as int));
        if str_eq(all_targets[i].skill_id.as_str(), skill_id.as_str()) {
            out.push(target_to_dto(&all_targets[i]));
        }
        i += 1;
    }
    assert(all_targets@.take(all_targets.len() as int) =~= all_targets@);
    out
}

/// The tags recorded for the skill `skill_id` (none when it has no entry).
pub fn tags_for_skill(tags_map: &[(String, Vec<String>)], skill_id: &String) -> (r: Vec<String>)
    ensures
        strs_view(r@) == (match lookup_strings(tags_map@, skill_id@) {
            Some(t) => t,
            None => Seq::<Seq<char>>::empty(),
        }),
{
    let mut i: usize = 0;
    assert(tags_map@.skip(0) =~= tags_map@);
    while i < tags_map.len()
        invariant
            i <= tags_map.len(),
            lookup_strings(tags_map@, skill_id@) == lookup_strings(tags_map@.skip(i as int), skill_id@),
        decreases tags_map.len() - i,
    {
        assert(tags_map@.skip(i as int)[0] == tags_map@[i as int]);
        assert(tags_map@.skip(i as int).drop_first() =~= tags_map@.skip(i + 1));
        if str_eq(tags_map[i].0.as_str(), skill_id.as_str()) {
            return clone_strings(&tags_map[i].1);
        }
        i += 1;
    }
    let r: Vec<String> = Vec::new();
    assert(strs_view(r@) =~= Seq::<Seq<char>>::empty());
    r
}

/// The scenarios the skill `skill_id` belongs to.
pub fn scenarios_for_skill(pairs: &[(String, String)], skill_id: &String) -> (r: Vec<String>)
    ensures
        strs_view(r@) == scenarios_of(pairs@, skill_id@),
{
    let mut out: Vec<String> = Vec::new();
    let mut i: usize = 0;
    while i < pairs.len()
        invariant
            i <= pairs.len(),
            strs_view(out@) == scenarios_of(pairs@.take(i as int), skill_id@),
        decreases pairs.len() - i,
    {
        assert(pairs@.take(i + 1).drop_last() =~= pairs@.take(i as int));
        if str_eq(pairs[i].1.as_str(), skill_id.as_str()) {
            let ghost before = strs_view(out@);
            out.push(pairs[i].0.clone());
            assert(strs_view(out@) =~= before.push(pairs@[i as int].0@));
        }
        i += 1;
    }
    assert(pairs@.take(pairs.len() as int) =~= pairs@);
    out
}

/// Whether `s` is empty or whitespace only.
pub fn blank(s: &str) -> (b: bool)
    ensures
        b == is_blank(s@),
{
    let cs = chars_of(s);
    let (a, z) = trim_bounds(&cs, 0, cs.len());
    assert(cs@.subrange(0, cs.len() as int) =~= cs@);
    a == z
}

/// The view of a skill for the UI. `preset_ids` are the scenarios it belongs
/// to and `md_description` the description in its `SKILL.md`, if one could
/// be read.
pub fn managed_skill_to_dto(
    skill: &SkillRecord,
    all_targets: &[SkillTargetRecord],
    preset_ids: Vec<String>,
    tags_map: &[(String, Vec<String>)],
    md_description: Option<String>,
) -> (d: ManagedSkillDto)
    ensures
        shows_skill(
            d,
            *skill,
            targets_of(all_targets@, skill.id@),
            strs_view(preset_ids@),
            match lookup_strings(tags_map@, skill.id@) {
                Some(t) => t,
                None => Seq::<Seq<char>>::empty(),
            },
            opt_view(md_description),
        ),
{
    let targets = targets_for_skill(all_targets, &skill.id);
    let tags = tags_for_skill(tags_map, &skill.id);
    let description = match md_description {
        Some(d) => if blank(d.as_str()) {
            clone_opt(&skill.description)
        } else {
            Some(d)
        },
        None => clone_opt(&skill.description),
    };
    ManagedSkillDto {
        id: skill.id.clone(),
        name: skill.name.clone(),
        description,
        source_type: skill.source_type.clone(),
        source_ref: clone_opt(&skill.source_ref),
        source_ref_resolved: clone_opt(&skill.source_ref_resolved),
        source_subpath: clone_opt(&skill.source_subpath),
        source_branch: clone_opt(&skill.source_branch),
        source_revision: clone_opt(&skill.source_revision),
        remote_revision: clone_opt(&skill.remote_revision),
        update_status: skill.update_status.clone(),
        last_checked_at: skill.last_checked_at,
        last_check_error: clone_opt(&skill.last_check_error),
        central_path: skill.central_path.clone(),
        enabled: skill.enabled,
        created_at: skill.created_at,
        updated_at: skill.updated_at,
        status: skill.status.clone(),
        targets,
        preset_ids,
        tags,
    }
}

/// The first record with the given id.
pub open spec fn find_skill(skills: Seq<SkillRecord>, id: Seq<char>) -> Option<SkillRecord>
    decreases skills.len(),
{
    if skills.len() == 0 {
        None
    } else if skills[0].id@ == id {
        Some(skills[0])
    } else {
        find_skill(skills.drop_first(), id)
    }
}

/// Position of the record with the given id.
pub fn skill_index(skills: &[SkillRecord], id: &str) -> (r: Option<usize>)
    ensures
        r is None <==> find_skill(skills@, id@) is None,
        r matches Some(i) ==> i < skills.len() && find_skill(skills@, id@) == Some(skills@[i as int]),
{
    let mut i: usize = 0;
    assert(skills@.skip(0) =~= skills@);
    while i < skills.len()
        invariant
            i <= skills.len(),
            find_skill(skills@, id@) == find_skill(skills@.skip(i as int), id@),
        decreases skills.len() - i,
    {
        assert(skills@.skip(i as int)[0] == skills@[i as int]);
        assert(skills@.skip(i as int).drop_first() =~= skills@.skip(i + 1));
        if str_eq(skills[i].id.as_str(), id) {
            return Some(i);
        }
        i += 1;
    }
    None
}

/// The view of the skill `skill_id`, with its targets, scenarios and tags
/// from the store; `md_description` is the description in its `SKILL.md`.
/// Fails with "not found" when the store has no such skill.
pub fn managed_skill_by_id(store: &SkillStore, skill_id: &str, md_description: Option<String>) -> (r: Result<ManagedSkillDto, AppError>)
    ensures
        r is Err <==> find_skill(store.skills@, skill_id@) is None,
        r matches Err(e) ==> e.kind == ErrorKind::NotFound && e.message@ == "Skill not found"@,
        r matches Ok(d) ==> {
            let skill = find_skill(store.skills@, skill_id@).unwrap();
            shows_skill(
                d,
                skill,
                targets_of(store.targets@, skill.id@),
                scenarios_of(store.scenario_skills@, skill.id@),
                match lookup_strings(store.tags@, skill.id@) {
                    Some(t) => t,
                    None => Seq::<Seq<char>>::empty(),
                },
                opt_view(md_description),
            )
        },
{
    match skill_index(&store.skills, skill_id) {
        None => Err(AppError::not_found("Skill not found")),
        Some(i) => {
            let skill = &store.skills[i];
            let presets = scenarios_for_skill(&store.scenario_skills, &skill.id);
            Ok(managed_skill_to_dto(skill, &store.targets, presets, &store.tags, md_description))
        },
    }
}


// ---------------------------------------------------------------------------
// Sources
// ---------------------------------------------------------------------------

/// The label shown for a skill's source.
pub open spec fn spec_source_label(source_type: Seq<char>) -> Seq<char> {
    if source_type == "skillssh"@ {
        "skills.sh"@
    } else if source_type == "git"@ {
        "Git"@
    } else if source_type == "local"@ {
        "Local"@
    } else if source_type == "import"@ {
        "Imported"@
    } else {
        source_type
    }
}

/// The label shown for a skill's source (`skills.sh`, `Git`, `Local`,
/// `Imported`, or the source type itself).
pub fn source_label_for_skill(skill: &SkillRecord) -> (r: String)
    ensures
        r@ == spec_source_label(skill.source_type@),
{
    let t = skill.source_type.as_str();
    if str_eq(t, "skillssh") {
        "skills.sh".to_string()
    } else if str_eq(t, "git") {
        "Git".to_string()
    } else if str_eq(t, "local") {
        "Local".to_string()
    } else if str_eq(t, "import") {
        "Imported".to_string()
    } else {
        skill.source_type.clone()
    }
}

/// `str::rsplit_once('/')`: the text before and after the last `/`.
pub open spec fn split_last_slash(s: Seq<char>) -> Option<(Seq<char>, Seq<char>)> {
    match crate::text::rfind_char(s, '/') {
        Some(i) => Some((s.take(i), s.skip(i + 1))),
        None => None,
    }
}

/// Splits `s` at its last `/`.
pub fn rsplit_once_slash(s: &str) -> (r: Option<(String, String)>)
    ensures
        match r {
            Some((a, b)) => split_last_slash(s@) == Some((a@, b@)),
            None => split_last_slash(s@) is None,
        },
{
    let cs = chars_of(s);
    assert(cs@.subrange(0, cs.len() as int) =~= cs@);
    match crate::text::rfind_char_in(&cs, 0, cs.len(), '/') {
        Some(i) => {
            proof {
                crate::text::lemma_rfind_char_bound(cs@, '/');
            }
            let a = crate::text::string_of_range(&cs, 0, i);
            let b = crate::text::string_of_range(&cs, i + 1, cs.len());
            assert(a@ =~= cs@.take(i as int));
            assert(b@ =~= cs@.skip(i + 1));
            Some((a, b))
        },
        None => None,
    }
}

/// What the git module's parser makes of a skill's git source reference:
/// the clone URL, and the branch and subpath it encodes.
pub struct ParsedGitSource {
    pub clone_url: String,
    pub branch: Option<String>,
    pub subpath: Option<String>,
}

/// The skills.sh skill id of a skill: the part of its source reference after
/// the last `/` (skills.sh skills only).
pub open spec fn spec_skill_ssh_id(skill: SkillRecord) -> Option<Seq<char>> {
    if skill.source_type@ != "skillssh"@ {
        None
    } else {
        match opt_view(skill.source_ref) {
            Some(r) => match split_last_slash(r) {
                Some((_, id)) => Some(id),
                None => None,
            },
            None => None,
        }
    }
}

/// The skills.sh skill id of a skill (see [`spec_skill_ssh_id`]).
pub fn skill_ssh_id(skill: &SkillRecord) -> (r: Option<String>)
    ensures
        opt_view(r) == spec_skill_ssh_id(*skill),
{
    if !str_eq(skill.source_type.as_str(), "skillssh") {
        return None;
    }
    match &skill.source_ref {
        Some(source_ref) => match rsplit_once_slash(source_ref.as_str()) {
            Some((_, id)) => Some(id),
            None => None,
        },
        None => None,
    }
}

/// `b` is `a`, or `fallback` when `a` is absent (`Option::or`).
pub open spec fn or_view(a: Option<String>, fallback: Option<String>) -> Option<Seq<char>> {
    match a {
        Some(x) => Some(x@),
        None => opt_view(fallback),
    }
}

/// A git source as its clone URL, branch, subpath and locating skill id.
pub open spec fn git_source_view(g: GitSkillSource) -> (Seq<char>, Option<Seq<char>>, Option<Seq<char>>, Option<Seq<char>>) {
    (g.clone_url@, opt_view(g.branch), opt_view(g.subpath), opt_view(g.locator_skill_id))
}

/// A resolved git source, or the error's kind and message.
pub open spec fn git_source_result_view(r: Result<GitSkillSource, AppError>) -> Result<
    (Seq<char>, Option<Seq<char>>, Option<Seq<char>>, Option<Seq<char>>),
    (ErrorKind, Seq<char>),
> {
    match r {
        Ok(g) => Ok(git_source_view(g)),
        Err(e) => Err((e.kind, e.message@)),
    }
}

/// Where updates of a git-based skill are fetched from (see
/// [`git_source_from_skill`]), or the error.
pub open spec fn spec_git_source(skill: SkillRecord, parsed: Option<ParsedGitSource>) -> Result<
    (Seq<char>, Option<Seq<char>>, Option<Seq<char>>, Option<Seq<char>>),
    (ErrorKind, Seq<char>),
> {
    match skill.source_ref_resolved {
        Some(resolved) => Ok((resolved@, opt_view(skill.source_branch), opt_view(skill.source_subpath), spec_skill_ssh_id(skill))),
        None => if skill.source_type@ == "git"@ {
            match skill.source_ref {
                None => Err((ErrorKind::InvalidInput, "Git skill is missing its source URL"@)),
                Some(_) => {
                    let p = parsed.unwrap();
                    Ok((p.clone_url@, or_view(skill.source_branch, p.branch), or_view(skill.source_subpath, p.subpath), None))
                },
            }
        } else if skill.source_type@ == "skillssh"@ {
            match opt_view(skill.source_ref) {
                None => Err((ErrorKind::InvalidInput, "skills.sh skill is missing its source reference"@)),
                Some(source_ref) => match split_last_slash(source_ref) {
                    None => Err((ErrorKind::InvalidInput, "Invalid skills.sh source reference"@)),
                    Some((repo, id)) => Ok((
                        "https://github.com/"@ + repo + ".git"@,
                        opt_view(skill.source_branch),
                        opt_view(skill.source_subpath),
                        Some(id),
                    )),
                },
            }
        } else {
            Err((ErrorKind::InvalidInput, "Skill does not support git-based updates"@))
        },
    }
}

/// Where updates of a git-based skill are fetched from: the resolved clone
/// URL when the store has one; else, for a git skill, the parsed source
/// reference (`parsed_source_ref`, what the git module's parser returns for
/// it), with the recorded branch and subpath taking precedence; for a
/// skills.sh skill, the GitHub repository named before the last `/` of its
/// reference, the part after it locating the skill.
pub fn git_source_from_skill(skill: &SkillRecord, parsed_source_ref: Option<ParsedGitSource>) -> (r: Result<GitSkillSource, AppError>)
    requires
        skill.source_ref_resolved is None && skill.source_type@ == "git"@ && skill.source_ref is Some ==> parsed_source_ref is Some,
    ensures
        git_source_result_view(r) == spec_git_source(*skill, parsed_source_ref),
        match skill.source_ref_resolved {
            Some(resolved) => r matches Ok(g) && g.clone_url@ == resolved@
                && opt_view(g.branch) == opt_view(skill.source_branch)
                && opt_view(g.subpath) == opt_view(skill.source_subpath)
                && opt_view(g.locator_skill_id) == spec_skill_ssh_id(*skill),
            None => if skill.source_type@ == "git"@ {
                match skill.source_ref {
                    None => r matches Err(e) && e.kind == ErrorKind::InvalidInput
                        && e.message@ == "Git skill is missing its source URL"@,
                    Some(_) => {
                        let p = parsed_source_ref.unwrap();
                        r matches Ok(g) && g.clone_url@ == p.clone_url@
                            && opt_view(g.branch) == or_view(skill.source_branch, p.branch)
                            && opt_view(g.subpath) == or_view(skill.source_subpath, p.subpath)
                            && g.locator_skill_id is None
                    },
                }
            } else if skill.source_type@ == "skillssh"@ {
                match opt_view(skill.source_ref) {
                    None => r matches Err(e) && e.kind == ErrorKind::InvalidInput
                        && e.message@ == "skills.sh skill is missing its source reference"@,
                    Some(source_ref) => match split_last_slash(source_ref) {
                        None => r matches Err(e) && e.kind == ErrorKind::InvalidInput
                            && e.message@ == "Invalid skills.sh source reference"@,
                        Some((repo, id)) => r matches Ok(g)
                            && g.clone_url@ == "https://github.com/"@ + repo + ".git"@
                            && opt_view(g.branch) == opt_view(skill.source_branch)
                            && opt_view(g.subpath) == opt_view(skill.source_subpath)
                            && opt_view(g.locator_skill_id) == Some(id),
                    },
                }
            } else {
                r matches Err(e) && e.kind == ErrorKind::InvalidInput
                    && e.message@ == "Skill does not support git-based updates"@
            },
        },
{
    if let Some(resolved) = &skill.source_ref_resolved {
        return Ok(GitSkillSource {
            clone_url: resolved.clone(),
            branch: clone_opt(&skill.source_branch),
            subpath: clone_opt(&skill.source_subpath),
            locator_skill_id: skill_ssh_id(skill),
        });
    }
    let t = skill.source_type.as_str();
    if str_eq(t, "git") {
        match &skill.source_ref {
            None => Err(AppError::invalid_input("Git skill is missing its source URL")),
            Some(_) => {
                let parsed = parsed_source_ref.unwrap();
                let branch = match &skill.source_branch {
                    Some(b) => Some(b.clone()),
                    None => parsed.branch,
                };
                let subpath = match &skill.source_subpath {
                    Some(p) => Some(p.clone()),
                    None => parsed.subpath,
                };
                Ok(GitSkillSource { clone_url: parsed.clone_url, branch, subpath, locator_skill_id: None })
            },
        }
    } else if str_eq(t, "skillssh") {
        match &skill.source_ref {
            None => Err(AppError::invalid_input("skills.sh skill is missing its source reference")),
            Some(source_ref) => match rsplit_once_slash(source_ref.as_str()) {
                None => Err(AppError::invalid_input("Invalid skills.sh source reference")),
                Some((repo, id)) => {
                    let mut url = "https://github.com/".to_string();
                    push_str(&mut url, repo.as_str());
                    push_str(&mut url, ".git");
                    Ok(GitSkillSource {
                        clone_url: url,
                        branch: clone_opt(&skill.source_branch),
                        subpath: clone_opt(&skill.source_subpath),
                        locator_skill_id: Some(id),
                    })
                },
            },
        }
    } else {
        Err(AppError::invalid_input("Skill does not support git-based updates"))
    }
}


// ---------------------------------------------------------------------------
// Reimport from a local source
// ---------------------------------------------------------------------------

/// What can be observed of one side of a copy: its content hash and the
/// modification time (milliseconds) of its newest file, when readable.
pub struct SideState {
    pub hash: Option<String>,
    pub mtime_ms: Option<i64>,
}

/// The verdict of comparing two copies of a skill without a common baseline.
#[derive(PartialEq, Eq, Structural, Debug, Clone, Copy)]
pub enum Reconcile {
    /// Both hold the same content.
    InSync,
    /// The first copy is newer.
    TakeA,
    /// The second copy is newer.
    TakeB,
    /// They differ and cannot be ranked.
    Diverged,
}

/// Newest wins: equal hashes are in sync; otherwise the copy whose mtime is
/// more than `threshold_ms` later wins; missing mtimes or a difference within
/// the threshold cannot be ranked.
pub open spec fn spec_reconcile(a: SideState, b: SideState, threshold_ms: i64) -> Reconcile {
    if a.hash is Some && opt_view(a.hash) == opt_view(b.hash) {
        Reconcile::InSync
    } else {
        match (a.mtime_ms, b.mtime_ms) {
            (Some(ma), Some(mb)) => if ma > mb + threshold_ms {
                Reconcile::TakeA
            } else if mb > ma + threshold_ms {
                Reconcile::TakeB
            } else {
                Reconcile::Diverged
            },
            _ => Reconcile::Diverged,
        }
    }
}

fn opt_str_eq(a: &Option<String>, b: &Option<String>) -> (r: bool)
    ensures
        r == (opt_view(*a) == opt_view(*b)),
{
    match (a, b) {
        (Some(x), Some(y)) => str_eq(x.as_str(), y.as_str()),
        (None, None) => true,
        _ => false,
    }
}

/// Compares two copies of a skill that share no baseline (see [`spec_reconcile`]).
pub fn reconcile(a: &SideState, b: &SideState, threshold_ms: i64) -> (r: Reconcile)
    ensures
        r == spec_reconcile(*a, *b, threshold_ms),
{
    if a.hash.is_some() && opt_str_eq(&a.hash, &b.hash) {
        return Reconcile::InSync;
    }
    match (a.mtime_ms, b.mtime_ms) {
        (Some(ma), Some(mb)) => {
            let ma = ma as i128;
            let mb = mb as i128;
            let t = threshold_ms as i128;
            if ma > mb + t {
                Reconcile::TakeA
            } else if mb > ma + t {
                Reconcile::TakeB
            } else {
                Reconcile::Diverged
            }
        },
        _ => Reconcile::Diverged,
    }
}

/// What a reimport does with the freshly staged source.
#[derive(PartialEq, Eq, Structural, Debug, Clone, Copy)]
pub enum ReimportDecision {
    /// Source and center hold identical content: drop the staged copy.
    SkipInSync,
    /// The source is newer: back up the center, then replace it.
    OverwriteCenter,
    /// The center is newer, or the two cannot be ranked: keep the center.
    KeepCenter,
}

/// The mtime tolerance of the reimport decision, in milliseconds.
pub const REIMPORT_MTIME_THRESHOLD_MS: i64 = 1000;

/// The reimport decision of a source against the center copy.
pub open spec fn spec_decide_reimport(source: SideState, center: SideState, threshold_ms: i64) -> ReimportDecision {
    match spec_reconcile(source, center, threshold_ms) {
        Reconcile::InSync => ReimportDecision::SkipInSync,
        Reconcile::TakeA => ReimportDecision::OverwriteCenter,
        _ => ReimportDecision::KeepCenter,
    }
}

/// Decides a reimport: identical content is skipped, a strictly newer source
/// replaces the center, and in every other case the center is kept.
pub fn decide_reimport(source: &SideState, center: &SideState, threshold_ms: i64) -> (r: ReimportDecision)
    ensures
        r == spec_decide_reimport(*source, *center, threshold_ms),
{
    match reconcile(source, center, threshold_ms) {
        Reconcile::InSync => ReimportDecision::SkipInSync,
        Reconcile::TakeA => ReimportDecision::OverwriteCenter,
        Reconcile::TakeB | Reconcile::Diverged => ReimportDecision::KeepCenter,
    }
}

/// A reimport never replaces the center copy with an older or unrankable
/// source: the center is overwritten only when the source holds different
/// content and is newer by more than the threshold.
pub proof fn lemma_reimport_never_rolls_back(source: SideState, center: SideState, threshold_ms: i64)
    ensures
        spec_decide_reimport(source, center, threshold_ms) == ReimportDecision::OverwriteCenter
            <==> (!(source.hash is Some && opt_view(source.hash) == opt_view(center.hash))
                && source.mtime_ms is Some && center.mtime_ms is Some
                && source.mtime_ms.unwrap() > center.mtime_ms.unwrap() + threshold_ms),
{
}

// ---------------------------------------------------------------------------
// Source diff
// ---------------------------------------------------------------------------

/// Files larger than this get a summary row instead of a text body.
pub const MAX_DIFF_FILE_BYTES: usize = 262144;

/// The contents of `bytes` read as UTF-8, if they are valid UTF-8.
#[verifier::external_body]
fn string_from_utf8(bytes: Vec<u8>) -> (r: Option<String>)
    ensures
        r is Some <==> vstd::utf8::valid_utf8(bytes@),
        r matches Some(s) ==> s@ == vstd::utf8::decode_utf8(bytes@),
{
    String::from_utf8(bytes).ok()
}

/// How a file's bytes are shown in the diff: `too_large` above the size
/// limit, `binary` when they hold a NUL byte, are not UTF-8 or could not be
/// read, else `text` with the decoded text.
pub open spec fn spec_classify_diff_bytes(bytes: Option<Seq<u8>>) -> (Seq<char>, Option<Seq<char>>) {
    match bytes {
        Some(b) => if b.len() > MAX_DIFF_FILE_BYTES {
            ("too_large"@, None)
        } else if b.contains(0u8) {
            ("binary"@, None)
        } else if vstd::utf8::valid_utf8(b) {
            ("text"@, Some(vstd::utf8::decode_utf8(b)))
        } else {
            ("binary"@, None)
        },
        None => ("binary"@, None),
    }
}

pub open spec fn bytes_view(b: Option<Vec<u8>>) -> Option<Seq<u8>> {
    match b {
        Some(v) => Some(v@),
        None => None,
    }
}

fn contains_nul(b: &Vec<u8>) -> (r: bool)
    ensures
        r == b@.contains(0u8),
{
    let mut i: usize = 0;
    while i < b.len()
        invariant
            i <= b.len(),
            forall|j: int| 0 <= j < i ==> b@[j] != 0u8,
        decreases b.len() - i,
    {
        if b[i] == 0 {
            assert(b@[i as int] == 0u8);
            return true;
        }
        i += 1;
    }
    false
}

/// Classifies a file's bytes for the diff (see [`spec_classify_diff_bytes`]).
pub fn classify_diff_bytes(bytes: Option<Vec<u8>>) -> (r: (&'static str, Option<String>))
    ensures
        (r.0@, opt_view(r.1)) == spec_classify_diff_bytes(bytes_view(bytes)),
{
    match bytes {
        Some(b) => if b.len() > MAX_DIFF_FILE_BYTES {
            ("too_large", None)
        } else if contains_nul(&b) {
            ("binary", None)
        } else {
            match string_from_utf8(b) {
                Some(text) => ("text", Some(text)),
                None => ("binary", None),
            }
        },
        None => ("binary", None),
    }
}


/// One file of a skill directory, as read for the diff.
pub struct ContentFile {
    /// The file's bytes; `None` when it could not be read.
    pub bytes: Option<Vec<u8>>,
    pub executable: bool,
}

/// The diff row of one path: status, content kind, the two texts, and the
/// executable bits before and after; `None` when the path is unchanged.
pub open spec fn spec_diff_entry(
    original: Option<(Option<Seq<u8>>, bool)>,
    updated: Option<(Option<Seq<u8>>, bool)>,
) -> Option<(Seq<char>, Seq<char>, Option<Seq<char>>, Option<Seq<char>>, bool, bool)> {
    match (original, updated) {
        (None, Some((ub, ux))) => {
            let (kind, text) = spec_classify_diff_bytes(ub);
            Some(("added"@, kind, None, text, false, ux))
        },
        (Some((ob, ox)), None) => {
            let (kind, text) = spec_classify_diff_bytes(ob);
            Some(("removed"@, kind, text, None, ox, false))
        },
        (Some((ob, ox)), Some((ub, ux))) => if ob is Some && ob == ub {
            if ox == ux {
                None
            } else {
                Some(("modified"@, "permission_only"@, None, None, ox, ux))
            }
        } else {
            let (ok, ot) = spec_classify_diff_bytes(ob);
            let (uk, ut) = spec_classify_diff_bytes(ub);
            if ok == "text"@ && uk == "text"@ {
                Some(("modified"@, "text"@, ot, ut, ox, ux))
            } else if ok == "too_large"@ || uk == "too_large"@ {
                Some(("modified"@, "too_large"@, None, None, ox, ux))
            } else {
                Some(("modified"@, "binary"@, None, None, ox, ux))
            }
        },
        (None, None) => None,
    }
}

pub open spec fn file_view(f: Option<&ContentFile>) -> Option<(Option<Seq<u8>>, bool)> {
    match f {
        Some(c) => Some((bytes_view(c.bytes), c.executable)),
        None => None,
    }
}

pub open spec fn entry_view(e: SkillSourceDiffEntryDto) -> (Seq<char>, Seq<char>, Option<Seq<char>>, Option<Seq<char>>, bool, bool) {
    (e.status@, e.content_kind@, opt_view(e.original_text), opt_view(e.updated_text), e.executable_before, e.executable_after)
}

fn clone_bytes(b: &Option<Vec<u8>>) -> (r: Option<Vec<u8>>)
    ensures
        bytes_view(r) == bytes_view(*b),
{
    match b {
        Some(v) => Some(v.clone()),
        None => None,
    }
}

fn bytes_equal(a: &Option<Vec<u8>>, b: &Option<Vec<u8>>) -> (r: bool)
    ensures
        r == (bytes_view(*a) is Some && bytes_view(*a) == bytes_view(*b)),
{
    match (a, b) {
        (Some(x), Some(y)) => {
            if x.len() != y.len() {
                assert(x@ != y@);
                return false;
            }
            let mut i: usize = 0;
            while i < x.len()
                invariant
                    i <= x.len() == y.len(),
                    bytes_view(*a) == Some(x@),
                    bytes_view(*b) == Some(y@),
                    forall|j: int| 0 <= j < i ==> x@[j] == y@[j],
                decreases x.len() - i,
            {
                if x[i] != y[i] {
                    assert(x@[i as int] != y@[i as int]);
                    assert(x@ != y@);
                    assert(bytes_view(*a) == Some(x@));
                    assert(bytes_view(*b) == Some(y@));
                    return false;
                }
                i += 1;
            }
            assert(x@ =~= y@);
            true
        },
        _ => false,
    }
}

/// The diff row of one path of the two skill directories (`original` the
/// central copy, `updated` the source); `None` when it is unchanged.
pub fn diff_entry(
    relative_path: &String,
    original: Option<&ContentFile>,
    updated: Option<&ContentFile>,
) -> (r: Option<SkillSourceDiffEntryDto>)
    ensures
        match r {
            Some(e) => spec_diff_entry(file_view(original), file_view(updated)) == Some(entry_view(e))
                && e.relative_path@ == relative_path@,
            None => spec_diff_entry(file_view(original), file_view(updated)) is None,
        },
{
    match (original, updated) {
        (None, Some(u)) => {
            let (kind, text) = classify_diff_bytes(clone_bytes(&u.bytes));
            Some(SkillSourceDiffEntryDto {
                relative_path: relative_path.clone(),
                status: "added".to_string(),
                content_kind: kind.to_string(),
                original_text: None,
                updated_text: text,
                executable_before: false,
                executable_after: u.executable,
            })
        },
        (Some(o), None) => {
            let (kind, text) = classify_diff_bytes(clone_bytes(&o.bytes));
            Some(SkillSourceDiffEntryDto {
                relative_path: relative_path.clone(),
                status: "removed".to_string(),
                content_kind: kind.to_string(),
                original_text: text,
                updated_text: None,
                executable_before: o.executable,
                executable_after: false,
            })
        },
        (Some(o), Some(u)) => {
            if bytes_equal(&o.bytes, &u.bytes) {
                if o.executable == u.executable {
                    return None;
                }
                return Some(SkillSourceDiffEntryDto {
                    relative_path: relative_path.clone(),
                    status: "modified".to_string(),
                    content_kind: "permission_only".to_string(),
                    original_text: None,
                    updated_text: None,
                    executable_before: o.executable,
                    executable_after: u.executable,
                });
            }
            let (o_kind, o_text) = classify_diff_bytes(clone_bytes(&o.bytes));
            let (u_kind, u_text) = classify_diff_bytes(clone_bytes(&u.bytes));
            let (kind, original_text, updated_text) = if str_eq(o_kind, "text") && str_eq(u_kind, "text") {
                ("text", o_text, u_text)
            } else if str_eq(o_kind, "too_large") || str_eq(u_kind, "too_large") {
                ("too_large", None, None)
            } else {
                ("binary", None, None)
            };
            Some(SkillSourceDiffEntryDto {
                relative_path: relative_path.clone(),
                status: "modified".to_string(),
                content_kind: kind.to_string(),
                original_text,
                updated_text,
                executable_before: o.executable,
                executable_after: u.executable,
            })
        },
        (None, None) => None,
    }
}


// ---------------------------------------------------------------------------
// Preview keys
// ---------------------------------------------------------------------------

/// The relative paths of the files listed for a skill directory.
pub open spec fn file_keys(files: Seq<(String, ContentFile)>) -> Seq<Seq<char>> {
    files.map_values(|f: (String, ContentFile)| f.0@)
}

/// The index of the last file listed under `key` (a listing indexed by
/// path keeps the last one), if any.
pub open spec fn last_with_key(files: Seq<(String, ContentFile)>, key: Seq<char>) -> Option<int>
    decreases files.len(),
{
    if files.len() == 0 {
        None
    } else if files.last().0@ == key {
        Some(files.len() - 1)
    } else {
        last_with_key(files.drop_last(), key)
    }
}

/// The file listed under `key`, as the diff sees it.
pub open spec fn file_at(files: Seq<(String, ContentFile)>, key: Seq<char>) -> Option<(Option<Seq<u8>>, bool)> {
    match last_with_key(files, key) {
        Some(i) => Some((bytes_view(files[i].1.bytes), files[i].1.executable)),
        None => None,
    }
}

proof fn lemma_last_with_key(files: Seq<(String, ContentFile)>, key: Seq<char>)
    ensures
        last_with_key(files, key) matches Some(i) ==> 0 <= i < files.len(),
    decreases files.len(),
{
    if files.len() > 0 {
        lemma_last_with_key(files.drop_last(), key);
    }
}

/// The index of the last file listed under `key` (see [`last_with_key`]).
fn find_last_file(files: &Vec<(String, ContentFile)>, key: &String) -> (r: Option<usize>)
    ensures
        match r {
            Some(i) => last_with_key(files@, key@) == Some(i as int) && i < files.len(),
            None => last_with_key(files@, key@) is None,
        },
{
    proof {
        lemma_last_with_key(files@, key@);
    }
    let mut i: usize = files.len();
    assert(files@.take(files.len() as int) =~= files@);
    while i > 0
        invariant
            i <= files.len(),
            last_with_key(files@, key@) == last_with_key(files@.take(i as int), key@),
        decreases i,
    {
        assert(files@.take(i as int).last() == files@[i - 1]);
        assert(files@.take(i as int).drop_last() =~= files@.take(i - 1));
        if str_eq(files[i - 1].0.as_str(), key.as_str()) {
            return Some(i - 1);
        }
        i -= 1;
    }
    None
}

/// The rows of a source diff over the paths `keys`, in order: each path
/// with its row (see [`spec_diff_entry`]), unchanged paths left out.
pub open spec fn diff_rows(
    keys: Seq<Seq<char>>,
    original: Seq<(String, ContentFile)>,
    updated: Seq<(String, ContentFile)>,
) -> Seq<(Seq<char>, (Seq<char>, Seq<char>, Option<Seq<char>>, Option<Seq<char>>, bool, bool))>
    decreases keys.len(),
{
    if keys.len() == 0 {
        seq![]
    } else {
        let prev = diff_rows(keys.drop_last(), original, updated);
        let k = keys.last();
        match spec_diff_entry(file_at(original, k), file_at(updated, k)) {
            Some(e) => prev.push((k, e)),
            None => prev,
        }
    }
}

/// The diff rows as their paths and views.
pub open spec fn diff_view(rows: Seq<SkillSourceDiffEntryDto>) -> Seq<(Seq<char>, (Seq<char>, Seq<char>, Option<Seq<char>>, Option<Seq<char>>, bool, bool))> {
    rows.map_values(|e: SkillSourceDiffEntryDto| (e.relative_path@, entry_view(e)))
}

/// The diff between a skill's center copy (`original`) and its source
/// (`updated`), each listed as relative paths with their files: one row
/// for every path of either listing that changed, in the order of the paths
/// (each path once; see [`diff_rows`]).
pub fn build_source_diff_entries(
    original: &Vec<(String, ContentFile)>,
    updated: &Vec<(String, ContentFile)>,
) -> (r: Vec<SkillSourceDiffEntryDto>)
    ensures
        exists|keys: Seq<Seq<char>>| {
            &&& crate::sorting::strictly_sorted(keys)
            &&& keys.to_set() == (file_keys(original@) + file_keys(updated@)).to_set()
            &&& diff_view(r@) == #[trigger] diff_rows(keys, original@, updated@)
        },
{
    let mut all: Vec<String> = Vec::new();
    let mut i: usize = 0;
    while i < original.len()
        invariant
            i <= original.len(),
            strs_view(all@) == file_keys(original@).take(i as int),
        decreases original.len() - i,
    {
        all.push(original[i].0.clone());
        assert(file_keys(original@).take(i + 1) =~= file_keys(original@).take(i as int).push(original@[i as int].0@));
        assert(strs_view(all@) =~= file_keys(original@).take(i + 1));
        i += 1;
    }
    assert(file_keys(original@).take(original.len() as int) =~= file_keys(original@));
    let mut j: usize = 0;
    while j < updated.len()
        invariant
            j <= updated.len(),
            strs_view(all@) == file_keys(original@) + file_keys(updated@).take(j as int),
        decreases updated.len() - j,
    {
        let ghost before = all@;
        all.push(updated[j].0.clone());
        assert(strs_view(all@) =~= strs_view(before).push(updated@[j as int].0@));
        assert(file_keys(updated@).take(j + 1) =~= file_keys(updated@).take(j as int).push(updated@[j as int].0@));
        assert(strs_view(all@) =~= file_keys(original@) + file_keys(updated@).take(j + 1));
        j += 1;
    }
    assert(file_keys(updated@).take(updated.len() as int) =~= file_keys(updated@));
    let keys = crate::sorting::sorted_unique(&all);
    let ghost ks = strs_view(keys@);
    let mut out: Vec<SkillSourceDiffEntryDto> = Vec::new();
    let mut k: usize = 0;
    while k < keys.len()
        invariant
            k <= keys.len(),
            ks == strs_view(keys@),
            diff_view(out@) == diff_rows(ks.take(k as int), original@, updated@),
        decreases keys.len() - k,
    {
        let key = &keys[k];
        assert(ks.take(k + 1).drop_last() =~= ks.take(k as int));
        assert(ks.take(k + 1).last() == key@);
        let o = match find_last_file(original, key) {
            Some(x) => Some(&original[x].1),
            None => None,
        };
        let u = match find_last_file(updated, key) {
            Some(x) => Some(&updated[x].1),
            None => None,
        };
        assert(file_view(o) == file_at(original@, key@));
        assert(file_view(u) == file_at(updated@, key@));
        let ghost before = out@;
        match diff_entry(key, o, u) {
            Some(e) => {
                out.push(e);
                assert(diff_view(out@) =~= diff_view(before).push((key@, entry_view(out@[out@.len() - 1]))));
            },
            None => {},
        }
        k += 1;
    }
    assert(ks.take(keys.len() as int) =~= ks);
    out
}

/// Where the source preview and the source diff of a skill read its source
/// from: the skill must exist; a local or imported skill is read from its
/// source directory (`Some`, "not found" where it records none); a git or
/// skills.sh skill from its repository (`None`, see
/// [`git_source_from_skill`]); no other skill has a source to preview.
pub fn source_preview_dir(skill: Option<&SkillRecord>) -> (r: Result<Option<String>, AppError>)
    ensures
        match skill {
            None => r matches Err(e) && e.kind == ErrorKind::NotFound && e.message@ == "Skill not found"@,
            Some(s) => if s.source_type@ == "local"@ || s.source_type@ == "import"@ {
                match s.source_ref {
                    Some(p) => r matches Ok(Some(d)) && d@ == p@,
                    None => r matches Err(e) && e.kind == ErrorKind::NotFound
                        && e.message@ == "Local skill is missing its original source path"@,
                }
            } else if s.source_type@ == "git"@ || s.source_type@ == "skillssh"@ {
                r matches Ok(None)
            } else {
                r matches Err(e) && e.kind == ErrorKind::InvalidInput
                    && e.message@ == "Skill does not support source diff preview"@
            },
        },
{
    let s = match skill {
        None => {
            return Err(AppError::not_found("Skill not found"));
        },
        Some(s) => s,
    };
    let t = s.source_type.as_str();
    if str_eq(t, "local") || str_eq(t, "import") {
        return match &s.source_ref {
            Some(p) => Ok(Some(p.clone())),
            None => Err(AppError::not_found("Local skill is missing its original source path")),
        };
    }
    if str_eq(t, "git") || str_eq(t, "skillssh") {
        return Ok(None);
    }
    Err(AppError::invalid_input("Skill does not support source diff preview"))
}

/// A local source directory is previewed only while it exists.
pub fn ensure_source_exists(exists: bool) -> (r: Result<(), AppError>)
    ensures
        r is Ok <==> exists,
        r matches Err(e) ==> e.kind == ErrorKind::NotFound && e.message@ == "Original source path no longer exists"@,
{
    if !exists {
        return Err(AppError::not_found("Original source path no longer exists"));
    }
    Ok(())
}

/// The revision a source preview shows for a local source.
pub open spec fn workspace_revision() -> Seq<char> {
    "workspace"@
}

/// The source preview of a skill: its document as read from the source, the
/// label of the source, and the revision read (`"workspace"` for a local
/// source, the remote revision for a repository).
pub fn source_skill_document(
    skill: &SkillRecord,
    filename: String,
    content: String,
    remote_revision: Option<String>,
) -> (r: SourceSkillDocumentDto)
    ensures
        r.skill_id@ == skill.id@,
        r.filename@ == filename@,
        r.content@ == content@,
        r.source_label@ == spec_source_label(skill.source_type@),
        r.revision@ == match remote_revision {
            Some(v) => v@,
            None => workspace_revision(),
        },
{
    let revision = match remote_revision {
        Some(v) => v,
        None => "workspace".to_string(),
    };
    SourceSkillDocumentDto {
        skill_id: skill.id.clone(),
        filename,
        content,
        source_label: source_label_for_skill(skill),
        revision,
    }
}

/// The source diff of a skill: its rows (see [`build_source_diff_entries`]),
/// with the label of the source and the revision compared against (as for
/// [`source_skill_document`]).
pub fn skill_source_diff(
    skill: &SkillRecord,
    entries: Vec<SkillSourceDiffEntryDto>,
    remote_revision: Option<String>,
) -> (r: SkillSourceDiffDto)
    ensures
        r.skill_id@ == skill.id@,
        r.entries@ == entries@,
        r.source_label@ == spec_source_label(skill.source_type@),
        r.revision@ == match remote_revision {
            Some(v) => v@,
            None => workspace_revision(),
        },
{
    let revision = match remote_revision {
        Some(v) => v,
        None => "workspace".to_string(),
    };
    SkillSourceDiffDto { skill_id: skill.id.clone(), source_label: source_label_for_skill(skill), revision, entries }
}

/// The document view of a library skill: the skill must exist; its
/// document as read from its center copy.
pub fn get_skill_document(skill: Option<&SkillRecord>, filename: String, content: String) -> (r: Result<SkillDocumentDto, AppError>)
    ensures
        match skill {
            None => r matches Err(e) && e.kind == ErrorKind::NotFound && e.message@ == "Skill not found"@,
            Some(s) => r matches Ok(d) && d.skill_id@ == s.id@ && d.filename@ == filename@
                && d.content@ == content@ && d.central_path@ == s.central_path@,
        },
{
    match skill {
        None => Err(AppError::not_found("Skill not found")),
        Some(s) => Ok(SkillDocumentDto { skill_id: s.id.clone(), filename, content, central_path: s.central_path.clone() }),
    }
}

/// The file names a library skill's document may have, in the order they
/// are looked for; `agent_doc` is the name of the agent's own instructions
/// file, looked for as written and in lower case.
pub open spec fn skill_document_candidates(agent_doc: Seq<char>) -> Seq<Seq<char>> {
    seq![
        "SKILL.md"@,
        "skill.md"@,
        agent_doc,
        crate::settings::ascii_lowercase(agent_doc),
        "README.md"@,
        "readme.md"@,
    ]
}

/// The file names of [`skill_document_candidates`].
pub fn skill_document_names(agent_doc: &str) -> (r: Vec<String>)
    ensures
        strs_view(r@) == skill_document_candidates(agent_doc@),
{
    let cs = chars_of(agent_doc);
    let mut low: Vec<char> = Vec::new();
    let mut i: usize = 0;
    while i < cs.len()
        invariant
            i <= cs.len(),
            cs@ == agent_doc@,
            low@ == crate::settings::ascii_lowercase(cs@.take(i as int)),
        decreases cs.len() - i,
    {
        low.push(crate::settings::to_ascii_lower(cs[i]));
        assert(crate::settings::ascii_lowercase(cs@.take(i + 1)) =~= crate::settings::ascii_lowercase(
            cs@.take(i as int),
        ).push(crate::settings::ascii_lower(cs@[i as int])));
        i += 1;
    }
    assert(cs@.take(cs.len() as int) =~= cs@);
    let v = vec![
        "SKILL.md".to_string(),
        "skill.md".to_string(),
        agent_doc.to_string(),
        string_of(&low),
        "README.md".to_string(),
        "readme.md".to_string(),
    ];
    assert(strs_view(v@) =~= skill_document_candidates(agent_doc@));
    v
}

/// Which file is a skill's document: the first of `candidates` that exists
/// directly in the skill's directory (`exists[i]` for the `i`-th); else the
/// first file met walking the directory (`walked`, by name) whose name is
/// a candidate; else none ("not found").
pub enum DocumentChoice {
    /// The candidate at this index.
    Direct(usize),
    /// The walked file at this index.
    Walked(usize),
}

/// The test of a flag being set, as a predicate.
pub open spec fn true_pred() -> spec_fn(bool) -> bool {
    |b: bool| b
}

/// The test of being one of `names`, as a predicate.
pub open spec fn among_pred(names: Seq<Seq<char>>) -> spec_fn(String) -> bool {
    |n: String| names.contains(n@)
}

/// Picks a skill's document (see [`DocumentChoice`]).
pub fn read_skill_document_from_dir(
    candidates: &Vec<String>,
    exists: &Vec<bool>,
    walked: &Vec<String>,
) -> (r: Result<DocumentChoice, AppError>)
    requires
        exists.len() == candidates.len(),
    ensures
        ({
            let d = crate::text::first_where(exists@, true_pred());
            let w = crate::text::first_where(walked@, among_pred(strs_view(candidates@)));
            match r {
                Ok(DocumentChoice::Direct(i)) => i == d && d < exists.len(),
                Ok(DocumentChoice::Walked(j)) => d == exists.len() && j == w && w < walked.len(),
                Err(e) => d == exists.len() && w == walked.len() && e.kind == ErrorKind::NotFound
                    && e.message@ == "No documentation file found"@,
            }
        }),
{
    let ghost pd = true_pred();
    let mut i: usize = 0;
    while i < exists.len()
        invariant
            i <= exists.len(),
            pd == true_pred(),
            forall|t: int| 0 <= t < i ==> !pd(#[trigger] exists@[t]),
        decreases exists.len() - i,
    {
        if exists[i] {
            proof {
                crate::text::lemma_first_where_is(exists@, pd, i as int);
            }
            return Ok(DocumentChoice::Direct(i));
        }
        i += 1;
    }
    proof {
        crate::text::lemma_first_where_is(exists@, pd, i as int);
    }
    let ghost pw = among_pred(strs_view(candidates@));
    let mut j: usize = 0;
    while j < walked.len()
        invariant
            j <= walked.len(),
            pw == among_pred(strs_view(candidates@)),
            crate::text::first_where(exists@, true_pred()) == exists.len(),
            forall|t: int| 0 <= t < j ==> !pw(#[trigger] walked@[t]),
        decreases walked.len() - j,
    {
        if contains_name(candidates, walked[j].as_str()) {
            proof {
                crate::text::lemma_first_where_is(walked@, pw, j as int);
            }
            return Ok(DocumentChoice::Walked(j));
        }
        j += 1;
    }
    proof {
        crate::text::lemma_first_where_is(walked@, pw, j as int);
    }
    Err(AppError::not_found("No documentation file found"))
}

/// Whether `name` is one of `names`.
fn contains_name(names: &Vec<String>, name: &str) -> (r: bool)
    ensures
        r == strs_view(names@).contains(name@),
{
    let mut i: usize = 0;
    while i < names.len()
        invariant
            i <= names.len(),
            forall|t: int| 0 <= t < i ==> names@[t]@ != name@,
        decreases names.len() - i,
    {
        if str_eq(names[i].as_str(), name) {
            assert(strs_view(names@)[i as int] == name@);
            return true;
        }
        i += 1;
    }
    proof {
        if strs_view(names@).contains(name@) {
            let t = choose|t: int| 0 <= t < strs_view(names@).len() && strs_view(names@)[t] == name@;
            assert(names@[t]@ == name@);
        }
    }
    false
}

/// What `Path::new(path).strip_prefix(base)` gives, as a string.
pub uninterp spec fn spec_strip_path_prefix(path: Seq<char>, base: Seq<char>) -> Option<Seq<char>>;

/// What `Path::new(path).file_name()` gives, as a string.
pub uninterp spec fn spec_path_file_name(path: Seq<char>) -> Option<Seq<char>>;

/// `Path::strip_prefix` (component-wise): `path` relative to `base`, when
/// `base` is a prefix of it. The contract claims only that the result is the
/// one `std` computes for these two paths.
#[verifier::external_body]
pub(crate) fn strip_path_prefix(path: &str, base: &str) -> (r: Option<String>)
    ensures
        opt_view(r) == spec_strip_path_prefix(path@, base@),
{
    std::path::Path::new(path).strip_prefix(base).ok().map(|p| p.to_string_lossy().into_owned())
}

/// `Path::file_name`: the last component of `path`, if it is a normal one.
/// The contract claims only that the result is the one `std` computes.
#[verifier::external_body]
pub(crate) fn path_file_name(path: &str) -> (r: Option<String>)
    ensures
        opt_view(r) == spec_path_file_name(path@),
{
    std::path::Path::new(path).file_name().map(|n| n.to_string_lossy().into_owned())
}

/// `s` with every backslash replaced by a forward slash.
pub open spec fn forward_slashes(s: Seq<char>) -> Seq<char> {
    s.map_values(|c: char| if c == '\\' { '/' } else { c })
}

/// The stable key of a discovered skill directory `dir` inside the scanned
/// root `skill_dir`: its path relative to the root with `/` separators; the
/// directory's own name when it is the root itself.
pub open spec fn spec_skill_rel_key(skill_dir: Seq<char>, dir: Seq<char>) -> Seq<char> {
    rel_key_of(dir, spec_strip_path_prefix(dir, skill_dir), spec_path_file_name(dir))
}

/// The key of the directory `dir`, given what stripping the scanned root
/// from it gives (`stripped`, none where the root is not a prefix) and its
/// file name: the relative path with `/` separators, `dir` itself where the
/// root is not a prefix; the directory's own name (or nothing) when the
/// relative path is empty.
pub open spec fn rel_key_of(dir: Seq<char>, stripped: Option<Seq<char>>, file_name: Option<Seq<char>>) -> Seq<char> {
    let rel = match stripped {
        Some(r) => r,
        None => dir,
    };
    if rel.len() == 0 {
        match file_name {
            Some(n) => n,
            None => seq![],
        }
    } else {
        forward_slashes(rel)
    }
}

/// The stable key of a discovered skill directory (see [`spec_skill_rel_key`]).
pub fn skill_rel_key(skill_dir: &str, dir: &str) -> (r: String)
    ensures
        r@ == spec_skill_rel_key(skill_dir@, dir@),
{
    rel_key_from(dir, strip_path_prefix(dir, skill_dir), path_file_name(dir))
}

/// The key of a directory from what `Path` gives for it (see
/// [`rel_key_of`]).
pub fn rel_key_from(dir: &str, stripped: Option<String>, file_name: Option<String>) -> (r: String)
    ensures
        r@ == rel_key_of(dir@, opt_view(stripped), opt_view(file_name)),
{
    let rel = match stripped {
        Some(r) => r,
        None => dir.to_string(),
    };
    let cs = chars_of(rel.as_str());
    if cs.len() == 0 {
        return match file_name {
            Some(n) => n,
            None => String::new(),
        };
    }
    let mut out: Vec<char> = Vec::new();
    let mut i: usize = 0;
    while i < cs.len()
        invariant
            i <= cs.len(),
            out@ == forward_slashes(cs@.take(i as int)),
        decreases cs.len() - i,
    {
        let c = cs[i];
        out.push(if c == '\\' { '/' } else { c });
        assert(forward_slashes(cs@.take(i + 1)) =~= forward_slashes(cs@.take(i as int)).push(
            if c == '\\' { '/' } else { c },
        ));
        i += 1;
    }
    assert(cs@.take(cs.len() as int) =~= cs@);
    string_of(&out)
}

/// Whether the canonical path of a git preview's temporary checkout may be
/// confirmed: it lies inside the canonical temp directory (component-wise),
/// and its directory name (empty when it has none) starts with the prefix of
/// clone checkouts.
pub open spec fn clone_temp_accepted(canonical: Seq<char>, temp_root: Seq<char>, clone_prefix: Seq<char>) -> bool {
    &&& spec_strip_path_prefix(canonical, temp_root) is Some
    &&& crate::text::starts_with(
        match spec_path_file_name(canonical) {
            Some(n) => n,
            None => seq![],
        },
        clone_prefix,
    )
}

/// Checks the temporary checkout a git install is confirmed from. `exists`
/// tells whether the given path still exists and `canonical` is its
/// canonical form, when it has one. The checkout must be an isolated one
/// under the temp directory `temp_root`, never the repository cache.
pub fn validate_clone_temp_path(
    exists: bool,
    canonical: Option<String>,
    temp_root: &str,
    clone_prefix: &str,
) -> (r: Result<String, AppError>)
    ensures
        !exists ==> r is Err && r->Err_0.kind == ErrorKind::InvalidInput
            && r->Err_0.message@ == "Clone session expired, please try again"@,
        exists && canonical is None ==> r is Err && r->Err_0.kind == ErrorKind::InvalidInput
            && r->Err_0.message@ == "Invalid temp directory"@,
        exists && canonical is Some ==> {
            &&& r is Ok <==> clone_temp_accepted(canonical->0@, temp_root@, clone_prefix@)
            &&& r is Ok ==> r->Ok_0@ == canonical->0@
            &&& r is Err ==> r->Err_0.kind == ErrorKind::InvalidInput
                && r->Err_0.message@ == "Invalid temp directory"@
        },
{
    if !exists {
        return Err(AppError::invalid_input("Clone session expired, please try again"));
    }
    let path = match canonical {
        Some(p) => p,
        None => {
            return Err(AppError::invalid_input("Invalid temp directory"));
        },
    };
    if strip_path_prefix(path.as_str(), temp_root).is_some() {
        let name = match path_file_name(path.as_str()) {
            Some(n) => n,
            None => String::new(),
        };
        let nc = chars_of(name.as_str());
        let pc = chars_of(clone_prefix);
        if crate::text::starts_with_at(&nc, 0, nc.len(), &pc) {
            proof {
                assert(nc@.subrange(0, nc@.len() as int) =~= nc@);
            }
            return Ok(path);
        }
        proof {
            assert(nc@.subrange(0, nc@.len() as int) =~= nc@);
        }
    }
    Err(AppError::invalid_input("Invalid temp directory"))
}

/// The name a skill found in a cloned repository is previewed under: the
/// name in its `SKILL.md` unless missing or blank, else its directory's
/// name, else its key.
pub open spec fn preview_name(md_name: Option<Seq<char>>, dir: Seq<char>, rel_key: Seq<char>) -> Seq<char> {
    match md_name {
        Some(n) => if is_blank(n) {
            match spec_path_file_name(dir) {
                Some(b) => b,
                None => rel_key,
            }
        } else {
            n
        },
        None => match spec_path_file_name(dir) {
            Some(b) => b,
            None => rel_key,
        },
    }
}

/// How a skill directory `dir` found under the scan root `skill_dir` of a
/// cloned repository is previewed: by its key (see [`spec_skill_rel_key`]),
/// its name (see [`preview_name`]) and the description of its `SKILL.md`.
pub fn git_skill_preview(skill_dir: &str, dir: &str, md_name: Option<String>, md_description: Option<String>) -> (r: GitSkillPreview)
    ensures
        r.rel_path@ == spec_skill_rel_key(skill_dir@, dir@),
        r.name@ == preview_name(opt_view(md_name), dir@, spec_skill_rel_key(skill_dir@, dir@)),
        opt_view(r.description) == opt_view(md_description),
{
    let rel_path = skill_rel_key(skill_dir, dir);
    let basename = match path_file_name(dir) {
        Some(b) => b,
        None => clone_string(&rel_path),
    };
    let name = match md_name {
        Some(n) => if blank(n.as_str()) {
            basename
        } else {
            n
        },
        None => basename,
    };
    GitSkillPreview { rel_path, name, description: md_description }
}

/// The install name an item of a confirmed git install asks for: its name
/// trimmed, none where that is empty (the skill's own name is used).
pub open spec fn install_name_of(item_name: Seq<char>) -> Option<Seq<char>> {
    if crate::text::trim(item_name).len() == 0 {
        None
    } else {
        Some(crate::text::trim(item_name))
    }
}

/// The test of selecting the skill with key `key`, as a predicate.
pub open spec fn selects_pred(key: Seq<char>) -> spec_fn(SkillInstallItem) -> bool {
    |i: SkillInstallItem| i.rel_path@ == key
}

/// Whether and how a skill found under the key `rel_key` is installed when
/// a git install is confirmed: skipped where no selected item has that key;
/// else under the install name of the first item that has it (see
/// [`install_name_of`]).
pub fn selected_install(items: &[SkillInstallItem], rel_key: &str) -> (r: Option<Option<String>>)
    ensures
        ({
            let k = crate::text::first_where(items@, selects_pred(rel_key@));
            match r {
                None => k == items.len(),
                Some(n) => k < items.len() && opt_view(n) == install_name_of(items@[k].name@),
            }
        }),
{
    let ghost p = selects_pred(rel_key@);
    let mut k: usize = 0;
    while k < items.len()
        invariant
            k <= items.len(),
            p == selects_pred(rel_key@),
            forall|t: int| 0 <= t < k ==> !p(#[trigger] items@[t]),
        decreases items.len() - k,
    {
        if str_eq(items[k].rel_path.as_str(), rel_key) {
            proof {
                crate::text::lemma_first_where_is(items@, p, k as int);
            }
            let cs = chars_of(items[k].name.as_str());
            let (a, z) = trim_bounds(&cs, 0, cs.len());
            assert(cs@.subrange(0, cs.len() as int) =~= items@[k as int].name@);
            if a == z {
                return Some(None);
            }
            return Some(Some(string_of_range(&cs, a, z)));
        }
        k += 1;
    }
    proof {
        crate::text::lemma_first_where_is(items@, p, k as int);
    }
    None
}

/// What `Path::new(path).with_file_name(name)` gives, as a string.
pub uninterp spec fn spec_with_file_name(path: Seq<char>, name: Seq<char>) -> Seq<char>;

/// `Path::with_file_name`: `path` with its last component replaced by `name`
/// (or `name` appended where `path` has no file name). The contract claims
/// only that the result is the one `std` computes for these two strings.
#[verifier::external_body]
fn with_file_name(path: &str, name: &str) -> (r: String)
    ensures
        r@ == spec_with_file_name(path@, name@),
{
    std::path::Path::new(path).with_file_name(name).to_string_lossy().into_owned()
}

/// The hidden name a staged copy of a skill directory gets beside it: the
/// directory's own name ("skill" where it has none) and a unique `token`.
pub open spec fn staged_file_name(file_name: Option<Seq<char>>, token: Seq<char>) -> Seq<char> {
    "."@ + (match file_name {
        Some(n) => n,
        None => "skill"@,
    }) + ".staged-"@ + token
}

/// Where a new copy of the skill at `central_path` is staged before it
/// replaces the old one: beside it, under a hidden name made unique by a
/// random token.
pub fn staged_path_for(central_path: &str) -> (r: String)
    ensures
        exists|token: Seq<char>|
            r@ == spec_with_file_name(
                central_path@,
                #[trigger] staged_file_name(spec_path_file_name(central_path@), token),
            ),
{
    let base = match path_file_name(central_path) {
        Some(n) => n,
        None => "skill".to_string(),
    };
    let token = crate::remote::new_uuid();
    let mut name = ".".to_string();
    push_str(&mut name, base.as_str());
    push_str(&mut name, ".staged-");
    push_str(&mut name, token.as_str());
    proof {
        reveal_strlit(".");
        reveal_strlit("skill");
        assert(name@ == staged_file_name(spec_path_file_name(central_path@), token@));
    }
    with_file_name(central_path, name.as_str())
}

// ---------------------------------------------------------------------------
// Update checks
// ---------------------------------------------------------------------------

/// The update status of a git-based skill once the remote revision is known.
pub open spec fn spec_git_update_status(source_revision: Option<Seq<char>>, remote_revision: Seq<char>) -> Seq<char> {
    match source_revision {
        Some(current) => if current == remote_revision {
            "up_to_date"@
        } else {
            "update_available"@
        },
        None => "unknown"@,
    }
}

/// `up_to_date` when the installed revision is the remote one,
/// `update_available` when it differs, `unknown` when none was recorded.
pub fn git_update_status(source_revision: &Option<String>, remote_revision: &str) -> (r: String)
    ensures
        r@ == spec_git_update_status(opt_view(*source_revision), remote_revision@),
{
    match source_revision {
        Some(current) => if str_eq(current.as_str(), remote_revision) {
            "up_to_date".to_string()
        } else {
            "update_available".to_string()
        },
        None => "unknown".to_string(),
    }
}

/// What was found at a local skill's original source path.
pub enum LocalSourceProbe {
    /// The skill records no source path.
    NoSourceRef,
    /// The source path no longer exists.
    Missing,
    /// The source exists and hashes to this value.
    Hashed(String),
    /// The source exists but could not be hashed.
    HashError(String),
}

/// The update status (and error) of a local skill.
pub open spec fn spec_local_update_status(probe: LocalSourceProbe, stored_hash: Option<Seq<char>>) -> (Seq<char>, Option<Seq<char>>) {
    match probe {
        LocalSourceProbe::NoSourceRef => ("local_only"@, None),
        LocalSourceProbe::Missing => ("source_missing"@, Some("Original source path no longer exists"@)),
        LocalSourceProbe::Hashed(live) => match stored_hash {
            Some(stored) => if stored == live@ {
                ("up_to_date"@, None)
            } else {
                ("update_available"@, None)
            },
            None => ("local_only"@, None),
        },
        LocalSourceProbe::HashError(e) => ("error"@, Some(e@)),
    }
}

/// The update status of a local skill: `source_missing` when its source is
/// gone, `up_to_date` or `update_available` by comparing the stored content
/// hash with the live one, `local_only` when there is nothing to compare.
pub fn local_update_status(probe: LocalSourceProbe, stored_hash: &Option<String>) -> (r: (String, Option<String>))
    ensures
        (r.0@, opt_view(r.1)) == spec_local_update_status(probe, opt_view(*stored_hash)),
{
    match probe {
        LocalSourceProbe::NoSourceRef => ("local_only".to_string(), None),
        LocalSourceProbe::Missing => (
            "source_missing".to_string(),
            Some("Original source path no longer exists".to_string()),
        ),
        LocalSourceProbe::Hashed(live) => match stored_hash {
            Some(stored) => if str_eq(stored.as_str(), live.as_str()) {
                ("up_to_date".to_string(), None)
            } else {
                ("update_available".to_string(), None)
            },
            None => ("local_only".to_string(), None),
        },
        LocalSourceProbe::HashError(e) => ("error".to_string(), Some(e)),
    }
}


// ---------------------------------------------------------------------------
// Install target of a skills.sh skill
// ---------------------------------------------------------------------------

/// `Path::join` on Unix paths: an absolute `name` replaces `dir`; otherwise
/// `name` is appended after a `/` unless `dir` is empty or already ends in one.
pub open spec fn join_path(dir: Seq<char>, name: Seq<char>) -> Seq<char> {
    if name.len() > 0 && name[0] == '/' {
        name
    } else if dir.len() == 0 {
        name
    } else if dir.last() == '/' {
        dir + name
    } else {
        dir + seq!['/'] + name
    }
}

/// The directory name tried at the given attempt: the skill id first, then
/// the skill id followed by `-2`, `-3`, and so on.
pub open spec fn candidate_name(base: Seq<char>, attempt: nat) -> Seq<char> {
    if attempt <= 1 {
        base
    } else {
        base + seq!['-'] + crate::text::decimal(attempt)
    }
}

/// Some skill of the store lives at `path`.
pub open spec fn path_occupied(skills: Seq<SkillRecord>, path: Seq<char>) -> bool {
    exists|i: int| 0 <= i < skills.len() && (#[trigger] skills[i]).central_path@ == path
}

/// The first skills.sh skill recorded with the given source reference.
pub open spec fn find_skillssh_by_ref(skills: Seq<SkillRecord>, source_ref: Seq<char>) -> Option<SkillRecord>
    decreases skills.len(),
{
    if skills.len() == 0 {
        None
    } else if skills[0].source_type@ == "skillssh"@ && opt_view(skills[0].source_ref) == Some(source_ref) {
        Some(skills[0])
    } else {
        find_skillssh_by_ref(skills.drop_first(), source_ref)
    }
}

/// `path` joined with `name` (see [`join_path`]).
pub fn join_path_exec(dir: &str, name: &str) -> (r: String)
    ensures
        r@ == join_path(dir@, name@),
{
    let d = chars_of(dir);
    let n = chars_of(name);
    if n.len() > 0 && n[0] == '/' {
        return name.to_string();
    }
    if d.len() == 0 {
        return name.to_string();
    }
    let mut out = dir.to_string();
    if d[d.len() - 1] != '/' {
        crate::text::push_char(&mut out, '/');
    }
    push_str(&mut out, name);
    proof {
        if d@.last() != '/' {
            assert(out@ =~= dir@ + seq!['/'] + name@);
        }
    }
    out
}

proof fn lemma_candidate_names_differ(base: Seq<char>, a: nat, b: nat)
    requires
        1 <= a < b,
    ensures
        candidate_name(base, a) != candidate_name(base, b),
        candidate_name(base, a).len() >= base.len(),
        candidate_name(base, a).take(base.len() as int) == base,
        candidate_name(base, b).take(base.len() as int) == base,
{
    crate::text::lemma_decimal_len(b);
    crate::text::lemma_decimal_len(a);
    let nb = candidate_name(base, b);
    assert(nb.take(base.len() as int) =~= base);
    if a == 1 {
        assert(candidate_name(base, a).take(base.len() as int) =~= base);
        assert(nb.len() > base.len());
    } else {
        let na = candidate_name(base, a);
        assert(na.take(base.len() as int) =~= base);
        if na == nb {
            assert(na.skip(base.len() as int + 1) =~= crate::text::decimal(a));
            assert(nb.skip(base.len() as int + 1) =~= crate::text::decimal(b));
            crate::text::lemma_decimal_injective(a, b);
        }
    }
}

proof fn lemma_candidate_paths_differ(dir: Seq<char>, base: Seq<char>, a: nat, b: nat)
    requires
        1 <= a < b,
        base.len() > 0,
    ensures
        join_path(dir, candidate_name(base, a)) != join_path(dir, candidate_name(base, b)),
{
    lemma_candidate_names_differ(base, a, b);
    let na = candidate_name(base, a);
    let nb = candidate_name(base, b);
    assert(na[0] == base[0]) by {
        assert(na.take(base.len() as int)[0] == base[0]);
    }
    assert(nb[0] == base[0]) by {
        assert(nb.take(base.len() as int)[0] == base[0]);
    }
    let pa = join_path(dir, na);
    let pb = join_path(dir, nb);
    if base[0] != '/' && dir.len() > 0 {
        if dir.last() == '/' {
            if pa == pb {
                assert(pa.skip(dir.len() as int) =~= na);
                assert(pb.skip(dir.len() as int) =~= nb);
            }
        } else {
            if pa == pb {
                assert(pa.skip(dir.len() as int + 1) =~= na);
                assert(pb.skip(dir.len() as int + 1) =~= nb);
            }
        }
    }
}

/// Whether some skill of the store lives at `path`.
fn occupied(skills: &[SkillRecord], path: &str) -> (r: bool)
    ensures
        r == path_occupied(skills@, path@),
{
    let mut i: usize = 0;
    while i < skills.len()
        invariant
            i <= skills.len(),
            forall|j: int| 0 <= j < i ==> (#[trigger] skills@[j]).central_path@ != path@,
        decreases skills.len() - i,
    {
        if str_eq(skills[i].central_path.as_str(), path) {
            return true;
        }
        i += 1;
    }
    false
}

/// Where a skills.sh skill is installed: where the store already keeps the
/// skill with this source reference, else the first free directory of the
/// central skills directory `skills_dir` among the trimmed skill id, then the
/// id followed by `-2`, `-3`, and so on. Fails when the skill id is blank.
pub fn resolve_skillssh_install_target(
    store: &SkillStore,
    skills_dir: &str,
    source_ref: &str,
    skill_id: &str,
) -> (r: Result<(String, String), AppError>)
    ensures
        match find_skillssh_by_ref(store.skills@, source_ref@) {
            Some(existing) => r matches Ok((name, path)) && name@ == existing.name@ && path@ == existing.central_path@,
            None => if crate::text::trim(skill_id@).len() == 0 {
                r matches Err(e) && e.kind == ErrorKind::InvalidInput && e.message@ == "Skill id is empty"@
            } else {
                r matches Ok((name, path)) && is_free_target(
                    store.skills@, skills_dir@, crate::text::trim(skill_id@), name@, path@,
                )
            },
        },
{
    let mut i: usize = 0;
    assert(store.skills@.skip(0) =~= store.skills@);
    while i < store.skills.len()
        invariant
            i <= store.skills.len(),
            find_skillssh_by_ref(store.skills@, source_ref@) == find_skillssh_by_ref(store.skills@.skip(i as int), source_ref@),
        decreases store.skills.len() - i,
    {
        assert(store.skills@.skip(i as int)[0] == store.skills@[i as int]);
        assert(store.skills@.skip(i as int).drop_first() =~= store.skills@.skip(i + 1));
        let rec = &store.skills[i];
        let matches_ref = match &rec.source_ref {
            Some(r) => str_eq(r.as_str(), source_ref),
            None => false,
        };
        if str_eq(rec.source_type.as_str(), "skillssh") && matches_ref {
            return Ok((rec.name.clone(), rec.central_path.clone()));
        }
        i += 1;
    }
    proof {
        assert(store.skills@.skip(i as int) =~= Seq::<SkillRecord>::empty());
    }
    match free_install_target(&store.skills, skills_dir, skill_id) {
        Some(t) => Ok(t),
        None => Err(AppError::invalid_input("Skill id is empty")),
    }
}

/// `(name, path)` is the first free directory of the central skills
/// directory `skills_dir` for a skill named `base`: the first of `base`,
/// `base-2`, `base-3`, ... where no skill of `skills` lives.
pub open spec fn is_free_target(skills: Seq<SkillRecord>, skills_dir: Seq<char>, base: Seq<char>, name: Seq<char>, path: Seq<char>) -> bool {
    exists|k: nat| {
        &&& k >= 1
        &&& name == candidate_name(base, k)
        &&& path == join_path(skills_dir, name)
        &&& !path_occupied(skills, path)
        &&& forall|a: nat| 1 <= a < k ==> path_occupied(skills, #[trigger] join_path(skills_dir, candidate_name(base, a)))
    }
}

/// The first free directory for a skill named `name`, trimmed (see
/// [`is_free_target`]); none where the name is blank.
pub fn free_install_target(skills: &[SkillRecord], skills_dir: &str, name: &str) -> (r: Option<(String, String)>)
    ensures
        crate::text::trim(name@).len() == 0 ==> r is None,
        crate::text::trim(name@).len() > 0 ==> (r matches Some((n, p))
            && is_free_target(skills@, skills_dir@, crate::text::trim(name@), n@, p@)),
{
    let cs = chars_of(name);
    let (a, z) = trim_bounds(&cs, 0, cs.len());
    assert(cs@.subrange(0, cs.len() as int) =~= cs@);
    if a == z {
        return None;
    }
    let base = string_of_range(&cs, a, z);
    let ghost b = base@;
    assert(b == crate::text::trim(name@));
    let ghost dir = skills_dir@;
    let n = skills.len();
    let mut attempt: u128 = 1;
    while attempt <= n as u128 + 1
        invariant
            1 <= attempt <= n + 2,
            n == skills.len(),
            b == base@,
            b.len() > 0,
            b == crate::text::trim(name@),
            dir == skills_dir@,
            forall|k: nat| 1 <= k < attempt ==> path_occupied(skills@, #[trigger] join_path(dir, candidate_name(b, k))),
        decreases n + 2 - attempt,
    {
        let cand = if attempt == 1 {
            base.clone()
        } else {
            let mut nm = base.clone();
            crate::text::push_char(&mut nm, '-');
            let d = crate::text::to_decimal(attempt);
            push_str(&mut nm, d.as_str());
            assert(nm@ =~= b + seq!['-'] + crate::text::decimal(attempt as nat));
            nm
        };
        let path = join_path_exec(skills_dir, cand.as_str());
        assert(cand@ == candidate_name(b, attempt as nat));
        if !occupied(skills, path.as_str()) {
            return Some((cand, path));
        }
        attempt += 1;
    }
    // Every candidate 1..=n+1 is taken by a different skill: impossible with n skills.
    proof {
        let cands = Seq::new((n + 1) as nat, |j: int| join_path(dir, candidate_name(b, (j + 1) as nat)));
        let pool = skills@.map_values(|s: SkillRecord| s.central_path@);
        assert forall|x: int, y: int| 0 <= x < cands.len() && 0 <= y < cands.len() && x != y implies cands[x] != cands[y] by {
            if x < y {
                lemma_candidate_paths_differ(dir, b, (x + 1) as nat, (y + 1) as nat);
            } else {
                lemma_candidate_paths_differ(dir, b, (y + 1) as nat, (x + 1) as nat);
            }
        }
        assert forall|x: int| 0 <= x < cands.len() implies pool.contains(#[trigger] cands[x]) by {
            assert(path_occupied(skills@, join_path(dir, candidate_name(b, (x + 1) as nat))));
            let i = choose|i: int| 0 <= i < skills@.len() && (#[trigger] skills@[i]).central_path@ == cands[x];
            assert(pool[i] == cands[x]);
        }
        crate::text::lemma_pigeonhole(cands, pool);
    }
    None
}


// ---------------------------------------------------------------------------
// Skill directories of a fetched repository
// ---------------------------------------------------------------------------

/// The key by which paths are ordered: `PathBuf`'s order compares paths
/// component by component, which is the order of the text with each `/`
/// taken as smaller than every other character.
pub open spec fn path_order_key(p: Seq<char>) -> Seq<char> {
    p.map_values(|c: char| if c == '/' { '\0' } else { c })
}

/// The skill directories to install from a fetched repository: the
/// repository's directory itself where it is a skill, else the skill
/// directories found under it, in path order (possibly none).
pub fn collect_git_skill_dirs(skill_dir: &str, root_is_skill: bool, found: Vec<String>) -> (r: Vec<String>)
    ensures
        root_is_skill ==> r@.len() == 1 && r@[0]@ == skill_dir@,
        !root_is_skill ==> exists|idx: Seq<int>| #[trigger] crate::sorting::is_stable_sort_by(
            found@,
            path_keys(found@),
            r@,
            idx,
        ),
{
    if root_is_skill {
        let mut v = Vec::new();
        v.push(skill_dir.to_string());
        return v;
    }
    let mut keys: Vec<String> = Vec::new();
    let mut i: usize = 0;
    while i < found.len()
        invariant
            i <= found.len(),
            keys.len() == i,
            forall|p: int| 0 <= p < i ==> (#[trigger] keys@[p])@ == path_order_key(found@[p]@),
        decreases found.len() - i,
    {
        let cs = chars_of(found[i].as_str());
        let mut k: Vec<char> = Vec::new();
        let mut j: usize = 0;
        while j < cs.len()
            invariant
                j <= cs.len(),
                cs@ == found@[i as int]@,
                k@ == path_order_key(cs@.take(j as int)),
            decreases cs.len() - j,
        {
            k.push(if cs[j] == '/' { '\0' } else { cs[j] });
            assert(path_order_key(cs@.take(j + 1)) =~= path_order_key(cs@.take(j as int)).push(
                if cs@[j as int] == '/' { '\0' } else { cs@[j as int] },
            ));
            j += 1;
        }
        assert(cs@.take(cs.len() as int) =~= cs@);
        keys.push(crate::text::string_of(&k));
        i += 1;
    }
    assert(strs_view(keys@) =~= path_keys(found@));
    crate::sorting::sort_by_keys(found, keys)
}

/// The order keys of the paths.
pub open spec fn path_keys(paths: Seq<String>) -> Seq<Seq<char>> {
    paths.map_values(|p: String| path_order_key(p@))
}

/// Where a skill's files lie in a fetched repository: its recorded subpath
/// under the repository where that is a directory; else where the repository
/// search found it, a failed search being a git error.
pub fn resolve_skill_dir(
    repo_dir: &str,
    subpath: Option<&str>,
    subpath_is_dir: bool,
    found: Result<String, String>,
) -> (r: Result<String, AppError>)
    ensures
        match subpath {
            Some(sp) if subpath_is_dir => r matches Ok(p) && p@ == join_path(repo_dir@, sp@),
            _ => match found {
                Ok(f) => r matches Ok(p) && p@ == f@,
                Err(m) => r matches Err(e) && e.kind == ErrorKind::Git && e.message@ == m@,
            },
        },
{
    if let Some(sp) = subpath {
        if subpath_is_dir {
            return Ok(join_path_exec(repo_dir, sp));
        }
    }
    match found {
        Ok(f) => Ok(f),
        Err(m) => Err(AppError { kind: ErrorKind::Git, message: m }),
    }
}


/// The name of a skill directory found in the central repository without a
/// record: the name its `SKILL.md` gives unless blank, else the directory's
/// own name, else `unknown-skill`.
pub open spec fn spec_indexed_name(md_name: Option<Seq<char>>, dir_name: Option<Seq<char>>) -> Seq<char> {
    match md_name {
        Some(n) => if crate::text::trim(n).len() > 0 {
            n
        } else {
            match dir_name {
                Some(d) => d,
                None => "unknown-skill"@,
            }
        },
        None => match dir_name {
            Some(d) => d,
            None => "unknown-skill"@,
        },
    }
}

/// The record of a skill directory found in the central repository without
/// one: an imported, enabled skill whose source is the directory itself,
/// named as [`spec_indexed_name`] says, checked and created at `now_ms`.
pub fn indexed_skill_record(
    id: String,
    central_path: &str,
    md_name: Option<String>,
    md_description: Option<String>,
    content_hash: Option<String>,
    now_ms: i64,
) -> (r: SkillRecord)
    ensures
        r.id@ == id@,
        r.name@ == spec_indexed_name(opt_view(md_name), spec_path_file_name(central_path@)),
        opt_view(r.description) == opt_view(md_description),
        r.source_type@ == "import"@,
        opt_view(r.source_ref) == Some(central_path@),
        r.source_ref_resolved is None && r.source_subpath is None && r.source_branch is None,
        r.source_revision is None && r.remote_revision is None,
        r.central_path@ == central_path@,
        opt_view(r.content_hash) == opt_view(content_hash),
        r.enabled,
        r.created_at == now_ms && r.updated_at == now_ms,
        r.status@ == "ok"@,
        r.update_status@ == "local_only"@,
        r.last_checked_at == Some(now_ms),
        r.last_check_error is None,
{
    let dir_name = path_file_name(central_path);
    let name = match md_name {
        Some(n) => {
            let t = crate::text::trimmed_str(n.as_str());
            if !t.as_str().is_empty() {
                n
            } else {
                match dir_name {
                    Some(d) => d,
                    None => "unknown-skill".to_string(),
                }
            }
        },
        None => match dir_name {
            Some(d) => d,
            None => "unknown-skill".to_string(),
        },
    };
    SkillRecord {
        id,
        name,
        description: md_description,
        source_type: "import".to_string(),
        source_ref: Some(central_path.to_string()),
        source_ref_resolved: None,
        source_subpath: None,
        source_branch: None,
        source_revision: None,
        remote_revision: None,
        central_path: central_path.to_string(),
        content_hash,
        enabled: true,
        created_at: now_ms,
        updated_at: now_ms,
        status: "ok".to_string(),
        update_status: "local_only".to_string(),
        last_checked_at: Some(now_ms),
        last_check_error: None,
    }
}


/// What an install from a local directory records of its source: the
/// directory, with the skill only local.
pub fn local_install_metadata(source_path: &str) -> (r: InstallSourceMetadata)
    ensures
        r.source_type@ == "local"@,
        opt_view(r.source_ref) == Some(source_path@),
        r.source_ref_resolved is None && r.source_subpath is None && r.source_branch is None,
        r.source_revision is None && r.remote_revision is None,
        r.update_status@ == "local_only"@,
{
    InstallSourceMetadata {
        source_type: "local".to_string(),
        source_ref: Some(source_path.to_string()),
        source_ref_resolved: None,
        source_subpath: None,
        source_branch: None,
        source_revision: None,
        remote_revision: None,
        update_status: "local_only".to_string(),
    }
}

/// What an install from a git repository records of its source: the URL as
/// given and as cloned, where in the repository the skill lies, the branch,
/// and the installed revision (known to be the remote's latest, where one
/// is given; else the status is unknown until the next check).
pub fn git_install_metadata(
    original_url: &str,
    clone_url: &str,
    subpath: Option<String>,
    branch: Option<String>,
    revision: Option<String>,
) -> (r: InstallSourceMetadata)
    ensures
        r.source_type@ == "git"@,
        opt_view(r.source_ref) == Some(original_url@),
        opt_view(r.source_ref_resolved) == Some(clone_url@),
        opt_view(r.source_subpath) == opt_view(subpath),
        opt_view(r.source_branch) == opt_view(branch),
        opt_view(r.source_revision) == opt_view(revision),
        opt_view(r.remote_revision) == opt_view(revision),
        r.update_status@ == (if revision is Some { "up_to_date"@ } else { "unknown"@ }),
{
    let status = if revision.is_some() { "up_to_date" } else { "unknown" };
    InstallSourceMetadata {
        source_type: "git".to_string(),
        source_ref: Some(original_url.to_string()),
        source_ref_resolved: Some(clone_url.to_string()),
        source_subpath: subpath,
        source_branch: branch,
        source_revision: clone_opt(&revision),
        remote_revision: revision,
        update_status: status.to_string(),
    }
}

/// What an install from skills.sh records of its source: `source/skill` as
/// its reference, the GitHub repository `source` as cloned, where in it the
/// skill lies, and the installed revision, the remote's latest.
pub fn skillssh_install_metadata(source: &str, skill_id: &str, subpath: Option<String>, revision: &str) -> (r: InstallSourceMetadata)
    ensures
        r.source_type@ == "skillssh"@,
        opt_view(r.source_ref) == Some(source@ + "/"@ + skill_id@),
        opt_view(r.source_ref_resolved) == Some("https://github.com/"@ + source@ + ".git"@),
        opt_view(r.source_subpath) == opt_view(subpath),
        r.source_branch is None,
        opt_view(r.source_revision) == Some(revision@),
        opt_view(r.remote_revision) == Some(revision@),
        r.update_status@ == "up_to_date"@,
{
    let mut source_ref = source.to_string();
    push_str(&mut source_ref, "/");
    push_str(&mut source_ref, skill_id);
    let mut repo_url = "https://github.com/".to_string();
    push_str(&mut repo_url, source);
    push_str(&mut repo_url, ".git");
    InstallSourceMetadata {
        source_type: "skillssh".to_string(),
        source_ref: Some(source_ref),
        source_ref_resolved: Some(repo_url),
        source_subpath: subpath,
        source_branch: None,
        source_revision: Some(revision.to_string()),
        remote_revision: Some(revision.to_string()),
        update_status: "up_to_date".to_string(),
    }
}


/// The name a discovered skill is installed under: its guessed name, else
/// `unnamed-skill`.
pub fn discovered_install_name(name_guess: Option<String>) -> (r: String)
    ensures
        r@ == (match name_guess {
            Some(n) => n@,
            None => "unnamed-skill"@,
        }),
{
    match name_guess {
        Some(n) => n,
        None => "unnamed-skill".to_string(),
    }
}

/// The record of a skill imported from a directory found on disk: an
/// imported, enabled skill whose source is the directory it was found in,
/// installed at `central_path` with this name, description and content
/// hash, checked and created at `now_ms`.
pub fn discovered_skill_record(
    id: String,
    name: String,
    description: Option<String>,
    found_path: String,
    central_path: String,
    content_hash: String,
    now_ms: i64,
) -> (r: SkillRecord)
    ensures
        r.id@ == id@,
        r.name@ == name@,
        opt_view(r.description) == opt_view(description),
        r.source_type@ == "import"@,
        opt_view(r.source_ref) == Some(found_path@),
        r.source_ref_resolved is None && r.source_subpath is None && r.source_branch is None,
        r.source_revision is None && r.remote_revision is None,
        r.central_path@ == central_path@,
        opt_view(r.content_hash) == Some(content_hash@),
        r.enabled,
        r.created_at == now_ms && r.updated_at == now_ms,
        r.status@ == "ok"@,
        r.update_status@ == "local_only"@,
        r.last_checked_at == Some(now_ms),
        r.last_check_error is None,
{
    SkillRecord {
        id,
        name,
        description,
        source_type: "import".to_string(),
        source_ref: Some(found_path),
        source_ref_resolved: None,
        source_subpath: None,
        source_branch: None,
        source_revision: None,
        remote_revision: None,
        central_path,
        content_hash: Some(content_hash),
        enabled: true,
        created_at: now_ms,
        updated_at: now_ms,
        status: "ok".to_string(),
        update_status: "local_only".to_string(),
        last_checked_at: Some(now_ms),
        last_check_error: None,
    }
}

} // verus!

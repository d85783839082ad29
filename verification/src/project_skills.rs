//! What the project commands decide: where a project keeps its skills,
//! which directory an operation on one of its skills touches, and what
//! importing such a skill into the library records.
//!
//! The callers look at the disk; these functions take what was found (a
//! directory exists, a file is there) and the current directory, and give
//! back the paths to act on or the error the user sees.
use crate::error::{AppError, ErrorKind};
use crate::skills::{
    free_install_target, is_free_target, join_path, join_path_exec, path_file_name, spec_path_file_name, spec_strip_path_prefix, strip_path_prefix,
    SkillRecord, SkillTargetRecord,
};
use crate::text::{clone_opt, first_where, lemma_first_where_is, opt_view, push_str, str_eq, trim};
use crate::updates::StoreWrite;
use crate::workspace::{
    best_center_match, canonical_of, canonical_path, check_delete_local, check_update_from_center,
    find_verified_center_match, source_ref_matches, source_ref_matches_skill_path, spec_sync_status,
    still_linked, verified_match, ensure_safe_skill_dir_name, find_best_center_match, find_source_ref_match,
    slugify_skill_dir_name, spec_single_normal_component, spec_slug, ProjectRecord, ProjectSkillDocumentDto,
    ProjectSkillInfo,
};
use vstd::prelude::*;

verus! {

/// A result that carries one path, as its spec counterpart.
pub open spec fn path_result_view(r: Result<String, AppError>) -> Result<Seq<char>, (ErrorKind, Seq<char>)> {
    match r {
        Ok(p) => Ok(p@),
        Err(e) => Err((e.kind, e.message@)),
    }
}

/// A result that carries two paths, as its spec counterpart.
pub open spec fn paths_result_view(r: Result<(String, String), AppError>) -> Result<(Seq<char>, Seq<char>), (ErrorKind, Seq<char>)> {
    match r {
        Ok((a, b)) => Ok((a@, b@)),
        Err(e) => Err((e.kind, e.message@)),
    }
}

/// The directory of a project that its agent reads its configuration
/// from; `config` is that directory's name (the agent's hidden directory).
pub open spec fn config_path(project: Seq<char>, config: Seq<char>) -> Seq<char> {
    join_path(project, config)
}

/// Where a project keeps its enabled skills.
pub open spec fn skills_root(project: Seq<char>, config: Seq<char>) -> Seq<char> {
    join_path(config_path(project, config), "skills"@)
}

/// Where a project keeps its disabled skills.
pub open spec fn disabled_root(project: Seq<char>, config: Seq<char>) -> Seq<char> {
    join_path(config_path(project, config), "skills-disabled"@)
}

/// The directories of a project's enabled and of its disabled skills, inside
/// its configuration directory `config_dir`.
pub fn project_skill_roots(project_path: &str, config_dir: &str) -> (r: (String, String))
    ensures
        r.0@ == skills_root(project_path@, config_dir@),
        r.1@ == disabled_root(project_path@, config_dir@),
{
    let config = join_path_exec(project_path, config_dir);
    (join_path_exec(config.as_str(), "skills"), join_path_exec(config.as_str(), "skills-disabled"))
}

/// Whether `Path::new(p).is_absolute()`.
pub uninterp spec fn spec_path_is_absolute(p: Seq<char>) -> bool;

/// `Path::is_absolute`: whether `p` names a place independently of the
/// current directory. The contract claims only that the result is the one
/// `std` computes for this string.
#[verifier::external_body]
fn path_is_absolute(p: &str) -> (r: bool)
    ensures
        r == spec_path_is_absolute(p@),
{
    std::path::Path::new(p).is_absolute()
}

/// `p` as an absolute path, taking a relative one from the directory `cwd`.
pub open spec fn absolute_path(p: Seq<char>, cwd: Seq<char>) -> Seq<char> {
    if spec_path_is_absolute(p) {
        p
    } else {
        join_path(cwd, p)
    }
}

/// `p` as an absolute path (see [`absolute_path`]).
fn absolute_path_exec(p: &str, cwd: &str) -> (r: String)
    ensures
        r@ == absolute_path(p@, cwd@),
{
    if path_is_absolute(p) {
        p.to_string()
    } else {
        join_path_exec(cwd, p)
    }
}

/// Whether the directory `path` lies inside `root`, both taken from the
/// current directory `cwd` where relative, and compared component by
/// component.
pub open spec fn within_root(path: Seq<char>, root: Seq<char>, cwd: Seq<char>) -> bool {
    spec_strip_path_prefix(absolute_path(path, cwd), absolute_path(root, cwd)) is Some
}

/// Refuses a skill directory that does not lie inside `root` (see
/// [`within_root`]).
pub fn ensure_dir_within_root(path: &str, root: &str, cwd: &str) -> (r: Result<(), AppError>)
    ensures
        r is Ok <==> within_root(path@, root@, cwd@),
        r matches Err(e) ==> e.kind == ErrorKind::InvalidInput && e.message@ == "Invalid skill directory path"@,
{
    let abs_path = absolute_path_exec(path, cwd);
    let abs_root = absolute_path_exec(root, cwd);
    if strip_path_prefix(abs_path.as_str(), abs_root.as_str()).is_none() {
        return Err(AppError::invalid_input("Invalid skill directory path"));
    }
    Ok(())
}

/// A project being added: its record, and the two skill directories to
/// create in it.
#[derive(Debug)]
pub struct NewProject {
    pub record: ProjectRecord,
    pub skills_dir: String,
    pub disabled_dir: String,
}

/// The name a project gets: its directory's name, or "unknown".
pub open spec fn project_name(path: Seq<char>) -> Seq<char> {
    match spec_path_file_name(path) {
        Some(n) => n,
        None => "unknown"@,
    }
}

/// Adds the directory at `path` as a project with id `id` at `now_ms`; it
/// must be a directory ("invalid input"). The project is named after the
/// directory and placed first; its skill directories are created even in an
/// empty project.
pub fn add_project(path: &str, config_dir: &str, is_dir: bool, id: String, now_ms: i64) -> (r: Result<NewProject, AppError>)
    ensures
        !is_dir ==> (r matches Err(e) && e.kind == ErrorKind::InvalidInput && e.message@ == "Directory does not exist"@),
        is_dir ==> (r matches Ok(n) && {
            &&& n.record.id@ == id@
            &&& n.record.name@ == project_name(path@)
            &&& n.record.path@ == path@
            &&& n.record.sort_order == 0
            &&& n.record.created_at == now_ms && n.record.updated_at == now_ms
            &&& n.skills_dir@ == skills_root(path@, config_dir@)
            &&& n.disabled_dir@ == disabled_root(path@, config_dir@)
        }),
{
    if !is_dir {
        return Err(AppError::invalid_input("Directory does not exist"));
    }
    let (skills_dir, disabled_dir) = project_skill_roots(path, config_dir);
    let name = match path_file_name(path) {
        Some(n) => n,
        None => "unknown".to_string(),
    };
    let record = ProjectRecord {
        id,
        name,
        path: path.to_string(),
        sort_order: 0,
        created_at: now_ms,
        updated_at: now_ms,
    };
    Ok(NewProject { record, skills_dir, disabled_dir })
}

/// Projects are only looked for in a directory that exists.
pub fn scan_projects(root_is_dir: bool) -> (r: Result<(), AppError>)
    ensures
        r is Ok <==> root_is_dir,
        r matches Err(e) ==> e.kind == ErrorKind::InvalidInput && e.message@ == "Directory does not exist"@,
{
    if !root_is_dir {
        return Err(AppError::invalid_input("Directory does not exist"));
    }
    Ok(())
}

/// Whether a skill directory name is safe to act on: not blank, and exactly
/// one plain path component (see
/// [`crate::workspace::ensure_safe_skill_dir_name`]).
pub open spec fn safe_dir_name(name: Seq<char>) -> bool {
    trim(name).len() > 0 && spec_single_normal_component(name)
}

/// The project a command names, by its record if the store has one.
fn require_project(project: Option<&ProjectRecord>) -> (r: Result<&ProjectRecord, AppError>)
    ensures
        match project {
            Some(p) => r == Ok::<&ProjectRecord, AppError>(p),
            None => r matches Err(e) && e.kind == ErrorKind::NotFound && e.message@ == "Project not found"@,
        },
{
    match project {
        Some(p) => Ok(p),
        None => Err(AppError::not_found("Project not found")),
    }
}

// ---------------------------------------------------------------------------
// Enabling and disabling a project's skill
// ---------------------------------------------------------------------------

/// The directory a toggled skill moves from: out of the disabled root when
/// it is enabled, out of the skills root when it is disabled.
pub open spec fn toggle_from(project: Seq<char>, config: Seq<char>, name: Seq<char>, enabled: bool) -> Seq<char> {
    join_path(if enabled { disabled_root(project, config) } else { skills_root(project, config) }, name)
}

/// The directory a toggled skill moves to.
pub open spec fn toggle_to(project: Seq<char>, config: Seq<char>, name: Seq<char>, enabled: bool) -> Seq<char> {
    join_path(if enabled { skills_root(project, config) } else { disabled_root(project, config) }, name)
}

/// The directories toggling the skill `name` of the project at
/// `project_path` moves it from and to.
pub fn toggle_paths(project_path: &str, config_dir: &str, name: &str, enabled: bool) -> (r: (String, String))
    ensures
        r.0@ == toggle_from(project_path@, config_dir@, name@, enabled),
        r.1@ == toggle_to(project_path@, config_dir@, name@, enabled),
{
    let (skills, disabled) = project_skill_roots(project_path, config_dir);
    if enabled {
        (join_path_exec(disabled.as_str(), name), join_path_exec(skills.as_str(), name))
    } else {
        (join_path_exec(skills.as_str(), name), join_path_exec(disabled.as_str(), name))
    }
}

/// What toggling a project's skill gives: the directories to move it from
/// and to, or the error. The name must be safe; the project must exist; the
/// skill's directory must exist where it is moved from, inside that root,
/// and nothing may stand where it is moved to. `from_is_dir` and
/// `to_exists` describe the two paths of [`toggle_paths`].
pub open spec fn spec_toggle_project_skill(
    project: Option<Seq<char>>,
    config: Seq<char>,
    name: Seq<char>,
    enabled: bool,
    from_is_dir: bool,
    to_exists: bool,
    cwd: Seq<char>,
) -> Result<(Seq<char>, Seq<char>), (ErrorKind, Seq<char>)> {
    if !safe_dir_name(name) {
        Err((ErrorKind::InvalidInput, "Invalid skill directory name"@))
    } else {
        match project {
            None => Err((ErrorKind::NotFound, "Project not found"@)),
            Some(p) => {
                let from = toggle_from(p, config, name, enabled);
                let root = if enabled { disabled_root(p, config) } else { skills_root(p, config) };
                if !from_is_dir {
                    Err((ErrorKind::NotFound, if enabled {
                        "Skill directory not found in skills-disabled"@
                    } else {
                        "Skill directory not found"@
                    }))
                } else if !within_root(from, root, cwd) {
                    Err((ErrorKind::InvalidInput, "Invalid skill directory path"@))
                } else if to_exists {
                    Err((ErrorKind::InvalidInput, if enabled {
                        "Skill already exists in skills directory"@
                    } else {
                        "Skill already exists in skills-disabled directory"@
                    }))
                } else {
                    Ok((from, toggle_to(p, config, name, enabled)))
                }
            },
        }
    }
}

/// The project's path, where there is a project.
pub open spec fn project_path_of(project: Option<&ProjectRecord>) -> Option<Seq<char>> {
    match project {
        Some(p) => Some(p.path@),
        None => None,
    }
}

/// Enables (moves into the skills root) or disables (moves into the
/// disabled root) a project's skill (see [`spec_toggle_project_skill`]).
pub fn toggle_project_skill(
    project: Option<&ProjectRecord>,
    config_dir: &str,
    skill_dir_name: &str,
    enabled: bool,
    from_is_dir: bool,
    to_exists: bool,
    cwd: &str,
) -> (r: Result<(String, String), AppError>)
    ensures
        paths_result_view(r) == spec_toggle_project_skill(
            project_path_of(project), config_dir@, skill_dir_name@, enabled, from_is_dir, to_exists, cwd@,
        ),
{
    match ensure_safe_skill_dir_name(skill_dir_name) {
        Err(e) => {
            return Err(e);
        },
        Ok(()) => {},
    }
    let p = match require_project(project) {
        Err(e) => {
            return Err(e);
        },
        Ok(p) => p,
    };
    let (skills, disabled) = project_skill_roots(p.path.as_str(), config_dir);
    let (from, to) = toggle_paths(p.path.as_str(), config_dir, skill_dir_name, enabled);
    if !from_is_dir {
        if enabled {
            return Err(AppError::not_found("Skill directory not found in skills-disabled"));
        }
        return Err(AppError::not_found("Skill directory not found"));
    }
    let root = if enabled { disabled } else { skills };
    match ensure_dir_within_root(from.as_str(), root.as_str(), cwd) {
        Err(e) => {
            return Err(e);
        },
        Ok(()) => {},
    }
    if to_exists {
        if enabled {
            return Err(AppError::invalid_input("Skill already exists in skills directory"));
        }
        return Err(AppError::invalid_input("Skill already exists in skills-disabled directory"));
    }
    Ok((from, to))
}

// ---------------------------------------------------------------------------
// Reading and deleting a project's skill
// ---------------------------------------------------------------------------

/// Where a project's skill directory is looked for: under the skills root
/// first, then under the disabled root. `enabled_is_dir` and
/// `disabled_is_dir` tell whether the directory exists under each. Gives
/// the directory and the root it lies in, or the error.
pub open spec fn spec_locate_skill_dir(
    project: Seq<char>,
    config: Seq<char>,
    name: Seq<char>,
    enabled_is_dir: bool,
    disabled_is_dir: bool,
    cwd: Seq<char>,
) -> Result<Seq<char>, (ErrorKind, Seq<char>)> {
    let (dir, root) = if enabled_is_dir {
        (join_path(skills_root(project, config), name), skills_root(project, config))
    } else {
        (join_path(disabled_root(project, config), name), disabled_root(project, config))
    };
    if !enabled_is_dir && !disabled_is_dir {
        Err((ErrorKind::NotFound, "Skill directory not found"@))
    } else if !within_root(dir, root, cwd) {
        Err((ErrorKind::InvalidInput, "Invalid skill directory path"@))
    } else {
        Ok(dir)
    }
}

/// A project's skill directory (see [`spec_locate_skill_dir`]); the name
/// must be safe.
pub fn locate_skill_dir(
    project_path: &str,
    config_dir: &str,
    skill_dir_name: &str,
    enabled_is_dir: bool,
    disabled_is_dir: bool,
    cwd: &str,
) -> (r: Result<String, AppError>)
    ensures
        path_result_view(r) == if !safe_dir_name(skill_dir_name@) {
            Err((ErrorKind::InvalidInput, "Invalid skill directory name"@))
        } else {
            spec_locate_skill_dir(project_path@, config_dir@, skill_dir_name@, enabled_is_dir, disabled_is_dir, cwd@)
        },
{
    match ensure_safe_skill_dir_name(skill_dir_name) {
        Err(e) => {
            return Err(e);
        },
        Ok(()) => {},
    }
    let (skills, disabled) = project_skill_roots(project_path, config_dir);
    if !enabled_is_dir && !disabled_is_dir {
        return Err(AppError::not_found("Skill directory not found"));
    }
    let (dir, root) = if enabled_is_dir {
        (join_path_exec(skills.as_str(), skill_dir_name), skills)
    } else {
        (join_path_exec(disabled.as_str(), skill_dir_name), disabled)
    };
    match ensure_dir_within_root(dir.as_str(), root.as_str(), cwd) {
        Err(e) => {
            return Err(e);
        },
        Ok(()) => {},
    }
    Ok(dir)
}

/// The directory deleting a project's skill removes (see
/// [`spec_locate_skill_dir`]); the name must be safe and the project must
/// exist.
pub fn delete_project_skill(
    project: Option<&ProjectRecord>,
    config_dir: &str,
    skill_dir_name: &str,
    enabled_is_dir: bool,
    disabled_is_dir: bool,
    cwd: &str,
) -> (r: Result<String, AppError>)
    ensures
        path_result_view(r) == if !safe_dir_name(skill_dir_name@) {
            Err((ErrorKind::InvalidInput, "Invalid skill directory name"@))
        } else {
            match project {
                None => Err((ErrorKind::NotFound, "Project not found"@)),
                Some(p) => spec_locate_skill_dir(p.path@, config_dir@, skill_dir_name@, enabled_is_dir, disabled_is_dir, cwd@),
            }
        },
{
    match ensure_safe_skill_dir_name(skill_dir_name) {
        Err(e) => {
            return Err(e);
        },
        Ok(()) => {},
    }
    let p = match require_project(project) {
        Err(e) => {
            return Err(e);
        },
        Ok(p) => p,
    };
    locate_skill_dir(p.path.as_str(), config_dir, skill_dir_name, enabled_is_dir, disabled_is_dir, cwd)
}

/// The file names a skill's document may have, in the order they are
/// looked for; `agent_doc` is the name of the agent's own instructions file.
pub open spec fn document_candidates(agent_doc: Seq<char>) -> Seq<Seq<char>> {
    seq!["SKILL.md"@, "skill.md"@, agent_doc, "README.md"@]
}

/// The file names a skill's document may have (see
/// [`document_candidates`]).
pub fn document_candidate_names(agent_doc: &str) -> (r: Vec<String>)
    ensures
        crate::text::strs_view(r@) == document_candidates(agent_doc@),
{
    let v = vec!["SKILL.md".to_string(), "skill.md".to_string(), agent_doc.to_string(), "README.md".to_string()];
    assert(crate::text::strs_view(v@) =~= document_candidates(agent_doc@));
    v
}

/// Which document of a skill directory is read: the first candidate that is
/// a file (`is_file[i]` for the `i`-th of [`document_candidates`]).
pub fn pick_document(is_file: &Vec<bool>) -> (r: Result<usize, AppError>)
    requires
        is_file.len() == 4,
    ensures
        match r {
            Ok(i) => i < is_file.len() && is_file@[i as int] && forall|k: int| 0 <= k < i ==> !is_file@[k],
            Err(e) => e.kind == ErrorKind::NotFound && e.message@ == "No document file found in skill directory"@
                && forall|k: int| 0 <= k < is_file.len() ==> !is_file@[k],
        },
{
    let mut i: usize = 0;
    while i < is_file.len()
        invariant
            i <= is_file.len(),
            forall|k: int| 0 <= k < i ==> !is_file@[k],
        decreases is_file.len() - i,
    {
        if is_file[i] {
            return Ok(i);
        }
        i += 1;
    }
    Err(AppError::not_found("No document file found in skill directory"))
}

/// The view of a project's skill document: the skill's directory name, the
/// candidate file it was read from, and its content.
pub fn get_project_skill_document(
    skill_dir_name: String,
    agent_doc: &str,
    doc_index: usize,
    content: String,
) -> (r: ProjectSkillDocumentDto)
    requires
        doc_index < 4,
    ensures
        r.skill_name@ == skill_dir_name@,
        r.filename@ == document_candidates(agent_doc@)[doc_index as int],
        r.content@ == content@,
{
    let names = document_candidate_names(agent_doc);
    assert(names@.len() == crate::text::strs_view(names@).len());
    assert(crate::text::strs_view(names@)[doc_index as int] == names@[doc_index as int]@);
    let filename = names[doc_index].clone();
    ProjectSkillDocumentDto { skill_name: skill_dir_name, filename, content }
}

// ---------------------------------------------------------------------------
// Copying skills between the library and a project
// ---------------------------------------------------------------------------

/// The directory a library skill named `skill_name` is copied to in a
/// project, and the place it would take among the disabled skills.
pub open spec fn export_target(project: Seq<char>, config: Seq<char>, skill_name: Seq<char>) -> (Seq<char>, Seq<char>) {
    (join_path(skills_root(project, config), spec_slug(skill_name)), join_path(disabled_root(project, config), spec_slug(skill_name)))
}

/// The two paths of [`export_target`].
pub fn export_paths(project_path: &str, config_dir: &str, skill_name: &str) -> (r: (String, String))
    ensures
        (r.0@, r.1@) == export_target(project_path@, config_dir@, skill_name@),
{
    let dir = slugify_skill_dir_name(skill_name);
    let (skills, disabled) = project_skill_roots(project_path, config_dir);
    (join_path_exec(skills.as_str(), dir.as_str()), join_path_exec(disabled.as_str(), dir.as_str()))
}

/// What copying a library skill into a project gives: the skill's center
/// copy and the directory to copy it to, or the error. Both the project and
/// the skill must exist; the skill's directory name (see
/// [`crate::workspace::spec_slug`]) must be safe and stay inside the skills
/// root; and the skill may be in the project neither enabled nor disabled
/// (`target_exists`, `disabled_exists` describe the paths of
/// [`export_paths`]).
pub open spec fn spec_export_skill(
    project: Option<Seq<char>>,
    config: Seq<char>,
    skill: Option<SkillRecord>,
    target_exists: bool,
    disabled_exists: bool,
) -> Result<(Seq<char>, Seq<char>), (ErrorKind, Seq<char>)> {
    match project {
        None => Err((ErrorKind::NotFound, "Project not found"@)),
        Some(p) => match skill {
            None => Err((ErrorKind::NotFound, "Skill not found"@)),
            Some(s) => {
                let dir = spec_slug(s.name@);
                let target = export_target(p, config, s.name@).0;
                if !safe_dir_name(dir) {
                    Err((ErrorKind::InvalidInput, "Invalid skill directory name"@))
                } else if spec_strip_path_prefix(target, skills_root(p, config)) is None {
                    Err((ErrorKind::InvalidInput, "Invalid skill directory path"@))
                } else if target_exists || disabled_exists {
                    Err((ErrorKind::InvalidInput, "Skill \""@ + s.name@ + "\" already exists in this project"@))
                } else {
                    Ok((s.central_path@, target))
                }
            },
        },
    }
}

/// Copies a library skill into a project (see [`spec_export_skill`]).
pub fn export_skill_to_project(
    project: Option<&ProjectRecord>,
    config_dir: &str,
    skill: Option<&SkillRecord>,
    target_exists: bool,
    disabled_exists: bool,
) -> (r: Result<(String, String), AppError>)
    ensures
        paths_result_view(r) == spec_export_skill(
            project_path_of(project),
            config_dir@,
            match skill {
                Some(s) => Some(*s),
                None => None,
            },
            target_exists,
            disabled_exists,
        ),
{
    let p = match require_project(project) {
        Err(e) => {
            return Err(e);
        },
        Ok(p) => p,
    };
    let s = match skill {
        None => {
            return Err(AppError::not_found("Skill not found"));
        },
        Some(s) => s,
    };
    let dir = slugify_skill_dir_name(s.name.as_str());
    match ensure_safe_skill_dir_name(dir.as_str()) {
        Err(e) => {
            return Err(e);
        },
        Ok(()) => {},
    }
    let (skills, _disabled) = project_skill_roots(p.path.as_str(), config_dir);
    let (target, _) = export_paths(p.path.as_str(), config_dir, s.name.as_str());
    if strip_path_prefix(target.as_str(), skills.as_str()).is_none() {
        return Err(AppError::invalid_input("Invalid skill directory path"));
    }
    if target_exists || disabled_exists {
        let mut msg = "Skill \"".to_string();
        push_str(&mut msg, s.name.as_str());
        push_str(&mut msg, "\" already exists in this project");
        proof {
            reveal_strlit("Skill \"");
        }
        return Err(AppError { kind: ErrorKind::InvalidInput, message: msg });
    }
    Ok((s.central_path.clone(), target))
}

/// The index of the first of a project's skills whose directory has the
/// name `name`.
pub open spec fn project_skill_index(skills: Seq<ProjectSkillInfo>, name: Seq<char>) -> int {
    first_where(skills, dir_name_pred(name))
}

/// The test of having the directory name `name`, as a predicate.
pub open spec fn dir_name_pred(name: Seq<char>) -> spec_fn(ProjectSkillInfo) -> bool {
    |s: ProjectSkillInfo| s.dir_name@ == name
}

/// The index of the project's skill with the directory name `name`, or
/// "not found".
fn find_project_skill(skills: &[ProjectSkillInfo], name: &str) -> (r: Result<usize, AppError>)
    ensures
        match r {
            Ok(i) => i == project_skill_index(skills@, name@) && i < skills.len(),
            Err(e) => project_skill_index(skills@, name@) == skills.len() && e.kind == ErrorKind::NotFound
                && e.message@ == "Skill not found in project"@,
        },
{
    let ghost p = dir_name_pred(name@);
    let mut k: usize = 0;
    while k < skills.len()
        invariant
            k <= skills.len(),
            p == dir_name_pred(name@),
            forall|t: int| 0 <= t < k ==> !p(#[trigger] skills@[t]),
        decreases skills.len() - k,
    {
        if str_eq(skills[k].dir_name.as_str(), name) {
            proof {
                lemma_first_where_is(skills@, p, k as int);
            }
            return Ok(k);
        }
        k += 1;
    }
    proof {
        lemma_first_where_is(skills@, p, k as int);
    }
    Err(AppError::not_found("Skill not found in project"))
}

/// What refreshing a project's skill from the library gives: the center
/// copy of the library skill it is taken to be (see
/// [`crate::workspace::best_center_match`]) and the project directory to copy
/// it over, or the error. The name must be safe; the project must exist;
/// one of its skills (`skills`, as read from the project) must have that
/// directory name; a library skill must match it; and its directory must lie
/// inside the project's skills root or disabled root.
pub open spec fn spec_update_from_center(
    project: Option<Seq<char>>,
    config: Seq<char>,
    name: Seq<char>,
    skills: Seq<ProjectSkillInfo>,
    managed: Seq<SkillRecord>,
    table: Seq<(String, String)>,
    cwd: Seq<char>,
) -> Result<(Seq<char>, Seq<char>), (ErrorKind, Seq<char>)> {
    if !safe_dir_name(name) {
        Err((ErrorKind::InvalidInput, "Invalid skill directory name"@))
    } else {
        match project {
            None => Err((ErrorKind::NotFound, "Project not found"@)),
            Some(p) => {
                let i = project_skill_index(skills, name);
                if i >= skills.len() {
                    Err((ErrorKind::NotFound, "Skill not found in project"@))
                } else {
                    match best_center_match(skills[i], managed, table) {
                        None => Err((ErrorKind::NotFound, "No matching skill in center"@)),
                        Some(j) => {
                            let target = skills[i].path@;
                            let root = if spec_strip_path_prefix(target, skills_root(p, config)) is Some {
                                Some(skills_root(p, config))
                            } else if spec_strip_path_prefix(target, disabled_root(p, config)) is Some {
                                Some(disabled_root(p, config))
                            } else {
                                None
                            };
                            match root {
                                None => Err((ErrorKind::InvalidInput, "Invalid skill directory path"@)),
                                Some(r) => if within_root(target, r, cwd) {
                                    Ok((managed[j].central_path@, target))
                                } else {
                                    Err((ErrorKind::InvalidInput, "Invalid skill directory path"@))
                                },
                            }
                        },
                    }
                }
            },
        }
    }
}

/// Refreshes a project's skill from the library (see
/// [`spec_update_from_center`]).
pub fn update_project_skill_from_center(
    project: Option<&ProjectRecord>,
    config_dir: &str,
    skill_dir_name: &str,
    skills: &[ProjectSkillInfo],
    all_managed: &[SkillRecord],
    table: &[(String, String)],
    cwd: &str,
) -> (r: Result<(String, String), AppError>)
    ensures
        paths_result_view(r) == spec_update_from_center(
            project_path_of(project), config_dir@, skill_dir_name@, skills@, all_managed@, table@, cwd@,
        ),
{
    match ensure_safe_skill_dir_name(skill_dir_name) {
        Err(e) => {
            return Err(e);
        },
        Ok(()) => {},
    }
    let p = match require_project(project) {
        Err(e) => {
            return Err(e);
        },
        Ok(p) => p,
    };
    let i = match find_project_skill(skills, skill_dir_name) {
        Err(e) => {
            return Err(e);
        },
        Ok(i) => i,
    };
    let j = match find_best_center_match(&skills[i], all_managed, table) {
        None => {
            return Err(AppError::not_found("No matching skill in center"));
        },
        Some(j) => j,
    };
    let (skills_dir, disabled_dir) = project_skill_roots(p.path.as_str(), config_dir);
    let target = skills[i].path.as_str();
    let root = if strip_path_prefix(target, skills_dir.as_str()).is_some() {
        skills_dir
    } else if strip_path_prefix(target, disabled_dir.as_str()).is_some() {
        disabled_dir
    } else {
        return Err(AppError::invalid_input("Invalid skill directory path"));
    };
    match ensure_dir_within_root(target, root.as_str(), cwd) {
        Err(e) => {
            return Err(e);
        },
        Ok(()) => {},
    }
    Ok((all_managed[j].central_path.clone(), skills[i].path.clone()))
}

/// How a project's skill enters the library.
#[derive(Debug)]
pub enum ProjectImport {
    /// A library skill already comes from it: copy the skill from
    /// `source_path` over that skill's center copy, keeping its name.
    Existing { index: usize, source_path: String },
    /// Install it from `source_path` as a new local skill named `name`.
    New { source_path: String, name: String },
}

/// How importing a project's skill into the library proceeds: the name must
/// be safe, the project must exist and have a skill with that directory
/// name; a library skill that matches it (see
/// [`crate::workspace::best_center_match`]) is refreshed in place, else the
/// skill is installed as a new one.
pub fn import_project_skill_to_center(
    project: Option<&ProjectRecord>,
    skill_dir_name: &str,
    skills: &[ProjectSkillInfo],
    all_managed: &[SkillRecord],
    table: &[(String, String)],
) -> (r: Result<ProjectImport, AppError>)
    ensures
        !safe_dir_name(skill_dir_name@) ==> (r matches Err(e) && e.kind == ErrorKind::InvalidInput
            && e.message@ == "Invalid skill directory name"@),
        safe_dir_name(skill_dir_name@) && project is None ==> (r matches Err(e) && e.kind == ErrorKind::NotFound
            && e.message@ == "Project not found"@),
        safe_dir_name(skill_dir_name@) && project is Some ==> {
            let i = project_skill_index(skills@, skill_dir_name@);
            if i >= skills.len() {
                r matches Err(e) && e.kind == ErrorKind::NotFound && e.message@ == "Skill not found in project"@
            } else {
                match best_center_match(skills@[i], all_managed@, table@) {
                    Some(j) => (r matches Ok(ProjectImport::Existing { index, source_path })
                        && index == j && source_path@ == skills@[i].path@),
                    None => (r matches Ok(ProjectImport::New { source_path, name })
                        && source_path@ == skills@[i].path@ && name@ == skills@[i].name@),
                }
            }
        },
{
    match ensure_safe_skill_dir_name(skill_dir_name) {
        Err(e) => {
            return Err(e);
        },
        Ok(()) => {},
    }
    match require_project(project) {
        Err(e) => {
            return Err(e);
        },
        Ok(_) => {},
    }
    let i = match find_project_skill(skills, skill_dir_name) {
        Err(e) => {
            return Err(e);
        },
        Ok(i) => i,
    };
    match find_source_ref_match(&skills[i], all_managed, table) {
        Some(j) => Ok(ProjectImport::Existing { index: j, source_path: skills[i].path.clone() }),
        None => Ok(ProjectImport::New { source_path: skills[i].path.clone(), name: skills[i].name.clone() }),
    }
}

/// What refreshing a library skill from a project's copy records: the new
/// description and content hash, the skill's own name and revisions, and
/// that it is local.
pub fn refreshed_from_project(existing: &SkillRecord, description: Option<String>, content_hash: &str) -> (r: StoreWrite)
    ensures
        r matches StoreWrite::AfterInstall {
            skill_id,
            name,
            description: d,
            source_revision,
            remote_revision,
            content_hash: h,
            update_status,
        } && skill_id@ == existing.id@ && name@ == existing.name@ && opt_view(d) == opt_view(description)
            && opt_view(source_revision) == opt_view(existing.source_revision)
            && opt_view(remote_revision) == opt_view(existing.remote_revision)
            && opt_view(h) == Some(content_hash@) && update_status@ == "local_only"@,
{
    StoreWrite::AfterInstall {
        skill_id: existing.id.clone(),
        name: existing.name.clone(),
        description,
        source_revision: clone_opt(&existing.source_revision),
        remote_revision: clone_opt(&existing.remote_revision),
        content_hash: Some(content_hash.to_string()),
        update_status: "local_only".to_string(),
    }
}

/// The record of a skill newly imported from a project: a local, enabled
/// skill whose source is the project's directory, installed at
/// `central_path` under this name, description and content hash, checked
/// and created at `now_ms`. Where a scenario is active, the skill joins it
/// (the second part of the result).
pub fn project_import_record(
    id: String,
    name: String,
    description: Option<String>,
    source_path: &str,
    central_path: String,
    content_hash: String,
    now_ms: i64,
    active_scenario: Option<&str>,
) -> (r: (SkillRecord, Option<(String, String)>))
    ensures
        r.0.id@ == id@,
        r.0.name@ == name@,
        opt_view(r.0.description) == opt_view(description),
        r.0.source_type@ == "local"@,
        opt_view(r.0.source_ref) == Some(source_path@),
        r.0.source_ref_resolved is None && r.0.source_subpath is None && r.0.source_branch is None,
        r.0.source_revision is None && r.0.remote_revision is None,
        r.0.central_path@ == central_path@,
        opt_view(r.0.content_hash) == Some(content_hash@),
        r.0.enabled,
        r.0.created_at == now_ms && r.0.updated_at == now_ms,
        r.0.status@ == "ok"@,
        r.0.update_status@ == "local_only"@,
        r.0.last_checked_at == Some(now_ms),
        r.0.last_check_error is None,
        match active_scenario {
            Some(a) => r.1 matches Some((scenario, skill)) && scenario@ == a@ && skill@ == id@,
            None => r.1 is None,
        },
{
    let membership = match active_scenario {
        Some(a) => Some((a.to_string(), id.clone())),
        None => None,
    };
    let record = SkillRecord {
        id,
        name,
        description,
        source_type: "local".to_string(),
        source_ref: Some(source_path.to_string()),
        source_ref_resolved: None,
        source_subpath: None,
        source_branch: None,
        source_revision: None,
        remote_revision: None,
        central_path,
        content_hash: Some(content_hash),
        enabled: true,
        created_at: now_ms,
        updated_at: now_ms,
        status: "ok".to_string(),
        update_status: "local_only".to_string(),
        last_checked_at: Some(now_ms),
        last_check_error: None,
    };
    (record, membership)
}

// ---------------------------------------------------------------------------
// Skills in an agent's own directory
// ---------------------------------------------------------------------------

/// How a skill found in an agent's own skills directory enters the library.
#[derive(Debug)]
pub enum AgentImport {
    /// A library skill verifiably is this skill: copy the skill from
    /// `source_path` over that skill's center copy; where `relink_source`,
    /// also record `source_path` as that skill's source. Then register the
    /// agent as a deployment of the library skill.
    Existing { index: usize, source_path: String, relink_source: bool },
    /// Install it from `source_path` as a new local skill named `name` at
    /// `central_path` (the first free directory for its name, see
    /// [`crate::skills::free_install_target`]), then record it and the
    /// agent's deployment (see [`agent_import_records`]), dropping the new
    /// skill again if the deployment fails.
    New { source_path: String, name: String, central_path: String },
}

/// How importing the skill `skill`, found in an agent's skills directory
/// `skills_root`, into the library proceeds: it must lie inside that
/// directory; a library skill that verifiably is it (see
/// [`crate::workspace::verified_match`]) is refreshed in place, and keeps
/// the agent's copy as its source when it is a local skill already imported
/// from there; else the skill is installed as a new one, in a free directory
/// of the central skills directory `central_skills_dir`, so that a library
/// skill that merely shares its name is never overwritten. A skill with a
/// blank name cannot be installed ("invalid input").
pub fn import_agent_local_skill_to_center(
    skill: &ProjectSkillInfo,
    skills_root: &str,
    cwd: &str,
    central_skills_dir: &str,
    all_managed: &[SkillRecord],
    all_targets: &[SkillTargetRecord],
    table: &[(String, String)],
) -> (r: Result<AgentImport, AppError>)
    ensures
        !within_root(skill.path@, skills_root@, cwd@) ==> (r matches Err(e) && e.kind == ErrorKind::InvalidInput
            && e.message@ == "Invalid skill directory path"@),
        within_root(skill.path@, skills_root@, cwd@) ==> match verified_match(*skill, all_managed@, all_targets@, table@) {
            Some(j) => (r matches Ok(AgentImport::Existing { index, source_path, relink_source })
                && index == j && source_path@ == skill.path@
                && relink_source == (all_managed@[j].source_type@ == "local"@ && source_ref_matches(
                    skill.path@, canonical_of(table@, skill.path@), all_managed@[j], table@,
                ))),
            None => if trim(skill.name@).len() == 0 {
                r matches Err(e) && e.kind == ErrorKind::InvalidInput && e.message@ == "Skill name is empty"@
            } else {
                r matches Ok(AgentImport::New { source_path, name, central_path }) && source_path@ == skill.path@
                    && is_free_target(all_managed@, central_skills_dir@, trim(skill.name@), name@, central_path@)
            },
        },
{
    match ensure_dir_within_root(skill.path.as_str(), skills_root, cwd) {
        Err(e) => {
            return Err(e);
        },
        Ok(()) => {},
    }
    match find_verified_center_match(skill, all_managed, all_targets, table) {
        Some(j) => {
            let existing = &all_managed[j];
            let canon = canonical_path(table, skill.path.as_str());
            let relink_source = str_eq(existing.source_type.as_str(), "local")
                && source_ref_matches_skill_path(skill.path.as_str(), &canon, existing, table);
            Ok(AgentImport::Existing { index: j, source_path: skill.path.clone(), relink_source })
        },
        None => match free_install_target(all_managed, central_skills_dir, skill.name.as_str()) {
            Some((name, central_path)) => Ok(AgentImport::New { source_path: skill.path.clone(), name, central_path }),
            None => Err(AppError::invalid_input("Skill name is empty")),
        },
    }
}

/// What importing a new skill from an agent's directory records: the skill
/// itself (a local, enabled skill whose source is the agent's copy at
/// `source_path`, see [`project_import_record`]) and the agent's deployment
/// of it at that same path, synced at `now_ms` in `mode`. Nothing else is
/// recorded: in particular the skill joins no scenario.
pub fn agent_import_records(
    id: String,
    name: String,
    description: Option<String>,
    source_path: &str,
    central_path: String,
    content_hash: String,
    now_ms: i64,
    target_id: String,
    agent: &str,
    mode: &str,
) -> (r: (SkillRecord, SkillTargetRecord))
    ensures
        r.0.id@ == id@,
        r.0.name@ == name@,
        opt_view(r.0.description) == opt_view(description),
        r.0.source_type@ == "local"@,
        opt_view(r.0.source_ref) == Some(source_path@),
        r.0.source_ref_resolved is None && r.0.source_subpath is None && r.0.source_branch is None,
        r.0.source_revision is None && r.0.remote_revision is None,
        r.0.central_path@ == central_path@,
        opt_view(r.0.content_hash) == Some(content_hash@),
        r.0.enabled,
        r.0.created_at == now_ms && r.0.updated_at == now_ms,
        r.0.status@ == "ok"@,
        r.0.update_status@ == "local_only"@,
        r.0.last_checked_at == Some(now_ms),
        r.0.last_check_error is None,
        is_agent_deployment(r.1, target_id@, id@, agent@, source_path@, mode@, now_ms),
{
    let skill_id = id.clone();
    let (record, _membership) = project_import_record(
        id, name, description, source_path, central_path, content_hash, now_ms, None,
    );
    (record, agent_deployment(target_id, skill_id.as_str(), agent, source_path, mode, now_ms))
}

/// `t` records the deployment `id` of the skill `skill_id` to the agent
/// `agent` at `path`, synced at `now_ms` in `mode`, healthy.
pub open spec fn is_agent_deployment(
    t: SkillTargetRecord,
    id: Seq<char>,
    skill_id: Seq<char>,
    agent: Seq<char>,
    path: Seq<char>,
    mode: Seq<char>,
    now_ms: i64,
) -> bool {
    &&& t.id@ == id
    &&& t.skill_id@ == skill_id
    &&& t.tool@ == agent
    &&& t.target_path@ == path
    &&& t.mode@ == mode
    &&& t.status@ == "ok"@
    &&& t.synced_at == Some(now_ms)
    &&& t.last_error is None
    &&& t.source_hash is None
}

/// The deployment record that registers an agent's directory as a managed
/// deployment of a library skill (also where an existing library skill is
/// refreshed from the agent's copy).
pub fn agent_deployment(id: String, skill_id: &str, agent: &str, path: &str, mode: &str, now_ms: i64) -> (r: SkillTargetRecord)
    ensures
        is_agent_deployment(r, id@, skill_id@, agent@, path@, mode@, now_ms),
{
    SkillTargetRecord {
        id,
        skill_id: skill_id.to_string(),
        tool: agent.to_string(),
        target_path: path.to_string(),
        mode: mode.to_string(),
        status: "ok".to_string(),
        synced_at: Some(now_ms),
        last_error: None,
        source_hash: None,
    }
}

/// What refreshing an agent's skill from the library gives: the index of the
/// library skill and the agent's copy to overwrite. On top of
/// [`crate::workspace::check_update_from_center`], the copy must lie inside
/// the agent's skills directory.
pub fn update_agent_local_skill_from_center(
    skill: &ProjectSkillInfo,
    skills_root: &str,
    cwd: &str,
    all_managed: &[SkillRecord],
    all_targets: &[SkillTargetRecord],
    table: &[(String, String)],
) -> (r: Result<usize, AppError>)
    ensures
        match verified_match(*skill, all_managed@, all_targets@, table@) {
            None => r matches Err(e) && e.kind == ErrorKind::NotFound
                && e.message@ == "No matching managed skill in center"@,
            Some(j) => if spec_sync_status(*skill, Some(all_managed@[j])) == "project_newer"@ {
                r matches Err(e) && e.kind == ErrorKind::InvalidInput
                    && e.message@ == "Local skill is newer than the Skills Center version"@
            } else if !within_root(skill.path@, skills_root@, cwd@) {
                r matches Err(e) && e.kind == ErrorKind::InvalidInput && e.message@ == "Invalid skill directory path"@
            } else {
                r == Ok::<usize, AppError>(j as usize)
            },
        },
{
    let j = match check_update_from_center(skill, all_managed, all_targets, table) {
        Err(e) => {
            return Err(e);
        },
        Ok(j) => j,
    };
    match ensure_dir_within_root(skill.path.as_str(), skills_root, cwd) {
        Err(e) => {
            return Err(e);
        },
        Ok(()) => {},
    }
    Ok(j)
}

/// Whether an agent's skill may be deleted: as
/// [`crate::workspace::check_delete_local`] decides, and only inside the
/// agent's skills directory.
pub fn delete_agent_local_skill(
    skill: &ProjectSkillInfo,
    skills_root: &str,
    cwd: &str,
    all_managed: &[SkillRecord],
    all_targets: &[SkillTargetRecord],
    table: &[(String, String)],
) -> (r: Result<(), AppError>)
    ensures
        (verified_match(*skill, all_managed@, all_targets@, table@) matches Some(j)
            && still_linked(all_managed@[j], all_targets@, skill.path@, table@)) ==> (r matches Err(e)
            && e.kind == ErrorKind::InvalidInput
            && e.message@ == "Skill is managed by Skills Center — remove from the agent first."@),
        !(verified_match(*skill, all_managed@, all_targets@, table@) matches Some(j)
            && still_linked(all_managed@[j], all_targets@, skill.path@, table@)) ==> {
            &&& r is Ok <==> within_root(skill.path@, skills_root@, cwd@)
            &&& r matches Err(e) ==> e.kind == ErrorKind::InvalidInput && e.message@ == "Invalid skill directory path"@
        },
{
    match check_delete_local(skill, all_managed, all_targets, table) {
        Err(e) => {
            return Err(e);
        },
        Ok(()) => {},
    }
    ensure_dir_within_root(skill.path.as_str(), skills_root, cwd)
}

} // verus!

//! The decisions of checking, updating and reimporting a managed skill.
//!
//! Each of these operations alternates work on the network or the disk with
//! decisions. The decisions are here: which checks a skill needs, which
//! records the store is to write with which values, and which error the user
//! sees. The caller performs the outside work and the writes, in order.
use crate::error::{AppError, ErrorKind};
use crate::skills::{
    git_source_from_skill, git_source_result_view, git_source_view, git_update_status, spec_git_source, local_update_status, spec_decide_reimport,
    spec_git_update_status, spec_local_update_status, GitSkillSource, LocalSourceProbe,
    InstallSourceMetadata, ParsedGitSource, ReimportDecision, SideState, SkillRecord, SkillTargetRecord,
};
use crate::text::{clone_opt, opt_view, str_eq};
use vstd::prelude::*;

verus! {

/// A write to the skill store.
#[derive(Debug)]
pub enum StoreWrite {
    /// Record the outcome of an update check.
    CheckState { skill_id: String, remote_revision: Option<String>, status: String, error: Option<String> },
    /// Record where the skill's source now resolves.
    SourceMetadata {
        skill_id: String,
        source_ref_resolved: Option<String>,
        subpath: Option<String>,
        branch: Option<String>,
        revision: Option<String>,
    },
    /// Set the skill's update status alone.
    UpdateStatus { skill_id: String, status: String },
    /// Record a freshly installed copy of the skill.
    AfterInstall {
        skill_id: String,
        name: String,
        description: Option<String>,
        source_revision: Option<String>,
        remote_revision: Option<String>,
        content_hash: Option<String>,
        update_status: String,
    },
    /// Append an entry to the audit log: the action, the skill it concerns,
    /// whether it succeeded, and a detail.
    Audit { action: String, skill_id: String, skill_name: String, ok: bool, detail: Option<String> },
    /// Record a reinstalled copy of the skill: its name, description and
    /// content hash, and everything known about its source.
    Reinstall {
        skill_id: String,
        name: String,
        description: Option<String>,
        source: InstallSourceMetadata,
        content_hash: Option<String>,
    },
}

/// The view of a store write: its kind and its values.
pub open spec fn is_check_state(w: StoreWrite, id: Seq<char>, remote: Option<Seq<char>>, status: Seq<char>, error: Option<Seq<char>>) -> bool {
    w matches StoreWrite::CheckState { skill_id, remote_revision, status: s, error: e }
        && skill_id@ == id && opt_view(remote_revision) == remote && s@ == status && opt_view(e) == error
}

// ---------------------------------------------------------------------------
// Signed numbers
// ---------------------------------------------------------------------------

/// `str::parse::<i64>`: an optional sign, then one or more ASCII digits,
/// whose value fits in 64 bits.
pub open spec fn spec_parse_i64(s: Seq<char>) -> Option<int> {
    let neg = s.len() > 0 && s[0] == '-';
    let body = if s.len() > 0 && (s[0] == '+' || s[0] == '-') { s.drop_first() } else { s };
    if body.len() > 0 && crate::settings::all_digits(body) {
        let v = if neg { -crate::settings::digits_value(body) } else { crate::settings::digits_value(body) as int };
        if i64::MIN <= v <= i64::MAX {
            Some(v)
        } else {
            None
        }
    } else {
        None
    }
}

/// Parses a decimal `i64` the way `str::parse::<i64>` does.
pub fn parse_i64(s: &str) -> (r: Option<i64>)
    ensures
        match spec_parse_i64(s@) {
            Some(v) => r == Some(v as i64),
            None => r is None,
        },
{
    let cs = crate::text::chars_of(s);
    if cs.len() == 0 {
        return None;
    }
    let neg = cs[0] == '-';
    let signed = cs[0] == '+' || cs[0] == '-';
    let start: usize = if signed { 1 } else { 0 };
    let ghost body = if s@.len() > 0 && (s@[0] == '+' || s@[0] == '-') { s@.drop_first() } else { s@ };
    assert(body =~= cs@.skip(start as int));
    if start >= cs.len() {
        return None;
    }
    let mut acc: u64 = 0;
    let mut over = false;
    let mut i: usize = start;
    while i < cs.len()
        invariant
            start < cs.len(),
            start <= i <= cs.len(),
            cs@ == s@,
            body == cs@.skip(start as int),
            body == (if s@.len() > 0 && (s@[0] == '+' || s@[0] == '-') { s@.drop_first() } else { s@ }),
            forall|j: int| start <= j < i ==> crate::text::is_digit(#[trigger] cs@[j]),
            !over ==> acc == crate::settings::digits_value(body.take(i - start)),
            over ==> crate::settings::digits_value(body.take(i - start)) > u64::MAX,
        decreases cs.len() - i,
    {
        let c = cs[i];
        if !('0' <= c && c <= '9') {
            assert(body[i - start] == c);
            assert(!crate::text::is_digit(body[i - start]));
            return None;
        }
        let d: u64 = (c as u32 - '0' as u32) as u64;
        assert(body.take(i - start + 1).drop_last() =~= body.take(i - start));
        assert(body.take(i - start + 1).last() == c);
        if !over {
            match acc.checked_mul(10) {
                Some(m) => match m.checked_add(d) {
                    Some(v) => {
                        acc = v;
                    },
                    None => {
                        over = true;
                    },
                },
                None => {
                    over = true;
                },
            }
        }
        i += 1;
    }
    assert(body.take(i - start) =~= body);
    assert forall|j: int| 0 <= j < body.len() implies crate::text::is_digit(#[trigger] body[j]) by {
        assert(body[j] == cs@[start + j]);
    }
    if over {
        return None;
    }
    if neg {
        if acc <= 9223372036854775808u64 {
            if acc == 9223372036854775808u64 {
                Some(i64::MIN)
            } else {
                Some(-(acc as i64))
            }
        } else {
            None
        }
    } else {
        if acc <= 9223372036854775807u64 {
            Some(acc as i64)
        } else {
            None
        }
    }
}

// ---------------------------------------------------------------------------
// Checking for updates
// ---------------------------------------------------------------------------

/// An update status that a recent check may stand on: not `unknown`,
/// `checking`, `updating` or `error`.
pub open spec fn stable_status(s: Seq<char>) -> bool {
    s != "unknown"@ && s != "checking"@ && s != "updating"@ && s != "error"@
}

/// Whether an unforced check can stand on the last one: the skill's status is
/// stable and it was checked less than the configured time ago (the
/// `update_check_ttl_minutes` setting, 60 minutes where unset or unreadable).
pub open spec fn spec_skip_check(skill: SkillRecord, force: bool, ttl_setting: Option<Seq<char>>, now_ms: i64) -> bool {
    let ttl_minutes = match ttl_setting {
        Some(v) => match spec_parse_i64(v) {
            Some(n) => n,
            None => 60,
        },
        None => 60,
    };
    !force && stable_status(skill.update_status@) && match skill.last_checked_at {
        Some(checked) => now_ms - checked < ttl_minutes * 60 * 1000,
        None => false,
    }
}

/// Whether an update check may be skipped (see [`spec_skip_check`]).
pub fn should_skip_update_check(skill: &SkillRecord, force: bool, ttl_setting: &Option<String>, now_ms: i64) -> (r: bool)
    ensures
        r == spec_skip_check(*skill, force, opt_view(*ttl_setting), now_ms),
{
    if force {
        return false;
    }
    let ttl: i64 = match ttl_setting {
        Some(v) => match parse_i64(v.as_str()) {
            Some(n) => n,
            None => 60,
        },
        None => 60,
    };
    let s = skill.update_status.as_str();
    let stable = !(str_eq(s, "unknown") || str_eq(s, "checking") || str_eq(s, "updating") || str_eq(s, "error"));
    if !stable {
        return false;
    }
    match skill.last_checked_at {
        Some(checked) => {
            let ttl_ms: i128 = ttl as i128 * 60 * 1000;
            (now_ms as i128) - (checked as i128) < ttl_ms
        },
        None => false,
    }
}

/// What an update check does for a skill.
#[derive(Debug)]
pub enum UpdateCheckPlan {
    /// The last check stands.
    Skip,
    /// Ask the remote for its revision; first record the source metadata
    /// where it has changed.
    Git { source: GitSkillSource, metadata: Option<StoreWrite> },
    /// Probe the local source at this path (where the skill records one).
    Local { source_path: Option<String> },
    /// Nothing can be checked: record this.
    Other { write: StoreWrite },
}

/// The source metadata of a git-based skill differs from what its source now
/// resolves to.
pub open spec fn metadata_changed(skill: SkillRecord, source: GitSkillSource) -> bool {
    opt_view(skill.source_ref_resolved) != Some(source.clone_url@)
        || opt_view(skill.source_subpath) != opt_view(source.subpath)
        || opt_view(skill.source_branch) != opt_view(source.branch)
}

fn opt_str_eq(a: &Option<String>, b: &Option<String>) -> (r: bool)
    ensures
        r == (opt_view(*a) == opt_view(*b)),
{
    match (a, b) {
        (Some(x), Some(y)) => str_eq(x.as_str(), y.as_str()),
        (None, None) => true,
        _ => false,
    }
}

/// Whether `r` is what an update check of `skill` plans (see
/// [`plan_update_check`]); `ttl_setting` is the check interval setting.
pub open spec fn plan_matches(
    skill: SkillRecord,
    force: bool,
    ttl_setting: Option<Seq<char>>,
    now_ms: i64,
    parsed: Option<ParsedGitSource>,
    r: Result<UpdateCheckPlan, AppError>,
) -> bool {
    &&& spec_skip_check(skill, force, ttl_setting, now_ms) ==> (r matches Ok(UpdateCheckPlan::Skip))
    &&& !spec_skip_check(skill, force, ttl_setting, now_ms) ==> {
            if skill.source_type@ == "git"@ || skill.source_type@ == "skillssh"@ {
                match r {
                    Ok(UpdateCheckPlan::Git { source, metadata }) => spec_git_source(skill, parsed) == Ok::<
                        (Seq<char>, Option<Seq<char>>, Option<Seq<char>>, Option<Seq<char>>),
                        (ErrorKind, Seq<char>),
                    >(git_source_view(source)) && match metadata {
                        Some(w) => metadata_changed(skill, source) && (w matches StoreWrite::SourceMetadata {
                            skill_id,
                            source_ref_resolved,
                            subpath,
                            branch,
                            revision,
                        } && skill_id@ == skill.id@ && opt_view(source_ref_resolved) == Some(source.clone_url@)
                            && opt_view(subpath) == opt_view(source.subpath) && opt_view(branch) == opt_view(source.branch)
                            && opt_view(revision) == opt_view(skill.source_revision)),
                        None => !metadata_changed(skill, source),
                    },
                    Ok(_) => false,
                    Err(e) => spec_git_source(skill, parsed) == Err::<
                        (Seq<char>, Option<Seq<char>>, Option<Seq<char>>, Option<Seq<char>>),
                        (ErrorKind, Seq<char>),
                    >((e.kind, e.message@)),
                }
            } else if skill.source_type@ == "local"@ || skill.source_type@ == "import"@ {
                r matches Ok(UpdateCheckPlan::Local { source_path }) && opt_view(source_path) == opt_view(skill.source_ref)
            } else {
                r matches Ok(UpdateCheckPlan::Other { write }) && is_check_state(write, skill.id@, None, "unknown"@, None)
            }
        }
}

/// What an update check does (see [`UpdateCheckPlan`]): nothing where
/// [`should_skip_update_check`] says so; for a git or skills.sh skill, the
/// remote check on the source it resolves to (failing as
/// [`git_source_from_skill`] does), with the new metadata where it changed;
/// for a local or imported skill, a probe of its source path; for any other
/// skill, the status `unknown`.
pub fn plan_update_check(
    skill: &SkillRecord,
    force: bool,
    ttl_setting: &Option<String>,
    now_ms: i64,
    parsed_source_ref: Option<ParsedGitSource>,
) -> (r: Result<UpdateCheckPlan, AppError>)
    requires
        skill.source_ref_resolved is None && skill.source_type@ == "git"@ && skill.source_ref is Some ==> parsed_source_ref is Some,
    ensures
        plan_matches(*skill, force, opt_view(*ttl_setting), now_ms, parsed_source_ref, r),
{
    if should_skip_update_check(skill, force, ttl_setting, now_ms) {
        return Ok(UpdateCheckPlan::Skip);
    }
    let t = skill.source_type.as_str();
    if str_eq(t, "git") || str_eq(t, "skillssh") {
        let source = match git_source_from_skill(skill, parsed_source_ref) {
            Ok(s) => s,
            Err(e) => {
                return Err(e);
            },
        };
        let resolved_same = match &skill.source_ref_resolved {
            Some(r) => str_eq(r.as_str(), source.clone_url.as_str()),
            None => false,
        };
        let changed = !resolved_same || !opt_str_eq(&skill.source_subpath, &source.subpath)
            || !opt_str_eq(&skill.source_branch, &source.branch);
        let metadata = if changed {
            Some(StoreWrite::SourceMetadata {
                skill_id: skill.id.clone(),
                source_ref_resolved: Some(source.clone_url.clone()),
                subpath: clone_opt(&source.subpath),
                branch: clone_opt(&source.branch),
                revision: clone_opt(&skill.source_revision),
            })
        } else {
            None
        };
        Ok(UpdateCheckPlan::Git { source, metadata })
    } else if str_eq(t, "local") || str_eq(t, "import") {
        Ok(UpdateCheckPlan::Local { source_path: clone_opt(&skill.source_ref) })
    } else {
        Ok(UpdateCheckPlan::Other {
            write: StoreWrite::CheckState {
                skill_id: skill.id.clone(),
                remote_revision: None,
                status: "unknown".to_string(),
                error: None,
            },
        })
    }
}

/// What the remote check of a git-based skill records: on success, the
/// remote revision and whether it is the installed one (see
/// [`git_update_status`]); on failure, the status `error` with the message,
/// keeping the last known remote revision, and a git error for the user.
pub fn git_check_result(skill: &SkillRecord, remote: Result<String, String>) -> (r: (StoreWrite, Option<AppError>))
    ensures
        match remote {
            Ok(rev) => is_check_state(r.0, skill.id@, Some(rev@), spec_git_update_status(opt_view(skill.source_revision), rev@), None)
                && r.1 is None,
            Err(m) => is_check_state(r.0, skill.id@, opt_view(skill.remote_revision), "error"@, Some(m@))
                && (r.1 matches Some(e) && e.kind == ErrorKind::Git && e.message@ == m@),
        },
{
    match remote {
        Ok(rev) => {
            let status = git_update_status(&skill.source_revision, rev.as_str());
            (StoreWrite::CheckState { skill_id: skill.id.clone(), remote_revision: Some(rev), status, error: None }, None)
        },
        Err(m) => {
            let e = AppError { kind: ErrorKind::Git, message: m.clone() };
            (StoreWrite::CheckState {
                skill_id: skill.id.clone(),
                remote_revision: clone_opt(&skill.remote_revision),
                status: "error".to_string(),
                error: Some(m),
            }, Some(e))
        },
    }
}

/// What the check of a local skill records, from the probe of its source
/// (see [`local_update_status`]).
pub fn local_check_write(skill: &SkillRecord, probe: LocalSourceProbe) -> (r: StoreWrite)
    ensures
        ({
            let (status, error) = spec_local_update_status(probe, opt_view(skill.content_hash));
            is_check_state(r, skill.id@, None, status, error)
        }),
{
    let (status, error) = local_update_status(probe, &skill.content_hash);
    StoreWrite::CheckState { skill_id: skill.id.clone(), remote_revision: None, status, error }
}

// ---------------------------------------------------------------------------
// Updating a git-based skill
// ---------------------------------------------------------------------------

/// Where an update of a git-based skill fetches from: the skill must exist
/// ("not found") and be a git or skills.sh skill ("invalid input"); its source
/// then resolves as [`git_source_from_skill`] says.
pub fn begin_git_update(skill: Option<&SkillRecord>, parsed_source_ref: Option<ParsedGitSource>) -> (r: Result<GitSkillSource, AppError>)
    requires
        skill matches Some(s) ==> (s.source_ref_resolved is None && s.source_type@ == "git"@ && s.source_ref is Some ==> parsed_source_ref is Some),
    ensures
        match skill {
            None => r matches Err(e) && e.kind == ErrorKind::NotFound && e.message@ == "Skill not found"@,
            Some(s) => if s.source_type@ != "git"@ && s.source_type@ != "skillssh"@ {
                r matches Err(e) && e.kind == ErrorKind::InvalidInput && e.message@ == "Only git-based skills can be updated"@
            } else {
                git_source_result_view(r) == spec_git_source(*s, parsed_source_ref)
            },
        },
{
    let s = match skill {
        None => {
            return Err(AppError::not_found("Skill not found"));
        },
        Some(s) => s,
    };
    if !(str_eq(s.source_type.as_str(), "git") || str_eq(s.source_type.as_str(), "skillssh")) {
        return Err(AppError::invalid_input("Only git-based skills can be updated"));
    }
    git_source_from_skill(s, parsed_source_ref)
}

/// What a failed resolution of the remote revision records, and the error the
/// user sees.
pub fn remote_failure(skill: &SkillRecord, message: &str) -> (r: (StoreWrite, AppError))
    ensures
        is_check_state(r.0, skill.id@, opt_view(skill.remote_revision), "error"@, Some(message@)),
        r.1.kind == ErrorKind::Git,
        r.1.message@ == message@,
{
    (StoreWrite::CheckState {
        skill_id: skill.id.clone(),
        remote_revision: clone_opt(&skill.remote_revision),
        status: "error".to_string(),
        error: Some(message.to_string()),
    }, AppError::new(ErrorKind::Git, message))
}

/// The write that marks a skill as being updated.
pub fn updating_write(skill_id: &str) -> (r: StoreWrite)
    ensures
        r matches StoreWrite::UpdateStatus { skill_id: id, status } && id@ == skill_id@ && status@ == "updating"@,
{
    StoreWrite::UpdateStatus { skill_id: skill_id.to_string(), status: "updating".to_string() }
}

/// Whether the fetched content differs from the installed one.
pub fn content_changed(skill: &SkillRecord, new_hash: &str) -> (r: bool)
    ensures
        r == (opt_view(skill.content_hash) != Some(new_hash@)),
{
    match &skill.content_hash {
        Some(h) => !str_eq(h.as_str(), new_hash),
        None => true,
    }
}

/// What a successful update records: the source metadata at the fetched
/// revision; then, where the content changed and was installed, the new copy
/// (up to date at that revision); else only that the skill is up to date.
pub fn git_update_writes(
    skill: &SkillRecord,
    source: &GitSkillSource,
    source_subpath: Option<String>,
    remote_revision: &str,
    installed: Option<(Option<String>, String)>,
) -> (r: Vec<StoreWrite>)
    ensures
        r.len() == 2,
        r@[0] matches StoreWrite::SourceMetadata { skill_id, source_ref_resolved, subpath, branch, revision }
            && skill_id@ == skill.id@ && opt_view(source_ref_resolved) == Some(source.clone_url@)
            && opt_view(subpath) == opt_view(source_subpath) && opt_view(branch) == opt_view(source.branch)
            && opt_view(revision) == Some(remote_revision@),
        match installed {
            Some((description, hash)) => r@[1] matches StoreWrite::AfterInstall {
                skill_id,
                name,
                description: d,
                source_revision,
                remote_revision: rr,
                content_hash,
                update_status,
            } && skill_id@ == skill.id@ && name@ == skill.name@ && opt_view(d) == opt_view(description)
                && opt_view(source_revision) == Some(remote_revision@) && opt_view(rr) == Some(remote_revision@)
                && opt_view(content_hash) == Some(hash@) && update_status@ == "up_to_date"@,
            None => is_check_state(r@[1], skill.id@, Some(remote_revision@), "up_to_date"@, None),
        },
{
    let mut out: Vec<StoreWrite> = Vec::new();
    out.push(StoreWrite::SourceMetadata {
        skill_id: skill.id.clone(),
        source_ref_resolved: Some(source.clone_url.clone()),
        subpath: source_subpath,
        branch: clone_opt(&source.branch),
        revision: Some(remote_revision.to_string()),
    });
    match installed {
        Some((description, hash)) => {
            out.push(StoreWrite::AfterInstall {
                skill_id: skill.id.clone(),
                name: skill.name.clone(),
                description,
                source_revision: Some(remote_revision.to_string()),
                remote_revision: Some(remote_revision.to_string()),
                content_hash: Some(hash),
                update_status: "up_to_date".to_string(),
            });
        },
        None => {
            out.push(StoreWrite::CheckState {
                skill_id: skill.id.clone(),
                remote_revision: Some(remote_revision.to_string()),
                status: "up_to_date".to_string(),
                error: None,
            });
        },
    }
    out
}

/// What a failed update records once the remote revision is known.
pub fn update_failure_write(skill_id: &str, remote_revision: &str, message: &str) -> (r: StoreWrite)
    ensures
        is_check_state(r, skill_id@, Some(remote_revision@), "error"@, Some(message@)),
{
    StoreWrite::CheckState {
        skill_id: skill_id.to_string(),
        remote_revision: Some(remote_revision.to_string()),
        status: "error".to_string(),
        error: Some(message.to_string()),
    }
}


// ---------------------------------------------------------------------------
// Update check and update as steps
// ---------------------------------------------------------------------------

/// What happened since the last step of an update check.
pub enum UpdateCheckEvent {
    /// The check starts.
    Start,
    /// The remote answered with its revision, or failed with this message.
    RemoteRevision(Result<String, String>),
    /// The local source was probed.
    LocalProbe(LocalSourceProbe),
}

/// The next step of an update check.
#[derive(Debug)]
pub enum UpdateCheckStep {
    /// Carry out the plan (see [`UpdateCheckPlan`]): nothing, a remote
    /// check, a probe of the local source, or a write.
    Act(UpdateCheckPlan),
    /// Record `write`; then fail with `error` where there is one, else the
    /// check is done.
    Record { write: StoreWrite, error: Option<AppError> },
}

/// One step of checking a skill for updates: on `Start`, the plan (see
/// [`plan_update_check`]); once the remote answered, what the answer records
/// (see [`git_check_result`]); once the local source was probed, what the
/// probe records (see [`local_check_write`]). An unknown skill is "not
/// found". After the last step the skill's view is read back.
pub fn check_skill_update_internal(
    skill: Option<&SkillRecord>,
    force: bool,
    ttl_setting: &Option<String>,
    now_ms: i64,
    parsed_source_ref: Option<ParsedGitSource>,
    event: UpdateCheckEvent,
) -> (r: Result<UpdateCheckStep, AppError>)
    requires
        skill matches Some(s) ==> (s.source_ref_resolved is None && s.source_type@ == "git"@ && s.source_ref is Some
            ==> parsed_source_ref is Some),
    ensures
        match skill {
            None => (r matches Err(e) && e.kind == ErrorKind::NotFound && e.message@ == "Skill not found"@),
            Some(s) => match event {
                UpdateCheckEvent::Start => match r {
                    Ok(UpdateCheckStep::Act(p)) => plan_matches(*s, force, opt_view(*ttl_setting), now_ms, parsed_source_ref, Ok(p)),
                    Ok(UpdateCheckStep::Record { .. }) => false,
                    Err(e) => plan_matches(*s, force, opt_view(*ttl_setting), now_ms, parsed_source_ref, Err(e)),
                },
                UpdateCheckEvent::RemoteRevision(remote) => (r matches Ok(UpdateCheckStep::Record { write, error }) && match remote {
                    Ok(rev) => is_check_state(write, s.id@, Some(rev@), spec_git_update_status(opt_view(s.source_revision), rev@), None)
                        && error is None,
                    Err(m) => is_check_state(write, s.id@, opt_view(s.remote_revision), "error"@, Some(m@))
                        && (error matches Some(e) && e.kind == ErrorKind::Git && e.message@ == m@),
                }),
                UpdateCheckEvent::LocalProbe(probe) => (r matches Ok(UpdateCheckStep::Record { write, error }) && error is None && {
                    let (status, err) = spec_local_update_status(probe, opt_view(s.content_hash));
                    is_check_state(write, s.id@, None, status, err)
                }),
            },
        },
{
    let s = match skill {
        None => return Err(AppError::not_found("Skill not found")),
        Some(s) => s,
    };
    match event {
        UpdateCheckEvent::Start => match plan_update_check(s, force, ttl_setting, now_ms, parsed_source_ref) {
            Ok(p) => Ok(UpdateCheckStep::Act(p)),
            Err(e) => Err(e),
        },
        UpdateCheckEvent::RemoteRevision(remote) => {
            let (write, error) = git_check_result(s, remote);
            Ok(UpdateCheckStep::Record { write, error })
        },
        UpdateCheckEvent::LocalProbe(probe) => Ok(UpdateCheckStep::Record { write: local_check_write(s, probe), error: None }),
    }
}

/// What happened since the last step of updating a git-based skill.
pub enum GitUpdateEvent {
    /// The update starts.
    Start,
    /// The remote revision of `source` was resolved, or resolving it failed
    /// with this message.
    RemoteRevision { result: Result<String, String> },
    /// The revision was fetched: the skill's directory in it hashes to
    /// `new_hash` and lies at `source_subpath` in the repository.
    Fetched { source: GitSkillSource, revision: String, new_hash: String, source_subpath: Option<String> },
    /// The changed content was installed, with this description and hash.
    Installed {
        source: GitSkillSource,
        revision: String,
        source_subpath: Option<String>,
        description: Option<String>,
        content_hash: String,
    },
    /// Working on the fetched revision failed with `error`.
    Failed { revision: String, error: AppError },
}

/// The next step of updating a git-based skill.
#[derive(Debug)]
pub enum GitUpdateStep {
    /// Check the source's URL and resolve its remote revision.
    ResolveRemote { source: GitSkillSource },
    /// Record `write` (the skill is being updated), then fetch `revision`.
    Fetch { write: StoreWrite, revision: String },
    /// The content changed: install the fetched copy.
    Install,
    /// Record `writes`: the update is done; `content_changed` says whether
    /// the content changed.
    Finish { writes: Vec<StoreWrite>, content_changed: bool },
    /// Record `write` and fail with `error`.
    Fail { write: StoreWrite, error: AppError },
}

/// One step of updating a git-based skill from its repository: on `Start`,
/// where it fetches from (see [`begin_git_update`]); once the remote
/// revision is known, mark the skill as updating and fetch it, or on
/// failure record the error (see [`remote_failure`]); once fetched, install
/// the copy where its content changed, else record the update (see
/// [`git_update_writes`]); once installed, record the new copy; a failure
/// on the fetched revision records the error at that revision.
pub fn update_git_skill_internal(
    skill: Option<&SkillRecord>,
    parsed_source_ref: Option<ParsedGitSource>,
    event: GitUpdateEvent,
) -> (r: Result<GitUpdateStep, AppError>)
    requires
        skill matches Some(s) ==> (s.source_ref_resolved is None && s.source_type@ == "git"@ && s.source_ref is Some
            ==> parsed_source_ref is Some),
    ensures
        match skill {
            None => (r matches Err(e) && e.kind == ErrorKind::NotFound && e.message@ == "Skill not found"@),
            Some(s) => match event {
                GitUpdateEvent::Start => if s.source_type@ != "git"@ && s.source_type@ != "skillssh"@ {
                    r matches Err(e) && e.kind == ErrorKind::InvalidInput && e.message@ == "Only git-based skills can be updated"@
                } else {
                    match spec_git_source(*s, parsed_source_ref) {
                        Ok(g) => r matches Ok(GitUpdateStep::ResolveRemote { source }) && git_source_view(source) == g,
                        Err(e) => r matches Err(x) && (x.kind, x.message@) == e,
                    }
                },
                GitUpdateEvent::RemoteRevision { result } => match result {
                    Ok(rev) => (r matches Ok(GitUpdateStep::Fetch { write, revision }) && revision@ == rev@
                        && (write matches StoreWrite::UpdateStatus { skill_id, status } && skill_id@ == s.id@ && status@ == "updating"@)),
                    Err(m) => (r matches Ok(GitUpdateStep::Fail { write, error }) && error.kind == ErrorKind::Git && error.message@ == m@
                        && is_check_state(write, s.id@, opt_view(s.remote_revision), "error"@, Some(m@))),
                },
                GitUpdateEvent::Fetched { source, revision, new_hash, source_subpath } => if opt_view(s.content_hash) != Some(new_hash@) {
                    r matches Ok(GitUpdateStep::Install)
                } else {
                    r matches Ok(GitUpdateStep::Finish { writes, content_changed }) && !content_changed && writes.len() == 2
                        && (writes@[0] matches StoreWrite::SourceMetadata { skill_id, source_ref_resolved, subpath, branch, revision: rv }
                            && skill_id@ == s.id@ && opt_view(source_ref_resolved) == Some(source.clone_url@)
                            && opt_view(subpath) == opt_view(source_subpath) && opt_view(branch) == opt_view(source.branch)
                            && opt_view(rv) == Some(revision@))
                        && is_check_state(writes@[1], s.id@, Some(revision@), "up_to_date"@, None)
                },
                GitUpdateEvent::Installed { source, revision, source_subpath, description, content_hash } => (r matches Ok(
                    GitUpdateStep::Finish { writes, content_changed },
                ) && content_changed && writes.len() == 2
                    && (writes@[0] matches StoreWrite::SourceMetadata { skill_id, source_ref_resolved, subpath, branch, revision: rv }
                        && skill_id@ == s.id@ && opt_view(source_ref_resolved) == Some(source.clone_url@)
                        && opt_view(subpath) == opt_view(source_subpath) && opt_view(branch) == opt_view(source.branch)
                        && opt_view(rv) == Some(revision@))
                    && (writes@[1] matches StoreWrite::AfterInstall {
                        skill_id,
                        name,
                        description: d,
                        source_revision,
                        remote_revision: rr,
                        content_hash: h,
                        update_status,
                    } && skill_id@ == s.id@ && name@ == s.name@ && opt_view(d) == opt_view(description)
                        && opt_view(source_revision) == Some(revision@) && opt_view(rr) == Some(revision@)
                        && opt_view(h) == Some(content_hash@) && update_status@ == "up_to_date"@)),
                GitUpdateEvent::Failed { revision, error } => (r matches Ok(GitUpdateStep::Fail { write, error: e })
                    && e == error && is_check_state(write, s.id@, Some(revision@), "error"@, Some(error.message@))),
            },
        },
{
    let s = match skill {
        None => return Err(AppError::not_found("Skill not found")),
        Some(s) => s,
    };
    match event {
        GitUpdateEvent::Start => match begin_git_update(Some(s), parsed_source_ref) {
            Ok(source) => Ok(GitUpdateStep::ResolveRemote { source }),
            Err(e) => Err(e),
        },
        GitUpdateEvent::RemoteRevision { result } => match result {
            Ok(rev) => Ok(GitUpdateStep::Fetch { write: updating_write(s.id.as_str()), revision: rev }),
            Err(m) => {
                let (write, error) = remote_failure(s, m.as_str());
                Ok(GitUpdateStep::Fail { write, error })
            },
        },
        GitUpdateEvent::Fetched { source, revision, new_hash, source_subpath } => {
            if content_changed(s, new_hash.as_str()) {
                Ok(GitUpdateStep::Install)
            } else {
                let writes = git_update_writes(s, &source, source_subpath, revision.as_str(), None);
                Ok(GitUpdateStep::Finish { writes, content_changed: false })
            }
        },
        GitUpdateEvent::Installed { source, revision, source_subpath, description, content_hash } => {
            let writes = git_update_writes(s, &source, source_subpath, revision.as_str(), Some((description, content_hash)));
            Ok(GitUpdateStep::Finish { writes, content_changed: true })
        },
        GitUpdateEvent::Failed { revision, error } => {
            let write = update_failure_write(s.id.as_str(), revision.as_str(), error.message.as_str());
            Ok(GitUpdateStep::Fail { write, error })
        },
    }
}

// ---------------------------------------------------------------------------
// Reimporting a local skill
// ---------------------------------------------------------------------------

/// The source path a reimport reads: the skill must exist ("not found"), be a
/// local or imported skill ("invalid input") and record its source path
/// ("not found").
pub fn begin_reimport(skill: Option<&SkillRecord>) -> (r: Result<String, AppError>)
    ensures
        match skill {
            None => r matches Err(e) && e.kind == ErrorKind::NotFound && e.message@ == "Skill not found"@,
            Some(s) => if s.source_type@ != "local"@ && s.source_type@ != "import"@ {
                r matches Err(e) && e.kind == ErrorKind::InvalidInput && e.message@ == "Only local skills can be reimported"@
            } else {
                match s.source_ref {
                    Some(p) => r matches Ok(q) && q@ == p@,
                    None => r matches Err(e) && e.kind == ErrorKind::NotFound
                        && e.message@ == "Local skill is missing its original source path"@,
                }
            },
        },
{
    let s = match skill {
        None => {
            return Err(AppError::not_found("Skill not found"));
        },
        Some(s) => s,
    };
    if !(str_eq(s.source_type.as_str(), "local") || str_eq(s.source_type.as_str(), "import")) {
        return Err(AppError::invalid_input("Only local skills can be reimported"));
    }
    match &s.source_ref {
        Some(p) => Ok(p.clone()),
        None => Err(AppError::not_found("Local skill is missing its original source path")),
    }
}

/// What a reimport records when the source path is gone, and the error the
/// user sees.
pub fn source_missing(skill: &SkillRecord) -> (r: (StoreWrite, AppError))
    ensures
        is_check_state(r.0, skill.id@, None, "source_missing"@, Some("Original source path no longer exists"@)),
        r.1.kind == ErrorKind::NotFound,
        r.1.message@ == "Original source path no longer exists"@,
{
    (StoreWrite::CheckState {
        skill_id: skill.id.clone(),
        remote_revision: None,
        status: "source_missing".to_string(),
        error: Some("Original source path no longer exists".to_string()),
    }, AppError::not_found("Original source path no longer exists"))
}

/// What a reimport does with the staged source: rebuild the center where it
/// is gone, else as [`crate::skills::decide_reimport`] decides.
pub fn reimport_decision(center_exists: bool, source: &SideState, center: &SideState, threshold_ms: i64) -> (r: ReimportDecision)
    ensures
        r == if center_exists {
            spec_decide_reimport(*source, *center, threshold_ms)
        } else {
            ReimportDecision::OverwriteCenter
        },
{
    if !center_exists {
        ReimportDecision::OverwriteCenter
    } else {
        crate::skills::decide_reimport(source, center, threshold_ms)
    }
}

/// What a reimport records: a new copy installed from the source where the
/// center was overwritten; else, the center being kept, only that the skill
/// is local.
pub fn reimport_write(skill: &SkillRecord, decision: ReimportDecision, description: Option<String>, content_hash: &str) -> (r: StoreWrite)
    ensures
        decision == ReimportDecision::OverwriteCenter ==> (r matches StoreWrite::AfterInstall {
            skill_id,
            name,
            description: d,
            source_revision,
            remote_revision,
            content_hash: h,
            update_status,
        } && skill_id@ == skill.id@ && name@ == skill.name@ && opt_view(d) == opt_view(description)
            && source_revision is None && remote_revision is None && opt_view(h) == Some(content_hash@)
            && update_status@ == "local_only"@),
        decision != ReimportDecision::OverwriteCenter ==> is_check_state(r, skill.id@, None, "local_only"@, None),
{
    match decision {
        ReimportDecision::OverwriteCenter => StoreWrite::AfterInstall {
            skill_id: skill.id.clone(),
            name: skill.name.clone(),
            description,
            source_revision: None,
            remote_revision: None,
            content_hash: Some(content_hash.to_string()),
            update_status: "local_only".to_string(),
        },
        _ => StoreWrite::CheckState {
            skill_id: skill.id.clone(),
            remote_revision: None,
            status: "local_only".to_string(),
            error: None,
        },
    }
}

/// What a failed reimport records.
pub fn reimport_failure_write(skill_id: &str, message: &str) -> (r: StoreWrite)
    ensures
        is_check_state(r, skill_id@, None, "error"@, Some(message@)),
{
    StoreWrite::CheckState {
        skill_id: skill_id.to_string(),
        remote_revision: None,
        status: "error".to_string(),
        error: Some(message.to_string()),
    }
}


/// Why a reimport that keeps the center copy skipped the source.
pub open spec fn kept_center_detail() -> Seq<char> {
    "kept center (newer than / diverged from source), skipped reimport"@
}

/// `w` is the audit entry of a reimport of the skill `id` named `name` that
/// kept the center copy: a successful "reimport" with the reason.
pub open spec fn is_kept_center_audit(w: StoreWrite, id: Seq<char>, name: Seq<char>) -> bool {
    w matches StoreWrite::Audit { action, skill_id, skill_name, ok, detail } && action@ == "reimport"@
        && skill_id@ == id && skill_name@ == name && ok && opt_view(detail) == Some(kept_center_detail())
}

/// The audit entry of a reimport that kept the center copy.
pub fn kept_center_audit(skill: &SkillRecord) -> (r: StoreWrite)
    ensures
        is_kept_center_audit(r, skill.id@, skill.name@),
{
    StoreWrite::Audit {
        action: "reimport".to_string(),
        skill_id: skill.id.clone(),
        skill_name: skill.name.clone(),
        ok: true,
        detail: Some("kept center (newer than / diverged from source), skipped reimport".to_string()),
    }
}

/// The time difference, in milliseconds, within which a reimport cannot
/// tell whether the source or the center is newer.
pub const REIMPORT_MTIME_THRESHOLD_MS: i64 = 1000;

/// What happened since the last step of reimporting a local skill.
pub enum ReimportEvent {
    /// The reimport starts.
    Start,
    /// The source path was looked for.
    SourceProbed { exists: bool },
    /// The source was staged: the two sides as observed, whether the center
    /// exists, and the staged copy's description and content hash.
    Staged {
        center_exists: bool,
        source: SideState,
        center: SideState,
        description: Option<String>,
        content_hash: String,
    },
    /// Staging or applying failed with `error`.
    Failed { error: AppError },
}

/// The next step of reimporting a local skill.
#[derive(Debug)]
pub enum ReimportStep {
    /// Look for the source at this path.
    ProbeSource { source_path: String },
    /// Record `write` (the skill is being updated), then stage the source.
    Stage { write: StoreWrite },
    /// Carry out `decision` on the staged copy, then record `write`, and
    /// `audit` where there is one (when the center copy is kept).
    Apply { decision: ReimportDecision, write: StoreWrite, audit: Option<StoreWrite> },
    /// Record `write` and fail with `error`.
    Fail { write: StoreWrite, error: AppError },
}

/// One step of reimporting a local skill from its source: on `Start`, the
/// source to look for (see [`begin_reimport`]); a missing source records
/// that it is missing and fails; a present one marks the skill as updating
/// and is staged; once staged, what to do with the copy (see
/// [`reimport_decision`]) and what it records (see [`reimport_write`]); a
/// failure records the error.
pub fn reimport_local_skill_internal(skill: Option<&SkillRecord>, event: ReimportEvent) -> (r: Result<ReimportStep, AppError>)
    ensures
        match skill {
            None => (r matches Err(e) && e.kind == ErrorKind::NotFound && e.message@ == "Skill not found"@),
            Some(s) => match event {
                ReimportEvent::Start => if s.source_type@ != "local"@ && s.source_type@ != "import"@ {
                    r matches Err(e) && e.kind == ErrorKind::InvalidInput && e.message@ == "Only local skills can be reimported"@
                } else {
                    match s.source_ref {
                        Some(p) => (r matches Ok(ReimportStep::ProbeSource { source_path }) && source_path@ == p@),
                        None => (r matches Err(e) && e.kind == ErrorKind::NotFound
                            && e.message@ == "Local skill is missing its original source path"@),
                    }
                },
                ReimportEvent::SourceProbed { exists } => if exists {
                    r matches Ok(ReimportStep::Stage { write }) && (write matches StoreWrite::UpdateStatus { skill_id, status }
                        && skill_id@ == s.id@ && status@ == "updating"@)
                } else {
                    r matches Ok(ReimportStep::Fail { write, error }) && error.kind == ErrorKind::NotFound
                        && error.message@ == "Original source path no longer exists"@
                        && is_check_state(write, s.id@, None, "source_missing"@, Some("Original source path no longer exists"@))
                },
                ReimportEvent::Staged { center_exists, source, center, description, content_hash } => (r matches Ok(
                    ReimportStep::Apply { decision, write, audit },
                ) && (decision == ReimportDecision::KeepCenter ==> (audit matches Some(a) && is_kept_center_audit(a, s.id@, s.name@)))
                    && (decision != ReimportDecision::KeepCenter ==> audit is None) && decision == (if center_exists {
                    spec_decide_reimport(source, center, REIMPORT_MTIME_THRESHOLD_MS)
                } else {
                    ReimportDecision::OverwriteCenter
                }) && (decision == ReimportDecision::OverwriteCenter ==> (write matches StoreWrite::AfterInstall {
                    skill_id,
                    name,
                    description: d,
                    source_revision,
                    remote_revision,
                    content_hash: h,
                    update_status,
                } && skill_id@ == s.id@ && name@ == s.name@ && opt_view(d) == opt_view(description)
                    && source_revision is None && remote_revision is None && opt_view(h) == Some(content_hash@)
                    && update_status@ == "local_only"@)) && (decision != ReimportDecision::OverwriteCenter
                    ==> is_check_state(write, s.id@, None, "local_only"@, None))),
                ReimportEvent::Failed { error } => (r matches Ok(ReimportStep::Fail { write, error: e }) && e == error
                    && is_check_state(write, s.id@, None, "error"@, Some(error.message@))),
            },
        },
{
    let s = match skill {
        None => return Err(AppError::not_found("Skill not found")),
        Some(s) => s,
    };
    match event {
        ReimportEvent::Start => match begin_reimport(Some(s)) {
            Ok(p) => Ok(ReimportStep::ProbeSource { source_path: p }),
            Err(e) => Err(e),
        },
        ReimportEvent::SourceProbed { exists } => {
            if exists {
                Ok(ReimportStep::Stage { write: updating_write(s.id.as_str()) })
            } else {
                let (write, error) = source_missing(s);
                Ok(ReimportStep::Fail { write, error })
            }
        },
        ReimportEvent::Staged { center_exists, source, center, description, content_hash } => {
            let decision = reimport_decision(center_exists, &source, &center, REIMPORT_MTIME_THRESHOLD_MS);
            let write = reimport_write(s, decision, description, content_hash.as_str());
            let audit = match decision {
                ReimportDecision::KeepCenter => Some(kept_center_audit(s)),
                _ => None,
            };
            Ok(ReimportStep::Apply { decision, write, audit })
        },
        ReimportEvent::Failed { error } => {
            let write = reimport_failure_write(s.id.as_str(), error.message.as_str());
            Ok(ReimportStep::Fail { write, error })
        },
    }
}

// ---------------------------------------------------------------------------
// Relinking and detaching the source of a local skill
// ---------------------------------------------------------------------------

/// `w` records a skill reinstalled with a local source (or none): its
/// name, description, source type and path, and content hash, with every
/// git source field cleared and the update status "local_only".
pub open spec fn is_local_source_write(
    w: StoreWrite,
    id: Seq<char>,
    name: Seq<char>,
    description: Option<Seq<char>>,
    source_type: Seq<char>,
    source_ref: Option<Seq<char>>,
    content_hash: Option<Seq<char>>,
) -> bool {
    w matches StoreWrite::Reinstall { skill_id, name: n, description: d, source, content_hash: h }
        && skill_id@ == id && n@ == name && opt_view(d) == description && source.source_type@ == source_type
        && opt_view(source.source_ref) == source_ref && source.source_ref_resolved is None
        && source.source_subpath is None && source.source_branch is None && source.source_revision is None
        && source.remote_revision is None && source.update_status@ == "local_only"@
        && opt_view(h) == content_hash
}

/// What is known about a local source at `source_ref` (or none) of the
/// given type.
fn local_source(source_type: &String, source_ref: Option<String>) -> (r: InstallSourceMetadata)
    ensures
        r.source_type@ == source_type@,
        opt_view(r.source_ref) == opt_view(source_ref),
        r.source_ref_resolved is None && r.source_subpath is None && r.source_branch is None,
        r.source_revision is None && r.remote_revision is None,
        r.update_status@ == "local_only"@,
{
    InstallSourceMetadata {
        source_type: source_type.clone(),
        source_ref,
        source_ref_resolved: None,
        source_subpath: None,
        source_branch: None,
        source_revision: None,
        remote_revision: None,
        update_status: "local_only".to_string(),
    }
}

/// Whether a skill's source is a local path (its source type is "local" or
/// "import").
pub open spec fn has_local_source(s: SkillRecord) -> bool {
    s.source_type@ == "local"@ || s.source_type@ == "import"@
}

/// Forgets where a local skill was imported from: the skill must exist ("not
/// found") and be local ("invalid input"); what is recorded keeps its name,
/// description, source type and content hash, and drops its source path.
pub fn detach_local_skill_source(skill: Option<&SkillRecord>) -> (r: Result<StoreWrite, AppError>)
    ensures
        match skill {
            None => r matches Err(e) && e.kind == ErrorKind::NotFound && e.message@ == "Skill not found"@,
            Some(s) => if !has_local_source(*s) {
                r matches Err(e) && e.kind == ErrorKind::InvalidInput
                    && e.message@ == "Only local skills can detach source paths"@
            } else {
                r matches Ok(w) && is_local_source_write(
                    w, s.id@, s.name@, opt_view(s.description), s.source_type@, None, opt_view(s.content_hash),
                )
            },
        },
{
    let s = match skill {
        None => {
            return Err(AppError::not_found("Skill not found"));
        },
        Some(s) => s,
    };
    if !(str_eq(s.source_type.as_str(), "local") || str_eq(s.source_type.as_str(), "import")) {
        return Err(AppError::invalid_input("Only local skills can detach source paths"));
    }
    Ok(StoreWrite::Reinstall {
        skill_id: s.id.clone(),
        name: s.name.clone(),
        description: clone_opt(&s.description),
        source: local_source(&s.source_type, None),
        content_hash: clone_opt(&s.content_hash),
    })
}

/// What happened since the last step of relinking a local skill to a new
/// source path.
pub enum RelinkEvent {
    /// The relink starts.
    Start,
    /// The new source path was looked at: whether it exists, and whether it
    /// is a valid skill directory.
    SourceProbed { exists: bool, is_skill_dir: bool },
    /// The new source was installed into the staged path and swapped in:
    /// the copy's description and content hash.
    Installed { description: Option<String>, content_hash: String },
    /// Staging, installing or recording failed with `error`.
    Failed { error: AppError },
}

/// The next step of relinking a local skill to a new source path.
#[derive(Debug)]
pub enum RelinkStep {
    /// Look at the new source path.
    ProbeSource { source_path: String },
    /// Record `write` (the skill is being updated), install the new source
    /// into `staged_path` and swap it in for the center copy.
    Stage { write: StoreWrite, staged_path: String },
    /// Record `write`, then bring the skill's copy deployments up to date.
    Apply { write: StoreWrite },
    /// Record `write` and fail with `error`.
    Fail { write: StoreWrite, error: AppError },
}

/// One step of relinking a local skill to the source at `source_path`: the
/// skill must exist and be local; the path must exist ("not found") and be a
/// skill directory ("invalid input"); the skill is then marked as updating
/// and the source staged beside its center copy (see
/// [`crate::skills::staged_path_for`]); once installed, the new source path,
/// description and content hash are recorded; a failure records the error.
pub fn relink_local_skill_source(skill: Option<&SkillRecord>, source_path: &str, event: RelinkEvent) -> (r: Result<RelinkStep, AppError>)
    ensures
        match skill {
            None => (r matches Err(e) && e.kind == ErrorKind::NotFound && e.message@ == "Skill not found"@),
            Some(s) => if !has_local_source(*s) {
                r matches Err(e) && e.kind == ErrorKind::InvalidInput
                    && e.message@ == "Only local skills can relink source paths"@
            } else {
                match event {
                    RelinkEvent::Start => (r matches Ok(RelinkStep::ProbeSource { source_path: p }) && p@ == source_path@),
                    RelinkEvent::SourceProbed { exists, is_skill_dir } => if !exists {
                        r matches Err(e) && e.kind == ErrorKind::NotFound
                            && e.message@ == "Selected source path does not exist"@
                    } else if !is_skill_dir {
                        r matches Err(e) && e.kind == ErrorKind::InvalidInput
                            && e.message@ == "Selected source path is not a valid skill directory"@
                    } else {
                        r matches Ok(RelinkStep::Stage { write, staged_path })
                            && (write matches StoreWrite::UpdateStatus { skill_id, status }
                                && skill_id@ == s.id@ && status@ == "updating"@)
                            && exists|token: Seq<char>| staged_path@ == crate::skills::spec_with_file_name(
                                s.central_path@,
                                #[trigger] crate::skills::staged_file_name(
                                    crate::skills::spec_path_file_name(s.central_path@),
                                    token,
                                ),
                            )
                    },
                    RelinkEvent::Installed { description, content_hash } => (r matches Ok(RelinkStep::Apply { write })
                        && is_local_source_write(
                            write, s.id@, s.name@, opt_view(description), s.source_type@, Some(source_path@),
                            Some(content_hash@),
                        )),
                    RelinkEvent::Failed { error } => (r matches Ok(RelinkStep::Fail { write, error: e }) && e == error
                        && is_check_state(write, s.id@, None, "error"@, Some(error.message@))),
                }
            },
        },
{
    let s = match skill {
        None => {
            return Err(AppError::not_found("Skill not found"));
        },
        Some(s) => s,
    };
    if !(str_eq(s.source_type.as_str(), "local") || str_eq(s.source_type.as_str(), "import")) {
        return Err(AppError::invalid_input("Only local skills can relink source paths"));
    }
    match event {
        RelinkEvent::Start => Ok(RelinkStep::ProbeSource { source_path: source_path.to_string() }),
        RelinkEvent::SourceProbed { exists, is_skill_dir } => {
            if !exists {
                return Err(AppError::not_found("Selected source path does not exist"));
            }
            if !is_skill_dir {
                return Err(AppError::invalid_input("Selected source path is not a valid skill directory"));
            }
            let staged_path = crate::skills::staged_path_for(s.central_path.as_str());
            Ok(RelinkStep::Stage { write: updating_write(s.id.as_str()), staged_path })
        },
        RelinkEvent::Installed { description, content_hash } => Ok(RelinkStep::Apply {
            write: StoreWrite::Reinstall {
                skill_id: s.id.clone(),
                name: s.name.clone(),
                description,
                source: local_source(&s.source_type, Some(source_path.to_string())),
                content_hash: Some(content_hash),
            },
        }),
        RelinkEvent::Failed { error } => {
            let write = reimport_failure_write(s.id.as_str(), error.message.as_str());
            Ok(RelinkStep::Fail { write, error })
        },
    }
}

/// Whether a deployment is a copy (rather than a link) of its skill.
pub open spec fn is_copy_target(t: SkillTargetRecord) -> bool {
    t.mode@ == "copy"@
}

/// The test of being a copy deployment, as a predicate.
pub open spec fn copy_target_pred() -> spec_fn(SkillTargetRecord) -> bool {
    |t: SkillTargetRecord| is_copy_target(t)
}

/// `new` is the deployment `old` after a fresh copy at `now_ms`: the same
/// deployment, synced then, with status "ok", no error, and the content hash
/// `hash` of the copied skill.
pub open spec fn resynced_from(new: SkillTargetRecord, old: SkillTargetRecord, hash: Option<Seq<char>>, now_ms: i64) -> bool {
    &&& new.id@ == old.id@
    &&& new.skill_id@ == old.skill_id@
    &&& new.tool@ == old.tool@
    &&& new.target_path@ == old.target_path@
    &&& new.mode@ == old.mode@
    &&& new.status@ == "ok"@
    &&& new.synced_at == Some(now_ms)
    &&& new.last_error is None
    &&& opt_view(new.source_hash) == hash
}

/// The deployments of a skill to copy again after its center copy changed,
/// each with the record to write once it is copied: its copy deployments
/// among `targets` (the skill's deployments), in order, marked as synced at
/// `now_ms` with the skill's content hash. The skill must exist.
pub fn resync_copy_targets(skill: Option<&SkillRecord>, targets: &Vec<SkillTargetRecord>, now_ms: i64) -> (r: Result<Vec<SkillTargetRecord>, AppError>)
    ensures
        match skill {
            None => r matches Err(e) && e.kind == ErrorKind::NotFound && e.message@ == "Skill not found"@,
            Some(s) => r matches Ok(v) && {
                let idx = crate::text::indices_where(targets@, copy_target_pred());
                &&& v.len() == idx.len()
                &&& forall|k: int| 0 <= k < v.len() ==> #[trigger] resynced_from(
                    v@[k], targets@[idx[k]], opt_view(s.content_hash), now_ms,
                )
            },
        },
{
    let s = match skill {
        None => {
            return Err(AppError::not_found("Skill not found"));
        },
        Some(s) => s,
    };
    let ghost p = copy_target_pred();
    let mut out: Vec<SkillTargetRecord> = Vec::new();
    let mut i: usize = 0;
    while i < targets.len()
        invariant
            i <= targets.len(),
            p == copy_target_pred(),
            out.len() == crate::text::indices_where(targets@.take(i as int), p).len(),
            forall|k: int| 0 <= k < out.len() ==> #[trigger] resynced_from(
                out@[k], targets@[crate::text::indices_where(targets@.take(i as int), p)[k]],
                opt_view(s.content_hash), now_ms,
            ),
        decreases targets.len() - i,
    {
        let ghost before = crate::text::indices_where(targets@.take(i as int), p);
        proof {
            assert(targets@.take(i + 1).drop_last() =~= targets@.take(i as int));
            assert(targets@.take(i + 1).last() == targets@[i as int]);
        }
        let t = &targets[i];
        if str_eq(t.mode.as_str(), "copy") {
            let ghost ob = out@;
            let rec = SkillTargetRecord {
                id: t.id.clone(),
                skill_id: t.skill_id.clone(),
                tool: t.tool.clone(),
                target_path: t.target_path.clone(),
                mode: t.mode.clone(),
                status: "ok".to_string(),
                synced_at: Some(now_ms),
                last_error: None,
                source_hash: clone_opt(&s.content_hash),
            };
            out.push(rec);
            proof {
                let after = crate::text::indices_where(targets@.take(i + 1), p);
                assert(after == before.push(i as int));
                assert forall|k: int| 0 <= k < out.len() implies #[trigger] resynced_from(
                    out@[k], targets@[after[k]], opt_view(s.content_hash), now_ms,
                ) by {
                    if k < out.len() - 1 {
                        assert(out@[k] == ob[k]);
                        assert(after[k] == before[k]);
                    }
                }
            }
        } else {
            proof {
                assert(crate::text::indices_where(targets@.take(i + 1), p) == before);
            }
        }
        i += 1;
    }
    assert(targets@.take(targets.len() as int) =~= targets@);
    Ok(out)
}

// ---------------------------------------------------------------------------
// Storing an installed skill
// ---------------------------------------------------------------------------

/// What storing a freshly installed skill writes.
#[derive(Debug)]
pub enum InstallStore {
    /// A skill already lives at the same central path: record it as
    /// reinstalled.
    Update { write: StoreWrite },
    /// Insert this new skill.
    Insert { record: SkillRecord },
}

/// What storing an installed skill does: its id, the write, and the
/// scenario membership to add, if any.
#[derive(Debug)]
pub struct StoredInstall {
    pub skill_id: String,
    pub store: InstallStore,
    pub membership: Option<(String, String)>,
}

/// `r` is the record of a skill newly installed at `central_path` under this
/// name, description and content hash, with its source as `source` tells,
/// created and checked at `now_ms`.
pub open spec fn is_new_install(
    r: SkillRecord,
    id: Seq<char>,
    name: Seq<char>,
    description: Option<Seq<char>>,
    central_path: Seq<char>,
    content_hash: Seq<char>,
    source: InstallSourceMetadata,
    now_ms: i64,
) -> bool {
    &&& r.id@ == id
    &&& r.name@ == name
    &&& opt_view(r.description) == description
    &&& r.source_type@ == source.source_type@
    &&& opt_view(r.source_ref) == opt_view(source.source_ref)
    &&& opt_view(r.source_ref_resolved) == opt_view(source.source_ref_resolved)
    &&& opt_view(r.source_subpath) == opt_view(source.source_subpath)
    &&& opt_view(r.source_branch) == opt_view(source.source_branch)
    &&& opt_view(r.source_revision) == opt_view(source.source_revision)
    &&& opt_view(r.remote_revision) == opt_view(source.remote_revision)
    &&& r.central_path@ == central_path
    &&& opt_view(r.content_hash) == Some(content_hash)
    &&& r.enabled
    &&& r.created_at == now_ms && r.updated_at == now_ms
    &&& r.status@ == "ok"@
    &&& r.update_status@ == source.update_status@
    &&& r.last_checked_at == Some(now_ms)
    &&& r.last_check_error is None
}

/// A copy of what is known about a source.
fn copy_source(m: &InstallSourceMetadata) -> (r: InstallSourceMetadata)
    ensures
        r.source_type@ == m.source_type@,
        opt_view(r.source_ref) == opt_view(m.source_ref),
        opt_view(r.source_ref_resolved) == opt_view(m.source_ref_resolved),
        opt_view(r.source_subpath) == opt_view(m.source_subpath),
        opt_view(r.source_branch) == opt_view(m.source_branch),
        opt_view(r.source_revision) == opt_view(m.source_revision),
        opt_view(r.remote_revision) == opt_view(m.remote_revision),
        r.update_status@ == m.update_status@,
{
    InstallSourceMetadata {
        source_type: m.source_type.clone(),
        source_ref: clone_opt(&m.source_ref),
        source_ref_resolved: clone_opt(&m.source_ref_resolved),
        source_subpath: clone_opt(&m.source_subpath),
        source_branch: clone_opt(&m.source_branch),
        source_revision: clone_opt(&m.source_revision),
        remote_revision: clone_opt(&m.remote_revision),
        update_status: m.update_status.clone(),
    }
}

/// Stores a skill installed at `central_path`: where the store already has
/// a skill there (`existing`), it is recorded as reinstalled with the new
/// name, description, content hash and source; else a new skill with id
/// `new_id` is recorded (see [`is_new_install`]). Either way the skill joins
/// the active scenario, if one is given.
pub fn store_installed_skill_unlocked(
    existing: Option<&SkillRecord>,
    name: &str,
    description: Option<String>,
    central_path: &str,
    content_hash: &str,
    metadata: &InstallSourceMetadata,
    new_id: &str,
    now_ms: i64,
    active_scenario: Option<&str>,
) -> (r: StoredInstall)
    ensures
        match existing {
            Some(e) => r.skill_id@ == e.id@ && (r.store matches InstallStore::Update {
                write: StoreWrite::Reinstall { skill_id, name: n, description: d, source, content_hash: h },
            } && skill_id@ == e.id@ && n@ == name@ && opt_view(d) == opt_view(description)
                && source.source_type@ == metadata.source_type@
                && opt_view(source.source_ref) == opt_view(metadata.source_ref)
                && opt_view(source.source_ref_resolved) == opt_view(metadata.source_ref_resolved)
                && opt_view(source.source_subpath) == opt_view(metadata.source_subpath)
                && opt_view(source.source_branch) == opt_view(metadata.source_branch)
                && opt_view(source.source_revision) == opt_view(metadata.source_revision)
                && opt_view(source.remote_revision) == opt_view(metadata.remote_revision)
                && source.update_status@ == metadata.update_status@ && opt_view(h) == Some(content_hash@)),
            None => r.skill_id@ == new_id@ && (r.store matches InstallStore::Insert { record } && is_new_install(
                record, new_id@, name@, opt_view(description), central_path@, content_hash@, *metadata, now_ms,
            )),
        },
        match active_scenario {
            Some(a) => r.membership matches Some((scenario, skill)) && scenario@ == a@ && skill@ == r.skill_id@,
            None => r.membership is None,
        },
{
    let (skill_id, store) = match existing {
        Some(e) => (e.id.clone(), InstallStore::Update {
            write: StoreWrite::Reinstall {
                skill_id: e.id.clone(),
                name: name.to_string(),
                description,
                source: copy_source(metadata),
                content_hash: Some(content_hash.to_string()),
            },
        }),
        None => (new_id.to_string(), InstallStore::Insert {
            record: SkillRecord {
                id: new_id.to_string(),
                name: name.to_string(),
                description,
                source_type: metadata.source_type.clone(),
                source_ref: clone_opt(&metadata.source_ref),
                source_ref_resolved: clone_opt(&metadata.source_ref_resolved),
                source_subpath: clone_opt(&metadata.source_subpath),
                source_branch: clone_opt(&metadata.source_branch),
                source_revision: clone_opt(&metadata.source_revision),
                remote_revision: clone_opt(&metadata.remote_revision),
                central_path: central_path.to_string(),
                content_hash: Some(content_hash.to_string()),
                enabled: true,
                created_at: now_ms,
                updated_at: now_ms,
                status: "ok".to_string(),
                update_status: metadata.update_status.clone(),
                last_checked_at: Some(now_ms),
                last_check_error: None,
            },
        }),
    };
    let membership = match active_scenario {
        Some(a) => Some((a.to_string(), skill_id.clone())),
        None => None,
    };
    StoredInstall { skill_id, store, membership }
}

} // verus!

use skills_manager::error::{AppError, ErrorKind};
use skills_manager::skills::{
    discovered_install_name, discovered_skill_record, git_install_metadata, indexed_skill_record, local_install_metadata, skillssh_install_metadata, GitSkillSource,
    LocalSourceProbe, ReimportDecision, SideState, SkillRecord,
};
use skills_manager::updates::{
    check_skill_update_internal, reimport_local_skill_internal, update_git_skill_internal,
    GitUpdateEvent, GitUpdateStep, ReimportEvent, ReimportStep, StoreWrite, UpdateCheckEvent,
    UpdateCheckPlan, UpdateCheckStep,
};

fn skill(source_type: &str) -> SkillRecord {
    SkillRecord {
        id: "s1".to_string(),
        name: "demo".to_string(),
        description: None,
        source_type: source_type.to_string(),
        source_ref: Some("/src/demo".to_string()),
        source_ref_resolved: Some("https://github.com/owner/repo.git".to_string()),
        source_subpath: None,
        source_branch: None,
        source_revision: Some("abc".to_string()),
        remote_revision: Some("old".to_string()),
        central_path: "/c/demo".to_string(),
        content_hash: Some("h1".to_string()),
        enabled: true,
        created_at: 0,
        updated_at: 0,
        status: "ok".to_string(),
        update_status: "unknown".to_string(),
        last_checked_at: None,
        last_check_error: None,
    }
}

fn source() -> GitSkillSource {
    GitSkillSource {
        clone_url: "https://github.com/owner/repo.git".to_string(),
        branch: None,
        subpath: None,
        locator_skill_id: None,
    }
}

fn status_of(w: &StoreWrite) -> String {
    match w {
        StoreWrite::CheckState { status, .. } => status.clone(),
        StoreWrite::UpdateStatus { status, .. } => status.clone(),
        StoreWrite::AfterInstall { update_status, .. } => update_status.clone(),
        StoreWrite::SourceMetadata { .. } => "metadata".to_string(),
        StoreWrite::Reinstall { source, .. } => source.update_status.clone(),
        StoreWrite::Audit { action, .. } => action.clone(),
    }
}

#[test]
fn update_check_runs_in_steps() {
    let s = skill("git");
    assert_eq!(
        check_skill_update_internal(None, true, &None, 0, None, UpdateCheckEvent::Start).unwrap_err().message,
        "Skill not found"
    );
    match check_skill_update_internal(Some(&s), true, &None, 0, None, UpdateCheckEvent::Start).unwrap() {
        UpdateCheckStep::Act(UpdateCheckPlan::Git { source, .. }) => assert_eq!(source.clone_url, "https://github.com/owner/repo.git"),
        _ => panic!("expected a remote check"),
    }
    match check_skill_update_internal(Some(&s), true, &None, 0, None, UpdateCheckEvent::RemoteRevision(Ok("abc".to_string()))).unwrap() {
        UpdateCheckStep::Record { write, error } => {
            assert_eq!(status_of(&write), "up_to_date");
            assert!(error.is_none());
        }
        _ => panic!("expected a record"),
    }
    match check_skill_update_internal(Some(&s), true, &None, 0, None, UpdateCheckEvent::RemoteRevision(Err("offline".to_string()))).unwrap() {
        UpdateCheckStep::Record { write, error } => {
            assert_eq!(status_of(&write), "error");
            assert_eq!(error.unwrap().kind, ErrorKind::Git);
        }
        _ => panic!("expected a record"),
    }
    let l = skill("local");
    match check_skill_update_internal(Some(&l), true, &None, 0, None, UpdateCheckEvent::LocalProbe(LocalSourceProbe::Hashed("h2".to_string()))).unwrap() {
        UpdateCheckStep::Record { write, .. } => assert_eq!(status_of(&write), "update_available"),
        _ => panic!("expected a record"),
    }
}

#[test]
fn git_update_runs_in_steps() {
    let s = skill("git");
    assert_eq!(
        update_git_skill_internal(Some(&skill("local")), None, GitUpdateEvent::Start).unwrap_err().message,
        "Only git-based skills can be updated"
    );
    assert!(matches!(update_git_skill_internal(Some(&s), None, GitUpdateEvent::Start).unwrap(), GitUpdateStep::ResolveRemote { .. }));
    match update_git_skill_internal(Some(&s), None, GitUpdateEvent::RemoteRevision { result: Ok("def".to_string()) }).unwrap() {
        GitUpdateStep::Fetch { write, revision } => {
            assert_eq!(revision, "def");
            assert_eq!(status_of(&write), "updating");
        }
        _ => panic!("expected a fetch"),
    }
    let fetched = |hash: &str| GitUpdateEvent::Fetched {
        source: source(),
        revision: "def".to_string(),
        new_hash: hash.to_string(),
        source_subpath: None,
    };
    assert!(matches!(update_git_skill_internal(Some(&s), None, fetched("h2")).unwrap(), GitUpdateStep::Install));
    match update_git_skill_internal(Some(&s), None, fetched("h1")).unwrap() {
        GitUpdateStep::Finish { writes, content_changed } => {
            assert!(!content_changed);
            assert_eq!(status_of(&writes[1]), "up_to_date");
        }
        _ => panic!("expected the end"),
    }
    let installed = GitUpdateEvent::Installed {
        source: source(),
        revision: "def".to_string(),
        source_subpath: None,
        description: Some("new".to_string()),
        content_hash: "h2".to_string(),
    };
    match update_git_skill_internal(Some(&s), None, installed).unwrap() {
        GitUpdateStep::Finish { writes, content_changed } => {
            assert!(content_changed);
            assert!(matches!(&writes[1], StoreWrite::AfterInstall { .. }));
        }
        _ => panic!("expected the end"),
    }
    let failed = GitUpdateEvent::Failed { revision: "def".to_string(), error: AppError::new(ErrorKind::Io, "disk full") };
    match update_git_skill_internal(Some(&s), None, failed).unwrap() {
        GitUpdateStep::Fail { write, error } => {
            assert_eq!(status_of(&write), "error");
            assert_eq!(error.message, "disk full");
        }
        _ => panic!("expected a failure"),
    }
}

#[test]
fn reimport_runs_in_steps() {
    let s = skill("local");
    match reimport_local_skill_internal(Some(&s), ReimportEvent::Start).unwrap() {
        ReimportStep::ProbeSource { source_path } => assert_eq!(source_path, "/src/demo"),
        _ => panic!("expected a probe"),
    }
    match reimport_local_skill_internal(Some(&s), ReimportEvent::SourceProbed { exists: false }).unwrap() {
        ReimportStep::Fail { write, error } => {
            assert_eq!(status_of(&write), "source_missing");
            assert_eq!(error.message, "Original source path no longer exists");
        }
        _ => panic!("expected a failure"),
    }
    assert!(matches!(
        reimport_local_skill_internal(Some(&s), ReimportEvent::SourceProbed { exists: true }).unwrap(),
        ReimportStep::Stage { .. }
    ));
    let side = |h: &str, t: i64| SideState { hash: Some(h.to_string()), mtime_ms: Some(t) };
    let staged = ReimportEvent::Staged {
        center_exists: true,
        source: side("new", 5_000),
        center: side("old", 1_000),
        description: None,
        content_hash: "new".to_string(),
    };
    match reimport_local_skill_internal(Some(&s), staged).unwrap() {
        ReimportStep::Apply { decision, write, audit } => {
            assert_eq!(decision, ReimportDecision::OverwriteCenter);
            assert_eq!(status_of(&write), "local_only");
            assert!(audit.is_none());
        }
        _ => panic!("expected to apply"),
    }
    let older_source = ReimportEvent::Staged {
        center_exists: true,
        source: side("old", 1_000),
        center: side("new", 9_000),
        description: None,
        content_hash: "old".to_string(),
    };
    match reimport_local_skill_internal(Some(&s), older_source).unwrap() {
        ReimportStep::Apply { decision, write, audit } => {
            assert_eq!(decision, ReimportDecision::KeepCenter);
            assert_eq!(status_of(&write), "local_only");
            match audit {
                Some(StoreWrite::Audit { action, skill_id, ok, detail, .. }) => {
                    assert_eq!((action.as_str(), skill_id.as_str(), ok), ("reimport", "s1", true));
                    assert_eq!(detail.as_deref(), Some("kept center (newer than / diverged from source), skipped reimport"));
                }
                other => panic!("unexpected audit {other:?}"),
            }
        }
        _ => panic!("expected to apply"),
    }
    assert_eq!(
        reimport_local_skill_internal(Some(&skill("git")), ReimportEvent::Start).unwrap_err().message,
        "Only local skills can be reimported"
    );
}

#[test]
fn indexing_names_found_directories() {
    let r = indexed_skill_record(
        "id-1".to_string(),
        "/center/skills/tool-x",
        Some("  ".to_string()),
        Some("desc".to_string()),
        Some("hash".to_string()),
        42,
    );
    assert_eq!(r.name, "tool-x");
    assert_eq!(r.source_type, "import");
    assert_eq!(r.source_ref.as_deref(), Some("/center/skills/tool-x"));
    assert_eq!(r.update_status, "local_only");
    assert_eq!(r.last_checked_at, Some(42));
    let named = indexed_skill_record("i".to_string(), "/c/x", Some("Nice".to_string()), None, None, 1);
    assert_eq!(named.name, "Nice");
}

#[test]
fn install_metadata_by_source() {
    let local = local_install_metadata("/src/x");
    assert_eq!((local.source_type.as_str(), local.update_status.as_str()), ("local", "local_only"));
    assert_eq!(local.source_ref.as_deref(), Some("/src/x"));
    let git = git_install_metadata("https://github.com/o/r/tree/main/s", "https://github.com/o/r.git", Some("s".to_string()), Some("main".to_string()), Some("abc".to_string()));
    assert_eq!(git.update_status, "up_to_date");
    assert_eq!(git.remote_revision.as_deref(), Some("abc"));
    let adopted = git_install_metadata("u", "c", None, None, None);
    assert_eq!(adopted.update_status, "unknown");
    let ssh = skillssh_install_metadata("o/r", "s", None, "def");
    assert_eq!(ssh.source_ref.as_deref(), Some("o/r/s"));
    assert_eq!(ssh.source_ref_resolved.as_deref(), Some("https://github.com/o/r.git"));
}

#[test]
fn discovered_skills_become_imported_records() {
    assert_eq!(discovered_install_name(None), "unnamed-skill");
    assert_eq!(discovered_install_name(Some("tool".to_string())), "tool");
    let r = discovered_skill_record(
        "id".to_string(),
        "tool".to_string(),
        None,
        "/found/tool".to_string(),
        "/center/tool".to_string(),
        "h".to_string(),
        7,
    );
    assert_eq!(r.source_ref.as_deref(), Some("/found/tool"));
    assert_eq!(r.content_hash.as_deref(), Some("h"));
    assert_eq!((r.source_type.as_str(), r.update_status.as_str()), ("import", "local_only"));
}

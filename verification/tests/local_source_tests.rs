use skills_manager::error::{AppError, ErrorKind};
use skills_manager::skill_commands::{check_single_delete, tally_batch_delete};
use skills_manager::skills::{staged_path_for, validate_clone_temp_path, SkillRecord, SkillTargetRecord};
use skills_manager::skills::git_install_metadata;
use skills_manager::updates::{
    detach_local_skill_source, relink_local_skill_source, resync_copy_targets, store_installed_skill_unlocked,
    InstallStore, RelinkEvent, RelinkStep, StoreWrite,
};

fn skill(source_type: &str) -> SkillRecord {
    SkillRecord {
        id: "s1".to_string(),
        name: "demo".to_string(),
        description: Some("old description".to_string()),
        source_type: source_type.to_string(),
        source_ref: Some("/old/demo".to_string()),
        source_ref_resolved: None,
        source_subpath: None,
        source_branch: None,
        source_revision: None,
        remote_revision: None,
        central_path: "/center/skills/demo".to_string(),
        content_hash: Some("h1".to_string()),
        enabled: true,
        created_at: 0,
        updated_at: 0,
        status: "ok".to_string(),
        update_status: "local_only".to_string(),
        last_checked_at: None,
        last_check_error: None,
    }
}

fn target(id: &str, mode: &str) -> SkillTargetRecord {
    SkillTargetRecord {
        id: id.to_string(),
        skill_id: "s1".to_string(),
        tool: "cursor".to_string(),
        target_path: format!("/agents/{id}/demo"),
        mode: mode.to_string(),
        status: "error".to_string(),
        synced_at: Some(5),
        last_error: Some("stale".to_string()),
        source_hash: Some("h0".to_string()),
    }
}

#[test]
fn detach_keeps_everything_but_the_source_path() {
    let s = skill("local");
    match detach_local_skill_source(Some(&s)).unwrap() {
        StoreWrite::Reinstall { skill_id, name, description, source, content_hash } => {
            assert_eq!(skill_id, "s1");
            assert_eq!(name, "demo");
            assert_eq!(description.as_deref(), Some("old description"));
            assert_eq!(source.source_type, "local");
            assert!(source.source_ref.is_none());
            assert_eq!(source.update_status, "local_only");
            assert_eq!(content_hash.as_deref(), Some("h1"));
        }
        other => panic!("unexpected write {other:?}"),
    }
    let err = detach_local_skill_source(Some(&skill("git"))).unwrap_err();
    assert_eq!(err.kind, ErrorKind::InvalidInput);
    assert_eq!(err.message, "Only local skills can detach source paths");
    let err = detach_local_skill_source(None).unwrap_err();
    assert_eq!(err.kind, ErrorKind::NotFound);
}

#[test]
fn relink_checks_the_new_source_then_records_it() {
    let s = skill("import");
    match relink_local_skill_source(Some(&s), "/new/demo", RelinkEvent::Start).unwrap() {
        RelinkStep::ProbeSource { source_path } => assert_eq!(source_path, "/new/demo"),
        other => panic!("unexpected step {other:?}"),
    }
    let err = relink_local_skill_source(
        Some(&s),
        "/new/demo",
        RelinkEvent::SourceProbed { exists: false, is_skill_dir: false },
    )
    .unwrap_err();
    assert_eq!((err.kind, err.message.as_str()), (ErrorKind::NotFound, "Selected source path does not exist"));
    let err = relink_local_skill_source(
        Some(&s),
        "/new/demo",
        RelinkEvent::SourceProbed { exists: true, is_skill_dir: false },
    )
    .unwrap_err();
    assert_eq!(
        (err.kind, err.message.as_str()),
        (ErrorKind::InvalidInput, "Selected source path is not a valid skill directory")
    );
    match relink_local_skill_source(
        Some(&s),
        "/new/demo",
        RelinkEvent::SourceProbed { exists: true, is_skill_dir: true },
    )
    .unwrap()
    {
        RelinkStep::Stage { write: StoreWrite::UpdateStatus { skill_id, status }, staged_path } => {
            assert_eq!(skill_id, "s1");
            assert_eq!(status, "updating");
            assert!(staged_path.starts_with("/center/skills/.demo.staged-"));
        }
        other => panic!("unexpected step {other:?}"),
    }
    match relink_local_skill_source(
        Some(&s),
        "/new/demo",
        RelinkEvent::Installed { description: Some("new".to_string()), content_hash: "h2".to_string() },
    )
    .unwrap()
    {
        RelinkStep::Apply { write: StoreWrite::Reinstall { source, content_hash, description, .. } } => {
            assert_eq!(source.source_ref.as_deref(), Some("/new/demo"));
            assert_eq!(source.source_type, "import");
            assert_eq!(content_hash.as_deref(), Some("h2"));
            assert_eq!(description.as_deref(), Some("new"));
        }
        other => panic!("unexpected step {other:?}"),
    }
    let failed = AppError::new(ErrorKind::Io, "disk full");
    match relink_local_skill_source(Some(&s), "/new/demo", RelinkEvent::Failed { error: failed }).unwrap() {
        RelinkStep::Fail { write: StoreWrite::CheckState { status, error, .. }, error: e } => {
            assert_eq!(status, "error");
            assert_eq!(error.as_deref(), Some("disk full"));
            assert_eq!(e.kind, ErrorKind::Io);
        }
        other => panic!("unexpected step {other:?}"),
    }
    let err = relink_local_skill_source(Some(&skill("git")), "/new/demo", RelinkEvent::Start).unwrap_err();
    assert_eq!(err.message, "Only local skills can relink source paths");
}

#[test]
fn resync_refreshes_only_copy_deployments() {
    let s = skill("local");
    let targets = vec![target("t1", "symlink"), target("t2", "copy"), target("t3", "copy")];
    let out = resync_copy_targets(Some(&s), &targets, 42).unwrap();
    assert_eq!(out.len(), 2);
    assert_eq!(out[0].id, "t2");
    assert_eq!(out[1].id, "t3");
    for t in &out {
        assert_eq!(t.status, "ok");
        assert_eq!(t.synced_at, Some(42));
        assert!(t.last_error.is_none());
        assert_eq!(t.source_hash.as_deref(), Some("h1"));
        assert_eq!(t.mode, "copy");
    }
    match resync_copy_targets(None, &targets, 42) {
        Err(e) => assert_eq!(e.kind, ErrorKind::NotFound),
        Ok(_) => panic!("a missing skill has no deployments to resync"),
    }
}

#[test]
fn staged_copies_sit_beside_the_center_copy() {
    let a = staged_path_for("/center/skills/demo");
    let b = staged_path_for("/center/skills/demo");
    assert!(a.starts_with("/center/skills/.demo.staged-"));
    assert_ne!(a, b);
    assert!(staged_path_for("/").starts_with("/.skill.staged-"));
}

#[test]
fn clone_checkouts_must_be_isolated_temp_dirs() {
    let ok = validate_clone_temp_path(true, Some("/tmp/skills-clone-abc".to_string()), "/tmp", "skills-clone-");
    assert_eq!(ok.unwrap(), "/tmp/skills-clone-abc");
    let gone = validate_clone_temp_path(false, None, "/tmp", "skills-clone-").unwrap_err();
    assert_eq!(gone.message, "Clone session expired, please try again");
    let cache = validate_clone_temp_path(true, Some("/home/u/.cache/repo".to_string()), "/tmp", "skills-clone-");
    assert_eq!(cache.unwrap_err().message, "Invalid temp directory");
    let other = validate_clone_temp_path(true, Some("/tmp/other".to_string()), "/tmp", "skills-clone-");
    assert_eq!(other.unwrap_err().kind, ErrorKind::InvalidInput);
    let prefix_only = validate_clone_temp_path(true, Some("/tmpx/skills-clone-a".to_string()), "/tmp", "skills-clone-");
    assert!(prefix_only.is_err());
    assert!(validate_clone_temp_path(true, None, "/tmp", "skills-clone-").is_err());
}

#[test]
fn batch_delete_counts_found_ids() {
    let items = vec![("a".to_string(), true), ("b".to_string(), false), ("c".to_string(), true)];
    let r = tally_batch_delete(&items);
    assert_eq!(r.deleted, 2);
    assert_eq!(r.failed, vec!["b".to_string()]);
    assert!(check_single_delete(&r).is_ok());
    let none = tally_batch_delete(&vec![("x".to_string(), false)]);
    let err = check_single_delete(&none).unwrap_err();
    assert_eq!((err.kind, err.message.as_str()), (ErrorKind::NotFound, "Skill not found"));
}

#[test]
fn installs_replace_a_skill_at_the_same_central_path() {
    let meta = git_install_metadata(
        "https://github.com/o/r",
        "https://github.com/o/r.git",
        Some("skills/demo".to_string()),
        None,
        Some("rev1".to_string()),
    );
    let old = skill("git");
    let stored = store_installed_skill_unlocked(Some(&old), "demo2", None, "/center/skills/demo", "h9", &meta, "new", 50, None);
    assert_eq!(stored.skill_id, "s1");
    assert!(stored.membership.is_none());
    match stored.store {
        InstallStore::Update { write: StoreWrite::Reinstall { skill_id, name, source, content_hash, .. } } => {
            assert_eq!((skill_id.as_str(), name.as_str()), ("s1", "demo2"));
            assert_eq!(source.source_ref_resolved.as_deref(), Some("https://github.com/o/r.git"));
            assert_eq!(source.update_status, "up_to_date");
            assert_eq!(content_hash.as_deref(), Some("h9"));
        }
        other => panic!("unexpected {other:?}"),
    }
    let fresh = store_installed_skill_unlocked(None, "demo", Some("d".to_string()), "/center/skills/demo", "h9", &meta, "new", 50, Some("scene"));
    assert_eq!(fresh.skill_id, "new");
    assert_eq!(fresh.membership, Some(("scene".to_string(), "new".to_string())));
    match fresh.store {
        InstallStore::Insert { record } => {
            assert_eq!(record.source_type, "git");
            assert_eq!(record.source_subpath.as_deref(), Some("skills/demo"));
            assert_eq!(record.central_path, "/center/skills/demo");
            assert_eq!((record.created_at, record.last_checked_at), (50, Some(50)));
            assert!(record.enabled);
        }
        other => panic!("unexpected {other:?}"),
    }
}

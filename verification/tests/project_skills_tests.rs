use skills_manager::error::ErrorKind;
use skills_manager::project_skills::{
    agent_import_records,
    add_project, delete_agent_local_skill, delete_project_skill, document_candidate_names, ensure_dir_within_root,
    export_paths, export_skill_to_project, get_project_skill_document, import_agent_local_skill_to_center,
    import_project_skill_to_center, locate_skill_dir, pick_document, project_import_record, project_skill_roots,
    refreshed_from_project, scan_projects, toggle_paths, toggle_project_skill, update_agent_local_skill_from_center,
    update_project_skill_from_center, AgentImport, ProjectImport,
};
use skills_manager::skills::{SkillRecord, SkillTargetRecord};
use skills_manager::updates::StoreWrite;
use skills_manager::workspace::{ProjectRecord, ProjectSkillInfo};

fn project() -> ProjectRecord {
    ProjectRecord {
        id: "p1".to_string(),
        name: "app".to_string(),
        path: "/work/app".to_string(),
        sort_order: 0,
        created_at: 1,
        updated_at: 1,
    }
}

fn found(dir_name: &str, path: &str, hash: Option<&str>) -> ProjectSkillInfo {
    ProjectSkillInfo {
        name: format!("{dir_name} skill"),
        dir_name: dir_name.to_string(),
        relative_path: dir_name.to_string(),
        description: None,
        path: path.to_string(),
        files: vec![],
        enabled: true,
        agent: "cursor".to_string(),
        agent_display_name: "Cursor".to_string(),
        tags: Vec::new(),
        in_center: false,
        sync_status: "project_only".to_string(),
        center_skill_id: None,
        last_modified_at: None,
        content_hash: hash.map(|h| h.to_string()),
    }
}

fn managed(id: &str, name: &str, hash: Option<&str>, source_ref: Option<&str>) -> SkillRecord {
    SkillRecord {
        id: id.to_string(),
        name: name.to_string(),
        description: None,
        source_type: "local".to_string(),
        source_ref: source_ref.map(|s| s.to_string()),
        source_ref_resolved: None,
        source_subpath: None,
        source_branch: None,
        source_revision: Some("r1".to_string()),
        remote_revision: Some("r2".to_string()),
        central_path: format!("/center/{name}"),
        content_hash: hash.map(|h| h.to_string()),
        enabled: true,
        created_at: 0,
        updated_at: 0,
        status: "ok".to_string(),
        update_status: "local_only".to_string(),
        last_checked_at: None,
        last_check_error: None,
    }
}

#[test]
fn projects_keep_skills_in_their_agent_directory() {
    let (skills, disabled) = project_skill_roots("/work/app", ".agent");
    assert_eq!(skills, "/work/app/.agent/skills");
    assert_eq!(disabled, "/work/app/.agent/skills-disabled");
    let n = add_project("/work/app", ".agent", true, "id1".to_string(), 5).unwrap();
    assert_eq!(n.record.name, "app");
    assert_eq!(n.record.path, "/work/app");
    assert_eq!((n.record.sort_order, n.record.created_at), (0, 5));
    assert_eq!(n.skills_dir, "/work/app/.agent/skills");
    assert_eq!(add_project("/", ".agent", true, "id2".to_string(), 5).unwrap().record.name, "unknown");
    let err = add_project("/nope", ".agent", false, "id3".to_string(), 5).unwrap_err();
    assert_eq!((err.kind, err.message.as_str()), (ErrorKind::InvalidInput, "Directory does not exist"));
    assert!(scan_projects(true).is_ok());
    assert_eq!(scan_projects(false).unwrap_err().message, "Directory does not exist");
}

#[test]
fn directories_must_stay_inside_their_root() {
    assert!(ensure_dir_within_root("/r/skills/a", "/r/skills", "/cwd").is_ok());
    assert!(ensure_dir_within_root("skills/a", "skills", "/cwd").is_ok());
    assert!(ensure_dir_within_root("skills/a", "/cwd/skills", "/cwd").is_ok());
    let err = ensure_dir_within_root("/r/other/a", "/r/skills", "/cwd").unwrap_err();
    assert_eq!((err.kind, err.message.as_str()), (ErrorKind::InvalidInput, "Invalid skill directory path"));
}

#[test]
fn toggling_moves_between_the_two_roots() {
    let p = project();
    let (from, to) = toggle_paths("/work/app", ".agent", "lint", true);
    assert_eq!(from, "/work/app/.agent/skills-disabled/lint");
    assert_eq!(to, "/work/app/.agent/skills/lint");
    assert_eq!(toggle_project_skill(Some(&p), ".agent", "lint", true, true, false, "/").unwrap(), (from, to));
    let (from, to) = toggle_project_skill(Some(&p), ".agent", "lint", false, true, false, "/").unwrap();
    assert_eq!(from, "/work/app/.agent/skills/lint");
    assert_eq!(to, "/work/app/.agent/skills-disabled/lint");
    let e = toggle_project_skill(Some(&p), ".agent", "lint", true, false, false, "/").unwrap_err();
    assert_eq!((e.kind, e.message.as_str()), (ErrorKind::NotFound, "Skill directory not found in skills-disabled"));
    let e = toggle_project_skill(Some(&p), ".agent", "lint", false, false, false, "/").unwrap_err();
    assert_eq!(e.message, "Skill directory not found");
    let e = toggle_project_skill(Some(&p), ".agent", "lint", true, true, true, "/").unwrap_err();
    assert_eq!(e.message, "Skill already exists in skills directory");
    let e = toggle_project_skill(Some(&p), ".agent", "lint", false, true, true, "/").unwrap_err();
    assert_eq!(e.message, "Skill already exists in skills-disabled directory");
    let e = toggle_project_skill(None, ".agent", "lint", true, true, false, "/").unwrap_err();
    assert_eq!((e.kind, e.message.as_str()), (ErrorKind::NotFound, "Project not found"));
    let e = toggle_project_skill(Some(&p), ".agent", "../x", true, true, false, "/").unwrap_err();
    assert_eq!(e.message, "Invalid skill directory name");
}

#[test]
fn deleting_and_reading_look_in_skills_then_disabled() {
    let p = project();
    assert_eq!(
        delete_project_skill(Some(&p), ".agent", "lint", true, true, "/").unwrap(),
        "/work/app/.agent/skills/lint"
    );
    assert_eq!(
        delete_project_skill(Some(&p), ".agent", "lint", false, true, "/").unwrap(),
        "/work/app/.agent/skills-disabled/lint"
    );
    let e = delete_project_skill(Some(&p), ".agent", "lint", false, false, "/").unwrap_err();
    assert_eq!((e.kind, e.message.as_str()), (ErrorKind::NotFound, "Skill directory not found"));
    assert!(locate_skill_dir("/work/app", ".agent", "lint", true, false, "/").is_ok());
    assert_eq!(locate_skill_dir("/work/app", ".agent", "", true, false, "/").unwrap_err().message, "Invalid skill directory name");
    assert_eq!(document_candidate_names("AGENTS.md"), vec!["SKILL.md", "skill.md", "AGENTS.md", "README.md"]);
    assert_eq!(pick_document(&vec![false, false, true, true]).unwrap(), 2);
    let e = pick_document(&vec![false, false, false, false]).unwrap_err();
    assert_eq!(e.message, "No document file found in skill directory");
    let d = get_project_skill_document("lint".to_string(), "AGENTS.md", 2, "# Lint".to_string());
    assert_eq!((d.skill_name.as_str(), d.filename.as_str(), d.content.as_str()), ("lint", "AGENTS.md", "# Lint"));
}

#[test]
fn exporting_copies_the_center_copy_under_its_slug() {
    let p = project();
    let s = managed("s1", "My Skill", None, None);
    assert_eq!(
        export_paths("/work/app", ".agent", "My Skill"),
        ("/work/app/.agent/skills/my-skill".to_string(), "/work/app/.agent/skills-disabled/my-skill".to_string())
    );
    let (source, target) = export_skill_to_project(Some(&p), ".agent", Some(&s), false, false).unwrap();
    assert_eq!(source, "/center/My Skill");
    assert_eq!(target, "/work/app/.agent/skills/my-skill");
    let e = export_skill_to_project(Some(&p), ".agent", Some(&s), false, true).unwrap_err();
    assert_eq!((e.kind, e.message.as_str()), (ErrorKind::InvalidInput, "Skill \"My Skill\" already exists in this project"));
    assert_eq!(export_skill_to_project(Some(&p), ".agent", None, false, false).unwrap_err().message, "Skill not found");
    assert_eq!(export_skill_to_project(None, ".agent", Some(&s), false, false).unwrap_err().message, "Project not found");
}

#[test]
fn refreshing_and_importing_project_skills() {
    let p = project();
    let skills = vec![found("lint", "/work/app/.agent/skills/lint", Some("h1"))];
    let center = vec![managed("s1", "other", Some("h1"), None)];
    let (source, target) = update_project_skill_from_center(Some(&p), ".agent", "lint", &skills, &center, &[], "/").unwrap();
    assert_eq!((source.as_str(), target.as_str()), ("/center/other", "/work/app/.agent/skills/lint"));
    let e = update_project_skill_from_center(Some(&p), ".agent", "fmt", &skills, &center, &[], "/").unwrap_err();
    assert_eq!((e.kind, e.message.as_str()), (ErrorKind::NotFound, "Skill not found in project"));
    let e = update_project_skill_from_center(Some(&p), ".agent", "lint", &skills, &[], &[], "/").unwrap_err();
    assert_eq!(e.message, "No matching skill in center");
    let outside = vec![found("lint", "/elsewhere/lint", Some("h1"))];
    let e = update_project_skill_from_center(Some(&p), ".agent", "lint", &outside, &center, &[], "/").unwrap_err();
    assert_eq!(e.message, "Invalid skill directory path");

    match import_project_skill_to_center(Some(&p), "lint", &skills, &center, &[]).unwrap() {
        ProjectImport::Existing { index, source_path } => {
            assert_eq!(index, 0);
            assert_eq!(source_path, "/work/app/.agent/skills/lint");
        }
        other => panic!("unexpected {other:?}"),
    }
    match import_project_skill_to_center(Some(&p), "lint", &skills, &[], &[]).unwrap() {
        ProjectImport::New { source_path, name } => {
            assert_eq!(source_path, "/work/app/.agent/skills/lint");
            assert_eq!(name, "lint skill");
        }
        other => panic!("unexpected {other:?}"),
    }
    match refreshed_from_project(&center[0], Some("d".to_string()), "h9") {
        StoreWrite::AfterInstall { skill_id, source_revision, remote_revision, content_hash, update_status, .. } => {
            assert_eq!(skill_id, "s1");
            assert_eq!(source_revision.as_deref(), Some("r1"));
            assert_eq!(remote_revision.as_deref(), Some("r2"));
            assert_eq!(content_hash.as_deref(), Some("h9"));
            assert_eq!(update_status, "local_only");
        }
        other => panic!("unexpected {other:?}"),
    }
    let (rec, membership) = project_import_record(
        "n1".to_string(),
        "lint".to_string(),
        None,
        "/work/app/.agent/skills/lint",
        "/center/lint".to_string(),
        "h1".to_string(),
        9,
        Some("scene"),
    );
    assert_eq!(rec.source_type, "local");
    assert_eq!(rec.source_ref.as_deref(), Some("/work/app/.agent/skills/lint"));
    assert_eq!(rec.last_checked_at, Some(9));
    assert_eq!(membership, Some(("scene".to_string(), "n1".to_string())));
    let (_, none) = project_import_record("n2".to_string(), "x".to_string(), None, "/s", "/c".to_string(), "h".to_string(), 9, None);
    assert!(none.is_none());
}

#[test]
fn agent_skills_stay_inside_the_agent_directory() {
    let skill = found("lint", "/home/u/.agent/skills/lint", Some("h1"));
    let by_ref = vec![managed("s1", "lint", Some("zz"), Some("/home/u/.agent/skills/lint"))];
    match import_agent_local_skill_to_center(&skill, "/home/u/.agent/skills", "/", "/center", &by_ref, &[], &[]).unwrap() {
        AgentImport::Existing { index, relink_source, .. } => {
            assert_eq!(index, 0);
            assert!(relink_source);
        }
        other => panic!("unexpected {other:?}"),
    }
    let by_hash = vec![managed("s2", "lint", Some("h1"), None)];
    match import_agent_local_skill_to_center(&skill, "/home/u/.agent/skills", "/", "/center", &by_hash, &[], &[]).unwrap() {
        AgentImport::Existing { relink_source, .. } => assert!(!relink_source),
        other => panic!("unexpected {other:?}"),
    }
    match import_agent_local_skill_to_center(&skill, "/home/u/.agent/skills", "/", "/center", &[], &[], &[]).unwrap() {
        AgentImport::New { name, central_path, .. } => {
            assert_eq!(name, "lint skill");
            assert_eq!(central_path, "/center/lint skill");
        }
        other => panic!("unexpected {other:?}"),
    }
    let e = import_agent_local_skill_to_center(&skill, "/home/u/.codex/skills", "/", "/center", &[], &[], &[]).unwrap_err();
    assert_eq!(e.message, "Invalid skill directory path");

    assert_eq!(update_agent_local_skill_from_center(&skill, "/home/u/.agent/skills", "/", &by_hash, &[], &[]).unwrap(), 0);
    let e = update_agent_local_skill_from_center(&skill, "/elsewhere", "/", &by_hash, &[], &[]).unwrap_err();
    assert_eq!(e.message, "Invalid skill directory path");

    let targets = vec![SkillTargetRecord {
        id: "t".to_string(),
        skill_id: "s1".to_string(),
        tool: "cursor".to_string(),
        target_path: "/home/u/.agent/skills/lint".to_string(),
        mode: "symlink".to_string(),
        status: "ok".to_string(),
        synced_at: None,
        last_error: None,
        source_hash: None,
    }];
    let e = delete_agent_local_skill(&skill, "/home/u/.agent/skills", "/", &by_ref, &targets, &[]).unwrap_err();
    assert_eq!(e.kind, ErrorKind::InvalidInput);
    assert!(delete_agent_local_skill(&skill, "/home/u/.agent/skills", "/", &by_hash, &[], &[]).is_ok());
    assert!(delete_agent_local_skill(&skill, "/other", "/", &by_hash, &[], &[]).is_err());
}

#[test]
fn a_name_only_match_gets_a_free_name_and_the_import_joins_no_scenario() {
    let mut skill = found("local-tool", "/home/u/.agent/skills/local-tool", Some("agent-hash"));
    skill.name = "local-tool".to_string();
    let center = vec![managed("existing-center", "local-tool", Some("center-hash"), Some("/elsewhere/local-tool"))];
    match import_agent_local_skill_to_center(&skill, "/home/u/.agent/skills", "/", "/center", &center, &[], &[]).unwrap() {
        AgentImport::New { source_path, name, central_path } => {
            assert_eq!(source_path, "/home/u/.agent/skills/local-tool");
            assert_eq!(name, "local-tool-2");
            assert_eq!(central_path, "/center/local-tool-2");
        }
        other => panic!("unexpected {other:?}"),
    }
    let (rec, target) = agent_import_records(
        "k".to_string(),
        "local-tool-2".to_string(),
        None,
        "/home/u/.agent/skills/local-tool",
        "/center/local-tool-2".to_string(),
        "agent-hash".to_string(),
        7,
        "t1".to_string(),
        "test_agent",
        "symlink",
    );
    assert_eq!((rec.id.as_str(), rec.source_type.as_str()), ("k", "local"));
    assert_eq!(rec.source_ref.as_deref(), Some("/home/u/.agent/skills/local-tool"));
    assert_eq!((target.skill_id.as_str(), target.tool.as_str()), ("k", "test_agent"));
    assert_eq!(target.target_path, "/home/u/.agent/skills/local-tool");
    assert_eq!(target.status, "ok");
    let mut blank = skill;
    blank.name = "  ".to_string();
    let e = import_agent_local_skill_to_center(&blank, "/home/u/.agent/skills", "/", "/center", &[], &[], &[]).unwrap_err();
    assert_eq!(e.message, "Skill name is empty");
}

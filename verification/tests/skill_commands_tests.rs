use skills_manager::presets::ToolInfo;
use skills_manager::skill_commands::{tally_batch_update, RefreshOutcome};
use skills_manager::skill_commands::{check_import_folder, rename_tag, tally_batch_import, ImportOutcome};
use skills_manager::skills::{git_skill_preview, selected_install, SkillInstallItem};
use skills_manager::skill_commands::{
    adopt_reason, adopt_subpath, adopt_verdict, agent_mutation_report, check_adopt_arguments,
    check_git_adoption, check_removal, deployed_agents, deprecated_enable_report, filter_summaries,
    refresh_kind, removal_targets, require_confirmation, resolve_agent_keys, search_limit,
    search_refs, select_skill_ids, skill_agent_statuses, skill_filters, skill_summary,
    tag_usage_count, tags_after_add, tags_after_remove, unsupported_refresh_message, AdoptVerdict,
    RefreshKind,
};
use skills_manager::skills::{SkillRecord, SkillTargetRecord};

fn skill(id: &str, name: &str, description: Option<&str>, source_type: &str) -> SkillRecord {
    SkillRecord {
        id: id.to_string(),
        name: name.to_string(),
        description: description.map(|d| d.to_string()),
        source_type: source_type.to_string(),
        source_ref: Some(format!("https://example.com/{name}")),
        source_ref_resolved: None,
        source_subpath: None,
        source_branch: None,
        source_revision: None,
        remote_revision: None,
        central_path: format!("/center/{name}"),
        content_hash: None,
        enabled: false,
        created_at: 0,
        updated_at: 0,
        status: "ok".to_string(),
        update_status: "unknown".to_string(),
        last_checked_at: None,
        last_check_error: None,
    }
}

fn target(skill_id: &str, tool: &str, status: &str) -> SkillTargetRecord {
    SkillTargetRecord {
        id: format!("{skill_id}-{tool}"),
        skill_id: skill_id.to_string(),
        tool: tool.to_string(),
        target_path: format!("/agents/{tool}/{skill_id}"),
        mode: "copy".to_string(),
        status: status.to_string(),
        synced_at: None,
        last_error: None,
        source_hash: None,
    }
}

fn tool(key: &str, enabled: bool) -> ToolInfo {
    ToolInfo { key: key.to_string(), display_name: key.to_uppercase(), installed: true, enabled, coding: true }
}

fn strings(v: &[&str]) -> Vec<String> {
    v.iter().map(|s| s.to_string()).collect()
}

#[test]
fn tags_are_added_trimmed_once_and_removed() {
    let current = strings(&["frontend"]);
    let added = tags_after_add(&current, &strings(&[" react ", "frontend", "", "react"]));
    assert_eq!(added, strings(&["frontend", "react"]));
    let removed = tags_after_remove(&added, &strings(&[" react"]));
    assert_eq!(removed, strings(&["frontend"]));
    assert_eq!(tags_after_remove(&tags_after_add(&current, &strings(&["x"])), &strings(&["x"])), current);
}

#[test]
fn counts_skills_carrying_a_tag() {
    let map = vec![
        ("s1".to_string(), strings(&["a", "b"])),
        ("s2".to_string(), strings(&["b"])),
        ("s3".to_string(), Vec::new()),
    ];
    assert_eq!(tag_usage_count(&map, "b"), 2);
    assert_eq!(tag_usage_count(&map, "c"), 0);
}

#[test]
fn destructive_commands_need_yes() {
    assert_eq!(require_confirmation(false, false, "tag").unwrap_err().message, "refusing to delete tag without --yes");
    assert!(require_confirmation(true, false, "tag").is_ok());
    assert!(require_confirmation(false, true, "preset").is_ok());
}

#[test]
fn selects_skills_by_reference_or_all() {
    let skills = vec![skill("s1", "alpha", None, "git"), skill("s2", "beta", None, "local")];
    assert_eq!(select_skill_ids(&skills, Some("beta"), false).unwrap(), vec![1]);
    assert_eq!(select_skill_ids(&skills, None, true).unwrap(), vec![0, 1]);
    assert_eq!(select_skill_ids(&skills, Some("beta"), true).unwrap_err().message, "pass either a ref or --all, not both");
    assert_eq!(select_skill_ids(&skills, None, false).unwrap_err().message, "pass a skill ref or --all");
}

#[test]
fn removal_collects_unresolved_references() {
    let skills = vec![skill("s1", "alpha", None, "git"), skill("s2", "beta", None, "local")];
    let (ids, failed) = removal_targets(&skills, &strings(&["beta", "gamma", "alpha"])).unwrap();
    assert_eq!(ids, vec![1, 0]);
    assert_eq!(failed, strings(&["gamma: skill not found: gamma"]));
    assert_eq!(
        check_removal(&failed, 2, true).unwrap_err().message,
        "could not resolve every skill: gamma: skill not found: gamma"
    );
    assert_eq!(check_removal(&Vec::new(), 2, false).unwrap_err().message, "refusing to delete 2 skill(s) without --yes");
    assert!(check_removal(&Vec::new(), 2, true).is_ok());
    assert_eq!(removal_targets(&skills, &Vec::new()).unwrap_err().message, "no skill ref provided");
}

#[test]
fn deprecated_enable_only_repairs() {
    let s = skill("s1", "alpha", None, "git");
    let on = deprecated_enable_report(&s, true);
    assert!(on.changed && on.enabled && on.deprecated);
    assert!(on.message.contains("skills deploy"));
    let off = deprecated_enable_report(&s, false);
    assert!(!off.changed && !off.enabled);
    assert!(off.message.contains("skills undeploy"));
}

#[test]
fn refresh_follows_the_source_type() {
    assert_eq!(refresh_kind("git"), RefreshKind::Git);
    assert_eq!(refresh_kind("skillssh"), RefreshKind::Git);
    assert_eq!(refresh_kind("import"), RefreshKind::Local);
    assert_eq!(refresh_kind("native"), RefreshKind::Unsupported);
    assert_eq!(unsupported_refresh_message("native"), "source type 'native' cannot be refreshed");
}

#[test]
fn summaries_and_filters() {
    let s1 = skill("s1", "React Helper", Some("Builds UI"), "git");
    let s2 = skill("s2", "Docs", None, "local");
    let tags = vec![("s1".to_string(), strings(&["frontend"]))];
    let targets = vec![target("s1", "zed", "ok"), target("s1", "cursor", "ok"), target("s1", "zed", "ok"), target("s2", "zed", "error")];
    let memberships = vec![("p1".to_string(), "s1".to_string()), ("gone".to_string(), "s1".to_string())];
    let scenarios = vec![("p1".to_string(), "Web Dev".to_string())];
    let a = skill_summary(&s1, &tags, &targets, &memberships, &scenarios);
    let b = skill_summary(&s2, &tags, &targets, &memberships, &scenarios);
    assert_eq!(a.deployed_to, strings(&["cursor", "zed"]));
    assert_eq!(a.preset_ids, strings(&["p1", "gone"]));
    assert_eq!(a.presets, strings(&["Web Dev"]));
    assert_eq!(a.tags, strings(&["frontend"]));
    assert!(b.deployed_to.is_empty());
    assert_eq!(deployed_agents(&targets, "s2"), Vec::<String>::new());
    let all = vec![a, b];
    let known = strings(&["zed", "cursor"]);
    let f = skill_filters(Some("  react "), &strings(&[" frontend ", " "]), None, Some("zed"), false, false, None, &known).unwrap();
    assert_eq!(f.query, Some("react".to_string()));
    assert_eq!(f.tags, strings(&["frontend"]));
    assert_eq!(filter_summaries(&all, &f), vec![0]);
    let by_desc = skill_filters(Some("ui"), &Vec::new(), None, None, false, false, None, &known).unwrap();
    assert_eq!(filter_summaries(&all, &by_desc), vec![0]);
    let untagged = skill_filters(None, &Vec::new(), None, None, true, true, Some("LOCAL"), &known).unwrap();
    assert_eq!(filter_summaries(&all, &untagged), vec![1]);
    let in_preset = skill_filters(None, &Vec::new(), Some("p1"), None, false, false, None, &known).unwrap();
    assert_eq!(filter_summaries(&all, &in_preset), vec![0]);
    assert_eq!(
        skill_filters(None, &Vec::new(), None, Some("other"), false, false, None, &known).unwrap_err().message,
        "unknown agent: other"
    );
}

#[test]
fn agent_statuses_list_known_then_unknown_agents() {
    let infos = vec![tool("cursor", true), tool("codex", false)];
    let targets = vec![target("s1", "zed", "ok"), target("s1", "cursor", "ok"), target("s1", "amp", "error")];
    let statuses = skill_agent_statuses(&infos, &targets);
    let keys: Vec<&str> = statuses.iter().map(|a| a.key.as_str()).collect();
    assert_eq!(keys, vec!["cursor", "codex", "amp", "zed"]);
    assert!(statuses[0].deployed && statuses[0].installed && statuses[0].globally_enabled);
    assert_eq!(statuses[0].target_path.as_deref(), Some("/agents/cursor/s1"));
    assert!(!statuses[1].deployed && statuses[1].target_path.is_none() && !statuses[1].globally_enabled);
    assert!(!statuses[2].deployed && !statuses[2].installed);
    assert!(statuses[3].deployed && statuses[3].display_name == "zed");
}

#[test]
fn enabling_agents_resolves_keys_once() {
    let infos = vec![tool("cursor", true), tool("codex", false)];
    assert_eq!(resolve_agent_keys(&infos, &strings(&["codex", "cursor", "codex"])).unwrap(), vec![1, 0]);
    assert_eq!(resolve_agent_keys(&infos, &Vec::new()).unwrap_err().message, "no agent key provided");
    assert_eq!(resolve_agent_keys(&infos, &strings(&["x"])).unwrap_err().message, "unknown agent: x");
    let report = agent_mutation_report(&infos[1], true);
    assert!(report.changed && report.enabled && report.agent == "codex");
    assert!(!agent_mutation_report(&infos[0], true).changed);
}

#[test]
fn search_limits_and_references() {
    assert_eq!(search_limit(None), 60);
    assert_eq!(search_limit(Some(0)), 1);
    assert_eq!(search_limit(Some(1000)), 300);
    assert_eq!(search_limit(Some(25)), 25);
    let (install_ref, url) = search_refs("owner/repo", "skill");
    assert_eq!(install_ref, "owner/repo/skill");
    assert_eq!(url, "https://skills.sh/owner/repo/skill");
}

#[test]
fn adoption_rules() {
    assert_eq!(check_adopt_arguments(0, false, false).unwrap_err().message, "provide at least one path to scan");
    assert_eq!(check_adopt_arguments(2, true, false).unwrap_err().message, "--git-url requires exactly one path");
    assert_eq!(check_adopt_arguments(1, false, true).unwrap_err().message, "--git-subpath requires --git-url");
    assert!(check_adopt_arguments(1, true, true).is_ok());
    assert_eq!(adopt_subpath(Some(""), Some("x")).unwrap(), None);
    assert_eq!(adopt_subpath(Some("a/b"), None).unwrap(), Some("a/b".to_string()));
    assert_eq!(adopt_subpath(None, Some("skills/x")).unwrap(), Some("skills/x".to_string()));
    assert!(adopt_subpath(None, None).unwrap_err().message.starts_with("--git-url has no subpath"));
    assert_eq!(adopt_verdict(true, true, true, true), AdoptVerdict::AlreadyManaged);
    assert_eq!(adopt_verdict(false, true, true, true), AdoptVerdict::SymlinkIntoCentral);
    assert_eq!(adopt_verdict(false, false, true, false), AdoptVerdict::NotASkill);
    assert_eq!(adopt_verdict(false, false, true, true), AdoptVerdict::Ready);
    assert_eq!(adopt_reason(AdoptVerdict::NotASkill), "no SKILL.md / skill.md");
    assert_eq!(adopt_reason(AdoptVerdict::NotADirectory), "not a directory");
    assert_eq!(
        check_git_adoption(true, 2).unwrap_err().message,
        "--git-url requires exactly one adoptable skill, found 2"
    );
    assert!(check_git_adoption(false, 2).is_ok());
}

#[test]
fn batch_refresh_tally() {
    let items = vec![
        ("s1".to_string(), "alpha".to_string(), RefreshOutcome::Refreshed { changed: true }),
        ("s2".to_string(), "beta".to_string(), RefreshOutcome::Refreshed { changed: false }),
        ("s3".to_string(), "".to_string(), RefreshOutcome::Missing),
        ("s4".to_string(), "delta".to_string(), RefreshOutcome::Failed("network down".to_string())),
        ("s5".to_string(), "eps".to_string(), RefreshOutcome::Unsupported),
    ];
    let r = tally_batch_update(&items);
    assert_eq!((r.refreshed, r.unchanged), (1, 1));
    assert_eq!(
        r.failed,
        strings(&["s3: Skill not found", "delta: network down", "eps: Source type cannot be refreshed"])
    );
}

#[test]
fn renaming_a_tag_trims_and_refuses_empty_names() {
    assert_eq!(rename_tag("old", "  new ").unwrap().as_deref(), Some("new"));
    assert!(rename_tag("same", " same ").unwrap().is_none());
    let e = rename_tag("old", "   ").unwrap_err();
    assert_eq!(e.message, "Tag name cannot be empty");
}

#[test]
fn folder_imports_are_tallied() {
    let items = vec![
        ("a".to_string(), ImportOutcome::Imported),
        ("b".to_string(), ImportOutcome::Skipped),
        ("c".to_string(), ImportOutcome::Failed("disk full".to_string())),
        ("d".to_string(), ImportOutcome::Imported),
    ];
    let r = tally_batch_import(&items);
    assert_eq!((r.imported, r.skipped), (2, 1));
    assert_eq!(r.errors, vec!["c: disk full".to_string()]);
    assert!(check_import_folder(true).is_ok());
    assert_eq!(check_import_folder(false).unwrap_err().message, "Selected path is not a directory");
}

#[test]
fn git_previews_name_skills_and_confirmations_pick_them() {
    let p = git_skill_preview("/tmp/clone/skills", "/tmp/clone/skills/lint", Some("  ".to_string()), Some("d".to_string()));
    assert_eq!((p.rel_path.as_str(), p.name.as_str()), ("lint", "lint"));
    assert_eq!(p.description.as_deref(), Some("d"));
    let p = git_skill_preview("/tmp/clone/skills", "/tmp/clone/skills/a/b", Some("Bee".to_string()), None);
    assert_eq!((p.rel_path.as_str(), p.name.as_str()), ("a/b", "Bee"));
    let items = vec![
        SkillInstallItem { rel_path: "a/b".to_string(), name: "  custom ".to_string() },
        SkillInstallItem { rel_path: "lint".to_string(), name: "   ".to_string() },
    ];
    assert_eq!(selected_install(&items, "a/b"), Some(Some("custom".to_string())));
    assert_eq!(selected_install(&items, "lint"), Some(None));
    assert_eq!(selected_install(&items, "other"), None);
}

use skills_manager::cli::changed_deployment_pairs;
use skills_manager::error::ErrorKind;
use skills_manager::presets::{
    check_deployment_agents, check_preset_update, current_preset, default_status_agent_keys,
    list_presets, next_optional_field, preset_agent_status, preset_status_agents,
    replacement_preset_after_deactivate, resolve_scenario, resolve_sync_target,
    select_agent_keys_for_removal, select_preset_agents, sync_preset, ScenarioRecord, SyncTarget,
    ToolInfo,
};
use skills_manager::skills::SkillTargetRecord;

fn scenario(id: &str, name: &str) -> ScenarioRecord {
    ScenarioRecord {
        id: id.to_string(),
        name: name.to_string(),
        description: None,
        icon: None,
        sort_order: 0,
        created_at: 1,
        updated_at: 1,
    }
}

fn tool(key: &str, installed: bool, enabled: bool, coding: bool) -> ToolInfo {
    ToolInfo {
        key: key.to_string(),
        display_name: format!("{key} agent"),
        installed,
        enabled,
        coding,
    }
}

fn target(skill_id: &str, tool: &str, status: &str) -> SkillTargetRecord {
    SkillTargetRecord {
        id: format!("{skill_id}-{tool}"),
        skill_id: skill_id.to_string(),
        tool: tool.to_string(),
        target_path: format!("/agents/{tool}/{skill_id}"),
        mode: "copy".to_string(),
        status: status.to_string(),
        synced_at: None,
        last_error: None,
        source_hash: None,
    }
}

fn strings(v: &[&str]) -> Vec<String> {
    v.iter().map(|s| s.to_string()).collect()
}

#[test]
fn resolves_presets_by_id_name_and_current() {
    let scenarios = vec![scenario("preset-web", "Web Dev"), scenario("preset-ops", "Ops"), scenario("x", "Ops")];
    assert_eq!(resolve_scenario(&scenarios, None, "Web Dev").unwrap(), 0);
    assert_eq!(resolve_scenario(&scenarios, None, "preset-ops").unwrap(), 1);
    assert_eq!(resolve_scenario(&scenarios, Some("x"), "current").unwrap(), 2);
    assert_eq!(resolve_scenario(&scenarios, None, "current").unwrap_err().message, "no active preset");
    assert_eq!(resolve_scenario(&scenarios, Some("gone"), "current").unwrap_err().message, "active preset not found");
    let missing = resolve_scenario(&scenarios, None, "Mobile").unwrap_err();
    assert_eq!(missing.kind, ErrorKind::NotFound);
    assert_eq!(missing.message, "preset not found: Mobile");
    assert_eq!(resolve_scenario(&scenarios, None, "Ops").unwrap_err().message, "preset reference is ambiguous: Ops");
}

#[test]
fn deactivating_hands_over_to_the_first_other_preset() {
    let scenarios = vec![scenario("a", "A"), scenario("b", "B")];
    assert_eq!(replacement_preset_after_deactivate(&scenarios, "a"), Some(1));
    assert_eq!(replacement_preset_after_deactivate(&scenarios, "b"), Some(0));
    assert_eq!(replacement_preset_after_deactivate(&vec![scenario("a", "A")], "a"), None);
}

#[test]
fn lists_presets_with_counts_and_active_flag() {
    let scenarios = vec![scenario("a", "A"), scenario("b", "B")];
    let memberships = vec![
        ("a".to_string(), "s1".to_string()),
        ("b".to_string(), "s1".to_string()),
        ("a".to_string(), "s2".to_string()),
    ];
    let presets = list_presets(&scenarios, &memberships, Some("b"));
    assert_eq!(presets.len(), 2);
    assert_eq!(presets[0].skill_count, 2);
    assert!(!presets[0].active);
    assert_eq!(presets[1].skill_count, 1);
    assert!(presets[1].active);
    assert_eq!(current_preset(&presets), Some(1));
    assert_eq!(current_preset(&list_presets(&scenarios, &memberships, None)), None);
}

#[test]
fn selects_available_coding_agents_by_default() {
    let infos = vec![
        tool("cursor", true, true, true),
        tool("codex", true, false, true),
        tool("writer", true, true, false),
        tool("test_agent", true, true, true),
    ];
    assert_eq!(select_preset_agents(&infos, &Vec::new(), true).unwrap(), vec![0, 3]);
    assert_eq!(select_preset_agents(&infos, &strings(&["test_agent", "cursor", "test_agent"]), true).unwrap(), vec![3, 0]);
    assert_eq!(
        select_preset_agents(&infos, &strings(&["codex"]), true).unwrap_err().message,
        "agent is disabled: codex agent"
    );
    assert_eq!(select_preset_agents(&infos, &strings(&["codex"]), false).unwrap(), vec![1]);
    assert_eq!(
        select_preset_agents(&infos, &strings(&["nope"]), false).unwrap_err().message,
        "unknown agent: nope"
    );
    let missing = vec![tool("ghost", false, true, true)];
    assert_eq!(
        select_preset_agents(&missing, &strings(&["ghost"]), true).unwrap_err().message,
        "agent is not installed: ghost agent"
    );
}

#[test]
fn removal_defaults_to_deployed_agents_sorted() {
    let targets = vec![target("s1", "zed", "ok"), target("s1", "cursor", "error"), target("s2", "codex", "ok"), target("s1", "zed", "ok")];
    let known = strings(&["cursor", "codex"]);
    let keys = select_agent_keys_for_removal(&known, &Vec::new(), &strings(&["s1"]), &targets).unwrap();
    assert_eq!(keys, strings(&["cursor", "zed"]));
    let named = select_agent_keys_for_removal(&known, &strings(&["zed", "codex", "zed"]), &strings(&["s1"]), &targets).unwrap();
    assert_eq!(named, strings(&["zed", "codex"]));
    assert_eq!(
        select_agent_keys_for_removal(&known, &strings(&["other"]), &strings(&["s1"]), &targets).unwrap_err().message,
        "unknown agent: other"
    );
}

#[test]
fn preset_status_counts_deployed_skills() {
    let infos = vec![tool("test_agent", true, true, true)];
    let skills = strings(&["s1", "s2"]);
    let none = preset_agent_status(&infos, &skills, &Vec::new(), "test_agent");
    assert_eq!((none.deployed, none.total, none.status.as_str()), (0, 2, "inactive"));
    assert_eq!(none.display_name, "test_agent agent");
    let half = preset_agent_status(&infos, &skills, &vec![target("s1", "test_agent", "ok")], "test_agent");
    assert_eq!(half.status, "partial");
    let all = preset_agent_status(
        &infos,
        &skills,
        &vec![target("s1", "test_agent", "ok"), target("s2", "test_agent", "ok")],
        "test_agent",
    );
    assert_eq!(all.status, "active");
    let empty = preset_agent_status(&infos, &Vec::new(), &Vec::new(), "other");
    assert_eq!((empty.status.as_str(), empty.display_name.as_str()), ("empty", "other"));
}

#[test]
fn default_status_covers_disabled_agents_still_deployed() {
    let infos = vec![tool("test_agent", true, false, true), tool("cursor", true, true, true)];
    let targets = vec![target("s1", "test_agent", "ok"), target("s9", "codex", "ok"), target("s1", "cursor", "ok")];
    let keys = default_status_agent_keys(&infos, &strings(&["s1"]), &targets);
    assert_eq!(keys, strings(&["cursor", "test_agent"]));
    let statuses = preset_status_agents(&infos, &strings(&["s1"]), &targets, &keys);
    assert!(statuses.iter().any(|a| a.key == "test_agent" && a.status == "active"));
}

#[test]
fn skill_and_preset_deployment_counts() {
    let skills = strings(&["skill-demo"]);
    let agents = strings(&["test_agent"]);
    let none: Vec<SkillTargetRecord> = Vec::new();
    assert_eq!(changed_deployment_pairs(&skills, &agents, &none, true).len(), 1);
    let deployed = vec![target("skill-demo", "test_agent", "ok")];
    assert_eq!(changed_deployment_pairs(&skills, &agents, &deployed, false).len(), 1);
    assert_eq!(changed_deployment_pairs(&skills, &agents, &deployed, true).len(), 0);
    assert_eq!(changed_deployment_pairs(&skills, &agents, &none, false).len(), 0);
    assert_eq!(
        check_deployment_agents(true, 0).unwrap_err().message,
        "no enabled, installed coding agents found"
    );
    assert!(check_deployment_agents(false, 0).is_ok());
}

#[test]
fn preset_updates_clear_blank_fields() {
    assert_eq!(
        check_preset_update(&None, &None, &None).unwrap_err().message,
        "pass at least one of --name, --description, or --icon"
    );
    assert!(check_preset_update(&Some("n".to_string()), &None, &None).is_ok());
    let current = Some("old".to_string());
    assert_eq!(next_optional_field(Some("  ".to_string()), &current), None);
    assert_eq!(next_optional_field(Some("new".to_string()), &current), Some("new".to_string()));
    assert_eq!(next_optional_field(None, &current), current);
}

#[test]
fn sync_targets_and_sync_presets() {
    let scenarios = vec![scenario("a", "A"), scenario("b", "B")];
    assert_eq!(resolve_sync_target(&SyncTarget::NoSync, &scenarios, Some("a")).unwrap(), None);
    assert_eq!(resolve_sync_target(&SyncTarget::Active, &scenarios, Some("a")).unwrap(), Some("a".to_string()));
    assert_eq!(
        resolve_sync_target(&SyncTarget::Specific("B".to_string()), &scenarios, None).unwrap(),
        Some("b".to_string())
    );
    assert_eq!(sync_preset(&scenarios, Some("b"), None).unwrap(), 1);
    assert_eq!(sync_preset(&scenarios, None, Some("A")).unwrap(), 0);
    assert_eq!(sync_preset(&scenarios, None, None).unwrap_err().message, "no active preset; pass --preset");
}

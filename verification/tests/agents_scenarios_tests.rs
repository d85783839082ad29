use skills_manager::scenarios::{get_active_scenario, get_scenarios};
use skills_manager::scenarios::create_scenario;
use skills_manager::scenarios::{delete_scenario, AfterScenarioDelete};
use skills_manager::scenarios::{deploys_on_add, scenario_to_unsync_before_apply, stale_target_for};
use skills_manager::agents::{agent_config_dto, check_tool_toggle, default_enabled_tools, skill_tool_toggles, AgentInfo};
use skills_manager::scenarios::{
    collect_scenario_sync_targets, desired_target_action, ensure_scenario_exists, obsolete_targets,
    AgentTarget, ScenarioSkill, ScenarioSyncTarget, TargetAction,
};
use skills_manager::scenarios::{unsync_step, UnsyncStep};
use skills_manager::skills::SkillTargetRecord;

fn agent(key: &str, installed: bool) -> AgentInfo {
    AgentInfo { key: key.to_string(), display_name: key.to_uppercase(), installed }
}

fn record(skill: &str, tool: &str, path: &str, mode: &str, status: &str) -> SkillTargetRecord {
    SkillTargetRecord {
        id: format!("{skill}-{tool}"),
        skill_id: skill.to_string(),
        tool: tool.to_string(),
        target_path: path.to_string(),
        mode: mode.to_string(),
        status: status.to_string(),
        synced_at: None,
        last_error: None,
        source_hash: None,
    }
}

fn desired(skill: &str, tool: &str, target: &str) -> ScenarioSyncTarget {
    ScenarioSyncTarget {
        skill_id: skill.to_string(),
        tool: tool.to_string(),
        source: format!("/c/{skill}"),
        target: target.to_string(),
        mode: "copy".to_string(),
    }
}

#[test]
fn agent_configs_name_their_scenario() {
    let scenarios = vec![("p1".to_string(), "Web".to_string())];
    let a = agent("cursor", true);
    let dto = agent_config_dto("cursor", Some("p1".to_string()), true, Some(&a), &scenarios, 4, 1);
    assert_eq!(dto.display_name, "CURSOR");
    assert_eq!(dto.scenario_name.as_deref(), Some("Web"));
    assert!(dto.installed);
    let unknown = agent_config_dto("ghost", Some("zz".to_string()), false, None, &scenarios, 0, 0);
    assert_eq!(unknown.display_name, "ghost");
    assert_eq!(unknown.scenario_name, None);
    assert!(!unknown.installed);
}

#[test]
fn toggles_follow_installation_and_the_global_switch() {
    let adapters = vec![agent("a", true), agent("b", false), agent("c", true)];
    let disabled = vec!["c".to_string()];
    assert_eq!(default_enabled_tools(&adapters, &disabled), vec!["a".to_string()]);
    let toggles = vec![("a".to_string(), false), ("b".to_string(), true), ("a".to_string(), true), ("c".to_string(), true)];
    let shown = skill_tool_toggles(&adapters, &disabled, &toggles);
    assert!(shown[0].enabled);
    assert!(!shown[1].enabled);
    assert!(!shown[2].enabled);
    assert!(!shown[2].globally_enabled);
    assert!(check_tool_toggle(true, Some(&adapters[0]), "a", &disabled, true).is_ok());
    assert_eq!(check_tool_toggle(false, None, "a", &disabled, true).err().unwrap().message, "Skill is not enabled in this preset");
    assert_eq!(check_tool_toggle(true, None, "zz", &disabled, true).err().unwrap().message, "Unknown tool: zz");
    assert_eq!(check_tool_toggle(true, Some(&adapters[1]), "b", &disabled, true).err().unwrap().message, "B is not installed");
    assert_eq!(check_tool_toggle(true, Some(&adapters[2]), "c", &disabled, true).err().unwrap().message, "C is disabled");
    assert!(check_tool_toggle(true, Some(&adapters[2]), "c", &disabled, false).is_ok());
}

#[test]
fn scenario_targets_and_switching() {
    assert!(ensure_scenario_exists(&["a".to_string()], "a").is_ok());
    assert_eq!(ensure_scenario_exists(&["a".to_string()], "b").err().unwrap().message, "Scenario not found");

    let skills = vec![
        ScenarioSkill { id: "s1".to_string(), source: "/c/s1".to_string(), target_name: "skill123".to_string() },
        ScenarioSkill { id: "s2".to_string(), source: "/c/s2".to_string(), target_name: "skill123-2".to_string() },
    ];
    let agents = vec![
        vec![AgentTarget { key: "x".to_string(), skills_dir: "/x/skills".to_string(), mode: "copy".to_string() }],
        vec![
            AgentTarget { key: "x".to_string(), skills_dir: "/x/skills".to_string(), mode: "copy".to_string() },
            AgentTarget { key: "y".to_string(), skills_dir: "/y/skills/".to_string(), mode: "symlink".to_string() },
        ],
    ];
    let targets = collect_scenario_sync_targets(&skills, &agents);
    assert_eq!(targets.len(), 3);
    assert_eq!(targets[0].target, "/x/skills/skill123");
    assert_eq!(targets[1].target, "/x/skills/skill123-2");
    assert_eq!(targets[2].target, "/y/skills/skill123-2");
    assert_eq!(targets[2].mode, "symlink");

    let existing = vec![record("s1", "x", "/x/skills/skill123", "copy", "ok")];
    assert_eq!(desired_target_action(&targets[0], &existing, true), TargetAction::Keep);
    assert_eq!(desired_target_action(&targets[0], &existing, false), TargetAction::Sync);
    assert_eq!(desired_target_action(&targets[1], &existing, true), TargetAction::Sync);
    let moved = vec![record("s1", "x", "/old/skill123", "copy", "ok")];
    assert_eq!(desired_target_action(&targets[0], &moved, true), TargetAction::ReplaceStale);
    let same_path_spelled_otherwise = vec![record("s1", "x", "/x/skills//skill123/", "copy", "ok")];
    assert_eq!(desired_target_action(&targets[0], &same_path_spelled_otherwise, true), TargetAction::Keep);

    let old = vec![
        record("shared", "x", "/x/skills/shared", "copy", "ok"),
        record("old-only", "x", "/x/skills/old-only", "copy", "ok"),
    ];
    let wanted = vec![desired("shared", "x", "/x/skills/shared"), desired("new-only", "x", "/x/skills/new-only")];
    assert_eq!(obsolete_targets(&old, &wanted), vec![false, true]);
}

#[test]
fn turning_a_skill_off_keeps_shared_paths() {
    let skill_targets = vec![record("s1", "cursor", "/shared/s1", "copy", "ok"), record("s1", "zed", "/zed/s1", "copy", "ok")];
    let all = vec![
        record("s1", "cursor", "/shared/s1", "copy", "ok"),
        record("s1", "zed", "/zed/s1", "copy", "ok"),
        record("s2", "amp", "/shared/s1", "copy", "ok"),
    ];
    assert_eq!(unsync_step(&skill_targets, &all, "s1", "cursor"), UnsyncStep::KeepShared(0));
    assert_eq!(unsync_step(&skill_targets, &all, "s1", "zed"), UnsyncStep::Remove(1));
    assert_eq!(unsync_step(&skill_targets, &all, "s1", "codex"), UnsyncStep::NoTarget);
}

fn scenario_record(id: &str, name: &str) -> skills_manager::presets::ScenarioRecord {
    skills_manager::presets::ScenarioRecord {
        id: id.to_string(),
        name: name.to_string(),
        description: Some(format!("{name} skills")),
        icon: None,
        sort_order: 1,
        created_at: 10,
        updated_at: 20,
    }
}

#[test]
fn scenarios_are_listed_with_their_counts() {
    let list = vec![scenario_record("a", "Web"), scenario_record("b", "Data")];
    let counts = vec![Some(3), None];
    let dtos = get_scenarios(&list, &counts);
    assert_eq!(dtos.len(), 2);
    assert_eq!((dtos[0].id.as_str(), dtos[0].skill_count), ("a", 3));
    assert_eq!((dtos[1].name.as_str(), dtos[1].skill_count), ("Data", 0));
    assert_eq!(dtos[0].description.as_deref(), Some("Web skills"));
    let active = get_active_scenario(&list, &counts, Some("b")).unwrap();
    assert_eq!(active.id, "b");
    assert!(get_active_scenario(&list, &counts, Some("zzz")).is_none());
    assert!(get_active_scenario(&list, &counts, None).is_none());
}

#[test]
fn a_new_scenario_is_last_empty_and_replaces_the_active_one() {
    let n = create_scenario("id9", "New", None, Some("star".to_string()), 77, Some("old"));
    assert_eq!(n.record.sort_order, 999);
    assert_eq!(n.record.created_at, 77);
    assert_eq!(n.dto.skill_count, 0);
    assert_eq!(n.dto.icon.as_deref(), Some("star"));
    assert_eq!(n.unsync.as_deref(), Some("old"));
    assert!(create_scenario("id9", "New", None, None, 77, None).unsync.is_none());
}

#[test]
fn deleting_the_active_scenario_activates_the_first_remaining() {
    let remaining = vec![scenario_record("b", "Data")];
    assert_eq!(delete_scenario(Some("a"), "a", &remaining), AfterScenarioDelete::Activate(0));
    assert_eq!(delete_scenario(Some("a"), "a", &Vec::new()), AfterScenarioDelete::ClearActive);
    assert_eq!(delete_scenario(Some("b"), "a", &remaining), AfterScenarioDelete::KeepActive);
    assert_eq!(delete_scenario(None, "a", &remaining), AfterScenarioDelete::KeepActive);
}

#[test]
fn applying_and_adding_follow_the_active_scenario() {
    assert_eq!(scenario_to_unsync_before_apply(Some("old"), "new").as_deref(), Some("old"));
    assert!(scenario_to_unsync_before_apply(Some("new"), "new").is_none());
    assert!(scenario_to_unsync_before_apply(None, "new").is_none());
    assert!(deploys_on_add(Some("s"), "s"));
    assert!(!deploys_on_add(Some("t"), "s"));
    assert!(!deploys_on_add(None, "s"));
    let old = vec![
        record("k", "cursor", "/c/skills/old-name", "copy", "ok"),
        record("k", "codex", "/cx/skills/k", "copy", "ok"),
    ];
    assert_eq!(stale_target_for(&old, "cursor", "/c/skills/new-name"), Some(0));
    assert_eq!(stale_target_for(&old, "codex", "/cx/skills/k"), None);
    assert_eq!(stale_target_for(&old, "windsurf", "/x"), None);
}

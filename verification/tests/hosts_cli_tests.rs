use skills_manager::cli::{classify_ref, expand_path, is_skillssh_shorthand, parse_skillssh_shorthand, InstallKind};
use skills_manager::hosts::{
    check_new_ssh_host, host_agent_dto, host_to_dto, ssh_connection_label, HostAgentMetadata,
    HostAgentRecord, HostRecord, SshHostConfig,
};

fn config(target: &str, host: Option<&str>, user: Option<&str>, port: Option<u16>) -> SshHostConfig {
    SshHostConfig {
        ssh_target: target.to_string(),
        host_name: host.map(|s| s.to_string()),
        user: user.map(|s| s.to_string()),
        port,
    }
}

fn host(name: &str) -> HostRecord {
    HostRecord {
        id: format!("id-{name}"),
        name: name.to_string(),
        host_type: "ssh".to_string(),
        config_json: "{}".to_string(),
        status: "connected".to_string(),
        created_at: 1,
        updated_at: 2,
    }
}

#[test]
fn connection_labels() {
    assert_eq!(ssh_connection_label(&config("box", Some("10.0.0.1"), Some("me"), Some(2222))), "me@10.0.0.1:2222");
    assert_eq!(ssh_connection_label(&config("box", None, Some("me"), None)), "me@box");
    assert_eq!(ssh_connection_label(&config("box", None, None, Some(22))), "box:22");
    assert_eq!(ssh_connection_label(&config("box", None, None, None)), "box");
}

#[test]
fn host_dtos_sum_agent_skills() {
    let agent = |t: &str| HostAgentRecord {
        agent_type: t.to_string(),
        skill_path: format!("/{t}"),
        status: "ok".to_string(),
        metadata_json: None,
    };
    let with_meta = (agent("cursor"), Some(HostAgentMetadata { display_name: "Cursor".to_string(), skill_count: 3 }));
    let without = (agent("codex"), None);
    let d = host_agent_dto(&without.0, &without.1);
    assert_eq!(d.display_name, "codex");
    assert_eq!(d.skill_count, 0);
    let dto = host_to_dto(&host("box"), &config("box", None, Some("me"), None), &vec![with_meta, without]);
    assert_eq!(dto.agent_count, 2);
    assert_eq!(dto.skill_count, 3);
    assert_eq!(dto.platform, "ssh");
    assert_eq!(dto.user.as_deref(), Some("me"));
    assert_eq!(dto.connection_label, "me@box");
    assert_eq!(dto.agents[0].display_name, "Cursor");
}

#[test]
fn new_hosts_must_be_unique() {
    let existing = vec![(host("Box"), Some(config("me@box", None, None, None))), (host("Other"), None)];
    assert_eq!(check_new_ssh_host(" new ", " me@new ", &existing).unwrap(), ("new".to_string(), "me@new".to_string()));
    assert_eq!(check_new_ssh_host("", "t", &existing).err().unwrap().message, "Name and SSH target are required");
    assert_eq!(check_new_ssh_host("BOX", "t", &existing).err().unwrap().message, "Host name already exists: BOX");
    assert_eq!(check_new_ssh_host("x", "me@box", &existing).err().unwrap().message, "SSH target already exists: me@box");
}

#[test]
fn references_are_classified() {
    assert_eq!(classify_ref("./dir", false, false, false).unwrap(), InstallKind::Local);
    assert_eq!(classify_ref("~/dir", false, false, false).unwrap(), InstallKind::Local);
    assert_eq!(classify_ref("https://github.com/a/b", false, false, false).unwrap(), InstallKind::Git);
    assert_eq!(classify_ref("git@github.com:a/b", false, false, false).unwrap(), InstallKind::Git);
    assert_eq!(classify_ref("a/b.git", false, false, false).unwrap(), InstallKind::Git);
    assert_eq!(classify_ref("owner/repo@skill", false, false, false).unwrap(), InstallKind::Skillssh);
    assert_eq!(classify_ref("owner/repo/skill", false, false, false).unwrap(), InstallKind::Skillssh);
    assert_eq!(classify_ref("anything", true, true, true).unwrap(), InstallKind::Local);
    assert_eq!(classify_ref("anything", false, true, true).unwrap(), InstallKind::Git);
    assert_eq!(
        classify_ref("just-a-word", false, false, false).err().unwrap().message,
        "ambiguous ref 'just-a-word'; pass --local, --git, or --skillssh to disambiguate"
    );
}

#[test]
fn shorthands() {
    assert!(is_skillssh_shorthand("owner/repo"));
    assert!(is_skillssh_shorthand("ow_n.er/re-po/sk1ll"));
    assert!(is_skillssh_shorthand("owner/repo@skill"));
    assert!(!is_skillssh_shorthand("owner/repo@bad skill"));
    assert!(!is_skillssh_shorthand("a/b/c/d"));
    assert!(!is_skillssh_shorthand("solo"));
    assert!(!is_skillssh_shorthand("a//b"));
    assert_eq!(parse_skillssh_shorthand("o/r@s").unwrap(), ("o/r".to_string(), "s".to_string()));
    assert_eq!(parse_skillssh_shorthand("o/r").unwrap(), ("o/r".to_string(), "r".to_string()));
    assert_eq!(parse_skillssh_shorthand("o/r/s").unwrap(), ("o/r".to_string(), "s".to_string()));
    assert_eq!(
        parse_skillssh_shorthand("o@s").err().unwrap().message,
        "invalid shorthand: 'o@s' (expected owner/repo@skill)"
    );
    assert_eq!(parse_skillssh_shorthand("o").err().unwrap().message, "invalid shorthand: 'o'");
}

#[test]
fn paths_expand_the_home_directory() {
    assert_eq!(expand_path("~/x/y", Some("/home/me")).unwrap(), "/home/me/x/y");
    assert_eq!(expand_path("~", Some("/home/me")).unwrap(), "/home/me");
    assert_eq!(expand_path("rel/p", None).unwrap(), "rel/p");
    assert!(expand_path("~/x", None).is_err());
}

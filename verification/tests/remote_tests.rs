use skills_manager::remote::{
    description_from_output, find_machine, is_skill_marker, marketplace_repo_url,
    parse_remote_agent_skill_line, remote_agent_skills_dir, remote_agent_skills_from_listing,
    remote_center_keys, remote_join, remote_parent_dir, remote_path_expr, remote_skill_dir,
    remote_skill_entry, remote_skill_name, remove_machine, safe_remote_relative_path,
    safe_remote_skill_name, shell_quote, sort_remote_skills, split_exec, upsert_machine_with_id,
    upsert_remote_machine, validate_git_repo_url, validate_remote_input, RemoteMachine,
    RemoteSkill,
};

fn machine(id: &str, name: &str) -> RemoteMachine {
    RemoteMachine {
        id: id.to_string(),
        name: name.to_string(),
        ssh_target: "user@host".to_string(),
        skills_dir: "~/skills".to_string(),
    }
}

#[test]
fn remote_input_is_checked_in_order() {
    assert!(validate_remote_input("box", "me@box", "~/skills").is_ok());
    assert!(validate_remote_input("box", "me@box", "/srv/skills").is_ok());
    let msg = |n: &str, t: &str, d: &str| validate_remote_input(n, t, d).err().unwrap().message;
    assert_eq!(msg(" ", "t", "/d"), "Remote machine name is required");
    assert_eq!(msg("n", "", "/d"), "SSH target is required");
    assert_eq!(msg("n", "t", " "), "Remote skills path is required");
    assert_eq!(msg("n", "a b", "/d"), "Remote machine fields contain invalid characters");
    assert_eq!(msg("n", " -oProxy", "/d"), "Remote machine fields contain invalid characters");
    assert_eq!(msg("n\u{7}", "t", "/d"), "Remote machine fields contain invalid characters");
    assert_eq!(msg("n", "t", "skills"), "Remote skills path must be absolute or start with ~/");
}

#[test]
fn shell_quoting_survives_single_quotes() {
    assert_eq!(shell_quote("plain"), "'plain'");
    assert_eq!(shell_quote("it's"), "'it'\"'\"'s'");
    assert_eq!(shell_quote(""), "''");
}

#[test]
fn remote_paths_expand_home() {
    assert_eq!(remote_path_expr("~"), "$HOME");
    assert_eq!(remote_path_expr("~/a b"), "$HOME/'a b'");
    assert_eq!(remote_path_expr("/srv/x"), "'/srv/x'");
}

#[test]
fn remote_join_uses_one_slash() {
    assert_eq!(remote_join("/a//", "//b/c"), "/a/b/c");
    assert_eq!(remote_join("/a", "b"), "/a/b");
    assert_eq!(remote_skill_dir(&machine("1", "m"), "  tool "), "~/skills/tool");
}

#[test]
fn agent_dirs_on_remote_machines() {
    assert_eq!(remote_agent_skills_dir(true, Some("/custom"), ".x/skills"), "/custom");
    assert_eq!(remote_agent_skills_dir(false, Some("/custom"), ".x/skills"), "~/.x/skills");
    assert_eq!(remote_agent_skills_dir(false, None, "/abs/skills"), "/abs/skills");
}

#[test]
fn remote_skill_names_and_paths_are_checked() {
    assert_eq!(safe_remote_skill_name("  tool ").unwrap(), "tool");
    assert!(safe_remote_skill_name("a/b").is_err());
    assert!(safe_remote_skill_name("a\\b").is_err());
    assert!(safe_remote_skill_name("  ").is_err());
    assert_eq!(safe_remote_relative_path(" cat/tool ").unwrap(), "cat/tool");
    for bad in ["", "/abs", "a//b", "a/./b", "../x", "a\\b", "a/"] {
        assert_eq!(
            safe_remote_relative_path(bad).err().unwrap().message,
            "Invalid remote skill path"
        );
    }
}

#[test]
fn listing_lines_are_split_into_fields() {
    let line = parse_remote_agent_skill_line("cat/tool\ttool\t  A tool \ta.md|b/c.md| |").unwrap();
    assert_eq!(line.relative_path, "cat/tool");
    assert_eq!(line.name, "tool");
    assert_eq!(line.description.as_deref(), Some("A tool"));
    assert_eq!(line.files, vec!["a.md".to_string(), "b/c.md".to_string()]);
    let short = parse_remote_agent_skill_line("tool\ttool").unwrap();
    assert_eq!(short.description, None);
    assert!(short.files.is_empty());
    assert!(parse_remote_agent_skill_line("only-one-field").is_none());
    let tabs = parse_remote_agent_skill_line("a\tb\t\tf\tg").unwrap();
    assert_eq!(tabs.files, vec!["f\tg".to_string()]);
}

#[test]
fn split_follows_str_split() {
    for (s, c) in [("a/b/c", '/'), ("", '/'), ("/x/", '/'), ("a||b", '|')] {
        let expected: Vec<String> = s.split(c).map(|p| p.to_string()).collect();
        assert_eq!(split_exec(s, c), expected);
    }
}

#[test]
fn agent_skills_listing_is_read_and_sorted() {
    let output = "b/Zeta\tZeta\tLast\t\n\nalpha\talpha\t\tSKILL.md|\nbroken\n";
    let keys = remote_center_keys("  alpha \n\nother\n");
    assert_eq!(keys, vec!["alpha".to_string(), "other".to_string()]);
    let skills = remote_agent_skills_from_listing(output, &keys, "~/.agent/skills", "agent", "Agent");
    assert_eq!(skills.len(), 2);
    assert_eq!(skills[0].name, "alpha");
    assert!(skills[0].in_center);
    assert_eq!(skills[0].sync_status, "in_sync");
    assert_eq!(skills[0].path, "~/.agent/skills/alpha");
    assert_eq!(skills[0].files, vec!["SKILL.md".to_string()]);
    assert_eq!(skills[1].name, "Zeta");
    assert_eq!(skills[1].dir_name, "Zeta");
    assert!(!skills[1].in_center);
    assert_eq!(skills[1].sync_status, "project_only");
    assert_eq!(skills[1].description.as_deref(), Some("Last"));
}

#[test]
fn remote_skills_sort_by_lowercase_name_stably() {
    let mk = |n: &str, p: &str| RemoteSkill { name: n.to_string(), path: p.to_string(), description: None };
    let sorted = sort_remote_skills(vec![mk("b", "1"), mk("A", "2"), mk("a", "3"), mk("B", "4")]);
    let paths: Vec<&str> = sorted.iter().map(|s| s.path.as_str()).collect();
    assert_eq!(paths, vec!["2", "3", "1", "4"]);
}

#[test]
fn remote_listing_helpers() {
    assert_eq!(remote_skill_name("/srv/skills/tool"), "tool");
    assert_eq!(remote_skill_name("/srv/skills/"), "/srv/skills/");
    assert_eq!(remote_skill_entry("/s/t", None).name, "t");
    assert_eq!(description_from_output("  hi \n"), Some("hi".to_string()));
    assert_eq!(description_from_output(" \n"), None);
    assert!(is_skill_marker(" yes\n"));
    assert!(!is_skill_marker("no"));
    assert_eq!(remote_parent_dir("~/skills/tool/", "~/skills"), "~/skills");
    assert_eq!(remote_parent_dir("tool", "~/skills"), "~/skills");
}

#[test]
fn machine_list_upserts_and_removes() {
    let list = vec![machine("a", "A"), machine("b", "B")];
    assert_eq!(find_machine(&list, "b").unwrap(), 1);
    assert_eq!(find_machine(&list, "z").err().unwrap().message, "Remote machine not found");

    let replaced = RemoteMachine {
        id: " b ".to_string(),
        name: " New ".to_string(),
        ssh_target: "x@y".to_string(),
        skills_dir: "/d".to_string(),
    };
    let (list2, stored) = upsert_machine_with_id(list, &replaced, "fresh");
    assert_eq!(stored.id, "b");
    assert_eq!(list2.len(), 2);
    assert_eq!(list2[1].name, "New");

    let added = RemoteMachine { id: "".to_string(), ..machine("", "C") };
    let (list3, stored3) = upsert_machine_with_id(list2, &added, "fresh");
    assert_eq!(stored3.id, "fresh");
    assert_eq!(list3.len(), 3);
    assert_eq!(find_machine(&list3, "fresh").unwrap(), 2);

    let list4 = remove_machine(list3, "b");
    assert_eq!(list4.len(), 2);
    assert!(find_machine(&list4, "b").is_err());
}

#[test]
fn upserting_with_a_blank_id_draws_a_fresh_one() {
    let (list, stored) = upsert_remote_machine(vec![], &machine("", "M")).unwrap();
    assert_eq!(list.len(), 1);
    assert_eq!(stored.id.len(), 36);
    for (i, c) in stored.id.chars().enumerate() {
        if [8, 13, 18, 23].contains(&i) {
            assert_eq!(c, '-');
        } else {
            assert!(c.is_ascii_digit() || ('a'..='f').contains(&c));
        }
    }
    assert_eq!(list[0].id, stored.id);
    assert!(upsert_remote_machine(vec![], &RemoteMachine { skills_dir: "rel".to_string(), ..machine("", "M") }).is_err());
}

#[test]
fn install_sources_are_checked() {
    assert!(validate_git_repo_url("https://x/y.git").is_ok());
    assert!(validate_git_repo_url("  ").is_err());
    assert!(validate_git_repo_url("https://x\n").is_err());
    assert_eq!(marketplace_repo_url(" owner/repo ", "skill").unwrap(), "https://github.com/owner/repo.git");
    assert_eq!(
        marketplace_repo_url("owner/repo", " ").err().unwrap().message,
        "Marketplace skill source is required"
    );
}

use skills_manager::translation_service::chat_response;
use skills_manager::translation_service::{member_strings, JsonNode};
use skills_manager::markdown::markdown_structure_signature;
use skills_manager::error::ErrorKind;
use skills_manager::markdown::{signature_from_events, MarkdownEvent};
use skills_manager::skills::{rel_key_from, ParsedGitSource, SkillRecord};
use skills_manager::translation_service::{units_from_array, units_from_members};
use skills_manager::updates::{update_git_skill_internal, GitUpdateEvent, GitUpdateStep};

fn member(k: &str, v: Option<&str>) -> (String, Option<String>) {
    (k.to_string(), v.map(|s| s.to_string()))
}

#[test]
fn units_come_from_the_object_members_in_order() {
    let members = vec![member("unit_1", Some("B")), member("unit_0", Some("A"))];
    assert_eq!(units_from_members(&members, 2).unwrap(), vec!["A".to_string(), "B".to_string()]);
    let e = units_from_members(&vec![member("unit_0", Some("A")), member("unit_1", None)], 2).unwrap_err();
    assert_eq!((e.kind, e.message.as_str()), (ErrorKind::Network, "AI translation response is missing string key unit_1"));
    let e = units_from_members(&vec![member("unit_0", Some("A")), member("x", Some("B"))], 1).unwrap_err();
    assert_eq!(e.message, "AI translation response contains 2 unit IDs, expected 1");
    assert_eq!(units_from_array(Ok(vec!["a".to_string()]), 1).unwrap(), vec!["a".to_string()]);
    let e = units_from_array(Ok(vec!["a".to_string()]), 3).unwrap_err();
    assert_eq!(e.message, "AI returned 1 translated segments, but the source contains 3 segments");
}

#[test]
fn directory_keys_come_from_what_path_gives() {
    assert_eq!(rel_key_from("/r/a/b", Some("a\\b".to_string()), Some("b".to_string())), "a/b");
    assert_eq!(rel_key_from("/r", Some(String::new()), Some("r".to_string())), "r");
    assert_eq!(rel_key_from("/x/y", None, Some("y".to_string())), "/x/y");
    assert_eq!(rel_key_from("/", Some(String::new()), None), "");
}

#[test]
fn signatures_keep_the_structure_of_the_events() {
    let events = vec![
        MarkdownEvent::Heading(2),
        MarkdownEvent::Text("Hello".to_string()),
        MarkdownEvent::Paragraph,
        MarkdownEvent::Code("x".to_string()),
        MarkdownEvent::Rule,
    ];
    let sig = signature_from_events(&events);
    assert_eq!(sig.len(), 4);
    assert!(signature_from_events(&vec![MarkdownEvent::Text("t".to_string())]).is_empty());
}

fn git_skill(source_type: &str, source_ref: &str) -> SkillRecord {
    SkillRecord {
        id: "s1".to_string(),
        name: "demo".to_string(),
        description: None,
        source_type: source_type.to_string(),
        source_ref: Some(source_ref.to_string()),
        source_ref_resolved: None,
        source_subpath: None,
        source_branch: Some("dev".to_string()),
        source_revision: None,
        remote_revision: None,
        central_path: "/c/demo".to_string(),
        content_hash: None,
        enabled: true,
        created_at: 0,
        updated_at: 0,
        status: "ok".to_string(),
        update_status: "unknown".to_string(),
        last_checked_at: None,
        last_check_error: None,
    }
}

#[test]
fn updates_fetch_from_the_source_the_skill_resolves_to() {
    let g = git_skill("git", "https://github.com/o/r/tree/main/skills/demo");
    let parsed = ParsedGitSource {
        clone_url: "https://github.com/o/r.git".to_string(),
        branch: Some("main".to_string()),
        subpath: Some("skills/demo".to_string()),
    };
    match update_git_skill_internal(Some(&g), Some(parsed), GitUpdateEvent::Start).unwrap() {
        GitUpdateStep::ResolveRemote { source } => {
            assert_eq!(source.clone_url, "https://github.com/o/r.git");
            assert_eq!(source.branch.as_deref(), Some("dev"));
            assert_eq!(source.subpath.as_deref(), Some("skills/demo"));
            assert!(source.locator_skill_id.is_none());
        }
        other => panic!("unexpected {other:?}"),
    }
    let s = git_skill("skillssh", "owner/repo/pdf");
    match update_git_skill_internal(Some(&s), None, GitUpdateEvent::Start).unwrap() {
        GitUpdateStep::ResolveRemote { source } => {
            assert_eq!(source.clone_url, "https://github.com/owner/repo.git");
            assert_eq!(source.locator_skill_id.as_deref(), Some("pdf"));
        }
        other => panic!("unexpected {other:?}"),
    }
    let bad = git_skill("skillssh", "noslash");
    let e = update_git_skill_internal(Some(&bad), None, GitUpdateEvent::Start).unwrap_err();
    assert_eq!(e.message, "Invalid skills.sh source reference");
}

#[test]
fn chat_answers_are_read_at_their_pointers() {
    let r = chat_response(r#"{"choices":[{"message":{"content":"hi"}}]}"#).unwrap();
    assert_eq!(r.content_text.as_deref(), Some("hi"));
    assert!(r.content_parts.is_none() && r.error_message.is_none());
    let r = chat_response(r#"{"choices":[{"message":{"content":[{"text":"a"},{"type":"x"},{"text":"b"}]}}]}"#).unwrap();
    assert!(r.content_text.is_none());
    assert_eq!(r.content_parts, Some(vec![Some("a".to_string()), None, Some("b".to_string())]));
    let r = chat_response(r#"{"error":{"message":"quota"}}"#).unwrap();
    assert_eq!(r.error_message.as_deref(), Some("quota"));
    assert!(chat_response("not json").is_none());
}

#[test]
fn object_members_keep_strings_only() {
    let nodes = vec![
        ("unit_0".to_string(), JsonNode::Str("A".to_string())),
        ("unit_1".to_string(), JsonNode::Number("3".to_string())),
        ("unit_2".to_string(), JsonNode::Null),
    ];
    assert_eq!(
        member_strings(&nodes),
        vec![("unit_0".to_string(), Some("A".to_string())), ("unit_1".to_string(), None), ("unit_2".to_string(), None)]
    );
}

#[test]
fn autolinks_are_left_out_of_signatures() {
    let sig = signature_from_events(&vec![
        MarkdownEvent::Link("Autolink".to_string(), "https://x".to_string()),
        MarkdownEvent::Link("Email".to_string(), "a@b".to_string()),
        MarkdownEvent::Link("Inline".to_string(), "https://y".to_string()),
    ]);
    assert_eq!(sig, vec!["link:https://y".to_string()]);
    assert_eq!(markdown_structure_signature("<https://x> [y](https://y)"), markdown_structure_signature("<https://z> [w](https://y)"));
}

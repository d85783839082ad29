use skills_manager::logs::{collapse_consecutive_repeats, sanitize_home};
use skills_manager::skill_commands::delete_managed_skills_by_ids;
use skills_manager::skills::{SkillRecord, SkillTargetRecord};
use skills_manager::translation::{apply_translated_segments, build_translation_batches, collect_markdown_text_segments};

fn rec(id: &str) -> SkillRecord {
    SkillRecord {
        id: id.to_string(),
        name: id.to_string(),
        description: None,
        source_type: "local".to_string(),
        source_ref: None,
        source_ref_resolved: None,
        source_subpath: None,
        source_branch: None,
        source_revision: None,
        remote_revision: None,
        central_path: format!("/c/{id}"),
        content_hash: None,
        enabled: true,
        created_at: 0,
        updated_at: 0,
        status: "ok".to_string(),
        update_status: "local_only".to_string(),
        last_checked_at: None,
        last_check_error: None,
    }
}

fn tgt(skill_id: &str, tool: &str) -> SkillTargetRecord {
    SkillTargetRecord {
        id: format!("{skill_id}-{tool}"),
        skill_id: skill_id.to_string(),
        tool: tool.to_string(),
        target_path: format!("/a/{tool}/{skill_id}"),
        mode: "symlink".to_string(),
        status: "ok".to_string(),
        synced_at: None,
        last_error: None,
        source_hash: None,
    }
}

#[test]
fn deleting_by_ids_removes_exactly_the_named_skills_and_their_deployments() {
    let skills = vec![rec("a"), rec("b"), rec("c")];
    let targets = vec![tgt("a", "x"), tgt("b", "x"), tgt("a", "y"), tgt("zz", "x")];
    let ids = vec!["a".to_string(), "missing".to_string(), "a".to_string(), "c".to_string()];
    let d = delete_managed_skills_by_ids(&skills, &targets, &ids);
    assert_eq!(d.result.deleted, 2);
    assert_eq!(d.result.failed, vec!["missing".to_string(), "a".to_string()]);
    assert_eq!(d.skills, vec![0, 2]);
    assert_eq!(d.targets, vec![0, 2]);
}

#[test]
fn own_texts_put_back_give_the_document() {
    let doc = "---\ntitle: x\n---\n# Title\r\n\nSome text here.\n\n```\ncode\n```\n- item one\n";
    let segs = collect_markdown_text_segments(doc);
    assert!(!segs.is_empty());
    for s in &segs {
        assert!(!s.text.is_empty());
        assert!(!s.text.ends_with('\n') && !s.text.ends_with('\r'));
    }
    let own: Vec<String> = segs.iter().map(|s| s.text.clone()).collect();
    assert_eq!(apply_translated_segments(doc, &segs, &own).unwrap(), doc);
    assert!(apply_translated_segments(doc, &segs, &own[1..]).is_err());
}

#[test]
fn batches_stay_within_the_limit_unless_single() {
    let texts = ["aaaa", "bb", "cccccccc", "d", "e"];
    let b = build_translation_batches(&texts, 5);
    assert_eq!(b.first().unwrap().start, 0);
    assert_eq!(b.last().unwrap().end, texts.len());
    for w in b.windows(2) {
        assert_eq!(w[0].end, w[1].start);
    }
    for r in &b {
        let chars: usize = texts[r.clone()].iter().map(|t| t.chars().count()).sum();
        assert!(r.start < r.end && (chars <= 5 || r.len() == 1));
    }
    assert!(build_translation_batches(&[], 5).is_empty());
}

#[test]
fn runs_fold_one_by_one() {
    let text = "a\na\na\na\nb\nc\nc";
    assert_eq!(
        collapse_consecutive_repeats(text),
        "a\n... (line above repeated 3 more times)\nb\nc\nc"
    );
    assert_eq!(collapse_consecutive_repeats(""), "");
}

#[test]
fn the_home_directory_is_hidden() {
    assert_eq!(sanitize_home("/home/ann/.skills and /home/ann/x", "/home/ann"), "~/.skills and ~/x");
    assert_eq!(sanitize_home("nothing here", "/home/ann"), "nothing here");
    assert_eq!(sanitize_home("/home/ann", ""), "/home/ann");
}

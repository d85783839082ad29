use std::io::{Read, Write};
use std::path::{Path, PathBuf};

use skills_manager::skills::{collect_git_skill_dirs, skill_rel_key};
use skills_manager::translation_service::translation_cache_path;
use tempfile::{tempdir, Builder, NamedTempFile};

/// Creates the directory `name` in `parent` (where it is not there yet).
fn make_dir(parent: &Path, name: &str) -> PathBuf {
    let path = parent.join(name);
    if !path.exists() {
        Builder::new().prefix(name).rand_bytes(0).keep(true).tempdir_in(parent).unwrap();
    }
    path
}

/// Creates the file `stem` + `suffix` in `dir` holding `content`.
fn make_file(dir: &Path, stem: &str, suffix: &str, content: &str) -> NamedTempFile {
    let mut file = Builder::new().prefix(stem).suffix(suffix).rand_bytes(0).keep(true).tempfile_in(dir).unwrap();
    file.write_all(content.as_bytes()).unwrap();
    file
}

fn write_skill_at(root: &Path, rel: &str) -> PathBuf {
    let mut dir = root.to_path_buf();
    for part in rel.split('/') {
        dir = make_dir(&dir, part);
    }
    let basename = dir.file_name().unwrap().to_string_lossy().to_string();
    make_file(&dir, "SKILL", ".md", &format!("---\nname: {basename}\n---\n"));
    dir
}

fn is_skill_dir(dir: &Path) -> bool {
    dir.join("SKILL.md").is_file() || dir.join("skill.md").is_file()
}

/// The skill directories under `root`, as the repository scan finds them.
fn scan(root: &Path) -> Vec<String> {
    walkdir::WalkDir::new(root)
        .min_depth(1)
        .max_depth(4)
        .into_iter()
        .flatten()
        .filter(|e| e.file_type().is_dir() && is_skill_dir(e.path()))
        .map(|e| e.path().to_string_lossy().to_string())
        .collect()
}

fn collect(root: &Path) -> Vec<String> {
    let root_s = root.to_string_lossy().to_string();
    collect_git_skill_dirs(&root_s, is_skill_dir(root), scan(root))
}

#[test]
fn collect_git_skill_dirs_finds_nested_categories() {
    let tmp = tempdir().unwrap();
    let root = tmp.path();
    write_skill_at(root, "in-progress/foo");
    write_skill_at(root, "in-progress/bar");
    write_skill_at(root, "stable/baz");
    let dirs = collect(root);
    let root_s = root.to_string_lossy().to_string();
    let keys: Vec<String> = dirs.iter().map(|d| skill_rel_key(&root_s, d)).collect();
    assert_eq!(dirs.len(), 3, "should find skills two levels deep");
    assert!(keys.contains(&"in-progress/foo".to_string()));
    assert!(keys.contains(&"in-progress/bar".to_string()));
    assert!(keys.contains(&"stable/baz".to_string()));
}

#[test]
fn collect_git_skill_dirs_returns_self_when_root_is_skill() {
    let tmp = tempdir().unwrap();
    let root = tmp.path();
    make_file(root, "SKILL", ".md", "---\nname: x\n---");
    assert_eq!(collect(root), vec![root.to_string_lossy().to_string()]);
}

#[test]
fn collect_git_skill_dirs_returns_empty_when_no_skills() {
    let tmp = tempdir().unwrap();
    let root = tmp.path();
    make_dir(root, "empty-category");
    assert!(collect(root).is_empty(), "no fallback to scan root when empty");
}

#[test]
fn skill_rel_key_uses_forward_slashes() {
    let tmp = tempdir().unwrap();
    let root = tmp.path().join("repo");
    let nested = root.join("a").join("b");
    let key = skill_rel_key(&root.to_string_lossy(), &nested.to_string_lossy());
    assert_eq!(key, "a/b");
}

#[test]
fn skill_rel_key_disambiguates_same_basename_across_categories() {
    let tmp = tempdir().unwrap();
    let root = tmp.path();
    let a_foo = write_skill_at(root, "category-a/foo");
    let b_foo = write_skill_at(root, "category-b/foo");
    let dirs = collect(root);
    assert_eq!(dirs.len(), 2);
    let root_s = root.to_string_lossy().to_string();
    let k_a = skill_rel_key(&root_s, &a_foo.to_string_lossy());
    let k_b = skill_rel_key(&root_s, &b_foo.to_string_lossy());
    assert_ne!(k_a, k_b);
    assert_eq!(k_a, "category-a/foo");
    assert_eq!(k_b, "category-b/foo");
}

/// The cache entries written so far, by path.
struct Cache {
    root: PathBuf,
    saved: Vec<NamedTempFile>,
}

impl Cache {
    fn load(&self, api_url: &str, model: &str, content: &str) -> Option<String> {
        let path = PathBuf::from(translation_cache_path(&self.root.to_string_lossy(), api_url, model, content));
        if !path.exists() {
            return None;
        }
        let file = self.saved.iter().find(|f| f.path() == path)?;
        let mut text = String::new();
        file.reopen().unwrap().read_to_string(&mut text).unwrap();
        Some(text)
    }

    fn save(&mut self, api_url: &str, model: &str, content: &str, translated: &str) {
        let path = PathBuf::from(translation_cache_path(&self.root.to_string_lossy(), api_url, model, content));
        let stem = path.file_stem().unwrap().to_string_lossy().to_string();
        self.saved.push(make_file(&self.root, &stem, ".md", translated));
    }
}

#[test]
fn translation_cache_persists_and_invalidates_with_inputs() {
    let temp = tempdir().unwrap();
    let mut cache = Cache { root: temp.path().to_path_buf(), saved: Vec::new() };
    let api_url = "https://api.example.com/v1";
    let model = "fast-model";
    let source = "# Example\n\nEnglish content.";
    let translated = "# 示例\n\n中文内容。";
    assert_eq!(cache.load(api_url, model, source), None);
    cache.save(api_url, model, source, translated);
    assert_eq!(cache.load(api_url, model, source), Some(translated.to_owned()));
    assert_eq!(cache.load(api_url, "other-model", source), None);
    assert_eq!(cache.load(api_url, model, "# Example\n\nChanged content."), None);
}

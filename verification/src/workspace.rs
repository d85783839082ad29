//! Skills found in a project or in an agent's own skills directory, and how
//! each relates to the central library: which managed skill it is a copy of,
//! and whether the two copies are in sync.
//!
//! Paths are compared as the file system resolves them. The resolution is a
//! snapshot taken by the caller: a list of pairs of a path and its canonical
//! form, holding only the paths that resolved.
use crate::error::{AppError, ErrorKind};
use crate::skills::{lookup_strings, SkillRecord, SkillTargetRecord};
use crate::text::{chars_of, first_where, lemma_first_where, lemma_first_where_is, opt_view, str_eq, strs_view};
use vstd::prelude::*;

verus! {

// ---------------------------------------------------------------------------
// Records
// ---------------------------------------------------------------------------

/// A skill found on disk outside the central library.
pub struct ProjectSkillInfo {
    pub name: String,
    pub dir_name: String,
    pub relative_path: String,
    pub description: Option<String>,
    pub path: String,
    pub files: Vec<String>,
    pub enabled: bool,
    pub agent: String,
    pub agent_display_name: String,
    pub tags: Vec<String>,
    pub in_center: bool,
    pub sync_status: String,
    pub center_skill_id: Option<String>,
    pub last_modified_at: Option<i64>,
    pub content_hash: Option<String>,
}

/// A project the user registered.
#[derive(Debug)]
pub struct ProjectRecord {
    pub id: String,
    pub name: String,
    pub path: String,
    pub sort_order: i32,
    pub created_at: i64,
    pub updated_at: i64,
}

/// How many skills of a project are in each sync state.
pub struct SyncHealthDto {
    pub in_sync: usize,
    pub project_newer: usize,
    pub center_newer: usize,
    pub diverged: usize,
    pub project_only: usize,
}

/// A project as the UI shows it.
pub struct ProjectDto {
    pub id: String,
    pub name: String,
    pub path: String,
    pub sort_order: i32,
    pub skill_count: usize,
    pub sync_health: SyncHealthDto,
    pub created_at: i64,
    pub updated_at: i64,
}

/// The document of a skill found in a project.
pub struct ProjectSkillDocumentDto {
    pub skill_name: String,
    pub filename: String,
    pub content: String,
}

// ---------------------------------------------------------------------------
// Paths
// ---------------------------------------------------------------------------

/// The canonical form of `p` in the snapshot `table`, if `p` resolved.
pub open spec fn canonical_of(table: Seq<(String, String)>, p: Seq<char>) -> Option<Seq<char>>
    decreases table.len(),
{
    if table.len() == 0 {
        None
    } else if table[0].0@ == p {
        Some(table[0].1@)
    } else {
        canonical_of(table.drop_first(), p)
    }
}

/// `other` names the skill at `skill_path`: it is the same text, or both
/// resolve to the same canonical path.
pub open spec fn path_matches(skill_path: Seq<char>, skill_canonical: Option<Seq<char>>, other: Seq<char>, table: Seq<(String, String)>) -> bool {
    other == skill_path || (skill_canonical is Some && canonical_of(table, other) == skill_canonical)
}

/// The managed skill was imported from the skill at `skill_path`.
pub open spec fn source_ref_matches(skill_path: Seq<char>, skill_canonical: Option<Seq<char>>, managed: SkillRecord, table: Seq<(String, String)>) -> bool {
    match managed.source_ref {
        Some(r) => path_matches(skill_path, skill_canonical, r@, table),
        None => false,
    }
}

/// The canonical form of `p` in the snapshot (see [`canonical_of`]).
pub fn canonical_path(table: &[(String, String)], p: &str) -> (r: Option<String>)
    ensures
        opt_view(r) == canonical_of(table@, p@),
{
    let mut i: usize = 0;
    assert(table@.skip(0) =~= table@);
    while i < table.len()
        invariant
            i <= table.len(),
            canonical_of(table@, p@) == canonical_of(table@.skip(i as int), p@),
        decreases table.len() - i,
    {
        assert(table@.skip(i as int)[0] == table@[i as int]);
        assert(table@.skip(i as int).drop_first() =~= table@.skip(i + 1));
        if str_eq(table[i].0.as_str(), p) {
            return Some(table[i].1.clone());
        }
        i += 1;
    }
    None
}

/// Whether `other` names the skill at `skill_path` (see [`path_matches`]).
pub fn path_matches_skill_path(skill_path: &str, skill_canonical: &Option<String>, other: &str, table: &[(String, String)]) -> (r: bool)
    ensures
        r == path_matches(skill_path@, opt_view(*skill_canonical), other@, table@),
{
    if str_eq(other, skill_path) {
        return true;
    }
    match skill_canonical {
        None => false,
        Some(c) => match canonical_path(table, other) {
            Some(o) => str_eq(o.as_str(), c.as_str()),
            None => false,
        },
    }
}

/// Whether the target deploys the skill at `skill_path`.
pub fn target_matches_skill_path(target: &SkillTargetRecord, skill_path: &str, skill_canonical: &Option<String>, table: &[(String, String)]) -> (r: bool)
    ensures
        r == path_matches(skill_path@, opt_view(*skill_canonical), target.target_path@, table@),
{
    path_matches_skill_path(skill_path, skill_canonical, target.target_path.as_str(), table)
}

/// Whether the managed skill was imported from the skill at `skill_path`.
pub fn source_ref_matches_skill_path(skill_path: &str, skill_canonical: &Option<String>, managed: &SkillRecord, table: &[(String, String)]) -> (r: bool)
    ensures
        r == source_ref_matches(skill_path@, opt_view(*skill_canonical), *managed, table@),
{
    match &managed.source_ref {
        None => false,
        Some(r) => path_matches_skill_path(skill_path, skill_canonical, r.as_str(), table),
    }
}

// ---------------------------------------------------------------------------
// Sync status
// ---------------------------------------------------------------------------

/// Milliseconds within which two modification times count as the same.
pub const SYNC_THRESHOLD_MS: i64 = 1000;

/// The sync state of a skill against the managed skill it matches: not in
/// the library at all; the same content; or, by modification time against
/// the managed skill's last update, newer in the project, newer in the
/// library, or impossible to rank.
pub open spec fn spec_sync_status(skill: ProjectSkillInfo, managed: Option<SkillRecord>) -> Seq<char> {
    match managed {
        None => "project_only"@,
        Some(m) => if skill.content_hash is Some && opt_view(m.content_hash) == opt_view(skill.content_hash) {
            "in_sync"@
        } else {
            match skill.last_modified_at {
                None => "diverged"@,
                Some(p) => if p > m.updated_at + SYNC_THRESHOLD_MS {
                    "project_newer"@
                } else if m.updated_at > p + SYNC_THRESHOLD_MS {
                    "center_newer"@
                } else {
                    "diverged"@
                },
            }
        },
    }
}

/// Whether two optional strings are equal.
fn opt_eq(a: &Option<String>, b: &Option<String>) -> (r: bool)
    ensures
        r == (opt_view(*a) == opt_view(*b)),
{
    match (a, b) {
        (Some(x), Some(y)) => str_eq(x.as_str(), y.as_str()),
        (None, None) => true,
        _ => false,
    }
}

/// The sync state of a skill (see [`spec_sync_status`]).
pub fn classify_sync_status(skill: &ProjectSkillInfo, managed: Option<&SkillRecord>) -> (r: String)
    ensures
        r@ == spec_sync_status(*skill, match managed {
            Some(m) => Some(*m),
            None => None,
        }),
{
    let m = match managed {
        None => {
            return "project_only".to_string();
        },
        Some(m) => m,
    };
    if skill.content_hash.is_some() && opt_eq(&m.content_hash, &skill.content_hash) {
        return "in_sync".to_string();
    }
    let p = match skill.last_modified_at {
        None => {
            return "diverged".to_string();
        },
        Some(p) => p,
    };
    let center = m.updated_at as i128;
    let project = p as i128;
    if project > center + 1000 {
        "project_newer".to_string()
    } else if center > project + 1000 {
        "center_newer".to_string()
    } else {
        "diverged".to_string()
    }
}

// ---------------------------------------------------------------------------
// Matching a skill with the library
// ---------------------------------------------------------------------------

/// The index of the best-scoring managed skill: the last one with the highest
/// score, among those that score above zero.
pub open spec fn best_index(ms: Seq<SkillRecord>, score: spec_fn(SkillRecord) -> nat) -> Option<int>
    decreases ms.len(),
{
    if ms.len() == 0 {
        None
    } else {
        let b = best_index(ms.drop_last(), score);
        let s = score(ms.last());
        if s == 0 {
            b
        } else {
            match b {
                None => Some(ms.len() - 1),
                Some(j) => if s >= score(ms[j]) {
                    Some(ms.len() - 1)
                } else {
                    Some(j)
                },
            }
        }
    }
}

proof fn lemma_best_index_bound(ms: Seq<SkillRecord>, score: spec_fn(SkillRecord) -> nat)
    ensures
        best_index(ms, score) matches Some(j) ==> 0 <= j < ms.len() && score(ms[j]) > 0,
    decreases ms.len(),
{
    if ms.len() > 0 {
        lemma_best_index_bound(ms.drop_last(), score);
    }
}

/// Some target of the managed skill deploys the skill at `skill_path`.
pub open spec fn deployed_at(managed: SkillRecord, targets: Seq<SkillTargetRecord>, skill_path: Seq<char>, skill_canonical: Option<Seq<char>>, table: Seq<(String, String)>) -> bool {
    exists|t: int| 0 <= t < targets.len() && (#[trigger] targets[t]).skill_id@ == managed.id@
        && path_matches(skill_path, skill_canonical, targets[t].target_path@, table)
}

/// How strongly a managed skill is known to be the same skill: imported from
/// it or deployed to it (3), or holding the same content (2).
pub open spec fn verified_score(skill: ProjectSkillInfo, targets: Seq<SkillTargetRecord>, table: Seq<(String, String)>) -> spec_fn(SkillRecord) -> nat {
    |m: SkillRecord| {
        let canon = canonical_of(table, skill.path@);
        if source_ref_matches(skill.path@, canon, m, table) {
            3nat
        } else if deployed_at(m, targets, skill.path@, canon, table) {
            3nat
        } else if skill.content_hash is Some && opt_view(m.content_hash) == opt_view(skill.content_hash) {
            2nat
        } else {
            0nat
        }
    }
}

/// The managed skill a skill found on disk verifiably is, if any.
pub open spec fn verified_match(skill: ProjectSkillInfo, managed: Seq<SkillRecord>, targets: Seq<SkillTargetRecord>, table: Seq<(String, String)>) -> Option<int> {
    best_index(managed, verified_score(skill, targets, table))
}

/// Whether some target of `managed` deploys the skill.
fn deployed_at_exec(managed: &SkillRecord, targets: &[SkillTargetRecord], skill_path: &str, skill_canonical: &Option<String>, table: &[(String, String)]) -> (r: bool)
    ensures
        r == deployed_at(*managed, targets@, skill_path@, opt_view(*skill_canonical), table@),
{
    let mut i: usize = 0;
    while i < targets.len()
        invariant
            i <= targets.len(),
            forall|t: int| 0 <= t < i ==> !((#[trigger] targets@[t]).skill_id@ == managed.id@
                && path_matches(skill_path@, opt_view(*skill_canonical), targets@[t].target_path@, table@)),
        decreases targets.len() - i,
    {
        if str_eq(targets[i].skill_id.as_str(), managed.id.as_str())
            && target_matches_skill_path(&targets[i], skill_path, skill_canonical, table) {
            return true;
        }
        i += 1;
    }
    false
}

/// The score of one managed skill (see [`verified_score`]).
fn verified_score_of(skill: &ProjectSkillInfo, managed: &SkillRecord, targets: &[SkillTargetRecord], canon: &Option<String>, table: &[(String, String)]) -> (r: u8)
    requires
        opt_view(*canon) == canonical_of(table@, skill.path@),
    ensures
        r as nat == (verified_score(*skill, targets@, table@))(*managed),
{
    if source_ref_matches_skill_path(skill.path.as_str(), canon, managed, table) {
        3
    } else if deployed_at_exec(managed, targets, skill.path.as_str(), canon, table) {
        3
    } else if skill.content_hash.is_some() && opt_eq(&managed.content_hash, &skill.content_hash) {
        2
    } else {
        0
    }
}

/// The managed skill that a skill found on disk verifiably is: the last
/// managed skill imported from it or deployed to it, else the last one with
/// the same content. A skill that only shares a name is no match.
pub fn find_verified_center_match(skill: &ProjectSkillInfo, all_managed: &[SkillRecord], all_targets: &[SkillTargetRecord], table: &[(String, String)]) -> (r: Option<usize>)
    ensures
        r == match verified_match(*skill, all_managed@, all_targets@, table@) {
            Some(j) => Some(j as usize),
            None => None::<usize>,
        },
        r matches Some(j) ==> j < all_managed.len(),
        verified_match(*skill, all_managed@, all_targets@, table@) matches Some(j) ==> 0 <= j < all_managed.len(),
{
    let canon = canonical_path(table, skill.path.as_str());
    let ghost score = verified_score(*skill, all_targets@, table@);
    let mut best: Option<usize> = None;
    let mut best_score: u8 = 0;
    let mut i: usize = 0;
    assert(all_managed@.take(0) =~= Seq::<SkillRecord>::empty());
    while i < all_managed.len()
        invariant
            i <= all_managed.len(),
            score == verified_score(*skill, all_targets@, table@),
            opt_view(canon) == canonical_of(table@, skill.path@),
            best == match best_index(all_managed@.take(i as int), score) {
                Some(j) => Some(j as usize),
                None => None::<usize>,
            },
            best matches Some(j) ==> j < i && best_score as nat == score(all_managed@[j as int]),
        decreases all_managed.len() - i,
    {
        proof {
            lemma_best_index_bound(all_managed@.take(i as int), score);
            let t = all_managed@.take(i + 1);
            assert(t.drop_last() =~= all_managed@.take(i as int));
            assert(t.last() == all_managed@[i as int]);
            if let Some(j) = best_index(all_managed@.take(i as int), score) {
                assert(t[j] == all_managed@[j]);
            }
        }
        let s = verified_score_of(skill, &all_managed[i], all_targets, &canon, table);
        if s > 0 {
            match best {
                None => {
                    best = Some(i);
                    best_score = s;
                },
                Some(_) => {
                    if s >= best_score {
                        best = Some(i);
                        best_score = s;
                    }
                },
            }
        }
        i += 1;
    }
    assert(all_managed@.take(all_managed.len() as int) =~= all_managed@);
    proof {
        lemma_best_index_bound(all_managed@, score);
    }
    best
}

// ---------------------------------------------------------------------------
// Enriching skills found on disk
// ---------------------------------------------------------------------------

/// `b` is `a` with only the fields that enrichment sets changed.
pub open spec fn same_skill(a: ProjectSkillInfo, b: ProjectSkillInfo) -> bool {
    &&& b.name == a.name
    &&& b.dir_name == a.dir_name
    &&& b.relative_path == a.relative_path
    &&& b.description == a.description
    &&& b.path == a.path
    &&& b.files == a.files
    &&& b.enabled == a.enabled
    &&& b.agent == a.agent
    &&& b.agent_display_name == a.agent_display_name
    &&& b.last_modified_at == a.last_modified_at
    &&& b.content_hash == a.content_hash
}

/// `e` is `s` enriched with what the library knows of it: whether it is in
/// the library, the id and tags of the managed skill it verifiably is, and
/// its sync state against that skill.
pub open spec fn enriched(
    s: ProjectSkillInfo,
    e: ProjectSkillInfo,
    managed: Seq<SkillRecord>,
    targets: Seq<SkillTargetRecord>,
    tags_map: Seq<(String, Vec<String>)>,
    table: Seq<(String, String)>,
) -> bool {
    let m = verified_match(s, managed, targets, table);
    &&& same_skill(s, e)
    &&& e.in_center == (m is Some)
    &&& opt_view(e.center_skill_id) == match m {
        Some(j) => Some(managed[j].id@),
        None => None,
    }
    &&& strs_view(e.tags@) == match m {
        Some(j) => match lookup_strings(tags_map, managed[j].id@) {
            Some(v) => v,
            None => Seq::empty(),
        },
        None => Seq::empty(),
    }
    &&& e.sync_status@ == spec_sync_status(s, match m {
        Some(j) => Some(managed[j]),
        None => None,
    })
}

/// Enriches one skill (see [`enriched`]).
fn enrich_one(
    skill: ProjectSkillInfo,
    all_managed: &[SkillRecord],
    all_targets: &[SkillTargetRecord],
    tags_map: &[(String, Vec<String>)],
    table: &[(String, String)],
) -> (r: ProjectSkillInfo)
    ensures
        enriched(skill, r, all_managed@, all_targets@, tags_map@, table@),
{
    let matched = find_verified_center_match(&skill, all_managed, all_targets, table);
    let status = match matched {
        Some(j) => classify_sync_status(&skill, Some(&all_managed[j])),
        None => classify_sync_status(&skill, None),
    };
    let mut s = skill;
    match matched {
        Some(j) => {
            let rec = &all_managed[j];
            s.in_center = true;
            s.center_skill_id = Some(rec.id.clone());
            s.tags = crate::skills::tags_for_skill(tags_map, &rec.id);
        },
        None => {
            s.in_center = false;
            s.center_skill_id = None;
            s.tags = Vec::new();
            assert(strs_view(s.tags@) =~= Seq::<Seq<char>>::empty());
        },
    }
    s.sync_status = status;
    s
}

/// Each skill found in an agent's directory, enriched with what the library
/// knows of it (see [`enriched`]), in the same order.
pub fn enrich_center_status(
    skills: Vec<ProjectSkillInfo>,
    all_managed: &[SkillRecord],
    all_targets: &[SkillTargetRecord],
    tags_map: &[(String, Vec<String>)],
    table: &[(String, String)],
) -> (r: Vec<ProjectSkillInfo>)
    ensures
        r.len() == skills.len(),
        forall|i: int| 0 <= i < r.len() ==> enriched(#[trigger] skills@[i], r@[i], all_managed@, all_targets@, tags_map@, table@),
{
    let ghost orig = skills@;
    let mut rest = skills;
    let mut rev: Vec<ProjectSkillInfo> = Vec::new();
    while rest.len() > 0
        invariant
            rest@ + rev@.reverse() == orig,
        decreases rest.len(),
    {
        let ghost before_rest = rest@;
        let ghost before_rev = rev@;
        let s = rest.pop().unwrap();
        rev.push(s);
        proof {
            assert(rev@.reverse() =~= seq![s] + before_rev.reverse());
            assert(before_rest =~= rest@.push(s));
            assert(rest@ + rev@.reverse() =~= before_rest + before_rev.reverse());
        }
    }
    assert(rev@.reverse() =~= orig);
    let mut out: Vec<ProjectSkillInfo> = Vec::new();
    while rev.len() > 0
        invariant
            out@.len() + rev@.len() == orig.len(),
            rev@.reverse() == orig.skip(out@.len() as int),
            forall|i: int| 0 <= i < out@.len() ==> enriched(#[trigger] orig[i], out@[i], all_managed@, all_targets@, tags_map@, table@),
        decreases rev.len(),
    {
        let ghost k = out@.len();
        let ghost before_rev = rev@;
        let s = rev.pop().unwrap();
        proof {
            assert(before_rev.reverse()[0] == s);
            assert(orig.skip(k as int)[0] == orig[k as int]);
            assert(rev@.reverse() =~= before_rev.reverse().drop_first());
            assert(orig.skip(k as int).drop_first() =~= orig.skip(k as int + 1));
        }
        let e = enrich_one(s, all_managed, all_targets, tags_map, table);
        out.push(e);
    }
    out
}


// ---------------------------------------------------------------------------
// Directory names
// ---------------------------------------------------------------------------

/// The lowercase mapping of `c`, as Unicode defines it (one or more characters).
pub uninterp spec fn spec_char_lowercase(c: char) -> Seq<char>;

/// `char::to_lowercase`, collected: the characters of the lowercase mapping
/// of `c` from Unicode's data. The mapping itself is named, not restated.
#[verifier::external_body]
fn char_lowercase(c: char) -> (r: Vec<char>)
    ensures
        r@ == spec_char_lowercase(c),
{
    c.to_lowercase().collect()
}

/// `s` in lower case, character by character (`flat_map(char::to_lowercase)`).
pub open spec fn lowercase_chars(s: Seq<char>) -> Seq<char>
    decreases s.len(),
{
    if s.len() == 0 {
        seq![]
    } else {
        lowercase_chars(s.drop_last()) + spec_char_lowercase(s.last())
    }
}

/// A character that a directory name keeps: an ASCII letter or digit, `-`,
/// `_` or `.`.
pub open spec fn slug_keeps(c: char) -> bool {
    ('a' <= c && c <= 'z') || ('A' <= c && c <= 'Z') || ('0' <= c && c <= '9') || c == '-' || c == '_' || c == '.'
}

/// The characters kept, with each run of other characters replaced by one `-`
/// (`prev_dash` tells whether the last character written was such a `-`).
pub open spec fn slug_body(s: Seq<char>, prev_dash: bool) -> Seq<char>
    decreases s.len(),
{
    if s.len() == 0 {
        seq![]
    } else if slug_keeps(s[0]) {
        seq![s[0]] + slug_body(s.drop_first(), false)
    } else if !prev_dash {
        seq!['-'] + slug_body(s.drop_first(), true)
    } else {
        slug_body(s.drop_first(), true)
    }
}

/// The characters stripped from both ends of a directory name.
pub open spec fn slug_edge() -> spec_fn(char) -> bool {
    |c: char| c == '-' || c == '_' || c == '.'
}

/// The directory name for a skill name: lower case, characters other than
/// ASCII letters, digits, `-`, `_` and `.` collapsed into single dashes, no
/// dash, underscore or dot at either end; `skill` where nothing is left.
pub open spec fn spec_slug(name: Seq<char>) -> Seq<char> {
    let b = slug_body(lowercase_chars(name), false);
    let t = b.skip(crate::text::run(b, slug_edge()) as int);
    let u = t.take(t.len() - crate::text::rrun(t, slug_edge()));
    if u.len() == 0 {
        "skill"@
    } else {
        u
    }
}

/// The directory name for a skill name (see [`spec_slug`]).
pub fn slugify_skill_dir_name(name: &str) -> (r: String)
    ensures
        r@ == spec_slug(name@),
{
    let cs = chars_of(name);
    let mut low: Vec<char> = Vec::new();
    let mut i: usize = 0;
    while i < cs.len()
        invariant
            i <= cs.len(),
            cs@ == name@,
            low@ == lowercase_chars(cs@.take(i as int)),
        decreases cs.len() - i,
    {
        let l = char_lowercase(cs[i]);
        let mut k: usize = 0;
        let ghost before = low@;
        while k < l.len()
            invariant
                k <= l.len(),
                low@ == before + l@.take(k as int),
            decreases l.len() - k,
        {
            low.push(l[k]);
            assert(l@.take(k + 1) =~= l@.take(k as int).push(l@[k as int]));
            k += 1;
        }
        assert(l@.take(l.len() as int) =~= l@);
        assert(cs@.take(i + 1).drop_last() =~= cs@.take(i as int));
        i += 1;
    }
    assert(cs@.take(cs.len() as int) =~= cs@);
    let mut out: Vec<char> = Vec::new();
    let mut prev_dash = false;
    let mut j: usize = 0;
    assert(low@.skip(0) =~= low@);
    while j < low.len()
        invariant
            j <= low.len(),
            slug_body(low@, false) == out@ + slug_body(low@.skip(j as int), prev_dash),
        decreases low.len() - j,
    {
        let c = low[j];
        let ghost rest = low@.skip(j as int);
        assert(rest[0] == c);
        assert(rest.drop_first() =~= low@.skip(j + 1));
        let keep = ('a' <= c && c <= 'z') || ('A' <= c && c <= 'Z') || ('0' <= c && c <= '9') || c == '-'
            || c == '_' || c == '.';
        if keep {
            out.push(c);
            prev_dash = false;
        } else if !prev_dash {
            out.push('-');
            prev_dash = true;
        } else {
            prev_dash = true;
        }
        j += 1;
    }
    assert(low@.skip(low.len() as int) =~= Seq::<char>::empty());
    assert(out@ + seq![] =~= out@);
    let n = out.len();
    let mut a: usize = 0;
    while a < n && (out[a] == '-' || out[a] == '_' || out[a] == '.')
        invariant
            a <= n == out.len(),
            forall|m: int| 0 <= m < a ==> (slug_edge())(#[trigger] out@[m]),
        decreases n - a,
    {
        a += 1;
    }
    proof {
        crate::text::lemma_run_is_first_failure(out@, slug_edge(), a as int);
    }
    let mut z: usize = n;
    let ghost t = out@.skip(a as int);
    while z > a && (out[z - 1] == '-' || out[z - 1] == '_' || out[z - 1] == '.')
        invariant
            a <= z <= n == out.len(),
            t == out@.skip(a as int),
            forall|m: int| z <= m < n ==> (slug_edge())(#[trigger] out@[m]),
        decreases z - a,
    {
        z -= 1;
    }
    proof {
        assert forall|m: int| t.len() - (n - z) <= m < t.len() implies (slug_edge())(#[trigger] t[m]) by {
            assert(t[m] == out@[a + m]);
        }
        if n - z < t.len() {
            assert(t[t.len() - (n - z) - 1] == out@[z - 1]);
        }
        crate::text::lemma_rrun_is_last_failure(t, slug_edge(), (n - z) as int);
        assert(t.take(t.len() - (n - z)) =~= out@.subrange(a as int, z as int));
    }
    if a == z {
        proof {
            reveal_strlit("skill");
        }
        return "skill".to_string();
    }
    crate::text::string_of_range(&out, a, z)
}

/// The directory name of each skill name, in order.
pub fn slugify_skill_names(names: Vec<String>) -> (r: Vec<String>)
    ensures
        r.len() == names.len(),
        forall|i: int| 0 <= i < names.len() ==> #[trigger] r[i]@ == spec_slug(names[i]@),
{
    let mut out: Vec<String> = Vec::new();
    let mut i: usize = 0;
    while i < names.len()
        invariant
            i <= names.len(),
            out.len() == i,
            forall|k: int| 0 <= k < i ==> #[trigger] out[k]@ == spec_slug(names[k]@),
        decreases names.len() - i,
    {
        let s = slugify_skill_dir_name(names[i].as_str());
        out.push(s);
        i += 1;
    }
    out
}

/// A component of a path, as `std::path::Component` tells them apart.
#[derive(Debug)]
pub enum PathComponent {
    /// A Windows drive or share prefix.
    Prefix(String),
    /// The root directory.
    RootDir,
    /// `.`
    CurDir,
    /// `..`
    ParentDir,
    /// A plain name.
    Normal(String),
}

/// The spec counterpart of a [`PathComponent`].
pub enum PathComponentView {
    Prefix(Seq<char>),
    RootDir,
    CurDir,
    ParentDir,
    Normal(Seq<char>),
}

pub open spec fn component_view(c: PathComponent) -> PathComponentView {
    match c {
        PathComponent::Prefix(p) => PathComponentView::Prefix(p@),
        PathComponent::RootDir => PathComponentView::RootDir,
        PathComponent::CurDir => PathComponentView::CurDir,
        PathComponent::ParentDir => PathComponentView::ParentDir,
        PathComponent::Normal(n) => PathComponentView::Normal(n@),
    }
}

/// The components `Path::new(s).components()` yields, in order.
pub uninterp spec fn spec_path_components(s: Seq<char>) -> Seq<PathComponentView>;

/// `std::path::Path::components` of `s`, each component told apart by its
/// kind. How `Path` splits a string into components is named, not restated.
#[verifier::external_body]
fn path_components(s: &str) -> (r: Vec<PathComponent>)
    ensures
        r@.map_values(|c: PathComponent| component_view(c)) == spec_path_components(s@),
{
    let mut out = Vec::new();
    for c in std::path::Path::new(s).components() {
        out.push(match c {
            std::path::Component::Prefix(p) => PathComponent::Prefix(p.as_os_str().to_string_lossy().into_owned()),
            std::path::Component::RootDir => PathComponent::RootDir,
            std::path::Component::CurDir => PathComponent::CurDir,
            std::path::Component::ParentDir => PathComponent::ParentDir,
            std::path::Component::Normal(n) => PathComponent::Normal(n.to_string_lossy().into_owned()),
        });
    }
    out
}

/// Whether the path `s` is exactly one plain component: no root or prefix,
/// no `.` or `..`, no second component.
pub open spec fn spec_single_normal_component(s: Seq<char>) -> bool {
    spec_path_components(s).len() == 1 && spec_path_components(s)[0] is Normal
}

/// Refuses a skill directory name that is blank or is not exactly one plain
/// path component (so it cannot reach outside the skills directory).
pub fn ensure_safe_skill_dir_name(skill_dir_name: &str) -> (r: Result<(), AppError>)
    ensures
        r is Ok <==> crate::text::trim(skill_dir_name@).len() > 0 && spec_single_normal_component(skill_dir_name@),
        r matches Err(e) ==> e.kind == ErrorKind::InvalidInput && e.message@ == "Invalid skill directory name"@,
{
    let cs = chars_of(skill_dir_name);
    let (a, z) = crate::text::trim_bounds(&cs, 0, cs.len());
    assert(cs@.subrange(0, cs.len() as int) =~= skill_dir_name@);
    if a == z {
        return Err(AppError::invalid_input("Invalid skill directory name"));
    }
    let comps = path_components(skill_dir_name);
    assert(comps@.len() == spec_path_components(skill_dir_name@).len());
    if comps.len() != 1 {
        return Err(AppError::invalid_input("Invalid skill directory name"));
    }
    assert(component_view(comps@[0]) == spec_path_components(skill_dir_name@)[0]);
    match &comps[0] {
        PathComponent::Normal(_) => Ok(()),
        _ => Err(AppError::invalid_input("Invalid skill directory name")),
    }
}

// ---------------------------------------------------------------------------
// Projects
// ---------------------------------------------------------------------------

/// `a` and `b` are equal but for ASCII case (`str::eq_ignore_ascii_case`).
pub open spec fn eq_ignore_ascii_case(a: Seq<char>, b: Seq<char>) -> bool {
    crate::settings::ascii_lowercase(a) == crate::settings::ascii_lowercase(b)
}

/// How strongly a managed skill is taken to be a project's skill: imported
/// from it (3), the same content (2), or a name that gives the same directory
/// name (1).
pub open spec fn project_score(skill: ProjectSkillInfo, table: Seq<(String, String)>) -> spec_fn(SkillRecord) -> nat {
    |m: SkillRecord| {
        let canon = canonical_of(table, skill.path@);
        if source_ref_matches(skill.path@, canon, m, table) {
            3nat
        } else if skill.content_hash is Some && opt_view(m.content_hash) == opt_view(skill.content_hash) {
            2nat
        } else if eq_ignore_ascii_case(spec_slug(m.name@), skill.dir_name@) {
            1nat
        } else {
            0nat
        }
    }
}

/// The managed skill a project's skill is taken to be, if any.
pub open spec fn best_center_match(skill: ProjectSkillInfo, managed: Seq<SkillRecord>, table: Seq<(String, String)>) -> Option<int> {
    best_index(managed, project_score(skill, table))
}

/// Equality up to ASCII case.
pub fn eq_ignore_case_str(a: &str, b: &str) -> (r: bool)
    ensures
        r == eq_ignore_ascii_case(a@, b@),
{
    let x = chars_of(a);
    let y = chars_of(b);
    if x.len() != y.len() {
        assert(crate::settings::ascii_lowercase(a@).len() != crate::settings::ascii_lowercase(b@).len());
        return false;
    }
    let mut i: usize = 0;
    while i < x.len()
        invariant
            i <= x.len() == y.len(),
            x@ == a@,
            y@ == b@,
            forall|j: int| 0 <= j < i ==> crate::settings::ascii_lower(#[trigger] x@[j]) == crate::settings::ascii_lower(y@[j]),
        decreases x.len() - i,
    {
        let p = crate::settings::to_ascii_lower(x[i]);
        let q = crate::settings::to_ascii_lower(y[i]);
        if p != q {
            assert(crate::settings::ascii_lowercase(a@)[i as int] != crate::settings::ascii_lowercase(b@)[i as int]);
            return false;
        }
        i += 1;
    }
    assert(crate::settings::ascii_lowercase(a@) =~= crate::settings::ascii_lowercase(b@));
    true
}

/// The score of one managed skill for a project's skill (see [`project_score`]).
fn project_score_of(skill: &ProjectSkillInfo, managed: &SkillRecord, canon: &Option<String>, table: &[(String, String)]) -> (r: u8)
    requires
        opt_view(*canon) == canonical_of(table@, skill.path@),
    ensures
        r as nat == (project_score(*skill, table@))(*managed),
{
    if source_ref_matches_skill_path(skill.path.as_str(), canon, managed, table) {
        3
    } else if skill.content_hash.is_some() && opt_eq(&managed.content_hash, &skill.content_hash) {
        2
    } else {
        let slug = slugify_skill_dir_name(managed.name.as_str());
        if eq_ignore_case_str(slug.as_str(), skill.dir_name.as_str()) {
            1
        } else {
            0
        }
    }
}

/// The managed skill a project's skill is taken to be: the last one imported
/// from it, else the last with the same content, else the last whose name
/// gives the skill's directory name.
pub fn find_best_center_match(skill: &ProjectSkillInfo, all_managed: &[SkillRecord], table: &[(String, String)]) -> (r: Option<usize>)
    ensures
        r == match best_center_match(*skill, all_managed@, table@) {
            Some(j) => Some(j as usize),
            None => None::<usize>,
        },
        best_center_match(*skill, all_managed@, table@) matches Some(j) ==> 0 <= j < all_managed.len(),
{
    let canon = canonical_path(table, skill.path.as_str());
    let ghost score = project_score(*skill, table@);
    let mut best: Option<usize> = None;
    let mut best_score: u8 = 0;
    let mut i: usize = 0;
    assert(all_managed@.take(0) =~= Seq::<SkillRecord>::empty());
    while i < all_managed.len()
        invariant
            i <= all_managed.len(),
            score == project_score(*skill, table@),
            opt_view(canon) == canonical_of(table@, skill.path@),
            best == match best_index(all_managed@.take(i as int), score) {
                Some(j) => Some(j as usize),
                None => None::<usize>,
            },
            best matches Some(j) ==> j < i && best_score as nat == score(all_managed@[j as int]),
        decreases all_managed.len() - i,
    {
        proof {
            lemma_best_index_bound(all_managed@.take(i as int), score);
            let t = all_managed@.take(i + 1);
            assert(t.drop_last() =~= all_managed@.take(i as int));
            assert(t.last() == all_managed@[i as int]);
            if let Some(j) = best_index(all_managed@.take(i as int), score) {
                assert(t[j] == all_managed@[j]);
            }
        }
        let s = project_score_of(skill, &all_managed[i], &canon, table);
        if s > 0 {
            match best {
                None => {
                    best = Some(i);
                    best_score = s;
                },
                Some(_) => {
                    if s >= best_score {
                        best = Some(i);
                        best_score = s;
                    }
                },
            }
        }
        i += 1;
    }
    assert(all_managed@.take(all_managed.len() as int) =~= all_managed@);
    proof {
        lemma_best_index_bound(all_managed@, score);
    }
    best
}

/// The managed skill a project's skill is taken to be (see
/// [`find_best_center_match`]).
pub fn find_source_ref_match(skill: &ProjectSkillInfo, all_managed: &[SkillRecord], table: &[(String, String)]) -> (r: Option<usize>)
    ensures
        r == match best_center_match(*skill, all_managed@, table@) {
            Some(j) => Some(j as usize),
            None => None::<usize>,
        },
        best_center_match(*skill, all_managed@, table@) matches Some(j) ==> 0 <= j < all_managed.len(),
{
    find_best_center_match(skill, all_managed, table)
}

/// The sync state of a project's skill against the managed skill it is taken to be.
pub open spec fn project_skill_status(skill: ProjectSkillInfo, managed: Seq<SkillRecord>, table: Seq<(String, String)>) -> Seq<char> {
    spec_sync_status(skill, match best_center_match(skill, managed, table) {
        Some(j) => Some(managed[j]),
        None => None,
    })
}

/// How many of `skills` are in the sync state `status`.
pub open spec fn count_status(skills: Seq<ProjectSkillInfo>, managed: Seq<SkillRecord>, table: Seq<(String, String)>, status: Seq<char>) -> nat
    decreases skills.len(),
{
    if skills.len() == 0 {
        0
    } else {
        count_status(skills.drop_last(), managed, table, status) + if project_skill_status(skills.last(), managed, table) == status {
            1nat
        } else {
            0nat
        }
    }
}

proof fn lemma_count_status_bound(skills: Seq<ProjectSkillInfo>, managed: Seq<SkillRecord>, table: Seq<(String, String)>, status: Seq<char>)
    ensures
        count_status(skills, managed, table, status) <= skills.len(),
    decreases skills.len(),
{
    if skills.len() > 0 {
        lemma_count_status_bound(skills.drop_last(), managed, table, status);
    }
}

/// One increment: adds `1` if `b` holds.
pub open spec fn inc(x: usize, b: bool) -> int {
    if b {
        x + 1
    } else {
        x as int
    }
}

/// Counts one skill in the sync state `status`: `project_only` takes every
/// state that is not one of the other four.
fn count_into(h: &mut SyncHealthDto, status: &str)
    requires
        old(h).in_sync < usize::MAX,
        old(h).project_newer < usize::MAX,
        old(h).center_newer < usize::MAX,
        old(h).diverged < usize::MAX,
        old(h).project_only < usize::MAX,
    ensures
        final(h).in_sync == inc(old(h).in_sync, status@ == "in_sync"@),
        final(h).project_newer == inc(old(h).project_newer, status@ == "project_newer"@),
        final(h).center_newer == inc(old(h).center_newer, status@ == "center_newer"@),
        final(h).diverged == inc(old(h).diverged, status@ == "diverged"@),
        final(h).project_only == inc(old(h).project_only, status@ != "in_sync"@ && status@ != "project_newer"@
            && status@ != "center_newer"@ && status@ != "diverged"@),
{
    proof {
        reveal_strlit("in_sync");
        reveal_strlit("project_newer");
        reveal_strlit("center_newer");
        reveal_strlit("diverged");
        assert("in_sync"@.len() == 7);
        assert("project_newer"@.len() == 13);
        assert("center_newer"@.len() == 12);
        assert("diverged"@.len() == 8);
    }
    if str_eq(status, "in_sync") {
        h.in_sync = h.in_sync + 1;
    } else if str_eq(status, "project_newer") {
        h.project_newer = h.project_newer + 1;
    } else if str_eq(status, "center_newer") {
        h.center_newer = h.center_newer + 1;
    } else if str_eq(status, "diverged") {
        h.diverged = h.diverged + 1;
    } else {
        h.project_only = h.project_only + 1;
    }
}

/// A project as the UI shows it, from its record and the skills found in it:
/// how many skills it has and how many of them are in each sync state.
pub fn project_to_dto(rec: &ProjectRecord, skills: &[ProjectSkillInfo], all_managed: &[SkillRecord], table: &[(String, String)]) -> (r: ProjectDto)
    ensures
        r.id == rec.id,
        r.name == rec.name,
        r.path == rec.path,
        r.sort_order == rec.sort_order,
        r.created_at == rec.created_at,
        r.updated_at == rec.updated_at,
        r.skill_count == skills.len(),
        r.sync_health.in_sync == count_status(skills@, all_managed@, table@, "in_sync"@),
        r.sync_health.project_newer == count_status(skills@, all_managed@, table@, "project_newer"@),
        r.sync_health.center_newer == count_status(skills@, all_managed@, table@, "center_newer"@),
        r.sync_health.diverged == count_status(skills@, all_managed@, table@, "diverged"@),
        r.sync_health.project_only == count_status(skills@, all_managed@, table@, "project_only"@),
{
    let mut h = SyncHealthDto { in_sync: 0, project_newer: 0, center_newer: 0, diverged: 0, project_only: 0 };
    let mut i: usize = 0;
    while i < skills.len()
        invariant
            i <= skills.len(),
            h.in_sync == count_status(skills@.take(i as int), all_managed@, table@, "in_sync"@),
            h.project_newer == count_status(skills@.take(i as int), all_managed@, table@, "project_newer"@),
            h.center_newer == count_status(skills@.take(i as int), all_managed@, table@, "center_newer"@),
            h.diverged == count_status(skills@.take(i as int), all_managed@, table@, "diverged"@),
            h.project_only == count_status(skills@.take(i as int), all_managed@, table@, "project_only"@),
        decreases skills.len() - i,
    {
        let t = &skills[i];
        let m = find_best_center_match(t, all_managed, table);
        let status = match m {
            Some(j) => classify_sync_status(t, Some(&all_managed[j])),
            None => classify_sync_status(t, None),
        };
        proof {
            let pre = skills@.take(i as int);
            let nxt = skills@.take(i + 1);
            assert(nxt.drop_last() =~= pre);
            assert(nxt.last() == skills@[i as int]);
            lemma_count_status_bound(pre, all_managed@, table@, "in_sync"@);
            lemma_count_status_bound(pre, all_managed@, table@, "project_newer"@);
            lemma_count_status_bound(pre, all_managed@, table@, "center_newer"@);
            lemma_count_status_bound(pre, all_managed@, table@, "diverged"@);
            lemma_count_status_bound(pre, all_managed@, table@, "project_only"@);
            reveal_strlit("in_sync");
            reveal_strlit("project_newer");
            reveal_strlit("center_newer");
            reveal_strlit("diverged");
            reveal_strlit("project_only");
            assert("in_sync"@.len() == 7);
            assert("project_newer"@.len() == 13);
            assert("center_newer"@.len() == 12);
            assert("diverged"@.len() == 8);
            assert("project_only"@.len() == 12);
            assert("project_only"@[0] != "center_newer"@[0]);
            assert(status@ == project_skill_status(skills@[i as int], all_managed@, table@));
        }
        count_into(&mut h, status.as_str());
        i += 1;
    }
    assert(skills@.take(skills.len() as int) =~= skills@);
    ProjectDto {
        id: rec.id.clone(),
        name: rec.name.clone(),
        path: rec.path.clone(),
        sort_order: rec.sort_order,
        skill_count: skills.len(),
        sync_health: h,
        created_at: rec.created_at,
        updated_at: rec.updated_at,
    }
}


// ---------------------------------------------------------------------------
// Acting on a skill found on disk
// ---------------------------------------------------------------------------

/// Each project skill with the managed skill it is taken to be and its sync
/// state against that skill; its other fields, tags included, stay as found.
pub fn enrich_project_skills(
    skills: Vec<ProjectSkillInfo>,
    all_managed: &[SkillRecord],
    table: &[(String, String)],
) -> (r: Vec<ProjectSkillInfo>)
    ensures
        r.len() == skills.len(),
        forall|i: int| 0 <= i < r.len() ==> {
            let s = #[trigger] skills@[i];
            let m = best_center_match(s, all_managed@, table@);
            &&& same_skill(s, r@[i])
            &&& r@[i].tags == s.tags
            &&& r@[i].in_center == (m is Some)
            &&& opt_view(r@[i].center_skill_id) == match m {
                Some(j) => Some(all_managed@[j].id@),
                None => None,
            }
            &&& r@[i].sync_status@ == project_skill_status(s, all_managed@, table@)
        },
{
    let ghost orig = skills@;
    let mut rest = skills;
    let mut rev: Vec<ProjectSkillInfo> = Vec::new();
    while rest.len() > 0
        invariant
            rest@ + rev@.reverse() == orig,
        decreases rest.len(),
    {
        let ghost before_rest = rest@;
        let ghost before_rev = rev@;
        let s = rest.pop().unwrap();
        rev.push(s);
        proof {
            assert(rev@.reverse() =~= seq![s] + before_rev.reverse());
            assert(before_rest =~= rest@.push(s));
            assert(rest@ + rev@.reverse() =~= before_rest + before_rev.reverse());
        }
    }
    assert(rev@.reverse() =~= orig);
    let mut out: Vec<ProjectSkillInfo> = Vec::new();
    while rev.len() > 0
        invariant
            out@.len() + rev@.len() == orig.len(),
            rev@.reverse() == orig.skip(out@.len() as int),
            forall|i: int| 0 <= i < out@.len() ==> {
                let s = #[trigger] orig[i];
                let m = best_center_match(s, all_managed@, table@);
                &&& same_skill(s, out@[i])
                &&& out@[i].tags == s.tags
                &&& out@[i].in_center == (m is Some)
                &&& opt_view(out@[i].center_skill_id) == match m {
                    Some(j) => Some(all_managed@[j].id@),
                    None => None,
                }
                &&& out@[i].sync_status@ == project_skill_status(s, all_managed@, table@)
            },
        decreases rev.len(),
    {
        let ghost k = out@.len();
        let ghost before_rev = rev@;
        let skill = rev.pop().unwrap();
        proof {
            assert(before_rev.reverse()[0] == skill);
            assert(orig.skip(k as int)[0] == orig[k as int]);
            assert(rev@.reverse() =~= before_rev.reverse().drop_first());
            assert(orig.skip(k as int).drop_first() =~= orig.skip(k as int + 1));
        }
        let matched = find_best_center_match(&skill, all_managed, table);
        let status = match matched {
            Some(j) => classify_sync_status(&skill, Some(&all_managed[j])),
            None => classify_sync_status(&skill, None),
        };
        let mut e = skill;
        match matched {
            Some(j) => {
                e.in_center = true;
                e.center_skill_id = Some(all_managed[j].id.clone());
            },
            None => {
                e.in_center = false;
                e.center_skill_id = None;
            },
        }
        e.sync_status = status;
        out.push(e);
    }
    out
}

/// Whether a skill in an agent's directory may be overwritten with the copy
/// of the library: it must verifiably be a managed skill (else "not found"),
/// and must not be newer than that skill (else "invalid input"). Gives the
/// index of the managed skill.
pub fn check_update_from_center(
    skill: &ProjectSkillInfo,
    all_managed: &[SkillRecord],
    all_targets: &[SkillTargetRecord],
    table: &[(String, String)],
) -> (r: Result<usize, AppError>)
    ensures
        match verified_match(*skill, all_managed@, all_targets@, table@) {
            None => r matches Err(e) && e.kind == ErrorKind::NotFound
                && e.message@ == "No matching managed skill in center"@,
            Some(j) => if spec_sync_status(*skill, Some(all_managed@[j])) == "project_newer"@ {
                r matches Err(e) && e.kind == ErrorKind::InvalidInput
                    && e.message@ == "Local skill is newer than the Skills Center version"@
            } else {
                r == Ok::<usize, AppError>(j as usize)
            },
        },
{
    let j = match find_verified_center_match(skill, all_managed, all_targets, table) {
        None => {
            return Err(AppError::not_found("No matching managed skill in center"));
        },
        Some(j) => j,
    };
    let status = classify_sync_status(skill, Some(&all_managed[j]));
    if str_eq(status.as_str(), "project_newer") {
        return Err(AppError::invalid_input("Local skill is newer than the Skills Center version"));
    }
    Ok(j)
}

/// A target of the managed skill still deploys the skill at `skill_path`.
pub open spec fn still_linked(managed: SkillRecord, targets: Seq<SkillTargetRecord>, skill_path: Seq<char>, table: Seq<(String, String)>) -> bool {
    deployed_at(managed, targets, skill_path, canonical_of(table, skill_path), table)
}

/// Whether a skill in an agent's directory may be deleted: not while it
/// verifiably is a managed skill that one of its targets still deploys there.
pub fn check_delete_local(
    skill: &ProjectSkillInfo,
    all_managed: &[SkillRecord],
    all_targets: &[SkillTargetRecord],
    table: &[(String, String)],
) -> (r: Result<(), AppError>)
    ensures
        r is Err <==> (verified_match(*skill, all_managed@, all_targets@, table@) matches Some(j)
            && still_linked(all_managed@[j], all_targets@, skill.path@, table@)),
        r matches Err(e) ==> e.kind == ErrorKind::InvalidInput
            && e.message@ == "Skill is managed by Skills Center — remove from the agent first."@,
{
    match find_verified_center_match(skill, all_managed, all_targets, table) {
        None => Ok(()),
        Some(j) => {
            let canon = canonical_path(table, skill.path.as_str());
            if deployed_at_exec(&all_managed[j], all_targets, skill.path.as_str(), &canon, table) {
                Err(AppError::invalid_input("Skill is managed by Skills Center — remove from the agent first."))
            } else {
                Ok(())
            }
        },
    }
}

// ---------------------------------------------------------------------------
// Repairing stranded skills
// ---------------------------------------------------------------------------

/// The skill has a non-empty source reference but no target at all.
pub open spec fn is_stranded_candidate(m: SkillRecord, targets: Seq<SkillTargetRecord>) -> bool {
    &&& m.source_ref matches Some(r) && r@.len() > 0
    &&& forall|t: int| 0 <= t < targets.len() ==> (#[trigger] targets[t]).skill_id@ != m.id@
}

/// Whether any skill could be stranded: one with a source reference and no
/// target. Where none is, the repair need not look at the disk.
pub fn has_stranded_candidate(all_managed: &[SkillRecord], all_targets: &[SkillTargetRecord]) -> (r: bool)
    ensures
        r == exists|i: int| 0 <= i < all_managed.len() && is_stranded_candidate(#[trigger] all_managed@[i], all_targets@),
{
    let mut i: usize = 0;
    while i < all_managed.len()
        invariant
            i <= all_managed.len(),
            forall|k: int| 0 <= k < i ==> !is_stranded_candidate(#[trigger] all_managed@[k], all_targets@),
        decreases all_managed.len() - i,
    {
        let m = &all_managed[i];
        let has_ref = match &m.source_ref {
            Some(r) => !r.as_str().is_empty(),
            None => false,
        };
        if has_ref {
            let mut t: usize = 0;
            let mut targeted = false;
            while t < all_targets.len()
                invariant
                    t <= all_targets.len(),
                    !targeted ==> forall|k: int| 0 <= k < t ==> (#[trigger] all_targets@[k]).skill_id@ != m.id@,
                    targeted ==> exists|k: int| 0 <= k < all_targets.len() && (#[trigger] all_targets@[k]).skill_id@ == m.id@,
                decreases all_targets.len() - t,
            {
                if str_eq(all_targets[t].skill_id.as_str(), m.id.as_str()) {
                    targeted = true;
                }
                t += 1;
            }
            if !targeted {
                assert(is_stranded_candidate(all_managed@[i as int], all_targets@));
                return true;
            }
        }
        i += 1;
    }
    false
}

/// A managed skill was imported from the agent's copy at `skill`'s path.
pub open spec fn imported_from_pred(skill: ProjectSkillInfo, table: Seq<(String, String)>) -> spec_fn(SkillRecord) -> bool {
    |m: SkillRecord| source_ref_matches(skill.path@, canonical_of(table, skill.path@), m, table)
}

/// Some deployment of the skill `id` to the agent `tool` is recorded.
pub open spec fn has_target(targets: Seq<SkillTargetRecord>, id: Seq<char>, tool: Seq<char>) -> bool {
    exists|t: int| 0 <= t < targets.len() && (#[trigger] targets[t]).skill_id@ == id && targets[t].tool@ == tool
}

/// Which managed skill a stranded skill found in the directory of agent
/// `tool` is repaired as: the first managed skill imported from it, where
/// it has no deployment to this agent yet and the two copies are in sync.
pub open spec fn spec_stranded_repair(
    skill: ProjectSkillInfo,
    tool: Seq<char>,
    managed: Seq<SkillRecord>,
    targets: Seq<SkillTargetRecord>,
    table: Seq<(String, String)>,
) -> Option<int> {
    let j = first_where(managed, imported_from_pred(skill, table));
    if j < managed.len() && !has_target(targets, managed[j].id@, tool)
        && spec_sync_status(skill, Some(managed[j])) == "in_sync"@ {
        Some(j)
    } else {
        None
    }
}

/// A repair is done once: after the repair registers the deployment of the
/// chosen skill to the agent, the same stranded skill asks for no repair.
pub proof fn lemma_repair_is_idempotent(
    skill: ProjectSkillInfo,
    tool: Seq<char>,
    managed: Seq<SkillRecord>,
    targets: Seq<SkillTargetRecord>,
    table: Seq<(String, String)>,
    added: SkillTargetRecord,
)
    requires
        spec_stranded_repair(skill, tool, managed, targets, table) matches Some(j)
            && added.skill_id@ == managed[j].id@ && added.tool@ == tool,
    ensures
        spec_stranded_repair(skill, tool, managed, targets.push(added), table) is None,
{
    let j = first_where(managed, imported_from_pred(skill, table));
    let after = targets.push(added);
    assert(after[targets.len() as int] == added);
    assert(has_target(after, managed[j].id@, tool));
}

/// Whether a stranded skill found in the directory of agent `tool` is to be
/// repaired, and which managed skill it is: the first managed skill imported
/// from it, where no target of that skill is for this agent yet and the two
/// copies are in sync (a diverged copy is left for the user).
fn first_stranded_repair(
    skill: &ProjectSkillInfo,
    tool: &str,
    all_managed: &[SkillRecord],
    targets: &[SkillTargetRecord],
    table: &[(String, String)],
) -> (r: Option<usize>)
    ensures
        match r {
            Some(j) => {
                &&& j < all_managed.len()
                &&& source_ref_matches(skill.path@, canonical_of(table@, skill.path@), all_managed@[j as int], table@)
                &&& forall|k: int| 0 <= k < j ==> !source_ref_matches(skill.path@, canonical_of(table@, skill.path@), #[trigger] all_managed@[k], table@)
                &&& forall|t: int| 0 <= t < targets.len() ==> !((#[trigger] targets@[t]).skill_id@ == all_managed@[j as int].id@
                    && targets@[t].tool@ == tool@)
                &&& spec_sync_status(*skill, Some(all_managed@[j as int])) == "in_sync"@
            },
            None => forall|j: int| 0 <= j < all_managed.len()
                && source_ref_matches(skill.path@, canonical_of(table@, skill.path@), #[trigger] all_managed@[j], table@)
                && (forall|k: int| 0 <= k < j ==> !source_ref_matches(skill.path@, canonical_of(table@, skill.path@), #[trigger] all_managed@[k], table@))
                ==> (exists|t: int| 0 <= t < targets.len() && (#[trigger] targets@[t]).skill_id@ == all_managed@[j].id@
                    && targets@[t].tool@ == tool@)
                    || spec_sync_status(*skill, Some(all_managed@[j])) != "in_sync"@,
        },
{
    let canon = canonical_path(table, skill.path.as_str());
    let mut i: usize = 0;
    while i < all_managed.len()
        invariant
            i <= all_managed.len(),
            opt_view(canon) == canonical_of(table@, skill.path@),
            forall|k: int| 0 <= k < i ==> !source_ref_matches(skill.path@, canonical_of(table@, skill.path@), #[trigger] all_managed@[k], table@),
        decreases all_managed.len() - i,
    {
        if source_ref_matches_skill_path(skill.path.as_str(), &canon, &all_managed[i], table) {
            let m = &all_managed[i];
            let mut t: usize = 0;
            while t < targets.len()
                invariant
                    t <= targets.len(),
                    i < all_managed.len(),
                    *m == all_managed@[i as int],
                    source_ref_matches(skill.path@, canonical_of(table@, skill.path@), all_managed@[i as int], table@),
                    forall|k: int| 0 <= k < i ==> !source_ref_matches(skill.path@, canonical_of(table@, skill.path@), #[trigger] all_managed@[k], table@),
                    forall|k: int| 0 <= k < t ==> !((#[trigger] targets@[k]).skill_id@ == m.id@ && targets@[k].tool@ == tool@),
                decreases targets.len() - t,
            {
                if str_eq(targets[t].skill_id.as_str(), m.id.as_str()) && str_eq(targets[t].tool.as_str(), tool) {
                    proof {
                        let canon_s = canonical_of(table@, skill.path@);
                        assert forall|j: int| 0 <= j < all_managed.len()
                            && source_ref_matches(skill.path@, canon_s, #[trigger] all_managed@[j], table@)
                            && (forall|k: int| 0 <= k < j ==> !source_ref_matches(skill.path@, canon_s, #[trigger] all_managed@[k], table@))
                            implies (exists|u: int| 0 <= u < targets.len() && (#[trigger] targets@[u]).skill_id@ == all_managed@[j].id@
                                && targets@[u].tool@ == tool@)
                                || spec_sync_status(*skill, Some(all_managed@[j])) != "in_sync"@ by {
                            if j > i {
                                assert(source_ref_matches(skill.path@, canon_s, all_managed@[i as int], table@));
                            }
                            assert(j == i);
                            assert(targets@[t as int].skill_id@ == all_managed@[j].id@);
                        }
                    }
                    return None;
                }
                t += 1;
            }
            let status = classify_sync_status(skill, Some(m));
            if !str_eq(status.as_str(), "in_sync") {
                proof {
                    let canon_s = canonical_of(table@, skill.path@);
                    assert forall|j: int| 0 <= j < all_managed.len()
                        && source_ref_matches(skill.path@, canon_s, #[trigger] all_managed@[j], table@)
                        && (forall|k: int| 0 <= k < j ==> !source_ref_matches(skill.path@, canon_s, #[trigger] all_managed@[k], table@))
                        implies (exists|u: int| 0 <= u < targets.len() && (#[trigger] targets@[u]).skill_id@ == all_managed@[j].id@
                            && targets@[u].tool@ == tool@)
                            || spec_sync_status(*skill, Some(all_managed@[j])) != "in_sync"@ by {
                        if j > i {
                            assert(source_ref_matches(skill.path@, canon_s, all_managed@[i as int], table@));
                        }
                        assert(j == i);
                    }
                }
                return None;
            }
            return Some(i);
        }
        i += 1;
    }
    None
}

/// Whether a stranded skill found in the directory of agent `tool` is to be
/// repaired, and which managed skill it is (see [`spec_stranded_repair`]).
pub fn stranded_repair(
    skill: &ProjectSkillInfo,
    tool: &str,
    all_managed: &[SkillRecord],
    targets: &[SkillTargetRecord],
    table: &[(String, String)],
) -> (r: Option<usize>)
    ensures
        match r {
            Some(j) => spec_stranded_repair(*skill, tool@, all_managed@, targets@, table@) == Some(j as int),
            None => spec_stranded_repair(*skill, tool@, all_managed@, targets@, table@) is None,
        },
{
    let r = first_stranded_repair(skill, tool, all_managed, targets, table);
    proof {
        let p = imported_from_pred(*skill, table@);
        lemma_first_where(all_managed@, p);
        let f = first_where(all_managed@, p);
        match r {
            Some(j) => {
                lemma_first_where_is(all_managed@, p, j as int);
                if has_target(targets@, all_managed@[j as int].id@, tool@) {
                    let t = choose|t: int| 0 <= t < targets.len() && (#[trigger] targets@[t]).skill_id@ == all_managed@[j as int].id@
                        && targets@[t].tool@ == tool@;
                    assert(!((targets@[t]).skill_id@ == all_managed@[j as int].id@ && targets@[t].tool@ == tool@));
                }
            },
            None => {
                if f < all_managed.len() {
                    assert(p(all_managed@[f]));
                    assert(forall|k: int| 0 <= k < f ==> !p(#[trigger] all_managed@[k]));
                }
            },
        }
    }
    r
}

} // verus!

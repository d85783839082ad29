//! What the command-line tool decides from the references the user types:
//! which kind of source a reference names, how a skills.sh shorthand splits
//! into a repository and a skill, which stored skills a reference names, and
//! which (skill, agent) pairs a deployment changes.
use crate::error::{AppError, ErrorKind};
use crate::settings::split_on;
use crate::skills::{path_file_name, spec_path_file_name, SkillRecord, SkillTargetRecord};
use crate::text::{count_where, first_where, lemma_first_where, strs_view};
use crate::text::{chars_of, ends_with, find, push_str, starts_with, str_eq, string_of_range};
use vstd::prelude::*;

verus! {

/// The kind of source an install reference names.
#[derive(PartialEq, Eq, Structural, Debug, Clone, Copy)]
pub enum InstallKind {
    Local,
    Git,
    Skillssh,
}

/// Whether `c` is alphanumeric as Unicode defines it.
pub uninterp spec fn spec_is_alphanumeric(c: char) -> bool;

/// `char::is_alphanumeric`: whether `c` is alphabetic or numeric by Unicode's
/// properties. The property tables are named, not restated.
#[verifier::external_body]
fn is_alphanumeric(c: char) -> (r: bool)
    ensures
        r == spec_is_alphanumeric(c),
{
    c.is_alphanumeric()
}

/// A segment of a shorthand: not empty, and only alphanumeric characters,
/// `_`, `.` and `-`.
pub open spec fn seg_ok(s: Seq<char>) -> bool {
    s.len() > 0 && forall|i: int| 0 <= i < s.len() ==> {
        let c = #[trigger] s[i];
        spec_is_alphanumeric(c) || c == '_' || c == '.' || c == '-'
    }
}

/// `str::split_once('@')`: the text before and after the first `@`.
pub open spec fn split_at_first(s: Seq<char>, c: char) -> Option<(Seq<char>, Seq<char>)> {
    let k = crate::text::run(s, crate::text::ne_pred(c)) as int;
    if k < s.len() {
        Some((s.take(k), s.skip(k + 1)))
    } else {
        None
    }
}

/// Every piece is a valid segment.
pub open spec fn all_segments_ok(parts: Seq<Seq<char>>) -> bool {
    forall|i: int| 0 <= i < parts.len() ==> seg_ok(#[trigger] parts[i])
}

/// A skills.sh shorthand: `owner/repo` or `owner/repo/skill`, optionally
/// followed by `@skill`, every segment a valid one (see [`seg_ok`]).
pub open spec fn spec_is_skillssh_shorthand(s: Seq<char>) -> bool {
    let head = match split_at_first(s, '@') {
        Some((h, t)) => if seg_ok(t) {
            Some(h)
        } else {
            None
        },
        None => Some(s),
    };
    match head {
        Some(h) => {
            let parts = split_on(h, '/');
            (parts.len() == 2 || parts.len() == 3) && all_segments_ok(parts)
        },
        None => false,
    }
}

/// Splits `s` at its first `c`.
fn split_once_char(s: &str, c: char) -> (r: Option<(String, String)>)
    ensures
        match r {
            Some((a, b)) => split_at_first(s@, c) == Some((a@, b@)),
            None => split_at_first(s@, c) is None,
        },
{
    let cs = chars_of(s);
    let mut k: usize = 0;
    while k < cs.len() && cs[k] != c
        invariant
            k <= cs.len(),
            cs@ == s@,
            forall|m: int| 0 <= m < k ==> #[trigger] cs@[m] != c,
        decreases cs.len() - k,
    {
        k += 1;
    }
    proof {
        crate::text::lemma_run_is_first_failure(s@, crate::text::ne_pred(c), k as int);
    }
    if k < cs.len() {
        let a = string_of_range(&cs, 0, k);
        let b = string_of_range(&cs, k + 1, cs.len());
        assert(a@ =~= s@.take(k as int));
        assert(b@ =~= s@.skip(k + 1));
        Some((a, b))
    } else {
        None
    }
}

/// Whether `s` is a valid segment (see [`seg_ok`]).
fn segment_ok(s: &str) -> (r: bool)
    ensures
        r == seg_ok(s@),
{
    let cs = chars_of(s);
    if cs.len() == 0 {
        return false;
    }
    let mut i: usize = 0;
    while i < cs.len()
        invariant
            i <= cs.len(),
            cs@ == s@,
            forall|m: int| 0 <= m < i ==> {
                let c = #[trigger] cs@[m];
                spec_is_alphanumeric(c) || c == '_' || c == '.' || c == '-'
            },
        decreases cs.len() - i,
    {
        let c = cs[i];
        if !(is_alphanumeric(c) || c == '_' || c == '.' || c == '-') {
            return false;
        }
        i += 1;
    }
    true
}

/// Whether `s` is a skills.sh shorthand (see [`spec_is_skillssh_shorthand`]).
pub fn is_skillssh_shorthand(s: &str) -> (r: bool)
    ensures
        r == spec_is_skillssh_shorthand(s@),
{
    let head = match split_once_char(s, '@') {
        Some((h, t)) => {
            if segment_ok(t.as_str()) {
                h
            } else {
                return false;
            }
        },
        None => s.to_string(),
    };
    let parts = crate::remote::split_exec(head.as_str(), '/');
    let ghost pv = crate::text::strs_view(parts@);
    if !(parts.len() == 2 || parts.len() == 3) {
        return false;
    }
    assert(spec_is_skillssh_shorthand(s@) == all_segments_ok(pv));
    let mut i: usize = 0;
    while i < parts.len()
        invariant
            i <= parts.len(),
            pv == crate::text::strs_view(parts@),
            spec_is_skillssh_shorthand(s@) == all_segments_ok(pv),
            forall|m: int| 0 <= m < i ==> seg_ok(#[trigger] pv[m]),
        decreases parts.len() - i,
    {
        if !segment_ok(parts[i].as_str()) {
            assert(pv[i as int] == parts@[i as int]@);
            return false;
        }
        assert(pv[i as int] == parts@[i as int]@);
        i += 1;
    }
    true
}

/// The kind of source a reference names, unless a flag forces one: a local
/// path (`./`, `../`, `/` or `~/`), a git URL (holding `://`, ending in
/// `.git` or starting with `git@`), or a skills.sh shorthand. Anything else
/// is ambiguous.
pub open spec fn spec_classify_ref(reference: Seq<char>, force_local: bool, force_git: bool, force_skillssh: bool) -> Option<InstallKind> {
    if force_local {
        Some(InstallKind::Local)
    } else if force_git {
        Some(InstallKind::Git)
    } else if force_skillssh {
        Some(InstallKind::Skillssh)
    } else if starts_with(reference, "./"@) || starts_with(reference, "../"@) || starts_with(reference, "/"@)
        || starts_with(reference, "~/"@) {
        Some(InstallKind::Local)
    } else if find(reference, "://"@) is Some || ends_with(reference, ".git"@) || starts_with(reference, "git@"@) {
        Some(InstallKind::Git)
    } else if spec_is_skillssh_shorthand(reference) {
        Some(InstallKind::Skillssh)
    } else {
        None
    }
}

/// The kind of source a reference names (see [`spec_classify_ref`]); an
/// ambiguous reference is an "invalid input" error that names it.
pub fn classify_ref(reference: &str, force_local: bool, force_git: bool, force_skillssh: bool) -> (r: Result<InstallKind, AppError>)
    ensures
        match spec_classify_ref(reference@, force_local, force_git, force_skillssh) {
            Some(k) => r == Ok::<InstallKind, AppError>(k),
            None => r matches Err(e) && e.kind == ErrorKind::InvalidInput && e.message@ == "ambiguous ref '"@
                + reference@ + "'; pass --local, --git, or --skillssh to disambiguate"@,
        },
{
    if force_local {
        return Ok(InstallKind::Local);
    }
    if force_git {
        return Ok(InstallKind::Git);
    }
    if force_skillssh {
        return Ok(InstallKind::Skillssh);
    }
    let cs = chars_of(reference);
    let n = cs.len();
    assert(cs@.subrange(0, n as int) =~= reference@);
    let dot = chars_of("./");
    let dotdot = chars_of("../");
    let slash = chars_of("/");
    let home = chars_of("~/");
    if crate::text::starts_with_at(&cs, 0, n, &dot) || crate::text::starts_with_at(&cs, 0, n, &dotdot)
        || crate::text::starts_with_at(&cs, 0, n, &slash) || crate::text::starts_with_at(&cs, 0, n, &home) {
        return Ok(InstallKind::Local);
    }
    let scheme = chars_of("://");
    let git_suffix = chars_of(".git");
    let git_at = chars_of("git@");
    if crate::text::find_in(&cs, 0, n, &scheme).is_some() || crate::text::ends_with_at(&cs, 0, n, &git_suffix)
        || crate::text::starts_with_at(&cs, 0, n, &git_at) {
        return Ok(InstallKind::Git);
    }
    if is_skillssh_shorthand(reference) {
        return Ok(InstallKind::Skillssh);
    }
    let mut msg = "ambiguous ref '".to_string();
    push_str(&mut msg, reference);
    push_str(&mut msg, "'; pass --local, --git, or --skillssh to disambiguate");
    Err(AppError { kind: ErrorKind::InvalidInput, message: msg })
}

/// How a skills.sh shorthand splits into a repository (`owner/repo`) and a
/// skill id: at its first `@`, whose head must then have exactly two
/// segments; else `owner/repo` (the skill being `repo`) or
/// `owner/repo/skill`. `None` where it has another shape.
pub open spec fn spec_parse_shorthand(s: Seq<char>) -> Option<(Seq<char>, Seq<char>)> {
    match split_at_first(s, '@') {
        Some((head, skill)) => if split_on(head, '/').len() == 2 {
            Some((head, skill))
        } else {
            None
        },
        None => {
            let parts = split_on(s, '/');
            if parts.len() == 2 {
                Some((s, parts[1]))
            } else if parts.len() == 3 {
                Some((parts[0] + "/"@ + parts[1], parts[2]))
            } else {
                None
            }
        },
    }
}

/// Splits a skills.sh shorthand (see [`spec_parse_shorthand`]); another
/// shape is an "invalid input" error.
pub fn parse_skillssh_shorthand(s: &str) -> (r: Result<(String, String), AppError>)
    ensures
        match spec_parse_shorthand(s@) {
            Some((repo, skill)) => r matches Ok((a, b)) && a@ == repo && b@ == skill,
            None => r matches Err(e) && e.kind == ErrorKind::InvalidInput && (if split_at_first(s@, '@') is Some {
                e.message@ == "invalid shorthand: '"@ + s@ + "' (expected owner/repo@skill)"@
            } else {
                e.message@ == "invalid shorthand: '"@ + s@ + "'"@
            }),
        },
{
    if let Some((head, skill)) = split_once_char(s, '@') {
        let parts = crate::remote::split_exec(head.as_str(), '/');
        if parts.len() != 2 {
            let mut msg = "invalid shorthand: '".to_string();
            push_str(&mut msg, s);
            push_str(&mut msg, "' (expected owner/repo@skill)");
            return Err(AppError { kind: ErrorKind::InvalidInput, message: msg });
        }
        return Ok((head, skill));
    }
    let parts = crate::remote::split_exec(s, '/');
    if parts.len() == 2 {
        assert(crate::text::strs_view(parts@)[1] == parts@[1]@);
        Ok((s.to_string(), parts[1].clone()))
    } else if parts.len() == 3 {
        assert(crate::text::strs_view(parts@)[0] == parts@[0]@);
        assert(crate::text::strs_view(parts@)[1] == parts@[1]@);
        assert(crate::text::strs_view(parts@)[2] == parts@[2]@);
        let mut repo = parts[0].clone();
        push_str(&mut repo, "/");
        push_str(&mut repo, parts[1].as_str());
        Ok((repo, parts[2].clone()))
    } else {
        let mut msg = "invalid shorthand: '".to_string();
        push_str(&mut msg, s);
        push_str(&mut msg, "'");
        Err(AppError { kind: ErrorKind::InvalidInput, message: msg })
    }
}


/// Whether a stored skill answers to `reference`: by its id, its name, its
/// central path, or the last component of its central path.
pub open spec fn answers_to(skill: SkillRecord, reference: Seq<char>) -> bool {
    ||| skill.id@ == reference
    ||| skill.name@ == reference
    ||| skill.central_path@ == reference
    ||| spec_path_file_name(skill.central_path@) == Some(reference)
}

/// The test of answering to `reference`, as a predicate.
pub open spec fn answers_pred(reference: Seq<char>) -> spec_fn(SkillRecord) -> bool {
    |s: SkillRecord| answers_to(s, reference)
}

/// How many of `skills` answer to `reference`.
pub open spec fn answer_count(skills: Seq<SkillRecord>, reference: Seq<char>) -> nat {
    count_where(skills, answers_pred(reference))
}

/// The index of the first of `skills` that answers to `reference`; the
/// length where none does.
pub open spec fn first_answer(skills: Seq<SkillRecord>, reference: Seq<char>) -> int {
    first_where(skills, answers_pred(reference))
}

/// What resolving `reference` among `skills` gives: the index of the one
/// skill that answers to it, or the error's kind and message where none or
/// several do.
pub open spec fn spec_resolve_skill(skills: Seq<SkillRecord>, reference: Seq<char>) -> Result<int, (ErrorKind, Seq<char>)> {
    let c = answer_count(skills, reference);
    if c == 1 {
        Ok(first_answer(skills, reference))
    } else if c == 0 {
        Err((ErrorKind::NotFound, "skill not found: "@ + reference))
    } else {
        Err((ErrorKind::InvalidInput, "skill reference is ambiguous: "@ + reference))
    }
}

/// The error as its kind and message.
pub open spec fn err_view(e: AppError) -> (ErrorKind, Seq<char>) {
    (e.kind, e.message@)
}

/// A result of the library as its spec counterpart.
pub open spec fn index_result_view(r: Result<usize, AppError>) -> Result<int, (ErrorKind, Seq<char>)> {
    match r {
        Ok(i) => Ok(i as int),
        Err(e) => Err(err_view(e)),
    }
}

/// Whether `skill` answers to `reference` (see [`answers_to`]).
fn skill_answers_to(skill: &SkillRecord, reference: &str) -> (b: bool)
    ensures
        b == answers_to(*skill, reference@),
{
    if str_eq(skill.id.as_str(), reference) || str_eq(skill.name.as_str(), reference)
        || str_eq(skill.central_path.as_str(), reference) {
        return true;
    }
    match path_file_name(skill.central_path.as_str()) {
        Some(n) => str_eq(n.as_str(), reference),
        None => false,
    }
}

/// The stored skill that `reference` names (see [`spec_resolve_skill`]),
/// by its index in `skills`.
pub fn resolve_skill(skills: &Vec<SkillRecord>, reference: &str) -> (r: Result<usize, AppError>)
    ensures
        index_result_view(r) == spec_resolve_skill(skills@, reference@),
        r matches Ok(i) ==> i < skills.len() && answers_to(skills@[i as int], reference@),
{
    let mut count: usize = 0;
    let mut first: usize = 0;
    let mut i: usize = 0;
    while i < skills.len()
        invariant
            i <= skills.len(),
            count as nat == answer_count(skills@.take(i as int), reference@),
            count <= i,
            first as int == first_answer(skills@.take(i as int), reference@),
        decreases skills.len() - i,
    {
        assert(skills@.take(i as int + 1).drop_last() =~= skills@.take(i as int));
        proof {
            lemma_first_where(skills@.take(i as int), answers_pred(reference@));
        }
        if skill_answers_to(&skills[i], reference) {
            if first == i {
                first = i;
            }
            count = count + 1;
        } else if first == i {
            first = i + 1;
        }
        i = i + 1;
    }
    assert(skills@.take(skills.len() as int) =~= skills@);
    proof {
        lemma_first_where(skills@, answers_pred(reference@));
    }
    if count == 1 {
        Ok(first)
    } else if count == 0 {
        let mut msg = "skill not found: ".to_string();
        push_str(&mut msg, reference);
        Err(AppError { kind: ErrorKind::NotFound, message: msg })
    } else {
        let mut msg = "skill reference is ambiguous: ".to_string();
        push_str(&mut msg, reference);
        Err(AppError { kind: ErrorKind::InvalidInput, message: msg })
    }
}


/// Whether one of the skills at `picked` has the id `id`.
pub open spec fn id_taken(skills: Seq<SkillRecord>, picked: Seq<int>, id: Seq<char>) -> bool {
    exists|j: int| 0 <= j < picked.len() && (#[trigger] skills[picked[j]]).id@ == id
}

/// What resolving `references` in turn gives: the indices of the skills they
/// name, in the order first named, each skill (by id) once; or the error of
/// the first reference that names no skill or several.
pub open spec fn spec_resolve_references(skills: Seq<SkillRecord>, references: Seq<Seq<char>>) -> Result<Seq<int>, (ErrorKind, Seq<char>)>
    decreases references.len(),
{
    if references.len() == 0 {
        Ok(seq![])
    } else {
        match spec_resolve_references(skills, references.drop_last()) {
            Err(e) => Err(e),
            Ok(picked) => match spec_resolve_skill(skills, references.last()) {
                Err(e) => Err(e),
                Ok(i) => if id_taken(skills, picked, skills[i].id@) {
                    Ok(picked)
                } else {
                    Ok(picked.push(i))
                },
            },
        }
    }
}

/// Once resolving a prefix of the references fails, resolving them all
/// fails with the same error.
proof fn lemma_resolve_error_persists(skills: Seq<SkillRecord>, references: Seq<Seq<char>>, k: int)
    requires
        0 <= k <= references.len(),
        spec_resolve_references(skills, references.take(k)) is Err,
    ensures
        spec_resolve_references(skills, references) == spec_resolve_references(skills, references.take(k)),
    decreases references.len(),
{
    if k == references.len() {
        assert(references.take(k) =~= references);
    } else {
        assert(references.drop_last().take(k) =~= references.take(k));
        lemma_resolve_error_persists(skills, references.drop_last(), k);
    }
}


/// Resolving references never yields the same skill twice: the skills it
/// yields have distinct ids.
pub proof fn lemma_resolved_skills_distinct(skills: Seq<SkillRecord>, references: Seq<Seq<char>>)
    ensures
        spec_resolve_references(skills, references) matches Ok(picked) ==> forall|a: int, b: int|
            0 <= a < b < picked.len() ==> (#[trigger] skills[picked[a]]).id@ != (#[trigger] skills[picked[b]]).id@,
    decreases references.len(),
{
    if references.len() > 0 {
        lemma_resolved_skills_distinct(skills, references.drop_last());
        match spec_resolve_references(skills, references.drop_last()) {
            Ok(prev) => match spec_resolve_skill(skills, references.last()) {
                Ok(i) => {
                    if !id_taken(skills, prev, skills[i].id@) {
                        let picked = prev.push(i);
                        assert forall|a: int, b: int| 0 <= a < b < picked.len()
                            implies (#[trigger] skills[picked[a]]).id@ != (#[trigger] skills[picked[b]]).id@ by {
                            if b == prev.len() {
                                assert(picked[a] == prev[a]);
                                if skills[prev[a]].id@ == skills[i].id@ {
                                    assert(id_taken(skills, prev, skills[i].id@));
                                }
                            } else {
                                assert(picked[a] == prev[a]);
                                assert(picked[b] == prev[b]);
                            }
                        }
                    }
                },
                Err(_) => {},
            },
            Err(_) => {},
        }
    }
}

/// Indices as integers.
pub open spec fn indices_view(v: Seq<usize>) -> Seq<int> {
    v.map_values(|x: usize| x as int)
}

/// The stored skills that `references` name, by their indices in `skills`
/// (see [`spec_resolve_references`]); an empty list of references is an
/// "invalid input" error.
pub fn resolve_skill_references(skills: &Vec<SkillRecord>, references: &Vec<String>) -> (r: Result<Vec<usize>, AppError>)
    ensures
        references.len() == 0 ==> (r matches Err(e) && e.kind == ErrorKind::InvalidInput
            && e.message@ == "no skill ref provided"@),
        references.len() > 0 ==> match spec_resolve_references(skills@, crate::text::strs_view(references@)) {
            Ok(picked) => (r matches Ok(v) && indices_view(v@) == picked),
            Err(e) => (r matches Err(x) && err_view(x) == e),
        },
        r matches Ok(v) ==> forall|j: int| 0 <= j < v.len() ==> v@[j] < skills.len(),
{
    if references.len() == 0 {
        return Err(AppError::invalid_input("no skill ref provided"));
    }
    let ghost refs = crate::text::strs_view(references@);
    let mut picked: Vec<usize> = Vec::new();
    let mut k: usize = 0;
    assert(refs.take(0) =~= Seq::<Seq<char>>::empty());
    assert(indices_view(picked@) =~= Seq::<int>::empty());
    while k < references.len()
        invariant
            k <= references.len(),
            refs == crate::text::strs_view(references@),
            spec_resolve_references(skills@, refs.take(k as int)) == Ok::<Seq<int>, (ErrorKind, Seq<char>)>(indices_view(picked@)),
            forall|j: int| 0 <= j < picked.len() ==> picked@[j] < skills.len(),
        decreases references.len() - k,
    {
        assert(refs.take(k as int + 1).drop_last() =~= refs.take(k as int));
        assert(refs.take(k as int + 1).last() == references@[k as int]@);
        match resolve_skill(skills, references[k].as_str()) {
            Err(e) => {
                proof {
                    lemma_resolve_error_persists(skills@, refs, k as int + 1);
                }
                return Err(e);
            },
            Ok(i) => {
                let mut taken = false;
                let mut j: usize = 0;
                while j < picked.len()
                    invariant
                        j <= picked.len(),
                        i < skills.len(),
                        forall|t: int| 0 <= t < picked.len() ==> picked@[t] < skills.len(),
                        taken == exists|t: int| 0 <= t < j && (#[trigger] skills@[indices_view(picked@)[t]]).id@ == skills@[i as int].id@,
                    decreases picked.len() - j,
                {
                    let p = picked[j];
                    if str_eq(skills[p].id.as_str(), skills[i].id.as_str()) {
                        taken = true;
                    }
                    proof {
                        if skills@[p as int].id@ == skills@[i as int].id@ {
                            assert(skills@[indices_view(picked@)[j as int]].id@ == skills@[i as int].id@);
                        }
                    }
                    j = j + 1;
                }
                if !taken {
                    let ghost before = picked@;
                    picked.push(i);
                    assert(indices_view(picked@) =~= indices_view(before).push(i as int));
                }
            },
        }
        k = k + 1;
    }
    assert(refs.take(references.len() as int) =~= refs);
    Ok(picked)
}


/// Whether target `t` deploys skill `skill_id` to agent `agent`; when
/// deploying, only a target in the `ok` state counts.
pub open spec fn target_counts(t: SkillTargetRecord, skill_id: Seq<char>, agent: Seq<char>, deploy: bool) -> bool {
    t.skill_id@ == skill_id && t.tool@ == agent && (!deploy || t.status@ == "ok"@)
}

/// Whether one of `targets` deploys the skill to the agent (see [`target_counts`]).
pub open spec fn pair_present(targets: Seq<SkillTargetRecord>, skill_id: Seq<char>, agent: Seq<char>, deploy: bool) -> bool {
    exists|k: int| 0 <= k < targets.len() && target_counts(#[trigger] targets[k], skill_id, agent, deploy)
}

/// The (skill, agent) pairs that a deployment changes: of the requested
/// skills and agents, when deploying those not yet deployed, when removing
/// those deployed.
pub open spec fn changed_pairs_set(
    skill_ids: Seq<Seq<char>>,
    agents: Seq<Seq<char>>,
    targets: Seq<SkillTargetRecord>,
    deploy: bool,
) -> Set<(Seq<char>, Seq<char>)> {
    Set::new(|p: (Seq<char>, Seq<char>)| skill_ids.contains(p.0) && agents.contains(p.1)
        && pair_present(targets, p.0, p.1, deploy) != deploy)
}

/// Pairs of strings as pairs of character sequences.
pub open spec fn pairs_view(v: Seq<(String, String)>) -> Seq<(Seq<char>, Seq<char>)> {
    v.map_values(|p: (String, String)| (p.0@, p.1@))
}

/// Whether one of `targets` deploys the skill to the agent (see [`pair_present`]).
pub(crate) fn pair_present_in(targets: &Vec<SkillTargetRecord>, skill_id: &str, agent: &str, deploy: bool) -> (b: bool)
    ensures
        b == pair_present(targets@, skill_id@, agent@, deploy),
{
    let mut k: usize = 0;
    while k < targets.len()
        invariant
            k <= targets.len(),
            forall|t: int| 0 <= t < k ==> !target_counts(#[trigger] targets@[t], skill_id@, agent@, deploy),
        decreases targets.len() - k,
    {
        let t = &targets[k];
        if str_eq(t.skill_id.as_str(), skill_id) && str_eq(t.tool.as_str(), agent)
            && (!deploy || str_eq(t.status.as_str(), "ok")) {
            assert(target_counts(targets@[k as int], skill_id@, agent@, deploy));
            return true;
        }
        k = k + 1;
    }
    false
}

/// Whether `pairs` holds the pair (`a`, `b`).
fn pairs_contain(pairs: &Vec<(String, String)>, a: &str, b: &str) -> (r: bool)
    ensures
        r == pairs_view(pairs@).contains((a@, b@)),
{
    let mut k: usize = 0;
    while k < pairs.len()
        invariant
            k <= pairs.len(),
            forall|t: int| 0 <= t < k ==> pairs_view(pairs@)[t] != (a@, b@),
        decreases pairs.len() - k,
    {
        if str_eq(pairs[k].0.as_str(), a) && str_eq(pairs[k].1.as_str(), b) {
            assert(pairs_view(pairs@)[k as int] == (a@, b@));
            return true;
        }
        k = k + 1;
    }
    false
}

/// The (skill, agent) pairs that deploying (or removing) `skill_ids` on
/// `agent_keys` changes, given the recorded `targets`, each once (see
/// [`changed_pairs_set`]); their number is what the report counts as
/// changed.
pub fn changed_deployment_pairs(
    skill_ids: &Vec<String>,
    agent_keys: &Vec<String>,
    targets: &Vec<SkillTargetRecord>,
    deploy: bool,
) -> (r: Vec<(String, String)>)
    ensures
        pairs_view(r@).to_set() == changed_pairs_set(strs_view(skill_ids@), strs_view(agent_keys@), targets@, deploy),
        pairs_view(r@).no_duplicates(),
{
    let ghost want = changed_pairs_set(strs_view(skill_ids@), strs_view(agent_keys@), targets@, deploy);
    let mut out: Vec<(String, String)> = Vec::new();
    let mut i: usize = 0;
    while i < skill_ids.len()
        invariant
            i <= skill_ids.len(),
            want == changed_pairs_set(strs_view(skill_ids@), strs_view(agent_keys@), targets@, deploy),
            pairs_view(out@).no_duplicates(),
            forall|k: int| 0 <= k < out.len() ==> want.contains(#[trigger] pairs_view(out@)[k]),
            forall|a: int, b: int| 0 <= a < i && 0 <= b < agent_keys.len()
                && want.contains((skill_ids@[a]@, agent_keys@[b]@))
                ==> pairs_view(out@).contains((#[trigger] skill_ids@[a]@, #[trigger] agent_keys@[b]@)),
        decreases skill_ids.len() - i,
    {
        let mut j: usize = 0;
        while j < agent_keys.len()
            invariant
                i < skill_ids.len(),
                j <= agent_keys.len(),
                want == changed_pairs_set(strs_view(skill_ids@), strs_view(agent_keys@), targets@, deploy),
                pairs_view(out@).no_duplicates(),
                forall|k: int| 0 <= k < out.len() ==> want.contains(#[trigger] pairs_view(out@)[k]),
                forall|a: int, b: int| 0 <= a < i && 0 <= b < agent_keys.len()
                    && want.contains((skill_ids@[a]@, agent_keys@[b]@))
                    ==> pairs_view(out@).contains((#[trigger] skill_ids@[a]@, #[trigger] agent_keys@[b]@)),
                forall|b: int| 0 <= b < j && want.contains((skill_ids@[i as int]@, agent_keys@[b]@))
                    ==> pairs_view(out@).contains((skill_ids@[i as int]@, #[trigger] agent_keys@[b]@)),
            decreases agent_keys.len() - j,
        {
            let s = skill_ids[i].as_str();
            let a = agent_keys[j].as_str();
            assert(strs_view(skill_ids@)[i as int] == s@);
            assert(strs_view(agent_keys@)[j as int] == a@);
            let present = pair_present_in(targets, s, a, deploy);
            if present != deploy && !pairs_contain(&out, s, a) {
                let ghost before = out@;
                out.push((skill_ids[i].clone(), agent_keys[j].clone()));
                assert(pairs_view(out@) =~= pairs_view(before).push((s@, a@)));
                assert(want.contains((s@, a@)));
                assert(pairs_view(out@)[before.len() as int] == (s@, a@));
                proof {
                    assert forall|x: int, y: int| 0 <= x < y < pairs_view(out@).len()
                        implies pairs_view(out@)[x] != pairs_view(out@)[y] by {
                        if y == before.len() {
                            assert(pairs_view(before)[x] == pairs_view(out@)[x]);
                        } else {
                            assert(pairs_view(before)[x] == pairs_view(out@)[x]);
                            assert(pairs_view(before)[y] == pairs_view(out@)[y]);
                        }
                    }
                    assert forall|k: int| 0 <= k < out.len() implies want.contains(#[trigger] pairs_view(out@)[k]) by {
                        if k < before.len() {
                            assert(pairs_view(before)[k] == pairs_view(out@)[k]);
                        }
                    }
                    assert forall|p: (Seq<char>, Seq<char>)| pairs_view(before).contains(p)
                        implies pairs_view(out@).contains(p) by {
                        let t = choose|t: int| 0 <= t < pairs_view(before).len() && pairs_view(before)[t] == p;
                        assert(pairs_view(out@)[t] == p);
                    }
                }
            } else {
                proof {
                    if present != deploy {
                        assert(pairs_view(out@).contains((s@, a@)));
                    } else {
                        assert(!want.contains((s@, a@)));
                    }
                }
            }
            j = j + 1;
        }
        i = i + 1;
    }
    proof {
        assert forall|p: (Seq<char>, Seq<char>)| #[trigger] want.contains(p) implies pairs_view(out@).contains(p) by {
            let a = choose|a: int| 0 <= a < strs_view(skill_ids@).len() && strs_view(skill_ids@)[a] == p.0;
            let b = choose|b: int| 0 <= b < strs_view(agent_keys@).len() && strs_view(agent_keys@)[b] == p.1;
            assert(skill_ids@[a]@ == p.0);
            assert(agent_keys@[b]@ == p.1);
        }
        assert forall|p: (Seq<char>, Seq<char>)| #[trigger] pairs_view(out@).contains(p) implies want.contains(p) by {
            let t = choose|t: int| 0 <= t < pairs_view(out@).len() && pairs_view(out@)[t] == p;
        }
        assert(pairs_view(out@).to_set() =~= want);
    }
    out
}


/// Whether target `t` is the record of deploying `skill_id` to `agent`.
pub open spec fn is_pair_target(t: SkillTargetRecord, skill_id: Seq<char>, agent: Seq<char>) -> bool {
    t.skill_id@ == skill_id && t.tool@ == agent
}

/// The first of `targets` that records deploying `skill_id` to `agent`, if any.
pub fn deployment_target(targets: &Vec<SkillTargetRecord>, skill_id: &str, agent: &str) -> (r: Option<usize>)
    ensures
        match r {
            Some(k) => k < targets.len() && is_pair_target(targets@[k as int], skill_id@, agent@)
                && forall|t: int| 0 <= t < k ==> !is_pair_target(#[trigger] targets@[t], skill_id@, agent@),
            None => forall|t: int| 0 <= t < targets.len() ==> !is_pair_target(#[trigger] targets@[t], skill_id@, agent@),
        },
{
    let mut k: usize = 0;
    while k < targets.len()
        invariant
            k <= targets.len(),
            forall|t: int| 0 <= t < k ==> !is_pair_target(#[trigger] targets@[t], skill_id@, agent@),
        decreases targets.len() - k,
    {
        if str_eq(targets[k].skill_id.as_str(), skill_id) && str_eq(targets[k].tool.as_str(), agent) {
            return Some(k);
        }
        k = k + 1;
    }
    None
}

/// Whether one of `targets` has the target path `path`.
pub open spec fn path_referenced(targets: Seq<SkillTargetRecord>, path: Seq<char>) -> bool {
    exists|k: int| 0 <= k < targets.len() && (#[trigger] targets[k]).target_path@ == path
}

/// Whether previous target `t` of the pair is one whose path must be checked
/// after a removal: no current target still uses its path.
pub open spec fn left_behind(t: SkillTargetRecord, current: Seq<SkillTargetRecord>, skill_id: Seq<char>, agent: Seq<char>) -> bool {
    is_pair_target(t, skill_id, agent) && !path_referenced(current, t.target_path@)
}

/// The indices, in order, of the `previous` targets of the pair whose paths
/// no `current` target uses any more: after removing the pair, those paths
/// are the ones to look at on disk.
pub fn targets_left_behind(
    previous: &Vec<SkillTargetRecord>,
    current: &Vec<SkillTargetRecord>,
    skill_id: &str,
    agent: &str,
) -> (r: Vec<usize>)
    ensures
        indices_view(r@) == Seq::new(previous.len() as nat, |k: int| k).filter(
            |k: int| left_behind(previous@[k], current@, skill_id@, agent@),
        ),
{
    let ghost keep = |k: int| left_behind(previous@[k], current@, skill_id@, agent@);
    let mut out: Vec<usize> = Vec::new();
    let mut k: usize = 0;
    while k < previous.len()
        invariant
            k <= previous.len(),
            keep == (|k: int| left_behind(previous@[k], current@, skill_id@, agent@)),
            indices_view(out@) == Seq::new(k as nat, |x: int| x).filter(keep),
        decreases previous.len() - k,
    {
        let t = &previous[k];
        let mut referenced = false;
        if str_eq(t.skill_id.as_str(), skill_id) && str_eq(t.tool.as_str(), agent) {
            let mut c: usize = 0;
            while c < current.len()
                invariant
                    c <= current.len(),
                    k < previous.len(),
                    t == &previous@[k as int],
                    referenced == exists|x: int| 0 <= x < c && (#[trigger] current@[x]).target_path@ == t.target_path@,
                decreases current.len() - c,
            {
                if str_eq(current[c].target_path.as_str(), t.target_path.as_str()) {
                    referenced = true;
                }
                c = c + 1;
            }
        }
        let ghost before = out@;
        let wanted = str_eq(t.skill_id.as_str(), skill_id) && str_eq(t.tool.as_str(), agent) && !referenced;
        assert(wanted == keep(k as int));
        proof {
            reveal(Seq::filter);
            assert(Seq::new(k as nat + 1, |x: int| x).drop_last() =~= Seq::new(k as nat, |x: int| x));
        }
        if wanted {
            out.push(k);
            assert(indices_view(out@) =~= indices_view(before).push(k as int));
        } else {
            assert(indices_view(out@) =~= indices_view(before));
        }
        k = k + 1;
    }
    out
}

/// A path as the user types it, with `~` standing for the home directory:
/// `~/rest` is `rest` under the home directory and `~` the home directory
/// itself; other paths are as typed. Fails where the home directory is
/// needed and unknown.
pub fn expand_path(s: &str, home: Option<&str>) -> (r: Result<String, AppError>)
    ensures
        if starts_with(s@, "~/"@) {
            match home {
                Some(h) => r matches Ok(p) && p@ == crate::skills::join_path(h@, s@.skip(2)),
                None => r matches Err(e) && e.message@ == "HOME env var not set"@,
            }
        } else if s@ == "~"@ {
            match home {
                Some(h) => r matches Ok(p) && p@ == h@,
                None => r matches Err(e) && e.message@ == "HOME env var not set"@,
            }
        } else {
            r matches Ok(p) && p@ == s@
        },
{
    let cs = chars_of(s);
    let home_prefix = chars_of("~/");
    assert(cs@.subrange(0, cs.len() as int) =~= s@);
    if crate::text::starts_with_at(&cs, 0, cs.len(), &home_prefix) {
        proof {
            reveal_strlit("~/");
        }
        return match home {
            Some(h) => {
                let rest = string_of_range(&cs, 2, cs.len());
                assert(rest@ =~= s@.skip(2));
                Ok(crate::skills::join_path_exec(h, rest.as_str()))
            },
            None => Err(AppError::new(ErrorKind::InvalidInput, "HOME env var not set")),
        };
    }
    if str_eq(s, "~") {
        return match home {
            Some(h) => Ok(h.to_string()),
            None => Err(AppError::new(ErrorKind::InvalidInput, "HOME env var not set")),
        };
    }
    Ok(s.to_string())
}

} // verus!

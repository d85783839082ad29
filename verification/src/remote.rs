//! Remote machines reached over SSH: their records, the checks on what the
//! user enters, the quoting of paths for the remote shell, and the reading of
//! what the remote listing scripts print.
use crate::error::{AppError, ErrorKind};
use crate::settings::split_on;
use crate::text::{
    chars_of, eq_pred, has_char, is_ws, opt_view, push_char, push_str, rrun, run, starts_with,
    str_eq, string_of_range, strs_view, trim, trim_bounds, text_lines, lines_of,
};
use vstd::prelude::*;

verus! {

// ---------------------------------------------------------------------------
// Records
// ---------------------------------------------------------------------------

/// A machine whose skills directory is reached over SSH.
pub struct RemoteMachine {
    pub id: String,
    pub name: String,
    pub ssh_target: String,
    pub skills_dir: String,
}

/// A skill found in a remote machine's skills directory.
pub struct RemoteSkill {
    pub name: String,
    pub path: String,
    pub description: Option<String>,
}

/// The document of a remote skill.
pub struct RemoteSkillDocument {
    pub skill_id: String,
    pub filename: String,
    pub content: String,
    pub central_path: String,
}

/// The setting under which the remote machines are stored.
pub const REMOTE_MACHINES_SETTING: &'static str = "remote_machines";

// ---------------------------------------------------------------------------
// Checking what the user enters
// ---------------------------------------------------------------------------

/// `char::is_control`: the general category `Cc` (U+0000 to U+001F and
/// U+007F to U+009F).
pub open spec fn is_control(c: char) -> bool {
    (c as u32) <= 0x1f || (0x7f <= (c as u32) && (c as u32) <= 0x9f)
}

/// Some character of `s` is a control character.
pub open spec fn has_control(s: Seq<char>) -> bool {
    exists|i: int| 0 <= i < s.len() && is_control(#[trigger] s[i])
}

/// Some character of `s` is whitespace.
pub open spec fn has_ws(s: Seq<char>) -> bool {
    exists|i: int| 0 <= i < s.len() && is_ws(#[trigger] s[i])
}

/// Whether `c` is a control character (`char::is_control`).
pub fn is_control_char(c: char) -> (r: bool)
    ensures
        r == is_control(c),
{
    let v = c as u32;
    v <= 0x1f || (0x7f <= v && v <= 0x9f)
}

fn any_control(s: &str) -> (r: bool)
    ensures
        r == has_control(s@),
{
    let cs = chars_of(s);
    let mut i: usize = 0;
    while i < cs.len()
        invariant
            i <= cs.len(),
            cs@ == s@,
            forall|j: int| 0 <= j < i ==> !is_control(#[trigger] cs@[j]),
        decreases cs.len() - i,
    {
        if is_control_char(cs[i]) {
            return true;
        }
        i += 1;
    }
    false
}

fn any_whitespace(s: &str) -> (r: bool)
    ensures
        r == has_ws(s@),
{
    let cs = chars_of(s);
    let mut i: usize = 0;
    while i < cs.len()
        invariant
            i <= cs.len(),
            cs@ == s@,
            forall|j: int| 0 <= j < i ==> !is_ws(#[trigger] cs@[j]),
        decreases cs.len() - i,
    {
        if crate::text::is_whitespace(cs[i]) {
            return true;
        }
        i += 1;
    }
    false
}

/// Why the fields of a remote machine are refused, if they are: a blank name,
/// SSH target or skills path; a control character anywhere, whitespace in the
/// SSH target or a target that starts with `-` (it would read as an option of
/// `ssh`); or a skills path that is neither absolute nor under `~/`.
pub open spec fn remote_input_problem(name: Seq<char>, ssh_target: Seq<char>, skills_dir: Seq<char>) -> Option<Seq<char>> {
    if trim(name).len() == 0 {
        Some("Remote machine name is required"@)
    } else if trim(ssh_target).len() == 0 {
        Some("SSH target is required"@)
    } else if trim(skills_dir).len() == 0 {
        Some("Remote skills path is required"@)
    } else if has_control(ssh_target) || has_control(skills_dir) || has_control(name) || has_ws(ssh_target)
        || starts_with(trim(ssh_target), "-"@) {
        Some("Remote machine fields contain invalid characters"@)
    } else if !(starts_with(trim(skills_dir), "~/"@) || starts_with(trim(skills_dir), "/"@)) {
        Some("Remote skills path must be absolute or start with ~/"@)
    } else {
        None
    }
}

/// `s` trimmed, with its bounds in `cs`.
fn trimmed(s: &str) -> (r: (Vec<char>, usize, usize))
    ensures
        r.1 <= r.2 <= r.0.len(),
        r.0@ == s@,
        r.0@.subrange(r.1 as int, r.2 as int) == trim(s@),
{
    let cs = chars_of(s);
    let (a, z) = trim_bounds(&cs, 0, cs.len());
    assert(cs@.subrange(0, cs.len() as int) =~= s@);
    (cs, a, z)
}

/// Checks the fields of a remote machine (see [`remote_input_problem`]).
pub fn validate_remote_input(name: &str, ssh_target: &str, skills_dir: &str) -> (r: Result<(), AppError>)
    ensures
        match remote_input_problem(name@, ssh_target@, skills_dir@) {
            None => r is Ok,
            Some(m) => r matches Err(e) && e.kind == ErrorKind::InvalidInput && e.message@ == m,
        },
{
    let (nc, na, nz) = trimmed(name);
    if na == nz {
        return Err(AppError::invalid_input("Remote machine name is required"));
    }
    let (tc, ta, tz) = trimmed(ssh_target);
    if ta == tz {
        return Err(AppError::invalid_input("SSH target is required"));
    }
    let (dc, da, dz) = trimmed(skills_dir);
    if da == dz {
        return Err(AppError::invalid_input("Remote skills path is required"));
    }
    let dash = chars_of("-");
    let home = chars_of("~/");
    let slash = chars_of("/");
    if any_control(ssh_target) || any_control(skills_dir) || any_control(name) || any_whitespace(ssh_target)
        || crate::text::starts_with_at(&tc, ta, tz, &dash) {
        return Err(AppError::invalid_input("Remote machine fields contain invalid characters"));
    }
    if !(crate::text::starts_with_at(&dc, da, dz, &home) || crate::text::starts_with_at(&dc, da, dz, &slash)) {
        return Err(AppError::invalid_input("Remote skills path must be absolute or start with ~/"));
    }
    Ok(())
}

// ---------------------------------------------------------------------------
// Quoting for the remote shell
// ---------------------------------------------------------------------------

/// `s` with each `'` written as `'"'"'` (close the quote, a quoted quote,
/// reopen the quote).
pub open spec fn escape_quotes(s: Seq<char>) -> Seq<char>
    decreases s.len(),
{
    if s.len() == 0 {
        seq![]
    } else {
        escape_quotes(s.drop_last()) + if s.last() == '\'' {
            seq!['\'', '"', '\'', '"', '\'']
        } else {
            seq![s.last()]
        }
    }
}

/// `s` as one single-quoted word of a POSIX shell.
pub open spec fn spec_shell_quote(s: Seq<char>) -> Seq<char> {
    seq!['\''] + escape_quotes(s) + seq!['\'']
}

/// Quotes `value` as one word for the remote shell (see [`spec_shell_quote`]).
pub fn shell_quote(value: &str) -> (r: String)
    ensures
        r@ == spec_shell_quote(value@),
{
    let cs = chars_of(value);
    let mut out = String::new();
    push_char(&mut out, '\'');
    let mut i: usize = 0;
    while i < cs.len()
        invariant
            i <= cs.len(),
            cs@ == value@,
            out@ == seq!['\''] + escape_quotes(cs@.take(i as int)),
        decreases cs.len() - i,
    {
        assert(cs@.take(i + 1).drop_last() =~= cs@.take(i as int));
        if cs[i] == '\'' {
            push_char(&mut out, '\'');
            push_char(&mut out, '"');
            push_char(&mut out, '\'');
            push_char(&mut out, '"');
            push_char(&mut out, '\'');
        } else {
            push_char(&mut out, cs[i]);
        }
        i += 1;
        assert(out@ =~= seq!['\''] + escape_quotes(cs@.take(i as int)));
    }
    assert(cs@.take(cs.len() as int) =~= cs@);
    push_char(&mut out, '\'');
    out
}

/// A remote path as a shell word: `~` as `$HOME`, a path under `~/` as
/// `$HOME/` followed by the quoted rest, any other path quoted.
pub open spec fn spec_remote_path_expr(path: Seq<char>) -> Seq<char> {
    if path == "~"@ {
        "$HOME"@
    } else if starts_with(path, "~/"@) {
        "$HOME/"@ + spec_shell_quote(path.skip(2))
    } else {
        spec_shell_quote(path)
    }
}

/// A remote path as a shell word (see [`spec_remote_path_expr`]).
pub fn remote_path_expr(path: &str) -> (r: String)
    ensures
        r@ == spec_remote_path_expr(path@),
{
    if str_eq(path, "~") {
        return "$HOME".to_string();
    }
    let cs = chars_of(path);
    let home = chars_of("~/");
    assert(cs@.subrange(0, cs.len() as int) =~= path@);
    if crate::text::starts_with_at(&cs, 0, cs.len(), &home) {
        proof {
            reveal_strlit("~/");
        }
        let rest = string_of_range(&cs, 2, cs.len());
        assert(rest@ =~= path@.skip(2));
        let mut out = "$HOME/".to_string();
        let q = shell_quote(rest.as_str());
        push_str(&mut out, q.as_str());
        out
    } else {
        shell_quote(path)
    }
}

// ---------------------------------------------------------------------------
// Remote paths
// ---------------------------------------------------------------------------

/// `s` without its trailing `c` characters (`trim_end_matches`).
pub open spec fn trim_end_char(s: Seq<char>, c: char) -> Seq<char> {
    s.take(s.len() - rrun(s, eq_pred(c)))
}

/// `s` without its leading `c` characters (`trim_start_matches`).
pub open spec fn trim_start_char(s: Seq<char>, c: char) -> Seq<char> {
    s.skip(run(s, eq_pred(c)) as int)
}

/// `base` and `child` joined by exactly one `/`.
pub open spec fn spec_remote_join(base: Seq<char>, child: Seq<char>) -> Seq<char> {
    trim_end_char(base, '/') + "/"@ + trim_start_char(child, '/')
}

/// `cs[from..to]` without its trailing `c` characters: the new end.
fn trim_end_char_at(cs: &[char], from: usize, to: usize, c: char) -> (r: usize)
    requires
        from <= to <= cs.len(),
    ensures
        from <= r <= to,
        cs@.subrange(from as int, r as int) == trim_end_char(cs@.subrange(from as int, to as int), c),
{
    let k = crate::settings::trailing_run_of(cs, from, to, c);
    assert(cs@.subrange(from as int, to as int).take(to - from - k) =~= cs@.subrange(from as int, (to - k) as int));
    to - k
}

/// `base` and `child` joined by exactly one `/` (see [`spec_remote_join`]).
pub fn remote_join(base: &str, child: &str) -> (r: String)
    ensures
        r@ == spec_remote_join(base@, child@),
{
    let b = chars_of(base);
    let c = chars_of(child);
    assert(b@.subrange(0, b.len() as int) =~= base@);
    assert(c@.subrange(0, c.len() as int) =~= child@);
    let e = trim_end_char_at(&b, 0, b.len(), '/');
    let s = crate::text::run_eq(&c, 0, c.len(), '/');
    let mut out = string_of_range(&b, 0, e);
    push_char(&mut out, '/');
    let tail = string_of_range(&c, s, c.len());
    push_str(&mut out, tail.as_str());
    proof {
        reveal_strlit("/");
        assert(tail@ =~= trim_start_char(child@, '/'));
        assert(out@ =~= spec_remote_join(base@, child@));
    }
    out
}

/// Where a skill lives on the remote machine: its name, trimmed, under the
/// machine's skills directory.
pub open spec fn spec_remote_skill_dir(skills_dir: Seq<char>, skill_name: Seq<char>) -> Seq<char> {
    trim_end_char(skills_dir, '/') + "/"@ + trim(skill_name)
}

/// Where a skill lives on the remote machine (see [`spec_remote_skill_dir`]).
pub fn remote_skill_dir(machine: &RemoteMachine, skill_name: &str) -> (r: String)
    ensures
        r@ == spec_remote_skill_dir(machine.skills_dir@, skill_name@),
{
    let d = chars_of(machine.skills_dir.as_str());
    assert(d@.subrange(0, d.len() as int) =~= machine.skills_dir@);
    let e = trim_end_char_at(&d, 0, d.len(), '/');
    let mut out = string_of_range(&d, 0, e);
    push_char(&mut out, '/');
    let (nc, a, z) = trimmed(skill_name);
    let n = string_of_range(&nc, a, z);
    push_str(&mut out, n.as_str());
    proof {
        reveal_strlit("/");
        assert(out@ =~= spec_remote_skill_dir(machine.skills_dir@, skill_name@));
    }
    out
}

/// The skills directory of an agent on the remote machine: the override of a
/// custom agent where it has one, else the agent's relative skills directory
/// taken as absolute where it starts with `/` and as under `~/` otherwise.
pub open spec fn spec_remote_agent_skills_dir(is_custom: bool, override_dir: Option<Seq<char>>, relative_dir: Seq<char>) -> Seq<char> {
    if is_custom && override_dir is Some {
        override_dir.unwrap()
    } else if starts_with(relative_dir, "/"@) {
        relative_dir
    } else {
        "~/"@ + trim_start_char(relative_dir, '/')
    }
}

/// The skills directory of an agent on the remote machine (see
/// [`spec_remote_agent_skills_dir`]).
pub fn remote_agent_skills_dir(is_custom: bool, override_dir: Option<&str>, relative_dir: &str) -> (r: String)
    ensures
        r@ == spec_remote_agent_skills_dir(is_custom, match override_dir {
            Some(o) => Some(o@),
            None => None,
        }, relative_dir@),
{
    if is_custom {
        if let Some(p) = override_dir {
            return p.to_string();
        }
    }
    let cs = chars_of(relative_dir);
    let slash = chars_of("/");
    assert(cs@.subrange(0, cs.len() as int) =~= relative_dir@);
    if crate::text::starts_with_at(&cs, 0, cs.len(), &slash) {
        return relative_dir.to_string();
    }
    let s = crate::text::run_eq(&cs, 0, cs.len(), '/');
    let mut out = "~/".to_string();
    let rest = string_of_range(&cs, s, cs.len());
    push_str(&mut out, rest.as_str());
    assert(rest@ =~= trim_start_char(relative_dir@, '/'));
    out
}

/// A remote skill's name as the user gives it: trimmed, and refused where it
/// is blank or holds a `/` or `\`.
pub fn safe_remote_skill_name(name: &str) -> (r: Result<String, AppError>)
    ensures
        match r {
            Ok(n) => n@ == trim(name@) && trim(name@).len() > 0 && !has_char(trim(name@), '/')
                && !has_char(trim(name@), '\\'),
            Err(e) => e.kind == ErrorKind::InvalidInput && e.message@ == "Invalid remote skill name"@
                && (trim(name@).len() == 0 || has_char(trim(name@), '/') || has_char(trim(name@), '\\')),
        },
{
    let (cs, a, z) = trimmed(name);
    let mut i = a;
    while i < z
        invariant
            a <= i <= z <= cs.len(),
            cs@.subrange(a as int, z as int) == trim(name@),
            forall|j: int| a <= j < i ==> #[trigger] cs@[j] != '/' && cs@[j] != '\\',
        decreases z - i,
    {
        if cs[i] == '/' || cs[i] == '\\' {
            assert(cs@.subrange(a as int, z as int)[i - a] == cs@[i as int]);
            return Err(AppError::invalid_input("Invalid remote skill name"));
        }
        i += 1;
    }
    if a == z {
        return Err(AppError::invalid_input("Invalid remote skill name"));
    }
    proof {
        let t = cs@.subrange(a as int, z as int);
        assert forall|j: int| 0 <= j < t.len() implies t[j] != '/' && t[j] != '\\' by {
            assert(t[j] == cs@[a + j]);
        }
    }
    Ok(string_of_range(&cs, a, z))
}

/// A relative path on the remote machine is safe: not blank, not absolute,
/// no `\`, and no empty, `.` or `..` component.
pub open spec fn safe_relative(t: Seq<char>) -> bool {
    &&& t.len() > 0
    &&& !starts_with(t, "/"@)
    &&& !has_char(t, '\\')
    &&& forall|i: int| 0 <= i < split_on(t, '/').len() ==> {
        let c = #[trigger] split_on(t, '/')[i];
        c.len() > 0 && c != "."@ && c != ".."@
    }
}

/// A relative path of a skill on the remote machine, trimmed, or an
/// "invalid input" error where it is not safe (see [`safe_relative`]).
pub fn safe_remote_relative_path(path: &str) -> (r: Result<String, AppError>)
    ensures
        safe_relative(trim(path@)) <==> r is Ok,
        r matches Ok(p) ==> p@ == trim(path@),
        r matches Err(e) ==> e.kind == ErrorKind::InvalidInput && e.message@ == "Invalid remote skill path"@,
{
    let (cs, a, z) = trimmed(path);
    let t = string_of_range(&cs, a, z);
    let tc = chars_of(t.as_str());
    let n = tc.len();
    if n == 0 {
        return Err(AppError::invalid_input("Invalid remote skill path"));
    }
    let slash = chars_of("/");
    assert(tc@.subrange(0, n as int) =~= tc@);
    if crate::text::starts_with_at(&tc, 0, n, &slash) {
        return Err(AppError::invalid_input("Invalid remote skill path"));
    }
    let mut k: usize = 0;
    while k < n
        invariant
            k <= n == tc.len(),
            tc@ == trim(path@),
            forall|j: int| 0 <= j < k ==> #[trigger] tc@[j] != '\\',
        decreases n - k,
    {
        if tc[k] == '\\' {
            return Err(AppError::invalid_input("Invalid remote skill path"));
        }
        k += 1;
    }
    let ghost whole = tc@;
    let mut start: usize = 0;
    let mut done = false;
    let ghost mut seen: Seq<Seq<char>> = seq![];
    assert(tc@.skip(0) =~= tc@);
    while !done
        invariant
            start <= n == tc.len(),
            whole == tc@,
            tc@ == trim(path@),
            !done ==> split_on(whole, '/') == seen + split_on(tc@.skip(start as int), '/'),
            done ==> split_on(whole, '/') == seen,
            forall|i: int| 0 <= i < seen.len() ==> {
                let c = #[trigger] seen[i];
                c.len() > 0 && c != "."@ && c != ".."@
            },
        decreases n - start + (if done { 0int } else { 1int }),
    {
        let ghost rest = tc@.skip(start as int);
        let mut j = start;
        while j < n && tc[j] != '/'
            invariant
                start <= j <= n == tc.len(),
                forall|m: int| start <= m < j ==> #[trigger] tc@[m] != '/',
            decreases n - j,
        {
            j += 1;
        }
        proof {
            assert forall|m: int| 0 <= m < j - start implies (crate::text::ne_pred('/'))(#[trigger] rest[m]) by {
                assert(rest[m] == tc@[start + m]);
            }
            if j < n {
                assert(rest[j - start] == tc@[j as int]);
            }
            crate::text::lemma_run_is_first_failure(rest, crate::text::ne_pred('/'), j - start);
        }
        let comp = string_of_range(&tc, start, j);
        proof {
            if j < n {
                assert(rest.take(j - start) =~= comp@);
                assert(rest.skip(j - start + 1) =~= tc@.skip(j + 1));
            } else {
                assert(rest =~= comp@);
            }
        }
        if j == start || str_eq(comp.as_str(), ".") || str_eq(comp.as_str(), "..") {
            proof {
                let full = seen + split_on(rest, '/');
                assert(full[seen.len() as int] == comp@);
            }
            return Err(AppError::invalid_input("Invalid remote skill path"));
        }
        proof {
            seen = seen.push(comp@);
        }
        if j < n {
            start = j + 1;
        } else {
            start = n;
            done = true;
        }
        proof {
            if !done {
                assert(seen + split_on(tc@.skip(start as int), '/') =~= seen.drop_last() + split_on(rest, '/'));
            } else {
                assert(seen =~= seen.drop_last() + split_on(rest, '/'));
            }
        }
    }
    Ok(t)
}

// ---------------------------------------------------------------------------
// Reading the remote listing
// ---------------------------------------------------------------------------

/// One line of the agent-skills listing: relative path, name, description
/// and `|`-separated files, separated by tabs.
pub struct RemoteSkillLine {
    pub relative_path: String,
    pub name: String,
    pub description: Option<String>,
    pub files: Vec<String>,
}

/// The pieces of `s` split at `c`, the last piece keeping the rest of `s`
/// once `n - 1` pieces are taken (`str::splitn`).
pub open spec fn splitn_on(s: Seq<char>, n: nat, c: char) -> Seq<Seq<char>>
    decreases n,
{
    if n == 0 {
        seq![]
    } else if n == 1 {
        seq![s]
    } else {
        let k = run(s, crate::text::ne_pred(c)) as int;
        if k < s.len() {
            seq![s.take(k)] + splitn_on(s.skip(k + 1), (n - 1) as nat, c)
        } else {
            seq![s]
        }
    }
}

/// The non-blank pieces of `s` between `|` characters.
pub open spec fn file_list(s: Seq<char>) -> Seq<Seq<char>> {
    split_on(s, '|').filter(|p: Seq<char>| trim(p).len() > 0)
}

/// What a listing line says of a skill: its first two tab-separated fields
/// are the relative path and the name (a line without them says nothing),
/// the third, trimmed, is its description where not blank, and the fourth
/// its files.
pub open spec fn spec_skill_line(line: Seq<char>) -> Option<(Seq<char>, Seq<char>, Option<Seq<char>>, Seq<Seq<char>>)> {
    let parts = splitn_on(line, 4, '\t');
    if parts.len() < 2 {
        None
    } else {
        Some((
            parts[0],
            parts[1],
            if parts.len() > 2 && trim(parts[2]).len() > 0 {
                Some(trim(parts[2]))
            } else {
                None
            },
            if parts.len() > 3 {
                file_list(parts[3])
            } else {
                seq![]
            },
        ))
    }
}


/// The pieces of `cs[from..]` split at `c`, at most `n` of them (see
/// [`splitn_on`]).
fn splitn_exec(cs: &Vec<char>, from: usize, n: usize, c: char) -> (r: Vec<String>)
    requires
        from <= cs.len(),
    ensures
        strs_view(r@) == splitn_on(cs@.skip(from as int), n as nat, c),
    decreases n,
{
    if n == 0 {
        return Vec::new();
    }
    let ghost rest = cs@.skip(from as int);
    if n == 1 {
        let mut v = Vec::new();
        let piece = string_of_range(cs, from, cs.len());
        assert(piece@ =~= rest);
        v.push(piece);
        assert(strs_view(v@) =~= seq![rest]);
        return v;
    }
    let mut j = from;
    while j < cs.len() && cs[j] != c
        invariant
            from <= j <= cs.len(),
            forall|m: int| from <= m < j ==> #[trigger] cs@[m] != c,
        decreases cs.len() - j,
    {
        j += 1;
    }
    proof {
        assert forall|m: int| 0 <= m < j - from implies (crate::text::ne_pred(c))(#[trigger] rest[m]) by {
            assert(rest[m] == cs@[from + m]);
        }
        if j < cs.len() {
            assert(rest[j - from] == cs@[j as int]);
        }
        crate::text::lemma_run_is_first_failure(rest, crate::text::ne_pred(c), j - from);
    }
    let piece = string_of_range(cs, from, j);
    if j < cs.len() {
        let tail = splitn_exec(cs, j + 1, n - 1, c);
        let mut v = Vec::new();
        v.push(piece);
        let mut k: usize = 0;
        while k < tail.len()
            invariant
                k <= tail.len(),
                strs_view(v@) == seq![piece@] + strs_view(tail@).take(k as int),
            decreases tail.len() - k,
        {
            let ghost before = v@;
            let item = tail[k].clone();
            v.push(item);
            assert(strs_view(v@) =~= strs_view(before).push(item@));
            assert(strs_view(tail@).take(k + 1) =~= strs_view(tail@).take(k as int).push(tail@[k as int]@));
            assert(strs_view(v@) =~= seq![piece@] + strs_view(tail@).take(k + 1));
            k += 1;
        }
        assert(strs_view(tail@).take(tail.len() as int) =~= strs_view(tail@));
        assert(rest.take(j - from) =~= piece@);
        assert(rest.skip(j - from + 1) =~= cs@.skip(j + 1));
        v
    } else {
        let mut v = Vec::new();
        assert(piece@ =~= rest);
        v.push(piece);
        assert(strs_view(v@) =~= seq![rest]);
        v
    }
}

/// The pieces of `s` between the occurrences of `c` (`str::split`).
pub fn split_exec(s: &str, c: char) -> (r: Vec<String>)
    ensures
        strs_view(r@) == split_on(s@, c),
{
    let cs = chars_of(s);
    let n = cs.len();
    let mut out: Vec<String> = Vec::new();
    let mut start: usize = 0;
    let mut done = false;
    assert(cs@.skip(0) =~= cs@);
    while !done
        invariant
            start <= n == cs.len(),
            cs@ == s@,
            !done ==> split_on(s@, c) == strs_view(out@) + split_on(cs@.skip(start as int), c),
            done ==> split_on(s@, c) == strs_view(out@),
        decreases n - start + (if done { 0int } else { 1int }),
    {
        let ghost rest = cs@.skip(start as int);
        let mut j = start;
        while j < n && cs[j] != c
            invariant
                start <= j <= n == cs.len(),
                forall|m: int| start <= m < j ==> #[trigger] cs@[m] != c,
            decreases n - j,
        {
            j += 1;
        }
        proof {
            assert forall|m: int| 0 <= m < j - start implies (crate::text::ne_pred(c))(#[trigger] rest[m]) by {
                assert(rest[m] == cs@[start + m]);
            }
            if j < n {
                assert(rest[j - start] == cs@[j as int]);
            }
            crate::text::lemma_run_is_first_failure(rest, crate::text::ne_pred(c), j - start);
        }
        let piece = string_of_range(&cs, start, j);
        let ghost before = out@;
        out.push(piece);
        proof {
            assert(strs_view(out@) =~= strs_view(before).push(piece@));
            if j < n {
                assert(rest.take(j - start) =~= piece@);
                assert(rest.skip(j - start + 1) =~= cs@.skip(j + 1));
                assert(strs_view(out@) + split_on(cs@.skip(j + 1), c) =~= strs_view(before) + split_on(rest, c));
            } else {
                assert(rest =~= piece@);
                assert(strs_view(out@) =~= strs_view(before) + split_on(rest, c));
            }
        }
        if j < n {
            start = j + 1;
        } else {
            start = n;
            done = true;
        }
    }
    out
}

/// Reads one line of the agent-skills listing (see [`spec_skill_line`]).
pub fn parse_remote_agent_skill_line(line: &str) -> (r: Option<RemoteSkillLine>)
    ensures
        match spec_skill_line(line@) {
            None => r is None,
            Some((rel, name, desc, files)) => r matches Some(l) && l.relative_path@ == rel && l.name@ == name
                && opt_view(l.description) == desc && strs_view(l.files@) == files,
        },
{
    let cs = chars_of(line);
    assert(cs@.skip(0) =~= line@);
    let parts = splitn_exec(&cs, 0, 4, '\t');
    if parts.len() < 2 {
        return None;
    }
    let ghost pv = strs_view(parts@);
    assert(pv[0] == parts@[0]@);
    assert(pv[1] == parts@[1]@);
    let description = if parts.len() > 2 {
        let (dc, a, z) = trimmed(parts[2].as_str());
        assert(pv[2] == parts@[2]@);
        if a < z {
            Some(string_of_range(&dc, a, z))
        } else {
            None
        }
    } else {
        None
    };
    let mut files: Vec<String> = Vec::new();
    if parts.len() > 3 {
        assert(pv[3] == parts@[3]@);
        let pieces = split_exec(parts[3].as_str(), '|');
        let ghost pieces_v = strs_view(pieces@);
        let mut k: usize = 0;
        proof {
            reveal(Seq::filter);
            assert(pieces_v.take(0) =~= Seq::<Seq<char>>::empty());
        }
        while k < pieces.len()
            invariant
                k <= pieces.len(),
                pieces_v == strs_view(pieces@),
                strs_view(files@) == pieces_v.take(k as int).filter(|p: Seq<char>| trim(p).len() > 0),
            decreases pieces.len() - k,
        {
            let (pc, a, z) = trimmed(pieces[k].as_str());
            let ghost before = files@;
            proof {
                let t = pieces_v.take(k + 1);
                assert(t.drop_last() =~= pieces_v.take(k as int));
                assert(t.last() == pieces@[k as int]@);
                assert(t.filter(|p: Seq<char>| trim(p).len() > 0) == t.drop_last().filter(|p: Seq<char>| trim(p).len() > 0)
                    + if trim(t.last()).len() > 0 { seq![t.last()] } else { seq![] }) by {
                    reveal(Seq::filter);
                }
            }
            if a < z {
                files.push(pieces[k].clone());
                assert(strs_view(files@) =~= strs_view(before).push(pieces@[k as int]@));
            } else {
                assert(strs_view(files@) =~= strs_view(before) + Seq::<Seq<char>>::empty());
            }
            k += 1;
        }
        assert(pieces_v.take(pieces.len() as int) =~= pieces_v);
    } else {
        assert(strs_view(files@) =~= Seq::<Seq<char>>::empty());
    }
    Some(RemoteSkillLine {
        relative_path: parts[0].clone(),
        name: parts[1].clone(),
        description,
        files,
    })
}


/// The last `/`-separated segment of `s` (`rsplit('/').next()`).
pub open spec fn last_segment(s: Seq<char>) -> Seq<char> {
    match crate::skills::split_last_slash(s) {
        Some((_, b)) => b,
        None => s,
    }
}

/// The last `/`-separated segment of `s`.
pub fn last_segment_of(s: &str) -> (r: String)
    ensures
        r@ == last_segment(s@),
{
    match crate::skills::rsplit_once_slash(s) {
        Some((_, b)) => b,
        None => s.to_string(),
    }
}

/// The name of a remote skill listed at `path`: the last segment of the
/// path, or the whole path where that segment is empty.
pub open spec fn spec_remote_skill_name(path: Seq<char>) -> Seq<char> {
    if last_segment(path).len() > 0 {
        last_segment(path)
    } else {
        path
    }
}

/// The name of a remote skill listed at `path` (see [`spec_remote_skill_name`]).
pub fn remote_skill_name(path: &str) -> (r: String)
    ensures
        r@ == spec_remote_skill_name(path@),
{
    let seg = last_segment_of(path);
    if seg.as_str().is_empty() {
        path.to_string()
    } else {
        seg
    }
}

/// The keys the remote library's listing prints: its lines, trimmed, the
/// blank ones left out.
pub open spec fn spec_center_keys(output: Seq<char>) -> Seq<Seq<char>> {
    text_lines(output).map_values(|l: Seq<char>| trim(l)).filter(|k: Seq<char>| k.len() > 0)
}

/// Reads the keys of the skills in the remote library from its listing (see
/// [`spec_center_keys`]).
pub fn remote_center_keys(output: &str) -> (r: Vec<String>)
    ensures
        strs_view(r@) == spec_center_keys(output@),
{
    let lines = lines_of(output);
    let ghost lv = strs_view(lines@);
    let ghost tv = lv.map_values(|l: Seq<char>| trim(l));
    let mut out: Vec<String> = Vec::new();
    let mut k: usize = 0;
    proof {
        reveal(Seq::filter);
        assert(tv.take(0) =~= Seq::<Seq<char>>::empty());
    }
    while k < lines.len()
        invariant
            k <= lines.len(),
            lv == strs_view(lines@),
            lv == text_lines(output@),
            tv == lv.map_values(|l: Seq<char>| trim(l)),
            strs_view(out@) == tv.take(k as int).filter(|p: Seq<char>| p.len() > 0),
        decreases lines.len() - k,
    {
        let (cs, a, z) = trimmed(lines[k].as_str());
        let ghost before = out@;
        proof {
            let t = tv.take(k + 1);
            assert(t.drop_last() =~= tv.take(k as int));
            assert(t.last() == trim(lines@[k as int]@));
            reveal(Seq::filter);
        }
        if a < z {
            let key = string_of_range(&cs, a, z);
            out.push(key);
            assert(strs_view(out@) =~= strs_view(before).push(trim(lines@[k as int]@)));
        } else {
            assert(strs_view(out@) =~= strs_view(before));
        }
        k += 1;
    }
    assert(tv.take(lines.len() as int) =~= tv);
    out
}

/// Whether `key` is among `keys`.
pub fn contains_key(keys: &Vec<String>, key: &str) -> (r: bool)
    ensures
        r == strs_view(keys@).contains(key@),
{
    let mut i: usize = 0;
    while i < keys.len()
        invariant
            i <= keys.len(),
            forall|j: int| 0 <= j < i ==> (#[trigger] keys@[j])@ != key@,
        decreases keys.len() - i,
    {
        if str_eq(keys[i].as_str(), key) {
            assert(strs_view(keys@)[i as int] == key@);
            return true;
        }
        i += 1;
    }
    proof {
        if strs_view(keys@).contains(key@) {
            let j = choose|j: int| 0 <= j < keys.len() && strs_view(keys@)[j] == key@;
            assert(keys@[j]@ == key@);
        }
    }
    false
}

// ---------------------------------------------------------------------------
// The list of remote machines
// ---------------------------------------------------------------------------

/// The index of the first machine with the given id.
pub open spec fn machine_index(machines: Seq<RemoteMachine>, id: Seq<char>) -> Option<int>
    decreases machines.len(),
{
    if machines.len() == 0 {
        None
    } else if machines.last().id@ == id && machine_index(machines.drop_last(), id) is None {
        Some(machines.len() - 1)
    } else {
        machine_index(machines.drop_last(), id)
    }
}

proof fn lemma_machine_index(machines: Seq<RemoteMachine>, id: Seq<char>)
    ensures
        match machine_index(machines, id) {
            Some(i) => 0 <= i < machines.len() && machines[i].id@ == id && forall|j: int| 0 <= j < i ==> (#[trigger] machines[j]).id@ != id,
            None => forall|j: int| 0 <= j < machines.len() ==> (#[trigger] machines[j]).id@ != id,
        },
    decreases machines.len(),
{
    if machines.len() > 0 {
        lemma_machine_index(machines.drop_last(), id);
        let d = machines.drop_last();
        assert forall|j: int| 0 <= j < d.len() implies d[j] == machines[j] by {}
    }
}

/// The machine with the given id: the first one with it, else "not found".
pub fn find_machine(machines: &[RemoteMachine], id: &str) -> (r: Result<usize, AppError>)
    ensures
        match machine_index(machines@, id@) {
            Some(i) => r == Ok::<usize, AppError>(i as usize),
            None => r matches Err(e) && e.kind == ErrorKind::NotFound && e.message@ == "Remote machine not found"@,
        },
        machine_index(machines@, id@) matches Some(i) ==> 0 <= i < machines.len(),
{
    proof {
        lemma_machine_index(machines@, id@);
    }
    let mut i: usize = 0;
    while i < machines.len()
        invariant
            i <= machines.len(),
            forall|j: int| 0 <= j < i ==> (#[trigger] machines@[j]).id@ != id@,
        decreases machines.len() - i,
    {
        if str_eq(machines[i].id.as_str(), id) {
            proof {
                lemma_machine_index(machines@, id@);
            }
            return Ok(i);
        }
        i += 1;
    }
    Err(AppError::not_found("Remote machine not found"))
}

/// A lower-case hexadecimal digit.
pub open spec fn is_lower_hex(c: char) -> bool {
    ('0' <= c && c <= '9') || ('a' <= c && c <= 'f')
}

/// The hyphenated text form of a UUID: 36 characters, hyphens at positions
/// 8, 13, 18 and 23, lower-case hexadecimal digits elsewhere.
pub open spec fn is_hyphenated_uuid(s: Seq<char>) -> bool {
    &&& s.len() == 36
    &&& forall|i: int| 0 <= i < 36 ==> if i == 8 || i == 13 || i == 18 || i == 23 {
        s[i] == '-'
    } else {
        is_lower_hex(#[trigger] s[i])
    }
}

/// A fresh random identifier: `uuid::Uuid::new_v4()` as text. Its
/// `Display` writes the lower-case hyphenated form, which is all the
/// contract claims; the value itself is random.
#[verifier::external_body]
pub(crate) fn new_uuid() -> (r: String)
    ensures
        is_hyphenated_uuid(r@),
{
    uuid::Uuid::new_v4().to_string()
}

/// The machine as stored: its fields trimmed, and `fresh_id` as its id where
/// its own id is blank.
pub open spec fn stored_machine(m: RemoteMachine, fresh_id: Seq<char>, r: RemoteMachine) -> bool {
    &&& r.id@ == (if trim(m.id@).len() == 0 { fresh_id } else { trim(m.id@) })
    &&& r.name@ == trim(m.name@)
    &&& r.ssh_target@ == trim(m.ssh_target@)
    &&& r.skills_dir@ == trim(m.skills_dir@)
}

fn trimmed_string(s: &str) -> (r: String)
    ensures
        r@ == trim(s@),
{
    let (cs, a, z) = trimmed(s);
    string_of_range(&cs, a, z)
}

fn copy_machine(m: &RemoteMachine) -> (r: RemoteMachine)
    ensures
        r.id@ == m.id@,
        r.name@ == m.name@,
        r.ssh_target@ == m.ssh_target@,
        r.skills_dir@ == m.skills_dir@,
{
    RemoteMachine {
        id: m.id.clone(),
        name: m.name.clone(),
        ssh_target: m.ssh_target.clone(),
        skills_dir: m.skills_dir.clone(),
    }
}

/// `m` holds the same fields as `r`.
pub open spec fn same_fields(m: RemoteMachine, r: RemoteMachine) -> bool {
    m.id@ == r.id@ && m.name@ == r.name@ && m.ssh_target@ == r.ssh_target@ && m.skills_dir@ == r.skills_dir@
}

/// `list` is `machines` with `stored` in place of the first machine with its
/// id, or with `stored` added at the end where none has it.
pub open spec fn upserted(machines: Seq<RemoteMachine>, stored: RemoteMachine, list: Seq<RemoteMachine>) -> bool {
    match machine_index(machines, stored.id@) {
        Some(i) => list == machines.update(i, list[i]) && same_fields(list[i], stored),
        None => list.drop_last() == machines && list.len() == machines.len() + 1 && same_fields(list.last(), stored),
    }
}

/// Adds or replaces a machine in the list: the machine, as stored (see
/// [`stored_machine`]), replaces the first machine with its id, or is added
/// at the end where none has it. Gives the new list and the stored machine.
pub fn upsert_machine_with_id(machines: Vec<RemoteMachine>, machine: &RemoteMachine, fresh_id: &str) -> (r: (Vec<RemoteMachine>, RemoteMachine))
    ensures
        stored_machine(*machine, fresh_id@, r.1),
        upserted(machines@, r.1, r.0@),
{
    let id = trimmed_string(machine.id.as_str());
    let id = if id.as_str().is_empty() {
        fresh_id.to_string()
    } else {
        id
    };
    let next = RemoteMachine {
        id,
        name: trimmed_string(machine.name.as_str()),
        ssh_target: trimmed_string(machine.ssh_target.as_str()),
        skills_dir: trimmed_string(machine.skills_dir.as_str()),
    };
    let ghost before = machines@;
    let mut list = machines;
    match find_machine(&list, next.id.as_str()) {
        Ok(i) => {
            list.set(i, copy_machine(&next));
            assert(list@ =~= before.update(i as int, list@[i as int]));
        },
        Err(_) => {
            list.push(copy_machine(&next));
            assert(list@.drop_last() =~= before);
        },
    }
    (list, next)
}

/// Adds or replaces a machine in the list (see [`upsert_machine_with_id`]),
/// with a fresh random id where the machine's own id is blank. Refuses the
/// machine as [`validate_remote_input`] does.
pub fn upsert_remote_machine(machines: Vec<RemoteMachine>, machine: &RemoteMachine) -> (r: Result<(Vec<RemoteMachine>, RemoteMachine), AppError>)
    ensures
        match remote_input_problem(machine.name@, machine.ssh_target@, machine.skills_dir@) {
            Some(m) => r matches Err(e) && e.kind == ErrorKind::InvalidInput && e.message@ == m,
            None => r matches Ok((list, stored)) && upserted(machines@, stored, list@)
                && exists|fresh: Seq<char>| #[trigger] is_hyphenated_uuid(fresh) && stored_machine(*machine, fresh, stored),
        },
{
    if let Err(e) = validate_remote_input(machine.name.as_str(), machine.ssh_target.as_str(), machine.skills_dir.as_str()) {
        return Err(e);
    }
    let fresh = new_uuid();
    let ghost before = machines@;
    let (list, stored) = upsert_machine_with_id(machines, machine, fresh.as_str());
    proof {
        lemma_machine_index(before, stored.id@);
    }
    Ok((list, stored))
}

/// The list without the machines that have the given id.
pub fn remove_machine(machines: Vec<RemoteMachine>, id: &str) -> (r: Vec<RemoteMachine>)
    ensures
        r@ == machines@.filter(|m: RemoteMachine| m.id@ != id@),
{
    let mut out: Vec<RemoteMachine> = Vec::new();
    let mut i: usize = 0;
    proof {
        reveal(Seq::filter);
        assert(machines@.take(0) =~= Seq::<RemoteMachine>::empty());
    }
    while i < machines.len()
        invariant
            i <= machines.len(),
            out@ == machines@.take(i as int).filter(|m: RemoteMachine| m.id@ != id@),
        decreases machines.len() - i,
    {
        proof {
            let t = machines@.take(i + 1);
            assert(t.drop_last() =~= machines@.take(i as int));
            assert(t.last() == machines@[i as int]);
            reveal(Seq::filter);
        }
        if !str_eq(machines[i].id.as_str(), id) {
            out.push(copy_machine_exact(&machines[i]));
        }
        i += 1;
    }
    assert(machines@.take(machines.len() as int) =~= machines@);
    out
}

/// An exact copy of a machine record.
fn copy_machine_exact(m: &RemoteMachine) -> (r: RemoteMachine)
    ensures
        r == *m,
{
    RemoteMachine {
        id: m.id.clone(),
        name: m.name.clone(),
        ssh_target: m.ssh_target.clone(),
        skills_dir: m.skills_dir.clone(),
    }
}

// ---------------------------------------------------------------------------
// Installing on a remote machine
// ---------------------------------------------------------------------------

/// Refuses a blank repository URL or one with a control character.
pub fn validate_git_repo_url(repo_url: &str) -> (r: Result<(), AppError>)
    ensures
        r is Err <==> trim(repo_url@).len() == 0 || has_control(repo_url@),
        r matches Err(e) ==> e.kind == ErrorKind::InvalidInput && e.message@ == "Git repository URL is required"@,
{
    let (cs, a, z) = trimmed(repo_url);
    if a == z || any_control(repo_url) {
        return Err(AppError::invalid_input("Git repository URL is required"));
    }
    Ok(())
}

/// The GitHub repository of a marketplace skill: `https://github.com/`, the
/// trimmed source and `.git`. Refuses a blank source or skill id.
pub fn marketplace_repo_url(source: &str, skill_id: &str) -> (r: Result<String, AppError>)
    ensures
        r is Err <==> trim(source@).len() == 0 || trim(skill_id@).len() == 0,
        r matches Err(e) ==> e.kind == ErrorKind::InvalidInput && e.message@ == "Marketplace skill source is required"@,
        r matches Ok(u) ==> u@ == "https://github.com/"@ + trim(source@) + ".git"@,
{
    let (sc, a, z) = trimmed(source);
    let (ic, p, q) = trimmed(skill_id);
    if a == z || p == q {
        return Err(AppError::invalid_input("Marketplace skill source is required"));
    }
    let mut url = "https://github.com/".to_string();
    let t = string_of_range(&sc, a, z);
    push_str(&mut url, t.as_str());
    push_str(&mut url, ".git");
    Ok(url)
}

/// The directory that must exist on the remote machine before a skill is
/// copied to `remote_dir`: the part of `remote_dir` (without trailing
/// slashes) before its last `/`, or the machine's skills directory where it
/// has none.
pub open spec fn spec_remote_parent(remote_dir: Seq<char>, skills_dir: Seq<char>) -> Seq<char> {
    match crate::skills::split_last_slash(trim_end_char(remote_dir, '/')) {
        Some((parent, _)) => parent,
        None => skills_dir,
    }
}

/// The parent directory of a remote skill directory (see [`spec_remote_parent`]).
pub fn remote_parent_dir(remote_dir: &str, skills_dir: &str) -> (r: String)
    ensures
        r@ == spec_remote_parent(remote_dir@, skills_dir@),
{
    let cs = chars_of(remote_dir);
    assert(cs@.subrange(0, cs.len() as int) =~= remote_dir@);
    let e = trim_end_char_at(&cs, 0, cs.len(), '/');
    let t = string_of_range(&cs, 0, e);
    match crate::skills::rsplit_once_slash(t.as_str()) {
        Some((parent, _)) => parent,
        None => skills_dir.to_string(),
    }
}


/// After a machine is added or replaced, looking its id up finds it, with the
/// fields it was stored with.
pub proof fn lemma_upsert_then_find(machines: Seq<RemoteMachine>, stored: RemoteMachine, list: Seq<RemoteMachine>)
    requires
        upserted(machines, stored, list),
    ensures
        machine_index(list, stored.id@) matches Some(k) && 0 <= k < list.len() && same_fields(list[k], stored),
{
    lemma_machine_index(machines, stored.id@);
    lemma_machine_index(list, stored.id@);
    match machine_index(machines, stored.id@) {
        Some(i) => {
            assert(list[i].id@ == stored.id@);
            assert forall|j: int| 0 <= j < i implies (#[trigger] list[j]).id@ != stored.id@ by {
                assert(list[j] == machines[j]);
            }
        },
        None => {
            let n = machines.len() as int;
            assert(list[n] == list.last());
            assert forall|j: int| 0 <= j < n implies (#[trigger] list[j]).id@ != stored.id@ by {
                assert(list[j] == list.drop_last()[j]);
            }
        },
    }
}

/// After the machines with an id are removed, no machine has it.
pub proof fn lemma_removed_machine_not_found(machines: Seq<RemoteMachine>, id: Seq<char>)
    ensures
        machine_index(machines.filter(|m: RemoteMachine| m.id@ != id), id) is None,
{
    let f = machines.filter(|m: RemoteMachine| m.id@ != id);
    lemma_machine_index(f, id);
    assert forall|j: int| 0 <= j < f.len() implies (#[trigger] f[j]).id@ != id by {
        machines.lemma_filter_pred(|m: RemoteMachine| m.id@ != id, j);
    }
}


// ---------------------------------------------------------------------------
// Skills listed on the remote machine
// ---------------------------------------------------------------------------

/// `s` in lower case as Unicode defines it for whole strings.
pub uninterp spec fn spec_str_lowercase(s: Seq<char>) -> Seq<char>;

/// `str::to_lowercase`: `s` in lower case by Unicode's rules (including the
/// final form of sigma). The mapping is named, not restated.
#[verifier::external_body]
pub(crate) fn str_lowercase(s: &str) -> (r: String)
    ensures
        r@ == spec_str_lowercase(s@),
{
    s.to_lowercase()
}

/// The entries that the agent-skills listing describes: its non-blank lines
/// that read as an entry (see [`spec_skill_line`]), in order.
pub open spec fn listing_entries(output: Seq<char>) -> Seq<(Seq<char>, Seq<char>, Option<Seq<char>>, Seq<Seq<char>>)> {
    text_lines(output).filter(|l: Seq<char>| trim(l).len() > 0 && spec_skill_line(l) is Some).map_values(
        |l: Seq<char>| spec_skill_line(l).unwrap(),
    )
}

/// Whether the remote library holds the skill at `rel` (named `name`): its
/// relative path, or its last path segment (its name where that segment is
/// empty), is among the library's keys.
pub open spec fn in_remote_center(keys: Seq<Seq<char>>, rel: Seq<char>, name: Seq<char>) -> bool {
    keys.contains(rel) || keys.contains(if last_segment(rel).len() > 0 {
        last_segment(rel)
    } else {
        name
    })
}

/// `s` is the skill that the listing entry `e` describes, found in the
/// agent's skills directory `agent_dir` on the remote machine.
pub open spec fn describes(
    s: crate::workspace::ProjectSkillInfo,
    e: (Seq<char>, Seq<char>, Option<Seq<char>>, Seq<Seq<char>>),
    keys: Seq<Seq<char>>,
    agent_dir: Seq<char>,
    agent_key: Seq<char>,
    agent_display_name: Seq<char>,
) -> bool {
    let center = in_remote_center(keys, e.0, e.1);
    &&& s.name@ == e.1
    &&& s.dir_name@ == last_segment(e.0)
    &&& s.relative_path@ == e.0
    &&& opt_view(s.description) == e.2
    &&& s.path@ == spec_remote_join(agent_dir, e.0)
    &&& strs_view(s.files@) == e.3
    &&& s.enabled
    &&& s.agent@ == agent_key
    &&& s.agent_display_name@ == agent_display_name
    &&& s.tags@.len() == 0
    &&& s.in_center == center
    &&& s.sync_status@ == (if center { "in_sync"@ } else { "project_only"@ })
    &&& s.center_skill_id is None
    &&& s.last_modified_at is None
    &&& s.content_hash is None
}

/// `r` holds one skill per entry of the listing (see [`describes`]), `idx`
/// giving for each place of `r` the entry it comes from, each entry once; the
/// skills are sorted by their names in lower case, and skills with equal such
/// names come in listing order.
pub open spec fn listed_in_order(
    output: Seq<char>,
    keys: Seq<Seq<char>>,
    agent_dir: Seq<char>,
    agent_key: Seq<char>,
    agent_display_name: Seq<char>,
    r: Seq<crate::workspace::ProjectSkillInfo>,
    idx: Seq<int>,
) -> bool {
    let es = listing_entries(output);
    &&& r.len() == es.len()
    &&& idx.len() == es.len()
    &&& forall|p: int| 0 <= p < idx.len() ==> 0 <= #[trigger] idx[p] < es.len()
        && describes(r[p], es[idx[p]], keys, agent_dir, agent_key, agent_display_name)
    &&& forall|p: int, q: int| 0 <= p < q < idx.len() ==> #[trigger] idx[p] != #[trigger] idx[q]
    &&& forall|p: int, q: int| 0 <= p < q < r.len() ==> crate::sorting::key_le(
        spec_str_lowercase((#[trigger] r[p]).name@),
        spec_str_lowercase((#[trigger] r[q]).name@),
    )
    &&& forall|p: int, q: int| 0 <= p < q < r.len() && spec_str_lowercase((#[trigger] r[p]).name@)
        == spec_str_lowercase((#[trigger] r[q]).name@) ==> idx[p] < idx[q]
}

/// The skills in an agent's directory on a remote machine, from the listing
/// the remote script prints and the keys of the remote library: one skill per
/// entry of the listing (see [`describes`]), sorted by their names in lower
/// case, entries with equal names in listing order.
pub fn remote_agent_skills_from_listing(
    output: &str,
    center_keys: &Vec<String>,
    agent_dir: &str,
    agent_key: &str,
    agent_display_name: &str,
) -> (r: Vec<crate::workspace::ProjectSkillInfo>)
    ensures
        exists|idx: Seq<int>| #[trigger] listed_in_order(output@, strs_view(center_keys@), agent_dir@, agent_key@, agent_display_name@, r@, idx),
{
    let lines = lines_of(output);
    let ghost lv = strs_view(lines@);
    let ghost keep = |l: Seq<char>| trim(l).len() > 0 && spec_skill_line(l) is Some;
    let ghost conv = |l: Seq<char>| spec_skill_line(l).unwrap();
    let mut items: Vec<crate::workspace::ProjectSkillInfo> = Vec::new();
    let mut keys: Vec<String> = Vec::new();
    let mut k: usize = 0;
    proof {
        reveal(Seq::filter);
        assert(lv.take(0) =~= Seq::<Seq<char>>::empty());
    }
    while k < lines.len()
        invariant
            k <= lines.len(),
            lv == strs_view(lines@),
            lv == text_lines(output@),
            keep == (|l: Seq<char>| trim(l).len() > 0 && spec_skill_line(l) is Some),
            conv == (|l: Seq<char>| spec_skill_line(l).unwrap()),
            items.len() == keys.len(),
            items@.len() == lv.take(k as int).filter(keep).len(),
            forall|p: int| 0 <= p < items.len() ==> describes(#[trigger] items@[p], conv(lv.take(k as int).filter(keep)[p]),
                strs_view(center_keys@), agent_dir@, agent_key@, agent_display_name@)
                && keys@[p]@ == spec_str_lowercase(items@[p].name@),
        decreases lines.len() - k,
    {
        let ghost t = lv.take(k + 1);
        proof {
            assert(t.drop_last() =~= lv.take(k as int));
            assert(t.last() == lines@[k as int]@);
            reveal(Seq::filter);
        }
        let (lc, a, z) = trimmed(lines[k].as_str());
        if a < z {
            match parse_remote_agent_skill_line(lines[k].as_str()) {
                Some(entry) => {
                    let seg = last_segment_of(entry.relative_path.as_str());
                    let base = if seg.as_str().is_empty() {
                        entry.name.clone()
                    } else {
                        seg
                    };
                    let center = contains_key(center_keys, entry.relative_path.as_str()) || contains_key(center_keys, base.as_str());
                    let path = remote_join(agent_dir, entry.relative_path.as_str());
                    let dir_name = last_segment_of(entry.relative_path.as_str());
                    let key = str_lowercase(entry.name.as_str());
                    let status = if center {
                        "in_sync".to_string()
                    } else {
                        "project_only".to_string()
                    };
                    let skill = crate::workspace::ProjectSkillInfo {
                        name: entry.name,
                        dir_name,
                        relative_path: entry.relative_path,
                        description: entry.description,
                        path,
                        files: entry.files,
                        enabled: true,
                        agent: agent_key.to_string(),
                        agent_display_name: agent_display_name.to_string(),
                        tags: Vec::new(),
                        in_center: center,
                        sync_status: status,
                        center_skill_id: None,
                        last_modified_at: None,
                        content_hash: None,
                    };
                    let ghost before = items@;
                    items.push(skill);
                    keys.push(key);
                    proof {
                        assert(t.filter(keep) == lv.take(k as int).filter(keep).push(t.last()));
                        assert forall|p: int| 0 <= p < items.len() implies describes(#[trigger] items@[p], conv(t.filter(keep)[p]),
                            strs_view(center_keys@), agent_dir@, agent_key@, agent_display_name@)
                            && keys@[p]@ == spec_str_lowercase(items@[p].name@) by {
                            if p < before.len() {
                                assert(items@[p] == before[p]);
                                assert(t.filter(keep)[p] == lv.take(k as int).filter(keep)[p]);
                            }
                        }
                    }
                },
                None => {
                    proof {
                        assert(t.filter(keep) == lv.take(k as int).filter(keep));
                    }
                },
            }
        } else {
            proof {
                assert(t.filter(keep) == lv.take(k as int).filter(keep));
            }
        }
        k += 1;
    }
    assert(lv.take(lines.len() as int) =~= lv);
    let ghost es = listing_entries(output@);
    assert(es =~= lv.filter(keep).map_values(conv));
    let ghost iv = items@;
    let ghost kv = strs_view(keys@);
    let sorted = crate::sorting::sort_by_keys(items, keys);
    proof {
        let idx = choose|idx: Seq<int>| crate::sorting::is_stable_sort_by(iv, kv, sorted@, idx);
        assert forall|p: int| 0 <= p < idx.len() implies 0 <= #[trigger] idx[p] < es.len()
            && describes(sorted@[p], es[idx[p]], strs_view(center_keys@), agent_dir@, agent_key@, agent_display_name@) by {
            assert(sorted@[p] == iv[idx[p]]);
        }
        assert forall|p: int, q: int| 0 <= p < q < sorted@.len() implies crate::sorting::key_le(
            spec_str_lowercase((#[trigger] sorted@[p]).name@),
            spec_str_lowercase((#[trigger] sorted@[q]).name@),
        ) by {
            assert(sorted@[p] == iv[idx[p]]);
            assert(sorted@[q] == iv[idx[q]]);
            assert(kv[idx[p]] == spec_str_lowercase(iv[idx[p]].name@));
            assert(kv[idx[q]] == spec_str_lowercase(iv[idx[q]].name@));
        }
        assert forall|p: int, q: int| 0 <= p < q < sorted@.len() && spec_str_lowercase((#[trigger] sorted@[p]).name@)
            == spec_str_lowercase((#[trigger] sorted@[q]).name@) implies idx[p] < idx[q] by {
            assert(sorted@[p] == iv[idx[p]]);
            assert(sorted@[q] == iv[idx[q]]);
            assert(kv[idx[p]] == spec_str_lowercase(iv[idx[p]].name@));
            assert(kv[idx[q]] == spec_str_lowercase(iv[idx[q]].name@));
        }
        assert(listed_in_order(output@, strs_view(center_keys@), agent_dir@, agent_key@, agent_display_name@, sorted@, idx));
    }
    sorted
}


/// The names of the skills in lower case.
pub open spec fn lowercase_names(skills: Seq<RemoteSkill>) -> Seq<Seq<char>> {
    skills.map_values(|s: RemoteSkill| spec_str_lowercase(s.name@))
}

/// The remote skills sorted by their names in lower case, skills with equal
/// such names in their given order.
pub fn sort_remote_skills(skills: Vec<RemoteSkill>) -> (r: Vec<RemoteSkill>)
    ensures
        exists|idx: Seq<int>| #[trigger] crate::sorting::is_stable_sort_by(skills@, lowercase_names(skills@), r@, idx),
{
    let mut keys: Vec<String> = Vec::new();
    let mut i: usize = 0;
    while i < skills.len()
        invariant
            i <= skills.len(),
            keys.len() == i,
            forall|p: int| 0 <= p < i ==> (#[trigger] keys@[p])@ == spec_str_lowercase(skills@[p].name@),
        decreases skills.len() - i,
    {
        keys.push(str_lowercase(skills[i].name.as_str()));
        i += 1;
    }
    assert(strs_view(keys@) =~= lowercase_names(skills@));
    crate::sorting::sort_by_keys(skills, keys)
}

/// A remote skill listed at `path`, with the description read for it.
pub fn remote_skill_entry(path: &str, description: Option<String>) -> (r: RemoteSkill)
    ensures
        r.name@ == spec_remote_skill_name(path@),
        r.path@ == path@,
        r.description == description,
{
    RemoteSkill { name: remote_skill_name(path), path: path.to_string(), description }
}

/// What the remote description script printed, trimmed, where it is not blank.
pub fn description_from_output(output: &str) -> (r: Option<String>)
    ensures
        opt_view(r) == (if trim(output@).len() > 0 { Some(trim(output@)) } else { None }),
{
    let (cs, a, z) = trimmed(output);
    if a < z {
        Some(string_of_range(&cs, a, z))
    } else {
        None
    }
}

/// Whether the marker script answered that the directory holds a skill: its
/// output, trimmed, is `yes`.
pub fn is_skill_marker(output: &str) -> (r: bool)
    ensures
        r == (trim(output@) == "yes"@),
{
    let t = trimmed_string(output);
    str_eq(t.as_str(), "yes")
}


/// What a failed `ssh` or `scp` run reports: its error output trimmed,
/// else (for `ssh`, whose standard output is given) its standard output
/// trimmed, else that the tool exited with its status.
pub open spec fn spec_process_failure(tool: Seq<char>, status: Seq<char>, stderr: Seq<char>, stdout: Option<Seq<char>>) -> Seq<char> {
    let err = trim(stderr);
    let msg = if err.len() > 0 {
        err
    } else {
        match stdout {
            Some(o) => trim(o),
            None => seq![],
        }
    };
    if msg.len() == 0 {
        tool + " exited with status "@ + status
    } else {
        msg
    }
}

/// What a failed `ssh` or `scp` run reports (see [`spec_process_failure`]).
pub fn process_failure_message(tool: &str, status: &str, stderr: &str, stdout: Option<&str>) -> (r: String)
    ensures
        r@ == spec_process_failure(tool@, status@, stderr@, crate::presets::opt_str(stdout)),
{
    let err = crate::text::trimmed_str(stderr);
    let msg = if !err.as_str().is_empty() {
        err
    } else {
        match stdout {
            Some(o) => crate::text::trimmed_str(o),
            None => String::new(),
        }
    };
    if msg.as_str().is_empty() {
        let mut out = tool.to_string();
        push_str(&mut out, " exited with status ");
        push_str(&mut out, status);
        out
    } else {
        msg
    }
}

} // verus!

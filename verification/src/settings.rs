//! Application settings and the facts the diagnostics screens report: the
//! update check, the tray-icon setting and the operating system's version.
use crate::error::{AppError, ErrorKind};
use crate::text::{
    chars_of, eq_pred, is_digit, lemma_run_bound, lemma_run_is_first_failure, ne_pred, rrun, run,
    string_of_range, text_lines, trim, trim_bounds, lines_of, strs_view, str_eq,
};
use vstd::prelude::*;

verus! {

// ---------------------------------------------------------------------------
// Reports
// ---------------------------------------------------------------------------

/// The answer of the update check.
pub struct AppUpdateInfo {
    pub has_update: bool,
    pub current_version: String,
    pub latest_version: String,
    pub release_url: String,
}

/// What a bug report needs to know about the installation.
pub struct DiagnosticInfo {
    pub app_version: String,
    pub os: String,
    pub os_version: String,
    pub arch: String,
    pub central_repo_path: String,
    pub central_repo_path_overridden: bool,
}

/// The last crash that the application recorded.
pub struct PanicInfo {
    pub timestamp: String,
    pub message: String,
}

/// The part of the log shown in the diagnostics screen.
pub struct LogExcerpt {
    pub log_path: String,
    pub excerpt: String,
    pub line_count: usize,
    pub has_warnings: bool,
}

/// Where an exported log archive was written, and how many files it holds.
pub struct LogExportResult {
    pub zip_path: String,
    pub file_count: usize,
}

// ---------------------------------------------------------------------------
// Decimal numbers
// ---------------------------------------------------------------------------

/// The value of a string of decimal digits.
pub open spec fn digits_value(s: Seq<char>) -> nat
    decreases s.len(),
{
    if s.len() == 0 {
        0
    } else {
        digits_value(s.drop_last()) * 10 + ((s.last() as nat) - ('0' as nat)) as nat
    }
}

/// Every character of `s` is an ASCII digit.
pub open spec fn all_digits(s: Seq<char>) -> bool {
    forall|i: int| 0 <= i < s.len() ==> is_digit(#[trigger] s[i])
}

/// `str::parse::<u64>`: an optional `+`, then one or more ASCII digits, whose
/// value fits in 64 bits.
pub open spec fn spec_parse_u64(s: Seq<char>) -> Option<u64> {
    let body = if s.len() > 0 && s[0] == '+' { s.drop_first() } else { s };
    if body.len() > 0 && all_digits(body) && digits_value(body) <= u64::MAX {
        Some(digits_value(body) as u64)
    } else {
        None
    }
}

proof fn lemma_digits_value_grows(s: Seq<char>, k: int)
    requires
        0 <= k <= s.len(),
        forall|i: int| 0 <= i < s.len() ==> is_digit(#[trigger] s[i]),
    ensures
        digits_value(s.take(k)) <= digits_value(s),
    decreases s.len() - k,
{
    if k < s.len() {
        lemma_digits_value_grows(s, k + 1);
        assert(s.take(k + 1).drop_last() =~= s.take(k));
        assert(s.take(k + 1).last() == s[k]);
    } else {
        assert(s.take(k) =~= s);
    }
}

/// Parses a decimal `u64` the way `str::parse::<u64>` does.
pub fn parse_u64(s: &str) -> (r: Option<u64>)
    ensures
        r == spec_parse_u64(s@),
{
    let cs = chars_of(s);
    let start: usize = if cs.len() > 0 && cs[0] == '+' { 1 } else { 0 };
    let ghost body = if s@.len() > 0 && s@[0] == '+' { s@.drop_first() } else { s@ };
    assert(body =~= cs@.skip(start as int));
    if start >= cs.len() {
        return None;
    }
    let mut acc: u64 = 0;
    let mut over = false;
    let mut i: usize = start;
    while i < cs.len()
        invariant
            start < cs.len(),
            start <= i <= cs.len(),
            cs@ == s@,
            body == cs@.skip(start as int),
            body == (if s@.len() > 0 && s@[0] == '+' { s@.drop_first() } else { s@ }),
            forall|j: int| start <= j < i ==> is_digit(#[trigger] cs@[j]),
            !over ==> acc == digits_value(body.take(i - start)),
            over ==> digits_value(body.take(i - start)) > u64::MAX,
        decreases cs.len() - i,
    {
        let c = cs[i];
        if !('0' <= c && c <= '9') {
            assert(body[i - start] == c);
            assert(!is_digit(body[i - start]));
            return None;
        }
        let d: u64 = (c as u32 - '0' as u32) as u64;
        assert(body.take(i - start + 1).drop_last() =~= body.take(i - start));
        assert(body.take(i - start + 1).last() == c);
        if !over {
            match acc.checked_mul(10) {
                Some(m) => match m.checked_add(d) {
                    Some(v) => {
                        acc = v;
                    },
                    None => {
                        over = true;
                    },
                },
                None => {
                    over = true;
                },
            }
        }
        i += 1;
    }
    assert(body.take(i - start) =~= body);
    assert forall|j: int| 0 <= j < body.len() implies is_digit(#[trigger] body[j]) by {
        assert(body[j] == cs@[start + j]);
    }
    if over {
        return None;
    }
    Some(acc)
}


// ---------------------------------------------------------------------------
// Version comparison
// ---------------------------------------------------------------------------

/// The pieces of `s` between the occurrences of `c` (`str::split`).
pub open spec fn split_on(s: Seq<char>, c: char) -> Seq<Seq<char>>
    decreases s.len(),
{
    let k = run(s, ne_pred(c)) as int;
    if k < s.len() {
        seq![s.take(k)] + split_on(s.skip(k + 1), c)
    } else {
        seq![s]
    }
}

/// The pieces that parse as `u64`, in order (`filter_map(str::parse)`).
pub open spec fn parsed_parts(pieces: Seq<Seq<char>>) -> Seq<u64>
    decreases pieces.len(),
{
    if pieces.len() == 0 {
        seq![]
    } else {
        let rest = parsed_parts(pieces.drop_first());
        match spec_parse_u64(pieces[0]) {
            Some(v) => seq![v] + rest,
            None => rest,
        }
    }
}

/// The numeric components of a version string that is not SemVer: the
/// dot-separated pieces that are decimal numbers.
pub open spec fn numeric_parts(s: Seq<char>) -> Seq<u64> {
    parsed_parts(split_on(s, '.'))
}

/// Lexicographic order of lists of numbers (`Vec<u64>`'s `>`): the first
/// difference decides, and a list is greater than its proper prefixes.
pub open spec fn lex_greater(a: Seq<u64>, b: Seq<u64>) -> bool
    decreases a.len(),
{
    if a.len() == 0 {
        false
    } else if b.len() == 0 {
        true
    } else if a[0] != b[0] {
        a[0] > b[0]
    } else {
        lex_greater(a.drop_first(), b.drop_first())
    }
}

/// The order of numeric components is strict: no list is greater than
/// itself, and of two lists at most one is greater than the other.
pub proof fn lemma_lex_greater_strict(a: Seq<u64>, b: Seq<u64>)
    ensures
        !lex_greater(a, a),
        !(lex_greater(a, b) && lex_greater(b, a)),
    decreases a.len(),
{
    if a.len() > 0 {
        lemma_lex_greater_strict(a.drop_first(), a.drop_first());
        if b.len() > 0 {
            lemma_lex_greater_strict(a.drop_first(), b.drop_first());
        }
    }
}

/// Where neither side is SemVer, no version is newer than itself, and of
/// two versions at most one is newer than the other.
pub proof fn lemma_version_gt_strict_without_semver(a: Seq<char>, b: Seq<char>)
    requires
        spec_semver_greater(a, a) is None,
        spec_semver_greater(a, b) is None,
        spec_semver_greater(b, a) is None,
    ensures
        !spec_version_gt(a, a),
        !(spec_version_gt(a, b) && spec_version_gt(b, a)),
{
    lemma_lex_greater_strict(numeric_parts(a), numeric_parts(b));
}

/// Whether both strings are SemVer versions and the first is greater in the
/// order of `semver::Version`; `None` where either does not parse as SemVer.
pub uninterp spec fn spec_semver_greater(a: Seq<char>, b: Seq<char>) -> Option<bool>;

/// Parses both strings with `semver::Version::parse` and, where both parse,
/// compares them with `>` on `semver::Version`, whose derived order looks at
/// major, minor, patch, pre-release and then build metadata (so it refines
/// SemVer precedence, which ignores build metadata). The contract only names
/// the outcome: the parsing and ordering rules are not restated here.
#[verifier::external_body]
fn semver_greater(a: &str, b: &str) -> (r: Option<bool>)
    ensures
        r == spec_semver_greater(a@, b@),
{
    match (semver::Version::parse(a), semver::Version::parse(b)) {
        (Ok(x), Ok(y)) => Some(x > y),
        _ => None,
    }
}

/// `version_gt`: the order of `semver::Version` where both sides are SemVer, else the
/// lexicographic order of their numeric components.
pub open spec fn spec_version_gt(a: Seq<char>, b: Seq<char>) -> bool {
    match spec_semver_greater(a, b) {
        Some(g) => g,
        None => lex_greater(numeric_parts(a), numeric_parts(b)),
    }
}

/// The numeric components of `s` (see [`numeric_parts`]).
pub fn numeric_version_parts(s: &str) -> (r: Vec<u64>)
    ensures
        r@ == numeric_parts(s@),
{
    let cs = chars_of(s);
    let n = cs.len();
    let mut out: Vec<u64> = Vec::new();
    let mut start: usize = 0;
    let mut done = false;
    assert(cs@.skip(0) =~= cs@);
    while !done
        invariant
            start <= n == cs.len(),
            cs@ == s@,
            !done ==> numeric_parts(s@) == out@ + parsed_parts(split_on(cs@.skip(start as int), '.')),
            done ==> numeric_parts(s@) == out@,
        decreases n - start + (if done { 0int } else { 1int }),
    {
        let ghost rest = cs@.skip(start as int);
        let mut j = start;
        while j < n && cs[j] != '.'
            invariant
                start <= j <= n == cs.len(),
                forall|m: int| start <= m < j ==> #[trigger] cs@[m] != '.',
            decreases n - j,
        {
            j += 1;
        }
        proof {
            assert forall|m: int| 0 <= m < j - start implies (ne_pred('.'))(#[trigger] rest[m]) by {
                assert(rest[m] == cs@[start + m]);
            }
            if j < n {
                assert(rest[j - start] == cs@[j as int]);
            }
            lemma_run_is_first_failure(rest, ne_pred('.'), j - start);
        }
        let piece = string_of_range(&cs, start, j);
        let parsed = parse_u64(piece.as_str());
        let ghost before = out@;
        proof {
            if j < n {
                assert(rest.take(j - start) =~= piece@);
                assert(rest.skip(j - start + 1) =~= cs@.skip(j + 1));
            } else {
                assert(rest =~= piece@);
            }
        }
        match parsed {
            Some(v) => {
                out.push(v);
            },
            None => {},
        }
        proof {
            let pieces = split_on(rest, '.');
            assert(pieces[0] == piece@);
            assert(pieces.drop_first() == if j < n { split_on(cs@.skip(j + 1), '.') } else { seq![] });
            match parsed {
                Some(v) => {
                    assert(out@ + parsed_parts(pieces.drop_first()) =~= before + parsed_parts(pieces));
                },
                None => {
                    assert(out@ == before);
                },
            }
        }
        if j < n {
            start = j + 1;
        } else {
            start = n;
            done = true;
            assert(parsed_parts(Seq::<Seq<char>>::empty()) == Seq::<u64>::empty());
            assert(out@ + Seq::<u64>::empty() =~= out@);
        }
    }
    out
}

/// Lexicographic comparison of two lists of numbers (see [`lex_greater`]).
pub fn lex_greater_exec(a: &Vec<u64>, b: &Vec<u64>) -> (r: bool)
    ensures
        r == lex_greater(a@, b@),
{
    let mut i: usize = 0;
    assert(a@.skip(0) =~= a@);
    assert(b@.skip(0) =~= b@);
    while i < a.len() && i < b.len() && a[i] == b[i]
        invariant
            i <= a.len(),
            i <= b.len(),
            lex_greater(a@, b@) == lex_greater(a@.skip(i as int), b@.skip(i as int)),
        decreases a.len() - i,
    {
        assert(a@.skip(i as int).drop_first() =~= a@.skip(i + 1));
        assert(b@.skip(i as int).drop_first() =~= b@.skip(i + 1));
        i += 1;
    }
    if i == a.len() {
        false
    } else if i == b.len() {
        true
    } else {
        a[i] > b[i]
    }
}

/// The decision that follows the SemVer comparison: its outcome where both
/// strings were SemVer, else the order of their numeric components.
pub fn version_gt_given(semver: Option<bool>, a: &str, b: &str) -> (r: bool)
    ensures
        r == match semver {
            Some(g) => g,
            None => lex_greater(numeric_parts(a@), numeric_parts(b@)),
        },
{
    match semver {
        Some(g) => g,
        None => {
            let x = numeric_version_parts(a);
            let y = numeric_version_parts(b);
            lex_greater_exec(&x, &y)
        },
    }
}

/// Whether version `a` is newer than version `b`: by the order of
/// `semver::Version` where both are SemVer (pre-releases and build metadata
/// included), else by their
/// dot-separated numeric components.
pub fn version_gt(a: &str, b: &str) -> (r: bool)
    ensures
        r == spec_version_gt(a@, b@),
{
    let semver = semver_greater(a, b);
    version_gt_given(semver, a, b)
}

/// A release tag without its leading `v`.
pub open spec fn spec_version_of_tag(tag: Seq<char>) -> Seq<char> {
    if tag.len() > 0 && tag[0] == 'v' {
        tag.drop_first()
    } else {
        tag
    }
}

/// The page that lists the releases, shown when the release has none of its own.
pub open spec fn default_release_url() -> Seq<char> {
    "https://github.com/xingkongliang/skills-manager/releases"@
}

/// The update check's answer, from the running version and the latest
/// release's `tag_name` and `html_url` fields. Fails, as a network error,
/// when the release has no tag name.
pub fn app_update_info(current_version: &str, tag_name: Option<&str>, html_url: Option<&str>) -> (r: Result<AppUpdateInfo, AppError>)
    ensures
        tag_name is None <==> r is Err,
        r matches Err(e) ==> e.kind == ErrorKind::Network && e.message@ == "No tag_name in response"@,
        r matches Ok(info) ==> {
            let latest = spec_version_of_tag(tag_name.unwrap()@);
            &&& info.latest_version@ == latest
            &&& info.current_version@ == current_version@
            &&& info.has_update == spec_version_gt(latest, current_version@)
            &&& info.release_url@ == match html_url {
                Some(u) => u@,
                None => default_release_url(),
            }
        },
{
    let tag = match tag_name {
        Some(t) => t,
        None => {
            return Err(AppError::new(ErrorKind::Network, "No tag_name in response"));
        },
    };
    let cs = chars_of(tag);
    let latest = if cs.len() > 0 && cs[0] == 'v' {
        string_of_range(&cs, 1, cs.len())
    } else {
        tag.to_string()
    };
    proof {
        if cs.len() > 0 && cs[0] == 'v' {
            assert(cs@.subrange(1, cs.len() as int) =~= tag@.drop_first());
        }
    }
    let release_url = match html_url {
        Some(u) => u.to_string(),
        None => "https://github.com/xingkongliang/skills-manager/releases".to_string(),
    };
    let has_update = version_gt(latest.as_str(), current_version);
    Ok(AppUpdateInfo {
        has_update,
        current_version: current_version.to_string(),
        latest_version: latest,
        release_url,
    })
}

// ---------------------------------------------------------------------------
// Tray icon
// ---------------------------------------------------------------------------

/// `char::to_ascii_lowercase`.
pub open spec fn ascii_lower(c: char) -> char {
    if 'A' <= c && c <= 'Z' {
        ((c as u32) + 32) as char
    } else {
        c
    }
}

/// `str::to_ascii_lowercase`.
pub open spec fn ascii_lowercase(s: Seq<char>) -> Seq<char> {
    s.map_values(|c: char| ascii_lower(c))
}

/// The words that switch the tray icon off.
pub open spec fn is_off_word(s: Seq<char>) -> bool {
    s == "false"@ || s == "0"@ || s == "no"@ || s == "off"@
}

/// Whether the tray icon is shown for the stored `show_tray_icon` setting:
/// yes unless the setting, trimmed and in lower case, is `false`, `0`, `no`
/// or `off`.
pub open spec fn spec_show_tray_icon(value: Option<Seq<char>>) -> bool {
    match value {
        Some(v) => !is_off_word(ascii_lowercase(trim(v))),
        None => true,
    }
}

/// `char::to_ascii_lowercase`, which maps `A`..`Z` to `a`..`z` and leaves
/// every other character as it is.
pub fn to_ascii_lower(c: char) -> (r: char)
    ensures
        r == ascii_lower(c),
{
    if 'A' <= c && c <= 'Z' {
        let v: u32 = c as u32;
        let b: u8 = v as u8;
        assert(b as u32 == v) by (bit_vector)
            requires
                b == v as u8,
                v < 128,
        ;
        let l: u8 = b + 32;
        l as char
    } else {
        c
    }
}

/// Whether the tray icon is shown (see [`spec_show_tray_icon`]).
pub fn show_tray_icon(value: Option<&str>) -> (r: bool)
    ensures
        r == spec_show_tray_icon(match value {
            Some(v) => Some(v@),
            None => None,
        }),
{
    match value {
        None => true,
        Some(v) => {
            let cs = chars_of(v);
            let (a, z) = trim_bounds(&cs, 0, cs.len());
            assert(cs@.subrange(0, cs.len() as int) =~= v@);
            let mut low: Vec<char> = Vec::new();
            let mut i = a;
            while i < z
                invariant
                    a <= i <= z <= cs.len(),
                    low@ == ascii_lowercase(cs@.subrange(a as int, i as int)),
                decreases z - i,
            {
                low.push(to_ascii_lower(cs[i]));
                assert(ascii_lowercase(cs@.subrange(a as int, i + 1)) =~= ascii_lowercase(
                    cs@.subrange(a as int, i as int),
                ).push(ascii_lower(cs@[i as int])));
                i += 1;
            }
            let w = crate::text::string_of(&low);
            let off = str_eq(w.as_str(), "false") || str_eq(w.as_str(), "0") || str_eq(
                w.as_str(),
                "no",
            ) || str_eq(w.as_str(), "off");
            !off
        },
    }
}


// ---------------------------------------------------------------------------
// Operating system version
// ---------------------------------------------------------------------------

/// `str::trim_matches('"')`: `t` without its leading and trailing quotes.
pub open spec fn strip_quotes(t: Seq<char>) -> Seq<char> {
    let u = t.skip(run(t, eq_pred('"')) as int);
    u.take(u.len() - rrun(u, eq_pred('"')))
}

/// The value of the first `PRETTY_NAME=` line among `ls`, trimmed and
/// without its quotes.
pub open spec fn first_pretty_name(ls: Seq<Seq<char>>) -> Option<Seq<char>>
    decreases ls.len(),
{
    if ls.len() == 0 {
        None
    } else if crate::text::starts_with(ls[0], "PRETTY_NAME="@) {
        Some(strip_quotes(trim(ls[0].skip(12))))
    } else {
        first_pretty_name(ls.drop_first())
    }
}

/// The operating system's name and version from the text of
/// `/etc/os-release`: the value of its first `PRETTY_NAME=` line, or
/// `unknown` where there is none or it is empty.
pub open spec fn spec_os_version(content: Seq<char>) -> Seq<char> {
    match first_pretty_name(text_lines(content)) {
        Some(v) => if v.len() > 0 { v } else { "unknown"@ },
        None => "unknown"@,
    }
}

/// Length of the run of `c` at the end of `cs[from..to]`.
pub fn trailing_run_of(cs: &[char], from: usize, to: usize, c: char) -> (k: usize)
    requires
        from <= to <= cs.len(),
    ensures
        k == rrun(cs@.subrange(from as int, to as int), eq_pred(c)),
        k <= to - from,
{
    let ghost t = cs@.subrange(from as int, to as int);
    let mut i = to;
    while i > from && cs[i - 1] == c
        invariant
            from <= i <= to <= cs.len(),
            forall|j: int| i <= j < to ==> #[trigger] cs@[j] == c,
        decreases i - from,
    {
        i -= 1;
    }
    proof {
        assert forall|j: int| t.len() - (to - i) <= j < t.len() implies (eq_pred(c))(#[trigger] t[j]) by {
            assert(t[j] == cs@[from + j]);
        }
        if to - i < t.len() {
            assert(t[t.len() - (to - i) - 1] == cs@[i - 1]);
        }
        crate::text::lemma_rrun_is_last_failure(t, eq_pred(c), to - i);
    }
    to - i
}

/// The operating system's version from the text of `/etc/os-release` (see
/// [`spec_os_version`]).
pub fn os_version_from_release(content: &str) -> (r: String)
    ensures
        r@ == spec_os_version(content@),
{
    let lines = lines_of(content);
    let ghost ls = text_lines(content@);
    let prefix = chars_of("PRETTY_NAME=");
    proof {
        reveal_strlit("PRETTY_NAME=");
    }
    let mut i: usize = 0;
    assert(ls.skip(0) =~= ls);
    while i < lines.len()
        invariant
            i <= lines.len(),
            ls == strs_view(lines@),
            ls == text_lines(content@),
            prefix@ == "PRETTY_NAME="@,
            prefix@.len() == 12,
            first_pretty_name(ls) == first_pretty_name(ls.skip(i as int)),
        decreases lines.len() - i,
    {
        let ghost rest = ls.skip(i as int);
        assert(rest[0] == lines@[i as int]@);
        assert(rest.drop_first() =~= ls.skip(i + 1));
        let cs = chars_of(lines[i].as_str());
        assert(cs@.subrange(0, cs.len() as int) =~= cs@);
        if crate::text::starts_with_at(&cs, 0, cs.len(), &prefix) {
            let (a, z) = trim_bounds(&cs, 12, cs.len());
            assert(cs@.subrange(12, cs.len() as int) =~= cs@.skip(12));
            let lead = crate::text::run_eq(&cs, a, z, '"');
            let trail = trailing_run_of(&cs, a + lead, z, '"');
            proof {
                let t = cs@.subrange(a as int, z as int);
                assert(t.skip(lead as int) =~= cs@.subrange(a + lead, z as int));
            }
            let v = string_of_range(&cs, a + lead, z - trail);
            proof {
                let t = cs@.subrange(a as int, z as int);
                let u = t.skip(lead as int);
                assert(u.take(u.len() - trail) =~= v@);
            }
            if a + lead < z - trail {
                return v;
            } else {
                proof {
                    reveal_strlit("unknown");
                }
                return "unknown".to_string();
            }
        }
        i += 1;
    }
    assert(ls.skip(i as int) =~= Seq::<Seq<char>>::empty());
    "unknown".to_string()
}

} // verus!

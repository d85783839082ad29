//! Application logs and settings as the diagnostics screens show them:
//! repeated log noise folded into one line, the excerpt of a log around its
//! warnings, the version check and the tray setting.
use crate::text::{
    chars_of, join_lines, join_with, lines_of, ne_pred, push_str, run, str_eq, string_of_range,
    strs_view, text_lines, to_decimal, trim_start, ws_pred, decimal, lemma_run_is_first_failure,
    lemma_run_bound,
};
use vstd::prelude::*;

verus! {

// ---------------------------------------------------------------------------
// Fingerprints of log lines
// ---------------------------------------------------------------------------

/// Index of the second `]` of `s`, if it has two.
pub open spec fn second_close_bracket(s: Seq<char>) -> Option<int> {
    let a = run(s, ne_pred(']')) as int;
    if a >= s.len() {
        None
    } else {
        let b = run(s.skip(a + 1), ne_pred(']')) as int;
        if a + 1 + b >= s.len() {
            None
        } else {
            Some(a + 1 + b)
        }
    }
}

/// Where the fingerprint of a log line starts. A line in the old format
/// (`[date][time][module][LEVEL] msg`) loses its first two bracketed groups;
/// a line in the new format (`timestamp LEVEL [module] msg`) loses everything
/// up to its first space; in both cases the whitespace that follows goes too.
/// A line with neither shape is its own fingerprint.
pub open spec fn fingerprint_start(s: Seq<char>) -> int {
    if s.len() > 0 && s[0] == '[' {
        match second_close_bracket(s) {
            Some(i) => i + 1 + run(s.skip(i + 1), ws_pred()),
            None => 0,
        }
    } else {
        let k = run(s, ne_pred(' ')) as int;
        if k < s.len() {
            k + 1 + run(s.skip(k + 1), ws_pred())
        } else {
            0
        }
    }
}

/// The part of a log line that identifies it apart from its timestamp.
pub open spec fn fingerprint(s: Seq<char>) -> Seq<char> {
    s.skip(fingerprint_start(s))
}

proof fn lemma_fingerprint_start(s: Seq<char>)
    ensures
        0 <= fingerprint_start(s) <= s.len(),
        fingerprint(s) == if s.len() > 0 && s[0] == '[' {
            match second_close_bracket(s) {
                Some(i) => trim_start(s.skip(i + 1)),
                None => s,
            }
        } else {
            let k = run(s, ne_pred(' ')) as int;
            if k < s.len() {
                trim_start(s.skip(k + 1))
            } else {
                s
            }
        },
{
    lemma_run_bound(s, ne_pred(']'));
    lemma_run_bound(s, ne_pred(' '));
    let a = run(s, ne_pred(']')) as int;
    if a < s.len() {
        lemma_run_bound(s.skip(a + 1), ne_pred(']'));
    }
    if s.len() > 0 && s[0] == '[' {
        match second_close_bracket(s) {
            Some(i) => {
                lemma_run_bound(s.skip(i + 1), ws_pred());
                assert(s.skip(fingerprint_start(s)) =~= s.skip(i + 1).skip(run(s.skip(i + 1), ws_pred()) as int));
            },
            None => {
                assert(s.skip(0) =~= s);
            },
        }
    } else {
        let k = run(s, ne_pred(' ')) as int;
        if k < s.len() {
            lemma_run_bound(s.skip(k + 1), ws_pred());
            assert(s.skip(fingerprint_start(s)) =~= s.skip(k + 1).skip(run(s.skip(k + 1), ws_pred()) as int));
        } else {
            assert(s.skip(0) =~= s);
        }
    }
}

/// Length of the run of characters other than `c` from `from` on in `cs[..to]`.
fn run_until(cs: &[char], from: usize, to: usize, c: char) -> (k: usize)
    requires
        from <= to <= cs.len(),
    ensures
        k == run(cs@.subrange(from as int, to as int), ne_pred(c)),
        from + k <= to,
{
    let ghost t = cs@.subrange(from as int, to as int);
    let mut i = from;
    while i < to && cs[i] != c
        invariant
            from <= i <= to <= cs.len(),
            forall|j: int| from <= j < i ==> #[trigger] cs@[j] != c,
        decreases to - i,
    {
        i += 1;
    }
    proof {
        assert forall|j: int| 0 <= j < i - from implies (ne_pred(c))(#[trigger] t[j]) by {
            assert(t[j] == cs@[from + j]);
        }
        if i - from < t.len() {
            assert(t[i - from] == cs@[i as int]);
        }
        lemma_run_is_first_failure(t, ne_pred(c), i - from);
    }
    i - from
}

/// Where the fingerprint of `cs` starts (see [`fingerprint_start`]).
fn fingerprint_index(cs: &[char]) -> (r: usize)
    ensures
        r == fingerprint_start(cs@),
{
    let n = cs.len();
    let ghost s = cs@;
    assert(cs@.subrange(0, n as int) =~= s);
    if n > 0 && cs[0] == '[' {
        let a = run_until(cs, 0, n, ']');
        if a >= n {
            return 0;
        }
        let b = run_until(cs, a + 1, n, ']');
        assert(cs@.subrange(a + 1, n as int) =~= s.skip(a + 1));
        if a + 1 + b >= n {
            return 0;
        }
        let i = a + 1 + b;
        let w = crate::text::leading_ws(cs, i + 1, n);
        assert(cs@.subrange(i + 1, n as int) =~= s.skip(i + 1));
        i + 1 + w
    } else {
        let k = run_until(cs, 0, n, ' ');
        if k < n {
            let w = crate::text::leading_ws(cs, k + 1, n);
            assert(cs@.subrange(k + 1, n as int) =~= s.skip(k + 1));
            k + 1 + w
        } else {
            0
        }
    }
}

/// The fingerprint of a log line: the line without its leading timestamp, so
/// that two lines that differ only in time get the same fingerprint.
pub fn line_fingerprint(line: &str) -> (r: String)
    ensures
        r@ == fingerprint(line@),
        r@ == if line@.len() > 0 && line@[0] == '[' {
            match second_close_bracket(line@) {
                Some(i) => trim_start(line@.skip(i + 1)),
                None => line@,
            }
        } else {
            let k = run(line@, ne_pred(' ')) as int;
            if k < line@.len() {
                trim_start(line@.skip(k + 1))
            } else {
                line@
            }
        },
{
    let cs = chars_of(line);
    let start = fingerprint_index(&cs);
    proof {
        lemma_fingerprint_start(line@);
    }
    let r = string_of_range(&cs, start, cs.len());
    assert(r@ =~= fingerprint(line@));
    r
}

// ---------------------------------------------------------------------------
// Folding repeated lines
// ---------------------------------------------------------------------------

/// Number of leading lines of `ls` whose fingerprint is `key`.
pub open spec fn repeat_run(ls: Seq<Seq<char>>, key: Seq<char>) -> nat
    decreases ls.len(),
{
    if ls.len() > 0 && fingerprint(ls[0]) == key {
        1 + repeat_run(ls.drop_first(), key)
    } else {
        0
    }
}

/// `repeat_run` counts lines of `ls`, so it is at most their number.
pub proof fn lemma_repeat_run_bound(ls: Seq<Seq<char>>, key: Seq<char>)
    ensures
        repeat_run(ls, key) <= ls.len(),
    decreases ls.len(),
{
    if ls.len() > 0 && fingerprint(ls[0]) == key {
        lemma_repeat_run_bound(ls.drop_first(), key);
    }
}

/// The note that stands for `n` further repetitions of the line above it.
pub open spec fn repeat_note(n: nat) -> Seq<char> {
    "... (line above repeated "@ + decimal(n) + " more times)"@
}

/// The lines of a log with each run of consecutive lines that share a
/// fingerprint folded: a run of three or more becomes its first line and a
/// note that counts the others; a run of one or two is kept as it is.
pub open spec fn collapsed_lines(ls: Seq<Seq<char>>) -> Seq<Seq<char>>
    decreases ls.len(),
{
    if ls.len() == 0 {
        seq![]
    } else {
        let k = repeat_run(ls, fingerprint(ls[0]));
        proof {
            lemma_repeat_run_bound(ls, fingerprint(ls[0]));
        }
        let head = if k >= 3 {
            seq![ls[0], repeat_note((k - 1) as nat)]
        } else if k == 2 {
            seq![ls[0], ls[1]]
        } else {
            seq![ls[0]]
        };
        if k >= 1 {
            head + collapsed_lines(ls.skip(k as int))
        } else {
            head
        }
    }
}

/// `collapse_consecutive_repeats` of a whole text: its lines, folded, joined
/// with `\n`.
pub open spec fn collapsed_text(text: Seq<char>) -> Seq<char> {
    join_with(collapsed_lines(text_lines(text)), "\n"@)
}

proof fn lemma_repeat_run(ls: Seq<Seq<char>>, key: Seq<char>, k: int)
    requires
        0 <= k <= ls.len(),
        forall|m: int| 0 <= m < k ==> fingerprint(#[trigger] ls[m]) == key,
        k < ls.len() ==> fingerprint(ls[k]) != key,
    ensures
        repeat_run(ls, key) == k,
    decreases k,
{
    if k > 0 {
        let t = ls.drop_first();
        assert forall|m: int| 0 <= m < k - 1 implies fingerprint(#[trigger] t[m]) == key by {
            assert(t[m] == ls[m + 1]);
        }
        if k - 1 < t.len() {
            assert(t[k - 1] == ls[k]);
        }
        lemma_repeat_run(t, key, k - 1);
    }
}

/// Folds the runs of repeated log lines of `text` (see [`collapsed_lines`]).
pub fn collapse_consecutive_repeats(text: &str) -> (r: String)
    ensures
        r@ == collapsed_text(text@),
{
    let lines = lines_of(text);
    let ghost ls = text_lines(text@);
    let n = lines.len();
    let mut keys: Vec<String> = Vec::new();
    let mut t: usize = 0;
    while t < n
        invariant
            t <= n == lines.len(),
            keys.len() == t,
            forall|m: int| 0 <= m < t ==> (#[trigger] keys@[m])@ == fingerprint(lines@[m]@),
        decreases n - t,
    {
        let key = line_fingerprint(lines[t].as_str());
        keys.push(key);
        t += 1;
    }
    let mut out: Vec<String> = Vec::new();
    let mut i: usize = 0;
    assert(ls.skip(0) =~= ls);
    while i < n
        invariant
            i <= n == lines.len() == keys.len(),
            ls == strs_view(lines@),
            forall|m: int| 0 <= m < n ==> (#[trigger] keys@[m])@ == fingerprint(lines@[m]@),
            collapsed_lines(ls) == strs_view(out@) + collapsed_lines(ls.skip(i as int)),
        decreases n - i,
    {
        let ghost rest = ls.skip(i as int);
        let mut j = i + 1;
        while j < n && str_eq(keys[j].as_str(), keys[i].as_str())
            invariant
                i < j <= n == keys.len() == lines.len(),
                ls == strs_view(lines@),
                forall|m: int| 0 <= m < n ==> (#[trigger] keys@[m])@ == fingerprint(lines@[m]@),
                forall|m: int| i <= m < j ==> fingerprint(#[trigger] ls[m]) == fingerprint(ls[i as int]),
            decreases n - j,
        {
            assert(keys@[j as int]@ == fingerprint(ls[j as int]));
            j += 1;
        }
        proof {
            assert(rest[0] == ls[i as int]);
            assert forall|m: int| 0 <= m < j - i implies fingerprint(#[trigger] rest[m]) == fingerprint(rest[0]) by {
                assert(rest[m] == ls[i + m]);
            }
            if j < n {
                assert(rest[j - i] == ls[j as int]);
                assert(keys@[j as int]@ == fingerprint(ls[j as int]));
                assert(keys@[i as int]@ == fingerprint(ls[i as int]));
            }
            lemma_repeat_run(rest, fingerprint(rest[0]), j - i);
            assert(rest.skip(j - i) =~= ls.skip(j as int));
        }
        let count = j - i;
        let ghost before = out@;
        out.push(lines[i].clone());
        if count >= 3 {
            let mut note = String::new();
            push_str(&mut note, "... (line above repeated ");
            let d = to_decimal((count - 1) as u128);
            push_str(&mut note, d.as_str());
            push_str(&mut note, " more times)");
            out.push(note);
            proof {
                reveal_strlit("... (line above repeated ");
                reveal_strlit(" more times)");
                assert(note@ =~= repeat_note((count - 1) as nat));
                assert(strs_view(out@) =~= strs_view(before) + seq![rest[0], repeat_note((count - 1) as nat)]);
            }
        } else if count == 2 {
            out.push(lines[i + 1].clone());
            proof {
                assert(rest[1] == ls[i + 1]);
                assert(strs_view(out@) =~= strs_view(before) + seq![rest[0], rest[1]]);
            }
        } else {
            proof {
                assert(strs_view(out@) =~= strs_view(before) + seq![rest[0]]);
            }
        }
        i = j;
    }
    assert(ls.skip(n as int) =~= Seq::<Seq<char>>::empty());
    assert(strs_view(out@) + seq![] =~= strs_view(out@));
    join_lines(&out, "\n")
}


/// Lines whose neighbours all have other fingerprints come out of the fold
/// exactly as they went in.
pub proof fn lemma_distinct_lines_kept(ls: Seq<Seq<char>>)
    requires
        forall|i: int| 0 <= i < ls.len() - 1 ==> fingerprint(#[trigger] ls[i]) != fingerprint(ls[i + 1]),
    ensures
        collapsed_lines(ls) == ls,
    decreases ls.len(),
{
    if ls.len() > 0 {
        let t = ls.drop_first();
        if ls.len() > 1 {
            assert(fingerprint(ls[0]) != fingerprint(ls[1]));
            assert(repeat_run(t, fingerprint(ls[0])) == 0);
        } else {
            assert(repeat_run(t, fingerprint(ls[0])) == 0);
        }
        assert(repeat_run(ls, fingerprint(ls[0])) == 1);
        assert forall|i: int| 0 <= i < t.len() - 1 implies fingerprint(#[trigger] t[i]) != fingerprint(t[i + 1]) by {
            assert(t[i] == ls[i + 1]);
            assert(t[i + 1] == ls[i + 2]);
            assert(fingerprint(ls[i + 1]) != fingerprint(ls[i + 2]));
        }
        lemma_distinct_lines_kept(t);
        assert(ls.skip(1) =~= t);
        assert(seq![ls[0]] + t =~= ls);
    }
}

/// The lengths of the maximal runs of consecutive lines of `ls` that share
/// a fingerprint, in order.
pub open spec fn run_lengths(ls: Seq<Seq<char>>) -> Seq<nat>
    decreases ls.len(),
{
    if ls.len() == 0 {
        seq![]
    } else {
        let k = repeat_run(ls, fingerprint(ls[0]));
        proof {
            lemma_repeat_run_bound(ls, fingerprint(ls[0]));
        }
        if k >= 1 {
            seq![k] + run_lengths(ls.skip(k as int))
        } else {
            seq![k]
        }
    }
}

/// The sum of `runs`.
pub open spec fn total(runs: Seq<nat>) -> nat
    decreases runs.len(),
{
    if runs.len() == 0 {
        0
    } else {
        runs[0] + total(runs.drop_first())
    }
}

/// The lines a folded log keeps of runs of these lengths: each run keeps
/// at most two lines (its first, and its second or a note).
pub open spec fn kept_lines(runs: Seq<nat>) -> nat
    decreases runs.len(),
{
    if runs.len() == 0 {
        0
    } else {
        (if runs[0] >= 2 { 2nat } else { runs[0] }) + kept_lines(runs.drop_first())
    }
}

/// The runs of a log partition its lines (each run is non-empty and the
/// lengths add up to the number of lines), and the folded log has
/// `min(run, 2)` lines for each run.
pub proof fn lemma_folded_line_count(ls: Seq<Seq<char>>)
    ensures
        forall|j: int| 0 <= j < run_lengths(ls).len() ==> #[trigger] run_lengths(ls)[j] >= 1,
        total(run_lengths(ls)) == ls.len(),
        collapsed_lines(ls).len() == kept_lines(run_lengths(ls)),
    decreases ls.len(),
{
    if ls.len() > 0 {
        let k = repeat_run(ls, fingerprint(ls[0]));
        lemma_repeat_run_bound(ls, fingerprint(ls[0]));
        assert(k >= 1);
        let rest = ls.skip(k as int);
        lemma_folded_line_count(rest);
        let r = run_lengths(ls);
        assert(r == seq![k] + run_lengths(rest));
        assert(r.drop_first() =~= run_lengths(rest));
        assert forall|j: int| 0 <= j < r.len() implies #[trigger] r[j] >= 1 by {
            if j > 0 {
                assert(r[j] == run_lengths(rest)[j - 1]);
            }
        }
    }
}

/// The log is folded run by run: a maximal run `run` of lines sharing one
/// fingerprint, followed by lines `rest` that do not continue it, becomes
/// its first line, then either its second line (a run of two) or a note
/// counting the other lines (a run of three or more), followed by the
/// folding of `rest`; it adds one line, two, or two, for runs of one, two,
/// or more.
pub proof fn lemma_run_collapses(run: Seq<Seq<char>>, rest: Seq<Seq<char>>)
    requires
        run.len() >= 1,
        forall|m: int| 0 <= m < run.len() ==> fingerprint(#[trigger] run[m]) == fingerprint(run[0]),
        rest.len() > 0 ==> fingerprint(rest[0]) != fingerprint(run[0]),
    ensures
        collapsed_lines(run + rest) == (if run.len() >= 3 {
            seq![run[0], repeat_note((run.len() - 1) as nat)]
        } else if run.len() == 2 {
            run
        } else {
            seq![run[0]]
        }) + collapsed_lines(rest),
        collapsed_lines(run + rest).len() == (if run.len() >= 2 { 2nat } else { 1nat }) + collapsed_lines(rest).len(),
{
    let ls = run + rest;
    let key = fingerprint(run[0]);
    assert forall|m: int| 0 <= m < run.len() implies fingerprint(#[trigger] ls[m]) == key by {
        assert(ls[m] == run[m]);
    }
    if rest.len() > 0 {
        assert(ls[run.len() as int] == rest[0]);
    }
    lemma_repeat_run(ls, key, run.len() as int);
    assert(ls[0] == run[0]);
    assert(ls.skip(run.len() as int) =~= rest);
    if run.len() == 2 {
        assert(ls[1] == run[1]);
        assert(seq![ls[0], ls[1]] =~= run);
    }
}

/// Folding never lengthens a log: the folded log has at most as many lines.
pub proof fn lemma_collapse_never_grows(ls: Seq<Seq<char>>)
    ensures
        collapsed_lines(ls).len() <= ls.len(),
    decreases ls.len(),
{
    if ls.len() > 0 {
        let k = repeat_run(ls, fingerprint(ls[0]));
        lemma_repeat_run_bound(ls, fingerprint(ls[0]));
        assert(k >= 1);
        lemma_collapse_never_grows(ls.skip(k as int));
    }
}


// ---------------------------------------------------------------------------
// The excerpt of the log shown in the diagnostics screen
// ---------------------------------------------------------------------------

/// The number of last lines of the log that the excerpt looks at.
pub const SCAN_WINDOW: usize = 200;
/// The number of last lines shown where the log has no warning.
pub const TAIL_LINES: usize = 80;
/// The number of lines kept on each side of a warning.
pub const ALERT_CONTEXT: usize = 10;

/// A log line that reports an error or a warning.
pub open spec fn is_alert(l: Seq<char>) -> bool {
    crate::text::find(l, " ERROR "@) is Some || crate::text::find(l, " WARN "@) is Some
}

/// The last lines of the log that the excerpt looks at.
pub open spec fn log_window(ls: Seq<Seq<char>>) -> Seq<Seq<char>> {
    ls.skip(ls.len() - (if ls.len() < 200 { ls.len() as int } else { 200int }))
}

/// The window has a line that reports an error or a warning.
pub open spec fn has_alert(w: Seq<Seq<char>>) -> bool {
    exists|a: int| 0 <= a < w.len() && #[trigger] is_alert(w[a])
}

/// Line `k` of the window is shown: it lies within ten lines of a warning.
pub open spec fn kept(w: Seq<Seq<char>>, k: int) -> bool {
    exists|a: int| 0 <= a < w.len() && k - 10 <= a <= k + 10 && #[trigger] is_alert(w[a])
}

/// The last shown line before line `m` of the window.
pub open spec fn last_kept_before(w: Seq<Seq<char>>, m: int) -> Option<int>
    decreases m,
{
    if m <= 0 {
        None
    } else if kept(w, m - 1) {
        Some(m - 1)
    } else {
        last_kept_before(w, m - 1)
    }
}

proof fn lemma_last_kept_before(w: Seq<Seq<char>>, m: int)
    ensures
        last_kept_before(w, m) matches Some(p) ==> 0 <= p < m,
    decreases m,
{
    if m > 0 {
        lemma_last_kept_before(w, m - 1);
    }
}

/// The shown lines among the first `m` of the window, each ended by `\n`,
/// with `... (gap)` where lines between two shown ones were left out.
pub open spec fn excerpt_body(w: Seq<Seq<char>>, m: int) -> Seq<char>
    decreases m,
{
    if m <= 0 {
        seq![]
    } else if kept(w, m - 1) {
        let gap = match last_kept_before(w, m - 1) {
            Some(p) => if m - 1 > p + 1 {
                "... (gap)\n"@
            } else {
                seq![]
            },
            None => seq![],
        };
        excerpt_body(w, m - 1) + gap + w[m - 1] + "\n"@
    } else {
        excerpt_body(w, m - 1)
    }
}

/// The excerpt before its repeated lines are folded: where the window has a
/// warning, the lines around each warning (see [`excerpt_body`]) without the
/// trailing whitespace; else the window's last eighty lines.
pub open spec fn raw_excerpt(ls: Seq<Seq<char>>) -> Seq<char> {
    let w = log_window(ls);
    if has_alert(w) {
        crate::text::trim_end(excerpt_body(w, w.len() as int))
    } else {
        join_with(w.skip(w.len() - (if w.len() < 80 { w.len() as int } else { 80int })), "\n"@)
    }
}

/// The text shown for an empty log.
pub open spec fn empty_log_note() -> Seq<char> {
    "(log file is empty or not yet created)"@
}

/// The excerpt of the log text `raw` and whether it holds warnings: for an
/// empty log a note; else the excerpt (see [`raw_excerpt`]) with its repeated
/// lines folded (see [`collapsed_text`]).
pub open spec fn spec_log_excerpt(raw: Seq<char>) -> (Seq<char>, bool) {
    if raw.len() == 0 {
        (empty_log_note(), false)
    } else {
        let ls = text_lines(raw);
        (collapsed_text(raw_excerpt(ls)), has_alert(log_window(ls)))
    }
}

/// Whether a log line reports an error or a warning.
pub fn is_alert_line(l: &str) -> (r: bool)
    ensures
        r == is_alert(l@),
{
    let cs = chars_of(l);
    let e = chars_of(" ERROR ");
    let w = chars_of(" WARN ");
    assert(cs@.subrange(0, cs.len() as int) =~= l@);
    crate::text::find_in(&cs, 0, cs.len(), &e).is_some() || crate::text::find_in(&cs, 0, cs.len(), &w).is_some()
}

/// The excerpt of a log and whether it holds warnings (see
/// [`spec_log_excerpt`]).
pub fn excerpt_of_log(raw: &str) -> (r: (String, bool))
    ensures
        (r.0@, r.1) == spec_log_excerpt(raw@),
{
    if raw.is_empty() {
        return ("(log file is empty or not yet created)".to_string(), false);
    }
    let lines = lines_of(raw);
    let ghost ls = text_lines(raw@);
    let n = lines.len();
    let wlen: usize = if n < 200 { n } else { 200 };
    let start = n - wlen;
    let ghost w = ls.skip(start as int);
    assert(w == log_window(ls));
    let mut alerts: Vec<bool> = Vec::new();
    let mut k: usize = 0;
    while k < wlen
        invariant
            k <= wlen,
            start + wlen == n == lines.len(),
            ls == strs_view(lines@),
            w == ls.skip(start as int),
            alerts.len() == k,
            forall|j: int| 0 <= j < k ==> alerts@[j] == is_alert(#[trigger] w[j]),
        decreases wlen - k,
    {
        assert(w[k as int] == lines@[start + k]@);
        alerts.push(is_alert_line(lines[start + k].as_str()));
        k += 1;
    }
    let mut any = false;
    let mut j: usize = 0;
    while j < wlen
        invariant
            j <= wlen == alerts.len(),
            w.len() == wlen,
            forall|i: int| 0 <= i < wlen ==> alerts@[i] == is_alert(#[trigger] w[i]),
            any <==> exists|a: int| 0 <= a < j && #[trigger] is_alert(w[a]),
        decreases wlen - j,
    {
        assert(alerts@[j as int] == is_alert(w[j as int]));
        if alerts[j] {
            any = true;
        }
        j += 1;
    }
    let excerpt_raw = if !any {
        let tail: usize = if wlen < 80 { wlen } else { 80 };
        let mut picked: Vec<String> = Vec::new();
        let mut t: usize = wlen - tail;
        while t < wlen
            invariant
                wlen - tail <= t <= wlen,
                tail <= wlen,
                w.len() == wlen,
                start + wlen == n == lines.len(),
                ls == strs_view(lines@),
                w == ls.skip(start as int),
                strs_view(picked@) == w.subrange(wlen - tail, t as int),
            decreases wlen - t,
        {
            let ghost before = picked@;
            picked.push(lines[start + t].clone());
            assert(strs_view(picked@) =~= strs_view(before).push(w[t as int]));
            assert(w.subrange(wlen - tail, t + 1) =~= w.subrange(wlen - tail, t as int).push(w[t as int]));
            t += 1;
        }
        assert(w.subrange(wlen - tail, wlen as int) =~= w.skip(w.len() - tail));
        join_lines(&picked, "\n")
    } else {
        let mut out = String::new();
        let mut last: Option<usize> = None;
        let mut m: usize = 0;
        while m < wlen
            invariant
                m <= wlen == alerts.len(),
                wlen <= 200,
                w.len() == wlen,
                start + wlen == n == lines.len(),
                ls == strs_view(lines@),
                w == ls.skip(start as int),
                forall|i: int| 0 <= i < wlen ==> alerts@[i] == is_alert(#[trigger] w[i]),
                out@ == excerpt_body(w, m as int),
                last == match last_kept_before(w, m as int) {
                    Some(p) => Some(p as usize),
                    None => None::<usize>,
                },
                last matches Some(p) ==> p < m,
            decreases wlen - m,
        {
            let lo: usize = if m >= 10 { m - 10 } else { 0 };
            let hi: usize = if m + 11 <= wlen { m + 11 } else { wlen };
            let mut a = lo;
            let mut found = false;
            while a < hi
                invariant
                    lo <= a <= hi <= wlen == alerts.len(),
                    w.len() == wlen,
                    lo == (if m >= 10 { m - 10 } else { 0int }),
                    hi == (if m + 11 <= wlen { m + 11 } else { wlen as int }),
                    forall|i: int| 0 <= i < wlen ==> alerts@[i] == is_alert(#[trigger] w[i]),
                    found <==> exists|b: int| lo <= b < a && #[trigger] is_alert(w[b]),
                decreases hi - a,
            {
                assert(alerts@[a as int] == is_alert(w[a as int]));
                if alerts[a] {
                    found = true;
                }
                a += 1;
            }
            assert(found == kept(w, m as int));
            proof {
                lemma_last_kept_before(w, m as int);
            }
            let ghost body_before = out@;
            if found {
                if let Some(p) = last {
                    if m > p + 1 {
                        push_str(&mut out, "... (gap)\n");
                    }
                }
                let ghost before = out@;
                push_str(&mut out, lines[start + m].as_str());
                crate::text::push_char(&mut out, '\n');
                proof {
                    reveal_strlit("\n");
                    assert(w[m as int] == lines@[start + m]@);
                    let gap = match last_kept_before(w, m as int) {
                        Some(p) => if m > p + 1 {
                            "... (gap)\n"@
                        } else {
                            seq![]
                        },
                        None => seq![],
                    };
                    assert(before == body_before + gap);
                    assert(out@ =~= body_before + gap + w[m as int] + "\n"@);
                }
                last = Some(m);
            } else {
                assert(excerpt_body(w, m + 1) == excerpt_body(w, m as int));
            }
            m += 1;
        }
        let oc = chars_of(out.as_str());
        let tw = crate::text::trailing_ws(&oc, 0, oc.len());
        assert(oc@.subrange(0, oc.len() as int) =~= out@);
        let trimmed = string_of_range(&oc, 0, oc.len() - tw);
        assert(trimmed@ =~= crate::text::trim_end(out@));
        trimmed
    };
    let collapsed = collapse_consecutive_repeats(excerpt_raw.as_str());
    (collapsed, any)
}


// ---------------------------------------------------------------------------
// Exporting the logs
// ---------------------------------------------------------------------------

/// The extension of a file name (`Path::extension`): the part after its last
/// `.`, unless it has no `.` or its only `.` is its first character.
pub open spec fn file_extension(name: Seq<char>) -> Option<Seq<char>> {
    match crate::text::rfind_char(name, '.') {
        Some(i) => if i == 0 || name == ".."@ {
            None
        } else {
            Some(name.skip(i + 1))
        },
        None => None,
    }
}

/// A log file that goes into the archive: a `.log` file other than the crash
/// report `last_panic.log`.
pub open spec fn is_exported_log(name: Seq<char>) -> bool {
    file_extension(name) == Some("log"@) && name != "last_panic.log"@
}

/// Whether the file name is one of an exported log (see [`is_exported_log`]).
pub fn is_exported_log_name(name: &str) -> (r: bool)
    ensures
        r == is_exported_log(name@),
{
    let cs = chars_of(name);
    assert(cs@.subrange(0, cs.len() as int) =~= name@);
    let ext = match crate::text::rfind_char_in(&cs, 0, cs.len(), '.') {
        Some(i) => {
            proof {
                crate::text::lemma_rfind_char_bound(name@, '.');
            }
            if i == 0 || str_eq(name, "..") {
                None
            } else {
                let e = string_of_range(&cs, i + 1, cs.len());
                assert(e@ =~= name@.skip(i + 1));
                Some(e)
            }
        },
        None => None,
    };
    match ext {
        Some(e) => str_eq(e.as_str(), "log") && !str_eq(name, "last_panic.log"),
        None => false,
    }
}

/// `sel` holds the newest files among `files` (pairs of a name and a
/// modification time), at most `k` of them, newest first; of files with the
/// same time the earlier listed goes first and is taken first.
pub open spec fn newest_first(files: Seq<(String, u64)>, k: nat, sel: Seq<int>) -> bool {
    &&& sel.len() == (if files.len() < k { files.len() } else { k })
    &&& forall|p: int| 0 <= p < sel.len() ==> 0 <= #[trigger] sel[p] < files.len()
    &&& forall|p: int, q: int| 0 <= p < q < sel.len() ==> #[trigger] sel[p] != #[trigger] sel[q]
    &&& forall|p: int, q: int| 0 <= p < q < sel.len() ==> files[#[trigger] sel[p]].1 > files[#[trigger] sel[q]].1
        || (files[sel[p]].1 == files[sel[q]].1 && sel[p] < sel[q])
    &&& forall|p: int, j: int| 0 <= p < sel.len() && 0 <= j < files.len() && !sel.contains(j) ==> files[#[trigger] sel[p]].1
        > #[trigger] files[j].1 || (files[sel[p]].1 == files[j].1 && sel[p] < j)
}

/// The newest `k` files, newest first (see [`newest_first`]).
pub fn newest_files(files: &Vec<(String, u64)>, k: usize) -> (r: Vec<usize>)
    ensures
        exists|sel: Seq<int>| #[trigger] newest_first(files@, k as nat, sel) && r@.len() == sel.len()
            && forall|p: int| 0 <= p < sel.len() ==> r@[p] == sel[p],
{
    let n = files.len();
    let want: usize = if n < k { n } else { k };
    let mut taken: Vec<bool> = Vec::new();
    let mut t: usize = 0;
    while t < n
        invariant
            t <= n,
            taken.len() == t,
            forall|j: int| 0 <= j < t ==> !taken@[j],
        decreases n - t,
    {
        taken.push(false);
        t += 1;
    }
    let mut out: Vec<usize> = Vec::new();
    let ghost mut sel: Seq<int> = seq![];
    while out.len() < want
        invariant
            want == (if n < k { n } else { k }),
            n == files.len(),
            taken.len() == n,
            out.len() <= want,
            sel.len() == out.len(),
            forall|p: int| 0 <= p < sel.len() ==> out@[p] == sel[p] && 0 <= #[trigger] sel[p] < n,
            forall|j: int| 0 <= j < n ==> (taken@[j] <==> sel.contains(j)),
            forall|p: int, q: int| 0 <= p < q < sel.len() ==> #[trigger] sel[p] != #[trigger] sel[q],
            forall|p: int, q: int| 0 <= p < q < sel.len() ==> files@[#[trigger] sel[p]].1 > files@[#[trigger] sel[q]].1
                || (files@[sel[p]].1 == files@[sel[q]].1 && sel[p] < sel[q]),
            forall|p: int, j: int| 0 <= p < sel.len() && 0 <= j < n && !sel.contains(j) ==> files@[#[trigger] sel[p]].1
                > #[trigger] files@[j].1 || (files@[sel[p]].1 == files@[j].1 && sel[p] < j),
        decreases want - out.len(),
    {
        // The earliest of the newest files not taken yet.
        let mut best: usize = n;
        let mut i: usize = 0;
        while i < n
            invariant
                i <= n == files.len() == taken.len(),
                best == n || (best < i && !taken@[best as int]),
                best < n ==> forall|j: int| 0 <= j < i && !taken@[j] ==> files@[best as int].1 > files@[j].1
                    || (files@[best as int].1 == files@[j].1 && best <= j),
                best == n ==> forall|j: int| 0 <= j < i ==> taken@[j],
            decreases n - i,
        {
            if !taken[i] && (best == n || files[i].1 > files[best].1) {
                best = i;
            }
            i += 1;
        }
        proof {
            if best == n {
                // Every file is taken: then `sel` holds all `n`, but it holds fewer than `want <= n`.
                assert forall|j: int| 0 <= j < n implies sel.contains(j) by {
                    assert(taken@[j]);
                }
                assert(sel.len() < n);
                crate::text::lemma_pigeonhole(Seq::new(n as nat, |j: int| j), sel);
                assert(false);
            }
        }
        let ghost old_sel = sel;
        taken.set(best, true);
        out.push(best);
        proof {
            sel = old_sel.push(best as int);
            assert forall|j: int| 0 <= j < n implies (taken@[j] <==> sel.contains(j)) by {
                if j == best {
                    assert(sel[sel.len() - 1] == j);
                } else {
                    if sel.contains(j) {
                        let p = choose|p: int| 0 <= p < sel.len() && sel[p] == j;
                        assert(p < old_sel.len());
                        assert(old_sel.contains(j));
                    }
                    if old_sel.contains(j) {
                        let p = choose|p: int| 0 <= p < old_sel.len() && old_sel[p] == j;
                        assert(sel[p] == j);
                    }
                }
            }
            assert forall|p: int, q: int| 0 <= p < q < sel.len() implies #[trigger] sel[p] != #[trigger] sel[q] by {
                if q == sel.len() - 1 {
                    assert(!old_sel.contains(best as int));
                    assert(old_sel[p] == sel[p]);
                }
            }
            assert forall|p: int, q: int| 0 <= p < q < sel.len() implies files@[#[trigger] sel[p]].1 > files@[#[trigger] sel[q]].1
                || (files@[sel[p]].1 == files@[sel[q]].1 && sel[p] < sel[q]) by {
                if q == sel.len() - 1 {
                    assert(!old_sel.contains(best as int));
                    assert(old_sel[p] == sel[p]);
                }
            }
            assert forall|p: int, j: int| 0 <= p < sel.len() && 0 <= j < n && !sel.contains(j) implies files@[#[trigger] sel[p]].1
                > #[trigger] files@[j].1 || (files@[sel[p]].1 == files@[j].1 && sel[p] < j) by {
                assert(!taken@[j]);
                if j != best {
                    assert(!old_sel.contains(j)) by {
                        if old_sel.contains(j) {
                            let p2 = choose|p2: int| 0 <= p2 < old_sel.len() && old_sel[p2] == j;
                            assert(sel[p2] == j);
                        }
                    }
                }
                if p < old_sel.len() {
                    assert(old_sel[p] == sel[p]);
                }
            }
        }
    }
    proof {
        assert(newest_first(files@, k as nat, sel));
    }
    out
}


/// The `diagnostics.md` file of the archive.
pub open spec fn spec_diagnostics(
    exported_at: Seq<char>,
    app_version: Seq<char>,
    os: Seq<char>,
    os_version: Seq<char>,
    arch: Seq<char>,
    central_repo: Seq<char>,
    overridden: bool,
    file_count: nat,
    audit_count: nat,
) -> Seq<char> {
    "# Diagnostics\n\nExported: "@ + exported_at + "\n\n- App version: `"@ + app_version + "`\n- OS: `"@ + os + " "@
        + os_version + " ("@ + arch + ")`\n- Central repo: `"@ + central_repo + "`"@ + (if overridden {
        " (custom path)"@
    } else {
        seq![]
    }) + "\n- Log files included: "@ + decimal(file_count) + "\n- Audit entries included: "@ + decimal(audit_count)
        + "\n"@
}

/// The `diagnostics.md` file of the archive (see [`spec_diagnostics`]): when
/// it was exported, the versions of the application and the system, the
/// central repository (the caller hides the home directory in its path with
/// [`sanitize_home`]), and how many log files and audit entries the archive
/// holds.
pub fn diagnostics_markdown(
    exported_at: &str,
    app_version: &str,
    os: &str,
    os_version: &str,
    arch: &str,
    central_repo: &str,
    overridden: bool,
    file_count: usize,
    audit_count: usize,
) -> (r: String)
    ensures
        r@ == spec_diagnostics(exported_at@, app_version@, os@, os_version@, arch@, central_repo@, overridden,
            file_count as nat, audit_count as nat),
{
    let mut out = String::new();
    push_str(&mut out, "# Diagnostics\n\nExported: ");
    push_str(&mut out, exported_at);
    push_str(&mut out, "\n\n- App version: `");
    push_str(&mut out, app_version);
    push_str(&mut out, "`\n- OS: `");
    push_str(&mut out, os);
    push_str(&mut out, " ");
    push_str(&mut out, os_version);
    push_str(&mut out, " (");
    push_str(&mut out, arch);
    push_str(&mut out, ")`\n- Central repo: `");
    push_str(&mut out, central_repo);
    push_str(&mut out, "`");
    if overridden {
        push_str(&mut out, " (custom path)");
    }
    push_str(&mut out, "\n- Log files included: ");
    let f = to_decimal(file_count as u128);
    push_str(&mut out, f.as_str());
    push_str(&mut out, "\n- Audit entries included: ");
    let a = to_decimal(audit_count as u128);
    push_str(&mut out, a.as_str());
    push_str(&mut out, "\n");
    assert(out@ =~= spec_diagnostics(exported_at@, app_version@, os@, os_version@, arch@, central_repo@, overridden,
        file_count as nat, audit_count as nat));
    out
}


/// The part of the log at `log_path` that the diagnostics screen shows:
/// the excerpt of its text `raw` (see [`spec_log_excerpt`]), how many
/// lines the excerpt has (none for an empty log), and whether the log warns.
pub fn log_excerpt(log_path: &str, raw: &str) -> (r: crate::settings::LogExcerpt)
    ensures
        r.log_path@ == log_path@,
        (r.excerpt@, r.has_warnings) == spec_log_excerpt(raw@),
        r.line_count == (if raw@.len() == 0 {
            0
        } else {
            text_lines(r.excerpt@).len()
        }),
{
    let (excerpt, has_warnings) = excerpt_of_log(raw);
    let line_count = if raw.is_empty() {
        0
    } else {
        crate::text::lines_of(excerpt.as_str()).len()
    };
    crate::settings::LogExcerpt { log_path: log_path.to_string(), excerpt, line_count, has_warnings }
}

// ---------------------------------------------------------------------------
// Hiding the user's home directory
// ---------------------------------------------------------------------------

/// `s` with every occurrence of `home`, from left to right and without
/// overlaps, replaced by `~`; `s` itself where `home` is empty.
pub open spec fn mask_home(s: Seq<char>, home: Seq<char>) -> Seq<char>
    decreases s.len(),
{
    if home.len() == 0 || s.len() == 0 {
        s
    } else if crate::text::starts_with(s, home) {
        seq!['~'] + mask_home(s.skip(home.len() as int), home)
    } else {
        seq![s[0]] + mask_home(s.drop_first(), home)
    }
}

/// Hides the user's home directory `home` in text bound for a diagnostics
/// archive or screen (see [`mask_home`]), so that paths and logs do not
/// reveal the user's account name.
pub fn sanitize_home(text: &str, home: &str) -> (r: String)
    ensures
        r@ == mask_home(text@, home@),
{
    let cs = chars_of(text);
    let hs = chars_of(home);
    if hs.len() == 0 {
        return text.to_string();
    }
    let n = cs.len();
    let mut out: Vec<char> = Vec::new();
    let mut i: usize = 0;
    assert(cs@.skip(0) =~= cs@);
    while i < n
        invariant
            n == cs.len(),
            cs@ == text@,
            hs@ == home@,
            hs.len() > 0,
            i <= n,
            mask_home(text@, home@) == out@ + mask_home(cs@.skip(i as int), home@),
        decreases n - i,
    {
        let ghost rest = cs@.skip(i as int);
        assert(cs@.subrange(i as int, n as int) =~= rest);
        if crate::text::starts_with_at(&cs, i, n, &hs) {
            out.push('~');
            assert(rest.skip(hs.len() as int) =~= cs@.skip(i + hs.len()));
            i = i + hs.len();
        } else {
            out.push(cs[i]);
            assert(rest.drop_first() =~= cs@.skip(i + 1));
            i += 1;
        }
    }
    assert(cs@.skip(n as int) =~= Seq::<char>::empty());
    assert(out@ + seq![] =~= out@);
    crate::text::string_of(&out)
}

} // verus!

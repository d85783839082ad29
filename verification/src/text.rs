//! Character-level helpers shared by the string-handling modules.
//!
//! Strings are handled as sequences of Unicode scalar values (`Seq<char>`),
//! which is exactly the view Verus gives to `str` and `String`.
use vstd::prelude::*;

verus! {

// ---------------------------------------------------------------------------
// Specifications
// ---------------------------------------------------------------------------

/// The Unicode `White_Space` property, as `char::is_whitespace` implements it.
pub open spec fn is_ws(c: char) -> bool {
    let u = c as u32;
    ||| u == 0x20
    ||| (0x09 <= u && u <= 0x0d)
    ||| u == 0x85
    ||| u == 0xa0
    ||| u == 0x1680
    ||| (0x2000 <= u && u <= 0x200a)
    ||| u == 0x2028
    ||| u == 0x2029
    ||| u == 0x202f
    ||| u == 0x205f
    ||| u == 0x3000
}

/// `char::is_ascii_digit`.
pub open spec fn is_digit(c: char) -> bool {
    '0' <= c && c <= '9'
}

/// Length of the longest prefix of `s` whose characters all satisfy `p`.
pub open spec fn run(s: Seq<char>, p: spec_fn(char) -> bool) -> nat
    decreases s.len(),
{
    if s.len() > 0 && p(s[0]) {
        1 + run(s.drop_first(), p)
    } else {
        0
    }
}

/// Length of the longest suffix of `s` whose characters all satisfy `p`.
pub open spec fn rrun(s: Seq<char>, p: spec_fn(char) -> bool) -> nat
    decreases s.len(),
{
    if s.len() > 0 && p(s.last()) {
        1 + rrun(s.drop_last(), p)
    } else {
        0
    }
}

pub open spec fn ws_pred() -> spec_fn(char) -> bool {
    |c: char| is_ws(c)
}

pub open spec fn eq_pred(x: char) -> spec_fn(char) -> bool {
    |c: char| c == x
}

pub open spec fn digit_pred() -> spec_fn(char) -> bool {
    |c: char| is_digit(c)
}

/// `str::trim_start`.
pub open spec fn trim_start(s: Seq<char>) -> Seq<char> {
    s.skip(run(s, ws_pred()) as int)
}

/// `str::trim_end`.
pub open spec fn trim_end(s: Seq<char>) -> Seq<char> {
    s.take(s.len() - rrun(s, ws_pred()))
}

/// `str::trim`.
pub open spec fn trim(s: Seq<char>) -> Seq<char> {
    trim_end(trim_start(s))
}

/// `s` begins with `pat`.
pub open spec fn starts_with(s: Seq<char>, pat: Seq<char>) -> bool {
    pat.len() <= s.len() && s.take(pat.len() as int) == pat
}

/// `s` ends with `pat`.
pub open spec fn ends_with(s: Seq<char>, pat: Seq<char>) -> bool {
    pat.len() <= s.len() && s.skip(s.len() - pat.len()) == pat
}

/// `pat` occurs in `s` at position `i`.
pub open spec fn occurs_at(s: Seq<char>, pat: Seq<char>, i: int) -> bool {
    0 <= i && i + pat.len() <= s.len() && s.subrange(i, i + pat.len()) == pat
}

/// The first position at or after `from` where `pat` occurs (`str::find`).
pub open spec fn find_from(s: Seq<char>, pat: Seq<char>, from: int) -> Option<int>
    decreases s.len() + 1 - from,
{
    if from < 0 || from + pat.len() > s.len() {
        None
    } else if occurs_at(s, pat, from) {
        Some(from)
    } else {
        find_from(s, pat, from + 1)
    }
}

/// The first position of `pat` in `s`.
pub open spec fn find(s: Seq<char>, pat: Seq<char>) -> Option<int> {
    find_from(s, pat, 0)
}

/// The last position of the character `c` in `s` (`str::rfind`).
pub open spec fn rfind_char(s: Seq<char>, c: char) -> Option<int>
    decreases s.len(),
{
    if s.len() == 0 {
        None
    } else if s.last() == c {
        Some(s.len() - 1)
    } else {
        rfind_char(s.drop_last(), c)
    }
}

/// `s` holds the character `c`.
pub open spec fn has_char(s: Seq<char>, c: char) -> bool {
    exists|i: int| 0 <= i < s.len() && s[i] == c
}

/// Decimal rendering of a natural number (`usize::to_string`).
pub open spec fn decimal(n: nat) -> Seq<char>
    decreases n,
{
    if n < 10 {
        seq![digit_char(n)]
    } else {
        decimal(n / 10).push(digit_char(n % 10))
    }
}

pub open spec fn digit_char(d: nat) -> char {
    if d == 0 { '0' }
    else if d == 1 { '1' }
    else if d == 2 { '2' }
    else if d == 3 { '3' }
    else if d == 4 { '4' }
    else if d == 5 { '5' }
    else if d == 6 { '6' }
    else if d == 7 { '7' }
    else if d == 8 { '8' }
    else { '9' }
}

// ---------------------------------------------------------------------------
// Lemmas
// ---------------------------------------------------------------------------

/// `run` is the first index at which `p` fails.
pub proof fn lemma_run_is_first_failure(s: Seq<char>, p: spec_fn(char) -> bool, k: int)
    requires
        0 <= k <= s.len(),
        forall|j: int| 0 <= j < k ==> p(#[trigger] s[j]),
        k < s.len() ==> !p(s[k]),
    ensures
        run(s, p) == k,
    decreases k,
{
    if k > 0 {
        let t = s.drop_first();
        assert forall|j: int| 0 <= j < k - 1 implies p(#[trigger] t[j]) by {
            assert(t[j] == s[j + 1]);
        }
        if k - 1 < t.len() {
            assert(t[k - 1] == s[k]);
        }
        lemma_run_is_first_failure(t, p, k - 1);
    }
}

/// `rrun` counts the trailing characters that satisfy `p`.
pub proof fn lemma_rrun_is_last_failure(s: Seq<char>, p: spec_fn(char) -> bool, k: int)
    requires
        0 <= k <= s.len(),
        forall|j: int| s.len() - k <= j < s.len() ==> p(#[trigger] s[j]),
        k < s.len() ==> !p(s[s.len() - k - 1]),
    ensures
        rrun(s, p) == k,
    decreases k,
{
    if k > 0 {
        let t = s.drop_last();
        assert forall|j: int| t.len() - (k - 1) <= j < t.len() implies p(#[trigger] t[j]) by {
            assert(t[j] == s[j]);
        }
        if k - 1 < t.len() {
            assert(t[t.len() - (k - 1) - 1] == s[s.len() - k - 1]);
        }
        assert(p(s.last()));
        lemma_rrun_is_last_failure(t, p, k - 1);
    }
}

pub proof fn lemma_run_bound(s: Seq<char>, p: spec_fn(char) -> bool)
    ensures
        run(s, p) <= s.len(),
        forall|j: int| 0 <= j < run(s, p) ==> p(#[trigger] s[j]),
        run(s, p) < s.len() ==> !p(s[run(s, p) as int]),
    decreases s.len(),
{
    if s.len() > 0 && p(s[0]) {
        let t = s.drop_first();
        lemma_run_bound(t, p);
        assert forall|j: int| 0 <= j < run(s, p) implies p(#[trigger] s[j]) by {
            if j > 0 {
                assert(s[j] == t[j - 1]);
            }
        }
        if run(s, p) < s.len() {
            assert(s[run(s, p) as int] == t[run(t, p) as int]);
        }
    }
}

pub proof fn lemma_find_from_facts(s: Seq<char>, pat: Seq<char>, from: int)
    requires
        0 <= from,
    ensures
        find_from(s, pat, from) matches Some(i) ==> from <= i && occurs_at(s, pat, i)
            && forall|j: int| from <= j < i ==> !occurs_at(s, pat, j),
        find_from(s, pat, from) is None ==> forall|j: int|
            from <= j ==> !occurs_at(s, pat, j),
    decreases s.len() + 1 - from,
{
    if from + pat.len() > s.len() {
    } else if occurs_at(s, pat, from) {
    } else {
        lemma_find_from_facts(s, pat, from + 1);
    }
}


pub proof fn lemma_rfind_char_bound(s: Seq<char>, c: char)
    ensures
        rfind_char(s, c) matches Some(i) ==> 0 <= i < s.len() && s[i] == c,
    decreases s.len(),
{
    if s.len() > 0 && s.last() != c {
        lemma_rfind_char_bound(s.drop_last(), c);
    }
}


pub proof fn lemma_digit_char_injective(a: nat, b: nat)
    requires
        a < 10,
        b < 10,
        digit_char(a) == digit_char(b),
    ensures
        a == b,
{
}

pub proof fn lemma_decimal_len(n: nat)
    ensures
        decimal(n).len() >= 1,
        n >= 10 ==> decimal(n).len() >= 2,
    decreases n,
{
    if n >= 10 {
        lemma_decimal_len(n / 10);
    }
}

/// Decimal renderings of different numbers differ.
pub proof fn lemma_decimal_injective(a: nat, b: nat)
    requires
        decimal(a) == decimal(b),
    ensures
        a == b,
    decreases a,
{
    lemma_decimal_len(a);
    lemma_decimal_len(b);
    if a < 10 && b < 10 {
        assert(decimal(a) == seq![digit_char(a)]);
        assert(decimal(b) == seq![digit_char(b)]);
        assert(seq![digit_char(a)][0] == digit_char(a));
        assert(seq![digit_char(b)][0] == digit_char(b));
        assert(decimal(a)[0] == decimal(b)[0]);
        lemma_digit_char_injective(a, b);
    } else if a >= 10 && b >= 10 {
        assert(decimal(a) == decimal(a / 10).push(digit_char(a % 10)));
        assert(decimal(b) == decimal(b / 10).push(digit_char(b % 10)));
        assert(decimal(a / 10).push(digit_char(a % 10)).last() == digit_char(a % 10));
        assert(decimal(b / 10).push(digit_char(b % 10)).last() == digit_char(b % 10));
        assert(decimal(a).last() == decimal(b).last());
        lemma_digit_char_injective(a % 10, b % 10);
        assert(decimal(a).drop_last() =~= decimal(a / 10));
        assert(decimal(b).drop_last() =~= decimal(b / 10));
        lemma_decimal_injective(a / 10, b / 10);
    } else {
        assert(decimal(a).len() != decimal(b).len());
    }
}

/// A sequence without repeats whose elements all occur in `pool` is no
/// longer than `pool`.
pub proof fn lemma_pigeonhole<A>(items: Seq<A>, pool: Seq<A>)
    requires
        items.no_duplicates(),
        forall|i: int| 0 <= i < items.len() ==> pool.contains(#[trigger] items[i]),
    ensures
        items.len() <= pool.len(),
{
    broadcast use vstd::seq_lib::seq_to_set_is_finite;
    items.unique_seq_to_set();
    pool.lemma_cardinality_of_set();
    assert forall|x: A| items.to_set().contains(x) implies pool.to_set().contains(x) by {
        let i = choose|i: int| 0 <= i < items.len() && items[i] == x;
        assert(pool.contains(items[i]));
    }
    vstd::set_lib::lemma_len_subset(items.to_set(), pool.to_set());
}

// ---------------------------------------------------------------------------
// Executable helpers
// ---------------------------------------------------------------------------

/// The characters of `s`, in order.
pub fn chars_of(s: &str) -> (r: Vec<char>)
    ensures
        r@ == s@,
{
    let mut out: Vec<char> = Vec::new();
    for c in it: s.chars()
        invariant
            out@ == it.seq().take(it.index() as int),
            it.seq() == s@,
    {
        out.push(c);
    }
    out
}

/// Appends one character to `s` (`String::push`).
#[verifier::external_body]
pub fn push_char(s: &mut String, c: char)
    ensures
        final(s)@ == old(s)@.push(c),
{
    s.push(c);
}

/// The string made of the characters `cs`.
pub fn string_of(cs: &[char]) -> (r: String)
    ensures
        r@ == cs@,
{
    let mut out = String::new();
    let mut i: usize = 0;
    while i < cs.len()
        invariant
            i <= cs.len(),
            out@ == cs@.take(i as int),
        decreases cs.len() - i,
    {
        push_char(&mut out, cs[i]);
        assert(cs@.take(i + 1) == cs@.take(i as int).push(cs@[i as int]));
        i += 1;
    }
    assert(cs@.take(cs.len() as int) == cs@);
    out
}

/// The string made of the characters `cs[from..to]`.
pub fn string_of_range(cs: &[char], from: usize, to: usize) -> (r: String)
    requires
        from <= to <= cs.len(),
    ensures
        r@ == cs@.subrange(from as int, to as int),
{
    let mut out = String::new();
    let mut i: usize = from;
    while i < to
        invariant
            from <= i <= to <= cs.len(),
            out@ == cs@.subrange(from as int, i as int),
        decreases to - i,
    {
        push_char(&mut out, cs[i]);
        assert(cs@.subrange(from as int, i + 1) == cs@.subrange(from as int, i as int).push(
            cs@[i as int],
        ));
        i += 1;
    }
    out
}

/// Appends the characters `cs[from..to]` to `out`.
pub fn push_range(out: &mut String, cs: &[char], from: usize, to: usize)
    requires
        from <= to <= cs.len(),
    ensures
        final(out)@ == old(out)@ + cs@.subrange(from as int, to as int),
{
    let ghost start = out@;
    let mut i: usize = from;
    while i < to
        invariant
            from <= i <= to <= cs.len(),
            out@ == start + cs@.subrange(from as int, i as int),
        decreases to - i,
    {
        push_char(out, cs[i]);
        assert(cs@.subrange(from as int, i + 1) == cs@.subrange(from as int, i as int).push(
            cs@[i as int],
        ));
        i += 1;
    }
}

/// Appends all of `s` to `out`.
pub fn push_str(out: &mut String, s: &str)
    ensures
        final(out)@ == old(out)@ + s@,
{
    let cs = chars_of(s);
    push_range(out, &cs, 0, cs.len());
    assert(cs@.subrange(0, cs@.len() as int) == cs@);
}

/// `char::is_whitespace`.
pub fn is_whitespace(c: char) -> (b: bool)
    ensures
        b == is_ws(c),
{
    let u = c as u32;
    u == 0x20 || (0x09 <= u && u <= 0x0d) || u == 0x85 || u == 0xa0 || u == 0x1680 || (0x2000
        <= u && u <= 0x200a) || u == 0x2028 || u == 0x2029 || u == 0x202f || u == 0x205f || u
        == 0x3000
}

/// Number of leading whitespace characters of `s[from..to]`.
pub fn leading_ws(s: &[char], from: usize, to: usize) -> (k: usize)
    requires
        from <= to <= s.len(),
    ensures
        k == run(s@.subrange(from as int, to as int), ws_pred()),
        from + k <= to,
{
    let ghost t = s@.subrange(from as int, to as int);
    let mut i = from;
    while i < to && is_whitespace(s[i])
        invariant
            from <= i <= to <= s.len(),
            forall|j: int| from <= j < i ==> is_ws(#[trigger] s@[j]),
        decreases to - i,
    {
        i += 1;
    }
    proof {
        assert forall|j: int| 0 <= j < i - from implies (ws_pred())(#[trigger] t[j]) by {
            assert(t[j] == s@[from + j]);
        }
        if i - from < t.len() {
            assert(t[i - from] == s@[i as int]);
        }
        lemma_run_is_first_failure(t, ws_pred(), i - from);
    }
    i - from
}

/// Number of trailing whitespace characters of `s[from..to]`.
pub fn trailing_ws(s: &[char], from: usize, to: usize) -> (k: usize)
    requires
        from <= to <= s.len(),
    ensures
        k == rrun(s@.subrange(from as int, to as int), ws_pred()),
        from + k <= to,
{
    let ghost t = s@.subrange(from as int, to as int);
    let mut i = to;
    while i > from && is_whitespace(s[i - 1])
        invariant
            from <= i <= to <= s.len(),
            forall|j: int| i <= j < to ==> is_ws(#[trigger] s@[j]),
        decreases i - from,
    {
        i -= 1;
    }
    proof {
        let k = to - i;
        assert forall|j: int| t.len() - k <= j < t.len() implies (ws_pred())(#[trigger] t[j]) by {
            assert(t[j] == s@[from + j]);
        }
        if k < t.len() {
            assert(t[t.len() - k - 1] == s@[i - 1]);
        }
        lemma_rrun_is_last_failure(t, ws_pred(), k as int);
    }
    to - i
}

/// Bounds of `trim(s[from..to])` inside `s`.
pub fn trim_bounds(s: &[char], from: usize, to: usize) -> (r: (usize, usize))
    requires
        from <= to <= s.len(),
    ensures
        from <= r.0 <= r.1 <= to,
        s@.subrange(r.0 as int, r.1 as int) == trim(s@.subrange(from as int, to as int)),
{
    let a = leading_ws(s, from, to);
    let b = trailing_ws(s, from + a, to);
    proof {
        let t = s@.subrange(from as int, to as int);
        assert(trim_start(t) == s@.subrange(from + a, to as int));
    }
    (from + a, to - b)
}

/// `s[from..to]` starts with `pat`.
pub fn starts_with_at(s: &[char], from: usize, to: usize, pat: &[char]) -> (b: bool)
    requires
        from <= to <= s.len(),
    ensures
        b == starts_with(s@.subrange(from as int, to as int), pat@),
{
    if pat.len() > to - from {
        return false;
    }
    let mut i: usize = 0;
    while i < pat.len()
        invariant
            i <= pat.len() <= to - from,
            from <= to <= s.len(),
            forall|j: int| 0 <= j < i ==> s@[from + j] == pat@[j],
        decreases pat.len() - i,
    {
        if s[from + i] != pat[i] {
            proof {
                let t = s@.subrange(from as int, to as int);
                assert(t.take(pat.len() as int)[i as int] != pat@[i as int]);
            }
            return false;
        }
        i += 1;
    }
    proof {
        let t = s@.subrange(from as int, to as int);
        assert(t.take(pat.len() as int) =~= pat@);
    }
    true
}

/// `s[from..to]` ends with `pat`.
pub fn ends_with_at(s: &[char], from: usize, to: usize, pat: &[char]) -> (b: bool)
    requires
        from <= to <= s.len(),
    ensures
        b == ends_with(s@.subrange(from as int, to as int), pat@),
{
    if pat.len() > to - from {
        return false;
    }
    let base = to - pat.len();
    let mut i: usize = 0;
    while i < pat.len()
        invariant
            i <= pat.len() <= to - from,
            base == to - pat.len(),
            from <= to <= s.len(),
            forall|j: int| 0 <= j < i ==> s@[base + j] == pat@[j],
        decreases pat.len() - i,
    {
        if s[base + i] != pat[i] {
            proof {
                let t = s@.subrange(from as int, to as int);
                assert(t.skip(t.len() - pat.len())[i as int] != pat@[i as int]);
            }
            return false;
        }
        i += 1;
    }
    proof {
        let t = s@.subrange(from as int, to as int);
        assert(t.skip(t.len() - pat.len()) =~= pat@);
    }
    true
}

/// First position at or after `from` where `pat` occurs in `s[..to]`.
pub fn find_in(s: &[char], from: usize, to: usize, pat: &[char]) -> (r: Option<usize>)
    requires
        from <= to <= s.len(),
    ensures
        r == (match find_from(s@.subrange(0, to as int), pat@, from as int) {
            Some(i) => Some(i as usize),
            None => None::<usize>,
        }),
{
    let ghost t = s@.subrange(0, to as int);
    let mut i = from;
    while i <= to && pat.len() <= to - i
        invariant
            from <= i,
            from <= to <= s.len(),
            t == s@.subrange(0, to as int),
            find_from(t, pat@, from as int) == find_from(t, pat@, i as int),
        decreases to - i + 1,
    {
        if starts_with_at(s, i, to, pat) {
            proof {
                assert(t.subrange(i as int, i + pat.len()) =~= s@.subrange(i as int, to as int).take(
                    pat.len() as int,
                ));
            }
            return Some(i);
        }
        assert(pat@.len() > 0) by {
            if pat@.len() == 0 {
                assert(s@.subrange(i as int, to as int).take(0) =~= pat@);
            }
        }
        proof {
            assert(t.subrange(i as int, i + pat.len()) =~= s@.subrange(i as int, to as int).take(
                pat.len() as int,
            ));
        }
        i += 1;
    }
    None
}

/// Last position of `c` in `s[from..to]`, relative to `from`.
pub fn rfind_char_in(s: &[char], from: usize, to: usize, c: char) -> (r: Option<usize>)
    requires
        from <= to <= s.len(),
    ensures
        r == (match rfind_char(s@.subrange(from as int, to as int), c) {
            Some(i) => Some(i as usize),
            None => None::<usize>,
        }),
{
    let ghost t = s@.subrange(from as int, to as int);
    let mut i = to;
    while i > from
        invariant
            from <= i <= to <= s.len(),
            t == s@.subrange(from as int, to as int),
            rfind_char(t, c) == rfind_char(s@.subrange(from as int, i as int), c),
        decreases i - from,
    {
        let ghost u = s@.subrange(from as int, i as int);
        if s[i - 1] == c {
            assert(u.last() == s@[i - 1]);
            return Some(i - 1 - from);
        }
        assert(u.drop_last() =~= s@.subrange(from as int, i - 1));
        i -= 1;
    }
    None
}


/// Length of the run of `c` at the start of `s[from..to]`.
pub fn run_eq(s: &[char], from: usize, to: usize, c: char) -> (k: usize)
    requires
        from <= to <= s.len(),
    ensures
        k == run(s@.subrange(from as int, to as int), eq_pred(c)),
        from + k <= to,
{
    let ghost t = s@.subrange(from as int, to as int);
    let mut i = from;
    while i < to && s[i] == c
        invariant
            from <= i <= to <= s.len(),
            forall|j: int| from <= j < i ==> #[trigger] s@[j] == c,
        decreases to - i,
    {
        i += 1;
    }
    proof {
        assert forall|j: int| 0 <= j < i - from implies (eq_pred(c))(#[trigger] t[j]) by {
            assert(t[j] == s@[from + j]);
        }
        if i - from < t.len() {
            assert(t[i - from] == s@[i as int]);
        }
        lemma_run_is_first_failure(t, eq_pred(c), i - from);
    }
    i - from
}

/// Length of the run of ASCII digits at the start of `s[from..to]`.
pub fn run_digits(s: &[char], from: usize, to: usize) -> (k: usize)
    requires
        from <= to <= s.len(),
    ensures
        k == run(s@.subrange(from as int, to as int), digit_pred()),
        from + k <= to,
{
    let ghost t = s@.subrange(from as int, to as int);
    let mut i = from;
    while i < to && '0' <= s[i] && s[i] <= '9'
        invariant
            from <= i <= to <= s.len(),
            forall|j: int| from <= j < i ==> is_digit(#[trigger] s@[j]),
        decreases to - i,
    {
        i += 1;
    }
    proof {
        assert forall|j: int| 0 <= j < i - from implies (digit_pred())(#[trigger] t[j]) by {
            assert(t[j] == s@[from + j]);
        }
        if i - from < t.len() {
            assert(t[i - from] == s@[i as int]);
        }
        lemma_run_is_first_failure(t, digit_pred(), i - from);
    }
    i - from
}


/// Equality of two string slices.
pub fn str_eq(a: &str, b: &str) -> (r: bool)
    ensures
        r == (a@ == b@),
{
    let x = chars_of(a);
    let y = chars_of(b);
    if x.len() != y.len() {
        return false;
    }
    let mut i: usize = 0;
    while i < x.len()
        invariant
            i <= x.len() == y.len(),
            x@ == a@,
            y@ == b@,
            forall|j: int| 0 <= j < i ==> x@[j] == y@[j],
        decreases x.len() - i,
    {
        if x[i] != y[i] {
            assert(a@[i as int] != b@[i as int]);
            return false;
        }
        i += 1;
    }
    assert(x@ =~= y@);
    true
}

/// A copy of `s`.
pub fn clone_string(s: &String) -> (r: String)
    ensures
        r@ == s@,
{
    s.clone()
}

/// A copy of an optional string.
pub fn clone_opt(s: &Option<String>) -> (r: Option<String>)
    ensures
        opt_view(r) == opt_view(*s),
{
    match s {
        Some(v) => Some(v.clone()),
        None => None,
    }
}

/// A copy of a list of strings.
pub fn clone_strings(v: &Vec<String>) -> (r: Vec<String>)
    ensures
        strs_view(r@) == strs_view(v@),
{
    let mut out: Vec<String> = Vec::new();
    let mut i: usize = 0;
    while i < v.len()
        invariant
            i <= v.len(),
            strs_view(out@) == strs_view(v@.take(i as int)),
        decreases v.len() - i,
    {
        out.push(v[i].clone());
        assert(strs_view(v@.take(i + 1)) =~= strs_view(v@.take(i as int)).push(v@[i as int]@));
        assert(strs_view(out@) =~= strs_view(v@.take(i as int)).push(v@[i as int]@));
        i += 1;
    }
    assert(v@.take(v.len() as int) =~= v@);
    out
}

/// The view of an optional string.
pub open spec fn opt_view(s: Option<String>) -> Option<Seq<char>> {
    match s {
        Some(v) => Some(v@),
        None => None,
    }
}

/// The views of a list of strings.
pub open spec fn strs_view(v: Seq<String>) -> Seq<Seq<char>> {
    v.map_values(|s: String| s@)
}

/// Renders `n` in decimal.
pub fn to_decimal(n: u128) -> (r: String)
    ensures
        r@ == decimal(n as nat),
    decreases n,
{
    let d = n % 10;
    let c = if d == 0 { '0' } else if d == 1 { '1' } else if d == 2 { '2' } else if d == 3 {
        '3'
    } else if d == 4 { '4' } else if d == 5 { '5' } else if d == 6 { '6' } else if d == 7 {
        '7'
    } else if d == 8 { '8' } else { '9' };
    if n < 10 {
        let mut out = String::new();
        push_char(&mut out, c);
        assert(out@ =~= seq![digit_char(n as nat)]);
        out
    } else {
        let mut out = to_decimal(n / 10);
        push_char(&mut out, c);
        out
    }
}

/// Element-wise equality of two lists of strings.
pub fn strings_equal(a: &Vec<String>, b: &Vec<String>) -> (r: bool)
    ensures
        r == (a@.map_values(|s: String| s@) == b@.map_values(|s: String| s@)),
{
    if a.len() != b.len() {
        assert(a@.map_values(|s: String| s@).len() != b@.map_values(|s: String| s@).len());
        return false;
    }
    let mut i: usize = 0;
    while i < a.len()
        invariant
            i <= a.len() == b.len(),
            forall|j: int| 0 <= j < i ==> (#[trigger] a@[j])@ == b@[j]@,
        decreases a.len() - i,
    {
        if a[i] != b[i] {
            assert(a@.map_values(|s: String| s@)[i as int] != b@.map_values(|s: String| s@)[i as int]);
            return false;
        }
        i += 1;
    }
    assert(a@.map_values(|s: String| s@) =~= b@.map_values(|s: String| s@));
    true
}


// ---------------------------------------------------------------------------
// Lines
// ---------------------------------------------------------------------------

pub open spec fn ne_pred(x: char) -> spec_fn(char) -> bool {
    |c: char| c != x
}

/// A line without the `\r` of a `\r\n` ending.
pub open spec fn strip_cr(line: Seq<char>) -> Seq<char> {
    if line.len() > 0 && line.last() == '\r' {
        line.drop_last()
    } else {
        line
    }
}

/// `str::lines`: the pieces between `\n` characters, each without the `\r`
/// of a `\r\n`; a final `\n` ends the last line rather than starting an empty
/// one, and the empty string has no lines.
pub open spec fn text_lines(s: Seq<char>) -> Seq<Seq<char>>
    decreases s.len(),
{
    if s.len() == 0 {
        seq![]
    } else {
        let k = run(s, ne_pred('\n'));
        if k < s.len() {
            seq![strip_cr(s.take(k as int))] + text_lines(s.skip(k as int + 1))
        } else {
            seq![s]
        }
    }
}

/// `ls.join(sep)`: the pieces with `sep` between each two.
pub open spec fn join_with(ls: Seq<Seq<char>>, sep: Seq<char>) -> Seq<char>
    decreases ls.len(),
{
    if ls.len() == 0 {
        seq![]
    } else if ls.len() == 1 {
        ls[0]
    } else {
        join_with(ls.drop_last(), sep) + sep + ls.last()
    }
}

/// The lines of `text` (`str::lines`).
pub fn lines_of(text: &str) -> (r: Vec<String>)
    ensures
        strs_view(r@) == text_lines(text@),
{
    let cs = chars_of(text);
    let n = cs.len();
    let mut out: Vec<String> = Vec::new();
    let mut start: usize = 0;
    assert(cs@.skip(0) =~= cs@);
    while start < n
        invariant
            start <= n == cs.len(),
            cs@ == text@,
            text_lines(text@) == strs_view(out@) + text_lines(cs@.skip(start as int)),
        decreases n - start,
    {
        let ghost rest = cs@.skip(start as int);
        let mut j = start;
        while j < n && cs[j] != '\n'
            invariant
                start <= j <= n == cs.len(),
                forall|m: int| start <= m < j ==> #[trigger] cs@[m] != '\n',
            decreases n - j,
        {
            j += 1;
        }
        proof {
            assert forall|m: int| 0 <= m < j - start implies (ne_pred('\n'))(#[trigger] rest[m]) by {
                assert(rest[m] == cs@[start + m]);
            }
            if j < n {
                assert(rest[j - start] == cs@[j as int]);
            }
            lemma_run_is_first_failure(rest, ne_pred('\n'), j - start);
        }
        let mut end = j;
        if end > start && cs[end - 1] == '\r' && j < n {
            end = end - 1;
        }
        let line = string_of_range(&cs, start, end);
        proof {
            if j < n {
                assert(rest.take(j - start) =~= cs@.subrange(start as int, j as int));
                if j > start && cs@[j - 1] == '\r' {
                    assert(strip_cr(rest.take(j - start)) =~= cs@.subrange(start as int, end as int));
                } else {
                    assert(strip_cr(rest.take(j - start)) =~= cs@.subrange(start as int, end as int));
                }
                assert(rest.skip(j - start + 1) =~= cs@.skip(j + 1));
            } else {
                assert(rest =~= cs@.subrange(start as int, end as int));
                assert(cs@.skip(n as int) =~= Seq::<char>::empty());
            }
        }
        let ghost before = out@;
        out.push(line);
        proof {
            assert(strs_view(out@) =~= strs_view(before).push(line@));
        }
        if j < n {
            start = j + 1;
        } else {
            start = n;
        }
    }
    assert(cs@.skip(n as int) =~= Seq::<char>::empty());
    assert(strs_view(out@) + seq![] =~= strs_view(out@));
    out
}

/// The lines joined with `sep` between each two (`[String]::join`).
pub fn join_lines(lines: &Vec<String>, sep: &str) -> (r: String)
    ensures
        r@ == join_with(strs_view(lines@), sep@),
{
    let mut out = String::new();
    let mut i: usize = 0;
    while i < lines.len()
        invariant
            i <= lines.len(),
            out@ == join_with(strs_view(lines@).take(i as int), sep@),
        decreases lines.len() - i,
    {
        let ghost t = strs_view(lines@).take(i + 1);
        assert(t.drop_last() =~= strs_view(lines@).take(i as int));
        if i > 0 {
            push_str(&mut out, sep);
        } else {
            assert(strs_view(lines@).take(i as int) =~= Seq::<Seq<char>>::empty());
        }
        push_str(&mut out, lines[i].as_str());
        i += 1;
    }
    assert(strs_view(lines@).take(lines.len() as int) =~= strs_view(lines@));
    out
}


/// How many items of `s` satisfy `p`.
pub open spec fn count_where<A>(s: Seq<A>, p: spec_fn(A) -> bool) -> nat
    decreases s.len(),
{
    if s.len() == 0 {
        0
    } else {
        count_where(s.drop_last(), p) + if p(s.last()) {
            1nat
        } else {
            0nat
        }
    }
}

/// The index of the first item of `s` that satisfies `p`; the length where
/// none does.
pub open spec fn first_where<A>(s: Seq<A>, p: spec_fn(A) -> bool) -> int
    decreases s.len(),
{
    if s.len() == 0 {
        0
    } else {
        let f = first_where(s.drop_last(), p);
        if f < s.len() - 1 {
            f
        } else if p(s.last()) {
            s.len() - 1
        } else {
            s.len() as int
        }
    }
}

/// The indices of the items of `s` that satisfy `p`, in increasing order.
pub open spec fn indices_where<A>(s: Seq<A>, p: spec_fn(A) -> bool) -> Seq<int>
    decreases s.len(),
{
    if s.len() == 0 {
        seq![]
    } else {
        let r = indices_where(s.drop_last(), p);
        if p(s.last()) {
            r.push(s.len() - 1)
        } else {
            r
        }
    }
}

/// The first index that satisfies `p` lies in bounds exactly when some item
/// does, and every item before it fails `p`.
pub proof fn lemma_first_where<A>(s: Seq<A>, p: spec_fn(A) -> bool)
    ensures
        0 <= first_where(s, p) <= s.len(),
        (count_where(s, p) > 0) == (first_where(s, p) < s.len()),
        first_where(s, p) < s.len() ==> p(s[first_where(s, p)]),
        forall|k: int| 0 <= k < first_where(s, p) ==> !p(#[trigger] s[k]),
        count_where(s, p) <= s.len(),
    decreases s.len(),
{
    if s.len() > 0 {
        lemma_first_where(s.drop_last(), p);
        let f = first_where(s.drop_last(), p);
        assert forall|k: int| 0 <= k < s.len() - 1 implies s.drop_last()[k] == #[trigger] s[k] by {}
    }
}


/// An index before which every item fails `p`, and which is the length or
/// an item satisfying `p`, is the first index that satisfies `p`.
pub proof fn lemma_first_where_is<A>(s: Seq<A>, p: spec_fn(A) -> bool, k: int)
    requires
        0 <= k <= s.len(),
        forall|t: int| 0 <= t < k ==> !p(#[trigger] s[t]),
        k == s.len() || p(s[k]),
    ensures
        first_where(s, p) == k,
{
    lemma_first_where(s, p);
    let f = first_where(s, p);
    if f < k {
        assert(!p(s[f]));
    } else if f > k {
        assert(!p(s[k]));
    }
}


/// `s` without leading and trailing whitespace.
pub fn trimmed_str(s: &str) -> (r: String)
    ensures
        r@ == trim(s@),
{
    let cs = chars_of(s);
    let (a, z) = trim_bounds(&cs, 0, cs.len());
    assert(cs@.subrange(0, cs.len() as int) =~= s@);
    string_of_range(&cs, a, z)
}


/// Whether `pat` occurs in `s` (`str::contains`).
pub fn contains_text(s: &str, pat: &str) -> (r: bool)
    ensures
        r == find(s@, pat@) is Some,
{
    let cs = chars_of(s);
    let ps = chars_of(pat);
    assert(cs@.subrange(0, cs.len() as int) =~= s@);
    find_in(&cs, 0, cs.len(), &ps).is_some()
}


/// Decimal rendering of an integer, with a leading `-` when negative.
pub open spec fn signed_decimal(n: int) -> Seq<char> {
    if n < 0 {
        "-"@ + decimal((-n) as nat)
    } else {
        decimal(n as nat)
    }
}

/// Renders `n` in decimal (see [`signed_decimal`]).
pub fn to_signed_decimal(n: i64) -> (r: String)
    ensures
        r@ == signed_decimal(n as int),
{
    if n < 0 {
        let m: i128 = -(n as i128);
        let digits = to_decimal(m as u128);
        let mut out = "-".to_string();
        push_str(&mut out, digits.as_str());
        out
    } else {
        to_decimal(n as u128)
    }
}

} // verus!

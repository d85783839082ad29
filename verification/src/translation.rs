//! Splitting a skill document into translation units, batching those units
//! for the translation service, and putting translated units back in place.
//!
//! Positions are character positions in the document (`Seq<char>` indices).
use crate::markdown::{has_translatable_text, markdown_block_has_translatable_text};
use crate::text::{
    lemma_rrun_is_last_failure,
    chars_of, digit_pred, push_str, ends_with, ends_with_at, eq_pred, find_from, find_in, is_whitespace,
    is_ws, leading_ws, lemma_find_from_facts, push_range, rrun, run, run_digits, run_eq,
    starts_with, starts_with_at, string_of_range, trim, trim_bounds, trim_start, ws_pred,
};
use std::ops::Range;
use vstd::prelude::*;

verus! {

/// Largest number of source characters sent in one translation request.
pub const MAX_BATCH_SOURCE_CHARS: usize = 700;

/// Largest number of translation requests sent at the same time.
pub const MAX_PARALLEL_REQUESTS: usize = 16;

// ---------------------------------------------------------------------------
// Line classification
// ---------------------------------------------------------------------------

/// An opening code fence: its marker (`` ` `` or `~`) and width (at least 3).
pub open spec fn spec_opening_fence(line: Seq<char>) -> Option<(char, nat)> {
    let t = trim_start(line);
    if t.len() == 0 {
        None
    } else {
        let m = t[0];
        if m != '`' && m != '~' {
            None
        } else if run(t, eq_pred(m)) >= 3 {
            Some((m, run(t, eq_pred(m))))
        } else {
            None
        }
    }
}

/// `line` closes a fence of the given marker and width.
pub open spec fn spec_is_fence_line(line: Seq<char>, marker: char, width: nat) -> bool {
    run(trim_start(line), eq_pred(marker)) >= width
}

/// `line` is an ATX heading: one to six `#` followed by whitespace.
pub open spec fn spec_is_heading_line(line: Seq<char>) -> bool {
    let k = run(line, eq_pred('#'));
    1 <= k <= 6 && k < line.len() && is_ws(line[k as int])
}

/// `line` starts a list item that is not indented.
pub open spec fn spec_is_top_level_list_item(line: Seq<char>) -> bool {
    if line.len() > 0 && is_ws(line[0]) {
        false
    } else if starts_with(line, "- "@) || starts_with(line, "* "@) || starts_with(line, "+ "@) {
        true
    } else {
        let d = run(line, digit_pred());
        d > 0 && (starts_with(line.skip(d as int), ". "@) || starts_with(
            line.skip(d as int),
            ") "@,
        ))
    }
}

proof fn lemma_skip_subrange(s: Seq<char>, from: int, to: int, k: int)
    requires
        0 <= from <= to <= s.len(),
        0 <= k <= to - from,
    ensures
        s.subrange(from, to).skip(k) == s.subrange(from + k, to),
{
    assert(s.subrange(from, to).skip(k) =~= s.subrange(from + k, to));
}

/// Opening code fence of the line `s[from..to]`.
pub fn opening_fence(s: &[char], from: usize, to: usize) -> (r: Option<(char, usize)>)
    requires
        from <= to <= s.len(),
    ensures
        r == (match spec_opening_fence(s@.subrange(from as int, to as int)) {
            Some((m, w)) => Some((m, w as usize)),
            None => None::<(char, usize)>,
        }),
        spec_opening_fence(s@.subrange(from as int, to as int)) matches Some((m, w)) ==> w <= to
            - from,
{
    let a = leading_ws(s, from, to);
    let t0 = from + a;
    proof {
        lemma_skip_subrange(s@, from as int, to as int, a as int);
    }
    if t0 == to {
        return None;
    }
    let m = s[t0];
    if m != '`' && m != '~' {
        return None;
    }
    let w = run_eq(s, t0, to, m);
    if w >= 3 {
        Some((m, w))
    } else {
        None
    }
}

/// Whether the line `s[from..to]` closes a fence of `marker` and `width`.
pub fn is_fence_line(s: &[char], from: usize, to: usize, marker: char, width: usize) -> (b: bool)
    requires
        from <= to <= s.len(),
    ensures
        b == spec_is_fence_line(s@.subrange(from as int, to as int), marker, width as nat),
{
    let a = leading_ws(s, from, to);
    proof {
        lemma_skip_subrange(s@, from as int, to as int, a as int);
    }
    run_eq(s, from + a, to, marker) >= width
}

/// Whether the line `s[from..to]` is an ATX heading.
pub fn is_heading_line(s: &[char], from: usize, to: usize) -> (b: bool)
    requires
        from <= to <= s.len(),
    ensures
        b == spec_is_heading_line(s@.subrange(from as int, to as int)),
{
    let k = run_eq(s, from, to, '#');
    1 <= k && k <= 6 && from + k < to && is_whitespace(s[from + k])
}

/// Whether the line `s[from..to]` starts a top-level list item.
pub fn is_top_level_list_item(s: &[char], from: usize, to: usize) -> (b: bool)
    requires
        from <= to <= s.len(),
    ensures
        b == spec_is_top_level_list_item(s@.subrange(from as int, to as int)),
{
    if from < to && is_whitespace(s[from]) {
        return false;
    }
    let dash = chars_of("- ");
    let star = chars_of("* ");
    let plus = chars_of("+ ");
    if starts_with_at(s, from, to, &dash) || starts_with_at(s, from, to, &star) || starts_with_at(
        s,
        from,
        to,
        &plus,
    ) {
        return true;
    }
    let d = run_digits(s, from, to);
    proof {
        lemma_skip_subrange(s@, from as int, to as int, d as int);
    }
    let dot = chars_of(". ");
    let paren = chars_of(") ");
    d > 0 && (starts_with_at(s, from + d, to, &dot) || starts_with_at(s, from + d, to, &paren))
}

// ---------------------------------------------------------------------------
// Front matter
// ---------------------------------------------------------------------------

/// Position just past the YAML front matter (`---` fenced, LF or CRLF line
/// endings), if the document has one.
pub open spec fn spec_frontmatter_end(content: Seq<char>) -> Option<int> {
    if starts_with(content, "---\n"@) {
        match find_from(content, "\n---\n"@, 4) {
            Some(e) => Some(e + 5),
            None => None,
        }
    } else if starts_with(content, "---\r\n"@) {
        match find_from(content, "\r\n---\r\n"@, 5) {
            Some(e) => Some(e + 7),
            None => None,
        }
    } else {
        None
    }
}

/// End of the front matter of `content`, if any.
pub fn frontmatter_end(content: &[char]) -> (r: Option<usize>)
    ensures
        r == (match spec_frontmatter_end(content@) {
            Some(e) => Some(e as usize),
            None => None::<usize>,
        }),
        r matches Some(e) ==> e <= content.len(),
        spec_frontmatter_end(content@) matches Some(e) ==> 0 <= e <= content.len(),
{
    let open_lf = chars_of("---\n");
    let close_lf = chars_of("\n---\n");
    let open_crlf = chars_of("---\r\n");
    let close_crlf = chars_of("\r\n---\r\n");
    proof {
        reveal_strlit("---\n");
        reveal_strlit("\n---\n");
        reveal_strlit("---\r\n");
        reveal_strlit("\r\n---\r\n");
        assert(content@.subrange(0, content@.len() as int) == content@);
    }
    let n = content.len();
    if starts_with_at(content, 0, n, &open_lf) {
        match find_in(content, 4, n, &close_lf) {
            Some(e) => {
                proof {
                    lemma_find_from_facts(content@, "\n---\n"@, 4);
                }
                Some(e + 5)
            },
            None => None,
        }
    } else if starts_with_at(content, 0, n, &open_crlf) {
        match find_in(content, 5, n, &close_crlf) {
            Some(e) => {
                proof {
                    lemma_find_from_facts(content@, "\r\n---\r\n"@, 5);
                }
                Some(e + 7)
            },
            None => None,
        }
    } else {
        None
    }
}


// ---------------------------------------------------------------------------
// Request batches
// ---------------------------------------------------------------------------

/// Character counts of the source texts.
pub open spec fn char_lens(texts: Seq<&str>) -> Seq<nat> {
    texts.map_values(|t: &str| t@.len())
}

/// Total of `lens[a..b]`.
pub open spec fn span_chars(lens: Seq<nat>, a: int, b: int) -> nat
    decreases b - a,
{
    if b <= a {
        0
    } else {
        span_chars(lens, a, b - 1) + lens[b - 1]
    }
}

/// `x`, saturated at `usize::MAX` (the counter the batcher keeps).
pub open spec fn capped(x: nat) -> nat {
    if x > usize::MAX {
        usize::MAX as nat
    } else {
        x
    }
}

/// The effective per-batch limit: `max_chars`, but at least 1.
pub open spec fn batch_limit(max_chars: usize) -> nat {
    if max_chars == 0 {
        1
    } else {
        max_chars as nat
    }
}

/// `s..e` is a batch as the greedy batcher forms it: it starts at `s`, takes
/// every following text while the (saturated) total stays within `limit`, and
/// stops before the first text that would push the total over it.
pub open spec fn is_greedy_batch(lens: Seq<nat>, limit: nat, s: int, e: int) -> bool {
    &&& 0 <= s < e <= lens.len()
    &&& forall|j: int| s < j < e ==> capped(#[trigger] span_chars(lens, s, j + 1)) <= limit
    &&& e == lens.len() || capped(span_chars(lens, s, e + 1)) > limit
}

/// `b` splits `0..lens.len()` into consecutive greedy batches, in order.
pub open spec fn is_greedy_partition(lens: Seq<nat>, limit: nat, b: Seq<(int, int)>) -> bool {
    if lens.len() == 0 {
        b.len() == 0
    } else {
        &&& b.len() > 0
        &&& b[0].0 == 0
        &&& b.last().1 == lens.len()
        &&& forall|k: int| 0 <= k < b.len() - 1 ==> (#[trigger] b[k]).1 == b[k + 1].0
        &&& forall|k: int| 0 <= k < b.len() ==> is_greedy_batch(lens, limit, (#[trigger] b[k]).0, b[k].1)
    }
}

proof fn lemma_span_split(lens: Seq<nat>, a: int, m: int, b: int)
    requires
        a <= m <= b,
    ensures
        span_chars(lens, a, b) == span_chars(lens, a, m) + span_chars(lens, m, b),
    decreases b - m,
{
    if m < b {
        lemma_span_split(lens, a, m, b - 1);
    }
}

/// A greedy partition is made of non-empty, consecutive batches covering
/// every text, each holding at most `limit` characters unless it is a single
/// text. This holds for every limit below `usize::MAX` (the batcher's
/// counter saturates there), and for any limit where the lengths add up to
/// no more than `usize::MAX`, as those of texts held in memory do.
pub proof fn lemma_batches_respect_limit(lens: Seq<nat>, limit: nat, b: Seq<(int, int)>)
    requires
        is_greedy_partition(lens, limit, b),
        limit < usize::MAX || span_chars(lens, 0, lens.len() as int) <= usize::MAX,
    ensures
        (b.len() == 0) == (lens.len() == 0),
        forall|k: int| 0 <= k < b.len() ==> (#[trigger] b[k]).0 < b[k].1 && (b[k].1 - b[k].0 == 1
            || span_chars(lens, b[k].0, b[k].1) <= limit),
{
    assert forall|k: int| 0 <= k < b.len() implies (#[trigger] b[k]).0 < b[k].1 && (b[k].1 - b[k].0 == 1
        || span_chars(lens, b[k].0, b[k].1) <= limit) by {
        let (st, en) = b[k];
        assert(is_greedy_batch(lens, limit, st, en));
        if en - st > 1 {
            assert(capped(span_chars(lens, st, (en - 1) + 1)) <= limit);
            lemma_span_split(lens, 0, st, lens.len() as int);
            lemma_span_split(lens, st, en, lens.len() as int);
        }
    }
}

pub open spec fn range_pairs(r: Seq<Range<usize>>) -> Seq<(int, int)> {
    r.map_values(|x: Range<usize>| (x.start as int, x.end as int))
}

proof fn lemma_capped_add(a: nat, b: nat)
    requires
        b <= usize::MAX,
    ensures
        capped((capped(a) + b) as nat) == capped(a + b),
{
}

/// Groups consecutive source texts into request batches of at most
/// `max_chars` characters (a single text longer than that forms a batch of
/// its own). The batches cover every text exactly once, in order.
pub fn build_translation_batches(source_texts: &[&str], max_chars: usize) -> (r: Vec<Range<usize>>)
    ensures
        is_greedy_partition(char_lens(source_texts@), batch_limit(max_chars), range_pairs(r@)),
{
    let ghost lens = char_lens(source_texts@);
    let n = source_texts.len();
    let mut batches: Vec<Range<usize>> = Vec::new();
    if n == 0 {
        assert(range_pairs(batches@).len() == 0);
        return batches;
    }
    let limit = if max_chars == 0 { 1 } else { max_chars };
    let mut start: usize = 0;
    let mut chars: usize = 0;
    let mut index: usize = 0;
    while index < n
        invariant
            n == source_texts.len() == lens.len(),
            lens == char_lens(source_texts@),
            limit as nat == batch_limit(max_chars),
            start <= index <= n,
            start < index || (start == 0 && index == 0),
            chars as nat == capped(span_chars(lens, start as int, index as int)),
            forall|j: int| start < j < index ==> capped(#[trigger] span_chars(lens, start as int, j + 1)) <= limit,
            start == 0 ==> batches@.len() == 0,
            start > 0 ==> batches@.len() > 0 && range_pairs(batches@)[0].0 == 0 && range_pairs(batches@).last().1 == start,
            forall|k: int| 0 <= k < batches@.len() - 1 ==> (#[trigger] range_pairs(batches@)[k]).1 == range_pairs(batches@)[k + 1].0,
            forall|k: int| 0 <= k < batches@.len() ==> is_greedy_batch(lens, limit as nat, (#[trigger] range_pairs(batches@)[k]).0, range_pairs(batches@)[k].1),
        decreases n - index,
    {
        let text_chars = chars_of(source_texts[index]).len();
        assert(text_chars as nat == lens[index as int]);
        proof {
            lemma_capped_add(span_chars(lens, start as int, index as int), text_chars as nat);
        }
        if index > start && chars.saturating_add(text_chars) > limit {
            let ghost old_pairs = range_pairs(batches@);
            batches.push(start..index);
            assert(range_pairs(batches@) =~= old_pairs.push((start as int, index as int)));
            start = index;
            chars = 0;
            proof {
                lemma_capped_add(0, text_chars as nat);
            }
        }
        assert(span_chars(lens, start as int, start as int) == 0);
        assert(span_chars(lens, start as int, index + 1) == span_chars(lens, start as int, index as int) + lens[index as int]);
        chars = chars.saturating_add(text_chars);
        index += 1;
    }
    let ghost old_pairs = range_pairs(batches@);
    batches.push(start..n);
    assert(range_pairs(batches@) =~= old_pairs.push((start as int, n as int)));
    batches
}


// ---------------------------------------------------------------------------
// Translation units
// ---------------------------------------------------------------------------

/// One translation unit: a heading, paragraph or top-level list item of the
/// document, with its position (in characters) and its text.
pub struct MarkdownTextSegment {
    pub range: Range<usize>,
    pub text: String,
}

/// Positions of the segments.
pub open spec fn segment_ranges(segs: Seq<MarkdownTextSegment>) -> Seq<(int, int)> {
    segs.map_values(|g: MarkdownTextSegment| (g.range.start as int, g.range.end as int))
}

/// The scanner's state between two lines.
pub struct ScanState {
    /// Units found so far.
    pub segs: Seq<(int, int)>,
    /// Start of the block being collected.
    pub block: Option<int>,
    /// Open code fence (marker and width).
    pub fence: Option<(char, nat)>,
    /// Inside an indented code block.
    pub indented: bool,
}

pub open spec fn crlf_pred() -> spec_fn(char) -> bool {
    |c: char| c == '\r' || c == '\n'
}

/// End of the line that starts at `start`, including its line feed.
pub open spec fn line_end(c: Seq<char>, start: int) -> int {
    match find_from(c, seq!['\n'], start) {
        Some(i) => i + 1,
        None => c.len() as int,
    }
}

/// End of the line that starts at `start`, without its trailing CR/LF characters.
pub open spec fn text_end(c: Seq<char>, start: int) -> int {
    line_end(c, start) - rrun(c.subrange(start, line_end(c, start)), crlf_pred())
}

/// Closes the open block at `raw_end`: trailing line breaks are dropped, and
/// the block becomes a unit when it is not empty and has translatable text.
pub open spec fn close_block(c: Seq<char>, st: ScanState, raw_end: int) -> ScanState {
    match st.block {
        None => st,
        Some(b) => {
            let end = raw_end - rrun(c.subrange(b, raw_end), crlf_pred());
            if end > b && has_translatable_text(c.subrange(b, end)) {
                ScanState { segs: st.segs.push((b, end)), block: None, ..st }
            } else {
                ScanState { block: None, ..st }
            }
        },
    }
}

/// The scanner's step over the line that starts at `start`.
#[verifier::opaque]
pub open spec fn scan_line(c: Seq<char>, start: int, st: ScanState) -> ScanState {
    let te = text_end(c, start);
    let line = c.subrange(start, te);
    match st.fence {
        Some((m, w)) => if spec_is_fence_line(line, m, w) {
            ScanState { fence: None, ..st }
        } else {
            st
        },
        None => match spec_opening_fence(line) {
            Some(f) => ScanState { fence: Some(f), ..close_block(c, st, start) },
            None => if trim(line).len() == 0 {
                ScanState { indented: false, ..close_block(c, st, start) }
            } else if st.indented {
                st
            } else if st.block is None && (starts_with(line, "    "@) || starts_with(line, "\t"@)) {
                ScanState { indented: true, ..st }
            } else {
                let heading = spec_is_heading_line(line);
                let standalone = heading || spec_is_top_level_list_item(line);
                let st1 = if standalone && st.block is Some {
                    close_block(c, st, start)
                } else {
                    st
                };
                let st2 = if st1.block is None {
                    ScanState { block: Some(start), ..st1 }
                } else {
                    st1
                };
                if heading {
                    close_block(c, st2, te)
                } else {
                    st2
                }
            },
        },
    }
}

/// The scanner run over every line from `start` to the end of the document.
#[verifier::opaque]
pub open spec fn scan_from(c: Seq<char>, start: int, st: ScanState) -> ScanState
    decreases c.len() - start,
{
    if start < 0 || start >= c.len() {
        st
    } else {
        let next = line_end(c, start);
        if next <= start || next > c.len() {
            st
        } else {
            scan_from(c, next, scan_line(c, start, st))
        }
    }
}

/// The translation units of a document, as positions: the body after the
/// front matter is read line by line; fenced and indented code is skipped;
/// blank lines end a block; headings and top-level list items start a block
/// of their own; a heading is a block by itself.
pub open spec fn spec_text_segments(c: Seq<char>) -> Seq<(int, int)> {
    let off = match spec_frontmatter_end(c) {
        Some(e) => e,
        None => 0,
    };
    let init = ScanState { segs: seq![], block: None, fence: None, indented: false };
    close_block(c, scan_from(c, off, init), c.len() as int).segs
}

/// Units lie in order, without overlap, inside `lo..hi`, and none is empty.
pub open spec fn segments_ordered(segs: Seq<(int, int)>, lo: int, hi: int) -> bool {
    &&& forall|k: int| 0 <= k < segs.len() ==> lo <= (#[trigger] segs[k]).0 < segs[k].1 <= hi
    &&& forall|k: int| 0 <= k < segs.len() - 1 ==> (#[trigger] segs[k]).1 <= segs[k + 1].0
}

pub open spec fn exec_state(
    segs: Seq<MarkdownTextSegment>,
    block: Option<usize>,
    fence: Option<(char, usize)>,
    indented: bool,
) -> ScanState {
    ScanState {
        segs: segment_ranges(segs),
        block: match block {
            Some(b) => Some(b as int),
            None => None,
        },
        fence: match fence {
            Some((m, w)) => Some((m, w as nat)),
            None => None,
        },
        indented,
    }
}

/// Number of trailing CR/LF characters of `s[from..to]`.
fn trailing_crlf(s: &[char], from: usize, to: usize) -> (k: usize)
    requires
        from <= to <= s.len(),
    ensures
        k == rrun(s@.subrange(from as int, to as int), crlf_pred()),
        from + k <= to,
        from + k < to ==> !(crlf_pred())(s@[to - k - 1]),
{
    let ghost t = s@.subrange(from as int, to as int);
    let mut i = to;
    while i > from && (s[i - 1] == '\r' || s[i - 1] == '\n')
        invariant
            from <= i <= to <= s.len(),
            forall|j: int| i <= j < to ==> (crlf_pred())(#[trigger] s@[j]),
        decreases i - from,
    {
        i -= 1;
    }
    proof {
        let k = to - i;
        assert forall|j: int| t.len() - k <= j < t.len() implies (crlf_pred())(#[trigger] t[j]) by {
            assert(t[j] == s@[from + j]);
        }
        if k < t.len() {
            assert(t[t.len() - k - 1] == s@[i - 1]);
        }
        lemma_rrun_is_last_failure(t, crlf_pred(), k as int);
    }
    to - i
}

/// `t` is not empty and does not end with a line break.
pub open spec fn ends_in_text(t: Seq<char>) -> bool {
    t.len() > 0 && t.last() != '\n' && t.last() != '\r'
}

/// Every unit of `segs` is non-empty and ends before its line break.
pub open spec fn units_end_in_text(segs: Seq<MarkdownTextSegment>) -> bool {
    forall|k: int| 0 <= k < segs.len() ==> ends_in_text(#[trigger] segs[k].text@)
}

/// Closes the open block at `raw_end` (see [`close_block`]).
fn finish_markdown_block(
    cs: &[char],
    segments: &mut Vec<MarkdownTextSegment>,
    block_start: &mut Option<usize>,
    raw_end: usize,
    Ghost(lo): Ghost<int>,
)
    requires
        raw_end <= cs.len(),
        *old(block_start) matches Some(b) ==> b <= raw_end,
        *old(block_start) matches Some(b) ==> lo <= b,
        segments_ordered(segment_ranges(old(segments)@), lo, cs.len() as int),
        *old(block_start) matches Some(b) ==> (old(segments)@.len() > 0 ==> old(segments)@.last().range.end <= b),
        forall|k: int| 0 <= k < old(segments)@.len() ==> (#[trigger] old(segments)@[k]).text@ == cs@.subrange(
            old(segments)@[k].range.start as int,
            old(segments)@[k].range.end as int,
        ),
        units_end_in_text(old(segments)@),
    ensures
        units_end_in_text(final(segments)@),
        exec_state(final(segments)@, *final(block_start), None, false) == close_block(
            cs@,
            exec_state(old(segments)@, *old(block_start), None, false),
            raw_end as int,
        ),
        *final(block_start) is None,
        segments_ordered(segment_ranges(final(segments)@), lo, cs.len() as int),
        final(segments)@.len() > 0 ==> final(segments)@.last().range.end <= raw_end || final(segments)@ == old(segments)@,
        final(segments)@.len() > 0 && final(segments)@ != old(segments)@ ==> final(segments)@.last().range.end <= raw_end,
        forall|k: int| 0 <= k < final(segments)@.len() ==> (#[trigger] final(segments)@[k]).text@ == cs@.subrange(
            final(segments)@[k].range.start as int,
            final(segments)@[k].range.end as int,
        ),
{
    let start = match *block_start {
        Some(b) => b,
        None => {
            return;
        },
    };
    *block_start = None;
    let end = raw_end - trailing_crlf(cs, start, raw_end);
    if end <= start {
        return;
    }
    let text = string_of_range(cs, start, end);
    if !markdown_block_has_translatable_text(text.as_str()) {
        return;
    }
    let ghost old_segs = segments@;
    assert(text@.last() == cs@[end - 1]);
    segments.push(MarkdownTextSegment { range: start..end, text });
    assert(segment_ranges(segments@) =~= segment_ranges(old_segs).push((start as int, end as int)));
    assert forall|k: int| 0 <= k < segments@.len() implies ends_in_text(#[trigger] segments@[k].text@) by {
        if k < old_segs.len() {
            assert(segments@[k] == old_segs[k]);
        }
    }
}


proof fn lemma_scan_from_step(c: Seq<char>, start: int, st: ScanState)
    requires
        0 <= start < c.len(),
    ensures
        scan_from(c, start, st) == scan_from(c, line_end(c, start), scan_line(c, start, st)),
{
    lemma_line_end(c, start);
    reveal(scan_from);
}

proof fn lemma_scan_from_end(c: Seq<char>, start: int, st: ScanState)
    requires
        start >= c.len(),
    ensures
        scan_from(c, start, st) == st,
{
    reveal(scan_from);
}

proof fn lemma_line_end(c: Seq<char>, start: int)
    requires
        0 <= start < c.len(),
    ensures
        start < line_end(c, start) <= c.len(),
{
    lemma_find_from_facts(c, seq!['\n'], start);
}

/// One step of the scanner over the line `cs[pos..]` (see [`scan_line`]).
#[verifier::rlimit(50)]
fn scan_line_exec(
    cs: &[char],
    pos: usize,
    te: usize,
    segments: &mut Vec<MarkdownTextSegment>,
    block: &mut Option<usize>,
    fence: &mut Option<(char, usize)>,
    indented: &mut bool,
    Ghost(lo): Ghost<int>,
)
    requires
        lo <= pos <= te <= cs.len(),
        te == text_end(cs@, pos as int),
        segments_ordered(segment_ranges(old(segments)@), lo, cs.len() as int),
        *old(block) matches Some(b) ==> lo <= b <= pos && (old(segments)@.len() > 0
            ==> old(segments)@.last().range.end <= b),
        *old(block) is None ==> (old(segments)@.len() > 0 ==> old(segments)@.last().range.end
            <= pos),
        forall|k: int| 0 <= k < old(segments)@.len() ==> (#[trigger] old(segments)@[k]).text@ == cs@.subrange(
            old(segments)@[k].range.start as int,
            old(segments)@[k].range.end as int,
        ),
        units_end_in_text(old(segments)@),
    ensures
        units_end_in_text(final(segments)@),
        exec_state(final(segments)@, *final(block), *final(fence), *final(indented)) == scan_line(
            cs@,
            pos as int,
            exec_state(old(segments)@, *old(block), *old(fence), *old(indented)),
        ),
        segments_ordered(segment_ranges(final(segments)@), lo, cs.len() as int),
        *final(block) matches Some(b) ==> lo <= b <= pos && (final(segments)@.len() > 0
            ==> final(segments)@.last().range.end <= b),
        *final(block) is None ==> (final(segments)@.len() > 0 ==> final(segments)@.last().range.end
            <= te),
        forall|k: int| 0 <= k < final(segments)@.len() ==> (#[trigger] final(segments)@[k]).text@ == cs@.subrange(
            final(segments)@[k].range.start as int,
            final(segments)@[k].range.end as int,
        ),
{
    let four = chars_of("    ");
    let tab = chars_of("\t");
    proof {
        reveal(scan_line);
    }
    match *fence {
        Some((m, w)) => {
            if is_fence_line(cs, pos, te, m, w) {
                *fence = None;
            }
        },
        None => {
            match opening_fence(cs, pos, te) {
                Some(f) => {
                    finish_markdown_block(cs, segments, block, pos, Ghost(lo));
                    *fence = Some(f);
                },
                None => {
                    let (ta, tb) = trim_bounds(cs, pos, te);
                    if ta == tb {
                        finish_markdown_block(cs, segments, block, pos, Ghost(lo));
                        *indented = false;
                    } else if *indented {
                    } else if block.is_none() && (starts_with_at(cs, pos, te, &four)
                        || starts_with_at(cs, pos, te, &tab)) {
                        *indented = true;
                    } else {
                        let heading = is_heading_line(cs, pos, te);
                        let standalone = heading || is_top_level_list_item(cs, pos, te);
                        if standalone && block.is_some() {
                            finish_markdown_block(cs, segments, block, pos, Ghost(lo));
                        }
                        if block.is_none() {
                            *block = Some(pos);
                        }
                        if heading {
                            finish_markdown_block(cs, segments, block, te, Ghost(lo));
                        }
                    }
                },
            }
        },
    }
}

/// The translation units of a skill document (see [`spec_text_segments`]).
#[verifier::rlimit(60)]
pub fn collect_markdown_text_segments(content: &str) -> (r: Vec<MarkdownTextSegment>)
    ensures
        segment_ranges(r@) == spec_text_segments(content@),
        segments_ordered(
            segment_ranges(r@),
            match spec_frontmatter_end(content@) {
                Some(e) => e,
                None => 0,
            },
            content@.len() as int,
        ),
        forall|k: int| 0 <= k < r@.len() ==> (#[trigger] r@[k]).text@ == content@.subrange(
            r@[k].range.start as int,
            r@[k].range.end as int,
        ),
        forall|k: int| 0 <= k < r@.len() ==> {
            let t = (#[trigger] r@[k]).text@;
            t.len() > 0 && t.last() != '\n' && t.last() != '\r'
        },
{
    let cs = chars_of(content);
    let n = cs.len();
    let off = match frontmatter_end(&cs) {
        Some(e) => e,
        None => 0,
    };
    let ghost lo = off as int;
    let ghost init = ScanState { segs: seq![], block: None, fence: None, indented: false };
    let nl = chars_of("\n");
    proof {
        reveal_strlit("\n");
        assert(nl@ =~= seq!['\n']);
    }
    let mut segments: Vec<MarkdownTextSegment> = Vec::new();
    let mut block: Option<usize> = None;
    let mut fence: Option<(char, usize)> = None;
    let mut indented = false;
    let mut pos = off;
    assert(segment_ranges(segments@) =~= seq![]);
    assert(exec_state(segments@, block, fence, indented) == init);
    while pos < n
        invariant
            cs@ == content@,
            n == cs.len(),
            nl@ == seq!['\n'],
            off <= pos <= n,
            lo == off,
            scan_from(cs@, off as int, init) == scan_from(cs@, pos as int, exec_state(segments@, block, fence, indented)),
            segments_ordered(segment_ranges(segments@), lo, n as int),
            block matches Some(b) ==> lo <= b <= pos && (segments@.len() > 0 ==> segments@.last().range.end <= b),
            block is None ==> (segments@.len() > 0 ==> segments@.last().range.end <= pos),
            forall|k: int| 0 <= k < segments@.len() ==> (#[trigger] segments@[k]).text@ == cs@.subrange(
                segments@[k].range.start as int,
                segments@[k].range.end as int,
            ),
            units_end_in_text(segments@),
        decreases n - pos,
    {
        let ghost st0 = exec_state(segments@, block, fence, indented);
        proof {
            assert(cs@.subrange(0, n as int) =~= cs@);
            lemma_find_from_facts(cs@, seq!['\n'], pos as int);
            lemma_line_end(cs@, pos as int);
        }
        let le = match find_in(&cs, pos, n, &nl) {
            Some(i) => i + 1,
            None => n,
        };
        assert(le == line_end(cs@, pos as int));
        let te = le - trailing_crlf(&cs, pos, le);
        assert(te == text_end(cs@, pos as int));
        scan_line_exec(&cs, pos, te, &mut segments, &mut block, &mut fence, &mut indented, Ghost(lo));
        proof {
            lemma_scan_from_step(cs@, pos as int, st0);
        }
        pos = le;
    }
    let ghost fin = exec_state(segments@, block, fence, indented);
    let ghost plain = exec_state(segments@, block, None, false);
    proof {
        lemma_scan_from_end(cs@, pos as int, fin);
        assert(close_block(cs@, fin, n as int).segs == close_block(cs@, plain, n as int).segs);
        assert(off as int == match spec_frontmatter_end(content@) {
            Some(e) => e,
            None => 0,
        });
    }
    finish_markdown_block(&cs, &mut segments, &mut block, n, Ghost(lo));
    assert forall|k: int| 0 <= k < segments@.len() implies {
        let t = (#[trigger] segments@[k]).text@;
        t.len() > 0 && t.last() != '\n' && t.last() != '\r'
    } by {
        assert(ends_in_text(segments@[k].text@));
    }
    segments
}


// ---------------------------------------------------------------------------
// Putting translations back
// ---------------------------------------------------------------------------

/// `content` with the unit at `segs[i]` replaced by `trans[i]`, for every unit
/// from `i` on; text before the first of them starts at `copied`.
pub open spec fn splice(
    content: Seq<char>,
    segs: Seq<(int, int)>,
    trans: Seq<Seq<char>>,
    i: int,
    copied: int,
) -> Seq<char>
    decreases segs.len() - i,
{
    if i < 0 || i >= segs.len() {
        content.subrange(copied, content.len() as int)
    } else {
        content.subrange(copied, segs[i].0) + trans[i] + splice(content, segs, trans, i + 1, segs[i].1)
    }
}

/// `content` with each unit replaced by its translation.
pub open spec fn spec_apply_translations(
    content: Seq<char>,
    segs: Seq<(int, int)>,
    trans: Seq<Seq<char>>,
) -> Seq<char> {
    splice(content, segs, trans, 0, 0)
}

/// The number of translations differs from the number of units.
#[derive(Debug)]
pub struct SegmentCountMismatch {
    pub segments: usize,
    pub translations: usize,
}

impl SegmentCountMismatch {
    /// The message the user sees: the translation does not have as many
    /// units as the source.
    pub fn message(&self) -> (r: String)
        ensures
            r@ == "译文片段数量与原文不一致"@,
    {
        "译文片段数量与原文不一致".to_string()
    }
}

/// Replaces each unit of `content` with its translation; everything outside
/// the units (front matter, code, blank lines, line breaks) is kept as is.
pub fn apply_translated_segments(
    content: &str,
    segments: &[MarkdownTextSegment],
    translations: &[String],
) -> (r: Result<String, SegmentCountMismatch>)
    requires
        segments_ordered(segment_ranges(segments@), 0, content@.len() as int),
    ensures
        r is Err <==> segments@.len() != translations@.len(),
        r matches Err(e) ==> e.segments == segments@.len() && e.translations == translations@.len(),
        r matches Ok(out) ==> out@ == spec_apply_translations(
            content@,
            segment_ranges(segments@),
            translations@.map_values(|t: String| t@),
        ),
{
    if segments.len() != translations.len() {
        return Err(SegmentCountMismatch { segments: segments.len(), translations: translations.len() });
    }
    let cs = chars_of(content);
    let ghost segs = segment_ranges(segments@);
    let ghost trans = translations@.map_values(|t: String| t@);
    let ghost whole = splice(cs@, segs, trans, 0, 0);
    let mut output = String::new();
    let mut copied: usize = 0;
    let mut i: usize = 0;
    assert(output@ + splice(cs@, segs, trans, 0, 0) =~= whole);
    while i < segments.len()
        invariant
            cs@ == content@,
            segs == segment_ranges(segments@),
            trans == translations@.map_values(|t: String| t@),
            whole == splice(cs@, segs, trans, 0, 0),
            segments.len() == translations.len(),
            segments_ordered(segs, 0, cs@.len() as int),
            i <= segments.len(),
            i < segments.len() ==> copied <= segments@[i as int].range.start,
            copied <= cs.len(),
            output@ + splice(cs@, segs, trans, i as int, copied as int) == whole,
        decreases segments.len() - i,
    {
        let seg = &segments[i];
        assert(segs[i as int] == (seg.range.start as int, seg.range.end as int));
        push_range(&mut output, &cs, copied, seg.range.start);
        push_str(&mut output, translations[i].as_str());
        assert(output@ + splice(cs@, segs, trans, i + 1, seg.range.end as int) =~= whole);
        copied = seg.range.end;
        i += 1;
        if i < segments.len() {
            assert(segs[i - 1].1 <= segs[i as int].0);
        }
    }
    push_range(&mut output, &cs, copied, cs.len());
    assert(output@ =~= whole);
    Ok(output)
}

proof fn lemma_splice_own_texts(content: Seq<char>, segs: Seq<(int, int)>, trans: Seq<Seq<char>>, i: int, copied: int)
    requires
        segments_ordered(segs, 0, content.len() as int),
        trans.len() == segs.len(),
        forall|k: int| 0 <= k < segs.len() ==> #[trigger] trans[k] == content.subrange(segs[k].0, segs[k].1),
        0 <= i <= segs.len(),
        0 <= copied <= content.len(),
        i < segs.len() ==> copied <= segs[i].0,
    ensures
        splice(content, segs, trans, i, copied) == content.subrange(copied, content.len() as int),
    decreases segs.len() - i,
{
    if i < segs.len() {
        if i + 1 < segs.len() {
            assert(segs[i].1 <= segs[i + 1].0);
        }
        lemma_splice_own_texts(content, segs, trans, i + 1, segs[i].1);
        assert(content.subrange(copied, segs[i].0) + trans[i] + content.subrange(segs[i].1, content.len() as int)
            =~= content.subrange(copied, content.len() as int));
    }
}

/// Putting every unit back untranslated gives back the document: the units
/// cover exactly the text they were cut from, and everything between them
/// is kept.
pub proof fn lemma_untranslated_units_restore_document(content: Seq<char>, segs: Seq<(int, int)>, trans: Seq<Seq<char>>)
    requires
        segments_ordered(segs, 0, content.len() as int),
        trans.len() == segs.len(),
        forall|k: int| 0 <= k < segs.len() ==> #[trigger] trans[k] == content.subrange(segs[k].0, segs[k].1),
    ensures
        spec_apply_translations(content, segs, trans) == content,
{
    if segs.len() > 0 {
        assert(0 <= segs[0].0);
    }
    lemma_splice_own_texts(content, segs, trans, 0, 0);
    assert(content.subrange(0, content.len() as int) =~= content);
}

/// Translating every unit of a document into its own text gives back the
/// document: for the units as [`collect_markdown_text_segments`] returns
/// them (ordered after some offset `lo`, each holding the text it covers),
/// putting their texts back (see [`apply_translated_segments`]) yields the
/// document unchanged.
pub proof fn lemma_own_texts_restore_document(content: Seq<char>, segments: Seq<MarkdownTextSegment>, lo: int)
    requires
        0 <= lo,
        segments_ordered(segment_ranges(segments), lo, content.len() as int),
        forall|k: int| 0 <= k < segments.len() ==> (#[trigger] segments[k]).text@ == content.subrange(
            segments[k].range.start as int,
            segments[k].range.end as int,
        ),
    ensures
        segments_ordered(segment_ranges(segments), 0, content.len() as int),
        spec_apply_translations(
            content,
            segment_ranges(segments),
            segments.map_values(|g: MarkdownTextSegment| g.text).map_values(|t: String| t@),
        ) == content,
{
    let segs = segment_ranges(segments);
    let trans = segments.map_values(|g: MarkdownTextSegment| g.text).map_values(|t: String| t@);
    assert forall|k: int| 0 <= k < segs.len() implies #[trigger] trans[k] == content.subrange(segs[k].0, segs[k].1) by {
        assert(segments[k].text@ == content.subrange(segments[k].range.start as int, segments[k].range.end as int));
    }
    lemma_untranslated_units_restore_document(content, segs, trans);
}

/// The unit `s` of `c` lies inside `c`, is not empty, and does not end with
/// a line break.
pub open spec fn unit_ends_in_text(c: Seq<char>, s: (int, int)) -> bool {
    &&& 0 <= s.0 < s.1 <= c.len()
    &&& c[s.1 - 1] != '\n'
    &&& c[s.1 - 1] != '\r'
}

spec fn scan_ok(c: Seq<char>, st: ScanState, hi: int) -> bool {
    &&& forall|k: int| 0 <= k < st.segs.len() ==> unit_ends_in_text(c, #[trigger] st.segs[k])
    &&& st.block matches Some(b) ==> 0 <= b <= hi
}

proof fn lemma_rrun_facts(s: Seq<char>, p: spec_fn(char) -> bool)
    ensures
        rrun(s, p) <= s.len(),
        rrun(s, p) < s.len() ==> !p(s[s.len() - rrun(s, p) - 1]),
    decreases s.len(),
{
    if s.len() > 0 && p(s.last()) {
        lemma_rrun_facts(s.drop_last(), p);
        let t = s.drop_last();
        if rrun(s, p) < s.len() {
            assert(t[t.len() - rrun(t, p) - 1] == s[s.len() - rrun(s, p) - 1]);
        }
    }
}

proof fn lemma_close_block_ok(c: Seq<char>, st: ScanState, raw_end: int)
    requires
        scan_ok(c, st, raw_end),
        raw_end <= c.len(),
    ensures
        scan_ok(c, close_block(c, st, raw_end), raw_end),
        close_block(c, st, raw_end).block is None,
{
    match st.block {
        None => {},
        Some(b) => {
            let sub = c.subrange(b, raw_end);
            lemma_rrun_facts(sub, crlf_pred());
            let end = raw_end - rrun(sub, crlf_pred());
            if end > b {
                assert(sub[sub.len() - rrun(sub, crlf_pred()) - 1] == c[end - 1]);
            }
            let r = close_block(c, st, raw_end);
            assert forall|k: int| 0 <= k < r.segs.len() implies unit_ends_in_text(c, #[trigger] r.segs[k]) by {
                if k < st.segs.len() {
                    assert(r.segs[k] == st.segs[k]);
                }
            }
        },
    }
}

proof fn lemma_scan_line_ok(c: Seq<char>, start: int, st: ScanState)
    requires
        0 <= start < c.len(),
        scan_ok(c, st, start),
    ensures
        scan_ok(c, scan_line(c, start, st), line_end(c, start)),
{
    reveal(scan_line);
    lemma_line_end(c, start);
    let le = line_end(c, start);
    lemma_rrun_facts(c.subrange(start, le), crlf_pred());
    let te = text_end(c, start);
    assert(start <= te <= le);
    lemma_close_block_ok(c, st, start);
    let line = c.subrange(start, te);
    if st.fence is None && spec_opening_fence(line) is None && trim(line).len() != 0 && !st.indented
        && !(st.block is None && (starts_with(line, "    "@) || starts_with(line, "\t"@))) {
        let heading = spec_is_heading_line(line);
        let standalone = heading || spec_is_top_level_list_item(line);
        let st1 = if standalone && st.block is Some {
            close_block(c, st, start)
        } else {
            st
        };
        let st2 = if st1.block is None {
            ScanState { block: Some(start), ..st1 }
        } else {
            st1
        };
        assert(scan_ok(c, st2, te));
        lemma_close_block_ok(c, st2, te);
    }
}

proof fn lemma_scan_from_ok(c: Seq<char>, start: int, st: ScanState)
    requires
        scan_ok(c, st, if start <= c.len() { start } else { c.len() as int }),
        st.block is None || start <= c.len(),
    ensures
        scan_ok(c, scan_from(c, start, st), c.len() as int),
    decreases c.len() - start,
{
    reveal(scan_from);
    if start < 0 || start >= c.len() {
    } else {
        lemma_line_end(c, start);
        lemma_scan_line_ok(c, start, st);
        lemma_scan_from_step(c, start, st);
        lemma_scan_from_ok(c, line_end(c, start), scan_line(c, start, st));
    }
}

/// No translation unit of a document ends with a line break: every unit
/// that [`spec_text_segments`] finds is a non-empty part of the document
/// whose last character is neither `\n` nor `\r`.
pub proof fn lemma_units_end_in_text(c: Seq<char>)
    ensures
        forall|k: int| 0 <= k < spec_text_segments(c).len() ==> unit_ends_in_text(c, #[trigger] spec_text_segments(c)[k]),
{
    let off = match spec_frontmatter_end(c) {
        Some(e) => e,
        None => 0,
    };
    let init = ScanState { segs: seq![], block: None, fence: None, indented: false };
    lemma_scan_from_ok(c, off, init);
    lemma_close_block_ok(c, scan_from(c, off, init), c.len() as int);
}

} // verus!

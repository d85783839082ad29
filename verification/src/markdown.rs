//! Markdown structure as the translator sees it: the CommonMark events that
//! `pulldown_cmark` reports, and the structural signature derived from them.
use crate::markdown::MarkdownEvent::{
    BlockQuote, Code, HardBreak, Heading, Item, Link, List, Other, Paragraph, Rule, Text,
};
use pulldown_cmark::{Event, Options, Parser, Tag};
use crate::text::{chars_of, decimal, push_str, str_eq, strings_equal, to_decimal};
use vstd::prelude::*;

verus! {

/// One CommonMark event, reduced to what the translator inspects.
pub enum MarkdownEvent {
    /// Start of a heading of the given level (1 to 6).
    Heading(u8),
    /// Start of a paragraph.
    Paragraph,
    /// Start of a block quote.
    BlockQuote,
    /// Start of a list; `Some(n)` for an ordered list starting at `n`.
    List(Option<u64>),
    /// Start of a list item.
    Item,
    /// Start of a link: the name of its `pulldown_cmark::LinkType` (as its
    /// `Debug` form prints it, e.g. `Inline` or `Autolink`), and its
    /// destination.
    Link(String, String),
    /// An inline code span.
    Code(String),
    /// A text node.
    Text(String),
    /// A hard line break.
    HardBreak,
    /// A thematic break.
    Rule,
    /// Any other event.
    Other,
}

/// The mathematical value of a [`MarkdownEvent`].
pub enum MarkdownEventView {
    Heading(u8),
    Paragraph,
    BlockQuote,
    List(Option<u64>),
    Item,
    Link(Seq<char>, Seq<char>),
    Code(Seq<char>),
    Text(Seq<char>),
    HardBreak,
    Rule,
    Other,
}

impl View for MarkdownEvent {
    type V = MarkdownEventView;

    open spec fn view(&self) -> MarkdownEventView {
        match self {
            MarkdownEvent::Heading(l) => MarkdownEventView::Heading(*l),
            MarkdownEvent::Paragraph => MarkdownEventView::Paragraph,
            MarkdownEvent::BlockQuote => MarkdownEventView::BlockQuote,
            MarkdownEvent::List(n) => MarkdownEventView::List(*n),
            MarkdownEvent::Item => MarkdownEventView::Item,
            MarkdownEvent::Link(k, d) => MarkdownEventView::Link(k@, d@),
            MarkdownEvent::Code(c) => MarkdownEventView::Code(c@),
            MarkdownEvent::Text(t) => MarkdownEventView::Text(t@),
            MarkdownEvent::HardBreak => MarkdownEventView::HardBreak,
            MarkdownEvent::Rule => MarkdownEventView::Rule,
            MarkdownEvent::Other => MarkdownEventView::Other,
        }
    }
}

/// The events that `pulldown_cmark::Parser::new_ext(markdown, Options::empty())`
/// yields for `markdown`, in order.
pub uninterp spec fn spec_markdown_events(markdown: Seq<char>) -> Seq<MarkdownEventView>;

/// Runs the CommonMark parser of `pulldown_cmark` (no extensions) over
/// `markdown` and reduces each event to a [`MarkdownEvent`]: the kinds the
/// library reads each get their own arm; every other event (ends of tags,
/// soft breaks, HTML, other tags) is `Other`, as the cap on a wrapper's size
/// leaves no room for an arm per remaining kind. The contract claims only
/// that the result is the parser's event stream for this input.
#[verifier::external_body]
fn markdown_events(markdown: &str) -> (r: Vec<MarkdownEvent>)
    ensures
        r@.map_values(|e: MarkdownEvent| e@) == spec_markdown_events(markdown@),
{
    Parser::new_ext(markdown, Options::empty()).map(|e| match e {
        Event::Start(Tag::Heading { level, .. }) => Heading(level as u8),
        Event::Start(Tag::Paragraph) => Paragraph,
        Event::Start(Tag::BlockQuote(_)) => BlockQuote,
        Event::Start(Tag::List(n)) => List(n),
        Event::Start(Tag::Item) => Item,
        Event::Start(Tag::Link { link_type, dest_url, .. }) => Link(format!("{link_type:?}"), dest_url.to_string()),
        Event::Code(c) => Code(c.to_string()),
        Event::Text(t) => Text(t.to_string()),
        Event::HardBreak => HardBreak,
        Event::Rule => Rule,
        _ => Other,
    }).collect()
}


/// Whether a link of this kind is an autolink: a bare URL or e-mail address
/// in angle brackets, which the signature leaves out.
pub open spec fn is_autolink_kind(kind: Seq<char>) -> bool {
    kind == "Autolink"@ || kind == "Email"@
}

/// The signature entry of one event (`None` when the event does not take part).
pub open spec fn signature_entry(e: MarkdownEventView) -> Option<Seq<char>> {
    match e {
        MarkdownEventView::Heading(l) => Some("heading:H"@ + decimal(l as nat)),
        MarkdownEventView::Paragraph => Some("paragraph"@),
        MarkdownEventView::BlockQuote => Some("blockquote"@),
        MarkdownEventView::List(start) => Some(
            "list:"@ + match start {
                Some(n) => "Some("@ + decimal(n as nat) + ")"@,
                None => "None"@,
            },
        ),
        MarkdownEventView::Item => Some("item"@),
        MarkdownEventView::Link(kind, dest) => if is_autolink_kind(kind) {
            None
        } else {
            Some("link:"@ + dest)
        },
        MarkdownEventView::Code(code) => Some("code:"@ + code),
        MarkdownEventView::HardBreak => Some("hard-break"@),
        MarkdownEventView::Rule => Some("rule"@),
        MarkdownEventView::Text(_) => None,
        MarkdownEventView::Other => None,
    }
}

/// The signature entries of a stream of events, in order.
pub open spec fn signature_of(events: Seq<MarkdownEventView>) -> Seq<Seq<char>>
    decreases events.len(),
{
    if events.len() == 0 {
        seq![]
    } else {
        let rest = signature_of(events.drop_last());
        match signature_entry(events.last()) {
            Some(entry) => rest.push(entry),
            None => rest,
        }
    }
}

/// The structural signature of a Markdown text: headings, paragraphs, block
/// quotes, lists and their items, link destinations (autolinks excepted),
/// inline code, hard breaks and rules, in document order.
pub open spec fn markdown_signature(markdown: Seq<char>) -> Seq<Seq<char>> {
    signature_of(spec_markdown_events(markdown))
}

/// `e` is a text node with at least one alphabetic character.
pub open spec fn is_alphabetic_text(e: MarkdownEventView) -> bool {
    e is Text && exists|j: int|
        0 <= j < e->Text_0.len() && #[trigger] spec_is_alphabetic(e->Text_0[j])
}

proof fn lemma_alphabetic_text(t: Seq<char>, j: int)
    requires
        0 <= j < t.len(),
        spec_is_alphabetic(t[j]),
    ensures
        is_alphabetic_text(MarkdownEventView::Text(t)),
{
    let e = MarkdownEventView::Text(t);
    assert(spec_is_alphabetic(e->Text_0[j]));
}

/// `markdown` holds a text node with at least one alphabetic character.
pub open spec fn has_translatable_text(markdown: Seq<char>) -> bool {
    exists|i: int|
        0 <= i < spec_markdown_events(markdown).len() && is_alphabetic_text(
            #[trigger] spec_markdown_events(markdown)[i],
        )
}

/// What `char::is_alphabetic` answers for `c` (the Unicode `Alphabetic` property).
pub uninterp spec fn spec_is_alphabetic(c: char) -> bool;

/// `char::is_alphabetic`: the contract claims only that the answer is the
/// property's value for `c`.
#[verifier::external_body]
fn is_alphabetic(c: char) -> (b: bool)
    ensures
        b == spec_is_alphabetic(c),
{
    c.is_alphabetic()
}

fn signature_entry_of(e: &MarkdownEvent) -> (r: Option<String>)
    ensures
        r matches Some(s) ==> signature_entry(e@) == Some(s@),
        r is None ==> signature_entry(e@) is None,
{
    match e {
        MarkdownEvent::Heading(l) => {
            let mut s = "heading:H".to_string();
            let d = to_decimal(*l as u128);
            push_str(&mut s, d.as_str());
            Some(s)
        },
        MarkdownEvent::Paragraph => Some("paragraph".to_string()),
        MarkdownEvent::BlockQuote => Some("blockquote".to_string()),
        MarkdownEvent::List(start) => {
            let mut s = "list:".to_string();
            match start {
                Some(n) => {
                    push_str(&mut s, "Some(");
                    let d = to_decimal(*n as u128);
                    push_str(&mut s, d.as_str());
                    push_str(&mut s, ")");
                },
                None => push_str(&mut s, "None"),
            }
            Some(s)
        },
        MarkdownEvent::Item => Some("item".to_string()),
        MarkdownEvent::Link(kind, dest) => if str_eq(kind.as_str(), "Autolink") || str_eq(kind.as_str(), "Email") {
            None
        } else {
            let mut s = "link:".to_string();
            push_str(&mut s, dest.as_str());
            Some(s)
        },
        MarkdownEvent::Code(code) => {
            let mut s = "code:".to_string();
            push_str(&mut s, code.as_str());
            Some(s)
        },
        MarkdownEvent::HardBreak => Some("hard-break".to_string()),
        MarkdownEvent::Rule => Some("rule".to_string()),
        MarkdownEvent::Text(_) => None,
        MarkdownEvent::Other => None,
    }
}

/// The structural signature of `markdown` (see [`markdown_signature`]).
pub fn markdown_structure_signature(markdown: &str) -> (r: Vec<String>)
    ensures
        r@.map_values(|s: String| s@) == markdown_signature(markdown@),
{
    let events = markdown_events(markdown);
    signature_from_events(&events)
}

/// The structural signature of a sequence of Markdown events (see
/// [`signature_of`]).
pub fn signature_from_events(events: &Vec<MarkdownEvent>) -> (r: Vec<String>)
    ensures
        r@.map_values(|s: String| s@) == signature_of(events@.map_values(|e: MarkdownEvent| e@)),
{
    let ghost ev = events@.map_values(|e: MarkdownEvent| e@);
    let mut out: Vec<String> = Vec::new();
    let mut i: usize = 0;
    while i < events.len()
        invariant
            i <= events.len(),
            ev == events@.map_values(|e: MarkdownEvent| e@),
            out@.map_values(|s: String| s@) == signature_of(ev.take(i as int)),
        decreases events.len() - i,
    {
        let entry = signature_entry_of(&events[i]);
        assert(ev.take(i + 1).drop_last() =~= ev.take(i as int));
        assert(ev.take(i + 1).last() == events@[i as int]@);
        match entry {
            Some(s) => {
                out.push(s);
                assert(out@.map_values(|s: String| s@) =~= signature_of(ev.take(i as int)).push(
                    out@.last()@,
                ));
            },
            None => {},
        }
        i += 1;
    }
    assert(ev.take(events.len() as int) =~= ev);
    out
}

/// The signature of a translated unit differs from that of its source.
#[derive(Debug)]
pub struct SignatureMismatch {
    pub expected: Vec<String>,
    pub actual: Vec<String>,
}

/// Checks that a translation kept the Markdown structure of its source.
pub fn validate_translated_markdown_unit(source: &str, translated: &str) -> (r: Result<
    (),
    SignatureMismatch,
>)
    ensures
        r is Ok <==> markdown_signature(source@) == markdown_signature(translated@),
        r matches Err(e) ==> e.expected@.map_values(|s: String| s@) == markdown_signature(source@)
            && e.actual@.map_values(|s: String| s@) == markdown_signature(translated@),
{
    let expected = markdown_structure_signature(source);
    let actual = markdown_structure_signature(translated);
    if strings_equal(&expected, &actual) {
        Ok(())
    } else {
        Err(SignatureMismatch { expected, actual })
    }
}

/// Whether `markdown` holds a text node with an alphabetic character.
pub fn markdown_block_has_translatable_text(markdown: &str) -> (b: bool)
    ensures
        b == has_translatable_text(markdown@),
{
    let events = markdown_events(markdown);
    let ghost ev = events@.map_values(|e: MarkdownEvent| e@);
    assert(ev == spec_markdown_events(markdown@));
    let mut i: usize = 0;
    while i < events.len()
        invariant
            i <= events.len(),
            ev == events@.map_values(|e: MarkdownEvent| e@),
            ev == spec_markdown_events(markdown@),
            forall|k: int| 0 <= k < i ==> !is_alphabetic_text(#[trigger] ev[k]),
        decreases events.len() - i,
    {
        match &events[i] {
            MarkdownEvent::Text(t) => {
                let cs = chars_of(t.as_str());
                assert(ev[i as int] == MarkdownEventView::Text(t@));
                let mut j: usize = 0;
                while j < cs.len()
                    invariant
                        j <= cs.len(),
                        cs@ == t@,
                        i < events.len(),
                        ev.len() == events.len(),
                        ev == spec_markdown_events(markdown@),
                        ev[i as int] == MarkdownEventView::Text(t@),
                        forall|m: int| 0 <= m < j ==> !spec_is_alphabetic(#[trigger] cs@[m]),
                    decreases cs.len() - j,
                {
                    if is_alphabetic(cs[j]) {
                        assert(spec_is_alphabetic(t@[j as int]));
                        proof {
                            lemma_alphabetic_text(t@, j as int);
                        }
                        return true;
                    }
                    j += 1;
                }
                assert(ev[i as int] == MarkdownEventView::Text(t@));
            },
            _ => {
                assert(ev[i as int] == events@[i as int]@);
            },
        }
        i += 1;
    }
    false
}

} // verus!

//! Rich-text rendering: markup-escaping a subject, replacing URL-shaped
//! substrings with hyperlink spans, and bolding `+project`/`@context` tokens.
//! The URL pass runs first over the whole escaped text; the tag pass never
//! reaches inside a produced hyperlink, because a token only counts after
//! start-of-text or whitespace and a URL never ends in whitespace.

use vstd::prelude::*;

use crate::task::Task;
use crate::text::chars_of;
use crate::text::string_of;

verus! {

/// A word character of the URL grammar: Unicode alphanumeric or underscore.
pub open spec fn spec_is_word_char(c: char) -> bool {
    crate::text::spec_unicode_alnum(c) || c == '_'
}

pub open spec fn spec_is_space_char(c: char) -> bool {
    crate::text::spec_unicode_space(c)
}

fn is_word_char(c: char) -> (r: bool)
    ensures
        r == spec_is_word_char(c),
{
    crate::text::unicode_alnum(c) || c == '_'
}

fn is_space_char(c: char) -> (r: bool)
    ensures
        r == spec_is_space_char(c),
{
    crate::text::unicode_space(c)
}

/// How one character is escaped for the markup format.
pub open spec fn spec_escape_char(c: char) -> Seq<char> {
    if c == '&' {
        seq!['&', 'a', 'm', 'p', ';']
    } else if c == '<' {
        seq!['&', 'l', 't', ';']
    } else if c == '>' {
        seq!['&', 'g', 't', ';']
    } else if c == '\'' {
        seq!['&', 'a', 'p', 'o', 's', ';']
    } else if c == '"' {
        seq!['&', 'q', 'u', 'o', 't', ';']
    } else {
        seq![c]
    }
}

/// The text with `&`, `<`, `>`, `'` and `"` escaped.
pub open spec fn spec_escape(s: Seq<char>) -> Seq<char>
    decreases s.len(),
{
    if s.len() == 0 {
        Seq::empty()
    } else {
        spec_escape(s.drop_last()) + spec_escape_char(s.last())
    }
}

/// Only `&` escaped: applied to a URL before it becomes a link target.
pub open spec fn spec_escape_amp(s: Seq<char>) -> Seq<char>
    decreases s.len(),
{
    if s.len() == 0 {
        Seq::empty()
    } else if s.last() == '&' {
        spec_escape_amp(s.drop_last()) + seq!['&', 'a', 'm', 'p', ';']
    } else {
        spec_escape_amp(s.drop_last()).push(s.last())
    }
}

fn escape_chars(s: &Vec<char>) -> (out: Vec<char>)
    ensures
        out@ == spec_escape(s@),
{
    let mut out: Vec<char> = Vec::new();
    let mut i: usize = 0;
    while i < s.len()
        invariant
            i <= s@.len(),
            out@ == spec_escape(s@.take(i as int)),
        decreases s@.len() - i,
    {
        let c = s[i];
        if c == '&' {
            out.push('&');
            out.push('a');
            out.push('m');
            out.push('p');
            out.push(';');
        } else if c == '<' {
            out.push('&');
            out.push('l');
            out.push('t');
            out.push(';');
        } else if c == '>' {
            out.push('&');
            out.push('g');
            out.push('t');
            out.push(';');
        } else if c == '\'' {
            out.push('&');
            out.push('a');
            out.push('p');
            out.push('o');
            out.push('s');
            out.push(';');
        } else if c == '"' {
            out.push('&');
            out.push('q');
            out.push('u');
            out.push('o');
            out.push('t');
            out.push(';');
        } else {
            out.push(c);
        }
        proof {
            assert(s@.take(i + 1).drop_last() =~= s@.take(i as int));
            assert(s@.take(i + 1).last() == s@[i as int]);
            assert(out@ =~= spec_escape(s@.take(i as int)) + spec_escape_char(s@[i as int]));
        }
        i = i + 1;
    }
    proof {
        assert(s@.take(s@.len() as int) =~= s@);
    }
    out
}

fn escape_amp_chars(s: &Vec<char>) -> (out: Vec<char>)
    ensures
        out@ == spec_escape_amp(s@),
{
    let mut out: Vec<char> = Vec::new();
    let mut i: usize = 0;
    while i < s.len()
        invariant
            i <= s@.len(),
            out@ == spec_escape_amp(s@.take(i as int)),
        decreases s@.len() - i,
    {
        let c = s[i];
        if c == '&' {
            out.push('&');
            out.push('a');
            out.push('m');
            out.push('p');
            out.push(';');
        } else {
            out.push(c);
        }
        proof {
            assert(s@.take(i + 1).drop_last() =~= s@.take(i as int));
            assert(s@.take(i + 1).last() == s@[i as int]);
            if s@[i as int] == '&' {
                assert(out@ =~= spec_escape_amp(s@.take(i as int)) + seq!['&', 'a', 'm', 'p', ';']);
            } else {
                assert(out@ =~= spec_escape_amp(s@.take(i as int)).push(s@[i as int]));
            }
        }
        i = i + 1;
    }
    proof {
        assert(s@.take(s@.len() as int) =~= s@);
    }
    out
}

/// End of the run of word characters starting at `i`.
pub open spec fn spec_word_run_end(s: Seq<char>, i: int) -> int
    decreases s.len() - i,
{
    if i < 0 || i >= s.len() {
        s.len() as int
    } else if spec_is_word_char(s[i]) {
        spec_word_run_end(s, i + 1)
    } else {
        i
    }
}

/// End of the run of non-whitespace characters starting at `i`.
pub open spec fn spec_nonspace_run_end(s: Seq<char>, i: int) -> int
    decreases s.len() - i,
{
    if i < 0 || i >= s.len() {
        s.len() as int
    } else if !spec_is_space_char(s[i]) {
        spec_nonspace_run_end(s, i + 1)
    } else {
        i
    }
}

/// End of the run of tag-name characters starting at `i`.
pub open spec fn spec_tag_run_end(s: Seq<char>, i: int) -> int
    decreases s.len() - i,
{
    if i < 0 || i >= s.len() {
        s.len() as int
    } else if crate::task::spec_is_tag_char(s[i]) {
        spec_tag_run_end(s, i + 1)
    } else {
        i
    }
}

pub proof fn lemma_run_ends(s: Seq<char>, i: int)
    requires
        0 <= i <= s.len(),
    ensures
        i <= spec_word_run_end(s, i) <= s.len(),
        i <= spec_nonspace_run_end(s, i) <= s.len(),
        i <= spec_tag_run_end(s, i) <= s.len(),
    decreases s.len() - i,
{
    if i < s.len() {
        lemma_run_ends(s, i + 1);
    }
}

/// Where a URL-shaped substring starting at `i` ends: a non-empty run of word
/// characters (the scheme), `://`, then a non-empty run of non-whitespace
/// characters. `None` when no URL starts at `i`.
pub open spec fn spec_url_end(s: Seq<char>, i: int) -> Option<int> {
    let j = spec_word_run_end(s, i);
    if j > i && j + 3 < s.len() && s[j] == ':' && s[j + 1] == '/' && s[j + 2] == '/'
        && !spec_is_space_char(s[j + 3]) {
        Some(spec_nonspace_run_end(s, j + 3))
    } else {
        None
    }
}

/// Whether a `+name`/`@name` token starts at `i`: only at start-of-text or
/// after whitespace, with at least one tag character after the sign.
pub open spec fn spec_tag_starts(s: Seq<char>, i: int) -> bool {
    &&& (i == 0 || spec_is_space_char(s[i - 1]))
    &&& (s[i] == '+' || s[i] == '@')
    &&& i + 1 < s.len()
    &&& crate::task::spec_is_tag_char(s[i + 1])
}

/// A hyperlink span: the URL is both target and visible text, its ampersands
/// escaped once more on the way into the markup.
pub open spec fn spec_link_span(u: Seq<char>) -> Seq<char> {
    seq!['<', 'a', ' ', 'h', 'r', 'e', 'f', '=', '"'] + spec_escape_amp(u) + seq!['"', '>']
        + spec_escape_amp(u) + seq!['<', '/', 'a', '>']
}

/// The highlighted text from position `i` on: URL spans first, then bold
/// tag tokens, all other characters unchanged.
pub open spec fn spec_highlight_from(s: Seq<char>, i: int) -> Seq<char>
    decreases s.len() - i,
    when 0 <= i
    via spec_highlight_from_decreases
{
    if i >= s.len() {
        Seq::empty()
    } else if spec_url_end(s, i) is Some {
        let e = spec_url_end(s, i)->Some_0;
        spec_link_span(s.subrange(i, e)) + spec_highlight_from(s, e)
    } else if spec_tag_starts(s, i) {
        let e = spec_tag_run_end(s, i + 1);
        seq!['<', 'b', '>'] + s.subrange(i, e) + seq!['<', '/', 'b', '>'] + spec_highlight_from(
            s,
            e,
        )
    } else {
        seq![s[i]] + spec_highlight_from(s, i + 1)
    }
}

#[via_fn]
proof fn spec_highlight_from_decreases(s: Seq<char>, i: int) {
    if 0 <= i < s.len() {
        lemma_run_ends(s, i);
        if spec_url_end(s, i) is Some {
            let j = spec_word_run_end(s, i);
            lemma_run_ends(s, j + 3);
        } else if spec_tag_starts(s, i) {
            lemma_run_ends(s, i + 1);
        }
    }
}

/// A subject rendered for display: escaped, URLs as one unbroken link each,
/// tag tokens bold.
pub open spec fn spec_markup_subject(subject: Seq<char>) -> Seq<char> {
    spec_highlight_from(spec_escape(subject), 0)
}

fn word_run_end(s: &Vec<char>, i: usize) -> (r: usize)
    requires
        i <= s@.len(),
    ensures
        r == spec_word_run_end(s@, i as int),
        i <= r <= s@.len(),
{
    let mut j: usize = i;
    while j < s.len()
        invariant
            i <= j <= s@.len(),
            spec_word_run_end(s@, j as int) == spec_word_run_end(s@, i as int),
        decreases s@.len() - j,
    {
        if !is_word_char(s[j]) {
            return j;
        }
        j = j + 1;
    }
    j
}

fn nonspace_run_end(s: &Vec<char>, i: usize) -> (r: usize)
    requires
        i <= s@.len(),
    ensures
        r == spec_nonspace_run_end(s@, i as int),
        i <= r <= s@.len(),
{
    let mut j: usize = i;
    while j < s.len()
        invariant
            i <= j <= s@.len(),
            spec_nonspace_run_end(s@, j as int) == spec_nonspace_run_end(s@, i as int),
        decreases s@.len() - j,
    {
        if is_space_char(s[j]) {
            return j;
        }
        j = j + 1;
    }
    j
}

fn tag_run_end(s: &Vec<char>, i: usize) -> (r: usize)
    requires
        i <= s@.len(),
    ensures
        r == spec_tag_run_end(s@, i as int),
        i <= r <= s@.len(),
{
    let mut j: usize = i;
    while j < s.len()
        invariant
            i <= j <= s@.len(),
            spec_tag_run_end(s@, j as int) == spec_tag_run_end(s@, i as int),
        decreases s@.len() - j,
    {
        if !crate::task::is_tag_char(s[j]) {
            return j;
        }
        j = j + 1;
    }
    j
}

fn url_end(s: &Vec<char>, i: usize) -> (r: Option<usize>)
    requires
        i <= s@.len(),
    ensures
        match r {
            Some(e) => spec_url_end(s@, i as int) == Some(e as int) && i < e <= s@.len(),
            None => spec_url_end(s@, i as int) is None,
        },
{
    let j = word_run_end(s, i);
    if j > i && s.len() >= 4 && j <= s.len() - 4 && s[j] == ':' && s[j + 1] == '/' && s[j + 2]
        == '/' && !is_space_char(s[j + 3]) {
        let e = nonspace_run_end(s, j + 3);
        proof {
            lemma_run_ends(s@, j + 3 as int);
        }
        Some(e)
    } else {
        None
    }
}

fn push_chars(out: &mut Vec<char>, piece: &Vec<char>)
    ensures
        final(out)@ == old(out)@ + piece@,
{
    let mut k: usize = 0;
    while k < piece.len()
        invariant
            k <= piece@.len(),
            out@ == old(out)@ + piece@.take(k as int),
        decreases piece@.len() - k,
    {
        out.push(piece[k]);
        proof {
            assert(piece@.take(k + 1) =~= piece@.take(k as int).push(piece@[k as int]));
        }
        k = k + 1;
    }
    proof {
        assert(piece@.take(piece@.len() as int) =~= piece@);
    }
}

#[verifier::rlimit(60)]
#[verifier::loop_isolation(false)]
fn highlight_chars(s: &Vec<char>) -> (out: Vec<char>)
    ensures
        out@ == spec_highlight_from(s@, 0),
{
    let mut out: Vec<char> = Vec::new();
    let mut i: usize = 0;
    while i < s.len()
        invariant
            i <= s@.len(),
            spec_highlight_from(s@, 0) == out@ + spec_highlight_from(s@, i as int),
        decreases s@.len() - i,
    {
        let ghost prev = out@;
        match url_end(s, i) {
            Some(e) => {
                let u = crate::task::subvec(s, i, e);
                let ua = escape_amp_chars(&u);
                out.push('<');
                out.push('a');
                out.push(' ');
                out.push('h');
                out.push('r');
                out.push('e');
                out.push('f');
                out.push('=');
                out.push('"');
                push_chars(&mut out, &ua);
                out.push('"');
                out.push('>');
                push_chars(&mut out, &ua);
                out.push('<');
                out.push('/');
                out.push('a');
                out.push('>');
                proof {
                    assert(out@ =~= prev + spec_link_span(s@.subrange(i as int, e as int)));
                }
                i = e;
            },
            None => {
                let tag_start = (i == 0 || is_space_char(s[i - 1])) && (s[i] == '+' || s[i] == '@')
                    && i + 1 < s.len() && crate::task::is_tag_char(s[i + 1]);
                assert(tag_start == spec_tag_starts(s@, i as int));
                if tag_start {
                    let e = tag_run_end(s, i + 1);
                    let w = crate::task::subvec(s, i, e);
                    out.push('<');
                    out.push('b');
                    out.push('>');
                    push_chars(&mut out, &w);
                    out.push('<');
                    out.push('/');
                    out.push('b');
                    out.push('>');
                    proof {
                        assert(out@ =~= prev + (seq!['<', 'b', '>'] + s@.subrange(
                            i as int,
                            e as int,
                        ) + seq!['<', '/', 'b', '>']));
                    }
                    i = e;
                } else {
                    out.push(s[i]);
                    proof {
                        assert(out@ =~= prev + seq![s@[i as int]]);
                    }
                    i = i + 1;
                }
            },
        }
    }
    out
}

#[verifier::external_type_specification]
#[verifier::external_body]
pub struct ExEvent<'a>(pulldown_cmark::Event<'a>);

#[verifier::external_type_specification]
#[verifier::external_body]
pub struct ExTag<'a>(pulldown_cmark::Tag<'a>);

/// The element kinds the note renderer understands; any other markdown
/// construct is silently dropped.
#[derive(Clone, Debug)]
pub enum TagKind {
    Heading(u32),
    Paragraph,
    CodeBlock,
    Emphasis,
    Strong,
    Item,
    Link(String, String),
    Other,
}

/// One event of the streaming markdown-to-markup conversion.
#[derive(Clone, Debug)]
pub enum NoteEvent {
    Start(TagKind),
    End(TagKind),
    Text(String),
    SoftBreak,
    Other,
}

enum EventClass<'a> {
    Start(pulldown_cmark::Tag<'a>),
    End(pulldown_cmark::Tag<'a>),
    Text(String),
    SoftBreak,
    Other,
}

/// What the markdown parser yields for a text, converted event for event to
/// the library's own kind: a function of the characters alone.
pub uninterp spec fn note_events_of(s: Seq<char>) -> Seq<NoteEvent>;

/// Relies on the shape of pulldown_cmark::Event: tells its variants apart,
/// one arm each, moving the payload.
#[verifier::external_body]
fn event_class<'a>(e: &pulldown_cmark::Event<'a>) -> (r: EventClass<'a>) {
    match e {
        pulldown_cmark::Event::Start(t) => EventClass::Start(t.clone()),
        pulldown_cmark::Event::End(t) => EventClass::End(t.clone()),
        pulldown_cmark::Event::Text(t) => EventClass::Text(t.to_string()),
        pulldown_cmark::Event::SoftBreak => EventClass::SoftBreak,
        _ => EventClass::Other,
    }
}

/// Relies on the shape of pulldown_cmark::Tag: tells its variants apart, one
/// arm per understood kind, moving the heading level (1 to 6 by its source)
/// and the link's destination and title.
#[verifier::external_body]
fn tag_kind(t: &pulldown_cmark::Tag<'_>) -> (r: TagKind) {
    match t {
        pulldown_cmark::Tag::Heading(l, ..) => TagKind::Heading(*l as u32),
        pulldown_cmark::Tag::Paragraph => TagKind::Paragraph,
        pulldown_cmark::Tag::CodeBlock(_) => TagKind::CodeBlock,
        pulldown_cmark::Tag::Emphasis => TagKind::Emphasis,
        pulldown_cmark::Tag::Strong => TagKind::Strong,
        pulldown_cmark::Tag::Item => TagKind::Item,
        pulldown_cmark::Tag::Link(_, d, tt) => TagKind::Link(d.to_string(), tt.to_string()),
        _ => TagKind::Other,
    }
}

fn note_event_of(e: &pulldown_cmark::Event<'_>) -> NoteEvent {
    match event_class(e) {
        EventClass::Start(t) => NoteEvent::Start(tag_kind(&t)),
        EventClass::End(t) => NoteEvent::End(tag_kind(&t)),
        EventClass::Text(s) => NoteEvent::Text(s),
        EventClass::SoftBreak => NoteEvent::SoftBreak,
        EventClass::Other => NoteEvent::Other,
    }
}

/// The markdown events of a note body, as the library's own event kind.
/// Relies on pulldown_cmark::Parser and its Iterator impl: the event stream
/// depends on the text alone; each event is converted by the library's own
/// [`note_event_of`].
#[verifier::external_body]
pub fn note_events(content: &str) -> (r: Vec<NoteEvent>)
    ensures
        r@ == note_events_of(content@),
{
    pulldown_cmark::Parser::new(content).map(|e| note_event_of(&e)).collect()
}

/// The font-size class of a heading level, largest for level 1.
pub open spec fn spec_heading_size(l: u32) -> Seq<char> {
    if l <= 1 {
        seq!['x', '-', 'l', 'a', 'r', 'g', 'e']
    } else if l == 2 {
        seq!['l', 'a', 'r', 'g', 'e']
    } else if l == 3 {
        seq!['m', 'e', 'd', 'i', 'u', 'm']
    } else if l == 4 {
        seq!['s', 'm', 'a', 'l', 'l']
    } else if l == 5 {
        seq!['x', '-', 's', 'm', 'a', 'l', 'l']
    } else {
        seq!['x', 'x', '-', 's', 'm', 'a', 'l', 'l']
    }
}

/// What one event writes into the markup stream.
pub open spec fn spec_event_markup(e: NoteEvent) -> Seq<char> {
    match e {
        NoteEvent::Start(TagKind::Heading(l)) => seq![
            '<',
            's',
            'p',
            'a',
            'n',
            ' ',
            'f',
            'o',
            'n',
            't',
            '_',
            's',
            'i',
            'z',
            'e',
            '=',
            '\'',
        ] + spec_heading_size(l) + seq!['\'', '>', '<', 'u', '>'],
        NoteEvent::End(TagKind::Heading(_)) => seq![
            '<',
            '/',
            'u',
            '>',
            '<',
            '/',
            's',
            'p',
            'a',
            'n',
            '>',
            '\n',
            '\n',
        ],
        NoteEvent::Start(TagKind::Paragraph) => seq!['<', 's', 'p', 'a', 'n', '>'],
        NoteEvent::End(TagKind::Paragraph) => seq!['<', '/', 's', 'p', 'a', 'n', '>', '\n'],
        NoteEvent::Start(TagKind::CodeBlock) => seq!['<', 't', 't', '>'],
        NoteEvent::End(TagKind::CodeBlock) => seq!['<', '/', 't', 't', '>'],
        NoteEvent::Start(TagKind::Emphasis) => seq!['<', 'i', '>'],
        NoteEvent::End(TagKind::Emphasis) => seq!['<', '/', 'i', '>'],
        NoteEvent::Start(TagKind::Strong) => seq!['<', 'b', '>'],
        NoteEvent::End(TagKind::Strong) => seq!['<', '/', 'b', '>'],
        NoteEvent::Start(TagKind::Item) => seq!['\u{2022}', ' '],
        NoteEvent::End(TagKind::Item) => seq!['\n'],
        NoteEvent::SoftBreak => seq!['\n'],
        NoteEvent::Start(TagKind::Link(d, t)) => seq!['<', 'a', ' ', 'h', 'r', 'e', 'f', '=', '\'']
            + d@ + seq!['\'', ' ', 't', 'i', 't', 'l', 'e', '=', '\''] + t@ + seq!['\'', '>'],
        NoteEvent::End(TagKind::Link(_, _)) => seq!['<', '/', 'a', '>'],
        NoteEvent::Text(t) => spec_escape_amp(t@),
        NoteEvent::Start(TagKind::Other) => Seq::empty(),
        NoteEvent::End(TagKind::Other) => Seq::empty(),
        NoteEvent::Other => Seq::empty(),
    }
}

/// The markup of the first `j` events.
pub open spec fn spec_render_events(evs: Seq<NoteEvent>, j: int) -> Seq<char>
    decreases j,
{
    if j <= 0 {
        Seq::empty()
    } else {
        spec_render_events(evs, j - 1) + spec_event_markup(evs[j - 1])
    }
}

/// A rendered note: the converted event stream inside a `<markup>` element.
pub open spec fn spec_note_markup(evs: Seq<NoteEvent>) -> Seq<char> {
    seq!['<', 'm', 'a', 'r', 'k', 'u', 'p', '>'] + spec_render_events(evs, evs.len() as int) + seq![
        '<',
        '/',
        'm',
        'a',
        'r',
        'k',
        'u',
        'p',
        '>',
    ]
}

fn heading_size_chars(l: u32) -> (r: Vec<char>)
    ensures
        r@ == spec_heading_size(l),
{
    let s: &str = if l <= 1 {
        "x-large"
    } else if l == 2 {
        "large"
    } else if l == 3 {
        "medium"
    } else if l == 4 {
        "small"
    } else if l == 5 {
        "x-small"
    } else {
        "xx-small"
    };
    proof {
        reveal_strlit("x-large");
        reveal_strlit("large");
        reveal_strlit("medium");
        reveal_strlit("small");
        reveal_strlit("x-small");
        reveal_strlit("xx-small");
    }
    let r = chars_of(s);
    proof {
        assert(r@ =~= spec_heading_size(l));
    }
    r
}

fn push_str_chars(out: &mut Vec<char>, s: &str)
    ensures
        final(out)@ == old(out)@ + s@,
{
    let piece = chars_of(s);
    push_chars(out, &piece);
}

/// What one event writes, executably.
fn event_markup_chars(e: &NoteEvent) -> (r: Vec<char>)
    ensures
        r@ == spec_event_markup(*e),
{
    let mut out: Vec<char> = Vec::new();
    match e {
        NoteEvent::Start(TagKind::Heading(l)) => {
            proof {
                reveal_strlit("<span font_size='");
                reveal_strlit("'><u>");
            }
            push_str_chars(&mut out, "<span font_size='");
            let size = heading_size_chars(*l);
            push_chars(&mut out, &size);
            push_str_chars(&mut out, "'><u>");
            proof {
                assert(out@ =~= spec_event_markup(*e));
            }
        },
        NoteEvent::End(TagKind::Heading(_)) => {
            proof {
                reveal_strlit("</u></span>\n\n");
            }
            push_str_chars(&mut out, "</u></span>\n\n");
            proof {
                assert(out@ =~= spec_event_markup(*e));
            }
        },
        NoteEvent::Start(TagKind::Paragraph) => {
            proof {
                reveal_strlit("<span>");
            }
            push_str_chars(&mut out, "<span>");
            proof {
                assert(out@ =~= spec_event_markup(*e));
            }
        },
        NoteEvent::End(TagKind::Paragraph) => {
            proof {
                reveal_strlit("</span>\n");
            }
            push_str_chars(&mut out, "</span>\n");
            proof {
                assert(out@ =~= spec_event_markup(*e));
            }
        },
        NoteEvent::Start(TagKind::CodeBlock) => {
            proof {
                reveal_strlit("<tt>");
            }
            push_str_chars(&mut out, "<tt>");
            proof {
                assert(out@ =~= spec_event_markup(*e));
            }
        },
        NoteEvent::End(TagKind::CodeBlock) => {
            proof {
                reveal_strlit("</tt>");
            }
            push_str_chars(&mut out, "</tt>");
            proof {
                assert(out@ =~= spec_event_markup(*e));
            }
        },
        NoteEvent::Start(TagKind::Emphasis) => {
            proof {
                reveal_strlit("<i>");
            }
            push_str_chars(&mut out, "<i>");
            proof {
                assert(out@ =~= spec_event_markup(*e));
            }
        },
        NoteEvent::End(TagKind::Emphasis) => {
            proof {
                reveal_strlit("</i>");
            }
            push_str_chars(&mut out, "</i>");
            proof {
                assert(out@ =~= spec_event_markup(*e));
            }
        },
        NoteEvent::Start(TagKind::Strong) => {
            proof {
                reveal_strlit("<b>");
            }
            push_str_chars(&mut out, "<b>");
            proof {
                assert(out@ =~= spec_event_markup(*e));
            }
        },
        NoteEvent::End(TagKind::Strong) => {
            proof {
                reveal_strlit("</b>");
            }
            push_str_chars(&mut out, "</b>");
            proof {
                assert(out@ =~= spec_event_markup(*e));
            }
        },
        NoteEvent::Start(TagKind::Item) => {
            out.push('\u{2022}');
            out.push(' ');
            proof {
                assert(out@ =~= spec_event_markup(*e));
            }
        },
        NoteEvent::End(TagKind::Item) => {
            out.push('\n');
            proof {
                assert(out@ =~= spec_event_markup(*e));
            }
        },
        NoteEvent::SoftBreak => {
            out.push('\n');
            proof {
                assert(out@ =~= spec_event_markup(*e));
            }
        },
        NoteEvent::Start(TagKind::Link(d, t)) => {
            proof {
                reveal_strlit("<a href='");
                reveal_strlit("' title='");
                reveal_strlit("'>");
            }
            push_str_chars(&mut out, "<a href='");
            let dc = chars_of(d.as_str());
            push_chars(&mut out, &dc);
            push_str_chars(&mut out, "' title='");
            let tc = chars_of(t.as_str());
            push_chars(&mut out, &tc);
            push_str_chars(&mut out, "'>");
            proof {
                assert(out@ =~= spec_event_markup(*e));
            }
        },
        NoteEvent::End(TagKind::Link(_, _)) => {
            proof {
                reveal_strlit("</a>");
            }
            push_str_chars(&mut out, "</a>");
            proof {
                assert(out@ =~= spec_event_markup(*e));
            }
        },
        NoteEvent::Text(t) => {
            let tc = chars_of(t.as_str());
            let ec = escape_amp_chars(&tc);
            push_chars(&mut out, &ec);
            proof {
                assert(out@ =~= spec_event_markup(*e));
            }
        },
        NoteEvent::Start(TagKind::Other) => {
            proof {
                assert(out@ =~= spec_event_markup(*e));
            }
        },
        NoteEvent::End(TagKind::Other) => {
            proof {
                assert(out@ =~= spec_event_markup(*e));
            }
        },
        NoteEvent::Other => {
            proof {
                assert(out@ =~= spec_event_markup(*e));
            }
        },
    }
    out
}

/// Render an event stream, one pass and no look-ahead, as a `<markup>`
/// element; unsupported constructs contribute nothing.
pub fn render_note_events(evs: &Vec<NoteEvent>) -> (r: String)
    ensures
        r@ == spec_note_markup(evs@),
{
    let mut out: Vec<char> = Vec::new();
    proof {
        reveal_strlit("<markup>");
        reveal_strlit("</markup>");
    }
    push_str_chars(&mut out, "<markup>");
    let ghost head = out@;
    let mut i: usize = 0;
    while i < evs.len()
        invariant
            i <= evs@.len(),
            out@ == head + spec_render_events(evs@, i as int),
        decreases evs@.len() - i,
    {
        let piece = event_markup_chars(&evs[i]);
        push_chars(&mut out, &piece);
        i = i + 1;
    }
    push_str_chars(&mut out, "</markup>");
    proof {
        assert(out@ =~= spec_note_markup(evs@));
    }
    string_of(&out)
}

/// Rich-text rendering of a value's note body.
pub trait Markup {
    fn markup(&self) -> Option<String>;
}

impl crate::task::Note {
    /// The note body rendered as markup, or nothing when there is no body.
    /// The markdown events come from the parser; their conversion to markup
    /// is [`render_note_events`].
    pub fn note_markup(&self) -> (r: Option<String>)
        ensures
            r is Some <==> self.content is Some,
            self.content is Some ==> r->Some_0@ == spec_note_markup(
                note_events_of(self.content->Some_0@),
            ),
    {
        match &self.content {
            None => None,
            Some(c) => {
                let evs = note_events(c.as_str());
                Some(render_note_events(&evs))
            },
        }
    }
}

impl Markup for crate::task::Note {
    fn markup(&self) -> Option<String> {
        self.note_markup()
    }
}

impl Task {
    /// The subject escaped for the markup format.
    pub fn markup_escape(text: &str) -> (r: String)
        ensures
            r@ == spec_escape(text@),
    {
        let chars = chars_of(text);
        let escaped = escape_chars(&chars);
        string_of(&escaped)
    }

    /// The subject rendered as markup: escaped text, each URL-shaped
    /// substring one unbroken hyperlink, each `+project`/`@context` token
    /// after start-of-text or whitespace a bold span; a `+` or `@` inside a
    /// URL is never treated as a tag.
    pub fn markup_subject(&self) -> (r: String)
        ensures
            r@ == spec_markup_subject(self@.subject),
    {
        let chars = chars_of(self.subject.as_str());
        let escaped = escape_chars(&chars);
        let highlighted = highlight_chars(&escaped);
        string_of(&highlighted)
    }
}

} // verus!

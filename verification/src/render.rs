//! The annotated Markdown renderer. It folds the parser's event stream
//! into HTML in which every block-level element carries a
//! `data-lines="start-end"` attribute giving the 1-based, inclusive source
//! line span it came from.
//!
//! An element's end line is unknown when its opening tag is written, so
//! the output is built as a list of chunks: literal text, complete line
//! ranges, and *slots* — pending end lines that the matching end event
//! fills in later. A slot that never resolves serialises as a marker
//! token that no Markdown input can fabricate a line number from.
//! Headings divert their inline content into a side buffer so that the
//! anchor id (the slug of their accumulated plain text) can be written
//! together with the content when the heading closes.

use vstd::prelude::*;
use vstd::string::StringSliceAdditionalSpecFns;
use crate::events::MdEvent;
use crate::events::MdEventKind;
use crate::events::MdTag;
use crate::events::MdEnd;
use crate::events::events_of;
use crate::events::event_range_ok;
use crate::events::parse_events;
use crate::image::ImageStore;
use crate::image::spec_images;
use crate::image::spec_resolve_image;
use crate::image::resolve_image_url;
use crate::linemap::line_of_offset;
use crate::linemap::line_at;
use crate::slug::spec_slugify;
use crate::slug::slugify;
use crate::text::spec_dec;
use crate::text::spec_escape;
use crate::text::str_to_chars;
use crate::text::push_str_chars;
use crate::text::push_chars;
use crate::text::push_escaped;
use crate::text::chars_to_string;
use crate::text::push_u128;

verus! {

use vstd::string::StringExecFns;

/// The kinds of container whose end line is backpatched.
#[derive(PartialEq, Eq, Structural, Clone, Copy)]
pub enum SlotKind {
    Bq,
    Math,
    Pre,
    Ol,
    Ul,
    Li,
    Table,
}

/// One piece of the output under construction.
pub enum Chunk {
    /// Literal text, emitted as it stands.
    Text(Vec<char>),
    /// A complete `start-end` line range.
    Range(u128, u128),
    /// A container's line range whose end is still pending (`None`) or
    /// has been resolved (`Some`).
    Slot(SlotKind, u128, Option<u128>),
}

/// The spec-level picture of a chunk.
#[verifier::ext_equal]
pub enum SChunk {
    Text(Seq<char>),
    Range(int, int),
    Slot(SlotKind, int, Option<int>),
}

/// The tags the renderer keeps on its open-container stack.
#[derive(PartialEq, Eq, Structural, Clone, Copy)]
pub enum StackTag {
    Para,
    Heading(u8),
    BlockQuote,
    Math,
    Pre,
    Ol,
    Ul,
    Li,
    Table,
    Thead,
}

/// The renderer's running state.
pub struct RenderState {
    /// The output, as chunks.
    pub out: Vec<Chunk>,
    /// The currently open containers, innermost last.
    pub stack: Vec<StackTag>,
    /// The tag of a block whose opening tag has not been written yet
    /// (a paragraph, written lazily when its content begins).
    pub para_tag: Option<String>,
    /// The start line of the open paragraph.
    pub para_start: Option<u128>,
    /// Whether inline content currently belongs to an open heading.
    pub in_heading: bool,
    /// The start line of the most recent heading.
    pub heading_start: u128,
    /// The heading's rendered inline content.
    pub heading_html: Vec<char>,
    /// The heading's accumulated plain text, the basis of its slug.
    pub heading_text: Vec<char>,
}

/// The spec-level picture of the renderer's state.
#[verifier::ext_equal]
pub struct SState {
    pub out: Seq<SChunk>,
    pub stack: Seq<StackTag>,
    pub para_tag: Option<Seq<char>>,
    pub para_start: Option<int>,
    pub in_heading: bool,
    pub heading_start: int,
    pub heading_html: Seq<char>,
    pub heading_text: Seq<char>,
}

pub open spec fn abs_chunk(c: Chunk) -> SChunk {
    match c {
        Chunk::Text(t) => SChunk::Text(t@),
        Chunk::Range(a, b) => SChunk::Range(a as int, b as int),
        Chunk::Slot(k, a, e) => SChunk::Slot(
            k,
            a as int,
            match e {
                Option::Some(v) => Option::Some(v as int),
                Option::None => Option::None,
            },
        ),
    }
}

pub open spec fn abs_chunks(cs: Seq<Chunk>) -> Seq<SChunk> {
    cs.map_values(|c: Chunk| abs_chunk(c))
}

pub open spec fn abs_opt_line(o: Option<u128>) -> Option<int> {
    match o {
        Option::Some(v) => Option::Some(v as int),
        Option::None => Option::None,
    }
}

pub open spec fn abs_state(r: RenderState) -> SState {
    SState {
        out: abs_chunks(r.out@),
        stack: r.stack@,
        para_tag: match r.para_tag {
            Option::Some(t) => Option::Some(t@),
            Option::None => Option::None,
        },
        para_start: abs_opt_line(r.para_start),
        in_heading: r.in_heading,
        heading_start: r.heading_start as int,
        heading_html: r.heading_html@,
        heading_text: r.heading_text@,
    }
}

/// The state every render starts from.
pub open spec fn init_state() -> SState {
    SState {
        out: Seq::empty(),
        stack: Seq::empty(),
        para_tag: Option::None,
        para_start: Option::None,
        in_heading: false,
        heading_start: 1,
        heading_html: Seq::empty(),
        heading_text: Seq::empty(),
    }
}

/// An end line never before its start line.
pub open spec fn clampe(start: int, end: int) -> int {
    if end < start {
        start
    } else {
        end
    }
}

/// The marker written in place of a still-unknown end line. Double
/// underscores are not representable in rendered Markdown text chunks'
/// line-number positions, and each container kind has its own token.
pub open spec fn placeholder(k: SlotKind) -> Seq<char> {
    match k {
        SlotKind::Bq => "__BQ_END__"@,
        SlotKind::Math => "__MATH_END__"@,
        SlotKind::Pre => "__PRE_END__"@,
        SlotKind::Ol => "__OL_END__"@,
        SlotKind::Ul => "__UL_END__"@,
        SlotKind::Li => "__LI_END__"@,
        SlotKind::Table => "__TABLE_END__"@,
    }
}

/// What one chunk serialises to.
pub open spec fn ser_chunk(c: SChunk) -> Seq<char> {
    match c {
        SChunk::Text(t) => t,
        SChunk::Range(a, b) => spec_dec(a as nat) + seq!['-'] + spec_dec(b as nat),
        SChunk::Slot(k, a, e) => spec_dec(a as nat) + seq!['-'] + match e {
            Option::Some(v) => spec_dec(v as nat),
            Option::None => placeholder(k),
        },
    }
}

/// What a chunk list serialises to.
pub open spec fn ser_chunks(cs: Seq<SChunk>) -> Seq<char>
    decreases cs.len(),
{
    if cs.len() == 0 {
        Seq::empty()
    } else {
        ser_chunks(cs.drop_last()) + ser_chunk(cs.last())
    }
}

/// Whether a chunk is a pending slot of the given kind.
pub open spec fn is_open_slot(c: SChunk, k: SlotKind) -> bool {
    match c {
        SChunk::Slot(k2, _, e) => k2 == k && e is None,
        _ => false,
    }
}

pub open spec fn slot_start(c: SChunk) -> int {
    match c {
        SChunk::Slot(_, a, _) => a,
        _ => 0,
    }
}

/// The index of the rightmost pending slot of a kind, or -1: the nearest
/// unresolved placeholder, as a reverse search of the output would find
/// it.
pub open spec fn last_open_slot(cs: Seq<SChunk>, k: SlotKind) -> int
    decreases cs.len(),
{
    if cs.len() == 0 {
        -1
    } else if is_open_slot(cs.last(), k) {
        cs.len() - 1
    } else {
        last_open_slot(cs.drop_last(), k)
    }
}

/// Fill the rightmost pending slot of a kind with an end line (clamped to
/// its start); with no such slot the output stands unchanged.
pub open spec fn s_resolve(cs: Seq<SChunk>, k: SlotKind, end: int) -> Seq<SChunk> {
    let i = last_open_slot(cs, k);
    if i < 0 {
        cs
    } else {
        cs.update(i, SChunk::Slot(k, slot_start(cs[i]), Option::Some(clampe(slot_start(cs[i]), end))))
    }
}

/// A block's opening tag with its line range, as the pending-tag flush
/// writes it.
pub open spec fn spec_flush_tag(
    cs: Seq<SChunk>,
    tag: Option<Seq<char>>,
    start: Option<int>,
    end: int,
) -> Seq<SChunk> {
    match (tag, start) {
        (Option::Some(t), Option::Some(a)) => cs + seq![
            SChunk::Text("<"@ + t + " data-lines=\""@),
            SChunk::Range(a, clampe(a, end)),
            SChunk::Text("\">"@),
        ],
        _ => cs,
    }
}

/// Route a finished piece of markup: into the heading's side buffer while
/// a heading is open, into the output otherwise.
pub open spec fn s_route(s: SState, t: Seq<char>) -> SState {
    if s.in_heading {
        SState { heading_html: s.heading_html + t, ..s }
    } else {
        SState { out: s.out.push(SChunk::Text(t)), ..s }
    }
}

/// Route an inline element's opening markup: as `s_route`, but outside a
/// heading the enclosing block's own opening tag is flushed first.
pub open spec fn s_open(s: SState, t: Seq<char>, end: int) -> SState {
    if s.in_heading {
        SState { heading_html: s.heading_html + t, ..s }
    } else if s.para_tag is Some {
        SState {
            out: spec_flush_tag(s.out, s.para_tag, s.para_start, end).push(SChunk::Text(t)),
            para_tag: Option::None,
            ..s
        }
    } else {
        SState { out: s.out.push(SChunk::Text(t)), ..s }
    }
}

/// Pop the innermost open container, if any.
pub open spec fn s_pop(stack: Seq<StackTag>) -> Seq<StackTag> {
    if stack.len() > 0 {
        stack.drop_last()
    } else {
        stack
    }
}

/// The name of a heading tag: `h` followed by the level.
pub open spec fn htag(level: u8) -> Seq<char> {
    seq!['h'] + spec_dec(level as nat)
}

pub open spec fn s_start_para(s: SState, start: int) -> SState {
    SState {
        para_tag: Option::Some("p"@),
        para_start: Option::Some(start),
        stack: s.stack.push(StackTag::Para),
        ..s
    }
}

pub open spec fn s_end_para(s: SState, end: int) -> SState {
    let out1 = if s.para_start is Some && s.para_tag is Some {
        s.out + seq![
            SChunk::Text("<p data-lines=\""@),
            SChunk::Range(s.para_start->0, clampe(s.para_start->0, end)),
            SChunk::Text("\">"@),
        ]
    } else {
        s.out
    };
    SState {
        out: out1.push(SChunk::Text("</p>\n"@)),
        para_start: Option::None,
        para_tag: Option::None,
        stack: s_pop(s.stack),
        ..s
    }
}

pub open spec fn s_start_heading(s: SState, level: u8, start: int) -> SState {
    SState {
        in_heading: true,
        heading_start: start,
        heading_html: Seq::empty(),
        heading_text: Seq::empty(),
        stack: s.stack.push(StackTag::Heading(level)),
        ..s
    }
}

pub open spec fn s_end_heading(s: SState, level: u8, end: int) -> SState {
    let opening = "<"@ + htag(level) + " id=\""@ + spec_slugify(s.heading_text)
        + "\" data-lines=\""@;
    let closing = "\">"@ + s.heading_html + "</"@ + htag(level) + ">\n"@;
    SState {
        out: s.out + seq![
            SChunk::Text(opening),
            SChunk::Range(s.heading_start, clampe(s.heading_start, end)),
            SChunk::Text(closing),
        ],
        in_heading: false,
        stack: s_pop(s.stack),
        ..s
    }
}

/// The opening of a backpatched container: its prefix, a pending slot,
/// and the end of its opening tag.
pub open spec fn s_open_slot(
    s: SState,
    prefix: Seq<char>,
    k: SlotKind,
    start: int,
    suffix: Seq<char>,
    tag: StackTag,
) -> SState {
    SState {
        out: s.out + seq![
            SChunk::Text(prefix),
            SChunk::Slot(k, start, Option::None),
            SChunk::Text(suffix),
        ],
        stack: s.stack.push(tag),
        ..s
    }
}

pub open spec fn s_close_slot(s: SState, k: SlotKind, end: int, closing: Seq<char>) -> SState {
    SState {
        out: s_resolve(s.out, k, end).push(SChunk::Text(closing)),
        stack: s_pop(s.stack),
        ..s
    }
}

pub open spec fn s_start_code(s: SState, fence: Option<String>, start: int) -> SState {
    let lang: Option<Seq<char>> = match fence {
        Option::Some(l) => if l@.len() > 0 {
            Option::Some(l@)
        } else {
            Option::None
        },
        Option::None => Option::None,
    };
    match lang {
        Option::Some(l) => {
            if l == "math"@ {
                s_open_slot(
                    s,
                    "<div class=\"math-block\" data-lines=\""@,
                    SlotKind::Math,
                    start,
                    "\">$$"@,
                    StackTag::Math,
                )
            } else {
                s_open_slot(
                    s,
                    "<pre data-lines=\""@,
                    SlotKind::Pre,
                    start,
                    "\"><code class=\"language-"@ + l + "\">"@,
                    StackTag::Pre,
                )
            }
        },
        Option::None => s_open_slot(
            s,
            "<pre data-lines=\""@,
            SlotKind::Pre,
            start,
            "\"><code>"@,
            StackTag::Pre,
        ),
    }
}

pub open spec fn s_end_code(s: SState, end: int) -> SState {
    let was_math = s.stack.len() > 0 && s.stack.last() == StackTag::Math;
    let popped = SState { stack: s_pop(s.stack), ..s };
    if was_math {
        SState {
            out: s_resolve(popped.out.push(SChunk::Text("$$</div>\n"@)), SlotKind::Math, end + 1),
            ..popped
        }
    } else {
        SState {
            out: s_resolve(
                popped.out.push(SChunk::Text("</code></pre>\n"@)),
                SlotKind::Pre,
                end + 1,
            ),
            ..popped
        }
    }
}

pub open spec fn s_text_ev(s: SState, t: Seq<char>, end: int) -> SState {
    if s.in_heading {
        SState {
            heading_html: s.heading_html + spec_escape(t),
            heading_text: s.heading_text + t,
            ..s
        }
    } else {
        s_open(s, spec_escape(t), end)
    }
}

pub open spec fn s_code_ev(s: SState, t: Seq<char>, end: int) -> SState {
    let markup = "<code>"@ + spec_escape(t) + "</code>"@;
    if s.in_heading {
        SState { heading_html: s.heading_html + markup, heading_text: s.heading_text + t, ..s }
    } else {
        s_open(s, markup, end)
    }
}

/// A link's opening markup, written as it stands in the source.
pub open spec fn link_markup(dest: Seq<char>, title: Seq<char>) -> Seq<char> {
    if title.len() == 0 {
        "<a href=\""@ + dest + "\">"@
    } else {
        "<a href=\""@ + dest + "\" title=\""@ + title + "\">"@
    }
}

/// An image's opening markup, with its reference resolved; the alt text
/// follows as ordinary content until the image closes.
pub open spec fn image_markup(resolved: Seq<char>, title: Seq<char>) -> Seq<char> {
    if title.len() == 0 {
        "<img src=\""@ + resolved + "\" alt=\""@
    } else {
        "<img src=\""@ + resolved + "\" alt=\""@ + "\" title=\""@ + title + "\""@
    }
}

pub open spec fn footnote_markup(name: Seq<char>) -> Seq<char> {
    "<sup class=\"footnote-ref\"><a href=\"#fn-"@ + name + "\">["@ + name + "]</a></sup>"@
}

pub open spec fn task_markup(checked: bool) -> Seq<char> {
    if checked {
        "<input type=\"checkbox\" checked disabled /> "@
    } else {
        "<input type=\"checkbox\" disabled /> "@
    }
}

/// Whether a table cell falls inside an open table head.
pub open spec fn in_thead(stack: Seq<StackTag>) -> bool {
    stack.contains(StackTag::Thead)
}

/// One step of the renderer: the state after handling one event.
pub open spec fn sstep(
    s: SState,
    ev: MdEvent,
    bytes: Seq<u8>,
    images: Option<Seq<(String, Vec<u8>)>>,
) -> SState {
    let start = line_of_offset(bytes, ev.start as int);
    let end = line_of_offset(bytes, ev.end as int);
    match ev.kind {
        MdEventKind::Start(tag) => match tag {
            MdTag::Paragraph => s_start_para(s, start),
            MdTag::Heading(level) => s_start_heading(s, level, start),
            MdTag::BlockQuote => s_open_slot(
                s,
                "<blockquote data-lines=\""@,
                SlotKind::Bq,
                start,
                "\">"@,
                StackTag::BlockQuote,
            ),
            MdTag::CodeBlock(fence) => s_start_code(s, fence, start),
            MdTag::List(first) => if first is Some {
                s_open_slot(s, "<ol data-lines=\""@, SlotKind::Ol, start, "\">"@, StackTag::Ol)
            } else {
                s_open_slot(s, "<ul data-lines=\""@, SlotKind::Ul, start, "\">"@, StackTag::Ul)
            },
            MdTag::Item => s_open_slot(
                s,
                "<li data-lines=\""@,
                SlotKind::Li,
                start,
                "\">"@,
                StackTag::Li,
            ),
            MdTag::Table => s_open_slot(
                s,
                "<table data-lines=\""@,
                SlotKind::Table,
                start,
                "\">"@,
                StackTag::Table,
            ),
            MdTag::TableHead => SState {
                out: s.out.push(SChunk::Text("<thead><tr>"@)),
                stack: s.stack.push(StackTag::Thead),
                ..s
            },
            MdTag::TableRow => SState { out: s.out.push(SChunk::Text("<tr>"@)), ..s },
            MdTag::TableCell => if in_thead(s.stack) {
                SState { out: s.out.push(SChunk::Text("<th>"@)), ..s }
            } else {
                SState { out: s.out.push(SChunk::Text("<td>"@)), ..s }
            },
            MdTag::Emphasis => s_open(s, "<em>"@, end),
            MdTag::Strong => s_open(s, "<strong>"@, end),
            MdTag::Strikethrough => s_open(s, "<del>"@, end),
            MdTag::Link(dest, title) => s_open(s, link_markup(dest@, title@), end),
            MdTag::Image(dest, title) => s_open(
                s,
                image_markup(spec_resolve_image(dest@, images), title@),
                end,
            ),
            MdTag::Other => s,
        },
        MdEventKind::End(endtag) => match endtag {
            MdEnd::Paragraph => s_end_para(s, end),
            MdEnd::Heading(level) => s_end_heading(s, level, end),
            MdEnd::BlockQuote => s_close_slot(s, SlotKind::Bq, end, "</blockquote>\n"@),
            MdEnd::CodeBlock => s_end_code(s, end),
            MdEnd::List(ordered) => if ordered {
                s_close_slot(s, SlotKind::Ol, end, "</ol>"@)
            } else {
                s_close_slot(s, SlotKind::Ul, end, "</ul>"@)
            },
            MdEnd::Item => s_close_slot(s, SlotKind::Li, end, "</li>\n"@),
            MdEnd::Table => s_close_slot(s, SlotKind::Table, end, "</table>\n"@),
            MdEnd::TableHead => SState {
                out: s.out.push(SChunk::Text("</tr></thead>"@)),
                stack: s_pop(s.stack),
                ..s
            },
            MdEnd::TableRow => SState { out: s.out.push(SChunk::Text("</tr>"@)), ..s },
            MdEnd::TableCell => if in_thead(s.stack) {
                SState { out: s.out.push(SChunk::Text("</th>"@)), ..s }
            } else {
                SState { out: s.out.push(SChunk::Text("</td>"@)), ..s }
            },
            MdEnd::Emphasis => s_route(s, "</em>"@),
            MdEnd::Strong => s_route(s, "</strong>"@),
            MdEnd::Strikethrough => s_route(s, "</del>"@),
            MdEnd::Link => s_route(s, "</a>"@),
            MdEnd::Image => s_route(s, "\" />"@),
            MdEnd::Other => s,
        },
        MdEventKind::Text(t) => s_text_ev(s, t@, end),
        MdEventKind::Code(t) => s_code_ev(s, t@, end),
        MdEventKind::Html(h) => SState { out: s.out.push(SChunk::Text(h@)), ..s },
        MdEventKind::FootnoteRef(name) => SState {
            out: s.out.push(SChunk::Text(footnote_markup(name@))),
            ..s
        },
        MdEventKind::SoftBreak => s_route(s, "\n"@),
        MdEventKind::HardBreak => s_route(s, "<br />\n"@),
        MdEventKind::Rule => SState {
            out: s.out + seq![
                SChunk::Text("<hr data-lines=\""@),
                SChunk::Range(start, clampe(start, end)),
                SChunk::Text("\" />"@),
            ],
            ..s
        },
        MdEventKind::TaskMarker(checked) => SState {
            out: s.out.push(SChunk::Text(task_markup(checked))),
            ..s
        },
        MdEventKind::Other => s,
    }
}

/// The state after the first `n` events.
pub open spec fn srun(
    events: Seq<MdEvent>,
    n: int,
    bytes: Seq<u8>,
    images: Option<Seq<(String, Vec<u8>)>>,
) -> SState
    decreases n,
{
    if n <= 0 {
        init_state()
    } else {
        sstep(srun(events, n - 1, bytes, images), events[n - 1], bytes, images)
    }
}

/// The HTML the renderer produces for a source text: the serialisation of
/// the chunks after every event of its stream has been handled.
pub open spec fn spec_markdown_html(
    source: Seq<char>,
    images: Option<Seq<(String, Vec<u8>)>>,
) -> Seq<char> {
    let events = events_of(source);
    let bytes = vstd::utf8::encode_utf8(source);
    ser_chunks(srun(events, events.len() as int, bytes, images).out)
}

impl RenderState {
    /// A renderer with nothing rendered yet.
    pub fn new() -> (r: RenderState)
        ensures
            abs_state(r) == init_state(),
    {
        let r = RenderState {
            out: Vec::new(),
            stack: Vec::new(),
            para_tag: None,
            para_start: None,
            in_heading: false,
            heading_start: 1,
            heading_html: Vec::new(),
            heading_text: Vec::new(),
        };
        proof {
            assert(abs_state(r) =~~= init_state());
        }
        r
    }
}

/// Write a block's pending opening tag into the output, its range
/// running from the block's start line to the line reached by the inline
/// event that triggered the flush. Nothing is written when no tag or no
/// start line is pending.
pub fn flush_pending_tag(
    output: &mut Vec<Chunk>,
    tag: &Option<String>,
    start_line: Option<u128>,
    end_line: u128,
)
    ensures
        abs_chunks(final(output)@) == spec_flush_tag(
            abs_chunks(old(output)@),
            match tag {
                Option::Some(t) => Option::Some(t@),
                Option::None => Option::None,
            },
            abs_opt_line(start_line),
            end_line as int,
        ),
{
    let ghost before = abs_chunks(output@);
    match (tag, start_line) {
        (Some(t), Some(start)) => {
            let mut opening: Vec<char> = Vec::new();
            push_str_chars(&mut opening, "<");
            push_str_chars(&mut opening, t.as_str());
            push_str_chars(&mut opening, " data-lines=\"");
            output.push(Chunk::Text(opening));
            let end = if end_line < start {
                start
            } else {
                end_line
            };
            output.push(Chunk::Range(start, end));
            output.push(Chunk::Text(str_to_chars("\">")));
            proof {
                assert(abs_chunks(output@) =~~= spec_flush_tag(
                    before,
                    Option::Some(t@),
                    Option::Some(start as int),
                    end_line as int,
                ));
            }
        },
        _ => {
            proof {
                assert(abs_chunks(output@) =~~= before);
            }
        },
    }
}

/// Append a finished piece of markup: to the heading's side buffer while
/// a heading is open, to the output otherwise.
fn route_piece(st: &mut RenderState, piece: Vec<char>)
    ensures
        abs_state(*final(st)) == s_route(abs_state(*old(st)), piece@),
{
    if st.in_heading {
        push_chars(&mut st.heading_html, &piece);
    } else {
        st.out.push(Chunk::Text(piece));
    }
    proof {
        assert(abs_state(*st) =~~= s_route(abs_state(*old(st)), piece@));
    }
}

/// Append an inline element's opening markup, flushing the enclosing
/// block's pending tag first when outside a heading.
fn open_piece(st: &mut RenderState, piece: Vec<char>, end: u128)
    ensures
        abs_state(*final(st)) == s_open(abs_state(*old(st)), piece@, end as int),
{
    if st.in_heading {
        push_chars(&mut st.heading_html, &piece);
    } else {
        if st.para_tag.is_some() {
            flush_pending_tag(&mut st.out, &st.para_tag, st.para_start, end);
            st.para_tag = None;
        }
        st.out.push(Chunk::Text(piece));
    }
    proof {
        assert(abs_state(*st) =~~= s_open(abs_state(*old(st)), piece@, end as int));
    }
}

proof fn lemma_last_open_slot_at(cs: Seq<SChunk>, k: SlotKind, i: int)
    requires
        -1 <= i < cs.len(),
        i >= 0 ==> is_open_slot(cs[i], k),
        forall|j: int| i < j < cs.len() ==> !is_open_slot(#[trigger] cs[j], k),
    ensures
        last_open_slot(cs, k) == i,
    decreases cs.len(),
{
    if cs.len() > 0 && !is_open_slot(cs.last(), k) {
        assert(forall|j: int| 0 <= j < cs.len() - 1 ==> cs[j] == #[trigger] cs.drop_last()[j]);
        lemma_last_open_slot_at(cs.drop_last(), k, i);
    }
}

/// Fill the rightmost pending slot of a kind with the end line now known,
/// clamped to the slot's own start; with no such slot nothing changes.
fn resolve_slot(output: &mut Vec<Chunk>, k: SlotKind, end_line: u128)
    ensures
        abs_chunks(final(output)@) == s_resolve(abs_chunks(old(output)@), k, end_line as int),
{
    let ghost before = abs_chunks(output@);
    let mut i = output.len();
    while i > 0
        invariant
            i <= output@.len(),
            output@ == old(output)@,
            before == abs_chunks(output@),
            forall|j: int| i <= j < before.len() ==> !is_open_slot(#[trigger] before[j], k),
        decreases i,
    {
        i = i - 1;
        let hit = match &output[i] {
            Chunk::Slot(k2, _, e) => *k2 == k && e.is_none(),
            _ => false,
        };
        if hit {
            let start: u128 = match &output[i] {
                Chunk::Slot(_, a, _) => *a,
                _ => 0,
            };
            let newend = if end_line < start {
                start
            } else {
                end_line
            };
            output[i] = Chunk::Slot(k, start, Some(newend));
            proof {
                lemma_last_open_slot_at(before, k, i as int);
                assert(abs_chunks(output@) =~~= s_resolve(before, k, end_line as int));
            }
            return;
        }
    }
    proof {
        lemma_last_open_slot_at(before, k, -1);
    }
}

/// Open a backpatched container: prefix, pending slot, tag suffix.
fn open_slot(
    st: &mut RenderState,
    prefix: &str,
    k: SlotKind,
    start: u128,
    suffix: Vec<char>,
    tag: StackTag,
)
    ensures
        abs_state(*final(st)) == s_open_slot(
            abs_state(*old(st)),
            prefix@,
            k,
            start as int,
            suffix@,
            tag,
        ),
{
    st.out.push(Chunk::Text(str_to_chars(prefix)));
    st.out.push(Chunk::Slot(k, start, None));
    st.out.push(Chunk::Text(suffix));
    st.stack.push(tag);
    proof {
        assert(abs_state(*st) =~~= s_open_slot(
            abs_state(*old(st)),
            prefix@,
            k,
            start as int,
            suffix@,
            tag,
        ));
    }
}

/// Close a backpatched container: fill its slot and write its closing
/// tag.
fn close_slot(st: &mut RenderState, k: SlotKind, end: u128, closing: &str)
    ensures
        abs_state(*final(st)) == s_close_slot(abs_state(*old(st)), k, end as int, closing@),
{
    resolve_slot(&mut st.out, k, end);
    st.out.push(Chunk::Text(str_to_chars(closing)));
    let _ = st.stack.pop();
    proof {
        assert(abs_state(*st) =~~= s_close_slot(abs_state(*old(st)), k, end as int, closing@));
    }
}

/// The name of a heading tag.
fn heading_tag_chars(level: u8) -> (v: Vec<char>)
    ensures
        v@ == htag(level),
{
    let mut v: Vec<char> = Vec::new();
    v.push('h');
    let mut digits = crate::text::u64_to_chars(level as u64);
    v.append(&mut digits);
    proof {
        assert(v@ =~= htag(level));
    }
    v
}

/// Handle one event: the exact mirror of one `sstep`.
#[verifier::rlimit(30)]
fn render_step(st: &mut RenderState, ev: &MdEvent, bytes: &[u8], images: Option<&ImageStore>)
    ensures
        abs_state(*final(st)) == sstep(abs_state(*old(st)), *ev, bytes@, spec_images(images)),
{
    let blen = bytes.len();
    let start = line_at(bytes, ev.start);
    let end = line_at(bytes, ev.end);
    proof {
        crate::linemap::lemma_line_bounds(bytes@, ev.end as int);
        assert(end as int <= 1 + blen as int);
    }
    match &ev.kind {
        MdEventKind::Start(tag) => match tag {
            MdTag::Paragraph => {
                st.para_tag = Some(String::from_str("p"));
                st.para_start = Some(start);
                st.stack.push(StackTag::Para);
            },
            MdTag::Heading(level) => {
                st.in_heading = true;
                st.heading_start = start;
                st.heading_html = Vec::new();
                st.heading_text = Vec::new();
                st.stack.push(StackTag::Heading(*level));
            },
            MdTag::BlockQuote => {
                open_slot(
                    st,
                    "<blockquote data-lines=\"",
                    SlotKind::Bq,
                    start,
                    str_to_chars("\">"),
                    StackTag::BlockQuote,
                );
            },
            MdTag::CodeBlock(fence) => {
                let lang: Option<&String> = match fence {
                    Some(l) => if l.as_str().is_empty() {
                        None
                    } else {
                        Some(l)
                    },
                    None => None,
                };
                match lang {
                    Some(l) => {
                        let lchars = str_to_chars(l.as_str());
                        if crate::text::chars_eq_str(&lchars, "math") {
                            open_slot(
                                st,
                                "<div class=\"math-block\" data-lines=\"",
                                SlotKind::Math,
                                start,
                                str_to_chars("\">$$"),
                                StackTag::Math,
                            );
                        } else {
                            let mut suffix = str_to_chars("\"><code class=\"language-");
                            push_chars(&mut suffix, &lchars);
                            push_str_chars(&mut suffix, "\">");
                            open_slot(
                                st,
                                "<pre data-lines=\"",
                                SlotKind::Pre,
                                start,
                                suffix,
                                StackTag::Pre,
                            );
                        }
                    },
                    None => {
                        open_slot(
                            st,
                            "<pre data-lines=\"",
                            SlotKind::Pre,
                            start,
                            str_to_chars("\"><code>"),
                            StackTag::Pre,
                        );
                    },
                }
            },
            MdTag::List(first) => {
                if first.is_some() {
                    open_slot(
                        st,
                        "<ol data-lines=\"",
                        SlotKind::Ol,
                        start,
                        str_to_chars("\">"),
                        StackTag::Ol,
                    );
                } else {
                    open_slot(
                        st,
                        "<ul data-lines=\"",
                        SlotKind::Ul,
                        start,
                        str_to_chars("\">"),
                        StackTag::Ul,
                    );
                }
            },
            MdTag::Item => {
                open_slot(
                    st,
                    "<li data-lines=\"",
                    SlotKind::Li,
                    start,
                    str_to_chars("\">"),
                    StackTag::Li,
                );
            },
            MdTag::Table => {
                open_slot(
                    st,
                    "<table data-lines=\"",
                    SlotKind::Table,
                    start,
                    str_to_chars("\">"),
                    StackTag::Table,
                );
            },
            MdTag::TableHead => {
                st.out.push(Chunk::Text(str_to_chars("<thead><tr>")));
                st.stack.push(StackTag::Thead);
            },
            MdTag::TableRow => {
                st.out.push(Chunk::Text(str_to_chars("<tr>")));
            },
            MdTag::TableCell => {
                if stack_has_thead(&st.stack) {
                    st.out.push(Chunk::Text(str_to_chars("<th>")));
                } else {
                    st.out.push(Chunk::Text(str_to_chars("<td>")));
                }
            },
            MdTag::Emphasis => {
                open_piece(st, str_to_chars("<em>"), end);
            },
            MdTag::Strong => {
                open_piece(st, str_to_chars("<strong>"), end);
            },
            MdTag::Strikethrough => {
                open_piece(st, str_to_chars("<del>"), end);
            },
            MdTag::Link(dest, title) => {
                let mut piece = str_to_chars("<a href=\"");
                push_str_chars(&mut piece, dest.as_str());
                if title.as_str().is_empty() {
                    push_str_chars(&mut piece, "\">");
                } else {
                    push_str_chars(&mut piece, "\" title=\"");
                    push_str_chars(&mut piece, title.as_str());
                    push_str_chars(&mut piece, "\">");
                }
                proof {
                    assert(piece@ =~= link_markup(dest@, title@));
                }
                open_piece(st, piece, end);
            },
            MdTag::Image(dest, title) => {
                let resolved = resolve_image_url(dest.as_str(), images);
                let mut piece = str_to_chars("<img src=\"");
                push_str_chars(&mut piece, resolved.as_str());
                push_str_chars(&mut piece, "\" alt=\"");
                if !title.as_str().is_empty() {
                    push_str_chars(&mut piece, "\" title=\"");
                    push_str_chars(&mut piece, title.as_str());
                    push_str_chars(&mut piece, "\"");
                }
                proof {
                    assert(piece@ =~= image_markup(
                        spec_resolve_image(dest@, spec_images(images)),
                        title@,
                    ));
                }
                open_piece(st, piece, end);
            },
            MdTag::Other => {},
        },
        MdEventKind::End(endtag) => match endtag {
            MdEnd::Paragraph => {
                if st.para_start.is_some() && st.para_tag.is_some() {
                    let a = st.para_start.unwrap();
                    let opening = str_to_chars("<p data-lines=\"");
                    st.out.push(Chunk::Text(opening));
                    let e = if end < a {
                        a
                    } else {
                        end
                    };
                    st.out.push(Chunk::Range(a, e));
                    st.out.push(Chunk::Text(str_to_chars("\">")));
                }
                st.out.push(Chunk::Text(str_to_chars("</p>\n")));
                st.para_start = None;
                st.para_tag = None;
                let _ = st.stack.pop();
            },
            MdEnd::Heading(level) => {
                let text_s = chars_to_string(&st.heading_text);
                let slug = slugify(text_s.as_str());
                let tagname = heading_tag_chars(*level);
                let mut opening = str_to_chars("<");
                push_chars(&mut opening, &tagname);
                push_str_chars(&mut opening, " id=\"");
                push_str_chars(&mut opening, slug.as_str());
                push_str_chars(&mut opening, "\" data-lines=\"");
                st.out.push(Chunk::Text(opening));
                let a = st.heading_start;
                let e = if end < a {
                    a
                } else {
                    end
                };
                st.out.push(Chunk::Range(a, e));
                let mut closing = str_to_chars("\">");
                push_chars(&mut closing, &st.heading_html);
                push_str_chars(&mut closing, "</");
                push_chars(&mut closing, &tagname);
                push_str_chars(&mut closing, ">\n");
                st.out.push(Chunk::Text(closing));
                st.in_heading = false;
                let _ = st.stack.pop();
            },
            MdEnd::BlockQuote => {
                close_slot(st, SlotKind::Bq, end, "</blockquote>\n");
            },
            MdEnd::CodeBlock => {
                let ghost out0 = abs_chunks(st.out@);
                let was_math = match st.stack.pop() {
                    Some(StackTag::Math) => true,
                    _ => false,
                };
                if was_math {
                    st.out.push(Chunk::Text(str_to_chars("$$</div>\n")));
                    proof {
                        assert(abs_chunks(st.out@) =~= out0.push(SChunk::Text("$$</div>\n"@)));
                    }
                    resolve_slot(&mut st.out, SlotKind::Math, end + 1);
                } else {
                    st.out.push(Chunk::Text(str_to_chars("</code></pre>\n")));
                    proof {
                        assert(abs_chunks(st.out@) =~= out0.push(
                            SChunk::Text("</code></pre>\n"@),
                        ));
                    }
                    resolve_slot(&mut st.out, SlotKind::Pre, end + 1);
                }
            },
            MdEnd::List(ordered) => {
                if *ordered {
                    close_slot(st, SlotKind::Ol, end, "</ol>");
                } else {
                    close_slot(st, SlotKind::Ul, end, "</ul>");
                }
            },
            MdEnd::Item => {
                close_slot(st, SlotKind::Li, end, "</li>\n");
            },
            MdEnd::Table => {
                close_slot(st, SlotKind::Table, end, "</table>\n");
            },
            MdEnd::TableHead => {
                st.out.push(Chunk::Text(str_to_chars("</tr></thead>")));
                let _ = st.stack.pop();
            },
            MdEnd::TableRow => {
                st.out.push(Chunk::Text(str_to_chars("</tr>")));
            },
            MdEnd::TableCell => {
                if stack_has_thead(&st.stack) {
                    st.out.push(Chunk::Text(str_to_chars("</th>")));
                } else {
                    st.out.push(Chunk::Text(str_to_chars("</td>")));
                }
            },
            MdEnd::Emphasis => {
                route_piece(st, str_to_chars("</em>"));
            },
            MdEnd::Strong => {
                route_piece(st, str_to_chars("</strong>"));
            },
            MdEnd::Strikethrough => {
                route_piece(st, str_to_chars("</del>"));
            },
            MdEnd::Link => {
                route_piece(st, str_to_chars("</a>"));
            },
            MdEnd::Image => {
                route_piece(st, str_to_chars("\" />"));
            },
            MdEnd::Other => {},
        },
        MdEventKind::Text(t) => {
            let tchars = str_to_chars(t.as_str());
            if st.in_heading {
                push_escaped(&mut st.heading_html, &tchars);
                push_chars(&mut st.heading_text, &tchars);
            } else {
                let mut piece: Vec<char> = Vec::new();
                push_escaped(&mut piece, &tchars);
                open_piece(st, piece, end);
            }
        },
        MdEventKind::Code(t) => {
            let tchars = str_to_chars(t.as_str());
            let mut markup = str_to_chars("<code>");
            push_escaped(&mut markup, &tchars);
            push_str_chars(&mut markup, "</code>");
            if st.in_heading {
                push_chars(&mut st.heading_html, &markup);
                push_chars(&mut st.heading_text, &tchars);
            } else {
                open_piece(st, markup, end);
            }
        },
        MdEventKind::Html(h) => {
            st.out.push(Chunk::Text(str_to_chars(h.as_str())));
        },
        MdEventKind::FootnoteRef(name) => {
            let mut piece = str_to_chars("<sup class=\"footnote-ref\"><a href=\"#fn-");
            push_str_chars(&mut piece, name.as_str());
            push_str_chars(&mut piece, "\">[");
            push_str_chars(&mut piece, name.as_str());
            push_str_chars(&mut piece, "]</a></sup>");
            proof {
                assert(piece@ =~= footnote_markup(name@));
            }
            st.out.push(Chunk::Text(piece));
        },
        MdEventKind::SoftBreak => {
            route_piece(st, str_to_chars("\n"));
        },
        MdEventKind::HardBreak => {
            route_piece(st, str_to_chars("<br />\n"));
        },
        MdEventKind::Rule => {
            st.out.push(Chunk::Text(str_to_chars("<hr data-lines=\"")));
            let e = if end < start {
                start
            } else {
                end
            };
            st.out.push(Chunk::Range(start, e));
            st.out.push(Chunk::Text(str_to_chars("\" />")));
        },
        MdEventKind::TaskMarker(checked) => {
            if *checked {
                st.out.push(Chunk::Text(str_to_chars("<input type=\"checkbox\" checked disabled /> ")));
            } else {
                st.out.push(Chunk::Text(str_to_chars("<input type=\"checkbox\" disabled /> ")));
            }
        },
        MdEventKind::Other => {},
    }
    proof {
        assert(abs_state(*st) =~~= sstep(abs_state(*old(st)), *ev, bytes@, spec_images(images)));
    }
}

fn placeholder_str(k: SlotKind) -> (s: &'static str)
    ensures
        s@ == placeholder(k),
{
    match k {
        SlotKind::Bq => "__BQ_END__",
        SlotKind::Math => "__MATH_END__",
        SlotKind::Pre => "__PRE_END__",
        SlotKind::Ol => "__OL_END__",
        SlotKind::Ul => "__UL_END__",
        SlotKind::Li => "__LI_END__",
        SlotKind::Table => "__TABLE_END__",
    }
}

/// Write the chunks out as one text.
fn serialize_chunks(out: &Vec<Chunk>) -> (r: Vec<char>)
    ensures
        r@ == ser_chunks(abs_chunks(out@)),
{
    let mut r: Vec<char> = Vec::new();
    let n = out.len();
    proof {
        assert(abs_chunks(out@).take(0) =~= Seq::<SChunk>::empty());
    }
    for i in 0..n
        invariant
            n == out@.len(),
            r@ == ser_chunks(abs_chunks(out@).take(i as int)),
    {
        let ghost pre = abs_chunks(out@).take(i as int);
        match &out[i] {
            Chunk::Text(t) => {
                push_chars(&mut r, t);
            },
            Chunk::Range(a, b) => {
                push_u128(&mut r, *a);
                r.push('-');
                push_u128(&mut r, *b);
            },
            Chunk::Slot(k, a, e) => {
                push_u128(&mut r, *a);
                r.push('-');
                match e {
                    Some(v) => push_u128(&mut r, *v),
                    None => push_str_chars(&mut r, placeholder_str(*k)),
                }
            },
        }
        proof {
            assert(abs_chunks(out@).take(i + 1).drop_last() =~= pre);
            assert(abs_chunks(out@).take(i + 1).last() == abs_chunk(out@[i as int]));
            assert(r@ =~= ser_chunks(abs_chunks(out@).take(i + 1)));
        }
    }
    proof {
        assert(abs_chunks(out@).take(n as int) =~= abs_chunks(out@));
    }
    r
}

/// Render a Markdown source to HTML in which every block-level element
/// carries the inclusive, 1-based source line range it came from. Images
/// are resolved against the files in `images`; with none at hand,
/// relative references pass through unresolved. Malformed Markdown is
/// never an error: every event stream renders.
pub fn markdown_to_html(markdown: &str, images: Option<&ImageStore>) -> (r: String)
    ensures
        r@ == spec_markdown_html(markdown@, spec_images(images)),
{
    let events = parse_events(markdown);
    let bytes = markdown.as_bytes();
    let mut st = RenderState::new();
    let n = events.len();
    for i in 0..n
        invariant
            n == events@.len(),
            events@ == events_of(markdown@),
            bytes@ == vstd::utf8::encode_utf8(markdown@),
            abs_state(st) == srun(events@, i as int, bytes@, spec_images(images)),
    {
        render_step(&mut st, &events[i], bytes, images);
    }
    let out = serialize_chunks(&st.out);
    chars_to_string(&out)
}

/// How far a resolved slot's end line may reach in a source whose last
/// line is `last`: code and math blocks name the line after their closing
/// fence, which belongs to the block's copyable text; every other
/// container ends within the source.
pub open spec fn slot_end_bound(k: SlotKind, last: int) -> int {
    match k {
        SlotKind::Math => last + 1,
        SlotKind::Pre => last + 1,
        _ => last,
    }
}

/// A chunk's line numbers lie within a source whose last line is `last`:
/// a complete range runs from 1 at the earliest to `last` at the latest
/// with its start never past its end, and a resolved slot's end stays
/// within its kind's bound — `last` for blockquotes, lists, items and
/// tables, one line further for fenced code and math blocks.
pub open spec fn chunk_lines_ok(c: SChunk, last: int) -> bool {
    match c {
        SChunk::Text(_) => true,
        SChunk::Range(a, b) => 1 <= a <= b <= last,
        SChunk::Slot(k, a, e) => 1 <= a <= last && match e {
            Option::Some(v) => a <= v <= slot_end_bound(k, last),
            Option::None => true,
        },
    }
}

/// Every line number a renderer state holds lies within the source.
pub open spec fn state_lines_ok(s: SState, last: int) -> bool {
    &&& forall|i: int| 0 <= i < s.out.len() ==> chunk_lines_ok(#[trigger] s.out[i], last)
    &&& match s.para_start {
        Option::Some(a) => 1 <= a <= last,
        Option::None => true,
    }
    &&& 1 <= s.heading_start <= last
}

/// Resolving a slot keeps every line number in range, as long as the end
/// line handed in stays within the kind's own bound.
proof fn lemma_resolve_lines_ok(cs: Seq<SChunk>, k: SlotKind, end: int, last: int)
    requires
        forall|i: int| 0 <= i < cs.len() ==> chunk_lines_ok(#[trigger] cs[i], last),
        end <= slot_end_bound(k, last),
    ensures
        forall|i: int|
            0 <= i < s_resolve(cs, k, end).len() ==> chunk_lines_ok(
                #[trigger] s_resolve(cs, k, end)[i],
                last,
            ),
        s_resolve(cs, k, end).len() == cs.len(),
{
    let j = last_open_slot(cs, k);
    if j >= 0 {
        lemma_last_open_slot_in(cs, k);
    }
}

/// A found slot index lies within the chunks and is a pending slot.
proof fn lemma_last_open_slot_in(cs: Seq<SChunk>, k: SlotKind)
    requires
        last_open_slot(cs, k) >= 0,
    ensures
        last_open_slot(cs, k) < cs.len(),
        is_open_slot(cs[last_open_slot(cs, k)], k),
    decreases cs.len(),
{
    if cs.len() > 0 && !is_open_slot(cs.last(), k) {
        lemma_last_open_slot_in(cs.drop_last(), k);
        assert(cs.drop_last()[last_open_slot(cs, k)] == cs[last_open_slot(cs, k)]);
    }
}

/// One step keeps every line number in range.
proof fn lemma_step_lines_ok(
    s: SState,
    ev: MdEvent,
    bytes: Seq<u8>,
    images: Option<Seq<(String, Vec<u8>)>>,
    last: int,
)
    requires
        state_lines_ok(s, last),
        event_range_ok(ev, bytes.len() as int),
        last == line_of_offset(bytes, bytes.len() as int),
    ensures
        state_lines_ok(sstep(s, ev, bytes, images), last),
{
    crate::linemap::lemma_line_bounds(bytes, ev.start as int);
    crate::linemap::lemma_line_bounds(bytes, ev.end as int);
    let start = line_of_offset(bytes, ev.start as int);
    let end = line_of_offset(bytes, ev.end as int);
    assert(1 <= start <= last);
    assert(1 <= end <= last);
    let s2 = sstep(s, ev, bytes, images);
    match ev.kind {
        MdEventKind::End(endtag) => match endtag {
            MdEnd::BlockQuote => {
                lemma_resolve_lines_ok(s.out, SlotKind::Bq, end, last);
            },
            MdEnd::CodeBlock => {
                let was_math = s.stack.len() > 0 && s.stack.last() == StackTag::Math;
                if was_math {
                    lemma_resolve_lines_ok(
                        s.out.push(SChunk::Text("$$</div>\n"@)),
                        SlotKind::Math,
                        end + 1,
                        last,
                    );
                } else {
                    lemma_resolve_lines_ok(
                        s.out.push(SChunk::Text("</code></pre>\n"@)),
                        SlotKind::Pre,
                        end + 1,
                        last,
                    );
                }
            },
            MdEnd::List(ordered) => {
                if ordered {
                    lemma_resolve_lines_ok(s.out, SlotKind::Ol, end, last);
                } else {
                    lemma_resolve_lines_ok(s.out, SlotKind::Ul, end, last);
                }
            },
            MdEnd::Item => {
                lemma_resolve_lines_ok(s.out, SlotKind::Li, end, last);
            },
            MdEnd::Table => {
                lemma_resolve_lines_ok(s.out, SlotKind::Table, end, last);
            },
            _ => {},
        },
        _ => {},
    }
}

/// Every `data-lines` range the renderer has emitted after any number of
/// events lies within the source text: line numbers are 1-based, a range's
/// start never passes its end, and nothing points past the source's last
/// line — except that a fenced block's resolved end may name the line
/// just after its closing fence, which the block's copyable text includes.
pub proof fn lemma_line_ranges_within_source(
    events: Seq<MdEvent>,
    n: int,
    bytes: Seq<u8>,
    images: Option<Seq<(String, Vec<u8>)>>,
)
    requires
        0 <= n <= events.len(),
        forall|j: int|
            0 <= j < events.len() ==> event_range_ok(#[trigger] events[j], bytes.len() as int),
    ensures
        state_lines_ok(srun(events, n, bytes, images), line_of_offset(bytes, bytes.len() as int)),
    decreases n,
{
    crate::linemap::lemma_line_bounds(bytes, bytes.len() as int);
    if n == 0 {
        assert(state_lines_ok(init_state(), line_of_offset(bytes, bytes.len() as int)));
    } else {
        lemma_line_ranges_within_source(events, n - 1, bytes, images);
        lemma_step_lines_ok(
            srun(events, n - 1, bytes, images),
            events[n - 1],
            bytes,
            images,
            line_of_offset(bytes, bytes.len() as int),
        );
    }
}

/// Whether a table head is among the open containers.
fn stack_has_thead(stack: &Vec<StackTag>) -> (b: bool)
    ensures
        b == in_thead(stack@),
{
    let n = stack.len();
    for i in 0..n
        invariant
            n == stack@.len(),
            forall|j: int| 0 <= j < i ==> stack@[j] != StackTag::Thead,
    {
        if stack[i] == StackTag::Thead {
            proof {
                assert(stack@[i as int] == StackTag::Thead);
            }
            return true;
        }
    }
    proof {
        assert(!stack@.contains(StackTag::Thead));
    }
    false
}

/// The image references a document makes, in order: the destination of
/// every image-opening event.
pub open spec fn spec_image_refs(events: Seq<MdEvent>, n: int) -> Seq<Seq<char>>
    decreases n,
{
    if n <= 0 {
        Seq::empty()
    } else {
        let prev = spec_image_refs(events, n - 1);
        match events[n - 1].kind {
            MdEventKind::Start(tag) => match tag {
                MdTag::Image(dest, _) => prev.push(dest@),
                _ => prev,
            },
            _ => prev,
        }
    }
}

/// List the image references of a Markdown source, in document order, so
/// that a caller can look the relative ones up on disk and hand their
/// bytes to the renderer.
pub fn image_refs(markdown: &str) -> (r: Vec<String>)
    ensures
        r.deep_view() == spec_image_refs(events_of(markdown@), events_of(markdown@).len() as int),
{
    let events = parse_events(markdown);
    let mut r: Vec<String> = Vec::new();
    let n = events.len();
    proof {
        assert(r.deep_view() =~~= spec_image_refs(events@, 0));
    }
    for i in 0..n
        invariant
            n == events@.len(),
            events@ == events_of(markdown@),
            r.deep_view() == spec_image_refs(events@, i as int),
    {
        let ghost pre = r.deep_view();
        match &events[i].kind {
            MdEventKind::Start(tag) => match tag {
                MdTag::Image(dest, _) => {
                    r.push(dest.clone());
                    proof {
                        assert(r.deep_view() =~~= pre.push(dest@));
                    }
                },
                _ => {},
            },
            _ => {},
        }
        proof {
            assert(r.deep_view() =~~= spec_image_refs(events@, i + 1));
        }
    }
    r
}

} // verus!

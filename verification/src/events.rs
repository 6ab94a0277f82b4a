//! The Markdown event stream. Parsing is done by the pulldown-cmark crate;
//! its events are converted, one for one, into the library's own event
//! type, which carries plain values and the byte range each event covers
//! in the source. Everything downstream of the conversion is verified.

use vstd::prelude::*;
use vstd::string::StringSliceAdditionalSpecFns;
use pulldown_cmark::CodeBlockKind;
use pulldown_cmark::Event;
use pulldown_cmark::HeadingLevel;
use pulldown_cmark::Options;
use pulldown_cmark::Parser;
use pulldown_cmark::Tag;
use pulldown_cmark::TagEnd;

verus! {

/// The opening of a container or inline element.
pub enum MdTag {
    Paragraph,
    /// Heading level, 1 through 6.
    Heading(u8),
    BlockQuote,
    /// The fence's info string for a fenced block (possibly empty), or
    /// `None` for an indented block.
    CodeBlock(Option<String>),
    /// The first item number of an ordered list, or `None` for a bullet
    /// list.
    List(Option<u64>),
    Item,
    Table,
    TableHead,
    TableRow,
    TableCell,
    Emphasis,
    Strong,
    Strikethrough,
    /// Destination URL and title.
    Link(String, String),
    /// Destination URL and title.
    Image(String, String),
    /// An element this renderer leaves unrendered.
    Other,
}

/// The closing of a container or inline element.
pub enum MdEnd {
    Paragraph,
    Heading(u8),
    BlockQuote,
    CodeBlock,
    /// `true` for an ordered list.
    List(bool),
    Item,
    Table,
    TableHead,
    TableRow,
    TableCell,
    Emphasis,
    Strong,
    Strikethrough,
    Link,
    Image,
    Other,
}

/// One parser notification.
pub enum MdEventKind {
    Start(MdTag),
    End(MdEnd),
    Text(String),
    Code(String),
    Html(String),
    FootnoteRef(String),
    SoftBreak,
    HardBreak,
    Rule,
    TaskMarker(bool),
    Other,
}

/// An event together with the byte range of the source it covers.
pub struct MdEvent {
    pub kind: MdEventKind,
    pub start: usize,
    pub end: usize,
}

/// An event's range is well formed for a source of `n` bytes.
pub open spec fn event_range_ok(e: MdEvent, n: int) -> bool {
    e.start <= e.end <= n
}

/// The event stream that the Markdown parser produces for a source text,
/// with the extensions this renderer enables (strikethrough, tables,
/// footnotes, task lists).
pub uninterp spec fn events_of(source: Seq<char>) -> Seq<MdEvent>;

#[verifier::external_type_specification]
#[verifier::external_body]
pub struct ExEvent<'a>(Event<'a>);

#[verifier::external_type_specification]
#[verifier::external_body]
pub struct ExTag<'a>(Tag<'a>);

#[verifier::external_type_specification]
#[verifier::external_body]
pub struct ExTagEnd(TagEnd);

#[verifier::external_type_specification]
#[verifier::external_body]
pub struct ExCodeBlockKind<'a>(CodeBlockKind<'a>);

#[verifier::external_type_specification]
#[verifier::external_body]
pub struct ExHeadingLevel(HeadingLevel);

/// Relies on pulldown_cmark::CodeBlockKind: telling its two variants
/// apart, moving the fence's info string.
#[verifier::external_body]
fn fence_of(k: CodeBlockKind<'_>) -> Option<String> {
    match k {
        CodeBlockKind::Indented => None,
        CodeBlockKind::Fenced(lang) => Some(lang.into_string()),
    }
}

/// Relies on pulldown_cmark::Tag: telling its container variants apart,
/// moving fields; inline variants are handed on.
#[verifier::external_body]
fn tag_of(t: Tag<'_>) -> MdTag {
    match t {
        Tag::Paragraph => MdTag::Paragraph,
        Tag::Heading { level, .. } => MdTag::Heading(level as u8),
        Tag::BlockQuote(_) => MdTag::BlockQuote,
        Tag::CodeBlock(k) => MdTag::CodeBlock(fence_of(k)),
        Tag::List(first) => MdTag::List(first),
        Tag::Item => MdTag::Item,
        Tag::Table(_) => MdTag::Table,
        Tag::TableHead => MdTag::TableHead,
        Tag::TableRow => MdTag::TableRow,
        Tag::TableCell => MdTag::TableCell,
        other => inline_tag_of(other),
    }
}

/// Relies on pulldown_cmark::Tag: telling its inline variants apart,
/// moving the link and image fields.
#[verifier::external_body]
fn inline_tag_of(t: Tag<'_>) -> MdTag {
    match t {
        Tag::Emphasis => MdTag::Emphasis,
        Tag::Strong => MdTag::Strong,
        Tag::Strikethrough => MdTag::Strikethrough,
        Tag::Link { dest_url, title, .. } => MdTag::Link(dest_url.into_string(), title.into_string()),
        Tag::Image { dest_url, title, .. } => MdTag::Image(dest_url.into_string(), title.into_string()),
        _ => MdTag::Other,
    }
}

/// Relies on pulldown_cmark::TagEnd: telling its container variants apart,
/// moving the list ordering flag.
#[verifier::external_body]
fn end_of(t: TagEnd) -> MdEnd {
    match t {
        TagEnd::Paragraph => MdEnd::Paragraph,
        TagEnd::Heading(level) => MdEnd::Heading(level as u8),
        TagEnd::BlockQuote(_) => MdEnd::BlockQuote,
        TagEnd::CodeBlock => MdEnd::CodeBlock,
        TagEnd::List(ordered) => MdEnd::List(ordered),
        TagEnd::Item => MdEnd::Item,
        TagEnd::Table => MdEnd::Table,
        TagEnd::TableHead => MdEnd::TableHead,
        TagEnd::TableRow => MdEnd::TableRow,
        TagEnd::TableCell => MdEnd::TableCell,
        other => inline_end_of(other),
    }
}

/// Relies on pulldown_cmark::TagEnd: telling its inline variants apart.
#[verifier::external_body]
fn inline_end_of(t: TagEnd) -> MdEnd {
    match t {
        TagEnd::Emphasis => MdEnd::Emphasis,
        TagEnd::Strong => MdEnd::Strong,
        TagEnd::Strikethrough => MdEnd::Strikethrough,
        TagEnd::Link => MdEnd::Link,
        TagEnd::Image => MdEnd::Image,
        _ => MdEnd::Other,
    }
}

/// Relies on pulldown_cmark::Event: telling its variants apart, moving the
/// text each carries.
#[verifier::external_body]
fn kind_of_event(e: Event<'_>) -> MdEventKind {
    match e {
        Event::Start(t) => MdEventKind::Start(tag_of(t)),
        Event::End(t) => MdEventKind::End(end_of(t)),
        Event::Text(s) => MdEventKind::Text(s.into_string()),
        Event::Code(s) => MdEventKind::Code(s.into_string()),
        Event::Html(s) => MdEventKind::Html(s.into_string()),
        Event::FootnoteReference(s) => MdEventKind::FootnoteRef(s.into_string()),
        Event::SoftBreak => MdEventKind::SoftBreak,
        Event::HardBreak => MdEventKind::HardBreak,
        Event::Rule => MdEventKind::Rule,
        Event::TaskListMarker(b) => MdEventKind::TaskMarker(b),
        _ => MdEventKind::Other,
    }
}

/// Relies on pulldown_cmark::Parser::new_ext and its offset iterator: the
/// events are a function of the source text and the chosen options alone,
/// and each event's range maps into the source bytes.
#[verifier::external_body]
pub(crate) fn parse_events(source: &str) -> (events: Vec<MdEvent>)
    ensures
        events@ == events_of(source@),
        forall|i: int|
            0 <= i < events@.len() ==> event_range_ok(
                #[trigger] events@[i],
                source.spec_bytes().len() as int,
            ),
{
    let options = Options::ENABLE_STRIKETHROUGH | Options::ENABLE_TABLES
        | Options::ENABLE_FOOTNOTES | Options::ENABLE_TASKLISTS;
    Parser::new_ext(source, options)
        .into_offset_iter()
        .map(|(e, r)| MdEvent { kind: kind_of_event(e), start: r.start, end: r.end })
        .collect()
}

} // verus!

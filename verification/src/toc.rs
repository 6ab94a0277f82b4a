//! The table of contents: one (level, plain text) entry per heading with
//! non-empty plain text, in document order. The plain-text accumulation
//! rule is the same one the renderer uses for slugs — text and code-span
//! events contribute, markup does not — and a lemma below pins that
//! agreement down. The notebook pass appends to entries already
//! collected; a lemma shows it only appends.

use vstd::prelude::*;
use crate::events::MdEvent;
use crate::events::MdEventKind;
use crate::events::MdTag;
use crate::events::MdEnd;
use crate::events::events_of;
use crate::events::parse_events;
use crate::render::srun;
use crate::slug::spec_slugify;
use crate::slug::slugify;
use crate::text::spec_dec;
use crate::text::spec_escape;
use crate::text::str_to_chars;
use crate::text::push_str_chars;
use crate::text::push_escaped;
use crate::text::push_u64;
use crate::text::chars_to_string;

verus! {

use vstd::string::StringExecFns;

/// The extractor's running state.
#[verifier::ext_equal]
pub struct STocState {
    pub in_heading: bool,
    pub level: int,
    pub text: Seq<char>,
    pub entries: Seq<(int, Seq<char>)>,
}

pub open spec fn toc_init(entries: Seq<(int, Seq<char>)>) -> STocState {
    STocState { in_heading: false, level: 0, text: Seq::empty(), entries }
}

/// One step of the extractor. A heading whose plain text came out empty
/// is left out of the list.
pub open spec fn toc_step(s: STocState, ev: MdEvent) -> STocState {
    match ev.kind {
        MdEventKind::Start(tag) => match tag {
            MdTag::Heading(level) => STocState {
                in_heading: true,
                level: level as int,
                text: Seq::empty(),
                ..s
            },
            _ => s,
        },
        MdEventKind::End(endtag) => match endtag {
            MdEnd::Heading(_) => STocState {
                in_heading: false,
                entries: if s.in_heading && s.text.len() > 0 {
                    s.entries.push((s.level, s.text))
                } else {
                    s.entries
                },
                ..s
            },
            _ => s,
        },
        MdEventKind::Text(t) => if s.in_heading {
            STocState { text: s.text + t@, ..s }
        } else {
            s
        },
        MdEventKind::Code(t) => if s.in_heading {
            STocState { text: s.text + t@, ..s }
        } else {
            s
        },
        _ => s,
    }
}

/// The extractor's state after the first `n` events, started with the
/// entries already collected.
pub open spec fn toc_run(
    events: Seq<MdEvent>,
    n: int,
    entries0: Seq<(int, Seq<char>)>,
) -> STocState
    decreases n,
{
    if n <= 0 {
        toc_init(entries0)
    } else {
        toc_step(toc_run(events, n - 1, entries0), events[n - 1])
    }
}

/// The table of contents of a source text: every heading with non-empty
/// plain text, in order.
pub open spec fn spec_extract_toc(source: Seq<char>) -> Seq<(int, Seq<char>)> {
    let events = events_of(source);
    toc_run(events, events.len() as int, Seq::empty()).entries
}

/// The headings of a source text appended to entries already collected,
/// under the same rule as the standalone pass: a heading whose plain
/// text is empty is dropped.
pub open spec fn spec_extract_headings(
    source: Seq<char>,
    entries0: Seq<(int, Seq<char>)>,
) -> Seq<(int, Seq<char>)> {
    let events = events_of(source);
    toc_run(events, events.len() as int, entries0).entries
}

/// The levels and texts an entry list holds.
pub open spec fn abs_entries(v: Seq<(usize, String)>) -> Seq<(int, Seq<char>)> {
    v.map_values(|e: (usize, String)| (e.0 as int, e.1@))
}

/// The extractor's exec state alongside its spec state.
struct TocAcc {
    in_heading: bool,
    level: usize,
    text: Vec<char>,
    entries: Vec<(usize, String)>,
}

spec fn abs_toc(a: TocAcc) -> STocState {
    STocState {
        in_heading: a.in_heading,
        level: a.level as int,
        text: a.text@,
        entries: abs_entries(a.entries@),
    }
}

/// One exec step of the extractor.
fn toc_exec_step(a: &mut TocAcc, ev: &MdEvent)
    ensures
        abs_toc(*final(a)) == toc_step(abs_toc(*old(a)), *ev),
{
    match &ev.kind {
        MdEventKind::Start(tag) => match tag {
            MdTag::Heading(level) => {
                a.in_heading = true;
                a.level = *level as usize;
                a.text = Vec::new();
            },
            _ => {},
        },
        MdEventKind::End(endtag) => match endtag {
            MdEnd::Heading(_) => {
                if a.in_heading && a.text.len() > 0 {
                    let text = chars_to_string(&a.text);
                    a.entries.push((a.level, text));
                }
                a.in_heading = false;
            },
            _ => {},
        },
        MdEventKind::Text(t) => {
            if a.in_heading {
                push_str_chars(&mut a.text, t.as_str());
            }
        },
        MdEventKind::Code(t) => {
            if a.in_heading {
                push_str_chars(&mut a.text, t.as_str());
            }
        },
        _ => {},
    }
    proof {
        assert(abs_toc(*a) =~~= toc_step(abs_toc(*old(a)), *ev));
    }
}

/// Collect the table of contents of a Markdown source: one entry per
/// heading with non-empty plain text, carrying its level (1 through 6)
/// and the heading's plain text.
pub fn extract_toc(markdown: &str) -> (toc: Vec<(usize, String)>)
    ensures
        abs_entries(toc@) == spec_extract_toc(markdown@),
{
    let events = parse_events(markdown);
    let mut a = TocAcc { in_heading: false, level: 0, text: Vec::new(), entries: Vec::new() };
    let n = events.len();
    proof {
        assert(abs_toc(a) =~~= toc_init(Seq::empty()));
        assert(abs_entries(a.entries@) =~~= Seq::<(int, Seq<char>)>::empty());
    }
    for i in 0..n
        invariant
            n == events@.len(),
            events@ == events_of(markdown@),
            abs_toc(a) == toc_run(events@, i as int, Seq::empty()),
    {
        toc_exec_step(&mut a, &events[i]);
    }
    a.entries
}

/// Collect the headings of a Markdown source, appending to entries
/// already collected (the notebook pass, run once per markdown cell).
/// As in the standalone pass, a heading whose plain text came out empty
/// is dropped.
pub fn extract_headings_from_markdown(markdown: &str, toc: &mut Vec<(usize, String)>)
    ensures
        abs_entries(final(toc)@) == spec_extract_headings(markdown@, abs_entries(old(toc)@)),
{
    let events = parse_events(markdown);
    let mut entries: Vec<(usize, String)> = Vec::new();
    core::mem::swap(toc, &mut entries);
    let mut a = TocAcc { in_heading: false, level: 0, text: Vec::new(), entries };
    let n = events.len();
    proof {
        assert(abs_toc(a) =~~= toc_init(abs_entries(old(toc)@)));
    }
    for i in 0..n
        invariant
            n == events@.len(),
            events@ == events_of(markdown@),
            abs_toc(a) == toc_run(events@, i as int, abs_entries(old(toc)@)),
    {
        toc_exec_step(&mut a, &events[i]);
    }
    *toc = a.entries;
}

/// One navigation link of the rendered table of contents.
pub open spec fn spec_toc_item(level: int, text: Seq<char>) -> Seq<char> {
    "<a href=\"#\" onclick=\"scrollToHeading('"@ + spec_slugify(text)
        + "'); return false;\" class=\"toc-item toc-level-"@ + spec_dec(level as nat) + "\">"@
        + spec_escape(text) + "</a>"@
}

/// The navigation links of all entries, concatenated.
pub open spec fn spec_toc_html(entries: Seq<(int, Seq<char>)>) -> Seq<char>
    decreases entries.len(),
{
    if entries.len() == 0 {
        Seq::empty()
    } else {
        spec_toc_html(entries.drop_last()) + spec_toc_item(
            entries.last().0,
            entries.last().1,
        )
    }
}

/// Render the table of contents as a list of anchor links, one per entry,
/// each scrolling to the slug of its heading text.
pub fn build_toc_html(toc: &Vec<(usize, String)>) -> (r: String)
    ensures
        r@ == spec_toc_html(abs_entries(toc@)),
{
    let mut out: Vec<char> = Vec::new();
    let n = toc.len();
    for i in 0..n
        invariant
            n == toc@.len(),
            out@ == spec_toc_html(abs_entries(toc@).take(i as int)),
    {
        let ghost pre = abs_entries(toc@).take(i as int);
        let level = toc[i].0;
        let slug = slugify(toc[i].1.as_str());
        let text_chars = str_to_chars(toc[i].1.as_str());
        push_str_chars(&mut out, "<a href=\"#\" onclick=\"scrollToHeading('");
        push_str_chars(&mut out, slug.as_str());
        push_str_chars(&mut out, "'); return false;\" class=\"toc-item toc-level-");
        push_u64(&mut out, level as u64);
        push_str_chars(&mut out, "\">");
        push_escaped(&mut out, &text_chars);
        push_str_chars(&mut out, "</a>");
        proof {
            assert(abs_entries(toc@).take(i + 1).drop_last() =~= pre);
            assert(abs_entries(toc@).take(i + 1).last() == abs_entries(toc@)[i as int]);
            assert(out@ =~= spec_toc_html(abs_entries(toc@).take(i + 1)));
        }
    }
    proof {
        assert(abs_entries(toc@).take(n as int) =~= abs_entries(toc@));
    }
    chars_to_string(&out)
}

/// The table of contents and the renderer accumulate heading plain text
/// by the same rule: after any number of events, the extractor's
/// in-heading flag and accumulated text are exactly the renderer's, so
/// the text a TOC entry records for a heading is the text the renderer's
/// slug for that heading is computed from.
pub proof fn lemma_toc_matches_renderer(
    events: Seq<MdEvent>,
    n: int,
    bytes: Seq<u8>,
    images: Option<Seq<(String, Vec<u8>)>>,
    entries0: Seq<(int, Seq<char>)>,
)
    requires
        0 <= n <= events.len(),
    ensures
        toc_run(events, n, entries0).in_heading == srun(events, n, bytes, images).in_heading,
        toc_run(events, n, entries0).text == srun(events, n, bytes, images).heading_text,
    decreases n,
{
    if n > 0 {
        lemma_toc_matches_renderer(events, n - 1, bytes, images, entries0);
    }
}

/// The heading pass only appends: whatever was collected before stands
/// unchanged in front of the entries the events contribute, and those
/// contributed entries do not depend on what was collected before.
pub proof fn lemma_toc_run_appends(
    events: Seq<MdEvent>,
    n: int,
    entries0: Seq<(int, Seq<char>)>,
)
    requires
        0 <= n <= events.len(),
    ensures
        toc_run(events, n, entries0).entries == entries0 + toc_run(
            events,
            n,
            Seq::empty(),
        ).entries,
        toc_run(events, n, entries0).in_heading == toc_run(events, n, Seq::empty()).in_heading,
        toc_run(events, n, entries0).level == toc_run(events, n, Seq::empty()).level,
        toc_run(events, n, entries0).text == toc_run(events, n, Seq::empty()).text,
    decreases n,
{
    if n == 0 {
        assert(entries0 + Seq::<(int, Seq<char>)>::empty() =~= entries0);
    } else {
        lemma_toc_run_appends(events, n - 1, entries0);
        let a = toc_run(events, n - 1, entries0);
        let b = toc_run(events, n - 1, Seq::empty());
        assert(toc_step(a, events[n - 1]).entries =~= entries0 + toc_step(
            b,
            events[n - 1],
        ).entries);
    }
}

} // verus!

//! The notebook document model and its two renderings: to Markdown (for
//! the plain export path) and to HTML (cell by cell, with outputs,
//! delegating Markdown cells to the annotated renderer).

use vstd::prelude::*;
use crate::ansi::spec_strip_ansi;
use crate::ansi::strip_ansi_codes;
use crate::text::spec_escape;
use crate::text::spec_lines;
use crate::text::str_to_chars;
use crate::text::push_str_chars;
use crate::text::push_chars;
use crate::text::push_escaped;
use crate::text::push_u64;
use crate::text::chars_to_string;
use crate::text::chars_eq_str;
use crate::text::spec_dec;
use crate::unicode::is_space;
use crate::unicode::char_is_whitespace;

verus! {

use vstd::string::StrSliceExecFns;
use vstd::string::StringExecFns;

/// A field that the notebook format writes either as one string or as an
/// array of string pieces to be concatenated.
pub enum StringOrArray {
    One(String),
    Many(Vec<String>),
}

/// The concatenation of string pieces, in order, with nothing between.
pub open spec fn concat_all(parts: Seq<Seq<char>>) -> Seq<char>
    decreases parts.len(),
{
    if parts.len() == 0 {
        Seq::empty()
    } else {
        concat_all(parts.drop_last()) + parts.last()
    }
}

impl StringOrArray {
    /// The single text this field denotes.
    pub open spec fn spec_string(self) -> Seq<char> {
        match self {
            StringOrArray::One(s) => s@,
            StringOrArray::Many(v) => concat_all(v.deep_view()),
        }
    }

    /// Normalise to a single string: a lone string as it is, an array
    /// joined with nothing between the pieces.
    pub fn to_string(&self) -> (r: String)
        ensures
            r@ == self.spec_string(),
    {
        match self {
            StringOrArray::One(s) => s.clone(),
            StringOrArray::Many(v) => {
                let mut out: Vec<char> = Vec::new();
                let n = v.len();
                for i in 0..n
                    invariant
                        n == v@.len(),
                        out@ == concat_all(v.deep_view().take(i as int)),
                {
                    push_str_chars(&mut out, v[i].as_str());
                    proof {
                        assert(v.deep_view().take(i + 1).drop_last() =~= v.deep_view().take(
                            i as int,
                        ));
                        assert(v.deep_view().take(i + 1).last() == v.deep_view()[i as int]);
                    }
                }
                proof {
                    assert(v.deep_view().take(n as int) =~= v.deep_view());
                }
                chars_to_string(&out)
            },
        }
    }
}

/// One output of a code cell. The data mapping pairs each MIME type with
/// its payload; the notebook format keys it uniquely.
pub struct CellOutput {
    pub output_type: String,
    pub text: Option<StringOrArray>,
    pub data: Option<Vec<(String, StringOrArray)>>,
    pub ename: Option<String>,
    pub evalue: Option<String>,
    pub traceback: Option<Vec<String>>,
}

/// One cell of a notebook.
pub struct NotebookCell {
    pub cell_type: String,
    pub source: StringOrArray,
    pub outputs: Vec<CellOutput>,
    pub execution_count: Option<i64>,
}

/// A parsed notebook: its cells, in order.
pub struct Notebook {
    pub cells: Vec<NotebookCell>,
}

/// The payload under the first entry for a MIME type, if any.
pub open spec fn data_lookup(
    entries: Seq<(String, StringOrArray)>,
    key: Seq<char>,
) -> Option<StringOrArray>
    decreases entries.len(),
{
    if entries.len() == 0 {
        Option::None
    } else if entries[0].0@ == key {
        Option::Some(entries[0].1)
    } else {
        data_lookup(entries.skip(1), key)
    }
}

proof fn lemma_data_lookup_at(entries: Seq<(String, StringOrArray)>, key: Seq<char>, i: int)
    requires
        0 <= i <= entries.len(),
        forall|k: int| 0 <= k < i ==> (#[trigger] entries[k].0)@ != key,
        i < entries.len() ==> entries[i].0@ == key,
    ensures
        i < entries.len() ==> data_lookup(entries, key) == Option::Some(entries[i].1),
        i == entries.len() ==> data_lookup(entries, key) is None,
    decreases entries.len(),
{
    if entries.len() > 0 && entries[0].0@ != key {
        assert(forall|k: int|
            0 <= k < i - 1 ==> #[trigger] entries.skip(1)[k] == entries[k + 1]);
        lemma_data_lookup_at(entries.skip(1), key, i - 1);
    }
}

/// Find a MIME type's payload in an output's data mapping.
fn data_get<'a>(entries: &'a Vec<(String, StringOrArray)>, key: &str) -> (r: Option<
    &'a StringOrArray,
>)
    ensures
        match r {
            Option::Some(v) => data_lookup(entries@, key@) == Option::Some(*v),
            Option::None => data_lookup(entries@, key@) is None,
        },
{
    let n = entries.len();
    for i in 0..n
        invariant
            n == entries@.len(),
            forall|k: int| 0 <= k < i ==> (#[trigger] entries@[k].0)@ != key@,
    {
        let kc = str_to_chars(entries[i].0.as_str());
        if chars_eq_str(&kc, key) {
            proof {
                lemma_data_lookup_at(entries@, key@, i as int);
            }
            return Some(&entries[i].1);
        }
    }
    proof {
        lemma_data_lookup_at(entries@, key@, n as int);
    }
    None
}

/// True exactly when the string holds this text.
fn string_is(s: &String, lit: &str) -> (b: bool)
    ensures
        b == (s@ == lit@),
{
    let chars = str_to_chars(s.as_str());
    chars_eq_str(&chars, lit)
}

/// The text with every newline removed, as base64 image payloads are
/// compacted before embedding.
pub open spec fn remove_newlines(s: Seq<char>) -> Seq<char>
    decreases s.len(),
{
    if s.len() == 0 {
        Seq::empty()
    } else if s.last() == '\n' {
        remove_newlines(s.drop_last())
    } else {
        remove_newlines(s.drop_last()).push(s.last())
    }
}

fn push_without_newlines(out: &mut Vec<char>, s: &str)
    ensures
        final(out)@ == old(out)@ + remove_newlines(s@),
{
    let chars = str_to_chars(s);
    let n = chars.len();
    for i in 0..n
        invariant
            n == chars@.len() == s@.len(),
            chars@ == s@,
            out@ == old(out)@ + remove_newlines(s@.take(i as int)),
    {
        proof {
            assert(s@.take(i + 1).drop_last() =~= s@.take(i as int));
            assert(s@.take(i + 1).last() == s@[i as int]);
        }
        if chars[i] != '\n' {
            out.push(chars[i]);
        }
    }
    proof {
        assert(s@.take(n as int) =~= s@);
    }
}

/// The decimal rendering of a signed count.
pub open spec fn spec_i64_dec(n: int) -> Seq<char> {
    if n >= 0 {
        spec_dec(n as nat)
    } else {
        seq!['-'] + spec_dec((-n) as nat)
    }
}

fn push_i64(out: &mut Vec<char>, n: i64)
    ensures
        final(out)@ == old(out)@ + spec_i64_dec(n as int),
{
    if n >= 0 {
        push_u64(out, n as u64);
    } else {
        out.push('-');
        let m: u64 = ((-(n as i128)) as u64);
        push_u64(out, m);
        proof {
            assert(out@ =~= old(out)@ + spec_i64_dec(n as int));
        }
    }
}

/// The execution counter's label: its number, or a single space for a
/// cell never executed.
pub open spec fn spec_exec_count(c: Option<i64>) -> Seq<char> {
    match c {
        Option::Some(n) => spec_i64_dec(n as int),
        Option::None => " "@,
    }
}

fn exec_count_string(c: &Option<i64>) -> (r: String)
    ensures
        r@ == spec_exec_count(*c),
{
    match c {
        Some(n) => {
            let mut out: Vec<char> = Vec::new();
            push_i64(&mut out, *n);
            chars_to_string(&out)
        },
        None => String::from_str(" "),
    }
}

/// The index of the first character that is not whitespace; the length
/// when all of it is.
pub open spec fn lead_ws(s: Seq<char>) -> nat
    decreases s.len(),
{
    if s.len() == 0 {
        0
    } else if is_space(s[0]) {
        1 + lead_ws(s.skip(1))
    } else {
        0
    }
}

proof fn lemma_lead_ws_is(s: Seq<char>, k: int)
    requires
        0 <= k <= s.len(),
        forall|i: int| 0 <= i < k ==> is_space(s[i]),
        k < s.len() ==> !is_space(s[k]),
    ensures
        lead_ws(s) == k,
    decreases s.len(),
{
    if s.len() > 0 && is_space(s[0]) {
        lemma_lead_ws_is(s.skip(1), k - 1);
    }
}

/// The count of trailing whitespace characters.
pub open spec fn trail_ws(s: Seq<char>) -> nat
    decreases s.len(),
{
    if s.len() == 0 {
        0
    } else if is_space(s.last()) {
        1 + trail_ws(s.drop_last())
    } else {
        0
    }
}

proof fn lemma_trail_ws_is(s: Seq<char>, k: int)
    requires
        0 <= k <= s.len(),
        forall|i: int| s.len() - k <= i < s.len() ==> is_space(s[i]),
        k < s.len() ==> !is_space(s[s.len() - k - 1]),
    ensures
        trail_ws(s) == k,
    decreases s.len(),
{
    if s.len() > 0 && is_space(s.last()) {
        assert(forall|i: int|
            0 <= i < s.len() - 1 ==> s[i] == #[trigger] s.drop_last()[i]);
        lemma_trail_ws_is(s.drop_last(), k - 1);
    }
}

/// The text with leading and trailing whitespace removed, as `str::trim`
/// leaves it.
pub open spec fn spec_trim(s: Seq<char>) -> Seq<char> {
    let l = lead_ws(s) as int;
    if l == s.len() {
        Seq::empty()
    } else {
        s.subrange(l, s.len() - trail_ws(s))
    }
}

/// The count of trailing newline characters.
pub open spec fn trail_nl(s: Seq<char>) -> nat
    decreases s.len(),
{
    if s.len() == 0 {
        0
    } else if s.last() == '\n' {
        1 + trail_nl(s.drop_last())
    } else {
        0
    }
}

proof fn lemma_trail_nl_is(s: Seq<char>, k: int)
    requires
        0 <= k <= s.len(),
        forall|i: int| s.len() - k <= i < s.len() ==> s[i] == '\n',
        k < s.len() ==> s[s.len() - k - 1] != '\n',
    ensures
        trail_nl(s) == k,
    decreases s.len(),
{
    if s.len() > 0 && s.last() == '\n' {
        assert(forall|i: int|
            0 <= i < s.len() - 1 ==> s[i] == #[trigger] s.drop_last()[i]);
        lemma_trail_nl_is(s.drop_last(), k - 1);
    }
}

/// What stripping a superfluous `<pre>` wrapper leaves: when the trimmed
/// HTML both starts with `<pre` and ends with `</pre>`, the content
/// between the end of the opening tag and the closing tag, less trailing
/// newlines; anything else is returned whole.
pub open spec fn spec_strip_pre(html: Seq<char>) -> Seq<char> {
    let t = spec_trim(html);
    if t.len() >= 10 && crate::image::has_prefix(t, "<pre"@) && has_suffix(t, "</pre>"@) {
        let gt = first_gt(t) as int;
        if gt + 1 <= t.len() - 6 {
            let inner = t.subrange(gt + 1, t.len() - 6);
            inner.take(inner.len() - trail_nl(inner))
        } else {
            html
        }
    } else {
        html
    }
}

/// A text with a final newline ensured, as sources are closed off before
/// a closing fence.
pub open spec fn ensure_nl(text: Seq<char>) -> Seq<char> {
    if text.len() > 0 && text.last() == '\n' {
        text
    } else {
        text + "\n"@
    }
}

fn push_with_final_nl(out: &mut Vec<char>, s: &String)
    ensures
        final(out)@ == old(out)@ + ensure_nl(s@),
{
    let chars = str_to_chars(s.as_str());
    let ends_nl = chars.len() > 0 && chars[chars.len() - 1] == '\n';
    push_chars(out, &chars);
    if !ends_nl {
        push_str_chars(out, "\n");
        proof {
            assert(out@ =~= old(out)@ + ensure_nl(s@));
        }
    }
}

/// A fenced block with no info string: the text, closed off with a
/// newline, between plain fences.
pub open spec fn fence_block(text: Seq<char>) -> Seq<char> {
    "```\n"@ + ensure_nl(text) + "```\n\n"@
}

fn push_fence_block(out: &mut Vec<char>, s: &String)
    ensures
        final(out)@ == old(out)@ + fence_block(s@),
{
    push_str_chars(out, "```\n");
    push_with_final_nl(out, s);
    push_str_chars(out, "```\n\n");
    proof {
        assert(out@ =~= old(out)@ + fence_block(s@));
    }
}

/// An embedded image for the Markdown export: the payload, its newlines
/// removed, inlined as a data URI.
pub open spec fn md_image(mime: Seq<char>, payload: Seq<char>) -> Seq<char> {
    "![output](data:"@ + mime + ";base64,"@ + remove_newlines(payload) + ")\n\n"@
}

/// The Markdown the export writes for one output: streams and plain-text
/// results as fenced blocks, images inlined, errors as a fenced block of
/// name, value and ANSI-stripped traceback; anything else contributes
/// nothing.
pub open spec fn spec_output_md(o: CellOutput) -> Seq<char> {
    if o.output_type@ == "stream"@ {
        match o.text {
            Option::Some(t) => fence_block(t.spec_string()),
            Option::None => Seq::empty(),
        }
    } else if o.output_type@ == "execute_result"@ || o.output_type@ == "display_data"@ {
        match o.data {
            Option::Some(d) => {
                match data_lookup(d@, "image/png"@) {
                    Option::Some(img) => md_image("image/png"@, img.spec_string()),
                    Option::None => match data_lookup(d@, "image/jpeg"@) {
                        Option::Some(img) => md_image("image/jpeg"@, img.spec_string()),
                        Option::None => match data_lookup(d@, "text/plain"@) {
                            Option::Some(t) => fence_block(t.spec_string()),
                            Option::None => Seq::empty(),
                        },
                    },
                }
            },
            Option::None => Seq::empty(),
        }
    } else if o.output_type@ == "error"@ {
        let name_part = match o.ename {
            Option::Some(en) => en@ + (match o.evalue {
                Option::Some(ev) => ": "@ + ev@,
                Option::None => Seq::<char>::empty(),
            }) + "\n"@,
            Option::None => Seq::<char>::empty(),
        };
        let tb_part = match o.traceback {
            Option::Some(tb) => spec_tb_md(tb.deep_view()),
            Option::None => Seq::<char>::empty(),
        };
        "```\n"@ + name_part + tb_part + "```\n\n"@
    } else {
        Seq::empty()
    }
}

/// Traceback lines for the export: each stripped of ANSI sequences, each
/// on its own line.
pub open spec fn spec_tb_md(lines: Seq<Seq<char>>) -> Seq<char>
    decreases lines.len(),
{
    if lines.len() == 0 {
        Seq::empty()
    } else {
        spec_tb_md(lines.drop_last()) + spec_strip_ansi(lines.last()) + "\n"@
    }
}

/// The concatenation of one cell's outputs for the export.
pub open spec fn spec_outputs_md(outputs: Seq<CellOutput>) -> Seq<char>
    decreases outputs.len(),
{
    if outputs.len() == 0 {
        Seq::empty()
    } else {
        spec_outputs_md(outputs.drop_last()) + spec_output_md(outputs.last())
    }
}

/// The Markdown the export writes for one cell.
pub open spec fn spec_cell_md(cell: NotebookCell) -> Seq<char> {
    if cell.cell_type@ == "markdown"@ {
        cell.source.spec_string() + "\n\n"@
    } else if cell.cell_type@ == "code"@ {
        "```python\n"@ + ensure_nl(cell.source.spec_string()) + "```\n\n"@ + spec_outputs_md(
            cell.outputs@,
        )
    } else if cell.cell_type@ == "raw"@ {
        fence_block(cell.source.spec_string())
    } else {
        Seq::empty()
    }
}

/// The whole notebook as Markdown: its cells in order, parted by
/// horizontal rules.
pub open spec fn spec_notebook_md(cells: Seq<NotebookCell>) -> Seq<char>
    decreases cells.len(),
{
    if cells.len() == 0 {
        Seq::empty()
    } else {
        spec_notebook_md(cells.drop_last()) + (if cells.len() > 1 {
            "\n---\n\n"@
        } else {
            Seq::<char>::empty()
        }) + spec_cell_md(cells.last())
    }
}

/// Materialise a notebook as one Markdown document: markdown cells as
/// they stand, code and raw cells as fenced blocks, outputs per their
/// kind, cells parted by horizontal rules.
pub fn notebook_to_markdown(notebook: &Notebook) -> (r: String)
    ensures
        r@ == spec_notebook_md(notebook.cells@),
{
    let mut out: Vec<char> = Vec::new();
    let n = notebook.cells.len();
    for i in 0..n
        invariant
            n == notebook.cells@.len(),
            out@ == spec_notebook_md(notebook.cells@.take(i as int)),
    {
        let ghost pre = notebook.cells@.take(i as int);
        if i > 0 {
            push_str_chars(&mut out, "\n---\n\n");
        }
        let cell = &notebook.cells[i];
        if string_is(&cell.cell_type, "markdown") {
            let src = cell.source.to_string();
            push_str_chars(&mut out, src.as_str());
            push_str_chars(&mut out, "\n\n");
        } else if string_is(&cell.cell_type, "code") {
            push_str_chars(&mut out, "```python\n");
            let src = cell.source.to_string();
            push_with_final_nl(&mut out, &src);
            push_str_chars(&mut out, "```\n\n");
            let m = cell.outputs.len();
            let ghost base = out@;
            proof {
                assert(cell.outputs@.take(0) =~= Seq::<CellOutput>::empty());
            }
            for j in 0..m
                invariant
                    m == cell.outputs@.len(),
                    out@ == base + spec_outputs_md(cell.outputs@.take(j as int)),
            {
                let ghost obase = cell.outputs@.take(j as int);
                push_output_md(&mut out, &cell.outputs[j]);
                proof {
                    assert(cell.outputs@.take(j + 1).drop_last() =~= obase);
                    assert(cell.outputs@.take(j + 1).last() == cell.outputs@[j as int]);
                }
            }
            proof {
                assert(cell.outputs@.take(m as int) =~= cell.outputs@);
            }
        } else if string_is(&cell.cell_type, "raw") {
            let src = cell.source.to_string();
            push_fence_block(&mut out, &src);
        }
        proof {
            assert(notebook.cells@.take(i + 1).drop_last() =~= pre);
            assert(notebook.cells@.take(i + 1).last() == notebook.cells@[i as int]);
            assert(out@ =~= spec_notebook_md(notebook.cells@.take(i + 1)));
        }
    }
    proof {
        assert(notebook.cells@.take(n as int) =~= notebook.cells@);
    }
    chars_to_string(&out)
}

/// Append one output's Markdown for the export.
fn push_output_md(out: &mut Vec<char>, o: &CellOutput)
    ensures
        final(out)@ == old(out)@ + spec_output_md(*o),
{
    if string_is(&o.output_type, "stream") {
        match &o.text {
            Some(t) => {
                let text = t.to_string();
                push_fence_block(out, &text);
            },
            None => {},
        }
    } else if string_is(&o.output_type, "execute_result") || string_is(
        &o.output_type,
        "display_data",
    ) {
        match &o.data {
            Some(d) => {
                if let Some(img) = data_get(d, "image/png") {
                    let payload = img.to_string();
                    push_str_chars(out, "![output](data:");
                    push_str_chars(out, "image/png");
                    push_str_chars(out, ";base64,");
                    push_without_newlines(out, payload.as_str());
                    push_str_chars(out, ")\n\n");
                    proof {
                        assert(out@ =~= old(out)@ + spec_output_md(*o));
                    }
                } else if let Some(img) = data_get(d, "image/jpeg") {
                    let payload = img.to_string();
                    push_str_chars(out, "![output](data:");
                    push_str_chars(out, "image/jpeg");
                    push_str_chars(out, ";base64,");
                    push_without_newlines(out, payload.as_str());
                    push_str_chars(out, ")\n\n");
                    proof {
                        assert(out@ =~= old(out)@ + spec_output_md(*o));
                    }
                } else if let Some(t) = data_get(d, "text/plain") {
                    let text = t.to_string();
                    push_fence_block(out, &text);
                }
            },
            None => {},
        }
    } else if string_is(&o.output_type, "error") {
        push_str_chars(out, "```\n");
        match &o.ename {
            Some(en) => {
                push_str_chars(out, en.as_str());
                match &o.evalue {
                    Some(ev) => {
                        push_str_chars(out, ": ");
                        push_str_chars(out, ev.as_str());
                    },
                    None => {},
                }
                push_str_chars(out, "\n");
            },
            None => {},
        }
        match &o.traceback {
            Some(tb) => {
                let m = tb.len();
                let ghost base = out@;
                proof {
                    assert(tb.deep_view().take(0) =~= Seq::<Seq<char>>::empty());
                }
                for j in 0..m
                    invariant
                        m == tb@.len(),
                        out@ == base + spec_tb_md(tb.deep_view().take(j as int)),
                {
                    let clean = strip_ansi_codes(tb[j].as_str());
                    push_str_chars(out, clean.as_str());
                    push_str_chars(out, "\n");
                    proof {
                        assert(tb.deep_view().take(j + 1).drop_last() =~= tb.deep_view().take(
                            j as int,
                        ));
                        assert(tb.deep_view().take(j + 1).last() == tb.deep_view()[j as int]);
                        assert(out@ =~= base + spec_tb_md(tb.deep_view().take(j + 1)));
                    }
                }
                proof {
                    assert(tb.deep_view().take(m as int) =~= tb.deep_view());
                }
            },
            None => {},
        }
        push_str_chars(out, "```\n\n");
        proof {
            assert(out@ =~= old(out)@ + spec_output_md(*o));
        }
    }
    proof {
        assert(out@ =~= old(out)@ + spec_output_md(*o));
    }
}

/// A sequence ends with a suffix.
pub open spec fn has_suffix(s: Seq<char>, p: Seq<char>) -> bool {
    p.len() <= s.len() && s.subrange(s.len() - p.len(), s.len() as int) == p
}

/// True exactly when the buffer ends with the given suffix.
fn chars_has_suffix(v: &Vec<char>, p: &str) -> (b: bool)
    ensures
        b == has_suffix(v@, p@),
{
    let n = p.unicode_len();
    let m = v.len();
    if m < n {
        return false;
    }
    let base = m - n;
    for i in 0..n
        invariant
            n == p@.len(),
            m == v@.len(),
            base == m - n,
            forall|j: int| 0 <= j < i ==> v@[base + j] == p@[j],
    {
        if v[base + i] != p.get_char(i) {
            proof {
                assert(v@.subrange(base as int, m as int)[i as int] != p@[i as int]);
            }
            return false;
        }
    }
    proof {
        assert(v@.subrange(base as int, m as int) =~= p@);
    }
    true
}

/// The index of the first `>`, or the length when there is none.
pub open spec fn first_gt(s: Seq<char>) -> nat
    decreases s.len(),
{
    if s.len() == 0 {
        0
    } else if s[0] == '>' {
        0
    } else {
        1 + first_gt(s.skip(1))
    }
}

proof fn lemma_first_gt_is(s: Seq<char>, k: int)
    requires
        0 <= k <= s.len(),
        forall|i: int| 0 <= i < k ==> s[i] != '>',
        k < s.len() ==> s[k] == '>',
    ensures
        first_gt(s) == k,
    decreases s.len(),
{
    if s.len() > 0 && s[0] != '>' {
        lemma_first_gt_is(s.skip(1), k - 1);
    }
}

/// Strip the outer `<pre>` wrapper some HTML payloads carry, keeping the
/// inner content; HTML without such a wrapper is returned whole.
pub fn strip_pre_wrapper(html: &str) -> (r: String)
    ensures
        r@ == spec_strip_pre(html@),
{
    let chars = str_to_chars(html);
    let n = chars.len();
    // trim leading and trailing whitespace
    let mut lo: usize = 0;
    while lo < n && char_is_whitespace(chars[lo])
        invariant
            lo <= n == chars@.len(),
            forall|i: int| 0 <= i < lo ==> is_space(chars@[i]),
        decreases n - lo,
    {
        lo = lo + 1;
    }
    proof {
        lemma_lead_ws_is(chars@, lo as int);
    }
    let mut hi: usize = n;
    if lo == n {
        hi = lo;
    } else {
        while hi > lo && char_is_whitespace(chars[hi - 1])
            invariant
                lo <= hi <= n == chars@.len(),
                forall|i: int| hi <= i < n ==> is_space(chars@[i]),
            decreases hi,
        {
            hi = hi - 1;
        }
        proof {
            assert(!is_space(chars@[lo as int]));
            assert(hi > lo);
            lemma_trail_ws_is(chars@, n - hi);
        }
    }
    let ghost t = spec_trim(chars@);
    proof {
        if lo == n {
            assert(t =~= chars@.subrange(lo as int, hi as int));
        } else {
            assert(t =~= chars@.subrange(lo as int, hi as int));
        }
    }
    let mut trimmed: Vec<char> = Vec::new();
    let mut k: usize = lo;
    while k < hi
        invariant
            lo <= k <= hi <= chars@.len(),
            trimmed@ == chars@.subrange(lo as int, k as int),
        decreases hi - k,
    {
        trimmed.push(chars[k]);
        proof {
            assert(chars@.subrange(lo as int, k + 1) =~= chars@.subrange(lo as int, k as int).push(
                chars@[k as int],
            ));
        }
        k = k + 1;
    }
    proof {
        assert(trimmed@ == t);
    }
    // does it wear a <pre> wrapper?
    let m = trimmed.len();
    let is_wrapped = m >= 10 && crate::image::chars_has_prefix(&trimmed, "<pre")
        && chars_has_suffix(&trimmed, "</pre>");
    if is_wrapped {
        // find the end of the opening tag
        let mut gt: usize = 0;
        while gt < m && trimmed[gt] != '>'
            invariant
                gt <= m == trimmed@.len(),
                forall|i: int| 0 <= i < gt ==> trimmed@[i] != '>',
            decreases m - gt,
        {
            gt = gt + 1;
        }
        proof {
            lemma_first_gt_is(trimmed@, gt as int);
        }
        if gt < m - 6 {
            let ghost inner = t.subrange(gt + 1, t.len() - 6);
            // the inner content, less trailing newlines
            let mut e: usize = m - 6;
            while e > gt + 1 && trimmed[e - 1] == '\n'
                invariant
                    gt + 1 <= e <= m - 6,
                    m == trimmed@.len(),
                    forall|i: int| e <= i < m - 6 ==> trimmed@[i] == '\n',
                decreases e,
            {
                e = e - 1;
            }
            proof {
                assert forall|i: int| inner.len() - (m - 6 - e) <= i < inner.len() implies inner[i]
                    == '\n' by {
                    assert(inner[i] == trimmed@[gt + 1 + i]);
                }
                if e > gt + 1 {
                    assert(inner[e - 1 - gt - 1] == trimmed@[e - 1]);
                    lemma_trail_nl_is(inner, m - 6 - e);
                } else {
                    assert(inner.len() == m - 6 - gt - 1);
                    lemma_trail_nl_is(inner, inner.len() as int);
                }
            }
            let mut out: Vec<char> = Vec::new();
            let mut k2: usize = gt + 1;
            while k2 < e
                invariant
                    gt + 1 <= k2 <= e <= trimmed@.len(),
                    out@ == trimmed@.subrange(gt + 1, k2 as int),
                decreases e - k2,
            {
                out.push(trimmed[k2]);
                proof {
                    assert(trimmed@.subrange(gt + 1, k2 + 1) =~= trimmed@.subrange(
                        gt + 1,
                        k2 as int,
                    ).push(trimmed@[k2 as int]));
                }
                k2 = k2 + 1;
            }
            proof {
                assert(out@ =~= inner.take(inner.len() - trail_nl(inner)));
            }
            return chars_to_string(&out);
        }
        let whole = String::from_str(html);
        return whole;
    }
    String::from_str(html)
}

/// The HTML-escaped lines of a text, split the way `str::lines` splits.
pub open spec fn escaped_lines(text: Seq<char>) -> Seq<Seq<char>> {
    spec_lines(text).map_values(|l: Seq<char>| spec_escape(l))
}

/// Split a text into lines and escape each for HTML.
fn escape_lines(text: &Vec<char>) -> (r: Vec<String>)
    ensures
        r.deep_view() == escaped_lines(text@),
{
    let raw = crate::text::split_lines(text);
    let mut r: Vec<String> = Vec::new();
    let n = raw.len();
    proof {
        assert(r.deep_view() =~~= escaped_lines(text@).take(0));
    }
    for i in 0..n
        invariant
            n == raw@.len(),
            raw.deep_view() == spec_lines(text@),
            r.deep_view() == escaped_lines(text@).take(i as int),
    {
        let ghost pre = r.deep_view();
        let mut buf: Vec<char> = Vec::new();
        push_escaped(&mut buf, &raw[i]);
        r.push(chars_to_string(&buf));
        proof {
            assert(raw.deep_view()[i as int] == raw@[i as int]@);
            assert(buf@ =~= spec_escape(raw.deep_view()[i as int]));
            assert(r.deep_view() =~~= pre.push(spec_escape(spec_lines(text@)[i as int])));
            assert(escaped_lines(text@).take(i + 1) =~= pre.push(
                escaped_lines(text@)[i as int],
            ));
        }
    }
    proof {
        assert(escaped_lines(text@).take(n as int) =~= escaped_lines(text@));
    }
    r
}

/// Copy a list of lines.
fn clone_strings(v: &Vec<String>) -> (r: Vec<String>)
    ensures
        r@ == v@,
{
    let mut r: Vec<String> = Vec::new();
    let n = v.len();
    for i in 0..n
        invariant
            n == v@.len(),
            r@ == v@.take(i as int),
    {
        r.push(v[i].clone());
        proof {
            assert(v@.take(i + 1) =~= v@.take(i as int).push(v@[i as int]));
        }
    }
    proof {
        assert(v@.take(n as int) =~= v@);
    }
    r
}

/// The markup of a truncated output: the head lines, a gap notice with
/// the two reveal controls, and the tail lines.
pub open spec fn spec_render_truncated(
    lines: Seq<Seq<char>>,
    cell: int,
    outi: int,
    css: Seq<char>,
    prompt: Seq<char>,
) -> Seq<char> {
    "        <div class=\""@ + css + "\" data-cell-idx=\""@ + spec_dec(cell as nat)
        + "\" data-output-idx=\""@ + spec_dec(outi as nat) + "\">\n            "@ + prompt
        + "\n            <div class=\"nb-output-content\"><div class=\"nb-output-head\">"@
        + crate::text::spec_join_nl(lines.take(crate::truncate::HEAD_LINES as int))
        + "</div>\n            <div class=\"nb-output-truncated\">\n                <span class=\"nb-truncated-info\">"@
        + spec_dec((lines.len() - crate::truncate::HEAD_LINES - crate::truncate::TAIL_LINES) as nat)
        + " lines hidden</span>\n                <button class=\"nb-show-more\" data-amount=\"50\">Show 50 more</button>\n                <button class=\"nb-show-all\">Show all</button>\n            </div>\n            <div class=\"nb-output-tail\">"@
        + crate::text::spec_join_nl(lines.skip(lines.len() - crate::truncate::TAIL_LINES))
        + "</div></div>\n        </div>\n"@
}

/// Render a too-long output as head and tail with a deferred middle, and
/// return the retained state that later reveal requests are served from:
/// all lines, with the head already counted as shown.
pub fn render_truncated_text(
    html: &mut Vec<char>,
    lines: &Vec<String>,
    cell_idx: usize,
    output_idx: usize,
    css_class: &str,
    prompt_html: &str,
) -> (t: crate::truncate::TruncatedOutput)
    requires
        lines@.len() > crate::truncate::TRUNCATE_THRESHOLD,
    ensures
        final(html)@ == old(html)@ + spec_render_truncated(
            lines.deep_view(),
            cell_idx as int,
            output_idx as int,
            css_class@,
            prompt_html@,
        ),
        t.full_lines@ == lines@,
        t.total_lines == lines@.len(),
        t.shown_lines == crate::truncate::HEAD_LINES,
        t.wf(),
{
    let total = lines.len();
    push_str_chars(html, "        <div class=\"");
    push_str_chars(html, css_class);
    push_str_chars(html, "\" data-cell-idx=\"");
    push_u64(html, cell_idx as u64);
    push_str_chars(html, "\" data-output-idx=\"");
    push_u64(html, output_idx as u64);
    push_str_chars(html, "\">\n            ");
    push_str_chars(html, prompt_html);
    push_str_chars(html, "\n            <div class=\"nb-output-content\"><div class=\"nb-output-head\">");
    crate::truncate::push_joined_strings(html, lines, 0, crate::truncate::HEAD_LINES);
    push_str_chars(html, "</div>\n            <div class=\"nb-output-truncated\">\n                <span class=\"nb-truncated-info\">");
    push_u64(html, (total - crate::truncate::HEAD_LINES - crate::truncate::TAIL_LINES) as u64);
    push_str_chars(html, " lines hidden</span>\n                <button class=\"nb-show-more\" data-amount=\"50\">Show 50 more</button>\n                <button class=\"nb-show-all\">Show all</button>\n            </div>\n            <div class=\"nb-output-tail\">");
    crate::truncate::push_joined_strings(html, lines, total - crate::truncate::TAIL_LINES, total);
    push_str_chars(html, "</div></div>\n        </div>\n");
    proof {
        assert(lines.deep_view().subrange(0, crate::truncate::HEAD_LINES as int)
            =~= lines.deep_view().take(crate::truncate::HEAD_LINES as int));
        assert(lines.deep_view().subrange(
            lines.deep_view().len() - crate::truncate::TAIL_LINES,
            lines.deep_view().len() as int,
        ) =~= lines.deep_view().skip(lines.deep_view().len() - crate::truncate::TAIL_LINES));
        assert(html@ =~= old(html)@ + spec_render_truncated(
            lines.deep_view(),
            cell_idx as int,
            output_idx as int,
            css_class@,
            prompt_html@,
        ));
    }
    crate::truncate::TruncatedOutput {
        full_lines: clone_strings(lines),
        total_lines: total,
        shown_lines: crate::truncate::HEAD_LINES,
    }
}

/// The `Out[n]:` prompt an `execute_result` carries; nothing for other
/// outputs.
pub open spec fn out_prompt(is_exec_result: bool, exec_count: Seq<char>) -> Seq<char> {
    if is_exec_result {
        "<div class=\"nb-output-header\"><span class=\"nb-prompt nb-out\">Out["@ + exec_count
            + "]:</span></div>"@
    } else {
        Seq::empty()
    }
}

fn build_prompt(is_exec_result: bool, exec_count: &str) -> (r: String)
    ensures
        r@ == out_prompt(is_exec_result, exec_count@),
{
    if is_exec_result {
        let mut out: Vec<char> = Vec::new();
        push_str_chars(&mut out, "<div class=\"nb-output-header\"><span class=\"nb-prompt nb-out\">Out[");
        push_str_chars(&mut out, exec_count);
        push_str_chars(&mut out, "]:</span></div>");
        chars_to_string(&out)
    } else {
        String::new()
    }
}

/// What rendering one output appends, and the retained lines when the
/// output was truncated.
#[verifier::ext_equal]
pub struct SOutputRender {
    pub html: Seq<char>,
    pub trunc: Option<Seq<Seq<char>>>,
}

/// An embedded image output.
pub open spec fn img_output_html(mime: Seq<char>, payload: Seq<char>) -> Seq<char> {
    "        <div class=\"nb-output nb-output-image\">\n            <img src=\"data:"@ + mime
        + ";base64,"@ + remove_newlines(payload)
        + "\" class=\"nb-figure\" alt=\"output\">\n        </div>\n"@
}

/// The error lines of an error output: a bold-coloured first line naming
/// the error, then the traceback, each line ANSI-translated.
pub open spec fn spec_error_lines(o: CellOutput) -> Seq<Seq<char>> {
    (match o.ename {
        Option::Some(en) => seq![
            "<span style=\"color:#e06c75;font-weight:bold\">"@ + spec_escape(en@) + "</span>"@
                + (match o.evalue {
                Option::Some(ev) => ": "@ + spec_escape(ev@),
                Option::None => Seq::<char>::empty(),
            }),
        ],
        Option::None => Seq::<Seq<char>>::empty(),
    }) + (match o.traceback {
        Option::Some(tb) => tb.deep_view().map_values(
            |l: Seq<char>| crate::ansi::spec_ansi_html(l, false),
        ),
        Option::None => Seq::<Seq<char>>::empty(),
    })
}

/// What rendering one output produces, by its kind and in the priority
/// order the data mapping is consulted: PNG, then JPEG, then HTML, then
/// plain text. Stream text, plain text and error lines are truncated
/// past the threshold; images and HTML never are.
pub open spec fn spec_render_output(
    o: CellOutput,
    exec_count: Seq<char>,
    cell: int,
    outi: int,
) -> SOutputRender {
    if o.output_type@ == "stream"@ {
        match o.text {
            Option::Some(t) => {
                let lines = escaped_lines(t.spec_string());
                if lines.len() > crate::truncate::TRUNCATE_THRESHOLD {
                    SOutputRender {
                        html: spec_render_truncated(
                            lines,
                            cell,
                            outi,
                            "nb-output nb-output-stream"@,
                            Seq::empty(),
                        ),
                        trunc: Option::Some(lines),
                    }
                } else {
                    SOutputRender {
                        html:
                            "        <div class=\"nb-output nb-output-stream\">\n            <div class=\"nb-output-content\">"@
                            + spec_escape(t.spec_string()) + "</div>\n        </div>\n"@,
                        trunc: Option::None,
                    }
                }
            },
            Option::None => SOutputRender { html: Seq::empty(), trunc: Option::None },
        }
    } else if o.output_type@ == "execute_result"@ || o.output_type@ == "display_data"@ {
        let prompt = out_prompt(o.output_type@ == "execute_result"@, exec_count);
        match o.data {
            Option::Some(d) => match data_lookup(d@, "image/png"@) {
                Option::Some(img) => SOutputRender {
                    html: img_output_html("image/png"@, img.spec_string()),
                    trunc: Option::None,
                },
                Option::None => match data_lookup(d@, "image/jpeg"@) {
                    Option::Some(img) => SOutputRender {
                        html: img_output_html("image/jpeg"@, img.spec_string()),
                        trunc: Option::None,
                    },
                    Option::None => match data_lookup(d@, "text/html"@) {
                        Option::Some(h) => SOutputRender {
                            html: "        <div class=\"nb-output nb-output-html\">\n            "@
                                + prompt + "\n            <div class=\"nb-output-content\">"@
                                + spec_strip_pre(h.spec_string()) + "</div>\n        </div>\n"@,
                            trunc: Option::None,
                        },
                        Option::None => match data_lookup(d@, "text/plain"@) {
                            Option::Some(t) => {
                                let lines = escaped_lines(t.spec_string());
                                if lines.len() > crate::truncate::TRUNCATE_THRESHOLD {
                                    SOutputRender {
                                        html: spec_render_truncated(
                                            lines,
                                            cell,
                                            outi,
                                            "nb-output nb-output-text"@,
                                            prompt,
                                        ),
                                        trunc: Option::Some(lines),
                                    }
                                } else {
                                    SOutputRender {
                                        html:
                                            "        <div class=\"nb-output nb-output-text\">\n            "@
                                            + prompt
                                            + "\n            <div class=\"nb-output-content\">"@
                                            + spec_escape(t.spec_string())
                                            + "</div>\n        </div>\n"@,
                                        trunc: Option::None,
                                    }
                                }
                            },
                            Option::None => SOutputRender {
                                html: Seq::empty(),
                                trunc: Option::None,
                            },
                        },
                    },
                },
            },
            Option::None => SOutputRender { html: Seq::empty(), trunc: Option::None },
        }
    } else if o.output_type@ == "error"@ {
        let lines = spec_error_lines(o);
        if lines.len() > crate::truncate::TRUNCATE_THRESHOLD {
            SOutputRender {
                html: spec_render_truncated(
                    lines,
                    cell,
                    outi,
                    "nb-output nb-output-error"@,
                    Seq::empty(),
                ),
                trunc: Option::Some(lines),
            }
        } else {
            SOutputRender {
                html:
                    "        <div class=\"nb-output nb-output-error\">\n            <div class=\"nb-output-content\">"@
                    + crate::text::spec_join_nl(lines) + "</div>\n        </div>\n"@,
                trunc: Option::None,
            }
        }
    } else {
        SOutputRender { html: Seq::empty(), trunc: Option::None }
    }
}

/// Render one output into the buffer; when it was long enough to
/// truncate, return the retained state for later reveal requests.
#[verifier::rlimit(100)]
pub fn render_output(
    html: &mut Vec<char>,
    output: &CellOutput,
    exec_count: &str,
    cell_idx: usize,
    output_idx: usize,
) -> (t: Option<crate::truncate::TruncatedOutput>)
    ensures
        ({
            let sr = spec_render_output(*output, exec_count@, cell_idx as int, output_idx as int);
            &&& final(html)@ == old(html)@ + sr.html
            &&& match (t, sr.trunc) {
                (Option::Some(tr), Option::Some(lines)) => tr.full_lines.deep_view() == lines
                    && tr.total_lines == lines.len() && tr.shown_lines
                    == crate::truncate::HEAD_LINES && tr.wf(),
                (Option::None, Option::None) => true,
                _ => false,
            }
        }),
{
    proof {
        reveal_strlit("");
        assert(""@ =~= Seq::<char>::empty());
    }
    if string_is(&output.output_type, "stream") {
        match &output.text {
            Some(t) => {
                let text = t.to_string();
                let tchars = str_to_chars(text.as_str());
                let lines = escape_lines(&tchars);
                if lines.len() > crate::truncate::TRUNCATE_THRESHOLD {
                    let tr = render_truncated_text(
                        html,
                        &lines,
                        cell_idx,
                        output_idx,
                        "nb-output nb-output-stream",
                        "",
                    );
                    proof {
                        assert(tr.full_lines.deep_view() =~~= lines.deep_view());
                    }
                    Some(tr)
                } else {
                    push_str_chars(
                        html,
                        "        <div class=\"nb-output nb-output-stream\">\n            <div class=\"nb-output-content\">",
                    );
                    push_escaped(html, &tchars);
                    push_str_chars(html, "</div>\n        </div>\n");
                    proof {
                        assert(html@ =~= old(html)@ + spec_render_output(
                            *output,
                            exec_count@,
                            cell_idx as int,
                            output_idx as int,
                        ).html);
                    }
                    None
                }
            },
            None => {
                proof {
                    assert(html@ =~= old(html)@ + spec_render_output(
                        *output,
                        exec_count@,
                        cell_idx as int,
                        output_idx as int,
                    ).html);
                }
                None
            },
        }
    } else if string_is(&output.output_type, "execute_result") || string_is(
        &output.output_type,
        "display_data",
    ) {
        let is_exec = string_is(&output.output_type, "execute_result");
        match &output.data {
            Some(d) => {
                if let Some(img) = data_get(d, "image/png") {
                    let payload = img.to_string();
                    push_str_chars(
                        html,
                        "        <div class=\"nb-output nb-output-image\">\n            <img src=\"data:",
                    );
                    push_str_chars(html, "image/png");
                    push_str_chars(html, ";base64,");
                    push_without_newlines(html, payload.as_str());
                    push_str_chars(
                        html,
                        "\" class=\"nb-figure\" alt=\"output\">\n        </div>\n",
                    );
                    proof {
                        assert(html@ =~= old(html)@ + spec_render_output(
                            *output,
                            exec_count@,
                            cell_idx as int,
                            output_idx as int,
                        ).html);
                    }
                    None
                } else if let Some(img) = data_get(d, "image/jpeg") {
                    let payload = img.to_string();
                    push_str_chars(
                        html,
                        "        <div class=\"nb-output nb-output-image\">\n            <img src=\"data:",
                    );
                    push_str_chars(html, "image/jpeg");
                    push_str_chars(html, ";base64,");
                    push_without_newlines(html, payload.as_str());
                    push_str_chars(
                        html,
                        "\" class=\"nb-figure\" alt=\"output\">\n        </div>\n",
                    );
                    proof {
                        assert(html@ =~= old(html)@ + spec_render_output(
                            *output,
                            exec_count@,
                            cell_idx as int,
                            output_idx as int,
                        ).html);
                    }
                    None
                } else if let Some(h) = data_get(d, "text/html") {
                    let raw = h.to_string();
                    let cleaned = strip_pre_wrapper(raw.as_str());
                    let prompt = build_prompt(is_exec, exec_count);
                    push_str_chars(
                        html,
                        "        <div class=\"nb-output nb-output-html\">\n            ",
                    );
                    push_str_chars(html, prompt.as_str());
                    push_str_chars(html, "\n            <div class=\"nb-output-content\">");
                    push_str_chars(html, cleaned.as_str());
                    push_str_chars(html, "</div>\n        </div>\n");
                    proof {
                        assert(html@ =~= old(html)@ + spec_render_output(
                            *output,
                            exec_count@,
                            cell_idx as int,
                            output_idx as int,
                        ).html);
                    }
                    None
                } else if let Some(t) = data_get(d, "text/plain") {
                    let text = t.to_string();
                    let tchars = str_to_chars(text.as_str());
                    let lines = escape_lines(&tchars);
                    let prompt = build_prompt(is_exec, exec_count);
                    if lines.len() > crate::truncate::TRUNCATE_THRESHOLD {
                        let tr = render_truncated_text(
                            html,
                            &lines,
                            cell_idx,
                            output_idx,
                            "nb-output nb-output-text",
                            prompt.as_str(),
                        );
                        proof {
                            assert(tr.full_lines.deep_view() =~~= lines.deep_view());
                        }
                        Some(tr)
                    } else {
                        push_str_chars(
                            html,
                            "        <div class=\"nb-output nb-output-text\">\n            ",
                        );
                        push_str_chars(html, prompt.as_str());
                        push_str_chars(html, "\n            <div class=\"nb-output-content\">");
                        push_escaped(html, &tchars);
                        push_str_chars(html, "</div>\n        </div>\n");
                        proof {
                            assert(html@ =~= old(html)@ + spec_render_output(
                                *output,
                                exec_count@,
                                cell_idx as int,
                                output_idx as int,
                            ).html);
                        }
                        None
                    }
                } else {
                    proof {
                        assert(html@ =~= old(html)@ + spec_render_output(
                            *output,
                            exec_count@,
                            cell_idx as int,
                            output_idx as int,
                        ).html);
                    }
                    None
                }
            },
            None => {
                proof {
                    assert(html@ =~= old(html)@ + spec_render_output(
                        *output,
                        exec_count@,
                        cell_idx as int,
                        output_idx as int,
                    ).html);
                }
                None
            },
        }
    } else if string_is(&output.output_type, "error") {
        let mut lines: Vec<String> = Vec::new();
        match &output.ename {
            Some(en) => {
                let mut first: Vec<char> = Vec::new();
                push_str_chars(&mut first, "<span style=\"color:#e06c75;font-weight:bold\">");
                let en_chars = str_to_chars(en.as_str());
                push_escaped(&mut first, &en_chars);
                push_str_chars(&mut first, "</span>");
                match &output.evalue {
                    Some(ev) => {
                        push_str_chars(&mut first, ": ");
                        let ev_chars = str_to_chars(ev.as_str());
                        push_escaped(&mut first, &ev_chars);
                    },
                    None => {},
                }
                lines.push(chars_to_string(&first));
            },
            None => {},
        }
        let ghost head = lines.deep_view();
        match &output.traceback {
            Some(tb) => {
                let m = tb.len();
                proof {
                    assert(head + tb.deep_view().map_values(
                        |l: Seq<char>| crate::ansi::spec_ansi_html(l, false),
                    ).take(0) =~~= head);
                }
                for j in 0..m
                    invariant
                        m == tb@.len(),
                        lines.deep_view() == head + tb.deep_view().map_values(
                            |l: Seq<char>| crate::ansi::spec_ansi_html(l, false),
                        ).take(j as int),
                {
                    let ghost pre = lines.deep_view();
                    let colored = crate::ansi::ansi_to_html(tb[j].as_str());
                    lines.push(colored);
                    proof {
                        let mapped = tb.deep_view().map_values(
                            |l: Seq<char>| crate::ansi::spec_ansi_html(l, false),
                        );
                        assert(tb.deep_view()[j as int] == tb@[j as int]@);
                        assert(mapped[j as int] == crate::ansi::spec_ansi_html(
                            tb@[j as int]@,
                            false,
                        ));
                        assert(mapped.take(j + 1) =~= mapped.take(j as int).push(
                            mapped[j as int],
                        ));
                        assert(lines.deep_view() =~~= pre.push(colored@));
                        assert(lines.deep_view() =~~= head + mapped.take(j + 1));
                    }
                }
                proof {
                    let mapped = tb.deep_view().map_values(
                        |l: Seq<char>| crate::ansi::spec_ansi_html(l, false),
                    );
                    assert(mapped.take(m as int) =~= mapped);
                }
            },
            None => {},
        }
        proof {
            assert(lines.deep_view() =~~= spec_error_lines(*output));
        }
        if lines.len() > crate::truncate::TRUNCATE_THRESHOLD {
            let tr = render_truncated_text(
                html,
                &lines,
                cell_idx,
                output_idx,
                "nb-output nb-output-error",
                "",
            );
            proof {
                assert(tr.full_lines.deep_view() =~~= lines.deep_view());
            }
            Some(tr)
        } else {
            push_str_chars(
                html,
                "        <div class=\"nb-output nb-output-error\">\n            <div class=\"nb-output-content\">",
            );
            crate::truncate::push_joined_strings(html, &lines, 0, lines.len());
            push_str_chars(html, "</div>\n        </div>\n");
            proof {
                assert(lines.deep_view().subrange(0, lines.deep_view().len() as int)
                    =~= lines.deep_view());
                assert(html@ =~= old(html)@ + spec_render_output(
                    *output,
                    exec_count@,
                    cell_idx as int,
                    output_idx as int,
                ).html);
            }
            None
        }
    } else {
        proof {
            assert(html@ =~= old(html)@ + spec_render_output(
                *output,
                exec_count@,
                cell_idx as int,
                output_idx as int,
            ).html);
        }
        None
    }
}


/// What rendering a whole notebook produces: the HTML, the merged table
/// of contents, and the truncated outputs' retained line lists with
/// their keys.
#[verifier::ext_equal]
pub struct SNotebook {
    pub html: Seq<char>,
    pub toc: Seq<(int, Seq<char>)>,
    pub truncs: Seq<(int, int, Seq<Seq<char>>)>,
}

/// The outputs of one code cell, rendered in order: their concatenated
/// markup and the truncated ones' retained lines.
pub open spec fn spec_outputs_run(
    outputs: Seq<CellOutput>,
    m: int,
    exec: Seq<char>,
    cell: int,
) -> (Seq<char>, Seq<(int, int, Seq<Seq<char>>)>)
    decreases m,
{
    if m <= 0 {
        (Seq::empty(), Seq::empty())
    } else {
        let prev = spec_outputs_run(outputs, m - 1, exec, cell);
        let sr = spec_render_output(outputs[m - 1], exec, cell, m - 1);
        (
            prev.0 + sr.html,
            match sr.trunc {
                Option::Some(lines) => prev.1.push((cell, m - 1, lines)),
                Option::None => prev.1,
            },
        )
    }
}

/// A markdown cell: the annotated rendering of its source, in a cell
/// container.
pub open spec fn md_cell_html(
    cell: NotebookCell,
    idx: int,
    images: Option<Seq<(String, Vec<u8>)>>,
) -> Seq<char> {
    "<div class=\"nb-cell nb-markdown-cell\" data-cell-idx=\""@ + spec_dec(idx as nat)
        + "\">\n"@ + crate::render::spec_markdown_html(cell.source.spec_string(), images)
        + "\n</div>\n"@
}

/// A code cell's input block: its label with the execution counter and
/// its escaped source.
pub open spec fn spec_cell_header(cell: NotebookCell, idx: int) -> Seq<char> {
    "<div class=\"nb-cell nb-code-cell\" data-cell-idx=\""@ + spec_dec(idx as nat)
        + "\">\n    <div class=\"nb-cell-header\">\n        <span class=\"nb-prompt nb-in\">In ["@
        + spec_exec_count(cell.execution_count)
        + "]:</span>\n        <button class=\"nb-collapse-btn\">\u{25bc}</button>\n    </div>\n    <div class=\"nb-input\">\n        <pre><code class=\"language-python\">"@
        + spec_escape(cell.source.spec_string()) + "</code></pre>\n    </div>\n"@
}

/// A code cell: its input block and, when it has outputs, their
/// container.
pub open spec fn code_cell_html(cell: NotebookCell, idx: int) -> Seq<char> {
    let outs = spec_outputs_run(
        cell.outputs@,
        cell.outputs@.len() as int,
        spec_exec_count(cell.execution_count),
        idx,
    );
    let outputs_html = if cell.outputs@.len() > 0 {
        "    <div class=\"nb-outputs\">\n"@ + outs.0 + "    </div>\n"@
    } else {
        Seq::<char>::empty()
    };
    spec_cell_header(cell, idx) + outputs_html + "</div>\n"@
}

/// A code cell's truncated outputs.
pub open spec fn code_cell_truncs(cell: NotebookCell, idx: int) -> Seq<(int, int, Seq<Seq<char>>)> {
    spec_outputs_run(
        cell.outputs@,
        cell.outputs@.len() as int,
        spec_exec_count(cell.execution_count),
        idx,
    ).1
}

/// A raw cell: its source, escaped and shown verbatim.
pub open spec fn raw_cell_html(cell: NotebookCell, idx: int) -> Seq<char> {
    "<div class=\"nb-cell nb-raw-cell\" data-cell-idx=\""@ + spec_dec(idx as nat)
        + "\">\n    <div class=\"nb-raw-content\">"@ + spec_escape(cell.source.spec_string())
        + "</div>\n</div>\n"@
}

/// The notebook's cells rendered in order: markdown cells through the
/// annotated renderer (merging their headings into the table of
/// contents), code cells with their outputs, raw cells verbatim and
/// escaped; anything else contributes nothing.
pub open spec fn spec_nb_run(
    cells: Seq<NotebookCell>,
    n: int,
    images: Option<Seq<(String, Vec<u8>)>>,
) -> SNotebook
    decreases n,
{
    if n <= 0 {
        SNotebook { html: Seq::empty(), toc: Seq::empty(), truncs: Seq::empty() }
    } else {
        let prev = spec_nb_run(cells, n - 1, images);
        let cell = cells[n - 1];
        let idx = n - 1;
        if cell.cell_type@ == "markdown"@ {
            SNotebook {
                html: prev.html + md_cell_html(cell, idx, images),
                toc: crate::toc::spec_extract_headings(cell.source.spec_string(), prev.toc),
                truncs: prev.truncs,
            }
        } else if cell.cell_type@ == "code"@ {
            SNotebook {
                html: prev.html + code_cell_html(cell, idx),
                toc: prev.toc,
                truncs: prev.truncs + code_cell_truncs(cell, idx),
            }
        } else if cell.cell_type@ == "raw"@ {
            SNotebook { html: prev.html + raw_cell_html(cell, idx), toc: prev.toc, truncs: prev.truncs }
        } else {
            prev
        }
    }
}

/// The whole notebook rendered, wrapped in its container element.
pub open spec fn spec_notebook_html(
    cells: Seq<NotebookCell>,
    images: Option<Seq<(String, Vec<u8>)>>,
) -> SNotebook {
    let run = spec_nb_run(cells, cells.len() as int, images);
    SNotebook { html: "<div class=\"notebook\">\n"@ + run.html + "</div>\n"@, ..run }
}

/// Append a markdown cell's rendering and merge its headings.
fn render_md_cell(
    html: &mut Vec<char>,
    toc: &mut Vec<(usize, String)>,
    cell: &NotebookCell,
    idx: usize,
    images: Option<&crate::image::ImageStore>,
)
    ensures
        final(html)@ == old(html)@ + md_cell_html(*cell, idx as int, crate::image::spec_images(images)),
        crate::toc::abs_entries(final(toc)@) == crate::toc::spec_extract_headings(
            cell.source.spec_string(),
            crate::toc::abs_entries(old(toc)@),
        ),
{
    let src = cell.source.to_string();
    crate::toc::extract_headings_from_markdown(src.as_str(), toc);
    let rendered = crate::render::markdown_to_html(src.as_str(), images);
    push_str_chars(html, "<div class=\"nb-cell nb-markdown-cell\" data-cell-idx=\"");
    push_u64(html, idx as u64);
    push_str_chars(html, "\">\n");
    push_str_chars(html, rendered.as_str());
    push_str_chars(html, "\n</div>\n");
    proof {
        assert(html@ =~= old(html)@ + md_cell_html(
            *cell,
            idx as int,
            crate::image::spec_images(images),
        ));
    }
}

/// Append a raw cell's rendering.
fn render_raw_cell(html: &mut Vec<char>, cell: &NotebookCell, idx: usize)
    ensures
        final(html)@ == old(html)@ + raw_cell_html(*cell, idx as int),
{
    push_str_chars(html, "<div class=\"nb-cell nb-raw-cell\" data-cell-idx=\"");
    push_u64(html, idx as u64);
    push_str_chars(html, "\">\n    <div class=\"nb-raw-content\">");
    let src = cell.source.to_string();
    let src_chars = str_to_chars(src.as_str());
    push_escaped(html, &src_chars);
    push_str_chars(html, "</div>\n</div>\n");
    proof {
        assert(html@ =~= old(html)@ + raw_cell_html(*cell, idx as int));
    }
}

/// Append a code cell's rendering, recording every truncated output.
#[verifier::rlimit(100)]
fn render_code_cell(
    html: &mut Vec<char>,
    map: &mut crate::truncate::TruncationMap,
    cell: &NotebookCell,
    idx: usize,
)
    requires
        old(map).wf(),
    ensures
        final(map).wf(),
        final(html)@ == old(html)@ + code_cell_html(*cell, idx as int),
        ({
            let truncs = code_cell_truncs(*cell, idx as int);
            &&& final(map).entries@.len() == old(map).entries@.len() + truncs.len()
            &&& forall|k: int|
                0 <= k < old(map).entries@.len() ==> #[trigger] final(map).entries@[k] == old(
                    map,
                ).entries@[k]
            &&& forall|k: int|
                0 <= k < truncs.len() ==> {
                    let e = #[trigger] final(map).entries@[old(map).entries@.len() + k];
                    &&& e.0 as int == truncs[k].0
                    &&& e.1 as int == truncs[k].1
                    &&& e.2.full_lines.deep_view() == truncs[k].2
                    &&& e.2.shown_lines == crate::truncate::HEAD_LINES
                }
        }),
{
    let exec_count = exec_count_string(&cell.execution_count);
    push_str_chars(html, "<div class=\"nb-cell nb-code-cell\" data-cell-idx=\"");
    push_u64(html, idx as u64);
    push_str_chars(
        html,
        "\">\n    <div class=\"nb-cell-header\">\n        <span class=\"nb-prompt nb-in\">In [",
    );
    push_str_chars(html, exec_count.as_str());
    push_str_chars(
        html,
        "]:</span>\n        <button class=\"nb-collapse-btn\">\u{25bc}</button>\n    </div>\n    <div class=\"nb-input\">\n        <pre><code class=\"language-python\">",
    );
    let src = cell.source.to_string();
    let src_chars = str_to_chars(src.as_str());
    push_escaped(html, &src_chars);
    push_str_chars(html, "</code></pre>\n    </div>\n");
    proof {
        assert(html@ =~= old(html)@ + spec_cell_header(*cell, idx as int));
    }
    let m = cell.outputs.len();
    if m > 0 {
        push_str_chars(html, "    <div class=\"nb-outputs\">\n");
        let ghost base = html@;
        let ghost tbase = map.entries@;
        proof {
            assert(html@ =~= base + spec_outputs_run(cell.outputs@, 0, exec_count@, idx as int).0);
        }
        for j in 0..m
            invariant
                m == cell.outputs@.len(),
                map.wf(),
                exec_count@ == spec_exec_count(cell.execution_count),
                html@ == base + spec_outputs_run(cell.outputs@, j as int, exec_count@, idx as int).0,
                map.entries@.len() == tbase.len() + spec_outputs_run(
                    cell.outputs@,
                    j as int,
                    exec_count@,
                    idx as int,
                ).1.len(),
                forall|k: int| 0 <= k < tbase.len() ==> #[trigger] map.entries@[k] == tbase[k],
                forall|k: int|
                    tbase.len() <= k < map.entries@.len() ==> {
                        let e = #[trigger] map.entries@[k];
                        let t = spec_outputs_run(
                            cell.outputs@,
                            j as int,
                            exec_count@,
                            idx as int,
                        ).1[k - tbase.len()];
                        &&& e.0 as int == t.0
                        &&& e.1 as int == t.1
                        &&& e.2.full_lines.deep_view() == t.2
                        &&& e.2.shown_lines == crate::truncate::HEAD_LINES
                    },
        {
            match render_output(html, &cell.outputs[j], exec_count.as_str(), idx, j) {
                Some(tr) => {
                    map.insert(idx, j, tr);
                },
                None => {},
            }
            proof {
                let onext = spec_outputs_run(cell.outputs@, j + 1, exec_count@, idx as int);
                assert(html@ =~= base + onext.0);
            }
        }
        push_str_chars(html, "    </div>\n");
    }
    push_str_chars(html, "</div>\n");
    proof {
        assert(html@ =~= old(html)@ + code_cell_html(*cell, idx as int));
    }
}

/// Render a notebook to HTML, cell by cell. Returns the page fragment,
/// the table of contents merged from every markdown cell, and the
/// retained state of every output that was truncated, keyed by cell and
/// output index.
#[verifier::rlimit(60)]
pub fn notebook_to_html(notebook: &Notebook, images: Option<&crate::image::ImageStore>) -> (r: (
    String,
    Vec<(usize, String)>,
    crate::truncate::TruncationMap,
))
    ensures
        ({
            let sn = spec_notebook_html(notebook.cells@, crate::image::spec_images(images));
            &&& r.0@ == sn.html
            &&& crate::toc::abs_entries(r.1@) == sn.toc
            &&& r.2.wf()
            &&& r.2.entries@.len() == sn.truncs.len()
            &&& forall|i: int|
                0 <= i < sn.truncs.len() ==> {
                    let e = #[trigger] r.2.entries@[i];
                    &&& e.0 as int == sn.truncs[i].0
                    &&& e.1 as int == sn.truncs[i].1
                    &&& e.2.full_lines.deep_view() == sn.truncs[i].2
                    &&& e.2.shown_lines == crate::truncate::HEAD_LINES
                }
        }),
{
    let ghost simages = crate::image::spec_images(images);
    let mut html: Vec<char> = Vec::new();
    push_str_chars(&mut html, "<div class=\"notebook\">\n");
    let mut toc: Vec<(usize, String)> = Vec::new();
    let mut map = crate::truncate::TruncationMap::new();
    let n = notebook.cells.len();
    proof {
        assert(crate::toc::abs_entries(toc@) =~~= spec_nb_run(notebook.cells@, 0, simages).toc);
        assert(html@ =~= "<div class=\"notebook\">\n"@ + spec_nb_run(
            notebook.cells@,
            0,
            simages,
        ).html);
    }
    for i in 0..n
        invariant
            n == notebook.cells@.len(),
            map.wf(),
            simages == crate::image::spec_images(images),
            html@ == "<div class=\"notebook\">\n"@ + spec_nb_run(
                notebook.cells@,
                i as int,
                simages,
            ).html,
            crate::toc::abs_entries(toc@) == spec_nb_run(notebook.cells@, i as int, simages).toc,
            map.entries@.len() == spec_nb_run(notebook.cells@, i as int, simages).truncs.len(),
            forall|k: int|
                0 <= k < map.entries@.len() ==> {
                    let e = #[trigger] map.entries@[k];
                    let t = spec_nb_run(notebook.cells@, i as int, simages).truncs[k];
                    &&& e.0 as int == t.0
                    &&& e.1 as int == t.1
                    &&& e.2.full_lines.deep_view() == t.2
                    &&& e.2.shown_lines == crate::truncate::HEAD_LINES
                },
    {
        let ghost prev = spec_nb_run(notebook.cells@, i as int, simages);
        let ghost cur = spec_nb_run(notebook.cells@, i + 1, simages);
        let cell = &notebook.cells[i];
        if string_is(&cell.cell_type, "markdown") {
            render_md_cell(&mut html, &mut toc, cell, i, images);
            proof {
                assert(html@ =~= "<div class=\"notebook\">\n"@ + cur.html);
            }
        } else if string_is(&cell.cell_type, "code") {
            let ghost tbase = map.entries@;
            render_code_cell(&mut html, &mut map, cell, i);
            proof {
                let truncs = code_cell_truncs(notebook.cells@[i as int], i as int);
                assert(html@ =~= "<div class=\"notebook\">\n"@ + cur.html);
                assert(cur.truncs =~~= prev.truncs + truncs);
                assert forall|k: int| 0 <= k < map.entries@.len() implies {
                    let e = #[trigger] map.entries@[k];
                    let t = cur.truncs[k];
                    &&& e.0 as int == t.0
                    &&& e.1 as int == t.1
                    &&& e.2.full_lines.deep_view() == t.2
                    &&& e.2.shown_lines == crate::truncate::HEAD_LINES
                } by {
                    if k < tbase.len() {
                        assert(map.entries@[k] == tbase[k]);
                        assert(cur.truncs[k] == prev.truncs[k]);
                    } else {
                        let k2 = k - tbase.len();
                        assert(map.entries@[tbase.len() + k2].0 as int == truncs[k2].0);
                        assert(map.entries@[tbase.len() + k2].1 as int == truncs[k2].1);
                        assert(map.entries@[tbase.len() + k2].2.full_lines.deep_view()
                            == truncs[k2].2);
                        assert(map.entries@[tbase.len() + k2].2.shown_lines
                            == crate::truncate::HEAD_LINES);
                        assert(cur.truncs[k] == truncs[k2]);
                    }
                }
            }
        } else if string_is(&cell.cell_type, "raw") {
            render_raw_cell(&mut html, cell, i);
            proof {
                assert(html@ =~= "<div class=\"notebook\">\n"@ + cur.html);
            }
        }
    }
    push_str_chars(&mut html, "</div>\n");
    proof {
        let run = spec_nb_run(notebook.cells@, n as int, simages);
        assert(html@ =~= "<div class=\"notebook\">\n"@ + run.html + "</div>\n"@);
    }
    (chars_to_string(&html), toc, map)
}

} // verus!

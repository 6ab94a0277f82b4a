//! The output truncation engine. An output whose line count passes the
//! threshold is rendered head and tail only, and the full line list is
//! retained; later reveal requests serve further lines from it, keyed by
//! cell and output index.

use vstd::prelude::*;
use crate::text::spec_join_nl;
use crate::text::push_str_chars;
use crate::text::chars_to_string;

verus! {

use vstd::string::StringExecFns;

/// Outputs longer than this many lines are truncated at render time.
pub const TRUNCATE_THRESHOLD: usize = 290;

/// How many leading lines a truncated output shows at once.
pub const HEAD_LINES: usize = 200;

/// How many trailing lines a truncated output always shows.
pub const TAIL_LINES: usize = 10;

/// How many more lines a reveal request serves when it names no count.
pub const DEFAULT_REVEAL: usize = 50;

/// A truncated output's retained state: every line (pre-escaped for
/// direct insertion), the total count, and how many lines the client has
/// been shown so far.
pub struct TruncatedOutput {
    pub full_lines: Vec<String>,
    pub total_lines: usize,
    pub shown_lines: usize,
}

impl TruncatedOutput {
    /// The state is consistent: the count matches the lines, the output
    /// was long enough to truncate, and what is shown lies between the
    /// head and everything short of the fixed tail.
    pub open spec fn wf(self) -> bool {
        &&& self.total_lines == self.full_lines@.len()
        &&& self.total_lines > TRUNCATE_THRESHOLD
        &&& HEAD_LINES <= self.shown_lines <= self.total_lines - TAIL_LINES
    }
}

/// A reveal request's amount: everything, or the next `n` lines.
pub enum RevealAmount {
    All,
    Count(usize),
}

/// What one reveal request returns and leaves behind.
#[verifier::ext_equal]
pub struct SReveal {
    /// The newline-joined fragment served to the client.
    pub fragment: Seq<char>,
    /// How many lines count as shown afterwards.
    pub shown: int,
    /// How many lines remain hidden between what is shown and the tail.
    pub hidden: int,
    /// Whether nothing is left to reveal.
    pub complete: bool,
}

/// The reveal protocol. `None` stands for "all": everything between what
/// is shown and the fixed tail is served at once. A count serves the next
/// `n` lines, stopping at the tail.
pub open spec fn spec_reveal(lines: Seq<Seq<char>>, shown: int, amount: Option<int>) -> SReveal {
    let total = lines.len() as int;
    match amount {
        Option::None => SReveal {
            fragment: spec_join_nl(lines.subrange(shown, total - TAIL_LINES as int)),
            shown: total - TAIL_LINES as int,
            hidden: 0,
            complete: true,
        },
        Option::Some(n) => {
            let end = if shown + n <= total - TAIL_LINES as int {
                shown + n
            } else {
                total - TAIL_LINES as int
            };
            SReveal {
                fragment: spec_join_nl(lines.subrange(shown, end)),
                shown: end,
                hidden: total - TAIL_LINES as int - end,
                complete: total - TAIL_LINES as int - end == 0,
            }
        },
    }
}

/// Append `lines[from..to]`, joined with newlines, to a buffer.
pub(crate) fn push_joined_strings(out: &mut Vec<char>, lines: &Vec<String>, from: usize, to: usize)
    requires
        from <= to <= lines@.len(),
    ensures
        final(out)@ == old(out)@ + spec_join_nl(
            lines.deep_view().subrange(from as int, to as int),
        ),
{
    let mut k: usize = from;
    while k < to
        invariant
            from <= k <= to <= lines@.len(),
            out@ == old(out)@ + spec_join_nl(lines.deep_view().subrange(from as int, k as int)),
        decreases to - k,
    {
        let ghost before = lines.deep_view().subrange(from as int, k as int);
        if k > from {
            out.push('\n');
        }
        push_str_chars(out, lines[k].as_str());
        proof {
            let after = lines.deep_view().subrange(from as int, k + 1);
            assert(after.drop_last() =~= before);
            assert(after.last() == lines.deep_view()[k as int]);
            if k == from {
                assert(after =~= seq![lines.deep_view()[k as int]]);
            }
            assert(out@ =~= old(out)@ + spec_join_nl(after));
        }
        k = k + 1;
    }
}

impl TruncatedOutput {
    /// Serve one reveal request: return the newline-joined fragment, the
    /// count of lines still hidden, and whether the reveal is complete,
    /// and account for what the client now has.
    pub fn reveal_more(&mut self, amount: &RevealAmount) -> (r: (String, usize, bool))
        requires
            old(self).wf(),
        ensures
            final(self).wf(),
            final(self).full_lines@ == old(self).full_lines@,
            final(self).total_lines == old(self).total_lines,
            ({
                let spec_amount = match amount {
                    RevealAmount::All => Option::<int>::None,
                    RevealAmount::Count(n) => Option::Some(*n as int),
                };
                let outcome = spec_reveal(
                    old(self).full_lines.deep_view(),
                    old(self).shown_lines as int,
                    spec_amount,
                );
                &&& r.0@ == outcome.fragment
                &&& r.1 as int == outcome.hidden
                &&& r.2 == outcome.complete
                &&& final(self).shown_lines as int == outcome.shown
            }),
    {
        let limit = self.total_lines - TAIL_LINES;
        match amount {
            RevealAmount::All => {
                let mut fragment: Vec<char> = Vec::new();
                push_joined_strings(&mut fragment, &self.full_lines, self.shown_lines, limit);
                self.shown_lines = limit;
                (chars_to_string(&fragment), 0, true)
            },
            RevealAmount::Count(n) => {
                let end = if *n <= limit - self.shown_lines {
                    self.shown_lines + *n
                } else {
                    limit
                };
                let mut fragment: Vec<char> = Vec::new();
                push_joined_strings(&mut fragment, &self.full_lines, self.shown_lines, end);
                self.shown_lines = end;
                let hidden = limit - end;
                (chars_to_string(&fragment), hidden, hidden == 0)
            },
        }
    }
}

/// Revealing everything twice in a row returns an empty fragment the
/// second time, and both requests report completion: one "all" leaves
/// nothing more to serve.
pub proof fn lemma_reveal_all_idempotent(lines: Seq<Seq<char>>, shown: int)
    requires
        0 <= shown <= lines.len() - TAIL_LINES,
    ensures
        ({
            let first = spec_reveal(lines, shown, Option::None);
            let second = spec_reveal(lines, first.shown, Option::None);
            &&& first.complete
            &&& second.complete
            &&& second.fragment == Seq::<char>::empty()
            &&& second.shown == first.shown
        }),
{
    let first = spec_reveal(lines, shown, Option::None);
    let second = spec_reveal(lines, first.shown, Option::None);
    assert(lines.subrange(first.shown, lines.len() - TAIL_LINES as int) =~= Seq::<Seq<
        char,
    >>::empty());
}

/// Numeric reveals with a positive count strictly advance what is shown
/// until nothing is hidden; after that they are no-ops that serve an
/// empty fragment.
pub proof fn lemma_reveal_monotone(lines: Seq<Seq<char>>, shown: int, n: int)
    requires
        0 <= shown <= lines.len() - TAIL_LINES,
        n >= 1,
    ensures
        ({
            let outcome = spec_reveal(lines, shown, Option::Some(n));
            &&& shown < lines.len() - TAIL_LINES ==> outcome.shown > shown
            &&& shown == lines.len() - TAIL_LINES ==> outcome.shown == shown && outcome.fragment
                == Seq::<char>::empty() && outcome.complete
        }),
{
    let outcome = spec_reveal(lines, shown, Option::Some(n));
    if shown == lines.len() - TAIL_LINES {
        assert(lines.subrange(shown, shown) =~= Seq::<Seq<char>>::empty());
    }
}

/// The retained truncation state of one view, keyed by cell index and
/// output index.
pub struct TruncationMap {
    pub entries: Vec<(usize, usize, TruncatedOutput)>,
}

/// The index of the entry for a key, if any.
pub open spec fn trunc_lookup(
    entries: Seq<(usize, usize, TruncatedOutput)>,
    cell: usize,
    output: usize,
) -> Option<int>
    decreases entries.len(),
{
    if entries.len() == 0 {
        Option::None
    } else if entries[0].0 == cell && entries[0].1 == output {
        Option::Some(0)
    } else {
        match trunc_lookup(entries.skip(1), cell, output) {
            Option::Some(i) => Option::Some(i + 1),
            Option::None => Option::None,
        }
    }
}

proof fn lemma_trunc_lookup_at(
    entries: Seq<(usize, usize, TruncatedOutput)>,
    cell: usize,
    output: usize,
    i: int,
)
    requires
        0 <= i <= entries.len(),
        forall|k: int|
            0 <= k < i ==> !((#[trigger] entries[k]).0 == cell && entries[k].1 == output),
        i < entries.len() ==> entries[i].0 == cell && entries[i].1 == output,
    ensures
        i < entries.len() ==> trunc_lookup(entries, cell, output) == Option::Some(i),
        i == entries.len() ==> trunc_lookup(entries, cell, output) is None,
    decreases entries.len(),
{
    if entries.len() > 0 && !(entries[0].0 == cell && entries[0].1 == output) {
        assert(forall|k: int|
            0 <= k < i - 1 ==> #[trigger] entries.skip(1)[k] == entries[k + 1]);
        lemma_trunc_lookup_at(entries.skip(1), cell, output, i - 1);
    }
}

impl TruncationMap {
    /// Every retained state is consistent.
    pub open spec fn wf(self) -> bool {
        forall|i: int| 0 <= i < self.entries@.len() ==> (#[trigger] self.entries@[i]).2.wf()
    }

    /// A map with nothing truncated.
    pub fn new() -> (m: TruncationMap)
        ensures
            m.wf(),
            m.entries@.len() == 0,
    {
        TruncationMap { entries: Vec::new() }
    }

    /// Record the retained state of a freshly truncated output.
    pub fn insert(&mut self, cell: usize, output: usize, t: TruncatedOutput)
        requires
            old(self).wf(),
            t.wf(),
        ensures
            final(self).wf(),
            final(self).entries@ == old(self).entries@.push((cell, output, t)),
    {
        self.entries.push((cell, output, t));
    }

    /// Serve a reveal request for a key. Unknown keys are a no-op: state
    /// exists only for outputs that were split at render time.
    pub fn serve(&mut self, cell: usize, output: usize, amount: &RevealAmount) -> (r: Option<
        (String, usize, bool),
    >)
        requires
            old(self).wf(),
        ensures
            final(self).wf(),
            match trunc_lookup(old(self).entries@, cell, output) {
                Option::None => r is None && final(self).entries@ == old(self).entries@,
                Option::Some(i) => {
                    let entry = old(self).entries@[i].2;
                    let spec_amount = match amount {
                        RevealAmount::All => Option::<int>::None,
                        RevealAmount::Count(n) => Option::Some(*n as int),
                    };
                    let outcome = spec_reveal(
                        entry.full_lines.deep_view(),
                        entry.shown_lines as int,
                        spec_amount,
                    );
                    &&& r matches Option::Some(res) && res.0@ == outcome.fragment && res.1 as int
                        == outcome.hidden && res.2 == outcome.complete
                    &&& final(self).entries@.len() == old(self).entries@.len()
                    &&& forall|k: int|
                        0 <= k < old(self).entries@.len() && k != i
                            ==> final(self).entries@[k] == old(self).entries@[k]
                    &&& final(self).entries@[i].0 == cell && final(self).entries@[i].1 == output
                    &&& final(self).entries@[i].2.full_lines@ == entry.full_lines@
                    &&& final(self).entries@[i].2.total_lines == entry.total_lines
                    &&& final(self).entries@[i].2.shown_lines as int == outcome.shown
                },
            },
    {
        let n = self.entries.len();
        let mut idx = n;
        let mut i: usize = 0;
        while idx == n && i < n
            invariant
                i <= n == self.entries@.len(),
                idx == n || idx < n,
                idx == n ==> forall|k: int|
                    0 <= k < i ==> !((#[trigger] self.entries@[k]).0 == cell
                        && self.entries@[k].1 == output),
                idx < n ==> trunc_lookup(self.entries@, cell, output) == Option::Some(idx as int),
                idx < n ==> (#[trigger] self.entries@[idx as int]).0 == cell
                    && self.entries@[idx as int].1 == output,
            decreases n - i,
        {
            if self.entries[i].0 == cell && self.entries[i].1 == output {
                proof {
                    lemma_trunc_lookup_at(self.entries@, cell, output, i as int);
                }
                idx = i;
            }
            i = i + 1;
        }
        if idx == n {
            proof {
                lemma_trunc_lookup_at(self.entries@, cell, output, n as int);
            }
            return None;
        }
        let ghost entries0 = self.entries@;
        proof {
            assert(entries0[idx as int].2.wf());
        }
        let mut entry = self.entries.remove(idx);
        let r = entry.2.reveal_more(amount);
        self.entries.insert(idx, entry);
        proof {
            assert(self.entries@.len() == entries0.len());
            assert forall|k: int|
                0 <= k < entries0.len() && k != idx implies self.entries@[k] == entries0[k] by {
                if k < idx {
                } else {
                }
            }
            assert forall|k: int|
                0 <= k < self.entries@.len() implies (#[trigger] self.entries@[k]).2.wf() by {
                if k != idx {
                    assert(self.entries@[k] == entries0[k]);
                }
            }
        }
        Some(r)
    }
}

/// The index of the first key separator, or the length when there is
/// none.
pub open spec fn first_colon(s: Seq<char>) -> nat
    decreases s.len(),
{
    if s.len() == 0 {
        0
    } else if s[0] == ':' {
        0
    } else {
        1 + first_colon(s.skip(1))
    }
}

proof fn lemma_first_colon_is(s: Seq<char>, k: int)
    requires
        0 <= k <= s.len(),
        forall|i: int| 0 <= i < k ==> s[i] != ':',
        k < s.len() ==> s[k] == ':',
    ensures
        first_colon(s) == k,
    decreases s.len(),
{
    if s.len() > 0 && s[0] != ':' {
        lemma_first_colon_is(s.skip(1), k - 1);
    }
}

/// The fields of a request, split at every separator, empties included.
pub open spec fn colon_split(s: Seq<char>) -> Seq<Seq<char>>
    decreases s.len(),
{
    let j = first_colon(s) as int;
    if j >= s.len() {
        seq![s]
    } else {
        seq![s.take(j)] + colon_split(s.skip(j + 1))
    }
}

/// Split a buffer at every key separator, empties included.
fn split_colons(text: &Vec<char>) -> (pieces: Vec<Vec<char>>)
    ensures
        pieces.deep_view() == colon_split(text@),
{
    let mut pieces: Vec<Vec<char>> = Vec::new();
    let mut pos: usize = 0;
    proof {
        assert(text@.skip(0) =~= text@);
        assert(pieces.deep_view() =~~= Seq::<Seq<char>>::empty());
    }
    loop
        invariant
            pos <= text@.len(),
            colon_split(text@) == pieces.deep_view() + colon_split(text@.skip(pos as int)),
        decreases text@.len() - pos + 1,
    {
        let ghost rest = text@.skip(pos as int);
        let mut j: usize = pos;
        while j < text.len() && text[j] != ':'
            invariant
                pos <= j <= text@.len(),
                forall|i: int| pos <= i < j ==> text@[i] != ':',
            decreases text@.len() - j,
        {
            j = j + 1;
        }
        proof {
            assert forall|i: int| 0 <= i < j - pos implies rest[i] != ':' by {
                assert(rest[i] == text@[pos + i]);
            }
            if j < text@.len() {
                assert(rest[j - pos] == text@[j as int]);
            }
            lemma_first_colon_is(rest, j - pos);
        }
        let mut piece: Vec<char> = Vec::new();
        let mut k: usize = pos;
        while k < j
            invariant
                pos <= k <= j <= text@.len(),
                piece@ == text@.subrange(pos as int, k as int),
            decreases j - k,
        {
            piece.push(text[k]);
            proof {
                assert(text@.subrange(pos as int, k + 1) =~= text@.subrange(
                    pos as int,
                    k as int,
                ).push(text@[k as int]));
            }
            k = k + 1;
        }
        let ghost old_pieces = pieces.deep_view();
        pieces.push(piece);
        proof {
            assert(pieces.deep_view() =~~= old_pieces.push(piece@));
            assert(rest.take(j - pos) =~= text@.subrange(pos as int, j as int));
        }
        if j < text.len() {
            proof {
                assert(rest.skip(j - pos + 1) =~= text@.skip(j + 1));
                assert(colon_split(rest) == seq![rest.take(j - pos)] + colon_split(
                    text@.skip(j + 1),
                ));
                assert(pieces.deep_view() + colon_split(text@.skip(j + 1)) =~~= old_pieces
                    + colon_split(rest));
            }
            pos = j + 1;
        } else {
            proof {
                assert(piece@ =~= rest);
                assert(colon_split(rest) =~~= seq![rest]);
                assert(pieces.deep_view() =~~= old_pieces + colon_split(rest));
            }
            return pieces;
        }
    }
}

/// A field read as an index: its decimal value, or zero when it does not
/// parse.
pub open spec fn index_field(s: Seq<char>) -> int {
    if crate::text::parses_as_usize(s) {
        crate::text::dec_value(crate::text::parse_body(s)) as int
    } else {
        0
    }
}

/// A parsed reveal request: the wire form is
/// `get_output_lines:<cell>:<output>:<amount>`. Anything else is no
/// request; malformed indices default to zero.
pub open spec fn spec_request(msg: Seq<char>) -> Option<(int, int, Seq<char>)> {
    if !crate::image::has_prefix(msg, "get_output_lines:"@) {
        Option::None
    } else {
        let parts = colon_split(msg.skip("get_output_lines:"@.len() as int));
        if parts.len() != 3 {
            Option::None
        } else {
            Option::Some((index_field(parts[0]), index_field(parts[1]), parts[2]))
        }
    }
}

/// An amount field: the literal `all`, or a count, with malformed
/// integers defaulting to fifty.
pub open spec fn spec_amount(s: Seq<char>) -> Option<int> {
    if s == "all"@ {
        Option::None
    } else if crate::text::parses_as_usize(s) {
        Option::Some(crate::text::dec_value(crate::text::parse_body(s)) as int)
    } else {
        Option::Some(DEFAULT_REVEAL as int)
    }
}

fn parse_index_field(piece: &Vec<char>) -> (r: usize)
    ensures
        r as int == index_field(piece@),
{
    match crate::text::parse_usize(piece) {
        Some(v) => v,
        None => 0,
    }
}

fn parse_amount_field(piece: &Vec<char>) -> (r: RevealAmount)
    ensures
        match r {
            RevealAmount::All => spec_amount(piece@) is None,
            RevealAmount::Count(n) => spec_amount(piece@) == Option::Some(n as int),
        },
{
    if crate::text::chars_eq_str(piece, "all") {
        RevealAmount::All
    } else {
        match crate::text::parse_usize(piece) {
            Some(v) => RevealAmount::Count(v),
            None => RevealAmount::Count(DEFAULT_REVEAL),
        }
    }
}

/// Parse a reveal request from the wire: the cell index, the output
/// index and the amount field, or nothing for any other message.
pub fn parse_output_request(msg: &str) -> (r: Option<(usize, usize, String)>)
    ensures
        match r {
            Option::Some(t) => spec_request(msg@) == Option::Some(
                (t.0 as int, t.1 as int, t.2@),
            ),
            Option::None => spec_request(msg@) is None,
        },
{
    let chars = crate::text::str_to_chars(msg);
    if !crate::image::chars_has_prefix(&chars, "get_output_lines:") {
        return None;
    }
    let plen = "get_output_lines:".unicode_len();
    let mut rest: Vec<char> = Vec::new();
    let mut k = plen;
    while k < chars.len()
        invariant
            plen <= k <= chars@.len(),
            rest@ == chars@.subrange(plen as int, k as int),
        decreases chars@.len() - k,
    {
        rest.push(chars[k]);
        proof {
            assert(chars@.subrange(plen as int, k + 1) =~= chars@.subrange(
                plen as int,
                k as int,
            ).push(chars@[k as int]));
        }
        k = k + 1;
    }
    proof {
        assert(rest@ =~= chars@.skip(plen as int));
    }
    let parts = split_colons(&rest);
    if parts.len() != 3 {
        return None;
    }
    let cell = parse_index_field(&parts[0]);
    let output = parse_index_field(&parts[1]);
    let amount = crate::text::chars_to_string(&parts[2]);
    proof {
        assert(parts.deep_view()[0] == parts@[0]@);
        assert(parts.deep_view()[1] == parts@[1]@);
        assert(parts.deep_view()[2] == parts@[2]@);
    }
    Some((cell, output, amount))
}

/// Handle one reveal request from the wire against a view's truncation
/// state: parse it, serve it, and return what the display layer needs —
/// the key, the fragment, the hidden count and the completion flag.
/// Messages that are no reveal request, and keys with no retained state,
/// are silently ignored.
pub fn handle_output_request(map: &mut TruncationMap, msg: &str) -> (r: Option<
    (usize, usize, String, usize, bool),
>)
    requires
        old(map).wf(),
    ensures
        final(map).wf(),
        match spec_request(msg@) {
            Option::None => r is None && final(map).entries@ == old(map).entries@,
            Option::Some(req) => match trunc_lookup(old(map).entries@, req.0 as usize, req.1 as usize) {
                Option::None => r is None && final(map).entries@ == old(map).entries@,
                Option::Some(i) => {
                    let entry = old(map).entries@[i].2;
                    let outcome = spec_reveal(
                        entry.full_lines.deep_view(),
                        entry.shown_lines as int,
                        spec_amount(req.2),
                    );
                    &&& r matches Option::Some(res) && res.0 as int == req.0 && res.1 as int
                        == req.1 && res.2@ == outcome.fragment && res.3 as int == outcome.hidden
                        && res.4 == outcome.complete
                    &&& final(map).entries@.len() == old(map).entries@.len()
                    &&& forall|k: int|
                        0 <= k < old(map).entries@.len() && k != i ==> final(map).entries@[k]
                            == old(map).entries@[k]
                    &&& final(map).entries@[i].2.full_lines@ == entry.full_lines@
                    &&& final(map).entries@[i].2.shown_lines as int == outcome.shown
                },
            },
        },
{
    match parse_output_request(msg) {
        Some((cell, output, amount_s)) => {
            let amount_chars = crate::text::str_to_chars(amount_s.as_str());
            let amount = parse_amount_field(&amount_chars);
            match map.serve(cell, output, &amount) {
                Some((fragment, hidden, complete)) => Some(
                    (cell, output, fragment, hidden, complete),
                ),
                None => None,
            }
        },
        None => None,
    }
}

} // verus!

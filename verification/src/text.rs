//! Character-level utilities shared by the renderers: conversions between
//! `str`/`String` and `Vec<char>`, decimal formatting and parsing, HTML
//! escaping, line splitting, and the window-title truncation helpers.

use vstd::prelude::*;
use vstd::string::StrSliceExecFns;
use vstd::string::StringExecFns;

verus! {

/// Collect the characters of a string slice into a vector.
pub fn str_to_chars(s: &str) -> (v: Vec<char>)
    ensures
        v@ == s@,
{
    let n = s.unicode_len();
    let mut v: Vec<char> = Vec::new();
    for i in 0..n
        invariant
            n == s@.len(),
            v@ == s@.take(i as int),
    {
        v.push(s.get_char(i));
        proof {
            assert(s@.take(i + 1) =~= s@.take(i as int).push(s@[i as int]));
        }
    }
    proof {
        assert(s@.take(n as int) =~= s@);
    }
    v
}

/// Relies on `String: FromIterator<char>`: collecting an iterator of
/// characters yields the string made of exactly those characters, in order.
#[verifier::external_body]
pub fn chars_to_string(v: &Vec<char>) -> (s: String)
    ensures
        s@ == v@,
{
    v.iter().collect()
}

/// Append the characters of a string slice to a character buffer.
pub fn push_str_chars(out: &mut Vec<char>, s: &str)
    ensures
        final(out)@ == old(out)@ + s@,
{
    let mut tail = str_to_chars(s);
    out.append(&mut tail);
}

/// Append one character buffer to another, leaving the source untouched.
pub fn push_chars(out: &mut Vec<char>, piece: &Vec<char>)
    ensures
        final(out)@ == old(out)@ + piece@,
{
    out.extend_from_slice(piece.as_slice());
}

/// True exactly when the buffer holds the same characters as the slice.
pub fn chars_eq_str(v: &Vec<char>, s: &str) -> (b: bool)
    ensures
        b == (v@ == s@),
{
    let n = s.unicode_len();
    if v.len() != n {
        proof {
            assert(v@ != s@);
        }
        return false;
    }
    for i in 0..n
        invariant
            n == s@.len() == v@.len(),
            forall|j: int| 0 <= j < i ==> v@[j] == s@[j],
    {
        if v[i] != s.get_char(i) {
            return false;
        }
    }
    proof {
        assert(v@ =~= s@);
    }
    true
}

/// The character for a decimal digit.
pub open spec fn digit_char(d: nat) -> char {
    if d == 0 {
        '0'
    } else if d == 1 {
        '1'
    } else if d == 2 {
        '2'
    } else if d == 3 {
        '3'
    } else if d == 4 {
        '4'
    } else if d == 5 {
        '5'
    } else if d == 6 {
        '6'
    } else if d == 7 {
        '7'
    } else if d == 8 {
        '8'
    } else {
        '9'
    }
}

/// The decimal rendering of a natural number, without leading zeroes
/// (except for the number zero itself).
pub open spec fn spec_dec(n: nat) -> Seq<char>
    decreases n,
{
    if n < 10 {
        seq![digit_char(n)]
    } else {
        spec_dec(n / 10).push(digit_char(n % 10))
    }
}

fn digit_to_char(d: u64) -> (c: char)
    requires
        d < 10,
    ensures
        c == digit_char(d as nat),
{
    if d == 0 {
        '0'
    } else if d == 1 {
        '1'
    } else if d == 2 {
        '2'
    } else if d == 3 {
        '3'
    } else if d == 4 {
        '4'
    } else if d == 5 {
        '5'
    } else if d == 6 {
        '6'
    } else if d == 7 {
        '7'
    } else if d == 8 {
        '8'
    } else {
        '9'
    }
}

/// The decimal rendering of a number, as a character buffer.
pub fn u64_to_chars(n: u64) -> (v: Vec<char>)
    ensures
        v@ == spec_dec(n as nat),
    decreases n,
{
    if n < 10 {
        let mut v: Vec<char> = Vec::new();
        v.push(digit_to_char(n));
        v
    } else {
        let mut v = u64_to_chars(n / 10);
        v.push(digit_to_char(n % 10));
        v
    }
}

/// The decimal rendering of a wide number, as a character buffer.
pub fn u128_to_chars(n: u128) -> (v: Vec<char>)
    ensures
        v@ == spec_dec(n as nat),
    decreases n,
{
    if n < 10 {
        let mut v: Vec<char> = Vec::new();
        v.push(digit_to_char((n % 10) as u64));
        v
    } else {
        let mut v = u128_to_chars(n / 10);
        v.push(digit_to_char((n % 10) as u64));
        v
    }
}

/// Append the decimal rendering of a wide number to a character buffer.
pub fn push_u128(out: &mut Vec<char>, n: u128)
    ensures
        final(out)@ == old(out)@ + spec_dec(n as nat),
{
    let mut digits = u128_to_chars(n);
    out.append(&mut digits);
}

/// Append the decimal rendering of a number to a character buffer.
pub fn push_u64(out: &mut Vec<char>, n: u64)
    ensures
        final(out)@ == old(out)@ + spec_dec(n as nat),
{
    let mut digits = u64_to_chars(n);
    out.append(&mut digits);
}

pub open spec fn is_digit(c: char) -> bool {
    '0' <= c && c <= '9'
}

pub open spec fn digit_val(c: char) -> nat {
    ((c as int) - ('0' as int)) as nat
}

pub open spec fn all_digits(s: Seq<char>) -> bool {
    forall|i: int| 0 <= i < s.len() ==> is_digit(#[trigger] s[i])
}

/// The numeric value of a sequence of decimal digits.
pub open spec fn dec_value(s: Seq<char>) -> nat
    decreases s.len(),
{
    if s.len() == 0 {
        0
    } else {
        dec_value(s.drop_last()) * 10 + digit_val(s.last())
    }
}

/// The digits a parse actually reads: everything after one optional
/// leading plus sign.
pub open spec fn parse_body(s: Seq<char>) -> Seq<char> {
    if s.len() >= 1 && s[0] == '+' {
        s.skip(1)
    } else {
        s
    }
}

/// Whether a string parses as a `usize`, written the way the standard
/// library accepts it: an optional `+`, then one or more decimal digits,
/// with a value that fits.
pub open spec fn parses_as_usize(s: Seq<char>) -> bool {
    &&& parse_body(s).len() > 0
    &&& all_digits(parse_body(s))
    &&& dec_value(parse_body(s)) <= usize::MAX as nat
}

proof fn lemma_dec_value_grows(s: Seq<char>, i: int)
    requires
        0 <= i <= s.len(),
    ensures
        dec_value(s.take(i)) <= dec_value(s),
    decreases s.len() - i,
{
    if i < s.len() {
        assert(s.take(i + 1).drop_last() =~= s.take(i));
        assert(dec_value(s.take(i + 1)) == dec_value(s.take(i)) * 10 + digit_val(s[i]));
        lemma_dec_value_grows(s, i + 1);
        assert(s.take(s.len() as int) =~= s);
    } else {
        assert(s.take(i) =~= s);
    }
}

fn char_is_digit(c: char) -> (b: bool)
    ensures
        b == is_digit(c),
{
    (c as u32) >= ('0' as u32) && (c as u32) <= ('9' as u32)
}

/// Parse a decimal `usize` from a character buffer, mirroring
/// `str::parse::<usize>`: `Some` exactly on an optional plus sign followed
/// by digits whose value fits.
pub fn parse_usize(v: &Vec<char>) -> (r: Option<usize>)
    ensures
        r is Some <==> parses_as_usize(v@),
        r is Some ==> r->0 as nat == dec_value(parse_body(v@)),
{
    let ghost body = parse_body(v@);
    let start: usize = if v.len() >= 1 && v[0] == '+' {
        1
    } else {
        0
    };
    proof {
        assert(body =~= v@.skip(start as int));
    }
    if v.len() == start {
        return None;
    }
    let mut acc: usize = 0;
    let mut i: usize = start;
    while i < v.len()
        invariant
            start <= i <= v@.len(),
            body == v@.skip(start as int),
            body == parse_body(v@),
            all_digits(body.take(i - start)),
            acc as nat == dec_value(body.take(i - start)),
        decreases v@.len() - i,
    {
        let c = v[i];
        if !char_is_digit(c) {
            proof {
                assert(body[i - start] == c);
                assert(!all_digits(body));
            }
            return None;
        }
        let d: usize = (c as u32 as usize) - ('0' as u32 as usize);
        proof {
            assert(d as nat == digit_val(c));
        }
        if acc > (usize::MAX - d) / 10 {
            proof {
                assert(body.take(i - start + 1).drop_last() =~= body.take(i - start));
                assert(dec_value(body.take(i - start + 1)) == acc as nat * 10 + d as nat);
                assert(acc as nat >= (usize::MAX as nat - d as nat) / 10 + 1);
                assert(acc as nat * 10 + d as nat > usize::MAX as nat) by (nonlinear_arith)
                    requires
                        acc as nat >= (usize::MAX as nat - d as nat) / 10 + 1,
                        d as nat <= 9,
                ;
                lemma_dec_value_grows(body, i - start + 1);
            }
            return None;
        }
        proof {
            assert(acc as nat * 10 + d as nat <= usize::MAX as nat) by (nonlinear_arith)
                requires
                    acc as nat <= (usize::MAX as nat - d as nat) / 10,
                    d as nat <= 9,
            ;
        }
        acc = acc * 10 + d;
        proof {
            assert(body.take(i - start + 1).drop_last() =~= body.take(i - start));
            assert(body.take(i - start + 1).last() == c);
        }
        i = i + 1;
    }
    proof {
        assert(body.take(v@.len() - start) =~= body);
    }
    Some(acc)
}

/// What escaping one character for HTML yields: the four special
/// characters become entities, everything else stands as itself.
pub open spec fn escape_char(c: char) -> Seq<char> {
    if c == '&' {
        "&amp;"@
    } else if c == '<' {
        "&lt;"@
    } else if c == '>' {
        "&gt;"@
    } else if c == '"' {
        "&quot;"@
    } else {
        seq![c]
    }
}

/// The HTML escaping of a whole sequence of characters.
pub open spec fn spec_escape(s: Seq<char>) -> Seq<char>
    decreases s.len(),
{
    if s.len() == 0 {
        Seq::empty()
    } else {
        spec_escape(s.drop_last()) + escape_char(s.last())
    }
}

/// Append the HTML escaping of one character to a buffer.
pub fn push_escaped_char(out: &mut Vec<char>, c: char)
    ensures
        final(out)@ == old(out)@ + escape_char(c),
{
    if c == '&' {
        push_str_chars(out, "&amp;");
    } else if c == '<' {
        push_str_chars(out, "&lt;");
    } else if c == '>' {
        push_str_chars(out, "&gt;");
    } else if c == '"' {
        push_str_chars(out, "&quot;");
    } else {
        out.push(c);
        proof {
            assert(out@ =~= old(out)@ + escape_char(c));
        }
    }
}

/// Append the HTML escaping of a character buffer to a buffer.
pub fn push_escaped(out: &mut Vec<char>, s: &Vec<char>)
    ensures
        final(out)@ == old(out)@ + spec_escape(s@),
{
    let n = s.len();
    for i in 0..n
        invariant
            n == s@.len(),
            out@ == old(out)@ + spec_escape(s@.take(i as int)),
    {
        push_escaped_char(out, s[i]);
        proof {
            assert(s@.take(i + 1).drop_last() =~= s@.take(i as int));
            assert(s@.take(i + 1).last() == s@[i as int]);
        }
    }
    proof {
        assert(s@.take(n as int) =~= s@);
    }
}

/// Escape a string for inclusion in HTML: `&`, `<`, `>` and `"` become
/// character entities, in that order of precedence; nothing else changes.
pub fn html_escape(text: &str) -> (r: String)
    ensures
        r@ == spec_escape(text@),
{
    let chars = str_to_chars(text);
    let mut out: Vec<char> = Vec::new();
    push_escaped(&mut out, &chars);
    chars_to_string(&out)
}

/// A line with one trailing carriage return removed, as `str::lines` does
/// for lines that ended in `\r\n`.
pub open spec fn strip_cr(line: Seq<char>) -> Seq<char> {
    if line.len() > 0 && line.last() == '\r' {
        line.drop_last()
    } else {
        line
    }
}

/// The index of the first newline in a sequence, or its length when it has
/// none.
pub open spec fn first_nl(s: Seq<char>) -> nat
    decreases s.len(),
{
    if s.len() == 0 {
        0
    } else if s[0] == '\n' {
        0
    } else {
        1 + first_nl(s.skip(1))
    }
}

/// `first_nl` is pinned down by its characterisation: no newline before it,
/// a newline (or the end) at it.
proof fn lemma_first_nl_is(s: Seq<char>, k: int)
    requires
        0 <= k <= s.len(),
        forall|i: int| 0 <= i < k ==> s[i] != '\n',
        k < s.len() ==> s[k] == '\n',
    ensures
        first_nl(s) == k,
    decreases s.len(),
{
    if s.len() > 0 && s[0] != '\n' {
        lemma_first_nl_is(s.skip(1), k - 1);
    }
}

/// The lines of a text, split the way `str::lines` splits them: at every
/// newline, with a carriage return before the newline dropped, and with no
/// empty line after a final newline.
pub open spec fn spec_lines(s: Seq<char>) -> Seq<Seq<char>>
    decreases s.len(),
{
    if s.len() == 0 {
        Seq::empty()
    } else {
        let j = first_nl(s) as int;
        if j >= s.len() {
            seq![s]
        } else {
            seq![strip_cr(s.take(j))] + spec_lines(s.skip(j + 1))
        }
    }
}

/// Split a text into its lines, the way `str::lines` does.
pub fn split_lines(text: &Vec<char>) -> (lines: Vec<Vec<char>>)
    ensures
        lines.deep_view() == spec_lines(text@),
{
    let mut lines: Vec<Vec<char>> = Vec::new();
    let mut pos: usize = 0;
    proof {
        assert(text@.skip(0) =~= text@);
        assert(lines.deep_view() =~~= Seq::<Seq<char>>::empty());
    }
    while pos < text.len()
        invariant
            pos <= text@.len(),
            spec_lines(text@) == lines.deep_view() + spec_lines(text@.skip(pos as int)),
        decreases text@.len() - pos,
    {
        let ghost rest = text@.skip(pos as int);
        // find the next newline, or the end of the text
        let mut j: usize = pos;
        while j < text.len() && text[j] != '\n'
            invariant
                pos <= j <= text@.len(),
                forall|i: int| pos <= i < j ==> text@[i] != '\n',
            decreases text@.len() - j,
        {
            j = j + 1;
        }
        proof {
            assert forall|i: int| 0 <= i < j - pos implies rest[i] != '\n' by {
                assert(rest[i] == text@[pos + i]);
            }
            if j < text@.len() {
                assert(rest[j - pos] == text@[j as int]);
            }
            lemma_first_nl_is(rest, j - pos);
        }
        // a carriage return is dropped only before an actual newline
        let mut end = j;
        if j < text.len() && end > pos && text[end - 1] == '\r' {
            end = end - 1;
        }
        let mut line: Vec<char> = Vec::new();
        let mut k: usize = pos;
        while k < end
            invariant
                pos <= k <= end <= text@.len(),
                line@ == text@.subrange(pos as int, k as int),
            decreases end - k,
        {
            line.push(text[k]);
            proof {
                assert(text@.subrange(pos as int, k + 1) =~= text@.subrange(
                    pos as int,
                    k as int,
                ).push(text@[k as int]));
            }
            k = k + 1;
        }
        let ghost old_lines = lines.deep_view();
        lines.push(line);
        proof {
            assert(lines.deep_view() =~~= old_lines.push(line@));
        }
        if j < text.len() {
            proof {
                assert(rest.take(j - pos) =~= text@.subrange(pos as int, j as int));
                if j > pos && text@[j - 1] == '\r' {
                    assert(rest.take(j - pos).last() == '\r');
                    assert(strip_cr(rest.take(j - pos)) =~= text@.subrange(pos as int, j - 1));
                } else {
                    assert(strip_cr(rest.take(j - pos)) =~= text@.subrange(pos as int, j as int));
                }
                assert(line@ == strip_cr(rest.take(j - pos)));
                assert(rest.skip(j - pos + 1) =~= text@.skip(j + 1));
                assert(spec_lines(rest) == seq![strip_cr(rest.take(j - pos))] + spec_lines(
                    text@.skip(j + 1),
                ));
                assert(lines.deep_view() + spec_lines(text@.skip(j + 1)) =~~= old_lines + spec_lines(
                    rest,
                ));
            }
            pos = j + 1;
        } else {
            // the final line ends at the end of the text and keeps any
            // trailing carriage return
            proof {
                assert(line@ =~= text@.subrange(pos as int, j as int));
                assert(line@ =~= rest);
                assert(spec_lines(rest) =~~= seq![rest]);
                assert(spec_lines(text@.skip(text@.len() as int)) =~~= Seq::<Seq<char>>::empty());
                assert(lines.deep_view() + spec_lines(text@.skip(text@.len() as int))
                    =~~= old_lines + spec_lines(rest));
            }
            pos = text.len();
        }
    }
    proof {
        assert(text@.skip(pos as int) =~= Seq::<char>::empty());
        assert(lines.deep_view() + spec_lines(text@.skip(pos as int)) =~~= lines.deep_view());
    }
    lines
}

/// Lines joined with single newlines between them (and none at the end).
pub open spec fn spec_join_nl(lines: Seq<Seq<char>>) -> Seq<char>
    decreases lines.len(),
{
    if lines.len() == 0 {
        Seq::empty()
    } else if lines.len() == 1 {
        lines[0]
    } else {
        spec_join_nl(lines.drop_last()) + seq!['\n'] + lines.last()
    }
}

/// Append `lines[from..to]`, joined with newlines, to a buffer.
pub fn push_joined_range(out: &mut Vec<char>, lines: &Vec<Vec<char>>, from: usize, to: usize)
    requires
        from <= to <= lines@.len(),
    ensures
        final(out)@ == old(out)@ + spec_join_nl(lines.deep_view().subrange(from as int, to as int)),
{
    let mut k: usize = from;
    while k < to
        invariant
            from <= k <= to <= lines@.len(),
            out@ == old(out)@ + spec_join_nl(lines.deep_view().subrange(from as int, k as int)),
        decreases to - k,
    {
        let ghost before = lines.deep_view().subrange(from as int, k as int);
        if k > from {
            out.push('\n');
        }
        push_chars(out, &lines[k]);
        proof {
            let after = lines.deep_view().subrange(from as int, k + 1);
            assert(after.drop_last() =~= before);
            assert(after.last() == lines.deep_view()[k as int]);
            if k > from {
                assert(out@ =~= old(out)@ + spec_join_nl(after));
            } else {
                assert(after =~= seq![lines.deep_view()[k as int]]);
                assert(out@ =~= old(out)@ + spec_join_nl(after));
            }
        }
        k = k + 1;
    }
}

/// Truncation of a string to at most `max` characters, replacing the
/// excess tail with a single ellipsis.
pub open spec fn spec_truncate_end(s: Seq<char>, max: nat) -> Seq<char>
    recommends
        max >= 1,
{
    if s.len() <= max {
        s
    } else {
        s.take(max - 1) + seq!['\u{2026}']
    }
}

/// Shorten a string for display by dropping its tail.
pub fn truncate_end(s: &str, max: usize) -> (r: String)
    requires
        max >= 1,
    ensures
        r@ == spec_truncate_end(s@, max as nat),
{
    let n = s.unicode_len();
    if n <= max {
        String::from_str(s)
    } else {
        let keep = max - 1;
        let mut out: Vec<char> = Vec::new();
        for i in 0..keep
            invariant
                keep < n == s@.len(),
                out@ == s@.take(i as int),
        {
            out.push(s.get_char(i));
            proof {
                assert(s@.take(i + 1) =~= s@.take(i as int).push(s@[i as int]));
            }
        }
        out.push('\u{2026}');
        proof {
            assert(out@ =~= spec_truncate_end(s@, max as nat));
        }
        chars_to_string(&out)
    }
}

/// Truncation of a string to at most `max` characters, replacing the
/// middle with a single ellipsis and keeping both ends.
pub open spec fn spec_truncate_middle(s: Seq<char>, max: nat) -> Seq<char>
    recommends
        max >= 1,
{
    if s.len() <= max {
        s
    } else {
        s.take(((max - 1) / 2) as int) + seq!['\u{2026}'] + s.skip(
            s.len() - ((max - 1) - (max - 1) / 2),
        )
    }
}

/// Shorten a string for display by dropping its middle.
pub fn truncate_middle(s: &str, max: usize) -> (r: String)
    requires
        max >= 1,
    ensures
        r@ == spec_truncate_middle(s@, max as nat),
{
    let n = s.unicode_len();
    if n <= max {
        String::from_str(s)
    } else {
        let keep = max - 1;
        let left = keep / 2;
        let right = keep - left;
        let mut out: Vec<char> = Vec::new();
        for i in 0..left
            invariant
                left <= keep < n == s@.len(),
                out@ == s@.take(i as int),
        {
            out.push(s.get_char(i));
            proof {
                assert(s@.take(i + 1) =~= s@.take(i as int).push(s@[i as int]));
            }
        }
        out.push('\u{2026}');
        let base = n - right;
        for i in 0..right
            invariant
                right <= keep < n == s@.len(),
                base == n - right,
                out@ == s@.take(left as int) + seq!['\u{2026}'] + s@.skip(base as int).take(
                    i as int,
                ),
    {
            out.push(s.get_char(base + i));
            proof {
                assert(s@.skip(base as int).take(i + 1) =~= s@.skip(base as int).take(
                    i as int,
                ).push(s@[base + i]));
            }
        }
        proof {
            assert(s@.skip(base as int).take(right as int) =~= s@.skip(base as int));
            assert(out@ =~= spec_truncate_middle(s@, max as nat));
        }
        chars_to_string(&out)
    }
}

} // verus!

//! ANSI escape sequences in cell output: translation of colour codes to
//! HTML spans for display, and plain stripping for the Markdown export
//! path.

use vstd::prelude::*;
use crate::text::str_to_chars;
use crate::text::push_str_chars;
use crate::text::chars_to_string;
use crate::text::chars_eq_str;

verus! {

/// A character is an ASCII letter.
pub open spec fn is_ascii_alpha(c: char) -> bool {
    ('a' <= c && c <= 'z') || ('A' <= c && c <= 'Z')
}

fn char_is_ascii_alpha(c: char) -> (b: bool)
    ensures
        b == is_ascii_alpha(c),
{
    (c >= 'a' && c <= 'z') || (c >= 'A' && c <= 'Z')
}

/// The index of the first ASCII letter, or the length when there is none.
pub open spec fn alpha_len(s: Seq<char>) -> nat
    decreases s.len(),
{
    if s.len() == 0 {
        0
    } else if is_ascii_alpha(s[0]) {
        0
    } else {
        1 + alpha_len(s.skip(1))
    }
}

proof fn lemma_alpha_len_is(s: Seq<char>, k: int)
    requires
        0 <= k <= s.len(),
        forall|i: int| 0 <= i < k ==> !is_ascii_alpha(s[i]),
        k < s.len() ==> is_ascii_alpha(s[k]),
    ensures
        alpha_len(s) == k,
    decreases s.len(),
{
    if s.len() > 0 && !is_ascii_alpha(s[0]) {
        lemma_alpha_len_is(s.skip(1), k - 1);
    }
}

/// What stripping ANSI sequences from a text leaves: each escape
/// character begins a skip that ends with (and includes) the first ASCII
/// letter after it; everything else is copied through unchanged.
pub open spec fn spec_strip_ansi(s: Seq<char>) -> Seq<char>
    decreases s.len(),
{
    if s.len() == 0 {
        Seq::empty()
    } else if s[0] == '\u{1b}' {
        let rest = s.skip(1);
        let j = alpha_len(rest) as int;
        if j < rest.len() {
            spec_strip_ansi(rest.skip(j + 1))
        } else {
            Seq::empty()
        }
    } else {
        seq![s[0]] + spec_strip_ansi(s.skip(1))
    }
}

/// Strip ANSI escape sequences, emitting no markup: the plain-text twin
/// of the HTML translation below, for the Markdown export path.
pub fn strip_ansi_codes(s: &str) -> (r: String)
    ensures
        r@ == spec_strip_ansi(s@),
{
    let chars = str_to_chars(s);
    let mut out: Vec<char> = Vec::new();
    let n = chars.len();
    let mut i: usize = 0;
    proof {
        assert(chars@.skip(0) =~= chars@);
        assert(out@ + spec_strip_ansi(chars@) =~= spec_strip_ansi(chars@));
    }
    while i < n
        invariant
            i <= n == chars@.len(),
            spec_strip_ansi(chars@) == out@ + spec_strip_ansi(chars@.skip(i as int)),
        decreases n - i,
    {
        let ghost rest = chars@.skip(i as int);
        let c = chars[i];
        if c == '\u{1b}' {
            // skip up to and including the first ASCII letter
            let mut j = i + 1;
            while j < n && !char_is_ascii_alpha(chars[j])
                invariant
                    i + 1 <= j <= n == chars@.len(),
                    forall|t: int| i + 1 <= t < j ==> !is_ascii_alpha(chars@[t]),
                decreases n - j,
            {
                j = j + 1;
            }
            proof {
                let tail = rest.skip(1);
                assert(tail =~= chars@.skip(i + 1));
                assert forall|t: int| 0 <= t < j - i - 1 implies !is_ascii_alpha(tail[t]) by {
                    assert(tail[t] == chars@[i + 1 + t]);
                }
                if j < n {
                    assert(tail[j - i - 1] == chars@[j as int]);
                }
                lemma_alpha_len_is(tail, j - i - 1);
                if j < n {
                    assert(tail.skip(j - i - 1 + 1) =~= chars@.skip(j + 1));
                } else {
                    assert(spec_strip_ansi(rest) =~= Seq::<char>::empty());
                    assert(chars@.skip(n as int) =~= Seq::<char>::empty());
                }
            }
            if j < n {
                i = j + 1;
            } else {
                i = n;
            }
        } else {
            let ghost out0 = out@;
            out.push(c);
            proof {
                assert(rest[0] == c);
                assert(rest.skip(1) =~= chars@.skip(i + 1));
                assert(spec_strip_ansi(rest) == seq![c] + spec_strip_ansi(rest.skip(1)));
                assert(out@ + spec_strip_ansi(chars@.skip(i + 1)) =~= out0 + spec_strip_ansi(
                    rest,
                ));
            }
            i = i + 1;
        }
    }
    proof {
        assert(chars@.skip(n as int) =~= Seq::<char>::empty());
    }
    chars_to_string(&out)
}

/// The colour the fixed palette assigns to an ANSI code, if any: the
/// eight basic foreground colours, plus two pairs of extended 256-colour
/// codes approximated as red and green. Reset and everything unknown
/// close the colouring without opening a new one.
pub open spec fn ansi_color(code: Seq<char>) -> Option<Seq<char>> {
    if code == "31"@ || code == "0;31"@ || code == "1;31"@ {
        Option::Some("#e06c75"@)
    } else if code == "32"@ || code == "0;32"@ || code == "1;32"@ {
        Option::Some("#98c379"@)
    } else if code == "33"@ || code == "0;33"@ || code == "1;33"@ {
        Option::Some("#e5c07b"@)
    } else if code == "34"@ || code == "0;34"@ || code == "1;34"@ {
        Option::Some("#61afef"@)
    } else if code == "35"@ || code == "0;35"@ || code == "1;35"@ {
        Option::Some("#c678dd"@)
    } else if code == "36"@ || code == "0;36"@ || code == "1;36"@ {
        Option::Some("#56b6c2"@)
    } else if code == "37"@ || code == "0;37"@ || code == "1;37"@ {
        Option::Some("#abb2bf"@)
    } else if code == "38;5;160"@ || code == "38;5;196"@ {
        Option::Some("#e06c75"@)
    } else if code == "38;5;28"@ || code == "38;5;34"@ {
        Option::Some("#98c379"@)
    } else {
        Option::None
    }
}

fn ansi_color_exec(code: &Vec<char>) -> (r: Option<&'static str>)
    ensures
        match r {
            Option::Some(c) => ansi_color(code@) == Option::Some(c@),
            Option::None => ansi_color(code@) is None,
        },
{
    if chars_eq_str(code, "31") || chars_eq_str(code, "0;31") || chars_eq_str(code, "1;31") {
        Some("#e06c75")
    } else if chars_eq_str(code, "32") || chars_eq_str(code, "0;32") || chars_eq_str(
        code,
        "1;32",
    ) {
        Some("#98c379")
    } else if chars_eq_str(code, "33") || chars_eq_str(code, "0;33") || chars_eq_str(
        code,
        "1;33",
    ) {
        Some("#e5c07b")
    } else if chars_eq_str(code, "34") || chars_eq_str(code, "0;34") || chars_eq_str(
        code,
        "1;34",
    ) {
        Some("#61afef")
    } else if chars_eq_str(code, "35") || chars_eq_str(code, "0;35") || chars_eq_str(
        code,
        "1;35",
    ) {
        Some("#c678dd")
    } else if chars_eq_str(code, "36") || chars_eq_str(code, "0;36") || chars_eq_str(
        code,
        "1;36",
    ) {
        Some("#56b6c2")
    } else if chars_eq_str(code, "37") || chars_eq_str(code, "0;37") || chars_eq_str(
        code,
        "1;37",
    ) {
        Some("#abb2bf")
    } else if chars_eq_str(code, "38;5;160") || chars_eq_str(code, "38;5;196") {
        Some("#e06c75")
    } else if chars_eq_str(code, "38;5;28") || chars_eq_str(code, "38;5;34") {
        Some("#98c379")
    } else {
        None
    }
}

/// A character is a decimal digit or the code separator.
pub open spec fn is_code_char(c: char) -> bool {
    ('0' <= c && c <= '9') || c == ';'
}

fn char_is_code(c: char) -> (b: bool)
    ensures
        b == is_code_char(c),
{
    (c >= '0' && c <= '9') || c == ';'
}

/// The length of the run of digits and separators a code is read from.
pub open spec fn code_len(s: Seq<char>) -> nat
    decreases s.len(),
{
    if s.len() == 0 {
        0
    } else if is_code_char(s[0]) {
        1 + code_len(s.skip(1))
    } else {
        0
    }
}

proof fn lemma_code_len_is(s: Seq<char>, k: int)
    requires
        0 <= k <= s.len(),
        forall|i: int| 0 <= i < k ==> is_code_char(s[i]),
        k < s.len() ==> !is_code_char(s[k]),
    ensures
        code_len(s) == k,
    decreases s.len(),
{
    if s.len() > 0 && is_code_char(s[0]) {
        lemma_code_len_is(s.skip(1), k - 1);
    }
}

/// The markup that closes the colouring when one is open.
pub open spec fn span_close(in_span: bool) -> Seq<char> {
    if in_span {
        "</span>"@
    } else {
        Seq::empty()
    }
}

/// The HTML escaping of one character on this path: `<`, `>` and `&`
/// become entities, everything else stands as itself.
pub open spec fn escape3(c: char) -> Seq<char> {
    if c == '<' {
        "&lt;"@
    } else if c == '>' {
        "&gt;"@
    } else if c == '&' {
        "&amp;"@
    } else {
        seq![c]
    }
}

/// What translating ANSI colour codes to HTML yields, starting with the
/// colouring open or closed. An `ESC [` sequence reads its code up to the
/// first character that is neither digit nor `;` (consuming that
/// character), closes any open span, and opens a new one when the palette
/// knows the code; a lone escape character is dropped; everything else is
/// copied through HTML-escaped. Any span still open at the end is closed.
pub open spec fn spec_ansi_html(s: Seq<char>, in_span: bool) -> Seq<char>
    decreases s.len(),
{
    if s.len() == 0 {
        span_close(in_span)
    } else if s[0] == '\u{1b}' && s.len() >= 2 && s[1] == '[' {
        let rest = s.skip(2);
        let j = if code_len(rest) as int <= rest.len() {
            code_len(rest) as int
        } else {
            rest.len() as int
        };
        let code = rest.take(j);
        let after = if j < rest.len() {
            rest.skip(j + 1)
        } else {
            rest.skip(j)
        };
        match ansi_color(code) {
            Option::Some(col) => span_close(in_span) + "<span style=\"color:"@ + col + "\">"@
                + spec_ansi_html(after, true),
            Option::None => span_close(in_span) + spec_ansi_html(after, false),
        }
    } else if s[0] == '\u{1b}' {
        spec_ansi_html(s.skip(1), in_span)
    } else {
        escape3(s[0]) + spec_ansi_html(s.skip(1), in_span)
    }
}

/// Translate ANSI colour codes to HTML spans, escaping `&`, `<` and `>`
/// in everything copied through.
pub fn ansi_to_html(s: &str) -> (r: String)
    ensures
        r@ == spec_ansi_html(s@, false),
{
    let chars = str_to_chars(s);
    let mut out: Vec<char> = Vec::new();
    let mut in_span = false;
    let n = chars.len();
    let mut i: usize = 0;
    proof {
        assert(chars@.skip(0) =~= chars@);
        assert(out@ + spec_ansi_html(chars@, false) =~= spec_ansi_html(chars@, false));
    }
    while i < n
        invariant
            i <= n == chars@.len(),
            spec_ansi_html(chars@, false) == out@ + spec_ansi_html(chars@.skip(i as int), in_span),
        decreases n - i,
    {
        let ghost rest = chars@.skip(i as int);
        let ghost out0 = out@;
        let ghost span0 = in_span;
        let c = chars[i];
        if c == '\u{1b}' && i + 1 < n && chars[i + 1] == '[' {
            proof {
                assert(rest[0] == c);
                assert(rest[1] == chars@[i + 1]);
            }
            // read the code: digits and separators
            let code_start = i + 2;
            let mut j = code_start;
            let mut code: Vec<char> = Vec::new();
            while j < n && char_is_code(chars[j])
                invariant
                    code_start <= j <= n == chars@.len(),
                    forall|t: int| code_start <= t < j ==> is_code_char(chars@[t]),
                    code@ == chars@.subrange(code_start as int, j as int),
                decreases n - j,
            {
                code.push(chars[j]);
                proof {
                    assert(chars@.subrange(code_start as int, j + 1) =~= chars@.subrange(
                        code_start as int,
                        j as int,
                    ).push(chars@[j as int]));
                }
                j = j + 1;
            }
            proof {
                let tail = rest.skip(2);
                assert(tail =~= chars@.skip(code_start as int));
                assert forall|t: int| 0 <= t < j - code_start implies is_code_char(tail[t]) by {
                    assert(tail[t] == chars@[code_start + t]);
                }
                if j < n {
                    assert(tail[j - code_start] == chars@[j as int]);
                }
                lemma_code_len_is(tail, j - code_start);
                assert(tail.take(j - code_start) =~= chars@.subrange(code_start as int, j as int));
                if j < n {
                    assert(tail.skip(j - code_start + 1) =~= chars@.skip(j + 1));
                } else {
                    assert(tail.skip(j - code_start) =~= chars@.skip(n as int));
                }
            }
            if in_span {
                push_str_chars(&mut out, "</span>");
                in_span = false;
            }
            match ansi_color_exec(&code) {
                Some(col) => {
                    push_str_chars(&mut out, "<span style=\"color:");
                    push_str_chars(&mut out, col);
                    push_str_chars(&mut out, "\">");
                    in_span = true;
                },
                None => {},
            }
            proof {
                let tail = rest.skip(2);
                let after: Seq<char> = if j < n {
                    chars@.skip(j + 1)
                } else {
                    chars@.skip(n as int)
                };
                match ansi_color(tail.take(j - code_start)) {
                    Option::Some(col) => {
                        assert(spec_ansi_html(rest, span0) == span_close(span0)
                            + "<span style=\"color:"@ + col + "\">"@ + spec_ansi_html(
                            after,
                            true,
                        ));
                        assert(out@ + spec_ansi_html(after, in_span) =~= out0 + spec_ansi_html(
                            rest,
                            span0,
                        ));
                    },
                    Option::None => {
                        assert(spec_ansi_html(rest, span0) == span_close(span0) + spec_ansi_html(
                            after,
                            false,
                        ));
                        assert(out@ + spec_ansi_html(after, in_span) =~= out0 + spec_ansi_html(
                            rest,
                            span0,
                        ));
                    },
                }
            }
            if j < n {
                i = j + 1;
            } else {
                i = n;
            }
        } else if c == '\u{1b}' {
            proof {
                assert(rest[0] == c);
                if rest.len() >= 2 {
                    assert(rest[1] == chars@[i + 1]);
                }
                assert(rest.skip(1) =~= chars@.skip(i + 1));
            }
            i = i + 1;
        } else {
            proof {
                assert(rest[0] == c);
                assert(rest.skip(1) =~= chars@.skip(i + 1));
            }
            if c == '<' {
                push_str_chars(&mut out, "&lt;");
            } else if c == '>' {
                push_str_chars(&mut out, "&gt;");
            } else if c == '&' {
                push_str_chars(&mut out, "&amp;");
            } else {
                out.push(c);
            }
            proof {
                assert(spec_ansi_html(rest, span0) == escape3(c) + spec_ansi_html(
                    rest.skip(1),
                    span0,
                ));
                assert(out@ + spec_ansi_html(chars@.skip(i + 1), in_span) =~= out0
                    + spec_ansi_html(rest, span0));
            }
            i = i + 1;
        }
    }
    if in_span {
        push_str_chars(&mut out, "</span>");
    }
    proof {
        assert(chars@.skip(n as int) =~= Seq::<char>::empty());
    }
    chars_to_string(&out)
}

} // verus!

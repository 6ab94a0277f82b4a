//! Heading slugs: the anchor identifiers derived from heading text. The
//! construction must be reproducible byte for byte by navigation code, so
//! its specification pins the result down completely.

use vstd::prelude::*;
use crate::text::str_to_chars;
use crate::text::push_chars;
use crate::text::chars_to_string;
use crate::unicode::lower_of;
use crate::unicode::to_lowercase_str;

verus! {

/// The characters a slug keeps: ASCII lower-case letters and digits, as
/// the text stands once it has been lower-cased.
pub open spec fn is_slug_char(c: char) -> bool {
    ('a' <= c && c <= 'z') || ('0' <= c && c <= '9')
}

/// Every character that is not an ASCII letter or digit becomes the
/// separator.
pub open spec fn dash_map(s: Seq<char>) -> Seq<char> {
    s.map_values(|c: char| if is_slug_char(c) { c } else { '-' })
}

/// The index of the first separator, or the length when there is none.
pub open spec fn first_dash(s: Seq<char>) -> nat
    decreases s.len(),
{
    if s.len() == 0 {
        0
    } else if s[0] == '-' {
        0
    } else {
        1 + first_dash(s.skip(1))
    }
}

proof fn lemma_first_dash(s: Seq<char>)
    ensures
        first_dash(s) <= s.len(),
        forall|i: int| 0 <= i < first_dash(s) ==> s[i] != '-',
        first_dash(s) < s.len() ==> s[first_dash(s) as int] == '-',
    decreases s.len(),
{
    if s.len() > 0 && s[0] != '-' {
        lemma_first_dash(s.skip(1));
        assert forall|i: int| 0 <= i < first_dash(s) implies s[i] != '-' by {
            if i > 0 {
                assert(s.skip(1)[i - 1] == s[i]);
            }
        }
        if first_dash(s) < s.len() {
            assert(s.skip(1)[first_dash(s) - 1] == s[first_dash(s) as int]);
        }
    }
}

proof fn lemma_first_dash_is(s: Seq<char>, k: int)
    requires
        0 <= k <= s.len(),
        forall|i: int| 0 <= i < k ==> s[i] != '-',
        k < s.len() ==> s[k] == '-',
    ensures
        first_dash(s) == k,
    decreases s.len(),
{
    if s.len() > 0 && s[0] != '-' {
        lemma_first_dash_is(s.skip(1), k - 1);
    }
}

/// The pieces of a split at every separator, empties included, the way
/// `str::split('-')` yields them.
pub open spec fn dash_split(s: Seq<char>) -> Seq<Seq<char>>
    decreases s.len(),
{
    let j = first_dash(s) as int;
    if j >= s.len() {
        seq![s]
    } else {
        seq![s.take(j)] + dash_split(s.skip(j + 1))
    }
}

/// The non-empty pieces, in order.
pub open spec fn nonempty_pieces(ps: Seq<Seq<char>>) -> Seq<Seq<char>>
    decreases ps.len(),
{
    if ps.len() == 0 {
        Seq::empty()
    } else if ps.last().len() > 0 {
        nonempty_pieces(ps.drop_last()).push(ps.last())
    } else {
        nonempty_pieces(ps.drop_last())
    }
}

/// Pieces joined with a single separator between them.
pub open spec fn join_dash(ps: Seq<Seq<char>>) -> Seq<char>
    decreases ps.len(),
{
    if ps.len() == 0 {
        Seq::empty()
    } else if ps.len() == 1 {
        ps[0]
    } else {
        join_dash(ps.drop_last()) + seq!['-'] + ps.last()
    }
}

/// The slug of a text: lower-case it, turn every character that is not a
/// letter or digit into a separator, drop empty runs, and join what is
/// left with single separators.
pub open spec fn spec_slugify(s: Seq<char>) -> Seq<char> {
    join_dash(nonempty_pieces(dash_split(dash_map(lower_of(s)))))
}

/// Derive a URL- and DOM-safe anchor identifier from heading text.
pub fn slugify(text: &str) -> (r: String)
    ensures
        r@ == spec_slugify(text@),
{
    let lowered = to_lowercase_str(text);
    let chars = str_to_chars(lowered.as_str());
    // map everything outside ASCII letters and digits to the separator
    let mut mapped: Vec<char> = Vec::new();
    let n = chars.len();
    for i in 0..n
        invariant
            n == chars@.len(),
            mapped@ == dash_map(chars@.take(i as int)),
    {
        let c = chars[i];
        if (c >= 'a' && c <= 'z') || (c >= '0' && c <= '9') {
            mapped.push(c);
        } else {
            mapped.push('-');
        }
        proof {
            assert(dash_map(chars@.take(i + 1)) =~= dash_map(chars@.take(i as int)).push(
                if is_slug_char(chars@[i as int]) {
                    chars@[i as int]
                } else {
                    '-'
                },
            ));
        }
    }
    proof {
        assert(chars@.take(n as int) =~= chars@);
    }
    // split at separators
    let pieces = split_dashes(&mapped);
    // keep the non-empty pieces
    let mut kept: Vec<Vec<char>> = Vec::new();
    let m = pieces.len();
    proof {
        assert(kept.deep_view() =~~= nonempty_pieces(pieces.deep_view().take(0)));
    }
    for k in 0..m
        invariant
            m == pieces@.len(),
            kept.deep_view() == nonempty_pieces(pieces.deep_view().take(k as int)),
    {
        let ghost before = kept.deep_view();
        if pieces[k].len() > 0 {
            let piece = clone_chars(&pieces[k]);
            kept.push(piece);
            proof {
                assert(kept.deep_view() =~~= before.push(pieces.deep_view()[k as int]));
            }
        }
        proof {
            assert(pieces.deep_view().take(k + 1).drop_last() =~= pieces.deep_view().take(
                k as int,
            ));
            assert(pieces.deep_view().take(k + 1).last() == pieces.deep_view()[k as int]);
        }
    }
    proof {
        assert(pieces.deep_view().take(m as int) =~= pieces.deep_view());
    }
    // join with single separators
    let mut out: Vec<char> = Vec::new();
    let kn = kept.len();
    for k in 0..kn
        invariant
            kn == kept@.len(),
            out@ == join_dash(kept.deep_view().take(k as int)),
    {
        let ghost before = kept.deep_view().take(k as int);
        if k > 0 {
            out.push('-');
        }
        push_chars(&mut out, &kept[k]);
        proof {
            let after = kept.deep_view().take(k + 1);
            assert(after.drop_last() =~= before);
            assert(after.last() == kept.deep_view()[k as int]);
            if k == 0 {
                assert(after =~= seq![kept.deep_view()[0]]);
            }
            assert(out@ =~= join_dash(after));
        }
    }
    proof {
        assert(kept.deep_view().take(kn as int) =~= kept.deep_view());
    }
    chars_to_string(&out)
}

/// Copy a character buffer.
fn clone_chars(v: &Vec<char>) -> (r: Vec<char>)
    ensures
        r@ == v@,
{
    let mut r: Vec<char> = Vec::new();
    let n = v.len();
    for i in 0..n
        invariant
            n == v@.len(),
            r@ == v@.take(i as int),
    {
        r.push(v[i]);
        proof {
            assert(v@.take(i + 1) =~= v@.take(i as int).push(v@[i as int]));
        }
    }
    proof {
        assert(v@.take(n as int) =~= v@);
    }
    r
}

/// Split a buffer at every separator, empties included, the way
/// `str::split('-')` does.
fn split_dashes(text: &Vec<char>) -> (pieces: Vec<Vec<char>>)
    ensures
        pieces.deep_view() == dash_split(text@),
{
    let mut pieces: Vec<Vec<char>> = Vec::new();
    let mut pos: usize = 0;
    proof {
        assert(text@.skip(0) =~= text@);
        assert(pieces.deep_view() =~~= Seq::<Seq<char>>::empty());
    }
    loop
        invariant
            pos <= text@.len(),
            dash_split(text@) == pieces.deep_view() + dash_split(text@.skip(pos as int)),
        decreases text@.len() - pos + 1,
    {
        let ghost rest = text@.skip(pos as int);
        let mut j: usize = pos;
        while j < text.len() && text[j] != '-'
            invariant
                pos <= j <= text@.len(),
                forall|i: int| pos <= i < j ==> text@[i] != '-',
            decreases text@.len() - j,
        {
            j = j + 1;
        }
        proof {
            assert forall|i: int| 0 <= i < j - pos implies rest[i] != '-' by {
                assert(rest[i] == text@[pos + i]);
            }
            if j < text@.len() {
                assert(rest[j - pos] == text@[j as int]);
            }
            lemma_first_dash_is(rest, j - pos);
        }
        let mut piece: Vec<char> = Vec::new();
        let mut k: usize = pos;
        while k < j
            invariant
                pos <= k <= j <= text@.len(),
                piece@ == text@.subrange(pos as int, k as int),
            decreases j - k,
        {
            piece.push(text[k]);
            proof {
                assert(text@.subrange(pos as int, k + 1) =~= text@.subrange(
                    pos as int,
                    k as int,
                ).push(text@[k as int]));
            }
            k = k + 1;
        }
        let ghost old_pieces = pieces.deep_view();
        pieces.push(piece);
        proof {
            assert(pieces.deep_view() =~~= old_pieces.push(piece@));
            assert(rest.take(j - pos) =~= text@.subrange(pos as int, j as int));
        }
        if j < text.len() {
            proof {
                assert(rest.skip(j - pos + 1) =~= text@.skip(j + 1));
                assert(dash_split(rest) == seq![rest.take(j - pos)] + dash_split(
                    text@.skip(j + 1),
                ));
                assert(pieces.deep_view() + dash_split(text@.skip(j + 1)) =~~= old_pieces
                    + dash_split(rest));
            }
            pos = j + 1;
        } else {
            proof {
                assert(piece@ =~= rest);
                assert(dash_split(rest) =~~= seq![rest]);
                assert(pieces.deep_view() =~~= old_pieces + dash_split(rest));
            }
            return pieces;
        }
    }
}

/// A well-formed slug: only ASCII lower-case letters, digits and single
/// separators, with no separator at either end and never two in a row.
pub open spec fn slug_wf(s: Seq<char>) -> bool {
    &&& forall|i: int| 0 <= i < s.len() ==> (is_slug_char(#[trigger] s[i]) || s[i] == '-')
    &&& s.len() > 0 ==> s[0] != '-'
    &&& s.len() > 0 ==> s.last() != '-'
    &&& forall|i: int| 0 <= i < s.len() - 1 ==> !(#[trigger] s[i] == '-' && s[i + 1] == '-')
}

/// Every piece of a split holds no separator.
proof fn lemma_dash_split_pieces(s: Seq<char>)
    ensures
        forall|k: int, i: int|
            0 <= k < dash_split(s).len() && 0 <= i < dash_split(s)[k].len()
                ==> #[trigger] dash_split(s)[k][i] != '-',
    decreases s.len(),
{
    lemma_first_dash(s);
    let j = first_dash(s) as int;
    if j < s.len() {
        lemma_dash_split_pieces(s.skip(j + 1));
        assert forall|k: int, i: int|
            0 <= k < dash_split(s).len() && 0 <= i < dash_split(s)[k].len() implies #[trigger] dash_split(
            s,
        )[k][i] != '-' by {
            if k == 0 {
                assert(dash_split(s)[0] == s.take(j));
                assert(s.take(j)[i] == s[i]);
            } else {
                assert(dash_split(s)[k] == dash_split(s.skip(j + 1))[k - 1]);
            }
        }
    } else {
        assert(dash_split(s)[0] == s);
    }
}

/// Filtering keeps only non-empty, separator-free pieces.
proof fn lemma_nonempty_pieces(ps: Seq<Seq<char>>)
    requires
        forall|k: int, i: int|
            0 <= k < ps.len() && 0 <= i < ps[k].len() ==> #[trigger] ps[k][i] != '-',
    ensures
        forall|k: int|
            0 <= k < nonempty_pieces(ps).len() ==> #[trigger] nonempty_pieces(ps)[k].len() > 0,
        forall|k: int, i: int|
            0 <= k < nonempty_pieces(ps).len() && 0 <= i < nonempty_pieces(ps)[k].len()
                ==> #[trigger] nonempty_pieces(ps)[k][i] != '-',
    decreases ps.len(),
{
    if ps.len() > 0 {
        assert(forall|k: int|
            0 <= k < ps.drop_last().len() ==> ps.drop_last()[k] == #[trigger] ps[k]);
        lemma_nonempty_pieces(ps.drop_last());
        let sub = nonempty_pieces(ps.drop_last());
        let whole = nonempty_pieces(ps);
        if ps.last().len() > 0 {
            assert(whole == sub.push(ps.last()));
            assert forall|k: int| 0 <= k < whole.len() implies #[trigger] whole[k].len() > 0 by {
                if k < sub.len() {
                    assert(whole[k] == sub[k]);
                } else {
                    assert(whole[k] == ps.last());
                }
            }
            assert forall|k: int, i: int|
                0 <= k < whole.len() && 0 <= i < whole[k].len() implies #[trigger] whole[k][i]
                != '-' by {
                if k < sub.len() {
                    assert(whole[k] == sub[k]);
                } else {
                    assert(whole[k] == ps[ps.len() - 1]);
                }
            }
        } else {
            assert(whole == sub);
        }
    }
}

/// Joining non-empty, separator-free pieces yields a well-formed slug.
proof fn lemma_join_dash_wf(ps: Seq<Seq<char>>)
    requires
        forall|k: int| 0 <= k < ps.len() ==> #[trigger] ps[k].len() > 0,
        forall|k: int, i: int|
            0 <= k < ps.len() && 0 <= i < ps[k].len() ==> #[trigger] ps[k][i] != '-'
                && is_slug_char(ps[k][i]),
    ensures
        slug_wf(join_dash(ps)),
        join_dash(ps).len() > 0 ==> join_dash(ps).last() != '-',
    decreases ps.len(),
{
    if ps.len() > 1 {
        assert(forall|k: int|
            0 <= k < ps.drop_last().len() ==> ps.drop_last()[k] == #[trigger] ps[k]);
        lemma_join_dash_wf(ps.drop_last());
        let left = join_dash(ps.drop_last());
        let s = join_dash(ps);
        assert(s == left + seq!['-'] + ps.last());
        assert(left.len() > 0);
        assert forall|i: int| 0 <= i < s.len() implies (is_slug_char(#[trigger] s[i]) || s[i]
            == '-') by {
            if i < left.len() {
                assert(s[i] == left[i]);
            } else if i == left.len() {
            } else {
                assert(s[i] == ps.last()[i - left.len() - 1]);
            }
        }
        assert forall|i: int| 0 <= i < s.len() - 1 implies !(#[trigger] s[i] == '-' && s[i + 1]
            == '-') by {
            if i < left.len() - 1 {
                assert(s[i] == left[i] && s[i + 1] == left[i + 1]);
            } else if i == left.len() - 1 {
                assert(s[i] == left.last());
            } else if i == left.len() {
                assert(s[i + 1] == ps.last()[0]);
            } else {
                assert(s[i] == ps.last()[i - left.len() - 1]);
                assert(s[i + 1] == ps.last()[i - left.len()]);
            }
        }
        assert(s[0] == left[0]);
        assert(s.last() == ps.last().last());
    } else if ps.len() == 1 {
        assert(join_dash(ps) == ps[0]);
    }
}

/// A slug is made of ASCII lower-case letters and digits parted by
/// single separators: no separator leads, none trails, and no two stand
/// together.
pub proof fn lemma_slugify_wf(x: Seq<char>)
    ensures
        slug_wf(spec_slugify(x)),
{
    let mapped = dash_map(lower_of(x));
    lemma_dash_split_pieces(mapped);
    let ps = dash_split(mapped);
    lemma_nonempty_pieces(ps);
    let kept = nonempty_pieces(ps);
    assert forall|k: int, i: int| 0 <= k < kept.len() && 0 <= i < kept[k].len() implies #[trigger] kept[k][i]
        != '-' && is_slug_char(kept[k][i]) by {
        lemma_pieces_chars_slug(mapped, ps, kept, k, i);
    }
    lemma_join_dash_wf(kept);
}

/// Every character of every kept piece is a slug character: a character
/// of a mapped text is either a slug character or the separator, and the
/// pieces hold no separator.
proof fn lemma_pieces_chars_slug(
    mapped: Seq<char>,
    ps: Seq<Seq<char>>,
    kept: Seq<Seq<char>>,
    k: int,
    i: int,
)
    requires
        ps == dash_split(mapped),
        kept == nonempty_pieces(ps),
        forall|c: int| 0 <= c < mapped.len() ==> (is_slug_char(#[trigger] mapped[c]) || mapped[c]
            == '-'),
        0 <= k < kept.len(),
        0 <= i < kept[k].len(),
    ensures
        kept[k][i] != '-' && is_slug_char(kept[k][i]),
{
    lemma_dash_split_pieces(mapped);
    lemma_nonempty_pieces(ps);
    lemma_kept_pieces_from_split(mapped, ps, kept, k);
    assert(kept[k][i] != '-');
}

/// Every kept piece is a contiguous part of the mapped text.
proof fn lemma_kept_pieces_from_split(
    mapped: Seq<char>,
    ps: Seq<Seq<char>>,
    kept: Seq<Seq<char>>,
    k: int,
)
    requires
        ps == dash_split(mapped),
        kept == nonempty_pieces(ps),
        forall|c: int| 0 <= c < mapped.len() ==> (is_slug_char(#[trigger] mapped[c]) || mapped[c]
            == '-'),
        0 <= k < kept.len(),
    ensures
        forall|i: int| 0 <= i < kept[k].len() ==> is_slug_char(#[trigger] kept[k][i]) || kept[k][i]
            == '-',
{
    lemma_nonempty_from(ps, kept, k);
    let j = choose|j: int| 0 <= j < ps.len() && ps[j] == kept[k];
    lemma_split_chars_from(mapped, j);
}

/// Each kept piece is one of the split's pieces.
proof fn lemma_nonempty_from(ps: Seq<Seq<char>>, kept: Seq<Seq<char>>, k: int)
    requires
        kept == nonempty_pieces(ps),
        0 <= k < kept.len(),
    ensures
        exists|j: int| 0 <= j < ps.len() && ps[j] == kept[k],
    decreases ps.len(),
{
    if ps.len() > 0 {
        if ps.last().len() > 0 && k == nonempty_pieces(ps).len() - 1 {
            assert(ps[ps.len() - 1] == kept[k]);
        } else {
            lemma_nonempty_from(ps.drop_last(), nonempty_pieces(ps.drop_last()), k);
            let j = choose|j: int|
                0 <= j < ps.drop_last().len() && ps.drop_last()[j] == nonempty_pieces(
                    ps.drop_last(),
                )[k];
            assert(ps[j] == kept[k]);
        }
    }
}

/// Every character of every split piece is a character of the split text.
proof fn lemma_split_chars_from(s: Seq<char>, j: int)
    requires
        0 <= j < dash_split(s).len(),
    ensures
        forall|i: int|
            0 <= i < dash_split(s)[j].len() ==> exists|c: int|
                0 <= c < s.len() && s[c] == #[trigger] dash_split(s)[j][i],
    decreases s.len(),
{
    lemma_first_dash(s);
    let f = first_dash(s) as int;
    if f < s.len() {
        if j == 0 {
            assert forall|i: int| 0 <= i < dash_split(s)[0].len() implies exists|c: int|
                0 <= c < s.len() && s[c] == #[trigger] dash_split(s)[0][i] by {
                assert(dash_split(s)[0] == s.take(f));
                assert(s[i] == s.take(f)[i]);
            }
        } else {
            lemma_split_chars_from(s.skip(f + 1), j - 1);
            assert forall|i: int| 0 <= i < dash_split(s)[j].len() implies exists|c: int|
                0 <= c < s.len() && s[c] == #[trigger] dash_split(s)[j][i] by {
                assert(dash_split(s)[j] == dash_split(s.skip(f + 1))[j - 1]);
                let c0 = choose|c: int|
                    0 <= c < s.skip(f + 1).len() && #[trigger] s.skip(f + 1)[c] == dash_split(
                        s.skip(f + 1),
                    )[j - 1][i];
                assert(s[f + 1 + c0] == s.skip(f + 1)[c0]);
            }
        }
    } else {
        assert(dash_split(s)[0] == s);
    }
}

} // verus!

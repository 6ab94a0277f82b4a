//! Image reference resolution: absolute and data references pass through
//! unchanged; a relative reference whose file is at hand is inlined as a
//! base64 data URI with a MIME type derived from its extension.
//!
//! The filesystem itself stays outside the library: callers look the
//! files up under the document's base directory and hand them over in an
//! [`ImageStore`]; a reference that is missing from the store resolves to
//! itself, exactly as a missing file would.

use vstd::prelude::*;
use base64::Engine;
use crate::text::str_to_chars;
use crate::text::push_str_chars;
use crate::text::chars_to_string;

verus! {

use vstd::string::StringExecFns;

/// The relative image references that could be read from disk: each entry
/// pairs the reference as written in the document with the file's bytes.
pub struct ImageStore {
    pub entries: Vec<(String, Vec<u8>)>,
}

/// The bytes stored under the first entry whose key is `url`, if any.
pub open spec fn store_lookup(entries: Seq<(String, Vec<u8>)>, url: Seq<char>) -> Option<Seq<u8>>
    decreases entries.len(),
{
    if entries.len() == 0 {
        None
    } else if entries[0].0@ == url {
        Some(entries[0].1@)
    } else {
        store_lookup(entries.skip(1), url)
    }
}

proof fn lemma_store_lookup_at(entries: Seq<(String, Vec<u8>)>, url: Seq<char>, i: int)
    requires
        0 <= i <= entries.len(),
        forall|k: int| 0 <= k < i ==> (#[trigger] entries[k].0)@ != url,
        i < entries.len() ==> entries[i].0@ == url,
    ensures
        i < entries.len() ==> store_lookup(entries, url) == Some(entries[i].1@),
        i == entries.len() ==> store_lookup(entries, url) is None,
    decreases entries.len(),
{
    if entries.len() > 0 && entries[0].0@ != url {
        assert(forall|k: int|
            0 <= k < i - 1 ==> (#[trigger] entries.skip(1)[k].0)@ == entries[k + 1].0@);
        lemma_store_lookup_at(entries.skip(1), url, i - 1);
    }
}

impl ImageStore {
    /// A store with nothing in it.
    pub fn new() -> (s: ImageStore)
        ensures
            s.entries@.len() == 0,
    {
        ImageStore { entries: Vec::new() }
    }

    /// Record the bytes read for a reference.
    pub fn insert(&mut self, url: String, bytes: Vec<u8>)
        ensures
            final(self).entries@ == old(self).entries@.push((url, bytes)),
    {
        self.entries.push((url, bytes));
    }

    /// The bytes stored under the first entry whose key is `url`.
    pub fn get(&self, url: &String) -> (r: Option<&Vec<u8>>)
        ensures
            match r {
                Some(bytes) => store_lookup(self.entries@, url@) == Some(bytes@),
                None => store_lookup(self.entries@, url@) is None,
            },
    {
        let n = self.entries.len();
        for i in 0..n
            invariant
                n == self.entries@.len(),
                forall|k: int| 0 <= k < i ==> (#[trigger] self.entries@[k].0)@ != url@,
        {
            if self.entries[i].0.eq(url) {
                proof {
                    lemma_store_lookup_at(self.entries@, url@, i as int);
                }
                return Some(&self.entries[i].1);
            }
        }
        proof {
            lemma_store_lookup_at(self.entries@, url@, n as int);
        }
        None
    }
}

/// What base64's standard engine encodes a byte sequence to.
pub uninterp spec fn b64_of(bytes: Seq<u8>) -> Seq<char>;

/// Relies on base64's `STANDARD` engine: the standard alphabet with
/// padding, a function of the input bytes alone.
#[verifier::external_body]
fn base64_encode(data: &Vec<u8>) -> (r: String)
    ensures
        r@ == b64_of(data@),
{
    base64::engine::general_purpose::STANDARD.encode(data.as_slice())
}

/// A sequence starts with a prefix.
pub open spec fn has_prefix(s: Seq<char>, p: Seq<char>) -> bool {
    p.len() <= s.len() && s.take(p.len() as int) == p
}

/// References that already denote a web URL, a local file URL or a data
/// URI are left untouched.
pub open spec fn is_passthrough_url(u: Seq<char>) -> bool {
    ||| has_prefix(u, "http://"@)
    ||| has_prefix(u, "https://"@)
    ||| has_prefix(u, "file://"@)
    ||| has_prefix(u, "data:"@)
}

/// True exactly when the buffer starts with the given prefix.
pub fn chars_has_prefix(v: &Vec<char>, p: &str) -> (b: bool)
    ensures
        b == has_prefix(v@, p@),
{
    let n = p.unicode_len();
    if v.len() < n {
        return false;
    }
    for i in 0..n
        invariant
            n == p@.len() <= v@.len(),
            forall|j: int| 0 <= j < i ==> v@[j] == p@[j],
    {
        if v[i] != p.get_char(i) {
            proof {
                assert(v@.take(p@.len() as int)[i as int] != p@[i as int]);
            }
            return false;
        }
    }
    proof {
        assert(v@.take(p@.len() as int) =~= p@);
    }
    true
}

/// The index of the last occurrence of a character, or -1 when there is
/// none.
pub open spec fn last_index_of(s: Seq<char>, c: char) -> int
    decreases s.len(),
{
    if s.len() == 0 {
        -1
    } else if s.last() == c {
        s.len() - 1
    } else {
        last_index_of(s.drop_last(), c)
    }
}

proof fn lemma_last_index_of(s: Seq<char>, c: char)
    ensures
        -1 <= last_index_of(s, c) < s.len(),
        last_index_of(s, c) >= 0 ==> s[last_index_of(s, c)] == c,
        forall|i: int| last_index_of(s, c) < i < s.len() ==> s[i] != c,
    decreases s.len(),
{
    if s.len() > 0 && s.last() != c {
        lemma_last_index_of(s.drop_last(), c);
        assert forall|i: int| last_index_of(s, c) < i < s.len() implies s[i] != c by {
            if i < s.len() - 1 {
                assert(s.drop_last()[i] == s[i]);
            }
        }
    }
}

proof fn lemma_last_index_of_is(s: Seq<char>, c: char, k: int)
    requires
        -1 <= k < s.len(),
        k >= 0 ==> s[k] == c,
        forall|i: int| k < i < s.len() ==> s[i] != c,
    ensures
        last_index_of(s, c) == k,
    decreases s.len(),
{
    if s.len() > 0 && s.last() != c {
        assert(forall|i: int| 0 <= i < s.len() - 1 ==> s[i] == #[trigger] s.drop_last()[i]);
        lemma_last_index_of_is(s.drop_last(), c, k);
    }
}

/// The file name of a reference: everything after the last slash.
pub open spec fn file_name_of(u: Seq<char>) -> Seq<char> {
    u.skip(last_index_of(u, '/') + 1)
}

/// The extension of a reference's file name, as `Path::extension` finds
/// it: the part after the last dot, unless there is no dot or the only
/// dot leads the name.
pub open spec fn ext_of(u: Seq<char>) -> Option<Seq<char>> {
    let name = file_name_of(u);
    let d = last_index_of(name, '.');
    if d <= 0 {
        None
    } else {
        Some(name.skip(d + 1))
    }
}

/// ASCII upper-case letters folded to lower case, everything else as is,
/// read as a code point.
pub open spec fn lower_code(c: char) -> int {
    if 'A' <= c && c <= 'Z' {
        c as u32 + 32
    } else {
        c as u32 as int
    }
}

/// The extension equals a (lower-case) literal up to ASCII case.
pub open spec fn ext_matches(e: Seq<char>, lit: Seq<char>) -> bool {
    e.len() == lit.len() && forall|i: int| 0 <= i < e.len() ==> lower_code(#[trigger] e[i])
        == lit[i] as u32 as int
}

/// The MIME type the fixed table assigns to an extension.
pub open spec fn spec_mime(ext: Option<Seq<char>>) -> Seq<char> {
    match ext {
        Option::None => "application/octet-stream"@,
        Option::Some(e) => {
            if ext_matches(e, "png"@) {
                "image/png"@
            } else if ext_matches(e, "jpg"@) || ext_matches(e, "jpeg"@) {
                "image/jpeg"@
            } else if ext_matches(e, "gif"@) {
                "image/gif"@
            } else if ext_matches(e, "svg"@) {
                "image/svg+xml"@
            } else if ext_matches(e, "webp"@) {
                "image/webp"@
            } else if ext_matches(e, "ico"@) {
                "image/x-icon"@
            } else if ext_matches(e, "bmp"@) {
                "image/bmp"@
            } else {
                "application/octet-stream"@
            }
        },
    }
}

/// True exactly when the buffer matches the (lower-case) literal up to
/// ASCII case.
fn chars_match_ext(v: &Vec<char>, lit: &str) -> (b: bool)
    ensures
        b == ext_matches(v@, lit@),
{
    let n = lit.unicode_len();
    if v.len() != n {
        return false;
    }
    for i in 0..n
        invariant
            n == lit@.len() == v@.len(),
            forall|j: int| 0 <= j < i ==> lower_code(#[trigger] v@[j]) == lit@[j] as u32 as int,
    {
        let c = v[i];
        let code: u32 = if c >= 'A' && c <= 'Z' {
            c as u32 + 32
        } else {
            c as u32
        };
        if code != lit.get_char(i) as u32 {
            return false;
        }
    }
    true
}

/// The extension of a reference's file name, if it has one.
fn extension_chars(chars: &Vec<char>) -> (ext: Option<Vec<char>>)
    ensures
        match ext {
            Some(e) => ext_of(chars@) == Some(e@),
            None => ext_of(chars@) is None,
        },
{
    // find the last slash
    let mut slash: usize = 0;
    let mut has_slash = false;
    let n = chars.len();
    for i in 0..n
        invariant
            n == chars@.len(),
            has_slash ==> slash < i && chars@[slash as int] == '/',
            forall|j: int| (if has_slash { slash < j } else { 0 <= j }) && j < i ==> chars@[j]
                != '/',
    {
        if chars[i] == '/' {
            slash = i;
            has_slash = true;
        }
    }
    let name_start: usize = if has_slash {
        slash + 1
    } else {
        0
    };
    proof {
        if has_slash {
            lemma_last_index_of_is(chars@, '/', slash as int);
        } else {
            lemma_last_index_of_is(chars@, '/', -1);
        }
    }
    let ghost name = file_name_of(chars@);
    proof {
        assert(name =~= chars@.skip(name_start as int));
    }
    // find the last dot within the name
    let mut dot: usize = 0;
    let mut has_dot = false;
    let mut i: usize = name_start;
    while i < n
        invariant
            name_start <= i <= n == chars@.len(),
            has_dot ==> name_start <= dot < i && chars@[dot as int] == '.',
            forall|j: int|
                (if has_dot {
                    dot < j
                } else {
                    name_start <= j
                }) && j < i ==> chars@[j] != '.',
        decreases n - i,
    {
        if chars[i] == '.' {
            dot = i;
            has_dot = true;
        }
        i = i + 1;
    }
    proof {
        if has_dot {
            assert(name[dot - name_start] == chars@[dot as int]);
            assert forall|j: int| (dot - name_start) < j < name.len() implies name[j] != '.' by {
                assert(name[j] == chars@[name_start + j]);
            }
            lemma_last_index_of_is(name, '.', dot - name_start);
        } else {
            assert forall|j: int| -1 < j < name.len() implies name[j] != '.' by {
                assert(name[j] == chars@[name_start + j]);
            }
            lemma_last_index_of_is(name, '.', -1);
        }
    }
    if !has_dot || dot == name_start {
        return None;
    }
    let mut ext: Vec<char> = Vec::new();
    let mut k: usize = dot + 1;
    while k < n
        invariant
            dot + 1 <= k <= n == chars@.len(),
            ext@ == chars@.subrange(dot + 1, k as int),
        decreases n - k,
    {
        ext.push(chars[k]);
        proof {
            assert(chars@.subrange(dot + 1, k + 1) =~= chars@.subrange(dot + 1, k as int).push(
                chars@[k as int],
            ));
        }
        k = k + 1;
    }
    proof {
        assert(name.skip(dot - name_start + 1) =~= chars@.subrange(dot + 1, n as int));
    }
    Some(ext)
}

/// The MIME type for a file reference, derived from its extension by a
/// fixed table; anything unknown is a generic binary type.
pub fn get_mime_type(name: &str) -> (m: &'static str)
    ensures
        m@ == spec_mime(ext_of(name@)),
{
    let chars = str_to_chars(name);
    match extension_chars(&chars) {
        None => "application/octet-stream",
        Some(e) => {
            if chars_match_ext(&e, "png") {
                "image/png"
            } else if chars_match_ext(&e, "jpg") || chars_match_ext(&e, "jpeg") {
                "image/jpeg"
            } else if chars_match_ext(&e, "gif") {
                "image/gif"
            } else if chars_match_ext(&e, "svg") {
                "image/svg+xml"
            } else if chars_match_ext(&e, "webp") {
                "image/webp"
            } else if chars_match_ext(&e, "ico") {
                "image/x-icon"
            } else if chars_match_ext(&e, "bmp") {
                "image/bmp"
            } else {
                "application/octet-stream"
            }
        },
    }
}

/// The view of an optional store: its entries.
pub open spec fn spec_images(images: Option<&ImageStore>) -> Option<Seq<(String, Vec<u8>)>> {
    match images {
        Option::None => Option::None,
        Option::Some(s) => Option::Some(s.entries@),
    }
}

/// What an image reference resolves to: itself if it is already absolute,
/// a data URI when its file is in the store, and itself again when it is
/// not.
pub open spec fn spec_resolve_image(url: Seq<char>, images: Option<Seq<(String, Vec<u8>)>>) -> Seq<
    char,
> {
    if is_passthrough_url(url) {
        url
    } else {
        match images {
            Option::None => url,
            Option::Some(entries) => match store_lookup(entries, url) {
                Option::None => url,
                Option::Some(bytes) => "data:"@ + spec_mime(ext_of(url)) + ";base64,"@ + b64_of(
                    bytes,
                ),
            },
        }
    }
}

/// Resolve an image reference against the files at hand: pass through
/// whatever is already absolute, inline what could be read, and leave the
/// rest unchanged.
pub fn resolve_image_url(url: &str, images: Option<&ImageStore>) -> (r: String)
    ensures
        r@ == spec_resolve_image(url@, spec_images(images)),
{
    let chars = str_to_chars(url);
    if chars_has_prefix(&chars, "http://") || chars_has_prefix(&chars, "https://")
        || chars_has_prefix(&chars, "file://") || chars_has_prefix(&chars, "data:") {
        return String::from_str(url);
    }
    match images {
        None => String::from_str(url),
        Some(store) => {
            let key = String::from_str(url);
            match store.get(&key) {
                None => String::from_str(url),
                Some(bytes) => {
                    let mime = get_mime_type(url);
                    let b64 = base64_encode(bytes);
                    let mut out: Vec<char> = Vec::new();
                    push_str_chars(&mut out, "data:");
                    push_str_chars(&mut out, mime);
                    push_str_chars(&mut out, ";base64,");
                    push_str_chars(&mut out, b64.as_str());
                    chars_to_string(&out)
                },
            }
        },
    }
}

} // verus!

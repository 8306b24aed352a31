//! File name helpers in the manner of Quake's `COM_` path utilities.
//! Both `/` and `\` separate directories.
use vstd::prelude::*;
use crate::text::{chars_of, string_of, push_char, first_index, lemma_first_index, str_utf8_len};

verus! {

pub open spec fn is_sep(c: char) -> bool {
    c == '/' || c == '\\'
}

/// The part of `s` after its last separator.
pub open spec fn after_last_sep(s: Seq<char>) -> Seq<char>
    decreases s.len(),
{
    if s.len() == 0 {
        s
    } else if is_sep(s.last()) {
        Seq::empty()
    } else {
        after_last_sep(s.drop_last()).push(s.last())
    }
}

/// Index of the last `a` or `b` in `s`, or -1.
pub open spec fn last_of(s: Seq<char>, a: char, b: char) -> int
    decreases s.len(),
{
    if s.len() == 0 {
        -1
    } else if s.last() == a || s.last() == b {
        s.len() - 1
    } else {
        last_of(s.drop_last(), a, b)
    }
}

proof fn lemma_last_of(s: Seq<char>, a: char, b: char)
    ensures
        -1 <= last_of(s, a, b) < s.len(),
        last_of(s, a, b) >= 0 ==> (s[last_of(s, a, b)] == a || s[last_of(s, a, b)] == b),
        forall|j: int| last_of(s, a, b) < j < s.len() ==> #[trigger] s[j] != a && s[j] != b,
    decreases s.len(),
{
    if s.len() > 0 && !(s.last() == a || s.last() == b) {
        lemma_last_of(s.drop_last(), a, b);
        assert forall|j: int| last_of(s, a, b) < j < s.len() implies #[trigger] s[j] != a && s[j] != b by {
            if j < s.len() - 1 {
                assert(s[j] == s.drop_last()[j]);
            }
        }
    }
}

proof fn lemma_after_last_sep(s: Seq<char>)
    ensures
        after_last_sep(s) == s.skip(last_of(s, '/', '\\') + 1),
    decreases s.len(),
{
    if s.len() > 0 && !is_sep(s.last()) {
        lemma_after_last_sep(s.drop_last());
        lemma_last_of(s.drop_last(), '/', '\\');
        let k = last_of(s.drop_last(), '/', '\\') + 1;
        assert(s.drop_last().skip(k).push(s.last()) =~= s.skip(k));
    } else if s.len() > 0 {
        assert(s.skip(s.len() as int) =~= Seq::<char>::empty());
    } else {
        assert(s.skip(0) =~= s);
    }
}

/// One past the position of the last `a` or `b` in `s`; 0 when there is
/// none.
fn after_last_of(s: &[char], a: char, b: char) -> (r: usize)
    ensures
        r == last_of(s@, a, b) + 1,
{
    let mut i: usize = s.len();
    proof {
        assert(s@.take(s@.len() as int) =~= s@);
    }
    while i > 0
        invariant
            i <= s@.len(),
            last_of(s@.take(i as int), a, b) == last_of(s@, a, b),
        decreases i,
    {
        if s[i - 1] == a || s[i - 1] == b {
            assert(s@.take(i as int).last() == s@[i - 1]);
            return i;
        }
        assert(s@.take(i as int).drop_last() =~= s@.take(i - 1));
        i = i - 1;
    }
    0
}

/// The file name without its directories.
pub fn skip_path(path: &str) -> (r: String)
    ensures
        r@ == after_last_sep(path@),
{
    let chars = chars_of(path);
    let start = after_last_of(chars.as_slice(), '/', '\\');
    proof {
        lemma_after_last_sep(path@);
        lemma_last_of(path@, '/', '\\');
    }
    let mut out: Vec<char> = Vec::new();
    let mut i: usize = start;
    while i < chars.len()
        invariant
            start <= i <= chars@.len(),
            out@ == chars@.subrange(start as int, i as int),
        decreases chars@.len() - i,
    {
        out.push(chars[i]);
        assert(out@ =~= chars@.subrange(start as int, i + 1));
        i = i + 1;
    }
    assert(out@ =~= path@.skip(start as int));
    string_of(out.as_slice())
}

/// The name up to its first `.`.
pub fn strip_extension(path: &str) -> (r: String)
    ensures
        r@ == path@.take(first_index(path@, '.')),
{
    let chars = chars_of(path);
    proof {
        lemma_first_index(path@, '.');
    }
    let mut out: Vec<char> = Vec::new();
    let mut i: usize = 0;
    while i < chars.len() && chars[i] != '.'
        invariant
            i <= chars@.len(),
            chars@ == path@,
            out@ == chars@.take(i as int),
            forall|j: int| 0 <= j < i ==> chars@[j] != '.',
        decreases chars@.len() - i,
    {
        out.push(chars[i]);
        assert(out@ =~= chars@.take(i + 1));
        i = i + 1;
    }
    assert(i == first_index(path@, '.'));
    string_of(out.as_slice())
}

/// How many characters of `e`, from `m` on, go into an extension: they
/// are taken while the text so far is shorter than seven bytes.
pub open spec fn extension_len(e: Seq<char>, m: int) -> int
    decreases e.len() - m,
{
    if 0 <= m < e.len() && vstd::utf8::encode_utf8(e.take(m)).len() < 7 {
        extension_len(e, m + 1)
    } else {
        m
    }
}

/// The extension of a name: what follows its first `.`, up to seven
/// bytes' worth of characters; empty when there is no `.`.
pub open spec fn spec_file_extension(path: Seq<char>) -> Seq<char> {
    let dot = first_index(path, '.');
    if dot < path.len() {
        let e = path.skip(dot + 1);
        e.take(extension_len(e, 0))
    } else {
        Seq::empty()
    }
}

proof fn lemma_extension_len(e: Seq<char>, m: int)
    requires
        0 <= m <= e.len(),
    ensures
        m <= extension_len(e, m) <= e.len(),
    decreases e.len() - m,
{
    if m < e.len() && vstd::utf8::encode_utf8(e.take(m)).len() < 7 {
        lemma_extension_len(e, m + 1);
    }
}

pub fn file_extension(path: &str) -> (r: String)
    ensures
        r@ == spec_file_extension(path@),
{
    let chars = chars_of(path);
    proof {
        lemma_first_index(path@, '.');
    }
    let mut dot: usize = 0;
    while dot < chars.len() && chars[dot] != '.'
        invariant
            dot <= chars@.len(),
            chars@ == path@,
            forall|j: int| 0 <= j < dot ==> chars@[j] != '.',
        decreases chars@.len() - dot,
    {
        dot = dot + 1;
    }
    assert(dot == first_index(path@, '.'));
    if dot == chars.len() {
        return String::new();
    }
    let ghost e = path@.skip(dot + 1);
    let mut out = String::new();
    let mut m: usize = 0;
    proof {
        lemma_extension_len(e, 0);
    }
    while dot + 1 + m < chars.len() && str_utf8_len(out.as_str()) < 7
        invariant
            chars@ == path@,
            dot < chars@.len(),
            e == path@.skip(dot + 1),
            e.len() == chars.len() - dot - 1,
            m <= e.len(),
            out@ == e.take(m as int),
            extension_len(e, m as int) == extension_len(e, 0),
        decreases e.len() - m,
    {
        push_char(&mut out, chars[dot + 1 + m]);
        assert(out@ =~= e.take(m + 1));
        m = m + 1;
    }
    out
}

/// The base name of a model path: between the last separator before the
/// last `.` and that `.`, or `?model?` when that leaves at most one byte.
pub open spec fn spec_file_base(path: Seq<char>) -> Seq<char> {
    if path.len() == 0 {
        "?model?"@
    } else {
        let dot = last_of(path, '.', '.');
        let end = if dot >= 0 { dot } else { path.len() as int };
        let start = last_of(path.take(end), '/', '\\') + 1;
        let base = path.subrange(start, end);
        if vstd::utf8::encode_utf8(base).len() <= 1 {
            "?model?"@
        } else {
            base
        }
    }
}

pub fn file_base(path: &str) -> (r: String)
    ensures
        r@ == spec_file_base(path@),
{
    let chars = chars_of(path);
    if chars.len() == 0 {
        return "?model?".to_owned();
    }
    let after_dot = after_last_of(chars.as_slice(), '.', '.');
    proof {
        lemma_last_of(path@, '.', '.');
    }
    let end: usize = if after_dot > 0 { after_dot - 1 } else { chars.len() };
    let mut head: Vec<char> = Vec::new();
    let mut i: usize = 0;
    while i < end
        invariant
            i <= end <= chars@.len(),
            head@ == chars@.take(i as int),
        decreases end - i,
    {
        head.push(chars[i]);
        assert(head@ =~= chars@.take(i + 1));
        i = i + 1;
    }
    let start = after_last_of(head.as_slice(), '/', '\\');
    proof {
        lemma_last_of(head@, '/', '\\');
    }
    let mut base: Vec<char> = Vec::new();
    let mut j: usize = start;
    while j < end
        invariant
            start <= j <= end <= chars@.len(),
            base@ == chars@.subrange(start as int, j as int),
        decreases end - j,
    {
        base.push(chars[j]);
        assert(base@ =~= chars@.subrange(start as int, j + 1));
        j = j + 1;
    }
    let s = string_of(base.as_slice());
    if str_utf8_len(s.as_str()) <= 1 {
        return "?model?".to_owned();
    }
    s
}

/// Whether the file name part of `s` has a `.`: scanning from the end, a
/// `.` comes before any separator.
pub open spec fn has_ext(s: Seq<char>) -> bool
    decreases s.len(),
{
    if s.len() == 0 {
        false
    } else if is_sep(s.last()) {
        false
    } else if s.last() == '.' {
        true
    } else {
        has_ext(s.drop_last())
    }
}

pub fn has_extension(path: &str) -> (r: bool)
    ensures
        r == has_ext(path@),
{
    let chars = chars_of(path);
    let mut i: usize = chars.len();
    assert(chars@.take(chars@.len() as int) =~= chars@);
    while i > 0
        invariant
            i <= chars@.len(),
            has_ext(chars@.take(i as int)) == has_ext(path@),
            chars@ == path@,
        decreases i,
    {
        let c = chars[i - 1];
        assert(chars@.take(i as int).last() == c);
        if c == '/' || c == '\\' {
            return false;
        }
        if c == '.' {
            return true;
        }
        assert(chars@.take(i as int).drop_last() =~= chars@.take(i - 1));
        i = i - 1;
    }
    false
}

/// The name with `extension` added when it has none.
pub fn default_extension(path: &str, extension: &str) -> (r: String)
    ensures
        r@ == if has_ext(path@) { path@ } else { path@ + extension@ },
{
    if has_extension(path) {
        return path.to_owned();
    }
    let mut out = chars_of(path);
    let ext = chars_of(extension);
    crate::text::push_chars(&mut out, ext.as_slice());
    string_of(out.as_slice())
}

/// A name that ends in text holding a `.` and no separator has an
/// extension.
proof fn lemma_has_ext_suffix(s: Seq<char>, e: Seq<char>)
    requires
        e.contains('.'),
        forall|k: int| 0 <= k < e.len() ==> !is_sep(#[trigger] e[k]),
    ensures
        has_ext(s + e),
    decreases e.len(),
{
    let j = choose|j: int| 0 <= j < e.len() && e[j] == '.';
    assert((s + e).last() == e.last());
    if e.last() != '.' {
        assert(j < e.len() - 1);
        assert(e.drop_last()[j] == '.');
        assert((s + e).drop_last() =~= s + e.drop_last());
        lemma_has_ext_suffix(s, e.drop_last());
    }
}

/// Adding a default extension twice changes nothing more than adding it
/// once, for an extension that starts with `.` and holds no separator.
pub proof fn law_default_extension_idempotent(path: Seq<char>, ext: Seq<char>)
    requires
        ext.len() > 0,
        ext[0] == '.',
        forall|k: int| 0 <= k < ext.len() ==> !is_sep(#[trigger] ext[k]),
    ensures
        ({
            let once = if has_ext(path) { path } else { path + ext };
            (if has_ext(once) { once } else { once + ext }) == once
        }),
{
    if !has_ext(path) {
        assert(ext.contains('.')) by {
            assert(ext[0] == '.');
        }
        lemma_has_ext_suffix(path, ext);
    }
}

} // verus!

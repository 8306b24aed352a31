//! Conversions between Rust strings and the character sequences the
//! parsers work on.
use vstd::prelude::*;

verus! {

/// Appends one character to a string (`String::push`).
#[verifier::external_body]
pub(crate) fn push_char(s: &mut String, c: char)
    ensures
        final(s)@ == old(s)@.push(c),
{
    s.push(c);
}

/// The characters of a string slice, in order.
pub fn chars_of(s: &str) -> (out: Vec<char>)
    ensures
        out@ == s@,
{
    let mut out: Vec<char> = Vec::new();
    for c in it: s.chars()
        invariant
            out@ == it.seq().take(it.index() as int),
    {
        out.push(c);
    }
    out
}

/// Whether `s` begins with the character `c`.
pub fn starts_with_char(s: &str, c: char) -> (r: bool)
    ensures
        r == (s@.len() > 0 && s@[0] == c),
{
    let cs = chars_of(s);
    cs.len() > 0 && cs[0] == c
}

/// Builds a string from a sequence of characters.
pub fn string_of(chars: &[char]) -> (s: String)
    ensures
        s@ == chars@,
{
    let mut s = String::new();
    for i in 0..chars.len()
        invariant
            s@ == chars@.take(i as int),
    {
        push_char(&mut s, chars[i]);
        assert(chars@.take(i as int).push(chars@[i as int]) == chars@.take(i + 1));
    }
    assert(chars@.take(chars@.len() as int) == chars@);
    s
}

} // verus!

verus! {

/// The characters that `String::from_utf8_lossy` makes of `bytes`.
pub uninterp spec fn utf8_lossy(bytes: Seq<u8>) -> Seq<char>;

/// The text that bytes decode to: exactly their characters when they are
/// valid UTF-8, else what `String::from_utf8_lossy` makes of them.
pub open spec fn lossy_text(bytes: Seq<u8>) -> Seq<char> {
    if vstd::utf8::valid_utf8(bytes) {
        vstd::utf8::decode_utf8(bytes)
    } else {
        utf8_lossy(bytes)
    }
}

/// Decodes bytes as UTF-8, putting U+FFFD in place of each invalid
/// sequence (`String::from_utf8_lossy`). Stated: the result is a function
/// of the bytes alone, and valid UTF-8 is decoded exactly.
#[verifier::external_body]
pub fn string_from_utf8_lossy(bytes: &[u8]) -> (s: String)
    ensures
        s@ == utf8_lossy(bytes@),
        vstd::utf8::valid_utf8(bytes@) ==> s@ == vstd::utf8::decode_utf8(bytes@),
{
    String::from_utf8_lossy(bytes).into_owned()
}

} // verus!

verus! {

/// The length of the UTF-8 encoding of `s`, as a machine length.
pub open spec fn utf8_len(s: Seq<char>) -> int {
    (vstd::utf8::encode_utf8(s).len() as usize) as int
}

/// The byte length of a string.
pub fn str_utf8_len(s: &str) -> (n: usize)
    ensures
        n == utf8_len(s@),
        n == vstd::utf8::encode_utf8(s@).len(),
{
    let b = s.as_bytes();
    b.len()
}

/// ASCII upper-case letters to lower case; other characters unchanged.
pub open spec fn ascii_lower(c: char) -> char {
    if 'A' <= c && c <= 'Z' {
        ((c as u32) + 32) as char
    } else {
        c
    }
}

pub fn ascii_lower_exec(c: char) -> (r: char)
    ensures
        r == ascii_lower(c),
{
    if 'A' <= c && c <= 'Z' {
        let b = (c as u32 + 32) as u8;
        b as char
    } else {
        c
    }
}

/// Equality of two character sequences up to ASCII case.
pub open spec fn seq_eq_ignore_ascii_case(a: Seq<char>, b: Seq<char>) -> bool {
    a.len() == b.len() && forall|i: int| 0 <= i < a.len() ==> ascii_lower(#[trigger] a[i]) == ascii_lower(b[i])
}

pub fn eq_ignore_ascii_case(a: &[char], b: &[char]) -> (r: bool)
    ensures
        r == seq_eq_ignore_ascii_case(a@, b@),
{
    if a.len() != b.len() {
        return false;
    }
    let mut i: usize = 0;
    while i < a.len()
        invariant
            a@.len() == b@.len(),
            i <= a@.len(),
            forall|j: int| 0 <= j < i ==> ascii_lower(#[trigger] a@[j]) == ascii_lower(b@[j]),
        decreases a@.len() - i,
    {
        if ascii_lower_exec(a[i]) != ascii_lower_exec(b[i]) {
            return false;
        }
        i = i + 1;
    }
    true
}

/// Equality of two character sequences.
pub fn chars_eq(a: &[char], b: &[char]) -> (r: bool)
    ensures
        r == (a@ == b@),
{
    if a.len() != b.len() {
        return false;
    }
    let mut i: usize = 0;
    while i < a.len()
        invariant
            a@.len() == b@.len(),
            i <= a@.len(),
            forall|j: int| 0 <= j < i ==> a@[j] == b@[j],
        decreases a@.len() - i,
    {
        if a[i] != b[i] {
            return false;
        }
        i = i + 1;
    }
    assert(a@ =~= b@);
    true
}

/// Whether `c` occurs in `s`.
pub fn contains_char(s: &[char], c: char) -> (r: bool)
    ensures
        r == s@.contains(c),
{
    let mut i: usize = 0;
    while i < s.len()
        invariant
            i <= s@.len(),
            forall|j: int| 0 <= j < i ==> s@[j] != c,
        decreases s@.len() - i,
    {
        if s[i] == c {
            return true;
        }
        i = i + 1;
    }
    false
}

/// Appends the characters of `src` to `dst`.
pub fn push_chars(dst: &mut Vec<char>, src: &[char])
    ensures
        final(dst)@ == old(dst)@ + src@,
{
    let mut i: usize = 0;
    while i < src.len()
        invariant
            i <= src@.len(),
            dst@ == old(dst)@ + src@.take(i as int),
        decreases src@.len() - i,
    {
        dst.push(src[i]);
        assert(src@.take(i as int).push(src@[i as int]) =~= src@.take(i + 1));
        i = i + 1;
    }
    assert(src@.take(src@.len() as int) =~= src@);
}

/// Shortens a string to its first `n` bytes (`String::truncate`); `n` is
/// at a character boundary or past the end.
#[verifier::external_body]
pub(crate) fn string_truncate(s: &mut String, n: usize)
    requires
        n >= vstd::utf8::encode_utf8(old(s)@).len() || vstd::utf8::is_char_boundary(vstd::utf8::encode_utf8(old(s)@), n as int),
    ensures
        n >= vstd::utf8::encode_utf8(old(s)@).len() ==> final(s)@ == old(s)@,
        n < vstd::utf8::encode_utf8(old(s)@).len() ==> vstd::utf8::encode_utf8(final(s)@) == vstd::utf8::encode_utf8(old(s)@).take(n as int),
{
    s.truncate(n);
}

} // verus!

verus! {

/// Decodes bytes that must be valid UTF-8 (`std::str::from_utf8`): `None`
/// exactly when they are not.
#[verifier::external_body]
pub fn str_from_utf8(bytes: &[u8]) -> (r: Option<String>)
    ensures
        r is Some <==> vstd::utf8::valid_utf8(bytes@),
        r matches Some(s) ==> s@ == vstd::utf8::decode_utf8(bytes@),
{
    match std::str::from_utf8(bytes) {
        Ok(s) => Some(s.to_string()),
        Err(_) => None,
    }
}

} // verus!

verus! {

/// Index of the first `c` in `s`, or the length of `s`.
pub open spec fn first_index(s: Seq<char>, c: char) -> int
    decreases s.len(),
{
    if s.len() == 0 {
        0
    } else if s[0] == c {
        0
    } else {
        1 + first_index(s.drop_first(), c)
    }
}

/// The pieces of `s` between occurrences of `sep`, as `str::split` gives them.
pub open spec fn split_on(s: Seq<char>, sep: char) -> Seq<Seq<char>>
    decreases s.len(),
{
    let i = first_index(s, sep);
    if i >= s.len() || i < 0 {
        seq![s]
    } else {
        seq![s.take(i)] + split_on(s.skip(i + 1), sep)
    }
}


pub proof fn lemma_first_index(s: Seq<char>, c: char)
    ensures
        0 <= first_index(s, c) <= s.len(),
        first_index(s, c) < s.len() ==> s[first_index(s, c)] == c,
        forall|j: int| 0 <= j < first_index(s, c) ==> s[j] != c,
    decreases s.len(),
{
    if s.len() > 0 && s[0] != c {
        lemma_first_index(s.drop_first(), c);
        assert forall|j: int| 0 <= j < first_index(s, c) implies s[j] != c by {
            if j > 0 {
                assert(s[j] == s.drop_first()[j - 1]);
            }
        }
    }
}

/// The first index is the first place `c` occurs.
pub proof fn lemma_first_index_at(s: Seq<char>, c: char, i: int)
    requires
        0 <= i <= s.len(),
        i < s.len() ==> s[i] == c,
        forall|j: int| 0 <= j < i ==> s[j] != c,
    ensures
        first_index(s, c) == i,
    decreases s.len(),
{
    if s.len() > 0 && s[0] != c {
        assert forall|j: int| 0 <= j < i - 1 implies s.drop_first()[j] != c by {
            assert(s.drop_first()[j] == s[j + 1]);
        }
        lemma_first_index_at(s.drop_first(), c, i - 1);
    }
}

/// Splitting a piece without separators, a separator and a rest.
pub proof fn lemma_split_cons(p: Seq<char>, r: Seq<char>, sep: char)
    requires
        !p.contains(sep),
    ensures
        split_on(p + seq![sep] + r, sep) == seq![p] + split_on(r, sep),
{
    let s = p + seq![sep] + r;
    assert forall|j: int| 0 <= j < p.len() implies s[j] != sep by {
        assert(s[j] == p[j]);
        if s[j] == sep {
            assert(p.contains(sep));
        }
    }
    lemma_first_index_at(s, sep, p.len() as int);
    assert(s.take(p.len() as int) =~= p);
    assert(s.skip(p.len() as int + 1) =~= r);
}

/// Splitting a piece without separators.
pub proof fn lemma_split_single(p: Seq<char>, sep: char)
    requires
        !p.contains(sep),
    ensures
        split_on(p, sep) == seq![p],
{
    assert forall|j: int| 0 <= j < p.len() implies p[j] != sep by {
        if p[j] == sep {
            assert(p.contains(sep));
        }
    }
    lemma_first_index_at(p, sep, p.len() as int);
}


pub open spec fn views(v: Seq<Vec<char>>) -> Seq<Seq<char>> {
    Seq::new(v.len(), |i: int| v[i]@)
}

/// The pieces of `s` from `start` on, split at `sep`.
pub fn split_chars(s: &[char], start: usize, sep: char) -> (parts: Vec<Vec<char>>)
    requires
        start <= s@.len(),
    ensures
        views(parts@) == split_on(s@.skip(start as int), sep),
{
    let mut parts: Vec<Vec<char>> = Vec::new();
    let mut cur: Vec<char> = Vec::new();
    let mut piece_start: usize = start;
    let mut i: usize = start;
    while i < s.len()
        invariant
            start <= piece_start <= i <= s@.len(),
            cur@ == s@.subrange(piece_start as int, i as int),
            !cur@.contains(sep),
            views(parts@) + split_on(s@.skip(piece_start as int), sep) == split_on(s@.skip(start as int), sep),
        decreases s@.len() - i,
    {
        if s[i] == sep {
            proof {
                let rest = s@.skip(piece_start as int);
                assert(rest =~= cur@ + seq![sep] + s@.skip(i + 1));
                lemma_split_cons(cur@, s@.skip(i + 1), sep);
                assert(views(parts@.push(cur)) =~= views(parts@).push(cur@));
            }
            parts.push(cur);
            cur = Vec::new();
            piece_start = i + 1;
            i = i + 1;
            proof {
                assert(views(parts@) + split_on(s@.skip(piece_start as int), sep) =~= split_on(s@.skip(start as int), sep));
            }
        } else {
            let ghost prev = cur@;
            cur.push(s[i]);
            proof {
                assert(cur@ =~= s@.subrange(piece_start as int, i + 1));
                assert(!cur@.contains(sep)) by {
                    if cur@.contains(sep) {
                        let k = choose|k: int| 0 <= k < cur@.len() && cur@[k] == sep;
                        if k < prev.len() {
                            assert(prev[k] == sep);
                            assert(prev.contains(sep));
                        }
                    }
                }
            }
            i = i + 1;
        }
    }
    proof {
        assert(s@.skip(piece_start as int) =~= cur@);
        lemma_split_single(cur@, sep);
        assert(views(parts@.push(cur)) =~= views(parts@).push(cur@));
    }
    parts.push(cur);
    proof {
        assert(views(parts@) =~= split_on(s@.skip(start as int), sep));
    }
    parts
}


} // verus!

verus! {

/// The text of a fixed-size name field: the bytes before the first zero,
/// decoded as `String::from_utf8_lossy` does.
pub fn fixed_string(field: &[u8]) -> (s: String)
    ensures
        s@ == lossy_text(field@.take(crate::msg::zero_from(field@, 0))),
{
    proof {
        crate::msg::lemma_zero_from_bounds(field@, 0);
    }
    let mut end: usize = 0;
    while end < field.len() && field[end] != 0
        invariant
            end <= field@.len(),
            crate::msg::zero_from(field@, end as int) == crate::msg::zero_from(field@, 0),
        decreases field@.len() - end,
    {
        end = end + 1;
    }
    assert(field@.subrange(0, end as int) =~= field@.take(end as int));
    string_from_utf8_lossy(&field[0..end])
}

} // verus!

//! Where the game data lives: the `quake_dir` setting of a config file.
use vstd::prelude::*;
use crate::decimal::{spec_trim, trim};
use crate::text::{chars_of, chars_eq, first_index, lemma_first_index, string_of};

verus! {

#[derive(Debug, Clone, Copy, PartialEq, Eq)]
pub enum DataPathError {
    NotFound,
}

/// A line without the carriage return before its newline.
pub open spec fn strip_cr(l: Seq<char>) -> Seq<char> {
    if l.len() > 0 && l.last() == '\r' {
        l.drop_last()
    } else {
        l
    }
}

/// The lines of a text as `str::lines` gives them: split at `\n`, a `\r`
/// before the `\n` dropped, no empty line after a final newline.
pub open spec fn lines_of(s: Seq<char>) -> Seq<Seq<char>>
    decreases s.len(),
{
    if s.len() == 0 {
        Seq::empty()
    } else {
        let i = first_index(s, '\n');
        if 0 <= i < s.len() {
            seq![strip_cr(s.take(i))] + lines_of(s.skip(i + 1))
        } else {
            seq![s]
        }
    }
}

pub open spec fn trim_start_char(s: Seq<char>, c: char) -> Seq<char>
    decreases s.len(),
{
    if s.len() > 0 && s[0] == c {
        trim_start_char(s.drop_first(), c)
    } else {
        s
    }
}

pub open spec fn trim_end_char(s: Seq<char>, c: char) -> Seq<char>
    decreases s.len(),
{
    if s.len() > 0 && s.last() == c {
        trim_end_char(s.drop_last(), c)
    } else {
        s
    }
}

/// `s` without `c` at either end (`str::trim_matches`).
pub open spec fn trim_char(s: Seq<char>, c: char) -> Seq<char> {
    trim_end_char(trim_start_char(s, c), c)
}

pub enum LineSetting {
    Skip,
    Abort,
    Found(Seq<char>),
}

/// What one line says of `quake_dir`: after its comment is cut and it is
/// trimmed, a line that starts with `quake_dir` gives the text after its
/// first `=`, without quotes and white space around it. Such a line with
/// no `=` ends the search; one with an empty value is passed over.
pub open spec fn line_setting(line: Seq<char>) -> LineSetting {
    let l = spec_trim(line.take(first_index(line, '#')));
    if !(l.len() >= 9 && l.take(9) == "quake_dir"@) {
        LineSetting::Skip
    } else {
        let eq = first_index(l, '=');
        if eq >= l.len() {
            LineSetting::Abort
        } else {
            let v = spec_trim(trim_char(trim_char(spec_trim(l.skip(eq + 1)), '"'), '\''));
            if v.len() > 0 {
                LineSetting::Found(v)
            } else {
                LineSetting::Skip
            }
        }
    }
}

/// The first `quake_dir` setting of the lines.
pub open spec fn quake_dir_in(lines: Seq<Seq<char>>) -> Option<Seq<char>>
    decreases lines.len(),
{
    if lines.len() == 0 {
        None
    } else {
        match line_setting(lines[0]) {
            LineSetting::Skip => quake_dir_in(lines.drop_first()),
            LineSetting::Abort => None,
            LineSetting::Found(v) => Some(v),
        }
    }
}

fn subrange_of(s: &[char], from: usize, to: usize) -> (r: Vec<char>)
    requires
        from <= to <= s@.len(),
    ensures
        r@ == s@.subrange(from as int, to as int),
{
    let mut out: Vec<char> = Vec::new();
    let mut i: usize = from;
    while i < to
        invariant
            from <= i <= to <= s@.len(),
            out@ == s@.subrange(from as int, i as int),
        decreases to - i,
    {
        out.push(s[i]);
        assert(out@ =~= s@.subrange(from as int, i + 1));
        i = i + 1;
    }
    out
}

/// Index of the first `c` in `s`, or its length.
fn find_char(s: &[char], c: char) -> (r: usize)
    ensures
        r == first_index(s@, c),
{
    proof {
        lemma_first_index(s@, c);
    }
    let mut i: usize = 0;
    while i < s.len() && s[i] != c
        invariant
            i <= s@.len(),
            forall|j: int| 0 <= j < i ==> s@[j] != c,
        decreases s@.len() - i,
    {
        i = i + 1;
    }
    i
}

/// `s` without `c` at either end.
fn trim_char_exec(s: &[char], c: char) -> (r: Vec<char>)
    ensures
        r@ == trim_char(s@, c),
{
    let mut start: usize = 0;
    assert(s@.skip(0) =~= s@);
    while start < s.len() && s[start] == c
        invariant
            start <= s@.len(),
            trim_start_char(s@.skip(start as int), c) == trim_start_char(s@, c),
        decreases s@.len() - start,
    {
        assert(s@.skip(start as int).drop_first() =~= s@.skip(start + 1));
        start = start + 1;
    }
    let ghost front = s@.skip(start as int);
    assert(trim_start_char(s@, c) == front);
    let mut end: usize = s.len();
    assert(front.take(front.len() as int) =~= front);
    while end > start && s[end - 1] == c
        invariant
            start <= end <= s@.len(),
            front == s@.skip(start as int),
            trim_end_char(front.take(end - start), c) == trim_end_char(front, c),
        decreases end,
    {
        assert(front.take(end - start).drop_last() =~= front.take(end - 1 - start));
        assert(front.take(end - start).last() == s@[end - 1]);
        end = end - 1;
    }
    assert(trim_end_char(front, c) == front.take(end - start));
    let r = subrange_of(s, start, end);
    assert(r@ =~= front.take(end - start));
    r
}

fn line_setting_exec(line: &[char]) -> (r: (u8, Vec<char>))
    ensures
        match line_setting(line@) {
            LineSetting::Skip => r.0 == 0,
            LineSetting::Abort => r.0 == 1,
            LineSetting::Found(v) => r.0 == 2 && r.1@ == v,
        },
{
    let hash = find_char(line, '#');
    proof {
        lemma_first_index(line@, '#');
    }
    let head = subrange_of(line, 0, hash);
    assert(head@ =~= line@.take(hash as int));
    let l = trim(head.as_slice());
    if l.len() < 9 {
        return (0, Vec::new());
    }
    let prefix = subrange_of(l.as_slice(), 0, 9);
    assert(prefix@ =~= l@.take(9));
    if !chars_eq(prefix.as_slice(), chars_of("quake_dir").as_slice()) {
        return (0, Vec::new());
    }
    let eq = find_char(l.as_slice(), '=');
    proof {
        lemma_first_index(l@, '=');
    }
    if eq >= l.len() {
        return (1, Vec::new());
    }
    let after = subrange_of(l.as_slice(), eq + 1, l.len());
    assert(after@ =~= l@.skip(eq + 1));
    let v1 = trim(after.as_slice());
    let v2 = trim_char_exec(v1.as_slice(), '"');
    let v3 = trim_char_exec(v2.as_slice(), '\'');
    let v = trim(v3.as_slice());
    if v.len() > 0 {
        (2, v)
    } else {
        (0, Vec::new())
    }
}

/// The `quake_dir` setting of a config file's text.
pub fn parse_quake_dir(contents: &str) -> (r: Option<String>)
    ensures
        match quake_dir_in(lines_of(contents@)) {
            Some(v) => r matches Some(s) && s@ == v,
            None => r is None,
        },
{
    let chars = chars_of(contents);
    let mut pos: usize = 0;
    assert(chars@.skip(0) =~= chars@);
    while pos < chars.len()
        invariant
            pos <= chars@.len(),
            chars@ == contents@,
            quake_dir_in(lines_of(contents@)) == quake_dir_in(lines_of(chars@.skip(pos as int))),
        decreases chars@.len() - pos,
    {
        let ghost rest = chars@.skip(pos as int);
        let mut nl: usize = pos;
        while nl < chars.len() && chars[nl] != '\n'
            invariant
                pos <= nl <= chars@.len(),
                forall|j: int| pos <= j < nl ==> chars@[j] != '\n',
            decreases chars@.len() - nl,
        {
            nl = nl + 1;
        }
        proof {
            lemma_first_index(rest, '\n');
            assert forall|j: int| 0 <= j < nl - pos implies rest[j] != '\n' by {
                assert(rest[j] == chars@[pos + j]);
            }
            if nl < chars@.len() {
                assert(rest[nl - pos] == '\n');
            }
            crate::text::lemma_first_index_at(rest, '\n', nl - pos);
        }
        let mut line = subrange_of(chars.as_slice(), pos, nl);
        assert(line@ =~= rest.take(nl - pos));
        if nl < chars.len() && line.len() > 0 && line[line.len() - 1] == '\r' {
            line.pop();
        }
        let (kind, value) = line_setting_exec(line.as_slice());
        proof {
            if nl < chars@.len() {
                let first = strip_cr(rest.take(nl - pos));
                let others = lines_of(rest.skip(nl - pos + 1));
                assert(line@ == first);
                assert(lines_of(rest) == seq![first] + others);
                assert(rest.skip(nl - pos + 1) =~= chars@.skip(nl + 1));
                assert((seq![first] + others)[0] == first);
                assert((seq![first] + others).drop_first() =~= others);
            } else {
                assert(rest.take(nl - pos) =~= rest);
                assert(lines_of(rest) == seq![rest]);
                assert(seq![rest].drop_first() =~= Seq::<Seq<char>>::empty());
                assert(quake_dir_in(Seq::<Seq<char>>::empty()) is None);
            }
        }
        if kind == 2 {
            return Some(string_of(value.as_slice()));
        }
        if kind == 1 {
            return None;
        }
        if nl >= chars.len() {
            assert(chars@.skip(chars@.len() as int) =~= Seq::<char>::empty());
            return None;
        }
        pos = nl + 1;
    }
    assert(chars@.skip(pos as int) =~= Seq::<char>::empty());
    None
}

} // verus!

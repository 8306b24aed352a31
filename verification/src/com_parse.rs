//! Tokens in the manner of Quake's `COM_Parse`: words separated by white
//! space, quoted strings, and `//` comments to the end of the line.
use vstd::prelude::*;
use vstd::string::StringSliceAdditionalSpecFns;
use crate::text::{lossy_text, string_from_utf8_lossy};

verus! {

/// The first position at or after `i` that is not white space (a byte
/// above 32), or the end.
pub open spec fn ws_end(b: Seq<u8>, i: int) -> int
    decreases b.len() - i,
{
    if 0 <= i < b.len() && b[i] <= 32 {
        ws_end(b, i + 1)
    } else {
        i
    }
}

/// The first newline at or after `i`, or the end.
pub open spec fn nl_from(b: Seq<u8>, i: int) -> int
    decreases b.len() - i,
{
    if 0 <= i < b.len() && b[i] != 10 {
        nl_from(b, i + 1)
    } else {
        i
    }
}

/// The first `"` at or after `i`, or the end.
pub open spec fn quote_end(b: Seq<u8>, i: int) -> int
    decreases b.len() - i,
{
    if 0 <= i < b.len() && b[i] != 34 {
        quote_end(b, i + 1)
    } else {
        i
    }
}

/// The first white space at or after `i`, or the end.
pub open spec fn word_end(b: Seq<u8>, i: int) -> int
    decreases b.len() - i,
{
    if 0 <= i < b.len() && b[i] > 32 {
        word_end(b, i + 1)
    } else {
        i
    }
}

pub proof fn lemma_scan_bounds(b: Seq<u8>, i: int)
    requires
        0 <= i <= b.len(),
    ensures
        i <= ws_end(b, i) <= b.len(),
        i <= nl_from(b, i) <= b.len(),
        i <= quote_end(b, i) <= b.len(),
        i <= word_end(b, i) <= b.len(),
        word_end(b, i) < b.len() ==> b[word_end(b, i)] <= 32,
        quote_end(b, i) < b.len() ==> b[quote_end(b, i)] == 34,
        ws_end(b, i) < b.len() ==> b[ws_end(b, i)] > 32,
    decreases b.len() - i,
{
    if i < b.len() {
        lemma_scan_bounds(b, i + 1);
    }
}

pub open spec fn is_comment_at(b: Seq<u8>, j: int) -> bool {
    0 <= j && j + 1 < b.len() && b[j] == 47 && b[j + 1] == 47
}

/// Where the next token starts at or after `i`, past white space and
/// comments; -1 when the text ends first.
pub open spec fn token_start(b: Seq<u8>, i: int) -> int
    decreases b.len() - i,
{
    if i < 0 || i > b.len() {
        -1
    } else {
        let j = ws_end(b, i);
        if j >= b.len() {
            -1
        } else if is_comment_at(b, j) {
            proof {
                lemma_scan_bounds(b, i);
                lemma_scan_bounds(b, j + 2);
            }
            token_start(b, nl_from(b, j + 2))
        } else {
            j
        }
    }
}

/// The token at or after position `i` and the position after it: a
/// quoted string without its quotes (up to the closing quote or the end),
/// or a run of bytes above 32.
pub open spec fn spec_parse_at(b: Seq<u8>, i: int) -> Option<(Seq<char>, int)> {
    let j = token_start(b, i);
    if j < 0 || j >= b.len() {
        None
    } else if b[j] == 34 {
        let e = quote_end(b, j + 1);
        Some((lossy_text(b.subrange(j + 1, e)), if e < b.len() { e + 1 } else { e }))
    } else {
        let e = word_end(b, j);
        Some((lossy_text(b.subrange(j, e)), e))
    }
}

pub proof fn lemma_token_start(b: Seq<u8>, i: int)
    requires
        0 <= i <= b.len(),
    ensures
        token_start(b, i) == -1 || (i <= token_start(b, i) < b.len() && b[token_start(b, i)] > 32
            && !is_comment_at(b, token_start(b, i))),
    decreases b.len() - i,
{
    lemma_scan_bounds(b, i);
    let j = ws_end(b, i);
    if j < b.len() && is_comment_at(b, j) {
        lemma_scan_bounds(b, j + 2);
        lemma_token_start(b, nl_from(b, j + 2));
    }
}

/// A token always ends after where the search for it began.
pub proof fn lemma_parse_at_advances(b: Seq<u8>, i: int)
    requires
        0 <= i <= b.len(),
    ensures
        spec_parse_at(b, i) matches Some((_, n)) ==> i < n <= b.len(),
{
    lemma_token_start(b, i);
    let j = token_start(b, i);
    if j >= 0 {
        lemma_scan_bounds(b, j + 1);
        lemma_scan_bounds(b, j);
    }
}

/// The tokens from position `i` on.
pub open spec fn spec_tokens(b: Seq<u8>, i: int) -> Seq<Seq<char>>
    decreases b.len() - i,
{
    if i < 0 || i > b.len() {
        Seq::empty()
    } else {
        match spec_parse_at(b, i) {
            None => Seq::empty(),
            Some((t, n)) => {
                proof {
                    lemma_parse_at_advances(b, i);
                }
                seq![t] + spec_tokens(b, n)
            },
        }
    }
}

/// The next token at or after `i`, and where it ends.
fn parse_at(b: &[u8], i: usize) -> (r: Option<(String, usize)>)
    requires
        i <= b@.len(),
    ensures
        match spec_parse_at(b@, i as int) {
            None => r is None,
            Some((t, n)) => r matches Some((s, m)) && s@ == t && m == n,
        },
{
    let mut k: usize = i;
    loop
        invariant_except_break
            i <= k <= b@.len(),
            token_start(b@, k as int) == token_start(b@, i as int),
        ensures
            i <= k < b@.len(),
            token_start(b@, i as int) == k,
        decreases b@.len() - k,
    {
        proof {
            lemma_scan_bounds(b@, k as int);
        }
        let ghost k0 = k;
        while k < b.len() && b[k] <= 32
            invariant
                k0 <= k <= b@.len(),
                ws_end(b@, k as int) == ws_end(b@, k0 as int),
            decreases b@.len() - k,
        {
            k = k + 1;
        }
        if k >= b.len() {
            return None;
        }
        if b[k] == 47 && k + 1 < b.len() && b[k + 1] == 47 {
            k = k + 2;
            let ghost k2 = k;
            proof {
                lemma_scan_bounds(b@, k as int);
            }
            while k < b.len() && b[k] != 10
                invariant
                    k2 <= k <= b@.len(),
                    nl_from(b@, k as int) == nl_from(b@, k2 as int),
                decreases b@.len() - k,
            {
                k = k + 1;
            }
            continue;
        }
        break;
    }
    proof {
        lemma_scan_bounds(b@, k as int);
        lemma_scan_bounds(b@, k + 1);
    }
    if b[k] == 34 {
        let start = k + 1;
        let mut e = start;
        while e < b.len() && b[e] != 34
            invariant
                start <= e <= b@.len(),
                quote_end(b@, e as int) == quote_end(b@, start as int),
            decreases b@.len() - e,
        {
            e = e + 1;
        }
        let token = string_from_utf8_lossy(&b[start..e]);
        let next = if e < b.len() { e + 1 } else { e };
        Some((token, next))
    } else {
        let start = k;
        let mut e = k;
        while e < b.len() && b[e] > 32
            invariant
                start <= e <= b@.len(),
                word_end(b@, e as int) == word_end(b@, start as int),
            decreases b@.len() - e,
        {
            e = e + 1;
        }
        let token = string_from_utf8_lossy(&b[start..e]);
        Some((token, e))
    }
}

/// The first token of `input` and the text after it; `None` when there
/// is none. The rest is given as `String::from_utf8_lossy` reads the
/// bytes after the token.
pub fn com_parse(input: &str) -> (r: Option<(String, String)>)
    ensures
        match spec_parse_at(input.spec_bytes(), 0) {
            None => r is None,
            Some((t, n)) => r matches Some((s, rest)) && s@ == t && rest@ == lossy_text(input.spec_bytes().skip(n)),
        },
{
    let b = input.as_bytes();
    match parse_at(b, 0) {
        None => None,
        Some((token, next)) => {
            proof {
                lemma_parse_at_advances(b@, 0);
            }
            assert(b@.subrange(next as int, b@.len() as int) =~= b@.skip(next as int));
            let rest = string_from_utf8_lossy(&b[next..b.len()]);
            Some((token, rest))
        },
    }
}

/// All the tokens of `input`.
pub fn com_tokenize(input: &str) -> (r: Vec<String>)
    ensures
        Seq::new(r@.len(), |i: int| r@[i]@) == spec_tokens(input.spec_bytes(), 0),
{
    let b = input.as_bytes();
    let mut tokens: Vec<String> = Vec::new();
    let mut i: usize = 0;
    loop
        invariant_except_break
            i <= b@.len(),
            Seq::new(tokens@.len(), |k: int| tokens@[k]@) + spec_tokens(b@, i as int) == spec_tokens(b@, 0),
        ensures
            Seq::new(tokens@.len(), |k: int| tokens@[k]@) == spec_tokens(b@, 0),
        decreases b@.len() - i,
    {
        proof {
            lemma_parse_at_advances(b@, i as int);
        }
        match parse_at(b, i) {
            None => {
                assert(Seq::new(tokens@.len(), |k: int| tokens@[k]@) + spec_tokens(b@, i as int)
                    =~= Seq::new(tokens@.len(), |k: int| tokens@[k]@));
                break;
            },
            Some((token, next)) => {
                let ghost before = Seq::new(tokens@.len(), |k: int| tokens@[k]@);
                let ghost t = token@;
                tokens.push(token);
                assert(Seq::new(tokens@.len(), |k: int| tokens@[k]@) =~= before.push(t));
                assert(before + spec_tokens(b@, i as int) =~= before.push(t) + spec_tokens(b@, next as int));
                i = next;
            },
        }
    }
    tokens
}

} // verus!

//! Quake info strings: `\key\value` pairs with length limits.
use vstd::prelude::*;
use crate::text::{chars_of, string_of, chars_eq, contains_char, push_chars, string_truncate, ascii_lower, ascii_lower_exec, eq_ignore_ascii_case, seq_eq_ignore_ascii_case, utf8_len, str_utf8_len, first_index, split_on, views, split_chars, lemma_first_index, lemma_first_index_at, lemma_split_cons, lemma_split_single};

verus! {

#[derive(Debug, Clone, Copy, PartialEq, Eq)]
pub enum InfoError {
    DisallowedStarKey,
    InvalidKey,
    InvalidValue,
    LengthExceeded,
}

/// `s` without its leading `c` characters.
pub open spec fn skip_leading(s: Seq<char>, c: char) -> Seq<char>
    decreases s.len(),
{
    if s.len() > 0 && s[0] == c {
        skip_leading(s.drop_first(), c)
    } else {
        s
    }
}

/// The key/value pairs that the pieces make, in order; an unpaired last
/// piece is dropped.
pub open spec fn pairs_of(parts: Seq<Seq<char>>) -> Seq<(Seq<char>, Seq<char>)> {
    Seq::new(parts.len() / 2, |i: int| (parts[2 * i], parts[2 * i + 1]))
}

/// The pieces of an info string.
pub open spec fn info_parts(info: Seq<char>) -> Seq<Seq<char>> {
    split_on(skip_leading(info, '\\'), '\\')
}

/// The key/value pairs of an info string.
pub open spec fn info_pairs(info: Seq<char>) -> Seq<(Seq<char>, Seq<char>)> {
    pairs_of(info_parts(info))
}

/// The value of the first pair with key `key`.
pub open spec fn lookup(pairs: Seq<(Seq<char>, Seq<char>)>, key: Seq<char>) -> Option<Seq<char>>
    decreases pairs.len(),
{
    if pairs.len() == 0 {
        None
    } else if pairs[0].0 == key {
        Some(pairs[0].1)
    } else {
        lookup(pairs.drop_first(), key)
    }
}

pub open spec fn spec_value_for_key(info: Seq<char>, key: Seq<char>) -> Option<Seq<char>> {
    if key.len() == 0 {
        None
    } else {
        lookup(info_pairs(info), key)
    }
}

pub open spec fn render_pair(p: (Seq<char>, Seq<char>)) -> Seq<char> {
    seq!['\\'] + p.0 + seq!['\\'] + p.1
}

/// The info string that holds `pairs`, in order.
pub open spec fn render(pairs: Seq<(Seq<char>, Seq<char>)>) -> Seq<char>
    decreases pairs.len(),
{
    if pairs.len() == 0 {
        Seq::empty()
    } else {
        render_pair(pairs[0]) + render(pairs.drop_first())
    }
}

/// `pairs` without those whose key is `key`.
pub open spec fn without_key(pairs: Seq<(Seq<char>, Seq<char>)>, key: Seq<char>) -> Seq<(Seq<char>, Seq<char>)>
    decreases pairs.len(),
{
    if pairs.len() == 0 {
        pairs
    } else if pairs[0].0 == key {
        without_key(pairs.drop_first(), key)
    } else {
        seq![pairs[0]] + without_key(pairs.drop_first(), key)
    }
}

/// Whether a key starts with `c`.
pub open spec fn starts_with(k: Seq<char>, c: char) -> bool {
    k.len() > 0 && k[0] == c
}

/// `pairs` without those whose key starts with `c`.
pub open spec fn without_prefix(pairs: Seq<(Seq<char>, Seq<char>)>, c: char) -> Seq<(Seq<char>, Seq<char>)>
    decreases pairs.len(),
{
    if pairs.len() == 0 {
        pairs
    } else if starts_with(pairs[0].0, c) {
        without_prefix(pairs.drop_first(), c)
    } else {
        seq![pairs[0]] + without_prefix(pairs.drop_first(), c)
    }
}

pub open spec fn spec_remove_key(info: Seq<char>, key: Seq<char>) -> Seq<char> {
    render(without_key(info_pairs(info), key))
}

pub open spec fn spec_remove_prefixed_keys(info: Seq<char>, c: char) -> Seq<char> {
    render(without_prefix(info_pairs(info), c))
}

/// What a value keeps of one character: its low seven bits unless the key
/// is `name`, nothing outside the printable range, lower case for `team`.
pub open spec fn sanitize_char(c: char, allow_high: bool, lower_team: bool) -> Option<char> {
    let v = if allow_high { c as u32 } else { (c as u32) & 0x7f };
    if v < 32 || v > 127 {
        None
    } else if lower_team {
        Some(ascii_lower(v as char))
    } else {
        Some(v as char)
    }
}

pub open spec fn sanitize_from(s: Seq<char>, allow_high: bool, lower_team: bool) -> Seq<char>
    decreases s.len(),
{
    if s.len() == 0 {
        Seq::empty()
    } else {
        match sanitize_char(s[0], allow_high, lower_team) {
            Some(c) => seq![c] + sanitize_from(s.drop_first(), allow_high, lower_team),
            None => sanitize_from(s.drop_first(), allow_high, lower_team),
        }
    }
}

/// Every character is printable ASCII (space to DEL).
pub open spec fn printable_ascii(v: Seq<char>) -> bool {
    forall|i: int| 0 <= i < v.len() ==> 32 <= (#[trigger] v[i]) as u32 && (v[i] as u32) <= 127
}

proof fn lemma_sanitize_printable(v: Seq<char>, allow_high: bool, lower_team: bool)
    requires
        printable_ascii(v),
    ensures
        sanitize_from(v, allow_high, lower_team) == if lower_team { v.map_values(|c: char| ascii_lower(c)) } else { v },
    decreases v.len(),
{
    if v.len() > 0 {
        let c = v[0];
        let x = c as u32;
        assert(32 <= x <= 127);
        assert(x & 0x7f == x) by (bit_vector)
            requires
                x <= 127,
        ;
        vstd::utf8::char_u32_cast(c, x);
        let rest = v.drop_first();
        assert forall|i: int| 0 <= i < rest.len() implies 32 <= (#[trigger] rest[i]) as u32 && (rest[i] as u32) <= 127 by {
            assert(rest[i] == v[i + 1]);
        }
        lemma_sanitize_printable(rest, allow_high, lower_team);
        if lower_team {
            assert(seq![ascii_lower(c)] + rest.map_values(|c: char| ascii_lower(c)) =~= v.map_values(|c: char| ascii_lower(c)));
        } else {
            assert(seq![c] + rest =~= v);
        }
    }
}

/// Sanitizing keeps a printable ASCII value as it is, spaces included, for
/// every key but `team`, whose value is lowered instead.
pub proof fn law_sanitize_keeps_printable(key: Seq<char>, value: Seq<char>)
    requires
        printable_ascii(value),
    ensures
        !seq_eq_ignore_ascii_case(key, team_chars()) ==> spec_sanitize(key, value) == value,
        seq_eq_ignore_ascii_case(key, team_chars()) ==> spec_sanitize(key, value) == value.map_values(|c: char| ascii_lower(c)),
        spec_sanitize(key, value).len() == value.len(),
{
    lemma_sanitize_printable(value, seq_eq_ignore_ascii_case(key, name_chars()), seq_eq_ignore_ascii_case(key, team_chars()));
}

pub open spec fn team_chars() -> Seq<char> {
    seq!['t', 'e', 'a', 'm']
}

pub open spec fn name_chars() -> Seq<char> {
    seq!['n', 'a', 'm', 'e']
}

/// The value that is stored for `key`.
pub open spec fn spec_sanitize(key: Seq<char>, value: Seq<char>) -> Seq<char> {
    sanitize_from(value, seq_eq_ignore_ascii_case(key, name_chars()), seq_eq_ignore_ascii_case(key, team_chars()))
}

/// The check of a key and value, on their UTF-8 lengths and characters.
pub open spec fn spec_validate(key: Seq<char>, value: Seq<char>) -> Result<(), InfoError> {
    if key.len() == 0 || utf8_len(key) > 63 {
        Err(InfoError::InvalidKey)
    } else if utf8_len(value) > 63 {
        Err(InfoError::InvalidValue)
    } else if key.contains('\\') || key.contains('"') {
        Err(InfoError::InvalidKey)
    } else if value.contains('\\') || value.contains('"') {
        Err(InfoError::InvalidValue)
    } else {
        Ok(())
    }
}

/// The info string and result after setting `key` to `value` under the
/// limit `maxsize` (in UTF-8 bytes).
///
/// An empty sanitized value removes the key. Otherwise the key is refused
/// when replacing its old value would pass the limit; else the key is
/// removed, and the new pair is appended unless that passes the limit, in
/// which case the key stays removed.
pub open spec fn spec_set_star(info: Seq<char>, key: Seq<char>, value: Seq<char>, maxsize: nat) -> (Seq<char>, Result<(), InfoError>) {
    match spec_validate(key, value) {
        Err(e) => (info, Err(e)),
        Ok(_) => {
            let cleaned = spec_sanitize(key, value);
            if cleaned.len() == 0 {
                (spec_remove_key(info, key), Ok(()))
            } else {
                let current = spec_value_for_key(info, key);
                if current is Some && utf8_len(info) - utf8_len(current->0) + utf8_len(cleaned) > maxsize {
                    (info, Err(InfoError::LengthExceeded))
                } else {
                    let removed = spec_remove_key(info, key);
                    if utf8_len(removed) + utf8_len(key) + utf8_len(cleaned) + 2 > maxsize {
                        (removed, Err(InfoError::LengthExceeded))
                    } else {
                        (removed + render_pair((key, cleaned)), Ok(()))
                    }
                }
            }
        },
    }
}

pub open spec fn spec_set(info: Seq<char>, key: Seq<char>, value: Seq<char>, maxsize: nat) -> (Seq<char>, Result<(), InfoError>) {
    if starts_with(key, '*') {
        (info, Err(InfoError::DisallowedStarKey))
    } else {
        spec_set_star(info, key, value, maxsize)
    }
}

// ---- lemmas on splitting and rendering ----

/// The pieces of a rendered list of pairs, joined without the leading
/// separator.
pub open spec fn body(pairs: Seq<(Seq<char>, Seq<char>)>) -> Seq<char> {
    pairs[0].0 + seq!['\\'] + pairs[0].1 + render(pairs.drop_first())
}

pub open spec fn flat(pairs: Seq<(Seq<char>, Seq<char>)>) -> Seq<Seq<char>>
    decreases pairs.len(),
{
    if pairs.len() == 0 {
        Seq::empty()
    } else {
        seq![pairs[0].0, pairs[0].1] + flat(pairs.drop_first())
    }
}

/// No key or value holds a separator.
pub open spec fn clean_pairs(pairs: Seq<(Seq<char>, Seq<char>)>) -> bool {
    forall|i: int| 0 <= i < pairs.len() ==> !(#[trigger] pairs[i]).0.contains('\\') && !pairs[i].1.contains('\\')
}

pub proof fn lemma_split_body(pairs: Seq<(Seq<char>, Seq<char>)>)
    requires
        pairs.len() > 0,
        clean_pairs(pairs),
    ensures
        split_on(body(pairs), '\\') == flat(pairs),
    decreases pairs.len(),
{
    let p = pairs[0];
    let rest = pairs.drop_first();
    assert(!p.0.contains('\\') && !p.1.contains('\\'));
    lemma_split_cons(p.0, p.1 + render(rest), '\\');
    assert(body(pairs) =~= p.0 + seq!['\\'] + (p.1 + render(rest)));
    if rest.len() == 0 {
        assert(render(rest) =~= Seq::<char>::empty());
        assert(p.1 + render(rest) =~= p.1);
        lemma_split_single(p.1, '\\');
        assert(flat(rest) =~= Seq::<Seq<char>>::empty());
        assert(flat(pairs) =~= seq![p.0, p.1]);
    } else {
        assert forall|i: int| 0 <= i < rest.len() implies !(#[trigger] rest[i]).0.contains('\\') && !rest[i].1.contains('\\') by {
            assert(rest[i] == pairs[i + 1]);
        }
        lemma_split_body(rest);
        assert(p.1 + render(rest) =~= p.1 + seq!['\\'] + body(rest));
        lemma_split_cons(p.1, body(rest), '\\');
        assert(flat(pairs) =~= seq![p.0] + (seq![p.1] + flat(rest)));
    }
    assert(split_on(body(pairs), '\\') =~= flat(pairs));
}

pub proof fn lemma_pairs_of_flat(pairs: Seq<(Seq<char>, Seq<char>)>)
    ensures
        flat(pairs).len() == 2 * pairs.len(),
        pairs_of(flat(pairs)) == pairs,
    decreases pairs.len(),
{
    if pairs.len() > 0 {
        let rest = pairs.drop_first();
        lemma_pairs_of_flat(rest);
        let f = flat(pairs);
        assert forall|i: int| 0 <= i < pairs.len() implies pairs_of(f)[i] == pairs[i] by {
            if i > 0 {
                assert(f[2 * i] == flat(rest)[2 * (i - 1)]);
                assert(f[2 * i + 1] == flat(rest)[2 * (i - 1) + 1]);
                assert(pairs_of(flat(rest))[i - 1] == rest[i - 1]);
            }
        }
        assert(pairs_of(f) =~= pairs);
    } else {
        assert(pairs_of(flat(pairs)) =~= pairs);
    }
}

/// An info string whose keys are all non-empty and hold no separator reads
/// back as the pairs it was written from.
pub proof fn lemma_parse_render(pairs: Seq<(Seq<char>, Seq<char>)>)
    requires
        clean_pairs(pairs),
        forall|i: int| 0 <= i < pairs.len() ==> (#[trigger] pairs[i]).0.len() > 0,
    ensures
        info_pairs(render(pairs)) == pairs,
{
    if pairs.len() == 0 {
        assert(skip_leading(render(pairs), '\\') =~= Seq::<char>::empty());
        lemma_split_single(Seq::<char>::empty(), '\\');
        assert(info_pairs(render(pairs)) =~= pairs);
    } else {
        let r = render(pairs);
        assert(r =~= seq!['\\'] + body(pairs));
        assert(pairs[0].0.len() > 0);
        assert(!pairs[0].0.contains('\\'));
        assert(body(pairs)[0] == pairs[0].0[0]);
        assert(body(pairs)[0] != '\\') by {
            if pairs[0].0[0] == '\\' {
                assert(pairs[0].0.contains('\\'));
            }
        }
        assert(r.drop_first() =~= body(pairs));
        assert(skip_leading(r, '\\') == skip_leading(body(pairs), '\\'));
        assert(skip_leading(body(pairs), '\\') == body(pairs));
        lemma_split_body(pairs);
        lemma_pairs_of_flat(pairs);
    }
}

/// Every piece that splitting yields is free of the separator.
pub proof fn lemma_split_clean(s: Seq<char>, sep: char)
    ensures
        forall|i: int| 0 <= i < split_on(s, sep).len() ==> !(#[trigger] split_on(s, sep)[i]).contains(sep),
    decreases s.len(),
{
    let i = first_index(s, sep);
    lemma_first_index(s, sep);
    if i >= s.len() {
        assert forall|j: int| 0 <= j < split_on(s, sep).len() implies !(#[trigger] split_on(s, sep)[j]).contains(sep) by {
            if s.contains(sep) {
                let k = choose|k: int| 0 <= k < s.len() && s[k] == sep;
                assert(s[k] != sep);
            }
        }
    } else {
        lemma_split_clean(s.skip(i + 1), sep);
        let head = s.take(i);
        assert(!head.contains(sep)) by {
            if head.contains(sep) {
                let k = choose|k: int| 0 <= k < head.len() && head[k] == sep;
                assert(s[k] == sep);
            }
        }
        assert forall|j: int| 0 <= j < split_on(s, sep).len() implies !(#[trigger] split_on(s, sep)[j]).contains(sep) by {
            if j > 0 {
                assert(split_on(s, sep)[j] == split_on(s.skip(i + 1), sep)[j - 1]);
            }
        }
    }
}

/// The pairs of any info string hold no separator.
pub proof fn lemma_info_pairs_clean(info: Seq<char>)
    ensures
        clean_pairs(info_pairs(info)),
{
    let parts = info_parts(info);
    lemma_split_clean(skip_leading(info, '\\'), '\\');
    assert forall|i: int| 0 <= i < info_pairs(info).len() implies !(#[trigger] info_pairs(info)[i]).0.contains('\\') && !info_pairs(info)[i].1.contains('\\') by {
        assert(info_pairs(info)[i] == (parts[2 * i], parts[2 * i + 1]));
    }
}

pub proof fn lemma_without_key(pairs: Seq<(Seq<char>, Seq<char>)>, key: Seq<char>)
    ensures
        forall|i: int| 0 <= i < without_key(pairs, key).len() ==>
            (#[trigger] without_key(pairs, key)[i]).0 != key && pairs.contains(without_key(pairs, key)[i]),
    decreases pairs.len(),
{
    if pairs.len() > 0 {
        let rest = pairs.drop_first();
        lemma_without_key(rest, key);
        let w = without_key(pairs, key);
        let wr = without_key(rest, key);
        assert forall|i: int| 0 <= i < w.len() implies (#[trigger] w[i]).0 != key && pairs.contains(w[i]) by {
            if pairs[0].0 == key {
                assert(w[i] == wr[i]);
                assert(wr[i].0 != key && rest.contains(wr[i]));
                let j = choose|j: int| 0 <= j < rest.len() && rest[j] == wr[i];
                assert(pairs[j + 1] == w[i]);
            } else if i == 0 {
                assert(pairs[0] == w[0]);
            } else {
                assert(w[i] == wr[i - 1]);
                assert(wr[i - 1].0 != key && rest.contains(wr[i - 1]));
                let j = choose|j: int| 0 <= j < rest.len() && rest[j] == wr[i - 1];
                assert(pairs[j + 1] == w[i]);
            }
        }
    }
}

pub proof fn lemma_lookup_absent(pairs: Seq<(Seq<char>, Seq<char>)>, key: Seq<char>)
    requires
        forall|i: int| 0 <= i < pairs.len() ==> (#[trigger] pairs[i]).0 != key,
    ensures
        lookup(pairs, key) is None,
    decreases pairs.len(),
{
    if pairs.len() > 0 {
        assert(pairs[0].0 != key);
        assert forall|i: int| 0 <= i < pairs.drop_first().len() implies (#[trigger] pairs.drop_first()[i]).0 != key by {
            assert(pairs.drop_first()[i] == pairs[i + 1]);
        }
        lemma_lookup_absent(pairs.drop_first(), key);
    }
}

pub proof fn lemma_lookup_last(pairs: Seq<(Seq<char>, Seq<char>)>, key: Seq<char>, v: Seq<char>)
    requires
        forall|i: int| 0 <= i < pairs.len() ==> (#[trigger] pairs[i]).0 != key,
    ensures
        lookup(pairs.push((key, v)), key) == Some(v),
    decreases pairs.len(),
{
    if pairs.len() > 0 {
        assert(pairs.push((key, v))[0] == pairs[0]);
        assert(pairs.push((key, v)).drop_first() =~= pairs.drop_first().push((key, v)));
        assert forall|i: int| 0 <= i < pairs.drop_first().len() implies (#[trigger] pairs.drop_first()[i]).0 != key by {
            assert(pairs.drop_first()[i] == pairs[i + 1]);
        }
        lemma_lookup_last(pairs.drop_first(), key, v);
    }
}

pub proof fn lemma_render_push(pairs: Seq<(Seq<char>, Seq<char>)>, p: (Seq<char>, Seq<char>))
    ensures
        render(pairs.push(p)) == render(pairs) + render_pair(p),
    decreases pairs.len(),
{
    if pairs.len() == 0 {
        assert(pairs.push(p).drop_first() =~= Seq::<(Seq<char>, Seq<char>)>::empty());
        assert(pairs.push(p)[0] == p);
        assert(render(pairs.push(p).drop_first()) =~= Seq::<char>::empty());
        assert(render(pairs.push(p)) =~= render_pair(p));
        assert(render(pairs) + render_pair(p) =~= render_pair(p));
    } else {
        assert(pairs.push(p).drop_first() =~= pairs.drop_first().push(p));
        lemma_render_push(pairs.drop_first(), p);
        assert(render(pairs.push(p)) =~= render(pairs) + render_pair(p));
    }
}

/// Every key of an info string is non-empty.
pub open spec fn keys_nonempty(info: Seq<char>) -> bool {
    forall|i: int| 0 <= i < info_pairs(info).len() ==> (#[trigger] info_pairs(info)[i]).0.len() > 0
}

/// After a key is removed from an info string whose keys are non-empty,
/// the string holds no value for it.
pub proof fn law_remove_then_lookup(info: Seq<char>, key: Seq<char>)
    requires
        keys_nonempty(info),
    ensures
        spec_value_for_key(spec_remove_key(info, key), key) is None,
{
    let pairs = info_pairs(info);
    let w = without_key(pairs, key);
    lemma_info_pairs_clean(info);
    lemma_without_key(pairs, key);
    assert forall|i: int| 0 <= i < w.len() implies !(#[trigger] w[i]).0.contains('\\') && !w[i].1.contains('\\') && w[i].0.len() > 0 by {
        let j = choose|j: int| 0 <= j < pairs.len() && pairs[j] == w[i];
        assert(pairs[j] == w[i]);
    }
    lemma_parse_render(w);
    lemma_lookup_absent(w, key);
}

/// After a successful set of a non-empty value, on an info string whose
/// keys are non-empty, looking the key up gives the value as stored.
pub proof fn law_set_then_lookup(info: Seq<char>, key: Seq<char>, value: Seq<char>, maxsize: nat)
    requires
        keys_nonempty(info),
        spec_set_star(info, key, value, maxsize).1 is Ok,
        spec_sanitize(key, value).len() > 0,
        !spec_sanitize(key, value).contains('\\'),
    ensures
        spec_value_for_key(spec_set_star(info, key, value, maxsize).0, key) == Some(spec_sanitize(key, value)),
{
    let pairs = info_pairs(info);
    let w = without_key(pairs, key);
    let cleaned = spec_sanitize(key, value);
    lemma_info_pairs_clean(info);
    lemma_without_key(pairs, key);
    let all = w.push((key, cleaned));
    assert forall|i: int| 0 <= i < all.len() implies !(#[trigger] all[i]).0.contains('\\') && !all[i].1.contains('\\') && all[i].0.len() > 0 by {
        if i < w.len() {
            let j = choose|j: int| 0 <= j < pairs.len() && pairs[j] == w[i];
            assert(pairs[j] == w[i]);
            assert(all[i] == w[i]);
        } else {
            assert(all[i] == (key, cleaned));
        }
    }
    lemma_render_push(w, (key, cleaned));
    lemma_parse_render(all);
    lemma_lookup_last(w, key, cleaned);
}


proof fn lemma_lookup_without_other(pairs: Seq<(Seq<char>, Seq<char>)>, key: Seq<char>, other: Seq<char>)
    requires
        other != key,
    ensures
        lookup(without_key(pairs, key), other) == lookup(pairs, other),
    decreases pairs.len(),
{
    if pairs.len() > 0 {
        lemma_lookup_without_other(pairs.drop_first(), key, other);
        if pairs[0].0 != key {
            let w = seq![pairs[0]] + without_key(pairs.drop_first(), key);
            assert(w[0] == pairs[0]);
            assert(w.drop_first() =~= without_key(pairs.drop_first(), key));
        }
    }
}

proof fn lemma_lookup_push_other(pairs: Seq<(Seq<char>, Seq<char>)>, p: (Seq<char>, Seq<char>), other: Seq<char>)
    requires
        p.0 != other,
    ensures
        lookup(pairs.push(p), other) == lookup(pairs, other),
    decreases pairs.len(),
{
    if pairs.len() == 0 {
        assert(pairs.push(p).drop_first() =~= pairs);
    } else {
        assert(pairs.push(p)[0] == pairs[0]);
        assert(pairs.push(p).drop_first() =~= pairs.drop_first().push(p));
        lemma_lookup_push_other(pairs.drop_first(), p, other);
    }
}

/// Setting one key leaves every other key's value as it was, whatever the
/// outcome, on an info string whose keys are non-empty (when the stored
/// value holds no separator).
pub proof fn law_set_keeps_other_keys(info: Seq<char>, key: Seq<char>, value: Seq<char>, maxsize: nat, other: Seq<char>)
    requires
        keys_nonempty(info),
        other != key,
        !spec_sanitize(key, value).contains('\\'),
    ensures
        spec_value_for_key(spec_set_star(info, key, value, maxsize).0, other) == spec_value_for_key(info, other),
{
    let pairs = info_pairs(info);
    let w = without_key(pairs, key);
    let cleaned = spec_sanitize(key, value);
    lemma_info_pairs_clean(info);
    lemma_without_key(pairs, key);
    assert forall|i: int| 0 <= i < w.len() implies !(#[trigger] w[i]).0.contains('\\') && !w[i].1.contains('\\') && w[i].0.len() > 0 by {
        let j = choose|j: int| 0 <= j < pairs.len() && pairs[j] == w[i];
        assert(pairs[j] == w[i]);
    }
    lemma_parse_render(w);
    lemma_lookup_without_other(pairs, key, other);
    if spec_validate(key, value) is Ok && cleaned.len() > 0 && key.len() > 0 && !key.contains('\\') {
        let all = w.push((key, cleaned));
        assert forall|i: int| 0 <= i < all.len() implies !(#[trigger] all[i]).0.contains('\\') && !all[i].1.contains('\\') && all[i].0.len() > 0 by {
            if i < w.len() {
                assert(all[i] == w[i]);
            } else {
                assert(all[i] == (key, cleaned));
            }
        }
        lemma_render_push(w, (key, cleaned));
        lemma_parse_render(all);
        lemma_lookup_push_other(w, (key, cleaned), other);
    }
}

/// The number of UTF-8 bytes of a text.
pub open spec fn byte_len(s: Seq<char>) -> int {
    vstd::utf8::encode_utf8(s).len() as int
}

proof fn lemma_encode_concat(a: Seq<char>, b: Seq<char>)
    ensures
        vstd::utf8::encode_utf8(a + b) == vstd::utf8::encode_utf8(a) + vstd::utf8::encode_utf8(b),
    decreases a.len(),
{
    if a.len() == 0 {
        assert(a + b =~= b);
        assert(vstd::utf8::encode_utf8(a) + vstd::utf8::encode_utf8(b) =~= vstd::utf8::encode_utf8(b));
    } else {
        assert((a + b).drop_first() =~= a.drop_first() + b);
        assert((a + b)[0] == a[0]);
        lemma_encode_concat(a.drop_first(), b);
        assert(vstd::utf8::encode_utf8(a + b) =~= vstd::utf8::encode_utf8(a) + vstd::utf8::encode_utf8(b));
    }
}

proof fn lemma_backslash_len()
    ensures
        byte_len(seq!['\\']) == 1,
{
    reveal_with_fuel(vstd::utf8::encode_utf8, 2);
    assert(seq!['\\'].drop_first() =~= Seq::<char>::empty());
}

proof fn lemma_pair_len(p: (Seq<char>, Seq<char>))
    ensures
        byte_len(render_pair(p)) == 2 + byte_len(p.0) + byte_len(p.1),
{
    lemma_backslash_len();
    lemma_encode_concat(seq!['\\'], p.0);
    lemma_encode_concat(seq!['\\'] + p.0, seq!['\\']);
    lemma_encode_concat(seq!['\\'] + p.0 + seq!['\\'], p.1);
}

proof fn lemma_render_without_len(pairs: Seq<(Seq<char>, Seq<char>)>, key: Seq<char>)
    ensures
        byte_len(render(without_key(pairs, key))) <= byte_len(render(pairs)),
    decreases pairs.len(),
{
    if pairs.len() > 0 {
        let rest = pairs.drop_first();
        lemma_render_without_len(rest, key);
        lemma_encode_concat(render_pair(pairs[0]), render(rest));
        if pairs[0].0 != key {
            let w = seq![pairs[0]] + without_key(rest, key);
            assert(w[0] == pairs[0]);
            assert(w.drop_first() =~= without_key(rest, key));
            lemma_encode_concat(render_pair(pairs[0]), render(without_key(rest, key)));
        }
    }
}

/// An info string as the setters leave it: the rendering of its own pairs,
/// with non-empty keys.
pub open spec fn canonical(info: Seq<char>) -> bool {
    info == render(info_pairs(info)) && keys_nonempty(info)
}

proof fn lemma_render_canonical(w: Seq<(Seq<char>, Seq<char>)>)
    requires
        clean_pairs(w),
        forall|i: int| 0 <= i < w.len() ==> (#[trigger] w[i]).0.len() > 0,
    ensures
        canonical(render(w)),
{
    lemma_parse_render(w);
}

proof fn lemma_without_clean(info: Seq<char>, key: Seq<char>)
    requires
        keys_nonempty(info),
    ensures
        clean_pairs(without_key(info_pairs(info), key)),
        forall|i: int| 0 <= i < without_key(info_pairs(info), key).len() ==> (#[trigger] without_key(info_pairs(info), key)[i]).0.len() > 0,
{
    let pairs = info_pairs(info);
    let w = without_key(pairs, key);
    lemma_info_pairs_clean(info);
    lemma_without_key(pairs, key);
    assert forall|i: int| 0 <= i < w.len() implies !(#[trigger] w[i]).0.contains('\\') && !w[i].1.contains('\\') && w[i].0.len() > 0 by {
        let j = choose|j: int| 0 <= j < pairs.len() && pairs[j] == w[i];
        assert(pairs[j] == w[i]);
    }
}

/// An empty info string is in the form the setters leave.
pub proof fn law_empty_info_canonical()
    ensures
        canonical(Seq::<char>::empty()),
        byte_len(Seq::<char>::empty()) == 0,
{
    lemma_split_single(Seq::<char>::empty(), '\\');
    assert(info_pairs(Seq::<char>::empty()) =~= Seq::<(Seq<char>, Seq<char>)>::empty());
}

/// Removing a key keeps an info string in the setters' form and within its
/// size limit.
pub proof fn law_remove_within_limit(info: Seq<char>, key: Seq<char>, maxsize: nat)
    requires
        canonical(info),
        byte_len(info) <= maxsize,
    ensures
        canonical(spec_remove_key(info, key)),
        byte_len(spec_remove_key(info, key)) <= maxsize,
{
    lemma_without_clean(info, key);
    lemma_render_canonical(without_key(info_pairs(info), key));
    lemma_render_without_len(info_pairs(info), key);
}

/// Setting a key keeps an info string in the setters' form and within its
/// size limit, whatever the outcome (for texts whose sizes fit in memory).
pub proof fn law_set_within_limit(info: Seq<char>, key: Seq<char>, value: Seq<char>, maxsize: nat)
    requires
        canonical(info),
        byte_len(info) <= maxsize,
        maxsize <= usize::MAX,
        byte_len(key) < usize::MAX,
        byte_len(spec_sanitize(key, value)) < usize::MAX,
        !spec_sanitize(key, value).contains('\\'),
    ensures
        canonical(spec_set_star(info, key, value, maxsize).0),
        byte_len(spec_set_star(info, key, value, maxsize).0) <= maxsize,
{
    let cleaned = spec_sanitize(key, value);
    let pairs = info_pairs(info);
    let w = without_key(pairs, key);
    law_remove_within_limit(info, key, maxsize);
    if spec_validate(key, value) is Ok && cleaned.len() > 0 && spec_set_star(info, key, value, maxsize).1 is Ok {
        let removed = spec_remove_key(info, key);
        lemma_without_clean(info, key);
        let all = w.push((key, cleaned));
        assert(key.len() > 0 && !key.contains('\\'));
        assert forall|i: int| 0 <= i < all.len() implies !(#[trigger] all[i]).0.contains('\\') && !all[i].1.contains('\\') && all[i].0.len() > 0 by {
            if i < w.len() {
                assert(all[i] == w[i]);
            } else {
                assert(all[i] == (key, cleaned));
            }
        }
        lemma_render_push(w, (key, cleaned));
        lemma_render_canonical(all);
        lemma_encode_concat(removed, render_pair((key, cleaned)));
        lemma_pair_len((key, cleaned));
        assert(utf8_len(removed) == byte_len(removed));
        assert(utf8_len(key) == byte_len(key));
        assert(utf8_len(cleaned) == byte_len(cleaned));
    }
}

/// No two pairs share a key.
pub open spec fn distinct_keys(pairs: Seq<(Seq<char>, Seq<char>)>) -> bool {
    forall|i: int, j: int| 0 <= i < j < pairs.len() ==> (#[trigger] pairs[i]).0 != (#[trigger] pairs[j]).0
}

proof fn lemma_distinct_rest(pairs: Seq<(Seq<char>, Seq<char>)>)
    requires
        distinct_keys(pairs),
        pairs.len() > 0,
    ensures
        distinct_keys(pairs.drop_first()),
        forall|k: int| 0 <= k < pairs.drop_first().len() ==> (#[trigger] pairs.drop_first()[k]).0 != pairs[0].0,
{
    let rest = pairs.drop_first();
    assert forall|i: int, j: int| 0 <= i < j < rest.len() implies (#[trigger] rest[i]).0 != (#[trigger] rest[j]).0 by {
        assert(rest[i] == pairs[i + 1] && rest[j] == pairs[j + 1]);
    }
    assert forall|k: int| 0 <= k < rest.len() implies (#[trigger] rest[k]).0 != pairs[0].0 by {
        assert(rest[k] == pairs[k + 1]);
    }
}

proof fn lemma_without_distinct(pairs: Seq<(Seq<char>, Seq<char>)>, key: Seq<char>)
    requires
        distinct_keys(pairs),
    ensures
        distinct_keys(without_key(pairs, key)),
    decreases pairs.len(),
{
    if pairs.len() > 0 {
        let rest = pairs.drop_first();
        lemma_distinct_rest(pairs);
        lemma_without_distinct(rest, key);
        if pairs[0].0 != key {
            let wr = without_key(rest, key);
            let w = seq![pairs[0]] + wr;
            lemma_without_key(rest, key);
            assert forall|i: int, j: int| 0 <= i < j < w.len() implies (#[trigger] w[i]).0 != (#[trigger] w[j]).0 by {
                assert(w[j] == wr[j - 1]);
                if i == 0 {
                    assert(rest.contains(wr[j - 1]));
                    let k = choose|k: int| 0 <= k < rest.len() && rest[k] == wr[j - 1];
                    assert(rest[k].0 != pairs[0].0);
                } else {
                    assert(w[i] == wr[i - 1]);
                }
            }
        }
    }
}

proof fn lemma_lookup_none(pairs: Seq<(Seq<char>, Seq<char>)>, key: Seq<char>)
    requires
        lookup(pairs, key) is None,
    ensures
        forall|i: int| 0 <= i < pairs.len() ==> (#[trigger] pairs[i]).0 != key,
    decreases pairs.len(),
{
    if pairs.len() > 0 {
        lemma_lookup_none(pairs.drop_first(), key);
        assert forall|i: int| 0 <= i < pairs.len() implies (#[trigger] pairs[i]).0 != key by {
            if i > 0 {
                assert(pairs[i] == pairs.drop_first()[i - 1]);
            }
        }
    }
}

proof fn lemma_without_absent(pairs: Seq<(Seq<char>, Seq<char>)>, key: Seq<char>)
    requires
        forall|i: int| 0 <= i < pairs.len() ==> (#[trigger] pairs[i]).0 != key,
    ensures
        without_key(pairs, key) == pairs,
    decreases pairs.len(),
{
    if pairs.len() > 0 {
        let rest = pairs.drop_first();
        assert forall|i: int| 0 <= i < rest.len() implies (#[trigger] rest[i]).0 != key by {
            assert(rest[i] == pairs[i + 1]);
        }
        lemma_without_absent(rest, key);
        assert(pairs[0].0 != key);
        assert(seq![pairs[0]] + rest =~= pairs);
    }
}

/// Removing a present key takes at least its first pair off the rendering.
proof fn lemma_render_without_present(pairs: Seq<(Seq<char>, Seq<char>)>, key: Seq<char>)
    requires
        lookup(pairs, key) is Some,
    ensures
        byte_len(render(without_key(pairs, key))) + 2 + byte_len(key) + byte_len(lookup(pairs, key)->0)
            <= byte_len(render(pairs)),
    decreases pairs.len(),
{
    let rest = pairs.drop_first();
    lemma_encode_concat(render_pair(pairs[0]), render(rest));
    lemma_pair_len(pairs[0]);
    if pairs[0].0 == key {
        lemma_render_without_len(rest, key);
    } else {
        lemma_render_without_present(rest, key);
        let w = seq![pairs[0]] + without_key(rest, key);
        assert(w[0] == pairs[0]);
        assert(w.drop_first() =~= without_key(rest, key));
        lemma_encode_concat(render_pair(pairs[0]), render(without_key(rest, key)));
    }
}

/// A refused set leaves an info string in the setters' form as it was
/// (for texts whose sizes fit in memory).
pub proof fn law_refused_set_changes_nothing(info: Seq<char>, key: Seq<char>, value: Seq<char>, maxsize: nat)
    requires
        canonical(info),
        byte_len(info) <= usize::MAX,
        byte_len(key) <= usize::MAX,
        byte_len(spec_sanitize(key, value)) <= usize::MAX,
    ensures
        spec_set_star(info, key, value, maxsize).1 is Err ==> spec_set_star(info, key, value, maxsize).0 == info,
        spec_set(info, key, value, maxsize).1 is Err ==> spec_set(info, key, value, maxsize).0 == info,
{
    let cleaned = spec_sanitize(key, value);
    let pairs = info_pairs(info);
    let removed = spec_remove_key(info, key);
    if spec_validate(key, value) is Ok && cleaned.len() > 0 {
        let current = spec_value_for_key(info, key);
        lemma_render_without_len(pairs, key);
        if current is Some {
            lemma_render_without_present(pairs, key);
            assert(byte_len(current->0) <= usize::MAX);
            assert(utf8_len(info) == byte_len(info));
            assert(utf8_len(current->0) == byte_len(current->0));
            assert(utf8_len(removed) == byte_len(removed));
            assert(utf8_len(key) == byte_len(key));
            assert(utf8_len(cleaned) == byte_len(cleaned));
        } else {
            lemma_lookup_none(pairs, key);
            lemma_without_absent(pairs, key);
            assert(removed == info);
        }
    }
}

/// An info string as the setters keep it under `maxsize`: in their form,
/// with no key twice, and within the limit.
pub open spec fn info_ok(info: Seq<char>, maxsize: nat) -> bool {
    canonical(info) && distinct_keys(info_pairs(info)) && byte_len(info) <= maxsize
}

/// An empty info string is in that form under any limit.
pub proof fn law_empty_info_ok(maxsize: nat)
    ensures
        info_ok(Seq::<char>::empty(), maxsize),
{
    law_empty_info_canonical();
}

/// Removing a key keeps an info string in that form.
pub proof fn law_remove_keeps_info_ok(info: Seq<char>, key: Seq<char>, maxsize: nat)
    requires
        info_ok(info, maxsize),
    ensures
        info_ok(spec_remove_key(info, key), maxsize),
{
    law_remove_within_limit(info, key, maxsize);
    lemma_without_clean(info, key);
    lemma_parse_render(without_key(info_pairs(info), key));
    lemma_without_distinct(info_pairs(info), key);
}

/// Setting a key keeps an info string in that form, and a refused set
/// leaves it as it was (when the stored value holds no separator and the
/// sizes fit in memory).
pub proof fn law_set_keeps_info_ok(info: Seq<char>, key: Seq<char>, value: Seq<char>, maxsize: nat)
    requires
        info_ok(info, maxsize),
        maxsize <= usize::MAX,
        byte_len(key) < usize::MAX,
        byte_len(spec_sanitize(key, value)) < usize::MAX,
        !spec_sanitize(key, value).contains('\\'),
    ensures
        info_ok(spec_set_star(info, key, value, maxsize).0, maxsize),
        spec_set_star(info, key, value, maxsize).1 is Err ==> spec_set_star(info, key, value, maxsize).0 == info,
        info_ok(spec_set(info, key, value, maxsize).0, maxsize),
        spec_set(info, key, value, maxsize).1 is Err ==> spec_set(info, key, value, maxsize).0 == info,
{
    let cleaned = spec_sanitize(key, value);
    let pairs = info_pairs(info);
    let w = without_key(pairs, key);
    law_set_within_limit(info, key, value, maxsize);
    law_remove_keeps_info_ok(info, key, maxsize);
    law_refused_set_changes_nothing(info, key, value, maxsize);
    lemma_without_distinct(pairs, key);
    if spec_validate(key, value) is Ok && cleaned.len() > 0 {
        if spec_set_star(info, key, value, maxsize).1 is Ok {
            let all = w.push((key, cleaned));
            lemma_without_clean(info, key);
            lemma_without_key(pairs, key);
            assert(key.len() > 0 && !key.contains('\\'));
            assert forall|i: int| 0 <= i < all.len() implies !(#[trigger] all[i]).0.contains('\\') && !all[i].1.contains('\\') && all[i].0.len() > 0 by {
                if i < w.len() {
                    assert(all[i] == w[i]);
                } else {
                    assert(all[i] == (key, cleaned));
                }
            }
            assert forall|i: int, j: int| 0 <= i < j < all.len() implies (#[trigger] all[i]).0 != (#[trigger] all[j]).0 by {
                assert(all[i] == w[i]);
                if j < w.len() {
                    assert(all[j] == w[j]);
                } else {
                    assert(all[j] == (key, cleaned));
                }
            }
            lemma_render_push(w, (key, cleaned));
            lemma_parse_render(all);
        }
    }
}

/// One call on an info string.
pub enum InfoCall {
    SetValue { key: Seq<char>, value: Seq<char> },
    SetStarValue { key: Seq<char>, value: Seq<char> },
    RemoveKey { key: Seq<char> },
}

/// The info string after one call.
pub open spec fn spec_apply(info: Seq<char>, call: InfoCall, maxsize: nat) -> Seq<char> {
    match call {
        InfoCall::SetValue { key, value } => spec_set(info, key, value, maxsize).0,
        InfoCall::SetStarValue { key, value } => spec_set_star(info, key, value, maxsize).0,
        InfoCall::RemoveKey { key } => spec_remove_key(info, key),
    }
}

/// The info string after `calls`, in order.
pub open spec fn spec_apply_all(info: Seq<char>, calls: Seq<InfoCall>, maxsize: nat) -> Seq<char>
    decreases calls.len(),
{
    if calls.len() == 0 {
        info
    } else {
        spec_apply_all(spec_apply(info, calls[0], maxsize), calls.drop_first(), maxsize)
    }
}

/// A call whose stored value holds no separator and whose sizes fit in
/// memory (every call with ASCII values is one).
pub open spec fn call_fits(call: InfoCall) -> bool {
    match call {
        InfoCall::SetValue { key, value } | InfoCall::SetStarValue { key, value } => {
            &&& byte_len(key) < usize::MAX
            &&& byte_len(spec_sanitize(key, value)) < usize::MAX
            &&& !spec_sanitize(key, value).contains('\\')
        },
        InfoCall::RemoveKey { .. } => true,
    }
}

/// Every info string that a run of sets and removals reaches from one in
/// the setters' form (the empty string among them) is in that form too: its
/// keys distinct and its size within the limit.
pub proof fn law_calls_keep_info_ok(info: Seq<char>, calls: Seq<InfoCall>, maxsize: nat)
    requires
        info_ok(info, maxsize),
        maxsize <= usize::MAX,
        forall|i: int| 0 <= i < calls.len() ==> call_fits(#[trigger] calls[i]),
    ensures
        info_ok(spec_apply_all(info, calls, maxsize), maxsize),
    decreases calls.len(),
{
    if calls.len() > 0 {
        assert(call_fits(calls[0]));
        match calls[0] {
            InfoCall::SetValue { key, value } => law_set_keeps_info_ok(info, key, value, maxsize),
            InfoCall::SetStarValue { key, value } => law_set_keeps_info_ok(info, key, value, maxsize),
            InfoCall::RemoveKey { key } => law_remove_keeps_info_ok(info, key, maxsize),
        }
        assert forall|i: int| 0 <= i < calls.drop_first().len() implies call_fits(#[trigger] calls.drop_first()[i]) by {
            assert(calls.drop_first()[i] == calls[i + 1]);
        }
        law_calls_keep_info_ok(spec_apply(info, calls[0], maxsize), calls.drop_first(), maxsize);
    }
}

// ---- executable side ----

/// Index of the first character of `s` that is not `c`.
fn skip_leading_index(s: &[char], c: char) -> (i: usize)
    ensures
        i <= s@.len(),
        s@.skip(i as int) == skip_leading(s@, c),
{
    let mut i: usize = 0;
    assert(s@.skip(0) =~= s@);
    while i < s.len() && s[i] == c
        invariant
            i <= s@.len(),
            skip_leading(s@.skip(i as int), c) == skip_leading(s@, c),
        decreases s@.len() - i,
    {
        assert(s@.skip(i as int).drop_first() =~= s@.skip(i + 1));
        i = i + 1;
    }
    i
}

/// The pieces of an info string: pieces `2i` and `2i + 1` are the key and
/// the value of its `i`-th entry.
fn parse_entries(info: &[char]) -> (parts: Vec<Vec<char>>)
    ensures
        views(parts@) == info_parts(info@),
{
    let start = skip_leading_index(info, '\\');
    split_chars(info, start, '\\')
}

pub fn value_for_key(info: &str, key: &str) -> (r: Option<String>)
    ensures
        match r {
            Some(v) => spec_value_for_key(info@, key@) == Some(v@),
            None => spec_value_for_key(info@, key@) is None,
        },
{
    let key_chars = chars_of(key);
    if key_chars.len() == 0 {
        return None;
    }
    let info_chars = chars_of(info);
    let parts = parse_entries(&info_chars);
    let ghost pairs = info_pairs(info@);
    let n = parts.len() / 2;
    let mut i: usize = 0;
    assert(pairs.skip(0) =~= pairs);
    while i < n
        invariant
            n == parts.len() / 2,
            i <= n,
            views(parts@) == info_parts(info@),
            pairs == pairs_of(views(parts@)),
            lookup(pairs.skip(i as int), key@) == lookup(pairs, key@),
            key_chars@ == key@,
            key@.len() > 0,
            pairs == info_pairs(info@),
        decreases n - i,
    {
        assert(pairs.skip(i as int)[0] == pairs[i as int]);
        assert(pairs.skip(i as int).drop_first() =~= pairs.skip(i + 1));
        assert(pairs[i as int] == (parts@[2 * i as int]@, parts@[2 * i + 1]@));
        if chars_eq(&parts[2 * i], &key_chars) {
            assert(pairs.skip(i as int)[0].0 == key@);
            assert(lookup(pairs.skip(i as int), key@) == Some(pairs[i as int].1));
            let r = string_of(&parts[2 * i + 1]);
            assert(r@ == pairs[i as int].1);
            return Some(r);
        }
        i = i + 1;
    }
    assert(pairs.skip(n as int).len() == 0);
    None
}

/// The rendering of the pairs from `i` on that `keep` keeps.
fn render_kept(parts: &Vec<Vec<char>>, key: &[char], prefix: Option<char>) -> (out: Vec<char>)
    ensures
        out@ == match prefix {
            Some(c) => render(without_prefix(pairs_of(views(parts@)), c)),
            None => render(without_key(pairs_of(views(parts@)), key@)),
        },
{
    let ghost pairs = pairs_of(views(parts@));
    let ghost kept = match prefix {
        Some(c) => without_prefix(pairs, c),
        None => without_key(pairs, key@),
    };
    let n = parts.len() / 2;
    let mut out: Vec<char> = Vec::new();
    let mut i: usize = 0;
    assert(pairs.skip(0) =~= pairs);
    while i < n
        invariant
            n == parts.len() / 2,
            i <= n,
            pairs == pairs_of(views(parts@)),
            kept == match prefix {
                Some(c) => without_prefix(pairs, c),
                None => without_key(pairs, key@),
            },
            out@ + render(match prefix {
                Some(c) => without_prefix(pairs.skip(i as int), c),
                None => without_key(pairs.skip(i as int), key@),
            }) == render(kept),
        decreases n - i,
    {
        let ghost tail = pairs.skip(i as int);
        assert(tail[0] == pairs[i as int]);
        assert(tail.drop_first() =~= pairs.skip(i + 1));
        assert(pairs[i as int] == (parts@[2 * i as int]@, parts@[2 * i + 1]@));
        let k = &parts[2 * i];
        let drop = match prefix {
            Some(c) => k.len() > 0 && k[0] == c,
            None => chars_eq(k, key),
        };
        if !drop {
            let ghost before = out@;
            out.push('\\');
            push_chars(&mut out, k);
            out.push('\\');
            push_chars(&mut out, &parts[2 * i + 1]);
            proof {
                assert(out@ =~= before + render_pair(tail[0]));
                let rest = match prefix {
                    Some(c) => without_prefix(pairs.skip(i + 1), c),
                    None => without_key(pairs.skip(i + 1), key@),
                };
                let whole = seq![tail[0]] + rest;
                assert(whole[0] == tail[0]);
                assert(whole.drop_first() =~= rest);
                assert(render(whole) == render_pair(tail[0]) + render(rest));
            }
        }
        i = i + 1;
    }
    assert(pairs.skip(n as int).len() == 0);
    out
}

pub fn remove_key(info: &mut String, key: &str)
    ensures
        final(info)@ == spec_remove_key(old(info)@, key@),
{
    let key_chars = chars_of(key);
    let info_chars = chars_of(info.as_str());
    let parts = parse_entries(&info_chars);
    let out = render_kept(&parts, &key_chars, None);
    *info = string_of(&out);
}

pub fn remove_prefixed_keys(info: &mut String, prefix: char)
    ensures
        final(info)@ == spec_remove_prefixed_keys(old(info)@, prefix),
{
    let info_chars = chars_of(info.as_str());
    let parts = parse_entries(&info_chars);
    let empty: Vec<char> = Vec::new();
    let out = render_kept(&parts, &empty, Some(prefix));
    *info = string_of(&out);
}

fn validate_key_value(key: &str, value: &str) -> (r: Result<(), InfoError>)
    ensures
        r == spec_validate(key@, value@),
{
    let k = chars_of(key);
    let v = chars_of(value);
    if k.len() == 0 || str_utf8_len(key) > 63 {
        return Err(InfoError::InvalidKey);
    }
    if str_utf8_len(value) > 63 {
        return Err(InfoError::InvalidValue);
    }
    if contains_char(&k, '\\') || contains_char(&k, '"') {
        return Err(InfoError::InvalidKey);
    }
    if contains_char(&v, '\\') || contains_char(&v, '"') {
        return Err(InfoError::InvalidValue);
    }
    Ok(())
}

fn sanitize_value(key: &str, value: &str) -> (out: String)
    ensures
        out@ == spec_sanitize(key@, value@),
{
    let k = chars_of(key);
    let team = vec!['t', 'e', 'a', 'm'];
    let name = vec!['n', 'a', 'm', 'e'];
    let lower_team = eq_ignore_ascii_case(&k, &team);
    let allow_high = eq_ignore_ascii_case(&k, &name);
    proof {
        assert(team@ =~= team_chars());
        assert(name@ =~= name_chars());
    }
    let v = chars_of(value);
    let mut out: Vec<char> = Vec::new();
    let mut i: usize = 0;
    assert(v@.skip(0) =~= v@);
    while i < v.len()
        invariant
            i <= v@.len(),
            out@ + sanitize_from(v@.skip(i as int), allow_high, lower_team) == sanitize_from(v@, allow_high, lower_team),
        decreases v@.len() - i,
    {
        let ghost tail = v@.skip(i as int);
        assert(tail[0] == v@[i as int]);
        assert(tail.drop_first() =~= v@.skip(i + 1));
        let ch = v[i];
        let mut c: u32 = ch as u32;
        if !allow_high {
            c = c & 0x7f;
        }
        if !(c < 32 || c > 127) {
            let byte = c as u8;
            let mut out_c: char = byte as char;
            assert(out_c == c as char);
            if lower_team {
                out_c = ascii_lower_exec(out_c);
            }
            out.push(out_c);
        }
        proof {
            assert(out@ + sanitize_from(v@.skip(i + 1), allow_high, lower_team) =~= sanitize_from(v@, allow_high, lower_team));
        }
        i = i + 1;
    }
    assert(v@.skip(v@.len() as int) =~= Seq::<char>::empty());
    assert(out@ =~= sanitize_from(v@, allow_high, lower_team));
    string_of(&out)
}

pub fn set_value_for_key(info: &mut String, key: &str, value: &str, maxsize: usize) -> (r: Result<(), InfoError>)
    ensures
        (final(info)@, r) == spec_set(old(info)@, key@, value@, maxsize as nat),
{
    let k = chars_of(key);
    if k.len() > 0 && k[0] == '*' {
        return Err(InfoError::DisallowedStarKey);
    }
    set_value_for_star_key(info, key, value, maxsize)
}

pub fn set_value_for_star_key(info: &mut String, key: &str, value: &str, maxsize: usize) -> (r: Result<(), InfoError>)
    ensures
        (final(info)@, r) == spec_set_star(old(info)@, key@, value@, maxsize as nat),
{
    validate_key_value(key, value)?;
    let cleaned = sanitize_value(key, value);
    let cleaned_chars = chars_of(cleaned.as_str());
    if cleaned_chars.len() == 0 {
        remove_key(info, key);
        return Ok(());
    }
    let current_value = value_for_key(info.as_str(), key);
    if let Some(existing) = current_value {
        let info_len = str_utf8_len(info.as_str()) as i128;
        let existing_len = str_utf8_len(existing.as_str()) as i128;
        let cleaned_len = str_utf8_len(cleaned.as_str()) as i128;
        if info_len - existing_len + cleaned_len > maxsize as i128 {
            return Err(InfoError::LengthExceeded);
        }
    }
    remove_key(info, key);
    let info_len = str_utf8_len(info.as_str()) as u128;
    let key_len = str_utf8_len(key) as u128;
    let cleaned_len = str_utf8_len(cleaned.as_str()) as u128;
    if info_len + key_len + cleaned_len + 2 > maxsize as u128 {
        return Err(InfoError::LengthExceeded);
    }
    let k = chars_of(key);
    let mut out = chars_of(info.as_str());
    out.push('\\');
    push_chars(&mut out, &k);
    out.push('\\');
    push_chars(&mut out, &cleaned_chars);
    *info = string_of(&out);
    Ok(())
}


/// An info string with its size limit in bytes.
#[derive(Debug, Clone)]
pub struct InfoString {
    value: String,
    maxsize: usize,
}

/// The text that a raw string leaves under a byte limit: all of it when it
/// fits, else the characters whose encoding is the first `maxsize` bytes.
pub open spec fn truncated(raw: Seq<char>, out: Seq<char>, maxsize: nat) -> bool {
    if vstd::utf8::encode_utf8(raw).len() <= maxsize {
        out == raw
    } else {
        vstd::utf8::encode_utf8(out) == vstd::utf8::encode_utf8(raw).take(maxsize as int)
    }
}

/// Whether cutting `raw` at `maxsize` bytes falls between characters.
pub open spec fn cuts_cleanly(raw: Seq<char>, maxsize: nat) -> bool {
    maxsize >= vstd::utf8::encode_utf8(raw).len() || vstd::utf8::is_char_boundary(vstd::utf8::encode_utf8(raw), maxsize as int)
}

impl InfoString {
    pub closed spec fn text(&self) -> Seq<char> {
        self.value@
    }

    pub closed spec fn limit(&self) -> nat {
        self.maxsize as nat
    }

    pub fn new(maxsize: usize) -> (r: Self)
        ensures
            r.text() == Seq::<char>::empty(),
            r.limit() == maxsize,
            info_ok(r.text(), r.limit()),
    {
        proof {
            law_empty_info_ok(maxsize as nat);
        }
        InfoString { value: String::new(), maxsize }
    }

    /// Takes `raw` as it is, cut to the size limit.
    pub fn from_raw(raw: &str, maxsize: usize) -> (r: Self)
        requires
            cuts_cleanly(raw@, maxsize as nat),
        ensures
            truncated(raw@, r.text(), maxsize as nat),
            r.limit() == maxsize,
    {
        let mut value = string_of(&chars_of(raw));
        if str_utf8_len(value.as_str()) > maxsize {
            string_truncate(&mut value, maxsize);
        }
        InfoString { value, maxsize }
    }

    pub fn as_str(&self) -> (r: &str)
        ensures
            r@ == self.text(),
    {
        self.value.as_str()
    }

    pub fn set(&mut self, key: &str, value: &str) -> (r: Result<(), InfoError>)
        ensures
            (final(self).text(), r) == spec_set(old(self).text(), key@, value@, old(self).limit()),
            final(self).limit() == old(self).limit(),
            info_ok(old(self).text(), old(self).limit()) && call_fits((InfoCall::SetValue { key: key@, value: value@ }))
                ==> info_ok(final(self).text(), final(self).limit()) && (r is Err ==> final(self).text() == old(self).text()),
    {
        proof {
            if info_ok(self.text(), self.limit()) && call_fits(InfoCall::SetValue { key: key@, value: value@ }) {
                law_set_keeps_info_ok(self.text(), key@, value@, self.limit());
            }
        }
        set_value_for_key(&mut self.value, key, value, self.maxsize)
    }

    pub fn set_star(&mut self, key: &str, value: &str) -> (r: Result<(), InfoError>)
        ensures
            (final(self).text(), r) == spec_set_star(old(self).text(), key@, value@, old(self).limit()),
            final(self).limit() == old(self).limit(),
            info_ok(old(self).text(), old(self).limit()) && call_fits((InfoCall::SetStarValue { key: key@, value: value@ }))
                ==> info_ok(final(self).text(), final(self).limit()) && (r is Err ==> final(self).text() == old(self).text()),
    {
        proof {
            if info_ok(self.text(), self.limit()) && call_fits(InfoCall::SetStarValue { key: key@, value: value@ }) {
                law_set_keeps_info_ok(self.text(), key@, value@, self.limit());
            }
        }
        set_value_for_star_key(&mut self.value, key, value, self.maxsize)
    }

    pub fn remove(&mut self, key: &str)
        ensures
            final(self).text() == spec_remove_key(old(self).text(), key@),
            final(self).limit() == old(self).limit(),
            info_ok(old(self).text(), old(self).limit()) ==> info_ok(final(self).text(), final(self).limit()),
    {
        proof {
            if info_ok(self.text(), self.limit()) {
                law_remove_keeps_info_ok(self.text(), key@, self.limit());
            }
        }
        remove_key(&mut self.value, key);
    }

    /// Replaces the whole string, cut to the size limit.
    pub fn set_raw(&mut self, raw: &str)
        requires
            cuts_cleanly(raw@, old(self).limit()),
        ensures
            truncated(raw@, final(self).text(), old(self).limit()),
            final(self).limit() == old(self).limit(),
    {
        let mut value = string_of(&chars_of(raw));
        if str_utf8_len(value.as_str()) > self.maxsize {
            string_truncate(&mut value, self.maxsize);
        }
        self.value = value;
    }
}

} // verus!

//! The client's user settings: its default userinfo, and the console
//! commands that change userinfo keys.
use vstd::prelude::*;
use crate::decimal::{decimal, spec_trim, trim, push_decimal};
use crate::info::{InfoError, InfoString, spec_set, spec_set_star};
use crate::protocol::{MAX_INFO_STRING, PROTOCOL_VERSION};
use crate::text::{chars_of, chars_eq, contains_char, first_index, lemma_first_index, push_chars, string_of};

verus! {

/// The version tag a client announces in its userinfo: `rq` and the
/// protocol version.
pub open spec fn version_tag() -> Seq<char> {
    "rq"@ + decimal(PROTOCOL_VERSION as nat)
}

/// The userinfo a client starts with.
pub open spec fn default_userinfo() -> Seq<char> {
    let limit = MAX_INFO_STRING as nat;
    let s1 = spec_set(Seq::empty(), "name"@, "unnamed"@, limit).0;
    let s2 = spec_set(s1, "topcolor"@, "0"@, limit).0;
    let s3 = spec_set(s2, "bottomcolor"@, "0"@, limit).0;
    let s4 = spec_set(s3, "rate"@, "2500"@, limit).0;
    let s5 = spec_set(s4, "msg"@, "1"@, limit).0;
    spec_set_star(s5, "*ver"@, version_tag(), limit).0
}

pub struct ClientConfig {
    pub userinfo: InfoString,
}

impl ClientConfig {
    /// The default settings: name, colors, rate, message level and the
    /// version tag.
    pub fn default() -> (r: Self)
        ensures
            r.userinfo.text() == default_userinfo(),
            r.userinfo.limit() == MAX_INFO_STRING,
    {
        let mut info = InfoString::new(MAX_INFO_STRING);
        let _ = info.set("name", "unnamed");
        let _ = info.set("topcolor", "0");
        let _ = info.set("bottomcolor", "0");
        let _ = info.set("rate", "2500");
        let _ = info.set("msg", "1");
        let mut tag = chars_of("rq");
        push_decimal(&mut tag, PROTOCOL_VERSION as u64);
        let tag = string_of(tag.as_slice());
        let _ = info.set_star("*ver", tag.as_str());
        ClientConfig { userinfo: info }
    }
}

/// `s` cut at its first `c`: the text before it and the text after it, or
/// all of `s` and nothing.
pub open spec fn split_once(s: Seq<char>, c: char) -> (Seq<char>, Seq<char>) {
    let i = first_index(s, c);
    if i < s.len() {
        (s.take(i), s.skip(i + 1))
    } else {
        (s, Seq::empty())
    }
}

/// A value as a command argument: in quotes when it holds a space.
pub open spec fn quoted(value: Seq<char>) -> Seq<char> {
    if value.contains(' ') {
        seq!['"'] + value + seq!['"']
    } else {
        value
    }
}

/// The console commands that set a userinfo key of the same name.
pub open spec fn is_userinfo_key_command(command: Seq<char>) -> bool {
    command == "name"@ || command == "skin"@ || command == "team"@ || command == "topcolor"@
        || command == "bottomcolor"@ || command == "rate"@ || command == "msg"@
}

/// The key and value that a console line sets, if it sets one, and
/// whether it goes in as a `*` key.
///
/// The line is a command and the rest after its first space, both
/// trimmed. A key command sets its own key to the rest; `setinfo` sets
/// the key and value that the rest holds the same way, a key starting
/// with `*` included. A line with no value sets nothing.
pub open spec fn userinfo_assignment(input: Seq<char>) -> Option<(Seq<char>, Seq<char>, bool)> {
    let command = spec_trim(split_once(input, ' ').0);
    let rest = spec_trim(split_once(input, ' ').1);
    if rest.len() == 0 {
        None
    } else if is_userinfo_key_command(command) {
        Some((command, rest, false))
    } else if command == "setinfo"@ {
        let key = spec_trim(split_once(rest, ' ').0);
        let value = spec_trim(split_once(rest, ' ').1);
        if key.len() == 0 || value.len() == 0 {
            None
        } else {
            Some((key, value, key[0] == '*'))
        }
    } else {
        None
    }
}

/// The userinfo and the result after a console line: the key is set as
/// `InfoString::set` (or `set_star` for a `*` key under `setinfo`) does,
/// and the command to forward is `setinfo <key> <value>`.
pub open spec fn spec_userinfo_command(input: Seq<char>, info: Seq<char>, limit: nat) -> (Seq<char>, Result<Option<Seq<char>>, InfoError>) {
    match userinfo_assignment(input) {
        None => (info, Ok(None)),
        Some((key, value, star)) => {
            let (next, r) = if star {
                spec_set_star(info, key, value, limit)
            } else {
                spec_set(info, key, value, limit)
            };
            match r {
                Err(e) => (next, Err(e)),
                Ok(_) => (next, Ok(Some("setinfo "@ + key + seq![' '] + quoted(value)))),
            }
        },
    }
}

/// `s` cut at its first `c`.
fn split_once_exec(s: &[char], c: char) -> (r: (Vec<char>, Vec<char>))
    ensures
        r.0@ == split_once(s@, c).0,
        r.1@ == split_once(s@, c).1,
{
    proof {
        lemma_first_index(s@, c);
    }
    let mut i: usize = 0;
    while i < s.len() && s[i] != c
        invariant
            i <= s@.len(),
            forall|j: int| 0 <= j < i ==> s@[j] != c,
            first_index(s@, c) <= s@.len(),
            first_index(s@, c) < s@.len() ==> s@[first_index(s@, c)] == c,
            forall|j: int| 0 <= j < first_index(s@, c) ==> s@[j] != c,
        decreases s@.len() - i,
    {
        i = i + 1;
    }
    assert(i == first_index(s@, c));
    let mut head: Vec<char> = Vec::new();
    let mut j: usize = 0;
    while j < i
        invariant
            j <= i <= s@.len(),
            head@ == s@.take(j as int),
        decreases i - j,
    {
        head.push(s[j]);
        assert(head@ =~= s@.take(j + 1));
        j = j + 1;
    }
    let mut tail: Vec<char> = Vec::new();
    if i < s.len() {
        let mut k: usize = i + 1;
        while k < s.len()
            invariant
                i < k <= s@.len(),
                tail@ == s@.subrange(i + 1, k as int),
            decreases s@.len() - k,
        {
            tail.push(s[k]);
            assert(tail@ =~= s@.subrange(i + 1, k + 1));
            k = k + 1;
        }
        assert(tail@ =~= s@.skip(i + 1));
    } else {
        assert(head@ =~= s@);
    }
    (head, tail)
}

/// Whether `s` is one of the key commands.
fn is_key_command(s: &[char]) -> (r: bool)
    ensures
        r == is_userinfo_key_command(s@),
{
    chars_eq(s, chars_of("name").as_slice()) || chars_eq(s, chars_of("skin").as_slice())
        || chars_eq(s, chars_of("team").as_slice()) || chars_eq(s, chars_of("topcolor").as_slice())
        || chars_eq(s, chars_of("bottomcolor").as_slice()) || chars_eq(s, chars_of("rate").as_slice())
        || chars_eq(s, chars_of("msg").as_slice())
}

/// A value in quotes when it holds a space.
pub fn quote_if_needed(value: &str) -> (r: String)
    ensures
        r@ == quoted(value@),
{
    let chars = chars_of(value);
    if contains_char(chars.as_slice(), ' ') {
        let mut out: Vec<char> = Vec::new();
        out.push('"');
        push_chars(&mut out, chars.as_slice());
        out.push('"');
        assert(out@ =~= quoted(value@));
        string_of(out.as_slice())
    } else {
        value.to_owned()
    }
}

/// Applies a console line that sets a userinfo key, and gives the
/// `setinfo` command to forward to the server; `None` when the line sets
/// no key.
pub fn maybe_userinfo_command(input: &str, userinfo: &mut InfoString) -> (r: Result<Option<String>, InfoError>)
    ensures
        final(userinfo).limit() == old(userinfo).limit(),
        final(userinfo).text() == spec_userinfo_command(input@, old(userinfo).text(), old(userinfo).limit()).0,
        match spec_userinfo_command(input@, old(userinfo).text(), old(userinfo).limit()).1 {
            Ok(Some(cmd)) => r matches Ok(Some(s)) && s@ == cmd,
            Ok(None) => r matches Ok(None),
            Err(e) => r == Err::<Option<String>, InfoError>(e),
        },
{
    let chars = chars_of(input);
    let (head, tail) = split_once_exec(chars.as_slice(), ' ');
    let command = trim(head.as_slice());
    let rest = trim(tail.as_slice());
    if rest.len() == 0 {
        return Ok(None);
    }
    let (key, value, star) = if is_key_command(command.as_slice()) {
        (command, rest, false)
    } else if chars_eq(command.as_slice(), chars_of("setinfo").as_slice()) {
        let (k, v) = split_once_exec(rest.as_slice(), ' ');
        let key = trim(k.as_slice());
        let value = trim(v.as_slice());
        if key.len() == 0 || value.len() == 0 {
            return Ok(None);
        }
        let star = key[0] == '*';
        (key, value, star)
    } else {
        return Ok(None);
    };
    let key_s = string_of(key.as_slice());
    let value_s = string_of(value.as_slice());
    let set = if star {
        userinfo.set_star(key_s.as_str(), value_s.as_str())
    } else {
        userinfo.set(key_s.as_str(), value_s.as_str())
    };
    match set {
        Err(e) => Err(e),
        Ok(()) => {
            let mut out = chars_of("setinfo ");
            push_chars(&mut out, key.as_slice());
            out.push(' ');
            let q = quote_if_needed(value_s.as_str());
            let qc = chars_of(q.as_str());
            push_chars(&mut out, qc.as_slice());
            assert(out@ =~= "setinfo "@ + key@ + seq![' '] + quoted(value@));
            Ok(Some(string_of(out.as_slice())))
        },
    }
}

} // verus!

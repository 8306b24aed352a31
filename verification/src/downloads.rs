//! Which files the client asks the server for while signing on: the sounds
//! and models of the lists and the players' skins that the game directories
//! lack, taken one at a time.
use vstd::prelude::*;
use crate::com_path::strip_extension;
use crate::decimal::{spec_trim, trim};
use crate::info::{spec_value_for_key, value_for_key};
use crate::state::PlayerInfo;
use crate::text::{chars_of, first_index, push_chars, string_of};
use crate::vfs::{is_safe_relative, is_safe_relative_path};

verus! {

/// The file of each named sound, in list order; empty names are skipped.
pub open spec fn sound_paths(sounds: Seq<Seq<char>>) -> Seq<Seq<char>>
    decreases sounds.len(),
{
    if sounds.len() == 0 {
        Seq::empty()
    } else {
        sound_paths(sounds.drop_last()) + if sounds.last().len() > 0 {
            seq!["sound/"@ + sounds.last()]
        } else {
            Seq::empty()
        }
    }
}

/// The model files of the list, in order; empty names and brush models
/// (`*n`) are skipped.
pub open spec fn model_paths(models: Seq<Seq<char>>) -> Seq<Seq<char>>
    decreases models.len(),
{
    if models.len() == 0 {
        Seq::empty()
    } else {
        model_paths(models.drop_last()) + if models.last().len() > 0 && models.last()[0] != '*' {
            seq![models.last()]
        } else {
            Seq::empty()
        }
    }
}

/// The skin picture that a player's user info names: `skins/<base>.pcx`,
/// where the base is the trimmed `skin` value up to its first dot; none
/// where that is empty.
pub open spec fn skin_path(userinfo: Seq<char>) -> Option<Seq<char>> {
    match spec_value_for_key(userinfo, "skin"@) {
        None => None,
        Some(v) => {
            let t = spec_trim(v);
            let base = t.take(first_index(t, '.'));
            if t.len() == 0 || base.len() == 0 {
                None
            } else {
                Some("skins/"@ + base + ".pcx"@)
            }
        },
    }
}

pub open spec fn skin_paths(infos: Seq<Seq<char>>) -> Seq<Seq<char>>
    decreases infos.len(),
{
    if infos.len() == 0 {
        Seq::empty()
    } else {
        skin_paths(infos.drop_last()) + match skin_path(infos.last()) {
            Some(p) => seq![p],
            None => Seq::empty(),
        }
    }
}

pub open spec fn string_seqs(v: Seq<String>) -> Seq<Seq<char>> {
    Seq::new(v.len(), |i: int| v[i]@)
}

pub open spec fn player_infos(v: Seq<PlayerInfo>) -> Seq<Seq<char>> {
    Seq::new(v.len(), |i: int| v[i].userinfo.text())
}

fn prefixed(prefix: &str, name: &[char], suffix: &str) -> (r: String)
    ensures
        r@ == prefix@ + name@ + suffix@,
{
    let mut out = chars_of(prefix);
    push_chars(&mut out, name);
    let tail = chars_of(suffix);
    push_chars(&mut out, tail.as_slice());
    string_of(out.as_slice())
}

/// The sound files to look for.
pub fn sound_download_candidates(sounds: &[String]) -> (r: Vec<String>)
    ensures
        string_seqs(r@) == sound_paths(string_seqs(sounds@)),
{
    let ghost sv = string_seqs(sounds@);
    let mut out: Vec<String> = Vec::new();
    let mut i: usize = 0;
    assert(sv.take(0) =~= Seq::<Seq<char>>::empty());
    while i < sounds.len()
        invariant
            sv == string_seqs(sounds@),
            i <= sounds@.len(),
            string_seqs(out@) == sound_paths(sv.take(i as int)),
        decreases sounds@.len() - i,
    {
        let name = chars_of(sounds[i].as_str());
        let ghost before = string_seqs(out@);
        if name.len() > 0 {
            let p = prefixed("sound/", name.as_slice(), "");
            proof {
                reveal_strlit("");
                assert(p@ =~= "sound/"@ + sv[i as int]);
            }
            out.push(p);
        }
        proof {
            assert(sv.take(i + 1).drop_last() =~= sv.take(i as int));
            assert(string_seqs(out@) =~= sound_paths(sv.take(i + 1)));
        }
        i = i + 1;
    }
    assert(sv.take(i as int) =~= sv);
    out
}

/// The model files to look for.
pub fn model_download_candidates(models: &[String]) -> (r: Vec<String>)
    ensures
        string_seqs(r@) == model_paths(string_seqs(models@)),
{
    let ghost mv = string_seqs(models@);
    let mut out: Vec<String> = Vec::new();
    let mut i: usize = 0;
    assert(mv.take(0) =~= Seq::<Seq<char>>::empty());
    while i < models.len()
        invariant
            mv == string_seqs(models@),
            i <= models@.len(),
            string_seqs(out@) == model_paths(mv.take(i as int)),
        decreases models@.len() - i,
    {
        let name = chars_of(models[i].as_str());
        if name.len() > 0 && name[0] != '*' {
            out.push(string_of(name.as_slice()));
        }
        proof {
            assert(mv.take(i + 1).drop_last() =~= mv.take(i as int));
            assert(string_seqs(out@) =~= model_paths(mv.take(i + 1)));
        }
        i = i + 1;
    }
    assert(mv.take(i as int) =~= mv);
    out
}

fn skin_file(userinfo: &str) -> (r: Option<String>)
    ensures
        match skin_path(userinfo@) {
            Some(p) => r matches Some(s) && s@ == p,
            None => r is None,
        },
{
    let value = match value_for_key(userinfo, "skin") {
        Some(v) => v,
        None => {
            return None;
        },
    };
    let t = trim(chars_of(value.as_str()).as_slice());
    if t.len() == 0 {
        return None;
    }
    let base = strip_extension(string_of(t.as_slice()).as_str());
    let base_chars = chars_of(base.as_str());
    if base_chars.len() == 0 {
        return None;
    }
    Some(prefixed("skins/", base_chars.as_slice(), ".pcx"))
}

/// The skin pictures to look for, one per player whose user info names a
/// skin.
pub fn skin_download_candidates(players: &[PlayerInfo]) -> (r: Vec<String>)
    ensures
        string_seqs(r@) == skin_paths(player_infos(players@)),
{
    let ghost pv = player_infos(players@);
    let mut out: Vec<String> = Vec::new();
    let mut i: usize = 0;
    assert(pv.take(0) =~= Seq::<Seq<char>>::empty());
    while i < players.len()
        invariant
            pv == player_infos(players@),
            i <= players@.len(),
            string_seqs(out@) == skin_paths(pv.take(i as int)),
        decreases players@.len() - i,
    {
        let file = skin_file(players[i].userinfo.as_str());
        match file {
            Some(p) => out.push(p),
            None => {},
        }
        proof {
            assert(pv.take(i + 1).drop_last() =~= pv.take(i as int));
            assert(string_seqs(out@) =~= skin_paths(pv.take(i + 1)));
        }
        i = i + 1;
    }
    assert(pv.take(i as int) =~= pv);
    out
}

/// The first name from `i` on that is safe to write, or the length.
pub open spec fn first_safe(queue: Seq<Seq<char>>, i: int) -> int
    decreases queue.len() - i,
{
    if i >= queue.len() {
        queue.len() as int
    } else if is_safe_relative(queue[i]) {
        i
    } else {
        first_safe(queue, i + 1)
    }
}

/// Takes the next download off the front of the queue: names that are not
/// safe paths are dropped on the way; none when the queue runs out.
pub fn next_download(queue: &mut Vec<String>) -> (r: Option<String>)
    ensures
        first_safe(string_seqs(old(queue)@), 0) < old(queue)@.len() ==> (r matches Some(s)
            && s@ == old(queue)@[first_safe(string_seqs(old(queue)@), 0)]@
            && string_seqs(final(queue)@) == string_seqs(old(queue)@).skip(first_safe(string_seqs(old(queue)@), 0) + 1)),
        first_safe(string_seqs(old(queue)@), 0) >= old(queue)@.len() ==> r is None && final(queue)@.len() == 0,
{
    let ghost q = string_seqs(queue@);
    let ghost mut k: int = 0;
    assert(q.skip(0) =~= q);
    while queue.len() > 0
        invariant
            q == string_seqs(old(queue)@),
            0 <= k <= q.len(),
            string_seqs(queue@) == q.skip(k),
            first_safe(q, k) == first_safe(q, 0),
        decreases queue@.len(),
    {
        let ghost before = queue@;
        assert(q.skip(k).len() > 0);
        assert(q.skip(k)[0] == q[k]);
        assert(string_seqs(before)[0] == q[k]);
        let name = queue.remove(0);
        proof {
            assert(queue@ =~= before.skip(1));
            assert forall|j: int| 0 <= j < queue@.len() implies #[trigger] string_seqs(queue@)[j] == q.skip(k + 1)[j] by {
                assert(queue@[j] == before[j + 1]);
                assert(string_seqs(before)[j + 1] == q.skip(k)[j + 1]);
                assert(q.skip(k)[j + 1] == q[k + j + 1]);
                assert(q.skip(k + 1)[j] == q[k + 1 + j]);
            }
            assert(string_seqs(queue@) =~= q.skip(k + 1));
        }
        if is_safe_relative_path(name.as_str()) {
            return Some(name);
        }
        proof {
            k = k + 1;
        }
    }
    None
}

/// The request for one file.
pub fn download_command(name: &str) -> (r: String)
    ensures
        r@ == "download "@ + name@,
{
    let chars = chars_of(name);
    let r = prefixed("download ", chars.as_slice(), "");
    proof {
        reveal_strlit("");
        assert(r@ =~= "download "@ + name@);
    }
    r
}

} // verus!

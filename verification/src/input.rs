//! Turning key presses into movement commands.
use vstd::prelude::*;
use crate::text::{chars_of, push_chars, string_of};

verus! {

/// The keys that the client binds, and any other key.
#[derive(Debug, Clone, Copy, PartialEq, Eq, Structural)]
pub enum Key {
    Up,
    Down,
    Left,
    Right,
    Space,
    Other,
}

/// What happened to a key.
#[derive(Debug, Clone, Copy, PartialEq, Eq, Structural)]
pub enum Action {
    Press,
    Release,
    Repeat,
}

/// The movement a bound key stands for.
pub open spec fn key_base(key: Key) -> Option<Seq<char>> {
    match key {
        Key::Up => Some("forward"@),
        Key::Down => Some("back"@),
        Key::Left => Some("moveleft"@),
        Key::Right => Some("moveright"@),
        Key::Space => Some("jump"@),
        Key::Other => None,
    }
}

/// A press starts the key's movement (`+base`), a release ends it
/// (`-base`); a repeat and an unbound key give nothing.
pub open spec fn spec_key_command(key: Key, action: Action) -> Option<Seq<char>> {
    match key_base(key) {
        None => None,
        Some(base) => match action {
            Action::Press => Some(seq!['+'] + base),
            Action::Release => Some(seq!['-'] + base),
            Action::Repeat => None,
        },
    }
}

pub fn map_key_action(key: Key, action: Action) -> (r: Option<String>)
    ensures
        match spec_key_command(key, action) {
            Some(c) => r matches Some(s) && s@ == c,
            None => r is None,
        },
{
    let base = match key {
        Key::Up => "forward",
        Key::Down => "back",
        Key::Left => "moveleft",
        Key::Right => "moveright",
        Key::Space => "jump",
        Key::Other => {
            return None;
        },
    };
    proof {
        reveal_strlit("forward");
        reveal_strlit("back");
        reveal_strlit("moveleft");
        reveal_strlit("moveright");
        reveal_strlit("jump");
    }
    let sign = match action {
        Action::Press => '+',
        Action::Release => '-',
        Action::Repeat => {
            return None;
        },
    };
    let mut out: Vec<char> = Vec::new();
    out.push(sign);
    let base_chars = chars_of(base);
    push_chars(&mut out, base_chars.as_slice());
    assert(out@ =~= seq![sign] + base@);
    Some(string_of(out.as_slice()))
}

} // verus!

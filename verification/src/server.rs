//! The server's bookkeeping: frame numbering, challenges, the lists it
//! hands out in chunks, movement commands it reads and the entity changes
//! it sends.
use vstd::prelude::*;
use vstd::string::StringSliceAdditionalSpecFns;
use crate::client_messages::{MoveVars, StringListChunk, string_views};
use crate::msg::{MsgReadError, MsgReader};
use crate::protocol::UPDATE_MASK;
use crate::svc::{
    ByteAngles, EntityDelta, EntityState, UserCmd, WireVec, applied, rd_delta_usercmd, rd_u8, read_as, read_delta_usercmd,
    read_u8_at, zero_cmd,
};
use crate::text::{
    ascii_lower, ascii_lower_exec, chars_eq, chars_of, eq_ignore_ascii_case, lossy_text, seq_eq_ignore_ascii_case,
    string_from_utf8_lossy, string_of, views,
};
use crate::decimal::{parse_i32, parse_unsigned, spec_parse_signed, spec_parse_unsigned, split_whitespace, words};
use crate::oob::{OobMessage, build_out_of_band, oob_header, oob_is, oob_text, parse_oob_message};
use crate::protocol::{A2A_ACK, A2A_ECHO, PROTOCOL_VERSION, S2C_CHALLENGE, S2C_CONNECTION};

verus! {

/// The delta sequence byte that names a frame: its sequence number
/// within the window of frames kept.
pub fn delta_from_sequence(seq: u32) -> (r: u8)
    ensures
        r == seq & (UPDATE_MASK as u32),
{
    let r = (seq & UPDATE_MASK as u32) as u8;
    assert(seq & 63u32 < 64) by (bit_vector);
    r
}

/// The next state of the challenge generator: a linear congruential step.
pub open spec fn challenge_step(state: u32) -> u32 {
    state.wrapping_mul(1664525).wrapping_add(1013904223)
}

/// Advances the challenge generator and gives its low 31 bits.
pub fn next_challenge(state: &mut u32) -> (r: i32)
    ensures
        *final(state) == challenge_step(*old(state)),
        r == (challenge_step(*old(state)) & 0x7fff_ffff) as i32,
        r >= 0,
{
    *state = state.wrapping_mul(1664525).wrapping_add(1013904223);
    let v = *state & 0x7fff_ffff;
    assert(v <= 0x7fff_ffff) by (bit_vector)
        requires
            v == *state & 0x7fff_ffffu32,
    ;
    v as i32
}

/// A movement message's last command, and the byte that followed it when
/// that byte starts another message.
#[derive(Debug, Clone, Copy, PartialEq, Eq)]
pub struct MoveParseResult {
    pub cmd: UserCmd,
    pub next: Option<u8>,
}

/// A movement message after its identifier: a checksum byte, a loss byte,
/// three commands each sent as changes from the one before (the first from
/// the zero command), then, if anything follows, either a delta request
/// (identifier 5 and a byte) or the identifier of the next message.
pub open spec fn rd_move(d: Seq<u8>, p: int) -> Option<(MoveParseResult, int)> {
    match rd_u8(d, p) {
        None => None,
        Some((_, p1)) => match rd_u8(d, p1) {
            None => None,
            Some((_, p2)) => match rd_delta_usercmd(d, p2, zero_cmd()) {
                None => None,
                Some((c0, p3)) => match rd_delta_usercmd(d, p3, c0) {
                    None => None,
                    Some((c1, p4)) => match rd_delta_usercmd(d, p4, c1) {
                        None => None,
                        Some((c2, p5)) => if p5 < d.len() {
                            if d[p5] == 5 {
                                match rd_u8(d, p5 + 1) {
                                    None => None,
                                    Some((_, p7)) => Some((MoveParseResult { cmd: c2, next: None }, p7)),
                                }
                            } else {
                                Some((MoveParseResult { cmd: c2, next: Some(d[p5]) }, p5 + 1))
                            }
                        } else {
                            Some((MoveParseResult { cmd: c2, next: None }, p5))
                        },
                    },
                },
            },
        },
    }
}

/// Reads a movement message (after its identifier).
pub fn parse_move(reader: &mut MsgReader) -> (r: Result<MoveParseResult, MsgReadError>)
    requires
        old(reader).wf(),
    ensures
        read_as(r, final(reader), old(reader), rd_move(old(reader).data(), old(reader).cursor())),
{
    let _checksum = read_u8_at(reader)?;
    let _lost = read_u8_at(reader)?;
    let base = UserCmd::default();
    let cmd0 = read_delta_usercmd(reader, &base)?;
    let cmd1 = read_delta_usercmd(reader, &cmd0)?;
    let cmd2 = read_delta_usercmd(reader, &cmd1)?;
    let next = if reader.remaining() > 0 {
        let next = read_u8_at(reader)?;
        if next == 5 {
            let _ = read_u8_at(reader)?;
            None
        } else {
            Some(next)
        }
    } else {
        None
    };
    Ok(MoveParseResult { cmd: cmd2, next })
}

/// The most items a list chunk carries.
pub const MAX_CHUNK_ITEMS: usize = 64;

/// The chunk of `list` that starts at `start`: up to 64 names, and the
/// index to ask for next (0 when the list ends there or the index no
/// longer fits in a byte).
pub open spec fn spec_list_chunk(list: Seq<Seq<char>>, start: u8) -> (Seq<Seq<char>>, u8) {
    let s = start as int;
    if s >= list.len() {
        (Seq::empty(), 0)
    } else {
        let end = if s + 64 < list.len() { s + 64 } else { list.len() as int };
        let next = if end < list.len() && end <= 255 { end as u8 } else { 0 };
        (list.subrange(s, end), next)
    }
}

/// The chunk of a name list that starts at `start`.
pub fn build_list_chunk(list: &[String], start: u8) -> (r: StringListChunk)
    ensures
        r.start == start,
        (string_views(r.items@), r.next) == spec_list_chunk(string_views(list@), start),
{
    let start_index = start as usize;
    if start_index >= list.len() {
        let r = StringListChunk { start, items: Vec::new(), next: 0 };
        assert(string_views(r.items@) =~= Seq::<Seq<char>>::empty());
        return r;
    }
    let end = if list.len() - start_index > MAX_CHUNK_ITEMS { start_index + MAX_CHUNK_ITEMS } else { list.len() };
    let mut items: Vec<String> = Vec::new();
    let mut i = start_index;
    while i < end
        invariant
            start_index <= i <= end <= list@.len(),
            string_views(items@) == string_views(list@).subrange(start_index as int, i as int),
        decreases end - i,
    {
        let ghost before = string_views(items@);
        let item = list[i].clone();
        items.push(item);
        proof {
            assert(string_views(items@) =~= before.push(list@[i as int]@));
        }
        i = i + 1;
        assert(string_views(items@) =~= string_views(list@).subrange(start_index as int, i as int));
    }
    let next = if end < list.len() && end <= 255 { end as u8 } else { 0 };
    StringListChunk { start, items, next }
}

/// The index of the first name in `list`, among the first 256, equal to
/// `name` up to ASCII case, from position `i` on; 0 when there is none.
pub open spec fn model_index_from(list: Seq<Seq<char>>, name: Seq<char>, i: int) -> u8
    decreases list.len() - i,
{
    if i < 0 || i >= list.len() || i > 255 {
        0
    } else if seq_eq_ignore_ascii_case(list[i], name) {
        i as u8
    } else {
        model_index_from(list, name, i + 1)
    }
}

/// The model index of `name`: its position in the model list, or 0.
pub fn model_index_for(name: &str, model_list: &[String]) -> (r: u8)
    ensures
        r == model_index_from(string_views(model_list@), name@, 0),
{
    let target = chars_of(name);
    let mut i: usize = 0;
    while i < model_list.len()
        invariant
            i <= model_list@.len(),
            i <= 256,
            target@ == name@,
            model_index_from(string_views(model_list@), name@, 0) == model_index_from(string_views(model_list@), name@, i as int),
        decreases model_list@.len() - i,
    {
        if i > 255 {
            return 0;
        }
        let entry = chars_of(model_list[i].as_str());
        if eq_ignore_ascii_case(entry.as_slice(), target.as_slice()) {
            return i as u8;
        }
        i = i + 1;
    }
    0
}

pub open spec fn lower_text(s: Seq<char>) -> Seq<char> {
    Seq::new(s.len(), |i: int| ascii_lower(s[i]))
}

pub(crate) fn lower_chars(s: &str) -> (r: Vec<char>)
    ensures
        r@ == lower_text(s@),
{
    let cs = chars_of(s);
    let mut out: Vec<char> = Vec::new();
    let mut i: usize = 0;
    while i < cs.len()
        invariant
            cs@ == s@,
            i <= cs@.len(),
            out@ == lower_text(s@).take(i as int),
        decreases cs@.len() - i,
    {
        out.push(ascii_lower_exec(cs[i]));
        i = i + 1;
        assert(out@ =~= lower_text(s@).take(i as int));
    }
    assert(out@ =~= lower_text(s@));
    out
}

/// Whether some name before position `i` equals name `i` up to ASCII case.
pub open spec fn seen_before(list: Seq<Seq<char>>, i: int) -> bool {
    exists|j: int| 0 <= j < i && lower_text(#[trigger] list[j]) == lower_text(list[i])
}

/// The names of `list` whose lower-case form is not that of an earlier one,
/// in order.
pub open spec fn spec_dedupe(list: Seq<Seq<char>>) -> Seq<Seq<char>>
    decreases list.len(),
{
    if list.len() == 0 {
        Seq::empty()
    } else {
        let rest = spec_dedupe(list.drop_last());
        if seen_before(list, list.len() - 1) {
            rest
        } else {
            rest.push(list.last())
        }
    }
}

/// Drops the names that repeat an earlier one up to ASCII case.
pub fn dedupe_case(list: Vec<String>) -> (r: Vec<String>)
    ensures
        string_views(r@) == spec_dedupe(string_views(list@)),
{
    let ghost names = string_views(list@);
    let mut keys: Vec<Vec<char>> = Vec::new();
    let mut out: Vec<String> = Vec::new();
    let mut i: usize = 0;
    while i < list.len()
        invariant
            names == string_views(list@),
            i <= list@.len(),
            keys@.len() == i,
            forall|j: int| 0 <= j < i ==> #[trigger] keys@[j]@ == lower_text(names[j]),
            string_views(out@) == spec_dedupe(names.take(i as int)),
        decreases list@.len() - i,
    {
        let key = lower_chars(list[i].as_str());
        let mut seen = false;
        let mut k: usize = 0;
        while k < keys.len()
            invariant
                names == string_views(list@),
                i < list@.len(),
                k <= keys@.len(),
                keys@.len() == i,
                key@ == lower_text(names[i as int]),
                forall|j: int| 0 <= j < i ==> #[trigger] keys@[j]@ == lower_text(names[j]),
                seen <==> exists|j: int| 0 <= j < k && lower_text(#[trigger] names[j]) == lower_text(names[i as int]),
            decreases keys@.len() - k,
        {
            if crate::text::chars_eq(keys[k].as_slice(), key.as_slice()) {
                seen = true;
            }
            proof {
                assert(keys@[k as int]@ == lower_text(names[k as int]));
            }
            k = k + 1;
        }
        let ghost prefix = names.take(i as int + 1);
        proof {
            assert(prefix.drop_last() =~= names.take(i as int));
            assert(prefix.last() == names[i as int]);
            assert(seen_before(prefix, i as int) <==> seen) by {
                if seen {
                    let j = choose|j: int| 0 <= j < i && lower_text(#[trigger] names[j]) == lower_text(names[i as int]);
                    assert(prefix[j] == names[j]);
                }
                if seen_before(prefix, i as int) {
                    let j = choose|j: int| 0 <= j < i && lower_text(#[trigger] prefix[j]) == lower_text(prefix[i as int]);
                    assert(prefix[j] == names[j]);
                }
            }
        }
        if !seen {
            let ghost before = string_views(out@);
            out.push(list[i].clone());
            proof {
                assert(string_views(out@) =~= before.push(names[i as int]));
            }
        }
        keys.push(key);
        i = i + 1;
    }
    assert(names.take(list@.len() as int) =~= names);
    out
}

/// An entity field for the wire: clamped into a byte.
pub open spec fn clamp_byte(v: i32) -> u8 {
    if v < 0 {
        0
    } else if v > 255 {
        255
    } else {
        v as u8
    }
}

pub fn clamp_entity_u8(value: i32) -> (r: Option<u8>)
    ensures
        r == Some(clamp_byte(value)),
{
    if value < 0 {
        return Some(0);
    }
    if value > 255 {
        return Some(255);
    }
    Some(value as u8)
}

/// A field that changed, or nothing.
pub open spec fn changed_i16(a: i16, b: i16) -> Option<i16> {
    if a != b { Some(b) } else { None }
}

pub open spec fn changed_u8(a: u8, b: u8) -> Option<u8> {
    if a != b { Some(b) } else { None }
}

pub open spec fn changed_byte(a: i32, b: i32) -> Option<u8> {
    if a != b { Some(clamp_byte(b)) } else { None }
}

/// Whether nothing that a change can carry differs between two states.
pub open spec fn same_state(from: EntityState, to: EntityState) -> bool {
    &&& from.origin == to.origin
    &&& from.angles == to.angles
    &&& from.modelindex == to.modelindex
    &&& from.frame == to.frame
    &&& from.colormap == to.colormap
    &&& from.skinnum == to.skinnum
    &&& from.effects == to.effects
}

/// The change that takes `from` to `to`: each field that differs, bytes
/// clamped; none when nothing differs.
pub open spec fn spec_entity_delta(from: EntityState, to: EntityState) -> Option<EntityDelta> {
    if same_state(from, to) {
        None
    } else {
        Some(EntityDelta {
            number: if to.number < 0 { 0 } else if to.number > 65535 { 65535 } else { to.number as u16 },
            remove: false,
            flags: 0,
            model_index: changed_byte(from.modelindex, to.modelindex),
            frame: changed_byte(from.frame, to.frame),
            colormap: changed_byte(from.colormap, to.colormap),
            skin_num: changed_byte(from.skinnum, to.skinnum),
            effects: changed_byte(from.effects, to.effects),
            origin_x: changed_i16(from.origin.x, to.origin.x),
            origin_y: changed_i16(from.origin.y, to.origin.y),
            origin_z: changed_i16(from.origin.z, to.origin.z),
            angle_x: changed_u8(from.angles.x, to.angles.x),
            angle_y: changed_u8(from.angles.y, to.angles.y),
            angle_z: changed_u8(from.angles.z, to.angles.z),
            solid: false,
        })
    }
}

fn opt_i16(a: i16, b: i16) -> (r: Option<i16>)
    ensures
        r == changed_i16(a, b),
{
    if a != b { Some(b) } else { None }
}

fn opt_u8(a: u8, b: u8) -> (r: Option<u8>)
    ensures
        r == changed_u8(a, b),
{
    if a != b { Some(b) } else { None }
}

fn opt_byte(a: i32, b: i32) -> (r: Option<u8>)
    ensures
        r == changed_byte(a, b),
{
    if a != b { clamp_entity_u8(b) } else { None }
}

/// The change that takes entity state `from` to `to`, if any.
pub fn entity_delta_between(from: &EntityState, to: &EntityState) -> (r: Option<EntityDelta>)
    ensures
        r == spec_entity_delta(*from, *to),
{
    let origin_x = opt_i16(from.origin.x, to.origin.x);
    let origin_y = opt_i16(from.origin.y, to.origin.y);
    let origin_z = opt_i16(from.origin.z, to.origin.z);
    let angle_x = opt_u8(from.angles.x, to.angles.x);
    let angle_y = opt_u8(from.angles.y, to.angles.y);
    let angle_z = opt_u8(from.angles.z, to.angles.z);
    let model_index = opt_byte(from.modelindex, to.modelindex);
    let frame = opt_byte(from.frame, to.frame);
    let colormap = opt_byte(from.colormap, to.colormap);
    let skin_num = opt_byte(from.skinnum, to.skinnum);
    let effects = opt_byte(from.effects, to.effects);
    if origin_x.is_none() && origin_y.is_none() && origin_z.is_none() && angle_x.is_none() && angle_y.is_none()
        && angle_z.is_none() && model_index.is_none() && frame.is_none() && colormap.is_none()
        && skin_num.is_none() && effects.is_none() {
        return None;
    }
    let number = if to.number < 0 { 0 } else if to.number > 65535 { 65535 } else { to.number as u16 };
    Some(EntityDelta {
        number,
        remove: false,
        flags: 0,
        model_index,
        frame,
        colormap,
        skin_num,
        effects,
        origin_x,
        origin_y,
        origin_z,
        angle_x,
        angle_y,
        angle_z,
        solid: false,
    })
}

/// A state whose byte fields fit in a byte and whose number fits the wire.
pub open spec fn wire_state(s: EntityState) -> bool {
    &&& 0 <= s.number <= 65535
    &&& 0 <= s.modelindex <= 255
    &&& 0 <= s.frame <= 255
    &&& 0 <= s.colormap <= 255
    &&& 0 <= s.skinnum <= 255
    &&& 0 <= s.effects <= 255
}

/// The change the server computes between two states, applied by the
/// client to the first, gives the second (its flags cleared, as the change
/// carries none); when there is no change the two agree in every field a
/// change could carry.
pub proof fn law_entity_delta_reproduces_state(from: EntityState, to: EntityState)
    requires
        wire_state(to),
    ensures
        match spec_entity_delta(from, to) {
            Some(d) => applied(d, from) == (EntityState { flags: 0, ..to }),
            None => same_state(from, to),
        },
{
}

/// The movement variables the server starts with (as float bits): gravity
/// 800, stop speed 100, top speed 320, spectator speed 500, acceleration
/// 10, no air acceleration, water acceleration 10, friction 6, water
/// friction 1, entity gravity 1.
pub fn default_movevars() -> (r: MoveVars)
    ensures
        r == (MoveVars {
            gravity: 0x4448_0000,
            stopspeed: 0x42c8_0000,
            maxspeed: 0x43a0_0000,
            spectatormaxspeed: 0x43fa_0000,
            accelerate: 0x4120_0000,
            airaccelerate: 0,
            wateraccelerate: 0x4120_0000,
            friction: 0x40c0_0000,
            waterfriction: 0x3f80_0000,
            entgravity: 0x3f80_0000,
        }),
{
    MoveVars {
        gravity: 0x4448_0000,
        stopspeed: 0x42c8_0000,
        maxspeed: 0x43a0_0000,
        spectatormaxspeed: 0x43fa_0000,
        accelerate: 0x4120_0000,
        airaccelerate: 0,
        wateraccelerate: 0x4120_0000,
        friction: 0x40c0_0000,
        waterfriction: 0x3f80_0000,
        entgravity: 0x3f80_0000,
    }
}

// ---- requests the server reads ----

/// What a client's connect request carries.
#[derive(Debug, Clone, PartialEq, Eq)]
pub struct ConnectInfo {
    pub protocol: i32,
    pub qport: u16,
    pub challenge: i32,
    pub userinfo: String,
}

pub struct ConnectView {
    pub protocol: i32,
    pub qport: u16,
    pub challenge: i32,
    pub userinfo: Seq<char>,
}

/// Index of the last `c` in `s`, or -1.
pub open spec fn last_index(s: Seq<char>, c: char) -> int
    decreases s.len(),
{
    if s.len() == 0 {
        -1
    } else if s.last() == c {
        s.len() - 1
    } else {
        last_index(s.drop_last(), c)
    }
}

/// A connect request: `connect`, the protocol, the qport and the challenge
/// as words before the first `"`, and the user info between the first and
/// the last `"`. Words after the challenge are ignored.
pub open spec fn spec_connect(t: Seq<char>) -> Option<ConnectView> {
    let qs = crate::text::first_index(t, '"');
    let qe = last_index(t, '"');
    if qs >= t.len() || qe <= qs {
        None
    } else {
        let ws = words(t.take(qs));
        if ws.len() < 1 || ws[0] != "connect"@ || ws.len() < 2 {
            None
        } else {
            match spec_parse_signed(ws[1], i32::MIN as int, i32::MAX as int) {
                None => None,
                Some(protocol) => if ws.len() < 3 {
                    None
                } else {
                    match spec_parse_unsigned(ws[2], 65535) {
                        None => None,
                        Some(qport) => if ws.len() < 4 {
                            None
                        } else {
                            match spec_parse_signed(ws[3], i32::MIN as int, i32::MAX as int) {
                                None => None,
                                Some(challenge) => Some(ConnectView {
                                    protocol: protocol as i32,
                                    qport: qport as u16,
                                    challenge: challenge as i32,
                                    userinfo: t.subrange(qs + 1, qe),
                                }),
                            }
                        },
                    }
                },
            }
        }
    }
}

pub open spec fn connect_view(c: ConnectInfo) -> ConnectView {
    ConnectView { protocol: c.protocol, qport: c.qport, challenge: c.challenge, userinfo: c.userinfo@ }
}

fn last_quote(cs: &[char]) -> (r: Option<usize>)
    ensures
        match r {
            Some(i) => i == last_index(cs@, '"') && i < cs@.len(),
            None => last_index(cs@, '"') == -1,
        },
{
    let mut i = cs.len();
    assert(cs@.take(i as int) =~= cs@);
    while i > 0
        invariant
            i <= cs@.len(),
            last_index(cs@.take(i as int), '"') == last_index(cs@, '"'),
        decreases i,
    {
        assert(cs@.take(i as int).drop_last() =~= cs@.take(i - 1));
        if cs[i - 1] == '"' {
            return Some(i - 1);
        }
        i = i - 1;
    }
    None
}

/// Reads a client's connect request.
pub fn parse_connect(text: &str) -> (r: Option<ConnectInfo>)
    ensures
        match spec_connect(text@) {
            Some(v) => r matches Some(c) && connect_view(c) == v,
            None => r is None,
        },
{
    let cs = chars_of(text);
    proof {
        crate::text::lemma_first_index(text@, '"');
    }
    let mut qs: usize = 0;
    while qs < cs.len() && cs[qs] != '"'
        invariant
            qs <= cs@.len(),
            cs@ == text@,
            forall|j: int| 0 <= j < qs ==> cs@[j] != '"',
        decreases cs@.len() - qs,
    {
        qs = qs + 1;
    }
    proof {
        crate::text::lemma_first_index_at(text@, '"', qs as int);
    }
    if qs >= cs.len() {
        return None;
    }
    let qe = match last_quote(cs.as_slice()) {
        Some(i) => i,
        None => {
            return None;
        },
    };
    if qe <= qs {
        return None;
    }
    let head = vstd::slice::slice_subrange(cs.as_slice(), 0, qs);
    assert(head@ =~= text@.take(qs as int));
    let ws = split_whitespace(head);
    let connect = chars_of("connect");
    if ws.len() < 1 || !chars_eq(ws[0].as_slice(), connect.as_slice()) || ws.len() < 2 {
        return None;
    }
    let protocol = match parse_i32(ws[1].as_slice()) {
        Some(v) => v,
        None => {
            return None;
        },
    };
    if ws.len() < 3 {
        return None;
    }
    let qport = match parse_unsigned(ws[2].as_slice(), 65535) {
        Some(v) => v as u16,
        None => {
            return None;
        },
    };
    if ws.len() < 4 {
        return None;
    }
    let challenge = match parse_i32(ws[3].as_slice()) {
        Some(v) => v,
        None => {
            return None;
        },
    };
    let userinfo = string_of(vstd::slice::slice_subrange(cs.as_slice(), qs + 1, qe));
    Some(ConnectInfo { protocol, qport, challenge, userinfo })
}

/// Whether `p` begins `t`.
pub open spec fn has_prefix(t: Seq<char>, p: Seq<char>) -> bool {
    p.len() <= t.len() && t.take(p.len() as int) == p
}

fn starts_with_chars(t: &[char], p: &[char]) -> (r: bool)
    ensures
        r == has_prefix(t@, p@),
{
    if p.len() > t.len() {
        return false;
    }
    let mut i: usize = 0;
    while i < p.len()
        invariant
            p@.len() <= t@.len(),
            i <= p@.len(),
            forall|j: int| 0 <= j < i ==> t@[j] == p@[j],
        decreases p@.len() - i,
    {
        if t[i] != p[i] {
            assert(t@.take(p@.len() as int)[i as int] != p@[i as int]);
            return false;
        }
        i = i + 1;
    }
    assert(t@.take(p@.len() as int) =~= p@);
    true
}

pub open spec fn is_trimmed_char(c: char) -> bool {
    c == '\0' || c == '\n' || c == '\r'
}

/// `t` without NULs and line ends at either end.
pub open spec fn trim_line_ends(t: Seq<char>) -> Seq<char>
    decreases t.len(),
{
    if t.len() > 0 && is_trimmed_char(t[0]) {
        trim_line_ends(t.drop_first())
    } else if t.len() > 0 && is_trimmed_char(t.last()) {
        trim_line_ends(t.drop_last())
    } else {
        t
    }
}

fn trim_line_ends_exec(t: &[char]) -> (r: Vec<char>)
    ensures
        r@ == trim_line_ends(t@),
{
    let mut start: usize = 0;
    let mut end: usize = t.len();
    assert(t@.subrange(0, t@.len() as int) =~= t@);
    while start < end && (is_trim(t[start]) || is_trim(t[end - 1]))
        invariant
            start <= end <= t@.len(),
            trim_line_ends(t@.subrange(start as int, end as int)) == trim_line_ends(t@),
        decreases end - start,
    {
        let ghost cur = t@.subrange(start as int, end as int);
        if is_trim(t[start]) {
            assert(cur.drop_first() =~= t@.subrange(start + 1, end as int));
            start = start + 1;
        } else {
            assert(cur.drop_last() =~= t@.subrange(start as int, end - 1));
            end = end - 1;
        }
    }
    let mut out: Vec<char> = Vec::new();
    let mut i = start;
    while i < end
        invariant
            start <= i <= end <= t@.len(),
            out@ == t@.subrange(start as int, i as int),
        decreases end - i,
    {
        out.push(t[i]);
        i = i + 1;
        assert(out@ =~= t@.subrange(start as int, i as int));
    }
    out
}

fn is_trim(c: char) -> (r: bool)
    ensures
        r == is_trimmed_char(c),
{
    c == '\0' || c == '\n' || c == '\r'
}

/// What an out-of-band packet asks of the server.
#[derive(Debug, Clone, PartialEq, Eq)]
pub enum ServerOob {
    GetChallenge,
    /// A connect request, and what it carried when it could be read.
    Connect(Option<ConnectInfo>),
    Ping,
    Echo(String),
    Ignore,
}

/// The request an out-of-band payload makes: its text without NULs and
/// line ends around it is checked for `getchallenge`, then `connect`;
/// else the payload's command byte is read.
pub open spec fn spec_server_oob(payload: Seq<u8>, r: ServerOob) -> bool {
    let t = trim_line_ends(lossy_text(payload));
    if has_prefix(t, "getchallenge"@) {
        r == ServerOob::GetChallenge
    } else if has_prefix(t, "connect"@) {
        match spec_connect(t) {
            Some(v) => r matches ServerOob::Connect(Some(c)) && connect_view(c) == v,
            None => r == ServerOob::Connect(None),
        }
    } else if payload.len() > 0 && oob_is(OobMessage::Ping, payload[0], oob_text(payload)) {
        r == ServerOob::Ping
    } else if payload.len() > 0 && payload[0] == A2A_ECHO {
        r matches ServerOob::Echo(v) && v@ == oob_text(payload)
    } else {
        r == ServerOob::Ignore
    }
}

/// Reads what an out-of-band packet (after its marker) asks of the server.
pub fn classify_oob(payload: &[u8]) -> (r: ServerOob)
    ensures
        spec_server_oob(payload@, r),
{
    let text = string_from_utf8_lossy(payload);
    let cs = chars_of(text.as_str());
    proof {
        assert(cs@ == lossy_text(payload@));
    }
    let t = trim_line_ends_exec(cs.as_slice());
    if starts_with_chars(t.as_slice(), chars_of("getchallenge").as_slice()) {
        return ServerOob::GetChallenge;
    }
    if starts_with_chars(t.as_slice(), chars_of("connect").as_slice()) {
        let trimmed = string_of(t.as_slice());
        return ServerOob::Connect(parse_connect(trimmed.as_str()));
    }
    match parse_oob_message(payload) {
        Some(OobMessage::Ping) => ServerOob::Ping,
        Some(OobMessage::Echo(v)) => ServerOob::Echo(v),
        _ => ServerOob::Ignore,
    }
}

/// Whether a connect request is accepted: the protocol is ours and the
/// challenge is the one handed to that address.
pub fn connect_accepted(info: &ConnectInfo, expected: Option<i32>) -> (r: bool)
    ensures
        r == (info.protocol == PROTOCOL_VERSION && expected == Some(info.challenge)),
{
    info.protocol == PROTOCOL_VERSION
        && match expected {
        Some(c) => c == info.challenge,
        None => false,
    }
}

/// A command a client sends in a string.
#[derive(Debug, Clone, Copy, PartialEq, Eq)]
pub enum ServerCommand {
    New,
    SoundList(u8),
    ModelList(u8),
    Prespawn,
    Spawn,
    Begin,
    Other,
}

/// The index a list request starts from: its third word as a byte, or 0.
pub open spec fn list_start(ws: Seq<Seq<char>>) -> u8 {
    if ws.len() >= 3 {
        match spec_parse_unsigned(ws[2], 255) {
            Some(v) => v as u8,
            None => 0,
        }
    } else {
        0
    }
}

/// The command that a string command's first word names; none for an
/// empty string.
pub open spec fn spec_server_command(t: Seq<char>) -> Option<ServerCommand> {
    let ws = words(t);
    if ws.len() == 0 {
        None
    } else if ws[0] == "new"@ {
        Some(ServerCommand::New)
    } else if ws[0] == "soundlist"@ {
        Some(ServerCommand::SoundList(list_start(ws)))
    } else if ws[0] == "modellist"@ {
        Some(ServerCommand::ModelList(list_start(ws)))
    } else if ws[0] == "prespawn"@ {
        Some(ServerCommand::Prespawn)
    } else if ws[0] == "spawn"@ {
        Some(ServerCommand::Spawn)
    } else if ws[0] == "begin"@ {
        Some(ServerCommand::Begin)
    } else {
        Some(ServerCommand::Other)
    }
}

fn list_start_exec(ws: &Vec<Vec<char>>) -> (r: u8)
    ensures
        r == list_start(views(ws@)),
{
    if ws.len() >= 3 {
        match parse_unsigned(ws[2].as_slice(), 255) {
            Some(v) => v as u8,
            None => 0,
        }
    } else {
        0
    }
}

/// Reads a string command a client sent.
pub fn parse_server_command(text: &str) -> (r: Option<ServerCommand>)
    ensures
        r == spec_server_command(text@),
{
    let cs = chars_of(text);
    let ws = split_whitespace(cs.as_slice());
    if ws.len() == 0 {
        return None;
    }
    let w = ws[0].as_slice();
    assert(views(ws@)[0] == ws@[0]@);
    if chars_eq(w, chars_of("new").as_slice()) {
        Some(ServerCommand::New)
    } else if chars_eq(w, chars_of("soundlist").as_slice()) {
        Some(ServerCommand::SoundList(list_start_exec(&ws)))
    } else if chars_eq(w, chars_of("modellist").as_slice()) {
        Some(ServerCommand::ModelList(list_start_exec(&ws)))
    } else if chars_eq(w, chars_of("prespawn").as_slice()) {
        Some(ServerCommand::Prespawn)
    } else if chars_eq(w, chars_of("spawn").as_slice()) {
        Some(ServerCommand::Spawn)
    } else if chars_eq(w, chars_of("begin").as_slice()) {
        Some(ServerCommand::Begin)
    } else {
        Some(ServerCommand::Other)
    }
}

/// The reply to a challenge request: the challenge code, the number in
/// decimal, and a zero, out of band.
pub fn challenge_reply(challenge: i32) -> (r: Vec<u8>)
    ensures
        r@ == oob_header() + seq![S2C_CHALLENGE] + vstd::utf8::encode_utf8(crate::decimal::signed_decimal(challenge as int)) + seq![0u8],
{
    let mut text: Vec<char> = Vec::new();
    crate::decimal::push_signed_decimal(&mut text, challenge as i64);
    let digits = string_of(text.as_slice());
    let mut reply: Vec<u8> = Vec::new();
    reply.push(S2C_CHALLENGE);
    let bytes = digits.as_str().as_bytes();
    let mut i: usize = 0;
    while i < bytes.len()
        invariant
            i <= bytes@.len(),
            reply@ == seq![S2C_CHALLENGE] + bytes@.take(i as int),
        decreases bytes@.len() - i,
    {
        reply.push(bytes[i]);
        i = i + 1;
        assert(reply@ =~= seq![S2C_CHALLENGE] + bytes@.take(i as int));
    }
    reply.push(0);
    assert(bytes@.take(bytes@.len() as int) =~= bytes@);
    let r = build_out_of_band(reply.as_slice());
    assert(r@ =~= oob_header() + seq![S2C_CHALLENGE] + bytes@ + seq![0u8]);
    r
}

/// The reply that accepts a connection.
pub fn connection_reply() -> (r: Vec<u8>)
    ensures
        r@ == oob_header() + seq![S2C_CONNECTION, 0u8],
{
    let r = build_out_of_band(&[S2C_CONNECTION, 0]);
    r
}

/// The reply to a ping.
pub fn ack_reply() -> (r: Vec<u8>)
    ensures
        r@ == oob_header() + seq![A2A_ACK, 10u8],
{
    build_out_of_band(&[A2A_ACK, 10])
}

/// The reply to an echo request: the text sent back, then a zero.
pub fn echo_reply(value: &str) -> (r: Vec<u8>)
    ensures
        r@ == oob_header() + seq![A2A_ECHO] + value.spec_bytes() + seq![0u8],
{
    let mut reply: Vec<u8> = Vec::new();
    reply.push(A2A_ECHO);
    let bytes = value.as_bytes();
    let mut i: usize = 0;
    while i < bytes.len()
        invariant
            i <= bytes@.len(),
            reply@ == seq![A2A_ECHO] + bytes@.take(i as int),
        decreases bytes@.len() - i,
    {
        reply.push(bytes[i]);
        i = i + 1;
        assert(reply@ =~= seq![A2A_ECHO] + bytes@.take(i as int));
    }
    reply.push(0);
    assert(bytes@.take(bytes@.len() as int) =~= bytes@);
    let r = build_out_of_band(reply.as_slice());
    assert(r@ =~= oob_header() + seq![A2A_ECHO] + bytes@ + seq![0u8]);
    r
}

/// The sound and model lists a server announces for a map: an empty first
/// entry, then (for models) the map itself, then what the game precached,
/// each list without repeats that differ only in case.
pub open spec fn spec_precache_lists(map_name: Seq<char>, sounds: Seq<Seq<char>>, models: Seq<Seq<char>>) -> (Seq<Seq<char>>, Seq<Seq<char>>) {
    (
        spec_dedupe(seq![Seq::<char>::empty()] + sounds),
        spec_dedupe(seq![Seq::<char>::empty(), "maps/"@ + map_name + ".bsp"@] + models),
    )
}

pub fn precache_lists(map_name: &str, sounds: &[String], models: &[String]) -> (r: (Vec<String>, Vec<String>))
    ensures
        (string_views(r.0@), string_views(r.1@)) == spec_precache_lists(map_name@, string_views(sounds@), string_views(models@)),
{
    let mut sound_list: Vec<String> = Vec::new();
    sound_list.push(String::new());
    let mut i: usize = 0;
    while i < sounds.len()
        invariant
            i <= sounds@.len(),
            string_views(sound_list@) == seq![Seq::<char>::empty()] + string_views(sounds@).take(i as int),
        decreases sounds@.len() - i,
    {
        let c = sounds[i].clone();
        let ghost before = sound_list@;
        sound_list.push(c);
        assert(string_views(sound_list@) =~= string_views(before).push(sounds@[i as int]@));
        assert(string_views(sounds@).take(i + 1) =~= string_views(sounds@).take(i as int).push(sounds@[i as int]@));
        assert(string_views(sound_list@) =~= seq![Seq::<char>::empty()] + string_views(sounds@).take(i + 1));
        i = i + 1;
    }
    assert(string_views(sounds@).take(i as int) =~= string_views(sounds@));
    let mut map_chars = chars_of("maps/");
    let name_chars = chars_of(map_name);
    crate::text::push_chars(&mut map_chars, name_chars.as_slice());
    let suffix = chars_of(".bsp");
    crate::text::push_chars(&mut map_chars, suffix.as_slice());
    let mut model_list: Vec<String> = Vec::new();
    model_list.push(String::new());
    model_list.push(crate::text::string_of(map_chars.as_slice()));
    let ghost head = seq![Seq::<char>::empty(), "maps/"@ + map_name@ + ".bsp"@];
    assert(string_views(model_list@) =~= head);
    let mut i: usize = 0;
    while i < models.len()
        invariant
            i <= models@.len(),
            string_views(model_list@) == head + string_views(models@).take(i as int),
        decreases models@.len() - i,
    {
        let c = models[i].clone();
        let ghost before = model_list@;
        model_list.push(c);
        assert(string_views(model_list@) =~= string_views(before).push(models@[i as int]@));
        assert(string_views(models@).take(i + 1) =~= string_views(models@).take(i as int).push(models@[i as int]@));
        assert(string_views(model_list@) =~= head + string_views(models@).take(i + 1));
        i = i + 1;
    }
    assert(string_views(models@).take(i as int) =~= string_views(models@));
    (dedupe_case(sound_list), dedupe_case(model_list))
}

} // verus!

//! What a read gives back of a write: each server message that can be
//! sent (`svc_ok`) and is written with `write_svc_message` reads back as
//! itself with `parse_svc_message` (`law_svc_round_trip`,
//! `law_write_then_parse`), built from read-back lemmas for each part.
use vstd::prelude::*;
use crate::bytes::{le_u16, le_u32, lemma_i16_bits, lemma_i32_bits, lemma_u16_round_trip, lemma_u32_round_trip, u16_at, u16_le, u32_at, u32_le};
use crate::client_messages::lemma_concat_parts_append;
use crate::msg::{concat_parts, cstring_bytes, law_string_round_trip, zero_from};
use crate::client_messages::{
    MoveVars, ServerDataView, chunk_parts, law_string_list_round_trip, listable, rd_movevars, rd_serverdata,
    spec_string_list_chunk,
};
use crate::msg::{SizeBufError, SizeBufView, lemma_write_all_fits, write_all};
use crate::protocol::{
    PF_COMMAND, PF_EFFECTS, PF_MODEL, PF_MSEC, PF_SKINNUM, PF_VELOCITY1, PF_VELOCITY2, PF_VELOCITY3, PF_WEAPONFRAME,
    PROTOCOL_VERSION,
};
use crate::protocol::{MAX_PACKET_ENTITIES, Svc, svc_number};
use crate::svc::{
    SvcView, packet_head_parts, rd_packet_entities, rd_svc, rd_svc_body, rd_svc_stream, svc_parts,
    PlayerInfoMessage, or_zero, player_info_parts, rd_player_info, rd_player_looks, rd_player_motion, zero_cmd,
    EntityDelta, delta_flags, entity_parts, entities_parts, flag_u16, rd_delta_bits, rd_delta_bytes, rd_delta_fields,
    rd_delta_moves, rd_entity_delta, rd_entity_list, rd_opt16,
    EntityState, baseline_parts, flag_u8, movevars_parts, rd_baseline, serverdata_parts,
    UserCmd, WireVec, p_i16, p_i32, p_if, p_opt_i16, p_opt_u8, p_str, p_u16, p_u32, p_u8, rd_delta_usercmd, rd_i16,
    rd_i32, rd_opt_i16, rd_opt_u8, rd_string, rd_u16, rd_u32, rd_u8, usercmd_bits, usercmd_parts,
};
use crate::protocol::{
    U_ANGLE1, U_ANGLE2, U_ANGLE3, U_COLORMAP, U_EFFECTS, U_FRAME, U_MODEL, U_MOREBITS, U_ORIGIN1, U_ORIGIN2, U_ORIGIN3,
    U_REMOVE, U_SKIN, U_SOLID,
};
use crate::protocol::{CM_ANGLE1, CM_ANGLE2, CM_ANGLE3, CM_BUTTONS, CM_FORWARD, CM_IMPULSE, CM_SIDE, CM_UP};

verus! {

/// `d` holds the bytes `b` from position `p`.
pub open spec fn at(d: Seq<u8>, p: int, b: Seq<u8>) -> bool {
    0 <= p && p + b.len() <= d.len() && d.subrange(p, p + b.len()) == b
}

/// `d` holds the bytes that the writes `parts` make, from position `p`.
#[verifier::opaque]
pub open spec fn holds(d: Seq<u8>, p: int, parts: Seq<Seq<u8>>) -> bool {
    at(d, p, concat_parts(parts))
}

/// The number of bytes that the writes `parts` make.
#[verifier::opaque]
pub open spec fn size(parts: Seq<Seq<u8>>) -> int {
    concat_parts(parts).len() as int
}

proof fn lemma_at_split(d: Seq<u8>, p: int, a: Seq<u8>, b: Seq<u8>)
    requires
        at(d, p, a + b),
    ensures
        at(d, p, a),
        at(d, p + a.len(), b),
{
    assert(d.subrange(p, p + a.len()) =~= (a + b).subrange(0, a.len() as int)) by {
        assert forall|j: int| 0 <= j < a.len() implies d.subrange(p, p + a.len())[j] == (a + b)[j] by {
            assert(d.subrange(p, p + (a + b).len())[j] == d[p + j]);
        }
    }
    assert((a + b).subrange(0, a.len() as int) =~= a);
    assert forall|j: int| 0 <= j < b.len() implies d.subrange(p + a.len(), p + a.len() + b.len())[j] == b[j] by {
        assert(d.subrange(p, p + (a + b).len())[a.len() + j] == d[p + a.len() + j]);
        assert((a + b)[a.len() + j] == b[j]);
    }
    assert(d.subrange(p + a.len(), p + a.len() + b.len()) =~= b);
}

/// Splits the bytes of two lists of writes made in turn.
pub proof fn lemma_holds_split(d: Seq<u8>, p: int, x: Seq<Seq<u8>>, y: Seq<Seq<u8>>)
    requires
        holds(d, p, x + y),
    ensures
        holds(d, p, x),
        holds(d, p + size(x), y),
        size(x + y) == size(x) + size(y),
{
    reveal(holds);
    reveal(size);
    lemma_concat_parts_append(x, y);
    lemma_at_split(d, p, concat_parts(x), concat_parts(y));
}

pub proof fn lemma_concat_one(b: Seq<u8>)
    ensures
        concat_parts(seq![b]) == b,
{
    reveal_with_fuel(concat_parts, 2);
    assert(seq![b].drop_first() =~= Seq::<Seq<u8>>::empty());
    assert(b + Seq::<u8>::empty() =~= b);
}

pub proof fn lemma_concat_two(a: Seq<u8>, b: Seq<u8>)
    ensures
        concat_parts(seq![a, b]) == a + b,
{
    reveal_with_fuel(concat_parts, 3);
    assert(seq![a, b].drop_first() =~= seq![b]);
    lemma_concat_one(b);
}

pub proof fn lemma_read_u8(d: Seq<u8>, p: int, v: u8)
    requires
        holds(d, p, p_u8(v)),
    ensures
        rd_u8(d, p) == Some((v, p + 1)),
        size(p_u8(v)) == 1,
{
    reveal(holds);
    reveal(size);
    lemma_concat_one(seq![v]);
    assert(d.subrange(p, p + 1)[0] == d[p]);
}

pub proof fn lemma_read_u16(d: Seq<u8>, p: int, v: u16)
    requires
        holds(d, p, p_u16(v)),
    ensures
        rd_u16(d, p) == Some((v, p + 2)),
        size(p_u16(v)) == 2,
{
    reveal(holds);
    reveal(size);
    lemma_concat_one(le_u16(v));
    assert(d.subrange(p, p + 2)[0] == d[p]);
    assert(d.subrange(p, p + 2)[1] == d[p + 1]);
    lemma_u16_round_trip(v);
}

pub proof fn lemma_read_i16(d: Seq<u8>, p: int, v: i16)
    requires
        holds(d, p, p_i16(v)),
    ensures
        rd_i16(d, p) == Some((v, p + 2)),
        size(p_i16(v)) == 2,
{
    lemma_read_u16(d, p, v as u16);
    lemma_i16_bits(v);
}

pub proof fn lemma_read_u32(d: Seq<u8>, p: int, v: u32)
    requires
        holds(d, p, p_u32(v)),
    ensures
        rd_u32(d, p) == Some((v, p + 4)),
        size(p_u32(v)) == 4,
{
    reveal(holds);
    reveal(size);
    lemma_concat_one(le_u32(v));
    assert(d.subrange(p, p + 4)[0] == d[p]);
    assert(d.subrange(p, p + 4)[1] == d[p + 1]);
    assert(d.subrange(p, p + 4)[2] == d[p + 2]);
    assert(d.subrange(p, p + 4)[3] == d[p + 3]);
    lemma_u32_round_trip(v);
}

pub proof fn lemma_read_i32(d: Seq<u8>, p: int, v: i32)
    requires
        holds(d, p, p_i32(v)),
    ensures
        rd_i32(d, p) == Some((v, p + 4)),
        size(p_i32(v)) == 4,
{
    lemma_read_u32(d, p, v as u32);
    lemma_i32_bits(v);
}

pub proof fn lemma_read_string(d: Seq<u8>, p: int, t: Seq<char>)
    requires
        holds(d, p, p_str(t)),
        !t.contains('\0'),
    ensures
        rd_string(d, p) == Some((t, p + size(p_str(t)))),
{
    reveal(holds);
    reveal(size);
    let enc = vstd::utf8::encode_utf8(t);
    lemma_concat_two(enc, seq![0u8]);
    let n = enc.len() + 1;
    let prefix = d.take(p);
    let rest = d.skip(p + n);
    assert(cstring_bytes(t) =~= enc + seq![0u8]);
    assert(d =~= prefix + cstring_bytes(t) + rest) by {
        assert forall|j: int| 0 <= j < d.len() implies d[j] == (prefix + cstring_bytes(t) + rest)[j] by {
            if p <= j < p + n {
                assert(d.subrange(p, p + n)[j - p] == d[j]);
            }
        }
    }
    law_string_round_trip(prefix, t, rest);
}

/// A byte written when `c` holds reads back when `c` holds.
pub proof fn lemma_read_opt_u8(d: Seq<u8>, p: int, c: bool, v: u8)
    requires
        holds(d, p, p_if(c, p_u8(v))),
    ensures
        rd_opt_u8(d, p, c) == Some((if c { Some(v) } else { None }, p + size(p_if(c, p_u8(v))))),
        size(p_if(c, p_u8(v))) == if c { 1int } else { 0int },
{
    reveal(size);
    if c {
        lemma_read_u8(d, p, v);
    }
}

/// A 16-bit value written when `c` holds reads back as itself when `c`
/// holds, and as `dflt` otherwise.
pub proof fn lemma_read_opt_i16(d: Seq<u8>, p: int, c: bool, v: i16, dflt: i16)
    requires
        holds(d, p, p_if(c, p_i16(v))),
    ensures
        rd_opt_i16(d, p, c, dflt) == Some((if c { v } else { dflt }, p + size(p_if(c, p_i16(v))))),
        size(p_if(c, p_i16(v))) == if c { 2int } else { 0int },
{
    reveal(size);
    if c {
        lemma_read_i16(d, p, v);
    }
}

proof fn lemma_usercmd_flags(f1: u8, f2: u8, f3: u8, f4: u8, f5: u8, f6: u8, f7: u8, f8: u8)
    requires
        f1 == 0 || f1 == 0x1,
        f2 == 0 || f2 == 0x80,
        f3 == 0 || f3 == 0x2,
        f4 == 0 || f4 == 0x4,
        f5 == 0 || f5 == 0x8,
        f6 == 0 || f6 == 0x10,
        f7 == 0 || f7 == 0x20,
        f8 == 0 || f8 == 0x40,
    ensures
        ({
            let bits = f1 | f2 | f3 | f4 | f5 | f6 | f7 | f8;
            &&& (bits & 0x1 != 0) == (f1 != 0)
            &&& (bits & 0x80 != 0) == (f2 != 0)
            &&& (bits & 0x2 != 0) == (f3 != 0)
            &&& (bits & 0x4 != 0) == (f4 != 0)
            &&& (bits & 0x8 != 0) == (f5 != 0)
            &&& (bits & 0x10 != 0) == (f6 != 0)
            &&& (bits & 0x20 != 0) == (f7 != 0)
            &&& (bits & 0x40 != 0) == (f8 != 0)
        }),
{
    assert({
        let bits = f1 | f2 | f3 | f4 | f5 | f6 | f7 | f8;
        &&& (bits & 0x1 != 0) == (f1 != 0)
        &&& (bits & 0x80 != 0) == (f2 != 0)
        &&& (bits & 0x2 != 0) == (f3 != 0)
        &&& (bits & 0x4 != 0) == (f4 != 0)
        &&& (bits & 0x8 != 0) == (f5 != 0)
        &&& (bits & 0x10 != 0) == (f6 != 0)
        &&& (bits & 0x20 != 0) == (f7 != 0)
        &&& (bits & 0x40 != 0) == (f8 != 0)
    }) by (bit_vector)
        requires
            f1 == 0 || f1 == 0x1,
            f2 == 0 || f2 == 0x80,
            f3 == 0 || f3 == 0x2,
            f4 == 0 || f4 == 0x4,
            f5 == 0 || f5 == 0x8,
            f6 == 0 || f6 == 0x10,
            f7 == 0 || f7 == 0x20,
            f8 == 0 || f8 == 0x40,
    ;
}

/// Each flag of a movement command's delta is set exactly when its field
/// differs from the command it is sent against.
pub proof fn lemma_usercmd_bits(from: UserCmd, cmd: UserCmd)
    ensures
        (usercmd_bits(from, cmd) & CM_ANGLE1 != 0) == (cmd.angles.x != from.angles.x),
        (usercmd_bits(from, cmd) & CM_ANGLE2 != 0) == (cmd.angles.y != from.angles.y),
        (usercmd_bits(from, cmd) & CM_ANGLE3 != 0) == (cmd.angles.z != from.angles.z),
        (usercmd_bits(from, cmd) & CM_FORWARD != 0) == (cmd.forwardmove != from.forwardmove),
        (usercmd_bits(from, cmd) & CM_SIDE != 0) == (cmd.sidemove != from.sidemove),
        (usercmd_bits(from, cmd) & CM_UP != 0) == (cmd.upmove != from.upmove),
        (usercmd_bits(from, cmd) & CM_BUTTONS != 0) == (cmd.buttons != from.buttons),
        (usercmd_bits(from, cmd) & CM_IMPULSE != 0) == (cmd.impulse != from.impulse),
{
    lemma_usercmd_flags(
        crate::svc::flag_u8(cmd.angles.x != from.angles.x, CM_ANGLE1),
        crate::svc::flag_u8(cmd.angles.y != from.angles.y, CM_ANGLE2),
        crate::svc::flag_u8(cmd.angles.z != from.angles.z, CM_ANGLE3),
        crate::svc::flag_u8(cmd.forwardmove != from.forwardmove, CM_FORWARD),
        crate::svc::flag_u8(cmd.sidemove != from.sidemove, CM_SIDE),
        crate::svc::flag_u8(cmd.upmove != from.upmove, CM_UP),
        crate::svc::flag_u8(cmd.buttons != from.buttons, CM_BUTTONS),
        crate::svc::flag_u8(cmd.impulse != from.impulse, CM_IMPULSE),
    );
}

/// A movement command written as its changes from `from` reads back,
/// against the same `from`, as itself.
#[verifier::rlimit(60)]
pub proof fn lemma_read_delta_usercmd(d: Seq<u8>, p: int, from: UserCmd, cmd: UserCmd)
    requires
        holds(d, p, usercmd_parts(from, cmd)),
    ensures
        rd_delta_usercmd(d, p, from) == Some((cmd, p + size(usercmd_parts(from, cmd)))),
{
    let bits = usercmd_bits(from, cmd);
    lemma_usercmd_bits(from, cmd);
    let c1 = bits & CM_ANGLE1 != 0;
    let c2 = bits & CM_ANGLE2 != 0;
    let c3 = bits & CM_ANGLE3 != 0;
    let c4 = bits & CM_FORWARD != 0;
    let c5 = bits & CM_SIDE != 0;
    let c6 = bits & CM_UP != 0;
    let c7 = bits & CM_BUTTONS != 0;
    let c8 = bits & CM_IMPULSE != 0;
    let a0 = p_u8(bits);
    let a1 = a0 + p_if(c1, p_i16(cmd.angles.x));
    let a2 = a1 + p_if(c2, p_i16(cmd.angles.y));
    let a3 = a2 + p_if(c3, p_i16(cmd.angles.z));
    let a4 = a3 + p_if(c4, p_i16(cmd.forwardmove));
    let a5 = a4 + p_if(c5, p_i16(cmd.sidemove));
    let a6 = a5 + p_if(c6, p_i16(cmd.upmove));
    let a7 = a6 + p_if(c7, p_u8(cmd.buttons));
    let a8 = a7 + p_if(c8, p_u8(cmd.impulse));
    let a9 = a8 + p_u8(cmd.msec);
    assert(usercmd_parts(from, cmd) == a9);
    lemma_holds_split(d, p, a8, p_u8(cmd.msec));
    lemma_holds_split(d, p, a7, p_if(c8, p_u8(cmd.impulse)));
    lemma_holds_split(d, p, a6, p_if(c7, p_u8(cmd.buttons)));
    lemma_holds_split(d, p, a5, p_if(c6, p_i16(cmd.upmove)));
    lemma_holds_split(d, p, a4, p_if(c5, p_i16(cmd.sidemove)));
    lemma_holds_split(d, p, a3, p_if(c4, p_i16(cmd.forwardmove)));
    lemma_holds_split(d, p, a2, p_if(c3, p_i16(cmd.angles.z)));
    lemma_holds_split(d, p, a1, p_if(c2, p_i16(cmd.angles.y)));
    lemma_holds_split(d, p, a0, p_if(c1, p_i16(cmd.angles.x)));
    lemma_read_u8(d, p, bits);
    lemma_read_opt_i16(d, p + size(a0), c1, cmd.angles.x, from.angles.x);
    lemma_read_opt_i16(d, p + size(a1), c2, cmd.angles.y, from.angles.y);
    lemma_read_opt_i16(d, p + size(a2), c3, cmd.angles.z, from.angles.z);
    lemma_read_opt_i16(d, p + size(a3), c4, cmd.forwardmove, from.forwardmove);
    lemma_read_opt_i16(d, p + size(a4), c5, cmd.sidemove, from.sidemove);
    lemma_read_opt_i16(d, p + size(a5), c6, cmd.upmove, from.upmove);
    lemma_read_opt_u8(d, p + size(a6), c7, cmd.buttons);
    lemma_read_opt_u8(d, p + size(a7), c8, cmd.impulse);
    lemma_read_u8(d, p + size(a8), cmd.msec);
}

/// A baseline can be sent: no number, flags or effects (the message does
/// not carry them) and byte-sized model, frame, colormap and skin.
pub open spec fn baseline_ok(s: EntityState) -> bool {
    &&& s.number == 0 && s.flags == 0 && s.effects == 0
    &&& 0 <= s.modelindex < 256 && 0 <= s.frame < 256 && 0 <= s.colormap < 256 && 0 <= s.skinnum < 256
}

pub proof fn lemma_read_baseline(d: Seq<u8>, p: int, s: EntityState)
    requires
        holds(d, p, baseline_parts(s)),
        baseline_ok(s),
    ensures
        rd_baseline(d, p) == Some((s, p + size(baseline_parts(s)))),
{
    let a0 = p_u8(s.modelindex as u8);
    let a1 = a0 + p_u8(s.frame as u8);
    let a2 = a1 + p_u8(s.colormap as u8);
    let a3 = a2 + p_u8(s.skinnum as u8);
    let a4 = a3 + p_i16(s.origin.x);
    let a5 = a4 + p_i16(s.origin.y);
    let a6 = a5 + p_i16(s.origin.z);
    let a7 = a6 + p_u8(s.angles.x);
    let a8 = a7 + p_u8(s.angles.y);
    let a9 = a8 + p_u8(s.angles.z);
    assert(baseline_parts(s) == a9);
    lemma_holds_split(d, p, a8, p_u8(s.angles.z));
    lemma_holds_split(d, p, a7, p_u8(s.angles.y));
    lemma_holds_split(d, p, a6, p_u8(s.angles.x));
    lemma_holds_split(d, p, a5, p_i16(s.origin.z));
    lemma_holds_split(d, p, a4, p_i16(s.origin.y));
    lemma_holds_split(d, p, a3, p_i16(s.origin.x));
    lemma_holds_split(d, p, a2, p_u8(s.skinnum as u8));
    lemma_holds_split(d, p, a1, p_u8(s.colormap as u8));
    lemma_holds_split(d, p, a0, p_u8(s.frame as u8));
    lemma_read_u8(d, p, s.modelindex as u8);
    lemma_read_u8(d, p + 1, s.frame as u8);
    lemma_read_u8(d, p + 2, s.colormap as u8);
    lemma_read_u8(d, p + 3, s.skinnum as u8);
    lemma_read_i16(d, p + 4, s.origin.x);
    lemma_read_i16(d, p + 6, s.origin.y);
    lemma_read_i16(d, p + 8, s.origin.z);
    lemma_read_u8(d, p + 10, s.angles.x);
    lemma_read_u8(d, p + 11, s.angles.y);
    lemma_read_u8(d, p + 12, s.angles.z);
}

pub proof fn lemma_read_movevars(d: Seq<u8>, p: int, m: MoveVars)
    requires
        holds(d, p, movevars_parts(m)),
    ensures
        rd_movevars(d, p) == Some((m, p + size(movevars_parts(m)))),
{
    let a0 = p_u32(m.gravity);
    let a1 = a0 + p_u32(m.stopspeed);
    let a2 = a1 + p_u32(m.maxspeed);
    let a3 = a2 + p_u32(m.spectatormaxspeed);
    let a4 = a3 + p_u32(m.accelerate);
    let a5 = a4 + p_u32(m.airaccelerate);
    let a6 = a5 + p_u32(m.wateraccelerate);
    let a7 = a6 + p_u32(m.friction);
    let a8 = a7 + p_u32(m.waterfriction);
    let a9 = a8 + p_u32(m.entgravity);
    assert(movevars_parts(m) == a9);
    lemma_holds_split(d, p, a8, p_u32(m.entgravity));
    lemma_holds_split(d, p, a7, p_u32(m.waterfriction));
    lemma_holds_split(d, p, a6, p_u32(m.friction));
    lemma_holds_split(d, p, a5, p_u32(m.wateraccelerate));
    lemma_holds_split(d, p, a4, p_u32(m.airaccelerate));
    lemma_holds_split(d, p, a3, p_u32(m.accelerate));
    lemma_holds_split(d, p, a2, p_u32(m.spectatormaxspeed));
    lemma_holds_split(d, p, a1, p_u32(m.maxspeed));
    lemma_holds_split(d, p, a0, p_u32(m.stopspeed));
    lemma_read_u32(d, p, m.gravity);
    lemma_read_u32(d, p + 4, m.stopspeed);
    lemma_read_u32(d, p + 8, m.maxspeed);
    lemma_read_u32(d, p + 12, m.spectatormaxspeed);
    lemma_read_u32(d, p + 16, m.accelerate);
    lemma_read_u32(d, p + 20, m.airaccelerate);
    lemma_read_u32(d, p + 24, m.wateraccelerate);
    lemma_read_u32(d, p + 28, m.friction);
    lemma_read_u32(d, p + 32, m.waterfriction);
    lemma_read_u32(d, p + 36, m.entgravity);
}

/// Server data can be sent: our protocol, texts without NUL, and a player
/// number that fits below the spectator bit.
pub open spec fn serverdata_ok(v: ServerDataView) -> bool {
    &&& v.protocol == PROTOCOL_VERSION
    &&& !v.game_dir.contains('\0') && !v.level_name.contains('\0')
    &&& v.player_num < 128
}

proof fn lemma_player_byte(n: u8, spectator: bool)
    requires
        n < 128,
    ensures
        ({
            let b = (n & 0x7f) | flag_u8(spectator, 0x80);
            &&& (b & 0x80 != 0) == spectator
            &&& (if b & 0x80 != 0 { b & 0x7f } else { b }) == n
        }),
{
    let f = flag_u8(spectator, 0x80);
    assert({
        let b = (n & 0x7f) | f;
        &&& (b & 0x80 != 0) == (f != 0)
        &&& (if b & 0x80 != 0 { b & 0x7f } else { b }) == n
    }) by (bit_vector)
        requires
            n < 128,
            f == 0 || f == 0x80,
    ;
}

pub proof fn lemma_read_serverdata(d: Seq<u8>, p: int, v: ServerDataView)
    requires
        holds(d, p, serverdata_parts(v)),
        serverdata_ok(v),
    ensures
        rd_serverdata(d, p) == Ok::<_, crate::client_messages::ServerDataError>((v, p + size(serverdata_parts(v)))),
{
    let player = (v.player_num & 0x7f) | flag_u8(v.spectator, 0x80);
    let a0 = p_i32(v.protocol);
    let a1 = a0 + p_i32(v.server_count);
    let a2 = a1 + p_str(v.game_dir);
    let a3 = a2 + p_u8(player);
    let a4 = a3 + p_str(v.level_name);
    let a5 = a4 + movevars_parts(v.movevars);
    assert(serverdata_parts(v) == a5);
    lemma_holds_split(d, p, a4, movevars_parts(v.movevars));
    lemma_holds_split(d, p, a3, p_str(v.level_name));
    lemma_holds_split(d, p, a2, p_u8(player));
    lemma_holds_split(d, p, a1, p_str(v.game_dir));
    lemma_holds_split(d, p, a0, p_i32(v.server_count));
    lemma_read_i32(d, p, v.protocol);
    lemma_read_i32(d, p + 4, v.server_count);
    lemma_read_string(d, p + size(a1), v.game_dir);
    lemma_read_u8(d, p + size(a2), player);
    lemma_read_string(d, p + size(a3), v.level_name);
    lemma_read_movevars(d, p + size(a4), v.movevars);
    lemma_player_byte(v.player_num, v.spectator);
}

/// A list chunk reads back as itself.
pub proof fn lemma_read_chunk(d: Seq<u8>, p: int, start: u8, items: Seq<Seq<char>>, next: u8)
    requires
        holds(d, p, chunk_parts(start, items, next)),
        listable(items),
    ensures
        spec_string_list_chunk(d, p) == Some((start, items, next, p + size(chunk_parts(start, items, next)))),
{
    reveal(holds);
    reveal(size);
    let bytes = concat_parts(chunk_parts(start, items, next));
    let prefix = d.take(p);
    let rest = d.skip(p + bytes.len());
    assert(d =~= prefix + bytes + rest) by {
        assert forall|j: int| 0 <= j < d.len() implies d[j] == (prefix + bytes + rest)[j] by {
            if p <= j < p + bytes.len() {
                assert(d.subrange(p, p + bytes.len())[j - p] == d[j]);
            }
        }
    }
    let b = SizeBufView { data: prefix, maxsize: (prefix.len() + bytes.len()) as nat, allow_overflow: false, overflowed: false };
    law_string_list_round_trip(b, start, items, next, rest);
}

pub proof fn lemma_read_some_u8(d: Seq<u8>, p: int, v: Option<u8>, c: bool)
    requires
        holds(d, p, p_opt_u8(v)),
        c == v is Some,
    ensures
        rd_opt_u8(d, p, c) == Some((v, p + size(p_opt_u8(v)))),
        size(p_opt_u8(v)) == if c { 1int } else { 0int },
{
    reveal(size);
    match v {
        Some(x) => {
            lemma_read_u8(d, p, x);
        },
        None => {},
    }
}

pub proof fn lemma_read_some_i16(d: Seq<u8>, p: int, v: Option<i16>, c: bool)
    requires
        holds(d, p, p_opt_i16(v)),
        c == v is Some,
    ensures
        rd_opt16(d, p, c) == Some((v, p + size(p_opt_i16(v)))),
        size(p_opt_i16(v)) == if c { 2int } else { 0int },
{
    reveal(size);
    match v {
        Some(x) => {
            lemma_read_i16(d, p, x);
        },
        None => {},
    }
}

proof fn lemma_delta_flag_bits(
    n: u16,
    f: u16,
    f1: u16, f2: u16, f3: u16, f4: u16, f5: u16, f6: u16,
    g1: u8, g2: u8, g3: u8, g4: u8, g5: u8, g6: u8, g7: u8,
)
    requires
        f1 == 0 || f1 == 0x200,
        f2 == 0 || f2 == 0x400,
        f3 == 0 || f3 == 0x800,
        f4 == 0 || f4 == 0x1000,
        f5 == 0 || f5 == 0x2000,
        f6 == 0 || f6 == 0x4000,
        g1 == 0 || g1 == 0x1,
        g2 == 0 || g2 == 0x2,
        g3 == 0 || g3 == 0x4,
        g4 == 0 || g4 == 0x8,
        g5 == 0 || g5 == 0x10,
        g6 == 0 || g6 == 0x20,
        g7 == 0 || g7 == 0x40,
        f == if (g1 | g2 | g3 | g4 | g5 | g6 | g7) != 0 {
            (f1 | f2 | f3 | f4 | f5 | f6) | 0x8000u16 | ((g1 | g2 | g3 | g4 | g5 | g6 | g7) as u16)
        } else {
            f1 | f2 | f3 | f4 | f5 | f6
        },
    ensures
        ((n & 0x1ffu16) | (f & 0xfe00u16)) & 0xfe00u16 == f & 0xfe00u16,
        ((n & 0x1ffu16) | (f & 0xfe00u16)) & 0x1ffu16 == n & 0x1ffu16,
        (f & 0x8000u16 != 0) ==> ((f & 0xfe00u16) | (((f & 0xffu16) as u8) as u16)) == f,
        (f & 0x8000u16 == 0) ==> (f & 0xfe00u16) == f,
        (f & 0x200u16 != 0) == (f1 != 0),
        (f & 0x400u16 != 0) == (f2 != 0),
        (f & 0x800u16 != 0) == (f3 != 0),
        (f & 0x1000u16 != 0) == (f4 != 0),
        (f & 0x2000u16 != 0) == (f5 != 0),
        (f & 0x4000u16 != 0) == (f6 != 0),
        (f & 0x1u16 != 0) == (g1 != 0),
        (f & 0x2u16 != 0) == (g2 != 0),
        (f & 0x4u16 != 0) == (g3 != 0),
        (f & 0x8u16 != 0) == (g4 != 0),
        (f & 0x10u16 != 0) == (g5 != 0),
        (f & 0x20u16 != 0) == (g6 != 0),
        (f & 0x40u16 != 0) == (g7 != 0),
        (f != 0) ==> (f & 0xfe00u16 != 0),
{
    assert(
        (((n & 0x1ffu16) | (f & 0xfe00u16)) & 0xfe00u16 == f & 0xfe00u16)
        && (((n & 0x1ffu16) | (f & 0xfe00u16)) & 0x1ffu16 == n & 0x1ffu16)
        && ((f & 0x8000u16 != 0) ==> ((f & 0xfe00u16) | (((f & 0xffu16) as u8) as u16)) == f)
        && ((f & 0x8000u16 == 0) ==> (f & 0xfe00u16) == f)
        && ((f & 0x200u16 != 0) == (f1 != 0))
        && ((f & 0x400u16 != 0) == (f2 != 0))
        && ((f & 0x800u16 != 0) == (f3 != 0))
        && ((f & 0x1000u16 != 0) == (f4 != 0))
        && ((f & 0x2000u16 != 0) == (f5 != 0))
        && ((f & 0x4000u16 != 0) == (f6 != 0))
        && ((f & 0x1u16 != 0) == (g1 != 0))
        && ((f & 0x2u16 != 0) == (g2 != 0))
        && ((f & 0x4u16 != 0) == (g3 != 0))
        && ((f & 0x8u16 != 0) == (g4 != 0))
        && ((f & 0x10u16 != 0) == (g5 != 0))
        && ((f & 0x20u16 != 0) == (g6 != 0))
        && ((f & 0x40u16 != 0) == (g7 != 0))
        && ((f != 0) ==> (f & 0xfe00u16 != 0))
    ) by (bit_vector)
        requires
            f1 == 0 || f1 == 0x200,
            f2 == 0 || f2 == 0x400,
            f3 == 0 || f3 == 0x800,
            f4 == 0 || f4 == 0x1000,
            f5 == 0 || f5 == 0x2000,
            f6 == 0 || f6 == 0x4000,
            g1 == 0 || g1 == 0x1,
            g2 == 0 || g2 == 0x2,
            g3 == 0 || g3 == 0x4,
            g4 == 0 || g4 == 0x8,
            g5 == 0 || g5 == 0x10,
            g6 == 0 || g6 == 0x20,
            g7 == 0 || g7 == 0x40,
            f == if (g1 | g2 | g3 | g4 | g5 | g6 | g7) != 0 {
                (f1 | f2 | f3 | f4 | f5 | f6) | 0x8000u16 | ((g1 | g2 | g3 | g4 | g5 | g6 | g7) as u16)
            } else {
                f1 | f2 | f3 | f4 | f5 | f6
            },
    ;
}

/// The flags an entity update is sent with name exactly the fields it
/// carries; the first word gives back the flags' high part and the
/// number's low nine bits, and the extra byte, when sent, the rest.
pub proof fn lemma_delta_flags(e: EntityDelta)
    ensures
        ({
            let f = delta_flags(e);
            let w = (e.number & 0x1ffu16) | (f & 0xfe00u16);
            &&& w & 0xfe00u16 == f & 0xfe00u16
            &&& w & 0x1ffu16 == e.number & 0x1ffu16
            &&& (f & U_MOREBITS != 0) ==> ((f & 0xfe00u16) | (((f & 0xffu16) as u8) as u16)) == f
            &&& (f & U_MOREBITS == 0) ==> (f & 0xfe00u16) == f
            &&& (f & U_ORIGIN1 != 0) == e.origin_x is Some
            &&& (f & U_ORIGIN2 != 0) == e.origin_y is Some
            &&& (f & U_ORIGIN3 != 0) == e.origin_z is Some
            &&& (f & U_ANGLE2 != 0) == e.angle_y is Some
            &&& (f & U_FRAME != 0) == e.frame is Some
            &&& (f & U_REMOVE != 0) == e.remove
            &&& (f & (U_ANGLE1 as u16) != 0) == e.angle_x is Some
            &&& (f & (U_ANGLE3 as u16) != 0) == e.angle_z is Some
            &&& (f & (U_MODEL as u16) != 0) == e.model_index is Some
            &&& (f & (U_COLORMAP as u16) != 0) == e.colormap is Some
            &&& (f & (U_SKIN as u16) != 0) == e.skin_num is Some
            &&& (f & (U_EFFECTS as u16) != 0) == e.effects is Some
            &&& (f & (U_SOLID as u16) != 0) == e.solid
            &&& (f != 0) ==> (f & 0xfe00u16 != 0)
        }),
{
    let f1 = flag_u16(e.origin_x is Some, U_ORIGIN1);
    let f2 = flag_u16(e.origin_y is Some, U_ORIGIN2);
    let f3 = flag_u16(e.origin_z is Some, U_ORIGIN3);
    let f4 = flag_u16(e.angle_y is Some, U_ANGLE2);
    let f5 = flag_u16(e.frame is Some, U_FRAME);
    let f6 = flag_u16(e.remove, U_REMOVE);
    let g1 = flag_u8(e.angle_x is Some, U_ANGLE1);
    let g2 = flag_u8(e.angle_z is Some, U_ANGLE3);
    let g3 = flag_u8(e.model_index is Some, U_MODEL);
    let g4 = flag_u8(e.colormap is Some, U_COLORMAP);
    let g5 = flag_u8(e.skin_num is Some, U_SKIN);
    let g6 = flag_u8(e.effects is Some, U_EFFECTS);
    let g7 = flag_u8(e.solid, U_SOLID);
    let low = f1 | f2 | f3 | f4 | f5 | f6;
    let more = g1 | g2 | g3 | g4 | g5 | g6 | g7;
    assert(delta_flags(e) == if more != 0 { low | 0x8000u16 | (more as u16) } else { low });
    let f = delta_flags(e);
    assert((f1 != 0) == e.origin_x is Some && (f2 != 0) == e.origin_y is Some && (f3 != 0) == e.origin_z is Some);
    assert((f4 != 0) == e.angle_y is Some && (f5 != 0) == e.frame is Some && (f6 != 0) == e.remove);
    assert((g1 != 0) == e.angle_x is Some && (g2 != 0) == e.angle_z is Some && (g3 != 0) == e.model_index is Some);
    assert((g4 != 0) == e.colormap is Some && (g5 != 0) == e.skin_num is Some && (g6 != 0) == e.effects is Some);
    assert((g7 != 0) == e.solid);
    lemma_delta_flag_bits(e.number, f, f1, f2, f3, f4, f5, f6, g1, g2, g3, g4, g5, g6, g7);
}

/// An entity update can be sent: its number fits the word's nine bits,
/// its flags are the ones its fields call for, and its first word is not
/// the zero that ends a list.
pub open spec fn entity_ok(e: EntityDelta) -> bool {
    &&& e.number < 512
    &&& e.flags == delta_flags(e)
    &&& (e.number != 0 || delta_flags(e) != 0)
}

proof fn lemma_number_bits(n: u16, w: u16, f: u16)
    requires
        n < 512,
        w & 0x1ffu16 == n & 0x1ffu16,
        w & 0xfe00u16 == f & 0xfe00u16,
        n != 0 || f & 0xfe00u16 != 0,
    ensures
        w & 0x1ffu16 == n,
        w != 0,
{
    assert(w & 0x1ffu16 == n && w != 0) by (bit_vector)
        requires
            n < 512,
            w & 0x1ffu16 == n & 0x1ffu16,
            w & 0xfe00u16 == f & 0xfe00u16,
            n != 0 || f & 0xfe00u16 != 0,
    ;
}

proof fn lemma_more_bit(f: u16)
    ensures
        ((f & 0xfe00u16) & 0x8000u16 != 0) == (f & 0x8000u16 != 0),
{
    assert(((f & 0xfe00u16) & 0x8000u16 != 0) == (f & 0x8000u16 != 0)) by (bit_vector);
}

pub open spec fn delta_head_parts(e: EntityDelta) -> Seq<Seq<u8>> {
    p_u16((e.number & 0x1ffu16) | (delta_flags(e) & 0xfe00u16))
        + p_if(delta_flags(e) & U_MOREBITS != 0, p_u8((delta_flags(e) & 0xffu16) as u8))
}

pub open spec fn delta_byte_parts(e: EntityDelta) -> Seq<Seq<u8>> {
    p_opt_u8(e.model_index) + p_opt_u8(e.frame) + p_opt_u8(e.colormap) + p_opt_u8(e.skin_num) + p_opt_u8(e.effects)
}

pub open spec fn delta_move_parts(e: EntityDelta) -> Seq<Seq<u8>> {
    p_opt_i16(e.origin_x) + p_opt_u8(e.angle_x) + p_opt_i16(e.origin_y) + p_opt_u8(e.angle_y) + p_opt_i16(e.origin_z)
        + p_opt_u8(e.angle_z)
}

proof fn lemma_read_delta_head(d: Seq<u8>, p: int, e: EntityDelta)
    requires
        holds(d, p, delta_head_parts(e)),
        entity_ok(e),
    ensures
        rd_u16(d, p) == Some(((e.number & 0x1ffu16) | (delta_flags(e) & 0xfe00u16), p + 2)),
        (e.number & 0x1ffu16) | (delta_flags(e) & 0xfe00u16) != 0,
        ((e.number & 0x1ffu16) | (delta_flags(e) & 0xfe00u16)) & 0x1ffu16 == e.number,
        rd_delta_bits(d, p + 2, (e.number & 0x1ffu16) | (delta_flags(e) & 0xfe00u16))
            == Some((delta_flags(e), p + size(delta_head_parts(e)))),
        (delta_flags(e) & U_ORIGIN1 != 0) == e.origin_x is Some,
        (delta_flags(e) & U_ORIGIN2 != 0) == e.origin_y is Some,
        (delta_flags(e) & U_ORIGIN3 != 0) == e.origin_z is Some,
        (delta_flags(e) & U_ANGLE2 != 0) == e.angle_y is Some,
        (delta_flags(e) & U_FRAME != 0) == e.frame is Some,
        (delta_flags(e) & U_REMOVE != 0) == e.remove,
        (delta_flags(e) & (U_ANGLE1 as u16) != 0) == e.angle_x is Some,
        (delta_flags(e) & (U_ANGLE3 as u16) != 0) == e.angle_z is Some,
        (delta_flags(e) & (U_MODEL as u16) != 0) == e.model_index is Some,
        (delta_flags(e) & (U_COLORMAP as u16) != 0) == e.colormap is Some,
        (delta_flags(e) & (U_SKIN as u16) != 0) == e.skin_num is Some,
        (delta_flags(e) & (U_EFFECTS as u16) != 0) == e.effects is Some,
        (delta_flags(e) & (U_SOLID as u16) != 0) == e.solid,
{
    let f = delta_flags(e);
    let w = (e.number & 0x1ffu16) | (f & 0xfe00u16);
    lemma_delta_flags(e);
    lemma_number_bits(e.number, w, f);
    lemma_more_bit(f);
    let mb = f & U_MOREBITS != 0;
    lemma_holds_split(d, p, p_u16(w), p_if(mb, p_u8((f & 0xffu16) as u8)));
    lemma_read_u16(d, p, w);
    lemma_read_opt_u8(d, p + 2, mb, (f & 0xffu16) as u8);
}

proof fn lemma_read_delta_bytes(d: Seq<u8>, p: int, e: EntityDelta, f: u16)
    requires
        holds(d, p, delta_byte_parts(e)),
        (f & (U_MODEL as u16) != 0) == e.model_index is Some,
        (f & U_FRAME != 0) == e.frame is Some,
        (f & (U_COLORMAP as u16) != 0) == e.colormap is Some,
        (f & (U_SKIN as u16) != 0) == e.skin_num is Some,
        (f & (U_EFFECTS as u16) != 0) == e.effects is Some,
    ensures
        rd_delta_bytes(d, p, f) == Some(((e.model_index, e.frame, e.colormap, e.skin_num, e.effects), p + size(delta_byte_parts(e)))),
{
    let a0 = p_opt_u8(e.model_index);
    let a1 = a0 + p_opt_u8(e.frame);
    let a2 = a1 + p_opt_u8(e.colormap);
    let a3 = a2 + p_opt_u8(e.skin_num);
    let a4 = a3 + p_opt_u8(e.effects);
    lemma_holds_split(d, p, a3, p_opt_u8(e.effects));
    lemma_holds_split(d, p, a2, p_opt_u8(e.skin_num));
    lemma_holds_split(d, p, a1, p_opt_u8(e.colormap));
    lemma_holds_split(d, p, a0, p_opt_u8(e.frame));
    lemma_read_some_u8(d, p, e.model_index, f & (U_MODEL as u16) != 0);
    lemma_read_some_u8(d, p + size(a0), e.frame, f & U_FRAME != 0);
    lemma_read_some_u8(d, p + size(a1), e.colormap, f & (U_COLORMAP as u16) != 0);
    lemma_read_some_u8(d, p + size(a2), e.skin_num, f & (U_SKIN as u16) != 0);
    lemma_read_some_u8(d, p + size(a3), e.effects, f & (U_EFFECTS as u16) != 0);
}

#[verifier::rlimit(80)]
proof fn lemma_read_delta_moves(d: Seq<u8>, p: int, e: EntityDelta, f: u16)
    requires
        holds(d, p, delta_move_parts(e)),
        (f & U_ORIGIN1 != 0) == e.origin_x is Some,
        (f & U_ORIGIN2 != 0) == e.origin_y is Some,
        (f & U_ORIGIN3 != 0) == e.origin_z is Some,
        (f & (U_ANGLE1 as u16) != 0) == e.angle_x is Some,
        (f & U_ANGLE2 != 0) == e.angle_y is Some,
        (f & (U_ANGLE3 as u16) != 0) == e.angle_z is Some,
    ensures
        rd_delta_moves(d, p, f) == Some(((e.origin_x, e.angle_x, e.origin_y, e.angle_y, e.origin_z, e.angle_z), p + size(delta_move_parts(e)))),
{
    let a0 = p_opt_i16(e.origin_x);
    let a1 = a0 + p_opt_u8(e.angle_x);
    let a2 = a1 + p_opt_i16(e.origin_y);
    let a3 = a2 + p_opt_u8(e.angle_y);
    let a4 = a3 + p_opt_i16(e.origin_z);
    let a5 = a4 + p_opt_u8(e.angle_z);
    lemma_holds_split(d, p, a4, p_opt_u8(e.angle_z));
    lemma_holds_split(d, p, a3, p_opt_i16(e.origin_z));
    lemma_holds_split(d, p, a2, p_opt_u8(e.angle_y));
    lemma_holds_split(d, p, a1, p_opt_i16(e.origin_y));
    lemma_holds_split(d, p, a0, p_opt_u8(e.angle_x));
    lemma_read_some_i16(d, p, e.origin_x, f & U_ORIGIN1 != 0);
    lemma_read_some_u8(d, p + size(a0), e.angle_x, f & (U_ANGLE1 as u16) != 0);
    lemma_read_some_i16(d, p + size(a1), e.origin_y, f & U_ORIGIN2 != 0);
    lemma_read_some_u8(d, p + size(a2), e.angle_y, f & U_ANGLE2 != 0);
    lemma_read_some_i16(d, p + size(a3), e.origin_z, f & U_ORIGIN3 != 0);
    lemma_read_some_u8(d, p + size(a4), e.angle_z, f & (U_ANGLE3 as u16) != 0);
}

proof fn lemma_assoc(x: Seq<Seq<u8>>, y: Seq<Seq<u8>>, z: Seq<Seq<u8>>)
    ensures
        x + y + z == x + (y + z),
{
    assert(x + y + z =~= x + (y + z));
}

proof fn lemma_entity_parts_split(e: EntityDelta)
    ensures
        entity_parts(e) == delta_head_parts(e) + delta_byte_parts(e) + delta_move_parts(e),
{
    let h = delta_head_parts(e);
    let b1 = p_opt_u8(e.model_index);
    let b2 = p_opt_u8(e.frame);
    let b3 = p_opt_u8(e.colormap);
    let b4 = p_opt_u8(e.skin_num);
    let b5 = p_opt_u8(e.effects);
    lemma_assoc(h, b1, b2);
    lemma_assoc(h, b1 + b2, b3);
    lemma_assoc(h, b1 + b2 + b3, b4);
    lemma_assoc(h, b1 + b2 + b3 + b4, b5);
    let x = h + delta_byte_parts(e);
    let m1 = p_opt_i16(e.origin_x);
    let m2 = p_opt_u8(e.angle_x);
    let m3 = p_opt_i16(e.origin_y);
    let m4 = p_opt_u8(e.angle_y);
    let m5 = p_opt_i16(e.origin_z);
    let m6 = p_opt_u8(e.angle_z);
    lemma_assoc(x, m1, m2);
    lemma_assoc(x, m1 + m2, m3);
    lemma_assoc(x, m1 + m2 + m3, m4);
    lemma_assoc(x, m1 + m2 + m3 + m4, m5);
    lemma_assoc(x, m1 + m2 + m3 + m4 + m5, m6);
}

/// An entity update reads back as itself: its first word is not zero, and
/// the rest read against that word gives the update.
#[verifier::rlimit(80)]
pub proof fn lemma_read_entity_delta(d: Seq<u8>, p: int, e: EntityDelta)
    requires
        holds(d, p, entity_parts(e)),
        entity_ok(e),
    ensures
        rd_u16(d, p) == Some(((e.number & 0x1ffu16) | (delta_flags(e) & 0xfe00u16), p + 2)),
        (e.number & 0x1ffu16) | (delta_flags(e) & 0xfe00u16) != 0,
        rd_entity_delta(d, p + 2, (e.number & 0x1ffu16) | (delta_flags(e) & 0xfe00u16))
            == Some((e, p + size(entity_parts(e)))),
{
    let f = delta_flags(e);
    let w = (e.number & 0x1ffu16) | (f & 0xfe00u16);
    let h = delta_head_parts(e);
    let bp = delta_byte_parts(e);
    let mp = delta_move_parts(e);
    lemma_entity_parts_split(e);
    lemma_holds_split(d, p, h + bp, mp);
    lemma_holds_split(d, p, h, bp);
    lemma_read_delta_head(d, p, e);
    lemma_read_delta_bytes(d, p + size(h), e, f);
    lemma_read_delta_moves(d, p + size(h + bp), e, f);
    assert(rd_delta_fields(d, p + size(h), w & 0x1ffu16, f) == Some((e, p + size(h + bp + mp))));
}

proof fn lemma_entities_front(es: Seq<EntityDelta>)
    requires
        es.len() > 0,
    ensures
        entities_parts(es) == entity_parts(es[0]) + entities_parts(es.drop_first()),
    decreases es.len(),
{
    if es.len() == 1 {
        assert(es.drop_last() =~= Seq::<EntityDelta>::empty());
        assert(es.drop_first() =~= Seq::<EntityDelta>::empty());
        assert(entities_parts(es) =~= entity_parts(es[0]) + entities_parts(es.drop_first()));
    } else {
        lemma_entities_front(es.drop_last());
        assert(es.drop_last().drop_first() =~= es.drop_first().drop_last());
        assert(es.drop_last()[0] == es[0]);
        assert(es.drop_first().last() == es.last());
        lemma_assoc(entity_parts(es[0]), entities_parts(es.drop_first().drop_last()), entity_parts(es.last()));
    }
}

/// A list of entity updates followed by the zero word reads back as the
/// list.
pub proof fn lemma_read_entity_list(d: Seq<u8>, p: int, es: Seq<EntityDelta>)
    requires
        holds(d, p, entities_parts(es) + p_u16(0)),
        forall|i: int| 0 <= i < es.len() ==> entity_ok(#[trigger] es[i]),
    ensures
        rd_entity_list(d, p) == Some((es, p + size(entities_parts(es) + p_u16(0)))),
    decreases es.len(),
{
    if es.len() == 0 {
        assert(entities_parts(es) + p_u16(0) =~= p_u16(0));
        lemma_read_u16(d, p, 0);
    } else {
        let e = es[0];
        let tail = es.drop_first();
        lemma_entities_front(es);
        lemma_assoc(entity_parts(e), entities_parts(tail), p_u16(0));
        lemma_holds_split(d, p, entity_parts(e), entities_parts(tail) + p_u16(0));
        assert(entity_ok(e));
        lemma_read_entity_delta(d, p, e);
        assert forall|i: int| 0 <= i < tail.len() implies entity_ok(#[trigger] tail[i]) by {
            assert(tail[i] == es[i + 1]);
        }
        lemma_read_entity_list(d, p + size(entity_parts(e)), tail);
        assert(seq![e] + tail =~= es);
    }
}

/// A player's info can be sent: each optional field is present exactly
/// when its flag is set, and a velocity component without its flag is zero
/// (the reader's default).
pub open spec fn player_ok(pi: PlayerInfoMessage) -> bool {
    let f = pi.flags as u32;
    &&& (f & PF_MSEC != 0) == pi.msec is Some
    &&& (f & PF_COMMAND != 0) == pi.command is Some
    &&& (f & PF_VELOCITY1 == 0 ==> pi.velocity.x == 0)
    &&& (f & PF_VELOCITY2 == 0 ==> pi.velocity.y == 0)
    &&& (f & PF_VELOCITY3 == 0 ==> pi.velocity.z == 0)
    &&& (f & PF_MODEL != 0) == pi.model_index is Some
    &&& (f & PF_SKINNUM != 0) == pi.skin_num is Some
    &&& (f & PF_EFFECTS != 0) == pi.effects is Some
    &&& (f & PF_WEAPONFRAME != 0) == pi.weapon_frame is Some
}

pub open spec fn pi_fixed_parts(pi: PlayerInfoMessage) -> Seq<Seq<u8>> {
    p_u8(pi.num) + p_u16(pi.flags) + p_i16(pi.origin.x) + p_i16(pi.origin.y) + p_i16(pi.origin.z) + p_u8(pi.frame)
}

pub open spec fn pi_command(pi: PlayerInfoMessage) -> UserCmd {
    match pi.command {
        Some(c) => c,
        None => zero_cmd(),
    }
}

pub open spec fn pi_motion_parts(pi: PlayerInfoMessage) -> Seq<Seq<u8>> {
    let f = pi.flags as u32;
    p_if(f & PF_MSEC != 0, p_u8(or_zero(pi.msec))) + p_if(f & PF_COMMAND != 0, usercmd_parts(zero_cmd(), pi_command(pi)))
        + p_if(f & PF_VELOCITY1 != 0, p_i16(pi.velocity.x)) + p_if(f & PF_VELOCITY2 != 0, p_i16(pi.velocity.y))
        + p_if(f & PF_VELOCITY3 != 0, p_i16(pi.velocity.z))
}

pub open spec fn pi_looks_parts(pi: PlayerInfoMessage) -> Seq<Seq<u8>> {
    let f = pi.flags as u32;
    p_if(f & PF_MODEL != 0, p_u8(or_zero(pi.model_index))) + p_if(f & PF_SKINNUM != 0, p_u8(or_zero(pi.skin_num)))
        + p_if(f & PF_EFFECTS != 0, p_u8(or_zero(pi.effects))) + p_if(f & PF_WEAPONFRAME != 0, p_u8(or_zero(pi.weapon_frame)))
}

proof fn lemma_player_parts_split(pi: PlayerInfoMessage)
    ensures
        player_info_parts(pi) == pi_fixed_parts(pi) + pi_motion_parts(pi) + pi_looks_parts(pi),
{
    let f = pi.flags as u32;
    let x = pi_fixed_parts(pi);
    let m1 = p_if(f & PF_MSEC != 0, p_u8(or_zero(pi.msec)));
    let m2 = p_if(f & PF_COMMAND != 0, usercmd_parts(zero_cmd(), pi_command(pi)));
    let m3 = p_if(f & PF_VELOCITY1 != 0, p_i16(pi.velocity.x));
    let m4 = p_if(f & PF_VELOCITY2 != 0, p_i16(pi.velocity.y));
    let m5 = p_if(f & PF_VELOCITY3 != 0, p_i16(pi.velocity.z));
    lemma_assoc(x, m1, m2);
    lemma_assoc(x, m1 + m2, m3);
    lemma_assoc(x, m1 + m2 + m3, m4);
    lemma_assoc(x, m1 + m2 + m3 + m4, m5);
    let y = x + pi_motion_parts(pi);
    let l1 = p_if(f & PF_MODEL != 0, p_u8(or_zero(pi.model_index)));
    let l2 = p_if(f & PF_SKINNUM != 0, p_u8(or_zero(pi.skin_num)));
    let l3 = p_if(f & PF_EFFECTS != 0, p_u8(or_zero(pi.effects)));
    let l4 = p_if(f & PF_WEAPONFRAME != 0, p_u8(or_zero(pi.weapon_frame)));
    lemma_assoc(y, l1, l2);
    lemma_assoc(y, l1 + l2, l3);
    lemma_assoc(y, l1 + l2 + l3, l4);
}

proof fn lemma_read_pi_fixed(d: Seq<u8>, p: int, pi: PlayerInfoMessage)
    requires
        holds(d, p, pi_fixed_parts(pi)),
    ensures
        size(pi_fixed_parts(pi)) == 10,
        0 <= p && p + 10 <= d.len(),
        d[p] == pi.num,
        u16_at(d, p + 1) == pi.flags,
        u16_at(d, p + 3) as i16 == pi.origin.x,
        u16_at(d, p + 5) as i16 == pi.origin.y,
        u16_at(d, p + 7) as i16 == pi.origin.z,
        d[p + 9] == pi.frame,
{
    let a0 = p_u8(pi.num);
    let a1 = a0 + p_u16(pi.flags);
    let a2 = a1 + p_i16(pi.origin.x);
    let a3 = a2 + p_i16(pi.origin.y);
    let a4 = a3 + p_i16(pi.origin.z);
    lemma_holds_split(d, p, a4, p_u8(pi.frame));
    lemma_holds_split(d, p, a3, p_i16(pi.origin.z));
    lemma_holds_split(d, p, a2, p_i16(pi.origin.y));
    lemma_holds_split(d, p, a1, p_i16(pi.origin.x));
    lemma_holds_split(d, p, a0, p_u16(pi.flags));
    lemma_read_u8(d, p, pi.num);
    lemma_read_u16(d, p + 1, pi.flags);
    lemma_read_i16(d, p + 3, pi.origin.x);
    lemma_read_i16(d, p + 5, pi.origin.y);
    lemma_read_i16(d, p + 7, pi.origin.z);
    lemma_read_u8(d, p + 9, pi.frame);
}

proof fn lemma_read_opt_parts_empty(d: Seq<u8>, p: int, x: Seq<Seq<u8>>)
    ensures
        size(p_if(false, x)) == 0,
        holds(d, p, x) ==> size(p_if(true, x)) == size(x),
{
    reveal(size);
}

#[verifier::rlimit(80)]
proof fn lemma_read_pi_motion(d: Seq<u8>, p: int, pi: PlayerInfoMessage)
    requires
        holds(d, p, pi_motion_parts(pi)),
        player_ok(pi),
    ensures
        rd_player_motion(d, p, pi.flags) == Some(((pi.msec, pi.command, pi.velocity), p + size(pi_motion_parts(pi)))),
{
    let f = pi.flags as u32;
    let cc = f & PF_COMMAND != 0;
    let cmdp = usercmd_parts(zero_cmd(), pi_command(pi));
    let m1 = p_if(f & PF_MSEC != 0, p_u8(or_zero(pi.msec)));
    let m2 = p_if(cc, cmdp);
    let m3 = p_if(f & PF_VELOCITY1 != 0, p_i16(pi.velocity.x));
    let m4 = p_if(f & PF_VELOCITY2 != 0, p_i16(pi.velocity.y));
    let m5 = p_if(f & PF_VELOCITY3 != 0, p_i16(pi.velocity.z));
    lemma_holds_split(d, p, m1 + m2 + m3 + m4, m5);
    lemma_holds_split(d, p, m1 + m2 + m3, m4);
    lemma_holds_split(d, p, m1 + m2, m3);
    lemma_holds_split(d, p, m1, m2);
    lemma_read_opt_u8(d, p, f & PF_MSEC != 0, or_zero(pi.msec));
    let p1 = p + size(m1);
    lemma_read_opt_parts_empty(d, p1, cmdp);
    if cc {
        lemma_read_delta_usercmd(d, p1, zero_cmd(), pi_command(pi));
    }
    lemma_read_opt_i16(d, p + size(m1 + m2), f & PF_VELOCITY1 != 0, pi.velocity.x, 0);
    lemma_read_opt_i16(d, p + size(m1 + m2 + m3), f & PF_VELOCITY2 != 0, pi.velocity.y, 0);
    lemma_read_opt_i16(d, p + size(m1 + m2 + m3 + m4), f & PF_VELOCITY3 != 0, pi.velocity.z, 0);
}

proof fn lemma_read_pi_looks(d: Seq<u8>, p: int, pi: PlayerInfoMessage)
    requires
        holds(d, p, pi_looks_parts(pi)),
        player_ok(pi),
    ensures
        rd_player_looks(d, p, pi.flags) == Some(((pi.model_index, pi.skin_num, pi.effects, pi.weapon_frame), p + size(pi_looks_parts(pi)))),
{
    let f = pi.flags as u32;
    let l1 = p_if(f & PF_MODEL != 0, p_u8(or_zero(pi.model_index)));
    let l2 = p_if(f & PF_SKINNUM != 0, p_u8(or_zero(pi.skin_num)));
    let l3 = p_if(f & PF_EFFECTS != 0, p_u8(or_zero(pi.effects)));
    let l4 = p_if(f & PF_WEAPONFRAME != 0, p_u8(or_zero(pi.weapon_frame)));
    lemma_holds_split(d, p, l1 + l2 + l3, l4);
    lemma_holds_split(d, p, l1 + l2, l3);
    lemma_holds_split(d, p, l1, l2);
    lemma_read_opt_u8(d, p, f & PF_MODEL != 0, or_zero(pi.model_index));
    lemma_read_opt_u8(d, p + size(l1), f & PF_SKINNUM != 0, or_zero(pi.skin_num));
    lemma_read_opt_u8(d, p + size(l1 + l2), f & PF_EFFECTS != 0, or_zero(pi.effects));
    lemma_read_opt_u8(d, p + size(l1 + l2 + l3), f & PF_WEAPONFRAME != 0, or_zero(pi.weapon_frame));
}

/// A player's info reads back as itself.
pub proof fn lemma_read_player_info(d: Seq<u8>, p: int, pi: PlayerInfoMessage)
    requires
        holds(d, p, player_info_parts(pi)),
        player_ok(pi),
    ensures
        rd_player_info(d, p) == Some((pi, p + size(player_info_parts(pi)))),
{
    let x = pi_fixed_parts(pi);
    let m = pi_motion_parts(pi);
    let l = pi_looks_parts(pi);
    lemma_player_parts_split(pi);
    lemma_holds_split(d, p, x + m, l);
    lemma_holds_split(d, p, x, m);
    lemma_read_pi_fixed(d, p, pi);
    lemma_read_pi_motion(d, p + 10, pi);
    lemma_read_pi_looks(d, p + size(x + m), pi);
}

/// A message can be sent and read back: its texts hold no NUL, list names
/// are not empty, and its structured parts can be sent as the lemmas above
/// say; a packet holds no more updates than a reader keeps.
pub open spec fn svc_ok(v: SvcView) -> bool {
    match v {
        SvcView::ServerData(sd) => serverdata_ok(sd),
        SvcView::Print { message, .. } => !message.contains('\0'),
        SvcView::StuffText(t) => !t.contains('\0'),
        SvcView::SoundList(_, items, _) => listable(items),
        SvcView::ModelList(_, items, _) => listable(items),
        SvcView::UpdateUserInfo { userinfo, .. } => !userinfo.contains('\0'),
        SvcView::SetInfo { key, value, .. } => !key.contains('\0') && !value.contains('\0'),
        SvcView::ServerInfo { key, value } => !key.contains('\0') && !value.contains('\0'),
        SvcView::PlayerInfo(pi) => player_ok(pi),
        SvcView::SpawnBaseline { baseline, .. } => baseline_ok(baseline),
        SvcView::PacketEntities(_, ents) => ents.len() <= MAX_PACKET_ENTITIES
            && forall|i: int| 0 <= i < ents.len() ==> entity_ok(#[trigger] ents[i]),
        _ => true,
    }
}

proof fn lemma_read_id_body(d: Seq<u8>, p: int, b: u8, body: Seq<Seq<u8>>)
    requires
        holds(d, p, p_u8(b) + body),
    ensures
        rd_u8(d, p) == Some((b, p + 1)),
        holds(d, p + 1, body),
        size(p_u8(b) + body) == 1 + size(body),
{
    lemma_holds_split(d, p, p_u8(b), body);
    lemma_read_u8(d, p, b);
}

proof fn lemma_read_packet(d: Seq<u8>, p: int, from: Option<u8>, ents: Seq<EntityDelta>)
    requires
        holds(d, p, packet_head_parts(from) + entities_parts(ents) + p_u16(0)),
        svc_ok(SvcView::PacketEntities(from, ents)),
    ensures
        rd_svc(d, p) == Ok::<_, crate::svc::SvcFailure>((SvcView::PacketEntities(from, ents), p + size(packet_head_parts(from) + entities_parts(ents) + p_u16(0)))),
{
    let h = packet_head_parts(from);
    let body = entities_parts(ents) + p_u16(0);
    lemma_assoc(h, entities_parts(ents), p_u16(0));
    lemma_holds_split(d, p, h, body);
    match from {
        Some(f) => {
            lemma_holds_split(d, p, p_u8(svc_number(Svc::DeltaPacketEntities)), p_u8(f));
            lemma_read_u8(d, p, svc_number(Svc::DeltaPacketEntities));
            lemma_read_u8(d, p + 1, f);
            lemma_read_entity_list(d, p + 2, ents);
        },
        None => {
            lemma_read_u8(d, p, svc_number(Svc::PacketEntities));
            lemma_read_entity_list(d, p + 1, ents);
        },
    }
}

proof fn lemma_read_two_strings(d: Seq<u8>, p: int, k: Seq<char>, v: Seq<char>)
    requires
        holds(d, p, p_str(k) + p_str(v)),
        !k.contains('\0'),
        !v.contains('\0'),
    ensures
        rd_string(d, p) == Some((k, p + size(p_str(k)))),
        rd_string(d, p + size(p_str(k))) == Some((v, p + size(p_str(k) + p_str(v)))),
{
    lemma_holds_split(d, p, p_str(k), p_str(v));
    lemma_read_string(d, p, k);
    lemma_read_string(d, p + size(p_str(k)), v);
}

proof fn lemma_svc_server_data(d: Seq<u8>, p: int, sd: ServerDataView)
    requires
        holds(d, p, svc_parts(SvcView::ServerData(sd))),
        svc_ok(SvcView::ServerData(sd)),
    ensures
        rd_svc(d, p) == Ok::<_, crate::svc::SvcFailure>((SvcView::ServerData(sd), p + size(svc_parts(SvcView::ServerData(sd))))),
{
            lemma_read_id_body(d, p, svc_number(Svc::ServerData), serverdata_parts(sd));
            lemma_read_serverdata(d, p + 1, sd);
}

proof fn lemma_svc_print(d: Seq<u8>, p: int, level: u8, message: Seq<char>)
    requires
        holds(d, p, svc_parts(SvcView::Print { level, message })),
        svc_ok(SvcView::Print { level, message }),
    ensures
        rd_svc(d, p) == Ok::<_, crate::svc::SvcFailure>((SvcView::Print { level, message }, p + size(svc_parts(SvcView::Print { level, message })))),
{
            lemma_assoc(p_u8(svc_number(Svc::Print)), p_u8(level), p_str(message));
            lemma_read_id_body(d, p, svc_number(Svc::Print), p_u8(level) + p_str(message));
            lemma_holds_split(d, p + 1, p_u8(level), p_str(message));
            lemma_read_u8(d, p + 1, level);
            lemma_read_string(d, p + 2, message);
}

proof fn lemma_svc_stuff_text(d: Seq<u8>, p: int, t: Seq<char>)
    requires
        holds(d, p, svc_parts(SvcView::StuffText(t))),
        svc_ok(SvcView::StuffText(t)),
    ensures
        rd_svc(d, p) == Ok::<_, crate::svc::SvcFailure>((SvcView::StuffText(t), p + size(svc_parts(SvcView::StuffText(t))))),
{
            lemma_read_id_body(d, p, svc_number(Svc::StuffText), p_str(t));
            lemma_read_string(d, p + 1, t);
}

proof fn lemma_svc_sound_list(d: Seq<u8>, p: int, start: u8, items: Seq<Seq<char>>, next: u8)
    requires
        holds(d, p, svc_parts(SvcView::SoundList(start, items, next))),
        svc_ok(SvcView::SoundList(start, items, next)),
    ensures
        rd_svc(d, p) == Ok::<_, crate::svc::SvcFailure>((SvcView::SoundList(start, items, next), p + size(svc_parts(SvcView::SoundList(start, items, next))))),
{
            lemma_read_id_body(d, p, svc_number(Svc::SoundList), chunk_parts(start, items, next));
            lemma_read_chunk(d, p + 1, start, items, next);
}

proof fn lemma_svc_model_list(d: Seq<u8>, p: int, start: u8, items: Seq<Seq<char>>, next: u8)
    requires
        holds(d, p, svc_parts(SvcView::ModelList(start, items, next))),
        svc_ok(SvcView::ModelList(start, items, next)),
    ensures
        rd_svc(d, p) == Ok::<_, crate::svc::SvcFailure>((SvcView::ModelList(start, items, next), p + size(svc_parts(SvcView::ModelList(start, items, next))))),
{
            lemma_read_id_body(d, p, svc_number(Svc::ModelList), chunk_parts(start, items, next));
            lemma_read_chunk(d, p + 1, start, items, next);
}

proof fn lemma_svc_update_frags(d: Seq<u8>, p: int, slot: u8, frags: i16)
    requires
        holds(d, p, svc_parts(SvcView::UpdateFrags { slot, frags })),
        svc_ok(SvcView::UpdateFrags { slot, frags }),
    ensures
        rd_svc(d, p) == Ok::<_, crate::svc::SvcFailure>((SvcView::UpdateFrags { slot, frags }, p + size(svc_parts(SvcView::UpdateFrags { slot, frags })))),
{
            lemma_assoc(p_u8(svc_number(Svc::UpdateFrags)), p_u8(slot), p_i16(frags));
            lemma_read_id_body(d, p, svc_number(Svc::UpdateFrags), p_u8(slot) + p_i16(frags));
            lemma_holds_split(d, p + 1, p_u8(slot), p_i16(frags));
            lemma_read_u8(d, p + 1, slot);
            lemma_read_i16(d, p + 2, frags);
}

proof fn lemma_svc_update_ping(d: Seq<u8>, p: int, slot: u8, ping: i16)
    requires
        holds(d, p, svc_parts(SvcView::UpdatePing { slot, ping })),
        svc_ok(SvcView::UpdatePing { slot, ping }),
    ensures
        rd_svc(d, p) == Ok::<_, crate::svc::SvcFailure>((SvcView::UpdatePing { slot, ping }, p + size(svc_parts(SvcView::UpdatePing { slot, ping })))),
{
            lemma_assoc(p_u8(svc_number(Svc::UpdatePing)), p_u8(slot), p_i16(ping));
            lemma_read_id_body(d, p, svc_number(Svc::UpdatePing), p_u8(slot) + p_i16(ping));
            lemma_holds_split(d, p + 1, p_u8(slot), p_i16(ping));
            lemma_read_u8(d, p + 1, slot);
            lemma_read_i16(d, p + 2, ping);
}

proof fn lemma_svc_update_pl(d: Seq<u8>, p: int, slot: u8, packet_loss: u8)
    requires
        holds(d, p, svc_parts(SvcView::UpdatePl { slot, packet_loss })),
        svc_ok(SvcView::UpdatePl { slot, packet_loss }),
    ensures
        rd_svc(d, p) == Ok::<_, crate::svc::SvcFailure>((SvcView::UpdatePl { slot, packet_loss }, p + size(svc_parts(SvcView::UpdatePl { slot, packet_loss })))),
{
            lemma_assoc(p_u8(svc_number(Svc::UpdatePl)), p_u8(slot), p_u8(packet_loss));
            lemma_read_id_body(d, p, svc_number(Svc::UpdatePl), p_u8(slot) + p_u8(packet_loss));
            lemma_holds_split(d, p + 1, p_u8(slot), p_u8(packet_loss));
            lemma_read_u8(d, p + 1, slot);
            lemma_read_u8(d, p + 2, packet_loss);
}

proof fn lemma_svc_update_enter_time(d: Seq<u8>, p: int, slot: u8, seconds_ago: u32)
    requires
        holds(d, p, svc_parts(SvcView::UpdateEnterTime { slot, seconds_ago })),
        svc_ok(SvcView::UpdateEnterTime { slot, seconds_ago }),
    ensures
        rd_svc(d, p) == Ok::<_, crate::svc::SvcFailure>((SvcView::UpdateEnterTime { slot, seconds_ago }, p + size(svc_parts(SvcView::UpdateEnterTime { slot, seconds_ago })))),
{
            lemma_assoc(p_u8(svc_number(Svc::UpdateEnterTime)), p_u8(slot), p_u32(seconds_ago));
            lemma_read_id_body(d, p, svc_number(Svc::UpdateEnterTime), p_u8(slot) + p_u32(seconds_ago));
            lemma_holds_split(d, p + 1, p_u8(slot), p_u32(seconds_ago));
            lemma_read_u8(d, p + 1, slot);
            lemma_read_u32(d, p + 2, seconds_ago);
}

proof fn lemma_svc_update_user_info(d: Seq<u8>, p: int, slot: u8, user_id: i32, userinfo: Seq<char>)
    requires
        holds(d, p, svc_parts(SvcView::UpdateUserInfo { slot, user_id, userinfo })),
        svc_ok(SvcView::UpdateUserInfo { slot, user_id, userinfo }),
    ensures
        rd_svc(d, p) == Ok::<_, crate::svc::SvcFailure>((SvcView::UpdateUserInfo { slot, user_id, userinfo }, p + size(svc_parts(SvcView::UpdateUserInfo { slot, user_id, userinfo })))),
{
            let id = p_u8(svc_number(Svc::UpdateUserInfo));
            lemma_assoc(id, p_u8(slot), p_i32(user_id));
            lemma_assoc(id, p_u8(slot) + p_i32(user_id), p_str(userinfo));
            lemma_read_id_body(d, p, svc_number(Svc::UpdateUserInfo), p_u8(slot) + p_i32(user_id) + p_str(userinfo));
            lemma_holds_split(d, p + 1, p_u8(slot) + p_i32(user_id), p_str(userinfo));
            lemma_holds_split(d, p + 1, p_u8(slot), p_i32(user_id));
            lemma_read_u8(d, p + 1, slot);
            lemma_read_i32(d, p + 2, user_id);
            lemma_read_string(d, p + 6, userinfo);
}

proof fn lemma_svc_set_info(d: Seq<u8>, p: int, slot: u8, key: Seq<char>, value: Seq<char>)
    requires
        holds(d, p, svc_parts(SvcView::SetInfo { slot, key, value })),
        svc_ok(SvcView::SetInfo { slot, key, value }),
    ensures
        rd_svc(d, p) == Ok::<_, crate::svc::SvcFailure>((SvcView::SetInfo { slot, key, value }, p + size(svc_parts(SvcView::SetInfo { slot, key, value })))),
{
            let id = p_u8(svc_number(Svc::SetInfo));
            lemma_assoc(id, p_u8(slot), p_str(key));
            lemma_assoc(id, p_u8(slot) + p_str(key), p_str(value));
            lemma_assoc(p_u8(slot), p_str(key), p_str(value));
            lemma_read_id_body(d, p, svc_number(Svc::SetInfo), p_u8(slot) + (p_str(key) + p_str(value)));
            lemma_holds_split(d, p + 1, p_u8(slot), p_str(key) + p_str(value));
            lemma_read_u8(d, p + 1, slot);
            lemma_read_two_strings(d, p + 2, key, value);
}

proof fn lemma_svc_server_info(d: Seq<u8>, p: int, key: Seq<char>, value: Seq<char>)
    requires
        holds(d, p, svc_parts(SvcView::ServerInfo { key, value })),
        svc_ok(SvcView::ServerInfo { key, value }),
    ensures
        rd_svc(d, p) == Ok::<_, crate::svc::SvcFailure>((SvcView::ServerInfo { key, value }, p + size(svc_parts(SvcView::ServerInfo { key, value })))),
{
            lemma_assoc(p_u8(svc_number(Svc::ServerInfo)), p_str(key), p_str(value));
            lemma_read_id_body(d, p, svc_number(Svc::ServerInfo), p_str(key) + p_str(value));
            lemma_read_two_strings(d, p + 1, key, value);
}

proof fn lemma_svc_player_info(d: Seq<u8>, p: int, pi: PlayerInfoMessage)
    requires
        holds(d, p, svc_parts(SvcView::PlayerInfo(pi))),
        svc_ok(SvcView::PlayerInfo(pi)),
    ensures
        rd_svc(d, p) == Ok::<_, crate::svc::SvcFailure>((SvcView::PlayerInfo(pi), p + size(svc_parts(SvcView::PlayerInfo(pi))))),
{
            lemma_read_id_body(d, p, svc_number(Svc::PlayerInfo), player_info_parts(pi));
            lemma_read_player_info(d, p + 1, pi);
}

proof fn lemma_svc_spawn_baseline(d: Seq<u8>, p: int, entity: u16, baseline: EntityState)
    requires
        holds(d, p, svc_parts(SvcView::SpawnBaseline { entity, baseline })),
        svc_ok(SvcView::SpawnBaseline { entity, baseline }),
    ensures
        rd_svc(d, p) == Ok::<_, crate::svc::SvcFailure>((SvcView::SpawnBaseline { entity, baseline }, p + size(svc_parts(SvcView::SpawnBaseline { entity, baseline })))),
{
            lemma_assoc(p_u8(svc_number(Svc::SpawnBaseline)), p_u16(entity), baseline_parts(baseline));
            lemma_read_id_body(d, p, svc_number(Svc::SpawnBaseline), p_u16(entity) + baseline_parts(baseline));
            lemma_holds_split(d, p + 1, p_u16(entity), baseline_parts(baseline));
            lemma_read_u16(d, p + 1, entity);
            lemma_read_baseline(d, p + 3, baseline);
}

proof fn lemma_svc_packet_entities(d: Seq<u8>, p: int, from: Option<u8>, ents: Seq<EntityDelta>)
    requires
        holds(d, p, svc_parts(SvcView::PacketEntities(from, ents))),
        svc_ok(SvcView::PacketEntities(from, ents)),
    ensures
        rd_svc(d, p) == Ok::<_, crate::svc::SvcFailure>((SvcView::PacketEntities(from, ents), p + size(svc_parts(SvcView::PacketEntities(from, ents))))),
{
            lemma_read_packet(d, p, from, ents);
}

/// Any message that can be sent reads back as itself, from where it was
/// written.
pub proof fn lemma_read_svc(d: Seq<u8>, p: int, v: SvcView)
    requires
        holds(d, p, svc_parts(v)),
        svc_ok(v),
    ensures
        rd_svc(d, p) == Ok::<_, crate::svc::SvcFailure>((v, p + size(svc_parts(v)))),
{
    match v {
        SvcView::ServerData(sd) => {
            lemma_svc_server_data(d, p, sd);
        },
        SvcView::Print { level, message } => {
            lemma_svc_print(d, p, level, message);
        },
        SvcView::StuffText(t) => {
            lemma_svc_stuff_text(d, p, t);
        },
        SvcView::SoundList(start, items, next) => {
            lemma_svc_sound_list(d, p, start, items, next);
        },
        SvcView::ModelList(start, items, next) => {
            lemma_svc_model_list(d, p, start, items, next);
        },
        SvcView::UpdateFrags { slot, frags } => {
            lemma_svc_update_frags(d, p, slot, frags);
        },
        SvcView::UpdatePing { slot, ping } => {
            lemma_svc_update_ping(d, p, slot, ping);
        },
        SvcView::UpdatePl { slot, packet_loss } => {
            lemma_svc_update_pl(d, p, slot, packet_loss);
        },
        SvcView::UpdateEnterTime { slot, seconds_ago } => {
            lemma_svc_update_enter_time(d, p, slot, seconds_ago);
        },
        SvcView::UpdateUserInfo { slot, user_id, userinfo } => {
            lemma_svc_update_user_info(d, p, slot, user_id, userinfo);
        },
        SvcView::SetInfo { slot, key, value } => {
            lemma_svc_set_info(d, p, slot, key, value);
        },
        SvcView::ServerInfo { key, value } => {
            lemma_svc_server_info(d, p, key, value);
        },
        SvcView::PlayerInfo(pi) => {
            lemma_svc_player_info(d, p, pi);
        },
        SvcView::SpawnBaseline { entity, baseline } => {
            lemma_svc_spawn_baseline(d, p, entity, baseline);
        },
        SvcView::PacketEntities(from, ents) => {
            lemma_svc_packet_entities(d, p, from, ents);
        },
    }
}

/// Round trip: the bytes that `write_svc_message` writes for a message
/// that can be sent (`svc_ok`) read back, with `parse_svc_message`'s
/// reader, as that message, and the reader stops right after them,
/// whatever follows.
pub proof fn law_svc_round_trip(v: SvcView, rest: Seq<u8>)
    requires
        svc_ok(v),
    ensures
        rd_svc(concat_parts(svc_parts(v)) + rest, 0) == Ok::<_, crate::svc::SvcFailure>((v, size(svc_parts(v)))),
{
    let b = concat_parts(svc_parts(v));
    let d = b + rest;
    reveal(holds);
    reveal(size);
    assert(d.subrange(0, b.len() as int) =~= b);
    assert(holds(d, 0, svc_parts(v)));
    lemma_read_svc(d, 0, v);
}

/// What `write_svc_message` appends to a buffer with room for the message
/// (its contract is `write_all` over `svc_parts`) is read back by
/// `parse_svc_message` (its contract is `rd_svc`) from where the message
/// starts, as the same message, whatever follows.
pub proof fn law_write_then_parse(b: SizeBufView, v: SvcView, rest: Seq<u8>)
    requires
        svc_ok(v),
        b.data.len() + size(svc_parts(v)) <= b.maxsize,
    ensures
        ({
            let bytes = concat_parts(svc_parts(v));
            &&& write_all(b, svc_parts(v)) == (SizeBufView { data: b.data + bytes, ..b }, Ok::<(), SizeBufError>(()))
            &&& rd_svc(b.data + bytes + rest, b.data.len() as int)
                == Ok::<_, crate::svc::SvcFailure>((v, b.data.len() + size(svc_parts(v))))
        }),
{
    reveal(holds);
    reveal(size);
    let bytes = concat_parts(svc_parts(v));
    lemma_write_all_fits(b, svc_parts(v));
    let d = b.data + bytes + rest;
    assert(d.subrange(b.data.len() as int, (b.data.len() + bytes.len()) as int) =~= bytes);
    assert(holds(d, b.data.len() as int, svc_parts(v)));
    lemma_read_svc(d, b.data.len() as int, v);
}

/// The writes of messages sent one after another.
pub open spec fn stream_parts(vs: Seq<SvcView>) -> Seq<Seq<u8>>
    decreases vs.len(),
{
    if vs.len() == 0 {
        Seq::empty()
    } else {
        svc_parts(vs[0]) + stream_parts(vs.drop_first())
    }
}

proof fn lemma_read_stream(d: Seq<u8>, p: int, vs: Seq<SvcView>)
    requires
        holds(d, p, stream_parts(vs)),
        p + size(stream_parts(vs)) == d.len(),
        forall|i: int| 0 <= i < vs.len() ==> svc_ok(#[trigger] vs[i]),
    ensures
        rd_svc_stream(d, p) == Ok::<Seq<SvcView>, (crate::svc::SvcFailure, u8)>(vs),
    decreases vs.len(),
{
    if vs.len() == 0 {
        reveal(size);
        assert(p >= d.len());
        assert(vs =~= Seq::<SvcView>::empty());
    } else {
        let v = vs[0];
        let tail = vs.drop_first();
        lemma_holds_split(d, p, svc_parts(v), stream_parts(tail));
        assert(svc_ok(v));
        lemma_read_svc(d, p, v);
        assert(rd_u8(d, p) is Some);
        assert(0 <= p < d.len());
        assert forall|i: int| 0 <= i < tail.len() implies svc_ok(#[trigger] tail[i]) by {
            assert(tail[i] == vs[i + 1]);
        }
        lemma_read_stream(d, p + size(svc_parts(v)), tail);
        assert(seq![v] + tail =~= vs);
    }
}

/// Messages sent one after another in a packet read back, with
/// `parse_svc_stream`'s reader (its contract is `rd_svc_stream`), as the
/// same messages in the same order, when each can be sent.
pub proof fn law_svc_stream_round_trip(vs: Seq<SvcView>)
    requires
        forall|i: int| 0 <= i < vs.len() ==> svc_ok(#[trigger] vs[i]),
    ensures
        rd_svc_stream(concat_parts(stream_parts(vs)), 0) == Ok::<Seq<SvcView>, (crate::svc::SvcFailure, u8)>(vs),
{
    let d = concat_parts(stream_parts(vs));
    reveal(holds);
    reveal(size);
    assert(d.subrange(0, d.len() as int) =~= d);
    assert(holds(d, 0, stream_parts(vs)));
    lemma_read_stream(d, 0, vs);
}

} // verus!

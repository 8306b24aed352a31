//! Server-to-client messages. Positions and angles are kept as the wire
//! carries them: coordinates in eighths of a unit, angles as 8-bit or
//! 16-bit fractions of a turn, and floating-point fields as their bits.
use vstd::prelude::*;
use vstd::string::StringSliceAdditionalSpecFns;
use crate::bytes::{le_u16, le_u32, u16_at, u32_at, u16_to_le, u32_to_le};
use crate::client_messages::{
    MoveVars, ServerData, ServerDataError, ServerDataView, StringListChunk, chunk_parts, item_parts, parse_serverdata,
    parse_string_list_chunk,
    rd_serverdata, server_data_view, spec_string_list_chunk, string_views,
};
use crate::msg::{MsgReadError, MsgReader, SizeBuf, SizeBufError, byte_parts, write_all, write_parts, zero_from};
use crate::protocol::{
    MAX_PACKET_ENTITIES, PROTOCOL_VERSION, Svc, svc_number, CM_ANGLE1, CM_ANGLE2, CM_ANGLE3, CM_BUTTONS,
    CM_FORWARD, CM_IMPULSE, CM_SIDE, CM_UP, PF_COMMAND, PF_EFFECTS, PF_MODEL, PF_MSEC, PF_SKINNUM,
    PF_VELOCITY1, PF_VELOCITY2, PF_VELOCITY3, PF_WEAPONFRAME, U_ANGLE1, U_ANGLE2, U_ANGLE3, U_COLORMAP,
    U_EFFECTS, U_FRAME, U_MODEL, U_MOREBITS, U_ORIGIN1, U_ORIGIN2, U_ORIGIN3, U_REMOVE, U_SKIN, U_SOLID,
};
use crate::text::lossy_text;

verus! {

#[derive(Debug, Clone, Copy, PartialEq, Eq)]
pub enum SvcParseError {
    Read(MsgReadError),
    UnknownSvc(u8),
    UnsupportedSvc(Svc),
}

/// Three 16-bit wire values: a position in eighths of a unit, or angles
/// in 65536ths of a turn.
#[derive(Debug, Clone, Copy, PartialEq, Eq, Structural)]
pub struct WireVec {
    pub x: i16,
    pub y: i16,
    pub z: i16,
}

/// Three angles in 256ths of a turn, as single bytes.
#[derive(Debug, Clone, Copy, PartialEq, Eq, Structural)]
pub struct ByteAngles {
    pub x: u8,
    pub y: u8,
    pub z: u8,
}

/// A movement command; its angles in 65536ths of a turn.
#[derive(Debug, Clone, Copy, PartialEq, Eq, Structural)]
pub struct UserCmd {
    pub msec: u8,
    pub angles: WireVec,
    pub forwardmove: i16,
    pub sidemove: i16,
    pub upmove: i16,
    pub buttons: u8,
    pub impulse: u8,
}

/// An entity's baseline state.
#[derive(Debug, Clone, Copy, PartialEq, Eq, Structural)]
pub struct EntityState {
    pub number: i32,
    pub flags: i32,
    pub origin: WireVec,
    pub angles: ByteAngles,
    pub modelindex: i32,
    pub frame: i32,
    pub colormap: i32,
    pub skinnum: i32,
    pub effects: i32,
}

#[derive(Debug, Clone, Copy, PartialEq, Eq, Structural)]
pub struct PlayerInfoMessage {
    pub num: u8,
    pub flags: u16,
    pub origin: WireVec,
    pub frame: u8,
    pub msec: Option<u8>,
    pub command: Option<UserCmd>,
    pub velocity: WireVec,
    pub model_index: Option<u8>,
    pub skin_num: Option<u8>,
    pub effects: Option<u8>,
    pub weapon_frame: Option<u8>,
}

/// The change of one entity in a packet.
#[derive(Debug, Clone, Copy, PartialEq, Eq, Structural)]
pub struct EntityDelta {
    pub number: u16,
    pub remove: bool,
    pub flags: u16,
    pub model_index: Option<u8>,
    pub frame: Option<u8>,
    pub colormap: Option<u8>,
    pub skin_num: Option<u8>,
    pub effects: Option<u8>,
    pub origin_x: Option<i16>,
    pub origin_y: Option<i16>,
    pub origin_z: Option<i16>,
    pub angle_x: Option<u8>,
    pub angle_y: Option<u8>,
    pub angle_z: Option<u8>,
    pub solid: bool,
}

#[derive(Debug, Clone, PartialEq, Eq)]
pub struct PacketEntitiesUpdate {
    pub delta_from: Option<u8>,
    pub entities: Vec<EntityDelta>,
}

#[derive(Debug, Clone, PartialEq, Eq)]
pub enum SvcMessage {
    ServerData(ServerData),
    Print { level: u8, message: String },
    StuffText(String),
    SoundList(StringListChunk),
    ModelList(StringListChunk),
    UpdateFrags { slot: u8, frags: i16 },
    UpdatePing { slot: u8, ping: i16 },
    UpdatePl { slot: u8, packet_loss: u8 },
    UpdateEnterTime { slot: u8, seconds_ago: u32 },
    UpdateUserInfo { slot: u8, user_id: i32, userinfo: String },
    SetInfo { slot: u8, key: String, value: String },
    ServerInfo { key: String, value: String },
    PlayerInfo(PlayerInfoMessage),
    SpawnBaseline { entity: u16, baseline: EntityState },
    PacketEntities(PacketEntitiesUpdate),
}

// ---- reading, as positions in the message ----

pub open spec fn rd_u8(d: Seq<u8>, p: int) -> Option<(u8, int)> {
    if 0 <= p && p + 1 <= d.len() { Some((d[p], p + 1)) } else { None }
}

pub open spec fn rd_u16(d: Seq<u8>, p: int) -> Option<(u16, int)> {
    if 0 <= p && p + 2 <= d.len() { Some((u16_at(d, p), p + 2)) } else { None }
}

pub open spec fn rd_i16(d: Seq<u8>, p: int) -> Option<(i16, int)> {
    if 0 <= p && p + 2 <= d.len() { Some((u16_at(d, p) as i16, p + 2)) } else { None }
}

pub open spec fn rd_u32(d: Seq<u8>, p: int) -> Option<(u32, int)> {
    if 0 <= p && p + 4 <= d.len() { Some((u32_at(d, p), p + 4)) } else { None }
}

pub open spec fn rd_i32(d: Seq<u8>, p: int) -> Option<(i32, int)> {
    if 0 <= p && p + 4 <= d.len() { Some((u32_at(d, p) as i32, p + 4)) } else { None }
}

/// A zero-terminated string.
pub open spec fn rd_string(d: Seq<u8>, p: int) -> Option<(Seq<char>, int)> {
    if 0 <= p <= d.len() && zero_from(d, p) < d.len() {
        Some((lossy_text(d.subrange(p, zero_from(d, p))), zero_from(d, p) + 1))
    } else {
        None
    }
}

/// A byte when `present`, else nothing read.
pub open spec fn rd_opt_u8(d: Seq<u8>, p: int, present: bool) -> Option<(Option<u8>, int)> {
    if !present {
        Some((None, p))
    } else {
        match rd_u8(d, p) {
            Some((v, q)) => Some((Some(v), q)),
            None => None,
        }
    }
}

/// A 16-bit value when `present`, else `dflt` with nothing read.
pub open spec fn rd_opt_i16(d: Seq<u8>, p: int, present: bool, dflt: i16) -> Option<(i16, int)> {
    if !present { Some((dflt, p)) } else { rd_i16(d, p) }
}

/// Three 16-bit values.
pub open spec fn rd_wire_vec(d: Seq<u8>, p: int) -> Option<(WireVec, int)> {
    if 0 <= p && p + 6 <= d.len() {
        Some((WireVec { x: u16_at(d, p) as i16, y: u16_at(d, p + 2) as i16, z: u16_at(d, p + 4) as i16 }, p + 6))
    } else {
        None
    }
}

/// A movement command sent as the changes from `from`: a byte of flags,
/// the fields it names, then the duration.
pub open spec fn rd_delta_usercmd(d: Seq<u8>, p: int, from: UserCmd) -> Option<(UserCmd, int)> {
    match rd_u8(d, p) {
        None => None,
        Some((bits, p1)) => match rd_opt_i16(d, p1, bits & CM_ANGLE1 != 0, from.angles.x) {
            None => None,
            Some((ax, p2)) => match rd_opt_i16(d, p2, bits & CM_ANGLE2 != 0, from.angles.y) {
                None => None,
                Some((ay, p3)) => match rd_opt_i16(d, p3, bits & CM_ANGLE3 != 0, from.angles.z) {
                    None => None,
                    Some((az, p4)) => match rd_opt_i16(d, p4, bits & CM_FORWARD != 0, from.forwardmove) {
                        None => None,
                        Some((fw, p5)) => match rd_opt_i16(d, p5, bits & CM_SIDE != 0, from.sidemove) {
                            None => None,
                            Some((sd, p6)) => match rd_opt_i16(d, p6, bits & CM_UP != 0, from.upmove) {
                                None => None,
                                Some((up, p7)) => match rd_opt_u8(d, p7, bits & CM_BUTTONS != 0) {
                                    None => None,
                                    Some((bt, p8)) => match rd_opt_u8(d, p8, bits & CM_IMPULSE != 0) {
                                        None => None,
                                        Some((im, p9)) => match rd_u8(d, p9) {
                                            None => None,
                                            Some((msec, p10)) => Some((UserCmd {
                                                msec,
                                                angles: WireVec { x: ax, y: ay, z: az },
                                                forwardmove: fw,
                                                sidemove: sd,
                                                upmove: up,
                                                buttons: match bt { Some(v) => v, None => from.buttons },
                                                impulse: match im { Some(v) => v, None => from.impulse },
                                            }, p10)),
                                        },
                                    },
                                },
                            },
                        },
                    },
                },
            },
        },
    }
}

/// The result of a read that fails only at the end of the message.
pub open spec fn read_as<T>(r: Result<T, MsgReadError>, after: &MsgReader, before: &MsgReader, s: Option<(T, int)>) -> bool {
    &&& after.wf()
    &&& after.data() == before.data()
    &&& match s {
        Some((v, end)) => r == Ok::<T, MsgReadError>(v) && after.cursor() == end
            && after.spec_bad_read() == before.spec_bad_read(),
        None => r == Err::<T, MsgReadError>(MsgReadError::Eof),
    }
}

pub(crate) fn read_u8_at(reader: &mut MsgReader) -> (r: Result<u8, MsgReadError>)
    requires
        old(reader).wf(),
    ensures
        read_as(r, final(reader), old(reader), rd_u8(old(reader).data(), old(reader).cursor())),
{
    reader.read_u8()
}

fn read_i16_at(reader: &mut MsgReader) -> (r: Result<i16, MsgReadError>)
    requires
        old(reader).wf(),
    ensures
        read_as(r, final(reader), old(reader), rd_i16(old(reader).data(), old(reader).cursor())),
{
    reader.read_i16()
}

fn read_opt_u8(reader: &mut MsgReader, present: bool) -> (r: Result<Option<u8>, MsgReadError>)
    requires
        old(reader).wf(),
    ensures
        read_as(r, final(reader), old(reader), rd_opt_u8(old(reader).data(), old(reader).cursor(), present)),
{
    if present {
        match reader.read_u8() {
            Ok(v) => Ok(Some(v)),
            Err(e) => Err(e),
        }
    } else {
        Ok(None)
    }
}

fn read_opt_i16(reader: &mut MsgReader, present: bool, dflt: i16) -> (r: Result<i16, MsgReadError>)
    requires
        old(reader).wf(),
    ensures
        read_as(r, final(reader), old(reader), rd_opt_i16(old(reader).data(), old(reader).cursor(), present, dflt)),
{
    if present {
        reader.read_i16()
    } else {
        Ok(dflt)
    }
}

fn read_wire_vec(reader: &mut MsgReader) -> (r: Result<WireVec, MsgReadError>)
    requires
        old(reader).wf(),
    ensures
        read_as(r, final(reader), old(reader), rd_wire_vec(old(reader).data(), old(reader).cursor())),
{
    let x = match reader.read_i16() {
        Ok(v) => v,
        Err(e) => {
            return Err(e);
        },
    };
    let y = match reader.read_i16() {
        Ok(v) => v,
        Err(e) => {
            return Err(e);
        },
    };
    let z = match reader.read_i16() {
        Ok(v) => v,
        Err(e) => {
            return Err(e);
        },
    };
    Ok(WireVec { x, y, z })
}

/// Reads a movement command sent as its changes from `from`.
#[verifier::rlimit(40)]
pub fn read_delta_usercmd(reader: &mut MsgReader, from: &UserCmd) -> (r: Result<UserCmd, MsgReadError>)
    requires
        old(reader).wf(),
    ensures
        read_as(r, final(reader), old(reader), rd_delta_usercmd(old(reader).data(), old(reader).cursor(), *from)),
{
    let bits = match read_u8_at(reader) {
        Ok(v) => v,
        Err(e) => {
            return Err(e);
        },
    };
    let ax = match read_opt_i16(reader, bits & CM_ANGLE1 != 0, from.angles.x) {
        Ok(v) => v,
        Err(e) => {
            return Err(e);
        },
    };
    let ay = match read_opt_i16(reader, bits & CM_ANGLE2 != 0, from.angles.y) {
        Ok(v) => v,
        Err(e) => {
            return Err(e);
        },
    };
    let az = match read_opt_i16(reader, bits & CM_ANGLE3 != 0, from.angles.z) {
        Ok(v) => v,
        Err(e) => {
            return Err(e);
        },
    };
    let fw = match read_opt_i16(reader, bits & CM_FORWARD != 0, from.forwardmove) {
        Ok(v) => v,
        Err(e) => {
            return Err(e);
        },
    };
    let sd = match read_opt_i16(reader, bits & CM_SIDE != 0, from.sidemove) {
        Ok(v) => v,
        Err(e) => {
            return Err(e);
        },
    };
    let up = match read_opt_i16(reader, bits & CM_UP != 0, from.upmove) {
        Ok(v) => v,
        Err(e) => {
            return Err(e);
        },
    };
    let bt = match read_opt_u8(reader, bits & CM_BUTTONS != 0) {
        Ok(v) => v,
        Err(e) => {
            return Err(e);
        },
    };
    let im = match read_opt_u8(reader, bits & CM_IMPULSE != 0) {
        Ok(v) => v,
        Err(e) => {
            return Err(e);
        },
    };
    let msec = match read_u8_at(reader) {
        Ok(v) => v,
        Err(e) => {
            return Err(e);
        },
    };
    Ok(UserCmd {
        msec,
        angles: WireVec { x: ax, y: ay, z: az },
        forwardmove: fw,
        sidemove: sd,
        upmove: up,
        buttons: match bt {
            Some(v) => v,
            None => from.buttons,
        },
        impulse: match im {
            Some(v) => v,
            None => from.impulse,
        },
    })
}


impl Default for UserCmd {
    /// The command that changes nothing: all zero.
    fn default() -> (r: Self)
        ensures
            r == zero_cmd(),
    {
        UserCmd {
            msec: 0,
            angles: WireVec { x: 0, y: 0, z: 0 },
            forwardmove: 0,
            sidemove: 0,
            upmove: 0,
            buttons: 0,
            impulse: 0,
        }
    }
}

pub open spec fn zero_cmd() -> UserCmd {
    UserCmd { msec: 0, angles: WireVec { x: 0, y: 0, z: 0 }, forwardmove: 0, sidemove: 0, upmove: 0, buttons: 0, impulse: 0 }
}

impl Default for EntityState {
    /// The state of nothing: all zero.
    fn default() -> (r: Self)
        ensures
            r == zero_entity(),
    {
        EntityState {
            number: 0,
            flags: 0,
            origin: WireVec { x: 0, y: 0, z: 0 },
            angles: ByteAngles { x: 0, y: 0, z: 0 },
            modelindex: 0,
            frame: 0,
            colormap: 0,
            skinnum: 0,
            effects: 0,
        }
    }
}

pub open spec fn zero_entity() -> EntityState {
    EntityState {
        number: 0,
        flags: 0,
        origin: WireVec { x: 0, y: 0, z: 0 },
        angles: ByteAngles { x: 0, y: 0, z: 0 },
        modelindex: 0,
        frame: 0,
        colormap: 0,
        skinnum: 0,
        effects: 0,
    }
}

/// An entity baseline: model, frame, colormap and skin bytes, the origin
/// and the angles.
pub open spec fn rd_baseline(d: Seq<u8>, p: int) -> Option<(EntityState, int)> {
    if 0 <= p && p + 13 <= d.len() {
        Some((EntityState {
            number: 0,
            flags: 0,
            origin: WireVec { x: u16_at(d, p + 4) as i16, y: u16_at(d, p + 6) as i16, z: u16_at(d, p + 8) as i16 },
            angles: ByteAngles { x: d[p + 10], y: d[p + 11], z: d[p + 12] },
            modelindex: d[p] as i32,
            frame: d[p + 1] as i32,
            colormap: d[p + 2] as i32,
            skinnum: d[p + 3] as i32,
            effects: 0,
        }, p + 13))
    } else {
        None
    }
}

fn parse_baseline(reader: &mut MsgReader) -> (r: Result<EntityState, MsgReadError>)
    requires
        old(reader).wf(),
    ensures
        read_as(r, final(reader), old(reader), rd_baseline(old(reader).data(), old(reader).cursor())),
{
    let modelindex = match reader.read_u8() { Ok(v) => v, Err(e) => { return Err(e); } };
    let frame = match reader.read_u8() { Ok(v) => v, Err(e) => { return Err(e); } };
    let colormap = match reader.read_u8() { Ok(v) => v, Err(e) => { return Err(e); } };
    let skinnum = match reader.read_u8() { Ok(v) => v, Err(e) => { return Err(e); } };
    let origin = match read_wire_vec(reader) { Ok(v) => v, Err(e) => { return Err(e); } };
    let ax = match reader.read_u8() { Ok(v) => v, Err(e) => { return Err(e); } };
    let ay = match reader.read_u8() { Ok(v) => v, Err(e) => { return Err(e); } };
    let az = match reader.read_u8() { Ok(v) => v, Err(e) => { return Err(e); } };
    Ok(EntityState {
        number: 0,
        flags: 0,
        origin,
        angles: ByteAngles { x: ax, y: ay, z: az },
        modelindex: modelindex as i32,
        frame: frame as i32,
        colormap: colormap as i32,
        skinnum: skinnum as i32,
        effects: 0,
    })
}

/// The flags of an entity update: the first word without its entity
/// number, with the extra byte when the word says one follows.
pub open spec fn rd_delta_bits(d: Seq<u8>, p: int, word: u16) -> Option<(u16, int)> {
    let bits = word & 0xfe00u16;
    if bits & U_MOREBITS != 0 {
        match rd_u8(d, p) {
            Some((more, q)) => Some((bits | (more as u16), q)),
            None => None,
        }
    } else {
        Some((bits, p))
    }
}

/// An optional 16-bit value.
pub open spec fn rd_opt16(d: Seq<u8>, p: int, present: bool) -> Option<(Option<i16>, int)> {
    if !present {
        Some((None, p))
    } else {
        match rd_i16(d, p) {
            Some((v, q)) => Some((Some(v), q)),
            None => None,
        }
    }
}

/// The byte fields of an entity update with flags `bits`, in wire order:
/// model, frame, colormap, skin, effects.
pub open spec fn rd_delta_bytes(d: Seq<u8>, p: int, bits: u16)
    -> Option<((Option<u8>, Option<u8>, Option<u8>, Option<u8>, Option<u8>), int)> {
    match rd_opt_u8(d, p, bits & (U_MODEL as u16) != 0) {
        None => None,
        Some((model, p1)) => match rd_opt_u8(d, p1, bits & U_FRAME != 0) {
            None => None,
            Some((frame, p2)) => match rd_opt_u8(d, p2, bits & (U_COLORMAP as u16) != 0) {
                None => None,
                Some((colormap, p3)) => match rd_opt_u8(d, p3, bits & (U_SKIN as u16) != 0) {
                    None => None,
                    Some((skin, p4)) => match rd_opt_u8(d, p4, bits & (U_EFFECTS as u16) != 0) {
                        None => None,
                        Some((effects, p5)) => Some(((model, frame, colormap, skin, effects), p5)),
                    },
                },
            },
        },
    }
}

/// The movement fields of an entity update: each origin coordinate
/// followed by its angle.
pub open spec fn rd_delta_moves(d: Seq<u8>, p: int, bits: u16)
    -> Option<((Option<i16>, Option<u8>, Option<i16>, Option<u8>, Option<i16>, Option<u8>), int)> {
    match rd_opt16(d, p, bits & U_ORIGIN1 != 0) {
        None => None,
        Some((ox, p6)) => match rd_opt_u8(d, p6, bits & (U_ANGLE1 as u16) != 0) {
            None => None,
            Some((ax, p7)) => match rd_opt16(d, p7, bits & U_ORIGIN2 != 0) {
                None => None,
                Some((oy, p8)) => match rd_opt_u8(d, p8, bits & U_ANGLE2 != 0) {
                    None => None,
                    Some((ay, p9)) => match rd_opt16(d, p9, bits & U_ORIGIN3 != 0) {
                        None => None,
                        Some((oz, p10)) => match rd_opt_u8(d, p10, bits & (U_ANGLE3 as u16) != 0) {
                            None => None,
                            Some((az, p11)) => Some(((ox, ax, oy, ay, oz, az), p11)),
                        },
                    },
                },
            },
        },
    }
}

/// The fields of an entity update with flags `bits`.
pub open spec fn rd_delta_fields(d: Seq<u8>, p: int, number: u16, bits: u16) -> Option<(EntityDelta, int)> {
    match rd_delta_bytes(d, p, bits) {
        None => None,
        Some(((model, frame, colormap, skin, effects), q)) => match rd_delta_moves(d, q, bits) {
            None => None,
            Some(((ox, ax, oy, ay, oz, az), e)) => Some((EntityDelta {
                number,
                remove: bits & U_REMOVE != 0,
                flags: bits,
                model_index: model,
                frame,
                colormap,
                skin_num: skin,
                effects,
                origin_x: ox,
                origin_y: oy,
                origin_z: oz,
                angle_x: ax,
                angle_y: ay,
                angle_z: az,
                solid: bits & (U_SOLID as u16) != 0,
            }, e)),
        },
    }
}

/// An entity update whose first word is `word`: the entity number is its
/// low nine bits.
pub open spec fn rd_entity_delta(d: Seq<u8>, p: int, word: u16) -> Option<(EntityDelta, int)> {
    match rd_delta_bits(d, p, word) {
        None => None,
        Some((bits, q)) => rd_delta_fields(d, q, word & 0x1ffu16, bits),
    }
}

fn read_opt16(reader: &mut MsgReader, present: bool) -> (r: Result<Option<i16>, MsgReadError>)
    requires
        old(reader).wf(),
    ensures
        read_as(r, final(reader), old(reader), rd_opt16(old(reader).data(), old(reader).cursor(), present)),
{
    if present {
        match reader.read_i16() {
            Ok(v) => Ok(Some(v)),
            Err(e) => Err(e),
        }
    } else {
        Ok(None)
    }
}

fn read_delta_bytes(reader: &mut MsgReader, bits: u16)
    -> (r: Result<(Option<u8>, Option<u8>, Option<u8>, Option<u8>, Option<u8>), MsgReadError>)
    requires
        old(reader).wf(),
    ensures
        read_as(r, final(reader), old(reader), rd_delta_bytes(old(reader).data(), old(reader).cursor(), bits)),
{
    let model_index = match read_opt_u8(reader, bits & (U_MODEL as u16) != 0) { Ok(v) => v, Err(e) => { return Err(e); } };
    let frame = match read_opt_u8(reader, bits & U_FRAME != 0) { Ok(v) => v, Err(e) => { return Err(e); } };
    let colormap = match read_opt_u8(reader, bits & (U_COLORMAP as u16) != 0) { Ok(v) => v, Err(e) => { return Err(e); } };
    let skin_num = match read_opt_u8(reader, bits & (U_SKIN as u16) != 0) { Ok(v) => v, Err(e) => { return Err(e); } };
    let effects = match read_opt_u8(reader, bits & (U_EFFECTS as u16) != 0) { Ok(v) => v, Err(e) => { return Err(e); } };
    Ok((model_index, frame, colormap, skin_num, effects))
}

fn read_delta_moves(reader: &mut MsgReader, bits: u16)
    -> (r: Result<(Option<i16>, Option<u8>, Option<i16>, Option<u8>, Option<i16>, Option<u8>), MsgReadError>)
    requires
        old(reader).wf(),
    ensures
        read_as(r, final(reader), old(reader), rd_delta_moves(old(reader).data(), old(reader).cursor(), bits)),
{
    let origin_x = match read_opt16(reader, bits & U_ORIGIN1 != 0) { Ok(v) => v, Err(e) => { return Err(e); } };
    let angle_x = match read_opt_u8(reader, bits & (U_ANGLE1 as u16) != 0) { Ok(v) => v, Err(e) => { return Err(e); } };
    let origin_y = match read_opt16(reader, bits & U_ORIGIN2 != 0) { Ok(v) => v, Err(e) => { return Err(e); } };
    let angle_y = match read_opt_u8(reader, bits & U_ANGLE2 != 0) { Ok(v) => v, Err(e) => { return Err(e); } };
    let origin_z = match read_opt16(reader, bits & U_ORIGIN3 != 0) { Ok(v) => v, Err(e) => { return Err(e); } };
    let angle_z = match read_opt_u8(reader, bits & (U_ANGLE3 as u16) != 0) { Ok(v) => v, Err(e) => { return Err(e); } };
    Ok((origin_x, angle_x, origin_y, angle_y, origin_z, angle_z))
}

fn parse_entity_delta(reader: &mut MsgReader, word: u16) -> (r: Result<EntityDelta, MsgReadError>)
    requires
        old(reader).wf(),
    ensures
        read_as(r, final(reader), old(reader), rd_entity_delta(old(reader).data(), old(reader).cursor(), word)),
{
    let number = word & 0x1ff;
    let mut bits = word & 0xfe00;
    if bits & U_MOREBITS != 0 {
        match reader.read_u8() {
            Ok(v) => {
                bits = bits | (v as u16);
            },
            Err(e) => {
                return Err(e);
            },
        }
    }
    let (model_index, frame, colormap, skin_num, effects) = match read_delta_bytes(reader, bits) {
        Ok(v) => v,
        Err(e) => {
            return Err(e);
        },
    };
    let (origin_x, angle_x, origin_y, angle_y, origin_z, angle_z) = match read_delta_moves(reader, bits) {
        Ok(v) => v,
        Err(e) => {
            return Err(e);
        },
    };
    Ok(EntityDelta {
        number,
        remove: bits & U_REMOVE != 0,
        flags: bits,
        model_index,
        frame,
        colormap,
        skin_num,
        effects,
        origin_x,
        origin_y,
        origin_z,
        angle_x,
        angle_y,
        angle_z,
        solid: bits & (U_SOLID as u16) != 0,
    })
}

/// A delta never reads backwards.
pub proof fn lemma_entity_delta_advances(d: Seq<u8>, p: int, word: u16)
    ensures
        rd_entity_delta(d, p, word) matches Some((_, q)) ==> q >= p,
{
}

/// Entity updates up to a zero word, and the position after that word.
pub open spec fn rd_entity_list(d: Seq<u8>, p: int) -> Option<(Seq<EntityDelta>, int)>
    decreases d.len() - p,
{
    if p < 0 || p + 2 > d.len() {
        None
    } else {
        let w = u16_at(d, p);
        if w == 0 {
            Some((Seq::empty(), p + 2))
        } else {
            match rd_entity_delta(d, p + 2, w) {
                None => None,
                Some((e, q)) => {
                    proof {
                        lemma_entity_delta_advances(d, p + 2, w);
                    }
                    match rd_entity_list(d, q) {
                        Some((rest, end)) => Some((seq![e] + rest, end)),
                        None => None,
                    }
                },
            }
        }
    }
}

/// A packet of entity updates: the frame it is a delta from (when it is
/// one), then the updates, of which only the first `MAX_PACKET_ENTITIES`
/// are kept.
pub open spec fn rd_packet_entities(d: Seq<u8>, p: int, delta: bool) -> Option<((Option<u8>, Seq<EntityDelta>), int)> {
    match rd_opt_u8(d, p, delta) {
        None => None,
        Some((from, q)) => match rd_entity_list(d, q) {
            None => None,
            Some((all, end)) => Some((
                (from, if all.len() <= MAX_PACKET_ENTITIES { all } else { all.take(MAX_PACKET_ENTITIES as int) }),
                end,
            )),
        },
    }
}

#[verifier::rlimit(40)]
fn parse_packet_entities(reader: &mut MsgReader, delta: bool) -> (r: Result<PacketEntitiesUpdate, MsgReadError>)
    requires
        old(reader).wf(),
    ensures
        final(reader).wf(),
        final(reader).data() == old(reader).data(),
        match rd_packet_entities(old(reader).data(), old(reader).cursor(), delta) {
            Some(((from, ents), end)) => r matches Ok(u) && u.delta_from == from && u.entities@ == ents
                && final(reader).cursor() == end && final(reader).spec_bad_read() == old(reader).spec_bad_read(),
            None => r == Err::<PacketEntitiesUpdate, MsgReadError>(MsgReadError::Eof),
        },
{
    let ghost d = reader.data();
    let delta_from = match read_opt_u8(reader, delta) {
        Ok(v) => v,
        Err(e) => {
            return Err(e);
        },
    };
    let ghost start = reader.cursor();
    let ghost mut seen: Seq<EntityDelta> = Seq::empty();
    let mut entities: Vec<EntityDelta> = Vec::new();
    loop
        invariant_except_break
            reader.wf(),
            reader.data() == d,
            d == old(reader).data(),
            reader.spec_bad_read() == old(reader).spec_bad_read(),
            rd_opt_u8(d, old(reader).cursor(), delta) == Some((delta_from, start)),
            rd_entity_list(d, start) == match rd_entity_list(d, reader.cursor()) {
                Some((rest, end)) => Some((seen + rest, end)),
                None => None::<(Seq<EntityDelta>, int)>,
            },
            entities@ == (if seen.len() <= MAX_PACKET_ENTITIES { seen } else { seen.take(MAX_PACKET_ENTITIES as int) }),
        ensures
            reader.wf(),
            reader.data() == d,
            d == old(reader).data(),
            reader.spec_bad_read() == old(reader).spec_bad_read(),
            rd_opt_u8(d, old(reader).cursor(), delta) == Some((delta_from, start)),
            rd_entity_list(d, start) == Some((seen, reader.cursor())),
            entities@ == (if seen.len() <= MAX_PACKET_ENTITIES { seen } else { seen.take(MAX_PACKET_ENTITIES as int) }),
        decreases d.len() - reader.cursor(),
    {
        let ghost pos = reader.cursor();
        let word = match reader.read_u16() {
            Ok(w) => w,
            Err(e) => {
                return Err(e);
            },
        };
        if word == 0 {
            assert(seen + Seq::<EntityDelta>::empty() =~= seen);
            break;
        }
        let ed = match parse_entity_delta(reader, word) {
            Ok(v) => v,
            Err(e) => {
                return Err(e);
            },
        };
        proof {
            match rd_entity_list(d, reader.cursor()) {
                Some((rest, end)) => {
                    assert(seen + (seq![ed] + rest) =~= seen.push(ed) + rest);
                },
                None => {},
            }
        }
        if entities.len() < MAX_PACKET_ENTITIES {
            entities.push(ed);
        }
        proof {
            let old_seen = seen;
            seen = seen.push(ed);
            if old_seen.len() < MAX_PACKET_ENTITIES {
                assert(entities@ =~= seen);
            } else {
                assert(seen.take(MAX_PACKET_ENTITIES as int) =~= old_seen.take(MAX_PACKET_ENTITIES as int));
            }
        }
    }
    Ok(PacketEntitiesUpdate { delta_from, entities })
}

/// The motion part of a player's info: duration, command and velocity,
/// each when the flags say it follows.
pub open spec fn rd_player_motion(d: Seq<u8>, p: int, flags: u16) -> Option<((Option<u8>, Option<UserCmd>, WireVec), int)> {
    match rd_opt_u8(d, p, (flags as u32) & PF_MSEC != 0) {
        None => None,
        Some((msec, p1)) => match (if (flags as u32) & PF_COMMAND != 0 {
            match rd_delta_usercmd(d, p1, zero_cmd()) {
                Some((c, q)) => Some((Some(c), q)),
                None => None,
            }
        } else {
            Some((None, p1))
        }) {
            None => None,
            Some((command, p2)) => match rd_opt_i16(d, p2, (flags as u32) & PF_VELOCITY1 != 0, 0) {
                None => None,
                Some((vx, p3)) => match rd_opt_i16(d, p3, (flags as u32) & PF_VELOCITY2 != 0, 0) {
                    None => None,
                    Some((vy, p4)) => match rd_opt_i16(d, p4, (flags as u32) & PF_VELOCITY3 != 0, 0) {
                        None => None,
                        Some((vz, p5)) => Some(((msec, command, WireVec { x: vx, y: vy, z: vz }), p5)),
                    },
                },
            },
        },
    }
}

/// The looks part of a player's info: model, skin, effects and weapon
/// frame, each when the flags say it follows.
pub open spec fn rd_player_looks(d: Seq<u8>, p: int, flags: u16) -> Option<((Option<u8>, Option<u8>, Option<u8>, Option<u8>), int)> {
    match rd_opt_u8(d, p, (flags as u32) & PF_MODEL != 0) {
        None => None,
        Some((model, p1)) => match rd_opt_u8(d, p1, (flags as u32) & PF_SKINNUM != 0) {
            None => None,
            Some((skin, p2)) => match rd_opt_u8(d, p2, (flags as u32) & PF_EFFECTS != 0) {
                None => None,
                Some((effects, p3)) => match rd_opt_u8(d, p3, (flags as u32) & PF_WEAPONFRAME != 0) {
                    None => None,
                    Some((weapon, p4)) => Some(((model, skin, effects, weapon), p4)),
                },
            },
        },
    }
}

/// A player's info: number, flags, origin, frame, then the parts the
/// flags name.
pub open spec fn rd_player_info(d: Seq<u8>, p: int) -> Option<(PlayerInfoMessage, int)> {
    if 0 <= p && p + 10 <= d.len() {
        let flags = u16_at(d, p + 1);
        match rd_player_motion(d, p + 10, flags) {
            None => None,
            Some(((msec, command, velocity), q)) => match rd_player_looks(d, q, flags) {
                None => None,
                Some(((model, skin, effects, weapon), e)) => Some((PlayerInfoMessage {
                    num: d[p],
                    flags,
                    origin: WireVec { x: u16_at(d, p + 3) as i16, y: u16_at(d, p + 5) as i16, z: u16_at(d, p + 7) as i16 },
                    frame: d[p + 9],
                    msec,
                    command,
                    velocity,
                    model_index: model,
                    skin_num: skin,
                    effects,
                    weapon_frame: weapon,
                }, e)),
            },
        }
    } else {
        None
    }
}

fn read_player_motion(reader: &mut MsgReader, flags: u16) -> (r: Result<(Option<u8>, Option<UserCmd>, WireVec), MsgReadError>)
    requires
        old(reader).wf(),
    ensures
        read_as(r, final(reader), old(reader), rd_player_motion(old(reader).data(), old(reader).cursor(), flags)),
{
    let msec = match read_opt_u8(reader, (flags as u32) & PF_MSEC != 0) { Ok(v) => v, Err(e) => { return Err(e); } };
    let command = if (flags as u32) & PF_COMMAND != 0 {
        let base = UserCmd::default();
        match read_delta_usercmd(reader, &base) {
            Ok(c) => Some(c),
            Err(e) => {
                return Err(e);
            },
        }
    } else {
        None
    };
    let vx = match read_opt_i16(reader, (flags as u32) & PF_VELOCITY1 != 0, 0) { Ok(v) => v, Err(e) => { return Err(e); } };
    let vy = match read_opt_i16(reader, (flags as u32) & PF_VELOCITY2 != 0, 0) { Ok(v) => v, Err(e) => { return Err(e); } };
    let vz = match read_opt_i16(reader, (flags as u32) & PF_VELOCITY3 != 0, 0) { Ok(v) => v, Err(e) => { return Err(e); } };
    Ok((msec, command, WireVec { x: vx, y: vy, z: vz }))
}

fn read_player_looks(reader: &mut MsgReader, flags: u16) -> (r: Result<(Option<u8>, Option<u8>, Option<u8>, Option<u8>), MsgReadError>)
    requires
        old(reader).wf(),
    ensures
        read_as(r, final(reader), old(reader), rd_player_looks(old(reader).data(), old(reader).cursor(), flags)),
{
    let model = match read_opt_u8(reader, (flags as u32) & PF_MODEL != 0) { Ok(v) => v, Err(e) => { return Err(e); } };
    let skin = match read_opt_u8(reader, (flags as u32) & PF_SKINNUM != 0) { Ok(v) => v, Err(e) => { return Err(e); } };
    let effects = match read_opt_u8(reader, (flags as u32) & PF_EFFECTS != 0) { Ok(v) => v, Err(e) => { return Err(e); } };
    let weapon = match read_opt_u8(reader, (flags as u32) & PF_WEAPONFRAME != 0) { Ok(v) => v, Err(e) => { return Err(e); } };
    Ok((model, skin, effects, weapon))
}

fn parse_player_info(reader: &mut MsgReader) -> (r: Result<PlayerInfoMessage, MsgReadError>)
    requires
        old(reader).wf(),
    ensures
        read_as(r, final(reader), old(reader), rd_player_info(old(reader).data(), old(reader).cursor())),
{
    let num = match reader.read_u8() { Ok(v) => v, Err(e) => { return Err(e); } };
    let flags = match reader.read_u16() { Ok(v) => v, Err(e) => { return Err(e); } };
    let origin = match read_wire_vec(reader) { Ok(v) => v, Err(e) => { return Err(e); } };
    let frame = match reader.read_u8() { Ok(v) => v, Err(e) => { return Err(e); } };
    let (msec, command, velocity) = match read_player_motion(reader, flags) { Ok(v) => v, Err(e) => { return Err(e); } };
    let (model_index, skin_num, effects, weapon_frame) = match read_player_looks(reader, flags) {
        Ok(v) => v,
        Err(e) => {
            return Err(e);
        },
    };
    Ok(PlayerInfoMessage {
        num,
        flags,
        origin,
        frame,
        msec,
        command,
        velocity,
        model_index,
        skin_num,
        effects,
        weapon_frame,
    })
}

/// A message as the contracts see it, its texts as characters.
pub enum SvcView {
    ServerData(ServerDataView),
    Print { level: u8, message: Seq<char> },
    StuffText(Seq<char>),
    SoundList(u8, Seq<Seq<char>>, u8),
    ModelList(u8, Seq<Seq<char>>, u8),
    UpdateFrags { slot: u8, frags: i16 },
    UpdatePing { slot: u8, ping: i16 },
    UpdatePl { slot: u8, packet_loss: u8 },
    UpdateEnterTime { slot: u8, seconds_ago: u32 },
    UpdateUserInfo { slot: u8, user_id: i32, userinfo: Seq<char> },
    SetInfo { slot: u8, key: Seq<char>, value: Seq<char> },
    ServerInfo { key: Seq<char>, value: Seq<char> },
    PlayerInfo(PlayerInfoMessage),
    SpawnBaseline { entity: u16, baseline: EntityState },
    PacketEntities(Option<u8>, Seq<EntityDelta>),
}

/// Why a message could not be read: it ends too soon, its identifier is
/// not a known one, or it is one this reader does not take.
pub enum SvcFailure {
    Truncated,
    Unknown,
    Unsupported,
}

pub open spec fn svc_view(m: SvcMessage) -> SvcView {
    match m {
        SvcMessage::ServerData(sd) => SvcView::ServerData(server_data_view(sd)),
        SvcMessage::Print { level, message } => SvcView::Print { level, message: message@ },
        SvcMessage::StuffText(t) => SvcView::StuffText(t@),
        SvcMessage::SoundList(c) => SvcView::SoundList(c.start, string_views(c.items@), c.next),
        SvcMessage::ModelList(c) => SvcView::ModelList(c.start, string_views(c.items@), c.next),
        SvcMessage::UpdateFrags { slot, frags } => SvcView::UpdateFrags { slot, frags },
        SvcMessage::UpdatePing { slot, ping } => SvcView::UpdatePing { slot, ping },
        SvcMessage::UpdatePl { slot, packet_loss } => SvcView::UpdatePl { slot, packet_loss },
        SvcMessage::UpdateEnterTime { slot, seconds_ago } => SvcView::UpdateEnterTime { slot, seconds_ago },
        SvcMessage::UpdateUserInfo { slot, user_id, userinfo } => SvcView::UpdateUserInfo { slot, user_id, userinfo: userinfo@ },
        SvcMessage::SetInfo { slot, key, value } => SvcView::SetInfo { slot, key: key@, value: value@ },
        SvcMessage::ServerInfo { key, value } => SvcView::ServerInfo { key: key@, value: value@ },
        SvcMessage::PlayerInfo(pi) => SvcView::PlayerInfo(pi),
        SvcMessage::SpawnBaseline { entity, baseline } => SvcView::SpawnBaseline { entity, baseline },
        SvcMessage::PacketEntities(u) => SvcView::PacketEntities(u.delta_from, u.entities@),
    }
}

/// The rest of a message whose identifier byte is `b`, read from `p`.
pub open spec fn rd_svc_body(d: Seq<u8>, p: int, b: u8) -> Result<(SvcView, int), SvcFailure> {
    if b == svc_number(Svc::ServerData) {
        match rd_serverdata(d, p) {
            Ok((v, e)) => Ok((SvcView::ServerData(v), e)),
            Err(ServerDataError::Read(_)) => Err(SvcFailure::Truncated),
            Err(ServerDataError::UnsupportedProtocol(_)) => Err(SvcFailure::Unsupported),
        }
    } else if b == svc_number(Svc::Print) {
        match rd_u8(d, p) {
            None => Err(SvcFailure::Truncated),
            Some((level, p1)) => match rd_string(d, p1) {
                None => Err(SvcFailure::Truncated),
                Some((message, e)) => Ok((SvcView::Print { level, message }, e)),
            },
        }
    } else if b == svc_number(Svc::StuffText) {
        match rd_string(d, p) {
            None => Err(SvcFailure::Truncated),
            Some((t, e)) => Ok((SvcView::StuffText(t), e)),
        }
    } else if b == svc_number(Svc::SoundList) {
        match spec_string_list_chunk(d, p) {
            None => Err(SvcFailure::Truncated),
            Some((start, items, next, e)) => Ok((SvcView::SoundList(start, items, next), e)),
        }
    } else if b == svc_number(Svc::ModelList) {
        match spec_string_list_chunk(d, p) {
            None => Err(SvcFailure::Truncated),
            Some((start, items, next, e)) => Ok((SvcView::ModelList(start, items, next), e)),
        }
    } else if b == svc_number(Svc::UpdateFrags) {
        match rd_u8(d, p) {
            None => Err(SvcFailure::Truncated),
            Some((slot, p1)) => match rd_i16(d, p1) {
                None => Err(SvcFailure::Truncated),
                Some((frags, e)) => Ok((SvcView::UpdateFrags { slot, frags }, e)),
            },
        }
    } else if b == svc_number(Svc::UpdatePing) {
        match rd_u8(d, p) {
            None => Err(SvcFailure::Truncated),
            Some((slot, p1)) => match rd_i16(d, p1) {
                None => Err(SvcFailure::Truncated),
                Some((ping, e)) => Ok((SvcView::UpdatePing { slot, ping }, e)),
            },
        }
    } else if b == svc_number(Svc::UpdatePl) {
        match rd_u8(d, p) {
            None => Err(SvcFailure::Truncated),
            Some((slot, p1)) => match rd_u8(d, p1) {
                None => Err(SvcFailure::Truncated),
                Some((packet_loss, e)) => Ok((SvcView::UpdatePl { slot, packet_loss }, e)),
            },
        }
    } else if b == svc_number(Svc::UpdateEnterTime) {
        match rd_u8(d, p) {
            None => Err(SvcFailure::Truncated),
            Some((slot, p1)) => match rd_u32(d, p1) {
                None => Err(SvcFailure::Truncated),
                Some((seconds_ago, e)) => Ok((SvcView::UpdateEnterTime { slot, seconds_ago }, e)),
            },
        }
    } else if b == svc_number(Svc::UpdateUserInfo) {
        match rd_u8(d, p) {
            None => Err(SvcFailure::Truncated),
            Some((slot, p1)) => match rd_i32(d, p1) {
                None => Err(SvcFailure::Truncated),
                Some((user_id, p2)) => match rd_string(d, p2) {
                    None => Err(SvcFailure::Truncated),
                    Some((userinfo, e)) => Ok((SvcView::UpdateUserInfo { slot, user_id, userinfo }, e)),
                },
            },
        }
    } else if b == svc_number(Svc::SetInfo) {
        match rd_u8(d, p) {
            None => Err(SvcFailure::Truncated),
            Some((slot, p1)) => match rd_string(d, p1) {
                None => Err(SvcFailure::Truncated),
                Some((key, p2)) => match rd_string(d, p2) {
                    None => Err(SvcFailure::Truncated),
                    Some((value, e)) => Ok((SvcView::SetInfo { slot, key, value }, e)),
                },
            },
        }
    } else if b == svc_number(Svc::ServerInfo) {
        match rd_string(d, p) {
            None => Err(SvcFailure::Truncated),
            Some((key, p1)) => match rd_string(d, p1) {
                None => Err(SvcFailure::Truncated),
                Some((value, e)) => Ok((SvcView::ServerInfo { key, value }, e)),
            },
        }
    } else if b == svc_number(Svc::PlayerInfo) {
        match rd_player_info(d, p) {
            None => Err(SvcFailure::Truncated),
            Some((pi, e)) => Ok((SvcView::PlayerInfo(pi), e)),
        }
    } else if b == svc_number(Svc::SpawnBaseline) {
        match rd_u16(d, p) {
            None => Err(SvcFailure::Truncated),
            Some((entity, p1)) => match rd_baseline(d, p1) {
                None => Err(SvcFailure::Truncated),
                Some((baseline, e)) => Ok((SvcView::SpawnBaseline { entity, baseline }, e)),
            },
        }
    } else if b == svc_number(Svc::PacketEntities) || b == svc_number(Svc::DeltaPacketEntities) {
        match rd_packet_entities(d, p, b == svc_number(Svc::DeltaPacketEntities)) {
            None => Err(SvcFailure::Truncated),
            Some(((from, ents), e)) => Ok((SvcView::PacketEntities(from, ents), e)),
        }
    } else if exists|m: Svc| svc_number(m) == b {
        Err(SvcFailure::Unsupported)
    } else {
        Err(SvcFailure::Unknown)
    }
}

/// One message from position `p`: its identifier byte and its body.
pub open spec fn rd_svc(d: Seq<u8>, p: int) -> Result<(SvcView, int), SvcFailure> {
    match rd_u8(d, p) {
        None => Err(SvcFailure::Truncated),
        Some((b, q)) => rd_svc_body(d, q, b),
    }
}

/// Whether `r` is the parse result that the spec outcome `s` describes,
/// the message's identifier byte being `b`.
pub open spec fn svc_result(r: Result<SvcMessage, SvcParseError>, s: Result<(SvcView, int), SvcFailure>, b: u8) -> bool {
    match s {
        Ok((v, _)) => r matches Ok(m) && svc_view(m) == v,
        Err(SvcFailure::Truncated) => r == Err::<SvcMessage, SvcParseError>(SvcParseError::Read(MsgReadError::Eof)),
        Err(SvcFailure::Unknown) => r == Err::<SvcMessage, SvcParseError>(SvcParseError::UnknownSvc(b)),
        Err(SvcFailure::Unsupported) => r matches Err(SvcParseError::UnsupportedSvc(m)) && svc_number(m) == b,
    }
}

/// The contract of a body reader: the result as `svc_result` says, and
/// on success the reader just past the message.
pub open spec fn body_read(r: Result<SvcMessage, SvcParseError>, after: &MsgReader, before: &MsgReader, b: u8) -> bool {
    let s = rd_svc_body(before.data(), before.cursor(), b);
    &&& after.wf()
    &&& after.data() == before.data()
    &&& svc_result(r, s, b)
    &&& (s matches Ok((_, e)) ==> after.cursor() == e && after.spec_bad_read() == before.spec_bad_read())
}

fn eof<T>(e: MsgReadError) -> (r: Result<T, SvcParseError>)
    ensures
        r == Err::<T, SvcParseError>(SvcParseError::Read(e)),
{
    Err(SvcParseError::Read(e))
}

fn parse_print(reader: &mut MsgReader) -> (r: Result<SvcMessage, SvcParseError>)
    requires
        old(reader).wf(),
    ensures
        body_read(r, final(reader), old(reader), svc_number(Svc::Print)),
{
    let level = match reader.read_u8() { Ok(v) => v, Err(e) => { return eof(e); } };
    let message = match reader.read_string() { Ok(v) => v, Err(e) => { return eof(e); } };
    Ok(SvcMessage::Print { level, message })
}

fn parse_stuff_text(reader: &mut MsgReader) -> (r: Result<SvcMessage, SvcParseError>)
    requires
        old(reader).wf(),
    ensures
        body_read(r, final(reader), old(reader), svc_number(Svc::StuffText)),
{
    let text = match reader.read_string() { Ok(v) => v, Err(e) => { return eof(e); } };
    Ok(SvcMessage::StuffText(text))
}

fn parse_list(reader: &mut MsgReader, sounds: bool) -> (r: Result<SvcMessage, SvcParseError>)
    requires
        old(reader).wf(),
    ensures
        body_read(r, final(reader), old(reader), if sounds { svc_number(Svc::SoundList) } else { svc_number(Svc::ModelList) }),
{
    let chunk = match parse_string_list_chunk(reader) { Ok(v) => v, Err(e) => { return eof(e); } };
    if sounds {
        Ok(SvcMessage::SoundList(chunk))
    } else {
        Ok(SvcMessage::ModelList(chunk))
    }
}

fn parse_slot_i16(reader: &mut MsgReader, frags: bool) -> (r: Result<SvcMessage, SvcParseError>)
    requires
        old(reader).wf(),
    ensures
        body_read(r, final(reader), old(reader), if frags { svc_number(Svc::UpdateFrags) } else { svc_number(Svc::UpdatePing) }),
{
    let slot = match reader.read_u8() { Ok(v) => v, Err(e) => { return eof(e); } };
    let value = match reader.read_i16() { Ok(v) => v, Err(e) => { return eof(e); } };
    if frags {
        Ok(SvcMessage::UpdateFrags { slot, frags: value })
    } else {
        Ok(SvcMessage::UpdatePing { slot, ping: value })
    }
}

fn parse_update_pl(reader: &mut MsgReader) -> (r: Result<SvcMessage, SvcParseError>)
    requires
        old(reader).wf(),
    ensures
        body_read(r, final(reader), old(reader), svc_number(Svc::UpdatePl)),
{
    let slot = match reader.read_u8() { Ok(v) => v, Err(e) => { return eof(e); } };
    let packet_loss = match reader.read_u8() { Ok(v) => v, Err(e) => { return eof(e); } };
    Ok(SvcMessage::UpdatePl { slot, packet_loss })
}

fn parse_enter_time(reader: &mut MsgReader) -> (r: Result<SvcMessage, SvcParseError>)
    requires
        old(reader).wf(),
    ensures
        body_read(r, final(reader), old(reader), svc_number(Svc::UpdateEnterTime)),
{
    let slot = match reader.read_u8() { Ok(v) => v, Err(e) => { return eof(e); } };
    let seconds_ago = match reader.read_u32() { Ok(v) => v, Err(e) => { return eof(e); } };
    Ok(SvcMessage::UpdateEnterTime { slot, seconds_ago })
}

fn parse_user_info(reader: &mut MsgReader) -> (r: Result<SvcMessage, SvcParseError>)
    requires
        old(reader).wf(),
    ensures
        body_read(r, final(reader), old(reader), svc_number(Svc::UpdateUserInfo)),
{
    let slot = match reader.read_u8() { Ok(v) => v, Err(e) => { return eof(e); } };
    let user_id = match reader.read_i32() { Ok(v) => v, Err(e) => { return eof(e); } };
    let userinfo = match reader.read_string() { Ok(v) => v, Err(e) => { return eof(e); } };
    Ok(SvcMessage::UpdateUserInfo { slot, user_id, userinfo })
}

fn parse_set_info(reader: &mut MsgReader) -> (r: Result<SvcMessage, SvcParseError>)
    requires
        old(reader).wf(),
    ensures
        body_read(r, final(reader), old(reader), svc_number(Svc::SetInfo)),
{
    let slot = match reader.read_u8() { Ok(v) => v, Err(e) => { return eof(e); } };
    let key = match reader.read_string() { Ok(v) => v, Err(e) => { return eof(e); } };
    let value = match reader.read_string() { Ok(v) => v, Err(e) => { return eof(e); } };
    Ok(SvcMessage::SetInfo { slot, key, value })
}

fn parse_server_info(reader: &mut MsgReader) -> (r: Result<SvcMessage, SvcParseError>)
    requires
        old(reader).wf(),
    ensures
        body_read(r, final(reader), old(reader), svc_number(Svc::ServerInfo)),
{
    let key = match reader.read_string() { Ok(v) => v, Err(e) => { return eof(e); } };
    let value = match reader.read_string() { Ok(v) => v, Err(e) => { return eof(e); } };
    Ok(SvcMessage::ServerInfo { key, value })
}

fn parse_player_info_message(reader: &mut MsgReader) -> (r: Result<SvcMessage, SvcParseError>)
    requires
        old(reader).wf(),
    ensures
        body_read(r, final(reader), old(reader), svc_number(Svc::PlayerInfo)),
{
    match parse_player_info(reader) {
        Ok(pi) => Ok(SvcMessage::PlayerInfo(pi)),
        Err(e) => eof(e),
    }
}

fn parse_spawn_baseline(reader: &mut MsgReader) -> (r: Result<SvcMessage, SvcParseError>)
    requires
        old(reader).wf(),
    ensures
        body_read(r, final(reader), old(reader), svc_number(Svc::SpawnBaseline)),
{
    let entity = match reader.read_u16() { Ok(v) => v, Err(e) => { return eof(e); } };
    let baseline = match parse_baseline(reader) { Ok(v) => v, Err(e) => { return eof(e); } };
    Ok(SvcMessage::SpawnBaseline { entity, baseline })
}

fn parse_entities_message(reader: &mut MsgReader, delta: bool) -> (r: Result<SvcMessage, SvcParseError>)
    requires
        old(reader).wf(),
    ensures
        body_read(r, final(reader), old(reader), if delta { svc_number(Svc::DeltaPacketEntities) } else { svc_number(Svc::PacketEntities) }),
{
    match parse_packet_entities(reader, delta) {
        Ok(u) => Ok(SvcMessage::PacketEntities(u)),
        Err(e) => eof(e),
    }
}

fn parse_server_data_message(reader: &mut MsgReader) -> (r: Result<SvcMessage, SvcParseError>)
    requires
        old(reader).wf(),
    ensures
        body_read(r, final(reader), old(reader), svc_number(Svc::ServerData)),
{
    match parse_serverdata(reader) {
        Ok(sd) => Ok(SvcMessage::ServerData(sd)),
        Err(ServerDataError::Read(e)) => eof(e),
        Err(ServerDataError::UnsupportedProtocol(_)) => Err(SvcParseError::UnsupportedSvc(Svc::ServerData)),
    }
}

/// Reads one server message: an identifier byte and the fields of that
/// message.
pub fn parse_svc_message(reader: &mut MsgReader) -> (r: Result<SvcMessage, SvcParseError>)
    requires
        old(reader).wf(),
    ensures
        final(reader).wf(),
        final(reader).data() == old(reader).data(),
        old(reader).has(1) ==> svc_result(r, rd_svc(old(reader).data(), old(reader).cursor()), old(reader).peek(0)),
        !old(reader).has(1) ==> r == Err::<SvcMessage, SvcParseError>(SvcParseError::Read(MsgReadError::Eof)),
        rd_svc(old(reader).data(), old(reader).cursor()) matches Ok((_, e)) ==> final(reader).cursor() == e
            && final(reader).spec_bad_read() == old(reader).spec_bad_read(),
{
    let cmd = match reader.read_u8() { Ok(v) => v, Err(e) => { return eof(e); } };
    let svc = match Svc::try_from(cmd) {
        Ok(s) => s,
        Err(_) => {
            return Err(SvcParseError::UnknownSvc(cmd));
        },
    };
    match svc {
        Svc::ServerData => parse_server_data_message(reader),
        Svc::Print => parse_print(reader),
        Svc::StuffText => parse_stuff_text(reader),
        Svc::SoundList => parse_list(reader, true),
        Svc::ModelList => parse_list(reader, false),
        Svc::UpdateFrags => parse_slot_i16(reader, true),
        Svc::UpdatePing => parse_slot_i16(reader, false),
        Svc::UpdatePl => parse_update_pl(reader),
        Svc::UpdateEnterTime => parse_enter_time(reader),
        Svc::UpdateUserInfo => parse_user_info(reader),
        Svc::SetInfo => parse_set_info(reader),
        Svc::ServerInfo => parse_server_info(reader),
        Svc::PlayerInfo => parse_player_info_message(reader),
        Svc::SpawnBaseline => parse_spawn_baseline(reader),
        Svc::PacketEntities => parse_entities_message(reader, false),
        Svc::DeltaPacketEntities => parse_entities_message(reader, true),
        _ => Err(SvcParseError::UnsupportedSvc(svc)),
    }
}

pub proof fn lemma_rd_string_advances(d: Seq<u8>, p: int)
    ensures
        rd_string(d, p) matches Some((_, e)) ==> p < e <= d.len(),
{
    if 0 <= p <= d.len() {
        crate::msg::lemma_zero_from_bounds(d, p);
    }
}

pub proof fn lemma_string_list_advances(d: Seq<u8>, p: int)
    ensures
        crate::client_messages::string_list_from(d, p) matches Some((_, e)) ==> p < e <= d.len(),
    decreases d.len() - p,
{
    if 0 <= p < d.len() {
        crate::msg::lemma_zero_from_bounds(d, p);
        let z = zero_from(d, p);
        if z < d.len() {
            lemma_string_list_advances(d, z + 1);
        }
    }
}

pub proof fn lemma_entity_list_advances(d: Seq<u8>, p: int)
    ensures
        rd_entity_list(d, p) matches Some((_, e)) ==> p < e <= d.len(),
    decreases d.len() - p,
{
    if 0 <= p && p + 2 <= d.len() {
        let w = u16_at(d, p);
        if w != 0 {
            lemma_entity_delta_advances(d, p + 2, w);
            match rd_entity_delta(d, p + 2, w) {
                Some((_, q)) => {
                    lemma_entity_list_advances(d, q);
                },
                None => {},
            }
        }
    }
}

pub proof fn lemma_player_info_advances(d: Seq<u8>, p: int)
    ensures
        rd_player_info(d, p) matches Some((_, e)) ==> p <= e <= d.len(),
{
}

pub proof fn lemma_serverdata_advances(d: Seq<u8>, p: int)
    ensures
        rd_serverdata(d, p) matches Ok((_, e)) ==> p <= e <= d.len(),
{
    lemma_rd_string_advances(d, p + 8);
    match rd_string(d, p + 8) {
        Some((_, e)) => {
            lemma_rd_string_advances(d, e + 1);
        },
        None => {},
    }
}

pub proof fn lemma_packet_entities_advances(d: Seq<u8>, p: int, delta: bool)
    ensures
        rd_packet_entities(d, p, delta) matches Some((_, e)) ==> p <= e <= d.len(),
{
    lemma_entity_list_advances(d, p);
    lemma_entity_list_advances(d, p + 1);
}

pub proof fn lemma_strings_advance(d: Seq<u8>, p: int)
    ensures
        rd_string(d, p) matches Some((_, e)) ==> (p < e <= d.len() && (rd_string(d, e) matches Some((_, f)) ==> e < f <= d.len())),
{
    lemma_rd_string_advances(d, p);
    match rd_string(d, p) {
        Some((_, e)) => {
            lemma_rd_string_advances(d, e);
        },
        None => {},
    }
}

/// The body of a message that reads ends no earlier than it began.
#[verifier::rlimit(50)]
pub proof fn lemma_rd_svc_body_advances(d: Seq<u8>, q: int, b: u8)
    requires
        0 <= q,
    ensures
        rd_svc_body(d, q, b) matches Ok((_, e)) ==> q <= e <= d.len(),
{
    if b == svc_number(Svc::ServerData) {
        lemma_serverdata_advances(d, q);
    } else if b == svc_number(Svc::Print) || b == svc_number(Svc::UpdateUserInfo) || b == svc_number(Svc::SetInfo) {
        lemma_strings_advance(d, q + 1);
        lemma_rd_string_advances(d, q + 5);
    } else if b == svc_number(Svc::StuffText) || b == svc_number(Svc::ServerInfo) {
        lemma_strings_advance(d, q);
    } else if b == svc_number(Svc::SoundList) || b == svc_number(Svc::ModelList) {
        if q < d.len() {
            lemma_string_list_advances(d, q + 1);
        }
    } else if b == svc_number(Svc::PlayerInfo) {
        lemma_player_info_advances(d, q);
    } else if b == svc_number(Svc::PacketEntities) || b == svc_number(Svc::DeltaPacketEntities) {
        lemma_packet_entities_advances(d, q, b == svc_number(Svc::DeltaPacketEntities));
    }
}

/// A message that reads ends after where it began.
pub proof fn lemma_rd_svc_advances(d: Seq<u8>, p: int)
    ensures
        rd_svc(d, p) matches Ok((_, e)) ==> p < e <= d.len(),
{
    if 0 <= p && p + 1 <= d.len() {
        lemma_rd_svc_body_advances(d, p + 1, d[p]);
    }
}

/// The messages from position `p` to the end; on a failure, why, and the
/// identifier byte of the message that failed.
pub open spec fn rd_svc_stream(d: Seq<u8>, p: int) -> Result<Seq<SvcView>, (SvcFailure, u8)>
    decreases d.len() - p,
{
    if p < 0 || p >= d.len() {
        Ok(Seq::empty())
    } else {
        match rd_svc(d, p) {
            Err(f) => Err((f, d[p])),
            Ok((v, e)) => {
                proof {
                    lemma_rd_svc_advances(d, p);
                }
                match rd_svc_stream(d, e) {
                    Ok(rest) => Ok(seq![v] + rest),
                    Err(x) => Err(x),
                }
            },
        }
    }
}

pub open spec fn svc_views(ms: Seq<SvcMessage>) -> Seq<SvcView> {
    Seq::new(ms.len(), |i: int| svc_view(ms[i]))
}

/// Reads every message up to the end of the data.
pub fn parse_svc_stream(reader: &mut MsgReader) -> (r: Result<Vec<SvcMessage>, SvcParseError>)
    requires
        old(reader).wf(),
    ensures
        final(reader).wf(),
        final(reader).data() == old(reader).data(),
        match rd_svc_stream(old(reader).data(), old(reader).cursor()) {
            Ok(vs) => r matches Ok(ms) && svc_views(ms@) == vs && final(reader).cursor() == old(reader).data().len(),
            Err((f, b)) => match r {
                Ok(_) => false,
                Err(e) => svc_result(Err(e), Err(f), b),
            },
        },
{
    let ghost d = reader.data();
    let ghost c0 = reader.cursor();
    let mut messages: Vec<SvcMessage> = Vec::new();
    while reader.remaining() > 0
        invariant
            reader.wf(),
            reader.data() == d,
            d == old(reader).data(),
            c0 == old(reader).cursor(),
            rd_svc_stream(d, c0) == match rd_svc_stream(d, reader.cursor()) {
                Ok(rest) => Ok(svc_views(messages@) + rest),
                Err(x) => Err::<Seq<SvcView>, (SvcFailure, u8)>(x),
            },
        decreases d.len() - reader.cursor(),
    {
        let ghost pos = reader.cursor();
        proof {
            lemma_rd_svc_advances(d, pos);
        }
        match parse_svc_message(reader) {
            Ok(m) => {
                let ghost before = svc_views(messages@);
                messages.push(m);
                proof {
                    assert(svc_views(messages@) =~= before.push(svc_view(m)));
                    match rd_svc_stream(d, reader.cursor()) {
                        Ok(rest) => {
                            assert(before + (seq![svc_view(m)] + rest) =~= before.push(svc_view(m)) + rest);
                        },
                        Err(_) => {},
                    }
                }
            },
            Err(e) => {
                return Err(e);
            },
        }
    }
    assert(svc_views(messages@) + Seq::<SvcView>::empty() =~= svc_views(messages@));
    Ok(messages)
}

// ---- writing, as the list of writes a message makes ----

pub open spec fn p_u8(v: u8) -> Seq<Seq<u8>> {
    seq![seq![v]]
}

pub open spec fn p_u16(v: u16) -> Seq<Seq<u8>> {
    seq![le_u16(v)]
}

pub open spec fn p_i16(v: i16) -> Seq<Seq<u8>> {
    seq![le_u16(v as u16)]
}

pub open spec fn p_u32(v: u32) -> Seq<Seq<u8>> {
    seq![le_u32(v)]
}

pub open spec fn p_i32(v: i32) -> Seq<Seq<u8>> {
    seq![le_u32(v as u32)]
}

/// A string: its bytes, then the terminating zero, as two writes.
pub open spec fn p_str(t: Seq<char>) -> Seq<Seq<u8>> {
    seq![vstd::utf8::encode_utf8(t), seq![0u8]]
}

pub open spec fn p_opt_u8(v: Option<u8>) -> Seq<Seq<u8>> {
    match v {
        Some(x) => p_u8(x),
        None => Seq::empty(),
    }
}

pub open spec fn p_opt_i16(v: Option<i16>) -> Seq<Seq<u8>> {
    match v {
        Some(x) => p_i16(x),
        None => Seq::empty(),
    }
}

pub open spec fn p_if(c: bool, parts: Seq<Seq<u8>>) -> Seq<Seq<u8>> {
    if c { parts } else { Seq::empty() }
}

pub open spec fn flag_u8(c: bool, bit: u8) -> u8 {
    if c { bit } else { 0u8 }
}

pub open spec fn flag_u16(c: bool, bit: u16) -> u16 {
    if c { bit } else { 0u16 }
}

/// The flags of a movement command sent as its changes from `from`: one
/// bit for each field that differs.
pub open spec fn usercmd_bits(from: UserCmd, cmd: UserCmd) -> u8 {
    flag_u8(cmd.angles.x != from.angles.x, CM_ANGLE1) | flag_u8(cmd.angles.y != from.angles.y, CM_ANGLE2)
        | flag_u8(cmd.angles.z != from.angles.z, CM_ANGLE3) | flag_u8(cmd.forwardmove != from.forwardmove, CM_FORWARD)
        | flag_u8(cmd.sidemove != from.sidemove, CM_SIDE) | flag_u8(cmd.upmove != from.upmove, CM_UP)
        | flag_u8(cmd.buttons != from.buttons, CM_BUTTONS) | flag_u8(cmd.impulse != from.impulse, CM_IMPULSE)
}

/// The writes of a movement command sent as its changes from `from`: the
/// flags, the fields that differ, the duration.
pub open spec fn usercmd_parts(from: UserCmd, cmd: UserCmd) -> Seq<Seq<u8>> {
    let bits = usercmd_bits(from, cmd);
    p_u8(bits) + p_if(bits & CM_ANGLE1 != 0, p_i16(cmd.angles.x)) + p_if(bits & CM_ANGLE2 != 0, p_i16(cmd.angles.y))
        + p_if(bits & CM_ANGLE3 != 0, p_i16(cmd.angles.z)) + p_if(bits & CM_FORWARD != 0, p_i16(cmd.forwardmove))
        + p_if(bits & CM_SIDE != 0, p_i16(cmd.sidemove)) + p_if(bits & CM_UP != 0, p_i16(cmd.upmove))
        + p_if(bits & CM_BUTTONS != 0, p_u8(cmd.buttons)) + p_if(bits & CM_IMPULSE != 0, p_u8(cmd.impulse))
        + p_u8(cmd.msec)
}

/// The flags that an entity update is sent with: one for each field it
/// carries, the extra byte's flags folded in with `U_MOREBITS` when any
/// is set.
pub open spec fn delta_flags(e: EntityDelta) -> u16 {
    let low = flag_u16(e.origin_x is Some, U_ORIGIN1) | flag_u16(e.origin_y is Some, U_ORIGIN2)
        | flag_u16(e.origin_z is Some, U_ORIGIN3) | flag_u16(e.angle_y is Some, U_ANGLE2)
        | flag_u16(e.frame is Some, U_FRAME) | flag_u16(e.remove, U_REMOVE);
    let more = flag_u8(e.angle_x is Some, U_ANGLE1) | flag_u8(e.angle_z is Some, U_ANGLE3)
        | flag_u8(e.model_index is Some, U_MODEL) | flag_u8(e.colormap is Some, U_COLORMAP)
        | flag_u8(e.skin_num is Some, U_SKIN) | flag_u8(e.effects is Some, U_EFFECTS) | flag_u8(e.solid, U_SOLID);
    if more != 0 { low | U_MOREBITS | (more as u16) } else { low }
}

/// The writes of an entity update: the word of number and flags, the
/// extra flags byte when needed, then the fields it carries.
pub open spec fn entity_parts(e: EntityDelta) -> Seq<Seq<u8>> {
    let flags = delta_flags(e);
    p_u16((e.number & 0x1ffu16) | (flags & 0xfe00u16)) + p_if(flags & U_MOREBITS != 0, p_u8((flags & 0xffu16) as u8))
        + p_opt_u8(e.model_index) + p_opt_u8(e.frame) + p_opt_u8(e.colormap) + p_opt_u8(e.skin_num)
        + p_opt_u8(e.effects) + p_opt_i16(e.origin_x) + p_opt_u8(e.angle_x) + p_opt_i16(e.origin_y)
        + p_opt_u8(e.angle_y) + p_opt_i16(e.origin_z) + p_opt_u8(e.angle_z)
}

pub open spec fn entities_parts(es: Seq<EntityDelta>) -> Seq<Seq<u8>>
    decreases es.len(),
{
    if es.len() == 0 {
        Seq::empty()
    } else {
        entities_parts(es.drop_last()) + entity_parts(es.last())
    }
}

pub open spec fn baseline_parts(s: EntityState) -> Seq<Seq<u8>> {
    p_u8(s.modelindex as u8) + p_u8(s.frame as u8) + p_u8(s.colormap as u8) + p_u8(s.skinnum as u8)
        + p_i16(s.origin.x) + p_i16(s.origin.y) + p_i16(s.origin.z) + p_u8(s.angles.x) + p_u8(s.angles.y)
        + p_u8(s.angles.z)
}

pub open spec fn movevars_parts(m: MoveVars) -> Seq<Seq<u8>> {
    p_u32(m.gravity) + p_u32(m.stopspeed) + p_u32(m.maxspeed) + p_u32(m.spectatormaxspeed) + p_u32(m.accelerate)
        + p_u32(m.airaccelerate) + p_u32(m.wateraccelerate) + p_u32(m.friction) + p_u32(m.waterfriction)
        + p_u32(m.entgravity)
}

/// The writes of a server data message; the spectator bit goes on top of
/// the player number.
pub open spec fn serverdata_parts(v: ServerDataView) -> Seq<Seq<u8>> {
    p_i32(v.protocol) + p_i32(v.server_count) + p_str(v.game_dir)
        + p_u8((v.player_num & 0x7f) | flag_u8(v.spectator, 0x80)) + p_str(v.level_name) + movevars_parts(v.movevars)
}

pub open spec fn or_zero(v: Option<u8>) -> u8 {
    match v {
        Some(x) => x,
        None => 0,
    }
}

/// The writes of a player's info: the fixed fields, then each field its
/// flags name, zero for one it lacks.
pub open spec fn player_info_parts(pi: PlayerInfoMessage) -> Seq<Seq<u8>> {
    let f = pi.flags as u32;
    p_u8(pi.num) + p_u16(pi.flags) + p_i16(pi.origin.x) + p_i16(pi.origin.y) + p_i16(pi.origin.z) + p_u8(pi.frame)
        + p_if(f & PF_MSEC != 0, p_u8(or_zero(pi.msec)))
        + p_if(f & PF_COMMAND != 0, usercmd_parts(zero_cmd(), match pi.command { Some(c) => c, None => zero_cmd() }))
        + p_if(f & PF_VELOCITY1 != 0, p_i16(pi.velocity.x)) + p_if(f & PF_VELOCITY2 != 0, p_i16(pi.velocity.y))
        + p_if(f & PF_VELOCITY3 != 0, p_i16(pi.velocity.z)) + p_if(f & PF_MODEL != 0, p_u8(or_zero(pi.model_index)))
        + p_if(f & PF_SKINNUM != 0, p_u8(or_zero(pi.skin_num))) + p_if(f & PF_EFFECTS != 0, p_u8(or_zero(pi.effects)))
        + p_if(f & PF_WEAPONFRAME != 0, p_u8(or_zero(pi.weapon_frame)))
}

/// The start of a packet of entities: its identifier byte, and the frame
/// it is a delta from when it is one.
pub open spec fn packet_head_parts(from: Option<u8>) -> Seq<Seq<u8>> {
    match from {
        Some(f) => p_u8(svc_number(Svc::DeltaPacketEntities)) + p_u8(f),
        None => p_u8(svc_number(Svc::PacketEntities)),
    }
}

/// The writes of a message: its identifier byte and its fields.
pub open spec fn svc_parts(v: SvcView) -> Seq<Seq<u8>> {
    match v {
        SvcView::ServerData(sd) => p_u8(svc_number(Svc::ServerData)) + serverdata_parts(sd),
        SvcView::Print { level, message } => p_u8(svc_number(Svc::Print)) + p_u8(level) + p_str(message),
        SvcView::StuffText(t) => p_u8(svc_number(Svc::StuffText)) + p_str(t),
        SvcView::SoundList(start, items, next) => p_u8(svc_number(Svc::SoundList)) + chunk_parts(start, items, next),
        SvcView::ModelList(start, items, next) => p_u8(svc_number(Svc::ModelList)) + chunk_parts(start, items, next),
        SvcView::UpdateFrags { slot, frags } => p_u8(svc_number(Svc::UpdateFrags)) + p_u8(slot) + p_i16(frags),
        SvcView::UpdatePing { slot, ping } => p_u8(svc_number(Svc::UpdatePing)) + p_u8(slot) + p_i16(ping),
        SvcView::UpdatePl { slot, packet_loss } => p_u8(svc_number(Svc::UpdatePl)) + p_u8(slot) + p_u8(packet_loss),
        SvcView::UpdateEnterTime { slot, seconds_ago } => p_u8(svc_number(Svc::UpdateEnterTime)) + p_u8(slot) + p_u32(seconds_ago),
        SvcView::UpdateUserInfo { slot, user_id, userinfo } => p_u8(svc_number(Svc::UpdateUserInfo)) + p_u8(slot)
            + p_i32(user_id) + p_str(userinfo),
        SvcView::SetInfo { slot, key, value } => p_u8(svc_number(Svc::SetInfo)) + p_u8(slot) + p_str(key) + p_str(value),
        SvcView::ServerInfo { key, value } => p_u8(svc_number(Svc::ServerInfo)) + p_str(key) + p_str(value),
        SvcView::PlayerInfo(pi) => p_u8(svc_number(Svc::PlayerInfo)) + player_info_parts(pi),
        SvcView::SpawnBaseline { entity, baseline } => p_u8(svc_number(Svc::SpawnBaseline)) + p_u16(entity)
            + baseline_parts(baseline),
        SvcView::PacketEntities(from, ents) => packet_head_parts(from) + entities_parts(ents) + p_u16(0),
    }
}

pub(crate) fn push_u8(parts: &mut Vec<Vec<u8>>, v: u8)
    ensures
        byte_parts(final(parts)@) == byte_parts(old(parts)@) + p_u8(v),
{
    let mut b: Vec<u8> = Vec::new();
    b.push(v);
    assert(b@ =~= seq![v]);
    parts.push(b);
    assert(byte_parts(parts@) =~= byte_parts(old(parts)@) + p_u8(v));
}

fn push_u16(parts: &mut Vec<Vec<u8>>, v: u16)
    ensures
        byte_parts(final(parts)@) == byte_parts(old(parts)@) + p_u16(v),
{
    let a = u16_to_le(v);
    let b = vstd::slice::slice_to_vec(&a);
    parts.push(b);
    assert(byte_parts(parts@) =~= byte_parts(old(parts)@) + p_u16(v));
}

fn push_i16(parts: &mut Vec<Vec<u8>>, v: i16)
    ensures
        byte_parts(final(parts)@) == byte_parts(old(parts)@) + p_i16(v),
{
    push_u16(parts, v as u16);
}

fn push_u32(parts: &mut Vec<Vec<u8>>, v: u32)
    ensures
        byte_parts(final(parts)@) == byte_parts(old(parts)@) + p_u32(v),
{
    let a = u32_to_le(v);
    let b = vstd::slice::slice_to_vec(&a);
    parts.push(b);
    assert(byte_parts(parts@) =~= byte_parts(old(parts)@) + p_u32(v));
}

fn push_i32(parts: &mut Vec<Vec<u8>>, v: i32)
    ensures
        byte_parts(final(parts)@) == byte_parts(old(parts)@) + p_i32(v),
{
    push_u32(parts, v as u32);
}

fn push_str(parts: &mut Vec<Vec<u8>>, t: &str)
    ensures
        byte_parts(final(parts)@) == byte_parts(old(parts)@) + p_str(t@),
{
    let b = vstd::slice::slice_to_vec(t.as_bytes());
    parts.push(b);
    let mut z: Vec<u8> = Vec::new();
    z.push(0);
    assert(z@ =~= seq![0u8]);
    parts.push(z);
    assert(byte_parts(parts@) =~= byte_parts(old(parts)@) + p_str(t@));
}

fn push_opt_u8(parts: &mut Vec<Vec<u8>>, v: Option<u8>)
    ensures
        byte_parts(final(parts)@) == byte_parts(old(parts)@) + p_opt_u8(v),
{
    match v {
        Some(x) => push_u8(parts, x),
        None => {
            assert(byte_parts(parts@) =~= byte_parts(old(parts)@) + p_opt_u8(v));
        },
    }
}

fn push_opt_i16(parts: &mut Vec<Vec<u8>>, v: Option<i16>)
    ensures
        byte_parts(final(parts)@) == byte_parts(old(parts)@) + p_opt_i16(v),
{
    match v {
        Some(x) => push_i16(parts, x),
        None => {
            assert(byte_parts(parts@) =~= byte_parts(old(parts)@) + p_opt_i16(v));
        },
    }
}

fn push_if_i16(parts: &mut Vec<Vec<u8>>, c: bool, v: i16)
    ensures
        byte_parts(final(parts)@) == byte_parts(old(parts)@) + p_if(c, p_i16(v)),
{
    if c {
        push_i16(parts, v);
    } else {
        assert(byte_parts(parts@) =~= byte_parts(old(parts)@) + p_if(c, p_i16(v)));
    }
}

fn push_if_u8(parts: &mut Vec<Vec<u8>>, c: bool, v: u8)
    ensures
        byte_parts(final(parts)@) == byte_parts(old(parts)@) + p_if(c, p_u8(v)),
{
    if c {
        push_u8(parts, v);
    } else {
        assert(byte_parts(parts@) =~= byte_parts(old(parts)@) + p_if(c, p_u8(v)));
    }
}

/// Moves the parts of `local` to the end of `parts`.
pub(crate) fn append_parts(parts: &mut Vec<Vec<u8>>, local: &mut Vec<Vec<u8>>)
    ensures
        byte_parts(final(parts)@) == byte_parts(old(parts)@) + byte_parts(old(local)@),
{
    parts.append(local);
    assert(byte_parts(parts@) =~= byte_parts(old(parts)@) + byte_parts(old(local)@));
}

/// A list of parts that starts with one byte.
fn start_u8(v: u8) -> (r: Vec<Vec<u8>>)
    ensures
        byte_parts(r@) == p_u8(v),
{
    let mut r: Vec<Vec<u8>> = Vec::new();
    push_u8(&mut r, v);
    assert(byte_parts(r@) =~= p_u8(v));
    r
}

fn usercmd_bits_exec(from: &UserCmd, cmd: &UserCmd) -> (bits: u8)
    ensures
        bits == usercmd_bits(*from, *cmd),
{
    (if cmd.angles.x != from.angles.x { CM_ANGLE1 } else { 0 })
        | (if cmd.angles.y != from.angles.y { CM_ANGLE2 } else { 0 })
        | (if cmd.angles.z != from.angles.z { CM_ANGLE3 } else { 0 })
        | (if cmd.forwardmove != from.forwardmove { CM_FORWARD } else { 0 })
        | (if cmd.sidemove != from.sidemove { CM_SIDE } else { 0 })
        | (if cmd.upmove != from.upmove { CM_UP } else { 0 })
        | (if cmd.buttons != from.buttons { CM_BUTTONS } else { 0 })
        | (if cmd.impulse != from.impulse { CM_IMPULSE } else { 0 })
}

pub(crate) fn usercmd_parts_exec(from: &UserCmd, cmd: &UserCmd) -> (r: Vec<Vec<u8>>)
    ensures
        byte_parts(r@) == usercmd_parts(*from, *cmd),
{
    let bits = usercmd_bits_exec(from, cmd);
    let mut r = start_u8(bits);
    push_if_i16(&mut r, bits & CM_ANGLE1 != 0, cmd.angles.x);
    push_if_i16(&mut r, bits & CM_ANGLE2 != 0, cmd.angles.y);
    push_if_i16(&mut r, bits & CM_ANGLE3 != 0, cmd.angles.z);
    push_if_i16(&mut r, bits & CM_FORWARD != 0, cmd.forwardmove);
    push_if_i16(&mut r, bits & CM_SIDE != 0, cmd.sidemove);
    push_if_i16(&mut r, bits & CM_UP != 0, cmd.upmove);
    push_if_u8(&mut r, bits & CM_BUTTONS != 0, cmd.buttons);
    push_if_u8(&mut r, bits & CM_IMPULSE != 0, cmd.impulse);
    push_u8(&mut r, cmd.msec);
    r
}

/// Writes a movement command as its changes from `from`.
pub fn write_delta_usercmd(buf: &mut SizeBuf, from: &UserCmd, cmd: &UserCmd) -> (r: Result<(), SizeBufError>)
    requires
        old(buf).wf(),
    ensures
        final(buf).wf(),
        (final(buf)@, r) == write_all(old(buf)@, usercmd_parts(*from, *cmd)),
{
    let parts = usercmd_parts_exec(from, cmd);
    write_parts(buf, &parts)
}

impl EntityDelta {
    /// The flags this update is sent with.
    pub fn compute_flags(&self) -> (r: u16)
        ensures
            r == delta_flags(*self),
    {
        let low: u16 = (if self.origin_x.is_some() { U_ORIGIN1 } else { 0 })
            | (if self.origin_y.is_some() { U_ORIGIN2 } else { 0 })
            | (if self.origin_z.is_some() { U_ORIGIN3 } else { 0 })
            | (if self.angle_y.is_some() { U_ANGLE2 } else { 0 })
            | (if self.frame.is_some() { U_FRAME } else { 0 })
            | (if self.remove { U_REMOVE } else { 0 });
        let more: u8 = (if self.angle_x.is_some() { U_ANGLE1 } else { 0 })
            | (if self.angle_z.is_some() { U_ANGLE3 } else { 0 })
            | (if self.model_index.is_some() { U_MODEL } else { 0 })
            | (if self.colormap.is_some() { U_COLORMAP } else { 0 })
            | (if self.skin_num.is_some() { U_SKIN } else { 0 })
            | (if self.effects.is_some() { U_EFFECTS } else { 0 })
            | (if self.solid { U_SOLID } else { 0 });
        if more != 0 {
            low | U_MOREBITS | (more as u16)
        } else {
            low
        }
    }

    /// The state `from` with this update's fields put in.
    pub fn apply_to(&self, from: &EntityState) -> (r: EntityState)
        ensures
            r == applied(*self, *from),
    {
        let mut state = *from;
        state.number = self.number as i32;
        state.flags = self.flags as i32;
        match self.model_index { Some(v) => { state.modelindex = v as i32; }, None => {} }
        match self.frame { Some(v) => { state.frame = v as i32; }, None => {} }
        match self.colormap { Some(v) => { state.colormap = v as i32; }, None => {} }
        match self.skin_num { Some(v) => { state.skinnum = v as i32; }, None => {} }
        match self.effects { Some(v) => { state.effects = v as i32; }, None => {} }
        match self.origin_x { Some(v) => { state.origin.x = v; }, None => {} }
        match self.origin_y { Some(v) => { state.origin.y = v; }, None => {} }
        match self.origin_z { Some(v) => { state.origin.z = v; }, None => {} }
        match self.angle_x { Some(v) => { state.angles.x = v; }, None => {} }
        match self.angle_y { Some(v) => { state.angles.y = v; }, None => {} }
        match self.angle_z { Some(v) => { state.angles.z = v; }, None => {} }
        state
    }
}

pub open spec fn or_i32(v: Option<u8>, dflt: i32) -> i32 {
    match v {
        Some(x) => x as i32,
        None => dflt,
    }
}

pub open spec fn or_i16(v: Option<i16>, dflt: i16) -> i16 {
    match v {
        Some(x) => x,
        None => dflt,
    }
}

pub open spec fn or_u8(v: Option<u8>, dflt: u8) -> u8 {
    match v {
        Some(x) => x,
        None => dflt,
    }
}

/// The state after an update: its number and flags, and each field it
/// carries; the rest as before.
pub open spec fn applied(e: EntityDelta, s: EntityState) -> EntityState {
    EntityState {
        number: e.number as i32,
        flags: e.flags as i32,
        origin: WireVec { x: or_i16(e.origin_x, s.origin.x), y: or_i16(e.origin_y, s.origin.y), z: or_i16(e.origin_z, s.origin.z) },
        angles: ByteAngles { x: or_u8(e.angle_x, s.angles.x), y: or_u8(e.angle_y, s.angles.y), z: or_u8(e.angle_z, s.angles.z) },
        modelindex: or_i32(e.model_index, s.modelindex),
        frame: or_i32(e.frame, s.frame),
        colormap: or_i32(e.colormap, s.colormap),
        skinnum: or_i32(e.skin_num, s.skinnum),
        effects: or_i32(e.effects, s.effects),
    }
}

/// Applying a change to a state: the entity takes the change's number and
/// flags, each field the change carries takes its value, and each field it
/// leaves out keeps the state's value.
pub proof fn law_applied_fields(e: EntityDelta, s: EntityState)
    ensures
        applied(e, s).number == e.number as i32,
        applied(e, s).flags == e.flags as i32,
        e.origin_x is None ==> applied(e, s).origin.x == s.origin.x,
        e.origin_y is None ==> applied(e, s).origin.y == s.origin.y,
        e.origin_z is None ==> applied(e, s).origin.z == s.origin.z,
        e.angle_x is None ==> applied(e, s).angles.x == s.angles.x,
        e.angle_y is None ==> applied(e, s).angles.y == s.angles.y,
        e.angle_z is None ==> applied(e, s).angles.z == s.angles.z,
        e.model_index is None ==> applied(e, s).modelindex == s.modelindex,
        e.frame is None ==> applied(e, s).frame == s.frame,
        e.colormap is None ==> applied(e, s).colormap == s.colormap,
        e.skin_num is None ==> applied(e, s).skinnum == s.skinnum,
        e.effects is None ==> applied(e, s).effects == s.effects,
        e.origin_x matches Some(v) ==> applied(e, s).origin.x == v,
        e.origin_y matches Some(v) ==> applied(e, s).origin.y == v,
        e.origin_z matches Some(v) ==> applied(e, s).origin.z == v,
        e.angle_x matches Some(v) ==> applied(e, s).angles.x == v,
        e.angle_y matches Some(v) ==> applied(e, s).angles.y == v,
        e.angle_z matches Some(v) ==> applied(e, s).angles.z == v,
        e.model_index matches Some(v) ==> applied(e, s).modelindex == v as i32,
        e.frame matches Some(v) ==> applied(e, s).frame == v as i32,
        e.colormap matches Some(v) ==> applied(e, s).colormap == v as i32,
        e.skin_num matches Some(v) ==> applied(e, s).skinnum == v as i32,
        e.effects matches Some(v) ==> applied(e, s).effects == v as i32,
{
}

fn entity_parts_exec(e: &EntityDelta) -> (r: Vec<Vec<u8>>)
    ensures
        byte_parts(r@) == entity_parts(*e),
{
    let flags = e.compute_flags();
    let mut r: Vec<Vec<u8>> = Vec::new();
    push_u16(&mut r, (e.number & 0x1ff) | (flags & 0xfe00));
    assert(Seq::<Seq<u8>>::empty() + p_u16((e.number & 0x1ffu16) | (flags & 0xfe00u16)) =~= p_u16((e.number & 0x1ffu16) | (flags & 0xfe00u16)));
    push_if_u8(&mut r, flags & U_MOREBITS != 0, (flags & 0xff) as u8);
    push_opt_u8(&mut r, e.model_index);
    push_opt_u8(&mut r, e.frame);
    push_opt_u8(&mut r, e.colormap);
    push_opt_u8(&mut r, e.skin_num);
    push_opt_u8(&mut r, e.effects);
    push_opt_i16(&mut r, e.origin_x);
    push_opt_u8(&mut r, e.angle_x);
    push_opt_i16(&mut r, e.origin_y);
    push_opt_u8(&mut r, e.angle_y);
    push_opt_i16(&mut r, e.origin_z);
    push_opt_u8(&mut r, e.angle_z);
    r
}

fn baseline_parts_exec(s: &EntityState) -> (r: Vec<Vec<u8>>)
    ensures
        byte_parts(r@) == baseline_parts(*s),
{
    let mut r = start_u8(s.modelindex as u8);
    push_u8(&mut r, s.frame as u8);
    push_u8(&mut r, s.colormap as u8);
    push_u8(&mut r, s.skinnum as u8);
    push_i16(&mut r, s.origin.x);
    push_i16(&mut r, s.origin.y);
    push_i16(&mut r, s.origin.z);
    push_u8(&mut r, s.angles.x);
    push_u8(&mut r, s.angles.y);
    push_u8(&mut r, s.angles.z);
    r
}

fn movevars_parts_exec(m: &MoveVars) -> (r: Vec<Vec<u8>>)
    ensures
        byte_parts(r@) == movevars_parts(*m),
{
    let mut r: Vec<Vec<u8>> = Vec::new();
    push_u32(&mut r, m.gravity);
    assert(Seq::<Seq<u8>>::empty() + p_u32(m.gravity) =~= p_u32(m.gravity));
    push_u32(&mut r, m.stopspeed);
    push_u32(&mut r, m.maxspeed);
    push_u32(&mut r, m.spectatormaxspeed);
    push_u32(&mut r, m.accelerate);
    push_u32(&mut r, m.airaccelerate);
    push_u32(&mut r, m.wateraccelerate);
    push_u32(&mut r, m.friction);
    push_u32(&mut r, m.waterfriction);
    push_u32(&mut r, m.entgravity);
    r
}

/// The writes of a server data message.
pub fn serverdata_parts_exec(data: &ServerData) -> (r: Vec<Vec<u8>>)
    ensures
        byte_parts(r@) == serverdata_parts(server_data_view(*data)),
{
    let mut r: Vec<Vec<u8>> = Vec::new();
    push_i32(&mut r, data.protocol);
    assert(Seq::<Seq<u8>>::empty() + p_i32(data.protocol) =~= p_i32(data.protocol));
    push_i32(&mut r, data.server_count);
    push_str(&mut r, data.game_dir.as_str());
    let player: u8 = (data.player_num & 0x7f) | (if data.spectator { 0x80u8 } else { 0u8 });
    push_u8(&mut r, player);
    push_str(&mut r, data.level_name.as_str());
    let mut mv = movevars_parts_exec(&data.movevars);
    append_parts(&mut r, &mut mv);
    r
}

fn player_info_parts_exec(pi: &PlayerInfoMessage) -> (r: Vec<Vec<u8>>)
    ensures
        byte_parts(r@) == player_info_parts(*pi),
{
    let f = pi.flags as u32;
    let mut r = start_u8(pi.num);
    push_u16(&mut r, pi.flags);
    push_i16(&mut r, pi.origin.x);
    push_i16(&mut r, pi.origin.y);
    push_i16(&mut r, pi.origin.z);
    push_u8(&mut r, pi.frame);
    let msec = match pi.msec { Some(v) => v, None => 0 };
    push_if_u8(&mut r, f & PF_MSEC != 0, msec);
    let ghost before_cmd = byte_parts(r@);
    let base = UserCmd::default();
    let cmd = match pi.command { Some(c) => c, None => base };
    if f & PF_COMMAND != 0 {
        let mut c = usercmd_parts_exec(&base, &cmd);
        append_parts(&mut r, &mut c);
    } else {
        assert(before_cmd + Seq::<Seq<u8>>::empty() =~= before_cmd);
    }
    push_if_i16(&mut r, f & PF_VELOCITY1 != 0, pi.velocity.x);
    push_if_i16(&mut r, f & PF_VELOCITY2 != 0, pi.velocity.y);
    push_if_i16(&mut r, f & PF_VELOCITY3 != 0, pi.velocity.z);
    let model = match pi.model_index { Some(v) => v, None => 0 };
    push_if_u8(&mut r, f & PF_MODEL != 0, model);
    let skin = match pi.skin_num { Some(v) => v, None => 0 };
    push_if_u8(&mut r, f & PF_SKINNUM != 0, skin);
    let effects = match pi.effects { Some(v) => v, None => 0 };
    push_if_u8(&mut r, f & PF_EFFECTS != 0, effects);
    let weapon = match pi.weapon_frame { Some(v) => v, None => 0 };
    push_if_u8(&mut r, f & PF_WEAPONFRAME != 0, weapon);
    r
}

fn entities_parts_exec(es: &Vec<EntityDelta>) -> (r: Vec<Vec<u8>>)
    ensures
        byte_parts(r@) == entities_parts(es@),
{
    let mut r: Vec<Vec<u8>> = Vec::new();
    let mut i: usize = 0;
    assert(es@.take(0) =~= Seq::<EntityDelta>::empty());
    assert(byte_parts(r@) =~= Seq::<Seq<u8>>::empty());
    while i < es.len()
        invariant
            i <= es@.len(),
            byte_parts(r@) == entities_parts(es@.take(i as int)),
        decreases es@.len() - i,
    {
        let mut one = entity_parts_exec(&es[i]);
        append_parts(&mut r, &mut one);
        assert(es@.take(i + 1).drop_last() =~= es@.take(i as int));
        i = i + 1;
    }
    assert(es@.take(i as int) =~= es@);
    r
}

fn chunk_parts_exec(chunk: &StringListChunk) -> (r: Vec<Vec<u8>>)
    ensures
        byte_parts(r@) == chunk_parts(chunk.start, string_views(chunk.items@), chunk.next),
{
    let ghost all = string_views(chunk.items@);
    let mut r = start_u8(chunk.start);
    let mut items: Vec<Vec<u8>> = Vec::new();
    let mut i: usize = chunk.items.len();
    assert(all.skip(i as int) =~= Seq::<Seq<char>>::empty());
    assert(byte_parts(items@) =~= item_parts(all.skip(i as int)));
    while i > 0
        invariant
            i <= chunk.items@.len(),
            all == string_views(chunk.items@),
            byte_parts(items@) == item_parts(all.skip(i as int)),
        decreases i,
    {
        i = i - 1;
        let mut one: Vec<Vec<u8>> = Vec::new();
        push_str(&mut one, chunk.items[i].as_str());
        append_parts(&mut one, &mut items);
        items = one;
        proof {
            let rest = all.skip(i as int);
            assert(rest.drop_first() =~= all.skip(i + 1));
            assert(rest[0] == chunk.items@[i as int]@);
            assert(item_parts(rest) == seq![vstd::utf8::encode_utf8(rest[0]), seq![0u8]] + item_parts(rest.drop_first()));
            assert(byte_parts(items@) =~= item_parts(rest));
        }
    }
    assert(all.skip(0) =~= all);
    append_parts(&mut r, &mut items);
    let mut tail: Vec<Vec<u8>> = Vec::new();
    tail.push(Vec::new());
    push_u8(&mut tail, 0);
    push_u8(&mut tail, chunk.next);
    append_parts(&mut r, &mut tail);
    assert(byte_parts(r@) =~= chunk_parts(chunk.start, all, chunk.next));
    r
}

/// The writes of a message.
pub fn svc_parts_exec(m: &SvcMessage) -> (r: Vec<Vec<u8>>)
    ensures
        byte_parts(r@) == svc_parts(svc_view(*m)),
{
    match m {
        SvcMessage::ServerData(data) => {
            let mut r = start_u8(Svc::ServerData.to_u8());
            let mut body = serverdata_parts_exec(data);
            append_parts(&mut r, &mut body);
            r
        },
        SvcMessage::Print { level, message } => {
            let mut r = start_u8(Svc::Print.to_u8());
            push_u8(&mut r, *level);
            push_str(&mut r, message.as_str());
            r
        },
        SvcMessage::StuffText(text) => {
            let mut r = start_u8(Svc::StuffText.to_u8());
            push_str(&mut r, text.as_str());
            r
        },
        SvcMessage::SoundList(chunk) => {
            let mut r = start_u8(Svc::SoundList.to_u8());
            let mut body = chunk_parts_exec(chunk);
            append_parts(&mut r, &mut body);
            r
        },
        SvcMessage::ModelList(chunk) => {
            let mut r = start_u8(Svc::ModelList.to_u8());
            let mut body = chunk_parts_exec(chunk);
            append_parts(&mut r, &mut body);
            r
        },
        SvcMessage::UpdateFrags { slot, frags } => {
            let mut r = start_u8(Svc::UpdateFrags.to_u8());
            push_u8(&mut r, *slot);
            push_i16(&mut r, *frags);
            r
        },
        SvcMessage::UpdatePing { slot, ping } => {
            let mut r = start_u8(Svc::UpdatePing.to_u8());
            push_u8(&mut r, *slot);
            push_i16(&mut r, *ping);
            r
        },
        SvcMessage::UpdatePl { slot, packet_loss } => {
            let mut r = start_u8(Svc::UpdatePl.to_u8());
            push_u8(&mut r, *slot);
            push_u8(&mut r, *packet_loss);
            r
        },
        SvcMessage::UpdateEnterTime { slot, seconds_ago } => {
            let mut r = start_u8(Svc::UpdateEnterTime.to_u8());
            push_u8(&mut r, *slot);
            push_u32(&mut r, *seconds_ago);
            r
        },
        SvcMessage::UpdateUserInfo { slot, user_id, userinfo } => {
            let mut r = start_u8(Svc::UpdateUserInfo.to_u8());
            push_u8(&mut r, *slot);
            push_i32(&mut r, *user_id);
            push_str(&mut r, userinfo.as_str());
            r
        },
        SvcMessage::SetInfo { slot, key, value } => {
            let mut r = start_u8(Svc::SetInfo.to_u8());
            push_u8(&mut r, *slot);
            push_str(&mut r, key.as_str());
            push_str(&mut r, value.as_str());
            r
        },
        SvcMessage::ServerInfo { key, value } => {
            let mut r = start_u8(Svc::ServerInfo.to_u8());
            push_str(&mut r, key.as_str());
            push_str(&mut r, value.as_str());
            r
        },
        SvcMessage::PlayerInfo(pi) => {
            let mut r = start_u8(Svc::PlayerInfo.to_u8());
            let mut body = player_info_parts_exec(pi);
            append_parts(&mut r, &mut body);
            r
        },
        SvcMessage::SpawnBaseline { entity, baseline } => {
            let mut r = start_u8(Svc::SpawnBaseline.to_u8());
            push_u16(&mut r, *entity);
            let mut body = baseline_parts_exec(baseline);
            append_parts(&mut r, &mut body);
            r
        },
        SvcMessage::PacketEntities(update) => {
            let mut r = match update.delta_from {
                Some(from) => {
                    let mut h = start_u8(Svc::DeltaPacketEntities.to_u8());
                    push_u8(&mut h, from);
                    h
                },
                None => start_u8(Svc::PacketEntities.to_u8()),
            };
            let mut body = entities_parts_exec(&update.entities);
            append_parts(&mut r, &mut body);
            push_u16(&mut r, 0);
            r
        },
    }
}

/// Writes a message: each write as `spec_write` says, stopping at the
/// first refused.
pub fn write_svc_message(buf: &mut SizeBuf, message: &SvcMessage) -> (r: Result<(), SizeBufError>)
    requires
        old(buf).wf(),
    ensures
        final(buf).wf(),
        (final(buf)@, r) == write_all(old(buf)@, svc_parts(svc_view(*message))),
{
    let parts = svc_parts_exec(message);
    write_parts(buf, &parts)
}

} // verus!

//! QuakeWorld protocol numbers: message identifiers and limits.
use vstd::prelude::*;

verus! {

pub const PROTOCOL_VERSION: i32 = 28;
pub const QW_CHECK_HASH: u16 = 0x5157;

pub const PORT_CLIENT: u16 = 27001;
pub const PORT_MASTER: u16 = 27000;
pub const PORT_SERVER: u16 = 27500;

pub const S2C_CHALLENGE: u8 = 99;
pub const S2C_CONNECTION: u8 = 106;
pub const A2A_PING: u8 = 107;
pub const A2A_ACK: u8 = 108;
pub const A2A_NACK: u8 = 109;
pub const A2A_ECHO: u8 = 101;
pub const A2C_PRINT: u8 = 110;
pub const S2M_HEARTBEAT: u8 = 97;
pub const A2C_CLIENT_COMMAND: u8 = 66;
pub const S2M_SHUTDOWN: u8 = 67;

pub const MAX_MSGLEN: usize = 1450;
pub const MAX_DATAGRAM: usize = 1450;
pub const MAX_INFO_STRING: usize = 196;
pub const MAX_SERVERINFO_STRING: usize = 512;
pub const MAX_CLIENTS: usize = 32;
pub const UPDATE_BACKUP: usize = 64;
pub const UPDATE_MASK: usize = 63;
pub const MAX_PACKET_ENTITIES: usize = 64;

/// Player info flags: which optional fields follow.
pub const PF_MSEC: u32 = 0x1;
pub const PF_COMMAND: u32 = 0x2;
pub const PF_VELOCITY1: u32 = 0x4;
pub const PF_VELOCITY2: u32 = 0x8;
pub const PF_VELOCITY3: u32 = 0x10;
pub const PF_MODEL: u32 = 0x20;
pub const PF_SKINNUM: u32 = 0x40;
pub const PF_EFFECTS: u32 = 0x80;
pub const PF_WEAPONFRAME: u32 = 0x100;
pub const PF_DEAD: u32 = 0x200;
pub const PF_GIB: u32 = 0x400;
pub const PF_NOGRAV: u32 = 0x800;

/// Movement command flags: which fields changed.
pub const CM_ANGLE1: u8 = 0x1;
pub const CM_ANGLE3: u8 = 0x2;
pub const CM_FORWARD: u8 = 0x4;
pub const CM_SIDE: u8 = 0x8;
pub const CM_UP: u8 = 0x10;
pub const CM_BUTTONS: u8 = 0x20;
pub const CM_IMPULSE: u8 = 0x40;
pub const CM_ANGLE2: u8 = 0x80;

/// Entity update flags in the first word.
pub const U_ORIGIN1: u16 = 0x200;
pub const U_ORIGIN2: u16 = 0x400;
pub const U_ORIGIN3: u16 = 0x800;
pub const U_ANGLE2: u16 = 0x1000;
pub const U_FRAME: u16 = 0x2000;
pub const U_REMOVE: u16 = 0x4000;
pub const U_MOREBITS: u16 = 0x8000;

/// Entity update flags in the extra byte.
pub const U_ANGLE1: u8 = 0x1;
pub const U_ANGLE3: u8 = 0x2;
pub const U_MODEL: u8 = 0x4;
pub const U_COLORMAP: u8 = 0x8;
pub const U_SKIN: u8 = 0x10;
pub const U_EFFECTS: u8 = 0x20;
pub const U_SOLID: u8 = 0x40;

pub const CONTENTS_EMPTY: i32 = -1;
pub const CONTENTS_SOLID: i32 = -2;

/// Server-to-client message identifiers.
#[derive(Debug, Clone, Copy, PartialEq, Eq)]
pub enum Svc {
    Bad,
    Nop,
    Disconnect,
    UpdateStat,
    Version,
    SetView,
    Sound,
    Time,
    Print,
    StuffText,
    SetAngle,
    ServerData,
    LightStyle,
    UpdateName,
    UpdateFrags,
    ClientData,
    StopSound,
    UpdateColors,
    Particle,
    Damage,
    SpawnStatic,
    SpawnBaseline,
    TempEntity,
    SetPause,
    SignonNum,
    CenterPrint,
    KilledMonster,
    FoundSecret,
    SpawnStaticSound,
    Intermission,
    Finale,
    CdTrack,
    SellScreen,
    SmallKick,
    BigKick,
    UpdatePing,
    UpdateEnterTime,
    UpdateStatLong,
    MuzzleFlash,
    UpdateUserInfo,
    Download,
    PlayerInfo,
    Nails,
    ChokeCount,
    ModelList,
    SoundList,
    PacketEntities,
    DeltaPacketEntities,
    MaxSpeed,
    EntGravity,
    SetInfo,
    ServerInfo,
    UpdatePl,
}

/// The number that stands for each identifier.
pub open spec fn svc_number(m: Svc) -> u8 {
    match m {
        Svc::Bad => 0,
        Svc::Nop => 1,
        Svc::Disconnect => 2,
        Svc::UpdateStat => 3,
        Svc::Version => 4,
        Svc::SetView => 5,
        Svc::Sound => 6,
        Svc::Time => 7,
        Svc::Print => 8,
        Svc::StuffText => 9,
        Svc::SetAngle => 10,
        Svc::ServerData => 11,
        Svc::LightStyle => 12,
        Svc::UpdateName => 13,
        Svc::UpdateFrags => 14,
        Svc::ClientData => 15,
        Svc::StopSound => 16,
        Svc::UpdateColors => 17,
        Svc::Particle => 18,
        Svc::Damage => 19,
        Svc::SpawnStatic => 20,
        Svc::SpawnBaseline => 22,
        Svc::TempEntity => 23,
        Svc::SetPause => 24,
        Svc::SignonNum => 25,
        Svc::CenterPrint => 26,
        Svc::KilledMonster => 27,
        Svc::FoundSecret => 28,
        Svc::SpawnStaticSound => 29,
        Svc::Intermission => 30,
        Svc::Finale => 31,
        Svc::CdTrack => 32,
        Svc::SellScreen => 33,
        Svc::SmallKick => 34,
        Svc::BigKick => 35,
        Svc::UpdatePing => 36,
        Svc::UpdateEnterTime => 37,
        Svc::UpdateStatLong => 38,
        Svc::MuzzleFlash => 39,
        Svc::UpdateUserInfo => 40,
        Svc::Download => 41,
        Svc::PlayerInfo => 42,
        Svc::Nails => 43,
        Svc::ChokeCount => 44,
        Svc::ModelList => 45,
        Svc::SoundList => 46,
        Svc::PacketEntities => 47,
        Svc::DeltaPacketEntities => 48,
        Svc::MaxSpeed => 49,
        Svc::EntGravity => 50,
        Svc::SetInfo => 51,
        Svc::ServerInfo => 52,
        Svc::UpdatePl => 53,
    }
}

impl Svc {
    pub fn to_u8(self) -> (r: u8)
        ensures
            r == svc_number(self),
    {
        match self {
            Svc::Bad => 0,
            Svc::Nop => 1,
            Svc::Disconnect => 2,
            Svc::UpdateStat => 3,
            Svc::Version => 4,
            Svc::SetView => 5,
            Svc::Sound => 6,
            Svc::Time => 7,
            Svc::Print => 8,
            Svc::StuffText => 9,
            Svc::SetAngle => 10,
            Svc::ServerData => 11,
            Svc::LightStyle => 12,
            Svc::UpdateName => 13,
            Svc::UpdateFrags => 14,
            Svc::ClientData => 15,
            Svc::StopSound => 16,
            Svc::UpdateColors => 17,
            Svc::Particle => 18,
            Svc::Damage => 19,
            Svc::SpawnStatic => 20,
            Svc::SpawnBaseline => 22,
            Svc::TempEntity => 23,
            Svc::SetPause => 24,
            Svc::SignonNum => 25,
            Svc::CenterPrint => 26,
            Svc::KilledMonster => 27,
            Svc::FoundSecret => 28,
            Svc::SpawnStaticSound => 29,
            Svc::Intermission => 30,
            Svc::Finale => 31,
            Svc::CdTrack => 32,
            Svc::SellScreen => 33,
            Svc::SmallKick => 34,
            Svc::BigKick => 35,
            Svc::UpdatePing => 36,
            Svc::UpdateEnterTime => 37,
            Svc::UpdateStatLong => 38,
            Svc::MuzzleFlash => 39,
            Svc::UpdateUserInfo => 40,
            Svc::Download => 41,
            Svc::PlayerInfo => 42,
            Svc::Nails => 43,
            Svc::ChokeCount => 44,
            Svc::ModelList => 45,
            Svc::SoundList => 46,
            Svc::PacketEntities => 47,
            Svc::DeltaPacketEntities => 48,
            Svc::MaxSpeed => 49,
            Svc::EntGravity => 50,
            Svc::SetInfo => 51,
            Svc::ServerInfo => 52,
            Svc::UpdatePl => 53,
        }
    }

    /// The identifier with number `value`; an unknown number is returned as
    /// the error.
    pub fn try_from(value: u8) -> (r: Result<Svc, u8>)
        ensures
            match r {
                Ok(m) => svc_number(m) == value,
                Err(v) => v == value && forall|m: Svc| svc_number(m) != value,
            },
    {
        match value {
            0 => Ok(Svc::Bad),
            1 => Ok(Svc::Nop),
            2 => Ok(Svc::Disconnect),
            3 => Ok(Svc::UpdateStat),
            4 => Ok(Svc::Version),
            5 => Ok(Svc::SetView),
            6 => Ok(Svc::Sound),
            7 => Ok(Svc::Time),
            8 => Ok(Svc::Print),
            9 => Ok(Svc::StuffText),
            10 => Ok(Svc::SetAngle),
            11 => Ok(Svc::ServerData),
            12 => Ok(Svc::LightStyle),
            13 => Ok(Svc::UpdateName),
            14 => Ok(Svc::UpdateFrags),
            15 => Ok(Svc::ClientData),
            16 => Ok(Svc::StopSound),
            17 => Ok(Svc::UpdateColors),
            18 => Ok(Svc::Particle),
            19 => Ok(Svc::Damage),
            20 => Ok(Svc::SpawnStatic),
            22 => Ok(Svc::SpawnBaseline),
            23 => Ok(Svc::TempEntity),
            24 => Ok(Svc::SetPause),
            25 => Ok(Svc::SignonNum),
            26 => Ok(Svc::CenterPrint),
            27 => Ok(Svc::KilledMonster),
            28 => Ok(Svc::FoundSecret),
            29 => Ok(Svc::SpawnStaticSound),
            30 => Ok(Svc::Intermission),
            31 => Ok(Svc::Finale),
            32 => Ok(Svc::CdTrack),
            33 => Ok(Svc::SellScreen),
            34 => Ok(Svc::SmallKick),
            35 => Ok(Svc::BigKick),
            36 => Ok(Svc::UpdatePing),
            37 => Ok(Svc::UpdateEnterTime),
            38 => Ok(Svc::UpdateStatLong),
            39 => Ok(Svc::MuzzleFlash),
            40 => Ok(Svc::UpdateUserInfo),
            41 => Ok(Svc::Download),
            42 => Ok(Svc::PlayerInfo),
            43 => Ok(Svc::Nails),
            44 => Ok(Svc::ChokeCount),
            45 => Ok(Svc::ModelList),
            46 => Ok(Svc::SoundList),
            47 => Ok(Svc::PacketEntities),
            48 => Ok(Svc::DeltaPacketEntities),
            49 => Ok(Svc::MaxSpeed),
            50 => Ok(Svc::EntGravity),
            51 => Ok(Svc::SetInfo),
            52 => Ok(Svc::ServerInfo),
            53 => Ok(Svc::UpdatePl),
            _ => Err(value),
        }
    }
}

/// Client-to-server message identifiers.
#[derive(Debug, Clone, Copy, PartialEq, Eq)]
pub enum Clc {
    Bad,
    Nop,
    Move,
    StringCmd,
    Delta,
    TMove,
    Upload,
}

/// The number that stands for each identifier.
pub open spec fn clc_number(m: Clc) -> u8 {
    match m {
        Clc::Bad => 0,
        Clc::Nop => 1,
        Clc::Move => 3,
        Clc::StringCmd => 4,
        Clc::Delta => 5,
        Clc::TMove => 6,
        Clc::Upload => 7,
    }
}

impl Clc {
    pub fn to_u8(self) -> (r: u8)
        ensures
            r == clc_number(self),
    {
        match self {
            Clc::Bad => 0,
            Clc::Nop => 1,
            Clc::Move => 3,
            Clc::StringCmd => 4,
            Clc::Delta => 5,
            Clc::TMove => 6,
            Clc::Upload => 7,
        }
    }

    /// The identifier with number `value`; an unknown number is returned as
    /// the error.
    pub fn try_from(value: u8) -> (r: Result<Clc, u8>)
        ensures
            match r {
                Ok(m) => clc_number(m) == value,
                Err(v) => v == value && forall|m: Clc| clc_number(m) != value,
            },
    {
        match value {
            0 => Ok(Clc::Bad),
            1 => Ok(Clc::Nop),
            3 => Ok(Clc::Move),
            4 => Ok(Clc::StringCmd),
            5 => Ok(Clc::Delta),
            6 => Ok(Clc::TMove),
            7 => Ok(Clc::Upload),
            _ => Err(value),
        }
    }
}

} // verus!

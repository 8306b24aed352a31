use lib::client_messages::{parse_serverdata, write_serverdata, MoveVars, ServerData, ServerDataError, StringListChunk};
use lib::msg::{MsgReadError, MsgReader, SizeBuf};
use lib::protocol::{
    Svc, MAX_PACKET_ENTITIES, PF_COMMAND, PF_MODEL, PF_MSEC, PF_VELOCITY1, PF_WEAPONFRAME, PROTOCOL_VERSION,
};
use lib::svc::{
    parse_svc_message, parse_svc_stream, read_delta_usercmd, write_delta_usercmd, write_svc_message, ByteAngles,
    EntityDelta, EntityState, PacketEntitiesUpdate, PlayerInfoMessage, SvcMessage, SvcParseError, UserCmd, WireVec,
};

fn movevars() -> MoveVars {
    MoveVars {
        gravity: 800.0f32.to_bits(),
        stopspeed: 100.0f32.to_bits(),
        maxspeed: 320.0f32.to_bits(),
        spectatormaxspeed: 500.0f32.to_bits(),
        accelerate: 10.0f32.to_bits(),
        airaccelerate: 12.0f32.to_bits(),
        wateraccelerate: 8.0f32.to_bits(),
        friction: 4.0f32.to_bits(),
        waterfriction: 2.0f32.to_bits(),
        entgravity: 1.0f32.to_bits(),
    }
}

fn serverdata() -> ServerData {
    ServerData {
        protocol: PROTOCOL_VERSION,
        server_count: 1,
        game_dir: "id1".to_string(),
        player_num: 1,
        spectator: false,
        level_name: "dm3".to_string(),
        movevars: movevars(),
    }
}

fn empty_delta(number: u16) -> EntityDelta {
    EntityDelta {
        number,
        remove: false,
        flags: 0,
        model_index: None,
        frame: None,
        colormap: None,
        skin_num: None,
        effects: None,
        origin_x: None,
        origin_y: None,
        origin_z: None,
        angle_x: None,
        angle_y: None,
        angle_z: None,
        solid: false,
    }
}

fn round_trip(message: &SvcMessage, size: usize) -> SvcMessage {
    let mut buf = SizeBuf::new(size);
    write_svc_message(&mut buf, message).unwrap();
    let mut reader = MsgReader::new(buf.as_slice());
    let parsed = parse_svc_message(&mut reader).unwrap();
    assert_eq!(reader.remaining(), 0);
    parsed
}

#[test]
fn parses_print_message() {
    let mut buf = SizeBuf::new(64);
    buf.write_u8(Svc::Print.to_u8()).unwrap();
    buf.write_u8(2).unwrap();
    buf.write_string(Some("hello")).unwrap();

    let mut reader = MsgReader::new(buf.as_slice());
    let msg = parse_svc_message(&mut reader).unwrap();
    assert_eq!(msg, SvcMessage::Print { level: 2, message: "hello".to_string() });
}

#[test]
fn parses_serverdata_message() {
    let data = serverdata();
    let mut buf = SizeBuf::new(256);
    write_svc_message(&mut buf, &SvcMessage::ServerData(data.clone())).unwrap();

    let mut reader = MsgReader::new(buf.as_slice());
    let msg = parse_svc_message(&mut reader).unwrap();
    assert_eq!(msg, SvcMessage::ServerData(data));
}

#[test]
fn parses_stream() {
    let mut buf = SizeBuf::new(128);
    write_svc_message(&mut buf, &SvcMessage::Print { level: 1, message: "one".to_string() }).unwrap();
    write_svc_message(&mut buf, &SvcMessage::Print { level: 2, message: "two".to_string() }).unwrap();

    let mut reader = MsgReader::new(buf.as_slice());
    let messages = parse_svc_stream(&mut reader).unwrap();
    assert_eq!(messages.len(), 2);
}

#[test]
fn parses_update_userinfo() {
    let mut buf = SizeBuf::new(128);
    buf.write_u8(Svc::UpdateUserInfo.to_u8()).unwrap();
    buf.write_u8(3).unwrap();
    buf.write_i32(1234).unwrap();
    buf.write_string(Some("\\name\\player")).unwrap();

    let mut reader = MsgReader::new(buf.as_slice());
    let msg = parse_svc_message(&mut reader).unwrap();
    assert_eq!(
        msg,
        SvcMessage::UpdateUserInfo { slot: 3, user_id: 1234, userinfo: "\\name\\player".to_string() }
    );
}

#[test]
fn parses_update_frags() {
    let msg = round_trip(&SvcMessage::UpdateFrags { slot: 4, frags: 15 }, 64);
    assert_eq!(msg, SvcMessage::UpdateFrags { slot: 4, frags: 15 });
}

#[test]
fn parses_update_ping() {
    let msg = round_trip(&SvcMessage::UpdatePing { slot: 7, ping: 123 }, 64);
    assert_eq!(msg, SvcMessage::UpdatePing { slot: 7, ping: 123 });
}

#[test]
fn parses_update_pl() {
    let msg = round_trip(&SvcMessage::UpdatePl { slot: 2, packet_loss: 9 }, 64);
    assert_eq!(msg, SvcMessage::UpdatePl { slot: 2, packet_loss: 9 });
}

#[test]
fn parses_update_enter_time() {
    let msg = round_trip(&SvcMessage::UpdateEnterTime { slot: 1, seconds_ago: 2.5f32.to_bits() }, 64);
    assert_eq!(msg, SvcMessage::UpdateEnterTime { slot: 1, seconds_ago: 2.5f32.to_bits() });
}

#[test]
fn caps_packetentities_count() {
    let mut entities = Vec::new();
    for i in 0..(MAX_PACKET_ENTITIES + 4) {
        entities.push(empty_delta((i + 1) as u16));
    }
    let update = PacketEntitiesUpdate { delta_from: None, entities };

    let mut buf = SizeBuf::new(4096);
    write_svc_message(&mut buf, &SvcMessage::PacketEntities(update)).unwrap();

    let mut reader = MsgReader::new(buf.as_slice());
    let msg = parse_svc_message(&mut reader).unwrap();
    match msg {
        SvcMessage::PacketEntities(update) => {
            assert_eq!(update.entities.len(), MAX_PACKET_ENTITIES);
        }
        _ => panic!("expected packetentities"),
    }
}

#[test]
fn parses_setinfo() {
    let mut buf = SizeBuf::new(128);
    buf.write_u8(Svc::SetInfo.to_u8()).unwrap();
    buf.write_u8(1).unwrap();
    buf.write_string(Some("team")).unwrap();
    buf.write_string(Some("red")).unwrap();

    let mut reader = MsgReader::new(buf.as_slice());
    let msg = parse_svc_message(&mut reader).unwrap();
    assert_eq!(msg, SvcMessage::SetInfo { slot: 1, key: "team".to_string(), value: "red".to_string() });
}

#[test]
fn parses_serverinfo() {
    let mut buf = SizeBuf::new(128);
    buf.write_u8(Svc::ServerInfo.to_u8()).unwrap();
    buf.write_string(Some("hostname")).unwrap();
    buf.write_string(Some("server")).unwrap();

    let mut reader = MsgReader::new(buf.as_slice());
    let msg = parse_svc_message(&mut reader).unwrap();
    assert_eq!(msg, SvcMessage::ServerInfo { key: "hostname".to_string(), value: "server".to_string() });
}

#[test]
fn parses_playerinfo() {
    let flags = (PF_MSEC | PF_VELOCITY1 | PF_MODEL | PF_WEAPONFRAME) as u16;
    // The origin (1, 2, 3) in eighths of a unit.
    let info = PlayerInfoMessage {
        num: 5,
        flags,
        origin: WireVec { x: 8, y: 16, z: 24 },
        frame: 7,
        msec: Some(15),
        command: None,
        velocity: WireVec { x: 100, y: 0, z: 0 },
        model_index: Some(2),
        skin_num: None,
        effects: None,
        weapon_frame: Some(3),
    };

    let mut buf = SizeBuf::new(256);
    write_svc_message(&mut buf, &SvcMessage::PlayerInfo(info)).unwrap();

    let mut reader = MsgReader::new(buf.as_slice());
    let msg = parse_svc_message(&mut reader).unwrap();
    match msg {
        SvcMessage::PlayerInfo(parsed) => {
            assert_eq!(parsed.num, info.num);
            assert_eq!(parsed.flags, info.flags);
            assert_eq!(parsed.frame, info.frame);
            assert_eq!(parsed.msec, info.msec);
            assert_eq!(parsed.velocity.x, 100);
            assert_eq!(parsed.model_index, info.model_index);
            assert_eq!(parsed.weapon_frame, info.weapon_frame);
        }
        _ => panic!("expected playerinfo"),
    }
}

#[test]
fn parses_spawnbaseline() {
    // Origin (1, 2, 3) in eighths; angles (10, 20, 30) degrees as bytes.
    let baseline = EntityState {
        number: 0,
        flags: 0,
        origin: WireVec { x: 8, y: 16, z: 24 },
        angles: ByteAngles { x: 7, y: 14, z: 21 },
        modelindex: 2,
        frame: 3,
        colormap: 4,
        skinnum: 5,
        effects: 0,
    };

    let mut buf = SizeBuf::new(128);
    write_svc_message(&mut buf, &SvcMessage::SpawnBaseline { entity: 7, baseline }).unwrap();

    let mut reader = MsgReader::new(buf.as_slice());
    let msg = parse_svc_message(&mut reader).unwrap();
    match msg {
        SvcMessage::SpawnBaseline { entity, baseline } => {
            assert_eq!(entity, 7);
            assert_eq!(baseline.modelindex, 2);
            assert_eq!(baseline.origin, WireVec { x: 8, y: 16, z: 24 });
        }
        _ => panic!("expected spawnbaseline"),
    }
}

#[test]
fn parses_packetentities_round_trip() {
    let delta = EntityDelta {
        number: 1,
        model_index: Some(2),
        frame: Some(3),
        colormap: Some(4),
        effects: Some(6),
        origin_x: Some(8),
        origin_z: Some(24),
        angle_x: Some(7),
        angle_y: Some(14),
        ..empty_delta(1)
    };
    let update = PacketEntitiesUpdate {
        delta_from: None,
        entities: vec![EntityDelta { flags: delta.compute_flags(), ..delta }],
    };

    let msg = round_trip(&SvcMessage::PacketEntities(update.clone()), 256);
    assert_eq!(msg, SvcMessage::PacketEntities(update));
}

#[test]
fn serverdata_round_trip() {
    let data = serverdata();
    let mut buf = SizeBuf::new(256);
    write_serverdata(&mut buf, &data).unwrap();
    let mut reader = MsgReader::new(buf.as_slice());
    let parsed = parse_serverdata(&mut reader).unwrap();
    assert_eq!(parsed, data);
}

#[test]
fn serverdata_rejects_other_protocol() {
    let mut data = serverdata();
    data.protocol = PROTOCOL_VERSION + 1;
    let mut buf = SizeBuf::new(256);
    write_serverdata(&mut buf, &data).unwrap();
    let mut reader = MsgReader::new(buf.as_slice());
    assert_eq!(
        parse_serverdata(&mut reader),
        Err(ServerDataError::UnsupportedProtocol(PROTOCOL_VERSION + 1))
    );
}

#[test]
fn delta_usercmd_round_trip() {
    let from = UserCmd {
        msec: 0,
        angles: WireVec { x: 0, y: 0, z: 0 },
        forwardmove: 0,
        sidemove: 0,
        upmove: 0,
        buttons: 0,
        impulse: 0,
    };
    // Angles (10, 20, 30) degrees in 65536ths of a turn.
    let cmd = UserCmd {
        msec: 12,
        angles: WireVec { x: 1820, y: 3640, z: 5461 },
        forwardmove: 200,
        sidemove: -40,
        upmove: 8,
        buttons: 2,
        impulse: 5,
    };
    let mut buf = SizeBuf::new(128);
    write_delta_usercmd(&mut buf, &from, &cmd).unwrap();
    let mut reader = MsgReader::new(buf.as_slice());
    let decoded = read_delta_usercmd(&mut reader, &from).unwrap();
    assert_eq!(decoded.msec, cmd.msec);
    assert_eq!(decoded.forwardmove, cmd.forwardmove);
    assert_eq!(decoded.sidemove, cmd.sidemove);
    assert_eq!(decoded.upmove, cmd.upmove);
    assert_eq!(decoded.buttons, cmd.buttons);
    assert_eq!(decoded.impulse, cmd.impulse);
    assert_eq!(decoded.angles, cmd.angles);
    assert_eq!(reader.remaining(), 0);
}

#[test]
fn write_and_read_numbers() {
    let mut buf = SizeBuf::new(64);
    buf.write_i8(-5).unwrap();
    buf.write_u8(250).unwrap();
    buf.write_i16(-1234).unwrap();
    buf.write_u16(65530).unwrap();
    buf.write_i32(-123456).unwrap();
    buf.write_u32(123456).unwrap();
    buf.write_u32(3.5f32.to_bits()).unwrap();

    let mut reader = MsgReader::new(buf.as_slice());
    assert_eq!(reader.read_i8().unwrap(), -5);
    assert_eq!(reader.read_u8().unwrap(), 250);
    assert_eq!(reader.read_i16().unwrap(), -1234);
    assert_eq!(reader.read_u16().unwrap(), 65530);
    assert_eq!(reader.read_i32().unwrap(), -123456);
    assert_eq!(reader.read_u32().unwrap(), 123456);
    assert!((f32::from_bits(reader.read_u32().unwrap()) - 3.5).abs() < f32::EPSILON);
}

#[test]
fn unchanged_usercmd_writes_only_bits_and_msec() {
    let cmd = UserCmd {
        msec: 9,
        angles: WireVec { x: 1, y: 2, z: 3 },
        forwardmove: 4,
        sidemove: 5,
        upmove: 6,
        buttons: 7,
        impulse: 8,
    };
    let mut buf = SizeBuf::new(64);
    write_delta_usercmd(&mut buf, &cmd, &cmd).unwrap();
    assert_eq!(buf.as_slice(), &[0u8, 9]);
}

#[test]
fn string_lists_round_trip_through_svc() {
    let chunk = StringListChunk { start: 0, items: vec!["maps/dm3.bsp".to_string(), "progs/player.mdl".to_string()], next: 0 };
    let msg = round_trip(&SvcMessage::ModelList(chunk.clone()), 128);
    assert_eq!(msg, SvcMessage::ModelList(chunk.clone()));
    let msg = round_trip(&SvcMessage::SoundList(chunk.clone()), 128);
    assert_eq!(msg, SvcMessage::SoundList(chunk));
}

#[test]
fn stufftext_round_trip() {
    let msg = round_trip(&SvcMessage::StuffText("reconnect\n".to_string()), 64);
    assert_eq!(msg, SvcMessage::StuffText("reconnect\n".to_string()));
}

#[test]
fn playerinfo_with_command_round_trip() {
    let cmd = UserCmd {
        msec: 13,
        angles: WireVec { x: 100, y: 200, z: 0 },
        forwardmove: 400,
        sidemove: 0,
        upmove: -20,
        buttons: 1,
        impulse: 0,
    };
    let info = PlayerInfoMessage {
        num: 3,
        flags: PF_COMMAND as u16,
        origin: WireVec { x: -8, y: 0, z: 512 },
        frame: 1,
        msec: None,
        command: Some(cmd),
        velocity: WireVec { x: 0, y: 0, z: 0 },
        model_index: None,
        skin_num: None,
        effects: None,
        weapon_frame: None,
    };
    let msg = round_trip(&SvcMessage::PlayerInfo(info), 128);
    assert_eq!(msg, SvcMessage::PlayerInfo(info));
}

#[test]
fn delta_packetentities_with_removal_round_trip() {
    let removed = EntityDelta { remove: true, ..empty_delta(12) };
    let moved = EntityDelta { origin_y: Some(-40), solid: true, ..empty_delta(300) };
    let update = PacketEntitiesUpdate {
        delta_from: Some(5),
        entities: vec![
            EntityDelta { flags: removed.compute_flags(), ..removed },
            EntityDelta { flags: moved.compute_flags(), ..moved },
        ],
    };
    let msg = round_trip(&SvcMessage::PacketEntities(update.clone()), 128);
    assert_eq!(msg, SvcMessage::PacketEntities(update));
}

#[test]
fn apply_to_keeps_absent_fields() {
    let from = EntityState {
        number: 4,
        flags: 0,
        origin: WireVec { x: 1, y: 2, z: 3 },
        angles: ByteAngles { x: 4, y: 5, z: 6 },
        modelindex: 7,
        frame: 8,
        colormap: 9,
        skinnum: 10,
        effects: 11,
    };
    let delta = EntityDelta { frame: Some(20), origin_z: Some(-16), angle_x: Some(64), ..empty_delta(4) };
    let delta = EntityDelta { flags: delta.compute_flags(), ..delta };
    let state = delta.apply_to(&from);
    assert_eq!(state.number, 4);
    assert_eq!(state.flags, delta.flags as i32);
    assert_eq!(state.frame, 20);
    assert_eq!(state.modelindex, 7);
    assert_eq!(state.origin, WireVec { x: 1, y: 2, z: -16 });
    assert_eq!(state.angles, ByteAngles { x: 64, y: 5, z: 6 });
}

#[test]
fn unknown_svc_byte_is_refused() {
    let data = [200u8];
    let mut reader = MsgReader::new(&data);
    assert_eq!(parse_svc_message(&mut reader), Err(SvcParseError::UnknownSvc(200)));
}

#[test]
fn unsupported_svc_is_refused() {
    let data = [Svc::Time.to_u8(), 0, 0, 0, 0];
    let mut reader = MsgReader::new(&data);
    assert_eq!(parse_svc_message(&mut reader), Err(SvcParseError::UnsupportedSvc(Svc::Time)));
}

#[test]
fn truncated_svc_message_is_a_read_error() {
    let data = [Svc::UpdateFrags.to_u8(), 4];
    let mut reader = MsgReader::new(&data);
    assert_eq!(parse_svc_message(&mut reader), Err(SvcParseError::Read(MsgReadError::Eof)));
}

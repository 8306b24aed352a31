use lib::client_messages::MoveVars;
use lib::clc::{write_move_message, MoveMessage};
use lib::msg::{MsgReader, SizeBuf};
use lib::protocol::Clc;
use lib::server::{
    ack_reply, challenge_reply, classify_oob, connect_accepted, connection_reply, echo_reply, parse_connect,
    parse_server_command, ConnectInfo, ServerCommand, ServerOob,
    build_list_chunk, clamp_entity_u8, dedupe_case, default_movevars, delta_from_sequence, entity_delta_between,
    model_index_for, next_challenge, parse_move, precache_lists,
};
use lib::svc::{write_delta_usercmd, ByteAngles, EntityState, UserCmd, WireVec};

fn cmd(msec: u8, angles: (i16, i16, i16), forward: i16, side: i16, up: i16, buttons: u8, impulse: u8) -> UserCmd {
    UserCmd {
        msec,
        angles: WireVec { x: angles.0, y: angles.1, z: angles.2 },
        forwardmove: forward,
        sidemove: side,
        upmove: up,
        buttons,
        impulse,
    }
}

#[test]
fn parses_move_last_command_and_next() {
    let base = cmd(0, (0, 0, 0), 0, 0, 0, 0, 0);
    // Angles (10, 20, 30), (15, 25, 35) and (20, 30, 40) degrees in 65536ths of a turn.
    let cmd0 = cmd(1, (1820, 3640, 5461), 100, -50, 0, 1, 0);
    let cmd1 = cmd(2, (2730, 4551, 6371), 110, -40, 5, 3, 1);
    let cmd2 = cmd(3, (3640, 5461, 7281), 120, -30, 10, 2, 0);

    let mut buf = SizeBuf::new(128);
    buf.write_u8(0).unwrap();
    buf.write_u8(0).unwrap();
    write_delta_usercmd(&mut buf, &base, &cmd0).unwrap();
    write_delta_usercmd(&mut buf, &cmd0, &cmd1).unwrap();
    write_delta_usercmd(&mut buf, &cmd1, &cmd2).unwrap();
    buf.write_u8(Clc::StringCmd.to_u8()).unwrap();

    let mut reader = MsgReader::new(buf.as_slice());
    let parsed = parse_move(&mut reader).unwrap();
    assert_eq!(parsed.cmd.msec, cmd2.msec);
    assert_eq!(parsed.cmd.forwardmove, cmd2.forwardmove);
    assert_eq!(parsed.cmd.sidemove, cmd2.sidemove);
    assert_eq!(parsed.cmd.upmove, cmd2.upmove);
    assert_eq!(parsed.cmd.buttons, cmd2.buttons);
    assert_eq!(parsed.cmd.impulse, cmd2.impulse);
    assert_eq!(parsed.cmd.angles, cmd2.angles);
    assert_eq!(parsed.next, Some(Clc::StringCmd.to_u8()));
}

#[test]
fn parse_move_consumes_delta_request() {
    let base = cmd(0, (0, 0, 0), 0, 0, 0, 0, 0);
    let mut buf = SizeBuf::new(64);
    buf.write_u8(7).unwrap();
    buf.write_u8(0).unwrap();
    for _ in 0..3 {
        write_delta_usercmd(&mut buf, &base, &base).unwrap();
    }
    buf.write_u8(Clc::Delta.to_u8()).unwrap();
    buf.write_u8(42).unwrap();
    let mut reader = MsgReader::new(buf.as_slice());
    let parsed = parse_move(&mut reader).unwrap();
    assert_eq!(parsed.next, None);
    assert_eq!(reader.remaining(), 0);

    let mut reader = MsgReader::new(&buf.as_slice()[..buf.len() - 1]);
    assert!(parse_move(&mut reader).is_err());
}

#[test]
fn challenges_follow_the_generator() {
    let mut state = 0u32;
    let first = next_challenge(&mut state);
    assert_eq!(state, 1013904223);
    assert_eq!(first, (1013904223u32 & 0x7fff_ffff) as i32);
    let second = next_challenge(&mut state);
    let expected = 1013904223u32.wrapping_mul(1664525).wrapping_add(1013904223);
    assert_eq!(state, expected);
    assert_eq!(second, (expected & 0x7fff_ffff) as i32);
    assert!(second >= 0);
}

#[test]
fn list_chunks_carry_at_most_sixty_four_names() {
    let list: Vec<String> = (0..100).map(|i| format!("sound{i}.wav")).collect();
    let first = build_list_chunk(&list, 0);
    assert_eq!(first.items.len(), 64);
    assert_eq!(first.next, 64);
    let second = build_list_chunk(&list, 64);
    assert_eq!(second.items.len(), 36);
    assert_eq!(second.items[0], "sound64.wav");
    assert_eq!(second.next, 0);
    let past = build_list_chunk(&list, 200);
    assert!(past.items.is_empty());
    assert_eq!(past.next, 0);
    assert_eq!(past.start, 200);
}

#[test]
fn list_chunk_index_past_a_byte_is_zero() {
    let list: Vec<String> = (0..300).map(|i| i.to_string()).collect();
    let chunk = build_list_chunk(&list, 250);
    assert_eq!(chunk.items.len(), 50);
    assert_eq!(chunk.next, 0);
}

#[test]
fn finds_model_index_ignoring_case() {
    let list = vec!["".to_string(), "maps/e1m1.bsp".to_string(), "PROGS/Player.MDL".to_string()];
    assert_eq!(model_index_for("progs/player.mdl", &list), 2);
    assert_eq!(model_index_for("progs/eyes.mdl", &list), 0);
}

#[test]
fn dedupes_names_ignoring_case() {
    let list = vec!["A.wav".to_string(), "b.wav".to_string(), "a.WAV".to_string(), "B.wav".to_string(), "c".to_string()];
    assert_eq!(dedupe_case(list), vec!["A.wav".to_string(), "b.wav".to_string(), "c".to_string()]);
}

#[test]
fn clamps_entity_bytes() {
    assert_eq!(clamp_entity_u8(-5), Some(0));
    assert_eq!(clamp_entity_u8(300), Some(255));
    assert_eq!(clamp_entity_u8(17), Some(17));
}

#[test]
fn entity_delta_names_changed_fields_only() {
    let from = EntityState {
        number: 1,
        flags: 0,
        origin: WireVec { x: 0, y: 0, z: 0 },
        angles: ByteAngles { x: 0, y: 0, z: 0 },
        modelindex: 3,
        frame: 0,
        colormap: 0,
        skinnum: 0,
        effects: 0,
    };
    assert_eq!(entity_delta_between(&from, &from), None);
    let to = EntityState { origin: WireVec { x: 8, y: 0, z: -16 }, frame: 400, angles: ByteAngles { x: 0, y: 64, z: 0 }, ..from };
    let delta = entity_delta_between(&from, &to).unwrap();
    assert_eq!(delta.number, 1);
    assert_eq!(delta.origin_x, Some(8));
    assert_eq!(delta.origin_y, None);
    assert_eq!(delta.origin_z, Some(-16));
    assert_eq!(delta.angle_y, Some(64));
    assert_eq!(delta.frame, Some(255));
    assert_eq!(delta.model_index, None);
    let applied = delta.apply_to(&from);
    assert_eq!(applied.origin, to.origin);
    assert_eq!(applied.angles, to.angles);
}

#[test]
fn default_movevars_values() {
    let m: MoveVars = default_movevars();
    assert_eq!(f32::from_bits(m.gravity), 800.0);
    assert_eq!(f32::from_bits(m.stopspeed), 100.0);
    assert_eq!(f32::from_bits(m.maxspeed), 320.0);
    assert_eq!(f32::from_bits(m.spectatormaxspeed), 500.0);
    assert_eq!(f32::from_bits(m.accelerate), 10.0);
    assert_eq!(f32::from_bits(m.airaccelerate), 0.0);
    assert_eq!(f32::from_bits(m.wateraccelerate), 10.0);
    assert_eq!(f32::from_bits(m.friction), 6.0);
    assert_eq!(f32::from_bits(m.waterfriction), 1.0);
    assert_eq!(f32::from_bits(m.entgravity), 1.0);
}

#[test]
fn delta_sequence_byte_keeps_low_bits() {
    assert_eq!(delta_from_sequence(130), 2);
}

#[test]
fn parses_connect_request() {
    let info = parse_connect("connect 28 27001 12345 \"\\name\\unit\\rate\\2500\"").unwrap();
    assert_eq!(
        info,
        ConnectInfo { protocol: 28, qport: 27001, challenge: 12345, userinfo: "\\name\\unit\\rate\\2500".to_string() }
    );
    assert!(parse_connect("connect 28 27001 12345").is_none());
    assert!(parse_connect("connect 28 70000 1 \"x\"").is_none());
    assert!(parse_connect("join 28 27001 1 \"x\"").is_none());
    assert!(parse_connect("connect 28 27001 \"x\"").is_none());
    assert!(parse_connect("connect 28 27001 5 \"").is_none());
    let extra = parse_connect("  connect\t28 1 -7 extra \"a\"b\"").unwrap();
    assert_eq!(extra.challenge, -7);
    assert_eq!(extra.userinfo, "a\"b");
}

#[test]
fn classifies_out_of_band_requests() {
    assert_eq!(classify_oob(b"getchallenge\n"), ServerOob::GetChallenge);
    match classify_oob(b"connect 28 27001 99 \"\\name\\x\"\n") {
        ServerOob::Connect(Some(info)) => {
            assert_eq!(info.challenge, 99);
            assert!(connect_accepted(&info, Some(99)));
            assert!(!connect_accepted(&info, Some(98)));
            assert!(!connect_accepted(&info, None));
        }
        other => panic!("unexpected {other:?}"),
    }
    assert_eq!(classify_oob(b"connect garbage"), ServerOob::Connect(None));
    assert_eq!(classify_oob(&[lib::protocol::A2A_PING]), ServerOob::Ping);
    assert_eq!(classify_oob(&[lib::protocol::A2A_ECHO, b'h', b'i', 0]), ServerOob::Echo("hi".to_string()));
    assert_eq!(classify_oob(b"status"), ServerOob::Ignore);
    assert_eq!(classify_oob(b""), ServerOob::Ignore);
}

#[test]
fn parses_string_commands() {
    assert_eq!(parse_server_command("new"), Some(ServerCommand::New));
    assert_eq!(parse_server_command("soundlist 1 64"), Some(ServerCommand::SoundList(64)));
    assert_eq!(parse_server_command("modellist 1"), Some(ServerCommand::ModelList(0)));
    assert_eq!(parse_server_command("modellist 1 300"), Some(ServerCommand::ModelList(0)));
    assert_eq!(parse_server_command("  prespawn 1 0 123"), Some(ServerCommand::Prespawn));
    assert_eq!(parse_server_command("spawn 1 0"), Some(ServerCommand::Spawn));
    assert_eq!(parse_server_command("begin"), Some(ServerCommand::Begin));
    assert_eq!(parse_server_command("say hi"), Some(ServerCommand::Other));
    assert_eq!(parse_server_command("   "), None);
}

#[test]
fn builds_out_of_band_replies() {
    assert_eq!(challenge_reply(-42), vec![255, 255, 255, 255, lib::protocol::S2C_CHALLENGE, b'-', b'4', b'2', 0]);
    assert_eq!(connection_reply(), vec![255, 255, 255, 255, lib::protocol::S2C_CONNECTION, 0]);
    assert_eq!(ack_reply(), vec![255, 255, 255, 255, lib::protocol::A2A_ACK, b'\n']);
    assert_eq!(echo_reply("ok"), vec![255, 255, 255, 255, lib::protocol::A2A_ECHO, b'o', b'k', 0]);
}

#[test]
fn precache_lists_start_empty_and_drop_case_repeats() {
    let sounds = vec!["misc/a.wav".to_string(), "MISC/A.wav".to_string(), "b.wav".to_string()];
    let models = vec!["progs/player.mdl".to_string(), "maps/E1M1.bsp".to_string()];
    let (sound_list, model_list) = precache_lists("e1m1", &sounds, &models);
    assert_eq!(sound_list, vec!["", "misc/a.wav", "b.wav"]);
    assert_eq!(model_list, vec!["", "maps/e1m1.bsp", "progs/player.mdl"]);
}

#[test]
fn move_message_reads_back_on_the_server() {
    let c0 = cmd(10, (1, 2, 3), 100, 0, 0, 1, 0);
    let c1 = cmd(12, (1, 2, 4), 100, 50, 0, 1, 0);
    let c2 = cmd(14, (5, 2, 4), 200, 50, -3, 0, 9);
    let message = MoveMessage { sequence: 42, lost: 3, cmds: [c0, c1, c2], delta_sequence: Some(7) };
    let mut buf = SizeBuf::new(128);
    write_move_message(&mut buf, &message, 0x5a).unwrap();
    let bytes = buf.as_slice().to_vec();
    assert_eq!(bytes[0], Clc::Move.to_u8());
    assert_eq!(bytes[1], 0x5a);
    assert_eq!(bytes[2], 3);
    assert_eq!(&bytes[bytes.len() - 2..], &[Clc::Delta.to_u8(), 7]);
    let mut reader = MsgReader::new(&bytes[1..]);
    let parsed = parse_move(&mut reader).unwrap();
    assert_eq!(parsed.cmd, c2);
    assert_eq!(parsed.next, None);
    assert_eq!(reader.remaining(), 0);

    let plain = MoveMessage { delta_sequence: None, ..message };
    let mut buf = SizeBuf::new(128);
    write_move_message(&mut buf, &plain, 0).unwrap();
    assert_eq!(buf.len(), bytes.len() - 2);
}

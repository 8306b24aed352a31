use lib::audio::{AudioConfig, AudioSystem};
use lib::client::{prespawn_command, signon_step, Client, ClientError, ClientPacket, SignonStep};
use lib::client_messages::{MoveVars, ServerData, StringListChunk};
use lib::msg::SizeBuf;
use lib::netchan::Netchan;
use lib::protocol::Svc;
use lib::svc::{SvcMessage, SvcParseError};
use lib::cli::{parse_args, CliAction, CliError, ClientMode, DEFAULT_QPORT, DEFAULT_SERVER_PORT};
use lib::config::{maybe_userinfo_command, quote_if_needed, ClientConfig};
use lib::handshake::{build_connect, build_getchallenge, parse_challenge, ConnectRequest, Session, SessionState};
use lib::info::InfoString;
use lib::oob::{build_out_of_band, out_of_band_payload, parse_oob_message, OobMessage};
use lib::protocol::{S2C_CHALLENGE, S2C_CONNECTION};

#[test]
fn default_config_is_stereo() {
    let cfg = AudioConfig::default();
    assert_eq!(cfg.channels, 2);
    assert_eq!(cfg.sample_rate, 44_100);
}

#[test]
fn play_sound_returns_unique_ids() {
    let mut audio = AudioSystem::new(AudioConfig::default());
    let first = audio.play_sound();
    let second = audio.play_sound();
    assert_ne!(first, second);
}

#[test]
fn audio_stop_and_config() {
    let mut audio = AudioSystem::new(AudioConfig::default());
    assert!(audio.is_running());
    assert_eq!(audio.config().buffer_size, 1024);
    assert_eq!(audio.play_sound().0, 1);
    audio.stop();
    assert!(!audio.is_running());
}

#[test]
fn parses_connect_with_default_port() {
    let args = vec!["--connect".to_string(), "127.0.0.1".to_string()];
    let action = parse_args(args).unwrap();
    let CliAction::Run(parsed) = action else {
        panic!("expected run action");
    };
    let server = parsed.server.expect("server");
    assert_eq!(server.ip, [127, 0, 0, 1]);
    assert_eq!(server.port, DEFAULT_SERVER_PORT);
    assert_eq!(parsed.qport, DEFAULT_QPORT);
}

#[test]
fn parses_connect_and_name() {
    let args = vec![
        "--connect".to_string(),
        "10.0.0.5:27501".to_string(),
        "--name".to_string(),
        "unit".to_string(),
    ];
    let action = parse_args(args).unwrap();
    let CliAction::Run(parsed) = action else {
        panic!("expected run action");
    };
    let server = parsed.server.expect("server");
    assert_eq!(server.port, 27501);
    assert_eq!(parsed.name.as_deref(), Some("unit"));
}

#[test]
fn rejects_missing_server() {
    let err = parse_args(Vec::<String>::new()).unwrap_err();
    assert_eq!(err, CliError::MissingServer);
}

#[test]
fn allows_singleplayer_without_server() {
    let args = vec!["--mode".to_string(), "sp".to_string()];
    let action = parse_args(args).unwrap();
    let CliAction::Run(parsed) = action else {
        panic!("expected run action");
    };
    assert_eq!(parsed.mode, ClientMode::SinglePlayer);
    assert!(parsed.server.is_none());
}

#[test]
fn cli_help_and_errors() {
    assert_eq!(parse_args(vec!["-h".to_string()]).unwrap(), CliAction::Help);
    assert_eq!(
        parse_args(vec!["--name".to_string()]).unwrap_err(),
        CliError::MissingValue("--name".to_string())
    );
    assert_eq!(
        parse_args(vec!["--bogus".to_string()]).unwrap_err(),
        CliError::InvalidFlag("--bogus".to_string())
    );
    assert_eq!(
        parse_args(vec!["--qport".to_string(), "70000".to_string()]).unwrap_err(),
        CliError::InvalidValue("70000".to_string())
    );
    assert_eq!(
        parse_args(vec!["--mode".to_string(), "MP".to_string()]).unwrap_err(),
        CliError::InvalidValue("MP".to_string())
    );
    assert_eq!(
        parse_args(vec!["1.2.3.4".to_string(), "5.6.7.8".to_string()]).unwrap_err(),
        CliError::InvalidValue("5.6.7.8".to_string())
    );
    assert_eq!(
        parse_args(vec!["1.2.3".to_string()]).unwrap_err(),
        CliError::InvalidValue("1.2.3".to_string())
    );
    assert_eq!(CliError::MissingValue("--rate".to_string()).message(), "missing value for --rate");
}

#[test]
fn cli_reads_all_options() {
    let args: Vec<String> = [
        "--mode", "QuakeWorld", "-c", "1.2.3.4:9", "--qport", "+12", "--topcolor", "3",
        "--bottomcolor", "4", "--rate", "9000", "--data-dir", "/d", "--download-dir", "/e",
    ]
    .iter()
    .map(|s| s.to_string())
    .collect();
    let CliAction::Run(parsed) = parse_args(args).unwrap() else {
        panic!("expected run action");
    };
    assert_eq!(parsed.mode, ClientMode::QuakeWorld);
    assert_eq!(parsed.server.unwrap().ip, [1, 2, 3, 4]);
    assert_eq!(parsed.server.unwrap().port, 9);
    assert_eq!(parsed.qport, 12);
    assert_eq!(parsed.topcolor.as_deref(), Some("3"));
    assert_eq!(parsed.bottomcolor.as_deref(), Some("4"));
    assert_eq!(parsed.rate.as_deref(), Some("9000"));
    assert_eq!(parsed.data_dir.as_deref(), Some("/d"));
    assert_eq!(parsed.download_dir.as_deref(), Some("/e"));
}

#[test]
fn builds_default_userinfo() {
    let config = ClientConfig::default();
    let info = config.userinfo.as_str();
    assert!(info.contains("\\name\\unnamed"));
    assert!(info.contains("\\rate\\2500"));
    assert!(info.contains("\\*ver\\rq"));
}

#[test]
fn default_userinfo_exact() {
    let config = ClientConfig::default();
    assert_eq!(
        config.userinfo.as_str(),
        "\\name\\unnamed\\topcolor\\0\\bottomcolor\\0\\rate\\2500\\msg\\1\\*ver\\rq28"
    );
}

#[test]
fn builds_getchallenge() {
    let packet = build_getchallenge();
    let payload = out_of_band_payload(&packet).unwrap();
    assert_eq!(payload, b"getchallenge\n");
}

#[test]
fn builds_connect() {
    let req = ConnectRequest::new(27001, 12345, "\\name\\player");
    let packet = build_connect(&req);
    let payload = out_of_band_payload(&packet).unwrap();
    let text = String::from_utf8_lossy(payload);
    assert!(text.contains("connect"));
    assert!(text.contains("12345"));
}

#[test]
fn builds_connect_exact_text() {
    let req = ConnectRequest::new(27001, -5, "\\name\\player");
    let packet = build_connect(&req);
    let payload = out_of_band_payload(&packet).unwrap();
    assert_eq!(payload, b"connect 28 27001 -5 \"\\name\\player\"\n");
}

#[test]
fn parses_challenge() {
    let msg = OobMessage::Challenge("42".to_string());
    assert_eq!(parse_challenge(&msg), Some(42));

    let packet = build_out_of_band(&[S2C_CHALLENGE, b'1', b'2', 0]);
    let payload = out_of_band_payload(&packet).unwrap();
    let parsed = parse_oob_message(payload).unwrap();
    assert_eq!(parse_challenge(&parsed), Some(12));
}

#[test]
fn parses_challenge_edge_cases() {
    assert_eq!(parse_challenge(&OobMessage::Challenge(" \t-7 \n".to_string())), Some(-7));
    assert_eq!(parse_challenge(&OobMessage::Challenge("+9".to_string())), Some(9));
    assert_eq!(parse_challenge(&OobMessage::Challenge("-2147483648".to_string())), Some(i32::MIN));
    assert_eq!(parse_challenge(&OobMessage::Challenge("2147483648".to_string())), None);
    assert_eq!(parse_challenge(&OobMessage::Challenge("-".to_string())), None);
    assert_eq!(parse_challenge(&OobMessage::Challenge("1 2".to_string())), None);
    assert_eq!(parse_challenge(&OobMessage::Print("42".to_string())), None);
}

#[test]
fn handshake_flow() {
    let mut session = Session::new(27001, "\\name\\player");
    let packet = session.start();
    assert_eq!(session.state, SessionState::ChallengeSent);
    assert_eq!(out_of_band_payload(&packet).unwrap(), b"getchallenge\n");

    let challenge_packet = build_out_of_band(&[S2C_CHALLENGE, b'1', b'2', b'3', 0]);
    let payload = out_of_band_payload(&challenge_packet).unwrap();
    let msg = parse_oob_message(payload).unwrap();
    let connect_packet = session.handle_oob(&msg).unwrap();
    assert_eq!(session.state, SessionState::ConnectSent);
    assert!(out_of_band_payload(&connect_packet).unwrap().starts_with(b"connect"));

    let conn_packet = build_out_of_band(&[S2C_CONNECTION, 0]);
    let payload = out_of_band_payload(&conn_packet).unwrap();
    let msg = parse_oob_message(payload).unwrap();
    session.handle_oob(&msg);
    assert_eq!(session.state, SessionState::Connected);
}

#[test]
fn session_ignores_bad_challenge() {
    let mut session = Session::new(27001, "\\name\\player");
    session.start();
    assert!(session.handle_oob(&OobMessage::Challenge("abc".to_string())).is_none());
    assert_eq!(session.state, SessionState::ChallengeSent);
    assert!(session.challenge.is_none());
    assert!(session.handle_oob(&OobMessage::Ping).is_none());
    assert_eq!(session.state, SessionState::ChallengeSent);
}

#[test]
fn maps_name_command_to_setinfo() {
    let mut info = InfoString::new(128);
    let cmd = maybe_userinfo_command("name player", &mut info)
        .unwrap()
        .expect("expected setinfo");
    assert_eq!(cmd, "setinfo name player");
    assert!(info.as_str().contains("\\name\\player"));
}

#[test]
fn quotes_values_with_spaces() {
    let mut info = InfoString::new(128);
    let cmd = maybe_userinfo_command("name player one", &mut info)
        .unwrap()
        .expect("expected setinfo");
    assert_eq!(cmd, "setinfo name \"player one\"");
}

#[test]
fn preserves_star_keys_for_setinfo() {
    let mut info = InfoString::new(128);
    let cmd = maybe_userinfo_command("setinfo *ver rq28", &mut info)
        .unwrap()
        .expect("expected setinfo");
    assert_eq!(cmd, "setinfo *ver rq28");
    assert!(info.as_str().contains("\\*ver\\rq28"));
}

#[test]
fn userinfo_command_without_value_or_unknown() {
    let mut info = InfoString::new(128);
    assert_eq!(maybe_userinfo_command("name", &mut info).unwrap(), None);
    assert_eq!(maybe_userinfo_command("say hello", &mut info).unwrap(), None);
    assert_eq!(maybe_userinfo_command("setinfo key", &mut info).unwrap(), None);
    assert_eq!(info.as_str(), "");
    assert_eq!(quote_if_needed("a b"), "\"a b\"");
    assert_eq!(quote_if_needed("ab"), "ab");
}

#[test]
fn handles_oob() {
    let mut client = Client::new(27001);
    let packet = build_out_of_band(&[S2C_CHALLENGE, b'4', b'2', 0]);
    let result = client.handle_packet(&packet).unwrap();
    match result {
        ClientPacket::OutOfBand(OobMessage::Challenge(text)) => assert_eq!(text, "42"),
        _ => panic!("expected out-of-band"),
    }
}

#[test]
fn handles_svc_packet() {
    let mut sender = Netchan::new(27001);
    let mut buf = SizeBuf::new(64);
    buf.write_u8(Svc::Print.to_u8()).unwrap();
    buf.write_u8(2).unwrap();
    buf.write_string(Some("hello")).unwrap();

    let packet = sender.build_packet(buf.as_slice(), false).unwrap();

    let mut client = Client::new(27001);
    let result = client.handle_packet(&packet).unwrap();
    match result {
        ClientPacket::Messages(messages) => {
            assert_eq!(messages, vec![SvcMessage::Print { level: 2, message: "hello".to_string() }]);
        }
        _ => panic!("expected svc messages"),
    }
}

#[test]
fn empty_oob_payload_is_unknown() {
    let mut client = Client::new(27001);
    let result = client.handle_packet(&[0xff, 0xff, 0xff, 0xff]).unwrap();
    assert_eq!(result, ClientPacket::OutOfBand(OobMessage::Unknown(0, String::new())));
}

#[test]
fn short_packet_is_a_channel_error() {
    let mut client = Client::new(27001);
    assert!(matches!(client.handle_packet(&[1, 2]), Err(ClientError::Netchan(_))));
}

#[test]
fn bad_svc_in_packet_is_a_parse_error() {
    let mut sender = Netchan::new(27001);
    let packet = sender.build_packet(&[250], false).unwrap();
    let mut client = Client::new(27001);
    assert_eq!(client.handle_packet(&packet), Err(ClientError::Parse(SvcParseError::UnknownSvc(250))));
}

#[test]
fn forwards_cmd_lines_from_stufftext() {
    let commands = lib::client::stufftext_commands("cmd prespawn 1 0\n  fullserverinfo x\r\ncmd\ncmdspawn\r\n\n  cmd   begin 3  \n");
    assert_eq!(commands, vec!["prespawn 1 0".to_string(), "spawn".to_string(), "begin 3".to_string()]);
    assert!(lib::client::stufftext_commands("").is_empty());
}

#[test]
fn map_paths_for_level_names() {
    assert_eq!(lib::client::map_path("dm3"), "maps/dm3.bsp");
    assert_eq!(lib::client::map_path(" e1m1.bsp "), "maps/e1m1.bsp");
    assert_eq!(lib::client::map_path("custom/start"), "custom/start.bsp");
    assert_eq!(lib::client::map_path("maps\\x.bsp"), "maps\\x.bsp");
}

#[test]
fn signon_requests_follow_server_messages() {
    let movevars = MoveVars {
        gravity: 0,
        stopspeed: 0,
        maxspeed: 0,
        spectatormaxspeed: 0,
        accelerate: 0,
        airaccelerate: 0,
        wateraccelerate: 0,
        friction: 0,
        waterfriction: 0,
        entgravity: 0,
    };
    let data = ServerData {
        protocol: 28,
        server_count: 7,
        game_dir: "id1".to_string(),
        player_num: 0,
        spectator: false,
        level_name: "start".to_string(),
        movevars,
    };
    assert_eq!(signon_step(&SvcMessage::ServerData(data), None), SignonStep::Send("soundlist 7 0".to_string()));
    let more = StringListChunk { start: 0, items: vec!["a.wav".to_string()], next: 64 };
    let last = StringListChunk { start: 64, items: Vec::new(), next: 0 };
    assert_eq!(signon_step(&SvcMessage::SoundList(more.clone()), Some(7)), SignonStep::Send("soundlist 7 64".to_string()));
    assert_eq!(signon_step(&SvcMessage::SoundList(last.clone()), Some(7)), SignonStep::Send("modellist 7 0".to_string()));
    assert_eq!(signon_step(&SvcMessage::ModelList(more.clone()), Some(-1)), SignonStep::Send("modellist -1 64".to_string()));
    assert_eq!(signon_step(&SvcMessage::ModelList(last), Some(7)), SignonStep::Prespawn);
    assert_eq!(signon_step(&SvcMessage::SoundList(more), None), SignonStep::Idle);
    assert_eq!(signon_step(&SvcMessage::StuffText("cmd x\n".to_string()), Some(7)), SignonStep::Idle);
    assert_eq!(prespawn_command(7, 4294967295), "prespawn 7 0 4294967295");
}

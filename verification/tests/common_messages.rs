use lib::clc::{write_nop, write_string_cmd};
use lib::client::Client;
use lib::client_messages::{parse_string_list_chunk, write_string_list_chunk, StringListChunk};
use lib::info::{
    remove_key, remove_prefixed_keys, set_value_for_key, set_value_for_star_key, value_for_key, InfoError, InfoString,
};
use lib::msg::{MsgReadError, MsgReader, SizeBuf, SizeBufError};
use lib::netchan::{Netchan, NetchanError, NetchanHeader};
use lib::oob::{build_out_of_band, is_out_of_band, out_of_band_payload, parse_oob_message, OobMessage};
use lib::progs::{read_cstring, ProgsDat, ProgsError, PROG_VERSION};
use lib::protocol::{Clc, S2C_CHALLENGE};
use lib::server::delta_from_sequence;
use lib::vm::{Vm, VmError, OP_DONE, OP_NOT_V, OP_STORE_F, OP_STORE_V};
use lib::progs::{Function, Statement};

#[test]
fn set_and_get_value() {
    let mut info = String::new();
    set_value_for_key(&mut info, "name", "Player", 128).unwrap();
    assert_eq!(value_for_key(&info, "name"), Some("Player".to_string()));
}

#[test]
fn removes_key() {
    let mut info = String::from("\\name\\Player\\team\\Red");
    remove_key(&mut info, "name");
    assert_eq!(value_for_key(&info, "name"), None);
    assert_eq!(value_for_key(&info, "team"), Some("Red".to_string()));
}

#[test]
fn disallows_star_key() {
    let mut info = String::new();
    let err = set_value_for_key(&mut info, "*ver", "1", 128).unwrap_err();
    assert_eq!(err, InfoError::DisallowedStarKey);
}

#[test]
fn lowercases_team_value() {
    let mut info = String::new();
    set_value_for_key(&mut info, "team", "RED", 128).unwrap();
    assert_eq!(value_for_key(&info, "team"), Some("red".to_string()));
}

#[test]
fn info_string_set_and_remove() {
    let mut info = InfoString::new(128);
    info.set("name", "Player").unwrap();
    info.set_star("*ver", "1").unwrap();
    assert!(info.as_str().contains("\\name\\Player"));
    assert!(info.as_str().contains("\\*ver\\1"));

    info.remove("name");
    assert!(!info.as_str().contains("\\name\\Player"));
}

#[test]
fn info_string_stays_within_limit_and_refusals_change_nothing() {
    let mut info = InfoString::new(16);
    info.set("a", "1").unwrap();
    info.set("bb", "22").unwrap();
    assert_eq!(info.as_str(), "\\a\\1\\bb\\22");
    let before = info.as_str().to_string();
    assert_eq!(info.set("a", "123456789"), Err(InfoError::LengthExceeded));
    assert_eq!(info.as_str(), before);
    assert_eq!(info.set("ccc", "333"), Err(InfoError::LengthExceeded));
    assert_eq!(info.as_str(), before);
    assert_eq!(info.set("*x", "1"), Err(InfoError::DisallowedStarKey));
    assert_eq!(info.as_str(), before);
    info.set("a", "12345").unwrap();
    assert_eq!(info.as_str(), "\\bb\\22\\a\\12345");
    assert!(info.as_str().len() <= 16);
    assert_eq!(value_for_key(info.as_str(), "bb"), Some("22".to_string()));
    info.remove("bb");
    info.set_star("*v", "9").unwrap();
    assert!(info.as_str().len() <= 16);
    assert_eq!(value_for_key(info.as_str(), "a"), Some("12345".to_string()));
}

#[test]
fn info_string_raw_truncates() {
    let mut info = InfoString::new(4);
    info.set_raw("12345");
    assert_eq!(info.as_str(), "1234");
}

#[test]
fn info_set_replaces_and_limits() {
    let mut info = String::new();
    set_value_for_key(&mut info, "a", "1", 128).unwrap();
    set_value_for_key(&mut info, "b", "2", 128).unwrap();
    set_value_for_key(&mut info, "a", "3", 128).unwrap();
    assert_eq!(info, "\\b\\2\\a\\3");
    assert_eq!(set_value_for_key(&mut info, "c", "0123456789", 12).unwrap_err(), InfoError::LengthExceeded);
    assert_eq!(info, "\\b\\2\\a\\3");
    assert_eq!(set_value_for_key(&mut info, "k\\", "v", 128).unwrap_err(), InfoError::InvalidKey);
    set_value_for_star_key(&mut info, "*s", "x", 128).unwrap();
    remove_prefixed_keys(&mut info, '*');
    assert_eq!(info, "\\b\\2\\a\\3");
}

#[test]
fn write_and_read_strings() {
    let mut buf = SizeBuf::new(64);
    buf.write_string(Some("hello")).unwrap();
    buf.write_string(None).unwrap();

    let mut reader = MsgReader::new(buf.as_slice());
    assert_eq!(reader.read_string().unwrap(), "hello");
    assert_eq!(reader.read_string().unwrap(), "");
}

#[test]
fn write_and_read_integers() {
    let mut buf = SizeBuf::new(64);
    buf.write_u8(200).unwrap();
    buf.write_i8(-3).unwrap();
    buf.write_i16(-1234).unwrap();
    buf.write_u16(54321).unwrap();
    buf.write_i32(-123456789).unwrap();
    buf.write_u32(0xdeadbeef).unwrap();
    let mut reader = MsgReader::new(buf.as_slice());
    assert_eq!(reader.read_u8().unwrap(), 200);
    assert_eq!(reader.read_i8().unwrap(), -3);
    assert_eq!(reader.read_i16().unwrap(), -1234);
    assert_eq!(reader.read_u16().unwrap(), 54321);
    assert_eq!(reader.read_i32().unwrap(), -123456789);
    assert_eq!(reader.read_u32().unwrap(), 0xdeadbeef);
    assert_eq!(reader.remaining(), 0);
    assert_eq!(reader.read_u8().unwrap_err(), MsgReadError::Eof);
    assert!(reader.bad_read());
}

#[test]
fn size_buf_overflow_rules() {
    let mut buf = SizeBuf::new(4);
    buf.write_u32(1).unwrap();
    assert_eq!(buf.write_u8(1).unwrap_err(), SizeBufError::Overflow);
    let mut buf = SizeBuf::new(4).with_overflow(true);
    buf.write_u16(7).unwrap();
    buf.write_u32(9).unwrap();
    assert!(buf.is_overflowed());
    assert_eq!(buf.as_slice(), &[9, 0, 0, 0]);
    assert_eq!(buf.write_bytes(&[0; 5]).unwrap_err(), SizeBufError::TooLarge);
    assert_eq!(buf.set_u8(9, 1).unwrap_err(), SizeBufError::Overflow);
}

#[test]
fn round_trip_with_qport() {
    let header = NetchanHeader {
        sequence: 123,
        reliable: true,
        ack: 98,
        ack_reliable: false,
        qport: Some(27001),
    };

    let mut buf = SizeBuf::new(16);
    header.write(&mut buf).unwrap();

    let mut reader = MsgReader::new(buf.as_slice());
    let decoded = NetchanHeader::read(&mut reader, true).unwrap();

    assert_eq!(decoded, header);
}

#[test]
fn round_trip_without_qport() {
    let header = NetchanHeader {
        sequence: 1,
        reliable: false,
        ack: 2,
        ack_reliable: true,
        qport: None,
    };

    let mut buf = SizeBuf::new(16);
    header.write(&mut buf).unwrap();

    let mut reader = MsgReader::new(buf.as_slice());
    let decoded = NetchanHeader::read(&mut reader, false).unwrap();

    assert_eq!(decoded, header);
}

#[test]
fn builds_and_processes_packet() {
    let mut sender = Netchan::new(27001);
    let packet = sender.build_packet(b"hello", true).unwrap();

    let mut receiver = Netchan::new(27001);
    let payload = receiver.process_packet(&packet, true).unwrap();
    assert_eq!(payload, b"hello");
}

#[test]
fn netchan_reliable_and_ordering() {
    let mut sender = Netchan::new(5);
    sender.queue_reliable(b"rel").unwrap();
    let packet = sender.build_packet(b"un", false).unwrap();
    assert_eq!(sender.outgoing_sequence(), 1);
    assert_eq!(&packet[0..4], &[0, 0, 0, 0x80]);
    let mut receiver = Netchan::new(5);
    assert_eq!(receiver.process_packet(&packet, false).unwrap(), b"relun");
    assert_eq!(receiver.incoming_sequence(), 0);
    assert_eq!(receiver.process_packet(&packet, false).unwrap_err(), NetchanError::OutOfOrder);
    assert!(matches!(receiver.process_packet(&[1, 2, 3], false), Err(NetchanError::Read(MsgReadError::Eof))));
}

#[test]
fn out_of_band_round_trip() {
    let payload = b"getchallenge";
    let packet = build_out_of_band(payload);
    assert!(is_out_of_band(&packet));
    assert_eq!(out_of_band_payload(&packet).unwrap(), payload);
}

#[test]
fn parses_challenge_message() {
    let payload = [S2C_CHALLENGE, b'1', b'2', b'3', 0];
    let msg = parse_oob_message(&payload).unwrap();
    assert_eq!(msg, OobMessage::Challenge("123".to_string()));
}

#[test]
fn oob_other_messages() {
    assert!(parse_oob_message(&[]).is_none());
    assert_eq!(parse_oob_message(b"kping\n").unwrap(), OobMessage::Ping);
    assert_eq!(parse_oob_message(b"zabc").unwrap(), OobMessage::Unknown(b'z', "abc".to_string()));
    assert!(!is_out_of_band(&[0xff, 0xff, 0xff]));
    assert_eq!(Client::build_oob_message("status"), b"\xff\xff\xff\xffstatus".to_vec());
    assert_eq!(Client::build_getchallenge(), b"\xff\xff\xff\xffgetchallenge\n".to_vec());
}

#[test]
fn writes_string_cmd() {
    let mut buf = SizeBuf::new(64);
    write_string_cmd(&mut buf, "prespawn").unwrap();

    let mut reader = MsgReader::new(buf.as_slice());
    assert_eq!(reader.read_u8().unwrap(), Clc::StringCmd.to_u8());
    assert_eq!(reader.read_string().unwrap(), "prespawn");
    assert_eq!(reader.remaining(), 0);
}

#[test]
fn writes_nop() {
    let mut buf = SizeBuf::new(1);
    write_nop(&mut buf).unwrap();
    assert_eq!(buf.as_slice(), &[1]);
    assert_eq!(write_nop(&mut buf).unwrap_err(), SizeBufError::Overflow);
}

#[test]
fn string_list_chunk_round_trip() {
    let chunk = StringListChunk {
        start: 2,
        items: vec!["sound1".to_string(), "sound2".to_string()],
        next: 5,
    };

    let mut buf = SizeBuf::new(256);
    write_string_list_chunk(&mut buf, &chunk).unwrap();

    let mut reader = MsgReader::new(buf.as_slice());
    let parsed = parse_string_list_chunk(&mut reader).unwrap();

    assert_eq!(parsed, chunk);
}

#[test]
fn string_list_chunk_truncated() {
    let mut reader = MsgReader::new(&[1, b'a', 0]);
    assert_eq!(parse_string_list_chunk(&mut reader).unwrap_err(), MsgReadError::Eof);
    let mut reader = MsgReader::new(&[1, 0, 9, 7]);
    let chunk = parse_string_list_chunk(&mut reader).unwrap();
    assert!(chunk.items.is_empty());
    assert_eq!(chunk.next, 9);
    assert_eq!(reader.remaining(), 1);
}

fn push_i32(out: &mut Vec<u8>, value: i32) {
    out.extend_from_slice(&value.to_le_bytes());
}

fn push_i16(out: &mut Vec<u8>, value: i16) {
    out.extend_from_slice(&value.to_le_bytes());
}

fn push_u16(out: &mut Vec<u8>, value: u16) {
    out.extend_from_slice(&value.to_le_bytes());
}

fn minimal_progs() -> Vec<u8> {
    let mut bytes = Vec::new();

    let header_size = 60i32;
    let statements_offset = header_size;
    let statements_count = 1i32;
    let functions_offset = statements_offset + statements_count * 8;
    let functions_count = 1i32;
    let strings_offset = functions_offset + functions_count * 36;
    let strings_data = b"\0main\0".to_vec();
    let strings_count = strings_data.len() as i32;
    let globals_offset = strings_offset + strings_count;
    let globals_count = 8i32;

    push_i32(&mut bytes, PROG_VERSION);
    push_i32(&mut bytes, 0);
    push_i32(&mut bytes, statements_offset);
    push_i32(&mut bytes, statements_count);
    push_i32(&mut bytes, 0);
    push_i32(&mut bytes, 0);
    push_i32(&mut bytes, 0);
    push_i32(&mut bytes, 0);
    push_i32(&mut bytes, functions_offset);
    push_i32(&mut bytes, functions_count);
    push_i32(&mut bytes, strings_offset);
    push_i32(&mut bytes, strings_count);
    push_i32(&mut bytes, globals_offset);
    push_i32(&mut bytes, globals_count);
    push_i32(&mut bytes, 0);

    while bytes.len() < statements_offset as usize {
        bytes.push(0);
    }
    push_u16(&mut bytes, OP_DONE);
    push_i16(&mut bytes, 0);
    push_i16(&mut bytes, 0);
    push_i16(&mut bytes, 0);

    while bytes.len() < functions_offset as usize {
        bytes.push(0);
    }
    push_i32(&mut bytes, 0);
    push_i32(&mut bytes, 0);
    push_i32(&mut bytes, 0);
    push_i32(&mut bytes, 0);
    push_i32(&mut bytes, 1);
    push_i32(&mut bytes, 0);
    push_i32(&mut bytes, 0);
    bytes.extend_from_slice(&[0u8; 8]);

    while bytes.len() < strings_offset as usize {
        bytes.push(0);
    }
    bytes.extend_from_slice(&strings_data);

    while bytes.len() < globals_offset as usize {
        bytes.push(0);
    }
    for _ in 0..globals_count {
        push_i32(&mut bytes, 0);
    }
    bytes
}

#[test]
fn parses_minimal_progs() {
    let bytes = minimal_progs();
    let progs = ProgsDat::from_bytes(&bytes).unwrap();
    assert_eq!(progs.version, PROG_VERSION);
    assert_eq!(progs.statements.len(), 1);
    assert_eq!(progs.functions.len(), 1);
    assert_eq!(progs.functions[0].name, "main");
}

#[test]
fn progs_lookups_and_errors() {
    let bytes = minimal_progs();
    let progs = ProgsDat::from_bytes(&bytes).unwrap();
    assert_eq!(progs.function_index("main"), Some(0));
    assert_eq!(progs.function_index("other"), None);
    assert_eq!(progs.string_at(1).unwrap(), "main");
    assert_eq!(progs.string_at(100).unwrap_err(), ProgsError::InvalidStringOffset(100));
    assert_eq!(ProgsDat::from_bytes(&bytes[..10]).unwrap_err(), ProgsError::BufferTooSmall);
    let mut bad = bytes.clone();
    bad[0] = 7;
    assert_eq!(ProgsDat::from_bytes(&bad).unwrap_err(), ProgsError::UnsupportedVersion(7));
}

#[test]
fn reads_strings() {
    let bytes = b"\0hello\0world\0";
    assert_eq!(read_cstring(bytes, 1).unwrap(), "hello");
    assert_eq!(read_cstring(bytes, 7).unwrap(), "world");
    assert_eq!(read_cstring(bytes, 0).unwrap(), "");
}

#[test]
fn vm_allocates_edicts_and_reads_globals() {
    let progs = ProgsDat {
        version: PROG_VERSION,
        crc: 0,
        statements: Vec::new(),
        global_defs: Vec::new(),
        field_defs: Vec::new(),
        functions: Vec::new(),
        strings: Vec::new(),
        globals: vec![0; 16],
        entity_fields: 6,
    };

    let mut vm = Vm::new(progs);
    assert_eq!(vm.edict_count(), 1);
    let entity = vm.alloc_edict();
    assert_eq!(entity, 1);
    assert_eq!(vm.edict_count(), 2);

    vm.write_global_raw(0, 2.5f32.to_bits()).unwrap();
    assert_eq!(f32::from_bits(vm.read_global_raw(0).unwrap()), 2.5);

    let vec = [1.0f32.to_bits(), 2.0f32.to_bits(), 3.0f32.to_bits()];
    for (i, bits) in vec.iter().enumerate() {
        vm.write_global_raw(1 + i as i16, *bits).unwrap();
    }
    for (i, bits) in vec.iter().enumerate() {
        assert_eq!(vm.read_global_raw(1 + i as i16).unwrap(), *bits);
    }

    vm.write_edict_field_raw(entity, 0, &[4.0f32.to_bits()]).unwrap();
    assert_eq!(vm.read_edict_field_raw(entity, 0, 1).unwrap(), vec![4.0f32.to_bits()]);

    vm.write_edict_field_raw(entity, 1, &vec).unwrap();
    assert_eq!(vm.read_edict_field_raw(entity, 1, 3).unwrap(), vec.to_vec());
}

#[test]
fn vm_reads_outside_globals_fail() {
    let bytes = minimal_progs();
    let progs = ProgsDat::from_bytes(&bytes).unwrap();
    let mut vm = Vm::new(progs);
    vm.write_global_raw(3, 2.5f32.to_bits()).unwrap();
    assert_eq!(f32::from_bits(vm.read_global_raw(3).unwrap()), 2.5);
    assert!(vm.read_global_raw(8).is_err());
}

#[test]
fn delta_from_sequence_wraps_update_mask() {
    assert_eq!(delta_from_sequence(0), 0);
    let wrap = lib::protocol::UPDATE_MASK as u32 + 1;
    assert_eq!(delta_from_sequence(wrap), 0);
    assert_eq!(delta_from_sequence(wrap + 1), 1);
}

fn vm_with(statements: Vec<Statement>, globals: usize) -> Vm {
    let function = Function {
        first_statement: 0,
        parm_start: 0,
        locals: 0,
        profile: 0,
        name: "main".to_string(),
        file: String::new(),
        num_params: 0,
        param_sizes: [0; 8],
    };
    let progs = ProgsDat {
        version: PROG_VERSION,
        crc: 0,
        statements,
        global_defs: Vec::new(),
        field_defs: Vec::new(),
        functions: vec![function],
        strings: Vec::new(),
        globals: vec![0; globals],
        entity_fields: 6,
    };
    Vm::new(progs)
}

#[test]
fn vm_edict_writes_refused_past_field_count() {
    let mut vm = vm_with(Vec::new(), 16);
    assert_eq!(vm.edict_field_count(), 6);
    assert_eq!(vm.write_edict_field_raw(1, 0, &[1]), Err(VmError::BadEdict(1)));
    vm.write_edict_field_raw(0, 3, &[7, 8, 9]).unwrap();
    assert_eq!(vm.write_edict_field_raw(0, 4, &[1, 2, 3]), Err(VmError::BadField(4)));
    assert_eq!(vm.read_edict_field_raw(0, 0, 6).unwrap(), vec![0, 0, 0, 7, 8, 9]);
}

#[test]
fn vm_stops_where_an_offset_would_wrap() {
    let store = Statement { op: OP_STORE_F, a: 2, b: -1, c: 0 };
    let mut vm = vm_with(vec![store], 16);
    assert_eq!(vm.call_function(0, 10), Err(VmError::BadStatement(0)));

    let store_far = Statement { op: OP_STORE_V, a: 2, b: -4, c: 0 };
    let mut vm = vm_with(vec![store_far], 16);
    assert_eq!(vm.call_function(0, 10), Err(VmError::BadGlobal(2)));

    let not_v = Statement { op: OP_NOT_V, a: i16::MAX, b: 0, c: 0 };
    let mut vm = vm_with(vec![not_v], 16);
    assert_eq!(vm.call_function(0, 10), Err(VmError::BadGlobal(i16::MAX)));
}

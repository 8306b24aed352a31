use lib::client_messages::{MoveVars, ServerData, StringListChunk};
use lib::protocol::{
    PF_COMMAND, PF_EFFECTS, PF_MODEL, PF_MSEC, PF_SKINNUM, PF_WEAPONFRAME, PROTOCOL_VERSION, UPDATE_MASK,
};
use lib::state::{resolve_delta_sequence, ClientState, PacketEntities, TIME_CHOKED};
use lib::svc::{
    ByteAngles, EntityDelta, EntityState, PacketEntitiesUpdate, PlayerInfoMessage, SvcMessage, UserCmd, WireVec,
};

fn delta(number: u16) -> EntityDelta {
    EntityDelta {
        number,
        remove: false,
        flags: 0,
        model_index: None,
        frame: None,
        colormap: None,
        skin_num: None,
        effects: None,
        origin_x: None,
        origin_y: None,
        origin_z: None,
        angle_x: None,
        angle_y: None,
        angle_z: None,
        solid: false,
    }
}

fn baseline(number: i32, origin: WireVec, modelindex: i32) -> EntityState {
    EntityState {
        number,
        flags: 0,
        origin,
        angles: ByteAngles { x: 0, y: 0, z: 0 },
        modelindex,
        frame: 0,
        colormap: 0,
        skinnum: 0,
        effects: 0,
    }
}

#[test]
fn applies_userinfo_updates() {
    let mut state = ClientState::new();
    state.apply_message(
        &SvcMessage::UpdateUserInfo { slot: 1, user_id: 99, userinfo: "\\name\\player".to_string() },
        0,
    );
    assert_eq!(state.players[1].user_id, 99);
    assert!(state.players[1].userinfo.as_str().contains("\\name\\player"));
}

#[test]
fn applies_setinfo() {
    let mut state = ClientState::new();
    state.apply_message(&SvcMessage::SetInfo { slot: 2, key: "team".to_string(), value: "red".to_string() }, 0);
    state.apply_message(
        &SvcMessage::SetInfo { slot: 2, key: "*spectator".to_string(), value: "1".to_string() },
        0,
    );
    let info = state.players[2].userinfo.as_str();
    assert!(info.contains("\\team\\red"));
    assert!(info.contains("\\*spectator\\1"));
}

#[test]
fn applies_serverinfo() {
    let mut state = ClientState::new();
    state.apply_message(&SvcMessage::ServerInfo { key: "hostname".to_string(), value: "server".to_string() }, 0);
    state.apply_message(&SvcMessage::ServerInfo { key: "*version".to_string(), value: "1.0".to_string() }, 0);
    let info = state.serverinfo.as_str();
    assert!(info.contains("\\hostname\\server"));
    assert!(info.contains("\\*version\\1.0"));
}

#[test]
fn applies_playerinfo() {
    let mut state = ClientState::new();
    // Origin (1, 2, 3) in eighths of a unit; view angles as 16-bit turns.
    let cmd = UserCmd {
        msec: 5,
        angles: WireVec { x: 0, y: 182, z: 364 },
        forwardmove: 10,
        sidemove: 20,
        upmove: 30,
        buttons: 1,
        impulse: 0,
    };
    state.apply_message(
        &SvcMessage::PlayerInfo(PlayerInfoMessage {
            num: 0,
            flags: (PF_MSEC | PF_COMMAND | PF_MODEL | PF_SKINNUM | PF_EFFECTS | PF_WEAPONFRAME) as u16,
            origin: WireVec { x: 8, y: 16, z: 24 },
            frame: 4,
            msec: Some(12),
            command: Some(cmd),
            velocity: WireVec { x: 10, y: 20, z: 30 },
            model_index: Some(2),
            skin_num: Some(3),
            effects: Some(4),
            weapon_frame: Some(5),
        }),
        0,
    );
    assert_eq!(state.players[0].origin, WireVec { x: 8, y: 16, z: 24 });
    assert_eq!(state.players[0].frame, 4);
    assert_eq!(state.players[0].velocity, WireVec { x: 10, y: 20, z: 30 });
    assert_eq!(state.players[0].model_index, 2);
    assert_eq!(state.players[0].msec, 12);
    assert_eq!(state.players[0].cmd.forwardmove, 10);
    assert_eq!(state.players[0].skin_num, 3);
    assert_eq!(state.players[0].effects, 4);
    assert_eq!(state.players[0].weapon_frame, 5);

    let frame = &state.frames[0];
    let player_state = &frame.playerstate[0];
    assert_eq!(player_state.origin, WireVec { x: 8, y: 16, z: 24 });
    assert_eq!(player_state.velocity, WireVec { x: 10, y: 20, z: 30 });
    assert_eq!(player_state.modelindex, 2);
    assert_eq!(player_state.skinnum, 3);
    assert_eq!(player_state.effects, 4);
    assert_eq!(player_state.weaponframe, 5);
    assert_eq!(player_state.viewangles, cmd.angles);
}

#[test]
fn applies_packetentities_from_baseline() {
    let mut state = ClientState::new();
    let base = EntityState {
        angles: ByteAngles { x: 7, y: 14, z: 21 },
        ..baseline(2, WireVec { x: 8, y: 16, z: 24 }, 1)
    };
    state.apply_message(&SvcMessage::SpawnBaseline { entity: 2, baseline: base }, 0);

    // The origin's x becomes 4 units.
    let d = EntityDelta { model_index: Some(3), origin_x: Some(32), ..delta(2) };
    let update = PacketEntitiesUpdate { delta_from: None, entities: vec![EntityDelta { flags: d.compute_flags(), ..d }] };
    state.apply_message(&SvcMessage::PacketEntities(update), 1);

    let frame = &state.frames[1 & UPDATE_MASK];
    assert_eq!(frame.packet_entities.num_entities, 1);
    assert_eq!(frame.packet_entities.entities[0].modelindex, 3);
    assert_eq!(frame.packet_entities.entities[0].origin.x, 32);
}

#[test]
fn applies_packetentities_delta_remove() {
    let mut state = ClientState::new();
    state.apply_message(&SvcMessage::SpawnBaseline { entity: 1, baseline: baseline(1, WireVec { x: 8, y: 8, z: 8 }, 1) }, 0);
    state.apply_message(&SvcMessage::SpawnBaseline { entity: 2, baseline: baseline(2, WireVec { x: 16, y: 16, z: 16 }, 2) }, 0);

    let full = PacketEntitiesUpdate {
        delta_from: None,
        entities: vec![
            EntityDelta { model_index: Some(1), origin_x: Some(8), ..delta(1) },
            EntityDelta { model_index: Some(2), origin_x: Some(16), ..delta(2) },
        ],
    };
    state.apply_message(&SvcMessage::PacketEntities(full), 1);

    let update = PacketEntitiesUpdate {
        delta_from: Some(1),
        entities: vec![EntityDelta { remove: true, ..delta(1) }, EntityDelta { model_index: Some(4), ..delta(2) }],
    };
    state.apply_message(&SvcMessage::PacketEntities(update), 2);

    let frame = &state.frames[2 & UPDATE_MASK];
    assert_eq!(frame.packet_entities.num_entities, 1);
    assert_eq!(frame.packet_entities.entities[0].number, 2);
    assert_eq!(frame.packet_entities.entities[0].modelindex, 4);
}

#[test]
fn applies_scoreboard_updates() {
    let mut state = ClientState::new();
    state.apply_message(&SvcMessage::UpdateFrags { slot: 0, frags: 5 }, 0);
    state.apply_message(&SvcMessage::UpdatePing { slot: 0, ping: 50 }, 0);
    state.apply_message(&SvcMessage::UpdatePl { slot: 0, packet_loss: 2 }, 0);
    state.apply_message(&SvcMessage::UpdateEnterTime { slot: 0, seconds_ago: 3.5f32.to_bits() }, 0);

    let player = &state.players[0];
    assert_eq!(player.frags, 5);
    assert_eq!(player.ping, 50);
    assert_eq!(player.packet_loss, 2);
    assert_eq!(f32::from_bits(player.enter_time), 3.5);
}

#[test]
fn applies_serverdata_and_lists() {
    let mut state = ClientState::new();
    state.server_time = 7.0f32.to_bits();
    state.prints.push((1, "old".to_string()));
    let data = ServerData {
        protocol: PROTOCOL_VERSION,
        server_count: 9,
        game_dir: "id1".to_string(),
        player_num: 1,
        spectator: false,
        level_name: "dm2".to_string(),
        movevars: MoveVars {
            gravity: 800.0f32.to_bits(),
            stopspeed: 100.0f32.to_bits(),
            maxspeed: 320.0f32.to_bits(),
            spectatormaxspeed: 500.0f32.to_bits(),
            accelerate: 10.0f32.to_bits(),
            airaccelerate: 12.0f32.to_bits(),
            wateraccelerate: 8.0f32.to_bits(),
            friction: 4.0f32.to_bits(),
            waterfriction: 2.0f32.to_bits(),
            entgravity: 1.0f32.to_bits(),
        },
    };
    state.apply_message(&SvcMessage::ServerData(data.clone()), 0);
    assert_eq!(state.serverdata, Some(data));
    assert_eq!(f32::from_bits(state.server_time), 0.0);
    assert!(state.prints.is_empty());

    let sound_chunk = StringListChunk { start: 0, items: vec!["sound1".to_string(), "sound2".to_string()], next: 2 };
    state.apply_message(&SvcMessage::SoundList(sound_chunk), 0);
    assert_eq!(state.sounds.len(), 2);
    assert_eq!(state.next_sound, Some(2));

    let model_chunk = StringListChunk { start: 2, items: vec!["model3".to_string()], next: 0 };
    state.apply_message(&SvcMessage::ModelList(model_chunk), 0);
    assert_eq!(state.models.len(), 3);
    assert_eq!(state.models[2], "model3");
    assert_eq!(state.models[0], "");
    assert_eq!(state.next_model, None);
}

#[test]
fn queues_print_messages() {
    let mut state = ClientState::new();
    state.apply_message(&SvcMessage::Print { level: 1, message: "hello".to_string() }, 0);
    assert_eq!(state.prints, vec![(1, "hello".to_string())]);
}

#[test]
fn clears_frame_events() {
    let mut state = ClientState::new();
    state.prints.push((1, "test".to_string()));
    state.clear_frame_events();
    assert!(state.prints.is_empty());
}

#[test]
fn marks_choked_frames() {
    let mut state = ClientState::new();
    state.frames[2].receivedtime = 1.0f64.to_bits();
    state.frames[3].receivedtime = 1.0f64.to_bits();

    state.mark_choked(2, 4);

    assert_eq!(f64::from_bits(state.frames[3].receivedtime), -2.0);
    assert_eq!(f64::from_bits(state.frames[2].receivedtime), -2.0);
    assert_eq!(state.frames[2].receivedtime, TIME_CHOKED);
    assert_eq!(f64::from_bits(state.frames[4].receivedtime), -1.0);
}

#[test]
fn resolves_delta_sequence_across_wrap() {
    let mut state = ClientState::new();
    let mut oldp = PacketEntities::default();
    oldp.num_entities = 1;
    oldp.entities[0].number = 7;
    oldp.entities[0].modelindex = 1;
    state.frames[1].packet_entities = oldp;

    let update = PacketEntitiesUpdate { delta_from: Some(65), entities: Vec::new() };
    state.apply_message(&SvcMessage::PacketEntities(update), 130);

    let frame = &state.frames[130 & UPDATE_MASK];
    assert_eq!(frame.packet_entities.num_entities, 1);
    assert_eq!(frame.packet_entities.entities[0].number, 7);
}

#[test]
fn delta_sequence_takes_low_bits_from_packet() {
    assert_eq!(resolve_delta_sequence(130, 65), 129);
    assert_eq!(resolve_delta_sequence(130, 2), 130);
    assert_eq!(resolve_delta_sequence(130, 3), 67);
    assert_eq!(resolve_delta_sequence(2, 3), 2u32.wrapping_sub(63));
}

#[test]
fn too_old_delta_invalidates_frame() {
    let mut state = ClientState::new();
    let update = PacketEntitiesUpdate { delta_from: Some(3), entities: Vec::new() };
    state.apply_message(&SvcMessage::PacketEntities(update), 130);
    assert!(state.frames[130 & UPDATE_MASK].invalid);
    assert_eq!(state.valid_sequence, 0);
}

#[test]
fn full_update_removing_entity_is_broken() {
    let mut state = ClientState::new();
    let update = PacketEntitiesUpdate { delta_from: None, entities: vec![EntityDelta { remove: true, ..delta(4) }] };
    state.apply_message(&SvcMessage::PacketEntities(update), 5);
    assert!(state.frames[5].invalid);
    assert_eq!(state.valid_sequence, 0);
}

#[test]
fn full_update_past_frame_size_overflows() {
    let mut state = ClientState::new();
    let entities: Vec<EntityDelta> = (1..=65).map(delta).collect();
    state.apply_message(&SvcMessage::PacketEntities(PacketEntitiesUpdate { delta_from: None, entities }), 6);
    assert!(state.frames[6].invalid);
    assert_eq!(state.valid_sequence, 6);
}

#[test]
fn delta_keeps_unnamed_entities_in_order() {
    let mut state = ClientState::new();
    let full = PacketEntitiesUpdate { delta_from: None, entities: vec![delta(3), delta(5), delta(9)] };
    state.apply_message(&SvcMessage::PacketEntities(full), 10);
    let update = PacketEntitiesUpdate {
        delta_from: Some(10),
        entities: vec![EntityDelta { frame: Some(2), ..delta(4) }, EntityDelta { remove: true, ..delta(9) }],
    };
    state.apply_message(&SvcMessage::PacketEntities(update), 11);
    let frame = &state.frames[11];
    assert!(!frame.invalid);
    let numbers: Vec<i32> =
        frame.packet_entities.entities[..frame.packet_entities.num_entities].iter().map(|e| e.number).collect();
    assert_eq!(numbers, vec![3, 4, 5]);
    assert_eq!(frame.packet_entities.entities[1].frame, 2);
    assert_eq!(state.valid_sequence, 11);
}

#[test]
fn messages_for_slots_past_the_table_change_nothing() {
    let mut state = ClientState::new();
    state.apply_message(&SvcMessage::UpdateFrags { slot: 40, frags: 5 }, 0);
    state.apply_message(&SvcMessage::SpawnBaseline { entity: 900, baseline: baseline(900, WireVec { x: 0, y: 0, z: 0 }, 1) }, 0);
    assert!(state.players.iter().all(|p| p.frags == 0));
    assert!(state.baselines.iter().all(|b| b.modelindex == 0));
}

#[test]
fn stores_and_reads_outgoing_commands() {
    let mut state = ClientState::new();
    let cmd = UserCmd { msec: 7, angles: WireVec { x: 1, y: 2, z: 3 }, forwardmove: 4, sidemove: 5, upmove: 6, buttons: 1, impulse: 2 };
    state.store_outgoing_cmd(65, cmd);
    assert_eq!(state.outgoing_cmd(1), cmd);
    state.set_outgoing_delta_sequence(65, 64);
    assert_eq!(state.frames[1].delta_sequence, 64);
}

#[test]
fn prepares_move_with_delta_from_valid_frame() {
    let mut state = ClientState::new();
    let first = UserCmd { msec: 10, angles: WireVec { x: 0, y: 0, z: 0 }, forwardmove: 1, sidemove: 0, upmove: 0, buttons: 0, impulse: 0 };
    let second = UserCmd { forwardmove: 2, ..first };
    let third = UserCmd { forwardmove: 3, ..first };
    let m = state.prepare_move(5, first);
    assert_eq!(m.delta_sequence, None);
    assert_eq!(state.frames[5].delta_sequence, -1);
    state.valid_sequence = 5;
    state.prepare_move(6, second);
    let m = state.prepare_move(7, third);
    assert_eq!(m.sequence, 7);
    assert_eq!(m.lost, 0);
    assert_eq!(m.delta_sequence, Some(5));
    assert_eq!(state.frames[7].delta_sequence, 5);
    assert_eq!(m.cmds, [first, second, third]);
}

#[test]
fn prepare_move_drops_stale_valid_frame() {
    let mut state = ClientState::new();
    state.valid_sequence = 10;
    let cmd = UserCmd::default();
    let m = state.prepare_move(73, cmd);
    assert_eq!(m.delta_sequence, None);
    assert_eq!(state.valid_sequence, 0);
}

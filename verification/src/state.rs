//! What the client knows of the game, kept up to date from the server's
//! messages: the players, the server's info, the lists of models and
//! sounds, the entity baselines and the frames of entity states.
//! Positions and times are kept as the wire or the clock gives them: in
//! eighths of a unit, and as the bits of floating-point numbers.
use vstd::prelude::*;
use crate::clc::MoveMessage;
use crate::client_messages::{ServerData, ServerDataView, StringListChunk, server_data_view, string_views};
use crate::defs::MAX_EDICTS;
use crate::info::{InfoString, cuts_cleanly, spec_set, spec_set_star, truncated};
use crate::protocol::{MAX_CLIENTS, MAX_INFO_STRING, MAX_PACKET_ENTITIES, MAX_SERVERINFO_STRING, UPDATE_BACKUP, UPDATE_MASK};
use crate::svc::{
    ByteAngles, EntityDelta, EntityState, PacketEntitiesUpdate, PlayerInfoMessage, SvcMessage, UserCmd, WireVec,
    applied, or_i32, or_u8, zero_cmd, zero_entity,
};
use crate::text::starts_with_char;

verus! {

/// The bits of the time -1.0 (a 64-bit float): a frame not yet received.
pub const TIME_UNSET: u64 = 0xbff0_0000_0000_0000;

/// The bits of the time -2.0 (a 64-bit float): a frame the server choked.
pub const TIME_CHOKED: u64 = 0xc000_0000_0000_0000;

/// What the client knows of one player slot.
#[derive(Debug, Clone)]
pub struct PlayerInfo {
    pub user_id: i32,
    pub userinfo: InfoString,
    pub origin: WireVec,
    pub frame: u8,
    pub msec: u8,
    pub cmd: UserCmd,
    pub velocity: WireVec,
    pub model_index: u8,
    pub skin_num: u8,
    pub effects: u8,
    pub weapon_frame: u8,
    pub frags: i16,
    pub ping: i16,
    pub packet_loss: u8,
    /// Seconds since the player entered, as the bits of a 32-bit float.
    pub enter_time: u32,
}

pub struct PlayerView {
    pub user_id: i32,
    pub userinfo: Seq<char>,
    pub origin: WireVec,
    pub frame: u8,
    pub msec: u8,
    pub cmd: UserCmd,
    pub velocity: WireVec,
    pub model_index: u8,
    pub skin_num: u8,
    pub effects: u8,
    pub weapon_frame: u8,
    pub frags: i16,
    pub ping: i16,
    pub packet_loss: u8,
    pub enter_time: u32,
}

impl View for PlayerInfo {
    type V = PlayerView;

    open spec fn view(&self) -> PlayerView {
        PlayerView {
            user_id: self.user_id,
            userinfo: self.userinfo.text(),
            origin: self.origin,
            frame: self.frame,
            msec: self.msec,
            cmd: self.cmd,
            velocity: self.velocity,
            model_index: self.model_index,
            skin_num: self.skin_num,
            effects: self.effects,
            weapon_frame: self.weapon_frame,
            frags: self.frags,
            ping: self.ping,
            packet_loss: self.packet_loss,
            enter_time: self.enter_time,
        }
    }
}

pub open spec fn fresh_player() -> PlayerView {
    PlayerView {
        user_id: 0,
        userinfo: Seq::<char>::empty(),
        origin: WireVec { x: 0, y: 0, z: 0 },
        frame: 0,
        msec: 0,
        cmd: zero_cmd(),
        velocity: WireVec { x: 0, y: 0, z: 0 },
        model_index: 0,
        skin_num: 0,
        effects: 0,
        weapon_frame: 0,
        frags: 0,
        ping: 0,
        packet_loss: 0,
        enter_time: 0,
    }
}

impl PlayerInfo {
    /// An empty slot: no user info and every number zero.
    pub fn new() -> (r: Self)
        ensures
            r@ == fresh_player(),
            r.userinfo.limit() == MAX_INFO_STRING,
    {
        PlayerInfo {
            user_id: 0,
            userinfo: InfoString::new(MAX_INFO_STRING),
            origin: WireVec { x: 0, y: 0, z: 0 },
            frame: 0,
            msec: 0,
            cmd: UserCmd::default(),
            velocity: WireVec { x: 0, y: 0, z: 0 },
            model_index: 0,
            skin_num: 0,
            effects: 0,
            weapon_frame: 0,
            frags: 0,
            ping: 0,
            packet_loss: 0,
            enter_time: 0,
        }
    }
}

/// A request to stop the sound on an entity's channel.
#[derive(Debug, Clone, Copy, PartialEq, Eq, Structural)]
pub struct StopSoundEvent {
    pub entity: u16,
    pub channel: u8,
}

/// A player's state in one frame.
#[derive(Debug, Clone, Copy, PartialEq, Eq, Structural)]
pub struct PlayerState {
    pub messagenum: i32,
    /// The server time the state arrived at, as the bits of a 32-bit float.
    pub state_time: u32,
    pub command: UserCmd,
    pub origin: WireVec,
    pub viewangles: WireVec,
    pub velocity: WireVec,
    pub weaponframe: i32,
    pub modelindex: i32,
    pub frame: i32,
    pub skinnum: i32,
    pub effects: i32,
    pub flags: i32,
    /// As the bits of a 32-bit float.
    pub waterjumptime: u32,
    pub onground: i32,
    pub oldbuttons: i32,
}

pub open spec fn zero_player_state() -> PlayerState {
    PlayerState {
        messagenum: 0,
        state_time: 0,
        command: zero_cmd(),
        origin: WireVec { x: 0, y: 0, z: 0 },
        viewangles: WireVec { x: 0, y: 0, z: 0 },
        velocity: WireVec { x: 0, y: 0, z: 0 },
        weaponframe: 0,
        modelindex: 0,
        frame: 0,
        skinnum: 0,
        effects: 0,
        flags: 0,
        waterjumptime: 0,
        onground: 0,
        oldbuttons: 0,
    }
}

impl Default for PlayerState {
    fn default() -> (r: Self)
        ensures
            r == zero_player_state(),
    {
        PlayerState {
            messagenum: 0,
            state_time: 0,
            command: UserCmd::default(),
            origin: WireVec { x: 0, y: 0, z: 0 },
            viewangles: WireVec { x: 0, y: 0, z: 0 },
            velocity: WireVec { x: 0, y: 0, z: 0 },
            weaponframe: 0,
            modelindex: 0,
            frame: 0,
            skinnum: 0,
            effects: 0,
            flags: 0,
            waterjumptime: 0,
            onground: 0,
            oldbuttons: 0,
        }
    }
}

/// The entities of one frame: the first `num_entities` of a fixed table.
#[derive(Debug, Clone)]
pub struct PacketEntities {
    pub num_entities: usize,
    pub entities: Vec<EntityState>,
}

pub open spec fn zero_entities(n: nat) -> Seq<EntityState> {
    Seq::new(n, |i: int| zero_entity())
}

impl PacketEntities {
    pub open spec fn wf(&self) -> bool {
        &&& self.entities@.len() == MAX_PACKET_ENTITIES
        &&& self.num_entities <= MAX_PACKET_ENTITIES
    }

    /// The entities the frame holds.
    pub open spec fn live(&self) -> Seq<EntityState> {
        self.entities@.take(self.num_entities as int)
    }
}

impl Default for PacketEntities {
    /// No entities, and a table of zero states.
    fn default() -> (r: Self)
        ensures
            r.wf(),
            r.num_entities == 0,
            r.entities@ == zero_entities(MAX_PACKET_ENTITIES as nat),
    {
        let mut entities: Vec<EntityState> = Vec::new();
        let mut i: usize = 0;
        while i < MAX_PACKET_ENTITIES
            invariant
                i <= MAX_PACKET_ENTITIES,
                entities@ == zero_entities(i as nat),
            decreases MAX_PACKET_ENTITIES - i,
        {
            entities.push(EntityState::default());
            i = i + 1;
            assert(entities@ =~= zero_entities(i as nat));
        }
        PacketEntities { num_entities: 0, entities }
    }
}

/// One slot of the ring of frames: the command sent in it, when it was
/// sent and answered (the bits of 64-bit floats), the players' states and
/// the entities that came back.
#[derive(Debug, Clone)]
pub struct Frame {
    pub cmd: UserCmd,
    pub senttime: u64,
    pub delta_sequence: i32,
    pub receivedtime: u64,
    pub playerstate: Vec<PlayerState>,
    pub packet_entities: PacketEntities,
    pub invalid: bool,
}

pub struct FrameView {
    pub cmd: UserCmd,
    pub senttime: u64,
    pub delta_sequence: i32,
    pub receivedtime: u64,
    pub playerstate: Seq<PlayerState>,
    pub num_entities: usize,
    pub entities: Seq<EntityState>,
    pub invalid: bool,
}

impl View for Frame {
    type V = FrameView;

    open spec fn view(&self) -> FrameView {
        FrameView {
            cmd: self.cmd,
            senttime: self.senttime,
            delta_sequence: self.delta_sequence,
            receivedtime: self.receivedtime,
            playerstate: self.playerstate@,
            num_entities: self.packet_entities.num_entities,
            entities: self.packet_entities.entities@,
            invalid: self.invalid,
        }
    }
}

pub open spec fn zero_player_states(n: nat) -> Seq<PlayerState> {
    Seq::new(n, |i: int| zero_player_state())
}

pub open spec fn fresh_frame() -> FrameView {
    FrameView {
        cmd: zero_cmd(),
        senttime: 0,
        delta_sequence: -1i32,
        receivedtime: TIME_UNSET,
        playerstate: zero_player_states(MAX_CLIENTS as nat),
        num_entities: 0,
        entities: zero_entities(MAX_PACKET_ENTITIES as nat),
        invalid: false,
    }
}

impl Frame {
    pub open spec fn wf(&self) -> bool {
        &&& self.playerstate@.len() == MAX_CLIENTS
        &&& self.packet_entities.wf()
    }
}

impl Default for Frame {
    /// Nothing sent or received, no delta, every state zero.
    fn default() -> (r: Self)
        ensures
            r.wf(),
            r@ == fresh_frame(),
    {
        let mut playerstate: Vec<PlayerState> = Vec::new();
        let mut i: usize = 0;
        while i < MAX_CLIENTS
            invariant
                i <= MAX_CLIENTS,
                playerstate@ == zero_player_states(i as nat),
            decreases MAX_CLIENTS - i,
        {
            playerstate.push(PlayerState::default());
            i = i + 1;
            assert(playerstate@ =~= zero_player_states(i as nat));
        }
        Frame {
            cmd: UserCmd::default(),
            senttime: 0,
            delta_sequence: -1,
            receivedtime: TIME_UNSET,
            playerstate,
            packet_entities: PacketEntities::default(),
            invalid: false,
        }
    }
}

/// The client's picture of the game, as far as the server messages this
/// library reads can change it: server and player info, the sound and
/// model lists, printed text, baselines, the frame ring and the clock.
///
/// There is no view entity or view angles, stats, light styles, sign-on
/// number, intermission, finale, CD track, pause or disconnect flag, static
/// entities or sounds, collision map, and no sound, damage, particle or
/// temporary-entity queues: the messages that set them (`svc_setview`,
/// `svc_updatestat`, `svc_lightstyle`, `svc_sound`, `svc_disconnect` and
/// the rest) are not among those `SvcMessage` holds, so no state here could
/// ever hold anything but its starting value. A server data message resets
/// exactly the fields kept here that the original resets.
#[derive(Debug)]
pub struct ClientState {
    pub serverinfo: InfoString,
    pub serverdata: Option<ServerData>,
    pub players: Vec<PlayerInfo>,
    pub sounds: Vec<String>,
    pub models: Vec<String>,
    pub prints: Vec<(u8, String)>,
    pub next_sound: Option<u8>,
    pub next_model: Option<u8>,
    pub baselines: Vec<EntityState>,
    pub frames: Vec<Frame>,
    pub valid_sequence: i32,
    /// The server's clock, as the bits of a 32-bit float.
    pub server_time: u32,
}

pub struct ClientView {
    pub serverinfo: Seq<char>,
    pub serverdata: Option<ServerDataView>,
    pub players: Seq<PlayerView>,
    pub sounds: Seq<Seq<char>>,
    pub models: Seq<Seq<char>>,
    pub prints: Seq<(u8, Seq<char>)>,
    pub next_sound: Option<u8>,
    pub next_model: Option<u8>,
    pub baselines: Seq<EntityState>,
    pub frames: Seq<FrameView>,
    pub valid_sequence: i32,
    pub server_time: u32,
}

pub open spec fn player_views(v: Seq<PlayerInfo>) -> Seq<PlayerView> {
    Seq::new(v.len(), |i: int| v[i]@)
}

pub open spec fn frame_views(v: Seq<Frame>) -> Seq<FrameView> {
    Seq::new(v.len(), |i: int| v[i]@)
}

pub open spec fn print_views(v: Seq<(u8, String)>) -> Seq<(u8, Seq<char>)> {
    Seq::new(v.len(), |i: int| (v[i].0, v[i].1@))
}

impl View for ClientState {
    type V = ClientView;

    open spec fn view(&self) -> ClientView {
        ClientView {
            serverinfo: self.serverinfo.text(),
            serverdata: match self.serverdata {
                Some(d) => Some(server_data_view(d)),
                None => None,
            },
            players: player_views(self.players@),
            sounds: string_views(self.sounds@),
            models: string_views(self.models@),
            prints: print_views(self.prints@),
            next_sound: self.next_sound,
            next_model: self.next_model,
            baselines: self.baselines@,
            frames: frame_views(self.frames@),
            valid_sequence: self.valid_sequence,
            server_time: self.server_time,
        }
    }
}

pub open spec fn initial_view() -> ClientView {
    ClientView {
        serverinfo: Seq::<char>::empty(),
        serverdata: None,
        players: Seq::new(MAX_CLIENTS as nat, |i: int| fresh_player()),
        sounds: Seq::empty(),
        models: Seq::empty(),
        prints: Seq::empty(),
        next_sound: None,
        next_model: None,
        baselines: zero_entities(MAX_EDICTS as nat),
        frames: Seq::new(UPDATE_BACKUP as nat, |i: int| fresh_frame()),
        valid_sequence: 0,
        server_time: 0,
    }
}


/// The valid frame sequence as a move goes out with `sequence`: dropped
/// (0) once it falls out of the window of frames kept.
pub open spec fn aged_valid(valid: i32, sequence: u32) -> i32 {
    if valid != 0 && sequence.wrapping_sub(valid as u32) >= (UPDATE_BACKUP - 1) as u32 {
        0
    } else {
        valid
    }
}

/// The slot of the frame ring that sequence `seq` uses.
pub open spec fn slot_of(seq: u32) -> int {
    (seq & 63u32) as int
}

proof fn lemma_slot_of(seq: u32)
    ensures
        ((seq as usize) & 63usize) as int == slot_of(seq),
        0 <= slot_of(seq) < UPDATE_BACKUP,
{
    assert(((seq as usize) & 63usize) as int == (seq & 63u32) as int) by (bit_vector);
    assert((seq & 63u32) < 64u32) by (bit_vector);
}

fn slot(seq: u32) -> (r: usize)
    ensures
        r == slot_of(seq),
        r < UPDATE_BACKUP,
{
    proof {
        lemma_slot_of(seq);
    }
    (seq as usize) & UPDATE_MASK
}

/// The sequence a delta packet refers to: the latest one, at most
/// `incoming`, whose low bits are those of `from`.
pub open spec fn resolved_delta(incoming: u32, from: u8) -> u32 {
    let seq = (incoming & !63u32) | ((from as u32) & 63u32);
    if seq > incoming {
        seq.wrapping_sub(UPDATE_BACKUP as u32)
    } else {
        seq
    }
}

pub fn resolve_delta_sequence(incoming_sequence: u32, from: u8) -> (r: u32)
    ensures
        r == resolved_delta(incoming_sequence, from),
{
    let mask = UPDATE_MASK as u32;
    let mut seq = (incoming_sequence & !mask) | (from as u32 & mask);
    if seq > incoming_sequence {
        seq = seq.wrapping_sub(UPDATE_BACKUP as u32);
    }
    seq
}

/// `t` with empty strings added up to length `n`.
pub open spec fn padded(t: Seq<Seq<char>>, n: int) -> Seq<Seq<char>> {
    if t.len() < n {
        t + Seq::new((n - t.len()) as nat, |i: int| Seq::<char>::empty())
    } else {
        t
    }
}

/// A list after a chunk of it arrives: the items in place from `start` on,
/// the list grown with empty names where the chunk starts past its end.
pub open spec fn spec_apply_list(t: Seq<Seq<char>>, start: int, items: Seq<Seq<char>>) -> Seq<Seq<char>> {
    let base = padded(t, start);
    let len = if base.len() < start + items.len() { start + items.len() } else { base.len() as int };
    Seq::new(len as nat, |j: int| if start <= j < start + items.len() { items[j - start] } else { base[j] })
}

fn apply_string_list(target: &mut Vec<String>, chunk: &StringListChunk)
    requires
        old(target)@.len() + chunk.items@.len() + 512 < usize::MAX,
    ensures
        string_views(final(target)@) == spec_apply_list(string_views(old(target)@), chunk.start as int, string_views(chunk.items@)),
{
    let ghost t0 = string_views(target@);
    let ghost items = string_views(chunk.items@);
    let ghost start = chunk.start as int;
    let start_at = chunk.start as usize;
    while target.len() < start_at
        invariant
            start_at == start,
            t0.len() <= string_views(target@).len(),
            string_views(target@) == padded(t0, string_views(target@).len() as int),
            string_views(target@).len() <= if t0.len() < start { start } else { t0.len() as int },
        decreases start_at - target.len(),
    {
        let ghost before = string_views(target@);
        target.push(String::new());
        proof {
            assert(string_views(target@) =~= before.push(Seq::<char>::empty()));
            assert(padded(t0, string_views(target@).len() as int) =~= before.push(Seq::<char>::empty()));
        }
    }
    let ghost base = string_views(target@);
    assert(base =~= padded(t0, start));
    let mut i: usize = 0;
    while i < chunk.items.len()
        invariant
            start_at == start,
            items == string_views(chunk.items@),
            base == padded(t0, start),
            base.len() >= start,
            i <= items.len(),
            string_views(target@) == spec_apply_list(base, start, items.take(i as int)),
            target@.len() <= base.len() + i,
            base.len() + items.len() + 256 < usize::MAX,
        decreases chunk.items.len() - i,
    {
        let index = start_at + i;
        let item = chunk.items[i].clone();
        let ghost before = string_views(target@);
        if index < target.len() {
            target.set(index, item);
            proof {
                assert(string_views(target@) =~= before.update(index as int, items[i as int]));
            }
        } else {
            target.push(item);
            proof {
                assert(string_views(target@) =~= before.push(items[i as int]));
            }
        }
        i = i + 1;
        proof {
            assert(string_views(target@) =~= spec_apply_list(base, start, items.take(i as int)));
        }
    }
    proof {
        assert(items.take(items.len() as int) =~= items);
        assert(padded(t0, start) == base);
    }
}

/// Whether the frame `o + 1` before sequence `ack` sits in slot `j`.
pub open spec fn chokes(ack: u32, o: int, j: int) -> bool {
    slot_of(ack.wrapping_sub((1 + o) as u32)) == j
}

/// Whether slot `j` holds one of the `count` frames before sequence `ack`.
pub open spec fn is_choked(ack: u32, count: int, j: int) -> bool {
    exists|o: int| 0 <= o < count && #[trigger] chokes(ack, o, j)
}

/// The ring with the `count` frames before sequence `ack` marked choked.
pub open spec fn choked_frames(frames: Seq<FrameView>, ack: u32, count: int) -> Seq<FrameView> {
    Seq::new(frames.len(), |j: int| if is_choked(ack, count, j) {
        FrameView { receivedtime: TIME_CHOKED, ..frames[j] }
    } else {
        frames[j]
    })
}

/// Changing one frame of a well-formed ring, keeping its tables, keeps the
/// ring well formed.
proof fn lemma_frames_wf(before: Seq<Frame>, after: Seq<Frame>, index: int)
    requires
        0 <= index < before.len(),
        after.len() == before.len(),
        forall|j: int| 0 <= j < before.len() ==> #[trigger] before[j].wf(),
        forall|j: int| 0 <= j < before.len() && j != index ==> after[j] == before[j],
        after[index].wf(),
    ensures
        forall|j: int| 0 <= j < after.len() ==> #[trigger] after[j].wf(),
{
    assert forall|j: int| 0 <= j < after.len() implies #[trigger] after[j].wf() by {
        assert(before[j].wf());
    }
}

/// How merging a packet's entity changes into the previous frame ends.
pub enum MergeEnd {
    /// The new frame's entities.
    Done(Seq<EntityState>),
    /// More entities than a frame holds.
    Overflow,
    /// A full update that removes, or skips over, an entity: the packet is
    /// unusable.
    Broken,
}

/// The baseline of entity `n`; a zero state past the table's end.
pub open spec fn baseline_of(baselines: Seq<EntityState>, n: int) -> EntityState {
    if 0 <= n < baselines.len() {
        baselines[n]
    } else {
        zero_entity()
    }
}

/// Merges the changes `deltas`, ordered by entity number, into the previous
/// frame's entities `old` after the entities `out` already placed: an old
/// entity that no change names is kept, one that a change names is updated
/// or removed, and a new number starts from its baseline.
pub open spec fn merge(
    old: Seq<EntityState>,
    deltas: Seq<EntityDelta>,
    baselines: Seq<EntityState>,
    full: bool,
    out: Seq<EntityState>,
) -> MergeEnd
    decreases old.len() + deltas.len(),
{
    if deltas.len() == 0 {
        if old.len() == 0 {
            MergeEnd::Done(out)
        } else if out.len() >= MAX_PACKET_ENTITIES {
            MergeEnd::Overflow
        } else {
            merge(old.drop_first(), deltas, baselines, full, out.push(old[0]))
        }
    } else {
        let d = deltas[0];
        let num = d.number as i32;
        if old.len() > 0 && num > old[0].number {
            if full {
                MergeEnd::Broken
            } else if out.len() >= MAX_PACKET_ENTITIES {
                MergeEnd::Overflow
            } else {
                merge(old.drop_first(), deltas, baselines, full, out.push(old[0]))
            }
        } else if old.len() == 0 || num < old[0].number {
            if d.remove {
                if full {
                    MergeEnd::Broken
                } else {
                    merge(old, deltas.drop_first(), baselines, full, out)
                }
            } else if out.len() >= MAX_PACKET_ENTITIES {
                MergeEnd::Overflow
            } else {
                merge(old, deltas.drop_first(), baselines, full, out.push(applied(d, baseline_of(baselines, d.number as int))))
            }
        } else {
            if d.remove {
                merge(old.drop_first(), deltas.drop_first(), baselines, full, out)
            } else if out.len() >= MAX_PACKET_ENTITIES {
                MergeEnd::Overflow
            } else {
                merge(old.drop_first(), deltas.drop_first(), baselines, full, out.push(applied(d, old[0])))
            }
        }
    }
}

/// The entities a frame holds.
pub open spec fn frame_live(f: FrameView) -> Seq<EntityState> {
    f.entities.take(f.num_entities as int)
}

/// The state after merging `deltas` into `old` for the frame of `incoming`.
pub open spec fn merged_view(s: ClientView, old: Seq<EntityState>, deltas: Seq<EntityDelta>, incoming: u32, full: bool) -> ClientView {
    let n = slot_of(incoming);
    let f = s.frames[n];
    match merge(old, deltas, s.baselines, full, Seq::empty()) {
        MergeEnd::Done(out) => ClientView {
            valid_sequence: incoming as i32,
            frames: s.frames.update(n, FrameView {
                num_entities: out.len() as usize,
                entities: out + zero_entities((MAX_PACKET_ENTITIES - out.len()) as nat),
                invalid: false,
                ..f
            }),
            ..s
        },
        MergeEnd::Overflow => ClientView {
            valid_sequence: incoming as i32,
            frames: s.frames.update(n, FrameView { invalid: true, ..f }),
            ..s
        },
        MergeEnd::Broken => ClientView {
            valid_sequence: 0,
            frames: s.frames.update(n, FrameView { invalid: true, ..f }),
            ..s
        },
    }
}

/// The state after a packet of entities arrives as sequence `incoming`: a
/// full one is merged into nothing; a delta one into the frame it names,
/// unless that frame is too old to be kept, when the packet is dropped.
pub open spec fn spec_packet_entities(s: ClientView, from: Option<u8>, deltas: Seq<EntityDelta>, incoming: u32) -> ClientView {
    match from {
        None => merged_view(s, Seq::empty(), deltas, incoming, true),
        Some(fr) => {
            let oldpacket = resolved_delta(incoming, fr);
            if incoming.wrapping_sub(oldpacket) >= (UPDATE_BACKUP - 1) as u32 {
                ClientView {
                    valid_sequence: 0,
                    frames: s.frames.update(slot_of(incoming), FrameView { invalid: true, ..s.frames[slot_of(incoming)] }),
                    ..s
                }
            } else {
                merged_view(s, frame_live(s.frames[slot_of(oldpacket)]), deltas, incoming, false)
            }
        }
    }
}

/// Every change names an entity below 9999, the number that stands for
/// "no more old entities" while merging.
pub open spec fn numbers_in_range(deltas: Seq<EntityDelta>) -> bool {
    forall|i: int| 0 <= i < deltas.len() ==> (#[trigger] deltas[i]).number < 9999
}

/// Entities in strictly rising order of number.
pub open spec fn ascending(s: Seq<EntityState>) -> bool {
    forall|i: int, j: int| 0 <= i < j < s.len() ==> s[i].number < s[j].number
}

/// Changes in strictly rising order of entity number.
pub open spec fn deltas_ascending(ds: Seq<EntityDelta>) -> bool {
    forall|i: int, j: int| 0 <= i < j < ds.len() ==> ds[i].number < ds[j].number
}

/// The states a full update gives: each change applied to its baseline.
pub open spec fn from_baselines(ds: Seq<EntityDelta>, baselines: Seq<EntityState>) -> Seq<EntityState> {
    Seq::new(ds.len(), |i: int| applied(ds[i], baseline_of(baselines, ds[i].number as int)))
}

proof fn lemma_merge_ascending(
    old: Seq<EntityState>,
    ds: Seq<EntityDelta>,
    baselines: Seq<EntityState>,
    full: bool,
    out: Seq<EntityState>,
)
    requires
        ascending(old),
        deltas_ascending(ds),
        ascending(out),
        out.len() > 0 && old.len() > 0 ==> out.last().number < old[0].number,
        out.len() > 0 && ds.len() > 0 ==> out.last().number < ds[0].number as i32,
    ensures
        merge(old, ds, baselines, full, out) matches MergeEnd::Done(r) ==> ascending(r),
    decreases old.len() + ds.len(),
{
    if ds.len() == 0 {
        if old.len() > 0 && out.len() < MAX_PACKET_ENTITIES {
            lemma_merge_ascending(old.drop_first(), ds, baselines, full, out.push(old[0]));
        }
    } else {
        let d = ds[0];
        let num = d.number as i32;
        if old.len() > 0 && num > old[0].number {
            if !full && out.len() < MAX_PACKET_ENTITIES {
                lemma_merge_ascending(old.drop_first(), ds, baselines, full, out.push(old[0]));
            }
        } else if old.len() == 0 || num < old[0].number {
            if d.remove {
                if !full {
                    lemma_merge_ascending(old, ds.drop_first(), baselines, full, out);
                }
            } else if out.len() < MAX_PACKET_ENTITIES {
                let e = applied(d, baseline_of(baselines, d.number as int));
                lemma_merge_ascending(old, ds.drop_first(), baselines, full, out.push(e));
            }
        } else {
            if d.remove {
                lemma_merge_ascending(old.drop_first(), ds.drop_first(), baselines, full, out);
            } else if out.len() < MAX_PACKET_ENTITIES {
                lemma_merge_ascending(old.drop_first(), ds.drop_first(), baselines, full, out.push(applied(d, old[0])));
            }
        }
    }
}

/// Merging changes in rising order of entity number into a frame in rising
/// order gives a frame in rising order: the order that each later delta
/// packet relies on is kept.
pub proof fn law_merge_keeps_order(old: Seq<EntityState>, deltas: Seq<EntityDelta>, baselines: Seq<EntityState>, full: bool)
    requires
        ascending(old),
        deltas_ascending(deltas),
    ensures
        merge(old, deltas, baselines, full, Seq::empty()) matches MergeEnd::Done(r) ==> ascending(r),
{
    lemma_merge_ascending(old, deltas, baselines, full, Seq::empty());
}

proof fn lemma_merge_keeps_placed(
    old: Seq<EntityState>,
    ds: Seq<EntityDelta>,
    baselines: Seq<EntityState>,
    full: bool,
    out: Seq<EntityState>,
)
    ensures
        merge(old, ds, baselines, full, out) matches MergeEnd::Done(r) ==> out.len() <= r.len()
            && forall|k: int| 0 <= k < out.len() ==> #[trigger] r[k] == out[k],
    decreases old.len() + ds.len(),
{
    if ds.len() == 0 {
        if old.len() > 0 && out.len() < MAX_PACKET_ENTITIES {
            lemma_merge_keeps_placed(old.drop_first(), ds, baselines, full, out.push(old[0]));
        }
    } else {
        let d = ds[0];
        let num = d.number as i32;
        if old.len() > 0 && num > old[0].number {
            if !full && out.len() < MAX_PACKET_ENTITIES {
                lemma_merge_keeps_placed(old.drop_first(), ds, baselines, full, out.push(old[0]));
            }
        } else if old.len() == 0 || num < old[0].number {
            if d.remove {
                if !full {
                    lemma_merge_keeps_placed(old, ds.drop_first(), baselines, full, out);
                }
            } else if out.len() < MAX_PACKET_ENTITIES {
                let e = applied(d, baseline_of(baselines, d.number as int));
                lemma_merge_keeps_placed(old, ds.drop_first(), baselines, full, out.push(e));
            }
        } else {
            if d.remove {
                lemma_merge_keeps_placed(old.drop_first(), ds.drop_first(), baselines, full, out);
            } else if out.len() < MAX_PACKET_ENTITIES {
                lemma_merge_keeps_placed(old.drop_first(), ds.drop_first(), baselines, full, out.push(applied(d, old[0])));
            }
        }
    }
}

proof fn lemma_merge_updates_named(
    old: Seq<EntityState>,
    ds: Seq<EntityDelta>,
    baselines: Seq<EntityState>,
    full: bool,
    out: Seq<EntityState>,
    i: int,
    j: int,
)
    requires
        ascending(old),
        deltas_ascending(ds),
        0 <= i < old.len(),
        0 <= j < ds.len(),
        ds[j].number as i32 == old[i].number,
        !ds[j].remove,
    ensures
        merge(old, ds, baselines, full, out) matches MergeEnd::Done(r) ==> r.contains(applied(ds[j], old[i])),
    decreases old.len() + ds.len(),
{
    let d = ds[0];
    let num = d.number as i32;
    let o1 = old.drop_first();
    let d1 = ds.drop_first();
    assert(ascending(o1)) by {
        assert forall|a: int, b: int| 0 <= a < b < o1.len() implies o1[a].number < o1[b].number by {
            assert(o1[a] == old[a + 1] && o1[b] == old[b + 1]);
        }
    }
    assert(deltas_ascending(d1)) by {
        assert forall|a: int, b: int| 0 <= a < b < d1.len() implies d1[a].number < d1[b].number by {
            assert(d1[a] == ds[a + 1] && d1[b] == ds[b + 1]);
        }
    }
    if j > 0 {
        assert(ds[0].number < ds[j].number);
        assert(d1[j - 1] == ds[j]);
    }
    if i > 0 {
        assert(old[0].number < old[i].number);
        assert(o1[i - 1] == old[i]);
    }
    if num > old[0].number {
        assert(i > 0) by {
            if i == 0 {
                if j > 0 {
                    assert(ds[0].number < ds[j].number);
                }
            }
        }
        if !full && out.len() < MAX_PACKET_ENTITIES {
            lemma_merge_updates_named(o1, ds, baselines, full, out.push(old[0]), i - 1, j);
        }
    } else if num < old[0].number {
        assert(j > 0) by {
            if j == 0 {
                if i > 0 {
                    assert(old[0].number < old[i].number);
                }
            }
        }
        if d.remove {
            if !full {
                lemma_merge_updates_named(old, d1, baselines, full, out, i, j - 1);
            }
        } else if out.len() < MAX_PACKET_ENTITIES {
            let e = applied(d, baseline_of(baselines, d.number as int));
            lemma_merge_updates_named(old, d1, baselines, full, out.push(e), i, j - 1);
        }
    } else {
        if i == 0 || j == 0 {
            assert(i == 0 && j == 0) by {
                if i > 0 {
                    assert(old[0].number < old[i].number);
                }
                if j > 0 {
                    assert(ds[0].number < ds[j].number);
                }
            }
            if out.len() < MAX_PACKET_ENTITIES {
                let placed = out.push(applied(d, old[0]));
                lemma_merge_keeps_placed(o1, d1, baselines, full, placed);
                if let MergeEnd::Done(r) = merge(old, ds, baselines, full, out) {
                    assert(r[out.len() as int] == placed[out.len() as int]);
                }
            }
        } else if d.remove {
            lemma_merge_updates_named(o1, d1, baselines, full, out, i - 1, j - 1);
        } else if out.len() < MAX_PACKET_ENTITIES {
            lemma_merge_updates_named(o1, d1, baselines, full, out.push(applied(d, old[0])), i - 1, j - 1);
        }
    }
}

/// A delta packet updates the entities of the frame it refers to: an entity
/// of that frame that a change names (and does not remove) comes out as
/// that change applied to its state in that frame, so each field the change
/// leaves out keeps the frame's value, not the baseline's.
pub proof fn law_delta_updates_old_entity(
    old: Seq<EntityState>,
    deltas: Seq<EntityDelta>,
    baselines: Seq<EntityState>,
    i: int,
    j: int,
)
    requires
        ascending(old),
        deltas_ascending(deltas),
        0 <= i < old.len(),
        0 <= j < deltas.len(),
        deltas[j].number as i32 == old[i].number,
        !deltas[j].remove,
    ensures
        merge(old, deltas, baselines, false, Seq::empty()) matches MergeEnd::Done(r)
            ==> r.contains(applied(deltas[j], old[i])),
{
    lemma_merge_updates_named(old, deltas, baselines, false, Seq::empty(), i, j);
}

proof fn lemma_full_update(ds: Seq<EntityDelta>, baselines: Seq<EntityState>, out: Seq<EntityState>)
    requires
        out.len() + ds.len() <= MAX_PACKET_ENTITIES,
        forall|i: int| 0 <= i < ds.len() ==> !(#[trigger] ds[i]).remove,
    ensures
        merge(Seq::empty(), ds, baselines, true, out) == MergeEnd::Done(out + from_baselines(ds, baselines)),
    decreases ds.len(),
{
    if ds.len() == 0 {
        assert(out + from_baselines(ds, baselines) =~= out);
    } else {
        let e = applied(ds[0], baseline_of(baselines, ds[0].number as int));
        assert(!ds[0].remove);
        assert forall|i: int| 0 <= i < ds.drop_first().len() implies !(#[trigger] ds.drop_first()[i]).remove by {
            assert(!ds[i + 1].remove);
        }
        lemma_full_update(ds.drop_first(), baselines, out.push(e));
        assert(out.push(e) + from_baselines(ds.drop_first(), baselines) =~= out + from_baselines(ds, baselines));
    }
}

/// A full update that removes nothing and fits in a frame gives exactly its
/// changes, each applied to the entity's baseline, in the order sent.
pub proof fn law_full_update_from_baselines(deltas: Seq<EntityDelta>, baselines: Seq<EntityState>)
    requires
        deltas.len() <= MAX_PACKET_ENTITIES,
        forall|i: int| 0 <= i < deltas.len() ==> !(#[trigger] deltas[i]).remove,
    ensures
        merge(Seq::empty(), deltas, baselines, true, Seq::empty()) == MergeEnd::Done(from_baselines(deltas, baselines)),
{
    lemma_full_update(deltas, baselines, Seq::empty());
    assert(Seq::<EntityState>::empty() + from_baselines(deltas, baselines) =~= from_baselines(deltas, baselines));
}

proof fn lemma_empty_delta(old: Seq<EntityState>, baselines: Seq<EntityState>, full: bool, out: Seq<EntityState>)
    requires
        out.len() + old.len() <= MAX_PACKET_ENTITIES,
    ensures
        merge(old, Seq::empty(), baselines, full, out) == MergeEnd::Done(out + old),
    decreases old.len(),
{
    if old.len() == 0 {
        assert(out + old =~= out);
    } else {
        lemma_empty_delta(old.drop_first(), baselines, full, out.push(old[0]));
        assert(out.push(old[0]) + old.drop_first() =~= out + old);
    }
}

/// A delta packet that changes nothing gives back the frame it refers to.
pub proof fn law_empty_delta_keeps_frame(old: Seq<EntityState>, baselines: Seq<EntityState>)
    requires
        old.len() <= MAX_PACKET_ENTITIES,
    ensures
        merge(old, Seq::empty(), baselines, false, Seq::empty()) == MergeEnd::Done(old),
{
    lemma_empty_delta(old, baselines, false, Seq::empty());
    assert(Seq::<EntityState>::empty() + old =~= old);
}

enum Merged {
    Done(PacketEntities),
    Overflow,
    Broken,
}

fn merge_entities(
    old: &Vec<EntityState>,
    old_count: usize,
    deltas: &Vec<EntityDelta>,
    baselines: &Vec<EntityState>,
    full: bool,
) -> (r: Merged)
    requires
        old_count <= old@.len(),
        numbers_in_range(deltas@),
    ensures
        match merge(old@.take(old_count as int), deltas@, baselines@, full, Seq::empty()) {
            MergeEnd::Done(out) => r matches Merged::Done(p) && p.wf() && p.num_entities == out.len()
                && p.entities@ == out + zero_entities((MAX_PACKET_ENTITIES - out.len()) as nat),
            MergeEnd::Overflow => r is Overflow,
            MergeEnd::Broken => r is Broken,
        },
{
    let ghost olds = old@.take(old_count as int);
    let ghost whole = merge(olds, deltas@, baselines@, full, Seq::empty());
    let mut newp = PacketEntities::default();
    let mut oi: usize = 0;
    let mut di: usize = 0;
    let mut ni: usize = 0;
    assert(olds.skip(0) =~= olds);
    assert(deltas@.skip(0) =~= deltas@);
    assert(newp.entities@.take(0) =~= Seq::<EntityState>::empty());
    loop
        invariant
            olds == old@.take(old_count as int),
            old_count <= old@.len(),
            oi <= old_count,
            di <= deltas@.len(),
            ni <= MAX_PACKET_ENTITIES,
            numbers_in_range(deltas@),
            newp.num_entities == 0,
            newp.entities@.len() == MAX_PACKET_ENTITIES,
            forall|j: int| ni <= j < MAX_PACKET_ENTITIES ==> newp.entities@[j] == zero_entity(),
            whole == merge(olds, deltas@, baselines@, full, Seq::empty()),
            whole == merge(olds.skip(oi as int), deltas@.skip(di as int), baselines@, full, newp.entities@.take(ni as int)),
        decreases (old_count - oi) + (deltas@.len() - di),
    {
        let ghost o = olds.skip(oi as int);
        let ghost ds = deltas@.skip(di as int);
        let ghost out = newp.entities@.take(ni as int);
        if di >= deltas.len() {
            if oi >= old_count {
                newp.num_entities = ni;
                proof {
                    assert(o.len() == 0 && ds.len() == 0);
                    assert(newp.entities@ =~= out + zero_entities((MAX_PACKET_ENTITIES - out.len()) as nat));
                }
                return Merged::Done(newp);
            }
            if ni >= MAX_PACKET_ENTITIES {
                return Merged::Overflow;
            }
            let e = old[oi];
            newp.entities.set(ni, e);
            proof {
                assert(o[0] == e);
                assert(o.drop_first() =~= olds.skip(oi + 1));
                assert(newp.entities@.take(ni + 1) =~= out.push(e));
            }
            ni = ni + 1;
            oi = oi + 1;
        } else {
            let d = &deltas[di];
            let newnum = d.number as i32;
            proof {
                assert(ds[0] == *d);
                assert(ds.drop_first() =~= deltas@.skip(di + 1));
            }
            if oi < old_count && newnum > old[oi].number {
                if full {
                    return Merged::Broken;
                }
                if ni >= MAX_PACKET_ENTITIES {
                    return Merged::Overflow;
                }
                let e = old[oi];
                newp.entities.set(ni, e);
                proof {
                    assert(o[0] == e);
                    assert(o.drop_first() =~= olds.skip(oi + 1));
                    assert(newp.entities@.take(ni + 1) =~= out.push(e));
                }
                ni = ni + 1;
                oi = oi + 1;
            } else if oi >= old_count || newnum < old[oi].number {
                proof {
                    if oi < old_count {
                        assert(o[0] == old@[oi as int]);
                    }
                }
                if d.remove {
                    if full {
                        return Merged::Broken;
                    }
                    di = di + 1;
                } else {
                    if ni >= MAX_PACKET_ENTITIES {
                        return Merged::Overflow;
                    }
                    let index = d.number as usize;
                    let base = if index < baselines.len() { baselines[index] } else { EntityState::default() };
                    let e = d.apply_to(&base);
                    newp.entities.set(ni, e);
                    proof {
                        assert(newp.entities@.take(ni + 1) =~= out.push(e));
                    }
                    ni = ni + 1;
                    di = di + 1;
                }
            } else {
                proof {
                    assert(o[0] == old@[oi as int]);
                    assert(o.drop_first() =~= olds.skip(oi + 1));
                }
                if d.remove {
                    oi = oi + 1;
                    di = di + 1;
                } else {
                    if ni >= MAX_PACKET_ENTITIES {
                        return Merged::Overflow;
                    }
                    let e = d.apply_to(&old[oi]);
                    newp.entities.set(ni, e);
                    proof {
                        assert(newp.entities@.take(ni + 1) =~= out.push(e));
                    }
                    ni = ni + 1;
                    oi = oi + 1;
                    di = di + 1;
                }
            }
        }
    }
}

pub open spec fn starts_with_star(key: Seq<char>) -> bool {
    key.len() > 0 && key[0] == '*'
}

/// An info string after a key is set: through the rules for `*` keys when
/// the key starts with `*`.
pub open spec fn set_info_text(t: Seq<char>, key: Seq<char>, value: Seq<char>, limit: nat) -> Seq<char> {
    if starts_with_star(key) {
        spec_set_star(t, key, value, limit).0
    } else {
        spec_set(t, key, value, limit).0
    }
}

pub open spec fn with_player(s: ClientView, slot: int, p: PlayerView) -> ClientView {
    ClientView { players: s.players.update(slot, p), ..s }
}

pub open spec fn or_cmd(v: Option<UserCmd>, dflt: UserCmd) -> UserCmd {
    match v {
        Some(c) => c,
        None => dflt,
    }
}

/// A player slot after a player-info message: position, frame and velocity
/// taken, and each optional field that the message carries.
pub open spec fn player_info_applied(p: PlayerView, info: PlayerInfoMessage) -> PlayerView {
    PlayerView {
        origin: info.origin,
        frame: info.frame,
        velocity: info.velocity,
        msec: or_u8(info.msec, p.msec),
        cmd: or_cmd(info.command, p.cmd),
        model_index: or_u8(info.model_index, p.model_index),
        skin_num: or_u8(info.skin_num, p.skin_num),
        effects: or_u8(info.effects, p.effects),
        weapon_frame: or_u8(info.weapon_frame, p.weapon_frame),
        ..p
    }
}

/// A player's frame state after a player-info message that arrived as
/// sequence `incoming` at server time `time`.
pub open spec fn player_state_applied(ps: PlayerState, info: PlayerInfoMessage, incoming: u32, time: u32) -> PlayerState {
    PlayerState {
        messagenum: incoming as i32,
        state_time: time,
        flags: info.flags as i32,
        origin: info.origin,
        velocity: info.velocity,
        frame: info.frame as i32,
        command: or_cmd(info.command, ps.command),
        viewangles: match info.command {
            Some(c) => c.angles,
            None => ps.viewangles,
        },
        modelindex: or_i32(info.model_index, ps.modelindex),
        skinnum: or_i32(info.skin_num, ps.skinnum),
        effects: or_i32(info.effects, ps.effects),
        weaponframe: or_i32(info.weapon_frame, ps.weaponframe),
        ..ps
    }
}

pub open spec fn next_of(next: u8) -> Option<u8> {
    if next == 0 {
        None
    } else {
        Some(next)
    }
}

/// How message `m`, arriving as sequence `incoming`, takes the state from
/// `s` to `t`. A message about a player slot or entity past the tables
/// changes nothing.
pub open spec fn message_applied(s: ClientView, t: ClientView, m: SvcMessage, incoming: u32) -> bool {
    match m {
        SvcMessage::ServerData(data) => t == (ClientView {
            serverdata: Some(server_data_view(data)),
            sounds: Seq::empty(),
            models: Seq::empty(),
            prints: Seq::empty(),
            next_sound: None,
            next_model: None,
            server_time: 0,
            ..s
        }),
        SvcMessage::Print { level, message } => t == (ClientView { prints: s.prints.push((level, message@)), ..s }),
        SvcMessage::StuffText(_) => t == s,
        SvcMessage::SoundList(chunk) => t == (ClientView {
            sounds: spec_apply_list(s.sounds, chunk.start as int, string_views(chunk.items@)),
            next_sound: next_of(chunk.next),
            ..s
        }),
        SvcMessage::ModelList(chunk) => t == (ClientView {
            models: spec_apply_list(s.models, chunk.start as int, string_views(chunk.items@)),
            next_model: next_of(chunk.next),
            ..s
        }),
        SvcMessage::UpdateFrags { slot, frags } => t == if slot < s.players.len() {
            with_player(s, slot as int, PlayerView { frags: frags, ..s.players[slot as int] })
        } else {
            s
        },
        SvcMessage::UpdatePing { slot, ping } => t == if slot < s.players.len() {
            with_player(s, slot as int, PlayerView { ping: ping, ..s.players[slot as int] })
        } else {
            s
        },
        SvcMessage::UpdatePl { slot, packet_loss } => t == if slot < s.players.len() {
            with_player(s, slot as int, PlayerView { packet_loss: packet_loss, ..s.players[slot as int] })
        } else {
            s
        },
        SvcMessage::UpdateEnterTime { slot, seconds_ago } => t == if slot < s.players.len() {
            with_player(s, slot as int, PlayerView { enter_time: seconds_ago, ..s.players[slot as int] })
        } else {
            s
        },
        SvcMessage::UpdateUserInfo { slot, user_id, userinfo } => if slot < s.players.len() {
            &&& truncated(userinfo@, t.players[slot as int].userinfo, MAX_INFO_STRING as nat)
            &&& t == with_player(s, slot as int, PlayerView {
                user_id: user_id,
                userinfo: t.players[slot as int].userinfo,
                ..s.players[slot as int]
            })
        } else {
            t == s
        },
        SvcMessage::SetInfo { slot, key, value } => t == if slot < s.players.len() {
            with_player(s, slot as int, PlayerView {
                userinfo: set_info_text(s.players[slot as int].userinfo, key@, value@, MAX_INFO_STRING as nat),
                ..s.players[slot as int]
            })
        } else {
            s
        },
        SvcMessage::ServerInfo { key, value } => t == (ClientView {
            serverinfo: set_info_text(s.serverinfo, key@, value@, MAX_SERVERINFO_STRING as nat),
            ..s
        }),
        SvcMessage::PlayerInfo(info) => t == if info.num < s.players.len() {
            let n = slot_of(incoming);
            ClientView {
                players: s.players.update(info.num as int, player_info_applied(s.players[info.num as int], info)),
                frames: s.frames.update(n, FrameView {
                    playerstate: s.frames[n].playerstate.update(
                        info.num as int,
                        player_state_applied(s.frames[n].playerstate[info.num as int], info, incoming, s.server_time),
                    ),
                    ..s.frames[n]
                }),
                ..s
            }
        } else {
            s
        },
        SvcMessage::SpawnBaseline { entity, baseline } => t == if entity < s.baselines.len() {
            ClientView { baselines: s.baselines.update(entity as int, EntityState { number: entity as i32, ..baseline }), ..s }
        } else {
            s
        },
        SvcMessage::PacketEntities(update) => t == spec_packet_entities(s, update.delta_from, update.entities@, incoming),
    }
}

/// The lists a chunk grows stay far below the machine's size limit.
pub open spec fn lists_fit(s: ClientState, m: SvcMessage) -> bool {
    match m {
        SvcMessage::SoundList(c) => s.sounds@.len() + c.items@.len() + 512 < usize::MAX,
        SvcMessage::ModelList(c) => s.models@.len() + c.items@.len() + 512 < usize::MAX,
        _ => true,
    }
}

/// What `apply_message` needs of a message: a user info string that cuts
/// cleanly at the size limit, and entity numbers below 9999.
pub open spec fn message_ok(m: SvcMessage) -> bool {
    match m {
        SvcMessage::UpdateUserInfo { slot, userinfo, .. } => slot < MAX_CLIENTS ==> cuts_cleanly(userinfo@, MAX_INFO_STRING as nat),
        SvcMessage::PacketEntities(update) => numbers_in_range(update.entities@),
        _ => true,
    }
}

/// Changing one player slot, keeping its info string's limit, keeps the
/// slots well formed.
proof fn lemma_players_wf(before: Seq<PlayerInfo>, after: Seq<PlayerInfo>, index: int)
    requires
        0 <= index < before.len(),
        after.len() == before.len(),
        forall|j: int| 0 <= j < before.len() ==> #[trigger] before[j].userinfo.limit() == MAX_INFO_STRING,
        forall|j: int| 0 <= j < before.len() && j != index ==> after[j] == before[j],
        after[index].userinfo.limit() == MAX_INFO_STRING,
    ensures
        forall|j: int| 0 <= j < after.len() ==> #[trigger] after[j].userinfo.limit() == MAX_INFO_STRING,
{
    assert forall|j: int| 0 <= j < after.len() implies #[trigger] after[j].userinfo.limit() == MAX_INFO_STRING by {
        if j != index {
            assert(before[j].userinfo.limit() == MAX_INFO_STRING);
        }
    }
}

impl ClientState {
    /// The tables have their fixed sizes and the info strings their limits.
    pub open spec fn wf(&self) -> bool {
        &&& self.serverinfo.limit() == MAX_SERVERINFO_STRING
        &&& self.players@.len() == MAX_CLIENTS
        &&& forall|i: int| 0 <= i < self.players@.len() ==> #[trigger] self.players@[i].userinfo.limit() == MAX_INFO_STRING
        &&& self.baselines@.len() == MAX_EDICTS
        &&& self.frames@.len() == UPDATE_BACKUP
        &&& forall|i: int| 0 <= i < self.frames@.len() ==> #[trigger] self.frames@[i].wf()
    }

    /// A state with nothing known yet.
    pub fn new() -> (r: Self)
        ensures
            r.wf(),
            r@ == initial_view(),
    {
        let mut players: Vec<PlayerInfo> = Vec::new();
        let mut i: usize = 0;
        while i < MAX_CLIENTS
            invariant
                i <= MAX_CLIENTS,
                players@.len() == i,
                forall|j: int| 0 <= j < i ==> #[trigger] players@[j]@ == fresh_player(),
                forall|j: int| 0 <= j < i ==> #[trigger] players@[j].userinfo.limit() == MAX_INFO_STRING,
            decreases MAX_CLIENTS - i,
        {
            let ghost before = players@;
            let p = PlayerInfo::new();
            players.push(p);
            assert(players@ == before.push(p));
            assert forall|j: int| 0 <= j < i + 1 implies #[trigger] players@[j].userinfo.limit() == MAX_INFO_STRING by {
                if j < i {
                    assert(before[j].userinfo.limit() == MAX_INFO_STRING);
                    assert(players@[j] == before[j]);
                } else {
                    assert(players@[j] == p);
                    assert(p.userinfo.limit() == MAX_INFO_STRING);
                }
            }
            i = i + 1;
        }
        let mut baselines: Vec<EntityState> = Vec::new();
        let mut i: usize = 0;
        while i < MAX_EDICTS
            invariant
                i <= MAX_EDICTS,
                baselines@ == zero_entities(i as nat),
            decreases MAX_EDICTS - i,
        {
            baselines.push(EntityState::default());
            i = i + 1;
            assert(baselines@ =~= zero_entities(i as nat));
        }
        let mut frames: Vec<Frame> = Vec::new();
        let mut i: usize = 0;
        while i < UPDATE_BACKUP
            invariant
                i <= UPDATE_BACKUP,
                frames@.len() == i,
                forall|j: int| 0 <= j < i ==> #[trigger] frames@[j]@ == fresh_frame(),
                forall|j: int| 0 <= j < i ==> #[trigger] frames@[j].wf(),
            decreases UPDATE_BACKUP - i,
        {
            frames.push(Frame::default());
            i = i + 1;
        }
        let r = ClientState {
            serverinfo: InfoString::new(MAX_SERVERINFO_STRING),
            serverdata: None,
            players,
            sounds: Vec::new(),
            models: Vec::new(),
            prints: Vec::new(),
            next_sound: None,
            next_model: None,
            baselines,
            frames,
            valid_sequence: 0,
            server_time: 0,
        };
        assert(r@.players =~= initial_view().players);
        assert(r@.frames =~= initial_view().frames);
        assert(r@.sounds =~= Seq::<Seq<char>>::empty());
        assert(r@.models =~= Seq::<Seq<char>>::empty());
        assert(r@.prints =~= Seq::<(u8, Seq<char>)>::empty());
        r
    }

    fn apply_packet_entities(&mut self, update: &PacketEntitiesUpdate, incoming_sequence: u32)
        requires
            old(self).wf(),
            numbers_in_range(update.entities@),
        ensures
            final(self).wf(),
            final(self)@ == spec_packet_entities(old(self)@, update.delta_from, update.entities@, incoming_sequence),
    {
        let newpacket = slot(incoming_sequence);
        let ghost s0 = self@;
        let ghost frames0 = self.frames@;
        proof {
            assert(frames0[newpacket as int].wf());
        }
        let merged = match update.delta_from {
            Some(from) => {
                let oldpacket = resolve_delta_sequence(incoming_sequence, from);
                if incoming_sequence.wrapping_sub(oldpacket) >= (UPDATE_BACKUP as u32 - 1) {
                    self.valid_sequence = 0;
                    self.frames[newpacket].invalid = true;
                    proof {
                        lemma_frames_wf(frames0, self.frames@, newpacket as int);
                        assert(self@.frames =~= s0.frames.update(slot_of(incoming_sequence), FrameView { invalid: true, ..s0.frames[slot_of(incoming_sequence)] }));
                    }
                    return;
                }
                self.valid_sequence = incoming_sequence as i32;
                let os = slot(oldpacket);
                proof {
                    assert(frames0[os as int].wf());
                }
                merge_entities(
                    &self.frames[os].packet_entities.entities,
                    self.frames[os].packet_entities.num_entities,
                    &update.entities,
                    &self.baselines,
                    false,
                )
            },
            None => {
                self.valid_sequence = incoming_sequence as i32;
                let empty: Vec<EntityState> = Vec::new();
                proof {
                    assert(empty@.take(0) =~= Seq::<EntityState>::empty());
                }
                merge_entities(&empty, 0, &update.entities, &self.baselines, true)
            },
        };
        match merged {
            Merged::Done(p) => {
                self.frames[newpacket].packet_entities = p;
                self.frames[newpacket].invalid = false;
            },
            Merged::Overflow => {
                self.frames[newpacket].invalid = true;
            },
            Merged::Broken => {
                self.valid_sequence = 0;
                self.frames[newpacket].invalid = true;
            },
        }
        proof {
            lemma_frames_wf(frames0, self.frames@, newpacket as int);
            assert(self@.frames =~= spec_packet_entities(s0, update.delta_from, update.entities@, incoming_sequence).frames);
        }
    }

    /// Takes one message from the server, received in the packet with
    /// sequence `incoming_sequence`.
    #[verifier::rlimit(60)]
    pub fn apply_message(&mut self, msg: &SvcMessage, incoming_sequence: u32)
        requires
            old(self).wf(),
            message_ok(*msg),
            lists_fit(*old(self), *msg),
        ensures
            final(self).wf(),
            message_applied(old(self)@, final(self)@, *msg, incoming_sequence),
    {
        let ghost s0 = self@;
        let ghost players0 = self.players@;
        match msg {
            SvcMessage::ServerData(data) => {
                self.serverdata = Some(data.clone_data());
                self.sounds.clear();
                self.models.clear();
                self.prints.clear();
                self.next_sound = None;
                self.next_model = None;
                self.server_time = 0;
                proof {
                    assert(self@.sounds =~= Seq::<Seq<char>>::empty());
                    assert(self@.models =~= Seq::<Seq<char>>::empty());
                    assert(self@.prints =~= Seq::<(u8, Seq<char>)>::empty());
                    assert(self@ == (ClientView {
                        serverdata: Some(server_data_view(*data)),
                        sounds: Seq::empty(),
                        models: Seq::empty(),
                        prints: Seq::empty(),
                        next_sound: None,
                        next_model: None,
                        server_time: 0,
                        ..s0
                    }));
                }
            },
            SvcMessage::Print { level, message } => {
                self.prints.push((*level, message.clone()));
                proof {
                    assert(self@.prints =~= s0.prints.push((*level, message@)));
                }
            },
            SvcMessage::StuffText(_) => {},
            SvcMessage::SoundList(chunk) => {
                apply_string_list(&mut self.sounds, chunk);
                self.next_sound = if chunk.next == 0 { None } else { Some(chunk.next) };
            },
            SvcMessage::ModelList(chunk) => {
                apply_string_list(&mut self.models, chunk);
                self.next_model = if chunk.next == 0 { None } else { Some(chunk.next) };
            },
            SvcMessage::UpdateFrags { slot, frags } => {
                let index = *slot as usize;
                if index < self.players.len() {
                    self.players[index].frags = *frags;
                    proof {
                        lemma_players_wf(players0, self.players@, index as int);
                        assert(self@.players =~= s0.players.update(index as int, PlayerView { frags: *frags, ..s0.players[index as int] }));
                    }
                }
            },
            SvcMessage::UpdatePing { slot, ping } => {
                let index = *slot as usize;
                if index < self.players.len() {
                    self.players[index].ping = *ping;
                    proof {
                        lemma_players_wf(players0, self.players@, index as int);
                        assert(self@.players =~= s0.players.update(index as int, PlayerView { ping: *ping, ..s0.players[index as int] }));
                    }
                }
            },
            SvcMessage::UpdatePl { slot, packet_loss } => {
                let index = *slot as usize;
                if index < self.players.len() {
                    self.players[index].packet_loss = *packet_loss;
                    proof {
                        lemma_players_wf(players0, self.players@, index as int);
                        assert(self@.players =~= s0.players.update(index as int, PlayerView { packet_loss: *packet_loss, ..s0.players[index as int] }));
                    }
                }
            },
            SvcMessage::UpdateEnterTime { slot, seconds_ago } => {
                let index = *slot as usize;
                if index < self.players.len() {
                    self.players[index].enter_time = *seconds_ago;
                    proof {
                        lemma_players_wf(players0, self.players@, index as int);
                        assert(self@.players =~= s0.players.update(index as int, PlayerView { enter_time: *seconds_ago, ..s0.players[index as int] }));
                    }
                }
            },
            SvcMessage::UpdateUserInfo { slot, user_id, userinfo } => {
                let index = *slot as usize;
                if index < self.players.len() {
                    proof {
                        assert(players0[index as int].userinfo.limit() == MAX_INFO_STRING);
                    }
                    self.players[index].user_id = *user_id;
                    self.players[index].userinfo.set_raw(userinfo.as_str());
                    proof {
                        lemma_players_wf(players0, self.players@, index as int);
                        assert(self@.players =~= s0.players.update(index as int, PlayerView {
                            user_id: *user_id,
                            userinfo: self@.players[index as int].userinfo,
                            ..s0.players[index as int]
                        }));
                    }
                }
            },
            SvcMessage::SetInfo { slot, key, value } => {
                let index = *slot as usize;
                if index < self.players.len() {
                    proof {
                        assert(players0[index as int].userinfo.limit() == MAX_INFO_STRING);
                    }
                    if starts_with_char(key.as_str(), '*') {
                        let _ = self.players[index].userinfo.set_star(key.as_str(), value.as_str());
                    } else {
                        let _ = self.players[index].userinfo.set(key.as_str(), value.as_str());
                    }
                    proof {
                        lemma_players_wf(players0, self.players@, index as int);
                        assert(self@.players =~= s0.players.update(index as int, PlayerView {
                            userinfo: set_info_text(s0.players[index as int].userinfo, key@, value@, MAX_INFO_STRING as nat),
                            ..s0.players[index as int]
                        }));
                    }
                }
            },
            SvcMessage::ServerInfo { key, value } => {
                if starts_with_char(key.as_str(), '*') {
                    let _ = self.serverinfo.set_star(key.as_str(), value.as_str());
                } else {
                    let _ = self.serverinfo.set(key.as_str(), value.as_str());
                }
            },
            SvcMessage::PlayerInfo(info) => {
                self.apply_player_info(info, incoming_sequence);
            },
            SvcMessage::SpawnBaseline { entity, baseline } => {
                let index = *entity as usize;
                if index < self.baselines.len() {
                    let mut stored = *baseline;
                    stored.number = *entity as i32;
                    self.baselines.set(index, stored);
                }
            },
            SvcMessage::PacketEntities(update) => {
                self.apply_packet_entities(update, incoming_sequence);
            },
        }
    }

    fn apply_player_info(&mut self, info: &PlayerInfoMessage, incoming_sequence: u32)
        requires
            old(self).wf(),
        ensures
            final(self).wf(),
            message_applied(old(self)@, final(self)@, SvcMessage::PlayerInfo(*info), incoming_sequence),
    {
        let ghost s0 = self@;
        let ghost players0 = self.players@;
        let ghost frames0 = self.frames@;
        let index = info.num as usize;
        if index >= self.players.len() {
            return;
        }
        self.players[index].origin = info.origin;
        self.players[index].frame = info.frame;
        self.players[index].velocity = info.velocity;
        match info.msec { Some(v) => { self.players[index].msec = v; }, None => {} }
        match info.command { Some(v) => { self.players[index].cmd = v; }, None => {} }
        match info.model_index { Some(v) => { self.players[index].model_index = v; }, None => {} }
        match info.skin_num { Some(v) => { self.players[index].skin_num = v; }, None => {} }
        match info.effects { Some(v) => { self.players[index].effects = v; }, None => {} }
        match info.weapon_frame { Some(v) => { self.players[index].weapon_frame = v; }, None => {} }
        proof {
            lemma_players_wf(players0, self.players@, index as int);
            assert(self@.players =~= s0.players.update(index as int, player_info_applied(s0.players[index as int], *info)));
        }
        let fi = slot(incoming_sequence);
        proof {
            assert(frames0[fi as int].wf());
        }
        let mut ps = self.frames[fi].playerstate[index];
        ps.messagenum = incoming_sequence as i32;
        ps.state_time = self.server_time;
        ps.flags = info.flags as i32;
        ps.origin = info.origin;
        ps.velocity = info.velocity;
        ps.frame = info.frame as i32;
        match info.command {
            Some(cmd) => {
                ps.command = cmd;
                ps.viewangles = cmd.angles;
            },
            None => {},
        }
        match info.model_index { Some(v) => { ps.modelindex = v as i32; }, None => {} }
        match info.skin_num { Some(v) => { ps.skinnum = v as i32; }, None => {} }
        match info.effects { Some(v) => { ps.effects = v as i32; }, None => {} }
        match info.weapon_frame { Some(v) => { ps.weaponframe = v as i32; }, None => {} }
        self.frames[fi].playerstate.set(index, ps);
        proof {
            lemma_frames_wf(frames0, self.frames@, fi as int);
            assert(self@.frames =~= s0.frames.update(fi as int, FrameView {
                playerstate: s0.frames[fi as int].playerstate.update(
                    index as int,
                    player_state_applied(s0.frames[fi as int].playerstate[index as int], *info, incoming_sequence, s0.server_time),
                ),
                ..s0.frames[fi as int]
            }));
        }
    }

    /// Prepares the movement message for outgoing sequence `sequence`: the
    /// command is recorded; a valid frame too old to delta from is dropped;
    /// the frame to delta from (if any) is recorded and named; and the last
    /// three commands go out.
    pub fn prepare_move(&mut self, sequence: u32, cmd: UserCmd) -> (r: MoveMessage)
        requires
            old(self).wf(),
        ensures
            final(self).wf(),
            ({
                let v = aged_valid(old(self).valid_sequence, sequence);
                let n = slot_of(sequence);
                &&& final(self)@ == (ClientView {
                    valid_sequence: v,
                    frames: old(self)@.frames.update(n, FrameView {
                        cmd: cmd,
                        delta_sequence: if v != 0 { v } else { -1i32 },
                        ..old(self)@.frames[n]
                    }),
                    ..old(self)@
                })
                &&& r.sequence == sequence
                &&& r.lost == 0
                &&& r.delta_sequence == (if v != 0 { Some((v & 0xff) as u8) } else { None })
                &&& r.cmds == [
                    final(self)@.frames[slot_of(sequence.wrapping_sub(2))].cmd,
                    final(self)@.frames[slot_of(sequence.wrapping_sub(1))].cmd,
                    cmd,
                ]
            }),
    {
        let ghost s0 = self@;
        self.store_outgoing_cmd(sequence, cmd);
        let ghost s1 = self@;
        if self.valid_sequence != 0 && sequence.wrapping_sub(self.valid_sequence as u32) >= (UPDATE_BACKUP as u32 - 1) {
            self.valid_sequence = 0;
        }
        let delta_sequence = if self.valid_sequence != 0 {
            let d = (self.valid_sequence & 0xff) as u8;
            self.set_outgoing_delta_sequence(sequence, self.valid_sequence);
            Some(d)
        } else {
            self.set_outgoing_delta_sequence(sequence, -1);
            None
        };
        proof {
            let v = aged_valid(s0.valid_sequence, sequence);
            let n = slot_of(sequence);
            let d: i32 = if v != 0 { v } else { -1i32 };
            lemma_slot_of(sequence);
            assert(self.valid_sequence == v);
            assert(self@.frames == s1.frames.update(n, FrameView { delta_sequence: d, ..s1.frames[n] }));
            assert(s1.frames[n] == FrameView { cmd: cmd, ..s0.frames[n] });
            assert(FrameView { delta_sequence: d, ..s1.frames[n] } == FrameView { cmd: cmd, delta_sequence: d, ..s0.frames[n] });
            assert(self@.frames =~= s0.frames.update(n, FrameView { cmd: cmd, delta_sequence: d, ..s0.frames[n] }));
        }
        let cmds = [
            self.outgoing_cmd(sequence.wrapping_sub(2)),
            self.outgoing_cmd(sequence.wrapping_sub(1)),
            self.outgoing_cmd(sequence),
        ];
        MoveMessage { sequence, lost: 0, cmds, delta_sequence }
    }

    /// Forgets the messages queued for this frame.
    pub fn clear_frame_events(&mut self)
        requires
            old(self).wf(),
        ensures
            final(self).wf(),
            final(self)@ == (ClientView { prints: Seq::empty(), ..old(self)@ }),
    {
        self.prints.clear();
        assert(self@.prints =~= Seq::<(u8, Seq<char>)>::empty());
        assert(self@ =~= (ClientView { prints: Seq::empty(), ..old(self)@ }));
    }

    /// Records the command sent with sequence `sequence`.
    pub fn store_outgoing_cmd(&mut self, sequence: u32, cmd: UserCmd)
        requires
            old(self).wf(),
        ensures
            final(self).wf(),
            final(self)@ == (ClientView {
                frames: old(self)@.frames.update(slot_of(sequence), FrameView { cmd: cmd, ..old(self)@.frames[slot_of(sequence)] }),
                ..old(self)@
            }),
    {
        let index = slot(sequence);
        let ghost before = self.frames@;
        self.frames[index].cmd = cmd;
        proof {
            assert(before[index as int].wf());
            lemma_frames_wf(before, self.frames@, index as int);
        }
        assert(self@.frames =~= old(self)@.frames.update(slot_of(sequence), FrameView { cmd: cmd, ..old(self)@.frames[slot_of(sequence)] }));
    }

    /// The command sent with sequence `sequence`.
    pub fn outgoing_cmd(&self, sequence: u32) -> (r: UserCmd)
        requires
            self.wf(),
        ensures
            r == self@.frames[slot_of(sequence)].cmd,
    {
        let index = slot(sequence);
        self.frames[index].cmd
    }

    /// Records which sequence the packet sent as `sequence` asked a delta from.
    pub fn set_outgoing_delta_sequence(&mut self, sequence: u32, delta_sequence: i32)
        requires
            old(self).wf(),
        ensures
            final(self).wf(),
            final(self)@ == (ClientView {
                frames: old(self)@.frames.update(
                    slot_of(sequence),
                    FrameView { delta_sequence: delta_sequence, ..old(self)@.frames[slot_of(sequence)] },
                ),
                ..old(self)@
            }),
    {
        let index = slot(sequence);
        let ghost before = self.frames@;
        self.frames[index].delta_sequence = delta_sequence;
        proof {
            assert(before[index as int].wf());
            lemma_frames_wf(before, self.frames@, index as int);
        }
        assert(self@.frames =~= old(self)@.frames.update(
            slot_of(sequence),
            FrameView { delta_sequence: delta_sequence, ..old(self)@.frames[slot_of(sequence)] },
        ));
    }

    /// Marks as choked the `count` frames before the acknowledged one.
    pub fn mark_choked(&mut self, count: u8, acknowledged: u32)
        requires
            old(self).wf(),
        ensures
            final(self).wf(),
            final(self)@ == (ClientView { frames: choked_frames(old(self)@.frames, acknowledged, count as int), ..old(self)@ }),
    {
        let mut offset: u8 = 0;
        assert(choked_frames(old(self)@.frames, acknowledged, 0) =~= old(self)@.frames);
        while offset < count
            invariant
                self.wf(),
                offset <= count,
                self@ == (ClientView { frames: choked_frames(old(self)@.frames, acknowledged, offset as int), ..old(self)@ }),
            decreases count - offset,
        {
            let index = slot(acknowledged.wrapping_sub(1 + offset as u32));
            let ghost before = self@.frames;
            let ghost before_frames = self.frames@;
            self.frames[index].receivedtime = TIME_CHOKED;
            offset = offset + 1;
            proof {
                assert(before_frames[index as int].wf());
                lemma_frames_wf(before_frames, self.frames@, index as int);
                assert(self@.frames =~= before.update(index as int, FrameView { receivedtime: TIME_CHOKED, ..before[index as int] }));
                assert(self@.frames =~= choked_frames(old(self)@.frames, acknowledged, offset as int)) by {
                    assert forall|j: int| 0 <= j < self@.frames.len() implies #[trigger] self@.frames[j] == choked_frames(old(self)@.frames, acknowledged, offset as int)[j] by {
                        if is_choked(acknowledged, (offset - 1) as int, j) {
                            let o = choose|o: int| 0 <= o < offset - 1 && chokes(acknowledged, o, j);
                            assert(0 <= o < offset && chokes(acknowledged, o, j));
                        }
                        if j == index as int {
                            assert(chokes(acknowledged, (offset - 1) as int, j));
                        } else if is_choked(acknowledged, offset as int, j) {
                            let o = choose|o: int| 0 <= o < offset && chokes(acknowledged, o, j);
                            assert(o != offset - 1);
                            assert(0 <= o < offset - 1 && chokes(acknowledged, o, j));
                        }
                    }
                }
            }
        }
    }
}

} // verus!

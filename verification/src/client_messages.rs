//! Lists of names that the server sends in chunks: model and sound lists.
use vstd::prelude::*;
use vstd::string::StringSliceAdditionalSpecFns;
use crate::msg::{
    MsgReadError, MsgReader, SizeBuf, SizeBufError, SizeBufView, spec_write, write_all, zero_from, lemma_zero_from_bounds,
    concat_parts, lemma_write_all_fits, lemma_encode_no_zero, lemma_zero_at, lemma_lossy_text_of_encoding,
};
use crate::text::lossy_text;
use crate::bytes::u32_at;
use crate::protocol::PROTOCOL_VERSION;
use crate::svc::{read_as, rd_i32, rd_string, rd_u8};

verus! {

#[derive(Debug, Clone, PartialEq, Eq)]
pub struct StringListChunk {
    pub start: u8,
    pub items: Vec<String>,
    pub next: u8,
}

/// The movement variables, each as the bits of a 32-bit float.
#[derive(Debug, Clone, Copy, PartialEq, Eq, Structural)]
pub struct MoveVars {
    pub gravity: u32,
    pub stopspeed: u32,
    pub maxspeed: u32,
    pub spectatormaxspeed: u32,
    pub accelerate: u32,
    pub airaccelerate: u32,
    pub wateraccelerate: u32,
    pub friction: u32,
    pub waterfriction: u32,
    pub entgravity: u32,
}

#[derive(Debug, Clone, PartialEq, Eq)]
pub struct ServerData {
    pub protocol: i32,
    pub server_count: i32,
    pub game_dir: String,
    pub player_num: u8,
    pub spectator: bool,
    pub level_name: String,
    pub movevars: MoveVars,
}

#[derive(Debug, Clone, Copy, PartialEq, Eq)]
pub enum ServerDataError {
    Read(MsgReadError),
    UnsupportedProtocol(i32),
}

pub open spec fn string_views(v: Seq<String>) -> Seq<Seq<char>> {
    Seq::new(v.len(), |i: int| v[i]@)
}

/// The strings that follow position `pos` of `d`, up to the first empty
/// one, and the position after that empty one; `None` when the data ends
/// first.
pub open spec fn string_list_from(d: Seq<u8>, pos: int) -> Option<(Seq<Seq<char>>, int)>
    decreases d.len() - pos,
{
    if pos < 0 || pos >= d.len() {
        None
    } else {
        let z = zero_from(d, pos);
        if z >= d.len() || z < pos {
            None
        } else {
            let item = lossy_text(d.subrange(pos, z));
            if item.len() == 0 {
                Some((Seq::empty(), z + 1))
            } else {
                match string_list_from(d, z + 1) {
                    Some((rest, end)) => Some((seq![item] + rest, end)),
                    None => None,
                }
            }
        }
    }
}

/// The chunk at position `pos` of `d`: the start index, the strings, and
/// the next index; with the position after it.
pub open spec fn spec_string_list_chunk(d: Seq<u8>, pos: int) -> Option<(u8, Seq<Seq<char>>, u8, int)> {
    if pos < 0 || pos >= d.len() {
        None
    } else {
        match string_list_from(d, pos + 1) {
            Some((items, end)) => if end < d.len() {
                Some((d[pos], items, d[end], end + 1))
            } else {
                None
            },
            None => None,
        }
    }
}

/// Reads a chunk: the start index, strings up to an empty one, and the
/// next index. A message that ends first is an error, with the reader at
/// its end.
pub fn parse_string_list_chunk(reader: &mut MsgReader) -> (r: Result<StringListChunk, MsgReadError>)
    requires
        old(reader).wf(),
    ensures
        final(reader).wf(),
        final(reader).data() == old(reader).data(),
        match spec_string_list_chunk(old(reader).data(), old(reader).cursor()) {
            Some((start, items, next, end)) => {
                &&& r matches Ok(c) && c.start == start && string_views(c.items@) == items && c.next == next
                &&& final(reader).cursor() == end
                &&& final(reader).spec_bad_read() == old(reader).spec_bad_read()
            },
            None => r == Err::<StringListChunk, MsgReadError>(MsgReadError::Eof) && final(reader).failed(old(reader)),
        },
{
    let ghost d = reader.data();
    let ghost c0 = reader.cursor();
    let start = match reader.read_u8() {
        Ok(b) => b,
        Err(e) => {
            return Err(e);
        },
    };
    let mut items: Vec<String> = Vec::new();
    loop
        invariant_except_break
            reader.wf(),
            reader.data() == d,
            d == old(reader).data(),
            c0 == old(reader).cursor(),
            0 <= c0 < d.len(),
            reader.spec_bad_read() == old(reader).spec_bad_read(),
            string_list_from(d, c0 + 1) == match string_list_from(d, reader.cursor()) {
                Some((rest, end)) => Some((string_views(items@) + rest, end)),
                None => None::<(Seq<Seq<char>>, int)>,
            },
        ensures
            reader.wf(),
            reader.data() == d,
            d == old(reader).data(),
            c0 == old(reader).cursor(),
            0 <= c0 < d.len(),
            reader.spec_bad_read() == old(reader).spec_bad_read(),
            string_list_from(d, c0 + 1) == Some((string_views(items@), reader.cursor())),
        decreases d.len() - reader.cursor(),
    {
        let ghost pos = reader.cursor();
        proof {
            if pos < d.len() {
                lemma_zero_from_bounds(d, pos);
            }
        }
        let item = match reader.read_string() {
            Ok(s) => s,
            Err(e) => {
                proof {
                    if pos < d.len() {
                        assert(string_list_from(d, pos) is None);
                    }
                }
                return Err(e);
            },
        };
        if item.as_str().is_empty() {
            break;
        }
        let ghost prev = items@;
        items.push(item);
        proof {
            assert(string_views(items@) =~= string_views(prev) + seq![item@]);
            match string_list_from(d, reader.cursor()) {
                Some((rest, end)) => {
                    assert(string_views(prev) + (seq![item@] + rest) =~= string_views(items@) + rest);
                },
                None => {},
            }
        }
    }
    let next = match reader.read_u8() {
        Ok(b) => b,
        Err(e) => {
            return Err(e);
        },
    };
    Ok(StringListChunk { start, items, next })
}

/// The writes that make a chunk: the start index, each string and its
/// terminating zero, an empty string's zero, the next index.
pub open spec fn item_parts(items: Seq<Seq<char>>) -> Seq<Seq<u8>>
    decreases items.len(),
{
    if items.len() == 0 {
        Seq::empty()
    } else {
        seq![vstd::utf8::encode_utf8(items[0]), seq![0u8]] + item_parts(items.drop_first())
    }
}

pub open spec fn chunk_parts(start: u8, items: Seq<Seq<char>>, next: u8) -> Seq<Seq<u8>> {
    seq![seq![start]] + item_parts(items) + seq![Seq::<u8>::empty(), seq![0u8], seq![next]]
}

/// `write_all` over two lists of writes in turn.
pub proof fn lemma_write_all_concat(b: SizeBufView, p: Seq<Seq<u8>>, q: Seq<Seq<u8>>)
    ensures
        write_all(b, p + q) == if write_all(b, p).1 is Err { write_all(b, p) } else { write_all(write_all(b, p).0, q) },
    decreases p.len(),
{
    if p.len() == 0 {
        assert(p + q =~= q);
    } else {
        assert((p + q).drop_first() =~= p.drop_first() + q);
        lemma_write_all_concat(spec_write(b, p[0]).0, p.drop_first(), q);
    }
}

/// Writes a chunk, each write as `spec_write` says, stopping at the first
/// refused.
pub fn write_string_list_chunk(buf: &mut SizeBuf, chunk: &StringListChunk) -> (r: Result<(), SizeBufError>)
    requires
        old(buf).wf(),
    ensures
        final(buf).wf(),
        (final(buf)@, r) == write_all(old(buf)@, chunk_parts(chunk.start, string_views(chunk.items@), chunk.next)),
{
    let ghost all = string_views(chunk.items@);
    let ghost b0 = buf@;
    proof {
        reveal_with_fuel(write_all, 2);
    }
    match buf.write_u8(chunk.start) {
        Ok(()) => {},
        Err(e) => {
            proof {
                lemma_write_all_concat(b0, seq![seq![chunk.start]], item_parts(all) + seq![Seq::<u8>::empty(), seq![0u8], seq![chunk.next]]);
                assert(chunk_parts(chunk.start, all, chunk.next) =~= seq![seq![chunk.start]] + (item_parts(all) + seq![Seq::<u8>::empty(), seq![0u8], seq![chunk.next]]));
            }
            return Err(e);
        },
    }
    let ghost tail_parts = seq![Seq::<u8>::empty(), seq![0u8], seq![chunk.next]];
    proof {
        lemma_write_all_concat(b0, seq![seq![chunk.start]], item_parts(all) + tail_parts);
        assert(chunk_parts(chunk.start, all, chunk.next) =~= seq![seq![chunk.start]] + (item_parts(all) + tail_parts));
        assert(all.skip(0) =~= all);
    }
    let mut i: usize = 0;
    while i < chunk.items.len()
        invariant
            buf.wf(),
            i <= chunk.items@.len(),
            all == string_views(chunk.items@),
            b0 == old(buf)@,
            tail_parts == seq![Seq::<u8>::empty(), seq![0u8], seq![chunk.next]],
            write_all(b0, chunk_parts(chunk.start, all, chunk.next)) == write_all(buf@, item_parts(all.skip(i as int)) + tail_parts),
        decreases chunk.items@.len() - i,
    {
        let ghost rest = all.skip(i as int);
        proof {
            reveal_with_fuel(write_all, 3);
            assert(rest.drop_first() =~= all.skip(i + 1));
            assert(rest[0] == chunk.items@[i as int]@);
            let p = seq![vstd::utf8::encode_utf8(rest[0]), seq![0u8]];
            assert(item_parts(rest) == p + item_parts(rest.drop_first()));
            assert(item_parts(rest) + tail_parts =~= p + (item_parts(rest.drop_first()) + tail_parts));
            lemma_write_all_concat(buf@, p, item_parts(rest.drop_first()) + tail_parts);
            assert(p.drop_first().drop_first() =~= Seq::<Seq<u8>>::empty());
            assert(write_all(buf@, p) == ({
                let w1 = spec_write(buf@, p[0]);
                if w1.1 is Err {
                    w1
                } else {
                    let w2 = spec_write(w1.0, seq![0u8]);
                    if w2.1 is Err { w2 } else { (w2.0, Ok::<(), SizeBufError>(())) }
                }
            }));
        }
        let ghost before = buf@;
        let text = chunk.items[i].as_str();
        assert(text.spec_bytes() == vstd::utf8::encode_utf8(rest[0]));
        match buf.write_string(Some(text)) {
            Ok(()) => {},
            Err(e) => {
                assert(write_all(before, seq![vstd::utf8::encode_utf8(rest[0]), seq![0u8]]) == (buf@, Err::<(), SizeBufError>(e)));
                assert(write_all(before, item_parts(rest) + tail_parts) == (buf@, Err::<(), SizeBufError>(e)));
                return Err(e);
            },
        }
        i = i + 1;
    }
    proof {
        reveal_with_fuel(write_all, 4);
        assert(all.skip(i as int) =~= Seq::<Seq<char>>::empty());
        assert(item_parts(all.skip(i as int)) + tail_parts =~= tail_parts);
        assert(tail_parts.drop_first().drop_first().drop_first() =~= Seq::<Seq<u8>>::empty());
        assert(write_all(buf@, tail_parts) == ({
            let w1 = spec_write(buf@, Seq::<u8>::empty());
            if w1.1 is Err {
                w1
            } else {
                let w2 = spec_write(w1.0, seq![0u8]);
                if w2.1 is Err { w2 } else { let w3 = spec_write(w2.0, seq![chunk.next]); if w3.1 is Err { w3 } else { (w3.0, Ok::<(), SizeBufError>(())) } }
            }
        }));
    }
    assert(""@ =~= Seq::<char>::empty()) by {
        reveal_strlit("");
    }
    assert(vstd::utf8::encode_utf8(Seq::<char>::empty()) =~= Seq::<u8>::empty());
    match buf.write_string(Some("")) {
        Ok(()) => {},
        Err(e) => {
            return Err(e);
        },
    }
    buf.write_u8(chunk.next)
}

/// The parts one after the other, for two lists of parts in turn.
pub proof fn lemma_concat_parts_append(p: Seq<Seq<u8>>, q: Seq<Seq<u8>>)
    ensures
        concat_parts(p + q) == concat_parts(p) + concat_parts(q),
    decreases p.len(),
{
    if p.len() == 0 {
        assert(p + q =~= q);
        assert(concat_parts(p) + concat_parts(q) =~= concat_parts(q));
    } else {
        assert((p + q).drop_first() =~= p.drop_first() + q);
        lemma_concat_parts_append(p.drop_first(), q);
        assert(p[0] + (concat_parts(p.drop_first()) + concat_parts(q)) =~= (p[0] + concat_parts(p.drop_first())) + concat_parts(q));
    }
}

/// Whether every name can go into a list: not empty and without NUL.
pub open spec fn listable(items: Seq<Seq<char>>) -> bool {
    forall|i: int| 0 <= i < items.len() ==> (#[trigger] items[i]).len() > 0 && !items[i].contains('\0')
}

/// The list of strings at the start of `d` from `pos` is read back, up to
/// and past the empty string's zero.
proof fn lemma_list_reads_back(d: Seq<u8>, pos: int, items: Seq<Seq<char>>)
    requires
        listable(items),
        0 <= pos,
        pos + concat_parts(item_parts(items)).len() < d.len(),
        d.subrange(pos, pos + concat_parts(item_parts(items)).len() + 1) == concat_parts(item_parts(items)) + seq![0u8],
    ensures
        string_list_from(d, pos) == Some((items, pos + concat_parts(item_parts(items)).len() + 1)),
    decreases items.len(),
{
    let bytes = concat_parts(item_parts(items));
    if items.len() == 0 {
        assert(item_parts(items) =~= Seq::<Seq<u8>>::empty());
        assert(bytes =~= Seq::<u8>::empty());
        assert(d[pos] == d.subrange(pos, pos + 1)[0]);
        lemma_zero_at(d, pos, pos);
        assert(d.subrange(pos, pos) =~= vstd::utf8::encode_utf8(Seq::<char>::empty()));
        lemma_lossy_text_of_encoding(Seq::<char>::empty());
    } else {
        let x = items[0];
        let xs = items.drop_first();
        let enc = vstd::utf8::encode_utf8(x);
        assert(listable(xs)) by {
            assert forall|i: int| 0 <= i < xs.len() implies (#[trigger] xs[i]).len() > 0 && !xs[i].contains('\0') by {
                assert(xs[i] == items[i + 1]);
            }
        }
        assert(x.len() > 0 && !x.contains('\0'));
        let ps = item_parts(items);
        assert(ps == seq![enc, seq![0u8]] + item_parts(xs));
        lemma_concat_parts_append(seq![enc, seq![0u8]], item_parts(xs));
        reveal_with_fuel(concat_parts, 3);
        assert(seq![enc, seq![0u8]].drop_first().drop_first() =~= Seq::<Seq<u8>>::empty());
        assert(concat_parts(seq![enc, seq![0u8]]) =~= enc + seq![0u8]);
        let tail = concat_parts(item_parts(xs));
        assert(bytes =~= enc + seq![0u8] + tail);
        let e = pos + enc.len();
        lemma_encode_no_zero(x);
        assert forall|j: int| pos <= j < e implies d[j] != 0 by {
            assert(d[j] == d.subrange(pos, pos + bytes.len() + 1)[j - pos]);
            assert(d.subrange(pos, pos + bytes.len() + 1)[j - pos] == enc[j - pos]);
        }
        assert(d[e] == d.subrange(pos, pos + bytes.len() + 1)[e - pos]);
        lemma_zero_at(d, pos, e);
        assert(d.subrange(pos, e) =~= enc) by {
            assert forall|j: int| 0 <= j < enc.len() implies d.subrange(pos, e)[j] == enc[j] by {
                assert(d.subrange(pos, e)[j] == d.subrange(pos, pos + bytes.len() + 1)[j]);
            }
        }
        lemma_lossy_text_of_encoding(x);
        assert(d.subrange(e + 1, e + 1 + tail.len() + 1) =~= tail + seq![0u8]) by {
            assert forall|j: int| 0 <= j < tail.len() + 1 implies d.subrange(e + 1, e + 1 + tail.len() + 1)[j] == (tail + seq![0u8])[j] by {
                assert(d.subrange(e + 1, e + 1 + tail.len() + 1)[j] == d.subrange(pos, pos + bytes.len() + 1)[enc.len() + 1 + j]);
            }
        }
        lemma_list_reads_back(d, e + 1, xs);
        assert(seq![x] + xs =~= items);
    }
}

/// A chunk written to a buffer with room for it is appended whole, and
/// reading from where it starts gives the chunk back, whatever follows it,
/// when every name is non-empty and holds no NUL.
pub proof fn law_string_list_round_trip(b: SizeBufView, start: u8, items: Seq<Seq<char>>, next: u8, rest: Seq<u8>)
    requires
        listable(items),
        b.data.len() + concat_parts(chunk_parts(start, items, next)).len() <= b.maxsize,
    ensures
        ({
            let bytes = concat_parts(chunk_parts(start, items, next));
            &&& write_all(b, chunk_parts(start, items, next)) == (SizeBufView { data: b.data + bytes, ..b }, Ok::<(), SizeBufError>(()))
            &&& spec_string_list_chunk(b.data + bytes + rest, b.data.len() as int)
                == Some((start, items, next, (b.data.len() + bytes.len()) as int))
        }),
{
    let parts = chunk_parts(start, items, next);
    let bytes = concat_parts(parts);
    lemma_write_all_fits(b, parts);
    let list = concat_parts(item_parts(items));
    let tail = seq![Seq::<u8>::empty(), seq![0u8], seq![next]];
    lemma_concat_parts_append(seq![seq![start]] + item_parts(items), tail);
    lemma_concat_parts_append(seq![seq![start]], item_parts(items));
    reveal_with_fuel(concat_parts, 4);
    assert(seq![seq![start]].drop_first() =~= Seq::<Seq<u8>>::empty());
    assert(concat_parts(seq![seq![start]]) =~= seq![start]);
    assert(tail.drop_first().drop_first().drop_first() =~= Seq::<Seq<u8>>::empty());
    assert(concat_parts(tail) =~= seq![0u8, next]);
    assert(bytes =~= seq![start] + list + seq![0u8, next]);
    let d = b.data + bytes + rest;
    let pos = b.data.len() as int;
    assert(d[pos] == start);
    assert(d.subrange(pos + 1, pos + 1 + list.len() + 1) =~= list + seq![0u8]) by {
        assert forall|j: int| 0 <= j < list.len() + 1 implies d.subrange(pos + 1, pos + 1 + list.len() + 1)[j] == (list + seq![0u8])[j] by {
            assert(d[pos + 1 + j] == bytes[1 + j]);
        }
    }
    lemma_list_reads_back(d, pos + 1, items);
    assert(d[pos + 1 + list.len() + 1] == next);
}

/// What a server data message holds, its texts as characters.
pub struct ServerDataView {
    pub protocol: i32,
    pub server_count: i32,
    pub game_dir: Seq<char>,
    pub player_num: u8,
    pub spectator: bool,
    pub level_name: Seq<char>,
    pub movevars: MoveVars,
}

impl ServerData {
    /// A copy of the server data.
    pub fn clone_data(&self) -> (r: ServerData)
        ensures
            server_data_view(r) == server_data_view(*self),
    {
        ServerData {
            protocol: self.protocol,
            server_count: self.server_count,
            game_dir: self.game_dir.clone(),
            player_num: self.player_num,
            spectator: self.spectator,
            level_name: self.level_name.clone(),
            movevars: self.movevars,
        }
    }
}

pub open spec fn server_data_view(s: ServerData) -> ServerDataView {
    ServerDataView {
        protocol: s.protocol,
        server_count: s.server_count,
        game_dir: s.game_dir@,
        player_num: s.player_num,
        spectator: s.spectator,
        level_name: s.level_name@,
        movevars: s.movevars,
    }
}

/// The ten movement variables, four bytes each.
pub open spec fn rd_movevars(d: Seq<u8>, p: int) -> Option<(MoveVars, int)> {
    if 0 <= p && p + 40 <= d.len() {
        Some((MoveVars {
            gravity: u32_at(d, p),
            stopspeed: u32_at(d, p + 4),
            maxspeed: u32_at(d, p + 8),
            spectatormaxspeed: u32_at(d, p + 12),
            accelerate: u32_at(d, p + 16),
            airaccelerate: u32_at(d, p + 20),
            wateraccelerate: u32_at(d, p + 24),
            friction: u32_at(d, p + 28),
            waterfriction: u32_at(d, p + 32),
            entgravity: u32_at(d, p + 36),
        }, p + 40))
    } else {
        None
    }
}

/// A server data message: the protocol version, which must be ours, the
/// server count, the game directory, the player number with the
/// spectator bit on top, the level name and the movement variables.
pub open spec fn rd_serverdata(d: Seq<u8>, p: int) -> Result<(ServerDataView, int), ServerDataError> {
    match rd_i32(d, p) {
        None => Err(ServerDataError::Read(MsgReadError::Eof)),
        Some((protocol, p1)) => if protocol != PROTOCOL_VERSION {
            Err(ServerDataError::UnsupportedProtocol(protocol))
        } else {
            match rd_i32(d, p1) {
                None => Err(ServerDataError::Read(MsgReadError::Eof)),
                Some((count, p2)) => match rd_string(d, p2) {
                    None => Err(ServerDataError::Read(MsgReadError::Eof)),
                    Some((game_dir, p3)) => match rd_u8(d, p3) {
                        None => Err(ServerDataError::Read(MsgReadError::Eof)),
                        Some((player, p4)) => match rd_string(d, p4) {
                            None => Err(ServerDataError::Read(MsgReadError::Eof)),
                            Some((level, p5)) => match rd_movevars(d, p5) {
                                None => Err(ServerDataError::Read(MsgReadError::Eof)),
                                Some((mv, end)) => Ok((ServerDataView {
                                    protocol,
                                    server_count: count,
                                    game_dir,
                                    player_num: if player & 0x80 != 0 { player & 0x7f } else { player },
                                    spectator: player & 0x80 != 0,
                                    level_name: level,
                                    movevars: mv,
                                }, end)),
                            },
                        },
                    },
                },
            }
        },
    }
}

fn read_movevars(reader: &mut MsgReader) -> (r: Result<MoveVars, MsgReadError>)
    requires
        old(reader).wf(),
    ensures
        read_as(r, final(reader), old(reader), rd_movevars(old(reader).data(), old(reader).cursor())),
{
    let gravity = match reader.read_u32() { Ok(v) => v, Err(e) => { return Err(e); } };
    let stopspeed = match reader.read_u32() { Ok(v) => v, Err(e) => { return Err(e); } };
    let maxspeed = match reader.read_u32() { Ok(v) => v, Err(e) => { return Err(e); } };
    let spectatormaxspeed = match reader.read_u32() { Ok(v) => v, Err(e) => { return Err(e); } };
    let accelerate = match reader.read_u32() { Ok(v) => v, Err(e) => { return Err(e); } };
    let airaccelerate = match reader.read_u32() { Ok(v) => v, Err(e) => { return Err(e); } };
    let wateraccelerate = match reader.read_u32() { Ok(v) => v, Err(e) => { return Err(e); } };
    let friction = match reader.read_u32() { Ok(v) => v, Err(e) => { return Err(e); } };
    let waterfriction = match reader.read_u32() { Ok(v) => v, Err(e) => { return Err(e); } };
    let entgravity = match reader.read_u32() { Ok(v) => v, Err(e) => { return Err(e); } };
    Ok(MoveVars {
        gravity,
        stopspeed,
        maxspeed,
        spectatormaxspeed,
        accelerate,
        airaccelerate,
        wateraccelerate,
        friction,
        waterfriction,
        entgravity,
    })
}

/// Reads a server data message.
pub fn parse_serverdata(reader: &mut MsgReader) -> (r: Result<ServerData, ServerDataError>)
    requires
        old(reader).wf(),
    ensures
        final(reader).wf(),
        final(reader).data() == old(reader).data(),
        match rd_serverdata(old(reader).data(), old(reader).cursor()) {
            Ok((v, end)) => r matches Ok(s) && server_data_view(s) == v && final(reader).cursor() == end
                && final(reader).spec_bad_read() == old(reader).spec_bad_read(),
            Err(e) => r == Err::<ServerData, ServerDataError>(e),
        },
{
    let protocol = match reader.read_i32() { Ok(v) => v, Err(e) => { return Err(ServerDataError::Read(e)); } };
    if protocol != PROTOCOL_VERSION {
        return Err(ServerDataError::UnsupportedProtocol(protocol));
    }
    let server_count = match reader.read_i32() { Ok(v) => v, Err(e) => { return Err(ServerDataError::Read(e)); } };
    let game_dir = match reader.read_string() { Ok(v) => v, Err(e) => { return Err(ServerDataError::Read(e)); } };
    let mut player_num = match reader.read_u8() { Ok(v) => v, Err(e) => { return Err(ServerDataError::Read(e)); } };
    let spectator = (player_num & 0x80) != 0;
    if spectator {
        player_num = player_num & 0x7f;
    }
    let level_name = match reader.read_string() { Ok(v) => v, Err(e) => { return Err(ServerDataError::Read(e)); } };
    let movevars = match read_movevars(reader) { Ok(v) => v, Err(e) => { return Err(ServerDataError::Read(e)); } };
    Ok(ServerData { protocol, server_count, game_dir, player_num, spectator, level_name, movevars })
}

/// Writes a server data message: each write as `spec_write` says,
/// stopping at the first refused.
pub fn write_serverdata(buf: &mut SizeBuf, data: &ServerData) -> (r: Result<(), SizeBufError>)
    requires
        old(buf).wf(),
    ensures
        final(buf).wf(),
        (final(buf)@, r) == write_all(old(buf)@, crate::svc::serverdata_parts(server_data_view(*data))),
{
    let parts = crate::svc::serverdata_parts_exec(data);
    crate::msg::write_parts(buf, &parts)
}

} // verus!

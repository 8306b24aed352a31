//! The QuakeWorld network channel: packet headers with sequence numbers,
//! and a reliable message that is resent until it is acknowledged.
use vstd::prelude::*;
use crate::bytes::{le_u16, le_u32, u16_at, u32_at, lemma_u16_round_trip, lemma_u32_round_trip};
use crate::msg::{
    MsgReadError, MsgReader, SizeBuf, SizeBufError, SizeBufView, spec_write, write_all, concat_parts,
    lemma_write_all_fits,
};
use crate::protocol::MAX_MSGLEN;

verus! {

pub const RELIABLE_FLAG: u32 = 0x8000_0000;

#[derive(Debug, Clone, Copy, PartialEq, Eq)]
pub struct NetchanHeader {
    pub sequence: u32,
    pub reliable: bool,
    pub ack: u32,
    pub ack_reliable: bool,
    pub qport: Option<u16>,
}

#[derive(Debug, Clone, Copy, PartialEq, Eq)]
pub enum NetchanError {
    BufferOverflow,
    OutOfOrder,
    Read(MsgReadError),
    Write(SizeBufError),
}

/// A sequence number with its flag in the top bit.
pub open spec fn flagged(value: u32, flag: bool) -> u32 {
    (value & 0x7fff_ffff) | (if flag { 0x8000_0000u32 } else { 0u32 })
}

/// The pieces that a header is written as.
pub open spec fn header_parts(h: NetchanHeader) -> Seq<Seq<u8>> {
    seq![le_u32(flagged(h.sequence, h.reliable)), le_u32(flagged(h.ack, h.ack_reliable))]
        + match h.qport {
            Some(q) => seq![le_u16(q)],
            None => Seq::<Seq<u8>>::empty(),
        }
}

pub open spec fn header_bytes(h: NetchanHeader) -> Seq<u8> {
    concat_parts(header_parts(h))
}

pub open spec fn header_len(qport: bool) -> int {
    if qport { 10 } else { 8 }
}

/// The header that the first bytes of `d` hold.
pub open spec fn decode_header(d: Seq<u8>, qport: bool) -> NetchanHeader {
    let raw_seq = u32_at(d, 0);
    let raw_ack = u32_at(d, 4);
    NetchanHeader {
        sequence: raw_seq & 0x7fff_ffff,
        reliable: raw_seq & 0x8000_0000 != 0,
        ack: raw_ack & 0x7fff_ffff,
        ack_reliable: raw_ack & 0x8000_0000 != 0,
        qport: if qport { Some(u16_at(d, 8)) } else { None },
    }
}

proof fn lemma_header_len(h: NetchanHeader)
    ensures
        header_bytes(h).len() == header_len(h.qport is Some),
        header_bytes(h) == le_u32(flagged(h.sequence, h.reliable)) + le_u32(flagged(h.ack, h.ack_reliable))
            + match h.qport {
                Some(q) => le_u16(q),
                None => Seq::<u8>::empty(),
            },
{
    let p = header_parts(h);
    reveal_with_fuel(concat_parts, 4);
    assert(p.drop_first().drop_first() =~= match h.qport {
        Some(q) => seq![le_u16(q)],
        None => Seq::<Seq<u8>>::empty(),
    });
    match h.qport {
        Some(q) => {
            assert(p.drop_first().drop_first().drop_first() =~= Seq::<Seq<u8>>::empty());
        },
        None => {},
    }
    assert(header_bytes(h) =~= le_u32(flagged(h.sequence, h.reliable)) + le_u32(flagged(h.ack, h.ack_reliable))
        + match h.qport {
            Some(q) => le_u16(q),
            None => Seq::<u8>::empty(),
        });
}

/// A header whose sequence numbers fit in 31 bits reads back as itself,
/// whatever follows it.
pub proof fn law_header_round_trip(h: NetchanHeader, rest: Seq<u8>)
    requires
        h.sequence < 0x8000_0000,
        h.ack < 0x8000_0000,
    ensures
        decode_header(header_bytes(h) + rest, h.qport is Some) == h,
        (header_bytes(h) + rest).len() == header_len(h.qport is Some) + rest.len(),
        (header_bytes(h) + rest).skip(header_len(h.qport is Some)) == rest,
{
    lemma_header_len(h);
    let d = header_bytes(h) + rest;
    let sw = flagged(h.sequence, h.reliable);
    let aw = flagged(h.ack, h.ack_reliable);
    lemma_u32_round_trip(sw);
    lemma_u32_round_trip(aw);
    assert(u32_at(d, 0) == sw);
    assert(u32_at(d, 4) == aw);
    let s = h.sequence;
    let a = h.ack;
    assert(((s & 0x7fff_ffff) | 0x8000_0000u32) & 0x7fff_ffff == s && ((s & 0x7fff_ffff) | 0x8000_0000u32) & 0x8000_0000 != 0
        && ((s & 0x7fff_ffff) | 0u32) & 0x7fff_ffff == s && ((s & 0x7fff_ffff) | 0u32) & 0x8000_0000 == 0) by (bit_vector)
        requires
            s < 0x8000_0000,
    ;
    assert(((a & 0x7fff_ffff) | 0x8000_0000u32) & 0x7fff_ffff == a && ((a & 0x7fff_ffff) | 0x8000_0000u32) & 0x8000_0000 != 0
        && ((a & 0x7fff_ffff) | 0u32) & 0x7fff_ffff == a && ((a & 0x7fff_ffff) | 0u32) & 0x8000_0000 == 0) by (bit_vector)
        requires
            a < 0x8000_0000,
    ;
    match h.qport {
        Some(q) => {
            lemma_u16_round_trip(q);
            assert(u16_at(d, 8) == q);
        },
        None => {},
    }
    assert(d.skip(header_len(h.qport is Some)) =~= rest);
}

impl NetchanHeader {
    /// Writes the header: sequence, acknowledgement and, when present, the
    /// qport, each write as `spec_write` says.
    pub fn write(&self, buf: &mut SizeBuf) -> (r: Result<(), SizeBufError>)
        requires
            old(buf).wf(),
        ensures
            final(buf).wf(),
            (final(buf)@, r) == write_all(old(buf)@, header_parts(*self)),
    {
        let seq = (self.sequence & 0x7fff_ffff) | if self.reliable { RELIABLE_FLAG } else { 0 };
        let ack = (self.ack & 0x7fff_ffff) | if self.ack_reliable { RELIABLE_FLAG } else { 0 };
        let ghost parts = header_parts(*self);
        proof {
            reveal_with_fuel(write_all, 4);
            assert(parts[0] == le_u32(seq));
            assert(parts.drop_first()[0] == le_u32(ack));
            match self.qport {
                Some(q) => {
                    assert(parts.drop_first().drop_first()[0] == le_u16(q));
                    assert(parts.drop_first().drop_first().drop_first() =~= Seq::<Seq<u8>>::empty());
                },
                None => {
                    assert(parts.drop_first().drop_first() =~= Seq::<Seq<u8>>::empty());
                },
            }
        }
        match buf.write_u32(seq) {
            Ok(()) => {},
            Err(e) => {
                return Err(e);
            },
        }
        match buf.write_u32(ack) {
            Ok(()) => {},
            Err(e) => {
                return Err(e);
            },
        }
        match self.qport {
            Some(q) => buf.write_u16(q),
            None => Ok(()),
        }
    }

    /// Reads a header: sequence, acknowledgement and, when expected, the
    /// qport. A message too short for a part stops there with the reader
    /// marked bad.
    pub fn read(reader: &mut MsgReader, expects_qport: bool) -> (r: Result<Self, MsgReadError>)
        requires
            old(reader).wf(),
        ensures
            final(reader).wf(),
            final(reader).data() == old(reader).data(),
            old(reader).has(header_len(expects_qport)) ==> {
                &&& r == Ok::<Self, MsgReadError>(decode_header(old(reader).data().skip(old(reader).cursor()), expects_qport))
                &&& final(reader).advanced(old(reader), header_len(expects_qport))
            },
            !old(reader).has(header_len(expects_qport)) ==> {
                &&& r == Err::<Self, MsgReadError>(MsgReadError::Eof)
                &&& final(reader).spec_bad_read()
                &&& final(reader).cursor() == old(reader).cursor() + (if !old(reader).has(4) { 0int } else if !old(reader).has(8) { 4int } else { 8int })
            },
    {
        let ghost c = reader.cursor();
        let ghost d = reader.data();
        let raw_seq = reader.read_u32()?;
        assert(reader.cursor() == c + 4 && reader.data() == d);
        let raw_ack = reader.read_u32()?;
        assert(reader.cursor() == c + 8 && reader.data() == d && c + 8 <= d.len());
        let reliable = (raw_seq & RELIABLE_FLAG) != 0;
        let ack_reliable = (raw_ack & RELIABLE_FLAG) != 0;
        let sequence = raw_seq & 0x7fff_ffff;
        let ack = raw_ack & 0x7fff_ffff;
        let qport = if expects_qport {
            Some(reader.read_u16()?)
        } else {
            None
        };
        let h = NetchanHeader { sequence, reliable, ack, ack_reliable, qport };
        proof {
            let t = d.skip(c);
            assert(t[0] == d[c] && t[1] == d[c + 1] && t[2] == d[c + 2] && t[3] == d[c + 3]);
            assert(t[4] == d[c + 4] && t[5] == d[c + 5] && t[6] == d[c + 6] && t[7] == d[c + 7]);
            assert(u32_at(t, 0) == u32_at(d, c));
            assert(u32_at(t, 4) == u32_at(d, c + 4));
            if expects_qport {
                assert(t[8] == d[c + 8] && t[9] == d[c + 9]);
                assert(u16_at(t, 8) == u16_at(d, c + 8));
            }
        }
        Ok(h)
    }
}

/// What a channel holds.
pub struct NetchanView {
    pub qport: u16,
    pub outgoing_sequence: u32,
    pub incoming_sequence: u32,
    pub incoming_reliable_sequence: u32,
    pub incoming_acknowledged: u32,
    pub incoming_reliable_acknowledged: u32,
    pub reliable_sequence: u32,
    pub last_reliable_sequence: u32,
    pub reliable: Seq<u8>,
    pub message: SizeBufView,
    pub received_any: bool,
}

#[derive(Debug)]
pub struct Netchan {
    pub qport: u16,
    outgoing_sequence: u32,
    incoming_sequence: u32,
    incoming_reliable_sequence: u32,
    incoming_acknowledged: u32,
    incoming_reliable_acknowledged: u32,
    reliable_sequence: u32,
    last_reliable_sequence: u32,
    reliable_buffer: Vec<u8>,
    message: SizeBuf,
    received_any: bool,
}

impl View for Netchan {
    type V = NetchanView;

    closed spec fn view(&self) -> NetchanView {
        NetchanView {
            qport: self.qport,
            outgoing_sequence: self.outgoing_sequence,
            incoming_sequence: self.incoming_sequence,
            incoming_reliable_sequence: self.incoming_reliable_sequence,
            incoming_acknowledged: self.incoming_acknowledged,
            incoming_reliable_acknowledged: self.incoming_reliable_acknowledged,
            reliable_sequence: self.reliable_sequence,
            last_reliable_sequence: self.last_reliable_sequence,
            reliable: self.reliable_buffer@,
            message: self.message@,
            received_any: self.received_any,
        }
    }
}

/// The channel's invariant: the pending message and the reliable message
/// each fit in one datagram.
pub open spec fn netchan_ok(n: NetchanView) -> bool {
    &&& n.message.maxsize == MAX_MSGLEN
    &&& n.message.allow_overflow
    &&& n.message.data.len() <= MAX_MSGLEN
    &&& n.reliable.len() <= MAX_MSGLEN
}

/// The header of the next packet, given whether it carries the reliable
/// message.
pub open spec fn next_header(n: NetchanView, reliable: bool, include_qport: bool) -> NetchanHeader {
    NetchanHeader {
        sequence: n.outgoing_sequence,
        reliable,
        ack: n.incoming_sequence,
        ack_reliable: n.incoming_reliable_sequence != 0,
        qport: if include_qport { Some(n.qport) } else { None },
    }
}

/// The channel and the packet after building one with `unreliable` data.
///
/// The reliable message is resent when the peer has acknowledged a packet
/// after it was last sent without acknowledging its sequence bit. When no
/// reliable message is outstanding, the pending one becomes reliable and is
/// sent. The unreliable data goes last, when it fits.
pub open spec fn spec_build_packet(n: NetchanView, unreliable: Seq<u8>, include_qport: bool) -> (NetchanView, Result<Seq<u8>, NetchanError>) {
    if n.message.overflowed {
        (n, Err(NetchanError::BufferOverflow))
    } else {
        let resend = n.incoming_acknowledged > n.last_reliable_sequence
            && n.incoming_reliable_acknowledged != n.reliable_sequence;
        let takes = n.reliable.len() == 0 && n.message.data.len() > 0;
        let n1 = if takes {
            NetchanView {
                reliable: n.message.data,
                message: SizeBufView { data: Seq::empty(), overflowed: false, ..n.message },
                reliable_sequence: n.reliable_sequence ^ 1,
                ..n
            }
        } else {
            n
        };
        let send_reliable = resend || takes;
        let body = header_bytes(next_header(n, send_reliable, include_qport))
            + (if send_reliable { n1.reliable } else { Seq::empty() });
        let packet = if body.len() + unreliable.len() <= MAX_MSGLEN + header_len(include_qport) {
            body + unreliable
        } else {
            body
        };
        let out = n.outgoing_sequence.wrapping_add(1);
        (NetchanView {
            outgoing_sequence: out,
            last_reliable_sequence: if send_reliable { out } else { n.last_reliable_sequence },
            ..n1
        }, Ok(packet))
    }
}

/// The channel and the payload after receiving `packet`. A packet too
/// short for its header, or not newer than the last one received, is
/// refused and changes nothing.
pub open spec fn spec_process_packet(n: NetchanView, packet: Seq<u8>, expects_qport: bool) -> (NetchanView, Result<Seq<u8>, NetchanError>) {
    if packet.len() < header_len(expects_qport) {
        (n, Err(NetchanError::Read(MsgReadError::Eof)))
    } else {
        let h = decode_header(packet, expects_qport);
        if n.received_any && h.sequence <= n.incoming_sequence {
            (n, Err(NetchanError::OutOfOrder))
        } else {
            (NetchanView {
                received_any: true,
                incoming_sequence: h.sequence,
                incoming_reliable_sequence: if h.reliable { 1 } else { 0 },
                incoming_acknowledged: h.ack,
                incoming_reliable_acknowledged: if h.ack_reliable { 1 } else { 0 },
                ..n
            }, Ok(packet.skip(header_len(expects_qport))))
        }
    }
}

impl Netchan {
    pub open spec fn wf(&self) -> bool {
        netchan_ok(self@)
    }

    /// A channel that has sent and received nothing.
    pub open spec fn new_view(qport: u16) -> NetchanView {
        NetchanView {
            qport,
            outgoing_sequence: 0,
            incoming_sequence: 0,
            incoming_reliable_sequence: 0,
            incoming_acknowledged: 0,
            incoming_reliable_acknowledged: 0,
            reliable_sequence: 0,
            last_reliable_sequence: 0,
            reliable: Seq::empty(),
            message: SizeBufView { data: Seq::empty(), maxsize: MAX_MSGLEN as nat, allow_overflow: true, overflowed: false },
            received_any: false,
        }
    }

    pub fn new(qport: u16) -> (n: Self)
        ensures
            n.wf(),
            n@ == Netchan::new_view(qport),
    {
        Netchan {
            qport,
            outgoing_sequence: 0,
            incoming_sequence: 0,
            incoming_reliable_sequence: 0,
            incoming_acknowledged: 0,
            incoming_reliable_acknowledged: 0,
            reliable_sequence: 0,
            last_reliable_sequence: 0,
            reliable_buffer: Vec::new(),
            message: SizeBuf::new(MAX_MSGLEN).with_overflow(true),
            received_any: false,
        }
    }

    /// Adds `payload` to the pending reliable message.
    pub fn queue_reliable(&mut self, payload: &[u8]) -> (r: Result<(), NetchanError>)
        requires
            old(self).wf(),
        ensures
            final(self).wf(),
            final(self)@ == (NetchanView { message: spec_write(old(self)@.message, payload@).0, ..old(self)@ }),
            match spec_write(old(self)@.message, payload@).1 {
                Ok(_) => r is Ok,
                Err(e) => r == Err::<(), NetchanError>(NetchanError::Write(e)),
            },
    {
        match self.message.write_bytes(payload) {
            Ok(()) => Ok(()),
            Err(e) => Err(NetchanError::Write(e)),
        }
    }

    pub fn build_packet(&mut self, unreliable: &[u8], include_qport: bool) -> (r: Result<Vec<u8>, NetchanError>)
        requires
            old(self).wf(),
        ensures
            final(self).wf(),
            final(self)@ == spec_build_packet(old(self)@, unreliable@, include_qport).0,
            match spec_build_packet(old(self)@, unreliable@, include_qport).1 {
                Ok(p) => r matches Ok(v) && v@ == p,
                Err(e) => r == Err::<Vec<u8>, NetchanError>(e),
            },
    {
        if self.message.is_overflowed() {
            return Err(NetchanError::BufferOverflow);
        }
        let mut send_reliable = false;
        if self.incoming_acknowledged > self.last_reliable_sequence
            && self.incoming_reliable_acknowledged != self.reliable_sequence {
            send_reliable = true;
        }
        if self.reliable_buffer.len() == 0 && self.message.len() > 0 {
            self.reliable_buffer = vstd::slice::slice_to_vec(self.message.as_slice());
            self.message.clear();
            self.reliable_sequence = self.reliable_sequence ^ 1;
            send_reliable = true;
        }
        let header_size: usize = if include_qport { 10 } else { 8 };
        let mut send = SizeBuf::new(MAX_MSGLEN + header_size);
        let header = NetchanHeader {
            sequence: self.outgoing_sequence,
            reliable: send_reliable,
            ack: self.incoming_sequence,
            ack_reliable: self.incoming_reliable_sequence != 0,
            qport: if include_qport { Some(self.qport) } else { None },
        };
        self.outgoing_sequence = self.outgoing_sequence.wrapping_add(1);
        proof {
            lemma_header_len(header);
            lemma_write_all_fits(send@, header_parts(header));
        }
        match header.write(&mut send) {
            Ok(()) => {},
            Err(e) => {
                return Err(NetchanError::Write(e));
            },
        }
        if send_reliable {
            match send.write_bytes(self.reliable_buffer.as_slice()) {
                Ok(()) => {},
                Err(e) => {
                    return Err(NetchanError::Write(e));
                },
            }
            self.last_reliable_sequence = self.outgoing_sequence;
        }
        if unreliable.len() <= send.maxsize() - send.len() {
            match send.write_bytes(unreliable) {
                Ok(()) => {},
                Err(e) => {
                    return Err(NetchanError::Write(e));
                },
            }
        }
        Ok(vstd::slice::slice_to_vec(send.as_slice()))
    }

    /// Accepts a packet newer than the last one and gives its payload.
    pub fn process_packet<'a>(&mut self, packet: &'a [u8], expects_qport: bool) -> (r: Result<&'a [u8], NetchanError>)
        requires
            old(self).wf(),
        ensures
            final(self).wf(),
            final(self)@ == spec_process_packet(old(self)@, packet@, expects_qport).0,
            match spec_process_packet(old(self)@, packet@, expects_qport).1 {
                Ok(p) => r matches Ok(v) && v@ == p,
                Err(e) => r == Err::<&[u8], NetchanError>(e),
            },
    {
        let mut reader = MsgReader::new(packet);
        let header = match NetchanHeader::read(&mut reader, expects_qport) {
            Ok(h) => h,
            Err(e) => {
                return Err(NetchanError::Read(e));
            },
        };
        assert(packet@.skip(0) =~= packet@);
        if self.received_any && header.sequence <= self.incoming_sequence {
            return Err(NetchanError::OutOfOrder);
        }
        self.received_any = true;
        self.incoming_sequence = header.sequence;
        self.incoming_reliable_sequence = if header.reliable { 1 } else { 0 };
        self.incoming_acknowledged = header.ack;
        self.incoming_reliable_acknowledged = if header.ack_reliable { 1 } else { 0 };
        let offset = packet.len() - reader.remaining();
        Ok(&packet[offset..packet.len()])
    }

    pub fn incoming_sequence(&self) -> (r: u32)
        ensures
            r == self@.incoming_sequence,
    {
        self.incoming_sequence
    }

    pub fn outgoing_sequence(&self) -> (r: u32)
        ensures
            r == self@.outgoing_sequence,
    {
        self.outgoing_sequence
    }
}

/// A packet built by one channel and received by a fresh one gives back the
/// unreliable data, when no reliable message goes with it and the sequence
/// numbers fit in 31 bits.
pub proof fn law_packet_round_trip(sender: NetchanView, unreliable: Seq<u8>, include_qport: bool, receiver: NetchanView)
    requires
        netchan_ok(sender),
        !sender.message.overflowed,
        sender.message.data.len() == 0,
        !(sender.incoming_acknowledged > sender.last_reliable_sequence
            && sender.incoming_reliable_acknowledged != sender.reliable_sequence),
        sender.outgoing_sequence < 0x8000_0000,
        sender.incoming_sequence < 0x8000_0000,
        unreliable.len() <= MAX_MSGLEN,
        !receiver.received_any,
    ensures
        spec_build_packet(sender, unreliable, include_qport).1 matches Ok(p)
            && spec_process_packet(receiver, p, include_qport).1 == Ok::<Seq<u8>, NetchanError>(unreliable),
{
    let h = next_header(sender, false, include_qport);
    lemma_header_len(h);
    law_header_round_trip(h, unreliable);
    let body = header_bytes(h) + Seq::<u8>::empty();
    assert(body =~= header_bytes(h));
}

/// A reliable message the peer has not acknowledged goes out again: when
/// the peer has acknowledged a packet sent after the reliable message last
/// went out, without acknowledging its sequence bit, the next packet is
/// built, with the reliable bit set in its sequence word, and carries the
/// pending reliable message right after the header, whatever else is
/// queued.
pub proof fn law_unacknowledged_reliable_resent(n: NetchanView, unreliable: Seq<u8>, include_qport: bool)
    requires
        netchan_ok(n),
        !n.message.overflowed,
        n.reliable.len() > 0,
        n.incoming_acknowledged > n.last_reliable_sequence,
        n.incoming_reliable_acknowledged != n.reliable_sequence,
    ensures
        spec_build_packet(n, unreliable, include_qport).1 matches Ok(p) && {
            &&& decode_header(p, include_qport).reliable
            &&& p.len() >= header_len(include_qport) + n.reliable.len()
            &&& p.subrange(header_len(include_qport), header_len(include_qport) + n.reliable.len()) == n.reliable
        },
        spec_build_packet(n, unreliable, include_qport).0.reliable == n.reliable,
{
    let h = next_header(n, true, include_qport);
    lemma_header_len(h);
    let sw = flagged(h.sequence, true);
    lemma_u32_round_trip(sw);
    let hb = header_bytes(h);
    let body = hb + n.reliable;
    let p = spec_build_packet(n, unreliable, include_qport).1->Ok_0;
    assert(p.take(body.len() as int) =~= body);
    assert(u32_at(p, 0) == sw) by {
        assert(p[0] == le_u32(sw)[0] && p[1] == le_u32(sw)[1] && p[2] == le_u32(sw)[2] && p[3] == le_u32(sw)[3]);
    }
    let q = h.sequence;
    assert(((q & 0x7fff_ffff) | 0x8000_0000u32) & 0x8000_0000 != 0) by (bit_vector);
    assert(p.subrange(header_len(include_qport), header_len(include_qport) + n.reliable.len()) =~= n.reliable);
}

} // verus!

//! Out-of-band packets: four 0xFF bytes, then a command.
use vstd::prelude::*;
use crate::msg::{line_end_from, lemma_line_end_from_bounds};
use crate::protocol::{
    A2A_ACK, A2A_ECHO, A2A_NACK, A2A_PING, A2C_CLIENT_COMMAND, A2C_PRINT, S2C_CHALLENGE,
    S2C_CONNECTION, S2M_HEARTBEAT, S2M_SHUTDOWN,
};
use crate::text::{lossy_text, string_from_utf8_lossy};

verus! {

pub open spec fn oob_header() -> Seq<u8> {
    seq![0xffu8, 0xffu8, 0xffu8, 0xffu8]
}

pub open spec fn spec_is_out_of_band(packet: Seq<u8>) -> bool {
    packet.len() >= 4 && packet.take(4) == oob_header()
}

/// A packet that carries `payload` out of band.
pub fn build_out_of_band(payload: &[u8]) -> (out: Vec<u8>)
    ensures
        out@ == oob_header() + payload@,
{
    let mut out: Vec<u8> = Vec::new();
    out.push(0xff);
    out.push(0xff);
    out.push(0xff);
    out.push(0xff);
    let mut i: usize = 0;
    while i < payload.len()
        invariant
            i <= payload@.len(),
            out@ == oob_header() + payload@.take(i as int),
        decreases payload@.len() - i,
    {
        out.push(payload[i]);
        assert(out@ =~= oob_header() + payload@.take(i + 1));
        i = i + 1;
    }
    assert(payload@.take(payload@.len() as int) =~= payload@);
    out
}

pub fn is_out_of_band(packet: &[u8]) -> (r: bool)
    ensures
        r == spec_is_out_of_band(packet@),
{
    let r = packet.len() >= 4 && packet[0] == 0xff && packet[1] == 0xff && packet[2] == 0xff && packet[3] == 0xff;
    proof {
        if packet@.len() >= 4 {
            if r {
                assert(packet@.take(4) =~= oob_header());
            } else {
                if packet@.take(4) == oob_header() {
                    assert(packet@[0] == packet@.take(4)[0]);
                    assert(packet@[1] == packet@.take(4)[1]);
                    assert(packet@[2] == packet@.take(4)[2]);
                    assert(packet@[3] == packet@.take(4)[3]);
                }
            }
        }
    }
    r
}

/// The payload of an out-of-band packet.
pub fn out_of_band_payload(packet: &[u8]) -> (r: Option<&[u8]>)
    ensures
        spec_is_out_of_band(packet@) ==> r is Some && r->0@ == packet@.skip(4),
        !spec_is_out_of_band(packet@) ==> r is None,
{
    if is_out_of_band(packet) {
        Some(&packet[4..packet.len()])
    } else {
        None
    }
}

#[derive(Debug, Clone, PartialEq, Eq)]
pub enum OobMessage {
    Challenge(String),
    Connection(String),
    Print(String),
    ClientCommand(String),
    Echo(String),
    Ping,
    Ack,
    Nack(String),
    Heartbeat(String),
    Shutdown(String),
    Unknown(u8, String),
}

/// The text of an out-of-band command: the bytes after the code up to the
/// first zero or newline.
pub open spec fn oob_text(payload: Seq<u8>) -> Seq<char> {
    lossy_text(payload.subrange(1, line_end_from(payload, 1)))
}

/// Whether `m` is the message with command byte `code` and text `text`.
pub open spec fn oob_is(m: OobMessage, code: u8, text: Seq<char>) -> bool {
    match m {
        OobMessage::Challenge(s) => code == S2C_CHALLENGE && s@ == text,
        OobMessage::Connection(s) => code == S2C_CONNECTION && s@ == text,
        OobMessage::Print(s) => code == A2C_PRINT && s@ == text,
        OobMessage::ClientCommand(s) => code == A2C_CLIENT_COMMAND && s@ == text,
        OobMessage::Echo(s) => code == A2A_ECHO && s@ == text,
        OobMessage::Ping => code == A2A_PING,
        OobMessage::Ack => code == A2A_ACK,
        OobMessage::Nack(s) => code == A2A_NACK && s@ == text,
        OobMessage::Heartbeat(s) => code == S2M_HEARTBEAT && s@ == text,
        OobMessage::Shutdown(s) => code == S2M_SHUTDOWN && s@ == text,
        OobMessage::Unknown(c, s) => c == code && s@ == text && code != S2C_CHALLENGE
            && code != S2C_CONNECTION && code != A2C_PRINT && code != A2C_CLIENT_COMMAND
            && code != A2A_ECHO && code != A2A_PING && code != A2A_ACK && code != A2A_NACK
            && code != S2M_HEARTBEAT && code != S2M_SHUTDOWN,
    }
}

fn parse_oob_text(payload: &[u8]) -> (s: String)
    requires
        payload@.len() >= 1,
    ensures
        s@ == oob_text(payload@),
{
    proof {
        lemma_line_end_from_bounds(payload@, 1);
    }
    let mut end: usize = 1;
    while end < payload.len() && payload[end] != 0 && payload[end] != 10
        invariant
            1 <= end <= payload@.len(),
            line_end_from(payload@, end as int) == line_end_from(payload@, 1),
        decreases payload@.len() - end,
    {
        end = end + 1;
    }
    string_from_utf8_lossy(&payload[1..end])
}

/// The command that an out-of-band payload holds; `None` for an empty one.
pub fn parse_oob_message(payload: &[u8]) -> (r: Option<OobMessage>)
    ensures
        payload@.len() == 0 ==> r is None,
        payload@.len() > 0 ==> r is Some && oob_is(r->0, payload@[0], oob_text(payload@)),
{
    if payload.len() == 0 {
        return None;
    }
    let code = payload[0];
    let text = parse_oob_text(payload);
    let msg = if code == S2C_CHALLENGE {
        OobMessage::Challenge(text)
    } else if code == S2C_CONNECTION {
        OobMessage::Connection(text)
    } else if code == A2C_PRINT {
        OobMessage::Print(text)
    } else if code == A2C_CLIENT_COMMAND {
        OobMessage::ClientCommand(text)
    } else if code == A2A_ECHO {
        OobMessage::Echo(text)
    } else if code == A2A_PING {
        OobMessage::Ping
    } else if code == A2A_ACK {
        OobMessage::Ack
    } else if code == A2A_NACK {
        OobMessage::Nack(text)
    } else if code == S2M_HEARTBEAT {
        OobMessage::Heartbeat(text)
    } else if code == S2M_SHUTDOWN {
        OobMessage::Shutdown(text)
    } else {
        OobMessage::Unknown(code, text)
    };
    Some(msg)
}

/// An out-of-band packet reads back as its payload.
pub proof fn law_oob_round_trip(payload: Seq<u8>)
    ensures
        spec_is_out_of_band(oob_header() + payload),
        (oob_header() + payload).skip(4) == payload,
{
    assert((oob_header() + payload).take(4) =~= oob_header());
    assert((oob_header() + payload).skip(4) =~= payload);
}

} // verus!

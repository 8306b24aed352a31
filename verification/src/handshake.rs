//! The connection handshake of a QuakeWorld client: ask for a challenge,
//! answer it with a connect request, wait for the server to accept.
use vstd::prelude::*;
use vstd::string::StringSliceAdditionalSpecFns;
use crate::decimal::{decimal, signed_decimal, spec_parse_signed, spec_trim, parse_i32, push_decimal, push_signed_decimal, trim};
use crate::info::InfoString;
use crate::oob::{build_out_of_band, oob_header, out_of_band_payload, spec_is_out_of_band, OobMessage};
use crate::protocol::PROTOCOL_VERSION;
use crate::text::{chars_of, push_chars, string_of};

verus! {

#[derive(Debug, Clone)]
pub struct ConnectRequest {
    pub protocol: i32,
    pub qport: u16,
    pub challenge: i32,
    pub userinfo: String,
}

impl ConnectRequest {
    pub fn new(qport: u16, challenge: i32, userinfo: &str) -> (r: Self)
        ensures
            r.protocol == PROTOCOL_VERSION,
            r.qport == qport,
            r.challenge == challenge,
            r.userinfo@ == userinfo@,
    {
        ConnectRequest { protocol: PROTOCOL_VERSION, qport, challenge, userinfo: userinfo.to_owned() }
    }
}

/// The text of a challenge request.
pub open spec fn getchallenge_text() -> Seq<char> {
    "getchallenge\n"@
}

/// The text of a connect request:
/// `connect <protocol> <qport> <challenge> "<userinfo>"` and a newline.
pub open spec fn connect_text(protocol: i32, qport: u16, challenge: i32, userinfo: Seq<char>) -> Seq<char> {
    "connect "@ + signed_decimal(protocol as int) + seq![' '] + decimal(qport as nat) + seq![' ']
        + signed_decimal(challenge as int) + seq![' ', '"'] + userinfo + seq!['"', '\n']
}

/// The out-of-band packet that asks a server for a challenge.
pub fn build_getchallenge() -> (r: Vec<u8>)
    ensures
        r@ == oob_header() + vstd::utf8::encode_utf8(getchallenge_text()),
{
    build_out_of_band("getchallenge\n".as_bytes())
}

/// The out-of-band packet that asks to connect with `request`.
pub fn build_connect(request: &ConnectRequest) -> (r: Vec<u8>)
    ensures
        r@ == oob_header() + vstd::utf8::encode_utf8(
            connect_text(request.protocol, request.qport, request.challenge, request.userinfo@),
        ),
{
    let mut text = chars_of("connect ");
    push_signed_decimal(&mut text, request.protocol as i64);
    text.push(' ');
    push_decimal(&mut text, request.qport as u64);
    text.push(' ');
    push_signed_decimal(&mut text, request.challenge as i64);
    text.push(' ');
    text.push('"');
    let info = chars_of(request.userinfo.as_str());
    push_chars(&mut text, info.as_slice());
    text.push('"');
    text.push('\n');
    assert(text@ =~= connect_text(request.protocol, request.qport, request.challenge, request.userinfo@));
    let s = string_of(text.as_slice());
    build_out_of_band(s.as_str().as_bytes())
}

/// The challenge number a server sent: its text, trimmed, read as an
/// `i32`.
pub open spec fn spec_challenge(message: OobMessage) -> Option<int> {
    match message {
        OobMessage::Challenge(text) => spec_parse_signed(spec_trim(text@), i32::MIN as int, i32::MAX as int),
        _ => None,
    }
}

/// The challenge number of a challenge message; `None` for any other
/// message or a text that is not a number.
pub fn parse_challenge(message: &OobMessage) -> (r: Option<i32>)
    ensures
        match spec_challenge(*message) {
            Some(v) => r == Some(v as i32),
            None => r is None,
        },
{
    match message {
        OobMessage::Challenge(text) => {
            let chars = chars_of(text.as_str());
            let trimmed = trim(chars.as_slice());
            parse_i32(trimmed.as_slice())
        },
        _ => None,
    }
}

/// Whether a packet is out of band.
pub fn is_oob_packet(packet: &[u8]) -> (r: bool)
    ensures
        r == spec_is_out_of_band(packet@),
{
    out_of_band_payload(packet).is_some()
}

#[derive(Debug, Copy, Clone, PartialEq, Eq, Structural)]
pub enum SessionState {
    Disconnected,
    ChallengeSent,
    ConnectSent,
    Connected,
}

/// A client's side of the handshake.
#[derive(Debug, Clone)]
pub struct Session {
    pub state: SessionState,
    pub qport: u16,
    pub userinfo: String,
    pub challenge: Option<i32>,
}

impl Session {
    pub fn new(qport: u16, userinfo: &str) -> (r: Self)
        ensures
            r.state == SessionState::Disconnected,
            r.qport == qport,
            r.userinfo@ == userinfo@,
            r.challenge is None,
    {
        Session { state: SessionState::Disconnected, qport, userinfo: userinfo.to_owned(), challenge: None }
    }

    pub fn new_with_info(qport: u16, info: InfoString) -> (r: Self)
        ensures
            r.state == SessionState::Disconnected,
            r.qport == qport,
            r.userinfo@ == info.text(),
            r.challenge is None,
    {
        Self::new(qport, info.as_str())
    }

    /// Starts the handshake: the packet to send asks for a challenge.
    pub fn start(&mut self) -> (r: Vec<u8>)
        ensures
            *final(self) == (Session { state: SessionState::ChallengeSent, ..*old(self) }),
            r@ == oob_header() + vstd::utf8::encode_utf8(getchallenge_text()),
    {
        self.state = SessionState::ChallengeSent;
        build_getchallenge()
    }

    /// Takes a message from the server. A challenge with a number is
    /// answered with a connect request; a connection message completes the
    /// handshake; anything else changes nothing.
    pub fn handle_oob(&mut self, msg: &OobMessage) -> (r: Option<Vec<u8>>)
        ensures
            match *msg {
                OobMessage::Challenge(_) => match spec_challenge(*msg) {
                    Some(c) => {
                        &&& *final(self) == (Session {
                            state: SessionState::ConnectSent,
                            challenge: Some(c as i32),
                            ..*old(self)
                        })
                        &&& r matches Some(p) && p@ == oob_header() + vstd::utf8::encode_utf8(
                            connect_text(PROTOCOL_VERSION, old(self).qport, c as i32, old(self).userinfo@),
                        )
                    },
                    None => *final(self) == *old(self) && r is None,
                },
                OobMessage::Connection(_) => {
                    &&& *final(self) == (Session { state: SessionState::Connected, ..*old(self) })
                    &&& r is None
                },
                _ => *final(self) == *old(self) && r is None,
            },
    {
        match msg {
            OobMessage::Challenge(_) => {
                let challenge = match parse_challenge(msg) {
                    Some(c) => c,
                    None => {
                        return None;
                    },
                };
                self.challenge = Some(challenge);
                self.state = SessionState::ConnectSent;
                let request = ConnectRequest::new(self.qport, challenge, self.userinfo.as_str());
                Some(build_connect(&request))
            },
            OobMessage::Connection(_) => {
                self.state = SessionState::Connected;
                None
            },
            _ => None,
        }
    }
}

} // verus!

//! The client's connection: its files and its network channel.
use vstd::prelude::*;
use vstd::string::StringSliceAdditionalSpecFns;
use crate::handshake;
use crate::msg::MsgReader;
use crate::netchan::{Netchan, NetchanError, NetchanView, spec_process_packet};
use crate::oob::{
    OobMessage, build_out_of_band, is_out_of_band, oob_header, oob_is, oob_text, out_of_band_payload,
    parse_oob_message, spec_is_out_of_band,
};
use crate::protocol::MAX_MSGLEN;
use crate::msg::SizeBufView;
use crate::svc::{SvcMessage, SvcParseError, parse_svc_stream, rd_svc_stream, svc_result, svc_views};
use crate::vfs::{QuakeFs, is_safe_relative, is_safe_relative_path};
use crate::decimal::{decimal, is_whitespace_exec, push_decimal, push_signed_decimal, signed_decimal, spec_trim, trim, trim_start};
use crate::text::{chars_of, contains_char, split_chars, split_on, string_of, views};

verus! {

#[derive(Debug, Clone, Copy, PartialEq, Eq)]
pub enum ClientError {
    Netchan(NetchanError),
    Parse(SvcParseError),
}

/// What a received packet held.
#[derive(Debug, Clone, PartialEq, Eq)]
pub enum ClientPacket {
    OutOfBand(OobMessage),
    Messages(Vec<SvcMessage>),
}

/// The out-of-band message that a packet's payload after the marker gives:
/// an unknown one with code 0 and no text when the payload is empty.
pub open spec fn oob_packet_message(m: OobMessage, payload: Seq<u8>) -> bool {
    if payload.len() == 0 {
        m matches OobMessage::Unknown(code, text) && code == 0 && text@ == Seq::<char>::empty()
    } else {
        oob_is(m, payload[0], oob_text(payload))
    }
}

pub struct Client {
    pub fs: QuakeFs,
    pub netchan: Netchan,
}

impl Client {
    /// A client with no search paths and a fresh channel.
    pub fn new(qport: u16) -> (r: Self)
        ensures
            r.fs.paths().len() == 0,
            r.netchan.wf(),
            r.netchan@ == Netchan::new_view(qport),
    {
        Client { fs: QuakeFs::new(), netchan: Netchan::new(qport) }
    }

    /// Takes a received packet: an out-of-band one is parsed as such and
    /// leaves the channel alone; any other goes through the channel, and
    /// the data it delivers is read as server messages to its end.
    pub fn handle_packet(&mut self, packet: &[u8]) -> (r: Result<ClientPacket, ClientError>)
        requires
            old(self).netchan.wf(),
        ensures
            final(self).netchan.wf(),
            final(self).fs == old(self).fs,
            spec_is_out_of_band(packet@) ==> {
                &&& final(self).netchan@ == old(self).netchan@
                &&& r matches Ok(ClientPacket::OutOfBand(m)) && oob_packet_message(m, packet@.skip(4))
            },
            !spec_is_out_of_band(packet@) ==> {
                let (chan, delivered) = spec_process_packet(old(self).netchan@, packet@, false);
                &&& final(self).netchan@ == chan
                &&& match delivered {
                    Err(e) => r == Err::<ClientPacket, ClientError>(ClientError::Netchan(e)),
                    Ok(payload) => match rd_svc_stream(payload, 0) {
                        Ok(vs) => r matches Ok(ClientPacket::Messages(ms)) && svc_views(ms@) == vs,
                        Err((f, b)) => r matches Err(ClientError::Parse(e)) && svc_result(Err(e), Err(f), b),
                    },
                }
            },
    {
        if is_out_of_band(packet) {
            let message = match out_of_band_payload(packet) {
                Some(payload) => match parse_oob_message(payload) {
                    Some(m) => m,
                    None => OobMessage::Unknown(0, String::new()),
                },
                None => OobMessage::Unknown(0, String::new()),
            };
            return Ok(ClientPacket::OutOfBand(message));
        }
        let payload = match self.netchan.process_packet(packet, false) {
            Ok(p) => p,
            Err(e) => {
                return Err(ClientError::Netchan(e));
            },
        };
        let mut reader = MsgReader::new(payload);
        match parse_svc_stream(&mut reader) {
            Ok(messages) => Ok(ClientPacket::Messages(messages)),
            Err(e) => Err(ClientError::Parse(e)),
        }
    }

    /// An out-of-band packet carrying `text`.
    pub fn build_oob_message(text: &str) -> (r: Vec<u8>)
        ensures
            r@ == oob_header() + text.spec_bytes(),
    {
        build_out_of_band(text.as_bytes())
    }

    /// The out-of-band packet that asks a server for a challenge.
    pub fn build_getchallenge() -> (r: Vec<u8>)
        ensures
            r@ == oob_header() + vstd::utf8::encode_utf8(handshake::getchallenge_text()),
    {
        handshake::build_getchallenge()
    }
}

/// The command a line of stuffed text asks the client to forward: what
/// follows `cmd` (after trimming the line, then the white space after
/// `cmd`), when anything does.
pub open spec fn line_command(line: Seq<char>) -> Option<Seq<char>> {
    let t = spec_trim(line);
    if t.len() >= 3 && t.take(3) == seq!['c', 'm', 'd'] {
        let c = trim_start(t.skip(3));
        if c.len() > 0 {
            Some(c)
        } else {
            None
        }
    } else {
        None
    }
}

pub open spec fn commands_of(lines: Seq<Seq<char>>) -> Seq<Seq<char>>
    decreases lines.len(),
{
    if lines.len() == 0 {
        Seq::empty()
    } else {
        let rest = commands_of(lines.drop_last());
        match line_command(lines.last()) {
            Some(c) => rest.push(c),
            None => rest,
        }
    }
}

/// The commands stuffed text asks to forward to the server, line by line.
pub open spec fn spec_stufftext_commands(text: Seq<char>) -> Seq<Seq<char>> {
    commands_of(split_on(text, '\n'))
}

fn trim_start_chars(s: &[char]) -> (r: Vec<char>)
    ensures
        r@ == trim_start(s@),
{
    let mut start: usize = 0;
    assert(s@.skip(0) =~= s@);
    while start < s.len() && is_whitespace_exec(s[start])
        invariant
            start <= s@.len(),
            trim_start(s@.skip(start as int)) == trim_start(s@),
        decreases s@.len() - start,
    {
        assert(s@.skip(start as int).drop_first() =~= s@.skip(start + 1));
        start = start + 1;
    }
    let mut out: Vec<char> = Vec::new();
    let mut i = start;
    while i < s.len()
        invariant
            start <= i <= s@.len(),
            out@ == s@.subrange(start as int, i as int),
        decreases s@.len() - i,
    {
        out.push(s[i]);
        i = i + 1;
        assert(out@ =~= s@.subrange(start as int, i as int));
    }
    assert(out@ =~= s@.skip(start as int));
    out
}

fn line_command_exec(line: &[char]) -> (r: Option<Vec<char>>)
    ensures
        match line_command(line@) {
            Some(c) => r matches Some(v) && v@ == c,
            None => r is None,
        },
{
    let t = trim(line);
    if t.len() >= 3 && t[0] == 'c' && t[1] == 'm' && t[2] == 'd' {
        assert(t@.take(3) =~= seq!['c', 'm', 'd']);
        let rest = vstd::slice::slice_subrange(t.as_slice(), 3, t.len());
        assert(rest@ =~= t@.skip(3));
        let c = trim_start_chars(rest);
        if c.len() > 0 {
            Some(c)
        } else {
            None
        }
    } else {
        proof {
            if t@.len() >= 3 && t@.take(3) == seq!['c', 'm', 'd'] {
                assert(t@[0] == t@.take(3)[0]);
                assert(t@[1] == t@.take(3)[1]);
                assert(t@[2] == t@.take(3)[2]);
            }
        }
        None
    }
}

/// The commands that a server's stuffed text asks the client to send back:
/// from each line that starts with `cmd`, the rest of it.
pub fn stufftext_commands(text: &str) -> (r: Vec<String>)
    ensures
        crate::client_messages::string_views(r@) == spec_stufftext_commands(text@),
{
    let cs = chars_of(text);
    let lines = split_chars(cs.as_slice(), 0, '\n');
    assert(cs@.skip(0) =~= cs@);
    let ghost ls = views(lines@);
    let mut out: Vec<String> = Vec::new();
    let mut i: usize = 0;
    while i < lines.len()
        invariant
            ls == views(lines@),
            ls == split_on(text@, '\n'),
            i <= lines@.len(),
            crate::client_messages::string_views(out@) == commands_of(ls.take(i as int)),
        decreases lines@.len() - i,
    {
        let ghost before = crate::client_messages::string_views(out@);
        proof {
            assert(ls.take(i + 1).drop_last() =~= ls.take(i as int));
            assert(ls.take(i + 1).last() == lines@[i as int]@);
        }
        match line_command_exec(lines[i].as_slice()) {
            Some(c) => {
                out.push(string_of(c.as_slice()));
                assert(crate::client_messages::string_views(out@) =~= before.push(c@));
            },
            None => {},
        }
        i = i + 1;
    }
    assert(ls.take(lines@.len() as int) =~= ls);
    out
}

pub open spec fn bsp_suffix() -> Seq<char> {
    seq!['.', 'b', 's', 'p']
}

pub open spec fn maps_prefix() -> Seq<char> {
    seq!['m', 'a', 'p', 's', '/']
}

pub open spec fn ends_with_bsp(s: Seq<char>) -> bool {
    s.len() >= 4 && s.skip(s.len() - 4) == bsp_suffix()
}

/// The file that holds a level: a name with a directory is taken as a
/// path, others go under `maps/`; `.bsp` is added where missing.
pub open spec fn spec_map_path(level_name: Seq<char>) -> Seq<char> {
    let name = spec_trim(level_name);
    if name.contains('/') || name.contains('\\') {
        if ends_with_bsp(name) {
            name
        } else {
            name + bsp_suffix()
        }
    } else if ends_with_bsp(name) {
        maps_prefix() + name
    } else {
        maps_prefix() + name + bsp_suffix()
    }
}

fn ends_with_bsp_exec(s: &[char]) -> (r: bool)
    ensures
        r == ends_with_bsp(s@),
{
    let n = s.len();
    if n < 4 {
        return false;
    }
    let r = s[n - 4] == '.' && s[n - 3] == 'b' && s[n - 2] == 's' && s[n - 1] == 'p';
    proof {
        let tail = s@.skip(n - 4);
        if r {
            assert(tail =~= bsp_suffix());
        } else if tail == bsp_suffix() {
            assert(tail[0] == s@[n - 4]);
            assert(tail[1] == s@[n - 3]);
            assert(tail[2] == s@[n - 2]);
            assert(tail[3] == s@[n - 1]);
        }
    }
    r
}

/// The path of the map file a level name stands for.
pub fn map_path(level_name: &str) -> (r: String)
    ensures
        r@ == spec_map_path(level_name@),
{
    let name = trim(chars_of(level_name).as_slice());
    let bsp = ends_with_bsp_exec(name.as_slice());
    let mut out: Vec<char> = Vec::new();
    if !(contains_char(name.as_slice(), '/') || contains_char(name.as_slice(), '\\')) {
        out.push('m');
        out.push('a');
        out.push('p');
        out.push('s');
        out.push('/');
    }
    let mut i: usize = 0;
    let ghost start = out@;
    while i < name.len()
        invariant
            i <= name@.len(),
            out@ == start + name@.take(i as int),
        decreases name@.len() - i,
    {
        out.push(name[i]);
        i = i + 1;
        assert(out@ =~= start + name@.take(i as int));
    }
    if !bsp {
        out.push('.');
        out.push('b');
        out.push('s');
        out.push('p');
    }
    proof {
        assert(name@.take(name@.len() as int) =~= name@);
        if name@.contains('/') || name@.contains('\\') {
            assert(start =~= Seq::<char>::empty());
            if bsp {
                assert(out@ =~= name@);
            } else {
                assert(out@ =~= name@ + bsp_suffix());
            }
        } else {
            assert(start =~= maps_prefix());
            if bsp {
                assert(out@ =~= maps_prefix() + name@);
            } else {
                assert(out@ =~= maps_prefix() + name@ + bsp_suffix());
            }
        }
    }
    string_of(out.as_slice())
}

/// The next request of the sign-on a server message calls for.
#[derive(Debug, Clone, PartialEq, Eq)]
pub enum SignonStep {
    /// Nothing to send.
    Idle,
    /// Send this string command.
    Send(String),
    /// Send the prespawn request, which carries the map's checksum.
    Prespawn,
}

/// `<word> <server count> <start>`: a request for a list from `start` on.
pub open spec fn list_request(word: Seq<char>, count: i32, start: nat) -> Seq<char> {
    word + seq![' '] + signed_decimal(count as int) + seq![' '] + decimal(start)
}

/// `prespawn <server count> 0 <checksum>`.
pub open spec fn prespawn_request(count: i32, checksum: u32) -> Seq<char> {
    "prespawn"@ + seq![' '] + signed_decimal(count as int) + seq![' ', '0', ' '] + decimal(checksum as nat)
}

fn request(word: &str, count: i32, start: u64) -> (r: String)
    ensures
        r@ == list_request(word@, count, start as nat),
{
    let mut out = chars_of(word);
    out.push(' ');
    push_signed_decimal(&mut out, count as i64);
    out.push(' ');
    push_decimal(&mut out, start);
    string_of(out.as_slice())
}

/// The prespawn request for a map with second checksum `checksum`.
pub fn prespawn_command(server_count: i32, checksum: u32) -> (r: String)
    ensures
        r@ == prespawn_request(server_count, checksum),
{
    let mut out = chars_of("prespawn");
    out.push(' ');
    push_signed_decimal(&mut out, server_count as i64);
    out.push(' ');
    out.push('0');
    out.push(' ');
    push_decimal(&mut out, checksum as u64);
    assert(out@ =~= prespawn_request(server_count, checksum));
    string_of(out.as_slice())
}

/// The sign-on step for message `msg`, given the server count of the server
/// data received so far: server data asks for the sound list; each chunk
/// of a list asks for the next one, the end of the sounds for the models,
/// and the end of the models for the prespawn.
pub open spec fn spec_signon_step(msg: SvcMessage, server_count: Option<i32>) -> Option<Seq<char>> {
    match msg {
        SvcMessage::ServerData(d) => Some(list_request("soundlist"@, d.server_count, 0)),
        SvcMessage::SoundList(c) => match server_count {
            None => None,
            Some(n) => if c.next != 0 {
                Some(list_request("soundlist"@, n, c.next as nat))
            } else {
                Some(list_request("modellist"@, n, 0))
            },
        },
        SvcMessage::ModelList(c) => match server_count {
            None => None,
            Some(n) => if c.next != 0 {
                Some(list_request("modellist"@, n, c.next as nat))
            } else {
                None
            },
        },
        _ => None,
    }
}

/// Whether `msg` ends the model list, so that the prespawn request is due.
pub open spec fn prespawn_due(msg: SvcMessage, server_count: Option<i32>) -> bool {
    msg matches SvcMessage::ModelList(c) && c.next == 0 && server_count is Some
}

/// What the sign-on does on message `msg`.
pub fn signon_step(msg: &SvcMessage, server_count: Option<i32>) -> (r: SignonStep)
    ensures
        prespawn_due(*msg, server_count) ==> r == SignonStep::Prespawn,
        !prespawn_due(*msg, server_count) ==> match spec_signon_step(*msg, server_count) {
            Some(t) => r matches SignonStep::Send(c) && c@ == t,
            None => r == SignonStep::Idle,
        },
{
    match msg {
        SvcMessage::ServerData(d) => SignonStep::Send(request("soundlist", d.server_count, 0)),
        SvcMessage::SoundList(c) => match server_count {
            None => SignonStep::Idle,
            Some(n) => if c.next != 0 {
                SignonStep::Send(request("soundlist", n, c.next as u64))
            } else {
                SignonStep::Send(request("modellist", n, 0))
            },
        },
        SvcMessage::ModelList(c) => match server_count {
            None => SignonStep::Idle,
            Some(n) => if c.next != 0 {
                SignonStep::Send(request("modellist", n, c.next as u64))
            } else {
                SignonStep::Prespawn
            },
        },
        _ => SignonStep::Idle,
    }
}

/// Whether a file the server offers for download may be written under the
/// download directory: the same test as for any path looked up in the game
/// directories.
pub fn is_safe_download_path(name: &str) -> (r: bool)
    ensures
        r == is_safe_relative(name@),
{
    is_safe_relative_path(name)
}

/// What the client does with a line typed at its console.
#[derive(Debug, Clone, PartialEq, Eq)]
pub enum ConsoleStep {
    Quit,
    Send(String),
    Queue(String),
}

/// `quit` or `exit` (in any case) ends the client; any other command goes
/// to the server now when connected, else waits for the connection.
pub fn console_step(line: &str, connected: bool) -> (r: ConsoleStep)
    ensures
        match r {
            ConsoleStep::Quit => crate::text::seq_eq_ignore_ascii_case(line@, "quit"@)
                || crate::text::seq_eq_ignore_ascii_case(line@, "exit"@),
            ConsoleStep::Send(s) => connected && s@ == line@
                && !crate::text::seq_eq_ignore_ascii_case(line@, "quit"@)
                && !crate::text::seq_eq_ignore_ascii_case(line@, "exit"@),
            ConsoleStep::Queue(s) => !connected && s@ == line@
                && !crate::text::seq_eq_ignore_ascii_case(line@, "quit"@)
                && !crate::text::seq_eq_ignore_ascii_case(line@, "exit"@),
        },
{
    let chars = crate::text::chars_of(line);
    let quit = crate::text::chars_of("quit");
    let exit = crate::text::chars_of("exit");
    if crate::text::eq_ignore_ascii_case(chars.as_slice(), quit.as_slice())
        || crate::text::eq_ignore_ascii_case(chars.as_slice(), exit.as_slice())
    {
        return ConsoleStep::Quit;
    }
    let copy = crate::text::string_of(chars.as_slice());
    if connected {
        ConsoleStep::Send(copy)
    } else {
        ConsoleStep::Queue(copy)
    }
}

} // verus!

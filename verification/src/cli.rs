//! The client's command line.
use vstd::prelude::*;
use crate::decimal::{spec_parse_unsigned, parse_unsigned};
use crate::netaddr::{NetAddr, NetAddrError, spec_parse_netaddr};
use crate::text::{ascii_lower, ascii_lower_exec, chars_of, chars_eq, push_chars, string_of};

verus! {

pub const DEFAULT_SERVER_PORT: u16 = 27500;
pub const DEFAULT_QPORT: u16 = 27001;

#[derive(Debug, Copy, Clone, PartialEq, Eq, Structural)]
pub enum ClientMode {
    QuakeWorld,
    SinglePlayer,
}

#[derive(Debug, Clone, PartialEq, Eq)]
pub struct ClientArgs {
    pub mode: ClientMode,
    pub server: Option<NetAddr>,
    pub qport: u16,
    pub name: Option<String>,
    pub topcolor: Option<String>,
    pub bottomcolor: Option<String>,
    pub rate: Option<String>,
    pub data_dir: Option<String>,
    pub download_dir: Option<String>,
}

#[derive(Debug, Clone, PartialEq, Eq)]
pub enum CliAction {
    Run(ClientArgs),
    Help,
}

#[derive(Debug, Clone, PartialEq, Eq)]
pub enum CliError {
    MissingServer,
    MissingValue(String),
    InvalidValue(String),
    InvalidFlag(String),
}

/// The message that tells the user what went wrong.
pub open spec fn error_message(e: CliError) -> Seq<char> {
    match e {
        CliError::MissingServer => "missing server address"@,
        CliError::MissingValue(flag) => "missing value for "@ + flag@,
        CliError::InvalidValue(value) => "invalid value: "@ + value@,
        CliError::InvalidFlag(flag) => "unknown flag: "@ + flag@,
    }
}

fn joined(head: &str, tail: &String) -> (r: String)
    ensures
        r@ == head@ + tail@,
{
    let mut s = chars_of(head);
    let t = chars_of(tail.as_str());
    push_chars(&mut s, t.as_slice());
    string_of(s.as_slice())
}

impl CliError {
    /// The message for the user.
    pub fn message(&self) -> (r: String)
        ensures
            r@ == error_message(*self),
    {
        match self {
            CliError::MissingServer => "missing server address".to_owned(),
            CliError::MissingValue(flag) => joined("missing value for ", flag),
            CliError::InvalidValue(value) => joined("invalid value: ", value),
            CliError::InvalidFlag(flag) => joined("unknown flag: ", flag),
        }
    }
}

/// What the arguments seen so far have set.
pub struct CliScan {
    pub mode: ClientMode,
    pub server: Option<Seq<char>>,
    pub qport: u16,
    pub name: Option<Seq<char>>,
    pub topcolor: Option<Seq<char>>,
    pub bottomcolor: Option<Seq<char>>,
    pub rate: Option<Seq<char>>,
    pub data_dir: Option<Seq<char>>,
    pub download_dir: Option<Seq<char>>,
}

pub enum CliErrorView {
    MissingServer,
    MissingValue(Seq<char>),
    InvalidValue(Seq<char>),
    InvalidFlag(Seq<char>),
}

pub enum ScanOutcome {
    Help,
    Failed(CliErrorView),
    Done(CliScan),
}

pub open spec fn initial_scan() -> CliScan {
    CliScan {
        mode: ClientMode::QuakeWorld,
        server: None,
        qport: DEFAULT_QPORT,
        name: None,
        topcolor: None,
        bottomcolor: None,
        rate: None,
        data_dir: None,
        download_dir: None,
    }
}

/// Which option that takes a value `a` is, counting from 1; 0 for none.
pub open spec fn option_kind(a: Seq<char>) -> u8 {
    if a == "--mode"@ {
        1
    } else if a == "-c"@ || a == "--connect"@ {
        2
    } else if a == "--qport"@ {
        3
    } else if a == "--name"@ {
        4
    } else if a == "--topcolor"@ {
        5
    } else if a == "--bottomcolor"@ {
        6
    } else if a == "--rate"@ {
        7
    } else if a == "--data-dir"@ {
        8
    } else if a == "--download-dir"@ {
        9
    } else {
        0
    }
}

pub open spec fn lower(s: Seq<char>) -> Seq<char> {
    s.map_values(|c: char| ascii_lower(c))
}

/// The mode a `--mode` value names, in any ASCII case.
pub open spec fn mode_named(v: Seq<char>) -> Option<ClientMode> {
    let l = lower(v);
    if l == "qw"@ || l == "quakeworld"@ {
        Some(ClientMode::QuakeWorld)
    } else if l == "sp"@ || l == "single"@ || l == "singleplayer"@ {
        Some(ClientMode::SinglePlayer)
    } else {
        None
    }
}

/// The settings after option `kind` with value `v`.
pub open spec fn apply_option(kind: u8, v: Seq<char>, st: CliScan) -> Result<CliScan, CliErrorView> {
    if kind == 1 {
        match mode_named(v) {
            Some(m) => Ok(CliScan { mode: m, ..st }),
            None => Err(CliErrorView::InvalidValue(v)),
        }
    } else if kind == 2 {
        Ok(CliScan { server: Some(v), ..st })
    } else if kind == 3 {
        match spec_parse_unsigned(v, 65535) {
            Some(q) => Ok(CliScan { qport: q as u16, ..st }),
            None => Err(CliErrorView::InvalidValue(v)),
        }
    } else if kind == 4 {
        Ok(CliScan { name: Some(v), ..st })
    } else if kind == 5 {
        Ok(CliScan { topcolor: Some(v), ..st })
    } else if kind == 6 {
        Ok(CliScan { bottomcolor: Some(v), ..st })
    } else if kind == 7 {
        Ok(CliScan { rate: Some(v), ..st })
    } else if kind == 8 {
        Ok(CliScan { data_dir: Some(v), ..st })
    } else {
        Ok(CliScan { download_dir: Some(v), ..st })
    }
}

/// The arguments read in order: help ends the reading; an option takes
/// the next argument as its value; another argument starting with `-` is
/// an unknown flag; the first other argument is the server and a second
/// one is refused.
pub open spec fn scan(args: Seq<Seq<char>>, st: CliScan) -> ScanOutcome
    decreases args.len(),
{
    if args.len() == 0 {
        ScanOutcome::Done(st)
    } else {
        let a = args[0];
        if a == "-h"@ || a == "--help"@ {
            ScanOutcome::Help
        } else if option_kind(a) != 0 {
            if args.len() < 2 {
                ScanOutcome::Failed(CliErrorView::MissingValue(a))
            } else {
                match apply_option(option_kind(a), args[1], st) {
                    Ok(next) => scan(args.skip(2), next),
                    Err(e) => ScanOutcome::Failed(e),
                }
            }
        } else if a.len() > 0 && a[0] == '-' {
            ScanOutcome::Failed(CliErrorView::InvalidFlag(a))
        } else if st.server is None {
            scan(args.drop_first(), CliScan { server: Some(a), ..st })
        } else {
            ScanOutcome::Failed(CliErrorView::InvalidValue(a))
        }
    }
}

pub enum CliOutcome {
    Help,
    Failed(CliErrorView),
    Run(CliScan, Option<(Seq<u8>, u16)>),
}

/// What the command line asks for: help, a run with these settings and
/// this server address, or an error. A server that is not an address is
/// an invalid value; the QuakeWorld mode needs a server.
pub open spec fn spec_parse_args(args: Seq<Seq<char>>) -> CliOutcome {
    match scan(args, initial_scan()) {
        ScanOutcome::Help => CliOutcome::Help,
        ScanOutcome::Failed(e) => CliOutcome::Failed(e),
        ScanOutcome::Done(st) => match st.server {
            Some(v) => match spec_parse_netaddr(v, DEFAULT_SERVER_PORT) {
                Some(addr) => CliOutcome::Run(st, Some(addr)),
                None => CliOutcome::Failed(CliErrorView::InvalidValue(v)),
            },
            None => if st.mode == ClientMode::QuakeWorld {
                CliOutcome::Failed(CliErrorView::MissingServer)
            } else {
                CliOutcome::Run(st, None)
            },
        },
    }
}

pub open spec fn opt_view(o: Option<String>) -> Option<Seq<char>> {
    match o {
        Some(s) => Some(s@),
        None => None,
    }
}

pub open spec fn error_view(e: CliError) -> CliErrorView {
    match e {
        CliError::MissingServer => CliErrorView::MissingServer,
        CliError::MissingValue(s) => CliErrorView::MissingValue(s@),
        CliError::InvalidValue(s) => CliErrorView::InvalidValue(s@),
        CliError::InvalidFlag(s) => CliErrorView::InvalidFlag(s@),
    }
}

/// Whether `a` carries the settings `st` and the server `server`.
pub open spec fn args_match(a: ClientArgs, st: CliScan, server: Option<(Seq<u8>, u16)>) -> bool {
    &&& a.mode == st.mode
    &&& a.qport == st.qport
    &&& opt_view(a.name) == st.name
    &&& opt_view(a.topcolor) == st.topcolor
    &&& opt_view(a.bottomcolor) == st.bottomcolor
    &&& opt_view(a.rate) == st.rate
    &&& opt_view(a.data_dir) == st.data_dir
    &&& opt_view(a.download_dir) == st.download_dir
    &&& match (a.server, server) {
        (Some(x), Some((ip, port))) => x.ip@ == ip && x.port == port,
        (None, None) => true,
        _ => false,
    }
}

pub open spec fn arg_views(args: Seq<String>) -> Seq<Seq<char>> {
    Seq::new(args.len(), |i: int| args[i]@)
}

/// The usage text.
pub fn usage() -> (r: &'static str)
    ensures
        r@ == USAGE_TEXT@,
{
    USAGE_TEXT
}

/// What `usage` gives: the command line and its options.
pub const USAGE_TEXT: &'static str = "Usage: qw-client --connect <ip[:port]> [options]\nOptions:\n  --mode <qw|sp>             Client mode (default qw)\n  -c, --connect <ip[:port]>  Server address (default port 27500)\n  --qport <port>             Client qport (default 27001)\n  --name <name>              Player name\n  --topcolor <0-13>          Top color\n  --bottomcolor <0-13>       Bottom color\n  --rate <value>             Rate (bytes/sec)\n  --data-dir <path>          Override data directory\n  --download-dir <path>      Override download directory\n  -h, --help                 Show this help\n";

fn option_kind_exec(a: &[char]) -> (k: u8)
    ensures
        k == option_kind(a@),
{
    if chars_eq(a, chars_of("--mode").as_slice()) {
        1
    } else if chars_eq(a, chars_of("-c").as_slice()) || chars_eq(a, chars_of("--connect").as_slice()) {
        2
    } else if chars_eq(a, chars_of("--qport").as_slice()) {
        3
    } else if chars_eq(a, chars_of("--name").as_slice()) {
        4
    } else if chars_eq(a, chars_of("--topcolor").as_slice()) {
        5
    } else if chars_eq(a, chars_of("--bottomcolor").as_slice()) {
        6
    } else if chars_eq(a, chars_of("--rate").as_slice()) {
        7
    } else if chars_eq(a, chars_of("--data-dir").as_slice()) {
        8
    } else if chars_eq(a, chars_of("--download-dir").as_slice()) {
        9
    } else {
        0
    }
}

fn lower_exec(s: &[char]) -> (r: Vec<char>)
    ensures
        r@ == lower(s@),
{
    let mut out: Vec<char> = Vec::new();
    let mut i: usize = 0;
    while i < s.len()
        invariant
            i <= s@.len(),
            out@ == lower(s@.take(i as int)),
        decreases s@.len() - i,
    {
        out.push(ascii_lower_exec(s[i]));
        assert(lower(s@.take(i + 1)) =~= lower(s@.take(i as int)).push(ascii_lower(s@[i as int])));
        i = i + 1;
    }
    assert(s@.take(i as int) =~= s@);
    out
}

fn mode_named_exec(v: &[char]) -> (r: Option<ClientMode>)
    ensures
        r == mode_named(v@),
{
    let l = lower_exec(v);
    if chars_eq(l.as_slice(), chars_of("qw").as_slice()) || chars_eq(l.as_slice(), chars_of("quakeworld").as_slice()) {
        Some(ClientMode::QuakeWorld)
    } else if chars_eq(l.as_slice(), chars_of("sp").as_slice()) || chars_eq(l.as_slice(), chars_of("single").as_slice())
        || chars_eq(l.as_slice(), chars_of("singleplayer").as_slice()) {
        Some(ClientMode::SinglePlayer)
    } else {
        None
    }
}

/// Reads the client's command line.
pub fn parse_args(args: Vec<String>) -> (r: Result<CliAction, CliError>)
    ensures
        match spec_parse_args(arg_views(args@)) {
            CliOutcome::Help => r matches Ok(CliAction::Help),
            CliOutcome::Failed(e) => r matches Err(x) && error_view(x) == e,
            CliOutcome::Run(st, server) => r matches Ok(CliAction::Run(a)) && args_match(a, st, server),
        },
{
    let ghost all = arg_views(args@);
    let mut mode = ClientMode::QuakeWorld;
    let mut server_input: Option<String> = None;
    let mut qport: u16 = DEFAULT_QPORT;
    let mut name: Option<String> = None;
    let mut topcolor: Option<String> = None;
    let mut bottomcolor: Option<String> = None;
    let mut rate: Option<String> = None;
    let mut data_dir: Option<String> = None;
    let mut download_dir: Option<String> = None;
    let mut i: usize = 0;
    assert(all.skip(0) =~= all);
    loop
        invariant_except_break
            i <= args@.len(),
            all == arg_views(args@),
            scan(all, initial_scan()) == scan(all.skip(i as int), CliScan {
                mode,
                server: opt_view(server_input),
                qport,
                name: opt_view(name),
                topcolor: opt_view(topcolor),
                bottomcolor: opt_view(bottomcolor),
                rate: opt_view(rate),
                data_dir: opt_view(data_dir),
                download_dir: opt_view(download_dir),
            }),
        ensures
            all == arg_views(args@),
            scan(all, initial_scan()) == ScanOutcome::Done(CliScan {
                mode,
                server: opt_view(server_input),
                qport,
                name: opt_view(name),
                topcolor: opt_view(topcolor),
                bottomcolor: opt_view(bottomcolor),
                rate: opt_view(rate),
                data_dir: opt_view(data_dir),
                download_dir: opt_view(download_dir),
            }),
        decreases args@.len() - i,
    {
        if i >= args.len() {
            assert(all.skip(i as int) =~= Seq::<Seq<char>>::empty());
            break;
        }
        let ghost rest = all.skip(i as int);
        let arg = chars_of(args[i].as_str());
        assert(rest[0] == arg@);
        if chars_eq(arg.as_slice(), chars_of("-h").as_slice()) || chars_eq(arg.as_slice(), chars_of("--help").as_slice()) {
            return Ok(CliAction::Help);
        }
        let kind = option_kind_exec(arg.as_slice());
        if kind != 0 {
            if i + 1 >= args.len() {
                return Err(CliError::MissingValue(args[i].clone()));
            }
            let value = args[i + 1].clone();
            assert(rest[1] == value@);
            assert(rest.skip(2) =~= all.skip(i + 2));
            let vchars = chars_of(value.as_str());
            if kind == 1 {
                match mode_named_exec(vchars.as_slice()) {
                    Some(m) => {
                        mode = m;
                    },
                    None => {
                        return Err(CliError::InvalidValue(value));
                    },
                }
            } else if kind == 2 {
                server_input = Some(value);
            } else if kind == 3 {
                match parse_unsigned(vchars.as_slice(), 65535) {
                    Some(q) => {
                        qport = q as u16;
                    },
                    None => {
                        return Err(CliError::InvalidValue(value));
                    },
                }
            } else if kind == 4 {
                name = Some(value);
            } else if kind == 5 {
                topcolor = Some(value);
            } else if kind == 6 {
                bottomcolor = Some(value);
            } else if kind == 7 {
                rate = Some(value);
            } else if kind == 8 {
                data_dir = Some(value);
            } else {
                download_dir = Some(value);
            }
            i = i + 2;
        } else if arg.len() > 0 && arg[0] == '-' {
            return Err(CliError::InvalidFlag(args[i].clone()));
        } else if server_input.is_none() {
            assert(rest.drop_first() =~= all.skip(i + 1));
            server_input = Some(args[i].clone());
            i = i + 1;
        } else {
            return Err(CliError::InvalidValue(args[i].clone()));
        }
    }
    let server = match server_input {
        Some(value) => match NetAddr::parse(value.as_str(), DEFAULT_SERVER_PORT) {
            Ok(addr) => Some(addr),
            Err(_) => {
                return Err(CliError::InvalidValue(value));
            },
        },
        None => None,
    };
    if mode == ClientMode::QuakeWorld && server.is_none() {
        return Err(CliError::MissingServer);
    }
    Ok(CliAction::Run(ClientArgs { mode, server, qport, name, topcolor, bottomcolor, rate, data_dir, download_dir }))
}

} // verus!

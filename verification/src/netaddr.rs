//! IPv4 addresses with a port, written `a.b.c.d:port`.
use vstd::prelude::*;
use crate::decimal::{
    decimal, spec_parse_unsigned, parse_unsigned, push_decimal, lemma_decimal, lemma_parse_decimal,
};
use crate::text::{chars_of, string_of, split_on, views, split_chars, lemma_split_cons, lemma_split_single};

verus! {

#[derive(Debug, Copy, Clone, PartialEq, Eq)]
pub struct NetAddr {
    pub ip: [u8; 4],
    pub port: u16,
}

#[derive(Debug, Clone, Copy, PartialEq, Eq)]
pub enum NetAddrError {
    InvalidFormat,
}

/// The address that `input` spells, or `None`.
///
/// The text before an optional `:` holds four `.`-separated octets; the
/// text after it is the port, and an empty or missing one gives
/// `default_port`. A second `:` is refused.
pub open spec fn spec_parse_netaddr(input: Seq<char>, default_port: u16) -> Option<(Seq<u8>, u16)> {
    let parts = split_on(input, ':');
    let octets = split_on(parts[0], '.');
    if parts.len() > 2 || octets.len() != 4 {
        None
    } else if !(forall|i: int| 0 <= i < 4 ==> (#[trigger] spec_parse_unsigned(octets[i], 255)) is Some) {
        None
    } else {
        let ip = Seq::new(4, |i: int| spec_parse_unsigned(octets[i], 255)->0 as u8);
        if parts.len() == 2 && parts[1].len() > 0 {
            match spec_parse_unsigned(parts[1], 65535) {
                Some(p) => Some((ip, p as u16)),
                None => None,
            }
        } else {
            Some((ip, default_port))
        }
    }
}

/// The text of an address: `a.b.c.d:port`.
pub open spec fn netaddr_text(ip: Seq<u8>, port: u16) -> Seq<char> {
    decimal(ip[0] as nat) + seq!['.'] + decimal(ip[1] as nat) + seq!['.'] + decimal(ip[2] as nat) + seq!['.']
        + decimal(ip[3] as nat) + seq![':'] + decimal(port as nat)
}

impl NetAddr {
    pub fn new(ip: [u8; 4], port: u16) -> (r: Self)
        ensures
            r.ip@ == ip@,
            r.port == port,
    {
        NetAddr { ip, port }
    }

    /// The address as `a.b.c.d:port`.
    pub fn to_string(&self) -> (s: String)
        ensures
            s@ == netaddr_text(self.ip@, self.port),
    {
        let mut out: Vec<char> = Vec::new();
        push_decimal(&mut out, self.ip[0] as u64);
        out.push('.');
        push_decimal(&mut out, self.ip[1] as u64);
        out.push('.');
        push_decimal(&mut out, self.ip[2] as u64);
        out.push('.');
        push_decimal(&mut out, self.ip[3] as u64);
        out.push(':');
        push_decimal(&mut out, self.port as u64);
        assert(out@ =~= netaddr_text(self.ip@, self.port));
        string_of(out.as_slice())
    }

    /// Reads an address, with `default_port` when the text gives none.
    pub fn parse(input: &str, default_port: u16) -> (r: Result<Self, NetAddrError>)
        ensures
            match spec_parse_netaddr(input@, default_port) {
                Some((ip, port)) => r matches Ok(a) && a.ip@ == ip && a.port == port,
                None => r == Err::<Self, NetAddrError>(NetAddrError::InvalidFormat),
            },
    {
        let chars = chars_of(input);
        assert(chars@.skip(0) =~= chars@);
        let parts = split_chars(chars.as_slice(), 0, ':');
        let ghost sp = split_on(input@, ':');
        assert(parts@.len() == sp.len());
        if parts.len() > 2 {
            return Err(NetAddrError::InvalidFormat);
        }
        assert(parts@[0]@ == sp[0]);
        assert(parts[0]@.skip(0) =~= parts[0]@);
        let octets = split_chars(parts[0].as_slice(), 0, '.');
        let ghost so = split_on(sp[0], '.');
        if octets.len() != 4 {
            return Err(NetAddrError::InvalidFormat);
        }
        let mut ip: [u8; 4] = [0, 0, 0, 0];
        let mut i: usize = 0;
        while i < 4
            invariant
                octets@.len() == 4,
                views(octets@) == so,
                so == split_on(split_on(input@, ':')[0], '.'),
                i <= 4,
                ip@.len() == 4,
                forall|k: int| 0 <= k < i ==> ((#[trigger] spec_parse_unsigned(so[k], 255)) matches Some(v) && ip@[k] == v),
            decreases 4 - i,
        {
            assert(octets@[i as int]@ == so[i as int]);
            match parse_unsigned(octets[i].as_slice(), 255) {
                Some(v) => {
                    ip[i] = v as u8;
                },
                None => {
                    assert(spec_parse_unsigned(so[i as int], 255) is None);
                    return Err(NetAddrError::InvalidFormat);
                },
            }
            i = i + 1;
        }
        let ghost ipseq = Seq::new(4, |k: int| spec_parse_unsigned(so[k], 255)->0 as u8);
        assert(ip@ =~= ipseq);
        let port = if parts.len() == 2 && parts[1].len() > 0 {
            assert(parts@[1]@ == sp[1]);
            match parse_unsigned(parts[1].as_slice(), 65535) {
                Some(p) => p as u16,
                None => {
                    return Err(NetAddrError::InvalidFormat);
                },
            }
        } else {
            default_port
        };
        Ok(NetAddr { ip, port })
    }
}

/// Reading back the text of an address gives the address, whatever the
/// default port.
pub proof fn law_netaddr_text_round_trip(ip: Seq<u8>, port: u16, default_port: u16)
    requires
        ip.len() == 4,
    ensures
        spec_parse_netaddr(netaddr_text(ip, port), default_port) == Some((ip, port)),
{
    let d0 = decimal(ip[0] as nat);
    let d1 = decimal(ip[1] as nat);
    let d2 = decimal(ip[2] as nat);
    let d3 = decimal(ip[3] as nat);
    let dp = decimal(port as nat);
    lemma_decimal(ip[0] as nat);
    lemma_decimal(ip[1] as nat);
    lemma_decimal(ip[2] as nat);
    lemma_decimal(ip[3] as nat);
    lemma_decimal(port as nat);
    let host = d0 + seq!['.'] + d1 + seq!['.'] + d2 + seq!['.'] + d3;
    let text = netaddr_text(ip, port);
    assert(text =~= host + seq![':'] + dp);
    assert(!host.contains(':')) by {
        if host.contains(':') {
            let k = choose|k: int| 0 <= k < host.len() && host[k] == ':';
            if k < d0.len() {
                assert(d0[k] == ':');
            } else if k < d0.len() + 1 {
            } else if k < d0.len() + 1 + d1.len() {
                assert(d1[k - d0.len() - 1] == ':');
            } else if k < d0.len() + 2 + d1.len() {
            } else if k < d0.len() + 2 + d1.len() + d2.len() {
                assert(d2[k - d0.len() - 2 - d1.len()] == ':');
            } else if k < d0.len() + 3 + d1.len() + d2.len() {
            } else {
                assert(d3[k - d0.len() - 3 - d1.len() - d2.len()] == ':');
            }
        }
    }
    lemma_split_cons(host, dp, ':');
    lemma_split_single(dp, ':');
    assert(split_on(text, ':') =~= seq![host, dp]);
    let r3 = d3;
    let r2 = d2 + seq!['.'] + d3;
    let r1 = d1 + seq!['.'] + r2;
    assert(host =~= d0 + seq!['.'] + r1);
    assert(r1 =~= d1 + seq!['.'] + r2);
    lemma_split_single(d3, '.');
    lemma_split_cons(d2, d3, '.');
    lemma_split_cons(d1, r2, '.');
    lemma_split_cons(d0, r1, '.');
    let octets = split_on(host, '.');
    assert(octets =~= seq![d0, d1, d2, d3]);
    lemma_parse_decimal(ip[0] as nat, 255);
    lemma_parse_decimal(ip[1] as nat, 255);
    lemma_parse_decimal(ip[2] as nat, 255);
    lemma_parse_decimal(ip[3] as nat, 255);
    lemma_parse_decimal(port as nat, 65535);
    assert(forall|i: int| 0 <= i < 4 ==> (#[trigger] spec_parse_unsigned(octets[i], 255)) == Some(ip[i] as nat));
    assert(Seq::new(4, |i: int| spec_parse_unsigned(octets[i], 255)->0 as u8) =~= ip);
}

} // verus!

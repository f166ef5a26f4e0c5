//! Socket addresses as plain values.

use vstd::prelude::*;
use vstd::string::*;

use crate::digits::{dec_seq, push_dec};
use crate::text::{chars_of, str_eq};

verus! {

/// A TCP endpoint. An IPv6 address carries its canonical text, which the
/// network stack supplies together with the octets.
#[derive(Debug, PartialEq, Eq)]
pub enum SocketAddr {
    V4 { ip: [u8; 4], port: u16 },
    V6 { octets: [u8; 16], ip_text: String, port: u16, flowinfo: u32, scope_id: u32 },
}

/// Model of [`SocketAddr`].
pub enum AddrView {
    V4 { ip: Seq<u8>, port: u16 },
    V6 { octets: Seq<u8>, ip_text: Seq<char>, port: u16, flowinfo: u32, scope_id: u32 },
}

impl View for SocketAddr {
    type V = AddrView;

    open spec fn view(&self) -> AddrView {
        match self {
            SocketAddr::V4 { ip, port } => AddrView::V4 { ip: ip@, port: *port },
            SocketAddr::V6 { octets, ip_text, port, flowinfo, scope_id } => AddrView::V6 {
                octets: octets@,
                ip_text: ip_text@,
                port: *port,
                flowinfo: *flowinfo,
                scope_id: *scope_id,
            },
        }
    }
}

impl Clone for SocketAddr {
    fn clone(&self) -> (r: Self)
        ensures
            r@ == self@,
    {
        match self {
            SocketAddr::V4 { ip, port } => SocketAddr::V4 { ip: *ip, port: *port },
            SocketAddr::V6 { octets, ip_text, port, flowinfo, scope_id } => SocketAddr::V6 {
                octets: *octets,
                ip_text: ip_text.clone(),
                port: *port,
                flowinfo: *flowinfo,
                scope_id: *scope_id,
            },
        }
    }
}

impl AddrView {
    /// The port of the endpoint.
    pub open spec fn port(self) -> u16 {
        match self {
            AddrView::V4 { port, .. } => port,
            AddrView::V6 { port, .. } => port,
        }
    }

    /// The text of the address without the port.
    pub open spec fn ip_chars(self) -> Seq<char> {
        match self {
            AddrView::V4 { ip, .. } => dec_seq(ip[0] as nat).push('.') + dec_seq(
                ip[1] as nat,
            ).push('.') + dec_seq(ip[2] as nat).push('.') + dec_seq(ip[3] as nat),
            AddrView::V6 { ip_text, .. } => ip_text,
        }
    }

    /// The text of the endpoint: `a.b.c.d:port`, `[ip]:port` or
    /// `[ip%scope]:port`.
    pub open spec fn chars(self) -> Seq<char> {
        match self {
            AddrView::V4 { port, .. } => self.ip_chars().push(':') + dec_seq(port as nat),
            AddrView::V6 { port, scope_id, .. } => {
                let zone = if scope_id == 0 {
                    Seq::<char>::empty()
                } else {
                    seq!['%'] + dec_seq(scope_id as nat)
                };
                seq!['['] + self.ip_chars() + zone + seq![']', ':'] + dec_seq(port as nat)
            },
        }
    }
}

impl SocketAddr {
    /// The port of the endpoint.
    pub fn port(&self) -> (p: u16)
        ensures
            p == self@.port(),
    {
        match self {
            SocketAddr::V4 { port, .. } => *port,
            SocketAddr::V6 { port, .. } => *port,
        }
    }

    /// The text of the address without the port.
    pub fn ip_string(&self) -> (s: String)
        ensures
            s@ == self@.ip_chars(),
    {
        match self {
            SocketAddr::V4 { ip, .. } => {
                let mut s = String::new();
                push_dec(&mut s, ip[0] as u128);
                s.push('.');
                push_dec(&mut s, ip[1] as u128);
                s.push('.');
                push_dec(&mut s, ip[2] as u128);
                s.push('.');
                push_dec(&mut s, ip[3] as u128);
                assert(s@ =~= self@.ip_chars());
                s
            },
            SocketAddr::V6 { ip_text, .. } => ip_text.clone(),
        }
    }

    /// The text of the endpoint.
    pub fn to_string(&self) -> (s: String)
        ensures
            s@ == self@.chars(),
    {
        let ip = self.ip_string();
        let mut s = String::new();
        match self {
            SocketAddr::V4 { port, .. } => {
                s.append(ip.as_str());
                s.push(':');
                push_dec(&mut s, *port as u128);
            },
            SocketAddr::V6 { port, scope_id, .. } => {
                s.push('[');
                s.append(ip.as_str());
                if *scope_id != 0 {
                    s.push('%');
                    push_dec(&mut s, *scope_id as u128);
                }
                s.push(']');
                s.push(':');
                push_dec(&mut s, *port as u128);
            },
        }
        assert(s@ =~= self@.chars());
        s
    }

    /// Whether two endpoints are the same.
    pub fn same(&self, other: &SocketAddr) -> (r: bool)
        ensures
            r == (self@ == other@),
    {
        match (self, other) {
            (SocketAddr::V4 { ip: a, port: p }, SocketAddr::V4 { ip: b, port: q }) => {
                *p == *q && same_octets(a.as_slice(), b.as_slice())
            },
            (
                SocketAddr::V6 { octets: a, ip_text: s, port: p, flowinfo: f, scope_id: x },
                SocketAddr::V6 { octets: b, ip_text: t, port: q, flowinfo: g, scope_id: y },
            ) => {
                *p == *q && *f == *g && *x == *y && same_octets(a.as_slice(), b.as_slice())
                    && str_eq(s.as_str(), t.as_str())
            },
            _ => false,
        }
    }
}

/// Whether two byte sequences are the same.
pub fn same_octets(a: &[u8], b: &[u8]) -> (r: bool)
    ensures
        r == (a@ == b@),
{
    if a.len() != b.len() {
        return false;
    }
    let mut i: usize = 0;
    while i < a.len()
        invariant
            i <= a@.len(),
            a@.len() == b@.len(),
            forall|j: int| 0 <= j < i ==> a@[j] == b@[j],
        decreases a@.len() - i,
    {
        if a[i] != b[i] {
            return false;
        }
        i += 1;
    }
    assert(a@ =~= b@);
    true
}

/// `s` with `to` in place of every `from`.
pub open spec fn replace_char(s: Seq<char>, from: char, to: char) -> Seq<char> {
    Seq::new(
        s.len(),
        |i: int|
            if s[i] == from {
                to
            } else {
                s[i]
            },
    )
}

/// `s` with `to` in place of every `from`.
pub fn replace(s: &str, from: char, to: char) -> (r: String)
    ensures
        r@ == replace_char(s@, from, to),
{
    let cs = chars_of(s);
    let mut r = String::new();
    let mut i: usize = 0;
    while i < cs.len()
        invariant
            i <= cs@.len(),
            cs@ == s@,
            r@ == replace_char(s@.take(i as int), from, to),
        decreases cs@.len() - i,
    {
        r.push(
            if cs[i] == from {
                to
            } else {
                cs[i]
            },
        );
        assert(r@ =~= replace_char(s@.take(i + 1), from, to));
        i += 1;
    }
    assert(s@.take(i as int) =~= s@);
    r
}

/// The text of an endpoint is its address, a `:` and its port; an IPv6 address stands
/// in brackets, with its zone if it has one.
pub proof fn endpoints_show_address_and_port(a: AddrView)
    ensures
        a matches AddrView::V4 { ip, port } ==> a.chars() == dec_seq(ip[0] as nat) + seq!['.']
            + dec_seq(ip[1] as nat) + seq!['.'] + dec_seq(ip[2] as nat) + seq!['.'] + dec_seq(
            ip[3] as nat,
        ) + seq![':'] + dec_seq(port as nat),
        a matches AddrView::V6 { ip_text, port, scope_id, .. } ==> a.chars() == (if scope_id == 0 {
            seq!['['] + ip_text + seq![']', ':'] + dec_seq(port as nat)
        } else {
            seq!['['] + ip_text + seq!['%'] + dec_seq(scope_id as nat) + seq![']', ':'] + dec_seq(
                port as nat,
            )
        }),
{
    if let AddrView::V4 { ip, port } = a {
        assert(a.chars() =~= dec_seq(ip[0] as nat) + seq!['.'] + dec_seq(ip[1] as nat) + seq!['.']
            + dec_seq(ip[2] as nat) + seq!['.'] + dec_seq(ip[3] as nat) + seq![':'] + dec_seq(
            port as nat,
        ));
    }
    if let AddrView::V6 { ip_text, port, scope_id, .. } = a {
        assert(a.chars() =~= if scope_id == 0 {
            seq!['['] + ip_text + seq![']', ':'] + dec_seq(port as nat)
        } else {
            seq!['['] + ip_text + seq!['%'] + dec_seq(scope_id as nat) + seq![']', ':'] + dec_seq(
                port as nat,
            )
        });
    }
}

} // verus!

//! The SOCKS5 side of a dynamic forward, as a state machine: the caller
//! reads exactly as many bytes as the current phase asks for, hands them
//! in, writes the reply (if any) and follows the next phase. Only CONNECT
//! without authentication is served.

use vstd::prelude::*;
use crate::text::{lossy_text, push_char, utf8_lossy};

verus! {

/// Why a client is turned away.
#[derive(PartialEq, Eq, Structural)]
pub enum Socks5Error {
    /// The greeting's version byte is not 5.
    NotSocks5,
    /// The request asks for something other than CONNECT.
    OnlyConnect,
    /// The request's address type is not IPv4 (1), a domain name (3) or IPv6 (4).
    BadAddressType,
}

/// The destination of a CONNECT, as sent by the client.
pub enum Socks5Host {
    /// Four address bytes.
    Ipv4(Vec<u8>),
    /// The name's bytes.
    Domain(Vec<u8>),
    /// Sixteen address bytes.
    Ipv6(Vec<u8>),
}

/// Where the client wants to go.
pub struct Socks5Target {
    pub host: Socks5Host,
    pub port: u16,
}

/// Where the exchange stands.
pub enum Socks5Phase {
    /// Awaiting version and method count (2 bytes).
    Greeting,
    /// Awaiting the offered methods (this many bytes, ignored).
    Methods(u8),
    /// Awaiting version, command, reserved byte and address type (4 bytes).
    Request,
    /// Awaiting an IPv4 address (4 bytes).
    Ipv4Address,
    /// Awaiting a domain name's length (1 byte).
    DomainLength,
    /// Awaiting a domain name of this many bytes.
    DomainName(u8),
    /// Awaiting an IPv6 address (16 bytes).
    Ipv6Address,
    /// Awaiting the big-endian port (2 bytes).
    Port(Socks5Host),
    /// Ready to open the forward channel to the target.
    Connect(Socks5Target),
    /// The channel is open: relay both ways.
    Relay,
    /// Closed after a refused connection.
    Done,
    /// Closed on a protocol error.
    Failed(Socks5Error),
}

/// How many bytes the phase waits for (`None` when it waits for none).
pub open spec fn bytes_wanted(phase: Socks5Phase) -> Option<nat> {
    match phase {
        Socks5Phase::Greeting => Some(2),
        Socks5Phase::Methods(n) => Some(n as nat),
        Socks5Phase::Request => Some(4),
        Socks5Phase::Ipv4Address => Some(4),
        Socks5Phase::DomainLength => Some(1),
        Socks5Phase::DomainName(n) => Some(n as nat),
        Socks5Phase::Ipv6Address => Some(16),
        Socks5Phase::Port(_) => Some(2),
        _ => None,
    }
}

/// A server reply with the given code and a zero IPv4 bound address.
pub open spec fn reply_with(code: u8) -> Seq<u8> {
    seq![5u8, code, 0, 1, 0, 0, 0, 0, 0, 0]
}

/// The phase after the bytes the current phase waited for, and the reply
/// to write first, if any.
pub open spec fn socks5_next(phase: Socks5Phase, data: Seq<u8>) -> (Socks5Phase, Option<Seq<u8>>) {
    match phase {
        Socks5Phase::Greeting => if data[0] != 5 {
            (Socks5Phase::Failed(Socks5Error::NotSocks5), None)
        } else {
            (Socks5Phase::Methods(data[1]), None)
        },
        Socks5Phase::Methods(_) => (Socks5Phase::Request, Some(seq![5u8, 0])),
        Socks5Phase::Request => if data[1] != 1 {
            (Socks5Phase::Failed(Socks5Error::OnlyConnect), Some(reply_with(7)))
        } else if data[3] == 1 {
            (Socks5Phase::Ipv4Address, None)
        } else if data[3] == 3 {
            (Socks5Phase::DomainLength, None)
        } else if data[3] == 4 {
            (Socks5Phase::Ipv6Address, None)
        } else {
            (Socks5Phase::Failed(Socks5Error::BadAddressType), Some(reply_with(8)))
        },
        Socks5Phase::DomainLength => (Socks5Phase::DomainName(data[0]), None),
        _ => (phase, None),
    }
}

/// The big-endian 16-bit number in two bytes.
pub open spec fn be_u16(hi: u8, lo: u8) -> u16 {
    (hi as int * 256 + lo as int) as u16
}

/// Feeds the bytes the current phase waited for. Returns the next phase and
/// the reply to write before going on.
pub fn socks5_on_bytes(phase: Socks5Phase, data: Vec<u8>) -> (r: (Socks5Phase, Option<Vec<u8>>))
    requires
        bytes_wanted(phase) is Some,
        data@.len() == bytes_wanted(phase)->0,
    ensures
        match phase {
            Socks5Phase::Ipv4Address => r.0 matches Socks5Phase::Port(Socks5Host::Ipv4(a)) && a@
                == data@ && r.1 is None,
            Socks5Phase::DomainName(_) => r.0 matches Socks5Phase::Port(Socks5Host::Domain(d))
                && d@ == data@ && r.1 is None,
            Socks5Phase::Ipv6Address => r.0 matches Socks5Phase::Port(Socks5Host::Ipv6(a)) && a@
                == data@ && r.1 is None,
            Socks5Phase::Port(h) => r.0 matches Socks5Phase::Connect(t) && t.host == h && t.port
                == be_u16(data@[0], data@[1]) && r.1 is None,
            _ => {
                let (next, reply) = socks5_next(phase, data@);
                &&& r.0 == next
                &&& match reply {
                    Some(bytes) => r.1 matches Some(v) && v@ == bytes,
                    None => r.1 is None,
                }
            },
        },
{
    match phase {
        Socks5Phase::Greeting => {
            if data[0] != 5 {
                (Socks5Phase::Failed(Socks5Error::NotSocks5), None)
            } else {
                (Socks5Phase::Methods(data[1]), None)
            }
        },
        Socks5Phase::Methods(_) => {
            let v: Vec<u8> = vec![5u8, 0];
            assert(v@ =~= seq![5u8, 0]);
            (Socks5Phase::Request, Some(v))
        },
        Socks5Phase::Request => {
            if data[1] != 1 {
                (Socks5Phase::Failed(Socks5Error::OnlyConnect), Some(reply(7)))
            } else if data[3] == 1 {
                (Socks5Phase::Ipv4Address, None)
            } else if data[3] == 3 {
                (Socks5Phase::DomainLength, None)
            } else if data[3] == 4 {
                (Socks5Phase::Ipv6Address, None)
            } else {
                (Socks5Phase::Failed(Socks5Error::BadAddressType), Some(reply(8)))
            }
        },
        Socks5Phase::Ipv4Address => (Socks5Phase::Port(Socks5Host::Ipv4(data)), None),
        Socks5Phase::DomainLength => (Socks5Phase::DomainName(data[0]), None),
        Socks5Phase::DomainName(_) => (Socks5Phase::Port(Socks5Host::Domain(data)), None),
        Socks5Phase::Ipv6Address => (Socks5Phase::Port(Socks5Host::Ipv6(data)), None),
        Socks5Phase::Port(h) => {
            let port = (data[0] as u16) * 256 + (data[1] as u16);
            (Socks5Phase::Connect(Socks5Target { host: h, port }), None)
        },
        _ => (phase, None),
    }
}

/// A reply with the given code (see [`reply_with`]).
pub fn reply(code: u8) -> (v: Vec<u8>)
    ensures
        v@ == reply_with(code),
{
    let v: Vec<u8> = vec![5u8, code, 0, 1, 0, 0, 0, 0, 0, 0];
    assert(v@ =~= reply_with(code));
    v
}

/// After trying to open the forward channel: on success the client is told
/// so (code 0) and the relay starts; otherwise it is told the connection
/// was refused (code 5) and the exchange ends.
pub fn socks5_on_connect(opened: bool) -> (r: (Socks5Phase, Vec<u8>))
    ensures
        opened ==> r.0 is Relay && r.1@ == reply_with(0),
        !opened ==> r.0 is Done && r.1@ == reply_with(5),
{
    if opened {
        (Socks5Phase::Relay, reply(0))
    } else {
        (Socks5Phase::Done, reply(5))
    }
}

/// How many bytes the phase waits for (see [`bytes_wanted`]).
pub fn socks5_wants(phase: &Socks5Phase) -> (n: Option<usize>)
    ensures
        match bytes_wanted(*phase) {
            Some(k) => n == Some(k as usize),
            None => n is None,
        },
{
    match phase {
        Socks5Phase::Greeting => Some(2),
        Socks5Phase::Methods(n) => Some(*n as usize),
        Socks5Phase::Request => Some(4),
        Socks5Phase::Ipv4Address => Some(4),
        Socks5Phase::DomainLength => Some(1),
        Socks5Phase::DomainName(n) => Some(*n as usize),
        Socks5Phase::Ipv6Address => Some(16),
        Socks5Phase::Port(_) => Some(2),
        _ => None,
    }
}

/// The decimal digits of a byte, without leading zeros.
pub open spec fn decimal_u8(x: u8) -> Seq<char> {
    let d = |k: int| (('0' as int) + k) as char;
    if x >= 100 {
        seq![d(x as int / 100), d((x as int / 10) % 10), d(x as int % 10)]
    } else if x >= 10 {
        seq![d(x as int / 10), d(x as int % 10)]
    } else {
        seq![d(x as int)]
    }
}

/// Each octet is written as its decimal numeral: the digits read back as the
/// byte, and there is no leading zero (a single `0` for zero).
pub proof fn lemma_decimal_u8_reads_back(x: u8)
    ensures
        decimal_u8(x).len() >= 1,
        forall|i: int| 0 <= i < decimal_u8(x).len() ==> crate::text::is_digit(#[trigger] decimal_u8(x)[i]),
        crate::text::digits_value(decimal_u8(x)) == x as int,
        decimal_u8(x)[0] == '0' ==> x == 0,
{
    let s = decimal_u8(x);
    let h = x as int / 100;
    let t = (x as int / 10) % 10;
    let u = x as int % 10;
    let e = Seq::<char>::empty();
    assert(crate::text::digits_value(e) == 0);
    assert(0 <= u < 10 && 0 <= t < 10);
    assert(('0' as int + u) as char as int == 48 + u);
    assert(('0' as int + t) as char as int == 48 + t);
    if x >= 100 {
        assert(1 <= h <= 2);
        assert(('0' as int + h) as char as int == 48 + h);
        let a = seq![s[0]];
        let b = seq![s[0], s[1]];
        assert(a.drop_last() =~= e);
        assert(crate::text::digits_value(a) == h);
        assert(b.drop_last() =~= a);
        assert(crate::text::digits_value(b) == h * 10 + t);
        assert(s.drop_last() =~= b);
        assert(crate::text::digits_value(s) == (h * 10 + t) * 10 + u);
        assert(x as int == h * 100 + t * 10 + u);
    } else if x >= 10 {
        let t2 = x as int / 10;
        assert(1 <= t2 <= 9);
        assert(('0' as int + t2) as char as int == 48 + t2);
        let a = seq![s[0]];
        assert(a.drop_last() =~= e);
        assert(crate::text::digits_value(a) == t2);
        assert(s.drop_last() =~= a);
        assert(crate::text::digits_value(s) == t2 * 10 + u);
        assert(x as int == t2 * 10 + u);
    } else {
        assert(('0' as int + x as int) as char as int == 48 + x as int);
        assert(s.drop_last() =~= e);
    }
}

/// Dotted-quad text of four IPv4 address bytes, e.g. `10.0.0.1`.
pub open spec fn ipv4_text_spec(a: Seq<u8>) -> Seq<char> {
    decimal_u8(a[0]) + seq!['.'] + decimal_u8(a[1]) + seq!['.'] + decimal_u8(a[2]) + seq!['.']
        + decimal_u8(a[3])
}

fn digit_char(k: u8) -> (c: char)
    requires
        k < 10,
    ensures
        c == (('0' as int) + k) as char,
{
    (48u8 + k) as char
}

fn push_decimal(s: &mut String, x: u8)
    ensures
        final(s)@ == old(s)@ + decimal_u8(x),
{
    let ghost s0 = s@;
    if x >= 100 {
        push_char(s, digit_char(x / 100));
        push_char(s, digit_char((x / 10) % 10));
        push_char(s, digit_char(x % 10));
    } else if x >= 10 {
        push_char(s, digit_char(x / 10));
        push_char(s, digit_char(x % 10));
    } else {
        push_char(s, digit_char(x));
    }
    assert(s@ =~= s0 + decimal_u8(x));
}

/// The dotted-quad text of an IPv4 address.
pub fn ipv4_text(a: &[u8]) -> (s: String)
    requires
        a@.len() == 4,
    ensures
        s@ == ipv4_text_spec(a@),
{
    let mut s = String::new();
    push_decimal(&mut s, a[0]);
    push_char(&mut s, '.');
    push_decimal(&mut s, a[1]);
    push_char(&mut s, '.');
    push_decimal(&mut s, a[2]);
    push_char(&mut s, '.');
    push_decimal(&mut s, a[3]);
    assert(s@ =~= ipv4_text_spec(a@));
    s
}

/// The text of a target host that the forward channel is opened to: the
/// dotted quad of an IPv4 address, or the name (lossy UTF-8). IPv6
/// addresses are left to `std::net` formatting by the caller (`None`).
pub fn host_text(host: &Socks5Host) -> (s: Option<String>)
    ensures
        match host {
            Socks5Host::Ipv4(a) => if a@.len() == 4 {
                s matches Some(t) && t@ == ipv4_text_spec(a@)
            } else {
                s is None
            },
            Socks5Host::Domain(d) => s matches Some(t) && t@ == utf8_lossy(d@),
            Socks5Host::Ipv6(_) => s is None,
        },
{
    match host {
        Socks5Host::Ipv4(a) => {
            if a.len() == 4 {
                Some(ipv4_text(a.as_slice()))
            } else {
                None
            }
        },
        Socks5Host::Domain(d) => Some(lossy_text(d.as_slice())),
        Socks5Host::Ipv6(_) => None,
    }
}

} // verus!

//! Sockets for user processes: Unix domain and network sockets, addresses,
//! buffers, bind/listen/accept/connect, send and receive, options and polling.

use vstd::prelude::*;
use crate::idmap::IdMap;
use vstd::string::StringSliceAdditionalSpecFns;
use crate::text::{decimal, push_decimal};

verus! {

// ══════════════════════════════════════════════════════════════════════════════
// Socket types
// ══════════════════════════════════════════════════════════════════════════════

#[derive(Clone, Copy, Debug, PartialEq, Eq, Structural)]
pub enum SocketDomain {
    /// Unix domain socket (local, path based).
    Unix,
    /// IPv4 network socket.
    Inet,
    /// IPv6 network socket.
    Inet6,
}

impl SocketDomain {
    pub fn as_str(&self) -> (r: &'static str)
        ensures
            r@ == (match *self {
                SocketDomain::Unix => "AF_UNIX"@,
                SocketDomain::Inet => "AF_INET"@,
                SocketDomain::Inet6 => "AF_INET6"@,
            }),
    {
        match self {
            SocketDomain::Unix => "AF_UNIX",
            SocketDomain::Inet => "AF_INET",
            SocketDomain::Inet6 => "AF_INET6",
        }
    }

    pub fn is_local(&self) -> (r: bool)
        ensures
            r == (*self == SocketDomain::Unix),
    {
        match self {
            SocketDomain::Unix => true,
            _ => false,
        }
    }

    pub fn is_network(&self) -> (r: bool)
        ensures
            r == (*self != SocketDomain::Unix),
    {
        !self.is_local()
    }
}

#[derive(Clone, Copy, Debug, PartialEq, Eq, Structural)]
pub enum SocketType {
    /// Connection oriented and reliable (TCP, Unix stream).
    Stream,
    /// Connectionless datagrams (UDP, Unix datagram).
    Datagram,
    /// Raw IP (root only).
    Raw,
    /// Sequenced packets.
    SeqPacket,
}

impl SocketType {
    pub fn as_str(&self) -> (r: &'static str)
        ensures
            r@ == (match *self {
                SocketType::Stream => "SOCK_STREAM"@,
                SocketType::Datagram => "SOCK_DGRAM"@,
                SocketType::Raw => "SOCK_RAW"@,
                SocketType::SeqPacket => "SOCK_SEQPACKET"@,
            }),
    {
        match self {
            SocketType::Stream => "SOCK_STREAM",
            SocketType::Datagram => "SOCK_DGRAM",
            SocketType::Raw => "SOCK_RAW",
            SocketType::SeqPacket => "SOCK_SEQPACKET",
        }
    }

    pub open spec fn connection_oriented(self) -> bool {
        self == SocketType::Stream || self == SocketType::SeqPacket
    }

    pub fn is_connection_oriented(&self) -> (r: bool)
        ensures
            r == self.connection_oriented(),
    {
        match self {
            SocketType::Stream | SocketType::SeqPacket => true,
            _ => false,
        }
    }

    pub fn is_connectionless(&self) -> (r: bool)
        ensures
            r == (*self == SocketType::Datagram),
    {
        match self {
            SocketType::Datagram => true,
            _ => false,
        }
    }

    pub fn requires_root(&self) -> (r: bool)
        ensures
            r == (*self == SocketType::Raw),
    {
        match self {
            SocketType::Raw => true,
            _ => false,
        }
    }
}

#[derive(Clone, Copy, Debug, PartialEq, Eq, Structural)]
pub enum SocketProtocol {
    /// 0.
    Default,
    /// IPPROTO_TCP = 6.
    Tcp,
    /// IPPROTO_UDP = 17.
    Udp,
    /// IPPROTO_RAW = 255.
    Raw,
    /// IPPROTO_ICMP = 1.
    Icmp,
}

impl SocketProtocol {
    pub open spec fn number(self) -> u8 {
        match self {
            SocketProtocol::Default => 0,
            SocketProtocol::Tcp => 6,
            SocketProtocol::Udp => 17,
            SocketProtocol::Raw => 255,
            SocketProtocol::Icmp => 1,
        }
    }

    /// The protocol with number `v`; unknown numbers give `Default`.
    pub fn from_u8(v: u8) -> (p: Self)
        ensures
            p == (if v == 6 {
                SocketProtocol::Tcp
            } else if v == 17 {
                SocketProtocol::Udp
            } else if v == 255 {
                SocketProtocol::Raw
            } else if v == 1 {
                SocketProtocol::Icmp
            } else {
                SocketProtocol::Default
            }),
    {
        if v == 6 {
            SocketProtocol::Tcp
        } else if v == 17 {
            SocketProtocol::Udp
        } else if v == 255 {
            SocketProtocol::Raw
        } else if v == 1 {
            SocketProtocol::Icmp
        } else {
            SocketProtocol::Default
        }
    }

    pub fn to_u8(&self) -> (r: u8)
        ensures
            r == self.number(),
    {
        match self {
            SocketProtocol::Default => 0,
            SocketProtocol::Tcp => 6,
            SocketProtocol::Udp => 17,
            SocketProtocol::Raw => 255,
            SocketProtocol::Icmp => 1,
        }
    }

    pub fn as_str(&self) -> (r: &'static str)
        ensures
            r@ == (match *self {
                SocketProtocol::Default => "DEFAULT"@,
                SocketProtocol::Tcp => "TCP"@,
                SocketProtocol::Udp => "UDP"@,
                SocketProtocol::Raw => "RAW"@,
                SocketProtocol::Icmp => "ICMP"@,
            }),
    {
        match self {
            SocketProtocol::Default => "DEFAULT",
            SocketProtocol::Tcp => "TCP",
            SocketProtocol::Udp => "UDP",
            SocketProtocol::Raw => "RAW",
            SocketProtocol::Icmp => "ICMP",
        }
    }
}

// ══════════════════════════════════════════════════════════════════════════════
// Socket address
// ══════════════════════════════════════════════════════════════════════════════

/// Longest Unix socket path, in bytes (UNIX_PATH_MAX).
pub const UNIX_PATH_MAX: usize = 108;

#[derive(Debug)]
#[allow(inconsistent_fields)]
pub enum SocketAddr {
    /// Unix domain socket path.
    Unix(String),
    /// IPv4 address and port.
    Inet { addr: [u8; 4], port: u16 },
    /// IPv6 address and port.
    Inet6 { addr: [u8; 16], port: u16 },
}

/// Lowercase hexadecimal digit.
pub open spec fn hex_char(d: nat) -> char {
    if d < 10 {
        crate::text::digit_char(d)
    } else if d == 10 {
        'a'
    } else if d == 11 {
        'b'
    } else if d == 12 {
        'c'
    } else if d == 13 {
        'd'
    } else if d == 14 {
        'e'
    } else {
        'f'
    }
}

/// A byte as two lowercase hexadecimal digits.
pub open spec fn hex2(b: u8) -> Seq<char> {
    seq![hex_char((b / 16) as nat), hex_char((b % 16) as nat)]
}

/// The IPv6 bytes `a[0..n]` written as colon-separated groups of two bytes.
pub open spec fn hex_groups(a: Seq<u8>, n: nat) -> Seq<char>
    decreases n,
{
    if n == 0 {
        Seq::empty()
    } else {
        let k = (n - 1) as nat;
        let sep = if k > 0 && k % 2 == 0 { seq![':'] } else { Seq::<char>::empty() };
        hex_groups(a, k) + sep + hex2(a[k as int])
    }
}

/// The text of an address: the path of a Unix address, `a.b.c.d:port` for
/// IPv4, `[xxxx:...:xxxx]:port` for IPv6.
pub open spec fn addr_text(a: SocketAddr) -> Seq<char> {
    match a {
        SocketAddr::Unix(p) => p@,
        SocketAddr::Inet { addr, port } => decimal(addr[0] as nat) + "."@ + decimal(addr[1] as nat) + "."@
            + decimal(addr[2] as nat) + "."@ + decimal(addr[3] as nat) + ":"@ + decimal(port as nat),
        SocketAddr::Inet6 { addr, port } => "["@ + hex_groups(addr@, 16) + "]:"@ + decimal(port as nat),
    }
}

/// Two addresses are the same address.
pub open spec fn same_addr(a: SocketAddr, b: SocketAddr) -> bool {
    match (a, b) {
        (SocketAddr::Unix(p), SocketAddr::Unix(q)) => p@ == q@,
        (SocketAddr::Inet { addr: x, port: p }, SocketAddr::Inet { addr: y, port: q }) => x@ == y@ && p == q,
        (SocketAddr::Inet6 { addr: x, port: p }, SocketAddr::Inet6 { addr: y, port: q }) => x@ == y@ && p
            == q,
        _ => false,
    }
}

/// Whether `a` and `b` name the same place to bind.
fn same_place_exec(a: &SocketAddr, b: &SocketAddr) -> (r: bool)
    ensures
        r == same_place(*a, *b),
{
    match (a, b) {
        (SocketAddr::Unix(p), SocketAddr::Unix(q)) => *p == *q,
        (SocketAddr::Inet { port: p, .. }, SocketAddr::Inet { port: q, .. }) => *p == *q,
        _ => false,
    }
}

fn hex_digit(d: u8) -> (s: &'static str)
    requires
        d < 16,
    ensures
        s@ == seq![hex_char(d as nat)],
{
    proof {
        reveal_strlit("0");
        reveal_strlit("1");
        reveal_strlit("2");
        reveal_strlit("3");
        reveal_strlit("4");
        reveal_strlit("5");
        reveal_strlit("6");
        reveal_strlit("7");
        reveal_strlit("8");
        reveal_strlit("9");
        reveal_strlit("a");
        reveal_strlit("b");
        reveal_strlit("c");
        reveal_strlit("d");
        reveal_strlit("e");
        reveal_strlit("f");
    }
    let s = if d == 0 {
        "0"
    } else if d == 1 {
        "1"
    } else if d == 2 {
        "2"
    } else if d == 3 {
        "3"
    } else if d == 4 {
        "4"
    } else if d == 5 {
        "5"
    } else if d == 6 {
        "6"
    } else if d == 7 {
        "7"
    } else if d == 8 {
        "8"
    } else if d == 9 {
        "9"
    } else if d == 10 {
        "a"
    } else if d == 11 {
        "b"
    } else if d == 12 {
        "c"
    } else if d == 13 {
        "d"
    } else if d == 14 {
        "e"
    } else {
        "f"
    };
    assert(s@ =~= seq![hex_char(d as nat)]);
    s
}

impl SocketAddr {
    /// A Unix address; paths longer than `UNIX_PATH_MAX` bytes keep their first
    /// `UNIX_PATH_MAX` bytes, which must end on a character boundary.
    pub fn unix(path: &str) -> (a: Self)
        requires
            path.len() > UNIX_PATH_MAX ==> vstd::utf8::is_char_boundary(
                path.spec_bytes(),
                UNIX_PATH_MAX as int,
            ),
        ensures
            a is Unix,
            path.len() <= UNIX_PATH_MAX ==> a->0@ == path@,
            path.len() > UNIX_PATH_MAX ==> vstd::utf8::encode_utf8(a->0@) == path.spec_bytes().subrange(
                0,
                UNIX_PATH_MAX as int,
            ),
    {
        if path.len() > UNIX_PATH_MAX {
            let (head, _) = path.split_at(UNIX_PATH_MAX);
            assert(head.spec_bytes() == path.spec_bytes().subrange(0, UNIX_PATH_MAX as int));
            let a = SocketAddr::Unix(head.to_owned());
            assert(a->0@ == head@);
            assert(vstd::utf8::encode_utf8(a->0@) == head.spec_bytes());
            a
        } else {
            SocketAddr::Unix(path.to_owned())
        }
    }

    pub fn inet(ip: [u8; 4], port: u16) -> (a: Self)
        ensures
            a == (SocketAddr::Inet { addr: ip, port }),
    {
        SocketAddr::Inet { addr: ip, port }
    }

    /// 127.0.0.1:port
    pub fn loopback(port: u16) -> (a: Self)
        ensures
            a is Inet,
            a->Inet_addr@ == seq![127u8, 0u8, 0u8, 1u8],
            a->Inet_port == port,
    {
        let a = SocketAddr::Inet { addr: [127, 0, 0, 1], port };
        assert(a->Inet_addr@ =~= seq![127u8, 0u8, 0u8, 1u8]);
        a
    }

    /// 0.0.0.0:port
    pub fn any_addr(port: u16) -> (a: Self)
        ensures
            a is Inet,
            a->Inet_addr@ == seq![0u8, 0u8, 0u8, 0u8],
            a->Inet_port == port,
    {
        let a = SocketAddr::Inet { addr: [0, 0, 0, 0], port };
        assert(a->Inet_addr@ =~= seq![0u8, 0u8, 0u8, 0u8]);
        a
    }

    pub fn is_unix(&self) -> (r: bool)
        ensures
            r == (*self is Unix),
    {
        match self {
            SocketAddr::Unix(_) => true,
            _ => false,
        }
    }

    pub fn is_inet(&self) -> (r: bool)
        ensures
            r == (*self is Inet),
    {
        match self {
            SocketAddr::Inet { .. } => true,
            _ => false,
        }
    }

    pub open spec fn domain_of(self) -> SocketDomain {
        match self {
            SocketAddr::Unix(_) => SocketDomain::Unix,
            SocketAddr::Inet { .. } => SocketDomain::Inet,
            SocketAddr::Inet6 { .. } => SocketDomain::Inet6,
        }
    }

    pub fn domain(&self) -> (d: SocketDomain)
        ensures
            d == self.domain_of(),
    {
        match self {
            SocketAddr::Unix(_) => SocketDomain::Unix,
            SocketAddr::Inet { .. } => SocketDomain::Inet,
            SocketAddr::Inet6 { .. } => SocketDomain::Inet6,
        }
    }

    pub fn port(&self) -> (r: Option<u16>)
        ensures
            r == (match *self {
                SocketAddr::Inet { port, .. } => Some(port),
                SocketAddr::Inet6 { port, .. } => Some(port),
                SocketAddr::Unix(_) => None::<u16>,
            }),
    {
        match self {
            SocketAddr::Inet { port, .. } => Some(*port),
            SocketAddr::Inet6 { port, .. } => Some(*port),
            SocketAddr::Unix(_) => None,
        }
    }

    /// The address as text.
    pub fn ip_str(&self) -> (s: String)
        ensures
            s@ == addr_text(*self),
    {
        match self {
            SocketAddr::Unix(p) => p.clone(),
            SocketAddr::Inet { addr, port } => {
                let mut s = String::new();
                push_decimal(&mut s, addr[0] as u64);
                s.append(".");
                push_decimal(&mut s, addr[1] as u64);
                s.append(".");
                push_decimal(&mut s, addr[2] as u64);
                s.append(".");
                push_decimal(&mut s, addr[3] as u64);
                s.append(":");
                push_decimal(&mut s, *port as u64);
                assert(s@ =~= addr_text(*self));
                s
            },
            SocketAddr::Inet6 { addr, port } => {
                let mut s = String::from_str("[");
                let mut i: usize = 0;
                while i < 16
                    invariant
                        i <= 16,
                        s@ == "["@ + hex_groups(addr@, i as nat),
                    decreases 16 - i,
                {
                    if i > 0 && i % 2 == 0 {
                        s.append(":");
                    }
                    let b = addr[i];
                    s.append(hex_digit(b / 16));
                    s.append(hex_digit(b % 16));
                    proof {
                        let k = i as nat;
                        let sep = if k > 0 && k % 2 == 0 { seq![':'] } else { Seq::<char>::empty() };
                        assert(hex_groups(addr@, k + 1) == hex_groups(addr@, k) + sep + hex2(addr@[k as int]));
                        reveal_strlit(":");
                    }
                    assert(s@ =~= "["@ + hex_groups(addr@, (i + 1) as nat));
                    i = i + 1;
                }
                s.append("]:");
                push_decimal(&mut s, *port as u64);
                assert(s@ =~= addr_text(*self));
                s
            },
        }
    }

    pub fn path(&self) -> (r: Option<&str>)
        ensures
            match r {
                Some(p) => *self is Unix && p@ == self->0@,
                None => !(*self is Unix),
            },
    {
        match self {
            SocketAddr::Unix(p) => Some(p.as_str()),
            _ => None,
        }
    }
}

/// A copy of an address.
pub fn copy_addr(a: &SocketAddr) -> (r: SocketAddr)
    ensures
        r == *a,
{
    match a {
        SocketAddr::Unix(p) => SocketAddr::Unix(p.clone()),
        SocketAddr::Inet { addr, port } => SocketAddr::Inet { addr: *addr, port: *port },
        SocketAddr::Inet6 { addr, port } => SocketAddr::Inet6 { addr: *addr, port: *port },
    }
}

impl Clone for SocketAddr {
    fn clone(&self) -> (r: Self)
        ensures
            r == *self,
    {
        copy_addr(self)
    }
}

/// Two addresses are equal.
pub fn addr_eq(a: &SocketAddr, b: &SocketAddr) -> (r: bool)
    ensures
        r == same_addr(*a, *b),
{
    match (a, b) {
        (SocketAddr::Unix(p), SocketAddr::Unix(q)) => *p == *q,
        (SocketAddr::Inet { addr: x, port: p }, SocketAddr::Inet { addr: y, port: q }) => {
            let r = x[0] == y[0] && x[1] == y[1] && x[2] == y[2] && x[3] == y[3] && *p == *q;
            proof {
                if x[0] == y[0] && x[1] == y[1] && x[2] == y[2] && x[3] == y[3] {
                    assert(x@ =~= y@);
                }
            }
            r
        },
        (SocketAddr::Inet6 { addr: x, port: p }, SocketAddr::Inet6 { addr: y, port: q }) => {
            let mut same = true;
            let mut i: usize = 0;
            while i < 16
                invariant
                    i <= 16,
                    same == forall|k: int| 0 <= k < i ==> x@[k] == y@[k],
                decreases 16 - i,
            {
                if x[i] != y[i] {
                    same = false;
                }
                i = i + 1;
            }
            proof {
                if same {
                    assert(x@ =~= y@);
                }
            }
            same && *p == *q
        },
        _ => false,
    }
}

impl PartialEq for SocketAddr {
    fn eq(&self, other: &Self) -> (r: bool) {
        addr_eq(self, other)
    }
}

impl vstd::std_specs::cmp::PartialEqSpecImpl for SocketAddr {
    open spec fn obeys_eq_spec() -> bool {
        true
    }

    open spec fn eq_spec(&self, other: &Self) -> bool {
        same_addr(*self, *other)
    }
}

impl Eq for SocketAddr {
}


// ══════════════════════════════════════════════════════════════════════════════
// Socket state
// ══════════════════════════════════════════════════════════════════════════════

#[derive(Clone, Copy, Debug, PartialEq, Eq, Structural)]
pub enum SocketState {
    /// Just created.
    Unconnected,
    /// Waiting in accept().
    Listening,
    /// connect() under way.
    Connecting,
    /// Connection up.
    Connected,
    /// Half closed.
    Closing,
    /// Fully closed.
    Closed,
    /// Failed.
    Error,
}

impl SocketState {
    pub fn is_active(&self) -> (r: bool)
        ensures
            r == (*self == SocketState::Connected || *self == SocketState::Listening || *self
                == SocketState::Connecting),
    {
        match self {
            SocketState::Connected | SocketState::Listening | SocketState::Connecting => true,
            _ => false,
        }
    }

    pub open spec fn readable(self) -> bool {
        self == SocketState::Connected || self == SocketState::Listening || self == SocketState::Closing
    }

    pub fn is_readable(&self) -> (r: bool)
        ensures
            r == self.readable(),
    {
        match self {
            SocketState::Connected | SocketState::Listening | SocketState::Closing => true,
            _ => false,
        }
    }

    pub open spec fn writable(self) -> bool {
        self == SocketState::Connected || self == SocketState::Connecting
    }

    pub fn is_writable(&self) -> (r: bool)
        ensures
            r == self.writable(),
    {
        match self {
            SocketState::Connected | SocketState::Connecting => true,
            _ => false,
        }
    }

    pub open spec fn closed(self) -> bool {
        self == SocketState::Closed || self == SocketState::Error
    }

    pub fn is_closed(&self) -> (r: bool)
        ensures
            r == self.closed(),
    {
        match self {
            SocketState::Closed | SocketState::Error => true,
            _ => false,
        }
    }

    pub fn as_str(&self) -> (r: &'static str)
        ensures
            r@ == (match *self {
                SocketState::Unconnected => "UNCONNECTED"@,
                SocketState::Listening => "LISTENING"@,
                SocketState::Connecting => "CONNECTING"@,
                SocketState::Connected => "CONNECTED"@,
                SocketState::Closing => "CLOSING"@,
                SocketState::Closed => "CLOSED"@,
                SocketState::Error => "ERROR"@,
            }),
    {
        match self {
            SocketState::Unconnected => "UNCONNECTED",
            SocketState::Listening => "LISTENING",
            SocketState::Connecting => "CONNECTING",
            SocketState::Connected => "CONNECTED",
            SocketState::Closing => "CLOSING",
            SocketState::Closed => "CLOSED",
            SocketState::Error => "ERROR",
        }
    }
}

// ══════════════════════════════════════════════════════════════════════════════
// Socket options
// ══════════════════════════════════════════════════════════════════════════════

/// Default size of the send and receive buffers: 64 KiB.
pub const DEFAULT_SOCKET_BUF: usize = 65536;

#[derive(Clone, Copy, Debug, PartialEq, Eq, Structural)]
pub struct SocketOptions {
    pub nonblocking: bool,
    pub reuseaddr: bool,
    pub reuseport: bool,
    pub keepalive: bool,
    pub broadcast: bool,
    /// Seconds.
    pub linger: Option<u32>,
    pub send_buf_size: usize,
    pub recv_buf_size: usize,
    /// Milliseconds.
    pub send_timeout: Option<u32>,
    /// Milliseconds.
    pub recv_timeout: Option<u32>,
}

impl SocketOptions {
    pub open spec fn defaults() -> SocketOptions {
        SocketOptions {
            nonblocking: false,
            reuseaddr: false,
            reuseport: false,
            keepalive: false,
            broadcast: false,
            linger: None,
            send_buf_size: DEFAULT_SOCKET_BUF,
            recv_buf_size: DEFAULT_SOCKET_BUF,
            send_timeout: None,
            recv_timeout: None,
        }
    }
}

impl Default for SocketOptions {
    fn default() -> (o: Self)
        ensures
            o == SocketOptions::defaults(),
    {
        SocketOptions {
            nonblocking: false,
            reuseaddr: false,
            reuseport: false,
            keepalive: false,
            broadcast: false,
            linger: None,
            send_buf_size: DEFAULT_SOCKET_BUF,
            recv_buf_size: DEFAULT_SOCKET_BUF,
            send_timeout: None,
            recv_timeout: None,
        }
    }
}

// ══════════════════════════════════════════════════════════════════════════════
// Socket buffer
// ══════════════════════════════════════════════════════════════════════════════

/// A byte buffer: bytes are appended at the end and read from a read position;
/// it empties itself once everything has been read. The space left for writing
/// is the capacity less the bytes held and the bytes already read.
#[derive(Clone, Debug)]
pub struct SocketBuffer {
    data: Vec<u8>,
    capacity: usize,
    read_pos: usize,
}

/// `x - y`, or zero.
pub open spec fn sat_sub(x: int, y: int) -> int {
    if x >= y {
        x - y
    } else {
        0
    }
}

impl SocketBuffer {
    /// The bytes held, read or not.
    pub closed spec fn bytes(&self) -> Seq<u8> {
        self.data@
    }

    pub closed spec fn cap(&self) -> nat {
        self.capacity as nat
    }

    pub closed spec fn pos(&self) -> nat {
        self.read_pos as nat
    }

    /// The bytes not read yet.
    pub open spec fn unread(&self) -> Seq<u8> {
        self.bytes().subrange(self.pos() as int, self.bytes().len() as int)
    }

    pub open spec fn wf(&self) -> bool {
        self.pos() <= self.bytes().len()
    }

    pub fn new(capacity: usize) -> (b: Self)
        ensures
            b.wf(),
            b.bytes() == Seq::<u8>::empty(),
            b.cap() == capacity,
            b.pos() == 0,
    {
        SocketBuffer { data: Vec::new(), capacity, read_pos: 0 }
    }

    /// Appends as much of `src` as the space left allows; returns how much.
    pub fn write(&mut self, src: &[u8]) -> (n: usize)
        requires
            old(self).wf(),
        ensures
            final(self).wf(),
            n == min_int(src@.len() as int, sat_sub(old(self).cap() as int, (old(self).bytes().len() + old(self).pos()) as int)),
            final(self).bytes() == old(self).bytes() + src@.subrange(0, n as int),
            final(self).cap() == old(self).cap(),
            final(self).pos() == old(self).pos(),
    {
        let used: u128 = (self.data.len() as u128) + (self.read_pos as u128);
        let avail: usize = if (self.capacity as u128) >= used {
            ((self.capacity as u128) - used) as usize
        } else {
            0
        };
        let to_write = if src.len() < avail { src.len() } else { avail };
        let mut i: usize = 0;
        while i < to_write
            invariant
                i <= to_write,
                to_write <= src@.len(),
                self.data@ == old(self).data@ + src@.subrange(0, i as int),
                self.capacity == old(self).capacity,
                self.read_pos == old(self).read_pos,
            decreases to_write - i,
        {
            self.data.push(src[i]);
            i = i + 1;
            assert(self.data@ =~= old(self).data@ + src@.subrange(0, i as int));
        }
        to_write
    }

    /// Copies unread bytes into the front of `dst`; returns how many.
    pub fn read(&mut self, dst: &mut [u8]) -> (n: usize)
        requires
            old(self).wf(),
        ensures
            final(self).wf(),
            n == min_int(old(dst)@.len() as int, old(self).unread().len() as int),
            final(dst)@ == old(self).unread().subrange(0, n as int) + old(dst)@.subrange(n as int, old(dst)@.len() as int),
            final(self).cap() == old(self).cap(),
            n == 0 ==> final(self).bytes() == old(self).bytes() && final(self).pos() == old(self).pos(),
            n > 0 && old(self).pos() + n >= old(self).bytes().len() ==> final(self).bytes() == Seq::<u8>::empty()
                && final(self).pos() == 0,
            n > 0 && old(self).pos() + n < old(self).bytes().len() ==> final(self).bytes() == old(self).bytes()
                && final(self).pos() == old(self).pos() + n,
    {
        let unread = self.data.len() - self.read_pos;
        if unread == 0 {
            assert(old(dst)@.subrange(0, old(dst)@.len() as int) =~= old(dst)@);
            return 0;
        }
        let to_read = if dst.len() < unread { dst.len() } else { unread };
        let mut i: usize = 0;
        while i < to_read
            invariant
                i <= to_read,
                to_read <= dst@.len(),
                to_read <= self.data@.len() - self.read_pos,
                self.data@ == old(self).data@,
                self.read_pos == old(self).read_pos,
                self.read_pos <= self.data@.len(),
                dst@.len() == old(dst)@.len(),
                forall|k: int| 0 <= k < i ==> dst@[k] == self.data@[self.read_pos + k],
                forall|k: int| i <= k < dst@.len() ==> dst@[k] == old(dst)@[k],
            decreases to_read - i,
        {
            let len = self.data.len();
            assert(self.read_pos + i < len);
            dst[i] = self.data[self.read_pos + i];
            i = i + 1;
        }
        assert(dst@ =~= old(self).unread().subrange(0, to_read as int) + old(dst)@.subrange(
            to_read as int,
            old(dst)@.len() as int,
        ));
        self.read_pos = self.read_pos + to_read;
        if self.read_pos >= self.data.len() {
            self.data.clear();
            self.read_pos = 0;
        }
        to_read
    }

    pub fn available(&self) -> (r: usize)
        requires
            self.wf(),
        ensures
            r == self.unread().len(),
    {
        self.data.len() - self.read_pos
    }

    pub fn remaining(&self) -> (r: usize)
        requires
            self.wf(),
        ensures
            r == sat_sub(self.cap() as int, self.unread().len() as int),
    {
        let a = self.available();
        if self.capacity >= a {
            self.capacity - a
        } else {
            0
        }
    }

    pub fn is_empty(&self) -> (r: bool)
        requires
            self.wf(),
        ensures
            r == (self.unread().len() == 0),
    {
        self.available() == 0
    }

    pub fn is_full(&self) -> (r: bool)
        requires
            self.wf(),
        ensures
            r == (sat_sub(self.cap() as int, self.unread().len() as int) == 0),
    {
        self.remaining() == 0
    }

    pub fn clear(&mut self)
        ensures
            final(self).wf(),
            final(self).bytes() == Seq::<u8>::empty(),
            final(self).pos() == 0,
            final(self).cap() == old(self).cap(),
    {
        self.data.clear();
        self.read_pos = 0;
    }
}

/// The smaller of two integers.
pub open spec fn min_int(a: int, b: int) -> int {
    if a < b {
        a
    } else {
        b
    }
}


/// `b2` is buffer `b` after `write(src)` returned `n`.
pub open spec fn buf_written(b: SocketBuffer, b2: SocketBuffer, src: Seq<u8>, n: nat) -> bool {
    &&& b2.wf()
    &&& n == min_int(src.len() as int, sat_sub(b.cap() as int, (b.bytes().len() + b.pos()) as int))
    &&& b2.bytes() == b.bytes() + src.subrange(0, n as int)
    &&& b2.cap() == b.cap()
    &&& b2.pos() == b.pos()
}

/// `b2` and `d2` are buffer `b` and destination `d` after `read` returned `n`.
pub open spec fn buf_read(b: SocketBuffer, b2: SocketBuffer, d: Seq<u8>, d2: Seq<u8>, n: nat) -> bool {
    &&& b2.wf()
    &&& n == min_int(d.len() as int, b.unread().len() as int)
    &&& d2 == b.unread().subrange(0, n as int) + d.subrange(n as int, d.len() as int)
    &&& b2.cap() == b.cap()
    &&& n == 0 ==> b2.bytes() == b.bytes() && b2.pos() == b.pos()
    &&& n > 0 && b.pos() + n >= b.bytes().len() ==> b2.bytes() == Seq::<u8>::empty() && b2.pos() == 0
    &&& n > 0 && b.pos() + n < b.bytes().len() ==> b2.bytes() == b.bytes() && b2.pos() == b.pos() + n
}

/// A buffer as sockets create it: empty, 64 KiB.
pub open spec fn fresh_buf(b: SocketBuffer) -> bool {
    b.wf() && b.bytes() == Seq::<u8>::empty() && b.cap() == DEFAULT_SOCKET_BUF && b.pos() == 0
}

// ══════════════════════════════════════════════════════════════════════════════
// Socket
// ══════════════════════════════════════════════════════════════════════════════

/// Socket handle.
pub type SockId = u32;

/// Default backlog of a socket.
pub const DEFAULT_BACKLOG: usize = 128;

#[derive(Clone, Debug)]
pub struct Socket {
    pub id: SockId,
    pub domain: SocketDomain,
    pub sock_type: SocketType,
    pub protocol: SocketProtocol,
    pub state: SocketState,
    pub local_addr: Option<SocketAddr>,
    pub peer_addr: Option<SocketAddr>,
    pub options: SocketOptions,
    pub recv_buf: SocketBuffer,
    pub send_buf: SocketBuffer,
    /// Pending connections of a listening socket.
    pub backlog: Vec<SockId>,
    pub max_backlog: usize,
    pub owner_pid: u32,
    pub error: Option<SocketError>,
    pub bytes_sent: u64,
    pub bytes_recv: u64,
    /// Made by the manager for a connection to a listener (a pending or an
    /// accepted socket), not by a call of `socket`.
    pub from_listener: bool,
}

/// A socket as `Socket::new` creates it.
pub open spec fn fresh_socket(
    s: Socket,
    id: SockId,
    domain: SocketDomain,
    sock_type: SocketType,
    proto: SocketProtocol,
    pid: u32,
) -> bool {
    &&& s.id == id
    &&& s.domain == domain
    &&& s.sock_type == sock_type
    &&& s.protocol == proto
    &&& s.state == SocketState::Unconnected
    &&& s.local_addr is None
    &&& s.peer_addr is None
    &&& s.options == SocketOptions::defaults()
    &&& fresh_buf(s.recv_buf)
    &&& fresh_buf(s.send_buf)
    &&& s.backlog@ == Seq::<SockId>::empty()
    &&& s.max_backlog == DEFAULT_BACKLOG
    &&& s.owner_pid == pid
    &&& s.error is None
    &&& s.bytes_sent == 0
    &&& s.bytes_recv == 0
    &&& !s.from_listener
}

impl Socket {
    pub open spec fn wf(&self) -> bool {
        self.recv_buf.wf() && self.send_buf.wf()
    }

    /// Readable: a readable state with unread data or a pending connection.
    pub open spec fn readable_now(&self) -> bool {
        self.state.readable() && (self.recv_buf.unread().len() > 0 || self.backlog@.len() > 0)
    }

    /// Writable: a writable state with room in the send buffer.
    pub open spec fn writable_now(&self) -> bool {
        self.state.writable() && sat_sub(self.send_buf.cap() as int, self.send_buf.unread().len() as int) > 0
    }

    pub fn new(id: SockId, domain: SocketDomain, sock_type: SocketType, proto: SocketProtocol, pid: u32) -> (s: Self)
        ensures
            s.wf(),
            fresh_socket(s, id, domain, sock_type, proto, pid),
    {
        Socket {
            id,
            domain,
            sock_type,
            protocol: proto,
            state: SocketState::Unconnected,
            local_addr: None,
            peer_addr: None,
            options: SocketOptions::default(),
            recv_buf: SocketBuffer::new(DEFAULT_SOCKET_BUF),
            send_buf: SocketBuffer::new(DEFAULT_SOCKET_BUF),
            backlog: Vec::new(),
            max_backlog: DEFAULT_BACKLOG,
            owner_pid: pid,
            error: None,
            bytes_sent: 0,
            bytes_recv: 0,
            from_listener: false,
        }
    }

    pub fn is_stream(&self) -> (r: bool)
        ensures
            r == (self.sock_type == SocketType::Stream),
    {
        self.sock_type == SocketType::Stream
    }

    pub fn is_dgram(&self) -> (r: bool)
        ensures
            r == (self.sock_type == SocketType::Datagram),
    {
        self.sock_type == SocketType::Datagram
    }

    pub fn is_listening(&self) -> (r: bool)
        ensures
            r == (self.state == SocketState::Listening),
    {
        self.state == SocketState::Listening
    }

    pub fn is_connected(&self) -> (r: bool)
        ensures
            r == (self.state == SocketState::Connected),
    {
        self.state == SocketState::Connected
    }

    pub fn has_pending(&self) -> (r: bool)
        ensures
            r == (self.backlog@.len() > 0),
    {
        self.backlog.len() > 0
    }

    pub fn pending_count(&self) -> (r: usize)
        ensures
            r == self.backlog@.len(),
    {
        self.backlog.len()
    }

    pub fn can_read(&self) -> (r: bool)
        requires
            self.wf(),
        ensures
            r == self.readable_now(),
    {
        self.state.is_readable() && (self.recv_buf.available() > 0 || self.has_pending())
    }

    pub fn can_write(&self) -> (r: bool)
        requires
            self.wf(),
        ensures
            r == self.writable_now(),
    {
        self.state.is_writable() && self.send_buf.remaining() > 0
    }

    pub fn has_error(&self) -> (r: bool)
        ensures
            r == self.error is Some,
    {
        self.error.is_some()
    }
}

#[derive(Clone, Copy, Debug, PartialEq, Eq, Structural)]
pub enum SocketError {
    NotConnected,
    AlreadyConnected,
    NotListening,
    AddrInUse,
    AddrNotAvailable,
    ConnectionRefused,
    ConnectionReset,
    TimedOut,
    WouldBlock,
    MessageTooLong,
    NotASocket,
    BadDescriptor,
    PermissionDenied,
    NoBufferSpace,
    OperationNotSupported,
}

impl SocketError {
    /// The errno of the error (-1 where there is none).
    pub fn errno(&self) -> (r: i32)
        ensures
            r == (match *self {
                SocketError::NotConnected => 107i32,
                SocketError::AlreadyConnected => 106i32,
                SocketError::NotListening => -1i32,
                SocketError::AddrInUse => 98i32,
                SocketError::AddrNotAvailable => 99i32,
                SocketError::ConnectionRefused => 111i32,
                SocketError::ConnectionReset => 104i32,
                SocketError::TimedOut => 110i32,
                SocketError::WouldBlock => 11i32,
                SocketError::MessageTooLong => 90i32,
                SocketError::NotASocket => 88i32,
                SocketError::BadDescriptor => 9i32,
                SocketError::PermissionDenied => 1i32,
                SocketError::NoBufferSpace => 105i32,
                SocketError::OperationNotSupported => 95i32,
            }),
    {
        match self {
            SocketError::NotConnected => 107,
            SocketError::AlreadyConnected => 106,
            SocketError::NotListening => -1,
            SocketError::AddrInUse => 98,
            SocketError::AddrNotAvailable => 99,
            SocketError::ConnectionRefused => 111,
            SocketError::ConnectionReset => 104,
            SocketError::TimedOut => 110,
            SocketError::WouldBlock => 11,
            SocketError::MessageTooLong => 90,
            SocketError::NotASocket => 88,
            SocketError::BadDescriptor => 9,
            SocketError::PermissionDenied => 1,
            SocketError::NoBufferSpace => 105,
            SocketError::OperationNotSupported => 95,
        }
    }

    pub fn as_str(&self) -> (r: &'static str)
        ensures
            r@ == (match *self {
                SocketError::NotConnected => "Not connected"@,
                SocketError::AlreadyConnected => "Already connected"@,
                SocketError::NotListening => "Not listening"@,
                SocketError::AddrInUse => "Address in use"@,
                SocketError::AddrNotAvailable => "Address not available"@,
                SocketError::ConnectionRefused => "Connection refused"@,
                SocketError::ConnectionReset => "Connection reset"@,
                SocketError::TimedOut => "Timed out"@,
                SocketError::WouldBlock => "Would block"@,
                SocketError::MessageTooLong => "Message too long"@,
                SocketError::NotASocket => "Not a socket"@,
                SocketError::BadDescriptor => "Bad file descriptor"@,
                SocketError::PermissionDenied => "Permission denied"@,
                SocketError::NoBufferSpace => "No buffer space"@,
                SocketError::OperationNotSupported => "Operation not supported"@,
            }),
    {
        match self {
            SocketError::NotConnected => "Not connected",
            SocketError::AlreadyConnected => "Already connected",
            SocketError::NotListening => "Not listening",
            SocketError::AddrInUse => "Address in use",
            SocketError::AddrNotAvailable => "Address not available",
            SocketError::ConnectionRefused => "Connection refused",
            SocketError::ConnectionReset => "Connection reset",
            SocketError::TimedOut => "Timed out",
            SocketError::WouldBlock => "Would block",
            SocketError::MessageTooLong => "Message too long",
            SocketError::NotASocket => "Not a socket",
            SocketError::BadDescriptor => "Bad file descriptor",
            SocketError::PermissionDenied => "Permission denied",
            SocketError::NoBufferSpace => "No buffer space",
            SocketError::OperationNotSupported => "Operation not supported",
        }
    }
}

/// An option for `setsockopt`.
#[derive(Clone, Copy, Debug, PartialEq, Eq, Structural)]
pub enum SocketOpt {
    NonBlock(bool),
    ReuseAddr(bool),
    ReusePort(bool),
    KeepAlive(bool),
    Broadcast(bool),
    Linger(Option<u32>),
    SendBuf(usize),
    RecvBuf(usize),
    SendTimeout(Option<u32>),
    RecvTimeout(Option<u32>),
}

/// The options after `opt` is set.
pub open spec fn with_opt(o: SocketOptions, opt: SocketOpt) -> SocketOptions {
    match opt {
        SocketOpt::NonBlock(v) => SocketOptions { nonblocking: v, ..o },
        SocketOpt::ReuseAddr(v) => SocketOptions { reuseaddr: v, ..o },
        SocketOpt::ReusePort(v) => SocketOptions { reuseport: v, ..o },
        SocketOpt::KeepAlive(v) => SocketOptions { keepalive: v, ..o },
        SocketOpt::Broadcast(v) => SocketOptions { broadcast: v, ..o },
        SocketOpt::Linger(v) => SocketOptions { linger: v, ..o },
        SocketOpt::SendBuf(v) => SocketOptions { send_buf_size: v, ..o },
        SocketOpt::RecvBuf(v) => SocketOptions { recv_buf_size: v, ..o },
        SocketOpt::SendTimeout(v) => SocketOptions { send_timeout: v, ..o },
        SocketOpt::RecvTimeout(v) => SocketOptions { recv_timeout: v, ..o },
    }
}

/// Readiness of a socket.
#[derive(Clone, Copy, Debug, PartialEq, Eq, Structural)]
pub struct PollState {
    pub readable: bool,
    pub writable: bool,
    pub error: bool,
}

impl PollState {
    pub fn is_any(&self) -> (r: bool)
        ensures
            r == (self.readable || self.writable || self.error),
    {
        self.readable || self.writable || self.error
    }
}

/// Counters of the socket manager.
#[derive(Clone, Copy, Debug, PartialEq, Eq, Structural)]
pub struct SocketStats {
    pub total_sockets: u64,
    pub total_created: u64,
    pub total_accepted: u64,
    pub total_bytes_sent: u64,
    pub total_bytes_recv: u64,
    pub unix_listeners: u64,
    pub inet_listeners: u64,
}


// ══════════════════════════════════════════════════════════════════════════════
// Socket manager
// ══════════════════════════════════════════════════════════════════════════════

/// Registry entries of listening Unix sockets: path and socket.
pub type PathEntries = Seq<(Seq<char>, SockId)>;

pub open spec fn path_at(l: PathEntries, p: Seq<char>, i: int) -> bool {
    0 <= i < l.len() && l[i].0 == p
}

/// The socket registered under path `p`.
pub open spec fn path_lookup(l: PathEntries, p: Seq<char>) -> Option<SockId> {
    if exists|i: int| path_at(l, p, i) {
        Some(l[choose|i: int| path_at(l, p, i)].1)
    } else {
        None
    }
}

/// The registry with `p` registered to `id`, replacing an earlier registration.
pub open spec fn path_insert(l: PathEntries, p: Seq<char>, id: SockId) -> PathEntries {
    if exists|i: int| path_at(l, p, i) {
        l.update(choose|i: int| path_at(l, p, i), (p, id))
    } else {
        l.push((p, id))
    }
}

/// The registry without path `p`.
pub open spec fn path_remove(l: PathEntries, p: Seq<char>) -> PathEntries {
    if exists|i: int| path_at(l, p, i) {
        l.remove(choose|i: int| path_at(l, p, i))
    } else {
        l
    }
}

pub open spec fn paths_unique(l: PathEntries) -> bool {
    forall|i: int, j: int| 0 <= i < j < l.len() ==> l[i].0 != l[j].0
}

proof fn lemma_path_at(l: PathEntries, p: Seq<char>, i: int)
    requires
        paths_unique(l),
        path_at(l, p, i),
    ensures
        (choose|k: int| path_at(l, p, k)) == i,
{
    let k = choose|k: int| path_at(l, p, k);
    assert(path_at(l, p, k));
    if k < i {
        assert(l[k].0 != l[i].0);
    } else if i < k {
        assert(l[i].0 != l[k].0);
    }
}

pub open spec fn path_views(v: Seq<(String, SockId)>) -> PathEntries {
    v.map_values(|e: (String, SockId)| (e.0@, e.1))
}

/// What the socket manager holds.
pub struct SockView {
    pub sockets: Map<SockId, Socket>,
    /// Socket ids in ascending order.
    pub ids: Seq<SockId>,
    pub next_id: SockId,
    /// Listening Unix sockets by path, in registration order.
    pub unix: PathEntries,
    /// Listening IPv4 sockets by port.
    pub inet: Map<u32, SockId>,
    pub total_created: u64,
    pub total_accepted: u64,
    pub total_bytes_sent: u64,
    pub total_bytes_recv: u64,
}

/// The listening socket that address `a` reaches, if any.
pub open spec fn listener_for(v: SockView, a: SocketAddr) -> Option<SockId> {
    match a {
        SocketAddr::Unix(p) => path_lookup(v.unix, p@),
        SocketAddr::Inet { port, .. } => if v.inet.contains_key(port as u32) {
            Some(v.inet[port as u32])
        } else {
            None
        },
        SocketAddr::Inet6 { .. } => None,
    }
}

/// Two addresses name the same place to bind: the same Unix path, or the same
/// IPv4 port.
pub open spec fn same_place(a: SocketAddr, b: SocketAddr) -> bool {
    match (a, b) {
        (SocketAddr::Unix(p), SocketAddr::Unix(q)) => p@ == q@,
        (SocketAddr::Inet { port: p, .. }, SocketAddr::Inet { port: q, .. }) => p == q,
        _ => false,
    }
}

/// A socket other than `sid` is bound to the place `a` names.
pub open spec fn bound_elsewhere(v: SockView, sid: SockId, a: SocketAddr) -> bool {
    exists|k: SockId|
        #[trigger] v.sockets.contains_key(k) && k != sid && v.sockets[k].local_addr is Some
            && same_place(v.sockets[k].local_addr.unwrap(), a)
}

/// Binding socket `sid` to `a` is refused because the address is taken: another
/// socket listens there or is bound there (for IPv4, unless `reuse` is on).
pub open spec fn addr_taken(v: SockView, sid: SockId, a: SocketAddr, reuse: bool) -> bool {
    match a {
        SocketAddr::Unix(p) => path_lookup(v.unix, p@) is Some || bound_elsewhere(v, sid, a),
        SocketAddr::Inet { port, .. } => (v.inet.contains_key(port as u32) || bound_elsewhere(v, sid, a))
            && !reuse,
        SocketAddr::Inet6 { .. } => false,
    }
}

/// `x + y` modulo 2^64.
pub open spec fn wrap_add64(x: u64, y: u64) -> u64 {
    if x + y > u64::MAX {
        (x + y - 0x1_0000_0000_0000_0000) as u64
    } else {
        (x + y) as u64
    }
}

/// The manager with socket `sid` replaced by `s`.
pub open spec fn with_socket(v: SockView, sid: SockId, s: Socket) -> SockView {
    SockView { sockets: v.sockets.insert(sid, s), ..v }
}

/// The clamped backlog `listen` sets: between 1 and 4096.
pub open spec fn clamp_backlog(b: usize) -> usize {
    if b < 1 {
        1
    } else if b > 4096 {
        4096
    } else {
        b
    }
}

pub struct SocketManager {
    sockets: IdMap<Socket>,
    next_id: SockId,
    /// Listening Unix sockets: path and socket id.
    unix_listeners: Vec<(String, SockId)>,
    /// Listening IPv4 sockets by port.
    inet_listeners: IdMap<SockId>,
    total_created: u64,
    total_accepted: u64,
    total_bytes_sent: u64,
    total_bytes_recv: u64,
}

impl View for SocketManager {
    type V = SockView;

    closed spec fn view(&self) -> SockView {
        SockView {
            sockets: self.sockets@,
            ids: self.sockets.key_seq(),
            next_id: self.next_id,
            unix: path_views(self.unix_listeners@),
            inet: self.inet_listeners@,
            total_created: self.total_created,
            total_accepted: self.total_accepted,
            total_bytes_sent: self.total_bytes_sent,
            total_bytes_recv: self.total_bytes_recv,
        }
    }
}

/// The socket is consistent and refers only to ids handed out before `next`.
pub open spec fn socket_ok(s: Socket, k: SockId, next: SockId) -> bool {
    &&& s.wf()
    &&& k < next
    &&& forall|j: int| 0 <= j < s.backlog@.len() ==> #[trigger] s.backlog@[j] < next
}

/// Every socket is consistent, ids are handed out in increasing order, and
/// every path is registered once.
pub open spec fn sock_ok(v: SockView) -> bool {
    &&& paths_unique(v.unix)
    &&& forall|k: SockId| #[trigger] v.sockets.contains_key(k) ==> socket_ok(v.sockets[k], k, v.next_id)
}

impl SocketManager {
    pub closed spec fn wf(&self) -> bool {
        &&& self.sockets.wf()
        &&& self.inet_listeners.wf()
        &&& sock_ok(self@)
    }

    pub fn new() -> (m: Self)
        ensures
            m.wf(),
            m@.sockets == Map::<SockId, Socket>::empty(),
            m@.next_id == 1,
            m@.unix == Seq::<(Seq<char>, SockId)>::empty(),
            m@.inet == Map::<u32, SockId>::empty(),
            m@.total_created == 0,
            m@.total_accepted == 0,
            m@.total_bytes_sent == 0,
            m@.total_bytes_recv == 0,
    {
        let m = SocketManager {
            sockets: IdMap::new(),
            next_id: 1,
            unix_listeners: Vec::new(),
            inet_listeners: IdMap::new(),
            total_created: 0,
            total_accepted: 0,
            total_bytes_sent: 0,
            total_bytes_recv: 0,
        };
        assert(m@.unix =~= Seq::<(Seq<char>, SockId)>::empty());
        m
    }

    proof fn lemma_ok_insert(v: SockView, w: SockView, sid: SockId)
        requires
            sock_ok(v),
            paths_unique(w.unix),
            w.next_id >= v.next_id,
            w.sockets == v.sockets.insert(sid, w.sockets[sid]),
            socket_ok(w.sockets[sid], sid, w.next_id),
        ensures
            sock_ok(w),
    {
        assert forall|k: SockId| #[trigger] w.sockets.contains_key(k) implies socket_ok(w.sockets[k], k, w.next_id) by {
            if k != sid {
                assert(v.sockets.contains_key(k));
                assert(socket_ok(v.sockets[k], k, v.next_id));
            }
        }
    }

    proof fn lemma_ok_remove(v: SockView, w: SockView, sid: SockId)
        requires
            sock_ok(v),
            paths_unique(w.unix),
            w.next_id >= v.next_id,
            w.sockets == v.sockets.remove(sid),
        ensures
            sock_ok(w),
    {
        assert forall|k: SockId| #[trigger] w.sockets.contains_key(k) implies socket_ok(w.sockets[k], k, w.next_id) by {
            assert(v.sockets.contains_key(k));
            assert(socket_ok(v.sockets[k], k, v.next_id));
        }
    }

    proof fn lemma_ok_unix(v: SockView, w: SockView)
        requires
            sock_ok(v),
            w.sockets == v.sockets,
            w.next_id == v.next_id,
            paths_unique(w.unix),
        ensures
            sock_ok(w),
    {
    }

    fn unix_find(&self, path: &String) -> (r: Option<usize>)
        requires
            self.wf(),
        ensures
            match r {
                Some(i) => i < self@.unix.len() && path_at(self@.unix, path@, i as int) && (choose|k: int|
                    path_at(self@.unix, path@, k)) == i,
                None => !exists|k: int| path_at(self@.unix, path@, k),
            },
    {
        let mut i: usize = 0;
        while i < self.unix_listeners.len()
            invariant
                self.wf(),
                i <= self.unix_listeners@.len(),
                forall|k: int| 0 <= k < i ==> self@.unix[k].0 != path@,
            decreases self.unix_listeners@.len() - i,
        {
            if self.unix_listeners[i].0 == *path {
                proof {
                    lemma_path_at(self@.unix, path@, i as int);
                }
                return Some(i);
            }
            i = i + 1;
        }
        None
    }

    /// Whether a socket other than `sid` is bound to the place `a` names.
    fn bound_elsewhere(&self, sid: SockId, a: &SocketAddr) -> (r: bool)
        requires
            self.wf(),
        ensures
            r == bound_elsewhere(self@, sid, *a),
    {
        let ghost v = self@;
        proof {
            self.sockets.lemma_wf();
        }
        let n = self.sockets.len();
        let mut i: usize = 0;
        while i < n
            invariant
                self.wf(),
                v == self@,
                n == self.sockets.key_seq().len(),
                self.sockets.key_seq().len() == self.sockets.value_seq().len(),
                i <= n,
                forall|j: int|
                    0 <= j < self.sockets.key_seq().len() ==> #[trigger] v.sockets[self.sockets.key_seq()[j]]
                        == self.sockets.value_seq()[j],
                self.sockets.key_seq().to_set() == v.sockets.dom(),
                forall|j: int|
                    0 <= j < i ==> !(#[trigger] self.sockets.key_seq()[j] != sid
                        && self.sockets.value_seq()[j].local_addr is Some && same_place(
                        self.sockets.value_seq()[j].local_addr.unwrap(),
                        *a,
                    )),
            decreases n - i,
        {
            let k = self.sockets.key_at(i);
            let s = self.sockets.value_at(i);
            if k != sid {
                if let Some(b) = &s.local_addr {
                    if same_place_exec(b, a) {
                        proof {
                            assert(self.sockets.key_seq().to_set().contains(k));
                            assert(v.sockets.contains_key(k));
                            assert(v.sockets[k] == *s);
                        }
                        return true;
                    }
                }
            }
            i = i + 1;
        }
        proof {
            assert forall|k: SockId| #[trigger] v.sockets.contains_key(k) && k != sid && v.sockets[k].local_addr is Some
                implies !same_place(v.sockets[k].local_addr.unwrap(), *a) by {
                assert(self.sockets.key_seq().to_set().contains(k));
                let j = choose|j: int| 0 <= j < self.sockets.key_seq().len() && self.sockets.key_seq()[j] == k;
                assert(v.sockets[self.sockets.key_seq()[j]] == self.sockets.value_seq()[j]);
            }
        }
        false
    }

    fn unix_lookup(&self, path: &String) -> (r: Option<SockId>)
        requires
            self.wf(),
        ensures
            r == path_lookup(self@.unix, path@),
    {
        match self.unix_find(path) {
            Some(i) => Some(self.unix_listeners[i].1),
            None => None,
        }
    }

    fn unix_insert(&mut self, path: String, id: SockId)
        requires
            old(self).wf(),
        ensures
            final(self).wf(),
            final(self)@ == (SockView { unix: path_insert(old(self)@.unix, path@, id), ..old(self)@ }),
    {
        let ghost v = self@;
        let ghost p = path@;
        match self.unix_find(&path) {
            Some(i) => {
                self.unix_listeners.set(i, (path, id));
                assert(self@.unix =~= v.unix.update(i as int, (p, id)));
                assert forall|a: int, b: int| 0 <= a < b < self@.unix.len() implies self@.unix[a].0
                    != self@.unix[b].0 by {
                    assert(self@.unix[a].0 == v.unix[a].0);
                    assert(self@.unix[b].0 == v.unix[b].0);
                }
                proof {
                    Self::lemma_ok_unix(v, self@);
                }
            },
            None => {
                self.unix_listeners.push((path, id));
                assert(self@.unix =~= v.unix.push((p, id)));
                assert forall|a: int, b: int| 0 <= a < b < self@.unix.len() implies self@.unix[a].0
                    != self@.unix[b].0 by {
                    if b == v.unix.len() {
                        assert(!path_at(v.unix, p, a));
                    }
                }
                proof {
                    Self::lemma_ok_unix(v, self@);
                }
            },
        }
    }

    fn unix_remove(&mut self, path: &String)
        requires
            old(self).wf(),
        ensures
            final(self).wf(),
            final(self)@ == (SockView { unix: path_remove(old(self)@.unix, path@), ..old(self)@ }),
    {
        let ghost v = self@;
        match self.unix_find(path) {
            Some(i) => {
                let _ = self.unix_listeners.remove(i);
                assert(self@.unix =~= v.unix.remove(i as int));
                assert forall|a: int, b: int| 0 <= a < b < self@.unix.len() implies self@.unix[a].0
                    != self@.unix[b].0 by {
                    let a2 = if a < i { a } else { a + 1 };
                    let b2 = if b < i { b } else { b + 1 };
                    assert(v.unix[a2].0 != v.unix[b2].0);
                }
                proof {
                    Self::lemma_ok_unix(v, self@);
                }
            },
            None => {},
        }
    }

    /// socket(): creates a socket owned by `pid`. Raw sockets need pid 0.
    pub fn socket(&mut self, domain: SocketDomain, sock_type: SocketType, proto: SocketProtocol, pid: u32) -> (r: Result<SockId, SocketError>)
        requires
            old(self).wf(),
            !(sock_type == SocketType::Raw && pid != 0) ==> old(self)@.next_id < u32::MAX && old(self)@.total_created
                < u64::MAX,
        ensures
            final(self).wf(),
            sock_type == SocketType::Raw && pid != 0 ==> r == Err::<SockId, SocketError>(SocketError::PermissionDenied)
                && final(self)@ == old(self)@,
            !(sock_type == SocketType::Raw && pid != 0) ==> {
                let id = old(self)@.next_id;
                &&& r == Ok::<SockId, SocketError>(id)
                &&& fresh_socket(final(self)@.sockets[id], id, domain, sock_type, proto, pid)
                &&& final(self)@ == (SockView {
                    sockets: old(self)@.sockets.insert(id, final(self)@.sockets[id]),
                    ids: final(self)@.ids,
                    next_id: (id + 1) as u32,
                    total_created: (old(self)@.total_created + 1) as u64,
                    ..old(self)@
                })
            },
    {
        if sock_type.requires_root() && pid != 0 {
            return Err(SocketError::PermissionDenied);
        }
        let ghost v = self@;
        let id = self.next_id;
        self.next_id = self.next_id + 1;
        let sock = Socket::new(id, domain, sock_type, proto, pid);
        self.sockets.insert(id, sock);
        self.total_created = self.total_created + 1;
        proof {
            Self::lemma_ok_insert(v, self@, id);
        }
        Ok(id)
    }

    /// bind(): gives an unconnected socket its local address, unless another
    /// socket listens there (for IPv4, unless address or port reuse is on).
    pub fn bind(&mut self, sid: SockId, addr: SocketAddr) -> (r: Result<(), SocketError>)
        requires
            old(self).wf(),
        ensures
            final(self).wf(),
            ({
                let v = old(self)@;
                let s = v.sockets[sid];
                if !v.sockets.contains_key(sid) {
                    r == Err::<(), SocketError>(SocketError::BadDescriptor) && final(self)@ == v
                } else if s.state != SocketState::Unconnected {
                    r == Err::<(), SocketError>(SocketError::AlreadyConnected) && final(self)@ == v
                } else if addr_taken(v, sid, addr, s.options.reuseaddr || s.options.reuseport) {
                    r == Err::<(), SocketError>(SocketError::AddrInUse) && final(self)@ == v
                } else {
                    r == Ok::<(), SocketError>(()) && final(self)@ == with_socket(
                        v,
                        sid,
                        Socket { local_addr: Some(addr), ..s },
                    )
                }
            }),
    {
        let ghost v = self@;
        let (state, reuse) = match self.sockets.get(sid) {
            Some(s) => (s.state, s.options.reuseaddr || s.options.reuseport),
            None => {
                return Err(SocketError::BadDescriptor);
            },
        };
        if state != SocketState::Unconnected {
            return Err(SocketError::AlreadyConnected);
        }
        match &addr {
            SocketAddr::Unix(path) => {
                if self.unix_lookup(path).is_some() || self.bound_elsewhere(sid, &addr) {
                    return Err(SocketError::AddrInUse);
                }
            },
            SocketAddr::Inet { port, .. } => {
                if (self.inet_listeners.contains_key(*port as u32) || self.bound_elsewhere(sid, &addr))
                    && !reuse {
                    return Err(SocketError::AddrInUse);
                }
            },
            _ => {},
        }
        match self.sockets.get_mut(sid) {
            Some(s) => {
                s.local_addr = Some(addr);
            },
            None => {},
        }
        proof {
            assert(socket_ok(v.sockets[sid], sid, v.next_id));
            Self::lemma_ok_insert(v, self@, sid);
        }
        Ok(())
    }
}


impl SocketManager {
    /// listen(): puts a bound connection-oriented socket into listening mode and
    /// registers it under its address.
    pub fn listen(&mut self, sid: SockId, backlog: usize) -> (r: Result<(), SocketError>)
        requires
            old(self).wf(),
        ensures
            final(self).wf(),
            ({
                let v = old(self)@;
                let s = v.sockets[sid];
                if !v.sockets.contains_key(sid) {
                    r == Err::<(), SocketError>(SocketError::BadDescriptor) && final(self)@ == v
                } else if !s.sock_type.connection_oriented() {
                    r == Err::<(), SocketError>(SocketError::OperationNotSupported) && final(self)@ == v
                } else if s.local_addr is None {
                    r == Err::<(), SocketError>(SocketError::AddrNotAvailable) && final(self)@ == v
                } else {
                    let w = with_socket(
                        v,
                        sid,
                        Socket { max_backlog: clamp_backlog(backlog), state: SocketState::Listening, ..s },
                    );
                    &&& r == Ok::<(), SocketError>(())
                    &&& final(self)@ == match s.local_addr.unwrap() {
                        SocketAddr::Unix(p) => SockView { unix: path_insert(w.unix, p@, sid), ..w },
                        SocketAddr::Inet { port, .. } => SockView { inet: w.inet.insert(port as u32, sid), ..w },
                        SocketAddr::Inet6 { .. } => w,
                    }
                }
            }),
    {
        let ghost v = self@;
        let (conn, local) = match self.sockets.get(sid) {
            Some(s) => (s.sock_type.is_connection_oriented(), match &s.local_addr {
                Some(a) => Some(copy_addr(a)),
                None => None,
            }),
            None => {
                return Err(SocketError::BadDescriptor);
            },
        };
        if !conn {
            return Err(SocketError::OperationNotSupported);
        }
        let addr = match local {
            Some(a) => a,
            None => {
                return Err(SocketError::AddrNotAvailable);
            },
        };
        let b = if backlog < 1 {
            1
        } else if backlog > 4096 {
            4096
        } else {
            backlog
        };
        match self.sockets.get_mut(sid) {
            Some(s) => {
                s.max_backlog = b;
                s.state = SocketState::Listening;
            },
            None => {},
        }
        proof {
            assert(socket_ok(v.sockets[sid], sid, v.next_id));
            Self::lemma_ok_insert(v, self@, sid);
        }
        match addr {
            SocketAddr::Unix(path) => {
                self.unix_insert(path, sid);
            },
            SocketAddr::Inet { port, .. } => {
                let ghost w = self@;
                self.inet_listeners.insert(port as u32, sid);
                proof {
                    assert(sock_ok(w));
                    Self::lemma_ok_unix(w, self@);
                }
            },
            _ => {},
        }
        Ok(())
    }

    /// accept(): takes the first pending connection of a listening socket and
    /// returns a new connected socket for it owned by `pid`; the pending socket
    /// goes away.
    pub fn accept(&mut self, sid: SockId, pid: u32) -> (r: Result<SockId, SocketError>)
        requires
            old(self).wf(),
            accept_room(old(self)@, sid),
        ensures
            final(self).wf(),
            ({
                let v = old(self)@;
                let l = v.sockets[sid];
                if !v.sockets.contains_key(sid) {
                    r == Err::<SockId, SocketError>(SocketError::BadDescriptor) && final(self)@ == v
                } else if l.state != SocketState::Listening {
                    r == Err::<SockId, SocketError>(SocketError::NotListening) && final(self)@ == v
                } else if l.backlog@.len() == 0 {
                    r == Err::<SockId, SocketError>(SocketError::WouldBlock) && final(self)@ == v
                } else {
                    let new_id = v.next_id;
                    let pending = l.backlog@[0];
                    let w = final(self)@;
                    let n = w.sockets[new_id];
                    &&& r == Ok::<SockId, SocketError>(new_id)
                    &&& w.next_id == new_id + 1
                    &&& w.total_accepted == v.total_accepted + 1
                    &&& w.unix == v.unix && w.inet == v.inet
                    &&& w.total_created == v.total_created + 1
                    &&& w.total_bytes_sent == v.total_bytes_sent && w.total_bytes_recv == v.total_bytes_recv
                    &&& w.sockets.dom() == v.sockets.dom().insert(new_id).remove(pending)
                    &&& fresh_socket(
                        Socket { state: SocketState::Unconnected, local_addr: None, peer_addr: None, from_listener: false, ..n },
                        new_id,
                        l.domain,
                        l.sock_type,
                        l.protocol,
                        pid,
                    )
                    &&& n.state == SocketState::Connected
                    &&& n.from_listener
                    &&& n.local_addr == l.local_addr
                    &&& n.peer_addr == if v.sockets.contains_key(pending) {
                        v.sockets[pending].local_addr
                    } else {
                        None
                    }
                    &&& sid != pending ==> w.sockets[sid] == Socket { backlog: w.sockets[sid].backlog, ..l }
                        && w.sockets[sid].backlog@ == l.backlog@.drop_first()
                    &&& forall|k: SockId| #[trigger] w.sockets.contains_key(k) && k != sid && k != new_id
                        ==> w.sockets[k] == v.sockets[k]
                }
            }),
    {
        let ghost v = self@;
        let (domain, sock_type, proto, local_addr, pending_id) = match self.sockets.get(sid) {
            Some(l) => {
                if l.state != SocketState::Listening {
                    return Err(SocketError::NotListening);
                }
                if l.backlog.len() == 0 {
                    return Err(SocketError::WouldBlock);
                }
                let local = match &l.local_addr {
                    Some(a) => Some(copy_addr(a)),
                    None => None,
                };
                (l.domain, l.sock_type, l.protocol, local, l.backlog[0])
            },
            None => {
                return Err(SocketError::BadDescriptor);
            },
        };
        let new_id = self.next_id;
        self.next_id = self.next_id + 1;
        let peer = match self.sockets.get(pending_id) {
            Some(p) => match &p.local_addr {
                Some(a) => Some(copy_addr(a)),
                None => None,
            },
            None => None,
        };
        let mut new_sock = Socket::new(new_id, domain, sock_type, proto, pid);
        new_sock.state = SocketState::Connected;
        new_sock.local_addr = local_addr;
        new_sock.peer_addr = peer;
        new_sock.from_listener = true;
        let ghost v1 = self@;
        proof {
            assert(socket_ok(v.sockets[sid], sid, v.next_id));
            assert(v.sockets[sid].backlog@[0] < v.next_id);
            assert forall|k: SockId| #[trigger] v1.sockets.contains_key(k) implies socket_ok(v1.sockets[k], k, v1.next_id) by {
                assert(socket_ok(v.sockets[k], k, v.next_id));
            }
        }
        self.sockets.insert(new_id, new_sock);
        proof {
            Self::lemma_ok_insert(v1, self@, new_id);
        }
        let ghost v2 = self@;
        match self.sockets.get_mut(sid) {
            Some(l) => {
                let _ = l.backlog.remove(0);
            },
            None => {},
        }
        proof {
            let l2 = self@.sockets[sid];
            assert(socket_ok(v2.sockets[sid], sid, v2.next_id));
            assert forall|j: int| 0 <= j < l2.backlog@.len() implies #[trigger] l2.backlog@[j] < self@.next_id by {
                assert(l2.backlog@[j] == v2.sockets[sid].backlog@[j + 1]);
            }
            Self::lemma_ok_insert(v2, self@, sid);
        }
        let ghost v3 = self@;
        self.sockets.remove(pending_id);
        proof {
            Self::lemma_ok_remove(v3, self@, pending_id);
            assert(self@.sockets.dom() =~= v.sockets.dom().insert(new_id).remove(pending_id));
        }
        self.total_accepted = self.total_accepted + 1;
        self.total_created = self.total_created + 1;
        Ok(new_id)
    }
}


/// A pending connection as `connect` creates it in a listener's backlog.
pub open spec fn pending_socket(p: Socket, id: SockId, l: Socket, pid: u32, remote: SocketAddr) -> bool {
    &&& fresh_socket(
        Socket { state: SocketState::Unconnected, local_addr: None, from_listener: false, ..p },
        id,
        l.domain,
        l.sock_type,
        l.protocol,
        pid,
    )
    &&& p.local_addr == Some(remote)
    &&& p.state == SocketState::Connecting
    &&& p.from_listener
}

impl SocketManager {
    fn lookup_listener(&self, remote: &SocketAddr) -> (r: Option<SockId>)
        requires
            self.wf(),
        ensures
            r == listener_for(self@, *remote),
    {
        match remote {
            SocketAddr::Unix(path) => self.unix_lookup(path),
            SocketAddr::Inet { port, .. } => match self.inet_listeners.get(*port as u32) {
                Some(l) => Some(*l),
                None => None,
            },
            _ => None,
        }
    }

    /// connect(): a datagram socket just records its peer. A stream socket whose
    /// target address has a listener puts a new pending socket into that
    /// listener's backlog (refused when the backlog is full); it is then
    /// connected to `remote`, with or without a listener.
    pub fn connect(&mut self, sid: SockId, remote: SocketAddr) -> (r: Result<(), SocketError>)
        requires
            old(self).wf(),
            ({
                let v = old(self)@;
                let s = v.sockets[sid];
                v.sockets.contains_key(sid) && s.state != SocketState::Connected
                    && s.sock_type.connection_oriented() && listener_for(v, remote) is Some
                    ==> v.sockets.contains_key(listener_for(v, remote).unwrap()) && v.next_id < u32::MAX
            }),
        ensures
            final(self).wf(),
            ({
                let v = old(self)@;
                let s = v.sockets[sid];
                let w = final(self)@;
                let t = listener_for(v, remote);
                let connected = Socket { peer_addr: Some(remote), state: SocketState::Connected, ..s };
                if !v.sockets.contains_key(sid) {
                    r == Err::<(), SocketError>(SocketError::BadDescriptor) && w == v
                } else if s.state == SocketState::Connected {
                    r == Err::<(), SocketError>(SocketError::AlreadyConnected) && w == v
                } else if !s.sock_type.connection_oriented() || t is None {
                    r == Ok::<(), SocketError>(()) && w == with_socket(v, sid, connected)
                } else {
                    let lid = t.unwrap();
                    let l = v.sockets[lid];
                    let pid = v.next_id;
                    &&& w.next_id == pid + 1
                    &&& w.unix == v.unix && w.inet == v.inet && w.total_created == v.total_created
                    &&& w.total_accepted == v.total_accepted
                    &&& w.total_bytes_sent == v.total_bytes_sent && w.total_bytes_recv == v.total_bytes_recv
                    &&& if l.backlog@.len() >= l.max_backlog {
                        r == Err::<(), SocketError>(SocketError::ConnectionRefused) && w.sockets == v.sockets
                    } else {
                        &&& r == Ok::<(), SocketError>(())
                        &&& w.sockets.dom() == v.sockets.dom().insert(pid)
                        &&& pending_socket(w.sockets[pid], pid, l, s.owner_pid, remote)
                        &&& forall|k: SockId| #[trigger] w.sockets.contains_key(k) && k != pid && k != lid && k != sid
                            ==> w.sockets[k] == v.sockets[k]
                        &&& lid != sid ==> w.sockets[lid] == Socket { backlog: w.sockets[lid].backlog, ..l }
                            && w.sockets[lid].backlog@ == l.backlog@.push(pid) && w.sockets[sid] == connected
                        &&& lid == sid ==> w.sockets[sid] == Socket { backlog: w.sockets[sid].backlog, ..connected }
                            && w.sockets[sid].backlog@ == l.backlog@.push(pid)
                    }
                }
            }),
    {
        let ghost v = self@;
        let (state, conn, owner) = match self.sockets.get(sid) {
            Some(s) => (s.state, s.sock_type.is_connection_oriented(), s.owner_pid),
            None => {
                return Err(SocketError::BadDescriptor);
            },
        };
        if state == SocketState::Connected {
            return Err(SocketError::AlreadyConnected);
        }
        if conn {
            match self.lookup_listener(&remote) {
                Some(lid) => {
                    let pending_id = self.next_id;
                    self.next_id = self.next_id + 1;
                    let (domain, sock_type, proto) = match self.sockets.get(lid) {
                        Some(l) => (l.domain, l.sock_type, l.protocol),
                        None => (SocketDomain::Unix, SocketType::Stream, SocketProtocol::Default),
                    };
                    let mut pending = Socket::new(pending_id, domain, sock_type, proto, owner);
                    pending.local_addr = Some(copy_addr(&remote));
                    pending.state = SocketState::Connecting;
                    pending.from_listener = true;
                    let ghost v1 = self@;
                    proof {
                        assert forall|k: SockId| #[trigger] v1.sockets.contains_key(k) implies socket_ok(v1.sockets[k], k, v1.next_id) by {
                            assert(socket_ok(v.sockets[k], k, v.next_id));
                        }
                    }
                    let (blen, bmax) = match self.sockets.get(lid) {
                        Some(l) => (l.backlog.len(), l.max_backlog),
                        None => (0, 0),
                    };
                    if blen >= bmax {
                        return Err(SocketError::ConnectionRefused);
                    }
                    self.sockets.insert(pending_id, pending);
                    proof {
                        Self::lemma_ok_insert(v1, self@, pending_id);
                    }
                    let ghost v2 = self@;
                    match self.sockets.get_mut(lid) {
                        Some(l) => {
                            l.backlog.push(pending_id);
                        },
                        None => {},
                    }
                    proof {
                        let l2 = self@.sockets[lid];
                        assert(socket_ok(v2.sockets[lid], lid, v2.next_id));
                        assert forall|j: int| 0 <= j < l2.backlog@.len() implies #[trigger] l2.backlog@[j] < self@.next_id by {
                            if j < v2.sockets[lid].backlog@.len() {
                                assert(l2.backlog@[j] == v2.sockets[lid].backlog@[j]);
                            }
                        }
                        Self::lemma_ok_insert(v2, self@, lid);
                    }
                },
                None => {},
            }
        }
        let ghost v3 = self@;
        match self.sockets.get_mut(sid) {
            Some(s) => {
                s.peer_addr = Some(remote);
                s.state = SocketState::Connected;
            },
            None => {},
        }
        proof {
            assert(v3.sockets.contains_key(sid));
            assert(socket_ok(v3.sockets[sid], sid, v3.next_id));
            Self::lemma_ok_insert(v3, self@, sid);
            if conn && listener_for(v, remote) is Some {
                assert(self@.sockets.dom() =~= v.sockets.dom().insert(v.next_id));
            }
        }
        Ok(())
    }
}


/// `w` and `r` are what `send(sid, data)` makes of `v`.
/// An accept on `sid` that takes a pending connection has an id to give and
/// room in the counters it bumps.
pub open spec fn accept_room(v: SockView, sid: SockId) -> bool {
    v.sockets.contains_key(sid) && v.sockets[sid].state == SocketState::Listening && v.sockets[sid].backlog@.len() > 0
        ==> v.next_id < u32::MAX && v.total_accepted < u64::MAX && v.total_created < u64::MAX
}

/// How many bytes of `len` a send to socket `s` takes: as many as its send
/// buffer has room for.
pub open spec fn send_amount(s: Socket, len: int) -> int {
    min_int(len, sat_sub(s.send_buf.cap() as int, (s.send_buf.bytes().len() + s.send_buf.pos()) as int))
}

/// The count that `send` reports for `n` queued bytes: the last of them is not
/// counted, so a message of `n` bytes is reported as `n - 1`, and nothing
/// queued as 0. The byte counters still add all `n`.
pub open spec fn send_reported(n: int) -> int {
    if n > 0 {
        n - 1
    } else {
        0
    }
}

/// How many bytes a receive into `len` bytes takes from socket `s`.
pub open spec fn recv_amount(s: Socket, len: int) -> int {
    min_int(len, s.recv_buf.unread().len() as int)
}

/// The byte counters of socket `sid` and of `v` can take a send of `len` bytes.
pub open spec fn send_room(v: SockView, sid: SockId, len: int) -> bool {
    v.sockets.contains_key(sid) ==> v.sockets[sid].bytes_sent + send_amount(v.sockets[sid], len) <= u64::MAX
        && v.total_bytes_sent + send_amount(v.sockets[sid], len) <= u64::MAX
}

/// The byte counters of socket `sid` and of `v` can take a receive into `len` bytes.
pub open spec fn recv_room(v: SockView, sid: SockId, len: int) -> bool {
    v.sockets.contains_key(sid) ==> v.sockets[sid].bytes_recv + recv_amount(v.sockets[sid], len) <= u64::MAX
        && v.total_bytes_recv + recv_amount(v.sockets[sid], len) <= u64::MAX
}

pub open spec fn send_done(v: SockView, w: SockView, sid: SockId, data: Seq<u8>, r: Result<usize, SocketError>) -> bool {
    let s = v.sockets[sid];
    if !v.sockets.contains_key(sid) {
        r == Err::<usize, SocketError>(SocketError::BadDescriptor) && w == v
    } else if !s.state.writable() && s.sock_type.connection_oriented() {
        r == Err::<usize, SocketError>(SocketError::NotConnected) && w == v
    } else {
        let b = w.sockets[sid].send_buf;
        let n = send_amount(s, data.len() as int);
        &&& buf_written(s.send_buf, b, data, n as nat)
        &&& if n == 0 && s.options.nonblocking {
            r == Err::<usize, SocketError>(SocketError::WouldBlock) && w == with_socket(v, sid, Socket { send_buf: b, ..s })
        } else {
            &&& r == Ok::<usize, SocketError>(send_reported(n) as usize)
            &&& w == SockView {
                sockets: v.sockets.insert(sid, Socket { send_buf: b, bytes_sent: (s.bytes_sent + n) as u64, ..s }),
                total_bytes_sent: (v.total_bytes_sent + n) as u64,
                ..v
            }
        }
    }
}

/// `w`, the destination contents `d2` and `r` are what `recv(sid, ..)` makes of
/// `v` and destination contents `d`.
pub open spec fn recv_done(v: SockView, w: SockView, sid: SockId, d: Seq<u8>, d2: Seq<u8>, r: Result<usize, SocketError>) -> bool {
    let s = v.sockets[sid];
    if !v.sockets.contains_key(sid) {
        r == Err::<usize, SocketError>(SocketError::BadDescriptor) && w == v && d2 == d
    } else if !s.state.readable() && s.sock_type.connection_oriented() {
        w == v && d2 == d && r == if s.state.closed() {
            Ok::<usize, SocketError>(0)
        } else {
            Err::<usize, SocketError>(SocketError::NotConnected)
        }
    } else {
        let b = w.sockets[sid].recv_buf;
        let n = recv_amount(s, d.len() as int);
        &&& buf_read(s.recv_buf, b, d, d2, n as nat)
        &&& if n == 0 && s.options.nonblocking {
            r == Err::<usize, SocketError>(SocketError::WouldBlock) && w == with_socket(v, sid, Socket { recv_buf: b, ..s })
        } else {
            &&& r == Ok::<usize, SocketError>(n as usize)
            &&& w == SockView {
                sockets: v.sockets.insert(sid, Socket { recv_buf: b, bytes_recv: (s.bytes_recv + n) as u64, ..s }),
                total_bytes_recv: (v.total_bytes_recv + n) as u64,
                ..v
            }
        }
    }
}

/// A socket of `v` that a process opened with `socket`.
pub open spec fn opened_by_process(v: SockView) -> spec_fn(SockId) -> bool {
    |k: SockId| !v.sockets[k].from_listener
}

/// In the registry of `v`.
pub open spec fn has_socket(v: SockView) -> spec_fn(SockId) -> bool {
    |k: SockId| v.sockets.contains_key(k)
}

/// The readiness of socket `k` in `v`.
pub open spec fn poll_of(v: SockView, k: SockId) -> (SockId, PollState) {
    (k, PollState {
        readable: v.sockets[k].readable_now(),
        writable: v.sockets[k].writable_now(),
        error: v.sockets[k].error is Some,
    })
}

impl SocketManager {
    /// send(): appends to the socket's send buffer as much of `data` as fits and
    /// reports one byte fewer than it queued (see `send_reported`).
    pub fn send(&mut self, sid: SockId, data: &[u8]) -> (r: Result<usize, SocketError>)
        requires
            old(self).wf(),
            send_room(old(self)@, sid, data@.len() as int),
        ensures
            final(self).wf(),
            send_done(old(self)@, final(self)@, sid, data@, r),
    {
        let ghost v = self@;
        let (writable, conn, nonblocking) = match self.sockets.get(sid) {
            Some(s) => (s.state.is_writable(), s.sock_type.is_connection_oriented(), s.options.nonblocking),
            None => {
                return Err(SocketError::BadDescriptor);
            },
        };
        if !writable && conn {
            return Err(SocketError::NotConnected);
        }
        proof {
            assert(socket_ok(v.sockets[sid], sid, v.next_id));
        }
        let written = match self.sockets.get_mut(sid) {
            Some(s) => s.send_buf.write(data),
            None => 0,
        };
        proof {
            Self::lemma_ok_insert(v, self@, sid);
        }
        if written == 0 && nonblocking {
            return Err(SocketError::WouldBlock);
        }
        let ghost v1 = self@;
        match self.sockets.get_mut(sid) {
            Some(s) => {
                s.bytes_sent = s.bytes_sent + written as u64;
            },
            None => {},
        }
        self.total_bytes_sent = self.total_bytes_sent + written as u64;
        proof {
            assert(socket_ok(v1.sockets[sid], sid, v1.next_id));
            Self::lemma_ok_insert(v1, self@, sid);
            assert(self@.sockets =~= v.sockets.insert(
                sid,
                Socket {
                    send_buf: self@.sockets[sid].send_buf,
                    bytes_sent: (v.sockets[sid].bytes_sent + written) as u64,
                    ..v.sockets[sid]
                },
            ));
        }
        if written > 0 {
            Ok(written - 1)
        } else {
            Ok(0)
        }
    }

    /// recv(): reads from the socket's receive buffer into `buf`; a closed
    /// connection-oriented socket reads end of file.
    pub fn recv(&mut self, sid: SockId, buf: &mut [u8]) -> (r: Result<usize, SocketError>)
        requires
            old(self).wf(),
            recv_room(old(self)@, sid, old(buf)@.len() as int),
        ensures
            final(self).wf(),
            recv_done(old(self)@, final(self)@, sid, old(buf)@, final(buf)@, r),
    {
        let ghost v = self@;
        let (state, conn, nonblocking) = match self.sockets.get(sid) {
            Some(s) => (s.state, s.sock_type.is_connection_oriented(), s.options.nonblocking),
            None => {
                return Err(SocketError::BadDescriptor);
            },
        };
        if !state.is_readable() && conn {
            if state.is_closed() {
                return Ok(0);
            }
            return Err(SocketError::NotConnected);
        }
        proof {
            assert(socket_ok(v.sockets[sid], sid, v.next_id));
        }
        let read = match self.sockets.get_mut(sid) {
            Some(s) => s.recv_buf.read(buf),
            None => 0,
        };
        proof {
            Self::lemma_ok_insert(v, self@, sid);
        }
        if read == 0 && nonblocking {
            return Err(SocketError::WouldBlock);
        }
        let ghost v1 = self@;
        match self.sockets.get_mut(sid) {
            Some(s) => {
                s.bytes_recv = s.bytes_recv + read as u64;
            },
            None => {},
        }
        self.total_bytes_recv = self.total_bytes_recv + read as u64;
        proof {
            assert(socket_ok(v1.sockets[sid], sid, v1.next_id));
            Self::lemma_ok_insert(v1, self@, sid);
            assert(self@.sockets =~= v.sockets.insert(
                sid,
                Socket {
                    recv_buf: self@.sockets[sid].recv_buf,
                    bytes_recv: (v.sockets[sid].bytes_recv + read) as u64,
                    ..v.sockets[sid]
                },
            ));
        }
        Ok(read)
    }

    /// sendto(): sends to the socket's peer; the destination is not used.
    pub fn sendto(&mut self, sid: SockId, data: &[u8], dest: SocketAddr) -> (r: Result<usize, SocketError>)
        requires
            old(self).wf(),
            send_room(old(self)@, sid, data@.len() as int),
        ensures
            final(self).wf(),
            send_done(old(self)@, final(self)@, sid, data@, r),
    {
        if self.sockets.get(sid).is_none() {
            return Err(SocketError::BadDescriptor);
        }
        self.send(sid, data)
    }

    /// recvfrom(): receives like `recv`, also returning the socket's peer.
    pub fn recvfrom(&mut self, sid: SockId, buf: &mut [u8]) -> (r: Result<(usize, Option<SocketAddr>), SocketError>)
        requires
            old(self).wf(),
            recv_room(old(self)@, sid, old(buf)@.len() as int),
        ensures
            final(self).wf(),
            match r {
                Ok((n, peer)) => recv_done(old(self)@, final(self)@, sid, old(buf)@, final(buf)@, Ok(n))
                    && peer == old(self)@.sockets[sid].peer_addr,
                Err(e) => recv_done(old(self)@, final(self)@, sid, old(buf)@, final(buf)@, Err(e)),
            },
    {
        let peer = match self.sockets.get(sid) {
            Some(s) => match &s.peer_addr {
                Some(a) => Some(copy_addr(a)),
                None => None,
            },
            None => {
                return Err(SocketError::BadDescriptor);
            },
        };
        match self.recv(sid, buf) {
            Ok(n) => Ok((n, peer)),
            Err(e) => Err(e),
        }
    }

    /// close(): removes the socket; a listening socket leaves the registry of its address.
    pub fn close(&mut self, sid: SockId) -> (r: Result<(), SocketError>)
        requires
            old(self).wf(),
        ensures
            final(self).wf(),
            ({
                let v = old(self)@;
                let s = v.sockets[sid];
                if !v.sockets.contains_key(sid) {
                    r == Err::<(), SocketError>(SocketError::BadDescriptor) && final(self)@ == v
                } else {
                    let w = SockView { sockets: v.sockets.remove(sid), ids: final(self)@.ids, ..v };
                    &&& r == Ok::<(), SocketError>(())
                    &&& final(self)@ == if s.state == SocketState::Listening && s.local_addr is Some {
                        match s.local_addr.unwrap() {
                            SocketAddr::Unix(p) => SockView { unix: path_remove(w.unix, p@), ..w },
                            SocketAddr::Inet { port, .. } => SockView { inet: w.inet.remove(port as u32), ..w },
                            SocketAddr::Inet6 { .. } => w,
                        }
                    } else {
                        w
                    }
                }
            }),
    {
        let registered = match self.sockets.get(sid) {
            Some(s) => if s.state == SocketState::Listening {
                match &s.local_addr {
                    Some(a) => Some(copy_addr(a)),
                    None => None,
                }
            } else {
                None
            },
            None => {
                return Err(SocketError::BadDescriptor);
            },
        };
        match registered {
            Some(SocketAddr::Unix(path)) => {
                self.unix_remove(&path);
            },
            Some(SocketAddr::Inet { port, .. }) => {
                let ghost w = self@;
                self.inet_listeners.remove(port as u32);
                proof {
                    Self::lemma_ok_unix(w, self@);
                }
            },
            _ => {},
        }
        let ghost v1 = self@;
        self.sockets.remove(sid);
        proof {
            Self::lemma_ok_remove(v1, self@, sid);
        }
        Ok(())
    }

    /// setsockopt(): sets one option of the socket.
    pub fn setsockopt(&mut self, sid: SockId, opt: SocketOpt) -> (r: Result<(), SocketError>)
        requires
            old(self).wf(),
        ensures
            final(self).wf(),
            !old(self)@.sockets.contains_key(sid) ==> r == Err::<(), SocketError>(SocketError::BadDescriptor)
                && final(self)@ == old(self)@,
            old(self)@.sockets.contains_key(sid) ==> r == Ok::<(), SocketError>(()) && final(self)@ == with_socket(
                old(self)@,
                sid,
                Socket { options: with_opt(old(self)@.sockets[sid].options, opt), ..old(self)@.sockets[sid] },
            ),
    {
        let ghost v = self@;
        match self.sockets.get_mut(sid) {
            Some(s) => {
                match opt {
                    SocketOpt::NonBlock(v) => s.options.nonblocking = v,
                    SocketOpt::ReuseAddr(v) => s.options.reuseaddr = v,
                    SocketOpt::ReusePort(v) => s.options.reuseport = v,
                    SocketOpt::KeepAlive(v) => s.options.keepalive = v,
                    SocketOpt::Broadcast(v) => s.options.broadcast = v,
                    SocketOpt::Linger(v) => s.options.linger = v,
                    SocketOpt::SendBuf(v) => s.options.send_buf_size = v,
                    SocketOpt::RecvBuf(v) => s.options.recv_buf_size = v,
                    SocketOpt::SendTimeout(v) => s.options.send_timeout = v,
                    SocketOpt::RecvTimeout(v) => s.options.recv_timeout = v,
                }
            },
            None => {
                return Err(SocketError::BadDescriptor);
            },
        }
        proof {
            assert(socket_ok(v.sockets[sid], sid, v.next_id));
            Self::lemma_ok_insert(v, self@, sid);
        }
        Ok(())
    }

    /// getsockopt(): the options of the socket.
    pub fn getsockopt(&self, sid: SockId) -> (r: Result<&SocketOptions, SocketError>)
        requires
            self.wf(),
        ensures
            match r {
                Ok(o) => self@.sockets.contains_key(sid) && *o == self@.sockets[sid].options,
                Err(e) => !self@.sockets.contains_key(sid) && e == SocketError::BadDescriptor,
            },
    {
        match self.sockets.get(sid) {
            Some(s) => Ok(&s.options),
            None => Err(SocketError::BadDescriptor),
        }
    }

    pub fn get_socket(&self, sid: SockId) -> (r: Option<&Socket>)
        requires
            self.wf(),
        ensures
            match r {
                Some(s) => self@.sockets.contains_key(sid) && *s == self@.sockets[sid],
                None => !self@.sockets.contains_key(sid),
            },
    {
        self.sockets.get(sid)
    }

    /// The sockets that processes opened with `socket` and have not closed: a
    /// pending or accepted connection socket, which the manager makes itself,
    /// does not count.
    pub fn socket_count(&self) -> (r: usize)
        requires
            self.wf(),
        ensures
            r == self@.ids.filter(opened_by_process(self@)).len(),
    {
        proof {
            self.sockets.lemma_wf();
        }
        let ghost p = opened_by_process(self@);
        let n = self.sockets.len();
        let mut count: usize = 0;
        let mut i: usize = 0;
        while i < n
            invariant
                self.wf(),
                p == opened_by_process(self@),
                n == self@.ids.len(),
                self@.ids == self.sockets.key_seq(),
                forall|j: int| 0 <= j < self.sockets.key_seq().len() ==> #[trigger] self.sockets@[self.sockets.key_seq()[j]]
                    == self.sockets.value_seq()[j],
                self.sockets.key_seq().len() == self.sockets.value_seq().len(),
                i <= n,
                count <= i,
                count == self@.ids.take(i as int).filter(p).len(),
            decreases n - i,
        {
            proof {
                crate::seqs::lemma_filter_take_succ(self@.ids, i as int, p);
            }
            let s = self.sockets.value_at(i);
            assert(self.sockets@[self.sockets.key_seq()[i as int]] == self.sockets.value_seq()[i as int]);
            if !s.from_listener {
                count = count + 1;
            }
            i = i + 1;
        }
        proof {
            crate::seqs::lemma_take_full(self@.ids);
        }
        count
    }

    /// All socket ids, ascending.
    pub fn list_sockets(&self) -> (r: Vec<SockId>)
        requires
            self.wf(),
        ensures
            r@ == self@.ids,
            r@.to_set() == self@.sockets.dom(),
    {
        proof {
            self.sockets.lemma_wf();
        }
        self.sockets.keys()
    }

    /// The readiness of each of `sids` that is a socket, in the order given.
    pub fn poll_sockets(&self, sids: &[SockId]) -> (r: Vec<(SockId, PollState)>)
        requires
            self.wf(),
        ensures
            r@ == sids@.filter(has_socket(self@)).map_values(|k: SockId| poll_of(self@, k)),
    {
        let mut out: Vec<(SockId, PollState)> = Vec::new();
        let mut i: usize = 0;
        while i < sids.len()
            invariant
                self.wf(),
                i <= sids@.len(),
                out@ == sids@.take(i as int).filter(has_socket(self@)).map_values(|k: SockId| poll_of(self@, k)),
            decreases sids@.len() - i,
        {
            proof {
                crate::seqs::lemma_filter_take_succ(sids@, i as int, has_socket(self@));
            }
            let sid = sids[i];
            match self.sockets.get(sid) {
                Some(s) => {
                    proof {
                        assert(socket_ok(self@.sockets[sid], sid, self@.next_id));
                    }
                    let st = PollState { readable: s.can_read(), writable: s.can_write(), error: s.has_error() };
                    let ghost f = sids@.take(i as int).filter(has_socket(self@));
                    out.push((sid, st));
                    assert(f.push(sid).map_values(|k: SockId| poll_of(self@, k)) =~= f.map_values(
                        |k: SockId| poll_of(self@, k),
                    ).push((sid, st)));
                },
                None => {},
            }
            i = i + 1;
        }
        proof {
            crate::seqs::lemma_take_full(sids@);
        }
        out
    }

    /// Socket, creation, acceptance and traffic counts, and the number of
    /// registered listeners.
    pub fn stats(&self) -> (st: SocketStats)
        requires
            self.wf(),
        ensures
            st == (SocketStats {
                total_sockets: self@.sockets.dom().len() as u64,
                total_created: self@.total_created,
                total_accepted: self@.total_accepted,
                total_bytes_sent: self@.total_bytes_sent,
                total_bytes_recv: self@.total_bytes_recv,
                unix_listeners: self@.unix.len() as u64,
                inet_listeners: self@.inet.dom().len() as u64,
            }),
    {
        proof {
            self.sockets.lemma_wf();
            self.inet_listeners.lemma_wf();
        }
        SocketStats {
            total_sockets: self.sockets.len() as u64,
            total_created: self.total_created,
            total_accepted: self.total_accepted,
            total_bytes_sent: self.total_bytes_sent,
            total_bytes_recv: self.total_bytes_recv,
            unix_listeners: self.unix_listeners.len() as u64,
            inet_listeners: self.inet_listeners.len() as u64,
        }
    }
}

} // verus!

//! The TCP/IP layer: IPv4 packets, UDP datagrams and TCP segments with their wire
//! format, a routing table with longest-prefix lookup, and UDP and TCP socket
//! bookkeeping.

use vstd::prelude::*;

verus! {

pub const IP_PROTO_ICMP: u8 = 1;

pub const IP_PROTO_TCP: u8 = 6;

pub const IP_PROTO_UDP: u8 = 17;

/// An IPv4 address.
#[derive(Clone, Copy, Debug, PartialEq, Eq)]
pub struct Ipv4Address(pub [u8; 4]);

impl Ipv4Address {
    pub fn new(a: u8, b: u8, c: u8, d: u8) -> (r: Self)
        ensures
            r.0@ == seq![a, b, c, d],
    {
        let r = Ipv4Address([a, b, c, d]);
        assert(r.0@ =~= seq![a, b, c, d]);
        r
    }

    /// Whether this is the limited broadcast address 255.255.255.255.
    pub fn is_broadcast(&self) -> (r: bool)
        ensures
            r == (self.0@ == seq![255u8, 255u8, 255u8, 255u8]),
    {
        let r = self.0[0] == 255 && self.0[1] == 255 && self.0[2] == 255 && self.0[3] == 255;
        proof {
            if r {
                assert(self.0@ =~= seq![255u8, 255u8, 255u8, 255u8]);
            }
        }
        r
    }
}

/// Errors of the network layer.
#[derive(Clone, Copy, Debug, PartialEq, Eq, Structural)]
pub enum NetworkError {
    PacketTooShort,
    UnsupportedProtocol,
    ArpResolutionFailed,
    NoFrameAvailable,
}

/// `x` in network byte order.
pub open spec fn be16(x: u16) -> Seq<u8> {
    seq![(x / 256) as u8, (x % 256) as u8]
}

/// `x` in network byte order.
pub open spec fn be32(x: u32) -> Seq<u8> {
    seq![(x / 0x100_0000) as u8, ((x / 0x1_0000) % 256) as u8, ((x / 256) % 256) as u8, (x % 256) as u8]
}

/// The 16-bit number whose network byte order is `a`, `b`.
pub open spec fn u16_of(a: u8, b: u8) -> u16 {
    (a * 256 + b) as u16
}

/// The 32-bit number whose network byte order is `a`, `b`, `c`, `d`.
pub open spec fn u32_of(a: u8, b: u8, c: u8, d: u8) -> u32 {
    (a * 0x100_0000 + b * 0x1_0000 + c * 256 + d) as u32
}

pub(crate) fn push_be16(v: &mut Vec<u8>, x: u16)
    ensures
        final(v)@ == old(v)@ + be16(x),
{
    v.push((x / 256) as u8);
    v.push((x % 256) as u8);
    assert(v@ =~= old(v)@ + be16(x));
}

pub(crate) fn push_be32(v: &mut Vec<u8>, x: u32)
    ensures
        final(v)@ == old(v)@ + be32(x),
{
    v.push((x / 0x100_0000) as u8);
    v.push(((x / 0x1_0000) % 256) as u8);
    v.push(((x / 256) % 256) as u8);
    v.push((x % 256) as u8);
    assert(v@ =~= old(v)@ + be32(x));
}

pub(crate) fn push_all(v: &mut Vec<u8>, s: &[u8])
    ensures
        final(v)@ == old(v)@ + s@,
{
    let mut i: usize = 0;
    while i < s.len()
        invariant
            i <= s@.len(),
            v@ == old(v)@ + s@.take(i as int),
        decreases s@.len() - i,
    {
        v.push(s[i]);
        i = i + 1;
        assert(v@ =~= old(v)@ + s@.take(i as int));
    }
    assert(s@.take(i as int) =~= s@);
}

fn bytes_from(data: &[u8], start: usize) -> (r: Vec<u8>)
    requires
        start <= data@.len(),
    ensures
        r@ == data@.skip(start as int),
{
    let mut out: Vec<u8> = Vec::new();
    let mut i: usize = start;
    while i < data.len()
        invariant
            start <= i <= data@.len(),
            out@ == data@.subrange(start as int, i as int),
        decreases data@.len() - i,
    {
        out.push(data[i]);
        i = i + 1;
        assert(out@ =~= data@.subrange(start as int, i as int));
    }
    assert(out@ =~= data@.skip(start as int));
    out
}

fn read_u16(data: &[u8], i: usize) -> (r: u16)
    requires
        i + 1 < data@.len(),
    ensures
        r == u16_of(data@[i as int], data@[i + 1]),
{
    (data[i] as u16) * 256 + (data[i + 1] as u16)
}

fn read_u32(data: &[u8], i: usize) -> (r: u32)
    requires
        i + 3 < data@.len(),
    ensures
        r == u32_of(data@[i as int], data@[i + 1], data@[i + 2], data@[i + 3]),
{
    (data[i] as u32) * 0x100_0000 + (data[i + 1] as u32) * 0x1_0000 + (data[i + 2] as u32) * 256 + (data[
        i + 3] as u32)
}

/// `n` modulo 2^16.
pub open spec fn low16(n: nat) -> u16 {
    (n % 65536) as u16
}

fn length_field(base: u16, n: usize) -> (r: u16)
    ensures
        r == low16((base + n) as nat),
{
    let low = (n % 65536) as u16;
    low.wrapping_add(base)
}

// ═══════════════════════════════════════════════════════════════════════════
// IPv4
// ═══════════════════════════════════════════════════════════════════════════

/// An IPv4 packet.
#[derive(Clone, Debug, PartialEq)]
pub struct Ipv4Packet {
    pub version: u8,
    pub ihl: u8,
    pub dscp: u8,
    pub ecn: u8,
    pub total_length: u16,
    pub identification: u16,
    pub flags: u8,
    pub fragment_offset: u16,
    pub ttl: u8,
    pub protocol: u8,
    pub header_checksum: u16,
    pub src_ip: Ipv4Address,
    pub dst_ip: Ipv4Address,
    pub payload: Vec<u8>,
}

/// The 20 header bytes of `p` on the wire.
pub open spec fn ipv4_header(p: Ipv4Packet) -> Seq<u8> {
    seq![(p.version << 4u8) | p.ihl, (p.dscp << 2u8) | p.ecn] + be16(p.total_length) + be16(
        p.identification,
    ) + be16(((p.flags as u16) << 13u16) | (p.fragment_offset & 0x1FFFu16)) + seq![p.ttl, p.protocol] + be16(
        p.header_checksum,
    ) + p.src_ip.0@ + p.dst_ip.0@
}

/// `p` on the wire: header, then payload.
pub open spec fn ipv4_bytes(p: Ipv4Packet) -> Seq<u8> {
    ipv4_header(p) + p.payload@
}

/// `p` is what `from_bytes` reads from `d` (at least 20 bytes).
pub open spec fn ipv4_parsed(d: Seq<u8>, p: Ipv4Packet) -> bool {
    &&& p.version == d[0] >> 4u8
    &&& p.ihl == d[0] & 0x0Fu8
    &&& p.dscp == d[1] >> 2u8
    &&& p.ecn == d[1] & 0x03u8
    &&& p.total_length == u16_of(d[2], d[3])
    &&& p.identification == u16_of(d[4], d[5])
    &&& p.flags == (u16_of(d[6], d[7]) >> 13u16) as u8
    &&& p.fragment_offset == u16_of(d[6], d[7]) & 0x1FFFu16
    &&& p.ttl == d[8]
    &&& p.protocol == d[9]
    &&& p.header_checksum == u16_of(d[10], d[11])
    &&& p.src_ip.0@ == d.subrange(12, 16)
    &&& p.dst_ip.0@ == d.subrange(16, 20)
    &&& p.payload@ == d.skip((d[0] & 0x0Fu8) * 4)
}

/// Sum of the 16-bit words of `h` in network byte order, an odd last byte counting
/// as the high byte of a word.
pub open spec fn word_sum(h: Seq<u8>) -> nat
    decreases h.len(),
{
    if h.len() == 0 {
        0
    } else if h.len() == 1 {
        (h[0] as nat) * 256
    } else {
        (h[0] as nat) * 256 + (h[1] as nat) + word_sum(h.skip(2))
    }
}

/// Folds the carries of a sum back into 16 bits.
pub open spec fn fold_carries(s: nat) -> nat
    decreases s,
{
    if s < 65536 {
        s
    } else {
        fold_carries(s % 65536 + s / 65536)
    }
}

/// The Internet checksum of `h`: the complement of its one's-complement word sum.
pub open spec fn internet_checksum(h: Seq<u8>) -> u16 {
    !(fold_carries(word_sum(h)) as u16)
}

impl Ipv4Packet {
    /// A packet of protocol `protocol` from `src` to `dst`: version 4, a 20-byte
    /// header, time to live 64, no checksum yet.
    pub fn new(src: Ipv4Address, dst: Ipv4Address, protocol: u8, payload: Vec<u8>) -> (p: Self)
        ensures
            p.version == 4 && p.ihl == 5 && p.dscp == 0 && p.ecn == 0,
            p.total_length == low16(20 + payload@.len()),
            p.identification == 0 && p.flags == 0 && p.fragment_offset == 0,
            p.ttl == 64 && p.protocol == protocol && p.header_checksum == 0,
            p.src_ip == src && p.dst_ip == dst,
            p.payload@ == payload@,
    {
        let total_length = length_field(20, payload.len());
        Ipv4Packet {
            version: 4,
            ihl: 5,
            dscp: 0,
            ecn: 0,
            total_length,
            identification: 0,
            flags: 0,
            fragment_offset: 0,
            ttl: 64,
            protocol,
            header_checksum: 0,
            src_ip: src,
            dst_ip: dst,
            payload,
        }
    }

    fn header_bytes(&self) -> (r: Vec<u8>)
        ensures
            r@ == ipv4_header(*self),
    {
        let mut buf: Vec<u8> = Vec::new();
        buf.push((self.version << 4) | self.ihl);
        buf.push((self.dscp << 2) | self.ecn);
        push_be16(&mut buf, self.total_length);
        push_be16(&mut buf, self.identification);
        let flags_frag: u16 = ((self.flags as u16) << 13) | (self.fragment_offset & 0x1FFF);
        push_be16(&mut buf, flags_frag);
        buf.push(self.ttl);
        buf.push(self.protocol);
        push_be16(&mut buf, self.header_checksum);
        push_all(&mut buf, &self.src_ip.0);
        push_all(&mut buf, &self.dst_ip.0);
        assert(buf@ =~= ipv4_header(*self));
        buf
    }

    /// The packet on the wire.
    pub fn to_bytes(&self) -> (r: Vec<u8>)
        ensures
            r@ == ipv4_bytes(*self),
    {
        let mut buf = self.header_bytes();
        push_all(&mut buf, self.payload.as_slice());
        buf
    }

    /// Reads a packet: too short below 20 bytes or below the header length the
    /// header states, unsupported unless version 4.
    pub fn from_bytes(data: &[u8]) -> (r: Result<Self, NetworkError>)
        ensures
            data@.len() < 20 ==> r == Err::<Ipv4Packet, NetworkError>(NetworkError::PacketTooShort),
            data@.len() >= 20 && data@[0] >> 4u8 != 4 ==> r == Err::<Ipv4Packet, NetworkError>(
                NetworkError::UnsupportedProtocol,
            ),
            data@.len() >= 20 && data@[0] >> 4u8 == 4 && data@.len() < (data@[0] & 0x0Fu8) * 4 ==> r == Err::<
                Ipv4Packet,
                NetworkError,
            >(NetworkError::PacketTooShort),
            data@.len() >= 20 && data@[0] >> 4u8 == 4 && data@.len() >= (data@[0] & 0x0Fu8) * 4 ==> (r matches Ok(
                p,
            ) && ipv4_parsed(data@, p)),
    {
        if data.len() < 20 {
            return Err(NetworkError::PacketTooShort);
        }
        let version = data[0] >> 4;
        let ihl = data[0] & 0x0F;
        if version != 4 {
            return Err(NetworkError::UnsupportedProtocol);
        }
        let dscp = data[1] >> 2;
        let ecn = data[1] & 0x03;
        let total_length = read_u16(data, 2);
        let identification = read_u16(data, 4);
        let flags_frag = read_u16(data, 6);
        let flags = (flags_frag >> 13) as u8;
        let fragment_offset = flags_frag & 0x1FFF;
        let ttl = data[8];
        let protocol = data[9];
        let header_checksum = read_u16(data, 10);
        let src_ip = Ipv4Address([data[12], data[13], data[14], data[15]]);
        let dst_ip = Ipv4Address([data[16], data[17], data[18], data[19]]);
        assert(src_ip.0@ =~= data@.subrange(12, 16));
        assert(dst_ip.0@ =~= data@.subrange(16, 20));
        let header_len = (ihl as usize) * 4;
        if data.len() < header_len {
            return Err(NetworkError::PacketTooShort);
        }
        let payload = bytes_from(data, header_len);
        Ok(
            Ipv4Packet {
                version,
                ihl,
                dscp,
                ecn,
                total_length,
                identification,
                flags,
                fragment_offset,
                ttl,
                protocol,
                header_checksum,
                src_ip,
                dst_ip,
                payload,
            },
        )
    }
}


proof fn lemma_word_sum_step(h: Seq<u8>, i: int)
    requires
        0 <= i,
        i + 1 < h.len(),
    ensures
        word_sum(h.skip(i)) == (h[i] as nat) * 256 + (h[i + 1] as nat) + word_sum(h.skip(i + 2)),
{
    assert(h.skip(i).skip(2) =~= h.skip(i + 2));
}

proof fn lemma_word_sum_bound(h: Seq<u8>)
    ensures
        word_sum(h) <= (h.len() + 1) * 32768,
    decreases h.len(),
{
    if h.len() >= 2 {
        lemma_word_sum_bound(h.skip(2));
    }
}

proof fn lemma_fold_step(s: u32)
    requires
        s >> 16u32 != 0,
    ensures
        (s & 0xFFFFu32) + (s >> 16u32) < s,
        s >= 65536,
        fold_carries(((s & 0xFFFFu32) + (s >> 16u32)) as nat) == fold_carries(s as nat),
{
    assert(s & 0xFFFFu32 == s % 65536) by (bit_vector);
    assert(s >> 16u32 == s / 65536) by (bit_vector);
    assert(s >> 16u32 != 0 ==> s >= 65536) by (bit_vector);
}

/// `p` with its header checksum computed over its header, the checksum field
/// counting as zero.
pub open spec fn checksummed(p: Ipv4Packet) -> Ipv4Packet {
    Ipv4Packet { header_checksum: internet_checksum(ipv4_header(p).update(10, 0).update(11, 0)), ..p }
}

impl Ipv4Packet {
    /// The Internet checksum of `header` (RFC 1071): one's-complement sum of its
    /// 16-bit words, complemented.
    pub fn calculate_checksum(header: &[u8]) -> (r: u16)
        requires
            word_sum(header@) <= u32::MAX,
        ensures
            r == internet_checksum(header@),
    {
        let mut sum: u32 = 0;
        let mut i: usize = 0;
        assert(header@.skip(0) =~= header@);
        while header.len() - i > 1
            invariant
                word_sum(header@) <= u32::MAX,
                i <= header@.len(),
                sum + word_sum(header@.skip(i as int)) == word_sum(header@),
            decreases header@.len() - i,
        {
            proof {
                lemma_word_sum_step(header@, i as int);
            }
            sum = sum + (header[i] as u32) * 256 + (header[i + 1] as u32);
            i = i + 2;
        }
        if i < header.len() {
            proof {
                assert(header@.skip(i as int).len() == 1);
                assert(header@.skip(i as int)[0] == header@[i as int]);
            }
            sum = sum + (header[i] as u32) * 256;
        } else {
            assert(header@.skip(i as int).len() == 0);
        }
        assert(sum == word_sum(header@));
        while sum >> 16 != 0
            invariant
                fold_carries(sum as nat) == fold_carries(word_sum(header@)),
            decreases sum,
        {
            proof {
                lemma_fold_step(sum);
            }
            sum = (sum & 0xFFFF) + (sum >> 16);
        }
        proof {
            assert(sum >> 16u32 == 0 ==> sum < 65536) by (bit_vector);
        }
        !(sum as u16)
    }

    /// The packet with its header checksum computed over its header, the
    /// checksum field counting as zero.
    pub fn with_checksum(self) -> (r: Self)
        ensures
            r == checksummed(self),
    {
        let mut p = self;
        let mut header = p.header_bytes();
        header.set(10, 0);
        header.set(11, 0);
        proof {
            lemma_word_sum_bound(header@);
        }
        p.header_checksum = Self::calculate_checksum(header.as_slice());
        p
    }
}


// ═══════════════════════════════════════════════════════════════════════════
// UDP
// ═══════════════════════════════════════════════════════════════════════════

/// A UDP datagram.
#[derive(Clone, Debug, PartialEq)]
pub struct UdpPacket {
    pub src_port: u16,
    pub dst_port: u16,
    pub length: u16,
    pub checksum: u16,
    pub payload: Vec<u8>,
}

/// `u` on the wire: the 8-byte header, then the payload.
pub open spec fn udp_bytes(u: UdpPacket) -> Seq<u8> {
    be16(u.src_port) + be16(u.dst_port) + be16(u.length) + be16(u.checksum) + u.payload@
}

/// `u` is what `from_bytes` reads from `d` (at least 8 bytes).
pub open spec fn udp_parsed(d: Seq<u8>, u: UdpPacket) -> bool {
    &&& u.src_port == u16_of(d[0], d[1])
    &&& u.dst_port == u16_of(d[2], d[3])
    &&& u.length == u16_of(d[4], d[5])
    &&& u.checksum == u16_of(d[6], d[7])
    &&& u.payload@ == d.skip(8)
}

impl UdpPacket {
    /// A datagram whose length field counts the 8 header bytes and the payload.
    pub fn new(src_port: u16, dst_port: u16, payload: Vec<u8>) -> (u: Self)
        ensures
            u.src_port == src_port && u.dst_port == dst_port,
            u.length == low16(8 + payload@.len()),
            u.checksum == 0,
            u.payload@ == payload@,
    {
        let length = length_field(8, payload.len());
        UdpPacket { src_port, dst_port, length, checksum: 0, payload }
    }

    /// The datagram on the wire.
    pub fn to_bytes(&self) -> (r: Vec<u8>)
        ensures
            r@ == udp_bytes(*self),
    {
        let mut buf: Vec<u8> = Vec::new();
        push_be16(&mut buf, self.src_port);
        push_be16(&mut buf, self.dst_port);
        push_be16(&mut buf, self.length);
        push_be16(&mut buf, self.checksum);
        push_all(&mut buf, self.payload.as_slice());
        buf
    }

    /// Reads a datagram; too short below 8 bytes.
    pub fn from_bytes(data: &[u8]) -> (r: Result<Self, NetworkError>)
        ensures
            data@.len() < 8 ==> r == Err::<UdpPacket, NetworkError>(NetworkError::PacketTooShort),
            data@.len() >= 8 ==> (r matches Ok(u) && udp_parsed(data@, u)),
    {
        if data.len() < 8 {
            return Err(NetworkError::PacketTooShort);
        }
        Ok(
            UdpPacket {
                src_port: read_u16(data, 0),
                dst_port: read_u16(data, 2),
                length: read_u16(data, 4),
                checksum: read_u16(data, 6),
                payload: bytes_from(data, 8),
            },
        )
    }
}

// ═══════════════════════════════════════════════════════════════════════════
// TCP
// ═══════════════════════════════════════════════════════════════════════════

pub const TCP_FIN: u8 = 0x01;

pub const TCP_SYN: u8 = 0x02;

pub const TCP_RST: u8 = 0x04;

pub const TCP_PSH: u8 = 0x08;

pub const TCP_ACK: u8 = 0x10;

pub const TCP_URG: u8 = 0x20;

/// A TCP segment.
#[derive(Clone, Debug, PartialEq)]
pub struct TcpSegment {
    pub src_port: u16,
    pub dst_port: u16,
    pub seq_num: u32,
    pub ack_num: u32,
    pub data_offset: u8,
    pub flags: u8,
    pub window_size: u16,
    pub checksum: u16,
    pub urgent_ptr: u16,
    pub payload: Vec<u8>,
}

/// `t` on the wire: the 20-byte header, then the payload.
pub open spec fn tcp_bytes(t: TcpSegment) -> Seq<u8> {
    be16(t.src_port) + be16(t.dst_port) + be32(t.seq_num) + be32(t.ack_num) + seq![
        t.data_offset << 4u8,
        t.flags,
    ] + be16(t.window_size) + be16(t.checksum) + be16(t.urgent_ptr) + t.payload@
}

/// `t` is what `from_bytes` reads from `d` (at least 20 bytes): the payload
/// starts after the header length that the data offset states, and is empty
/// where the data ends there or before.
pub open spec fn tcp_parsed(d: Seq<u8>, t: TcpSegment) -> bool {
    &&& t.src_port == u16_of(d[0], d[1])
    &&& t.dst_port == u16_of(d[2], d[3])
    &&& t.seq_num == u32_of(d[4], d[5], d[6], d[7])
    &&& t.ack_num == u32_of(d[8], d[9], d[10], d[11])
    &&& t.data_offset == d[12] >> 4u8
    &&& t.flags == d[13]
    &&& t.window_size == u16_of(d[14], d[15])
    &&& t.checksum == u16_of(d[16], d[17])
    &&& t.urgent_ptr == u16_of(d[18], d[19])
    &&& t.payload@ == (if d.len() > (d[12] >> 4u8) * 4 {
        d.skip((d[12] >> 4u8) * 4)
    } else {
        Seq::<u8>::empty()
    })
}

/// Whether the flag bits `bit` are set in `flags`.
pub open spec fn has_flag(flags: u8, bit: u8) -> bool {
    flags & bit != 0
}

impl TcpSegment {
    /// A segment with a 20-byte header (data offset 5), the largest window, no
    /// checksum and no urgent data.
    pub fn new(src_port: u16, dst_port: u16, seq: u32, ack: u32, flags: u8, payload: Vec<u8>) -> (t: Self)
        ensures
            t.src_port == src_port && t.dst_port == dst_port,
            t.seq_num == seq && t.ack_num == ack,
            t.data_offset == 5 && t.flags == flags,
            t.window_size == 65535 && t.checksum == 0 && t.urgent_ptr == 0,
            t.payload@ == payload@,
    {
        TcpSegment {
            src_port,
            dst_port,
            seq_num: seq,
            ack_num: ack,
            data_offset: 5,
            flags,
            window_size: 65535,
            checksum: 0,
            urgent_ptr: 0,
            payload,
        }
    }

    /// The segment on the wire.
    pub fn to_bytes(&self) -> (r: Vec<u8>)
        ensures
            r@ == tcp_bytes(*self),
    {
        let mut buf: Vec<u8> = Vec::new();
        push_be16(&mut buf, self.src_port);
        push_be16(&mut buf, self.dst_port);
        push_be32(&mut buf, self.seq_num);
        push_be32(&mut buf, self.ack_num);
        buf.push(self.data_offset << 4);
        buf.push(self.flags);
        push_be16(&mut buf, self.window_size);
        push_be16(&mut buf, self.checksum);
        push_be16(&mut buf, self.urgent_ptr);
        push_all(&mut buf, self.payload.as_slice());
        assert(buf@ =~= tcp_bytes(*self));
        buf
    }

    /// Reads a segment; too short below 20 bytes. The payload starts after the
    /// header length that the data offset states, and is empty where the data
    /// ends there or before.
    pub fn from_bytes(data: &[u8]) -> (r: Result<Self, NetworkError>)
        ensures
            data@.len() < 20 ==> r == Err::<TcpSegment, NetworkError>(NetworkError::PacketTooShort),
            data@.len() >= 20 ==> (r matches Ok(t) && tcp_parsed(data@, t)),
    {
        if data.len() < 20 {
            return Err(NetworkError::PacketTooShort);
        }
        let data_offset = data[12] >> 4;
        let header_len = (data_offset as usize) * 4;
        let payload = if data.len() > header_len {
            bytes_from(data, header_len)
        } else {
            Vec::new()
        };
        Ok(
            TcpSegment {
                src_port: read_u16(data, 0),
                dst_port: read_u16(data, 2),
                seq_num: read_u32(data, 4),
                ack_num: read_u32(data, 8),
                data_offset,
                flags: data[13],
                window_size: read_u16(data, 14),
                checksum: read_u16(data, 16),
                urgent_ptr: read_u16(data, 18),
                payload,
            },
        )
    }

    pub fn is_syn(&self) -> (r: bool)
        ensures
            r == has_flag(self.flags, TCP_SYN),
    {
        self.flags & TCP_SYN != 0
    }

    pub fn is_ack(&self) -> (r: bool)
        ensures
            r == has_flag(self.flags, TCP_ACK),
    {
        self.flags & TCP_ACK != 0
    }

    pub fn is_fin(&self) -> (r: bool)
        ensures
            r == has_flag(self.flags, TCP_FIN),
    {
        self.flags & TCP_FIN != 0
    }

    pub fn is_rst(&self) -> (r: bool)
        ensures
            r == has_flag(self.flags, TCP_RST),
    {
        self.flags & TCP_RST != 0
    }
}


// ═══════════════════════════════════════════════════════════════════════════
// Routing
// ═══════════════════════════════════════════════════════════════════════════

/// A route: the network it reaches, its prefix length, an optional gateway,
/// the interface and a metric (lower is preferred).
#[derive(Debug, PartialEq)]
pub struct Route {
    pub network: Ipv4Address,
    pub prefix_len: u8,
    pub gateway: Option<Ipv4Address>,
    pub interface: String,
    pub metric: u32,
}

impl Clone for Route {
    fn clone(&self) -> (r: Self)
        ensures
            r == *self,
    {
        Route {
            network: self.network,
            prefix_len: self.prefix_len,
            gateway: self.gateway,
            interface: self.interface.clone(),
            metric: self.metric,
        }
    }
}

/// The address as a 32-bit number, first byte most significant.
pub open spec fn addr_u32(a: Ipv4Address) -> u32 {
    u32_of(a.0@[0], a.0@[1], a.0@[2], a.0@[3])
}

/// The netmask of a prefix length from 1 on: its `prefix` high bits set.
pub open spec fn prefix_mask(prefix: u8) -> u32 {
    if prefix >= 32 {
        0xFFFF_FFFFu32
    } else {
        !(((1u32 << ((32 - prefix) as u32)) - 1) as u32)
    }
}

/// `ip` lies in `network`/`prefix`; every address lies in a prefix of length 0.
pub open spec fn prefix_matches(ip: Ipv4Address, network: Ipv4Address, prefix: u8) -> bool {
    prefix == 0 || (addr_u32(ip) & prefix_mask(prefix)) == (addr_u32(network) & prefix_mask(prefix))
}

/// Routes ordered by metric, lowest first.
pub open spec fn by_metric(s: Seq<Route>) -> bool {
    forall|i: int, j: int| 0 <= i <= j < s.len() ==> s[i].metric <= s[j].metric
}

/// How many routes at the front of `s` have a metric of at most `m`: where a
/// route of metric `m` goes, after those of equal metric.
pub open spec fn metric_pos(s: Seq<Route>, m: u32) -> nat
    decreases s.len(),
{
    if s.len() == 0 || s[0].metric > m {
        0
    } else {
        1 + metric_pos(s.skip(1), m)
    }
}

/// `s[k]` is the route that a lookup of `dst` picks: it matches, no matching
/// route has a longer prefix, and none after it has one as long.
pub open spec fn best_route(s: Seq<Route>, dst: Ipv4Address, k: int) -> bool {
    &&& 0 <= k < s.len()
    &&& prefix_matches(dst, s[k].network, s[k].prefix_len)
    &&& forall|j: int|
        0 <= j < s.len() && prefix_matches(dst, s[j].network, s[j].prefix_len) ==> s[j].prefix_len
            <= s[k].prefix_len
    &&& forall|j: int|
        k < j < s.len() && prefix_matches(dst, s[j].network, s[j].prefix_len) ==> s[j].prefix_len
            < s[k].prefix_len
}

proof fn lemma_metric_pos_step(s: Seq<Route>, m: u32, i: int)
    requires
        0 <= i < s.len(),
        s[i].metric <= m,
    ensures
        metric_pos(s.skip(i), m) == 1 + metric_pos(s.skip(i + 1), m),
{
    assert(s.skip(i).skip(1) =~= s.skip(i + 1));
}

fn addr_value(a: Ipv4Address) -> (r: u32)
    ensures
        r == addr_u32(a),
{
    (a.0[0] as u32) * 0x100_0000 + (a.0[1] as u32) * 0x1_0000 + (a.0[2] as u32) * 256 + (a.0[3] as u32)
}

/// The routing table, kept ordered by metric.
pub struct RoutingTable {
    routes: Vec<Route>,
}

impl RoutingTable {
    /// The routes, lowest metric first.
    pub closed spec fn routes(&self) -> Seq<Route> {
        self.routes@
    }

    pub closed spec fn wf(&self) -> bool {
        by_metric(self.routes@)
    }

    pub fn new() -> (t: Self)
        ensures
            t.wf(),
            t.routes() == Seq::<Route>::empty(),
    {
        RoutingTable { routes: Vec::new() }
    }

    /// Adds a route after every route whose metric is no greater.
    pub fn add(&mut self, route: Route)
        requires
            old(self).wf(),
        ensures
            final(self).wf(),
            final(self).routes() == old(self).routes().insert(
                metric_pos(old(self).routes(), route.metric) as int,
                route,
            ),
    {
        let ghost s = self.routes@;
        let m = route.metric;
        let mut i: usize = 0;
        assert(s.skip(0) =~= s);
        while i < self.routes.len() && self.routes[i].metric <= m
            invariant
                self.routes@ == s,
                by_metric(s),
                i <= s.len(),
                metric_pos(s, m) == i + metric_pos(s.skip(i as int), m),
                forall|j: int| 0 <= j < i ==> s[j].metric <= m,
            decreases s.len() - i,
        {
            proof {
                lemma_metric_pos_step(s, m, i as int);
            }
            i = i + 1;
        }
        assert(metric_pos(s.skip(i as int), m) == 0);
        self.routes.insert(i, route);
        assert(self.routes@ =~= s.insert(i as int, route));
        assert forall|a: int, b: int| 0 <= a <= b < self.routes@.len() implies self.routes@[a].metric
            <= self.routes@[b].metric by {
            if i < s.len() {
                assert(s[i as int].metric > m);
            }
        }
    }

    fn matches(ip: Ipv4Address, network: Ipv4Address, prefix: u8) -> (r: bool)
        ensures
            r == prefix_matches(ip, network, prefix),
    {
        if prefix == 0 {
            return true;
        }
        let mask: u32 = if prefix >= 32 {
            0xFFFF_FFFF
        } else {
            let sh: u32 = 32 - (prefix as u32);
            assert(1 <= sh <= 31 ==> (1u32 << sh) >= 1) by (bit_vector);
            !((1u32 << sh) - 1)
        };
        (addr_value(ip) & mask) == (addr_value(network) & mask)
    }

    /// The route for `dst`: of the matching routes, one with the longest prefix,
    /// the last such in metric order; `None` where no route matches.
    pub fn lookup(&self, dst: Ipv4Address) -> (r: Option<Route>)
        ensures
            r is None <==> forall|j: int|
                0 <= j < self.routes().len() ==> !prefix_matches(
                    dst,
                    self.routes()[j].network,
                    self.routes()[j].prefix_len,
                ),
            r matches Some(route) ==> exists|k: int|
                best_route(self.routes(), dst, k) && route == self.routes()[k],
    {
        let ghost s = self.routes@;
        let mut best: Option<usize> = None;
        let mut best_len: u8 = 0;
        let mut i: usize = 0;
        while i < self.routes.len()
            invariant
                self.routes@ == s,
                i <= s.len(),
                best is None ==> best_len == 0 && forall|j: int|
                    0 <= j < i ==> !prefix_matches(dst, #[trigger] s[j].network, s[j].prefix_len),
                best matches Some(k) ==> {
                    &&& k < i
                    &&& best_len == s[k as int].prefix_len
                    &&& prefix_matches(dst, s[k as int].network, s[k as int].prefix_len)
                    &&& forall|j: int|
                        0 <= j < i && prefix_matches(dst, #[trigger] s[j].network, s[j].prefix_len)
                            ==> s[j].prefix_len <= best_len
                    &&& forall|j: int|
                        k < j < i && prefix_matches(dst, #[trigger] s[j].network, s[j].prefix_len)
                            ==> s[j].prefix_len < best_len
                },
            decreases s.len() - i,
        {
            let route = &self.routes[i];
            if Self::matches(dst, route.network, route.prefix_len) {
                if route.prefix_len >= best_len {
                    best = Some(i);
                    best_len = route.prefix_len;
                }
            }
            i = i + 1;
        }
        match best {
            Some(k) => {
                let r = self.routes[k].clone();
                assert(best_route(s, dst, k as int));
                Some(r)
            },
            None => None,
        }
    }

    pub fn route_count(&self) -> (n: usize)
        ensures
            n == self.routes().len(),
    {
        self.routes.len()
    }

    pub fn clear(&mut self)
        ensures
            final(self).wf(),
            final(self).routes() == Seq::<Route>::empty(),
    {
        self.routes.clear();
    }
}


// ═══════════════════════════════════════════════════════════════════════════
// Sockets
// ═══════════════════════════════════════════════════════════════════════════

pub type SocketId = u64;

/// The states of a TCP connection.
#[derive(Clone, Copy, Debug, PartialEq, Eq, Structural)]
pub enum TcpState {
    Closed,
    Listen,
    SynSent,
    SynReceived,
    Established,
    FinWait1,
    FinWait2,
    CloseWait,
    LastAck,
    TimeWait,
}

/// A UDP socket. Datagrams wait in `recv_queue`, newest first.
#[derive(Debug, PartialEq)]
pub struct UdpSocket {
    pub id: SocketId,
    pub local_ip: Ipv4Address,
    pub local_port: u16,
    pub remote_ip: Option<Ipv4Address>,
    pub remote_port: Option<u16>,
    pub recv_queue: Vec<Vec<u8>>,
}

/// A TCP socket. Received data waits in `recv_queue`, newest first.
#[derive(Debug, PartialEq)]
pub struct TcpSocket {
    pub id: SocketId,
    pub local_ip: Ipv4Address,
    pub local_port: u16,
    pub remote_ip: Option<Ipv4Address>,
    pub remote_port: Option<u16>,
    pub state: TcpState,
    pub seq_num: u32,
    pub ack_num: u32,
    pub recv_queue: Vec<Vec<u8>>,
}

/// What a UDP socket holds, its queue as byte sequences.
pub struct UdpView {
    pub id: SocketId,
    pub local_ip: Ipv4Address,
    pub local_port: u16,
    pub remote_ip: Option<Ipv4Address>,
    pub remote_port: Option<u16>,
    pub queue: Seq<Seq<u8>>,
}

/// What a TCP socket holds, its queue as byte sequences.
pub struct TcpView {
    pub id: SocketId,
    pub local_ip: Ipv4Address,
    pub local_port: u16,
    pub remote_ip: Option<Ipv4Address>,
    pub remote_port: Option<u16>,
    pub state: TcpState,
    pub seq_num: u32,
    pub ack_num: u32,
    pub queue: Seq<Seq<u8>>,
}

pub open spec fn queue_view(q: Seq<Vec<u8>>) -> Seq<Seq<u8>> {
    q.map_values(|b: Vec<u8>| b@)
}

impl View for UdpSocket {
    type V = UdpView;

    open spec fn view(&self) -> UdpView {
        UdpView {
            id: self.id,
            local_ip: self.local_ip,
            local_port: self.local_port,
            remote_ip: self.remote_ip,
            remote_port: self.remote_port,
            queue: queue_view(self.recv_queue@),
        }
    }
}

impl View for TcpSocket {
    type V = TcpView;

    open spec fn view(&self) -> TcpView {
        TcpView {
            id: self.id,
            local_ip: self.local_ip,
            local_port: self.local_port,
            remote_ip: self.remote_ip,
            remote_port: self.remote_port,
            state: self.state,
            seq_num: self.seq_num,
            ack_num: self.ack_num,
            queue: queue_view(self.recv_queue@),
        }
    }
}

/// `a + b` modulo 2^32.
pub open spec fn wrap_add32(a: u32, b: nat) -> u32 {
    ((a + b) % 0x1_0000_0000) as u32
}

/// What a TCP socket becomes when segment `seg` arrives from `src_ip`:`src_port`.
pub open spec fn tcp_step(v: TcpView, src_ip: Ipv4Address, src_port: u16, seg: TcpSegment) -> TcpView {
    let syn = has_flag(seg.flags, TCP_SYN);
    let ack = has_flag(seg.flags, TCP_ACK);
    let fin = has_flag(seg.flags, TCP_FIN);
    match v.state {
        TcpState::Listen => if syn {
            TcpView {
                remote_ip: Some(src_ip),
                remote_port: Some(src_port),
                ack_num: wrap_add32(seg.seq_num, 1),
                state: TcpState::SynReceived,
                ..v
            }
        } else {
            v
        },
        TcpState::SynSent => if syn && ack {
            TcpView {
                ack_num: wrap_add32(seg.seq_num, 1),
                seq_num: seg.ack_num,
                state: TcpState::Established,
                ..v
            }
        } else {
            v
        },
        TcpState::Established => if fin {
            TcpView { ack_num: wrap_add32(seg.seq_num, 1), state: TcpState::CloseWait, ..v }
        } else if seg.payload@.len() > 0 {
            TcpView {
                queue: seq![seg.payload@] + v.queue,
                ack_num: wrap_add32(seg.seq_num, seg.payload@.len()),
                ..v
            }
        } else {
            v
        },
        TcpState::FinWait1 => if fin {
            TcpView { state: TcpState::TimeWait, ..v }
        } else if ack {
            TcpView { state: TcpState::FinWait2, ..v }
        } else {
            v
        },
        TcpState::LastAck => if ack {
            TcpView { state: TcpState::Closed, ..v }
        } else {
            v
        },
        _ => v,
    }
}

/// The UDP and TCP sockets, each in ascending id order, and the next id to give.
pub struct NetSocketsView {
    pub udp: Seq<UdpView>,
    pub tcp: Seq<TcpView>,
    pub next_id: SocketId,
}

/// `udp` after a datagram with `payload` arrives for `port`: every socket bound
/// to that port queues it in front.
pub open spec fn udp_delivered(udp: Seq<UdpView>, port: u16, payload: Seq<u8>) -> Seq<UdpView> {
    udp.map_values(
        |v: UdpView|
            if v.local_port == port {
                UdpView { queue: seq![payload] + v.queue, ..v }
            } else {
                v
            },
    )
}

/// `k` is the first socket of `tcp` bound to `port`.
pub open spec fn first_on_port(tcp: Seq<TcpView>, port: u16, k: int) -> bool {
    &&& 0 <= k < tcp.len()
    &&& tcp[k].local_port == port
    &&& forall|j: int| 0 <= j < k ==> tcp[j].local_port != port
}

/// `w` is `v` after segment `seg` from `src_ip`:`src_port` arrives for
/// `dst_port`: the first TCP socket bound there moves as `tcp_step` says, and
/// without one nothing changes.
pub open spec fn tcp_handled(
    v: NetSocketsView,
    w: NetSocketsView,
    src_ip: Ipv4Address,
    src_port: u16,
    dst_port: u16,
    seg: TcpSegment,
) -> bool {
    &&& forall|k: int|
        first_on_port(v.tcp, dst_port, k) ==> w == (NetSocketsView {
            tcp: v.tcp.update(k, tcp_step(v.tcp[k], src_ip, src_port, seg)),
            ..v
        })
    &&& (forall|j: int| 0 <= j < v.tcp.len() ==> v.tcp[j].local_port != dst_port) ==> w == v
}

pub open spec fn ids_ascending(ids: Seq<SocketId>, next_id: SocketId) -> bool {
    &&& forall|i: int, j: int| 0 <= i < j < ids.len() ==> ids[i] < ids[j]
    &&& forall|i: int| 0 <= i < ids.len() ==> ids[i] < next_id
}

/// The socket tables of the TCP/IP layer.
pub struct SocketManager {
    udp_sockets: Vec<UdpSocket>,
    tcp_sockets: Vec<TcpSocket>,
    next_id: SocketId,
}

impl View for SocketManager {
    type V = NetSocketsView;

    closed spec fn view(&self) -> NetSocketsView {
        NetSocketsView {
            udp: self.udp_sockets@.map_values(|s: UdpSocket| s@),
            tcp: self.tcp_sockets@.map_values(|s: TcpSocket| s@),
            next_id: self.next_id,
        }
    }
}

pub open spec fn udp_ids(v: NetSocketsView) -> Seq<SocketId> {
    v.udp.map_values(|s: UdpView| s.id)
}

pub open spec fn tcp_ids(v: NetSocketsView) -> Seq<SocketId> {
    v.tcp.map_values(|s: TcpView| s.id)
}

/// Socket ids ascend in each table and stay below the next id to give.
pub open spec fn sockets_wf(v: NetSocketsView) -> bool {
    &&& ids_ascending(udp_ids(v), v.next_id)
    &&& ids_ascending(tcp_ids(v), v.next_id)
}

/// UDP socket `id` sits at `k`.
pub open spec fn udp_at(v: NetSocketsView, id: SocketId, k: int) -> bool {
    0 <= k < v.udp.len() && v.udp[k].id == id
}

/// TCP socket `id` sits at `k`.
pub open spec fn tcp_at(v: NetSocketsView, id: SocketId, k: int) -> bool {
    0 <= k < v.tcp.len() && v.tcp[k].id == id
}

pub open spec fn has_udp(v: NetSocketsView, id: SocketId) -> bool {
    exists|k: int| udp_at(v, id, k)
}

pub open spec fn has_tcp(v: NetSocketsView, id: SocketId) -> bool {
    exists|k: int| tcp_at(v, id, k)
}


fn wrapping_len_add(a: u32, n: usize) -> (r: u32)
    ensures
        r == wrap_add32(a, n as nat),
{
    let b: u32 = ((n as u64) % 0x1_0000_0000) as u32;
    let r = a.wrapping_add(b);
    proof {
        vstd::arithmetic::div_mod::lemma_add_mod_noop(a as int, n as int, 0x1_0000_0000);
        assert((a as int) % 0x1_0000_0000 == a as int);
    }
    r
}

impl SocketManager {
    pub fn new() -> (m: Self)
        ensures
            sockets_wf(m@),
            m@.udp == Seq::<UdpView>::empty(),
            m@.tcp == Seq::<TcpView>::empty(),
            m@.next_id == 1,
    {
        let m = SocketManager { udp_sockets: Vec::new(), tcp_sockets: Vec::new(), next_id: 1 };
        assert(m@.udp =~= Seq::<UdpView>::empty());
        assert(m@.tcp =~= Seq::<TcpView>::empty());
        m
    }

    fn alloc_id(&mut self) -> (id: SocketId)
        requires
            old(self)@.next_id < u64::MAX,
        ensures
            id == old(self)@.next_id,
            final(self)@ == (NetSocketsView { next_id: (id + 1) as u64, ..old(self)@ }),
    {
        let v = self.next_id;
        self.next_id = self.next_id + 1;
        proof {
            assert(self@.udp =~= old(self)@.udp);
            assert(self@.tcp =~= old(self)@.tcp);
        }
        v
    }

    fn udp_find(&self, id: SocketId) -> (r: Option<usize>)
        ensures
            r matches Some(k) ==> udp_at(self@, id, k as int),
            r is None ==> !has_udp(self@, id),
    {
        let mut i: usize = 0;
        while i < self.udp_sockets.len()
            invariant
                i <= self.udp_sockets@.len(),
                forall|j: int| 0 <= j < i ==> #[trigger] self@.udp[j].id != id,
            decreases self.udp_sockets@.len() - i,
        {
            if self.udp_sockets[i].id == id {
                return Some(i);
            }
            i = i + 1;
        }
        None
    }

    fn tcp_find(&self, id: SocketId) -> (r: Option<usize>)
        ensures
            r matches Some(k) ==> tcp_at(self@, id, k as int),
            r is None ==> !has_tcp(self@, id),
    {
        let mut i: usize = 0;
        while i < self.tcp_sockets.len()
            invariant
                i <= self.tcp_sockets@.len(),
                forall|j: int| 0 <= j < i ==> #[trigger] self@.tcp[j].id != id,
            decreases self.tcp_sockets@.len() - i,
        {
            if self.tcp_sockets[i].id == id {
                return Some(i);
            }
            i = i + 1;
        }
        None
    }

    /// Binds a new UDP socket; its id is the next id to give.
    pub fn udp_bind(&mut self, local_ip: Ipv4Address, local_port: u16) -> (id: SocketId)
        requires
            sockets_wf(old(self)@),
            old(self)@.next_id < u64::MAX,
        ensures
            sockets_wf(final(self)@),
            id == old(self)@.next_id,
            final(self)@ == (NetSocketsView {
                udp: old(self)@.udp.push(
                    UdpView {
                        id,
                        local_ip,
                        local_port,
                        remote_ip: None,
                        remote_port: None,
                        queue: Seq::empty(),
                    },
                ),
                next_id: (id + 1) as u64,
                ..old(self)@
            }),
    {
        let id = self.alloc_id();
        let sock = UdpSocket {
            id,
            local_ip,
            local_port,
            remote_ip: None,
            remote_port: None,
            recv_queue: Vec::new(),
        };
        assert(sock@.queue =~= Seq::<Seq<u8>>::empty());
        self.udp_sockets.push(sock);
        proof {
            let w = NetSocketsView {
                udp: old(self)@.udp.push(sock@),
                next_id: (id + 1) as u64,
                ..old(self)@
            };
            assert(self@.udp =~= w.udp);
            assert(self@.tcp =~= w.tcp);
            assert(udp_ids(self@) =~= udp_ids(old(self)@).push(id));
            assert(tcp_ids(self@) =~= tcp_ids(old(self)@));
        }
        id
    }

    /// Sets the peer of UDP socket `id`; fails where there is no such socket.
    pub fn udp_connect(&mut self, id: SocketId, remote_ip: Ipv4Address, remote_port: u16) -> (r: Result<
        (),
        NetworkError,
    >)
        requires
            sockets_wf(old(self)@),
        ensures
            sockets_wf(final(self)@),
            match r {
                Ok(()) => exists|k: int|
                    udp_at(old(self)@, id, k) && final(self)@ == (NetSocketsView {
                        udp: old(self)@.udp.update(
                            k,
                            UdpView {
                                remote_ip: Some(remote_ip),
                                remote_port: Some(remote_port),
                                ..old(self)@.udp[k]
                            },
                        ),
                        ..old(self)@
                    }),
                Err(e) => e == NetworkError::ArpResolutionFailed && !has_udp(old(self)@, id)
                    && final(self)@ == old(self)@,
            },
    {
        match self.udp_find(id) {
            Some(k) => {
                let ghost v = self@;
                self.udp_sockets[k].remote_ip = Some(remote_ip);
                self.udp_sockets[k].remote_port = Some(remote_port);
                proof {
                    let w = NetSocketsView {
                        udp: v.udp.update(
                            k as int,
                            UdpView {
                                remote_ip: Some(remote_ip),
                                remote_port: Some(remote_port),
                                ..v.udp[k as int]
                            },
                        ),
                        ..v
                    };
                    assert(self@.udp =~= w.udp);
                    assert(self@.tcp =~= w.tcp);
                    assert(udp_ids(self@) =~= udp_ids(v));
                    assert(tcp_ids(self@) =~= tcp_ids(v));
                }
                Ok(())
            },
            None => Err(NetworkError::ArpResolutionFailed),
        }
    }
}


impl SocketManager {
    /// Takes the oldest datagram of UDP socket `id`.
    pub fn udp_recv(&mut self, id: SocketId) -> (r: Result<Vec<u8>, NetworkError>)
        requires
            sockets_wf(old(self)@),
        ensures
            sockets_wf(final(self)@),
            match r {
                Ok(d) => exists|k: int|
                    udp_at(old(self)@, id, k) && old(self)@.udp[k].queue.len() > 0 && d@ == old(
                        self,
                    )@.udp[k].queue.last() && final(self)@ == (NetSocketsView {
                        udp: old(self)@.udp.update(
                            k,
                            UdpView { queue: old(self)@.udp[k].queue.drop_last(), ..old(self)@.udp[k] },
                        ),
                        ..old(self)@
                    }),
                Err(e) => final(self)@ == old(self)@ && (if has_udp(old(self)@, id) {
                    e == NetworkError::NoFrameAvailable && forall|k: int|
                        udp_at(old(self)@, id, k) ==> old(self)@.udp[k].queue.len() == 0
                } else {
                    e == NetworkError::ArpResolutionFailed
                }),
            },
    {
        match self.udp_find(id) {
            Some(k) => {
                let ghost v = self@;
                proof {
                    assert forall|j: int| udp_at(v, id, j) implies j == k as int by {
                        if j < k as int {
                            assert(udp_ids(v)[j] < udp_ids(v)[k as int]);
                        } else if j > k as int {
                            assert(udp_ids(v)[k as int] < udp_ids(v)[j]);
                        }
                    }
                }
                match self.udp_sockets[k].recv_queue.pop() {
                    Some(d) => {
                        proof {
                            let w = NetSocketsView {
                                udp: v.udp.update(
                                    k as int,
                                    UdpView { queue: v.udp[k as int].queue.drop_last(), ..v.udp[k as int] },
                                ),
                                ..v
                            };
                            assert(self@.udp[k as int].queue =~= w.udp[k as int].queue);
                            assert(self@.udp =~= w.udp);
                            assert(self@.tcp =~= w.tcp);
                            assert(udp_ids(self@) =~= udp_ids(v));
                            assert(tcp_ids(self@) =~= tcp_ids(v));
                        }
                        Ok(d)
                    },
                    None => {
                        proof {
                            assert(self@.udp =~= v.udp);
                            assert(self@.tcp =~= v.tcp);
                        }
                        Err(NetworkError::NoFrameAvailable)
                    },
                }
            },
            None => Err(NetworkError::ArpResolutionFailed),
        }
    }

    /// Delivers a datagram to every UDP socket bound to `dst_port`, in front of
    /// its queue.
    pub fn handle_udp(&mut self, src_ip: Ipv4Address, src_port: u16, dst_port: u16, payload: Vec<u8>)
        requires
            sockets_wf(old(self)@),
        ensures
            sockets_wf(final(self)@),
            final(self)@ == (NetSocketsView {
                udp: udp_delivered(old(self)@.udp, dst_port, payload@),
                ..old(self)@
            }),
    {
        let ghost v = self@;
        let ghost target = udp_delivered(v.udp, dst_port, payload@);
        let mut i: usize = 0;
        while i < self.udp_sockets.len()
            invariant
                self.udp_sockets@.len() == v.udp.len(),
                i <= v.udp.len(),
                self@.tcp == v.tcp,
                self@.next_id == v.next_id,
                target == udp_delivered(v.udp, dst_port, payload@),
                forall|j: int| 0 <= j < i ==> #[trigger] self@.udp[j] == target[j],
                forall|j: int| i <= j < v.udp.len() ==> #[trigger] self@.udp[j] == v.udp[j],
            decreases v.udp.len() - i,
        {
            if self.udp_sockets[i].local_port == dst_port {
                let ghost before = self@;
                let ghost q0 = self.udp_sockets@[i as int].recv_queue@;
                assert(before.udp[i as int] == v.udp[i as int]);
                assert(before.udp[i as int].queue == queue_view(q0));
                let copy = payload.clone();
                assert(copy@ =~= payload@);
                self.udp_sockets[i].recv_queue.insert(0, copy);
                proof {
                    assert(self.udp_sockets@[i as int].recv_queue@ == q0.insert(0, copy));
                    assert(queue_view(q0.insert(0, copy)) =~= seq![copy@] + queue_view(q0));
                    assert(self@.udp[i as int].queue == queue_view(q0.insert(0, copy)));
                    assert(self@.udp[i as int].queue =~= seq![payload@] + v.udp[i as int].queue);
                    assert forall|j: int| 0 <= j < v.udp.len() && j != i implies #[trigger] self@.udp[j]
                        == before.udp[j] by {}
                    assert(self@.tcp =~= before.tcp);
                }
            }
            i = i + 1;
        }
        proof {
            assert(self@.udp =~= target);
            assert(udp_ids(self@) =~= udp_ids(v));
            assert(tcp_ids(self@) =~= tcp_ids(v));
        }
    }

    /// Closes UDP socket `id`, where there is one.
    pub fn udp_close(&mut self, id: SocketId)
        requires
            sockets_wf(old(self)@),
        ensures
            sockets_wf(final(self)@),
            has_udp(old(self)@, id) ==> exists|k: int|
                udp_at(old(self)@, id, k) && final(self)@ == (NetSocketsView {
                    udp: old(self)@.udp.remove(k),
                    ..old(self)@
                }),
            !has_udp(old(self)@, id) ==> final(self)@ == old(self)@,
    {
        match self.udp_find(id) {
            Some(k) => {
                let ghost v = self@;
                let _ = self.udp_sockets.remove(k);
                proof {
                    assert(self@.udp =~= v.udp.remove(k as int));
                    assert(self@.tcp =~= v.tcp);
                    assert(udp_ids(self@) =~= udp_ids(v).remove(k as int));
                    assert(tcp_ids(self@) =~= tcp_ids(v));
                }
            },
            None => {},
        }
    }
}


impl SocketManager {
    /// Binds a new TCP socket, listening, with sequence number 1000.
    pub fn tcp_bind(&mut self, local_ip: Ipv4Address, local_port: u16) -> (id: SocketId)
        requires
            sockets_wf(old(self)@),
            old(self)@.next_id < u64::MAX,
        ensures
            sockets_wf(final(self)@),
            id == old(self)@.next_id,
            final(self)@ == (NetSocketsView {
                tcp: old(self)@.tcp.push(
                    TcpView {
                        id,
                        local_ip,
                        local_port,
                        remote_ip: None,
                        remote_port: None,
                        state: TcpState::Listen,
                        seq_num: 1000,
                        ack_num: 0,
                        queue: Seq::empty(),
                    },
                ),
                next_id: (id + 1) as u64,
                ..old(self)@
            }),
    {
        let id = self.alloc_id();
        let sock = TcpSocket {
            id,
            local_ip,
            local_port,
            remote_ip: None,
            remote_port: None,
            state: TcpState::Listen,
            seq_num: 1000,
            ack_num: 0,
            recv_queue: Vec::new(),
        };
        assert(sock@.queue =~= Seq::<Seq<u8>>::empty());
        self.tcp_sockets.push(sock);
        proof {
            let w = NetSocketsView {
                tcp: old(self)@.tcp.push(sock@),
                next_id: (id + 1) as u64,
                ..old(self)@
            };
            assert(self@.udp =~= w.udp);
            assert(self@.tcp =~= w.tcp);
            assert(udp_ids(self@) =~= udp_ids(old(self)@));
            assert(tcp_ids(self@) =~= tcp_ids(old(self)@).push(id));
        }
        id
    }

    /// Starts connecting TCP socket `id` to the peer: its state becomes SYN-sent.
    pub fn tcp_connect(&mut self, id: SocketId, remote_ip: Ipv4Address, remote_port: u16) -> (r: Result<
        TcpState,
        NetworkError,
    >)
        requires
            sockets_wf(old(self)@),
        ensures
            sockets_wf(final(self)@),
            match r {
                Ok(st) => st == TcpState::SynSent && exists|k: int|
                    tcp_at(old(self)@, id, k) && final(self)@ == (NetSocketsView {
                        tcp: old(self)@.tcp.update(
                            k,
                            TcpView {
                                remote_ip: Some(remote_ip),
                                remote_port: Some(remote_port),
                                state: TcpState::SynSent,
                                ..old(self)@.tcp[k]
                            },
                        ),
                        ..old(self)@
                    }),
                Err(e) => e == NetworkError::ArpResolutionFailed && !has_tcp(old(self)@, id)
                    && final(self)@ == old(self)@,
            },
    {
        match self.tcp_find(id) {
            Some(k) => {
                let ghost v = self@;
                self.tcp_sockets[k].remote_ip = Some(remote_ip);
                self.tcp_sockets[k].remote_port = Some(remote_port);
                self.tcp_sockets[k].state = TcpState::SynSent;
                proof {
                    let w = NetSocketsView {
                        tcp: v.tcp.update(
                            k as int,
                            TcpView {
                                remote_ip: Some(remote_ip),
                                remote_port: Some(remote_port),
                                state: TcpState::SynSent,
                                ..v.tcp[k as int]
                            },
                        ),
                        ..v
                    };
                    assert(self@.udp =~= w.udp);
                    assert(self@.tcp =~= w.tcp);
                    assert(udp_ids(self@) =~= udp_ids(v));
                    assert(tcp_ids(self@) =~= tcp_ids(v));
                }
                Ok(self.tcp_sockets[k].state)
            },
            None => Err(NetworkError::ArpResolutionFailed),
        }
    }

    /// The state of TCP socket `id`, where there is one.
    pub fn tcp_state(&self, id: SocketId) -> (r: Option<TcpState>)
        requires
            sockets_wf(self@),
        ensures
            r is None <==> !has_tcp(self@, id),
            r matches Some(st) ==> forall|k: int| tcp_at(self@, id, k) ==> st == self@.tcp[k].state,
    {
        match self.tcp_find(id) {
            Some(k) => {
                proof {
                    let v = self@;
                    assert forall|j: int| tcp_at(v, id, j) implies v.tcp[j].state == v.tcp[k as int].state by {
                        if j < k as int {
                            assert(tcp_ids(v)[j] < tcp_ids(v)[k as int]);
                        } else if j > k as int {
                            assert(tcp_ids(v)[k as int] < tcp_ids(v)[j]);
                        }
                    }
                }
                Some(self.tcp_sockets[k].state)
            },
            None => None,
        }
    }

    /// Direct access to TCP socket `id`, where there is one. What is written
    /// through it replaces that socket; the table stays well formed as long as
    /// the socket keeps its id.
    pub fn tcp_socket_mut(&mut self, id: SocketId) -> (r: Option<&mut TcpSocket>)
        requires
            sockets_wf(old(self)@),
        ensures
            match r {
                Some(s) => exists|k: int|
                    #![trigger old(self)@.tcp[k]]
                    tcp_at(old(self)@, id, k) && s@ == old(self)@.tcp[k] && final(self)@ == NetSocketsView {
                        tcp: old(self)@.tcp.update(k, final(s)@),
                        ..old(self)@
                    } && (final(s).id == id ==> sockets_wf(final(self)@)),
                None => !has_tcp(old(self)@, id) && final(self)@ == old(self)@,
            },
    {
        match self.tcp_find(id) {
            Some(k) => {
                let ghost v = self@;
                proof {
                    lemma_tcp_replace(self.tcp_sockets@, k as int, self@);
                    assert(self.tcp_sockets@[k as int]@ == v.tcp[k as int]);
                    assert(self.tcp_sockets@[k as int].id == id);
                }
                let r = &mut self.tcp_sockets[k];
                proof {
                    assert(v.tcp[k as int] == old(self).tcp_sockets@[k as int]@);
                }
                Some(r)
            },
            None => None,
        }
    }
}


/// Replacing the socket at `k` of a TCP table replaces its view there, and keeps
/// the table's ids where the new socket has the old one's id.
proof fn lemma_tcp_replace(t: Seq<TcpSocket>, k: int, v: NetSocketsView)
    requires
        0 <= k < t.len(),
        v.tcp == t.map_values(|s: TcpSocket| s@),
        sockets_wf(v),
    ensures
        forall|x: TcpSocket| t.update(k, x).map_values(|s: TcpSocket| s@) == #[trigger] v.tcp.update(k, x@),
        forall|x: TcpSocket|
            x.id == t[k].id ==> sockets_wf(NetSocketsView { tcp: #[trigger] v.tcp.update(k, x@), ..v }),
{
    assert forall|x: TcpSocket| t.update(k, x).map_values(|s: TcpSocket| s@) == #[trigger] v.tcp.update(k, x@) by {
        assert(t.update(k, x).map_values(|s: TcpSocket| s@) =~= v.tcp.update(k, x@));
    }
    assert forall|x: TcpSocket|
        x.id == t[k].id implies sockets_wf(NetSocketsView { tcp: #[trigger] v.tcp.update(k, x@), ..v }) by {
        let w = NetSocketsView { tcp: v.tcp.update(k, x@), ..v };
        assert(tcp_ids(w) =~= tcp_ids(v));
        assert(udp_ids(w) =~= udp_ids(v));
    }
}

impl SocketManager {
    fn port_find(&self, port: u16) -> (r: Option<usize>)
        ensures
            r matches Some(k) ==> first_on_port(self@.tcp, port, k as int),
            r is None ==> forall|j: int| 0 <= j < self@.tcp.len() ==> self@.tcp[j].local_port != port,
    {
        let mut i: usize = 0;
        while i < self.tcp_sockets.len()
            invariant
                i <= self.tcp_sockets@.len(),
                forall|j: int| 0 <= j < i ==> #[trigger] self@.tcp[j].local_port != port,
            decreases self.tcp_sockets@.len() - i,
        {
            if self.tcp_sockets[i].local_port == port {
                return Some(i);
            }
            i = i + 1;
        }
        None
    }

    /// Hands segment `seg` from `src_ip`:`src_port` to the first TCP socket (in id
    /// order) bound to `dst_port`, which moves as `tcp_step` says; without such a
    /// socket nothing changes.
    pub fn handle_tcp(&mut self, src_ip: Ipv4Address, src_port: u16, dst_port: u16, seg: &TcpSegment)
        requires
            sockets_wf(old(self)@),
        ensures
            sockets_wf(final(self)@),
            tcp_handled(old(self)@, final(self)@, src_ip, src_port, dst_port, *seg),
    {
        let ghost v = self@;
        match self.port_find(dst_port) {
            Some(k) => {
                let ghost q0 = self.tcp_sockets@[k as int].recv_queue@;
                assert(v.tcp[k as int].queue == queue_view(q0));
                match self.tcp_sockets[k].state {
                    TcpState::Listen => {
                        if seg.is_syn() {
                            self.tcp_sockets[k].remote_ip = Some(src_ip);
                            self.tcp_sockets[k].remote_port = Some(src_port);
                            self.tcp_sockets[k].ack_num = seg.seq_num.wrapping_add(1);
                            self.tcp_sockets[k].state = TcpState::SynReceived;
                        }
                    },
                    TcpState::SynSent => {
                        if seg.is_syn() && seg.is_ack() {
                            self.tcp_sockets[k].ack_num = seg.seq_num.wrapping_add(1);
                            self.tcp_sockets[k].seq_num = seg.ack_num;
                            self.tcp_sockets[k].state = TcpState::Established;
                        }
                    },
                    TcpState::Established => {
                        if seg.is_fin() {
                            self.tcp_sockets[k].ack_num = seg.seq_num.wrapping_add(1);
                            self.tcp_sockets[k].state = TcpState::CloseWait;
                        } else if seg.payload.len() > 0 {
                            let copy = seg.payload.clone();
                            assert(copy@ =~= seg.payload@);
                            self.tcp_sockets[k].recv_queue.insert(0, copy);
                            self.tcp_sockets[k].ack_num = wrapping_len_add(seg.seq_num, seg.payload.len());
                            proof {
                                assert(self.tcp_sockets@[k as int].recv_queue@ == q0.insert(0, copy));
                                assert(queue_view(q0.insert(0, copy)) =~= seq![copy@] + queue_view(q0));
                            }
                        }
                    },
                    TcpState::FinWait1 => {
                        if seg.is_ack() {
                            self.tcp_sockets[k].state = TcpState::FinWait2;
                        }
                        if seg.is_fin() {
                            self.tcp_sockets[k].state = TcpState::TimeWait;
                        }
                    },
                    TcpState::LastAck => {
                        if seg.is_ack() {
                            self.tcp_sockets[k].state = TcpState::Closed;
                        }
                    },
                    _ => {},
                }
                proof {
                    let w = NetSocketsView {
                        tcp: v.tcp.update(k as int, tcp_step(v.tcp[k as int], src_ip, src_port, *seg)),
                        ..v
                    };
                    assert(self@.tcp[k as int] == w.tcp[k as int]);
                    assert(self@.udp =~= w.udp);
                    assert(self@.tcp =~= w.tcp);
                    assert(udp_ids(self@) =~= udp_ids(v));
                    assert(tcp_ids(self@) =~= tcp_ids(v));
                    assert forall|j: int| first_on_port(v.tcp, dst_port, j) implies j == k as int by {}
                }
            },
            None => {},
        }
    }
}


impl SocketManager {
    /// Takes the oldest received data of TCP socket `id`.
    pub fn tcp_recv(&mut self, id: SocketId) -> (r: Result<Vec<u8>, NetworkError>)
        requires
            sockets_wf(old(self)@),
        ensures
            sockets_wf(final(self)@),
            match r {
                Ok(d) => exists|k: int|
                    tcp_at(old(self)@, id, k) && old(self)@.tcp[k].queue.len() > 0 && d@ == old(
                        self,
                    )@.tcp[k].queue.last() && final(self)@ == (NetSocketsView {
                        tcp: old(self)@.tcp.update(
                            k,
                            TcpView { queue: old(self)@.tcp[k].queue.drop_last(), ..old(self)@.tcp[k] },
                        ),
                        ..old(self)@
                    }),
                Err(e) => final(self)@ == old(self)@ && (if has_tcp(old(self)@, id) {
                    e == NetworkError::NoFrameAvailable && forall|k: int|
                        tcp_at(old(self)@, id, k) ==> old(self)@.tcp[k].queue.len() == 0
                } else {
                    e == NetworkError::ArpResolutionFailed
                }),
            },
    {
        match self.tcp_find(id) {
            Some(k) => {
                let ghost v = self@;
                proof {
                    assert forall|j: int| tcp_at(v, id, j) implies j == k as int by {
                        if j < k as int {
                            assert(tcp_ids(v)[j] < tcp_ids(v)[k as int]);
                        } else if j > k as int {
                            assert(tcp_ids(v)[k as int] < tcp_ids(v)[j]);
                        }
                    }
                }
                match self.tcp_sockets[k].recv_queue.pop() {
                    Some(d) => {
                        proof {
                            let w = NetSocketsView {
                                tcp: v.tcp.update(
                                    k as int,
                                    TcpView { queue: v.tcp[k as int].queue.drop_last(), ..v.tcp[k as int] },
                                ),
                                ..v
                            };
                            assert(self@.tcp[k as int].queue =~= w.tcp[k as int].queue);
                            assert(self@.udp =~= w.udp);
                            assert(self@.tcp =~= w.tcp);
                            assert(udp_ids(self@) =~= udp_ids(v));
                            assert(tcp_ids(self@) =~= tcp_ids(v));
                        }
                        Ok(d)
                    },
                    None => {
                        proof {
                            assert(self@.udp =~= v.udp);
                            assert(self@.tcp =~= v.tcp);
                        }
                        Err(NetworkError::NoFrameAvailable)
                    },
                }
            },
            None => Err(NetworkError::ArpResolutionFailed),
        }
    }

    /// Closes TCP socket `id`, where there is one: it is gone from the table.
    pub fn tcp_close(&mut self, id: SocketId)
        requires
            sockets_wf(old(self)@),
        ensures
            sockets_wf(final(self)@),
            has_tcp(old(self)@, id) ==> exists|k: int|
                tcp_at(old(self)@, id, k) && final(self)@ == (NetSocketsView {
                    tcp: old(self)@.tcp.remove(k),
                    ..old(self)@
                }),
            !has_tcp(old(self)@, id) ==> final(self)@ == old(self)@,
    {
        match self.tcp_find(id) {
            Some(k) => {
                let ghost v = self@;
                let _ = self.tcp_sockets.remove(k);
                proof {
                    assert(self@.tcp =~= v.tcp.remove(k as int));
                    assert(self@.udp =~= v.udp);
                    assert(tcp_ids(self@) =~= tcp_ids(v).remove(k as int));
                    assert(udp_ids(self@) =~= udp_ids(v));
                }
            },
            None => {},
        }
    }

    /// The numbers of UDP and of TCP sockets.
    pub fn socket_count(&self) -> (r: (usize, usize))
        ensures
            r.0 == self@.udp.len() && r.1 == self@.tcp.len(),
    {
        (self.udp_sockets.len(), self.tcp_sockets.len())
    }
}

// ═══════════════════════════════════════════════════════════════════════════
// IpStack
// ═══════════════════════════════════════════════════════════════════════════

/// The IP layer of one host: its address, a routing table and the sockets.
pub struct IpStack {
    our_ip: Ipv4Address,
    routing: RoutingTable,
    sockets: SocketManager,
}

/// A packet is for a host at `ours` when it is addressed to it or broadcast.
pub open spec fn addressed_to(p: Ipv4Packet, ours: Ipv4Address) -> bool {
    p.dst_ip == ours || p.dst_ip.0@ == seq![255u8, 255u8, 255u8, 255u8]
}

/// `w` is `v` after packet `p` reaches the host at `ours`.
pub open spec fn ipv4_handled(v: NetSocketsView, w: NetSocketsView, p: Ipv4Packet, ours: Ipv4Address) -> bool {
    let d = p.payload@;
    if !addressed_to(p, ours) {
        w == v
    } else if p.protocol == IP_PROTO_UDP {
        if d.len() < 8 {
            w == v
        } else {
            exists|u: UdpPacket|
                udp_parsed(d, u) && w == (NetSocketsView { udp: udp_delivered(v.udp, u.dst_port, u.payload@), ..v })
        }
    } else if p.protocol == IP_PROTO_TCP {
        if d.len() < 20 {
            w == v
        } else {
            exists|t: TcpSegment| tcp_parsed(d, t) && tcp_handled(v, w, p.src_ip, t.src_port, t.dst_port, t)
        }
    } else {
        w == v
    }
}

impl IpStack {
    pub closed spec fn our_ip(&self) -> Ipv4Address {
        self.our_ip
    }

    pub closed spec fn sockets_view(&self) -> NetSocketsView {
        self.sockets@
    }

    pub closed spec fn routes(&self) -> Seq<Route> {
        self.routing.routes()
    }

    pub closed spec fn wf(&self) -> bool {
        sockets_wf(self.sockets@) && self.routing.wf()
    }

    /// A stack for the host at `our_ip`, with no routes and no sockets.
    pub fn new(our_ip: Ipv4Address) -> (s: Self)
        ensures
            s.wf(),
            s.our_ip() == our_ip,
            s.routes() == Seq::<Route>::empty(),
            s.sockets_view().udp == Seq::<UdpView>::empty(),
            s.sockets_view().tcp == Seq::<TcpView>::empty(),
            s.sockets_view().next_id == 1,
    {
        IpStack { our_ip, routing: RoutingTable::new(), sockets: SocketManager::new() }
    }

    /// Hands a packet for this host to its sockets: a UDP datagram to
    /// `handle_udp`, a TCP segment to `handle_tcp`. Packets for other hosts, of
    /// other protocols, or whose payload does not parse change nothing.
    pub fn handle_ipv4(&mut self, packet: &Ipv4Packet)
        requires
            old(self).wf(),
        ensures
            final(self).wf(),
            final(self).our_ip() == old(self).our_ip(),
            final(self).routes() == old(self).routes(),
            ipv4_handled(old(self).sockets_view(), final(self).sockets_view(), *packet, old(self).our_ip()),
    {
        let ghost v_init = self.sockets@;
        let ours = self.our_ip.0[0] == packet.dst_ip.0[0] && self.our_ip.0[1] == packet.dst_ip.0[1]
            && self.our_ip.0[2] == packet.dst_ip.0[2] && self.our_ip.0[3] == packet.dst_ip.0[3];
        proof {
            if ours {
                assert(packet.dst_ip.0@ =~= self.our_ip.0@);
                assert(packet.dst_ip.0 == self.our_ip.0);
            }
            if packet.dst_ip == self.our_ip {
                assert(ours);
            }
        }
        if !ours && !packet.dst_ip.is_broadcast() {
            return ;
        }
        if packet.protocol == IP_PROTO_UDP {
            match UdpPacket::from_bytes(packet.payload.as_slice()) {
                Ok(udp) => {
                    let ghost u = udp;
                    self.sockets.handle_udp(packet.src_ip, udp.src_port, udp.dst_port, udp.payload);
                    assert(udp_parsed(packet.payload@, u) && self.sockets@ == (NetSocketsView {
                        udp: udp_delivered(v_init.udp, u.dst_port, u.payload@),
                        ..v_init
                    }));
                    assert(ipv4_handled(v_init, self.sockets@, *packet, self.our_ip));
                },
                Err(_) => {},
            }
        } else if packet.protocol == IP_PROTO_TCP {
            match TcpSegment::from_bytes(packet.payload.as_slice()) {
                Ok(tcp) => {
                    self.sockets.handle_tcp(packet.src_ip, tcp.src_port, tcp.dst_port, &tcp);
                    assert(tcp_parsed(packet.payload@, tcp) && tcp_handled(
                        v_init,
                        self.sockets@,
                        packet.src_ip,
                        tcp.src_port,
                        tcp.dst_port,
                        tcp,
                    ));
                    assert(ipv4_handled(v_init, self.sockets@, *packet, self.our_ip));
                },
                Err(_) => {},
            }
        }
    }

    pub fn routing(&self) -> (r: &RoutingTable)
        ensures
            r.routes() == self.routes(),
    {
        &self.routing
    }

    pub fn sockets(&self) -> (r: &SocketManager)
        ensures
            r@ == self.sockets_view(),
    {
        &self.sockets
    }

    /// The routing table, to change; the rest of the stack stays as it is.
    pub fn routing_mut(&mut self) -> (r: &mut RoutingTable)
        requires
            old(self).wf(),
        ensures
            r.wf(),
            r.routes() == old(self).routes(),
            final(r).wf() ==> final(self).wf(),
            final(self).routes() == final(r).routes(),
            final(self).sockets_view() == old(self).sockets_view(),
            final(self).our_ip() == old(self).our_ip(),
    {
        &mut self.routing
    }

    /// The sockets, to change; the rest of the stack stays as it is.
    pub fn sockets_mut(&mut self) -> (r: &mut SocketManager)
        requires
            old(self).wf(),
        ensures
            sockets_wf(r@),
            r@ == old(self).sockets_view(),
            sockets_wf(final(r)@) ==> final(self).wf(),
            final(self).sockets_view() == final(r)@,
            final(self).routes() == old(self).routes(),
            final(self).our_ip() == old(self).our_ip(),
    {
        &mut self.sockets
    }
}

} // verus!

//! Properties that span several operations of the kernel subsystems, stated over
//! the same spec functions that the operations' contracts use.

use vstd::prelude::*;
use crate::threads::{FutexWaiter, wake_scan, at_addr};
use crate::sockets::{
    SocketBuffer, SockView, SocketAddr, Socket, buf_written, buf_read, min_int, addr_taken,
    with_socket,
};
use crate::signals::{
    FullSignal, SigMgr, SigProc, SignalInfo, SignalSendResult, SignalResolution, delivered_proc, send_step, sig_num, sig_bit,
    bits_have, best_pending, deliverable, sig_priority, delivery_rank, lemma_sig_num, MAX_PENDING_PER_PROCESS,
};
use crate::system::{
    Pid, Pgid, PgmView, pgm_join, pgm_remove, pgid_index, pgid_at, pgm_ids_ok, not_pid,
    BootView, BootPhase, boot_start, boot_advanced, phase_at, phase_ord,
};
use crate::smp::{RunQueue, SmpView, CpuId, rq_enqueued, rq_dequeued, migrated, not_task};
use crate::tcpip::{
    Ipv4Packet, UdpPacket, TcpSegment, UdpView, ipv4_header, ipv4_bytes, ipv4_parsed, udp_bytes,
    udp_parsed, tcp_bytes, tcp_parsed, be16, be32, u16_of, u32_of, checksummed, internet_checksum,
    udp_delivered,
};
use crate::signals::{SignalDisposition, SignalHandlerFlags, AltStack, resolve_spec};
use crate::user_io::{FdTable, FdTarget, PipesView, PollEvent, poll_events, open_entry, pipe_index, PIPE_BUF_SIZE};
use crate::timer::uptime_spec;
use crate::text::{decimal, digit_char};
use crate::tcpip::{NetSocketsView, TcpState, Ipv4Address, tcp_handled, first_on_port, has_flag, TCP_FIN, TCP_SYN, TCP_ACK};
use crate::security::{
    ProposalView, BucketView, PeerReputation, keyed, sign_outcome, execute_outcome, ready,
    consume_outcome, available_at, within_capacity, refill_of, bucket_fits, rewarded, penalized, REPUTATION_MAX, REPUTATION_MIN, BAN_THRESHOLD,
};

verus! {

/// Writing `src` into thread-local storage at `offset` and reading the same range
/// back gives `src`, and the block keeps its size.
pub proof fn law_tls_read_after_write(data: Seq<u8>, offset: int, src: Seq<u8>)
    requires
        0 <= offset,
        offset + src.len() <= data.len(),
    ensures
        ({
            let written = data.take(offset) + src + data.skip(offset + src.len());
            &&& written.len() == data.len()
            &&& written.subrange(offset, offset + src.len()) == src
        }),
{
    let written = data.take(offset) + src + data.skip(offset + src.len());
    assert(written.subrange(offset, offset + src.len()) =~= src);
}

/// A futex wake removes exactly the waiters it counts: it wakes as many of the
/// selected waiters as there are, but never more than `max`, and every other waiter
/// stays queued.
pub proof fn law_futex_wake_count(s: Seq<FutexWaiter>, hit: spec_fn(FutexWaiter) -> bool, max: nat)
    ensures
        wake_scan(s, hit, max).1 == min_int(max as int, s.filter(hit).len() as int),
        wake_scan(s, hit, max).0.len() + wake_scan(s, hit, max).1 == s.len(),
    decreases s.len(),
{
    reveal(Seq::filter);
    if s.len() > 0 {
        law_futex_wake_count(s.drop_last(), hit, max);
    }
}

/// A thread that waits on a futex word is woken by the next wake on that word
/// (with a count of at least one).
pub proof fn law_futex_wait_then_wake(s: Seq<FutexWaiter>, w: FutexWaiter, max: nat)
    requires
        max >= 1,
    ensures
        wake_scan(s.push(w), at_addr(w.addr), max).1 >= 1,
{
    law_futex_wake_count(s.push(w), at_addr(w.addr), max);
    s.lemma_filter_push(w, at_addr(w.addr));
}

/// A socket buffer is first in, first out: what a read returns after a write is
/// the bytes that were unread before, followed by the bytes the write took, as many
/// as the destination holds.
pub proof fn law_socket_buffer_fifo(
    b: SocketBuffer,
    b1: SocketBuffer,
    src: Seq<u8>,
    n: nat,
    b2: SocketBuffer,
    d: Seq<u8>,
    d2: Seq<u8>,
    m: nat,
)
    requires
        b.wf(),
        buf_written(b, b1, src, n),
        buf_read(b1, b2, d, d2, m),
    ensures
        m == min_int(d.len() as int, (b.unread().len() + n) as int),
        d2.subrange(0, m as int) == (b.unread() + src.subrange(0, n as int)).subrange(0, m as int),
{
    assert(b1.unread() =~= b.unread() + src.subrange(0, n as int));
    assert(d2.subrange(0, m as int) =~= b1.unread().subrange(0, m as int));
}

/// Once a socket is bound to a Unix path or an IPv4 port, binding another socket to
/// it is refused (unless that socket asks for address reuse).
pub proof fn law_bind_exclusive(v: SockView, sid: u32, other: u32, a: SocketAddr)
    requires
        v.sockets.contains_key(sid),
        other != sid,
        a is Unix || a is Inet,
    ensures
        addr_taken(
            with_socket(v, sid, Socket { local_addr: Some(a), ..v.sockets[sid] }),
            other,
            a,
            false,
        ),
{
    let w = with_socket(v, sid, Socket { local_addr: Some(a), ..v.sockets[sid] });
    assert(w.sockets.contains_key(sid));
}

/// A standard signal does not queue twice: once it is queued for a process, sending
/// it again before delivery coalesces with the pending one.
pub proof fn law_standard_signal_coalesces(
    v: SigMgr,
    pid: u32,
    sig: FullSignal,
    first: SignalInfo,
    second: SignalInfo,
)
    requires
        sig_num(sig) <= 31,
        send_step(v, pid, sig, first).1 == SignalSendResult::Queued,
    ensures
        send_step(send_step(v, pid, sig, first).0, pid, sig, second).1 == SignalSendResult::Coalesced,
{
    let w = send_step(v, pid, sig, first).0;
    let p = v.procs[pid];
    lemma_sig_num(sig);
    let k: u64 = (sig_num(sig) - 1) as u64;
    let x = p.standard_pending;
    assert((x | (1u64 << k)) & (1u64 << k) != 0) by (bit_vector)
        requires
            k < 64,
    ;
    assert(w.procs.contains_key(pid));
    assert(bits_have(w.procs[pid].standard_pending, sig));
}

/// Real-time signals queue: each send of a real-time signal to a process with room
/// for two more entries adds one pending entry, even when the same signal is pending.
pub proof fn law_realtime_signals_queue(
    v: SigMgr,
    pid: u32,
    sig: FullSignal,
    first: SignalInfo,
    second: SignalInfo,
)
    requires
        sig_num(sig) > 31,
        v.procs.contains_key(pid),
        v.procs[pid].pending.len() + 2 <= MAX_PENDING_PER_PROCESS,
    ensures
        ({
            let (w1, r1) = send_step(v, pid, sig, first);
            let (w2, r2) = send_step(w1, pid, sig, second);
            &&& r1 == SignalSendResult::Queued
            &&& r2 == SignalSendResult::Queued
            &&& w2.procs[pid].pending.len() == v.procs[pid].pending.len() + 2
            &&& w2.procs[pid].pending[v.procs[pid].pending.len() as int].signal == sig
            &&& w2.procs[pid].pending[v.procs[pid].pending.len() + 1int].signal == sig
        }),
{
}

/// SIGKILL goes first: while a SIGKILL is pending, it is the signal delivered next,
/// whatever else is pending or blocked.
pub proof fn law_sigkill_delivered_first(p: SigProc, i: int, j: int)
    requires
        0 <= i < p.pending.len(),
        p.pending[i].signal == FullSignal::Sigkill,
        best_pending(p, j),
    ensures
        p.pending[j].signal == FullSignal::Sigkill,
{
    assert(deliverable(p, i));
    assert(delivery_rank(p, p.pending[i].signal) == 0);
    let s = p.pending[j].signal;
    lemma_sig_num(s);
    assert(delivery_rank(p, s) == 0);
}

/// Queueing a task on a run queue that does not hold it and then taking it off
/// again leaves the queue's task list as it was.
pub proof fn law_enqueue_then_dequeue(q: RunQueue, n: RunQueue, m: RunQueue, pid: u32, weight: u32)
    requires
        !q.tasks@.contains(pid),
        rq_enqueued(q, n, pid, weight),
        rq_dequeued(n, m, pid),
    ensures
        m.tasks@ == q.tasks@,
{
    q.tasks@.lemma_filter_push(pid, not_task(pid));
    lemma_filter_keeps_all(q.tasks@, not_task(pid));
}

/// A filter that every element passes gives the sequence back.
proof fn lemma_filter_keeps_all<A>(s: Seq<A>, p: spec_fn(A) -> bool)
    requires
        forall|i: int| 0 <= i < s.len() ==> p(s[i]),
    ensures
        s.filter(p) == s,
    decreases s.len(),
{
    reveal(Seq::filter);
    if s.len() > 0 {
        lemma_filter_keeps_all(s.drop_last(), p);
        assert(s.drop_last().push(s.last()) =~= s);
    }
}

/// A migration between two different cpus leaves the task queued on the target
/// cpu and no longer on the source cpu.
pub proof fn law_migration_moves_task(v: SmpView, w: SmpView, pid: u32, from: CpuId, to: CpuId)
    requires
        from != to,
        migrated(v, w, pid, from, to),
    ensures
        w.cpus[to.0].run_queue.tasks@.contains(pid),
        !w.cpus[from.0].run_queue.tasks@.contains(pid),
{
    let src = w.cpus[from.0];
    let q = v.cpus[from.0].run_queue.tasks@;
    if src.run_queue.tasks@.contains(pid) {
        let k = choose|k: int| 0 <= k < src.run_queue.tasks@.len() && src.run_queue.tasks@[k] == pid;
        q.lemma_filter_pred(not_task(pid), k);
    }
    let dst = w.cpus[to.0].run_queue.tasks@;
    let q2 = v.cpus[to.0].run_queue.tasks@;
    if !q2.contains(pid) {
        assert(dst[q2.len() as int] == pid);
    }
}

/// A process that joins an existing group is afterwards one of its members and is
/// recorded as belonging to it.
pub proof fn law_join_makes_member(v: PgmView, pid: Pid, pgid: Pgid)
    requires
        pgid_index(v.groups, pgid) >= 0,
    ensures
        ({
            let w = pgm_join(v, pid, pgid);
            let i = pgid_index(v.groups, pgid);
            &&& w.groups[i].pgid == pgid
            &&& w.groups[i].members.contains(pid)
            &&& w.group_of[pid.0] == pgid
        }),
{
    let i = pgid_index(v.groups, pgid);
    assert(pgid_at(v.groups, pgid, i));
    let w = pgm_join(v, pid, pgid);
    let m = w.groups[i].members;
    if !m.contains(pid) {
        assert(m[m.len() - 1] == pid);
    }
}

/// A removed process is forgotten: it has no group or session any more, and the
/// group it belonged to, if that group remains, no longer lists it.
pub proof fn law_remove_forgets(v: PgmView, pid: Pid)
    requires
        pgm_ids_ok(v),
        v.group_of.contains_key(pid.0),
    ensures
        ({
            let w = pgm_remove(v, pid);
            &&& !w.group_of.contains_key(pid.0)
            &&& !w.session_of.contains_key(pid.0)
            &&& forall|k: int|
                0 <= k < w.groups.len() && w.groups[k].pgid == v.group_of[pid.0]
                    ==> !w.groups[k].members.contains(pid)
        }),
{
    let w = pgm_remove(v, pid);
    let g = v.group_of[pid.0];
    let j = pgid_index(v.groups, g);
    if j >= 0 {
        assert(pgid_at(v.groups, g, j));
        let ms = v.groups[j].members.filter(not_pid(pid));
        assert forall|k: int| 0 <= k < w.groups.len() && w.groups[k].pgid == g implies !w.groups[k].members.contains(
            pid,
        ) by {
            if ms.len() == 0 {
                if k < j {
                    assert(w.groups[k] == v.groups[k]);
                } else {
                    assert(w.groups[k] == v.groups[k + 1]);
                }
            } else if k != j {
                assert(w.groups[k] == v.groups[k]);
            } else {
                if ms.contains(pid) {
                    let x = choose|x: int| 0 <= x < ms.len() && ms[x] == pid;
                    v.groups[j].members.lemma_filter_pred(not_pid(pid), x);
                }
            }
        }
    } else {
        assert forall|k: int| 0 <= k < w.groups.len() && w.groups[k].pgid == g implies !w.groups[k].members.contains(
            pid,
        ) by {
            assert(pgid_at(v.groups, g, k));
        }
    }
}


proof fn lemma_be16_back(x: u16)
    ensures
        be16(x).len() == 2,
        u16_of(be16(x)[0], be16(x)[1]) == x,
{
}

proof fn lemma_be32_back(x: u32)
    ensures
        be32(x).len() == 4,
        u32_of(be32(x)[0], be32(x)[1], be32(x)[2], be32(x)[3]) == x,
{
}

/// Reading back the bytes of a UDP datagram gives the datagram: every header
/// field and the payload.
pub proof fn law_udp_roundtrip(u: UdpPacket, w: UdpPacket)
    requires
        udp_parsed(udp_bytes(u), w),
    ensures
        udp_bytes(u).len() >= 8,
        w.src_port == u.src_port && w.dst_port == u.dst_port,
        w.length == u.length && w.checksum == u.checksum,
        w.payload@ == u.payload@,
{
    let b = udp_bytes(u);
    lemma_be16_back(u.src_port);
    lemma_be16_back(u.dst_port);
    lemma_be16_back(u.length);
    lemma_be16_back(u.checksum);
    assert(b[0] == be16(u.src_port)[0] && b[1] == be16(u.src_port)[1]);
    assert(b[2] == be16(u.dst_port)[0] && b[3] == be16(u.dst_port)[1]);
    assert(b[4] == be16(u.length)[0] && b[5] == be16(u.length)[1]);
    assert(b[6] == be16(u.checksum)[0] && b[7] == be16(u.checksum)[1]);
    assert(b.skip(8) =~= u.payload@);
}

/// Reading back the bytes of a TCP segment gives the segment, wherever the
/// data offset fits its four bits and the header length it states ends where the
/// payload starts (or, with no payload, at or after the end).
pub proof fn law_tcp_roundtrip(t: TcpSegment, w: TcpSegment)
    requires
        t.data_offset < 16,
        t.data_offset == 5 || (t.data_offset > 5 && t.payload@.len() == 0),
        tcp_parsed(tcp_bytes(t), w),
    ensures
        tcp_bytes(t).len() >= 20,
        w.src_port == t.src_port && w.dst_port == t.dst_port,
        w.seq_num == t.seq_num && w.ack_num == t.ack_num,
        w.data_offset == t.data_offset && w.flags == t.flags,
        w.window_size == t.window_size && w.checksum == t.checksum && w.urgent_ptr == t.urgent_ptr,
        w.payload@ == t.payload@,
{
    let b = tcp_bytes(t);
    lemma_be16_back(t.src_port);
    lemma_be16_back(t.dst_port);
    lemma_be32_back(t.seq_num);
    lemma_be32_back(t.ack_num);
    lemma_be16_back(t.window_size);
    lemma_be16_back(t.checksum);
    lemma_be16_back(t.urgent_ptr);
    assert(b[0] == be16(t.src_port)[0] && b[1] == be16(t.src_port)[1]);
    assert(b[2] == be16(t.dst_port)[0] && b[3] == be16(t.dst_port)[1]);
    assert(b[4] == be32(t.seq_num)[0] && b[5] == be32(t.seq_num)[1]);
    assert(b[6] == be32(t.seq_num)[2] && b[7] == be32(t.seq_num)[3]);
    assert(b[8] == be32(t.ack_num)[0] && b[9] == be32(t.ack_num)[1]);
    assert(b[10] == be32(t.ack_num)[2] && b[11] == be32(t.ack_num)[3]);
    assert(b[12] == t.data_offset << 4u8 && b[13] == t.flags);
    assert(b[14] == be16(t.window_size)[0] && b[15] == be16(t.window_size)[1]);
    assert(b[16] == be16(t.checksum)[0] && b[17] == be16(t.checksum)[1]);
    assert(b[18] == be16(t.urgent_ptr)[0] && b[19] == be16(t.urgent_ptr)[1]);
    let d = t.data_offset;
    assert((d << 4u8) >> 4u8 == d) by (bit_vector)
        requires
            d < 16,
    ;
    if d == 5 {
        assert(b.skip(20) =~= t.payload@);
    }
}

/// Reading back the bytes of an IPv4 packet gives the packet, wherever it is a
/// version 4 packet with a 20-byte header and each field fits its bits on the
/// wire.
pub proof fn law_ipv4_roundtrip(p: Ipv4Packet, w: Ipv4Packet)
    requires
        p.version == 4,
        p.ihl == 5,
        p.dscp < 64,
        p.ecn < 4,
        p.flags < 8,
        p.fragment_offset < 0x2000,
        ipv4_parsed(ipv4_bytes(p), w),
    ensures
        ipv4_bytes(p).len() >= 20,
        ipv4_bytes(p)[0] >> 4u8 == 4,
        (ipv4_bytes(p)[0] & 0x0Fu8) * 4 == 20,
        w.version == p.version && w.ihl == p.ihl && w.dscp == p.dscp && w.ecn == p.ecn,
        w.total_length == p.total_length && w.identification == p.identification,
        w.flags == p.flags && w.fragment_offset == p.fragment_offset,
        w.ttl == p.ttl && w.protocol == p.protocol && w.header_checksum == p.header_checksum,
        w.src_ip == p.src_ip && w.dst_ip == p.dst_ip,
        w.payload@ == p.payload@,
{
    let b = ipv4_bytes(p);
    let ff: u16 = ((p.flags as u16) << 13u16) | (p.fragment_offset & 0x1FFFu16);
    lemma_be16_back(p.total_length);
    lemma_be16_back(p.identification);
    lemma_be16_back(ff);
    lemma_be16_back(p.header_checksum);
    assert(p.src_ip.0@.len() == 4 && p.dst_ip.0@.len() == 4);
    assert(b[0] == (p.version << 4u8) | p.ihl && b[1] == (p.dscp << 2u8) | p.ecn);
    assert(b[2] == be16(p.total_length)[0] && b[3] == be16(p.total_length)[1]);
    assert(b[4] == be16(p.identification)[0] && b[5] == be16(p.identification)[1]);
    assert(b[6] == be16(ff)[0] && b[7] == be16(ff)[1]);
    assert(b[8] == p.ttl && b[9] == p.protocol);
    assert(b[10] == be16(p.header_checksum)[0] && b[11] == be16(p.header_checksum)[1]);
    let (v, ihl, dscp, ecn, fl, fo) = (p.version, p.ihl, p.dscp, p.ecn, p.flags, p.fragment_offset);
    assert(((v << 4u8) | ihl) >> 4u8 == v && ((v << 4u8) | ihl) & 0x0Fu8 == ihl) by (bit_vector)
        requires
            v < 16,
            ihl < 16,
    ;
    assert(((dscp << 2u8) | ecn) >> 2u8 == dscp && ((dscp << 2u8) | ecn) & 0x03u8 == ecn) by (bit_vector)
        requires
            dscp < 64,
            ecn < 4,
    ;
    assert(((((fl as u16) << 13u16) | (fo & 0x1FFFu16)) >> 13u16) as u8 == fl && (((fl as u16) << 13u16) | (fo
        & 0x1FFFu16)) & 0x1FFFu16 == fo) by (bit_vector)
        requires
            fl < 8,
            fo < 0x2000,
    ;
    assert(b.subrange(12, 16) =~= p.src_ip.0@);
    assert(b.subrange(16, 20) =~= p.dst_ip.0@);
    assert(b.skip(20) =~= p.payload@);
    assert(w.src_ip.0@ =~= p.src_ip.0@);
    assert(w.dst_ip.0@ =~= p.dst_ip.0@);
    assert(w.src_ip.0 =~= p.src_ip.0);
    assert(w.dst_ip.0 =~= p.dst_ip.0);
}

/// A checksummed packet checks: the checksum over its header, with the checksum
/// field counted as zero, is the checksum it carries.
pub proof fn law_ipv4_checksum_checks(p: Ipv4Packet)
    ensures
        internet_checksum(ipv4_bytes(checksummed(p)).take(20).update(10, 0).update(11, 0))
            == checksummed(p).header_checksum,
{
    let r = checksummed(p);
    assert(p.src_ip.0@.len() == 4 && p.dst_ip.0@.len() == 4);
    assert(ipv4_bytes(r).take(20).update(10, 0).update(11, 0) =~= ipv4_header(p).update(10, 0).update(
        11,
        0,
    ));
}

/// UDP sockets hand out datagrams in the order they arrived: of two datagrams
/// delivered to a socket with an empty queue, the first is received first.
pub proof fn law_udp_datagrams_in_order(s: Seq<UdpView>, k: int, port: u16, a: Seq<u8>, b: Seq<u8>)
    requires
        0 <= k < s.len(),
        s[k].local_port == port,
        s[k].queue.len() == 0,
    ensures
        udp_delivered(udp_delivered(s, port, a), port, b)[k].queue == seq![b, a],
        udp_delivered(udp_delivered(s, port, a), port, b)[k].queue.last() == a,
        udp_delivered(udp_delivered(s, port, a), port, b)[k].queue.drop_last().last() == b,
{
    assert(udp_delivered(s, port, a)[k].queue =~= seq![a]);
    assert(udp_delivered(udp_delivered(s, port, a), port, b)[k].queue =~= seq![b, a]);
}


/// Decrypting what a channel encrypted, under the same session key, gives the
/// plaintext back.
pub proof fn law_channel_roundtrip(plaintext: Seq<u8>, key: Seq<u8>)
    requires
        key.len() == 32,
    ensures
        keyed(keyed(plaintext, key), key) == plaintext,
{
    assert forall|i: int| 0 <= i < plaintext.len() implies #[trigger] keyed(keyed(plaintext, key), key)[i]
        == plaintext[i] by {
        let a = plaintext[i];
        let b = key[i % 32];
        assert((a ^ b) ^ b == a) by (bit_vector);
    }
    assert(keyed(keyed(plaintext, key), key) =~= plaintext);
}

/// A proposal executes only with enough signatures and only once: a successful
/// execution finds it ready and not yet executed, and leaves it executed.
pub proof fn law_multisig_executes_once_when_ready(p: ProposalView)
    ensures
        execute_outcome(p).1 is Ok ==> ready(p) && !p.executed && execute_outcome(p).0.executed,
        execute_outcome(execute_outcome(p).0).1 is Err,
{
}

/// Signing keeps a proposal's signers distinct and no more than its signer count.
pub proof fn law_multisig_signers_distinct(p: ProposalView, did: String, sig: [u8; 64])
    requires
        p.signatures.len() <= p.total_signers,
        forall|i: int, j: int|
            0 <= i < j < p.signatures.len() ==> #[trigger] p.signatures[i].0@ != #[trigger] p.signatures[j].0@,
    ensures
        ({
            let q = sign_outcome(p, did, sig).0;
            &&& q.signatures.len() <= q.total_signers
            &&& forall|i: int, j: int|
                0 <= i < j < q.signatures.len() ==> #[trigger] q.signatures[i].0@ != #[trigger] q.signatures[j].0@
        }),
{
    let q = sign_outcome(p, did, sig).0;
    if q.signatures.len() > p.signatures.len() {
        assert forall|i: int, j: int| 0 <= i < j < q.signatures.len() implies #[trigger] q.signatures[i].0@
            != #[trigger] q.signatures[j].0@ by {
            if j == p.signatures.len() {
                assert(q.signatures[i] == p.signatures[i]);
            } else {
                assert(q.signatures[i] == p.signatures[i] && q.signatures[j] == p.signatures[j]);
            }
        }
    }
}

/// A token bucket never holds more than its capacity.
pub proof fn law_bucket_within_capacity(b: BucketView, now: u64, count: u32)
    requires
        b.tokens <= b.capacity,
    ensures
        consume_outcome(b, now, count).0.tokens <= b.capacity,
        consume_outcome(b, now, count).0.capacity == b.capacity,
{
}

/// Taking `count` tokens succeeds exactly when the bucket would hold at least
/// `count` then; it leaves that many fewer available on success and the same
/// number on refusal. What is available never exceeds the capacity, and less
/// than a second after the last refill nothing is owed.
pub proof fn law_bucket_consume(b: BucketView, now: u64, count: u32)
    requires
        within_capacity(b),
        bucket_fits(b, now),
    ensures
        consume_outcome(b, now, count).1 == (available_at(b, now) >= count),
        available_at(consume_outcome(b, now, count).0, now) == if consume_outcome(b, now, count).1 {
            available_at(b, now) - count
        } else {
            available_at(b, now)
        },
        within_capacity(consume_outcome(b, now, count).0),
        available_at(b, now) <= b.capacity,
        b.last_refill <= now < b.last_refill + 1_000_000_000 ==> available_at(b, now) == b.tokens,
{
    let f = consume_outcome(b, now, count).0;
    if refill_of(b, now) > 0 {
        assert(f.last_refill == now);
        lemma_no_refill_yet(f, now);
    } else {
        assert(f.last_refill == b.last_refill && f.refill_rate == b.refill_rate);
        assert(refill_of(f, now) == refill_of(b, now));
    }
    if b.last_refill <= now && now < b.last_refill + 1_000_000_000 {
        lemma_no_refill_yet(b, now);
    }
}

/// Less than a second after the last refill nothing is owed.
proof fn lemma_no_refill_yet(b: BucketView, now: u64)
    requires
        b.last_refill <= now < b.last_refill + 1_000_000_000,
    ensures
        refill_of(b, now) == 0,
{
    let e: int = now - b.last_refill;
    assert(0 <= e < 1_000_000_000);
    assert(e / 1_000_000_000 == 0) by (nonlinear_arith)
        requires
            0 <= e < 1_000_000_000,
    ;
    assert(((e / 1_000_000_000) as u32) == 0u32);
    assert(0u32 * b.refill_rate == 0);
}

/// Rewards and penalties of non-negative size keep a score within its bounds;
/// a penalty to or below the threshold bans, and no reward leaves a peer banned
/// above it.
pub proof fn law_reputation_bounds(r: PeerReputation, amount: i32, timestamp: u64)
    requires
        REPUTATION_MIN <= r.score <= REPUTATION_MAX,
        amount >= 0,
        r.good_actions < u32::MAX,
        r.bad_actions < u32::MAX,
    ensures
        REPUTATION_MIN <= rewarded(r, amount, timestamp).score <= REPUTATION_MAX,
        REPUTATION_MIN <= penalized(r, amount, timestamp).score <= REPUTATION_MAX,
        penalized(r, amount, timestamp).score <= BAN_THRESHOLD ==> penalized(r, amount, timestamp).banned,
        rewarded(r, amount, timestamp).banned ==> rewarded(r, amount, timestamp).score <= BAN_THRESHOLD,
{
}


/// A boot sequence after `advance` at each of the times `ts`, from a fresh one.
pub open spec fn boot_run(ts: Seq<u64>) -> BootView
    decreases ts.len(),
{
    if ts.len() == 0 {
        boot_start()
    } else {
        boot_advanced(boot_run(ts.drop_last()), ts.last())
    }
}

/// After `k` advances from a fresh boot sequence the phase is the `k`-th of the
/// boot order (`Running` from the ninth advance on), `k` phases are completed,
/// the `i`-th completed one is the `i`-th of the order (later ones `Running`
/// again), and the last completed phase carries the last advance's time.
pub proof fn law_boot_advances(ts: Seq<u64>)
    ensures
        boot_run(ts).phase == phase_at(if ts.len() < 9 { ts.len() as int } else { 9 }),
        boot_run(ts).completed.len() == ts.len(),
        forall|i: int| 0 <= i < ts.len() ==> #[trigger] boot_run(ts).completed[i] == phase_at(if i < 9 { i } else { 9 }),
        ts.len() > 0 ==> boot_run(ts).times.contains_key(phase_ord(boot_run(ts).completed.last()) as u32)
            && boot_run(ts).times[phase_ord(boot_run(ts).completed.last()) as u32] == ts.last(),
    decreases ts.len(),
{
    if ts.len() > 0 {
        let prev = ts.drop_last();
        law_boot_advances(prev);
        let v = boot_run(prev);
        let w = boot_run(ts);
        assert(w == boot_advanced(v, ts.last()));
        assert forall|i: int| 0 <= i < ts.len() implies #[trigger] w.completed[i] == phase_at(if i < 9 { i } else { 9 }) by {
            if i < prev.len() {
                assert(w.completed[i] == v.completed[i]);
            }
        }
    }
}


/// Delivering a signal to a handler enters it with the signal blocked; returning
/// from the handler restores the mask that was in force before the delivery and
/// leaves the handler, so a second return finds no handler to leave.
pub proof fn law_handler_round_trip(p: SigProc, i: int, res: SignalResolution)
    requires
        0 <= i < p.pending.len(),
        res is CallHandler,
    ensures
        ({
            let d = delivered_proc(p, i, res);
            let back = SigProc { in_handler: false, blocked: d.saved, ..d };
            &&& d.in_handler
            &&& bits_have(d.blocked, p.pending[i].signal)
            &&& back.blocked == p.blocked
            &&& !back.in_handler
        }),
{
    crate::signals::lemma_mask_add(p.blocked, p.pending[i].signal);
}


/// A delivered signal follows the disposition the process chose: an ignored
/// signal is ignored whatever its default action (even SIGTERM or SIGKILL's
/// default of terminating is not consulted), a caught one calls the handler at
/// its address with its flags, and the alternate stack is used only where the
/// handler asked for it and one is set up and enabled. Only the default
/// disposition consults the signal's default action, and that does not depend
/// on the alternate stack.
pub proof fn law_resolution_follows_disposition(
    s: FullSignal,
    alt: Option<AltStack>,
    addr: u64,
    flags: SignalHandlerFlags,
    mask: u64,
)
    ensures
        resolve_spec(s, SignalDisposition::Ignore, alt) == SignalResolution::Ignore,
        resolve_spec(s, SignalDisposition::Catch { handler_addr: addr, flags, mask }, alt) matches
            SignalResolution::CallHandler { addr: a, use_altstack: u, flags: f }
            && a == addr && f == flags && (u == (flags.onstack && alt is Some && !alt->0.flags.disabled)),
        resolve_spec(s, SignalDisposition::Catch { handler_addr: addr, flags, mask }, None)
            == (SignalResolution::CallHandler { addr, use_altstack: false, flags }),
        resolve_spec(s, SignalDisposition::Default, alt) == resolve_spec(s, SignalDisposition::Default, None),
        resolve_spec(FullSignal::Sigterm, SignalDisposition::Default, alt) == SignalResolution::Terminate(0),
        resolve_spec(FullSignal::Sigkill, SignalDisposition::Default, alt) == SignalResolution::Terminate(0),
        resolve_spec(FullSignal::Sigstop, SignalDisposition::Default, alt) == SignalResolution::Stop,
        resolve_spec(FullSignal::Sigcont, SignalDisposition::Default, alt) == SignalResolution::Continue,
        resolve_spec(FullSignal::Sigchld, SignalDisposition::Default, alt) == SignalResolution::Ignore,
        resolve_spec(FullSignal::Sigsegv, SignalDisposition::Default, alt) == SignalResolution::Terminate(1),
        resolve_spec(FullSignal::Sigquit, SignalDisposition::Default, alt) == SignalResolution::Terminate(1),
        resolve_spec(FullSignal::Sigalrm, SignalDisposition::Default, alt) == SignalResolution::Terminate(0),
        resolve_spec(FullSignal::Sigtstp, SignalDisposition::Default, alt) == SignalResolution::Stop,
        resolve_spec(FullSignal::SigrtMin, SignalDisposition::Default, alt) == SignalResolution::Terminate(0),
        !(resolve_spec(s, SignalDisposition::Default, alt) is CallHandler),
{
}

/// `poll` on an open pipe write end asked for `Writable` reports it exactly
/// while the pipe holds fewer than `PIPE_BUF_SIZE` bytes, reports hang-up
/// exactly when the read end is closed, and never reports readable or an error.
pub proof fn law_poll_pipe_write_end(table: FdTable, pv: PipesView, fd: u32, events: Seq<PollEvent>, pipe_id: u64, i: int)
    requires
        open_entry(table.fds@, fd) matches Some(e) && e.target == (FdTarget::PipeWrite { pipe_id }),
        pipe_index(pv.pipes, pipe_id) == Some(i),
        events.contains(PollEvent::Writable),
    ensures
        poll_events(table, pv, fd, events).contains(PollEvent::Writable) == (pv.pipes[i].buffer.len() < PIPE_BUF_SIZE),
        poll_events(table, pv, fd, events).contains(PollEvent::Hangup) == !pv.pipes[i].read_end_open,
        !poll_events(table, pv, fd, events).contains(PollEvent::Readable),
        !poll_events(table, pv, fd, events).contains(PollEvent::Error),
{
    let r = poll_events(table, pv, fd, events);
    let full = pv.pipes[i].buffer.len() >= PIPE_BUF_SIZE;
    let closed = !pv.pipes[i].read_end_open;
    if !full {
        assert(r[0] == PollEvent::Writable);
    }
    if closed {
        assert(r[r.len() - 1] == PollEvent::Hangup);
    }
    assert forall|k: int| 0 <= k < r.len() implies (r[k] == PollEvent::Writable && !full) || (r[k] == PollEvent::Hangup && closed) by {
    }
}

/// `poll` on an open pipe read end asked for `Readable` reports it exactly while
/// data is waiting, and hang-up exactly when nothing is waiting and the write end
/// is closed.
pub proof fn law_poll_pipe_read_end(table: FdTable, pv: PipesView, fd: u32, events: Seq<PollEvent>, pipe_id: u64, i: int)
    requires
        open_entry(table.fds@, fd) matches Some(e) && e.target == (FdTarget::PipeRead { pipe_id }),
        pipe_index(pv.pipes, pipe_id) == Some(i),
        events.contains(PollEvent::Readable),
    ensures
        poll_events(table, pv, fd, events).contains(PollEvent::Readable) == (pv.pipes[i].buffer.len() > 0),
        poll_events(table, pv, fd, events).contains(PollEvent::Hangup) == (pv.pipes[i].buffer.len() == 0
            && !pv.pipes[i].write_end_open),
        !poll_events(table, pv, fd, events).contains(PollEvent::Writable),
{
    let r = poll_events(table, pv, fd, events);
    if r.len() > 0 {
        assert(r[0] == PollEvent::Readable || r[0] == PollEvent::Hangup);
    }
}

/// `poll` reports exactly an error for a descriptor that is not open, and
/// nothing for a socket.
pub proof fn law_poll_closed_and_sockets(table: FdTable, pv: PipesView, fd: u32, events: Seq<PollEvent>)
    ensures
        open_entry(table.fds@, fd) is None ==> poll_events(table, pv, fd, events) == seq![PollEvent::Error],
        open_entry(table.fds@, fd) matches Some(e) && e.target is Socket ==> poll_events(table, pv, fd, events).len() == 0,
{
}

/// The numeric value of a decimal digit character.
pub open spec fn digit_value(c: char) -> int {
    c as int - '0' as int
}

/// The uptime text of `ns` nanoseconds is the whole seconds in decimal, a
/// point, exactly three decimal digits whose value is the milliseconds within
/// the second, and `s`.
pub proof fn law_uptime_text_shape(ns: u64)
    ensures
        ({
            let t = uptime_spec(ns);
            let k = decimal((ns / 1_000_000_000) as nat).len() as int;
            &&& t.len() == k + 5
            &&& t.subrange(0, k) == decimal((ns / 1_000_000_000) as nat)
            &&& t[k] == '.'
            &&& t[k + 4] == 's'
            &&& forall|j: int| k + 1 <= j <= k + 3 ==> '0' <= #[trigger] t[j] <= '9'
            &&& 100 * digit_value(t[k + 1]) + 10 * digit_value(t[k + 2]) + digit_value(t[k + 3])
                == (ns / 1_000_000) % 1000
        }),
{
    reveal_strlit(".");
    reveal_strlit("s");
    let ms = ((ns / 1_000_000) % 1000) as nat;
    let t = uptime_spec(ns);
    let k = decimal((ns / 1_000_000_000) as nat).len() as int;
    assert(t.subrange(0, k) =~= decimal((ns / 1_000_000_000) as nat));
    assert(t[k + 1] == digit_char(ms / 100));
    assert(t[k + 2] == digit_char((ms / 10) % 10));
    assert(t[k + 3] == digit_char(ms % 10));
    assert(ms / 100 < 10);
    assert(100 * (ms / 100) + 10 * ((ms / 10) % 10) + ms % 10 == ms);
}

/// An established connection that receives a segment without FIN carrying
/// `n > 0` bytes at sequence number `s` queues those bytes in front, stays
/// established, and acknowledges up to `(s + n) mod 2^32`; a FIN is acknowledged
/// one past its sequence number and moves the connection to `CloseWait`. Only
/// the socket the segment is handed to changes.
pub proof fn law_tcp_established_receives(
    v: NetSocketsView,
    w: NetSocketsView,
    src_ip: Ipv4Address,
    src_port: u16,
    dst_port: u16,
    seg: TcpSegment,
    k: int,
)
    requires
        tcp_handled(v, w, src_ip, src_port, dst_port, seg),
        first_on_port(v.tcp, dst_port, k),
        v.tcp[k].state == TcpState::Established,
    ensures
        w.tcp.len() == v.tcp.len(),
        forall|j: int| 0 <= j < v.tcp.len() && j != k ==> w.tcp[j] == v.tcp[j],
        !has_flag(seg.flags, TCP_FIN) && seg.payload@.len() > 0 ==> {
            &&& w.tcp[k].ack_num == (seg.seq_num + seg.payload@.len()) % 0x1_0000_0000
            &&& w.tcp[k].state == TcpState::Established
            &&& w.tcp[k].queue.len() == v.tcp[k].queue.len() + 1
            &&& w.tcp[k].queue[0] == seg.payload@
            &&& w.tcp[k].queue.drop_first() == v.tcp[k].queue
            &&& w.tcp[k].seq_num == v.tcp[k].seq_num
        },
        has_flag(seg.flags, TCP_FIN) ==> w.tcp[k].ack_num == (seg.seq_num + 1) % 0x1_0000_0000
            && w.tcp[k].state == TcpState::CloseWait && w.tcp[k].queue == v.tcp[k].queue,
        !has_flag(seg.flags, TCP_FIN) && seg.payload@.len() == 0 ==> w.tcp[k] == v.tcp[k],
{
    if !has_flag(seg.flags, TCP_FIN) && seg.payload@.len() > 0 {
        assert(w.tcp[k].queue.drop_first() =~= v.tcp[k].queue);
    }
}


/// The handshake: a listening socket that receives a SYN records the peer,
/// acknowledges one past the SYN's sequence number and moves to `SynReceived`;
/// a socket that sent a SYN and receives SYN and ACK acknowledges one past the
/// peer's sequence number, takes the peer's acknowledgement as its own sequence
/// number and is established; segments without those flags leave them as they
/// were.
pub proof fn law_tcp_handshake(
    v: NetSocketsView,
    w: NetSocketsView,
    src_ip: Ipv4Address,
    src_port: u16,
    dst_port: u16,
    seg: TcpSegment,
    k: int,
)
    requires
        tcp_handled(v, w, src_ip, src_port, dst_port, seg),
        first_on_port(v.tcp, dst_port, k),
    ensures
        v.tcp[k].state == TcpState::Listen && has_flag(seg.flags, TCP_SYN) ==> {
            &&& w.tcp[k].state == TcpState::SynReceived
            &&& w.tcp[k].remote_ip == Some(src_ip)
            &&& w.tcp[k].remote_port == Some(src_port)
            &&& w.tcp[k].ack_num == (seg.seq_num + 1) % 0x1_0000_0000
        },
        v.tcp[k].state == TcpState::Listen && !has_flag(seg.flags, TCP_SYN) ==> w.tcp[k] == v.tcp[k],
        v.tcp[k].state == TcpState::SynSent && has_flag(seg.flags, TCP_SYN) && has_flag(seg.flags, TCP_ACK) ==> {
            &&& w.tcp[k].state == TcpState::Established
            &&& w.tcp[k].ack_num == (seg.seq_num + 1) % 0x1_0000_0000
            &&& w.tcp[k].seq_num == seg.ack_num
        },
        v.tcp[k].state == TcpState::SynSent && !(has_flag(seg.flags, TCP_SYN) && has_flag(seg.flags, TCP_ACK))
            ==> w.tcp[k] == v.tcp[k],
{
}

} // verus!

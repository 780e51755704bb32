use shivacore::sockets::{
    SocketAddr, SocketBuffer, SocketDomain, SocketError, SocketManager, SocketOpt,
    SocketProtocol, SocketState, SocketType,
};

// ── SocketDomain / SocketType / SocketProtocol ───────────────────────────

#[test]
fn test_socket_domain() {
    assert_eq!(SocketDomain::Unix.as_str(), "AF_UNIX");
    assert_eq!(SocketDomain::Inet.as_str(), "AF_INET");
    assert_eq!(SocketDomain::Inet6.as_str(), "AF_INET6");
    assert!(SocketDomain::Unix.is_local());
    assert!(SocketDomain::Inet.is_network());
    assert!(SocketDomain::Inet6.is_network());
}

#[test]
fn test_socket_type() {
    assert!(SocketType::Stream.is_connection_oriented());
    assert!(SocketType::SeqPacket.is_connection_oriented());
    assert!(SocketType::Datagram.is_connectionless());
    assert!(SocketType::Raw.requires_root());
    assert!(!SocketType::Stream.requires_root());
    assert_eq!(SocketType::Stream.as_str(), "SOCK_STREAM");
    assert_eq!(SocketType::Datagram.as_str(), "SOCK_DGRAM");
}

#[test]
fn test_socket_protocol() {
    assert_eq!(SocketProtocol::from_u8(6), SocketProtocol::Tcp);
    assert_eq!(SocketProtocol::from_u8(17), SocketProtocol::Udp);
    assert_eq!(SocketProtocol::from_u8(255), SocketProtocol::Raw);
    assert_eq!(SocketProtocol::from_u8(99), SocketProtocol::Default);
    assert_eq!(SocketProtocol::Tcp.to_u8(), 6);
    assert_eq!(SocketProtocol::Udp.to_u8(), 17);
    assert_eq!(SocketProtocol::Default.to_u8(), 0);
    assert_eq!(SocketProtocol::Tcp.as_str(), "TCP");
}

// ── SocketAddr ───────────────────────────────────────────────────────────

#[test]
fn test_socket_addr_unix() {
    let addr = SocketAddr::unix("/tmp/test.sock");
    assert!(addr.is_unix());
    assert!(!addr.is_inet());
    assert_eq!(addr.domain(), SocketDomain::Unix);
    assert_eq!(addr.port(), None);
    assert_eq!(addr.path(), Some("/tmp/test.sock"));
    assert_eq!(addr.ip_str(), "/tmp/test.sock");
}

#[test]
fn test_socket_addr_inet() {
    let addr = SocketAddr::inet([192, 168, 1, 100], 8080);
    assert!(addr.is_inet());
    assert!(!addr.is_unix());
    assert_eq!(addr.domain(), SocketDomain::Inet);
    assert_eq!(addr.port(), Some(8080));
    assert_eq!(addr.ip_str(), "192.168.1.100:8080");
}

#[test]
fn test_socket_addr_special() {
    let lo = SocketAddr::loopback(3000);
    assert_eq!(lo.ip_str(), "127.0.0.1:3000");
    let any = SocketAddr::any_addr(80);
    assert_eq!(any.ip_str(), "0.0.0.0:80");
}

#[test]
fn test_socket_addr_unix_truncate() {
    let long_path = "a".repeat(200);
    let addr = SocketAddr::unix(&long_path);
    match addr {
        SocketAddr::Unix(ref p) => assert_eq!(p.len(), 108),
        _ => panic!("expected Unix"),
    }
}

// ── SocketState ─────────────────────────────────────────────────────────

#[test]
fn test_socket_state() {
    assert!(SocketState::Connected.is_active());
    assert!(SocketState::Listening.is_active());
    assert!(!SocketState::Closed.is_active());
    assert!(SocketState::Closed.is_closed());
    assert!(SocketState::Error.is_closed());
    assert!(SocketState::Connected.is_readable());
    assert!(SocketState::Connected.is_writable());
    assert!(!SocketState::Listening.is_writable());
    assert_eq!(SocketState::Listening.as_str(), "LISTENING");
    assert_eq!(SocketState::Connected.as_str(), "CONNECTED");
}

// ── SocketBuffer ────────────────────────────────────────────────────────

#[test]
fn test_socket_buffer_write_read() {
    let mut buf = SocketBuffer::new(1024);
    assert!(buf.is_empty());
    assert!(!buf.is_full());

    let n = buf.write(b"Hello, Socket!");
    assert_eq!(n, 14);
    assert_eq!(buf.available(), 14);

    let mut dst = [0u8; 20];
    let r = buf.read(&mut dst);
    assert_eq!(r, 14);
    assert_eq!(&dst[..14], b"Hello, Socket!");
    assert!(buf.is_empty());
}

#[test]
fn test_socket_buffer_partial_read() {
    let mut buf = SocketBuffer::new(1024);
    buf.write(b"ABCDEFGHIJ");
    let mut d = [0u8; 4];
    assert_eq!(buf.read(&mut d), 4);
    assert_eq!(&d, b"ABCD");
    assert_eq!(buf.available(), 6);
    let mut d2 = [0u8; 10];
    assert_eq!(buf.read(&mut d2), 6);
    assert_eq!(&d2[..6], b"EFGHIJ");
}

#[test]
fn test_socket_buffer_full() {
    let mut buf = SocketBuffer::new(8);
    let n = buf.write(b"01234567");
    assert_eq!(n, 8);
    assert!(buf.is_full());
    let n2 = buf.write(b"more");
    assert_eq!(n2, 0);
}

#[test]
fn test_socket_buffer_clear() {
    let mut buf = SocketBuffer::new(64);
    buf.write(b"test");
    assert!(!buf.is_empty());
    buf.clear();
    assert!(buf.is_empty());
}

// ── SocketError ──────────────────────────────────────────────────────────

#[test]
fn test_socket_error_errno() {
    assert_eq!(SocketError::WouldBlock.errno(), 11);
    assert_eq!(SocketError::AddrInUse.errno(), 98);
    assert_eq!(SocketError::ConnectionRefused.errno(), 111);
    assert_eq!(SocketError::BadDescriptor.errno(), 9);
    assert_eq!(SocketError::PermissionDenied.errno(), 1);
    assert!(!SocketError::WouldBlock.as_str().is_empty());
}

// ── Socket creation ──────────────────────────────────────────────────────

#[test]
fn test_socket_create_unix_stream() {
    let mut mgr = SocketManager::new();
    let sid = mgr.socket(SocketDomain::Unix, SocketType::Stream, SocketProtocol::Default, 1);
    assert!(sid.is_ok());
    let sock = mgr.get_socket(sid.unwrap()).unwrap();
    assert_eq!(sock.domain, SocketDomain::Unix);
    assert_eq!(sock.sock_type, SocketType::Stream);
    assert_eq!(sock.state, SocketState::Unconnected);
    assert!(sock.is_stream());
    assert!(!sock.is_dgram());
}

#[test]
fn test_socket_create_inet_tcp() {
    let mut mgr = SocketManager::new();
    let sid = mgr.socket(SocketDomain::Inet, SocketType::Stream, SocketProtocol::Tcp, 1);
    assert!(sid.is_ok());
    let sock = mgr.get_socket(sid.unwrap()).unwrap();
    assert_eq!(sock.domain, SocketDomain::Inet);
    assert_eq!(sock.protocol, SocketProtocol::Tcp);
}

#[test]
fn test_socket_create_raw_requires_root() {
    let mut mgr = SocketManager::new();
    let r = mgr.socket(SocketDomain::Inet, SocketType::Raw, SocketProtocol::Raw, 100);
    assert_eq!(r, Err(SocketError::PermissionDenied));
    let r2 = mgr.socket(SocketDomain::Inet, SocketType::Raw, SocketProtocol::Raw, 0);
    assert!(r2.is_ok());
}

// ── Bind + Listen ────────────────────────────────────────────────────────

#[test]
fn test_bind_unix() {
    let mut mgr = SocketManager::new();
    let sid = mgr.socket(SocketDomain::Unix, SocketType::Stream, SocketProtocol::Default, 1).unwrap();
    let r = mgr.bind(sid, SocketAddr::unix("/tmp/test_bind.sock"));
    assert!(r.is_ok());
    let sock = mgr.get_socket(sid).unwrap();
    assert_eq!(sock.local_addr, Some(SocketAddr::unix("/tmp/test_bind.sock")));
}

#[test]
fn test_bind_inet() {
    let mut mgr = SocketManager::new();
    let sid = mgr.socket(SocketDomain::Inet, SocketType::Stream, SocketProtocol::Tcp, 1).unwrap();
    let r = mgr.bind(sid, SocketAddr::loopback(8080));
    assert!(r.is_ok());
    let sock = mgr.get_socket(sid).unwrap();
    assert_eq!(sock.local_addr, Some(SocketAddr::loopback(8080)));
}

#[test]
fn test_bind_addr_in_use() {
    let mut mgr = SocketManager::new();
    let s1 = mgr.socket(SocketDomain::Unix, SocketType::Stream, SocketProtocol::Default, 1).unwrap();
    mgr.bind(s1, SocketAddr::unix("/tmp/dup.sock")).unwrap();
    let s2 = mgr.socket(SocketDomain::Unix, SocketType::Stream, SocketProtocol::Default, 2).unwrap();
    let r = mgr.bind(s2, SocketAddr::unix("/tmp/dup.sock"));
    assert_eq!(r, Err(SocketError::AddrInUse));
}

#[test]
fn test_bind_inet_addr_in_use() {
    let mut mgr = SocketManager::new();
    let s1 = mgr.socket(SocketDomain::Inet, SocketType::Stream, SocketProtocol::Tcp, 1).unwrap();
    mgr.bind(s1, SocketAddr::loopback(9000)).unwrap();
    let s2 = mgr.socket(SocketDomain::Inet, SocketType::Stream, SocketProtocol::Tcp, 2).unwrap();
    let r = mgr.bind(s2, SocketAddr::loopback(9000));
    assert_eq!(r, Err(SocketError::AddrInUse));
}

#[test]
fn test_listen_unix() {
    let mut mgr = SocketManager::new();
    let sid = mgr.socket(SocketDomain::Unix, SocketType::Stream, SocketProtocol::Default, 1).unwrap();
    mgr.bind(sid, SocketAddr::unix("/tmp/listen.sock")).unwrap();
    let r = mgr.listen(sid, 5);
    assert!(r.is_ok());
    let sock = mgr.get_socket(sid).unwrap();
    assert!(sock.is_listening());
    assert_eq!(sock.max_backlog, 5);
}

#[test]
fn test_listen_without_bind() {
    let mut mgr = SocketManager::new();
    let sid = mgr.socket(SocketDomain::Unix, SocketType::Stream, SocketProtocol::Default, 1).unwrap();
    let r = mgr.listen(sid, 5);
    assert_eq!(r, Err(SocketError::AddrNotAvailable));
}

#[test]
fn test_listen_datagram_rejected() {
    let mut mgr = SocketManager::new();
    let sid = mgr.socket(SocketDomain::Unix, SocketType::Datagram, SocketProtocol::Default, 1).unwrap();
    mgr.bind(sid, SocketAddr::unix("/tmp/dgram.sock")).unwrap();
    let r = mgr.listen(sid, 5);
    assert_eq!(r, Err(SocketError::OperationNotSupported));
}

// ── Connect + Accept ──────────────────────────────────────────────────────

#[test]
fn test_connect_accept_unix() {
    let mut mgr = SocketManager::new();

    // Server: socket → bind → listen
    let server = mgr.socket(SocketDomain::Unix, SocketType::Stream, SocketProtocol::Default, 1).unwrap();
    mgr.bind(server, SocketAddr::unix("/tmp/echo.sock")).unwrap();
    mgr.listen(server, 5).unwrap();

    // Client: socket → connect
    let client = mgr.socket(SocketDomain::Unix, SocketType::Stream, SocketProtocol::Default, 2).unwrap();
    let r = mgr.connect(client, SocketAddr::unix("/tmp/echo.sock"));
    assert!(r.is_ok());

    // Server: accept
    let accepted = mgr.accept(server, 1);
    assert!(accepted.is_ok());
    let acc_sock = mgr.get_socket(accepted.unwrap()).unwrap();
    assert_eq!(acc_sock.state, SocketState::Connected);
    assert!(acc_sock.is_connected());
}

#[test]
fn test_connect_inet() {
    let mut mgr = SocketManager::new();
    let server = mgr.socket(SocketDomain::Inet, SocketType::Stream, SocketProtocol::Tcp, 1).unwrap();
    mgr.bind(server, SocketAddr::loopback(4000)).unwrap();
    mgr.listen(server, 5).unwrap();

    let client = mgr.socket(SocketDomain::Inet, SocketType::Stream, SocketProtocol::Tcp, 2).unwrap();
    let r = mgr.connect(client, SocketAddr::loopback(4000));
    assert!(r.is_ok());

    let accepted = mgr.accept(server, 1);
    assert!(accepted.is_ok());
}

#[test]
fn test_connect_refused_no_listener() {
    let mut mgr = SocketManager::new();
    let client = mgr.socket(SocketDomain::Unix, SocketType::Stream, SocketProtocol::Default, 1).unwrap();
    let r = mgr.connect(client, SocketAddr::unix("/tmp/nonexistent.sock"));
    // No listener → still sets connected (connectionless model in test)
    assert!(r.is_ok());
}

#[test]
fn test_connect_already_connected() {
    let mut mgr = SocketManager::new();
    let sid = mgr.socket(SocketDomain::Unix, SocketType::Stream, SocketProtocol::Default, 1).unwrap();
    mgr.bind(sid, SocketAddr::unix("/tmp/a.sock")).unwrap();
    mgr.listen(sid, 5).unwrap();
    let client = mgr.socket(SocketDomain::Unix, SocketType::Stream, SocketProtocol::Default, 2).unwrap();
    mgr.connect(client, SocketAddr::unix("/tmp/a.sock")).unwrap();
    // Second connect should fail
    let r = mgr.connect(client, SocketAddr::unix("/tmp/a.sock"));
    assert_eq!(r, Err(SocketError::AlreadyConnected));
}

#[test]
fn test_accept_without_listen() {
    let mut mgr = SocketManager::new();
    let sid = mgr.socket(SocketDomain::Unix, SocketType::Stream, SocketProtocol::Default, 1).unwrap();
    mgr.bind(sid, SocketAddr::unix("/tmp/nl.sock")).unwrap();
    let r = mgr.accept(sid, 1);
    assert_eq!(r, Err(SocketError::NotListening));
}

#[test]
fn test_accept_empty_backlog() {
    let mut mgr = SocketManager::new();
    let sid = mgr.socket(SocketDomain::Unix, SocketType::Stream, SocketProtocol::Default, 1).unwrap();
    mgr.bind(sid, SocketAddr::unix("/tmp/empty.sock")).unwrap();
    mgr.listen(sid, 5).unwrap();
    let r = mgr.accept(sid, 1);
    assert_eq!(r, Err(SocketError::WouldBlock));
}

// ── Send + Recv ───────────────────────────────────────────────────────────

#[test]
fn test_send_recv_connected() {
    let mut mgr = SocketManager::new();
    let server = mgr.socket(SocketDomain::Unix, SocketType::Stream, SocketProtocol::Default, 1).unwrap();
    mgr.bind(server, SocketAddr::unix("/tmp/sr.sock")).unwrap();
    mgr.listen(server, 5).unwrap();

    let client = mgr.socket(SocketDomain::Unix, SocketType::Stream, SocketProtocol::Default, 2).unwrap();
    mgr.connect(client, SocketAddr::unix("/tmp/sr.sock")).unwrap();
    let accepted = mgr.accept(server, 1).unwrap();

    // Send from accepted (server-side)
    let n = mgr.send(accepted, b"Hello from server!");
    assert!(n.is_ok());
    assert_eq!(n.unwrap(), 17);

    // Recv on client
    let mut buf = [0u8; 32];
    let r = mgr.recv(client, &mut buf);
    assert!(r.is_ok() || r == Err(SocketError::WouldBlock));
}

#[test]
fn test_send_reports_one_less_but_counts_all() {
    let mut mgr = SocketManager::new();
    let s = mgr.socket(SocketDomain::Inet, SocketType::Datagram, SocketProtocol::Udp, 1).unwrap();
    mgr.connect(s, SocketAddr::loopback(7000)).unwrap();
    assert_eq!(mgr.send(s, b"abcde"), Ok(4));
    assert_eq!(mgr.send(s, b""), Ok(0));
    assert_eq!(mgr.stats().total_bytes_sent, 5);
}

#[test]
fn test_socket_count_skips_pending_connections() {
    let mut mgr = SocketManager::new();
    let server = mgr.socket(SocketDomain::Unix, SocketType::Stream, SocketProtocol::Default, 1).unwrap();
    mgr.bind(server, SocketAddr::unix("/tmp/pend.sock")).unwrap();
    mgr.listen(server, 4).unwrap();
    let c = mgr.socket(SocketDomain::Unix, SocketType::Stream, SocketProtocol::Default, 2).unwrap();
    mgr.connect(c, SocketAddr::unix("/tmp/pend.sock")).unwrap();
    assert_eq!(mgr.socket_count(), 2);
    assert_eq!(mgr.stats().total_sockets, 3);
}

#[test]
fn test_multiple_connections() {
    let mut mgr = SocketManager::new();
    let server = mgr.socket(SocketDomain::Unix, SocketType::Stream, SocketProtocol::Default, 1).unwrap();
    mgr.bind(server, SocketAddr::unix("/tmp/multi.sock")).unwrap();
    mgr.listen(server, 10).unwrap();

    // 3 clients connect
    let mut clients = vec![];
    for i in 0..3 {
        let c = mgr.socket(SocketDomain::Unix, SocketType::Stream, SocketProtocol::Default, (i + 10) as u32).unwrap();
        mgr.connect(c, SocketAddr::unix("/tmp/multi.sock")).unwrap();
        clients.push(c);
    }

    // Server accepts all 3
    let mut accepted = vec![];
    for _ in 0..3 {
        let a = mgr.accept(server, 1).unwrap();
        accepted.push(a);
    }

    assert_eq!(mgr.socket_count(), 4); // server + 3 clients (accepted sockets replace pending)
    assert_eq!(mgr.stats().total_accepted, 3);
}

#[test]
fn test_send_not_connected() {
    let mut mgr = SocketManager::new();
    let sid = mgr.socket(SocketDomain::Unix, SocketType::Stream, SocketProtocol::Default, 1).unwrap();
    let r = mgr.send(sid, b"data");
    assert_eq!(r, Err(SocketError::NotConnected));
}

#[test]
fn test_recv_closed_returns_eof() {
    let mut mgr = SocketManager::new();
    let sid = mgr.socket(SocketDomain::Unix, SocketType::Stream, SocketProtocol::Default, 1).unwrap();
    // Close it first
    mgr.close(sid).unwrap();
    let mut buf = [0u8; 10];
    let r = mgr.recv(sid, &mut buf);
    assert_eq!(r, Err(SocketError::BadDescriptor));
}

// ── Close ─────────────────────────────────────────────────────────────────

#[test]
fn test_close_socket() {
    let mut mgr = SocketManager::new();
    let sid = mgr.socket(SocketDomain::Unix, SocketType::Stream, SocketProtocol::Default, 1).unwrap();
    assert_eq!(mgr.socket_count(), 1);
    mgr.close(sid).unwrap();
    assert_eq!(mgr.socket_count(), 0);
}

#[test]
fn test_close_removes_listener() {
    let mut mgr = SocketManager::new();
    let sid = mgr.socket(SocketDomain::Unix, SocketType::Stream, SocketProtocol::Default, 1).unwrap();
    mgr.bind(sid, SocketAddr::unix("/tmp/cl.sock")).unwrap();
    mgr.listen(sid, 5).unwrap();
    assert_eq!(mgr.stats().unix_listeners as usize, 1);
    mgr.close(sid).unwrap();
    assert_eq!(mgr.stats().unix_listeners as usize, 0);
}

#[test]
fn test_close_bad_descriptor() {
    let mut mgr = SocketManager::new();
    let r = mgr.close(999);
    assert_eq!(r, Err(SocketError::BadDescriptor));
}

// ── setsockopt / getsockopt ───────────────────────────────────────────────

#[test]
fn test_setsockopt_nonblock() {
    let mut mgr = SocketManager::new();
    let sid = mgr.socket(SocketDomain::Unix, SocketType::Stream, SocketProtocol::Default, 1).unwrap();
    mgr.setsockopt(sid, SocketOpt::NonBlock(true)).unwrap();
    let opts = mgr.getsockopt(sid).unwrap();
    assert!(opts.nonblocking);
    mgr.setsockopt(sid, SocketOpt::NonBlock(false)).unwrap();
    let opts = mgr.getsockopt(sid).unwrap();
    assert!(!opts.nonblocking);
}

#[test]
fn test_setsockopt_reuseaddr() {
    let mut mgr = SocketManager::new();
    let sid = mgr.socket(SocketDomain::Inet, SocketType::Stream, SocketProtocol::Tcp, 1).unwrap();
    mgr.setsockopt(sid, SocketOpt::ReuseAddr(true)).unwrap();
    let opts = mgr.getsockopt(sid).unwrap();
    assert!(opts.reuseaddr);
}

#[test]
fn test_setsockopt_buffer_sizes() {
    let mut mgr = SocketManager::new();
    let sid = mgr.socket(SocketDomain::Inet, SocketType::Stream, SocketProtocol::Tcp, 1).unwrap();
    mgr.setsockopt(sid, SocketOpt::SendBuf(128 * 1024)).unwrap();
    mgr.setsockopt(sid, SocketOpt::RecvBuf(256 * 1024)).unwrap();
    let opts = mgr.getsockopt(sid).unwrap();
    assert_eq!(opts.send_buf_size, 128 * 1024);
    assert_eq!(opts.recv_buf_size, 256 * 1024);
}

// ── Poll ──────────────────────────────────────────────────────────────────

#[test]
fn test_poll_sockets() {
    let mut mgr = SocketManager::new();
    let s1 = mgr.socket(SocketDomain::Unix, SocketType::Stream, SocketProtocol::Default, 1).unwrap();
    let s2 = mgr.socket(SocketDomain::Unix, SocketType::Stream, SocketProtocol::Default, 2).unwrap();

    let poll = mgr.poll_sockets(&[s1, s2]);
    assert_eq!(poll.len(), 2);
    for (_, state) in &poll {
        // Unconnected sockets: not readable, writable depends on state
        assert!(!state.error);
    }
}

#[test]
fn test_poll_listening_socket_readable() {
    let mut mgr = SocketManager::new();
    let server = mgr.socket(SocketDomain::Unix, SocketType::Stream, SocketProtocol::Default, 1).unwrap();
    mgr.bind(server, SocketAddr::unix("/tmp/poll.sock")).unwrap();
    mgr.listen(server, 5).unwrap();

    // No pending → not readable
    let poll = mgr.poll_sockets(&[server]);
    assert!(!poll[0].1.readable || poll[0].1.readable); // depends on recv_buf

    // Add a connection
    let client = mgr.socket(SocketDomain::Unix, SocketType::Stream, SocketProtocol::Default, 2).unwrap();
    mgr.connect(client, SocketAddr::unix("/tmp/poll.sock")).unwrap();

    // Now server should have pending → readable
    let poll = mgr.poll_sockets(&[server]);
    assert!(poll[0].1.readable);
}

// ── Datagram Sockets ──────────────────────────────────────────────────────

#[test]
fn test_dgram_socket() {
    let mut mgr = SocketManager::new();
    let sid = mgr.socket(SocketDomain::Unix, SocketType::Datagram, SocketProtocol::Default, 1).unwrap();
    let sock = mgr.get_socket(sid).unwrap();
    assert!(sock.is_dgram());
    assert!(!sock.is_stream());
    assert!(!sock.sock_type.is_connection_oriented());
    assert!(sock.sock_type.is_connectionless());
}

#[test]
fn test_dgram_connect_sets_peer() {
    let mut mgr = SocketManager::new();
    let sid = mgr.socket(SocketDomain::Unix, SocketType::Datagram, SocketProtocol::Default, 1).unwrap();
    mgr.connect(sid, SocketAddr::unix("/tmp/dgram_peer.sock")).unwrap();
    let sock = mgr.get_socket(sid).unwrap();
    assert!(sock.is_connected());
    assert_eq!(sock.peer_addr, Some(SocketAddr::unix("/tmp/dgram_peer.sock")));
}

// ── Stats ─────────────────────────────────────────────────────────────────

#[test]
fn test_socket_stats() {
    let mut mgr = SocketManager::new();
    let s1 = mgr.socket(SocketDomain::Unix, SocketType::Stream, SocketProtocol::Default, 1).unwrap();
    let s2 = mgr.socket(SocketDomain::Inet, SocketType::Stream, SocketProtocol::Tcp, 1).unwrap();

    let stats = mgr.stats();
    assert_eq!(stats.total_sockets, 2);
    assert_eq!(stats.total_created, 2);
    assert_eq!(stats.total_accepted, 0);
}

#[test]
fn test_stats_after_accept() {
    let mut mgr = SocketManager::new();
    let server = mgr.socket(SocketDomain::Unix, SocketType::Stream, SocketProtocol::Default, 1).unwrap();
    mgr.bind(server, SocketAddr::unix("/tmp/stats.sock")).unwrap();
    mgr.listen(server, 5).unwrap();

    let client = mgr.socket(SocketDomain::Unix, SocketType::Stream, SocketProtocol::Default, 2).unwrap();
    mgr.connect(client, SocketAddr::unix("/tmp/stats.sock")).unwrap();
    mgr.accept(server, 1).unwrap();

    let stats = mgr.stats();
    assert_eq!(stats.total_accepted, 1);
    assert_eq!(stats.unix_listeners, 1);
}

// ── Full Lifecycle ────────────────────────────────────────────────────────

#[test]
fn test_full_unix_stream_lifecycle() {
    let mut mgr = SocketManager::new();

    // Server setup
    let server = mgr.socket(SocketDomain::Unix, SocketType::Stream, SocketProtocol::Default, 1).unwrap();
    mgr.bind(server, SocketAddr::unix("/tmp/lifecycle.sock")).unwrap();
    mgr.listen(server, 10).unwrap();
    assert!(mgr.get_socket(server).unwrap().is_listening());

    // Client connect
    let client = mgr.socket(SocketDomain::Unix, SocketType::Stream, SocketProtocol::Default, 2).unwrap();
    mgr.connect(client, SocketAddr::unix("/tmp/lifecycle.sock")).unwrap();
    assert!(mgr.get_socket(client).unwrap().is_connected());

    // Accept
    let accepted = mgr.accept(server, 1).unwrap();
    assert!(mgr.get_socket(accepted).unwrap().is_connected());

    // setsockopt on client
    mgr.setsockopt(client, SocketOpt::NonBlock(true)).unwrap();

    // Close all
    mgr.close(client).unwrap();
    mgr.close(accepted).unwrap();
    mgr.close(server).unwrap();
    assert_eq!(mgr.socket_count(), 0);
}

#[test]
fn test_full_inet_tcp_lifecycle() {
    let mut mgr = SocketManager::new();

    let server = mgr.socket(SocketDomain::Inet, SocketType::Stream, SocketProtocol::Tcp, 1).unwrap();
    mgr.setsockopt(server, SocketOpt::ReuseAddr(true)).unwrap();
    mgr.bind(server, SocketAddr::loopback(5000)).unwrap();
    mgr.listen(server, 10).unwrap();

    let client = mgr.socket(SocketDomain::Inet, SocketType::Stream, SocketProtocol::Tcp, 2).unwrap();
    mgr.connect(client, SocketAddr::loopback(5000)).unwrap();
    let accepted = mgr.accept(server, 1).unwrap();

    // Verify stats
    let stats = mgr.stats();
    assert_eq!(stats.total_created, 3);
    assert_eq!(stats.total_accepted, 1);
    assert_eq!(stats.inet_listeners, 1);

    mgr.close(client).unwrap();
    mgr.close(accepted).unwrap();
    mgr.close(server).unwrap();
}

#[test]
fn test_sendto_recvfrom() {
    let mut mgr = SocketManager::new();
    let s = mgr.socket(SocketDomain::Inet, SocketType::Datagram, SocketProtocol::Udp, 1).unwrap();
    mgr.connect(s, SocketAddr::loopback(7000)).unwrap();

    let n = mgr.sendto(s, b"UDP packet", SocketAddr::loopback(7000));
    assert!(n.is_ok());

    let mut buf = [0u8; 20];
    let r = mgr.recvfrom(s, &mut buf);
    assert!(r.is_ok() || r == Err(SocketError::WouldBlock));
}

#[test]
fn test_socket_list() {
    let mut mgr = SocketManager::new();
    let s1 = mgr.socket(SocketDomain::Unix, SocketType::Stream, SocketProtocol::Default, 1).unwrap();
    let s2 = mgr.socket(SocketDomain::Inet, SocketType::Stream, SocketProtocol::Tcp, 1).unwrap();
    let s3 = mgr.socket(SocketDomain::Unix, SocketType::Datagram, SocketProtocol::Default, 1).unwrap();

    let list = mgr.list_sockets();
    assert_eq!(list.len(), 3);
    assert!(list.contains(&s1));
    assert!(list.contains(&s2));
    assert!(list.contains(&s3));
}

#[test]
fn test_backlog_full() {
    let mut mgr = SocketManager::new();
    let server = mgr.socket(SocketDomain::Unix, SocketType::Stream, SocketProtocol::Default, 1).unwrap();
    mgr.bind(server, SocketAddr::unix("/tmp/full.sock")).unwrap();
    mgr.listen(server, 2).unwrap(); // backlog = 2

    // Fill backlog
    let c1 = mgr.socket(SocketDomain::Unix, SocketType::Stream, SocketProtocol::Default, 10).unwrap();
    mgr.connect(c1, SocketAddr::unix("/tmp/full.sock")).unwrap();
    let c2 = mgr.socket(SocketDomain::Unix, SocketType::Stream, SocketProtocol::Default, 11).unwrap();
    mgr.connect(c2, SocketAddr::unix("/tmp/full.sock")).unwrap();

    // Third should be refused
    let c3 = mgr.socket(SocketDomain::Unix, SocketType::Stream, SocketProtocol::Default, 12).unwrap();
    let r = mgr.connect(c3, SocketAddr::unix("/tmp/full.sock"));
    assert_eq!(r, Err(SocketError::ConnectionRefused));
}

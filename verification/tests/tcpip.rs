use shivacore::tcpip::{
    IpStack, Ipv4Address, Ipv4Packet, NetworkError, Route, RoutingTable, SocketManager, TcpSegment,
    TcpState, UdpPacket, IP_PROTO_TCP, IP_PROTO_UDP, TCP_ACK, TCP_FIN, TCP_RST, TCP_SYN,
};


// ── IPv4 ────────────────────────────────────────────────────────────────

#[test]
fn test_ipv4_create() {
    let pkt = Ipv4Packet::new(
        Ipv4Address::new(10, 0, 0, 1), Ipv4Address::new(10, 0, 0, 2),
        IP_PROTO_UDP, vec![0xDE, 0xAD],
    );
    assert_eq!(pkt.version, 4);
    assert_eq!(pkt.ihl, 5);
    assert_eq!(pkt.protocol, IP_PROTO_UDP);
    assert_eq!(pkt.ttl, 64);
    assert_eq!(pkt.total_length, 22);
}

#[test]
fn test_ipv4_serialize_deserialize() {
    let pkt = Ipv4Packet::new(
        Ipv4Address::new(192, 168, 1, 1), Ipv4Address::new(192, 168, 1, 2),
        IP_PROTO_TCP, vec![0x01, 0x02, 0x03],
    );
    let bytes = pkt.to_bytes();
    assert_eq!(bytes.len(), 23);
    let parsed = Ipv4Packet::from_bytes(&bytes).unwrap();
    assert_eq!(parsed.src_ip, pkt.src_ip);
    assert_eq!(parsed.dst_ip, pkt.dst_ip);
    assert_eq!(parsed.protocol, IP_PROTO_TCP);
    assert_eq!(parsed.payload, vec![0x01, 0x02, 0x03]);
}

#[test]
fn test_ipv4_checksum() {
    let pkt = Ipv4Packet::new(
        Ipv4Address::new(10, 0, 0, 1), Ipv4Address::new(10, 0, 0, 2),
        IP_PROTO_UDP, vec![],
    ).with_checksum();
    assert_ne!(pkt.header_checksum, 0);
    let mut bytes = pkt.to_bytes();
    bytes[10] = 0; bytes[11] = 0;
    let computed = Ipv4Packet::calculate_checksum(&bytes[..20]);
    assert_eq!(computed, pkt.header_checksum);
}

#[test]
fn test_ipv4_too_short() {
    assert_eq!(Ipv4Packet::from_bytes(&[0u8; 10]), Err(NetworkError::PacketTooShort));
}

// ── UDP ──────────────────────────────────────────────────────────────────

#[test]
fn test_udp_create() {
    let udp = UdpPacket::new(1234, 5678, vec![0x42]);
    assert_eq!(udp.src_port, 1234);
    assert_eq!(udp.dst_port, 5678);
    assert_eq!(udp.length, 9);
}

#[test]
fn test_udp_serialize_deserialize() {
    let udp = UdpPacket::new(1000, 2000, vec![0xDE, 0xAD, 0xBE, 0xEF]);
    let bytes = udp.to_bytes();
    assert_eq!(bytes.len(), 12);
    let parsed = UdpPacket::from_bytes(&bytes).unwrap();
    assert_eq!(parsed.src_port, 1000);
    assert_eq!(parsed.dst_port, 2000);
    assert_eq!(parsed.payload, vec![0xDE, 0xAD, 0xBE, 0xEF]);
}

#[test]
fn test_udp_too_short() {
    assert_eq!(UdpPacket::from_bytes(&[0; 4]), Err(NetworkError::PacketTooShort));
}

// ── TCP ──────────────────────────────────────────────────────────────────

#[test]
fn test_tcp_create() {
    let seg = TcpSegment::new(80, 443, 1000, 2000, TCP_SYN | TCP_ACK, vec![]);
    assert_eq!(seg.src_port, 80);
    assert_eq!(seg.dst_port, 443);
    assert!(seg.is_syn());
    assert!(seg.is_ack());
    assert!(!seg.is_fin());
}

#[test]
fn test_tcp_serialize_deserialize() {
    let seg = TcpSegment::new(8080, 9090, 42, 99, TCP_ACK, vec![0x01, 0x02]);
    let bytes = seg.to_bytes();
    assert_eq!(bytes.len(), 22);
    let parsed = TcpSegment::from_bytes(&bytes).unwrap();
    assert_eq!(parsed.src_port, 8080);
    assert_eq!(parsed.dst_port, 9090);
    assert_eq!(parsed.seq_num, 42);
    assert_eq!(parsed.ack_num, 99);
    assert!(parsed.is_ack());
    assert_eq!(parsed.payload, vec![0x01, 0x02]);
}

#[test]
fn test_tcp_flags() {
    assert!(TcpSegment::new(1, 2, 0, 0, TCP_SYN, vec![]).is_syn());
    assert!(TcpSegment::new(1, 2, 0, 0, TCP_FIN | TCP_ACK, vec![]).is_fin());
    assert!(TcpSegment::new(1, 2, 0, 0, TCP_RST, vec![]).is_rst());
}

#[test]
fn test_tcp_too_short() {
    assert_eq!(TcpSegment::from_bytes(&[0; 10]), Err(NetworkError::PacketTooShort));
}

// ── Routing-Table ────────────────────────────────────────────────────────

#[test]
fn test_routing_exact() {
    let mut table = RoutingTable::new();
    table.add(Route {
        network: Ipv4Address::new(192, 168, 1, 0), prefix_len: 24,
        gateway: None, interface: "eth0".into(), metric: 100,
    });
    let route = table.lookup(Ipv4Address::new(192, 168, 1, 100)).unwrap();
    assert_eq!(route.prefix_len, 24);
    assert_eq!(route.interface, "eth0");
}

#[test]
fn test_routing_longest_prefix() {
    let mut table = RoutingTable::new();
    table.add(Route { network: Ipv4Address::new(0,0,0,0), prefix_len: 0, gateway: Some(Ipv4Address::new(10,0,0,1)), interface: "eth0".into(), metric: 200 });
    table.add(Route { network: Ipv4Address::new(192,168,0,0), prefix_len: 16, gateway: None, interface: "eth1".into(), metric: 100 });
    table.add(Route { network: Ipv4Address::new(192,168,1,0), prefix_len: 24, gateway: None, interface: "eth2".into(), metric: 50 });
    let route = table.lookup(Ipv4Address::new(192, 168, 1, 50)).unwrap();
    assert_eq!(route.prefix_len, 24);
    assert_eq!(route.interface, "eth2");
}

#[test]
fn test_routing_default_route() {
    let mut table = RoutingTable::new();
    table.add(Route { network: Ipv4Address::new(0,0,0,0), prefix_len: 0, gateway: Some(Ipv4Address::new(10,0,0,1)), interface: "eth0".into(), metric: 300 });
    let route = table.lookup(Ipv4Address::new(8, 8, 8, 8)).unwrap();
    assert_eq!(route.prefix_len, 0);
}

#[test]
fn test_routing_no_match() {
    let mut table = RoutingTable::new();
    table.add(Route { network: Ipv4Address::new(192,168,1,0), prefix_len: 24, gateway: None, interface: "eth0".into(), metric: 100 });
    assert!(table.lookup(Ipv4Address::new(10, 0, 0, 1)).is_none());
}

// ── Socket-Manager: UDP ──────────────────────────────────────────────────

#[test]
fn test_udp_bind() {
    let mut mgr = SocketManager::new();
    let _id = mgr.udp_bind(Ipv4Address::new(10, 0, 0, 1), 8080);
    let (udp, tcp) = mgr.socket_count();
    assert_eq!(udp, 1);
    assert_eq!(tcp, 0);
}

#[test]
fn test_udp_connect() {
    let mut mgr = SocketManager::new();
    let id = mgr.udp_bind(Ipv4Address::new(10, 0, 0, 1), 8080);
    mgr.udp_connect(id, Ipv4Address::new(10, 0, 0, 2), 9090).unwrap();
}

#[test]
fn test_udp_recv_empty() {
    let mut mgr = SocketManager::new();
    let id = mgr.udp_bind(Ipv4Address::new(10, 0, 0, 1), 8080);
    assert_eq!(mgr.udp_recv(id), Err(NetworkError::NoFrameAvailable));
}

#[test]
fn test_udp_handle_incoming() {
    let mut mgr = SocketManager::new();
    let id = mgr.udp_bind(Ipv4Address::new(10, 0, 0, 1), 8080);
    mgr.handle_udp(Ipv4Address::new(10, 0, 0, 2), 9090, 8080, vec![0xDE, 0xAD]);
    let data = mgr.udp_recv(id).unwrap();
    assert_eq!(data, vec![0xDE, 0xAD]);
}

#[test]
fn test_udp_close() {
    let mut mgr = SocketManager::new();
    let id = mgr.udp_bind(Ipv4Address::new(10, 0, 0, 1), 8080);
    mgr.udp_close(id);
    let (udp, _) = mgr.socket_count();
    assert_eq!(udp, 0);
}

// ── Socket-Manager: TCP ──────────────────────────────────────────────────

#[test]
fn test_tcp_listen() {
    let mut mgr = SocketManager::new();
    let id = mgr.tcp_bind(Ipv4Address::new(10, 0, 0, 1), 80);
    assert_eq!(mgr.tcp_state(id), Some(TcpState::Listen));
}

#[test]
fn test_tcp_connect_syn_sent() {
    let mut mgr = SocketManager::new();
    let id = mgr.tcp_bind(Ipv4Address::new(10, 0, 0, 1), 80);
    let state = mgr.tcp_connect(id, Ipv4Address::new(10, 0, 0, 2), 443).unwrap();
    assert_eq!(state, TcpState::SynSent);
}

#[test]
fn test_tcp_handshake_listen_to_syn_received() {
    let mut mgr = SocketManager::new();
    let id = mgr.tcp_bind(Ipv4Address::new(10, 0, 0, 1), 80);
    let syn = TcpSegment::new(443, 80, 1000, 0, TCP_SYN, vec![]);
    mgr.handle_tcp(Ipv4Address::new(10, 0, 0, 2), 443, 80, &syn);
    assert_eq!(mgr.tcp_state(id), Some(TcpState::SynReceived));
}

#[test]
fn test_tcp_data_reception() {
    let mut mgr = SocketManager::new();
    let id = mgr.tcp_bind(Ipv4Address::new(10, 0, 0, 1), 80);
    {
        if let Some(s) = mgr.tcp_socket_mut(id) {
            s.state = TcpState::Established;
            s.remote_ip = Some(Ipv4Address::new(10, 0, 0, 2));
            s.remote_port = Some(443);
        }
    }
    let data = TcpSegment::new(443, 80, 1001, 2001, TCP_ACK, vec![0x48, 0x49]);
    mgr.handle_tcp(Ipv4Address::new(10, 0, 0, 2), 443, 80, &data);
    let received = mgr.tcp_recv(id).unwrap();
    assert_eq!(received, vec![0x48, 0x49]);
}

#[test]
fn test_tcp_fin_closes() {
    let mut mgr = SocketManager::new();
    let id = mgr.tcp_bind(Ipv4Address::new(10, 0, 0, 1), 80);
    {
        if let Some(s) = mgr.tcp_socket_mut(id) {
            s.state = TcpState::Established;
            s.remote_ip = Some(Ipv4Address::new(10, 0, 0, 2));
            s.remote_port = Some(443);
        }
    }
    let fin = TcpSegment::new(443, 80, 1000, 1000, TCP_FIN | TCP_ACK, vec![]);
    mgr.handle_tcp(Ipv4Address::new(10, 0, 0, 2), 443, 80, &fin);
    assert_eq!(mgr.tcp_state(id), Some(TcpState::CloseWait));
}

#[test]
fn test_tcp_socket_mut_unknown_id() {
    let mut mgr = SocketManager::new();
    assert!(mgr.tcp_socket_mut(42).is_none());
}

#[test]
fn test_tcp_close() {
    let mut mgr = SocketManager::new();
    let id = mgr.tcp_bind(Ipv4Address::new(10, 0, 0, 1), 80);
    mgr.tcp_close(id);
    assert_eq!(mgr.tcp_state(id), None);
}

// ── IpStack Integration ──────────────────────────────────────────────────

#[test]
fn test_ipstack_handle_udp() {
    let mut stack = IpStack::new(Ipv4Address::new(10, 0, 0, 1));
    let sock_id = stack.sockets_mut().udp_bind(Ipv4Address::new(10, 0, 0, 1), 8080);
    let udp = UdpPacket::new(9090, 8080, vec![0x42, 0x43]);
    let ip = Ipv4Packet::new(Ipv4Address::new(10, 0, 0, 2), Ipv4Address::new(10, 0, 0, 1), IP_PROTO_UDP, udp.to_bytes());
    stack.handle_ipv4(&ip);
    let data = stack.sockets_mut().udp_recv(sock_id).unwrap();
    assert_eq!(data, vec![0x42, 0x43]);
}

#[test]
fn test_ipstack_ignores_other_dst() {
    let mut stack = IpStack::new(Ipv4Address::new(10, 0, 0, 1));
    let sock_id = stack.sockets_mut().udp_bind(Ipv4Address::new(10, 0, 0, 1), 8080);
    let udp = UdpPacket::new(9090, 8080, vec![0x42]);
    let ip = Ipv4Packet::new(Ipv4Address::new(10, 0, 0, 2), Ipv4Address::new(10, 0, 0, 99), IP_PROTO_UDP, udp.to_bytes());
    stack.handle_ipv4(&ip);
    assert_eq!(stack.sockets_mut().udp_recv(sock_id), Err(NetworkError::NoFrameAvailable));
}

#[test]
fn test_ipstack_handle_tcp_syn() {
    let mut stack = IpStack::new(Ipv4Address::new(10, 0, 0, 1));
    let sock_id = stack.sockets_mut().tcp_bind(Ipv4Address::new(10, 0, 0, 1), 80);
    let tcp = TcpSegment::new(443, 80, 1000, 0, TCP_SYN, vec![]);
    let ip = Ipv4Packet::new(Ipv4Address::new(10, 0, 0, 2), Ipv4Address::new(10, 0, 0, 1), IP_PROTO_TCP, tcp.to_bytes());
    stack.handle_ipv4(&ip);
    assert_eq!(stack.sockets().tcp_state(sock_id), Some(TcpState::SynReceived));
}

// ── Further cases ───────────────────────────────────────────────────────

fn established(mgr: &mut SocketManager) -> u64 {
    let id = mgr.tcp_bind(Ipv4Address::new(10, 0, 0, 1), 80);
    mgr.tcp_connect(id, Ipv4Address::new(10, 0, 0, 2), 443).unwrap();
    let syn_ack = TcpSegment::new(443, 80, 5000, 1001, TCP_SYN | TCP_ACK, vec![]);
    mgr.handle_tcp(Ipv4Address::new(10, 0, 0, 2), 443, 80, &syn_ack);
    id
}

#[test]
fn test_tcp_syn_ack_establishes() {
    let mut mgr = SocketManager::new();
    let id = established(&mut mgr);
    assert_eq!(mgr.tcp_state(id), Some(TcpState::Established));
}

#[test]
fn test_tcp_data_after_handshake() {
    let mut mgr = SocketManager::new();
    let id = established(&mut mgr);
    let data = TcpSegment::new(443, 80, 5001, 1001, TCP_ACK, vec![0x48, 0x49]);
    mgr.handle_tcp(Ipv4Address::new(10, 0, 0, 2), 443, 80, &data);
    let more = TcpSegment::new(443, 80, 5003, 1001, TCP_ACK, vec![0x4A]);
    mgr.handle_tcp(Ipv4Address::new(10, 0, 0, 2), 443, 80, &more);
    assert_eq!(mgr.tcp_recv(id).unwrap(), vec![0x48, 0x49]);
    assert_eq!(mgr.tcp_recv(id).unwrap(), vec![0x4A]);
    assert_eq!(mgr.tcp_recv(id), Err(NetworkError::NoFrameAvailable));
}

#[test]
fn test_tcp_fin_after_handshake() {
    let mut mgr = SocketManager::new();
    let id = established(&mut mgr);
    let fin = TcpSegment::new(443, 80, 5001, 1001, TCP_FIN | TCP_ACK, vec![]);
    mgr.handle_tcp(Ipv4Address::new(10, 0, 0, 2), 443, 80, &fin);
    assert_eq!(mgr.tcp_state(id), Some(TcpState::CloseWait));
}

#[test]
fn test_tcp_unknown_socket_errors() {
    let mut mgr = SocketManager::new();
    assert_eq!(mgr.tcp_recv(7), Err(NetworkError::ArpResolutionFailed));
    assert_eq!(
        mgr.tcp_connect(7, Ipv4Address::new(10, 0, 0, 2), 443),
        Err(NetworkError::ArpResolutionFailed)
    );
    assert_eq!(mgr.tcp_state(7), None);
}

#[test]
fn test_udp_unknown_socket_errors() {
    let mut mgr = SocketManager::new();
    assert_eq!(mgr.udp_recv(3), Err(NetworkError::ArpResolutionFailed));
    assert_eq!(
        mgr.udp_connect(3, Ipv4Address::new(10, 0, 0, 2), 9090),
        Err(NetworkError::ArpResolutionFailed)
    );
}

#[test]
fn test_udp_datagrams_in_order() {
    let mut mgr = SocketManager::new();
    let id = mgr.udp_bind(Ipv4Address::new(10, 0, 0, 1), 8080);
    let other = mgr.udp_bind(Ipv4Address::new(10, 0, 0, 1), 9000);
    mgr.handle_udp(Ipv4Address::new(10, 0, 0, 2), 1, 8080, vec![1]);
    mgr.handle_udp(Ipv4Address::new(10, 0, 0, 2), 1, 8080, vec![2]);
    assert_eq!(mgr.udp_recv(id).unwrap(), vec![1]);
    assert_eq!(mgr.udp_recv(id).unwrap(), vec![2]);
    assert_eq!(mgr.udp_recv(other), Err(NetworkError::NoFrameAvailable));
}

#[test]
fn test_socket_ids_ascend() {
    let mut mgr = SocketManager::new();
    let a = mgr.udp_bind(Ipv4Address::new(10, 0, 0, 1), 1);
    let b = mgr.tcp_bind(Ipv4Address::new(10, 0, 0, 1), 2);
    let c = mgr.udp_bind(Ipv4Address::new(10, 0, 0, 1), 3);
    assert_eq!((a, b, c), (1, 2, 3));
    assert_eq!(mgr.socket_count(), (2, 1));
}

#[test]
fn test_checksum_known_header() {
    // RFC 1071 example header: checksum 0xB861.
    let header = [
        0x45u8, 0x00, 0x00, 0x73, 0x00, 0x00, 0x40, 0x00, 0x40, 0x11, 0x00, 0x00, 0xC0, 0xA8, 0x00,
        0x01, 0xC0, 0xA8, 0x00, 0xC7,
    ];
    assert_eq!(Ipv4Packet::calculate_checksum(&header), 0xB861);
    assert_eq!(Ipv4Packet::calculate_checksum(&[0x01]), !0x0100u16);
    assert_eq!(Ipv4Packet::calculate_checksum(&[]), 0xFFFF);
}

#[test]
fn test_ipv4_roundtrip_all_fields() {
    let mut pkt = Ipv4Packet::new(
        Ipv4Address::new(1, 2, 3, 4), Ipv4Address::new(5, 6, 7, 8), IP_PROTO_UDP, vec![9, 9],
    );
    pkt.dscp = 46;
    pkt.ecn = 2;
    pkt.flags = 2;
    pkt.fragment_offset = 0x1ABC;
    pkt.identification = 0xBEEF;
    let pkt = pkt.with_checksum();
    let parsed = Ipv4Packet::from_bytes(&pkt.to_bytes()).unwrap();
    assert_eq!(parsed, pkt);
}

#[test]
fn test_ipv4_errors() {
    let mut bytes = Ipv4Packet::new(
        Ipv4Address::new(1, 2, 3, 4), Ipv4Address::new(5, 6, 7, 8), IP_PROTO_UDP, vec![],
    ).to_bytes();
    bytes[0] = 0x65;
    assert_eq!(Ipv4Packet::from_bytes(&bytes), Err(NetworkError::UnsupportedProtocol));
    bytes[0] = 0x46;
    assert_eq!(Ipv4Packet::from_bytes(&bytes), Err(NetworkError::PacketTooShort));
}

#[test]
fn test_tcp_data_offset_beyond_data() {
    let mut bytes = TcpSegment::new(1, 2, 3, 4, TCP_ACK, vec![7, 8]).to_bytes();
    bytes[12] = 0xF0;
    let parsed = TcpSegment::from_bytes(&bytes).unwrap();
    assert_eq!(parsed.data_offset, 15);
    assert!(parsed.payload.is_empty());
    let seg = TcpSegment::new(1, 2, 3, 4, TCP_RST, vec![]);
    assert_eq!(TcpSegment::from_bytes(&seg.to_bytes()).unwrap(), seg);
}

#[test]
fn test_routing_add_orders_by_metric() {
    let mut table = RoutingTable::new();
    for (m, name) in [(30u32, "c"), (10, "a"), (30, "d"), (20, "b")] {
        table.add(Route { network: Ipv4Address::new(10, 0, 0, 0), prefix_len: 8, gateway: None, interface: name.into(), metric: m });
    }
    assert_eq!(table.route_count(), 4);
    // Equal prefixes: the last in metric order wins.
    assert_eq!(table.lookup(Ipv4Address::new(10, 1, 1, 1)).unwrap().interface, "d");
    table.clear();
    assert_eq!(table.route_count(), 0);
    assert!(table.lookup(Ipv4Address::new(10, 1, 1, 1)).is_none());
}

#[test]
fn test_routing_host_route() {
    let mut table = RoutingTable::new();
    table.add(Route { network: Ipv4Address::new(10, 0, 0, 5), prefix_len: 32, gateway: None, interface: "h".into(), metric: 1 });
    table.add(Route { network: Ipv4Address::new(10, 0, 0, 0), prefix_len: 31, gateway: None, interface: "n".into(), metric: 1 });
    assert_eq!(table.lookup(Ipv4Address::new(10, 0, 0, 5)).unwrap().interface, "h");
    assert_eq!(table.lookup(Ipv4Address::new(10, 0, 0, 1)).unwrap().interface, "n");
    assert!(table.lookup(Ipv4Address::new(10, 0, 0, 4)).is_none());
}

#[test]
fn test_ipstack_broadcast_and_other_protocol() {
    let mut stack = IpStack::new(Ipv4Address::new(10, 0, 0, 1));
    let id = stack.sockets_mut().udp_bind(Ipv4Address::new(10, 0, 0, 1), 53);
    let udp = UdpPacket::new(1, 53, vec![5]);
    let icmp = Ipv4Packet::new(Ipv4Address::new(10, 0, 0, 2), Ipv4Address::new(10, 0, 0, 1), 1, udp.to_bytes());
    stack.handle_ipv4(&icmp);
    let bcast = Ipv4Packet::new(Ipv4Address::new(10, 0, 0, 2), Ipv4Address::new(255, 255, 255, 255), IP_PROTO_UDP, udp.to_bytes());
    stack.handle_ipv4(&bcast);
    assert_eq!(stack.sockets_mut().udp_recv(id).unwrap(), vec![5]);
    assert_eq!(stack.sockets_mut().udp_recv(id), Err(NetworkError::NoFrameAvailable));
}

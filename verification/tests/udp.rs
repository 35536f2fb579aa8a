//! UDP endpoints.

use rmr::addr::{canonical_ip, parse_ip, IpAddr, Ipv4Addr, Ipv6Addr, SocketAddr};
use rmr::endpoint::defaults::{
    DEFAULT_IDLE_SECS, DEFAULT_LATCH_IDLE_SECS, DEFAULT_PEER_CAPACITY,
    DEFAULT_RECONNECT_INITIAL_MS, DEFAULT_RECONNECT_MAX_MS, DEFAULT_TX_QUEUE_FRAMES,
    READ_BUF_BYTES,
};
use rmr::endpoint::events::{peer_added, peer_removed, EndpointEvent, PeerRemovalReason};
use rmr::endpoint::filters::{Filters, MsgIdRange};
use rmr::endpoint::id::{peer_endpoint_name, EndpointId, EndpointIdAllocator};
use rmr::endpoint::identity_flags::IdentityFlags;
use rmr::endpoint::session::Ingress;
use rmr::endpoint::spec::endpoint_kinds::{CommonQuery, UdpClientEndpoint, UdpServerEndpoint};
use rmr::endpoint::stats::{EndpointState, EndpointStats};
use rmr::endpoint::udp::client::{
    classify_inbound, lookup_target, pick_local_bind, Destination, InboundDecision, LatchInfo,
    UdpClientAction, UdpClientConfig, UdpClientError, UdpClientEvent, UdpClientSpec, UdpClientTask,
};
use rmr::endpoint::udp::server::{
    new_peer, on_peer_send, PacketStep, Peer, PeerTable, UdpServerConfig, UdpServerError, UdpServerSpec,
};
use rmr::mavlink::crc::Crc16;
use rmr::mavlink::frame::STX_V1;

/// A clock reading, in milliseconds.
const NOW: u64 = 1_000_000;

type Query = Vec<(String, String)>;

fn make_dest(ips: &[IpAddr], port: u16) -> Destination {
    Destination {
        host: "example".to_string(),
        port,
        resolved_ips: ips.to_vec(),
        latch: None,
    }
}

fn v4(octet_a: u8, octet_b: u8, octet_c: u8, octet_d: u8) -> IpAddr {
    IpAddr::V4(Ipv4Addr::new(octet_a, octet_b, octet_c, octet_d))
}

fn addr(port: u16) -> SocketAddr {
    SocketAddr::new(v4(127, 0, 0, port as u8), port)
}

/// A table whose peers were heard so many seconds ago.
fn table(peers: &[(u16, u64, u64)]) -> PeerTable {
    PeerTable {
        peers: peers
            .iter()
            .map(|(port, id, age_secs)| Peer {
                addr: addr(*port),
                child_id: EndpointId(*id),
                last_seen: NOW - age_secs * 1000,
                ingress: Ingress::new(),
            })
            .collect(),
    }
}

/// A HEARTBEAT from node 1/1.
fn heartbeat(seq: u8) -> Vec<u8> {
    let payload = [0u8; 9];
    let mut bytes = vec![STX_V1, payload.len() as u8, seq, 1, 1, 0];
    bytes.extend_from_slice(&payload);
    let mut crc = Crc16::new();
    crc.update_slice(&bytes[1..]);
    crc.update(50);
    let crc_value = crc.finalize();
    bytes.push((crc_value & 0xFF) as u8);
    bytes.push((crc_value >> 8) as u8);
    bytes
}

#[test]
fn spec_overrides_from_endpoint() {
    let endpoint = UdpClientEndpoint {
        latch_idle_secs: Some(5),
        ..UdpClientEndpoint::default()
    };
    let spec = UdpClientSpec::from_endpoint(endpoint, EndpointId(0), "n".into());
    assert_eq!(spec.latch_idle_secs, 5);
}

#[test]
fn client_classify_configured_matching_ip_latches() {
    let dest = make_dest(&[v4(192, 168, 1, 5)], 14550);
    assert_eq!(
        classify_inbound(&dest, v4(192, 168, 1, 5)),
        InboundDecision::AcceptAndLatch
    );
}

#[test]
fn client_classify_configured_unrelated_ip_rejected() {
    let dest = make_dest(&[v4(192, 168, 1, 5)], 14550);
    assert_eq!(
        classify_inbound(&dest, v4(10, 0, 0, 9)),
        InboundDecision::Reject
    );
}

#[test]
fn client_classify_configured_any_resolved_ip_latches() {
    let dest = make_dest(&[v4(192, 168, 1, 5), v4(192, 168, 1, 6)], 14550);
    assert_eq!(
        classify_inbound(&dest, v4(192, 168, 1, 6)),
        InboundDecision::AcceptAndLatch
    );
}

#[test]
fn client_classify_latched_same_ip_accepts_update() {
    let mut dest = make_dest(&[v4(192, 168, 1, 5)], 14550);
    dest.latch = Some(LatchInfo {
        addr: SocketAddr::new(IpAddr::V4(Ipv4Addr::new(192, 168, 1, 5)), 50000),
        last_inbound: NOW,
    });
    // Different port, same IP — accepted.
    assert_eq!(
        classify_inbound(&dest, v4(192, 168, 1, 5)),
        InboundDecision::AcceptUpdate
    );
}

#[test]
fn client_classify_latched_other_ip_rejected_even_if_in_resolved() {
    let mut dest = make_dest(&[v4(192, 168, 1, 5), v4(192, 168, 1, 6)], 14550);
    dest.latch = Some(LatchInfo {
        addr: SocketAddr::new(IpAddr::V4(Ipv4Addr::new(192, 168, 1, 5)), 50000),
        last_inbound: NOW,
    });
    // 192.168.1.6 is in resolved_ips but the latch on 192.168.1.5 is a hard lock until
    // idle revert.
    assert_eq!(
        classify_inbound(&dest, v4(192, 168, 1, 6)),
        InboundDecision::Reject
    );
}

#[test]
fn client_canonical_ipv4_mapped_v6_collapses_to_v4() {
    let mapped = parse_ip("::ffff:127.0.0.1").unwrap();
    assert_eq!(canonical_ip(mapped), v4(127, 0, 0, 1));
}

#[test]
fn client_canonical_pure_v6_unchanged() {
    let v6 = parse_ip("2001:db8::1").unwrap();
    assert_eq!(canonical_ip(v6), v6);
}

#[test]
fn client_current_target_prefers_latch_over_resolved() {
    let mut dest = make_dest(&[v4(192, 168, 1, 5)], 14550);
    assert_eq!(
        dest.current_target(),
        Some(SocketAddr::new(v4(192, 168, 1, 5), 14550))
    );
    let latched = SocketAddr::new(IpAddr::V4(Ipv4Addr::new(10, 0, 0, 1)), 50000);
    dest.latch = Some(LatchInfo {
        addr: latched,
        last_inbound: NOW,
    });
    assert_eq!(dest.current_target(), Some(latched));
}

#[test]
fn client_current_target_none_when_empty_and_no_latch() {
    let dest = make_dest(&[], 14550);
    assert_eq!(dest.current_target(), None);
}

#[test]
fn client_pick_local_bind_all_v4_uses_v4() {
    let addr = pick_local_bind(&[v4(192, 168, 1, 1), v4(10, 0, 0, 1)]);
    assert_eq!(addr.ip(), IpAddr::V4(Ipv4Addr::new(0, 0, 0, 0)));
}

#[test]
fn client_pick_local_bind_any_v6_uses_dual_stack() {
    let v6 = parse_ip("2001:db8::1").unwrap();
    let addr = pick_local_bind(&[v4(192, 168, 1, 1), v6]);
    assert_eq!(addr.ip(), IpAddr::V6(Ipv6Addr::from_segments([0; 8])));
}

#[test]
fn client_pick_local_bind_empty_defaults_to_dual_stack() {
    let addr = pick_local_bind(&[]);
    assert_eq!(addr.ip(), IpAddr::V6(Ipv6Addr::from_segments([0; 8])));
}

#[test]
fn udp_client_config_defaults_when_endpoint_unset() {
    let ep = UdpClientEndpoint::default();
    let cfg = UdpClientConfig::from_endpoint(&ep);
    assert_eq!(cfg.latch_idle_secs, DEFAULT_LATCH_IDLE_SECS);
    assert_eq!(cfg.tx_queue_frames, DEFAULT_TX_QUEUE_FRAMES);
    assert_eq!(cfg.read_buf_bytes, READ_BUF_BYTES);
}

#[test]
fn udp_client_config_overrides_from_endpoint() {
    let ep = UdpClientEndpoint {
        latch_idle_secs: Some(5),
        common: CommonQuery {
            tx_queue_frames: Some(8),
            read_buf_bytes: Some(1024),
        },
        ..UdpClientEndpoint::default()
    };
    let cfg = UdpClientConfig::from_endpoint(&ep);
    assert_eq!(cfg.latch_idle_secs, 5);
    assert_eq!(cfg.tx_queue_frames, 8);
    assert_eq!(cfg.read_buf_bytes, 1024);
}

#[test]
fn udp_client_classify_configured_matching_ip_latches() {
    let dest = make_dest(&[v4(192, 168, 1, 5)], 14550);
    assert_eq!(
        classify_inbound(&dest, v4(192, 168, 1, 5)),
        InboundDecision::AcceptAndLatch
    );
}

#[test]
fn udp_client_classify_configured_unrelated_ip_rejected() {
    let dest = make_dest(&[v4(192, 168, 1, 5)], 14550);
    assert_eq!(
        classify_inbound(&dest, v4(10, 0, 0, 9)),
        InboundDecision::Reject
    );
}

#[test]
fn udp_client_classify_configured_any_resolved_ip_latches() {
    let dest = make_dest(&[v4(192, 168, 1, 5), v4(192, 168, 1, 6)], 14550);
    assert_eq!(
        classify_inbound(&dest, v4(192, 168, 1, 6)),
        InboundDecision::AcceptAndLatch
    );
}

#[test]
fn udp_client_classify_latched_same_ip_accepts_update() {
    let mut dest = make_dest(&[v4(192, 168, 1, 5)], 14550);
    dest.latch = Some(LatchInfo {
        addr: SocketAddr::new(IpAddr::V4(Ipv4Addr::new(192, 168, 1, 5)), 50000),
        last_inbound: NOW,
    });
    // Different port, same IP — accepted.
    assert_eq!(
        classify_inbound(&dest, v4(192, 168, 1, 5)),
        InboundDecision::AcceptUpdate
    );
}

#[test]
fn udp_client_classify_latched_other_ip_rejected_even_if_in_resolved() {
    let mut dest = make_dest(&[v4(192, 168, 1, 5), v4(192, 168, 1, 6)], 14550);
    dest.latch = Some(LatchInfo {
        addr: SocketAddr::new(IpAddr::V4(Ipv4Addr::new(192, 168, 1, 5)), 50000),
        last_inbound: NOW,
    });
    // Even though 192.168.1.6 is in resolved_ips, we're latched on .5
    // so .6 is now Reject. The latch is a hard lock until idle revert.
    assert_eq!(
        classify_inbound(&dest, v4(192, 168, 1, 6)),
        InboundDecision::Reject
    );
}

#[test]
fn udp_client_canonical_ipv4_mapped_v6_collapses_to_v4() {
    let mapped = parse_ip("::ffff:127.0.0.1").unwrap();
    assert_eq!(canonical_ip(mapped), v4(127, 0, 0, 1));
}

#[test]
fn udp_client_canonical_pure_v6_unchanged() {
    let v6 = parse_ip("2001:db8::1").unwrap();
    assert_eq!(canonical_ip(v6), v6);
}

#[test]
fn udp_client_current_target_prefers_latch_over_resolved() {
    let mut dest = make_dest(&[v4(192, 168, 1, 5)], 14550);
    assert_eq!(
        dest.current_target(),
        Some(SocketAddr::new(v4(192, 168, 1, 5), 14550))
    );
    let latched = SocketAddr::new(IpAddr::V4(Ipv4Addr::new(10, 0, 0, 1)), 50000);
    dest.latch = Some(LatchInfo {
        addr: latched,
        last_inbound: NOW,
    });
    assert_eq!(dest.current_target(), Some(latched));
}

#[test]
fn udp_client_current_target_none_when_empty_and_no_latch() {
    let dest = make_dest(&[], 14550);
    assert_eq!(dest.current_target(), None);
}

#[test]
fn udp_client_pick_local_bind_all_v4_uses_v4() {
    let addr = pick_local_bind(&[v4(192, 168, 1, 1), v4(10, 0, 0, 1)]);
    assert_eq!(addr.ip(), IpAddr::V4(Ipv4Addr::new(0, 0, 0, 0)));
}

#[test]
fn udp_client_pick_local_bind_any_v6_uses_dual_stack() {
    let v6 = parse_ip("2001:db8::1").unwrap();
    let addr = pick_local_bind(&[v4(192, 168, 1, 1), v6]);
    assert_eq!(addr.ip(), IpAddr::V6(Ipv6Addr::from_segments([0; 8])));
}

#[test]
fn udp_client_pick_local_bind_empty_defaults_to_dual_stack() {
    let addr = pick_local_bind(&[]);
    assert_eq!(addr.ip(), IpAddr::V6(Ipv6Addr::from_segments([0; 8])));
}

#[test]
fn config_defaults_when_query_empty() {
    let q = Query::new();
    let cfg = UdpServerConfig::from_query(&q).unwrap();
    assert_eq!(cfg.idle_secs, DEFAULT_IDLE_SECS);
    assert_eq!(cfg.peer_capacity, DEFAULT_PEER_CAPACITY);
    assert_eq!(cfg.read_buf_bytes, READ_BUF_BYTES);
    assert_eq!(cfg.tx_queue_frames, DEFAULT_TX_QUEUE_FRAMES);
}

#[test]
fn config_overrides_from_query() {
    let mut q = Query::new();
    q.push(("idle_secs".to_string(), "10".to_string()));
    q.push(("udps_peer_capacity".to_string(), "4".to_string()));
    q.push(("read_buf_bytes".to_string(), "1024".to_string()));
    q.push(("tx_queue_frames".to_string(), "8".to_string()));
    let cfg = UdpServerConfig::from_query(&q).unwrap();
    assert_eq!(cfg.idle_secs, 10);
    assert_eq!(cfg.peer_capacity, 4);
    assert_eq!(cfg.read_buf_bytes, 1024);
    assert_eq!(cfg.tx_queue_frames, 8);
}

#[test]
fn config_zero_idle_secs_rejected() {
    let mut q = Query::new();
    q.push(("idle_secs".to_string(), "0".to_string()));
    assert!(matches!(
        UdpServerConfig::from_query(&q),
        Err(UdpServerError::InvalidQuery(_))
    ));
}

#[test]
fn config_zero_peer_capacity_rejected() {
    let mut q = Query::new();
    q.push(("udps_peer_capacity".to_string(), "0".to_string()));
    assert!(matches!(
        UdpServerConfig::from_query(&q),
        Err(UdpServerError::InvalidQuery(_))
    ));
}

#[test]
fn config_non_numeric_rejected() {
    let mut q = Query::new();
    q.push(("idle_secs".to_string(), "ten".to_string()));
    assert!(matches!(
        UdpServerConfig::from_query(&q),
        Err(UdpServerError::InvalidQuery(_))
    ));
}

#[test]
fn spec_overrides_idle_secs_via_endpoint() {
    let ep = UdpServerEndpoint {
        idle_secs: Some(10),
        ..UdpServerEndpoint::default()
    };
    let spec = UdpServerSpec::from_endpoint(ep, EndpointId(0), "n".into());
    assert_eq!(spec.idle_secs, 10);
    assert_eq!(spec.reconnect_initial_ms, DEFAULT_RECONNECT_INITIAL_MS);
    assert_eq!(spec.reconnect_max_ms, DEFAULT_RECONNECT_MAX_MS);
}

#[test]
fn client_check_latch_idle_reverts_after_threshold() {
    let mut dest = make_dest(&[v4(127, 0, 0, 1)], 14550);
    dest.latch = Some(LatchInfo {
        addr: SocketAddr::new(v4(127, 0, 0, 1), 50000),
        last_inbound: NOW - 120_000,
    });
    assert!(dest.latch_expired(30, NOW));
    dest.revert(vec![v4(127, 0, 0, 1)]);
    assert!(dest.latch.is_none());
    assert_eq!(dest.resolved_ips, vec![v4(127, 0, 0, 1)]);
}

#[test]
fn client_check_latch_idle_keeps_fresh_latch() {
    let mut dest = make_dest(&[v4(127, 0, 0, 1)], 14550);
    dest.latch = Some(LatchInfo {
        addr: SocketAddr::new(v4(127, 0, 0, 1), 50000),
        last_inbound: NOW,
    });
    assert!(!dest.latch_expired(30, NOW));
    assert!(dest.latch.is_some());
}

/// A task that is talking to 127.0.0.1.
fn client(state: EndpointState, ips: &[IpAddr]) -> (UdpClientTask, EndpointStats) {
    (
        UdpClientTask::new(make_dest(ips, 14550)),
        EndpointStats::new(state),
    )
}

fn step(task: &mut UdpClientTask, event: UdpClientEvent, stats: &mut EndpointStats) -> UdpClientAction {
    task.step(event, EndpointId(0), &Filters::default(), 30, stats, NOW)
}

#[test]
fn send_frame_success_writes_connected() {
    let (mut task, mut stats) = client(EndpointState::Reconnecting, &[v4(127, 0, 0, 1)]);
    match step(&mut task, UdpClientEvent::FrameReady, &mut stats) {
        UdpClientAction::Send(to) => assert_eq!(to, SocketAddr::new(v4(127, 0, 0, 1), 14550)),
        _ => panic!("there is a target to send to"),
    }
    step(&mut task, UdpClientEvent::Sent(Some(5)), &mut stats);
    assert_eq!(stats.load_state(), EndpointState::Connected);
    assert_eq!(stats.tx_frames, 1);
    assert_eq!(stats.tx_bytes, 5);
}

#[test]
fn send_frame_send_to_error_writes_reconnecting() {
    let (mut task, mut stats) = client(EndpointState::Connected, &[v4(127, 0, 0, 1)]);
    step(&mut task, UdpClientEvent::FrameReady, &mut stats);
    let next = step(&mut task, UdpClientEvent::Sent(None), &mut stats);
    assert!(matches!(next, UdpClientAction::Resolve));
    step(&mut task, UdpClientEvent::Resolved(vec![]), &mut stats);
    assert_eq!(stats.load_state(), EndpointState::Reconnecting);
    assert_eq!(stats.tx_frames, 0, "failed send must not count as tx_frame");
}

#[test]
fn send_frame_no_target_after_failed_reresolve_writes_reconnecting() {
    let (mut task, mut stats) = client(EndpointState::Connected, &[]);
    let next = step(&mut task, UdpClientEvent::FrameReady, &mut stats);
    assert!(matches!(next, UdpClientAction::Resolve));
    step(&mut task, UdpClientEvent::Resolved(vec![]), &mut stats);
    assert_eq!(stats.load_state(), EndpointState::Reconnecting);
}

#[test]
fn send_frame_no_target_then_reresolve_succeeds_keeps_state() {
    let (mut task, mut stats) = client(EndpointState::Connected, &[]);
    step(&mut task, UdpClientEvent::FrameReady, &mut stats);
    step(&mut task, UdpClientEvent::Resolved(vec![v4(127, 0, 0, 1)]), &mut stats);
    assert_eq!(stats.load_state(), EndpointState::Connected);
    assert!(
        !task.dest.resolved_ips.is_empty(),
        "re-resolve should have populated IPs"
    );
}

#[test]
fn send_frame_recovers_from_reconnecting_on_success() {
    let (mut task, mut stats) = client(EndpointState::Connected, &[v4(127, 0, 0, 1)]);
    step(&mut task, UdpClientEvent::FrameReady, &mut stats);
    step(&mut task, UdpClientEvent::Sent(None), &mut stats);
    step(&mut task, UdpClientEvent::Resolved(vec![v4(127, 0, 0, 1)]), &mut stats);
    assert_eq!(stats.load_state(), EndpointState::Reconnecting);
    step(&mut task, UdpClientEvent::FrameReady, &mut stats);
    step(&mut task, UdpClientEvent::Sent(Some(1)), &mut stats);
    assert_eq!(stats.load_state(), EndpointState::Connected);
}

#[test]
fn accepted_inbound_writes_connected() {
    let (mut task, mut stats) = client(EndpointState::Reconnecting, &[v4(127, 0, 0, 1)]);
    let src = SocketAddr::new(v4(127, 0, 0, 1), 50000);
    step(&mut task, UdpClientEvent::Datagram(&[], src), &mut stats);
    assert_eq!(stats.load_state(), EndpointState::Connected);
    assert!(task.dest.latch.is_some(), "expected latch to be installed");
}

#[test]
fn rejected_inbound_does_not_write_connected() {
    let (mut task, mut stats) = client(EndpointState::Reconnecting, &[v4(192, 168, 1, 5)]);
    let src = SocketAddr::new(v4(10, 0, 0, 9), 50000);
    step(&mut task, UdpClientEvent::Datagram(&[], src), &mut stats);
    assert_eq!(stats.load_state(), EndpointState::Reconnecting);
    assert!(task.dest.latch.is_none());
    assert_eq!(stats.in_filter_drops, 1);
}

#[test]
fn in_filter_drops_blocked_msgid() {
    let (mut task, mut stats) = client(EndpointState::Connected, &[v4(127, 0, 0, 1)]);
    let filters = Filters {
        block_msgid_in: vec![MsgIdRange::single(0)],
        ..Filters::default()
    };
    let src = SocketAddr::new(v4(127, 0, 0, 1), 50000);
    let bytes = heartbeat(0);
    let next = task.step(
        UdpClientEvent::Datagram(&bytes, src),
        EndpointId(0),
        &filters,
        30,
        &mut stats,
        NOW,
    );
    assert!(matches!(next, UdpClientAction::Wait), "frame must not reach router");
    assert_eq!(stats.rx_frames, 1);
    assert_eq!(stats.in_filter_drops, 1);
}

#[test]
fn client_forwards_each_frame_of_a_datagram() {
    let (mut task, mut stats) = client(EndpointState::Reconnecting, &[v4(127, 0, 0, 1)]);
    let src = SocketAddr::new(v4(127, 0, 0, 1), 50000);
    let mut bytes = heartbeat(0);
    bytes.extend_from_slice(&heartbeat(3));
    let mut next = step(&mut task, UdpClientEvent::Datagram(&bytes, src), &mut stats);
    let mut seqs = Vec::new();
    while let UdpClientAction::Forward(frame) = next {
        assert_eq!(frame.endpoint_id, EndpointId(0));
        seqs.push(frame.header.seq);
        next = step(&mut task, UdpClientEvent::Forwarded(true), &mut stats);
    }
    assert_eq!(seqs, vec![0, 3]);
    assert_eq!(stats.rx_frames, 2);
    assert_eq!(stats.rx_bytes, 34);
    assert_eq!(stats.rx_lost_est, 2);
}

#[test]
fn client_latch_goes_idle_on_the_tick() {
    let (mut task, mut stats) = client(EndpointState::Connected, &[v4(127, 0, 0, 1)]);
    let src = SocketAddr::new(v4(127, 0, 0, 1), 50000);
    step(&mut task, UdpClientEvent::Datagram(&[], src), &mut stats);
    assert_eq!(task.dest.current_target(), Some(src));
    assert!(matches!(
        step(&mut task, UdpClientEvent::Tick, &mut stats),
        UdpClientAction::Wait
    ));
    let later = task.step(
        UdpClientEvent::Tick,
        EndpointId(0),
        &Filters::default(),
        30,
        &mut stats,
        NOW + 30_001,
    );
    assert!(matches!(later, UdpClientAction::Resolve));
    step(&mut task, UdpClientEvent::Resolved(vec![v4(127, 0, 0, 2)]), &mut stats);
    assert_eq!(
        task.dest.current_target(),
        Some(SocketAddr::new(v4(127, 0, 0, 2), 14550))
    );
}

#[test]
fn client_stops_when_cancelled() {
    let (mut task, mut stats) = client(EndpointState::Connected, &[v4(127, 0, 0, 1)]);
    assert!(matches!(
        step(&mut task, UdpClientEvent::Cancelled, &mut stats),
        UdpClientAction::Stop
    ));
    for event in [UdpClientEvent::Forwarded(false), UdpClientEvent::RecvFailed] {
        assert!(matches!(
            step(&mut task, event, &mut stats),
            UdpClientAction::Wait
        ));
    }
}

#[test]
fn lookup_target_joins_host_and_port() {
    assert_eq!(lookup_target("gcs.local", 14550), "gcs.local:14550");
    assert_eq!(lookup_target("127.0.0.1", 1), "127.0.0.1:1");
    assert_eq!(lookup_target("::1", 14550), "::1:14550");
}

#[test]
fn server_evict_lru_drops_oldest_peer() {
    let mut peers = table(&[(1, 0, 30), (2, 1, 60), (3, 2, 5)]);
    let gone = peers.evict_lru().unwrap();
    assert!(peers.find(addr(2)).is_none());
    assert!(peers.find(addr(1)).is_some());
    assert!(peers.find(addr(3)).is_some());
    match peer_removed(EndpointId(99), gone, PeerRemovalReason::LruEvicted) {
        EndpointEvent::PeerRemoved {
            reason, child_id, ..
        } => {
            assert_eq!(reason, PeerRemovalReason::LruEvicted);
            assert_eq!(child_id, EndpointId(1));
        }
        other => panic!("expected PeerRemoved, got {other:?}"),
    }
}

#[test]
fn server_evict_lru_no_op_on_empty_table() {
    let mut peers = PeerTable::new();
    assert!(peers.evict_lru().is_none());
    assert!(peers.peers.is_empty());
}

#[test]
fn server_reap_idle_removes_only_stale_peers() {
    let mut peers = table(&[(1, 0, 120), (2, 1, 5), (3, 2, 120)]);
    let mut removed = peers.reap_idle(60, NOW);
    assert!(peers.find(addr(1)).is_none());
    assert!(peers.find(addr(2)).is_some());
    assert!(peers.find(addr(3)).is_none());
    removed.sort();
    assert_eq!(removed, vec![EndpointId(0), EndpointId(2)]);
}

#[test]
fn admit_new_peer_evicts_lru_when_at_capacity() {
    let mut peers = table(&[(1, 10, 30), (2, 11, 60), (3, 12, 5)]);
    assert!(matches!(peers.on_packet(addr(4)), PacketStep::Announce));
    match peer_added(EndpointId(0), "test", &IdentityFlags::default(), EndpointId(13), addr(4)) {
        EndpointEvent::PeerAdded { name, .. } => {
            assert_eq!(name, peer_endpoint_name("test", addr(4)));
        }
        other => panic!("expected PeerAdded for addr(4), got {other:?}"),
    }
    let evicted = peers.admit_new_peer(addr(4), EndpointId(13), NOW, 3);
    assert_eq!(evicted, Some(EndpointId(11)));
    assert_eq!(peers.peers.len(), 3, "table size should stay at peer_capacity");
    assert!(peers.find(addr(2)).is_none(), "LRU peer should be evicted");
    assert!(peers.find(addr(1)).is_some());
    assert!(peers.find(addr(3)).is_some());
    assert!(peers.find(addr(4)).is_some(), "new peer should be admitted");
}

#[test]
fn admit_new_peer_with_closed_event_tx_does_not_evict() {
    // Nobody hears the announcement, so the peer is not taken in, though the table is full.
    let mut peers = table(&[(1, 10, 30), (2, 11, 60)]);
    assert!(matches!(peers.on_packet(addr(3)), PacketStep::Announce));
    assert_eq!(peers.on_announced(false, addr(3), EndpointId(12), NOW, 2), None);
    assert_eq!(peers.peers.len(), 2, "no peer should have been evicted");
    assert!(peers.find(addr(1)).is_some(), "addr(1) should remain");
    assert!(peers.find(addr(2)).is_some(), "addr(2) should remain");
    assert!(peers.find(addr(3)).is_none(), "addr(3) should not be taken in");
}

#[test]
fn server_takes_in_a_peer_that_was_heard_of() {
    let mut peers = table(&[(1, 10, 30), (2, 11, 60)]);
    let gone = peers.on_announced(true, addr(3), EndpointId(12), NOW, 2);
    assert_eq!(gone, Some(Some(EndpointId(11))));
    assert_eq!(peers.peers.len(), 2);
    assert!(peers.find(addr(2)).is_none());
    assert!(peers.find(addr(3)).is_some());
    let gone = peers.on_announced(true, addr(4), EndpointId(13), NOW, 3);
    assert_eq!(gone, Some(None));
    assert_eq!(peers.peers.len(), 3);
}

#[test]
fn server_admits_without_eviction_below_capacity() {
    let mut peers = table(&[(1, 10, 30)]);
    assert_eq!(peers.admit_new_peer(addr(2), EndpointId(11), NOW, 2), None);
    assert_eq!(peers.peers.len(), 2);
}

#[test]
fn server_delivers_to_the_sender_only() {
    let mut peers = table(&[(1, 10, 30), (2, 11, 5)]);
    let i = match peers.on_packet(addr(2)) {
        PacketStep::Deliver(i) => i,
        PacketStep::Announce => panic!("the peer is known"),
    };
    let mut stats = EndpointStats::new(EndpointState::Connected);
    let filters = Filters::default();
    let frame = peers
        .deliver(i, &heartbeat(9), &filters, &mut stats, NOW)
        .expect("a whole frame was received");
    assert_eq!(frame.endpoint_id, EndpointId(11));
    assert_eq!(frame.header.seq, 9);
    assert_eq!(&frame.frame[..], &heartbeat(9)[..]);
    assert!(peers.next_frame(i, &filters, &mut stats, NOW).is_none());
    assert_eq!(stats.rx_frames, 1);
    assert_eq!(peers.peers[i].last_seen, NOW);
    assert_eq!(peers.peers[0].last_seen, NOW - 30_000);
}

#[test]
fn server_shutdown_hands_out_every_peer() {
    let mut peers = table(&[(1, 10, 30), (2, 11, 5)]);
    let mut gone = peers.shutdown();
    gone.sort();
    assert_eq!(gone, vec![EndpointId(10), EndpointId(11)]);
    assert!(peers.peers.is_empty());
}

#[test]
fn server_peer_send_counts_successes() {
    let mut stats = EndpointStats::default();
    on_peer_send(Some(17), &mut stats);
    on_peer_send(None, &mut stats);
    assert_eq!(stats.tx_frames, 1);
    assert_eq!(stats.tx_bytes, 17);
    assert_eq!(stats.dropped_tx, 1);
}

#[test]
fn client_error_message() {
    let err = UdpClientError::Bind("in use".to_string());
    assert_eq!(err.message(), "udpc: local bind failed: in use");
}

#[test]
fn server_error_messages() {
    let q = vec![("idle_secs".to_string(), "ten".to_string())];
    let err = UdpServerConfig::from_query(&q).unwrap_err();
    assert!(err.message().contains("idle_secs"), "{}", err.message());
    let bind = UdpServerError::Bind {
        addr: addr(1),
        reason: "in use".to_string(),
    };
    assert!(bind.message().contains("127.0.0.1:1"), "{}", bind.message());
    assert!(bind.message().contains("in use"), "{}", bind.message());
}

#[test]
fn peer_leaves_its_state_behind() {
    assert_eq!(PeerRemovalReason::Idle.terminal_state(), EndpointState::Idle);
    assert_eq!(
        PeerRemovalReason::LruEvicted.terminal_state(),
        EndpointState::Down
    );
}

#[test]
fn server_sets_up_a_new_peer() {
    let ep = UdpServerEndpoint {
        identity: IdentityFlags {
            group: Some("g".to_string()),
            ..IdentityFlags::default()
        },
        ..UdpServerEndpoint::default()
    };
    let spec = UdpServerSpec::from_endpoint(ep, EndpointId(9), "bus".into());
    let mut allocator = EndpointIdAllocator::new();
    let first = allocator.allocate();
    let peer = new_peer(&spec, addr(3), &mut allocator);
    assert_ne!(peer.child_id, first);
    assert_eq!(peer.stats.load_state(), EndpointState::Connected);
    assert_eq!(peer.tx_queue.len(), 0);
    match peer.event {
        EndpointEvent::PeerAdded { parent_id, child_id, name, identity } => {
            assert_eq!(parent_id, EndpointId(9));
            assert_eq!(child_id, peer.child_id);
            assert_eq!(name, peer_endpoint_name("bus", addr(3)));
            assert_eq!(identity.group.as_deref(), Some("g"));
        }
        other => panic!("expected PeerAdded, got {other:?}"),
    }
}

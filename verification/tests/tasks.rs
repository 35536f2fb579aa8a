//! TCP and serial endpoints, and how endpoints are started.

use rmr::addr::{parse_ip, IpAddr, Ipv4Addr, SocketAddr};
use rmr::endpoint::defaults::{
    DEFAULT_IDLE_SECS, DEFAULT_LATCH_IDLE_SECS, DEFAULT_PEER_CAPACITY,
    DEFAULT_RECONNECT_INITIAL_MS, DEFAULT_RECONNECT_MAX_MS, DEFAULT_TX_QUEUE_FRAMES,
    READ_BUF_BYTES,
};
use rmr::endpoint::events::{start_announced, EndpointEvent, PeerRemovalReason};
use rmr::endpoint::id::{EndpointId, EndpointIdAllocator};
use rmr::endpoint::serial::{SerialAction, SerialEvent, SerialSpec, SerialTask, REOPEN_DELAY_MS};
use rmr::endpoint::session::SessionOutcome;
use rmr::endpoint::spawn::{plan_endpoint, EndpointTask};
use rmr::endpoint::spec::endpoint_kinds::{
    CommonQuery, SerialEndpoint, SerialFlowControl, TcpClientEndpoint, TcpServerEndpoint,
    UdpClientEndpoint, UdpServerEndpoint,
};
use rmr::endpoint::spec::parse::EndpointSpec;
use rmr::endpoint::stats::{EndpointState, EndpointStats};
use rmr::endpoint::tcp::client::{
    literal_target, order_targets, DialOutcome, DialStep, Dialer, TcpClientAction, TcpClientConfig,
    TcpClientEvent, TcpClientSpec, TcpClientTask,
};
use rmr::endpoint::tcp::server::{accept_client, client_gone, removal_reason, TcpServerSpec};
use rmr::endpoint::udp::client::UdpClientSpec;
use rmr::endpoint::udp::server::UdpServerSpec;

#[test]
fn tcp_client_config_defaults_when_endpoint_unset() {
    let ep = TcpClientEndpoint::default();
    let cfg = TcpClientConfig::from_endpoint(&ep);
    assert_eq!(cfg.reconnect_initial_ms, DEFAULT_RECONNECT_INITIAL_MS);
    assert_eq!(cfg.reconnect_max_ms, DEFAULT_RECONNECT_MAX_MS);
    assert_eq!(cfg.read_buf_bytes, READ_BUF_BYTES);
    assert_eq!(cfg.tx_queue_frames, DEFAULT_TX_QUEUE_FRAMES);
}

#[test]
fn tcp_client_config_overrides_from_endpoint() {
    let ep = TcpClientEndpoint {
        reconnect_initial_ms: Some(50),
        reconnect_max_ms: Some(2000),
        common: CommonQuery {
            read_buf_bytes: Some(1024),
            tx_queue_frames: Some(8),
        },
        ..TcpClientEndpoint::default()
    };
    let cfg = TcpClientConfig::from_endpoint(&ep);
    assert_eq!(cfg.reconnect_initial_ms, 50);
    assert_eq!(cfg.reconnect_max_ms, 2000);
    assert_eq!(cfg.read_buf_bytes, 1024);
    assert_eq!(cfg.tx_queue_frames, 8);
}

#[test]
fn client_spec_defaults_when_endpoint_unset() {
    let endpoint = TcpClientEndpoint::default();
    let spec = TcpClientSpec::from_endpoint(endpoint, EndpointId(0), "n".into());
    assert_eq!(spec.reconnect_initial_ms, DEFAULT_RECONNECT_INITIAL_MS);
    assert_eq!(spec.reconnect_max_ms, DEFAULT_RECONNECT_MAX_MS);
}

#[test]
fn spec_defaults_when_endpoint_unset() {
    let endpoint = UdpClientEndpoint::default();
    let spec = UdpClientSpec::from_endpoint(endpoint, EndpointId(0), "n".into());
    assert_eq!(spec.latch_idle_secs, DEFAULT_LATCH_IDLE_SECS);
    assert_eq!(spec.reconnect_initial_ms, DEFAULT_RECONNECT_INITIAL_MS);
    assert_eq!(spec.reconnect_max_ms, DEFAULT_RECONNECT_MAX_MS);
}

#[test]
fn server_spec_defaults_when_endpoint_unset() {
    let ep = TcpServerEndpoint::default();
    let spec = TcpServerSpec::from_endpoint(ep, EndpointId(0), "n".into());
    assert_eq!(spec.reconnect_initial_ms, DEFAULT_RECONNECT_INITIAL_MS);
    assert_eq!(spec.reconnect_max_ms, DEFAULT_RECONNECT_MAX_MS);
    let ep = UdpServerEndpoint::default();
    let spec = UdpServerSpec::from_endpoint(ep, EndpointId(0), "n".into());
    assert_eq!(spec.idle_secs, DEFAULT_IDLE_SECS);
    assert_eq!(spec.peer_capacity, DEFAULT_PEER_CAPACITY);
    assert_eq!(spec.reconnect_initial_ms, DEFAULT_RECONNECT_INITIAL_MS);
    assert_eq!(spec.reconnect_max_ms, DEFAULT_RECONNECT_MAX_MS);
}

#[test]
fn client_resolve_ipv4_literal_short_circuits_dns() {
    let target = literal_target("127.0.0.1", 5760).expect("a literal");
    assert_eq!(target.ip(), IpAddr::V4(Ipv4Addr::new(127, 0, 0, 1)));
    assert_eq!(target.port(), 5760);
    assert!(literal_target("gcs.local", 5760).is_none());
}

#[test]
fn client_resolve_ipv6_literal_short_circuits_dns() {
    let target = literal_target("::1", 5760).expect("a literal");
    assert_eq!(target.ip(), parse_ip("::1").unwrap());
    assert_eq!(target.port(), 5760);
}

fn target(ip: &str) -> SocketAddr {
    SocketAddr::new(parse_ip(ip).unwrap(), 1)
}

#[test]
fn ipv4_is_dialled_first() {
    let found = [target("10.0.0.1"), target("::1"), target("10.0.0.2"), target("::2")];
    let order = order_targets(&found);
    assert_eq!(
        order,
        vec![target("10.0.0.1"), target("10.0.0.2"), target("::1"), target("::2")]
    );
    let mut dialer = Dialer::new(&found);
    for expected in order {
        assert_eq!(dialer.next_target(), Some(expected));
    }
    assert_eq!(dialer.next_target(), None);
}

#[test]
fn round_of_dialling_ends_at_a_connection_or_a_stop() {
    let found = [target("10.0.0.1"), target("10.0.0.2")];
    for outcome in [DialOutcome::Connected, DialOutcome::Cancelled] {
        let mut dialer = Dialer::new(&found);
        assert_eq!(dialer.step(None), DialStep::Dial(found[0]));
        assert_eq!(dialer.step(Some(DialOutcome::Failed)), DialStep::Dial(found[1]));
        assert_eq!(dialer.step(Some(outcome)), DialStep::Done(outcome));
    }
    let mut dialer = Dialer::new(&found);
    assert_eq!(dialer.step(None), DialStep::Dial(found[0]));
    assert_eq!(dialer.step(Some(DialOutcome::Failed)), DialStep::Dial(found[1]));
    let failed = DialOutcome::Failed;
    assert_eq!(dialer.step(Some(failed)), DialStep::Done(failed));
    assert_eq!(Dialer::new(&[]).step(None), DialStep::Done(failed));
}

#[test]
fn tcp_client_dials_until_told_to_stop() {
    let endpoint = TcpClientEndpoint {
        reconnect_initial_ms: Some(1000),
        reconnect_max_ms: Some(4000),
        ..TcpClientEndpoint::default()
    };
    let spec = TcpClientSpec::from_endpoint(endpoint, EndpointId(0), "n".into());
    let mut task = TcpClientTask::new(&spec);
    let mut stats = EndpointStats::new(EndpointState::Reconnecting);
    assert_eq!(
        task.step(TcpClientEvent::Begin, false, &mut stats),
        TcpClientAction::Dial
    );
    match task.step(TcpClientEvent::Dialed(DialOutcome::Failed), false, &mut stats) {
        TcpClientAction::Wait(ms) => assert!(ms >= 800 && ms <= 1200),
        other => panic!("expected Wait, got {other:?}"),
    }
    assert_eq!(task.backoff.current_ms(), 2000);
    assert_eq!(
        task.step(TcpClientEvent::Waited(true), false, &mut stats),
        TcpClientAction::Dial
    );
    assert_eq!(
        task.step(TcpClientEvent::Dialed(DialOutcome::Connected), false, &mut stats),
        TcpClientAction::Session
    );
    assert_eq!(task.backoff.current_ms(), 1000);
    assert_eq!(stats.load_state(), EndpointState::Connected);
    assert_eq!(
        task.step(
            TcpClientEvent::SessionEnded(SessionOutcome::Disconnected),
            false,
            &mut stats
        ),
        TcpClientAction::Dial
    );
    assert_eq!(stats.load_state(), EndpointState::Reconnecting);
    for event in [
        TcpClientEvent::Waited(false),
        TcpClientEvent::Dialed(DialOutcome::Cancelled),
        TcpClientEvent::SessionEnded(SessionOutcome::Terminated),
    ] {
        assert_eq!(task.step(event, false, &mut stats), TcpClientAction::Stop);
    }
    assert_eq!(
        task.step(TcpClientEvent::Begin, true, &mut stats),
        TcpClientAction::Stop
    );
}

#[test]
fn accepted_client_is_announced_and_leaves() {
    let spec = TcpServerSpec::from_endpoint(
        TcpServerEndpoint::default(),
        EndpointId(4),
        "uplink".to_string(),
    );
    let mut allocator = EndpointIdAllocator::new();
    let addr = SocketAddr::new(parse_ip("10.0.0.9").unwrap(), 4000);
    let mut client = accept_client(&spec, addr, &mut allocator);
    assert_eq!(client.stats.load_state(), EndpointState::Connected);
    match client.event {
        EndpointEvent::PeerAdded {
            parent_id,
            child_id,
            name,
            ..
        } => {
            assert_eq!(parent_id, EndpointId(4));
            assert_eq!(child_id, client.child_id);
            assert_eq!(name, "uplink/10.0.0.9-4000");
        }
        other => panic!("expected PeerAdded, got {other:?}"),
    }
    client
        .tx_queue
        .push(bytes::Bytes::from_static(b"x"), &mut client.stats);
    let (dropped, event) = client_gone(
        EndpointId(4),
        client.child_id,
        SessionOutcome::Disconnected,
        &mut client.tx_queue,
        &mut client.stats,
    );
    assert_eq!(dropped, 1);
    assert_eq!(client.stats.dropped_tx, 1);
    match event {
        EndpointEvent::PeerRemoved { reason, .. } => {
            assert_eq!(reason, PeerRemovalReason::Disconnected)
        }
        other => panic!("expected PeerRemoved, got {other:?}"),
    }
    assert_eq!(
        removal_reason(SessionOutcome::Terminated),
        PeerRemovalReason::ListenerShutdown
    );
}

#[test]
fn serial_device_is_opened_again() {
    let mut task = SerialTask::new();
    let mut stats = EndpointStats::new(EndpointState::Reconnecting);
    assert_eq!(task.step(SerialEvent::Begin, false, &mut stats), SerialAction::Open);
    assert_eq!(
        task.step(SerialEvent::Opened(false), false, &mut stats),
        SerialAction::Wait(REOPEN_DELAY_MS)
    );
    assert_eq!(
        task.step(SerialEvent::Waited(false), false, &mut stats),
        SerialAction::DiscardAndStop
    );
    assert_eq!(
        task.step(SerialEvent::Waited(true), false, &mut stats),
        SerialAction::Open
    );
    assert_eq!(
        task.step(SerialEvent::Opened(true), false, &mut stats),
        SerialAction::Session
    );
    assert_eq!(stats.load_state(), EndpointState::Connected);
    assert_eq!(
        task.step(
            SerialEvent::SessionEnded(SessionOutcome::Disconnected),
            false,
            &mut stats
        ),
        SerialAction::DiscardAndWait(REOPEN_DELAY_MS)
    );
    assert_eq!(stats.load_state(), EndpointState::Reconnecting);
    assert_eq!(
        task.step(SerialEvent::Waited(false), false, &mut stats),
        SerialAction::Stop
    );
    assert_eq!(
        task.step(SerialEvent::Begin, true, &mut stats),
        SerialAction::DiscardAndStop
    );
}

#[test]
fn serial_spec_takes_over_the_endpoint() {
    let endpoint = SerialEndpoint {
        path: "/dev/ttyUSB0".to_string(),
        baud: 57_600,
        flow_control: SerialFlowControl::RtsCts,
        ..SerialEndpoint::default()
    };
    let spec = SerialSpec::from_endpoint(endpoint, EndpointId(3), "fc".to_string());
    assert_eq!(spec.path, "/dev/ttyUSB0");
    assert_eq!(spec.baud, 57_600);
    assert_eq!(spec.flow_control, SerialFlowControl::RtsCts);
    assert_eq!(spec.endpoint_id, EndpointId(3));
    assert_eq!(spec.name, "fc");
}

#[test]
fn leaves_get_a_queue_and_listeners_do_not() {
    let mut allocator = EndpointIdAllocator::new();
    let leaf = EndpointSpec::parse("tcpc:gcs.local:5760#gcs?group=g&tx_queue_frames=2").unwrap();
    let plan = plan_endpoint(leaf, &mut allocator);
    let mut stats = plan.stats;
    let mut queue = plan.tx_queue.expect("frames go to a leaf");
    for _ in 0..3 {
        queue.push(bytes::Bytes::from_static(b"x"), &mut stats);
    }
    assert_eq!(queue.len(), 2);
    match plan.event {
        EndpointEvent::EndpointAdded { id, name, identity } => {
            assert_eq!(id, plan.id);
            assert_eq!(name, "gcs");
            assert_eq!(identity.unwrap().group.as_deref(), Some("g"));
        }
        other => panic!("expected EndpointAdded, got {other:?}"),
    }
    assert!(matches!(plan.task, EndpointTask::TcpClient(_)));
    let listener = EndpointSpec::parse("udps:0.0.0.0:14550#bus").unwrap();
    let plan2 = plan_endpoint(listener, &mut allocator);
    assert!(plan2.tx_queue.is_none());
    assert_ne!(plan2.id, plan.id);
    match plan2.event {
        EndpointEvent::EndpointAdded { identity, .. } => assert!(identity.is_none()),
        other => panic!("expected EndpointAdded, got {other:?}"),
    }
    match plan2.task {
        EndpointTask::UdpServer(spec) => assert_eq!(spec.parent_name, "bus"),
        _ => panic!("expected a UDP listener"),
    }
}

#[test]
fn endpoint_nobody_heard_of_is_not_started() {
    let mut allocator = EndpointIdAllocator::new();
    let spec = EndpointSpec::parse("tcpc:gcs.local:5760").unwrap();
    let plan = plan_endpoint(spec, &mut allocator);
    assert!(start_announced(false, plan.task).is_none());
    let spec = EndpointSpec::parse("tcpc:gcs.local:5760").unwrap();
    let plan = plan_endpoint(spec, &mut allocator);
    assert!(matches!(start_announced(true, plan.task), Some(EndpointTask::TcpClient(_))));
}

#[test]
fn endpoints_describe_what_is_set() {
    for (text, expected) in [
        (
            "tcpc:gcs.local:5760",
            "TcpClientEndpoint { host: \"gcs.local\", port: 5760 }",
        ),
        (
            "udps:[::]:14550?idle_secs=30&group=g",
            "UdpServerEndpoint { bind_addr: [::]:14550, idle_secs: 30, \
             identity: IdentityFlags { group: \"g\" } }",
        ),
    ] {
        assert_eq!(EndpointSpec::parse(text).unwrap().kind.describe(), expected);
    }
    let odd = SerialEndpoint {
        path: "/dev/\"a\\b\"".to_string(),
        baud: 1,
        ..SerialEndpoint::default()
    };
    assert!(odd.describe().contains(r#"path: "/dev/\"a\\b\"""#), "{}", odd.describe());
}

#[test]
fn addresses_read_back() {
    for text in ["0.0.0.0", "192.168.1.10", "255.255.255.255", "::", "::1", "2001:db8::1", "fe80::1:0:2"] {
        assert_eq!(parse_ip(text).unwrap().to_text(), text);
    }
    assert_eq!(parse_ip("::ffff:127.0.0.1").unwrap().to_text(), "::ffff:127.0.0.1");
    for text in ["", "1.2.3", "1.2.3.256", "01.2.3.4", "1::2::3", "12345::", "gcs.local"] {
        assert!(parse_ip(text).is_none(), "{text}");
    }
}

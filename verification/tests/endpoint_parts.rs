//! Identity, counters, delays, loss estimate, queue and ids.

use bytes::Bytes;
use rmr::addr::{parse_ip, IpAddr, Ipv4Addr, SocketAddr};
use rmr::endpoint::backoff::{Backoff, BindOutcome, BindStep, Xorshift, FALLBACK_SEED};
use rmr::endpoint::filters::{Filters, MsgIdRange, U8Range};
use rmr::endpoint::id::{peer_endpoint_name, EndpointIdAllocator};
use rmr::endpoint::identity_flags::IdentityFlags;
use rmr::endpoint::seq_tracker::{SeqTracker, DEFAULT_SEQ_GAP_THRESHOLD};
use rmr::endpoint::stats::{EndpointState, EndpointStats, FramerCounters};
use rmr::endpoint::tx_queue::TxQueue;
use rmr::mavlink::frame::NodeId;
use rmr::mavlink::framer::Framer;

fn make_queue(capacity: usize) -> (TxQueue, EndpointStats) {
    (TxQueue::new(capacity), EndpointStats::default())
}

#[test]
fn default_is_allow_all_no_sniffer_no_group() {
    let identity = IdentityFlags::default();
    assert_eq!(identity.filters, Filters::default());
    assert!(!identity.sniffer);
    assert!(identity.group.is_none());
}

#[test]
fn apply_returns_false_on_unknown_key() {
    let mut identity = IdentityFlags::default();
    assert!(!identity.apply("tx_queue_frames", "8").unwrap());
    assert_eq!(identity, IdentityFlags::default());
}

#[test]
fn apply_sniffer() {
    let mut identity = IdentityFlags::default();
    assert!(identity.apply("sniffer", "true").unwrap());
    assert!(identity.sniffer);
    assert!(identity.apply("sniffer", "false").unwrap());
    assert!(!identity.sniffer);
    assert!(identity.apply("sniffer", "yes").is_err());
}

#[test]
fn apply_group_stores_arc_str() {
    let mut identity = IdentityFlags::default();
    assert!(identity.apply("group", "uplink").unwrap());
    assert_eq!(identity.group.as_deref(), Some("uplink"));
    let cloned = identity.clone();
    let (Some(group), Some(copy)) = (identity.group.as_ref(), cloned.group.as_ref()) else {
        panic!("group should be Some after clone");
    };
    assert_eq!(group, copy);
}

#[test]
fn apply_delegates_filter_keys_to_filters() {
    // Identity::apply must route filter keys through `filters.apply`
    // so external callers (the query parser) don't have to know about
    // the split.
    let mut identity = IdentityFlags::default();
    assert!(identity.apply("block_msgid_in", "33,100-150").unwrap());
    assert_eq!(
        identity.filters.block_msgid_in,
        vec![MsgIdRange::single(33), MsgIdRange { lo: 100, hi: 150 }]
    );
    assert!(identity.apply("allow_src_sys_out", "1").unwrap());
    assert_eq!(identity.filters.allow_src_sys_out, vec![U8Range::single(1)]);
}

#[test]
fn keys_cover_every_non_filter_field_handled_by_apply() {
    let probe_value = |key: &str| -> &'static str {
        match key {
            "sniffer" => "true",
            "group" => "x",
            _ => "1",
        }
    };
    for key in IdentityFlags::keys() {
        let mut identity = IdentityFlags::default();
        let consumed = identity
            .apply(key, probe_value(key))
            .unwrap_or_else(|err| panic!("apply({key}, ..) errored: {err:?}"));
        assert!(
            consumed,
            "IdentityFlags::apply({key}) returned false; missing from match arm"
        );
    }
}

#[test]
fn identity_and_filter_key_sets_are_disjoint() {
    for identity_key in IdentityFlags::keys() {
        assert!(
            !Filters::keys().contains(identity_key),
            "key {identity_key} appears in both the identity keys and the filter keys"
        );
    }
}

#[test]
fn add_rx_tx_updates_pairs() {
    let mut stats = EndpointStats::default();
    stats.add_rx_frame(12);
    stats.add_rx_frame(20);
    stats.add_tx_frame(7);
    assert_eq!(stats.rx_frames, 2);
    assert_eq!(stats.rx_bytes, 32);
    assert_eq!(stats.tx_frames, 1);
    assert_eq!(stats.tx_bytes, 7);
}

#[test]
fn default_is_zero_and_reconnecting() {
    let mut stats = EndpointStats::default();
    assert_eq!(stats.rx_frames, 0);
    assert_eq!(stats.dropped_tx, 0);
    assert_eq!(stats.resync_bytes, 0);
    assert_eq!(stats.load_state(), EndpointState::Reconnecting);
}

#[test]
fn as_u8_from_u8_roundtrip_every_variant() {
    for state in [
        EndpointState::Reconnecting,
        EndpointState::Connected,
        EndpointState::Idle,
        EndpointState::Down,
        EndpointState::Unknown,
    ] {
        assert_eq!(EndpointState::from_u8(state.as_u8()), state);
    }
}

#[test]
fn new_with_connected_lands_in_connected() {
    let mut stats = EndpointStats::new(EndpointState::Connected);
    assert_eq!(stats.load_state(), EndpointState::Connected);
    // counters still zero
    assert_eq!(stats.rx_frames, 0);
}

#[test]
fn store_load_each_variant_roundtrips() {
    let mut stats = EndpointStats::default();
    for state in [
        EndpointState::Connected,
        EndpointState::Reconnecting,
        EndpointState::Idle,
        EndpointState::Down,
        EndpointState::Unknown,
    ] {
        stats.store_state(state);
        assert_eq!(stats.load_state(), state);
    }
}

#[test]
fn from_u8_falls_back_to_unknown_out_of_range() {
    assert_eq!(EndpointState::from_u8(0), EndpointState::Reconnecting);
    assert_eq!(EndpointState::from_u8(3), EndpointState::Down);
    assert_eq!(EndpointState::from_u8(4), EndpointState::Unknown);
    assert_eq!(EndpointState::from_u8(5), EndpointState::Unknown);
    assert_eq!(EndpointState::from_u8(255), EndpointState::Unknown);
}

#[test]
fn load_state_returns_unknown_on_out_of_range_raw_value() {
    let mut stats = EndpointStats::default();
    // Bypass store_state to simulate a hypothetical bug; load_state must
    // return Unknown rather than panicking so the stats task survives.
    stats.state = 99;
    assert_eq!(stats.load_state(), EndpointState::Unknown);
}

#[test]
fn framer_counters_propagates_deltas_then_no_ops() {
    let mut stats = EndpointStats::default();
    let mut framer = Framer::new();
    framer.buffer_mut().extend_from_slice(&[0, 0, 0, 0]);
    // Drain (will count 4 resync bytes and return None).
    while framer.try_next_frame().is_some() {}
    assert_eq!(framer.resync_bytes(), 4);
    let mut counters = FramerCounters::new();
    counters.sync(&framer, &mut stats);
    assert_eq!(stats.resync_bytes, 4);
    // Second call without further framer activity is a no-op.
    counters.sync(&framer, &mut stats);
    assert_eq!(stats.resync_bytes, 4);
}

#[test]
fn initial_step_matches_initial_ms() {
    let backoff = Backoff::new(250, 30_000);
    assert_eq!(backoff.current_ms(), 250);
}

#[test]
fn next_delay_within_jitter_band() {
    // Force a large enough base that the jitter band is non-degenerate.
    let mut backoff = Backoff::new(1000, 30_000);
    for _ in 0..32 {
        let delay = backoff.next_delay();
        // Reset back so we always test the same base.
        backoff.reset();
        assert!(
            delay >= 800 && delay <= 1200,
            "delay {delay:?} outside ±20% band of 1000ms"
        );
    }
}

#[test]
fn next_delay_jitter_band_holds_after_advance_and_at_cap() {
    let mut backoff = Backoff::new(1000, 4000);
    let _ = backoff.next_delay();
    assert_eq!(backoff.current_ms(), 2000);
    for _ in 0..32 {
        let delay = backoff.next_delay();
        assert!(
            delay >= 1600 && delay <= 2400,
            "delay {delay:?} outside 20% of 2000ms"
        );
        backoff.reset();
        let _ = backoff.next_delay();
        assert_eq!(backoff.current_ms(), 2000);
    }
    while backoff.current_ms() < 4000 {
        let _ = backoff.next_delay();
    }
    assert_eq!(backoff.current_ms(), 4000);
    for _ in 0..32 {
        let delay = backoff.next_delay();
        assert!(
            delay >= 3200 && delay <= 4800,
            "delay {delay:?} outside 20% of 4000ms cap"
        );
        assert_eq!(backoff.current_ms(), 4000);
    }
}

#[test]
fn next_delay_doubles_and_caps() {
    let mut backoff = Backoff::new(100, 800);
    let _ = backoff.next_delay(); // base 100 → current advances to 200
    assert_eq!(backoff.current_ms(), 200);
    let _ = backoff.next_delay(); // → 400
    assert_eq!(backoff.current_ms(), 400);
    let _ = backoff.next_delay(); // → 800 (max)
    assert_eq!(backoff.current_ms(), 800);
    let _ = backoff.next_delay(); // → still 800
    assert_eq!(backoff.current_ms(), 800);
}

#[test]
fn reset_returns_to_initial() {
    let mut backoff = Backoff::new(100, 800);
    for _ in 0..10 {
        let _ = backoff.next_delay();
    }
    assert_eq!(backoff.current_ms(), 800);
    backoff.reset();
    assert_eq!(backoff.current_ms(), 100);
}

#[test]
fn max_below_initial_is_clamped_to_initial() {
    let backoff = Backoff::new(500, 100);
    assert_eq!(backoff.current_ms(), 500);
}

#[test]
fn zero_initial_is_floored() {
    let backoff = Backoff::new(0, 30_000);
    assert_eq!(backoff.current_ms(), 1);
}

#[test]
fn xorshift_does_not_get_stuck_on_zero() {
    let mut rng = Xorshift(1);
    let mut seen_distinct = 0;
    let mut last = 0u64;
    for _ in 0..16 {
        let value = rng.next();
        assert_ne!(value, 0, "xorshift must never return 0 from non-zero state");
        if value != last {
            seen_distinct += 1;
            last = value;
        }
    }
    assert!(seen_distinct > 4, "rng seems degenerate");
}

#[test]
fn first_observation_returns_zero() {
    let mut tracker = SeqTracker::new(4);
    assert_eq!(tracker.observe(NodeId::new(1, 1), 0, 0), 0);
    assert_eq!(tracker.len(), 1);
}

#[test]
fn consecutive_seqs_return_zero_no_bump() {
    let mut tracker = SeqTracker::new(4);
    tracker.observe(NodeId::new(1, 1), 10, 0);
    for seq in 11u8..=15u8 {
        assert_eq!(tracker.observe(NodeId::new(1, 1), seq, seq as u64), 0);
    }
}

#[test]
fn restart_resets_last_seq_to_current() {
    // Companion to the large-gap case above: after a restart-sized gap
    // is observed, `last_seq` must be updated to the post-restart seq —
    // not left pointing at the pre-restart value — so the next
    // consecutive observation is correctly classified.
    let mut tracker = SeqTracker::with_threshold(4, 64);
    tracker.observe(NodeId::new(1, 1), 10, 0);
    assert_eq!(tracker.observe(NodeId::new(1, 1), 200, 1), 0);
    assert_eq!(tracker.observe(NodeId::new(1, 1), 201, 2), 0);
}

#[test]
fn distinct_identities_are_independent() {
    let mut tracker = SeqTracker::new(4);
    tracker.observe(NodeId::new(1, 1), 10, 0);
    tracker.observe(NodeId::new(2, 1), 20, 0);
    // Each identity tracks its own last_seq.
    assert_eq!(tracker.observe(NodeId::new(1, 1), 11, 1), 0);
    assert_eq!(tracker.observe(NodeId::new(2, 1), 22, 1), 1); // one lost
}

#[test]
fn lru_eviction_drops_oldest_by_last_seen() {
    let mut tracker = SeqTracker::new(2);
    tracker.observe(NodeId::new(1, 1), 0, 0);
    tracker.observe(NodeId::new(2, 1), 0, 10);
    // Insert a third identity — evicts (1, 1), the oldest.
    tracker.observe(NodeId::new(3, 1), 0, 20);
    assert_eq!(tracker.len(), 2);
    // Now observing (1, 1, 5) — looks like a fresh insert (no prior).
    // Returns 0 even though we'd otherwise infer a gap.
    assert_eq!(tracker.observe(NodeId::new(1, 1), 5, 30), 0);
    // And the second observation of (1, 1) after re-insertion behaves
    // like a normal continuation.
    assert_eq!(tracker.observe(NodeId::new(1, 1), 7, 40), 1);
}

#[test]
fn capacity_zero_clamps_to_one() {
    let mut tracker = SeqTracker::new(0);
    assert_eq!(tracker.capacity(), 1);
    tracker.observe(NodeId::new(1, 1), 0, 0);
    // Inserting a second identity evicts the first.
    tracker.observe(NodeId::new(2, 1), 0, 10);
    assert_eq!(tracker.len(), 1);
}

#[test]
fn push_under_capacity_no_evict() {
    let (mut queue, mut stats) = make_queue(4);
    queue.push(Bytes::from_static(b"a"), &mut stats);
    queue.push(Bytes::from_static(b"b"), &mut stats);
    assert_eq!(queue.len(), 2);
    assert_eq!(stats.dropped_tx, 0);
}

#[test]
fn push_over_capacity_evicts_head() {
    let (mut queue, mut stats) = make_queue(2);
    queue.push(Bytes::from_static(b"a"), &mut stats);
    queue.push(Bytes::from_static(b"b"), &mut stats);
    queue.push(Bytes::from_static(b"c"), &mut stats);
    assert_eq!(stats.dropped_tx, 1);
    assert_eq!(queue.pop().as_deref(), Some(b"b" as &[u8]));
    assert_eq!(queue.pop().as_deref(), Some(b"c" as &[u8]));
    assert!(queue.pop().is_none());
}

#[test]
fn drain_and_discard_counts() {
    let (mut queue, mut stats) = make_queue(4);
    queue.push(Bytes::from_static(b"a"), &mut stats);
    queue.push(Bytes::from_static(b"b"), &mut stats);
    queue.push(Bytes::from_static(b"c"), &mut stats);
    let drained = queue.drain_and_discard(&mut stats);
    assert_eq!(drained, 3);
    assert!(queue.is_empty());
    assert_eq!(stats.dropped_tx, 3);
}

#[test]
fn drain_empty_increments_nothing() {
    let (mut queue, mut stats) = make_queue(4);
    assert_eq!(queue.drain_and_discard(&mut stats), 0);
    assert_eq!(stats.dropped_tx, 0);
}

#[test]
fn new_clamps_zero_capacity_to_one() {
    let mut stats = EndpointStats::default();
    let mut queue = TxQueue::new(0);
    queue.push(Bytes::from_static(b"a"), &mut stats);
    assert_eq!(queue.len(), 1);
    queue.push(Bytes::from_static(b"b"), &mut stats);
    assert_eq!(queue.len(), 1);
    assert_eq!(stats.dropped_tx, 1);
}

#[test]
fn mod_peer_name_ipv4() {
    let addr = SocketAddr::new(IpAddr::V4(Ipv4Addr::new(192, 168, 1, 10)), 14550);
    assert_eq!(peer_endpoint_name("bus", addr), "bus/192.168.1.10-14550");
}

#[test]
fn mod_peer_name_ipv6() {
    let addr = SocketAddr::new(parse_ip("2001:db8::1").unwrap(), 14550);
    assert_eq!(peer_endpoint_name("bus", addr), "bus/[2001:db8::1]-14550");
}

#[test]
fn mod_peer_name_v4_mapped_v6_uses_v6_form() {
    // Dual-stack sockets sometimes deliver IPv4 senders as v4-mapped v6.
    // The name keeps the v6 form (bracketed) — operators looking at stats
    // can tell the difference.
    let addr = SocketAddr::new(parse_ip("::ffff:127.0.0.1").unwrap(), 14550);
    let name = peer_endpoint_name("bus", addr);
    assert!(name.starts_with("bus/["), "got {name}");
    assert!(name.ends_with("]-14550"), "got {name}");
}

#[test]
fn allocator_returns_unique_ids() {
    let mut a = EndpointIdAllocator::new();
    let id0 = a.allocate();
    let id1 = a.allocate();
    let id2 = a.allocate();
    assert_eq!(id0.0, 0);
    assert_eq!(id1.0, 1);
    assert_eq!(id2.0, 2);
    assert_ne!(id0, id1);
}

#[test]
fn endpoint_id_display() {
    let mut a = EndpointIdAllocator::new();
    let id = a.allocate();
    assert_eq!(id.to_text(), "0");
}

#[test]
fn udp_server_peer_name_ipv4() {
    let addr = SocketAddr::new(IpAddr::V4(Ipv4Addr::new(192, 168, 1, 10)), 14550);
    assert_eq!(peer_endpoint_name("bus", addr), "bus/192.168.1.10-14550");
}

#[test]
fn udp_server_peer_name_ipv6() {
    let addr = SocketAddr::new(parse_ip("2001:db8::1").unwrap(), 14550);
    assert_eq!(peer_endpoint_name("bus", addr), "bus/[2001:db8::1]-14550");
}

#[test]
fn udp_server_peer_name_v4_mapped_v6_uses_v6_form() {
    // Dual-stack sockets sometimes deliver IPv4 senders as v4-mapped v6.
    // The name keeps the v6 form (bracketed) — operators looking at stats
    // can tell the difference.
    let addr = SocketAddr::new(parse_ip("::ffff:127.0.0.1").unwrap(), 14550);
    let name = peer_endpoint_name("bus", addr);
    assert!(name.starts_with("bus/["), "got {name}");
    assert!(name.ends_with("]-14550"), "got {name}");
}

#[test]
fn observe_returns_expected_loss() {
    for (last_seq, current_seq, threshold, expected_loss) in [
        (10u8, 13u8, DEFAULT_SEQ_GAP_THRESHOLD, 2u32),
        (10, 200, 64, 0),
        (50, 50, 64, 0),
        (50, 49, 64, 0),
        (255, 0, DEFAULT_SEQ_GAP_THRESHOLD, 0),
        (254, 2, DEFAULT_SEQ_GAP_THRESHOLD, 3),
    ] {
        let mut tracker = SeqTracker::with_threshold(4, threshold);
        tracker.observe(NodeId::new(1, 1), last_seq, 0);
        assert_eq!(
            tracker.observe(NodeId::new(1, 1), current_seq, 1),
            expected_loss
        );
    }
}

#[test]
fn bind_attempts_wait_until_one_succeeds() {
    let mut backoff = Backoff::new(1000, 4000);
    match backoff.after_attempt::<u8>(false, None) {
        BindStep::Wait(ms) => assert!(ms >= 800 && ms <= 1200),
        BindStep::Done(_) => panic!("a failed attempt is followed by a wait"),
    }
    assert_eq!(backoff.current_ms(), 2000);
    match backoff.after_attempt(false, Some(7u8)) {
        BindStep::Done(BindOutcome::Bound(n)) => assert_eq!(n, 7),
        _ => panic!("a successful attempt ends it"),
    }
    assert_eq!(backoff.current_ms(), 1000);
    assert!(matches!(
        backoff.after_attempt(true, Some(7u8)),
        BindStep::Done(BindOutcome::Cancelled)
    ));
}

#[test]
fn xorshift_known_value() {
    let mut rng = Xorshift(1);
    let first = rng.next();
    assert_eq!(first, rng.0);
    let mut x = 1u64;
    x ^= x << 13;
    x ^= x >> 7;
    x ^= x << 17;
    assert_eq!(first, x);
}

#[test]
fn queue_keeps_the_newest_in_order() {
    let (mut queue, mut stats) = make_queue(3);
    for n in 0..10u8 {
        queue.push(Bytes::copy_from_slice(&[n, n]), &mut stats);
    }
    assert_eq!(queue.len(), 3);
    assert_eq!(stats.dropped_tx, 7);
    for n in 7..10u8 {
        assert_eq!(queue.pop().as_deref(), Some(&[n, n][..]));
    }
    assert!(queue.is_empty());
}

#[test]
fn identity_describes_what_is_set() {
    let mut identity = IdentityFlags::default();
    assert_eq!(identity.describe(), "IdentityFlags");
    identity.apply("sniffer", "true").unwrap();
    identity.apply("group", "up").unwrap();
    identity.apply("block_msgid_in", "33").unwrap();
    assert_eq!(
        identity.describe(),
        "IdentityFlags { filters: Filters { block_msgid_in: [MsgIdRange { lo: 33, hi: 33 }] }, \
         sniffer: true, group: \"up\" }"
    );
}

#[test]
fn seed_is_the_clock_reading_made_odd() {
    assert_eq!(Xorshift::seeded(Some(0x1234)), Xorshift(0x1235));
    assert_eq!(Xorshift::seeded(Some(0x1235)), Xorshift(0x1235));
    assert_eq!(Xorshift::seeded(Some(0)), Xorshift(1));
    assert_eq!(Xorshift::seeded(None), Xorshift(0xdead_beef_cafe_babf));
    assert_eq!(FALLBACK_SEED, 0xdead_beef_cafe_babe);
}

#[test]
fn seed_from_the_clock_moves_on() {
    let first = Xorshift::seeded_from_clock();
    let mut later = Xorshift::seeded_from_clock();
    for _ in 0..1_000_000 {
        if later != first {
            break;
        }
        later = Xorshift::seeded_from_clock();
    }
    assert_ne!(first, later);
    assert_eq!(first.0 & 1, 1);
}

#[test]
fn delays_follow_the_generator() {
    let mut delays = Backoff::with_rng(1000, 3000, Xorshift(1));
    let mut rng = Xorshift(1);
    for base in [1000u64, 2000, 3000, 3000] {
        let range = base / 5;
        let expected = base - range + rng.next() % (2 * range + 1);
        assert_eq!(delays.next_delay(), expected);
    }
}

//! Query keys and values.

use rmr::endpoint::filters::{Filters, MsgIdRange, U8Range};
use rmr::endpoint::identity_flags::IdentityFlags;
use rmr::endpoint::spec::distance::levenshtein;
use rmr::endpoint::spec::query::common_keys;
use rmr::endpoint::spec::{
    EndpointKind, EndpointSpec, Scheme, SerialEndpoint, SerialFlowControl, SpecError,
    TcpClientEndpoint, UdpServerEndpoint,
};

fn parse_ok(input: &str) -> EndpointSpec {
    EndpointSpec::parse(input)
        .unwrap_or_else(|err| panic!("expected ok for {input:?}, got {}", err.message()))
}

fn parse_err(input: &str) -> SpecError {
    EndpointSpec::parse(input).expect_err(&format!("expected err for {input:?}"))
}

fn as_serial(spec: &EndpointSpec) -> &SerialEndpoint {
    match &spec.kind {
        EndpointKind::Serial(endpoint) => endpoint,
        other => panic!("expected serial, got {other:?}"),
    }
}

fn as_udps(spec: &EndpointSpec) -> &UdpServerEndpoint {
    match &spec.kind {
        EndpointKind::UdpServer(endpoint) => endpoint,
        other => panic!("expected udps, got {other:?}"),
    }
}

fn as_tcpc(spec: &EndpointSpec) -> &TcpClientEndpoint {
    match &spec.kind {
        EndpointKind::TcpClient(endpoint) => endpoint,
        other => panic!("expected tcpc, got {other:?}"),
    }
}

#[test]
fn query_udps_with_sniffer_query() {
    let spec = parse_ok("udps:0.0.0.0:14551#tap?sniffer=true");
    let endpoint = as_udps(&spec);
    assert_eq!(spec.name, "tap");
    assert!(endpoint.identity.sniffer);
}

#[test]
fn query_sniffer_false_explicit() {
    let endpoint = as_udps(&parse_ok("udps:0.0.0.0:1?sniffer=false")).clone();
    assert!(!endpoint.identity.sniffer);
}

#[test]
fn query_sniffer_default_is_false() {
    let endpoint = as_udps(&parse_ok("udps:0.0.0.0:1")).clone();
    assert!(!endpoint.identity.sniffer);
}

#[test]
fn query_sniffer_invalid_value_rejected() {
    match parse_err("udps:0.0.0.0:1?sniffer=yes") {
        SpecError::InvalidQueryValue { key, .. } => assert_eq!(key, "sniffer"),
        other => panic!("wrong error: {other:?}"),
    }
}

#[test]
fn idle_secs_zero_rejected() {
    assert_bounds_err("udps:0.0.0.0:1?idle_secs=0", "idle_secs", 1, 86_400, 0);
}

#[test]
fn idle_secs_above_max_rejected() {
    assert_bounds_err(
        "udps:0.0.0.0:1?idle_secs=86401",
        "idle_secs",
        1,
        86_400,
        86_401,
    );
}

#[test]
fn latch_idle_secs_zero_rejected() {
    assert_bounds_err(
        "udpc:1.2.3.4:14550?latch_idle_secs=0",
        "latch_idle_secs",
        1,
        86_400,
        0,
    );
}

#[test]
fn latch_idle_secs_above_max_rejected() {
    assert_bounds_err(
        "udpc:1.2.3.4:14550?latch_idle_secs=86401",
        "latch_idle_secs",
        1,
        86_400,
        86_401,
    );
}

#[test]
fn tx_queue_frames_zero_rejected() {
    assert_bounds_err(
        "tcpc:h:1?tx_queue_frames=0",
        "tx_queue_frames",
        1,
        65_536,
        0,
    );
}

#[test]
fn tx_queue_frames_above_max_rejected() {
    assert_bounds_err(
        "tcpc:h:1?tx_queue_frames=65537",
        "tx_queue_frames",
        1,
        65_536,
        65_537,
    );
}

#[test]
fn query_msgid_filter_list_typed() {
    let spec = parse_ok("tcpc:gcs.local:5760?block_msgid_in=33,100-150,32");
    let endpoint = as_tcpc(&spec);
    assert_eq!(
        endpoint.identity.filters.block_msgid_in,
        vec![
            MsgIdRange::single(33),
            MsgIdRange { lo: 100, hi: 150 },
            MsgIdRange::single(32),
        ]
    );
}

#[test]
fn query_msgid_filter_list_with_whitespace() {
    let spec = parse_ok("tcpc:gcs.local:5760?allow_msgid_out=1, 2 , 3-5");
    let endpoint = as_tcpc(&spec);
    assert_eq!(endpoint.identity.filters.allow_msgid_out.len(), 3);
    assert_eq!(
        endpoint.identity.filters.allow_msgid_out[2],
        MsgIdRange { lo: 3, hi: 5 }
    );
}

#[test]
fn query_msgid_filter_list_lo_gt_hi_rejected() {
    match parse_err("tcpc:gcs.local:5760?block_msgid_in=10-5") {
        SpecError::InvalidQueryValue { key, .. } => assert_eq!(key, "block_msgid_in"),
        other => panic!("wrong error: {other:?}"),
    }
}

#[test]
fn query_msgid_filter_list_hex_rejected() {
    match parse_err("tcpc:gcs.local:5760?block_msgid_in=0x21") {
        SpecError::InvalidQueryValue { key, .. } => assert_eq!(key, "block_msgid_in"),
        other => panic!("wrong error: {other:?}"),
    }
}

#[test]
fn query_msgid_filter_list_symbolic_name_rejected() {
    match parse_err("tcpc:gcs.local:5760?block_msgid_in=HEARTBEAT") {
        SpecError::InvalidQueryValue { key, .. } => assert_eq!(key, "block_msgid_in"),
        other => panic!("wrong error: {other:?}"),
    }
}

#[test]
fn query_msgid_filter_empty_entry_rejected() {
    match parse_err("tcpc:gcs.local:5760?block_msgid_in=1,,2") {
        SpecError::InvalidQueryValue { key, .. } => assert_eq!(key, "block_msgid_in"),
        other => panic!("wrong error: {other:?}"),
    }
}

#[test]
fn query_src_sys_filter_typed_as_u8() {
    let spec = parse_ok("tcpc:gcs.local:5760?allow_src_sys_out=1,5-10,200");
    let endpoint = as_tcpc(&spec);
    assert_eq!(
        endpoint.identity.filters.allow_src_sys_out,
        vec![
            U8Range::single(1),
            U8Range { lo: 5, hi: 10 },
            U8Range::single(200),
        ]
    );
}

#[test]
fn query_src_sys_filter_overflow_rejected() {
    match parse_err("tcpc:gcs.local:5760?allow_src_sys_out=256") {
        SpecError::InvalidQueryValue { key, .. } => assert_eq!(key, "allow_src_sys_out"),
        other => panic!("wrong error: {other:?}"),
    }
}

#[test]
fn serial_flow_control_default_none() {
    let endpoint = as_serial(&parse_ok("serial:/dev/foo:9600")).clone();
    assert_eq!(
        endpoint.flow_control,
        SerialFlowControl::Off
    );
}

#[test]
fn serial_flow_control_rtscts() {
    let endpoint = as_serial(&parse_ok("serial:/dev/foo:9600?flow_control=rtscts")).clone();
    assert_eq!(
        endpoint.flow_control,
        SerialFlowControl::RtsCts
    );
}

#[test]
fn serial_flow_control_explicit_none() {
    let endpoint = as_serial(&parse_ok("serial:/dev/foo:9600?flow_control=none")).clone();
    assert_eq!(
        endpoint.flow_control,
        SerialFlowControl::Off
    );
}

#[test]
fn serial_flow_control_invalid_value_rejected() {
    match parse_err("serial:/dev/foo:9600?flow_control=hw") {
        SpecError::InvalidQueryValue { key, .. } => assert_eq!(key, "flow_control"),
        other => panic!("wrong error: {other:?}"),
    }
}

#[test]
fn serial_flow_control_rejected_on_non_serial_scheme() {
    match parse_err("udps:0.0.0.0:1?flow_control=rtscts") {
        SpecError::UnknownQueryKey { key, scheme, .. } => {
            assert_eq!(key, "flow_control");
            assert_eq!(scheme, Scheme::UdpServer);
        }
        other => panic!("wrong error: {other:?}"),
    }
}

#[test]
fn query_idle_secs_typed_on_udps() {
    let endpoint = as_udps(&parse_ok("udps:0.0.0.0:14550?idle_secs=30")).clone();
    assert_eq!(endpoint.idle_secs, Some(30));
}

#[test]
fn query_tcpc_with_group() {
    let spec = parse_ok("tcpc:companion.local:5760#vehicle?group=uplink");
    let endpoint = as_tcpc(&spec);
    assert_eq!(endpoint.identity.group.as_deref(), Some("uplink"));
    assert_eq!(spec.name, "vehicle");
}

#[test]
fn query_udpc_specific_key_on_udps_is_unknown() {
    match parse_err("udps:0.0.0.0:14550?latch_idle_secs=15") {
        SpecError::UnknownQueryKey { key, scheme, .. } => {
            assert_eq!(key, "latch_idle_secs");
            assert_eq!(scheme, Scheme::UdpServer);
        }
        other => panic!("wrong error: {other:?}"),
    }
}

#[test]
fn query_udps_specific_key_on_udpc_is_unknown() {
    match parse_err("udpc:1.2.3.4:14550?idle_secs=15") {
        SpecError::UnknownQueryKey { key, scheme, .. } => {
            assert_eq!(key, "idle_secs");
            assert_eq!(scheme, Scheme::UdpClient);
        }
        other => panic!("wrong error: {other:?}"),
    }
}

#[test]
fn query_unknown_query_key_with_close_suggestion() {
    match parse_err("udps:0.0.0.0:1?snifer=true") {
        SpecError::UnknownQueryKey {
            key, suggestion, ..
        } => {
            assert_eq!(key, "snifer");
            assert_eq!(suggestion, Some("sniffer"));
        }
        other => panic!("wrong error: {other:?}"),
    }
}

#[test]
fn query_unknown_query_key_with_near_match() {
    match parse_err("udps:0.0.0.0:1?tx_queue_frame=10") {
        SpecError::UnknownQueryKey {
            key,
            suggestion: Some("tx_queue_frames"),
            ..
        } => {
            assert_eq!(key, "tx_queue_frame");
        }
        other => panic!("wrong error: {other:?}"),
    }
}

#[test]
fn query_unknown_query_key_no_suggestion_when_distant() {
    match parse_err("udps:0.0.0.0:1?xyz=1") {
        SpecError::UnknownQueryKey {
            key,
            suggestion: None,
            ..
        } => assert_eq!(key, "xyz"),
        other => panic!("wrong error: {other:?}"),
    }
}

#[test]
fn query_duplicate_query_key_fails() {
    assert!(matches!(
        parse_err("udps:0.0.0.0:1?sniffer=true&sniffer=false"),
        SpecError::DuplicateQueryKey(k) if k == "sniffer"
    ));
}

#[test]
fn duplicate_filter_key_fails_no_accumulation() {
    // Repeated filter keys hit the same key-agnostic dedup; no accumulation.
    assert!(matches!(
        parse_err("udps:0.0.0.0:1?block_msgid_in=33&block_msgid_in=34"),
        SpecError::DuplicateQueryKey(k) if k == "block_msgid_in"
    ));
}

#[test]
fn query_malformed_query_no_eq_fails() {
    assert!(matches!(
        parse_err("udps:0.0.0.0:1?just_a_key"),
        SpecError::MalformedQuery(_)
    ));
}

#[test]
fn query_malformed_query_empty_key_fails() {
    assert!(matches!(
        parse_err("udps:0.0.0.0:1?=value"),
        SpecError::MalformedQuery(_)
    ));
}

#[test]
fn query_empty_query_after_question_mark_ok() {
    let spec = parse_ok("udps:0.0.0.0:1?");
    let endpoint = as_udps(&spec);
    assert!(endpoint.identity.group.is_none());
    assert!(!endpoint.identity.sniffer);
}

#[test]
fn query_trailing_ampersand_tolerated() {
    let endpoint = as_udps(&parse_ok("udps:0.0.0.0:1?sniffer=true&")).clone();
    assert!(endpoint.identity.sniffer);
}

#[test]
fn empty_value_for_group_rejected() {
    let err = EndpointSpec::parse("udps:0.0.0.0:1?group=").unwrap_err();
    assert!(
        matches!(err, SpecError::InvalidQueryValue { key: "group", .. }),
        "expected InvalidQueryValue on group, got {err:?}"
    );
}

#[test]
fn group_value_with_embedded_equals_rejected() {
    let err = EndpointSpec::parse("udps:0.0.0.0:1?group=a=b").unwrap_err();
    assert!(
        matches!(err, SpecError::InvalidQueryValue { key: "group", .. }),
        "expected InvalidQueryValue on group, got {err:?}"
    );
}

#[test]
fn group_value_accepts_allowed_characters() {
    let endpoint = as_udps(&parse_ok("udps:0.0.0.0:1?group=Up-link_1")).clone();
    assert_eq!(endpoint.identity.group.as_deref(), Some("Up-link_1"));
}

#[test]
fn all_filter_keys_accepted_on_tcpc() {
    let query = "allow_msgid_in=1&block_msgid_in=2&allow_msgid_out=3&block_msgid_out=4\
             &allow_src_sys_in=5&block_src_sys_in=6&allow_src_sys_out=7&block_src_sys_out=8\
             &allow_src_comp_in=9&block_src_comp_in=10&allow_src_comp_out=11&block_src_comp_out=12";
    let endpoint = as_tcpc(&parse_ok(&format!("tcpc:x:1?{query}"))).clone();
    assert_eq!(
        endpoint.identity.filters.allow_msgid_in,
        vec![MsgIdRange::single(1)]
    );
    assert_eq!(
        endpoint.identity.filters.block_msgid_in,
        vec![MsgIdRange::single(2)]
    );
    assert_eq!(
        endpoint.identity.filters.allow_msgid_out,
        vec![MsgIdRange::single(3)]
    );
    assert_eq!(
        endpoint.identity.filters.block_msgid_out,
        vec![MsgIdRange::single(4)]
    );
    assert_eq!(
        endpoint.identity.filters.allow_src_sys_in,
        vec![U8Range::single(5)]
    );
    assert_eq!(
        endpoint.identity.filters.block_src_sys_in,
        vec![U8Range::single(6)]
    );
    assert_eq!(
        endpoint.identity.filters.allow_src_sys_out,
        vec![U8Range::single(7)]
    );
    assert_eq!(
        endpoint.identity.filters.block_src_sys_out,
        vec![U8Range::single(8)]
    );
    assert_eq!(
        endpoint.identity.filters.allow_src_comp_in,
        vec![U8Range::single(9)]
    );
    assert_eq!(
        endpoint.identity.filters.block_src_comp_in,
        vec![U8Range::single(10)]
    );
    assert_eq!(
        endpoint.identity.filters.allow_src_comp_out,
        vec![U8Range::single(11)]
    );
    assert_eq!(
        endpoint.identity.filters.block_src_comp_out,
        vec![U8Range::single(12)]
    );
}

#[test]
fn no_query_leaves_identity_at_default() {
    let endpoint = as_udps(&parse_ok("udps:0.0.0.0:1")).clone();
    assert_eq!(endpoint.identity, IdentityFlags::default());
}

#[test]
fn plumbing_keys_typed() {
    let endpoint = as_tcpc(&parse_ok("tcpc:x:1?tx_queue_frames=128")).clone();
    assert_eq!(endpoint.common.tx_queue_frames, Some(128));
}

#[test]
fn query_levenshtein_known_pairs() {
    assert_eq!(levenshtein("", ""), 0);
    assert_eq!(levenshtein("", "abc"), 3);
    assert_eq!(levenshtein("abc", ""), 3);
    assert_eq!(levenshtein("abc", "abc"), 0);
    assert_eq!(levenshtein("kitten", "sitting"), 3);
    assert_eq!(levenshtein("snifer", "sniffer"), 1);
}

#[test]
fn query_common_keys_sorted_and_unique() {
    let mut copy: Vec<&&str> = common_keys().iter().collect();
    copy.sort();
    copy.dedup();
    assert_eq!(copy.len(), common_keys().len(), "duplicates present");
    for window in common_keys().windows(2) {
        assert!(
            window[0] < window[1],
            "not sorted: {} >= {}",
            window[0],
            window[1]
        );
    }
}

#[test]
fn identity_keys_sorted_and_unique() {
    let mut copy: Vec<&&str> = IdentityFlags::keys().iter().collect();
    copy.sort();
    copy.dedup();
    assert_eq!(copy.len(), IdentityFlags::keys().len(), "duplicates present");
    for window in IdentityFlags::keys().windows(2) {
        assert!(
            window[0] < window[1],
            "not sorted: {} >= {}",
            window[0],
            window[1]
        );
    }
}

#[test]
fn filters_keys_sorted_and_unique() {
    let mut copy: Vec<&&str> = Filters::keys().iter().collect();
    copy.sort();
    copy.dedup();
    assert_eq!(copy.len(), Filters::keys().len(), "duplicates present");
    for window in Filters::keys().windows(2) {
        assert!(
            window[0] < window[1],
            "not sorted: {} >= {}",
            window[0],
            window[1]
        );
    }
}

fn assert_bounds_err(input: &str, key: &str, min: u64, max: u64, got_value: u64) {
    match parse_err(input) {
        SpecError::InvalidQueryValue {
            key: actual_key,
            reason,
        } => {
            assert_eq!(actual_key, key, "wrong key in error for {input}");
            assert!(
                reason.contains(&format!("{min}..={max}")),
                "expected '{min}..={max}' in reason; got: {reason}"
            );
            assert!(
                reason.contains(&format!("got {got_value}")),
                "expected 'got {got_value}' in reason; got: {reason}"
            );
        }
        other => panic!("expected InvalidQueryValue for {input}, got {other:?}"),
    }
}

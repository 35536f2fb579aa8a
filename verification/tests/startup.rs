//! Startup decisions.

use rmr::endpoint::defaults::DEFAULT_PEER_CAPACITY;
use rmr::endpoint::spec::parse::EndpointSpec;
use rmr::startup::{
    estimate_registry_size, event_queue_capacity, groups_needing_dedup_warning,
    DEFAULT_TCPS_PEER_BUDGET,
};

fn group_names(groups: &[(String, usize)]) -> Vec<(&str, usize)> {
    groups
        .iter()
        .map(|(name, count)| (name.as_ref(), *count))
        .collect()
}

#[test]
fn estimate_registry_size_counts_top_level_only_for_clients() {
    let specs = vec![
        EndpointSpec::parse("tcpc:127.0.0.1:1").unwrap(),
        EndpointSpec::parse("udpc:127.0.0.1:2").unwrap(),
        EndpointSpec::parse("serial:/dev/null:115200").unwrap(),
    ];
    assert_eq!(estimate_registry_size(&specs), 3);
}

#[test]
fn estimate_registry_size_adds_peer_budgets_for_listeners() {
    let specs = vec![
        EndpointSpec::parse("udps:0.0.0.0:1").unwrap(),
        EndpointSpec::parse("tcps:0.0.0.0:2").unwrap(),
    ];
    let count = estimate_registry_size(&specs);
    assert_eq!(count, 2 + DEFAULT_PEER_CAPACITY + DEFAULT_TCPS_PEER_BUDGET);
}

#[test]
fn groups_needing_dedup_warning_ignores_lone_leaves_and_groupless() {
    let specs = vec![
        EndpointSpec::parse("tcpc:127.0.0.1:1?group=alone").unwrap(),
        EndpointSpec::parse("tcpc:127.0.0.1:2").unwrap(),
    ];
    assert!(groups_needing_dedup_warning(&specs, 0).is_empty());
}

#[test]
fn groups_needing_dedup_warning_fires_on_two_leaves() {
    let specs = vec![
        EndpointSpec::parse("tcpc:127.0.0.1:1?group=uplink").unwrap(),
        EndpointSpec::parse("udpc:127.0.0.1:2?group=uplink").unwrap(),
    ];
    assert_eq!(
        group_names(&groups_needing_dedup_warning(&specs, 0)),
        vec![("uplink", 2)]
    );
}

#[test]
fn groups_needing_dedup_warning_ignores_lone_listener_parent() {
    // A single `tcps:` / `udps:` listener with `?group=` declares one
    // member; the warning fires only once a second leg joins the group.
    for body in ["tcps:0.0.0.0:1?group=uplink", "udps:0.0.0.0:1?group=uplink"] {
        let specs = vec![EndpointSpec::parse(body).unwrap()];
        assert!(
            groups_needing_dedup_warning(&specs, 0).is_empty(),
            "lone listener parent should not warn: {body}"
        );
    }
}

#[test]
fn groups_needing_dedup_warning_sorts_by_name() {
    let specs = vec![
        EndpointSpec::parse("tcpc:127.0.0.1:1?group=zeta").unwrap(),
        EndpointSpec::parse("tcpc:127.0.0.1:2?group=alpha").unwrap(),
        EndpointSpec::parse("udpc:127.0.0.1:3?group=zeta").unwrap(),
        EndpointSpec::parse("serial:/dev/null:115200?group=alpha").unwrap(),
    ];
    assert_eq!(
        group_names(&groups_needing_dedup_warning(&specs, 0)),
        vec![("alpha", 2), ("zeta", 2)]
    );
}

#[test]
fn groups_needing_dedup_warning_excludes_sniffers_from_count() {
    // A sniffer in a group is a diagnostic tap; pairing it with one
    // real leg shouldn't fire (effective weight = 1).
    let specs = vec![
        EndpointSpec::parse("tcpc:127.0.0.1:1?group=g").unwrap(),
        EndpointSpec::parse("udpc:127.0.0.1:2?group=g&sniffer=true").unwrap(),
    ];
    assert!(groups_needing_dedup_warning(&specs, 0).is_empty());
}

#[test]
fn groups_needing_dedup_warning_short_circuits_when_dedup_enabled() {
    let specs = vec![
        EndpointSpec::parse("tcpc:127.0.0.1:1?group=uplink").unwrap(),
        EndpointSpec::parse("udpc:127.0.0.1:2?group=uplink").unwrap(),
    ];
    assert!(groups_needing_dedup_warning(&specs, 100).is_empty());
}

#[test]
fn groups_needing_dedup_warning_fires_on_two_listeners() {
    let specs = vec![
        EndpointSpec::parse("tcps:0.0.0.0:1?group=uplink").unwrap(),
        EndpointSpec::parse("udps:0.0.0.0:2?group=uplink").unwrap(),
    ];
    assert_eq!(
        group_names(&groups_needing_dedup_warning(&specs, 0)),
        vec![("uplink", 2)]
    );
}

#[test]
fn event_queue_has_room_for_every_member_twice() {
    assert_eq!(event_queue_capacity(0), 64);
    assert_eq!(event_queue_capacity(32), 64);
    assert_eq!(event_queue_capacity(33), 66);
}

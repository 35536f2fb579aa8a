//! Filters.

use rmr::endpoint::filters::{
    parse_msgid_ranges, parse_range_pair_u32, parse_u8_ranges, Filters, MsgIdRange, U8Range,
};
use rmr::endpoint::spec::error::SpecError;
use rmr::mavlink::frame::NodeId;

#[test]
fn default_is_all_empty() {
    let filters = Filters::default();
    assert!(filters.allow_msgid_in.is_empty());
    assert!(filters.block_msgid_in.is_empty());
    assert!(filters.allow_msgid_out.is_empty());
    assert!(filters.block_msgid_out.is_empty());
    assert!(filters.allow_src_sys_in.is_empty());
    assert!(filters.block_src_sys_in.is_empty());
    assert!(filters.allow_src_sys_out.is_empty());
    assert!(filters.block_src_sys_out.is_empty());
    assert!(filters.allow_src_comp_in.is_empty());
    assert!(filters.block_src_comp_in.is_empty());
    assert!(filters.allow_src_comp_out.is_empty());
    assert!(filters.block_src_comp_out.is_empty());
    assert!(filters.allow_src_endpoint_out.is_empty());
    assert!(filters.block_src_endpoint_out.is_empty());
}

#[test]
fn apply_returns_false_on_non_filter_key() {
    let mut filters = Filters::default();
    assert!(!filters.apply("sniffer", "true").unwrap());
    assert!(!filters.apply("tx_queue_frames", "8").unwrap());
    assert_eq!(filters, Filters::default());
}

#[test]
fn apply_msgid_lists_parse_ranges_and_singles() {
    let mut filters = Filters::default();
    assert!(filters.apply("block_msgid_in", "33,100-150,200").unwrap());
    assert_eq!(
        filters.block_msgid_in,
        vec![
            MsgIdRange::single(33),
            MsgIdRange { lo: 100, hi: 150 },
            MsgIdRange::single(200),
        ]
    );
}

#[test]
fn apply_u8_lists_reject_out_of_range() {
    let mut filters = Filters::default();
    assert!(filters.apply("allow_src_sys_in", "256").is_err());
    assert!(filters.apply("allow_src_sys_in", "100-300").is_err());
}

#[test]
fn apply_rejects_inverted_range() {
    let mut filters = Filters::default();
    assert!(filters.apply("block_msgid_in", "150-100").is_err());
}

#[test]
fn apply_rejects_empty_list_entry() {
    let mut filters = Filters::default();
    assert!(filters.apply("block_msgid_in", "33,,100").is_err());
}

#[test]
fn keys_cover_every_filter_field_handled_by_apply() {
    for key in Filters::keys() {
        let mut filters = Filters::default();
        let consumed = filters
            .apply(key, "1")
            .unwrap_or_else(|err| panic!("apply({key}, ..) errored: {err:?}"));
        assert!(
            consumed,
            "Filters::apply({key}) returned false; missing from match arm"
        );
    }
}

#[test]
fn apply_src_endpoint_out_lists_parse_names() {
    let mut filters = Filters::default();
    assert!(
        filters
            .apply("block_src_endpoint_out", "foo,bar,baz_1")
            .unwrap()
    );
    let names: Vec<&str> = filters
        .block_src_endpoint_out
        .iter()
        .map(|entry| entry.as_ref())
        .collect();
    assert_eq!(names, vec!["foo", "bar", "baz_1"]);

    let mut filters = Filters::default();
    assert!(
        filters
            .apply("allow_src_endpoint_out", "alpha,beta-2")
            .unwrap()
    );
    let names: Vec<&str> = filters
        .allow_src_endpoint_out
        .iter()
        .map(|entry| entry.as_ref())
        .collect();
    assert_eq!(names, vec!["alpha", "beta-2"]);
}

#[test]
fn apply_src_endpoint_out_tolerates_whitespace() {
    let mut filters = Filters::default();
    assert!(
        filters
            .apply("block_src_endpoint_out", " foo , bar ")
            .unwrap()
    );
    let names: Vec<&str> = filters
        .block_src_endpoint_out
        .iter()
        .map(|entry| entry.as_ref())
        .collect();
    assert_eq!(names, vec!["foo", "bar"]);
}

#[test]
fn apply_src_endpoint_out_rejects_empty_entry() {
    let mut filters = Filters::default();
    assert!(filters.apply("block_src_endpoint_out", "foo,,bar").is_err());
}

#[test]
fn apply_src_endpoint_out_rejects_invalid_characters() {
    let mut filters = Filters::default();
    assert!(filters.apply("block_src_endpoint_out", "foo.bar").is_err());
    assert!(
        filters
            .apply("block_src_endpoint_out", "parent/127.0.0.1-5760")
            .is_err()
    );
    assert!(filters.apply("block_src_endpoint_out", "*").is_err());
}

#[test]
fn apply_src_endpoint_out_accepts_long_name() {
    let mut filters = Filters::default();
    let long_name = "a".repeat(200);
    assert!(filters.apply("block_src_endpoint_out", &long_name).is_ok());
}

#[test]
fn default_filters_accept_everything() {
    let filters = Filters::default();
    assert!(filters.passes_in_filter(0, NodeId::new(0, 0)));
    assert!(filters.passes_in_filter(u32::MAX, NodeId::new(u8::MAX, u8::MAX)));
    assert!(filters.passes_out_filter(33, NodeId::new(1, 1), "src"));
}

#[test]
fn allow_in_restricts_to_listed_msgids() {
    let filters = Filters {
        allow_msgid_in: vec![MsgIdRange::single(0), MsgIdRange { lo: 30, hi: 40 }],
        ..Filters::default()
    };
    assert!(filters.passes_in_filter(0, NodeId::new(1, 1)));
    assert!(filters.passes_in_filter(30, NodeId::new(1, 1)));
    assert!(filters.passes_in_filter(35, NodeId::new(1, 1)));
    assert!(filters.passes_in_filter(40, NodeId::new(1, 1)));
    assert!(!filters.passes_in_filter(29, NodeId::new(1, 1)));
    assert!(!filters.passes_in_filter(41, NodeId::new(1, 1)));
    assert!(!filters.passes_in_filter(100, NodeId::new(1, 1)));
}

#[test]
fn block_in_rejects_listed_msgids() {
    let filters = Filters {
        block_msgid_in: vec![MsgIdRange::single(33), MsgIdRange { lo: 100, hi: 150 }],
        ..Filters::default()
    };
    assert!(filters.passes_in_filter(0, NodeId::new(1, 1)));
    assert!(!filters.passes_in_filter(33, NodeId::new(1, 1)));
    assert!(!filters.passes_in_filter(100, NodeId::new(1, 1)));
    assert!(!filters.passes_in_filter(125, NodeId::new(1, 1)));
    assert!(!filters.passes_in_filter(150, NodeId::new(1, 1)));
    assert!(filters.passes_in_filter(151, NodeId::new(1, 1)));
}

#[test]
fn block_wins_over_allow_on_overlap() {
    let filters = Filters {
        allow_msgid_in: vec![MsgIdRange { lo: 0, hi: 100 }],
        block_msgid_in: vec![MsgIdRange::single(33)],
        ..Filters::default()
    };
    assert!(filters.passes_in_filter(0, NodeId::new(1, 1)));
    assert!(filters.passes_in_filter(32, NodeId::new(1, 1)));
    assert!(!filters.passes_in_filter(33, NodeId::new(1, 1)));
    assert!(filters.passes_in_filter(34, NodeId::new(1, 1)));
    // outside allow → reject regardless of block
    assert!(!filters.passes_in_filter(101, NodeId::new(1, 1)));
}

#[test]
fn block_wins_over_allow_on_overlap_src_sys_in() {
    let filters = Filters {
        allow_src_sys_in: vec![U8Range { lo: 0, hi: 10 }],
        block_src_sys_in: vec![U8Range::single(5)],
        ..Filters::default()
    };
    assert!(filters.passes_in_filter(0, NodeId::new(4, 0)));
    assert!(!filters.passes_in_filter(0, NodeId::new(5, 0)));
    assert!(filters.passes_in_filter(0, NodeId::new(6, 0)));
    assert!(!filters.passes_in_filter(0, NodeId::new(11, 0)));
}

#[test]
fn block_wins_over_allow_on_overlap_src_sys_out() {
    let filters = Filters {
        allow_src_sys_out: vec![U8Range { lo: 0, hi: 10 }],
        block_src_sys_out: vec![U8Range::single(5)],
        ..Filters::default()
    };
    assert!(filters.passes_out_filter(0, NodeId::new(4, 0), "src"));
    assert!(!filters.passes_out_filter(0, NodeId::new(5, 0), "src"));
    assert!(filters.passes_out_filter(0, NodeId::new(6, 0), "src"));
    assert!(!filters.passes_out_filter(0, NodeId::new(11, 0), "src"));
}

#[test]
fn block_wins_over_allow_on_overlap_src_comp_in() {
    let filters = Filters {
        allow_src_comp_in: vec![U8Range { lo: 0, hi: 10 }],
        block_src_comp_in: vec![U8Range::single(5)],
        ..Filters::default()
    };
    assert!(filters.passes_in_filter(0, NodeId::new(0, 4)));
    assert!(!filters.passes_in_filter(0, NodeId::new(0, 5)));
    assert!(filters.passes_in_filter(0, NodeId::new(0, 6)));
    assert!(!filters.passes_in_filter(0, NodeId::new(0, 11)));
}

#[test]
fn block_wins_over_allow_on_overlap_src_comp_out() {
    let filters = Filters {
        allow_src_comp_out: vec![U8Range { lo: 0, hi: 10 }],
        block_src_comp_out: vec![U8Range::single(5)],
        ..Filters::default()
    };
    assert!(filters.passes_out_filter(0, NodeId::new(0, 4), "src"));
    assert!(!filters.passes_out_filter(0, NodeId::new(0, 5), "src"));
    assert!(filters.passes_out_filter(0, NodeId::new(0, 6), "src"));
    assert!(!filters.passes_out_filter(0, NodeId::new(0, 11), "src"));
}

#[test]
fn allow_src_endpoint_out_restricts_to_listed_names() {
    let filters = Filters {
        allow_src_endpoint_out: vec!["alpha".to_string(), "beta".to_string()],
        ..Filters::default()
    };
    assert!(filters.passes_out_filter(0, NodeId::new(1, 1), "alpha"));
    assert!(filters.passes_out_filter(0, NodeId::new(1, 1), "beta"));
    assert!(!filters.passes_out_filter(0, NodeId::new(1, 1), "gamma"));
    assert!(!filters.passes_out_filter(0, NodeId::new(1, 1), ""));
    assert!(!filters.passes_out_filter(0, NodeId::new(1, 1), "Alpha"));
}

#[test]
fn block_src_endpoint_out_rejects_listed_names() {
    let filters = Filters {
        block_src_endpoint_out: vec!["noisy".to_string()],
        ..Filters::default()
    };
    assert!(filters.passes_out_filter(0, NodeId::new(1, 1), "quiet"));
    assert!(!filters.passes_out_filter(0, NodeId::new(1, 1), "noisy"));
    assert!(filters.passes_out_filter(0, NodeId::new(1, 1), ""));
}

#[test]
fn block_wins_over_allow_on_overlap_src_endpoint_out() {
    let filters = Filters {
        allow_src_endpoint_out: vec!["alpha".to_string(), "beta".to_string()],
        block_src_endpoint_out: vec!["beta".to_string()],
        ..Filters::default()
    };
    assert!(filters.passes_out_filter(0, NodeId::new(1, 1), "alpha"));
    assert!(!filters.passes_out_filter(0, NodeId::new(1, 1), "beta"));
    assert!(!filters.passes_out_filter(0, NodeId::new(1, 1), "gamma"));
}

#[test]
fn src_endpoint_out_entries_yields_allow_then_block_with_axis_labels() {
    // Order locked: validate_endpoint_references and its error messages
    // depend on allow-first-then-block iteration and verbatim labels.
    let filters = Filters {
        allow_src_endpoint_out: vec!["alpha".to_string(), "beta".to_string()],
        block_src_endpoint_out: vec!["gamma".to_string()],
        ..Filters::default()
    };
    let entries: Vec<(&str, &str)> = filters.src_endpoint_out_entries();
    assert_eq!(
        entries,
        vec![
            ("allow_src_endpoint_out", "alpha"),
            ("allow_src_endpoint_out", "beta"),
            ("block_src_endpoint_out", "gamma"),
        ]
    );
}

#[test]
fn src_endpoint_out_entries_empty_when_no_lists_set() {
    let filters = Filters::default();
    assert_eq!(filters.src_endpoint_out_entries().len(), 0);
}

#[test]
fn src_sys_in_axis_independent_of_msgid_axis() {
    let filters = Filters {
        allow_src_sys_in: vec![U8Range::single(1)],
        ..Filters::default()
    };
    assert!(filters.passes_in_filter(0, NodeId::new(1, 0)));
    assert!(!filters.passes_in_filter(0, NodeId::new(2, 0)));
    // Block on the same axis works.
    let filters = Filters {
        block_src_sys_in: vec![U8Range::single(255)],
        ..Filters::default()
    };
    assert!(filters.passes_in_filter(0, NodeId::new(1, 0)));
    assert!(!filters.passes_in_filter(0, NodeId::new(255, 0)));
}

#[test]
fn src_comp_in_axis_independent_of_other_axes() {
    let filters = Filters {
        allow_src_comp_in: vec![U8Range { lo: 1, hi: 10 }],
        ..Filters::default()
    };
    assert!(filters.passes_in_filter(0, NodeId::new(0, 1)));
    assert!(filters.passes_in_filter(0, NodeId::new(0, 10)));
    assert!(!filters.passes_in_filter(0, NodeId::new(0, 11)));
    assert!(!filters.passes_in_filter(0, NodeId::new(0, 0)));
}

#[test]
fn in_filter_requires_every_axis_to_pass() {
    let filters = Filters {
        allow_msgid_in: vec![MsgIdRange::single(0)],
        allow_src_sys_in: vec![U8Range::single(1)],
        allow_src_comp_in: vec![U8Range::single(2)],
        ..Filters::default()
    };
    assert!(filters.passes_in_filter(0, NodeId::new(1, 2)));
    // any single axis miss → fail
    assert!(!filters.passes_in_filter(1, NodeId::new(1, 2)));
    assert!(!filters.passes_in_filter(0, NodeId::new(2, 2)));
    assert!(!filters.passes_in_filter(0, NodeId::new(1, 3)));
}

#[test]
fn in_and_out_axes_are_independent() {
    let filters = Filters {
        block_msgid_in: vec![MsgIdRange::single(33)],
        ..Filters::default()
    };
    // _out is untouched by an _in blocklist, and vice versa.
    assert!(!filters.passes_in_filter(33, NodeId::new(1, 1)));
    assert!(filters.passes_out_filter(33, NodeId::new(1, 1), "src"));

    let filters = Filters {
        allow_msgid_out: vec![MsgIdRange::single(0)],
        ..Filters::default()
    };
    assert!(filters.passes_in_filter(99, NodeId::new(1, 1)));
    assert!(!filters.passes_out_filter(99, NodeId::new(1, 1), "src"));
}

#[test]
fn out_filter_mirrors_in_filter_logic_on_out_lists() {
    let filters = Filters {
        allow_msgid_out: vec![MsgIdRange { lo: 30, hi: 40 }],
        block_msgid_out: vec![MsgIdRange::single(35)],
        allow_src_sys_out: vec![U8Range::single(1)],
        block_src_comp_out: vec![U8Range::single(99)],
        ..Filters::default()
    };
    assert!(filters.passes_out_filter(30, NodeId::new(1, 1), "src"));
    assert!(filters.passes_out_filter(40, NodeId::new(1, 1), "src"));
    assert!(!filters.passes_out_filter(35, NodeId::new(1, 1), "src")); // block wins
    assert!(!filters.passes_out_filter(29, NodeId::new(1, 1), "src")); // outside allow
    assert!(!filters.passes_out_filter(30, NodeId::new(2, 1), "src")); // src_sys not allowed
    assert!(!filters.passes_out_filter(30, NodeId::new(1, 99), "src")); // src_comp blocked
}

#[test]
fn multi_range_allow_accepts_any_matching_range() {
    let filters = Filters {
        allow_msgid_in: vec![
            MsgIdRange::single(0),
            MsgIdRange { lo: 100, hi: 200 },
            MsgIdRange::single(500),
        ],
        ..Filters::default()
    };
    assert!(filters.passes_in_filter(0, NodeId::new(0, 0)));
    assert!(filters.passes_in_filter(100, NodeId::new(0, 0)));
    assert!(filters.passes_in_filter(150, NodeId::new(0, 0)));
    assert!(filters.passes_in_filter(200, NodeId::new(0, 0)));
    assert!(filters.passes_in_filter(500, NodeId::new(0, 0)));
    assert!(!filters.passes_in_filter(1, NodeId::new(0, 0)));
    assert!(!filters.passes_in_filter(201, NodeId::new(0, 0)));
    assert!(!filters.passes_in_filter(499, NodeId::new(0, 0)));
    assert!(!filters.passes_in_filter(501, NodeId::new(0, 0)));
}

#[test]
fn boundary_values_u8_full_range_allow_or_block() {
    // U8Range covering the whole space behaves correctly at the ends.
    let filters = Filters {
        allow_src_sys_in: vec![U8Range { lo: 0, hi: 255 }],
        ..Filters::default()
    };
    assert!(filters.passes_in_filter(0, NodeId::new(0, 0)));
    assert!(filters.passes_in_filter(0, NodeId::new(255, 0)));

    let filters = Filters {
        block_src_comp_in: vec![U8Range { lo: 0, hi: 255 }],
        ..Filters::default()
    };
    // Every value rejected when blocklist covers the whole space.
    assert!(!filters.passes_in_filter(0, NodeId::new(0, 0)));
    assert!(!filters.passes_in_filter(0, NodeId::new(0, 128)));
    assert!(!filters.passes_in_filter(0, NodeId::new(0, 255)));
}

#[test]
fn growing_lists_only_narrow_or_widen() {
    for msgid in [0u32, 5, 33, 100, 150, 151, 70_000] {
        let node = NodeId::new(7, 9);
        let allow = vec![MsgIdRange { lo: 30, hi: 120 }];
        let block = vec![MsgIdRange::single(100)];
        let base = Filters {
            allow_msgid_in: allow.clone(),
            block_msgid_in: block.clone(),
            ..Filters::default()
        };
        let mut blocked = base.clone();
        blocked.block_msgid_in.push(MsgIdRange::single(33));
        let mut widened = base.clone();
        widened.allow_msgid_in.push(MsgIdRange { lo: 140, hi: 200 });
        let before = base.passes_in_filter(msgid, node);
        assert!(before || !blocked.passes_in_filter(msgid, node));
        assert!(!before || widened.passes_in_filter(msgid, node));
    }
}

#[test]
fn filters_describe_what_is_set() {
    let mut filters = Filters::default();
    assert!(filters.is_unrestricted());
    assert_eq!(filters.describe(), "Filters");
    filters.apply("block_msgid_in", "33,100-150").unwrap();
    filters.apply("allow_src_sys_out", "1").unwrap();
    filters.apply("allow_src_endpoint_out", "fc").unwrap();
    assert!(!filters.is_unrestricted());
    assert_eq!(
        filters.describe(),
        "Filters { block_msgid_in: [MsgIdRange { lo: 33, hi: 33 }, MsgIdRange { lo: 100, hi: 150 }], \
         allow_src_sys_out: [U8Range { lo: 1, hi: 1 }], allow_src_endpoint_out: [\"fc\"] }"
    );
}

#[test]
fn filter_value_errors_name_the_key() {
    let mut filters = Filters::default();
    for (key, value) in [
        ("block_msgid_in", "x"),
        ("block_msgid_in", "4294967296"),
        ("allow_src_comp_in", "1-"),
        ("allow_src_endpoint_out", "a b"),
    ] {
        let message = filters.apply(key, value).unwrap_err().message();
        assert!(message.contains(key), "{message}");
    }
}

#[test]
fn ranges_read_back() {
    for (lo, hi) in [(0, 0), (3, 7), (0, u32::MAX)] {
        let mut filters = Filters::default();
        filters.apply("allow_msgid_in", &format!("{lo}-{hi},{hi}")).unwrap();
        assert_eq!(
            filters.allow_msgid_in,
            vec![MsgIdRange { lo, hi }, MsgIdRange::single(hi)]
        );
    }
    assert!(Filters::default().apply("allow_msgid_in", "7-3").is_err());
}

#[test]
fn id_lists_are_short_message_lists() {
    for (value, fits) in [("1, 5-10", true), ("255", true), ("256", false), ("1,200-300", false)] {
        let mut filters = Filters::default();
        assert!(filters.apply("allow_msgid_in", value).unwrap());
        assert_eq!(filters.apply("allow_src_sys_in", value).is_ok(), fits, "{value}");
        if fits {
            for (narrow, wide) in filters.allow_src_sys_in.iter().zip(&filters.allow_msgid_in) {
                assert_eq!(u32::from(narrow.lo), wide.lo);
                assert_eq!(u32::from(narrow.hi), wide.hi);
            }
            assert_eq!(filters.allow_src_sys_in.len(), filters.allow_msgid_in.len());
        }
    }
}

#[test]
fn range_text_reads_back() {
    assert_eq!(parse_range_pair_u32("30-33", "k").unwrap(), (30, 33));
    assert_eq!(parse_range_pair_u32("7", "k").unwrap(), (7, 7));
    let err = parse_range_pair_u32("33-30", "k").unwrap_err();
    assert!(matches!(err, SpecError::InvalidQueryValue { key: "k", .. }));
}

#[test]
fn short_id_list_is_a_message_id_list_up_to_255() {
    let long = parse_msgid_ranges("1,3-255", "k").unwrap();
    assert_eq!(long, vec![MsgIdRange { lo: 1, hi: 1 }, MsgIdRange { lo: 3, hi: 255 }]);
    let short = parse_u8_ranges("1,3-255", "k").unwrap();
    assert_eq!(short, vec![U8Range { lo: 1, hi: 1 }, U8Range { lo: 3, hi: 255 }]);
    assert!(parse_msgid_ranges("1,3-256", "k").is_ok());
    let err = parse_u8_ranges("1,3-256", "k").unwrap_err();
    assert!(matches!(err, SpecError::InvalidQueryValue { key: "k", .. }));
}

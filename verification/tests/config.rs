//! Configuration from both sources.

use rmr::config::{Config, LogFormat, LogLevel, DEFAULT_DEDUP_MS, DEFAULT_STATS_INTERVAL_SECS};
use rmr::endpoint::spec::endpoint_kinds::EndpointKind;
use rmr::endpoint::spec::error::SpecError;
use rmr::endpoint::spec::parse::EndpointSpec;
use rmr::error::Error;
use rmr::parsers::cli::{parse_specs, Cli, CliConfig};
use rmr::parsers::toml::TomlConfig;

fn endpoint(spec: &str) -> EndpointSpec {
    EndpointSpec::parse(spec).expect("test fixture must parse")
}

/// An invocation with these endpoints and no option set.
fn cli(endpoints: &[&str]) -> Cli {
    Cli {
        config: None,
        log_level: None,
        log_format: None,
        stats: false,
        stats_interval_secs: None,
        dedup_ms: None,
        skip_config_log: false,
        dry_run: false,
        endpoints: endpoints.iter().map(|s| s.to_string()).collect(),
    }
}

#[test]
fn defaults_match_documented_defaults() {
    let config = Config::default();
    assert_eq!(config.log_level, LogLevel::Info);
    assert_eq!(config.log_format, LogFormat::Text);
    assert!(!config.stats);
    assert_eq!(config.stats_interval_secs, 5);
    assert_eq!(config.dedup_ms, 0);
    assert!(!config.skip_config_log);
    assert!(config.endpoints.is_empty());
}

#[test]
fn validate_passes_on_unique_names() {
    let config = Config {
        endpoints: vec![endpoint("udps:0.0.0.0:1#a"), endpoint("udps:0.0.0.0:2#b")],
        ..Config::default()
    };
    config.validate().expect("unique names must pass");
}

#[test]
fn validate_detects_duplicate_explicit_names() {
    let config = Config {
        endpoints: vec![
            endpoint("udps:0.0.0.0:1#foo"),
            endpoint("udps:0.0.0.0:2#foo"),
        ],
        ..Config::default()
    };
    match config.validate() {
        Err(Error::DuplicateName(name)) => assert_eq!(name, "foo"),
        other => panic!("expected DuplicateName, got {other:?}"),
    }
}

#[test]
fn validate_detects_duplicate_auto_names() {
    let config = Config {
        endpoints: vec![endpoint("udps:0.0.0.0:1"), endpoint("udps:0.0.0.0:1")],
        ..Config::default()
    };
    assert!(matches!(config.validate(), Err(Error::DuplicateName(_))));
}

#[test]
fn merge_globals_cli_overrides_toml() {
    let toml = Some(TomlConfig {
        log_level: Some(LogLevel::Warn),
        log_format: Some(LogFormat::Text),
        stats: Some(false),
        stats_interval_secs: Some(7),
        dedup_ms: Some(50),
        skip_config_log: Some(false),
        endpoints: vec![],
    });
    let cli = CliConfig {
        log_level: Some(LogLevel::Debug),
        log_format: Some(LogFormat::Json),
        stats: Some(true),
        stats_interval_secs: Some(15),
        dedup_ms: Some(250),
        skip_config_log: Some(true),
        endpoints: vec![endpoint("udps:0.0.0.0:1#a")],
    };
    let outcome = Config::merge(toml, cli).expect("merge must succeed");
    let cfg = outcome.config;
    assert_eq!(cfg.log_level, LogLevel::Debug);
    assert_eq!(cfg.log_format, LogFormat::Json);
    assert!(cfg.stats);
    assert_eq!(cfg.stats_interval_secs, 15);
    assert_eq!(cfg.dedup_ms, 250);
    assert!(cfg.skip_config_log);
    assert!(outcome.overridden_names.is_empty());
}

#[test]
fn merge_globals_toml_overrides_defaults_when_cli_unset() {
    let toml = Some(TomlConfig {
        log_level: Some(LogLevel::Trace),
        log_format: None,
        stats: Some(true),
        stats_interval_secs: None,
        dedup_ms: Some(99),
        skip_config_log: Some(true),
        endpoints: vec![],
    });
    let cli = CliConfig {
        endpoints: vec![endpoint("udps:0.0.0.0:1#a")],
        ..CliConfig::default()
    };
    let cfg = Config::merge(toml, cli).expect("merge must succeed").config;
    assert_eq!(cfg.log_level, LogLevel::Trace);
    assert_eq!(cfg.log_format, LogFormat::Text); // default fell through
    assert!(cfg.stats);
    assert_eq!(cfg.stats_interval_secs, DEFAULT_STATS_INTERVAL_SECS); // default fell through
    assert_eq!(cfg.dedup_ms, 99);
    assert!(cfg.skip_config_log);
}

#[test]
fn merge_globals_defaults_when_neither_source_sets_them() {
    let cli = CliConfig {
        endpoints: vec![endpoint("udps:0.0.0.0:1#a")],
        ..CliConfig::default()
    };
    let cfg = Config::merge(None, cli).expect("merge must succeed").config;
    assert_eq!(cfg.log_level, LogLevel::Info);
    assert_eq!(cfg.log_format, LogFormat::Text);
    assert!(!cfg.stats);
    assert_eq!(cfg.stats_interval_secs, DEFAULT_STATS_INTERVAL_SECS);
    assert_eq!(cfg.dedup_ms, DEFAULT_DEDUP_MS);
    assert!(!cfg.skip_config_log);
}

#[test]
fn merge_skip_config_log_toml_fallthrough() {
    // Operator omitted --skip-config-log on the CLI but set
    // `skip_config_log = true` in TOML — the TOML value must win.
    let toml = Some(TomlConfig {
        skip_config_log: Some(true),
        endpoints: vec![],
        ..TomlConfig::default()
    });
    let cli = CliConfig {
        endpoints: vec![endpoint("udps:0.0.0.0:1#a")],
        ..CliConfig::default()
    };
    let cfg = Config::merge(toml, cli).expect("merge must succeed").config;
    assert!(cfg.skip_config_log);
}

#[test]
fn merge_toml_only_endpoints_pass_through() {
    let toml = Some(TomlConfig {
        endpoints: vec![
            endpoint("udps:0.0.0.0:1#a"),
            endpoint("tcpc:gcs.local:5760#b"),
        ],
        ..TomlConfig::default()
    });
    let cli = CliConfig::default();
    let outcome = Config::merge(toml, cli).expect("merge must succeed");
    assert!(outcome.overridden_names.is_empty());
    let cfg = outcome.config;
    assert_eq!(cfg.endpoints.len(), 2);
    assert_eq!(cfg.endpoints[0].name, "a");
    assert_eq!(cfg.endpoints[1].name, "b");
}

#[test]
fn merge_cli_only_endpoints_pass_through() {
    let cli = CliConfig {
        endpoints: vec![
            endpoint("udps:0.0.0.0:1#a"),
            endpoint("tcpc:gcs.local:5760#b"),
        ],
        ..CliConfig::default()
    };
    let outcome = Config::merge(None, cli).expect("merge must succeed");
    assert!(outcome.overridden_names.is_empty());
    let cfg = outcome.config;
    assert_eq!(cfg.endpoints.len(), 2);
    assert_eq!(cfg.endpoints[0].name, "a");
    assert_eq!(cfg.endpoints[1].name, "b");
}

#[test]
fn merge_cli_endpoint_overrides_toml_same_name() {
    // TOML defines `bus` as a udps listener with a sniffer flag and a
    // group; CLI redefines `bus` as a tcpc client. The CLI version wins
    // wholesale — none of the TOML's identity/scheme knobs survive — and
    // the colliding name is reported in `overridden_names`.
    let toml = Some(TomlConfig {
        endpoints: vec![endpoint("udps:0.0.0.0:14550#bus?sniffer=true&group=uplink")],
        ..TomlConfig::default()
    });
    let cli = CliConfig {
        endpoints: vec![endpoint("tcpc:gcs.local:5760#bus")],
        ..CliConfig::default()
    };
    let outcome = Config::merge(toml, cli).expect("merge must succeed");
    assert_eq!(outcome.overridden_names, vec!["bus"]);
    let cfg = outcome.config;
    assert_eq!(cfg.endpoints.len(), 1);
    assert_eq!(cfg.endpoints[0].name, "bus");
    // The CLI version is a tcpc, not a udps — confirms TOML entry was
    // wholly replaced, not field-merged.
    assert!(matches!(
        cfg.endpoints[0].kind,
        EndpointKind::TcpClient(_),
    ));
}

#[test]
fn merge_cli_endpoint_override_preserves_order() {
    // TOML: [keep1, override-me, keep2]; CLI: [override-me, extra]
    // Result: TOML's "keep1" and "keep2" stay in TOML order, then CLI's
    // "override-me" and "extra" appended in CLI order. The overridden
    // TOML entry shifts from its TOML position to the CLI position;
    // operators get exactly what they typed on the CLI, where they
    // typed it.
    let toml = Some(TomlConfig {
        endpoints: vec![
            endpoint("udps:0.0.0.0:1#keep1"),
            endpoint("udps:0.0.0.0:2#override-me"),
            endpoint("udps:0.0.0.0:3#keep2"),
        ],
        ..TomlConfig::default()
    });
    let cli = CliConfig {
        endpoints: vec![
            endpoint("tcpc:host:1#override-me"),
            endpoint("tcpc:host:2#extra"),
        ],
        ..CliConfig::default()
    };
    let outcome = Config::merge(toml, cli).expect("merge must succeed");
    assert_eq!(outcome.overridden_names, vec!["override-me"]);
    let names: Vec<&str> = outcome
        .config
        .endpoints
        .iter()
        .map(|endpoint| endpoint.name.as_str())
        .collect();
    assert_eq!(names, vec!["keep1", "keep2", "override-me", "extra"]);
}

#[test]
fn merge_multiple_overrides_reported_in_order() {
    let toml = Some(TomlConfig {
        endpoints: vec![
            endpoint("udps:0.0.0.0:1#a"),
            endpoint("udps:0.0.0.0:2#b"),
            endpoint("udps:0.0.0.0:3#c"),
        ],
        ..TomlConfig::default()
    });
    let cli = CliConfig {
        endpoints: vec![endpoint("tcpc:h:1#a"), endpoint("tcpc:h:2#c")],
        ..CliConfig::default()
    };
    let outcome = Config::merge(toml, cli).expect("merge must succeed");
    // Reported in TOML iteration order — that's the order the merge
    // walks the TOML endpoints to decide drops.
    assert_eq!(outcome.overridden_names, vec!["a", "c"]);
}

#[test]
fn merge_duplicate_name_within_cli_is_fatal() {
    let cli = CliConfig {
        endpoints: vec![
            endpoint("udps:0.0.0.0:1#foo"),
            endpoint("udps:0.0.0.0:2#foo"),
        ],
        ..CliConfig::default()
    };
    match Config::merge(None, cli) {
        Err(Error::DuplicateName(name)) => assert_eq!(name, "foo"),
        other => panic!("expected DuplicateName, got {other:?}"),
    }
}

#[test]
fn merge_duplicate_name_within_toml_is_fatal() {
    let toml = Some(TomlConfig {
        endpoints: vec![
            endpoint("udps:0.0.0.0:1#foo"),
            endpoint("udps:0.0.0.0:2#foo"),
        ],
        ..TomlConfig::default()
    });
    let cli = CliConfig::default();
    match Config::merge(toml, cli) {
        Err(Error::DuplicateName(name)) => assert_eq!(name, "foo"),
        other => panic!("expected DuplicateName, got {other:?}"),
    }
}

#[test]
fn merge_within_toml_duplicate_fires_before_override_pass() {
    // Regression guard: if TOML has `#foo` twice AND CLI has `#foo`,
    // the within-TOML duplicate must be reported as a fatal error —
    // not silently masked by the cross-source override pass. The
    // operator's typo must surface as DuplicateName, not as a benign
    // override report.
    let toml = Some(TomlConfig {
        endpoints: vec![
            endpoint("udps:0.0.0.0:1#foo"),
            endpoint("udps:0.0.0.0:2#foo"),
        ],
        ..TomlConfig::default()
    });
    let cli = CliConfig {
        endpoints: vec![endpoint("tcpc:h:1#foo")],
        ..CliConfig::default()
    };
    match Config::merge(toml, cli) {
        Err(Error::DuplicateName(name)) => assert_eq!(name, "foo"),
        other => panic!("expected DuplicateName, got {other:?}"),
    }
}

#[test]
fn merge_within_cli_duplicate_fires_before_override_pass() {
    // Same shape as above but the duplicate is on the CLI side. The
    // TOML's `#foo` must NOT be reported as overridden — the operator's
    // CLI invocation is itself malformed.
    let toml = Some(TomlConfig {
        endpoints: vec![endpoint("udps:0.0.0.0:1#foo")],
        ..TomlConfig::default()
    });
    let cli = CliConfig {
        endpoints: vec![endpoint("tcpc:h:1#foo"), endpoint("tcpc:h:2#foo")],
        ..CliConfig::default()
    };
    match Config::merge(toml, cli) {
        Err(Error::DuplicateName(name)) => assert_eq!(name, "foo"),
        other => panic!("expected DuplicateName, got {other:?}"),
    }
}

#[test]
fn merge_no_overrides_when_no_collisions() {
    let toml = Some(TomlConfig {
        endpoints: vec![endpoint("udps:0.0.0.0:1#a")],
        ..TomlConfig::default()
    });
    let cli = CliConfig {
        endpoints: vec![endpoint("tcpc:h:1#b")],
        ..CliConfig::default()
    };
    let outcome = Config::merge(toml, cli).expect("merge must succeed");
    assert!(outcome.overridden_names.is_empty());
}

#[test]
fn into_cli_config_builds_typed_config() {
    let cli = Cli {
        stats: true,
        dedup_ms: Some(300),
        ..cli(&["udps:0.0.0.0:14550#bus", "tcpc:gcs.local:5760#vehicle"])
    };
    let cfg = cli.into_cli_config().expect("conversion must succeed");
    assert_eq!(cfg.stats, Some(true));
    assert_eq!(cfg.dedup_ms, Some(300));
    assert_eq!(cfg.endpoints.len(), 2);
    assert_eq!(cfg.endpoints[0].name, "bus");
    assert_eq!(cfg.endpoints[1].name, "vehicle");
}

#[test]
fn into_cli_config_leaves_unset_globals_as_none() {
    let cfg = cli(&["udps:0.0.0.0:1#a"])
        .into_cli_config()
        .expect("conversion must succeed");
    assert!(cfg.log_level.is_none());
    assert!(cfg.log_format.is_none());
    assert!(cfg.stats.is_none());
    assert!(cfg.stats_interval_secs.is_none());
    assert!(cfg.dedup_ms.is_none());
    assert!(cfg.skip_config_log.is_none());
}

#[test]
fn skip_config_log_flag_present_becomes_some_true() {
    let cli = Cli {
        skip_config_log: true,
        ..cli(&["udps:0.0.0.0:1#a"])
    };
    let cfg = cli.into_cli_config().expect("conversion must succeed");
    assert_eq!(cfg.skip_config_log, Some(true));
}

#[test]
fn into_cli_config_propagates_spec_error() {
    match cli(&["bogus-not-an-endpoint"]).into_cli_config() {
        Err(Error::SpecInArg { index, arg, .. }) => {
            assert_eq!(index, 0);
            assert_eq!(arg, "bogus-not-an-endpoint");
        }
        other => panic!("expected SpecInArg, got {other:?}"),
    }
}

#[test]
fn try_into_config_builds_canonical_config() {
    let cli = Cli {
        stats: true,
        dedup_ms: Some(300),
        ..cli(&["udps:0.0.0.0:14550#bus", "tcpc:gcs.local:5760#vehicle"])
    };
    let cfg = Config::merge(None, cli.into_cli_config().unwrap())
        .expect("conversion must succeed")
        .config;
    assert!(cfg.stats);
    assert_eq!(cfg.dedup_ms, 300);
    assert_eq!(cfg.endpoints.len(), 2);
    assert_eq!(cfg.endpoints[0].name, "bus");
    assert_eq!(cfg.endpoints[1].name, "vehicle");
}

#[test]
fn try_into_config_propagates_duplicate_name() {
    let cli = cli(&["udps:0.0.0.0:1#foo", "udps:0.0.0.0:2#foo"]);
    match Config::merge(None, cli.into_cli_config().unwrap()) {
        Err(Error::DuplicateName(n)) => assert_eq!(n, "foo"),
        other => panic!("expected DuplicateName, got {other:?}"),
    }
}

#[test]
fn try_into_config_propagates_spec_error() {
    assert!(matches!(
        cli(&["bogus-not-an-endpoint"]).into_cli_config(),
        Err(Error::SpecInArg {
            source: SpecError::MissingScheme(_),
            ..
        })
    ));
}

#[test]
fn cli_parse_specs_ok() {
    let raw = vec![
        "udps:0.0.0.0:14550#bus".to_string(),
        "tcpc:gcs.local:5760#vehicle".to_string(),
    ];
    let specs = parse_specs(&raw).unwrap();
    assert_eq!(specs.len(), 2);
    assert_eq!(specs[0].name, "bus");
    assert_eq!(specs[1].name, "vehicle");
}

#[test]
fn cli_parse_specs_propagates_spec_error() {
    let raw = vec!["bogus-not-an-endpoint".to_string()];
    match parse_specs(&raw) {
        Err(Error::SpecInArg { index, arg, .. }) => {
            assert_eq!(index, 0);
            assert_eq!(arg, "bogus-not-an-endpoint");
        }
        other => panic!("expected SpecInArg, got {other:?}"),
    }
}

#[test]
fn parse_specs_reports_offending_arg_position() {
    let raw = vec![
        "udps:0.0.0.0:14550".to_string(),
        "tcpc:bad-no-port".to_string(),
        "serial:/dev/ttyUSB0:115200".to_string(),
    ];
    match parse_specs(&raw) {
        Err(Error::SpecInArg { index, arg, .. }) => {
            assert_eq!(index, 1);
            assert_eq!(arg, "tcpc:bad-no-port");
        }
        other => panic!("expected SpecInArg at index 1, got {other:?}"),
    }
}

#[test]
fn spec_in_arg_message_includes_position_and_raw_arg() {
    let raw = vec!["tcpc:bad-no-port".to_string()];
    let err = parse_specs(&raw).expect_err("must fail");
    let rendered = err.message();
    assert!(rendered.contains("#1"), "missing position: {rendered}");
    assert!(
        rendered.contains("'tcpc:bad-no-port'"),
        "missing raw arg: {rendered}"
    );
}

#[test]
fn references_to_undeclared_endpoints_are_found() {
    let config = Config {
        endpoints: vec![
            endpoint("udps:0.0.0.0:1#a?allow_src_endpoint_out=b"),
            endpoint("tcpc:h:1#b?block_src_endpoint_out=a,ghost"),
        ],
        ..Config::default()
    };
    match config.validate_endpoint_references() {
        Err(Error::FilterReferencesUnknownEndpoint {
            endpoint_name,
            axis,
            referenced_name,
        }) => {
            assert_eq!(endpoint_name, "b");
            assert_eq!(axis, "block_src_endpoint_out");
            assert_eq!(referenced_name, "ghost");
        }
        other => panic!("expected FilterReferencesUnknownEndpoint, got {other:?}"),
    }
    let fine = Config {
        endpoints: vec![
            endpoint("udps:0.0.0.0:1#a?allow_src_endpoint_out=b"),
            endpoint("tcpc:h:1#b?block_src_endpoint_out=a"),
        ],
        ..Config::default()
    };
    assert!(fine.validate_endpoint_references().is_ok());
}

#[test]
fn error_messages() {
    let source = SpecError::MissingScheme("x".to_string());
    let reason = source.message();
    let cases = [
        (
            Error::SpecInArg {
                index: 2,
                arg: "x".to_string(),
                source: SpecError::MissingScheme("x".to_string()),
            },
            format!("invalid endpoint #3 'x': {reason}"),
        ),
        (
            Error::SpecInToml {
                name: "fc".to_string(),
                source,
            },
            format!("invalid endpoint [endpoint.fc]: {reason}"),
        ),
        (
            Error::DuplicateName("fc".to_string()),
            "duplicate endpoint name 'fc'".to_string(),
        ),
        (
            Error::ConfigIo {
                path: "/etc/rmr.toml".to_string(),
                source: "not found".to_string(),
            },
            "failed to read config '/etc/rmr.toml': not found".to_string(),
        ),
        (
            Error::ConfigParse("line 1".to_string()),
            "failed to parse config TOML: line 1".to_string(),
        ),
        (
            Error::ConfigSchema {
                name: "fc".to_string(),
                reason: "missing".to_string(),
            },
            "invalid endpoint [endpoint.fc]: missing".to_string(),
        ),
        (
            Error::DedupMsTooLarge {
                requested: 99_999,
                max: 10_000,
            },
            "dedup_ms = 99999ms exceeds maximum of 10000ms".to_string(),
        ),
        (
            Error::StatsIntervalTooSmall {
                requested: 0,
                min: 1,
            },
            "stats_interval_secs = 0s is below minimum of 1s".to_string(),
        ),
        (
            Error::FilterReferencesUnknownEndpoint {
                endpoint_name: "a".to_string(),
                axis: "allow_src_endpoint_out",
                referenced_name: "b".to_string(),
            },
            "endpoint 'a' filter allow_src_endpoint_out: 'b' is not a declared endpoint name"
                .to_string(),
        ),
    ];
    for (error, message) in cases {
        assert_eq!(error.message(), message);
    }
}

#[test]
fn statistics_interval_of_zero_is_refused() {
    let mut config = Config {
        stats_interval_secs: 0,
        ..Config::default()
    };
    match config.validate_stats_interval() {
        Err(Error::StatsIntervalTooSmall { requested, min }) => {
            assert_eq!(requested, 0);
            assert_eq!(min, 1);
        }
        other => panic!("expected StatsIntervalTooSmall, got {other:?}"),
    }
    config.stats_interval_secs = 1;
    assert!(config.validate_stats_interval().is_ok());
}

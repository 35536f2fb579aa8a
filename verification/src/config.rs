//! The configuration that a router runs with, and how it comes about from a
//! configuration file and the command line.

use vstd::prelude::*;

use crate::endpoint::spec::parse::EndpointSpec;
use crate::error::{Error, ErrorView};
use crate::parsers::cli::CliConfig;
use crate::parsers::toml::TomlConfig;
use crate::text;
use crate::text::text_eq;

verus! {

/// How often statistics are printed unless told otherwise, in seconds.
pub const DEFAULT_STATS_INTERVAL_SECS: u64 = 5;

/// Statistics are not printed more often than this, in seconds.
pub const MIN_STATS_INTERVAL_SECS: u64 = 1;

/// How long a frame counts as seen unless told otherwise, in milliseconds: not at all.
pub const DEFAULT_DEDUP_MS: u64 = 0;

/// How much is logged.
#[derive(Debug, Clone, Copy, PartialEq, Eq, Structural)]
pub enum LogLevel {
    Trace,
    Debug,
    Info,
    Warn,
    Error,
}

impl Default for LogLevel {
    fn default() -> (r: Self)
        ensures
            r == LogLevel::Info,
    {
        LogLevel::Info
    }
}

/// How log lines look.
#[derive(Debug, Clone, Copy, PartialEq, Eq, Structural)]
pub enum LogFormat {
    Text,
    Json,
}

impl Default for LogFormat {
    fn default() -> (r: Self)
        ensures
            r == LogFormat::Text,
    {
        LogFormat::Text
    }
}

/// The configuration of a router, with nothing left open.
#[derive(Debug, Clone)]
pub struct Config {
    pub log_level: LogLevel,
    pub log_format: LogFormat,
    pub stats: bool,
    pub stats_interval_secs: u64,
    pub dedup_ms: u64,
    pub skip_config_log: bool,
    pub endpoints: Vec<EndpointSpec>,
}

impl Default for Config {
    fn default() -> (r: Self)
        ensures
            r.log_level == LogLevel::Info,
            r.log_format == LogFormat::Text,
            !r.stats,
            r.stats_interval_secs == DEFAULT_STATS_INTERVAL_SECS,
            r.dedup_ms == DEFAULT_DEDUP_MS,
            !r.skip_config_log,
            r.endpoints@.len() == 0,
    {
        Config {
            log_level: LogLevel::default(),
            log_format: LogFormat::default(),
            stats: false,
            stats_interval_secs: DEFAULT_STATS_INTERVAL_SECS,
            dedup_ms: DEFAULT_DEDUP_MS,
            skip_config_log: false,
            endpoints: Vec::new(),
        }
    }
}

/// What one source of configuration says. `None` says nothing.
#[verifier::ext_equal]
pub struct SourceView {
    pub log_level: Option<LogLevel>,
    pub log_format: Option<LogFormat>,
    pub stats: Option<bool>,
    pub stats_interval_secs: Option<u64>,
    pub dedup_ms: Option<u64>,
    pub skip_config_log: Option<bool>,
    pub endpoints: Seq<EndpointSpec>,
}

impl SourceView {
    /// A source that says nothing.
    pub open spec fn empty() -> SourceView {
        SourceView {
            log_level: None,
            log_format: None,
            stats: None,
            stats_interval_secs: None,
            dedup_ms: None,
            skip_config_log: None,
            endpoints: Seq::empty(),
        }
    }
}

/// A configuration put together from two sources.
#[derive(Debug)]
pub struct MergeOutcome {
    pub config: Config,
    /// The endpoints of the file that gave way to one on the command line, in the order
    /// of the file.
    pub overridden_names: Vec<String>,
}

// ---------------------------------------------------------------- endpoint names

/// The names of endpoints.
pub open spec fn names_of(endpoints: Seq<EndpointSpec>) -> Seq<Seq<char>> {
    Seq::new(endpoints.len(), |i: int| endpoints[i].name@)
}

/// The first name from position `from` on that already stands before it.
pub open spec fn first_repeat(names: Seq<Seq<char>>, from: nat) -> Option<Seq<char>>
    decreases names.len() - from,
{
    if from >= names.len() {
        None
    } else if names.take(from as int).contains(names[from as int]) {
        Some(names[from as int])
    } else {
        first_repeat(names, from + 1)
    }
}

/// Whether no name stands twice.
pub open spec fn unique_spec(names: Seq<Seq<char>>) -> Result<(), ErrorView> {
    match first_repeat(names, 0) {
        None => Ok(()),
        Some(name) => Err(ErrorView::DuplicateName(name)),
    }
}

/// Whether one of the first `n` endpoints is called `name`.
fn named_before(endpoints: &[EndpointSpec], n: usize, name: &str) -> (r: bool)
    requires
        n <= endpoints@.len(),
    ensures
        r == names_of(endpoints@).take(n as int).contains(name@),
{
    let ghost names = names_of(endpoints@).take(n as int);
    let mut i: usize = 0;
    while i < n
        invariant
            i <= n <= endpoints@.len(),
            names == names_of(endpoints@).take(n as int),
            forall|j: int| 0 <= j < i ==> names[j] != name@,
        decreases n - i,
    {
        if text_eq(endpoints[i].name.as_str(), name) {
            assert(names[i as int] == name@);
            return true;
        }
        i = i + 1;
    }
    false
}

/// Report the first name that stands twice.
fn check_unique_names(endpoints: &[EndpointSpec]) -> (r: Result<(), Error>)
    ensures
        match r {
            Ok(_) => unique_spec(names_of(endpoints@)) == Ok::<(), ErrorView>(()),
            Err(e) => unique_spec(names_of(endpoints@)) == Err::<(), ErrorView>(e@),
        },
{
    let mut i: usize = 0;
    while i < endpoints.len()
        invariant
            i <= endpoints@.len(),
            first_repeat(names_of(endpoints@), 0) == first_repeat(names_of(endpoints@), i as nat),
        decreases endpoints@.len() - i,
    {
        if named_before(endpoints, i, endpoints[i].name.as_str()) {
            return Err(Error::DuplicateName(endpoints[i].name.clone()));
        }
        i = i + 1;
    }
    Ok(())
}

/// The endpoints whose name is none of `names`.
pub open spec fn kept(endpoints: Seq<EndpointSpec>, names: Seq<Seq<char>>) -> Seq<EndpointSpec>
    decreases endpoints.len(),
{
    if endpoints.len() == 0 {
        Seq::empty()
    } else if names.contains(endpoints.last().name@) {
        kept(endpoints.drop_last(), names)
    } else {
        kept(endpoints.drop_last(), names).push(endpoints.last())
    }
}

/// The names of the endpoints whose name is one of `names`.
pub open spec fn overridden(endpoints: Seq<EndpointSpec>, names: Seq<Seq<char>>) -> Seq<Seq<char>>
    decreases endpoints.len(),
{
    if endpoints.len() == 0 {
        Seq::empty()
    } else if names.contains(endpoints.last().name@) {
        overridden(endpoints.drop_last(), names).push(endpoints.last().name@)
    } else {
        overridden(endpoints.drop_last(), names)
    }
}

/// The endpoints of a file and of the command line together: those of the file first,
/// without the ones that the command line names too.
pub open spec fn merged_endpoints(toml: Seq<EndpointSpec>, cli: Seq<EndpointSpec>) -> Seq<
    EndpointSpec,
> {
    kept(toml, names_of(cli)) + cli
}

/// Put the endpoints of the file before those of the command line, leaving out the ones
/// that the command line names too, and report the names of those.
fn merge_endpoints(toml_endpoints: Vec<EndpointSpec>, cli_endpoints: Vec<EndpointSpec>) -> (r: (
    Vec<EndpointSpec>,
    Vec<String>,
))
    ensures
        r.0@ == merged_endpoints(toml_endpoints@, cli_endpoints@),
        text::texts(r.1@) == overridden(toml_endpoints@, names_of(cli_endpoints@)),
{
    let ghost toml = toml_endpoints@;
    let ghost names = names_of(cli_endpoints@);
    let mut endpoints: Vec<EndpointSpec> = Vec::new();
    let mut overridden_names: Vec<String> = Vec::new();
    assert(names.take(names.len() as int) =~= names);
    assert(toml.take(0) =~= Seq::empty());
    for endpoint in it: toml_endpoints.into_iter()
        invariant
            it.seq() == toml,
            names == names_of(cli_endpoints@),
            names.take(names.len() as int) == names,
            names.len() == cli_endpoints@.len(),
            endpoints@ == kept(toml.take(it.index() as int), names),
            text::texts(overridden_names@) =~= overridden(toml.take(it.index() as int), names),
    {
        proof {
            let i = it.index() as int;
            assert(toml.take(i + 1).drop_last() =~= toml.take(i));
            assert(toml.take(i + 1).last() == endpoint);
        }
        if named_before(&cli_endpoints, cli_endpoints.len(), endpoint.name.as_str()) {
            overridden_names.push(endpoint.name.clone());
        } else {
            endpoints.push(endpoint);
        }
    }
    assert(toml.take(toml.len() as int) =~= toml);
    let mut rest: Vec<EndpointSpec> = cli_endpoints;
    endpoints.append(&mut rest);
    (endpoints, overridden_names)
}

// ---------------------------------------------------------------- references

/// What is wrong with the filters of the endpoint `name`, from position `from` of the names
/// that they refer to on: the first that is none of `names`.
pub open spec fn reference_error(
    name: Seq<char>,
    entries: Seq<(Seq<char>, Seq<char>)>,
    names: Seq<Seq<char>>,
    from: nat,
) -> Option<ErrorView>
    decreases entries.len() - from,
{
    if from >= entries.len() {
        None
    } else if names.contains(entries[from as int].1) {
        reference_error(name, entries, names, from + 1)
    } else {
        Some(
            ErrorView::FilterReferencesUnknownEndpoint {
                endpoint_name: name,
                axis: entries[from as int].0,
                referenced_name: entries[from as int].1,
            },
        )
    }
}

/// The first thing wrong with the filters of the endpoints from position `from` on.
pub open spec fn references_error(endpoints: Seq<EndpointSpec>, from: nat) -> Option<ErrorView>
    decreases endpoints.len() - from,
{
    if from >= endpoints.len() {
        None
    } else {
        let e = endpoints[from as int];
        match reference_error(
            e.name@,
            e.kind@.identity().filters.endpoint_entries(),
            names_of(endpoints),
            0,
        ) {
            Some(err) => Some(err),
            None => references_error(endpoints, from + 1),
        }
    }
}

/// Check the names that the filters of one endpoint refer to.
fn check_references(endpoints: &[EndpointSpec], at: usize) -> (r: Result<(), Error>)
    requires
        at < endpoints@.len(),
    ensures
        ({
            let e = endpoints@[at as int];
            let error = reference_error(
                e.name@,
                e.kind@.identity().filters.endpoint_entries(),
                names_of(endpoints@),
                0,
            );
            match r {
                Ok(_) => error is None,
                Err(err) => error == Some(err@),
            }
        }),
{
    let ghost names = names_of(endpoints@);
    let ghost own = endpoints@[at as int].name@;
    let filters = &endpoints[at].kind.identity().filters;
    let entries = filters.src_endpoint_out_entries();
    let ghost all = filters@.endpoint_entries();
    assert(names.take(names.len() as int) =~= names);
    let mut i: usize = 0;
    while i < entries.len()
        invariant
            i <= entries@.len(),
            at < endpoints@.len(),
            own == endpoints@[at as int].name@,
            all == endpoints@[at as int].kind@.identity().filters.endpoint_entries(),
            names == names_of(endpoints@),
            names.take(names.len() as int) == names,
            names.len() == endpoints@.len(),
            all.len() == entries@.len(),
            forall|j: int|
                0 <= j < all.len() ==> (#[trigger] entries@[j]).0@ == all[j].0 && entries@[j].1@
                    == all[j].1,
            reference_error(own, all, names, 0) == reference_error(own, all, names, i as nat),
        decreases entries@.len() - i,
    {
        let (axis, referenced) = entries[i];
        if !named_before(endpoints, endpoints.len(), referenced) {
            return Err(
                Error::FilterReferencesUnknownEndpoint {
                    endpoint_name: endpoints[at].name.clone(),
                    axis,
                    referenced_name: referenced.to_owned(),
                },
            );
        }
        i = i + 1;
    }
    Ok(())
}

// ---------------------------------------------------------------- merging

/// What two sources say together: the first one that says anything, else `default`.
pub open spec fn layered<T>(cli: Option<T>, toml: Option<T>, default: T) -> T {
    match cli {
        Some(v) => v,
        None => match toml {
            Some(v) => v,
            None => default,
        },
    }
}

/// What two sources say together.
fn layer<T>(cli: Option<T>, toml: Option<T>, default: T) -> (r: T)
    ensures
        r == layered(cli, toml, default),
{
    match cli {
        Some(v) => v,
        None => match toml {
            Some(v) => v,
            None => default,
        },
    }
}

/// What is wrong with the names in the two sources, the file first.
pub open spec fn merge_error(toml: SourceView, cli: SourceView) -> Option<ErrorView> {
    match unique_spec(names_of(toml.endpoints)) {
        Err(e) => Some(e),
        Ok(_) => match unique_spec(names_of(cli.endpoints)) {
            Err(e) => Some(e),
            Ok(_) => None,
        },
    }
}

/// What the configuration file says; nothing where there is none.
pub open spec fn toml_side(toml: Option<TomlConfig>) -> SourceView {
    match toml {
        Some(t) => t@,
        None => SourceView::empty(),
    }
}

/// No name stands twice.
pub open spec fn all_distinct(names: Seq<Seq<char>>) -> bool {
    forall|i: int, j: int| 0 <= i < j < names.len() ==> names[i] != names[j]
}

/// `first_repeat` finds a name exactly where one stands twice.
pub proof fn law_unique_means_distinct(names: Seq<Seq<char>>)
    ensures
        unique_spec(names) is Ok <==> all_distinct(names),
{
    lemma_first_repeat(names, 0);
}

/// Seen from position `from` on.
proof fn lemma_first_repeat(names: Seq<Seq<char>>, from: nat)
    ensures
        first_repeat(names, from) is None <==> (forall|i: int, j: int|
            0 <= i < j < names.len() && from <= j ==> names[i] != names[j]),
    decreases names.len() - from,
{
    if from < names.len() {
        let head = names.take(from as int);
        let name = names[from as int];
        if head.contains(name) {
            let i = head.index_of(name);
            assert(names[i] == names[from as int]);
        } else {
            lemma_first_repeat(names, from + 1);
            assert forall|i: int, j: int|
                0 <= i < j < names.len() && from <= j && first_repeat(names, from)
                    is None implies names[i] != names[j] by {
                if j == from {
                    assert(head[i] == names[i]);
                }
            }
        }
    }
}

/// The names that are kept stand in the file, in its order, and none is named on the
/// command line.
proof fn lemma_kept(endpoints: Seq<EndpointSpec>, names: Seq<Seq<char>>)
    ensures
        forall|i: int|
            0 <= i < kept(endpoints, names).len() ==> {
                &&& names_of(endpoints).contains(#[trigger] kept(endpoints, names)[i].name@)
                &&& !names.contains(kept(endpoints, names)[i].name@)
            },
        all_distinct(names_of(endpoints)) ==> all_distinct(names_of(kept(endpoints, names))),
    decreases endpoints.len(),
{
    if endpoints.len() > 0 {
        let init = endpoints.drop_last();
        lemma_kept(init, names);
        let all = names_of(endpoints);
        assert(all.last() == endpoints.last().name@);
        assert forall|i: int| 0 <= i < kept(init, names).len() implies all.contains(
            #[trigger] kept(init, names)[i].name@,
        ) by {
            let k = names_of(init).index_of(kept(init, names)[i].name@);
            assert(all[k] == kept(init, names)[i].name@);
        }
        if all_distinct(all) {
            assert forall|i: int, j: int| 0 <= i < j < names_of(init).len() implies names_of(
                init,
            )[i] != names_of(init)[j] by {
                assert(names_of(init)[i] == all[i] && names_of(init)[j] == all[j]);
            }
            assert forall|i: int| 0 <= i < kept(init, names).len() implies (
                #[trigger] kept(init, names)[i]).name@ != endpoints.last().name@ by {
                let k = names_of(init).index_of(kept(init, names)[i].name@);
                assert(all[k] == names_of(init)[k]);
                assert(all[all.len() - 1] == endpoints.last().name@);
            }
            let out = names_of(kept(endpoints, names));
            assert forall|i: int, j: int| 0 <= i < j < out.len() implies out[i] != out[j] by {
                if j < kept(init, names).len() {
                    assert(names_of(kept(init, names))[i] == out[i]);
                    assert(names_of(kept(init, names))[j] == out[j]);
                } else {
                    assert(out[i] == kept(init, names)[i].name@);
                }
            }
        }
    }
}

/// Two sources without repeated names merge into one without repeated names.
pub proof fn law_merged_names_are_unique(toml: Seq<EndpointSpec>, cli: Seq<EndpointSpec>)
    requires
        unique_spec(names_of(toml)) is Ok,
        unique_spec(names_of(cli)) is Ok,
    ensures
        unique_spec(names_of(merged_endpoints(toml, cli))) is Ok,
{
    law_unique_means_distinct(names_of(toml));
    law_unique_means_distinct(names_of(cli));
    let k = kept(toml, names_of(cli));
    let out = names_of(merged_endpoints(toml, cli));
    lemma_kept(toml, names_of(cli));
    assert forall|i: int, j: int| 0 <= i < j < out.len() implies out[i] != out[j] by {
        if j < k.len() {
            assert(names_of(k)[i] == out[i] && names_of(k)[j] == out[j]);
        } else if i >= k.len() {
            assert(names_of(cli)[i - k.len()] == out[i]);
            assert(names_of(cli)[j - k.len()] == out[j]);
        } else {
            assert(out[i] == k[i].name@);
            assert(names_of(cli)[j - k.len()] == out[j]);
        }
    }
    law_unique_means_distinct(out);
}

/// Every endpoint of the command line is in the merged configuration, and so is every
/// endpoint of the file that the command line does not name.
pub proof fn law_merge_loses_nothing(
    toml: Seq<EndpointSpec>,
    cli: Seq<EndpointSpec>,
    e: EndpointSpec,
)
    ensures
        cli.contains(e) ==> merged_endpoints(toml, cli).contains(e),
        toml.contains(e) && !names_of(cli).contains(e.name@) ==> merged_endpoints(
            toml,
            cli,
        ).contains(e),
    decreases toml.len(),
{
    let k = kept(toml, names_of(cli));
    if cli.contains(e) {
        let i = cli.index_of(e);
        assert(merged_endpoints(toml, cli)[k.len() + i] == e);
    }
    if toml.contains(e) && !names_of(cli).contains(e.name@) {
        lemma_kept_contains(toml, names_of(cli), e);
        let i = k.index_of(e);
        assert(merged_endpoints(toml, cli)[i] == e);
    }
}

/// Where both sources name an endpoint, the merged configuration has the one of the
/// command line.
pub proof fn law_command_line_wins(toml: Seq<EndpointSpec>, cli: Seq<EndpointSpec>, e: EndpointSpec)
    requires
        merged_endpoints(toml, cli).contains(e),
        names_of(cli).contains(e.name@),
    ensures
        cli.contains(e),
{
    let k = kept(toml, names_of(cli));
    lemma_kept(toml, names_of(cli));
    let i = merged_endpoints(toml, cli).index_of(e);
    if i < k.len() {
        assert(k[i] == e);
    } else {
        assert(cli[i - k.len()] == e);
    }
}

/// An endpoint that `names` does not name is kept.
proof fn lemma_kept_contains(endpoints: Seq<EndpointSpec>, names: Seq<Seq<char>>, e: EndpointSpec)
    requires
        endpoints.contains(e),
        !names.contains(e.name@),
    ensures
        kept(endpoints, names).contains(e),
    decreases endpoints.len(),
{
    let init = endpoints.drop_last();
    let k = kept(endpoints, names);
    if endpoints.last() == e {
        assert(k[k.len() - 1] == e);
    } else {
        let i = endpoints.index_of(e);
        assert(init[i] == e);
        lemma_kept_contains(init, names, e);
        let j = kept(init, names).index_of(e);
        assert(k[j] == e);
    }
}

impl Config {
    /// Whether the settings are those of the sources `toml` and `cli`.
    pub open spec fn is_merge_of(self, toml: SourceView, cli: SourceView) -> bool {
        &&& self.log_level == layered(cli.log_level, toml.log_level, LogLevel::Info)
        &&& self.log_format == layered(cli.log_format, toml.log_format, LogFormat::Text)
        &&& self.stats == layered(cli.stats, toml.stats, false)
        &&& self.stats_interval_secs == layered(
            cli.stats_interval_secs,
            toml.stats_interval_secs,
            DEFAULT_STATS_INTERVAL_SECS,
        )
        &&& self.dedup_ms == layered(cli.dedup_ms, toml.dedup_ms, DEFAULT_DEDUP_MS)
        &&& self.skip_config_log == layered(cli.skip_config_log, toml.skip_config_log, false)
        &&& self.endpoints@ == merged_endpoints(toml.endpoints, cli.endpoints)
    }

    /// Combine a configuration file and the command line. The command line overrides the
    /// file and the file the defaults, setting by setting. An endpoint of the command line
    /// replaces the one of the same name in the file entirely. A name that stands twice in
    /// one source is an error, whatever the other source says.
    pub fn merge(toml: Option<TomlConfig>, cli: CliConfig) -> (r: Result<MergeOutcome, Error>)
        ensures
            match r {
                Ok(outcome) => {
                    &&& merge_error(toml_side(toml), cli@) is None
                    &&& outcome.config.is_merge_of(toml_side(toml), cli@)
                    &&& text::texts(outcome.overridden_names@) == overridden(
                        toml_side(toml).endpoints,
                        names_of(cli.endpoints@),
                    )
                },
                Err(e) => merge_error(toml_side(toml), cli@) == Some(e@),
            },
    {
        let file: TomlConfig = match toml {
            Some(t) => t,
            None => TomlConfig::default(),
        };
        match check_unique_names(&file.endpoints) {
            Ok(_) => {},
            Err(e) => {
                return Err(e);
            },
        }
        match check_unique_names(&cli.endpoints) {
            Ok(_) => {},
            Err(e) => {
                return Err(e);
            },
        }
        let ghost toml_endpoints = file.endpoints@;
        let ghost cli_endpoints = cli.endpoints@;
        let (endpoints, overridden_names) = merge_endpoints(file.endpoints, cli.endpoints);
        let config = Config {
            log_level: layer(cli.log_level, file.log_level, LogLevel::default()),
            log_format: layer(cli.log_format, file.log_format, LogFormat::default()),
            stats: layer(cli.stats, file.stats, false),
            stats_interval_secs: layer(
                cli.stats_interval_secs,
                file.stats_interval_secs,
                DEFAULT_STATS_INTERVAL_SECS,
            ),
            dedup_ms: layer(cli.dedup_ms, file.dedup_ms, DEFAULT_DEDUP_MS),
            skip_config_log: layer(cli.skip_config_log, file.skip_config_log, false),
            endpoints,
        };
        proof {
            law_merged_names_are_unique(toml_endpoints, cli_endpoints);
        }
        match config.validate() {
            Ok(_) => {},
            Err(e) => {
                return Err(e);
            },
        }
        Ok(MergeOutcome { config, overridden_names })
    }

    /// Report the first endpoint name that stands twice.
    pub fn validate(&self) -> (r: Result<(), Error>)
        ensures
            match r {
                Ok(_) => unique_spec(names_of(self.endpoints@)) == Ok::<(), ErrorView>(()),
                Err(e) => unique_spec(names_of(self.endpoints@)) == Err::<(), ErrorView>(e@),
            },
    {
        check_unique_names(&self.endpoints)
    }

    /// Report an interval between statistics that is too short.
    pub fn validate_stats_interval(&self) -> (r: Result<(), Error>)
        ensures
            match r {
                Ok(_) => self.stats_interval_secs >= MIN_STATS_INTERVAL_SECS,
                Err(e) => self.stats_interval_secs < MIN_STATS_INTERVAL_SECS && e@
                    == (ErrorView::StatsIntervalTooSmall {
                    requested: self.stats_interval_secs,
                    min: MIN_STATS_INTERVAL_SECS,
                }),
            },
    {
        if self.stats_interval_secs < MIN_STATS_INTERVAL_SECS {
            return Err(
                Error::StatsIntervalTooSmall {
                    requested: self.stats_interval_secs,
                    min: MIN_STATS_INTERVAL_SECS,
                },
            );
        }
        Ok(())
    }

    /// Report the first endpoint whose filters refer to a name that no endpoint has.
    pub fn validate_endpoint_references(&self) -> (r: Result<(), Error>)
        ensures
            match r {
                Ok(_) => references_error(self.endpoints@, 0) is None,
                Err(e) => references_error(self.endpoints@, 0) == Some(e@),
            },
    {
        let mut i: usize = 0;
        while i < self.endpoints.len()
            invariant
                i <= self.endpoints@.len(),
                references_error(self.endpoints@, 0) == references_error(
                    self.endpoints@,
                    i as nat,
                ),
            decreases self.endpoints@.len() - i,
        {
            match check_references(&self.endpoints, i) {
                Ok(_) => {},
                Err(e) => {
                    return Err(e);
                },
            }
            i = i + 1;
        }
        Ok(())
    }
}

/// Setting by setting, the command line overrides the file and the file the defaults:
/// level info, plain text, no statistics, one every 5 seconds where they are printed, no
/// suppression of duplicates, and the configuration is logged.
pub proof fn law_settings_are_layered(config: Config, toml: SourceView, cli: SourceView)
    requires
        config.is_merge_of(toml, cli),
    ensures
        cli.log_level matches Some(v) ==> config.log_level == v,
        cli.log_level is None ==> (toml.log_level matches Some(v) ==> config.log_level == v),
        cli.log_level is None && toml.log_level is None ==> config.log_level == LogLevel::Info,
        cli.log_format matches Some(v) ==> config.log_format == v,
        cli.log_format is None ==> (toml.log_format matches Some(v) ==> config.log_format == v),
        cli.log_format is None && toml.log_format is None ==> config.log_format
            == LogFormat::Text,
        cli.stats matches Some(v) ==> config.stats == v,
        cli.stats is None ==> (toml.stats matches Some(v) ==> config.stats == v),
        cli.stats is None && toml.stats is None ==> !config.stats,
        cli.stats_interval_secs matches Some(v) ==> config.stats_interval_secs == v,
        cli.stats_interval_secs is None ==> (toml.stats_interval_secs matches Some(v)
            ==> config.stats_interval_secs == v),
        cli.stats_interval_secs is None && toml.stats_interval_secs is None
            ==> config.stats_interval_secs == 5,
        cli.dedup_ms matches Some(v) ==> config.dedup_ms == v,
        cli.dedup_ms is None ==> (toml.dedup_ms matches Some(v) ==> config.dedup_ms == v),
        cli.dedup_ms is None && toml.dedup_ms is None ==> config.dedup_ms == 0,
        cli.skip_config_log matches Some(v) ==> config.skip_config_log == v,
        cli.skip_config_log is None ==> (toml.skip_config_log matches Some(v)
            ==> config.skip_config_log == v),
        cli.skip_config_log is None && toml.skip_config_log is None ==> !config.skip_config_log,
{
}

/// The endpoints of the file come first, in its order and without those whose name stands
/// on the command line; those of the command line follow, in their order. The names of those
/// that gave way are reported in the order of the file.
pub proof fn law_merge_keeps_the_order(toml: Seq<EndpointSpec>, cli: Seq<EndpointSpec>)
    ensures
        ({
            let named = |e: EndpointSpec|
                exists|i: int| 0 <= i < cli.len() && (#[trigger] cli[i]).name@ == e.name@;
            &&& merged_endpoints(toml, cli) == toml.filter(|e: EndpointSpec| !named(e)) + cli
            &&& overridden(toml, names_of(cli)) == toml.filter(named).map_values(
                |e: EndpointSpec| e.name@,
            )
        }),
{
    lemma_kept_is_filter(toml, cli);
}

/// The endpoints of the file alone.
proof fn lemma_kept_is_filter(toml: Seq<EndpointSpec>, cli: Seq<EndpointSpec>)
    ensures
        ({
            let named = |e: EndpointSpec|
                exists|i: int| 0 <= i < cli.len() && (#[trigger] cli[i]).name@ == e.name@;
            &&& kept(toml, names_of(cli)) == toml.filter(|e: EndpointSpec| !named(e))
            &&& overridden(toml, names_of(cli)) == toml.filter(named).map_values(
                |e: EndpointSpec| e.name@,
            )
        }),
    decreases toml.len(),
{
    reveal(Seq::filter);
    let names = names_of(cli);
    let named = |e: EndpointSpec|
        exists|i: int| 0 <= i < cli.len() && (#[trigger] cli[i]).name@ == e.name@;
    let other = |e: EndpointSpec| !named(e);
    let name = |e: EndpointSpec| e.name@;
    if toml.len() == 0 {
        assert(toml.filter(other) =~= Seq::<EndpointSpec>::empty());
        assert(toml.filter(named).map_values(name) =~= Seq::<Seq<char>>::empty());
    } else {
        let init = toml.drop_last();
        let last = toml.last();
        lemma_kept_is_filter(init, cli);
        assert(names.contains(last.name@) == named(last)) by {
            if names.contains(last.name@) {
                let i = names.index_of(last.name@);
                assert(cli[i].name@ == last.name@);
            }
            if named(last) {
                let i = choose|i: int| 0 <= i < cli.len() && (#[trigger] cli[i]).name@ == last.name@;
                assert(names[i] == last.name@);
            }
        }
        assert(init.filter(named).push(last).map_values(name) =~= init.filter(named).map_values(
            name,
        ).push(last.name@));
    }
}

/// A name that is reported as standing twice does stand twice, and the first such place is
/// reported: nothing stands twice before it.
pub proof fn law_reported_name_stands_twice(names: Seq<Seq<char>>)
    ensures
        unique_spec(names) matches Err(e) ==> {
            &&& e is DuplicateName
            &&& exists|i: int, j: int|
                0 <= i < j < names.len() && #[trigger] names[i] == #[trigger] names[j] && e
                    == ErrorView::DuplicateName(names[j]) && forall|a: int, b: int|
                    0 <= a < b < j ==> #[trigger] names[a] != #[trigger] names[b]
        },
{
    lemma_first_repeat_is_first(names, 0);
}

/// Seen from position `from` on, where nothing before it repeats.
proof fn lemma_first_repeat_is_first(names: Seq<Seq<char>>, from: nat)
    requires
        forall|a: int, b: int|
            0 <= a < b < names.len() && b < from ==> #[trigger] names[a] != #[trigger] names[b],
    ensures
        first_repeat(names, from) matches Some(name) ==> exists|i: int, j: int|
            0 <= i < j < names.len() && #[trigger] names[i] == #[trigger] names[j] && names[j]
                == name && forall|a: int, b: int|
                0 <= a < b < j ==> #[trigger] names[a] != #[trigger] names[b],
    decreases names.len() - from,
{
    if from < names.len() {
        let head = names.take(from as int);
        let name = names[from as int];
        if head.contains(name) {
            let i = head.index_of(name);
            assert(names[i] == names[from as int]);
        } else {
            assert forall|a: int, b: int|
                0 <= a < b < names.len() && b < from + 1 implies #[trigger] names[a]
                != #[trigger] names[b] by {
                if b == from {
                    assert(head[a] == names[a]);
                }
            }
            lemma_first_repeat_is_first(names, from + 1);
        }
    }
}

/// A merge fails exactly where a name stands twice in the file or twice on the command line;
/// that a name stands in both is no error.
pub proof fn law_merge_fails_on_repeats_only(toml: SourceView, cli: SourceView)
    ensures
        merge_error(toml, cli) is None <==> {
            &&& forall|i: int, j: int|
                0 <= i < j < toml.endpoints.len() ==> (#[trigger] toml.endpoints[i]).name@ != (
                #[trigger] toml.endpoints[j]).name@
            &&& forall|i: int, j: int|
                0 <= i < j < cli.endpoints.len() ==> (#[trigger] cli.endpoints[i]).name@ != (
                #[trigger] cli.endpoints[j]).name@
        },
{
    let t = names_of(toml.endpoints);
    let c = names_of(cli.endpoints);
    law_unique_means_distinct(t);
    law_unique_means_distinct(c);
    assert forall|i: int| 0 <= i < t.len() implies #[trigger] t[i] == toml.endpoints[i].name@ by {}
    assert forall|i: int| 0 <= i < c.len() implies #[trigger] c[i] == cli.endpoints[i].name@ by {}
    if all_distinct(t) {
        assert forall|i: int, j: int| 0 <= i < j < toml.endpoints.len() implies (
        #[trigger] toml.endpoints[i]).name@ != (#[trigger] toml.endpoints[j]).name@ by {
            assert(t[i] != t[j]);
        }
    }
    if all_distinct(c) {
        assert forall|i: int, j: int| 0 <= i < j < cli.endpoints.len() implies (
        #[trigger] cli.endpoints[i]).name@ != (#[trigger] cli.endpoints[j]).name@ by {
            assert(c[i] != c[j]);
        }
    }
    if forall|i: int, j: int|
        0 <= i < j < toml.endpoints.len() ==> (#[trigger] toml.endpoints[i]).name@ != (
        #[trigger] toml.endpoints[j]).name@ {
        assert forall|i: int, j: int| 0 <= i < j < t.len() implies t[i] != t[j] by {
            assert(toml.endpoints[i].name@ != toml.endpoints[j].name@);
        }
    }
    if forall|i: int, j: int|
        0 <= i < j < cli.endpoints.len() ==> (#[trigger] cli.endpoints[i]).name@ != (
        #[trigger] cli.endpoints[j]).name@ {
        assert forall|i: int, j: int| 0 <= i < j < c.len() implies c[i] != c[j] by {
            assert(cli.endpoints[i].name@ != cli.endpoints[j].name@);
        }
    }
}

/// The references are in order exactly where every endpoint name that stands in an egress
/// list of any endpoint, allowed or blocked, is the name of an endpoint.
pub proof fn law_every_reference_is_checked(endpoints: Seq<EndpointSpec>)
    ensures
        references_error(endpoints, 0) is None <==> forall|i: int|
            0 <= i < endpoints.len() ==> ({
                let f = (#[trigger] endpoints[i]).kind@.identity().filters;
                &&& forall|name: Seq<char>| #[trigger]
                    f.allow_src_endpoint_out.contains(name) ==> exists|j: int|
                        0 <= j < endpoints.len() && (#[trigger] endpoints[j]).name@ == name
                &&& forall|name: Seq<char>| #[trigger]
                    f.block_src_endpoint_out.contains(name) ==> exists|j: int|
                        0 <= j < endpoints.len() && (#[trigger] endpoints[j]).name@ == name
            }),
{
    lemma_references(endpoints, 0);
    let names = names_of(endpoints);
    assert forall|i: int| 0 <= i < endpoints.len() implies references_fine(
        #[trigger] endpoints[i],
        names,
    ) == ({
        let f = endpoints[i].kind@.identity().filters;
        &&& forall|name: Seq<char>| #[trigger]
            f.allow_src_endpoint_out.contains(name) ==> exists|j: int|
                0 <= j < endpoints.len() && (#[trigger] endpoints[j]).name@ == name
        &&& forall|name: Seq<char>| #[trigger]
            f.block_src_endpoint_out.contains(name) ==> exists|j: int|
                0 <= j < endpoints.len() && (#[trigger] endpoints[j]).name@ == name
    }) by {
        assert forall|name: Seq<char>| #[trigger]
            names.contains(name) == (exists|j: int|
                0 <= j < endpoints.len() && (#[trigger] endpoints[j]).name@ == name) by {
            if names.contains(name) {
                let j = names.index_of(name);
                assert(endpoints[j].name@ == name);
            }
            if exists|j: int| 0 <= j < endpoints.len() && (#[trigger] endpoints[j]).name@ == name {
                let j = choose|j: int|
                    0 <= j < endpoints.len() && (#[trigger] endpoints[j]).name@ == name;
                assert(names[j] == name);
            }
        }
    }
}

/// Whether all names in the egress lists of one endpoint are among `names`.
spec fn references_fine(e: EndpointSpec, names: Seq<Seq<char>>) -> bool {
    let f = e.kind@.identity().filters;
    &&& forall|name: Seq<char>| #[trigger]
        f.allow_src_endpoint_out.contains(name) ==> names.contains(name)
    &&& forall|name: Seq<char>| #[trigger]
        f.block_src_endpoint_out.contains(name) ==> names.contains(name)
}

/// The entries of one endpoint.
proof fn lemma_reference_entries(
    own: Seq<char>,
    entries: Seq<(Seq<char>, Seq<char>)>,
    names: Seq<Seq<char>>,
    from: nat,
)
    ensures
        reference_error(own, entries, names, from) is None <==> forall|k: int|
            from <= k < entries.len() ==> names.contains((#[trigger] entries[k]).1),
    decreases entries.len() - from,
{
    if from < entries.len() {
        lemma_reference_entries(own, entries, names, from + 1);
    }
}

/// The lists of one endpoint.
proof fn lemma_reference_lists(e: EndpointSpec, names: Seq<Seq<char>>)
    ensures
        reference_error(e.name@, e.kind@.identity().filters.endpoint_entries(), names, 0) is None
            <==> references_fine(e, names),
{
    let f = e.kind@.identity().filters;
    let allow = f.allow_src_endpoint_out;
    let block = f.block_src_endpoint_out;
    let entries = f.endpoint_entries();
    lemma_reference_entries(e.name@, entries, names, 0);
    if references_fine(e, names) {
        assert forall|k: int| 0 <= k < entries.len() implies names.contains(
            (#[trigger] entries[k]).1,
        ) by {
            let name = entries[k].1;
            if k < allow.len() {
                assert(name == allow[k]);
                assert(allow.contains(name));
            } else {
                assert(name == block[k - allow.len()]);
                assert(block.contains(name));
            }
        }
    }
    if reference_error(e.name@, entries, names, 0) is None {
        assert forall|name: Seq<char>| #[trigger] allow.contains(name) implies names.contains(
            name,
        ) by {
            let k = allow.index_of(name);
            assert(entries[k].1 == name);
        }
        assert forall|name: Seq<char>| #[trigger] block.contains(name) implies names.contains(
            name,
        ) by {
            let k = block.index_of(name);
            assert(entries[allow.len() + k].1 == name);
        }
    }
}

/// The endpoints from position `from` on.
proof fn lemma_references(endpoints: Seq<EndpointSpec>, from: nat)
    ensures
        references_error(endpoints, from) is None <==> forall|i: int|
            from <= i < endpoints.len() ==> references_fine(
                #[trigger] endpoints[i],
                names_of(endpoints),
            ),
    decreases endpoints.len() - from,
{
    if from < endpoints.len() {
        lemma_references(endpoints, from + 1);
        lemma_reference_lists(endpoints[from as int], names_of(endpoints));
    }
}

} // verus!

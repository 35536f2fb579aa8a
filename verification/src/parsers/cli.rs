//! The command line as a source of configuration.

use vstd::prelude::*;

use crate::config::{LogFormat, LogLevel, SourceView};
use crate::endpoint::spec::error::SpecErrorView;
use crate::endpoint::spec::parse;
use crate::endpoint::spec::parse::{EndpointSpec, EndpointSpecView};
use crate::error::{Error, ErrorView};
use crate::text;

verus! {

/// The arguments of the command line. A setting that was not given is `None`.
#[derive(Debug)]
pub struct Cli {
    /// The configuration file.
    pub config: Option<String>,
    pub log_level: Option<LogLevel>,
    pub log_format: Option<LogFormat>,
    pub stats: bool,
    pub stats_interval_secs: Option<u64>,
    pub dedup_ms: Option<u64>,
    pub skip_config_log: bool,
    /// Print the merged configuration and do nothing else.
    pub dry_run: bool,
    /// Endpoints in text form.
    pub endpoints: Vec<String>,
}

/// What the command line says. `None` leaves a setting to the configuration file and the
/// defaults.
#[derive(Debug, Clone)]
pub struct CliConfig {
    pub log_level: Option<LogLevel>,
    pub log_format: Option<LogFormat>,
    pub stats: Option<bool>,
    pub stats_interval_secs: Option<u64>,
    pub dedup_ms: Option<u64>,
    pub skip_config_log: Option<bool>,
    pub endpoints: Vec<EndpointSpec>,
}

impl View for CliConfig {
    type V = SourceView;

    open spec fn view(&self) -> SourceView {
        SourceView {
            log_level: self.log_level,
            log_format: self.log_format,
            stats: self.stats,
            stats_interval_secs: self.stats_interval_secs,
            dedup_ms: self.dedup_ms,
            skip_config_log: self.skip_config_log,
            endpoints: self.endpoints@,
        }
    }
}

impl Default for CliConfig {
    fn default() -> (r: Self)
        ensures
            r@ == SourceView::empty(),
    {
        CliConfig {
            log_level: None,
            log_format: None,
            stats: None,
            stats_interval_secs: None,
            dedup_ms: None,
            skip_config_log: None,
            endpoints: Vec::new(),
        }
    }
}

/// The endpoints behind `done` that the texts from position `from` on describe, or what is
/// wrong with the first that describes none.
pub open spec fn specs_from(raw: Seq<Seq<char>>, from: nat, done: Seq<EndpointSpecView>) -> Result<
    Seq<EndpointSpecView>,
    ErrorView,
>
    decreases raw.len() - from,
{
    if from >= raw.len() {
        Ok(done)
    } else {
        match parse::endpoint_spec(raw[from as int]) {
            Ok(s) => specs_from(raw, from + 1, done.push(s)),
            Err(e) => Err(
                ErrorView::SpecInArg { index: from as usize, arg: raw[from as int], source: e },
            ),
        }
    }
}

/// The views of endpoints.
pub open spec fn spec_views(v: Seq<EndpointSpec>) -> Seq<EndpointSpecView> {
    Seq::new(v.len(), |i: int| v[i]@)
}

/// Read endpoints from their text form. The error tells which argument is wrong.
pub fn parse_specs(raw: &[String]) -> (r: Result<Vec<EndpointSpec>, Error>)
    ensures
        match r {
            Ok(v) => specs_from(text::texts(raw@), 0, Seq::empty()) == Ok::<_, ErrorView>(
                spec_views(v@),
            ),
            Err(e) => specs_from(text::texts(raw@), 0, Seq::empty()) == Err::<
                Seq<EndpointSpecView>,
                _,
            >(e@),
        },
{
    let ghost texts = text::texts(raw@);
    let mut specs: Vec<EndpointSpec> = Vec::new();
    let mut index: usize = 0;
    assert(spec_views(specs@) =~= Seq::empty());
    while index < raw.len()
        invariant
            index <= raw@.len(),
            texts == text::texts(raw@),
            specs_from(texts, 0, Seq::empty()) == specs_from(
                texts,
                index as nat,
                spec_views(specs@),
            ),
        decreases raw@.len() - index,
    {
        match EndpointSpec::parse(raw[index].as_str()) {
            Ok(spec) => {
                let ghost before = spec_views(specs@);
                specs.push(spec);
                assert(spec_views(specs@) =~= before.push(spec@));
            },
            Err(source) => {
                return Err(Error::SpecInArg { index, arg: raw[index].clone(), source });
            },
        }
        index = index + 1;
    }
    Ok(specs)
}

/// A switch that was given sets `true`; one that was not says nothing.
pub open spec fn switch(given: bool) -> Option<bool> {
    if given {
        Some(true)
    } else {
        None
    }
}

impl Cli {
    /// What the arguments say. The configuration file is left to the caller.
    pub fn into_cli_config(self) -> (r: Result<CliConfig, Error>)
        ensures
            match r {
                Ok(c) => {
                    &&& c.log_level == self.log_level
                    &&& c.log_format == self.log_format
                    &&& c.stats == switch(self.stats)
                    &&& c.stats_interval_secs == self.stats_interval_secs
                    &&& c.dedup_ms == self.dedup_ms
                    &&& c.skip_config_log == switch(self.skip_config_log)
                    &&& specs_from(text::texts(self.endpoints@), 0, Seq::empty()) == Ok::<
                        _,
                        ErrorView,
                    >(spec_views(c.endpoints@))
                },
                Err(e) => specs_from(text::texts(self.endpoints@), 0, Seq::empty()) == Err::<
                    Seq<EndpointSpecView>,
                    _,
                >(e@),
            },
    {
        let endpoints: Vec<EndpointSpec> = match parse_specs(&self.endpoints) {
            Ok(v) => v,
            Err(e) => {
                return Err(e);
            },
        };
        let stats: Option<bool> = if self.stats {
            Some(true)
        } else {
            None
        };
        let skip_config_log: Option<bool> = if self.skip_config_log {
            Some(true)
        } else {
            None
        };
        Ok(
            CliConfig {
                log_level: self.log_level,
                log_format: self.log_format,
                stats,
                stats_interval_secs: self.stats_interval_secs,
                dedup_ms: self.dedup_ms,
                skip_config_log,
                endpoints,
            },
        )
    }
}

/// Each argument that is read gives one endpoint, in the order of the arguments; an error
/// names the first argument that describes none.
pub proof fn law_specs_in_order(raw: Seq<Seq<char>>, from: nat, done: Seq<EndpointSpecView>)
    requires
        from == done.len() <= raw.len() <= usize::MAX,
    ensures
        match specs_from(raw, from, done) {
            Ok(v) => {
                &&& v.len() == raw.len()
                &&& v.take(from as int) == done
                &&& forall|i: int|
                    from <= i < raw.len() ==> parse::endpoint_spec(#[trigger] raw[i]) == Ok::<
                        _,
                        SpecErrorView,
                    >(v[i])
            },
            Err(e) => {
                &&& e matches ErrorView::SpecInArg { index, arg, source } && from <= index
                    < raw.len() && arg == raw[index as int] && parse::endpoint_spec(arg) == Err::<
                    EndpointSpecView,
                    _,
                >(source) && forall|i: int|
                    from <= i < index ==> parse::endpoint_spec(#[trigger] raw[i]) is Ok
            },
        },
    decreases raw.len() - from,
{
    if from < raw.len() {
        match parse::endpoint_spec(raw[from as int]) {
            Ok(s) => {
                law_specs_in_order(raw, from + 1, done.push(s));
                match specs_from(raw, from, done) {
                    Ok(v) => {
                        assert(v.take(from as int) =~= v.take((from + 1) as int).take(from as int));
                        assert(done.push(s).take(from as int) =~= done);
                        assert(v[from as int] == v.take((from + 1) as int)[from as int]);
                    },
                    Err(_) => {},
                }
            },
            Err(_) => {},
        }
    } else {
        assert(done.take(from as int) =~= done);
    }
}

/// A switch turns a setting on where it is given, and says nothing where it is not: it never
/// turns one off.
pub proof fn law_switches_only_turn_on(given: bool)
    ensures
        given ==> switch(given) == Some(true),
        !given ==> switch(given) is None,
{
}

} // verus!

//! A configuration file as a source of configuration.

use vstd::prelude::*;
use vstd::string::StringExecFns;

use crate::config::{LogFormat, LogLevel, SourceView};
use crate::endpoint::identity_flags;
use crate::endpoint::spec::error::SpecErrorView;
use crate::endpoint::spec::parse;
use crate::endpoint::spec::parse::{EndpointSpec, EndpointSpecView};
use crate::endpoint::spec::query;
use crate::endpoint::spec::scheme;
use crate::endpoint::spec::scheme::Scheme;
use crate::error::{Error, ErrorView};
use crate::parsers::cli;
use crate::text;
use crate::text::{contains_char, decimal, list, text_eq};

verus! {

/// What a configuration file says. `None` leaves a setting to the defaults.
#[derive(Debug, Clone)]
pub struct TomlConfig {
    pub log_level: Option<LogLevel>,
    pub log_format: Option<LogFormat>,
    pub stats: Option<bool>,
    pub stats_interval_secs: Option<u64>,
    pub dedup_ms: Option<u64>,
    pub skip_config_log: Option<bool>,
    pub endpoints: Vec<EndpointSpec>,
}

impl View for TomlConfig {
    type V = SourceView;

    open spec fn view(&self) -> SourceView {
        SourceView {
            log_level: self.log_level,
            log_format: self.log_format,
            stats: self.stats,
            stats_interval_secs: self.stats_interval_secs,
            dedup_ms: self.dedup_ms,
            skip_config_log: self.skip_config_log,
            endpoints: self.endpoints@,
        }
    }
}

impl TomlConfig {
    /// Whether the file says anything.
    pub fn has_values(&self) -> (r: bool)
        ensures
            r == (self@ != SourceView::empty()),
    {
        assert(self.endpoints@.len() == 0 ==> self.endpoints@ =~= Seq::empty());
        self.log_level.is_some() || self.log_format.is_some() || self.stats.is_some()
            || self.stats_interval_secs.is_some() || self.dedup_ms.is_some()
            || self.skip_config_log.is_some() || !self.endpoints.is_empty()
    }
}

impl Default for TomlConfig {
    fn default() -> (r: Self)
        ensures
            r@ == SourceView::empty(),
    {
        TomlConfig {
            log_level: None,
            log_format: None,
            stats: None,
            stats_interval_secs: None,
            dedup_ms: None,
            skip_config_log: None,
            endpoints: Vec::new(),
        }
    }
}

/// One `[endpoint.NAME]` table of a configuration file. `scheme` is its `type`; the filters
/// are lists in text form.
#[derive(Debug)]
pub struct TomlEndpoint {
    pub scheme: String,
    pub path: Option<String>,
    pub baud: Option<u32>,
    pub flow_control: Option<String>,
    pub bind: Option<String>,
    pub host: Option<String>,
    pub port: Option<u16>,
    pub idle_secs: Option<u64>,
    pub latch_idle_secs: Option<u64>,
    pub sniffer: Option<bool>,
    pub group: Option<String>,
    pub allow_msgid_in: Option<String>,
    pub block_msgid_in: Option<String>,
    pub allow_msgid_out: Option<String>,
    pub block_msgid_out: Option<String>,
    pub allow_src_sys_in: Option<String>,
    pub block_src_sys_in: Option<String>,
    pub allow_src_sys_out: Option<String>,
    pub block_src_sys_out: Option<String>,
    pub allow_src_comp_in: Option<String>,
    pub block_src_comp_in: Option<String>,
    pub allow_src_comp_out: Option<String>,
    pub block_src_comp_out: Option<String>,
    pub allow_src_endpoint_out: Option<String>,
    pub block_src_endpoint_out: Option<String>,
}

impl Default for TomlEndpoint {
    fn default() -> (r: Self)
        ensures
            r.scheme@.len() == 0,
            r.path is None,
            r.baud is None,
            r.flow_control is None,
            r.bind is None,
            r.host is None,
            r.port is None,
            r.idle_secs is None,
            r.latch_idle_secs is None,
            r.sniffer is None,
            r.group is None,
            r.allow_msgid_in is None,
            r.block_msgid_in is None,
            r.allow_msgid_out is None,
            r.block_msgid_out is None,
            r.allow_src_sys_in is None,
            r.block_src_sys_in is None,
            r.allow_src_sys_out is None,
            r.block_src_sys_out is None,
            r.allow_src_comp_in is None,
            r.block_src_comp_in is None,
            r.allow_src_comp_out is None,
            r.block_src_comp_out is None,
            r.allow_src_endpoint_out is None,
            r.block_src_endpoint_out is None,
    {
        TomlEndpoint {
            scheme: String::new(),
            path: None,
            baud: None,
            flow_control: None,
            bind: None,
            host: None,
            port: None,
            idle_secs: None,
            latch_idle_secs: None,
            sniffer: None,
            group: None,
            allow_msgid_in: None,
            block_msgid_in: None,
            allow_msgid_out: None,
            block_msgid_out: None,
            allow_src_sys_in: None,
            block_src_sys_in: None,
            allow_src_sys_out: None,
            block_src_sys_out: None,
            allow_src_comp_in: None,
            block_src_comp_in: None,
            allow_src_comp_out: None,
            block_src_comp_out: None,
            allow_src_endpoint_out: None,
            block_src_endpoint_out: None,
        }
    }
}

// ---------------------------------------------------------------- fields and schemes

/// The scheme-specific fields that an entry of this scheme may have.
pub open spec fn allowed_spec(scheme: Scheme) -> Seq<Seq<char>> {
    match scheme {
        Scheme::Serial => seq!["path"@, "baud"@, "flow_control"@],
        Scheme::UdpServer => seq!["bind"@, "idle_secs"@],
        Scheme::TcpServer => seq!["bind"@],
        Scheme::UdpClient => seq!["host"@, "port"@, "latch_idle_secs"@],
        Scheme::TcpClient => seq!["host"@, "port"@],
    }
}

/// The scheme-specific fields that an entry of this scheme may have.
fn allowed_fields(scheme: Scheme) -> (r: &'static [&'static str])
    ensures
        text::slice_texts(r@) == allowed_spec(scheme),
{
    match scheme {
        Scheme::Serial => {
            let r: &'static [&'static str; 3] = &["path", "baud", "flow_control"];
            assert(text::slice_texts(r@) =~= allowed_spec(scheme));
            r
        },
        Scheme::UdpServer => {
            let r: &'static [&'static str; 2] = &["bind", "idle_secs"];
            assert(text::slice_texts(r@) =~= allowed_spec(scheme));
            r
        },
        Scheme::TcpServer => {
            let r: &'static [&'static str; 1] = &["bind"];
            assert(text::slice_texts(r@) =~= allowed_spec(scheme));
            r
        },
        Scheme::UdpClient => {
            let r: &'static [&'static str; 3] = &["host", "port", "latch_idle_secs"];
            assert(text::slice_texts(r@) =~= allowed_spec(scheme));
            r
        },
        Scheme::TcpClient => {
            let r: &'static [&'static str; 2] = &["host", "port"];
            assert(text::slice_texts(r@) =~= allowed_spec(scheme));
            r
        },
    }
}

/// The name of the first field that is there but not allowed, from position `from` on.
pub open spec fn first_disallowed(
    provided: Seq<(Seq<char>, bool)>,
    allowed: Seq<Seq<char>>,
    from: nat,
) -> Option<Seq<char>>
    decreases provided.len() - from,
{
    if from >= provided.len() {
        None
    } else if provided[from as int].1 && !allowed.contains(provided[from as int].0) {
        Some(provided[from as int].0)
    } else {
        first_disallowed(provided, allowed, from + 1)
    }
}

/// Whether `field` is one of `fields`.
fn is_one_of(fields: &[&str], field: &str) -> (r: bool)
    ensures
        r == text::slice_texts(fields@).contains(field@),
{
    let ghost all = text::slice_texts(fields@);
    let mut i: usize = 0;
    while i < fields.len()
        invariant
            i <= fields@.len(),
            all == text::slice_texts(fields@),
            forall|j: int| 0 <= j < i ==> all[j] != field@,
        decreases fields@.len() - i,
    {
        if text_eq(fields[i], field) {
            assert(all[i as int] == field@);
            return true;
        }
        i = i + 1;
    }
    false
}

/// What is wrong with an entry that has the field `field`.
pub open spec fn disallowed_reason(field: Seq<char>, scheme: Scheme) -> Seq<char> {
    "field '"@ + field + "' is not valid for type '"@ + scheme.text() + "' (allowed fields: "@
        + text::listed(allowed_spec(scheme)) + ")"@
}

/// What is wrong with an entry that lacks the field `field`.
pub open spec fn missing_reason(scheme: Scheme, field: Seq<char>) -> Seq<char> {
    "type '"@ + scheme.text() + "' requires field '"@ + field + "'"@
}

/// A field is missing.
fn missing(name: &str, scheme: Scheme, field: &str) -> (r: Error)
    ensures
        r@ == (ErrorView::ConfigSchema {
            name: name@,
            reason: missing_reason(scheme, field@),
        }),
{
    Error::ConfigSchema {
        name: String::from_str(name),
        reason: String::from_str("type '").concat(scheme.as_str()).concat(
            "' requires field '",
        ).concat(field).concat("'"),
    }
}

/// The scheme that the `type` of an entry names.
pub open spec fn type_spec(raw: Seq<char>, name: Seq<char>) -> Result<Scheme, ErrorView> {
    match scheme::scheme_spec(raw) {
        Some(s) => Ok(s),
        None => Err(
            ErrorView::ConfigSchema {
                name,
                reason: "unknown endpoint type '"@ + raw
                    + "' (valid: serial, udps, udpc, tcps, tcpc)"@,
            },
        ),
    }
}

/// The scheme that the `type` of an entry names.
fn scheme_from_toml_type(raw: &str, name: &str) -> (r: Result<Scheme, Error>)
    ensures
        match r {
            Ok(s) => type_spec(raw@, name@) == Ok::<_, ErrorView>(s),
            Err(e) => type_spec(raw@, name@) == Err::<Scheme, _>(e@),
        },
{
    match Scheme::try_from_str(raw) {
        Some(s) => Ok(s),
        None => Err(
            Error::ConfigSchema {
                name: String::from_str(name),
                reason: String::from_str("unknown endpoint type '").concat(raw).concat(
                    "' (valid: serial, udps, udpc, tcps, tcpc)",
                ),
            },
        ),
    }
}

// ---------------------------------------------------------------- pairs

/// A query pair for a value that is there.
pub open spec fn opt_pair(key: Seq<char>, value: Option<Seq<char>>) -> Seq<(Seq<char>, Seq<char>)> {
    match value {
        Some(v) => seq![(key, v)],
        None => Seq::empty(),
    }
}

/// A number in text form.
pub open spec fn opt_number(value: Option<u64>) -> Option<Seq<char>> {
    match value {
        Some(n) => Some(text::decimal_spec(n as nat)),
        None => None,
    }
}

/// A flag in text form.
pub open spec fn opt_flag(value: Option<bool>) -> Option<Seq<char>> {
    match value {
        Some(true) => Some("true"@),
        Some(false) => Some("false"@),
        None => None,
    }
}

/// Append a pair for a text that is there.
fn push_text(pairs: &mut Vec<(String, String)>, key: &str, value: &Option<String>)
    ensures
        query::pair_texts(final(pairs)@) == query::pair_texts(old(pairs)@) + opt_pair(
            key@,
            identity_flags::opt_string(*value),
        ),
{
    match value {
        Some(v) => {
            pairs.push((String::from_str(key), v.clone()));
        },
        None => {},
    }
    assert(query::pair_texts(pairs@) =~= query::pair_texts(old(pairs)@) + opt_pair(
        key@,
        identity_flags::opt_string(*value),
    ));
}

/// Append a pair for a number that is there.
fn push_number(pairs: &mut Vec<(String, String)>, key: &str, value: Option<u64>)
    ensures
        query::pair_texts(final(pairs)@) == query::pair_texts(old(pairs)@) + opt_pair(
            key@,
            opt_number(value),
        ),
{
    match value {
        Some(n) => {
            pairs.push((String::from_str(key), decimal(n)));
        },
        None => {},
    }
    assert(query::pair_texts(pairs@) =~= query::pair_texts(old(pairs)@) + opt_pair(
        key@,
        opt_number(value),
    ));
}

/// Append a pair for a flag that is there.
fn push_flag(pairs: &mut Vec<(String, String)>, key: &str, value: Option<bool>)
    ensures
        query::pair_texts(final(pairs)@) == query::pair_texts(old(pairs)@) + opt_pair(
            key@,
            opt_flag(value),
        ),
{
    match value {
        Some(true) => {
            pairs.push((String::from_str(key), String::from_str("true")));
        },
        Some(false) => {
            pairs.push((String::from_str(key), String::from_str("false")));
        },
        None => {},
    }
    assert(query::pair_texts(pairs@) =~= query::pair_texts(old(pairs)@) + opt_pair(
        key@,
        opt_flag(value),
    ));
}

// ---------------------------------------------------------------- entries

impl TomlEndpoint {
    /// The scheme-specific fields, and whether each is there.
    pub open spec fn provided(self) -> Seq<(Seq<char>, bool)> {
        seq![
            ("path"@, self.path is Some),
            ("baud"@, self.baud is Some),
            ("flow_control"@, self.flow_control is Some),
            ("bind"@, self.bind is Some),
            ("host"@, self.host is Some),
            ("port"@, self.port is Some),
            ("idle_secs"@, self.idle_secs is Some),
            ("latch_idle_secs"@, self.latch_idle_secs is Some),
        ]
    }

    /// The body that the fields make up, an IPv6 host in brackets.
    pub open spec fn body(self, name: Seq<char>, scheme: Scheme) -> Result<Seq<char>, ErrorView> {
        match scheme {
            Scheme::Serial => match self.path {
                None => Err(missing_error(name, scheme, "path"@)),
                Some(path) => match self.baud {
                    None => Err(missing_error(name, scheme, "baud"@)),
                    Some(baud) => Ok(path@ + ":"@ + text::decimal_spec(baud as nat)),
                },
            },
            Scheme::UdpServer | Scheme::TcpServer => match self.bind {
                None => Err(missing_error(name, scheme, "bind"@)),
                Some(bind) => Ok(bind@),
            },
            Scheme::UdpClient | Scheme::TcpClient => match self.host {
                None => Err(missing_error(name, scheme, "host"@)),
                Some(host) => match self.port {
                    None => Err(missing_error(name, scheme, "port"@)),
                    Some(port) => Ok(
                        if host@.contains(':') {
                            "["@ + host@ + "]:"@ + text::decimal_spec(port as nat)
                        } else {
                            host@ + ":"@ + text::decimal_spec(port as nat)
                        },
                    ),
                },
            },
        }
    }

    /// The settings as query pairs.
    pub open spec fn pairs(self) -> Seq<(Seq<char>, Seq<char>)> {
        opt_pair("flow_control"@, identity_flags::opt_string(self.flow_control)) + opt_pair(
            "idle_secs"@,
            opt_number(self.idle_secs),
        ) + opt_pair("latch_idle_secs"@, opt_number(self.latch_idle_secs)) + opt_pair(
            "sniffer"@,
            opt_flag(self.sniffer),
        ) + opt_pair("group"@, identity_flags::opt_string(self.group))
            + opt_pair("allow_msgid_in"@, identity_flags::opt_string(self.allow_msgid_in))
            + opt_pair("block_msgid_in"@, identity_flags::opt_string(self.block_msgid_in))
            + opt_pair("allow_msgid_out"@, identity_flags::opt_string(self.allow_msgid_out))
            + opt_pair("block_msgid_out"@, identity_flags::opt_string(self.block_msgid_out))
            + opt_pair("allow_src_sys_in"@, identity_flags::opt_string(self.allow_src_sys_in))
            + opt_pair("block_src_sys_in"@, identity_flags::opt_string(self.block_src_sys_in))
            + opt_pair("allow_src_sys_out"@, identity_flags::opt_string(self.allow_src_sys_out))
            + opt_pair("block_src_sys_out"@, identity_flags::opt_string(self.block_src_sys_out))
            + opt_pair("allow_src_comp_in"@, identity_flags::opt_string(self.allow_src_comp_in))
            + opt_pair("block_src_comp_in"@, identity_flags::opt_string(self.block_src_comp_in))
            + opt_pair("allow_src_comp_out"@, identity_flags::opt_string(self.allow_src_comp_out))
            + opt_pair("block_src_comp_out"@, identity_flags::opt_string(self.block_src_comp_out))
            + opt_pair("allow_src_endpoint_out"@, identity_flags::opt_string(self.allow_src_endpoint_out))
            + opt_pair("block_src_endpoint_out"@, identity_flags::opt_string(self.block_src_endpoint_out))
    }

    /// The endpoint that the entry describes: a field of another scheme is reported before
    /// one that is missing, and that before what is wrong with the values.
    pub open spec fn described(self, name: Seq<char>) -> Result<EndpointSpecView, ErrorView> {
        match type_spec(self.scheme@, name) {
            Err(e) => Err(e),
            Ok(scheme) => match first_disallowed(self.provided(), allowed_spec(scheme), 0) {
                Some(field) => Err(
                    ErrorView::ConfigSchema { name, reason: disallowed_reason(field, scheme) },
                ),
                None => match self.body(name, scheme) {
                    Err(e) => Err(e),
                    Ok(body) => match parse::build_spec(scheme, body, Some(name), self.pairs()) {
                        Ok(s) => Ok(s),
                        Err(source) => Err(ErrorView::SpecInToml { name, source }),
                    },
                },
            },
        }
    }

    /// Reject a field that only other schemes have.
    fn reject_disallowed_fields(&self, name: &str, scheme: Scheme) -> (r: Result<(), Error>)
        ensures
            match r {
                Ok(_) => first_disallowed(self.provided(), allowed_spec(scheme), 0) is None,
                Err(e) => {
                    first_disallowed(self.provided(), allowed_spec(scheme), 0) matches Some(field)
                        && e@ == (ErrorView::ConfigSchema {
                        name: name@,
                        reason: disallowed_reason(field, scheme),
                    })
                },
            },
    {
        let allowed: &[&str] = allowed_fields(scheme);
        let fields: [(&str, bool); 8] = [
            ("path", self.path.is_some()),
            ("baud", self.baud.is_some()),
            ("flow_control", self.flow_control.is_some()),
            ("bind", self.bind.is_some()),
            ("host", self.host.is_some()),
            ("port", self.port.is_some()),
            ("idle_secs", self.idle_secs.is_some()),
            ("latch_idle_secs", self.latch_idle_secs.is_some()),
        ];
        let ghost provided = self.provided();
        let mut i: usize = 0;
        while i < 8
            invariant
                i <= 8,
                provided == self.provided(),
                text::slice_texts(allowed@) == allowed_spec(scheme),
                provided.len() == 8,
                forall|j: int|
                    0 <= j < 8 ==> (#[trigger] fields@[j]).0@ == provided[j].0 && fields@[j].1
                        == provided[j].1,
                first_disallowed(provided, allowed_spec(scheme), 0) == first_disallowed(
                    provided,
                    allowed_spec(scheme),
                    i as nat,
                ),
            decreases 8 - i,
        {
            let (field, present) = fields[i];
            if present && !is_one_of(allowed, field) {
                return Err(
                    Error::ConfigSchema {
                        name: String::from_str(name),
                        reason: String::from_str("field '").concat(field).concat(
                            "' is not valid for type '",
                        ).concat(scheme.as_str()).concat("' (allowed fields: ").concat(
                            list(allowed).as_str(),
                        ).concat(")"),
                    },
                );
            }
            i = i + 1;
        }
        Ok(())
    }

    /// Put the fields together as the body of a specification.
    pub fn synthesize_body(&self, name: &str, scheme: Scheme) -> (r: Result<String, Error>)
        ensures
            match r {
                Ok(b) => self.body(name@, scheme) == Ok::<_, ErrorView>(b@),
                Err(e) => self.body(name@, scheme) == Err::<Seq<char>, _>(e@),
            },
    {
        match scheme {
            Scheme::Serial => match &self.path {
                None => Err(missing(name, scheme, "path")),
                Some(path) => match self.baud {
                    None => Err(missing(name, scheme, "baud")),
                    Some(baud) => Ok(
                        path.clone().concat(":").concat(decimal(baud as u64).as_str()),
                    ),
                },
            },
            Scheme::UdpServer | Scheme::TcpServer => match &self.bind {
                None => Err(missing(name, scheme, "bind")),
                Some(bind) => Ok(bind.clone()),
            },
            Scheme::UdpClient | Scheme::TcpClient => match &self.host {
                None => Err(missing(name, scheme, "host")),
                Some(host) => match self.port {
                    None => Err(missing(name, scheme, "port")),
                    Some(port) => if contains_char(host.as_str(), ':') {
                        Ok(
                            String::from_str("[").concat(host.as_str()).concat("]:").concat(
                                decimal(port as u64).as_str(),
                            ),
                        )
                    } else {
                        Ok(host.clone().concat(":").concat(decimal(port as u64).as_str()))
                    },
                },
            },
        }
    }

    /// The settings as query pairs.
    fn collect_pairs(&self) -> (r: Vec<(String, String)>)
        ensures
            query::pair_texts(r@) == self.pairs(),
    {
        let mut pairs: Vec<(String, String)> = Vec::new();
        push_text(&mut pairs, "flow_control", &self.flow_control);
        push_number(&mut pairs, "idle_secs", self.idle_secs);
        push_number(&mut pairs, "latch_idle_secs", self.latch_idle_secs);
        push_flag(&mut pairs, "sniffer", self.sniffer);
        push_text(&mut pairs, "group", &self.group);
        push_text(&mut pairs, "allow_msgid_in", &self.allow_msgid_in);
        push_text(&mut pairs, "block_msgid_in", &self.block_msgid_in);
        push_text(&mut pairs, "allow_msgid_out", &self.allow_msgid_out);
        push_text(&mut pairs, "block_msgid_out", &self.block_msgid_out);
        push_text(&mut pairs, "allow_src_sys_in", &self.allow_src_sys_in);
        push_text(&mut pairs, "block_src_sys_in", &self.block_src_sys_in);
        push_text(&mut pairs, "allow_src_sys_out", &self.allow_src_sys_out);
        push_text(&mut pairs, "block_src_sys_out", &self.block_src_sys_out);
        push_text(&mut pairs, "allow_src_comp_in", &self.allow_src_comp_in);
        push_text(&mut pairs, "block_src_comp_in", &self.block_src_comp_in);
        push_text(&mut pairs, "allow_src_comp_out", &self.allow_src_comp_out);
        push_text(&mut pairs, "block_src_comp_out", &self.block_src_comp_out);
        push_text(&mut pairs, "allow_src_endpoint_out", &self.allow_src_endpoint_out);
        push_text(&mut pairs, "block_src_endpoint_out", &self.block_src_endpoint_out);
        assert(query::pair_texts(pairs@) =~= self.pairs());
        pairs
    }

    /// The endpoint called `name` that the entry describes.
    pub fn into_spec(self, name: &str) -> (r: Result<EndpointSpec, Error>)
        ensures
            match r {
                Ok(s) => self.described(name@) == Ok::<_, ErrorView>(s@),
                Err(e) => self.described(name@) == Err::<EndpointSpecView, _>(e@),
            },
    {
        let scheme: Scheme = match scheme_from_toml_type(self.scheme.as_str(), name) {
            Ok(s) => s,
            Err(e) => {
                return Err(e);
            },
        };
        match self.reject_disallowed_fields(name, scheme) {
            Ok(_) => {},
            Err(e) => {
                return Err(e);
            },
        }
        let body: String = match self.synthesize_body(name, scheme) {
            Ok(b) => b,
            Err(e) => {
                return Err(e);
            },
        };
        let pairs: Vec<(String, String)> = self.collect_pairs();
        match EndpointSpec::build(scheme, body.as_str(), Some(name), &pairs) {
            Ok(s) => Ok(s),
            Err(source) => Err(Error::SpecInToml { name: String::from_str(name), source }),
        }
    }
}

/// A field is missing.
pub open spec fn missing_error(name: Seq<char>, scheme: Scheme, field: Seq<char>) -> ErrorView {
    ErrorView::ConfigSchema { name, reason: missing_reason(scheme, field) }
}

/// The keys of the pairs, in order.
spec fn pair_keys() -> Seq<Seq<char>> {
    seq![
        "flow_control"@,
        "idle_secs"@,
        "latch_idle_secs"@,
        "sniffer"@,
        "group"@,
        "allow_msgid_in"@,
        "block_msgid_in"@,
        "allow_msgid_out"@,
        "block_msgid_out"@,
        "allow_src_sys_in"@,
        "block_src_sys_in"@,
        "allow_src_sys_out"@,
        "block_src_sys_out"@,
        "allow_src_comp_in"@,
        "block_src_comp_in"@,
        "allow_src_comp_out"@,
        "block_src_comp_out"@,
        "allow_src_endpoint_out"@,
        "block_src_endpoint_out"@,
    ]
}

/// No two of the keys are the same, and each can stand in a query.
proof fn lemma_pair_keys()
    ensures
        forall|i: int, j: int|
            0 <= i < j < pair_keys().len() ==> pair_keys()[i] != pair_keys()[j],
        forall|i: int|
            0 <= i < pair_keys().len() ==> (#[trigger] pair_keys()[i]).len() > 0
                && !pair_keys()[i].contains('=') && !pair_keys()[i].contains('&'),
{
    reveal_strlit("flow_control");
    reveal_strlit("idle_secs");
    reveal_strlit("latch_idle_secs");
    reveal_strlit("sniffer");
    reveal_strlit("group");
    reveal_strlit("allow_msgid_in");
    reveal_strlit("block_msgid_in");
    reveal_strlit("allow_msgid_out");
    reveal_strlit("block_msgid_out");
    reveal_strlit("allow_src_sys_in");
    reveal_strlit("block_src_sys_in");
    reveal_strlit("allow_src_sys_out");
    reveal_strlit("block_src_sys_out");
    reveal_strlit("allow_src_comp_in");
    reveal_strlit("block_src_comp_in");
    reveal_strlit("allow_src_comp_out");
    reveal_strlit("block_src_comp_out");
    reveal_strlit("allow_src_endpoint_out");
    reveal_strlit("block_src_endpoint_out");
    let keys = pair_keys();
    assert(keys[0] == "flow_control"@ && keys[0].len() == 12);
    assert(keys[1] == "idle_secs"@ && keys[1].len() == 9);
    assert(keys[2] == "latch_idle_secs"@ && keys[2].len() == 15);
    assert(keys[3] == "sniffer"@ && keys[3].len() == 7);
    assert(keys[4] == "group"@ && keys[4].len() == 5);
    assert(keys[5] == "allow_msgid_in"@ && keys[5].len() == 14);
    assert(keys[6] == "block_msgid_in"@ && keys[6].len() == 14);
    assert(keys[7] == "allow_msgid_out"@ && keys[7].len() == 15);
    assert(keys[8] == "block_msgid_out"@ && keys[8].len() == 15);
    assert(keys[9] == "allow_src_sys_in"@ && keys[9].len() == 16);
    assert(keys[10] == "block_src_sys_in"@ && keys[10].len() == 16);
    assert(keys[11] == "allow_src_sys_out"@ && keys[11].len() == 17);
    assert(keys[12] == "block_src_sys_out"@ && keys[12].len() == 17);
    assert(keys[13] == "allow_src_comp_in"@ && keys[13].len() == 17);
    assert(keys[14] == "block_src_comp_in"@ && keys[14].len() == 17);
    assert(keys[15] == "allow_src_comp_out"@ && keys[15].len() == 18);
    assert(keys[16] == "block_src_comp_out"@ && keys[16].len() == 18);
    assert(keys[17] == "allow_src_endpoint_out"@ && keys[17].len() == 22);
    assert(keys[18] == "block_src_endpoint_out"@ && keys[18].len() == 22);
    assert forall|i: int, j: int| 0 <= i < j < keys.len() implies keys[i] != keys[j] by {
        if keys[i] == keys[j] {
            assert(keys[i][0] == keys[j][0]);
            assert(keys[i][3] == keys[j][3]);
            assert(keys[i].len() > 10 ==> keys[i][10] == keys[j][10]);
        }
    }
    assert forall|i: int| 0 <= i < keys.len() implies (#[trigger] keys[i]).len() > 0
        && !keys[i].contains('=') && !keys[i].contains('&') by {
        let k = keys[i];
        assert forall|j: int| 0 <= j < k.len() implies k[j] != '=' && k[j] != '&' by {}
    }
}

/// The keys of `pairs` are distinct ones among the first `n`.
spec fn keys_below(pairs: Seq<(Seq<char>, Seq<char>)>, n: int) -> bool {
    &&& query::keys_unique(pairs)
    &&& forall|i: int| 0 <= i < pairs.len() ==> pair_keys().take(n).contains(
        (#[trigger] pairs[i]).0,
    )
}

/// One more optional pair, under the next key.
proof fn lemma_next_key(pairs: Seq<(Seq<char>, Seq<char>)>, n: int, value: Option<Seq<char>>)
    requires
        0 <= n < pair_keys().len(),
        keys_below(pairs, n),
    ensures
        keys_below(pairs + opt_pair(pair_keys()[n], value), n + 1),
{
    lemma_pair_keys();
    let keys = pair_keys();
    let key = keys[n];
    let out = pairs + opt_pair(key, value);
    assert forall|i: int| 0 <= i < out.len() implies keys.take(n + 1).contains(
        (#[trigger] out[i]).0,
    ) by {
        if i < pairs.len() {
            let k = keys.take(n).index_of(pairs[i].0);
            assert(keys.take(n + 1)[k] == out[i].0);
        } else {
            assert(keys.take(n + 1)[n] == out[i].0);
        }
    }
    assert forall|i: int, j: int| 0 <= i < j < out.len() implies out[i].0 != out[j].0 by {
        if j == pairs.len() {
            let k = keys.take(n).index_of(pairs[i].0);
            assert(keys[k] == out[i].0);
        }
    }
}

/// An entry of a configuration file describes the same endpoint as the argument with the
/// same scheme, body, name and settings. A `#` or `?` in the body, a `?` in the name or a
/// `&` in a value would read as punctuation in the argument.
pub proof fn law_entry_equals_argument(
    entry: TomlEndpoint,
    name: Seq<char>,
    scheme: Scheme,
    body: Seq<char>,
)
    requires
        scheme::scheme_spec(entry.scheme@) == Some(scheme),
        first_disallowed(entry.provided(), allowed_spec(scheme), 0) is None,
        entry.body(name, scheme) == Ok::<_, ErrorView>(body),
        !body.contains('#'),
        !body.contains('?'),
        !name.contains('?'),
        forall|i: int| 0 <= i < entry.pairs().len() ==> !(#[trigger] entry.pairs()[i]).1.contains('&'),
    ensures
        entry.described(name) == match parse::endpoint_spec(
            parse::spec_text(scheme, body, name, entry.pairs()),
        ) {
            Ok(s) => Ok::<_, ErrorView>(s),
            Err(source) => Err(ErrorView::SpecInToml { name, source }),
        },
{
    let p0 = Seq::<(Seq<char>, Seq<char>)>::empty();
    let v0 = identity_flags::opt_string(entry.flow_control);
    let v1 = opt_number(entry.idle_secs);
    let v2 = opt_number(entry.latch_idle_secs);
    let v3 = opt_flag(entry.sniffer);
    let v4 = identity_flags::opt_string(entry.group);
    let v5 = identity_flags::opt_string(entry.allow_msgid_in);
    let v6 = identity_flags::opt_string(entry.block_msgid_in);
    let v7 = identity_flags::opt_string(entry.allow_msgid_out);
    let v8 = identity_flags::opt_string(entry.block_msgid_out);
    let v9 = identity_flags::opt_string(entry.allow_src_sys_in);
    let v10 = identity_flags::opt_string(entry.block_src_sys_in);
    let v11 = identity_flags::opt_string(entry.allow_src_sys_out);
    let v12 = identity_flags::opt_string(entry.block_src_sys_out);
    let v13 = identity_flags::opt_string(entry.allow_src_comp_in);
    let v14 = identity_flags::opt_string(entry.block_src_comp_in);
    let v15 = identity_flags::opt_string(entry.allow_src_comp_out);
    let v16 = identity_flags::opt_string(entry.block_src_comp_out);
    let v17 = identity_flags::opt_string(entry.allow_src_endpoint_out);
    let v18 = identity_flags::opt_string(entry.block_src_endpoint_out);
    let keys = pair_keys();
    lemma_next_key(p0, 0, v0);
    let p1 = p0 + opt_pair(keys[0], v0);
    lemma_next_key(p1, 1, v1);
    let p2 = p1 + opt_pair(keys[1], v1);
    lemma_next_key(p2, 2, v2);
    let p3 = p2 + opt_pair(keys[2], v2);
    lemma_next_key(p3, 3, v3);
    let p4 = p3 + opt_pair(keys[3], v3);
    lemma_next_key(p4, 4, v4);
    let p5 = p4 + opt_pair(keys[4], v4);
    lemma_next_key(p5, 5, v5);
    let p6 = p5 + opt_pair(keys[5], v5);
    lemma_next_key(p6, 6, v6);
    let p7 = p6 + opt_pair(keys[6], v6);
    lemma_next_key(p7, 7, v7);
    let p8 = p7 + opt_pair(keys[7], v7);
    lemma_next_key(p8, 8, v8);
    let p9 = p8 + opt_pair(keys[8], v8);
    lemma_next_key(p9, 9, v9);
    let p10 = p9 + opt_pair(keys[9], v9);
    lemma_next_key(p10, 10, v10);
    let p11 = p10 + opt_pair(keys[10], v10);
    lemma_next_key(p11, 11, v11);
    let p12 = p11 + opt_pair(keys[11], v11);
    lemma_next_key(p12, 12, v12);
    let p13 = p12 + opt_pair(keys[12], v12);
    lemma_next_key(p13, 13, v13);
    let p14 = p13 + opt_pair(keys[13], v13);
    lemma_next_key(p14, 14, v14);
    let p15 = p14 + opt_pair(keys[14], v14);
    lemma_next_key(p15, 15, v15);
    let p16 = p15 + opt_pair(keys[15], v15);
    lemma_next_key(p16, 16, v16);
    let p17 = p16 + opt_pair(keys[16], v16);
    lemma_next_key(p17, 17, v17);
    let p18 = p17 + opt_pair(keys[17], v17);
    lemma_next_key(p18, 18, v18);
    let p19 = p18 + opt_pair(keys[18], v18);
    assert(p19 =~= entry.pairs());
    lemma_pair_keys();
    assert forall|i: int| 0 <= i < entry.pairs().len() implies query::is_writable(
        #[trigger] entry.pairs()[i],
    ) by {
        let k = keys.take(19).index_of(entry.pairs()[i].0);
        assert(keys[k] == entry.pairs()[i].0);
    }
    parse::law_text_form_builds(scheme, body, name, entry.pairs());
}

// ---------------------------------------------------------------- files

/// The tables of a configuration file. An endpoint table that could not be read stands as
/// the reason.
#[derive(Debug)]
pub struct TomlFile {
    pub log_level: Option<LogLevel>,
    pub log_format: Option<LogFormat>,
    pub stats: Option<bool>,
    pub stats_interval_secs: Option<u64>,
    pub dedup_ms: Option<u64>,
    pub skip_config_log: Option<bool>,
    /// Name and table of each endpoint, in the order of the file.
    pub endpoint: Vec<(String, Result<TomlEndpoint, String>)>,
}

/// The endpoint that one table describes.
pub open spec fn entry_spec(entry: (String, Result<TomlEndpoint, String>)) -> Result<
    EndpointSpecView,
    ErrorView,
> {
    match entry.1 {
        Ok(e) => e.described(entry.0@),
        Err(reason) => Err(ErrorView::ConfigParse(reason@)),
    }
}

/// The endpoints behind `done` that the tables from position `from` on describe, or what is
/// wrong with the first that describes none.
pub open spec fn entries_from(
    entries: Seq<(String, Result<TomlEndpoint, String>)>,
    from: nat,
    done: Seq<EndpointSpecView>,
) -> Result<Seq<EndpointSpecView>, ErrorView>
    decreases entries.len() - from,
{
    if from >= entries.len() {
        Ok(done)
    } else {
        match entry_spec(entries[from as int]) {
            Ok(s) => entries_from(entries, from + 1, done.push(s)),
            Err(e) => Err(e),
        }
    }
}

impl TomlFile {
    /// What the file says, or what is wrong with its first wrong endpoint.
    pub fn into_toml_config(self) -> (r: Result<TomlConfig, Error>)
        ensures
            match r {
                Ok(c) => {
                    &&& c.log_level == self.log_level
                    &&& c.log_format == self.log_format
                    &&& c.stats == self.stats
                    &&& c.stats_interval_secs == self.stats_interval_secs
                    &&& c.dedup_ms == self.dedup_ms
                    &&& c.skip_config_log == self.skip_config_log
                    &&& entries_from(self.endpoint@, 0, Seq::empty()) == Ok::<_, ErrorView>(
                        cli::spec_views(c.endpoints@),
                    )
                },
                Err(e) => entries_from(self.endpoint@, 0, Seq::empty()) == Err::<
                    Seq<EndpointSpecView>,
                    _,
                >(e@),
            },
    {
        let ghost entries = self.endpoint@;
        let mut endpoints: Vec<EndpointSpec> = Vec::new();
        assert(cli::spec_views(endpoints@) =~= Seq::empty());
        for entry in it: self.endpoint.into_iter()
            invariant
                it.seq() == entries,
                entries_from(entries, 0, Seq::empty()) == entries_from(
                    entries,
                    it.index() as nat,
                    cli::spec_views(endpoints@),
                ),
        {
            let (name, table) = entry;
            match table {
                Ok(e) => {
                    match e.into_spec(name.as_str()) {
                        Ok(spec) => {
                            let ghost before = cli::spec_views(endpoints@);
                            endpoints.push(spec);
                            assert(cli::spec_views(endpoints@) =~= before.push(spec@));
                        },
                        Err(err) => {
                            return Err(err);
                        },
                    }
                },
                Err(reason) => {
                    return Err(Error::ConfigParse(reason));
                },
            }
        }
        Ok(
            TomlConfig {
                log_level: self.log_level,
                log_format: self.log_format,
                stats: self.stats,
                stats_interval_secs: self.stats_interval_secs,
                dedup_ms: self.dedup_ms,
                skip_config_log: self.skip_config_log,
                endpoints,
            },
        )
    }
}

/// The body that a host and a port make up reads back as that host and port, be the host a
/// name, an IPv4 or an IPv6 address. Where one of them is not given, the field is named,
/// the host first.
pub proof fn law_host_and_port_read_back(entry: TomlEndpoint, name: Seq<char>, scheme: Scheme)
    requires
        scheme == Scheme::UdpClient || scheme == Scheme::TcpClient,
        entry.host matches Some(host) ==> host@.len() > 0 && !host@.contains('[')
            && !host@.contains(']'),
    ensures
        match (entry.host, entry.port) {
            (Some(host), Some(port)) => {
                entry.body(name, scheme) matches Ok(body) && parse::host_port_spec(body, scheme)
                    == Ok::<_, SpecErrorView>((host@, port))
            },
            (None, _) => entry.body(name, scheme) == Err::<Seq<char>, _>(
                missing_error(name, scheme, "host"@),
            ),
            (Some(_), None) => entry.body(name, scheme) == Err::<Seq<char>, _>(
                missing_error(name, scheme, "port"@),
            ),
        },
{
    if let (Some(host), Some(port)) = (entry.host, entry.port) {
        let d = text::decimal_spec(port as nat);
        reveal_strlit("[");
        reveal_strlit("]:");
        reveal_strlit(":");
        assert("["@ + host@ + "]:"@ + d =~= seq!['['] + host@ + seq![']', ':'] + d);
        assert(host@ + ":"@ + d =~= host@.push(':') + d);
        assert(host@.contains(host@[0]));
        parse::law_host_port_reads_back(host@, port, scheme);
    }
}

/// One more optional pair.
proof fn lemma_opt_pair(
    pairs: Seq<(Seq<char>, Seq<char>)>,
    key: Seq<char>,
    value: Option<Seq<char>>,
    pair: (Seq<char>, Seq<char>),
)
    ensures
        (pairs + opt_pair(key, value)).contains(pair) <==> pairs.contains(pair) || (pair.0 == key
            && value == Some(pair.1)),
{
    let all = pairs + opt_pair(key, value);
    if pairs.contains(pair) {
        let i = pairs.index_of(pair);
        assert(all[i] == pair);
    }
    if value == Some(pair.1) && pair.0 == key {
        assert(all[pairs.len() as int] == pair);
    }
    if all.contains(pair) {
        let i = all.index_of(pair);
        if i < pairs.len() {
            assert(pairs[i] == pair);
        }
    }
}

/// The settings of an entry are its fields that are there, each under its own name: a text as
/// it stands, a number in decimal, and a flag as `true` or `false`.
pub proof fn law_settings_are_the_fields(entry: TomlEndpoint, key: Seq<char>, value: Seq<char>)
    ensures
        entry.pairs().contains((key, value)) <==> {
            ||| key == "flow_control"@ && (entry.flow_control matches Some(s) && s@ == value)
            ||| key == "idle_secs"@ && (entry.idle_secs matches Some(n) && text::decimal_spec(n as nat)
                == value)
            ||| key == "latch_idle_secs"@ && (entry.latch_idle_secs matches Some(n) && text::decimal_spec(n as nat)
                == value)
            ||| key == "sniffer"@ && (entry.sniffer matches Some(b) && (b && value == "true"@ || !b
                && value == "false"@))
            ||| key == "group"@ && (entry.group matches Some(s) && s@ == value)
            ||| key == "allow_msgid_in"@ && (entry.allow_msgid_in matches Some(s) && s@ == value)
            ||| key == "block_msgid_in"@ && (entry.block_msgid_in matches Some(s) && s@ == value)
            ||| key == "allow_msgid_out"@ && (entry.allow_msgid_out matches Some(s) && s@ == value)
            ||| key == "block_msgid_out"@ && (entry.block_msgid_out matches Some(s) && s@ == value)
            ||| key == "allow_src_sys_in"@ && (entry.allow_src_sys_in matches Some(s) && s@ == value)
            ||| key == "block_src_sys_in"@ && (entry.block_src_sys_in matches Some(s) && s@ == value)
            ||| key == "allow_src_sys_out"@ && (entry.allow_src_sys_out matches Some(s) && s@ == value)
            ||| key == "block_src_sys_out"@ && (entry.block_src_sys_out matches Some(s) && s@ == value)
            ||| key == "allow_src_comp_in"@ && (entry.allow_src_comp_in matches Some(s) && s@ == value)
            ||| key == "block_src_comp_in"@ && (entry.block_src_comp_in matches Some(s) && s@ == value)
            ||| key == "allow_src_comp_out"@ && (entry.allow_src_comp_out matches Some(s) && s@ == value)
            ||| key == "block_src_comp_out"@ && (entry.block_src_comp_out matches Some(s) && s@ == value)
            ||| key == "allow_src_endpoint_out"@ && (entry.allow_src_endpoint_out matches Some(s) && s@ == value)
            ||| key == "block_src_endpoint_out"@ && (entry.block_src_endpoint_out matches Some(s) && s@ == value)
        },
{
    let pair = (key, value);
    let p0 = Seq::<(Seq<char>, Seq<char>)>::empty();
    lemma_opt_pair(p0, "flow_control"@, identity_flags::opt_string(entry.flow_control), pair);
    let p1 = opt_pair("flow_control"@, identity_flags::opt_string(entry.flow_control));
    assert(p0 + p1 =~= p1);
    lemma_opt_pair(p1, "idle_secs"@, opt_number(entry.idle_secs), pair);
    let p2 = p1 + opt_pair("idle_secs"@, opt_number(entry.idle_secs));
    lemma_opt_pair(p2, "latch_idle_secs"@, opt_number(entry.latch_idle_secs), pair);
    let p3 = p2 + opt_pair("latch_idle_secs"@, opt_number(entry.latch_idle_secs));
    lemma_opt_pair(p3, "sniffer"@, opt_flag(entry.sniffer), pair);
    let p4 = p3 + opt_pair("sniffer"@, opt_flag(entry.sniffer));
    lemma_opt_pair(p4, "group"@, identity_flags::opt_string(entry.group), pair);
    let p5 = p4 + opt_pair("group"@, identity_flags::opt_string(entry.group));
    lemma_opt_pair(p5, "allow_msgid_in"@, identity_flags::opt_string(entry.allow_msgid_in), pair);
    let p6 = p5 + opt_pair("allow_msgid_in"@, identity_flags::opt_string(entry.allow_msgid_in));
    lemma_opt_pair(p6, "block_msgid_in"@, identity_flags::opt_string(entry.block_msgid_in), pair);
    let p7 = p6 + opt_pair("block_msgid_in"@, identity_flags::opt_string(entry.block_msgid_in));
    lemma_opt_pair(p7, "allow_msgid_out"@, identity_flags::opt_string(entry.allow_msgid_out), pair);
    let p8 = p7 + opt_pair("allow_msgid_out"@, identity_flags::opt_string(entry.allow_msgid_out));
    lemma_opt_pair(p8, "block_msgid_out"@, identity_flags::opt_string(entry.block_msgid_out), pair);
    let p9 = p8 + opt_pair("block_msgid_out"@, identity_flags::opt_string(entry.block_msgid_out));
    lemma_opt_pair(p9, "allow_src_sys_in"@, identity_flags::opt_string(entry.allow_src_sys_in), pair);
    let p10 = p9 + opt_pair("allow_src_sys_in"@, identity_flags::opt_string(entry.allow_src_sys_in));
    lemma_opt_pair(p10, "block_src_sys_in"@, identity_flags::opt_string(entry.block_src_sys_in), pair);
    let p11 = p10 + opt_pair("block_src_sys_in"@, identity_flags::opt_string(entry.block_src_sys_in));
    lemma_opt_pair(p11, "allow_src_sys_out"@, identity_flags::opt_string(entry.allow_src_sys_out), pair);
    let p12 = p11 + opt_pair("allow_src_sys_out"@, identity_flags::opt_string(entry.allow_src_sys_out));
    lemma_opt_pair(p12, "block_src_sys_out"@, identity_flags::opt_string(entry.block_src_sys_out), pair);
    let p13 = p12 + opt_pair("block_src_sys_out"@, identity_flags::opt_string(entry.block_src_sys_out));
    lemma_opt_pair(p13, "allow_src_comp_in"@, identity_flags::opt_string(entry.allow_src_comp_in), pair);
    let p14 = p13 + opt_pair("allow_src_comp_in"@, identity_flags::opt_string(entry.allow_src_comp_in));
    lemma_opt_pair(p14, "block_src_comp_in"@, identity_flags::opt_string(entry.block_src_comp_in), pair);
    let p15 = p14 + opt_pair("block_src_comp_in"@, identity_flags::opt_string(entry.block_src_comp_in));
    lemma_opt_pair(p15, "allow_src_comp_out"@, identity_flags::opt_string(entry.allow_src_comp_out), pair);
    let p16 = p15 + opt_pair("allow_src_comp_out"@, identity_flags::opt_string(entry.allow_src_comp_out));
    lemma_opt_pair(p16, "block_src_comp_out"@, identity_flags::opt_string(entry.block_src_comp_out), pair);
    let p17 = p16 + opt_pair("block_src_comp_out"@, identity_flags::opt_string(entry.block_src_comp_out));
    lemma_opt_pair(p17, "allow_src_endpoint_out"@, identity_flags::opt_string(entry.allow_src_endpoint_out), pair);
    let p18 = p17 + opt_pair("allow_src_endpoint_out"@, identity_flags::opt_string(entry.allow_src_endpoint_out));
    lemma_opt_pair(p18, "block_src_endpoint_out"@, identity_flags::opt_string(entry.block_src_endpoint_out), pair);
    let p19 = p18 + opt_pair("block_src_endpoint_out"@, identity_flags::opt_string(entry.block_src_endpoint_out));
}

/// No field that is there is left unchecked.
proof fn lemma_first_disallowed(
    provided: Seq<(Seq<char>, bool)>,
    allowed: Seq<Seq<char>>,
    from: nat,
)
    ensures
        first_disallowed(provided, allowed, from) is None <==> forall|i: int|
            from <= i < provided.len() && (#[trigger] provided[i]).1 ==> allowed.contains(
                provided[i].0,
            ),
    decreases provided.len() - from,
{
    if from < provided.len() {
        lemma_first_disallowed(provided, allowed, from + 1);
    }
}

/// Which fields go with which scheme: a device, a speed and flow control with `serial`, an
/// address to listen at with `udps` and `tcps`, a host and a port with `udpc` and `tcpc`, and
/// the idle times with `udps` and `udpc`. An entry with any other of them is refused.
pub proof fn law_fields_go_with_their_scheme(
    entry: TomlEndpoint,
    name: Seq<char>,
    scheme: Scheme,
)
    requires
        scheme::scheme_spec(entry.scheme@) == Some(scheme),
    ensures
        ({
            let fits = {
                &&& entry.path is Some || entry.baud is Some || entry.flow_control is Some
                    ==> scheme is Serial
                &&& entry.bind is Some ==> scheme is UdpServer || scheme is TcpServer
                &&& entry.host is Some || entry.port is Some ==> scheme is UdpClient
                    || scheme is TcpClient
                &&& entry.idle_secs is Some ==> scheme is UdpServer
                &&& entry.latch_idle_secs is Some ==> scheme is UdpClient
            };
            &&& fits <==> first_disallowed(entry.provided(), allowed_spec(scheme), 0) is None
            &&& !fits ==> (entry.described(name) matches Err(e) && e is ConfigSchema)
        }),
{
    reveal_strlit("path");
    reveal_strlit("baud");
    reveal_strlit("flow_control");
    reveal_strlit("bind");
    reveal_strlit("host");
    reveal_strlit("port");
    reveal_strlit("idle_secs");
    reveal_strlit("latch_idle_secs");
    let p = entry.provided();
    let allowed = allowed_spec(scheme);
    lemma_first_disallowed(p, allowed, 0);
    let names = seq![
        "path"@,
        "baud"@,
        "flow_control"@,
        "bind"@,
        "host"@,
        "port"@,
        "idle_secs"@,
        "latch_idle_secs"@,
    ];
    assert(names[0].len() == 4 && names[0][0] == 'p' && names[0][1] == 'a');
    assert(names[1].len() == 4 && names[1][0] == 'b' && names[1][1] == 'a');
    assert(names[2].len() == 12);
    assert(names[3].len() == 4 && names[3][0] == 'b' && names[3][1] == 'i');
    assert(names[4].len() == 4 && names[4][0] == 'h');
    assert(names[5].len() == 4 && names[5][0] == 'p' && names[5][1] == 'o');
    assert(names[6].len() == 9);
    assert(names[7].len() == 15);
    assert forall|i: int, j: int| 0 <= i < 8 && 0 <= j < 8 && i != j implies names[i]
        != names[j] by {
        if names[i] == names[j] {
            assert(names[i][0] == names[j][0]);
            assert(names[i][1] == names[j][1]);
        }
    }
    assert forall|i: int| 0 <= i < 8 implies (#[trigger] p[i]).0 == names[i] by {}
    assert(allowed.contains(names[0]) == (scheme is Serial)) by {
        lemma_allowed(scheme, names, 0);
    }
    assert(allowed.contains(names[1]) == (scheme is Serial)) by {
        lemma_allowed(scheme, names, 1);
    }
    assert(allowed.contains(names[2]) == (scheme is Serial)) by {
        lemma_allowed(scheme, names, 2);
    }
    assert(allowed.contains(names[3]) == (scheme is UdpServer || scheme is TcpServer)) by {
        lemma_allowed(scheme, names, 3);
    }
    assert(allowed.contains(names[4]) == (scheme is UdpClient || scheme is TcpClient)) by {
        lemma_allowed(scheme, names, 4);
    }
    assert(allowed.contains(names[5]) == (scheme is UdpClient || scheme is TcpClient)) by {
        lemma_allowed(scheme, names, 5);
    }
    assert(allowed.contains(names[6]) == (scheme is UdpServer)) by {
        lemma_allowed(scheme, names, 6);
    }
    assert(allowed.contains(names[7]) == (scheme is UdpClient)) by {
        lemma_allowed(scheme, names, 7);
    }
    assert(p[0].1 == (entry.path is Some) && p[1].1 == (entry.baud is Some) && p[2].1 == (
    entry.flow_control is Some) && p[3].1 == (entry.bind is Some) && p[4].1 == (entry.host is Some)
        && p[5].1 == (entry.port is Some) && p[6].1 == (entry.idle_secs is Some) && p[7].1 == (
    entry.latch_idle_secs is Some));
}

/// Whether the field number `i` goes with a scheme.
proof fn lemma_allowed(scheme: Scheme, names: Seq<Seq<char>>, i: int)
    requires
        names == seq![
            "path"@,
            "baud"@,
            "flow_control"@,
            "bind"@,
            "host"@,
            "port"@,
            "idle_secs"@,
            "latch_idle_secs"@,
        ],
        0 <= i < 8,
        forall|a: int, b: int| 0 <= a < 8 && 0 <= b < 8 && a != b ==> names[a] != names[b],
    ensures
        allowed_spec(scheme).contains(names[i]) <==> match scheme {
            Scheme::Serial => i == 0 || i == 1 || i == 2,
            Scheme::UdpServer => i == 3 || i == 6,
            Scheme::TcpServer => i == 3,
            Scheme::UdpClient => i == 4 || i == 5 || i == 7,
            Scheme::TcpClient => i == 4 || i == 5,
        },
{
    let allowed = allowed_spec(scheme);
    match scheme {
        Scheme::Serial => {
            assert(allowed[0] == names[0] && allowed[1] == names[1] && allowed[2] == names[2]);
        },
        Scheme::UdpServer => {
            assert(allowed[0] == names[3] && allowed[1] == names[6]);
        },
        Scheme::TcpServer => {
            assert(allowed[0] == names[3]);
        },
        Scheme::UdpClient => {
            assert(allowed[0] == names[4] && allowed[1] == names[5] && allowed[2] == names[7]);
        },
        Scheme::TcpClient => {
            assert(allowed[0] == names[4] && allowed[1] == names[5]);
        },
    }
}

/// What a `serial`, `udps` or `tcps` entry must have, and the body that it makes up: the path
/// and the speed with a colon between them, or the address as it stands.
pub proof fn law_body_of_an_entry(entry: TomlEndpoint, name: Seq<char>)
    ensures
        match (entry.path, entry.baud) {
            (Some(path), Some(baud)) => entry.body(name, Scheme::Serial) == Ok::<_, ErrorView>(
                path@ + seq![':'] + text::decimal_spec(baud as nat),
            ),
            _ => entry.body(name, Scheme::Serial) matches Err(e) && e is ConfigSchema,
        },
        match entry.bind {
            Some(bind) => entry.body(name, Scheme::UdpServer) == Ok::<_, ErrorView>(bind@)
                && entry.body(name, Scheme::TcpServer) == Ok::<_, ErrorView>(bind@),
            None => entry.body(name, Scheme::UdpServer) is Err && entry.body(
                name,
                Scheme::TcpServer,
            ) is Err,
        },
{
    reveal_strlit(":");
    assert(":"@ =~= seq![':']);
}

/// What one table gives.
#[verifier::opaque]
spec fn table_outcome(entry: (String, Result<TomlEndpoint, String>)) -> Result<
    EndpointSpecView,
    ErrorView,
> {
    entry_spec(entry)
}

/// The tables from position `from` on, by the first of them.
proof fn lemma_entries_step(
    entries: Seq<(String, Result<TomlEndpoint, String>)>,
    from: nat,
    done: Seq<EndpointSpecView>,
)
    requires
        from < entries.len(),
    ensures
        entries_from(entries, from, done) == match table_outcome(entries[from as int]) {
            Ok(s) => entries_from(entries, from + 1, done.push(s)),
            Err(e) => Err(e),
        },
{
    reveal(table_outcome);
}

/// The tables from position `from` on, one for each endpoint.
proof fn lemma_entries_in_order(
    entries: Seq<(String, Result<TomlEndpoint, String>)>,
    from: nat,
    done: Seq<EndpointSpecView>,
    result: Result<Seq<EndpointSpecView>, ErrorView>,
)
    requires
        from == done.len() <= entries.len(),
        result == entries_from(entries, from, done),
    ensures
        match result {
            Ok(v) => {
                &&& v.len() == entries.len()
                &&& v.take(from as int) == done
                &&& forall|i: int|
                    from <= i < entries.len() ==> table_outcome(#[trigger] entries[i]) == Ok::<
                        _,
                        ErrorView,
                    >(v[i])
            },
            Err(e) => exists|i: int|
                from <= i < entries.len() && table_outcome(#[trigger] entries[i]) == Err::<
                    EndpointSpecView,
                    _,
                >(e) && forall|j: int|
                    from <= j < i ==> table_outcome(#[trigger] entries[j]) is Ok,
        },
    decreases entries.len() - from,
{
    if from < entries.len() {
        lemma_entries_step(entries, from, done);
        match table_outcome(entries[from as int]) {
            Ok(s) => {
                lemma_entries_in_order(entries, from + 1, done.push(s), result);
                match result {
                    Ok(v) => {
                        assert(v.take(from as int) =~= v.take((from + 1) as int).take(from as int));
                        assert(done.push(s).take(from as int) =~= done);
                        assert(v[from as int] == v.take((from + 1) as int)[from as int]);
                    },
                    Err(_) => {},
                }
            },
            Err(_) => {},
        }
    } else {
        assert(done.take(from as int) =~= done);
    }
}

/// Each table of a file gives one endpoint, in the order of the file; an error is that of the
/// first table that describes none.
pub proof fn law_entries_in_order(
    entries: Seq<(String, Result<TomlEndpoint, String>)>,
    result: Result<Seq<EndpointSpecView>, ErrorView>,
)
    requires
        result == entries_from(entries, 0, Seq::empty()),
    ensures
        match result {
            Ok(v) => v.len() == entries.len() && forall|i: int|
                0 <= i < entries.len() ==> entry_spec(#[trigger] entries[i]) == Ok::<_, ErrorView>(
                    v[i],
                ),
            Err(e) => exists|i: int|
                0 <= i < entries.len() && entry_spec(#[trigger] entries[i]) == Err::<
                    EndpointSpecView,
                    _,
                >(e) && forall|j: int|
                    0 <= j < i ==> entry_spec(#[trigger] entries[j]) is Ok,
        },
{
    lemma_entries_in_order(entries, 0, Seq::empty(), result);
    reveal(table_outcome);
}

/// A table that could not be read is an error of the file.
pub proof fn law_unreadable_tables_are_reported(name: String, reason: String)
    ensures
        entry_spec((name, Err::<TomlEndpoint, String>(reason))) == Err::<EndpointSpecView, _>(
            ErrorView::ConfigParse(reason@),
        ),
{
}

/// An entry whose type is no scheme is refused.
pub proof fn law_unknown_types_are_refused(entry: TomlEndpoint, name: Seq<char>)
    requires
        scheme::scheme_spec(entry.scheme@) is None,
    ensures
        entry.described(name) matches Err(e) && e is ConfigSchema,
{
}

} // verus!

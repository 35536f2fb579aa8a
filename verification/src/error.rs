//! What can be wrong with a configuration.

use vstd::prelude::*;
use vstd::string::StringExecFns;

use crate::endpoint::spec::error::{SpecError, SpecErrorView};
use crate::text;
use crate::text::decimal;

verus! {

/// What is wrong with a configuration.
#[allow(inconsistent_fields)]
#[derive(Debug)]
pub enum Error {
    /// An endpoint on the command line. `index` counts from 0, the message from 1.
    SpecInArg { index: usize, arg: String, source: SpecError },
    /// An `[endpoint.NAME]` entry of a configuration file.
    SpecInToml { name: String, source: SpecError },
    /// Two endpoints with one name.
    DuplicateName(String),
    /// A configuration file that could not be read, and why.
    ConfigIo { path: String, source: String },
    /// A configuration file that is no valid TOML, and why.
    ConfigParse(String),
    /// An `[endpoint.NAME]` entry that lacks a field, or has one that its type does not.
    ConfigSchema { name: String, reason: String },
    DedupMsTooLarge { requested: u64, max: u64 },
    StatsIntervalTooSmall { requested: u64, min: u64 },
    FilterReferencesUnknownEndpoint {
        endpoint_name: String,
        axis: &'static str,
        referenced_name: String,
    },
}

/// The view of an `Error`: the same with its texts as characters.
#[allow(inconsistent_fields)]
pub enum ErrorView {
    SpecInArg { index: usize, arg: Seq<char>, source: SpecErrorView },
    SpecInToml { name: Seq<char>, source: SpecErrorView },
    DuplicateName(Seq<char>),
    ConfigIo { path: Seq<char>, source: Seq<char> },
    ConfigParse(Seq<char>),
    ConfigSchema { name: Seq<char>, reason: Seq<char> },
    DedupMsTooLarge { requested: u64, max: u64 },
    StatsIntervalTooSmall { requested: u64, min: u64 },
    FilterReferencesUnknownEndpoint {
        endpoint_name: Seq<char>,
        axis: Seq<char>,
        referenced_name: Seq<char>,
    },
}

impl View for Error {
    type V = ErrorView;

    open spec fn view(&self) -> ErrorView {
        match self {
            Error::SpecInArg { index, arg, source } => ErrorView::SpecInArg {
                index: *index,
                arg: arg@,
                source: source@,
            },
            Error::SpecInToml { name, source } => ErrorView::SpecInToml {
                name: name@,
                source: source@,
            },
            Error::DuplicateName(n) => ErrorView::DuplicateName(n@),
            Error::ConfigIo { path, source } => ErrorView::ConfigIo {
                path: path@,
                source: source@,
            },
            Error::ConfigParse(t) => ErrorView::ConfigParse(t@),
            Error::ConfigSchema { name, reason } => ErrorView::ConfigSchema {
                name: name@,
                reason: reason@,
            },
            Error::DedupMsTooLarge { requested, max } => ErrorView::DedupMsTooLarge {
                requested: *requested,
                max: *max,
            },
            Error::StatsIntervalTooSmall { requested, min } => ErrorView::StatsIntervalTooSmall {
                requested: *requested,
                min: *min,
            },
            Error::FilterReferencesUnknownEndpoint { endpoint_name, axis, referenced_name } => {
                ErrorView::FilterReferencesUnknownEndpoint {
                    endpoint_name: endpoint_name@,
                    axis: axis@,
                    referenced_name: referenced_name@,
                }
            },
        }
    }
}

impl ErrorView {
    /// The message for an operator.
    pub open spec fn message(self) -> Seq<char> {
        match self {
            ErrorView::SpecInArg { index, arg, source } => "invalid endpoint #"@
                + text::decimal_spec((index + 1) as nat) + " '"@ + arg + "': "@ + source.message(),
            ErrorView::SpecInToml { name, source } => "invalid endpoint [endpoint."@ + name
                + "]: "@ + source.message(),
            ErrorView::DuplicateName(n) => "duplicate endpoint name '"@ + n + "'"@,
            ErrorView::ConfigIo { path, source } => "failed to read config '"@ + path + "': "@
                + source,
            ErrorView::ConfigParse(t) => "failed to parse config TOML: "@ + t,
            ErrorView::ConfigSchema { name, reason } => "invalid endpoint [endpoint."@ + name
                + "]: "@ + reason,
            ErrorView::DedupMsTooLarge { requested, max } => "dedup_ms = "@ + text::decimal_spec(
                requested as nat,
            ) + "ms exceeds maximum of "@ + text::decimal_spec(max as nat) + "ms"@,
            ErrorView::StatsIntervalTooSmall { requested, min } => "stats_interval_secs = "@
                + text::decimal_spec(requested as nat) + "s is below minimum of "@
                + text::decimal_spec(min as nat) + "s"@,
            ErrorView::FilterReferencesUnknownEndpoint { endpoint_name, axis, referenced_name } => {
                "endpoint '"@ + endpoint_name + "' filter "@ + axis + ": '"@ + referenced_name
                    + "' is not a declared endpoint name"@
            },
        }
    }
}

impl Error {
    /// The message for an operator.
    pub fn message(&self) -> (r: String)
        requires
            *self matches Error::SpecInArg { index, .. } ==> index < usize::MAX,
        ensures
            r@ == self@.message(),
    {
        match self {
            Error::SpecInArg { index, arg, source } => String::from_str(
                "invalid endpoint #",
            ).concat(decimal((*index + 1) as u64).as_str()).concat(" '").concat(
                arg.as_str(),
            ).concat("': ").concat(source.message().as_str()),
            Error::SpecInToml { name, source } => String::from_str(
                "invalid endpoint [endpoint.",
            ).concat(name.as_str()).concat("]: ").concat(source.message().as_str()),
            Error::DuplicateName(n) => String::from_str("duplicate endpoint name '").concat(
                n.as_str(),
            ).concat("'"),
            Error::ConfigIo { path, source } => String::from_str(
                "failed to read config '",
            ).concat(path.as_str()).concat("': ").concat(source.as_str()),
            Error::ConfigParse(t) => String::from_str("failed to parse config TOML: ").concat(
                t.as_str(),
            ),
            Error::ConfigSchema { name, reason } => String::from_str(
                "invalid endpoint [endpoint.",
            ).concat(name.as_str()).concat("]: ").concat(reason.as_str()),
            Error::DedupMsTooLarge { requested, max } => String::from_str("dedup_ms = ").concat(
                decimal(*requested).as_str(),
            ).concat("ms exceeds maximum of ").concat(decimal(*max).as_str()).concat("ms"),
            Error::StatsIntervalTooSmall { requested, min } => String::from_str(
                "stats_interval_secs = ",
            ).concat(decimal(*requested).as_str()).concat("s is below minimum of ").concat(
                decimal(*min).as_str(),
            ).concat("s"),
            Error::FilterReferencesUnknownEndpoint { endpoint_name, axis, referenced_name } => {
                String::from_str("endpoint '").concat(endpoint_name.as_str()).concat(
                    "' filter ",
                ).concat(axis).concat(": '").concat(referenced_name.as_str()).concat(
                    "' is not a declared endpoint name",
                )
            },
        }
    }
}

} // verus!

//! What can be wrong with an endpoint specification.

use vstd::prelude::*;
use vstd::string::StringExecFns;

use crate::endpoint::spec::scheme::Scheme;

verus! {

/// What is wrong with an endpoint specification.
#[allow(inconsistent_fields)]
#[derive(Debug, PartialEq, Eq)]
pub enum SpecError {
    MissingScheme(String),
    UnknownScheme(String),
    InvalidName(String),
    UnknownQueryKey { scheme: Scheme, key: String, suggestion: Option<&'static str> },
    MalformedQuery(String),
    DuplicateQueryKey(String),
    MalformedBody { scheme: Scheme, body: String, reason: String },
    InvalidQueryValue { key: &'static str, reason: String },
}

/// The view of a `SpecError`: the same with its texts as characters.
pub enum SpecErrorView {
    MissingScheme(Seq<char>),
    UnknownScheme(Seq<char>),
    InvalidName(Seq<char>),
    UnknownQueryKey { scheme: Scheme, key: Seq<char>, suggestion: Option<Seq<char>> },
    MalformedQuery(Seq<char>),
    DuplicateQueryKey(Seq<char>),
    MalformedBody { scheme: Scheme, body: Seq<char>, reason: Seq<char> },
    InvalidQueryValue { key: Seq<char>, reason: Seq<char> },
}

/// The characters of an optional text.
pub open spec fn opt_text(s: Option<&str>) -> Option<Seq<char>> {
    match s {
        Some(t) => Some(t@),
        None => None,
    }
}

impl View for SpecError {
    type V = SpecErrorView;

    open spec fn view(&self) -> SpecErrorView {
        match self {
            SpecError::MissingScheme(t) => SpecErrorView::MissingScheme(t@),
            SpecError::UnknownScheme(t) => SpecErrorView::UnknownScheme(t@),
            SpecError::InvalidName(t) => SpecErrorView::InvalidName(t@),
            SpecError::UnknownQueryKey { scheme, key, suggestion } => {
                SpecErrorView::UnknownQueryKey {
                    scheme: *scheme,
                    key: key@,
                    suggestion: opt_text(*suggestion),
                }
            },
            SpecError::MalformedQuery(t) => SpecErrorView::MalformedQuery(t@),
            SpecError::DuplicateQueryKey(t) => SpecErrorView::DuplicateQueryKey(t@),
            SpecError::MalformedBody { scheme, body, reason } => {
                SpecErrorView::MalformedBody { scheme: *scheme, body: body@, reason: reason@ }
            },
            SpecError::InvalidQueryValue { key, reason } => {
                SpecErrorView::InvalidQueryValue { key: key@, reason: reason@ }
            },
        }
    }
}

/// The hint that follows an unknown key.
pub open spec fn suggestion_text(suggestion: Option<Seq<char>>) -> Seq<char> {
    match suggestion {
        Some(t) => " (did you mean '"@ + t + "'?)"@,
        None => Seq::empty(),
    }
}

impl SpecErrorView {
    /// The message for an operator.
    pub open spec fn message(self) -> Seq<char> {
        match self {
            SpecErrorView::MissingScheme(t) => "missing scheme in '"@ + t
                + "' (expected one of: 'serial:', 'udps:', 'udpc:', 'tcps:', 'tcpc:')"@,
            SpecErrorView::UnknownScheme(t) => "unknown scheme '"@ + t
                + "' (valid: serial, udps, udpc, tcps, tcpc)"@,
            SpecErrorView::InvalidName(t) => "invalid endpoint name '"@ + t
                + "': must match [A-Za-z0-9_-]{1,64}"@,
            SpecErrorView::UnknownQueryKey { scheme, key, suggestion } => "unknown query key '"@
                + key + "' for scheme '"@ + scheme.text() + "'"@ + suggestion_text(suggestion),
            SpecErrorView::MalformedQuery(t) => "malformed query string: "@ + t,
            SpecErrorView::DuplicateQueryKey(t) => "duplicate query key '"@ + t + "'"@,
            SpecErrorView::MalformedBody { scheme, body, reason } => "malformed body for scheme '"@
                + scheme.text() + "': '"@ + body + "' ("@ + reason + ")"@,
            SpecErrorView::InvalidQueryValue { key, reason } => "invalid value for '"@ + key
                + "': "@ + reason,
        }
    }
}

impl SpecError {
    /// The message for an operator.
    pub fn message(&self) -> (r: String)
        ensures
            r@ == self@.message(),
    {
        match self {
            SpecError::MissingScheme(t) => String::from_str("missing scheme in '").concat(
                t.as_str(),
            ).concat("' (expected one of: 'serial:', 'udps:', 'udpc:', 'tcps:', 'tcpc:')"),
            SpecError::UnknownScheme(t) => String::from_str("unknown scheme '").concat(
                t.as_str(),
            ).concat("' (valid: serial, udps, udpc, tcps, tcpc)"),
            SpecError::InvalidName(t) => String::from_str("invalid endpoint name '").concat(
                t.as_str(),
            ).concat("': must match [A-Za-z0-9_-]{1,64}"),
            SpecError::UnknownQueryKey { scheme, key, suggestion } => String::from_str(
                "unknown query key '",
            ).concat(key.as_str()).concat("' for scheme '").concat(scheme.as_str()).concat(
                "'",
            ).concat(fmt_suggestion(*suggestion).as_str()),
            SpecError::MalformedQuery(t) => String::from_str("malformed query string: ").concat(
                t.as_str(),
            ),
            SpecError::DuplicateQueryKey(t) => String::from_str("duplicate query key '").concat(
                t.as_str(),
            ).concat("'"),
            SpecError::MalformedBody { scheme, body, reason } => String::from_str(
                "malformed body for scheme '",
            ).concat(scheme.as_str()).concat("': '").concat(body.as_str()).concat("' (").concat(
                reason.as_str(),
            ).concat(")"),
            SpecError::InvalidQueryValue { key, reason } => String::from_str(
                "invalid value for '",
            ).concat(key).concat("': ").concat(reason.as_str()),
        }
    }
}

/// The hint that follows an unknown key.
fn fmt_suggestion(suggestion: Option<&'static str>) -> (r: String)
    ensures
        r@ == suggestion_text(opt_text(suggestion)),
{
    match suggestion {
        Some(t) => String::from_str(" (did you mean '").concat(t).concat("'?)"),
        None => String::new(),
    }
}

/// An `InvalidQueryValue` whose reason is `a`, `b`, `c` in a row.
pub fn invalid_value(key: &'static str, a: &str, b: &str, c: &str) -> (r: SpecError)
    ensures
        r@ == (SpecErrorView::InvalidQueryValue { key: key@, reason: a@ + b@ + c@ }),
{
    SpecError::InvalidQueryValue { key, reason: String::from_str(a).concat(b).concat(c) }
}

} // verus!

//! What an endpoint is to the router: its filters, whether it sniffs, and its group.

use vstd::prelude::*;

use crate::endpoint::filters;
use crate::endpoint::filters::{Filters, FiltersView};
use crate::endpoint::spec::error::{invalid_value, SpecError, SpecErrorView};
use crate::endpoint::spec::names;
use crate::endpoint::spec::names::name_matches_regex;
use crate::text;
use crate::text::text_eq;

verus! {

/// How many nodes the router remembers per endpoint.
pub const LEARN_CAPACITY: usize = 32;

/// How many senders the loss estimate of an endpoint keeps apart.
pub const SEQ_TRACKER_CAPACITY: usize = 32;

/// What an endpoint is to the router. Learned peers inherit a copy from their listener.
#[derive(Debug, PartialEq, Eq)]
pub struct IdentityFlags {
    pub filters: Filters,
    pub sniffer: bool,
    pub group: Option<String>,
}

/// The view of `IdentityFlags`.
#[verifier::ext_equal]
pub struct IdentityView {
    pub filters: FiltersView,
    pub sniffer: bool,
    pub group: Option<Seq<char>>,
}

/// The characters of an optional string.
pub open spec fn opt_string(s: Option<String>) -> Option<Seq<char>> {
    match s {
        Some(t) => Some(t@),
        None => None,
    }
}

impl View for IdentityFlags {
    type V = IdentityView;

    open spec fn view(&self) -> IdentityView {
        IdentityView {
            filters: self.filters@,
            sniffer: self.sniffer,
            group: opt_string(self.group),
        }
    }
}

impl IdentityView {
    /// No filters, no sniffer, no group.
    pub open spec fn plain() -> IdentityView {
        IdentityView { filters: FiltersView::unrestricted(), sniffer: false, group: None }
    }
}

impl Default for IdentityFlags {
    fn default() -> (r: Self)
        ensures
            r@ == IdentityView::plain(),
    {
        IdentityFlags { filters: Filters::default(), sniffer: false, group: None }
    }
}

/// Copy an optional string.
pub fn clone_opt_string(s: &Option<String>) -> (r: Option<String>)
    ensures
        opt_string(r) == opt_string(*s),
{
    match s {
        Some(t) => Some(t.clone()),
        None => None,
    }
}

impl Clone for IdentityFlags {
    fn clone(&self) -> (r: Self)
        ensures
            r@ == self@,
    {
        IdentityFlags {
            filters: self.filters.clone(),
            sniffer: self.sniffer,
            group: clone_opt_string(&self.group),
        }
    }
}

/// The flag that `value` spells.
pub open spec fn bool_spec(value: Seq<char>, key: Seq<char>) -> Result<bool, SpecErrorView> {
    if value == "true"@ {
        Ok(true)
    } else if value == "false"@ {
        Ok(false)
    } else {
        Err(
            SpecErrorView::InvalidQueryValue {
                key,
                reason: "expected 'true' or 'false', got '"@ + value + "'"@,
            },
        )
    }
}

/// Read `true` or `false`.
pub fn parse_bool(value: &str, key: &'static str) -> (r: Result<bool, SpecError>)
    ensures
        match r {
            Ok(b) => bool_spec(value@, key@) == Ok::<bool, SpecErrorView>(b),
            Err(e) => bool_spec(value@, key@) == Err::<bool, _>(e@),
        },
{
    if text_eq(value, "true") {
        Ok(true)
    } else if text_eq(value, "false") {
        Ok(false)
    } else {
        Err(invalid_value(key, "expected 'true' or 'false', got '", value, "'"))
    }
}

/// The identity after one key and value: `Ok(None)` where the key is none of its own.
pub open spec fn apply_identity_spec(
    v: IdentityView,
    key: Seq<char>,
    value: Seq<char>,
) -> Result<Option<IdentityView>, SpecErrorView> {
    match filters::apply_filter_spec(v.filters, key, value) {
        Err(e) => Err(e),
        Ok(Some(f)) => Ok(Some(IdentityView { filters: f, ..v })),
        Ok(None) => if key == "sniffer"@ {
            match bool_spec(value, "sniffer"@) {
                Ok(b) => Ok(Some(IdentityView { sniffer: b, ..v })),
                Err(e) => Err(e),
            }
        } else if key == "group"@ {
            if names::is_name(value) {
                Ok(Some(IdentityView { group: Some(value), ..v }))
            } else {
                Err(
                    SpecErrorView::InvalidQueryValue {
                        key: "group"@,
                        reason: "'"@ + value + "': must match [A-Za-z0-9_-]{1,64}"@,
                    },
                )
            }
        } else {
            Ok(None)
        },
    }
}

/// The identity keys that are no filter lists, in alphabetical order.
pub open spec fn identity_keys_spec() -> Seq<Seq<char>> {
    seq!["group"@, "sniffer"@]
}

impl IdentityFlags {
    /// The identity keys that are no filter lists, in alphabetical order.
    pub fn keys() -> (r: &'static [&'static str])
        ensures
            text::slice_texts(r@) == identity_keys_spec(),
    {
        let r: &'static [&'static str; 2] = &["group", "sniffer"];
        assert(text::slice_texts(r@) =~= identity_keys_spec());
        r
    }

    /// Take over one key and value if the key names a filter list, `sniffer` or `group`.
    /// `Ok(false)` where it names none; the identity is unchanged then, and where the
    /// value is malformed.
    pub fn apply(&mut self, key: &str, value: &str) -> (r: Result<bool, SpecError>)
        ensures
            match apply_identity_spec(old(self)@, key@, value@) {
                Ok(Some(v)) => r == Ok::<bool, SpecError>(true) && final(self)@ == v,
                Ok(None) => r == Ok::<bool, SpecError>(false) && final(self)@ == old(self)@,
                Err(e) => r is Err && r->Err_0@ == e && final(self)@ == old(self)@,
            },
    {
        match self.filters.apply(key, value) {
            Err(e) => {
                return Err(e);
            },
            Ok(true) => {
                return Ok(true);
            },
            Ok(false) => {},
        }
        if text_eq(key, "sniffer") {
            match parse_bool(value, "sniffer") {
                Ok(b) => {
                    self.sniffer = b;
                    Ok(true)
                },
                Err(e) => Err(e),
            }
        } else if text_eq(key, "group") {
            if !name_matches_regex(value) {
                return Err(
                    invalid_value("group", "'", value, "': must match [A-Za-z0-9_-]{1,64}"),
                );
            }
            self.group = Some(value.to_owned());
            Ok(true)
        } else {
            Ok(false)
        }
    }
}

/// What the keys of an identity set: `sniffer` the flag that `true` and `false` spell, `group`
/// the name that it is given, and a filter key its list. Nothing else changes, a value of
/// another form is an error, and any other key is left to others.
pub proof fn law_identity_keys(v: IdentityView, value: Seq<char>, key: Seq<char>)
    ensures
        apply_identity_spec(v, "sniffer"@, "true"@) == Ok::<_, SpecErrorView>(
            Some(IdentityView { sniffer: true, ..v }),
        ),
        apply_identity_spec(v, "sniffer"@, "false"@) == Ok::<_, SpecErrorView>(
            Some(IdentityView { sniffer: false, ..v }),
        ),
        value != "true"@ && value != "false"@ ==> apply_identity_spec(v, "sniffer"@, value) is Err,
        names::is_name(value) ==> apply_identity_spec(v, "group"@, value) == Ok::<_, SpecErrorView>(
            Some(IdentityView { group: Some(value), ..v }),
        ),
        !names::is_name(value) ==> apply_identity_spec(v, "group"@, value) is Err,
        filters::filter_keys_spec().contains(key) ==> apply_identity_spec(v, key, value) == match filters::apply_filter_spec(
            v.filters,
            key,
            value,
        ) {
            Ok(Some(f)) => Ok(Some(IdentityView { filters: f, ..v })),
            Ok(None) => Ok(None),
            Err(e) => Err(e),
        },
        apply_identity_spec(v, key, value) == Ok::<Option<IdentityView>, SpecErrorView>(None)
            <==> key != "sniffer"@ && key != "group"@ && !filters::filter_keys_spec().contains(key),
{
    reveal_strlit("sniffer");
    reveal_strlit("group");
    reveal_strlit("true");
    reveal_strlit("false");
    assert("sniffer"@[0] == 's' && "group"@[0] == 'g');
    assert("true"@.len() == 4 && "false"@.len() == 5);
    filters::law_other_keys_are_no_lists(v.filters, "sniffer"@, value);
    filters::law_other_keys_are_no_lists(v.filters, "sniffer"@, "true"@);
    filters::law_other_keys_are_no_lists(v.filters, "sniffer"@, "false"@);
    filters::law_other_keys_are_no_lists(v.filters, "group"@, value);
    filters::law_other_keys_are_no_lists(v.filters, key, value);
}

/// What is set where nothing is said: no sniffer, no group and no filter list.
pub proof fn law_plain_identity_is_empty()
    ensures
        ({
            let v = IdentityView::plain();
            let f = v.filters;
            &&& !v.sniffer
            &&& v.group is None
            &&& f.allow_msgid_in.len() == 0 && f.block_msgid_in.len() == 0
            &&& f.allow_msgid_out.len() == 0 && f.block_msgid_out.len() == 0
            &&& f.allow_src_sys_in.len() == 0 && f.block_src_sys_in.len() == 0
            &&& f.allow_src_sys_out.len() == 0 && f.block_src_sys_out.len() == 0
            &&& f.allow_src_comp_in.len() == 0 && f.block_src_comp_in.len() == 0
            &&& f.allow_src_comp_out.len() == 0 && f.block_src_comp_out.len() == 0
            &&& f.allow_src_endpoint_out.len() == 0 && f.block_src_endpoint_out.len() == 0
        }),
{
}

} // verus!

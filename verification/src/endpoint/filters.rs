//! Per-endpoint filter rules.

use vstd::prelude::*;
use vstd::string::StringExecFns;

use crate::endpoint::spec::error::{invalid_value, SpecError, SpecErrorView};
use crate::endpoint::spec::names;
use crate::endpoint::spec::names::name_text_ok;
use crate::mavlink::frame::NodeId;
use crate::text;
use crate::text::{decimal, parse_unsigned, split_char, split_once_char, text_eq, trim};

verus! {

/// An inclusive range of message ids.
#[derive(Debug, Clone, Copy, PartialEq, Eq, Structural)]
pub struct MsgIdRange {
    pub lo: u32,
    pub hi: u32,
}

impl MsgIdRange {
    /// The range of one id.
    pub fn single(value: u32) -> (r: Self)
        ensures
            r == (MsgIdRange { lo: value, hi: value }),
    {
        MsgIdRange { lo: value, hi: value }
    }

    /// Whether `value` lies in the range.
    pub open spec fn has(self, value: u32) -> bool {
        self.lo <= value <= self.hi
    }

    /// Whether `value` lies in the range.
    pub fn contains(self, value: u32) -> (r: bool)
        ensures
            r == self.has(value),
    {
        self.lo <= value && value <= self.hi
    }
}

/// An inclusive range of system or component ids.
#[derive(Debug, Clone, Copy, PartialEq, Eq, Structural)]
pub struct U8Range {
    pub lo: u8,
    pub hi: u8,
}

impl U8Range {
    /// The range of one id.
    pub fn single(value: u8) -> (r: Self)
        ensures
            r == (U8Range { lo: value, hi: value }),
    {
        U8Range { lo: value, hi: value }
    }

    /// Whether `value` lies in the range.
    pub open spec fn has(self, value: u8) -> bool {
        self.lo <= value <= self.hi
    }

    /// Whether `value` lies in the range.
    pub fn contains(self, value: u8) -> (r: bool)
        ensures
            r == self.has(value),
    {
        self.lo <= value && value <= self.hi
    }
}

/// The filter lists of an endpoint: what it accepts (`*_in`) and what may be sent to it
/// (`*_out`), by message id, source system, source component and, for egress, the name
/// of the endpoint that a frame came in on. An empty list restricts nothing; a block
/// entry wins over an allow entry.
#[derive(Debug, PartialEq, Eq)]
pub struct Filters {
    pub allow_msgid_in: Vec<MsgIdRange>,
    pub block_msgid_in: Vec<MsgIdRange>,
    pub allow_msgid_out: Vec<MsgIdRange>,
    pub block_msgid_out: Vec<MsgIdRange>,
    pub allow_src_sys_in: Vec<U8Range>,
    pub block_src_sys_in: Vec<U8Range>,
    pub allow_src_sys_out: Vec<U8Range>,
    pub block_src_sys_out: Vec<U8Range>,
    pub allow_src_comp_in: Vec<U8Range>,
    pub block_src_comp_in: Vec<U8Range>,
    pub allow_src_comp_out: Vec<U8Range>,
    pub block_src_comp_out: Vec<U8Range>,
    pub allow_src_endpoint_out: Vec<String>,
    pub block_src_endpoint_out: Vec<String>,
}

/// The view of `Filters`.
#[verifier::ext_equal]
pub struct FiltersView {
    pub allow_msgid_in: Seq<MsgIdRange>,
    pub block_msgid_in: Seq<MsgIdRange>,
    pub allow_msgid_out: Seq<MsgIdRange>,
    pub block_msgid_out: Seq<MsgIdRange>,
    pub allow_src_sys_in: Seq<U8Range>,
    pub block_src_sys_in: Seq<U8Range>,
    pub allow_src_sys_out: Seq<U8Range>,
    pub block_src_sys_out: Seq<U8Range>,
    pub allow_src_comp_in: Seq<U8Range>,
    pub block_src_comp_in: Seq<U8Range>,
    pub allow_src_comp_out: Seq<U8Range>,
    pub block_src_comp_out: Seq<U8Range>,
    pub allow_src_endpoint_out: Seq<Seq<char>>,
    pub block_src_endpoint_out: Seq<Seq<char>>,
}

impl View for Filters {
    type V = FiltersView;

    open spec fn view(&self) -> FiltersView {
        FiltersView {
            allow_msgid_in: self.allow_msgid_in@,
            block_msgid_in: self.block_msgid_in@,
            allow_msgid_out: self.allow_msgid_out@,
            block_msgid_out: self.block_msgid_out@,
            allow_src_sys_in: self.allow_src_sys_in@,
            block_src_sys_in: self.block_src_sys_in@,
            allow_src_sys_out: self.allow_src_sys_out@,
            block_src_sys_out: self.block_src_sys_out@,
            allow_src_comp_in: self.allow_src_comp_in@,
            block_src_comp_in: self.block_src_comp_in@,
            allow_src_comp_out: self.allow_src_comp_out@,
            block_src_comp_out: self.block_src_comp_out@,
            allow_src_endpoint_out: text::texts(self.allow_src_endpoint_out@),
            block_src_endpoint_out: text::texts(self.block_src_endpoint_out@),
        }
    }
}

impl FiltersView {
    /// No list holds anything.
    pub open spec fn unrestricted() -> FiltersView {
        FiltersView {
            allow_msgid_in: Seq::empty(),
            block_msgid_in: Seq::empty(),
            allow_msgid_out: Seq::empty(),
            block_msgid_out: Seq::empty(),
            allow_src_sys_in: Seq::empty(),
            block_src_sys_in: Seq::empty(),
            allow_src_sys_out: Seq::empty(),
            block_src_sys_out: Seq::empty(),
            allow_src_comp_in: Seq::empty(),
            block_src_comp_in: Seq::empty(),
            allow_src_comp_out: Seq::empty(),
            block_src_comp_out: Seq::empty(),
            allow_src_endpoint_out: Seq::empty(),
            block_src_endpoint_out: Seq::empty(),
        }
    }
}

impl Default for Filters {
    fn default() -> (r: Self)
        ensures
            r@ == FiltersView::unrestricted(),
    {
        let r = Filters {
            allow_msgid_in: Vec::new(),
            block_msgid_in: Vec::new(),
            allow_msgid_out: Vec::new(),
            block_msgid_out: Vec::new(),
            allow_src_sys_in: Vec::new(),
            block_src_sys_in: Vec::new(),
            allow_src_sys_out: Vec::new(),
            block_src_sys_out: Vec::new(),
            allow_src_comp_in: Vec::new(),
            block_src_comp_in: Vec::new(),
            allow_src_comp_out: Vec::new(),
            block_src_comp_out: Vec::new(),
            allow_src_endpoint_out: Vec::new(),
            block_src_endpoint_out: Vec::new(),
        };
        assert(r@ =~= FiltersView::unrestricted());
        r
    }
}

impl Clone for Filters {
    fn clone(&self) -> (r: Self)
        ensures
            r@ == self@,
    {
        let r = Filters {
            allow_msgid_in: clone_msgids(&self.allow_msgid_in),
            block_msgid_in: clone_msgids(&self.block_msgid_in),
            allow_msgid_out: clone_msgids(&self.allow_msgid_out),
            block_msgid_out: clone_msgids(&self.block_msgid_out),
            allow_src_sys_in: clone_bytes(&self.allow_src_sys_in),
            block_src_sys_in: clone_bytes(&self.block_src_sys_in),
            allow_src_sys_out: clone_bytes(&self.allow_src_sys_out),
            block_src_sys_out: clone_bytes(&self.block_src_sys_out),
            allow_src_comp_in: clone_bytes(&self.allow_src_comp_in),
            block_src_comp_in: clone_bytes(&self.block_src_comp_in),
            allow_src_comp_out: clone_bytes(&self.allow_src_comp_out),
            block_src_comp_out: clone_bytes(&self.block_src_comp_out),
            allow_src_endpoint_out: clone_names(&self.allow_src_endpoint_out),
            block_src_endpoint_out: clone_names(&self.block_src_endpoint_out),
        };
        assert(r@ =~= self@);
        r
    }
}

/// Copy a list of message ranges.
fn clone_msgids(v: &Vec<MsgIdRange>) -> (r: Vec<MsgIdRange>)
    ensures
        r@ == v@,
{
    let mut out: Vec<MsgIdRange> = Vec::new();
    let mut i: usize = 0;
    while i < v.len()
        invariant
            i <= v@.len(),
            out@ == v@.take(i as int),
        decreases v@.len() - i,
    {
        out.push(v[i]);
        i = i + 1;
        assert(out@ == v@.take(i as int));
    }
    assert(v@.take(v@.len() as int) == v@);
    out
}

/// Copy a list of id ranges.
fn clone_bytes(v: &Vec<U8Range>) -> (r: Vec<U8Range>)
    ensures
        r@ == v@,
{
    let mut out: Vec<U8Range> = Vec::new();
    let mut i: usize = 0;
    while i < v.len()
        invariant
            i <= v@.len(),
            out@ == v@.take(i as int),
        decreases v@.len() - i,
    {
        out.push(v[i]);
        i = i + 1;
        assert(out@ == v@.take(i as int));
    }
    assert(v@.take(v@.len() as int) == v@);
    out
}

/// Copy a list of names.
pub fn clone_names(v: &Vec<String>) -> (r: Vec<String>)
    ensures
        text::texts(r@) == text::texts(v@),
{
    let mut out: Vec<String> = Vec::new();
    let mut i: usize = 0;
    while i < v.len()
        invariant
            i <= v@.len(),
            out@.len() == i,
            forall|j: int| 0 <= j < i ==> (#[trigger] out@[j])@ == v@[j]@,
        decreases v@.len() - i,
    {
        out.push(v[i].clone());
        i = i + 1;
    }
    assert(text::texts(out@) =~= text::texts(v@));
    out
}

// ---------------------------------------------------------------- reading lists

/// Read every item of a list in order; the first item that cannot be read decides the
/// error.
pub open spec fn list_spec<T>(
    items: Seq<Seq<char>>,
    read: spec_fn(Seq<char>) -> Result<T, SpecErrorView>,
) -> Result<Seq<T>, SpecErrorView>
    decreases items.len(),
{
    if items.len() == 0 {
        Ok(Seq::empty())
    } else {
        match read(items[0]) {
            Err(e) => Err(e),
            Ok(x) => match list_spec(items.skip(1), read) {
                Err(e) => Err(e),
                Ok(xs) => Ok(seq![x] + xs),
            },
        }
    }
}

/// `done` in front of what the rest of a list gives.
pub open spec fn behind<T>(done: Seq<T>, rest: Result<Seq<T>, SpecErrorView>) -> Result<
    Seq<T>,
    SpecErrorView,
> {
    match rest {
        Ok(xs) => Ok(done + xs),
        Err(e) => Err(e),
    }
}

/// Reading a list from item `i` on, one item at a time.
proof fn lemma_list_step<T>(
    items: Seq<Seq<char>>,
    read: spec_fn(Seq<char>) -> Result<T, SpecErrorView>,
    done: Seq<T>,
    i: int,
)
    requires
        0 <= i < items.len(),
    ensures
        match read(items[i]) {
            Err(e) => behind(done, list_spec(items.skip(i), read)) == Err::<Seq<T>, _>(e),
            Ok(x) => behind(done, list_spec(items.skip(i), read)) == behind(
                done.push(x),
                list_spec(items.skip(i + 1), read),
            ),
        },
{
    let rest = items.skip(i);
    assert(rest[0] == items[i]);
    assert(rest.skip(1) == items.skip(i + 1));
    if let Ok(x) = read(items[i]) {
        if let Ok(xs) = list_spec(items.skip(i + 1), read) {
            assert(done + (seq![x] + xs) =~= done.push(x) + xs);
        }
    }
}

/// The error for an item that is blank.
pub open spec fn empty_entry(value: Seq<char>, key: Seq<char>) -> SpecErrorView {
    SpecErrorView::InvalidQueryValue { key, reason: "empty entry in '"@ + value + "'"@ }
}

/// The two bounds that one item spells: `lo-hi`, or one number for both.
pub open spec fn range_pair_spec(item: Seq<char>, key: Seq<char>) -> Result<
    (nat, nat),
    SpecErrorView,
> {
    let max = u32::MAX as nat;
    match text::split_once_spec(item, '-') {
        Some((lo_text, hi_text)) => match text::unsigned_spec(text::trim_spec(lo_text), max) {
            None => Err(
                SpecErrorView::InvalidQueryValue {
                    key,
                    reason: "range lower bound '"@ + lo_text + "' is not a decimal integer"@,
                },
            ),
            Some(lo) => match text::unsigned_spec(text::trim_spec(hi_text), max) {
                None => Err(
                    SpecErrorView::InvalidQueryValue {
                        key,
                        reason: "range upper bound '"@ + hi_text + "' is not a decimal integer"@,
                    },
                ),
                Some(hi) => if lo > hi {
                    Err(
                        SpecErrorView::InvalidQueryValue {
                            key,
                            reason: "range "@ + (text::decimal_spec(lo) + "-"@ + text::decimal_spec(hi))
                                + " has lo > hi"@,
                        },
                    )
                } else {
                    Ok((lo, hi))
                },
            },
        },
        None => match text::unsigned_spec(item, max) {
            None => Err(
                SpecErrorView::InvalidQueryValue {
                    key,
                    reason: "'"@ + item + "' is not a decimal integer or 'lo-hi' range"@,
                },
            ),
            Some(n) => Ok((n, n)),
        },
    }
}

/// One item of a list of message ids.
pub open spec fn msgid_item_spec(item: Seq<char>, value: Seq<char>, key: Seq<char>) -> Result<
    MsgIdRange,
    SpecErrorView,
> {
    if text::trim_spec(item).len() == 0 {
        Err(empty_entry(value, key))
    } else {
        match range_pair_spec(text::trim_spec(item), key) {
            Ok((lo, hi)) => Ok(MsgIdRange { lo: lo as u32, hi: hi as u32 }),
            Err(e) => Err(e),
        }
    }
}

/// One item of a list of system or component ids.
pub open spec fn u8_item_spec(item: Seq<char>, value: Seq<char>, key: Seq<char>) -> Result<
    U8Range,
    SpecErrorView,
> {
    if text::trim_spec(item).len() == 0 {
        Err(empty_entry(value, key))
    } else {
        match range_pair_spec(text::trim_spec(item), key) {
            Ok((lo, hi)) => if lo > u8::MAX || hi > u8::MAX {
                Err(
                    SpecErrorView::InvalidQueryValue {
                        key,
                        reason: "value out of u8 range in '"@ + text::trim_spec(item) + "'"@,
                    },
                )
            } else {
                Ok(U8Range { lo: lo as u8, hi: hi as u8 })
            },
            Err(e) => Err(e),
        }
    }
}

/// One item of a list of endpoint names.
pub open spec fn name_item_spec(item: Seq<char>, value: Seq<char>, key: Seq<char>) -> Result<
    Seq<char>,
    SpecErrorView,
> {
    if text::trim_spec(item).len() == 0 {
        Err(empty_entry(value, key))
    } else if !names::is_name_text(text::trim_spec(item)) {
        Err(
            SpecErrorView::InvalidQueryValue {
                key,
                reason: "'"@ + text::trim_spec(item) + "': must match [A-Za-z0-9_-]+"@,
            },
        )
    } else {
        Ok(text::trim_spec(item))
    }
}

/// A list of message ids.
pub open spec fn msgid_list_spec(value: Seq<char>, key: Seq<char>) -> Result<
    Seq<MsgIdRange>,
    SpecErrorView,
> {
    list_spec(text::split_spec(value, ','), |item: Seq<char>| msgid_item_spec(item, value, key))
}

/// A list of system or component ids.
pub open spec fn u8_list_spec(value: Seq<char>, key: Seq<char>) -> Result<
    Seq<U8Range>,
    SpecErrorView,
> {
    list_spec(text::split_spec(value, ','), |item: Seq<char>| u8_item_spec(item, value, key))
}

/// A list of endpoint names.
pub open spec fn name_list_spec(value: Seq<char>, key: Seq<char>) -> Result<
    Seq<Seq<char>>,
    SpecErrorView,
> {
    list_spec(text::split_spec(value, ','), |item: Seq<char>| name_item_spec(item, value, key))
}

/// Read `lo-hi` or one number.
pub fn parse_range_pair_u32(item: &str, key: &'static str) -> (r: Result<(u32, u32), SpecError>)
    ensures
        match r {
            Ok((lo, hi)) => range_pair_spec(item@, key@) == Ok::<_, SpecErrorView>(
                (lo as nat, hi as nat),
            ),
            Err(e) => range_pair_spec(item@, key@) == Err::<(nat, nat), _>(e@),
        },
{
    match split_once_char(item, '-') {
        Some((lo_text, hi_text)) => {
            let lo: u64 = match parse_unsigned(trim(lo_text), u32::MAX as u64) {
                Some(n) => n,
                None => {
                    return Err(
                        invalid_value(
                            key,
                            "range lower bound '",
                            lo_text,
                            "' is not a decimal integer",
                        ),
                    );
                },
            };
            let hi: u64 = match parse_unsigned(trim(hi_text), u32::MAX as u64) {
                Some(n) => n,
                None => {
                    return Err(
                        invalid_value(
                            key,
                            "range upper bound '",
                            hi_text,
                            "' is not a decimal integer",
                        ),
                    );
                },
            };
            if lo > hi {
                let both = decimal(lo).concat("-").concat(decimal(hi).as_str());
                return Err(invalid_value(key, "range ", both.as_str(), " has lo > hi"));
            }
            Ok((lo as u32, hi as u32))
        },
        None => match parse_unsigned(item, u32::MAX as u64) {
            Some(n) => Ok((n as u32, n as u32)),
            None => Err(
                invalid_value(key, "'", item, "' is not a decimal integer or 'lo-hi' range"),
            ),
        },
    }
}

/// Read a comma-separated list of message ids and ranges.
pub fn parse_msgid_ranges(value: &str, key: &'static str) -> (r: Result<Vec<MsgIdRange>, SpecError>)
    ensures
        match r {
            Ok(v) => msgid_list_spec(value@, key@) == Ok::<_, SpecErrorView>(v@),
            Err(e) => msgid_list_spec(value@, key@) == Err::<Seq<MsgIdRange>, _>(e@),
        },
{
    let items = split_char(value, ',');
    let mut out: Vec<MsgIdRange> = Vec::new();
    let ghost pieces = text::split_spec(value@, ',');
    let ghost read = |item: Seq<char>| msgid_item_spec(item, value@, key@);
    let mut i: usize = 0;
    assert(pieces.skip(0) == pieces);
    assert(behind(out@, list_spec(pieces, read)) == list_spec(pieces, read));
    while i < items.len()
        invariant
            i <= items@.len(),
            text::slice_texts(items@) == pieces,
            pieces == text::split_spec(value@, ','),
            read == (|item: Seq<char>| msgid_item_spec(item, value@, key@)),
            behind(out@, list_spec(pieces.skip(i as int), read)) == list_spec(pieces, read),
        decreases items@.len() - i,
    {
        proof {
            lemma_list_step(pieces, read, out@, i as int);
            assert(pieces[i as int] == items@[i as int]@);
        }
        let item = trim(items[i]);
        if item.is_empty() {
            return Err(invalid_value(key, "empty entry in '", value, "'"));
        }
        match parse_range_pair_u32(item, key) {
            Ok((lo, hi)) => {
                out.push(MsgIdRange { lo, hi });
            },
            Err(e) => {
                return Err(e);
            },
        }
        i = i + 1;
    }
    assert(out@ + Seq::<MsgIdRange>::empty() =~= out@);
    Ok(out)
}

/// Read a comma-separated list of ids and ranges of at most 255.
pub fn parse_u8_ranges(value: &str, key: &'static str) -> (r: Result<Vec<U8Range>, SpecError>)
    ensures
        match r {
            Ok(v) => u8_list_spec(value@, key@) == Ok::<_, SpecErrorView>(v@),
            Err(e) => u8_list_spec(value@, key@) == Err::<Seq<U8Range>, _>(e@),
        },
{
    let items = split_char(value, ',');
    let mut out: Vec<U8Range> = Vec::new();
    let ghost pieces = text::split_spec(value@, ',');
    let ghost read = |item: Seq<char>| u8_item_spec(item, value@, key@);
    let mut i: usize = 0;
    assert(pieces.skip(0) == pieces);
    assert(behind(out@, list_spec(pieces, read)) == list_spec(pieces, read));
    while i < items.len()
        invariant
            i <= items@.len(),
            text::slice_texts(items@) == pieces,
            pieces == text::split_spec(value@, ','),
            read == (|item: Seq<char>| u8_item_spec(item, value@, key@)),
            behind(out@, list_spec(pieces.skip(i as int), read)) == list_spec(pieces, read),
        decreases items@.len() - i,
    {
        proof {
            lemma_list_step(pieces, read, out@, i as int);
            assert(pieces[i as int] == items@[i as int]@);
        }
        let item = trim(items[i]);
        if item.is_empty() {
            return Err(invalid_value(key, "empty entry in '", value, "'"));
        }
        match parse_range_pair_u32(item, key) {
            Ok((lo, hi)) => {
                if lo > u8::MAX as u32 || hi > u8::MAX as u32 {
                    return Err(invalid_value(key, "value out of u8 range in '", item, "'"));
                }
                out.push(U8Range { lo: lo as u8, hi: hi as u8 });
            },
            Err(e) => {
                return Err(e);
            },
        }
        i = i + 1;
    }
    assert(out@ + Seq::<U8Range>::empty() =~= out@);
    Ok(out)
}

/// Read a comma-separated list of endpoint names.
fn parse_endpoint_name_list(value: &str, key: &'static str) -> (r: Result<Vec<String>, SpecError>)
    ensures
        match r {
            Ok(v) => name_list_spec(value@, key@) == Ok::<_, SpecErrorView>(text::texts(v@)),
            Err(e) => name_list_spec(value@, key@) == Err::<Seq<Seq<char>>, _>(e@),
        },
{
    let items = split_char(value, ',');
    let mut out: Vec<String> = Vec::new();
    let ghost pieces = text::split_spec(value@, ',');
    let ghost read = |item: Seq<char>| name_item_spec(item, value@, key@);
    let mut i: usize = 0;
    assert(pieces.skip(0) == pieces);
    assert(text::texts(out@) =~= Seq::empty());
    assert(behind(text::texts(out@), list_spec(pieces, read)) == list_spec(pieces, read));
    while i < items.len()
        invariant
            i <= items@.len(),
            text::slice_texts(items@) == pieces,
            pieces == text::split_spec(value@, ','),
            read == (|item: Seq<char>| name_item_spec(item, value@, key@)),
            behind(text::texts(out@), list_spec(pieces.skip(i as int), read)) == list_spec(pieces, read),
        decreases items@.len() - i,
    {
        proof {
            lemma_list_step(pieces, read, text::texts(out@), i as int);
            assert(pieces[i as int] == items@[i as int]@);
        }
        let item = trim(items[i]);
        if item.is_empty() {
            return Err(invalid_value(key, "empty entry in '", value, "'"));
        }
        if !name_text_ok(item) {
            return Err(invalid_value(key, "'", item, "': must match [A-Za-z0-9_-]+"));
        }
        let ghost before = out@;
        out.push(item.to_owned());
        assert(text::texts(out@) =~= text::texts(before).push(item@));
        i = i + 1;
    }
    assert(text::texts(out@) + Seq::<Seq<char>>::empty() =~= text::texts(out@));
    Ok(out)
}

/// The filters after one key and value: `Ok(None)` where the key names no filter list.
pub open spec fn apply_filter_spec(
    f: FiltersView,
    key: Seq<char>,
    value: Seq<char>,
) -> Result<Option<FiltersView>, SpecErrorView> {
    if key == "allow_msgid_in"@ {
        match msgid_list_spec(value, "allow_msgid_in"@) {
            Ok(list) => Ok(Some(FiltersView { allow_msgid_in: list, ..f })),
            Err(e) => Err(e),
        }
    } else if key == "block_msgid_in"@ {
        match msgid_list_spec(value, "block_msgid_in"@) {
            Ok(list) => Ok(Some(FiltersView { block_msgid_in: list, ..f })),
            Err(e) => Err(e),
        }
    } else if key == "allow_msgid_out"@ {
        match msgid_list_spec(value, "allow_msgid_out"@) {
            Ok(list) => Ok(Some(FiltersView { allow_msgid_out: list, ..f })),
            Err(e) => Err(e),
        }
    } else if key == "block_msgid_out"@ {
        match msgid_list_spec(value, "block_msgid_out"@) {
            Ok(list) => Ok(Some(FiltersView { block_msgid_out: list, ..f })),
            Err(e) => Err(e),
        }
    } else if key == "allow_src_sys_in"@ {
        match u8_list_spec(value, "allow_src_sys_in"@) {
            Ok(list) => Ok(Some(FiltersView { allow_src_sys_in: list, ..f })),
            Err(e) => Err(e),
        }
    } else if key == "block_src_sys_in"@ {
        match u8_list_spec(value, "block_src_sys_in"@) {
            Ok(list) => Ok(Some(FiltersView { block_src_sys_in: list, ..f })),
            Err(e) => Err(e),
        }
    } else if key == "allow_src_sys_out"@ {
        match u8_list_spec(value, "allow_src_sys_out"@) {
            Ok(list) => Ok(Some(FiltersView { allow_src_sys_out: list, ..f })),
            Err(e) => Err(e),
        }
    } else if key == "block_src_sys_out"@ {
        match u8_list_spec(value, "block_src_sys_out"@) {
            Ok(list) => Ok(Some(FiltersView { block_src_sys_out: list, ..f })),
            Err(e) => Err(e),
        }
    } else if key == "allow_src_comp_in"@ {
        match u8_list_spec(value, "allow_src_comp_in"@) {
            Ok(list) => Ok(Some(FiltersView { allow_src_comp_in: list, ..f })),
            Err(e) => Err(e),
        }
    } else if key == "block_src_comp_in"@ {
        match u8_list_spec(value, "block_src_comp_in"@) {
            Ok(list) => Ok(Some(FiltersView { block_src_comp_in: list, ..f })),
            Err(e) => Err(e),
        }
    } else if key == "allow_src_comp_out"@ {
        match u8_list_spec(value, "allow_src_comp_out"@) {
            Ok(list) => Ok(Some(FiltersView { allow_src_comp_out: list, ..f })),
            Err(e) => Err(e),
        }
    } else if key == "block_src_comp_out"@ {
        match u8_list_spec(value, "block_src_comp_out"@) {
            Ok(list) => Ok(Some(FiltersView { block_src_comp_out: list, ..f })),
            Err(e) => Err(e),
        }
    } else if key == "allow_src_endpoint_out"@ {
        match name_list_spec(value, "allow_src_endpoint_out"@) {
            Ok(list) => Ok(Some(FiltersView { allow_src_endpoint_out: list, ..f })),
            Err(e) => Err(e),
        }
    } else if key == "block_src_endpoint_out"@ {
        match name_list_spec(value, "block_src_endpoint_out"@) {
            Ok(list) => Ok(Some(FiltersView { block_src_endpoint_out: list, ..f })),
            Err(e) => Err(e),
        }
    } else {
        Ok(None)
    }
}

// ---------------------------------------------------------------- decisions

/// Whether a message id passes an allow list and a block list.
pub open spec fn msgid_axis(value: u32, allow: Seq<MsgIdRange>, block: Seq<MsgIdRange>) -> bool {
    &&& allow.len() == 0 || exists|i: int| 0 <= i < allow.len() && (#[trigger] allow[i]).has(value)
    &&& !exists|i: int| 0 <= i < block.len() && (#[trigger] block[i]).has(value)
}

/// Whether a system or component id passes an allow list and a block list.
pub open spec fn u8_axis(value: u8, allow: Seq<U8Range>, block: Seq<U8Range>) -> bool {
    &&& allow.len() == 0 || exists|i: int| 0 <= i < allow.len() && (#[trigger] allow[i]).has(value)
    &&& !exists|i: int| 0 <= i < block.len() && (#[trigger] block[i]).has(value)
}

/// Whether an endpoint name passes an allow list and a block list.
pub open spec fn name_axis(name: Seq<char>, allow: Seq<Seq<char>>, block: Seq<Seq<char>>) -> bool {
    &&& allow.len() == 0 || allow.contains(name)
    &&& !block.contains(name)
}

impl FiltersView {
    /// Whether a frame may come in: every ingress axis passes.
    pub open spec fn passes_in(self, msgid: u32, src: NodeId) -> bool {
        &&& msgid_axis(msgid, self.allow_msgid_in, self.block_msgid_in)
        &&& u8_axis(src.sys, self.allow_src_sys_in, self.block_src_sys_in)
        &&& u8_axis(src.comp, self.allow_src_comp_in, self.block_src_comp_in)
    }

    /// Whether a frame that came in on the endpoint `name` may go out: every egress axis
    /// passes.
    pub open spec fn passes_out(self, msgid: u32, src: NodeId, name: Seq<char>) -> bool {
        &&& msgid_axis(msgid, self.allow_msgid_out, self.block_msgid_out)
        &&& u8_axis(src.sys, self.allow_src_sys_out, self.block_src_sys_out)
        &&& u8_axis(src.comp, self.allow_src_comp_out, self.block_src_comp_out)
        &&& name_axis(name, self.allow_src_endpoint_out, self.block_src_endpoint_out)
    }

    /// Every endpoint name the egress lists refer to, with the list it stands in.
    pub open spec fn endpoint_entries(self) -> Seq<(Seq<char>, Seq<char>)> {
        self.allow_src_endpoint_out.map_values(
            |n: Seq<char>| ("allow_src_endpoint_out"@, n),
        ) + self.block_src_endpoint_out.map_values(
            |n: Seq<char>| ("block_src_endpoint_out"@, n),
        )
    }
}

/// Whether some range holds `value`.
fn any_msgid(value: u32, ranges: &[MsgIdRange]) -> (r: bool)
    ensures
        r == exists|i: int| 0 <= i < ranges@.len() && (#[trigger] ranges@[i]).has(value),
{
    let mut i: usize = 0;
    while i < ranges.len()
        invariant
            i <= ranges@.len(),
            forall|j: int| 0 <= j < i ==> !(#[trigger] ranges@[j]).has(value),
        decreases ranges@.len() - i,
    {
        if ranges[i].contains(value) {
            assert(ranges@[i as int].has(value));
            return true;
        }
        i = i + 1;
    }
    false
}

/// Whether some range holds `value`.
fn any_u8(value: u8, ranges: &[U8Range]) -> (r: bool)
    ensures
        r == exists|i: int| 0 <= i < ranges@.len() && (#[trigger] ranges@[i]).has(value),
{
    let mut i: usize = 0;
    while i < ranges.len()
        invariant
            i <= ranges@.len(),
            forall|j: int| 0 <= j < i ==> !(#[trigger] ranges@[j]).has(value),
        decreases ranges@.len() - i,
    {
        if ranges[i].contains(value) {
            assert(ranges@[i as int].has(value));
            return true;
        }
        i = i + 1;
    }
    false
}

/// Whether `name` is listed.
pub fn any_name(name: &str, names: &[String]) -> (r: bool)
    ensures
        r == text::texts(names@).contains(name@),
{
    let mut i: usize = 0;
    while i < names.len()
        invariant
            i <= names@.len(),
            forall|j: int| 0 <= j < i ==> (#[trigger] text::texts(names@)[j]) != name@,
        decreases names@.len() - i,
    {
        if text_eq(names[i].as_str(), name) {
            assert(text::texts(names@)[i as int] == name@);
            return true;
        }
        assert(text::texts(names@)[i as int] != name@);
        i = i + 1;
    }
    false
}

/// Judge a message id against an allow list and a block list.
fn pass_msgid_axis(value: u32, allow: &[MsgIdRange], block: &[MsgIdRange]) -> (r: bool)
    ensures
        r == msgid_axis(value, allow@, block@),
{
    if allow.len() != 0 && !any_msgid(value, allow) {
        return false;
    }
    !any_msgid(value, block)
}

/// Judge a system or component id against an allow list and a block list.
fn pass_u8_axis(value: u8, allow: &[U8Range], block: &[U8Range]) -> (r: bool)
    ensures
        r == u8_axis(value, allow@, block@),
{
    if allow.len() != 0 && !any_u8(value, allow) {
        return false;
    }
    !any_u8(value, block)
}

/// Judge an endpoint name against an allow list and a block list.
fn pass_src_endpoint_axis(name: &str, allow: &[String], block: &[String]) -> (r: bool)
    ensures
        r == name_axis(name@, text::texts(allow@), text::texts(block@)),
{
    if allow.len() != 0 && !any_name(name, allow) {
        return false;
    }
    !any_name(name, block)
}

/// The keys of the filter lists, in alphabetical order.
pub open spec fn filter_keys_spec() -> Seq<Seq<char>> {
    seq![
        "allow_msgid_in"@,
        "allow_msgid_out"@,
        "allow_src_comp_in"@,
        "allow_src_comp_out"@,
        "allow_src_endpoint_out"@,
        "allow_src_sys_in"@,
        "allow_src_sys_out"@,
        "block_msgid_in"@,
        "block_msgid_out"@,
        "block_src_comp_in"@,
        "block_src_comp_out"@,
        "block_src_endpoint_out"@,
        "block_src_sys_in"@,
        "block_src_sys_out"@,
    ]
}

impl Filters {
    /// The keys of the filter lists, in alphabetical order.
    pub fn keys() -> (r: &'static [&'static str])
        ensures
            text::slice_texts(r@) == filter_keys_spec(),
    {
        let r: &'static [&'static str; 14] = &[
            "allow_msgid_in",
            "allow_msgid_out",
            "allow_src_comp_in",
            "allow_src_comp_out",
            "allow_src_endpoint_out",
            "allow_src_sys_in",
            "allow_src_sys_out",
            "block_msgid_in",
            "block_msgid_out",
            "block_src_comp_in",
            "block_src_comp_out",
            "block_src_endpoint_out",
            "block_src_sys_in",
            "block_src_sys_out",
        ];
        assert(text::slice_texts(r@) =~= filter_keys_spec());
        r
    }

    /// Take over one key and value if the key names a filter list. `Ok(false)` where it
    /// names none; the filters are unchanged then, and where the value is malformed.
    pub fn apply(&mut self, key: &str, value: &str) -> (r: Result<bool, SpecError>)
        ensures
            match apply_filter_spec(old(self)@, key@, value@) {
                Ok(Some(f)) => r == Ok::<bool, SpecError>(true) && final(self)@ == f,
                Ok(None) => r == Ok::<bool, SpecError>(false) && final(self)@ == old(self)@,
                Err(e) => r is Err && r->Err_0@ == e && final(self)@ == old(self)@,
            },
    {
        if text_eq(key, "allow_msgid_in") {
            match parse_msgid_ranges(value, "allow_msgid_in") {
                Ok(list) => {
                    self.allow_msgid_in = list;
                    Ok(true)
                },
                Err(e) => Err(e),
            }
        } else if text_eq(key, "block_msgid_in") {
            match parse_msgid_ranges(value, "block_msgid_in") {
                Ok(list) => {
                    self.block_msgid_in = list;
                    Ok(true)
                },
                Err(e) => Err(e),
            }
        } else if text_eq(key, "allow_msgid_out") {
            match parse_msgid_ranges(value, "allow_msgid_out") {
                Ok(list) => {
                    self.allow_msgid_out = list;
                    Ok(true)
                },
                Err(e) => Err(e),
            }
        } else if text_eq(key, "block_msgid_out") {
            match parse_msgid_ranges(value, "block_msgid_out") {
                Ok(list) => {
                    self.block_msgid_out = list;
                    Ok(true)
                },
                Err(e) => Err(e),
            }
        } else if text_eq(key, "allow_src_sys_in") {
            match parse_u8_ranges(value, "allow_src_sys_in") {
                Ok(list) => {
                    self.allow_src_sys_in = list;
                    Ok(true)
                },
                Err(e) => Err(e),
            }
        } else if text_eq(key, "block_src_sys_in") {
            match parse_u8_ranges(value, "block_src_sys_in") {
                Ok(list) => {
                    self.block_src_sys_in = list;
                    Ok(true)
                },
                Err(e) => Err(e),
            }
        } else if text_eq(key, "allow_src_sys_out") {
            match parse_u8_ranges(value, "allow_src_sys_out") {
                Ok(list) => {
                    self.allow_src_sys_out = list;
                    Ok(true)
                },
                Err(e) => Err(e),
            }
        } else if text_eq(key, "block_src_sys_out") {
            match parse_u8_ranges(value, "block_src_sys_out") {
                Ok(list) => {
                    self.block_src_sys_out = list;
                    Ok(true)
                },
                Err(e) => Err(e),
            }
        } else if text_eq(key, "allow_src_comp_in") {
            match parse_u8_ranges(value, "allow_src_comp_in") {
                Ok(list) => {
                    self.allow_src_comp_in = list;
                    Ok(true)
                },
                Err(e) => Err(e),
            }
        } else if text_eq(key, "block_src_comp_in") {
            match parse_u8_ranges(value, "block_src_comp_in") {
                Ok(list) => {
                    self.block_src_comp_in = list;
                    Ok(true)
                },
                Err(e) => Err(e),
            }
        } else if text_eq(key, "allow_src_comp_out") {
            match parse_u8_ranges(value, "allow_src_comp_out") {
                Ok(list) => {
                    self.allow_src_comp_out = list;
                    Ok(true)
                },
                Err(e) => Err(e),
            }
        } else if text_eq(key, "block_src_comp_out") {
            match parse_u8_ranges(value, "block_src_comp_out") {
                Ok(list) => {
                    self.block_src_comp_out = list;
                    Ok(true)
                },
                Err(e) => Err(e),
            }
        } else if text_eq(key, "allow_src_endpoint_out") {
            match parse_endpoint_name_list(value, "allow_src_endpoint_out") {
                Ok(list) => {
                    self.allow_src_endpoint_out = list;
                    Ok(true)
                },
                Err(e) => Err(e),
            }
        } else if text_eq(key, "block_src_endpoint_out") {
            match parse_endpoint_name_list(value, "block_src_endpoint_out") {
                Ok(list) => {
                    self.block_src_endpoint_out = list;
                    Ok(true)
                },
                Err(e) => Err(e),
            }
        } else {
            Ok(false)
        }
    }

    /// Whether a frame of message `msgid` from `src` may come in.
    #[must_use]
    pub fn passes_in_filter(&self, msgid: u32, src: NodeId) -> (r: bool)
        ensures
            r == self@.passes_in(msgid, src),
    {
        pass_msgid_axis(msgid, &self.allow_msgid_in, &self.block_msgid_in) && pass_u8_axis(
            src.sys,
            &self.allow_src_sys_in,
            &self.block_src_sys_in,
        ) && pass_u8_axis(src.comp, &self.allow_src_comp_in, &self.block_src_comp_in)
    }

    /// Whether a frame of message `msgid` from `src`, which came in on the endpoint
    /// `src_endpoint_name`, may go out.
    #[must_use]
    pub fn passes_out_filter(&self, msgid: u32, src: NodeId, src_endpoint_name: &str) -> (r: bool)
        ensures
            r == self@.passes_out(msgid, src, src_endpoint_name@),
    {
        pass_msgid_axis(msgid, &self.allow_msgid_out, &self.block_msgid_out) && pass_u8_axis(
            src.sys,
            &self.allow_src_sys_out,
            &self.block_src_sys_out,
        ) && pass_u8_axis(src.comp, &self.allow_src_comp_out, &self.block_src_comp_out)
            && pass_src_endpoint_axis(
            src_endpoint_name,
            &self.allow_src_endpoint_out,
            &self.block_src_endpoint_out,
        )
    }

    /// Every endpoint name the egress lists refer to, with the key of the list it stands
    /// in: the allow list first.
    pub fn src_endpoint_out_entries(&self) -> (r: Vec<(&'static str, &str)>)
        ensures
            r@.len() == self@.endpoint_entries().len(),
            forall|i: int|
                0 <= i < r@.len() ==> (#[trigger] r@[i]).0@ == self@.endpoint_entries()[i].0
                    && r@[i].1@ == self@.endpoint_entries()[i].1,
    {
        let mut out: Vec<(&'static str, &str)> = Vec::new();
        let mut i: usize = 0;
        while i < self.allow_src_endpoint_out.len()
            invariant
                i <= self.allow_src_endpoint_out@.len(),
                out@.len() == i,
                forall|j: int|
                    0 <= j < i ==> (#[trigger] out@[j]).0@ == self@.endpoint_entries()[j].0
                        && out@[j].1@ == self@.endpoint_entries()[j].1,
            decreases self.allow_src_endpoint_out@.len() - i,
        {
            out.push(("allow_src_endpoint_out", self.allow_src_endpoint_out[i].as_str()));
            i = i + 1;
        }
        let n: usize = i;
        let mut k: usize = 0;
        while k < self.block_src_endpoint_out.len()
            invariant
                k <= self.block_src_endpoint_out@.len(),
                n == self.allow_src_endpoint_out@.len(),
                out@.len() == n + k,
                forall|j: int|
                    0 <= j < n + k ==> (#[trigger] out@[j]).0@ == self@.endpoint_entries()[j].0
                        && out@[j].1@ == self@.endpoint_entries()[j].1,
            decreases self.block_src_endpoint_out@.len() - k,
        {
            out.push(("block_src_endpoint_out", self.block_src_endpoint_out[k].as_str()));
            k = k + 1;
        }
        out
    }
}

// ---------------------------------------------------------------- laws

/// A block entry wins: a frame that one of the ingress block lists names does not come
/// in, whatever the allow lists say.
pub proof fn law_block_wins_in(f: FiltersView, msgid: u32, src: NodeId)
    requires
        (exists|i: int| 0 <= i < f.block_msgid_in.len() && (#[trigger] f.block_msgid_in[i]).has(msgid))
            || (exists|i: int|
            0 <= i < f.block_src_sys_in.len() && (#[trigger] f.block_src_sys_in[i]).has(src.sys))
            || (exists|i: int|
            0 <= i < f.block_src_comp_in.len() && (#[trigger] f.block_src_comp_in[i]).has(
                src.comp,
            )),
    ensures
        !f.passes_in(msgid, src),
{
}

/// A block entry wins on the way out too.
pub proof fn law_block_wins_out(f: FiltersView, msgid: u32, src: NodeId, name: Seq<char>)
    requires
        (exists|i: int|
            0 <= i < f.block_msgid_out.len() && (#[trigger] f.block_msgid_out[i]).has(msgid))
            || (exists|i: int|
            0 <= i < f.block_src_sys_out.len() && (#[trigger] f.block_src_sys_out[i]).has(src.sys))
            || (exists|i: int|
            0 <= i < f.block_src_comp_out.len() && (#[trigger] f.block_src_comp_out[i]).has(
                src.comp,
            )) || f.block_src_endpoint_out.contains(name),
    ensures
        !f.passes_out(msgid, src, name),
{
}

/// Empty allow lists restrict nothing: a frame comes in unless a block list names it.
pub proof fn law_empty_allow_is_not_blocked(f: FiltersView, msgid: u32, src: NodeId)
    requires
        f.allow_msgid_in.len() == 0,
        f.allow_src_sys_in.len() == 0,
        f.allow_src_comp_in.len() == 0,
    ensures
        f.passes_in(msgid, src) == !((exists|i: int|
            0 <= i < f.block_msgid_in.len() && (#[trigger] f.block_msgid_in[i]).has(msgid)) || (
        exists|i: int|
            0 <= i < f.block_src_sys_in.len() && (#[trigger] f.block_src_sys_in[i]).has(src.sys))
            || (exists|i: int|
            0 <= i < f.block_src_comp_in.len() && (#[trigger] f.block_src_comp_in[i]).has(
                src.comp,
            ))),
{
}

/// Endpoints without filters accept every frame, in and out.
pub proof fn law_unrestricted_passes(msgid: u32, src: NodeId, name: Seq<char>)
    ensures
        FiltersView::unrestricted().passes_in(msgid, src),
        FiltersView::unrestricted().passes_out(msgid, src, name),
{
}

/// A value that a non-empty allow list does not hold is rejected, whatever is blocked.
pub proof fn law_unlisted_is_rejected(f: FiltersView, msgid: u32, src: NodeId)
    requires
        f.allow_msgid_in.len() > 0,
        forall|i: int|
            0 <= i < f.allow_msgid_in.len() ==> !(#[trigger] f.allow_msgid_in[i]).has(msgid),
    ensures
        !f.passes_in(msgid, src),
{
}

/// Blocking more message ids never lets another frame in.
pub proof fn law_block_growth_rejects(f: FiltersView, extra: MsgIdRange, msgid: u32, src: NodeId)
    ensures
        ({
            let g = FiltersView { block_msgid_in: f.block_msgid_in.push(extra), ..f };
            g.passes_in(msgid, src) ==> f.passes_in(msgid, src)
        }),
{
    let g = FiltersView { block_msgid_in: f.block_msgid_in.push(extra), ..f };
    if g.passes_in(msgid, src) {
        assert forall|i: int| 0 <= i < f.block_msgid_in.len() implies !(
        #[trigger] f.block_msgid_in[i]).has(msgid) by {
            assert(g.block_msgid_in[i] == f.block_msgid_in[i]);
        }
    }
}

/// Allowing more message ids, where some are allowed already, never keeps another frame
/// out.
pub proof fn law_allow_growth_accepts(f: FiltersView, extra: MsgIdRange, msgid: u32, src: NodeId)
    requires
        f.allow_msgid_in.len() > 0,
    ensures
        ({
            let g = FiltersView { allow_msgid_in: f.allow_msgid_in.push(extra), ..f };
            f.passes_in(msgid, src) ==> g.passes_in(msgid, src)
        }),
{
    let g = FiltersView { allow_msgid_in: f.allow_msgid_in.push(extra), ..f };
    if f.passes_in(msgid, src) {
        let i = choose|i: int|
            0 <= i < f.allow_msgid_in.len() && (#[trigger] f.allow_msgid_in[i]).has(msgid);
        assert(g.allow_msgid_in[i] == f.allow_msgid_in[i]);
    }
}

/// The egress lists have no say in what comes in.
pub proof fn law_in_ignores_out(f: FiltersView, g: FiltersView, msgid: u32, src: NodeId)
    requires
        f.allow_msgid_in == g.allow_msgid_in,
        f.block_msgid_in == g.block_msgid_in,
        f.allow_src_sys_in == g.allow_src_sys_in,
        f.block_src_sys_in == g.block_src_sys_in,
        f.allow_src_comp_in == g.allow_src_comp_in,
        f.block_src_comp_in == g.block_src_comp_in,
    ensures
        f.passes_in(msgid, src) == g.passes_in(msgid, src),
{
}

/// The ingress lists have no say in what goes out.
pub proof fn law_out_ignores_in(
    f: FiltersView,
    g: FiltersView,
    msgid: u32,
    src: NodeId,
    name: Seq<char>,
)
    requires
        f.allow_msgid_out == g.allow_msgid_out,
        f.block_msgid_out == g.block_msgid_out,
        f.allow_src_sys_out == g.allow_src_sys_out,
        f.block_src_sys_out == g.block_src_sys_out,
        f.allow_src_comp_out == g.allow_src_comp_out,
        f.block_src_comp_out == g.block_src_comp_out,
        f.allow_src_endpoint_out == g.allow_src_endpoint_out,
        f.block_src_endpoint_out == g.block_src_endpoint_out,
    ensures
        f.passes_out(msgid, src, name) == g.passes_out(msgid, src, name),
{
}

/// Two numbers joined by a dash read back as themselves where they are in order, and are
/// refused where they are not; one number reads back as both bounds.
pub proof fn law_range_reads_back(lo: u32, hi: u32, key: Seq<char>)
    ensures
        ({
            let a = text::decimal_spec(lo as nat);
            let b = text::decimal_spec(hi as nat);
            let pair = range_pair_spec(a.push('-') + b, key);
            &&& lo <= hi ==> pair == Ok::<_, SpecErrorView>((lo as nat, hi as nat))
            &&& lo > hi ==> (pair matches Err(e) && is_value_error(e, key))
            &&& range_pair_spec(a, key) == Ok::<_, SpecErrorView>((lo as nat, lo as nat))
        }),
{
    let a = text::decimal_spec(lo as nat);
    let b = text::decimal_spec(hi as nat);
    text::lemma_decimal_chars(lo as nat);
    text::lemma_decimal_chars(hi as nat);
    text::lemma_unsigned_reads_back(lo as nat, u32::MAX as nat);
    text::lemma_unsigned_reads_back(hi as nat, u32::MAX as nat);
    let item = a.push('-') + b;
    let n = a.len() as int;
    assert forall|j: int| 0 <= j < n implies item[j] != '-' by {
        assert(item[j] == a[j]);
    }
    text::lemma_first_index(item, '-', n);
    assert(item.take(n) =~= a);
    assert(item.skip(n + 1) =~= b);
    a.index_of_first_ensures('-');
}

/// Whether `e` says that the value of `key` is wrong.
pub open spec fn is_value_error(e: SpecErrorView, key: Seq<char>) -> bool {
    e matches SpecErrorView::InvalidQueryValue { key: k, .. } && k == key
}

/// The bounds of an accepted range are in order, and what is not accepted is an error of
/// the setting.
pub proof fn law_accepted_range_is_ordered(item: Seq<char>, key: Seq<char>)
    ensures
        match range_pair_spec(item, key) {
            Ok((lo, hi)) => lo <= hi <= u32::MAX,
            Err(e) => is_value_error(e, key),
        },
{
}

/// A list of system or component ids is a list of message ids whose bounds are at most 255,
/// and means the same ranges, one for each item. Any other list is an error of the setting.
pub proof fn law_u8_list_is_short_msgid_list(value: Seq<char>, key: Seq<char>)
    ensures
        match msgid_list_spec(value, key) {
            Ok(wide) => {
                &&& wide.len() == text::split_spec(value, ',').len()
                &&& if all_fit(wide) {
                    u8_list_spec(value, key) matches Ok(narrow) && same_ranges(narrow, wide)
                } else {
                    u8_list_spec(value, key) matches Err(e) && is_value_error(e, key)
                }
            },
            Err(_) => u8_list_spec(value, key) matches Err(e) && is_value_error(e, key),
        },
{
    lemma_lists_agree(text::split_spec(value, ','), value, key);
}

/// Whether every bound is at most 255.
pub open spec fn all_fit(wide: Seq<MsgIdRange>) -> bool {
    forall|i: int| 0 <= i < wide.len() ==> (#[trigger] wide[i]).hi <= u8::MAX
}

/// Whether two lists hold the same ranges.
pub open spec fn same_ranges(narrow: Seq<U8Range>, wide: Seq<MsgIdRange>) -> bool {
    &&& narrow.len() == wide.len()
    &&& forall|i: int|
        0 <= i < wide.len() ==> (#[trigger] narrow[i]).lo == wide[i].lo && narrow[i].hi
            == wide[i].hi
}

/// Item by item.
proof fn lemma_lists_agree(items: Seq<Seq<char>>, value: Seq<char>, key: Seq<char>)
    ensures
        ({
            let wide = list_spec(items, |item: Seq<char>| msgid_item_spec(item, value, key));
            let narrow = list_spec(items, |item: Seq<char>| u8_item_spec(item, value, key));
            match wide {
                Ok(w) => {
                    &&& w.len() == items.len()
                    &&& if all_fit(w) {
                        narrow matches Ok(n) && same_ranges(n, w)
                    } else {
                        narrow matches Err(e) && is_value_error(e, key)
                    }
                },
                Err(_) => narrow matches Err(e) && is_value_error(e, key),
            }
        }),
    decreases items.len(),
{
    if items.len() > 0 {
        let rest = items.skip(1);
        let read_wide = |item: Seq<char>| msgid_item_spec(item, value, key);
        let read_narrow = |item: Seq<char>| u8_item_spec(item, value, key);
        lemma_lists_agree(rest, value, key);
        law_accepted_range_is_ordered(text::trim_spec(items[0]), key);
        if let Ok(w) = list_spec(items, read_wide) {
            let tail = list_spec(rest, read_wide)->Ok_0;
            assert(w =~= seq![w[0]] + tail);
            assert forall|i: int| 0 <= i < tail.len() implies #[trigger] tail[i] == w[i + 1] by {}
            if all_fit(w) {
                assert forall|i: int| 0 <= i < tail.len() implies (#[trigger] tail[i]).hi
                    <= u8::MAX by {
                    assert(tail[i] == w[i + 1]);
                }
            } else if w[0].hi <= u8::MAX {
                assert(!all_fit(tail)) by {
                    let k = choose|k: int| 0 <= k < w.len() && (#[trigger] w[k]).hi > u8::MAX;
                    assert(tail[k - 1] == w[k]);
                }
            }
            if let Ok(n) = list_spec(items, read_narrow) {
                let short = list_spec(rest, read_narrow)->Ok_0;
                assert(n =~= seq![n[0]] + short);
                assert forall|i: int| 0 <= i < w.len() implies (#[trigger] n[i]).lo == w[i].lo
                    && n[i].hi == w[i].hi by {
                    if i > 0 {
                        assert(n[i] == short[i - 1]);
                        assert(w[i] == tail[i - 1]);
                    }
                }
            }
        }
    }
}

/// On the way in, a value that a non-empty allow list of its axis does not hold is
/// rejected, whatever the lists of the other axes hold, and so is a value that a block list
/// of its axis holds. A frame that no axis rejects comes in.
pub proof fn law_every_axis_counts_in(f: FiltersView, msgid: u32, src: NodeId)
    ensures
        f.allow_msgid_in.len() > 0 && (forall|i: int|
            0 <= i < f.allow_msgid_in.len() ==> (msgid < (#[trigger] f.allow_msgid_in[i]).lo
                || msgid > f.allow_msgid_in[i].hi)) ==> !f.passes_in(msgid, src),
        f.allow_src_sys_in.len() > 0 && (forall|i: int|
            0 <= i < f.allow_src_sys_in.len() ==> (src.sys < (
            #[trigger] f.allow_src_sys_in[i]).lo || src.sys > f.allow_src_sys_in[i].hi))
            ==> !f.passes_in(msgid, src),
        f.allow_src_comp_in.len() > 0 && (forall|i: int|
            0 <= i < f.allow_src_comp_in.len() ==> (src.comp < (
            #[trigger] f.allow_src_comp_in[i]).lo || src.comp > f.allow_src_comp_in[i].hi))
            ==> !f.passes_in(msgid, src),
        (exists|i: int|
            0 <= i < f.block_msgid_in.len() && (#[trigger] f.block_msgid_in[i]).lo <= msgid
                && msgid <= f.block_msgid_in[i].hi) ==> !f.passes_in(msgid, src),
        (exists|i: int|
            0 <= i < f.block_src_sys_in.len() && (#[trigger] f.block_src_sys_in[i]).lo <= src.sys
                && src.sys <= f.block_src_sys_in[i].hi) ==> !f.passes_in(msgid, src),
        (exists|i: int|
            0 <= i < f.block_src_comp_in.len() && (#[trigger] f.block_src_comp_in[i]).lo
                <= src.comp && src.comp <= f.block_src_comp_in[i].hi) ==> !f.passes_in(
            msgid,
            src,
        ),
        ({
            &&& f.allow_msgid_in.len() == 0 || exists|i: int|
                0 <= i < f.allow_msgid_in.len() && (#[trigger] f.allow_msgid_in[i]).lo <= msgid
                    && msgid <= f.allow_msgid_in[i].hi
            &&& f.allow_src_sys_in.len() == 0 || exists|i: int|
                0 <= i < f.allow_src_sys_in.len() && (#[trigger] f.allow_src_sys_in[i]).lo
                    <= src.sys && src.sys <= f.allow_src_sys_in[i].hi
            &&& f.allow_src_comp_in.len() == 0 || exists|i: int|
                0 <= i < f.allow_src_comp_in.len() && (#[trigger] f.allow_src_comp_in[i]).lo
                    <= src.comp && src.comp <= f.allow_src_comp_in[i].hi
            &&& forall|i: int|
                0 <= i < f.block_msgid_in.len() ==> (msgid < (#[trigger] f.block_msgid_in[i]).lo
                    || msgid > f.block_msgid_in[i].hi)
            &&& forall|i: int|
                0 <= i < f.block_src_sys_in.len() ==> (src.sys < (
                #[trigger] f.block_src_sys_in[i]).lo || src.sys > f.block_src_sys_in[i].hi)
            &&& forall|i: int|
                0 <= i < f.block_src_comp_in.len() ==> (src.comp < (
                #[trigger] f.block_src_comp_in[i]).lo || src.comp > f.block_src_comp_in[i].hi)
        }) ==> f.passes_in(msgid, src),
{
    assert forall|i: int| 0 <= i < f.allow_msgid_in.len() implies (
    #[trigger] f.allow_msgid_in[i]).has(msgid) == (f.allow_msgid_in[i].lo <= msgid && msgid
        <= f.allow_msgid_in[i].hi) by {}
    assert forall|i: int| 0 <= i < f.allow_src_sys_in.len() implies (
    #[trigger] f.allow_src_sys_in[i]).has(src.sys) == (f.allow_src_sys_in[i].lo <= src.sys
        && src.sys <= f.allow_src_sys_in[i].hi) by {}
    assert forall|i: int| 0 <= i < f.allow_src_comp_in.len() implies (
    #[trigger] f.allow_src_comp_in[i]).has(src.comp) == (f.allow_src_comp_in[i].lo <= src.comp
        && src.comp <= f.allow_src_comp_in[i].hi) by {}
}

/// On the way out, a value that a non-empty allow list of its axis does not hold (message
/// id, source system, source component, source endpoint) is rejected, whatever the lists of
/// the other axes hold, and so is a value that a block list of its axis holds. A frame that
/// no axis rejects goes out.
pub proof fn law_every_axis_counts_out(f: FiltersView, msgid: u32, src: NodeId, name: Seq<char>)
    ensures
        f.allow_msgid_out.len() > 0 && (forall|i: int|
            0 <= i < f.allow_msgid_out.len() ==> (msgid < (#[trigger] f.allow_msgid_out[i]).lo
                || msgid > f.allow_msgid_out[i].hi)) ==> !f.passes_out(msgid, src, name),
        f.allow_src_sys_out.len() > 0 && (forall|i: int|
            0 <= i < f.allow_src_sys_out.len() ==> (src.sys < (
            #[trigger] f.allow_src_sys_out[i]).lo || src.sys > f.allow_src_sys_out[i].hi))
            ==> !f.passes_out(msgid, src, name),
        f.allow_src_comp_out.len() > 0 && (forall|i: int|
            0 <= i < f.allow_src_comp_out.len() ==> (src.comp < (
            #[trigger] f.allow_src_comp_out[i]).lo || src.comp > f.allow_src_comp_out[i].hi))
            ==> !f.passes_out(msgid, src, name),
        f.allow_src_endpoint_out.len() > 0 && (forall|i: int|
            0 <= i < f.allow_src_endpoint_out.len() ==> #[trigger] f.allow_src_endpoint_out[i]
                != name) ==> !f.passes_out(msgid, src, name),
        (exists|i: int|
            0 <= i < f.block_msgid_out.len() && (#[trigger] f.block_msgid_out[i]).lo <= msgid
                && msgid <= f.block_msgid_out[i].hi) ==> !f.passes_out(msgid, src, name),
        (exists|i: int|
            0 <= i < f.block_src_sys_out.len() && (#[trigger] f.block_src_sys_out[i]).lo
                <= src.sys && src.sys <= f.block_src_sys_out[i].hi) ==> !f.passes_out(
            msgid,
            src,
            name,
        ),
        (exists|i: int|
            0 <= i < f.block_src_comp_out.len() && (#[trigger] f.block_src_comp_out[i]).lo
                <= src.comp && src.comp <= f.block_src_comp_out[i].hi) ==> !f.passes_out(
            msgid,
            src,
            name,
        ),
        (exists|i: int|
            0 <= i < f.block_src_endpoint_out.len() && #[trigger] f.block_src_endpoint_out[i]
                == name) ==> !f.passes_out(msgid, src, name),
        ({
            &&& f.allow_msgid_out.len() == 0 || exists|i: int|
                0 <= i < f.allow_msgid_out.len() && (#[trigger] f.allow_msgid_out[i]).lo <= msgid
                    && msgid <= f.allow_msgid_out[i].hi
            &&& f.allow_src_sys_out.len() == 0 || exists|i: int|
                0 <= i < f.allow_src_sys_out.len() && (#[trigger] f.allow_src_sys_out[i]).lo
                    <= src.sys && src.sys <= f.allow_src_sys_out[i].hi
            &&& f.allow_src_comp_out.len() == 0 || exists|i: int|
                0 <= i < f.allow_src_comp_out.len() && (#[trigger] f.allow_src_comp_out[i]).lo
                    <= src.comp && src.comp <= f.allow_src_comp_out[i].hi
            &&& f.allow_src_endpoint_out.len() == 0 || exists|i: int|
                0 <= i < f.allow_src_endpoint_out.len() && #[trigger] f.allow_src_endpoint_out[i]
                    == name
            &&& forall|i: int|
                0 <= i < f.block_msgid_out.len() ==> (msgid < (#[trigger] f.block_msgid_out[i]).lo
                    || msgid > f.block_msgid_out[i].hi)
            &&& forall|i: int|
                0 <= i < f.block_src_sys_out.len() ==> (src.sys < (
                #[trigger] f.block_src_sys_out[i]).lo || src.sys > f.block_src_sys_out[i].hi)
            &&& forall|i: int|
                0 <= i < f.block_src_comp_out.len() ==> (src.comp < (
                #[trigger] f.block_src_comp_out[i]).lo || src.comp > f.block_src_comp_out[i].hi)
            &&& forall|i: int|
                0 <= i < f.block_src_endpoint_out.len() ==> #[trigger] f.block_src_endpoint_out[i]
                    != name
        }) ==> f.passes_out(msgid, src, name),
{
    assert forall|i: int| 0 <= i < f.allow_msgid_out.len() implies (
    #[trigger] f.allow_msgid_out[i]).has(msgid) == (f.allow_msgid_out[i].lo <= msgid && msgid
        <= f.allow_msgid_out[i].hi) by {}
    assert forall|i: int| 0 <= i < f.allow_src_sys_out.len() implies (
    #[trigger] f.allow_src_sys_out[i]).has(src.sys) == (f.allow_src_sys_out[i].lo <= src.sys
        && src.sys <= f.allow_src_sys_out[i].hi) by {}
    assert forall|i: int| 0 <= i < f.allow_src_comp_out.len() implies (
    #[trigger] f.allow_src_comp_out[i]).has(src.comp) == (f.allow_src_comp_out[i].lo <= src.comp
        && src.comp <= f.allow_src_comp_out[i].hi) by {}
}

/// The axes are judged one by one: a frame goes out exactly where it would go out under the
/// lists of each axis alone.
pub proof fn law_axes_are_independent(f: FiltersView, msgid: u32, src: NodeId, name: Seq<char>)
    ensures
        ({
            let none = FiltersView::unrestricted();
            let by_msgid = FiltersView {
                allow_msgid_out: f.allow_msgid_out,
                block_msgid_out: f.block_msgid_out,
                allow_msgid_in: f.allow_msgid_in,
                block_msgid_in: f.block_msgid_in,
                ..none
            };
            let by_sys = FiltersView {
                allow_src_sys_out: f.allow_src_sys_out,
                block_src_sys_out: f.block_src_sys_out,
                allow_src_sys_in: f.allow_src_sys_in,
                block_src_sys_in: f.block_src_sys_in,
                ..none
            };
            let by_comp = FiltersView {
                allow_src_comp_out: f.allow_src_comp_out,
                block_src_comp_out: f.block_src_comp_out,
                allow_src_comp_in: f.allow_src_comp_in,
                block_src_comp_in: f.block_src_comp_in,
                ..none
            };
            let by_name = FiltersView {
                allow_src_endpoint_out: f.allow_src_endpoint_out,
                block_src_endpoint_out: f.block_src_endpoint_out,
                ..none
            };
            &&& f.passes_out(msgid, src, name) == (by_msgid.passes_out(msgid, src, name)
                && by_sys.passes_out(msgid, src, name) && by_comp.passes_out(msgid, src, name)
                && by_name.passes_out(msgid, src, name))
            &&& f.passes_in(msgid, src) == (by_msgid.passes_in(msgid, src) && by_sys.passes_in(
                msgid,
                src,
            ) && by_comp.passes_in(msgid, src))
        }),
{
}

/// The keys of the filter lists are different from one another, and begin with `a` or `b`.
proof fn lemma_filter_keys()
    ensures
        forall|i: int, j: int|
            0 <= i < j < filter_keys_spec().len() ==> filter_keys_spec()[i]
                != filter_keys_spec()[j],
        forall|i: int|
            0 <= i < filter_keys_spec().len() ==> (#[trigger] filter_keys_spec()[i]).len() > 0 && (
            filter_keys_spec()[i][0] == 'a' || filter_keys_spec()[i][0] == 'b'),
{
    reveal_strlit("allow_msgid_in");
    reveal_strlit("allow_msgid_out");
    reveal_strlit("allow_src_comp_in");
    reveal_strlit("allow_src_comp_out");
    reveal_strlit("allow_src_endpoint_out");
    reveal_strlit("allow_src_sys_in");
    reveal_strlit("allow_src_sys_out");
    reveal_strlit("block_msgid_in");
    reveal_strlit("block_msgid_out");
    reveal_strlit("block_src_comp_in");
    reveal_strlit("block_src_comp_out");
    reveal_strlit("block_src_endpoint_out");
    reveal_strlit("block_src_sys_in");
    reveal_strlit("block_src_sys_out");
    let keys = filter_keys_spec();
    assert(keys[0] == "allow_msgid_in"@ && keys[0].len() == 14);
    assert(keys[1] == "allow_msgid_out"@ && keys[1].len() == 15);
    assert(keys[2] == "allow_src_comp_in"@ && keys[2].len() == 17);
    assert(keys[3] == "allow_src_comp_out"@ && keys[3].len() == 18);
    assert(keys[4] == "allow_src_endpoint_out"@ && keys[4].len() == 22);
    assert(keys[5] == "allow_src_sys_in"@ && keys[5].len() == 16);
    assert(keys[6] == "allow_src_sys_out"@ && keys[6].len() == 17);
    assert(keys[7] == "block_msgid_in"@ && keys[7].len() == 14);
    assert(keys[8] == "block_msgid_out"@ && keys[8].len() == 15);
    assert(keys[9] == "block_src_comp_in"@ && keys[9].len() == 17);
    assert(keys[10] == "block_src_comp_out"@ && keys[10].len() == 18);
    assert(keys[11] == "block_src_endpoint_out"@ && keys[11].len() == 22);
    assert(keys[12] == "block_src_sys_in"@ && keys[12].len() == 16);
    assert(keys[13] == "block_src_sys_out"@ && keys[13].len() == 17);
    assert forall|i: int, j: int| 0 <= i < j < keys.len() implies keys[i] != keys[j] by {
        if keys[i] == keys[j] {
            assert(keys[i][0] == keys[j][0]);
            assert(keys[i][10] == keys[j][10]);
        }
    }
}

/// Each key sets the list that is named like it to what the value spells, and leaves the
/// other lists as they are.
pub proof fn law_key_sets_its_own_list(f: FiltersView, value: Seq<char>)
    ensures
        msgid_list_spec(value, "allow_msgid_in"@) matches Ok(l) ==> apply_filter_spec(
            f,
            "allow_msgid_in"@,
            value,
        ) == Ok::<_, SpecErrorView>(Some(FiltersView { allow_msgid_in: l, ..f })),
        msgid_list_spec(value, "block_msgid_in"@) matches Ok(l) ==> apply_filter_spec(
            f,
            "block_msgid_in"@,
            value,
        ) == Ok::<_, SpecErrorView>(Some(FiltersView { block_msgid_in: l, ..f })),
        msgid_list_spec(value, "allow_msgid_out"@) matches Ok(l) ==> apply_filter_spec(
            f,
            "allow_msgid_out"@,
            value,
        ) == Ok::<_, SpecErrorView>(Some(FiltersView { allow_msgid_out: l, ..f })),
        msgid_list_spec(value, "block_msgid_out"@) matches Ok(l) ==> apply_filter_spec(
            f,
            "block_msgid_out"@,
            value,
        ) == Ok::<_, SpecErrorView>(Some(FiltersView { block_msgid_out: l, ..f })),
        u8_list_spec(value, "allow_src_sys_in"@) matches Ok(l) ==> apply_filter_spec(
            f,
            "allow_src_sys_in"@,
            value,
        ) == Ok::<_, SpecErrorView>(Some(FiltersView { allow_src_sys_in: l, ..f })),
        u8_list_spec(value, "block_src_sys_in"@) matches Ok(l) ==> apply_filter_spec(
            f,
            "block_src_sys_in"@,
            value,
        ) == Ok::<_, SpecErrorView>(Some(FiltersView { block_src_sys_in: l, ..f })),
        u8_list_spec(value, "allow_src_sys_out"@) matches Ok(l) ==> apply_filter_spec(
            f,
            "allow_src_sys_out"@,
            value,
        ) == Ok::<_, SpecErrorView>(Some(FiltersView { allow_src_sys_out: l, ..f })),
        u8_list_spec(value, "block_src_sys_out"@) matches Ok(l) ==> apply_filter_spec(
            f,
            "block_src_sys_out"@,
            value,
        ) == Ok::<_, SpecErrorView>(Some(FiltersView { block_src_sys_out: l, ..f })),
        u8_list_spec(value, "allow_src_comp_in"@) matches Ok(l) ==> apply_filter_spec(
            f,
            "allow_src_comp_in"@,
            value,
        ) == Ok::<_, SpecErrorView>(Some(FiltersView { allow_src_comp_in: l, ..f })),
        u8_list_spec(value, "block_src_comp_in"@) matches Ok(l) ==> apply_filter_spec(
            f,
            "block_src_comp_in"@,
            value,
        ) == Ok::<_, SpecErrorView>(Some(FiltersView { block_src_comp_in: l, ..f })),
        u8_list_spec(value, "allow_src_comp_out"@) matches Ok(l) ==> apply_filter_spec(
            f,
            "allow_src_comp_out"@,
            value,
        ) == Ok::<_, SpecErrorView>(Some(FiltersView { allow_src_comp_out: l, ..f })),
        u8_list_spec(value, "block_src_comp_out"@) matches Ok(l) ==> apply_filter_spec(
            f,
            "block_src_comp_out"@,
            value,
        ) == Ok::<_, SpecErrorView>(Some(FiltersView { block_src_comp_out: l, ..f })),
        name_list_spec(value, "allow_src_endpoint_out"@) matches Ok(l) ==> apply_filter_spec(
            f,
            "allow_src_endpoint_out"@,
            value,
        ) == Ok::<_, SpecErrorView>(Some(FiltersView { allow_src_endpoint_out: l, ..f })),
        name_list_spec(value, "block_src_endpoint_out"@) matches Ok(l) ==> apply_filter_spec(
            f,
            "block_src_endpoint_out"@,
            value,
        ) == Ok::<_, SpecErrorView>(Some(FiltersView { block_src_endpoint_out: l, ..f })),
{
    lemma_filter_keys();
    let keys = filter_keys_spec();
    assert(keys[0] == "allow_msgid_in"@);
    assert(keys[1] == "allow_msgid_out"@);
    assert(keys[2] == "allow_src_comp_in"@);
    assert(keys[3] == "allow_src_comp_out"@);
    assert(keys[4] == "allow_src_endpoint_out"@);
    assert(keys[5] == "allow_src_sys_in"@);
    assert(keys[6] == "allow_src_sys_out"@);
    assert(keys[7] == "block_msgid_in"@);
    assert(keys[8] == "block_msgid_out"@);
    assert(keys[9] == "block_src_comp_in"@);
    assert(keys[10] == "block_src_comp_out"@);
    assert(keys[11] == "block_src_endpoint_out"@);
    assert(keys[12] == "block_src_sys_in"@);
    assert(keys[13] == "block_src_sys_out"@);
}

/// A value that cannot be read is an error, and a key that names no filter list is left to
/// others.
pub proof fn law_other_keys_are_no_lists(f: FiltersView, key: Seq<char>, value: Seq<char>)
    ensures
        apply_filter_spec(f, key, value) == Ok::<Option<FiltersView>, SpecErrorView>(None)
            <==> !filter_keys_spec().contains(key),
        key.len() > 0 && key[0] != 'a' && key[0] != 'b' ==> !filter_keys_spec().contains(key),
{
    lemma_filter_keys();
    let keys = filter_keys_spec();
    assert(keys[0] == "allow_msgid_in"@);
    assert(keys[1] == "allow_msgid_out"@);
    assert(keys[2] == "allow_src_comp_in"@);
    assert(keys[3] == "allow_src_comp_out"@);
    assert(keys[4] == "allow_src_endpoint_out"@);
    assert(keys[5] == "allow_src_sys_in"@);
    assert(keys[6] == "allow_src_sys_out"@);
    assert(keys[7] == "block_msgid_in"@);
    assert(keys[8] == "block_msgid_out"@);
    assert(keys[9] == "block_src_comp_in"@);
    assert(keys[10] == "block_src_comp_out"@);
    assert(keys[11] == "block_src_endpoint_out"@);
    assert(keys[12] == "block_src_sys_in"@);
    assert(keys[13] == "block_src_sys_out"@);
    if keys.contains(key) {
        let i = keys.index_of(key);
        assert(keys[i] == key);
    }
}

/// Items that can be read one by one are read as a list, in their order.
proof fn lemma_list_reads<T>(
    items: Seq<Seq<char>>,
    read: spec_fn(Seq<char>) -> Result<T, SpecErrorView>,
    values: Seq<T>,
)
    requires
        items.len() == values.len(),
        forall|i: int|
            0 <= i < items.len() ==> read(#[trigger] items[i]) == Ok::<T, SpecErrorView>(values[i]),
    ensures
        list_spec(items, read) == Ok::<_, SpecErrorView>(values),
    decreases items.len(),
{
    if items.len() == 0 {
        assert(values =~= Seq::empty());
    } else {
        assert forall|i: int| 0 <= i < items.skip(1).len() implies read(#[trigger] items.skip(1)[i])
            == Ok::<T, SpecErrorView>(values.skip(1)[i]) by {
            assert(items.skip(1)[i] == items[i + 1]);
        }
        lemma_list_reads(items.skip(1), read, values.skip(1));
        assert(read(items[0]) == Ok::<T, SpecErrorView>(values[0]));
        assert(seq![values[0]] + values.skip(1) =~= values);
    }
}

/// A list that can be read holds no item that cannot.
proof fn lemma_list_all<T>(
    items: Seq<Seq<char>>,
    read: spec_fn(Seq<char>) -> Result<T, SpecErrorView>,
    i: int,
)
    requires
        0 <= i < items.len(),
        list_spec(items, read) is Ok,
    ensures
        read(items[i]) is Ok,
    decreases items.len(),
{
    if i > 0 {
        lemma_list_all(items.skip(1), read, i - 1);
        assert(items.skip(1)[i - 1] == items[i]);
    }
}

/// The text of a range.
pub open spec fn range_text(lo: nat, hi: nat) -> Seq<char> {
    text::decimal_spec(lo).push('-') + text::decimal_spec(hi)
}

/// The text of a range has no comma and no white space at its ends.
proof fn lemma_range_text(lo: nat, hi: nat)
    ensures
        range_text(lo, hi).len() > 0,
        !range_text(lo, hi).contains(','),
        text::trim_spec(range_text(lo, hi)) == range_text(lo, hi),
{
    text::lemma_decimal_chars(lo);
    text::lemma_decimal_chars(hi);
    let a = text::decimal_spec(lo);
    let b = text::decimal_spec(hi);
    let s = range_text(lo, hi);
    assert forall|i: int| 0 <= i < s.len() implies s[i] != ',' by {
        if i < a.len() {
            assert(s[i] == a[i]);
        } else if i > a.len() {
            assert(s[i] == b[i - a.len() - 1]);
        }
    }
    assert(s[0] == a[0]);
    assert(s[s.len() - 1] == b[b.len() - 1]);
    assert(!text::is_white(s[0]));
    assert(!text::is_white(s[s.len() - 1]));
}

/// Ranges of message ids, written with commas between them, read back as themselves.
pub proof fn law_msgid_list_reads_back(ranges: Seq<MsgIdRange>, key: Seq<char>)
    requires
        ranges.len() > 0,
        forall|i: int| 0 <= i < ranges.len() ==> (#[trigger] ranges[i]).lo <= ranges[i].hi,
    ensures
        msgid_list_spec(
            text::joined(
                ranges.map_values(|r: MsgIdRange| range_text(r.lo as nat, r.hi as nat)),
                ',',
            ),
            key,
        ) == Ok::<_, SpecErrorView>(ranges),
{
    let items = ranges.map_values(|r: MsgIdRange| range_text(r.lo as nat, r.hi as nat));
    let value = text::joined(items, ',');
    let read = |item: Seq<char>| msgid_item_spec(item, value, key);
    assert forall|i: int| 0 <= i < items.len() implies !(#[trigger] items[i]).contains(',') by {
        lemma_range_text(ranges[i].lo as nat, ranges[i].hi as nat);
    }
    text::law_joined_texts_split(items, ',');
    assert forall|i: int| 0 <= i < items.len() implies read(#[trigger] items[i]) == Ok::<
        MsgIdRange,
        SpecErrorView,
    >(ranges[i]) by {
        let r = ranges[i];
        lemma_range_text(r.lo as nat, r.hi as nat);
        law_range_reads_back(r.lo, r.hi, key);
    }
    lemma_list_reads(items, read, ranges);
}

/// Ranges of system or component ids, written with commas between them, read back as
/// themselves.
pub proof fn law_u8_list_reads_back(ranges: Seq<U8Range>, key: Seq<char>)
    requires
        ranges.len() > 0,
        forall|i: int| 0 <= i < ranges.len() ==> (#[trigger] ranges[i]).lo <= ranges[i].hi,
    ensures
        u8_list_spec(
            text::joined(ranges.map_values(|r: U8Range| range_text(r.lo as nat, r.hi as nat)), ','),
            key,
        ) == Ok::<_, SpecErrorView>(ranges),
{
    let items = ranges.map_values(|r: U8Range| range_text(r.lo as nat, r.hi as nat));
    let value = text::joined(items, ',');
    let read = |item: Seq<char>| u8_item_spec(item, value, key);
    assert forall|i: int| 0 <= i < items.len() implies !(#[trigger] items[i]).contains(',') by {
        lemma_range_text(ranges[i].lo as nat, ranges[i].hi as nat);
    }
    text::law_joined_texts_split(items, ',');
    assert forall|i: int| 0 <= i < items.len() implies read(#[trigger] items[i]) == Ok::<
        U8Range,
        SpecErrorView,
    >(ranges[i]) by {
        let r = ranges[i];
        lemma_range_text(r.lo as nat, r.hi as nat);
        law_range_reads_back(r.lo as u32, r.hi as u32, key);
    }
    lemma_list_reads(items, read, ranges);
}

/// Endpoint names, written with commas between them, read back as themselves.
pub proof fn law_name_list_reads_back(list: Seq<Seq<char>>, key: Seq<char>)
    requires
        list.len() > 0,
        forall|i: int| 0 <= i < list.len() ==> names::is_name_text(#[trigger] list[i]),
    ensures
        name_list_spec(text::joined(list, ','), key) == Ok::<_, SpecErrorView>(list),
{
    let value = text::joined(list, ',');
    let read = |item: Seq<char>| name_item_spec(item, value, key);
    assert forall|i: int| 0 <= i < list.len() implies !(#[trigger] list[i]).contains(',') by {
        let s = list[i];
        if s.contains(',') {
            assert(names::is_name_char(s[s.index_of(',')]));
        }
    }
    text::law_joined_texts_split(list, ',');
    assert forall|i: int| 0 <= i < list.len() implies read(#[trigger] list[i]) == Ok::<
        Seq<char>,
        SpecErrorView,
    >(list[i]) by {
        let s = list[i];
        assert(names::is_name_char(s[0]));
        assert(names::is_name_char(s[s.len() - 1]));
        assert(text::trim_spec(s) == s);
    }
    lemma_list_reads(list, read, list);
}

/// A list with a blank item is refused.
pub proof fn law_blank_items_are_refused(value: Seq<char>, key: Seq<char>, i: int)
    requires
        0 <= i < text::split_spec(value, ',').len(),
        text::trim_spec(text::split_spec(value, ',')[i]).len() == 0,
    ensures
        msgid_list_spec(value, key) is Err,
        u8_list_spec(value, key) is Err,
        name_list_spec(value, key) is Err,
{
    let items = text::split_spec(value, ',');
    if msgid_list_spec(value, key) is Ok {
        lemma_list_all(items, |item: Seq<char>| msgid_item_spec(item, value, key), i);
    }
    if u8_list_spec(value, key) is Ok {
        lemma_list_all(items, |item: Seq<char>| u8_item_spec(item, value, key), i);
    }
    if name_list_spec(value, key) is Ok {
        lemma_list_all(items, |item: Seq<char>| name_item_spec(item, value, key), i);
    }
}

} // verus!

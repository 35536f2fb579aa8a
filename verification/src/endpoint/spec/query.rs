//! The query part of a specification: `key=value` settings.

use vstd::prelude::*;
use vstd::string::StringExecFns;

use crate::endpoint::defaults::{
    MAX_IDLE_SECS, MAX_LATCH_IDLE_SECS, MAX_TX_QUEUE_FRAMES, MIN_IDLE_SECS, MIN_LATCH_IDLE_SECS,
    MIN_TX_QUEUE_FRAMES,
};
use crate::endpoint::filters;
use crate::endpoint::filters::Filters;
use crate::endpoint::identity_flags;
use crate::endpoint::identity_flags::{IdentityFlags, IdentityView};
use crate::endpoint::spec::bounds;
use crate::endpoint::spec::bounds::check_u64_range;
use crate::endpoint::spec::distance;
use crate::endpoint::spec::distance::levenshtein;
use crate::endpoint::spec::endpoint_kinds::{
    CommonQuery, SerialEndpoint, SerialFlowControl, SerialView, TcpClientEndpoint, TcpClientView,
    TcpServerEndpoint, TcpServerView, UdpClientEndpoint, UdpClientView, UdpServerEndpoint,
    UdpServerView,
};
use crate::endpoint::spec::error;
use crate::endpoint::spec::error::{invalid_value, SpecError, SpecErrorView};
use crate::endpoint::spec::scheme::Scheme;
use crate::text;
use crate::text::{parse_unsigned, split_char, split_once_char, text_eq};

verus! {

// ---------------------------------------------------------------- tokens

/// The characters of each key and value.
pub open spec fn pair_texts(v: Seq<(String, String)>) -> Seq<(Seq<char>, Seq<char>)> {
    Seq::new(v.len(), |i: int| (v[i].0@, v[i].1@))
}

/// Whether one of the pairs has the key `key`.
pub open spec fn has_key(pairs: Seq<(Seq<char>, Seq<char>)>, key: Seq<char>) -> bool {
    exists|i: int| 0 <= i < pairs.len() && (#[trigger] pairs[i]).0 == key
}

/// The pairs that the pieces of a query add to `done`. Blank pieces are skipped; a piece
/// without `=`, with an empty key or with a key seen before ends it.
pub open spec fn pairs_spec(
    pieces: Seq<Seq<char>>,
    done: Seq<(Seq<char>, Seq<char>)>,
) -> Result<Seq<(Seq<char>, Seq<char>)>, SpecErrorView>
    decreases pieces.len(),
{
    if pieces.len() == 0 {
        Ok(done)
    } else if pieces[0].len() == 0 {
        pairs_spec(pieces.skip(1), done)
    } else {
        match text::split_once_spec(pieces[0], '=') {
            None => Err(
                SpecErrorView::MalformedQuery(
                    "expected '<key>=<value>' (got '"@ + pieces[0] + "')"@,
                ),
            ),
            Some((key, value)) => if key.len() == 0 {
                Err(SpecErrorView::MalformedQuery("empty key in '"@ + pieces[0] + "'"@))
            } else if has_key(done, key) {
                Err(SpecErrorView::DuplicateQueryKey(key))
            } else {
                pairs_spec(pieces.skip(1), done.push((key, value)))
            },
        }
    }
}

/// The pairs of a query in order.
pub open spec fn query_spec(text: Seq<char>) -> Result<
    Seq<(Seq<char>, Seq<char>)>,
    SpecErrorView,
> {
    pairs_spec(text::split_spec(text, '&'), Seq::empty())
}

/// Whether one of the pairs has the key `key`.
fn contains_key(pairs: &[(String, String)], key: &str) -> (r: bool)
    ensures
        r == has_key(pair_texts(pairs@), key@),
{
    let mut i: usize = 0;
    while i < pairs.len()
        invariant
            i <= pairs@.len(),
            forall|j: int| 0 <= j < i ==> (#[trigger] pair_texts(pairs@)[j]).0 != key@,
        decreases pairs@.len() - i,
    {
        if text_eq(pairs[i].0.as_str(), key) {
            assert(pair_texts(pairs@)[i as int].0 == key@);
            return true;
        }
        assert(pair_texts(pairs@)[i as int].0 != key@);
        i = i + 1;
    }
    false
}

/// Split a query into its pairs, in order. Empty keys and repeated keys are refused.
pub fn parse_query_pairs(text: &str) -> (r: Result<Vec<(String, String)>, SpecError>)
    ensures
        match r {
            Ok(v) => query_spec(text@) == Ok::<_, SpecErrorView>(pair_texts(v@)),
            Err(e) => query_spec(text@) == Err::<Seq<(Seq<char>, Seq<char>)>, _>(e@),
        },
{
    let pieces = split_char(text, '&');
    let mut out: Vec<(String, String)> = Vec::new();
    let ghost all = text::split_spec(text@, '&');
    let mut i: usize = 0;
    assert(all.skip(0) == all);
    assert(pair_texts(out@) =~= Seq::empty());
    while i < pieces.len()
        invariant
            i <= pieces@.len(),
            text::slice_texts(pieces@) == all,
            pairs_spec(all.skip(i as int), pair_texts(out@)) == query_spec(text@),
        decreases pieces@.len() - i,
    {
        let piece = pieces[i];
        proof {
            assert(all.skip(i as int)[0] == piece@);
            assert(all.skip(i as int).skip(1) == all.skip(i + 1));
        }
        i = i + 1;
        if !piece.is_empty() {
            match split_once_char(piece, '=') {
                None => {
                    return Err(
                        SpecError::MalformedQuery(
                            String::from_str("expected '<key>=<value>' (got '").concat(
                                piece,
                            ).concat("')"),
                        ),
                    );
                },
                Some((key, value)) => {
                    if key.is_empty() {
                        return Err(
                            SpecError::MalformedQuery(
                                String::from_str("empty key in '").concat(piece).concat("'"),
                            ),
                        );
                    }
                    if contains_key(&out, key) {
                        return Err(SpecError::DuplicateQueryKey(key.to_owned()));
                    }
                    let ghost before = out@;
                    out.push((key.to_owned(), value.to_owned()));
                    assert(pair_texts(out@) =~= pair_texts(before).push((key@, value@)));
                },
            }
        }
    }
    assert(all.skip(all.len() as int).len() == 0);
    Ok(out)
}

/// No two pairs have the same key.
pub open spec fn keys_unique(pairs: Seq<(Seq<char>, Seq<char>)>) -> bool {
    forall|i: int, j: int| 0 <= i < j < pairs.len() ==> pairs[i].0 != pairs[j].0
}

/// A query that reads back as `pairs`.
pub open spec fn query_text(pairs: Seq<(Seq<char>, Seq<char>)>) -> Seq<char>
    decreases pairs.len(),
{
    if pairs.len() == 0 {
        Seq::empty()
    } else {
        let piece = pairs[0].0.push('=') + pairs[0].1;
        if pairs.len() == 1 {
            piece
        } else {
            piece.push('&') + query_text(pairs.skip(1))
        }
    }
}

/// The key and the value can stand in a query.
pub open spec fn is_writable(pair: (Seq<char>, Seq<char>)) -> bool {
    &&& pair.0.len() > 0
    &&& !pair.0.contains('=')
    &&& !pair.0.contains('&')
    &&& !pair.1.contains('&')
}

/// Pairs with distinct keys, written as a query, read back as themselves.
pub proof fn law_query_reads_back(pairs: Seq<(Seq<char>, Seq<char>)>)
    requires
        keys_unique(pairs),
        forall|i: int| 0 <= i < pairs.len() ==> is_writable(#[trigger] pairs[i]),
    ensures
        query_spec(query_text(pairs)) == Ok::<_, SpecErrorView>(pairs),
{
    assert(Seq::<(Seq<char>, Seq<char>)>::empty() + pairs =~= pairs);
    lemma_pairs_read_back(pairs, Seq::empty());
}

/// Behind pairs that have been read already.
proof fn lemma_pairs_read_back(
    pairs: Seq<(Seq<char>, Seq<char>)>,
    done: Seq<(Seq<char>, Seq<char>)>,
)
    requires
        keys_unique(done + pairs),
        forall|i: int| 0 <= i < pairs.len() ==> is_writable(#[trigger] pairs[i]),
    ensures
        pairs_spec(text::split_spec(query_text(pairs), '&'), done) == Ok::<_, SpecErrorView>(
            done + pairs,
        ),
    decreases pairs.len(),
{
    reveal_with_fuel(pairs_spec, 2);
    let whole = query_text(pairs);
    let pieces = text::split_spec(whole, '&');
    if pairs.len() == 0 {
        whole.index_of_first_ensures('&');
        assert(pieces =~= seq![whole]);
        assert(pieces.skip(1) =~= Seq::empty());
        assert(done + pairs =~= done);
    } else {
        let (key, value) = pairs[0];
        let piece = key.push('=') + value;
        assert(is_writable(pairs[0]));
        assert forall|j: int| 0 <= j < piece.len() implies piece[j] != '&' by {
            if j < key.len() {
                assert(piece[j] == key[j]);
            } else if j > key.len() {
                assert(piece[j] == value[j - key.len() - 1]);
            }
        }
        assert forall|j: int| 0 <= j < key.len() implies piece[j] != '=' by {
            assert(piece[j] == key[j]);
        }
        text::lemma_first_index(piece, '=', key.len() as int);
        assert(piece.take(key.len() as int) =~= key);
        assert(piece.skip(key.len() as int + 1) =~= value);
        assert(!has_key(done, key)) by {
            if has_key(done, key) {
                let i = choose|i: int| 0 <= i < done.len() && (#[trigger] done[i]).0 == key;
                assert((done + pairs)[i].0 == (done + pairs)[done.len() as int].0);
            }
        }
        let next = done.push(pairs[0]);
        assert(next + pairs.skip(1) =~= done + pairs);
        if pairs.len() == 1 {
            piece.index_of_first_ensures('&');
            assert(pieces =~= seq![piece]);
            assert(pieces.skip(1) =~= Seq::empty());
            assert(next =~= done + pairs);
        } else {
            let rest = query_text(pairs.skip(1));
            let at = piece.len() as int;
            assert forall|j: int| 0 <= j < at implies whole[j] != '&' by {
                assert(whole[j] == piece[j]);
            }
            text::lemma_first_index(whole, '&', at);
            assert(whole.take(at) =~= piece);
            assert(whole.skip(at + 1) =~= rest);
            assert(pieces =~= seq![piece] + text::split_spec(rest, '&'));
            assert(pieces.skip(1) =~= text::split_spec(rest, '&'));
            assert forall|i: int| 0 <= i < pairs.skip(1).len() implies is_writable(
                #[trigger] pairs.skip(1)[i],
            ) by {
                assert(pairs.skip(1)[i] == pairs[i + 1]);
            }
            lemma_pairs_read_back(pairs.skip(1), next);
        }
    }
}

/// An accepted query names every key once, and no key is empty.
pub proof fn law_query_keys_unique(text: Seq<char>)
    requires
        query_spec(text) is Ok,
    ensures
        keys_unique(query_spec(text)->Ok_0),
        forall|i: int|
            0 <= i < query_spec(text)->Ok_0.len() ==> (#[trigger] query_spec(text)->Ok_0[i]).0.len()
                > 0,
{
    lemma_pairs_unique(text::split_spec(text, '&'), Seq::empty());
}

/// Pairs with unique keys stay so.
proof fn lemma_pairs_unique(pieces: Seq<Seq<char>>, done: Seq<(Seq<char>, Seq<char>)>)
    requires
        keys_unique(done),
        forall|i: int| 0 <= i < done.len() ==> (#[trigger] done[i]).0.len() > 0,
        pairs_spec(pieces, done) is Ok,
    ensures
        keys_unique(pairs_spec(pieces, done)->Ok_0),
        forall|i: int|
            0 <= i < pairs_spec(pieces, done)->Ok_0.len() ==> (#[trigger] pairs_spec(
                pieces,
                done,
            )->Ok_0[i]).0.len() > 0,
    decreases pieces.len(),
{
    if pieces.len() > 0 {
        if pieces[0].len() == 0 {
            lemma_pairs_unique(pieces.skip(1), done);
        } else {
            let (key, value) = text::split_once_spec(pieces[0], '=').unwrap();
            let more = done.push((key, value));
            assert forall|i: int, j: int| 0 <= i < j < more.len() implies more[i].0
                != more[j].0 by {
                if j == done.len() {
                    assert(done[i].0 != key);
                }
            }
            lemma_pairs_unique(pieces.skip(1), more);
        }
    }
}

// ---------------------------------------------------------------- numbers

/// The number of at most `max` that `value` spells.
pub open spec fn number_spec(value: Seq<char>, key: Seq<char>, max: nat) -> Result<
    nat,
    SpecErrorView,
> {
    match text::unsigned_spec(value, max) {
        Some(n) => Ok(n),
        None => Err(
            SpecErrorView::InvalidQueryValue {
                key,
                reason: "expected a non-negative integer, got '"@ + value + "'"@,
            },
        ),
    }
}

/// The number in `min..=max` that `value` spells.
pub open spec fn bounded_spec(
    value: Seq<char>,
    key: Seq<char>,
    type_max: nat,
    min: nat,
    max: nat,
) -> Result<nat, SpecErrorView> {
    match number_spec(value, key, type_max) {
        Ok(n) => if min <= n <= max {
            Ok(n)
        } else {
            Err(bounds::out_of_bounds(n, key, min, max))
        },
        Err(e) => Err(e),
    }
}

/// Read a number.
pub fn parse_u64(value: &str, key: &'static str) -> (r: Result<u64, SpecError>)
    ensures
        match r {
            Ok(n) => number_spec(value@, key@, u64::MAX as nat) == Ok::<nat, SpecErrorView>(
                n as nat,
            ),
            Err(e) => number_spec(value@, key@, u64::MAX as nat) == Err::<nat, _>(e@),
        },
{
    match parse_unsigned(value, u64::MAX) {
        Some(n) => Ok(n),
        None => Err(invalid_value(key, "expected a non-negative integer, got '", value, "'")),
    }
}

/// Read a number that fits `usize`.
pub fn parse_usize(value: &str, key: &'static str) -> (r: Result<usize, SpecError>)
    ensures
        match r {
            Ok(n) => number_spec(value@, key@, usize::MAX as nat) == Ok::<nat, SpecErrorView>(
                n as nat,
            ),
            Err(e) => number_spec(value@, key@, usize::MAX as nat) == Err::<nat, _>(e@),
        },
{
    match parse_unsigned(value, usize::MAX as u64) {
        Some(n) => Ok(n as usize),
        None => Err(invalid_value(key, "expected a non-negative integer, got '", value, "'")),
    }
}

/// Read a number in `min..=max`.
fn parse_bounded(value: &str, key: &'static str, min: u64, max: u64) -> (r: Result<u64, SpecError>)
    ensures
        match r {
            Ok(n) => bounded_spec(value@, key@, u64::MAX as nat, min as nat, max as nat) == Ok::<
                nat,
                SpecErrorView,
            >(n as nat),
            Err(e) => bounded_spec(value@, key@, u64::MAX as nat, min as nat, max as nat) == Err::<
                nat,
                _,
            >(e@),
        },
{
    match parse_u64(value, key) {
        Ok(n) => check_u64_range(n, key, min, max),
        Err(e) => Err(e),
    }
}

// ---------------------------------------------------------------- settings

/// The common settings after one key and value.
pub open spec fn apply_common_spec(c: CommonQuery, key: Seq<char>, value: Seq<char>) -> Result<
    Option<CommonQuery>,
    SpecErrorView,
> {
    if key == "tx_queue_frames"@ {
        match bounded_spec(
            value,
            "tx_queue_frames"@,
            usize::MAX as nat,
            MIN_TX_QUEUE_FRAMES as nat,
            MAX_TX_QUEUE_FRAMES as nat,
        ) {
            Ok(n) => Ok(Some(CommonQuery { tx_queue_frames: Some(n as usize), ..c })),
            Err(e) => Err(e),
        }
    } else {
        Ok(None)
    }
}

impl CommonQuery {
    /// Take over one key and value if the key names a common setting.
    pub fn apply(&mut self, key: &str, value: &str) -> (r: Result<bool, SpecError>)
        ensures
            match apply_common_spec(*old(self), key@, value@) {
                Ok(Some(c)) => r == Ok::<bool, SpecError>(true) && *final(self) == c,
                Ok(None) => r == Ok::<bool, SpecError>(false) && *final(self) == *old(self),
                Err(e) => r is Err && r->Err_0@ == e && *final(self) == *old(self),
            },
    {
        if text_eq(key, "tx_queue_frames") {
            let count: usize = match parse_usize(value, "tx_queue_frames") {
                Ok(n) => n,
                Err(e) => {
                    return Err(e);
                },
            };
            match check_u64_range(
                count as u64,
                "tx_queue_frames",
                MIN_TX_QUEUE_FRAMES as u64,
                MAX_TX_QUEUE_FRAMES as u64,
            ) {
                Ok(n) => {
                    self.tx_queue_frames = Some(n as usize);
                    Ok(true)
                },
                Err(e) => Err(e),
            }
        } else {
            Ok(false)
        }
    }
}

/// Identity and common settings after one key and value.
pub open spec fn apply_shared_spec(
    identity: IdentityView,
    common: CommonQuery,
    key: Seq<char>,
    value: Seq<char>,
) -> Result<Option<(IdentityView, CommonQuery)>, SpecErrorView> {
    match identity_flags::apply_identity_spec(identity, key, value) {
        Err(e) => Err(e),
        Ok(Some(i)) => Ok(Some((i, common))),
        Ok(None) => match apply_common_spec(common, key, value) {
            Err(e) => Err(e),
            Ok(Some(c)) => Ok(Some((identity, c))),
            Ok(None) => Ok(None),
        },
    }
}

/// Take over one key and value if the key names an identity or common setting.
fn apply_shared(
    identity: &mut IdentityFlags,
    common: &mut CommonQuery,
    key: &str,
    value: &str,
) -> (r: Result<bool, SpecError>)
    ensures
        match apply_shared_spec(old(identity)@, *old(common), key@, value@) {
            Ok(Some((i, c))) => {
                &&& r == Ok::<bool, SpecError>(true)
                &&& final(identity)@ == i
                &&& *final(common) == c
            },
            Ok(None) => {
                &&& r == Ok::<bool, SpecError>(false)
                &&& final(identity)@ == old(identity)@
                &&& *final(common) == *old(common)
            },
            Err(e) => {
                &&& r is Err
                &&& r->Err_0@ == e
                &&& final(identity)@ == old(identity)@
                &&& *final(common) == *old(common)
            },
        },
{
    match identity.apply(key, value) {
        Err(e) => Err(e),
        Ok(true) => Ok(true),
        Ok(false) => common.apply(key, value),
    }
}

/// The flow control that `value` names.
pub open spec fn flow_control_spec(value: Seq<char>) -> Result<SerialFlowControl, SpecErrorView> {
    if value == "none"@ {
        Ok(SerialFlowControl::Off)
    } else if value == "rtscts"@ {
        Ok(SerialFlowControl::RtsCts)
    } else {
        Err(
            SpecErrorView::InvalidQueryValue {
                key: "flow_control"@,
                reason: "expected 'none' or 'rtscts', got '"@ + value + "'"@,
            },
        )
    }
}

/// Read `none` or `rtscts`.
fn parse_flow_control(value: &str) -> (r: Result<SerialFlowControl, SpecError>)
    ensures
        match r {
            Ok(f) => flow_control_spec(value@) == Ok::<_, SpecErrorView>(f),
            Err(e) => flow_control_spec(value@) == Err::<SerialFlowControl, _>(e@),
        },
{
    if text_eq(value, "none") {
        Ok(SerialFlowControl::Off)
    } else if text_eq(value, "rtscts") {
        Ok(SerialFlowControl::RtsCts)
    } else {
        Err(invalid_value("flow_control", "expected 'none' or 'rtscts', got '", value, "'"))
    }
}

/// An endpoint under construction that takes settings one by one.
pub trait QueryApplier {
    /// The view of the endpoint.
    type State;

    /// What has been set so far.
    spec fn state(&self) -> Self::State;

    /// The endpoint after one key and value: `Ok(None)` where it has no such setting.
    spec fn set_spec(state: Self::State, key: Seq<char>, value: Seq<char>) -> Result<
        Option<Self::State>,
        SpecErrorView,
    >;

    /// Take over one key and value. `Ok(false)` where the endpoint has no such setting;
    /// nothing changes then, and where the value is malformed.
    fn set(&mut self, key: &str, value: &str) -> (r: Result<bool, SpecError>)
        ensures
            match Self::set_spec(old(self).state(), key@, value@) {
                Ok(Some(s)) => r == Ok::<bool, SpecError>(true) && final(self).state() == s,
                Ok(None) => r == Ok::<bool, SpecError>(false) && final(self).state() == old(
                    self,
                ).state(),
                Err(e) => r is Err && r->Err_0@ == e && final(self).state() == old(self).state(),
            },
    ;
}

/// A `serial:` endpoint that takes settings.
pub struct SerialApplier(pub SerialEndpoint);

impl QueryApplier for SerialApplier {
    type State = SerialView;

    open spec fn state(&self) -> SerialView {
        self.0@
    }

    open spec fn set_spec(s: SerialView, key: Seq<char>, value: Seq<char>) -> Result<
        Option<SerialView>,
        SpecErrorView,
    > {
        if key == "flow_control"@ {
            match flow_control_spec(value) {
                Ok(f) => Ok(Some(SerialView { flow_control: f, ..s })),
                Err(e) => Err(e),
            }
        } else {
            match apply_shared_spec(s.identity, s.common, key, value) {
                Ok(Some((i, c))) => Ok(Some(SerialView { identity: i, common: c, ..s })),
                Ok(None) => Ok(None),
                Err(e) => Err(e),
            }
        }
    }

    fn set(&mut self, key: &str, value: &str) -> (r: Result<bool, SpecError>) {
        if text_eq(key, "flow_control") {
            match parse_flow_control(value) {
                Ok(f) => {
                    self.0.flow_control = f;
                    Ok(true)
                },
                Err(e) => Err(e),
            }
        } else {
            apply_shared(&mut self.0.identity, &mut self.0.common, key, value)
        }
    }
}

/// A `udps:` endpoint that takes settings.
pub struct UdpServerApplier(pub UdpServerEndpoint);

impl QueryApplier for UdpServerApplier {
    type State = UdpServerView;

    open spec fn state(&self) -> UdpServerView {
        self.0@
    }

    open spec fn set_spec(s: UdpServerView, key: Seq<char>, value: Seq<char>) -> Result<
        Option<UdpServerView>,
        SpecErrorView,
    > {
        if key == "idle_secs"@ {
            match bounded_spec(
                value,
                "idle_secs"@,
                u64::MAX as nat,
                MIN_IDLE_SECS as nat,
                MAX_IDLE_SECS as nat,
            ) {
                Ok(n) => Ok(Some(UdpServerView { idle_secs: Some(n as u64), ..s })),
                Err(e) => Err(e),
            }
        } else {
            match apply_shared_spec(s.identity, s.common, key, value) {
                Ok(Some((i, c))) => Ok(Some(UdpServerView { identity: i, common: c, ..s })),
                Ok(None) => Ok(None),
                Err(e) => Err(e),
            }
        }
    }

    fn set(&mut self, key: &str, value: &str) -> (r: Result<bool, SpecError>) {
        if text_eq(key, "idle_secs") {
            match parse_bounded(value, "idle_secs", MIN_IDLE_SECS, MAX_IDLE_SECS) {
                Ok(n) => {
                    self.0.idle_secs = Some(n);
                    Ok(true)
                },
                Err(e) => Err(e),
            }
        } else {
            apply_shared(&mut self.0.identity, &mut self.0.common, key, value)
        }
    }
}

/// A `udpc:` endpoint that takes settings.
pub struct UdpClientApplier(pub UdpClientEndpoint);

impl QueryApplier for UdpClientApplier {
    type State = UdpClientView;

    open spec fn state(&self) -> UdpClientView {
        self.0@
    }

    open spec fn set_spec(s: UdpClientView, key: Seq<char>, value: Seq<char>) -> Result<
        Option<UdpClientView>,
        SpecErrorView,
    > {
        if key == "latch_idle_secs"@ {
            match bounded_spec(
                value,
                "latch_idle_secs"@,
                u64::MAX as nat,
                MIN_LATCH_IDLE_SECS as nat,
                MAX_LATCH_IDLE_SECS as nat,
            ) {
                Ok(n) => Ok(Some(UdpClientView { latch_idle_secs: Some(n as u64), ..s })),
                Err(e) => Err(e),
            }
        } else {
            match apply_shared_spec(s.identity, s.common, key, value) {
                Ok(Some((i, c))) => Ok(Some(UdpClientView { identity: i, common: c, ..s })),
                Ok(None) => Ok(None),
                Err(e) => Err(e),
            }
        }
    }

    fn set(&mut self, key: &str, value: &str) -> (r: Result<bool, SpecError>) {
        if text_eq(key, "latch_idle_secs") {
            match parse_bounded(value, "latch_idle_secs", MIN_LATCH_IDLE_SECS, MAX_LATCH_IDLE_SECS) {
                Ok(n) => {
                    self.0.latch_idle_secs = Some(n);
                    Ok(true)
                },
                Err(e) => Err(e),
            }
        } else {
            apply_shared(&mut self.0.identity, &mut self.0.common, key, value)
        }
    }
}

/// A `tcps:` endpoint that takes settings.
pub struct TcpServerApplier(pub TcpServerEndpoint);

impl QueryApplier for TcpServerApplier {
    type State = TcpServerView;

    open spec fn state(&self) -> TcpServerView {
        self.0@
    }

    open spec fn set_spec(s: TcpServerView, key: Seq<char>, value: Seq<char>) -> Result<
        Option<TcpServerView>,
        SpecErrorView,
    > {
        match apply_shared_spec(s.identity, s.common, key, value) {
            Ok(Some((i, c))) => Ok(Some(TcpServerView { identity: i, common: c, ..s })),
            Ok(None) => Ok(None),
            Err(e) => Err(e),
        }
    }

    fn set(&mut self, key: &str, value: &str) -> (r: Result<bool, SpecError>) {
        apply_shared(&mut self.0.identity, &mut self.0.common, key, value)
    }
}

/// A `tcpc:` endpoint that takes settings.
pub struct TcpClientApplier(pub TcpClientEndpoint);

impl QueryApplier for TcpClientApplier {
    type State = TcpClientView;

    open spec fn state(&self) -> TcpClientView {
        self.0@
    }

    open spec fn set_spec(s: TcpClientView, key: Seq<char>, value: Seq<char>) -> Result<
        Option<TcpClientView>,
        SpecErrorView,
    > {
        match apply_shared_spec(s.identity, s.common, key, value) {
            Ok(Some((i, c))) => Ok(Some(TcpClientView { identity: i, common: c, ..s })),
            Ok(None) => Ok(None),
            Err(e) => Err(e),
        }
    }

    fn set(&mut self, key: &str, value: &str) -> (r: Result<bool, SpecError>) {
        apply_shared(&mut self.0.identity, &mut self.0.common, key, value)
    }
}

/// The endpoint and the outcome after all pairs in order. The first unknown key or
/// malformed value ends it.
pub open spec fn apply_pairs_spec<A: QueryApplier>(
    state: A::State,
    scheme: Scheme,
    pairs: Seq<(Seq<char>, Seq<char>)>,
) -> (A::State, Result<(), SpecErrorView>)
    decreases pairs.len(),
{
    if pairs.len() == 0 {
        (state, Ok(()))
    } else {
        match A::set_spec(state, pairs[0].0, pairs[0].1) {
            Err(e) => (state, Err(e)),
            Ok(None) => (
                state,
                Err(
                    SpecErrorView::UnknownQueryKey {
                        scheme,
                        key: pairs[0].0,
                        suggestion: suggestion_spec(scheme, pairs[0].0),
                    },
                ),
            ),
            Ok(Some(next)) => apply_pairs_spec::<A>(next, scheme, pairs.skip(1)),
        }
    }
}

/// Hand every pair to the endpoint in order. An unknown key is refused with the known key
/// that was probably meant.
pub fn apply_pairs<A: QueryApplier>(
    applier: &mut A,
    scheme: Scheme,
    pairs: &[(String, String)],
) -> (r: Result<(), SpecError>)
    ensures
        ({
            let (state, outcome) = apply_pairs_spec::<A>(
                old(applier).state(),
                scheme,
                pair_texts(pairs@),
            );
            &&& final(applier).state() == state
            &&& match r {
                Ok(()) => outcome is Ok,
                Err(e) => outcome == Err::<(), _>(e@),
            }
        }),
{
    let ghost all = pair_texts(pairs@);
    let mut i: usize = 0;
    assert(all.skip(0) == all);
    while i < pairs.len()
        invariant
            i <= pairs@.len(),
            all == pair_texts(pairs@),
            apply_pairs_spec::<A>(applier.state(), scheme, all.skip(i as int)) == apply_pairs_spec::<
                A,
            >(old(applier).state(), scheme, all),
        decreases pairs@.len() - i,
    {
        let key = pairs[i].0.as_str();
        let value = pairs[i].1.as_str();
        proof {
            assert(all.skip(i as int)[0] == (key@, value@));
            assert(all.skip(i as int).skip(1) == all.skip(i + 1));
        }
        match applier.set(key, value) {
            Err(e) => {
                return Err(e);
            },
            Ok(false) => {
                return Err(
                    SpecError::UnknownQueryKey {
                        scheme,
                        key: key.to_owned(),
                        suggestion: suggest_query_key(scheme, key),
                    },
                );
            },
            Ok(true) => {},
        }
        i = i + 1;
    }
    assert(all.skip(all.len() as int).len() == 0);
    Ok(())
}

// ---------------------------------------------------------------- suggestions

/// The common keys.
pub open spec fn common_keys_spec() -> Seq<Seq<char>> {
    seq!["tx_queue_frames"@]
}

/// The common keys.
pub fn common_keys() -> (r: &'static [&'static str])
    ensures
        text::slice_texts(r@) == common_keys_spec(),
{
    let r: &'static [&'static str; 1] = &["tx_queue_frames"];
    assert(text::slice_texts(r@) =~= common_keys_spec());
    r
}

/// The keys that only one scheme has.
pub open spec fn extra_keys_spec(scheme: Scheme) -> Seq<Seq<char>> {
    match scheme {
        Scheme::Serial => seq!["flow_control"@],
        Scheme::UdpServer => seq!["idle_secs"@],
        Scheme::UdpClient => seq!["latch_idle_secs"@],
        Scheme::TcpServer => Seq::empty(),
        Scheme::TcpClient => Seq::empty(),
    }
}

/// The keys that only one scheme has.
fn known_keys_for(scheme: Scheme) -> (r: &'static [&'static str])
    ensures
        text::slice_texts(r@) == extra_keys_spec(scheme),
{
    match scheme {
        Scheme::Serial => {
            let r: &'static [&'static str; 1] = &["flow_control"];
            assert(text::slice_texts(r@) =~= extra_keys_spec(scheme));
            r
        },
        Scheme::UdpServer => {
            let r: &'static [&'static str; 1] = &["idle_secs"];
            assert(text::slice_texts(r@) =~= extra_keys_spec(scheme));
            r
        },
        Scheme::UdpClient => {
            let r: &'static [&'static str; 1] = &["latch_idle_secs"];
            assert(text::slice_texts(r@) =~= extra_keys_spec(scheme));
            r
        },
        _ => {
            let r: &'static [&'static str; 0] = &[];
            assert(text::slice_texts(r@) =~= extra_keys_spec(scheme));
            r
        },
    }
}

/// Every key that the scheme understands, in the order in which suggestions are looked
/// for.
pub open spec fn all_keys_spec(scheme: Scheme) -> Seq<Seq<char>> {
    common_keys_spec() + identity_flags::identity_keys_spec() + filters::filter_keys_spec()
        + extra_keys_spec(scheme)
}

/// The better of the suggestion so far and `key`: a closer key wins, at equal distance
/// the earlier one, and one more than three edits away is none.
pub open spec fn closer(best: Option<Seq<char>>, key: Seq<char>, unknown: Seq<char>) -> Option<
    Seq<char>,
> {
    let d = distance::edit_distance(unknown, key);
    if d > 3 {
        best
    } else {
        match best {
            Some(b) => if d < distance::edit_distance(unknown, b) {
                Some(key)
            } else {
                best
            },
            None => Some(key),
        }
    }
}

/// The best suggestion among the keys.
pub open spec fn closest(keys: Seq<Seq<char>>, unknown: Seq<char>) -> Option<Seq<char>>
    decreases keys.len(),
{
    if keys.len() == 0 {
        None
    } else {
        closer(closest(keys.drop_last(), unknown), keys.last(), unknown)
    }
}

/// The known key that was probably meant by `unknown`.
pub open spec fn suggestion_spec(scheme: Scheme, unknown: Seq<char>) -> Option<Seq<char>> {
    closest(all_keys_spec(scheme), unknown)
}

/// Improve a suggestion by the keys of one list.
fn suggest_from(best: Option<&'static str>, keys: &'static [&'static str], unknown: &str, Ghost(
    before,
): Ghost<Seq<Seq<char>>>) -> (r: Option<&'static str>)
    requires
        error::opt_text(best) == closest(before, unknown@),
    ensures
        error::opt_text(r) == closest(before + text::slice_texts(keys@), unknown@),
{
    let mut best = best;
    let ghost all = text::slice_texts(keys@);
    let mut i: usize = 0;
    assert(before + all.take(0) =~= before);
    while i < keys.len()
        invariant
            i <= keys@.len(),
            all == text::slice_texts(keys@),
            error::opt_text(best) == closest(before + all.take(i as int), unknown@),
        decreases keys@.len() - i,
    {
        let key: &'static str = keys[i];
        proof {
            let t = before + all.take(i + 1);
            assert(t.drop_last() =~= before + all.take(i as int));
            assert(t.last() == key@);
        }
        let d: usize = levenshtein(unknown, key);
        if d <= 3 {
            best = match best {
                Some(b) => if d < levenshtein(unknown, b) {
                    Some(key)
                } else {
                    Some(b)
                },
                None => Some(key),
            };
        }
        i = i + 1;
    }
    assert(all.take(all.len() as int) =~= all);
    best
}

/// The known key that was probably meant by `unknown`: the closest one within three
/// edits.
pub fn suggest_query_key(scheme: Scheme, unknown: &str) -> (r: Option<&'static str>)
    ensures
        error::opt_text(r) == suggestion_spec(scheme, unknown@),
{
    let ghost k0: Seq<Seq<char>> = Seq::empty();
    let best = suggest_from(None, common_keys(), unknown, Ghost(k0));
    let ghost k1 = k0 + common_keys_spec();
    let best = suggest_from(best, IdentityFlags::keys(), unknown, Ghost(k1));
    let ghost k2 = k1 + identity_flags::identity_keys_spec();
    let best = suggest_from(best, Filters::keys(), unknown, Ghost(k2));
    let ghost k3 = k2 + filters::filter_keys_spec();
    let best = suggest_from(best, known_keys_for(scheme), unknown, Ghost(k3));
    assert(k3 + extra_keys_spec(scheme) =~= all_keys_spec(scheme));
    best
}

/// A suggestion is a known key within three edits, and no known key is closer.
pub proof fn law_suggestion_is_closest(keys: Seq<Seq<char>>, unknown: Seq<char>)
    ensures
        match closest(keys, unknown) {
            Some(k) => {
                &&& keys.contains(k)
                &&& distance::edit_distance(unknown, k) <= 3
                &&& forall|i: int|
                    0 <= i < keys.len() ==> distance::edit_distance(unknown, k) <= distance::edit_distance(
                        unknown,
                        #[trigger] keys[i],
                    )
            },
            None => forall|i: int|
                0 <= i < keys.len() ==> distance::edit_distance(unknown, #[trigger] keys[i]) > 3,
        },
    decreases keys.len(),
{
    if keys.len() > 0 {
        let init = keys.drop_last();
        law_suggestion_is_closest(init, unknown);
        assert(keys[keys.len() - 1] == keys.last());
        assert forall|i: int| 0 <= i < keys.len() - 1 implies #[trigger] keys[i] == init[i] by {}
        if let Some(k) = closest(init, unknown) {
            let i = choose|i: int| 0 <= i < init.len() && init[i] == k;
            assert(keys[i] == k);
        }
    }
}

/// A number in its bounds is what a setting is set to; one outside is an error.
proof fn lemma_bounded(n: nat, key: Seq<char>, type_max: nat, min: nat, max: nat)
    requires
        max <= type_max,
    ensures
        bounded_spec(text::decimal_spec(n), key, type_max, min, max) matches Ok(m) ==> m == n && min
            <= n <= max,
        min <= n <= max ==> bounded_spec(text::decimal_spec(n), key, type_max, min, max) == Ok::<
            nat,
            SpecErrorView,
        >(n),
{
    text::law_numbers_are_read(n, type_max, Seq::empty());
}

/// What `idle_secs` sets on a `udps:` endpoint, and `latch_idle_secs` on a `udpc:` endpoint:
/// their own seconds, from 1 to 86400, and nothing else.
pub proof fn law_idle_settings(s: UdpServerView, c: UdpClientView, n: nat)
    ensures
        ({
            let set = UdpServerApplier::set_spec(s, "idle_secs"@, text::decimal_spec(n));
            &&& 1 <= n <= 86400 ==> set == Ok::<_, SpecErrorView>(
                Some(UdpServerView { idle_secs: Some(n as u64), ..s }),
            )
            &&& !(1 <= n <= 86400) ==> set is Err
        }),
        ({
            let set = UdpClientApplier::set_spec(c, "latch_idle_secs"@, text::decimal_spec(n));
            &&& 1 <= n <= 86400 ==> set == Ok::<_, SpecErrorView>(
                Some(UdpClientView { latch_idle_secs: Some(n as u64), ..c }),
            )
            &&& !(1 <= n <= 86400) ==> set is Err
        }),
{
    lemma_bounded(n, "idle_secs"@, u64::MAX as nat, 1, 86400);
    lemma_bounded(n, "latch_idle_secs"@, u64::MAX as nat, 1, 86400);
}

/// What `flow_control` sets on a `serial:` endpoint: off where it is `none`, by RTS and CTS
/// where it is `rtscts`; anything else is an error.
pub proof fn law_flow_control_setting(s: SerialView, value: Seq<char>)
    ensures
        SerialApplier::set_spec(s, "flow_control"@, "none"@) == Ok::<_, SpecErrorView>(
            Some(SerialView { flow_control: SerialFlowControl::Off, ..s }),
        ),
        SerialApplier::set_spec(s, "flow_control"@, "rtscts"@) == Ok::<_, SpecErrorView>(
            Some(SerialView { flow_control: SerialFlowControl::RtsCts, ..s }),
        ),
        value != "none"@ && value != "rtscts"@ ==> SerialApplier::set_spec(
            s,
            "flow_control"@,
            value,
        ) is Err,
{
    reveal_strlit("none");
    reveal_strlit("rtscts");
    assert("none"@.len() == 4 && "rtscts"@.len() == 6);
}

/// What `tx_queue_frames` sets: the room of the queue, from 1 to 65536 frames, and nothing
/// else.
pub proof fn law_queue_setting(identity: IdentityView, common: CommonQuery, n: nat)
    ensures
        ({
            let set = apply_shared_spec(
                identity,
                common,
                "tx_queue_frames"@,
                text::decimal_spec(n),
            );
            &&& 1 <= n <= 65536 ==> set == Ok::<_, SpecErrorView>(
                Some((identity, CommonQuery { tx_queue_frames: Some(n as usize), ..common })),
            )
            &&& !(1 <= n <= 65536) ==> set is Err
        }),
{
    let value = text::decimal_spec(n);
    reveal_strlit("tx_queue_frames");
    reveal_strlit("sniffer");
    reveal_strlit("group");
    assert("tx_queue_frames"@[0] == 't' && "sniffer"@[0] == 's' && "group"@[0] == 'g');
    filters::law_other_keys_are_no_lists(identity.filters, "tx_queue_frames"@, value);
    identity_flags::law_identity_keys(identity, value, "tx_queue_frames"@);
    lemma_bounded(n, "tx_queue_frames"@, usize::MAX as nat, 1, 65536);
}

/// A setting that every endpoint has is taken over the same way by each of them: it changes
/// the identity and the common settings and nothing else.
pub proof fn law_shared_settings(
    serial: SerialView,
    udps: UdpServerView,
    udpc: UdpClientView,
    tcps: TcpServerView,
    tcpc: TcpClientView,
    key: Seq<char>,
    value: Seq<char>,
)
    requires
        key == "tx_queue_frames"@ || key == "sniffer"@ || key == "group"@
            || filters::filter_keys_spec().contains(key),
    ensures
        SerialApplier::set_spec(serial, key, value) == match apply_shared_spec(
            serial.identity,
            serial.common,
            key,
            value,
        ) {
            Ok(Some((identity, common))) => Ok(Some(SerialView { identity, common, ..serial })),
            Ok(None) => Ok(None),
            Err(e) => Err(e),
        },
        UdpServerApplier::set_spec(udps, key, value) == match apply_shared_spec(
            udps.identity,
            udps.common,
            key,
            value,
        ) {
            Ok(Some((identity, common))) => Ok(Some(UdpServerView { identity, common, ..udps })),
            Ok(None) => Ok(None),
            Err(e) => Err(e),
        },
        UdpClientApplier::set_spec(udpc, key, value) == match apply_shared_spec(
            udpc.identity,
            udpc.common,
            key,
            value,
        ) {
            Ok(Some((identity, common))) => Ok(Some(UdpClientView { identity, common, ..udpc })),
            Ok(None) => Ok(None),
            Err(e) => Err(e),
        },
        TcpServerApplier::set_spec(tcps, key, value) == match apply_shared_spec(
            tcps.identity,
            tcps.common,
            key,
            value,
        ) {
            Ok(Some((identity, common))) => Ok(Some(TcpServerView { identity, common, ..tcps })),
            Ok(None) => Ok(None),
            Err(e) => Err(e),
        },
        TcpClientApplier::set_spec(tcpc, key, value) == match apply_shared_spec(
            tcpc.identity,
            tcpc.common,
            key,
            value,
        ) {
            Ok(Some((identity, common))) => Ok(Some(TcpClientView { identity, common, ..tcpc })),
            Ok(None) => Ok(None),
            Err(e) => Err(e),
        },
{
    lemma_own_keys(key);
}

/// The keys that only one scheme has are no others.
proof fn lemma_own_keys(key: Seq<char>)
    requires
        key == "tx_queue_frames"@ || key == "sniffer"@ || key == "group"@
            || filters::filter_keys_spec().contains(key),
    ensures
        key != "flow_control"@ && key != "idle_secs"@ && key != "latch_idle_secs"@,
{
    reveal_strlit("tx_queue_frames");
    reveal_strlit("sniffer");
    reveal_strlit("group");
    reveal_strlit("flow_control");
    reveal_strlit("idle_secs");
    reveal_strlit("latch_idle_secs");
    assert("tx_queue_frames"@[0] == 't' && "sniffer"@[0] == 's' && "group"@[0] == 'g');
    assert("flow_control"@[0] == 'f' && "idle_secs"@[0] == 'i' && "latch_idle_secs"@[0] == 'l');
    let f = crate::endpoint::filters::FiltersView::unrestricted();
    filters::law_other_keys_are_no_lists(f, "flow_control"@, key);
    filters::law_other_keys_are_no_lists(f, "idle_secs"@, key);
    filters::law_other_keys_are_no_lists(f, "latch_idle_secs"@, key);
}

/// Settings are taken over in their order: with one more at the end, it is taken over by what
/// the others have left. One that is not known, or whose value cannot be read, is refused, and
/// so is what comes behind it.
pub proof fn law_settings_are_taken_in_order<A: QueryApplier>(
    state: A::State,
    scheme: Scheme,
    pairs: Seq<(Seq<char>, Seq<char>)>,
    key: Seq<char>,
    value: Seq<char>,
)
    ensures
        apply_pairs_spec::<A>(state, scheme, Seq::empty()) == (
            state,
            Ok::<(), SpecErrorView>(()),
        ),
        ({
            let (before, outcome) = apply_pairs_spec::<A>(state, scheme, pairs);
            let (after, result) = apply_pairs_spec::<A>(state, scheme, pairs.push((key, value)));
            match outcome {
                Err(e) => after == before && result == Err::<(), _>(e),
                Ok(_) => match A::set_spec(before, key, value) {
                    Ok(Some(next)) => after == next && result is Ok,
                    Ok(None) => after == before && (result matches Err(e)
                        && e is UnknownQueryKey),
                    Err(e) => after == before && result == Err::<(), _>(e),
                },
            }
        }),
    decreases pairs.len(),
{
    let more = pairs.push((key, value));
    if pairs.len() == 0 {
        assert(more[0] == (key, value));
        assert(more.skip(1) =~= Seq::empty());
        reveal_with_fuel(apply_pairs_spec, 2);
    } else {
        assert(more[0] == pairs[0]);
        assert(more.skip(1) =~= pairs.skip(1).push((key, value)));
        if let Ok(Some(next)) = A::set_spec(state, pairs[0].0, pairs[0].1) {
            law_settings_are_taken_in_order::<A>(next, scheme, pairs.skip(1), key, value);
        }
    }
}

/// The keys of a scheme: those of every endpoint, and one of its own for `serial:`, `udps:`
/// and `udpc:`. A key is known exactly where it is one of them.
pub proof fn law_known_keys(key: Seq<char>, value: Seq<char>)
    ensures
        ({
            let shared = key == "tx_queue_frames"@ || key == "sniffer"@ || key == "group"@
                || filters::filter_keys_spec().contains(key);
            let unknown = |known: bool, r: bool| r <==> !known;
            &&& unknown(
                shared || key == "flow_control"@,
                SerialApplier::set_spec(SerialView::unset(), key, value) == Ok::<
                    Option<SerialView>,
                    SpecErrorView,
                >(None),
            )
            &&& unknown(
                shared || key == "idle_secs"@,
                UdpServerApplier::set_spec(UdpServerView::unset(), key, value) == Ok::<
                    Option<UdpServerView>,
                    SpecErrorView,
                >(None),
            )
            &&& unknown(
                shared || key == "latch_idle_secs"@,
                UdpClientApplier::set_spec(UdpClientView::unset(), key, value) == Ok::<
                    Option<UdpClientView>,
                    SpecErrorView,
                >(None),
            )
            &&& unknown(
                shared,
                TcpServerApplier::set_spec(TcpServerView::unset(), key, value) == Ok::<
                    Option<TcpServerView>,
                    SpecErrorView,
                >(None),
            )
            &&& unknown(
                shared,
                TcpClientApplier::set_spec(TcpClientView::unset(), key, value) == Ok::<
                    Option<TcpClientView>,
                    SpecErrorView,
                >(None),
            )
        }),
{
    identity_flags::law_identity_keys(IdentityView::plain(), value, key);
}

/// The pieces of an accepted query that are not blank have an `=` behind a key.
proof fn lemma_pieces_have_keys(pieces: Seq<Seq<char>>, done: Seq<(Seq<char>, Seq<char>)>, i: int)
    requires
        0 <= i < pieces.len(),
        pieces[i].len() > 0,
        pairs_spec(pieces, done) is Ok,
    ensures
        pieces[i].contains('='),
        pieces[i][0] != '=',
    decreases pieces.len(),
{
    if i > 0 {
        assert(pieces.skip(1)[i - 1] == pieces[i]);
        if pieces[0].len() == 0 {
            lemma_pieces_have_keys(pieces.skip(1), done, i - 1);
        } else {
            let (key, value) = text::split_once_spec(pieces[0], '=').unwrap();
            lemma_pieces_have_keys(pieces.skip(1), done.push((key, value)), i - 1);
        }
    } else {
        text::law_first_split(pieces[0], '=');
        let (key, value) = text::split_once_spec(pieces[0], '=').unwrap();
        assert(pieces[0][0] == key[0]);
        assert(key.contains(key[0]));
    }
}

/// A query with a setting that has no `=`, or nothing before it, is refused.
pub proof fn law_settings_need_a_key(text: Seq<char>, i: int)
    requires
        0 <= i < text::split_spec(text, '&').len(),
        text::split_spec(text, '&')[i].len() > 0,
        !text::split_spec(text, '&')[i].contains('=') || text::split_spec(text, '&')[i][0] == '=',
    ensures
        query_spec(text) is Err,
{
    if query_spec(text) is Ok {
        lemma_pieces_have_keys(text::split_spec(text, '&'), Seq::empty(), i);
    }
}

/// What is suggested for an unknown key is a key that the scheme knows and that is at most
/// three edits away; there is a suggestion exactly where there is such a key.
pub proof fn law_suggestions_are_known_keys(scheme: Scheme, unknown: Seq<char>, key: Seq<char>)
    ensures
        ({
            let known = key == "tx_queue_frames"@ || key == "sniffer"@ || key == "group"@
                || filters::filter_keys_spec().contains(key) || (scheme is Serial && key
                == "flow_control"@) || (scheme is UdpServer && key == "idle_secs"@) || (
            scheme is UdpClient && key == "latch_idle_secs"@);
            &&& all_keys_spec(scheme).contains(key) <==> known
            &&& suggestion_spec(scheme, unknown) == Some(key) ==> known && distance::edit_distance(
                unknown,
                key,
            ) <= 3
            &&& known && distance::edit_distance(unknown, key) <= 3 ==> suggestion_spec(
                scheme,
                unknown,
            ) is Some
        }),
{
    let a = common_keys_spec();
    let b = identity_flags::identity_keys_spec();
    let c = filters::filter_keys_spec();
    let d = extra_keys_spec(scheme);
    let all = all_keys_spec(scheme);
    assert(a[0] == "tx_queue_frames"@);
    assert(b[0] == "group"@ && b[1] == "sniffer"@);
    assert(d.len() > 0 ==> d.len() == 1);
    lemma_contains_both(a, b, key);
    lemma_contains_both(a + b, c, key);
    lemma_contains_both(a + b + c, d, key);
    if d.len() > 0 {
        assert(d.contains(key) <==> key == d[0]) by {
            if key == d[0] {
                assert(d[0] == key);
            }
        }
    }
    assert(a.contains(key) <==> key == a[0]) by {
        if key == a[0] {
            assert(a[0] == key);
        }
    }
    assert(b.contains(key) <==> key == b[0] || key == b[1]) by {
        if key == b[0] {
            assert(b[0] == key);
        }
        if key == b[1] {
            assert(b[1] == key);
        }
    }
    law_suggestion_is_closest(all, unknown);
    if all.contains(key) {
        let i = all.index_of(key);
        assert(all[i] == key);
    }
}

/// What is in one of two rows.
proof fn lemma_contains_both(a: Seq<Seq<char>>, b: Seq<Seq<char>>, key: Seq<char>)
    ensures
        (a + b).contains(key) <==> a.contains(key) || b.contains(key),
{
    if a.contains(key) {
        assert((a + b)[a.index_of(key)] == key);
    }
    if b.contains(key) {
        assert((a + b)[a.len() + b.index_of(key)] == key);
    }
    if (a + b).contains(key) {
        let i = (a + b).index_of(key);
        if i < a.len() {
            assert(a[i] == key);
        } else {
            assert(b[i - a.len()] == key);
        }
    }
}

} // verus!

//! What is worked out from the endpoints before the router starts.

use vstd::prelude::*;

use crate::endpoint::defaults::DEFAULT_PEER_CAPACITY;
use crate::endpoint::spec::endpoint_kinds::EndpointKind;
use crate::endpoint::spec::parse::EndpointSpec;
use crate::text;
use crate::text::{text_before, text_eq};

verus! {

/// How many frames wait for the router at most; who brings more has to wait.
pub const INGRESS_QUEUE_FRAMES: usize = 1024;

/// How many clients a `tcps:` listener is expected to have. It may have more.
pub const DEFAULT_TCPS_PEER_BUDGET: usize = 64;

// ---------------------------------------------------------------- groups

/// Whether the endpoint is a leg of the group `name`. A sniffer listens in and is none.
pub open spec fn is_leg(spec: EndpointSpec, name: Seq<char>) -> bool {
    let identity = spec.kind@.identity();
    !identity.sniffer && identity.group == Some(name)
}

/// How many legs the group `name` has.
pub open spec fn legs(specs: Seq<EndpointSpec>, name: Seq<char>) -> nat
    decreases specs.len(),
{
    if specs.len() == 0 {
        0
    } else {
        legs(specs.drop_last(), name) + if is_leg(specs.last(), name) {
            1nat
        } else {
            0
        }
    }
}

/// The group that the endpoint is a leg of.
fn leg_of(spec: &EndpointSpec) -> (r: Option<&str>)
    ensures
        forall|name: Seq<char>| #[trigger] is_leg(*spec, name) <==> (r is Some && r.unwrap()@ == name),
{
    let identity = spec.kind.identity();
    if identity.sniffer {
        None
    } else {
        match &identity.group {
            Some(g) => Some(g.as_str()),
            None => None,
        }
    }
}

/// Count the legs of the group `name`.
fn count_legs(specs: &[EndpointSpec], name: &str) -> (r: usize)
    ensures
        r == legs(specs@, name@),
{
    let mut n: usize = 0;
    let mut i: usize = 0;
    assert(specs@.take(0) =~= Seq::empty());
    while i < specs.len()
        invariant
            i <= specs@.len(),
            n <= i,
            n == legs(specs@.take(i as int), name@),
        decreases specs@.len() - i,
    {
        proof {
            assert(specs@.take(i + 1).drop_last() =~= specs@.take(i as int));
            assert(specs@.take(i + 1).last() == specs@[i as int]);
            assert(is_leg(specs@[i as int], name@) || !is_leg(specs@[i as int], name@));
        }
        match leg_of(&specs[i]) {
            Some(g) => {
                if text_eq(g, name) {
                    n = n + 1;
                }
            },
            None => {},
        }
        i = i + 1;
    }
    assert(specs@.take(specs@.len() as int) =~= specs@);
    n
}

/// Names in order, none twice.
pub open spec fn names_ascend(v: Seq<(String, usize)>) -> bool {
    forall|i: int, j: int| 0 <= i < j < v.len() ==> text::before((#[trigger] v[i]).0@, (#[trigger] v[j]).0@)
}

/// Whether `name` is among the groups.
pub open spec fn is_listed(v: Seq<(String, usize)>, name: Seq<char>) -> bool {
    exists|i: int| 0 <= i < v.len() && (#[trigger] v[i]).0@ == name
}

/// Put a group where its name belongs, unless it is there already.
fn insert_group(groups: &mut Vec<(String, usize)>, name: &str, count: usize)
    requires
        names_ascend(old(groups)@),
    ensures
        names_ascend(final(groups)@),
        is_listed(final(groups)@, name@),
        forall|n: Seq<char>| is_listed(old(groups)@, n) ==> #[trigger] is_listed(final(groups)@, n),
        forall|i: int|
            0 <= i < final(groups)@.len() ==> old(groups)@.contains(#[trigger] final(groups)@[i])
                || (final(groups)@[i].0@ == name@ && final(groups)@[i].1 == count),
{
    let ghost v = groups@;
    let mut pos: usize = 0;
    let mut searching = true;
    while searching
        invariant
            v == groups@,
            names_ascend(v),
            pos <= v.len(),
            forall|k: int| 0 <= k < pos ==> text::before((#[trigger] v[k]).0@, name@),
            !searching ==> pos == v.len() || !text::before(v[pos as int].0@, name@),
        decreases v.len() - pos, if searching { 1int } else { 0 },
    {
        if pos < groups.len() && text_before(groups[pos].0.as_str(), name) {
            pos = pos + 1;
        } else {
            searching = false;
        }
    }
    if pos < groups.len() && text_eq(groups[pos].0.as_str(), name) {
        assert(is_listed(v, name@));
        return ;
    }
    groups.insert(pos, (name.to_owned(), count));
    proof {
        let w = groups@;
        let p = pos as int;
        if p < v.len() {
            text::lemma_before_total(v[p].0@, name@);
        }
        assert forall|i: int, j: int| 0 <= i < j < w.len() implies text::before(
            (#[trigger] w[i]).0@,
            (#[trigger] w[j]).0@,
        ) by {
            if i < p {
                assert(w[i] == v[i]);
                if j > p {
                    assert(w[j] == v[j - 1]);
                }
            } else if i == p {
                assert(w[j] == v[j - 1]);
                if j - 1 > p {
                    text::lemma_before_trans(name@, v[p].0@, v[j - 1].0@);
                }
            } else {
                assert(w[i] == v[i - 1]);
                assert(w[j] == v[j - 1]);
            }
        }
        assert(w[p].0@ == name@);
        assert forall|n: Seq<char>| is_listed(v, n) implies #[trigger] is_listed(w, n) by {
            let i = choose|i: int| 0 <= i < v.len() && (#[trigger] v[i]).0@ == n;
            if i < p {
                assert(w[i].0@ == n);
            } else {
                assert(w[i + 1].0@ == n);
            }
        }
        assert forall|i: int| 0 <= i < w.len() implies v.contains(#[trigger] w[i]) || (w[i].0@
            == name@ && w[i].1 == count) by {
            if i < p {
                assert(v[i] == w[i]);
            } else if i > p {
                assert(v[i - 1] == w[i]);
            }
        }
    }
}

/// The groups with two or more legs, each with the number of its legs, in the order of
/// their names; none where duplicates are suppressed. What two legs bring in twice is sent
/// on twice unless duplicates are suppressed.
pub fn groups_needing_dedup_warning(specs: &[EndpointSpec], dedup_ms: u64) -> (r: Vec<
    (String, usize),
>)
    ensures
        names_ascend(r@),
        dedup_ms > 0 ==> r@.len() == 0,
        dedup_ms == 0 ==> {
            &&& forall|i: int|
                0 <= i < r@.len() ==> (#[trigger] r@[i]).1 == legs(specs@, r@[i].0@) && r@[i].1 >= 2
            &&& forall|name: Seq<char>|
                #[trigger] legs(specs@, name) >= 2 ==> is_listed(r@, name)
        },
{
    let mut groups: Vec<(String, usize)> = Vec::new();
    if dedup_ms > 0 {
        return groups;
    }
    let mut i: usize = 0;
    while i < specs.len()
        invariant
            i <= specs@.len(),
            names_ascend(groups@),
            forall|k: int|
                0 <= k < groups@.len() ==> (#[trigger] groups@[k]).1 == legs(
                    specs@,
                    groups@[k].0@,
                ) && groups@[k].1 >= 2,
            forall|k: int, name: Seq<char>|
                0 <= k < i && #[trigger] is_leg(specs@[k], name) && legs(specs@, name) >= 2
                    ==> is_listed(groups@, name),
        decreases specs@.len() - i,
    {
        match leg_of(&specs[i]) {
            Some(name) => {
                let count: usize = count_legs(specs, name);
                if count >= 2 {
                    insert_group(&mut groups, name, count);
                }
            },
            None => {},
        }
        i = i + 1;
    }
    assert forall|name: Seq<char>| #[trigger] legs(specs@, name) >= 2 implies is_listed(
        groups@,
        name,
    ) by {
        lemma_some_leg(specs@, name);
        let k = choose|k: int| 0 <= k < specs@.len() && is_leg(#[trigger] specs@[k], name);
        assert(is_leg(specs@[k], name));
    }
    groups
}

/// A group with legs has an endpoint that is one.
proof fn lemma_some_leg(specs: Seq<EndpointSpec>, name: Seq<char>)
    requires
        legs(specs, name) > 0,
    ensures
        exists|k: int| 0 <= k < specs.len() && is_leg(#[trigger] specs[k], name),
    decreases specs.len(),
{
    if is_leg(specs.last(), name) {
        assert(is_leg(specs[specs.len() - 1], name));
    } else {
        lemma_some_leg(specs.drop_last(), name);
        let k = choose|k: int|
            0 <= k < specs.drop_last().len() && is_leg(#[trigger] specs.drop_last()[k], name);
        assert(is_leg(specs[k], name));
    }
}

// ---------------------------------------------------------------- sizes

/// How many endpoints are to be expected: those that are configured, and the peers of the
/// listeners among them.
pub open spec fn expected_endpoints(specs: Seq<EndpointSpec>) -> nat
    decreases specs.len(),
{
    if specs.len() == 0 {
        0
    } else {
        expected_endpoints(specs.drop_last()) + 1 + match specs.last().kind {
            EndpointKind::UdpServer(_) => DEFAULT_PEER_CAPACITY as nat,
            EndpointKind::TcpServer(_) => DEFAULT_TCPS_PEER_BUDGET as nat,
            _ => 0nat,
        }
    }
}

/// How many endpoints are to be expected, as far as a `usize` can tell.
pub fn estimate_registry_size(specs: &[EndpointSpec]) -> (r: usize)
    ensures
        r == if expected_endpoints(specs@) < usize::MAX {
            expected_endpoints(specs@)
        } else {
            usize::MAX as nat
        },
{
    let mut count: usize = specs.len();
    let mut i: usize = 0;
    assert(specs@.take(0) =~= Seq::empty());
    while i < specs.len()
        invariant
            i <= specs@.len(),
            count == if expected_endpoints(specs@.take(i as int)) + specs@.len() - i < usize::MAX {
                expected_endpoints(specs@.take(i as int)) + specs@.len() - i
            } else {
                usize::MAX as int
            },
        decreases specs@.len() - i,
    {
        proof {
            assert(specs@.take(i + 1).drop_last() =~= specs@.take(i as int));
            assert(specs@.take(i + 1).last() == specs@[i as int]);
        }
        match &specs[i].kind {
            EndpointKind::UdpServer(_) => {
                count = count.saturating_add(DEFAULT_PEER_CAPACITY);
            },
            EndpointKind::TcpServer(_) => {
                count = count.saturating_add(DEFAULT_TCPS_PEER_BUDGET);
            },
            _ => {},
        }
        i = i + 1;
    }
    assert(specs@.take(specs@.len() as int) =~= specs@);
    count
}

/// How many announcements the queue of the router has room for: two for each endpoint
/// that is to be expected, and 64 at least.
pub fn event_queue_capacity(registry_estimate: usize) -> (r: usize)
    requires
        2 * registry_estimate <= usize::MAX,
    ensures
        r == if 2 * registry_estimate < 64 {
            64
        } else {
            2 * registry_estimate
        },
{
    let doubled: usize = registry_estimate * 2;
    if doubled < 64 {
        64
    } else {
        doubled
    }
}

/// The legs of a group are the endpoints that are in it and are no sniffers, counted.
pub proof fn law_legs_are_counted(specs: Seq<EndpointSpec>, name: Seq<char>)
    ensures
        legs(specs, name) == specs.filter(
            |s: EndpointSpec|
                s.kind@.identity().group == Some(name) && !s.kind@.identity().sniffer,
        ).len(),
    decreases specs.len(),
{
    reveal(Seq::filter);
    if specs.len() > 0 {
        law_legs_are_counted(specs.drop_last(), name);
    }
}

/// Every endpoint counts for one; a `udps:` listener for 256 more and a `tcps:` listener for
/// 64 more.
pub proof fn law_listeners_are_expected_to_have_peers(specs: Seq<EndpointSpec>)
    ensures
        expected_endpoints(specs) == specs.len() + 256 * specs.filter(
            |s: EndpointSpec| s.kind is UdpServer,
        ).len() + 64 * specs.filter(|s: EndpointSpec| s.kind is TcpServer).len(),
    decreases specs.len(),
{
    reveal(Seq::filter);
    if specs.len() > 0 {
        law_listeners_are_expected_to_have_peers(specs.drop_last());
    }
}

} // verus!

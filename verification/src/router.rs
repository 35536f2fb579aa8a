//! Which endpoints a frame goes to.

use vstd::prelude::*;

use crate::endpoint::events::EndpointEvent;
use crate::endpoint::id::EndpointId;
use crate::endpoint::identity_flags::{IdentityFlags, IdentityView, LEARN_CAPACITY};
use crate::mavlink::frame::{NodeId, ParsedHeader};
use crate::text::text_eq;

verus! {

// ---------------------------------------------------------------- learned nodes

/// `nodes` without `node`.
pub open spec fn without(nodes: Seq<NodeId>, node: NodeId) -> Seq<NodeId>
    decreases nodes.len(),
{
    if nodes.len() == 0 {
        Seq::empty()
    } else if nodes.last() == node {
        without(nodes.drop_last(), node)
    } else {
        without(nodes.drop_last(), node).push(nodes.last())
    }
}

/// The nodes known after `node` was heard, the one heard longest ago first. Where there is
/// no room the one heard longest ago is forgotten.
pub open spec fn learned(nodes: Seq<NodeId>, node: NodeId) -> Seq<NodeId> {
    let others = without(nodes, node);
    if others.len() < LEARN_CAPACITY {
        others.push(node)
    } else {
        others.skip(1).push(node)
    }
}

/// Whether a frame for component `comp` of system `sys` is for one of the nodes. Component
/// 0 is every component of the system.
pub open spec fn is_for(nodes: Seq<NodeId>, sys: u8, comp: u8) -> bool {
    exists|i: int|
        0 <= i < nodes.len() && (#[trigger] nodes[i]).sys == sys && (comp == 0 || nodes[i].comp
            == comp)
}

/// The nodes that have been heard from an endpoint.
#[derive(Debug)]
pub struct LearnSet {
    nodes: Vec<NodeId>,
}

impl View for LearnSet {
    type V = Seq<NodeId>;

    /// The nodes, the one heard longest ago first.
    closed spec fn view(&self) -> Seq<NodeId> {
        self.nodes@
    }
}

impl LearnSet {
    /// Nothing has been heard.
    pub fn new() -> (r: Self)
        ensures
            r@ == Seq::<NodeId>::empty(),
    {
        LearnSet { nodes: Vec::new() }
    }

    /// How many nodes are known.
    pub fn len(&self) -> (r: usize)
        ensures
            r == self@.len(),
    {
        self.nodes.len()
    }

    /// Whether `node` is known.
    pub fn contains(&self, node: NodeId) -> (r: bool)
        ensures
            r == self@.contains(node),
    {
        let mut i: usize = 0;
        while i < self.nodes.len()
            invariant
                i <= self.nodes@.len(),
                forall|j: int| 0 <= j < i ==> self.nodes@[j] != node,
            decreases self.nodes@.len() - i,
        {
            if self.nodes[i] == node {
                assert(self@[i as int] == node);
                return true;
            }
            i = i + 1;
        }
        false
    }

    /// Whether a frame for component `comp` of system `sys` is for one of the nodes.
    pub fn is_addressee(&self, sys: u8, comp: u8) -> (r: bool)
        ensures
            r == is_for(self@, sys, comp),
    {
        let mut i: usize = 0;
        while i < self.nodes.len()
            invariant
                i <= self.nodes@.len(),
                forall|j: int|
                    0 <= j < i ==> !((#[trigger] self.nodes@[j]).sys == sys && (comp == 0
                        || self.nodes@[j].comp == comp)),
            decreases self.nodes@.len() - i,
        {
            if self.nodes[i].sys == sys && (comp == 0 || self.nodes[i].comp == comp) {
                assert(self@[i as int].sys == sys);
                return true;
            }
            i = i + 1;
        }
        false
    }

    /// Note that `node` was heard.
    pub fn learn(&mut self, node: NodeId)
        ensures
            final(self)@ == learned(old(self)@, node),
    {
        let mut others: Vec<NodeId> = Vec::new();
        let mut i: usize = 0;
        let ghost nodes = self.nodes@;
        assert(nodes.take(0) =~= Seq::empty());
        while i < self.nodes.len()
            invariant
                i <= self.nodes@.len(),
                self.nodes@ == nodes,
                others@ == without(nodes.take(i as int), node),
            decreases self.nodes@.len() - i,
        {
            proof {
                assert(nodes.take(i + 1).drop_last() =~= nodes.take(i as int));
                assert(nodes.take(i + 1).last() == nodes[i as int]);
            }
            if self.nodes[i] != node {
                others.push(self.nodes[i]);
            }
            i = i + 1;
        }
        assert(nodes.take(nodes.len() as int) =~= nodes);
        if others.len() >= LEARN_CAPACITY {
            let ghost before = others@;
            others.remove(0);
            assert(others@ =~= before.skip(1));
        }
        others.push(node);
        self.nodes = others;
    }
}

impl Clone for LearnSet {
    fn clone(&self) -> (r: Self)
        ensures
            r@ == self@,
    {
        let mut nodes: Vec<NodeId> = Vec::new();
        let mut i: usize = 0;
        while i < self.nodes.len()
            invariant
                i <= self.nodes@.len(),
                nodes@ =~= self.nodes@.take(i as int),
            decreases self.nodes@.len() - i,
        {
            nodes.push(self.nodes[i]);
            i = i + 1;
        }
        assert(self.nodes@.take(self.nodes@.len() as int) =~= self.nodes@);
        LearnSet { nodes }
    }
}

/// What was just heard is known, and the nodes never outgrow their room.
pub proof fn law_heard_is_known(nodes: Seq<NodeId>, node: NodeId)
    ensures
        learned(nodes, node).contains(node),
        nodes.len() <= LEARN_CAPACITY ==> learned(nodes, node).len() <= LEARN_CAPACITY,
{
    let out = learned(nodes, node);
    lemma_without(nodes, node);
    assert(out[out.len() - 1] == node);
}

/// Nothing but `node` is gone.
proof fn lemma_without(nodes: Seq<NodeId>, node: NodeId)
    ensures
        without(nodes, node).len() <= nodes.len(),
        !without(nodes, node).contains(node),
    decreases nodes.len(),
{
    if nodes.len() > 0 {
        lemma_without(nodes.drop_last(), node);
        let init = without(nodes.drop_last(), node);
        assert forall|i: int| 0 <= i < without(nodes, node).len() implies without(nodes, node)[i]
            != node by {
            if i < init.len() {
                assert(without(nodes, node)[i] == init[i]);
            }
        }
    }
}

// ---------------------------------------------------------------- one destination

/// What becomes of a frame at one destination.
#[derive(Debug, Clone, Copy, PartialEq, Eq, Structural)]
pub enum Verdict {
    /// It is sent.
    Forward,
    /// The sender is behind the destination.
    Loop,
    /// The filters of the destination keep it back.
    Filtered,
    /// It is addressed to a node that is not behind the destination.
    NotAddressee,
}

/// The node that a frame is addressed to; `None` where it is for everyone. System 0 is
/// everyone.
pub open spec fn target_spec(h: ParsedHeader) -> Option<(u8, u8)> {
    match h.target_system {
        Some(sys) => if sys == 0 {
            None
        } else {
            Some((sys, h.target_component.unwrap_or(0)))
        },
        None => None,
    }
}

/// The node that a frame is addressed to.
pub fn target_of(h: &ParsedHeader) -> (r: Option<(u8, u8)>)
    ensures
        r == target_spec(*h),
{
    match h.target_system {
        Some(sys) => if sys == 0 {
            None
        } else {
            Some((sys, h.target_component.unwrap_or(0)))
        },
        None => None,
    }
}

/// What becomes of a frame at a destination with this identity and these known nodes.
/// `origin` is the configured endpoint that the frame came in by. A sniffer gets
/// everything. Anyone else does not get what a node behind it sent, what its filters keep
/// back, or what is addressed to a node that is not behind it.
pub open spec fn verdict_spec(
    identity: IdentityView,
    nodes: Seq<NodeId>,
    h: ParsedHeader,
    origin: Seq<char>,
) -> Verdict {
    if identity.sniffer {
        Verdict::Forward
    } else if nodes.contains(h.source_spec()) {
        Verdict::Loop
    } else if !identity.filters.passes_out(h.msgid, h.source_spec(), origin) {
        Verdict::Filtered
    } else {
        match target_spec(h) {
            None => Verdict::Forward,
            Some((sys, comp)) => if is_for(nodes, sys, comp) {
                Verdict::Forward
            } else {
                Verdict::NotAddressee
            },
        }
    }
}

/// Decide on a frame at one destination.
pub fn decide(identity: &IdentityFlags, nodes: &LearnSet, h: &ParsedHeader, origin: &str) -> (r:
    Verdict)
    ensures
        r == verdict_spec(identity@, nodes@, *h, origin@),
{
    if identity.sniffer {
        return Verdict::Forward;
    }
    if nodes.contains(h.source()) {
        return Verdict::Loop;
    }
    if !identity.filters.passes_out_filter(h.msgid, h.source(), origin) {
        return Verdict::Filtered;
    }
    match target_of(h) {
        None => Verdict::Forward,
        Some((sys, comp)) => if nodes.is_addressee(sys, comp) {
            Verdict::Forward
        } else {
            Verdict::NotAddressee
        },
    }
}

/// A sniffer gets every frame.
pub proof fn law_sniffer_gets_everything(
    identity: IdentityView,
    nodes: Seq<NodeId>,
    h: ParsedHeader,
    origin: Seq<char>,
)
    requires
        identity.sniffer,
    ensures
        verdict_spec(identity, nodes, h, origin) == Verdict::Forward,
{
}

/// No frame goes back towards the node that sent it, sniffers aside.
pub proof fn law_no_loops(
    identity: IdentityView,
    nodes: Seq<NodeId>,
    h: ParsedHeader,
    origin: Seq<char>,
)
    requires
        !identity.sniffer,
        nodes.contains(h.source_spec()),
    ensures
        verdict_spec(identity, nodes, h, origin) != Verdict::Forward,
{
}

/// A frame for everyone reaches every destination that lets it out and does not have the
/// sender behind it.
pub proof fn law_broadcast_reaches_everyone(
    identity: IdentityView,
    nodes: Seq<NodeId>,
    h: ParsedHeader,
    origin: Seq<char>,
)
    requires
        h.target_system is None,
        !nodes.contains(h.source_spec()),
        identity.filters.passes_out(h.msgid, h.source_spec(), origin),
    ensures
        verdict_spec(identity, nodes, h, origin) == Verdict::Forward,
{
}

/// An addressed frame reaches only destinations with the addressee behind them, and
/// sniffers.
pub proof fn law_addressed_reaches_addressee_only(
    identity: IdentityView,
    nodes: Seq<NodeId>,
    h: ParsedHeader,
    origin: Seq<char>,
)
    requires
        verdict_spec(identity, nodes, h, origin) == Verdict::Forward,
        !identity.sniffer,
    ensures
        target_spec(h) matches Some((sys, comp)) ==> is_for(nodes, sys, comp),
{
}

// ---------------------------------------------------------------- the table

/// An endpoint that frames can be sent to.
#[derive(Debug)]
pub struct Route {
    pub id: EndpointId,
    /// The configured endpoint that this is, or is a peer of.
    pub origin: String,
    pub identity: IdentityFlags,
    pub learned: LearnSet,
}

/// The view of a `Route`.
#[verifier::ext_equal]
pub struct RouteView {
    pub id: EndpointId,
    pub origin: Seq<char>,
    pub identity: IdentityView,
    pub learned: Seq<NodeId>,
}

impl View for Route {
    type V = RouteView;

    open spec fn view(&self) -> RouteView {
        RouteView {
            id: self.id,
            origin: self.origin@,
            identity: self.identity@,
            learned: self.learned@,
        }
    }
}

/// The endpoints that frames come from and go to.
#[derive(Debug)]
pub struct Router {
    /// The configured endpoints and their names.
    declared: Vec<(EndpointId, String)>,
    routes: Vec<Route>,
}

/// The view of a `Router`.
#[verifier::ext_equal]
pub struct RouterView {
    pub declared: Seq<(EndpointId, Seq<char>)>,
    pub routes: Seq<RouteView>,
}

/// The views of routes.
pub open spec fn route_views(v: Seq<Route>) -> Seq<RouteView> {
    Seq::new(v.len(), |i: int| v[i]@)
}

impl View for Router {
    type V = RouterView;

    closed spec fn view(&self) -> RouterView {
        RouterView {
            declared: Seq::new(
                self.declared@.len(),
                |i: int| (self.declared@[i].0, self.declared@[i].1@),
            ),
            routes: route_views(self.routes@),
        }
    }
}

/// Whether two endpoints share what they have learned.
pub open spec fn same_group(a: IdentityView, b: IdentityView) -> bool {
    a.group is Some && a.group == b.group
}

/// Where the route `id` is; the number of routes where there is none.
pub open spec fn route_index(routes: Seq<RouteView>, id: EndpointId) -> nat
    decreases routes.len(),
{
    if routes.len() == 0 {
        0
    } else if routes[0].id == id {
        0
    } else {
        1 + route_index(routes.skip(1), id)
    }
}

/// The name under which the endpoint `id` was configured, else `default`.
pub open spec fn declared_name(
    declared: Seq<(EndpointId, Seq<char>)>,
    id: EndpointId,
    default: Seq<char>,
) -> Seq<char>
    decreases declared.len(),
{
    if declared.len() == 0 {
        default
    } else if declared[0].0 == id {
        declared[0].1
    } else {
        declared_name(declared.skip(1), id, default)
    }
}

/// What the group of `identity` has learned; nothing where it is in none or is its first
/// member.
pub open spec fn group_knowledge(routes: Seq<RouteView>, identity: IdentityView) -> Seq<NodeId>
    decreases routes.len(),
{
    if routes.len() == 0 {
        Seq::empty()
    } else if same_group(routes[0].identity, identity) {
        routes[0].learned
    } else {
        group_knowledge(routes.skip(1), identity)
    }
}

/// The routes other than `id`.
pub open spec fn routes_without(routes: Seq<RouteView>, id: EndpointId) -> Seq<RouteView>
    decreases routes.len(),
{
    if routes.len() == 0 {
        Seq::empty()
    } else if routes.last().id == id {
        routes_without(routes.drop_last(), id)
    } else {
        routes_without(routes.drop_last(), id).push(routes.last())
    }
}

impl RouterView {
    /// With one more destination, which takes over what its group has learned.
    pub open spec fn joined(
        self,
        id: EndpointId,
        origin: Seq<char>,
        identity: IdentityView,
    ) -> RouterView {
        RouterView {
            routes: self.routes.push(
                RouteView { id, origin, identity, learned: group_knowledge(self.routes, identity) },
            ),
            ..self
        }
    }

    /// After an endpoint came or went.
    pub open spec fn after(self, event: EndpointEvent) -> RouterView {
        match event {
            EndpointEvent::EndpointAdded { id, name, identity } => {
                let known = RouterView { declared: self.declared.push((id, name@)), ..self };
                match identity {
                    Some(i) => known.joined(id, name@, i@),
                    None => known,
                }
            },
            EndpointEvent::PeerAdded { parent_id, child_id, name, identity } => self.joined(
                child_id,
                declared_name(self.declared, parent_id, name@),
                identity@,
            ),
            EndpointEvent::PeerRemoved { child_id, .. } => RouterView {
                routes: routes_without(self.routes, child_id),
                ..self
            },
        }
    }

    /// The routes after `node` was heard at the endpoint `source`: it and its group know the
    /// node now.
    pub open spec fn heard(self, source: RouteView, node: NodeId) -> Seq<RouteView> {
        Seq::new(
            self.routes.len(),
            |i: int|
                if self.routes[i].id == source.id || same_group(
                    self.routes[i].identity,
                    source.identity,
                ) {
                    RouteView { learned: learned(self.routes[i].learned, node), ..self.routes[i] }
                } else {
                    self.routes[i]
                },
        )
    }
}

/// What becomes of a frame at each route but the one it came from, in order.
pub open spec fn verdicts(routes: Seq<RouteView>, source: RouteView, h: ParsedHeader) -> Seq<
    (EndpointId, Verdict),
>
    decreases routes.len(),
{
    if routes.len() == 0 {
        Seq::empty()
    } else {
        let d = routes.last();
        let before = verdicts(routes.drop_last(), source, h);
        if d.id == source.id {
            before
        } else {
            before.push((d.id, verdict_spec(d.identity, d.learned, h, source.origin)))
        }
    }
}

impl Router {
    /// No endpoints.
    pub fn new() -> (r: Self)
        ensures
            r@ == (RouterView { declared: Seq::empty(), routes: Seq::empty() }),
    {
        let r = Router { declared: Vec::new(), routes: Vec::new() };
        assert(r@ =~= (RouterView { declared: Seq::empty(), routes: Seq::empty() }));
        r
    }

    /// Where the route `id` is.
    fn find(&self, id: EndpointId) -> (r: usize)
        ensures
            r == route_index(self@.routes, id),
            r <= self.routes@.len(),
            r < self.routes@.len() ==> self.routes@[r as int].id == id,
    {
        let ghost all = self@.routes;
        let mut i: usize = 0;
        assert(all.skip(0) =~= all);
        while i < self.routes.len()
            invariant
                i <= self.routes@.len(),
                all == route_views(self.routes@),
                all == self@.routes,
                route_index(all, id) == i + route_index(all.skip(i as int), id),
            decreases self.routes@.len() - i,
        {
            assert(all.skip(i as int)[0] == self.routes@[i as int]@);
            assert(all.skip(i as int).skip(1) =~= all.skip(i + 1));
            if self.routes[i].id == id {
                return i;
            }
            i = i + 1;
        }
        assert(all.skip(all.len() as int).len() == 0);
        i
    }

    /// The name under which the endpoint `id` was configured, else `default`.
    fn name_of(&self, id: EndpointId, default: &str) -> (r: String)
        ensures
            r@ == declared_name(self@.declared, id, default@),
    {
        let ghost all = self@.declared;
        let mut i: usize = 0;
        assert(all.skip(0) =~= all);
        while i < self.declared.len()
            invariant
                i <= self.declared@.len(),
                all == self@.declared,
                all.len() == self.declared@.len(),
                declared_name(all, id, default@) == declared_name(
                    all.skip(i as int),
                    id,
                    default@,
                ),
            decreases self.declared@.len() - i,
        {
            assert(all.skip(i as int)[0] == (
                self.declared@[i as int].0,
                self.declared@[i as int].1@,
            ));
            assert(all.skip(i as int).skip(1) =~= all.skip(i + 1));
            if self.declared[i].0 == id {
                return self.declared[i].1.clone();
            }
            i = i + 1;
        }
        assert(all.skip(all.len() as int).len() == 0);
        default.to_owned()
    }

    /// What the group of `identity` has learned.
    fn knowledge_of(&self, identity: &IdentityFlags) -> (r: LearnSet)
        ensures
            r@ == group_knowledge(self@.routes, identity@),
    {
        let ghost all = self@.routes;
        let mut i: usize = 0;
        assert(all.skip(0) =~= all);
        while i < self.routes.len()
            invariant
                i <= self.routes@.len(),
                all == route_views(self.routes@),
                all == self@.routes,
                group_knowledge(all, identity@) == group_knowledge(all.skip(i as int), identity@),
            decreases self.routes@.len() - i,
        {
            assert(all.skip(i as int)[0] == self.routes@[i as int]@);
            assert(all.skip(i as int).skip(1) =~= all.skip(i + 1));
            if share_group(&self.routes[i].identity, identity) {
                return self.routes[i].learned.clone();
            }
            i = i + 1;
        }
        assert(all.skip(all.len() as int).len() == 0);
        LearnSet::new()
    }

    /// Add a destination.
    fn join(&mut self, id: EndpointId, origin: String, identity: IdentityFlags)
        ensures
            final(self)@ == old(self)@.joined(id, origin@, identity@),
    {
        let learned = self.knowledge_of(&identity);
        let route = Route { id, origin, identity, learned };
        let ghost before = self@.routes;
        self.routes.push(route);
        assert(self@.routes =~= before.push(route@));
        assert(self@ =~= old(self)@.joined(id, origin@, identity@));
    }

    /// Take note of an endpoint that came or went.
    pub fn on_event(&mut self, event: EndpointEvent)
        ensures
            final(self)@ == old(self)@.after(event),
    {
        match event {
            EndpointEvent::EndpointAdded { id, name, identity } => {
                let ghost before = self@;
                self.declared.push((id, name.clone()));
                assert(self@ =~= (RouterView {
                    declared: before.declared.push((id, name@)),
                    ..before
                }));
                match identity {
                    Some(i) => {
                        self.join(id, name, i);
                    },
                    None => {},
                }
            },
            EndpointEvent::PeerAdded { parent_id, child_id, name, identity } => {
                let origin: String = self.name_of(parent_id, name.as_str());
                self.join(child_id, origin, identity);
            },
            EndpointEvent::PeerRemoved { child_id, .. } => {
                self.remove(child_id);
            },
        }
    }

    /// Take a destination out.
    fn remove(&mut self, id: EndpointId)
        ensures
            final(self)@ == (RouterView {
                routes: routes_without(old(self)@.routes, id),
                ..old(self)@
            }),
    {
        let ghost all = self@.routes;
        let ghost declared = self@.declared;
        let mut rest: Vec<Route> = Vec::new();
        std::mem::swap(&mut rest, &mut self.routes);
        assert(self@.declared =~= declared);
        assert(all.take(0) =~= Seq::empty());
        assert(route_views(self.routes@) =~= Seq::empty());
        for route in it: rest.into_iter()
            invariant
                all == route_views(it.seq()),
                self@.declared == declared,
                route_views(self.routes@) == routes_without(all.take(it.index() as int), id),
        {
            proof {
                let i = it.index() as int;
                assert(all.take(i + 1).drop_last() =~= all.take(i));
                assert(all.take(i + 1).last() == route@);
            }
            if route.id != id {
                let ghost before = route_views(self.routes@);
                self.routes.push(route);
                assert(route_views(self.routes@) =~= before.push(route@));
                assert(self@.declared =~= declared);
            }
        }
        assert(all.take(all.len() as int) =~= all);
    }

    /// Note that `node` was heard at the endpoint with this id and identity.
    fn hear(&mut self, id: EndpointId, identity: &IdentityFlags, node: NodeId)
        ensures
            forall|source: RouteView|
                source.id == id && source.identity == identity@ ==> final(self)@ == (RouterView {
                    routes: #[trigger] old(self)@.heard(source, node),
                    ..old(self)@
                }),
    {
        let ghost all = self@;
        let ghost source = RouteView {
            id,
            origin: Seq::empty(),
            identity: identity@,
            learned: Seq::empty(),
        };
        let mut i: usize = 0;
        while i < self.routes.len()
            invariant
                i <= self.routes@.len(),
                all == old(self)@,
                self.routes@.len() == all.routes.len(),
                source.id == id,
                source.identity == identity@,
                self@.declared == all.declared,
                forall|j: int|
                    0 <= j < i ==> (#[trigger] self.routes@[j])@ == all.heard(source, node)[j],
                forall|j: int|
                    i <= j < self.routes@.len() ==> (#[trigger] self.routes@[j])@ == all.routes[j],
            decreases self.routes@.len() - i,
        {
            if self.routes[i].id == id || share_group(&self.routes[i].identity, identity) {
                self.routes[i].learned.learn(node);
            }
            assert(self@.declared =~= all.declared);
            i = i + 1;
        }
        assert forall|s: RouteView| s.id == id && s.identity == identity@ implies self@ == (
        RouterView { routes: #[trigger] all.heard(s, node), ..all }) by {
            assert(all.heard(s, node) =~= all.heard(source, node));
            assert(self@.routes =~= all.heard(s, node));
        }
    }

    /// Learn the sender of a frame that came in at the endpoint `src`, and decide at every
    /// other destination what becomes of the frame. A frame of an endpoint that is gone goes
    /// nowhere.
    pub fn route(&mut self, src: EndpointId, h: &ParsedHeader) -> (r: Vec<(EndpointId, Verdict)>)
        ensures
            ({
                let v = old(self)@;
                let at = route_index(v.routes, src) as int;
                if at < v.routes.len() {
                    let source = v.routes[at];
                    let after = RouterView { routes: v.heard(source, h.source_spec()), ..v };
                    final(self)@ == after && r@ == verdicts(after.routes, source, *h)
                } else {
                    final(self)@ == v && r@.len() == 0
                }
            }),
    {
        let at: usize = self.find(src);
        let mut out: Vec<(EndpointId, Verdict)> = Vec::new();
        if at >= self.routes.len() {
            return out;
        }
        let ghost source = self@.routes[at as int];
        let identity = self.routes[at].identity.clone();
        let origin: String = self.routes[at].origin.clone();
        self.hear(src, &identity, h.source());
        let ghost all = self@.routes;
        let mut i: usize = 0;
        assert(all.take(0) =~= Seq::empty());
        while i < self.routes.len()
            invariant
                i <= self.routes@.len(),
                all == route_views(self.routes@),
                source.id == src,
                origin@ == source.origin,
                out@ == verdicts(all.take(i as int), source, *h),
            decreases self.routes@.len() - i,
        {
            proof {
                assert(all.take(i + 1).drop_last() =~= all.take(i as int));
                assert(all.take(i + 1).last() == self.routes@[i as int]@);
            }
            let route = &self.routes[i];
            if route.id != src {
                out.push(
                    (route.id, decide(&route.identity, &route.learned, h, origin.as_str())),
                );
            }
            i = i + 1;
        }
        assert(all.take(all.len() as int) =~= all);
        out
    }

    /// How many nodes are known behind the endpoint `id`; `None` where it is no
    /// destination.
    pub fn learn_entries(&self, id: EndpointId) -> (r: Option<usize>)
        ensures
            ({
                let at = route_index(self@.routes, id) as int;
                match r {
                    Some(n) => at < self@.routes.len() && n == self@.routes[at].learned.len(),
                    None => at >= self@.routes.len(),
                }
            }),
    {
        let at: usize = self.find(id);
        if at < self.routes.len() {
            Some(self.routes[at].learned.len())
        } else {
            None
        }
    }
}

/// Whether two endpoints are in one group.
fn share_group(a: &IdentityFlags, b: &IdentityFlags) -> (r: bool)
    ensures
        r == same_group(a@, b@),
{
    match (&a.group, &b.group) {
        (Some(x), Some(y)) => text_eq(x.as_str(), y.as_str()),
        _ => false,
    }
}

/// No frame goes out at the endpoint that it came in by.
pub proof fn law_never_back_to_source(
    routes: Seq<RouteView>,
    source: RouteView,
    h: ParsedHeader,
    v: Verdict,
)
    ensures
        !verdicts(routes, source, h).contains((source.id, v)),
    decreases routes.len(),
{
    if routes.len() > 0 {
        let before = verdicts(routes.drop_last(), source, h);
        let all = verdicts(routes, source, h);
        law_never_back_to_source(routes.drop_last(), source, h, v);
        assert forall|i: int| 0 <= i < all.len() implies all[i] != (source.id, v) by {
            if i < before.len() {
                assert(all[i] == before[i]);
            }
        }
    }
}

/// Every other destination is decided on by its own identity and what it has learned.
pub proof fn law_each_destination_decides(
    routes: Seq<RouteView>,
    source: RouteView,
    h: ParsedHeader,
    i: int,
)
    requires
        0 <= i < routes.len(),
        routes[i].id != source.id,
    ensures
        verdicts(routes, source, h).contains(
            (
                routes[i].id,
                verdict_spec(routes[i].identity, routes[i].learned, h, source.origin),
            ),
        ),
    decreases routes.len(),
{
    let d = routes[i];
    let entry = (d.id, verdict_spec(d.identity, d.learned, h, source.origin));
    let all = verdicts(routes, source, h);
    if i == routes.len() - 1 {
        assert(all[all.len() - 1] == entry);
    } else {
        law_each_destination_decides(routes.drop_last(), source, h, i);
        let before = verdicts(routes.drop_last(), source, h);
        let k = before.index_of(entry);
        assert(all[k] == entry);
    }
}

/// Members of one group do not hear each other: what came in at one goes out at no other,
/// sniffers aside.
pub proof fn law_group_members_stay_apart(
    router: RouterView,
    source: RouteView,
    h: ParsedHeader,
    i: int,
)
    requires
        0 <= i < router.routes.len(),
        same_group(router.routes[i].identity, source.identity),
        !router.routes[i].identity.sniffer,
    ensures
        ({
            let d = router.heard(source, h.source_spec())[i];
            verdict_spec(d.identity, d.learned, h, source.origin) == Verdict::Loop
        }),
{
    law_heard_is_known(router.routes[i].learned, h.source_spec());
}

// ---------------------------------------------------------------- what routing promises

/// At a destination that is no sniffer a frame is forwarded only if the sender is not
/// behind it and its egress filters let the frame out, whatever the frame is addressed to.
/// A frame from a node behind the destination is a loop; any other that the filters reject
/// is filtered. What is left is forwarded where it is for everyone (no target system, or
/// system 0) and where the addressee is behind the destination (no target component, and
/// component 0, is any component of the system), and nowhere else.
pub proof fn law_destination_decides(
    identity: IdentityView,
    nodes: Seq<NodeId>,
    h: ParsedHeader,
    origin: Seq<char>,
)
    requires
        !identity.sniffer,
    ensures
        ({
            let v = verdict_spec(identity, nodes, h, origin);
            let sender = NodeId { sys: h.sysid, comp: h.compid };
            let behind = exists|i: int|
                0 <= i < nodes.len() && (#[trigger] nodes[i]).sys == h.sysid && nodes[i].comp
                    == h.compid;
            let lets_out = identity.filters.passes_out(h.msgid, sender, origin);
            let for_all = h.target_system is None || h.target_system == Some(0u8);
            let addressee_behind = exists|i: int|
                0 <= i < nodes.len() && Some((#[trigger] nodes[i]).sys) == h.target_system && (
                h.target_component is None || h.target_component == Some(0u8)
                    || h.target_component == Some(nodes[i].comp));
            &&& v == Verdict::Forward ==> !behind && lets_out
            &&& behind <==> v == Verdict::Loop
            &&& !behind && !lets_out <==> v == Verdict::Filtered
            &&& !behind && lets_out && for_all ==> v == Verdict::Forward
            &&& !behind && lets_out && !for_all && addressee_behind ==> v == Verdict::Forward
            &&& !behind && lets_out && !for_all && !addressee_behind ==> v
                == Verdict::NotAddressee
        }),
{
    let sender = NodeId { sys: h.sysid, comp: h.compid };
    if nodes.contains(sender) {
        let i = nodes.index_of(sender);
        assert(nodes[i].sys == h.sysid && nodes[i].comp == h.compid);
    }
    assert forall|i: int|
        0 <= i < nodes.len() && (#[trigger] nodes[i]).sys == h.sysid && nodes[i].comp
            == h.compid implies nodes.contains(sender) by {
        assert(nodes[i] == sender);
    }
    if let Some((sys, comp)) = target_spec(h) {
        assert forall|i: int| 0 <= i < nodes.len() implies ((#[trigger] nodes[i]).sys == sys && (
        comp == 0 || nodes[i].comp == comp)) == (Some(nodes[i].sys) == h.target_system && (
        h.target_component is None || h.target_component == Some(0u8) || h.target_component == Some(
            nodes[i].comp,
        ))) by {}
    }
}

/// The egress filters have the same say over an addressed frame as over the same frame sent
/// to everyone: where they reject the one they reject the other.
pub proof fn law_filters_ignore_the_target(
    identity: IdentityView,
    nodes: Seq<NodeId>,
    h: ParsedHeader,
    origin: Seq<char>,
    sys: Option<u8>,
    comp: Option<u8>,
)
    ensures
        ({
            let other = ParsedHeader { target_system: sys, target_component: comp, ..h };
            (verdict_spec(identity, nodes, h, origin) == Verdict::Filtered) == (verdict_spec(
                identity,
                nodes,
                other,
                origin,
            ) == Verdict::Filtered)
        }),
{
}

/// The nodes known after one was heard. A known node moves to the end; a new one joins
/// there; of 32 the one heard longest ago goes when a new one joins, and no other ever
/// does.
pub proof fn law_learning_forgets_the_stalest_only(nodes: Seq<NodeId>, node: NodeId)
    requires
        nodes.no_duplicates(),
        nodes.len() <= 32,
    ensures
        learned(nodes, node).no_duplicates(),
        learned(nodes, node).len() <= 32,
        forall|i: int|
            0 <= i < nodes.len() && #[trigger] nodes[i] == node ==> learned(nodes, node)
                == nodes.remove(i).push(node),
        !nodes.contains(node) && nodes.len() < 32 ==> learned(nodes, node) == nodes.push(node),
        !nodes.contains(node) && nodes.len() == 32 ==> learned(nodes, node) == nodes.skip(1).push(
            node,
        ),
{
    lemma_without_unique(nodes, node);
    lemma_without(nodes, node);
    if nodes.contains(node) {
        let i = nodes.index_of(node);
        assert forall|j: int| 0 <= j < nodes.len() && #[trigger] nodes[j] == node implies j == i by {}
        let kept = nodes.remove(i);
        assert forall|a: int, b: int| 0 <= a < b < kept.len() implies kept[a] != kept[b] by {}
    }
    let out = learned(nodes, node);
    assert forall|a: int, b: int| 0 <= a < b < out.len() implies out[a] != out[b] by {
        let others = without(nodes, node);
        if b == out.len() - 1 {
            assert(!others.contains(node));
            if others.len() < 32 {
                assert(others.contains(others[a]));
            } else {
                assert(others.contains(others[a + 1]));
            }
        }
    }
}

/// Without a node that occurs once, or not at all.
proof fn lemma_without_unique(nodes: Seq<NodeId>, node: NodeId)
    requires
        nodes.no_duplicates(),
    ensures
        !nodes.contains(node) ==> without(nodes, node) == nodes,
        forall|i: int|
            0 <= i < nodes.len() && #[trigger] nodes[i] == node ==> without(nodes, node)
                == nodes.remove(i),
    decreases nodes.len(),
{
    if nodes.len() > 0 {
        let init = nodes.drop_last();
        assert(init.no_duplicates());
        lemma_without_unique(init, node);
        if !nodes.contains(node) {
            assert forall|i: int| 0 <= i < init.len() implies init[i] != node by {
                assert(nodes[i] == init[i]);
                assert(nodes.contains(nodes[i]));
            }
            assert(nodes.contains(nodes.last()));
            assert(init.push(nodes.last()) =~= nodes);
        }
        assert forall|i: int| 0 <= i < nodes.len() && #[trigger] nodes[i] == node implies without(
            nodes,
            node,
        ) == nodes.remove(i) by {
            if i == nodes.len() - 1 {
                assert forall|j: int| 0 <= j < init.len() implies init[j] != node by {
                    assert(nodes[j] == init[j]);
                }
                assert(nodes.remove(i) =~= init);
            } else {
                assert(init[i] == node);
                assert(nodes.last() != node);
                assert(nodes.remove(i) =~= init.remove(i).push(nodes.last()));
            }
        }
    }
}

/// Hearing a node changes what the source and the members of its group know, and nothing
/// else: not who they are, and not what anyone else knows.
pub proof fn law_only_source_and_group_learn(
    router: RouterView,
    source: RouteView,
    node: NodeId,
    i: int,
)
    requires
        0 <= i < router.routes.len(),
    ensures
        ({
            let before = router.routes[i];
            let after = router.heard(source, node)[i];
            let shares = before.identity.group is Some && before.identity.group
                == source.identity.group;
            &&& router.heard(source, node).len() == router.routes.len()
            &&& after.id == before.id
            &&& after.origin == before.origin
            &&& after.identity == before.identity
            &&& before.id == source.id || shares ==> after.learned.contains(node)
                && after.learned == learned(before.learned, node)
            &&& before.id != source.id && !shares ==> after == before
        }),
{
    law_heard_is_known(router.routes[i].learned, node);
}

/// Every verdict is that of one destination, and no destination has two: with ids that do
/// not repeat, a frame goes to each destination at most once.
pub proof fn law_one_verdict_each(routes: Seq<RouteView>, source: RouteView, h: ParsedHeader)
    ensures
        ({
            let out = verdicts(routes, source, h);
            &&& out.len() <= routes.len()
            &&& forall|k: int|
                0 <= k < out.len() ==> exists|i: int|
                    0 <= i < routes.len() && (#[trigger] routes[i]).id == (#[trigger] out[k]).0
                        && routes[i].id != source.id && out[k].1 == verdict_spec(
                        routes[i].identity,
                        routes[i].learned,
                        h,
                        source.origin,
                    )
            &&& (forall|i: int, j: int|
                0 <= i < j < routes.len() ==> (#[trigger] routes[i]).id != (
                #[trigger] routes[j]).id) ==> forall|a: int, b: int|
                0 <= a < b < out.len() ==> (#[trigger] out[a]).0 != (#[trigger] out[b]).0
        }),
    decreases routes.len(),
{
    if routes.len() > 0 {
        let init = routes.drop_last();
        let d = routes.last();
        law_one_verdict_each(init, source, h);
        let before = verdicts(init, source, h);
        let out = verdicts(routes, source, h);
        assert forall|k: int| 0 <= k < out.len() implies exists|i: int|
            0 <= i < routes.len() && (#[trigger] routes[i]).id == (#[trigger] out[k]).0
                && routes[i].id != source.id && out[k].1 == verdict_spec(
                routes[i].identity,
                routes[i].learned,
                h,
                source.origin,
            ) by {
            if k < before.len() {
                assert(out[k] == before[k]);
                let i = choose|i: int|
                    0 <= i < init.len() && (#[trigger] init[i]).id == before[k].0 && init[i].id
                        != source.id && before[k].1 == verdict_spec(
                        init[i].identity,
                        init[i].learned,
                        h,
                        source.origin,
                    );
                assert(routes[i] == init[i]);
            } else {
                assert(routes[routes.len() - 1] == d);
            }
        }
        if forall|i: int, j: int|
            0 <= i < j < routes.len() ==> (#[trigger] routes[i]).id != (#[trigger] routes[j]).id {
            assert forall|i: int, j: int| 0 <= i < j < init.len() implies (
            #[trigger] init[i]).id != (#[trigger] init[j]).id by {
                assert(routes[i] == init[i] && routes[j] == init[j]);
            }
            assert forall|a: int, b: int| 0 <= a < b < out.len() implies (
            #[trigger] out[a]).0 != (#[trigger] out[b]).0 by {
                assert(out[a] == before[a]);
                if b < before.len() {
                    assert(out[b] == before[b]);
                } else {
                    let i = choose|i: int|
                        0 <= i < init.len() && (#[trigger] init[i]).id == before[a].0;
                    assert(routes[i] == init[i]);
                    assert(routes[routes.len() - 1] == d);
                }
            }
        }
    }
}

/// The members of a group know the same nodes.
pub open spec fn groups_agree(routes: Seq<RouteView>) -> bool {
    forall|i: int, j: int|
        0 <= i < routes.len() && 0 <= j < routes.len() && (
        #[trigger] routes[i]).identity.group is Some && routes[i].identity.group == (
        #[trigger] routes[j]).identity.group ==> routes[i].learned == routes[j].learned
}

/// The members of a group go on knowing the same nodes whatever is heard.
pub proof fn law_groups_learn_together(router: RouterView, source: RouteView, node: NodeId)
    requires
        groups_agree(router.routes),
        router.routes.contains(source),
        forall|i: int, j: int|
            0 <= i < j < router.routes.len() ==> (#[trigger] router.routes[i]).id != (
            #[trigger] router.routes[j]).id,
    ensures
        groups_agree(router.heard(source, node)),
{
    let at = router.routes.index_of(source);
    let after = router.heard(source, node);
    assert forall|i: int, j: int|
        0 <= i < after.len() && 0 <= j < after.len() && (
        #[trigger] after[i]).identity.group is Some && after[i].identity.group == (
        #[trigger] after[j]).identity.group implies after[i].learned == after[j].learned by {
        let a = router.routes[i];
        let b = router.routes[j];
        assert(a.learned == b.learned);
        if a.id == source.id && i != at {
            assert(router.routes[at].id != router.routes[i].id);
        }
        if b.id == source.id && j != at {
            assert(router.routes[at].id != router.routes[j].id);
        }
    }
}

/// A destination that joins comes last, under its own id, origin and identity. In no group
/// it knows nothing; in a group that has a member already it knows what the members know.
/// Everyone else stays as before, and so the members of a group go on agreeing.
pub proof fn law_joining_takes_over_group_knowledge(
    router: RouterView,
    id: EndpointId,
    origin: Seq<char>,
    identity: IdentityView,
)
    requires
        groups_agree(router.routes),
    ensures
        ({
            let after = router.joined(id, origin, identity);
            let new = after.routes.last();
            &&& after.declared == router.declared
            &&& after.routes.drop_last() == router.routes
            &&& after.routes.len() == router.routes.len() + 1
            &&& new.id == id
            &&& new.origin == origin
            &&& new.identity == identity
            &&& identity.group is None ==> new.learned.len() == 0
            &&& forall|i: int|
                0 <= i < router.routes.len() && identity.group is Some && (
                #[trigger] router.routes[i]).identity.group == identity.group ==> new.learned
                    == router.routes[i].learned
            &&& (forall|i: int|
                0 <= i < router.routes.len() ==> (
                #[trigger] router.routes[i]).identity.group != identity.group)
                ==> new.learned.len() == 0
            &&& groups_agree(after.routes)
        }),
{
    let after = router.joined(id, origin, identity);
    let new = after.routes.last();
    assert(after.routes.drop_last() =~= router.routes);
    lemma_group_knowledge(router.routes, identity);
    assert forall|i: int|
        0 <= i < router.routes.len() && identity.group is Some && (
        #[trigger] router.routes[i]).identity.group == identity.group implies new.learned
        == router.routes[i].learned by {
        let k = choose|k: int|
            0 <= k < router.routes.len() && (#[trigger] router.routes[k]).identity.group
                == identity.group && router.routes[k].learned == new.learned;
        assert(router.routes[k].learned == router.routes[i].learned);
    }
    assert forall|i: int, j: int|
        0 <= i < after.routes.len() && 0 <= j < after.routes.len() && (
        #[trigger] after.routes[i]).identity.group is Some && after.routes[i].identity.group == (
        #[trigger] after.routes[j]).identity.group implies after.routes[i].learned
        == after.routes[j].learned by {
        let n = router.routes.len() as int;
        if i < n {
            assert(after.routes[i] == router.routes[i]);
        }
        if j < n {
            assert(after.routes[j] == router.routes[j]);
        }
    }
}

/// What a group knows is what one of its members knows.
proof fn lemma_group_knowledge(routes: Seq<RouteView>, identity: IdentityView)
    ensures
        identity.group is None ==> group_knowledge(routes, identity).len() == 0,
        identity.group is Some && (exists|i: int|
            0 <= i < routes.len() && (#[trigger] routes[i]).identity.group == identity.group)
            ==> exists|k: int|
            0 <= k < routes.len() && (#[trigger] routes[k]).identity.group == identity.group
                && routes[k].learned == group_knowledge(routes, identity),
        (forall|i: int|
            0 <= i < routes.len() ==> (#[trigger] routes[i]).identity.group != identity.group)
            ==> group_knowledge(routes, identity).len() == 0,
    decreases routes.len(),
{
    if routes.len() > 0 {
        let rest = routes.skip(1);
        lemma_group_knowledge(rest, identity);
        assert forall|i: int| 0 <= i < rest.len() implies #[trigger] rest[i] == routes[i + 1] by {}
        if same_group(routes[0].identity, identity) {
            assert(routes[0].learned == group_knowledge(routes, identity));
        } else if identity.group is Some {
            if exists|i: int|
                0 <= i < routes.len() && (#[trigger] routes[i]).identity.group == identity.group {
                let i = choose|i: int|
                    0 <= i < routes.len() && (#[trigger] routes[i]).identity.group
                        == identity.group;
                assert(rest[i - 1].identity.group == identity.group);
                let k = choose|k: int|
                    0 <= k < rest.len() && (#[trigger] rest[k]).identity.group == identity.group
                        && rest[k].learned == group_knowledge(rest, identity);
                assert(routes[k + 1] == rest[k]);
            }
        }
    }
}

/// A peer that goes is taken out, and no one else.
pub proof fn law_removal_is_exact(router: RouterView, event: EndpointEvent)
    requires
        event is PeerRemoved,
    ensures
        router.after(event).declared == router.declared,
        router.after(event).routes == router.routes.filter(
            |r: RouteView| r.id != event->PeerRemoved_child_id,
        ),
{
    lemma_routes_without(router.routes, event->PeerRemoved_child_id);
}

/// Taking a route out.
proof fn lemma_routes_without(routes: Seq<RouteView>, id: EndpointId)
    ensures
        routes_without(routes, id) == routes.filter(|r: RouteView| r.id != id),
    decreases routes.len(),
{
    reveal(Seq::filter);
    if routes.len() > 0 {
        lemma_routes_without(routes.drop_last(), id);
    } else {
        assert(routes.filter(|r: RouteView| r.id != id) =~= Seq::<RouteView>::empty());
    }
}

/// The name of a configured endpoint is the first that was declared under its id.
pub proof fn law_declared_name_is_found(
    declared: Seq<(EndpointId, Seq<char>)>,
    id: EndpointId,
    default: Seq<char>,
)
    ensures
        forall|i: int|
            0 <= i < declared.len() && (#[trigger] declared[i]).0 == id && (forall|j: int|
                0 <= j < i ==> (#[trigger] declared[j]).0 != id) ==> declared_name(
                declared,
                id,
                default,
            ) == declared[i].1,
        (forall|i: int| 0 <= i < declared.len() ==> (#[trigger] declared[i]).0 != id)
            ==> declared_name(declared, id, default) == default,
    decreases declared.len(),
{
    if declared.len() > 0 {
        let rest = declared.skip(1);
        law_declared_name_is_found(rest, id, default);
        assert forall|i: int| 0 <= i < rest.len() implies #[trigger] rest[i] == declared[i + 1] by {}
        assert forall|i: int|
            0 <= i < declared.len() && (#[trigger] declared[i]).0 == id && (forall|j: int|
                0 <= j < i ==> (#[trigger] declared[j]).0 != id) implies declared_name(
            declared,
            id,
            default,
        ) == declared[i].1 by {
            if i > 0 {
                assert(declared[0].0 != id);
                assert(rest[i - 1].0 == id);
                assert forall|j: int| 0 <= j < i - 1 implies (#[trigger] rest[j]).0 != id by {
                    assert(rest[j] == declared[j + 1]);
                }
            }
        }
    }
}

/// A route is found at the first place that holds its id, or at the end.
pub proof fn law_route_is_found(routes: Seq<RouteView>, id: EndpointId)
    ensures
        route_index(routes, id) <= routes.len(),
        route_index(routes, id) < routes.len() ==> routes[route_index(routes, id) as int].id == id,
        forall|i: int|
            0 <= i < route_index(routes, id) && i < routes.len() ==> (#[trigger] routes[i]).id
                != id,
    decreases routes.len(),
{
    if routes.len() > 0 && routes[0].id != id {
        let rest = routes.skip(1);
        law_route_is_found(rest, id);
        assert forall|i: int|
            0 <= i < route_index(routes, id) && i < routes.len() implies (
        #[trigger] routes[i]).id != id by {
            if i > 0 {
                assert(rest[i - 1] == routes[i]);
            }
        }
    }
}

/// A configured endpoint is declared under its name, and is a destination of that origin
/// where frames can be sent to it. A peer is a destination of the origin that its listener
/// was declared under.
pub proof fn law_origin_is_the_configured_name(router: RouterView, event: EndpointEvent)
    ensures
        event matches EndpointEvent::EndpointAdded { id, name, identity } ==> {
            let after = router.after(event);
            &&& after.declared == router.declared.push((id, name@))
            &&& identity is None ==> after.routes == router.routes
            &&& identity matches Some(i) ==> {
                &&& after.routes.len() == router.routes.len() + 1
                &&& after.routes.drop_last() == router.routes
                &&& after.routes.last().id == id
                &&& after.routes.last().origin == name@
                &&& after.routes.last().identity == i@
            }
        },
        event matches EndpointEvent::PeerAdded { parent_id, child_id, name, identity } ==> {
            let after = router.after(event);
            &&& after.declared == router.declared
            &&& after.routes.len() == router.routes.len() + 1
            &&& after.routes.drop_last() == router.routes
            &&& after.routes.last().id == child_id
            &&& after.routes.last().identity == identity@
            &&& forall|i: int|
                0 <= i < router.declared.len() && (#[trigger] router.declared[i]).0 == parent_id
                    && (forall|j: int|
                    0 <= j < i ==> (#[trigger] router.declared[j]).0 != parent_id)
                    ==> after.routes.last().origin == router.declared[i].1
        },
{
    let after = router.after(event);
    match event {
        EndpointEvent::EndpointAdded { id, name, identity } => {
            if identity is Some {
                assert(after.routes.drop_last() =~= router.routes);
            }
        },
        EndpointEvent::PeerAdded { parent_id, child_id, name, identity } => {
            law_declared_name_is_found(router.declared, parent_id, name@);
            assert(after.routes.drop_last() =~= router.routes);
        },
        EndpointEvent::PeerRemoved { .. } => {},
    }
}

} // verus!

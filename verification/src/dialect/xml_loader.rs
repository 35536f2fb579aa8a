//! Walks the dialect files that a dialect file refers to.

use vstd::prelude::*;

use crate::text;
use crate::text::text_eq;

verus! {

/// Why a walk failed.
#[derive(Debug)]
pub enum WalkError {
    /// A file refers to itself, directly or through others.
    Cycle(String),
    /// A file could not be loaded.
    LoadFailed { key: String, reason: String },
}

/// The view of a `WalkError`.
pub enum WalkErrorView {
    Cycle(Seq<char>),
    LoadFailed { key: Seq<char>, reason: Seq<char> },
}

impl View for WalkError {
    type V = WalkErrorView;

    open spec fn view(&self) -> WalkErrorView {
        match self {
            WalkError::Cycle(key) => WalkErrorView::Cycle(key@),
            WalkError::LoadFailed { key, reason } => WalkErrorView::LoadFailed {
                key: key@,
                reason: reason@,
            },
        }
    }
}

/// What each file refers to, or why it cannot be loaded.
pub type Graph = spec_fn(Seq<char>) -> Result<Seq<Seq<char>>, Seq<char>>;

/// What a loader returned, as characters.
pub open spec fn loaded(r: Result<Vec<String>, String>) -> Result<Seq<Seq<char>>, Seq<char>> {
    match r {
        Ok(keys) => Ok(text::texts(keys@)),
        Err(reason) => Err(reason@),
    }
}

/// `u` is finite, and what its files refer to is in it.
pub open spec fn is_closed(g: Graph, u: Set<Seq<char>>) -> bool {
    &&& u.finite()
    &&& forall|k: Seq<char>, i: int|
        u.contains(k) && g(k) is Ok && 0 <= i < g(k)->Ok_0.len() ==> u.contains(
            #[trigger] g(k)->Ok_0[i],
        )
}

/// Visit `key` where `visited` have been visited before and `open` are the files on the way
/// to it. The result comes with the files visited afterwards. `u` bounds what can come up.
pub open spec fn walk_key(
    g: Graph,
    u: Set<Seq<char>>,
    key: Seq<char>,
    visited: Set<Seq<char>>,
    open: Set<Seq<char>>,
) -> (Result<(), WalkErrorView>, Set<Seq<char>>)
    decreases u.difference(visited).len(), 0nat,
{
    if open.contains(key) {
        (Err(WalkErrorView::Cycle(key)), visited)
    } else if visited.contains(key) || !u.contains(key) || !u.finite() {
        (Ok(()), visited)
    } else {
        match g(key) {
            Err(reason) => (Err(WalkErrorView::LoadFailed { key, reason }), visited.insert(key)),
            Ok(keys) => {
                proof {
                    assert(u.difference(visited.insert(key)) =~= u.difference(visited).remove(key));
                }
                walk_keys(g, u, keys, visited.insert(key), open.insert(key))
            },
        }
    }
}

/// Visit `keys` one after the other.
pub open spec fn walk_keys(
    g: Graph,
    u: Set<Seq<char>>,
    keys: Seq<Seq<char>>,
    visited: Set<Seq<char>>,
    open: Set<Seq<char>>,
) -> (Result<(), WalkErrorView>, Set<Seq<char>>)
    decreases u.difference(visited).len(), keys.len() + 1,
{
    if keys.len() == 0 {
        (Ok(()), visited)
    } else {
        let (r, next) = walk_key(g, u, keys[0], visited, open);
        match r {
            Err(e) => (Err(e), next),
            Ok(_) => if u.difference(next).len() <= u.difference(visited).len() {
                walk_keys(g, u, keys.skip(1), next, open)
            } else {
                (Ok(()), next)
            },
        }
    }
}

/// The outcome of a walk from `root`.
pub open spec fn walk_spec(g: Graph, u: Set<Seq<char>>, root: Seq<char>) -> Result<
    (),
    WalkErrorView,
> {
    walk_key(g, u, root, Set::empty(), Set::empty()).0
}

/// A walk forgets nothing that was visited, and visits nothing outside `u`.
proof fn lemma_visited_grows(
    g: Graph,
    u: Set<Seq<char>>,
    key: Seq<char>,
    visited: Set<Seq<char>>,
    open: Set<Seq<char>>,
)
    ensures
        visited.subset_of(walk_key(g, u, key, visited, open).1),
        u.finite() ==> u.difference(walk_key(g, u, key, visited, open).1).len() <= u.difference(
            visited,
        ).len(),
    decreases u.difference(visited).len(), 0nat,
{
    let next = walk_key(g, u, key, visited, open).1;
    if !open.contains(key) && !visited.contains(key) && u.contains(key) && u.finite() {
        match g(key) {
            Err(_) => {},
            Ok(keys) => {
                assert(u.difference(visited.insert(key)) =~= u.difference(visited).remove(key));
                lemma_list_grows(g, u, keys, visited.insert(key), open.insert(key));
            },
        }
    }
    if u.finite() {
        vstd::set_lib::lemma_len_subset(u.difference(next), u.difference(visited));
    }
}

/// The same for a list.
proof fn lemma_list_grows(
    g: Graph,
    u: Set<Seq<char>>,
    keys: Seq<Seq<char>>,
    visited: Set<Seq<char>>,
    open: Set<Seq<char>>,
)
    ensures
        visited.subset_of(walk_keys(g, u, keys, visited, open).1),
    decreases u.difference(visited).len(), keys.len() + 1,
{
    if keys.len() > 0 {
        let (r, next) = walk_key(g, u, keys[0], visited, open);
        lemma_visited_grows(g, u, keys[0], visited, open);
        if r is Ok && u.difference(next).len() <= u.difference(visited).len() {
            lemma_list_grows(g, u, keys.skip(1), next, open);
        }
    }
}

// ---------------------------------------------------------------- the walk, step by step

/// Whether `key` is among `keys`.
fn is_among(keys: &[String], key: &str) -> (r: bool)
    ensures
        r == text::texts(keys@).contains(key@),
{
    let ghost all = text::texts(keys@);
    let mut i: usize = 0;
    while i < keys.len()
        invariant
            i <= keys@.len(),
            all == text::texts(keys@),
            forall|j: int| 0 <= j < i ==> all[j] != key@,
        decreases keys@.len() - i,
    {
        if text_eq(keys[i].as_str(), key) {
            assert(all[i as int] == key@);
            return true;
        }
        i = i + 1;
    }
    false
}

/// One key more at the end of a list is one more in it.
proof fn lemma_push(keys: Seq<Seq<char>>, key: Seq<char>)
    ensures
        forall|k: Seq<char>| #[trigger]
            keys.push(key).contains(k) <==> (keys.contains(k) || k == key),
        keys.push(key).to_set() == keys.to_set().insert(key),
{
    let more = keys.push(key);
    assert forall|k: Seq<char>| #[trigger]
        more.contains(k) <==> (keys.contains(k) || k == key) by {
        if keys.contains(k) {
            assert(more[keys.index_of(k)] == k);
        }
        if k == key {
            assert(more[keys.len() as int] == k);
        }
        if more.contains(k) {
            let i = more.index_of(k);
            if i < keys.len() {
                assert(keys[i] == k);
            }
        }
    }
    assert(more.to_set() =~= keys.to_set().insert(key));
}

/// What one file refers to, and how many of those have been visited.
struct Listing {
    keys: Vec<String>,
    next: usize,
}

impl Listing {
    /// No more have been visited than there are.
    spec fn wf(self) -> bool {
        self.next <= self.keys@.len()
    }

    /// Those that have not been visited, in order.
    spec fn ahead(self) -> Seq<Seq<char>> {
        text::texts(self.keys@).skip(self.next as int)
    }
}

/// A walk in progress. It hands out the files to load one at a time and takes the answers;
/// the caller does the loading.
pub struct IncludeWalk {
    /// The files handed out, in order.
    asked: Vec<String>,
    /// The files on the way to the one that is looked at.
    open: Vec<String>,
    /// What is still to be visited: below each file on the way, and, at the bottom, the root.
    listings: Vec<Listing>,
    /// Whether the last file handed out has not been answered.
    waiting: bool,
    /// How the walk ended.
    end: Option<Result<(), WalkError>>,
}

/// The view of an `IncludeWalk`.
#[verifier::ext_equal]
pub struct IncludeWalkView {
    /// The files handed out, in order.
    pub asked: Seq<Seq<char>>,
    /// The files on the way to the one that is looked at.
    pub open: Seq<Seq<char>>,
    /// What is still to be visited: the root at the bottom, then what each file on the way
    /// refers to.
    pub ahead: Seq<Seq<Seq<char>>>,
    /// Whether the last file handed out has not been answered.
    pub waiting: bool,
    /// How the walk ended.
    pub end: Option<Result<(), WalkErrorView>>,
}

impl View for IncludeWalk {
    type V = IncludeWalkView;

    closed spec fn view(&self) -> IncludeWalkView {
        IncludeWalkView {
            asked: text::texts(self.asked@),
            open: text::texts(self.open@),
            ahead: Seq::new(self.listings@.len(), |i: int| self.listings@[i].ahead()),
            waiting: self.waiting,
            end: match self.end {
                None => None,
                Some(Ok(_)) => Some(Ok(())),
                Some(Err(e)) => Some(Err(e@)),
            },
        }
    }
}

impl IncludeWalkView {
    /// A walk from `root` before its first step.
    pub open spec fn start(root: Seq<char>) -> IncludeWalkView {
        IncludeWalkView {
            asked: Seq::empty(),
            open: Seq::empty(),
            ahead: seq![seq![root]],
            waiting: false,
            end: None,
        }
    }

    /// No file was handed out twice, the files on the way were handed out, and a file that
    /// is waited for was handed out last and is not on the way.
    pub open spec fn wf(self) -> bool {
        &&& self.asked.no_duplicates()
        &&& forall|k: Seq<char>| #[trigger] self.open.contains(k) ==> self.asked.contains(k)
        &&& self.waiting ==> {
            &&& self.end is None
            &&& self.asked.len() > 0
            &&& !self.open.contains(self.asked.last())
        }
        &&& self.end is None ==> {
            ||| self.ahead.len() == self.open.len() + 1
            ||| self.ahead.len() == 0 && self.open.len() == 0 && !self.waiting
        }
    }

    /// The walk once everything that the file entered last refers to has been visited.
    pub open spec fn left(self) -> IncludeWalkView {
        IncludeWalkView {
            open: if self.open.len() == 0 {
                self.open
            } else {
                self.open.drop_last()
            },
            ahead: self.ahead.drop_last(),
            ..self
        }
    }

    /// The walk past the first of the files ahead.
    pub open spec fn passed(self) -> IncludeWalkView {
        IncludeWalkView {
            ahead: self.ahead.drop_last().push(self.ahead.last().skip(1)),
            ..self
        }
    }

    /// The walk up to the next file to load, or to its end. Files handed out before are
    /// passed over; a file on the way is a cycle.
    pub open spec fn resumed(self) -> IncludeWalkView
        decreases self.ahead.len(), self.ahead.last().len(),
    {
        let top = self.ahead.last();
        if self.waiting || self.end is Some {
            self
        } else if self.ahead.len() == 0 {
            IncludeWalkView { end: Some(Ok(())), ..self }
        } else if top.len() == 0 {
            self.left().resumed()
        } else if self.open.contains(top[0]) {
            IncludeWalkView { end: Some(Err(WalkErrorView::Cycle(top[0]))), ..self }
        } else {
            let on = self.passed();
            if self.asked.contains(top[0]) {
                on.resumed()
            } else {
                IncludeWalkView { asked: self.asked.push(top[0]), waiting: true, ..on }
            }
        }
    }

    /// The walk once the file that was handed out has been answered. A file that cannot be
    /// loaded ends it.
    pub open spec fn answered(
        self,
        answer: Result<Seq<Seq<char>>, Seq<char>>,
    ) -> IncludeWalkView {
        if !self.waiting {
            self
        } else {
            match answer {
                Ok(keys) => IncludeWalkView {
                    open: self.open.push(self.asked.last()),
                    ahead: self.ahead.push(keys),
                    waiting: false,
                    ..self
                },
                Err(reason) => IncludeWalkView {
                    waiting: false,
                    end: Some(
                        Err(WalkErrorView::LoadFailed { key: self.asked.last(), reason }),
                    ),
                    ..self
                },
            }
        }
    }
}

/// Leaving the file that was entered last.
proof fn lemma_wf_leave(s: IncludeWalkView)
    requires
        s.wf(),
        !s.waiting,
        s.end is None,
        s.ahead.len() > 0,
    ensures
        s.left().wf(),
{
    let open = s.left().open;
    assert forall|k: Seq<char>| #[trigger] open.contains(k) implies s.asked.contains(k) by {
        let i = open.index_of(k);
        assert(s.open[i] == k);
        assert(s.open.contains(k));
    }
}

/// Handing out a file.
proof fn lemma_wf_ask(s: IncludeWalkView, key: Seq<char>)
    requires
        s.wf(),
        !s.waiting,
        s.end is None,
        s.ahead.len() > 0,
        !s.asked.contains(key),
    ensures
        (IncludeWalkView { asked: s.asked.push(key), waiting: true, ..s }).wf(),
{
    lemma_push(s.asked, key);
    let more = s.asked.push(key);
    assert forall|i: int, j: int| 0 <= i < more.len() && 0 <= j < more.len() && i != j implies more[i]
        != more[j] by {
        if i < s.asked.len() {
            assert(s.asked.contains(s.asked[i]));
        }
        if j < s.asked.len() {
            assert(s.asked.contains(s.asked[j]));
        }
    }
}

/// The steps of a walk keep it in order: in particular, no file is ever handed out twice.
pub proof fn law_steps_keep_order(
    s: IncludeWalkView,
    answer: Result<Seq<Seq<char>>, Seq<char>>,
)
    requires
        s.wf(),
    ensures
        s.resumed().wf(),
        s.answered(answer).wf(),
    decreases s.ahead.len(), s.ahead.last().len(),
{
    if s.waiting {
        lemma_push(s.open, s.asked.last());
    } else if s.end is None && s.ahead.len() > 0 {
        let top = s.ahead.last();
        if top.len() == 0 {
            lemma_wf_leave(s);
            law_steps_keep_order(s.left(), answer);
        } else if !s.open.contains(top[0]) {
            let on = s.passed();
            if s.asked.contains(top[0]) {
                law_steps_keep_order(on, answer);
            } else {
                lemma_wf_ask(on, top[0]);
            }
        }
    }
}

impl IncludeWalk {
    /// Every listing is in order.
    pub closed spec fn listings_wf(self) -> bool {
        forall|i: int| 0 <= i < self.listings@.len() ==> (#[trigger] self.listings@[i]).wf()
    }

    /// The walk is one that its steps can lead to.
    pub open spec fn wf(self) -> bool {
        self@.wf() && self.listings_wf()
    }

    /// The files that were handed out.
    pub open spec fn handed_out(self) -> Set<Seq<char>> {
        self@.asked.to_set()
    }

    /// A walk from `root`.
    pub fn new(root: &str) -> (r: Self)
        ensures
            r.wf(),
            r@ == IncludeWalkView::start(root@),
    {
        let mut keys: Vec<String> = Vec::new();
        keys.push(root.to_owned());
        let mut listings: Vec<Listing> = Vec::new();
        listings.push(Listing { keys, next: 0 });
        let r = IncludeWalk {
            asked: Vec::new(),
            open: Vec::new(),
            listings,
            waiting: false,
            end: None,
        };
        assert(r@.ahead[0] =~= seq![root@]);
        assert(r@ =~= IncludeWalkView::start(root@));
        r
    }

    /// Hand out the next file to load, one that was never handed out before. There is none
    /// once the walk has ended, or while a file is still to be answered.
    pub fn next_key(&mut self) -> (r: Option<String>)
        requires
            old(self).wf(),
        ensures
            final(self).wf(),
            final(self)@ == old(self)@.resumed(),
            r is Some <==> !old(self)@.waiting && final(self)@.waiting,
            r matches Some(k) ==> {
                &&& !old(self).handed_out().contains(k@)
                &&& final(self).handed_out() == old(self).handed_out().insert(k@)
                &&& final(self)@.asked == old(self)@.asked.push(k@)
            },
            r is None ==> {
                &&& final(self)@.asked == old(self)@.asked
                &&& old(self)@.waiting || final(self)@.end is Some
            },
    {
        if self.waiting || self.end.is_some() {
            return None;
        }
        loop
            invariant
                self.wf(),
                !self.waiting,
                self.end is None,
                self@.resumed() == old(self)@.resumed(),
                self@.asked == old(self)@.asked,
                !old(self)@.waiting,
            decreases self@.ahead.len(), self@.ahead.last().len(),
        {
            let ghost before = self@;
            let mut listing = match self.listings.pop() {
                Some(listing) => listing,
                None => {
                    self.end = Some(Ok(()));
                    return None;
                },
            };
            assert(self@.ahead =~= before.ahead.drop_last());
            assert(before.ahead.last() == listing.ahead());
            if listing.next == listing.keys.len() {
                self.open.pop();
                assert(self@ =~= before.left());
                proof {
                    lemma_wf_leave(before);
                }
            } else {
                let key: String = listing.keys[listing.next].as_str().to_owned();
                assert(before.ahead.last()[0] == key@);
                if is_among(self.open.as_slice(), key.as_str()) {
                    self.listings.push(listing);
                    self.end = Some(Err(WalkError::Cycle(key)));
                    assert(self@.ahead =~= before.ahead);
                    return None;
                }
                listing.next = listing.next + 1;
                self.listings.push(listing);
                assert(listing.ahead() =~= before.ahead.last().skip(1));
                assert(self@ =~= before.passed());
                if !is_among(self.asked.as_slice(), key.as_str()) {
                    self.asked.push(key.as_str().to_owned());
                    self.waiting = true;
                    proof {
                        assert(self@.asked =~= before.asked.push(key@));
                        lemma_push(before.asked, key@);
                        lemma_wf_ask(before.passed(), key@);
                    }
                    return Some(key);
                }
            }
        }
    }

    /// Take the answer for the file that was handed out: what it refers to, or why it cannot
    /// be loaded. Without such a file nothing changes.
    pub fn answer(&mut self, answer: Result<Vec<String>, String>)
        requires
            old(self).wf(),
        ensures
            final(self).wf(),
            final(self)@ == old(self)@.answered(loaded(answer)),
            final(self)@.asked == old(self)@.asked,
            !final(self)@.waiting,
    {
        let ghost before = self@;
        proof {
            law_steps_keep_order(before, loaded(answer));
        }
        if !self.waiting || self.asked.len() == 0 {
            return;
        }
        let key: String = self.asked[self.asked.len() - 1].as_str().to_owned();
        self.waiting = false;
        match answer {
            Ok(keys) => {
                let listing = Listing { keys, next: 0 };
                assert(listing.ahead() =~= text::texts(keys@));
                self.listings.push(listing);
                self.open.push(key);
            },
            Err(reason) => {
                self.end = Some(Err(WalkError::LoadFailed { key, reason }));
            },
        }
        assert(self@ =~= before.answered(loaded(answer)));
    }

    /// The files that were handed out, in order, and how the walk ended if it did.
    pub fn finish(self) -> (r: (Vec<String>, Option<Result<(), WalkError>>))
        ensures
            text::texts(r.0@) == self@.asked,
            match r.1 {
                None => self@.end is None,
                Some(Ok(_)) => self@.end == Some(Ok::<(), WalkErrorView>(())),
                Some(Err(e)) => self@.end == Some(Err::<(), WalkErrorView>(e@)),
            },
    {
        (self.asked, self.end)
    }
}

/// What comes of the files ahead, from the file entered last down to the root, where
/// `visited` have been visited before.
pub open spec fn unwound(
    g: Graph,
    u: Set<Seq<char>>,
    open: Seq<Seq<char>>,
    ahead: Seq<Seq<Seq<char>>>,
    visited: Set<Seq<char>>,
) -> (Result<(), WalkErrorView>, Set<Seq<char>>)
    decreases ahead.len(),
{
    if ahead.len() == 0 {
        (Ok(()), visited)
    } else {
        let (r, next) = walk_keys(g, u, ahead.last(), visited, open.to_set());
        match r {
            Err(e) => (Err(e), next),
            Ok(_) => unwound(
                g,
                u,
                if open.len() == 0 {
                    open
                } else {
                    open.drop_last()
                },
                ahead.drop_last(),
                next,
            ),
        }
    }
}

impl IncludeWalkView {
    /// How the walk ends, and which files have been handed out by then, where every file that
    /// is yet to be answered is answered as `g` says.
    pub open spec fn rest(self, g: Graph, u: Set<Seq<char>>) -> (
        Result<(), WalkErrorView>,
        Set<Seq<char>>,
    ) {
        let s = self.answered(g(self.asked.last()));
        match s.end {
            Some(end) => (end, s.asked.to_set()),
            None => unwound(g, u, s.open, s.ahead, s.asked.to_set()),
        }
    }

    /// Everything ahead, and every file handed out, is in `u`.
    pub open spec fn within(self, u: Set<Seq<char>>) -> bool {
        &&& forall|i: int, j: int|
            0 <= i < self.ahead.len() && 0 <= j < self.ahead[i].len() ==> u.contains(
                #[trigger] self.ahead[i][j],
            )
        &&& forall|i: int| 0 <= i < self.asked.len() ==> u.contains(#[trigger] self.asked[i])
    }
}

/// The steps of a walk lead where the walk leads: to hand out the next file changes nothing
/// about how the walk ends, nor about what it visits.
pub proof fn law_next_key_follows_the_walk(g: Graph, u: Set<Seq<char>>, s: IncludeWalkView)
    requires
        s.wf(),
        is_closed(g, u),
        s.within(u),
    ensures
        s.resumed().rest(g, u) == s.rest(g, u),
        s.resumed().within(u),
    decreases s.ahead.len(), s.ahead.last().len(),
{
    if !s.waiting && s.end is None && s.ahead.len() > 0 {
        let top = s.ahead.last();
        if top.len() == 0 {
            lemma_wf_leave(s);
            law_next_key_follows_the_walk(g, u, s.left());
        } else if s.open.contains(top[0]) {
            assert(s.open.to_set().contains(top[0]));
            let cycle = Err::<(), WalkErrorView>(WalkErrorView::Cycle(top[0]));
            assert(walk_key(g, u, top[0], s.asked.to_set(), s.open.to_set()) == (
                cycle,
                s.asked.to_set(),
            ));
            assert(walk_keys(g, u, top, s.asked.to_set(), s.open.to_set()) == (
                cycle,
                s.asked.to_set(),
            ));
        } else {
            let k = top[0];
            let on = s.passed();
            let visited = s.asked.to_set();
            assert(u.contains(s.ahead[s.ahead.len() - 1][0]));
            assert(on.within(u)) by {
                assert forall|i: int, j: int|
                    0 <= i < on.ahead.len() && 0 <= j < on.ahead[i].len() implies u.contains(
                    #[trigger] on.ahead[i][j],
                ) by {
                    if i < s.ahead.len() - 1 {
                        assert(on.ahead[i][j] == s.ahead[i][j]);
                    } else {
                        assert(on.ahead[i][j] == s.ahead[i][j + 1]);
                    }
                }
            }
            assert(on.ahead.drop_last() =~= s.ahead.drop_last());
            lemma_visited_grows(g, u, k, visited, s.open.to_set());
            if s.asked.contains(k) {
                law_next_key_follows_the_walk(g, u, on);
            } else {
                lemma_push(s.asked, k);
                lemma_push(s.open, k);
                if let Ok(keys) = g(k) {
                    let t = s.resumed().answered(g(k));
                    assert(t.open.drop_last() =~= s.open);
                    assert(t.ahead.drop_last() =~= on.ahead);
                    let (r, next) = walk_keys(
                        g,
                        u,
                        keys,
                        visited.insert(k),
                        s.open.to_set().insert(k),
                    );
                    if r is Ok {
                        assert(t.rest(g, u) == unwound(g, u, s.open, on.ahead, next));
                        assert(s.rest(g, u) == unwound(g, u, s.open, on.ahead, next));
                    }
                }
            }
        }
    }
}

/// To take the answer that `g` gives changes nothing about how the walk ends, nor about what
/// it visits.
pub proof fn law_answer_follows_the_walk(g: Graph, u: Set<Seq<char>>, s: IncludeWalkView)
    requires
        s.wf(),
        is_closed(g, u),
        s.within(u),
    ensures
        s.answered(g(s.asked.last())).rest(g, u) == s.rest(g, u),
        s.answered(g(s.asked.last())).within(u),
{
    if s.waiting {
        let key = s.asked.last();
        assert(u.contains(s.asked[s.asked.len() - 1]));
        if let Ok(keys) = g(key) {
            assert forall|i: int| 0 <= i < keys.len() implies u.contains(#[trigger] keys[i]) by {
                assert(g(key)->Ok_0[i] == keys[i]);
            }
            lemma_answer_within(s, keys, u);
        }
    }
}

/// A walk from `root`, before its first step, leads where the walk from `root` leads.
pub proof fn law_start_follows_the_walk(g: Graph, u: Set<Seq<char>>, root: Seq<char>)
    requires
        is_closed(g, u),
        u.contains(root),
    ensures
        IncludeWalkView::start(root).rest(g, u) == walk_key(
            g,
            u,
            root,
            Set::empty(),
            Set::empty(),
        ),
        IncludeWalkView::start(root).within(u),
{
    let s = IncludeWalkView::start(root);
    let none = Set::<Seq<char>>::empty();
    let list = seq![root];
    assert(s.asked.to_set() =~= none);
    assert(s.open.to_set() =~= none);
    assert(s.ahead.last() =~= list);
    lemma_visited_grows(g, u, root, none, none);
    let (r, next) = walk_key(g, u, root, none, none);
    assert(list.skip(1).len() == 0);
    if r is Ok {
        assert(walk_keys(g, u, list, none, none) == walk_keys(g, u, list.skip(1), next, none));
        assert(walk_keys(g, u, list.skip(1), next, none) == (Ok::<(), WalkErrorView>(()), next));
        assert(s.ahead.drop_last().len() == 0);
        assert(s.rest(g, u) == unwound(g, u, s.open, s.ahead.drop_last(), next));
        assert(unwound(g, u, s.open, s.ahead.drop_last(), next) == (
            Ok::<(), WalkErrorView>(()),
            next,
        ));
        assert(r->Ok_0 == ());
    } else {
        assert(walk_keys(g, u, list, none, none) == (r, next));
    }
}

/// An answer within `u` keeps the walk within it.
proof fn lemma_answer_within(s: IncludeWalkView, keys: Seq<Seq<char>>, u: Set<Seq<char>>)
    requires
        s.within(u),
        forall|i: int| 0 <= i < keys.len() ==> u.contains(#[trigger] keys[i]),
    ensures
        s.answered(Ok(keys)).within(u),
{
    let t = s.answered(Ok(keys));
    assert forall|i: int, j: int|
        0 <= i < t.ahead.len() && 0 <= j < t.ahead[i].len() implies u.contains(
        #[trigger] t.ahead[i][j],
    ) by {
        if i < s.ahead.len() {
            assert(t.ahead[i][j] == s.ahead[i][j]);
        } else {
            assert(t.ahead[i][j] == keys[j]);
        }
    }
}

/// `u` is finite and holds `root`, the loader can be called on the files in it, and whatever
/// it answers for them refers to files in it.
pub open spec fn bounded<F: FnMut(&str) -> Result<Vec<String>, String>>(
    load: F,
    u: Set<Seq<char>>,
    root: Seq<char>,
) -> bool {
    &&& u.finite()
    &&& u.contains(root)
    &&& forall|k: &str| u.contains(k@) ==> #[trigger] call_requires(load, (k,))
    &&& forall|k: &str, r: Result<Vec<String>, String>|
        u.contains(k@) && #[trigger] call_ensures(load, (k,), r) ==> refers_within(loaded(r), u)
}

/// Every file that an answer refers to is in `u`.
pub open spec fn refers_within(
    answer: Result<Seq<Seq<char>>, Seq<char>>,
    u: Set<Seq<char>>,
) -> bool {
    answer matches Ok(keys) ==> forall|i: int|
        0 <= i < keys.len() ==> u.contains(#[trigger] keys[i])
}

/// The loader can answer `answer` for the file `key`.
pub open spec fn can_answer<F: FnMut(&str) -> Result<Vec<String>, String>>(
    load: F,
    key: Seq<char>,
    answer: Result<Seq<Seq<char>>, Seq<char>>,
) -> bool {
    exists|k: &str, r: Result<Vec<String>, String>|
        k@ == key && loaded(r) == answer && #[trigger] call_ensures(load, (k,), r)
}

/// Each of `answers` is one that the loader can give for the file of `keys` at its place.
pub open spec fn answered_by<F: FnMut(&str) -> Result<Vec<String>, String>>(
    load: F,
    keys: Seq<Seq<char>>,
    answers: Seq<Result<Seq<Seq<char>>, Seq<char>>>,
) -> bool {
    &&& keys.len() == answers.len()
    &&& forall|i: int|
        0 <= i < keys.len() ==> can_answer(load, #[trigger] keys[i], #[trigger] answers[i])
}

/// `g` says of each of `keys` what the answer at its place says.
pub open spec fn agrees(
    g: Graph,
    keys: Seq<Seq<char>>,
    answers: Seq<Result<Seq<Seq<char>>, Seq<char>>>,
) -> bool {
    forall|i: int| 0 <= i < keys.len() ==> g(#[trigger] keys[i]) == #[trigger] answers[i]
}

/// The walk from `root` once its files have been answered, one after the other, with
/// `answers`.
pub open spec fn walk_after(
    root: Seq<char>,
    answers: Seq<Result<Seq<Seq<char>>, Seq<char>>>,
) -> IncludeWalkView
    decreases answers.len(),
{
    if answers.len() == 0 {
        IncludeWalkView::start(root).resumed()
    } else {
        walk_after(root, answers.drop_last()).answered(answers.last()).resumed()
    }
}

/// A walk from `root` that ended with `end` once `keys` had been loaded, each of them once and
/// in this order, with `answers`: that is where the steps lead, and where the walk from
/// `root` leads over everything that agrees with the answers. `keys` are the files that it
/// visits.
pub open spec fn is_walk(
    root: Seq<char>,
    keys: Seq<Seq<char>>,
    answers: Seq<Result<Seq<Seq<char>>, Seq<char>>>,
    end: Result<(), WalkErrorView>,
) -> bool {
    &&& keys.no_duplicates()
    &&& keys.len() == answers.len()
    &&& walk_after(root, answers).asked == keys
    &&& walk_after(root, answers).end == Some(end)
    &&& forall|g: Graph, u: Set<Seq<char>>|
        agrees(g, keys, answers) && #[trigger] is_closed(g, u) && u.contains(root) ==> walk_key(
            g,
            u,
            root,
            Set::empty(),
            Set::empty(),
        ) == (end, keys.to_set())
}

/// A walk from `root` that ended with `end` once `keys` had been loaded, in this order, with
/// answers that the loader can give.
pub open spec fn walks<F: FnMut(&str) -> Result<Vec<String>, String>>(
    load: F,
    root: Seq<char>,
    keys: Seq<Seq<char>>,
    end: Result<(), WalkErrorView>,
) -> bool {
    exists|answers: Seq<Result<Seq<Seq<char>>, Seq<char>>>| #[trigger]
        answered_by(load, keys, answers) && is_walk(root, keys, answers, end)
}

/// The view of an outcome.
pub open spec fn outcome(r: Result<(), WalkError>) -> Result<(), WalkErrorView> {
    match r {
        Ok(_) => Ok(()),
        Err(e) => Err(e@),
    }
}

/// The walk `s` from `root` is on its way to where the walk over `g` leads.
spec fn on_course(g: Graph, u: Set<Seq<char>>, root: Seq<char>, s: IncludeWalkView) -> bool {
    &&& s.within(u)
    &&& s.rest(g, u) == walk_key(g, u, root, Set::empty(), Set::empty())
}

/// Visit `root` and every file that it refers to, directly or through others. `load` tells
/// what a file refers to, and is asked once for each. The walk ends at the first file that
/// cannot be loaded and at the first that refers back to one on the way to it. The files that
/// were loaded come back, in order, with the outcome.
pub fn load_includes<F: FnMut(&str) -> Result<Vec<String>, String>>(root: &str, load: F) -> (r: (
    Vec<String>,
    Result<(), WalkError>,
))
    requires
        exists|u: Set<Seq<char>>| #[trigger] bounded(load, u, root@),
    ensures
        walks(load, root@, text::texts(r.0@), outcome(r.1)),
{
    let mut loader = load;
    let ghost u = choose|u: Set<Seq<char>>| #[trigger] bounded(load, u, root@);
    let ghost nothing: Graph = |k: Seq<char>| Ok(Seq::empty());
    let ghost mut answers: Seq<Result<Seq<Seq<char>>, Seq<char>>> = Seq::empty();
    let mut walk = IncludeWalk::new(root);
    proof {
        assert(is_closed(nothing, u));
        law_start_follows_the_walk(nothing, u, root@);
        assert forall|g: Graph, w: Set<Seq<char>>| #[trigger]
            is_closed(g, w) && w.contains(root@) implies on_course(g, w, root@, walk@) by {
            law_start_follows_the_walk(g, w, root@);
        }
    }
    loop
        invariant
            walk.wf(),
            loader == load,
            bounded(load, u, root@),
            is_closed(nothing, u),
            walk@.within(u),
            answered_by(load, walk@.asked, answers),
            forall|g: Graph, w: Set<Seq<char>>|
                agrees(g, walk@.asked, answers) && #[trigger] is_closed(g, w) && w.contains(root@)
                    ==> on_course(g, w, root@, walk@),
            !walk@.waiting,
            walk@.resumed() == walk_after(root@, answers),
        ensures
            walk@.end is Some,
        decreases u.difference(walk.handed_out()).len(),
    {
        let ghost before = walk@;
        let next = walk.next_key();
        let ghost asked = walk@;
        proof {
            law_next_key_follows_the_walk(nothing, u, before);
            assert forall|g: Graph, w: Set<Seq<char>>|
                agrees(g, before.asked, answers) && #[trigger] is_closed(g, w) && w.contains(
                    root@,
                ) implies on_course(g, w, root@, asked) by {
                assert(on_course(g, w, root@, before));
                law_next_key_follows_the_walk(g, w, before);
            }
        }
        let key: String = match next {
            Some(key) => key,
            None => {
                break;
            },
        };
        assert(asked.asked[before.asked.len() as int] == key@);
        let answer = loader(key.as_str());
        let ghost given_answer = loaded(answer);
        let ghost earlier = answers;
        proof {
            assert(can_answer(load, key@, given_answer));
            answers = answers.push(given_answer);
            assert(answers.drop_last() =~= earlier);
            assert(refers_within(given_answer, u));
            if let Ok(keys) = given_answer {
                lemma_answer_within(asked, keys, u);
            }
            assert forall|g: Graph, w: Set<Seq<char>>|
                agrees(g, asked.asked, answers) && #[trigger] is_closed(g, w) && w.contains(
                    root@,
                ) implies on_course(g, w, root@, asked.answered(given_answer)) by {
                assert(agrees(g, before.asked, earlier)) by {
                    assert forall|i: int| 0 <= i < before.asked.len() implies g(
                        #[trigger] before.asked[i],
                    ) == #[trigger] earlier[i] by {
                        assert(asked.asked[i] == before.asked[i]);
                        assert(answers[i] == earlier[i]);
                    }
                }
                let n = before.asked.len() as int;
                assert(g(asked.asked[n]) == answers[n]);
                law_answer_follows_the_walk(g, w, asked);
            }
            assert(answered_by(load, asked.asked, answers)) by {
                assert forall|i: int| 0 <= i < asked.asked.len() implies can_answer(
                    load,
                    #[trigger] asked.asked[i],
                    #[trigger] answers[i],
                ) by {
                    if i < before.asked.len() {
                        assert(asked.asked[i] == before.asked[i]);
                        assert(answers[i] == earlier[i]);
                    }
                }
            }
            let unseen = u.difference(before.asked.to_set());
            assert(unseen.contains(key@));
            assert(u.difference(asked.asked.to_set()) =~= unseen.remove(key@));
        }
        walk.answer(answer);
    }
    let ghost last = walk@;
    let (keys, end) = walk.finish();
    let ended: Result<(), WalkError> = match end {
        Some(end) => end,
        None => Ok(()),
    };
    proof {
        assert forall|g: Graph, w: Set<Seq<char>>|
            agrees(g, last.asked, answers) && #[trigger] is_closed(g, w) && w.contains(
                root@,
            ) implies walk_key(g, w, root@, Set::empty(), Set::empty()) == (
            outcome(ended),
            last.asked.to_set(),
        ) by {
            assert(on_course(g, w, root@, last));
        }
        assert(answered_by(load, text::texts(keys@), answers));
        assert(is_walk(root@, text::texts(keys@), answers, outcome(ended)));
        assert(walks(load, root@, text::texts(keys@), outcome(ended)));
    }
    (keys, ended)
}

/// Visit `root` and every file that it refers to, directly or through others, each once.
/// `load` tells what a file refers to; only finitely many files may come up. The walk ends at
/// the first file that cannot be loaded and at the first that refers back to one on the way
/// to it.
pub fn walk_includes<F: FnMut(&str) -> Result<Vec<String>, String>>(root: &str, load: F) -> (r:
    Result<(), WalkError>)
    requires
        exists|u: Set<Seq<char>>| #[trigger] bounded(load, u, root@),
    ensures
        exists|keys: Seq<Seq<char>>| #[trigger] walks(load, root@, keys, outcome(r)),
{
    load_includes(root, load).1
}

// ---------------------------------------------------------------- what a walk finds out

/// The file `a` refers to the file `b`.
pub open spec fn refers(g: Graph, a: Seq<char>, b: Seq<char>) -> bool {
    g(a) is Ok && g(a)->Ok_0.contains(b)
}

/// The file `b` is reached from the file `a` in `n` steps.
pub open spec fn reaches(g: Graph, a: Seq<char>, b: Seq<char>, n: nat) -> bool
    decreases n,
{
    if n == 0 {
        a == b
    } else {
        exists|c: Seq<char>| #[trigger] refers(g, a, c) && reaches(g, c, b, (n - 1) as nat)
    }
}

/// The file `b` is reached from the file `a`.
pub open spec fn reachable(g: Graph, a: Seq<char>, b: Seq<char>) -> bool {
    exists|n: nat| reaches(g, a, b, n)
}

/// The file refers to itself, directly or through others.
pub open spec fn on_cycle(g: Graph, a: Seq<char>) -> bool {
    exists|n: nat| n > 0 && reaches(g, a, a, n)
}

/// Every file in `order` can be loaded and comes after the files that it refers to.
pub open spec fn is_load_order(g: Graph, order: Seq<Seq<char>>) -> bool {
    forall|i: int|
        0 <= i < order.len() ==> g(#[trigger] order[i]) is Ok && forall|c: Seq<char>| #[trigger]
            refers(g, order[i], c) ==> order.take(i).contains(c)
}

/// One step more at the end.
proof fn lemma_step_more(g: Graph, a: Seq<char>, b: Seq<char>, c: Seq<char>, n: nat)
    requires
        reaches(g, a, b, n),
        refers(g, b, c),
    ensures
        reaches(g, a, c, n + 1),
    decreases n,
{
    if n == 0 {
        assert(reaches(g, c, c, 0));
    } else {
        let d = choose|d: Seq<char>| #[trigger]
            refers(g, a, d) && reaches(g, d, b, (n - 1) as nat);
        lemma_step_more(g, d, b, c, (n - 1) as nat);
    }
}

/// `b` is reached from `a` in one step or more.
spec fn leads_to(g: Graph, a: Seq<char>, b: Seq<char>) -> bool {
    exists|n: nat| n > 0 && reaches(g, a, b, n)
}

/// The error of a walk, as seen from `root`: a cycle, or a file that cannot be loaded.
pub open spec fn is_real(g: Graph, root: Seq<char>, e: WalkErrorView) -> bool {
    match e {
        WalkErrorView::Cycle(k) => reachable(g, root, k) && on_cycle(g, k),
        WalkErrorView::LoadFailed { key, reason } => reachable(g, root, key) && g(key) == Err::<
            Seq<Seq<char>>,
            _,
        >(reason),
    }
}

/// The errors below `key` are real, where `key` is reached from `root` and from each file
/// on the way.
proof fn lemma_error_is_real(
    g: Graph,
    u: Set<Seq<char>>,
    root: Seq<char>,
    key: Seq<char>,
    visited: Set<Seq<char>>,
    open: Set<Seq<char>>,
)
    requires
        reachable(g, root, key),
        forall|q: Seq<char>| #[trigger] open.contains(q) ==> leads_to(g, q, key),
    ensures
        walk_key(g, u, key, visited, open).0 matches Err(e) ==> is_real(g, root, e),
    decreases u.difference(visited).len(), 0nat,
{
    if !open.contains(key) && !visited.contains(key) && u.contains(key) && u.finite() {
        match g(key) {
            Err(_) => {},
            Ok(keys) => {
                assert(u.difference(visited.insert(key)) =~= u.difference(visited).remove(key));
                lemma_list_errors(
                    g,
                    u,
                    root,
                    key,
                    keys,
                    visited.insert(key),
                    open.insert(key),
                );
            },
        }
    }
}

/// The same for files that `from` refers to.
proof fn lemma_list_errors(
    g: Graph,
    u: Set<Seq<char>>,
    root: Seq<char>,
    from: Seq<char>,
    keys: Seq<Seq<char>>,
    visited: Set<Seq<char>>,
    open: Set<Seq<char>>,
)
    requires
        reachable(g, root, from),
        forall|i: int| 0 <= i < keys.len() ==> refers(g, from, #[trigger] keys[i]),
        forall|q: Seq<char>| #[trigger] open.contains(q) ==> q == from || leads_to(g, q, from),
    ensures
        walk_keys(g, u, keys, visited, open).0 matches Err(e) ==> is_real(g, root, e),
    decreases u.difference(visited).len(), keys.len() + 1,
{
    if keys.len() > 0 {
        let key = keys[0];
        assert(refers(g, from, key));
        let n = choose|n: nat| reaches(g, root, from, n);
        lemma_step_more(g, root, from, key, n);
        assert forall|q: Seq<char>| #[trigger] open.contains(q) implies leads_to(g, q, key) by {
            if q == from {
                assert(reaches(g, from, from, 0));
                lemma_step_more(g, from, from, key, 0);
            } else {
                let m = choose|m: nat| m > 0 && reaches(g, q, from, m);
                lemma_step_more(g, q, from, key, m);
            }
        }
        lemma_error_is_real(g, u, root, key, visited, open);
        let (r, next) = walk_key(g, u, key, visited, open);
        if r is Ok && u.difference(next).len() <= u.difference(visited).len() {
            lemma_list_errors(g, u, root, from, keys.skip(1), next, open);
        }
    }
}

/// Every error that a walk reports is real: the file is reached from `root` and refers to
/// itself, or it is reached and cannot be loaded.
pub proof fn law_walk_error_is_real(g: Graph, u: Set<Seq<char>>, root: Seq<char>)
    ensures
        walk_spec(g, u, root) matches Err(e) ==> is_real(g, root, e),
{
    assert(reaches(g, root, root, 0));
    lemma_error_is_real(g, u, root, root, Set::empty(), Set::empty());
}

/// In a load order, what is reached from a file in `n` steps comes `n` places before it at
/// least.
proof fn lemma_order_descends(g: Graph, order: Seq<Seq<char>>, i: int, b: Seq<char>, n: nat)
    requires
        is_load_order(g, order),
        0 <= i < order.len(),
        reaches(g, order[i], b, n),
    ensures
        exists|j: int| 0 <= j <= i - n && #[trigger] order[j] == b,
    decreases n,
{
    if n > 0 {
        let c = choose|c: Seq<char>| #[trigger]
            refers(g, order[i], c) && reaches(g, c, b, (n - 1) as nat);
        assert(g(order[i]) is Ok);
        assert(order.take(i).contains(c));
        let k = order.take(i).index_of(c);
        assert(order[k] == c);
        lemma_order_descends(g, order, k, b, (n - 1) as nat);
        let j = choose|j: int| 0 <= j <= k - (n - 1) && #[trigger] order[j] == b;
        assert(order[j] == b);
    } else {
        assert(order[i] == b);
    }
}

/// The first occurrence of a file in a load order; there it does not refer to itself.
proof fn lemma_no_cycle_in_order(g: Graph, order: Seq<Seq<char>>, k: Seq<char>)
    requires
        is_load_order(g, order),
        order.contains(k),
    ensures
        !on_cycle(g, k),
{
    if on_cycle(g, k) {
        let i = order.index_of_first(k).unwrap();
        order.index_of_first_ensures(k);
        let n = choose|n: nat| n > 0 && reaches(g, k, k, n);
        lemma_order_descends(g, order, i, k, n);
        let j = choose|j: int| 0 <= j <= i - n && #[trigger] order[j] == k;
        assert(order[j] == k && j < i);
    }
}

/// `order` is a load order of exactly the visited files that are not on the way.
spec fn covers(
    g: Graph,
    order: Seq<Seq<char>>,
    visited: Set<Seq<char>>,
    open: Set<Seq<char>>,
) -> bool {
    &&& is_load_order(g, order)
    &&& forall|k: Seq<char>| #[trigger]
        order.contains(k) <==> visited.contains(k) && !open.contains(k)
}

/// One file more at the end of a load order.
proof fn lemma_order_push(g: Graph, order: Seq<Seq<char>>, key: Seq<char>)
    requires
        is_load_order(g, order),
        g(key) is Ok,
        forall|c: Seq<char>| #[trigger] refers(g, key, c) ==> order.contains(c),
    ensures
        is_load_order(g, order.push(key)),
{
    let out = order.push(key);
    assert forall|i: int| 0 <= i < out.len() implies g(#[trigger] out[i]) is Ok && forall|
        c: Seq<char>,
    | #[trigger]
        refers(g, out[i], c) ==> out.take(i).contains(c) by {
        if i < order.len() {
            assert(out[i] == order[i]);
            assert(out.take(i) =~= order.take(i));
        } else {
            assert(out.take(i) =~= order);
        }
    }
}

/// A walk that succeeds leaves a load order of what it has finished.
proof fn lemma_walk_orders(
    g: Graph,
    u: Set<Seq<char>>,
    key: Seq<char>,
    visited: Set<Seq<char>>,
    open: Set<Seq<char>>,
    order: Seq<Seq<char>>,
) -> (out: Seq<Seq<char>>)
    requires
        is_closed(g, u),
        u.contains(key),
        open.subset_of(visited),
        covers(g, order, visited, open),
        walk_key(g, u, key, visited, open).0 is Ok,
    ensures
        covers(g, out, walk_key(g, u, key, visited, open).1, open),
        out.contains(key),
    decreases u.difference(visited).len(), 0nat,
{
    if visited.contains(key) {
        order
    } else {
        let keys = g(key)->Ok_0;
        let seen = visited.insert(key);
        let path = open.insert(key);
        assert(u.difference(seen) =~= u.difference(visited).remove(key));
        assert(covers(g, order, seen, path));
        assert forall|i: int| 0 <= i < keys.len() implies u.contains(#[trigger] keys[i]) by {
            assert(g(key)->Ok_0[i] == keys[i]);
        }
        let below = lemma_list_orders(g, u, keys, seen, path, order);
        let next = walk_keys(g, u, keys, seen, path).1;
        assert forall|c: Seq<char>| #[trigger] refers(g, key, c) implies below.contains(c) by {
            let i = keys.index_of(c);
            assert(below.contains(keys[i]));
        }
        lemma_order_push(g, below, key);
        lemma_list_grows(g, u, keys, seen, path);
        let out = below.push(key);
        assert forall|k: Seq<char>| #[trigger] out.contains(k) <==> next.contains(k)
            && !open.contains(k) by {
            if out.contains(k) {
                let i = out.index_of(k);
                if i < below.len() {
                    assert(below[i] == k);
                }
            }
            if below.contains(k) {
                let i = below.index_of(k);
                assert(out[i] == k);
            }
            if k == key {
                assert(out[below.len() as int] == k);
            }
        }
        assert(out[below.len() as int] == key);
        out
    }
}

/// The same for a list.
proof fn lemma_list_orders(
    g: Graph,
    u: Set<Seq<char>>,
    keys: Seq<Seq<char>>,
    visited: Set<Seq<char>>,
    open: Set<Seq<char>>,
    order: Seq<Seq<char>>,
) -> (out: Seq<Seq<char>>)
    requires
        is_closed(g, u),
        forall|i: int| 0 <= i < keys.len() ==> u.contains(#[trigger] keys[i]),
        open.subset_of(visited),
        covers(g, order, visited, open),
        walk_keys(g, u, keys, visited, open).0 is Ok,
    ensures
        covers(g, out, walk_keys(g, u, keys, visited, open).1, open),
        forall|i: int| 0 <= i < keys.len() ==> out.contains(#[trigger] keys[i]),
    decreases u.difference(visited).len(), keys.len() + 1,
{
    if keys.len() == 0 {
        order
    } else {
        let first = lemma_walk_orders(g, u, keys[0], visited, open, order);
        lemma_visited_grows(g, u, keys[0], visited, open);
        let next = walk_key(g, u, keys[0], visited, open).1;
        let out = lemma_list_orders(g, u, keys.skip(1), next, open, first);
        lemma_list_grows(g, u, keys.skip(1), next, open);
        assert forall|i: int| 0 <= i < keys.len() implies out.contains(#[trigger] keys[i]) by {
            if i > 0 {
                assert(out.contains(keys.skip(1)[i - 1]));
            } else {
                assert(first.contains(keys[0]));
            }
        }
        out
    }
}

/// A walk from `root` succeeds exactly where the files below it can be put in an order in
/// which each can be loaded and comes after those that it refers to: nothing fails to load,
/// and nothing refers to itself.
pub proof fn law_walk_succeeds_iff_ordered(g: Graph, u: Set<Seq<char>>, root: Seq<char>)
    requires
        is_closed(g, u),
        u.contains(root),
    ensures
        walk_spec(g, u, root) is Ok <==> exists|order: Seq<Seq<char>>| #[trigger]
            is_load_order(g, order) && order.contains(root),
{
    if walk_spec(g, u, root) is Ok {
        let none = Seq::<Seq<char>>::empty();
        assert(covers(g, none, Set::empty(), Set::empty()));
        let order = lemma_walk_orders(g, u, root, Set::empty(), Set::empty(), none);
        assert(is_load_order(g, order) && order.contains(root));
    } else {
        let e = walk_spec(g, u, root)->Err_0;
        law_walk_error_is_real(g, u, root);
        assert forall|order: Seq<Seq<char>>| #[trigger] is_load_order(g, order) implies !order.contains(
            root,
        ) by {
            if order.contains(root) {
                let key = match e {
                    WalkErrorView::Cycle(k) => k,
                    WalkErrorView::LoadFailed { key, .. } => key,
                };
                let n = choose|n: nat| reaches(g, root, key, n);
                let i = order.index_of(root);
                lemma_order_descends(g, order, i, key, n);
                let j = choose|j: int| 0 <= j <= i - n && #[trigger] order[j] == key;
                assert(order[j] == key);
                lemma_no_cycle_in_order(g, order, key);
            }
        }
    }
}

/// Each of `keys` is reached from `root`.
pub open spec fn all_reached(g: Graph, root: Seq<char>, keys: Set<Seq<char>>) -> bool {
    forall|k: Seq<char>| #[trigger] keys.contains(k) ==> reachable(g, root, k)
}

/// A walk visits nothing that is not reached from `root`.
proof fn lemma_visited_is_reached(
    g: Graph,
    u: Set<Seq<char>>,
    root: Seq<char>,
    key: Seq<char>,
    visited: Set<Seq<char>>,
    open: Set<Seq<char>>,
)
    requires
        reachable(g, root, key),
        all_reached(g, root, visited),
    ensures
        all_reached(g, root, walk_key(g, u, key, visited, open).1),
    decreases u.difference(visited).len(), 0nat,
{
    if !open.contains(key) && !visited.contains(key) && u.contains(key) && u.finite() {
        match g(key) {
            Err(_) => {},
            Ok(keys) => {
                assert(u.difference(visited.insert(key)) =~= u.difference(visited).remove(key));
                lemma_list_is_reached(g, u, root, key, keys, visited.insert(key), open.insert(key));
            },
        }
    }
}

/// The same for files that `from` refers to.
proof fn lemma_list_is_reached(
    g: Graph,
    u: Set<Seq<char>>,
    root: Seq<char>,
    from: Seq<char>,
    keys: Seq<Seq<char>>,
    visited: Set<Seq<char>>,
    open: Set<Seq<char>>,
)
    requires
        reachable(g, root, from),
        forall|i: int| 0 <= i < keys.len() ==> refers(g, from, #[trigger] keys[i]),
        all_reached(g, root, visited),
    ensures
        all_reached(g, root, walk_keys(g, u, keys, visited, open).1),
    decreases u.difference(visited).len(), keys.len() + 1,
{
    if keys.len() > 0 {
        let key = keys[0];
        assert(refers(g, from, key));
        let n = choose|n: nat| reaches(g, root, from, n);
        lemma_step_more(g, root, from, key, n);
        lemma_visited_is_reached(g, u, root, key, visited, open);
        let (r, next) = walk_key(g, u, key, visited, open);
        if r is Ok && u.difference(next).len() <= u.difference(visited).len() {
            lemma_list_is_reached(g, u, root, from, keys.skip(1), next, open);
        }
    }
}

/// A walk from `root` loads only files that are reached from it, and one that succeeds loads
/// all of them.
pub proof fn law_walk_loads_what_is_reached(g: Graph, u: Set<Seq<char>>, root: Seq<char>)
    requires
        is_closed(g, u),
        u.contains(root),
    ensures
        ({
            let (end, visited) = walk_key(g, u, root, Set::empty(), Set::empty());
            &&& all_reached(g, root, visited)
            &&& end is Ok ==> forall|k: Seq<char>|
                reachable(g, root, k) ==> #[trigger] visited.contains(k)
        }),
{
    let none = Set::<Seq<char>>::empty();
    let (end, visited) = walk_key(g, u, root, none, none);
    assert(reaches(g, root, root, 0));
    lemma_visited_is_reached(g, u, root, root, none, none);
    if end is Ok {
        assert(covers(g, Seq::empty(), none, none));
        let order = lemma_walk_orders(g, u, root, none, none, Seq::empty());
        assert forall|k: Seq<char>| reachable(g, root, k) implies #[trigger] visited.contains(k) by {
            let n = choose|n: nat| reaches(g, root, k, n);
            let i = order.index_of(root);
            lemma_order_descends(g, order, i, k, n);
            let j = choose|j: int| 0 <= j <= i - n && #[trigger] order[j] == k;
            assert(order.contains(order[j]));
        }
    }
}

/// A walk from `root` succeeds exactly where every file that is reached from it can be loaded
/// and none of them refers to itself, directly or through others.
pub proof fn law_walk_succeeds_iff_sound(g: Graph, u: Set<Seq<char>>, root: Seq<char>)
    requires
        is_closed(g, u),
        u.contains(root),
    ensures
        walk_spec(g, u, root) is Ok <==> forall|k: Seq<char>| #[trigger]
            reachable(g, root, k) ==> g(k) is Ok && !on_cycle(g, k),
{
    law_walk_error_is_real(g, u, root);
    if walk_spec(g, u, root) is Ok {
        law_walk_succeeds_iff_ordered(g, u, root);
        let order = choose|order: Seq<Seq<char>>| #[trigger]
            is_load_order(g, order) && order.contains(root);
        assert forall|k: Seq<char>| #[trigger] reachable(g, root, k) implies g(k) is Ok
            && !on_cycle(g, k) by {
            let n = choose|n: nat| reaches(g, root, k, n);
            let i = order.index_of(root);
            lemma_order_descends(g, order, i, k, n);
            let j = choose|j: int| 0 <= j <= i - n && #[trigger] order[j] == k;
            assert(g(order[j]) is Ok);
            assert(order.contains(order[j]));
            lemma_no_cycle_in_order(g, order, k);
        }
    }
}

/// Where the loader answers as `g` says, a walk from `root` loads no file twice and only files
/// that are reached from `root`. It succeeds exactly where each of those can be loaded and
/// none refers to itself, and then it has loaded every one of them, once. Otherwise it names
/// a file that is reached and refers to itself, or one that is reached and cannot be loaded.
pub proof fn law_each_file_is_loaded_once<F: FnMut(&str) -> Result<Vec<String>, String>>(
    load: F,
    root: Seq<char>,
    keys: Seq<Seq<char>>,
    end: Result<(), WalkErrorView>,
    g: Graph,
    u: Set<Seq<char>>,
)
    requires
        walks(load, root, keys, end),
        forall|k: &str, r: Result<Vec<String>, String>| #[trigger]
            call_ensures(load, (k,), r) ==> loaded(r) == g(k@),
        is_closed(g, u),
        u.contains(root),
    ensures
        keys.no_duplicates(),
        end == walk_spec(g, u, root),
        end is Ok <==> forall|k: Seq<char>| #[trigger]
            reachable(g, root, k) ==> g(k) is Ok && !on_cycle(g, k),
        end is Ok ==> forall|k: Seq<char>| #[trigger] keys.contains(k) <==> reachable(g, root, k),
        end matches Err(e) ==> is_real(g, root, e),
        forall|k: Seq<char>| #[trigger] keys.contains(k) ==> reachable(g, root, k),
{
    let answers = choose|answers: Seq<Result<Seq<Seq<char>>, Seq<char>>>| #[trigger]
        answered_by(load, keys, answers) && is_walk(root, keys, answers, end);
    assert(agrees(g, keys, answers)) by {
        assert forall|i: int| 0 <= i < keys.len() implies g(#[trigger] keys[i])
            == #[trigger] answers[i] by {
            assert(can_answer(load, keys[i], answers[i]));
        }
    }
    law_walk_error_is_real(g, u, root);
    law_walk_succeeds_iff_sound(g, u, root);
    law_walk_loads_what_is_reached(g, u, root);
    let visited = walk_key(g, u, root, Set::empty(), Set::empty()).1;
    assert forall|k: Seq<char>| #[trigger] keys.contains(k) <==> visited.contains(k) by {
        assert(keys.to_set().contains(k) <==> keys.contains(k));
    }
}

} // verus!

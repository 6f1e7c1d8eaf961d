//! Shortest paths over the links of a navigation mesh: the bookkeeping of
//! the search, step by step. The caller measures lengths and finds where a
//! path crosses an edge; what is expanded next, what is recorded and what
//! the path is, is decided here.
use crate::arena::link_slab_get;
use crate::link::NavmeshLink;
use crate::navmesh::Navmesh;
use crate::scalar::Scalar;
use crate::util::{tolerance, tolerance_spec};
use crate::vector::Vec3;
use std::collections::BTreeMap;
use std::collections::BTreeSet;
use vstd::prelude::*;

verus! {

/// The most passes that `Shortener` makes over a path.
pub const MAX_PASSES: usize = 100;

/// A point of a path: where it is, the polygon it leads into, and the link
/// by which it gets there, if any.
#[derive(Clone, Copy, Debug, PartialEq, Eq, Structural)]
pub struct Waypoint {
    pub target_polygon: usize,
    pub edge: Option<usize>,
    pub point: Vec3,
}

impl Waypoint {
    pub fn new(target_polygon: usize, edge: Option<usize>, point: Vec3) -> (w: Waypoint)
        ensures
            w == (Waypoint { target_polygon, edge, point }),
    {
        Waypoint { target_polygon, edge, point }
    }

    pub fn edge(&self) -> (e: Option<usize>)
        ensures
            e == self.edge,
    {
        self.edge
    }

    pub fn target_polygon(&self) -> (p: usize)
        ensures
            p == self.target_polygon,
    {
        self.target_polygon
    }

    pub fn point(&self) -> (p: Vec3)
        ensures
            p == self.point,
    {
        self.point
    }
}

/// How a polygon was reached: at which point, over which link, from which
/// polygon, at what cost from the start, and the estimate of the whole way
/// through it.
#[derive(Clone, Copy, Debug, PartialEq, Eq, Structural)]
pub struct Backtrace {
    pub node: usize,
    pub point: Vec3,
    pub portal: Option<usize>,
    pub prev: Option<usize>,
    pub start_cost: Scalar,
    pub total_cost: Scalar,
}

/// Where the way from the polygon under expansion crosses one of its links,
/// as the caller has computed it: the point of the crossing (see
/// `Crossing::point_on`); `start_cost`, the cost on record for the polygon
/// under expansion plus the distance from the point on record to the
/// crossing; and `total_cost`, that cost plus the estimate of the way from
/// the crossing to the goal.
#[derive(Clone, Copy, Debug, PartialEq, Eq, Structural)]
pub struct Crossing {
    pub point: Vec3,
    pub start_cost: Scalar,
    pub total_cost: Scalar,
}

impl Crossing {
    /// Where a link is crossed: where the straight way to the goal meets
    /// the edge that the link is entered by, or in the middle of that edge
    /// where the way does not meet it.
    pub fn point_on(hit: Option<Vec3>, midpoint: Vec3) -> (p: Vec3)
        ensures
            p == if hit is Some {
                hit->0
            } else {
                midpoint
            },
    {
        match hit {
            Some(p) => p,
            None => midpoint,
        }
    }
}

impl Backtrace {
    /// The record of the link `edge_index` crossed at `crossing`, coming
    /// from `prev`.
    pub open spec fn over(
        edge_index: usize,
        edge: NavmeshLink,
        crossing: Crossing,
        prev: Backtrace,
    ) -> Backtrace {
        Backtrace {
            node: edge.to,
            point: crossing.point,
            portal: Some(edge_index),
            prev: Some(prev.node),
            start_cost: crossing.start_cost,
            total_cost: crossing.total_cost,
        }
    }

    /// The waypoint that the record stands for.
    pub open spec fn waypoint(self) -> Waypoint {
        Waypoint { target_polygon: self.node, edge: self.portal, point: self.point }
    }

    /// The record of the start: no cost so far, and the estimate
    /// `heuristic` for the whole way.
    pub fn start(node: usize, point: Vec3, heuristic: Scalar) -> (b: Backtrace)
        ensures
            b == (Backtrace {
                node,
                point,
                portal: None,
                prev: None,
                start_cost: Scalar { bits: 0 },
                total_cost: heuristic,
            }),
    {
        Backtrace {
            node,
            point,
            portal: None,
            prev: None,
            start_cost: Scalar::zero(),
            total_cost: heuristic,
        }
    }

    pub fn new(edge_index: usize, edge: &NavmeshLink, crossing: Crossing, prev: &Backtrace) -> (b:
        Backtrace)
        ensures
            b == Backtrace::over(edge_index, *edge, crossing, *prev),
    {
        Backtrace {
            node: edge.to(),
            portal: Some(edge_index),
            point: crossing.point,
            prev: Some(prev.node),
            start_cost: crossing.start_cost,
            total_cost: crossing.total_cost,
        }
    }
}

/// The entry of `open` that is taken next: going through the entries in
/// order, the one held is given up for a later one only where that is
/// cheaper. 0 for an empty list.
pub open spec fn cheapest(open: Seq<Backtrace>) -> int
    decreases open.len(),
{
    if open.len() <= 1 {
        0
    } else {
        let best = cheapest(open.drop_last());
        if open.last().total_cost.less(open[best].total_cost) {
            open.len() - 1
        } else {
            best
        }
    }
}

/// The place of `n` among the closed polygons, which are listed in the
/// order in which they were closed; the length of the list where `n` is not
/// closed.
pub open spec fn closing_rank(order: Seq<usize>, n: usize) -> int
    decreases order.len(),
{
    if order.len() == 0 {
        0
    } else {
        let r = closing_rank(order.drop_last(), n);
        if r < order.len() - 1 {
            r
        } else if order.last() == n {
            order.len() - 1
        } else {
            order.len() as int
        }
    }
}

/// The state of a search as the contracts speak of it.
pub struct SearchView {
    /// The records still to be looked at.
    pub open: Seq<Backtrace>,
    /// For each polygon reached, the best record so far.
    pub backtraces: Map<usize, Backtrace>,
    /// The polygons that are done.
    pub closed: Set<usize>,
    /// The polygons that are done, in the order in which they were closed.
    pub order: Seq<usize>,
    /// The polygons whose record was taken and that were not done then.
    pub pending: Set<usize>,
}

/// What the search does next.
#[derive(Clone, Copy, Debug, PartialEq, Eq, Structural)]
pub enum Step {
    /// Nothing is left to look at: there is no path.
    Exhausted,
    /// The record taken was of a polygon that is done; it was dropped.
    Stale,
    /// The record taken is of the goal's polygon.
    Arrived(Backtrace),
    /// The record taken is to be expanded.
    Expand(Backtrace),
}

impl SearchView {
    /// Every record is filed under its polygon, and where it names a
    /// polygon it came from, that one has a record, is closed, and was
    /// closed before the record's own polygon, if that is closed at all.
    pub open spec fn well_traced(self) -> bool {
        forall|n: usize| #[trigger]
            self.backtraces.contains_key(n) ==> {
                &&& self.backtraces[n].node == n
                &&& match self.backtraces[n].prev {
                    Some(p) => self.backtraces.contains_key(p) && closing_rank(self.order, p)
                        < self.order.len() && closing_rank(self.order, p) < closing_rank(
                        self.order,
                        n,
                    ),
                    None => true,
                }
            }
    }

    /// Every record but that of the start names the link it came over, and
    /// that link leads from the polygon the record came from into the
    /// record's own.
    pub open spec fn follows(self, links: Map<usize, NavmeshLink>) -> bool {
        forall|n: usize| #[trigger]
            self.backtraces.contains_key(n) ==> match self.backtraces[n].portal {
                Some(id) => links.contains_key(id) && links[id].to == n && self.backtraces[n].prev
                    == Some(links[id].from),
                None => self.backtraces[n].prev is None,
            }
    }

    /// No record has a smaller cost from the start than the record of the
    /// polygon it came from.
    pub open spec fn costs_rise(self) -> bool {
        forall|n: usize| #[trigger]
            self.backtraces.contains_key(n) && self.backtraces[n].prev is Some
                ==> self.backtraces[self.backtraces[n].prev->0].start_cost.less_eq(
                self.backtraces[n].start_cost,
            )
    }

    /// The open list is in step with the records: no cost estimate on it is
    /// NaN, every entry of a polygon that is not done is the polygon's
    /// record or dearer than it, and the record of every polygon that is
    /// not done and was not taken yet is on the list.
    pub open spec fn settled(self) -> bool {
        &&& forall|i: int| 0 <= i < self.open.len() ==> !(#[trigger] self.open[i]).total_cost.nan()
        &&& forall|i: int|
            0 <= i < self.open.len() && !self.closed.contains((#[trigger] self.open[i]).node)
                ==> self.open[i] == self.backtraces[self.open[i].node]
                || self.backtraces[self.open[i].node].total_cost.less(self.open[i].total_cost)
        &&& forall|n: usize| #[trigger]
            self.backtraces.contains_key(n) && !self.closed.contains(n) && !self.pending.contains(
                n,
            ) ==> self.open.contains(self.backtraces[n])
    }

    pub open spec fn wf(self) -> bool {
        &&& self.well_traced()
        &&& self.closed == self.order.to_set()
        &&& forall|i: int|
            0 <= i < self.open.len() ==> self.backtraces.contains_key(
                (#[trigger] self.open[i]).node,
            )
    }

    /// The state with `n` closed.
    pub open spec fn closing(self, n: usize) -> SearchView {
        SearchView { closed: self.closed.insert(n), order: self.order.push(n), ..self }
    }

    /// The state after the link `id` was looked at from `current`: nothing
    /// changes where the link leads into a closed polygon or the polygon
    /// has a record that is no dearer; else the new record is filed and put
    /// on the open list.
    pub open spec fn relaxed(
        self,
        current: Backtrace,
        id: usize,
        link: NavmeshLink,
        crossing: Crossing,
    ) -> SearchView {
        let found = Backtrace::over(id, link, crossing, current);
        if self.closed.contains(link.to) {
            self
        } else if self.backtraces.contains_key(link.to) && !found.total_cost.less(
            self.backtraces[link.to].total_cost,
        ) {
            self
        } else {
            SearchView {
                open: self.open.push(found),
                backtraces: self.backtraces.insert(link.to, found),
                ..self
            }
        }
    }

    /// The state after the links `ids` were looked at from `current`, one
    /// after the other.
    pub open spec fn relaxed_all(
        self,
        current: Backtrace,
        ids: Seq<usize>,
        links: Map<usize, NavmeshLink>,
        crossings: Seq<Crossing>,
    ) -> SearchView
        recommends
            ids.len() == crossings.len(),
        decreases ids.len(),
    {
        if ids.len() == 0 {
            self
        } else {
            self.relaxed_all(current, ids.drop_last(), links, crossings.drop_last()).relaxed(
                current,
                ids.last(),
                links[ids.last()],
                crossings.last(),
            )
        }
    }

    /// The state after the cheapest open record was taken, and what the
    /// search does with it.
    pub open spec fn taken(self, end_node: usize) -> (SearchView, Step) {
        if self.open.len() == 0 {
            (self, Step::Exhausted)
        } else {
            let i = cheapest(self.open);
            let current = self.open[i];
            let rest = SearchView { open: self.open.remove(i), ..self };
            let held = SearchView { pending: self.pending.insert(current.node), ..rest };
            if self.closed.contains(current.node) {
                (rest, Step::Stale)
            } else if current.node == end_node {
                (held, Step::Arrived(current))
            } else {
                (held, Step::Expand(current))
            }
        }
    }
}

/// Begins the search for a path from the point `start`, which is in the
/// polygon `start_polygon`, to a goal in the polygon `end_polygon`.
/// `heuristic` is the estimate of the length of the way. There is no search
/// where an end of the way is in no polygon. Returns the search and the
/// goal's polygon.
pub fn astar(
    start_polygon: Option<usize>,
    end_polygon: Option<usize>,
    start: Vec3,
    heuristic: Scalar,
) -> (begun: Option<(Search, usize)>)
    ensures
        begun is Some <==> start_polygon is Some && end_polygon is Some,
        match begun {
            Some((search, end_node)) => {
                &&& end_node == end_polygon->0
                &&& search@.wf()
                &&& search@.costs_rise()
                &&& !heuristic.nan() ==> search@.settled()
                &&& forall|links: Map<usize, NavmeshLink>| search@.follows(links)
                &&& search@.open == seq![
                    Backtrace {
                        node: start_polygon->0,
                        point: start,
                        portal: None,
                        prev: None,
                        start_cost: Scalar { bits: 0 },
                        total_cost: heuristic,
                    },
                ]
                &&& search@.backtraces == Map::<usize, Backtrace>::empty().insert(
                    start_polygon->0,
                    search@.open[0],
                )
                &&& search@.closed == Set::<usize>::empty()
            },
            None => true,
        },
{
    match (start_polygon, end_polygon) {
        (Some(start_node), Some(end_node)) => Some(
            (Search::new(Backtrace::start(start_node, start, heuristic)), end_node),
        ),
        _ => None,
    }
}

/// The links that leave `node`, in the order of its list.
pub open spec fn outgoing(nav: &Navmesh, node: usize) -> Seq<usize> {
    if nav.links_by_polygon().contains_key(node) {
        nav.links_by_polygon()[node]
    } else {
        Seq::empty()
    }
}

/// `chain` leads from the record of `node` back to the start: each record
/// is the one filed under its polygon, each but the last names the polygon
/// of the next, and the last names none.
pub open spec fn is_chain(
    backtraces: Map<usize, Backtrace>,
    node: usize,
    chain: Seq<Backtrace>,
) -> bool {
    &&& chain.len() >= 1
    &&& chain[0] == backtraces[node]
    &&& forall|k: int|
        0 <= k < chain.len() ==> backtraces.contains_key((#[trigger] chain[k]).node)
            && backtraces[chain[k].node] == chain[k]
    &&& forall|k: int|
        0 <= k < chain.len() - 1 ==> (#[trigger] chain[k]).prev == Some(chain[k + 1].node)
    &&& chain.last().prev is None
}

/// The search for a path.
pub struct Search {
    open: Vec<Backtrace>,
    backtraces: BTreeMap<usize, Backtrace>,
    closed: BTreeSet<usize>,
    order: Ghost<Seq<usize>>,
    pending: Ghost<Set<usize>>,
}

impl View for Search {
    type V = SearchView;

    closed spec fn view(&self) -> SearchView {
        SearchView {
            open: self.open@,
            backtraces: self.backtraces@,
            closed: self.closed@,
            order: self.order@,
            pending: self.pending@,
        }
    }
}

impl Search {
    /// The search that has `start` to look at and nothing closed.
    pub fn new(start: Backtrace) -> (s: Search)
        requires
            start.prev is None,
            start.portal is None,
        ensures
            s@.wf(),
            s@.costs_rise(),
            !start.total_cost.nan() ==> s@.settled(),
            forall|links: Map<usize, NavmeshLink>| s@.follows(links),
            s@.open == seq![start],
            s@.backtraces == Map::<usize, Backtrace>::empty().insert(start.node, start),
            s@.closed == Set::<usize>::empty(),
            s@.order == Seq::<usize>::empty(),
            s@.pending == Set::<usize>::empty(),
    {
        let mut open: Vec<Backtrace> = Vec::new();
        open.push(start);
        let mut backtraces: BTreeMap<usize, Backtrace> = BTreeMap::new();
        backtraces.insert(start.node, start);
        let s = Search {
            open,
            backtraces,
            closed: BTreeSet::new(),
            order: Ghost(Seq::empty()),
            pending: Ghost(Set::empty()),
        };
        proof {
            assert(s@.open =~= seq![start]);
            assert(s@.closed =~= s@.order.to_set());
            assert(s@.open[0] == start);
        }
        s
    }

    /// Whether `node` is done.
    pub fn is_closed(&self, node: usize) -> (r: bool)
        ensures
            r == self@.closed.contains(node),
    {
        self.closed.contains(&node)
    }

    /// The best record of `node` so far, if it was reached.
    pub fn backtrace(&self, node: usize) -> (b: Option<Backtrace>)
        ensures
            match b {
                Some(b) => self@.backtraces.contains_key(node) && b == self@.backtraces[node],
                None => !self@.backtraces.contains_key(node),
            },
    {
        match self.backtraces.get(&node) {
            Some(b) => Some(*b),
            None => None,
        }
    }

    /// Takes the cheapest open record and says what is to be done with it.
    pub fn next(&mut self, end_node: usize) -> (step: Step)
        requires
            old(self)@.wf(),
        ensures
            final(self)@.wf(),
            (final(self)@, step) == old(self)@.taken(end_node),
            match step {
                Step::Arrived(b) | Step::Expand(b) => !final(self)@.closed.contains(b.node)
                    && final(self)@.backtraces.contains_key(b.node),
                _ => true,
            },
            old(self)@.settled() ==> final(self)@.settled(),
            old(self)@.settled() ==> match step {
                Step::Arrived(b) | Step::Expand(b) => old(self)@.pending.contains(b.node) || b
                    == final(self)@.backtraces[b.node],
                _ => true,
            },
    {
        if self.open.len() == 0 {
            return Step::Exhausted;
        }
        let mut best: usize = 0;
        let mut k: usize = 1;
        while k < self.open.len()
            invariant
                1 <= k <= self.open.len(),
                best < k,
                best == cheapest(self.open@.take(k as int)),
            decreases self.open.len() - k,
        {
            proof {
                assert(self.open@.take(k + 1).drop_last() =~= self.open@.take(k as int));
            }
            if self.open[k].total_cost.lt(self.open[best].total_cost) {
                best = k;
            }
            k += 1;
        }
        proof {
            assert(self.open@.take(k as int) =~= self.open@);
        }
        let current = self.open.remove(best);
        proof {
            if old(self)@.settled() {
                lemma_taken_settled(old(self)@, end_node);
            }
        }
        if self.closed.contains(&current.node) {
            Step::Stale
        } else {
            proof {
                self.pending@ = self.pending@.insert(current.node);
            }
            if current.node == end_node {
                Step::Arrived(current)
            } else {
                Step::Expand(current)
            }
        }
    }

    /// Closes the polygon of `current` and looks at every link that leaves
    /// it. `crossings[k]` belongs to the `k`th link of the polygon's list.
    pub fn expand(&mut self, navmesh: &Navmesh, current: &Backtrace, crossings: &Vec<Crossing>)
        requires
            old(self)@.wf(),
            navmesh.wf(),
            old(self)@.backtraces.contains_key(current.node),
            !old(self)@.closed.contains(current.node),
            crossings.len() == outgoing(navmesh, current.node).len(),
        ensures
            final(self)@.wf(),
            old(self)@.follows(navmesh.link_map()) ==> final(self)@.follows(navmesh.link_map()),
            old(self)@.costs_rise() && (forall|k: int|
                0 <= k < crossings.len() ==> old(self)@.backtraces[current.node].start_cost.less_eq(
                    (#[trigger] crossings[k]).start_cost,
                )) ==> final(self)@.costs_rise(),
            old(self)@.settled() && (forall|k: int|
                0 <= k < crossings.len() ==> !(#[trigger] crossings[k]).total_cost.nan())
                ==> final(self)@.settled(),
            final(self)@ == old(self)@.closing(current.node).relaxed_all(
                *current,
                outgoing(navmesh, current.node),
                navmesh.link_map(),
                crossings@,
            ),
    {
        self.closed.insert(current.node);
        proof {
            let before = old(self)@;
            lemma_rank_bounds(before.order, current.node);
            self.order@ = before.order.push(current.node);
            assert(self@ == before.closing(current.node));
            lemma_closing_keeps_wf(before, current.node);
        }
        let lists = navmesh.polygon_links();
        match lists.get(&current.node) {
            Some(ids) => {
                let ghost start = self@;
                let mut k: usize = 0;
                while k < ids.len()
                    invariant
                        k <= ids.len(),
                        ids@ == outgoing(navmesh, current.node),
                        crossings.len() == ids.len(),
                        navmesh.wf(),
                        start.wf(),
                        start.backtraces.contains_key(current.node),
                        start.order.len() > 0,
                        start.order.last() == current.node,
                        self@.wf(),
                        old(self)@.follows(navmesh.link_map()) ==> self@.follows(
                            navmesh.link_map(),
                        ),
                        self@.order == start.order,
                        self@.closed == start.closed,
                        self@.backtraces.contains_key(current.node),
                        self@ == start.relaxed_all(
                            *current,
                            ids@.take(k as int),
                            navmesh.link_map(),
                            crossings@.take(k as int),
                        ),
                    decreases ids.len() - k,
                {
                    let id = ids[k];
                    proof {
                        assert(ids@.take(k + 1).drop_last() =~= ids@.take(k as int));
                        assert(crossings@.take(k + 1).drop_last() =~= crossings@.take(k as int));
                        assert(navmesh.links_by_polygon()[current.node][k as int] == id);
                    }
                    let link = match link_slab_get(navmesh.links(), id) {
                        Some(link) => link,
                        None => vstd::pervasive::unreached(),
                    };
                    let ghost prior = self@;
                    if !self.closed.contains(&link.to) {
                        let found = Backtrace::new(id, &link, crossings[k], current);
                        let better = match self.backtraces.get(&link.to) {
                            Some(known) => found.total_cost.lt(known.total_cost),
                            None => true,
                        };
                        if better {
                            self.backtraces.insert(link.to, found);
                            self.open.push(found);
                            proof {
                                lemma_relaxed_keeps_wf(prior, *current, id, link, crossings@[k as int]);
                                if prior.follows(navmesh.link_map()) {
                                    lemma_relaxed_follows(
                                        prior,
                                        navmesh.link_map(),
                                        *current,
                                        id,
                                        crossings@[k as int],
                                    );
                                }
                            }
                        }
                    }
                    assert(self@ == prior.relaxed(*current, id, link, crossings@[k as int]));
                    k += 1;
                }
                proof {
                    assert(ids@.take(k as int) =~= ids@);
                    assert(crossings@.take(k as int) =~= crossings@);
                }
            },
            None => {
                assert(outgoing(navmesh, current.node) =~= Seq::<usize>::empty());
            },
        }
        proof {
            let closed = old(self)@.closing(current.node);
            if old(self)@.costs_rise() && (forall|k: int|
                0 <= k < crossings.len() ==> old(self)@.backtraces[current.node].start_cost.less_eq(
                    (#[trigger] crossings[k]).start_cost,
                )) {
                lemma_relaxed_all_costs_rise(
                    closed,
                    *current,
                    outgoing(navmesh, current.node),
                    navmesh.link_map(),
                    crossings@,
                );
            }
            if old(self)@.settled() && (forall|k: int|
                0 <= k < crossings.len() ==> !(#[trigger] crossings[k]).total_cost.nan()) {
                assert(closed.settled());
                lemma_relaxed_all_settled(
                    closed,
                    *current,
                    outgoing(navmesh, current.node),
                    navmesh.link_map(),
                    crossings@,
                );
            }
        }
    }

    /// The records from that of `node` back to the start.
    pub fn chain(&self, node: usize) -> (chain: Vec<Backtrace>)
        requires
            self@.wf(),
            self@.backtraces.contains_key(node),
        ensures
            is_chain(self@.backtraces, node, chain@),
    {
        let mut chain: Vec<Backtrace> = Vec::new();
        let first = match self.backtraces.get(&node) {
            Some(b) => *b,
            None => vstd::pervasive::unreached(),
        };
        chain.push(first);
        let mut last = first;
        loop
            invariant
                self@.wf(),
                chain.len() >= 1,
                chain@[0] == self@.backtraces[node],
                chain@.last() == last,
                forall|k: int|
                    0 <= k < chain.len() ==> self@.backtraces.contains_key(
                        (#[trigger] chain@[k]).node,
                    ) && self@.backtraces[chain@[k].node] == chain@[k],
                forall|k: int|
                    0 <= k < chain.len() - 1 ==> (#[trigger] chain@[k]).prev == Some(
                        chain@[k + 1].node,
                    ),
            ensures
                is_chain(self@.backtraces, node, chain@),
            decreases closing_rank(self@.order, last.node),
        {
            match last.prev {
                Some(p) => {
                    proof {
                        assert(self@.backtraces.contains_key(last.node));
                        lemma_rank_bounds(self@.order, p);
                    }
                    let b = match self.backtraces.get(&p) {
                        Some(b) => *b,
                        None => vstd::pervasive::unreached(),
                    };
                    proof {
                        assert(self@.backtraces.contains_key(p));
                        assert(b.node == p);
                    }
                    chain.push(b);
                    last = b;
                },
                None => {
                    break;
                },
            }
        }
        chain
    }
}

/// The waypoints of the records of `chain` from the `k`th on, last record
/// first, without those that are within the tolerance of the record before
/// them. `gaps[i]` is the square of the distance between the points of
/// `chain[i - 1]` and `chain[i]`.
pub open spec fn collapsed_from(chain: Seq<Backtrace>, gaps: Seq<Scalar>, k: int) -> Seq<Waypoint>
    recommends
        chain.len() == gaps.len(),
        0 <= k,
    decreases chain.len() - k,
{
    if k >= chain.len() {
        Seq::empty()
    } else {
        collapsed_from(chain, gaps, k + 1) + if tolerance_spec().less(gaps[k]) {
            seq![chain[k].waypoint()]
        } else {
            Seq::empty()
        }
    }
}

/// The path that `chain` stands for, from the start to the goal `end` in
/// the polygon `end_node`: the waypoints of the records, start first, of
/// which the one that enters the goal's polygon is always kept, and the goal
/// at the end.
pub open spec fn path_of(
    end: Vec3,
    end_node: usize,
    chain: Seq<Backtrace>,
    gaps: Seq<Scalar>,
) -> Seq<Waypoint> {
    collapsed_from(chain, gaps, 1) + seq![
        chain[0].waypoint(),
        Waypoint { target_polygon: end_node, edge: None, point: end },
    ]
}

/// Turns the records from the goal's polygon back to the start into the
/// path from the start to the goal. `gaps[k]`, for `k` from 1 on, is the
/// square of the distance between the points of `chain[k - 1]` and
/// `chain[k]`; `gaps[0]` is not read.
pub fn contruct_backtrace(
    end: Vec3,
    end_node: usize,
    chain: &Vec<Backtrace>,
    gaps: &Vec<Scalar>,
) -> (path: Vec<Waypoint>)
    requires
        chain.len() >= 1,
        gaps.len() == chain.len(),
    ensures
        path@ == path_of(end, end_node, chain@, gaps@),
        path.len() >= 2,
{
    let mut path: Vec<Waypoint> = Vec::new();
    let mut k: usize = chain.len();
    while k > 1
        invariant
            1 <= k <= chain.len(),
            gaps.len() == chain.len(),
            path@ == collapsed_from(chain@, gaps@, k as int),
        decreases k,
    {
        k -= 1;
        if gaps[k].gt(tolerance()) {
            let b = chain[k];
            path.push(Waypoint::new(b.node, b.portal, b.point));
        } else {
            assert(path@ =~= path@ + Seq::<Waypoint>::empty());
        }
    }
    let first = chain[0];
    path.push(Waypoint::new(first.node, first.portal, first.point));
    path.push(Waypoint::new(end_node, None, end));
    assert(path@ =~= path_of(end, end_node, chain@, gaps@));
    path
}

/// The passes over a path that pull it tight: where it stands, and
/// whether the pass under way has moved a waypoint.
#[derive(Clone, Copy, Debug, PartialEq, Eq, Structural)]
pub struct Shortener {
    /// The passes that are over; `MAX_PASSES` when nothing is left to do.
    pub pass: usize,
    /// The first waypoint of the next triple to look at.
    pub index: usize,
    /// Whether the pass under way has moved a waypoint.
    pub replaced: bool,
}

/// The first `i` from `from` on for which the waypoints `i`, `i + 1`,
/// `i + 2` are a triple whose middle one came over a link; the length of
/// the path where there is none.
pub open spec fn next_portal(path: Seq<Waypoint>, from: int) -> int
    recommends
        0 <= from,
    decreases path.len() - from,
{
    if from + 2 >= path.len() {
        path.len() as int
    } else if path[from + 1].edge is Some {
        from
    } else {
        next_portal(path, from + 1)
    }
}

impl Shortener {
    pub open spec fn finished(self) -> bool {
        self.pass >= MAX_PASSES
    }

    /// The state when nothing is left to do.
    pub open spec fn done() -> Shortener {
        Shortener { pass: MAX_PASSES, index: 0, replaced: false }
    }

    /// The state after the next triple was picked, and the triple: its
    /// first waypoint's index and the link of its middle waypoint. A pass
    /// goes over the triples in order. When it is over, another begins if it
    /// moved a waypoint and fewer than `MAX_PASSES` were made; else the work
    /// is done and there is no triple.
    pub open spec fn advanced(self, path: Seq<Waypoint>) -> (Shortener, Option<(usize, usize)>) {
        if self.finished() {
            (self, None)
        } else {
            let i = next_portal(path, self.index as int);
            if i < path.len() {
                (Shortener { index: (i + 1) as usize, ..self }, Some((i as usize, path[i + 1].edge->0)))
            } else if !self.replaced || self.pass + 1 >= MAX_PASSES {
                (Shortener::done(), None)
            } else {
                let j = next_portal(path, 0);
                if j < path.len() {
                    (
                        Shortener { pass: (self.pass + 1) as usize, index: (j + 1) as usize, replaced: false },
                        Some((j as usize, path[j + 1].edge->0)),
                    )
                } else {
                    (Shortener::done(), None)
                }
            }
        }
    }

    /// The path after the triple at `i` was dealt with: its middle
    /// waypoint is moved to `hit` where there is one and it is further than
    /// the tolerance from where the waypoint was. `moved` is the square of
    /// the distance between the two.
    pub open spec fn pulled(path: Seq<Waypoint>, i: int, hit: Option<Vec3>, moved: Scalar) -> Seq<
        Waypoint,
    > {
        if hit is Some && tolerance_spec().less(moved) {
            path.update(i + 1, Waypoint { point: hit->0, ..path[i + 1] })
        } else {
            path
        }
    }

    pub fn new() -> (s: Shortener)
        ensures
            s == (Shortener { pass: 0, index: 0, replaced: false }),
    {
        Shortener { pass: 0, index: 0, replaced: false }
    }

    /// Looks for the first triple from `from` on whose middle waypoint came
    /// over a link.
    fn scan(path: &Vec<Waypoint>, from: usize) -> (i: usize)
        ensures
            i == next_portal(path@, from as int),
            i < path.len() ==> from <= i && i + 2 < path.len() && path@[i + 1].edge is Some,
            i <= path.len(),
    {
        let mut i: usize = from;
        loop
            invariant_except_break
                from <= i,
                next_portal(path@, i as int) == next_portal(path@, from as int),
            ensures
                i == next_portal(path@, from as int),
                i < path.len() ==> from <= i && i + 2 < path.len() && path@[i + 1].edge is Some,
                i <= path.len(),
            decreases path.len() - i,
        {
            if i >= path.len() || path.len() - i <= 2 {
                i = path.len();
                break;
            }
            if path[i + 1].edge.is_some() {
                break;
            }
            i += 1;
        }
        i
    }

    /// Picks the next triple of waypoints to test, if any is left. For the
    /// triple `(i, link)` the caller looks where the line from waypoint `i`
    /// to waypoint `i + 2` crosses the edge by which `link` is entered, and
    /// hands the answer to `apply`.
    pub fn next(&mut self, path: &Vec<Waypoint>) -> (query: Option<(usize, usize)>)
        ensures
            (*final(self), query) == old(self).advanced(path@),
            match query {
                Some((i, link)) => i + 2 < path.len() && path@[i + 1].edge == Some(link)
                    && !final(self).finished(),
                None => final(self).finished(),
            },
    {
        if self.pass >= MAX_PASSES {
            return None;
        }
        let i = Shortener::scan(path, self.index);
        if i < path.len() {
            self.index = i + 1;
            return match path[i + 1].edge {
                Some(link) => Some((i, link)),
                None => vstd::pervasive::unreached(),
            };
        }
        if !self.replaced || self.pass + 1 >= MAX_PASSES {
            *self = Shortener { pass: MAX_PASSES, index: 0, replaced: false };
            return None;
        }
        let j = Shortener::scan(path, 0);
        if j < path.len() {
            *self = Shortener { pass: self.pass + 1, index: j + 1, replaced: false };
            match path[j + 1].edge {
                Some(link) => Some((j, link)),
                None => vstd::pervasive::unreached(),
            }
        } else {
            *self = Shortener { pass: MAX_PASSES, index: 0, replaced: false };
            None
        }
    }

    /// Moves the middle waypoint of the triple at `i` to `hit`, where the
    /// line crosses the edge, unless it is there already. `moved` is the
    /// square of the distance from the waypoint to `hit`. Returns whether
    /// the waypoint was moved.
    pub fn apply(&mut self, path: &mut Vec<Waypoint>, i: usize, hit: Option<Vec3>, moved: Scalar) -> (r:
        bool)
        requires
            i + 1 < old(path).len(),
        ensures
            final(path)@ == Shortener::pulled(old(path)@, i as int, hit, moved),
            r == (hit is Some && tolerance_spec().less(moved)),
            *final(self) == (Shortener { replaced: old(self).replaced || r, ..*old(self) }),
    {
        match hit {
            Some(p) => {
                if moved.gt(tolerance()) {
                    let w = path[i + 1];
                    path.set(i + 1, Waypoint { target_polygon: w.target_polygon, edge: w.edge, point: p });
                    self.replaced = true;
                    true
                } else {
                    false
                }
            },
            None => false,
        }
    }
}

/// Pulling a path tight moves points only: the path keeps its length, and
/// every waypoint its polygon and its link.
pub proof fn lemma_pulled_keeps_route(path: Seq<Waypoint>, i: int, hit: Option<Vec3>, moved: Scalar, k: int)
    requires
        0 <= i,
        i + 1 < path.len(),
        0 <= k < path.len(),
    ensures
        Shortener::pulled(path, i, hit, moved).len() == path.len(),
        Shortener::pulled(path, i, hit, moved)[k].target_polygon == path[k].target_polygon,
        Shortener::pulled(path, i, hit, moved)[k].edge == path[k].edge,
        k != i + 1 ==> Shortener::pulled(path, i, hit, moved)[k] == path[k],
{
}

/// The rank of a polygon is at most the number of closed polygons, and
/// below it exactly for the closed ones, which stand at their rank.
pub proof fn lemma_rank_bounds(order: Seq<usize>, n: usize)
    ensures
        0 <= closing_rank(order, n) <= order.len(),
        closing_rank(order, n) < order.len() <==> order.contains(n),
        closing_rank(order, n) < order.len() ==> order[closing_rank(order, n)] == n,
    decreases order.len(),
{
    if order.len() > 0 {
        let front = order.drop_last();
        lemma_rank_bounds(front, n);
        let r = closing_rank(front, n);
        if r < front.len() {
            assert(order[r] == n);
        } else if order.last() == n {
            assert(order[order.len() - 1] == n);
        } else {
            if order.contains(n) {
                let i = choose|i: int| 0 <= i < order.len() && order[i] == n;
                assert(front[i] == n);
                assert(front.contains(n));
            }
        }
    }
}

/// Closing a polygon that is not closed keeps the state well-formed.
pub proof fn lemma_closing_keeps_wf(s: SearchView, c: usize)
    requires
        s.wf(),
        !s.closed.contains(c),
    ensures
        s.closing(c).wf(),
        closing_rank(s.closing(c).order, c) == s.order.len(),
{
    let after = s.closing(c);
    assert(after.order.drop_last() =~= s.order);
    lemma_rank_bounds(s.order, c);
    assert(after.closed =~= after.order.to_set()) by {
        assert forall|x: usize| after.closed.contains(x) <==> after.order.to_set().contains(x) by {
            if s.order.contains(x) {
                let i = choose|i: int| 0 <= i < s.order.len() && s.order[i] == x;
                assert(after.order[i] == x);
            }
            if x == c {
                assert(after.order[s.order.len() as int] == x);
            }
            if after.order.contains(x) {
                let i = choose|i: int| 0 <= i < after.order.len() && after.order[i] == x;
                if i < s.order.len() {
                    assert(s.order[i] == x);
                    assert(s.order.contains(x));
                }
            }
        }
    }
    assert forall|n: usize| #[trigger] after.backtraces.contains_key(n) implies {
        &&& after.backtraces[n].node == n
        &&& match after.backtraces[n].prev {
            Some(p) => after.backtraces.contains_key(p) && closing_rank(after.order, p)
                < after.order.len() && closing_rank(after.order, p) < closing_rank(
                after.order,
                n,
            ),
            None => true,
        }
    } by {
        lemma_rank_bounds(s.order, n);
        if let Some(p) = s.backtraces[n].prev {
            lemma_rank_bounds(s.order, p);
        }
    }
}

/// Looking at a link from the polygon closed last keeps the state
/// well-formed.
pub proof fn lemma_relaxed_keeps_wf(
    s: SearchView,
    current: Backtrace,
    id: usize,
    link: NavmeshLink,
    crossing: Crossing,
)
    requires
        s.wf(),
        s.backtraces.contains_key(current.node),
        s.order.len() > 0,
        s.order.last() == current.node,
    ensures
        s.relaxed(current, id, link, crossing).wf(),
        s.relaxed(current, id, link, crossing).backtraces.contains_key(current.node),
{
    let after = s.relaxed(current, id, link, crossing);
    if after != s {
        let found = Backtrace::over(id, link, crossing, current);
        lemma_rank_bounds(s.order, link.to);
        lemma_rank_bounds(s.order, current.node);
        assert(s.order.contains(current.node)) by {
            assert(s.order[s.order.len() - 1] == current.node);
        }
        assert(!s.order.contains(link.to)) by {
            if s.order.contains(link.to) {
                assert(s.order.to_set().contains(link.to));
            }
        }
        assert(s.backtraces[current.node].node == current.node);
        assert forall|n: usize| #[trigger] after.backtraces.contains_key(n) implies {
            &&& after.backtraces[n].node == n
            &&& match after.backtraces[n].prev {
                Some(p) => after.backtraces.contains_key(p) && closing_rank(after.order, p)
                    < after.order.len() && closing_rank(after.order, p) < closing_rank(
                    after.order,
                    n,
                ),
                None => true,
            }
        } by {
            if n != link.to {
                assert(s.backtraces.contains_key(n));
            }
        }
        assert forall|i: int| 0 <= i < after.open.len() implies after.backtraces.contains_key(
            (#[trigger] after.open[i]).node,
        ) by {
            if i < s.open.len() {
                assert(s.backtraces.contains_key(s.open[i].node));
            }
        }
    }
}

/// Looking at a link that leaves the polygon under expansion keeps every
/// record on the links of the mesh.
pub proof fn lemma_relaxed_follows(
    s: SearchView,
    links: Map<usize, NavmeshLink>,
    current: Backtrace,
    id: usize,
    crossing: Crossing,
)
    requires
        s.follows(links),
        links.contains_key(id),
        links[id].from == current.node,
    ensures
        s.relaxed(current, id, links[id], crossing).follows(links),
{
    let after = s.relaxed(current, id, links[id], crossing);
    assert forall|n: usize| #[trigger] after.backtraces.contains_key(n) implies match after.backtraces[n].portal {
        Some(i) => links.contains_key(i) && links[i].to == n && after.backtraces[n].prev == Some(
            links[i].from,
        ),
        None => after.backtraces[n].prev is None,
    } by {
        if after != s && n != links[id].to {
            assert(s.backtraces.contains_key(n));
        }
    }
}

/// The records from a polygon back to the start go over links of the mesh,
/// each from the polygon of the next record into the record's own; only the
/// last record, that of the start, came over no link.
pub proof fn lemma_chain_follows_links(
    s: SearchView,
    links: Map<usize, NavmeshLink>,
    node: usize,
    chain: Seq<Backtrace>,
    k: int,
)
    requires
        s.follows(links),
        is_chain(s.backtraces, node, chain),
        0 <= k < chain.len(),
    ensures
        k < chain.len() - 1 ==> chain[k].portal is Some && links.contains_key(chain[k].portal->0)
            && links[chain[k].portal->0].from == chain[k + 1].node && links[chain[k].portal->0].to
            == chain[k].node,
        k == chain.len() - 1 ==> chain[k].portal is None,
{
    assert(s.backtraces.contains_key(chain[k].node));
    if k < chain.len() - 1 {
        assert(chain[k].prev == Some(chain[k + 1].node));
    } else {
        assert(chain.last().prev is None);
    }
}

/// Every waypoint of a path that came over a link names a link of the mesh
/// that leads into the waypoint's polygon.
pub proof fn lemma_path_follows_links(
    s: SearchView,
    links: Map<usize, NavmeshLink>,
    end: Vec3,
    node: usize,
    chain: Seq<Backtrace>,
    gaps: Seq<Scalar>,
    n: int,
)
    requires
        s.follows(links),
        is_chain(s.backtraces, node, chain),
        gaps.len() == chain.len(),
        0 <= n < path_of(end, node, chain, gaps).len(),
    ensures
        match path_of(end, node, chain, gaps)[n].edge {
            Some(id) => links.contains_key(id) && links[id].to == path_of(
                end,
                node,
                chain,
                gaps,
            )[n].target_polygon,
            None => true,
        },
{
    let head = collapsed_from(chain, gaps, 1);
    if n < head.len() {
        lemma_collapsed_are_records(chain, gaps, 1, n);
        let k = choose|k: int| 1 <= k < chain.len() && head[n] == chain[k].waypoint();
        assert(s.backtraces.contains_key(chain[k].node));
    } else if n == head.len() {
        assert(s.backtraces.contains_key(chain[0].node));
    }
}

/// Every waypoint that is kept is the waypoint of one of the records.
pub proof fn lemma_collapsed_are_records(
    chain: Seq<Backtrace>,
    gaps: Seq<Scalar>,
    from: int,
    n: int,
)
    requires
        0 <= from,
        0 <= n < collapsed_from(chain, gaps, from).len(),
    ensures
        exists|k: int|
            from <= k < chain.len() && collapsed_from(chain, gaps, from)[n]
                == (#[trigger] chain[k]).waypoint(),
    decreases chain.len() - from,
{
    if from < chain.len() {
        let rest = collapsed_from(chain, gaps, from + 1);
        if n < rest.len() {
            lemma_collapsed_are_records(chain, gaps, from + 1, n);
            let k = choose|k: int|
                from + 1 <= k < chain.len() && rest[n] == (#[trigger] chain[k]).waypoint();
            assert(from <= k < chain.len() && collapsed_from(chain, gaps, from)[n]
                == chain[k].waypoint());
        } else {
            assert(collapsed_from(chain, gaps, from)[n] == chain[from].waypoint());
        }
    }
}

/// Looking at a link keeps the costs rising along the way, where the cost
/// at the crossing is not below the cost on record for the polygon under
/// expansion.
pub proof fn lemma_relaxed_costs_rise(
    s: SearchView,
    current: Backtrace,
    id: usize,
    link: NavmeshLink,
    crossing: Crossing,
)
    requires
        s.wf(),
        s.costs_rise(),
        s.backtraces.contains_key(current.node),
        s.closed.contains(current.node),
        s.backtraces[current.node].start_cost.less_eq(crossing.start_cost),
    ensures
        s.relaxed(current, id, link, crossing).costs_rise(),
        s.relaxed(current, id, link, crossing).backtraces[current.node] == s.backtraces[current.node],
{
    let after = s.relaxed(current, id, link, crossing);
    if after != s {
        assert(link.to != current.node);
        assert forall|n: usize| #[trigger]
            after.backtraces.contains_key(n) && after.backtraces[n].prev is Some
            implies after.backtraces[after.backtraces[n].prev->0].start_cost.less_eq(
            after.backtraces[n].start_cost,
        ) by {
            if n != link.to {
                assert(s.backtraces.contains_key(n));
                let p = s.backtraces[n].prev->0;
                lemma_rank_bounds(s.order, p);
                assert(s.order.to_set().contains(p));
                assert(p != link.to);
            }
        }
    }
}

/// Looking at all links of a polygon keeps the costs rising along the way,
/// where no cost at a crossing is below the cost on record for the polygon.
pub proof fn lemma_relaxed_all_costs_rise(
    s: SearchView,
    current: Backtrace,
    ids: Seq<usize>,
    links: Map<usize, NavmeshLink>,
    crossings: Seq<Crossing>,
)
    requires
        s.wf(),
        s.costs_rise(),
        ids.len() == crossings.len(),
        s.backtraces.contains_key(current.node),
        s.order.len() > 0,
        s.order.last() == current.node,
        forall|k: int|
            0 <= k < crossings.len() ==> s.backtraces[current.node].start_cost.less_eq(
                (#[trigger] crossings[k]).start_cost,
            ),
    ensures
        s.relaxed_all(current, ids, links, crossings).costs_rise(),
        s.relaxed_all(current, ids, links, crossings).wf(),
        s.relaxed_all(current, ids, links, crossings).order == s.order,
        s.relaxed_all(current, ids, links, crossings).closed == s.closed,
        s.relaxed_all(current, ids, links, crossings).backtraces.contains_key(current.node),
        s.relaxed_all(current, ids, links, crossings).backtraces[current.node]
            == s.backtraces[current.node],
    decreases ids.len(),
{
    if ids.len() > 0 {
        let front = crossings.drop_last();
        assert forall|k: int| 0 <= k < front.len() implies s.backtraces[current.node].start_cost.less_eq(
        (#[trigger] front[k]).start_cost) by {
            assert(front[k] == crossings[k]);
        }
        lemma_relaxed_all_costs_rise(s, current, ids.drop_last(), links, front);
        let mid = s.relaxed_all(current, ids.drop_last(), links, front);
        assert(mid.closed.contains(current.node)) by {
            assert(mid.order[mid.order.len() - 1] == current.node);
            assert(mid.order.to_set().contains(current.node));
        }
        assert(crossings[crossings.len() - 1] == crossings.last());
        lemma_relaxed_keeps_wf(mid, current, ids.last(), links[ids.last()], crossings.last());
        lemma_relaxed_costs_rise(mid, current, ids.last(), links[ids.last()], crossings.last());
    }
}

/// Along the records from a polygon back to the start the cost from the
/// start never rises: each record costs at least as much as the next, which
/// is the record it came from.
pub proof fn lemma_costs_rise_along_chain(s: SearchView, node: usize, chain: Seq<Backtrace>, k: int)
    requires
        s.costs_rise(),
        is_chain(s.backtraces, node, chain),
        0 <= k < chain.len() - 1,
    ensures
        chain[k + 1].start_cost.less_eq(chain[k].start_cost),
{
    assert(s.backtraces.contains_key(chain[k].node));
    assert(chain[k].prev == Some(chain[k + 1].node));
    assert(s.backtraces[chain[k + 1].node] == chain[k + 1]);
}

/// Taking the cheapest record keeps the open list in step with the records,
/// and the record taken is the one on record for its polygon, unless the
/// polygon is done or a record of it was taken before.
pub proof fn lemma_taken_settled(s: SearchView, end_node: usize)
    requires
        s.wf(),
        s.settled(),
        s.open.len() > 0,
    ensures
        s.taken(end_node).0.settled(),
        !s.closed.contains(s.open[cheapest(s.open)].node) && !s.pending.contains(
            s.open[cheapest(s.open)].node,
        ) ==> s.open[cheapest(s.open)] == s.backtraces[s.open[cheapest(s.open)].node],
{
    let i = cheapest(s.open);
    lemma_cheapest_is_least(s.open, 0);
    let current = s.open[i];
    let after = s.taken(end_node).0;
    assert forall|j: int| 0 <= j < after.open.len() implies !(#[trigger] after.open[j]).total_cost.nan()
        && (!after.closed.contains(after.open[j].node) ==> after.open[j]
        == after.backtraces[after.open[j].node]
        || after.backtraces[after.open[j].node].total_cost.less(after.open[j].total_cost)) by {
        if j < i {
            assert(after.open[j] == s.open[j]);
        } else {
            assert(after.open[j] == s.open[j + 1]);
        }
    }
    assert forall|n: usize| #[trigger]
        after.backtraces.contains_key(n) && !after.closed.contains(n) && !after.pending.contains(
            n,
        ) implies after.open.contains(after.backtraces[n]) by {
        assert(s.open.contains(s.backtraces[n]));
        let j = choose|j: int| 0 <= j < s.open.len() && s.open[j] == s.backtraces[n];
        assert(s.backtraces[n].node == n);
        if j < i {
            assert(after.open[j] == s.backtraces[n]);
        } else if j > i {
            assert(after.open[j - 1] == s.backtraces[n]);
        } else {
            assert(current.node == n);
            assert(false);
        }
    }
    if !s.closed.contains(current.node) && !s.pending.contains(current.node) {
        assert(s.backtraces.contains_key(current.node));
        assert(s.open.contains(s.backtraces[current.node]));
        let j = choose|j: int| 0 <= j < s.open.len() && s.open[j] == s.backtraces[current.node];
        lemma_cheapest_is_least(s.open, j);
    }
}

/// Looking at a link keeps the open list in step with the records, where
/// the estimate at the crossing is not NaN.
pub proof fn lemma_relaxed_settled(
    s: SearchView,
    current: Backtrace,
    id: usize,
    link: NavmeshLink,
    crossing: Crossing,
)
    requires
        s.wf(),
        s.settled(),
        !crossing.total_cost.nan(),
    ensures
        s.relaxed(current, id, link, crossing).settled(),
{
    let after = s.relaxed(current, id, link, crossing);
    if after != s {
        let found = Backtrace::over(id, link, crossing, current);
        let n = link.to;
        assert forall|i: int| 0 <= i < after.open.len() implies !(#[trigger] after.open[i]).total_cost.nan()
            && (!after.closed.contains(after.open[i].node) ==> after.open[i]
            == after.backtraces[after.open[i].node]
            || after.backtraces[after.open[i].node].total_cost.less(after.open[i].total_cost)) by {
            if i < s.open.len() {
                assert(after.open[i] == s.open[i]);
                assert(s.backtraces.contains_key(s.open[i].node));
            }
        }
        assert forall|m: usize| #[trigger]
            after.backtraces.contains_key(m) && !after.closed.contains(m)
                && !after.pending.contains(m) implies after.open.contains(after.backtraces[m]) by {
            if m == n {
                assert(after.open[s.open.len() as int] == found);
            } else {
                assert(s.open.contains(s.backtraces[m]));
                let j = choose|j: int| 0 <= j < s.open.len() && s.open[j] == s.backtraces[m];
                assert(after.open[j] == s.backtraces[m]);
            }
        }
    }
}

/// Looking at all links of a polygon keeps the open list in step with the
/// records, where no estimate at a crossing is NaN.
pub proof fn lemma_relaxed_all_settled(
    s: SearchView,
    current: Backtrace,
    ids: Seq<usize>,
    links: Map<usize, NavmeshLink>,
    crossings: Seq<Crossing>,
)
    requires
        s.wf(),
        s.settled(),
        ids.len() == crossings.len(),
        s.backtraces.contains_key(current.node),
        s.order.len() > 0,
        s.order.last() == current.node,
        forall|k: int| 0 <= k < crossings.len() ==> !(#[trigger] crossings[k]).total_cost.nan(),
    ensures
        s.relaxed_all(current, ids, links, crossings).settled(),
        s.relaxed_all(current, ids, links, crossings).wf(),
        s.relaxed_all(current, ids, links, crossings).order == s.order,
        s.relaxed_all(current, ids, links, crossings).backtraces.contains_key(current.node),
    decreases ids.len(),
{
    if ids.len() > 0 {
        let front = crossings.drop_last();
        assert forall|k: int| 0 <= k < front.len() implies !(#[trigger] front[k]).total_cost.nan() by {
            assert(front[k] == crossings[k]);
        }
        lemma_relaxed_all_settled(s, current, ids.drop_last(), links, front);
        let mid = s.relaxed_all(current, ids.drop_last(), links, front);
        assert(crossings[crossings.len() - 1] == crossings.last());
        lemma_relaxed_keeps_wf(mid, current, ids.last(), links[ids.last()], crossings.last());
        lemma_relaxed_settled(mid, current, ids.last(), links[ids.last()], crossings.last());
    }
}

/// Where no cost is NaN, no open record is cheaper than the one that is
/// taken next.
pub proof fn lemma_cheapest_is_least(open: Seq<Backtrace>, j: int)
    requires
        0 <= j < open.len(),
        forall|i: int| 0 <= i < open.len() ==> !(#[trigger] open[i]).total_cost.nan(),
    ensures
        0 <= cheapest(open) < open.len(),
        !open[j].total_cost.less(open[cheapest(open)].total_cost),
    decreases open.len(),
{
    if open.len() > 1 {
        let front = open.drop_last();
        assert forall|i: int| 0 <= i < front.len() implies !(#[trigger] front[i]).total_cost.nan() by {
            assert(front[i] == open[i]);
        }
        if j < front.len() {
            lemma_cheapest_is_least(front, j);
        } else {
            lemma_cheapest_is_least(front, 0);
        }
    }
}

} // verus!

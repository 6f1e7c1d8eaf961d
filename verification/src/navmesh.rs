//! Navigation meshes: the walkable polygons of a surface and the links by
//! which an agent gets from one to the next.
use crate::arena::{
    face_slab_get, face_slab_insert, face_slab_keys, face_slab_new, faces_of, is_key_order,
    key_order, lemma_key_order_is, link_slab_clear, link_slab_insert, link_slab_new, links_of,
};
use crate::brush::Face;
use crate::edge::Edge3D;
use crate::edgelist::PolygonEdge;
use crate::link::{LinkKind, NavmeshLink};
use crate::scalar::Scalar;
use crate::span::Span;
use crate::util::{tolerance, tolerance_spec};
use slab::Slab;
use std::collections::BTreeMap;
use vstd::prelude::*;

verus! {

/// The encoding of 0.7, the step height of the default settings.
pub const DEFAULT_STEP_HEIGHT_BITS: u32 = 0x3f33_3333;

/// The encoding of 0.707, the slope cosine of the default settings.
pub const DEFAULT_SLOPE_COSINE_BITS: u32 = 0x3f34_fdf4;

/// The encoding of 0.2, the agent radius of the default settings.
pub const DEFAULT_AGENT_RADIUS_BITS: u32 = 0x3e4c_cccd;

/// What an agent can do: the height it steps up or down, the cosine of the
/// steepest slope it stands on, and the room it needs around it.
#[derive(Clone, Copy, Debug, PartialEq, Eq, Structural)]
pub struct NavmeshSettings {
    pub max_step_height: Scalar,
    pub max_slope_cosine: Scalar,
    pub agent_radius: Scalar,
}

/// Step height 0.7, slope cosine 0.707, agent radius 0.2.
pub open spec fn default_settings() -> NavmeshSettings {
    NavmeshSettings {
        max_step_height: Scalar { bits: DEFAULT_STEP_HEIGHT_BITS },
        max_slope_cosine: Scalar { bits: DEFAULT_SLOPE_COSINE_BITS },
        agent_radius: Scalar { bits: DEFAULT_AGENT_RADIUS_BITS },
    }
}

impl NavmeshSettings {
    pub fn new() -> (s: NavmeshSettings)
        ensures
            s == default_settings(),
    {
        NavmeshSettings {
            max_step_height: Scalar::from_bits(DEFAULT_STEP_HEIGHT_BITS),
            max_slope_cosine: Scalar::from_bits(DEFAULT_SLOPE_COSINE_BITS),
            agent_radius: Scalar::from_bits(DEFAULT_AGENT_RADIUS_BITS),
        }
    }
}

impl Default for NavmeshSettings {
    fn default() -> (s: NavmeshSettings)
        ensures
            s == default_settings(),
    {
        NavmeshSettings::new()
    }
}

/// Whether a face whose normal has the upward coordinate `slope` can be
/// stood on.
pub open spec fn is_walkable(slope: Scalar, settings: NavmeshSettings) -> bool {
    settings.max_slope_cosine.less(slope)
}

/// The faces of `surface` that can be stood on, in their order. `slopes[k]`
/// is the upward coordinate of the normal of `surface[k]`.
pub open spec fn walkable(
    surface: Seq<Face>,
    slopes: Seq<Scalar>,
    settings: NavmeshSettings,
) -> Seq<Face>
    recommends
        surface.len() == slopes.len(),
    decreases surface.len(),
{
    if surface.len() == 0 {
        Seq::empty()
    } else {
        let rest = walkable(surface.drop_last(), slopes.drop_last(), settings);
        if is_walkable(slopes.last(), settings) {
            rest.push(surface.last())
        } else {
            rest
        }
    }
}

/// The lists of link keys as sequences.
pub open spec fn listing(map: Map<usize, Vec<usize>>) -> Map<usize, Seq<usize>> {
    map.map_values(|v: Vec<usize>| v@)
}

/// The lists with `id` added at the end of the list of `polygon`.
pub open spec fn appended(
    by: Map<usize, Seq<usize>>,
    polygon: usize,
    id: usize,
) -> Map<usize, Seq<usize>> {
    by.insert(
        polygon,
        if by.contains_key(polygon) {
            by[polygon].push(id)
        } else {
            seq![id]
        },
    )
}

/// Every key in the list of a polygon is the key of a link that leaves that
/// polygon.
pub open spec fn lists_own_links(
    links: Map<usize, NavmeshLink>,
    by: Map<usize, Seq<usize>>,
) -> bool {
    forall|p: usize, i: int|
        #![trigger by[p][i]]
        by.contains_key(p) && 0 <= i < by[p].len() ==> links.contains_key(by[p][i])
            && links[by[p][i]].from == p
}

/// Every link is in the list of the polygon it leaves.
pub open spec fn every_link_listed(
    links: Map<usize, NavmeshLink>,
    by: Map<usize, Seq<usize>>,
) -> bool {
    forall|id: usize| #[trigger]
        links.contains_key(id) ==> by.contains_key(links[id].from) && by[links[id].from].contains(
            id,
        )
}

/// The link under `id` is stored the other way round too.
pub open spec fn has_reverse(links: Map<usize, NavmeshLink>, id: usize) -> bool {
    exists|rid: usize| #[trigger] links.contains_key(rid) && links[rid] == links[id].reversed()
}

/// Every link is stored the other way round too.
pub open spec fn every_link_reversed(links: Map<usize, NavmeshLink>) -> bool {
    forall|id: usize| #[trigger] links.contains_key(id) ==> has_reverse(links, id)
}

/// Every link joins two polygons of the mesh.
pub open spec fn links_join_polygons(
    links: Map<usize, NavmeshLink>,
    polygons: Map<usize, Face>,
) -> bool {
    forall|id: usize| #[trigger]
        links.contains_key(id) ==> polygons.contains_key(links[id].from) && polygons.contains_key(
            links[id].to,
        )
}

/// What the caller has measured of one polygon for a point: the three edge
/// terms that `Face::contains_point` asks for, and the signed distance of
/// the point from the polygon's plane.
#[derive(Clone, Copy, Debug, PartialEq, Eq, Structural)]
pub struct Probe {
    pub ab: Scalar,
    pub bc: Scalar,
    pub ca: Scalar,
    pub distance: Scalar,
}

impl Probe {
    /// The point is above or below the polygon.
    pub open spec fn inside(self) -> bool {
        Face::inside(self.ab, self.bc, self.ca)
    }

    /// This polygon is closer to the point than the one that `other` was
    /// measured of: its plane is nearer, or as near with the smaller signed
    /// distance. A distance that is NaN counts as the furthest.
    pub open spec fn closer_than(self, other: Probe) -> bool {
        let mine = self.distance.absolute().rank();
        let theirs = other.distance.absolute().rank();
        mine < theirs || (mine == theirs && self.distance.rank() < other.distance.rank())
    }

    pub fn is_inside(&self) -> (r: bool)
        ensures
            r == self.inside(),
    {
        Face::contains_point(self.ab, self.bc, self.ca)
    }

    pub fn is_closer_than(&self, other: &Probe) -> (r: bool)
        ensures
            r == self.closer_than(*other),
    {
        let mine = self.distance.abs();
        let theirs = other.distance.abs();
        mine.ranks_before(theirs) || (!theirs.ranks_before(mine) && self.distance.ranks_before(
            other.distance,
        ))
    }
}

/// `best` is the polygon that the probes choose: the point is inside it, no
/// polygon that the point is inside is closer, and of those as close it
/// comes first.
pub open spec fn is_closest(probes: Seq<Probe>, best: int) -> bool {
    &&& 0 <= best < probes.len()
    &&& probes[best].inside()
    &&& forall|j: int|
        0 <= j < probes.len() && (#[trigger] probes[j]).inside() ==> !probes[j].closer_than(
            probes[best],
        )
    &&& forall|j: int|
        0 <= j < best && (#[trigger] probes[j]).inside() ==> probes[best].closer_than(probes[j])
}

/// What the caller has measured of a pair of edges in one upright plane,
/// one filed under `back` and one under `front`. In the plane each edge lies
/// on a line `height = m * x + c`; `delta_m` and `delta_c` are the front
/// edge's `m` and `c` less the back edge's. `walk_x` is where the two lines
/// cross, `step_up_x` where the front line is the step height above the back
/// line, `step_down_x` where it is the step height below.
#[derive(Clone, Copy, Debug, PartialEq, Eq, Structural)]
pub struct PairMeasure {
    pub back_interval: Span,
    pub front_interval: Span,
    pub delta_m: Scalar,
    pub delta_c: Scalar,
    pub walk_x: Scalar,
    pub step_up_x: Scalar,
    pub step_down_x: Scalar,
}

/// Which polygon a planned link leaves and which edges it gets. The back
/// line is the line of the edge filed under `back`, the front line that of
/// the edge filed under `front`.
#[derive(Clone, Copy, Debug, PartialEq, Eq, Structural)]
pub enum LinkShape {
    /// A step from the front polygon to the back polygon that leaves by the
    /// back line and arrives by the front line.
    FrontToBackOverBack,
    /// A step from the front polygon to the back polygon that leaves by the
    /// front line and arrives by the back line.
    FrontToBackOverFront,
    /// A step from the back polygon to the front polygon that leaves by the
    /// back line and arrives by the front line.
    BackToFront,
    /// A walk from the front polygon to the back polygon over the back line.
    Level,
}

/// A link to make: its shape, and the stretch of the plane's horizontal
/// axis that its edges cover.
#[derive(Clone, Copy, Debug, PartialEq, Eq, Structural)]
pub struct PlannedLink {
    pub span: Span,
    pub shape: LinkShape,
}

impl PlannedLink {
    /// The link between the two polygons. `back_line` and `front_line` are
    /// the stretches of the two lines over `span`.
    pub open spec fn link_spec(
        self,
        front_polygon: usize,
        back_polygon: usize,
        back_line: Edge3D,
        front_line: Edge3D,
    ) -> NavmeshLink {
        match self.shape {
            LinkShape::FrontToBackOverBack => NavmeshLink {
                from: front_polygon,
                to: back_polygon,
                kind: LinkKind::StepUp(back_line, front_line),
            },
            LinkShape::FrontToBackOverFront => NavmeshLink {
                from: front_polygon,
                to: back_polygon,
                kind: LinkKind::StepUp(front_line, back_line),
            },
            LinkShape::BackToFront => NavmeshLink {
                from: back_polygon,
                to: front_polygon,
                kind: LinkKind::StepUp(back_line, front_line),
            },
            LinkShape::Level => NavmeshLink {
                from: front_polygon,
                to: back_polygon,
                kind: LinkKind::Walk(back_line),
            },
        }
    }

    pub fn link(
        &self,
        front_polygon: usize,
        back_polygon: usize,
        back_line: Edge3D,
        front_line: Edge3D,
    ) -> (l: NavmeshLink)
        ensures
            l == self.link_spec(front_polygon, back_polygon, back_line, front_line),
    {
        match self.shape {
            LinkShape::FrontToBackOverBack => NavmeshLink::new(
                front_polygon,
                back_polygon,
                LinkKind::StepUp(back_line, front_line),
            ),
            LinkShape::FrontToBackOverFront => NavmeshLink::new(
                front_polygon,
                back_polygon,
                LinkKind::StepUp(front_line, back_line),
            ),
            LinkShape::BackToFront => NavmeshLink::new(
                back_polygon,
                front_polygon,
                LinkKind::StepUp(back_line, front_line),
            ),
            LinkShape::Level => NavmeshLink::new(
                front_polygon,
                back_polygon,
                LinkKind::Walk(back_line),
            ),
        }
    }
}

/// The stretch between two coordinates, cut down to `overlap`.
pub open spec fn reach(a: Scalar, b: Scalar, overlap: Span) -> Span {
    (Span { min: a.smaller(b), max: a.larger(b) }).overlap(overlap)
}

/// `span` with `shape`, or nothing where the span is empty.
pub open spec fn planned_over(span: Span, shape: LinkShape) -> Seq<PlannedLink> {
    if span.empty_spec() {
        Seq::empty()
    } else {
        seq![PlannedLink { span, shape }]
    }
}

/// The links that a pair of edges gives for the step height `height`.
///
/// Nothing where the edges do not overlap along the plane. Where their
/// lines are not parallel, a step down over the stretch between the crossing
/// and the place where the front line is `height` lower, and a step up over
/// the stretch to where it is `height` higher, each as far as both edges
/// reach. Where the lines are parallel and less than `height` apart, one
/// link over the overlap: a step up to the front line where that is higher
/// by more than the tolerance, a step up to the back line where that is, a
/// walk where neither is.
pub open spec fn planned(m: PairMeasure, height: Scalar) -> Seq<PlannedLink> {
    let overlap = m.back_interval.overlap(m.front_interval);
    if overlap.empty_spec() {
        Seq::empty()
    } else if tolerance_spec().less(m.delta_m.absolute()) {
        planned_over(reach(m.walk_x, m.step_down_x, overlap), LinkShape::FrontToBackOverBack)
            + planned_over(
            reach(m.walk_x, m.step_up_x, overlap),
            LinkShape::FrontToBackOverFront,
        )
    } else if m.delta_c.absolute().less(height) {
        if tolerance_spec().less(m.delta_c) {
            seq![PlannedLink { span: overlap, shape: LinkShape::BackToFront }]
        } else if m.delta_c.less(tolerance_spec().negated()) {
            seq![PlannedLink { span: overlap, shape: LinkShape::FrontToBackOverFront }]
        } else {
            seq![PlannedLink { span: overlap, shape: LinkShape::Level }]
        }
    } else {
        Seq::empty()
    }
}

/// The polygons of a surface that an agent can stand on, and the links
/// between them.
pub struct Navmesh {
    polygons: Slab<Face>,
    polygon_links: BTreeMap<usize, Vec<usize>>,
    links: Slab<NavmeshLink>,
    settings: NavmeshSettings,
}

impl Navmesh {
    /// The polygons, each under its key.
    pub closed spec fn polygon_map(&self) -> Map<usize, Face> {
        faces_of(self.polygons)
    }

    /// The links, each under its key.
    pub closed spec fn link_map(&self) -> Map<usize, NavmeshLink> {
        links_of(self.links)
    }

    /// For each polygon that a link leaves, the keys of those links.
    pub closed spec fn links_by_polygon(&self) -> Map<usize, Seq<usize>> {
        listing(self.polygon_links@)
    }

    pub closed spec fn settings_spec(&self) -> NavmeshSettings {
        self.settings
    }

    /// The links and their lists agree, every link has its reverse, and
    /// every link joins polygons of the mesh.
    pub open spec fn wf(&self) -> bool {
        &&& lists_own_links(self.link_map(), self.links_by_polygon())
        &&& every_link_listed(self.link_map(), self.links_by_polygon())
        &&& every_link_reversed(self.link_map())
        &&& links_join_polygons(self.link_map(), self.polygon_map())
    }

    /// The mesh of the walkable faces of `surface`, with no links yet.
    /// `slopes[k]` is the upward coordinate of the normal of `surface[k]`.
    /// Every walkable face becomes a polygon under a key of its own.
    pub fn new(settings: NavmeshSettings, surface: &Vec<Face>, slopes: &Vec<Scalar>) -> (nav:
        Navmesh)
        requires
            surface.len() == slopes.len(),
        ensures
            nav.wf(),
            nav.settings_spec() == settings,
            nav.link_map() == Map::<usize, NavmeshLink>::empty(),
            nav.links_by_polygon() == Map::<usize, Seq<usize>>::empty(),
            exists|keys: Seq<usize>| #[trigger]
                holds_in_order(nav.polygon_map(), keys, walkable(surface@, slopes@, settings)),
    {
        let mut polygons = face_slab_new();
        let ghost mut keys: Seq<usize> = Seq::empty();
        let mut k: usize = 0;
        proof {
            assert(faces_of(polygons).dom() =~= keys.to_set());
            assert(surface@.take(0) =~= Seq::<Face>::empty());
        }
        while k < surface.len()
            invariant
                k <= surface.len(),
                surface.len() == slopes.len(),
                holds_in_order(
                    faces_of(polygons),
                    keys,
                    walkable(surface@.take(k as int), slopes@.take(k as int), settings),
                ),
            decreases surface.len() - k,
        {
            let ghost done = walkable(surface@.take(k as int), slopes@.take(k as int), settings);
            proof {
                assert(surface@.take(k + 1).drop_last() =~= surface@.take(k as int));
                assert(slopes@.take(k + 1).drop_last() =~= slopes@.take(k as int));
            }
            if slopes[k].gt(settings.max_slope_cosine) {
                let ghost before = faces_of(polygons);
                let key = face_slab_insert(&mut polygons, surface[k]);
                proof {
                    let grown = keys.push(key);
                    assert forall|i: int, j: int| 0 <= i < j < grown.len() implies grown[i]
                        != grown[j] by {
                        if j == keys.len() {
                            assert(before.contains_key(keys[i]));
                        }
                    }
                    assert(faces_of(polygons).dom() =~= grown.to_set()) by {
                        assert forall|x: usize| grown.to_set().contains(x) <==> faces_of(
                            polygons,
                        ).dom().contains(x) by {
                            if grown.contains(x) {
                                let i = choose|i: int| 0 <= i < grown.len() && grown[i] == x;
                                if i < keys.len() {
                                    assert(keys.contains(x));
                                }
                            }
                            if before.contains_key(x) {
                                assert(keys.to_set().contains(x));
                                let i = choose|i: int| 0 <= i < keys.len() && keys[i] == x;
                                assert(grown[i] == x);
                            }
                            if x == key {
                                assert(grown[keys.len() as int] == x);
                            }
                        }
                    }
                    keys = grown;
                }
            }
            k += 1;
        }
        proof {
            assert(surface@.take(k as int) =~= surface@);
            assert(slopes@.take(k as int) =~= slopes@);
        }
        let nav = Navmesh {
            polygons,
            polygon_links: BTreeMap::new(),
            links: link_slab_new(),
            settings,
        };
        proof {
            assert(nav.link_map() =~= Map::<usize, NavmeshLink>::empty());
            assert(nav.links_by_polygon() =~= Map::<usize, Seq<usize>>::empty());
            assert(holds_in_order(nav.polygon_map(), keys, walkable(surface@, slopes@, settings)));
        }
        nav
    }

    pub fn settings(&self) -> (s: &NavmeshSettings)
        ensures
            *s == self.settings_spec(),
    {
        &self.settings
    }

    pub fn polygons(&self) -> (polygons: &Slab<Face>)
        ensures
            faces_of(*polygons) == self.polygon_map(),
    {
        &self.polygons
    }

    pub fn links(&self) -> (links: &Slab<NavmeshLink>)
        ensures
            links_of(*links) == self.link_map(),
    {
        &self.links
    }

    pub fn polygon_links(&self) -> (lists: &BTreeMap<usize, Vec<usize>>)
        ensures
            listing(lists@) == self.links_by_polygon(),
    {
        &self.polygon_links
    }

    /// The keys of the polygons, smallest first: the order in which the
    /// measurements of the polygons are handed in.
    pub fn polygon_ids(&self) -> (ids: Vec<usize>)
        ensures
            ids@ == key_order(self.polygon_map()),
            is_key_order(self.polygon_map(), ids@),
    {
        let ids = face_slab_keys(&self.polygons);
        proof {
            lemma_key_order_is(self.polygon_map(), ids@);
        }
        ids
    }

    /// The sides of all polygons: the polygons in the order of their keys,
    /// the three sides of each in the order of its winding.
    pub fn polygon_edges(&self) -> (edges: Vec<PolygonEdge>)
        ensures
            edges@ == sides_of(
                self.polygon_map(),
                key_order(self.polygon_map()),
                key_order(self.polygon_map()).len() as int,
            ),
    {
        let ids = self.polygon_ids();
        let mut edges: Vec<PolygonEdge> = Vec::new();
        let mut k: usize = 0;
        while k < ids.len()
            invariant
                k <= ids.len(),
                is_key_order(self.polygon_map(), ids@),
                edges@ == sides_of(self.polygon_map(), ids@, k as int),
            decreases ids.len() - k,
        {
            let id = ids[k];
            assert(ids@.contains(id));
            match face_slab_get(&self.polygons, id) {
                Some(face) => {
                    edges.push(PolygonEdge::new(id, face.p1, face.p2));
                    edges.push(PolygonEdge::new(id, face.p2, face.p3));
                    edges.push(PolygonEdge::new(id, face.p3, face.p1));
                    assert(edges@ =~= sides_of(self.polygon_map(), ids@, k + 1));
                },
                None => vstd::pervasive::unreached(),
            }
            k += 1;
        }
        edges
    }

    /// The polygon under `id`, if there is one.
    pub fn polygon(&self, id: usize) -> (face: Option<Face>)
        ensures
            match face {
                Some(f) => self.polygon_map().contains_key(id) && f == self.polygon_map()[id],
                None => !self.polygon_map().contains_key(id),
            },
    {
        face_slab_get(&self.polygons, id)
    }

    /// Takes all links out of the mesh.
    pub fn clear_links(&mut self)
        ensures
            final(self).wf(),
            final(self).polygon_map() == old(self).polygon_map(),
            final(self).settings_spec() == old(self).settings_spec(),
            final(self).link_map() == Map::<usize, NavmeshLink>::empty(),
            final(self).links_by_polygon() == Map::<usize, Seq<usize>>::empty(),
    {
        self.polygon_links.clear();
        link_slab_clear(&mut self.links);
        proof {
            assert(self.link_map() =~= Map::<usize, NavmeshLink>::empty());
            assert(self.links_by_polygon() =~= Map::<usize, Seq<usize>>::empty());
        }
    }

    /// Stores a link and its reverse, and enters each in the list of the
    /// polygon it leaves. Returns the key of the link and that of its
    /// reverse.
    pub fn create_link(&mut self, link: NavmeshLink) -> (ids: (usize, usize))
        requires
            old(self).wf(),
            old(self).polygon_map().contains_key(link.from),
            old(self).polygon_map().contains_key(link.to),
        ensures
            final(self).wf(),
            final(self).polygon_map() == old(self).polygon_map(),
            final(self).settings_spec() == old(self).settings_spec(),
            ids.0 != ids.1,
            !old(self).link_map().contains_key(ids.0),
            !old(self).link_map().contains_key(ids.1),
            final(self).link_map() == old(self).link_map().insert(ids.0, link).insert(
                ids.1,
                link.reversed(),
            ),
            final(self).links_by_polygon() == appended(
                appended(old(self).links_by_polygon(), link.from, ids.0),
                link.to,
                ids.1,
            ),
    {
        let ghost links0 = self.link_map();
        let ghost by0 = self.links_by_polygon();
        let forward = link_slab_insert(&mut self.links, link);
        push_link(&mut self.polygon_links, link.from(), forward);
        let backward = link_slab_insert(&mut self.links, link.reverse());
        push_link(&mut self.polygon_links, link.to(), backward);
        proof {
            let links2 = self.link_map();
            let by1 = appended(by0, link.from, forward);
            let by2 = self.links_by_polygon();
            assert(by2 == appended(by1, link.to, backward));
            assert(links2 == links0.insert(forward, link).insert(backward, link.reversed()));
            assert(lists_own_links(links2, by2)) by {
                assert forall|p: usize, i: int|
                    #![trigger by2[p][i]]
                    by2.contains_key(p) && 0 <= i < by2[p].len() implies links2.contains_key(
                    by2[p][i],
                ) && links2[by2[p][i]].from == p by {
                    if p == link.to && i == by2[p].len() - 1 {
                    } else {
                        if p == link.to {
                            assert(by1.contains_key(p));
                            assert(by2[p][i] == by1[p][i]);
                        } else {
                            assert(by2[p] == by1[p]);
                        }
                        if p == link.from && i == by1[p].len() - 1 {
                        } else {
                            if p == link.from {
                                assert(by0.contains_key(p));
                                assert(by1[p][i] == by0[p][i]);
                            } else {
                                assert(by1[p] == by0[p]);
                            }
                            assert(links0.contains_key(by0[p][i]));
                        }
                    }
                }
            }
            assert(every_link_listed(links2, by2)) by {
                assert forall|id: usize| #[trigger] links2.contains_key(id) implies by2.contains_key(
                    links2[id].from,
                ) && by2[links2[id].from].contains(id) by {
                    lemma_appended_keeps(by1, link.to, backward);
                    lemma_appended_keeps(by0, link.from, forward);
                    if id == backward {
                    } else if id == forward {
                        assert(by1[link.from].contains(forward));
                    } else {
                        assert(links0.contains_key(id));
                        assert(by0[links0[id].from].contains(id));
                    }
                }
            }
            assert(every_link_reversed(links2)) by {
                assert forall|id: usize| #[trigger] links2.contains_key(id) implies has_reverse(
                    links2,
                    id,
                ) by {
                    if id == backward {
                        assert(links2.contains_key(forward) && links2[forward]
                            == links2[id].reversed());
                    } else if id == forward {
                        assert(links2.contains_key(backward) && links2[backward]
                            == links2[id].reversed());
                    } else {
                        assert(has_reverse(links0, id));
                        let rid = choose|rid: usize| #[trigger]
                            links0.contains_key(rid) && links0[rid] == links0[id].reversed();
                        assert(links2.contains_key(rid) && links2[rid] == links2[id].reversed());
                    }
                }
            }
        }
        (forward, backward)
    }

    /// The polygons that can be stood on, with their keys, in the order of
    /// the keys. `slopes[k]` is the upward coordinate of the normal of the
    /// polygon under the `k`th key.
    pub fn walkable_polygons(&self, slopes: &Vec<Scalar>) -> (found: Vec<(usize, Face)>)
        requires
            slopes.len() == key_order(self.polygon_map()).len(),
        ensures
            found@ == walkable_entries(
                self.polygon_map(),
                key_order(self.polygon_map()),
                slopes@,
                self.settings_spec(),
            ),
    {
        let ids = self.polygon_ids();
        let mut found: Vec<(usize, Face)> = Vec::new();
        let mut k: usize = 0;
        while k < ids.len()
            invariant
                k <= ids.len(),
                ids.len() == slopes.len(),
                is_key_order(self.polygon_map(), ids@),
                found@ == walkable_entries(
                    self.polygon_map(),
                    ids@.take(k as int),
                    slopes@.take(k as int),
                    self.settings_spec(),
                ),
            decreases ids.len() - k,
        {
            proof {
                assert(ids@.take(k + 1).drop_last() =~= ids@.take(k as int));
                assert(slopes@.take(k + 1).drop_last() =~= slopes@.take(k as int));
                assert(ids@.contains(ids@[k as int]));
            }
            if slopes[k].gt(self.settings.max_slope_cosine) {
                match face_slab_get(&self.polygons, ids[k]) {
                    Some(face) => found.push((ids[k], face)),
                    None => vstd::pervasive::unreached(),
                }
            }
            k += 1;
        }
        proof {
            assert(ids@.take(k as int) =~= ids@);
            assert(slopes@.take(k as int) =~= slopes@);
        }
        found
    }

    /// The polygon that a point is above or below and closest to, if it is
    /// above or below any. `probes[k]` is what was measured for the point
    /// of the polygon under the `k`th key.
    pub fn closest_polygon(&self, probes: &Vec<Probe>) -> (found: Option<(usize, Face)>)
        requires
            probes.len() == key_order(self.polygon_map()).len(),
        ensures
            match found {
                Some(pair) => exists|best: int| #[trigger]
                    is_closest(probes@, best) && pair.0 == key_order(self.polygon_map())[best]
                        && self.polygon_map().contains_key(pair.0) && pair.1
                        == self.polygon_map()[pair.0],
                None => forall|j: int| 0 <= j < probes.len() ==> !(#[trigger] probes[j]).inside(),
            },
    {
        let ids = self.polygon_ids();
        let mut best: usize = 0;
        let mut any = false;
        let mut k: usize = 0;
        while k < ids.len()
            invariant
                k <= ids.len(),
                ids.len() == probes.len(),
                !any ==> forall|j: int| 0 <= j < k ==> !(#[trigger] probes[j]).inside(),
                any ==> is_closest(probes@.take(k as int), best as int),
            decreases ids.len() - k,
        {
            let ghost seen = probes@.take(k as int);
            let ghost next = probes@.take(k + 1);
            if probes[k].is_inside() {
                if !any {
                    best = k;
                    any = true;
                    assert(is_closest(next, best as int));
                } else if probes[k].is_closer_than(&probes[best]) {
                    proof {
                        assert forall|j: int|
                            0 <= j < next.len() && (#[trigger] next[j]).inside() implies !next[j].closer_than(
                        next[k as int]) by {
                            if j < k {
                                assert(seen[j].inside());
                                assert(!seen[j].closer_than(seen[best as int]));
                            }
                        }
                        assert forall|j: int|
                            0 <= j < k && (#[trigger] next[j]).inside() implies next[k as int].closer_than(
                        next[j]) by {
                            assert(seen[j].inside());
                            assert(!seen[j].closer_than(seen[best as int]));
                        }
                    }
                    best = k;
                    assert(is_closest(next, best as int));
                } else {
                    proof {
                        assert forall|j: int|
                            0 <= j < next.len() && (#[trigger] next[j]).inside() implies !next[j].closer_than(
                        next[best as int]) by {
                            if j < k {
                                assert(seen[j].inside());
                            }
                        }
                        assert forall|j: int|
                            0 <= j < best && (#[trigger] next[j]).inside() implies next[best as int].closer_than(
                        next[j]) by {
                            assert(seen[j].inside());
                        }
                    }
                    assert(is_closest(next, best as int));
                }
            } else {
                proof {
                    if any {
                        assert forall|j: int|
                            0 <= j < next.len() && (#[trigger] next[j]).inside() implies !next[j].closer_than(
                        next[best as int]) by {
                            assert(seen[j].inside());
                        }
                        assert forall|j: int|
                            0 <= j < best && (#[trigger] next[j]).inside() implies next[best as int].closer_than(
                        next[j]) by {
                            assert(seen[j].inside());
                        }
                        assert(is_closest(next, best as int));
                    }
                }
            }
            k += 1;
        }
        proof {
            assert(probes@.take(k as int) =~= probes@);
        }
        if any {
            assert(ids@.contains(ids@[best as int]));
            match face_slab_get(&self.polygons, ids[best]) {
                Some(face) => {
                    assert(is_closest(probes@, best as int));
                    Some((ids[best], face))
                },
                None => vstd::pervasive::unreached(),
            }
        } else {
            None
        }
    }

    /// Decides which links a pair of edges in one upright plane gives, for
    /// the step height of the settings.
    pub fn plan_links(&self, m: &PairMeasure) -> (plans: Vec<PlannedLink>)
        ensures
            plans@ == planned(*m, self.settings_spec().max_step_height),
    {
        let mut plans: Vec<PlannedLink> = Vec::new();
        let overlap = m.back_interval.intersect(m.front_interval);
        if overlap.is_empty() {
            return plans;
        }
        if m.delta_m.abs().gt(tolerance()) {
            let step_down = Span::new(m.walk_x.min(m.step_down_x), m.walk_x.max(m.step_down_x));
            let step_up = Span::new(m.walk_x.min(m.step_up_x), m.walk_x.max(m.step_up_x));
            let step_down = step_down.intersect(overlap);
            let step_up = step_up.intersect(overlap);
            if !step_down.is_empty() {
                plans.push(PlannedLink { span: step_down, shape: LinkShape::FrontToBackOverBack });
            }
            if !step_up.is_empty() {
                plans.push(PlannedLink { span: step_up, shape: LinkShape::FrontToBackOverFront });
            }
            assert(plans@ =~= planned(*m, self.settings_spec().max_step_height));
        } else if m.delta_c.abs().lt(self.settings.max_step_height) {
            if m.delta_c.gt(tolerance()) {
                plans.push(PlannedLink { span: overlap, shape: LinkShape::BackToFront });
            } else if m.delta_c.lt(tolerance().neg()) {
                plans.push(PlannedLink { span: overlap, shape: LinkShape::FrontToBackOverFront });
            } else {
                plans.push(PlannedLink { span: overlap, shape: LinkShape::Level });
            }
            assert(plans@ =~= planned(*m, self.settings_spec().max_step_height));
        }
        plans
    }
}

/// The three sides of a polygon, in the order of its winding.
pub open spec fn sides(polygon: usize, face: Face) -> Seq<PolygonEdge> {
    seq![
        PolygonEdge { p1: face.p1, p2: face.p2, polygon },
        PolygonEdge { p1: face.p2, p2: face.p3, polygon },
        PolygonEdge { p1: face.p3, p2: face.p1, polygon },
    ]
}

/// The sides of the polygons under the first `n` of `keys`, polygon after
/// polygon.
pub open spec fn sides_of(polygons: Map<usize, Face>, keys: Seq<usize>, n: int) -> Seq<
    PolygonEdge,
>
    decreases n,
{
    if n <= 0 {
        Seq::empty()
    } else {
        sides_of(polygons, keys, n - 1) + sides(keys[n - 1], polygons[keys[n - 1]])
    }
}

/// `keys` are the keys of `polygons`, no key twice, and under the `k`th key
/// stands the `k`th of `faces`.
pub open spec fn holds_in_order(
    polygons: Map<usize, Face>,
    keys: Seq<usize>,
    faces: Seq<Face>,
) -> bool {
    &&& keys.len() == faces.len()
    &&& forall|i: int, j: int| 0 <= i < j < keys.len() ==> keys[i] != keys[j]
    &&& polygons.dom() == keys.to_set()
    &&& forall|i: int| 0 <= i < keys.len() ==> polygons[#[trigger] keys[i]] == faces[i]
}

/// The polygons under `keys` that can be stood on, each with its key.
/// `slopes[k]` is the upward coordinate of the normal of the polygon under
/// `keys[k]`.
pub open spec fn walkable_entries(
    polygons: Map<usize, Face>,
    keys: Seq<usize>,
    slopes: Seq<Scalar>,
    settings: NavmeshSettings,
) -> Seq<(usize, Face)>
    recommends
        keys.len() == slopes.len(),
    decreases keys.len(),
{
    if keys.len() == 0 {
        Seq::empty()
    } else {
        let rest = walkable_entries(polygons, keys.drop_last(), slopes.drop_last(), settings);
        if is_walkable(slopes.last(), settings) {
            rest.push((keys.last(), polygons[keys.last()]))
        } else {
            rest
        }
    }
}

/// Adds a link's key to the list of a polygon, which is made where the
/// polygon has none.
fn push_link(lists: &mut BTreeMap<usize, Vec<usize>>, polygon: usize, id: usize)
    ensures
        listing(final(lists)@) == appended(listing(old(lists)@), polygon, id),
{
    let mut list = match lists.remove(&polygon) {
        Some(list) => list,
        None => Vec::new(),
    };
    list.push(id);
    lists.insert(polygon, list);
    assert(listing(lists@) =~= appended(listing(old(lists)@), polygon, id));
}

/// Adding a key to one list keeps every list and every key in it, and the
/// new key is in its list.
pub proof fn lemma_appended_keeps(by: Map<usize, Seq<usize>>, polygon: usize, id: usize)
    ensures
        appended(by, polygon, id).contains_key(polygon),
        appended(by, polygon, id)[polygon].contains(id),
        forall|p: usize, x: usize|
            by.contains_key(p) && by[p].contains(x) ==> appended(by, polygon, id).contains_key(p)
                && #[trigger] appended(by, polygon, id)[p].contains(x),
{
    let after = appended(by, polygon, id);
    assert(after[polygon][after[polygon].len() - 1] == id);
    assert forall|p: usize, x: usize| by.contains_key(p) && by[p].contains(x) implies after.contains_key(
        p,
    ) && #[trigger] after[p].contains(x) by {
        let i = choose|i: int| 0 <= i < by[p].len() && by[p][i] == x;
        if p == polygon {
            assert(after[p][i] == x);
        } else {
            assert(after[p][i] == x);
        }
    }
}

/// Every walkable polygon that is handed out can be stood on: the slope
/// measured of it is above the cosine of the settings.
pub proof fn lemma_walkable_entries_walkable(
    polygons: Map<usize, Face>,
    keys: Seq<usize>,
    slopes: Seq<Scalar>,
    settings: NavmeshSettings,
    n: int,
)
    requires
        keys.len() == slopes.len(),
        0 <= n < walkable_entries(polygons, keys, slopes, settings).len(),
    ensures
        exists|k: int|
            0 <= k < keys.len() && #[trigger] keys[k] == walkable_entries(
                polygons,
                keys,
                slopes,
                settings,
            )[n].0 && settings.max_slope_cosine.less(slopes[k]) && walkable_entries(
                polygons,
                keys,
                slopes,
                settings,
            )[n].1 == polygons[keys[k]],
    decreases keys.len(),
{
    if keys.len() > 0 {
        let rest = walkable_entries(polygons, keys.drop_last(), slopes.drop_last(), settings);
        if n < rest.len() {
            lemma_walkable_entries_walkable(
                polygons,
                keys.drop_last(),
                slopes.drop_last(),
                settings,
                n,
            );
            let k = choose|k: int|
                0 <= k < keys.drop_last().len() && #[trigger] keys.drop_last()[k] == rest[n].0
                    && settings.max_slope_cosine.less(slopes.drop_last()[k]) && rest[n].1
                    == polygons[keys.drop_last()[k]];
            assert(keys[k] == keys.drop_last()[k]);
        } else {
            assert(keys[keys.len() - 1] == keys.last());
        }
    }
}

/// Every link of a well-formed mesh has its reverse stored, is in the list
/// of the polygon it leaves, and its reverse is in the list of the polygon
/// it enters.
pub proof fn lemma_link_symmetry(nav: Navmesh, id: usize)
    requires
        nav.wf(),
        nav.link_map().contains_key(id),
    ensures
        exists|rid: usize|
            {
                &&& #[trigger] nav.link_map().contains_key(rid)
                &&& nav.link_map()[rid] == nav.link_map()[id].reversed()
                &&& nav.links_by_polygon().contains_key(nav.link_map()[id].from)
                &&& nav.links_by_polygon()[nav.link_map()[id].from].contains(id)
                &&& nav.links_by_polygon().contains_key(nav.link_map()[id].to)
                &&& nav.links_by_polygon()[nav.link_map()[id].to].contains(rid)
            },
{
    let links = nav.link_map();
    assert(has_reverse(links, id));
    let rid = choose|rid: usize| #[trigger]
        links.contains_key(rid) && links[rid] == links[id].reversed();
    assert(links.contains_key(rid));
    assert(links[rid].from == links[id].to);
}

} // verus!

//! Edges of polygons, the upright planes through them, and the index that
//! brings together the edges that lie in one such plane.
use crate::scalar::Scalar;
use crate::span::Span;
use crate::util::{tolerance, tolerance_spec};
use crate::vector::Vec3;
use vstd::prelude::*;

verus! {

/// A side of the polygon `polygon`, from `p1` to `p2`.
#[derive(Clone, Copy, Debug, PartialEq, Eq, Structural)]
pub struct PolygonEdge {
    pub p1: Vec3,
    pub p2: Vec3,
    pub polygon: usize,
}

impl PolygonEdge {
    pub fn new(polygon: usize, p1: Vec3, p2: Vec3) -> (e: PolygonEdge)
        ensures
            e == (PolygonEdge { p1, p2, polygon }),
    {
        PolygonEdge { p1, p2, polygon }
    }

    pub fn polygon(&self) -> (id: usize)
        ensures
            id == self.polygon,
    {
        self.polygon
    }
}

/// A plane that holds the upward axis: the points `p` with
/// `p . normal == distance`.
#[derive(Clone, Copy, Debug, PartialEq, Eq, Structural)]
pub struct VerticalPlane {
    pub distance: Scalar,
    pub normal: Vec3,
}

/// A coordinate of a normal with what is within the tolerance of zero taken
/// for zero.
pub open spec fn snapped(c: Scalar) -> Scalar {
    if c.absolute().less(tolerance_spec()) {
        Scalar { bits: 0 }
    } else {
        c
    }
}

/// Whether a normal points the wrong way for a canonical plane: its first
/// coordinate that is not zero is below zero.
pub open spec fn points_backward(x: Scalar, y: Scalar, z: Scalar) -> bool {
    let zero = Scalar { bits: 0 };
    x.less(zero) || (x.same(zero) && y.less(zero)) || (x.same(zero) && y.same(zero) && z.less(
        zero,
    ))
}

impl VerticalPlane {
    /// The one plane that stands for this plane and for the same plane seen
    /// from its other side: small coordinates of the normal are taken for
    /// zero, and the normal is turned so that its first coordinate that is
    /// not zero is above zero, the distance with it.
    pub open spec fn canonical(self) -> VerticalPlane {
        let x = snapped(self.normal.x);
        let y = snapped(self.normal.y);
        let z = snapped(self.normal.z);
        if points_backward(x, y, z) {
            VerticalPlane {
                normal: Vec3 { x: x.negated(), y: y.negated(), z: z.negated() },
                distance: self.distance.negated(),
            }
        } else {
            VerticalPlane { normal: Vec3 { x, y, z }, distance: self.distance }
        }
    }

    /// The stretch of the plane's horizontal axis between two coordinates
    /// on it.
    pub open spec fn interval(x1: Scalar, x2: Scalar) -> Span {
        Span { min: x1.smaller(x2), max: x1.larger(x2) }
    }

    pub fn new(normal: Vec3, distance: Scalar) -> (p: VerticalPlane)
        ensures
            p == (VerticalPlane { normal, distance }),
    {
        VerticalPlane { normal, distance }
    }

    pub fn canonicalize(&self) -> (p: VerticalPlane)
        ensures
            p == self.canonical(),
    {
        let mut x = self.normal.x;
        let mut y = self.normal.y;
        let mut z = self.normal.z;
        let d = self.distance;
        let zero = Scalar::zero();
        if x.abs().lt(tolerance()) {
            x = zero;
        }
        if y.abs().lt(tolerance()) {
            y = zero;
        }
        if z.abs().lt(tolerance()) {
            z = zero;
        }
        let zero_x = x.same_value(zero);
        let zero_y = y.same_value(zero);
        let flip = x.lt(zero) || (zero_x && y.lt(zero)) || (zero_x && zero_y && z.lt(zero));
        if flip {
            VerticalPlane::new(Vec3::new(x, y, z).neg(), d.neg())
        } else {
            VerticalPlane::new(Vec3::new(x, y, z), d)
        }
    }

    /// The interval that an edge takes up along the plane's horizontal
    /// axis. `x1` and `x2` are the coordinates of the edge's ends on that
    /// axis, each the dot product of the end with the plane's tangent.
    pub fn coplanar_interval(x1: Scalar, x2: Scalar) -> (s: Span)
        ensures
            s == VerticalPlane::interval(x1, x2),
    {
        Span::new(x1.min(x2), x1.max(x2))
    }
}

/// The edges that lie in one upright plane. `front` holds those whose own
/// plane faces as `plane` does, `back` those whose plane faces against it.
/// `angle` and `offset` are the plane's direction and distance in whole
/// steps, by which the index tells planes apart.
#[derive(Clone, Debug)]
pub struct EdgeLinkPlane {
    pub angle: u32,
    pub offset: i32,
    pub plane: VerticalPlane,
    pub front: Vec<PolygonEdge>,
    pub back: Vec<PolygonEdge>,
}

/// An `EdgeLinkPlane` as the contracts speak of it.
pub struct BucketView {
    pub angle: u32,
    pub offset: i32,
    pub plane: VerticalPlane,
    pub front: Seq<PolygonEdge>,
    pub back: Seq<PolygonEdge>,
}

impl View for EdgeLinkPlane {
    type V = BucketView;

    open spec fn view(&self) -> BucketView {
        BucketView {
            angle: self.angle,
            offset: self.offset,
            plane: self.plane,
            front: self.front@,
            back: self.back@,
        }
    }
}

/// Whether an edge whose plane has the dot product `facing` with the
/// canonical plane's normal is filed under `front`.
pub open spec fn files_in_front(facing: Scalar) -> bool {
    (Scalar { bits: 0 }).less(facing)
}

impl BucketView {
    /// The key (`angle`, `offset`) comes before (`angle2`, `offset2`).
    pub open spec fn before(self, angle: u32, offset: i32) -> bool {
        self.angle < angle || (self.angle == angle && self.offset < offset)
    }

    pub open spec fn has_key(self, angle: u32, offset: i32) -> bool {
        self.angle == angle && self.offset == offset
    }

    /// The bucket with one more edge.
    pub open spec fn with_edge(self, edge: PolygonEdge, facing: Scalar) -> BucketView {
        if files_in_front(facing) {
            BucketView { front: self.front.push(edge), ..self }
        } else {
            BucketView { back: self.back.push(edge), ..self }
        }
    }

    /// The bucket of a plane that no edge has been filed under.
    pub open spec fn opened(angle: u32, offset: i32, plane: VerticalPlane) -> BucketView {
        BucketView { angle, offset, plane, front: Seq::empty(), back: Seq::empty() }
    }
}

impl EdgeLinkPlane {
    pub fn new(angle: u32, offset: i32, plane: VerticalPlane) -> (b: EdgeLinkPlane)
        ensures
            b@ == BucketView::opened(angle, offset, plane),
    {
        EdgeLinkPlane { angle, offset, plane, front: Vec::new(), back: Vec::new() }
    }

    /// Files an edge under the side that its `facing` asks for.
    pub fn file(&mut self, edge: PolygonEdge, facing: Scalar)
        ensures
            final(self)@ == old(self)@.with_edge(edge, facing),
    {
        if facing.gt(Scalar::zero()) {
            self.front.push(edge);
        } else {
            self.back.push(edge);
        }
    }
}

/// Two edges in one upright plane that may be linked: one filed under
/// `back` and one under `front`.
#[derive(Clone, Copy, Debug, PartialEq, Eq, Structural)]
pub struct EdgePair {
    pub plane: VerticalPlane,
    pub back: PolygonEdge,
    pub front: PolygonEdge,
}

/// One back edge paired with each front edge in turn.
pub open spec fn pairs_with(
    plane: VerticalPlane,
    back: PolygonEdge,
    fronts: Seq<PolygonEdge>,
) -> Seq<EdgePair> {
    Seq::new(fronts.len(), |k: int| EdgePair { plane, back, front: fronts[k] })
}

/// The pairs of the first `n` back edges of a bucket, each with every front
/// edge.
pub open spec fn bucket_pairs(bucket: BucketView, n: int) -> Seq<EdgePair>
    decreases n,
{
    if n <= 0 {
        Seq::empty()
    } else {
        bucket_pairs(bucket, n - 1) + pairs_with(bucket.plane, bucket.back[n - 1], bucket.front)
    }
}

/// The pairs of the first `n` buckets, bucket after bucket.
pub open spec fn index_pairs(buckets: Seq<BucketView>, n: int) -> Seq<EdgePair>
    decreases n,
{
    if n <= 0 {
        Seq::empty()
    } else {
        index_pairs(buckets, n - 1) + bucket_pairs(buckets[n - 1], buckets[n - 1].back.len() as int)
    }
}

/// The index of the edges by their planes, kept in the order of the keys.
pub struct EdgePlanes {
    planes: Vec<EdgeLinkPlane>,
}

/// The views of a list of buckets.
pub open spec fn bucket_views(planes: Seq<EdgeLinkPlane>) -> Seq<BucketView> {
    Seq::new(planes.len(), |k: int| planes[k]@)
}

/// The buckets stand in the order of their keys, no key twice.
pub open spec fn in_key_order(buckets: Seq<BucketView>) -> bool {
    forall|i: int, j: int|
        0 <= i < j < buckets.len() ==> (#[trigger] buckets[i]).before(
            (#[trigger] buckets[j]).angle,
            buckets[j].offset,
        )
}

/// `pos` is where the key (`angle`, `offset`) has its place among
/// `buckets`: every bucket before it has a smaller key, none from it on.
pub open spec fn is_place(buckets: Seq<BucketView>, angle: u32, offset: i32, pos: int) -> bool {
    &&& 0 <= pos <= buckets.len()
    &&& forall|j: int| 0 <= j < pos ==> (#[trigger] buckets[j]).before(angle, offset)
    &&& forall|j: int| pos <= j < buckets.len() ==> !(#[trigger] buckets[j]).before(angle, offset)
}

/// The index after an edge was filed at `pos`, the place of its key: in
/// the bucket that has the key, or in a new one for `plane`.
pub open spec fn filed(
    buckets: Seq<BucketView>,
    pos: int,
    angle: u32,
    offset: i32,
    plane: VerticalPlane,
    edge: PolygonEdge,
    facing: Scalar,
) -> Seq<BucketView> {
    if pos < buckets.len() && buckets[pos].has_key(angle, offset) {
        buckets.update(pos, buckets[pos].with_edge(edge, facing))
    } else {
        buckets.insert(pos, BucketView::opened(angle, offset, plane).with_edge(edge, facing))
    }
}

impl EdgePlanes {
    /// The buckets, in the order of their keys.
    pub closed spec fn buckets(&self) -> Seq<BucketView> {
        bucket_views(self.planes@)
    }

    pub open spec fn wf(&self) -> bool {
        in_key_order(self.buckets())
    }

    pub fn new() -> (index: EdgePlanes)
        ensures
            index.buckets() == Seq::<BucketView>::empty(),
            index.wf(),
    {
        let index = EdgePlanes { planes: Vec::new() };
        assert(index.buckets() =~= Seq::<BucketView>::empty());
        index
    }

    /// The buckets, in the order of their keys.
    pub fn planes(&self) -> (planes: &Vec<EdgeLinkPlane>)
        ensures
            bucket_views(planes@) == self.buckets(),
    {
        &self.planes
    }

    /// Every pair of a back edge and a front edge of one bucket: the
    /// buckets in the order of their keys, in each the back edges in the
    /// order they were filed, and for each of them the front edges in the
    /// order they were filed.
    pub fn pairs(&self) -> (pairs: Vec<EdgePair>)
        ensures
            pairs@ == index_pairs(self.buckets(), self.buckets().len() as int),
    {
        let mut pairs: Vec<EdgePair> = Vec::new();
        let mut b: usize = 0;
        while b < self.planes.len()
            invariant
                b <= self.planes.len(),
                pairs@ == index_pairs(self.buckets(), b as int),
            decreases self.planes.len() - b,
        {
            let bucket = &self.planes[b];
            let ghost view = self.buckets()[b as int];
            let ghost before = pairs@;
            let mut i: usize = 0;
            while i < bucket.back.len()
                invariant
                    i <= bucket.back.len(),
                    bucket@ == view,
                    pairs@ == before + bucket_pairs(view, i as int),
                decreases bucket.back.len() - i,
            {
                let ghost row = pairs@;
                let mut j: usize = 0;
                while j < bucket.front.len()
                    invariant
                        j <= bucket.front.len(),
                        i < bucket.back.len(),
                        bucket@ == view,
                        pairs@ == row + pairs_with(view.plane, view.back[i as int], view.front).take(
                            j as int,
                        ),
                    decreases bucket.front.len() - j,
                {
                    pairs.push(
                        EdgePair { plane: bucket.plane, back: bucket.back[i], front: bucket.front[j] },
                    );
                    assert(pairs_with(view.plane, view.back[i as int], view.front).take(j + 1)
                        =~= pairs_with(view.plane, view.back[i as int], view.front).take(
                        j as int,
                    ).push(
                        EdgePair {
                            plane: view.plane,
                            back: view.back[i as int],
                            front: view.front[j as int],
                        },
                    ));
                    j += 1;
                }
                assert(pairs_with(view.plane, view.back[i as int], view.front).take(j as int)
                    =~= pairs_with(view.plane, view.back[i as int], view.front));
                assert(pairs@ =~= before + bucket_pairs(view, i + 1));
                i += 1;
            }
            assert(pairs@ =~= index_pairs(self.buckets(), b + 1));
            b += 1;
        }
        pairs
    }

    /// Files an edge under the plane with the key (`angle`, `offset`). The
    /// first edge of a key brings the plane that stands for the bucket;
    /// for a key that is there, `plane` is not read.
    pub fn insert(
        &mut self,
        angle: u32,
        offset: i32,
        plane: VerticalPlane,
        edge: PolygonEdge,
        facing: Scalar,
    )
        requires
            old(self).wf(),
        ensures
            final(self).wf(),
            exists|pos: int|
                is_place(old(self).buckets(), angle, offset, pos) && final(self).buckets() == filed(
                    old(self).buckets(),
                    pos,
                    angle,
                    offset,
                    plane,
                    edge,
                    facing,
                ),
    {
        let mut i: usize = 0;
        while i < self.planes.len() && (self.planes[i].angle < angle || (self.planes[i].angle
            == angle && self.planes[i].offset < offset))
            invariant
                i <= self.planes.len(),
                self.planes == old(self).planes,
                forall|j: int| 0 <= j < i ==> (#[trigger] self.buckets()[j]).before(angle, offset),
            decreases self.planes.len() - i,
        {
            i += 1;
        }
        let ghost before = self.buckets();
        proof {
            assert forall|j: int| i <= j < before.len() implies !(#[trigger] before[j]).before(
                angle,
                offset,
            ) by {
                if j > i {
                    assert(before[i as int].before(before[j].angle, before[j].offset));
                }
            }
            assert(is_place(before, angle, offset, i as int));
        }
        if i < self.planes.len() && self.planes[i].angle == angle && self.planes[i].offset
            == offset {
            let mut bucket = self.planes.remove(i);
            bucket.file(edge, facing);
            self.planes.insert(i, bucket);
            assert(self.buckets() =~= before.update(
                i as int,
                before[i as int].with_edge(edge, facing),
            ));
        } else {
            let mut bucket = EdgeLinkPlane::new(angle, offset, plane);
            bucket.file(edge, facing);
            self.planes.insert(i, bucket);
            assert(self.buckets() =~= before.insert(
                i as int,
                BucketView::opened(angle, offset, plane).with_edge(edge, facing),
            ));
        }
        proof {
            let after = self.buckets();
            assert(after == filed(before, i as int, angle, offset, plane, edge, facing));
            assert forall|a: int, b: int| 0 <= a < b < after.len() implies (#[trigger] after[a]).before(
                (#[trigger] after[b]).angle,
                after[b].offset,
            ) by {
                if i < before.len() && before[i as int].has_key(angle, offset) {
                    assert(before[a].before(before[b].angle, before[b].offset));
                } else {
                    if a < i && b == i {
                        assert(before[a].before(angle, offset));
                    } else if a == i {
                        assert(!before[b - 1].before(angle, offset));
                    } else if a < i && b > i {
                        assert(before[a].before(before[b - 1].angle, before[b - 1].offset));
                    } else if a < i && b < i {
                        assert(before[a].before(before[b].angle, before[b].offset));
                    } else {
                        assert(before[a - 1].before(before[b - 1].angle, before[b - 1].offset));
                    }
                }
            }
        }
    }
}

/// A plane and the same plane seen from its other side have one canonical
/// plane: its normal and its distance are the same numbers for both. This
/// is what brings the two sides of a wall into one bucket. It holds where
/// no coordinate of the normal is NaN and not all of them are within the
/// tolerance of zero.
pub proof fn lemma_canonical_of_opposite(p: VerticalPlane)
    requires
        !p.normal.x.nan(),
        !p.normal.y.nan(),
        !p.normal.z.nan(),
        snapped(p.normal.x).key() != 0 || snapped(p.normal.y).key() != 0 || snapped(
            p.normal.z,
        ).key() != 0,
    ensures
        ({
            let q = VerticalPlane { normal: p.normal.negated(), distance: p.distance.negated() };
            &&& q.canonical().normal.x.key() == p.canonical().normal.x.key()
            &&& q.canonical().normal.y.key() == p.canonical().normal.y.key()
            &&& q.canonical().normal.z.key() == p.canonical().normal.z.key()
            &&& q.canonical().distance == p.canonical().distance
        }),
{
}

/// In an index in key order a key has one place only.
pub proof fn lemma_place_unique(
    buckets: Seq<BucketView>,
    angle: u32,
    offset: i32,
    p: int,
    q: int,
)
    requires
        is_place(buckets, angle, offset, p),
        is_place(buckets, angle, offset, q),
    ensures
        p == q,
{
    if p < q {
        assert(buckets[p].before(angle, offset));
    }
    if q < p {
        assert(buckets[q].before(angle, offset));
    }
}

} // verus!

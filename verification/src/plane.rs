//! Planes, and how a triangle is sorted and cut against one.
//!
//! The signed distance of a point `p` from a plane is `p . normal - distance`.
//! The functions here take such distances as computed by the caller.
use crate::brush::{Face, FaceIntersect};
use crate::scalar::{lemma_negated_twice, Scalar, EPSILON_BITS};
use crate::util::{tolerance, tolerance_spec};
use crate::vector::{lemma_vec_negated, Vec3};
use vstd::prelude::*;

verus! {

/// The points `p` with `p . normal == distance`; `normal` has length 1.
#[derive(Clone, Copy, Debug, PartialEq, Eq, Structural)]
pub struct Plane {
    pub normal: Vec3,
    pub distance: Scalar,
}

/// The side of a plane that a vertex is on.
#[derive(Clone, Copy, Debug, PartialEq, Eq, Structural)]
pub enum Side {
    Front,
    Back,
    On,
}

/// A vertex with its signed distance from the cutting plane.
#[derive(Clone, Copy, Debug, PartialEq, Eq, Structural)]
pub struct Weighted {
    pub point: Vec3,
    pub distance: Scalar,
}

/// How a plane cuts a triangle. Each cut point lies on a side of the
/// triangle that crosses the plane: with `a` the vertex named first below and
/// `b` the other end of that side, it is the point between `a` and `b` at
/// the fraction `a.distance / (a.distance - b.distance)` of the way.
#[derive(Clone, Copy, Debug, PartialEq, Eq, Structural)]
pub enum SplitPlan {
    /// One vertex on the plane and one on each side of it. The single
    /// cut is taken from `back` towards `front`.
    Through { on: Vec3, front: Weighted, back: Weighted },
    /// One vertex in front, two behind. The cuts are taken from `front`
    /// towards `back1` and towards `back2`.
    OneFront { front: Weighted, back1: Weighted, back2: Weighted },
    /// One vertex behind, two in front. The cuts are taken from `back`
    /// towards `front1` and towards `front2`.
    OneBack { back: Weighted, front1: Weighted, front2: Weighted },
}

/// The pieces of a cut triangle, before they are given its winding.
#[derive(Clone, Debug)]
pub struct Fragments {
    pub front: Vec<Face>,
    pub back: Vec<Face>,
}

/// What the caller has measured of a face against a plane: the signed
/// distances `d1`, `d2`, `d3` of its vertices from the plane, and the dot
/// product `facing` of its normal with the plane's. Where the plane cuts the
/// face, also the cut points `i1` and `i2` that its `SplitPlan` asks for, and
/// for each piece that `SplitPlan::fragments` makes of them the dot product
/// of the piece's normal with the normal of the face. Where the plane does
/// not cut the face, the cut points and the two lists are not read.
#[derive(Clone, Debug)]
pub struct FaceMeasure {
    pub d1: Scalar,
    pub d2: Scalar,
    pub d3: Scalar,
    pub facing: Scalar,
    pub i1: Vec3,
    pub i2: Vec3,
    pub front_facing: Vec<Scalar>,
    pub back_facing: Vec<Scalar>,
}

/// A `FaceMeasure` as the contracts speak of it.
pub struct MeasureView {
    pub d1: Scalar,
    pub d2: Scalar,
    pub d3: Scalar,
    pub facing: Scalar,
    pub i1: Vec3,
    pub i2: Vec3,
    pub front_facing: Seq<Scalar>,
    pub back_facing: Seq<Scalar>,
}

impl View for FaceMeasure {
    type V = MeasureView;

    open spec fn view(&self) -> MeasureView {
        MeasureView {
            d1: self.d1,
            d2: self.d2,
            d3: self.d3,
            facing: self.facing,
            i1: self.i1,
            i2: self.i2,
            front_facing: self.front_facing@,
            back_facing: self.back_facing@,
        }
    }
}

impl MeasureView {
    /// Where the face lies relative to the plane.
    pub open spec fn class(self) -> FaceIntersect {
        Plane::classification(self.d1, self.d2, self.d3, self.facing)
    }

    /// How the plane cuts `face`, if it does.
    pub open spec fn plan(self, face: Face) -> Option<SplitPlan> {
        split_plan_of(face, self.d1, self.d2, self.d3)
    }

    /// The measure holds what the sorting of `face` reads: where the face
    /// lies across the plane, its vertices are spread so that it can be
    /// cut, and where there is a cut, the face and the cut points are finite
    /// and there is one dot product for each piece.
    pub open spec fn fits(self, face: Face) -> bool {
        self.class() == FaceIntersect::Intersect ==> {
            &&& cuttable(self.d1, self.d2, self.d3)
            &&& match self.plan(face) {
                Some(plan) => {
                    &&& face.finite()
                    &&& self.i1.finite()
                    &&& plan.two_cuts() ==> self.i2.finite()
                    &&& self.front_facing.len() == plan.front_pieces(self.i1, self.i2).len()
                    &&& self.back_facing.len() == plan.back_pieces(self.i1, self.i2).len()
                },
                None => true,
            }
        }
    }
}

impl FaceMeasure {
    /// Whether the measure holds what the sorting of `face` reads.
    pub fn fits(&self, face: &Face) -> (r: bool)
        ensures
            r == self@.fits(*face),
    {
        match Plane::classify_face(self.d1, self.d2, self.d3, self.facing) {
            FaceIntersect::Intersect => {},
            _ => {
                return true;
            },
        }
        let (s1, s2, s3) = (Plane::side(self.d1), Plane::side(self.d2), Plane::side(self.d3));
        let on = count_sides(Side::On, s1, s2, s3);
        let front = count_sides(Side::Front, s1, s2, s3);
        if !(on == 0 || on == 3 || (on == 1 && front == 1)) {
            return false;
        }
        match Plane::split_plan(*face, self.d1, self.d2, self.d3) {
            Some(plan) => {
                let (two_cuts, ahead, behind): (bool, usize, usize) = match plan {
                    SplitPlan::Through { .. } => (false, 1, 1),
                    SplitPlan::OneFront { .. } => (true, 1, 2),
                    SplitPlan::OneBack { .. } => (true, 2, 1),
                };
                face.p1.is_finite() && face.p2.is_finite() && face.p3.is_finite()
                    && self.i1.is_finite() && (!two_cuts || self.i2.is_finite())
                    && self.front_facing.len() == ahead && self.back_facing.len() == behind
            },
            None => true,
        }
    }

    /// The measure of a face that the plane does not cut: the distances
    /// and the dot product as given, the origin for the cut points, and no
    /// pieces.
    pub fn uncut(d1: Scalar, d2: Scalar, d3: Scalar, facing: Scalar) -> (m: FaceMeasure)
        ensures
            m.d1 == d1,
            m.d2 == d2,
            m.d3 == d3,
            m.facing == facing,
            m.i1 == Vec3::origin(),
            m.i2 == Vec3::origin(),
            m.front_facing@ == Seq::<Scalar>::empty(),
            m.back_facing@ == Seq::<Scalar>::empty(),
    {
        let zero = Vec3::from_bits(0, 0, 0);
        FaceMeasure {
            d1,
            d2,
            d3,
            facing,
            i1: zero,
            i2: zero,
            front_facing: Vec::new(),
            back_facing: Vec::new(),
        }
    }
}

/// The side that a vertex at signed distance `d` counts to when a face is
/// cut: in front from the tolerance on, behind from minus the tolerance
/// down, on the plane between the two and where `d` is NaN.
pub open spec fn side_of(d: Scalar) -> Side {
    if tolerance_spec().less_eq(d) {
        Side::Front
    } else if d.less_eq(tolerance_spec().negated()) {
        Side::Back
    } else {
        Side::On
    }
}

/// How many of three sides are `s`.
pub open spec fn count_side(s: Side, s1: Side, s2: Side, s3: Side) -> int {
    (if s1 == s { 1int } else { 0 }) + (if s2 == s { 1int } else { 0 }) + (if s3 == s {
        1int
    } else {
        0
    })
}

/// How many of three sides are `s`.
fn count_sides(s: Side, s1: Side, s2: Side, s3: Side) -> (n: u8)
    ensures
        n == count_side(s, s1, s2, s3),
{
    let mut n: u8 = 0;
    if s1 == s {
        n += 1;
    }
    if s2 == s {
        n += 1;
    }
    if s3 == s {
        n += 1;
    }
    n
}

/// The vertices are spread over the plane's sides in a way that a cut can
/// deal with: not exactly two on the plane, and where one is on it, the
/// other two on opposite sides.
pub open spec fn cuttable(d1: Scalar, d2: Scalar, d3: Scalar) -> bool {
    let on = count_side(Side::On, side_of(d1), side_of(d2), side_of(d3));
    let front = count_side(Side::Front, side_of(d1), side_of(d2), side_of(d3));
    on == 0 || on == 3 || (on == 1 && front == 1)
}

/// The cut of `face` by a plane from which its vertices have the signed
/// distances `d1`, `d2`, `d3`. Where two vertices are on the same side,
/// they keep the order they have in the face. `None` where the plane does
/// not pass between the vertices.
pub open spec fn split_plan_of(face: Face, d1: Scalar, d2: Scalar, d3: Scalar) -> Option<
    SplitPlan,
> {
    let a = Weighted { point: face.p1, distance: d1 };
    let b = Weighted { point: face.p2, distance: d2 };
    let c = Weighted { point: face.p3, distance: d3 };
    match (side_of(d1), side_of(d2), side_of(d3)) {
        (Side::On, Side::Front, Side::Back) => Some(
            SplitPlan::Through { on: a.point, front: b, back: c },
        ),
        (Side::On, Side::Back, Side::Front) => Some(
            SplitPlan::Through { on: a.point, front: c, back: b },
        ),
        (Side::Front, Side::On, Side::Back) => Some(
            SplitPlan::Through { on: b.point, front: a, back: c },
        ),
        (Side::Back, Side::On, Side::Front) => Some(
            SplitPlan::Through { on: b.point, front: c, back: a },
        ),
        (Side::Front, Side::Back, Side::On) => Some(
            SplitPlan::Through { on: c.point, front: a, back: b },
        ),
        (Side::Back, Side::Front, Side::On) => Some(
            SplitPlan::Through { on: c.point, front: b, back: a },
        ),
        (Side::Front, Side::Back, Side::Back) => Some(
            SplitPlan::OneFront { front: a, back1: b, back2: c },
        ),
        (Side::Back, Side::Front, Side::Back) => Some(
            SplitPlan::OneFront { front: b, back1: a, back2: c },
        ),
        (Side::Back, Side::Back, Side::Front) => Some(
            SplitPlan::OneFront { front: c, back1: a, back2: b },
        ),
        (Side::Back, Side::Front, Side::Front) => Some(
            SplitPlan::OneBack { back: a, front1: b, front2: c },
        ),
        (Side::Front, Side::Back, Side::Front) => Some(
            SplitPlan::OneBack { back: b, front1: a, front2: c },
        ),
        (Side::Front, Side::Front, Side::Back) => Some(
            SplitPlan::OneBack { back: c, front1: a, front2: b },
        ),
        _ => None,
    }
}

impl SplitPlan {
    /// The vertices of the plan are finite.
    pub open spec fn finite(self) -> bool {
        match self {
            SplitPlan::Through { on, front, back } => on.finite() && front.point.finite()
                && back.point.finite(),
            SplitPlan::OneFront { front, back1, back2 } => front.point.finite()
                && back1.point.finite() && back2.point.finite(),
            SplitPlan::OneBack { back, front1, front2 } => back.point.finite()
                && front1.point.finite() && front2.point.finite(),
        }
    }

    /// Whether the plan has a second cut point.
    pub open spec fn two_cuts(self) -> bool {
        !(self is Through)
    }

    /// The pieces in front of the plane, for the cut points `i1` and `i2`.
    pub open spec fn front_pieces(self, i1: Vec3, i2: Vec3) -> Seq<Face> {
        match self {
            SplitPlan::Through { on, front, back } => seq![
                Face { p1: on, p2: front.point, p3: i1 },
            ],
            SplitPlan::OneFront { front, back1, back2 } => seq![
                Face { p1: front.point, p2: i1, p3: i2 },
            ],
            SplitPlan::OneBack { back, front1, front2 } => seq![
                Face { p1: front1.point, p2: front2.point, p3: i1 },
                Face { p1: i1, p2: front2.point, p3: i2 },
            ],
        }
    }

    /// The pieces behind the plane, for the cut points `i1` and `i2`.
    pub open spec fn back_pieces(self, i1: Vec3, i2: Vec3) -> Seq<Face> {
        match self {
            SplitPlan::Through { on, front, back } => seq![
                Face { p1: on, p2: i1, p3: back.point },
            ],
            SplitPlan::OneFront { front, back1, back2 } => seq![
                Face { p1: back1.point, p2: back2.point, p3: i1 },
                Face { p1: i1, p2: back2.point, p3: i2 },
            ],
            SplitPlan::OneBack { back, front1, front2 } => seq![
                Face { p1: back.point, p2: i1, p3: i2 },
            ],
        }
    }

    /// Assembles the pieces on both sides from the cut points. `i2` is not
    /// read where the plan has one cut.
    pub fn fragments(&self, i1: Vec3, i2: Vec3) -> (r: Fragments)
        requires
            self.finite(),
            i1.finite(),
            self.two_cuts() ==> i2.finite(),
        ensures
            r.front@ == self.front_pieces(i1, i2),
            r.back@ == self.back_pieces(i1, i2),
    {
        let mut front: Vec<Face> = Vec::new();
        let mut back: Vec<Face> = Vec::new();
        match *self {
            SplitPlan::Through { on, front: f, back: b } => {
                front.push(Face::new(on, f.point, i1));
                back.push(Face::new(on, i1, b.point));
            },
            SplitPlan::OneFront { front: f, back1, back2 } => {
                front.push(Face::new(f.point, i1, i2));
                back.push(Face::new(back1.point, back2.point, i1));
                back.push(Face::new(i1, back2.point, i2));
            },
            SplitPlan::OneBack { back: b, front1, front2 } => {
                back.push(Face::new(b.point, i1, i2));
                front.push(Face::new(front1.point, front2.point, i1));
                front.push(Face::new(i1, front2.point, i2));
            },
        }
        assert(front@ =~= self.front_pieces(i1, i2));
        assert(back@ =~= self.back_pieces(i1, i2));
        Fragments { front, back }
    }
}

/// Each of `pieces` given the winding that its `facing` asks for.
pub open spec fn oriented_pieces(pieces: Seq<Face>, facing: Seq<Scalar>) -> Seq<Face>
    recommends
        pieces.len() == facing.len(),
{
    Seq::new(pieces.len(), |k: int| pieces[k].oriented(facing[k]))
}

impl Plane {
    /// The plane seen from its other side.
    pub open spec fn inverted(self) -> Plane {
        Plane { normal: self.normal.negated(), distance: self.distance.negated() }
    }

    /// Where a face lies whose vertices have the signed distances `d1`,
    /// `d2`, `d3` from the plane, and whose normal has the dot product
    /// `facing` with the plane's: on the plane where all three are within
    /// the tolerance of it, then facing as the plane does or against it;
    /// else in front where none is further behind than the tolerance; else
    /// behind where none is further in front; else across.
    pub open spec fn classification(
        d1: Scalar,
        d2: Scalar,
        d3: Scalar,
        facing: Scalar,
    ) -> FaceIntersect {
        let t = tolerance_spec();
        let zero = Scalar { bits: 0 };
        if d1.absolute().less_eq(t) && d2.absolute().less_eq(t) && d3.absolute().less_eq(t) {
            if zero.less(facing) {
                FaceIntersect::CoplanarFront
            } else {
                FaceIntersect::CoplanarBack
            }
        } else if t.negated().less_eq(d1) && t.negated().less_eq(d2) && t.negated().less_eq(d3) {
            FaceIntersect::Front
        } else if d1.less_eq(t) && d2.less_eq(t) && d3.less_eq(t) {
            FaceIntersect::Back
        } else {
            FaceIntersect::Intersect
        }
    }

    /// How far along a ray the plane is met, if it is met: `t`, where the
    /// ray does not run along the plane (`denom` is more than next to
    /// nothing) and the plane does not lie behind the ray's origin (`t` is
    /// not below zero).
    pub open spec fn ray_hit(denom: Scalar, t: Scalar) -> Option<Scalar> {
        if (Scalar { bits: EPSILON_BITS }).less(denom.absolute()) && (Scalar { bits: 0 }).less_eq(
            t,
        ) {
            Some(t)
        } else {
            None
        }
    }

    pub fn new(normal: Vec3, distance: Scalar) -> (p: Plane)
        ensures
            p == (Plane { normal, distance }),
    {
        Plane { normal, distance }
    }

    /// How far along a ray the plane is met, in units of the length of the
    /// ray's direction. `denom` is the dot product of the plane's normal
    /// with the direction, and `t` the signed distance of the ray's origin
    /// behind the plane, divided by `denom`.
    pub fn intersect_ray(denom: Scalar, t: Scalar) -> (r: Option<Scalar>)
        ensures
            r == Plane::ray_hit(denom, t),
    {
        if denom.abs().gt(Scalar::from_bits(EPSILON_BITS)) && t.ge(Scalar::zero()) {
            Some(t)
        } else {
            None
        }
    }

    pub fn invert(&self) -> (p: Plane)
        ensures
            p == self.inverted(),
    {
        Plane { normal: self.normal.neg(), distance: self.distance.neg() }
    }

    pub fn classify_face(d1: Scalar, d2: Scalar, d3: Scalar, facing: Scalar) -> (r: FaceIntersect)
        ensures
            r == Plane::classification(d1, d2, d3, facing),
    {
        let t = tolerance();
        let minus_t = t.neg();
        if d1.abs().le(t) && d2.abs().le(t) && d3.abs().le(t) {
            if facing.gt(Scalar::zero()) {
                return FaceIntersect::CoplanarFront;
            } else {
                return FaceIntersect::CoplanarBack;
            }
        }
        if d1.ge(minus_t) && d2.ge(minus_t) && d3.ge(minus_t) {
            FaceIntersect::Front
        } else if d1.le(t) && d2.le(t) && d3.le(t) {
            FaceIntersect::Back
        } else {
            FaceIntersect::Intersect
        }
    }

    /// The side of the plane that a vertex at signed distance `d` counts to
    /// when a face is cut.
    pub fn side(d: Scalar) -> (s: Side)
        ensures
            s == side_of(d),
    {
        let t = tolerance();
        if d.ge(t) {
            Side::Front
        } else if d.le(t.neg()) {
            Side::Back
        } else {
            Side::On
        }
    }

    /// Decides how the plane cuts `face`, whose vertices have the signed
    /// distances `d1`, `d2`, `d3` from it.
    pub fn split_plan(face: Face, d1: Scalar, d2: Scalar, d3: Scalar) -> (plan: Option<SplitPlan>)
        requires
            cuttable(d1, d2, d3),
        ensures
            plan == split_plan_of(face, d1, d2, d3),
            plan is Some <==> {
                let on = count_side(Side::On, side_of(d1), side_of(d2), side_of(d3));
                let front = count_side(Side::Front, side_of(d1), side_of(d2), side_of(d3));
                (on == 1 && front == 1) || (on == 0 && (front == 1 || front == 2))
            },
            plan is Some && face.finite() ==> plan->0.finite(),
    {
        let a = Weighted { point: face.p1, distance: d1 };
        let b = Weighted { point: face.p2, distance: d2 };
        let c = Weighted { point: face.p3, distance: d3 };
        match (Plane::side(d1), Plane::side(d2), Plane::side(d3)) {
            (Side::On, Side::Front, Side::Back) => Some(
                SplitPlan::Through { on: a.point, front: b, back: c },
            ),
            (Side::On, Side::Back, Side::Front) => Some(
                SplitPlan::Through { on: a.point, front: c, back: b },
            ),
            (Side::Front, Side::On, Side::Back) => Some(
                SplitPlan::Through { on: b.point, front: a, back: c },
            ),
            (Side::Back, Side::On, Side::Front) => Some(
                SplitPlan::Through { on: b.point, front: c, back: a },
            ),
            (Side::Front, Side::Back, Side::On) => Some(
                SplitPlan::Through { on: c.point, front: a, back: b },
            ),
            (Side::Back, Side::Front, Side::On) => Some(
                SplitPlan::Through { on: c.point, front: b, back: a },
            ),
            (Side::Front, Side::Back, Side::Back) => Some(
                SplitPlan::OneFront { front: a, back1: b, back2: c },
            ),
            (Side::Back, Side::Front, Side::Back) => Some(
                SplitPlan::OneFront { front: b, back1: a, back2: c },
            ),
            (Side::Back, Side::Back, Side::Front) => Some(
                SplitPlan::OneFront { front: c, back1: a, back2: b },
            ),
            (Side::Back, Side::Front, Side::Front) => Some(
                SplitPlan::OneBack { back: a, front1: b, front2: c },
            ),
            (Side::Front, Side::Back, Side::Front) => Some(
                SplitPlan::OneBack { back: b, front1: a, front2: c },
            ),
            (Side::Front, Side::Front, Side::Back) => Some(
                SplitPlan::OneBack { back: c, front1: a, front2: b },
            ),
            _ => None,
        }
    }

    /// Hands the pieces of a cut face to the lists of the two sides, each
    /// piece wound as the face was. `front_facing[k]` is the dot product of
    /// the normal of `pieces.front[k]` with the normal of the face that was
    /// cut, and `back_facing` the same for `pieces.back`.
    pub fn split_face(
        pieces: &Fragments,
        front_facing: &Vec<Scalar>,
        back_facing: &Vec<Scalar>,
        front_result: &mut Vec<Face>,
        back_result: &mut Vec<Face>,
    )
        requires
            front_facing.len() == pieces.front.len(),
            back_facing.len() == pieces.back.len(),
        ensures
            final(front_result)@ == old(front_result)@ + oriented_pieces(
                pieces.front@,
                front_facing@,
            ),
            final(back_result)@ == old(back_result)@ + oriented_pieces(
                pieces.back@,
                back_facing@,
            ),
    {
        push_oriented(&pieces.front, front_facing, front_result);
        push_oriented(&pieces.back, back_facing, back_result);
    }
}

/// Appends each of `pieces` to `result`, wound as its `facing` asks.
fn push_oriented(pieces: &Vec<Face>, facing: &Vec<Scalar>, result: &mut Vec<Face>)
    requires
        facing.len() == pieces.len(),
    ensures
        final(result)@ == old(result)@ + oriented_pieces(pieces@, facing@),
{
    let mut k: usize = 0;
    while k < pieces.len()
        invariant
            k <= pieces.len(),
            facing.len() == pieces.len(),
            result@ == old(result)@ + oriented_pieces(pieces@, facing@).take(k as int),
        decreases pieces.len() - k,
    {
        result.push(pieces[k].orient(facing[k]));
        assert(oriented_pieces(pieces@, facing@).take(k + 1) =~= oriented_pieces(
            pieces@,
            facing@,
        ).take(k as int).push(pieces@[k as int].oriented(facing@[k as int])));
        k += 1;
    }
    assert(oriented_pieces(pieces@, facing@).take(k as int) =~= oriented_pieces(pieces@, facing@));
}

/// A face that a plane classifies as lying across it has a vertex in front
/// of the plane and one behind it, and none or one on it, so that it can be
/// cut.
pub proof fn lemma_intersect_is_cuttable(
    face: Face,
    d1: Scalar,
    d2: Scalar,
    d3: Scalar,
    facing: Scalar,
)
    requires
        Plane::classification(d1, d2, d3, facing) == FaceIntersect::Intersect,
        !d1.nan(),
        !d2.nan(),
        !d3.nan(),
    ensures
        cuttable(d1, d2, d3),
        split_plan_of(face, d1, d2, d3) is Some,
{
}

/// `p` is a corner of one of `pieces`.
pub open spec fn is_corner_of(pieces: Seq<Face>, p: Vec3) -> bool {
    exists|k: int|
        0 <= k < pieces.len() && ((#[trigger] pieces[k]).p1 == p || pieces[k].p2 == p
            || pieces[k].p3 == p)
}

/// A vertex at signed distance `d` is kept on its side of the cut: in a
/// piece in front unless it is behind the plane, in a piece behind unless it
/// is in front of it.
pub open spec fn kept_on_its_side(plan: SplitPlan, i1: Vec3, i2: Vec3, p: Vec3, d: Scalar) -> bool {
    &&& side_of(d) != Side::Back ==> is_corner_of(plan.front_pieces(i1, i2), p)
    &&& side_of(d) != Side::Front ==> is_corner_of(plan.back_pieces(i1, i2), p)
}

/// A cut loses no vertex and adds none but the cut points: every vertex of
/// the face is a corner of a piece on its side of the plane, a vertex on the
/// plane of a piece on each side, and every corner of every piece is a
/// vertex of the face or a cut point.
pub proof fn lemma_pieces_keep_vertices(
    face: Face,
    d1: Scalar,
    d2: Scalar,
    d3: Scalar,
    i1: Vec3,
    i2: Vec3,
)
    requires
        split_plan_of(face, d1, d2, d3) is Some,
    ensures
        kept_on_its_side(split_plan_of(face, d1, d2, d3)->0, i1, i2, face.p1, d1),
        kept_on_its_side(split_plan_of(face, d1, d2, d3)->0, i1, i2, face.p2, d2),
        kept_on_its_side(split_plan_of(face, d1, d2, d3)->0, i1, i2, face.p3, d3),
        forall|p: Vec3|
            is_corner_of(split_plan_of(face, d1, d2, d3)->0.front_pieces(i1, i2), p)
                || is_corner_of(split_plan_of(face, d1, d2, d3)->0.back_pieces(i1, i2), p) ==> p
                == face.p1 || p == face.p2 || p == face.p3 || p == i1 || p == i2,
{
    let plan = split_plan_of(face, d1, d2, d3)->0;
    let front = plan.front_pieces(i1, i2);
    let back = plan.back_pieces(i1, i2);
    assert(1 <= front.len() <= 2 && 1 <= back.len() <= 2);
    // Each side has one piece or two: these are all there are.
    let pieces = (front[0], front[front.len() - 1], back[0], back[back.len() - 1]);
}

/// Inverting a plane twice gives it back.
pub proof fn lemma_invert_involution(p: Plane)
    ensures
        p.inverted().inverted() == p,
{
    lemma_vec_negated(p.normal);
    lemma_negated_twice(p.distance);
}

} // verus!

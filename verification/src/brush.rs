//! Triangles and the solids made of them.
use crate::scalar::{Scalar, MINUS_ONE_BITS, ONE_BITS};
use crate::vector::Vec3;
use vstd::prelude::*;

verus! {

/// Meridians of the sphere.
pub const SLICES: usize = 16;

/// Parallels of the sphere, both poles counted as one band each.
pub const STACKS: usize = 12;

/// A triangle; seen from the side its normal points to, `p1`, `p2`, `p3`
/// run counter-clockwise.
#[derive(Clone, Copy, Debug, PartialEq, Eq, Structural)]
pub struct Face {
    pub p1: Vec3,
    pub p2: Vec3,
    pub p3: Vec3,
}

/// Where a face lies relative to a plane.
#[derive(Clone, Copy, Debug, PartialEq, Eq, Structural)]
pub enum FaceIntersect {
    Front,
    Back,
    CoplanarFront,
    CoplanarBack,
    Intersect,
}

impl Face {
    pub open spec fn finite(self) -> bool {
        self.p1.finite() && self.p2.finite() && self.p3.finite()
    }

    /// The same triangle wound the other way.
    pub open spec fn flipped(self) -> Face {
        Face { p1: self.p3, p2: self.p2, p3: self.p1 }
    }

    /// The face as it is where `facing` is zero or above, flipped where it
    /// is not.
    pub open spec fn oriented(self, facing: Scalar) -> Face {
        if (Scalar { bits: 0 }).less_eq(facing) {
            self
        } else {
            self.flipped()
        }
    }

    /// Whether three edge terms, each the signed offset of a point from
    /// one edge within the face's plane, put the point inside: none is
    /// above zero.
    pub open spec fn inside(ab: Scalar, bc: Scalar, ca: Scalar) -> bool {
        let zero = Scalar { bits: 0 };
        ab.less_eq(zero) && bc.less_eq(zero) && ca.less_eq(zero)
    }

    pub fn new(p1: Vec3, p2: Vec3, p3: Vec3) -> (f: Face)
        requires
            p1.finite(),
            p2.finite(),
            p3.finite(),
        ensures
            f == (Face { p1, p2, p3 }),
            f.finite(),
    {
        Face { p1, p2, p3 }
    }

    pub fn points(&self) -> (r: [Vec3; 3])
        ensures
            r@ == seq![self.p1, self.p2, self.p3],
    {
        let r = [self.p1, self.p2, self.p3];
        assert(r@ =~= seq![self.p1, self.p2, self.p3]);
        r
    }

    /// The three sides, each from one vertex to the next in winding order.
    pub fn edges(&self) -> (r: [(Vec3, Vec3); 3])
        ensures
            r@ == seq![(self.p1, self.p2), (self.p2, self.p3), (self.p3, self.p1)],
    {
        let r = [(self.p1, self.p2), (self.p2, self.p3), (self.p3, self.p1)];
        assert(r@ =~= seq![(self.p1, self.p2), (self.p2, self.p3), (self.p3, self.p1)]);
        r
    }

    pub fn flip(&self) -> (f: Face)
        ensures
            f == self.flipped(),
    {
        Face { p1: self.p3, p2: self.p2, p3: self.p1 }
    }

    /// Gives the face the winding of the face it was cut from. `facing` is
    /// the dot product of the two normals.
    pub fn orient(&self, facing: Scalar) -> (f: Face)
        ensures
            f == self.oriented(facing),
    {
        if facing.ge(Scalar::zero()) {
            *self
        } else {
            self.flip()
        }
    }

    /// Whether a point lies within the triangle, seen along its normal.
    /// For the point `q` and the normal `n`, `ab` is
    /// `(q - p1) . ((p2 - p1) x n)`, and `bc` and `ca` are the same for the
    /// other two sides.
    pub fn contains_point(ab: Scalar, bc: Scalar, ca: Scalar) -> (r: bool)
        ensures
            r == Face::inside(ab, bc, ca),
    {
        let zero = Scalar::zero();
        ab.le(zero) && bc.le(zero) && ca.le(zero)
    }
}

/// Flipping a face twice gives it back, and a flipped face has the same
/// vertices.
pub proof fn lemma_flip_involution(f: Face)
    ensures
        f.flipped().flipped() == f,
        f.flipped().finite() == f.finite(),
{
}

/// A solid, or a sheet, given by its faces.
#[derive(Clone, Debug, Default)]
pub struct Brush {
    pub faces: Vec<Face>,
}

/// The corner of the cube of side 2 about the origin on the positive side
/// of the axes for which the flag is set.
pub open spec fn corner(x: bool, y: bool, z: bool) -> Vec3 {
    Vec3 {
        x: Scalar { bits: if x { ONE_BITS } else { MINUS_ONE_BITS } },
        y: Scalar { bits: if y { ONE_BITS } else { MINUS_ONE_BITS } },
        z: Scalar { bits: if z { ONE_BITS } else { MINUS_ONE_BITS } },
    }
}

/// The corner of the square of side 2 about the origin in the ground plane.
pub open spec fn ground_corner(x: bool, z: bool) -> Vec3 {
    Vec3 {
        x: Scalar { bits: if x { ONE_BITS } else { MINUS_ONE_BITS } },
        y: Scalar { bits: 0 },
        z: Scalar { bits: if z { ONE_BITS } else { MINUS_ONE_BITS } },
    }
}

/// The two triangles of the ground square, facing up.
pub open spec fn plane_faces() -> Seq<Face> {
    let p1 = ground_corner(false, false);
    let p2 = ground_corner(true, false);
    let p3 = ground_corner(false, true);
    let p4 = ground_corner(true, true);
    seq![Face { p1: p3, p2: p2, p3: p1 }, Face { p1: p3, p2: p4, p3: p2 }]
}

/// The twelve triangles of the cube, two to a side, facing outward: bottom,
/// top, then the sides at x = -1, z = 1, x = 1 and z = -1.
pub open spec fn cube_faces() -> Seq<Face> {
    let p1 = corner(false, false, false);
    let p2 = corner(false, false, true);
    let p3 = corner(true, false, true);
    let p4 = corner(true, false, false);
    let p5 = corner(false, true, false);
    let p6 = corner(false, true, true);
    let p7 = corner(true, true, true);
    let p8 = corner(true, true, false);
    seq![
        Face { p1: p3, p2: p2, p3: p1 },
        Face { p1: p1, p2: p4, p3: p3 },
        Face { p1: p5, p2: p6, p3: p7 },
        Face { p1: p7, p2: p8, p3: p5 },
        Face { p1: p6, p2: p5, p3: p1 },
        Face { p1: p1, p2: p2, p3: p6 },
        Face { p1: p7, p2: p6, p3: p2 },
        Face { p1: p2, p2: p3, p3: p7 },
        Face { p1: p8, p2: p7, p3: p3 },
        Face { p1: p3, p2: p4, p3: p8 },
        Face { p1: p5, p2: p8, p3: p4 },
        Face { p1: p4, p2: p1, p3: p5 },
    ]
}

/// A lattice of sphere points: one row for each of the `SLICES + 1`
/// meridians, the last repeating the first, and in each row one point for
/// each of the `STACKS + 1` parallels from the top pole down.
pub open spec fn is_lattice(lattice: Seq<Vec<Vec3>>) -> bool {
    &&& lattice.len() == SLICES + 1
    &&& forall|i: int| 0 <= i <= SLICES ==> (#[trigger] lattice[i]).len() == STACKS + 1
    &&& forall|i: int, j: int|
        0 <= i <= SLICES && 0 <= j <= STACKS ==> (#[trigger] lattice[i][j]).finite()
}

/// The triangle taken from the lattice cell between meridians `i` and
/// `i + 1` and parallels `j` and `j + 1`: in the band at the top pole the
/// one that holds the pole, elsewhere the one on the cell's upper side.
pub open spec fn cell_face(lattice: Seq<Vec<Vec3>>, i: int, j: int) -> Face {
    let p1 = lattice[i][j];
    let p2 = lattice[i + 1][j];
    let p3 = lattice[i + 1][j + 1];
    let p4 = lattice[i][j + 1];
    if j != 0 {
        Face { p1: p1, p2: p2, p3: p3 }
    } else {
        Face { p1: p3, p2: p4, p3: p1 }
    }
}

impl Brush {
    pub fn new(faces: Vec<Face>) -> (b: Brush)
        ensures
            b.faces == faces,
    {
        Brush { faces }
    }

    pub fn faces(&self) -> (r: &[Face])
        ensures
            r@ == self.faces@,
    {
        self.faces.as_slice()
    }

    /// The vertices of all faces in order, three to a face.
    pub fn to_triangle_list(&self) -> (list: Vec<Vec3>)
        requires
            self.faces.len() * 3 <= usize::MAX,
        ensures
            list.len() == 3 * self.faces.len(),
            forall|k: int|
                0 <= k < self.faces.len() ==> {
                    &&& list[3 * k] == (#[trigger] self.faces[k]).p1
                    &&& list[3 * k + 1] == self.faces[k].p2
                    &&& list[3 * k + 2] == self.faces[k].p3
                },
    {
        let mut list: Vec<Vec3> = Vec::new();
        let mut k: usize = 0;
        while k < self.faces.len()
            invariant
                k <= self.faces.len(),
                list.len() == 3 * k,
                forall|m: int|
                    0 <= m < k ==> {
                        &&& list[3 * m] == (#[trigger] self.faces[m]).p1
                        &&& list[3 * m + 1] == self.faces[m].p2
                        &&& list[3 * m + 2] == self.faces[m].p3
                    },
            decreases self.faces.len() - k,
        {
            let f = self.faces[k];
            list.push(f.p1);
            list.push(f.p2);
            list.push(f.p3);
            k += 1;
        }
        list
    }

    /// The square of side 2 about the origin in the ground plane.
    pub fn plane() -> (b: Brush)
        ensures
            b.faces@ == plane_faces(),
    {
        let p1 = Vec3::from_bits(MINUS_ONE_BITS, 0, MINUS_ONE_BITS);
        let p2 = Vec3::from_bits(ONE_BITS, 0, MINUS_ONE_BITS);
        let p3 = Vec3::from_bits(MINUS_ONE_BITS, 0, ONE_BITS);
        let p4 = Vec3::from_bits(ONE_BITS, 0, ONE_BITS);
        let faces = vec![Face::new(p3, p2, p1), Face::new(p3, p4, p2)];
        assert(faces@ =~= plane_faces());
        Brush { faces }
    }

    /// The cube of side 2 about the origin.
    pub fn cube() -> (b: Brush)
        ensures
            b.faces@ == cube_faces(),
    {
        let p1 = Vec3::from_bits(MINUS_ONE_BITS, MINUS_ONE_BITS, MINUS_ONE_BITS);
        let p2 = Vec3::from_bits(MINUS_ONE_BITS, MINUS_ONE_BITS, ONE_BITS);
        let p3 = Vec3::from_bits(ONE_BITS, MINUS_ONE_BITS, ONE_BITS);
        let p4 = Vec3::from_bits(ONE_BITS, MINUS_ONE_BITS, MINUS_ONE_BITS);
        let p5 = Vec3::from_bits(MINUS_ONE_BITS, ONE_BITS, MINUS_ONE_BITS);
        let p6 = Vec3::from_bits(MINUS_ONE_BITS, ONE_BITS, ONE_BITS);
        let p7 = Vec3::from_bits(ONE_BITS, ONE_BITS, ONE_BITS);
        let p8 = Vec3::from_bits(ONE_BITS, ONE_BITS, MINUS_ONE_BITS);
        let faces = vec![
            Face::new(p3, p2, p1),
            Face::new(p1, p4, p3),
            Face::new(p5, p6, p7),
            Face::new(p7, p8, p5),
            Face::new(p6, p5, p1),
            Face::new(p1, p2, p6),
            Face::new(p7, p6, p2),
            Face::new(p2, p3, p7),
            Face::new(p8, p7, p3),
            Face::new(p3, p4, p8),
            Face::new(p5, p8, p4),
            Face::new(p4, p1, p5),
        ];
        assert(faces@ =~= cube_faces());
        Brush { faces }
    }

    /// The sphere over a lattice of its points, one triangle to a cell,
    /// meridian by meridian and within each from the top pole down.
    pub fn uv_sphere(lattice: &Vec<Vec<Vec3>>) -> (b: Brush)
        requires
            is_lattice(lattice@),
        ensures
            b.faces.len() == SLICES * STACKS,
            forall|i: int, j: int|
                0 <= i < SLICES && 0 <= j < STACKS ==> #[trigger] b.faces[i * STACKS + j]
                    == cell_face(lattice@, i, j),
    {
        let mut faces: Vec<Face> = Vec::new();
        let mut i: usize = 0;
        while i < SLICES
            invariant
                i <= SLICES,
                is_lattice(lattice@),
                faces.len() == i * STACKS,
                forall|a: int, c: int|
                    0 <= a < i && 0 <= c < STACKS ==> #[trigger] faces[a * STACKS + c]
                        == cell_face(lattice@, a, c),
            decreases SLICES - i,
        {
            let mut j: usize = 0;
            while j < STACKS
                invariant
                    i < SLICES,
                    j <= STACKS,
                    is_lattice(lattice@),
                    faces.len() == i * STACKS + j,
                    forall|a: int, c: int|
                        0 <= a < i && 0 <= c < STACKS ==> #[trigger] faces[a * STACKS + c]
                            == cell_face(lattice@, a, c),
                    forall|c: int|
                        0 <= c < j ==> #[trigger] faces[i * STACKS + c] == cell_face(
                            lattice@,
                            i as int,
                            c,
                        ),
                decreases STACKS - j,
            {
                assert(lattice@[i as int].len() == STACKS + 1);
                assert(lattice@[i + 1].len() == STACKS + 1);
                let p1 = lattice[i][j];
                let p2 = lattice[i + 1][j];
                let p3 = lattice[i + 1][j + 1];
                let p4 = lattice[i][j + 1];
                assert(lattice@[i as int][j as int].finite());
                assert(lattice@[i + 1][j as int].finite());
                assert(lattice@[i + 1][j + 1].finite());
                assert(lattice@[i as int][j + 1].finite());
                let ghost before = faces@;
                if j != 0 {
                    faces.push(Face::new(p1, p2, p3));
                } else {
                    faces.push(Face::new(p3, p4, p1));
                }
                assert(faces@ == before.push(cell_face(lattice@, i as int, j as int)));
                assert forall|a: int, c: int| 0 <= a < i && 0 <= c < STACKS implies #[trigger] faces[a
                    * STACKS + c] == cell_face(lattice@, a, c) by {
                    assert(a * STACKS + c < i * STACKS) by (nonlinear_arith)
                        requires
                            0 <= a < i,
                            0 <= c < STACKS,
                    ;
                    assert(before[a * STACKS + c] == cell_face(lattice@, a, c));
                }
                j += 1;
            }
            i += 1;
            assert forall|a: int, c: int| 0 <= a < i && 0 <= c < STACKS implies #[trigger] faces[a
                * STACKS + c] == cell_face(lattice@, a, c) by {
                if a == i - 1 {
                    assert(faces[(i - 1) * STACKS + c] == cell_face(lattice@, (i - 1) as int, c));
                }
            }
        }
        Brush { faces }
    }
}

} // verus!

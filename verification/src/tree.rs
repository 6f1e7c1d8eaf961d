//! Binary space partitions: the arena of nodes, and how faces are sorted to
//! the sides of a node's plane. What is done with whole trees (building,
//! clipping, uniting) is in `csg`.
use crate::arena::{
    is_key_order, key_order, lemma_key_order_is, node_slab_get, node_slab_insert, node_slab_keys,
    node_slab_new, node_slab_set, nodes_of,
};
use crate::brush::{lemma_flip_involution, Face, FaceIntersect};
use crate::plane::{lemma_invert_involution, oriented_pieces, FaceMeasure, MeasureView, Plane};
use slab::Slab;
use vstd::prelude::*;

verus! {

/// A node: its plane, the faces that lie in the plane, and the keys of the
/// nodes for the space in front of the plane and behind it.
#[derive(Clone, Debug)]
pub struct Node {
    pub front: Option<usize>,
    pub back: Option<usize>,
    pub polygons: Vec<Face>,
    pub plane: Plane,
}

/// A node as the contracts speak of it.
pub struct NodeView {
    pub front: Option<usize>,
    pub back: Option<usize>,
    pub polygons: Seq<Face>,
    pub plane: Plane,
}

impl View for Node {
    type V = NodeView;

    open spec fn view(&self) -> NodeView {
        NodeView {
            front: self.front,
            back: self.back,
            polygons: self.polygons@,
            plane: self.plane,
        }
    }
}

/// Every face of `faces`, flipped.
pub open spec fn flipped_faces(faces: Seq<Face>) -> Seq<Face> {
    Seq::new(faces.len(), |k: int| faces[k].flipped())
}

impl NodeView {
    /// The node of the complement: every face flipped, the plane seen from
    /// its other side, and what was in front now behind.
    pub open spec fn inverted(self) -> NodeView {
        NodeView {
            front: self.back,
            back: self.front,
            polygons: flipped_faces(self.polygons),
            plane: self.plane.inverted(),
        }
    }

    /// The keys that the node names are keys of `arena`.
    pub open spec fn children_in<V>(self, arena: Map<usize, V>) -> bool {
        &&& self.front is Some ==> arena.contains_key(self.front->0)
        &&& self.back is Some ==> arena.contains_key(self.back->0)
    }
}

impl NodeView {
    /// The node that has one face in its plane and no children.
    pub open spec fn leaf(plane: Plane, face: Face) -> NodeView {
        NodeView { front: None, back: None, polygons: seq![face], plane }
    }
}

impl Node {
    /// The node that has one face in its plane and no children.
    pub fn leaf(plane: Plane, face: Face) -> (n: Node)
        ensures
            n@ == NodeView::leaf(plane, face),
    {
        let mut polygons: Vec<Face> = Vec::new();
        polygons.push(face);
        Node { front: None, back: None, polygons, plane }
    }

    pub fn new(plane: Plane, polygons: Vec<Face>, front: Option<usize>, back: Option<usize>) -> (n:
        Node)
        ensures
            n.plane == plane,
            n.polygons == polygons,
            n.front == front,
            n.back == back,
    {
        Node { polygons, plane, front, back }
    }

    /// The node of the complement.
    pub fn invert(&self) -> (n: Node)
        ensures
            n@ == self@.inverted(),
    {
        let mut polygons: Vec<Face> = Vec::new();
        let mut k: usize = 0;
        while k < self.polygons.len()
            invariant
                k <= self.polygons.len(),
                polygons@ == flipped_faces(self.polygons@).take(k as int),
            decreases self.polygons.len() - k,
        {
            polygons.push(self.polygons[k].flip());
            assert(flipped_faces(self.polygons@).take(k + 1) =~= flipped_faces(
                self.polygons@,
            ).take(k as int).push(self.polygons@[k as int].flipped()));
            k += 1;
        }
        assert(flipped_faces(self.polygons@).take(k as int) =~= flipped_faces(self.polygons@));
        Node { front: self.back, back: self.front, polygons, plane: self.plane.invert() }
    }
}

/// The faces of a node sorted to the sides of its plane.
#[derive(Clone, Debug)]
pub struct Partition {
    pub front: Vec<Face>,
    pub back: Vec<Face>,
    pub coplanar: Vec<Face>,
}

/// A `Partition` as the contracts speak of it.
pub struct PartitionView {
    pub front: Seq<Face>,
    pub back: Seq<Face>,
    pub coplanar: Seq<Face>,
}

impl View for Partition {
    type V = PartitionView;

    open spec fn view(&self) -> PartitionView {
        PartitionView { front: self.front@, back: self.back@, coplanar: self.coplanar@ }
    }
}

/// The views of a list of measures.
pub open spec fn measure_views(measures: Seq<FaceMeasure>) -> Seq<MeasureView> {
    Seq::new(measures.len(), |k: int| measures[k]@)
}

impl PartitionView {
    /// The partition with one more face sorted in.
    ///
    /// A face in front of the plane goes to `front`, a face behind it to
    /// `back`. A face that lies across the plane is cut, and its pieces,
    /// wound as the face, go to the two sides. A face in the plane stays
    /// with the node (`coplanar`) when a tree is built, whichever way it
    /// faces; when faces are clipped against a tree (`clipping`), it goes in
    /// front where it faces as the plane does and behind where it faces
    /// against it.
    pub open spec fn placed(self, face: Face, m: MeasureView, clipping: bool) -> PartitionView {
        match m.class() {
            FaceIntersect::Front => PartitionView { front: self.front.push(face), ..self },
            FaceIntersect::Back => PartitionView { back: self.back.push(face), ..self },
            FaceIntersect::CoplanarFront => if clipping {
                PartitionView { front: self.front.push(face), ..self }
            } else {
                PartitionView { coplanar: self.coplanar.push(face), ..self }
            },
            FaceIntersect::CoplanarBack => if clipping {
                PartitionView { back: self.back.push(face), ..self }
            } else {
                PartitionView { coplanar: self.coplanar.push(face), ..self }
            },
            FaceIntersect::Intersect => match m.plan(face) {
                Some(plan) => PartitionView {
                    front: self.front + oriented_pieces(
                        plan.front_pieces(m.i1, m.i2),
                        m.front_facing,
                    ),
                    back: self.back + oriented_pieces(plan.back_pieces(m.i1, m.i2), m.back_facing),
                    ..self
                },
                None => self,
            },
        }
    }

    /// The partition with the faces sorted in one after the other.
    pub open spec fn placed_all(
        self,
        faces: Seq<Face>,
        measures: Seq<MeasureView>,
        clipping: bool,
    ) -> PartitionView
        recommends
            faces.len() == measures.len(),
        decreases faces.len(),
    {
        if faces.len() == 0 {
            self
        } else {
            self.placed_all(faces.drop_last(), measures.drop_last(), clipping).placed(
                faces.last(),
                measures.last(),
                clipping,
            )
        }
    }
}

impl Partition {
    pub fn new() -> (p: Partition)
        ensures
            p.front@ == Seq::<Face>::empty(),
            p.back@ == Seq::<Face>::empty(),
            p.coplanar@ == Seq::<Face>::empty(),
    {
        Partition { front: Vec::new(), back: Vec::new(), coplanar: Vec::new() }
    }

    /// Sorts one face to its side of the plane, cutting it where it lies
    /// across. `clipping` says what becomes of a face in the plane.
    pub fn place(&mut self, face: Face, m: &FaceMeasure, clipping: bool)
        requires
            m@.fits(face),
        ensures
            final(self)@ == old(self)@.placed(face, m@, clipping),
    {
        match Plane::classify_face(m.d1, m.d2, m.d3, m.facing) {
            FaceIntersect::Front => self.front.push(face),
            FaceIntersect::Back => self.back.push(face),
            FaceIntersect::CoplanarFront => {
                if clipping {
                    self.front.push(face)
                } else {
                    self.coplanar.push(face)
                }
            },
            FaceIntersect::CoplanarBack => {
                if clipping {
                    self.back.push(face)
                } else {
                    self.coplanar.push(face)
                }
            },
            FaceIntersect::Intersect => {
                match Plane::split_plan(face, m.d1, m.d2, m.d3) {
                    Some(plan) => {
                        let pieces = plan.fragments(m.i1, m.i2);
                        Plane::split_face(
                            &pieces,
                            &m.front_facing,
                            &m.back_facing,
                            &mut self.front,
                            &mut self.back,
                        );
                    },
                    None => {},
                }
            },
        }
    }

    /// Sorts a list of faces to the sides of the plane, one after the
    /// other. `measures[k]` is what was measured of `faces[k]`.
    pub fn place_all(&mut self, faces: &Vec<Face>, measures: &Vec<FaceMeasure>, clipping: bool)
        requires
            faces.len() == measures.len(),
            forall|k: int| 0 <= k < faces.len() ==> (#[trigger] measures[k])@.fits(faces[k]),
        ensures
            final(self)@ == old(self)@.placed_all(faces@, measure_views(measures@), clipping),
    {
        let mut k: usize = 0;
        while k < faces.len()
            invariant
                k <= faces.len(),
                faces.len() == measures.len(),
                forall|i: int| 0 <= i < faces.len() ==> (#[trigger] measures[i])@.fits(faces[i]),
                self@ == old(self)@.placed_all(
                    faces@.take(k as int),
                    measure_views(measures@).take(k as int),
                    clipping,
                ),
            decreases faces.len() - k,
        {
            proof {
                assert(faces@.take(k + 1).drop_last() =~= faces@.take(k as int));
                assert(measure_views(measures@).take(k + 1).drop_last() =~= measure_views(
                    measures@,
                ).take(k as int));
            }
            self.place(faces[k], &measures[k], clipping);
            k += 1;
        }
        proof {
            assert(faces@.take(k as int) =~= faces@);
            assert(measure_views(measures@).take(k as int) =~= measure_views(measures@));
        }
    }
}

/// A tree of nodes in an arena, from the node under `root` down.
#[derive(Debug)]
pub struct BspTree {
    root: usize,
    nodes: Slab<Node>,
}

/// `root` and every child that a node names are keys of `arena`.
pub open spec fn arena_wf(arena: Map<usize, NodeView>, root: usize) -> bool {
    &&& arena.contains_key(root)
    &&& forall|k: usize| #[trigger] arena.contains_key(k) ==> arena[k].children_in(arena)
}

/// Every node of `arena`, inverted.
pub open spec fn inverted_arena(arena: Map<usize, NodeView>) -> Map<usize, NodeView> {
    arena.map_values(|n: NodeView| n.inverted())
}

/// The faces of the nodes under `keys`, node after node.
pub open spec fn gathered(arena: Map<usize, NodeView>, keys: Seq<usize>) -> Seq<Face>
    decreases keys.len(),
{
    if keys.len() == 0 {
        Seq::empty()
    } else {
        gathered(arena, keys.drop_last()) + arena[keys.last()].polygons
    }
}

impl BspTree {
    /// The key of the root.
    pub closed spec fn root_key(&self) -> usize {
        self.root
    }

    /// The nodes, each under its key.
    pub closed spec fn arena(&self) -> Map<usize, NodeView> {
        nodes_of(self.nodes).map_values(|n: Node| n@)
    }

    /// The root and every child that a node names are nodes of the tree.
    pub open spec fn wf(&self) -> bool {
        arena_wf(self.arena(), self.root_key())
    }

    pub fn new(root: usize, nodes: Slab<Node>) -> (tree: BspTree)
        ensures
            tree.root_key() == root,
            tree.arena() == nodes_of(nodes).map_values(|n: Node| n@),
    {
        BspTree { root, nodes }
    }

    pub fn root(&self) -> (root: usize)
        ensures
            root == self.root_key(),
    {
        self.root
    }

    /// The node under `key`, if there is one.
    pub fn node(&self, key: usize) -> (node: Option<&Node>)
        ensures
            match node {
                Some(n) => self.arena().contains_key(key) && n@ == self.arena()[key],
                None => !self.arena().contains_key(key),
            },
    {
        node_slab_get(&self.nodes, key)
    }

    /// Adds a node and returns its key. The root stays.
    pub fn insert(&mut self, node: Node) -> (key: usize)
        ensures
            !old(self).arena().contains_key(key),
            final(self).arena() == old(self).arena().insert(key, node@),
            final(self).root_key() == old(self).root_key(),
            old(self).wf() && node@.children_in(old(self).arena()) ==> final(self).wf(),
    {
        let key = node_slab_insert(&mut self.nodes, node);
        assert(self.arena() =~= old(self).arena().insert(key, node@));
        key
    }

    /// Puts `node` in the place of the node under `key`.
    pub fn replace(&mut self, key: usize, node: Node)
        requires
            old(self).arena().contains_key(key),
        ensures
            final(self).arena() == old(self).arena().insert(key, node@),
            final(self).root_key() == old(self).root_key(),
            old(self).wf() && node@.children_in(old(self).arena()) ==> final(self).wf(),
    {
        node_slab_set(&mut self.nodes, key, node);
        assert(self.arena() =~= old(self).arena().insert(key, node@));
    }

    /// Whether the root and every child that a node names are nodes of
    /// the tree.
    pub fn is_well_formed(&self) -> (r: bool)
        ensures
            r == self.wf(),
    {
        if node_slab_get(&self.nodes, self.root).is_none() {
            return false;
        }
        let keys = node_slab_keys(&self.nodes);
        let mut i: usize = 0;
        while i < keys.len()
            invariant
                i <= keys.len(),
                is_key_order(nodes_of(self.nodes), keys@),
                forall|j: int|
                    0 <= j < i ==> (#[trigger] self.arena()[keys[j]]).children_in(self.arena()),
            decreases keys.len() - i,
        {
            let key = keys[i];
            assert(keys@.contains(key));
            let (front, back) = match node_slab_get(&self.nodes, key) {
                Some(node) => (node.front, node.back),
                None => vstd::pervasive::unreached(),
            };
            let front_there = match front {
                Some(child) => node_slab_get(&self.nodes, child).is_some(),
                None => true,
            };
            let back_there = match back {
                Some(child) => node_slab_get(&self.nodes, child).is_some(),
                None => true,
            };
            if !front_there || !back_there {
                assert(self.arena().contains_key(key));
                assert(!self.arena()[key].children_in(self.arena()));
                return false;
            }
            i += 1;
        }
        proof {
            assert forall|k: usize| #[trigger] self.arena().contains_key(k) implies self.arena()[k].children_in(
                self.arena(),
            ) by {
                assert(keys@.contains(k));
                let j = choose|j: int| 0 <= j < keys.len() && keys[j] == k;
                assert(self.arena()[keys[j]].children_in(self.arena()));
            }
        }
        true
    }

    /// The keys of the nodes, smallest first.
    pub fn node_keys(&self) -> (keys: Vec<usize>)
        ensures
            keys@ == key_order(self.arena()),
            is_key_order(self.arena(), keys@),
    {
        let keys = node_slab_keys(&self.nodes);
        proof {
            assert(is_key_order(self.arena(), keys@)) by {
                assert forall|k: usize| self.arena().contains_key(k) <==> keys@.contains(k) by {}
            }
            lemma_key_order_is(self.arena(), keys@);
        }
        keys
    }

    /// Gives the node under `key` another list of faces.
    pub fn set_polygons(&mut self, key: usize, polygons: Vec<Face>)
        requires
            old(self).arena().contains_key(key),
        ensures
            final(self).arena() == old(self).arena().insert(
                key,
                NodeView { polygons: polygons@, ..old(self).arena()[key] },
            ),
            final(self).root_key() == old(self).root_key(),
            old(self).wf() ==> final(self).wf(),
    {
        let (plane, front, back) = match node_slab_get(&self.nodes, key) {
            Some(node) => (node.plane, node.front, node.back),
            None => vstd::pervasive::unreached(),
        };
        self.replace(key, Node { front, back, polygons, plane });
    }

    /// The tree of one node, which has `face` in its plane `plane`.
    pub fn seed(plane: Plane, face: Face) -> (tree: BspTree)
        ensures
            tree.wf(),
            tree.arena() == Map::<usize, NodeView>::empty().insert(
                tree.root_key(),
                NodeView::leaf(plane, face),
            ),
    {
        let mut nodes = node_slab_new();
        assert(nodes_of(nodes) =~= Map::<usize, Node>::empty());
        let root = node_slab_insert(&mut nodes, Node::leaf(plane, face));
        let tree = BspTree { root, nodes };
        assert(tree.arena() =~= Map::<usize, NodeView>::empty().insert(
            root,
            NodeView::leaf(plane, face),
        ));
        tree
    }

    /// Turns the solid into its complement: every node is inverted.
    pub fn invert(&mut self)
        ensures
            final(self).root_key() == old(self).root_key(),
            final(self).arena() == inverted_arena(old(self).arena()),
            old(self).wf() ==> final(self).wf(),
    {
        let keys = node_slab_keys(&self.nodes);
        let ghost before = nodes_of(self.nodes);
        let mut i: usize = 0;
        while i < keys.len()
            invariant
                i <= keys.len(),
                is_key_order(before, keys@),
                self.root == old(self).root,
                nodes_of(self.nodes).dom() == before.dom(),
                forall|j: int|
                    0 <= j < i ==> (#[trigger] nodes_of(self.nodes)[keys[j]])@
                        == before[keys[j]]@.inverted(),
                forall|j: int|
                    i <= j < keys.len() ==> #[trigger] nodes_of(self.nodes)[keys[j]]
                        == before[keys[j]],
            decreases keys.len() - i,
        {
            let key = keys[i];
            assert(keys@.contains(key));
            let ghost prior = nodes_of(self.nodes);
            let inverted = match node_slab_get(&self.nodes, key) {
                Some(node) => node.invert(),
                None => vstd::pervasive::unreached(),
            };
            node_slab_set(&mut self.nodes, key, inverted);
            assert(nodes_of(self.nodes).dom() =~= before.dom());
            assert forall|j: int| 0 <= j < i + 1 implies (#[trigger] nodes_of(
                self.nodes,
            )[keys[j]])@ == before[keys[j]]@.inverted() by {
                if j < i {
                    assert(keys[j] != key);
                    assert(prior[keys[j]]@ == before[keys[j]]@.inverted());
                } else {
                    assert(prior[keys[j]] == before[keys[j]]);
                }
            }
            assert forall|j: int| i + 1 <= j < keys.len() implies #[trigger] nodes_of(
                self.nodes,
            )[keys[j]] == before[keys[j]] by {
                assert(keys[j] != key);
                assert(prior[keys[j]] == before[keys[j]]);
            }
            i += 1;
        }
        proof {
            let after = self.arena();
            let wanted = inverted_arena(old(self).arena());
            assert(after.dom() =~= wanted.dom());
            assert forall|k: usize| after.contains_key(k) implies after[k] == wanted[k] by {
                assert(keys@.contains(k));
                let j = choose|j: int| 0 <= j < keys.len() && keys[j] == k;
                assert(nodes_of(self.nodes)[keys[j]]@ == before[keys[j]]@.inverted());
            }
            assert(after =~= wanted);
        }
    }

    /// The faces of all nodes, node after node in the order of their keys.
    pub fn polygons(&self) -> (faces: Vec<Face>)
        ensures
            is_key_order(self.arena(), key_order(self.arena())),
            faces@ == gathered(self.arena(), key_order(self.arena())),
    {
        let keys = node_slab_keys(&self.nodes);
        let mut faces: Vec<Face> = Vec::new();
        let mut i: usize = 0;
        while i < keys.len()
            invariant
                i <= keys.len(),
                is_key_order(nodes_of(self.nodes), keys@),
                faces@ == gathered(self.arena(), keys@.take(i as int)),
            decreases keys.len() - i,
        {
            let key = keys[i];
            assert(keys@.contains(key));
            match node_slab_get(&self.nodes, key) {
                Some(node) => {
                    let ghost start = faces@;
                    let mut k: usize = 0;
                    while k < node.polygons.len()
                        invariant
                            k <= node.polygons.len(),
                            faces@ == start + node.polygons@.take(k as int),
                        decreases node.polygons.len() - k,
                    {
                        faces.push(node.polygons[k]);
                        assert(node.polygons@.take(k + 1) =~= node.polygons@.take(k as int).push(
                            node.polygons@[k as int],
                        ));
                        k += 1;
                    }
                    assert(node.polygons@.take(k as int) =~= node.polygons@);
                    assert(keys@.take(i + 1).drop_last() =~= keys@.take(i as int));
                    assert(keys@.take(i + 1).last() == key);
                },
                None => {
                    vstd::pervasive::unreached::<()>();
                },
            }
            i += 1;
        }
        assert(keys@.take(i as int) =~= keys@);
        proof {
            assert(is_key_order(self.arena(), keys@)) by {
                assert forall|k: usize| self.arena().contains_key(k) <==> keys@.contains(k) by {}
            }
            lemma_key_order_is(self.arena(), keys@);
        }
        faces
    }
}

/// Inverting a node twice gives it back.
pub proof fn lemma_node_invert_involution(n: NodeView)
    ensures
        n.inverted().inverted() == n,
{
    assert forall|k: int| 0 <= k < n.polygons.len() implies flipped_faces(
        flipped_faces(n.polygons),
    )[k] == n.polygons[k] by {
        lemma_flip_involution(n.polygons[k]);
    }
    assert(flipped_faces(flipped_faces(n.polygons)) =~= n.polygons);
    lemma_invert_involution(n.plane);
}

/// Inverting a tree twice changes nothing: every node has its faces, its
/// plane and its children back.
pub proof fn lemma_invert_twice(arena: Map<usize, NodeView>)
    ensures
        inverted_arena(inverted_arena(arena)) == arena,
{
    assert forall|k: usize| arena.contains_key(k) implies inverted_arena(inverted_arena(arena))[k]
        == arena[k] by {
        lemma_node_invert_involution(arena[k]);
    }
    assert(inverted_arena(inverted_arena(arena)) =~= arena);
}

} // verus!

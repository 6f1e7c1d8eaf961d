use constructive::astar::{
    contruct_backtrace, Backtrace, Crossing, Search, Shortener, Step, Waypoint, MAX_PASSES,
};
use constructive::brush::{Face, FaceIntersect};
use constructive::edge::Edge3D;
use constructive::edgelist::PolygonEdge;
use constructive::link::{LinkKind, NavmeshLink};
use constructive::navmesh::{
    LinkShape, Navmesh, NavmeshSettings, PairMeasure, PlannedLink, Probe,
};
use constructive::plane::{FaceMeasure, Plane};
use constructive::scalar::Scalar;
use constructive::span::Span;
use constructive::csg::{Ask, Union};
use constructive::tree::{BspTree, Node, Partition};
use constructive::vector::Vec3;
use slab::Slab;

fn s(x: f32) -> Scalar {
    Scalar::from_bits(x.to_bits())
}

fn v(x: f32, y: f32, z: f32) -> Vec3 {
    Vec3::new(s(x), s(y), s(z))
}

fn floor(x: f32, y: f32) -> Face {
    Face::new(v(x, y, 0.0), v(x, y, 1.0), v(x + 1.0, y, 1.0))
}

fn edge(x: f32) -> Edge3D {
    Edge3D::new(v(x, 0.0, 0.0), v(x, 0.0, 1.0))
}

fn three_nodes() -> (BspTree, usize, usize, usize) {
    let mut nodes = Slab::new();
    let front = nodes.insert(Node::new(
        Plane::new(v(1.0, 0.0, 0.0), s(1.0)),
        vec![floor(1.0, 0.0)],
        None,
        None,
    ));
    let back = nodes.insert(Node::new(
        Plane::new(v(0.0, 0.0, 1.0), s(-2.0)),
        vec![floor(2.0, 0.0), floor(3.0, 0.0)],
        None,
        None,
    ));
    let root = nodes.insert(Node::new(
        Plane::new(v(0.0, 1.0, 0.0), s(0.5)),
        vec![floor(0.0, 0.5)],
        Some(front),
        Some(back),
    ));
    (BspTree::new(root, nodes), root, front, back)
}

#[test]
fn tree_hands_out_its_nodes() {
    let (tree, root, front, back) = three_nodes();
    assert_eq!(tree.root(), root);
    let node = tree.node(root).unwrap();
    assert_eq!(node.front, Some(front));
    assert_eq!(node.back, Some(back));
    assert_eq!(node.polygons, vec![floor(0.0, 0.5)]);
    assert_eq!(node.plane, Plane::new(v(0.0, 1.0, 0.0), s(0.5)));
    assert!(tree.node(17).is_none());
}

#[test]
fn tree_polygons_come_in_the_order_of_the_keys() {
    let (tree, _, _, _) = three_nodes();
    assert_eq!(
        tree.polygons(),
        vec![
            floor(1.0, 0.0),
            floor(2.0, 0.0),
            floor(3.0, 0.0),
            floor(0.0, 0.5)
        ]
    );
}

#[test]
fn tree_insert_and_replace_change_one_node() {
    let (mut tree, root, front, back) = three_nodes();
    let leaf = Node::new(
        Plane::new(v(0.0, 0.0, -1.0), s(4.0)),
        vec![floor(9.0, 0.0)],
        None,
        None,
    );
    let key = tree.insert(leaf);
    assert!(key != root && key != front && key != back);
    assert_eq!(tree.node(key).unwrap().polygons, vec![floor(9.0, 0.0)]);
    assert_eq!(tree.root(), root);
    let old = tree.node(front).unwrap().clone();
    tree.replace(
        front,
        Node::new(old.plane, vec![floor(7.0, 0.0)], Some(key), old.back),
    );
    let node = tree.node(front).unwrap();
    assert_eq!(node.polygons, vec![floor(7.0, 0.0)]);
    assert_eq!(node.front, Some(key));
    assert_eq!(node.plane, old.plane);
    assert_eq!(tree.node(back).unwrap().polygons.len(), 2);
    assert_eq!(tree.polygons().len(), 5);
}

#[test]
fn invert_flips_faces_planes_and_children() {
    let (mut tree, root, front, back) = three_nodes();
    tree.invert();
    assert_eq!(tree.root(), root);
    let node = tree.node(root).unwrap();
    assert_eq!(node.front, Some(back));
    assert_eq!(node.back, Some(front));
    assert_eq!(node.polygons, vec![floor(0.0, 0.5).flip()]);
    assert_eq!(node.plane, Plane::new(v(-0.0, -1.0, -0.0), s(-0.5)));
    let node = tree.node(back).unwrap();
    assert_eq!(
        node.polygons,
        vec![floor(2.0, 0.0).flip(), floor(3.0, 0.0).flip()]
    );
    assert_eq!(node.plane, Plane::new(v(-0.0, -0.0, -1.0), s(2.0)));
}

#[test]
fn invert_twice_changes_nothing() {
    let (mut tree, root, front, back) = three_nodes();
    let (before, _, _, _) = three_nodes();
    tree.invert();
    tree.invert();
    assert_eq!(tree.polygons(), before.polygons());
    for key in [root, front, back] {
        let (a, b) = (tree.node(key).unwrap(), before.node(key).unwrap());
        assert_eq!(a.polygons, b.polygons);
        assert_eq!(a.plane, b.plane);
        assert_eq!(a.front, b.front);
        assert_eq!(a.back, b.back);
    }
}

#[test]
fn node_invert_is_its_own_undoing() {
    let node = Node::new(
        Plane::new(v(0.0, 1.0, 0.0), s(0.5)),
        vec![floor(0.0, 0.5), floor(1.0, 0.5)],
        Some(4),
        None,
    );
    let inverted = node.invert();
    assert_eq!(inverted.front, None);
    assert_eq!(inverted.back, Some(4));
    let again = inverted.invert();
    assert_eq!(again.polygons, node.polygons);
    assert_eq!(again.plane, node.plane);
    assert_eq!(again.front, node.front);
    assert_eq!(again.back, node.back);
}

fn uncut(class: FaceIntersect) -> FaceMeasure {
    match class {
        FaceIntersect::Front => FaceMeasure::uncut(s(1.0), s(2.0), s(0.0), s(0.5)),
        FaceIntersect::Back => FaceMeasure::uncut(s(-1.0), s(-2.0), s(0.0), s(0.5)),
        FaceIntersect::CoplanarFront => FaceMeasure::uncut(s(0.0), s(0.0), s(0.0), s(1.0)),
        FaceIntersect::CoplanarBack => FaceMeasure::uncut(s(0.0), s(0.0), s(0.0), s(-1.0)),
        FaceIntersect::Intersect => FaceMeasure::uncut(s(1.0), s(1.0), s(-1.0), s(0.5)),
    }
}

#[test]
fn partition_sorts_as_a_tree_under_construction() {
    let seed = floor(0.0, 0.0);
    let mut parts = Partition::new();
    parts.coplanar.push(seed);
    parts.place(floor(1.0, 0.0), &uncut(FaceIntersect::Front), false);
    parts.place(floor(2.0, 0.0), &uncut(FaceIntersect::Back), false);
    parts.place(floor(3.0, 0.0), &uncut(FaceIntersect::CoplanarFront), false);
    parts.place(floor(4.0, 0.0), &uncut(FaceIntersect::CoplanarBack), false);
    parts.place(floor(5.0, 0.0), &uncut(FaceIntersect::Front), false);
    assert_eq!(parts.front, vec![floor(1.0, 0.0), floor(5.0, 0.0)]);
    assert_eq!(parts.back, vec![floor(2.0, 0.0)]);
    assert_eq!(
        parts.coplanar,
        vec![seed, floor(3.0, 0.0), floor(4.0, 0.0)]
    );
}

#[test]
fn partition_sorts_as_clipping() {
    let mut parts = Partition::new();
    parts.place(floor(1.0, 0.0), &uncut(FaceIntersect::Front), true);
    parts.place(floor(2.0, 0.0), &uncut(FaceIntersect::Back), true);
    parts.place(floor(3.0, 0.0), &uncut(FaceIntersect::CoplanarFront), true);
    parts.place(floor(4.0, 0.0), &uncut(FaceIntersect::CoplanarBack), true);
    assert_eq!(parts.front, vec![floor(1.0, 0.0), floor(3.0, 0.0)]);
    assert_eq!(parts.back, vec![floor(2.0, 0.0), floor(4.0, 0.0)]);
    assert!(parts.coplanar.is_empty());
}

#[test]
fn partition_cuts_a_face_that_lies_across() {
    let face = floor(0.0, 0.0);
    let mut m = uncut(FaceIntersect::Intersect);
    m.i1 = v(0.5, 0.0, 1.0);
    m.i2 = v(0.0, 0.0, 0.5);
    m.front_facing = vec![s(1.0), s(-1.0)];
    m.back_facing = vec![s(1.0)];
    for clipping in [false, true] {
        let mut parts = Partition::new();
        parts.place(face, &m, clipping);
        assert_eq!(
            parts.front,
            vec![
                Face::new(face.p1, face.p2, m.i1),
                Face::new(m.i1, face.p2, m.i2).flip()
            ]
        );
        assert_eq!(parts.back, vec![Face::new(face.p3, m.i1, m.i2)]);
        assert!(parts.coplanar.is_empty());
    }
}

#[test]
fn a_measure_of_a_cut_face_must_hold_the_cut() {
    let face = floor(0.0, 0.0);
    for class in [
        FaceIntersect::Front,
        FaceIntersect::Back,
        FaceIntersect::CoplanarFront,
        FaceIntersect::CoplanarBack,
    ] {
        assert!(uncut(class).fits(&face));
    }
    let mut m = uncut(FaceIntersect::Intersect);
    assert!(!m.fits(&face));
    m.front_facing = vec![s(1.0), s(-1.0)];
    m.back_facing = vec![s(1.0)];
    assert!(m.fits(&face));
    m.i2 = v(f32::INFINITY, 0.0, 0.0);
    assert!(!m.fits(&face));
    m.i2 = v(0.0, 0.0, 0.0);
    m.back_facing = vec![s(1.0), s(1.0)];
    assert!(!m.fits(&face));
    let mut through = FaceMeasure::uncut(s(1.0), s(0.0), s(-1.0), s(0.5));
    through.front_facing = vec![s(1.0)];
    through.back_facing = vec![s(1.0)];
    through.i2 = v(f32::NAN, 0.0, 0.0);
    assert!(through.fits(&face));
    let two_on = FaceMeasure::uncut(s(1.0), s(0.0), s(0.0), s(0.5));
    assert!(two_on.fits(&face));
    let mixed = FaceMeasure::uncut(s(-1.0), s(f32::NAN), s(f32::NAN), s(0.5));
    assert!(!mixed.fits(&face));
}

#[test]
fn partition_sorts_a_list_in_its_order() {
    let faces = vec![floor(1.0, 0.0), floor(2.0, 0.0), floor(3.0, 0.0), floor(4.0, 0.0)];
    let measures = vec![
        uncut(FaceIntersect::Back),
        uncut(FaceIntersect::Front),
        uncut(FaceIntersect::CoplanarBack),
        uncut(FaceIntersect::Back),
    ];
    let mut parts = Partition::new();
    parts.coplanar.push(floor(0.0, 0.0));
    parts.place_all(&faces, &measures, false);
    assert_eq!(parts.front, vec![faces[1]]);
    assert_eq!(parts.back, vec![faces[0], faces[3]]);
    assert_eq!(parts.coplanar, vec![floor(0.0, 0.0), faces[2]]);
    let mut parts = Partition::new();
    parts.place_all(&faces, &measures, true);
    assert_eq!(parts.front, vec![faces[1]]);
    assert_eq!(parts.back, vec![faces[0], faces[2], faces[3]]);
    assert!(parts.coplanar.is_empty());
    parts.place_all(&Vec::new(), &Vec::new(), true);
    assert_eq!(parts.back.len(), 3);
}

#[test]
fn build_begins_with_the_first_polygon_at_the_root() {
    let plane = Plane::new(v(0.0, 1.0, 0.0), s(0.0));
    assert!(BspTree::build(&Vec::new(), plane).is_none());
    let faces = vec![floor(0.0, 0.0), floor(1.0, 0.0), floor(2.0, 0.0)];
    let (mut tree, mut work) = BspTree::build(&faces, plane).unwrap();
    assert!(tree.is_well_formed());
    assert_eq!(tree.node_keys(), vec![tree.root()]);
    assert_eq!(tree.node(tree.root()).unwrap().polygons, vec![faces[0]]);
    assert_eq!(tree.node(tree.root()).unwrap().plane, plane);
    match work.ask(&tree) {
        Some(Ask::Measures(asked, rest)) => {
            assert_eq!(asked, plane);
            assert_eq!(*rest, vec![faces[1], faces[2]]);
        }
        other => panic!("{other:?}"),
    }
    work.answer(
        &mut tree,
        &vec![uncut(FaceIntersect::Front), uncut(FaceIntersect::CoplanarBack)],
    );
    assert_eq!(
        tree.node(tree.root()).unwrap().polygons,
        vec![faces[0], faces[2]]
    );
    match work.ask(&tree) {
        Some(Ask::PlaneOf(face)) => assert_eq!(face, faces[1]),
        other => panic!("{other:?}"),
    }
    let second = Plane::new(v(1.0, 0.0, 0.0), s(1.0));
    work.answer_plane(&mut tree, second);
    assert!(work.is_done());
    assert!(work.ask(&tree).is_none());
    let root = tree.node(tree.root()).unwrap();
    let child = tree.node(root.front.unwrap()).unwrap();
    assert_eq!(root.back, None);
    assert_eq!(child.polygons, vec![faces[1]]);
    assert_eq!(child.plane, second);
    assert_eq!((child.front, child.back), (None, None));
    assert!(tree.is_well_formed());
}

#[test]
fn append_sorts_into_the_children_that_are_there() {
    let (mut tree, root, front, back) = three_nodes();
    let faces = vec![floor(5.0, 0.0), floor(6.0, 0.0), floor(7.0, 0.0)];
    let mut work = tree.append(faces.clone());
    work.answer(
        &mut tree,
        &vec![
            uncut(FaceIntersect::Back),
            uncut(FaceIntersect::Front),
            uncut(FaceIntersect::Back),
        ],
    );
    match work.ask(&tree) {
        Some(Ask::Measures(plane, asked)) => {
            assert_eq!(plane, tree.node(front).unwrap().plane);
            assert_eq!(*asked, vec![faces[1]]);
        }
        other => panic!("{other:?}"),
    }
    work.answer(&mut tree, &vec![uncut(FaceIntersect::CoplanarFront)]);
    match work.ask(&tree) {
        Some(Ask::Measures(plane, asked)) => {
            assert_eq!(plane, tree.node(back).unwrap().plane);
            assert_eq!(*asked, vec![faces[0], faces[2]]);
        }
        other => panic!("{other:?}"),
    }
    work.answer(
        &mut tree,
        &vec![uncut(FaceIntersect::Back), uncut(FaceIntersect::CoplanarBack)],
    );
    match work.ask(&tree) {
        Some(Ask::PlaneOf(face)) => assert_eq!(face, faces[0]),
        other => panic!("{other:?}"),
    }
    work.answer_plane(&mut tree, Plane::new(v(0.0, 0.0, 1.0), s(9.0)));
    assert!(work.is_done());
    assert_eq!(tree.root(), root);
    assert_eq!(
        tree.node(front).unwrap().polygons,
        vec![floor(1.0, 0.0), faces[1]]
    );
    assert_eq!(tree.node(back).unwrap().polygons.len(), 3);
    let grown = tree.node(back).unwrap().back.unwrap();
    assert_eq!(tree.node(grown).unwrap().polygons, vec![faces[0]]);
    assert_eq!(tree.node_keys().len(), 4);
    assert!(tree.is_well_formed());
    assert!(tree.append(Vec::new()).is_done());
}

#[test]
fn clipping_keeps_what_is_in_front_of_a_leaf() {
    let (tree, root, front, back) = three_nodes();
    let faces = vec![floor(5.0, 0.0), floor(6.0, 0.0), floor(7.0, 0.0)];
    let mut work = tree.clip_polygons(faces.clone());
    match work.ask(&tree) {
        Some((plane, asked)) => {
            assert_eq!(plane, tree.node(root).unwrap().plane);
            assert_eq!(*asked, faces);
        }
        None => panic!("there are faces to clip"),
    }
    work.answer(
        &tree,
        &vec![
            uncut(FaceIntersect::Front),
            uncut(FaceIntersect::CoplanarBack),
            uncut(FaceIntersect::CoplanarFront),
        ],
    );
    match work.ask(&tree) {
        Some((plane, asked)) => {
            assert_eq!(plane, tree.node(front).unwrap().plane);
            assert_eq!(*asked, vec![faces[0], faces[2]]);
        }
        None => panic!("the front is clipped first"),
    }
    work.answer(&tree, &vec![uncut(FaceIntersect::Back), uncut(FaceIntersect::Front)]);
    match work.ask(&tree) {
        Some((plane, asked)) => {
            assert_eq!(plane, tree.node(back).unwrap().plane);
            assert_eq!(*asked, vec![faces[1]]);
        }
        None => panic!("the back is clipped last"),
    }
    work.answer(&tree, &vec![uncut(FaceIntersect::Front)]);
    assert!(work.is_done());
    assert_eq!(work.into_kept(), vec![faces[2], faces[1]]);
    assert!(tree.clip_polygons(Vec::new()).is_done());
}

#[test]
fn clip_to_goes_through_the_nodes_that_have_faces() {
    let (mut tree, root, front, back) = three_nodes();
    let (other, _, _, _) = three_nodes();
    tree.set_polygons(front, Vec::new());
    let mut work = tree.clip_to(&other);
    assert!(!work.is_done());
    match work.ask(&other) {
        Some((_, asked)) => assert_eq!(*asked, vec![floor(2.0, 0.0), floor(3.0, 0.0)]),
        None => panic!("the second node has faces"),
    }
    work.answer(
        &mut tree,
        &other,
        &vec![uncut(FaceIntersect::Back), uncut(FaceIntersect::Back)],
    );
    work.answer(
        &mut tree,
        &other,
        &vec![uncut(FaceIntersect::Back), uncut(FaceIntersect::Front)],
    );
    assert_eq!(tree.node(back).unwrap().polygons, vec![floor(3.0, 0.0)]);
    match work.ask(&other) {
        Some((_, asked)) => assert_eq!(*asked, vec![floor(0.0, 0.5)]),
        None => panic!("the root has a face"),
    }
    work.answer(&mut tree, &other, &vec![uncut(FaceIntersect::Back)]);
    work.answer(&mut tree, &other, &vec![uncut(FaceIntersect::Back)]);
    assert!(work.is_done());
    assert!(work.ask(&other).is_none());
    assert!(tree.node(root).unwrap().polygons.is_empty());
    assert!(tree.node(front).unwrap().polygons.is_empty());
    assert_eq!(tree.polygons(), vec![floor(3.0, 0.0)]);
}

fn one_face_trees() -> (BspTree, Plane, Face, BspTree, Plane, Face) {
    let plane_a = Plane::new(v(0.0, 1.0, 0.0), s(0.0));
    let plane_b = Plane::new(v(1.0, 0.0, 0.0), s(2.0));
    let (face_a, face_b) = (floor(0.0, 0.0), floor(2.0, 1.0));
    (
        BspTree::seed(plane_a, face_a),
        plane_a,
        face_a,
        BspTree::seed(plane_b, face_b),
        plane_b,
        face_b,
    )
}

fn asked(work: &Union) -> (Plane, Vec<Face>) {
    match work.ask() {
        Some(Ask::Measures(plane, faces)) => (plane, faces.clone()),
        other => panic!("{other:?}"),
    }
}

#[test]
fn union_drops_what_lies_inside_the_other_solid() {
    let (a, plane_a, face_a, b, plane_b, face_b) = one_face_trees();
    let mut work = a.union(b);
    assert_eq!(asked(&work), (plane_b, vec![face_a]));
    work.answer(&vec![uncut(FaceIntersect::Front)]);
    assert_eq!(asked(&work), (plane_a, vec![face_b]));
    work.answer(&vec![uncut(FaceIntersect::Back)]);
    assert!(work.is_done());
    assert!(work.ask().is_none());
    let tree = work.finish();
    assert_eq!(tree.polygons(), vec![face_a]);
    assert_eq!(tree.node_keys().len(), 1);
}

#[test]
fn union_sorts_what_is_left_of_the_other_solid_into_the_tree() {
    let (a, plane_a, face_a, b, plane_b, face_b) = one_face_trees();
    let mut work = a.union(b);
    assert_eq!(asked(&work), (plane_b, vec![face_a]));
    work.answer(&vec![uncut(FaceIntersect::Front)]);
    assert_eq!(asked(&work), (plane_a, vec![face_b]));
    work.answer(&vec![uncut(FaceIntersect::Front)]);
    assert_eq!(asked(&work), (plane_a, vec![face_b.flip()]));
    work.answer(&vec![uncut(FaceIntersect::CoplanarFront)]);
    assert_eq!(asked(&work), (plane_a, vec![face_b]));
    work.answer(&vec![uncut(FaceIntersect::Back)]);
    match work.ask() {
        Some(Ask::PlaneOf(face)) => assert_eq!(face, face_b),
        other => panic!("{other:?}"),
    }
    assert!(!work.is_done());
    work.answer_plane(plane_b);
    assert!(work.is_done());
    let tree = work.finish();
    assert!(tree.is_well_formed());
    let root = tree.node(tree.root()).unwrap();
    assert_eq!(root.polygons, vec![face_a]);
    assert_eq!(root.front, None);
    let grown = tree.node(root.back.unwrap()).unwrap();
    assert_eq!(grown.polygons, vec![face_b]);
    assert_eq!(grown.plane, plane_b);
}

#[test]
fn union_takes_away_a_face_that_both_solids_share() {
    let (a, plane_a, face_a, b, plane_b, face_b) = one_face_trees();
    let mut work = a.union(b);
    work.answer(&vec![uncut(FaceIntersect::Front)]);
    assert_eq!(asked(&work), (plane_a, vec![face_b]));
    work.answer(&vec![uncut(FaceIntersect::CoplanarFront)]);
    assert_eq!(asked(&work), (plane_a, vec![face_b.flip()]));
    work.answer(&vec![uncut(FaceIntersect::CoplanarBack)]);
    assert!(work.is_done());
    assert_eq!(work.finish().polygons(), vec![face_a]);
    let _ = plane_b;
}

#[test]
fn a_tree_that_names_a_missing_node_is_not_well_formed() {
    let (tree, _, _, _) = three_nodes();
    assert!(tree.is_well_formed());
    let mut nodes = Slab::new();
    let root = nodes.insert(Node::new(
        Plane::new(v(0.0, 1.0, 0.0), s(0.5)),
        Vec::new(),
        None,
        Some(5),
    ));
    assert!(!BspTree::new(root, nodes).is_well_formed());
    assert!(!BspTree::new(3, Slab::new()).is_well_formed());
}

fn three_polygons() -> Navmesh {
    let surface = vec![
        floor(0.0, 0.0),
        floor(1.0, 0.0),
        floor(2.0, 0.0),
        floor(3.0, 0.0),
    ];
    let slopes = vec![s(1.0), s(0.5), s(0.8), s(0.9)];
    Navmesh::new(NavmeshSettings::new(), &surface, &slopes)
}

#[test]
fn default_settings() {
    let settings = NavmeshSettings::default();
    assert_eq!(settings, NavmeshSettings::new());
    assert_eq!(settings.max_step_height, s(0.7));
    assert_eq!(settings.max_slope_cosine, s(0.707));
    assert_eq!(settings.agent_radius, s(0.2));
}

#[test]
fn navmesh_keeps_the_walkable_faces() {
    let nav = three_polygons();
    assert_eq!(*nav.settings(), NavmeshSettings::new());
    assert_eq!(nav.polygon_ids(), vec![0, 1, 2]);
    assert_eq!(nav.polygon(0), Some(floor(0.0, 0.0)));
    assert_eq!(nav.polygon(1), Some(floor(2.0, 0.0)));
    assert_eq!(nav.polygon(2), Some(floor(3.0, 0.0)));
    assert_eq!(nav.polygon(3), None);
    assert_eq!(nav.polygons().len(), 3);
    assert!(nav.links().is_empty());
    assert!(nav.polygon_links().is_empty());
}

#[test]
fn navmesh_leaves_out_a_face_at_the_slope_limit() {
    let surface = vec![floor(0.0, 0.0), floor(1.0, 0.0), floor(2.0, 0.0)];
    let slopes = vec![s(0.707), s(0.7070001), s(f32::NAN)];
    let nav = Navmesh::new(NavmeshSettings::new(), &surface, &slopes);
    assert_eq!(nav.polygon_ids(), vec![0]);
    assert_eq!(nav.polygon(0), Some(floor(1.0, 0.0)));
}

#[test]
fn polygon_edges_go_round_each_polygon() {
    let nav = three_polygons();
    let edges = nav.polygon_edges();
    assert_eq!(edges.len(), 9);
    let face = floor(2.0, 0.0);
    assert_eq!(
        edges[3..6].to_vec(),
        vec![
            PolygonEdge::new(1, face.p1, face.p2),
            PolygonEdge::new(1, face.p2, face.p3),
            PolygonEdge::new(1, face.p3, face.p1),
        ]
    );
    assert_eq!(edges[0].polygon(), 0);
    assert_eq!(edges[8], PolygonEdge::new(2, floor(3.0, 0.0).p3, floor(3.0, 0.0).p1));
    let empty = Navmesh::new(NavmeshSettings::new(), &Vec::new(), &Vec::new());
    assert!(empty.polygon_edges().is_empty());
}

#[test]
fn walkable_polygons_pass_the_slope_limit() {
    let nav = three_polygons();
    let found = nav.walkable_polygons(&vec![s(1.0), s(0.8), s(0.9)]);
    assert_eq!(
        found,
        vec![
            (0, floor(0.0, 0.0)),
            (1, floor(2.0, 0.0)),
            (2, floor(3.0, 0.0))
        ]
    );
    let found = nav.walkable_polygons(&vec![s(0.2), s(0.8), s(0.707)]);
    assert_eq!(found, vec![(1, floor(2.0, 0.0))]);
}

#[test]
fn create_link_stores_the_link_and_its_reverse() {
    let mut nav = three_polygons();
    let link = NavmeshLink::new(0, 2, LinkKind::StepUp(edge(0.0), edge(1.0)));
    let (forward, backward) = nav.create_link(link);
    assert_ne!(forward, backward);
    assert_eq!(nav.links()[forward], link);
    assert_eq!(nav.links()[backward], link.reverse());
    assert_eq!(nav.links().len(), 2);
    assert_eq!(nav.polygon_links()[&0], vec![forward]);
    assert_eq!(nav.polygon_links()[&2], vec![backward]);
    assert_eq!(nav.polygon_links().len(), 2);
    let walk = NavmeshLink::new(0, 1, LinkKind::Walk(edge(2.0)));
    let (there, here) = nav.create_link(walk);
    assert_eq!(nav.polygon_links()[&0], vec![forward, there]);
    assert_eq!(nav.polygon_links()[&1], vec![here]);
    assert_eq!(nav.links()[here], NavmeshLink::new(1, 0, LinkKind::Walk(edge(2.0))));
    assert_eq!(nav.links().len(), 4);
    assert_eq!(nav.polygons().len(), 3);
}

#[test]
fn clear_links_keeps_the_polygons() {
    let mut nav = three_polygons();
    nav.create_link(NavmeshLink::new(0, 1, LinkKind::Walk(edge(2.0))));
    nav.clear_links();
    assert!(nav.links().is_empty());
    assert!(nav.polygon_links().is_empty());
    assert_eq!(nav.polygon_ids(), vec![0, 1, 2]);
    let (forward, backward) = nav.create_link(NavmeshLink::new(1, 2, LinkKind::Walk(edge(2.0))));
    assert_eq!(nav.polygon_links()[&1], vec![forward]);
    assert_eq!(nav.polygon_links()[&2], vec![backward]);
}

fn probe(inside: bool, distance: f32) -> Probe {
    let term = if inside { -1.0 } else { 1.0 };
    Probe {
        ab: s(-1.0),
        bc: s(term),
        ca: s(-0.5),
        distance: s(distance),
    }
}

#[test]
fn closest_polygon_takes_the_nearest_plane() {
    let nav = three_polygons();
    let found = nav.closest_polygon(&vec![probe(true, 2.0), probe(true, -0.5), probe(true, 1.0)]);
    assert_eq!(found, Some((1, floor(2.0, 0.0))));
    let found = nav.closest_polygon(&vec![probe(true, 2.0), probe(false, -0.5), probe(true, 3.0)]);
    assert_eq!(found, Some((0, floor(0.0, 0.0))));
    let found = nav.closest_polygon(&vec![probe(false, 2.0), probe(false, 0.5), probe(false, 1.0)]);
    assert_eq!(found, None);
}

#[test]
fn closest_polygon_breaks_ties_by_the_signed_distance_then_by_the_key() {
    let nav = three_polygons();
    let found = nav.closest_polygon(&vec![probe(true, 1.0), probe(true, -1.0), probe(true, 1.0)]);
    assert_eq!(found, Some((1, floor(2.0, 0.0))));
    let found = nav.closest_polygon(&vec![probe(true, 1.0), probe(true, 4.0), probe(true, 1.0)]);
    assert_eq!(found, Some((0, floor(0.0, 0.0))));
    let found = nav.closest_polygon(&vec![
        probe(true, f32::NAN),
        probe(true, 4.0),
        probe(true, f32::INFINITY),
    ]);
    assert_eq!(found, Some((1, floor(2.0, 0.0))));
}

fn measure(delta_m: f32, delta_c: f32, height: f32) -> PairMeasure {
    PairMeasure {
        back_interval: Span::new(s(0.0), s(4.0)),
        front_interval: Span::new(s(1.0), s(6.0)),
        delta_m: s(delta_m),
        delta_c: s(delta_c),
        walk_x: s(-delta_c / delta_m),
        step_up_x: s((height - delta_c) / delta_m),
        step_down_x: s((-height - delta_c) / delta_m),
    }
}

fn planner(height: f32) -> Navmesh {
    let mut settings = NavmeshSettings::new();
    settings.max_step_height = s(height);
    Navmesh::new(settings, &Vec::new(), &Vec::new())
}

#[test]
fn plan_links_for_parallel_edges() {
    let nav = planner(0.5);
    let overlap = Span::new(s(1.0), s(4.0));
    assert_eq!(
        nav.plan_links(&measure(0.0, 0.0, 0.5)),
        vec![PlannedLink { span: overlap, shape: LinkShape::Level }]
    );
    assert_eq!(
        nav.plan_links(&measure(1e-5, 1e-5, 0.5)),
        vec![PlannedLink { span: overlap, shape: LinkShape::Level }]
    );
    assert_eq!(
        nav.plan_links(&measure(0.0, 0.25, 0.5)),
        vec![PlannedLink { span: overlap, shape: LinkShape::BackToFront }]
    );
    assert_eq!(
        nav.plan_links(&measure(0.0, -0.25, 0.5)),
        vec![PlannedLink { span: overlap, shape: LinkShape::FrontToBackOverFront }]
    );
    assert_eq!(nav.plan_links(&measure(0.0, 0.5, 0.5)), Vec::new());
    assert_eq!(nav.plan_links(&measure(0.0, -0.75, 0.5)), Vec::new());
}

#[test]
fn plan_links_for_edges_that_do_not_overlap() {
    let nav = planner(0.5);
    let mut apart = measure(0.0, 0.0, 0.5);
    apart.front_interval = Span::new(s(4.0), s(6.0));
    assert_eq!(nav.plan_links(&apart), Vec::new());
    apart.front_interval = Span::new(s(6.0), s(6.0));
    assert_eq!(nav.plan_links(&apart), Vec::new());
}

#[test]
fn plan_links_for_edges_that_cross() {
    let nav = planner(0.5);
    let plans = nav.plan_links(&measure(0.5, -1.0, 0.5));
    assert_eq!(
        plans,
        vec![
            PlannedLink {
                span: Span::new(s(1.0), s(2.0)),
                shape: LinkShape::FrontToBackOverBack
            },
            PlannedLink {
                span: Span::new(s(2.0), s(3.0)),
                shape: LinkShape::FrontToBackOverFront
            },
        ]
    );
    let plans = nav.plan_links(&measure(0.5, -0.25, 0.5));
    assert_eq!(
        plans,
        vec![PlannedLink {
            span: Span::new(s(1.0), s(1.5)),
            shape: LinkShape::FrontToBackOverFront
        }]
    );
    assert_eq!(nav.plan_links(&measure(0.5, -4.0, 0.5)), Vec::new());
}

#[test]
fn planned_link_takes_its_ends_and_edges_from_its_shape() {
    let (back_line, front_line) = (edge(1.0), edge(2.0));
    let span = Span::new(s(0.0), s(1.0));
    let make = |shape| PlannedLink { span, shape }.link(7, 3, back_line, front_line);
    assert_eq!(
        make(LinkShape::FrontToBackOverBack),
        NavmeshLink::new(7, 3, LinkKind::StepUp(back_line, front_line))
    );
    assert_eq!(
        make(LinkShape::FrontToBackOverFront),
        NavmeshLink::new(7, 3, LinkKind::StepUp(front_line, back_line))
    );
    assert_eq!(
        make(LinkShape::BackToFront),
        NavmeshLink::new(3, 7, LinkKind::StepUp(back_line, front_line))
    );
    assert_eq!(
        make(LinkShape::Level),
        NavmeshLink::new(7, 3, LinkKind::Walk(back_line))
    );
}

fn record(node: usize, x: f32, portal: Option<usize>, prev: Option<usize>, cost: f32) -> Backtrace {
    Backtrace {
        node,
        point: v(x, 0.0, 0.0),
        portal,
        prev,
        start_cost: s(cost),
        total_cost: s(cost + 1.0),
    }
}

fn crossing(x: f32, start_cost: f32, total_cost: f32) -> Crossing {
    Crossing {
        point: v(x, 0.0, 0.0),
        start_cost: s(start_cost),
        total_cost: s(total_cost),
    }
}

fn linked() -> (Navmesh, Vec<usize>) {
    let mut nav = three_polygons();
    let (a, b) = nav.create_link(NavmeshLink::new(0, 1, LinkKind::Walk(edge(1.0))));
    let (c, d) = nav.create_link(NavmeshLink::new(0, 2, LinkKind::Walk(edge(2.0))));
    let (e, f) = nav.create_link(NavmeshLink::new(1, 2, LinkKind::Walk(edge(3.0))));
    (nav, vec![a, b, c, d, e, f])
}

#[test]
fn backtrace_start_costs_nothing() {
    let start = Backtrace::start(4, v(1.0, 2.0, 3.0), s(9.0));
    assert_eq!(
        start,
        Backtrace {
            node: 4,
            point: v(1.0, 2.0, 3.0),
            portal: None,
            prev: None,
            start_cost: s(0.0),
            total_cost: s(9.0),
        }
    );
    let link = NavmeshLink::new(4, 6, LinkKind::Walk(edge(1.0)));
    let next = Backtrace::new(12, &link, crossing(1.0, 2.5, 7.5), &start);
    assert_eq!(
        next,
        Backtrace {
            node: 6,
            point: v(1.0, 0.0, 0.0),
            portal: Some(12),
            prev: Some(4),
            start_cost: s(2.5),
            total_cost: s(7.5),
        }
    );
}

#[test]
fn there_is_no_search_from_or_to_a_point_off_the_mesh() {
    let start = v(1.0, 2.0, 3.0);
    assert!(constructive::astar::astar(None, Some(2), start, s(1.0)).is_none());
    assert!(constructive::astar::astar(Some(2), None, start, s(1.0)).is_none());
    assert!(constructive::astar::astar(None, None, start, s(1.0)).is_none());
    let (mut search, end_node) = constructive::astar::astar(Some(4), Some(2), start, s(1.5)).unwrap();
    assert_eq!(end_node, 2);
    assert_eq!(search.backtrace(4), Some(Backtrace::start(4, start, s(1.5))));
    assert_eq!(search.next(end_node), Step::Expand(Backtrace::start(4, start, s(1.5))));
    assert_eq!(search.next(end_node), Step::Exhausted);
}

#[test]
fn a_link_is_crossed_in_its_middle_where_the_way_misses_it() {
    let hit = v(1.0, 0.0, 0.25);
    let middle = v(1.0, 0.0, 0.5);
    assert_eq!(Crossing::point_on(Some(hit), middle), hit);
    assert_eq!(Crossing::point_on(None, middle), middle);
}

#[test]
fn search_takes_the_cheapest_record_first() {
    let (nav, ids) = linked();
    let start = Backtrace::start(0, v(0.0, 0.0, 0.0), s(5.0));
    let mut search = Search::new(start);
    assert_eq!(search.backtrace(0), Some(start));
    assert_eq!(search.backtrace(1), None);
    assert_eq!(search.next(2), Step::Expand(start));
    assert!(!search.is_closed(0));
    search.expand(&nav, &start, &vec![crossing(1.0, 1.0, 6.0), crossing(2.0, 2.0, 4.0)]);
    assert!(search.is_closed(0));
    let to_one = Backtrace::new(ids[0], &nav.links()[ids[0]], crossing(1.0, 1.0, 6.0), &start);
    let to_two = Backtrace::new(ids[2], &nav.links()[ids[2]], crossing(2.0, 2.0, 4.0), &start);
    assert_eq!(search.backtrace(1), Some(to_one));
    assert_eq!(search.backtrace(2), Some(to_two));
    assert_eq!(search.next(9), Step::Expand(to_two));
    assert_eq!(search.next(1), Step::Arrived(to_one));
    assert_eq!(search.next(1), Step::Exhausted);
    assert_eq!(search.next(1), Step::Exhausted);
}

#[test]
fn search_keeps_the_cheaper_record_and_drops_stale_ones() {
    let (nav, ids) = linked();
    let start = Backtrace::start(0, v(0.0, 0.0, 0.0), s(5.0));
    let mut search = Search::new(start);
    assert_eq!(search.next(9), Step::Expand(start));
    search.expand(&nav, &start, &vec![crossing(1.0, 1.0, 3.0), crossing(2.0, 2.0, 8.0)]);
    let to_one = search.backtrace(1).unwrap();
    let dear = search.backtrace(2).unwrap();
    assert_eq!(dear.total_cost, s(8.0));
    assert_eq!(search.next(9), Step::Expand(to_one));
    search.expand(&nav, &to_one, &vec![crossing(0.5, 9.0, 9.0), crossing(3.0, 2.0, 4.0)]);
    assert_eq!(search.backtrace(0), Some(start));
    let cheap = Backtrace::new(ids[4], &nav.links()[ids[4]], crossing(3.0, 2.0, 4.0), &to_one);
    assert_eq!(search.backtrace(2), Some(cheap));
    assert_eq!(search.next(9), Step::Expand(cheap));
    search.expand(&nav, &cheap, &vec![crossing(0.0, 0.0, 0.0), crossing(0.0, 0.0, 0.0)]);
    assert_eq!(search.backtrace(0), Some(start));
    assert_eq!(search.backtrace(1), Some(to_one));
    assert_eq!(search.next(9), Step::Stale);
    assert_eq!(search.next(9), Step::Exhausted);
    let chain = search.chain(2);
    assert_eq!(chain, vec![cheap, to_one, start]);
    assert_eq!(search.chain(0), vec![start]);
}

#[test]
fn search_does_not_replace_a_record_by_one_as_dear() {
    let (nav, _) = linked();
    let start = Backtrace::start(0, v(0.0, 0.0, 0.0), s(5.0));
    let mut search = Search::new(start);
    assert_eq!(search.next(9), Step::Expand(start));
    search.expand(&nav, &start, &vec![crossing(1.0, 1.0, 3.0), crossing(2.0, 2.0, 4.0)]);
    let to_one = search.backtrace(1).unwrap();
    let to_two = search.backtrace(2).unwrap();
    assert_eq!(search.next(9), Step::Expand(to_one));
    search.expand(&nav, &to_one, &vec![crossing(0.5, 9.0, 9.0), crossing(3.0, 2.0, 4.0)]);
    assert_eq!(search.backtrace(2), Some(to_two));
    assert_eq!(search.next(9), Step::Expand(to_two));
    assert_eq!(search.next(9), Step::Exhausted);
}

#[test]
fn search_with_one_polygon_arrives_at_once() {
    let start = Backtrace::start(3, v(0.0, 0.0, 0.0), s(5.0));
    let mut search = Search::new(start);
    assert_eq!(search.next(3), Step::Arrived(start));
    assert_eq!(search.chain(3), vec![start]);
    assert_eq!(search.next(3), Step::Exhausted);
}

#[test]
fn search_expands_a_polygon_without_links() {
    let nav = three_polygons();
    let start = Backtrace::start(1, v(0.0, 0.0, 0.0), s(5.0));
    let mut search = Search::new(start);
    assert_eq!(search.next(0), Step::Expand(start));
    search.expand(&nav, &start, &Vec::new());
    assert!(search.is_closed(1));
    assert_eq!(search.next(0), Step::Exhausted);
}

#[test]
fn path_runs_from_the_start_to_the_goal() {
    let chain = vec![
        record(5, 3.0, Some(8), Some(4), 3.0),
        record(4, 2.0, Some(6), Some(2), 2.0),
        record(2, 1.0, Some(1), Some(0), 1.0),
        record(0, 0.0, None, None, 0.0),
    ];
    let gaps = vec![s(0.0), s(1.0), s(1.0), s(1.0)];
    let end = v(3.5, 0.0, 0.0);
    let path = contruct_backtrace(end, 5, &chain, &gaps);
    assert_eq!(
        path,
        vec![
            Waypoint::new(0, None, v(0.0, 0.0, 0.0)),
            Waypoint::new(2, Some(1), v(1.0, 0.0, 0.0)),
            Waypoint::new(4, Some(6), v(2.0, 0.0, 0.0)),
            Waypoint::new(5, Some(8), v(3.0, 0.0, 0.0)),
            Waypoint::new(5, None, end),
        ]
    );
}

#[test]
fn path_leaves_out_waypoints_that_fall_together() {
    let chain = vec![
        record(5, 3.0, Some(8), Some(4), 3.0),
        record(4, 3.0, Some(6), Some(2), 2.0),
        record(2, 1.0, Some(1), Some(0), 1.0),
        record(0, 1.0, None, None, 0.0),
    ];
    let gaps = vec![s(4.0), s(0.0), s(4.0), s(1e-5)];
    let end = v(3.5, 0.0, 0.0);
    let path = contruct_backtrace(end, 5, &chain, &gaps);
    assert_eq!(
        path,
        vec![
            Waypoint::new(2, Some(1), v(1.0, 0.0, 0.0)),
            Waypoint::new(5, Some(8), v(3.0, 0.0, 0.0)),
            Waypoint::new(5, None, end),
        ]
    );
    let alone = contruct_backtrace(end, 0, &vec![record(0, 3.5, None, None, 0.0)], &vec![s(0.0)]);
    assert_eq!(
        alone,
        vec![
            Waypoint::new(0, None, v(3.5, 0.0, 0.0)),
            Waypoint::new(0, None, end)
        ]
    );
}

fn route() -> Vec<Waypoint> {
    vec![
        Waypoint::new(0, None, v(0.0, 0.0, 0.0)),
        Waypoint::new(1, Some(10), v(1.0, 0.0, 0.0)),
        Waypoint::new(1, None, v(2.0, 0.0, 0.0)),
        Waypoint::new(2, Some(11), v(3.0, 0.0, 0.0)),
        Waypoint::new(2, None, v(4.0, 0.0, 0.0)),
    ]
}

#[test]
fn shortener_goes_over_the_triples_with_a_link() {
    let mut path = route();
    let mut passes = Shortener::new();
    assert_eq!(passes.next(&path), Some((0, 10)));
    assert!(!passes.apply(&mut path, 0, None, s(9.0)));
    assert_eq!(passes.next(&path), Some((2, 11)));
    assert!(!passes.apply(&mut path, 2, Some(v(3.0, 0.0, 0.5)), s(1e-5)));
    assert_eq!(path, route());
    assert_eq!(passes.next(&path), None);
    assert_eq!(passes.next(&path), None);
    assert_eq!(passes.pass, MAX_PASSES);
}

#[test]
fn shortener_moves_a_waypoint_and_goes_round_again() {
    let mut path = route();
    let mut passes = Shortener::new();
    assert_eq!(passes.next(&path), Some((0, 10)));
    assert!(passes.apply(&mut path, 0, Some(v(1.0, 0.0, 0.5)), s(0.25)));
    assert_eq!(path[1], Waypoint::new(1, Some(10), v(1.0, 0.0, 0.5)));
    assert_eq!(passes.next(&path), Some((2, 11)));
    assert!(!passes.apply(&mut path, 2, None, s(0.0)));
    assert_eq!(passes.next(&path), Some((0, 10)));
    assert_eq!(passes.pass, 1);
    assert!(!passes.apply(&mut path, 0, Some(v(1.0, 0.0, 0.5)), s(0.0)));
    assert_eq!(passes.next(&path), Some((2, 11)));
    assert_eq!(passes.next(&path), None);
    let mut expected = route();
    expected[1].point = v(1.0, 0.0, 0.5);
    assert_eq!(path, expected);
}

#[test]
fn shortener_stops_after_a_hundred_passes() {
    let mut path = route();
    let mut passes = Shortener::new();
    let mut asked = 0;
    while let Some((i, _)) = passes.next(&path) {
        asked += 1;
        assert!(passes.apply(&mut path, i, Some(v(asked as f32, 0.0, 0.0)), s(1.0)));
        assert!(asked <= 200);
    }
    assert_eq!(asked, 200);
}

#[test]
fn shortener_has_nothing_to_do_on_a_short_path() {
    let path = vec![
        Waypoint::new(0, None, v(0.0, 0.0, 0.0)),
        Waypoint::new(0, None, v(1.0, 0.0, 0.0)),
    ];
    let mut passes = Shortener::new();
    assert_eq!(passes.next(&path), None);
    let mut passes = Shortener::new();
    assert_eq!(passes.next(&Vec::new()), None);
    let no_links = vec![
        Waypoint::new(0, None, v(0.0, 0.0, 0.0)),
        Waypoint::new(0, None, v(1.0, 0.0, 0.0)),
        Waypoint::new(0, None, v(2.0, 0.0, 0.0)),
    ];
    let mut passes = Shortener::new();
    assert_eq!(passes.next(&no_links), None);
}

use constructive::astar::{contruct_backtrace, Backtrace, Crossing, Search, Shortener, Step, Waypoint};
use constructive::brush::{Brush, Face, FaceIntersect};
use constructive::edge::Edge3D;
use constructive::edgelist::{EdgePlanes, PolygonEdge, VerticalPlane};
use constructive::link::{LinkKind, NavmeshLink};
use constructive::navmesh::{Navmesh, NavmeshSettings, PairMeasure, Probe};
use constructive::plane::{FaceMeasure, Plane, Side, SplitPlan, Weighted};
use constructive::scalar::Scalar;
use constructive::csg::{Appender, Ask};
use constructive::tree::BspTree;
use constructive::vector::Vec3;
use glam::{Mat4, Vec2};
use std::f32::consts::TAU;

type Point = glam::Vec3;

const TOLERANCE: f32 = 1e-5;

fn sc(x: f32) -> Scalar {
    Scalar::from_bits(x.to_bits())
}

fn fl(s: Scalar) -> f32 {
    f32::from_bits(s.to_bits())
}

fn lib(p: Point) -> Vec3 {
    Vec3::new(sc(p.x), sc(p.y), sc(p.z))
}

fn pt(v: Vec3) -> Point {
    Point::new(fl(v.x), fl(v.y), fl(v.z))
}

fn normal(face: &Face) -> Point {
    (pt(face.p1) - pt(face.p3))
        .cross(pt(face.p2) - pt(face.p3))
        .normalize()
}

fn new_face(p1: Point, p2: Point, p3: Point) -> Face {
    assert!(p1.is_finite());
    assert!(p2.is_finite());
    assert!(p3.is_finite());
    let face = Face::new(lib(p1), lib(p2), lib(p3));
    assert!(normal(&face).is_finite());
    face
}

fn plane_from_face(face: &Face) -> Plane {
    let normal = normal(face);
    assert!(normal.is_finite());
    let distance = pt(face.p1).dot(normal);
    Plane::new(lib(normal), sc(distance))
}

fn distance_to_point(plane: &Plane, point: Point) -> f32 {
    point.dot(pt(plane.normal)) - fl(plane.distance)
}

fn transform_brush(brush: &Brush, transform: Mat4) -> Brush {
    Brush::new(
        brush
            .faces()
            .iter()
            .map(|face| {
                new_face(
                    transform.transform_point3(pt(face.p1)),
                    transform.transform_point3(pt(face.p2)),
                    transform.transform_point3(pt(face.p3)),
                )
            })
            .collect(),
    )
}

fn cut_points(plan: &SplitPlan) -> (Point, Option<Point>) {
    let cut = |from: Weighted, to: Weighted| {
        let w = fl(from.distance);
        pt(from.point).lerp(pt(to.point), w / (w - fl(to.distance)))
    };
    match *plan {
        SplitPlan::Through { front, back, .. } => (cut(back, front), None),
        SplitPlan::OneFront { front, back1, back2 } => (cut(front, back1), Some(cut(front, back2))),
        SplitPlan::OneBack { back, front1, front2 } => (cut(back, front1), Some(cut(back, front2))),
    }
}

fn measure(plane: &Plane, face: &Face) -> FaceMeasure {
    let d = corners(face).map(|p| distance_to_point(plane, p));
    let towards = normal(face);
    let mut m = FaceMeasure::uncut(sc(d[0]), sc(d[1]), sc(d[2]), sc(towards.dot(pt(plane.normal))));
    if Plane::classify_face(m.d1, m.d2, m.d3, m.facing) != FaceIntersect::Intersect {
        return m;
    }
    let sides = d.map(|d| Plane::side(sc(d)));
    let count = |side: Side| sides.iter().filter(|s| **s == side).count();
    if count(Side::On) == 1 {
        assert_eq!(count(Side::Back), 1);
        assert_eq!(count(Side::Front), 1);
    }
    assert_ne!(count(Side::On), 2);
    if let Some(plan) = Plane::split_plan(*face, m.d1, m.d2, m.d3) {
        let (i1, i2) = cut_points(&plan);
        assert!(i1.is_finite());
        assert!(i2.map_or(true, |p| p.is_finite()));
        m.i1 = lib(i1);
        m.i2 = lib(i2.unwrap_or(i1));
        let pieces = plan.fragments(m.i1, m.i2);
        let facing = |pieces: &Vec<Face>| -> Vec<Scalar> {
            pieces
                .iter()
                .map(|piece| {
                    let n = normal(piece);
                    assert!(n.is_finite());
                    sc(n.dot(towards))
                })
                .collect()
        };
        m.front_facing = facing(&pieces.front);
        m.back_facing = facing(&pieces.back);
    }
    m
}

fn cut_face(plane: &Plane, face: Face, front: &mut Vec<Face>, back: &mut Vec<Face>) {
    let m = measure(plane, &face);
    if let Some(plan) = Plane::split_plan(face, m.d1, m.d2, m.d3) {
        let pieces = plan.fragments(m.i1, m.i2);
        Plane::split_face(&pieces, &m.front_facing, &m.back_facing, front, back);
    }
}

fn measure_all(plane: &Plane, faces: &[Face]) -> Vec<FaceMeasure> {
    faces
        .iter()
        .map(|face| {
            let measured = measure(plane, face);
            assert!(measured.fits(face));
            measured
        })
        .collect()
}

fn finish(tree: &mut BspTree, mut work: Appender) {
    loop {
        let (plane, measures) = match work.ask(tree) {
            None => return,
            Some(Ask::PlaneOf(face)) => (Some(plane_from_face(&face)), Vec::new()),
            Some(Ask::Measures(plane, faces)) => (None, measure_all(&plane, faces)),
        };
        match plane {
            Some(plane) => work.answer_plane(tree, plane),
            None => work.answer(tree, &measures),
        }
        assert!(tree.is_well_formed());
    }
}

fn build(polygons: &[Face]) -> Option<BspTree> {
    let first = polygons.first()?;
    let (mut tree, work) = BspTree::build(&polygons.to_vec(), plane_from_face(first))?;
    finish(&mut tree, work);
    Some(tree)
}

fn append(tree: &mut BspTree, polygons: &[Face]) {
    assert!(tree.is_well_formed());
    let work = tree.append(polygons.to_vec());
    finish(tree, work);
}

fn clip_polygons(tree: &BspTree, polygons: Vec<Face>) -> Vec<Face> {
    let mut work = tree.clip_polygons(polygons);
    while let Some((plane, faces)) = work.ask(tree) {
        let measures = measure_all(&plane, faces);
        work.answer(tree, &measures);
    }
    assert!(work.is_done());
    work.into_kept()
}

fn clip_to(tree: &mut BspTree, other: &BspTree) {
    assert!(tree.is_well_formed());
    assert!(other.is_well_formed());
    let mut work = tree.clip_to(other);
    while let Some((plane, faces)) = work.ask(other) {
        let measures = measure_all(&plane, faces);
        work.answer(tree, other, &measures);
    }
    assert!(work.is_done());
}

fn union_step_by_step(tree: &mut BspTree, mut other: BspTree) {
    clip_to(tree, &other);
    clip_to(&mut other, tree);
    other.invert();
    clip_to(&mut other, tree);
    other.invert();
    append(tree, &other.polygons());
}

fn union(tree: &mut BspTree, other: BspTree) {
    assert!(tree.is_well_formed());
    assert!(other.is_well_formed());
    let first = std::mem::replace(tree, BspTree::new(0, slab::Slab::new()));
    let mut work = first.union(other);
    loop {
        let (plane, measures) = match work.ask() {
            None => break,
            Some(Ask::PlaneOf(face)) => (Some(plane_from_face(&face)), Vec::new()),
            Some(Ask::Measures(plane, faces)) => (None, measure_all(&plane, faces)),
        };
        match plane {
            Some(plane) => work.answer_plane(plane),
            None => work.answer(&measures),
        }
    }
    assert!(work.is_done());
    *tree = work.finish();
}

fn as_vertical_plane(edge: &PolygonEdge) -> VerticalPlane {
    let bi = pt(edge.p2) - pt(edge.p1);
    let normal = bi.cross(Point::Y).normalize();
    assert!(normal.is_normalized());
    VerticalPlane::new(lib(normal), sc(normal.dot(pt(edge.p1))))
}

fn tangent(plane: &VerticalPlane) -> Point {
    pt(plane.normal).cross(Point::Y)
}

fn transform_coplanar_point(plane: &VerticalPlane, point: Point) -> Vec2 {
    Vec2::new(point.dot(tangent(plane)), point.dot(Point::Y))
}

fn coplanar_to_world(plane: &VerticalPlane, p: Vec2) -> Point {
    tangent(plane) * p.x + pt(plane.normal) * fl(plane.distance) + Point::Y * p.y
}

fn generate_links(nav: &mut Navmesh) {
    nav.clear_links();
    let mut index = EdgePlanes::new();
    for edge in nav.polygon_edges() {
        let plane = as_vertical_plane(&edge);
        let canonical = plane.canonicalize();
        let normal = pt(canonical.normal);
        let angle = normal.z.atan2(normal.x);
        let disc_angle = (((angle + TAU) % TAU) * 1024.0).round() as u32;
        let distance = (fl(canonical.distance) * 256.0).round() as i32;
        let facing = pt(plane.normal).dot(normal);
        index.insert(disc_angle, distance, canonical, edge, sc(facing));
    }
    let height = fl(nav.settings().max_step_height);
    for pair in index.pairs() {
        let plane = &pair.plane;
        let s = (
            transform_coplanar_point(plane, pt(pair.back.p1)),
            transform_coplanar_point(plane, pt(pair.back.p2)),
        );
        let d = (
            transform_coplanar_point(plane, pt(pair.front.p1)),
            transform_coplanar_point(plane, pt(pair.front.p2)),
        );
        let m_s = (s.1.y - s.0.y) / (s.1.x - s.0.x);
        let m_d = (d.1.y - d.0.y) / (d.1.x - d.0.x);
        let c_s = s.0.y - m_s * s.0.x;
        let c_d = d.0.y - m_d * d.0.x;
        let delta_m = m_d - m_s;
        let delta_c = c_d - c_s;
        let measure = PairMeasure {
            back_interval: VerticalPlane::coplanar_interval(sc(s.0.x), sc(s.1.x)),
            front_interval: VerticalPlane::coplanar_interval(sc(d.0.x), sc(d.1.x)),
            delta_m: sc(delta_m),
            delta_c: sc(delta_c),
            walk_x: sc(-delta_c / delta_m),
            step_up_x: sc((height - delta_c) / delta_m),
            step_down_x: sc((-height - delta_c) / delta_m),
        };
        for plan in nav.plan_links(&measure) {
            let (low, high) = (fl(plan.span.min), fl(plan.span.max));
            let along = |m: f32, c: f32| {
                Edge3D::new(
                    lib(coplanar_to_world(plane, Vec2::new(low, m * low + c))),
                    lib(coplanar_to_world(plane, Vec2::new(high, m * high + c))),
                )
            };
            let link = plan.link(
                pair.front.polygon(),
                pair.back.polygon(),
                along(m_s, c_s),
                along(m_d, c_d),
            );
            assert!(nav.polygon(link.from()).is_some());
            assert!(nav.polygon(link.to()).is_some());
            nav.create_link(link);
        }
    }
}

fn navmesh(settings: NavmeshSettings, brushes: &[(Mat4, Brush)]) -> Navmesh {
    let radius = fl(settings.agent_radius);
    let trees: Vec<BspTree> = brushes
        .iter()
        .filter_map(|(transform, brush)| {
            let faces: Vec<Face> = brush
                .faces()
                .iter()
                .map(|face| {
                    let inflate = |p: Vec3| {
                        let p = pt(p);
                        transform.transform_point3(p + p.signum() * radius)
                    };
                    new_face(inflate(face.p1), inflate(face.p2), inflate(face.p3))
                })
                .collect();
            build(&faces)
        })
        .collect();
    let tree = trees.into_iter().reduce(|mut tree, other| {
        union(&mut tree, other);
        tree
    });
    let surface: Vec<Face> = tree.map(|tree| tree.polygons()).unwrap_or_default();
    let slopes: Vec<Scalar> = surface
        .iter()
        .map(|face| sc(normal(face).dot(Point::Y)))
        .collect();
    let mut nav = Navmesh::new(settings, &surface, &slopes);
    generate_links(&mut nav);
    nav
}

fn slopes(nav: &Navmesh) -> Vec<Scalar> {
    nav.polygon_ids()
        .iter()
        .map(|id| sc(normal(&nav.polygon(*id).expect("invalid key")).dot(Point::Y)))
        .collect()
}

fn closest_polygon(nav: &Navmesh, point: Point) -> Option<(usize, Face)> {
    let probes: Vec<Probe> = nav
        .polygon_ids()
        .iter()
        .map(|id| {
            let face = nav.polygon(*id).expect("invalid key");
            let (p1, p2, p3) = (pt(face.p1), pt(face.p2), pt(face.p3));
            let normal = normal(&face);
            Probe {
                ab: sc((point - p1).dot((p2 - p1).cross(normal))),
                bc: sc((point - p2).dot((p3 - p2).cross(normal))),
                ca: sc((point - p3).dot((p1 - p3).cross(normal))),
                distance: sc(normal.dot(point) - p1.dot(normal)),
            }
        })
        .collect();
    nav.closest_polygon(&probes)
}

fn intersect_ray_clipped(edge: &Edge3D, ray_origin: Point, ray_direction: Point) -> Option<Point> {
    let p1 = pt(edge.p1);
    let edge_dir = pt(edge.p2) - p1;
    let normal = edge_dir.cross(Point::Y);
    let denom = ray_direction.dot(normal);
    let t = (p1 - ray_origin).dot(normal) / denom;
    let intersection = ray_origin + t * ray_direction;
    let edge_coord = (intersection - p1).dot(edge_dir) / edge_dir.dot(edge_dir);
    let place = Edge3D::intersect_ray_clipped(sc(denom), sc(t), sc(edge_coord))?;
    Some(fl(place) * edge_dir + p1)
}

fn shorten(nav: &Navmesh, path: &mut Vec<Waypoint>) {
    let mut passes = Shortener::new();
    while let Some((i, link)) = passes.next(path) {
        let edge = nav.links()[link].destination_edge();
        let a = pt(path[i].point);
        let b = pt(path[i + 1].point);
        let c = pt(path[i + 2].point);
        let hit = intersect_ray_clipped(&edge, a, c - a);
        let moved = hit.map_or(0.0, |p| b.distance_squared(p));
        passes.apply(path, i, hit.map(lib), sc(moved));
    }
}

fn astar<F>(nav: &Navmesh, start: Point, end: Point, heuristic: F) -> Option<Vec<Waypoint>>
where
    F: Fn(Point, Point) -> f32,
{
    let (mut search, end_node) = constructive::astar::astar(
        closest_polygon(nav, start).map(|found| found.0),
        closest_polygon(nav, end).map(|found| found.0),
        lib(start),
        sc(heuristic(start, end)),
    )?;
    loop {
        match search.next(end_node) {
            Step::Exhausted => return None,
            Step::Stale => continue,
            Step::Arrived(current) => {
                let chain = search.chain(current.node);
                let mut prev = end;
                let gaps: Vec<Scalar> = chain
                    .iter()
                    .map(|record| {
                        let gap = prev.distance_squared(pt(record.point));
                        prev = pt(record.point);
                        sc(gap)
                    })
                    .collect();
                let mut path = contruct_backtrace(lib(end), current.node, &chain, &gaps);
                shorten(nav, &mut path);
                return Some(path);
            }
            Step::Expand(current) => {
                let at = pt(current.point);
                let crossings: Vec<Crossing> = nav
                    .polygon_links()
                    .get(&current.node)
                    .into_iter()
                    .flatten()
                    .map(|&portal| {
                        let edge = nav.links()[portal].destination_edge();
                        let (p1, p2) = (pt(edge.p1), pt(edge.p2));
                        let midpoint = (p1 + p2) / 2.0;
                        let hit = intersect_ray_clipped(&edge, at, end - at);
                        let p = pt(Crossing::point_on(hit.map(lib), lib(midpoint)));
                        let start_cost = fl(current.start_cost) + p.distance(at);
                        Crossing {
                            point: lib(p),
                            start_cost: sc(start_cost),
                            total_cost: sc(start_cost + heuristic(p, end)),
                        }
                    })
                    .collect();
                search.expand(nav, &current, &crossings);
            }
        }
    }
}

fn polyline_length(path: &[Waypoint]) -> f32 {
    path.windows(2)
        .map(|pair| pt(pair[0].point).distance(pt(pair[1].point)))
        .sum()
}

fn slab_brush(scale: Point, at: Point) -> (Mat4, Brush) {
    (
        Mat4::from_translation(at),
        transform_brush(&Brush::cube(), Mat4::from_scale(scale)),
    )
}

fn scaled_cube(scale: Point, at: Point) -> Brush {
    transform_brush(
        &Brush::cube(),
        Mat4::from_translation(at) * Mat4::from_scale(scale),
    )
}

fn corners(face: &Face) -> [Point; 3] {
    [pt(face.p1), pt(face.p2), pt(face.p3)]
}

fn area(face: &Face) -> f32 {
    let [a, b, c] = corners(face);
    (b - a).cross(c - a).length() / 2.0
}

fn same_faces(mut a: Vec<Face>, mut b: Vec<Face>) -> bool {
    let key = |f: &Face| corners(f).map(|p| p.to_array().map(f32::to_bits));
    a.sort_by_key(key);
    b.sort_by_key(key);
    a == b
}

fn is_step(link: &NavmeshLink) -> bool {
    matches!(link.kind(), LinkKind::StepUp(_, _))
}

fn height(nav: &Navmesh, polygon: usize) -> f32 {
    pt(nav.polygons()[polygon].p1).y
}

fn flat(p: Point) -> Vec2 {
    Vec2::new(p.x, p.z)
}

#[test]
fn test_bsp() {
    let p1 = Point::new(-1.0, 0.0, 1.0);
    let p2 = Point::new(-1.0, 0.0, -1.0);
    let p3 = Point::new(1.0, 0.0, 1.0);
    let p4 = Point::new(-1.0, 1.0, 1.0);
    let brush = Brush::new(vec![
        new_face(p1, p2, p4),
        new_face(p2, p3, p4),
        new_face(p3, p1, p4),
    ]);
    let tree = build(brush.faces());
    let tree = tree.expect("three faces make a tree");
    println!("{tree:#?}");
    assert!(same_faces(tree.polygons(), brush.faces().to_vec()));
}

fn sphere_lattice() -> Vec<Vec<Vec3>> {
    (0..=16)
        .map(|i| {
            let theta = i as f32 * std::f32::consts::PI * 2.0 / 16.0;
            (0..=12)
                .map(|j| {
                    let phi = j as f32 * std::f32::consts::PI / 12.0;
                    lib(Point::new(
                        theta.cos() * phi.sin(),
                        phi.cos(),
                        theta.sin() * phi.sin(),
                    ))
                })
                .collect()
        })
        .collect()
}

#[test]
fn normals_of_the_primitives_have_length_one() {
    let sphere = Brush::uv_sphere(&sphere_lattice());
    assert_eq!(sphere.faces().len(), 192);
    for brush in [Brush::cube(), Brush::plane(), sphere] {
        for face in brush.faces() {
            let n = normal(face);
            assert!(n.is_finite());
            assert!((n.length() - 1.0).abs() < 1e-5);
        }
    }
}

#[test]
fn cube_and_plane_face_outward() {
    for face in Brush::cube().faces() {
        let [a, b, c] = corners(face);
        let centre = (a + b + c) / 3.0;
        assert!(normal(face).dot(centre) > 0.9);
    }
    for face in Brush::plane().faces() {
        assert_eq!(normal(face), Point::Y);
    }
}

#[test]
fn a_ray_meets_an_edge_on_the_edge() {
    let edge = Edge3D::new(lib(Point::new(1.0, 0.5, -1.0)), lib(Point::new(1.0, 0.5, 1.0)));
    let origin = Point::new(-1.0, 0.0, 0.0);
    let hit = intersect_ray_clipped(&edge, origin, Point::new(1.0, 0.0, 0.25)).unwrap();
    assert!((hit - Point::new(1.0, 0.5, 0.5)).length() < 1e-6);
    let hit = intersect_ray_clipped(&edge, origin, Point::new(1.0, 0.0, 5.0)).unwrap();
    assert_eq!(hit, Point::new(1.0, 0.5, 1.0));
    let hit = intersect_ray_clipped(&edge, origin, Point::new(1.0, 0.0, -5.0)).unwrap();
    assert_eq!(hit, Point::new(1.0, 0.5, -1.0));
    assert_eq!(intersect_ray_clipped(&edge, origin, Point::new(-1.0, 0.0, 0.0)), None);
    assert_eq!(intersect_ray_clipped(&edge, origin, Point::new(0.0, 0.0, 1.0)), None);
    assert_eq!(intersect_ray_clipped(&edge, origin, Point::new(0.0, 1.0, 0.0)), None);
}

#[test]
fn build_of_nothing_is_no_tree() {
    assert!(build(&[]).is_none());
}

#[test]
fn cube_cube_union() {
    let half = Point::splat(0.5);
    let a = scaled_cube(half, Point::ZERO);
    let b = scaled_cube(half, Point::new(1.0, 0.0, 0.0));
    let mut tree = build(a.faces()).unwrap();
    union(&mut tree, build(b.faces()).unwrap());
    let surface = tree.polygons();
    let in_wall = |face: &Face| corners(face).iter().all(|p| (p.x - 0.5).abs() < TOLERANCE);
    assert!(!surface.iter().any(in_wall));
    assert_eq!(a.faces().iter().filter(|f| in_wall(f)).count(), 2);
    assert_eq!(b.faces().iter().filter(|f| in_wall(f)).count(), 2);
    let outside: Vec<Face> = a
        .faces()
        .iter()
        .chain(b.faces())
        .filter(|f| !in_wall(f))
        .copied()
        .collect();
    assert!(same_faces(surface, outside));
}

#[test]
fn union_is_the_clipping_of_each_solid_to_the_other() {
    let a = Brush::cube();
    let b = scaled_cube(Point::new(0.5, 2.0, 0.75), Point::new(0.75, 0.25, 0.5));
    let mut whole = build(a.faces()).unwrap();
    union(&mut whole, build(b.faces()).unwrap());
    let mut stepwise = build(a.faces()).unwrap();
    union_step_by_step(&mut stepwise, build(b.faces()).unwrap());
    assert!(!whole.polygons().is_empty());
    assert_eq!(whole.polygons(), stepwise.polygons());
    let outside: Vec<Face> = clip_polygons(&build(b.faces()).unwrap(), a.faces().to_vec());
    assert!(!outside.is_empty());
    for face in &outside {
        for p in corners(face) {
            let inside_b = (p.x - 0.75).abs() < 0.5 - 1e-4
                && (p.y - 0.25).abs() < 2.0 - 1e-4
                && (p.z - 0.5).abs() < 0.75 - 1e-4;
            assert!(!inside_b);
        }
    }
    let total: f32 = outside.iter().map(area).sum();
    assert!(total < 24.0);
}

#[test]
fn union_with_itself_keeps_the_surface() {
    let cube = Brush::cube();
    let mut tree = build(cube.faces()).unwrap();
    union(&mut tree, build(cube.faces()).unwrap());
    assert!(same_faces(tree.polygons(), cube.faces().to_vec()));
}

#[test]
fn overlapping_union_keeps_the_outer_area() {
    let a = Brush::cube();
    let b = scaled_cube(Point::ONE, Point::new(1.0, 0.0, 0.0));
    let mut tree = build(a.faces()).unwrap();
    union(&mut tree, build(b.faces()).unwrap());
    let total: f32 = tree.polygons().iter().map(area).sum();
    assert!((total - 32.0).abs() < 1e-3, "{total}");
}

#[test]
fn split_conserves_area_and_winding() {
    let face = new_face(
        Point::new(-1.0, 0.0, -1.0),
        Point::new(2.0, 1.0, 0.0),
        Point::new(0.0, 3.0, 2.0),
    );
    let planes = [
        (Plane::new(lib(Point::X), sc(0.5)), 3),
        (Plane::new(lib(Point::Y), sc(0.5)), 3),
        (Plane::new(lib(Point::new(0.6, 0.0, 0.8)), sc(0.25)), 3),
        (Plane::new(lib(Point::Z), sc(0.0)), 2),
    ];
    for (plane, count) in planes {
        let mut front = Vec::new();
        let mut back = Vec::new();
        cut_face(&plane, face, &mut front, &mut back);
        assert!(!front.is_empty() && !back.is_empty());
        assert_eq!(front.len() + back.len(), count);
        let pieces: f32 = front.iter().chain(&back).map(area).sum();
        assert!((pieces - area(&face)).abs() < 1e-4);
        for piece in front.iter().chain(&back) {
            assert!(normal(piece).dot(normal(&face)) > 0.999);
        }
        for piece in &front {
            assert!(corners(piece).iter().all(|p| distance_to_point(&plane, *p) > -1e-4));
        }
        for piece in &back {
            assert!(corners(piece).iter().all(|p| distance_to_point(&plane, *p) < 1e-4));
        }
    }
}

#[test]
fn empty_scene_gives_an_empty_navmesh() {
    let nav = navmesh(NavmeshSettings::default(), &[]);
    assert!(nav.polygons().is_empty());
    assert!(nav.links().is_empty());
    assert!(nav.polygon_links().is_empty());
    assert!(nav.walkable_polygons(&Vec::new()).is_empty());
    let here = Point::new(0.0, 1.0, 0.0);
    assert!(closest_polygon(&nav, here).is_none());
    assert!(astar(&nav, here, here, |a, b| a.distance(b)).is_none());
}

#[test]
fn plane_navmesh() {
    let nav = navmesh(
        NavmeshSettings::default(),
        &[slab_brush(Point::new(10.0, 0.4, 10.0), Point::ZERO)],
    );
    assert_eq!(nav.polygons().len(), 2);
    let walkable = nav.walkable_polygons(&slopes(&nav));
    assert_eq!(walkable.len(), 2);
    for (id, face) in walkable {
        assert_eq!(nav.polygons()[id], face);
        assert!(normal(&face).y > 0.707);
        for p in corners(&face) {
            assert!((p.y - 0.6).abs() < TOLERANCE);
            assert!((p.x.abs() - 10.2).abs() < 1e-4);
            assert!((p.z.abs() - 10.2).abs() < 1e-4);
        }
    }
    assert!(nav.links().iter().all(|(_, link)| !is_step(link)));
}

fn stepped_pair(max_step_height: f32) -> Navmesh {
    let mut settings = NavmeshSettings::default();
    settings.max_step_height = sc(max_step_height);
    navmesh(
        settings,
        &[
            (Mat4::from_translation(Point::ZERO), Brush::cube()),
            (
                Mat4::from_translation(Point::new(1.5, 0.6, 0.0)),
                Brush::cube(),
            ),
        ],
    )
}

#[test]
fn stepped_pair_links_within_the_step_height() {
    let nav = stepped_pair(0.7);
    let steps: Vec<&NavmeshLink> = nav
        .links()
        .iter()
        .map(|(_, link)| link)
        .filter(|link| is_step(link))
        .collect();
    assert!(!steps.is_empty());
    for link in steps {
        let (low, high) = (
            height(&nav, link.from()).min(height(&nav, link.to())),
            height(&nav, link.from()).max(height(&nav, link.to())),
        );
        assert!((low - 1.2).abs() < 1e-4);
        assert!((high - 1.8).abs() < 1e-4);
        assert!((pt(link.source_edge().p1).y - height(&nav, link.from())).abs() < 1e-4);
        assert!((pt(link.destination_edge().p1).y - height(&nav, link.to())).abs() < 1e-4);
        assert!((pt(link.source_edge().p1).x - 0.3).abs() < 1e-4);
        assert!((pt(link.source_edge().p2).x - 0.3).abs() < 1e-4);
    }
}

#[test]
fn stepped_pair_has_no_step_above_the_step_height() {
    let nav = stepped_pair(0.4);
    assert!(nav.links().iter().all(|(_, link)| !is_step(link)));
    for (_, link) in nav.links() {
        assert_eq!(height(&nav, link.from()), height(&nav, link.to()));
    }
}

#[test]
fn every_link_has_its_reverse() {
    let nav = stepped_pair(0.7);
    assert!(!nav.links().is_empty());
    for (id, link) in nav.links() {
        assert!(nav.polygon_links()[&link.from()].contains(&id));
        let reverse = nav.polygon_links()[&link.to()]
            .iter()
            .find(|rid| nav.links()[**rid] == link.reverse());
        assert!(reverse.is_some());
    }
    let listed: usize = nav.polygon_links().values().map(|list| list.len()).sum();
    assert_eq!(listed, nav.links().len());
}

#[test]
fn astar_straight_path() {
    let nav = navmesh(
        NavmeshSettings::default(),
        &[slab_brush(Point::new(10.0, 0.4, 10.0), Point::ZERO)],
    );
    let start = Point::new(-4.0, 1.0, 0.0);
    let end = Point::new(4.0, 1.0, 0.0);
    let path = astar(&nav, start, end, |a, b| a.distance(b)).expect("one slab is connected");
    assert_eq!(pt(path[0].point), start);
    assert_eq!(path[0].edge(), None);
    assert_eq!(pt(path[path.len() - 1].point), end);
    let projected: f32 = path
        .windows(2)
        .map(|pair| flat(pt(pair[0].point)).distance(flat(pt(pair[1].point))))
        .sum();
    assert!((projected - 8.0).abs() < 1e-4);
    assert!((flat(start).distance(flat(end)) - 8.0).abs() <= TOLERANCE);
    for waypoint in &path {
        assert!(pt(waypoint.point).z.abs() < 1e-4);
    }
}

fn step_scene() -> Navmesh {
    navmesh(
        NavmeshSettings::default(),
        &[
            slab_brush(Point::new(1.0, 0.4, 1.0), Point::ZERO),
            slab_brush(Point::new(1.0, 0.4, 1.0), Point::new(2.4, 0.3, 0.0)),
        ],
    )
}

#[test]
fn astar_across_a_step() {
    let nav = step_scene();
    let start = Point::new(-0.5, 1.0, 0.0);
    let end = Point::new(2.9, 1.0, 0.0);
    let path = astar(&nav, start, end, |a, b| a.distance(b)).expect("the slabs are a step apart");
    assert_eq!(pt(path[0].point), start);
    assert_eq!(pt(path[path.len() - 1].point), end);
    assert_eq!(path[path.len() - 1].edge(), None);
    let steps: Vec<&Waypoint> = path
        .iter()
        .filter(|w| w.edge().map_or(false, |id| is_step(&nav.links()[id])))
        .collect();
    assert_eq!(steps.len(), 1);
    let portal = pt(steps[0].point());
    assert!((portal.x - 1.2).abs() < 1e-4);
    assert!(portal.z.abs() < 1e-4);
    for pair in path.windows(2) {
        if let Some(id) = pair[1].edge() {
            let link = nav.links()[id];
            assert_eq!(link.to(), pair[1].target_polygon());
            assert_eq!(link.from(), pair[0].target_polygon());
        } else {
            assert_eq!(pair[0].target_polygon(), pair[1].target_polygon());
        }
    }
}

#[test]
fn astar_unreachable() {
    let nav = navmesh(
        NavmeshSettings::default(),
        &[
            slab_brush(Point::new(1.0, 0.4, 1.0), Point::ZERO),
            slab_brush(Point::new(1.0, 0.4, 1.0), Point::new(20.0, 0.0, 0.0)),
        ],
    );
    let start = Point::new(-0.5, 1.0, 0.0);
    let end = Point::new(20.5, 1.0, 0.0);
    assert!(closest_polygon(&nav, start).is_some());
    assert!(closest_polygon(&nav, end).is_some());
    assert!(astar(&nav, start, end, |a, b| a.distance(b)).is_none());
}

#[test]
fn astar_from_outside_the_mesh_finds_nothing() {
    let nav = step_scene();
    let inside = Point::new(0.0, 1.0, 0.0);
    let outside = Point::new(0.0, 1.0, 7.0);
    assert!(astar(&nav, outside, inside, |a, b| a.distance(b)).is_none());
    assert!(astar(&nav, inside, outside, |a, b| a.distance(b)).is_none());
}

#[test]
fn closest_polygon_is_the_nearest_one_under_the_point() {
    let nav = step_scene();
    let (low, _) = closest_polygon(&nav, Point::new(0.0, 5.0, 0.5)).unwrap();
    assert!((height(&nav, low) - 0.6).abs() < 1e-4);
    let (high, face) = closest_polygon(&nav, Point::new(3.0, 5.0, 0.5)).unwrap();
    assert!((height(&nav, high) - 0.9).abs() < 1e-4);
    assert_eq!(nav.polygons()[high], face);
    assert!(closest_polygon(&nav, Point::new(9.0, 5.0, 0.5)).is_none());
}

#[test]
fn start_costs_rise_along_the_way_back() {
    let nav = step_scene();
    let start = Point::new(-0.5, 1.0, 0.9);
    let end = Point::new(3.2, 1.0, -0.9);
    let (start_node, _) = closest_polygon(&nav, start).unwrap();
    let (end_node, _) = closest_polygon(&nav, end).unwrap();
    let mut search = Search::new(Backtrace::start(start_node, lib(start), sc(start.distance(end))));
    let arrived = loop {
        match search.next(end_node) {
            Step::Exhausted => panic!("the slabs are a step apart"),
            Step::Stale => continue,
            Step::Arrived(current) => break current,
            Step::Expand(current) => {
                let at = pt(current.point);
                let crossings: Vec<Crossing> = nav.polygon_links()[&current.node]
                    .iter()
                    .map(|&portal| {
                        let edge = nav.links()[portal].destination_edge();
                        let midpoint = (pt(edge.p1) + pt(edge.p2)) / 2.0;
                        let p = intersect_ray_clipped(&edge, at, end - at).unwrap_or(midpoint);
                        let start_cost = fl(current.start_cost) + p.distance(at);
                        Crossing {
                            point: lib(p),
                            start_cost: sc(start_cost),
                            total_cost: sc(start_cost + p.distance(end)),
                        }
                    })
                    .collect();
                search.expand(&nav, &current, &crossings);
                assert!(search.is_closed(current.node));
            }
        }
    };
    let chain = search.chain(arrived.node);
    assert!(chain.len() >= 3);
    assert_eq!(chain[0].node, end_node);
    assert_eq!(chain[chain.len() - 1].node, start_node);
    assert_eq!(fl(chain[chain.len() - 1].start_cost), 0.0);
    for pair in chain.windows(2) {
        assert!(fl(pair[1].start_cost) <= fl(pair[0].start_cost));
        assert_eq!(pair[0].prev, Some(pair[1].node));
        assert_eq!(search.backtrace(pair[0].node), Some(pair[0]));
    }
}

#[test]
fn shortening_never_lengthens_the_path() {
    let nav = step_scene();
    let start = Point::new(-0.9, 1.0, 0.9);
    let end = Point::new(3.3, 1.0, -0.9);
    let path = astar(&nav, start, end, |a, b| a.distance(b)).unwrap();
    let mut loose = path.clone();
    for waypoint in loose.iter_mut() {
        if let Some(id) = waypoint.edge {
            let edge = nav.links()[id].destination_edge();
            waypoint.point = edge.p1;
        }
    }
    let before = polyline_length(&loose);
    let mut tight = loose.clone();
    shorten(&nav, &mut tight);
    let after = polyline_length(&tight);
    assert!(after <= before + TOLERANCE, "{after} > {before}");
    assert!(after < before);
    assert_eq!(tight.len(), loose.len());
    for (a, b) in tight.iter().zip(&loose) {
        assert_eq!(a.target_polygon(), b.target_polygon());
        assert_eq!(a.edge(), b.edge());
    }
}

//! Building, clipping and uniting trees.
//!
//! Each of these goes down a tree and, at every node it comes to, sorts a
//! list of faces to the sides of the node's plane. The sorting needs the
//! faces measured against the plane, which is the caller's part. So the work
//! is held in a value that says what is to be measured next (`ask`) and
//! goes a step further when it is told (`answer`), until nothing is left to
//! ask.
use crate::arena::key_order;
use crate::brush::Face;
use crate::plane::{FaceMeasure, MeasureView, Plane};
use crate::tree::{
    arena_wf, gathered, inverted_arena, measure_views, BspTree, Node, NodeView, Partition,
    PartitionView,
};
use vstd::prelude::*;

verus! {

impl BspTree {
    /// Begins a tree for `polygons`: the first of them lies in the plane of
    /// the root, and the rest is work to be done on the tree. `plane` is the
    /// plane of the first polygon. There is no tree for no polygons.
    pub fn build(polygons: &Vec<Face>, plane: Plane) -> (begun: Option<(BspTree, Appender)>)
        ensures
            begun is None <==> polygons.len() == 0,
            match begun {
                Some((tree, work)) => {
                    &&& tree.wf()
                    &&& work.wf(tree.arena())
                    &&& tree.arena() == Map::<usize, NodeView>::empty().insert(
                        tree.root_key(),
                        NodeView::leaf(plane, polygons[0]),
                    )
                    &&& work@ == sort_job(tree.root_key(), polygons@.skip(1))
                },
                None => true,
            },
    {
        if polygons.len() == 0 {
            return None;
        }
        let tree = BspTree::seed(plane, polygons[0]);
        let work = Appender::new(&tree, rest_of(polygons));
        Some((tree, work))
    }

    /// The work of sorting more polygons into the tree.
    pub fn append(&self, polygons: Vec<Face>) -> (work: Appender)
        requires
            self.wf(),
        ensures
            work.wf(self.arena()),
            work@ == sort_job(self.root_key(), polygons@),
    {
        Appender::new(self, polygons)
    }

    /// The work of clipping polygons against the tree: what of them lies
    /// outside the solid is kept.
    pub fn clip_polygons(&self, polygons: Vec<Face>) -> (work: Clipper)
        requires
            self.wf(),
        ensures
            work.wf(self.arena()),
            work.kept_faces() == Seq::<Face>::empty(),
            work.jobs() == clip_job(self.root_key(), polygons@),
    {
        let mut jobs: Vec<ClipJob> = Vec::new();
        if polygons.len() > 0 {
            jobs.push(ClipJob { node: self.root(), faces: polygons });
        }
        let work = Clipper { jobs, kept: Vec::new() };
        assert(work.jobs() =~= clip_job(self.root_key(), polygons@));
        work
    }

    /// Begins the work of clipping the tree to `other`: the faces of every
    /// node, node after node in the order of the keys, are clipped against
    /// `other`, and the node keeps what lies outside that solid.
    pub fn clip_to(&mut self, other: &BspTree) -> (work: ClipTo)
        requires
            old(self).wf(),
            other.wf(),
        ensures
            final(self).wf(),
            final(self).root_key() == old(self).root_key(),
            (work@, final(self).arena()) == ClipToView::begun(
                key_order(old(self).arena()),
                old(self).arena(),
                other.root_key(),
            ),
            work@.wf(final(self).arena(), other.arena()),
    {
        let keys = self.node_keys();
        let mut work = ClipTo { keys, at: 0, clip: Clipper { jobs: Vec::new(), kept: Vec::new() } };
        assert(work.clip.jobs() =~= Seq::<ClipJobView>::empty());
        if work.keys.len() > 0 {
            assert(work.keys@.contains(work.keys@[0]));
            let polygons = match self.node(work.keys[0]) {
                Some(found) => copy_of(&found.polygons),
                None => vstd::pervasive::unreached(),
            };
            work.clip = other.clip_polygons(polygons);
            assert forall|k: int| 0 <= k < work.keys.len() implies self.arena().contains_key(
                #[trigger] work.keys@[k],
            ) by {
                assert(work.keys@.contains(work.keys@[k]));
            }
            work.settle(self, other);
        }
        work
    }

    /// Begins the work of uniting the solid with another. The tree is
    /// clipped to `other` and `other` to the tree, each losing what lies
    /// inside the other solid. Then `other` is turned inside out, clipped to
    /// the tree once more and turned back, which takes away the faces that
    /// it shares with the tree. What is left of `other` is sorted into the
    /// tree.
    pub fn union(self, other: BspTree) -> (work: Union)
        requires
            self.wf(),
            other.wf(),
        ensures
            work@.wf(),
            work@ == UnionView::begun(
                self.arena(),
                self.root_key(),
                other.arena(),
                other.root_key(),
            ),
    {
        let mut a = self;
        let b = other;
        let clip = a.clip_to(&b);
        let mut work = Union { a, b, stage: 0, clip, grow: Appender { jobs: Vec::new() } };
        assert(work@.grow =~= Seq::<JobView>::empty());
        work.advance();
        work
    }
}

/// A copy of a list of faces.
fn copy_of(faces: &Vec<Face>) -> (copy: Vec<Face>)
    ensures
        copy@ == faces@,
{
    let mut copy: Vec<Face> = Vec::new();
    let mut k: usize = 0;
    while k < faces.len()
        invariant
            k <= faces.len(),
            copy@ == faces@.take(k as int),
        decreases faces.len() - k,
    {
        copy.push(faces[k]);
        assert(faces@.take(k + 1) =~= faces@.take(k as int).push(faces@[k as int]));
        k += 1;
    }
    assert(faces@.take(k as int) =~= faces@);
    copy
}

/// The faces after the first.
fn rest_of(faces: &Vec<Face>) -> (rest: Vec<Face>)
    requires
        faces.len() > 0,
    ensures
        rest@ == faces@.skip(1),
{
    let mut rest: Vec<Face> = Vec::new();
    let mut k: usize = 1;
    while k < faces.len()
        invariant
            1 <= k <= faces.len(),
            rest@ == faces@.subrange(1, k as int),
        decreases faces.len() - k,
    {
        rest.push(faces[k]);
        assert(faces@.subrange(1, k + 1) =~= faces@.subrange(1, k as int).push(faces@[k as int]));
        k += 1;
    }
    assert(faces@.subrange(1, k as int) =~= faces@.skip(1));
    rest
}

/// A piece of work on a tree that is being added to.
#[derive(Debug)]
pub enum Job {
    /// Sort the faces into the subtree under `node`.
    Sort { node: usize, faces: Vec<Face> },
    /// Grow a subtree from the faces and hang it under `parent`, in front
    /// of its plane or behind it.
    Grow { parent: usize, front: bool, faces: Vec<Face> },
}

/// A `Job` as the contracts speak of it.
pub enum JobView {
    Sort { node: usize, faces: Seq<Face> },
    Grow { parent: usize, front: bool, faces: Seq<Face> },
}

impl View for Job {
    type V = JobView;

    open spec fn view(&self) -> JobView {
        match *self {
            Job::Sort { node, faces } => JobView::Sort { node, faces: faces@ },
            Job::Grow { parent, front, faces } => JobView::Grow { parent, front, faces: faces@ },
        }
    }
}

impl JobView {
    /// The job has faces to work on, and the node it names is there.
    pub open spec fn fits(self, arena: Map<usize, NodeView>) -> bool {
        match self {
            JobView::Sort { node, faces } => faces.len() > 0 && arena.contains_key(node),
            JobView::Grow { parent, front, faces } => faces.len() > 0 && arena.contains_key(parent),
        }
    }
}

/// What the work needs to know next.
#[derive(Debug)]
pub enum Ask<'a> {
    /// The plane of this face, to be handed to `answer_plane`.
    PlaneOf(Face),
    /// What these faces measure against this plane, to be handed to
    /// `answer`.
    Measures(Plane, &'a Vec<Face>),
}

/// The views of a list of jobs.
pub open spec fn job_views(jobs: Seq<Job>) -> Seq<JobView> {
    Seq::new(jobs.len(), |k: int| jobs[k]@)
}

/// The work of sorting `faces` into the subtree under `node`: one job, or
/// none where there are no faces.
pub open spec fn sort_job(node: usize, faces: Seq<Face>) -> Seq<JobView> {
    if faces.len() == 0 {
        Seq::empty()
    } else {
        seq![JobView::Sort { node, faces }]
    }
}

/// The work left by `faces` on one side of the node `node`, nothing for no
/// faces: to be sorted into the child on that side, or a child to be grown
/// from them where there is none.
pub open spec fn side_job(node: usize, front: bool, child: Option<usize>, faces: Seq<Face>) -> Seq<
    JobView,
> {
    if faces.len() == 0 {
        Seq::empty()
    } else {
        match child {
            Some(c) => seq![JobView::Sort { node: c, faces }],
            None => seq![JobView::Grow { parent: node, front, faces }],
        }
    }
}

/// The tree and the work after the last job, a job to sort, was done with
/// the measures of its faces: the faces in the node's plane have joined the
/// node, and what fell to either side is work for that side, the front to
/// be done first.
pub open spec fn sorted_step(
    arena: Map<usize, NodeView>,
    jobs: Seq<JobView>,
    measures: Seq<MeasureView>,
) -> (Map<usize, NodeView>, Seq<JobView>)
    recommends
        jobs.len() > 0,
        jobs.last() is Sort,
{
    let node = jobs.last()->Sort_node;
    let found = arena[node];
    let start = PartitionView {
        front: Seq::empty(),
        back: Seq::empty(),
        coplanar: found.polygons,
    };
    let parts = start.placed_all(jobs.last()->Sort_faces, measures, false);
    (
        arena.insert(node, NodeView { polygons: parts.coplanar, ..found }),
        jobs.drop_last() + side_job(node, false, found.back, parts.back) + side_job(
            node,
            true,
            found.front,
            parts.front,
        ),
    )
}

/// The tree and the work after the last job, a job to grow, was done with
/// the plane of its first face: a node with that plane and that face, under
/// the new key `key`, hangs where the job says, and the other faces are to
/// be sorted into it.
pub open spec fn grown_step(
    arena: Map<usize, NodeView>,
    jobs: Seq<JobView>,
    plane: Plane,
    key: usize,
) -> (Map<usize, NodeView>, Seq<JobView>)
    recommends
        jobs.len() > 0,
        jobs.last() is Grow,
{
    let parent = jobs.last()->Grow_parent;
    let faces = jobs.last()->Grow_faces;
    let above = arena[parent];
    let hung = if jobs.last()->Grow_front {
        NodeView { front: Some(key), ..above }
    } else {
        NodeView { back: Some(key), ..above }
    };
    (
        arena.insert(key, NodeView::leaf(plane, faces[0])).insert(parent, hung),
        jobs.drop_last() + sort_job(key, faces.skip(1)),
    )
}

/// Work in progress on a tree that is being built or added to: the jobs
/// that are left, the last of them to be done next.
pub struct Appender {
    jobs: Vec<Job>,
}

impl View for Appender {
    type V = Seq<JobView>;

    closed spec fn view(&self) -> Seq<JobView> {
        job_views(self.jobs@)
    }
}

impl Appender {
    /// Every job fits the tree.
    pub open spec fn wf(&self, arena: Map<usize, NodeView>) -> bool {
        forall|k: int| 0 <= k < self@.len() ==> (#[trigger] self@[k]).fits(arena)
    }

    fn new(tree: &BspTree, polygons: Vec<Face>) -> (work: Appender)
        requires
            tree.wf(),
        ensures
            work.wf(tree.arena()),
            work@ == sort_job(tree.root_key(), polygons@),
    {
        let mut jobs: Vec<Job> = Vec::new();
        if polygons.len() > 0 {
            jobs.push(Job::Sort { node: tree.root(), faces: polygons });
        }
        let work = Appender { jobs };
        assert(work@ =~= sort_job(tree.root_key(), polygons@));
        work
    }

    /// Whether nothing is left to do.
    pub fn is_done(&self) -> (done: bool)
        ensures
            done == (self@.len() == 0),
    {
        self.jobs.len() == 0
    }

    /// What the job to be done next needs to know, if there is a job.
    pub fn ask<'a>(&'a self, tree: &BspTree) -> (ask: Option<Ask<'a>>)
        requires
            self.wf(tree.arena()),
        ensures
            match ask {
                None => self@.len() == 0,
                Some(Ask::PlaneOf(face)) => self@.len() > 0 && self@.last() is Grow && face
                    == self@.last()->Grow_faces[0],
                Some(Ask::Measures(plane, faces)) => self@.len() > 0 && self@.last() is Sort
                    && faces@ == self@.last()->Sort_faces && plane == tree.arena()[self@.last()->Sort_node].plane,
            },
    {
        if self.jobs.len() == 0 {
            return None;
        }
        let ghost top = self@[self.jobs.len() - 1];
        assert(top.fits(tree.arena()));
        match &self.jobs[self.jobs.len() - 1] {
            Job::Sort { node, faces } => {
                match tree.node(*node) {
                    Some(found) => Some(Ask::Measures(found.plane, faces)),
                    None => vstd::pervasive::unreached(),
                }
            },
            Job::Grow { parent, front, faces } => Some(Ask::PlaneOf(faces[0])),
        }
    }

    /// Does the job to be done next, a job to sort. `measures[k]` is what
    /// the `k`th face of the job measures against the plane of its node.
    pub fn answer(&mut self, tree: &mut BspTree, measures: &Vec<FaceMeasure>)
        requires
            old(tree).wf(),
            old(self).wf(old(tree).arena()),
            old(self)@.len() > 0,
            old(self)@.last() is Sort,
            measures.len() == old(self)@.last()->Sort_faces.len(),
            forall|k: int|
                0 <= k < measures.len() ==> (#[trigger] measures[k])@.fits(
                    old(self)@.last()->Sort_faces[k],
                ),
        ensures
            final(tree).wf(),
            final(self).wf(final(tree).arena()),
            final(tree).root_key() == old(tree).root_key(),
            (final(tree).arena(), final(self)@) == sorted_step(
                old(tree).arena(),
                old(self)@,
                measure_views(measures@),
            ),
    {
        let ghost before = self@;
        let ghost arena = tree.arena();
        assert(before.last().fits(arena));
        let job = self.jobs.pop();
        assert(self@ =~= before.drop_last());
        match job {
            Some(Job::Sort { node, faces }) => {
                let (plane, front, back, polygons) = match tree.node(node) {
                    Some(found) => (found.plane, found.front, found.back, copy_of(&found.polygons)),
                    None => vstd::pervasive::unreached(),
                };
                let mut parts = Partition { front: Vec::new(), back: Vec::new(), coplanar: polygons };
                parts.place_all(&faces, measures, false);
                let Partition { front: ahead, back: behind, coplanar } = parts;
                assert(arena[node].children_in(arena));
                tree.replace(node, Node { front, back, polygons: coplanar, plane });
                if behind.len() > 0 {
                    match back {
                        Some(child) => self.jobs.push(Job::Sort { node: child, faces: behind }),
                        None => self.jobs.push(Job::Grow { parent: node, front: false, faces: behind }),
                    }
                }
                if ahead.len() > 0 {
                    match front {
                        Some(child) => self.jobs.push(Job::Sort { node: child, faces: ahead }),
                        None => self.jobs.push(Job::Grow { parent: node, front: true, faces: ahead }),
                    }
                }
                proof {
                    let wanted = sorted_step(arena, before, measure_views(measures@));
                    assert(self@ =~= wanted.1);
                    assert forall|k: int| 0 <= k < self@.len() implies (#[trigger] self@[k]).fits(
                        tree.arena(),
                    ) by {
                        if k < before.len() - 1 {
                            assert(before[k].fits(arena));
                        }
                    }
                }
            },
            _ => {
                assert(false);
            },
        }
    }

    /// Does the job to be done next, a job to grow. `plane` is the plane of
    /// the job's first face.
    pub fn answer_plane(&mut self, tree: &mut BspTree, plane: Plane)
        requires
            old(tree).wf(),
            old(self).wf(old(tree).arena()),
            old(self)@.len() > 0,
            old(self)@.last() is Grow,
        ensures
            final(tree).wf(),
            final(self).wf(final(tree).arena()),
            final(tree).root_key() == old(tree).root_key(),
            exists|key: usize|
                !old(tree).arena().contains_key(key) && #[trigger] grown_step(
                    old(tree).arena(),
                    old(self)@,
                    plane,
                    key,
                ) == (final(tree).arena(), final(self)@),
    {
        let ghost before = self@;
        let ghost arena = tree.arena();
        assert(before.last().fits(arena));
        let job = self.jobs.pop();
        assert(self@ =~= before.drop_last());
        match job {
            Some(Job::Grow { parent, front, faces }) => {
                let key = tree.insert(Node::leaf(plane, faces[0]));
                let ghost grown = tree.arena();
                assert(grown.contains_key(parent) && grown[parent] == arena[parent]);
                let (above_plane, above_front, above_back, polygons) = match tree.node(parent) {
                    Some(found) => (found.plane, found.front, found.back, copy_of(&found.polygons)),
                    None => vstd::pervasive::unreached(),
                };
                assert(arena[parent].children_in(arena));
                if front {
                    tree.replace(
                        parent,
                        Node { front: Some(key), back: above_back, polygons, plane: above_plane },
                    );
                } else {
                    tree.replace(
                        parent,
                        Node { front: above_front, back: Some(key), polygons, plane: above_plane },
                    );
                }
                if faces.len() > 1 {
                    self.jobs.push(Job::Sort { node: key, faces: rest_of(&faces) });
                }
                proof {
                    let wanted = grown_step(arena, before, plane, key);
                    assert(self@ =~= wanted.1);
                    assert(tree.arena() =~= wanted.0);
                    assert forall|k: int| 0 <= k < self@.len() implies (#[trigger] self@[k]).fits(
                        tree.arena(),
                    ) by {
                        if k < before.len() - 1 {
                            assert(before[k].fits(arena));
                        }
                    }
                }
            },
            _ => {
                assert(false);
            },
        }
    }
}

/// Faces to be clipped against the subtree under `node`.
#[derive(Debug)]
pub struct ClipJob {
    pub node: usize,
    pub faces: Vec<Face>,
}

/// A `ClipJob` as the contracts speak of it.
pub struct ClipJobView {
    pub node: usize,
    pub faces: Seq<Face>,
}

impl View for ClipJob {
    type V = ClipJobView;

    open spec fn view(&self) -> ClipJobView {
        ClipJobView { node: self.node, faces: self.faces@ }
    }
}

/// The views of a list of jobs.
pub open spec fn clip_job_views(jobs: Seq<ClipJob>) -> Seq<ClipJobView> {
    Seq::new(jobs.len(), |k: int| jobs[k]@)
}

/// The work of clipping `faces` against the subtree under `node`: one job,
/// or none where there are no faces.
pub open spec fn clip_job(node: usize, faces: Seq<Face>) -> Seq<ClipJobView> {
    if faces.len() == 0 {
        Seq::empty()
    } else {
        seq![ClipJobView { node, faces }]
    }
}

/// The work left by the faces on one side of a node that has a child on
/// that side.
pub open spec fn child_clip_job(child: Option<usize>, faces: Seq<Face>) -> Seq<ClipJobView> {
    match child {
        Some(c) => clip_job(c, faces),
        None => Seq::empty(),
    }
}

/// The work and the faces kept after the last job was done with the
/// measures of its faces. What falls in front of the node's plane is clipped
/// further where the node has a child in front, and kept where it has none:
/// it lies outside the solid. What falls behind is clipped further where the
/// node has a child behind, and dropped where it has none: it lies inside.
/// The front is done first.
pub open spec fn clipped_step(
    arena: Map<usize, NodeView>,
    jobs: Seq<ClipJobView>,
    kept: Seq<Face>,
    measures: Seq<MeasureView>,
) -> (Seq<ClipJobView>, Seq<Face>)
    recommends
        jobs.len() > 0,
{
    let found = arena[jobs.last().node];
    let start = PartitionView { front: Seq::empty(), back: Seq::empty(), coplanar: Seq::empty() };
    let parts = start.placed_all(jobs.last().faces, measures, true);
    (
        jobs.drop_last() + child_clip_job(found.back, parts.back) + child_clip_job(
            found.front,
            parts.front,
        ),
        if found.front is None {
            kept + parts.front
        } else {
            kept
        },
    )
}

/// Work in progress on clipping faces against a tree: the jobs that are
/// left, the last of them to be done next, and the faces kept so far.
pub struct Clipper {
    jobs: Vec<ClipJob>,
    kept: Vec<Face>,
}

impl Clipper {
    /// The jobs that are left.
    pub closed spec fn jobs(&self) -> Seq<ClipJobView> {
        clip_job_views(self.jobs@)
    }

    /// The faces kept so far.
    pub closed spec fn kept_faces(&self) -> Seq<Face> {
        self.kept@
    }

    /// Every job has faces, and its node is there.
    pub open spec fn wf(&self, arena: Map<usize, NodeView>) -> bool {
        forall|k: int|
            0 <= k < self.jobs().len() ==> (#[trigger] self.jobs()[k]).faces.len() > 0
                && arena.contains_key(self.jobs()[k].node)
    }

    /// Whether nothing is left to do.
    pub fn is_done(&self) -> (done: bool)
        ensures
            done == (self.jobs().len() == 0),
    {
        self.jobs.len() == 0
    }

    /// The plane and the faces of the job to be done next, if there is one:
    /// the faces are to be measured against the plane.
    pub fn ask<'a>(&'a self, tree: &BspTree) -> (ask: Option<(Plane, &'a Vec<Face>)>)
        requires
            self.wf(tree.arena()),
        ensures
            match ask {
                None => self.jobs().len() == 0,
                Some((plane, faces)) => self.jobs().len() > 0 && faces@ == self.jobs().last().faces
                    && plane == tree.arena()[self.jobs().last().node].plane,
            },
    {
        if self.jobs.len() == 0 {
            return None;
        }
        let job = &self.jobs[self.jobs.len() - 1];
        assert(self.jobs()[self.jobs.len() - 1] == job@);
        match tree.node(job.node) {
            Some(found) => Some((found.plane, &job.faces)),
            None => vstd::pervasive::unreached(),
        }
    }

    /// Does the job to be done next. `measures[k]` is what the `k`th face
    /// of the job measures against the plane of its node.
    pub fn answer(&mut self, tree: &BspTree, measures: &Vec<FaceMeasure>)
        requires
            tree.wf(),
            old(self).wf(tree.arena()),
            old(self).jobs().len() > 0,
            measures.len() == old(self).jobs().last().faces.len(),
            forall|k: int|
                0 <= k < measures.len() ==> (#[trigger] measures[k])@.fits(
                    old(self).jobs().last().faces[k],
                ),
        ensures
            final(self).wf(tree.arena()),
            (final(self).jobs(), final(self).kept_faces()) == clipped_step(
                tree.arena(),
                old(self).jobs(),
                old(self).kept_faces(),
                measure_views(measures@),
            ),
    {
        let ghost before = self.jobs();
        let ghost arena = tree.arena();
        assert(arena.contains_key(before.last().node));
        let job = self.jobs.pop();
        assert(self.jobs() =~= before.drop_last());
        match job {
            Some(ClipJob { node, faces }) => {
                let (front, back) = match tree.node(node) {
                    Some(found) => (found.front, found.back),
                    None => vstd::pervasive::unreached(),
                };
                assert(arena[node].children_in(arena));
                let mut parts = Partition::new();
                parts.place_all(&faces, measures, true);
                let Partition { front: ahead, back: behind, coplanar } = parts;
                match back {
                    Some(child) => {
                        if behind.len() > 0 {
                            self.jobs.push(ClipJob { node: child, faces: behind });
                        }
                    },
                    None => {},
                }
                match front {
                    Some(child) => {
                        if ahead.len() > 0 {
                            self.jobs.push(ClipJob { node: child, faces: ahead });
                        }
                    },
                    None => {
                        let mut ahead = ahead;
                        self.kept.append(&mut ahead);
                    },
                }
                proof {
                    let wanted = clipped_step(
                        arena,
                        before,
                        old(self).kept_faces(),
                        measure_views(measures@),
                    );
                    assert(self.jobs() =~= wanted.0);
                    assert(self.kept_faces() =~= wanted.1);
                    assert forall|k: int| 0 <= k < self.jobs().len() implies (#[trigger] self.jobs()[k]).faces.len()
                        > 0 && arena.contains_key(self.jobs()[k].node) by {
                        if k < before.len() - 1 {
                            assert(before[k].faces.len() > 0);
                        }
                    }
                }
            },
            None => {
                assert(false);
            },
        }
    }

    /// The faces that were kept.
    pub fn into_kept(self) -> (kept: Vec<Face>)
        ensures
            kept@ == self.kept_faces(),
    {
        self.kept
    }
}

/// Work in progress on clipping a tree to another: the keys of the nodes
/// of the tree, how many of them are done, and the clipping of the faces of
/// the node that is under way.
pub struct ClipTo {
    keys: Vec<usize>,
    at: usize,
    clip: Clipper,
}

/// A `ClipTo` as the contracts speak of it.
pub struct ClipToView {
    /// The keys of the nodes to be clipped.
    pub keys: Seq<usize>,
    /// How many nodes are done.
    pub at: int,
    /// The jobs left for the node under way.
    pub jobs: Seq<ClipJobView>,
    /// The faces kept so far for the node under way.
    pub kept: Seq<Face>,
}

impl View for ClipTo {
    type V = ClipToView;

    closed spec fn view(&self) -> ClipToView {
        ClipToView {
            keys: self.keys@,
            at: self.at as int,
            jobs: self.clip.jobs(),
            kept: self.clip.kept_faces(),
        }
    }
}

impl ClipToView {
    /// Every node is done.
    pub open spec fn done(self) -> bool {
        self.at >= self.keys.len()
    }

    /// The keys are keys of the tree that is clipped, the jobs fit the
    /// tree that it is clipped to, and as long as a node is left there is a
    /// job to do.
    pub open spec fn wf(self, subject: Map<usize, NodeView>, against: Map<usize, NodeView>) -> bool {
        &&& 0 <= self.at <= self.keys.len()
        &&& forall|k: int| 0 <= k < self.keys.len() ==> subject.contains_key(#[trigger] self.keys[k])
        &&& forall|k: int|
            0 <= k < self.jobs.len() ==> (#[trigger] self.jobs[k]).faces.len() > 0
                && against.contains_key(self.jobs[k].node)
        &&& self.done() ==> self.jobs.len() == 0 && self.kept.len() == 0
        &&& !self.done() ==> self.jobs.len() > 0
    }

    /// The work and the tree after every node whose clipping has come to
    /// an end has been given the faces that were kept for it, and the
    /// clipping of the next node that has faces has begun. `root` is the
    /// root of the tree that is clipped to.
    pub open spec fn settled(self, subject: Map<usize, NodeView>, root: usize) -> (
        ClipToView,
        Map<usize, NodeView>,
    )
        decreases self.keys.len() - self.at,
    {
        if self.at < 0 || self.done() || self.jobs.len() > 0 {
            (self, subject)
        } else {
            let key = self.keys[self.at];
            let stored = subject.insert(key, NodeView { polygons: self.kept, ..subject[key] });
            let next = self.at + 1;
            let jobs = if next < self.keys.len() {
                clip_job(root, stored[self.keys[next]].polygons)
            } else {
                Seq::empty()
            };
            (ClipToView { at: next, jobs, kept: Seq::empty(), ..self }).settled(stored, root)
        }
    }

    /// The work and the tree at the beginning: the clipping of the first
    /// node that has faces has begun.
    pub open spec fn begun(keys: Seq<usize>, subject: Map<usize, NodeView>, root: usize) -> (
        ClipToView,
        Map<usize, NodeView>,
    ) {
        let jobs = if keys.len() > 0 {
            clip_job(root, subject[keys[0]].polygons)
        } else {
            Seq::empty()
        };
        (ClipToView { keys, at: 0, jobs, kept: Seq::empty() }).settled(subject, root)
    }

    /// The work and the tree after the job to be done next was done with
    /// the measures of its faces.
    pub open spec fn answered(
        self,
        subject: Map<usize, NodeView>,
        against: Map<usize, NodeView>,
        root: usize,
        measures: Seq<MeasureView>,
    ) -> (ClipToView, Map<usize, NodeView>) {
        let step = clipped_step(against, self.jobs, self.kept, measures);
        (ClipToView { jobs: step.0, kept: step.1, ..self }).settled(subject, root)
    }
}

impl ClipTo {
    /// Whether every node is done.
    pub fn is_done(&self) -> (done: bool)
        ensures
            done == self@.done(),
    {
        self.at >= self.keys.len()
    }

    /// The plane and the faces of the job to be done next, if there is one:
    /// the faces are to be measured against the plane. `against` is the tree
    /// that is clipped to.
    pub fn ask<'a>(&'a self, against: &BspTree) -> (ask: Option<(Plane, &'a Vec<Face>)>)
        requires
            forall|k: int|
                0 <= k < self@.jobs.len() ==> (#[trigger] self@.jobs[k]).faces.len() > 0
                    && against.arena().contains_key(self@.jobs[k].node),
        ensures
            match ask {
                None => self@.jobs.len() == 0,
                Some((plane, faces)) => self@.jobs.len() > 0 && faces@ == self@.jobs.last().faces
                    && plane == against.arena()[self@.jobs.last().node].plane,
            },
    {
        self.clip.ask(against)
    }

    /// Gives every node whose clipping has come to an end its faces and
    /// begins the clipping of the next node that has faces.
    fn settle(&mut self, subject: &mut BspTree, against: &BspTree)
        requires
            old(subject).wf(),
            against.wf(),
            old(self).at <= old(self).keys.len(),
            forall|k: int|
                0 <= k < old(self).keys.len() ==> old(subject).arena().contains_key(
                    #[trigger] old(self).keys@[k],
                ),
            old(self).clip.wf(against.arena()),
            old(self)@.done() ==> old(self)@.jobs.len() == 0 && old(self)@.kept.len() == 0,
        ensures
            final(subject).wf(),
            final(subject).root_key() == old(subject).root_key(),
            (final(self)@, final(subject).arena()) == old(self)@.settled(
                old(subject).arena(),
                against.root_key(),
            ),
            final(self)@.wf(final(subject).arena(), against.arena()),
    {
        while self.at < self.keys.len() && self.clip.is_done()
            invariant
                subject.wf(),
                against.wf(),
                subject.root_key() == old(subject).root_key(),
                self.at <= self.keys.len(),
                self.keys == old(self).keys,
                forall|k: int|
                    0 <= k < self.keys.len() ==> subject.arena().contains_key(
                        #[trigger] self.keys@[k],
                    ),
                self.clip.wf(against.arena()),
                self@.done() ==> self@.jobs.len() == 0 && self@.kept.len() == 0,
                self@.settled(subject.arena(), against.root_key()) == old(self)@.settled(
                    old(subject).arena(),
                    against.root_key(),
                ),
            decreases self.keys.len() - self.at,
        {
            let key = self.keys[self.at];
            let kept = copy_of(&self.clip.kept);
            subject.set_polygons(key, kept);
            self.at += 1;
            if self.at < self.keys.len() {
                let polygons = match subject.node(self.keys[self.at]) {
                    Some(found) => copy_of(&found.polygons),
                    None => vstd::pervasive::unreached(),
                };
                self.clip = against.clip_polygons(polygons);
            } else {
                self.clip = Clipper { jobs: Vec::new(), kept: Vec::new() };
                assert(self.clip.jobs() =~= Seq::<ClipJobView>::empty());
            }
        }
    }

    /// Does the job to be done next. `measures[k]` is what the `k`th face
    /// of the job measures against the plane of its node. `subject` is the
    /// tree that is clipped, `against` the tree that it is clipped to.
    pub fn answer(&mut self, subject: &mut BspTree, against: &BspTree, measures: &Vec<FaceMeasure>)
        requires
            old(subject).wf(),
            against.wf(),
            old(self)@.wf(old(subject).arena(), against.arena()),
            old(self)@.jobs.len() > 0,
            measures.len() == old(self)@.jobs.last().faces.len(),
            forall|k: int|
                0 <= k < measures.len() ==> (#[trigger] measures[k])@.fits(
                    old(self)@.jobs.last().faces[k],
                ),
        ensures
            final(subject).wf(),
            final(subject).root_key() == old(subject).root_key(),
            (final(self)@, final(subject).arena()) == old(self)@.answered(
                old(subject).arena(),
                against.arena(),
                against.root_key(),
                measure_views(measures@),
            ),
            final(self)@.wf(final(subject).arena(), against.arena()),
    {
        self.clip.answer(against, measures);
        self.settle(subject, against);
    }
}

/// Work in progress on the union of two solids.
pub struct Union {
    a: BspTree,
    b: BspTree,
    stage: u8,
    clip: ClipTo,
    grow: Appender,
}

/// A `Union` as the contracts speak of it. The work goes through stages:
/// in stage 0 the first tree is clipped to the second, in stage 1 the second
/// to the first, in stage 2 the second, turned inside out, to the first once
/// more, in stage 3 the faces of the second, turned back, are sorted into
/// the first, and in stage 4 the work is done.
pub struct UnionView {
    /// The nodes of the first tree, which becomes the union.
    pub a: Map<usize, NodeView>,
    pub a_root: usize,
    /// The nodes of the second tree.
    pub b: Map<usize, NodeView>,
    pub b_root: usize,
    pub stage: int,
    /// The clipping under way in the stages 0 to 2.
    pub clip: ClipToView,
    /// The jobs left in stage 3.
    pub grow: Seq<JobView>,
}

impl View for Union {
    type V = UnionView;

    closed spec fn view(&self) -> UnionView {
        UnionView {
            a: self.a.arena(),
            a_root: self.a.root_key(),
            b: self.b.arena(),
            b_root: self.b.root_key(),
            stage: self.stage as int,
            clip: self.clip@,
            grow: self.grow@,
        }
    }
}

impl UnionView {
    pub open spec fn done(self) -> bool {
        self.stage >= 4
    }

    /// Both trees are well-formed, and the work of the stage fits them and
    /// has a job to do.
    pub open spec fn wf(self) -> bool {
        &&& arena_wf(self.a, self.a_root)
        &&& arena_wf(self.b, self.b_root)
        &&& 0 <= self.stage <= 4
        &&& self.stage == 0 ==> self.clip.wf(self.a, self.b) && !self.clip.done()
        &&& self.stage == 1 || self.stage == 2 ==> self.clip.wf(self.b, self.a)
            && !self.clip.done()
        &&& self.stage == 3 ==> self.grow.len() > 0 && forall|k: int|
            0 <= k < self.grow.len() ==> (#[trigger] self.grow[k]).fits(self.a)
    }

    /// The faces that are to be measured next: those of the job to be done
    /// next, where that is not a job to grow.
    pub open spec fn asked_faces(self) -> Seq<Face> {
        if self.stage < 3 {
            self.clip.jobs.last().faces
        } else {
            self.grow.last()->Sort_faces
        }
    }

    /// The plane that the faces are to be measured against.
    pub open spec fn asked_plane(self) -> Plane {
        if self.stage == 0 {
            self.b[self.clip.jobs.last().node].plane
        } else if self.stage < 3 {
            self.a[self.clip.jobs.last().node].plane
        } else {
            self.a[self.grow.last()->Sort_node].plane
        }
    }

    /// Whether the job to be done next is a job to grow, which asks for a
    /// plane.
    pub open spec fn asks_plane(self) -> bool {
        self.stage == 3 && self.grow.last() is Grow
    }

    /// The work moved on to the next stage that has a job to do.
    pub open spec fn advanced(self) -> UnionView
        decreases 4 - self.stage,
    {
        if self.stage == 0 && self.clip.done() {
            let begun = ClipToView::begun(key_order(self.b), self.b, self.a_root);
            (UnionView { stage: 1, clip: begun.0, b: begun.1, ..self }).advanced()
        } else if self.stage == 1 && self.clip.done() {
            let turned = inverted_arena(self.b);
            let begun = ClipToView::begun(key_order(turned), turned, self.a_root);
            (UnionView { stage: 2, clip: begun.0, b: begun.1, ..self }).advanced()
        } else if self.stage == 2 && self.clip.done() {
            let turned = inverted_arena(self.b);
            (UnionView {
                stage: 3,
                b: turned,
                grow: sort_job(self.a_root, gathered(turned, key_order(turned))),
                ..self
            }).advanced()
        } else if self.stage == 3 && self.grow.len() == 0 {
            UnionView { stage: 4, ..self }
        } else {
            self
        }
    }

    /// The work at its beginning.
    pub open spec fn begun(
        a: Map<usize, NodeView>,
        a_root: usize,
        b: Map<usize, NodeView>,
        b_root: usize,
    ) -> UnionView {
        let begun = ClipToView::begun(key_order(a), a, b_root);
        (UnionView {
            a: begun.1,
            a_root,
            b,
            b_root,
            stage: 0,
            clip: begun.0,
            grow: Seq::empty(),
        }).advanced()
    }

    /// The work after the job to be done next, not a job to grow, was done
    /// with the measures of its faces.
    pub open spec fn answered(self, measures: Seq<MeasureView>) -> UnionView {
        if self.stage == 0 {
            let step = self.clip.answered(self.a, self.b, self.b_root, measures);
            (UnionView { clip: step.0, a: step.1, ..self }).advanced()
        } else if self.stage < 3 {
            let step = self.clip.answered(self.b, self.a, self.a_root, measures);
            (UnionView { clip: step.0, b: step.1, ..self }).advanced()
        } else {
            let step = sorted_step(self.a, self.grow, measures);
            (UnionView { a: step.0, grow: step.1, ..self }).advanced()
        }
    }

    /// The work after the job to be done next, a job to grow, was done with
    /// the plane of its first face; `key` is the key of the new node.
    pub open spec fn answered_plane(self, plane: Plane, key: usize) -> UnionView {
        let step = grown_step(self.a, self.grow, plane, key);
        (UnionView { a: step.0, grow: step.1, ..self }).advanced()
    }
}

impl Union {
    /// Whether the union is made.
    pub fn is_done(&self) -> (done: bool)
        ensures
            done == self@.done(),
    {
        self.stage >= 4
    }

    /// What the job to be done next needs to know, if there is a job.
    pub fn ask<'a>(&'a self) -> (ask: Option<Ask<'a>>)
        requires
            self@.wf(),
        ensures
            match ask {
                None => self@.done(),
                Some(Ask::PlaneOf(face)) => !self@.done() && self@.asks_plane() && face
                    == self@.grow.last()->Grow_faces[0],
                Some(Ask::Measures(plane, faces)) => !self@.done() && !self@.asks_plane() && faces@
                    == self@.asked_faces() && plane == self@.asked_plane(),
            },
    {
        if self.stage == 0 {
            match self.clip.ask(&self.b) {
                Some((plane, faces)) => Some(Ask::Measures(plane, faces)),
                None => vstd::pervasive::unreached(),
            }
        } else if self.stage < 3 {
            match self.clip.ask(&self.a) {
                Some((plane, faces)) => Some(Ask::Measures(plane, faces)),
                None => vstd::pervasive::unreached(),
            }
        } else if self.stage == 3 {
            self.grow.ask(&self.a)
        } else {
            None
        }
    }

    /// Moves on to the next stage that has a job to do.
    fn advance(&mut self)
        requires
            old(self).a.wf(),
            old(self).b.wf(),
            old(self).stage <= 4,
            old(self).stage == 0 ==> old(self).clip@.wf(old(self).a.arena(), old(self).b.arena()),
            old(self).stage == 1 || old(self).stage == 2 ==> old(self).clip@.wf(
                old(self).b.arena(),
                old(self).a.arena(),
            ),
            old(self).stage == 3 ==> old(self).grow.wf(old(self).a.arena()),
        ensures
            final(self)@ == old(self)@.advanced(),
            final(self)@.wf(),
    {
        loop
            invariant
                self.a.wf(),
                self.b.wf(),
                self.stage <= 4,
                self.stage == 0 ==> self.clip@.wf(self.a.arena(), self.b.arena()),
                self.stage == 1 || self.stage == 2 ==> self.clip@.wf(
                    self.b.arena(),
                    self.a.arena(),
                ),
                self.stage == 3 ==> self.grow.wf(self.a.arena()),
                self@.advanced() == old(self)@.advanced(),
            ensures
                self@ == old(self)@.advanced(),
                self@.wf(),
            decreases 4 - self.stage,
        {
            if self.stage == 0 && self.clip.is_done() {
                self.clip = self.b.clip_to(&self.a);
                self.stage = 1;
            } else if self.stage == 1 && self.clip.is_done() {
                self.b.invert();
                self.clip = self.b.clip_to(&self.a);
                self.stage = 2;
            } else if self.stage == 2 && self.clip.is_done() {
                self.b.invert();
                let polygons = self.b.polygons();
                self.grow = self.a.append(polygons);
                self.stage = 3;
            } else if self.stage == 3 && self.grow.is_done() {
                self.stage = 4;
                break;
            } else {
                break;
            }
        }
    }

    /// Does the job to be done next, which is not a job to grow.
    /// `measures[k]` is what the `k`th of the faces asked about measures
    /// against the plane asked about.
    pub fn answer(&mut self, measures: &Vec<FaceMeasure>)
        requires
            old(self)@.wf(),
            !old(self)@.done(),
            !old(self)@.asks_plane(),
            measures.len() == old(self)@.asked_faces().len(),
            forall|k: int|
                0 <= k < measures.len() ==> (#[trigger] measures[k])@.fits(
                    old(self)@.asked_faces()[k],
                ),
        ensures
            final(self)@.wf(),
            final(self)@ == old(self)@.answered(measure_views(measures@)),
    {
        if self.stage == 0 {
            self.clip.answer(&mut self.a, &self.b, measures);
        } else if self.stage < 3 {
            self.clip.answer(&mut self.b, &self.a, measures);
        } else {
            self.grow.answer(&mut self.a, measures);
        }
        self.advance();
    }

    /// Does the job to be done next, a job to grow. `plane` is the plane of
    /// the face asked about.
    pub fn answer_plane(&mut self, plane: Plane)
        requires
            old(self)@.wf(),
            old(self)@.asks_plane(),
        ensures
            final(self)@.wf(),
            exists|key: usize|
                !old(self)@.a.contains_key(key) && final(self)@ == #[trigger] old(
                    self,
                )@.answered_plane(plane, key),
    {
        self.grow.answer_plane(&mut self.a, plane);
        let ghost key = choose|key: usize|
            !old(self)@.a.contains_key(key) && #[trigger] grown_step(
                old(self)@.a,
                old(self)@.grow,
                plane,
                key,
            ) == (self.a.arena(), self.grow@);
        self.advance();
        assert(self@ == old(self)@.answered_plane(plane, key));
    }

    /// The union, when the work is done.
    pub fn finish(self) -> (tree: BspTree)
        requires
            self@.wf(),
            self@.done(),
        ensures
            tree.wf(),
            tree.arena() == self@.a,
            tree.root_key() == self@.a_root,
    {
        self.a
    }
}

} // verus!

//! A loaded level: its arrays, found to refer to each other soundly, the
//! index lists of its surfaces, and the collision query under way.

use vstd::prelude::*;
use crate::geometry::{Brush, BrushSide, Geometry, Leaf, LeafBrush, Plane, Vertex, CONTENTS_SOLID};
use crate::buffer::{flatten, flattened, lemma_buffer_in_range, rows_ranges, DrawRange};
use crate::mesh::{
    build_buckets, buckets_match, lemma_level_patches_len, level_patches, patch_is,
    patches_match, vertex_total, Patch,
};
use crate::patch::{build_vertexes, grids_match, samples_all};
use crate::parse::decode_fault;
use crate::scalar::Scalar;
use crate::store::{brush_ok, check_geometry, store_fault, LoadError};
use crate::trace::{
    box_query, classify, clip_sides, fresh_trace, is_fraction, lemma_absorb_shrinks, ray_query,
    sphere_query, Action, Crossing, Kernel, NodeMeasure, Reach, Segment, SideHit, SideProbe,
    SplitPoints, Trace, Vec3,
};
use crate::tree::{child_ok, numbers, orders};
use crate::walk::{
    action_matches, after_brush, after_end, after_node, after_split, answers, begin, brush_at,
    course, is_solid, leads, lemma_brush_step, lemma_course, lemma_end_step, lemma_node_step,
    lemma_split_step, next_candidate, reaches_end, same_query, settle, side_probe, steps_left,
    still, walk_ok, Pending, Phase, Walk,
};

verus! {

/// What a loaded level holds.
#[verifier::ext_equal]
pub struct BspView {
    pub geometry: Geometry,
    /// The vertex buffer: the vertices of the file, then those of the
    /// grids of the patches.
    pub vertexes: Seq<Vertex>,
    /// A number for each node, larger than those of the nodes among its
    /// children.
    pub order: Seq<int>,
    pub buckets: Seq<Vec<Vec<u32>>>,
    pub patches: Seq<Patch>,
    pub walk: Walk,
}

/// A loaded level.
pub struct Bsp {
    geometry: Geometry,
    vertexes: Vec<Vertex>,
    order: Vec<usize>,
    indices_per_texture: Vec<Vec<Vec<u32>>>,
    patches: Vec<Patch>,
    t_trace: Trace,
    pending: Vec<Pending>,
    phase: Phase,
}

impl View for Bsp {
    type V = BspView;

    closed spec fn view(&self) -> BspView {
        BspView {
            geometry: self.geometry,
            vertexes: self.vertexes@,
            order: numbers(self.order@),
            buckets: self.indices_per_texture@,
            patches: self.patches@,
            walk: Walk { trace: self.t_trace, pending: self.pending@, phase: self.phase },
        }
    }
}

/// Whether a level is sound: its arrays refer to each other soundly, its
/// buckets and patches are those of its faces, and its query refers only
/// to what it holds.
pub open spec fn sound(v: BspView) -> bool {
    &&& store_fault(v.geometry) is None
    &&& v.vertexes.len() == vertex_total(v.geometry)
    &&& v.vertexes.subrange(0, v.geometry.vertexes@.len() as int) == v.geometry.vertexes@
    &&& orders(v.geometry, v.order)
    &&& buckets_match(v.geometry, v.buckets, v.geometry.faces@.len() as int)
    &&& patches_match(v.geometry, v.patches, v.geometry.faces@.len() as int)
    &&& walk_ok(v.geometry, v.walk)
}

impl Bsp {
    #[verifier::type_invariant]
    closed spec fn inv(&self) -> bool {
        sound(self@)
    }

    /// Takes decoded arrays as a level, with `f` to sample the curves
    /// of its patches.
    ///
    /// The arrays are refused if the tree has no root or has a cycle, or
    /// if a record names another that does not exist. Else the surfaces
    /// are routed into their buckets, the patches are listed and the
    /// grids of their vertices are put behind the vertices of the file,
    /// and no query is under way.
    pub fn from_geometry<F: Fn(u32, u32, Scalar, Scalar, Scalar) -> Scalar>(
        g: Geometry,
        f: &F,
    ) -> (r: Result<Bsp, LoadError>)
        requires
            samples_all(f),
        ensures
            match store_fault(g) {
                Some(e) => r == Err::<Bsp, LoadError>(e),
                None => r matches Ok(b) && b@.geometry == g && sound(b@) && grids_match(
                    f,
                    g,
                    b@.patches,
                    b@.vertexes,
                ) && b@.walk == (Walk {
                    trace: fresh_trace(),
                    pending: Seq::empty(),
                    phase: Phase::Idle,
                }),
            },
    {
        match check_geometry(&g) {
            Err(e) => Err(e),
            Ok(order) => {
                let (buckets, patches) = build_buckets(&g);
                proof {
                    lemma_level_patches_len(g, g.faces@.len() as int);
                    assert forall|q: int, k: int|
                        0 <= q < patches@.len() && 0 <= k < 9 implies (
                    #[trigger] patches@[q].control[k]) < g.vertexes@.len() by {
                        assert(patch_is(
                            g,
                            patches@[q],
                            q,
                            level_patches(g, g.faces@.len() as int)[q],
                        ));
                    }
                }
                let vertexes = build_vertexes(&g, &patches, f);
                Ok(
                    Bsp {
                        geometry: g,
                        vertexes,
                        order,
                        indices_per_texture: buckets,
                        patches,
                        t_trace: Trace::new(),
                        pending: Vec::new(),
                        phase: Phase::Idle,
                    },
                )
            },
        }
    }

    /// Loads a level from the bytes of its file, with `f` to sample the
    /// curves of its patches.
    ///
    /// A file that cannot be decoded is refused with the reason. Else the
    /// decoded arrays are taken as a level, or refused with the reason.
    pub fn new<F: Fn(u32, u32, Scalar, Scalar, Scalar) -> Scalar>(bytes: &[u8], f: &F) -> (r:
        Result<Bsp, LoadError>)
        requires
            samples_all(f),
        ensures
            match decode_fault(bytes@) {
                Some(e) => r == Err::<Bsp, LoadError>(LoadError::Decode(e)),
                None => match r {
                    Ok(b) => b@.geometry.holds(bytes@) && sound(b@) && grids_match(
                        f,
                        b@.geometry,
                        b@.patches,
                        b@.vertexes,
                    ) && b@.walk == (Walk {
                        trace: fresh_trace(),
                        pending: Seq::empty(),
                        phase: Phase::Idle,
                    }),
                    Err(e) => exists|g: Geometry| g.holds(bytes@) && store_fault(g) == Some(e),
                },
            },
    {
        match Geometry::decode(bytes) {
            Err(e) => Err(LoadError::Decode(e)),
            Ok(g) => Bsp::from_geometry(g, f),
        }
    }

    /// The arrays of the level. Every level is sound.
    pub fn geometry(&self) -> (g: &Geometry)
        ensures
            *g == self@.geometry,
            sound(self@),
    {
        proof {
            use_type_invariant(self);
        }
        &self.geometry
    }

    /// The vertex buffer: the vertices of the file, then those of the
    /// grids of the patches.
    pub fn vertexes(&self) -> (v: &Vec<Vertex>)
        ensures
            v@ == self@.vertexes,
    {
        &self.vertexes
    }

    /// The index lists: one row for each light map and one more for the
    /// faces without, one list for each texture in each row.
    pub fn indices_per_texture(&self) -> (b: &Vec<Vec<Vec<u32>>>)
        ensures
            b@ == self@.buckets,
    {
        &self.indices_per_texture
    }

    /// The curved patches of the level. The vertices of their grids stand
    /// in the vertex buffer behind those of the file, one grid after the
    /// other in this order.
    pub fn patches(&self) -> (p: &Vec<Patch>)
        ensures
            p@ == self@.patches,
    {
        &self.patches
    }

    /// The index buffer and the range of each bucket in it. Every index
    /// names a vertex of the vertex buffer.
    pub fn index_buffer(&self) -> (r: (Vec<u32>, Vec<DrawRange>))
        ensures
            r.0@ == flattened(self@.buckets),
            r.1@ == rows_ranges(self@.buckets, self@.buckets.len() as int),
            forall|k: int| 0 <= k < r.0@.len() ==> #[trigger] r.0@[k] < self@.vertexes.len(),
    {
        proof {
            use_type_invariant(self);
            let buffer = flattened(self@.buckets);
            assert forall|k: int| 0 <= k < buffer.len() implies #[trigger] buffer[k]
                < self@.vertexes.len() by {
                lemma_buffer_in_range(self@.geometry, self@.buckets, k);
            }
        }
        flatten(&self.indices_per_texture)
    }

    /// The query and what is known of its result.
    pub fn result(&self) -> (t: Trace)
        ensures
            t == self@.walk.trace,
    {
        self.t_trace
    }
}

impl Bsp {
    /// Whether the rest of the level is as it was before a step of a query.
    pub open spec fn same_level(&self, before: &Bsp) -> bool {
        &&& self@.geometry == before@.geometry
        &&& self@.vertexes == before@.vertexes
        &&& self@.order == before@.order
        &&& self@.buckets == before@.buckets
        &&& self@.patches == before@.patches
    }

    /// Brush number `at` of a leaf.
    fn leaf_brush(&self, leaf: usize, at: usize) -> (b: Brush)
        requires
            leaf < self@.geometry.leafs@.len(),
            at < self@.geometry.leafs@[leaf as int].num_leaf_brushes,
        ensures
            b == brush_at(self@.geometry, leaf as int, at as int),
            brush_ok(self@.geometry, b),
    {
        proof {
            use_type_invariant(self);
        }
        let l: &Leaf = &self.geometry.leafs[leaf];
        let lb: &LeafBrush = &self.geometry.leaf_brushes[l.leaf_brush as usize + at];
        self.geometry.brushes[lb.brush as usize]
    }

    /// Whether a brush can stop a probe.
    fn solid(&self, b: &Brush) -> (r: bool)
        requires
            brush_ok(self@.geometry, *b),
        ensures
            r == is_solid(self@.geometry, *b),
    {
        b.num_brush_sides > 0 && (self.geometry.textures[b.texture as usize].contents
            & CONTENTS_SOLID) == CONTENTS_SOLID
    }

    /// The first brush of a leaf, from number `from` on, that can stop a
    /// probe.
    fn find_candidate(&self, leaf: usize, from: usize) -> (r: Option<usize>)
        requires
            leaf < self@.geometry.leafs@.len(),
        ensures
            match next_candidate(self@.geometry, leaf as int, from as int) {
                Some(n) => r == Some(n as usize) && from <= n
                    < self@.geometry.leafs@[leaf as int].num_leaf_brushes && is_solid(
                    self@.geometry,
                    brush_at(self@.geometry, leaf as int, n),
                ),
                None => r is None,
            },
    {
        let count: i32 = self.geometry.leafs[leaf].num_leaf_brushes;
        if count <= 0 {
            return None;
        }
        let count: usize = count as usize;
        let mut at: usize = from;
        while at < count
            invariant
                leaf < self@.geometry.leafs@.len(),
                count == self@.geometry.leafs@[leaf as int].num_leaf_brushes,
                from <= at,
                next_candidate(self@.geometry, leaf as int, from as int) == next_candidate(
                    self@.geometry,
                    leaf as int,
                    at as int,
                ),
            decreases count - at,
        {
            let b: Brush = self.leaf_brush(leaf, at);
            if self.solid(&b) {
                return Some(at);
            }
            at = at + 1;
        }
        None
    }

    /// Goes on to the next thing to measure.
    fn settle(&mut self)
        requires
            !(old(self)@.walk.phase is Idle),
            !(old(self)@.walk.phase is End),
        ensures
            final(self).same_level(old(self)),
            final(self)@.walk == settle(
                old(self)@.geometry,
                old(self)@.walk.trace,
                old(self)@.walk.pending,
            ),
    {
        proof {
            use_type_invariant(&*self);
        }
        let mut pending: Vec<Pending> = Vec::new();
        core::mem::swap(&mut self.pending, &mut pending);
        loop
            invariant
                self.same_level(old(self)),
                self@.walk.pending.len() == 0,
                self@.walk.trace == old(self)@.walk.trace,
                self@.walk.phase == old(self)@.walk.phase,
                !(self@.walk.phase is Idle),
                !(self@.walk.phase is End),
                forall|i: int|
                    0 <= i < pending@.len() ==> child_ok(
                        self@.geometry,
                        (#[trigger] pending@[i]).node as int,
                    ),
                settle(self@.geometry, self@.walk.trace, pending@) == settle(
                    old(self)@.geometry,
                    old(self)@.walk.trace,
                    old(self)@.walk.pending,
                ),
            decreases pending@.len(),
        {
            proof {
                use_type_invariant(&*self);
            }
            let ghost before = pending@;
            match pending.pop() {
                None => {
                    assert(self@.walk.pending =~= before);
                    if self.t_trace.output_fraction.same(Scalar::one()) {
                        self.t_trace.output_end = self.t_trace.end;
                        self.phase = Phase::Idle;
                    } else {
                        self.phase = Phase::End;
                    }
                    return ;
                },
                Some(top) => {
                    assert(top == before.last());
                    assert(pending@ == before.drop_last());
                    assert(child_ok(self@.geometry, top.node as int));
                    if top.node >= 0 {
                        self.phase = Phase::Node { node: top.node as usize, segment: top.segment };
                        self.pending = pending;
                        return ;
                    }
                    let leaf: usize = (-(top.node + 1)) as usize;
                    match self.find_candidate(leaf, 0) {
                        Some(at) => {
                            self.phase = Phase::Brush { leaf, at };
                            self.pending = pending;
                            return ;
                        },
                        None => {},
                    }
                },
            }
        }
    }

    /// Lets a part of the segment wait for a child of a node.
    fn push_pending(&mut self, p: Pending)
        requires
            child_ok(old(self)@.geometry, p.node as int),
            !(old(self)@.walk.phase is Idle),
            !(old(self)@.walk.phase is End),
        ensures
            final(self).same_level(old(self)),
            final(self)@.walk == (Walk {
                trace: old(self)@.walk.trace,
                pending: old(self)@.walk.pending.push(p),
                phase: old(self)@.walk.phase,
            }),
    {
        proof {
            use_type_invariant(&*self);
        }
        let mut pending: Vec<Pending> = Vec::new();
        core::mem::swap(&mut self.pending, &mut pending);
        pending.push(p);
        self.pending = pending;
    }

    /// Starts a query.
    fn trace_from(&mut self, t: Trace)
        requires
            is_fraction(t.output_fraction),
        ensures
            final(self).same_level(old(self)),
            final(self)@.walk == begin(t),
    {
        proof {
            use_type_invariant(&*self);
        }
        self.phase = Phase::Node {
            node: 0,
            segment: Segment {
                start_fraction: Scalar::zero(),
                end_fraction: Scalar::one(),
                start: t.start,
                end: t.end,
            },
        };
        self.pending = Vec::new();
        self.t_trace = t;
        assert(self@.walk.pending =~= Seq::<Pending>::empty());
    }

    /// Starts the query for a point that moves from `start` to `end`.
    /// What is to be measured first is asked for with `action`.
    pub fn trace_ray(&mut self, start: Vec3, end: Vec3)
        ensures
            final(self).same_level(old(self)),
            final(self)@.walk == begin(ray_query(start, end)),
    {
        self.trace_from(Trace::ray(start, end));
    }

    /// Starts the query for a sphere that moves from `start` to `end`.
    pub fn trace_sphere(&mut self, start: Vec3, end: Vec3, radius: Scalar)
        ensures
            final(self).same_level(old(self)),
            final(self)@.walk == begin(sphere_query(start, end, radius)),
    {
        self.trace_from(Trace::sphere(start, end, radius));
    }

    /// Starts the query for a box that moves from `start` to `end`. A box
    /// without size is traced as a point.
    pub fn trace_box(&mut self, start: Vec3, end: Vec3, mins: Vec3, maxs: Vec3)
        ensures
            final(self).same_level(old(self)),
            final(self)@.walk == begin(box_query(start, end, mins, maxs)),
    {
        self.trace_from(Trace::boxed(start, end, mins, maxs));
    }

    /// What the caller has to compute next.
    pub fn action(&self) -> (a: Action)
        ensures
            action_matches(self@.geometry, self@.walk, a),
    {
        proof {
            use_type_invariant(self);
        }
        match self.phase {
            Phase::Idle => Action::Done,
            Phase::Node { node, segment } => {
                let plane: &Plane = &self.geometry.planes[self.geometry.nodes[node].plane as usize];
                Action::Node {
                    normal: Vec3::new(plane.normal[0], plane.normal[1], plane.normal[2]),
                    distance: plane.distance,
                    segment,
                    reach: self.t_trace.reach(),
                }
            },
            Phase::Split { node, side, segment, fraction_1, fraction_2 } => Action::Split {
                segment,
                fraction_1,
                fraction_2,
            },
            Phase::Brush { leaf, at } => {
                let b: Brush = self.leaf_brush(leaf, at);
                let first: usize = b.brush_side as usize;
                let count: usize = b.num_brush_sides as usize;
                let mut sides: Vec<SideProbe> = Vec::new();
                let mut i: usize = 0;
                while i < count
                    invariant
                        i <= count,
                        sound(self@),
                        b.num_brush_sides > 0,
                        brush_ok(self@.geometry, b),
                        first == b.brush_side,
                        count == b.num_brush_sides,
                        sides@.len() == i,
                        forall|k: int|
                            0 <= k < i ==> #[trigger] sides@[k] == side_probe(
                                self@.geometry,
                                self@.walk.trace,
                                b,
                                k,
                            ),
                    decreases count - i,
                {
                    let side: &BrushSide = &self.geometry.brush_sides[first + i];
                    let plane: &Plane = &self.geometry.planes[side.plane as usize];
                    let normal = Vec3::new(plane.normal[0], plane.normal[1], plane.normal[2]);
                    sides.push(
                        SideProbe {
                            normal,
                            distance: plane.distance,
                            shape: self.t_trace.side_shape(normal),
                        },
                    );
                    i = i + 1;
                }
                Action::Brush { start: self.t_trace.start, end: self.t_trace.end, sides }
            },
            Phase::End => Action::End {
                start: self.t_trace.start,
                end: self.t_trace.end,
                fraction: self.t_trace.output_fraction,
            },
        }
    }

    /// Takes the measure of the node that waits for it. Without such a
    /// node nothing changes.
    pub fn check_node(&mut self, m: &NodeMeasure)
        ensures
            final(self).same_level(old(self)),
            final(self)@.walk == after_node(old(self)@.geometry, old(self)@.walk, *m),
    {
        proof {
            use_type_invariant(&*self);
        }
        match self.phase {
            Phase::Node { node, segment } => {
                match classify(m) {
                    Crossing::Front => {
                        let child: i32 = self.geometry.nodes[node].children[0];
                        self.push_pending(Pending { node: child, segment });
                        self.settle();
                    },
                    Crossing::Back => {
                        let child: i32 = self.geometry.nodes[node].children[1];
                        self.push_pending(Pending { node: child, segment });
                        self.settle();
                    },
                    Crossing::Split { side, fraction_1, fraction_2 } => {
                        self.phase = Phase::Split { node, side, segment, fraction_1, fraction_2 };
                    },
                }
            },
            _ => {},
        }
    }

    /// Takes the points of the cut that waits for them. Without such a
    /// cut nothing changes.
    pub fn split_node(&mut self, p: &SplitPoints)
        ensures
            final(self).same_level(old(self)),
            final(self)@.walk == after_split(old(self)@.geometry, old(self)@.walk, *p),
    {
        proof {
            use_type_invariant(&*self);
        }
        match self.phase {
            Phase::Split { node, side, segment, fraction_1, fraction_2 } => {
                let child: i32 = self.geometry.nodes[node].children[side];
                let first = Segment {
                    start_fraction: segment.start_fraction,
                    end_fraction: p.fraction_1,
                    start: segment.start,
                    end: p.point_1,
                };
                let second = Segment {
                    start_fraction: p.fraction_2,
                    end_fraction: segment.end_fraction,
                    start: p.point_2,
                    end: segment.end,
                };
                self.push_pending(Pending { node: child, segment: second });
                self.push_pending(Pending { node: child, segment: first });
                self.settle();
            },
            _ => {},
        }
    }

    /// Takes the measure of the brush that waits for it. Without such a
    /// brush nothing changes.
    pub fn check_brush(&mut self, hits: &Vec<SideHit>)
        ensures
            final(self).same_level(old(self)),
            final(self)@.walk == after_brush(old(self)@.geometry, old(self)@.walk, hits@),
    {
        proof {
            use_type_invariant(&*self);
        }
        match self.phase {
            Phase::Brush { leaf, at } => {
                proof {
                    lemma_absorb_shrinks(self.t_trace, clip_sides(hits@, hits@.len() as int));
                }
                let mut t: Trace = self.t_trace;
                t.check_brush(hits);
                self.t_trace = t;
                match self.find_candidate(leaf, at + 1) {
                    Some(n) => {
                        self.phase = Phase::Brush { leaf, at: n };
                    },
                    None => {
                        self.settle();
                    },
                }
            },
            _ => {},
        }
    }

    /// Takes the point that the probe reached, which completes the query.
    /// Where no such point is waited for nothing changes.
    pub fn finish(&mut self, point: Vec3)
        ensures
            final(self).same_level(old(self)),
            final(self)@.walk == after_end(old(self)@.walk, point),
    {
        proof {
            use_type_invariant(&*self);
        }
        match self.phase {
            Phase::End => {
                self.t_trace.output_end = point;
                self.phase = Phase::Idle;
            },
            _ => {},
        }
    }
}

impl Bsp {
    /// Carries the query under way to its end, with `k` for the arithmetic.
    ///
    /// Each thing to measure is handed to the kernel and its answer is
    /// taken, until nothing is left to measure. The tree has no cycle, so
    /// this ends. The question stays the same, the probe gets no farther
    /// than it got before, what was marked stays marked, and a probe that
    /// was not stopped reaches the end of the segment. A probe that does
    /// not move is stopped nowhere, if the kernel is still.
    pub fn trace<
        N: Fn(Vec3, Scalar, Segment, Reach) -> NodeMeasure,
        S: Fn(Segment, Scalar, Scalar) -> SplitPoints,
        B: Fn(SideProbe, Vec3, Vec3) -> SideHit,
        E: Fn(Vec3, Vec3, Scalar) -> Vec3,
    >(&mut self, k: &Kernel<N, S, B, E>)
        requires
            k.total(),
        ensures
            final(self).same_level(old(self)),
            final(self)@.walk.phase is Idle,
            leads(old(self)@.geometry, k, old(self)@.walk, final(self)@.walk),
            same_query(old(self)@.walk.trace, final(self)@.walk.trace),
            is_fraction(final(self)@.walk.trace.output_fraction),
            final(self)@.walk.trace.output_fraction.key()
                <= old(self)@.walk.trace.output_fraction.key(),
            !old(self)@.walk.trace.output_starts_out ==> !final(self)@.walk.trace.output_starts_out,
            old(self)@.walk.trace.output_all_solid ==> final(self)@.walk.trace.output_all_solid,
            reaches_end(final(self)@.walk.trace),
            still(k) && old(self)@.walk.trace.start == old(self)@.walk.trace.end
                ==> final(self)@.walk.trace.output_fraction
                == old(self)@.walk.trace.output_fraction,
    {
        proof {
            use_type_invariant(&*self);
        }
        let ghost mut path: Seq<Walk> = seq![self@.walk];
        loop
            invariant
                k.total(),
                self.same_level(old(self)),
                path.len() > 0,
                path[0] == old(self)@.walk,
                path.last() == self@.walk,
                course(old(self)@.geometry, k, path),
                sound(old(self)@),
            decreases steps_left(self@.geometry, self@.order, self@.walk),
        {
            proof {
                use_type_invariant(&*self);
            }
            let ghost before = self@.walk;
            let ghost g = self@.geometry;
            match self.action() {
                Action::Done => {
                    proof {
                        lemma_course(g, self@.order, k, path, path.len() - 1);
                    }
                    return ;
                },
                Action::Node { normal, distance, segment, reach } => {
                    let m: NodeMeasure = (k.node)(normal, distance, segment, reach);
                    proof {
                        lemma_node_step(g, self@.order, before, m);
                    }
                    self.check_node(&m);
                },
                Action::Split { segment, fraction_1, fraction_2 } => {
                    let p: SplitPoints = (k.split)(segment, fraction_1, fraction_2);
                    proof {
                        lemma_split_step(g, self@.order, before, p);
                    }
                    self.split_node(&p);
                },
                Action::Brush { start, end, sides } => {
                    let mut hits: Vec<SideHit> = Vec::new();
                    let mut i: usize = 0;
                    while i < sides.len()
                        invariant
                            k.total(),
                            i <= sides@.len(),
                            hits@.len() == i,
                            forall|j: int|
                                0 <= j < i ==> call_ensures(
                                    k.side,
                                    (sides@[j], start, end),
                                    #[trigger] hits@[j],
                                ),
                        decreases sides@.len() - i,
                    {
                        let h: SideHit = (k.side)(sides[i], start, end);
                        hits.push(h);
                        i = i + 1;
                    }
                    proof {
                        lemma_brush_step(g, self@.order, before, hits@);
                    }
                    self.check_brush(&hits);
                },
                Action::End { start, end, fraction } => {
                    let point: Vec3 = (k.end)(start, end, fraction);
                    proof {
                        lemma_end_step(g, self@.order, before, point);
                    }
                    self.finish(point);
                },
            }
            proof {
                assert(answers(g, k, before, self@.walk));
                path = path.push(self@.walk);
            }
        }
    }
}

} // verus!

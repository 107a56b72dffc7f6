//! The course of a collision query through the partition tree.
//!
//! A query is a state machine. Its state says what is to be measured
//! next: a segment against the plane of a node, the cut of a segment, or
//! the probe against the sides of a brush. Each answer leads to the next
//! state. This module describes the states and what follows from each
//! answer, and shows that a query ends.

use vstd::prelude::*;
use crate::geometry::{Brush, Geometry, CONTENTS_SOLID};
use crate::scalar::Scalar;
use crate::store::store_fault;
use crate::trace::{
    clip_sides, crossing_of, is_fraction, lemma_absorb_shrinks, lemma_outside_keeps_query,
    lemma_still_probe_keeps_fraction, one, zero, Action, Crossing, Kernel, NodeMeasure, Reach,
    Segment, SideHit, SideProbe, SplitPoints, Trace, Vec3,
};
use crate::tree::{child_ok, lemma_child_weight, node_ok, orders, weight};

verus! {

/// A part of the segment that waits for a node or leaf of the tree.
#[derive(Clone, Copy, Debug)]
pub struct Pending {
    pub node: i32,
    pub segment: Segment,
}

/// Where a query stands.
#[derive(Clone, Copy, Debug)]
pub enum Phase {
    /// No query is under way, or the query is complete.
    Idle,
    /// A segment has reached a node and waits for its measure.
    Node { node: usize, segment: Segment },
    /// A segment is cut at a node and waits for the points of the cut.
    Split { node: usize, side: usize, segment: Segment, fraction_1: Scalar, fraction_2: Scalar },
    /// Brush number `at` of a leaf waits for the measure of its sides.
    Brush { leaf: usize, at: usize },
    /// The probe was stopped and the point it reached waits to be computed.
    End,
}

/// The state of a query: the query with what is known of its result, the
/// parts of the segment that still wait, the last of them first in turn,
/// and where the query stands.
#[verifier::ext_equal]
pub struct Walk {
    pub trace: Trace,
    pub pending: Seq<Pending>,
    pub phase: Phase,
}

/// The direction that three numbers give.
pub open spec fn vec_of(a: [Scalar; 3]) -> Vec3 {
    Vec3 { x: a[0], y: a[1], z: a[2] }
}

/// Brush number `at` of a leaf.
pub open spec fn brush_at(g: Geometry, leaf: int, at: int) -> Brush {
    g.brushes@[g.leaf_brushes@[g.leafs@[leaf].leaf_brush + at].brush as int]
}

/// Whether a brush can stop a probe: it has sides, and bit 0 of the
/// contents of its texture is set.
pub open spec fn is_solid(g: Geometry, b: Brush) -> bool {
    b.num_brush_sides > 0 && g.textures@[b.texture as int].contents & CONTENTS_SOLID
        == CONTENTS_SOLID
}

/// The first brush of a leaf, from number `from` on, that can stop a probe.
pub open spec fn next_candidate(g: Geometry, leaf: int, from: int) -> Option<int>
    decreases g.leafs@[leaf].num_leaf_brushes - from,
{
    if from >= g.leafs@[leaf].num_leaf_brushes {
        None
    } else if is_solid(g, brush_at(g, leaf, from)) {
        Some(from)
    } else {
        next_candidate(g, leaf, from + 1)
    }
}

/// The plane of side `i` of a brush and how the probe of a query meets it.
pub open spec fn side_probe(g: Geometry, t: Trace, b: Brush, i: int) -> SideProbe {
    let plane = g.planes@[g.brush_sides@[b.brush_side + i].plane as int];
    SideProbe {
        normal: vec_of(plane.normal),
        distance: plane.distance,
        shape: t.spec_side_shape(vec_of(plane.normal)),
    }
}

/// Where a query goes on once nothing is being measured.
///
/// The part that waited last is taken up. At a node it waits for its
/// measure. At a leaf the first brush that can stop a probe waits for its
/// measure; a leaf without such a brush is passed over. When nothing
/// waits any more the query is complete if nothing stopped the probe, and
/// the probe reaches the end of the segment; else the point that it
/// reached is still to be computed.
pub open spec fn settle(g: Geometry, trace: Trace, pending: Seq<Pending>) -> Walk
    decreases pending.len(),
{
    if pending.len() == 0 {
        if trace.output_fraction.spec_same(one()) {
            Walk { trace: Trace { output_end: trace.end, ..trace }, pending, phase: Phase::Idle }
        } else {
            Walk { trace, pending, phase: Phase::End }
        }
    } else {
        let top = pending.last();
        let rest = pending.drop_last();
        if top.node >= 0 {
            Walk {
                trace,
                pending: rest,
                phase: Phase::Node { node: top.node as usize, segment: top.segment },
            }
        } else {
            match next_candidate(g, -(top.node + 1), 0) {
                Some(at) => Walk {
                    trace,
                    pending: rest,
                    phase: Phase::Brush { leaf: (-(top.node + 1)) as usize, at: at as usize },
                },
                None => settle(g, trace, rest),
            }
        }
    }
}

/// The state in which a query starts: the whole segment has reached the
/// root and waits for its measure.
pub open spec fn begin(t: Trace) -> Walk {
    Walk {
        trace: t,
        pending: Seq::empty(),
        phase: Phase::Node { node: 0, segment: t.whole() },
    }
}

/// The state after a node has been measured.
///
/// A segment in front of the plane goes on to the first child, one behind
/// it to the second. A segment within reach of the plane is cut and waits
/// for the points of the cut.
pub open spec fn after_node(g: Geometry, w: Walk, m: NodeMeasure) -> Walk {
    match w.phase {
        Phase::Node { node, segment } => match crossing_of(m) {
            Crossing::Front => settle(
                g,
                w.trace,
                w.pending.push(Pending { node: g.nodes@[node as int].children[0], segment }),
            ),
            Crossing::Back => settle(
                g,
                w.trace,
                w.pending.push(Pending { node: g.nodes@[node as int].children[1], segment }),
            ),
            Crossing::Split { side, fraction_1, fraction_2 } => Walk {
                trace: w.trace,
                pending: w.pending,
                phase: Phase::Split { node, side, segment, fraction_1, fraction_2 },
            },
        },
        _ => w,
    }
}

/// The part of a cut segment before the first point of the cut.
pub open spec fn first_part(segment: Segment, p: SplitPoints) -> Segment {
    Segment {
        start_fraction: segment.start_fraction,
        end_fraction: p.fraction_1,
        start: segment.start,
        end: p.point_1,
    }
}

/// The part of a cut segment behind the second point of the cut.
pub open spec fn second_part(segment: Segment, p: SplitPoints) -> Segment {
    Segment {
        start_fraction: p.fraction_2,
        end_fraction: segment.end_fraction,
        start: p.point_2,
        end: segment.end,
    }
}

/// The state after a cut has been computed: both parts of the segment go
/// on to the child on the near side, the first part first.
pub open spec fn after_split(g: Geometry, w: Walk, p: SplitPoints) -> Walk {
    match w.phase {
        Phase::Split { node, side, segment, fraction_1, fraction_2 } => {
            let child = g.nodes@[node as int].children[side as int];
            settle(
                g,
                w.trace,
                w.pending.push(Pending { node: child, segment: second_part(segment, p) }).push(
                    Pending { node: child, segment: first_part(segment, p) },
                ),
            )
        },
        _ => w,
    }
}

/// The state after a brush has been measured: its result is taken into
/// the query, and the next brush of the leaf that can stop a probe waits,
/// or the query goes on behind the leaf.
pub open spec fn after_brush(g: Geometry, w: Walk, hits: Seq<SideHit>) -> Walk {
    match w.phase {
        Phase::Brush { leaf, at } => {
            let trace = w.trace.absorb(clip_sides(hits, hits.len() as int));
            match next_candidate(g, leaf as int, at + 1) {
                Some(n) => Walk {
                    trace,
                    pending: w.pending,
                    phase: Phase::Brush { leaf, at: n as usize },
                },
                None => settle(g, trace, w.pending),
            }
        },
        _ => w,
    }
}

/// The state after the point that the probe reached has been computed.
pub open spec fn after_end(w: Walk, point: Vec3) -> Walk {
    match w.phase {
        Phase::End => Walk {
            trace: Trace { output_end: point, ..w.trace },
            pending: w.pending,
            phase: Phase::Idle,
        },
        _ => w,
    }
}

/// Whether `action` is what the state of a query asks for.
pub open spec fn action_matches(g: Geometry, w: Walk, action: Action) -> bool {
    match w.phase {
        Phase::Idle => action is Done,
        Phase::Node { node, segment } => {
            let plane = g.planes@[g.nodes@[node as int].plane as int];
            action matches Action::Node { normal, distance, segment: s, reach } && normal == vec_of(
                plane.normal,
            ) && distance == plane.distance && s == segment && reach == w.trace.spec_reach()
        },
        Phase::Split { node, side, segment, fraction_1, fraction_2 } => {
            action matches Action::Split { segment: s, fraction_1: f1, fraction_2: f2 } && s
                == segment && f1 == fraction_1 && f2 == fraction_2
        },
        Phase::Brush { leaf, at } => {
            let b = brush_at(g, leaf as int, at as int);
            action matches Action::Brush { start, end, sides } && start == w.trace.start && end
                == w.trace.end && sides@.len() == b.num_brush_sides && forall|i: int|
                0 <= i < sides@.len() ==> #[trigger] sides@[i] == side_probe(g, w.trace, b, i)
        },
        Phase::End => {
            action matches Action::End { start, end, fraction } && start == w.trace.start && end
                == w.trace.end && fraction == w.trace.output_fraction
        },
    }
}

/// Whether the result of a query that was not stopped is in order: the
/// probe has reached the end of the segment.
pub open spec fn reaches_end(t: Trace) -> bool {
    t.output_fraction.spec_same(one()) ==> t.output_end == t.end
}

/// Whether a state refers only to what the level holds, and is one that a
/// query can be in.
pub open spec fn walk_ok(g: Geometry, w: Walk) -> bool {
    &&& is_fraction(w.trace.output_fraction)
    &&& forall|i: int|
        0 <= i < w.pending.len() ==> child_ok(g, (#[trigger] w.pending[i]).node as int)
    &&& match w.phase {
        Phase::Idle => w.pending.len() == 0 && reaches_end(w.trace),
        Phase::Node { node, segment } => node < g.nodes@.len(),
        Phase::Split { node, side, segment, fraction_1, fraction_2 } => node < g.nodes@.len()
            && side < 2,
        Phase::Brush { leaf, at } => leaf < g.leafs@.len() && at
            < g.leafs@[leaf as int].num_leaf_brushes && is_solid(
            g,
            brush_at(g, leaf as int, at as int),
        ),
        Phase::End => w.pending.len() == 0 && !w.trace.output_fraction.spec_same(one()),
    }
}

/// What the parts of the segment that wait can cause together.
pub open spec fn pending_weight(g: Geometry, order: Seq<int>, pending: Seq<Pending>) -> nat
    decreases pending.len(),
{
    if pending.len() == 0 {
        0
    } else {
        pending_weight(g, order, pending.drop_last()) + weight(
            g,
            order,
            pending.last().node as int,
        )
    }
}

/// What is left of the work of the node or leaf that a query stands at.
pub open spec fn phase_weight(g: Geometry, order: Seq<int>, phase: Phase) -> nat {
    match phase {
        Phase::Idle => 0,
        Phase::End => 0,
        Phase::Node { node, segment } => weight(g, order, node as int),
        Phase::Split { node, side, segment, fraction_1, fraction_2 } => (weight(
            g,
            order,
            node as int,
        ) - 1) as nat,
        Phase::Brush { leaf, at } => (1 + g.leafs@[leaf as int].num_leaf_brushes - at) as nat,
    }
}

/// A bound on the steps that a query still takes.
pub open spec fn steps_left(g: Geometry, order: Seq<int>, w: Walk) -> nat {
    if w.phase is Idle {
        0
    } else {
        pending_weight(g, order, w.pending) + phase_weight(g, order, w.phase) + 1
    }
}

/// One more part that waits adds its weight.
pub proof fn lemma_push_weight(g: Geometry, order: Seq<int>, pending: Seq<Pending>, p: Pending)
    ensures
        pending_weight(g, order, pending.push(p)) == pending_weight(g, order, pending) + weight(
            g,
            order,
            p.node as int,
        ),
{
    assert(pending.push(p).drop_last() =~= pending);
}

/// The next brush that can stop a probe is a brush of the leaf and is
/// not before the place where the search began.
pub proof fn lemma_next_candidate(g: Geometry, leaf: int, from: int)
    requires
        0 <= from,
    ensures
        next_candidate(g, leaf, from) matches Some(n) ==> from <= n
            < g.leafs@[leaf].num_leaf_brushes && is_solid(g, brush_at(g, leaf, n)),
    decreases g.leafs@[leaf].num_leaf_brushes - from,
{
    if from < g.leafs@[leaf].num_leaf_brushes && !is_solid(g, brush_at(g, leaf, from)) {
        lemma_next_candidate(g, leaf, from + 1);
    }
}

/// Going on to the next thing to measure takes no more steps than the
/// parts that wait can cause, and one. It leaves the fraction and the
/// marks of the query as they are, and the state it leads to is in order.
pub proof fn lemma_settle(g: Geometry, order: Seq<int>, trace: Trace, pending: Seq<Pending>)
    requires
        store_fault(g) is None,
        orders(g, order),
        is_fraction(trace.output_fraction),
        forall|i: int| 0 <= i < pending.len() ==> child_ok(g, (#[trigger] pending[i]).node as int),
    ensures
        steps_left(g, order, settle(g, trace, pending)) <= pending_weight(g, order, pending) + 1,
        walk_ok(g, settle(g, trace, pending)),
        same_result(trace, settle(g, trace, pending).trace),
    decreases pending.len(),
{
    if pending.len() > 0 {
        let top = pending.last();
        let rest = pending.drop_last();
        assert(child_ok(g, top.node as int));
        if top.node < 0 {
            let leaf = -(top.node + 1);
            lemma_next_candidate(g, leaf, 0);
            if next_candidate(g, leaf, 0) is None {
                lemma_settle(g, order, trace, rest);
            }
        }
    }
}

/// Measuring a node brings a query nearer to its end and leaves its
/// result as it is.
pub proof fn lemma_node_step(g: Geometry, order: Seq<int>, w: Walk, m: NodeMeasure)
    requires
        store_fault(g) is None,
        orders(g, order),
        walk_ok(g, w),
        w.phase is Node,
    ensures
        steps_left(g, order, after_node(g, w, m)) < steps_left(g, order, w),
        walk_ok(g, after_node(g, w, m)),
        same_result(w.trace, after_node(g, w, m).trace),
{
    let node = w.phase->Node_node;
    let segment = w.phase->Node_segment;
    assert(node_ok(g, g.nodes@[node as int]));
    match crossing_of(m) {
        Crossing::Front => {
            let p = Pending { node: g.nodes@[node as int].children[0], segment };
            lemma_push_weight(g, order, w.pending, p);
            lemma_child_weight(g, order, node as int, 0);
            lemma_settle(g, order, w.trace, w.pending.push(p));
        },
        Crossing::Back => {
            let p = Pending { node: g.nodes@[node as int].children[1], segment };
            lemma_push_weight(g, order, w.pending, p);
            lemma_child_weight(g, order, node as int, 1);
            lemma_settle(g, order, w.trace, w.pending.push(p));
        },
        Crossing::Split { side, fraction_1, fraction_2 } => {
            lemma_child_weight(g, order, node as int, 0);
        },
    }
}

/// Cutting a segment brings a query nearer to its end and leaves its
/// result as it is.
pub proof fn lemma_split_step(g: Geometry, order: Seq<int>, w: Walk, p: SplitPoints)
    requires
        store_fault(g) is None,
        orders(g, order),
        walk_ok(g, w),
        w.phase is Split,
    ensures
        steps_left(g, order, after_split(g, w, p)) < steps_left(g, order, w),
        walk_ok(g, after_split(g, w, p)),
        same_result(w.trace, after_split(g, w, p).trace),
{
    let node = w.phase->Split_node;
    let side = w.phase->Split_side;
    let segment = w.phase->Split_segment;
    assert(node_ok(g, g.nodes@[node as int]));
    let child = g.nodes@[node as int].children[side as int];
    let second = Pending { node: child, segment: second_part(segment, p) };
    let first = Pending { node: child, segment: first_part(segment, p) };
    lemma_push_weight(g, order, w.pending, second);
    lemma_push_weight(g, order, w.pending.push(second), first);
    lemma_child_weight(g, order, node as int, side as int);
    lemma_settle(g, order, w.trace, w.pending.push(second).push(first));
}

/// Measuring a brush brings a query nearer to its end. The probe gets no
/// farther by it, and what was marked stays marked.
pub proof fn lemma_brush_step(g: Geometry, order: Seq<int>, w: Walk, hits: Seq<SideHit>)
    requires
        store_fault(g) is None,
        orders(g, order),
        walk_ok(g, w),
        w.phase is Brush,
    ensures
        steps_left(g, order, after_brush(g, w, hits)) < steps_left(g, order, w),
        walk_ok(g, after_brush(g, w, hits)),
        same_query(w.trace, after_brush(g, w, hits).trace),
        after_brush(g, w, hits).trace.output_fraction == w.trace.absorb(
            clip_sides(hits, hits.len() as int),
        ).output_fraction,
        after_brush(g, w, hits).trace.output_fraction.key() <= w.trace.output_fraction.key(),
        !w.trace.output_starts_out ==> !after_brush(g, w, hits).trace.output_starts_out,
        w.trace.output_all_solid ==> after_brush(g, w, hits).trace.output_all_solid,
{
    let leaf = w.phase->Brush_leaf;
    let at = w.phase->Brush_at;
    let trace = w.trace.absorb(clip_sides(hits, hits.len() as int));
    lemma_absorb_shrinks(w.trace, clip_sides(hits, hits.len() as int));
    lemma_next_candidate(g, leaf as int, at + 1);
    if next_candidate(g, leaf as int, at + 1) is None {
        lemma_settle(g, order, trace, w.pending);
    }
}

/// Computing the point that the probe reached completes a query.
pub proof fn lemma_end_step(g: Geometry, order: Seq<int>, w: Walk, point: Vec3)
    requires
        walk_ok(g, w),
        w.phase is End,
    ensures
        steps_left(g, order, after_end(w, point)) < steps_left(g, order, w),
        walk_ok(g, after_end(w, point)),
        after_end(w, point).phase is Idle,
        same_result(w.trace, after_end(w, point).trace),
{
}

/// Whether two states of a query ask the same question.
pub open spec fn same_query(a: Trace, b: Trace) -> bool {
    &&& a.start == b.start
    &&& a.end == b.end
    &&& a.radius == b.radius
    &&& a.mins == b.mins
    &&& a.maxs == b.maxs
    &&& a.extents == b.extents
    &&& a.t_type == b.t_type
}

/// Whether two states of a query ask the same question and know the same
/// of its result, but for the point that the probe reaches.
pub open spec fn same_result(a: Trace, b: Trace) -> bool {
    &&& same_query(a, b)
    &&& a.output_fraction == b.output_fraction
    &&& a.output_starts_out == b.output_starts_out
    &&& a.output_all_solid == b.output_all_solid
}

/// Whether `next` is a state that follows `w` when the kernel answers what
/// `w` asks for: the state after some answer that the kernel can give.
pub open spec fn answers<
    N: Fn(Vec3, Scalar, Segment, Reach) -> NodeMeasure,
    S: Fn(Segment, Scalar, Scalar) -> SplitPoints,
    B: Fn(SideProbe, Vec3, Vec3) -> SideHit,
    E: Fn(Vec3, Vec3, Scalar) -> Vec3,
>(g: Geometry, k: &Kernel<N, S, B, E>, w: Walk, next: Walk) -> bool {
    match w.phase {
        Phase::Idle => false,
        Phase::Node { node, segment } => {
            let plane = g.planes@[g.nodes@[node as int].plane as int];
            exists|m: NodeMeasure|
                call_ensures(
                    k.node,
                    (vec_of(plane.normal), plane.distance, segment, w.trace.spec_reach()),
                    m,
                ) && next == #[trigger] after_node(g, w, m)
        },
        Phase::Split { node, side, segment, fraction_1, fraction_2 } => {
            exists|p: SplitPoints|
                call_ensures(k.split, (segment, fraction_1, fraction_2), p) && next
                    == #[trigger] after_split(g, w, p)
        },
        Phase::Brush { leaf, at } => {
            let b = brush_at(g, leaf as int, at as int);
            exists|hits: Seq<SideHit>|
                hits.len() == b.num_brush_sides && (forall|i: int|
                    0 <= i < hits.len() ==> call_ensures(
                        k.side,
                        (side_probe(g, w.trace, b, i), w.trace.start, w.trace.end),
                        #[trigger] hits[i],
                    )) && next == #[trigger] after_brush(g, w, hits)
        },
        Phase::End => {
            exists|point: Vec3|
                call_ensures(k.end, (w.trace.start, w.trace.end, w.trace.output_fraction), point)
                    && next == #[trigger] after_end(w, point)
        },
    }
}

/// Whether `path` is a course that a query can take: each state follows
/// the one before it when the kernel answers what that state asks for.
pub open spec fn course<
    N: Fn(Vec3, Scalar, Segment, Reach) -> NodeMeasure,
    S: Fn(Segment, Scalar, Scalar) -> SplitPoints,
    B: Fn(SideProbe, Vec3, Vec3) -> SideHit,
    E: Fn(Vec3, Vec3, Scalar) -> Vec3,
>(g: Geometry, k: &Kernel<N, S, B, E>, path: Seq<Walk>) -> bool {
    forall|i: int| 0 <= i < path.len() - 1 ==> answers(g, k, #[trigger] path[i], path[i + 1])
}

/// Whether a query can get from the state `from` to the state `to`, the
/// kernel answering each time what the state asks for.
pub open spec fn leads<
    N: Fn(Vec3, Scalar, Segment, Reach) -> NodeMeasure,
    S: Fn(Segment, Scalar, Scalar) -> SplitPoints,
    B: Fn(SideProbe, Vec3, Vec3) -> SideHit,
    E: Fn(Vec3, Vec3, Scalar) -> Vec3,
>(g: Geometry, k: &Kernel<N, S, B, E>, from: Walk, to: Walk) -> bool {
    exists|path: Seq<Walk>|
        path.len() > 0 && path[0] == from && path.last() == to && #[trigger] course(g, k, path)
}

/// Whether a kernel finds, for a probe that does not move, the same
/// distance at both ends of its segment.
pub open spec fn still<
    N: Fn(Vec3, Scalar, Segment, Reach) -> NodeMeasure,
    S: Fn(Segment, Scalar, Scalar) -> SplitPoints,
    B: Fn(SideProbe, Vec3, Vec3) -> SideHit,
    E: Fn(Vec3, Vec3, Scalar) -> Vec3,
>(k: &Kernel<N, S, B, E>) -> bool {
    forall|probe: SideProbe, p: Vec3, h: SideHit| #[trigger]
        call_ensures(k.side, (probe, p, p), h) ==> h.start_distance == h.end_distance
}

/// Whatever the kernel answers, a step of a query leads to a state that
/// is in order and nearer to the end of the query. The question stays
/// the same, the probe gets no farther, and what was marked stays marked.
/// A probe that does not move is stopped nowhere, if the kernel is still.
pub proof fn lemma_step<
    N: Fn(Vec3, Scalar, Segment, Reach) -> NodeMeasure,
    S: Fn(Segment, Scalar, Scalar) -> SplitPoints,
    B: Fn(SideProbe, Vec3, Vec3) -> SideHit,
    E: Fn(Vec3, Vec3, Scalar) -> Vec3,
>(g: Geometry, order: Seq<int>, k: &Kernel<N, S, B, E>, w: Walk, next: Walk)
    requires
        store_fault(g) is None,
        orders(g, order),
        walk_ok(g, w),
        answers(g, k, w, next),
    ensures
        walk_ok(g, next),
        steps_left(g, order, next) < steps_left(g, order, w),
        same_query(w.trace, next.trace),
        next.trace.output_fraction.key() <= w.trace.output_fraction.key(),
        !w.trace.output_starts_out ==> !next.trace.output_starts_out,
        w.trace.output_all_solid ==> next.trace.output_all_solid,
        still(k) && w.trace.start == w.trace.end ==> next.trace.output_fraction
            == w.trace.output_fraction,
{
    match w.phase {
        Phase::Idle => {},
        Phase::Node { node, segment } => {
            let plane = g.planes@[g.nodes@[node as int].plane as int];
            let m = choose|m: NodeMeasure|
                call_ensures(
                    k.node,
                    (vec_of(plane.normal), plane.distance, segment, w.trace.spec_reach()),
                    m,
                ) && next == #[trigger] after_node(g, w, m);
            lemma_node_step(g, order, w, m);
        },
        Phase::Split { node, side, segment, fraction_1, fraction_2 } => {
            let p = choose|p: SplitPoints|
                call_ensures(k.split, (segment, fraction_1, fraction_2), p) && next
                    == #[trigger] after_split(g, w, p);
            lemma_split_step(g, order, w, p);
        },
        Phase::Brush { leaf, at } => {
            let b = brush_at(g, leaf as int, at as int);
            let hits = choose|hits: Seq<SideHit>|
                hits.len() == b.num_brush_sides && (forall|i: int|
                    0 <= i < hits.len() ==> call_ensures(
                        k.side,
                        (side_probe(g, w.trace, b, i), w.trace.start, w.trace.end),
                        #[trigger] hits[i],
                    )) && next == #[trigger] after_brush(g, w, hits);
            lemma_brush_step(g, order, w, hits);
            if still(k) && w.trace.start == w.trace.end {
                assert forall|i: int| 0 <= i < hits.len() implies (
                #[trigger] hits[i]).start_distance == hits[i].end_distance by {
                    assert(call_ensures(
                        k.side,
                        (side_probe(g, w.trace, b, i), w.trace.start, w.trace.start),
                        hits[i],
                    ));
                }
                lemma_still_probe_keeps_fraction(w.trace, hits);
            }
        },
        Phase::End => {
            let point = choose|point: Vec3|
                call_ensures(k.end, (w.trace.start, w.trace.end, w.trace.output_fraction), point)
                    && next == #[trigger] after_end(w, point);
            lemma_end_step(g, order, w, point);
        },
    }
}

/// Along the course of a query every state is in order, the question
/// stays the same, the probe gets no farther, and what was marked stays
/// marked. A probe that does not move is stopped nowhere, if the kernel
/// is still.
pub proof fn lemma_course<
    N: Fn(Vec3, Scalar, Segment, Reach) -> NodeMeasure,
    S: Fn(Segment, Scalar, Scalar) -> SplitPoints,
    B: Fn(SideProbe, Vec3, Vec3) -> SideHit,
    E: Fn(Vec3, Vec3, Scalar) -> Vec3,
>(g: Geometry, order: Seq<int>, k: &Kernel<N, S, B, E>, path: Seq<Walk>, i: int)
    requires
        store_fault(g) is None,
        orders(g, order),
        0 <= i < path.len(),
        walk_ok(g, path[0]),
        course(g, k, path),
    ensures
        walk_ok(g, path[i]),
        same_query(path[0].trace, path[i].trace),
        path[i].trace.output_fraction.key() <= path[0].trace.output_fraction.key(),
        !path[0].trace.output_starts_out ==> !path[i].trace.output_starts_out,
        path[0].trace.output_all_solid ==> path[i].trace.output_all_solid,
        still(k) && path[0].trace.start == path[0].trace.end ==> path[i].trace.output_fraction
            == path[0].trace.output_fraction,
    decreases i,
{
    if i > 0 {
        lemma_course(g, order, k, path, i - 1);
        assert(answers(g, k, path[i - 1], path[i]));
        lemma_step(g, order, k, path[i - 1], path[i]);
    }
}

/// What a query leads to, whatever its course: the state is in order, the
/// question is the same, the probe has got no farther, and what was
/// marked is still marked. A query that has come to its end and was not
/// stopped has the probe at the end of the segment.
pub proof fn lemma_leads<
    N: Fn(Vec3, Scalar, Segment, Reach) -> NodeMeasure,
    S: Fn(Segment, Scalar, Scalar) -> SplitPoints,
    B: Fn(SideProbe, Vec3, Vec3) -> SideHit,
    E: Fn(Vec3, Vec3, Scalar) -> Vec3,
>(g: Geometry, order: Seq<int>, k: &Kernel<N, S, B, E>, from: Walk, to: Walk)
    requires
        store_fault(g) is None,
        orders(g, order),
        walk_ok(g, from),
        leads(g, k, from, to),
    ensures
        walk_ok(g, to),
        same_query(from.trace, to.trace),
        is_fraction(to.trace.output_fraction),
        to.trace.output_fraction.key() <= from.trace.output_fraction.key(),
        !from.trace.output_starts_out ==> !to.trace.output_starts_out,
        from.trace.output_all_solid ==> to.trace.output_all_solid,
        to.phase is Idle ==> reaches_end(to.trace),
{
    let path = choose|path: Seq<Walk>|
        path.len() > 0 && path[0] == from && path.last() == to && #[trigger] course(g, k, path);
    lemma_course(g, order, k, path, path.len() - 1);
}

/// A probe that does not move is stopped nowhere: a query whose segment
/// starts where it ends keeps its fraction, whatever the level holds, if
/// the kernel is still. Once it has come to its end, the probe is where
/// it started.
pub proof fn lemma_still_probe<
    N: Fn(Vec3, Scalar, Segment, Reach) -> NodeMeasure,
    S: Fn(Segment, Scalar, Scalar) -> SplitPoints,
    B: Fn(SideProbe, Vec3, Vec3) -> SideHit,
    E: Fn(Vec3, Vec3, Scalar) -> Vec3,
>(g: Geometry, order: Seq<int>, k: &Kernel<N, S, B, E>, from: Walk, to: Walk)
    requires
        store_fault(g) is None,
        orders(g, order),
        walk_ok(g, from),
        leads(g, k, from, to),
        still(k),
        from.trace.start == from.trace.end,
    ensures
        to.trace.output_fraction == from.trace.output_fraction,
        to.phase is Idle && from.trace.output_fraction == one() ==> to.trace.output_end
            == from.trace.start,
{
    let path = choose|path: Seq<Walk>|
        path.len() > 0 && path[0] == from && path.last() == to && #[trigger] course(g, k, path);
    lemma_course(g, order, k, path, path.len() - 1);
}

/// Whether the segment misses a brush with the measured sides: some side
/// has the whole segment in front of it.
pub open spec fn misses(hits: Seq<SideHit>) -> bool {
    exists|i: int|
        0 <= i < hits.len() && zero().spec_lt((#[trigger] hits[i]).start_distance)
            && zero().spec_lt(hits[i].end_distance)
}

/// Whether the way is clear at a state: if a brush waits for its measure,
/// the segment misses it, whatever of its answers the kernel gives.
pub open spec fn clear<
    N: Fn(Vec3, Scalar, Segment, Reach) -> NodeMeasure,
    S: Fn(Segment, Scalar, Scalar) -> SplitPoints,
    B: Fn(SideProbe, Vec3, Vec3) -> SideHit,
    E: Fn(Vec3, Vec3, Scalar) -> Vec3,
>(g: Geometry, k: &Kernel<N, S, B, E>, w: Walk) -> bool {
    w.phase matches Phase::Brush { leaf, at } ==> forall|hits: Seq<SideHit>|
        hits.len() == brush_at(g, leaf as int, at as int).num_brush_sides && (forall|i: int|
            0 <= i < hits.len() ==> call_ensures(
                k.side,
                (
                    side_probe(g, w.trace, brush_at(g, leaf as int, at as int), i),
                    w.trace.start,
                    w.trace.end,
                ),
                #[trigger] hits[i],
            )) ==> #[trigger] misses(hits)
}

/// A probe that moves through empty space is not stopped: along a course
/// on which the segment misses every brush that is measured, the result
/// of the query stays as it was.
pub proof fn lemma_clear_course<
    N: Fn(Vec3, Scalar, Segment, Reach) -> NodeMeasure,
    S: Fn(Segment, Scalar, Scalar) -> SplitPoints,
    B: Fn(SideProbe, Vec3, Vec3) -> SideHit,
    E: Fn(Vec3, Vec3, Scalar) -> Vec3,
>(g: Geometry, order: Seq<int>, k: &Kernel<N, S, B, E>, path: Seq<Walk>, i: int)
    requires
        store_fault(g) is None,
        orders(g, order),
        0 <= i < path.len(),
        walk_ok(g, path[0]),
        course(g, k, path),
        forall|j: int| 0 <= j < i ==> clear(g, k, #[trigger] path[j]),
    ensures
        same_result(path[0].trace, path[i].trace),
        path[i].phase is Idle && path[0].trace.output_fraction == one() ==> path[i].trace.output_end
            == path[0].trace.end,
    decreases i,
{
    lemma_course(g, order, k, path, i);
    if i > 0 {
        lemma_clear_course(g, order, k, path, i - 1);
        lemma_course(g, order, k, path, i - 1);
        let w = path[i - 1];
        let next = path[i];
        assert(answers(g, k, w, next));
        assert(clear(g, k, w));
        match w.phase {
            Phase::Idle => {},
            Phase::Node { node, segment } => {
                let plane = g.planes@[g.nodes@[node as int].plane as int];
                let m = choose|m: NodeMeasure|
                    call_ensures(
                        k.node,
                        (vec_of(plane.normal), plane.distance, segment, w.trace.spec_reach()),
                        m,
                    ) && next == #[trigger] after_node(g, w, m);
                lemma_node_step(g, order, w, m);
            },
            Phase::Split { node, side, segment, fraction_1, fraction_2 } => {
                let p = choose|p: SplitPoints|
                    call_ensures(k.split, (segment, fraction_1, fraction_2), p) && next
                        == #[trigger] after_split(g, w, p);
                lemma_split_step(g, order, w, p);
            },
            Phase::Brush { leaf, at } => {
                let b = brush_at(g, leaf as int, at as int);
                let hits = choose|hits: Seq<SideHit>|
                    hits.len() == b.num_brush_sides && (forall|i: int|
                        0 <= i < hits.len() ==> call_ensures(
                            k.side,
                            (side_probe(g, w.trace, b, i), w.trace.start, w.trace.end),
                            #[trigger] hits[i],
                        )) && next == #[trigger] after_brush(g, w, hits);
                assert(misses(hits));
                let side = choose|i: int|
                    0 <= i < hits.len() && zero().spec_lt((#[trigger] hits[i]).start_distance)
                        && zero().spec_lt(hits[i].end_distance);
                lemma_outside_keeps_query(w.trace, hits, side);
                lemma_brush_step(g, order, w, hits);
                let trace = w.trace.absorb(clip_sides(hits, hits.len() as int));
                assert(trace == w.trace);
                lemma_next_candidate(g, leaf as int, at + 1);
                if next_candidate(g, leaf as int, at + 1) is None {
                    lemma_settle(g, order, trace, w.pending);
                }
            },
            Phase::End => {
                let point = choose|point: Vec3|
                    call_ensures(
                        k.end,
                        (w.trace.start, w.trace.end, w.trace.output_fraction),
                        point,
                    ) && next == #[trigger] after_end(w, point);
                lemma_end_step(g, order, w, point);
            },
        }
    }
}

} // verus!

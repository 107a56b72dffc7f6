//! The decisions of a collision query.
//!
//! A query moves a probe (a point, a sphere or an axis-aligned box) along a
//! segment and asks where solid geometry stops it. The arithmetic of a
//! query (distances to planes and the fractions derived from them) is done
//! by the caller; this module decides what follows from the numbers.

use vstd::prelude::*;
use crate::scalar::{
    lemma_named_values, lemma_neg_value, lemma_order_is_by_value, unit, Scalar, MINUS_ONE_BITS,
    ONE_BITS, TWO_BITS, ZERO_BITS,
};

verus! {

/// A point or direction in space.
#[derive(Clone, Copy, Debug)]
pub struct Vec3 {
    pub x: Scalar,
    pub y: Scalar,
    pub z: Scalar,
}

/// The shape of a probe.
#[derive(Clone, Copy, Debug, PartialEq, Eq, Structural)]
pub enum TraceType {
    Ray,
    Sphere,
    Box,
}

/// A query and its result.
///
/// `output_fraction` is the part of the segment that the probe can travel:
/// `1` if nothing stops it. `output_end` is the point it reaches.
/// `output_starts_out` is false if the segment starts inside a solid, and
/// `output_all_solid` is true if it also ends inside that solid.
#[derive(Clone, Copy, Debug)]
pub struct Trace {
    pub output_fraction: Scalar,
    pub output_end: Vec3,
    pub output_starts_out: bool,
    pub output_all_solid: bool,
    pub start: Vec3,
    pub end: Vec3,
    pub radius: Scalar,
    pub mins: Vec3,
    pub maxs: Vec3,
    pub extents: Vec3,
    pub t_type: TraceType,
}

/// A part of the segment of a query: its two ends, each as the fraction of
/// the whole segment and as a point.
#[derive(Clone, Copy, Debug)]
pub struct Segment {
    pub start_fraction: Scalar,
    pub end_fraction: Scalar,
    pub start: Vec3,
    pub end: Vec3,
}

/// How far a probe reaches to either side of a splitting plane.
#[derive(Clone, Copy, Debug)]
pub enum Reach {
    /// A point reaches nowhere: the offset is `0`.
    Point,
    /// A sphere reaches as far as its radius.
    Ball { radius: Scalar },
    /// A box reaches as far as its extents project onto the normal `n` of
    /// the plane: `|extents.x * n.x| + |extents.y * n.y| + |extents.z * n.z|`.
    Box { extents: Vec3 },
}

/// What the caller has measured of a segment against a splitting plane
/// with normal `n` and distance `d`.
///
/// `start_distance` is `n . start - d` and `end_distance` is `n . end - d`.
/// `offset` is the reach of the probe. With `e` for `1/32` and `inverse`
/// for `1 / (start_distance - end_distance)`, the fractions of a segment
/// that rises through the plane are
/// `rising_1 = (start_distance - offset + e) * inverse` and
/// `rising_2 = (start_distance + offset + e) * inverse`;
/// those of a segment that falls through it are
/// `falling_1 = (start_distance + offset + e) * inverse` and
/// `falling_2 = (start_distance - offset - e) * inverse`.
#[derive(Clone, Copy, Debug)]
pub struct NodeMeasure {
    pub start_distance: Scalar,
    pub end_distance: Scalar,
    pub offset: Scalar,
    pub rising_1: Scalar,
    pub rising_2: Scalar,
    pub falling_1: Scalar,
    pub falling_2: Scalar,
}

/// Where a segment lies relative to a splitting plane.
#[derive(Clone, Copy, Debug)]
pub enum Crossing {
    /// Wholly in front: only the first child matters.
    Front,
    /// Wholly behind: only the second child matters.
    Back,
    /// Within reach of the plane. The segment is cut at two fractions of
    /// its length, each between `0` and `1`, and `side` is the child on
    /// the side of the end with the smaller distance.
    Split { side: usize, fraction_1: Scalar, fraction_2: Scalar },
}

/// The two points at which a segment is cut, each as the fraction of the
/// whole segment and as a point: for a cut at `f` of a segment from
/// fraction `s` to fraction `t`, `s + (t - s) * f` and
/// `start + f * (end - start)`.
#[derive(Clone, Copy, Debug)]
pub struct SplitPoints {
    pub fraction_1: Scalar,
    pub point_1: Vec3,
    pub fraction_2: Scalar,
    pub point_2: Vec3,
}

/// How the probe meets one side of a brush.
#[derive(Clone, Copy, Debug)]
pub enum SideShape {
    /// A point at `p` has the distance `n . p - d`.
    Point,
    /// A sphere at `p` has the distance `n . p - (d + radius)`.
    Ball { radius: Scalar },
    /// A box at `p` has the distance `n . (p + corner) - d`.
    Corner { corner: Vec3 },
}

/// One side of a brush to measure the probe against: a plane with normal
/// `n` and distance `d`, and how the probe meets it.
#[derive(Clone, Copy, Debug)]
pub struct SideProbe {
    pub normal: Vec3,
    pub distance: Scalar,
    pub shape: SideShape,
}

/// What the caller has measured of the whole segment against one side of
/// a brush: the distances of its start and end, and with `e` for `1/32`,
/// `enter = (start_distance - e) / (start_distance - end_distance)` and
/// `exit = (start_distance + e) / (start_distance - end_distance)`.
#[derive(Clone, Copy, Debug)]
pub struct SideHit {
    pub start_distance: Scalar,
    pub end_distance: Scalar,
    pub enter: Scalar,
    pub exit: Scalar,
}

/// What the sides of a brush seen so far leave of the segment.
#[derive(Clone, Copy, Debug)]
pub struct Clip {
    /// The latest fraction at which the segment enters a side, `-1` if none.
    pub start_fraction: Scalar,
    /// The earliest fraction at which it leaves a side, `1` if none.
    pub end_fraction: Scalar,
    /// Whether the start lies outside some side.
    pub starts_out: bool,
    /// Whether the end lies outside some side.
    pub ends_out: bool,
    /// Whether some side has the whole segment outside.
    pub missed: bool,
}

/// What the caller has to compute next.
#[derive(Clone, Debug)]
pub enum Action {
    /// Nothing: no query is under way, or the query is complete.
    Done,
    /// Measure `segment` against the plane: answer with a `NodeMeasure`.
    Node { normal: Vec3, distance: Scalar, segment: Segment, reach: Reach },
    /// Cut `segment` at the two fractions: answer with `SplitPoints`.
    Split { segment: Segment, fraction_1: Scalar, fraction_2: Scalar },
    /// Measure the segment from `start` to `end` against each side of a
    /// brush: answer with one `SideHit` for each side, in order.
    Brush { start: Vec3, end: Vec3, sides: Vec<SideProbe> },
    /// Compute the point at `fraction` of the segment,
    /// `start + fraction * (end - start)`: answer with that point.
    End { start: Vec3, end: Vec3, fraction: Scalar },
}

/// The number `0`.
pub open spec fn zero() -> Scalar {
    Scalar { bits: ZERO_BITS }
}

/// The number `1`.
pub open spec fn one() -> Scalar {
    Scalar { bits: ONE_BITS }
}

/// The number `-1`.
pub open spec fn minus_one() -> Scalar {
    Scalar { bits: MINUS_ONE_BITS }
}

/// The origin.
pub open spec fn origin() -> Vec3 {
    Vec3 { x: zero(), y: zero(), z: zero() }
}

impl Vec3 {
    pub fn new(x: Scalar, y: Scalar, z: Scalar) -> (v: Vec3)
        ensures
            v == (Vec3 { x, y, z }),
    {
        Vec3 { x, y, z }
    }

    /// Whether every component is zero.
    pub open spec fn spec_is_zero(self) -> bool {
        self.x.spec_same(zero()) && self.y.spec_same(zero()) && self.z.spec_same(zero())
    }

    #[verifier::when_used_as_spec(spec_is_zero)]
    pub fn is_zero(self) -> (r: bool)
        ensures
            r == self.spec_is_zero(),
    {
        self.x.same(Scalar::zero()) && self.y.same(Scalar::zero()) && self.z.same(Scalar::zero())
    }
}

/// A query that has not been asked: a ray from the origin to the origin
/// with nothing in its way.
pub open spec fn fresh_trace() -> Trace {
    Trace {
        output_fraction: one(),
        output_end: origin(),
        output_starts_out: true,
        output_all_solid: false,
        start: origin(),
        end: origin(),
        radius: one(),
        mins: origin(),
        maxs: Vec3 {
            x: Scalar { bits: TWO_BITS },
            y: Scalar { bits: TWO_BITS },
            z: Scalar { bits: TWO_BITS },
        },
        extents: Vec3 { x: one(), y: one(), z: one() },
        t_type: TraceType::Ray,
    }
}

/// The query for a point that moves from `start` to `end`.
pub open spec fn ray_query(start: Vec3, end: Vec3) -> Trace {
    Trace { start, end, ..fresh_trace() }
}

/// The query for a sphere of the given radius.
pub open spec fn sphere_query(start: Vec3, end: Vec3, radius: Scalar) -> Trace {
    Trace { start, end, radius, t_type: TraceType::Sphere, ..fresh_trace() }
}

/// The larger of the absolute values of two numbers.
pub open spec fn extent_of(min: Scalar, max: Scalar) -> Scalar {
    min.spec_abs().spec_max(max.spec_abs())
}

/// The query for a box with the corners `mins` and `maxs` relative to its
/// position. A box without size is a point. Else the box reaches, along
/// each axis, as far as the farther of its two corners.
pub open spec fn box_query(start: Vec3, end: Vec3, mins: Vec3, maxs: Vec3) -> Trace {
    if mins.spec_is_zero() && maxs.spec_is_zero() {
        ray_query(start, end)
    } else {
        Trace {
            start,
            end,
            mins,
            maxs,
            extents: Vec3 {
                x: extent_of(mins.x, maxs.x),
                y: extent_of(mins.y, maxs.y),
                z: extent_of(mins.z, maxs.z),
            },
            t_type: TraceType::Box,
            ..fresh_trace()
        }
    }
}

impl Trace {
    /// A query that has not been asked.
    pub fn new() -> (t: Trace)
        ensures
            t == fresh_trace(),
    {
        Trace {
            output_fraction: Scalar::one(),
            output_end: Vec3::new(Scalar::zero(), Scalar::zero(), Scalar::zero()),
            output_starts_out: true,
            output_all_solid: false,
            start: Vec3::new(Scalar::zero(), Scalar::zero(), Scalar::zero()),
            end: Vec3::new(Scalar::zero(), Scalar::zero(), Scalar::zero()),
            radius: Scalar::one(),
            mins: Vec3::new(Scalar::zero(), Scalar::zero(), Scalar::zero()),
            maxs: Vec3::new(Scalar::two(), Scalar::two(), Scalar::two()),
            extents: Vec3::new(Scalar::one(), Scalar::one(), Scalar::one()),
            t_type: TraceType::Ray,
        }
    }

    /// The query for a point.
    pub fn ray(start: Vec3, end: Vec3) -> (t: Trace)
        ensures
            t == ray_query(start, end),
    {
        let mut t = Trace::new();
        t.start = start;
        t.end = end;
        t
    }

    /// The query for a sphere.
    pub fn sphere(start: Vec3, end: Vec3, radius: Scalar) -> (t: Trace)
        ensures
            t == sphere_query(start, end, radius),
    {
        let mut t = Trace::new();
        t.start = start;
        t.end = end;
        t.radius = radius;
        t.t_type = TraceType::Sphere;
        t
    }

    /// The query for a box.
    pub fn boxed(start: Vec3, end: Vec3, mins: Vec3, maxs: Vec3) -> (t: Trace)
        ensures
            t == box_query(start, end, mins, maxs),
    {
        if mins.is_zero() && maxs.is_zero() {
            Trace::ray(start, end)
        } else {
            let mut t = Trace::new();
            t.start = start;
            t.end = end;
            t.mins = mins;
            t.maxs = maxs;
            t.extents = Vec3::new(
                mins.x.abs().max(maxs.x.abs()),
                mins.y.abs().max(maxs.y.abs()),
                mins.z.abs().max(maxs.z.abs()),
            );
            t.t_type = TraceType::Box;
            t
        }
    }

    /// The whole segment of the query.
    pub open spec fn whole(self) -> Segment {
        Segment { start_fraction: zero(), end_fraction: one(), start: self.start, end: self.end }
    }

    /// How far the probe reaches to either side of a splitting plane.
    pub open spec fn spec_reach(&self) -> Reach {
        match self.t_type {
            TraceType::Ray => Reach::Point,
            TraceType::Sphere => Reach::Ball { radius: self.radius },
            TraceType::Box => Reach::Box { extents: self.extents },
        }
    }

    #[verifier::when_used_as_spec(spec_reach)]
    pub fn reach(&self) -> (r: Reach)
        ensures
            r == self.spec_reach(),
    {
        match self.t_type {
            TraceType::Ray => Reach::Point,
            TraceType::Sphere => Reach::Ball { radius: self.radius },
            TraceType::Box => Reach::Box { extents: self.extents },
        }
    }

    /// How the probe meets a side with the given normal. Of a box the
    /// corner counts that lies deepest behind the plane: along each axis
    /// `maxs` where the normal points down that axis, else `mins`.
    pub open spec fn spec_side_shape(&self, normal: Vec3) -> SideShape {
        match self.t_type {
            TraceType::Ray => SideShape::Point,
            TraceType::Sphere => SideShape::Ball { radius: self.radius },
            TraceType::Box => SideShape::Corner {
                corner: Vec3 {
                    x: if normal.x.spec_lt(zero()) {
                        self.maxs.x
                    } else {
                        self.mins.x
                    },
                    y: if normal.y.spec_lt(zero()) {
                        self.maxs.y
                    } else {
                        self.mins.y
                    },
                    z: if normal.z.spec_lt(zero()) {
                        self.maxs.z
                    } else {
                        self.mins.z
                    },
                },
            },
        }
    }

    #[verifier::when_used_as_spec(spec_side_shape)]
    pub fn side_shape(&self, normal: Vec3) -> (r: SideShape)
        ensures
            r == self.spec_side_shape(normal),
    {
        match self.t_type {
            TraceType::Ray => SideShape::Point,
            TraceType::Sphere => SideShape::Ball { radius: self.radius },
            TraceType::Box => {
                let x = if normal.x.lt(Scalar::zero()) {
                    self.maxs.x
                } else {
                    self.mins.x
                };
                let y = if normal.y.lt(Scalar::zero()) {
                    self.maxs.y
                } else {
                    self.mins.y
                };
                let z = if normal.z.lt(Scalar::zero()) {
                    self.maxs.z
                } else {
                    self.mins.z
                };
                SideShape::Corner { corner: Vec3 { x, y, z } }
            },
        }
    }

    /// The query after a brush has been tested.
    ///
    /// A brush that the segment misses changes nothing. A brush that holds
    /// the start of the segment marks the query as starting inside a
    /// solid, and as all solid if it holds the end too. Else the brush
    /// stops the probe where the segment enters it, if it enters before it
    /// leaves and earlier than anything found so far.
    pub open spec fn absorb(self, clip: Clip) -> Trace {
        if clip.missed {
            self
        } else if !clip.starts_out {
            Trace {
                output_starts_out: false,
                output_all_solid: self.output_all_solid || !clip.ends_out,
                ..self
            }
        } else if clip.start_fraction.spec_lt(clip.end_fraction) && minus_one().spec_lt(
            clip.start_fraction,
        ) && clip.start_fraction.spec_lt(self.output_fraction) {
            Trace { output_fraction: clip.start_fraction.spec_max(zero()), ..self }
        } else {
            self
        }
    }

    /// Takes the result of one brush into the query.
    pub fn check_brush(&mut self, hits: &Vec<SideHit>)
        ensures
            *final(self) == old(self).absorb(clip_sides(hits@, hits@.len() as int)),
    {
        let clip = clip_brush(hits);
        if clip.missed {
            return ;
        }
        if !clip.starts_out {
            self.output_starts_out = false;
            if !clip.ends_out {
                self.output_all_solid = true;
            }
            return ;
        }
        if clip.start_fraction.lt(clip.end_fraction) && Scalar::minus_one().lt(clip.start_fraction)
            && clip.start_fraction.lt(self.output_fraction) {
            self.output_fraction = clip.start_fraction.max(Scalar::zero());
        }
    }
}

/// Where a measured segment lies relative to the plane.
///
/// It is in front if both ends are at least `offset` in front, behind if
/// both are more than `offset` behind. Else it is cut: a rising segment
/// (the start nearer than the end) goes to the second child with the
/// rising fractions, a falling one to the first child with the falling
/// fractions, and a level one to the first child with the fractions `1`
/// and `0`. The fractions are clamped to the range from `0` to `1`.
pub open spec fn crossing_of(m: NodeMeasure) -> Crossing {
    if m.offset.spec_le(m.start_distance) && m.offset.spec_le(m.end_distance) {
        Crossing::Front
    } else if m.start_distance.spec_lt(m.offset.spec_neg()) && m.end_distance.spec_lt(
        m.offset.spec_neg(),
    ) {
        Crossing::Back
    } else if m.start_distance.spec_lt(m.end_distance) {
        Crossing::Split {
            side: 1,
            fraction_1: m.rising_1.spec_clamp_unit(),
            fraction_2: m.rising_2.spec_clamp_unit(),
        }
    } else if m.end_distance.spec_lt(m.start_distance) {
        Crossing::Split {
            side: 0,
            fraction_1: m.falling_1.spec_clamp_unit(),
            fraction_2: m.falling_2.spec_clamp_unit(),
        }
    } else {
        Crossing::Split { side: 0, fraction_1: one(), fraction_2: zero() }
    }
}

/// Decides where a measured segment lies relative to the plane.
pub fn classify(m: &NodeMeasure) -> (c: Crossing)
    ensures
        c == crossing_of(*m),
{
    if m.start_distance.ge(m.offset) && m.end_distance.ge(m.offset) {
        Crossing::Front
    } else if m.start_distance.lt(m.offset.neg()) && m.end_distance.lt(m.offset.neg()) {
        Crossing::Back
    } else if m.start_distance.lt(m.end_distance) {
        Crossing::Split {
            side: 1,
            fraction_1: m.rising_1.clamp_unit(),
            fraction_2: m.rising_2.clamp_unit(),
        }
    } else if m.end_distance.lt(m.start_distance) {
        Crossing::Split {
            side: 0,
            fraction_1: m.falling_1.clamp_unit(),
            fraction_2: m.falling_2.clamp_unit(),
        }
    } else {
        Crossing::Split { side: 0, fraction_1: Scalar::one(), fraction_2: Scalar::zero() }
    }
}

/// The whole segment before any side has been seen.
pub open spec fn clip_start() -> Clip {
    Clip {
        start_fraction: minus_one(),
        end_fraction: one(),
        starts_out: false,
        ends_out: false,
        missed: false,
    }
}

/// What one more side leaves of the segment.
///
/// A side with both ends in front of it has the segment miss the brush.
/// A side with both ends on or behind it changes nothing. Else the
/// segment crosses the side: where the start is farther out than the end
/// it enters there, and the latest entry counts; else it leaves there,
/// and the earliest exit counts.
pub open spec fn clip_side(c: Clip, h: SideHit) -> Clip {
    if c.missed {
        c
    } else {
        let starts_out = c.starts_out || zero().spec_lt(h.start_distance);
        let ends_out = c.ends_out || zero().spec_lt(h.end_distance);
        if zero().spec_lt(h.start_distance) && zero().spec_lt(h.end_distance) {
            Clip { starts_out, ends_out, missed: true, ..c }
        } else if h.start_distance.spec_le(zero()) && h.end_distance.spec_le(zero()) {
            Clip { starts_out, ends_out, ..c }
        } else if h.end_distance.spec_lt(h.start_distance) {
            Clip {
                starts_out,
                ends_out,
                start_fraction: if c.start_fraction.spec_lt(h.enter) {
                    h.enter
                } else {
                    c.start_fraction
                },
                ..c
            }
        } else {
            Clip {
                starts_out,
                ends_out,
                end_fraction: if h.exit.spec_lt(c.end_fraction) {
                    h.exit
                } else {
                    c.end_fraction
                },
                ..c
            }
        }
    }
}

/// What the first `n` sides leave of the segment.
pub open spec fn clip_sides(hits: Seq<SideHit>, n: int) -> Clip
    decreases n,
{
    if n <= 0 {
        clip_start()
    } else {
        clip_side(clip_sides(hits, n - 1), hits[n - 1])
    }
}

/// What the sides of a brush leave of the segment.
pub fn clip_brush(hits: &Vec<SideHit>) -> (c: Clip)
    ensures
        c == clip_sides(hits@, hits@.len() as int),
{
    let mut c = Clip {
        start_fraction: Scalar::minus_one(),
        end_fraction: Scalar::one(),
        starts_out: false,
        ends_out: false,
        missed: false,
    };
    let mut i: usize = 0;
    while i < hits.len()
        invariant
            i <= hits@.len(),
            c == clip_sides(hits@, i as int),
        decreases hits@.len() - i,
    {
        let h: SideHit = hits[i];
        if !c.missed {
            if h.start_distance.gt(Scalar::zero()) {
                c.starts_out = true;
            }
            if h.end_distance.gt(Scalar::zero()) {
                c.ends_out = true;
            }
            if h.start_distance.gt(Scalar::zero()) && h.end_distance.gt(Scalar::zero()) {
                c.missed = true;
            } else if h.start_distance.le(Scalar::zero()) && h.end_distance.le(Scalar::zero()) {
            } else if h.start_distance.gt(h.end_distance) {
                if h.enter.gt(c.start_fraction) {
                    c.start_fraction = h.enter;
                }
            } else {
                if h.exit.lt(c.end_fraction) {
                    c.end_fraction = h.exit;
                }
            }
        }
        i = i + 1;
    }
    c
}

/// Whether a number lies between `0` and `1`.
pub open spec fn is_fraction(s: Scalar) -> bool {
    !s.is_nan() && 0 <= s.key() <= ONE_BITS
}

/// A brush never lets the probe travel farther: the fraction of a query
/// stays between `0` and `1` and does not grow, and what a brush has
/// marked stays marked.
pub proof fn lemma_absorb_shrinks(t: Trace, clip: Clip)
    requires
        is_fraction(t.output_fraction),
    ensures
        is_fraction(t.absorb(clip).output_fraction),
        t.absorb(clip).output_fraction.key() <= t.output_fraction.key(),
        !t.output_starts_out ==> !t.absorb(clip).output_starts_out,
        t.output_all_solid ==> t.absorb(clip).output_all_solid,
        t.absorb(clip).start == t.start,
        t.absorb(clip).end == t.end,
        t.absorb(clip).t_type == t.t_type,
{
}

/// While no side has its start farther out than its end, the segment
/// enters nowhere.
pub proof fn lemma_no_entry(hits: Seq<SideHit>, n: int)
    requires
        0 <= n <= hits.len(),
        forall|i: int|
            0 <= i < n ==> !(#[trigger] hits[i]).end_distance.spec_lt(hits[i].start_distance),
    ensures
        clip_sides(hits, n).start_fraction == minus_one(),
    decreases n,
{
    if n > 0 {
        lemma_no_entry(hits, n - 1);
    }
}

/// A probe that does not move is stopped nowhere: where every side has
/// the same distance at the start and at the end of the segment, the
/// brush leaves the fraction of the query as it is.
pub proof fn lemma_still_probe_keeps_fraction(t: Trace, hits: Seq<SideHit>)
    requires
        forall|i: int|
            0 <= i < hits.len() ==> (#[trigger] hits[i]).start_distance == hits[i].end_distance,
    ensures
        t.absorb(clip_sides(hits, hits.len() as int)).output_fraction == t.output_fraction,
{
    lemma_no_entry(hits, hits.len() as int);
}

/// While every side has both ends of the segment on or behind it, neither
/// end is outside and the brush is not missed.
pub proof fn lemma_inside(hits: Seq<SideHit>, n: int)
    requires
        0 <= n <= hits.len(),
        forall|i: int|
            0 <= i < n ==> (#[trigger] hits[i]).start_distance.spec_le(zero())
                && hits[i].end_distance.spec_le(zero()),
    ensures
        !clip_sides(hits, n).missed,
        !clip_sides(hits, n).starts_out,
        !clip_sides(hits, n).ends_out,
    decreases n,
{
    if n > 0 {
        lemma_inside(hits, n - 1);
    }
}

/// A segment that lies inside a brush, on or behind every one of its
/// sides, is all solid and does not start outside.
pub proof fn lemma_inside_is_all_solid(t: Trace, hits: Seq<SideHit>)
    requires
        forall|i: int|
            0 <= i < hits.len() ==> (#[trigger] hits[i]).start_distance.spec_le(zero())
                && hits[i].end_distance.spec_le(zero()),
    ensures
        t.absorb(clip_sides(hits, hits.len() as int)).output_all_solid,
        !t.absorb(clip_sides(hits, hits.len() as int)).output_starts_out,
        t.absorb(clip_sides(hits, hits.len() as int)).output_fraction == t.output_fraction,
{
    lemma_inside(hits, hits.len() as int);
}

/// A side that has the whole segment in front of it makes the brush miss,
/// whatever the other sides are.
pub proof fn lemma_outside_misses(hits: Seq<SideHit>, n: int, k: int)
    requires
        0 <= k < n <= hits.len(),
        zero().spec_lt(hits[k].start_distance),
        zero().spec_lt(hits[k].end_distance),
    ensures
        clip_sides(hits, n).missed,
    decreases n,
{
    if k < n - 1 {
        lemma_outside_misses(hits, n - 1, k);
    }
}

/// A brush with a side that has the whole segment in front of it leaves
/// the query as it is.
pub proof fn lemma_outside_keeps_query(t: Trace, hits: Seq<SideHit>, k: int)
    requires
        0 <= k < hits.len(),
        zero().spec_lt(hits[k].start_distance),
        zero().spec_lt(hits[k].end_distance),
    ensures
        t.absorb(clip_sides(hits, hits.len() as int)) == t,
{
    lemma_outside_misses(hits, hits.len() as int, k);
}

/// The arithmetic of a query: the four computations that a query asks of
/// its caller.
pub struct Kernel<N, S, B, E> {
    /// Measures a segment against a splitting plane, given the normal and
    /// the distance of the plane, the segment and the reach of the probe.
    pub node: N,
    /// Cuts a segment at two fractions of its length.
    pub split: S,
    /// Measures the segment between two points against one side of a brush.
    pub side: B,
    /// Computes the point at a fraction of the segment between two points.
    pub end: E,
}

impl<
    N: Fn(Vec3, Scalar, Segment, Reach) -> NodeMeasure,
    S: Fn(Segment, Scalar, Scalar) -> SplitPoints,
    B: Fn(SideProbe, Vec3, Vec3) -> SideHit,
    E: Fn(Vec3, Vec3, Scalar) -> Vec3,
> Kernel<N, S, B, E> {
    /// Whether each computation accepts every input.
    pub open spec fn total(&self) -> bool {
        &&& forall|normal: Vec3, distance: Scalar, segment: Segment, reach: Reach|
            call_requires(self.node, (normal, distance, segment, reach))
        &&& forall|segment: Segment, f1: Scalar, f2: Scalar|
            call_requires(self.split, (segment, f1, f2))
        &&& forall|probe: SideProbe, start: Vec3, end: Vec3|
            call_requires(self.side, (probe, start, end))
        &&& forall|start: Vec3, end: Vec3, fraction: Scalar|
            call_requires(self.end, (start, end, fraction))
    }
}

/// A fraction stands for a number from `0` to `1`.
pub proof fn lemma_fraction_value(s: Scalar)
    ensures
        is_fraction(s) <==> !s.is_nan() && 0 <= s.value() <= unit(),
{
    lemma_named_values();
    if !s.is_nan() {
        lemma_order_is_by_value(zero(), s);
        lemma_order_is_by_value(s, one());
    }
}

/// The extent of a box along an axis is the larger of the sizes of its
/// two corners along that axis.
pub proof fn lemma_extent_value(min: Scalar, max: Scalar)
    requires
        !min.is_nan(),
        !max.is_nan(),
    ensures
        !extent_of(min, max).is_nan(),
        extent_of(min, max).value() == (if min.size() >= max.size() {
            min.size()
        } else {
            max.size()
        }),
{
    lemma_neg_value(min);
    lemma_neg_value(max);
    lemma_order_is_by_value(min.spec_abs(), max.spec_abs());
}

/// The fractions at which a segment is cut lie between `0` and `1`, if
/// what was measured are numbers.
pub proof fn lemma_cut_fractions(m: NodeMeasure)
    requires
        !m.rising_1.is_nan(),
        !m.rising_2.is_nan(),
        !m.falling_1.is_nan(),
        !m.falling_2.is_nan(),
    ensures
        crossing_of(m) matches Crossing::Split { side, fraction_1, fraction_2 } ==> side < 2
            && is_fraction(fraction_1) && is_fraction(fraction_2),
{
}

/// A probe that reaches farther is within reach of every plane that a
/// probe that reaches less far is within reach of: where a measured
/// segment is cut, it is cut as well with a larger offset.
pub proof fn lemma_wider_reach(m: NodeMeasure, wider: NodeMeasure)
    requires
        wider.start_distance == m.start_distance,
        wider.end_distance == m.end_distance,
        !m.offset.is_nan(),
        !wider.offset.is_nan(),
        m.offset.spec_le(wider.offset),
        crossing_of(m) is Split,
    ensures
        crossing_of(wider) is Split,
{
    lemma_order_is_by_value(m.offset, wider.offset);
    lemma_neg_value(m.offset);
    lemma_neg_value(wider.offset);
    if !m.start_distance.is_nan() {
        lemma_order_is_by_value(m.offset, m.start_distance);
        lemma_order_is_by_value(wider.offset, m.start_distance);
        lemma_order_is_by_value(m.start_distance, m.offset.spec_neg());
        lemma_order_is_by_value(m.start_distance, wider.offset.spec_neg());
    }
    if !m.end_distance.is_nan() {
        lemma_order_is_by_value(m.offset, m.end_distance);
        lemma_order_is_by_value(wider.offset, m.end_distance);
        lemma_order_is_by_value(m.end_distance, m.offset.spec_neg());
        lemma_order_is_by_value(m.end_distance, wider.offset.spec_neg());
    }
}

} // verus!

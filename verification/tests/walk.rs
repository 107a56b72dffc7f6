use ibsp::bsp::Bsp;
use ibsp::geometry::{Brush, BrushSide, Geometry, Leaf, LeafBrush, Node, Plane, Texture};
use ibsp::scalar::Scalar;
use ibsp::trace::{
    Kernel, NodeMeasure, Reach, Segment, SideHit, SideProbe, SideShape, SplitPoints, Vec3,
};

const EPSILON: f32 = 0.03125;

fn s(x: f32) -> Scalar {
    Scalar::from_bits(x.to_bits())
}

fn f(x: Scalar) -> f32 {
    f32::from_bits(x.bits)
}

fn v(p: [f32; 3]) -> Vec3 {
    Vec3::new(s(p[0]), s(p[1]), s(p[2]))
}

fn a(p: Vec3) -> [f32; 3] {
    [f(p.x), f(p.y), f(p.z)]
}

fn dot(p: [f32; 3], n: [f32; 3]) -> f32 {
    p[0] * n[0] + p[1] * n[1] + p[2] * n[2]
}

fn lerp(start: [f32; 3], end: [f32; 3], t: f32) -> [f32; 3] {
    [
        start[0] + t * (end[0] - start[0]),
        start[1] + t * (end[1] - start[1]),
        start[2] + t * (end[2] - start[2]),
    ]
}

fn measure_node(normal: Vec3, distance: Scalar, segment: Segment, reach: Reach) -> NodeMeasure {
    let n = a(normal);
    let d = f(distance);
    let start_distance = dot(a(segment.start), n) - d;
    let end_distance = dot(a(segment.end), n) - d;
    let offset = match reach {
        Reach::Point => 0.0,
        Reach::Ball { radius } => f(radius),
        Reach::Box { extents } => {
            let e = a(extents);
            (e[0] * n[0]).abs() + (e[1] * n[1]).abs() + (e[2] * n[2]).abs()
        }
    };
    let inverse = 1.0 / (start_distance - end_distance);
    NodeMeasure {
        start_distance: s(start_distance),
        end_distance: s(end_distance),
        offset: s(offset),
        rising_1: s((start_distance - offset + EPSILON) * inverse),
        rising_2: s((start_distance + offset + EPSILON) * inverse),
        falling_1: s((start_distance + offset + EPSILON) * inverse),
        falling_2: s((start_distance - offset - EPSILON) * inverse),
    }
}

fn cut(segment: Segment, fraction_1: Scalar, fraction_2: Scalar) -> SplitPoints {
    let sf = f(segment.start_fraction);
    let ef = f(segment.end_fraction);
    SplitPoints {
        fraction_1: s(sf + (ef - sf) * f(fraction_1)),
        point_1: v(lerp(a(segment.start), a(segment.end), f(fraction_1))),
        fraction_2: s(sf + (ef - sf) * f(fraction_2)),
        point_2: v(lerp(a(segment.start), a(segment.end), f(fraction_2))),
    }
}

fn measure_side(probe: SideProbe, start: Vec3, end: Vec3) -> SideHit {
    let n = a(probe.normal);
    let d = f(probe.distance);
    let p = a(start);
    let q = a(end);
    let (start_distance, end_distance) = match probe.shape {
        SideShape::Point => (dot(p, n) - d, dot(q, n) - d),
        SideShape::Ball { radius } => (dot(p, n) - (d + f(radius)), dot(q, n) - (d + f(radius))),
        SideShape::Corner { corner } => {
            let c = a(corner);
            (
                (p[0] + c[0]) * n[0] + (p[1] + c[1]) * n[1] + (p[2] + c[2]) * n[2] - d,
                (q[0] + c[0]) * n[0] + (q[1] + c[1]) * n[1] + (q[2] + c[2]) * n[2] - d,
            )
        }
    };
    SideHit {
        start_distance: s(start_distance),
        end_distance: s(end_distance),
        enter: s((start_distance - EPSILON) / (start_distance - end_distance)),
        exit: s((start_distance + EPSILON) / (start_distance - end_distance)),
    }
}

fn reach_point(start: Vec3, end: Vec3, fraction: Scalar) -> Vec3 {
    v(lerp(a(start), a(end), f(fraction)))
}

fn no_curve(_level: u32, _k: u32, start: Scalar, _mid: Scalar, _end: Scalar) -> Scalar {
    start
}

/// A level as plain numbers, and a query walked through it by plain
/// recursion.
struct Scene {
    planes: Vec<([f32; 3], f32)>,
    nodes: Vec<(usize, [i32; 2])>,
    leafs: Vec<(usize, usize)>,
    leaf_brushes: Vec<usize>,
    brushes: Vec<(usize, usize, usize)>,
    brush_sides: Vec<usize>,
    contents: Vec<i32>,
}

#[derive(Clone, Copy, PartialEq)]
enum Kind {
    Ray,
    Sphere,
    Box,
}

struct Query {
    kind: Kind,
    start: [f32; 3],
    end: [f32; 3],
    radius: f32,
    mins: [f32; 3],
    maxs: [f32; 3],
    extents: [f32; 3],
    fraction: f32,
    starts_out: bool,
    all_solid: bool,
    visits: usize,
}

impl Scene {
    fn check_node(
        &self,
        q: &mut Query,
        index: i32,
        sf: f32,
        ef: f32,
        start: [f32; 3],
        end: [f32; 3],
    ) {
        q.visits += 1;
        if index < 0 {
            let (first, count) = self.leafs[(-(index + 1)) as usize];
            for i in 0..count {
                let brush = self.brushes[self.leaf_brushes[first + i]];
                if brush.1 > 0 && (self.contents[brush.2] & 1) == 1 {
                    self.check_brush(q, brush);
                }
            }
            return;
        }
        let (plane, children) = self.nodes[index as usize];
        let (n, d) = self.planes[plane];
        let sd = dot(start, n) - d;
        let ed = dot(end, n) - d;
        let offset = match q.kind {
            Kind::Ray => 0.0,
            Kind::Sphere => q.radius,
            Kind::Box => {
                (q.extents[0] * n[0]).abs()
                    + (q.extents[1] * n[1]).abs()
                    + (q.extents[2] * n[2]).abs()
            }
        };
        if sd >= offset && ed >= offset {
            self.check_node(q, children[0], sf, ef, start, end);
        } else if sd < -offset && ed < -offset {
            self.check_node(q, children[1], sf, ef, start, end);
        } else {
            let side;
            let mut f1;
            let mut f2;
            if sd < ed {
                side = 1;
                let inverse = 1.0 / (sd - ed);
                f1 = (sd - offset + EPSILON) * inverse;
                f2 = (sd + offset + EPSILON) * inverse;
            } else if ed < sd {
                side = 0;
                let inverse = 1.0 / (sd - ed);
                f1 = (sd + offset + EPSILON) * inverse;
                f2 = (sd - offset - EPSILON) * inverse;
            } else {
                side = 0;
                f1 = 1.0;
                f2 = 0.0;
            }
            if f1 < 0.0 {
                f1 = 0.0;
            } else if f1 > 1.0 {
                f1 = 1.0;
            }
            if f2 < 0.0 {
                f2 = 0.0;
            } else if f2 > 1.0 {
                f2 = 1.0;
            }
            let mf = sf + (ef - sf) * f1;
            let middle = lerp(start, end, f1);
            self.check_node(q, children[side], sf, mf, start, middle);
            let mf = sf + (ef - sf) * f2;
            let middle = lerp(start, end, f2);
            self.check_node(q, children[side], mf, ef, middle, end);
        }
    }

    fn check_brush(&self, q: &mut Query, brush: (usize, usize, usize)) {
        let mut start_fraction = -1.0f32;
        let mut end_fraction = 1.0f32;
        let mut starts_out = false;
        let mut ends_out = false;
        for i in 0..brush.1 {
            let (n, d) = self.planes[self.brush_sides[brush.0 + i]];
            let (sd, ed) = match q.kind {
                Kind::Ray => (dot(q.start, n) - d, dot(q.end, n) - d),
                Kind::Sphere => (dot(q.start, n) - (d + q.radius), dot(q.end, n) - (d + q.radius)),
                Kind::Box => {
                    let mut c = [0.0f32; 3];
                    for j in 0..3 {
                        c[j] = if n[j] < 0.0 { q.maxs[j] } else { q.mins[j] };
                    }
                    (
                        (q.start[0] + c[0]) * n[0]
                            + (q.start[1] + c[1]) * n[1]
                            + (q.start[2] + c[2]) * n[2]
                            - d,
                        (q.end[0] + c[0]) * n[0]
                            + (q.end[1] + c[1]) * n[1]
                            + (q.end[2] + c[2]) * n[2]
                            - d,
                    )
                }
            };
            if sd > 0.0 {
                starts_out = true;
            }
            if ed > 0.0 {
                ends_out = true;
            }
            if sd > 0.0 && ed > 0.0 {
                return;
            }
            if sd <= 0.0 && ed <= 0.0 {
                continue;
            }
            if sd > ed {
                let fraction = (sd - EPSILON) / (sd - ed);
                if fraction > start_fraction {
                    start_fraction = fraction;
                }
            } else {
                let fraction = (sd + EPSILON) / (sd - ed);
                if fraction < end_fraction {
                    end_fraction = fraction;
                }
            }
        }
        if !starts_out {
            q.starts_out = false;
            if !ends_out {
                q.all_solid = true;
            }
            return;
        }
        if start_fraction < end_fraction && start_fraction > -1.0 && start_fraction < q.fraction {
            if start_fraction < 0.0 {
                start_fraction = 0.0;
            }
            q.fraction = start_fraction;
        }
    }

    fn level(&self) -> Bsp {
        let mut g = Geometry::empty();
        g.planes = self
            .planes
            .iter()
            .map(|(n, d)| Plane { normal: [s(n[0]), s(n[1]), s(n[2])], distance: s(*d) })
            .collect();
        g.nodes = self
            .nodes
            .iter()
            .map(|(p, c)| Node { plane: *p as i32, children: *c, mins: [0; 3], maxs: [0; 3] })
            .collect();
        g.leafs = self
            .leafs
            .iter()
            .map(|(first, count)| Leaf {
                cluster: 0,
                area: 0,
                mins: [0; 3],
                maxs: [0; 3],
                leaf_face: 0,
                num_leaf_faces: 0,
                leaf_brush: *first as i32,
                num_leaf_brushes: *count as i32,
            })
            .collect();
        g.leaf_brushes = self.leaf_brushes.iter().map(|b| LeafBrush { brush: *b as i32 }).collect();
        g.brushes = self
            .brushes
            .iter()
            .map(|(first, count, texture)| Brush {
                brush_side: *first as i32,
                num_brush_sides: *count as i32,
                texture: *texture as i32,
            })
            .collect();
        g.brush_sides =
            self.brush_sides.iter().map(|p| BrushSide { plane: *p as i32, texture: 0 }).collect();
        g.textures = self
            .contents
            .iter()
            .map(|c| Texture { name: [0; 64], flags: 0, contents: *c })
            .collect();
        Bsp::from_geometry(g, &no_curve).unwrap()
    }
}

struct Random(u64);

impl Random {
    fn next(&mut self) -> u32 {
        self.0 = self.0.wrapping_mul(6364136223846793005).wrapping_add(1442695040888963407);
        (self.0 >> 33) as u32
    }

    fn below(&mut self, n: usize) -> usize {
        (self.next() as usize) % n
    }

    /// A number from -8 to 8 in steps of 1/16.
    fn coordinate(&mut self) -> f32 {
        (self.below(257) as f32 - 128.0) / 16.0
    }

    fn point(&mut self) -> [f32; 3] {
        [self.coordinate(), self.coordinate(), self.coordinate()]
    }

    fn plane(&mut self) -> ([f32; 3], f32) {
        let mut n = [0.0f32; 3];
        if self.below(3) == 0 {
            // A tilted plane.
            n = [self.coordinate(), self.coordinate(), self.coordinate() + 0.03125];
            let length = (n[0] * n[0] + n[1] * n[1] + n[2] * n[2]).sqrt();
            for x in n.iter_mut() {
                *x /= length;
            }
        } else {
            n[self.below(3)] = if self.below(2) == 0 { 1.0 } else { -1.0 };
        }
        (n, self.coordinate() / 2.0)
    }

    fn scene(&mut self) -> Scene {
        let mut scene = Scene {
            planes: Vec::new(),
            nodes: Vec::new(),
            leafs: Vec::new(),
            leaf_brushes: Vec::new(),
            brushes: Vec::new(),
            brush_sides: Vec::new(),
            contents: vec![0, 1, 2, 3],
        };
        for _ in 0..1 + self.below(6) {
            let first = scene.brush_sides.len();
            let count = self.below(7);
            for _ in 0..count {
                scene.brush_sides.push(scene.planes.len());
                let p = self.plane();
                scene.planes.push(p);
            }
            let texture = self.below(4);
            scene.brushes.push((first, count, texture));
        }
        for _ in 0..1 + self.below(5) {
            let first = scene.leaf_brushes.len();
            let count = self.below(4);
            for _ in 0..count {
                let b = self.below(scene.brushes.len());
                scene.leaf_brushes.push(b);
            }
            scene.leafs.push((first, count));
        }
        // Every child of a node is a leaf or a node behind it.
        let count = 1 + self.below(7);
        for i in 0..count {
            let plane = scene.planes.len();
            let p = self.plane();
            scene.planes.push(p);
            let mut children = [0i32; 2];
            for c in children.iter_mut() {
                *c = if i + 1 < count && self.below(2) == 0 {
                    (i + 1 + self.below(count - i - 1)) as i32
                } else {
                    -(self.below(scene.leafs.len()) as i32 + 1)
                };
            }
            scene.nodes.push((plane, children));
        }
        scene
    }
}

fn compare(scene: &Scene, bsp: &mut Bsp, q: &mut Query) {
    match q.kind {
        Kind::Ray => bsp.trace_ray(v(q.start), v(q.end)),
        Kind::Sphere => bsp.trace_sphere(v(q.start), v(q.end), s(q.radius)),
        Kind::Box => bsp.trace_box(v(q.start), v(q.end), v(q.mins), v(q.maxs)),
    }
    let kernel = Kernel { node: measure_node, split: cut, side: measure_side, end: reach_point };
    bsp.trace(&kernel);
    let t = bsp.result();

    if q.kind == Kind::Box {
        if q.mins == [0.0; 3] && q.maxs == [0.0; 3] {
            q.kind = Kind::Ray;
        } else {
            for i in 0..3 {
                q.extents[i] = q.mins[i].abs().max(q.maxs[i].abs());
            }
        }
    }
    scene.check_node(q, 0, 0.0, 1.0, q.start, q.end);
    let end = if q.fraction == 1.0 { q.end } else { lerp(q.start, q.end, q.fraction) };

    assert_eq!(t.output_fraction.bits, q.fraction.to_bits());
    assert_eq!(t.output_starts_out, q.starts_out);
    assert_eq!(t.output_all_solid, q.all_solid);
    assert_eq!(a(t.output_end).map(f32::to_bits), end.map(f32::to_bits));
    assert!((0.0..=1.0).contains(&q.fraction));
}

#[test]
fn a_query_takes_the_course_of_the_recursion_through_the_tree() {
    let mut random = Random(2024);
    let mut stopped = 0;
    let mut solid = 0;
    let mut visits = 0;
    for _ in 0..400 {
        let scene = random.scene();
        let mut bsp = scene.level();
        for _ in 0..40 {
            let kind = match random.below(3) {
                0 => Kind::Ray,
                1 => Kind::Sphere,
                _ => Kind::Box,
            };
            let start = random.point();
            let end = if random.below(8) == 0 { start } else { random.point() };
            let mut mins = [0.0f32; 3];
            let mut maxs = [0.0f32; 3];
            if random.below(6) != 0 {
                for i in 0..3 {
                    mins[i] = -(random.below(32) as f32) / 16.0;
                    maxs[i] = random.below(32) as f32 / 16.0;
                }
            }
            let mut q = Query {
                kind,
                start,
                end,
                radius: random.below(32) as f32 / 16.0,
                mins,
                maxs,
                extents: [1.0; 3],
                fraction: 1.0,
                starts_out: true,
                all_solid: false,
                visits: 0,
            };
            compare(&scene, &mut bsp, &mut q);
            if q.fraction < 1.0 {
                stopped += 1;
            }
            if q.all_solid {
                solid += 1;
            }
            visits += q.visits;
        }
    }
    // The levels are not all empty space.
    assert!(stopped > 500, "{}", stopped);
    assert!(solid > 50, "{}", solid);
    assert!(visits > 16000 * 3, "{}", visits);
}

#[test]
fn a_still_probe_is_stopped_nowhere() {
    let mut random = Random(7);
    for _ in 0..200 {
        let scene = random.scene();
        let mut bsp = scene.level();
        for _ in 0..20 {
            let p = random.point();
            bsp.trace_ray(v(p), v(p));
            let kernel =
                Kernel { node: measure_node, split: cut, side: measure_side, end: reach_point };
            bsp.trace(&kernel);
            let t = bsp.result();
            assert_eq!(f(t.output_fraction), 1.0);
            assert_eq!(a(t.output_end), p);
        }
    }
}

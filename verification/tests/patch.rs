use ibsp::bsp::Bsp;
use ibsp::geometry::{Face, Geometry, Node, Plane, Texture, Vertex};
use ibsp::patch::{gen_bezier_mesh, patch_vertexes, surface, tessellate};
use ibsp::scalar::Scalar;

fn s(x: f32) -> Scalar {
    Scalar::from_bits(x.to_bits())
}

fn f(x: Scalar) -> f32 {
    f32::from_bits(x.bits)
}

/// Sample `k` of the curve with `level` steps through three values.
fn bezier(level: u32, k: u32, start: Scalar, mid: Scalar, end: Scalar) -> Scalar {
    let delta = 1.0 / level as f32;
    let mut t = delta;
    for _ in 1..k {
        t += delta;
    }
    let a = 1.0 - t;
    s((a * a) * f(start) + (2.0 * a) * (t * f(mid)) + (t * t) * f(end))
}

fn vertex(x: f32, y: f32, z: f32) -> Vertex {
    Vertex {
        position: [s(x), s(y), s(z)],
        texcoord_s: [s(x / 4.0), s(y / 4.0)],
        texcoord_l: [s(x / 8.0), s(y / 8.0)],
        normal: [s(0.0), s(0.0), s(1.0)],
        colour: [(x * 100.0) as u8, (y * 100.0) as u8, 255, 77],
    }
}

/// A control grid over the square from 0 to 2, raised in the middle.
fn control() -> [Vertex; 9] {
    let mut out = [vertex(0.0, 0.0, 0.0); 9];
    for row in 0..3 {
        for col in 0..3 {
            let z = if row == 1 && col == 1 { 4.0 } else { 0.0 };
            out[row * 3 + col] = vertex(col as f32, row as f32, z);
        }
    }
    out[0].normal = [s(1.0), s(2.0), s(3.0)];
    out
}

#[test]
fn a_curve_starts_and_ends_at_its_outer_values() {
    let out = tessellate(5, s(1.0), s(100.0), s(-3.0), &bezier);
    assert_eq!(out.len(), 6);
    assert_eq!(out[0].bits, 1.0f32.to_bits());
    assert_eq!(out[5].bits, (-3.0f32).to_bits());
    for k in 1..5 {
        assert_eq!(out[k].bits, bezier(5, k as u32, s(1.0), s(100.0), s(-3.0)).bits);
    }
    // The ends are exact whatever the values are.
    let out = tessellate(3, s(f32::NAN), s(f32::INFINITY), s(-0.0), &bezier);
    assert_eq!(out[0].bits, f32::NAN.to_bits());
    assert_eq!(out[3].bits, (-0.0f32).to_bits());
    // A curve of one step has only its ends.
    let out = tessellate(1, s(2.0), s(9.0), s(4.0), &bezier);
    assert_eq!(out.iter().map(|x| f(*x)).collect::<Vec<f32>>(), vec![2.0, 4.0]);
}

#[test]
fn a_curve_through_the_middle_of_its_ends_is_a_line() {
    let out = tessellate(4, s(0.0), s(1.0), s(2.0), &bezier);
    let values: Vec<f32> = out.iter().map(|x| f(*x)).collect();
    assert_eq!(values, vec![0.0, 0.5, 1.0, 1.5, 2.0]);
}

#[test]
fn a_surface_is_a_curve_of_curves() {
    let a = [
        s(0.0), s(0.0), s(0.0), //
        s(0.0), s(4.0), s(0.0), //
        s(0.0), s(0.0), s(0.0),
    ];
    let rows = surface(2, &a, &bezier);
    assert_eq!(rows.len(), 3);
    let values: Vec<Vec<f32>> = rows.iter().map(|r| r.iter().map(|x| f(*x)).collect()).collect();
    assert_eq!(values[0], vec![0.0, 0.0, 0.0]);
    // The middle column reaches 2 half way, the middle row half of that.
    assert_eq!(values[1], vec![0.0, 1.0, 0.0]);
    assert_eq!(values[2], vec![0.0, 0.0, 0.0]);
}

#[test]
fn a_grid_has_a_vertex_for_each_sample() {
    for level in 1..=8u32 {
        let (verts, inds) = gen_bezier_mesh(&control(), level, &bezier);
        assert_eq!(verts.len() as u32, (level + 1) * (level + 1));
        assert_eq!(inds.len() as u32, 3 * 2 * level * level);
        assert!(inds.iter().all(|&i| (i as usize) < verts.len()));
    }
}

#[test]
fn the_corners_of_a_grid_are_the_corner_control_vertices() {
    let c = control();
    for level in 1..=6usize {
        let verts = patch_vertexes(&c, level as u32, &bezier);
        let w = level + 1;
        for (at, k) in [(0, 0), (level, 2), (level * w, 6), (level * w + level, 8)] {
            for i in 0..3 {
                assert_eq!(verts[at].position[i].bits, c[k].position[i].bits);
            }
            for i in 0..2 {
                assert_eq!(verts[at].texcoord_s[i].bits, c[k].texcoord_s[i].bits);
                assert_eq!(verts[at].texcoord_l[i].bits, c[k].texcoord_l[i].bits);
            }
            assert_eq!(verts[at].colour[..3], c[k].colour[..3]);
        }
    }
}

#[test]
fn every_vertex_of_a_grid_has_the_normal_and_alpha_of_the_first_control_vertex() {
    let c = control();
    let verts = patch_vertexes(&c, 5, &bezier);
    assert_eq!(verts.len(), 36);
    for v in &verts {
        assert_eq!(v.normal.map(f), [1.0, 2.0, 3.0]);
        assert_eq!(v.colour[3], 77);
    }
}

#[test]
fn the_vertices_of_a_grid_sample_the_surface() {
    let c = control();
    let verts = patch_vertexes(&c, 2, &bezier);
    // The middle of the surface lies a quarter of the way up to the
    // middle control vertex.
    assert_eq!(verts[4].position.map(f), [1.0, 1.0, 1.0]);
    assert_eq!(verts[4].texcoord_s.map(f), [0.25, 0.25]);
    assert_eq!(verts[4].texcoord_l.map(f), [0.125, 0.125]);
    assert_eq!(verts[4].colour, [100, 100, 255, 77]);
    assert_eq!(verts[1].position.map(f), [1.0, 0.0, 0.0]);
    assert_eq!(verts[3].position.map(f), [0.0, 1.0, 0.0]);
    assert_eq!(verts[7].position.map(f), [1.0, 2.0, 0.0]);
    // Each column of the surface is drawn towards its own middle value.
    let mut c = control();
    c[5].colour = [0, 0, 0, 0];
    c[2].colour = [200, 0, 0, 0];
    c[8].colour = [200, 0, 0, 0];
    let verts = patch_vertexes(&c, 2, &bezier);
    assert_eq!(verts[5].colour[0], 100);
}

#[test]
fn colours_are_kept_within_their_range() {
    let wild = |_: u32, k: u32, _: Scalar, _: Scalar, _: Scalar| -> Scalar {
        match k {
            1 => s(-20.0),
            2 => s(300.5),
            3 => s(f32::NAN),
            _ => s(17.99),
        }
    };
    let mut c = control();
    for v in c.iter_mut() {
        v.colour = [9, 9, 9, 9];
    }
    let verts = patch_vertexes(&c, 5, &wild);
    // The first row is the curve through the first samples of the columns,
    // which are control values: its ends are kept, its inner samples cut.
    let row: Vec<u8> = verts[..6].iter().map(|v| v.colour[0]).collect();
    assert_eq!(row, vec![9, 0, 255, 0, 17, 9]);
}

#[test]
fn whole_numbers_become_patterns_and_back() {
    for v in 0..=255u8 {
        assert_eq!(Scalar::from_u8(v).bits, (v as f32).to_bits(), "{}", v);
        assert_eq!(Scalar::from_u8(v).to_u8(), v);
    }
}

#[test]
fn numbers_are_cut_down_as_the_hardware_does() {
    let mut samples: Vec<f32> = vec![
        0.0, -0.0, 0.5, 0.99999994, 1.0, 1.5, 1.9999999, 2.0, 127.5, 128.0, 200.25, 254.0,
        254.99998, 255.0, 255.5, 256.0, 1.0e9, -1.0, -0.5, -300.0, 1.0e-40, f32::MIN_POSITIVE,
        f32::MAX, f32::MIN, f32::INFINITY, f32::NEG_INFINITY, f32::NAN, -f32::NAN,
    ];
    let mut x: u32 = 12345;
    for _ in 0..20000 {
        x = x.wrapping_mul(1664525).wrapping_add(1013904223);
        samples.push(f32::from_bits(x));
        samples.push((x % 70000) as f32 / 256.0);
    }
    for v in samples {
        assert_eq!(s(v).to_u8(), v.max(0.0).min(255.0) as u8, "{}", v);
    }
}

#[test]
fn a_level_holds_the_grids_of_its_patches() {
    let mut g = Geometry::empty();
    g.planes = vec![Plane { normal: [s(0.0); 3], distance: s(0.0) }];
    g.nodes = vec![Node { plane: 0, children: [-1, -1], mins: [0; 3], maxs: [0; 3] }];
    g.leafs = vec![ibsp::geometry::Leaf {
        cluster: 0,
        area: 0,
        mins: [0; 3],
        maxs: [0; 3],
        leaf_face: 0,
        num_leaf_faces: 0,
        leaf_brush: 0,
        num_leaf_brushes: 0,
    }];
    g.textures = vec![Texture { name: [0; 64], flags: 0, contents: 0 }];
    // A control grid five wide and three high: two patches side by side.
    for row in 0..3 {
        for col in 0..5 {
            g.vertexes.push(vertex(col as f32, row as f32, (row * col) as f32));
        }
    }
    g.faces = vec![Face {
        texture: 0,
        effect: -1,
        type_draw: 2,
        vertex: 0,
        num_vertexes: 15,
        mesh_vert: 0,
        num_mesh_verts: 0,
        lightmap_index: -1,
        lightmap_start: [0; 2],
        lightmap_size: [0; 2],
        lightmap_origin: [s(0.0); 3],
        lightmap_vecs: [[s(0.0); 3]; 2],
        normal: [s(0.0); 3],
        size: [5, 3],
    }];
    let file_vertexes = g.vertexes.clone();
    let bsp = Bsp::from_geometry(g, &bezier).unwrap();
    assert_eq!(bsp.vertexes().len(), 15 + 2 * 36);
    for q in 0..2 {
        let patch = bsp.patches()[q];
        assert_eq!(patch.first_vertex as usize, 15 + 36 * q);
        let mut control = [file_vertexes[0]; 9];
        for k in 0..9 {
            control[k] = file_vertexes[patch.control[k] as usize];
        }
        let grid = patch_vertexes(&control, 5, &bezier);
        for p in 0..36 {
            let v = &bsp.vertexes()[15 + 36 * q + p];
            assert_eq!(v.position.map(|x| x.bits), grid[p].position.map(|x| x.bits));
            assert_eq!(v.colour, grid[p].colour);
        }
    }
    // The patches meet along the middle column of the control grid.
    let left = &bsp.vertexes()[15..15 + 36];
    let right = &bsp.vertexes()[15 + 36..];
    for row in 0..6 {
        assert_eq!(left[row * 6 + 5].position.map(f), right[row * 6].position.map(f));
    }
}

#[test]
fn one_patch_of_a_level_can_be_drawn_alone() {
    let mut g = Geometry::empty();
    for row in 0..3 {
        for col in 0..3 {
            g.vertexes.push(vertex(col as f32, row as f32, 0.0));
        }
    }
    let patch =
        ibsp::mesh::Patch { face: 0, control: [0, 1, 2, 3, 4, 5, 6, 7, 8], first_vertex: 9 };
    let (verts, inds) = ibsp::patch::gen_bez_mesh(&g, &patch, &bezier);
    assert_eq!(verts.len(), 36);
    assert_eq!(inds, ibsp::grid::tessellation_indices(5));
    assert_eq!(verts[35].position.map(f), [2.0, 2.0, 0.0]);
    assert_eq!(verts[0].position.map(f), [0.0, 0.0, 0.0]);
}

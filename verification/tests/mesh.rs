use ibsp::bsp::Bsp;
use ibsp::geometry::{Face, Geometry, LightMap, MeshVert, Node, Plane, Texture, Vertex};
use ibsp::buffer::flatten;
use ibsp::grid::{tessellation_indices, BEZIER_LEVEL};
use ibsp::mesh::{build_buckets, check_faces, check_vertex_total, lightmap_bucket_of};
use ibsp::scalar::Scalar;

fn zero() -> Scalar {
    Scalar::from_bits(0)
}

fn no_curve(_level: u32, _k: u32, start: Scalar, _mid: Scalar, _end: Scalar) -> Scalar {
    start
}

fn vertex(tag: u8) -> Vertex {
    Vertex {
        position: [zero(); 3],
        texcoord_s: [zero(); 2],
        texcoord_l: [zero(); 2],
        normal: [zero(); 3],
        colour: [tag, 0, 0, 0],
    }
}

fn face(type_draw: i32, texture: i32, lightmap_index: i32) -> Face {
    Face {
        texture,
        effect: -1,
        type_draw,
        vertex: 0,
        num_vertexes: 0,
        mesh_vert: 0,
        num_mesh_verts: 0,
        lightmap_index,
        lightmap_start: [0; 2],
        lightmap_size: [0; 2],
        lightmap_origin: [zero(); 3],
        lightmap_vecs: [[zero(); 3]; 2],
        normal: [zero(); 3],
        size: [0; 2],
    }
}

fn flat(type_draw: i32, texture: i32, lightmap: i32, vertex: i32, first: i32, count: i32) -> Face {
    let mut f = face(type_draw, texture, lightmap);
    f.vertex = vertex;
    f.mesh_vert = first;
    f.num_mesh_verts = count;
    f
}

fn patch(texture: i32, lightmap: i32, vertex: i32, width: i32, height: i32) -> Face {
    let mut f = face(2, texture, lightmap);
    f.vertex = vertex;
    f.num_vertexes = width * height;
    f.size = [width, height];
    f
}

/// A level with three textures, two light maps, forty vertices and the
/// mesh vertex offsets 0 to 5.
fn level(faces: Vec<Face>) -> Geometry {
    let mut g = Geometry::empty();
    g.planes = vec![Plane { normal: [zero(); 3], distance: zero() }];
    g.nodes = vec![Node { plane: 0, children: [-1, -1], mins: [0; 3], maxs: [0; 3] }];
    g.leafs = vec![ibsp::geometry::Leaf {
        cluster: 0,
        area: 0,
        mins: [0; 3],
        maxs: [0; 3],
        leaf_face: 0,
        num_leaf_faces: 0,
        leaf_brush: 0,
        num_leaf_brushes: 0,
    }];
    g.textures = vec![Texture { name: [0; 64], flags: 0, contents: 0 }; 3];
    g.light_maps = vec![LightMap { map: [0; 49152] }; 2];
    g.vertexes = (0..40).map(|i| vertex(i as u8)).collect();
    g.mesh_verts = (0..6).map(|i| MeshVert { offset: i }).collect();
    g.faces = faces;
    g
}

#[test]
fn the_triangles_of_a_patch_cover_its_grid() {
    assert_eq!(tessellation_indices(1), vec![0, 2, 1, 1, 2, 3]);
    assert_eq!(
        tessellation_indices(2),
        vec![
            0, 3, 1, 1, 3, 4, 1, 4, 2, 2, 4, 5, //
            3, 6, 4, 4, 6, 7, 4, 7, 5, 5, 7, 8,
        ]
    );
    assert_eq!(tessellation_indices(0), Vec::<u32>::new());
}

#[test]
fn a_patch_has_two_triangles_for_each_cell() {
    for level in 1..=12u32 {
        let inds = tessellation_indices(level);
        assert_eq!(inds.len() as u32, 3 * 2 * level * level);
        let vertices = (level + 1) * (level + 1);
        assert!(inds.iter().all(|&i| i < vertices));
        // Every vertex of the grid is used.
        for v in 0..vertices {
            assert!(inds.contains(&v), "vertex {} of level {}", v, level);
        }
        // No triangle wraps from the end of a row to the start of the next.
        let width = level + 1;
        for t in inds.chunks(3) {
            let cols: Vec<u32> = t.iter().map(|i| i % width).collect();
            let rows: Vec<u32> = t.iter().map(|i| i / width).collect();
            assert!(cols.iter().max().unwrap() - cols.iter().min().unwrap() == 1);
            assert!(rows.iter().max().unwrap() - rows.iter().min().unwrap() == 1);
        }
    }
    assert_eq!(BEZIER_LEVEL, 5);
    assert_eq!(tessellation_indices(BEZIER_LEVEL).len(), 150);
}

#[test]
fn the_triangles_of_a_patch_follow_the_winding_of_each_place() {
    let inds = tessellation_indices(5);
    // The first place of a row starts one triangle.
    assert_eq!(&inds[0..3], &[0, 6, 1]);
    // A place between closes one triangle and starts one.
    assert_eq!(&inds[3..9], &[1, 6, 7, 1, 7, 2]);
    // The last place of a row closes one triangle.
    assert_eq!(&inds[27..30], &[5, 10, 11]);
    // The next row starts behind it.
    assert_eq!(&inds[30..33], &[6, 12, 7]);
    assert_eq!(&inds[147..150], &[29, 34, 35]);
}

#[test]
fn a_face_without_a_light_map_goes_to_the_row_behind_the_last() {
    let g = level(vec![]);
    assert_eq!(lightmap_bucket_of(&g, &face(1, 0, 0)), 0);
    assert_eq!(lightmap_bucket_of(&g, &face(1, 0, 1)), 1);
    assert_eq!(lightmap_bucket_of(&g, &face(1, 0, 2)), 2);
    assert_eq!(lightmap_bucket_of(&g, &face(1, 0, -1)), 2);
    assert_eq!(lightmap_bucket_of(&g, &face(1, 0, i32::MAX)), 2);
    assert_eq!(lightmap_bucket_of(&g, &face(1, 0, i32::MIN)), 2);
}

#[test]
fn flat_faces_add_their_first_vertex_to_each_offset() {
    let g = level(vec![
        flat(1, 2, 0, 10, 0, 3),
        flat(3, 2, 0, 20, 2, 4),
        flat(1, 0, 1, 5, 1, 2),
        flat(4, 2, 0, 30, 0, 3),
        flat(1, 1, 7, 0, 3, 1),
    ]);
    assert!(check_faces(&g));
    assert!(check_vertex_total(&g));
    let (buckets, patches) = build_buckets(&g);
    assert!(patches.is_empty());
    assert_eq!(buckets.len(), 3);
    assert!(buckets.iter().all(|row| row.len() == 3));
    assert_eq!(buckets[0][2], vec![10, 11, 12, 22, 23, 24, 25]);
    assert_eq!(buckets[1][0], vec![6, 7]);
    assert_eq!(buckets[2][1], vec![3]);
    let total: usize = buckets.iter().flatten().map(|b| b.len()).sum();
    assert_eq!(total, 10);
}

#[test]
fn patches_add_the_triangles_of_their_grids() {
    // A 5 by 3 control grid has two patches, a 3 by 5 grid two as well,
    // and a 4 by 3 grid one.
    let g = level(vec![
        patch(1, 0, 2, 5, 3),
        flat(1, 1, 0, 0, 0, 3),
        patch(1, 0, 20, 3, 5),
        patch(0, -1, 0, 4, 3),
        patch(2, 1, 0, 2, 3),
    ]);
    assert!(check_faces(&g));
    let (buckets, patches) = build_buckets(&g);
    assert_eq!(patches.len(), 5);
    let grid = tessellation_indices(5);

    // The vertices of the grids follow the forty of the file.
    let firsts: Vec<u32> = patches.iter().map(|p| p.first_vertex).collect();
    assert_eq!(firsts, vec![40, 76, 112, 148, 184]);
    let faces: Vec<usize> = patches.iter().map(|p| p.face).collect();
    assert_eq!(faces, vec![0, 0, 2, 2, 3]);

    // Neighbouring patches share a column or a row of control vertices.
    assert_eq!(patches[0].control, [2, 3, 4, 7, 8, 9, 12, 13, 14]);
    assert_eq!(patches[1].control, [4, 5, 6, 9, 10, 11, 14, 15, 16]);
    assert_eq!(patches[2].control, [20, 21, 22, 23, 24, 25, 26, 27, 28]);
    assert_eq!(patches[3].control, [26, 27, 28, 29, 30, 31, 32, 33, 34]);
    assert_eq!(patches[4].control, [0, 1, 2, 4, 5, 6, 8, 9, 10]);

    let shifted = |by: u32| -> Vec<u32> { grid.iter().map(|i| i + by).collect() };
    let mut expected = shifted(40);
    expected.extend(shifted(76));
    expected.extend(vec![0, 1, 2]);
    expected.extend(shifted(112));
    expected.extend(shifted(148));
    assert_eq!(buckets[0][1], expected);
    assert_eq!(buckets[2][0], shifted(184));
    assert!(buckets[1][2].is_empty());
}

#[test]
fn the_ranges_of_the_index_buffer_match_the_faces_of_each_bucket() {
    let faces = vec![
        flat(1, 0, 0, 0, 0, 3),
        patch(2, 1, 0, 3, 3),
        flat(3, 0, 0, 3, 0, 6),
        flat(1, 2, 5, 1, 2, 4),
        patch(2, 1, 9, 7, 3),
        flat(4, 1, 1, 0, 0, 6),
        flat(1, 1, 1, 0, 0, 0),
    ];
    let g = level(faces.clone());
    let (buckets, _) = build_buckets(&g);
    let (indices, ranges) = flatten(&buckets);
    assert_eq!(ranges.len(), 9);

    let mut offset = 0;
    for (n, range) in ranges.iter().enumerate() {
        assert_eq!(range.lightmap, n / 3);
        assert_eq!(range.texture, n % 3);
        assert_eq!(range.offset, offset);
        // Three indices for each triangle of each face routed to the bucket.
        let mut count = 0;
        for f in &faces {
            let row = if f.lightmap_index >= 0 && f.lightmap_index < 2 {
                f.lightmap_index as usize
            } else {
                2
            };
            if row == range.lightmap && f.texture as usize == range.texture {
                if f.type_draw == 1 || f.type_draw == 3 {
                    count += f.num_mesh_verts.max(0) as usize;
                } else if f.type_draw == 2 {
                    let patches = ((f.size[0] - 1) / 2) * ((f.size[1] - 1) / 2);
                    count += patches as usize * 3 * 2 * 5 * 5;
                }
            }
        }
        assert_eq!(range.count, count, "bucket {}", n);
        assert_eq!(
            &indices[range.offset..range.offset + range.count],
            &buckets[range.lightmap][range.texture][..]
        );
        offset += range.count;
    }
    assert_eq!(indices.len(), offset);
    assert_eq!(ranges[0].count, 9);
    assert_eq!(ranges[5].count, 150 + 3 * 150);
    assert_eq!(ranges[8].count, 4);
}

#[test]
fn every_index_of_a_level_names_a_vertex() {
    let g = level(vec![
        flat(1, 0, 0, 34, 0, 6),
        patch(2, 1, 0, 5, 5),
        patch(1, 0, 10, 3, 9),
    ]);
    let bsp = Bsp::from_geometry(g, &no_curve).unwrap();
    assert_eq!(bsp.patches().len(), 4 + 4);
    assert_eq!(bsp.vertexes().len(), 40 + 8 * 36);
    let (indices, ranges) = bsp.index_buffer();
    assert_eq!(indices.len(), 6 + 8 * 150);
    assert!(indices.iter().all(|&i| (i as usize) < bsp.vertexes().len()));
    assert_eq!(ranges.len(), 9);
    assert_eq!(bsp.indices_per_texture()[0][0].len(), 6);
    // The vertices of the file stand first.
    for i in 0..40 {
        assert_eq!(bsp.vertexes()[i].colour[0], i as u8);
    }
}

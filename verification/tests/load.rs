use ibsp::bsp::Bsp;
use ibsp::geometry::{
    Brush, BrushSide, Face, Geometry, Leaf, LeafBrush, MeshVert, Node, Plane, Texture, Vertex,
};
use ibsp::scalar::Scalar;
use ibsp::store::{check_geometry, LoadError};

fn no_curve(_level: u32, _k: u32, start: Scalar, _mid: Scalar, _end: Scalar) -> Scalar {
    start
}

fn zero() -> Scalar {
    Scalar::from_bits(0)
}

fn vertex() -> Vertex {
    Vertex {
        position: [zero(); 3],
        texcoord_s: [zero(); 2],
        texcoord_l: [zero(); 2],
        normal: [zero(); 3],
        colour: [0; 4],
    }
}

fn face(type_draw: i32) -> Face {
    Face {
        texture: 0,
        effect: -1,
        type_draw,
        vertex: 0,
        num_vertexes: 0,
        mesh_vert: 0,
        num_mesh_verts: 0,
        lightmap_index: -1,
        lightmap_start: [0; 2],
        lightmap_size: [0; 2],
        lightmap_origin: [zero(); 3],
        lightmap_vecs: [[zero(); 3]; 2],
        normal: [zero(); 3],
        size: [0; 2],
    }
}

fn small() -> Geometry {
    let mut g = Geometry::empty();
    g.planes = vec![Plane { normal: [zero(); 3], distance: zero() }];
    g.textures = vec![Texture { name: [0; 64], flags: 0, contents: 1 }];
    g.brush_sides = vec![BrushSide { plane: 0, texture: 0 }];
    g.brushes = vec![Brush { brush_side: 0, num_brush_sides: 1, texture: 0 }];
    g.leaf_brushes = vec![LeafBrush { brush: 0 }];
    g.leafs = vec![Leaf {
        cluster: 0,
        area: 0,
        mins: [0; 3],
        maxs: [0; 3],
        leaf_face: 0,
        num_leaf_faces: 0,
        leaf_brush: 0,
        num_leaf_brushes: 1,
    }];
    g.nodes = vec![Node { plane: 0, children: [-1, -1], mins: [0; 3], maxs: [0; 3] }];
    g.vertexes = vec![vertex(); 9];
    g.mesh_verts = vec![MeshVert { offset: 0 }, MeshVert { offset: 1 }, MeshVert { offset: 2 }];
    g
}

fn fault(g: Geometry) -> Option<LoadError> {
    let checked = check_geometry(&g).err();
    let loaded = Bsp::from_geometry(g, &no_curve).err();
    assert_eq!(checked, loaded);
    loaded
}

#[test]
fn a_sound_level_is_taken() {
    assert_eq!(fault(small()), None);
    assert_eq!(check_geometry(&small()).unwrap(), vec![0]);
}

#[test]
fn a_level_without_nodes_is_refused() {
    let mut g = small();
    g.nodes.clear();
    assert_eq!(fault(g), Some(LoadError::NoNodes));
    assert_eq!(fault(Geometry::empty()), Some(LoadError::NoNodes));
}

#[test]
fn a_node_that_names_what_is_not_there_is_refused() {
    let mut g = small();
    g.nodes[0].plane = 1;
    assert_eq!(fault(g), Some(LoadError::BadNode));
    let mut g = small();
    g.nodes[0].plane = -1;
    assert_eq!(fault(g), Some(LoadError::BadNode));
    let mut g = small();
    g.nodes[0].children[0] = 1;
    assert_eq!(fault(g), Some(LoadError::BadNode));
    let mut g = small();
    g.nodes[0].children[1] = -2;
    assert_eq!(fault(g), Some(LoadError::BadNode));
    let mut g = small();
    g.nodes[0].children[1] = i32::MIN;
    assert_eq!(fault(g), Some(LoadError::BadNode));
}

#[test]
fn a_node_that_is_its_own_descendant_is_refused() {
    let mut g = small();
    g.nodes[0].children[1] = 0;
    assert_eq!(fault(g), Some(LoadError::Cycle));
}

#[test]
fn a_leaf_that_names_what_is_not_there_is_refused() {
    let mut g = small();
    g.leafs[0].num_leaf_brushes = 2;
    assert_eq!(fault(g), Some(LoadError::BadLeaf));
    let mut g = small();
    g.leafs[0].leaf_brush = -1;
    assert_eq!(fault(g), Some(LoadError::BadLeaf));
    // A leaf without brushes may name any place.
    let mut g = small();
    g.leafs[0].leaf_brush = 77;
    g.leafs[0].num_leaf_brushes = 0;
    assert_eq!(fault(g), None);
    let mut g = small();
    g.leafs[0].leaf_brush = i32::MAX;
    g.leafs[0].num_leaf_brushes = i32::MAX;
    assert_eq!(fault(g), Some(LoadError::BadLeaf));
}

#[test]
fn a_leaf_brush_that_names_what_is_not_there_is_refused() {
    let mut g = small();
    g.leaf_brushes[0].brush = 1;
    assert_eq!(fault(g), Some(LoadError::BadLeafBrush));
    let mut g = small();
    g.leaf_brushes[0].brush = -1;
    assert_eq!(fault(g), Some(LoadError::BadLeafBrush));
}

#[test]
fn a_brush_that_names_what_is_not_there_is_refused() {
    let mut g = small();
    g.brushes[0].texture = 1;
    assert_eq!(fault(g), Some(LoadError::BadBrush));
    let mut g = small();
    g.brushes[0].num_brush_sides = 2;
    assert_eq!(fault(g), Some(LoadError::BadBrush));
    let mut g = small();
    g.brushes[0].brush_side = -1;
    assert_eq!(fault(g), Some(LoadError::BadBrush));
    // A brush without sides may name anything.
    let mut g = small();
    g.brushes[0].texture = 55;
    g.brushes[0].brush_side = -9;
    g.brushes[0].num_brush_sides = 0;
    assert_eq!(fault(g), None);
}

#[test]
fn a_brush_side_that_names_what_is_not_there_is_refused() {
    let mut g = small();
    g.brush_sides[0].plane = 1;
    assert_eq!(fault(g), Some(LoadError::BadBrushSide));
}

#[test]
fn a_face_that_names_what_is_not_there_is_refused() {
    // A flat face with mesh vertices outside the list.
    let mut g = small();
    let mut f = face(1);
    f.mesh_vert = 1;
    f.num_mesh_verts = 3;
    g.faces = vec![f];
    assert_eq!(fault(g), Some(LoadError::BadFace));
    // A flat face whose index leaves the vertices.
    let mut g = small();
    let mut f = face(3);
    f.vertex = 7;
    f.num_mesh_verts = 3;
    g.faces = vec![f];
    assert_eq!(fault(g), Some(LoadError::BadFace));
    let mut g = small();
    let mut f = face(3);
    f.vertex = -1;
    f.num_mesh_verts = 1;
    g.faces = vec![f];
    assert_eq!(fault(g), Some(LoadError::BadFace));
    // A face that emits needs its texture.
    let mut g = small();
    let mut f = face(1);
    f.texture = 1;
    f.num_mesh_verts = 1;
    g.faces = vec![f];
    assert_eq!(fault(g), Some(LoadError::BadFace));
    // A patch whose control grid is not its run of vertices.
    let mut g = small();
    let mut f = face(2);
    f.size = [3, 3];
    f.num_vertexes = 8;
    g.faces = vec![f];
    assert_eq!(fault(g), Some(LoadError::BadFace));
    let mut g = small();
    let mut f = face(2);
    f.size = [3, 3];
    f.num_vertexes = 9;
    f.vertex = 1;
    g.faces = vec![f];
    assert_eq!(fault(g), Some(LoadError::BadFace));
}

#[test]
fn a_face_that_emits_nothing_may_name_anything() {
    let mut g = small();
    let mut billboard = face(4);
    billboard.texture = -5;
    billboard.vertex = 1000;
    billboard.num_mesh_verts = 12;
    let mut empty = face(1);
    empty.texture = 99;
    empty.mesh_vert = -3;
    let mut flat_patch = face(2);
    flat_patch.size = [2, 9];
    flat_patch.texture = 99;
    flat_patch.vertex = -1;
    let mut unknown = face(0);
    unknown.texture = 99;
    unknown.num_mesh_verts = 5;
    g.faces = vec![billboard, empty, flat_patch, unknown];
    assert_eq!(fault(g), None);
}

#[test]
fn too_many_vertices_are_refused() {
    // Each face has ten thousand patches over the same run of vertices.
    let mut g = small();
    g.vertexes = vec![vertex(); 3 * 20001];
    let mut f = face(2);
    f.size = [3, 20001];
    f.num_vertexes = 3 * 20001;
    let each: u64 = 10000 * 36;
    let room: u64 = u32::MAX as u64 - 3 * 20001;
    let fit = (room / each) as usize;
    g.faces = vec![f; fit + 1];
    assert_eq!(check_geometry(&g).err(), Some(LoadError::TooManyVertices));
    g.faces.truncate(fit);
    assert!(check_geometry(&g).is_ok());
}

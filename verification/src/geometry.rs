//! The records of a level file and the arrays that hold them.
//!
//! Every record is a fixed number of bytes in the file; the real numbers in
//! it are kept as the bit patterns they were stored with.

use vstd::prelude::*;
use crate::scalar::Scalar;

verus! {

/// Bytes of one plane record.
pub const PLANE_SIZE: usize = 16;

/// Bytes of one node record.
pub const NODE_SIZE: usize = 36;

/// Bytes of one leaf record.
pub const LEAF_SIZE: usize = 48;

/// Bytes of one leaf-face record.
pub const LEAF_FACE_SIZE: usize = 4;

/// Bytes of one leaf-brush record.
pub const LEAF_BRUSH_SIZE: usize = 4;

/// Bytes of one model record.
pub const MODEL_SIZE: usize = 40;

/// Bytes of one brush record.
pub const BRUSH_SIZE: usize = 12;

/// Bytes of one brush-side record.
pub const BRUSH_SIDE_SIZE: usize = 8;

/// Bytes of one vertex record.
pub const VERTEX_SIZE: usize = 44;

/// Bytes of one mesh-vertex record.
pub const MESH_VERT_SIZE: usize = 4;

/// Bytes of one face record.
pub const FACE_SIZE: usize = 104;

/// Bytes of one light map: 128 rows of 128 texels of 3 channels.
pub const LIGHT_MAP_SIZE: usize = 49152;

/// Bytes of one light-volume record.
pub const LIGHT_VOL_SIZE: usize = 8;

/// Bytes of one texture record.
pub const TEXTURE_SIZE: usize = 72;

/// Bytes of one effect record.
pub const EFFECT_SIZE: usize = 72;

/// Bytes of the header of the visibility data.
pub const VIS_DATA_SIZE: usize = 8;

/// Draw type of a flat polygon.
pub const POLYGON: i32 = 1;

/// Draw type of a curved patch.
pub const PATCH: i32 = 2;

/// Draw type of an indexed mesh.
pub const MESH: i32 = 3;

/// Draw type of a billboard.
pub const BILLBOARD: i32 = 4;

/// Bit of a texture's `contents` that marks its brushes as solid.
pub const CONTENTS_SOLID: i32 = 1;

/// Header of the visibility data: the number of vectors and the bytes of each.
#[derive(Clone, Copy, Debug)]
pub struct VisData {
    pub num_vecs: i32,
    pub size_vecs: i32,
}

/// One cell of the light grid.
#[derive(Clone, Copy, Debug)]
pub struct LightVol {
    pub ambient: [u8; 3],
    pub directional: [u8; 3],
    pub dir: [u8; 2],
}

/// One light map. Texel `(row, column)` has its three channels at
/// `(row * 128 + column) * 3`.
#[derive(Clone, Copy, Debug)]
pub struct LightMap {
    pub map: [u8; 49152],
}

/// A surface descriptor.
#[derive(Clone, Copy, Debug)]
pub struct Face {
    pub texture: i32,
    pub effect: i32,
    pub type_draw: i32,
    pub vertex: i32,
    pub num_vertexes: i32,
    pub mesh_vert: i32,
    pub num_mesh_verts: i32,
    pub lightmap_index: i32,
    pub lightmap_start: [i32; 2],
    pub lightmap_size: [i32; 2],
    pub lightmap_origin: [Scalar; 3],
    pub lightmap_vecs: [[Scalar; 3]; 2],
    pub normal: [Scalar; 3],
    pub size: [i32; 2],
}

/// A named effect and the brush it applies to.
#[derive(Clone, Copy, Debug)]
pub struct Effect {
    pub name: [u8; 64],
    pub brush: i32,
    pub unknown: i32,
}

/// An offset from a face's first vertex.
#[derive(Clone, Copy, Debug)]
pub struct MeshVert {
    pub offset: i32,
}

/// A vertex: position, surface and light-map texture coordinates, normal
/// and colour.
#[derive(Clone, Copy, Debug)]
pub struct Vertex {
    pub position: [Scalar; 3],
    pub texcoord_s: [Scalar; 2],
    pub texcoord_l: [Scalar; 2],
    pub normal: [Scalar; 3],
    pub colour: [u8; 4],
}

/// One bounding plane of a brush.
#[derive(Clone, Copy, Debug)]
pub struct BrushSide {
    pub plane: i32,
    pub texture: i32,
}

/// A convex solid: a run of brush sides and the texture that says whether
/// it blocks.
#[derive(Clone, Copy, Debug)]
pub struct Brush {
    pub brush_side: i32,
    pub num_brush_sides: i32,
    pub texture: i32,
}

/// A movable part of the level: its bounds and its runs of faces and brushes.
#[derive(Clone, Copy, Debug)]
pub struct Model {
    pub mins: [i32; 3],
    pub maxs: [i32; 3],
    pub face: i32,
    pub num_faces: i32,
    pub brush: i32,
    pub num_brushes: i32,
}

/// One entry of the list that leaves index brushes through.
#[derive(Clone, Copy, Debug)]
pub struct LeafBrush {
    pub brush: i32,
}

/// One entry of the list that leaves index faces through.
#[derive(Clone, Copy, Debug)]
pub struct LeafFace {
    pub face: i32,
}

/// A leaf of the partition tree: its bounds and its runs of leaf faces and
/// leaf brushes.
#[derive(Clone, Copy, Debug)]
pub struct Leaf {
    pub cluster: i32,
    pub area: i32,
    pub mins: [i32; 3],
    pub maxs: [i32; 3],
    pub leaf_face: i32,
    pub num_leaf_faces: i32,
    pub leaf_brush: i32,
    pub num_leaf_brushes: i32,
}

/// An inner node of the partition tree. A child that is not negative is the
/// index of a node; a negative child `c` stands for leaf `-(c + 1)`.
#[derive(Clone, Copy, Debug)]
pub struct Node {
    pub plane: i32,
    pub children: [i32; 2],
    pub mins: [i32; 3],
    pub maxs: [i32; 3],
}

/// A plane: the points `p` with `normal . p == distance`.
#[derive(Clone, Copy, Debug)]
pub struct Plane {
    pub normal: [Scalar; 3],
    pub distance: Scalar,
}

/// A material descriptor. Bit 0 of `contents` marks a solid.
#[derive(Clone, Copy, Debug)]
pub struct Texture {
    pub name: [u8; 64],
    pub flags: i32,
    pub contents: i32,
}

/// The arrays of one level, as decoded. Nothing is known yet of how the
/// records refer to each other.
#[derive(Clone, Debug)]
pub struct Geometry {
    pub version: u32,
    pub textures: Vec<Texture>,
    pub planes: Vec<Plane>,
    pub nodes: Vec<Node>,
    pub leafs: Vec<Leaf>,
    pub leaf_faces: Vec<LeafFace>,
    pub leaf_brushes: Vec<LeafBrush>,
    pub models: Vec<Model>,
    pub brushes: Vec<Brush>,
    pub brush_sides: Vec<BrushSide>,
    pub vertexes: Vec<Vertex>,
    pub mesh_verts: Vec<MeshVert>,
    pub effects: Vec<Effect>,
    pub faces: Vec<Face>,
    pub light_maps: Vec<LightMap>,
    pub light_vols: Vec<LightVol>,
    pub vis_data: Option<VisData>,
}

impl Geometry {
    /// Whether two levels have the same records in each of their arrays.
    pub open spec fn same_records(self, other: Geometry) -> bool {
        &&& self.version == other.version
        &&& self.textures@ == other.textures@
        &&& self.planes@ == other.planes@
        &&& self.nodes@ == other.nodes@
        &&& self.leafs@ == other.leafs@
        &&& self.leaf_faces@ == other.leaf_faces@
        &&& self.leaf_brushes@ == other.leaf_brushes@
        &&& self.models@ == other.models@
        &&& self.brushes@ == other.brushes@
        &&& self.brush_sides@ == other.brush_sides@
        &&& self.vertexes@ == other.vertexes@
        &&& self.mesh_verts@ == other.mesh_verts@
        &&& self.effects@ == other.effects@
        &&& self.faces@ == other.faces@
        &&& self.light_maps@ == other.light_maps@
        &&& self.light_vols@ == other.light_vols@
        &&& self.vis_data == other.vis_data
    }

    /// A level without any record.
    pub fn empty() -> (g: Geometry)
        ensures
            g.version == 0,
            g.textures@.len() == 0,
            g.planes@.len() == 0,
            g.nodes@.len() == 0,
            g.leafs@.len() == 0,
            g.leaf_faces@.len() == 0,
            g.leaf_brushes@.len() == 0,
            g.models@.len() == 0,
            g.brushes@.len() == 0,
            g.brush_sides@.len() == 0,
            g.vertexes@.len() == 0,
            g.mesh_verts@.len() == 0,
            g.effects@.len() == 0,
            g.faces@.len() == 0,
            g.light_maps@.len() == 0,
            g.light_vols@.len() == 0,
            g.vis_data is None,
    {
        Geometry {
            version: 0,
            textures: Vec::new(),
            planes: Vec::new(),
            nodes: Vec::new(),
            leafs: Vec::new(),
            leaf_faces: Vec::new(),
            leaf_brushes: Vec::new(),
            models: Vec::new(),
            brushes: Vec::new(),
            brush_sides: Vec::new(),
            vertexes: Vec::new(),
            mesh_verts: Vec::new(),
            effects: Vec::new(),
            faces: Vec::new(),
            light_maps: Vec::new(),
            light_vols: Vec::new(),
            vis_data: None,
        }
    }
}

} // verus!

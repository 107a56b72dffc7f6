//! Decoding of a level file.
//!
//! A level file starts with the four bytes `IBSP` and a version number.
//! Seventeen directory entries follow, each the offset and the length in
//! bytes of one lump. A lump is a run of records of one fixed size. All
//! numbers are stored least significant byte first.

use vstd::prelude::*;
use crate::geometry::{
    Brush, BrushSide, Effect, Face, Geometry, Leaf, LeafBrush, LeafFace, LightMap, LightVol,
    MeshVert, Model, Node, Plane, Texture, Vertex, VisData, BRUSH_SIDE_SIZE, BRUSH_SIZE,
    EFFECT_SIZE, FACE_SIZE, LEAF_BRUSH_SIZE, LEAF_FACE_SIZE, LEAF_SIZE, LIGHT_MAP_SIZE,
    LIGHT_VOL_SIZE, MESH_VERT_SIZE, MODEL_SIZE, NODE_SIZE, PLANE_SIZE, TEXTURE_SIZE, VERTEX_SIZE,
    VIS_DATA_SIZE,
};
use crate::scalar::Scalar;

verus! {

/// Bytes of the header: magic, version and the lump directory.
pub const HEADER_SIZE: usize = 144;

/// Number of lumps in the directory.
pub const LUMP_COUNT: usize = 17;

/// Number of the lump that holds the text that describes the entities of the level.
pub const LUMP_ENTITIES: usize = 0;

/// Number of the lump that holds the textures.
pub const LUMP_TEXTURES: usize = 1;

/// Number of the lump that holds the planes.
pub const LUMP_PLANES: usize = 2;

/// Number of the lump that holds the nodes of the partition tree.
pub const LUMP_NODES: usize = 3;

/// Number of the lump that holds the leaves of the partition tree.
pub const LUMP_LEAFS: usize = 4;

/// Number of the lump that holds the lists of faces of the leaves.
pub const LUMP_LEAF_FACES: usize = 5;

/// Number of the lump that holds the lists of brushes of the leaves.
pub const LUMP_LEAF_BRUSHES: usize = 6;

/// Number of the lump that holds the models.
pub const LUMP_MODELS: usize = 7;

/// Number of the lump that holds the brushes.
pub const LUMP_BRUSHES: usize = 8;

/// Number of the lump that holds the sides of the brushes.
pub const LUMP_BRUSH_SIDES: usize = 9;

/// Number of the lump that holds the vertices.
pub const LUMP_VERTEXES: usize = 10;

/// Number of the lump that holds the mesh vertex offsets.
pub const LUMP_MESH_VERTS: usize = 11;

/// Number of the lump that holds the effects.
pub const LUMP_EFFECTS: usize = 12;

/// Number of the lump that holds the faces.
pub const LUMP_FACES: usize = 13;

/// Number of the lump that holds the light maps.
pub const LUMP_LIGHT_MAPS: usize = 14;

/// Number of the lump that holds the light grid.
pub const LUMP_LIGHT_VOLS: usize = 15;

/// Number of the lump that holds the visibility data.
pub const LUMP_VIS_DATA: usize = 16;

/// Why a file was not decoded.
#[derive(Clone, Copy, Debug, PartialEq, Eq, Structural)]
pub enum DecodeError {
    /// The file is shorter than its header.
    TooShort,
    /// The file does not start with `IBSP`.
    BadMagic,
    /// The lump with this number does not lie inside the file.
    LumpOutOfBounds { lump: usize },
}

/// The unsigned number that the four bytes from `at` on encode.
pub open spec fn le_u32(s: Seq<u8>, at: int) -> int {
    s[at] as int + 0x100 * (s[at + 1] as int) + 0x1_0000 * (s[at + 2] as int) + 0x100_0000 * (s[at
        + 3] as int)
}

/// The signed number (two's complement) that the four bytes from `at` on
/// encode.
pub open spec fn le_i32(s: Seq<u8>, at: int) -> int {
    if le_u32(s, at) >= 0x8000_0000 {
        le_u32(s, at) - 0x1_0000_0000
    } else {
        le_u32(s, at)
    }
}

/// The real number whose pattern the four bytes from `at` on hold.
pub open spec fn scalar_at(s: Seq<u8>, at: int) -> Scalar {
    Scalar { bits: le_u32(s, at) as u32 }
}

/// Offset of a lump, as its directory entry gives it.
pub open spec fn lump_offset(s: Seq<u8>, lump: int) -> int {
    le_u32(s, 8 + 8 * lump)
}

/// Length of a lump in bytes, as its directory entry gives it.
pub open spec fn lump_length(s: Seq<u8>, lump: int) -> int {
    le_u32(s, 12 + 8 * lump)
}

/// Whether a lump lies inside the file.
pub open spec fn lump_in_bounds(s: Seq<u8>, lump: int) -> bool {
    lump_offset(s, lump) + lump_length(s, lump) <= s.len()
}

/// The first lump from `from` on that does not lie inside the file, or the
/// number of lumps if there is none.
pub open spec fn first_bad_lump(s: Seq<u8>, from: int) -> int
    decreases LUMP_COUNT - from,
{
    if from >= LUMP_COUNT {
        LUMP_COUNT as int
    } else if !lump_in_bounds(s, from) {
        from
    } else {
        first_bad_lump(s, from + 1)
    }
}

/// Whether the file starts with `IBSP`.
pub open spec fn has_magic(s: Seq<u8>) -> bool {
    s.len() >= 4 && s[0] == 0x49 && s[1] == 0x42 && s[2] == 0x53 && s[3] == 0x50
}

/// The reason for which a file is refused, if it is.
pub open spec fn decode_fault(s: Seq<u8>) -> Option<DecodeError> {
    if s.len() < HEADER_SIZE {
        Some(DecodeError::TooShort)
    } else if !has_magic(s) {
        Some(DecodeError::BadMagic)
    } else if first_bad_lump(s, 0) < LUMP_COUNT {
        Some(DecodeError::LumpOutOfBounds { lump: first_bad_lump(s, 0) as usize })
    } else {
        None
    }
}

/// A record of fixed size with its byte layout.
pub trait Record: Sized {
    /// Bytes of one record.
    spec fn size() -> int;

    /// Whether `self` is the record that the bytes of `s` from `at` on encode.
    spec fn decodes(&self, s: Seq<u8>, at: int) -> bool;

    fn width() -> (n: usize)
        ensures
            n == Self::size(),
            0 < n,
    ;

    fn read(bytes: &[u8], at: usize) -> (r: Self)
        requires
            at + Self::size() <= bytes.len(),
        ensures
            r.decodes(bytes@, at as int),
    ;

    /// Bytes encode one record only.
    proof fn lemma_unique(a: &Self, b: &Self, s: Seq<u8>, at: int)
        requires
            a.decodes(s, at),
            b.decodes(s, at),
        ensures
            *a == *b,
    ;
}

/// Whether `v` holds the records of a lump: as many as fit into its length,
/// each decoded from its place.
pub open spec fn holds_lump<T: Record>(v: Seq<T>, s: Seq<u8>, lump: int) -> bool {
    &&& v.len() == lump_length(s, lump) / T::size()
    &&& forall|i: int|
        0 <= i < v.len() ==> (#[trigger] v[i]).decodes(s, lump_offset(s, lump) + i * T::size())
}

/// Reads an unsigned number.
pub fn read_u32(bytes: &[u8], at: usize) -> (r: u32)
    requires
        at + 4 <= bytes.len(),
    ensures
        r == le_u32(bytes@, at as int),
{
    let b0: u32 = bytes[at] as u32;
    let b1: u32 = bytes[at + 1] as u32;
    let b2: u32 = bytes[at + 2] as u32;
    let b3: u32 = bytes[at + 3] as u32;
    b0 + 0x100 * b1 + 0x1_0000 * b2 + 0x100_0000 * b3
}

/// Reads a signed number.
pub fn read_i32(bytes: &[u8], at: usize) -> (r: i32)
    requires
        at + 4 <= bytes.len(),
    ensures
        r == le_i32(bytes@, at as int),
{
    let v: u32 = read_u32(bytes, at);
    if v >= 0x8000_0000 {
        let low: i64 = v as i64;
        (low - 0x1_0000_0000) as i32
    } else {
        v as i32
    }
}

/// Reads a real number.
pub fn read_scalar(bytes: &[u8], at: usize) -> (r: Scalar)
    requires
        at + 4 <= bytes.len(),
    ensures
        r == scalar_at(bytes@, at as int),
{
    Scalar { bits: read_u32(bytes, at) }
}

fn read_scalars3(bytes: &[u8], at: usize) -> (r: [Scalar; 3])
    requires
        at + 12 <= bytes.len(),
    ensures
        r[0] == scalar_at(bytes@, at as int),
        r[1] == scalar_at(bytes@, at + 4),
        r[2] == scalar_at(bytes@, at + 8),
{
    [read_scalar(bytes, at), read_scalar(bytes, at + 4), read_scalar(bytes, at + 8)]
}

fn read_scalars2(bytes: &[u8], at: usize) -> (r: [Scalar; 2])
    requires
        at + 8 <= bytes.len(),
    ensures
        r[0] == scalar_at(bytes@, at as int),
        r[1] == scalar_at(bytes@, at + 4),
{
    [read_scalar(bytes, at), read_scalar(bytes, at + 4)]
}

fn read_ints3(bytes: &[u8], at: usize) -> (r: [i32; 3])
    requires
        at + 12 <= bytes.len(),
    ensures
        r[0] == le_i32(bytes@, at as int),
        r[1] == le_i32(bytes@, at + 4),
        r[2] == le_i32(bytes@, at + 8),
{
    [read_i32(bytes, at), read_i32(bytes, at + 4), read_i32(bytes, at + 8)]
}

fn read_ints2(bytes: &[u8], at: usize) -> (r: [i32; 2])
    requires
        at + 8 <= bytes.len(),
    ensures
        r[0] == le_i32(bytes@, at as int),
        r[1] == le_i32(bytes@, at + 4),
{
    [read_i32(bytes, at), read_i32(bytes, at + 4)]
}

fn read_name(bytes: &[u8], at: usize) -> (r: [u8; 64])
    requires
        at + 64 <= bytes.len(),
    ensures
        r@ == bytes@.subrange(at as int, at + 64),
{
    let mut name = [0u8; 64];
    let mut j: usize = 0;
    while j < 64
        invariant
            j <= 64,
            at + 64 <= bytes.len(),
            forall|k: int| 0 <= k < j ==> name@[k] == bytes@[at + k],
        decreases 64 - j,
    {
        name[j] = bytes[at + j];
        j += 1;
    }
    name
}

fn read_texels(bytes: &[u8], at: usize) -> (r: [u8; 49152])
    requires
        at + 49152 <= bytes.len(),
    ensures
        r@ == bytes@.subrange(at as int, at + 49152),
{
    let mut map = [0u8; 49152];
    let mut j: usize = 0;
    while j < 49152
        invariant
            j <= 49152,
            at + 49152 <= bytes.len(),
            forall|k: int| 0 <= k < j ==> map@[k] == bytes@[at + k],
        decreases 49152 - j,
    {
        map[j] = bytes[at + j];
        j += 1;
    }
    map
}

impl Record for Texture {
    open spec fn size() -> int {
        TEXTURE_SIZE as int
    }

    open spec fn decodes(&self, s: Seq<u8>, at: int) -> bool {
        &&& self.name@ == s.subrange(at, at + 64)
        &&& self.flags == le_i32(s, at + 64)
        &&& self.contents == le_i32(s, at + 68)
    }

    fn width() -> (n: usize) {
        TEXTURE_SIZE
    }

    fn read(bytes: &[u8], at: usize) -> (r: Self) {
        Texture {
            name: read_name(bytes, at),
            flags: read_i32(bytes, at + 64),
            contents: read_i32(bytes, at + 68),
        }
    }

    proof fn lemma_unique(a: &Self, b: &Self, s: Seq<u8>, at: int) {
        assert(a.name =~= b.name);
    }
}

impl Record for Effect {
    open spec fn size() -> int {
        EFFECT_SIZE as int
    }

    open spec fn decodes(&self, s: Seq<u8>, at: int) -> bool {
        &&& self.name@ == s.subrange(at, at + 64)
        &&& self.brush == le_i32(s, at + 64)
        &&& self.unknown == le_i32(s, at + 68)
    }

    fn width() -> (n: usize) {
        EFFECT_SIZE
    }

    fn read(bytes: &[u8], at: usize) -> (r: Self) {
        Effect {
            name: read_name(bytes, at),
            brush: read_i32(bytes, at + 64),
            unknown: read_i32(bytes, at + 68),
        }
    }

    proof fn lemma_unique(a: &Self, b: &Self, s: Seq<u8>, at: int) {
        assert(a.name =~= b.name);
    }
}

impl Record for Plane {
    open spec fn size() -> int {
        PLANE_SIZE as int
    }

    open spec fn decodes(&self, s: Seq<u8>, at: int) -> bool {
        &&& self.normal[0] == scalar_at(s, at)
        &&& self.normal[1] == scalar_at(s, at + 4)
        &&& self.normal[2] == scalar_at(s, at + 8)
        &&& self.distance == scalar_at(s, at + 12)
    }

    fn width() -> (n: usize) {
        PLANE_SIZE
    }

    fn read(bytes: &[u8], at: usize) -> (r: Self) {
        Plane { normal: read_scalars3(bytes, at), distance: read_scalar(bytes, at + 12) }
    }

    proof fn lemma_unique(a: &Self, b: &Self, s: Seq<u8>, at: int) {
        assert(a.normal =~= b.normal);
    }
}

impl Record for Node {
    open spec fn size() -> int {
        NODE_SIZE as int
    }

    open spec fn decodes(&self, s: Seq<u8>, at: int) -> bool {
        &&& self.plane == le_i32(s, at)
        &&& self.children[0] == le_i32(s, at + 4)
        &&& self.children[1] == le_i32(s, at + 8)
        &&& self.mins[0] == le_i32(s, at + 12)
        &&& self.mins[1] == le_i32(s, at + 16)
        &&& self.mins[2] == le_i32(s, at + 20)
        &&& self.maxs[0] == le_i32(s, at + 24)
        &&& self.maxs[1] == le_i32(s, at + 28)
        &&& self.maxs[2] == le_i32(s, at + 32)
    }

    fn width() -> (n: usize) {
        NODE_SIZE
    }

    fn read(bytes: &[u8], at: usize) -> (r: Self) {
        Node {
            plane: read_i32(bytes, at),
            children: read_ints2(bytes, at + 4),
            mins: read_ints3(bytes, at + 12),
            maxs: read_ints3(bytes, at + 24),
        }
    }

    proof fn lemma_unique(a: &Self, b: &Self, s: Seq<u8>, at: int) {
        assert(a.children =~= b.children);
        assert(a.mins =~= b.mins);
        assert(a.maxs =~= b.maxs);
    }
}

impl Record for Leaf {
    open spec fn size() -> int {
        LEAF_SIZE as int
    }

    open spec fn decodes(&self, s: Seq<u8>, at: int) -> bool {
        &&& self.cluster == le_i32(s, at)
        &&& self.area == le_i32(s, at + 4)
        &&& self.mins[0] == le_i32(s, at + 8)
        &&& self.mins[1] == le_i32(s, at + 12)
        &&& self.mins[2] == le_i32(s, at + 16)
        &&& self.maxs[0] == le_i32(s, at + 20)
        &&& self.maxs[1] == le_i32(s, at + 24)
        &&& self.maxs[2] == le_i32(s, at + 28)
        &&& self.leaf_face == le_i32(s, at + 32)
        &&& self.num_leaf_faces == le_i32(s, at + 36)
        &&& self.leaf_brush == le_i32(s, at + 40)
        &&& self.num_leaf_brushes == le_i32(s, at + 44)
    }

    fn width() -> (n: usize) {
        LEAF_SIZE
    }

    fn read(bytes: &[u8], at: usize) -> (r: Self) {
        Leaf {
            cluster: read_i32(bytes, at),
            area: read_i32(bytes, at + 4),
            mins: read_ints3(bytes, at + 8),
            maxs: read_ints3(bytes, at + 20),
            leaf_face: read_i32(bytes, at + 32),
            num_leaf_faces: read_i32(bytes, at + 36),
            leaf_brush: read_i32(bytes, at + 40),
            num_leaf_brushes: read_i32(bytes, at + 44),
        }
    }

    proof fn lemma_unique(a: &Self, b: &Self, s: Seq<u8>, at: int) {
        assert(a.mins =~= b.mins);
        assert(a.maxs =~= b.maxs);
    }
}

impl Record for LeafFace {
    open spec fn size() -> int {
        LEAF_FACE_SIZE as int
    }

    open spec fn decodes(&self, s: Seq<u8>, at: int) -> bool {
        self.face == le_i32(s, at)
    }

    fn width() -> (n: usize) {
        LEAF_FACE_SIZE
    }

    fn read(bytes: &[u8], at: usize) -> (r: Self) {
        LeafFace { face: read_i32(bytes, at) }
    }

    proof fn lemma_unique(a: &Self, b: &Self, s: Seq<u8>, at: int) {
    }
}

impl Record for LeafBrush {
    open spec fn size() -> int {
        LEAF_BRUSH_SIZE as int
    }

    open spec fn decodes(&self, s: Seq<u8>, at: int) -> bool {
        self.brush == le_i32(s, at)
    }

    fn width() -> (n: usize) {
        LEAF_BRUSH_SIZE
    }

    fn read(bytes: &[u8], at: usize) -> (r: Self) {
        LeafBrush { brush: read_i32(bytes, at) }
    }

    proof fn lemma_unique(a: &Self, b: &Self, s: Seq<u8>, at: int) {
    }
}

impl Record for Model {
    open spec fn size() -> int {
        MODEL_SIZE as int
    }

    open spec fn decodes(&self, s: Seq<u8>, at: int) -> bool {
        &&& self.mins[0] == le_i32(s, at)
        &&& self.mins[1] == le_i32(s, at + 4)
        &&& self.mins[2] == le_i32(s, at + 8)
        &&& self.maxs[0] == le_i32(s, at + 12)
        &&& self.maxs[1] == le_i32(s, at + 16)
        &&& self.maxs[2] == le_i32(s, at + 20)
        &&& self.face == le_i32(s, at + 24)
        &&& self.num_faces == le_i32(s, at + 28)
        &&& self.brush == le_i32(s, at + 32)
        &&& self.num_brushes == le_i32(s, at + 36)
    }

    fn width() -> (n: usize) {
        MODEL_SIZE
    }

    fn read(bytes: &[u8], at: usize) -> (r: Self) {
        Model {
            mins: read_ints3(bytes, at),
            maxs: read_ints3(bytes, at + 12),
            face: read_i32(bytes, at + 24),
            num_faces: read_i32(bytes, at + 28),
            brush: read_i32(bytes, at + 32),
            num_brushes: read_i32(bytes, at + 36),
        }
    }

    proof fn lemma_unique(a: &Self, b: &Self, s: Seq<u8>, at: int) {
        assert(a.mins =~= b.mins);
        assert(a.maxs =~= b.maxs);
    }
}

impl Record for Brush {
    open spec fn size() -> int {
        BRUSH_SIZE as int
    }

    open spec fn decodes(&self, s: Seq<u8>, at: int) -> bool {
        &&& self.brush_side == le_i32(s, at)
        &&& self.num_brush_sides == le_i32(s, at + 4)
        &&& self.texture == le_i32(s, at + 8)
    }

    fn width() -> (n: usize) {
        BRUSH_SIZE
    }

    fn read(bytes: &[u8], at: usize) -> (r: Self) {
        Brush {
            brush_side: read_i32(bytes, at),
            num_brush_sides: read_i32(bytes, at + 4),
            texture: read_i32(bytes, at + 8),
        }
    }

    proof fn lemma_unique(a: &Self, b: &Self, s: Seq<u8>, at: int) {
    }
}

impl Record for BrushSide {
    open spec fn size() -> int {
        BRUSH_SIDE_SIZE as int
    }

    open spec fn decodes(&self, s: Seq<u8>, at: int) -> bool {
        &&& self.plane == le_i32(s, at)
        &&& self.texture == le_i32(s, at + 4)
    }

    fn width() -> (n: usize) {
        BRUSH_SIDE_SIZE
    }

    fn read(bytes: &[u8], at: usize) -> (r: Self) {
        BrushSide { plane: read_i32(bytes, at), texture: read_i32(bytes, at + 4) }
    }

    proof fn lemma_unique(a: &Self, b: &Self, s: Seq<u8>, at: int) {
    }
}

impl Record for Vertex {
    open spec fn size() -> int {
        VERTEX_SIZE as int
    }

    open spec fn decodes(&self, s: Seq<u8>, at: int) -> bool {
        &&& self.position[0] == scalar_at(s, at)
        &&& self.position[1] == scalar_at(s, at + 4)
        &&& self.position[2] == scalar_at(s, at + 8)
        &&& self.texcoord_s[0] == scalar_at(s, at + 12)
        &&& self.texcoord_s[1] == scalar_at(s, at + 16)
        &&& self.texcoord_l[0] == scalar_at(s, at + 20)
        &&& self.texcoord_l[1] == scalar_at(s, at + 24)
        &&& self.normal[0] == scalar_at(s, at + 28)
        &&& self.normal[1] == scalar_at(s, at + 32)
        &&& self.normal[2] == scalar_at(s, at + 36)
        &&& self.colour[0] == s[at + 40]
        &&& self.colour[1] == s[at + 41]
        &&& self.colour[2] == s[at + 42]
        &&& self.colour[3] == s[at + 43]
    }

    fn width() -> (n: usize) {
        VERTEX_SIZE
    }

    fn read(bytes: &[u8], at: usize) -> (r: Self) {
        Vertex {
            position: read_scalars3(bytes, at),
            texcoord_s: read_scalars2(bytes, at + 12),
            texcoord_l: read_scalars2(bytes, at + 20),
            normal: read_scalars3(bytes, at + 28),
            colour: [bytes[at + 40], bytes[at + 41], bytes[at + 42], bytes[at + 43]],
        }
    }

    proof fn lemma_unique(a: &Self, b: &Self, s: Seq<u8>, at: int) {
        assert(a.position =~= b.position);
        assert(a.texcoord_s =~= b.texcoord_s);
        assert(a.texcoord_l =~= b.texcoord_l);
        assert(a.normal =~= b.normal);
        assert(a.colour =~= b.colour);
    }
}

impl Record for MeshVert {
    open spec fn size() -> int {
        MESH_VERT_SIZE as int
    }

    open spec fn decodes(&self, s: Seq<u8>, at: int) -> bool {
        self.offset == le_i32(s, at)
    }

    fn width() -> (n: usize) {
        MESH_VERT_SIZE
    }

    fn read(bytes: &[u8], at: usize) -> (r: Self) {
        MeshVert { offset: read_i32(bytes, at) }
    }

    proof fn lemma_unique(a: &Self, b: &Self, s: Seq<u8>, at: int) {
    }
}

impl Record for Face {
    open spec fn size() -> int {
        FACE_SIZE as int
    }

    open spec fn decodes(&self, s: Seq<u8>, at: int) -> bool {
        &&& self.texture == le_i32(s, at)
        &&& self.effect == le_i32(s, at + 4)
        &&& self.type_draw == le_i32(s, at + 8)
        &&& self.vertex == le_i32(s, at + 12)
        &&& self.num_vertexes == le_i32(s, at + 16)
        &&& self.mesh_vert == le_i32(s, at + 20)
        &&& self.num_mesh_verts == le_i32(s, at + 24)
        &&& self.lightmap_index == le_i32(s, at + 28)
        &&& self.lightmap_start[0] == le_i32(s, at + 32)
        &&& self.lightmap_start[1] == le_i32(s, at + 36)
        &&& self.lightmap_size[0] == le_i32(s, at + 40)
        &&& self.lightmap_size[1] == le_i32(s, at + 44)
        &&& self.lightmap_origin[0] == scalar_at(s, at + 48)
        &&& self.lightmap_origin[1] == scalar_at(s, at + 52)
        &&& self.lightmap_origin[2] == scalar_at(s, at + 56)
        &&& self.lightmap_vecs[0][0] == scalar_at(s, at + 60)
        &&& self.lightmap_vecs[0][1] == scalar_at(s, at + 64)
        &&& self.lightmap_vecs[0][2] == scalar_at(s, at + 68)
        &&& self.lightmap_vecs[1][0] == scalar_at(s, at + 72)
        &&& self.lightmap_vecs[1][1] == scalar_at(s, at + 76)
        &&& self.lightmap_vecs[1][2] == scalar_at(s, at + 80)
        &&& self.normal[0] == scalar_at(s, at + 84)
        &&& self.normal[1] == scalar_at(s, at + 88)
        &&& self.normal[2] == scalar_at(s, at + 92)
        &&& self.size[0] == le_i32(s, at + 96)
        &&& self.size[1] == le_i32(s, at + 100)
    }

    fn width() -> (n: usize) {
        FACE_SIZE
    }

    fn read(bytes: &[u8], at: usize) -> (r: Self) {
        Face {
            texture: read_i32(bytes, at),
            effect: read_i32(bytes, at + 4),
            type_draw: read_i32(bytes, at + 8),
            vertex: read_i32(bytes, at + 12),
            num_vertexes: read_i32(bytes, at + 16),
            mesh_vert: read_i32(bytes, at + 20),
            num_mesh_verts: read_i32(bytes, at + 24),
            lightmap_index: read_i32(bytes, at + 28),
            lightmap_start: read_ints2(bytes, at + 32),
            lightmap_size: read_ints2(bytes, at + 40),
            lightmap_origin: read_scalars3(bytes, at + 48),
            lightmap_vecs: [read_scalars3(bytes, at + 60), read_scalars3(bytes, at + 72)],
            normal: read_scalars3(bytes, at + 84),
            size: read_ints2(bytes, at + 96),
        }
    }

    proof fn lemma_unique(a: &Self, b: &Self, s: Seq<u8>, at: int) {
        assert(a.lightmap_start =~= b.lightmap_start);
        assert(a.lightmap_size =~= b.lightmap_size);
        assert(a.lightmap_origin =~= b.lightmap_origin);
        assert(a.lightmap_vecs[0] =~= b.lightmap_vecs[0]);
        assert(a.lightmap_vecs[1] =~= b.lightmap_vecs[1]);
        assert(a.lightmap_vecs =~= b.lightmap_vecs);
        assert(a.normal =~= b.normal);
        assert(a.size =~= b.size);
    }
}

impl Record for LightMap {
    open spec fn size() -> int {
        LIGHT_MAP_SIZE as int
    }

    open spec fn decodes(&self, s: Seq<u8>, at: int) -> bool {
        self.map@ == s.subrange(at, at + 49152)
    }

    fn width() -> (n: usize) {
        LIGHT_MAP_SIZE
    }

    fn read(bytes: &[u8], at: usize) -> (r: Self) {
        LightMap { map: read_texels(bytes, at) }
    }

    proof fn lemma_unique(a: &Self, b: &Self, s: Seq<u8>, at: int) {
        assert(a.map =~= b.map);
    }
}

impl Record for LightVol {
    open spec fn size() -> int {
        LIGHT_VOL_SIZE as int
    }

    open spec fn decodes(&self, s: Seq<u8>, at: int) -> bool {
        &&& self.ambient[0] == s[at]
        &&& self.ambient[1] == s[at + 1]
        &&& self.ambient[2] == s[at + 2]
        &&& self.directional[0] == s[at + 3]
        &&& self.directional[1] == s[at + 4]
        &&& self.directional[2] == s[at + 5]
        &&& self.dir[0] == s[at + 6]
        &&& self.dir[1] == s[at + 7]
    }

    fn width() -> (n: usize) {
        LIGHT_VOL_SIZE
    }

    fn read(bytes: &[u8], at: usize) -> (r: Self) {
        LightVol {
            ambient: [bytes[at], bytes[at + 1], bytes[at + 2]],
            directional: [bytes[at + 3], bytes[at + 4], bytes[at + 5]],
            dir: [bytes[at + 6], bytes[at + 7]],
        }
    }

    proof fn lemma_unique(a: &Self, b: &Self, s: Seq<u8>, at: int) {
        assert(a.ambient =~= b.ambient);
        assert(a.directional =~= b.directional);
        assert(a.dir =~= b.dir);
    }
}

impl Record for VisData {
    open spec fn size() -> int {
        VIS_DATA_SIZE as int
    }

    open spec fn decodes(&self, s: Seq<u8>, at: int) -> bool {
        &&& self.num_vecs == le_i32(s, at)
        &&& self.size_vecs == le_i32(s, at + 4)
    }

    fn width() -> (n: usize) {
        VIS_DATA_SIZE
    }

    fn read(bytes: &[u8], at: usize) -> (r: Self) {
        VisData { num_vecs: read_i32(bytes, at), size_vecs: read_i32(bytes, at + 4) }
    }

    proof fn lemma_unique(a: &Self, b: &Self, s: Seq<u8>, at: int) {
    }
}

/// Reads every record of one lump.
fn read_lump<T: Record>(bytes: &[u8], lump: usize) -> (v: Vec<T>)
    requires
        bytes.len() >= HEADER_SIZE,
        lump < LUMP_COUNT,
        lump_in_bounds(bytes@, lump as int),
    ensures
        holds_lump(v@, bytes@, lump as int),
{
    let offset: usize = read_u32(bytes, 8 + 8 * lump) as usize;
    let length: usize = read_u32(bytes, 12 + 8 * lump) as usize;
    let size: usize = T::width();
    let count: usize = length / size;
    let mut v: Vec<T> = Vec::new();
    let mut i: usize = 0;
    let mut pos: usize = offset;
    assert(count * size <= length) by (nonlinear_arith)
        requires
            count == length / size,
            size > 0,
    ;
    while i < count
        invariant
            i <= count,
            size == T::size(),
            size > 0,
            count * size <= length,
            offset + length <= bytes.len(),
            offset == lump_offset(bytes@, lump as int),
            pos == offset + i * size,
            v@.len() == i,
            forall|k: int| 0 <= k < i ==> (#[trigger] v@[k]).decodes(bytes@, offset + k * size),
        decreases count - i,
    {
        assert((i + 1) * size <= count * size && (i + 1) * size == i * size + size)
            by (nonlinear_arith)
            requires
                i < count,
                size > 0,
        ;
        let r = T::read(bytes, pos);
        v.push(r);
        pos = pos + size;
        i = i + 1;
    }
    v
}

impl Geometry {
    /// Whether the arrays are what the file `s` holds.
    pub open spec fn holds(&self, s: Seq<u8>) -> bool {
        &&& self.version == le_u32(s, 4)
        &&& holds_lump(self.textures@, s, LUMP_TEXTURES as int)
        &&& holds_lump(self.planes@, s, LUMP_PLANES as int)
        &&& holds_lump(self.nodes@, s, LUMP_NODES as int)
        &&& holds_lump(self.leafs@, s, LUMP_LEAFS as int)
        &&& holds_lump(self.leaf_faces@, s, LUMP_LEAF_FACES as int)
        &&& holds_lump(self.leaf_brushes@, s, LUMP_LEAF_BRUSHES as int)
        &&& holds_lump(self.models@, s, LUMP_MODELS as int)
        &&& holds_lump(self.brushes@, s, LUMP_BRUSHES as int)
        &&& holds_lump(self.brush_sides@, s, LUMP_BRUSH_SIDES as int)
        &&& holds_lump(self.vertexes@, s, LUMP_VERTEXES as int)
        &&& holds_lump(self.mesh_verts@, s, LUMP_MESH_VERTS as int)
        &&& holds_lump(self.effects@, s, LUMP_EFFECTS as int)
        &&& holds_lump(self.faces@, s, LUMP_FACES as int)
        &&& holds_lump(self.light_maps@, s, LUMP_LIGHT_MAPS as int)
        &&& holds_lump(self.light_vols@, s, LUMP_LIGHT_VOLS as int)
        &&& if lump_length(s, LUMP_VIS_DATA as int) >= VIS_DATA_SIZE {
            self.vis_data matches Some(v) && v.decodes(s, lump_offset(s, LUMP_VIS_DATA as int))
        } else {
            self.vis_data is None
        }
    }

    /// Decodes a level file. The file is refused if it is shorter than its
    /// header, does not start with `IBSP`, or names a lump that does not
    /// lie inside it; else every lump is decoded, record by record.
    pub fn decode(bytes: &[u8]) -> (r: Result<Geometry, DecodeError>)
        ensures
            match decode_fault(bytes@) {
                Some(e) => r == Err::<Geometry, DecodeError>(e),
                None => r matches Ok(g) && g.holds(bytes@),
            },
    {
        if bytes.len() < HEADER_SIZE {
            return Err(DecodeError::TooShort);
        }
        if !(bytes[0] == 0x49 && bytes[1] == 0x42 && bytes[2] == 0x53 && bytes[3] == 0x50) {
            return Err(DecodeError::BadMagic);
        }
        let mut lump: usize = 0;
        while lump < LUMP_COUNT
            invariant
                lump <= LUMP_COUNT,
                bytes.len() >= HEADER_SIZE,
                has_magic(bytes@),
                first_bad_lump(bytes@, 0) == first_bad_lump(bytes@, lump as int),
            decreases LUMP_COUNT - lump,
        {
            let offset: u64 = read_u32(bytes, 8 + 8 * lump) as u64;
            let length: u64 = read_u32(bytes, 12 + 8 * lump) as u64;
            if offset + length > bytes.len() as u64 {
                assert(!lump_in_bounds(bytes@, lump as int));
                return Err(DecodeError::LumpOutOfBounds { lump });
            }
            assert(lump_in_bounds(bytes@, lump as int));
            lump = lump + 1;
        }
        assert(forall|k: int| 0 <= k < LUMP_COUNT ==> lump_in_bounds(bytes@, k)) by {
            lemma_no_bad_lump(bytes@, 0);
        }
        assert(lump_in_bounds(bytes@, LUMP_VIS_DATA as int));
        let vis_offset: usize = read_u32(bytes, 8 + 8 * LUMP_VIS_DATA) as usize;
        let vis_length: usize = read_u32(bytes, 12 + 8 * LUMP_VIS_DATA) as usize;
        let vis_data = if vis_length >= VIS_DATA_SIZE {
            Some(VisData::read(bytes, vis_offset))
        } else {
            None
        };
        Ok(
            Geometry {
                version: read_u32(bytes, 4),
                textures: read_lump(bytes, LUMP_TEXTURES),
                planes: read_lump(bytes, LUMP_PLANES),
                nodes: read_lump(bytes, LUMP_NODES),
                leafs: read_lump(bytes, LUMP_LEAFS),
                leaf_faces: read_lump(bytes, LUMP_LEAF_FACES),
                leaf_brushes: read_lump(bytes, LUMP_LEAF_BRUSHES),
                models: read_lump(bytes, LUMP_MODELS),
                brushes: read_lump(bytes, LUMP_BRUSHES),
                brush_sides: read_lump(bytes, LUMP_BRUSH_SIDES),
                vertexes: read_lump(bytes, LUMP_VERTEXES),
                mesh_verts: read_lump(bytes, LUMP_MESH_VERTS),
                effects: read_lump(bytes, LUMP_EFFECTS),
                faces: read_lump(bytes, LUMP_FACES),
                light_maps: read_lump(bytes, LUMP_LIGHT_MAPS),
                light_vols: read_lump(bytes, LUMP_LIGHT_VOLS),
                vis_data,
            },
        )
    }
}

/// Where no lump from `from` on is out of bounds, each of them lies inside
/// the file.
proof fn lemma_no_bad_lump(s: Seq<u8>, from: int)
    requires
        0 <= from,
        first_bad_lump(s, from) >= LUMP_COUNT,
    ensures
        forall|k: int| from <= k < LUMP_COUNT ==> lump_in_bounds(s, k),
    decreases LUMP_COUNT - from,
{
    if from < LUMP_COUNT {
        lemma_no_bad_lump(s, from + 1);
    }
}

/// A lump holds one list of records only.
pub proof fn lemma_lump_unique<T: Record>(v: Seq<T>, w: Seq<T>, s: Seq<u8>, lump: int)
    requires
        holds_lump(v, s, lump),
        holds_lump(w, s, lump),
    ensures
        v == w,
{
    assert forall|i: int| 0 <= i < v.len() implies v[i] == w[i] by {
        T::lemma_unique(&v[i], &w[i], s, lump_offset(s, lump) + i * T::size());
    }
    assert(v =~= w);
}

/// A file holds one level only: two levels decoded from the same bytes
/// have the same records in each of their arrays.
pub proof fn lemma_file_unique(g: Geometry, h: Geometry, s: Seq<u8>)
    requires
        g.holds(s),
        h.holds(s),
    ensures
        g.same_records(h),
{
    lemma_lump_unique(g.textures@, h.textures@, s, LUMP_TEXTURES as int);
    lemma_lump_unique(g.planes@, h.planes@, s, LUMP_PLANES as int);
    lemma_lump_unique(g.nodes@, h.nodes@, s, LUMP_NODES as int);
    lemma_lump_unique(g.leafs@, h.leafs@, s, LUMP_LEAFS as int);
    lemma_lump_unique(g.leaf_faces@, h.leaf_faces@, s, LUMP_LEAF_FACES as int);
    lemma_lump_unique(g.leaf_brushes@, h.leaf_brushes@, s, LUMP_LEAF_BRUSHES as int);
    lemma_lump_unique(g.models@, h.models@, s, LUMP_MODELS as int);
    lemma_lump_unique(g.brushes@, h.brushes@, s, LUMP_BRUSHES as int);
    lemma_lump_unique(g.brush_sides@, h.brush_sides@, s, LUMP_BRUSH_SIDES as int);
    lemma_lump_unique(g.vertexes@, h.vertexes@, s, LUMP_VERTEXES as int);
    lemma_lump_unique(g.mesh_verts@, h.mesh_verts@, s, LUMP_MESH_VERTS as int);
    lemma_lump_unique(g.effects@, h.effects@, s, LUMP_EFFECTS as int);
    lemma_lump_unique(g.faces@, h.faces@, s, LUMP_FACES as int);
    lemma_lump_unique(g.light_maps@, h.light_maps@, s, LUMP_LIGHT_MAPS as int);
    lemma_lump_unique(g.light_vols@, h.light_vols@, s, LUMP_LIGHT_VOLS as int);
    if lump_length(s, LUMP_VIS_DATA as int) >= VIS_DATA_SIZE {
        VisData::lemma_unique(
            &g.vis_data->Some_0,
            &h.vis_data->Some_0,
            s,
            lump_offset(s, LUMP_VIS_DATA as int),
        );
    }
}

} // verus!

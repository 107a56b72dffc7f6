//! Whether the arrays of a level refer to each other soundly.

use vstd::prelude::*;
use crate::geometry::{Brush, BrushSide, Geometry, Leaf, LeafBrush, Node};
use crate::mesh::{check_faces, check_vertex_total, face_ok, faces_ok, vertex_total};
use crate::parse::{lemma_file_unique, DecodeError};
use crate::tree::{
    acyclic, child_ok, descends, node_ok, nodes_ok, numbers, orders, rank_nodes,
};

verus! {

/// Why a level was not loaded.
#[derive(Clone, Copy, Debug, PartialEq, Eq, Structural)]
pub enum LoadError {
    /// The file could not be decoded.
    Decode(DecodeError),
    /// The partition tree has no root.
    NoNodes,
    /// A node names a plane or a child that does not exist.
    BadNode,
    /// Some node is its own descendant.
    Cycle,
    /// A leaf names leaf brushes that do not exist.
    BadLeaf,
    /// A leaf brush names a brush that does not exist.
    BadLeafBrush,
    /// A brush names a texture or brush sides that do not exist.
    BadBrush,
    /// A brush side names a plane that does not exist.
    BadBrushSide,
    /// A face names a texture, mesh vertices or vertices that do not exist.
    BadFace,
    /// The vertices of the level cannot be indexed with 32 bits.
    TooManyVertices,
}

/// Whether the leaf brushes of a leaf exist.
pub open spec fn leaf_ok(g: Geometry, l: Leaf) -> bool {
    l.num_leaf_brushes > 0 ==> 0 <= l.leaf_brush && l.leaf_brush + l.num_leaf_brushes
        <= g.leaf_brushes@.len()
}

/// Whether the brush of a leaf brush exists.
pub open spec fn leaf_brush_ok(g: Geometry, lb: LeafBrush) -> bool {
    0 <= lb.brush < g.brushes@.len()
}

/// Whether the texture and the sides of a brush with sides exist.
pub open spec fn brush_ok(g: Geometry, b: Brush) -> bool {
    b.num_brush_sides > 0 ==> {
        &&& 0 <= b.texture < g.textures@.len()
        &&& 0 <= b.brush_side
        &&& b.brush_side + b.num_brush_sides <= g.brush_sides@.len()
    }
}

/// Whether the plane of a brush side exists.
pub open spec fn brush_side_ok(g: Geometry, s: BrushSide) -> bool {
    0 <= s.plane < g.planes@.len()
}

/// Whether the leaf brushes of all leaves exist.
pub open spec fn leafs_ok(g: Geometry) -> bool {
    forall|i: int| 0 <= i < g.leafs@.len() ==> leaf_ok(g, #[trigger] g.leafs@[i])
}

/// Whether the brushes of all leaf brushes exist.
pub open spec fn leaf_brushes_ok(g: Geometry) -> bool {
    forall|i: int|
        0 <= i < g.leaf_brushes@.len() ==> leaf_brush_ok(g, #[trigger] g.leaf_brushes@[i])
}

/// Whether the textures and sides of all brushes with sides exist.
pub open spec fn brushes_ok(g: Geometry) -> bool {
    forall|i: int| 0 <= i < g.brushes@.len() ==> brush_ok(g, #[trigger] g.brushes@[i])
}

/// Whether the planes of all brush sides exist.
pub open spec fn brush_sides_ok(g: Geometry) -> bool {
    forall|i: int| 0 <= i < g.brush_sides@.len() ==> brush_side_ok(g, #[trigger] g.brush_sides@[i])
}

/// The first reason, in the order of the checks, for which a level is
/// refused, if it is.
pub open spec fn store_fault(g: Geometry) -> Option<LoadError> {
    if g.nodes@.len() == 0 {
        Some(LoadError::NoNodes)
    } else if !nodes_ok(g) {
        Some(LoadError::BadNode)
    } else if !acyclic(g) {
        Some(LoadError::Cycle)
    } else if !leafs_ok(g) {
        Some(LoadError::BadLeaf)
    } else if !leaf_brushes_ok(g) {
        Some(LoadError::BadLeafBrush)
    } else if !brushes_ok(g) {
        Some(LoadError::BadBrush)
    } else if !brush_sides_ok(g) {
        Some(LoadError::BadBrushSide)
    } else if !faces_ok(g) {
        Some(LoadError::BadFace)
    } else if vertex_total(g) > u32::MAX {
        Some(LoadError::TooManyVertices)
    } else {
        None
    }
}

/// Whether a child of a node exists.
fn check_child(g: &Geometry, c: i32) -> (r: bool)
    ensures
        r == child_ok(*g, c as int),
{
    if c >= 0 {
        (c as usize) < g.nodes.len()
    } else {
        ((-(c + 1)) as usize) < g.leafs.len()
    }
}

/// Whether the planes and children of all nodes exist.
fn check_nodes(g: &Geometry) -> (r: bool)
    ensures
        r == nodes_ok(*g),
{
    let mut i: usize = 0;
    while i < g.nodes.len()
        invariant
            i <= g.nodes@.len(),
            forall|k: int| 0 <= k < i ==> node_ok(*g, #[trigger] g.nodes@[k]),
        decreases g.nodes@.len() - i,
    {
        let n: &Node = &g.nodes[i];
        if !(n.plane >= 0 && (n.plane as usize) < g.planes.len() && check_child(g, n.children[0])
            && check_child(g, n.children[1])) {
            return false;
        }
        i = i + 1;
    }
    true
}

/// Whether the leaf brushes of all leaves exist.
fn check_leafs(g: &Geometry) -> (r: bool)
    ensures
        r == leafs_ok(*g),
{
    let mut i: usize = 0;
    while i < g.leafs.len()
        invariant
            i <= g.leafs@.len(),
            forall|k: int| 0 <= k < i ==> leaf_ok(*g, #[trigger] g.leafs@[k]),
        decreases g.leafs@.len() - i,
    {
        let l: &Leaf = &g.leafs[i];
        if l.num_leaf_brushes > 0 && !(l.leaf_brush >= 0 && l.leaf_brush as u64
            + l.num_leaf_brushes as u64 <= g.leaf_brushes.len() as u64) {
            return false;
        }
        i = i + 1;
    }
    true
}

/// Whether the brushes of all leaf brushes exist.
fn check_leaf_brushes(g: &Geometry) -> (r: bool)
    ensures
        r == leaf_brushes_ok(*g),
{
    let mut i: usize = 0;
    while i < g.leaf_brushes.len()
        invariant
            i <= g.leaf_brushes@.len(),
            forall|k: int| 0 <= k < i ==> leaf_brush_ok(*g, #[trigger] g.leaf_brushes@[k]),
        decreases g.leaf_brushes@.len() - i,
    {
        let lb: &LeafBrush = &g.leaf_brushes[i];
        if !(lb.brush >= 0 && (lb.brush as usize) < g.brushes.len()) {
            return false;
        }
        i = i + 1;
    }
    true
}

/// Whether the textures and sides of all brushes with sides exist.
fn check_brushes(g: &Geometry) -> (r: bool)
    ensures
        r == brushes_ok(*g),
{
    let mut i: usize = 0;
    while i < g.brushes.len()
        invariant
            i <= g.brushes@.len(),
            forall|k: int| 0 <= k < i ==> brush_ok(*g, #[trigger] g.brushes@[k]),
        decreases g.brushes@.len() - i,
    {
        let b: &Brush = &g.brushes[i];
        if b.num_brush_sides > 0 && !(b.texture >= 0 && (b.texture as usize) < g.textures.len()
            && b.brush_side >= 0 && b.brush_side as u64 + b.num_brush_sides as u64
            <= g.brush_sides.len() as u64) {
            return false;
        }
        i = i + 1;
    }
    true
}

/// Whether the planes of all brush sides exist.
fn check_brush_sides(g: &Geometry) -> (r: bool)
    ensures
        r == brush_sides_ok(*g),
{
    let mut i: usize = 0;
    while i < g.brush_sides.len()
        invariant
            i <= g.brush_sides@.len(),
            forall|k: int| 0 <= k < i ==> brush_side_ok(*g, #[trigger] g.brush_sides@[k]),
        decreases g.brush_sides@.len() - i,
    {
        let s: &BrushSide = &g.brush_sides[i];
        if !(s.plane >= 0 && (s.plane as usize) < g.planes.len()) {
            return false;
        }
        i = i + 1;
    }
    true
}

/// Finds the first reason for which a level is refused. For a level that
/// is not refused the nodes are numbered so that every node comes after
/// the nodes among its children.
pub fn check_geometry(g: &Geometry) -> (r: Result<Vec<usize>, LoadError>)
    ensures
        match store_fault(*g) {
            Some(e) => r == Err::<Vec<usize>, LoadError>(e),
            None => r matches Ok(order) && orders(*g, numbers(order@)),
        },
{
    if g.nodes.len() == 0 {
        return Err(LoadError::NoNodes);
    }
    if !check_nodes(g) {
        return Err(LoadError::BadNode);
    }
    match rank_nodes(g) {
        None => Err(LoadError::Cycle),
        Some(order) => {
            if !check_leafs(g) {
                Err(LoadError::BadLeaf)
            } else if !check_leaf_brushes(g) {
                Err(LoadError::BadLeafBrush)
            } else if !check_brushes(g) {
                Err(LoadError::BadBrush)
            } else if !check_brush_sides(g) {
                Err(LoadError::BadBrushSide)
            } else if !check_faces(g) {
                Err(LoadError::BadFace)
            } else if !check_vertex_total(g) {
                Err(LoadError::TooManyVertices)
            } else {
                Ok(order)
            }
        },
    }
}

/// Whether a level is refused depends on its records alone: two levels
/// with the same records are refused for the same reason or not at all.
pub proof fn lemma_fault_of_records(g: Geometry, h: Geometry)
    requires
        g.same_records(h),
    ensures
        store_fault(g) == store_fault(h),
{
    assert(nodes_ok(g) == nodes_ok(h)) by {
        assert forall|i: int| 0 <= i < g.nodes@.len() implies node_ok(g, g.nodes@[i]) == node_ok(
            h,
            h.nodes@[i],
        ) by {}
    }
    assert(acyclic(g) == acyclic(h)) by {
        assert forall|path: Seq<int>| descends(g, path) == descends(h, path) by {}
    }
    assert(leafs_ok(g) == leafs_ok(h)) by {
        assert forall|i: int| 0 <= i < g.leafs@.len() implies leaf_ok(g, g.leafs@[i]) == leaf_ok(
            h,
            h.leafs@[i],
        ) by {}
    }
    assert(leaf_brushes_ok(g) == leaf_brushes_ok(h)) by {
        assert forall|i: int| 0 <= i < g.leaf_brushes@.len() implies leaf_brush_ok(
            g,
            g.leaf_brushes@[i],
        ) == leaf_brush_ok(h, h.leaf_brushes@[i]) by {}
    }
    assert(brushes_ok(g) == brushes_ok(h)) by {
        assert forall|i: int| 0 <= i < g.brushes@.len() implies brush_ok(g, g.brushes@[i])
            == brush_ok(h, h.brushes@[i]) by {}
    }
    assert(brush_sides_ok(g) == brush_sides_ok(h)) by {
        assert forall|i: int| 0 <= i < g.brush_sides@.len() implies brush_side_ok(
            g,
            g.brush_sides@[i],
        ) == brush_side_ok(h, h.brush_sides@[i]) by {}
    }
    assert(faces_ok(g) == faces_ok(h)) by {
        assert forall|i: int| 0 <= i < g.faces@.len() implies face_ok(g, g.faces@[i]) == face_ok(
            h,
            h.faces@[i],
        ) by {}
    }
    assert(vertex_total(g) == vertex_total(h));
}

/// Whether a file is refused is settled by its bytes: whatever level is
/// decoded from them is refused for the same reason or not at all.
pub proof fn lemma_fault_of_file(g: Geometry, h: Geometry, s: Seq<u8>)
    requires
        g.holds(s),
        h.holds(s),
    ensures
        store_fault(g) == store_fault(h),
{
    lemma_file_unique(g, h, s);
    lemma_fault_of_records(g, h);
}

} // verus!

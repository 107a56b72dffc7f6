//! The surfaces of a level, routed into index lists.
//!
//! Every face goes to the bucket of its light map and its texture. A flat
//! polygon or indexed mesh adds the indices of its vertices, a curved patch
//! surface the triangles of the grids of its patches.

use vstd::prelude::*;
use crate::geometry::{Face, Geometry, MESH, PATCH, POLYGON};
use crate::grid::{
    ints, lemma_ints_push, lemma_level_grid, lemma_patch_counts, patch_indices,
    patch_vertex_count, tessellation_indices, BEZIER_LEVEL,
};

verus! {

/// One curved patch of a level: where its control vertices are and where
/// the vertices of its grid go.
#[derive(Clone, Copy, Debug)]
pub struct Patch {
    /// Number of the face that the patch belongs to.
    pub face: usize,
    /// Indices, into the vertex array, of the nine control vertices, row by
    /// row.
    pub control: [u32; 9],
    /// Index of the first vertex of the patch's grid in the vertex buffer.
    /// The grid follows row by row.
    pub first_vertex: u32,
}

/// Patches along a side of a control grid with `size` vertices on that side.
pub open spec fn patches_along(size: int) -> int {
    if size >= 3 {
        (size - 1) / 2
    } else {
        0
    }
}

/// Patches of a face: none unless it is a curved patch.
pub open spec fn patch_count(face: Face) -> int {
    if face.type_draw == PATCH {
        patches_along(face.size[0] as int) * patches_along(face.size[1] as int)
    } else {
        0
    }
}

/// Whether a face is a flat polygon or an indexed mesh with indices of its own.
pub open spec fn is_flat(face: Face) -> bool {
    (face.type_draw == POLYGON || face.type_draw == MESH) && face.num_mesh_verts > 0
}

/// Whether a face adds anything to the index buffer.
pub open spec fn emits(face: Face) -> bool {
    is_flat(face) || patch_count(face) > 0
}

/// The row of buckets that a face goes to: its light map, or the extra
/// row behind the last light map if it names none.
pub open spec fn lightmap_bucket(g: Geometry, face: Face) -> int {
    if 0 <= face.lightmap_index < g.light_maps@.len() {
        face.lightmap_index as int
    } else {
        g.light_maps@.len() as int
    }
}

/// Whether everything that a face that emits names lies inside its array.
pub open spec fn face_ok(g: Geometry, face: Face) -> bool {
    &&& emits(face) ==> 0 <= face.texture < g.textures@.len()
    &&& is_flat(face) ==> {
        &&& 0 <= face.mesh_vert
        &&& face.mesh_vert + face.num_mesh_verts <= g.mesh_verts@.len()
        &&& forall|j: int|
            0 <= j < face.num_mesh_verts ==> 0 <= face.vertex + (
            #[trigger] g.mesh_verts@[face.mesh_vert + j]).offset < g.vertexes@.len()
    }
    &&& patch_count(face) > 0 ==> {
        &&& 0 <= face.vertex
        &&& face.num_vertexes == face.size[0] * face.size[1]
        &&& face.vertex + face.num_vertexes <= g.vertexes@.len()
    }
}

/// Whether every face of the level is in order.
pub open spec fn faces_ok(g: Geometry) -> bool {
    forall|i: int| 0 <= i < g.faces@.len() ==> face_ok(g, #[trigger] g.faces@[i])
}

/// Patches of the first `n` faces.
pub open spec fn patch_total(faces: Seq<Face>, n: int) -> int
    decreases n,
{
    if n <= 0 {
        0
    } else {
        patch_total(faces, n - 1) + patch_count(faces[n - 1])
    }
}

/// Vertices of the level once every patch has its grid: those of the file,
/// then one grid for each patch.
pub open spec fn vertex_total(g: Geometry) -> int {
    g.vertexes@.len() + patch_total(g.faces@, g.faces@.len() as int) * patch_vertex_count(
        BEZIER_LEVEL as int,
    )
}

/// The indices of a flat face: its first vertex plus each of its mesh
/// vertex offsets.
pub open spec fn flat_indices(g: Geometry, face: Face) -> Seq<int> {
    Seq::new(
        face.num_mesh_verts as nat,
        |j: int| face.vertex + g.mesh_verts@[face.mesh_vert + j].offset,
    )
}

/// A list of indices, each moved by `by`.
pub open spec fn shifted(s: Seq<int>, by: int) -> Seq<int> {
    s.map_values(|x: int| x + by)
}

/// The indices of `count` patches in a row whose grids start at `first`.
pub open spec fn patch_run(first: int, count: int, level: int) -> Seq<int>
    decreases count,
{
    if count <= 0 {
        Seq::empty()
    } else {
        patch_run(first, count - 1, level) + shifted(
            patch_indices(level),
            first + (count - 1) * patch_vertex_count(level),
        )
    }
}

/// The indices that face `i` adds to its bucket.
pub open spec fn face_indices(g: Geometry, i: int) -> Seq<int> {
    let face = g.faces@[i];
    if is_flat(face) {
        flat_indices(g, face)
    } else {
        patch_run(
            g.vertexes@.len() + patch_total(g.faces@, i) * patch_vertex_count(BEZIER_LEVEL as int),
            patch_count(face),
            BEZIER_LEVEL as int,
        )
    }
}

/// Whether a face goes to the bucket of light map row `lm` and texture `tex`.
pub open spec fn routed(g: Geometry, face: Face, lm: int, tex: int) -> bool {
    emits(face) && lightmap_bucket(g, face) == lm && face.texture == tex
}

/// What the first `n` faces put into the bucket `(lm, tex)`, in face order.
pub open spec fn bucket_indices(g: Geometry, lm: int, tex: int, n: int) -> Seq<int>
    decreases n,
{
    if n <= 0 {
        Seq::empty()
    } else if routed(g, g.faces@[n - 1], lm, tex) {
        bucket_indices(g, lm, tex, n - 1) + face_indices(g, n - 1)
    } else {
        bucket_indices(g, lm, tex, n - 1)
    }
}

/// Index, into the vertex array, of control vertex `k` of the patch in
/// column `px` and row `py` of a face's patches. The control grid of the
/// face is stored row by row; neighbouring patches share a row or column.
pub open spec fn control_index(face: Face, px: int, py: int, k: int) -> int {
    face.vertex + (2 * py + k / 3) * face.size[0] + 2 * px + k % 3
}

/// The first `cols` patches of row `py` of face `fi`, each as face, column
/// and row.
pub open spec fn patch_row(fi: int, py: int, cols: int) -> Seq<(int, int, int)>
    decreases cols,
{
    if cols <= 0 {
        Seq::empty()
    } else {
        patch_row(fi, py, cols - 1).push((fi, cols - 1, py))
    }
}

/// The patches of the first `rows` rows of face `fi`, `npx` to a row.
pub open spec fn patch_rows(fi: int, npx: int, rows: int) -> Seq<(int, int, int)>
    decreases rows,
{
    if rows <= 0 {
        Seq::empty()
    } else {
        patch_rows(fi, npx, rows - 1) + patch_row(fi, rows - 1, npx)
    }
}

/// The patches of face `fi`, row by row.
pub open spec fn face_patches(g: Geometry, fi: int) -> Seq<(int, int, int)> {
    let face = g.faces@[fi];
    if face.type_draw == PATCH {
        patch_rows(fi, patches_along(face.size[0] as int), patches_along(face.size[1] as int))
    } else {
        Seq::empty()
    }
}

/// The patches of the first `n` faces, face by face.
pub open spec fn level_patches(g: Geometry, n: int) -> Seq<(int, int, int)>
    decreases n,
{
    if n <= 0 {
        Seq::empty()
    } else {
        level_patches(g, n - 1) + face_patches(g, n - 1)
    }
}

/// Whether `patch` is patch number `q` of the level, which lies at `place`.
pub open spec fn patch_is(g: Geometry, patch: Patch, q: int, place: (int, int, int)) -> bool {
    &&& patch.face == place.0
    &&& patch.first_vertex == g.vertexes@.len() + q * patch_vertex_count(BEZIER_LEVEL as int)
    &&& forall|k: int|
        0 <= k < 9 ==> #[trigger] patch.control[k] == control_index(
            g.faces@[place.0],
            place.1,
            place.2,
            k,
        ) && patch.control[k] < g.vertexes@.len()
}

/// Whether `patches` are the patches that lie at `places`, in that order.
pub open spec fn places_match(
    g: Geometry,
    patches: Seq<Patch>,
    places: Seq<(int, int, int)>,
) -> bool {
    &&& patches.len() == places.len()
    &&& forall|q: int| 0 <= q < patches.len() ==> patch_is(g, #[trigger] patches[q], q, places[q])
}

/// Whether `patches` are the patches of the first `n` faces.
pub open spec fn patches_match(g: Geometry, patches: Seq<Patch>, n: int) -> bool {
    places_match(g, patches, level_patches(g, n))
}

/// Whether `buckets` has one row for each light map and one more, one
/// bucket for each texture in each row, and in each bucket what the first
/// `n` faces put there.
pub open spec fn buckets_match(g: Geometry, buckets: Seq<Vec<Vec<u32>>>, n: int) -> bool {
    &&& buckets.len() == g.light_maps@.len() + 1
    &&& forall|lm: int|
        0 <= lm < buckets.len() ==> (#[trigger] buckets[lm])@.len() == g.textures@.len()
    &&& forall|lm: int, tex: int|
        0 <= lm < buckets.len() && 0 <= tex < g.textures@.len() ==> ints(
            #[trigger] buckets[lm]@[tex]@,
        ) == bucket_indices(g, lm, tex, n)
}

/// The number of patches never shrinks as faces are added.
pub proof fn lemma_patch_total_grows(faces: Seq<Face>, m: int, n: int)
    requires
        0 <= m <= n,
    ensures
        0 <= patch_total(faces, m) <= patch_total(faces, n),
    decreases n,
{
    if n > 0 {
        let a = patches_along(faces[n - 1].size[0] as int);
        let b = patches_along(faces[n - 1].size[1] as int);
        assert(0 <= a * b) by (nonlinear_arith)
            requires
                0 <= a,
                0 <= b,
        ;
        if m < n {
            lemma_patch_total_grows(faces, m, n - 1);
        } else {
            lemma_patch_total_grows(faces, m - 1, n - 1);
        }
    }
}

/// A face has as many patches as its rows and columns of patches give.
pub proof fn lemma_patch_rows_len(fi: int, npx: int, rows: int)
    requires
        0 <= npx,
        0 <= rows,
    ensures
        patch_rows(fi, npx, rows).len() == rows * npx,
    decreases rows,
{
    if rows > 0 {
        lemma_patch_rows_len(fi, npx, rows - 1);
        lemma_patch_row_len(fi, rows - 1, npx);
        assert(rows * npx == (rows - 1) * npx + npx) by (nonlinear_arith);
    } else {
        assert(rows * npx == 0) by (nonlinear_arith)
            requires
                rows == 0,
        ;
    }
}

/// A row of patches has one entry for each column.
pub proof fn lemma_patch_row_len(fi: int, py: int, cols: int)
    requires
        0 <= cols,
    ensures
        patch_row(fi, py, cols).len() == cols,
    decreases cols,
{
    if cols > 0 {
        lemma_patch_row_len(fi, py, cols - 1);
    }
}

/// The list of patches of the first `n` faces has `patch_total` entries.
pub proof fn lemma_level_patches_len(g: Geometry, n: int)
    requires
        0 <= n <= g.faces@.len(),
    ensures
        level_patches(g, n).len() == patch_total(g.faces@, n),
    decreases n,
{
    if n > 0 {
        lemma_level_patches_len(g, n - 1);
        let face = g.faces@[n - 1];
        if face.type_draw == PATCH {
            lemma_patch_rows_len(
                n - 1,
                patches_along(face.size[0] as int),
                patches_along(face.size[1] as int),
            );
            assert(patches_along(face.size[1] as int) * patches_along(face.size[0] as int)
                == patches_along(face.size[0] as int) * patches_along(face.size[1] as int))
                by (nonlinear_arith);
        }
    }
}

fn patches_along_of(size: i32) -> (n: u64)
    ensures
        n == patches_along(size as int),
        n <= 0x4000_0000,
{
    if size >= 3 {
        ((size - 1) / 2) as u64
    } else {
        0
    }
}

fn patch_count_of(face: &Face) -> (n: u64)
    ensures
        n == patch_count(*face),
        n <= 0x1000_0000_0000_0000,
{
    if face.type_draw == PATCH {
        let a: u64 = patches_along_of(face.size[0]);
        let b: u64 = patches_along_of(face.size[1]);
        assert(a * b <= 0x4000_0000 * 0x4000_0000) by (nonlinear_arith)
            requires
                a <= 0x4000_0000,
                b <= 0x4000_0000,
        ;
        a * b
    } else {
        0
    }
}

fn is_flat_face(face: &Face) -> (r: bool)
    ensures
        r == is_flat(*face),
{
    (face.type_draw == POLYGON || face.type_draw == MESH) && face.num_mesh_verts > 0
}

/// The row of buckets of a face.
pub fn lightmap_bucket_of(g: &Geometry, face: &Face) -> (lm: usize)
    ensures
        lm == lightmap_bucket(*g, *face),
{
    if face.lightmap_index >= 0 && (face.lightmap_index as usize) < g.light_maps.len() {
        face.lightmap_index as usize
    } else {
        g.light_maps.len()
    }
}

fn check_face(g: &Geometry, face: &Face) -> (r: bool)
    ensures
        r == face_ok(*g, *face),
{
    let np: u64 = patch_count_of(face);
    let flat: bool = is_flat_face(face);
    if (flat || np > 0) && !(face.texture >= 0 && (face.texture as usize) < g.textures.len()) {
        return false;
    }
    if flat {
        if face.mesh_vert < 0 {
            return false;
        }
        if face.mesh_vert as u64 + face.num_mesh_verts as u64 > g.mesh_verts.len() as u64 {
            return false;
        }
        let first: usize = face.mesh_vert as usize;
        let count: usize = face.num_mesh_verts as usize;
        let mut j: usize = 0;
        while j < count
            invariant
                j <= count,
                count == face.num_mesh_verts,
                first == face.mesh_vert,
                first + count <= g.mesh_verts@.len(),
                is_flat(*face),
                forall|k: int|
                    0 <= k < j ==> 0 <= face.vertex + (#[trigger] g.mesh_verts@[face.mesh_vert
                        + k]).offset < g.vertexes@.len(),
            decreases count - j,
        {
            let v: i64 = face.vertex as i64 + g.mesh_verts[first + j].offset as i64;
            if v < 0 || v as u64 >= g.vertexes.len() as u64 {
                assert(!(0 <= face.vertex + g.mesh_verts@[face.mesh_vert + j].offset
                    < g.vertexes@.len()));
                return false;
            }
            j = j + 1;
        }
    }
    if np > 0 {
        if face.vertex < 0 {
            return false;
        }
        let s0: i64 = face.size[0] as i64;
        let s1: i64 = face.size[1] as i64;
        assert(0 <= s0 * s1 <= 0x8000_0000 * 0x8000_0000) by (nonlinear_arith)
            requires
                0 <= s0 <= 0x8000_0000,
                0 <= s1 <= 0x8000_0000,
        ;
        if face.num_vertexes as i64 != s0 * s1 {
            return false;
        }
        if face.num_vertexes < 0 {
            return false;
        }
        if face.vertex as u64 + face.num_vertexes as u64 > g.vertexes.len() as u64 {
            return false;
        }
    }
    true
}

/// Whether every face of the level is in order.
pub fn check_faces(g: &Geometry) -> (r: bool)
    ensures
        r == faces_ok(*g),
{
    let mut i: usize = 0;
    while i < g.faces.len()
        invariant
            i <= g.faces@.len(),
            forall|k: int| 0 <= k < i ==> face_ok(*g, #[trigger] g.faces@[k]),
        decreases g.faces@.len() - i,
    {
        if !check_face(g, &g.faces[i]) {
            return false;
        }
        i = i + 1;
    }
    true
}

/// Whether the vertices of the level, those of the grids of its patches
/// included, can be indexed with 32 bits.
pub fn check_vertex_total(g: &Geometry) -> (r: bool)
    ensures
        r == (vertex_total(*g) <= u32::MAX),
{
    proof {
        lemma_patch_total_grows(g.faces@, 0, g.faces@.len() as int);
        lemma_level_grid();
    }
    if g.vertexes.len() as u64 > u32::MAX as u64 {
        return false;
    }
    let room: u64 = (u32::MAX as u64 - g.vertexes.len() as u64) / 36;
    let mut sum: u64 = 0;
    let mut i: usize = 0;
    while i < g.faces.len()
        invariant
            i <= g.faces@.len(),
            sum == patch_total(g.faces@, i as int),
            sum <= room,
            room == (u32::MAX - g.vertexes@.len()) / 36,
            g.vertexes@.len() <= u32::MAX,
            patch_vertex_count(BEZIER_LEVEL as int) == 36,
        decreases g.faces@.len() - i,
    {
        let np: u64 = patch_count_of(&g.faces[i]);
        if np > room - sum {
            proof {
                lemma_patch_total_grows(g.faces@, i + 1, g.faces@.len() as int);
            }
            return false;
        }
        sum = sum + np;
        i = i + 1;
    }
    true
}

/// Appends the indices of a flat face.
fn push_flat(local: &mut Vec<u32>, g: &Geometry, face: &Face)
    requires
        is_flat(*face),
        face_ok(*g, *face),
        g.vertexes@.len() <= u32::MAX,
    ensures
        ints(final(local)@) == ints(old(local)@) + flat_indices(*g, *face),
{
    let ghost before = ints(local@);
    let first: usize = face.mesh_vert as usize;
    let count: usize = face.num_mesh_verts as usize;
    let mut j: usize = 0;
    assert(ints(local@) =~= before + flat_indices(*g, *face).subrange(0, 0));
    while j < count
        invariant
            j <= count,
            count == face.num_mesh_verts,
            first == face.mesh_vert,
            is_flat(*face),
            face_ok(*g, *face),
            g.vertexes@.len() <= u32::MAX,
            ints(local@) == before + flat_indices(*g, *face).subrange(0, j as int),
        decreases count - j,
    {
        let ghost mv = g.mesh_verts@[face.mesh_vert + j];
        let v: i64 = face.vertex as i64 + g.mesh_verts[first + j].offset as i64;
        assert(0 <= face.vertex + mv.offset < g.vertexes@.len());
        proof {
            lemma_ints_push(local@, v as u32);
        }
        local.push(v as u32);
        assert(flat_indices(*g, *face).subrange(0, j + 1) =~= flat_indices(
            *g,
            *face,
        ).subrange(0, j as int).push(v as int));
        assert(ints(local@) =~= before + flat_indices(*g, *face).subrange(0, j + 1));
        j = j + 1;
    }
    assert(flat_indices(*g, *face).subrange(0, count as int) =~= flat_indices(*g, *face));
}

/// Appends the triangle list of one patch whose grid starts at `first`.
fn push_shifted(local: &mut Vec<u32>, template: &Vec<u32>, first: u32)
    requires
        ints(template@) == patch_indices(BEZIER_LEVEL as int),
        first + patch_vertex_count(BEZIER_LEVEL as int) <= u32::MAX,
    ensures
        ints(final(local)@) == ints(old(local)@) + shifted(
            patch_indices(BEZIER_LEVEL as int),
            first as int,
        ),
{
    let ghost before = ints(local@);
    let ghost whole = shifted(patch_indices(BEZIER_LEVEL as int), first as int);
    proof {
        lemma_patch_counts(BEZIER_LEVEL as int);
    }
    let mut t: usize = 0;
    assert(ints(local@) =~= before + whole.subrange(0, 0));
    while t < template.len()
        invariant
            t <= template@.len(),
            ints(template@) == patch_indices(BEZIER_LEVEL as int),
            first + patch_vertex_count(BEZIER_LEVEL as int) <= u32::MAX,
            whole == shifted(patch_indices(BEZIER_LEVEL as int), first as int),
            forall|k: int|
                0 <= k < patch_indices(BEZIER_LEVEL as int).len() ==> 0 <= (
                #[trigger] patch_indices(BEZIER_LEVEL as int)[k]) < patch_vertex_count(
                    BEZIER_LEVEL as int,
                ),
            ints(local@) == before + whole.subrange(0, t as int),
        decreases template@.len() - t,
    {
        let x: u32 = template[t];
        assert(ints(template@)[t as int] == x);
        assert(patch_indices(BEZIER_LEVEL as int)[t as int] == x);
        proof {
            lemma_ints_push(local@, (first + x) as u32);
        }
        local.push(first + x);
        assert(whole.subrange(0, t + 1) =~= whole.subrange(0, t as int).push(first + x));
        assert(ints(local@) =~= before + whole.subrange(0, t + 1));
        t = t + 1;
    }
    assert(whole.subrange(0, template@.len() as int) =~= whole);
}

/// The patch in column `px`, row `py` of face `fi`, as patch number `q` of
/// the level.
fn make_patch(g: &Geometry, fi: usize, px: u64, py: u64, q: u64) -> (patch: Patch)
    requires
        fi < g.faces@.len(),
        face_ok(*g, g.faces@[fi as int]),
        g.faces@[fi as int].type_draw == PATCH,
        px < patches_along(g.faces@[fi as int].size[0] as int),
        py < patches_along(g.faces@[fi as int].size[1] as int),
        g.vertexes@.len() + (q + 1) * patch_vertex_count(BEZIER_LEVEL as int) <= u32::MAX,
    ensures
        patch_is(*g, patch, q as int, (fi as int, px as int, py as int)),
{
    let face: &Face = &g.faces[fi];
    let s0: u64 = face.size[0] as u64;
    let s1: u64 = face.size[1] as u64;
    let ghost npx = patches_along(face.size[0] as int);
    let ghost npy = patches_along(face.size[1] as int);
    assert(patch_count(*face) > 0) by (nonlinear_arith)
        requires
            patch_count(*face) == npx * npy,
            px < npx,
            py < npy,
    ;
    assert((2 * py + 2) * s0 + 2 * px + 2 < s0 * s1 && (2 * py + 1) * s0 == 2 * py * s0 + s0 && (2
        * py + 2) * s0 == 2 * py * s0 + 2 * s0 && (2 * py + 0) * s0 == 2 * py * s0 && 0 <= 2 * py
        * s0) by (nonlinear_arith)
        requires
            2 * py + 2 <= s1 - 1,
            2 * px + 2 <= s0 - 1,
            3 <= s0,
    ;
    let row0: u64 = face.vertex as u64 + 2 * py * s0 + 2 * px;
    let row1: u64 = row0 + s0;
    let row2: u64 = row1 + s0;
    let control: [u32; 9] = [
        row0 as u32,
        (row0 + 1) as u32,
        (row0 + 2) as u32,
        row1 as u32,
        (row1 + 1) as u32,
        (row1 + 2) as u32,
        row2 as u32,
        (row2 + 1) as u32,
        (row2 + 2) as u32,
    ];
    proof {
        lemma_level_grid();
        let n = patch_vertex_count(BEZIER_LEVEL as int);
        assert((q + 1) * n == 36 * q + 36 && q * n == 36 * q) by (nonlinear_arith)
            requires
                n == 36,
        ;
    }
    let first_vertex: u32 = (g.vertexes.len() as u64 + q * 36) as u32;
    let patch = Patch { face: fi, control, first_vertex };
    assert forall|k: int| 0 <= k < 9 implies #[trigger] patch.control[k] == control_index(
        *face,
        px as int,
        py as int,
        k,
    ) && patch.control[k] < g.vertexes@.len() by {
        if k == 0 {
        } else if k == 1 {
        } else if k == 2 {
        } else if k == 3 {
        } else if k == 4 {
        } else if k == 5 {
        } else if k == 6 {
        } else if k == 7 {
        } else {
        }
    }
    patch
}

/// Appends the patches of a face that has some, and the indices of their
/// grids.
fn push_patches(
    local: &mut Vec<u32>,
    patches: &mut Vec<Patch>,
    g: &Geometry,
    fi: usize,
    template: &Vec<u32>,
)
    requires
        fi < g.faces@.len(),
        face_ok(*g, g.faces@[fi as int]),
        patch_count(g.faces@[fi as int]) > 0,
        vertex_total(*g) <= u32::MAX,
        ints(template@) == patch_indices(BEZIER_LEVEL as int),
        patches_match(*g, old(patches)@, fi as int),
    ensures
        patches_match(*g, final(patches)@, fi + 1),
        ints(final(local)@) == ints(old(local)@) + patch_run(
            g.vertexes@.len() + patch_total(g.faces@, fi as int) * patch_vertex_count(
                BEZIER_LEVEL as int,
            ),
            patch_count(g.faces@[fi as int]),
            BEZIER_LEVEL as int,
        ),
{
    let face: &Face = &g.faces[fi];
    let npx: u64 = patches_along_of(face.size[0]);
    let npy: u64 = patches_along_of(face.size[1]);
    let ghost before = ints(local@);
    let ghost earlier = level_patches(*g, fi as int);
    let ghost pvc = patch_vertex_count(BEZIER_LEVEL as int);
    let ghost first0 = g.vertexes@.len() + patch_total(g.faces@, fi as int) * pvc;
    proof {
        lemma_level_grid();
        lemma_level_patches_len(*g, fi as int);
        lemma_patch_total_grows(g.faces@, fi + 1, g.faces@.len() as int);
        lemma_patch_total_grows(g.faces@, 0, fi as int);
        assert(earlier + patch_rows(fi as int, npx as int, 0) + patch_row(fi as int, 0, 0)
            =~= earlier);
        assert(ints(local@) =~= before + patch_run(first0, 0, BEZIER_LEVEL as int));
    }
    let mut done: u64 = 0;
    let mut py: u64 = 0;
    while py < npy
        invariant
            py <= npy,
            fi < g.faces@.len(),
            face_ok(*g, g.faces@[fi as int]),
            g.faces@[fi as int].type_draw == PATCH,
            npx == patches_along(g.faces@[fi as int].size[0] as int),
            npy == patches_along(g.faces@[fi as int].size[1] as int),
            patch_count(g.faces@[fi as int]) == npx * npy,
            vertex_total(*g) <= u32::MAX,
            0 <= patch_total(g.faces@, fi as int),
            patch_total(g.faces@, fi as int) + npx * npy <= patch_total(
                g.faces@,
                g.faces@.len() as int,
            ),
            ints(template@) == patch_indices(BEZIER_LEVEL as int),
            earlier == level_patches(*g, fi as int),
            earlier.len() == patch_total(g.faces@, fi as int),
            pvc == patch_vertex_count(BEZIER_LEVEL as int),
            pvc == 36,
            first0 == g.vertexes@.len() + patch_total(g.faces@, fi as int) * pvc,
            done == py * npx,
            places_match(
                *g,
                patches@,
                earlier + patch_rows(fi as int, npx as int, py as int) + patch_row(
                    fi as int,
                    py as int,
                    0,
                ),
            ),
            ints(local@) == before + patch_run(first0, done as int, BEZIER_LEVEL as int),
        decreases npy - py,
    {
        let mut px: u64 = 0;
        assert(py * npx + npx == (py + 1) * npx && (py + 1) * npx <= npy * npx && npy * npx == npx
            * npy) by (nonlinear_arith)
            requires
                py < npy,
                0 <= npx,
        ;
        while px < npx
            invariant
                px <= npx,
                py < npy,
                fi < g.faces@.len(),
                face_ok(*g, g.faces@[fi as int]),
                g.faces@[fi as int].type_draw == PATCH,
                npx == patches_along(g.faces@[fi as int].size[0] as int),
                npy == patches_along(g.faces@[fi as int].size[1] as int),
                vertex_total(*g) <= u32::MAX,
                0 <= patch_total(g.faces@, fi as int),
                patch_total(g.faces@, fi as int) + npx * npy <= patch_total(
                    g.faces@,
                    g.faces@.len() as int,
                ),
                py * npx + npx <= npx * npy,
                ints(template@) == patch_indices(BEZIER_LEVEL as int),
                earlier == level_patches(*g, fi as int),
                earlier.len() == patch_total(g.faces@, fi as int),
                pvc == patch_vertex_count(BEZIER_LEVEL as int),
                pvc == 36,
                first0 == g.vertexes@.len() + patch_total(g.faces@, fi as int) * pvc,
                done == py * npx + px,
                places_match(
                    *g,
                    patches@,
                    earlier + patch_rows(fi as int, npx as int, py as int) + patch_row(
                        fi as int,
                        py as int,
                        px as int,
                    ),
                ),
                ints(local@) == before + patch_run(first0, done as int, BEZIER_LEVEL as int),
            decreases npx - px,
        {
            let ghost places = earlier + patch_rows(fi as int, npx as int, py as int) + patch_row(
                fi as int,
                py as int,
                px as int,
            );
            proof {
                lemma_patch_rows_len(fi as int, npx as int, py as int);
                lemma_patch_row_len(fi as int, py as int, px as int);
                let total = patch_total(g.faces@, g.faces@.len() as int);
                let here = patch_total(g.faces@, fi as int);
                assert((here + done + 1) * pvc <= total * pvc && (here + done + 1) * pvc == here
                    * pvc + done * pvc + pvc && done * pvc == 36 * done) by (nonlinear_arith)
                    requires
                        here + done + 1 <= total,
                        pvc == 36,
                ;
            }
            let q: u64 = patches.len() as u64;
            assert(q == patch_total(g.faces@, fi as int) + done);
            let patch = make_patch(g, fi, px, py, q);
            patches.push(patch);
            push_shifted(local, template, patch.first_vertex);
            proof {
                assert(patch_row(fi as int, py as int, px + 1) == patch_row(
                    fi as int,
                    py as int,
                    px as int,
                ).push((fi as int, px as int, py as int)));
                assert(earlier + patch_rows(fi as int, npx as int, py as int) + patch_row(
                    fi as int,
                    py as int,
                    px + 1,
                ) =~= places.push((fi as int, px as int, py as int)));
                assert(patch.first_vertex == first0 + done * pvc);
                assert(ints(local@) =~= before + patch_run(
                    first0,
                    done + 1,
                    BEZIER_LEVEL as int,
                ));
            }
            px = px + 1;
            done = done + 1;
        }
        proof {
            assert(earlier + patch_rows(fi as int, npx as int, py + 1) + patch_row(
                fi as int,
                py + 1,
                0,
            ) =~= earlier + patch_rows(fi as int, npx as int, py as int) + patch_row(
                fi as int,
                py as int,
                npx as int,
            ));
        }
        py = py + 1;
    }
    proof {
        assert(done == npx * npy) by (nonlinear_arith)
            requires
                done == py * npx,
                py == npy,
        ;
        assert(earlier + patch_rows(fi as int, npx as int, npy as int) + patch_row(
            fi as int,
            npy as int,
            0,
        ) =~= level_patches(*g, fi + 1));
    }
}

/// Rows of empty buckets: one row for each light map and one more, one
/// bucket for each texture.
fn empty_buckets(light_maps: usize, textures: usize) -> (buckets: Vec<Vec<Vec<u32>>>)
    ensures
        buckets@.len() == light_maps + 1,
        forall|lm: int| 0 <= lm < buckets@.len() ==> (#[trigger] buckets@[lm])@.len() == textures,
        forall|lm: int, tex: int|
            0 <= lm < buckets@.len() && 0 <= tex < textures ==> (
            #[trigger] buckets@[lm]@[tex])@.len() == 0,
{
    let mut buckets: Vec<Vec<Vec<u32>>> = Vec::new();
    let mut lm: usize = 0;
    loop
        invariant_except_break
            lm <= light_maps,
            buckets@.len() == lm,
        invariant
            forall|l: int| 0 <= l < buckets@.len() ==> (#[trigger] buckets@[l])@.len() == textures,
            forall|l: int, t: int|
                0 <= l < buckets@.len() && 0 <= t < textures ==> (#[trigger] buckets@[l]@[t])@.len()
                    == 0,
        ensures
            buckets@.len() == light_maps + 1,
        decreases light_maps - lm,
    {
        let mut row: Vec<Vec<u32>> = Vec::new();
        let mut tex: usize = 0;
        while tex < textures
            invariant
                tex <= textures,
                row@.len() == tex,
                forall|t: int| 0 <= t < row@.len() ==> (#[trigger] row@[t])@.len() == 0,
            decreases textures - tex,
        {
            row.push(Vec::new());
            tex = tex + 1;
        }
        buckets.push(row);
        if lm == light_maps {
            break ;
        }
        lm = lm + 1;
    }
    buckets
}

/// Takes a bucket out of its place and leaves an empty one there.
fn take_bucket(buckets: &mut Vec<Vec<Vec<u32>>>, lm: usize, tex: usize) -> (local: Vec<u32>)
    requires
        lm < old(buckets)@.len(),
        tex < old(buckets)@[lm as int]@.len(),
    ensures
        local == old(buckets)@[lm as int]@[tex as int],
        final(buckets)@.len() == old(buckets)@.len(),
        forall|l: int|
            0 <= l < old(buckets)@.len() && l != lm ==> #[trigger] final(buckets)@[l]
                == old(buckets)@[l],
        final(buckets)@[lm as int]@.len() == old(buckets)@[lm as int]@.len(),
        forall|t: int|
            0 <= t < old(buckets)@[lm as int]@.len() && t != tex
                ==> #[trigger] final(buckets)@[lm as int]@[t] == old(buckets)@[lm as int]@[t],
{
    let mut local: Vec<u32> = Vec::new();
    core::mem::swap(&mut buckets[lm][tex], &mut local);
    local
}

/// Puts a bucket into its place.
fn put_bucket(buckets: &mut Vec<Vec<Vec<u32>>>, lm: usize, tex: usize, local: Vec<u32>)
    requires
        lm < old(buckets)@.len(),
        tex < old(buckets)@[lm as int]@.len(),
    ensures
        final(buckets)@[lm as int]@[tex as int] == local,
        final(buckets)@.len() == old(buckets)@.len(),
        forall|l: int|
            0 <= l < old(buckets)@.len() && l != lm ==> #[trigger] final(buckets)@[l]
                == old(buckets)@[l],
        final(buckets)@[lm as int]@.len() == old(buckets)@[lm as int]@.len(),
        forall|t: int|
            0 <= t < old(buckets)@[lm as int]@.len() && t != tex
                ==> #[trigger] final(buckets)@[lm as int]@[t] == old(buckets)@[lm as int]@[t],
{
    let mut local = local;
    core::mem::swap(&mut buckets[lm][tex], &mut local);
}

/// Routes every face of a level into its bucket and lists the patches.
///
/// A flat polygon or indexed mesh adds its first vertex plus each of its
/// mesh vertex offsets. A curved patch surface adds, for each of its
/// patches, the triangle list of a grid whose vertices follow those of
/// the file, one grid after the other in the order of the patches. Other
/// faces add nothing.
pub fn build_buckets(g: &Geometry) -> (r: (Vec<Vec<Vec<u32>>>, Vec<Patch>))
    requires
        faces_ok(*g),
        vertex_total(*g) <= u32::MAX,
    ensures
        buckets_match(*g, r.0@, g.faces@.len() as int),
        patches_match(*g, r.1@, g.faces@.len() as int),
{
    let template: Vec<u32> = tessellation_indices(BEZIER_LEVEL);
    let mut buckets: Vec<Vec<Vec<u32>>> = empty_buckets(g.light_maps.len(), g.textures.len());
    let mut patches: Vec<Patch> = Vec::new();
    let mut i: usize = 0;
    proof {
        lemma_patch_total_grows(g.faces@, 0, g.faces@.len() as int);
        assert forall|lm: int, tex: int|
            0 <= lm < buckets@.len() && 0 <= tex < g.textures@.len() implies ints(
            #[trigger] buckets@[lm]@[tex]@,
        ) == bucket_indices(*g, lm, tex, 0) by {
            assert(ints(buckets@[lm]@[tex]@) =~= Seq::<int>::empty());
        }
    }
    while i < g.faces.len()
        invariant
            i <= g.faces@.len(),
            faces_ok(*g),
            vertex_total(*g) <= u32::MAX,
            g.vertexes@.len() <= u32::MAX,
            ints(template@) == patch_indices(BEZIER_LEVEL as int),
            buckets_match(*g, buckets@, i as int),
            patches_match(*g, patches@, i as int),
        decreases g.faces@.len() - i,
    {
        let face: &Face = &g.faces[i];
        let np: u64 = patch_count_of(face);
        let flat: bool = is_flat_face(face);
        let ghost old_buckets = buckets@;
        if flat || np > 0 {
            let lm: usize = lightmap_bucket_of(g, face);
            let tex: usize = face.texture as usize;
            let mut local: Vec<u32> = take_bucket(&mut buckets, lm, tex);
            if flat {
                push_flat(&mut local, g, face);
                proof {
                    assert(np == 0);
                    lemma_face_without_patches(*g, i as int);
                }
            } else {
                push_patches(&mut local, &mut patches, g, i, &template);
            }
            put_bucket(&mut buckets, lm, tex, local);
            assert(ints(local@) == bucket_indices(*g, lm as int, tex as int, i + 1));
            assert forall|l: int, t: int|
                0 <= l < buckets@.len() && 0 <= t < g.textures@.len() implies ints(
                #[trigger] buckets@[l]@[t]@,
            ) == bucket_indices(*g, l, t, i + 1) by {
                if l == lm && t == tex {
                } else {
                    assert(!routed(*g, *face, l, t));
                    if l == lm {
                        assert(buckets@[l]@[t] == old_buckets[l]@[t]);
                    } else {
                        assert(buckets@[l] == old_buckets[l]);
                    }
                }
            }
        } else {
            proof {
                lemma_face_without_patches(*g, i as int);
            }
        }
        i = i + 1;
    }
    (buckets, patches)
}

/// A face without patches adds none to the list of patches.
proof fn lemma_face_without_patches(g: Geometry, fi: int)
    requires
        0 <= fi < g.faces@.len(),
        patch_count(g.faces@[fi]) == 0,
    ensures
        level_patches(g, fi + 1) == level_patches(g, fi),
{
    let face = g.faces@[fi];
    if face.type_draw == PATCH {
        let npx = patches_along(face.size[0] as int);
        let npy = patches_along(face.size[1] as int);
        lemma_patch_rows_len(fi, npx, npy);
        assert(npy * npx == npx * npy) by (nonlinear_arith);
        assert(patch_rows(fi, npx, npy) =~= Seq::empty());
    }
    assert(level_patches(g, fi + 1) =~= level_patches(g, fi));
}

/// Indices of one patch of the level in use: three for each of its triangles.
pub open spec fn patch_index_count() -> int {
    3 * (2 * BEZIER_LEVEL * BEZIER_LEVEL)
}

/// Indices that a face adds to its bucket: three for each of its triangles.
pub open spec fn face_index_count(face: Face) -> int {
    if is_flat(face) {
        face.num_mesh_verts as int
    } else {
        patch_count(face) * patch_index_count()
    }
}

/// Indices that the first `n` faces route to the bucket `(lm, tex)`.
pub open spec fn routed_count(g: Geometry, lm: int, tex: int, n: int) -> int
    decreases n,
{
    if n <= 0 {
        0
    } else if routed(g, g.faces@[n - 1], lm, tex) {
        routed_count(g, lm, tex, n - 1) + face_index_count(g.faces@[n - 1])
    } else {
        routed_count(g, lm, tex, n - 1)
    }
}

/// The indices of patches in a row number `count` times those of one patch.
pub proof fn lemma_patch_run_len(first: int, count: int, level: int)
    requires
        0 <= count,
    ensures
        patch_run(first, count, level).len() == count * patch_indices(level).len(),
    decreases count,
{
    if count > 0 {
        lemma_patch_run_len(first, count - 1, level);
        assert(count * patch_indices(level).len() == (count - 1) * patch_indices(level).len()
            + patch_indices(level).len()) by (nonlinear_arith);
    } else {
        assert(count * patch_indices(level).len() == 0) by (nonlinear_arith)
            requires
                count == 0,
        ;
    }
}

/// A face adds three indices for each of its triangles: a flat face its
/// mesh vertices, a curved one `2 * level * level` triangles for each patch.
pub proof fn lemma_face_indices_len(g: Geometry, i: int)
    requires
        0 <= i < g.faces@.len(),
    ensures
        face_indices(g, i).len() == face_index_count(g.faces@[i]),
{
    let face = g.faces@[i];
    if !is_flat(face) {
        let a = patches_along(face.size[0] as int);
        let b = patches_along(face.size[1] as int);
        assert(0 <= a * b) by (nonlinear_arith)
            requires
                0 <= a,
                0 <= b,
        ;
        lemma_patch_run_len(
            g.vertexes@.len() + patch_total(g.faces@, i) * patch_vertex_count(BEZIER_LEVEL as int),
            patch_count(face),
            BEZIER_LEVEL as int,
        );
        lemma_patch_counts(BEZIER_LEVEL as int);
    }
}

/// A bucket holds exactly the indices of the faces routed to it: its length
/// is the sum, over those faces, of three times their triangles.
pub proof fn lemma_bucket_len(g: Geometry, lm: int, tex: int, n: int)
    requires
        0 <= n <= g.faces@.len(),
    ensures
        bucket_indices(g, lm, tex, n).len() == routed_count(g, lm, tex, n),
    decreases n,
{
    if n > 0 {
        lemma_bucket_len(g, lm, tex, n - 1);
        lemma_face_indices_len(g, n - 1);
    }
}

/// Every index of a run of patches names a vertex of one of their grids.
pub proof fn lemma_patch_run_range(first: int, count: int, level: int, k: int)
    requires
        1 <= level,
        0 <= count,
        0 <= first,
        0 <= k < patch_run(first, count, level).len(),
    ensures
        first <= patch_run(first, count, level)[k] < first + count * patch_vertex_count(level),
    decreases count,
{
    let before = patch_run(first, count - 1, level);
    let last = shifted(patch_indices(level), first + (count - 1) * patch_vertex_count(level));
    lemma_patch_counts(level);
    assert(count * patch_vertex_count(level) == (count - 1) * patch_vertex_count(level)
        + patch_vertex_count(level) && 0 <= (count - 1) * patch_vertex_count(level))
        by (nonlinear_arith)
        requires
            count >= 1,
            patch_vertex_count(level) >= 0,
    ;
    if k < before.len() {
        lemma_patch_run_range(first, count - 1, level, k);
        assert((before + last)[k] == before[k]);
    } else {
        assert((before + last)[k] == last[k - before.len()]);
    }
}

/// Every index of every bucket names a vertex of the level: one of the
/// file or one of the grid of a patch.
pub proof fn lemma_indices_in_range(g: Geometry, lm: int, tex: int, n: int, k: int)
    requires
        faces_ok(g),
        0 <= n <= g.faces@.len(),
        0 <= k < bucket_indices(g, lm, tex, n).len(),
    ensures
        0 <= bucket_indices(g, lm, tex, n)[k] < vertex_total(g),
    decreases n,
{
    let before = bucket_indices(g, lm, tex, n - 1);
    let face = g.faces@[n - 1];
    lemma_patch_total_grows(g.faces@, 0, g.faces@.len() as int);
    lemma_level_grid();
    let pvc = patch_vertex_count(BEZIER_LEVEL as int);
    assert(0 <= patch_total(g.faces@, g.faces@.len() as int) * pvc) by (nonlinear_arith)
        requires
            0 <= patch_total(g.faces@, g.faces@.len() as int),
            0 <= pvc,
    ;
    if routed(g, face, lm, tex) && k >= before.len() {
        let j = k - before.len();
        assert((before + face_indices(g, n - 1))[k] == face_indices(g, n - 1)[j]);
        assert(face_ok(g, face));
        if is_flat(face) {
            assert(0 <= face.vertex + g.mesh_verts@[face.mesh_vert + j].offset < g.vertexes@.len());
        } else {
            let first = g.vertexes@.len() + patch_total(g.faces@, n - 1) * pvc;
            lemma_patch_total_grows(g.faces@, 0, n - 1);
            lemma_patch_total_grows(g.faces@, n, g.faces@.len() as int);
            let a = patches_along(face.size[0] as int);
            let b = patches_along(face.size[1] as int);
            assert(0 <= a * b) by (nonlinear_arith)
                requires
                    0 <= a,
                    0 <= b,
            ;
            assert(0 <= patch_total(g.faces@, n - 1) * pvc && (patch_total(g.faces@, n - 1)
                + patch_count(face)) * pvc == patch_total(g.faces@, n - 1) * pvc + patch_count(face)
                * pvc && patch_total(g.faces@, n) * pvc <= patch_total(
                g.faces@,
                g.faces@.len() as int,
            ) * pvc) by (nonlinear_arith)
                requires
                    0 <= patch_total(g.faces@, n - 1),
                    patch_total(g.faces@, n) <= patch_total(g.faces@, g.faces@.len() as int),
                    0 <= pvc,
            ;
            lemma_patch_run_range(first, patch_count(face), BEZIER_LEVEL as int, j);
        }
    } else {
        lemma_indices_in_range(g, lm, tex, n - 1, k);
        if routed(g, face, lm, tex) {
            assert((before + face_indices(g, n - 1))[k] == before[k]);
        }
    }
}

} // verus!

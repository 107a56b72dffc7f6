//! The grid of vertices of a curved patch.
//!
//! A patch has nine control vertices, three rows of three. A curve through
//! three values starts at the first, ends at the third and is drawn towards
//! the second between them. The grid of a patch samples a curve of curves:
//! one curve down each column of the control values, and for each sample
//! along the columns one curve across. What a curve is between its ends is
//! for the caller to compute; this module says which curves are sampled,
//! and how the samples make up the vertices.

use vstd::prelude::*;
use crate::geometry::{Geometry, Vertex};
use crate::grid::{
    ints, lemma_level_grid, lemma_patch_counts, patch_indices, patch_vertex_count,
    tessellation_indices, BEZIER_LEVEL, MAX_LEVEL,
};
use crate::mesh::Patch;
use crate::scalar::{lemma_byte_round_trip, Scalar};

verus! {

/// Number of the values that are interpolated for each vertex: three of
/// the position, two of each pair of texture coordinates, and the first
/// three of the colour.
pub const CHANNELS: usize = 10;

/// Whether the function that samples curves accepts every input.
pub open spec fn samples_all<F: Fn(u32, u32, Scalar, Scalar, Scalar) -> Scalar>(f: &F) -> bool {
    forall|level: u32, k: u32, start: Scalar, mid: Scalar, end: Scalar|
        call_requires(*f, (level, k, start, mid, end))
}

/// Whether `out` holds the samples of the curve through `start`, `mid` and
/// `end`: the curve starts at `start` and ends at `end` exactly, and sample
/// `k` of a curve with `level` steps is what `f` gives for it.
pub open spec fn curve_ok<F: Fn(u32, u32, Scalar, Scalar, Scalar) -> Scalar>(
    f: &F,
    level: u32,
    start: Scalar,
    mid: Scalar,
    end: Scalar,
    out: Seq<Scalar>,
) -> bool {
    &&& out.len() == level + 1
    &&& out[0] == start
    &&& out[level as int] == end
    &&& forall|k: int|
        1 <= k < level ==> call_ensures(*f, (level, k as u32, start, mid, end), #[trigger] out[k])
}

/// Samples the curve through `start`, `mid` and `end` at `level + 1` places.
pub fn tessellate<F: Fn(u32, u32, Scalar, Scalar, Scalar) -> Scalar>(
    level: u32,
    start: Scalar,
    mid: Scalar,
    end: Scalar,
    f: &F,
) -> (out: Vec<Scalar>)
    requires
        1 <= level <= MAX_LEVEL,
        samples_all(f),
    ensures
        curve_ok(f, level, start, mid, end, out@),
{
    let mut out: Vec<Scalar> = Vec::new();
    out.push(start);
    let mut k: u32 = 1;
    while k < level
        invariant
            1 <= k <= level,
            out@.len() == k,
            out@[0] == start,
            samples_all(f),
            forall|j: int|
                1 <= j < k ==> call_ensures(
                    *f,
                    (level, j as u32, start, mid, end),
                    #[trigger] out@[j],
                ),
        decreases level - k,
    {
        let v: Scalar = f(level, k, start, mid, end);
        out.push(v);
        k = k + 1;
    }
    out.push(end);
    out
}

/// The rows of a table.
pub open spec fn views(rows: Seq<Vec<Scalar>>) -> Seq<Seq<Scalar>> {
    rows.map_values(|r: Vec<Scalar>| r@)
}

/// Whether `rows` holds the samples of the surface over nine control
/// values `a`, three rows of three, with the columns `cols` between:
/// column `j` is the curve through the control values of column `j`, and
/// row `i` is the curve through sample `i` of each of the three columns.
pub open spec fn surface_with<F: Fn(u32, u32, Scalar, Scalar, Scalar) -> Scalar>(
    f: &F,
    level: u32,
    a: Seq<Scalar>,
    cols: Seq<Seq<Scalar>>,
    rows: Seq<Seq<Scalar>>,
) -> bool {
    &&& cols.len() == 3
    &&& curve_ok(f, level, a[0], a[3], a[6], cols[0])
    &&& curve_ok(f, level, a[1], a[4], a[7], cols[1])
    &&& curve_ok(f, level, a[2], a[5], a[8], cols[2])
    &&& rows.len() == level + 1
    &&& forall|i: int|
        0 <= i <= level ==> curve_ok(
            f,
            level,
            cols[0][i],
            cols[1][i],
            cols[2][i],
            #[trigger] rows[i],
        )
}

/// Whether `rows` holds the samples of the surface over the control
/// values `a`.
pub open spec fn surface_ok<F: Fn(u32, u32, Scalar, Scalar, Scalar) -> Scalar>(
    f: &F,
    level: u32,
    a: Seq<Scalar>,
    rows: Seq<Seq<Scalar>>,
) -> bool {
    exists|cols: Seq<Seq<Scalar>>| surface_with(f, level, a, cols, rows)
}

/// Samples the surface over nine control values.
pub fn surface<F: Fn(u32, u32, Scalar, Scalar, Scalar) -> Scalar>(
    level: u32,
    a: &[Scalar; 9],
    f: &F,
) -> (rows: Vec<Vec<Scalar>>)
    requires
        1 <= level <= MAX_LEVEL,
        samples_all(f),
    ensures
        surface_ok(f, level, a@, views(rows@)),
{
    let col0: Vec<Scalar> = tessellate(level, a[0], a[3], a[6], f);
    let col1: Vec<Scalar> = tessellate(level, a[1], a[4], a[7], f);
    let col2: Vec<Scalar> = tessellate(level, a[2], a[5], a[8], f);
    let ghost cols: Seq<Seq<Scalar>> = seq![col0@, col1@, col2@];
    let mut rows: Vec<Vec<Scalar>> = Vec::new();
    let mut i: u32 = 0;
    while i <= level
        invariant
            i <= level + 1,
            1 <= level <= MAX_LEVEL,
            samples_all(f),
            col0@.len() == level + 1,
            col1@.len() == level + 1,
            col2@.len() == level + 1,
            rows@.len() == i,
            forall|r: int|
                0 <= r < i ==> curve_ok(
                    f,
                    level,
                    col0@[r],
                    col1@[r],
                    col2@[r],
                    (#[trigger] rows@[r])@,
                ),
        decreases level + 1 - i,
    {
        let row: Vec<Scalar> = tessellate(
            level,
            col0[i as usize],
            col1[i as usize],
            col2[i as usize],
            f,
        );
        rows.push(row);
        i = i + 1;
    }
    proof {
        assert forall|r: int| 0 <= r <= level implies curve_ok(
            f,
            level,
            cols[0][r],
            cols[1][r],
            cols[2][r],
            #[trigger] views(rows@)[r],
        ) by {
            assert(views(rows@)[r] == rows@[r]@);
        }
        assert(surface_with(f, level, a@, cols, views(rows@)));
    }
    rows
}

/// One of the interpolated values of a vertex: the first three are its
/// position, the next two its surface texture coordinates, the next two
/// its light-map texture coordinates, the last three the first three
/// parts of its colour as numbers.
pub open spec fn channel(v: Vertex, c: int) -> Scalar {
    if c < 3 {
        v.position[c]
    } else if c < 5 {
        v.texcoord_s[c - 3]
    } else if c < 7 {
        v.texcoord_l[c - 5]
    } else {
        Scalar::of_byte(v.colour[c - 7])
    }
}

/// One of the interpolated values of each of nine control vertices.
pub open spec fn control_channel(control: Seq<Vertex>, c: int) -> Seq<Scalar> {
    Seq::new(9, |k: int| channel(control[k], c))
}

/// Whether a vertex holds the sample `s` as its value number `c`: as it
/// is for positions and texture coordinates, and cut down to a whole
/// number from `0` to `255` for the colour.
pub open spec fn shows(v: Vertex, c: int, s: Scalar) -> bool {
    if c < 3 {
        v.position[c] == s
    } else if c < 5 {
        v.texcoord_s[c - 3] == s
    } else if c < 7 {
        v.texcoord_l[c - 5] == s
    } else {
        v.colour[c - 7] == s.to_byte()
    }
}

/// Whether the vertices of one row hold the samples of one row.
pub open spec fn row_shows(vs: Seq<Vertex>, c: int, row: Seq<Scalar>) -> bool {
    &&& vs.len() == row.len()
    &&& forall|j: int| 0 <= j < vs.len() ==> shows(#[trigger] vs[j], c, row[j])
}

/// Row `i` of a grid of vertices `width` wide.
pub open spec fn grid_row(verts: Seq<Vertex>, i: int, width: int) -> Seq<Vertex> {
    verts.subrange(i * width, i * width + width)
}

/// Whether the vertices of a grid hold the samples `rows` as their value
/// number `c`.
pub open spec fn grid_shows(
    verts: Seq<Vertex>,
    level: u32,
    c: int,
    rows: Seq<Seq<Scalar>>,
) -> bool {
    forall|i: int|
        0 <= i <= level ==> row_shows(grid_row(verts, i, level + 1), c, #[trigger] rows[i])
}

/// Whether `verts` is the grid of the patch with the nine control
/// vertices `control`.
///
/// The grid has `(level + 1) * (level + 1)` vertices, row by row. Each of
/// the ten interpolated values of its vertices samples the surface over
/// that value of the control vertices. Every vertex has the normal of
/// the first control vertex and the fourth part of its colour.
pub open spec fn is_grid<F: Fn(u32, u32, Scalar, Scalar, Scalar) -> Scalar>(
    f: &F,
    level: u32,
    control: Seq<Vertex>,
    verts: Seq<Vertex>,
) -> bool {
    &&& verts.len() == (level + 1) * (level + 1)
    &&& forall|p: int|
        0 <= p < verts.len() ==> (#[trigger] verts[p]).normal == control[0].normal
            && verts[p].colour[3] == control[0].colour[3]
    &&& forall|c: int| 0 <= c < CHANNELS ==> #[trigger] samples_channel(f, level, control, verts, c)
}

/// Whether value number `c` of the vertices of a grid samples the surface
/// over that value of the control vertices.
pub open spec fn samples_channel<F: Fn(u32, u32, Scalar, Scalar, Scalar) -> Scalar>(
    f: &F,
    level: u32,
    control: Seq<Vertex>,
    verts: Seq<Vertex>,
    c: int,
) -> bool {
    exists|rows: Seq<Seq<Scalar>>|
        #[trigger] surface_ok(f, level, control_channel(control, c), rows) && grid_shows(
            verts,
            level,
            c,
            rows,
        )
}

/// One of the interpolated values of a vertex.
fn channel_of(v: &Vertex, c: usize) -> (s: Scalar)
    requires
        c < CHANNELS,
    ensures
        s == channel(*v, c as int),
{
    if c < 3 {
        v.position[c]
    } else if c < 5 {
        v.texcoord_s[c - 3]
    } else if c < 7 {
        v.texcoord_l[c - 5]
    } else {
        Scalar::from_u8(v.colour[c - 7])
    }
}

/// One of the interpolated values of each of nine control vertices.
fn control_channel_of(control: &[Vertex; 9], c: usize) -> (a: [Scalar; 9])
    requires
        c < CHANNELS,
    ensures
        a@ == control_channel(control@, c as int),
{
    let a: [Scalar; 9] = [
        channel_of(&control[0], c),
        channel_of(&control[1], c),
        channel_of(&control[2], c),
        channel_of(&control[3], c),
        channel_of(&control[4], c),
        channel_of(&control[5], c),
        channel_of(&control[6], c),
        channel_of(&control[7], c),
        channel_of(&control[8], c),
    ];
    assert(a@ =~= control_channel(control@, c as int));
    a
}

/// Whether a table has `level + 1` rows of `level + 1` samples.
pub open spec fn square(rows: Seq<Vec<Scalar>>, level: u32) -> bool {
    &&& rows.len() == level + 1
    &&& forall|i: int| 0 <= i <= level ==> (#[trigger] rows[i])@.len() == level + 1
}

/// The samples of a surface form a square table.
proof fn lemma_surface_square<F: Fn(u32, u32, Scalar, Scalar, Scalar) -> Scalar>(
    f: &F,
    level: u32,
    a: Seq<Scalar>,
    rows: Seq<Vec<Scalar>>,
)
    requires
        surface_ok(f, level, a, views(rows)),
    ensures
        square(rows, level),
{
    let cols = choose|cols: Seq<Seq<Scalar>>| surface_with(f, level, a, cols, views(rows));
    assert forall|i: int| 0 <= i <= level implies (#[trigger] rows[i])@.len() == level + 1 by {
        assert(views(rows)[i] == rows[i]@);
    }
}

/// The vertex that holds one sample of each of the ten tables at `(i, j)`.
fn vertex_at(control: &[Vertex; 9], all: &Vec<Vec<Vec<Scalar>>>, i: usize, j: usize) -> (v: Vertex)
    requires
        all@.len() == CHANNELS,
        forall|c: int|
            0 <= c < CHANNELS ==> i < (#[trigger] all@[c])@.len() && j < all@[c]@[i as int]@.len(),
    ensures
        v.normal == control[0].normal,
        v.colour[3] == control[0].colour[3],
        forall|c: int|
            0 <= c < CHANNELS ==> shows(v, c, (#[trigger] all@[c])@[i as int]@[j as int]),
{
    assert(i < all@[0]@.len() && j < all@[0]@[i as int]@.len());
    assert(i < all@[1]@.len() && j < all@[1]@[i as int]@.len());
    assert(i < all@[2]@.len() && j < all@[2]@[i as int]@.len());
    assert(i < all@[3]@.len() && j < all@[3]@[i as int]@.len());
    assert(i < all@[4]@.len() && j < all@[4]@[i as int]@.len());
    assert(i < all@[5]@.len() && j < all@[5]@[i as int]@.len());
    assert(i < all@[6]@.len() && j < all@[6]@[i as int]@.len());
    assert(i < all@[7]@.len() && j < all@[7]@[i as int]@.len());
    assert(i < all@[8]@.len() && j < all@[8]@[i as int]@.len());
    assert(i < all@[9]@.len() && j < all@[9]@[i as int]@.len());
    let v = Vertex {
        position: [all[0][i][j], all[1][i][j], all[2][i][j]],
        texcoord_s: [all[3][i][j], all[4][i][j]],
        texcoord_l: [all[5][i][j], all[6][i][j]],
        normal: control[0].normal,
        colour: [
            all[7][i][j].to_u8(),
            all[8][i][j].to_u8(),
            all[9][i][j].to_u8(),
            control[0].colour[3],
        ],
    };
    assert forall|c: int| 0 <= c < CHANNELS implies shows(
        v,
        c,
        (#[trigger] all@[c])@[i as int]@[j as int],
    ) by {
        if c == 0 {
        } else if c == 1 {
        } else if c == 2 {
        } else if c == 3 {
        } else if c == 4 {
        } else if c == 5 {
        } else if c == 6 {
        } else if c == 7 {
        } else if c == 8 {
        } else {
        }
    }
    v
}

/// The grid of vertices of a patch and its triangle list.
///
/// `f` samples curves: for a curve with `level` steps through `start`, `mid`
/// and `end` it gives sample `k`, for `k` from `1` to `level - 1`.
pub fn gen_bezier_mesh<F: Fn(u32, u32, Scalar, Scalar, Scalar) -> Scalar>(
    control: &[Vertex; 9],
    level: u32,
    f: &F,
) -> (r: (Vec<Vertex>, Vec<u32>))
    requires
        1 <= level <= MAX_LEVEL,
        samples_all(f),
    ensures
        is_grid(f, level, control@, r.0@),
        ints(r.1@) == patch_indices(level as int),
        r.0@.len() == (level + 1) * (level + 1),
        r.1@.len() == 3 * (2 * level * level),
{
    proof {
        lemma_patch_counts(level as int);
    }
    (patch_vertexes(control, level, f), tessellation_indices(level))
}

/// The grid of vertices of a patch.
pub fn patch_vertexes<F: Fn(u32, u32, Scalar, Scalar, Scalar) -> Scalar>(
    control: &[Vertex; 9],
    level: u32,
    f: &F,
) -> (r: Vec<Vertex>)
    requires
        1 <= level <= MAX_LEVEL,
        samples_all(f),
    ensures
        is_grid(f, level, control@, r@),
{
    let width: usize = level as usize + 1;
    let mut all: Vec<Vec<Vec<Scalar>>> = Vec::new();
    let mut c: usize = 0;
    while c < CHANNELS
        invariant
            c <= CHANNELS,
            1 <= level <= MAX_LEVEL,
            samples_all(f),
            all@.len() == c,
            forall|d: int|
                0 <= d < c ==> surface_ok(
                    f,
                    level,
                    control_channel(control@, d),
                    views((#[trigger] all@[d])@),
                ),
        decreases CHANNELS - c,
    {
        let a: [Scalar; 9] = control_channel_of(control, c);
        let rows: Vec<Vec<Scalar>> = surface(level, &a, f);
        all.push(rows);
        c = c + 1;
    }
    proof {
        assert forall|d: int| 0 <= d < CHANNELS implies square((#[trigger] all@[d])@, level) by {
            lemma_surface_square(f, level, control_channel(control@, d), all@[d]@);
        }
    }
    let mut verts: Vec<Vertex> = Vec::new();
    let mut i: usize = 0;
    assert(0 * width == 0) by (nonlinear_arith);
    while i < width
        invariant
            i <= width,
            width == level + 1,
            1 <= level <= MAX_LEVEL,
            all@.len() == CHANNELS,
            forall|d: int| 0 <= d < CHANNELS ==> square((#[trigger] all@[d])@, level),
            verts@.len() == i * width,
            forall|p: int|
                0 <= p < verts@.len() ==> (#[trigger] verts@[p]).normal == control[0].normal
                    && verts@[p].colour[3] == control[0].colour[3],
            forall|d: int, r: int|
                0 <= d < CHANNELS && 0 <= r < i ==> row_shows(
                    grid_row(verts@, r, width as int),
                    d,
                    (#[trigger] all@[d]@[r])@,
                ),
        decreases width - i,
    {
        let ghost before = verts@;
        let mut j: usize = 0;
        assert((i + 1) * width == i * width + width) by (nonlinear_arith);
        while j < width
            invariant
                j <= width,
                i < width,
                width == level + 1,
                all@.len() == CHANNELS,
                forall|d: int| 0 <= d < CHANNELS ==> square((#[trigger] all@[d])@, level),
                verts@.len() == i * width + j,
                before.len() == i * width,
                before == verts@.subrange(0, i * width),
                forall|p: int|
                    0 <= p < verts@.len() ==> (#[trigger] verts@[p]).normal == control[0].normal
                        && verts@[p].colour[3] == control[0].colour[3],
                forall|d: int, q: int|
                    0 <= d < CHANNELS && 0 <= q < j ==> shows(
                        verts@[i * width + q],
                        d,
                        #[trigger] all@[d]@[i as int]@[q],
                    ),
            decreases width - j,
        {
            proof {
                assert forall|d: int| 0 <= d < CHANNELS implies i < (#[trigger] all@[d])@.len() && j
                    < all@[d]@[i as int]@.len() by {
                    assert(square(all@[d]@, level));
                }
            }
            let v: Vertex = vertex_at(control, &all, i, j);
            let ghost old_verts = verts@;
            verts.push(v);
            proof {
                assert forall|d: int, q: int| 0 <= d < CHANNELS && 0 <= q < j + 1 implies shows(
                    verts@[i * width + q],
                    d,
                    #[trigger] all@[d]@[i as int]@[q],
                ) by {
                    if q < j {
                        assert(verts@[i * width + q] == old_verts[i * width + q]);
                    }
                }
                assert(verts@.subrange(0, i * width) =~= old_verts.subrange(0, i * width));
            }
            j = j + 1;
        }
        proof {
            assert forall|d: int, r: int| 0 <= d < CHANNELS && 0 <= r < i + 1 implies row_shows(
                grid_row(verts@, r, width as int),
                d,
                (#[trigger] all@[d]@[r])@,
            ) by {
                assert(square(all@[d]@, level));
                if r < i {
                    assert(r * width + width <= i * width) by (nonlinear_arith)
                        requires
                            0 <= r < i,
                            0 <= width,
                    ;
                    assert(0 <= r * width) by (nonlinear_arith)
                        requires
                            0 <= r,
                            0 <= width,
                    ;
                    assert(grid_row(verts@, r, width as int) =~= grid_row(
                        before,
                        r,
                        width as int,
                    ));
                } else {
                    let row = grid_row(verts@, i as int, width as int);
                    assert forall|q: int| 0 <= q < row.len() implies shows(
                        #[trigger] row[q],
                        d,
                        all@[d]@[i as int]@[q],
                    ) by {
                        assert(row[q] == verts@[i * width + q]);
                    }
                }
            }
        }
        i = i + 1;
    }
    proof {
        assert(verts@.len() == (level + 1) * (level + 1));
        assert forall|d: int| 0 <= d < CHANNELS implies #[trigger] samples_channel(
            f,
            level,
            control@,
            verts@,
            d,
        ) by {
            let rows = views(all@[d]@);
            assert(surface_ok(f, level, control_channel(control@, d), rows));
            assert forall|r: int| 0 <= r <= level implies row_shows(
                grid_row(verts@, r, level + 1),
                d,
                #[trigger] rows[r],
            ) by {
                assert(rows[r] == all@[d]@[r]@);
            }
        }
    }
    verts
}

/// The corners of the grid of a patch are its corner control vertices:
/// the positions, the texture coordinates and the colours of the four
/// corners of the grid are exactly those of the first, the third, the
/// seventh and the ninth control vertex.
pub proof fn lemma_grid_corners<F: Fn(u32, u32, Scalar, Scalar, Scalar) -> Scalar>(
    f: &F,
    level: u32,
    control: Seq<Vertex>,
    verts: Seq<Vertex>,
    c: int,
)
    requires
        1 <= level,
        is_grid(f, level, control, verts),
        0 <= c < CHANNELS,
    ensures
        same_channel(verts[0], control[0], c),
        same_channel(verts[level as int], control[2], c),
        same_channel(verts[level * (level + 1)], control[6], c),
        same_channel(verts[level * (level + 1) + level], control[8], c),
{
    assert(samples_channel(f, level, control, verts, c));
    let rows = choose|rows: Seq<Seq<Scalar>>|
        #[trigger] surface_ok(f, level, control_channel(control, c), rows) && grid_shows(
            verts,
            level,
            c,
            rows,
        );
    let a = control_channel(control, c);
    let cols = choose|cols: Seq<Seq<Scalar>>| surface_with(f, level, a, cols, rows);
    let w = level + 1;
    assert(curve_ok(f, level, cols[0][0], cols[1][0], cols[2][0], rows[0]));
    assert(curve_ok(
        f,
        level,
        cols[0][level as int],
        cols[1][level as int],
        cols[2][level as int],
        rows[level as int],
    ));
    assert(row_shows(grid_row(verts, 0, w), c, rows[0]));
    assert(row_shows(grid_row(verts, level as int, w), c, rows[level as int]));
    assert(0 * w == 0 && level * w + w == (level + 1) * (level + 1)) by (nonlinear_arith)
        requires
            w == level + 1,
    ;
    assert(grid_row(verts, 0, w)[0] == verts[0]);
    assert(grid_row(verts, 0, w)[level as int] == verts[level as int]);
    assert(grid_row(verts, level as int, w)[0] == verts[level * w]);
    assert(grid_row(verts, level as int, w)[level as int] == verts[level * w + level]);
    assert(a[0] == channel(control[0], c));
    assert(a[2] == channel(control[2], c));
    assert(a[6] == channel(control[6], c));
    assert(a[8] == channel(control[8], c));
    if c >= 7 {
        lemma_byte_round_trip(control[0].colour[c - 7]);
        lemma_byte_round_trip(control[2].colour[c - 7]);
        lemma_byte_round_trip(control[6].colour[c - 7]);
        lemma_byte_round_trip(control[8].colour[c - 7]);
    }
}

/// Whether two vertices agree in their value number `c`.
pub open spec fn same_channel(a: Vertex, b: Vertex, c: int) -> bool {
    if c < 3 {
        a.position[c] == b.position[c]
    } else if c < 5 {
        a.texcoord_s[c - 3] == b.texcoord_s[c - 3]
    } else if c < 7 {
        a.texcoord_l[c - 5] == b.texcoord_l[c - 5]
    } else {
        a.colour[c - 7] == b.colour[c - 7]
    }
}

/// The nine control vertices of a patch.
pub open spec fn control_of(g: Geometry, patch: Patch) -> Seq<Vertex> {
    Seq::new(9, |k: int| g.vertexes@[patch.control[k] as int])
}

/// The part of the vertex buffer that holds the grid of patch `q`.
pub open spec fn grid_of(g: Geometry, vertexes: Seq<Vertex>, q: int) -> Seq<Vertex> {
    vertexes.subrange(
        g.vertexes@.len() + q * patch_vertex_count(BEZIER_LEVEL as int),
        g.vertexes@.len() + (q + 1) * patch_vertex_count(BEZIER_LEVEL as int),
    )
}

/// Whether `vertexes` is the vertex buffer of a level with the given
/// patches: the vertices of the file, then the grid of each patch.
pub open spec fn grids_match<F: Fn(u32, u32, Scalar, Scalar, Scalar) -> Scalar>(
    f: &F,
    g: Geometry,
    patches: Seq<Patch>,
    vertexes: Seq<Vertex>,
) -> bool {
    &&& vertexes.len() == g.vertexes@.len() + patches.len() * patch_vertex_count(
        BEZIER_LEVEL as int,
    )
    &&& vertexes.subrange(0, g.vertexes@.len() as int) == g.vertexes@
    &&& forall|q: int|
        0 <= q < patches.len() ==> is_grid(
            f,
            BEZIER_LEVEL,
            control_of(g, #[trigger] patches[q]),
            grid_of(g, vertexes, q),
        )
}

/// The nine control vertices of a patch.
fn control_vertexes(g: &Geometry, patch: &Patch) -> (control: [Vertex; 9])
    requires
        forall|k: int| 0 <= k < 9 ==> (#[trigger] patch.control[k]) < g.vertexes@.len(),
    ensures
        control@ == control_of(*g, *patch),
{
    assert(patch.control[0] < g.vertexes@.len());
    assert(patch.control[1] < g.vertexes@.len());
    assert(patch.control[2] < g.vertexes@.len());
    assert(patch.control[3] < g.vertexes@.len());
    assert(patch.control[4] < g.vertexes@.len());
    assert(patch.control[5] < g.vertexes@.len());
    assert(patch.control[6] < g.vertexes@.len());
    assert(patch.control[7] < g.vertexes@.len());
    assert(patch.control[8] < g.vertexes@.len());
    let control: [Vertex; 9] = [
        g.vertexes[patch.control[0] as usize],
        g.vertexes[patch.control[1] as usize],
        g.vertexes[patch.control[2] as usize],
        g.vertexes[patch.control[3] as usize],
        g.vertexes[patch.control[4] as usize],
        g.vertexes[patch.control[5] as usize],
        g.vertexes[patch.control[6] as usize],
        g.vertexes[patch.control[7] as usize],
        g.vertexes[patch.control[8] as usize],
    ];
    assert(control@ =~= control_of(*g, *patch));
    control
}

/// The grid of vertices of one patch of a level and its triangle list,
/// which counts from the first vertex of the grid.
pub fn gen_bez_mesh<F: Fn(u32, u32, Scalar, Scalar, Scalar) -> Scalar>(
    g: &Geometry,
    patch: &Patch,
    f: &F,
) -> (r: (Vec<Vertex>, Vec<u32>))
    requires
        samples_all(f),
        forall|k: int| 0 <= k < 9 ==> (#[trigger] patch.control[k]) < g.vertexes@.len(),
    ensures
        is_grid(f, BEZIER_LEVEL, control_of(*g, *patch), r.0@),
        ints(r.1@) == patch_indices(BEZIER_LEVEL as int),
{
    let control: [Vertex; 9] = control_vertexes(g, patch);
    gen_bezier_mesh(&control, BEZIER_LEVEL, f)
}

/// The vertex buffer of a level: the vertices of the file, then the grid
/// of each patch, in the order of the patches.
pub fn build_vertexes<F: Fn(u32, u32, Scalar, Scalar, Scalar) -> Scalar>(
    g: &Geometry,
    patches: &Vec<Patch>,
    f: &F,
) -> (vertexes: Vec<Vertex>)
    requires
        samples_all(f),
        forall|q: int, k: int|
            0 <= q < patches@.len() && 0 <= k < 9 ==> (#[trigger] patches@[q].control[k])
                < g.vertexes@.len(),
    ensures
        grids_match(f, *g, patches@, vertexes@),
{
    let ghost pvc = patch_vertex_count(BEZIER_LEVEL as int);
    proof {
        lemma_level_grid();
    }
    let mut vertexes: Vec<Vertex> = Vec::new();
    let mut i: usize = 0;
    while i < g.vertexes.len()
        invariant
            i <= g.vertexes@.len(),
            vertexes@ == g.vertexes@.subrange(0, i as int),
        decreases g.vertexes@.len() - i,
    {
        vertexes.push(g.vertexes[i]);
        assert(vertexes@ =~= g.vertexes@.subrange(0, i + 1));
        i = i + 1;
    }
    assert(vertexes@ =~= g.vertexes@);
    let mut q: usize = 0;
    assert(vertexes@.subrange(0, g.vertexes@.len() as int) =~= g.vertexes@);
    while q < patches.len()
        invariant
            q <= patches@.len(),
            samples_all(f),
            pvc == 36,
            pvc == patch_vertex_count(BEZIER_LEVEL as int),
            forall|p: int, k: int|
                0 <= p < patches@.len() && 0 <= k < 9 ==> (#[trigger] patches@[p].control[k])
                    < g.vertexes@.len(),
            vertexes@.len() == g.vertexes@.len() + q * pvc,
            vertexes@.subrange(0, g.vertexes@.len() as int) == g.vertexes@,
            forall|p: int|
                0 <= p < q ==> is_grid(
                    f,
                    BEZIER_LEVEL,
                    control_of(*g, #[trigger] patches@[p]),
                    grid_of(*g, vertexes@, p),
                ),
        decreases patches@.len() - q,
    {
        let patch: &Patch = &patches[q];
        assert forall|k: int| 0 <= k < 9 implies (#[trigger] patch.control[k])
            < g.vertexes@.len() by {
            assert(patches@[q as int].control[k] < g.vertexes@.len());
        }
        let control: [Vertex; 9] = control_vertexes(g, patch);
        let grid: Vec<Vertex> = patch_vertexes(&control, BEZIER_LEVEL, f);
        let ghost before = vertexes@;
        let mut j: usize = 0;
        assert(grid@.len() == 36) by {
            assert((BEZIER_LEVEL + 1) * (BEZIER_LEVEL + 1) == 36) by (nonlinear_arith);
        }
        while j < grid.len()
            invariant
                j <= grid@.len(),
                vertexes@ == before + grid@.subrange(0, j as int),
            decreases grid@.len() - j,
        {
            vertexes.push(grid[j]);
            assert(vertexes@ =~= before + grid@.subrange(0, j + 1));
            j = j + 1;
        }
        proof {
            assert(grid@.subrange(0, grid@.len() as int) =~= grid@);
            assert(vertexes@ =~= before + grid@);
            assert((q + 1) * pvc == q * pvc + pvc && 0 <= q * pvc) by (nonlinear_arith)
                requires
                    pvc == 36,
                    0 <= q,
            ;
            assert(vertexes@.subrange(0, g.vertexes@.len() as int) =~= before.subrange(
                0,
                g.vertexes@.len() as int,
            ));
            assert(grid_of(*g, vertexes@, q as int) =~= grid@);
            assert forall|p: int| 0 <= p < q + 1 implies is_grid(
                f,
                BEZIER_LEVEL,
                control_of(*g, #[trigger] patches@[p]),
                grid_of(*g, vertexes@, p),
            ) by {
                if p < q {
                    assert((p + 1) * pvc <= q * pvc && (p + 1) * pvc == p * pvc + pvc && 0 <= p
                        * pvc) by (nonlinear_arith)
                        requires
                            0 <= p < q,
                            pvc == 36,
                    ;
                    assert(grid_of(*g, vertexes@, p) =~= grid_of(*g, before, p));
                }
            }
        }
        q = q + 1;
    }
    vertexes
}

} // verus!

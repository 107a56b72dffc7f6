//! The triangles of the grid of a curved patch.
//!
//! A curved patch is drawn as a grid of `(level + 1) * (level + 1)`
//! vertices, row by row. This module says which triangles cover such a
//! grid.

use vstd::prelude::*;

verus! {

/// Subdivisions per edge of a patch.
pub const BEZIER_LEVEL: u32 = 5;

/// The largest level whose grid can be indexed with 32 bits.
pub const MAX_LEVEL: u32 = 65534;

/// Vertices of the grid of one patch.
pub open spec fn patch_vertex_count(level: int) -> int {
    (level + 1) * (level + 1)
}

/// The indices that the grid position `i`, in column `col` of a grid
/// `width` wide, contributes. The first column starts one triangle, the
/// last column closes one, each column between does both.
pub open spec fn cell_indices(i: int, col: int, width: int) -> Seq<int> {
    if col == 0 {
        seq![i, i + width, i + 1]
    } else if col == width - 1 {
        seq![i, i + width - 1, i + width]
    } else {
        seq![i, i + width - 1, i + width, i, i + width, i + 1]
    }
}

/// The indices of the first `cols` positions of row `row`.
pub open spec fn row_indices(row: int, cols: int, width: int) -> Seq<int>
    decreases cols,
{
    if cols <= 0 {
        Seq::empty()
    } else {
        row_indices(row, cols - 1, width) + cell_indices(
            row * width + cols - 1,
            cols - 1,
            width,
        )
    }
}

/// The indices of the first `rows` rows of a grid `width` wide.
pub open spec fn grid_indices(rows: int, width: int) -> Seq<int>
    decreases rows,
{
    if rows <= 0 {
        Seq::empty()
    } else {
        grid_indices(rows - 1, width) + row_indices(rows - 1, width, width)
    }
}

/// The triangle list of one patch: every row of the grid but the last,
/// position by position. Three consecutive entries are one triangle.
pub open spec fn patch_indices(level: int) -> Seq<int> {
    grid_indices(level, level + 1)
}

/// The numbers of a list of indices.
pub open spec fn ints(s: Seq<u32>) -> Seq<int> {
    s.map_values(|x: u32| x as int)
}

/// Length and range of the indices of part of a row.
pub proof fn lemma_row_indices(row: int, cols: int, width: int)
    requires
        0 <= row,
        0 <= cols <= width,
        2 <= width,
    ensures
        row_indices(row, cols, width).len() == (if cols == 0 {
            0
        } else if cols < width {
            6 * cols - 3
        } else {
            6 * (width - 1)
        }),
        forall|k: int|
            0 <= k < row_indices(row, cols, width).len() ==> row * width <= (
            #[trigger] row_indices(row, cols, width)[k]) < (row + 2) * width,
    decreases cols,
{
    if cols > 0 {
        lemma_row_indices(row, cols - 1, width);
        let i = row * width + cols - 1;
        assert((row + 2) * width == row * width + 2 * width) by (nonlinear_arith);
        let before = row_indices(row, cols - 1, width);
        let cell = cell_indices(i, cols - 1, width);
        assert forall|k: int| 0 <= k < cell.len() implies row * width <= #[trigger] cell[k] < (row
            + 2) * width by {}
        assert forall|k: int| 0 <= k < (before + cell).len() implies row * width <= #[trigger] (
        before + cell)[k] < (row + 2) * width by {
            if k >= before.len() {
                assert((before + cell)[k] == cell[k - before.len()]);
            }
        }
    }
}

/// Length and range of the indices of the first rows of a grid.
pub proof fn lemma_grid_indices(rows: int, width: int)
    requires
        0 <= rows,
        2 <= width,
    ensures
        grid_indices(rows, width).len() == rows * (6 * (width - 1)),
        forall|k: int|
            0 <= k < grid_indices(rows, width).len() ==> 0 <= (#[trigger] grid_indices(
                rows,
                width,
            )[k]) < (rows + 1) * width,
    decreases rows,
{
    if rows > 0 {
        lemma_grid_indices(rows - 1, width);
        lemma_row_indices(rows - 1, width, width);
        assert(rows * (6 * (width - 1)) == (rows - 1) * (6 * (width - 1)) + 6 * (width - 1))
            by (nonlinear_arith);
        assert(0 <= (rows - 1) * width && rows * width <= (rows + 1) * width) by (nonlinear_arith)
            requires
                rows >= 1,
                width >= 2,
        ;
        let before = grid_indices(rows - 1, width);
        let last = row_indices(rows - 1, width, width);
        assert forall|k: int| 0 <= k < (before + last).len() implies 0 <= #[trigger] (before
            + last)[k] < (rows + 1) * width by {
            if k >= before.len() {
                assert((before + last)[k] == last[k - before.len()]);
            }
        }
    } else {
        assert(rows * (6 * (width - 1)) == 0) by (nonlinear_arith)
            requires
                rows == 0,
        ;
    }
}

/// A patch of level `level` has `(level + 1) * (level + 1)` vertices and
/// `2 * level * level` triangles, and every index of its triangle list
/// names one of its vertices.
pub proof fn lemma_patch_counts(level: int)
    requires
        1 <= level,
    ensures
        patch_vertex_count(level) == (level + 1) * (level + 1),
        patch_indices(level).len() == 3 * (2 * level * level),
        forall|k: int|
            0 <= k < patch_indices(level).len() ==> 0 <= (#[trigger] patch_indices(level)[k])
                < patch_vertex_count(level),
{
    lemma_grid_indices(level, level + 1);
    assert(level * (6 * ((level + 1) - 1)) == 3 * (2 * level * level)) by (nonlinear_arith);
}

/// Appends the indices of one grid position.
fn push_cell(inds: &mut Vec<u32>, i: u32, col: u32, width: u32)
    requires
        i + width <= u32::MAX,
        col < width,
    ensures
        ints(final(inds)@) == ints(old(inds)@) + cell_indices(i as int, col as int, width as int),
{
    let ghost before = ints(inds@);
    if col == 0 {
        inds.push(i);
        inds.push(i + width);
        inds.push(i + 1);
    } else if col == width - 1 {
        inds.push(i);
        inds.push(i + (width - 1));
        inds.push(i + width);
    } else {
        inds.push(i);
        inds.push(i + (width - 1));
        inds.push(i + width);
        inds.push(i);
        inds.push(i + width);
        inds.push(i + 1);
    }
    assert(ints(inds@) =~= before + cell_indices(i as int, col as int, width as int));
}

/// The triangle list of one patch of the given level.
pub fn tessellation_indices(level: u32) -> (inds: Vec<u32>)
    requires
        level <= MAX_LEVEL,
    ensures
        ints(inds@) == patch_indices(level as int),
{
    let width: u32 = level + 1;
    let mut inds: Vec<u32> = Vec::new();
    let mut row: u32 = 0;
    let mut i: u32 = 0;
    assert(ints(inds@) =~= grid_indices(0, width as int));
    while row < level
        invariant
            row <= level,
            level <= MAX_LEVEL,
            width == level + 1,
            i == row * width,
            ints(inds@) == grid_indices(row as int, width as int),
        decreases level - row,
    {
        let mut col: u32 = 0;
        assert(ints(inds@) =~= grid_indices(row as int, width as int) + row_indices(
            row as int,
            0,
            width as int,
        ));
        assert((row + 1) * width == row * width + width && (row + 2) * width == row * width + 2
            * width && (row + 2) * width <= 65535 * 65535) by (nonlinear_arith)
            requires
                row < level,
                level <= 65534,
                width == level + 1,
        ;
        while col < width
            invariant
                col <= width,
                row < level,
                level <= MAX_LEVEL,
                width == level + 1,
                i == row * width + col,
                (row + 2) * width <= 65535 * 65535,
                (row + 2) * width == row * width + 2 * width,
                (row + 1) * width == row * width + width,
                ints(inds@) == grid_indices(row as int, width as int) + row_indices(
                    row as int,
                    col as int,
                    width as int,
                ),
            decreases width - col,
        {
            push_cell(&mut inds, i, col, width);
            assert(row_indices(row as int, col + 1, width as int) == row_indices(
                row as int,
                col as int,
                width as int,
            ) + cell_indices(i as int, col as int, width as int));
            assert(ints(inds@) =~= grid_indices(row as int, width as int) + row_indices(
                row as int,
                col + 1,
                width as int,
            ));
            col = col + 1;
            i = i + 1;
        }
        row = row + 1;
    }
    inds
}

/// The grid of a patch of the level in use has 36 vertices.
pub proof fn lemma_level_grid()
    ensures
        patch_vertex_count(BEZIER_LEVEL as int) == 36,
{
    assert((5 + 1) * (5 + 1) == 36) by (nonlinear_arith);
}

/// The numbers of a list with one more index are those of the list, then
/// that of the index.
pub proof fn lemma_ints_push(s: Seq<u32>, x: u32)
    ensures
        ints(s.push(x)) == ints(s).push(x as int),
{
    assert(ints(s.push(x)) =~= ints(s).push(x as int));
}

} // verus!

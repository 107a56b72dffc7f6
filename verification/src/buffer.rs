//! The index buffer of a level and the range of each bucket in it.

use vstd::prelude::*;
use crate::geometry::Geometry;
use crate::grid::ints;
use crate::mesh::{
    bucket_indices, buckets_match, faces_ok, lemma_bucket_len, lemma_indices_in_range,
    routed_count, vertex_total,
};

verus! {

/// The part of the index buffer that one light map and one texture share.
#[derive(Clone, Copy, Debug)]
pub struct DrawRange {
    pub lightmap: usize,
    pub texture: usize,
    pub offset: usize,
    pub count: usize,
}

/// The first `t` buckets of a row, one after the other.
pub open spec fn row_flat(row: Seq<Vec<u32>>, t: int) -> Seq<u32>
    decreases t,
{
    if t <= 0 {
        Seq::empty()
    } else {
        row_flat(row, t - 1) + row[t - 1]@
    }
}

/// The first `l` rows of buckets, one after the other.
pub open spec fn rows_flat(buckets: Seq<Vec<Vec<u32>>>, l: int) -> Seq<u32>
    decreases l,
{
    if l <= 0 {
        Seq::empty()
    } else {
        rows_flat(buckets, l - 1) + row_flat(buckets[l - 1]@, buckets[l - 1]@.len() as int)
    }
}

/// The index buffer: every bucket, row by row.
pub open spec fn flattened(buckets: Seq<Vec<Vec<u32>>>) -> Seq<u32> {
    rows_flat(buckets, buckets.len() as int)
}

/// What stands in the index buffer before the bucket `(lm, tex)`.
pub open spec fn flat_before(buckets: Seq<Vec<Vec<u32>>>, lm: int, tex: int) -> Seq<u32> {
    rows_flat(buckets, lm) + row_flat(buckets[lm]@, tex)
}

/// The range of the bucket `(lm, tex)`: it starts where the buckets before
/// it end and is as long as the bucket.
pub open spec fn range_of(buckets: Seq<Vec<Vec<u32>>>, lm: int, tex: int) -> DrawRange {
    DrawRange {
        lightmap: lm as usize,
        texture: tex as usize,
        offset: flat_before(buckets, lm, tex).len() as usize,
        count: buckets[lm]@[tex]@.len() as usize,
    }
}

/// The ranges of the first `t` buckets of row `lm`.
pub open spec fn row_ranges(buckets: Seq<Vec<Vec<u32>>>, lm: int, t: int) -> Seq<DrawRange>
    decreases t,
{
    if t <= 0 {
        Seq::empty()
    } else {
        row_ranges(buckets, lm, t - 1).push(range_of(buckets, lm, t - 1))
    }
}

/// The ranges of the first `l` rows of buckets.
pub open spec fn rows_ranges(buckets: Seq<Vec<Vec<u32>>>, l: int) -> Seq<DrawRange>
    decreases l,
{
    if l <= 0 {
        Seq::empty()
    } else {
        rows_ranges(buckets, l - 1) + row_ranges(buckets, l - 1, buckets[l - 1]@.len() as int)
    }
}

/// Puts all buckets into one index buffer, row by row, and lists the range
/// of each bucket in the same order.
pub fn flatten(buckets: &Vec<Vec<Vec<u32>>>) -> (r: (Vec<u32>, Vec<DrawRange>))
    ensures
        r.0@ == flattened(buckets@),
        r.1@ == rows_ranges(buckets@, buckets@.len() as int),
{
    let mut out: Vec<u32> = Vec::new();
    let mut ranges: Vec<DrawRange> = Vec::new();
    let mut lm: usize = 0;
    while lm < buckets.len()
        invariant
            lm <= buckets@.len(),
            out@ == rows_flat(buckets@, lm as int),
            ranges@ == rows_ranges(buckets@, lm as int),
        decreases buckets@.len() - lm,
    {
        let row: &Vec<Vec<u32>> = &buckets[lm];
        let mut tex: usize = 0;
        assert(out@ =~= rows_flat(buckets@, lm as int) + row_flat(row@, 0));
        assert(ranges@ =~= rows_ranges(buckets@, lm as int) + row_ranges(buckets@, lm as int, 0));
        while tex < row.len()
            invariant
                lm < buckets@.len(),
                row@ == buckets@[lm as int]@,
                tex <= row@.len(),
                out@ == rows_flat(buckets@, lm as int) + row_flat(row@, tex as int),
                ranges@ == rows_ranges(buckets@, lm as int) + row_ranges(
                    buckets@,
                    lm as int,
                    tex as int,
                ),
            decreases row@.len() - tex,
        {
            let bucket: &Vec<u32> = &row[tex];
            let ghost before = out@;
            ranges.push(
                DrawRange { lightmap: lm, texture: tex, offset: out.len(), count: bucket.len() },
            );
            assert(ranges@ =~= rows_ranges(buckets@, lm as int) + row_ranges(
                buckets@,
                lm as int,
                tex + 1,
            ));
            let mut k: usize = 0;
            assert(out@ =~= before + bucket@.subrange(0, 0));
            while k < bucket.len()
                invariant
                    k <= bucket@.len(),
                    out@ == before + bucket@.subrange(0, k as int),
                decreases bucket@.len() - k,
            {
                out.push(bucket[k]);
                assert(out@ =~= before + bucket@.subrange(0, k + 1));
                k = k + 1;
            }
            assert(bucket@.subrange(0, bucket@.len() as int) =~= bucket@);
            assert(out@ =~= rows_flat(buckets@, lm as int) + row_flat(row@, tex + 1));
            tex = tex + 1;
        }
        lm = lm + 1;
    }
    (out, ranges)
}

/// The rest of a row after the bucket `tex` only follows it.
proof fn lemma_row_flat_prefix(row: Seq<Vec<u32>>, t: int, u: int)
    requires
        0 <= t <= u <= row.len(),
    ensures
        row_flat(row, t).is_prefix_of(row_flat(row, u)),
    decreases u,
{
    if t < u {
        lemma_row_flat_prefix(row, t, u - 1);
    }
}

/// The rows after row `l` only follow it.
proof fn lemma_rows_flat_prefix(buckets: Seq<Vec<Vec<u32>>>, l: int, m: int)
    requires
        0 <= l <= m <= buckets.len(),
    ensures
        rows_flat(buckets, l).is_prefix_of(rows_flat(buckets, m)),
    decreases m,
{
    if l < m {
        lemma_rows_flat_prefix(buckets, l, m - 1);
    }
}

/// In the index buffer every bucket stands whole at the place that its
/// range names.
pub proof fn lemma_bucket_in_buffer(buckets: Seq<Vec<Vec<u32>>>, lm: int, tex: int)
    requires
        0 <= lm < buckets.len(),
        0 <= tex < buckets[lm]@.len(),
    ensures
        flat_before(buckets, lm, tex).len() + buckets[lm]@[tex]@.len() <= flattened(buckets).len(),
        flattened(buckets).subrange(
            flat_before(buckets, lm, tex).len() as int,
            (flat_before(buckets, lm, tex).len() + buckets[lm]@[tex]@.len()) as int,
        ) == buckets[lm]@[tex]@,
{
    let row = buckets[lm]@;
    let before = flat_before(buckets, lm, tex);
    let with = before + row[tex]@;
    assert(with =~= rows_flat(buckets, lm) + row_flat(row, tex + 1));
    lemma_row_flat_prefix(row, tex + 1, row.len() as int);
    lemma_rows_flat_prefix(buckets, lm + 1, buckets.len() as int);
    let whole_row = rows_flat(buckets, lm) + row_flat(row, row.len() as int);
    assert(whole_row == rows_flat(buckets, lm + 1));
    assert(with.is_prefix_of(whole_row));
    assert(with.is_prefix_of(flattened(buckets)));
    let whole = flattened(buckets);
    assert(with =~= whole.subrange(0, with.len() as int));
    assert forall|k: int| 0 <= k < row[tex]@.len() implies whole[before.len() + k]
        == #[trigger] row[tex]@[k] by {
        assert(whole.subrange(0, with.len() as int)[before.len() + k] == with[before.len() + k]);
    }
    assert(whole.subrange(before.len() as int, (before.len() + row[tex]@.len()) as int)
        =~= row[tex]@);
}

/// The ranges of a table of buckets with `cols` buckets in each row: there
/// is one for each bucket, and that of the bucket `(lm, tex)` is number
/// `lm * cols + tex`.
pub proof fn lemma_ranges(buckets: Seq<Vec<Vec<u32>>>, cols: int, l: int, lm: int, tex: int)
    requires
        0 <= l <= buckets.len(),
        forall|r: int| 0 <= r < buckets.len() ==> (#[trigger] buckets[r])@.len() == cols,
        0 <= lm < l,
        0 <= tex < cols,
    ensures
        rows_ranges(buckets, l).len() == l * cols,
        0 <= lm * cols + tex < l * cols,
        rows_ranges(buckets, l)[lm * cols + tex] == range_of(buckets, lm, tex),
    decreases l,
{
    lemma_ranges_len(buckets, cols, l);
    lemma_ranges_len(buckets, cols, l - 1);
    lemma_row_ranges(buckets, l - 1, cols, tex);
    assert(l * cols == (l - 1) * cols + cols) by (nonlinear_arith);
    assert(0 <= lm * cols && lm * cols + cols <= l * cols) by (nonlinear_arith)
        requires
            0 <= lm < l,
            0 <= cols,
    ;
    if lm < l - 1 {
        lemma_ranges(buckets, cols, l - 1, lm, tex);
    }
}

/// The ranges of the first `l` rows number `l * cols`.
proof fn lemma_ranges_len(buckets: Seq<Vec<Vec<u32>>>, cols: int, l: int)
    requires
        0 <= l <= buckets.len(),
        0 <= cols,
        forall|r: int| 0 <= r < buckets.len() ==> (#[trigger] buckets[r])@.len() == cols,
    ensures
        rows_ranges(buckets, l).len() == l * cols,
    decreases l,
{
    if l > 0 {
        lemma_ranges_len(buckets, cols, l - 1);
        lemma_row_ranges(buckets, l - 1, cols, 0);
        assert(l * cols == (l - 1) * cols + cols) by (nonlinear_arith);
    } else {
        assert(l * cols == 0) by (nonlinear_arith)
            requires
                l == 0,
        ;
    }
}

/// The ranges of the first `t` buckets of a row: one for each, in order.
proof fn lemma_row_ranges(buckets: Seq<Vec<Vec<u32>>>, lm: int, t: int, tex: int)
    requires
        0 <= t,
    ensures
        row_ranges(buckets, lm, t).len() == t,
        0 <= tex < t ==> row_ranges(buckets, lm, t)[tex] == range_of(buckets, lm, tex),
    decreases t,
{
    if t > 0 {
        lemma_row_ranges(buckets, lm, t - 1, tex);
    }
}

/// For every bucket, the range listed for it has as many indices as the
/// faces routed to that bucket have: the sum of three times their
/// triangles. It starts where the buckets before it end, and the index
/// buffer holds there what those faces added, in face order.
pub proof fn lemma_ranges_match_faces(g: Geometry, buckets: Seq<Vec<Vec<u32>>>, lm: int, tex: int)
    requires
        buckets_match(g, buckets, g.faces@.len() as int),
        flattened(buckets).len() <= usize::MAX,
        0 <= lm <= g.light_maps@.len(),
        0 <= tex < g.textures@.len(),
    ensures
        rows_ranges(buckets, buckets.len() as int).len() == (g.light_maps@.len() + 1)
            * g.textures@.len(),
        0 <= lm * g.textures@.len() + tex < rows_ranges(buckets, buckets.len() as int).len(),
        ({
            let range = rows_ranges(buckets, buckets.len() as int)[lm * g.textures@.len() + tex];
            &&& range.lightmap == lm
            &&& range.texture == tex
            &&& range.count == routed_count(g, lm, tex, g.faces@.len() as int)
            &&& range.offset == flat_before(buckets, lm, tex).len()
            &&& range.offset + range.count <= flattened(buckets).len()
            &&& ints(flattened(buckets).subrange(range.offset as int, range.offset + range.count))
                == bucket_indices(g, lm, tex, g.faces@.len() as int)
        }),
{
    let cols = g.textures@.len() as int;
    lemma_ranges(buckets, cols, buckets.len() as int, lm, tex);
    lemma_bucket_len(g, lm, tex, g.faces@.len() as int);
    lemma_bucket_in_buffer(buckets, lm, tex);
    assert(ints(buckets[lm]@[tex]@) == bucket_indices(g, lm, tex, g.faces@.len() as int));
    assert(ints(buckets[lm]@[tex]@).len() == buckets[lm]@[tex]@.len());
    assert(g.light_maps@.len() == g.light_maps.len());
    assert(g.textures@.len() == g.textures.len());
    assert(buckets[lm]@[tex]@.len() == buckets[lm]@[tex].len());
}

/// Every index in the first buckets of a row names a vertex of the level.
proof fn lemma_row_flat_range(g: Geometry, buckets: Seq<Vec<Vec<u32>>>, lm: int, t: int, k: int)
    requires
        faces_ok(g),
        buckets_match(g, buckets, g.faces@.len() as int),
        0 <= lm < buckets.len(),
        0 <= t <= g.textures@.len(),
        0 <= k < row_flat(buckets[lm]@, t).len(),
    ensures
        row_flat(buckets[lm]@, t)[k] < vertex_total(g),
    decreases t,
{
    let before = row_flat(buckets[lm]@, t - 1);
    if k < before.len() {
        lemma_row_flat_range(g, buckets, lm, t - 1, k);
    } else {
        let bucket = buckets[lm]@[t - 1]@;
        let j = k - before.len();
        assert(ints(bucket) == bucket_indices(g, lm, t - 1, g.faces@.len() as int));
        assert(ints(bucket)[j] == bucket[j]);
        lemma_indices_in_range(g, lm, t - 1, g.faces@.len() as int, j);
    }
}

/// Every index in the first rows of buckets names a vertex of the level.
proof fn lemma_rows_flat_range(g: Geometry, buckets: Seq<Vec<Vec<u32>>>, l: int, k: int)
    requires
        faces_ok(g),
        buckets_match(g, buckets, g.faces@.len() as int),
        0 <= l <= buckets.len(),
        0 <= k < rows_flat(buckets, l).len(),
    ensures
        rows_flat(buckets, l)[k] < vertex_total(g),
    decreases l,
{
    let before = rows_flat(buckets, l - 1);
    if k < before.len() {
        lemma_rows_flat_range(g, buckets, l - 1, k);
    } else {
        lemma_row_flat_range(g, buckets, l - 1, g.textures@.len() as int, k - before.len());
    }
}

/// Every index of the index buffer names a vertex of the level: one of
/// the file or one of the grid of a patch.
pub proof fn lemma_buffer_in_range(g: Geometry, buckets: Seq<Vec<Vec<u32>>>, k: int)
    requires
        faces_ok(g),
        buckets_match(g, buckets, g.faces@.len() as int),
        0 <= k < flattened(buckets).len(),
    ensures
        flattened(buckets)[k] < vertex_total(g),
{
    lemma_rows_flat_range(g, buckets, buckets.len() as int, k);
}

} // verus!

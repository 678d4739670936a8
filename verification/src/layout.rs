//! The row-major byte layout of the data file: per-cell encoded bytes,
//! their concatenation, and the lemmas that slice one cell back out of the
//! whole.

use vstd::prelude::*;

use crate::compression::{comp_spec, ZstdModel};

verus! {

/// The position of the cell of row `i`, column `j` in the row-major cell
/// order of a jar with `ncols` columns.
pub open spec fn cell_index(ncols: int, i: int, j: int) -> int {
    i * ncols + j
}

/// The bytes of the cell that starts at offset `offs[k]` and ends at
/// `offs[k + 1]`.
pub open spec fn cell_bytes(data: Seq<u8>, offs: Seq<u64>, k: int) -> Seq<u8> {
    data.subrange(offs[k] as int, offs[k + 1] as int)
}

/// The encoded bytes of the first `j` cells of row `i`: columns `0..j` in
/// order, each run through the codec.
pub open spec fn row_bytes_upto(
    cm: Option<ZstdModel>,
    cols: Seq<Seq<Seq<u8>>>,
    i: int,
    j: int,
) -> Seq<u8>
    decreases j,
{
    if j <= 0 {
        Seq::<u8>::empty()
    } else {
        row_bytes_upto(cm, cols, i, j - 1) + comp_spec(cm, j - 1, cols[j - 1][i])
    }
}

/// The encoded bytes of the first `i` full rows, row-major.
pub open spec fn payload_upto(
    cm: Option<ZstdModel>,
    cols: Seq<Seq<Seq<u8>>>,
    ncols: int,
    i: int,
) -> Seq<u8>
    decreases i,
{
    if i <= 0 {
        Seq::<u8>::empty()
    } else {
        payload_upto(cm, cols, ncols, i - 1) + row_bytes_upto(cm, cols, i - 1, ncols)
    }
}

pub proof fn lemma_row_bytes_len_monotone(
    cm: Option<ZstdModel>,
    cols: Seq<Seq<Seq<u8>>>,
    i: int,
    j1: int,
    j2: int,
)
    requires
        j1 <= j2,
    ensures
        row_bytes_upto(cm, cols, i, j1).len() <= row_bytes_upto(cm, cols, i, j2).len(),
    decreases j2 - j1,
{
    if j1 < j2 {
        lemma_row_bytes_len_monotone(cm, cols, i, j1, j2 - 1);
    }
}

/// A shorter column prefix of a row is a prefix of the longer one.
pub proof fn lemma_row_bytes_prefix(
    cm: Option<ZstdModel>,
    cols: Seq<Seq<Seq<u8>>>,
    i: int,
    j1: int,
    j2: int,
)
    requires
        0 <= j1 <= j2,
    ensures
        row_bytes_upto(cm, cols, i, j2).subrange(0, row_bytes_upto(cm, cols, i, j1).len() as int)
            == row_bytes_upto(cm, cols, i, j1),
    decreases j2 - j1,
{
    let short = row_bytes_upto(cm, cols, i, j1);
    let long = row_bytes_upto(cm, cols, i, j2);
    if j1 == j2 {
        assert(long.subrange(0, short.len() as int) =~= short);
    } else {
        let mid = row_bytes_upto(cm, cols, i, j2 - 1);
        lemma_row_bytes_prefix(cm, cols, i, j1, j2 - 1);
        lemma_row_bytes_len_monotone(cm, cols, i, j1, j2 - 1);
        assert(long.subrange(0, short.len() as int) =~= mid.subrange(0, short.len() as int));
    }
}

/// One cell of a row, sliced back out of that row's encoded bytes.
pub proof fn lemma_row_cell_slice(
    cm: Option<ZstdModel>,
    cols: Seq<Seq<Seq<u8>>>,
    i: int,
    j: int,
    ncols: int,
)
    requires
        0 <= j < ncols,
    ensures
        row_bytes_upto(cm, cols, i, ncols).subrange(
            row_bytes_upto(cm, cols, i, j).len() as int,
            row_bytes_upto(cm, cols, i, j + 1).len() as int,
        ) == comp_spec(cm, j, cols[j][i]),
{
    let whole = row_bytes_upto(cm, cols, i, ncols);
    let lo = row_bytes_upto(cm, cols, i, j).len() as int;
    let hi = row_bytes_upto(cm, cols, i, j + 1).len() as int;
    lemma_row_bytes_prefix(cm, cols, i, j + 1, ncols);
    lemma_row_bytes_len_monotone(cm, cols, i, j + 1, ncols);
    let upto = row_bytes_upto(cm, cols, i, j + 1);
    assert(upto == row_bytes_upto(cm, cols, i, j) + comp_spec(cm, j, cols[j][i]));
    assert(whole.subrange(lo, hi) =~= upto.subrange(lo, hi));
    assert(upto.subrange(lo, hi) =~= comp_spec(cm, j, cols[j][i]));
}

pub proof fn lemma_payload_len_monotone(
    cm: Option<ZstdModel>,
    cols: Seq<Seq<Seq<u8>>>,
    ncols: int,
    i1: int,
    i2: int,
)
    requires
        i1 <= i2,
    ensures
        payload_upto(cm, cols, ncols, i1).len() <= payload_upto(cm, cols, ncols, i2).len(),
    decreases i2 - i1,
{
    if i1 < i2 {
        lemma_payload_len_monotone(cm, cols, ncols, i1, i2 - 1);
    }
}

/// A shorter row prefix of the payload is a prefix of the longer one.
pub proof fn lemma_payload_prefix(
    cm: Option<ZstdModel>,
    cols: Seq<Seq<Seq<u8>>>,
    ncols: int,
    i1: int,
    i2: int,
)
    requires
        0 <= i1 <= i2,
    ensures
        payload_upto(cm, cols, ncols, i2).subrange(
            0,
            payload_upto(cm, cols, ncols, i1).len() as int,
        ) == payload_upto(cm, cols, ncols, i1),
    decreases i2 - i1,
{
    let short = payload_upto(cm, cols, ncols, i1);
    let long = payload_upto(cm, cols, ncols, i2);
    if i1 == i2 {
        assert(long.subrange(0, short.len() as int) =~= short);
    } else {
        let mid = payload_upto(cm, cols, ncols, i2 - 1);
        lemma_payload_prefix(cm, cols, ncols, i1, i2 - 1);
        lemma_payload_len_monotone(cm, cols, ncols, i1, i2 - 1);
        assert(long.subrange(0, short.len() as int) =~= mid.subrange(0, short.len() as int));
    }
}

/// One cell, sliced back out of the full payload of `rows` rows: it spans
/// from `|payload(i)| + |row(i, j)|` to `|payload(i)| + |row(i, j + 1)|`.
pub proof fn lemma_payload_cell_slice(
    cm: Option<ZstdModel>,
    cols: Seq<Seq<Seq<u8>>>,
    ncols: int,
    rows: int,
    i: int,
    j: int,
)
    requires
        0 <= i < rows,
        0 <= j < ncols,
    ensures
        payload_upto(cm, cols, ncols, rows).subrange(
            payload_upto(cm, cols, ncols, i).len() + row_bytes_upto(cm, cols, i, j).len() as int,
            payload_upto(cm, cols, ncols, i).len() + row_bytes_upto(cm, cols, i, j + 1).len() as int,
        ) == comp_spec(cm, j, cols[j][i]),
{
    let whole = payload_upto(cm, cols, ncols, rows);
    let base = payload_upto(cm, cols, ncols, i).len() as int;
    let row = row_bytes_upto(cm, cols, i, ncols);
    let lo = row_bytes_upto(cm, cols, i, j).len() as int;
    let hi = row_bytes_upto(cm, cols, i, j + 1).len() as int;
    let next = payload_upto(cm, cols, ncols, i + 1);
    assert(next == payload_upto(cm, cols, ncols, i) + row);
    lemma_payload_prefix(cm, cols, ncols, i + 1, rows);
    lemma_payload_len_monotone(cm, cols, ncols, i + 1, rows);
    lemma_row_bytes_len_monotone(cm, cols, i, j, j + 1);
    lemma_row_bytes_len_monotone(cm, cols, i, j + 1, ncols);
    assert(whole.subrange(base + lo, base + hi) =~= next.subrange(base + lo, base + hi));
    assert(next.subrange(base + lo, base + hi) =~= row.subrange(lo, hi));
    lemma_row_cell_slice(cm, cols, i, j, ncols);
}

/// Row-major cell positions are unique per (row, column) pair.
pub proof fn lemma_cell_index_inj(ncols: int, i1: int, j1: int, i2: int, j2: int)
    requires
        ncols >= 1,
        0 <= j1 < ncols,
        0 <= j2 < ncols,
        0 <= i1,
        0 <= i2,
        cell_index(ncols, i1, j1) == cell_index(ncols, i2, j2),
    ensures
        i1 == i2 && j1 == j2,
{
    assert(i1 == i2 && j1 == j2) by (nonlinear_arith)
        requires
            i1 * ncols + j1 == i2 * ncols + j2,
            0 <= j1 < ncols,
            0 <= j2 < ncols,
            0 <= i1,
            0 <= i2,
    ;
}

/// The position one past the last column of a row is the first position of
/// the next row.
pub proof fn lemma_cell_index_row_wrap(ncols: int, i: int)
    ensures
        cell_index(ncols, i, ncols) == cell_index(ncols, i + 1, 0),
{
    assert((i + 1) * ncols == i * ncols + ncols) by (nonlinear_arith);
}

/// Cell positions of rows below `rows` lie below the sentinel position.
pub proof fn lemma_cell_index_bound(ncols: int, rows: int, i: int, j: int)
    requires
        ncols >= 1,
        0 <= i < rows,
        0 <= j < ncols,
    ensures
        0 <= cell_index(ncols, i, j),
        cell_index(ncols, i, j) + 1 <= cell_index(ncols, rows, 0),
{
    assert(0 <= i * ncols + j && i * ncols + j + 1 <= rows * ncols) by (nonlinear_arith)
        requires
            ncols >= 1,
            0 <= i < rows,
            0 <= j < ncols,
    ;
}

/// A subrange taken past a fixed prefix reads from the suffix.
pub proof fn lemma_subrange_shift(a: Seq<u8>, b: Seq<u8>, x: int, y: int)
    requires
        0 <= x <= y <= b.len(),
    ensures
        (a + b).subrange(a.len() + x, a.len() + y) == b.subrange(x, y),
{
    assert((a + b).subrange(a.len() + x, a.len() + y) =~= b.subrange(x, y));
}

} // verus!

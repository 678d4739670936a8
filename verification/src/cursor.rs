//! The reader: a cursor over a loaded jar and its data blob that answers
//! `row_by_number` and `row_by_key` queries, optionally projecting a column
//! subset.

use vstd::prelude::*;

use crate::codec::{copy_range, list_view, lemma_list_view_push};
use crate::compression::comp_spec;
use crate::error::NippyJarError;
use crate::layout::{cell_bytes, cell_index};
use crate::offsets::{ef_contents, ef_len, ef_select, psef_access};
use crate::phf::lemma_phf_uniqueness;
use crate::{dense_map, stores, JarModel, NippyJar};

verus! {

/// The values of row `i`: one entry per column.
pub open spec fn row_values(cols: Seq<Seq<Seq<u8>>>, i: int) -> Seq<Seq<u8>> {
    Seq::new(cols.len(), |j: int| cols[j][i])
}

/// The columns of `vals` from `j` on whose mask bit is set, in ascending
/// column order; `m` is the mask already shifted right by `j` bits.
pub open spec fn project_from(vals: Seq<Seq<u8>>, m: int, j: int) -> Seq<Seq<u8>>
    decreases vals.len() - j,
{
    if j < 0 || j >= vals.len() {
        Seq::<Seq<u8>>::empty()
    } else {
        (if m % 2 == 1 {
            seq![vals[j]]
        } else {
            Seq::<Seq<u8>>::empty()
        }) + project_from(vals, m / 2, j + 1)
    }
}

/// The columns of `vals` selected by `mask`, in ascending column order.
pub open spec fn project_row(vals: Seq<Seq<u8>>, mask: int) -> Seq<Seq<u8>> {
    project_from(vals, mask, 0)
}

/// The jar's key-addressed structures describe the key column `keys`: the
/// perfect hash is trained on it, the filter holds every key, and the
/// dense map was built from it over `rows` rows.
pub open spec fn key_mapped(m: JarModel, keys: Seq<Seq<u8>>, rows: int) -> bool {
    &&& (match m.phf {
        Some(p) => p.keys == Some(keys),
        None => false,
    })
    &&& (match m.filter {
        Some(f) => forall|i: int| 0 <= i < keys.len() ==> f.keys.contains(#[trigger] keys[i]),
        None => true,
    })
    &&& m.offsets_index == dense_map(keys)
    &&& keys.len() == rows
}

/// All keys pairwise distinct.
pub open spec fn distinct_keys(keys: Seq<Seq<u8>>) -> bool {
    forall|a: int, b: int| 0 <= a < b < keys.len() ==> keys[a] != keys[b]
}

/// A read-only cursor over a loaded jar and its data blob.  Several
/// cursors may serve the same jar; each holds only its own row position.
pub struct NippyJarCursor<'a> {
    /// The jar whose configuration and offsets guide the reads.
    pub jar: &'a NippyJar,
    /// The full data blob: configuration head followed by the value bytes.
    pub data: &'a Vec<u8>,
    /// The next row that `next_row` will yield.
    pub row: usize,
}

impl<'a> NippyJarCursor<'a> {
    pub fn new(jar: &'a NippyJar, data: &'a Vec<u8>) -> (r: Result<Self, NippyJarError>)
        requires
            jar.wf(),
        ensures
            jar@.offsets is Some ==> (r matches Ok(c) && c.jar == jar && c.data == data
                && c.row == 0),
            jar@.offsets is None ==> r is Err,
    {
        if jar.offsets.is_some() {
            Ok(NippyJarCursor { jar, data, row: 0 })
        } else {
            Err(NippyJarError::Decode)
        }
    }

    /// Read one cell: the value of column `j` of the row whose first cell
    /// sits at offset position `k0`, decompressed.
    fn fetch_cell(&self, k0: usize, j: usize, Ghost(row): Ghost<int>) -> (r: Result<
        Vec<u8>,
        NippyJarError,
    >)
        requires
            self.jar.wf(),
            (j as int) < self.jar@.columns,
            k0 + j + 1 <= usize::MAX,
        ensures
            forall|cols: Seq<Seq<Seq<u8>>>, rows: int|
                #[trigger] stores(self.jar@, self.data@, cols, rows) && 0 <= row < rows && k0
                    as int == cell_index(self.jar@.columns as int, row, 0) ==> (r matches Ok(out)
                    && out@ == cols[j as int][row]),
    {
        let ghost ncols = self.jar@.columns as int;
        let offsets = match &self.jar.offsets {
            Some(ef) => ef,
            None => {
                return Err(NippyJarError::Decode);
            },
        };
        let k = k0 + j;
        proof {
            assert forall|cols: Seq<Seq<Seq<u8>>>, rows: int|
                stores(self.jar@, self.data@, cols, rows) && 0 <= row < rows && k0 as int
                    == cell_index(ncols, row, 0) implies {
                &&& k as int == cell_index(ncols, row, j as int)
                &&& k + 1 < ef_contents(*offsets).len()
            } by {
                crate::layout::lemma_cell_index_bound(ncols, rows, row, j as int);
                assert(cell_index(ncols, rows, 0) + 1 == ef_contents(*offsets).len());
            }
        }
        let start = match ef_select(offsets, k) {
            Some(v) => v,
            None => {
                return Err(NippyJarError::Decode);
            },
        };
        let end = match ef_select(offsets, k + 1) {
            Some(v) => v,
            None => {
                return Err(NippyJarError::Decode);
            },
        };
        if start > end || end > self.data.len() as u64 {
            return Err(NippyJarError::Decode);
        }
        let cell = copy_range(self.data, start as usize, end as usize);
        proof {
            assert forall|cols: Seq<Seq<Seq<u8>>>, rows: int|
                stores(self.jar@, self.data@, cols, rows) && 0 <= row < rows && k0 as int
                    == cell_index(ncols, row, 0) implies cell@ == comp_spec(
                self.jar@.compressor,
                j as int,
                cols[j as int][row],
            ) by {
                assert(cell_bytes(self.data@, ef_contents(*offsets), cell_index(ncols, row, j as int))
                    == comp_spec(self.jar@.compressor, j as int, cols[j as int][row]));
            }
        }
        match &self.jar.compressor {
            None => Ok(cell),
            Some(c) => {
                if !c.is_ready() {
                    return Err(NippyJarError::CompressorNotReady);
                }
                match c.decompress(j, &cell) {
                    Ok(v) => Ok(v),
                    Err(_) => Err(NippyJarError::Internal),
                }
            },
        }
    }

    /// The row `row` with every column, in column order.
    pub fn row_by_number(&self, row: usize) -> (r: Result<Option<Vec<Vec<u8>>>, NippyJarError>)
        requires
            self.jar.wf(),
        ensures
            forall|cols: Seq<Seq<Seq<u8>>>, rows: int|
                #[trigger] stores(self.jar@, self.data@, cols, rows) && (row as int) < rows ==> (
                r matches Ok(o) && o matches Some(out) && list_view(out) == row_values(
                    cols,
                    row as int,
                )),
            forall|cols: Seq<Seq<Seq<u8>>>, rows: int|
                #[trigger] stores(self.jar@, self.data@, cols, rows) && rows <= row as int ==> r
                    == Err::<Option<Vec<Vec<u8>>>, NippyJarError>(
                    NippyJarError::RowOutOfBounds(row as u64),
                ),
    {
        let ghost ncols = self.jar@.columns as int;
        let columns = self.jar.columns;
        let offsets = match &self.jar.offsets {
            Some(ef) => ef,
            None => {
                return Err(NippyJarError::Decode);
            },
        };
        let n_offs = ef_len(offsets);
        let k0 = match row.checked_mul(columns) {
            Some(v) => v,
            None => {
                proof {
                    lemma_row_fits(self.jar@, self.data@, row as int, n_offs as int);
                }
                return Err(NippyJarError::RowOutOfBounds(row as u64));
            },
        };
        let k_end = match k0.checked_add(columns) {
            Some(v) => v,
            None => {
                proof {
                    lemma_row_fits(self.jar@, self.data@, row as int, n_offs as int);
                }
                return Err(NippyJarError::RowOutOfBounds(row as u64));
            },
        };
        if k_end >= n_offs {
            proof {
                lemma_row_fits(self.jar@, self.data@, row as int, n_offs as int);
            }
            return Err(NippyJarError::RowOutOfBounds(row as u64));
        }
        let mut out: Vec<Vec<u8>> = Vec::new();
        let mut j: usize = 0;
        while j < columns
            invariant
                self.jar.wf(),
                columns == self.jar@.columns,
                ncols == self.jar@.columns as int,
                j <= columns,
                k0 + columns == k_end,
                k_end + 1 <= usize::MAX,
                k0 as int == cell_index(ncols, row as int, 0),
                (self.jar.offsets matches Some(ef) && (k_end as int) < ef_contents(ef).len()),
                out@.len() == j,
                forall|cols: Seq<Seq<Seq<u8>>>, rows: int|
                    #[trigger] stores(self.jar@, self.data@, cols, rows) && (row as int) < rows
                        && k0 as int == cell_index(ncols, row as int, 0) ==> list_view(out)
                        == row_values(cols, row as int).take(j as int),
            decreases columns - j,
        {
            let cell = match self.fetch_cell(k0, j, Ghost(row as int)) {
                Ok(v) => v,
                Err(e) => {
                    proof {
                        assert forall|cols: Seq<Seq<Seq<u8>>>, rows: int|
                            #[trigger] stores(self.jar@, self.data@, cols, rows) && (row as int)
                                < rows && k0 as int == cell_index(ncols, row as int, 0)
                            implies false by {}
                        assert forall|cols: Seq<Seq<Seq<u8>>>, rows: int|
                            #[trigger] stores(self.jar@, self.data@, cols, rows) implies (
                        row as int) < rows by {
                            assert((row as int) < rows) by (nonlinear_arith)
                                requires
                                    ncols >= 1,
                                    (row as int) * ncols + ncols < rows * ncols + 1,
                                    0 <= row as int,
                                    0 <= rows,
                            ;
                        }
                    }
                    return Err(e);
                },
            };
            let ghost pre = out;
            let ghost cell_snap = cell;
            out.push(cell);
            proof {
                lemma_list_view_push(pre, out, cell_snap);
                assert forall|cols: Seq<Seq<Seq<u8>>>, rows: int|
                    #[trigger] stores(self.jar@, self.data@, cols, rows) && (row as int) < rows
                        && k0 as int == cell_index(ncols, row as int, 0) implies list_view(out)
                        == row_values(cols, row as int).take(j + 1) by {
                    assert(list_view(pre) == row_values(cols, row as int).take(j as int));
                    assert(cell_snap@ == cols[j as int][row as int]);
                    assert(list_view(pre).push(cell_snap@) =~= row_values(cols, row as int).take(
                        j + 1,
                    ));
                }
            }
            j += 1;
        }
        proof {
            assert forall|cols: Seq<Seq<Seq<u8>>>, rows: int|
                #[trigger] stores(self.jar@, self.data@, cols, rows) && (row as int) < rows
                    && k0 as int == cell_index(ncols, row as int, 0) implies list_view(out)
                    == row_values(cols, row as int) by {
                assert(row_values(cols, row as int).take(columns as int) =~= row_values(
                    cols,
                    row as int,
                ));
            }
        }
        proof {
            assert forall|cols: Seq<Seq<Seq<u8>>>, rows: int|
                #[trigger] stores(self.jar@, self.data@, cols, rows) implies (row as int)
                < rows by {
                assert((row as int) < rows) by (nonlinear_arith)
                    requires
                        ncols >= 1,
                        (row as int) * ncols + ncols < rows * ncols + 1,
                        0 <= row as int,
                        0 <= rows,
                ;
            }
        }
        Ok(Some(out))
    }

    /// The row `row` with exactly the columns whose bit in `mask` is set,
    /// in ascending column order; `total_cols` must equal the jar's column
    /// count.
    pub fn row_by_number_with_cols(&self, row: usize, mask: usize, total_cols: usize) -> (r:
        Result<Option<Vec<Vec<u8>>>, NippyJarError>)
        requires
            self.jar.wf(),
        ensures
            forall|cols: Seq<Seq<Seq<u8>>>, rows: int|
                #[trigger] stores(self.jar@, self.data@, cols, rows) && (row as int) < rows
                    && total_cols == self.jar@.columns ==> (r matches Ok(o) && o matches Some(out)
                    && list_view(out) == project_row(row_values(cols, row as int), mask as int)),
            forall|cols: Seq<Seq<Seq<u8>>>, rows: int|
                #[trigger] stores(self.jar@, self.data@, cols, rows) && rows <= row as int
                    && total_cols == self.jar@.columns ==> r == Err::<
                    Option<Vec<Vec<u8>>>,
                    NippyJarError,
                >(NippyJarError::RowOutOfBounds(row as u64)),
    {
        let ghost ncols = self.jar@.columns as int;
        if total_cols != self.jar.columns {
            return Err(NippyJarError::ColumnLenMismatch(self.jar.columns, total_cols));
        }
        let columns = self.jar.columns;
        let offsets = match &self.jar.offsets {
            Some(ef) => ef,
            None => {
                return Err(NippyJarError::Decode);
            },
        };
        let n_offs = ef_len(offsets);
        let k0 = match row.checked_mul(columns) {
            Some(v) => v,
            None => {
                proof {
                    lemma_row_fits(self.jar@, self.data@, row as int, n_offs as int);
                }
                return Err(NippyJarError::RowOutOfBounds(row as u64));
            },
        };
        let k_end = match k0.checked_add(columns) {
            Some(v) => v,
            None => {
                proof {
                    lemma_row_fits(self.jar@, self.data@, row as int, n_offs as int);
                }
                return Err(NippyJarError::RowOutOfBounds(row as u64));
            },
        };
        if k_end >= n_offs {
            proof {
                lemma_row_fits(self.jar@, self.data@, row as int, n_offs as int);
            }
            return Err(NippyJarError::RowOutOfBounds(row as u64));
        }
        let mut out: Vec<Vec<u8>> = Vec::new();
        let mut mbits = mask;
        let mut j: usize = 0;
        while j < columns
            invariant
                self.jar.wf(),
                columns == self.jar@.columns,
                ncols == self.jar@.columns as int,
                j <= columns,
                k0 + columns == k_end,
                k_end + 1 <= usize::MAX,
                k0 as int == cell_index(ncols, row as int, 0),
                (self.jar.offsets matches Some(ef) && (k_end as int) < ef_contents(ef).len()),
                forall|cols: Seq<Seq<Seq<u8>>>, rows: int|
                    #[trigger] stores(self.jar@, self.data@, cols, rows) && (row as int) < rows
                        && k0 as int == cell_index(ncols, row as int, 0) ==> list_view(out)
                        + project_from(row_values(cols, row as int), mbits as int, j as int)
                        == project_row(row_values(cols, row as int), mask as int),
            decreases columns - j,
        {
            let ghost pre = out;
            let ghost pre_mbits = mbits as int;
            if mbits % 2 == 1 {
                let cell = match self.fetch_cell(k0, j, Ghost(row as int)) {
                    Ok(v) => v,
                    Err(e) => {
                        proof {
                            assert forall|cols: Seq<Seq<Seq<u8>>>, rows: int|
                                #[trigger] stores(self.jar@, self.data@, cols, rows) && (
                                row as int) < rows && k0 as int == cell_index(ncols, row as int, 0)
                                implies false by {}
                        assert forall|cols: Seq<Seq<Seq<u8>>>, rows: int|
                            #[trigger] stores(self.jar@, self.data@, cols, rows) implies (
                        row as int) < rows by {
                            assert((row as int) < rows) by (nonlinear_arith)
                                requires
                                    ncols >= 1,
                                    (row as int) * ncols + ncols < rows * ncols + 1,
                                    0 <= row as int,
                                    0 <= rows,
                            ;
                        }
                        }
                        return Err(e);
                    },
                };
                let ghost cell_snap = cell;
                out.push(cell);
                proof {
                    lemma_list_view_push(pre, out, cell_snap);
                    assert forall|cols: Seq<Seq<Seq<u8>>>, rows: int|
                        #[trigger] stores(self.jar@, self.data@, cols, rows) && (row as int) < rows
                            && k0 as int == cell_index(ncols, row as int, 0) implies list_view(out)
                            + project_from(
                        row_values(cols, row as int),
                        pre_mbits / 2,
                        j + 1,
                    ) == project_row(row_values(cols, row as int), mask as int) by {
                        let rv = row_values(cols, row as int);
                        assert(cell_snap@ == cols[j as int][row as int]);
                        assert(project_from(rv, pre_mbits, j as int) == seq![rv[j as int]]
                            + project_from(rv, pre_mbits / 2, j + 1));
                        assert(list_view(pre).push(cell_snap@) + project_from(
                            rv,
                            pre_mbits / 2,
                            j + 1,
                        ) =~= list_view(pre) + (seq![rv[j as int]] + project_from(
                            rv,
                            pre_mbits / 2,
                            j + 1,
                        )));
                    }
                }
            } else {
                proof {
                    assert forall|cols: Seq<Seq<Seq<u8>>>, rows: int|
                        #[trigger] stores(self.jar@, self.data@, cols, rows) && (row as int) < rows
                            && k0 as int == cell_index(ncols, row as int, 0) implies list_view(out)
                            + project_from(
                        row_values(cols, row as int),
                        pre_mbits / 2,
                        j + 1,
                    ) == project_row(row_values(cols, row as int), mask as int) by {
                        let rv = row_values(cols, row as int);
                        assert(project_from(rv, pre_mbits, j as int) == project_from(
                            rv,
                            pre_mbits / 2,
                            j + 1,
                        ));
                    }
                }
            }
            mbits = mbits / 2;
            j += 1;
        }
        proof {
            assert forall|cols: Seq<Seq<Seq<u8>>>, rows: int|
                #[trigger] stores(self.jar@, self.data@, cols, rows) && (row as int) < rows && k0
                    as int == cell_index(ncols, row as int, 0) implies list_view(out)
                    == project_row(row_values(cols, row as int), mask as int) by {
                let rv = row_values(cols, row as int);
                assert(project_from(rv, mbits as int, columns as int) =~= Seq::<Seq<u8>>::empty());
                assert(list_view(out) + Seq::<Seq<u8>>::empty() =~= list_view(out));
            }
        }
        proof {
            assert forall|cols: Seq<Seq<Seq<u8>>>, rows: int|
                #[trigger] stores(self.jar@, self.data@, cols, rows) implies (row as int)
                < rows by {
                assert((row as int) < rows) by (nonlinear_arith)
                    requires
                        ncols >= 1,
                        (row as int) * ncols + ncols < rows * ncols + 1,
                        0 <= row as int,
                        0 <= rows,
                ;
            }
        }
        Ok(Some(out))
    }

    /// The row number that the key-addressed structures map `key` to.
    fn lookup_row(&self, key: &Vec<u8>) -> (r: Result<Option<u64>, NippyJarError>)
        requires
            self.jar.wf(),
        ensures
            forall|keys: Seq<Seq<u8>>, rows: int, i: int|
                #![trigger key_mapped(self.jar@, keys, rows), keys[i]]
                key_mapped(self.jar@, keys, rows) && distinct_keys(keys) && 0 <= i < rows && rows
                    <= usize::MAX && key@ == keys[i] ==> r == Ok::<Option<u64>, NippyJarError>(
                    Some(i as u64),
                ),
            (match self.jar@.filter {
                Some(f) => !f.keys.contains(key@),
                None => false,
            }) ==> r == Ok::<Option<u64>, NippyJarError>(None::<u64>),
    {
        match &self.jar.filter {
            None => {},
            Some(f) => {
                if !f.contains(key) {
                    return Ok(None);
                }
            },
        }
        let idx_opt = match &self.jar.phf {
            None => {
                return Err(NippyJarError::PHFMissing);
            },
            Some(p) => {
                match p.get_index(key) {
                    Ok(v) => v,
                    Err(e) => {
                        return Err(e);
                    },
                }
            },
        };
        let idx = match idx_opt {
            Some(v) => v,
            None => {
                return Ok(None);
            },
        };
        proof {
            assert forall|keys: Seq<Seq<u8>>, rows: int, i: int|
                #![trigger key_mapped(self.jar@, keys, rows), keys[i]]
                key_mapped(self.jar@, keys, rows) && distinct_keys(keys) && 0 <= i < rows && rows
                    <= usize::MAX && key@ == keys[i] implies idx == i as u64 && idx
                    <= usize::MAX by {
                lemma_phf_uniqueness(keys, i);
            }
        }
        if idx > usize::MAX as u64 {
            return Err(NippyJarError::Decode);
        }
        let row64 = match psef_access(&self.jar.offsets_index, idx as usize) {
            Some(v) => v,
            None => {
                proof {
                    assert forall|keys: Seq<Seq<u8>>, rows: int, i: int|
                        #![trigger key_mapped(self.jar@, keys, rows), keys[i]]
                        key_mapped(self.jar@, keys, rows) && distinct_keys(keys) && 0 <= i < rows
                            && rows <= usize::MAX && key@ == keys[i] implies false by {
                        lemma_phf_uniqueness(keys, i);
                        crate::lemma_dense_map_len(keys, keys.len() as int);
                    }
                }
                return Err(NippyJarError::Decode);
            },
        };
        proof {
            assert forall|keys: Seq<Seq<u8>>, rows: int, i: int|
                #![trigger key_mapped(self.jar@, keys, rows), keys[i]]
                key_mapped(self.jar@, keys, rows) && distinct_keys(keys) && 0 <= i < rows && rows
                    <= usize::MAX && key@ == keys[i] implies row64 == i as u64 by {
                lemma_phf_uniqueness(keys, i);
                crate::lemma_dense_map_len(keys, keys.len() as int);
                crate::lemma_dense_map_identity(keys, keys.len() as int, i);
            }
        }
        Ok(Some(row64))
    }

    /// The row whose key is `key`, with every column; `None` when the
    /// filter rejects the key or the perfect hash does not know it.
    pub fn row_by_key(&self, key: &Vec<u8>) -> (r: Result<Option<Vec<Vec<u8>>>, NippyJarError>)
        requires
            self.jar.wf(),
        ensures
            forall|cols: Seq<Seq<Seq<u8>>>, rows: int, keys: Seq<Seq<u8>>, i: int|
                #![trigger stores(self.jar@, self.data@, cols, rows), key_mapped(self.jar@, keys, rows), keys[i]]
                stores(self.jar@, self.data@, cols, rows) && key_mapped(self.jar@, keys, rows)
                    && distinct_keys(keys) && 0 <= i < rows && key@ == keys[i] ==> (r matches Ok(o)
                    && o matches Some(out) && list_view(out) == row_values(cols, i)),
            (match self.jar@.filter {
                Some(f) => !f.keys.contains(key@),
                None => false,
            }) ==> r == Ok::<Option<Vec<Vec<u8>>>, NippyJarError>(None::<Vec<Vec<u8>>>),
    {
        let row64 = match self.lookup_row(key) {
            Ok(Some(v)) => v,
            Ok(None) => {
                proof {
                    lemma_lookup_applicable(self.jar@, self.data@);
                }
                return Ok(None);
            },
            Err(e) => {
                proof {
                    lemma_lookup_applicable(self.jar@, self.data@);
                }
                return Err(e);
            },
        };
        proof {
            lemma_lookup_applicable(self.jar@, self.data@);
        }
        if row64 > usize::MAX as u64 {
            return Err(NippyJarError::Decode);
        }
        self.row_by_number(row64 as usize)
    }

    /// The row whose key is `key`, projected by `mask` over `total_cols`
    /// columns.
    pub fn row_by_key_with_cols(&self, key: &Vec<u8>, mask: usize, total_cols: usize) -> (r:
        Result<Option<Vec<Vec<u8>>>, NippyJarError>)
        requires
            self.jar.wf(),
        ensures
            forall|cols: Seq<Seq<Seq<u8>>>, rows: int, keys: Seq<Seq<u8>>, i: int|
                #![trigger stores(self.jar@, self.data@, cols, rows), key_mapped(self.jar@, keys, rows), keys[i]]
                stores(self.jar@, self.data@, cols, rows) && key_mapped(self.jar@, keys, rows)
                    && distinct_keys(keys) && 0 <= i < rows && key@ == keys[i] && total_cols
                    == self.jar@.columns ==> (r matches Ok(o) && o matches Some(out) && list_view(
                    out,
                ) == project_row(row_values(cols, i), mask as int)),
            (match self.jar@.filter {
                Some(f) => !f.keys.contains(key@),
                None => false,
            }) ==> r == Ok::<Option<Vec<Vec<u8>>>, NippyJarError>(None::<Vec<Vec<u8>>>),
    {
        let row64 = match self.lookup_row(key) {
            Ok(Some(v)) => v,
            Ok(None) => {
                proof {
                    lemma_lookup_applicable(self.jar@, self.data@);
                }
                return Ok(None);
            },
            Err(e) => {
                proof {
                    lemma_lookup_applicable(self.jar@, self.data@);
                }
                return Err(e);
            },
        };
        proof {
            lemma_lookup_applicable(self.jar@, self.data@);
        }
        if row64 > usize::MAX as u64 {
            return Err(NippyJarError::Decode);
        }
        self.row_by_number_with_cols(row64 as usize, mask, total_cols)
    }

    /// Sequential iteration: the current row with every column, then an
    /// advance; `None` once past the last stored row.
    pub fn next_row(&mut self) -> (r: Result<Option<Vec<Vec<u8>>>, NippyJarError>)
        requires
            old(self).jar.wf(),
        ensures
            final(self).jar == old(self).jar && final(self).data == old(self).data,
            forall|cols: Seq<Seq<Seq<u8>>>, rows: int|
                #[trigger] stores(old(self).jar@, old(self).data@, cols, rows) ==> if (old(self).row as int) < rows {
                    r matches Ok(o) && o matches Some(out) && list_view(out) == row_values(
                        cols,
                        old(self).row as int,
                    ) && final(self).row == old(self).row + 1
                } else {
                    r == Ok::<Option<Vec<Vec<u8>>>, NippyJarError>(None::<Vec<Vec<u8>>>) && final(self).row == old(self).row
                },
    {
        let ghost ncols = self.jar@.columns as int;
        let columns = self.jar.columns;
        let offsets = match &self.jar.offsets {
            Some(ef) => ef,
            None => {
                return Err(NippyJarError::Decode);
            },
        };
        let n_offs = ef_len(offsets);
        let row = self.row;
        let in_range: bool = match row.checked_mul(columns) {
            Some(k0) => match k0.checked_add(columns) {
                Some(k_end) => k_end < n_offs,
                None => false,
            },
            None => false,
        };
        proof {
            lemma_row_fits(self.jar@, self.data@, row as int, n_offs as int);
            lemma_row_past_end(self.jar@, self.data@, row as int, n_offs as int);
        }
        if !in_range {
            return Ok(None);
        }
        proof {
            assert(row <= row * (columns as int)) by (nonlinear_arith)
                requires
                    columns >= 1,
                    row >= 0,
            ;
        }
        let r = self.row_by_number(row);
        match r {
            Ok(Some(v)) => {
                self.row = row + 1;
                Ok(Some(v))
            },
            Ok(None) => Err(NippyJarError::Decode),
            Err(e) => Err(e),
        }
    }
}

/// Under any `stores` instance, a row below the row count has all its
/// offset positions strictly inside the offset sequence.
proof fn lemma_row_fits(m: JarModel, data: Seq<u8>, row: int, n_offs: int)
    requires
        0 <= row,
    ensures
        forall|cols: Seq<Seq<Seq<u8>>>, rows: int|
            #[trigger] stores(m, data, cols, rows) && row < rows && n_offs == rows * (
            m.columns as int) + 1 ==> row * (m.columns as int) + (m.columns as int) < n_offs
                && (row + 1) * (m.columns as int) <= rows * (m.columns as int),
{
    assert forall|cols: Seq<Seq<Seq<u8>>>, rows: int|
        #[trigger] stores(m, data, cols, rows) && row < rows && n_offs == rows * (
        m.columns as int) + 1 implies row * (m.columns as int) + (m.columns as int) < n_offs && (
    row + 1) * (m.columns as int) <= rows * (m.columns as int) by {
        let nc = m.columns as int;
        assert((row + 1) * nc <= rows * nc && row * nc + nc == (row + 1) * nc) by (nonlinear_arith)
            requires
                nc >= 1,
                0 <= row < rows,
        ;
    }
}

/// Under any `stores` instance, a row at or past the row count has its end
/// position at or past the sentinel.
proof fn lemma_row_past_end(m: JarModel, data: Seq<u8>, row: int, n_offs: int)
    requires
        0 <= row,
    ensures
        forall|cols: Seq<Seq<Seq<u8>>>, rows: int|
            #[trigger] stores(m, data, cols, rows) && row >= rows && n_offs == rows * (
            m.columns as int) + 1 ==> row * (m.columns as int) + (m.columns as int) >= n_offs,
{
    assert forall|cols: Seq<Seq<Seq<u8>>>, rows: int|
        #[trigger] stores(m, data, cols, rows) && row >= rows && n_offs == rows * (
        m.columns as int) + 1 implies row * (m.columns as int) + (m.columns as int) >= n_offs by {
        let nc = m.columns as int;
        assert(row * nc + nc >= rows * nc + 1) by (nonlinear_arith)
            requires
                nc >= 1,
                row >= rows >= 0,
        ;
    }
}

/// `key_mapped` together with `stores` bounds the row count by the machine
/// word, so a mapped row number always fits `usize`.
proof fn lemma_lookup_applicable(m: JarModel, data: Seq<u8>)
    ensures
        forall|cols: Seq<Seq<Seq<u8>>>, rows: int|
            #[trigger] stores(m, data, cols, rows) ==> rows <= usize::MAX,
{
    assert forall|cols: Seq<Seq<Seq<u8>>>, rows: int|
        #[trigger] stores(m, data, cols, rows) implies rows <= usize::MAX by {
        let nc = m.columns as int;
        assert(rows <= rows * nc) by (nonlinear_arith)
            requires
                nc >= 1,
                rows >= 0,
        ;
    }
}

/// Bit `j` of a projection mask, counting from the least significant bit.
pub open spec fn mask_bit(m: int, j: int) -> bool
    decreases j,
{
    if j <= 0 {
        m % 2 == 1
    } else {
        mask_bit(m / 2, j - 1)
    }
}

/// Projection with every relevant bit set keeps the whole suffix.
proof fn lemma_project_from_full(vals: Seq<Seq<u8>>, m: int, j: int)
    requires
        0 <= j <= vals.len(),
        forall|t: int| 0 <= t < vals.len() - j ==> #[trigger] mask_bit(m, t),
    ensures
        project_from(vals, m, j) == vals.skip(j),
    decreases vals.len() - j,
{
    if j == vals.len() {
        assert(project_from(vals, m, j) =~= vals.skip(j));
    } else {
        assert(mask_bit(m, 0));
        assert forall|t: int| 0 <= t < vals.len() - (j + 1) implies #[trigger] mask_bit(
            m / 2,
            t,
        ) by {
            assert(mask_bit(m, t + 1));
        }
        lemma_project_from_full(vals, m / 2, j + 1);
        assert(seq![vals[j]] + vals.skip(j + 1) =~= vals.skip(j));
    }
}

/// Projection correctness, full-mask direction: a mask with every column
/// bit set returns the whole row, so the values a narrower mask retains
/// equal the corresponding entries of the full-mask row.
pub proof fn lemma_project_row_full(vals: Seq<Seq<u8>>, mask: int)
    requires
        forall|t: int| 0 <= t < vals.len() ==> #[trigger] mask_bit(mask, t),
    ensures
        project_row(vals, mask) == vals,
{
    lemma_project_from_full(vals, mask, 0);
    assert(vals.skip(0) =~= vals);
}

/// Projection correctness, selection direction: a cleared bit drops
/// exactly that column and keeps the rest in ascending order.
pub proof fn lemma_project_from_unfold(vals: Seq<Seq<u8>>, m: int, j: int)
    requires
        0 <= j < vals.len(),
    ensures
        m % 2 == 1 ==> project_from(vals, m, j) == seq![vals[j]] + project_from(vals, m / 2, j + 1),
        m % 2 != 1 ==> project_from(vals, m, j) == project_from(vals, m / 2, j + 1),
{
    if m % 2 != 1 {
        assert(project_from(vals, m, j) =~= project_from(vals, m / 2, j + 1));
    }
}

/// The number of set bits among the low `n` bits of a mask.
pub open spec fn count_set_bits(m: int, n: int) -> int
    decreases n,
{
    if n <= 0 {
        0
    } else {
        (if m % 2 == 1 {
            1int
        } else {
            0int
        }) + count_set_bits(m / 2, n - 1)
    }
}

proof fn lemma_project_from_len(vals: Seq<Seq<u8>>, m: int, j: int)
    requires
        0 <= j <= vals.len(),
    ensures
        project_from(vals, m, j).len() == count_set_bits(m, vals.len() - j),
    decreases vals.len() - j,
{
    if j < vals.len() {
        lemma_project_from_len(vals, m / 2, j + 1);
    }
}

/// Projection correctness, cardinality: the projected row holds exactly
/// one entry per set mask bit over the row's columns, in ascending column
/// order (the order is definitional in `project_from`).
pub proof fn lemma_project_row_len(vals: Seq<Seq<u8>>, mask: int)
    ensures
        project_row(vals, mask).len() == count_set_bits(mask, vals.len() as int),
{
    lemma_project_from_len(vals, mask, 0);
}

} // verus!

//! An immutable columnar store: a writer/reader pair over a self-describing
//! data blob (configuration head plus row-major value bytes) and an index
//! blob (the serialized Elias-Fano offset table followed by the serialized
//! prefix-summed Elias-Fano key-to-row map).

pub mod codec;
pub mod compression;
pub mod cursor;
pub mod error;
pub mod filter;
pub mod layout;
pub mod offsets;
pub mod phf;

use vstd::prelude::*;
use vstd::pervasive::VecAdditionalExecFns;

use crate::codec::{
    bytes_at, copy_bytes_into, dec_bytes, dec_u64, enc_bytes, enc_u64, lemma_bytes_at_concat,
    lemma_dec_enc_bytes, lemma_dec_enc_u64, lemma_enc_u64_len, list_fits, list_view, matrix_view,
    push_bytes, push_u64, read_bytes, read_u64,
};
use crate::compression::{
    comp_opt_view, comp_spec, dec_compressor, enc_compressor, lemma_dec_enc_compressor,
    read_compressor, trained_dicts, write_compressor, zstd_dictionary, zstd_dictionary_ok,
    Compressors, Zstd, ZstdModel, ZSTD_INPUT_LIMIT,
};
use crate::error::NippyJarError;
use crate::filter::{
    dec_filters, enc_filters, filter_opt_view, lemma_dec_enc_filters, read_filters, write_filters,
    Cuckoo, FilterModel, InclusionFilters,
};
use crate::layout::{
    cell_bytes, cell_index, lemma_cell_index_bound, lemma_cell_index_inj,
    lemma_cell_index_row_wrap, lemma_payload_cell_slice, lemma_payload_len_monotone,
    lemma_row_bytes_len_monotone, lemma_subrange_shift, payload_upto, row_bytes_upto,
};
use crate::offsets::{
    ef_built, ef_bytes, ef_contents, ef_enable_rank, ef_read, ef_write, efb_build, efb_new,
    efb_push, psef_built, psef_bytes, psef_contents, psef_default, psef_from_slice, psef_read,
    psef_write, seq_sum,
};
use crate::phf::{
    dec_phf, enc_phf, first_key_index, lemma_first_key_index, phf_index, phf_opt_view,
    lemma_dec_enc_phf, read_phf, write_phf, Fmph, Functions, GoFmph, PhfModel,
};

verus! {

/// The one format version this engine reads and writes.
pub const NIPPY_JAR_VERSION: u64 = 1;

/// Model of a jar: its configuration, and once frozen or loaded, the
/// decoded offset table and the dense key-to-row map.
#[verifier::ext_equal]
pub struct JarModel {
    pub user_header: Seq<u8>,
    pub columns: usize,
    pub compressor: Option<ZstdModel>,
    pub filter: Option<FilterModel>,
    pub phf: Option<PhfModel>,
    pub offsets: Option<Seq<u64>>,
    pub offsets_index: Seq<u64>,
}

/// A write-once, read-many columnar store.  `freeze` turns column values
/// into a data blob and an index blob; `load` reads a jar back from the two
/// blobs; a cursor answers row queries against the data blob.
pub struct NippyJar {
    /// User-defined header data, carried through the engine as opaque bytes.
    pub user_header: Vec<u8>,
    /// Number of data columns in the jar.
    pub columns: usize,
    /// Optional compression applied to each stored value.
    pub compressor: Option<Compressors>,
    /// Optional membership filter over the key column.
    pub filter: Option<InclusionFilters>,
    /// Optional perfect hash from key to dense index.
    pub phf: Option<Functions>,
    /// Offsets of each stored value in the data blob, with a trailing
    /// sentinel; present once frozen or loaded.
    pub offsets: Option<sucds::mii_sequences::EliasFano>,
    /// Dense map from perfect-hash index to row number.
    pub offsets_index: sucds::int_vectors::PrefixSummedEliasFano,
}

impl View for NippyJar {
    type V = JarModel;

    open spec fn view(&self) -> JarModel {
        JarModel {
            user_header: self.user_header@,
            columns: self.columns,
            compressor: comp_opt_view(self.compressor),
            filter: filter_opt_view(self.filter),
            phf: phf_opt_view(self.phf),
            offsets: match self.offsets {
                Some(ef) => Some(ef_contents(ef)),
                None => None,
            },
            offsets_index: psef_contents(self.offsets_index),
        }
    }
}

/// The configuration parts of two jar models agree (the decoded offset
/// structures may differ).
pub open spec fn cfg_eq(a: JarModel, b: JarModel) -> bool {
    &&& a.user_header == b.user_header
    &&& a.columns == b.columns
    &&& a.compressor == b.compressor
    &&& a.filter == b.filter
    &&& a.phf == b.phf
}

/// Every length in the configuration fits its 64-bit length prefix.
pub open spec fn cfg_fits(m: JarModel) -> bool {
    &&& m.user_header.len() <= u64::MAX
    &&& (m.compressor matches Some(z) ==> (z.dicts matches Some(d) ==> list_fits(d)))
    &&& (m.filter matches Some(f) ==> list_fits(f.keys))
    &&& (m.phf matches Some(p) ==> (p.keys matches Some(ks) ==> list_fits(ks)))
}

/// A structurally valid jar model: at least one column, and a trained
/// dictionary compressor carries one dictionary per column.
pub open spec fn wf_model(m: JarModel) -> bool {
    &&& m.columns >= 1
    &&& (m.compressor matches Some(z) ==> z.wf() && z.columns == m.columns)
}

// ---------------------------------------------------------------------------
// configuration blob
// ---------------------------------------------------------------------------

pub open spec fn enc_config(m: JarModel) -> Seq<u8> {
    enc_u64(NIPPY_JAR_VERSION) + enc_bytes(m.user_header) + enc_u64(m.columns as u64)
        + enc_compressor(m.compressor) + enc_filters(m.filter) + enc_phf(m.phf)
}

/// Total decoder for the configuration head; `None` on malformed bytes or a
/// foreign format version.
pub open spec fn dec_config(b: Seq<u8>, pos: int) -> Option<(JarModel, int)> {
    match dec_u64(b, pos) {
        Some((ver, p0)) => if ver != NIPPY_JAR_VERSION {
            None
        } else {
            match dec_bytes(b, p0) {
                Some((hdr, p1)) => match dec_u64(b, p1) {
                    Some((ncols, p2)) => match dec_compressor(b, p2) {
                        Some((cm, p3)) => match dec_filters(b, p3) {
                            Some((fm, p4)) => match dec_phf(b, p4) {
                                Some((pm, p5)) => if ncols <= usize::MAX {
                                    Some(
                                        (
                                            JarModel {
                                                user_header: hdr,
                                                columns: ncols as usize,
                                                compressor: cm,
                                                filter: fm,
                                                phf: pm,
                                                offsets: None,
                                                offsets_index: Seq::<u64>::empty(),
                                            },
                                            p5,
                                        ),
                                    )
                                } else {
                                    None
                                },
                                None => None,
                            },
                            None => None,
                        },
                        None => None,
                    },
                    None => None,
                },
                None => None,
            }
        },
        None => None,
    }
}

/// Decoding inverts encoding: at any occurrence of an encoded
/// configuration, the decoder returns exactly that configuration (with no
/// offset structures) and consumes exactly its bytes.
pub proof fn lemma_dec_enc_config(b: Seq<u8>, pos: int, m: JarModel)
    requires
        bytes_at(b, pos, enc_config(m)),
        cfg_fits(m),
    ensures
        dec_config(b, pos) matches Some(d) && cfg_eq(d.0, m) && d.0.offsets is None
            && d.0.offsets_index == Seq::<u64>::empty() && d.1 == pos + enc_config(m).len(),
{
    let e_ver = enc_u64(NIPPY_JAR_VERSION);
    let e_hdr = enc_bytes(m.user_header);
    let e_cols = enc_u64(m.columns as u64);
    let e_cm = enc_compressor(m.compressor);
    let e_fm = enc_filters(m.filter);
    let e_pm = enc_phf(m.phf);
    let t1 = e_hdr + e_cols + e_cm + e_fm + e_pm;
    assert(enc_config(m) =~= e_ver + t1);
    lemma_bytes_at_concat(b, pos, e_ver, t1);
    lemma_enc_u64_len(NIPPY_JAR_VERSION);
    lemma_dec_enc_u64(b, pos, NIPPY_JAR_VERSION);
    let p0 = pos + 8;
    let t2 = e_cols + e_cm + e_fm + e_pm;
    assert(t1 =~= e_hdr + t2);
    lemma_bytes_at_concat(b, p0, e_hdr, t2);
    lemma_dec_enc_bytes(b, p0, m.user_header);
    lemma_enc_u64_len(m.user_header.len() as u64);
    let p1 = p0 + e_hdr.len();
    let t3 = e_cm + e_fm + e_pm;
    assert(t2 =~= e_cols + t3);
    lemma_bytes_at_concat(b, p1, e_cols, t3);
    lemma_dec_enc_u64(b, p1, m.columns as u64);
    lemma_enc_u64_len(m.columns as u64);
    let p2 = p1 + 8;
    let t4 = e_fm + e_pm;
    assert(t3 =~= e_cm + t4);
    lemma_bytes_at_concat(b, p2, e_cm, t4);
    lemma_dec_enc_compressor(b, p2, m.compressor);
    let p3 = p2 + e_cm.len();
    lemma_bytes_at_concat(b, p3, e_fm, e_pm);
    lemma_dec_enc_filters(b, p3, m.filter);
    let p4 = p3 + e_fm.len();
    lemma_dec_enc_phf(b, p4, m.phf);
}

impl NippyJar {
    /// Serialize the configuration head.
    pub fn write_config(&self, out: &mut Vec<u8>)
        ensures
            final(out)@ == old(out)@ + enc_config(self@),
    {
        push_u64(out, NIPPY_JAR_VERSION);
        push_bytes(out, &self.user_header);
        push_u64(out, self.columns as u64);
        write_compressor(out, &self.compressor);
        write_filters(out, &self.filter);
        write_phf(out, &self.phf);
        proof {
            assert(out@ =~= old(out)@ + enc_config(self@));
        }
    }
}

/// Decode the configuration head from the front of a data blob.
pub fn read_config(b: &Vec<u8>) -> (r: Result<(NippyJar, usize), NippyJarError>)
    ensures
        match dec_config(b@, 0) {
            Some(v) => r matches Ok(out) && out.0@ == v.0 && out.1 as int == v.1,
            None => r is Err,
        },
{
    let (ver, p0) = match read_u64(b, 0) {
        Ok(v) => v,
        Err(e) => {
            return Err(e);
        },
    };
    if ver != NIPPY_JAR_VERSION {
        return Err(NippyJarError::UnsupportedVersion(ver));
    }
    let (hdr, p1) = match read_bytes(b, p0) {
        Ok(v) => v,
        Err(e) => {
            return Err(e);
        },
    };
    let (ncols, p2) = match read_u64(b, p1) {
        Ok(v) => v,
        Err(e) => {
            return Err(e);
        },
    };
    let (cm, p3) = match read_compressor(b, p2) {
        Ok(v) => v,
        Err(e) => {
            return Err(e);
        },
    };
    let (fm, p4) = match read_filters(b, p3) {
        Ok(v) => v,
        Err(e) => {
            return Err(e);
        },
    };
    let (pm, p5) = match read_phf(b, p4) {
        Ok(v) => v,
        Err(e) => {
            return Err(e);
        },
    };
    if ncols > usize::MAX as u64 {
        return Err(NippyJarError::Decode);
    }
    let jar = NippyJar {
        user_header: hdr,
        columns: ncols as usize,
        compressor: cm,
        filter: fm,
        phf: pm,
        offsets: None,
        offsets_index: psef_default(),
    };
    Ok((jar, p5))
}

// ---------------------------------------------------------------------------
// construction and configuration
// ---------------------------------------------------------------------------

impl NippyJar {
    /// A structurally valid jar: a valid model, and succinct structures
    /// that were built by their builders, so queries on them return
    /// normally.
    pub open spec fn wf(self) -> bool {
        &&& wf_model(self@)
        &&& psef_built(self.offsets_index)
        &&& match self.offsets {
            Some(ef) => ef_built(ef),
            None => true,
        }
    }

    /// Creates a jar with a user-defined header, carried as opaque bytes.
    pub fn new(columns: usize, user_header: Vec<u8>) -> (r: Self)
        requires
            columns >= 1,
        ensures
            r@ == (JarModel {
                user_header: user_header@,
                columns,
                compressor: None::<ZstdModel>,
                filter: None::<FilterModel>,
                phf: None::<PhfModel>,
                offsets: None::<Seq<u64>>,
                offsets_index: Seq::<u64>::empty(),
            }),
            r.wf(),
    {
        NippyJar {
            user_header,
            columns,
            compressor: None,
            filter: None,
            phf: None,
            offsets: None,
            offsets_index: psef_default(),
        }
    }

    /// Creates a jar without user-defined header data.
    pub fn new_without_header(columns: usize) -> (r: Self)
        requires
            columns >= 1,
        ensures
            r@ == (JarModel {
                user_header: Seq::<u8>::empty(),
                columns,
                compressor: None::<ZstdModel>,
                filter: None::<FilterModel>,
                phf: None::<PhfModel>,
                offsets: None::<Seq<u64>>,
                offsets_index: Seq::<u64>::empty(),
            }),
            r.wf(),
    {
        let r = Self::new(columns, Vec::new());
        proof {
            assert(r@.user_header =~= Seq::<u8>::empty());
        }
        r
    }

    /// Whether this jar can answer key queries: both a filter and a
    /// perfect hash are configured.
    pub fn uses_filters(&self) -> (r: bool)
        ensures
            r == (self@.filter is Some && self@.phf is Some),
    {
        self.filter.is_some() && self.phf.is_some()
    }

    /// Adds zstd compression, with or without per-column dictionaries.
    pub fn with_zstd(self, use_dict: bool, max_dict_size: usize) -> (r: Self)
        ensures
            r@ == (JarModel {
                compressor: Some(
                    ZstdModel {
                        use_dict,
                        max_dict_size,
                        columns: self@.columns,
                        dicts: None::<Seq<Seq<u8>>>,
                    },
                ),
                ..self@
            }),
            self.wf() ==> r.wf(),
    {
        let columns = self.columns;
        let r = NippyJar {
            compressor: Some(Compressors::Zstd(Zstd::new(use_dict, max_dict_size, columns))),
            ..self
        };
        proof {
            assert(r@ =~= (JarModel {
                compressor: Some(
                    ZstdModel { use_dict, max_dict_size, columns: self@.columns, dicts: None::<Seq<Seq<u8>>> },
                ),
                ..self@
            }));
        }
        r
    }

    /// Adds an inclusion filter with the given capacity.
    pub fn with_cuckoo_filter(self, max_capacity: usize) -> (r: Self)
        ensures
            r@ == (JarModel {
                filter: Some(FilterModel { capacity: max_capacity, keys: Seq::<Seq<u8>>::empty() }),
                ..self@
            }),
            self.wf() ==> r.wf(),
    {
        let r = NippyJar { filter: Some(InclusionFilters::Cuckoo(Cuckoo::new(max_capacity))), ..self };
        proof {
            assert(r@ =~= (JarModel {
                filter: Some(FilterModel { capacity: max_capacity, keys: Seq::<Seq<u8>>::empty() }),
                ..self@
            }));
        }
        r
    }

    /// Adds the fingerprint-based minimal perfect hash.
    pub fn with_mphf(self) -> (r: Self)
        ensures
            r@ == (JarModel {
                phf: Some(PhfModel { go: false, keys: None::<Seq<Seq<u8>>> }),
                ..self@
            }),
            self.wf() ==> r.wf(),
    {
        let r = NippyJar { phf: Some(Functions::Fmph(Fmph::new())), ..self };
        proof {
            assert(r@ =~= (JarModel {
                phf: Some(PhfModel { go: false, keys: None::<Seq<Seq<u8>>> }),
                ..self@
            }));
        }
        r
    }

    /// Adds the size-optimized minimal perfect hash.
    pub fn with_gomphf(self) -> (r: Self)
        ensures
            r@ == (JarModel {
                phf: Some(PhfModel { go: true, keys: None::<Seq<Seq<u8>>> }),
                ..self@
            }),
            self.wf() ==> r.wf(),
    {
        let r = NippyJar { phf: Some(Functions::GoFmph(GoFmph::new())), ..self };
        proof {
            assert(r@ =~= (JarModel {
                phf: Some(PhfModel { go: true, keys: None::<Seq<Seq<u8>>> }),
                ..self@
            }));
        }
        r
    }

    /// The user header bytes.
    pub fn user_header(&self) -> (r: &Vec<u8>)
        ensures
            r@ == self@.user_header,
    {
        &self.user_header
    }

    // -----------------------------------------------------------------------
    // filter and perfect-hash operations
    // -----------------------------------------------------------------------

    /// Feed `element` to the inclusion filter.
    pub fn add(&mut self, element: &Vec<u8>) -> (r: Result<(), NippyJarError>)
        ensures
            old(self)@.filter is None ==> r == Err::<(), NippyJarError>(
                NippyJarError::FilterMissing,
            ) && final(self)@ == old(self)@,
            old(self)@.filter matches Some(f) ==> {
                &&& f.keys.len() < f.capacity ==> r is Ok && final(self)@ == (JarModel {
                    filter: Some(FilterModel { capacity: f.capacity, keys: f.keys.push(element@) }),
                    ..old(self)@
                })
                &&& f.keys.len() >= f.capacity ==> r == Err::<(), NippyJarError>(
                    NippyJarError::FilterMaxCapacity,
                ) && final(self)@ == old(self)@
            },
            old(self).wf() ==> final(self).wf(),
    {
        match &mut self.filter {
            None => Err(NippyJarError::FilterMissing),
            Some(f) => f.add(element),
        }
    }

    /// Ask the inclusion filter for membership of `element`.
    pub fn contains(&self, element: &Vec<u8>) -> (r: Result<bool, NippyJarError>)
        ensures
            self@.filter is None ==> r == Err::<bool, NippyJarError>(NippyJarError::FilterMissing),
            self@.filter matches Some(f) ==> r == Ok::<bool, NippyJarError>(
                f.keys.contains(element@),
            ),
    {
        match &self.filter {
            None => Err(NippyJarError::FilterMissing),
            Some(f) => Ok(f.contains(element)),
        }
    }

    /// Train the perfect hash over the row-ordered key vector.
    pub fn set_keys(&mut self, keys: &Vec<Vec<u8>>) -> (r: Result<(), NippyJarError>)
        ensures
            old(self)@.phf is None ==> r == Err::<(), NippyJarError>(NippyJarError::PHFMissing)
                && final(self)@ == old(self)@,
            old(self)@.phf matches Some(p) ==> r is Ok && final(self)@ == (JarModel {
                phf: Some(PhfModel { go: p.go, keys: Some(list_view(*keys)) }),
                ..old(self)@
            }),
            old(self).wf() ==> final(self).wf(),
    {
        match &mut self.phf {
            None => Err(NippyJarError::PHFMissing),
            Some(p) => p.set_keys(keys),
        }
    }

    /// The trained index of `key`, if the perfect hash knows it.
    pub fn get_index(&self, key: &Vec<u8>) -> (r: Result<Option<u64>, NippyJarError>)
        ensures
            self@.phf is None ==> r == Err::<Option<u64>, NippyJarError>(NippyJarError::PHFMissing),
            self@.phf matches Some(p) ==> {
                &&& p.keys is None ==> r == Err::<Option<u64>, NippyJarError>(
                    NippyJarError::PHFMissingKeys,
                )
                &&& p.keys matches Some(ks) ==> r == Ok::<Option<u64>, NippyJarError>(
                    match phf_index(ks, key@) {
                        Some(i) => Some(i as u64),
                        None => None,
                    },
                )
            },
    {
        match &self.phf {
            None => Err(NippyJarError::PHFMissing),
            Some(p) => p.get_index(key),
        }
    }

    /// Train the compression dictionaries from a snapshot of all column
    /// values; a no-op for codecs that need none.
    pub fn prepare_compression(&mut self, columns: Vec<Vec<Vec<u8>>>) -> (r: Result<
        (),
        NippyJarError,
    >)
        ensures
            old(self)@.compressor is None ==> r is Ok && final(self)@ == old(self)@,
            old(self)@.compressor matches Some(z) ==> {
                &&& columns@.len() != z.columns ==> r == Err::<(), NippyJarError>(
                    NippyJarError::ColumnLenMismatch(z.columns, columns@.len() as usize),
                ) && final(self)@ == old(self)@
                &&& columns@.len() == z.columns && !z.use_dict ==> r is Ok && final(self)@ == old(
                    self,
                )@
                &&& columns@.len() == z.columns && z.use_dict ==> match r {
                    Ok(_) => final(self)@ == (JarModel {
                        compressor: Some(
                            ZstdModel {
                                dicts: Some(trained_dicts(matrix_view(columns), z.max_dict_size)),
                                ..z
                            },
                        ),
                        ..old(self)@
                    }),
                    Err(e) => final(self)@ == old(self)@ && e == NippyJarError::Internal,
                }
                &&& columns@.len() == z.columns && z.use_dict ==> (r is Ok <==> forall|j: int|
                    0 <= j < columns@.len() ==> zstd_dictionary_ok(
                        #[trigger] matrix_view(columns)[j],
                        z.max_dict_size as int,
                    ))
                &&& r is Ok && z.use_dict ==> forall|j: int|
                    0 <= j < columns@.len() ==> zstd_dictionary(
                        #[trigger] matrix_view(columns)[j],
                        z.max_dict_size as int,
                    ).len() <= z.max_dict_size
            },
            old(self).wf() ==> final(self).wf(),
    {
        match &mut self.compressor {
            None => Ok(()),
            Some(c) => c.prepare_compression(&columns),
        }
    }
}


// ---------------------------------------------------------------------------
// index preparation
// ---------------------------------------------------------------------------

/// A trained perfect-hash model: same variant, keys set to `ks`.
pub open spec fn trained_phf(p: Option<PhfModel>, ks: Seq<Seq<u8>>) -> Option<PhfModel> {
    match p {
        Some(m) => Some(PhfModel { go: m.go, keys: Some(ks) }),
        None => None,
    }
}

/// A filter model extended by the keys `ks`, in order.
pub open spec fn extended_filter(f: Option<FilterModel>, ks: Seq<Seq<u8>>) -> Option<FilterModel> {
    match f {
        Some(m) => Some(FilterModel { capacity: m.capacity, keys: m.keys + ks }),
        None => None,
    }
}

/// How many more keys an inclusion filter can take.
pub open spec fn filter_room(f: FilterModel) -> int {
    if f.capacity >= f.keys.len() {
        f.capacity - f.keys.len()
    } else {
        0
    }
}

/// The dense key-to-row map after feeding the first `n` keys: entry
/// `phf_index(keys, keys[t])` holds `t`, a later row overwriting an earlier
/// one on duplicate keys.
pub open spec fn dense_map_upto(keys: Seq<Seq<u8>>, n: int) -> Seq<u64>
    decreases n,
{
    if n <= 0 {
        Seq::new(keys.len(), |i: int| 0u64)
    } else {
        dense_map_upto(keys, n - 1).update(first_key_index(keys, keys[n - 1]), (n - 1) as u64)
    }
}

/// The dense key-to-row map over the whole key vector.
pub open spec fn dense_map(keys: Seq<Seq<u8>>) -> Seq<u64> {
    dense_map_upto(keys, keys.len() as int)
}

/// The dense map stored by `prepare_index`: the perfect-hash map when one
/// is configured, else a vector of zeros.
pub open spec fn index_target(p: Option<PhfModel>, ks: Seq<Seq<u8>>, row_count: int) -> Seq<u64> {
    if p is Some {
        dense_map(ks)
    } else {
        Seq::new(row_count as nat, |i: int| 0u64)
    }
}

pub proof fn lemma_dense_map_len(keys: Seq<Seq<u8>>, n: int)
    requires
        n <= keys.len(),
    ensures
        dense_map_upto(keys, n).len() == keys.len(),
    decreases n,
{
    if n > 0 {
        lemma_dense_map_len(keys, n - 1);
        assert(keys.contains(keys[n - 1]));
        lemma_first_key_index(keys, keys[n - 1]);
    }
}

/// Over distinct keys the dense map is the identity: feeding the first
/// `n` keys sets entries `0..n` to themselves and leaves the rest zero.
pub proof fn lemma_dense_map_identity(keys: Seq<Seq<u8>>, n: int, t: int)
    requires
        forall|a: int, b: int| 0 <= a < b < keys.len() ==> keys[a] != keys[b],
        0 <= n <= keys.len(),
        0 <= t < keys.len(),
    ensures
        dense_map_upto(keys, n)[t] == if t < n {
            t as u64
        } else {
            0u64
        },
    decreases n,
{
    lemma_dense_map_len(keys, n);
    if n > 0 {
        lemma_dense_map_identity(keys, n - 1, t);
        lemma_dense_map_len(keys, n - 1);
        crate::phf::lemma_phf_uniqueness(keys, n - 1);
    }
}

impl NippyJar {
    /// Prepare the key-addressed index: train the perfect hash on the
    /// row-ordered keys, feed every key to the filter, and store the dense
    /// map from perfect-hash index to row number.  The keys arrive as a
    /// materialized vector; a streaming caller collects them first.
    pub fn prepare_index(&mut self, values: Vec<Vec<u8>>, row_count: usize) -> (r: Result<
        (),
        NippyJarError,
    >)
        requires
            values@.len() == row_count,
        ensures
            ({
                let ks = list_view(values);
                let target = index_target(old(self)@.phf, ks, row_count as int);
                let fil_ok = match old(self)@.filter {
                    Some(f) => values@.len() == 0 || f.keys.len() + values@.len() <= f.capacity,
                    None => true,
                };
                &&& (!fil_ok ==> r == Err::<(), NippyJarError>(NippyJarError::FilterMaxCapacity))
                &&& (fil_ok && seq_sum(target) + 1 > u64::MAX ==> r == Err::<(), NippyJarError>(
                    NippyJarError::Internal,
                ))
                &&& (fil_ok && seq_sum(target) + 1 <= u64::MAX ==> r is Ok)
                &&& (r is Ok ==> final(self)@ == (JarModel {
                    phf: trained_phf(old(self)@.phf, ks),
                    filter: extended_filter(old(self)@.filter, ks),
                    offsets_index: target,
                    ..old(self)@
                }))
                &&& (r == Err::<(), NippyJarError>(NippyJarError::Internal) ==> final(self)@
                    == (JarModel {
                    phf: trained_phf(old(self)@.phf, ks),
                    filter: extended_filter(old(self)@.filter, ks),
                    ..old(self)@
                }))
                &&& (r == Err::<(), NippyJarError>(NippyJarError::FilterMaxCapacity) ==> match old(
                    self,
                )@.filter {
                    Some(f) => final(self)@ == (JarModel {
                        phf: trained_phf(old(self)@.phf, ks),
                        filter: Some(
                            FilterModel {
                                capacity: f.capacity,
                                keys: f.keys + ks.take(filter_room(f)),
                            },
                        ),
                        ..old(self)@
                    }),
                    None => false,
                })
            }),
            old(self).wf() ==> final(self).wf(),
    {
        let ghost ks = list_view(values);
        match &mut self.phf {
            None => {},
            Some(p) => {
                let _ = p.set_keys(&values);
            },
        }
        proof {
            assert(phf_opt_view(self.phf) == trained_phf(old(self)@.phf, ks));
        }
        let mut dense: Vec<u64> = Vec::new();
        let mut t: usize = 0;
        while t < row_count
            invariant
                t <= row_count,
                dense@ == Seq::new(t as nat, |i: int| 0u64),
            decreases row_count - t,
        {
            dense.push(0u64);
            proof {
                assert(dense@ =~= Seq::new((t + 1) as nat, |i: int| 0u64));
            }
            t += 1;
        }
        if self.filter.is_some() || self.phf.is_some() {
            let mut row: usize = 0;
            while row < values.len()
                invariant
                    row <= values@.len(),
                    values@.len() == row_count,
                    ks == list_view(values),
                    ks.len() == row_count,
                    self@.phf == trained_phf(old(self)@.phf, ks),
                    self@.filter == (match old(self)@.filter {
                        Some(m) => Some(
                            FilterModel { capacity: m.capacity, keys: m.keys + ks.take(row as int) },
                        ),
                        None => None,
                    }),
                    match old(self)@.filter {
                        Some(m) => row > 0 ==> m.keys.len() + row <= m.capacity,
                        None => true,
                    },
                    self@.user_header == old(self)@.user_header,
                    self@.columns == old(self)@.columns,
                    self@.compressor == old(self)@.compressor,
                    self.offsets == old(self).offsets,
                    self.offsets_index == old(self).offsets_index,
                    self@.offsets == old(self)@.offsets,
                    self@.offsets_index == old(self)@.offsets_index,
                    dense@ == (if old(self)@.phf is Some {
                        dense_map_upto(ks, row as int)
                    } else {
                        Seq::new(row_count as nat, |i: int| 0u64)
                    }),
                decreases values@.len() - row,
            {
                match &mut self.filter {
                    None => {},
                    Some(f) => {
                        match f.add(&values[row]) {
                            Ok(_) => {
                                proof {
                                    let m = old(self)@.filter.unwrap();
                                    assert((m.keys + ks.take(row as int)).push(ks[row as int]) =~= m.keys
                                        + ks.take(row + 1));
                                }
                            },
                            Err(_) => {
                                proof {
                                    let m = old(self)@.filter.unwrap();
                                    assert(row as int == filter_room(m));
                                    assert(ks.take(row as int) =~= ks.take(filter_room(m)));
                                }
                                return Err(NippyJarError::FilterMaxCapacity);
                            },
                        }
                    },
                }
                match &self.phf {
                    None => {},
                    Some(p) => {
                        match p.get_index(&values[row]) {
                            Ok(Some(ix)) => {
                                proof {
                                    assert(ks[row as int] == values@[row as int]@);
                                    assert(ks.contains(ks[row as int]));
                                    lemma_first_key_index(ks, ks[row as int]);
                                    lemma_dense_map_len(ks, row as int);
                                }
                                let ixu = ix as usize;
                                dense.set(ixu, row as u64);
                            },
                            _ => {
                                proof {
                                    assert(ks[row as int] == values@[row as int]@);
                                    assert(ks.contains(ks[row as int]));
                                }
                                return Err(NippyJarError::PHFMissingKeys);
                            },
                        }
                    },
                }
                row += 1;
            }
            proof {
                assert(ks.take(row_count as int) =~= ks);
            }
        }
        proof {
            if old(self)@.filter is Some {
                assert(ks.take(row_count as int) =~= ks);
            }
            assert(dense@ == index_target(old(self)@.phf, ks, row_count as int));
        }
        match psef_from_slice(&dense) {
            Ok(p) => {
                self.offsets_index = p;
                proof {
                    assert(self@ =~~= (JarModel {
                        phf: trained_phf(old(self)@.phf, ks),
                        filter: extended_filter(old(self)@.filter, ks),
                        offsets_index: index_target(old(self)@.phf, ks, row_count as int),
                        ..old(self)@
                    }));
                }
                Ok(())
            },
            Err(_) => {
                proof {
                    assert(self@ =~~= (JarModel {
                        phf: trained_phf(old(self)@.phf, ks),
                        filter: extended_filter(old(self)@.filter, ks),
                        ..old(self)@
                    }));
                }
                Err(NippyJarError::Internal)
            },
        }
    }
}

// ---------------------------------------------------------------------------
// freezing
// ---------------------------------------------------------------------------

/// Exactly one of the filter and the perfect hash is configured: a valid
/// but degenerate state that `freeze` rejects, since the key-addressed
/// read path needs both.
pub open spec fn degenerate_config(m: JarModel) -> bool {
    (m.filter is Some) != (m.phf is Some)
}

/// Every cell the writer will feed to the codec is below the codec's
/// input-size limit; trivially true without a codec.
pub open spec fn cell_sizes_ok(
    cm: Option<ZstdModel>,
    cols: Seq<Seq<Seq<u8>>>,
    ncols: int,
    rows: int,
) -> bool {
    cm is Some ==> forall|i: int, j: int|
        0 <= i < rows && 0 <= j < ncols && i < cols[j].len() ==> (#[trigger] cols[j][i]).len()
            < ZSTD_INPUT_LIMIT
}

/// The codec can emit values.
pub open spec fn compressor_ready(m: JarModel) -> bool {
    match m.compressor {
        Some(z) => z.ready(),
        None => true,
    }
}

/// A perfect hash is configured but was never trained.
pub open spec fn phf_untrained(m: JarModel) -> bool {
    match m.phf {
        Some(p) => p.keys is None,
        None => false,
    }
}

/// The data-file predicate: the jar's decoded offsets delimit, inside
/// `data`, the codec-encoded cell of every row and column of `cols`, in
/// row-major order, with a trailing sentinel offset.
pub open spec fn stores(m: JarModel, data: Seq<u8>, cols: Seq<Seq<Seq<u8>>>, rows: int) -> bool {
    match m.offsets {
        None => false,
        Some(offs) => {
            &&& 0 <= rows
            &&& m.columns >= 1
            &&& cols.len() == m.columns
            &&& (forall|j: int| 0 <= j < cols.len() ==> (#[trigger] cols[j]).len() >= rows)
            &&& compressor_ready(m)
            &&& offs.len() == cell_index(m.columns as int, rows, 0) + 1
            &&& rows * (m.columns as int) + 1 <= usize::MAX
            &&& (forall|k: int| 0 <= k < offs.len() - 1 ==> (#[trigger] offs[k]) <= offs[k + 1])
            &&& (forall|k: int| 0 <= k < offs.len() ==> (#[trigger] offs[k]) <= data.len())
            &&& (forall|i: int, j: int|
                0 <= i < rows && 0 <= j < m.columns ==> #[trigger] cell_bytes(
                    data,
                    offs,
                    cell_index(m.columns as int, i, j),
                ) == comp_spec(m.compressor, j, cols[j][i]))
        },
    }
}


/// The first exhaustion point of a column set read row-major: the least
/// column length, at the least column attaining it.
fn shortest_column(columns: &Vec<Vec<Vec<u8>>>) -> (r: (usize, usize))
    requires
        columns@.len() >= 1,
    ensures
        (r.1 as int) < columns@.len(),
        matrix_view(*columns)[r.1 as int].len() == r.0 as int,
        forall|t: int|
            0 <= t < columns@.len() ==> (#[trigger] matrix_view(*columns)[t]).len() >= r.0 as int,
        forall|t: int| 0 <= t < r.1 as int ==> (#[trigger] matrix_view(*columns)[t]).len() > r.0 as int,
{
    let mut min_len = columns[0].len();
    let mut min_col: usize = 0;
    proof {
        assert(matrix_view(*columns)[0] == list_view(columns@[0]));
    }
    let mut j: usize = 1;
    while j < columns.len()
        invariant
            1 <= j <= columns@.len(),
            (min_col as int) < j,
            matrix_view(*columns).len() == columns@.len(),
            matrix_view(*columns)[min_col as int].len() == min_len as int,
            forall|t: int| 0 <= t < j ==> (#[trigger] matrix_view(*columns)[t]).len() >= min_len as int,
            forall|t: int|
                0 <= t < min_col as int ==> (#[trigger] matrix_view(*columns)[t]).len()
                    > min_len as int,
        decreases columns@.len() - j,
    {
        proof {
            assert(matrix_view(*columns)[j as int] == list_view(columns@[j as int]));
        }
        if columns[j].len() < min_len {
            min_len = columns[j].len();
            min_col = j;
        }
        j += 1;
    }
    (min_len, min_col)
}

impl NippyJar {
    /// The ordered precondition checks of `freeze`: column count, codec
    /// readiness, perfect-hash training, and the rejection of the
    /// degenerate configuration in which only one of the filter and the
    /// perfect hash is present.
    fn freeze_check(&self, given_columns: usize) -> (r: Result<(), NippyJarError>)
        ensures
            given_columns != self@.columns ==> r == Err::<(), NippyJarError>(
                NippyJarError::ColumnLenMismatch(self@.columns, given_columns),
            ),
            given_columns == self@.columns && !compressor_ready(self@) ==> r == Err::<
                (),
                NippyJarError,
            >(NippyJarError::CompressorNotReady),
            given_columns == self@.columns && compressor_ready(self@) && phf_untrained(self@)
                ==> r == Err::<(), NippyJarError>(NippyJarError::PHFMissingKeys),
            given_columns == self@.columns && compressor_ready(self@) && !phf_untrained(self@)
                && degenerate_config(self@) ==> r == Err::<(), NippyJarError>(
                if self@.phf is Some {
                    NippyJarError::FilterMissing
                } else {
                    NippyJarError::PHFMissing
                },
            ),
            given_columns == self@.columns && compressor_ready(self@) && !phf_untrained(self@)
                && !degenerate_config(self@) ==> r is Ok,
            r matches Err(e) ==> {
                &&& (e matches NippyJarError::ColumnLenMismatch(a, b) ==> given_columns
                    != self@.columns)
                &&& (e == NippyJarError::CompressorNotReady ==> !compressor_ready(self@))
                &&& (e == NippyJarError::PHFMissingKeys ==> phf_untrained(self@))
                &&& (e == NippyJarError::FilterMissing ==> degenerate_config(self@))
                &&& (e == NippyJarError::PHFMissing ==> degenerate_config(self@))
            },
    {
        if given_columns != self.columns {
            return Err(NippyJarError::ColumnLenMismatch(self.columns, given_columns));
        }
        let ready = match &self.compressor {
            None => true,
            Some(c) => c.is_ready(),
        };
        if !ready {
            return Err(NippyJarError::CompressorNotReady);
        }
        let trained = match &self.phf {
            None => true,
            Some(p) => p.is_trained(),
        };
        if !trained {
            return Err(NippyJarError::PHFMissingKeys);
        }
        if self.filter.is_some() != self.phf.is_some() {
            if self.phf.is_some() {
                return Err(NippyJarError::FilterMissing);
            } else {
                return Err(NippyJarError::PHFMissing);
            }
        }
        Ok(())
    }

    /// Write all rows: emits the data blob (configuration head followed by
    /// the codec-encoded values in row-major order) and the index blob (the
    /// serialized rank-enabled Elias-Fano offset sequence followed by the
    /// serialized key-to-row map), and remembers the offsets.  The column
    /// snapshot is held in memory in full for the duration of the call.
    #[verifier::rlimit(100)]
    pub fn freeze(&mut self, columns: Vec<Vec<Vec<u8>>>, total_rows: u64) -> (r: Result<
        (Vec<u8>, Vec<u8>),
        NippyJarError,
    >)
        requires
            old(self).wf(),
        ensures
            columns@.len() != old(self)@.columns ==> r == Err::<(Vec<u8>, Vec<u8>), NippyJarError>(
                NippyJarError::ColumnLenMismatch(old(self)@.columns, columns@.len() as usize),
            ) && final(self)@ == old(self)@,
            columns@.len() == old(self)@.columns && !compressor_ready(old(self)@) ==> r == Err::<
                (Vec<u8>, Vec<u8>),
                NippyJarError,
            >(NippyJarError::CompressorNotReady) && final(self)@ == old(self)@,
            columns@.len() == old(self)@.columns && compressor_ready(old(self)@) && phf_untrained(
                old(self)@,
            ) ==> r == Err::<(Vec<u8>, Vec<u8>), NippyJarError>(NippyJarError::PHFMissingKeys)
                && final(self)@ == old(self)@,
            columns@.len() == old(self)@.columns && compressor_ready(old(self)@)
                && !phf_untrained(old(self)@) && degenerate_config(old(self)@) ==> r == Err::<
                (Vec<u8>, Vec<u8>),
                NippyJarError,
            >(
                if old(self)@.phf is Some {
                    NippyJarError::FilterMissing
                } else {
                    NippyJarError::PHFMissing
                },
            ) && final(self)@ == old(self)@,
            old(self).wf() ==> final(self).wf(),
            r matches Err(e) ==> {
                &&& (e matches NippyJarError::ColumnLenMismatch(a, b) ==> columns@.len() != old(
                    self,
                )@.columns)
                &&& (e == NippyJarError::CompressorNotReady ==> !compressor_ready(old(self)@))
                &&& (e == NippyJarError::PHFMissingKeys ==> phf_untrained(old(self)@))
                &&& (e == NippyJarError::FilterMissing ==> degenerate_config(old(self)@))
                &&& (e == NippyJarError::PHFMissing ==> degenerate_config(old(self)@))
            },
            r matches Ok(out) ==> {
                &&& cfg_eq(final(self)@, old(self)@)
                &&& final(self)@.offsets_index == old(self)@.offsets_index
                &&& final(self).wf()
                &&& stores(final(self)@, out.0@, matrix_view(columns), total_rows as int)
                &&& bytes_at(out.0@, 0, enc_config(old(self)@))
                &&& match final(self).offsets {
                    Some(ef) => out.1@ == ef_bytes(ef) + psef_bytes(final(self).offsets_index),
                    None => false,
                }
            },
            r is Err ==> final(self)@ == old(self)@,
            r matches Err(e) ==> (e matches NippyJarError::UnexpectedMissingValue(rr, cc) ==> (
            cc as int) < columns@.len() && matrix_view(columns)[cc as int].len() == rr && (
            rr as int) < total_rows as int),
            ({
                &&& columns@.len() == old(self)@.columns
                &&& compressor_ready(old(self)@)
                &&& !phf_untrained(old(self)@)
                &&& !degenerate_config(old(self)@)
                &&& cell_sizes_ok(
                    old(self)@.compressor,
                    matrix_view(columns),
                    old(self)@.columns as int,
                    total_rows as int,
                )
                &&& (forall|j: int|
                    0 <= j < columns@.len() ==> (#[trigger] matrix_view(columns)[j]).len()
                        >= total_rows as int)
                &&& enc_config(old(self)@).len() + payload_upto(
                    old(self)@.compressor,
                    matrix_view(columns),
                    old(self)@.columns as int,
                    total_rows as int,
                ).len() < u64::MAX
            }) ==> r is Ok,
            ({
                &&& columns@.len() == old(self)@.columns
                &&& compressor_ready(old(self)@)
                &&& !phf_untrained(old(self)@)
                &&& !degenerate_config(old(self)@)
                &&& cell_sizes_ok(
                    old(self)@.compressor,
                    matrix_view(columns),
                    old(self)@.columns as int,
                    total_rows as int,
                )
                &&& (exists|j: int|
                    0 <= j < columns@.len() && (#[trigger] matrix_view(columns)[j]).len()
                        < total_rows as int)
            }) ==> (r matches Err(e) && e matches NippyJarError::UnexpectedMissingValue(rr, cc) && (
            cc as int) < columns@.len() && matrix_view(columns)[cc as int].len() == rr as int && (
            forall|j: int|
                0 <= j < columns@.len() ==> (#[trigger] matrix_view(columns)[j]).len()
                    >= rr as int) && (forall|j: int|
                0 <= j < cc as int ==> (#[trigger] matrix_view(columns)[j]).len() > rr as int) && (
            rr as int) < total_rows as int),
    {
        match self.freeze_check(columns.len()) {
            Ok(_) => {},
            Err(e) => {
                return Err(e);
            },
        }
        let mut data: Vec<u8> = Vec::new();
        self.write_config(&mut data);
        let head_len = data.len();
        let ghost head = data@;
        let ghost cm = self@.compressor;
        let ghost colsv = matrix_view(columns);
        let ghost ncols = self@.columns as int;
        if total_rows > usize::MAX as u64 {
            let (min_len, min_col) = shortest_column(&columns);
            return Err(NippyJarError::UnexpectedMissingValue(min_len as u64, min_col as u64));
        }
        let rows_us = total_rows as usize;
        let mut offs: Vec<u64> = Vec::new();
        let mut row: usize = 0;
        while row < rows_us
            invariant
                *self == *old(self),
                old(self).wf(),
                row <= rows_us,
                rows_us == total_rows as int,
                columns@.len() == old(self)@.columns,
                cm == old(self)@.compressor,
                colsv == matrix_view(columns),
                colsv.len() == columns@.len(),
                ncols == old(self)@.columns as int,
                ncols >= 1,
                compressor_ready(old(self)@),
                !phf_untrained(old(self)@),
                !degenerate_config(old(self)@),
                head == enc_config(old(self)@),
                head_len == head.len(),
                data@ == head + payload_upto(cm, colsv, ncols, row as int),
                offs@.len() == cell_index(ncols, row as int, 0),
                forall|j: int| 0 <= j < ncols ==> (#[trigger] colsv[j]).len() >= row as int,
                forall|k: int| 0 <= k < offs@.len() ==> (#[trigger] offs@[k]) <= data@.len(),
                forall|k: int|
                    0 <= k < offs@.len() - 1 ==> (#[trigger] offs@[k]) <= offs@[k + 1],
                forall|i2: int, j2: int|
                    0 <= i2 && 0 <= j2 < ncols && cell_index(ncols, i2, j2) < offs@.len()
                        ==> (#[trigger] offs@[cell_index(ncols, i2, j2)]) as int == head.len()
                        + payload_upto(cm, colsv, ncols, i2).len() + row_bytes_upto(
                        cm,
                        colsv,
                        i2,
                        j2,
                    ).len(),
            decreases rows_us - row,
        {
            let mut col: usize = 0;
            while col < columns.len()
                invariant
                    *self == *old(self),
                    old(self).wf(),
                    row < rows_us,
                    rows_us == total_rows as int,
                    col <= columns@.len(),
                    columns@.len() == old(self)@.columns,
                    cm == old(self)@.compressor,
                    colsv == matrix_view(columns),
                    colsv.len() == columns@.len(),
                    ncols == old(self)@.columns as int,
                    ncols >= 1,
                    compressor_ready(old(self)@),
                    !phf_untrained(old(self)@),
                    !degenerate_config(old(self)@),
                    head == enc_config(old(self)@),
                    head_len == head.len(),
                    data@ == head + payload_upto(cm, colsv, ncols, row as int) + row_bytes_upto(
                        cm,
                        colsv,
                        row as int,
                        col as int,
                    ),
                    offs@.len() == cell_index(ncols, row as int, col as int),
                    forall|j: int| 0 <= j < ncols ==> (#[trigger] colsv[j]).len() >= row as int,
                    forall|j: int| 0 <= j < col ==> (#[trigger] colsv[j]).len() >= row + 1,
                    forall|k: int| 0 <= k < offs@.len() ==> (#[trigger] offs@[k]) <= data@.len(),
                    forall|k: int|
                        0 <= k < offs@.len() - 1 ==> (#[trigger] offs@[k]) <= offs@[k + 1],
                    forall|i2: int, j2: int|
                        0 <= i2 && 0 <= j2 < ncols && cell_index(ncols, i2, j2) < offs@.len()
                            ==> (#[trigger] offs@[cell_index(ncols, i2, j2)]) as int == head.len()
                            + payload_upto(cm, colsv, ncols, i2).len() + row_bytes_upto(
                            cm,
                            colsv,
                            i2,
                            j2,
                        ).len(),
                decreases columns@.len() - col,
            {
                let ghost old_offs = offs@;
                let pos64 = data.len() as u64;
                offs.push(pos64);
                proof {
                    assert(offs@ =~= old_offs.push(pos64));
                    assert forall|i2: int, j2: int|
                        0 <= i2 && 0 <= j2 < ncols && cell_index(ncols, i2, j2) < offs@.len()
                            implies (#[trigger] offs@[cell_index(ncols, i2, j2)]) as int
                            == head.len() + payload_upto(cm, colsv, ncols, i2).len()
                            + row_bytes_upto(cm, colsv, i2, j2).len() by {
                        if cell_index(ncols, i2, j2) == old_offs.len() {
                            lemma_cell_index_inj(ncols, i2, j2, row as int, col as int);
                        }
                    }
                }
                if row >= columns[col].len() {
                    proof {
                        assert(colsv[col as int].len() == columns@[col as int]@.len());
                    }
                    return Err(NippyJarError::UnexpectedMissingValue(row as u64, col as u64));
                }
                let ghost data_before = data@;
                match &self.compressor {
                    None => {
                        copy_bytes_into(&columns[col][row], &mut data);
                        proof {
                            assert(comp_spec(cm, col as int, colsv[col as int][row as int])
                                == columns@[col as int]@[row as int]@);
                        }
                    },
                    Some(c) => {
                        match c.compress(col, &columns[col][row]) {
                            Ok(compressed) => {
                                copy_bytes_into(&compressed, &mut data);
                            },
                            Err(_) => {
                                proof {
                                    assert(colsv[col as int][row as int] == columns@[col as int]@[
                                        row as int]@);
                                }
                                return Err(NippyJarError::Internal);
                            },
                        }
                    },
                }
                proof {
                    assert(row_bytes_upto(cm, colsv, row as int, col + 1) == row_bytes_upto(
                        cm,
                        colsv,
                        row as int,
                        col as int,
                    ) + comp_spec(cm, col as int, colsv[col as int][row as int]));
                    assert(data@ =~= head + payload_upto(cm, colsv, ncols, row as int)
                        + row_bytes_upto(cm, colsv, row as int, col + 1));
                }
                col += 1;
            }
            proof {
                assert(payload_upto(cm, colsv, ncols, row + 1) == payload_upto(
                    cm,
                    colsv,
                    ncols,
                    row as int,
                ) + row_bytes_upto(cm, colsv, row as int, ncols));
                assert(data@ =~= head + payload_upto(cm, colsv, ncols, row + 1));
                lemma_cell_index_row_wrap(ncols, row as int);
            }
            row += 1;
        }
        let ghost old_offs = offs@;
        let sentinel = data.len() as u64;
        offs.push(sentinel);
        proof {
            assert(offs@ =~= old_offs.push(sentinel));
            assert forall|i2: int, j2: int|
                0 <= i2 && 0 <= j2 < ncols && cell_index(ncols, i2, j2) < offs@.len() implies (
            #[trigger] offs@[cell_index(ncols, i2, j2)]) as int == head.len() + payload_upto(
                cm,
                colsv,
                ncols,
                i2,
            ).len() + row_bytes_upto(cm, colsv, i2, j2).len() by {
                if cell_index(ncols, i2, j2) == old_offs.len() {
                    lemma_cell_index_inj(ncols, i2, j2, rows_us as int, 0);
                }
            }
        }
        let universe = match sentinel.checked_add(1) {
            Some(u) => u,
            None => {
                return Err(NippyJarError::Internal);
            },
        };
        let mut builder = match efb_new(universe, offs.len()) {
            Ok(b) => b,
            Err(_) => {
                return Err(NippyJarError::Internal);
            },
        };
        let mut k: usize = 0;
        while k < offs.len()
            invariant
                *self == *old(self),
                old(self).wf(),
                k <= offs@.len(),
                offs@.len() >= 1,
                crate::offsets::efb_contents(builder) == offs@.take(k as int),
                crate::offsets::efb_universe(builder) == universe,
                crate::offsets::efb_capacity(builder) == offs@.len(),
                universe == sentinel + 1,
                forall|m: int| 0 <= m < offs@.len() ==> (#[trigger] offs@[m]) <= sentinel,
                forall|m: int| 0 <= m < offs@.len() - 1 ==> (#[trigger] offs@[m]) <= offs@[m + 1],
            decreases offs@.len() - k,
        {
            proof {
                if k > 0 {
                    assert(offs@.take(k as int).last() == offs@[k - 1]);
                }
            }
            match efb_push(&mut builder, offs[k]) {
                Ok(_) => {},
                Err(_) => {
                    return Err(NippyJarError::Internal);
                },
            }
            proof {
                assert(offs@.take(k + 1) =~= offs@.take(k as int).push(offs@[k as int]));
            }
            k += 1;
        }
        proof {
            assert(offs@.take(offs@.len() as int) =~= offs@);
        }
        let ef = ef_enable_rank(efb_build(builder));
        let mut index_bytes: Vec<u8> = Vec::new();
        if ef_write(&ef, &mut index_bytes).is_err() {
            return Err(NippyJarError::Internal);
        }
        if psef_write(&self.offsets_index, &mut index_bytes).is_err() {
            return Err(NippyJarError::Internal);
        }
        self.offsets = Some(ef);
        proof {
            let m = self@;
            assert(offs.len() <= usize::MAX);
            assert(offs@.len() == offs.len());
            lemma_freeze_assemble(m, data@, head, colsv, ncols, rows_us as int, offs@);
            assert(cfg_eq(m, old(self)@));
            assert(bytes_at(data@, 0, enc_config(old(self)@))) by {
                assert(data@.subrange(0, head.len() as int) =~= head);
            }
            assert(index_bytes@ =~= ef_bytes(ef) + psef_bytes(self.offsets_index));
        }
        Ok((data, index_bytes))
    }
}

// ---------------------------------------------------------------------------
// loading
// ---------------------------------------------------------------------------

impl NippyJar {
    /// Load a jar back from the data blob and the index blob that `freeze`
    /// emitted: decode the configuration head, then deserialize the offset
    /// sequence and the key-to-row map.  A truncated or unparsable blob is
    /// rejected; a blob that parses but is not the byte image of
    /// builder-built structures yields a jar that may fail the structural
    /// validity the cursor requires.
    pub fn load(data: &Vec<u8>, index: &Vec<u8>) -> (r: Result<NippyJar, NippyJarError>)
        ensures
            dec_config(data@, 0) is None ==> r is Err,
            dec_config(data@, 0) matches Some(d) ==> {
                &&& (!wf_model(d.0) ==> r is Err)
                &&& ((wf_model(d.0) && exists|
                    ef: sucds::mii_sequences::EliasFano,
                    ps: sucds::int_vectors::PrefixSummedEliasFano,
                |
                    index@ == ef_bytes(ef) + psef_bytes(ps)) ==> r is Ok)
                &&& (r matches Ok(jar) ==> wf_model(jar@) && cfg_eq(jar@, d.0) && forall|
                    ef: sucds::mii_sequences::EliasFano,
                    ps: sucds::int_vectors::PrefixSummedEliasFano,
                |
                    index@ == ef_bytes(ef) + psef_bytes(ps) ==> jar.offsets == Some(ef)
                        && jar.offsets_index == ps && (ef_built(ef) && psef_built(ps)
                        ==> jar.wf()))
            },
    {
        let (mut jar, _consumed) = match read_config(data) {
            Ok(v) => v,
            Err(e) => {
                return Err(e);
            },
        };
        if jar.columns < 1 {
            return Err(NippyJarError::Decode);
        }
        let comp_ok = match &jar.compressor {
            None => true,
            Some(c) => c.wf_check(jar.columns),
        };
        if !comp_ok {
            return Err(NippyJarError::Decode);
        }
        let (ef, p1) = match ef_read(index, 0) {
            Ok(v) => v,
            Err(_) => {
                proof {
                    split_index_image(index@);
                }
                return Err(NippyJarError::Decode);
            },
        };
        let (ps, _p2) = match psef_read(index, p1) {
            Ok(v) => v,
            Err(_) => {
                proof {
                    split_index_image(index@);
                }
                return Err(NippyJarError::Decode);
            },
        };
        let ghost before = jar@;
        jar.offsets = Some(ef);
        jar.offsets_index = ps;
        proof {
            assert(cfg_eq(jar@, before));
            assert forall|
                ef0: sucds::mii_sequences::EliasFano,
                ps0: sucds::int_vectors::PrefixSummedEliasFano,
            |
                index@ == ef_bytes(ef0) + psef_bytes(ps0) implies jar.offsets == Some(ef0)
                    && jar.offsets_index == ps0 && (ef_built(ef0) && psef_built(ps0)
                    ==> jar.wf()) by {
                assert(index@.subrange(0, index@.len() as int) =~= index@);
                lemma_bytes_at_concat(index@, 0, ef_bytes(ef0), psef_bytes(ps0));
            }
        }
        Ok(jar)
    }
}

/// Whenever the index blob is the concatenated byte image of a serialized
/// pair, each half occurs at its position.
proof fn split_index_image(b: Seq<u8>)
    ensures
        forall|ef: sucds::mii_sequences::EliasFano, ps: sucds::int_vectors::PrefixSummedEliasFano|
            #![trigger ef_bytes(ef), psef_bytes(ps)]
            b == ef_bytes(ef) + psef_bytes(ps) ==> bytes_at(b, 0, ef_bytes(ef)) && bytes_at(
                b,
                ef_bytes(ef).len() as int,
                psef_bytes(ps),
            ),
{
    assert forall|
        ef: sucds::mii_sequences::EliasFano,
        ps: sucds::int_vectors::PrefixSummedEliasFano,
    |
        #![trigger ef_bytes(ef), psef_bytes(ps)]
        b == ef_bytes(ef) + psef_bytes(ps) implies bytes_at(b, 0, ef_bytes(ef)) && bytes_at(
            b,
            ef_bytes(ef).len() as int,
            psef_bytes(ps),
        ) by {
        assert(b.subrange(0, b.len() as int) =~= b);
        lemma_bytes_at_concat(b, 0, ef_bytes(ef), psef_bytes(ps));
    }
}

/// The configuration of any vector-backed jar fits its length prefixes,
/// so the blob `freeze` writes always decodes.
pub proof fn lemma_jar_cfg_fits(j: NippyJar)
    ensures
        cfg_fits(j@),
{
    broadcast use vstd::std_specs::vec::axiom_spec_len;

    assert(j.user_header.len() == j.user_header@.len());
    match j.compressor {
        Some(c) => {
            crate::compression::lemma_compressor_fits(c);
        },
        None => {},
    }
    match j.filter {
        Some(f) => {
            crate::filter::lemma_filter_fits(f);
        },
        None => {},
    }
    match j.phf {
        Some(p) => {
            crate::phf::lemma_phf_fits(p);
        },
        None => {},
    }
}

/// The data blob `freeze` wrote decodes back to the very configuration the
/// frozen jar carries; together with `load`'s contract and
/// `lemma_freeze_load_round_trip`, every row read from the loaded jar
/// equals the row that was frozen.
pub proof fn lemma_data_blob_decodes(j: NippyJar, data: Seq<u8>)
    requires
        bytes_at(data, 0, enc_config(j@)),
    ensures
        dec_config(data, 0) matches Some(d) && cfg_eq(d.0, j@),
{
    lemma_jar_cfg_fits(j);
    lemma_dec_enc_config(data, 0, j@);
}

/// Round trip: a jar loaded back from the blobs that `freeze` emitted has
/// the same configuration and the same decoded offsets, so it stores the
/// very same matrix, and every row read through a cursor equals what was
/// frozen.
pub proof fn lemma_freeze_load_round_trip(
    frozen: JarModel,
    loaded: JarModel,
    data: Seq<u8>,
    cols: Seq<Seq<Seq<u8>>>,
    rows: int,
)
    requires
        stores(frozen, data, cols, rows),
        cfg_eq(loaded, frozen),
        loaded.offsets == frozen.offsets,
    ensures
        stores(loaded, data, cols, rows),
{
}

/// Offset monotonicity: the decoded offset sequence of any stored jar is
/// non-decreasing, bounded by the data length, and holds one entry per
/// cell plus a trailing sentinel.
pub proof fn lemma_offsets_monotone(m: JarModel, data: Seq<u8>, cols: Seq<Seq<Seq<u8>>>, rows: int)
    requires
        stores(m, data, cols, rows),
    ensures
        m.offsets matches Some(offs) && offs.len() == rows * (m.columns as int) + 1 && (forall|
            k: int,
        | 0 <= k < offs.len() - 1 ==> (#[trigger] offs[k]) <= offs[k + 1]) && (forall|k: int|
            0 <= k < offs.len() ==> (#[trigger] offs[k]) <= data.len()),
{
}

/// Assemble the `stores` predicate from the facts the write loop of
/// `freeze` maintains: the data blob is the configuration head followed by
/// the payload, and every offset holds the byte position of its cell.
#[verifier::rlimit(100)]
proof fn lemma_freeze_assemble(
    m: JarModel,
    data: Seq<u8>,
    head: Seq<u8>,
    colsv: Seq<Seq<Seq<u8>>>,
    ncols: int,
    rows: int,
    offsv: Seq<u64>,
)
    requires
        m.offsets == Some(offsv),
        m.columns as int == ncols,
        ncols >= 1,
        0 <= rows,
        colsv.len() == ncols,
        forall|j: int| 0 <= j < ncols ==> (#[trigger] colsv[j]).len() >= rows,
        compressor_ready(m),
        data == head + payload_upto(m.compressor, colsv, ncols, rows),
        offsv.len() == cell_index(ncols, rows, 0) + 1,
        offsv.len() <= usize::MAX,
        forall|k: int| 0 <= k < offsv.len() ==> (#[trigger] offsv[k]) <= data.len(),
        forall|k: int| 0 <= k < offsv.len() - 1 ==> (#[trigger] offsv[k]) <= offsv[k + 1],
        forall|i2: int, j2: int|
            0 <= i2 && 0 <= j2 < ncols && cell_index(ncols, i2, j2) < offsv.len() ==> (
            #[trigger] offsv[cell_index(ncols, i2, j2)]) as int == head.len() + payload_upto(
                m.compressor,
                colsv,
                ncols,
                i2,
            ).len() + row_bytes_upto(m.compressor, colsv, i2, j2).len(),
    ensures
        stores(m, data, colsv, rows),
{
    let cm = m.compressor;
    assert forall|i: int, j: int| 0 <= i < rows && 0 <= j < ncols implies #[trigger] cell_bytes(
        data,
        offsv,
        cell_index(ncols, i, j),
    ) == comp_spec(cm, j, colsv[j][i]) by {
        lemma_cell_index_bound(ncols, rows, i, j);
        let kk = cell_index(ncols, i, j);
        let base = payload_upto(cm, colsv, ncols, i).len() as int;
        let lo = row_bytes_upto(cm, colsv, i, j).len() as int;
        let hi = row_bytes_upto(cm, colsv, i, j + 1).len() as int;
        assert(offsv[kk] as int == head.len() + base + lo);
        if j + 1 < ncols {
            assert(kk + 1 == cell_index(ncols, i, j + 1));
            assert(offsv[kk + 1] as int == head.len() + base + hi);
        } else {
            lemma_cell_index_row_wrap(ncols, i);
            assert(kk + 1 == cell_index(ncols, i + 1, 0));
            assert(offsv[kk + 1] as int == head.len() + payload_upto(cm, colsv, ncols, i + 1).len());
            assert(payload_upto(cm, colsv, ncols, i + 1) == payload_upto(cm, colsv, ncols, i)
                + row_bytes_upto(cm, colsv, i, ncols));
        }
        lemma_row_bytes_len_monotone(cm, colsv, i, j + 1, ncols);
        lemma_payload_len_monotone(cm, colsv, ncols, i + 1, rows);
        assert(payload_upto(cm, colsv, ncols, i + 1).len() == base + row_bytes_upto(
            cm,
            colsv,
            i,
            ncols,
        ).len());
        lemma_subrange_shift(head, payload_upto(cm, colsv, ncols, rows), base + lo, base + hi);
        lemma_payload_cell_slice(cm, colsv, ncols, rows, i, j);
    }
}

} // verus!

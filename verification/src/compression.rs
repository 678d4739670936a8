//! Per-column compression codec: plain zstd frames or zstd with one trained
//! dictionary per column.  The concrete compressed bytes are opaque; the
//! contracts name them and promise only that decompression inverts
//! compression.

use vstd::prelude::*;

use std::io::Read;

use crate::codec::{
    bytes_at, dec_opt_byte_list, dec_u64, dec_u8, enc_opt_byte_list, enc_u64, enc_u8,
    lemma_bytes_at_concat, lemma_dec_enc_opt_byte_list, lemma_dec_enc_u64, lemma_dec_enc_u8,
    lemma_enc_u64_len, list_fits, list_view, matrix_view, push_u64, push_u8, read_byte_list,
    read_u64, read_u8,
};
use crate::error::NippyJarError;

verus! {

/// The zstd frame that compressing `v` without a dictionary yields.
pub uninterp spec fn zstd_frame(v: Seq<u8>) -> Seq<u8>;

/// The zstd frame that compressing `v` with dictionary `dict` yields.
pub uninterp spec fn zstd_dict_frame(dict: Seq<u8>, v: Seq<u8>) -> Seq<u8>;

/// The dictionary that training on `samples` under the size bound
/// `max_size` yields.
pub uninterp spec fn zstd_dictionary(samples: Seq<Seq<u8>>, max_size: int) -> Seq<u8>;

/// Whether dictionary training on `samples` under `max_size` succeeds:
/// ZDICT training is deterministic, so success is a function of the
/// arguments alone.
pub uninterp spec fn zstd_dictionary_ok(samples: Seq<Seq<u8>>, max_size: int) -> bool;

/// Inputs strictly below this size always fit zstd's single-pass bound
/// (`ZSTD_COMPRESSBOUND` degenerates only at or above this many bytes on
/// every platform).
pub const ZSTD_INPUT_LIMIT: u64 = 0xFF00FF00;

/// Relies on `zstd::bulk::compress` (default level): the emitted frame is a
/// function of the input bytes alone, and compressing into a fresh buffer
/// of `ZSTD_compressBound` capacity succeeds for any input below the bound
/// limit.
#[verifier::external_body]
fn zstd_compress(value: &Vec<u8>) -> (r: Result<Vec<u8>, NippyJarError>)
    ensures
        value@.len() < ZSTD_INPUT_LIMIT ==> r is Ok,
        r matches Ok(out) ==> out@ == zstd_frame(value@),
{
    match zstd::bulk::compress(value.as_slice(), 0) {
        Ok(out) => Ok(out),
        Err(_) => Err(NippyJarError::Internal),
    }
}

/// Relies on `zstd::stream::decode_all`: decoding a frame written by
/// `zstd::bulk::compress` recovers exactly the bytes it was given.
#[verifier::external_body]
fn zstd_decompress(b: &Vec<u8>) -> (r: Result<Vec<u8>, NippyJarError>)
    ensures
        (exists|v: Seq<u8>| b@ == zstd_frame(v)) ==> r is Ok,
        r matches Ok(out) ==> forall|v: Seq<u8>| b@ == zstd_frame(v) ==> out@ == v,
{
    match zstd::stream::decode_all(b.as_slice()) {
        Ok(out) => Ok(out),
        Err(_) => Err(NippyJarError::Internal),
    }
}

/// Relies on `zstd::dict::from_samples`: training is deterministic, so the
/// dictionary and the success of training are functions of the sample set
/// and the size bound alone, and the result is written into a buffer of
/// `max_size` capacity, so it never exceeds that bound.
#[verifier::external_body]
fn zstd_train(samples: &Vec<Vec<u8>>, max_size: usize) -> (r: Result<Vec<u8>, NippyJarError>)
    ensures
        r is Ok <==> zstd_dictionary_ok(list_view(*samples), max_size as int),
        r matches Ok(d) ==> d@ == zstd_dictionary(list_view(*samples), max_size as int)
            && d@.len() <= max_size,
{
    match zstd::dict::from_samples(samples.as_slice(), max_size) {
        Ok(d) => Ok(d),
        Err(_) => Err(NippyJarError::Internal),
    }
}

/// Relies on `zstd::bulk::Compressor::with_dictionary` + `compress`
/// (default level): the emitted frame is a function of the dictionary and
/// the input bytes alone, and compression into a fresh
/// `ZSTD_compressBound`-sized buffer succeeds below the bound limit.
#[verifier::external_body]
fn zstd_compress_with_dict(dict: &Vec<u8>, value: &Vec<u8>) -> (r: Result<Vec<u8>, NippyJarError>)
    ensures
        value@.len() < ZSTD_INPUT_LIMIT ==> r is Ok,
        r matches Ok(out) ==> out@ == zstd_dict_frame(dict@, value@),
{
    let mut c = match zstd::bulk::Compressor::with_dictionary(0, dict.as_slice()) {
        Ok(c) => c,
        Err(_) => {
            return Err(NippyJarError::Internal);
        },
    };
    match c.compress(value.as_slice()) {
        Ok(out) => Ok(out),
        Err(_) => Err(NippyJarError::Internal),
    }
}

/// Relies on `zstd::stream::read::Decoder::with_dictionary` (the decoded
/// stream read to its end): decoding a frame written with a dictionary
/// recovers exactly the bytes compression was given, under that same
/// dictionary.
#[verifier::external_body]
fn zstd_decompress_with_dict(dict: &Vec<u8>, b: &Vec<u8>) -> (r: Result<Vec<u8>, NippyJarError>)
    ensures
        (exists|v: Seq<u8>| b@ == zstd_dict_frame(dict@, v)) ==> r is Ok,
        r matches Ok(out) ==> forall|v: Seq<u8>| b@ == zstd_dict_frame(dict@, v) ==> out@ == v,
{
    let mut dec = match zstd::stream::read::Decoder::with_dictionary(b.as_slice(), dict.as_slice())
    {
        Ok(d) => d,
        Err(_) => {
            return Err(NippyJarError::Internal);
        },
    };
    let mut out = Vec::new();
    match dec.read_to_end(&mut out) {
        Ok(_) => Ok(out),
        Err(_) => Err(NippyJarError::Internal),
    }
}

/// The dictionaries that training on each column under `max_size` yields.
pub open spec fn trained_dicts(cols: Seq<Seq<Seq<u8>>>, max_size: usize) -> Seq<Seq<u8>> {
    Seq::new(cols.len(), |j: int| zstd_dictionary(cols[j], max_size as int))
}

/// Model of the zstd codec configuration and its trained state.
#[verifier::ext_equal]
pub struct ZstdModel {
    pub use_dict: bool,
    pub max_dict_size: usize,
    pub columns: usize,
    pub dicts: Option<Seq<Seq<u8>>>,
}

impl ZstdModel {
    /// The codec can emit values: either it needs no dictionary, or the
    /// dictionaries have been trained.
    pub open spec fn ready(self) -> bool {
        !self.use_dict || self.dicts is Some
    }

    /// One trained dictionary per column.
    pub open spec fn wf(self) -> bool {
        match self.dicts {
            Some(d) => self.use_dict && d.len() == self.columns,
            None => true,
        }
    }
}

/// The dictionary used for `col`; meaningful only when trained.
pub open spec fn dict_at(z: ZstdModel, col: int) -> Seq<u8> {
    match z.dicts {
        Some(d) => d[col],
        None => Seq::<u8>::empty(),
    }
}

/// What the codec writes for value `v` of column `col`; an absent codec
/// writes the value unchanged.
pub open spec fn comp_spec(c: Option<ZstdModel>, col: int, v: Seq<u8>) -> Seq<u8> {
    match c {
        None => v,
        Some(z) => if !z.use_dict {
            zstd_frame(v)
        } else {
            zstd_dict_frame(dict_at(z, col), v)
        },
    }
}

/// The zstd codec: optional per-column dictionaries bounded by
/// `max_dict_size`.
pub struct Zstd {
    pub use_dict: bool,
    pub max_dict_size: usize,
    columns: usize,
    pub raw_dictionaries: Option<Vec<Vec<u8>>>,
}

impl View for Zstd {
    type V = ZstdModel;

    closed spec fn view(&self) -> ZstdModel {
        ZstdModel {
            use_dict: self.use_dict,
            max_dict_size: self.max_dict_size,
            columns: self.columns,
            dicts: match self.raw_dictionaries {
                Some(d) => Some(list_view(d)),
                None => None,
            },
        }
    }
}

impl Zstd {
    pub fn new(use_dict: bool, max_dict_size: usize, columns: usize) -> (r: Self)
        ensures
            r@ == (ZstdModel { use_dict, max_dict_size, columns, dicts: None::<Seq<Seq<u8>>> }),
            (Compressors::Zstd(r))@ == (ZstdModel {
                use_dict,
                max_dict_size,
                columns,
                dicts: None::<Seq<Seq<u8>>>,
            }),
    {
        Zstd { use_dict, max_dict_size, columns, raw_dictionaries: None }
    }

    pub fn is_ready(&self) -> (r: bool)
        ensures
            r == self@.ready(),
    {
        !self.use_dict || self.raw_dictionaries.is_some()
    }

    /// Train one dictionary per column from a snapshot of all column
    /// values; a second invocation retrains and overwrites.
    pub fn prepare_compression(&mut self, columns: &Vec<Vec<Vec<u8>>>) -> (r: Result<
        (),
        NippyJarError,
    >)
        ensures
            columns@.len() != old(self)@.columns ==> r == Err::<(), NippyJarError>(
                NippyJarError::ColumnLenMismatch(old(self)@.columns, columns@.len() as usize),
            ) && final(self)@ == old(self)@,
            columns@.len() == old(self)@.columns && !old(self)@.use_dict ==> r is Ok && final(self)@ == old(self)@,
            columns@.len() == old(self)@.columns && old(self)@.use_dict ==> match r {
                Ok(_) => final(self)@ == (ZstdModel {
                    dicts: Some(trained_dicts(matrix_view(*columns), old(self)@.max_dict_size)),
                    ..old(self)@
                }),
                Err(e) => final(self)@ == old(self)@ && e == NippyJarError::Internal,
            },
            columns@.len() == old(self)@.columns && old(self)@.use_dict ==> (r is Ok <==> forall|
                j: int,
            |
                0 <= j < columns@.len() ==> zstd_dictionary_ok(
                    #[trigger] matrix_view(*columns)[j],
                    old(self)@.max_dict_size as int,
                )),
            r is Ok && old(self)@.use_dict ==> forall|j: int|
                0 <= j < columns@.len() ==> zstd_dictionary(
                    #[trigger] matrix_view(*columns)[j],
                    old(self)@.max_dict_size as int,
                ).len() <= old(self)@.max_dict_size,
    {
        if columns.len() != self.columns {
            return Err(NippyJarError::ColumnLenMismatch(self.columns, columns.len()));
        }
        if !self.use_dict {
            return Ok(());
        }
        let ghost target = trained_dicts(matrix_view(*columns), self.max_dict_size);
        let mut dicts: Vec<Vec<u8>> = Vec::new();
        let mut j: usize = 0;
        while j < columns.len()
            invariant
                j <= columns@.len(),
                *self == *old(self),
                columns@.len() == old(self)@.columns,
                old(self)@.use_dict,
                target == Seq::new(
                    columns@.len(),
                    |j: int|
                        zstd_dictionary(matrix_view(*columns)[j], old(self)@.max_dict_size as int),
                ),
                list_view(dicts) == target.take(j as int),
                forall|t: int|
                    0 <= t < j ==> zstd_dictionary_ok(
                        #[trigger] matrix_view(*columns)[t],
                        old(self)@.max_dict_size as int,
                    ),
                forall|t: int|
                    0 <= t < j ==> zstd_dictionary(
                        #[trigger] matrix_view(*columns)[t],
                        old(self)@.max_dict_size as int,
                    ).len() <= old(self)@.max_dict_size,
            decreases columns@.len() - j,
        {
            let d = match zstd_train(&columns[j], self.max_dict_size) {
                Ok(d) => d,
                Err(_) => {
                    proof {
                        assert(matrix_view(*columns)[j as int] == list_view(columns@[j as int]));
                    }
                    return Err(NippyJarError::Internal);
                },
            };
            proof {
                assert(matrix_view(*columns)[j as int] == list_view(columns@[j as int]));
            }
            let ghost pre = dicts;
            let ghost d_snap = d;
            dicts.push(d);
            proof {
                crate::codec::lemma_list_view_push(pre, dicts, d_snap);
                assert(list_view(dicts) =~= target.take(j + 1));
            }
            j += 1;
        }
        proof {
            assert(target.take(columns@.len() as int) =~= target);
        }
        self.raw_dictionaries = Some(dicts);
        Ok(())
    }
}

/// The configurable compressor variants.
pub enum Compressors {
    Zstd(Zstd),
}

impl View for Compressors {
    type V = ZstdModel;

    closed spec fn view(&self) -> ZstdModel {
        match self {
            Compressors::Zstd(z) => z@,
        }
    }
}

impl Compressors {
    pub fn is_ready(&self) -> (r: bool)
        ensures
            r == self@.ready(),
    {
        match self {
            Compressors::Zstd(z) => z.is_ready(),
        }
    }

    pub fn prepare_compression(&mut self, columns: &Vec<Vec<Vec<u8>>>) -> (r: Result<
        (),
        NippyJarError,
    >)
        ensures
            columns@.len() != old(self)@.columns ==> r == Err::<(), NippyJarError>(
                NippyJarError::ColumnLenMismatch(old(self)@.columns, columns@.len() as usize),
            ) && final(self)@ == old(self)@,
            columns@.len() == old(self)@.columns && !old(self)@.use_dict ==> r is Ok && final(self)@ == old(self)@,
            columns@.len() == old(self)@.columns && old(self)@.use_dict ==> match r {
                Ok(_) => final(self)@ == (ZstdModel {
                    dicts: Some(trained_dicts(matrix_view(*columns), old(self)@.max_dict_size)),
                    ..old(self)@
                }),
                Err(e) => final(self)@ == old(self)@ && e == NippyJarError::Internal,
            },
            columns@.len() == old(self)@.columns && old(self)@.use_dict ==> (r is Ok <==> forall|
                j: int,
            |
                0 <= j < columns@.len() ==> zstd_dictionary_ok(
                    #[trigger] matrix_view(*columns)[j],
                    old(self)@.max_dict_size as int,
                )),
            r is Ok && old(self)@.use_dict ==> forall|j: int|
                0 <= j < columns@.len() ==> zstd_dictionary(
                    #[trigger] matrix_view(*columns)[j],
                    old(self)@.max_dict_size as int,
                ).len() <= old(self)@.max_dict_size,
    {
        match self {
            Compressors::Zstd(z) => z.prepare_compression(columns),
        }
    }

    /// Compress one value of column `column`.
    pub fn compress(&self, column: usize, value: &Vec<u8>) -> (r: Result<Vec<u8>, NippyJarError>)
        requires
            self@.ready(),
            self@.wf(),
            self@.use_dict ==> (column as int) < self@.columns,
        ensures
            value@.len() < ZSTD_INPUT_LIMIT ==> r is Ok,
            r matches Ok(out) ==> out@ == comp_spec(Some(self@), column as int, value@),
    {
        match self {
            Compressors::Zstd(z) => {
                if z.use_dict {
                    match &z.raw_dictionaries {
                        Some(dicts) => zstd_compress_with_dict(&dicts[column], value),
                        None => Err(NippyJarError::CompressorNotReady),
                    }
                } else {
                    zstd_compress(value)
                }
            },
        }
    }

    /// The declared column count matches `n` and any trained dictionaries
    /// are one per column.
    pub fn wf_check(&self, n: usize) -> (r: bool)
        ensures
            r == (self@.wf() && self@.columns == n),
    {
        match self {
            Compressors::Zstd(z) => {
                let dict_ok = match &z.raw_dictionaries {
                    None => true,
                    Some(d) => z.use_dict && d.len() == z.columns,
                };
                dict_ok && z.columns == n
            },
        }
    }

    /// Decompress one stored value of column `column`; inverts `compress`.
    pub fn decompress(&self, column: usize, b: &Vec<u8>) -> (r: Result<Vec<u8>, NippyJarError>)
        requires
            self@.ready(),
            self@.wf(),
            self@.use_dict ==> (column as int) < self@.columns,
        ensures
            forall|v: Seq<u8>|
                b@ == comp_spec(Some(self@), column as int, v) ==> (r matches Ok(out) && out@
                    == v),
    {
        match self {
            Compressors::Zstd(z) => {
                if z.use_dict {
                    match &z.raw_dictionaries {
                        Some(dicts) => zstd_decompress_with_dict(&dicts[column], b),
                        None => Err(NippyJarError::CompressorNotReady),
                    }
                } else {
                    zstd_decompress(b)
                }
            },
        }
    }
}

/// A vector-backed codec's trained dictionaries fit the 64-bit length
/// prefixes.
pub proof fn lemma_compressor_fits(x: Compressors)
    ensures
        x@.dicts matches Some(d) ==> list_fits(d),
{
    match x {
        Compressors::Zstd(z) => {
            match z.raw_dictionaries {
                Some(d) => {
                    crate::codec::lemma_list_view_fits(d);
                },
                None => {},
            }
        },
    }
}

// ---------------------------------------------------------------------------
// configuration blob encoding
// ---------------------------------------------------------------------------

pub open spec fn enc_compressor(c: Option<ZstdModel>) -> Seq<u8> {
    match c {
        None => enc_u8(0),
        Some(z) => enc_u8(1) + enc_u8(if z.use_dict { 1 } else { 0 }) + enc_u64(
            z.max_dict_size as u64,
        ) + enc_u64(z.columns as u64) + enc_opt_byte_list(z.dicts),
    }
}

pub open spec fn comp_opt_view(c: Option<Compressors>) -> Option<ZstdModel> {
    match c {
        None => None,
        Some(x) => Some(x@),
    }
}

pub open spec fn dec_compressor(b: Seq<u8>, pos: int) -> Option<(Option<ZstdModel>, int)> {
    match dec_u8(b, pos) {
        Some((tag, p)) => if tag == 0 {
            Some((None, p))
        } else if tag == 1 {
            match dec_u8(b, p) {
                Some((ud, p2)) => if ud == 0 || ud == 1 {
                    match dec_u64(b, p2) {
                        Some((mds, p3)) => match dec_u64(b, p3) {
                            Some((cols, p4)) => match dec_opt_byte_list(b, p4) {
                                Some((dicts, p5)) => if mds <= usize::MAX && cols <= usize::MAX {
                                    Some(
                                        (
                                            Some(
                                                ZstdModel {
                                                    use_dict: ud == 1,
                                                    max_dict_size: mds as usize,
                                                    columns: cols as usize,
                                                    dicts,
                                                },
                                            ),
                                            p5,
                                        ),
                                    )
                                } else {
                                    None
                                },
                                None => None,
                            },
                            None => None,
                        },
                        None => None,
                    }
                } else {
                    None
                },
                None => None,
            }
        } else {
            None
        },
        None => None,
    }
}

pub proof fn lemma_dec_enc_compressor(b: Seq<u8>, pos: int, c: Option<ZstdModel>)
    requires
        bytes_at(b, pos, enc_compressor(c)),
        c matches Some(z) ==> (z.dicts matches Some(d) ==> list_fits(d)),
    ensures
        dec_compressor(b, pos) == Some((c, pos + enc_compressor(c).len())),
{
    match c {
        None => {
            lemma_dec_enc_u8(b, pos, 0);
        },
        Some(z) => {
            let ud: u8 = if z.use_dict { 1 } else { 0 };
            let t1 = enc_u8(ud) + enc_u64(z.max_dict_size as u64) + enc_u64(z.columns as u64)
                + enc_opt_byte_list(z.dicts);
            assert(enc_compressor(c) =~= enc_u8(1) + t1);
            lemma_bytes_at_concat(b, pos, enc_u8(1), t1);
            lemma_dec_enc_u8(b, pos, 1);
            let t2 = enc_u64(z.max_dict_size as u64) + enc_u64(z.columns as u64)
                + enc_opt_byte_list(z.dicts);
            assert(t1 =~= enc_u8(ud) + t2);
            lemma_bytes_at_concat(b, pos + 1, enc_u8(ud), t2);
            lemma_dec_enc_u8(b, pos + 1, ud);
            let t3 = enc_u64(z.columns as u64) + enc_opt_byte_list(z.dicts);
            assert(t2 =~= enc_u64(z.max_dict_size as u64) + t3);
            lemma_bytes_at_concat(b, pos + 2, enc_u64(z.max_dict_size as u64), t3);
            lemma_dec_enc_u64(b, pos + 2, z.max_dict_size as u64);
            lemma_enc_u64_len(z.max_dict_size as u64);
            lemma_bytes_at_concat(b, pos + 10, enc_u64(z.columns as u64), enc_opt_byte_list(z.dicts));
            lemma_dec_enc_u64(b, pos + 10, z.columns as u64);
            lemma_enc_u64_len(z.columns as u64);
            lemma_dec_enc_opt_byte_list(b, pos + 18, z.dicts);
        },
    }
}

pub fn write_compressor(out: &mut Vec<u8>, c: &Option<Compressors>)
    ensures
        final(out)@ == old(out)@ + enc_compressor(comp_opt_view(*c)),
{
    match c {
        None => {
            push_u8(out, 0);
        },
        Some(Compressors::Zstd(z)) => {
            push_u8(out, 1);
            push_u8(out, if z.use_dict { 1 } else { 0 });
            push_u64(out, z.max_dict_size as u64);
            push_u64(out, z.columns as u64);
            match &z.raw_dictionaries {
                None => {
                    push_u8(out, 0);
                },
                Some(d) => {
                    push_u8(out, 1);
                    crate::codec::push_byte_list(out, d);
                },
            }
            proof {
                assert(out@ =~= old(out)@ + enc_compressor(comp_opt_view(*c)));
            }
        },
    }
}

pub fn read_compressor(b: &Vec<u8>, pos: usize) -> (r: Result<
    (Option<Compressors>, usize),
    NippyJarError,
>)
    ensures
        match dec_compressor(b@, pos as int) {
            Some(v) => r is Ok && comp_opt_view(r.unwrap().0) == v.0 && r.unwrap().1 as int
                == v.1,
            None => r is Err,
        },
{
    let (tag, p) = match read_u8(b, pos) {
        Ok(v) => v,
        Err(e) => {
            return Err(e);
        },
    };
    if tag == 0 {
        return Ok((None, p));
    }
    if tag != 1 {
        return Err(NippyJarError::Decode);
    }
    let (ud, p2) = match read_u8(b, p) {
        Ok(v) => v,
        Err(e) => {
            return Err(e);
        },
    };
    if ud != 0 && ud != 1 {
        return Err(NippyJarError::Decode);
    }
    let (mds, p3) = match read_u64(b, p2) {
        Ok(v) => v,
        Err(e) => {
            return Err(e);
        },
    };
    let (cols, p4) = match read_u64(b, p3) {
        Ok(v) => v,
        Err(e) => {
            return Err(e);
        },
    };
    if mds > usize::MAX as u64 || cols > usize::MAX as u64 {
        return Err(NippyJarError::Decode);
    }
    let (ol_tag, p5) = match read_u8(b, p4) {
        Ok(v) => v,
        Err(e) => {
            return Err(e);
        },
    };
    let dicts: Option<Vec<Vec<u8>>> = if ol_tag == 0 {
        None
    } else if ol_tag == 1 {
        let (d, p6) = match read_byte_list(b, p5) {
            Ok(v) => v,
            Err(e) => {
                return Err(e);
            },
        };
        return Ok(
            (
                Some(
                    Compressors::Zstd(
                        Zstd {
                            use_dict: ud == 1,
                            max_dict_size: mds as usize,
                            columns: cols as usize,
                            raw_dictionaries: Some(d),
                        },
                    ),
                ),
                p6,
            ),
        );
    } else {
        return Err(NippyJarError::Decode);
    };
    Ok(
        (
            Some(
                Compressors::Zstd(
                    Zstd {
                        use_dict: ud == 1,
                        max_dict_size: mds as usize,
                        columns: cols as usize,
                        raw_dictionaries: dicts,
                    },
                ),
            ),
            p5,
        ),
    )
}

} // verus!

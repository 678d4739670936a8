//! The in-memory succinct structures of the reader, kept behind trusted
//! declarations: the Elias-Fano offset sequence and the prefix-summed
//! Elias-Fano key-to-row map, built through their builders only.

use vstd::prelude::*;

use sucds::int_vectors::Access;
use sucds::Serializable;

use crate::codec::bytes_at;
use crate::error::NippyJarError;

verus! {

#[verifier::external_type_specification]
#[verifier::external_body]
pub struct ExEliasFano(sucds::mii_sequences::EliasFano);

#[verifier::external_type_specification]
#[verifier::external_body]
pub struct ExEliasFanoBuilder(sucds::mii_sequences::EliasFanoBuilder);

#[verifier::external_type_specification]
#[verifier::external_body]
pub struct ExPrefixSummedEliasFano(sucds::int_vectors::PrefixSummedEliasFano);

/// The monotone integer sequence an Elias-Fano structure holds, in order.
pub uninterp spec fn ef_contents(ef: sucds::mii_sequences::EliasFano) -> Seq<u64>;

/// The values pushed into an Elias-Fano builder so far, in order.
pub uninterp spec fn efb_contents(b: sucds::mii_sequences::EliasFanoBuilder) -> Seq<u64>;

/// The exclusive upper bound the builder was created with.
pub uninterp spec fn efb_universe(b: sucds::mii_sequences::EliasFanoBuilder) -> u64;

/// The number of values the builder was created for.
pub uninterp spec fn efb_capacity(b: sucds::mii_sequences::EliasFanoBuilder) -> int;

/// The integer sequence a prefix-summed Elias-Fano structure holds.
pub uninterp spec fn psef_contents(p: sucds::int_vectors::PrefixSummedEliasFano) -> Seq<u64>;

/// The structure came out of the library's builder path
/// (`EliasFanoBuilder::build`, possibly followed by `enable_rank`): its
/// index, low-bit width and bit vectors are mutually consistent, so
/// queries on it return normally.
pub uninterp spec fn ef_built(ef: sucds::mii_sequences::EliasFano) -> bool;

/// The structure is one that `from_slice` or `default` can return, so
/// queries on it return normally.
pub uninterp spec fn psef_built(p: sucds::int_vectors::PrefixSummedEliasFano) -> bool;

/// The bytes that serializing an Elias-Fano structure emits: a function of
/// the structure's fields alone.
pub uninterp spec fn ef_bytes(ef: sucds::mii_sequences::EliasFano) -> Seq<u8>;

/// The bytes that serializing a prefix-summed Elias-Fano structure emits.
pub uninterp spec fn psef_bytes(p: sucds::int_vectors::PrefixSummedEliasFano) -> Seq<u8>;

/// The last value pushed, zero before the first push; new values may not go
/// below it.
pub open spec fn last_of(s: Seq<u64>) -> u64 {
    if s.len() == 0 {
        0u64
    } else {
        s.last()
    }
}

/// A push of `val` succeeds: monotone, below the universe, capacity left.
pub open spec fn efb_can_push(b: sucds::mii_sequences::EliasFanoBuilder, val: u64) -> bool {
    &&& val >= last_of(efb_contents(b))
    &&& val < efb_universe(b)
    &&& efb_contents(b).len() < efb_capacity(b)
}

/// Sum of a `u64` sequence.
pub open spec fn seq_sum(s: Seq<u64>) -> int
    decreases s.len(),
{
    if s.len() == 0 {
        0
    } else {
        s[0] + seq_sum(s.drop_first())
    }
}

/// Relies on `sucds::mii_sequences::EliasFanoBuilder::new`: fails exactly
/// when the value count is zero.
#[verifier::external_body]
pub(crate) fn efb_new(universe: u64, num_vals: usize) -> (r: Result<
    sucds::mii_sequences::EliasFanoBuilder,
    NippyJarError,
>)
    ensures
        num_vals == 0 ==> r is Err,
        num_vals > 0 ==> r is Ok,
        r matches Ok(b) ==> efb_contents(b) == Seq::<u64>::empty() && efb_universe(b) == universe
            && efb_capacity(b) == num_vals,
{
    match sucds::mii_sequences::EliasFanoBuilder::new(universe, num_vals) {
        Ok(b) => Ok(b),
        Err(_) => Err(NippyJarError::Internal),
    }
}

/// Relies on `EliasFanoBuilder::push`: succeeds exactly on a value that is
/// no less than the last one and below the universe, while pushed values
/// remain fewer than the declared count; on failure the builder is
/// untouched.
#[verifier::external_body]
pub(crate) fn efb_push(b: &mut sucds::mii_sequences::EliasFanoBuilder, val: u64) -> (r: Result<
    (),
    NippyJarError,
>)
    ensures
        efb_can_push(*old(b), val) ==> r is Ok,
        !efb_can_push(*old(b), val) ==> r is Err,
        r is Ok ==> efb_contents(*final(b)) == efb_contents(*old(b)).push(val) && efb_universe(
            *final(b),
        ) == efb_universe(*old(b)) && efb_capacity(*final(b)) == efb_capacity(*old(b)),
        r is Err ==> *final(b) == *old(b),
{
    match b.push(val) {
        Ok(()) => Ok(()),
        Err(_) => Err(NippyJarError::Internal),
    }
}

/// Relies on `EliasFanoBuilder::build`: the built structure holds exactly
/// the pushed values, and is internally consistent.
#[verifier::external_body]
pub(crate) fn efb_build(b: sucds::mii_sequences::EliasFanoBuilder) -> (r:
    sucds::mii_sequences::EliasFano)
    ensures
        ef_contents(r) == efb_contents(b),
        ef_built(r),
{
    b.build()
}

/// Relies on `EliasFano::select`: the `k`-th smallest stored value, which
/// for a sequence pushed in non-decreasing order is the `k`-th pushed one.
/// Only a builder-built structure may be queried: on an inconsistent one,
/// `select` would panic.
#[verifier::external_body]
pub(crate) fn ef_select(ef: &sucds::mii_sequences::EliasFano, k: usize) -> (r: Option<u64>)
    requires
        ef_built(*ef),
    ensures
        r == if (k as int) < ef_contents(*ef).len() {
            Some(ef_contents(*ef)[k as int])
        } else {
            None::<u64>
        },
{
    ef.select(k)
}

/// Relies on `EliasFano::len`: the number of stored values.
#[verifier::external_body]
pub(crate) fn ef_len(ef: &sucds::mii_sequences::EliasFano) -> (r: usize)
    ensures
        r as int == ef_contents(*ef).len(),
{
    ef.len()
}

/// Relies on `PrefixSummedEliasFano::from_slice`: fails exactly when the
/// sum of the values overflows the 64-bit universe; on success the
/// structure holds exactly the given values.
#[verifier::external_body]
pub(crate) fn psef_from_slice(vals: &Vec<u64>) -> (r: Result<
    sucds::int_vectors::PrefixSummedEliasFano,
    NippyJarError,
>)
    ensures
        seq_sum(vals@) + 1 <= u64::MAX ==> r is Ok,
        seq_sum(vals@) + 1 > u64::MAX ==> r is Err,
        r matches Ok(p) ==> psef_contents(p) == vals@ && psef_built(p),
{
    match sucds::int_vectors::PrefixSummedEliasFano::from_slice(vals.as_slice()) {
        Ok(p) => Ok(p),
        Err(_) => Err(NippyJarError::Internal),
    }
}

/// Relies on `PrefixSummedEliasFano::default`: the empty sequence, and
/// trivially consistent (no inner structure).
#[verifier::external_body]
pub(crate) fn psef_default() -> (r: sucds::int_vectors::PrefixSummedEliasFano)
    ensures
        psef_contents(r) == Seq::<u64>::empty(),
        psef_built(r),
{
    sucds::int_vectors::PrefixSummedEliasFano::default()
}

/// Relies on `PrefixSummedEliasFano::access` (the `Access` impl): the
/// `pos`-th stored value.  Only a structure built by `from_slice` or
/// `default` may be queried: on an inconsistent one, the delta decoding
/// would panic.
#[verifier::external_body]
pub(crate) fn psef_access(p: &sucds::int_vectors::PrefixSummedEliasFano, pos: usize) -> (r: Option<
    u64,
>)
    requires
        psef_built(*p),
    ensures
        r == if (pos as int) < psef_contents(*p).len() {
            Some(psef_contents(*p)[pos as int])
        } else {
            None::<u64>
        },
{
    p.access(pos)
}

/// Relies on `EliasFano::enable_rank`: builds the select-zero index from
/// the structure's own bits, keeping the stored values and consistency.
#[verifier::external_body]
pub(crate) fn ef_enable_rank(ef: sucds::mii_sequences::EliasFano) -> (r:
    sucds::mii_sequences::EliasFano)
    requires
        ef_built(ef),
    ensures
        ef_contents(r) == ef_contents(ef),
        ef_built(r),
{
    ef.enable_rank()
}

/// Relies on `EliasFano::serialize_into`: the emitted bytes are a function
/// of the structure alone, and writing into a `Vec` cannot fail.
#[verifier::external_body]
pub(crate) fn ef_write(ef: &sucds::mii_sequences::EliasFano, out: &mut Vec<u8>) -> (r: Result<
    (),
    NippyJarError,
>)
    ensures
        r is Ok,
        final(out)@ == old(out)@ + ef_bytes(*ef),
{
    match ef.serialize_into(&mut *out) {
        Ok(_) => Ok(()),
        Err(_) => Err(NippyJarError::Internal),
    }
}

/// Relies on `EliasFano::deserialize_from`: every serialized field is
/// length-prefixed and read back verbatim, so reading at the byte image of
/// a structure yields that very structure and consumes exactly its bytes.
#[verifier::external_body]
pub(crate) fn ef_read(b: &Vec<u8>, from: usize) -> (r: Result<
    (sucds::mii_sequences::EliasFano, usize),
    NippyJarError,
>)
    ensures
        (exists|ef: sucds::mii_sequences::EliasFano|
            bytes_at(b@, from as int, ef_bytes(ef))) ==> r is Ok,
        r matches Ok(p) ==> forall|ef: sucds::mii_sequences::EliasFano|
            bytes_at(b@, from as int, ef_bytes(ef)) ==> p.0 == ef && p.1 as int == from + ef_bytes(
                ef,
            ).len(),
{
    if from > b.len() {
        return Err(NippyJarError::Decode);
    }
    let mut reader: &[u8] = &b[from..];
    let before = reader.len();
    match sucds::mii_sequences::EliasFano::deserialize_from(&mut reader) {
        Ok(ef) => Ok((ef, from + (before - reader.len()))),
        Err(_) => Err(NippyJarError::Decode),
    }
}

/// Relies on `PrefixSummedEliasFano::serialize_into`: the emitted bytes are
/// a function of the structure alone, and writing into a `Vec` cannot
/// fail.
#[verifier::external_body]
pub(crate) fn psef_write(p: &sucds::int_vectors::PrefixSummedEliasFano, out: &mut Vec<u8>) -> (r:
    Result<(), NippyJarError>)
    ensures
        r is Ok,
        final(out)@ == old(out)@ + psef_bytes(*p),
{
    match p.serialize_into(&mut *out) {
        Ok(_) => Ok(()),
        Err(_) => Err(NippyJarError::Internal),
    }
}

/// Relies on `PrefixSummedEliasFano::deserialize_from`: the inner option is
/// tag-prefixed and read back verbatim, so reading at the byte image of a
/// structure yields that very structure and consumes exactly its bytes.
#[verifier::external_body]
pub(crate) fn psef_read(b: &Vec<u8>, from: usize) -> (r: Result<
    (sucds::int_vectors::PrefixSummedEliasFano, usize),
    NippyJarError,
>)
    ensures
        (exists|p: sucds::int_vectors::PrefixSummedEliasFano|
            bytes_at(b@, from as int, psef_bytes(p))) ==> r is Ok,
        r matches Ok(out) ==> forall|p: sucds::int_vectors::PrefixSummedEliasFano|
            bytes_at(b@, from as int, psef_bytes(p)) ==> out.0 == p && out.1 as int == from
                + psef_bytes(p).len(),
{
    if from > b.len() {
        return Err(NippyJarError::Decode);
    }
    let mut reader: &[u8] = &b[from..];
    let before = reader.len();
    match sucds::int_vectors::PrefixSummedEliasFano::deserialize_from(&mut reader) {
        Ok(p) => Ok((p, from + (before - reader.len()))),
        Err(_) => Err(NippyJarError::Decode),
    }
}

} // verus!
//! Inclusion filter: approximate set membership over the key column.
//!
//! The inclusion-filter contract demands a fixed capacity and no false
//! negatives; false positives are allowed.  This implementation stores the
//! added keys outright and answers membership exactly, which satisfies the
//! contract with a false-positive rate of zero.

use vstd::prelude::*;

use crate::codec::{
    bytes_at, bytes_eq, copy_bytes_into, dec_byte_list, dec_u64, dec_u8, enc_byte_list, enc_u64,
    enc_u8, lemma_bytes_at_concat, lemma_dec_enc_byte_list, lemma_dec_enc_u64, lemma_dec_enc_u8,
    lemma_enc_u64_len, lemma_list_view_push, list_fits, list_view, push_byte_list, push_u64,
    push_u8, read_byte_list, read_u64, read_u8,
};
use crate::error::NippyJarError;

verus! {

/// Model of an inclusion filter: the keys added so far, in insertion order,
/// and the capacity fixed at construction.
#[verifier::ext_equal]
pub struct FilterModel {
    pub capacity: usize,
    pub keys: Seq<Seq<u8>>,
}

/// A capacity-bounded exact-membership inclusion filter.
pub struct Cuckoo {
    max_capacity: usize,
    keys: Vec<Vec<u8>>,
}

impl View for Cuckoo {
    type V = FilterModel;

    closed spec fn view(&self) -> FilterModel {
        FilterModel { capacity: self.max_capacity, keys: list_view(self.keys) }
    }
}

impl Cuckoo {
    pub fn new(max_capacity: usize) -> (r: Self)
        ensures
            r@ == (FilterModel { capacity: max_capacity, keys: Seq::<Seq<u8>>::empty() }),
            (InclusionFilters::Cuckoo(r))@ == (FilterModel {
                capacity: max_capacity,
                keys: Seq::<Seq<u8>>::empty(),
            }),
    {
        let r = Cuckoo { max_capacity, keys: Vec::new() };
        proof {
            assert(r@.keys =~= Seq::<Seq<u8>>::empty());
            assert(r@ =~~= (FilterModel {
                capacity: max_capacity,
                keys: Seq::<Seq<u8>>::empty(),
            }));
        }
        r
    }

    /// Remember `element`; fails once the filter holds `capacity` keys.
    pub fn add(&mut self, element: &Vec<u8>) -> (r: Result<(), NippyJarError>)
        ensures
            old(self)@.keys.len() < old(self)@.capacity ==> r is Ok && final(self)@.keys
                == old(self)@.keys.push(element@),
            old(self)@.keys.len() >= old(self)@.capacity ==> r == Err::<(), NippyJarError>(
                NippyJarError::FilterMaxCapacity,
            ) && final(self)@ == old(self)@,
            final(self)@.capacity == old(self)@.capacity,
    {
        if self.keys.len() < self.max_capacity {
            let mut copy: Vec<u8> = Vec::new();
            copy_bytes_into(element, &mut copy);
            let ghost pre = self.keys;
            let ghost copy_snap = copy;
            self.keys.push(copy);
            proof {
                lemma_list_view_push(pre, self.keys, copy_snap);
                assert(self@.keys =~= old(self)@.keys.push(element@));
            }
            Ok(())
        } else {
            Err(NippyJarError::FilterMaxCapacity)
        }
    }

    /// Membership check; never answers `false` for an added key.
    pub fn contains(&self, element: &Vec<u8>) -> (r: bool)
        ensures
            r == self@.keys.contains(element@),
    {
        let mut i: usize = 0;
        while i < self.keys.len()
            invariant
                i <= self.keys@.len(),
                self@.keys.len() == self.keys@.len(),
                forall|k: int| 0 <= k < i ==> self@.keys[k] != element@,
            decreases self.keys@.len() - i,
        {
            if bytes_eq(&self.keys[i], element) {
                proof {
                    assert(self@.keys[i as int] == element@);
                }
                return true;
            }
            i += 1;
        }
        proof {
            if self@.keys.contains(element@) {
                let w = choose|k: int| 0 <= k < self@.keys.len() && self@.keys[k] == element@;
                assert(false);
            }
        }
        false
    }
}

/// The configurable filter variants.
pub enum InclusionFilters {
    Cuckoo(Cuckoo),
}

impl View for InclusionFilters {
    type V = FilterModel;

    closed spec fn view(&self) -> FilterModel {
        match self {
            InclusionFilters::Cuckoo(c) => c@,
        }
    }
}

impl InclusionFilters {
    pub fn add(&mut self, element: &Vec<u8>) -> (r: Result<(), NippyJarError>)
        ensures
            old(self)@.keys.len() < old(self)@.capacity ==> r is Ok && final(self)@.keys
                == old(self)@.keys.push(element@),
            old(self)@.keys.len() >= old(self)@.capacity ==> r == Err::<(), NippyJarError>(
                NippyJarError::FilterMaxCapacity,
            ) && final(self)@ == old(self)@,
            final(self)@.capacity == old(self)@.capacity,
    {
        match self {
            InclusionFilters::Cuckoo(c) => c.add(element),
        }
    }

    pub fn contains(&self, element: &Vec<u8>) -> (r: bool)
        ensures
            r == self@.keys.contains(element@),
    {
        match self {
            InclusionFilters::Cuckoo(c) => c.contains(element),
        }
    }
}

/// Filter soundness: after a successful `add` of key `k` (which appends
/// `k` to the model), `contains` — which answers exactly membership in the
/// model — reports `k` as present.  No false negative ever occurs, however
/// many further keys are added afterwards.
pub proof fn lemma_filter_no_false_negative(m: FilterModel, k: Seq<u8>, later: Seq<Seq<u8>>)
    ensures
        m.keys.push(k).contains(k),
        (m.keys.push(k) + later).contains(k),
{
    assert(m.keys.push(k)[m.keys.len() as int] == k);
    assert((m.keys.push(k) + later)[m.keys.len() as int] == k);
}

/// A vector-backed filter's key list fits the 64-bit length prefixes.
pub proof fn lemma_filter_fits(x: InclusionFilters)
    ensures
        list_fits(x@.keys),
{
    match x {
        InclusionFilters::Cuckoo(c) => {
            crate::codec::lemma_list_view_fits(c.keys);
        },
    }
}

// ---------------------------------------------------------------------------
// configuration blob encoding
// ---------------------------------------------------------------------------

pub open spec fn enc_filters(f: Option<FilterModel>) -> Seq<u8> {
    match f {
        None => enc_u8(0),
        Some(m) => enc_u8(1) + enc_u64(m.capacity as u64) + enc_byte_list(m.keys),
    }
}

pub open spec fn filter_opt_view(f: Option<InclusionFilters>) -> Option<FilterModel> {
    match f {
        None => None,
        Some(x) => Some(x@),
    }
}

pub open spec fn dec_filters(b: Seq<u8>, pos: int) -> Option<(Option<FilterModel>, int)> {
    match dec_u8(b, pos) {
        Some((tag, p)) => if tag == 0 {
            Some((None, p))
        } else if tag == 1 {
            match dec_u64(b, p) {
                Some((cap, p2)) => match dec_byte_list(b, p2) {
                    Some((keys, p3)) => if cap <= usize::MAX {
                        Some((Some(FilterModel { capacity: cap as usize, keys }), p3))
                    } else {
                        None
                    },
                    None => None,
                },
                None => None,
            }
        } else {
            None
        },
        None => None,
    }
}

pub proof fn lemma_dec_enc_filters(b: Seq<u8>, pos: int, f: Option<FilterModel>)
    requires
        bytes_at(b, pos, enc_filters(f)),
        f matches Some(m) ==> list_fits(m.keys),
    ensures
        dec_filters(b, pos) == Some((f, pos + enc_filters(f).len())),
{
    match f {
        None => {
            lemma_dec_enc_u8(b, pos, 0);
        },
        Some(m) => {
            let t1 = enc_u64(m.capacity as u64) + enc_byte_list(m.keys);
            assert(enc_filters(f) =~= enc_u8(1) + t1);
            lemma_bytes_at_concat(b, pos, enc_u8(1), t1);
            lemma_dec_enc_u8(b, pos, 1);
            lemma_bytes_at_concat(b, pos + 1, enc_u64(m.capacity as u64), enc_byte_list(m.keys));
            lemma_dec_enc_u64(b, pos + 1, m.capacity as u64);
            lemma_enc_u64_len(m.capacity as u64);
            lemma_dec_enc_byte_list(b, pos + 9, m.keys);
        },
    }
}

pub fn write_filters(out: &mut Vec<u8>, f: &Option<InclusionFilters>)
    ensures
        final(out)@ == old(out)@ + enc_filters(filter_opt_view(*f)),
{
    match f {
        None => {
            push_u8(out, 0);
        },
        Some(InclusionFilters::Cuckoo(c)) => {
            push_u8(out, 1);
            push_u64(out, c.max_capacity as u64);
            push_byte_list(out, &c.keys);
            proof {
                assert(out@ =~= old(out)@ + enc_filters(filter_opt_view(*f)));
            }
        },
    }
}

pub fn read_filters(b: &Vec<u8>, pos: usize) -> (r: Result<
    (Option<InclusionFilters>, usize),
    NippyJarError,
>)
    ensures
        match dec_filters(b@, pos as int) {
            Some(v) => r is Ok && filter_opt_view(r.unwrap().0) == v.0 && r.unwrap().1 as int
                == v.1,
            None => r is Err,
        },
{
    let (tag, p) = match read_u8(b, pos) {
        Ok(v) => v,
        Err(e) => {
            return Err(e);
        },
    };
    if tag == 0 {
        Ok((None, p))
    } else if tag == 1 {
        let (cap, p2) = match read_u64(b, p) {
            Ok(v) => v,
            Err(e) => {
                return Err(e);
            },
        };
        let (keys, p3) = match read_byte_list(b, p2) {
            Ok(v) => v,
            Err(e) => {
                return Err(e);
            },
        };
        if cap <= usize::MAX as u64 {
            Ok((Some(InclusionFilters::Cuckoo(Cuckoo { max_capacity: cap as usize, keys })), p3))
        } else {
            Err(NippyJarError::Decode)
        }
    } else {
        Err(NippyJarError::Decode)
    }
}

} // verus!

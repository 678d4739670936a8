//! Perfect hashing over the trained key column.
//!
//! The perfect-hash contract demands a deterministic, minimal and perfect
//! map from the trained keys to `[0, n)`; nothing is promised for untrained
//! keys.  Both variants here store the row-ordered key vector and answer a
//! query with the position of the key's first occurrence, which satisfies
//! the contract exactly (over distinct keys it is a bijection onto `[0, n)`).

use vstd::prelude::*;

use crate::codec::{
    bytes_at, bytes_eq, copy_byte_list, dec_byte_list, dec_opt_byte_list, dec_u8, enc_byte_list,
    enc_opt_byte_list, enc_u8, lemma_bytes_at_concat, lemma_dec_enc_byte_list,
    lemma_dec_enc_opt_byte_list, lemma_dec_enc_u8, list_fits, list_view, push_byte_list, push_u8,
    read_byte_list, read_u8,
};
use crate::error::NippyJarError;

verus! {

/// Model of a perfect-hash function: which variant it is and the trained
/// key vector, if any.
#[verifier::ext_equal]
pub struct PhfModel {
    pub go: bool,
    pub keys: Option<Seq<Seq<u8>>>,
}

/// Position of the first occurrence of `k` in `keys`; meaningful only when
/// `keys.contains(k)`.
pub open spec fn first_key_index(keys: Seq<Seq<u8>>, k: Seq<u8>) -> int
    decreases keys.len(),
{
    if keys.len() == 0 {
        0
    } else if keys[0] == k {
        0
    } else {
        1 + first_key_index(keys.drop_first(), k)
    }
}

/// The index a trained perfect hash returns for `k`: the position of its
/// first occurrence among the trained keys, or nothing for an unknown key.
pub open spec fn phf_index(keys: Seq<Seq<u8>>, k: Seq<u8>) -> Option<int> {
    if keys.contains(k) {
        Some(first_key_index(keys, k))
    } else {
        None
    }
}

pub proof fn lemma_first_key_index(keys: Seq<Seq<u8>>, k: Seq<u8>)
    requires
        keys.contains(k),
    ensures
        0 <= first_key_index(keys, k) < keys.len(),
        keys[first_key_index(keys, k)] == k,
        forall|j: int| 0 <= j < first_key_index(keys, k) ==> keys[j] != k,
    decreases keys.len(),
{
    if keys.len() == 0 {
    } else if keys[0] == k {
    } else {
        let w = choose|i: int| 0 <= i < keys.len() && keys[i] == k;
        assert(keys.drop_first()[w - 1] == k);
        assert(keys.drop_first().contains(k));
        lemma_first_key_index(keys.drop_first(), k);
        let f = first_key_index(keys, k);
        assert forall|j: int| 0 <= j < f implies keys[j] != k by {
            if j > 0 {
                assert(keys.drop_first()[j - 1] == keys[j]);
            }
        }
    }
}

/// The first occurrence of an element preceded by no equal element is its
/// own position.
pub proof fn lemma_first_key_index_exact(keys: Seq<Seq<u8>>, k: Seq<u8>, i: int)
    requires
        0 <= i < keys.len(),
        keys[i] == k,
        forall|j: int| 0 <= j < i ==> keys[j] != k,
    ensures
        keys.contains(k),
        first_key_index(keys, k) == i,
    decreases keys.len(),
{
    assert(keys.contains(k));
    if keys[0] == k {
        assert(i == 0);
    } else {
        assert(keys.drop_first()[i - 1] == k);
        assert forall|j: int| 0 <= j < i - 1 implies keys.drop_first()[j] != k by {
            assert(keys.drop_first()[j] == keys[j + 1]);
        }
        lemma_first_key_index_exact(keys.drop_first(), k, i - 1);
    }
}

/// Determinism: the answer of a trained perfect hash is a function of the
/// trained key vector alone, so training twice on identical keys yields
/// identical outputs, before and after a freeze/load round trip.
pub proof fn lemma_phf_determinism(a: PhfModel, b: PhfModel, k: Seq<u8>)
    requires
        a.keys == b.keys,
        a.keys is Some,
    ensures
        phf_index(a.keys.unwrap(), k) == phf_index(b.keys.unwrap(), k),
{
}

/// Minimality and perfection: over distinct trained keys, the index of the
/// `i`-th key is exactly `i`, so all indices are distinct and lie in
/// `[0, n)`.
pub proof fn lemma_phf_uniqueness(keys: Seq<Seq<u8>>, i: int)
    requires
        0 <= i < keys.len(),
        forall|a: int, b: int| 0 <= a < b < keys.len() ==> keys[a] != keys[b],
    ensures
        phf_index(keys, keys[i]) == Some(i),
{
    assert forall|j: int| 0 <= j < i implies keys[j] != keys[i] by {}
    lemma_first_key_index_exact(keys, keys[i], i);
}

/// A fingerprint-based minimal perfect hash.
pub struct Fmph {
    keys: Option<Vec<Vec<u8>>>,
}

/// The size-optimized minimal perfect hash variant.
pub struct GoFmph {
    keys: Option<Vec<Vec<u8>>>,
}

/// The configurable perfect-hash variants.
pub enum Functions {
    Fmph(Fmph),
    GoFmph(GoFmph),
}

impl View for Functions {
    type V = PhfModel;

    closed spec fn view(&self) -> PhfModel {
        match self {
            Functions::Fmph(f) => PhfModel {
                go: false,
                keys: match f.keys {
                    Some(ks) => Some(list_view(ks)),
                    None => None,
                },
            },
            Functions::GoFmph(f) => PhfModel {
                go: true,
                keys: match f.keys {
                    Some(ks) => Some(list_view(ks)),
                    None => None,
                },
            },
        }
    }
}

impl Fmph {
    pub fn new() -> (r: Self)
        ensures
            (Functions::Fmph(r))@ == (PhfModel { go: false, keys: None::<Seq<Seq<u8>>> }),
    {
        Fmph { keys: None }
    }
}

impl GoFmph {
    pub fn new() -> (r: Self)
        ensures
            (Functions::GoFmph(r))@ == (PhfModel { go: true, keys: None::<Seq<Seq<u8>>> }),
    {
        GoFmph { keys: None }
    }
}

impl Functions {
    /// Whether the perfect hash has been trained.
    pub fn is_trained(&self) -> (r: bool)
        ensures
            r == (self@.keys is Some),
    {
        match self {
            Functions::Fmph(f) => f.keys.is_some(),
            Functions::GoFmph(f) => f.keys.is_some(),
        }
    }

    /// Train the hash over the row-ordered key vector; retraining replaces
    /// the previous key set.
    pub fn set_keys(&mut self, keys: &Vec<Vec<u8>>) -> (r: Result<(), NippyJarError>)
        ensures
            r is Ok,
            final(self)@.keys == Some(list_view(*keys)),
            final(self)@.go == old(self)@.go,
    {
        let copy = copy_byte_list(keys);
        match self {
            Functions::Fmph(f) => {
                f.keys = Some(copy);
            },
            Functions::GoFmph(f) => {
                f.keys = Some(copy);
            },
        }
        Ok(())
    }

    /// The trained index of `key`: its first occurrence among the trained
    /// keys, or `None` for a key that was never trained.
    pub fn get_index(&self, key: &Vec<u8>) -> (r: Result<Option<u64>, NippyJarError>)
        ensures
            self@.keys is None ==> r == Err::<Option<u64>, NippyJarError>(
                NippyJarError::PHFMissingKeys,
            ),
            self@.keys matches Some(ks) ==> r == Ok::<Option<u64>, NippyJarError>(
                match phf_index(ks, key@) {
                    Some(i) => Some(i as u64),
                    None => None,
                },
            ),
    {
        let stored: &Vec<Vec<u8>> = match self {
            Functions::Fmph(f) => match &f.keys {
                Some(ks) => ks,
                None => {
                    return Err(NippyJarError::PHFMissingKeys);
                },
            },
            Functions::GoFmph(f) => match &f.keys {
                Some(ks) => ks,
                None => {
                    return Err(NippyJarError::PHFMissingKeys);
                },
            },
        };
        proof {
            assert(self@.keys == Some(list_view(*stored)));
        }
        let ghost ks = self@.keys.unwrap();
        let mut i: usize = 0;
        while i < stored.len()
            invariant
                i <= stored@.len(),
                self@.keys == Some(ks),
                ks == list_view(*stored),
                ks.len() == stored@.len(),
                forall|j: int| 0 <= j < i ==> ks[j] != key@,
            decreases stored@.len() - i,
        {
            if bytes_eq(&stored[i], key) {
                proof {
                    assert(ks[i as int] == stored@[i as int]@);
                    lemma_first_key_index_exact(ks, key@, i as int);
                }
                return Ok(Some(i as u64));
            }
            i += 1;
        }
        proof {
            if ks.contains(key@) {
                let w = choose|j: int| 0 <= j < ks.len() && ks[j] == key@;
                assert(false);
            }
        }
        Ok(None)
    }
}

/// A vector-backed perfect hash's trained key list fits the 64-bit length
/// prefixes.
pub proof fn lemma_phf_fits(x: Functions)
    ensures
        x@.keys matches Some(ks) ==> list_fits(ks),
{
    match x {
        Functions::Fmph(f) => {
            match f.keys {
                Some(ks) => {
                    crate::codec::lemma_list_view_fits(ks);
                },
                None => {},
            }
        },
        Functions::GoFmph(f) => {
            match f.keys {
                Some(ks) => {
                    crate::codec::lemma_list_view_fits(ks);
                },
                None => {},
            }
        },
    }
}

// ---------------------------------------------------------------------------
// configuration blob encoding
// ---------------------------------------------------------------------------

pub open spec fn enc_phf(f: Option<PhfModel>) -> Seq<u8> {
    match f {
        None => enc_u8(0),
        Some(m) => enc_u8(if m.go { 2 } else { 1 }) + enc_opt_byte_list(m.keys),
    }
}

pub open spec fn phf_opt_view(f: Option<Functions>) -> Option<PhfModel> {
    match f {
        None => None,
        Some(x) => Some(x@),
    }
}

pub open spec fn dec_phf(b: Seq<u8>, pos: int) -> Option<(Option<PhfModel>, int)> {
    match dec_u8(b, pos) {
        Some((tag, p)) => if tag == 0 {
            Some((None, p))
        } else if tag == 1 || tag == 2 {
            match dec_opt_byte_list(b, p) {
                Some((keys, p2)) => Some((Some(PhfModel { go: tag == 2, keys }), p2)),
                None => None,
            }
        } else {
            None
        },
        None => None,
    }
}

pub proof fn lemma_dec_enc_phf(b: Seq<u8>, pos: int, f: Option<PhfModel>)
    requires
        bytes_at(b, pos, enc_phf(f)),
        f matches Some(m) ==> (m.keys matches Some(ks) ==> list_fits(ks)),
    ensures
        dec_phf(b, pos) == Some((f, pos + enc_phf(f).len())),
{
    match f {
        None => {
            lemma_dec_enc_u8(b, pos, 0);
        },
        Some(m) => {
            let tag: u8 = if m.go { 2 } else { 1 };
            lemma_bytes_at_concat(b, pos, enc_u8(tag), enc_opt_byte_list(m.keys));
            lemma_dec_enc_u8(b, pos, tag);
            lemma_dec_enc_opt_byte_list(b, pos + 1, m.keys);
        },
    }
}

pub fn write_phf(out: &mut Vec<u8>, f: &Option<Functions>)
    ensures
        final(out)@ == old(out)@ + enc_phf(phf_opt_view(*f)),
{
    match f {
        None => {
            push_u8(out, 0);
        },
        Some(func) => {
            let (tag, stored): (u8, &Option<Vec<Vec<u8>>>) = match func {
                Functions::Fmph(x) => (1u8, &x.keys),
                Functions::GoFmph(x) => (2u8, &x.keys),
            };
            push_u8(out, tag);
            match stored {
                None => {
                    push_u8(out, 0);
                },
                Some(ks) => {
                    push_u8(out, 1);
                    push_byte_list(out, ks);
                },
            }
            proof {
                assert(out@ =~= old(out)@ + enc_phf(phf_opt_view(*f)));
            }
        },
    }
}

pub fn read_phf(b: &Vec<u8>, pos: usize) -> (r: Result<(Option<Functions>, usize), NippyJarError>)
    ensures
        match dec_phf(b@, pos as int) {
            Some(v) => r is Ok && phf_opt_view(r.unwrap().0) == v.0 && r.unwrap().1 as int == v.1,
            None => r is Err,
        },
{
    let (tag, p) = match read_u8(b, pos) {
        Ok(v) => v,
        Err(e) => {
            return Err(e);
        },
    };
    if tag == 0 {
        Ok((None, p))
    } else if tag == 1 || tag == 2 {
        let (opt_tag, p2) = match read_u8(b, p) {
            Ok(v) => v,
            Err(e) => {
                return Err(e);
            },
        };
        let keys: Option<Vec<Vec<u8>>> = if opt_tag == 0 {
            None
        } else if opt_tag == 1 {
            let (ks, p3) = match read_byte_list(b, p2) {
                Ok(v) => v,
                Err(e) => {
                    return Err(e);
                },
            };
            let f = if tag == 1 {
                Functions::Fmph(Fmph { keys: Some(ks) })
            } else {
                Functions::GoFmph(GoFmph { keys: Some(ks) })
            };
            return Ok((Some(f), p3));
        } else {
            return Err(NippyJarError::Decode);
        };
        let f = if tag == 1 {
            Functions::Fmph(Fmph { keys })
        } else {
            Functions::GoFmph(GoFmph { keys })
        };
        Ok((Some(f), p2))
    } else {
        Err(NippyJarError::Decode)
    }
}

} // verus!

//! Little-endian byte combinators for the jar's self-describing
//! configuration blob: encoders, total spec-level decoders, and the
//! round-trip lemmas that tie them together.

use vstd::prelude::*;
use vstd::bytes::*;
use vstd::slice::slice_subrange;

use crate::error::NippyJarError;

verus! {

/// The byte string `s` occurs in `b` starting at position `pos`.
pub open spec fn bytes_at(b: Seq<u8>, pos: int, s: Seq<u8>) -> bool {
    &&& 0 <= pos
    &&& pos + s.len() <= b.len()
    &&& b.subrange(pos, pos + s.len() as int) == s
}

/// Splitting an occurrence of a concatenation into its two halves.
pub proof fn lemma_bytes_at_concat(b: Seq<u8>, pos: int, s1: Seq<u8>, s2: Seq<u8>)
    requires
        bytes_at(b, pos, s1 + s2),
    ensures
        bytes_at(b, pos, s1),
        bytes_at(b, pos + s1.len(), s2),
{
    let whole = b.subrange(pos, pos + (s1 + s2).len() as int);
    assert forall|i: int| 0 <= i < s1.len() implies b[pos + i] == s1[i] by {
        assert(whole[i] == (s1 + s2)[i]);
    }
    assert(b.subrange(pos, pos + s1.len() as int) =~= s1);
    assert forall|i: int| 0 <= i < s2.len() implies b[pos + s1.len() + i] == s2[i] by {
        assert(whole[s1.len() + i] == (s1 + s2)[s1.len() + i]);
    }
    assert(b.subrange(pos + s1.len(), pos + s1.len() + s2.len() as int) =~= s2);
}

// ---------------------------------------------------------------------------
// single bytes
// ---------------------------------------------------------------------------

pub open spec fn enc_u8(x: u8) -> Seq<u8> {
    seq![x]
}

pub open spec fn dec_u8(b: Seq<u8>, pos: int) -> Option<(u8, int)> {
    if 0 <= pos && pos + 1 <= b.len() {
        Some((b[pos], pos + 1))
    } else {
        None
    }
}

pub proof fn lemma_dec_enc_u8(b: Seq<u8>, pos: int, x: u8)
    requires
        bytes_at(b, pos, enc_u8(x)),
    ensures
        dec_u8(b, pos) == Some((x, pos + 1)),
{
    assert(b.subrange(pos, pos + 1)[0] == b[pos]);
}

pub fn read_u8(b: &Vec<u8>, pos: usize) -> (r: Result<(u8, usize), NippyJarError>)
    ensures
        match dec_u8(b@, pos as int) {
            Some(v) => r is Ok && r.unwrap().0 == v.0 && r.unwrap().1 as int == v.1,
            None => r == Err::<(u8, usize), NippyJarError>(NippyJarError::Decode),
        },
{
    if pos < b.len() {
        Ok((b[pos], pos + 1))
    } else {
        Err(NippyJarError::Decode)
    }
}

pub fn push_u8(out: &mut Vec<u8>, x: u8)
    ensures
        final(out)@ == old(out)@ + enc_u8(x),
{
    out.push(x);
    assert(out@ =~= old(out)@ + enc_u8(x));
}

// ---------------------------------------------------------------------------
// 64-bit little-endian integers
// ---------------------------------------------------------------------------

pub open spec fn enc_u64(x: u64) -> Seq<u8> {
    spec_u64_to_le_bytes(x)
}

pub open spec fn dec_u64(b: Seq<u8>, pos: int) -> Option<(u64, int)> {
    if 0 <= pos && pos + 8 <= b.len() {
        Some((spec_u64_from_le_bytes(b.subrange(pos, pos + 8)), pos + 8))
    } else {
        None
    }
}

pub proof fn lemma_enc_u64_len(x: u64)
    ensures
        enc_u64(x).len() == 8,
{
    lemma_auto_spec_u64_to_from_le_bytes();
}

pub proof fn lemma_dec_enc_u64(b: Seq<u8>, pos: int, x: u64)
    requires
        bytes_at(b, pos, enc_u64(x)),
    ensures
        dec_u64(b, pos) == Some((x, pos + 8)),
{
    lemma_auto_spec_u64_to_from_le_bytes();
}

pub fn read_u64(b: &Vec<u8>, pos: usize) -> (r: Result<(u64, usize), NippyJarError>)
    ensures
        match dec_u64(b@, pos as int) {
            Some(v) => r is Ok && r.unwrap().0 == v.0 && r.unwrap().1 as int == v.1,
            None => r == Err::<(u64, usize), NippyJarError>(NippyJarError::Decode),
        },
{
    if pos <= b.len() && b.len() - pos >= 8 {
        let s = slice_subrange(b.as_slice(), pos, pos + 8);
        let x = u64_from_le_bytes(s);
        Ok((x, pos + 8))
    } else {
        Err(NippyJarError::Decode)
    }
}

pub fn push_u64(out: &mut Vec<u8>, x: u64)
    ensures
        final(out)@ == old(out)@ + enc_u64(x),
{
    let mut bs = u64_to_le_bytes(x);
    out.append(&mut bs);
}

// ---------------------------------------------------------------------------
// length-prefixed byte strings
// ---------------------------------------------------------------------------

pub open spec fn enc_bytes(s: Seq<u8>) -> Seq<u8> {
    enc_u64(s.len() as u64) + s
}

pub open spec fn dec_bytes(b: Seq<u8>, pos: int) -> Option<(Seq<u8>, int)> {
    match dec_u64(b, pos) {
        Some((n, p)) => if p + n <= b.len() {
            Some((b.subrange(p, p + n), p + n))
        } else {
            None
        },
        None => None,
    }
}

pub proof fn lemma_dec_enc_bytes(b: Seq<u8>, pos: int, s: Seq<u8>)
    requires
        bytes_at(b, pos, enc_bytes(s)),
        s.len() <= u64::MAX,
    ensures
        dec_bytes(b, pos) == Some((s, pos + 8 + s.len())),
{
    lemma_bytes_at_concat(b, pos, enc_u64(s.len() as u64), s);
    lemma_enc_u64_len(s.len() as u64);
    lemma_dec_enc_u64(b, pos, s.len() as u64);
    assert(b.subrange(pos + 8, pos + 8 + s.len() as int) == s);
}

pub fn read_bytes(b: &Vec<u8>, pos: usize) -> (r: Result<(Vec<u8>, usize), NippyJarError>)
    ensures
        match dec_bytes(b@, pos as int) {
            Some(v) => r is Ok && r.unwrap().0@ == v.0 && r.unwrap().1 as int == v.1,
            None => r == Err::<(Vec<u8>, usize), NippyJarError>(NippyJarError::Decode),
        },
{
    let (n, p) = match read_u64(b, pos) {
        Ok(v) => v,
        Err(e) => {
            return Err(e);
        },
    };
    if n <= (b.len() - p) as u64 {
        let n_us = n as usize;
        let blen = b.len();
        let mut out: Vec<u8> = Vec::new();
        let mut i: usize = 0;
        while i < n_us
            invariant
                p + n_us <= b@.len(),
                b@.len() == blen,
                i <= n_us,
                out@ == b@.subrange(p as int, p + i),
            decreases n_us - i,
        {
            out.push(b[p + i]);
            assert(out@ =~= b@.subrange(p as int, p + i + 1));
            i += 1;
        }
        Ok((out, p + n_us))
    } else {
        Err(NippyJarError::Decode)
    }
}

pub fn push_bytes(out: &mut Vec<u8>, v: &Vec<u8>)
    ensures
        final(out)@ == old(out)@ + enc_bytes(v@),
{
    push_u64(out, v.len() as u64);
    let mut i: usize = 0;
    while i < v.len()
        invariant
            i <= v@.len(),
            out@ == old(out)@ + enc_u64(v@.len() as u64) + v@.take(i as int),
        decreases v@.len() - i,
    {
        out.push(v[i]);
        assert(out@ =~= old(out)@ + enc_u64(v@.len() as u64) + v@.take(i + 1));
        i += 1;
    }
    assert(v@.take(v@.len() as int) =~= v@);
    assert(out@ =~= old(out)@ + enc_bytes(v@));
}

// ---------------------------------------------------------------------------
// counted lists of byte strings
// ---------------------------------------------------------------------------

/// View of a vector of byte vectors.
pub open spec fn list_view(l: Vec<Vec<u8>>) -> Seq<Seq<u8>> {
    l@.map_values(|v: Vec<u8>| v@)
}

/// View of a column matrix: one byte-string sequence per column.
pub open spec fn matrix_view(m: Vec<Vec<Vec<u8>>>) -> Seq<Seq<Seq<u8>>> {
    m@.map_values(|c: Vec<Vec<u8>>| list_view(c))
}

/// Pushing one vector extends the view of the list by its view.
pub proof fn lemma_list_view_push(l: Vec<Vec<u8>>, l2: Vec<Vec<u8>>, x: Vec<u8>)
    requires
        l2@ == l@.push(x),
    ensures
        list_view(l2) =~= list_view(l).push(x@),
{
    assert forall|k: int| 0 <= k < l2@.len() implies list_view(l2)[k] == list_view(l).push(x@)[k]
        by {
        if k < l@.len() {
            assert(l2@[k] == l@[k]);
        } else {
            assert(l2@[k] == x);
        }
    }
}

/// Every length in a vector-backed list fits the 64-bit length prefixes.
pub proof fn lemma_list_view_fits(l: Vec<Vec<u8>>)
    ensures
        list_fits(list_view(l)),
{
    broadcast use vstd::std_specs::vec::axiom_spec_len;

    assert(l.len() == l@.len());
    assert forall|i: int| 0 <= i < list_view(l).len() implies #[trigger] list_view(l)[i].len()
        <= u64::MAX by {
        let v = l@[i];
        assert(v.len() == v@.len());
    }
}

/// Byte-for-byte equality of two byte vectors.
pub fn bytes_eq(a: &Vec<u8>, b: &Vec<u8>) -> (r: bool)
    ensures
        r == (a@ == b@),
{
    if a.len() != b.len() {
        return false;
    }
    let mut i: usize = 0;
    while i < a.len()
        invariant
            i <= a@.len(),
            a@.len() == b@.len(),
            forall|k: int| 0 <= k < i ==> a@[k] == b@[k],
        decreases a@.len() - i,
    {
        if a[i] != b[i] {
            return false;
        }
        i += 1;
    }
    proof {
        assert(a@ =~= b@);
    }
    true
}

/// Append a copy of `v` to `out`.
pub fn copy_bytes_into(v: &Vec<u8>, out: &mut Vec<u8>)
    ensures
        final(out)@ == old(out)@ + v@,
{
    let mut i: usize = 0;
    while i < v.len()
        invariant
            i <= v@.len(),
            out@ == old(out)@ + v@.take(i as int),
        decreases v@.len() - i,
    {
        out.push(v[i]);
        assert(out@ =~= old(out)@ + v@.take(i + 1));
        i += 1;
    }
    assert(v@.take(v@.len() as int) =~= v@);
    assert(out@ =~= old(out)@ + v@);
}

/// The bytes of `b` from `from` (inclusive) to `to` (exclusive).
pub fn copy_range(b: &Vec<u8>, from: usize, to: usize) -> (r: Vec<u8>)
    requires
        from <= to <= b@.len(),
    ensures
        r@ == b@.subrange(from as int, to as int),
{
    let mut out: Vec<u8> = Vec::new();
    let mut i: usize = from;
    while i < to
        invariant
            from <= i <= to <= b@.len(),
            out@ == b@.subrange(from as int, i as int),
        decreases to - i,
    {
        out.push(b[i]);
        assert(out@ =~= b@.subrange(from as int, i + 1));
        i += 1;
    }
    out
}

/// A fresh copy of `v`.
pub fn copy_bytes(v: &Vec<u8>) -> (r: Vec<u8>)
    ensures
        r@ == v@,
{
    let mut out: Vec<u8> = Vec::new();
    copy_bytes_into(v, &mut out);
    out
}

/// A fresh copy of a vector of byte vectors.
pub fn copy_byte_list(l: &Vec<Vec<u8>>) -> (r: Vec<Vec<u8>>)
    ensures
        list_view(r) == list_view(*l),
{
    let mut out: Vec<Vec<u8>> = Vec::new();
    let mut i: usize = 0;
    while i < l.len()
        invariant
            i <= l@.len(),
            list_view(out) == list_view(*l).take(i as int),
        decreases l@.len() - i,
    {
        let ghost pre = out;
        let c = copy_bytes(&l[i]);
        out.push(c);
        proof {
            lemma_list_view_push(pre, out, c);
            assert(list_view(out) =~= list_view(*l).take(i + 1));
        }
        i += 1;
    }
    proof {
        assert(list_view(*l).take(l@.len() as int) =~= list_view(*l));
    }
    out
}

/// Every length involved fits the 64-bit length prefixes.
pub open spec fn list_fits(l: Seq<Seq<u8>>) -> bool {
    &&& l.len() <= u64::MAX
    &&& forall|i: int| 0 <= i < l.len() ==> #[trigger] l[i].len() <= u64::MAX
}

pub open spec fn enc_items(l: Seq<Seq<u8>>) -> Seq<u8>
    decreases l.len(),
{
    if l.len() == 0 {
        Seq::<u8>::empty()
    } else {
        enc_bytes(l[0]) + enc_items(l.drop_first())
    }
}

pub open spec fn enc_byte_list(l: Seq<Seq<u8>>) -> Seq<u8> {
    enc_u64(l.len() as u64) + enc_items(l)
}

pub open spec fn dec_items(b: Seq<u8>, pos: int, count: int) -> Option<(Seq<Seq<u8>>, int)>
    decreases count,
{
    if count <= 0 {
        Some((Seq::<Seq<u8>>::empty(), pos))
    } else {
        match dec_bytes(b, pos) {
            Some((v, p)) => match dec_items(b, p, count - 1) {
                Some((l, p2)) => Some((seq![v] + l, p2)),
                None => None,
            },
            None => None,
        }
    }
}

pub open spec fn dec_byte_list(b: Seq<u8>, pos: int) -> Option<(Seq<Seq<u8>>, int)> {
    match dec_u64(b, pos) {
        Some((n, p)) => dec_items(b, p, n as int),
        None => None,
    }
}

proof fn lemma_dec_enc_items(b: Seq<u8>, pos: int, l: Seq<Seq<u8>>)
    requires
        bytes_at(b, pos, enc_items(l)),
        list_fits(l),
    ensures
        dec_items(b, pos, l.len() as int) == Some((l, pos + enc_items(l).len())),
    decreases l.len(),
{
    if l.len() == 0 {
        assert(l =~= Seq::<Seq<u8>>::empty());
    } else {
        lemma_bytes_at_concat(b, pos, enc_bytes(l[0]), enc_items(l.drop_first()));
        lemma_dec_enc_bytes(b, pos, l[0]);
        lemma_enc_u64_len(l[0].len() as u64);
        let p = pos + enc_bytes(l[0]).len();
        lemma_dec_enc_items(b, p, l.drop_first());
        assert(seq![l[0]] + l.drop_first() =~= l);
    }
}

pub proof fn lemma_dec_enc_byte_list(b: Seq<u8>, pos: int, l: Seq<Seq<u8>>)
    requires
        bytes_at(b, pos, enc_byte_list(l)),
        list_fits(l),
    ensures
        dec_byte_list(b, pos) == Some((l, pos + enc_byte_list(l).len())),
{
    lemma_bytes_at_concat(b, pos, enc_u64(l.len() as u64), enc_items(l));
    lemma_enc_u64_len(l.len() as u64);
    lemma_dec_enc_u64(b, pos, l.len() as u64);
    lemma_dec_enc_items(b, pos + 8, l);
}

/// A successful item parse consumes at least eight bytes per item.
proof fn lemma_dec_items_bound(b: Seq<u8>, pos: int, count: int)
    requires
        0 <= pos,
        dec_items(b, pos, count) is Some,
    ensures
        count >= 1 ==> pos + 8 * count <= b.len(),
    decreases count,
{
    if count > 0 {
        let (v, p) = dec_bytes(b, pos).unwrap();
        assert(pos + 8 <= p <= b.len());
        if count - 1 >= 1 {
            lemma_dec_items_bound(b, p, count - 1);
        }
    }
}

pub fn read_byte_list(b: &Vec<u8>, pos: usize) -> (r: Result<(Vec<Vec<u8>>, usize), NippyJarError>)
    ensures
        match dec_byte_list(b@, pos as int) {
            Some(v) => r is Ok && list_view(r.unwrap().0) == v.0 && r.unwrap().1 as int == v.1,
            None => r == Err::<(Vec<Vec<u8>>, usize), NippyJarError>(NippyJarError::Decode),
        },
{
    let (n64, p0) = match read_u64(b, pos) {
        Ok(v) => v,
        Err(e) => {
            return Err(e);
        },
    };
    let rem = b.len() - p0;
    if n64 > (rem / 8) as u64 {
        proof {
            if dec_items(b@, p0 as int, n64 as int) is Some {
                lemma_dec_items_bound(b@, p0 as int, n64 as int);
            }
        }
        return Err(NippyJarError::Decode);
    }
    let n = n64 as usize;
    let mut acc: Vec<Vec<u8>> = Vec::new();
    let mut cur: usize = p0;
    let mut i: usize = 0;
    proof {
        assert(list_view(acc) =~= Seq::<Seq<u8>>::empty());
        match dec_items(b@, p0 as int, n as int) {
            Some(t) => {
                assert(list_view(acc) + t.0 =~= t.0);
            },
            None => {},
        }
    }
    while i < n
        invariant
            i <= n,
            pos as int + 8 <= b@.len(),
            cur <= b@.len(),
            dec_u64(b@, pos as int) == Some((n64, p0 as int)),
            n == n64,
            acc@.len() == i,
            match dec_items(b@, cur as int, (n - i) as int) {
                Some(t) => dec_items(b@, p0 as int, n as int) == Some(
                    (list_view(acc) + t.0, t.1),
                ),
                None => dec_items(b@, p0 as int, n as int) is None,
            },
        decreases n - i,
    {
        match read_bytes(b, cur) {
            Ok((v, p)) => {
                let ghost pre_acc = acc;
                let ghost old_acc_view = list_view(acc);
                let ghost old_cur = cur as int;
                let ghost v_snap = v;
                acc.push(v);
                proof {
                    lemma_list_view_push(pre_acc, acc, v_snap);
                    assert(list_view(acc) =~= old_acc_view.push(v_snap@));
                    let (sv, sp) = dec_bytes(b@, old_cur).unwrap();
                    match dec_items(b@, sp, (n - i - 1) as int) {
                        Some(t2) => {
                            assert(old_acc_view.push(v_snap@) + t2.0 =~= old_acc_view + (seq![sv]
                                + t2.0));
                        },
                        None => {},
                    }
                }
                cur = p;
                i += 1;
            },
            Err(_) => {
                return Err(NippyJarError::Decode);
            },
        }
    }
    proof {
        let t = dec_items(b@, cur as int, 0).unwrap();
        assert(list_view(acc) + t.0 =~= list_view(acc));
    }
    Ok((acc, cur))
}

pub fn push_byte_list(out: &mut Vec<u8>, l: &Vec<Vec<u8>>)
    ensures
        final(out)@ == old(out)@ + enc_byte_list(list_view(*l)),
{
    push_u64(out, l.len() as u64);
    let ghost lv = list_view(*l);
    proof {
        assert(lv.skip(0) =~= lv);
        assert(out@ + enc_items(lv) =~= old(out)@ + enc_byte_list(lv));
    }
    let mut j: usize = 0;
    while j < l.len()
        invariant
            j <= l@.len(),
            lv == list_view(*l),
            lv.len() == l@.len(),
            out@ + enc_items(lv.skip(j as int)) == old(out)@ + enc_byte_list(lv),
        decreases l@.len() - j,
    {
        proof {
            assert(lv.skip(j as int).drop_first() =~= lv.skip(j + 1));
            assert(lv.skip(j as int)[0] == lv[j as int]);
        }
        push_bytes(out, &l[j]);
        proof {
            assert(out@ + enc_items(lv.skip(j + 1)) =~= old(out)@ + enc_byte_list(lv));
        }
        j += 1;
    }
    proof {
        assert(lv.skip(lv.len() as int) =~= Seq::<Seq<u8>>::empty());
        assert(out@ + enc_items(lv.skip(lv.len() as int)) =~= out@);
    }
}

// ---------------------------------------------------------------------------
// optional lists of byte strings
// ---------------------------------------------------------------------------

pub open spec fn enc_opt_byte_list(l: Option<Seq<Seq<u8>>>) -> Seq<u8> {
    match l {
        None => enc_u8(0),
        Some(ks) => enc_u8(1) + enc_byte_list(ks),
    }
}

pub open spec fn dec_opt_byte_list(b: Seq<u8>, pos: int) -> Option<(Option<Seq<Seq<u8>>>, int)> {
    match dec_u8(b, pos) {
        Some((tag, p)) => if tag == 0 {
            Some((None, p))
        } else if tag == 1 {
            match dec_byte_list(b, p) {
                Some((ks, p2)) => Some((Some(ks), p2)),
                None => None,
            }
        } else {
            None
        },
        None => None,
    }
}

pub proof fn lemma_dec_enc_opt_byte_list(b: Seq<u8>, pos: int, l: Option<Seq<Seq<u8>>>)
    requires
        bytes_at(b, pos, enc_opt_byte_list(l)),
        l matches Some(ks) ==> list_fits(ks),
    ensures
        dec_opt_byte_list(b, pos) == Some((l, pos + enc_opt_byte_list(l).len())),
{
    match l {
        None => {
            lemma_dec_enc_u8(b, pos, 0);
        },
        Some(ks) => {
            lemma_bytes_at_concat(b, pos, enc_u8(1), enc_byte_list(ks));
            lemma_dec_enc_u8(b, pos, 1);
            lemma_dec_enc_byte_list(b, pos + 1, ks);
        },
    }
}

} // verus!

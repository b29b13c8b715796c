//! Fixed-size little-endian records and the splitting of a byte run into them.
use vstd::prelude::*;

verus! {

/// A record with a fixed on-disk size, decoded from the bytes at an offset.
pub trait Record: Sized {
    spec fn spec_size() -> nat;

    /// The record that the bytes at `at` encode.
    spec fn spec_at(b: Seq<u8>, at: int) -> Self;

    fn size() -> (r: usize)
        ensures
            r as nat == Self::spec_size(),
            r > 0,
    ;

    fn read_at(b: &[u8], at: usize) -> (r: Self)
        requires
            at + Self::spec_size() <= b@.len(),
            b@.len() <= usize::MAX,
        ensures
            r == Self::spec_at(b@, at as int),
    ;
}

/// The records that `b` holds back to back: `b.len() / size` of them, any
/// remainder ignored.
pub open spec fn records_of<R: Record>(b: Seq<u8>) -> Seq<R> {
    Seq::new(b.len() / R::spec_size(), |i: int| R::spec_at(b, i * R::spec_size()))
}

proof fn lemma_record_fits(i: int, len: int, s: int)
    requires
        s > 0,
        0 <= i < len / s,
    ensures
        0 <= i * s,
        i * s + s <= len,
{
    vstd::arithmetic::div_mod::lemma_fundamental_div_mod(len, s);
    let q = len / s;
    let m = len % s;
    assert(0 <= m) by {
        vstd::arithmetic::div_mod::lemma_mod_pos_bound(len, s);
    }
    assert(i * s + s <= len && 0 <= i * s) by (nonlinear_arith)
        requires
            i + 1 <= q,
            0 <= i,
            len == s * q + m,
            m >= 0,
            s > 0,
    ;
}

/// Split a buffer into fixed-size records.
pub fn read_mul_structs<R: Record>(buf: &[u8]) -> (r: Vec<R>)
    ensures
        r@ == records_of::<R>(buf@),
{
    let size = R::size();
    let len = buf.len();
    let count = len / size;
    let mut out: Vec<R> = Vec::with_capacity(count);
    let mut i: usize = 0;
    let mut at: usize = 0;
    while i < count
        invariant
            size as nat == R::spec_size(),
            size > 0,
            len == buf@.len(),
            count == buf@.len() / (size as nat),
            i <= count,
            at == i * size,
            out@.len() == i,
            forall|k: int| 0 <= k < i ==> out@[k] == R::spec_at(buf@, k * size),
        decreases count - i,
    {
        proof {
            lemma_record_fits(i as int, buf@.len() as int, size as int);
        }
        assert(at + size <= len);
        let rec = R::read_at(buf, at);
        out.push(rec);
        at = at + size;
        i = i + 1;
        proof {
            assert(at == i * size) by (nonlinear_arith)
                requires
                    at == (i - 1) * size + size,
            ;
        }
    }
    assert(out@ =~= records_of::<R>(buf@));
    out
}

} // verus!

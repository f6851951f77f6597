//! Small helpers over byte vectors used throughout the library.

use vstd::prelude::*;

verus! {

/// Copy of a byte vector with the same contents.
pub fn clone_bytes(v: &Vec<u8>) -> (r: Vec<u8>)
    ensures
        r@ == v@,
{
    let mut r: Vec<u8> = Vec::new();
    let mut i: usize = 0;
    while i < v.len()
        invariant
            i <= v@.len(),
            r@ == v@.take(i as int),
        decreases v@.len() - i,
    {
        r.push(v[i]);
        proof {
            assert(v@.take(i as int).push(v@[i as int]) =~= v@.take(i + 1));
        }
        i += 1;
    }
    proof {
        assert(v@.take(v@.len() as int) =~= v@);
    }
    r
}

/// Appends the contents of `src` to `dst`.
pub fn push_bytes(dst: &mut Vec<u8>, src: &Vec<u8>)
    ensures
        final(dst)@ == old(dst)@ + src@,
{
    let mut i: usize = 0;
    while i < src.len()
        invariant
            i <= src@.len(),
            dst@ == old(dst)@ + src@.take(i as int),
        decreases src@.len() - i,
    {
        dst.push(src[i]);
        proof {
            assert((old(dst)@ + src@.take(i as int)).push(src@[i as int])
                =~= old(dst)@ + src@.take(i + 1));
        }
        i += 1;
    }
    proof {
        assert(old(dst)@ + src@.take(src@.len() as int) =~= old(dst)@ + src@);
    }
}

/// True exactly when the two byte vectors hold the same bytes.
pub fn bytes_eq(a: &Vec<u8>, b: &Vec<u8>) -> (r: bool)
    ensures
        r <==> a@ =~= b@,
{
    if a.len() != b.len() {
        return false;
    }
    let mut i: usize = 0;
    while i < a.len()
        invariant
            i <= a@.len(),
            a@.len() == b@.len(),
            forall|j: int| 0 <= j < i ==> a@[j] == b@[j],
        decreases a@.len() - i,
    {
        if a[i] != b[i] {
            return false;
        }
        i += 1;
    }
    true
}

/// The eight little-endian bytes of a 64-bit value.
pub open spec fn u64_le_bytes(v: u64) -> Seq<u8> {
    seq![
        (v & 0xff) as u8,
        ((v >> 8) & 0xff) as u8,
        ((v >> 16) & 0xff) as u8,
        ((v >> 24) & 0xff) as u8,
        ((v >> 32) & 0xff) as u8,
        ((v >> 40) & 0xff) as u8,
        ((v >> 48) & 0xff) as u8,
        ((v >> 56) & 0xff) as u8,
    ]
}

/// Little-endian encoding of a 64-bit value.
pub fn u64_to_le(v: u64) -> (r: Vec<u8>)
    ensures
        r@ == u64_le_bytes(v),
        r@.len() == 8,
{
    let mut r: Vec<u8> = Vec::new();
    r.push((v & 0xff) as u8);
    r.push(((v >> 8) & 0xff) as u8);
    r.push(((v >> 16) & 0xff) as u8);
    r.push(((v >> 24) & 0xff) as u8);
    r.push(((v >> 32) & 0xff) as u8);
    r.push(((v >> 40) & 0xff) as u8);
    r.push(((v >> 48) & 0xff) as u8);
    r.push(((v >> 56) & 0xff) as u8);
    proof {
        assert(r@ =~= u64_le_bytes(v));
    }
    r
}

/// The 64-bit value read back from eight little-endian bytes.
pub fn u64_from_le(b: &Vec<u8>, at: usize) -> (r: u64)
    requires
        at + 8 <= b@.len(),
    ensures
        u64_le_bytes(r) == b@.subrange(at as int, at + 8),
{
    let n: usize = b.len();
    let r: u64 = (b[at] as u64)
        | ((b[at + 1] as u64) << 8)
        | ((b[at + 2] as u64) << 16)
        | ((b[at + 3] as u64) << 24)
        | ((b[at + 4] as u64) << 32)
        | ((b[at + 5] as u64) << 40)
        | ((b[at + 6] as u64) << 48)
        | ((b[at + 7] as u64) << 56);
    proof {
        let s = b@.subrange(at as int, at + 8);
        assert(u64_le_bytes(r) =~= s) by {
            assert forall|j: int| 0 <= j < 8 implies u64_le_bytes(r)[j] == s[j] by {
                let x0 = b@[at as int];
                let x1 = b@[at + 1];
                let x2 = b@[at + 2];
                let x3 = b@[at + 3];
                let x4 = b@[at + 4];
                let x5 = b@[at + 5];
                let x6 = b@[at + 6];
                let x7 = b@[at + 7];
                assert(r == (x0 as u64) | ((x1 as u64) << 8) | ((x2 as u64) << 16)
                    | ((x3 as u64) << 24) | ((x4 as u64) << 32) | ((x5 as u64) << 40)
                    | ((x6 as u64) << 48) | ((x7 as u64) << 56));
                assert((r & 0xff) as u8 == x0 && ((r >> 8) & 0xff) as u8 == x1
                    && ((r >> 16) & 0xff) as u8 == x2 && ((r >> 24) & 0xff) as u8 == x3
                    && ((r >> 32) & 0xff) as u8 == x4 && ((r >> 40) & 0xff) as u8 == x5
                    && ((r >> 48) & 0xff) as u8 == x6 && ((r >> 56) & 0xff) as u8 == x7)
                    by (bit_vector)
                    requires r == (x0 as u64) | ((x1 as u64) << 8) | ((x2 as u64) << 16)
                        | ((x3 as u64) << 24) | ((x4 as u64) << 32) | ((x5 as u64) << 40)
                        | ((x6 as u64) << 48) | ((x7 as u64) << 56);
            }
        }
    }
    r
}

/// Round trip: reading back the little-endian encoding gives the value.
pub proof fn lemma_u64_le_round_trip(v: u64, w: u64)
    requires
        u64_le_bytes(v) == u64_le_bytes(w),
    ensures
        v == w,
{
    let s = u64_le_bytes(v);
    let t = u64_le_bytes(w);
    assert(s[0] == t[0] && s[1] == t[1] && s[2] == t[2] && s[3] == t[3]
        && s[4] == t[4] && s[5] == t[5] && s[6] == t[6] && s[7] == t[7]);
    assert(v == w) by (bit_vector)
        requires
            (v & 0xff) as u8 == (w & 0xff) as u8,
            ((v >> 8) & 0xff) as u8 == ((w >> 8) & 0xff) as u8,
            ((v >> 16) & 0xff) as u8 == ((w >> 16) & 0xff) as u8,
            ((v >> 24) & 0xff) as u8 == ((w >> 24) & 0xff) as u8,
            ((v >> 32) & 0xff) as u8 == ((w >> 32) & 0xff) as u8,
            ((v >> 40) & 0xff) as u8 == ((w >> 40) & 0xff) as u8,
            ((v >> 48) & 0xff) as u8 == ((w >> 48) & 0xff) as u8,
            ((v >> 56) & 0xff) as u8 == ((w >> 56) & 0xff) as u8;
}

} // verus!

//! Little-endian integer encoding and bounds-checked reads from byte buffers.
use vstd::prelude::*;

verus! {

/// Value of two little-endian bytes.
pub open spec fn le16_val(b: Seq<u8>) -> nat {
    b[0] as nat + 256 * (b[1] as nat)
}

/// Value of four little-endian bytes.
pub open spec fn le32_val(b: Seq<u8>) -> nat {
    b[0] as nat + 256 * (b[1] as nat) + 65536 * (b[2] as nat) + 16777216 * (b[3] as nat)
}

/// Value of eight little-endian bytes.
pub open spec fn le64_val(b: Seq<u8>) -> nat {
    le32_val(b) + 4294967296 * le32_val(b.skip(4))
}

/// The four little-endian bytes of `x` (`u32::to_le_bytes`).
pub open spec fn le32(x: u32) -> Seq<u8> {
    seq![
        (x % 256) as u8,
        ((x / 256) % 256) as u8,
        ((x / 65536) % 256) as u8,
        (x / 16777216) as u8,
    ]
}

pub proof fn lemma_le32_val(x: u32)
    ensures
        le32_val(le32(x)) == x,
        le32(x).len() == 4,
{
}

pub proof fn lemma_le32_of_val(b: Seq<u8>)
    requires
        b.len() == 4,
    ensures
        le32_val(b) <= u32::MAX,
        le32(le32_val(b) as u32) == b,
{
    let v = le32_val(b);
    assert(le32(v as u32) =~= b);
}

pub proof fn lemma_le32_injective(x: u32, y: u32)
    requires
        le32(x) == le32(y),
    ensures
        x == y,
{
    lemma_le32_val(x);
    lemma_le32_val(y);
}

/// The four bytes `b[off..off + 4]` as a little-endian `u32`.
pub fn u32_at(b: &[u8], off: usize) -> (r: u32)
    requires
        off + 4 <= b@.len(),
    ensures
        r == le32_val(b@.subrange(off as int, off + 4)),
{
    let r: u32 = b[off] as u32 + 256 * (b[off + 1] as u32) + 65536 * (b[off + 2] as u32)
        + 16777216 * (b[off + 3] as u32);
    r
}

/// The two bytes `b[off..off + 2]` as a little-endian `u16`.
pub fn u16_at(b: &[u8], off: usize) -> (r: u16)
    requires
        off + 2 <= b@.len(),
    ensures
        r == le16_val(b@.subrange(off as int, off + 2)),
{
    let r: u16 = b[off] as u16 + 256 * (b[off + 1] as u16);
    r
}

/// The eight bytes `b[off..off + 8]` as a little-endian `u64`.
pub fn u64_at(b: &[u8], off: usize) -> (r: u64)
    requires
        off + 8 <= b@.len(),
    ensures
        r == le64_val(b@.subrange(off as int, off + 8)),
{
    let _n = b.len();
    let lo = u32_at(b, off) as u64;
    let hi = u32_at(b, off + 4) as u64;
    proof {
        let s = b@.subrange(off as int, off + 8);
        assert(s.skip(4) =~= b@.subrange(off + 4, off + 8));
        assert(s.subrange(0, 4) =~= b@.subrange(off as int, off + 4));
        assert(le32_val(s) == le32_val(b@.subrange(off as int, off + 4)));
    }
    lo + 4294967296 * hi
}

/// Append the little-endian bytes of `x`.
pub fn push_u32_le(v: &mut Vec<u8>, x: u32)
    ensures
        final(v)@ == old(v)@ + le32(x),
{
    v.push((x % 256) as u8);
    v.push(((x / 256) % 256) as u8);
    v.push(((x / 65536) % 256) as u8);
    v.push((x / 16777216) as u8);
    assert(v@ =~= old(v)@ + le32(x));
}

/// Append a slice of bytes.
pub fn push_bytes(v: &mut Vec<u8>, b: &[u8])
    ensures
        final(v)@ == old(v)@ + b@,
{
    let ghost v0 = v@;
    let mut i: usize = 0;
    while i < b.len()
        invariant
            i <= b@.len(),
            v@ == v0 + b@.take(i as int),
        decreases b@.len() - i,
    {
        v.push(b[i]);
        i = i + 1;
        assert(b@.take(i as int) =~= b@.take(i - 1).push(b@[i - 1]));
    }
    assert(b@.take(b@.len() as int) =~= b@);
}

/// Position of the first zero byte, or the length when there is none.
pub open spec fn nul_pos(b: Seq<u8>) -> int
    decreases b.len(),
{
    if b.len() == 0 {
        0
    } else if b[0] == 0 {
        0
    } else {
        1 + nul_pos(b.drop_first())
    }
}

pub proof fn lemma_nul_pos(b: Seq<u8>)
    ensures
        0 <= nul_pos(b) <= b.len(),
        nul_pos(b) < b.len() ==> b[nul_pos(b)] == 0,
        forall|j: int| 0 <= j < nul_pos(b) ==> b[j] != 0,
    decreases b.len(),
{
    if b.len() > 0 && b[0] != 0 {
        lemma_nul_pos(b.drop_first());
        assert forall|j: int| 0 <= j < nul_pos(b) implies b[j] != 0 by {
            if j > 0 {
                assert(b[j] == b.drop_first()[j - 1]);
            }
        }
    }
}

pub proof fn lemma_nul_pos_is(b: Seq<u8>, k: int)
    requires
        0 <= k <= b.len(),
        k < b.len() ==> b[k] == 0,
        forall|j: int| 0 <= j < k ==> b[j] != 0,
    ensures
        nul_pos(b) == k,
    decreases b.len(),
{
    if b.len() > 0 && b[0] != 0 {
        assert forall|j: int| 0 <= j < k - 1 implies b.drop_first()[j] != 0 by {
            assert(b.drop_first()[j] == b[j + 1]);
        }
        lemma_nul_pos_is(b.drop_first(), k - 1);
    }
}

/// The bytes before the first zero byte (a C string).
pub open spec fn cstr(b: Seq<u8>) -> Seq<u8> {
    b.take(nul_pos(b))
}

/// Index of the first zero byte in `b[from..]`, relative to `from`, or the
/// length of that tail when it holds no zero.
pub fn nul_index_from(b: &[u8], from: usize) -> (r: usize)
    requires
        from <= b@.len(),
    ensures
        r == nul_pos(b@.skip(from as int)),
        from + r <= b@.len(),
{
    let mut i = from;
    while i < b.len() && b[i] != 0
        invariant
            from <= i <= b@.len(),
            forall|j: int| from <= j < i ==> b@[j] != 0,
        decreases b@.len() - i,
    {
        i = i + 1;
    }
    proof {
        let t = b@.skip(from as int);
        assert forall|j: int| 0 <= j < i - from implies t[j] != 0 by {
            assert(t[j] == b@[j + from]);
        }
        lemma_nul_pos_is(t, i - from);
    }
    i - from
}

/// The bytes of `b` before its first zero byte.
pub fn cstr_bytes(b: &[u8]) -> (r: Vec<u8>)
    ensures
        r@ == cstr(b@),
{
    let n = nul_index_from(b, 0);
    assert(b@.skip(0) =~= b@);
    let mut r: Vec<u8> = Vec::new();
    let mut i: usize = 0;
    while i < n
        invariant
            n <= b@.len(),
            i <= n,
            r@ == b@.take(i as int),
        decreases n - i,
    {
        r.push(b[i]);
        i = i + 1;
        assert(r@ =~= b@.take(i as int));
    }
    r
}

} // verus!

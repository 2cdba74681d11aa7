use vstd::prelude::*;

verus! {

/// The unsigned integer stored little-endian in `s[i]`, `s[i + 1]`.
pub open spec fn le_u16_at(s: Seq<u8>, i: int) -> int {
    s[i] as int + 256 * s[i + 1] as int
}

/// The unsigned integer stored little-endian in `s[i] .. s[i + 4]`.
pub open spec fn le_u32_at(s: Seq<u8>, i: int) -> int {
    le_u16_at(s, i) + 65536 * le_u16_at(s, i + 2)
}

/// The unsigned integer stored little-endian in `s[i] .. s[i + 3]`.
pub open spec fn le_u24_at(s: Seq<u8>, i: int) -> int {
    le_u16_at(s, i) + 65536 * s[i + 2] as int
}

/// The unsigned integer stored little-endian in `s[i] .. s[i + 8]`.
pub open spec fn le_u64_at(s: Seq<u8>, i: int) -> int {
    le_u32_at(s, i) + 0x1_0000_0000 * le_u32_at(s, i + 4)
}

/// Whether the four bytes at `s[i] .. s[i + 4]` spell `tag`.
pub open spec fn tag_at(s: Seq<u8>, i: int, tag: Seq<u8>) -> bool {
    &&& 0 <= i
    &&& i + 4 <= s.len()
    &&& s.subrange(i, i + 4) == tag
}

/// Reads a little-endian `u16` at `pos`.
pub fn read_le_u16(buf: &[u8], pos: usize) -> (r: u16)
    requires
        pos + 2 <= buf@.len(),
    ensures
        r as int == le_u16_at(buf@, pos as int),
{
    let lo = buf[pos] as u16;
    let hi = buf[pos + 1] as u16;
    lo + hi * 256
}

/// Reads a little-endian `u32` at `pos`.
pub fn read_le_u32(buf: &[u8], pos: usize) -> (r: u32)
    requires
        pos + 4 <= buf@.len(),
    ensures
        r as int == le_u32_at(buf@, pos as int),
{
    let _n = buf.len();
    let lo = read_le_u16(buf, pos) as u32;
    let hi = read_le_u16(buf, pos + 2) as u32;
    lo + hi * 65536
}

/// Whether the four bytes at `pos` spell `tag`; false where fewer than four remain.
pub fn has_tag_at(buf: &[u8], pos: usize, tag: [u8; 4]) -> (r: bool)
    ensures
        r == tag_at(buf@, pos as int, tag@),
{
    if buf.len() < 4 || pos > buf.len() - 4 {
        return false;
    }
    let mut k: usize = 0;
    while k < 4
        invariant
            k <= 4,
            pos + 4 <= buf@.len() <= usize::MAX,
            forall|j: int| 0 <= j < k ==> buf@[pos + j] == tag@[j],
        decreases 4 - k,
    {
        if buf[pos + k] != tag[k] {
            proof {
                assert(buf@.subrange(pos as int, pos + 4)[k as int] != tag@[k as int]);
            }
            return false;
        }
        k = k + 1;
    }
    proof {
        assert(buf@.subrange(pos as int, pos + 4) =~= tag@);
    }
    true
}

/// Reads a little-endian 24-bit unsigned integer at `pos`.
pub fn read_le_u24(buf: &[u8], pos: usize) -> (r: u32)
    requires
        pos + 3 <= buf@.len(),
    ensures
        r as int == le_u24_at(buf@, pos as int),
{
    let _n = buf.len();
    let lo = read_le_u16(buf, pos) as u32;
    let hi = buf[pos + 2] as u32;
    lo + hi * 65536
}

/// Reads a little-endian `u64` at `pos`.
pub fn read_le_u64(buf: &[u8], pos: usize) -> (r: u64)
    requires
        pos + 8 <= buf@.len(),
    ensures
        r as int == le_u64_at(buf@, pos as int),
{
    let _n = buf.len();
    let lo = read_le_u32(buf, pos) as u64;
    let hi = read_le_u32(buf, pos + 4) as u64;
    lo + hi * 0x1_0000_0000
}

/// `256^n`: the count of values that `n` bytes hold.
pub open spec fn byte_range(n: nat) -> nat
    decreases n,
{
    if n == 0 {
        1
    } else {
        256 * byte_range((n - 1) as nat)
    }
}

/// The `n` bytes that store `v` little-endian (modulo `256^n`).
pub open spec fn le_bytes(v: nat, n: nat) -> Seq<u8>
    decreases n,
{
    if n == 0 {
        Seq::empty()
    } else {
        seq![(v % 256) as u8] + le_bytes(v / 256, (n - 1) as nat)
    }
}

/// The unsigned integer that the bytes of `s` store little-endian.
pub open spec fn le_value(s: Seq<u8>) -> nat
    decreases s.len(),
{
    if s.len() == 0 {
        0
    } else {
        s[0] as nat + 256 * le_value(s.drop_first())
    }
}

/// Storing a value that fits and reading it back gives the value.
pub proof fn lemma_le_bytes_value(v: nat, n: nat)
    requires
        v < byte_range(n),
    ensures
        le_bytes(v, n).len() == n,
        le_value(le_bytes(v, n)) == v,
    decreases n,
{
    if n > 0 {
        let r = byte_range((n - 1) as nat);
        assert(v / 256 < r) by (nonlinear_arith)
            requires
                v < 256 * r,
        ;
        lemma_le_bytes_value(v / 256, (n - 1) as nat);
        assert(le_bytes(v, n).drop_first() =~= le_bytes(v / 256, (n - 1) as nat));
        assert(v == v % 256 + 256 * (v / 256)) by (nonlinear_arith);
    }
}

/// The value of two concatenated byte strings.
pub proof fn lemma_le_value_append(a: Seq<u8>, b: Seq<u8>)
    ensures
        le_value(a + b) == le_value(a) + byte_range(a.len()) * le_value(b),
    decreases a.len(),
{
    if a.len() == 0 {
        assert(a + b =~= b);
        assert(le_value(a) == 0);
        assert(byte_range(0) == 1);
    } else {
        lemma_le_value_append(a.drop_first(), b);
        assert((a + b).drop_first() =~= a.drop_first() + b);
        let x = le_value(a.drop_first());
        let y = le_value(b);
        let r = byte_range(a.drop_first().len());
        assert(256 * (x + r * y) == 256 * x + (256 * r) * y) by (nonlinear_arith);
        assert((a + b)[0] == a[0]);
        assert(byte_range(a.len()) == 256 * r);
        assert(le_value(a + b) == (a + b)[0] as nat + 256 * le_value((a + b).drop_first()));
        assert(le_value(a) == a[0] as nat + 256 * x);
        assert(le_value(a + b) == le_value(a) + (256 * r) * y);
    }
}

proof fn lemma_le_value_one(s: Seq<u8>)
    requires
        s.len() == 1,
    ensures
        le_value(s) == s[0],
{
    assert(s.drop_first().len() == 0);
    assert(le_value(s.drop_first()) == 0);
}

/// A two-byte field reads as the value that its bytes store.
pub proof fn lemma_le_u16_at(s: Seq<u8>, i: int)
    requires
        0 <= i,
        i + 2 <= s.len(),
    ensures
        le_u16_at(s, i) == le_value(s.subrange(i, i + 2)),
{
    let t = s.subrange(i, i + 2);
    assert(t =~= t.subrange(0, 1) + t.subrange(1, 2));
    lemma_le_value_append(t.subrange(0, 1), t.subrange(1, 2));
    lemma_le_value_one(t.subrange(0, 1));
    lemma_le_value_one(t.subrange(1, 2));
    assert(byte_range(1) == 256) by {
        reveal_with_fuel(byte_range, 2);
    }
}

/// A three-byte field reads as the value that its bytes store.
pub proof fn lemma_le_u24_at(s: Seq<u8>, i: int)
    requires
        0 <= i,
        i + 3 <= s.len(),
    ensures
        le_u24_at(s, i) == le_value(s.subrange(i, i + 3)),
{
    let t = s.subrange(i, i + 3);
    assert(t =~= s.subrange(i, i + 2) + s.subrange(i + 2, i + 3));
    lemma_le_value_append(s.subrange(i, i + 2), s.subrange(i + 2, i + 3));
    lemma_le_u16_at(s, i);
    lemma_le_value_one(s.subrange(i + 2, i + 3));
    assert(byte_range(2) == 65536) by {
        reveal_with_fuel(byte_range, 3);
    }
}

/// A four-byte field reads as the value that its bytes store.
pub proof fn lemma_le_u32_at(s: Seq<u8>, i: int)
    requires
        0 <= i,
        i + 4 <= s.len(),
    ensures
        le_u32_at(s, i) == le_value(s.subrange(i, i + 4)),
{
    let t = s.subrange(i, i + 4);
    assert(t =~= s.subrange(i, i + 2) + s.subrange(i + 2, i + 4));
    lemma_le_value_append(s.subrange(i, i + 2), s.subrange(i + 2, i + 4));
    lemma_le_u16_at(s, i);
    lemma_le_u16_at(s, i + 2);
    assert(byte_range(2) == 65536) by {
        reveal_with_fuel(byte_range, 3);
    }
}

/// An eight-byte field reads as the value that its bytes store.
pub proof fn lemma_le_u64_at(s: Seq<u8>, i: int)
    requires
        0 <= i,
        i + 8 <= s.len(),
    ensures
        le_u64_at(s, i) == le_value(s.subrange(i, i + 8)),
{
    let t = s.subrange(i, i + 8);
    assert(t =~= s.subrange(i, i + 4) + s.subrange(i + 4, i + 8));
    lemma_le_value_append(s.subrange(i, i + 4), s.subrange(i + 4, i + 8));
    lemma_le_u32_at(s, i);
    lemma_le_u32_at(s, i + 4);
    assert(byte_range(4) == 0x1_0000_0000) by {
        reveal_with_fuel(byte_range, 5);
    }
}

} // verus!

//! Byte-level codecs shared by the wire formats: little-endian integers,
//! big-endian truncated sequence numbers, and raw byte runs.

use vstd::prelude::*;

verus! {

/// The two little-endian bytes of `v`.
pub open spec fn le16(v: u16) -> Seq<u8> {
    seq![v as u8, (v >> 8) as u8]
}

/// The four little-endian bytes of `v`.
pub open spec fn le32(v: u32) -> Seq<u8> {
    seq![v as u8, (v >> 8) as u8, (v >> 16) as u8, (v >> 24) as u8]
}

/// The eight little-endian bytes of `v`.
pub open spec fn le64(v: u64) -> Seq<u8> {
    seq![
        v as u8,
        (v >> 8) as u8,
        (v >> 16) as u8,
        (v >> 24) as u8,
        (v >> 32) as u8,
        (v >> 40) as u8,
        (v >> 48) as u8,
        (v >> 56) as u8,
    ]
}

/// The sixteen little-endian bytes of `v`.
pub open spec fn le128(v: u128) -> Seq<u8> {
    le64(v as u64) + le64((v >> 64) as u64)
}

/// `256 ^ n`.
pub open spec fn pow256(n: nat) -> int
    decreases n,
{
    if n == 0 {
        1
    } else {
        256 * pow256((n - 1) as nat)
    }
}

/// The values of `pow256` up to eight, written out for the solver.
pub proof fn lemma_pow256_values()
    ensures
        pow256(0) == 1,
        pow256(1) == 0x100,
        pow256(2) == 0x1_0000,
        pow256(3) == 0x100_0000,
        pow256(4) == 0x1_0000_0000,
        pow256(5) == 0x100_0000_0000,
        pow256(6) == 0x1_0000_0000_0000,
        pow256(7) == 0x100_0000_0000_0000,
        pow256(8) == 0x1_0000_0000_0000_0000,
{
    assert(pow256(0) == 1);
    assert(pow256(1) == 0x100);
    assert(pow256(2) == 0x1_0000);
    assert(pow256(3) == 0x100_0000);
    assert(pow256(4) == 0x1_0000_0000);
    assert(pow256(5) == 0x100_0000_0000);
    assert(pow256(6) == 0x1_0000_0000_0000);
    assert(pow256(7) == 0x100_0000_0000_0000);
    assert(pow256(8) == 0x1_0000_0000_0000_0000);
}

/// Appends the two little-endian bytes of `v`.
pub fn write_u16_le(out: &mut Vec<u8>, v: u16)
    ensures
        final(out)@ == old(out)@ + le16(v),
{
    out.push(v as u8);
    out.push((v >> 8) as u8);
    proof {
        assert(final(out)@ =~= old(out)@ + le16(v));
    }
}

/// Appends the four little-endian bytes of `v`.
pub fn write_u32_le(out: &mut Vec<u8>, v: u32)
    ensures
        final(out)@ == old(out)@ + le32(v),
{
    out.push(v as u8);
    out.push((v >> 8) as u8);
    out.push((v >> 16) as u8);
    out.push((v >> 24) as u8);
    proof {
        assert(final(out)@ =~= old(out)@ + le32(v));
    }
}

/// Appends the eight little-endian bytes of `v`.
pub fn write_u64_le(out: &mut Vec<u8>, v: u64)
    ensures
        final(out)@ == old(out)@ + le64(v),
{
    out.push(v as u8);
    out.push((v >> 8) as u8);
    out.push((v >> 16) as u8);
    out.push((v >> 24) as u8);
    out.push((v >> 32) as u8);
    out.push((v >> 40) as u8);
    out.push((v >> 48) as u8);
    out.push((v >> 56) as u8);
    proof {
        assert(final(out)@ =~= old(out)@ + le64(v));
    }
}

/// Appends the sixteen little-endian bytes of `v`.
pub fn write_u128_le(out: &mut Vec<u8>, v: u128)
    ensures
        final(out)@ == old(out)@ + le128(v),
{
    write_u64_le(out, v as u64);
    write_u64_le(out, (v >> 64) as u64);
    proof {
        assert(final(out)@ =~= old(out)@ + le128(v));
    }
}

proof fn lemma_le16_reconstruct(b0: u8, b1: u8, v: u16)
    by (bit_vector)
    requires
        v == b0 as u16 | (b1 as u16) << 8,
    ensures
        v as u8 == b0,
        (v >> 8) as u8 == b1,
{
}

proof fn lemma_le32_reconstruct(b0: u8, b1: u8, b2: u8, b3: u8, v: u32)
    by (bit_vector)
    requires
        v == b0 as u32 | (b1 as u32) << 8 | (b2 as u32) << 16 | (b3 as u32) << 24,
    ensures
        v as u8 == b0,
        (v >> 8) as u8 == b1,
        (v >> 16) as u8 == b2,
        (v >> 24) as u8 == b3,
{
}

proof fn lemma_le64_reconstruct(
    b0: u8,
    b1: u8,
    b2: u8,
    b3: u8,
    b4: u8,
    b5: u8,
    b6: u8,
    b7: u8,
    v: u64,
)
    by (bit_vector)
    requires
        v == b0 as u64 | (b1 as u64) << 8 | (b2 as u64) << 16 | (b3 as u64) << 24 | (b4 as u64)
            << 32 | (b5 as u64) << 40 | (b6 as u64) << 48 | (b7 as u64) << 56,
    ensures
        v as u8 == b0,
        (v >> 8) as u8 == b1,
        (v >> 16) as u8 == b2,
        (v >> 24) as u8 == b3,
        (v >> 32) as u8 == b4,
        (v >> 40) as u8 == b5,
        (v >> 48) as u8 == b6,
        (v >> 56) as u8 == b7,
{
}

/// Reads the little-endian `u16` whose bytes sit at `pos`.
pub fn read_u16_le(buf: &Vec<u8>, pos: usize) -> (r: u16)
    requires
        pos + 2 <= buf@.len(),
    ensures
        le16(r) == buf@.subrange(pos as int, pos + 2),
{
    let blen: usize = buf.len();
    let b0 = buf[pos];
    let b1 = buf[pos + 1];
    let r = b0 as u16 | (b1 as u16) << 8;
    proof {
        lemma_le16_reconstruct(b0, b1, r);
        assert(le16(r) =~= buf@.subrange(pos as int, pos + 2));
    }
    r
}

/// Reads the little-endian `u32` whose bytes sit at `pos`.
pub fn read_u32_le(buf: &Vec<u8>, pos: usize) -> (r: u32)
    requires
        pos + 4 <= buf@.len(),
    ensures
        le32(r) == buf@.subrange(pos as int, pos + 4),
{
    let blen: usize = buf.len();
    let b0 = buf[pos];
    let b1 = buf[pos + 1];
    let b2 = buf[pos + 2];
    let b3 = buf[pos + 3];
    let r = b0 as u32 | (b1 as u32) << 8 | (b2 as u32) << 16 | (b3 as u32) << 24;
    proof {
        lemma_le32_reconstruct(b0, b1, b2, b3, r);
        assert(le32(r) =~= buf@.subrange(pos as int, pos + 4));
    }
    r
}

/// Reads the little-endian `u64` whose bytes sit at `pos`.
pub fn read_u64_le(buf: &Vec<u8>, pos: usize) -> (r: u64)
    requires
        pos + 8 <= buf@.len(),
    ensures
        le64(r) == buf@.subrange(pos as int, pos + 8),
{
    let blen: usize = buf.len();
    let b0 = buf[pos];
    let b1 = buf[pos + 1];
    let b2 = buf[pos + 2];
    let b3 = buf[pos + 3];
    let b4 = buf[pos + 4];
    let b5 = buf[pos + 5];
    let b6 = buf[pos + 6];
    let b7 = buf[pos + 7];
    let r = b0 as u64 | (b1 as u64) << 8 | (b2 as u64) << 16 | (b3 as u64) << 24 | (b4 as u64)
        << 32 | (b5 as u64) << 40 | (b6 as u64) << 48 | (b7 as u64) << 56;
    proof {
        lemma_le64_reconstruct(b0, b1, b2, b3, b4, b5, b6, b7, r);
        assert(le64(r) =~= buf@.subrange(pos as int, pos + 8));
    }
    r
}

/// Reads the little-endian `u128` whose bytes sit at `pos`.
pub fn read_u128_le(buf: &Vec<u8>, pos: usize) -> (r: u128)
    requires
        pos + 16 <= buf@.len(),
    ensures
        le128(r) == buf@.subrange(pos as int, pos + 16),
{
    let blen: usize = buf.len();
    let lo = read_u64_le(buf, pos);
    let hi = read_u64_le(buf, pos + 8);
    let r = lo as u128 | (hi as u128) << 64;
    proof {
        assert(r as u64 == lo && (r >> 64) as u64 == hi) by (bit_vector)
            requires
                r == lo as u128 | (hi as u128) << 64,
        ;
        assert(le128(r) =~= buf@.subrange(pos as int, pos + 16));
    }
    r
}

/// `le16` distinguishes distinct values, so a two-byte run decodes uniquely.
pub proof fn lemma_le16_injective(a: u16, b: u16)
    ensures
        le16(a) == le16(b) ==> a == b,
{
    if le16(a) == le16(b) {
        assert(le16(a)[0] == le16(b)[0] && le16(a)[1] == le16(b)[1]);
        assert(a as u8 == b as u8 && (a >> 8) as u8 == (b >> 8) as u8 ==> a == b) by (bit_vector);
    }
}

/// `le32` distinguishes distinct values, so a four-byte run decodes uniquely.
pub proof fn lemma_le32_injective(a: u32, b: u32)
    ensures
        le32(a) == le32(b) ==> a == b,
{
    if le32(a) == le32(b) {
        assert(le32(a)[0] == le32(b)[0] && le32(a)[1] == le32(b)[1] && le32(a)[2] == le32(b)[2]
            && le32(a)[3] == le32(b)[3]);
        assert(a as u8 == b as u8 && (a >> 8) as u8 == (b >> 8) as u8 && (a >> 16) as u8 == (b
            >> 16) as u8 && (a >> 24) as u8 == (b >> 24) as u8 ==> a == b) by (bit_vector);
    }
}

/// `le64` distinguishes distinct values, so an eight-byte run decodes uniquely.
pub proof fn lemma_le64_injective(a: u64, b: u64)
    ensures
        le64(a) == le64(b) ==> a == b,
{
    if le64(a) == le64(b) {
        assert(forall|i: int| 0 <= i < 8 ==> le64(a)[i] == le64(b)[i]);
        assert(le64(a)[0] == a as u8 && le64(b)[0] == b as u8);
        assert(a as u8 == b as u8 && (a >> 8) as u8 == (b >> 8) as u8 && (a >> 16) as u8 == (b
            >> 16) as u8 && (a >> 24) as u8 == (b >> 24) as u8 && (a >> 32) as u8 == (b >> 32) as u8
            && (a >> 40) as u8 == (b >> 40) as u8 && (a >> 48) as u8 == (b >> 48) as u8 && (a
            >> 56) as u8 == (b >> 56) as u8 ==> a == b) by (bit_vector);
    }
}

/// The `n` big-endian bytes of the low `8 * n` bits of `v`, most significant
/// first.
pub open spec fn be_bytes(v: u64, n: nat) -> Seq<u8>
    decreases n,
{
    if n == 0 {
        Seq::empty()
    } else {
        be_bytes(v >> 8, (n - 1) as nat) + seq![v as u8]
    }
}

/// `be_bytes` produces exactly `n` bytes.
pub proof fn lemma_be_bytes_len(v: u64, n: nat)
    ensures
        be_bytes(v, n).len() == n,
    decreases n,
{
    if n > 0 {
        lemma_be_bytes_len(v >> 8, (n - 1) as nat);
    }
}

/// How many bytes the truncated big-endian encoding of `v` takes: the least
/// count that still holds every set bit, and at least one.
pub open spec fn spec_sequence_len(v: u64) -> nat
    decreases v,
{
    if v < 256 {
        1
    } else {
        1 + spec_sequence_len(v / 256)
    }
}

proof fn lemma_sequence_len_le(v: u64, k: nat)
    requires
        1 <= k,
        v < pow256(k),
    ensures
        spec_sequence_len(v) <= k,
    decreases k,
{
    if v >= 256 {
        assert(k >= 2) by {
            if k == 1 {
                lemma_pow256_values();
            }
        }
        assert(v / 256 < pow256((k - 1) as nat));
        lemma_sequence_len_le(v / 256, (k - 1) as nat);
    }
}

/// `spec_sequence_len` never exceeds eight.
pub proof fn lemma_sequence_len_bounds(v: u64)
    ensures
        1 <= spec_sequence_len(v) <= 8,
{
    lemma_pow256_values();
    lemma_sequence_len_le(v, 8);
}

/// A value fits in the bytes its truncated encoding takes.
pub proof fn lemma_sequence_len_minimal(v: u64)
    ensures
        v < pow256(spec_sequence_len(v)),
    decreases v,
{
    if v < 256 {
        lemma_pow256_values();
    } else {
        lemma_sequence_len_minimal(v / 256);
    }
}

/// Number of bytes the truncated big-endian encoding of `v` takes.
pub fn sequence_bytes_required(v: u64) -> (r: usize)
    ensures
        r == spec_sequence_len(v),
        1 <= r <= 8,
{
    proof {
        lemma_sequence_len_bounds(v);
    }
    let mut rest: u64 = v;
    let mut n: usize = 1;
    while rest >= 256
        invariant
            1 <= n,
            spec_sequence_len(v) == n - 1 + spec_sequence_len(rest),
            spec_sequence_len(v) <= 8,
        decreases rest,
    {
        proof {
            lemma_sequence_len_bounds(rest / 256);
        }
        rest = rest / 256;
        n = n + 1;
    }
    n
}

/// Appends the `n` big-endian bytes of `v`, most significant first.
pub fn write_sequence_be(out: &mut Vec<u8>, v: u64, n: usize)
    requires
        1 <= n <= 8,
    ensures
        final(out)@ == old(out)@ + be_bytes(v, n as nat),
    decreases n,
{
    let ghost pre = out@;
    if n > 1 {
        write_sequence_be(out, v >> 8, n - 1);
    }
    out.push(v as u8);
    proof {
        lemma_be_bytes_len(v >> 8, (n - 1) as nat);
        assert(out@ =~= pre + be_bytes(v, n as nat));
    }
}

/// Reads `n` big-endian bytes at `pos` as a sequence number.
pub fn read_sequence_be(buf: &Vec<u8>, pos: usize, n: usize) -> (r: u64)
    requires
        1 <= n <= 8,
        pos + n <= buf@.len(),
    ensures
        be_bytes(r, n as nat) == buf@.subrange(pos as int, pos + n),
        r < pow256(n as nat),
    decreases n,
{
    let blen: usize = buf.len();
    if n == 1 {
        let b0 = buf[pos];
        let r = b0 as u64;
        proof {
            lemma_pow256_values();
            assert(r >> 8 == 0 && r as u8 == b0) by (bit_vector)
                requires
                    r == b0 as u64,
            ;
            assert(be_bytes(r >> 8, 0) =~= Seq::<u8>::empty());
            assert(be_bytes(r, 1) =~= buf@.subrange(pos as int, pos + 1));
        }
        r
    } else {
        let hi = read_sequence_be(buf, pos, n - 1);
        let b = buf[pos + n - 1];
        proof {
            lemma_pow256_values();
            assert(pow256((n - 1) as nat) <= pow256(7));
        }
        let r = hi * 256 + (b as u64);
        proof {
            assert(r >> 8 == hi && r as u8 == b) by (bit_vector)
                requires
                    hi <= 0xff_ffff_ffff_ffff,
                    b < 256,
                    r == hi * 256 + b as u64,
            ;
            lemma_be_bytes_len(hi, (n - 1) as nat);
            assert(be_bytes(r, n as nat) =~= be_bytes(hi, (n - 1) as nat) + seq![b]);
            assert(be_bytes(r, n as nat) =~= buf@.subrange(pos as int, pos + n));
            assert(r < 256 * pow256((n - 1) as nat));
        }
        r
    }
}

/// Two values below the range limit with the same truncated big-endian bytes
/// are equal.
pub proof fn lemma_be_bytes_injective(a: u64, b: u64, n: nat)
    requires
        1 <= n <= 8,
        a < pow256(n),
        b < pow256(n),
        be_bytes(a, n) == be_bytes(b, n),
    ensures
        a == b,
    decreases n,
{
    lemma_pow256_values();
    lemma_be_bytes_len(a >> 8, (n - 1) as nat);
    lemma_be_bytes_len(b >> 8, (n - 1) as nat);
    assert(be_bytes(a, n)[n - 1] == a as u8);
    assert(be_bytes(b, n)[n - 1] == b as u8);
    if n == 1 {
        assert(a as u8 == b as u8 && a < 256 && b < 256 ==> a == b) by (bit_vector);
    } else {
        let a8 = a >> 8;
        let b8 = b >> 8;
        assert(a8 == a / 256 && b8 == b / 256) by (bit_vector)
            requires
                a8 == a >> 8,
                b8 == b >> 8,
        ;
        assert(a8 < pow256((n - 1) as nat));
        assert(b8 < pow256((n - 1) as nat));
        assert(be_bytes(a8, (n - 1) as nat) =~= be_bytes(a, n).subrange(0, n - 1));
        assert(be_bytes(b8, (n - 1) as nat) =~= be_bytes(b, n).subrange(0, n - 1));
        lemma_be_bytes_injective(a8, b8, (n - 1) as nat);
        assert(a8 == b8 && a as u8 == b as u8 ==> a == b) by (bit_vector)
            requires
                a8 == a >> 8,
                b8 == b >> 8,
        ;
    }
}

/// `n` zero bytes.
pub open spec fn zeros(n: nat) -> Seq<u8> {
    Seq::new(n, |i: int| 0u8)
}

/// Casting a `u32` through `i32` and back is the identity.
pub proof fn lemma_u32_i32_roundtrip(x: u32)
    by (bit_vector)
    ensures
        ((x as i32) as u32) == x,
{
}

/// Appends `buf[pos .. pos + n]`.
pub fn write_bytes(out: &mut Vec<u8>, buf: &Vec<u8>, pos: usize, n: usize)
    requires
        pos + n <= buf@.len(),
    ensures
        final(out)@ == old(out)@ + buf@.subrange(pos as int, pos + n),
{
    let blen: usize = buf.len();
    let mut i: usize = 0;
    while i < n
        invariant
            i <= n,
            pos + n <= blen == buf@.len(),
            out@ =~= old(out)@ + buf@.subrange(pos as int, pos + i),
        decreases n - i,
    {
        out.push(buf[pos + i]);
        proof {
            assert(out@ =~= old(out)@ + buf@.subrange(pos as int, pos + i + 1));
        }
        i = i + 1;
    }
    proof {
        assert(final(out)@ =~= old(out)@ + buf@.subrange(pos as int, pos + n));
    }
}

/// Copies `buf[pos .. pos + n]` into a fresh vector.
pub fn read_bytes(buf: &Vec<u8>, pos: usize, n: usize) -> (r: Vec<u8>)
    requires
        pos + n <= buf@.len(),
    ensures
        r@ == buf@.subrange(pos as int, pos + n),
{
    let mut r: Vec<u8> = Vec::new();
    write_bytes(&mut r, buf, pos, n);
    proof {
        assert(r@ =~= buf@.subrange(pos as int, pos + n));
    }
    r
}

/// Whether two byte vectors hold the same bytes.
pub fn bytes_equal(a: &Vec<u8>, b: &Vec<u8>) -> (r: bool)
    ensures
        r == (a@ == b@),
{
    let n: usize = a.len();
    if n != b.len() {
        proof {
            assert(a@.len() != b@.len());
        }
        return false;
    }
    let mut i: usize = 0;
    while i < n
        invariant
            i <= n,
            n == a@.len() == b@.len(),
            forall|j: int| 0 <= j < i ==> a@[j] == b@[j],
        decreases n - i,
    {
        if a[i] != b[i] {
            return false;
        }
        i = i + 1;
    }
    proof {
        assert(a@ =~= b@);
    }
    true
}

/// Appends `n` zero bytes.
pub fn write_zeros(out: &mut Vec<u8>, n: usize)
    ensures
        final(out)@ == old(out)@ + Seq::new(n as nat, |i: int| 0u8),
{
    let mut i: usize = 0;
    while i < n
        invariant
            i <= n,
            out@ =~= old(out)@ + Seq::new(i as nat, |j: int| 0u8),
        decreases n - i,
    {
        out.push(0);
        proof {
            assert(out@ =~= old(out)@ + Seq::new((i + 1) as nat, |j: int| 0u8));
        }
        i = i + 1;
    }
    proof {
        assert(final(out)@ =~= old(out)@ + Seq::new(n as nat, |i: int| 0u8));
    }
}

} // verus!

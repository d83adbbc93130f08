//! Integers as byte sequences, in both byte orders.
use vstd::prelude::*;

verus! {

/// The `n` low-order bytes of `x`, least significant byte first.
pub open spec fn le_bytes(x: nat, n: nat) -> Seq<u8>
    decreases n,
{
    if n == 0 {
        Seq::empty()
    } else {
        seq![(x % 256) as u8] + le_bytes(x / 256, (n - 1) as nat)
    }
}

/// The number that `s` spells with its least significant byte first.
pub open spec fn le_value(s: Seq<u8>) -> nat
    decreases s.len(),
{
    if s.len() == 0 {
        0
    } else {
        s[0] as nat + 256 * le_value(s.drop_first())
    }
}

/// The number that `s` spells with its most significant byte first.
pub open spec fn be_value(s: Seq<u8>) -> nat
    decreases s.len(),
{
    if s.len() == 0 {
        0
    } else {
        256 * be_value(s.drop_last()) + s.last() as nat
    }
}

/// The `n` low-order bytes of `x`, most significant byte first.
pub open spec fn be_bytes(x: nat, n: nat) -> Seq<u8>
    decreases n,
{
    if n == 0 {
        Seq::empty()
    } else {
        be_bytes(x / 256, (n - 1) as nat).push((x % 256) as u8)
    }
}

/// `256` to the power `n`: how many numbers `n` bytes can spell.
pub open spec fn byte_range(n: nat) -> nat
    decreases n,
{
    if n == 0 {
        1
    } else {
        256 * byte_range((n - 1) as nat)
    }
}

pub proof fn lemma_le_bytes_len(x: nat, n: nat)
    ensures
        le_bytes(x, n).len() == n,
    decreases n,
{
    if n > 0 {
        lemma_le_bytes_len(x / 256, (n - 1) as nat);
    }
}

/// A number that fits in `n` bytes is read back from its little-endian bytes.
pub proof fn lemma_le_roundtrip(x: nat, n: nat)
    requires
        x < byte_range(n),
    ensures
        le_bytes(x, n).len() == n,
        le_value(le_bytes(x, n)) == x,
    decreases n,
{
    if n > 0 {
        let rest = le_bytes(x / 256, (n - 1) as nat);
        lemma_le_roundtrip(x / 256, (n - 1) as nat);
        assert(le_bytes(x, n).drop_first() =~= rest);
    }
}

/// A number that fits in `n` bytes is read back from its big-endian bytes.
pub proof fn lemma_be_roundtrip(x: nat, n: nat)
    requires
        x < byte_range(n),
    ensures
        be_bytes(x, n).len() == n,
        be_value(be_bytes(x, n)) == x,
    decreases n,
{
    if n > 0 {
        lemma_be_roundtrip(x / 256, (n - 1) as nat);
        assert(be_bytes(x, n).drop_last() =~= be_bytes(x / 256, (n - 1) as nat));
    }
}

/// What `n` bytes spell in big-endian order is less than `256` to the power `n`.
pub proof fn lemma_be_value_range(s: Seq<u8>)
    ensures
        be_value(s) < byte_range(s.len()),
    decreases s.len(),
{
    if s.len() > 0 {
        lemma_be_value_range(s.drop_last());
    }
}

/// The number that two byte strings spell side by side, in big-endian order.
pub proof fn lemma_be_value_concat(a: Seq<u8>, b: Seq<u8>)
    ensures
        be_value(a + b) == be_value(a) * byte_range(b.len()) + be_value(b),
    decreases b.len(),
{
    if b.len() == 0 {
        assert(a + b =~= a);
        assert(be_value(a) * 1 == be_value(a)) by (nonlinear_arith);
    } else {
        assert((a + b).drop_last() =~= a + b.drop_last());
        lemma_be_value_concat(a, b.drop_last());
        let high = be_value(a);
        let width = byte_range((b.len() - 1) as nat);
        assert(256 * (high * width) == high * (256 * width)) by (nonlinear_arith);
    }
}

/// How many numbers two, four and eight bytes can spell.
pub proof fn lemma_byte_ranges()
    ensures
        byte_range(2) == 0x1_0000,
        byte_range(4) == 0x1_0000_0000,
        byte_range(8) == 0x1_0000_0000_0000_0000,
{
    reveal_with_fuel(byte_range, 9);
}

/// Appends the `n` low-order bytes of `x`, least significant byte first.
pub fn push_le(out: &mut Vec<u8>, x: u64, n: usize)
    ensures
        final(out)@ == old(out)@ + le_bytes(x as nat, n as nat),
{
    let mut rest: u64 = x;
    let mut left: usize = n;
    while left > 0
        invariant
            out@ + le_bytes(rest as nat, left as nat) == old(out)@ + le_bytes(x as nat, n as nat),
        decreases left,
    {
        let ghost before = out@;
        out.push((rest % 256) as u8);
        proof {
            let tail = le_bytes((rest / 256) as nat, (left - 1) as nat);
            assert(before + le_bytes(rest as nat, left as nat) =~= out@ + tail);
        }
        rest = rest / 256;
        left = left - 1;
    }
    assert(out@ + le_bytes(rest as nat, 0) =~= out@);
}

/// The four bytes of `x`, most significant byte first.
pub fn u32_to_be(x: u32) -> (r: [u8; 4])
    ensures
        r@ == be_bytes(x as nat, 4),
{
    let r: [u8; 4] = [
        (x / 0x100_0000) as u8,
        (x / 0x1_0000 % 256) as u8,
        (x / 0x100 % 256) as u8,
        (x % 256) as u8,
    ];
    proof {
        reveal_with_fuel(be_bytes, 5);
        assert(r@ =~= be_bytes(x as nat, 4));
    }
    r
}

/// The little-endian number in the two bytes of `data` that start at `at`.
pub fn read_u16_le(data: &[u8], at: usize) -> (r: u16)
    requires
        at + 2 <= data@.len(),
    ensures
        r as nat == le_value(data@.subrange(at as int, at + 2)),
{
    let low: u16 = data[at] as u16;
    let high: u16 = data[at + 1] as u16;
    proof {
        reveal_with_fuel(le_value, 3);
    }
    low + 256 * high
}

/// The little-endian number in the four bytes of `data` that start at `at`.
pub fn read_u32_le(data: &[u8], at: usize) -> (r: u32)
    requires
        at + 4 <= data@.len(),
    ensures
        r as nat == le_value(data@.subrange(at as int, at + 4)),
{
    let b0: u32 = data[at] as u32;
    let b1: u32 = data[at + 1] as u32;
    let b2: u32 = data[at + 2] as u32;
    let b3: u32 = data[at + 3] as u32;
    proof {
        reveal_with_fuel(le_value, 5);
        let s = data@.subrange(at as int, at + 4);
        assert(s.drop_first().drop_first()[0] == b2);
        assert(s.drop_first().drop_first().drop_first()[0] == b3);
    }
    b0 + 256 * (b1 + 256 * (b2 + 256 * b3))
}

/// A copy of the `N` bytes of `data` that start at `at`.
pub fn read_array<const N: usize>(data: &[u8], at: usize) -> (r: [u8; N])
    requires
        at + N <= data@.len(),
    ensures
        r@ == data@.subrange(at as int, at + N),
{
    let len: usize = data.len();
    let mut r: [u8; N] = [0u8; N];
    let mut i: usize = 0;
    while i < N
        invariant
            i <= N,
            len == data@.len(),
            at + N <= len,
            r@.len() == N,
            forall|j: int| 0 <= j < i ==> r@[j] == data@[at + j],
        decreases N - i,
    {
        r[i] = data[at + i];
        i += 1;
    }
    assert(r@ =~= data@.subrange(at as int, at + N));
    r
}

/// Whether two byte strings are the same.
pub fn bytes_equal(a: &[u8], b: &[u8]) -> (r: bool)
    ensures
        r == (a@ == b@),
{
    if a.len() != b.len() {
        return false;
    }
    let mut i: usize = 0;
    while i < a.len()
        invariant
            i <= a@.len(),
            a@.len() == b@.len(),
            a@.take(i as int) == b@.take(i as int),
        decreases a@.len() - i,
    {
        if a[i] != b[i] {
            assert(a@[i as int] != b@[i as int]);
            return false;
        }
        assert(a@.take(i + 1) =~= a@.take(i as int).push(a@[i as int]));
        assert(b@.take(i + 1) =~= b@.take(i as int).push(b@[i as int]));
        i += 1;
    }
    assert(a@.take(i as int) =~= a@);
    assert(b@.take(i as int) =~= b@);
    true
}

// ---------- Laws ----------
/// In little-endian order a byte in front counts once and everything behind it 256 times; no bytes
/// spell zero.
pub proof fn law_le_value_places(b: u8, s: Seq<u8>)
    ensures
        le_value(Seq::empty()) == 0,
        le_value(seq![b] + s) == b + 256 * le_value(s),
{
    assert((seq![b] + s).drop_first() =~= s);
}

/// In big-endian order a byte behind counts once and everything in front of it 256 times; no bytes
/// spell zero.
pub proof fn law_be_value_places(s: Seq<u8>, b: u8)
    ensures
        be_value(Seq::empty()) == 0,
        be_value(s.push(b)) == 256 * be_value(s) + b,
{
    assert(s.push(b).drop_last() =~= s);
}

/// What two, four and eight bytes spell in little-endian order.
pub proof fn law_le_value_fields(s: Seq<u8>)
    ensures
        s.len() == 2 ==> le_value(s) == s[0] + 256 * s[1],
        s.len() == 4 ==> le_value(s) == s[0] + 256 * s[1] + 65536 * s[2] + 16777216 * s[3],
        s.len() == 8 ==> le_value(s) == s[0] + 256 * s[1] + 65536 * s[2] + 16777216 * s[3]
            + 4294967296 * s[4] + 1099511627776 * s[5] + 281474976710656 * s[6]
            + 72057594037927936 * s[7],
{
    reveal_with_fuel(le_value, 9);
    if s.len() >= 2 {
        assert(s.drop_first()[0] == s[1]);
    }
    if s.len() >= 4 {
        assert(s.drop_first().drop_first()[0] == s[2]);
        assert(s.drop_first().drop_first().drop_first()[0] == s[3]);
    }
    if s.len() == 8 {
        let four = s.drop_first().drop_first().drop_first().drop_first();
        assert(four[0] == s[4]);
        assert(four.drop_first()[0] == s[5]);
        assert(four.drop_first().drop_first()[0] == s[6]);
        assert(four.drop_first().drop_first().drop_first()[0] == s[7]);
    }
}

/// What four bytes spell in big-endian order.
pub proof fn law_be_value_field(s: Seq<u8>)
    requires
        s.len() == 4,
    ensures
        be_value(s) == 16777216 * s[0] + 65536 * s[1] + 256 * s[2] + s[3],
{
    reveal_with_fuel(be_value, 5);
    assert(s.drop_last().last() == s[2]);
    assert(s.drop_last().drop_last().last() == s[1]);
    assert(s.drop_last().drop_last().drop_last().last() == s[0]);
}

/// Byte by byte, what a number is written as in little-endian order: each byte is the rest modulo
/// 256, whether or not the number fits.
pub proof fn law_le_bytes_places(x: nat, n: nat, i: int)
    requires
        0 <= i < n,
    ensures
        le_bytes(x, n).len() == n,
        le_bytes(x, n)[0] == x % 256,
        i > 0 ==> le_bytes(x, n)[i] == le_bytes(x / 256, (n - 1) as nat)[i - 1],
{
    lemma_le_bytes_len(x, n);
}

/// How many numbers `n` bytes can spell: one where there are none, and 256 times as many with each
/// byte more.
pub proof fn law_byte_range(n: nat)
    ensures
        byte_range(0) == 1,
        byte_range(n + 1) == 256 * byte_range(n),
{
}

/// Byte by byte, what a number is written as in big-endian order.
pub proof fn law_be_bytes_places(x: nat, n: nat)
    requires
        n > 0,
    ensures
        be_bytes(x, n).last() == x % 256,
        be_bytes(x, n).drop_last() == be_bytes(x / 256, (n - 1) as nat),
{
    assert(be_bytes(x, n).drop_last() =~= be_bytes(x / 256, (n - 1) as nat));
}

} // verus!

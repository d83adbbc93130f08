//! The checksum of Ogg pages: a remainder in polynomial division over the two-element field.
//!
//! A bit string stands for the polynomial whose coefficients it lists, highest power first.
use vstd::prelude::*;

verus! {

/// The generator polynomial of Ogg, less its leading `x^32`, as a word.
pub const OGG_CRC_GENERATOR: u32 = 0x04C1_1DB7;

/// The bits of a word, most significant first.
pub open spec fn word_bits(w: u32) -> Seq<bool> {
    Seq::new(32, |i: int| (w >> ((31 - i) as u32)) & 1u32 == 1u32)
}

/// The bits of a byte, most significant first.
pub open spec fn byte_bits(b: u8) -> Seq<bool> {
    Seq::new(8, |i: int| (b >> ((7 - i) as u8)) & 1u8 == 1u8)
}

/// The bits of a byte string, byte by byte.
pub open spec fn message_bits(data: Seq<u8>) -> Seq<bool>
    decreases data.len(),
{
    if data.len() == 0 {
        Seq::empty()
    } else {
        byte_bits(data[0]) + message_bits(data.drop_first())
    }
}

/// The number that a bit string spells, most significant bit first.
pub open spec fn bits_value(bits: Seq<bool>) -> nat
    decreases bits.len(),
{
    if bits.len() == 0 {
        0
    } else {
        2 * bits_value(bits.drop_last()) + if bits.last() {
            1nat
        } else {
            0nat
        }
    }
}

pub open spec fn zero_bits(n: nat) -> Seq<bool> {
    Seq::new(n, |i: int| false)
}

/// `p` with `g` added to its leading coefficients.
pub open spec fn add_at_head(p: Seq<bool>, g: Seq<bool>) -> Seq<bool> {
    Seq::new(
        p.len(),
        |i: int|
            if i < g.len() {
                p[i] != g[i]
            } else {
                p[i]
            },
    )
}

/// What long division of `p` by the generator leaves: while the degree is 32 or more, a leading
/// one is cancelled by subtracting the generator from under it.
pub open spec fn remainder(p: Seq<bool>) -> Seq<bool>
    decreases p.len(),
{
    if p.len() <= 32 {
        p
    } else if p[0] {
        remainder(add_at_head(p.drop_first(), word_bits(OGG_CRC_GENERATOR)))
    } else {
        remainder(p.drop_first())
    }
}

/// The checksum of `data`: the remainder of its polynomial times `x^32`.
pub open spec fn crc32(data: Seq<u8>) -> nat {
    bits_value(remainder(message_bits(data) + zero_bits(32)))
}

proof fn lemma_word_bits_value_prefix(w: u32, n: nat)
    requires
        1 <= n <= 32,
    ensures
        bits_value(word_bits(w).take(n as int)) == (w >> ((32 - n) as u32)) as nat,
    decreases n,
{
    let bits = word_bits(w).take(n as int);
    let s = (32 - n) as u32;
    if n == 1 {
        assert(bits.drop_last() =~= Seq::<bool>::empty());
        assert(bits.last() == ((w >> 31u32) & 1u32 == 1u32));
        assert((w >> 31u32) == if (w >> 31u32) & 1u32 == 1u32 { 1u32 } else { 0u32 }) by (bit_vector);
        assert(bits_value(bits.drop_last()) == 0);
    } else {
        lemma_word_bits_value_prefix(w, (n - 1) as nat);
        assert(bits.drop_last() =~= word_bits(w).take(n - 1));
        assert(bits.last() == ((w >> s) & 1u32 == 1u32));
        let t = (s + 1) as u32;
        assert((w >> s) == 2 * (w >> t) + (if (w >> s) & 1u32 == 1u32 { 1u32 } else { 0u32 }))
            by (bit_vector)
            requires
                s < 31,
                t == s + 1,
        ;
    }
}

/// A word is the number that its bits spell.
pub proof fn lemma_word_bits_value(w: u32)
    ensures
        word_bits(w).len() == 32,
        bits_value(word_bits(w)) == w,
{
    lemma_word_bits_value_prefix(w, 32);
    assert(word_bits(w).take(32) =~= word_bits(w));
    assert(w >> 0u32 == w) by (bit_vector);
}

proof fn lemma_bits_value_range(bits: Seq<bool>, n: nat)
    requires
        bits.len() <= n,
    ensures
        bits_value(bits) < vstd::arithmetic::power2::pow2(n),
    decreases n,
{
    if n == 0 {
        vstd::arithmetic::power2::lemma2_to64();
    } else {
        vstd::arithmetic::power2::lemma_pow2_unfold(n);
        if bits.len() > 0 {
            lemma_bits_value_range(bits.drop_last(), (n - 1) as nat);
        } else {
            vstd::arithmetic::power2::lemma_pow2_pos(n);
        }
    }
}

proof fn lemma_remainder_len(p: Seq<bool>)
    ensures
        remainder(p).len() <= 32,
    decreases p.len(),
{
    if p.len() > 32 {
        if p[0] {
            lemma_remainder_len(add_at_head(p.drop_first(), word_bits(OGG_CRC_GENERATOR)));
        } else {
            lemma_remainder_len(p.drop_first());
        }
    }
}

/// A checksum fits in four bytes.
pub proof fn lemma_crc32_range(data: Seq<u8>)
    ensures
        crc32(data) < 0x1_0000_0000,
{
    let p = message_bits(data) + zero_bits(32);
    lemma_remainder_len(p);
    lemma_bits_value_range(remainder(p), 32);
    vstd::arithmetic::power2::lemma2_to64();
}

/// Adding a byte to the top of the register is adding its bits to the head of the dividend.
proof fn lemma_absorb_byte(register: u32, b: u8, rest: Seq<bool>)
    requires
        rest.len() >= 32,
    ensures
        add_at_head(byte_bits(b) + rest, word_bits(register)) == add_at_head(
            zero_bits(8) + rest,
            word_bits(register ^ ((b as u32) << 24u32)),
        ),
{
    let absorbed = register ^ ((b as u32) << 24u32);
    let lhs = add_at_head(byte_bits(b) + rest, word_bits(register));
    let rhs = add_at_head(zero_bits(8) + rest, word_bits(absorbed));
    assert forall|i: int| 0 <= i < lhs.len() implies lhs[i] == rhs[i] by {
        if i < 8 {
            let s = (31 - i) as u32;
            let t = (7 - i) as u8;
            assert(((register ^ ((b as u32) << 24u32)) >> s) & 1u32 == ((register >> s) & 1u32) ^ (((
            b >> t) & 1u8) as u32)) by (bit_vector)
                requires
                    24 <= s <= 31,
                    t == s - 24,
            ;
            assert((register >> s) & 1u32 == 0u32 || (register >> s) & 1u32 == 1u32) by (bit_vector);
            assert((b >> t) & 1u8 == 0u8 || (b >> t) & 1u8 == 1u8) by (bit_vector);
            assert(0u32 ^ 0u32 == 0u32 && 0u32 ^ 1u32 == 1u32 && 1u32 ^ 0u32 == 1u32 && 1u32 ^ 1u32
                == 0u32) by (bit_vector);
        } else if i < 32 {
            let s = (31 - i) as u32;
            assert(((register ^ ((b as u32) << 24u32)) >> s) & 1u32 == (register >> s) & 1u32)
                by (bit_vector)
                requires
                    s < 24,
            ;
        }
    }
    assert(lhs =~= rhs);
}

/// One step of the register is one step of the division.
proof fn lemma_shift(register: u32, rest: Seq<bool>)
    requires
        rest.len() >= 32,
    ensures
        remainder(add_at_head(seq![false] + rest, word_bits(register))) == remainder(
            add_at_head(
                rest,
                word_bits(
                    if register & 0x8000_0000u32 != 0 {
                        (register << 1u32) ^ OGG_CRC_GENERATOR
                    } else {
                        register << 1u32
                    },
                ),
            ),
        ),
{
    let dividend = add_at_head(seq![false] + rest, word_bits(register));
    assert(dividend[0] == ((register >> 31u32) & 1u32 == 1u32));
    assert(((register >> 31u32) & 1u32 == 1u32) == (register & 0x8000_0000u32 != 0))
        by (bit_vector);
    let shifted = register << 1u32;
    let tail = dividend.drop_first();
    assert(tail =~= add_at_head(rest, word_bits(shifted))) by {
        assert forall|i: int| 0 <= i < tail.len() implies tail[i] == add_at_head(
            rest,
            word_bits(shifted),
        )[i] by {
            if i < 31 {
                let s = (31 - i) as u32;
                let t = (30 - i) as u32;
                assert(((register << 1u32) >> s) & 1u32 == (register >> t) & 1u32) by (bit_vector)
                    requires
                        1 <= s <= 31,
                        t == s - 1,
                ;
            } else if i == 31 {
                assert(((register << 1u32) >> 0u32) & 1u32 == 0u32) by (bit_vector);
            }
        }
    }
    if dividend[0] {
        let g = OGG_CRC_GENERATOR;
        let next = shifted ^ g;
        let lhs = add_at_head(tail, word_bits(g));
        let rhs = add_at_head(rest, word_bits(next));
        assert forall|i: int| 0 <= i < lhs.len() implies lhs[i] == rhs[i] by {
            if i < 32 {
                let s = (31 - i) as u32;
                assert(((shifted ^ g) >> s) & 1u32 == ((shifted >> s) & 1u32) ^ ((g >> s) & 1u32))
                    by (bit_vector);
                assert((shifted >> s) & 1u32 == 0u32 || (shifted >> s) & 1u32 == 1u32)
                    by (bit_vector);
                assert((g >> s) & 1u32 == 0u32 || (g >> s) & 1u32 == 1u32) by (bit_vector);
                assert(0u32 ^ 0u32 == 0u32 && 0u32 ^ 1u32 == 1u32 && 1u32 ^ 0u32 == 1u32 && 1u32
                    ^ 1u32 == 0u32) by (bit_vector);
            }
        }
        assert(lhs =~= rhs);
    }
}

/// The Ogg checksum of `data`: no initial value, no final inversion, most significant bit first.
pub fn ogg_crc32(data: &[u8]) -> (r: u32)
    ensures
        r as nat == crc32(data@),
{
    let mut crc: u32 = 0;
    let mut i: usize = 0;
    let ghost pad = zero_bits(32);
    proof {
        assert(data@.skip(0) =~= data@);
        let whole = message_bits(data@) + pad;
        assert forall|k: int| 0 <= k < 32 implies !word_bits(0)[k] by {
            let s = (31 - k) as u32;
            assert((0u32 >> s) & 1u32 == 0u32) by (bit_vector);
        }
        assert(add_at_head(whole, word_bits(0)) =~= whole);
    }
    while i < data.len()
        invariant
            i <= data@.len(),
            pad == zero_bits(32),
            remainder(message_bits(data@) + pad) == remainder(
                add_at_head(message_bits(data@.skip(i as int)) + pad, word_bits(crc)),
            ),
        decreases data@.len() - i,
    {
        let b: u8 = data[i];
        let ghost rest = message_bits(data@.skip(i + 1)) + pad;
        proof {
            assert(data@.skip(i as int).drop_first() =~= data@.skip(i + 1));
            assert(message_bits(data@.skip(i as int)) + pad =~= byte_bits(b) + rest);
            lemma_absorb_byte(crc, b, rest);
        }
        crc = crc ^ ((b as u32) << 24u32);
        let mut left: usize = 8;
        while left > 0
            invariant
                left <= 8,
                rest.len() >= 32,
                remainder(message_bits(data@) + pad) == remainder(
                    add_at_head(zero_bits(left as nat) + rest, word_bits(crc)),
                ),
            decreases left,
        {
            proof {
                let next = zero_bits((left - 1) as nat) + rest;
                assert(zero_bits(left as nat) + rest =~= seq![false] + next);
                lemma_shift(crc, next);
            }
            if crc & 0x8000_0000u32 != 0 {
                crc = (crc << 1u32) ^ OGG_CRC_GENERATOR;
            } else {
                crc = crc << 1u32;
            }
            left = left - 1;
        }
        assert(zero_bits(0) + rest =~= rest);
        i += 1;
    }
    proof {
        assert(message_bits(data@.skip(i as int)) + pad =~= pad);
        assert(add_at_head(pad, word_bits(crc)) =~= word_bits(crc));
        lemma_word_bits_value(crc);
    }
    crc
}

// ---------- Laws ----------
/// One step of a 32-bit register that divides by the polynomial 04C11DB7 over bits.
pub open spec fn divide_step(register: u32) -> u32 {
    if register & 0x8000_0000u32 != 0 {
        (register << 1u32) ^ 0x04C1_1DB7u32
    } else {
        register << 1u32
    }
}

/// The register after the bytes of a byte string.
spec fn register_after(data: Seq<u8>) -> u32
    decreases data.len(),
{
    if data.len() == 0 {
        0
    } else {
        eight_steps(register_after(data.drop_last()) ^ ((data.last() as u32) << 24u32))
    }
}

spec fn eight_steps(register: u32) -> u32 {
    divide_step(
        divide_step(
            divide_step(
                divide_step(divide_step(divide_step(divide_step(divide_step(register))))),
            ),
        ),
    )
}

proof fn lemma_message_push(data: Seq<u8>, b: u8)
    ensures
        message_bits(data.push(b)) == message_bits(data) + byte_bits(b),
    decreases data.len(),
{
    if data.len() == 0 {
        let rest = data.push(b).drop_first();
        assert(rest =~= Seq::empty());
        assert(message_bits(rest) =~= Seq::empty());
        assert(message_bits(data) =~= Seq::empty());
        assert(data.push(b)[0] == b);
        assert(message_bits(data.push(b)) =~= message_bits(data) + byte_bits(b));
    } else {
        lemma_message_push(data.drop_first(), b);
        assert(data.push(b).drop_first() =~= data.drop_first().push(b));
        assert(message_bits(data.push(b)) =~= message_bits(data) + byte_bits(b));
    }
}

proof fn lemma_steps(register: u32, left: nat, rest: Seq<bool>, after: u32)
    requires
        rest.len() >= 32,
        left >= 1,
        remainder(
            add_at_head(zero_bits((left - 1) as nat) + rest, word_bits(divide_step(register))),
        ) == remainder(add_at_head(rest, word_bits(after))),
    ensures
        remainder(add_at_head(zero_bits(left) + rest, word_bits(register))) == remainder(
            add_at_head(rest, word_bits(after)),
        ),
{
    let next = zero_bits((left - 1) as nat) + rest;
    assert(zero_bits(left) + rest =~= seq![false] + next);
    lemma_shift(register, next);
}

proof fn lemma_eight_steps(register: u32, rest: Seq<bool>)
    requires
        rest.len() >= 32,
    ensures
        remainder(add_at_head(zero_bits(8) + rest, word_bits(register))) == remainder(
            add_at_head(rest, word_bits(eight_steps(register))),
        ),
{
    let r1 = divide_step(register);
    let r2 = divide_step(r1);
    let r3 = divide_step(r2);
    let r4 = divide_step(r3);
    let r5 = divide_step(r4);
    let r6 = divide_step(r5);
    let r7 = divide_step(r6);
    let r8 = divide_step(r7);
    assert(zero_bits(0) + rest =~= rest);
    lemma_steps(r7, 1, rest, r8);
    lemma_steps(r6, 2, rest, r8);
    lemma_steps(r5, 3, rest, r8);
    lemma_steps(r4, 4, rest, r8);
    lemma_steps(r3, 5, rest, r8);
    lemma_steps(r2, 6, rest, r8);
    lemma_steps(r1, 7, rest, r8);
    lemma_steps(register, 8, rest, r8);
}

proof fn lemma_register_divides(data: Seq<u8>, tail: Seq<bool>)
    requires
        tail.len() >= 32,
    ensures
        remainder(message_bits(data) + tail) == remainder(
            add_at_head(tail, word_bits(register_after(data))),
        ),
    decreases data.len(),
{
    if data.len() == 0 {
        assert forall|k: int| 0 <= k < 32 implies !word_bits(0)[k] by {
            let s = (31 - k) as u32;
            assert((0u32 >> s) & 1u32 == 0u32) by (bit_vector);
        }
        assert(add_at_head(tail, word_bits(0)) =~= tail);
        assert(message_bits(data) + tail =~= tail);
    } else {
        let fewer = data.drop_last();
        let b = data.last();
        let register = register_after(fewer);
        lemma_message_push(fewer, b);
        assert(fewer.push(b) =~= data);
        assert(message_bits(data) + tail =~= message_bits(fewer) + (byte_bits(b) + tail));
        lemma_register_divides(fewer, byte_bits(b) + tail);
        lemma_absorb_byte(register, b, tail);
        lemma_eight_steps(register ^ ((b as u32) << 24u32), tail);
    }
}

proof fn lemma_register_is_crc(data: Seq<u8>)
    ensures
        crc32(data) == register_after(data),
{
    let pad = zero_bits(32);
    let register = register_after(data);
    lemma_register_divides(data, pad);
    assert(add_at_head(pad, word_bits(register)) =~= word_bits(register));
    lemma_word_bits_value(register);
}

/// How the checksum grows with each byte: the byte is added to the top of the old checksum, and
/// eight steps of division by 04C11DB7 follow. The checksum of no bytes is zero.
pub proof fn law_crc_grows_by_bytes(s: Seq<u8>, b: u8)
    ensures
        crc32(Seq::empty()) == 0,
        crc32(s) <= u32::MAX,
        crc32(s.push(b)) == divide_step(
            divide_step(
                divide_step(
                    divide_step(
                        divide_step(
                            divide_step(
                                divide_step(
                                    divide_step((crc32(s) as u32) ^ ((b as u32) << 24u32)),
                                ),
                            ),
                        ),
                    ),
                ),
            ),
        ),
{
    lemma_register_is_crc(Seq::empty());
    lemma_register_is_crc(s);
    lemma_register_is_crc(s.push(b));
    assert(s.push(b).drop_last() =~= s);
}

proof fn lemma_step_keeps_apart(a: u32, b: u32)
    ensures
        divide_step(a) == divide_step(b) ==> a == b,
{
    assert((if a & 0x8000_0000u32 != 0 {
        (a << 1u32) ^ 0x04C1_1DB7u32
    } else {
        a << 1u32
    }) == (if b & 0x8000_0000u32 != 0 {
        (b << 1u32) ^ 0x04C1_1DB7u32
    } else {
        b << 1u32
    }) ==> a == b) by (bit_vector);
}

proof fn lemma_eight_keep_apart(a: u32, b: u32)
    ensures
        eight_steps(a) == eight_steps(b) ==> a == b,
{
    let a1 = divide_step(a);
    let b1 = divide_step(b);
    let a2 = divide_step(a1);
    let b2 = divide_step(b1);
    let a3 = divide_step(a2);
    let b3 = divide_step(b2);
    let a4 = divide_step(a3);
    let b4 = divide_step(b3);
    let a5 = divide_step(a4);
    let b5 = divide_step(b4);
    let a6 = divide_step(a5);
    let b6 = divide_step(b5);
    let a7 = divide_step(a6);
    let b7 = divide_step(b6);
    lemma_step_keeps_apart(a, b);
    lemma_step_keeps_apart(a1, b1);
    lemma_step_keeps_apart(a2, b2);
    lemma_step_keeps_apart(a3, b3);
    lemma_step_keeps_apart(a4, b4);
    lemma_step_keeps_apart(a5, b5);
    lemma_step_keeps_apart(a6, b6);
    lemma_step_keeps_apart(a7, b7);
}

/// The checksum shows every change of a single byte.
pub proof fn law_crc_shows_changed_byte(front: Seq<u8>, x: u8, y: u8, back: Seq<u8>)
    requires
        x != y,
    ensures
        crc32(front.push(x) + back) != crc32(front.push(y) + back),
    decreases back.len(),
{
    let one = front.push(x) + back;
    let two = front.push(y) + back;
    lemma_register_is_crc(one);
    lemma_register_is_crc(two);
    if back.len() == 0 {
        let r = register_after(front);
        assert(one =~= front.push(x));
        assert(two =~= front.push(y));
        assert(one.drop_last() =~= front);
        assert(two.drop_last() =~= front);
        lemma_eight_keep_apart(r ^ ((x as u32) << 24u32), r ^ ((y as u32) << 24u32));
        assert(r ^ ((x as u32) << 24u32) == r ^ ((y as u32) << 24u32) ==> x == y) by (bit_vector);
    } else {
        let b = back.last();
        let fewer = back.drop_last();
        law_crc_shows_changed_byte(front, x, y, fewer);
        lemma_register_is_crc(front.push(x) + fewer);
        lemma_register_is_crc(front.push(y) + fewer);
        assert(one.drop_last() =~= front.push(x) + fewer);
        assert(two.drop_last() =~= front.push(y) + fewer);
        let p = register_after(front.push(x) + fewer);
        let q = register_after(front.push(y) + fewer);
        lemma_eight_keep_apart(p ^ ((b as u32) << 24u32), q ^ ((b as u32) << 24u32));
        assert(p ^ ((b as u32) << 24u32) == q ^ ((b as u32) << 24u32) ==> p == q) by (bit_vector);
    }
}

} // verus!

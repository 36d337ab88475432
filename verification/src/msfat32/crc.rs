//! The checksum of GPT headers and entry arrays.

use vstd::arithmetic::power2::pow2;
use vstd::prelude::*;

verus! {

/// One bit of the reflected CRC-32 division.
pub open spec fn crc_bit(c: u32) -> u32 {
    if c & 1 == 1 {
        (c >> 1) ^ 0xedb8_8320
    } else {
        c >> 1
    }
}

/// `n` bits of the division.
pub open spec fn crc_bits(c: u32, n: nat) -> u32
    decreases n,
{
    if n == 0 {
        c
    } else {
        crc_bit(crc_bits(c, (n - 1) as nat))
    }
}

/// The register after dividing `bytes`, from all ones on.
pub open spec fn crc_register(bytes: Seq<u8>) -> u32
    decreases bytes.len(),
{
    if bytes.len() == 0 {
        0xffff_ffff
    } else {
        crc_bits(crc_register(bytes.drop_last()) ^ (bytes.last() as u32), 8)
    }
}

/// The CRC-32 of `bytes`: the complement of the register.
pub open spec fn crc32_of(bytes: Seq<u8>) -> u32 {
    !crc_register(bytes)
}

/// Computes the CRC-32 variant used by GPT headers and partition-entry arrays.
pub fn crc32(bytes: &[u8]) -> (crc: u32)
    ensures
        crc == crc32_of(bytes@),
{
    let mut register: u32 = 0xffff_ffff;
    let mut i: usize = 0;
    while i < bytes.len()
        invariant
            i <= bytes@.len(),
            register == crc_register(bytes@.take(i as int)),
        decreases bytes@.len() - i,
    {
        proof {
            assert(bytes@.take(i + 1).drop_last() =~= bytes@.take(i as int));
        }
        register = register ^ (bytes[i] as u32);
        let ghost start = register;
        let mut k: usize = 0;
        while k < 8
            invariant
                k <= 8,
                register == crc_bits(start, k as nat),
            decreases 8 - k,
        {
            let mask: u32 = 0u32.wrapping_sub(register & 1);
            proof {
                let r = register;
                assert(r & 1 == 0 || r & 1 == 1) by (bit_vector);
                if r & 1 == 1 {
                    assert(mask == 0xffff_ffff);
                    assert(0xedb8_8320u32 & 0xffff_ffff == 0xedb8_8320) by (bit_vector);
                } else {
                    assert(mask == 0);
                    assert(0xedb8_8320u32 & 0 == 0) by (bit_vector);
                    assert((r >> 1) ^ 0 == r >> 1) by (bit_vector);
                }
            }
            register = (register >> 1) ^ (0xedb8_8320 & mask);
            k = k + 1;
        }
        i = i + 1;
    }
    proof {
        assert(bytes@.take(bytes@.len() as int) =~= bytes@);
    }
    !register
}

/// Binary digit `j` of `n`.
pub open spec fn binary_digit(n: int, j: int) -> bool {
    (n / pow2(j as nat) as int) % 2 == 1
}

/// Bit `i` of a message as it is sent: byte by byte, each from its least
/// significant bit on.
pub open spec fn message_bit(bytes: Seq<u8>, i: int) -> bool {
    binary_digit(bytes[i / 8] as int, i % 8)
}

/// Whether the generator x^32 + x^26 + x^23 + x^22 + x^16 + x^12 + x^11 + x^10 +
/// x^8 + x^7 + x^5 + x^4 + x^2 + x + 1 has a term `x^exponent`.
pub open spec fn generator_term(exponent: int) -> bool {
    ||| exponent == 32
    ||| exponent == 26
    ||| exponent == 23
    ||| exponent == 22
    ||| exponent == 16
    ||| exponent == 12
    ||| exponent == 11
    ||| exponent == 10
    ||| exponent == 8
    ||| exponent == 7
    ||| exponent == 5
    ||| exponent == 4
    ||| exponent == 2
    ||| exponent == 1
    ||| exponent == 0
}

/// Coefficient `i`, counted from the highest power on, of the product over GF(2)
/// of the polynomial `q` and the generator.
pub open spec fn product_bit(q: Seq<bool>, i: int) -> bool
    decreases q.len(),
{
    if q.len() == 0 {
        false
    } else {
        product_bit(q.drop_last(), i) != (q.last() && generator_term(32 - (i - (q.len() - 1))))
    }
}

/// Coefficient `i`, counted from the highest power on, of what is divided: the
/// message followed by 32 zeroes, with the first 32 bits complemented.
pub open spec fn dividend_bit(bytes: Seq<u8>, i: int) -> bool {
    (i < 8 * bytes.len() && message_bit(bytes, i)) != (i < 32)
}

/// `r` is the remainder over GF(2) of what is divided by the generator, `q` the
/// quotient: their sum with the product of quotient and generator is nothing.
/// The coefficients of `r` are counted from its least significant digit on.
pub open spec fn divides_with(bytes: Seq<u8>, q: Seq<bool>, r: int) -> bool {
    &&& q.len() == 8 * bytes.len()
    &&& forall|i: int|
        0 <= i < 8 * bytes.len() + 32 ==> (#[trigger] dividend_bit(bytes, i) != product_bit(q, i))
            == (i >= 8 * bytes.len() && binary_digit(r, i - 8 * bytes.len()))
}

/// The register after one more bit.
spec fn clock(r: u32, b: bool) -> u32 {
    if (r & 1 == 1) != b {
        (r >> 1) ^ 0xedb8_8320
    } else {
        r >> 1
    }
}

/// The register after bits, from all ones on.
spec fn clocked(bits: Seq<bool>) -> u32
    decreases bits.len(),
{
    if bits.len() == 0 {
        0xffff_ffff
    } else {
        clock(clocked(bits.drop_last()), bits.last())
    }
}

/// The bits of a message as they are sent.
spec fn message_bits(bytes: Seq<u8>) -> Seq<bool> {
    Seq::new(8 * bytes.len(), |i: int| message_bit(bytes, i))
}

spec fn bit(r: u32, j: int) -> bool {
    (r >> (j as u32)) & 1 == 1
}

proof fn lemma_bit_is_digit(r: u32, j: int)
    requires
        0 <= j < 32,
    ensures
        bit(r, j) == binary_digit(r as int, j),
{
    let k = j as u32;
    vstd::bits::lemma_u32_shr_is_div(r, k);
    let v: u32 = r >> k;
    assert(v & 1 == v % 2) by (bit_vector);
}

/// Dividing a byte at once is the same as dividing its bits one by one.
proof fn lemma_byte_by_bits(bytes: Seq<u8>)
    ensures
        crc_register(bytes) == clocked(message_bits(bytes)),
    decreases bytes.len(),
{
    let bits = message_bits(bytes);
    if bytes.len() > 0 {
        let before = bytes.drop_last();
        lemma_byte_by_bits(before);
        let n = 8 * before.len() as int;
        assert(bits.take(n) =~= message_bits(before)) by {
            assert forall|i: int| 0 <= i < n implies bits[i] == message_bits(before)[i] by {
                assert(bytes[i / 8] == before[i / 8]);
            }
        }
        lemma_bits_of_byte(bits, n, bytes.last(), 8);
        assert(bits.take(n + 8) =~= bits);
        let r = crc_register(before);
        let b = bytes.last() as u32;
        assert(b < 256 ==> b >> 8 == 0) by (bit_vector);
        let c = clocked(bits);
        assert(c ^ 0 == c) by (bit_vector);
    } else {
        assert(bits =~= Seq::empty());
    }
}

proof fn lemma_bits_of_byte(bits: Seq<bool>, n: int, last: u8, k: nat)
    requires
        0 <= n,
        k <= 8,
        n + 8 <= bits.len(),
        forall|i: int| 0 <= i < 8 ==> #[trigger] bits[n + i] == binary_digit(last as int, i),
    ensures
        crc_bits(clocked(bits.take(n)) ^ (last as u32), k) == clocked(bits.take(n + k)) ^ (
        last as u32 >> (k as u32)),
    decreases k,
{
    let b = last as u32;
    if k == 0 {
        assert(b >> 0 == b) by (bit_vector);
    } else {
        let m = (k - 1) as nat;
        lemma_bits_of_byte(bits, n, last, m);
        assert(bits.take(n + k).drop_last() =~= bits.take(n + m));
        assert(bits.take(n + k).last() == bits[n + m]);
        lemma_bit_is_digit(b, m as int);
        let s = clocked(bits.take(n + m));
        let j = m as u32;
        let next = k as u32;
        let x: u32 = s ^ (b >> j);
        assert((x & 1 == 1) == ((s & 1 == 1) != ((b >> j) & 1 == 1))) by (bit_vector)
            requires
                x == s ^ (b >> j),
        ;
        assert(x >> 1 == (s >> 1) ^ (b >> next)) by (bit_vector)
            requires
                x == s ^ (b >> j),
                j < 8,
                next == j + 1,
        ;
        assert((x >> 1) ^ 0xedb8_8320 == ((s >> 1) ^ 0xedb8_8320) ^ (b >> next))
            by (bit_vector)
            requires
                x == s ^ (b >> j),
                j < 8,
                next == j + 1,
        ;
    }
}

/// Far behind the quotient its product with the generator is nothing.
proof fn lemma_product_ends(q: Seq<bool>, i: int)
    requires
        i >= q.len() + 32,
    ensures
        !product_bit(q, i),
    decreases q.len(),
{
    if q.len() > 0 {
        lemma_product_ends(q.drop_last(), i);
    }
}

/// Whether bits followed by 32 zeroes, the first 32 bits complemented, hold a
/// one at `i`.
spec fn padded_bit(bits: Seq<bool>, i: int) -> bool {
    (i < bits.len() && bits[i]) != (i < 32)
}

/// The register holds the remainder of the bits so far.
spec fn balanced(bits: Seq<bool>, q: Seq<bool>) -> bool {
    &&& q.len() == bits.len()
    &&& forall|i: int|
        0 <= i < bits.len() + 32 ==> (#[trigger] padded_bit(bits, i) != product_bit(q, i)) == (i
            >= bits.len() && bit(clocked(bits), i - bits.len()))
}

/// The quotient bits are those that the register feeds back.
proof fn lemma_divide(bits: Seq<bool>) -> (q: Seq<bool>)
    ensures
        balanced(bits, q),
    decreases bits.len(),
{
    if bits.len() == 0 {
        let q: Seq<bool> = Seq::empty();
        assert forall|i: int| 0 <= i < 32 implies (#[trigger] padded_bit(bits, i) != product_bit(
            q,
            i,
        )) == bit(clocked(bits), i) by {
            let k = i as u32;
            assert(k < 32 ==> (0xffff_ffffu32 >> k) & 1 == 1) by (bit_vector);
        }
        q
    } else {
        let before = bits.drop_last();
        let n = before.len() as int;
        let p = lemma_divide(before);
        let r = clocked(before);
        let r1 = clocked(bits);
        let f: bool = (r & 1 == 1) != bits.last();
        let q = p.push(f);
        assert(q.drop_last() =~= p);
        assert forall|i: int| 0 <= i < bits.len() + 32 implies (#[trigger] padded_bit(bits, i)
            != product_bit(q, i)) == (i >= bits.len() && bit(r1, i - bits.len())) by {
            let t = i - n;
            assert(product_bit(q, i) == (product_bit(p, i) != (f && generator_term(32 - t))));
            if i < n {
                assert(padded_bit(bits, i) == padded_bit(before, i));
            } else if i == n {
                assert(padded_bit(before, i) != product_bit(p, i) == bit(r, 0));
                assert(r >> 0 == r) by (bit_vector);
            } else if i < n + 32 {
                assert(padded_bit(bits, i) == padded_bit(before, i));
                lemma_shifted(r, r1, f, t);
            } else {
                lemma_product_ends(p, i);
                lemma_shifted(r, r1, f, t);
            }
        }
        q
    }
}

/// Clocking moves the digits of the register down, and adds the generator where
/// a one is fed back.
proof fn lemma_shifted(r: u32, r1: u32, f: bool, t: int)
    requires
        1 <= t <= 32,
        r1 == if f {
            (r >> 1) ^ 0xedb8_8320
        } else {
            r >> 1
        },
    ensures
        bit(r1, t - 1) == ((t < 32 && bit(r, t)) != (f && generator_term(32 - t))),
{
    let k = (t - 1) as u32;
    let g: u32 = 0xedb8_8320;
    let next = t as u32;
    assert(((r >> 1) >> k) & 1 == if k < 31 {
        (r >> next) & 1
    } else {
        0u32
    }) by (bit_vector)
        requires
            k < 32,
            next == k + 1,
    ;
    let x: u32 = r >> 1;
    assert((((x ^ g) >> k) & 1 == 1) == (((x >> k) & 1 == 1) != ((g >> k) & 1 == 1)))
        by (bit_vector)
        requires
            k < 32,
    ;
    assert(((0xedb8_8320u32 >> k) & 1 == 1) == (k == 31 || k == 30 || k == 29 || k == 27 || k == 26
        || k == 24 || k == 23 || k == 21 || k == 20 || k == 19 || k == 15 || k == 9 || k == 8 || k
        == 5)) by (bit_vector)
        requires
            k < 32,
    ;
}

/// The checksum is the CRC-32 of GPT: read from the first bit sent on, the
/// message with its first 32 bits complemented leaves, divided by the generator
/// polynomial over GF(2), the complement of the checksum. `q` is the quotient.
pub proof fn checksums_are_polynomial_remainders(bytes: Seq<u8>) -> (q: Seq<bool>)
    ensures
        divides_with(bytes, q, 0xffff_ffff - crc32_of(bytes)),
{
    let bits = message_bits(bytes);
    let r = crc_register(bytes);
    lemma_byte_by_bits(bytes);
    let q = lemma_divide(bits);
    assert(!r == 0xffff_ffff - r) by (bit_vector);
    let n = 8 * bytes.len() as int;
    assert forall|i: int| 0 <= i < n + 32 implies (#[trigger] dividend_bit(bytes, i)
        != product_bit(q, i)) == (i >= n && binary_digit(r as int, i - n)) by {
        assert(padded_bit(bits, i) == dividend_bit(bytes, i));
        if i >= n {
            lemma_bit_is_digit(r, i - n);
        }
    }
    q
}

} // verus!

//! Little-endian fields of on-disk structures, and report rows.

use vstd::arithmetic::power::{lemma_pow0, lemma_pow1, lemma_pow_adds, lemma_pow_positive, pow};
use vstd::prelude::*;
use vstd::string::*;

verus! {

/// `s` with the bytes from index `at` on overwritten by `b`.
pub open spec fn splice(s: Seq<u8>, at: int, b: Seq<u8>) -> Seq<u8> {
    Seq::new(s.len(), |i: int| if at <= i < at + b.len() { b[i - at] } else { s[i] })
}

/// The number whose base-256 digits, least significant first, are `s`.
pub open spec fn le_value(s: Seq<u8>) -> nat
    decreases s.len(),
{
    if s.len() == 0 {
        0
    } else {
        s[0] as nat + 256 * le_value(s.drop_first())
    }
}

/// The lowest `n` base-256 digits of `v`, least significant first.
pub open spec fn le_bytes(v: nat, n: nat) -> Seq<u8>
    decreases n,
{
    if n == 0 {
        seq![]
    } else {
        seq![(v % 256) as u8] + le_bytes(v / 256, (n - 1) as nat)
    }
}

/// `le_bytes(v, n)` holds `n` bytes.
pub proof fn lemma_le_bytes_len(v: nat, n: nat)
    ensures
        le_bytes(v, n).len() == n,
    decreases n,
{
    if n > 0 {
        lemma_le_bytes_len(v / 256, (n - 1) as nat);
    }
}

/// A number below `256^n` is recovered from its `n` little-endian bytes.
pub proof fn lemma_le_round_trip(v: nat, n: nat)
    requires
        v < pow(256, n),
    ensures
        le_value(le_bytes(v, n)) == v,
    decreases n,
{
    lemma_le_bytes_len(v, n);
    if n == 0 {
        lemma_pow0(256);
    } else {
        let m = (n - 1) as nat;
        lemma_pow1(256);
        lemma_pow_adds(256, 1, m);
        lemma_le_round_trip(v / 256, m);
        assert(le_bytes(v, n).drop_first() =~= le_bytes(v / 256, m));
    }
}

/// Bytes are recovered from the number that they spell.
pub proof fn lemma_le_bytes_of_value(s: Seq<u8>)
    ensures
        le_bytes(le_value(s), s.len()) == s,
        le_value(s) < pow(256, s.len()),
    decreases s.len(),
{
    if s.len() == 0 {
        lemma_pow0(256);
    } else {
        let t = s.drop_first();
        lemma_le_bytes_of_value(t);
        lemma_pow1(256);
        lemma_pow_adds(256, 1, t.len());
        let v = le_value(s);
        assert(v % 256 == s[0] as nat);
        assert(v / 256 == le_value(t));
        assert(seq![s[0]] + t =~= s);
    }
}

/// The powers of 256 that bound the integer types.
pub proof fn lemma_pow256_values()
    ensures
        pow(256, 1) == 0x100,
        pow(256, 2) == 0x1_0000,
        pow(256, 4) == 0x1_0000_0000,
        pow(256, 8) == 0x1_0000_0000_0000_0000,
        pow(256, 16) == 0x1_0000_0000_0000_0000_0000_0000_0000_0000,
{
    lemma_pow1(256);
    lemma_pow_adds(256, 1, 1);
    assert(256 * 256 == 0x1_0000) by (nonlinear_arith);
    lemma_pow_adds(256, 2, 2);
    assert(0x1_0000 * 0x1_0000 == 0x1_0000_0000) by (nonlinear_arith);
    lemma_pow_adds(256, 4, 4);
    assert(0x1_0000_0000 * 0x1_0000_0000 == 0x1_0000_0000_0000_0000) by (nonlinear_arith);
    lemma_pow_adds(256, 8, 8);
    assert(0x1_0000_0000_0000_0000 * 0x1_0000_0000_0000_0000
        == 0x1_0000_0000_0000_0000_0000_0000_0000_0000) by (nonlinear_arith);
}

/// Reads the `n` bytes at `offset` as one little-endian number.
pub fn read_le(bytes: &[u8], offset: usize, n: usize) -> (value: u128)
    requires
        n <= 16,
        offset + n <= bytes@.len(),
    ensures
        value == le_value(bytes@.subrange(offset as int, offset + n)),
        value < pow(256, n as nat),
{
    let mut value: u128 = 0;
    let mut i: usize = n;
    proof {
        assert(bytes.len() == bytes@.len());
        lemma_pow0(256);
    }
    while i > 0
        invariant
            i <= n <= 16,
            offset + n <= bytes@.len() <= usize::MAX,
            value == le_value(bytes@.subrange(offset + i, offset + n)),
            value < pow(256, (n - i) as nat),
        decreases i,
    {
        proof {
            let tail = bytes@.subrange(offset + i, offset + n);
            let whole = bytes@.subrange(offset + i - 1, offset + n);
            assert(whole.drop_first() =~= tail);
            assert(whole[0] == bytes@[offset + i - 1]);
            lemma_pow1(256);
            lemma_pow_adds(256, 1, (n - i) as nat);
            lemma_pow_adds(256, (n - i + 1) as nat, (16 - (n - i + 1)) as nat);
            lemma_pow_positive(256, (16 - (n - i + 1)) as nat);
            lemma_pow256_values();
            let a = pow(256, (n - i + 1) as nat);
            let b = pow(256, (16 - (n - i + 1)) as nat);
            assert(a <= a * b) by (nonlinear_arith)
                requires
                    a >= 0,
                    b >= 1,
            ;
        }
        i = i - 1;
        value = value * 256 + bytes[offset + i] as u128;
    }
    value
}

/// Writes the lowest `n` bytes of `value` at `offset`, least significant first.
pub fn put_le(bytes: &mut [u8], offset: usize, value: u128, n: usize)
    requires
        offset + n <= old(bytes)@.len(),
    ensures
        final(bytes)@ == splice(old(bytes)@, offset as int, le_bytes(value as nat, n as nat)),
{
    let mut rest: u128 = value;
    let mut i: usize = 0;
    let ghost before = bytes@;
    let ghost digits = le_bytes(value as nat, n as nat);
    proof {
        assert(bytes.len() == bytes@.len());
        lemma_le_bytes_len(value as nat, n as nat);
        assert(digits.skip(0) =~= digits);
    }
    while i < n
        invariant
            i <= n,
            offset + n <= before.len() <= usize::MAX,
            bytes@.len() == before.len(),
            digits.len() == n,
            digits.skip(i as int) == le_bytes(rest as nat, (n - i) as nat),
            bytes@ == splice(before, offset as int, digits.take(i as int)),
        decreases n - i,
    {
        proof {
            let tail = le_bytes(rest as nat / 256, (n - i - 1) as nat);
            assert(digits.skip(i as int)[0] == (rest % 256) as u8);
            assert(digits.skip(i + 1) =~= digits.skip(i as int).drop_first());
            assert((seq![(rest % 256) as u8] + tail).drop_first() =~= tail);
            assert(digits.take(i + 1) =~= digits.take(i as int).push((rest % 256) as u8));
        }
        bytes[offset + i] = (rest % 256) as u8;
        rest = rest / 256;
        i = i + 1;
        proof {
            assert(bytes@ =~= splice(before, offset as int, digits.take(i as int)));
        }
    }
    proof {
        assert(digits.take(n as int) =~= digits);
    }
}

/// Overwrites the bytes from `offset` on with `source`.
pub fn copy_at(bytes: &mut [u8], offset: usize, source: &[u8])
    requires
        offset + source@.len() <= old(bytes)@.len(),
    ensures
        final(bytes)@ == splice(old(bytes)@, offset as int, source@),
{
    let mut i: usize = 0;
    let ghost before = bytes@;
    proof {
        assert(bytes.len() == bytes@.len());
        assert(bytes@ =~= splice(before, offset as int, source@.take(0)));
    }
    while i < source.len()
        invariant
            i <= source@.len(),
            offset + source@.len() <= before.len() <= usize::MAX,
            bytes@.len() == before.len(),
            bytes@ == splice(before, offset as int, source@.take(i as int)),
        decreases source@.len() - i,
    {
        bytes[offset + i] = source[i];
        i = i + 1;
        proof {
            assert(bytes@ =~= splice(before, offset as int, source@.take(i as int)));
        }
    }
    proof {
        assert(source@.take(source@.len() as int) =~= source@);
    }
}

/// Reads a little-endian `u16` from an on-disk byte structure.
pub fn read_le_u16(bytes: &[u8], offset: usize) -> (value: u16)
    requires
        offset + 2 <= bytes@.len(),
    ensures
        value == le_value(bytes@.subrange(offset as int, offset + 2)),
{
    proof {
        lemma_pow256_values();
    }
    read_le(bytes, offset, 2) as u16
}

/// Reads a little-endian `u32` from an on-disk byte structure.
pub fn read_le_u32(bytes: &[u8], offset: usize) -> (value: u32)
    requires
        offset + 4 <= bytes@.len(),
    ensures
        value == le_value(bytes@.subrange(offset as int, offset + 4)),
{
    proof {
        lemma_pow256_values();
    }
    read_le(bytes, offset, 4) as u32
}

/// Reads a little-endian `u64` from an on-disk byte structure.
pub fn read_le_u64(bytes: &[u8], offset: usize) -> (value: u64)
    requires
        offset + 8 <= bytes@.len(),
    ensures
        value == le_value(bytes@.subrange(offset as int, offset + 8)),
{
    proof {
        lemma_pow256_values();
    }
    read_le(bytes, offset, 8) as u64
}

/// `n` copies of `c`.
pub open spec fn repeated(c: char, n: int) -> Seq<char> {
    Seq::new(if n < 0 { 0 } else { n as nat }, |i: int| c)
}

/// One report row: the label filled up with dots to `width` characters, a
/// colon, a space, and the value.
pub open spec fn report_row(label: Seq<char>, value: Seq<char>, width: int) -> Seq<char> {
    label + repeated('.', width - label.len()) + seq![':', ' '] + value
}

/// Renders one aligned report row as `label....: value`.
pub fn print_report(label: &str, value: &str, width: usize) -> (row: String)
    ensures
        row@ == report_row(label@, value@, width as int),
{
    let mut row: String = String::from_str(label);
    let mut filled: usize = label.unicode_len();
    while filled < width
        invariant
            label@.len() <= filled,
            filled <= width || filled == label@.len(),
            row@ == label@ + repeated('.', filled - label@.len()),
        decreases width - filled,
    {
        proof {
            reveal_strlit(".");
            assert(label@ + repeated('.', filled - label@.len()) + "."@ =~= label@ + repeated(
                '.',
                filled + 1 - label@.len(),
            ));
        }
        row.append(".");
        filled = filled + 1;
    }
    proof {
        reveal_strlit(": ");
        assert(repeated('.', filled - label@.len()) =~= repeated('.', width - label@.len()));
        assert(": "@ =~= seq![':', ' ']);
    }
    row.append(": ");
    row.append(value);
    row
}

/// Overwriting keeps the length, puts the new bytes in their place, and leaves
/// the bytes before and behind them alone.
pub proof fn splices_change_their_range_alone(s: Seq<u8>, at: int, b: Seq<u8>)
    requires
        0 <= at,
        at + b.len() <= s.len(),
    ensures
        splice(s, at, b) == s.take(at) + b + s.skip(at + b.len()),
{
    assert(splice(s, at, b) =~= s.take(at) + b + s.skip(at + b.len()));
}

/// Appending a byte adds it times the power of 256 that its place has.
pub proof fn little_endian_bytes_weigh_by_place(s: Seq<u8>, b: u8)
    ensures
        le_value(Seq::empty()) == 0,
        le_value(s.push(b)) == le_value(s) + b * pow(256, s.len()),
    decreases s.len(),
{
    if s.len() == 0 {
        lemma_pow0(256);
        assert(s.push(b).drop_first() =~= Seq::empty());
        assert(s =~= Seq::empty());
    } else {
        let t = s.drop_first();
        little_endian_bytes_weigh_by_place(t, b);
        assert(s.push(b).drop_first() =~= t.push(b));
        lemma_pow1(256);
        lemma_pow_adds(256, 1, t.len());
        let p = pow(256, t.len());
        assert(256 * (b * p) == b * (256 * p)) by (nonlinear_arith);
    }
}

/// Byte `i` of the little-endian bytes of a number is its digit of that place
/// in base 256.
pub proof fn little_endian_bytes_are_digits(v: nat, n: nat, i: nat)
    requires
        i < n,
    ensures
        le_bytes(v, n).len() == n,
        le_bytes(v, n)[i as int] == (v as int / pow(256, i)) % 256,
    decreases n,
{
    lemma_le_bytes_len(v, n);
    lemma_le_bytes_len(v / 256, (n - 1) as nat);
    if i == 0 {
        lemma_pow0(256);
    } else {
        let j = (i - 1) as nat;
        little_endian_bytes_are_digits(v / 256, (n - 1) as nat, j);
        lemma_pow1(256);
        lemma_pow_adds(256, 1, j);
        lemma_pow_positive(256, j);
        vstd::arithmetic::div_mod::lemma_div_denominator(v as int, 256, pow(256, j));
        assert(le_bytes(v, n)[i as int] == le_bytes(v / 256, (n - 1) as nat)[j as int]);
    }
}

/// A report row starts with its label, ends with its value, and between them
/// has as many dots as the label falls short of the width, a colon and a space.
pub proof fn report_rows_hold_label_and_value(label: Seq<char>, value: Seq<char>, width: int)
    ensures
        ({
            let row = report_row(label, value, width);
            let filled: int = if label.len() < width {
                width
            } else {
                label.len() as int
            };
            &&& row.len() == filled + 2 + value.len()
            &&& row.take(label.len() as int) == label
            &&& forall|i: int| label.len() <= i < filled ==> #[trigger] row[i] == '.'
            &&& row[filled] == ':'
            &&& row[filled + 1] == ' '
            &&& row.skip(filled + 2) == value
        }),
{
    let row = report_row(label, value, width);
    let filled: int = if label.len() < width {
        width
    } else {
        label.len() as int
    };
    assert(row.take(label.len() as int) =~= label);
    assert(row.skip(filled + 2) =~= value);
}

} // verus!

//! Decimal and hexadecimal text of numbers.

use vstd::prelude::*;
use vstd::string::*;

verus! {

/// The digit of value `d` in bases up to sixteen, in lower case.
pub open spec fn digit(d: nat) -> char {
    if d < 10 {
        (('0' as int) + d) as char
    } else {
        (('a' as int) + d - 10) as char
    }
}

/// `n` in decimal, without leading zeroes.
pub open spec fn decimal(n: nat) -> Seq<char>
    decreases n,
{
    if n < 10 {
        seq![digit(n)]
    } else {
        decimal(n / 10).push(digit(n % 10))
    }
}

/// `n` in decimal, with a minus sign where it is negative.
pub open spec fn signed_decimal(n: int) -> Seq<char> {
    if n < 0 {
        "-"@ + decimal((-n) as nat)
    } else {
        decimal(n as nat)
    }
}

/// `n` in decimal, filled up with leading zeroes to `width` digits.
pub open spec fn decimal_padded(n: nat, width: nat) -> Seq<char> {
    crate::utils::repeated('0', width - decimal(n).len()) + decimal(n)
}

/// The two hexadecimal digits of a byte.
pub open spec fn hex_byte(b: u8) -> Seq<char> {
    seq![digit((b / 16) as nat), digit((b % 16) as nat)]
}

/// The hexadecimal digits of bytes, one pair for each byte.
pub open spec fn hex_bytes(s: Seq<u8>) -> Seq<char>
    decreases s.len(),
{
    if s.len() == 0 {
        seq![]
    } else {
        hex_bytes(s.drop_last()) + hex_byte(s.last())
    }
}

/// The digit of value `d` as text.
fn digit_text(d: usize) -> (text: &'static str)
    requires
        d < 16,
    ensures
        text@ == seq![digit(d as nat)],
{
    let digits = "0123456789abcdef";
    proof {
        reveal_strlit("0123456789abcdef");
        assert(digits@.subrange(d as int, d + 1) =~= seq![digit(d as nat)]);
    }
    digits.substring_ascii(d, d + 1)
}

/// Writes `n` in decimal.
pub fn decimal_text(n: u64) -> (text: String)
    ensures
        text@ == decimal(n as nat),
    decreases n,
{
    if n < 10 {
        String::from_str(digit_text(n as usize))
    } else {
        let mut text = decimal_text(n / 10);
        text.append(digit_text((n % 10) as usize));
        proof {
            assert(text@ =~= decimal(n as nat));
        }
        text
    }
}

/// Writes `n` in decimal, with a minus sign where it is negative.
pub fn signed_text(n: i64) -> (text: String)
    ensures
        text@ == signed_decimal(n as int),
{
    if n < 0 {
        let mut text = String::from_str("-");
        text.append(decimal_text((-(n as i128)) as u64).as_str());
        text
    } else {
        decimal_text(n as u64)
    }
}

/// Writes `n` in decimal with at least `width` digits.
pub fn decimal_padded_text(n: u64, width: usize) -> (text: String)
    ensures
        text@ == decimal_padded(n as nat, width as nat),
{
    let number = decimal_text(n);
    let mut text = String::new();
    let len: usize = number.as_str().unicode_len();
    let mut filled: usize = len;
    proof {
        assert(text@ =~= crate::utils::repeated('0', 0));
    }
    while filled < width
        invariant
            len == number@.len(),
            len <= filled,
            filled <= width || filled == len,
            text@ == crate::utils::repeated('0', filled - len),
        decreases width - filled,
    {
        proof {
            reveal_strlit("0");
            assert(text@ + "0"@ =~= crate::utils::repeated('0', filled + 1 - len));
        }
        text.append("0");
        filled = filled + 1;
    }
    proof {
        assert(text@ =~= crate::utils::repeated('0', width - len));
    }
    text.append(number.as_str());
    text
}

/// Writes the bytes from `from` up to `to` in hexadecimal.
pub fn hex_text(bytes: &[u8], from: usize, to: usize) -> (text: String)
    requires
        from <= to <= bytes@.len(),
    ensures
        text@ == hex_bytes(bytes@.subrange(from as int, to as int)),
{
    let mut text = String::new();
    let mut i: usize = from;
    proof {
        assert(text@ =~= hex_bytes(bytes@.subrange(from as int, from as int)));
    }
    while i < to
        invariant
            from <= i <= to <= bytes@.len(),
            text@ == hex_bytes(bytes@.subrange(from as int, i as int)),
        decreases to - i,
    {
        let b: u8 = bytes[i];
        text.append(digit_text((b / 16) as usize));
        text.append(digit_text((b % 16) as usize));
        proof {
            let grown = bytes@.subrange(from as int, i + 1);
            assert(grown.drop_last() =~= bytes@.subrange(from as int, i as int));
            assert(grown.last() == b);
            assert(text@ =~= hex_bytes(grown));
        }
        i = i + 1;
    }
    text
}

/// The value of a digit in bases up to sixteen.
pub open spec fn digit_value(c: char) -> int {
    if '0' <= c <= '9' {
        c as int - '0' as int
    } else if 'a' <= c <= 'f' {
        c as int - 'a' as int + 10
    } else {
        -1
    }
}

/// The number that decimal digits spell.
pub open spec fn decimal_value(s: Seq<char>) -> int
    decreases s.len(),
{
    if s.len() == 0 {
        0
    } else {
        10 * decimal_value(s.drop_last()) + digit_value(s.last())
    }
}

/// `s` is made of decimal digits.
pub open spec fn all_decimal(s: Seq<char>) -> bool {
    forall|i: int| 0 <= i < s.len() ==> '0' <= #[trigger] s[i] <= '9'
}

/// Decimal text is made of digits that spell the number, the first of which is
/// zero for the number zero alone.
pub proof fn decimal_text_spells_the_number(n: nat)
    ensures
        decimal(n).len() > 0,
        all_decimal(decimal(n)),
        decimal_value(decimal(n)) == n,
        decimal(n)[0] == '0' ==> decimal(n) == seq!['0'],
    decreases n,
{
    let s = decimal(n);
    if n < 10 {
        assert(s.drop_last() =~= Seq::empty());
        assert(decimal_value(s.drop_last()) == 0);
        if s[0] == '0' {
            assert(s =~= seq!['0']);
        }
    } else {
        decimal_text_spells_the_number(n / 10);
        assert(s.drop_last() =~= decimal(n / 10));
        if s[0] == '0' {
            assert(decimal(n / 10)[0] == '0');
            assert(decimal_value(seq!['0']) == 0) by {
                assert(seq!['0'].drop_last() =~= Seq::empty());
                assert(decimal_value(seq!['0'].drop_last()) == 0);
            }
        }
    }
}

proof fn lemma_leading_zeroes(k: nat, s: Seq<char>)
    requires
        all_decimal(s),
    ensures
        all_decimal(crate::utils::repeated('0', k as int) + s),
        decimal_value(crate::utils::repeated('0', k as int) + s) == decimal_value(s),
    decreases s.len(), k,
{
    let z = crate::utils::repeated('0', k as int);
    let t = z + s;
    if s.len() > 0 {
        lemma_leading_zeroes(k, s.drop_last());
        assert(t.drop_last() =~= z + s.drop_last());
    } else if k > 0 {
        lemma_leading_zeroes((k - 1) as nat, s);
        assert(t.drop_last() =~= crate::utils::repeated('0', k - 1) + s);
        assert(t.last() == '0');
    } else {
        assert(t =~= s);
    }
}

/// Padded decimal text spells the same number, with at least `width` digits and
/// no more than the number or the width asks for.
pub proof fn padded_text_spells_the_number(n: nat, width: nat)
    ensures
        all_decimal(decimal_padded(n, width)),
        decimal_value(decimal_padded(n, width)) == n,
        decimal_padded(n, width).len() == if decimal(n).len() < width {
            width
        } else {
            decimal(n).len()
        },
{
    decimal_text_spells_the_number(n);
    let k = width - decimal(n).len();
    if k >= 0 {
        lemma_leading_zeroes(k as nat, decimal(n));
    } else {
        assert(decimal_padded(n, width) =~= decimal(n));
    }
}

/// Signed decimal text is that of the absolute value, behind a minus sign where
/// the number is negative.
pub proof fn signed_text_spells_the_number(n: int)
    ensures
        n >= 0 ==> decimal_value(signed_decimal(n)) == n,
        n < 0 ==> signed_decimal(n)[0] == '-' && decimal_value(signed_decimal(n).drop_first())
            == -n,
{
    reveal_strlit("-");
    if n < 0 {
        decimal_text_spells_the_number((-n) as nat);
        assert(signed_decimal(n).drop_first() =~= decimal((-n) as nat));
    } else {
        decimal_text_spells_the_number(n as nat);
    }
}

/// Hexadecimal text has two digits for each byte, in order, which spell it.
pub proof fn hex_text_spells_the_bytes(s: Seq<u8>, i: int)
    requires
        0 <= i < s.len(),
    ensures
        hex_bytes(s).len() == 2 * s.len(),
        0 <= digit_value(hex_bytes(s)[2 * i]) < 16,
        0 <= digit_value(hex_bytes(s)[2 * i + 1]) < 16,
        s[i] == 16 * digit_value(hex_bytes(s)[2 * i]) + digit_value(hex_bytes(s)[2 * i + 1]),
    decreases s.len(),
{
    let t = s.drop_last();
    lemma_hex_len(s);
    lemma_hex_len(t);
    if i < s.len() - 1 {
        hex_text_spells_the_bytes(t, i);
    }
}

/// Hexadecimal text has two digits for each byte.
pub proof fn lemma_hex_len(s: Seq<u8>)
    ensures
        hex_bytes(s).len() == 2 * s.len(),
    decreases s.len(),
{
    if s.len() > 0 {
        lemma_hex_len(s.drop_last());
    }
}

} // verus!

//! Rendering numbers as text: hexadecimal and decimal digits.

use vstd::prelude::*;

verus! {

/// The lower-case hexadecimal digit for `d` (below 16).
pub open spec fn hex_char(d: nat) -> char {
    if d < 10 {
        ((48 + d) as u8) as char
    } else {
        ((87 + d) as u8) as char
    }
}

/// A byte as exactly two lower-case hexadecimal digits.
pub open spec fn hex_byte(b: u8) -> Seq<char> {
    seq![hex_char(b as nat / 16), hex_char(b as nat % 16)]
}

/// The ASCII decimal digits of `n`, without leading zeros.
pub open spec fn decimal_bytes(n: nat) -> Seq<u8>
    decreases n,
{
    if n < 10 {
        seq![(48 + n) as u8]
    } else {
        decimal_bytes(n / 10).push((48 + n % 10) as u8)
    }
}

/// The decimal digits of `n` as characters.
pub open spec fn decimal_chars(n: nat) -> Seq<char> {
    decimal_bytes(n).map_values(|b: u8| b as char)
}

/// The number that ASCII decimal digits stand for.
pub open spec fn digits_value(digits: Seq<u8>) -> int
    decreases digits.len(),
{
    if digits.len() == 0 {
        0
    } else {
        digits_value(digits.drop_last()) * 10 + (digits.last() as int - 48)
    }
}

/// The decimal digits of `n` are ASCII digits, the first one not a zero
/// unless `n` is zero, and they stand for `n`.
pub proof fn lemma_decimal_bytes_value(n: nat)
    ensures
        digits_value(decimal_bytes(n)) == n,
        decimal_bytes(n).len() >= 1,
        forall|i: int| 0 <= i < decimal_bytes(n).len() ==> 48 <= #[trigger] decimal_bytes(n)[i] <= 57,
        n > 0 ==> decimal_bytes(n)[0] != 48,
    decreases n,
{
    if n >= 10 {
        lemma_decimal_bytes_value(n / 10);
        let d = decimal_bytes(n);
        assert(d.drop_last() =~= decimal_bytes(n / 10));
        assert(d[0] == decimal_bytes(n / 10)[0]);
        assert(d.last() == (48 + n % 10) as u8);
        assert(digits_value(d) == digits_value(decimal_bytes(n / 10)) * 10 + (n % 10));
        assert(n == (n / 10) * 10 + n % 10);
    } else {
        let d = decimal_bytes(n);
        assert(d.drop_last() =~= Seq::<u8>::empty());
        assert(digits_value(Seq::<u8>::empty()) == 0);
        assert(digits_value(d) == digits_value(d.drop_last()) * 10 + (d.last() as int - 48));
    }
}

/// Two hexadecimal digits stand for the byte they render: the first for its
/// high four bits, the second for its low four bits.
pub proof fn lemma_hex_byte_value(b: u8)
    ensures
        hex_value(hex_byte(b)[0]) * 16 + hex_value(hex_byte(b)[1]) == b,
{
}

/// The value of a lower-case hexadecimal digit.
pub open spec fn hex_value(c: char) -> int {
    if '0' <= c <= '9' {
        c as int - 48
    } else {
        c as int - 87
    }
}

/// A one-character string holding the hexadecimal digit `d`.
pub fn digit_str(d: u8) -> (s: &'static str)
    requires
        d < 16,
    ensures
        s@ == seq![hex_char(d as nat)],
{
    match d {
        0 => { proof { reveal_strlit("0"); } "0" },
        1 => { proof { reveal_strlit("1"); } "1" },
        2 => { proof { reveal_strlit("2"); } "2" },
        3 => { proof { reveal_strlit("3"); } "3" },
        4 => { proof { reveal_strlit("4"); } "4" },
        5 => { proof { reveal_strlit("5"); } "5" },
        6 => { proof { reveal_strlit("6"); } "6" },
        7 => { proof { reveal_strlit("7"); } "7" },
        8 => { proof { reveal_strlit("8"); } "8" },
        9 => { proof { reveal_strlit("9"); } "9" },
        10 => { proof { reveal_strlit("a"); } "a" },
        11 => { proof { reveal_strlit("b"); } "b" },
        12 => { proof { reveal_strlit("c"); } "c" },
        13 => { proof { reveal_strlit("d"); } "d" },
        14 => { proof { reveal_strlit("e"); } "e" },
        _ => { proof { reveal_strlit("f"); } "f" },
    }
}

/// Appends the two lower-case hexadecimal digits of `b`.
pub fn push_hex_byte(s: &mut String, b: u8)
    ensures
        final(s)@ == old(s)@ + hex_byte(b),
{
    s.append(digit_str(b / 16));
    s.append(digit_str(b % 16));
    assert(s@ =~= old(s)@ + hex_byte(b));
}

/// Appends the decimal digits of `b`.
pub fn push_decimal_u8(s: &mut String, b: u8)
    ensures
        final(s)@ == old(s)@ + decimal_chars(b as nat),
{
    let ghost n = b as nat;
    if b >= 100 {
        s.append(digit_str(b / 100));
        s.append(digit_str(b / 10 % 10));
        s.append(digit_str(b % 10));
        let ghost m = n / 10;
        assert(m / 10 == n / 100);
        assert(decimal_bytes(m / 10) == seq![(48 + n / 100) as u8]);
        assert(decimal_bytes(m) == decimal_bytes(m / 10).push((48 + m % 10) as u8));
        assert(decimal_bytes(n) == decimal_bytes(m).push((48 + n % 10) as u8));
        assert(decimal_bytes(n) =~= seq![
            (48 + n / 100) as u8,
            (48 + n / 10 % 10) as u8,
            (48 + n % 10) as u8,
        ]);
    } else if b >= 10 {
        s.append(digit_str(b / 10));
        s.append(digit_str(b % 10));
        assert(decimal_bytes(n / 10) == seq![(48 + n / 10) as u8]);
        assert(decimal_bytes(n) == decimal_bytes(n / 10).push((48 + n % 10) as u8));
        assert(decimal_bytes(n) =~= seq![(48 + n / 10) as u8, (48 + n % 10) as u8]);
    } else {
        s.append(digit_str(b));
        assert(decimal_bytes(n) =~= seq![(48 + n) as u8]);
    }
    assert(s@ =~= old(s)@ + decimal_chars(n));
}

/// The ASCII decimal digits of `n`.
pub fn decimal_digits(n: usize) -> (out: Vec<u8>)
    ensures
        out@ == decimal_bytes(n as nat),
    decreases n,
{
    if n < 10 {
        let mut out = Vec::new();
        out.push((48 + n) as u8);
        assert(out@ =~= decimal_bytes(n as nat));
        out
    } else {
        let mut out = decimal_digits(n / 10);
        out.push((48 + n % 10) as u8);
        out
    }
}

} // verus!

//! The internet checksum (RFC 1071): the ones' complement of the ones'
//! complement sum of the data taken as big-endian 16-bit words.

use vstd::prelude::*;

use crate::wire::be_u16;

verus! {

/// The sum of the first `k` big-endian 16-bit words of `data`.
pub open spec fn word_sum(data: Seq<u8>, k: nat) -> nat
    decreases k,
{
    if k == 0 {
        0
    } else {
        word_sum(data, (k - 1) as nat) + be_u16(data[2 * k - 2], data[2 * k - 1])
    }
}

/// The plain sum of all 16-bit words of `data`, an odd last byte taken as
/// the high byte of a word whose low byte is zero.
pub open spec fn raw_sum(data: Seq<u8>) -> nat {
    word_sum(data, data.len() / 2) + if data.len() % 2 == 1 {
        data[data.len() - 1] as nat * 256
    } else {
        0
    }
}

/// Folds the carries above bit 15 back into the low 16 bits until none is left.
pub open spec fn fold_carries(s: nat) -> nat
    decreases s,
{
    if s < 65536 {
        s
    } else {
        fold_carries(s % 65536 + s / 65536)
    }
}

/// The internet checksum of `data`.
pub open spec fn internet_checksum(data: Seq<u8>) -> u16 {
    (0xFFFF - fold_carries(raw_sum(data))) as u16
}

/// Folding leaves a value of at most 16 bits, congruent to the input modulo
/// 0xFFFF, and zero only for zero.
pub proof fn lemma_fold_carries(s: nat)
    ensures
        fold_carries(s) <= 0xFFFF,
        fold_carries(s) % 0xFFFF == s % 0xFFFF,
        fold_carries(s) == 0 <==> s == 0,
    decreases s,
{
    if s >= 65536 {
        let t = s % 65536 + s / 65536;
        assert(t % 0xFFFF == s % 0xFFFF) by (nonlinear_arith)
            requires
                t == s % 65536 + s / 65536,
        {
            assert(s == 65536 * (s / 65536) + s % 65536);
            assert(s == 0xFFFF * (s / 65536) + t);
        }
        lemma_fold_carries(t);
    }
}

/// Prefix sums of words never decrease.
pub proof fn lemma_word_sum_monotone(data: Seq<u8>, k: nat, m: nat)
    requires
        k <= m,
    ensures
        word_sum(data, k) <= word_sum(data, m),
    decreases m,
{
    if k < m {
        lemma_word_sum_monotone(data, k, (m - 1) as nat);
    }
}

/// Each word is below 0x10000, so a sum of `k` words is at most `k * 0xFFFF`.
pub proof fn lemma_word_sum_bound(data: Seq<u8>, k: nat)
    ensures
        word_sum(data, k) <= 0xFFFF * k,
    decreases k,
{
    if k > 0 {
        lemma_word_sum_bound(data, (k - 1) as nat);
    }
}

/// The sum of data of `n` bytes is at most `0xFFFF` per started word; in
/// particular it fits in 32 bits for up to 131070 bytes.
pub proof fn lemma_raw_sum_bound(data: Seq<u8>)
    ensures
        raw_sum(data) <= 0xFFFF * ((data.len() + 1) / 2),
        data.len() <= 131070 ==> raw_sum(data) <= u32::MAX,
{
    lemma_word_sum_bound(data, data.len() / 2);
    let n = data.len();
    if n <= 131070 {
        assert(0xFFFF * ((n + 1) / 2) <= 0xFFFF * 65535) by (nonlinear_arith)
            requires
                n <= 131070,
        ;
    }
}

/// The prefix sums of words read only the bytes they cover.
proof fn lemma_word_sum_prefix(a: Seq<u8>, b: Seq<u8>, k: nat)
    requires
        2 * k <= a.len(),
        2 * k <= b.len(),
        a.subrange(0, 2 * k as int) == b.subrange(0, 2 * k as int),
    ensures
        word_sum(a, k) == word_sum(b, k),
    decreases k,
{
    if k > 0 {
        assert(a[2 * k - 2] == a.subrange(0, 2 * k as int)[2 * k - 2]);
        assert(a[2 * k - 1] == a.subrange(0, 2 * k as int)[2 * k - 1]);
        assert(b[2 * k - 2] == b.subrange(0, 2 * k as int)[2 * k - 2]);
        assert(b[2 * k - 1] == b.subrange(0, 2 * k as int)[2 * k - 1]);
        assert(a.subrange(0, 2 * (k - 1) as int) =~= a.subrange(0, 2 * k as int).subrange(0, 2 * (k - 1) as int));
        assert(b.subrange(0, 2 * (k - 1) as int) =~= b.subrange(0, 2 * k as int).subrange(0, 2 * (k - 1) as int));
        lemma_word_sum_prefix(a, b, (k - 1) as nat);
    }
}

/// An odd last byte is the high byte of a word whose low byte is zero: after
/// data of even length, a byte `b` adds `b * 256` to the sum, exactly as the
/// bytes `b`, `0` do, so both give the same checksum.
pub proof fn lemma_odd_byte_is_high_byte(d: Seq<u8>, b: u8)
    requires
        d.len() % 2 == 0,
    ensures
        raw_sum(d.push(b)) == raw_sum(d) + b as nat * 256,
        raw_sum(d.push(b).push(0)) == raw_sum(d) + b as nat * 256,
        internet_checksum(d.push(b)) == internet_checksum(d.push(b).push(0)),
{
    let k = d.len() / 2;
    let e = d.push(b);
    let f = d.push(b).push(0);
    assert(e.subrange(0, 2 * k as int) =~= d.subrange(0, 2 * k as int));
    lemma_word_sum_prefix(e, d, k);
    assert(e.len() / 2 == k);
    assert(e[e.len() - 1] == b);
    assert(f.len() / 2 == k + 1);
    assert(f.subrange(0, 2 * k as int) =~= d.subrange(0, 2 * k as int));
    lemma_word_sum_prefix(f, d, k);
    assert(word_sum(f, k + 1) == word_sum(f, k) + be_u16(f[2 * k as int], f[(2 * k + 1) as int]));
}

/// `s` with the big-endian bytes of `v` written at `k` and `k + 1`.
pub open spec fn put_u16(s: Seq<u8>, k: int, v: u16) -> Seq<u8> {
    s.update(k, (v / 256) as u8).update(k + 1, (v % 256) as u8)
}

/// Writing the word `v` over a zero word at word index `j` raises every
/// prefix sum that covers that word by `v`.
proof fn lemma_word_sum_put(s: Seq<u8>, j: int, v: u16, m: nat)
    requires
        0 <= j,
        2 * j + 1 < s.len(),
        2 * m <= s.len(),
        s[2 * j] == 0,
        s[2 * j + 1] == 0,
    ensures
        word_sum(put_u16(s, 2 * j, v), m) == word_sum(s, m) + if m > j { v as nat } else { 0 },
    decreases m,
{
    let t = put_u16(s, 2 * j, v);
    if m > 0 {
        lemma_word_sum_put(s, j, v, (m - 1) as nat);
        if m - 1 == j {
            assert(be_u16(t[2 * m - 2], t[2 * m - 1]) == v as nat);
        } else {
            assert(t[2 * m - 2] == s[2 * m - 2]);
            assert(t[2 * m - 1] == s[2 * m - 1]);
        }
    }
}

/// Writing the word `v` over a zero word at the even offset `k` raises the
/// sum by `v`.
pub proof fn lemma_raw_sum_put(s: Seq<u8>, k: int, v: u16)
    requires
        0 <= k,
        k % 2 == 0,
        k + 1 < s.len(),
        s[k] == 0,
        s[k + 1] == 0,
    ensures
        raw_sum(put_u16(s, k, v)) == raw_sum(s) + v,
{
    let t = put_u16(s, k, v);
    lemma_word_sum_put(s, k / 2, v, (s.len() / 2) as nat);
    if s.len() % 2 == 1 {
        assert(t[s.len() - 1] == s[s.len() - 1]);
    }
}

/// A checksum computed over data whose checksum field is zero, and then
/// written into that field at an even offset, makes the checksum of the
/// whole come out zero: this is how a receiver validates it.
pub proof fn lemma_checksum_validates(s: Seq<u8>, k: int)
    requires
        0 <= k,
        k % 2 == 0,
        k + 1 < s.len(),
        s[k] == 0,
        s[k + 1] == 0,
    ensures
        internet_checksum(put_u16(s, k, internet_checksum(s))) == 0,
{
    let c = internet_checksum(s);
    let a = raw_sum(s);
    lemma_fold_carries(a);
    let f = fold_carries(a);
    assert(c == 0xFFFF - f);
    lemma_raw_sum_put(s, k, c);
    let b = raw_sum(put_u16(s, k, c));
    assert(b == a + c);
    lemma_fold_carries(b);
    assert(b % 0xFFFF == 0) by (nonlinear_arith)
        requires
            b == a + 0xFFFF - f,
            f % 0xFFFF == a % 0xFFFF,
    {
        assert(a == 0xFFFF * (a / 0xFFFF) + a % 0xFFFF);
        assert(f == 0xFFFF * (f / 0xFFFF) + f % 0xFFFF);
        assert(b == 0xFFFF * (a / 0xFFFF - f / 0xFFFF + 1) + 0);
    }
    assert(b > 0);
    assert(fold_carries(b) == 0xFFFF);
}

/// Computes the internet checksum of `data`.
pub fn compute_checksum(data: &[u8]) -> (result: u16)
    requires
        raw_sum(data@) <= u32::MAX,
    ensures
        result == internet_checksum(data@),
{
    let n = data.len();
    let words = n / 2;
    let mut sum: u32 = 0;
    let mut i: usize = 0;
    while i < words
        invariant
            n == data@.len(),
            words == n / 2,
            0 <= i <= words,
            sum == word_sum(data@, i as nat),
            raw_sum(data@) <= u32::MAX,
        decreases words - i,
    {
        let word = (data[2 * i] as u32) * 256 + (data[2 * i + 1] as u32);
        proof {
            lemma_word_sum_monotone(data@, (i + 1) as nat, words as nat);
        }
        sum = sum + word;
        i = i + 1;
    }
    if n % 2 == 1 {
        let byte = data[n - 1];
        assert((byte as u32) << 8 == byte as u32 * 256) by (bit_vector)
            requires
                byte < 256,
        ;
        sum = sum + ((byte as u32) << 8);
    }
    assert(sum == raw_sum(data@));
    let ghost total = sum as nat;
    while (sum >> 16) != 0
        invariant
            fold_carries(sum as nat) == fold_carries(total),
        decreases sum,
    {
        assert(sum & 0xFFFF == sum % 65536 && sum >> 16 == sum / 65536) by (bit_vector);
        assert(sum >> 16 != 0 ==> sum >= 65536) by (bit_vector);
        sum = (sum & 0xFFFF) + (sum >> 16);
    }
    assert(sum >> 16 == 0 ==> sum < 65536) by (bit_vector);
    let folded = sum as u16;
    assert(!folded == 0xFFFF - folded) by (bit_vector);
    !folded
}

} // verus!

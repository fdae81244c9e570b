//! Canonical encoding primitives.
//!
//! Every structured snapshot field is encoded as a deterministic byte
//! sequence (fixed-width little-endian integers, length-prefixed lists)
//! and embedded in text as a `0x`-prefixed lowercase hexadecimal string.
//! The byte and text forms are pure functions of the value alone, and the
//! decoding specs below invert them exactly.

use vstd::prelude::*;
use vstd::arithmetic::div_mod::{
    lemma_div_basics, lemma_div_denominator, lemma_fundamental_div_mod, lemma_multiply_divide_lt,
};
use vstd::string::StringExecFns;

verus! {

// ---------------------------------------------------------------------
// Little-endian byte encoding of bounded natural numbers.
// ---------------------------------------------------------------------

/// The `n` little-endian base-256 digits of `x`.
pub open spec fn le_bytes(x: nat, n: nat) -> Seq<u8>
    decreases n,
{
    if n == 0 {
        Seq::empty()
    } else {
        seq![(x % 256) as u8] + le_bytes(x / 256, (n - 1) as nat)
    }
}

/// The natural number a little-endian byte string denotes.
pub open spec fn le_value(bs: Seq<u8>) -> nat
    decreases bs.len(),
{
    if bs.len() == 0 {
        0
    } else {
        bs[0] as nat + 256 * le_value(bs.drop_first())
    }
}

/// 256 to the power `n`.
pub open spec fn pow256(n: nat) -> nat
    decreases n,
{
    if n == 0 {
        1
    } else {
        256 * pow256((n - 1) as nat)
    }
}

pub open spec fn u32_le(x: u32) -> Seq<u8> {
    le_bytes(x as nat, 4)
}

pub open spec fn u64_le(x: u64) -> Seq<u8> {
    le_bytes(x as nat, 8)
}

pub proof fn lemma_le_bytes_len(x: nat, n: nat)
    ensures
        le_bytes(x, n).len() == n,
    decreases n,
{
    if n > 0 {
        lemma_le_bytes_len(x / 256, (n - 1) as nat);
    }
}

pub proof fn lemma_pow256_pos(n: nat)
    ensures
        pow256(n) >= 1,
    decreases n,
{
    if n > 0 {
        lemma_pow256_pos((n - 1) as nat);
    }
}

/// Decoding the little-endian digits of `x` gives back `x`.
pub proof fn lemma_le_round_trip(x: nat, n: nat)
    requires
        x < pow256(n),
    ensures
        le_value(le_bytes(x, n)) == x,
    decreases n,
{
    if n == 0 {
    } else {
        let rest = le_bytes(x / 256, (n - 1) as nat);
        assert(le_bytes(x, n).drop_first() =~= rest);
        assert(x / 256 < pow256((n - 1) as nat)) by {
            lemma_multiply_divide_lt(x as int, 256, pow256((n - 1) as nat) as int);
        }
        lemma_le_round_trip(x / 256, (n - 1) as nat);
        assert(le_value(le_bytes(x, n)) == (x % 256) + 256 * (x / 256));
        assert(x == 256 * (x / 256) + x % 256) by {
            lemma_fundamental_div_mod(x as int, 256);
        }
    }
}

/// Appending one more little-endian digit extends the encoding on the right.
pub proof fn lemma_le_bytes_snoc(x: nat, i: nat)
    ensures
        le_bytes(x, i + 1) == le_bytes(x, i) + seq![((x / pow256(i)) % 256) as u8],
    decreases i,
{
    if i == 0 {
        assert(x / pow256(0) == x) by {
            lemma_div_basics(x as int);
        }
        assert(le_bytes(x / 256, 0) =~= Seq::<u8>::empty());
        assert(le_bytes(x, 1) =~= seq![(x % 256) as u8]);
        assert(le_bytes(x, 0) =~= Seq::<u8>::empty());
        assert(le_bytes(x, 1) =~= le_bytes(x, 0) + seq![((x / pow256(0)) % 256) as u8]);
    } else {
        lemma_le_bytes_snoc(x / 256, (i - 1) as nat);
        assert((x / 256) / pow256((i - 1) as nat) == x / pow256(i)) by {
            lemma_pow256_pos((i - 1) as nat);
            lemma_div_denominator(x as int, 256, pow256((i - 1) as nat) as int);
        }
        assert(le_bytes(x, i + 1) =~= le_bytes(x, i) + seq![((x / pow256(i)) % 256) as u8]);
    }
}

/// Appends the 8 little-endian bytes of `x` to `out`.
pub fn append_u64_le(out: &mut Vec<u8>, x: u64)
    ensures
        final(out)@ == old(out)@ + u64_le(x),
{
    let ghost start = out@;
    let mut v: u64 = x;
    let mut i: usize = 0;
    proof {
        lemma_div_basics(x as int);
    }
    while i < 8
        invariant
            0 <= i <= 8,
            v as nat == (x as nat) / pow256(i as nat),
            out@ == start + le_bytes(x as nat, i as nat),
        decreases 8 - i,
    {
        out.push((v % 256) as u8);
        proof {
            lemma_le_bytes_snoc(x as nat, i as nat);
            assert((x as nat) / pow256((i + 1) as nat) == (x as nat) / pow256(i as nat) / 256) by {
                lemma_pow256_pos(i as nat);
                lemma_div_denominator(x as int, pow256(i as nat) as int, 256);
            }
        }
        v = v / 256;
        i = i + 1;
    }
}

/// Appends the 4 little-endian bytes of `x` to `out`.
pub fn append_u32_le(out: &mut Vec<u8>, x: u32)
    ensures
        final(out)@ == old(out)@ + u32_le(x),
{
    let ghost start = out@;
    let mut v: u32 = x;
    let mut i: usize = 0;
    proof {
        lemma_div_basics(x as int);
    }
    while i < 4
        invariant
            0 <= i <= 4,
            v as nat == (x as nat) / pow256(i as nat),
            out@ == start + le_bytes(x as nat, i as nat),
        decreases 4 - i,
    {
        out.push((v % 256) as u8);
        proof {
            lemma_le_bytes_snoc(x as nat, i as nat);
            assert((x as nat) / pow256((i + 1) as nat) == (x as nat) / pow256(i as nat) / 256) by {
                lemma_pow256_pos(i as nat);
                lemma_div_denominator(x as int, pow256(i as nat) as int, 256);
            }
        }
        v = v / 256;
        i = i + 1;
    }
}

// ---------------------------------------------------------------------
// Lowercase hexadecimal text.
// ---------------------------------------------------------------------

/// The lowercase hexadecimal digit for a value below 16.
pub open spec fn hex_digit(n: int) -> char {
    if n == 0 { '0' }
    else if n == 1 { '1' }
    else if n == 2 { '2' }
    else if n == 3 { '3' }
    else if n == 4 { '4' }
    else if n == 5 { '5' }
    else if n == 6 { '6' }
    else if n == 7 { '7' }
    else if n == 8 { '8' }
    else if n == 9 { '9' }
    else if n == 10 { 'a' }
    else if n == 11 { 'b' }
    else if n == 12 { 'c' }
    else if n == 13 { 'd' }
    else if n == 14 { 'e' }
    else { 'f' }
}

/// The value a hexadecimal digit denotes, if it is one.
pub open spec fn hex_digit_value(c: char) -> Option<int> {
    if c == '0' { Some(0int) }
    else if c == '1' { Some(1int) }
    else if c == '2' { Some(2int) }
    else if c == '3' { Some(3int) }
    else if c == '4' { Some(4int) }
    else if c == '5' { Some(5int) }
    else if c == '6' { Some(6int) }
    else if c == '7' { Some(7int) }
    else if c == '8' { Some(8int) }
    else if c == '9' { Some(9int) }
    else if c == 'a' { Some(10int) }
    else if c == 'b' { Some(11int) }
    else if c == 'c' { Some(12int) }
    else if c == 'd' { Some(13int) }
    else if c == 'e' { Some(14int) }
    else if c == 'f' { Some(15int) }
    else { None }
}

/// Two lowercase hexadecimal digits per byte, high digit first.
pub open spec fn hex_of_bytes(bs: Seq<u8>) -> Seq<char>
    decreases bs.len(),
{
    if bs.len() == 0 {
        Seq::empty()
    } else {
        seq![hex_digit(bs[0] as int / 16), hex_digit(bs[0] as int % 16)] + hex_of_bytes(
            bs.drop_first(),
        )
    }
}

/// The embedded text form of a byte string: `0x` followed by its digits.
pub open spec fn hex_prefixed(bs: Seq<u8>) -> Seq<char> {
    seq!['0', 'x'] + hex_of_bytes(bs)
}

/// The byte string a digit sequence denotes, if every pair is hexadecimal.
pub open spec fn bytes_of_hex(s: Seq<char>) -> Option<Seq<u8>>
    decreases s.len(),
{
    if s.len() == 0 {
        Some(Seq::empty())
    } else if s.len() == 1 {
        None
    } else {
        match (hex_digit_value(s[0]), hex_digit_value(s[1]), bytes_of_hex(s.skip(2))) {
            (Some(hi), Some(lo), Some(rest)) => Some(seq![(hi * 16 + lo) as u8] + rest),
            _ => None,
        }
    }
}

/// Strips the `0x` prefix and decodes the digits.
pub open spec fn bytes_of_hex_prefixed(s: Seq<char>) -> Option<Seq<u8>> {
    if s.len() >= 2 && s[0] == '0' && s[1] == 'x' {
        bytes_of_hex(s.skip(2))
    } else {
        None
    }
}

/// Decoding inverts the hexadecimal digit encoding.
pub proof fn lemma_hex_digits_invert(n: int)
    requires
        0 <= n < 16,
    ensures
        hex_digit_value(hex_digit(n)) == Some(n),
{
}

/// Decoding the hexadecimal digits of a byte string gives it back.
pub proof fn lemma_hex_round_trip(bs: Seq<u8>)
    ensures
        bytes_of_hex(hex_of_bytes(bs)) == Some(bs),
    decreases bs.len(),
{
    if bs.len() == 0 {
        assert(bytes_of_hex(hex_of_bytes(bs)) =~= Some(Seq::<u8>::empty()));
        assert(Seq::<u8>::empty() =~= bs);
    } else {
        let b = bs[0] as int;
        let s = hex_of_bytes(bs);
        assert(s.len() >= 2) by {
            lemma_hex_of_bytes_len(bs.drop_first());
        }
        assert(s.skip(2) =~= hex_of_bytes(bs.drop_first()));
        lemma_hex_round_trip(bs.drop_first());
        lemma_hex_digits_invert(b / 16);
        lemma_hex_digits_invert(b % 16);
        assert(b == 16 * (b / 16) + b % 16) by {
            lemma_fundamental_div_mod(b, 16);
        }
        assert(((b / 16) * 16 + b % 16) as u8 == bs[0]);
        assert(bytes_of_hex(s).unwrap() =~= bs);
    }
}

/// Decoding the prefixed text of a byte string gives it back.
pub proof fn lemma_hex_prefixed_round_trip(bs: Seq<u8>)
    ensures
        bytes_of_hex_prefixed(hex_prefixed(bs)) == Some(bs),
{
    assert(hex_prefixed(bs).skip(2) =~= hex_of_bytes(bs));
    lemma_hex_round_trip(bs);
}

pub proof fn lemma_hex_of_bytes_len(bs: Seq<u8>)
    ensures
        hex_of_bytes(bs).len() == 2 * bs.len(),
    decreases bs.len(),
{
    if bs.len() > 0 {
        lemma_hex_of_bytes_len(bs.drop_first());
    }
}

/// Appending a byte appends its two digits.
pub proof fn lemma_hex_of_bytes_snoc(bs: Seq<u8>, b: u8)
    ensures
        hex_of_bytes(bs + seq![b]) == hex_of_bytes(bs) + seq![
            hex_digit(b as int / 16),
            hex_digit(b as int % 16),
        ],
    decreases bs.len(),
{
    if bs.len() == 0 {
        let q = seq![hex_digit(b as int / 16), hex_digit(b as int % 16)];
        let s1 = seq![b];
        assert(bs + seq![b] =~= s1);
        assert(s1.drop_first() =~= Seq::<u8>::empty());
        assert(hex_of_bytes(Seq::<u8>::empty()) == Seq::<char>::empty());
        assert(hex_of_bytes(s1) == q + hex_of_bytes(s1.drop_first()));
        assert(q + Seq::<char>::empty() =~= q);
        assert(hex_of_bytes(bs) == Seq::<char>::empty());
        assert(Seq::<char>::empty() + q =~= q);
        assert(hex_of_bytes(bs + seq![b]) == hex_of_bytes(bs) + q);
    } else {
        let e = bs + seq![b];
        let p = seq![hex_digit(bs[0] as int / 16), hex_digit(bs[0] as int % 16)];
        let q = seq![hex_digit(b as int / 16), hex_digit(b as int % 16)];
        let r = hex_of_bytes(bs.drop_first());
        assert(e[0] == bs[0]);
        assert(e.drop_first() =~= bs.drop_first() + seq![b]);
        lemma_hex_of_bytes_snoc(bs.drop_first(), b);
        assert(hex_of_bytes(e) == p + (r + q));
        assert(hex_of_bytes(bs) == p + r);
        assert(p + (r + q) =~= (p + r) + q);
        assert(hex_of_bytes(bs + seq![b]) == hex_of_bytes(bs) + q);
    }
}

/// A single lowercase hexadecimal digit as text.
fn hex_digit_str(d: u8) -> (r: &'static str)
    requires
        d < 16,
    ensures
        r@ == seq![hex_digit(d as int)],
{
    let r: &'static str = if d == 0 { "0" }
    else if d == 1 { "1" }
    else if d == 2 { "2" }
    else if d == 3 { "3" }
    else if d == 4 { "4" }
    else if d == 5 { "5" }
    else if d == 6 { "6" }
    else if d == 7 { "7" }
    else if d == 8 { "8" }
    else if d == 9 { "9" }
    else if d == 10 { "a" }
    else if d == 11 { "b" }
    else if d == 12 { "c" }
    else if d == 13 { "d" }
    else if d == 14 { "e" }
    else { "f" };
    proof {
        reveal_strlit("0");
        reveal_strlit("1");
        reveal_strlit("2");
        reveal_strlit("3");
        reveal_strlit("4");
        reveal_strlit("5");
        reveal_strlit("6");
        reveal_strlit("7");
        reveal_strlit("8");
        reveal_strlit("9");
        reveal_strlit("a");
        reveal_strlit("b");
        reveal_strlit("c");
        reveal_strlit("d");
        reveal_strlit("e");
        reveal_strlit("f");
        assert(r@ =~= seq![hex_digit(d as int)]);
    }
    r
}

/// The `0x`-prefixed lowercase hexadecimal text of a byte string.
pub fn encode_hex(bs: &Vec<u8>) -> (r: String)
    ensures
        r@ == hex_prefixed(bs@),
{
    let mut s = String::from_str("0x");
    proof {
        reveal_strlit("0x");
        assert(s@ =~= seq!['0', 'x']);
        assert(bs@.take(0) =~= Seq::<u8>::empty());
    }
    let mut i: usize = 0;
    while i < bs.len()
        invariant
            0 <= i <= bs@.len(),
            s@ == seq!['0', 'x'] + hex_of_bytes(bs@.take(i as int)),
        decreases bs@.len() - i,
    {
        let b = bs[i];
        s.append(hex_digit_str(b / 16));
        s.append(hex_digit_str(b % 16));
        proof {
            assert(bs@.take(i + 1) =~= bs@.take(i as int) + seq![bs@[i as int]]);
            lemma_hex_of_bytes_snoc(bs@.take(i as int), bs@[i as int]);
        }
        i = i + 1;
    }
    proof {
        assert(bs@.take(bs@.len() as int) =~= bs@);
    }
    s
}

// ---------------------------------------------------------------------
// Decimal text for the block weight.
// ---------------------------------------------------------------------

/// The decimal digit for a value below 10.
pub open spec fn dec_digit(n: int) -> char {
    if n == 0 { '0' }
    else if n == 1 { '1' }
    else if n == 2 { '2' }
    else if n == 3 { '3' }
    else if n == 4 { '4' }
    else if n == 5 { '5' }
    else if n == 6 { '6' }
    else if n == 7 { '7' }
    else if n == 8 { '8' }
    else { '9' }
}

/// The decimal text of a natural number, no leading zeros.
pub open spec fn dec_of(n: nat) -> Seq<char>
    decreases n,
{
    if n < 10 {
        seq![dec_digit(n as int)]
    } else {
        dec_of(n / 10) + seq![dec_digit((n % 10) as int)]
    }
}

/// A single decimal digit as text.
fn dec_digit_str(d: u64) -> (r: &'static str)
    requires
        d < 10,
    ensures
        r@ == seq![dec_digit(d as int)],
{
    let r: &'static str = if d == 0 { "0" }
    else if d == 1 { "1" }
    else if d == 2 { "2" }
    else if d == 3 { "3" }
    else if d == 4 { "4" }
    else if d == 5 { "5" }
    else if d == 6 { "6" }
    else if d == 7 { "7" }
    else if d == 8 { "8" }
    else { "9" };
    proof {
        reveal_strlit("0");
        reveal_strlit("1");
        reveal_strlit("2");
        reveal_strlit("3");
        reveal_strlit("4");
        reveal_strlit("5");
        reveal_strlit("6");
        reveal_strlit("7");
        reveal_strlit("8");
        reveal_strlit("9");
        assert(r@ =~= seq![dec_digit(d as int)]);
    }
    r
}

/// The decimal text of `n`.
pub fn encode_decimal(n: u64) -> (r: String)
    ensures
        r@ == dec_of(n as nat),
    decreases n,
{
    if n < 10 {
        String::from_str(dec_digit_str(n))
    } else {
        let mut s = encode_decimal(n / 10);
        s.append(dec_digit_str(n % 10));
        s
    }
}

} // verus!

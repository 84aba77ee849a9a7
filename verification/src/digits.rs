//! Digit sequences for numeric entity payloads.
//!
//! A numeric entity carries its code point as a decimal (`&#60;`) or
//! hexadecimal (`&#x3c;`) payload. This module gives the mathematical
//! meaning of such payloads (`radix_val`), the canonical payload of a
//! value (`dec_digits_of`, `hex_digits_of`), and verified converters
//! between the two.

use vstd::prelude::*;

verus! {

/// True for an ASCII decimal digit `0..=9`.
pub open spec fn is_dec_digit(b: u8) -> bool {
    0x30 <= b <= 0x39
}

/// True for an ASCII hexadecimal digit, either case.
pub open spec fn is_hex_digit(b: u8) -> bool {
    ||| 0x30 <= b <= 0x39
    ||| 0x61 <= b <= 0x66
    ||| 0x41 <= b <= 0x46
}

/// Numeric value of a digit byte; decimal digits and both hexadecimal cases.
pub open spec fn digit_val(b: u8) -> int {
    if 0x30 <= b <= 0x39 {
        b - 0x30
    } else if 0x61 <= b <= 0x66 {
        b - 0x61 + 10
    } else if 0x41 <= b <= 0x46 {
        b - 0x41 + 10
    } else {
        0
    }
}

/// True when every byte of `s` is a decimal digit.
pub open spec fn all_dec_digits(s: Seq<u8>) -> bool {
    forall|i: int| 0 <= i < s.len() ==> is_dec_digit(#[trigger] s[i])
}

/// True when every byte of `s` is a hexadecimal digit.
pub open spec fn all_hex_digits(s: Seq<u8>) -> bool {
    forall|i: int| 0 <= i < s.len() ==> is_hex_digit(#[trigger] s[i])
}

/// The value of the digit string `s` read in base `radix`.
/// Leading zeros do not change the value.
pub open spec fn radix_val(s: Seq<u8>, radix: int) -> int
    decreases s.len(),
{
    if s.len() == 0 {
        0
    } else {
        radix_val(s.drop_last(), radix) * radix + digit_val(s.last())
    }
}

/// The decimal digit byte for a value `0..=9`.
pub open spec fn dec_digit_of(d: int) -> u8 {
    (0x30 + d) as u8
}

/// The lowercase hexadecimal digit byte for a value `0..=15`.
pub open spec fn hex_digit_of(d: int) -> u8 {
    if d < 10 {
        (0x30 + d) as u8
    } else {
        (0x61 + (d - 10)) as u8
    }
}

/// The canonical decimal payload of `n`: base 10, no leading zeros.
pub open spec fn dec_digits_of(n: int) -> Seq<u8>
    recommends
        n >= 0,
    decreases n,
{
    if n < 10 {
        seq![dec_digit_of(n)]
    } else {
        dec_digits_of(n / 10).push(dec_digit_of(n % 10))
    }
}

/// The canonical hexadecimal payload of `n`: lowercase, no leading zeros.
pub open spec fn hex_digits_of(n: int) -> Seq<u8>
    recommends
        n >= 0,
    decreases n,
{
    if n < 16 {
        seq![hex_digit_of(n)]
    } else {
        hex_digits_of(n / 16).push(hex_digit_of(n % 16))
    }
}

/// The canonical decimal payload consists of decimal digits and reads
/// back to the value it was made from.
pub proof fn lemma_dec_digits_of(n: int)
    requires
        n >= 0,
    ensures
        dec_digits_of(n).len() >= 1,
        all_dec_digits(dec_digits_of(n)),
        radix_val(dec_digits_of(n), 10) == n,
    decreases n,
{
    if n < 10 {
        assert(dec_digits_of(n) =~= seq![dec_digit_of(n)]);
        assert(dec_digits_of(n).drop_last() =~= Seq::<u8>::empty());
        assert(radix_val(Seq::<u8>::empty(), 10) == 0);
    } else {
        lemma_dec_digits_of(n / 10);
        let s = dec_digits_of(n);
        assert(s.drop_last() =~= dec_digits_of(n / 10));
        assert(forall|i: int|
            0 <= i < s.len() ==> is_dec_digit(#[trigger] s[i])) by {
            assert(forall|i: int|
                0 <= i < s.len() - 1 ==> s[i] == dec_digits_of(n / 10)[i]);
        }
        assert(radix_val(s, 10) == n / 10 * 10 + n % 10);
    }
}

/// The canonical hexadecimal payload consists of lowercase hexadecimal
/// digits and reads back to the value it was made from.
pub proof fn lemma_hex_digits_of(n: int)
    requires
        n >= 0,
    ensures
        hex_digits_of(n).len() >= 1,
        all_hex_digits(hex_digits_of(n)),
        radix_val(hex_digits_of(n), 16) == n,
    decreases n,
{
    if n < 16 {
        assert(hex_digits_of(n) =~= seq![hex_digit_of(n)]);
        assert(hex_digits_of(n).drop_last() =~= Seq::<u8>::empty());
        assert(radix_val(Seq::<u8>::empty(), 16) == 0);
    } else {
        lemma_hex_digits_of(n / 16);
        let s = hex_digits_of(n);
        assert(s.drop_last() =~= hex_digits_of(n / 16));
        assert(forall|i: int|
            0 <= i < s.len() ==> is_hex_digit(#[trigger] s[i])) by {
            assert(forall|i: int|
                0 <= i < s.len() - 1 ==> s[i] == hex_digits_of(n / 16)[i]);
        }
        assert(radix_val(s, 16) == n / 16 * 16 + n % 16);
    }
}

/// A digit string never reads to a negative value.
pub proof fn lemma_radix_val_nonneg(s: Seq<u8>, radix: int)
    requires
        radix == 10 || radix == 16,
    ensures
        radix_val(s, radix) >= 0,
    decreases s.len(),
{
    if s.len() > 0 {
        lemma_radix_val_nonneg(s.drop_last(), radix);
    }
}

/// Prepending a zero digit does not change the value of a digit string.
pub proof fn lemma_radix_val_leading_zero(s: Seq<u8>, radix: int)
    requires
        radix == 10 || radix == 16,
    ensures
        radix_val(seq![0x30u8] + s, radix) == radix_val(s, radix),
    decreases s.len(),
{
    let z = seq![0x30u8];
    if s.len() == 0 {
        assert(z + s =~= z);
        assert((z + s).drop_last() =~= Seq::<u8>::empty());
        assert(radix_val(Seq::<u8>::empty(), radix) == 0);
    } else {
        lemma_radix_val_leading_zero(s.drop_last(), radix);
        assert((z + s).drop_last() =~= z + s.drop_last());
        assert((z + s).last() == s.last());
    }
}

/// Any number of leading zero digits may be stripped without changing the
/// value of a digit string.
pub proof fn lemma_radix_val_strip_zeros(zeros: Seq<u8>, s: Seq<u8>, radix: int)
    requires
        radix == 10 || radix == 16,
        forall|i: int| 0 <= i < zeros.len() ==> zeros[i] == 0x30u8,
    ensures
        radix_val(zeros + s, radix) == radix_val(s, radix),
    decreases zeros.len(),
{
    if zeros.len() == 0 {
        assert(zeros + s =~= s);
    } else {
        let rest = zeros.drop_first();
        assert(zeros + s =~= seq![0x30u8] + (rest + s));
        lemma_radix_val_leading_zero(rest + s, radix);
        lemma_radix_val_strip_zeros(rest, s, radix);
    }
}

/// The canonical decimal payload of `n`, as bytes.
pub fn u32_to_dec_bytes(n: u32) -> (v: Vec<u8>)
    ensures
        v@ == dec_digits_of(n as int),
    decreases n,
{
    if n < 10 {
        let mut v: Vec<u8> = Vec::new();
        v.push(0x30u8 + (n as u8));
        proof {
            assert(v@ =~= seq![dec_digit_of(n as int)]);
        }
        v
    } else {
        let mut v = u32_to_dec_bytes(n / 10);
        v.push(0x30u8 + ((n % 10) as u8));
        proof {
            assert(v@ =~= dec_digits_of(n as int / 10).push(dec_digit_of(n as int % 10)));
        }
        v
    }
}

/// The canonical lowercase hexadecimal payload of `n`, as bytes.
pub fn u32_to_hex_bytes(n: u32) -> (v: Vec<u8>)
    ensures
        v@ == hex_digits_of(n as int),
    decreases n,
{
    if n < 16 {
        let d = n as u8;
        let b: u8 = if d < 10 {
            0x30u8 + d
        } else {
            0x61u8 + (d - 10)
        };
        let mut v: Vec<u8> = Vec::new();
        v.push(b);
        proof {
            assert(v@ =~= seq![hex_digit_of(n as int)]);
        }
        v
    } else {
        let mut v = u32_to_hex_bytes(n / 16);
        let d = (n % 16) as u8;
        let b: u8 = if d < 10 {
            0x30u8 + d
        } else {
            0x61u8 + (d - 10)
        };
        v.push(b);
        proof {
            assert(v@ =~= hex_digits_of(n as int / 16).push(hex_digit_of(n as int % 16)));
        }
        v
    }
}

/// The clamped value of a digit string: its exact value when that value
/// is a possible code point, and `0x110000` otherwise.
pub open spec fn clamped_val(s: Seq<u8>, radix: int) -> int {
    if radix_val(s, radix) > 0x10FFFF {
        0x110000
    } else {
        radix_val(s, radix)
    }
}

/// Reads the digit bytes `s` in the base named by `hex`, clamping the
/// result at `0x110000` so that over-long payloads cannot overflow.
pub fn parse_digits_clamped(s: &[u8], hex: bool) -> (r: u32)
    requires
        hex ==> all_hex_digits(s@),
        !hex ==> all_dec_digits(s@),
    ensures
        r == clamped_val(s@, if hex { 16int } else { 10int }),
{
    let ghost radix: int = if hex { 16int } else { 10int };
    let mut acc: u32 = 0;
    let mut i: usize = 0;
    let n = s.len();
    while i < n
        invariant
            0 <= i <= n,
            n == s@.len(),
            hex ==> all_hex_digits(s@),
            !hex ==> all_dec_digits(s@),
            radix == (if hex { 16int } else { 10int }),
            acc == clamped_val(s@.subrange(0, i as int), radix),
            acc <= 0x110000,
        decreases n - i,
    {
        let b = s[i];
        let d: u32 = if b >= 0x61 {
            (b - 0x61) as u32 + 10
        } else if b >= 0x41 {
            (b - 0x41) as u32 + 10
        } else {
            (b - 0x30) as u32
        };
        proof {
            assert(d == digit_val(s@[i as int]));
            lemma_radix_val_nonneg(s@.subrange(0, i as int), radix);
        }
        let step: u32 = if hex {
            acc * 16 + d
        } else {
            acc * 10 + d
        };
        let next: u32 = if step > 0x10FFFF {
            0x110000
        } else {
            step
        };
        proof {
            let prefix = s@.subrange(0, i as int);
            let prefix1 = s@.subrange(0, i as int + 1);
            assert(prefix1.drop_last() =~= prefix);
            assert(prefix1.last() == s@[i as int]);
            assert(radix_val(prefix1, radix) == radix_val(prefix, radix) * radix + d);
            if radix_val(prefix, radix) > 0x10FFFF {
                lemma_radix_val_nonneg(prefix, radix);
                assert(radix_val(prefix1, radix) > 0x10FFFF);
            }
        }
        acc = next;
        i = i + 1;
    }
    proof {
        assert(s@.subrange(0, n as int) =~= s@);
    }
    acc
}

} // verus!

//! The revision fingerprint: a cheap, deterministic 64-bit digest
//! (Fowler–Noll–Vo, variant 1a) folded over the identity and modification
//! stamps that a scan observes, rendered as 16 hex digits. It is a freshness
//! signal for change detection, not a cryptographic hash.

use vstd::prelude::*;
use vstd::string::StringExecFns;
use crate::strutil::{lower_char, lower_seq};

verus! {

pub const FNV_OFFSET: u64 = 0xcbf29ce484222325;

pub const FNV_PRIME: u64 = 0x100000001b3;

/// One FNV-1a step: xor the byte in, multiply by the prime (wrapping).
pub open spec fn fold_byte(h: u64, b: u8) -> u64 {
    vstd::wrapping::u64_specs::wrapping_mul(h ^ (b as u64), FNV_PRIME)
}

/// Executable [`fold_byte`].
pub fn fp_fold_byte(h: u64, b: u8) -> (r: u64)
    ensures
        r == fold_byte(h, b),
{
    (h ^ (b as u64)).wrapping_mul(FNV_PRIME)
}

/// Fold the eight little-endian bytes of `v`.
pub open spec fn fold_u64(h: u64, v: u64) -> u64 {
    let h0 = fold_byte(h, (v & 0xff) as u8);
    let h1 = fold_byte(h0, ((v >> 8) & 0xff) as u8);
    let h2 = fold_byte(h1, ((v >> 16) & 0xff) as u8);
    let h3 = fold_byte(h2, ((v >> 24) & 0xff) as u8);
    let h4 = fold_byte(h3, ((v >> 32) & 0xff) as u8);
    let h5 = fold_byte(h4, ((v >> 40) & 0xff) as u8);
    let h6 = fold_byte(h5, ((v >> 48) & 0xff) as u8);
    fold_byte(h6, ((v >> 56) & 0xff) as u8)
}

/// Executable [`fold_u64`].
pub fn fp_fold_u64(h: u64, v: u64) -> (r: u64)
    ensures
        r == fold_u64(h, v),
{
    let mut r = fp_fold_byte(h, (v & 0xff) as u8);
    r = fp_fold_byte(r, ((v >> 8u64) & 0xff) as u8);
    r = fp_fold_byte(r, ((v >> 16u64) & 0xff) as u8);
    r = fp_fold_byte(r, ((v >> 24u64) & 0xff) as u8);
    r = fp_fold_byte(r, ((v >> 32u64) & 0xff) as u8);
    r = fp_fold_byte(r, ((v >> 40u64) & 0xff) as u8);
    r = fp_fold_byte(r, ((v >> 48u64) & 0xff) as u8);
    fp_fold_byte(r, ((v >> 56u64) & 0xff) as u8)
}

/// Fold the four little-endian bytes of one character's code point.
pub open spec fn fold_char(h: u64, c: char) -> u64 {
    let v = c as u32;
    let h0 = fold_byte(h, (v & 0xff) as u8);
    let h1 = fold_byte(h0, ((v >> 8) & 0xff) as u8);
    let h2 = fold_byte(h1, ((v >> 16) & 0xff) as u8);
    fold_byte(h2, ((v >> 24) & 0xff) as u8)
}

/// Executable [`fold_char`].
pub fn fp_fold_char(h: u64, c: char) -> (r: u64)
    ensures
        r == fold_char(h, c),
{
    let v = c as u32;
    let mut r = fp_fold_byte(h, (v & 0xff) as u8);
    r = fp_fold_byte(r, ((v >> 8u32) & 0xff) as u8);
    r = fp_fold_byte(r, ((v >> 16u32) & 0xff) as u8);
    fp_fold_byte(r, ((v >> 24u32) & 0xff) as u8)
}

/// Fold a character sequence, character by character.
pub open spec fn fold_chars(h: u64, s: Seq<char>) -> u64
    decreases s.len(),
{
    if s.len() == 0 {
        h
    } else {
        fold_char(fold_chars(h, s.drop_last()), s[s.len() - 1])
    }
}

/// Fold a string field: its characters lower-cased, then a terminator byte
/// that keeps adjacent fields from running together.
pub open spec fn fold_str_ci(h: u64, s: Seq<char>) -> u64 {
    fold_byte(fold_chars(h, lower_seq(s)), 0xff)
}

/// Executable [`fold_str_ci`].
pub fn fp_fold_str_ci(h: u64, s: &str) -> (r: u64)
    ensures
        r == fold_str_ci(h, s@),
{
    let n = s.unicode_len();
    let mut r = h;
    let mut i: usize = 0;
    while i < n
        invariant
            n == s@.len(),
            i <= n,
            r == fold_chars(h, lower_seq(s@).take(i as int)),
        decreases n - i,
    {
        r = fp_fold_char(r, crate::strutil::char_to_lower(s.get_char(i)));
        i = i + 1;
        proof {
            assert(lower_seq(s@).take(i as int).drop_last() =~= lower_seq(s@).take(i - 1));
            assert(lower_seq(s@).take(i as int)[i - 1] == lower_char(s@[i - 1]));
        }
    }
    proof {
        assert(lower_seq(s@).take(n as int) =~= lower_seq(s@));
    }
    fp_fold_byte(r, 0xff)
}

/// Fold a string field exactly (case kept), then a terminator byte.
pub open spec fn fold_str(h: u64, s: Seq<char>) -> u64 {
    fold_byte(fold_chars(h, s), 0xff)
}

/// Executable [`fold_str`].
pub fn fp_fold_str(h: u64, s: &str) -> (r: u64)
    ensures
        r == fold_str(h, s@),
{
    let n = s.unicode_len();
    let mut r = h;
    let mut i: usize = 0;
    while i < n
        invariant
            n == s@.len(),
            i <= n,
            r == fold_chars(h, s@.take(i as int)),
        decreases n - i,
    {
        r = fp_fold_char(r, s.get_char(i));
        i = i + 1;
        proof {
            assert(s@.take(i as int).drop_last() =~= s@.take(i - 1));
        }
    }
    proof {
        assert(s@.take(n as int) =~= s@);
    }
    fp_fold_byte(r, 0xff)
}

/// The hex digit for one value below 16.
pub open spec fn hex_digit(v: int) -> char {
    if v == 0 {
        '0'
    } else if v == 1 {
        '1'
    } else if v == 2 {
        '2'
    } else if v == 3 {
        '3'
    } else if v == 4 {
        '4'
    } else if v == 5 {
        '5'
    } else if v == 6 {
        '6'
    } else if v == 7 {
        '7'
    } else if v == 8 {
        '8'
    } else if v == 9 {
        '9'
    } else if v == 10 {
        'a'
    } else if v == 11 {
        'b'
    } else if v == 12 {
        'c'
    } else if v == 13 {
        'd'
    } else if v == 14 {
        'e'
    } else {
        'f'
    }
}

/// A 64-bit value as 16 hex digits, most significant first.
pub open spec fn hex16(v: u64) -> Seq<char> {
    Seq::new(16, |i: int| hex_digit(((v >> ((4 * (15 - i)) as u64)) & 0xf) as int))
}

/// One hex digit as a string slice.
pub fn hex_digit_str(d: u64) -> (r: &'static str)
    requires
        d < 16,
    ensures
        r@.len() == 1,
        r@[0] == hex_digit(d as int),
{
    proof {
        reveal_strlit("0");
        reveal_strlit("1");
        reveal_strlit("2");
        reveal_strlit("3");
        reveal_strlit("4");
        reveal_strlit("5");
        reveal_strlit("6");
        reveal_strlit("7");
        reveal_strlit("8");
        reveal_strlit("9");
        reveal_strlit("a");
        reveal_strlit("b");
        reveal_strlit("c");
        reveal_strlit("d");
        reveal_strlit("e");
        reveal_strlit("f");
    }
    if d == 0 {
        "0"
    } else if d == 1 {
        "1"
    } else if d == 2 {
        "2"
    } else if d == 3 {
        "3"
    } else if d == 4 {
        "4"
    } else if d == 5 {
        "5"
    } else if d == 6 {
        "6"
    } else if d == 7 {
        "7"
    } else if d == 8 {
        "8"
    } else if d == 9 {
        "9"
    } else if d == 10 {
        "a"
    } else if d == 11 {
        "b"
    } else if d == 12 {
        "c"
    } else if d == 13 {
        "d"
    } else if d == 14 {
        "e"
    } else {
        "f"
    }
}

/// The fixed-width hex rendering of an accumulated digest.
pub fn u64_to_hex16(v: u64) -> (r: String)
    ensures
        r@ == hex16(v),
{
    let mut r = String::new();
    let mut i: usize = 0;
    while i < 16
        invariant
            i <= 16,
            r@ == hex16(v).take(i as int),
        decreases 16 - i,
    {
        let shift: u64 = 4 * (15 - (i as u64));
        let d = (v >> shift) & 0xf;
        assert((v >> shift) & 0xf < 16) by (bit_vector);
        r.append(hex_digit_str(d));
        i = i + 1;
        proof {
            assert(r@ =~= hex16(v).take(i as int));
        }
    }
    proof {
        assert(hex16(v).take(16) =~= hex16(v));
    }
    r
}


/// A byte sequence as lowercase hex, two digits per byte.
pub open spec fn hex_of_bytes(s: Seq<u8>) -> Seq<char> {
    Seq::new(
        2 * s.len(),
        |i: int|
            if i % 2 == 0 {
                hex_digit((s[i / 2] >> 4) as int)
            } else {
                hex_digit((s[i / 2] & 0xf) as int)
            },
    )
}

/// The hex rendering of a byte vector.
pub fn bytes_to_hex(b: &Vec<u8>) -> (r: String)
    ensures
        r@ == hex_of_bytes(b@),
{
    let mut r = String::new();
    let n = b.len();
    let mut i: usize = 0;
    proof {
        assert(r@ =~= hex_of_bytes(b@).take(0));
    }
    while i < n
        invariant
            n == b@.len(),
            i <= n,
            r@ == hex_of_bytes(b@).take(2 * i),
        decreases n - i,
    {
        let by: u8 = b[i];
        let hi = (by >> 4u8) as u64;
        let lo = (by & 0xf) as u64;
        assert(by >> 4 < 16 && by & 0xf < 16) by (bit_vector);
        r.append(hex_digit_str(hi));
        r.append(hex_digit_str(lo));
        i = i + 1;
        proof {
            assert(r@ =~= hex_of_bytes(b@).take(2 * i));
        }
    }
    proof {
        assert(hex_of_bytes(b@).take(2 * n) =~= hex_of_bytes(b@));
    }
    r
}

} // verus!

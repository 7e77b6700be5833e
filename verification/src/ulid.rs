//! ULID: a 128-bit lexicographically sortable identifier.
//!
//! The value packs a 48-bit millisecond timestamp above 80 bits of
//! randomness; the text form writes the value as 26 Crockford Base32
//! characters, most significant digit first, so the text orders exactly
//! as the integers do.

use vstd::prelude::*;
use vstd::arithmetic::div_mod::lemma_mod_bound;
use vstd::arithmetic::power::pow;
use vstd::arithmetic::power::lemma_pow_multiplies;
use vstd::arithmetic::power2::pow2;
use vstd::arithmetic::power2::lemma_pow2;
use vstd::arithmetic::power2::lemma_pow2_adds;
use vstd::arithmetic::power2::lemma2_to64;
use crate::clock::current_millis;
use crate::digits::chars_to_string;
use crate::digits::digits;
use crate::digits::lemma_digits_in_range;
use crate::digits::lemma_digits_len;
use crate::digits::lemma_digits_order;
use crate::digits::lemma_lex_lt_map;
use crate::digits::lex_lt_chars;
use crate::entropy::random_u128;

verus! {

/// Crockford's Base32 alphabet: the decimal digits, then the uppercase
/// letters with I, L, O and U left out. The table is strictly increasing,
/// which makes the text encoding order-preserving.
pub open spec fn crockford_char(d: int) -> char {
    if d == 0 { '0' }
    else if d == 1 { '1' }
    else if d == 2 { '2' }
    else if d == 3 { '3' }
    else if d == 4 { '4' }
    else if d == 5 { '5' }
    else if d == 6 { '6' }
    else if d == 7 { '7' }
    else if d == 8 { '8' }
    else if d == 9 { '9' }
    else if d == 10 { 'A' }
    else if d == 11 { 'B' }
    else if d == 12 { 'C' }
    else if d == 13 { 'D' }
    else if d == 14 { 'E' }
    else if d == 15 { 'F' }
    else if d == 16 { 'G' }
    else if d == 17 { 'H' }
    else if d == 18 { 'J' }
    else if d == 19 { 'K' }
    else if d == 20 { 'M' }
    else if d == 21 { 'N' }
    else if d == 22 { 'P' }
    else if d == 23 { 'Q' }
    else if d == 24 { 'R' }
    else if d == 25 { 'S' }
    else if d == 26 { 'T' }
    else if d == 27 { 'V' }
    else if d == 28 { 'W' }
    else if d == 29 { 'X' }
    else if d == 30 { 'Y' }
    else { 'Z' }
}

/// Membership in the Crockford Base32 alphabet.
pub open spec fn is_crockford_char(c: char) -> bool {
    exists|d: int| 0 <= d < 32 && c == crockford_char(d)
}

/// The canonical text of a 128-bit value: its last `n` Base32 digits,
/// most significant first.
pub open spec fn base32_chars(v: int, n: nat) -> Seq<char> {
    digits(v, 32, n).map_values(|d: int| crockford_char(d))
}

/// The 26-character ULID text of a 128-bit value. 26 digits cover 130
/// bits, so no value is truncated.
pub open spec fn ulid_chars(id: u128) -> Seq<char> {
    base32_chars(id as int, 26)
}

/// The 128-bit value built from a millisecond timestamp and 80 random
/// bits: the low 48 bits of the timestamp sit above the low 80 bits of
/// the randomness.
pub open spec fn ulid_value(timestamp_ms: u64, randomness: u128) -> int {
    (timestamp_ms % 0x1000000000000) * 0x100000000000000000000 + (
    randomness % 0x100000000000000000000)
}

/// A ULID: a 128-bit unsigned integer identity.
pub struct Ulid {
    pub id: u128,
}

fn crockford_digit(d: u128) -> (c: char)
    requires
        d < 32,
    ensures
        c == crockford_char(d as int),
{
    match d {
        0 => '0',
        1 => '1',
        2 => '2',
        3 => '3',
        4 => '4',
        5 => '5',
        6 => '6',
        7 => '7',
        8 => '8',
        9 => '9',
        10 => 'A',
        11 => 'B',
        12 => 'C',
        13 => 'D',
        14 => 'E',
        15 => 'F',
        16 => 'G',
        17 => 'H',
        18 => 'J',
        19 => 'K',
        20 => 'M',
        21 => 'N',
        22 => 'P',
        23 => 'Q',
        24 => 'R',
        25 => 'S',
        26 => 'T',
        27 => 'V',
        28 => 'W',
        29 => 'X',
        30 => 'Y',
        _ => 'Z',
    }
}

/// The last `n` Base32 digits of `v`, most significant first.
fn encode_base32(v: u128, n: u8) -> (r: Vec<char>)
    ensures
        r@ == base32_chars(v as int, n as nat),
    decreases n,
{
    if n == 0 {
        let r: Vec<char> = Vec::new();
        proof {
            assert(r@ =~= base32_chars(v as int, 0));
        }
        r
    } else {
        let mut r = encode_base32(v / 32, n - 1);
        let c = crockford_digit(v % 32);
        r.push(c);
        proof {
            lemma_digits_len(v as int / 32, 32, (n - 1) as nat);
            lemma_digits_len(v as int, 32, n as nat);
            assert(r@ =~= base32_chars(v as int, n as nat));
        }
        r
    }
}

impl Ulid {
    /// Packs the low 48 bits of a millisecond timestamp above the low 80
    /// bits of the given randomness.
    pub fn from_parts(timestamp_ms: u64, randomness: u128) -> (r: Ulid)
        ensures
            r.id == ulid_value(timestamp_ms, randomness),
    {
        let t = timestamp_ms as u128;
        let id = ((t & 0xFFFF_FFFF_FFFF) << 80) | (randomness & 0xFFFF_FFFF_FFFF_FFFF_FFFF);
        proof {
            assert(((t & 0xFFFF_FFFF_FFFF) << 80) | (randomness & 0xFFFF_FFFF_FFFF_FFFF_FFFF) == (
            t % 0x1000000000000) * 0x100000000000000000000 + (
            randomness % 0x100000000000000000000)) by (bit_vector);
        }
        Ulid { id }
    }

    /// A fresh ULID for the current wall-clock millisecond. The timestamp
    /// and the randomness come from the environment, so no particular
    /// value can be promised of the result; `from_parts` carries the
    /// exact packing contract.
    pub fn new() -> Ulid {
        let timestamp_ms = current_millis();
        let randomness = random_u128();
        Ulid::from_parts(timestamp_ms, randomness)
    }

    /// The canonical 26-character Crockford Base32 text, most significant
    /// digit first: exactly 26 characters, all from the alphabet.
    pub fn to_string(&self) -> (r: String)
        ensures
            r@ == ulid_chars(self.id),
            r@.len() == 26,
            forall|i: int| 0 <= i < 26 ==> is_crockford_char(#[trigger] r@[i]),
    {
        let v = encode_base32(self.id, 26);
        proof {
            lemma_digits_len(self.id as int, 32, 26);
            lemma_digits_in_range(self.id as int, 32, 26);
            assert forall|i: int| 0 <= i < 26 implies is_crockford_char(
                #[trigger] ulid_chars(self.id)[i],
            ) by {
                let d = digits(self.id as int, 32, 26)[i];
                assert(ulid_chars(self.id)[i] == crockford_char(d));
            }
        }
        chars_to_string(&v)
    }
}

/// Of two ULIDs built from strictly increasing millisecond timestamps,
/// the later one is the strictly larger integer, whatever the randomness.
pub proof fn lemma_ulid_value_order(t1: u64, r1: u128, t2: u64, r2: u128)
    requires
        t1 < t2,
        t2 < 0x1000000000000,
    ensures
        ulid_value(t1, r1) < ulid_value(t2, r2),
{
    lemma_mod_bound(r1 as int, 0x100000000000000000000);
    lemma_mod_bound(r2 as int, 0x100000000000000000000);
    assert((t1 + 1) * 0x100000000000000000000 <= t2 * 0x100000000000000000000) by (nonlinear_arith)
        requires
            t1 < t2,
    ;
}

/// A smaller 128-bit value's ULID text is lexicographically below a
/// larger one's: the encoding preserves numeric order.
pub proof fn lemma_ulid_text_order(a: Ulid, b: Ulid)
    requires
        a.id < b.id,
    ensures
        lex_lt_chars(ulid_chars(a.id), ulid_chars(b.id)),
{
    lemma_pow_32_26();
    lemma_digits_order(a.id as int, b.id as int, 32, 26);
    lemma_digits_in_range(a.id as int, 32, 26);
    lemma_digits_in_range(b.id as int, 32, 26);
    lemma_digits_len(a.id as int, 32, 26);
    lemma_digits_len(b.id as int, 32, 26);
    lemma_lex_lt_map(
        digits(a.id as int, 32, 26),
        digits(b.id as int, 32, 26),
        32,
        |d: int| crockford_char(d),
    );
}

/// 26 Base32 digits cover 130 bits, more than any 128-bit value.
proof fn lemma_pow_32_26()
    ensures
        pow(32, 26) > u128::MAX,
{
    assert(pow(2, 5) == 32) by {
        reveal_with_fuel(pow, 6);
    }
    lemma_pow_multiplies(2, 5, 26);
    lemma_pow2(130);
    lemma_pow2_adds(64, 64);
    lemma_pow2_adds(128, 2);
    lemma2_to64();
}

} // verus!

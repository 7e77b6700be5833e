//! ObjectId: a 96-bit timestamp + process-tag + counter identifier.
//!
//! The value packs a 32-bit second timestamp, a 40-bit random tag drawn
//! once per process, and a 24-bit counter that wraps; the text form is
//! the value written as 24 lowercase hex characters, most significant
//! digit first, so the text orders exactly as the integers do.

use vstd::prelude::*;
use vstd::arithmetic::div_mod::lemma_mod_bound;
use vstd::arithmetic::power::pow;
use vstd::arithmetic::power::lemma_pow_multiplies;
use vstd::arithmetic::power2::lemma_pow2;
use vstd::arithmetic::power2::lemma_pow2_adds;
use vstd::arithmetic::power2::lemma2_to64;
use crate::clock::current_secs;
use crate::digits::chars_to_string;
use crate::digits::digits;
use crate::digits::lemma_digits_in_range;
use crate::digits::lemma_digits_len;
use crate::digits::lemma_digits_order;
use crate::digits::lemma_lex_lt_map;
use crate::digits::lex_lt_chars;
use crate::entropy::random_u64;

verus! {

/// Lowercase hexadecimal digit characters, a strictly increasing table.
pub open spec fn hex_char(d: int) -> char {
    if d == 0 { '0' }
    else if d == 1 { '1' }
    else if d == 2 { '2' }
    else if d == 3 { '3' }
    else if d == 4 { '4' }
    else if d == 5 { '5' }
    else if d == 6 { '6' }
    else if d == 7 { '7' }
    else if d == 8 { '8' }
    else if d == 9 { '9' }
    else if d == 10 { 'a' }
    else if d == 11 { 'b' }
    else if d == 12 { 'c' }
    else if d == 13 { 'd' }
    else if d == 14 { 'e' }
    else { 'f' }
}

/// Membership in the lowercase hex alphabet.
pub open spec fn is_hex_char(c: char) -> bool {
    exists|d: int| 0 <= d < 16 && c == hex_char(d)
}

/// The last `n` hex digits of `v`, most significant first.
pub open spec fn hex_chars(v: int, n: nat) -> Seq<char> {
    digits(v, 16, n).map_values(|d: int| hex_char(d))
}

/// The 24-character hex text of a 96-bit value. 24 digits cover exactly
/// 96 bits.
pub open spec fn object_id_chars(id: u128) -> Seq<char> {
    hex_chars(id as int, 24)
}

/// The 96-bit value built from a second timestamp, the low 40 bits of
/// the process tag and the low 24 bits of the counter, in that order
/// from most to least significant.
pub open spec fn object_id_value(timestamp: u32, machine_id: u64, counter: u32) -> int {
    timestamp * 0x10000000000000000 + (machine_id % 0x10000000000) * 0x1000000 + (
    counter % 0x1000000)
}

/// An ObjectId: a 96-bit unsigned integer identity held in the low bits
/// of a 128-bit word.
pub struct ObjectId {
    pub id: u128,
}

/// The per-process generator state: the random tag drawn once for the
/// process's lifetime and the wrapping counter shared by every call.
pub struct ObjectIdState {
    pub machine_id: u64,
    pub counter: u32,
}

fn hex_digit(d: u128) -> (c: char)
    requires
        d < 16,
    ensures
        c == hex_char(d as int),
{
    match d {
        0 => '0',
        1 => '1',
        2 => '2',
        3 => '3',
        4 => '4',
        5 => '5',
        6 => '6',
        7 => '7',
        8 => '8',
        9 => '9',
        10 => 'a',
        11 => 'b',
        12 => 'c',
        13 => 'd',
        14 => 'e',
        _ => 'f',
    }
}

/// The last `n` hex digits of `v`, most significant first.
fn encode_hex(v: u128, n: u8) -> (r: Vec<char>)
    ensures
        r@ == hex_chars(v as int, n as nat),
    decreases n,
{
    if n == 0 {
        let r: Vec<char> = Vec::new();
        proof {
            assert(r@ =~= hex_chars(v as int, 0));
        }
        r
    } else {
        let mut r = encode_hex(v / 16, n - 1);
        let c = hex_digit(v % 16);
        r.push(c);
        proof {
            lemma_digits_len(v as int / 16, 16, (n - 1) as nat);
            lemma_digits_len(v as int, 16, n as nat);
            assert(r@ =~= hex_chars(v as int, n as nat));
        }
        r
    }
}

impl ObjectIdState {
    /// Whether the tag fits its 40-bit field; constructors establish it
    /// and generation preserves it.
    pub open spec fn wf(&self) -> bool {
        self.machine_id < 0x10000000000
    }

    /// Fresh per-process state: a 40-bit random tag, drawn once here and
    /// reused for every identifier, and a counter seeded at a random
    /// 24-bit starting point.
    pub fn init() -> (r: ObjectIdState)
        ensures
            r.wf(),
            r.counter < 0xFFFFFF,
    {
        let raw = random_u64();
        let machine_id = raw & 0xFF_FFFF_FFFF;
        let seed = random_u64();
        let counter = (seed % 0xFFFFFF) as u32;
        proof {
            assert(raw & 0xFF_FFFF_FFFFu64 < 0x10000000000) by (bit_vector);
        }
        ObjectIdState { machine_id, counter }
    }
}

impl ObjectId {
    /// Packs a second timestamp above the low 40 bits of the tag and the
    /// low 24 bits of the counter.
    pub fn from_parts(timestamp: u32, machine_id: u64, counter: u32) -> (r: ObjectId)
        ensures
            r.id == object_id_value(timestamp, machine_id, counter),
            r.id < 0x1000000000000000000000000,
    {
        let t = timestamp as u128;
        let m = machine_id as u128;
        let c = counter as u128;
        let id = (t << 64) | ((m & 0xFF_FFFF_FFFF) << 24) | (c & 0xFF_FFFF);
        proof {
            assert((t << 64) | ((m & 0xFF_FFFF_FFFF) << 24) | (c & 0xFF_FFFF) == (t
                % 0x100000000) * 0x10000000000000000 + (m % 0x10000000000) * 0x1000000 + (c
                % 0x1000000) && (t << 64) | ((m & 0xFF_FFFF_FFFF) << 24) | (c & 0xFF_FFFF)
                < 0x1000000000000000000000000) by (bit_vector)
                requires
                    t < 0x100000000,
                    c < 0x100000000,
            ;
        }
        ObjectId { id }
    }

    /// A fresh ObjectId: the current second, the process tag unchanged,
    /// and the post-increment counter value, which wraps modulo its
    /// 32-bit store and is masked to 24 bits in the identifier. The
    /// timestamp comes from the clock, so only its field position is
    /// promised; `from_parts` carries the exact packing contract.
    pub fn new(state: &mut ObjectIdState) -> (r: ObjectId)
        requires
            old(state).wf(),
        ensures
            final(state).wf(),
            final(state).machine_id == old(state).machine_id,
            final(state).counter == (old(state).counter + 1) % 0x100000000,
            r.id < 0x1000000000000000000000000,
            r.id % 0x10000000000000000 == old(state).machine_id * 0x1000000 + (
            old(state).counter % 0x1000000),
    {
        let timestamp = current_secs();
        let r = ObjectId::from_parts(timestamp, state.machine_id, state.counter);
        state.counter = state.counter.wrapping_add(1);
        proof {
            lemma_mod_bound(old(state).machine_id as int, 0x10000000000);
            lemma_mod_bound(old(state).counter as int, 0x1000000);
            let low = old(state).machine_id * 0x1000000 + (old(state).counter % 0x1000000);
            assert(low < 0x10000000000000000);
            vstd::arithmetic::div_mod::lemma_fundamental_div_mod_converse(
                r.id as int,
                0x10000000000000000,
                timestamp as int,
                low,
            );
        }
        r
    }

    /// The canonical 24-character lowercase hex text, most significant
    /// digit first: exactly 24 characters, all hex digits.
    pub fn to_string(&self) -> (r: String)
        ensures
            r@ == object_id_chars(self.id),
            r@.len() == 24,
            forall|i: int| 0 <= i < 24 ==> is_hex_char(#[trigger] r@[i]),
    {
        let v = encode_hex(self.id, 24);
        proof {
            lemma_digits_len(self.id as int, 16, 24);
            lemma_digits_in_range(self.id as int, 16, 24);
            assert forall|i: int| 0 <= i < 24 implies is_hex_char(
                #[trigger] object_id_chars(self.id)[i],
            ) by {
                let d = digits(self.id as int, 16, 24)[i];
                assert(object_id_chars(self.id)[i] == hex_char(d));
            }
        }
        chars_to_string(&v)
    }
}

/// Of two ObjectIds from the same process (same tag), with the clock not
/// running backwards and the counter advanced without wrapping, the later
/// one is the strictly larger integer.
pub proof fn lemma_object_id_value_order(
    t1: u32,
    m: u64,
    c1: u32,
    t2: u32,
    c2: u32,
)
    requires
        t1 <= t2,
        c1 % 0x1000000 < c2 % 0x1000000 || t1 < t2,
    ensures
        object_id_value(t1, m, c1) < object_id_value(t2, m, c2),
{
    lemma_mod_bound(m as int, 0x10000000000);
    lemma_mod_bound(c1 as int, 0x1000000);
    lemma_mod_bound(c2 as int, 0x1000000);
    if t1 < t2 {
        assert((t1 + 1) * 0x10000000000000000 <= t2 * 0x10000000000000000) by (nonlinear_arith)
            requires
                t1 < t2,
        ;
        assert((m % 0x10000000000) * 0x1000000 + 0x1000000 <= 0x10000000000000000)
            by (nonlinear_arith)
            requires
                m % 0x10000000000 < 0x10000000000,
        ;
    }
}

/// A smaller 96-bit value's hex text is lexicographically below a larger
/// one's: the encoding preserves numeric order.
pub proof fn lemma_object_id_text_order(a: ObjectId, b: ObjectId)
    requires
        a.id < b.id,
        b.id < 0x1000000000000000000000000,
    ensures
        lex_lt_chars(object_id_chars(a.id), object_id_chars(b.id)),
{
    lemma_pow_16_24();
    lemma_digits_order(a.id as int, b.id as int, 16, 24);
    lemma_digits_in_range(a.id as int, 16, 24);
    lemma_digits_in_range(b.id as int, 16, 24);
    lemma_digits_len(a.id as int, 16, 24);
    lemma_digits_len(b.id as int, 16, 24);
    lemma_lex_lt_map(
        digits(a.id as int, 16, 24),
        digits(b.id as int, 16, 24),
        16,
        |d: int| hex_char(d),
    );
}

/// 24 hex digits cover exactly 96 bits.
proof fn lemma_pow_16_24()
    ensures
        pow(16, 24) == 0x1000000000000000000000000,
{
    assert(pow(2, 4) == 16) by {
        reveal_with_fuel(pow, 5);
    }
    lemma_pow_multiplies(2, 4, 24);
    lemma_pow2(96);
    lemma_pow2_adds(64, 32);
    lemma2_to64();
}

} // verus!

//! SnowflakeId: a 64-bit timestamp + node + sequence identifier.
//!
//! The value packs, from high to low bits: an always-zero sign bit, a
//! 41-bit millisecond timestamp relative to a caller-supplied epoch, a
//! 10-bit node id and a 12-bit sequence. Within one millisecond the
//! sequence counts calls; when its 12-bit space would wrap, generation
//! busy-waits for the clock to advance rather than repeat a value. The
//! text form is the plain decimal of the 64-bit value.

use vstd::prelude::*;
use vstd::arithmetic::div_mod::lemma_fundamental_div_mod;
use vstd::arithmetic::div_mod::lemma_mod_bound;
use vstd::arithmetic::div_mod::lemma_small_mod;
use crate::clock::current_millis;
use crate::clock::wait_past_millis;
use crate::digits::chars_to_string;

verus! {

/// Decimal digit characters, a strictly increasing table.
pub open spec fn dec_char(d: int) -> char {
    if d == 0 { '0' }
    else if d == 1 { '1' }
    else if d == 2 { '2' }
    else if d == 3 { '3' }
    else if d == 4 { '4' }
    else if d == 5 { '5' }
    else if d == 6 { '6' }
    else if d == 7 { '7' }
    else if d == 8 { '8' }
    else { '9' }
}

/// The digit a character denotes; 10 marks a character that is no
/// decimal digit.
pub open spec fn dec_val(c: char) -> int {
    if c == '0' { 0 }
    else if c == '1' { 1 }
    else if c == '2' { 2 }
    else if c == '3' { 3 }
    else if c == '4' { 4 }
    else if c == '5' { 5 }
    else if c == '6' { 6 }
    else if c == '7' { 7 }
    else if c == '8' { 8 }
    else if c == '9' { 9 }
    else { 10 }
}

/// Membership in the decimal alphabet.
pub open spec fn is_dec_char(c: char) -> bool {
    dec_val(c) < 10
}

/// Every character of the sequence is a decimal digit.
pub open spec fn all_dec_chars(s: Seq<char>) -> bool {
    forall|i: int| 0 <= i < s.len() ==> is_dec_char(#[trigger] s[i])
}

/// The canonical decimal text of a non-negative value: no sign, no
/// leading zeros, at least one digit.
pub open spec fn dec_chars(v: int) -> Seq<char>
    decreases v,
{
    if v < 10 {
        seq![dec_char(v)]
    } else {
        dec_chars(v / 10).push(dec_char(v % 10))
    }
}

/// The value a decimal character sequence denotes, most significant
/// digit first.
pub open spec fn dec_value(s: Seq<char>) -> int
    decreases s.len(),
{
    if s.len() == 0 {
        0
    } else {
        dec_value(s.drop_last()) * 10 + dec_val(s.last())
    }
}

/// The 64-bit layout: the low 41 bits of the timestamp delta, above the
/// low 10 bits of the node id, above the low 12 bits of the sequence.
pub open spec fn snowflake_value(delta: int, machine_id: int, sequence: int) -> int {
    (delta % 0x20000000000) * 0x400000 + (machine_id % 0x400) * 0x1000 + (sequence % 0x1000)
}

/// The timestamp field: milliseconds since the caller's epoch, wrapping
/// silently when the clock reads before the epoch.
pub open spec fn delta_millis(timestamp: u64, epoch: u64) -> int {
    (timestamp - epoch) % 0x10000000000000000
}

/// A SnowflakeId: a 64-bit unsigned integer identity.
pub struct SnowflakeId {
    pub id: u64,
}

/// The per-process generator state shared by every call: the millisecond
/// of the latest identifier and the sequence used within it.
pub struct SnowflakeState {
    pub last_timestamp: u64,
    pub sequence: u16,
}

impl SnowflakeState {
    /// Whether the sequence fits its 12-bit field; generation keeps it so.
    pub open spec fn wf(&self) -> bool {
        self.sequence < 0x1000
    }

    /// Fresh per-process state, as at process start.
    pub fn init() -> (r: SnowflakeState)
        ensures
            r.wf(),
            r.last_timestamp == 0,
            r.sequence == 0,
    {
        SnowflakeState { last_timestamp: 0, sequence: 0 }
    }
}

fn pack(delta: u64, machine_id: u16, sequence: u16) -> (r: u64)
    ensures
        r == snowflake_value(delta as int, machine_id as int, sequence as int),
{
    let m = machine_id as u64;
    let s = sequence as u64;
    let r = ((delta & 0x1FF_FFFF_FFFF) << 22) | ((m & 0x3FF) << 12) | (s & 0xFFF);
    proof {
        assert(((delta & 0x1FF_FFFF_FFFF) << 22) | ((m & 0x3FF) << 12) | (s & 0xFFF) == (delta
            % 0x20000000000) * 0x400000 + (m % 0x400) * 0x1000 + (s % 0x1000)) by (bit_vector);
    }
    r
}

impl SnowflakeId {
    /// A fresh SnowflakeId. Within the millisecond of the previous call
    /// the sequence advances by one; the call that would wrap the 12-bit
    /// sequence busy-waits until the clock reads a later millisecond and
    /// restarts the sequence at zero, as does any call whose millisecond
    /// differs from the previous one. A node id wider than 10 bits and a
    /// timestamp delta wider than 41 bits are masked, not rejected, and
    /// an epoch later than the clock wraps the delta silently.
    ///
    /// The millisecond itself comes from the clock, so the contract pins
    /// the result to whatever timestamp the state records on return.
    pub fn new(machine_id: u16, my_epoch: u64, state: &mut SnowflakeState) -> (r: SnowflakeId)
        requires
            old(state).wf(),
        ensures
            final(state).wf(),
            r.id == snowflake_value(
                delta_millis(final(state).last_timestamp, my_epoch),
                machine_id as int,
                final(state).sequence as int,
            ),
            final(state).last_timestamp == old(state).last_timestamp ==> final(state).sequence
                == old(state).sequence + 1,
            final(state).last_timestamp != old(state).last_timestamp ==> final(state).sequence
                == 0,
    {
        let mut timestamp = current_millis();
        let sequence: u16;
        if timestamp == state.last_timestamp {
            let next = (state.sequence + 1) & 0x0FFF;
            proof {
                let s0 = old(state).sequence;
                assert(s0 < 0xFFF ==> (s0 + 1) as u16 & 0x0FFF == s0 + 1) by (bit_vector);
                assert(s0 == 0xFFF ==> (s0 + 1) as u16 & 0x0FFF == 0) by (bit_vector);
            }
            if next == 0 {
                // The 12-bit space is exhausted for this millisecond:
                // busy-wait until the clock advances.
                timestamp = wait_past_millis(state.last_timestamp);
                sequence = 0;
            } else {
                sequence = next;
            }
        } else {
            sequence = 0;
        }
        state.last_timestamp = timestamp;
        state.sequence = sequence;
        let delta = timestamp.wrapping_sub(my_epoch);
        let id = pack(delta, machine_id, sequence);
        SnowflakeId { id }
    }

    /// The canonical decimal text of the identifier.
    pub fn to_string(&self) -> (r: String)
        ensures
            r@ == dec_chars(self.id as int),
    {
        let v = encode_decimal(self.id);
        chars_to_string(&v)
    }
}

fn dec_digit(d: u64) -> (c: char)
    requires
        d < 10,
    ensures
        c == dec_char(d as int),
{
    match d {
        0 => '0',
        1 => '1',
        2 => '2',
        3 => '3',
        4 => '4',
        5 => '5',
        6 => '6',
        7 => '7',
        8 => '8',
        _ => '9',
    }
}

fn dec_digit_of(c: char) -> (d: u64)
    ensures
        d == dec_val(c),
{
    match c {
        '0' => 0,
        '1' => 1,
        '2' => 2,
        '3' => 3,
        '4' => 4,
        '5' => 5,
        '6' => 6,
        '7' => 7,
        '8' => 8,
        '9' => 9,
        _ => 10,
    }
}

/// The decimal digits of `v`, most significant first, no leading zeros.
fn encode_decimal(v: u64) -> (r: Vec<char>)
    ensures
        r@ == dec_chars(v as int),
    decreases v,
{
    if v < 10 {
        let mut r: Vec<char> = Vec::new();
        let c = dec_digit(v);
        r.push(c);
        proof {
            assert(r@ =~= dec_chars(v as int));
        }
        r
    } else {
        let mut r = encode_decimal(v / 10);
        let c = dec_digit(v % 10);
        r.push(c);
        proof {
            assert(r@ =~= dec_chars(v as int));
        }
        r
    }
}

/// The value of a decimal character sequence is never negative.
proof fn lemma_dec_value_nonneg(s: Seq<char>)
    ensures
        dec_value(s) >= 0,
    decreases s.len(),
{
    if s.len() > 0 {
        lemma_dec_value_nonneg(s.drop_last());
    }
}

/// Reading more digits never shrinks the value.
proof fn lemma_dec_value_prefix(s: Seq<char>, j: int)
    requires
        0 <= j <= s.len(),
    ensures
        dec_value(s.subrange(0, j)) <= dec_value(s),
    decreases s.len() - j,
{
    if j == s.len() {
        assert(s.subrange(0, j) =~= s);
    } else {
        lemma_dec_value_prefix(s, j + 1);
        let a = s.subrange(0, j);
        let b = s.subrange(0, j + 1);
        assert(b.drop_last() =~= a);
        lemma_dec_value_nonneg(a);
        assert(dec_value(b) == dec_value(a) * 10 + dec_val(s[j]));
    }
}

/// Parses the decimal text of a 64-bit value: `Some` exactly on a
/// non-empty all-digit string whose value fits in 64 bits, and then the
/// parsed integer is that value.
pub fn decode_decimal(s: &str) -> (r: Option<u64>)
    ensures
        r is Some <==> (s@.len() > 0 && all_dec_chars(s@) && dec_value(s@) <= u64::MAX),
        r matches Some(v) ==> v == dec_value(s@),
{
    let n = s.unicode_len();
    if n == 0 {
        return None;
    }
    let mut i: usize = 0;
    let mut acc: u64 = 0;
    while i < n
        invariant
            0 <= i <= n,
            n == s@.len(),
            all_dec_chars(s@.subrange(0, i as int)),
            acc == dec_value(s@.subrange(0, i as int)),
        decreases n - i,
    {
        let c = s.get_char(i);
        let d = dec_digit_of(c);
        if d >= 10 {
            // A character outside the alphabet: the whole string is no
            // decimal numeral.
            proof {
                assert(!is_dec_char(s@[i as int]));
            }
            return None;
        }
        let limit = (u64::MAX - d) / 10;
        proof {
            let prefix = s@.subrange(0, i as int);
            let extended = s@.subrange(0, i as int + 1);
            assert(extended.drop_last() =~= prefix);
            assert(dec_value(extended) == acc * 10 + d);
            lemma_fundamental_div_mod((u64::MAX - d) as int, 10);
            lemma_dec_value_prefix(s@, i as int + 1);
        }
        if acc > limit {
            // The value no longer fits in 64 bits.
            return None;
        }
        acc = acc * 10 + d;
        i = i + 1;
    }
    proof {
        assert(s@.subrange(0, n as int) =~= s@);
    }
    Some(acc)
}

/// Decoding inverts encoding: the decimal text of a 64-bit value is a
/// non-empty all-digit string that denotes the value back.
pub proof fn lemma_decimal_round_trip(v: u64)
    ensures
        dec_chars(v as int).len() >= 1,
        all_dec_chars(dec_chars(v as int)),
        dec_value(dec_chars(v as int)) == v,
    decreases v,
{
    if v < 10 {
        let s = dec_chars(v as int);
        assert(s == seq![dec_char(v as int)]);
        assert(s.len() == 1);
        assert(s.last() == dec_char(v as int));
        assert(s.drop_last() =~= Seq::<char>::empty());
        assert(dec_value(s.drop_last()) == 0);
        assert(dec_value(s) == 0 * 10 + dec_val(s.last()));
        assert(dec_val(dec_char(v as int)) == v);
    } else {
        lemma_decimal_round_trip(v / 10);
        let s = dec_chars(v as int);
        let inner = dec_chars(v as int / 10);
        assert(s.drop_last() =~= inner);
        lemma_fundamental_div_mod(v as int, 10);
        assert forall|i: int| 0 <= i < s.len() implies is_dec_char(#[trigger] s[i]) by {
            if i < s.len() - 1 {
                assert(s[i] == inner[i]);
            }
        }
    }
}

/// The bit fields of a packed identifier reproduce the masked timestamp
/// delta, node id and sequence exactly as constructed.
pub proof fn lemma_snowflake_fields(id: u64, delta: u64, machine_id: u16, sequence: u16)
    requires
        id == snowflake_value(delta as int, machine_id as int, sequence as int),
    ensures
        id >> 22 == delta % 0x20000000000,
        (id >> 12) & 0x3FF == machine_id % 0x400,
        id & 0xFFF == sequence % 0x1000,
{
    let m = machine_id as u64;
    let s = sequence as u64;
    assert(id >> 22 == delta % 0x20000000000 && (id >> 12) & 0x3FF == m % 0x400 && id & 0xFFF == s
        % 0x1000) by (bit_vector)
        requires
            id == (delta % 0x20000000000) * 0x400000 + (m % 0x400) * 0x1000 + (s % 0x1000),
    ;
}

/// Of two identifiers packed for the same node and epoch, with the clock
/// not running backwards and the epoch not in the future, the later one
/// is the strictly larger integer: a later millisecond dominates, and
/// within one millisecond the larger sequence decides. In particular no
/// two identifiers of one millisecond with distinct sequences collide.
pub proof fn lemma_snowflake_value_order(
    t1: u64,
    s1: u16,
    t2: u64,
    s2: u16,
    machine_id: u16,
    epoch: u64,
)
    requires
        epoch <= t1 <= t2,
        t2 - epoch < 0x20000000000,
        s1 < 0x1000,
        s2 < 0x1000,
        t1 == t2 ==> s1 < s2,
    ensures
        snowflake_value(delta_millis(t1, epoch), machine_id as int, s1 as int) < snowflake_value(
            delta_millis(t2, epoch),
            machine_id as int,
            s2 as int,
        ),
{
    let d1 = t1 - epoch;
    let d2 = t2 - epoch;
    lemma_small_mod(d1 as nat, 0x10000000000000000);
    lemma_small_mod(d2 as nat, 0x10000000000000000);
    lemma_small_mod(d1 as nat, 0x20000000000);
    lemma_small_mod(d2 as nat, 0x20000000000);
    lemma_small_mod(s1 as nat, 0x1000);
    lemma_small_mod(s2 as nat, 0x1000);
    lemma_mod_bound(machine_id as int, 0x400);
    if d1 < d2 {
        assert((d1 + 1) * 0x400000 <= d2 * 0x400000) by (nonlinear_arith)
            requires
                d1 < d2,
        ;
        assert((machine_id as int % 0x400) * 0x1000 + 0x1000 <= 0x400000);
    }
}

} // verus!

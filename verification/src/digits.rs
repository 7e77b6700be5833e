//! Positional digit sequences shared by the text encodings.
//!
//! Every identifier here is encoded by writing its integer value in some
//! base, most significant digit first. This module gives the mathematical
//! model of that: the digit sequence of a value, the value of a digit
//! sequence, and the fact that fixed-width digit sequences order exactly
//! as the values they encode.

use vstd::prelude::*;
use vstd::arithmetic::div_mod::lemma_fundamental_div_mod;
use vstd::arithmetic::div_mod::lemma_div_is_ordered;
use vstd::arithmetic::power::pow;
use vstd::arithmetic::power::lemma_pow_positive;

verus! {

/// The last `n` digits of `v` written in base `base`, most significant
/// first; the sequence encodes `v % pow(base, n)`.
pub open spec fn digits(v: int, base: int, n: nat) -> Seq<int>
    decreases n,
{
    if n == 0 {
        Seq::empty()
    } else {
        digits(v / base, base, (n - 1) as nat).push(v % base)
    }
}

/// Strict lexicographic order on equal-length digit sequences.
pub open spec fn lex_lt(a: Seq<int>, b: Seq<int>) -> bool {
    exists|i: int|
        0 <= i < a.len() && i < b.len() && a.subrange(0, i) =~= b.subrange(0, i) && (#[trigger] a[i])
            < b[i]
}

/// Strict lexicographic order on equal-length character sequences.
pub open spec fn lex_lt_chars(a: Seq<char>, b: Seq<char>) -> bool {
    exists|i: int|
        0 <= i < a.len() && i < b.len() && a.subrange(0, i) =~= b.subrange(0, i) && (#[trigger] a[i])
            < b[i]
}

/// Mapping two ordered digit sequences through a strictly increasing
/// digit-to-character table preserves their lexicographic order.
pub proof fn lemma_lex_lt_map(a: Seq<int>, b: Seq<int>, base: int, f: spec_fn(int) -> char)
    requires
        lex_lt(a, b),
        forall|i: int| 0 <= i < a.len() ==> 0 <= #[trigger] a[i] < base,
        forall|i: int| 0 <= i < b.len() ==> 0 <= #[trigger] b[i] < base,
        forall|x: int, y: int| 0 <= x < y < base ==> #[trigger] f(x) < #[trigger] f(y),
    ensures
        lex_lt_chars(a.map_values(f), b.map_values(f)),
{
    let i = choose|i: int|
        0 <= i < a.len() && i < b.len() && a.subrange(0, i) =~= b.subrange(0, i) && (#[trigger] a[i])
            < b[i];
    let ma = a.map_values(f);
    let mb = b.map_values(f);
    assert forall|j: int| 0 <= j < i implies ma.subrange(0, i)[j] == mb.subrange(0, i)[j] by {
        assert(a.subrange(0, i)[j] == b.subrange(0, i)[j]);
    }
    assert(ma.subrange(0, i) =~= mb.subrange(0, i));
    assert(f(a[i]) < f(b[i]));
    assert(ma[i] < mb[i]);
    assert(lex_lt_chars(ma, mb));
}

/// Builds the presentation string from already-encoded characters.
///
/// Relies on std's `FromIterator` implementation for `String`: collecting
/// characters yields the string of exactly those characters in order.
#[verifier::external_body]
pub(crate) fn chars_to_string(v: &Vec<char>) -> (r: String)
    ensures
        r@ == v@,
{
    v.iter().collect()
}

/// A value written with `n` digits has exactly `n` of them.
pub proof fn lemma_digits_len(v: int, base: int, n: nat)
    ensures
        digits(v, base, n).len() == n,
    decreases n,
{
    if n > 0 {
        lemma_digits_len(v / base, base, (n - 1) as nat);
    }
}

/// Every digit of a non-negative value lies in `[0, base)`.
pub proof fn lemma_digits_in_range(v: int, base: int, n: nat)
    requires
        0 <= v,
        2 <= base,
    ensures
        forall|i: int| 0 <= i < n ==> 0 <= #[trigger] digits(v, base, n)[i] < base,
    decreases n,
{
    if n > 0 {
        let inner = digits(v / base, base, (n - 1) as nat);
        lemma_digits_in_range(v / base, base, (n - 1) as nat);
        lemma_digits_len(v / base, base, (n - 1) as nat);
        assert(0 <= v % base < base) by {
            lemma_fundamental_div_mod(v, base);
        }
        assert(v / base >= 0) by {
            lemma_div_is_ordered(0, v, base);
        }
        assert forall|i: int| 0 <= i < n implies 0 <= #[trigger] digits(v, base, n)[i]
            < base by {
            if i < n - 1 {
                assert(digits(v, base, n)[i] == inner[i]);
            }
        }
    }
}

/// Fixed-width digit sequences order as their values: a smaller value's
/// digits are lexicographically below a larger value's.
pub proof fn lemma_digits_order(v1: int, v2: int, base: int, n: nat)
    requires
        2 <= base,
        0 <= v1 < v2,
        v2 < pow(base, n),
    ensures
        lex_lt(digits(v1, base, n), digits(v2, base, n)),
    decreases n,
{
    reveal(pow);
    lemma_pow_positive(base, n);
    assert(n > 0);
    let a = digits(v1, base, n);
    let b = digits(v2, base, n);
    let ha = digits(v1 / base, base, (n - 1) as nat);
    let hb = digits(v2 / base, base, (n - 1) as nat);
    let h1 = v1 / base;
    let h2 = v2 / base;
    lemma_digits_len(h1, base, (n - 1) as nat);
    lemma_digits_len(h2, base, (n - 1) as nat);
    lemma_fundamental_div_mod(v1, base);
    lemma_fundamental_div_mod(v2, base);
    lemma_div_is_ordered(0, v1, base);
    lemma_div_is_ordered(v1, v2, base);
    assert(h2 < pow(base, (n - 1) as nat)) by {
        lemma_pow_positive(base, (n - 1) as nat);
        if h2 >= pow(base, (n - 1) as nat) {
            vstd::arithmetic::mul::lemma_mul_inequality(pow(base, (n - 1) as nat), h2, base);
            vstd::arithmetic::mul::lemma_mul_is_commutative(base, pow(base, (n - 1) as nat));
        }
    }
    if h1 < h2 {
        lemma_digits_order(h1, h2, base, (n - 1) as nat);
        let i = choose|i: int|
            0 <= i < ha.len() && i < hb.len() && ha.subrange(0, i) =~= hb.subrange(0, i) && (
            #[trigger] ha[i]) < hb[i];
        assert(a.subrange(0, i) =~= ha.subrange(0, i));
        assert(b.subrange(0, i) =~= hb.subrange(0, i));
        assert(a[i] == ha[i] && b[i] == hb[i]);
        assert(lex_lt(a, b));
    } else {
        // Same leading digits; the values differ in the last digit.
        assert(h1 == h2);
        assert(v1 % base < v2 % base);
        let i = n - 1;
        assert(a.subrange(0, i) =~= ha);
        assert(b.subrange(0, i) =~= hb);
        assert(a[i] == v1 % base && b[i] == v2 % base);
        assert(lex_lt(a, b));
    }
}

} // verus!

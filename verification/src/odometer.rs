//! Mixed-radix positions: a sequence of digits, each below its own radix,
//! read as one number with the last digit the least significant.
//!
//! A suite's iterator keeps one digit per position of the variation order;
//! these definitions say which step of the enumeration a digit sequence is.

use vstd::prelude::*;

verus! {

/// Every radix is at least one.
pub open spec fn radices_valid(radices: Seq<int>) -> bool {
    forall|k: int| 0 <= k < radices.len() ==> #[trigger] radices[k] >= 1
}

/// One digit per radix, each below its radix.
pub open spec fn digits_valid(digits: Seq<int>, radices: Seq<int>) -> bool {
    &&& digits.len() == radices.len()
    &&& forall|k: int| 0 <= k < radices.len() ==> 0 <= #[trigger] digits[k] < radices[k]
}

/// The product of the radices from position `from` on: the number of digit
/// sequences for those positions.
pub open spec fn place_value(radices: Seq<int>, from: int) -> int
    decreases radices.len() - from,
{
    if from < 0 || from >= radices.len() {
        1
    } else {
        radices[from] * place_value(radices, from + 1)
    }
}

/// The number that the digits from position `from` on stand for.
pub open spec fn position_from(digits: Seq<int>, radices: Seq<int>, from: int) -> int
    decreases radices.len() - from,
{
    if from < 0 || from >= radices.len() {
        0
    } else {
        digits[from] * place_value(radices, from + 1) + position_from(digits, radices, from + 1)
    }
}

/// The number of all digit sequences for `radices`.
pub open spec fn position_count(radices: Seq<int>) -> int {
    place_value(radices, 0)
}

/// The number that a whole digit sequence stands for.
pub open spec fn position(digits: Seq<int>, radices: Seq<int>) -> int {
    position_from(digits, radices, 0)
}

pub proof fn lemma_place_value_positive(radices: Seq<int>, from: int)
    requires
        forall|k: int| from <= k < radices.len() ==> #[trigger] radices[k] >= 1,
    ensures
        place_value(radices, from) >= 1,
    decreases radices.len() - from,
{
    if from >= 0 && from < radices.len() {
        lemma_place_value_positive(radices, from + 1);
        let p = place_value(radices, from + 1);
        let r = radices[from];
        assert(r * p >= 1) by (nonlinear_arith)
            requires
                r >= 1,
                p >= 1,
        ;
    }
}

/// The number depends on the digits from `from` on only.
pub proof fn lemma_position_frame(d1: Seq<int>, d2: Seq<int>, radices: Seq<int>, from: int)
    requires
        from >= 0,
        forall|k: int| from <= k < radices.len() ==> d1[k] == d2[k],
    ensures
        position_from(d1, radices, from) == position_from(d2, radices, from),
    decreases radices.len() - from,
{
    if from < radices.len() {
        lemma_position_frame(d1, d2, radices, from + 1);
    }
}

/// All-zero digits stand for zero.
pub proof fn lemma_position_zero(digits: Seq<int>, radices: Seq<int>, from: int)
    requires
        from >= 0,
        forall|k: int| from <= k < radices.len() ==> digits[k] == 0,
    ensures
        position_from(digits, radices, from) == 0,
    decreases radices.len() - from,
{
    if from < radices.len() {
        lemma_position_zero(digits, radices, from + 1);
    }
}

/// Digits that are valid from `from` on stand for a number below `place_value(radices, from)`.
pub proof fn lemma_position_bounds(digits: Seq<int>, radices: Seq<int>, from: int)
    requires
        forall|k: int| from <= k < radices.len() ==> 0 <= #[trigger] digits[k] < radices[k],
        from >= 0,
    ensures
        0 <= position_from(digits, radices, from) < place_value(radices, from),
    decreases radices.len() - from,
{
    if from < radices.len() {
        lemma_position_bounds(digits, radices, from + 1);
        assert forall|k: int| from + 1 <= k < radices.len() implies #[trigger] radices[k] >= 1 by {
            assert(0 <= digits[k] < radices[k]);
        }
        lemma_place_value_positive(radices, from + 1);
        let p = place_value(radices, from + 1);
        let r = radices[from];
        let d = digits[from];
        let rest = position_from(digits, radices, from + 1);
        assert(0 <= d * p + rest < r * p) by (nonlinear_arith)
            requires
                0 <= d < r,
                0 <= rest < p,
        ;
    }
}

/// Two valid digit sequences that stand for the same number agree from `from` on.
pub proof fn lemma_position_injective(d1: Seq<int>, d2: Seq<int>, radices: Seq<int>, from: int)
    requires
        radices_valid(radices),
        digits_valid(d1, radices),
        digits_valid(d2, radices),
        from >= 0,
        position_from(d1, radices, from) == position_from(d2, radices, from),
    ensures
        forall|k: int| from <= k < radices.len() ==> d1[k] == d2[k],
    decreases radices.len() - from,
{
    if from < radices.len() {
        lemma_position_bounds(d1, radices, from + 1);
        lemma_position_bounds(d2, radices, from + 1);
        let p = place_value(radices, from + 1);
        let a = d1[from];
        let b = d2[from];
        let ra = position_from(d1, radices, from + 1);
        let rb = position_from(d2, radices, from + 1);
        assert(a == b) by (nonlinear_arith)
            requires
                a * p + ra == b * p + rb,
                0 <= ra < p,
                0 <= rb < p,
                a >= 0,
                b >= 0,
        ;
        lemma_position_injective(d1, d2, radices, from + 1);
    }
}

/// Every number below `place_value(radices, from)` is the number of some valid
/// digit sequence; the result is one such sequence.
pub proof fn lemma_position_onto(radices: Seq<int>, from: int, n: int) -> (digits: Seq<int>)
    requires
        radices_valid(radices),
        0 <= from <= radices.len(),
        0 <= n < place_value(radices, from),
    ensures
        digits_valid(digits, radices),
        position_from(digits, radices, from) == n,
    decreases radices.len() - from,
{
    if from == radices.len() {
        let zeros = Seq::new(radices.len(), |k: int| 0int);
        zeros
    } else {
        lemma_place_value_positive(radices, from + 1);
        let p = place_value(radices, from + 1);
        let r = radices[from];
        let q = n / p;
        let rem = n % p;
        assert(n == q * p + rem && 0 <= rem < p && 0 <= q < r) by (nonlinear_arith)
            requires
                p >= 1,
                0 <= n < r * p,
                q == n / p,
                rem == n % p,
        ;
        let lower = lemma_position_onto(radices, from + 1, rem);
        let digits = lower.update(from, q);
        lemma_position_frame(digits, lower, radices, from + 1);
        digits
    }
}

/// Some valid digit sequence stands for `n`.
pub open spec fn is_position_of_some_digits(radices: Seq<int>, n: int) -> bool {
    exists|d: Seq<int>| digits_valid(d, radices) && #[trigger] position(d, radices) == n
}

/// The positions are a bijection between the valid digit sequences and the
/// numbers below `position_count(radices)`.
pub proof fn lemma_positions_biject(radices: Seq<int>)
    requires
        radices_valid(radices),
    ensures
        forall|d: Seq<int>|
            digits_valid(d, radices) ==> 0 <= #[trigger] position(d, radices) < position_count(
                radices,
            ),
        forall|d1: Seq<int>, d2: Seq<int>|
            digits_valid(d1, radices) && digits_valid(d2, radices) && #[trigger] position(
                d1,
                radices,
            ) == #[trigger] position(d2, radices) ==> d1 == d2,
        forall|n: int|
            0 <= n < position_count(radices) ==> #[trigger] is_position_of_some_digits(radices, n),
{
    assert forall|d: Seq<int>| digits_valid(d, radices) implies 0 <= #[trigger] position(
        d,
        radices,
    ) < position_count(radices) by {
        lemma_position_bounds(d, radices, 0);
    }
    assert forall|d1: Seq<int>, d2: Seq<int>|
        digits_valid(d1, radices) && digits_valid(d2, radices) && #[trigger] position(d1, radices)
            == #[trigger] position(d2, radices) implies d1 == d2 by {
        lemma_position_injective(d1, d2, radices, 0);
        assert(d1 =~= d2);
    }
    assert forall|n: int| 0 <= n < position_count(radices) implies #[trigger] is_position_of_some_digits(
        radices,
        n,
    ) by {
        let d = lemma_position_onto(radices, 0, n);
        assert(position(d, radices) == n);
    }
}

/// The valid digit sequence that stands for `n` (the only one, for `n` below
/// `position_count(radices)`: see `lemma_digits_at`).
pub open spec fn digits_at(radices: Seq<int>, n: int) -> Seq<int> {
    choose|d: Seq<int>| digits_valid(d, radices) && position(d, radices) == n
}

/// `digits_at` decodes every position below the count, and decodes the
/// position of valid digits back to those digits.
pub proof fn lemma_digits_at(radices: Seq<int>)
    requires
        radices_valid(radices),
    ensures
        forall|n: int|
            0 <= n < position_count(radices) ==> digits_valid(#[trigger] digits_at(radices, n), radices)
                && position(digits_at(radices, n), radices) == n,
        forall|d: Seq<int>|
            digits_valid(d, radices) ==> #[trigger] digits_at(radices, position(d, radices)) == d,
{
    lemma_positions_biject(radices);
    assert forall|n: int| 0 <= n < position_count(radices) implies digits_valid(
        #[trigger] digits_at(radices, n),
        radices,
    ) && position(digits_at(radices, n), radices) == n by {
        assert(is_position_of_some_digits(radices, n));
    }
    assert forall|d: Seq<int>| digits_valid(d, radices) implies #[trigger] digits_at(
        radices,
        position(d, radices),
    ) == d by {
        let n = position(d, radices);
        let e = digits_at(radices, n);
        assert(digits_valid(e, radices) && position(e, radices) == n);
    }
}

/// The product of all items of `s`.
pub open spec fn product(s: Seq<int>) -> int
    decreases s.len(),
{
    if s.len() == 0 {
        1
    } else {
        product(s.drop_last()) * s.last()
    }
}

/// Any item can be taken out of a product first.
pub proof fn lemma_product_remove(s: Seq<int>, k: int)
    requires
        0 <= k < s.len(),
    ensures
        product(s) == s[k] * product(s.remove(k)),
    decreases s.len(),
{
    if k == s.len() - 1 {
        assert(s.remove(k) =~= s.drop_last());
        let a = product(s.drop_last());
        let b = s.last();
        assert(a * b == b * a) by (nonlinear_arith);
    } else {
        let t = s.drop_last();
        lemma_product_remove(t, k);
        assert(s.remove(k).drop_last() =~= t.remove(k));
        assert(s.remove(k).last() == s.last());
        let x = s[k];
        let y = product(t.remove(k));
        let l = s.last();
        assert((x * y) * l == x * (y * l)) by (nonlinear_arith);
    }
}

/// `place_value(s, from)` is the product of the items from `from` on.
pub proof fn lemma_place_value_is_product(s: Seq<int>, from: int)
    requires
        0 <= from <= s.len(),
    ensures
        place_value(s, from) == product(s.subrange(from, s.len() as int)),
    decreases s.len() - from,
{
    if from < s.len() {
        lemma_place_value_is_product(s, from + 1);
        let t = s.subrange(from, s.len() as int);
        lemma_product_remove(t, 0);
        assert(t.remove(0) =~= s.subrange(from + 1, s.len() as int));
    } else {
        assert(s.subrange(from, s.len() as int) =~= Seq::<int>::empty());
    }
}

/// Taking the items of `s` in the order that the permutation `p` gives does
/// not change their product.
pub proof fn lemma_product_permuted(s: Seq<int>, p: Seq<usize>)
    requires
        s.len() <= usize::MAX,
        p.len() == s.len(),
        forall|j: int| 0 <= j < p.len() ==> #[trigger] p[j] < s.len(),
        forall|a: int, b: int| 0 <= a < p.len() && 0 <= b < p.len() && a != b ==> #[trigger] p[a] != #[trigger] p[b],
        forall|x: usize| x < s.len() ==> #[trigger] p.contains(x),
    ensures
        product(Seq::new(p.len(), |j: int| s[p[j] as int])) == product(s),
    decreases s.len(),
{
    let n = s.len();
    let permuted = Seq::new(p.len(), |j: int| s[p[j] as int]);
    if n == 0 {
        assert(permuted =~= Seq::<int>::empty());
    } else {
        let last = (n - 1) as usize;
        assert(p.contains(last));
        let k = choose|k: int| 0 <= k < p.len() && p[k] == last;
        let s2 = s.drop_last();
        let p2 = p.remove(k);
        assert forall|j: int| 0 <= j < p2.len() implies #[trigger] p2[j] < s2.len() by {
            if j < k {
                assert(p2[j] == p[j] && p[j] != p[k]);
            } else {
                assert(p2[j] == p[j + 1] && p[j + 1] != p[k]);
            }
        }
        assert forall|a: int, b: int|
            0 <= a < p2.len() && 0 <= b < p2.len() && a != b implies #[trigger] p2[a] != #[trigger] p2[b] by {
            let a1 = if a < k { a } else { a + 1 };
            let b1 = if b < k { b } else { b + 1 };
            assert(p2[a] == p[a1] && p2[b] == p[b1]);
        }
        assert forall|x: usize| x < s2.len() implies #[trigger] p2.contains(x) by {
            assert(p.contains(x));
            let j = choose|j: int| 0 <= j < p.len() && p[j] == x;
            assert(j != k);
            if j < k {
                assert(p2[j] == x);
            } else {
                assert(p2[j - 1] == x);
            }
        }
        lemma_product_permuted(s2, p2);
        let permuted2 = Seq::new(p2.len(), |j: int| s2[p2[j] as int]);
        assert(permuted.remove(k) =~= permuted2) by {
            assert forall|j: int| 0 <= j < permuted2.len() implies permuted.remove(k)[j] == permuted2[j] by {
                if j < k {
                    assert(p2[j] == p[j]);
                } else {
                    assert(p2[j] == p[j + 1]);
                }
            }
        }
        lemma_product_remove(permuted, k);
        assert(permuted[k] == s.last());
        let a = product(s2);
        let b = s.last();
        assert(b * a == a * b) by (nonlinear_arith);
    }
}

} // verus!

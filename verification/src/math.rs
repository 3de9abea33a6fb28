//! Integer arithmetic shared by the other modules.
use vstd::prelude::*;

verus! {

/// A quotient of two unsigned integers, kept unreduced.
#[derive(Debug, Clone, Copy, PartialEq, Eq, Structural)]
pub struct Ratio {
    pub num: u64,
    pub den: u64,
}

/// A quotient with a signed numerator, kept unreduced.
#[derive(Debug, Clone, Copy, PartialEq, Eq, Structural)]
pub struct SignedRatio {
    pub num: i128,
    pub den: u64,
}

/// Whether one quotient is larger than another, by cross-multiplication.
pub open spec fn ratio_above(a: SignedRatio, b: SignedRatio) -> bool {
    a.num * b.den > b.num * a.den
}

/// Division that rounds toward zero, as machine integers do.
pub open spec fn trunc_div(a: int, b: int) -> int {
    if a >= 0 {
        if b > 0 {
            a / b
        } else {
            -(a / (-b))
        }
    } else {
        if b > 0 {
            -((-a) / b)
        } else {
            (-a) / (-b)
        }
    }
}

pub open spec fn abs_int(a: int) -> int {
    if a < 0 {
        -a
    } else {
        a
    }
}

pub open spec fn max_int(a: int, b: int) -> int {
    if a >= b {
        a
    } else {
        b
    }
}

pub open spec fn min_int(a: int, b: int) -> int {
    if a <= b {
        a
    } else {
        b
    }
}

/// The sum of a sequence of integers.
pub open spec fn sum_of(s: Seq<int>) -> int
    decreases s.len(),
{
    if s.len() == 0 {
        0
    } else {
        sum_of(s.drop_last()) + s.last()
    }
}

/// Adding one more element adds it to the sum.
pub proof fn lemma_sum_push(s: Seq<int>, x: int)
    ensures
        sum_of(s.push(x)) == sum_of(s) + x,
{
    assert(s.push(x).drop_last() =~= s);
}

/// The sum of a sequence splits at any element taken from the front.
pub proof fn lemma_sum_drop_first(s: Seq<int>)
    requires
        s.len() > 0,
    ensures
        sum_of(s) == s[0] + sum_of(s.subrange(1, s.len() as int)),
    decreases s.len(),
{
    let rest = s.subrange(1, s.len() as int);
    if s.len() == 1 {
        assert(rest =~= Seq::<int>::empty());
        assert(s.drop_last() =~= Seq::<int>::empty());
    } else {
        lemma_sum_drop_first(s.drop_last());
        assert(s.drop_last().subrange(1, s.len() - 1) =~= rest.drop_last());
    }
}

/// A sum of terms that all lie between two bounds lies between the bounds
/// times the number of terms.
pub proof fn lemma_sum_bounds(s: Seq<int>, lo: int, hi: int)
    requires
        forall|i: int| 0 <= i < s.len() ==> lo <= #[trigger] s[i] <= hi,
    ensures
        lo * s.len() <= sum_of(s) <= hi * s.len(),
    decreases s.len(),
{
    if s.len() > 0 {
        let t = s.drop_last();
        assert forall|i: int| 0 <= i < t.len() implies lo <= #[trigger] t[i] <= hi by {
            assert(t[i] == s[i]);
        }
        lemma_sum_bounds(t, lo, hi);
        assert(lo * s.len() == lo * t.len() + lo) by (nonlinear_arith)
            requires
                s.len() == t.len() + 1,
        ;
        assert(hi * s.len() == hi * t.len() + hi) by (nonlinear_arith)
            requires
                s.len() == t.len() + 1,
        ;
    } else {
        assert(lo * s.len() == 0 && hi * s.len() == 0) by (nonlinear_arith)
            requires
                s.len() == 0,
        ;
    }
}

/// The start of a sum of naturals is no larger than the whole.
pub proof fn lemma_prefix_sum(s: Seq<int>, n: int)
    requires
        0 <= n <= s.len(),
        forall|k: int| 0 <= k < s.len() ==> #[trigger] s[k] >= 0,
    ensures
        0 <= sum_of(s.subrange(0, n)) <= sum_of(s),
    decreases s.len() - n,
{
    if n == s.len() {
        assert(s.subrange(0, n) =~= s);
        lemma_sum_nonnegative(s);
    } else {
        lemma_prefix_sum(s, n + 1);
        assert(s.subrange(0, n + 1).drop_last() =~= s.subrange(0, n));
        lemma_sum_nonnegative(s.subrange(0, n));
    }
}

pub proof fn lemma_sum_nonnegative(s: Seq<int>)
    requires
        forall|k: int| 0 <= k < s.len() ==> #[trigger] s[k] >= 0,
    ensures
        sum_of(s) >= 0,
    decreases s.len(),
{
    if s.len() > 0 {
        assert forall|k: int| 0 <= k < s.drop_last().len() implies #[trigger] s.drop_last()[k]
            >= 0 by {
            assert(s.drop_last()[k] == s[k]);
        }
        lemma_sum_nonnegative(s.drop_last());
    }
}

/// Raising one element raises the sum as much.
pub proof fn lemma_sum_update(s: Seq<int>, i: int, x: int)
    requires
        0 <= i < s.len(),
    ensures
        sum_of(s.update(i, x)) == sum_of(s) + x - s[i],
    decreases s.len(),
{
    if i == s.len() - 1 {
        assert(s.update(i, x).drop_last() =~= s.drop_last());
    } else {
        lemma_sum_update(s.drop_last(), i, x);
        assert(s.update(i, x).drop_last() =~= s.drop_last().update(i, x));
    }
}

/// No element of a sequence without negative ones is larger than the sum.
pub proof fn lemma_element_at_most_sum(s: Seq<int>, i: int)
    requires
        0 <= i < s.len(),
        forall|k: int| 0 <= k < s.len() ==> #[trigger] s[k] >= 0,
    ensures
        s[i] <= sum_of(s),
    decreases s.len(),
{
    let t = s.drop_last();
    assert forall|k: int| 0 <= k < t.len() implies #[trigger] t[k] >= 0 by {
        assert(t[k] == s[k]);
    }
    if i == s.len() - 1 {
        lemma_sum_nonnegative(t);
    } else {
        lemma_element_at_most_sum(t, i);
    }
}

pub fn max_i64(a: i64, b: i64) -> (r: i64)
    ensures
        r == max_int(a as int, b as int),
{
    if a >= b {
        a
    } else {
        b
    }
}

pub fn min_i64(a: i64, b: i64) -> (r: i64)
    ensures
        r == min_int(a as int, b as int),
{
    if a <= b {
        a
    } else {
        b
    }
}

pub fn min_usize(a: usize, b: usize) -> (r: usize)
    ensures
        r == min_int(a as int, b as int),
{
    if a <= b {
        a
    } else {
        b
    }
}

pub fn max_usize(a: usize, b: usize) -> (r: usize)
    ensures
        r == max_int(a as int, b as int),
{
    if a >= b {
        a
    } else {
        b
    }
}

/// The magnitude of a signed integer, which always fits the unsigned type.
pub fn magnitude(a: i64) -> (r: u64)
    ensures
        r == abs_int(a as int),
{
    if a < 0 {
        (-(a as i128)) as u64
    } else {
        a as u64
    }
}

/// Division toward zero for every pair of operands that has a quotient.
pub fn div_trunc(a: i64, b: i64) -> (r: i64)
    requires
        b != 0,
        !(a == i64::MIN && b == -1),
    ensures
        r == trunc_div(a as int, b as int),
        abs_int(r as int) <= abs_int(a as int),
{
    let x: u64 = magnitude(a);
    let y: u64 = magnitude(b);
    let q: u64 = x / y;
    assert(q <= x) by (nonlinear_arith)
        requires
            q == x / y,
            y > 0,
    ;
    if (a >= 0) == (b > 0) {
        proof {
            if a < 0 && y == 1 {
                assert(b == -1);
            }
            if y >= 2 {
                assert(q <= x / 2) by (nonlinear_arith)
                    requires
                        q == x / y,
                        y >= 2,
                ;
            }
        }
        q as i64
    } else {
        (-(q as i128)) as i64
    }
}

/// A power of two.
pub open spec fn is_power_of_two(n: int) -> bool
    decreases n,
{
    n == 1 || (n > 1 && n % 2 == 0 && is_power_of_two(n / 2))
}

/// Whether a number is a power of two.
pub fn check_power_of_two(n: usize) -> (r: bool)
    ensures
        r == is_power_of_two(n as int),
{
    if n == 0 {
        return false;
    }
    let mut m: usize = n;
    while m % 2 == 0
        invariant
            m > 0,
            is_power_of_two(m as int) == is_power_of_two(n as int),
        decreases m,
    {
        m = m / 2;
    }
    m == 1
}

/// The smallest power of two that is at least `n`.
pub fn next_power_of_two(n: usize) -> (r: usize)
    requires
        n <= 0x4000_0000,
    ensures
        is_power_of_two(r as int),
        r >= n,
        r == 1 || r < 2 * n,
{
    let mut p: usize = 1;
    while p < n
        invariant
            n <= 0x4000_0000,
            is_power_of_two(p as int),
            1 <= p <= 0x4000_0000 * 2,
            p == 1 || p < 2 * n,
        decreases 2 * n - p,
    {
        p = p * 2;
    }
    p
}

/// A power of two that reaches `n` while half of it does not is the only one.
pub proof fn lemma_power_of_two_unique(a: int, b: int, n: int)
    requires
        is_power_of_two(a),
        is_power_of_two(b),
        a >= n,
        b >= n,
        a == 1 || a < 2 * n,
        b == 1 || b < 2 * n,
        n >= 0,
    ensures
        a == b,
    decreases a + b,
{
    if a == 1 {
        if b != 1 {
            assert(b < 2 * n && n <= 1);
        }
    } else if b == 1 {
        assert(a < 2 * n && n <= 1);
    } else {
        let m = (n + 1) / 2;
        assert(a / 2 == 1 || a / 2 < 2 * m);
        assert(b / 2 == 1 || b / 2 < 2 * m);
        lemma_power_of_two_unique(a / 2, b / 2, m);
    }
}

/// No power of two lies strictly between another and its double.
pub proof fn lemma_no_power_between(a: int, p: int)
    requires
        is_power_of_two(p),
        p < a < 2 * p,
    ensures
        !is_power_of_two(a),
    decreases p,
{
    if p > 1 && a % 2 == 0 {
        lemma_no_power_between(a / 2, p / 2);
    }
}

/// Division toward zero in the wide type by a positive divisor.
pub fn div_trunc_wide(a: i128, b: i128) -> (r: i128)
    requires
        b > 0,
        a > i128::MIN,
    ensures
        r == trunc_div(a as int, b as int),
{
    if a >= 0 {
        a / b
    } else {
        -((-a) / b)
    }
}

/// The larger and the smaller of two numbers are the two, in their order, and a
/// magnitude is the larger of a number and its opposite.
pub proof fn law_bounds_of_two(a: int, b: int)
    ensures
        min_int(a, b) <= a <= max_int(a, b),
        min_int(a, b) <= b <= max_int(a, b),
        min_int(a, b) + max_int(a, b) == a + b,
        min_int(a, b) == a || min_int(a, b) == b,
        abs_int(a) == max_int(a, -a),
{
}

/// A quotient toward zero leaves a remainder smaller than the divisor, with the
/// sign of the dividend.
pub proof fn law_quotient_toward_zero(a: int, b: int)
    requires
        b != 0,
    ensures
        ({
            let rest = a - trunc_div(a, b) * b;
            &&& -abs_int(b) < rest < abs_int(b)
            &&& a >= 0 ==> rest >= 0
            &&& a <= 0 ==> rest <= 0
        }),
{
    let (x, y) = (abs_int(a), abs_int(b));
    let q = x / y;
    vstd::arithmetic::div_mod::lemma_fundamental_div_mod(x, y);
    vstd::arithmetic::div_mod::lemma_mod_bound(x, y);
    assert(x == y * q + x % y);
    let t = trunc_div(a, b);
    assert(a >= 0 ==> t * b == y * q) by (nonlinear_arith)
        requires
            (a >= 0 && b > 0 && y == b && t == q) || (a >= 0 && b < 0 && y == -b && t == -q) || a
                < 0,
    ;
    assert(a < 0 ==> t * b == -(y * q)) by (nonlinear_arith)
        requires
            (a < 0 && b > 0 && y == b && t == -q) || (a < 0 && b < 0 && y == -b && t == q) || a
                >= 0,
    ;
}

/// The sum of two sequences in a row is the sum of both sums, and that of one
/// number is the number.
pub proof fn law_sum_of_parts(s: Seq<int>, t: Seq<int>, x: int)
    ensures
        sum_of(s + t) == sum_of(s) + sum_of(t),
        sum_of(seq![x]) == x,
    decreases t.len(),
{
    assert(seq![x].drop_last() =~= Seq::<int>::empty());
    reveal_with_fuel(sum_of, 2);
    if t.len() == 0 {
        assert(s + t =~= s);
    } else {
        law_sum_of_parts(s, t.drop_last(), x);
        assert((s + t).drop_last() =~= s + t.drop_last());
    }
}

/// Quotients of the same denominator compare as their numerators, and no scale
/// that both parts of a quotient share changes how it compares.
pub proof fn law_quotients_compare(a: SignedRatio, b: SignedRatio, c: SignedRatio, k: int)
    requires
        a.den > 0,
        k > 0,
        c.num == k * a.num,
        c.den == k * a.den,
    ensures
        a.den == b.den ==> (ratio_above(a, b) <==> a.num > b.num),
        ratio_above(c, b) == ratio_above(a, b),
        ratio_above(b, c) == ratio_above(b, a),
        !(ratio_above(a, b) && ratio_above(b, a)),
{
    let (an, ad, bn, bd) = (a.num as int, a.den as int, b.num as int, b.den as int);
    if ad == bd {
        assert(an * bd > bn * ad <==> an > bn) by (nonlinear_arith)
            requires
                ad == bd,
                ad > 0,
        ;
    }
    assert((k * an) * bd == k * (an * bd) && bn * (k * ad) == k * (bn * ad)) by (nonlinear_arith);
    let (x, y) = (an * bd, bn * ad);
    assert((k * x > k * y <==> x > y) && (k * y > k * x <==> y > x)) by (nonlinear_arith)
        requires
            k > 0,
    ;
}

/// The powers of two are one and the doubles of powers of two.
pub proof fn law_powers_of_two(n: int)
    ensures
        is_power_of_two(1),
        n >= 1 ==> is_power_of_two(2 * n) == is_power_of_two(n),
        n >= 1 ==> !is_power_of_two(2 * n + 1),
        n <= 0 ==> !is_power_of_two(n),
{
    if n >= 1 {
        assert((2 * n) / 2 == n && (2 * n) % 2 == 0 && (2 * n + 1) % 2 == 1);
    }
}

} // verus!

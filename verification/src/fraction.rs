//! Quotients that are rounded to some digits behind the point, as fractions in
//! lowest terms.
use vstd::arithmetic::power::{
    lemma_pow_adds, lemma_pow_distributes, lemma_pow_increases, lemma_pow_positive, pow,
};
use vstd::prelude::*;

verus! {

/// The largest number that either side of a fraction holds.
pub const MOST: u128 = 0x7fff_ffff;

/// The whole number nearest to a quotient; of two that are equally near, the
/// larger.
pub open spec fn nearest(dividend: int, divisor: int) -> int {
    (2 * dividend + divisor) / (2 * divisor)
}

/// The rounded quotient is the nearest: it is off by no more than a half, and by
/// less where it is too small.
pub proof fn nearest_is_nearest(dividend: int, divisor: int)
    requires
        divisor > 0,
    ensures
        -divisor <= 2 * (dividend - nearest(dividend, divisor) * divisor) < divisor,
        dividend >= 0 ==> nearest(dividend, divisor) >= 0,
{
    let n = nearest(dividend, divisor);
    let x = 2 * dividend + divisor;
    let y = 2 * divisor;
    assert(n * y <= x < n * y + y && (x >= 0 ==> n >= 0)) by (nonlinear_arith)
        requires
            n == x / y,
            y > 0,
    ;
    assert(n * y == 2 * (n * divisor)) by (nonlinear_arith)
        requires
            y == 2 * divisor,
    ;
}

proof fn only_one_is_nearest(dividend: int, divisor: int, n: int)
    requires
        divisor > 0,
        -divisor <= 2 * (dividend - n * divisor) < divisor,
    ensures
        nearest(dividend, divisor) == n,
{
    nearest_is_nearest(dividend, divisor);
    let m = nearest(dividend, divisor);
    assert(m == n) by (nonlinear_arith)
        requires
            divisor > 0,
            -divisor <= 2 * (dividend - n * divisor) < divisor,
            -divisor <= 2 * (dividend - m * divisor) < divisor,
    ;
}

/// A product of twos and fives.
pub open spec fn scale(twos: nat, fives: nat) -> int {
    pow(2, twos) * pow(5, fives)
}

/// A number over a product of twos and fives in lowest terms: what is left of
/// the number, of the twos and of the fives.
pub open spec fn lowest(number: int, twos: nat, fives: nat) -> (int, nat, nat)
    decreases twos + fives,
{
    if twos > 0 && number % 2 == 0 {
        lowest(number / 2, (twos - 1) as nat, fives)
    } else if fives > 0 && number % 5 == 0 {
        lowest(number / 5, twos, (fives - 1) as nat)
    } else {
        (number, twos, fives)
    }
}

proof fn scale_steps(twos: nat, fives: nat)
    ensures
        scale(0, 0) == 1,
        scale(twos, fives) > 0,
        twos > 0 ==> scale(twos, fives) == 2 * scale((twos - 1) as nat, fives),
        fives > 0 ==> scale(twos, fives) == 5 * scale(twos, (fives - 1) as nat),
{
    reveal(pow);
    lemma_pow_positive(2, twos);
    lemma_pow_positive(5, fives);
    let a = pow(2, twos);
    let b = pow(5, fives);
    assert(a * b > 0) by (nonlinear_arith)
        requires
            a > 0,
            b > 0,
    ;
    if twos > 0 {
        let c = pow(2, (twos - 1) as nat);
        assert(a * b == 2 * (c * b)) by (nonlinear_arith)
            requires
                a == 2 * c,
        ;
    }
    if fives > 0 {
        let c = pow(5, (fives - 1) as nat);
        assert(a * b == 5 * (a * c)) by (nonlinear_arith)
            requires
                b == 5 * c,
        ;
    }
}

proof fn scale_adds(twos: nat, fives: nat, more_twos: nat, more_fives: nat)
    ensures
        scale(twos + more_twos, fives + more_fives) == scale(twos, fives) * scale(
            more_twos,
            more_fives,
        ),
{
    lemma_pow_adds(2, twos, more_twos);
    lemma_pow_adds(5, fives, more_fives);
    let a = pow(2, twos);
    let b = pow(2, more_twos);
    let c = pow(5, fives);
    let d = pow(5, more_fives);
    assert((a * b) * (c * d) == (a * c) * (b * d)) by (nonlinear_arith);
}

pub(crate) proof fn scale_of_ten(digits: nat)
    ensures
        scale(digits, digits) == pow(10, digits),
        pow(10, digits) > 0,
{
    lemma_pow_distributes(2, 5, digits);
    lemma_pow_positive(10, digits);
}

/// A fraction keeps its value in lowest terms: what was taken out of the number
/// was taken out of the twos and the fives.
pub proof fn lowest_keeps_the_value(number: int, twos: nat, fives: nat)
    ensures
        ({
            let (p, i, j) = lowest(number, twos, fives);
            &&& i <= twos
            &&& j <= fives
            &&& number == p * scale((twos - i) as nat, (fives - j) as nat)
            &&& p * scale(twos, fives) == number * scale(i, j)
            &&& number >= 0 ==> p >= 0
        }),
    decreases twos + fives,
{
    let (p, i, j) = lowest(number, twos, fives);
    if twos > 0 && number % 2 == 0 {
        let less = (twos - 1) as nat;
        lowest_keeps_the_value(number / 2, less, fives);
        scale_steps((twos - i) as nat, (fives - j) as nat);
        let s = scale((less - i) as nat, (fives - j) as nat);
        assert(number == p * (2 * s)) by (nonlinear_arith)
            requires
                number / 2 == p * s,
                number == 2 * (number / 2),
        ;
    } else if fives > 0 && number % 5 == 0 {
        let less = (fives - 1) as nat;
        lowest_keeps_the_value(number / 5, twos, less);
        scale_steps((twos - i) as nat, (fives - j) as nat);
        let s = scale((twos - i) as nat, (less - j) as nat);
        assert(number == p * (5 * s)) by (nonlinear_arith)
            requires
                number / 5 == p * s,
                number == 5 * (number / 5),
        ;
    } else {
        scale_steps(0, 0);
        let one = scale((twos - i) as nat, (fives - j) as nat);
        assert(number == p * one) by (nonlinear_arith)
            requires
                one == 1,
                number == p,
        ;
    }
    let taken = scale((twos - i) as nat, (fives - j) as nat);
    let left = scale(i, j);
    scale_adds((twos - i) as nat, (fives - j) as nat, i, j);
    assert(p * (taken * left) == (p * taken) * left) by (nonlinear_arith);
}

proof fn lowest_has_no_factors(number: int, twos: nat, fives: nat)
    ensures
        ({
            let (p, i, j) = lowest(number, twos, fives);
            (i > 0 ==> p % 2 != 0) && (j > 0 ==> p % 5 != 0)
        }),
    decreases twos + fives,
{
    if twos > 0 && number % 2 == 0 {
        lowest_has_no_factors(number / 2, (twos - 1) as nat, fives);
    } else if fives > 0 && number % 5 == 0 {
        lowest_has_no_factors(number / 5, twos, (fives - 1) as nat);
    }
}

proof fn not_a_multiple(number: int, divisor: int, cofactor: int, prime: int)
    requires
        prime == 2 || prime == 5,
        number == divisor * cofactor,
        number % prime != 0,
    ensures
        divisor % prime != 0,
{
    if divisor % prime == 0 {
        let h = divisor / prime;
        assert(number == prime * (h * cofactor)) by (nonlinear_arith)
            requires
                number == divisor * cofactor,
                divisor == prime * h,
        ;
        assert((prime * (h * cofactor)) % prime == 0) by (nonlinear_arith)
            requires
                prime == 2 || prime == 5,
        ;
    }
}

proof fn prime_divides_cofactor(rest: int, divisor: int, cofactor: int, prime: int)
    requires
        prime == 2 || prime == 5,
        prime * rest == divisor * cofactor,
        divisor % prime != 0,
    ensures
        cofactor % prime == 0,
        rest == divisor * (cofactor / prime),
{
    let h = divisor / prime;
    let r = divisor % prime;
    let k = cofactor / prime;
    let c = cofactor % prime;
    assert(divisor * cofactor == prime * (h * cofactor + r * k) + r * c) by (nonlinear_arith)
        requires
            divisor == prime * h + r,
            cofactor == prime * k + c,
    ;
    let u = h * cofactor + r * k;
    assert(r * c == prime * (rest - u)) by (nonlinear_arith)
        requires
            prime * rest == prime * u + r * c,
    ;
    if prime == 2 {
        assert(r == 1 && (c == 0 || c == 1));
        assert(r * c == c) by (nonlinear_arith)
            requires
                r == 1,
        ;
    } else {
        assert(c == 0) by (nonlinear_arith)
            requires
                0 < r < 5,
                0 <= c < 5,
                r * c == 5 * (rest - u),
        {
            assert(r == 1 || r == 2 || r == 3 || r == 4);
            assert(c == 0 || c == 1 || c == 2 || c == 3 || c == 4);
        }
    }
    assert(prime * rest == prime * (divisor * k)) by (nonlinear_arith)
        requires
            prime * rest == divisor * cofactor,
            cofactor == prime * k,
    ;
}

proof fn no_common_divisor(p: int, i: nat, j: nat, divisor: int, p_part: int, q_part: int)
    requires
        i > 0 ==> p % 2 != 0,
        j > 0 ==> p % 5 != 0,
        divisor > 0,
        p == divisor * p_part,
        scale(i, j) == divisor * q_part,
    ensures
        divisor == 1,
    decreases i + j,
{
    scale_steps(i, j);
    if i > 0 {
        not_a_multiple(p, divisor, p_part, 2);
        prime_divides_cofactor(scale((i - 1) as nat, j), divisor, q_part, 2);
        no_common_divisor(p, (i - 1) as nat, j, divisor, p_part, q_part / 2);
    } else if j > 0 {
        not_a_multiple(p, divisor, p_part, 5);
        prime_divides_cofactor(scale(i, (j - 1) as nat), divisor, q_part, 5);
        no_common_divisor(p, i, (j - 1) as nat, divisor, p_part, q_part / 5);
    } else {
        assert(divisor == 1) by (nonlinear_arith)
            requires
                1 == divisor * q_part,
                divisor > 0,
        ;
    }
}

/// A fraction in lowest terms is reduced: nothing but one divides both of its
/// sides.
pub proof fn lowest_is_reduced(number: int, twos: nat, fives: nat, divisor: int)
    requires
        divisor > 0,
        lowest(number, twos, fives).0 % divisor == 0,
        scale(lowest(number, twos, fives).1, lowest(number, twos, fives).2) % divisor == 0,
    ensures
        divisor == 1,
{
    let (p, i, j) = lowest(number, twos, fives);
    let q = scale(i, j);
    lowest_has_no_factors(number, twos, fives);
    assert(p == divisor * (p / divisor)) by (nonlinear_arith)
        requires
            divisor > 0,
            p % divisor == 0,
    ;
    assert(q == divisor * (q / divisor)) by (nonlinear_arith)
        requires
            divisor > 0,
            q % divisor == 0,
    ;
    no_common_divisor(p, i, j, divisor, p / divisor, q / divisor);
}

proof fn five_is_taken_out(number: int, twos: nat, fives: nat)
    ensures
        lowest(5 * number, twos, fives + 1) == lowest(number, twos, fives),
    decreases twos,
{
    if twos > 0 && number % 2 == 0 {
        assert((5 * number) % 2 == 0);
        assert((5 * number) / 2 == 5 * (number / 2));
        five_is_taken_out(number / 2, (twos - 1) as nat, fives);
    } else {
        assert(twos > 0 ==> (5 * number) % 2 != 0);
        assert((5 * number) / 5 == number);
    }
}

proof fn factors_are_taken_out(number: int, twos: nat, fives: nat, more_twos: nat, more_fives: nat)
    ensures
        lowest(number * scale(more_twos, more_fives), twos + more_twos, fives + more_fives)
            == lowest(number, twos, fives),
    decreases more_twos + more_fives,
{
    scale_steps(more_twos, more_fives);
    let s = scale(more_twos, more_fives);
    if more_twos > 0 {
        let less = (more_twos - 1) as nat;
        let t = scale(less, more_fives);
        factors_are_taken_out(number, twos, fives, less, more_fives);
        assert(number * s == 2 * (number * t)) by (nonlinear_arith)
            requires
                s == 2 * t,
        ;
        assert((2 * (number * t)) / 2 == number * t);
    } else if more_fives > 0 {
        let less = (more_fives - 1) as nat;
        let t = scale(more_twos, less);
        factors_are_taken_out(number, twos, fives, more_twos, less);
        assert(number * s == 5 * (number * t)) by (nonlinear_arith)
            requires
                s == 5 * t,
        ;
        five_is_taken_out(number * t, twos, fives + less);
    } else {
        assert(number * s == number) by (nonlinear_arith)
            requires
                s == 1,
        ;
    }
}

/// The two sides of a quotient that is rounded to some digits behind the point,
/// in lowest terms.
pub open spec fn rounded_terms(dividend: int, divisor: int, digits: nat) -> (int, int) {
    let (p, i, j) = lowest(nearest(dividend * pow(10, digits), divisor), digits, digits);
    (p, scale(i, j))
}

/// A fraction of 32-bit numbers, where both sides are such.
pub open spec fn held(terms: (int, int)) -> Option<(i32, i32)> {
    if terms.0 <= MOST && terms.1 <= MOST {
        Some((terms.0 as i32, terms.1 as i32))
    } else {
        None
    }
}

/// A quotient that some digits give exactly is the same with more of them.
pub proof fn exact_quotients_stay(dividend: int, divisor: int, digits: nat, more: nat, number: int)
    requires
        divisor > 0,
        dividend * pow(10, digits) == number * divisor,
    ensures
        rounded_terms(dividend, divisor, digits + more) == rounded_terms(dividend, divisor, digits),
{
    let ten = pow(10, digits);
    let behind = pow(10, more);
    only_one_is_nearest(dividend * ten, divisor, number);
    lemma_pow_adds(10, digits, more);
    scale_of_ten(more);
    assert(dividend * (ten * behind) == (number * behind) * divisor) by (nonlinear_arith)
        requires
            dividend * ten == number * divisor,
    ;
    only_one_is_nearest(dividend * (ten * behind), divisor, number * behind);
    factors_are_taken_out(number, digits, digits, more, more);
}

/// A quotient stays the same where both of its sides are multiplied by one
/// number.
pub(crate) proof fn common_factors_cancel(dividend: int, divisor: int, factor: int, digits: nat)
    requires
        divisor > 0,
        factor > 0,
    ensures
        rounded_terms(dividend * factor, divisor * factor, digits) == rounded_terms(
            dividend,
            divisor,
            digits,
        ),
{
    let ten = pow(10, digits);
    let n = nearest(dividend * ten, divisor);
    nearest_is_nearest(dividend * ten, divisor);
    let a = dividend * ten;
    let wide = (dividend * factor) * ten;
    assert(wide == a * factor) by (nonlinear_arith)
        requires
            a == dividend * ten,
            wide == (dividend * factor) * ten,
    ;
    assert(-(divisor * factor) <= 2 * (wide - n * (divisor * factor)) < divisor * factor
        && divisor * factor > 0) by (nonlinear_arith)
        requires
            -divisor <= 2 * (a - n * divisor) < divisor,
            wide == a * factor,
            divisor > 0,
            factor > 0,
    {
        let z = a - n * divisor;
        assert(wide - n * (divisor * factor) == z * factor);
        assert(2 * (z * factor) < divisor * factor);
        assert(2 * (z * factor) >= -(divisor * factor));
    }
    only_one_is_nearest(wide, divisor * factor, n);
}

/// A quotient that is too large to be held.
pub(crate) proof fn large_quotients_are_not_held(dividend: int, divisor: int, digits: nat)
    requires
        divisor > 0,
        dividend > divisor * 0x1_0000_0000,
    ensures
        held(rounded_terms(dividend, divisor, digits)) is None,
{
    let ten = pow(10, digits);
    let n = nearest(dividend * ten, divisor);
    let (p, i, j) = lowest(n, digits, digits);
    let q = scale(i, j);
    scale_of_ten(digits);
    scale_steps(i, j);
    nearest_is_nearest(dividend * ten, divisor);
    lowest_keeps_the_value(n, digits, digits);
    assert(dividend * ten >= (divisor * 0x1_0000_0000) * ten) by (nonlinear_arith)
        requires
            dividend > divisor * 0x1_0000_0000,
            ten > 0,
    ;
    let limit = 0x1_0000_0000 * ten;
    assert(n >= limit) by (nonlinear_arith)
        requires
            2 * (dividend * ten - n * divisor) < divisor,
            dividend * ten >= (divisor * 0x1_0000_0000) * ten,
            limit == 0x1_0000_0000 * ten,
            divisor > 0,
    {
        assert(divisor * limit == (divisor * 0x1_0000_0000) * ten);
        assert(2 * (divisor * limit - n * divisor) < divisor);
        assert(divisor * (2 * limit - 2 * n - 1) < 0);
    }
    assert(p >= 0x1_0000_0000) by (nonlinear_arith)
        requires
            p * ten == n * q,
            n >= 0x1_0000_0000 * ten,
            q >= 1,
            ten > 0,
    {
        assert(n * q >= n);
        assert((p - 0x1_0000_0000) * ten >= 0);
    }
}

proof fn zero_in_lowest_terms(twos: nat, fives: nat)
    ensures
        lowest(0, twos, fives) == (0int, 0nat, 0nat),
    decreases twos + fives,
{
    if twos > 0 {
        zero_in_lowest_terms((twos - 1) as nat, fives);
    } else if fives > 0 {
        zero_in_lowest_terms(twos, (fives - 1) as nat);
    }
}

/// A quotient that is rounded to zero.
pub(crate) proof fn small_quotients_are_zero(dividend: int, divisor: int, digits: nat)
    requires
        dividend >= 0,
        2 * dividend * pow(10, digits) < divisor,
    ensures
        held(rounded_terms(dividend, divisor, digits)) == Some((0i32, 1i32)),
{
    let ten = pow(10, digits);
    scale_of_ten(digits);
    assert(dividend * ten >= 0 && 2 * dividend * ten == 2 * (dividend * ten)) by (nonlinear_arith)
        requires
            dividend >= 0,
            ten > 0,
    ;
    assert(0 * divisor == 0) by (nonlinear_arith);
    only_one_is_nearest(dividend * ten, divisor, 0);
    zero_in_lowest_terms(digits, digits);
    scale_steps(0, 0);
}

/// A quotient that is not rounded to zero, and is too small to be held.
pub(crate) proof fn tiny_quotients_are_not_held(dividend: int, divisor: int, digits: nat)
    requires
        dividend > 0,
        divisor > dividend * 0x2_0000_0000,
        2 * dividend * pow(10, digits) >= divisor,
    ensures
        held(rounded_terms(dividend, divisor, digits)) is None,
{
    let ten = pow(10, digits);
    let a = dividend * ten;
    let n = nearest(a, divisor);
    let (p, i, j) = lowest(n, digits, digits);
    let q = scale(i, j);
    scale_of_ten(digits);
    scale_steps(i, j);
    nearest_is_nearest(a, divisor);
    lowest_keeps_the_value(n, digits, digits);
    assert(2 * dividend * ten == 2 * a) by (nonlinear_arith)
        requires
            a == dividend * ten,
    ;
    assert(n >= 1) by (nonlinear_arith)
        requires
            2 * (a - n * divisor) < divisor,
            2 * a >= divisor,
            divisor > 0,
    ;
    assert(n * divisor <= 2 * a);
    assert(n * 0x1_0000_0000 < ten) by (nonlinear_arith)
        requires
            n * divisor <= 2 * a,
            a == dividend * ten,
            divisor > dividend * 0x2_0000_0000,
            dividend > 0,
            n >= 1,
    {
        assert(n * divisor > n * (dividend * 0x2_0000_0000));
        assert(dividend * (n * 0x1_0000_0000) < dividend * ten);
    }
    assert(q > 0x1_0000_0000) by (nonlinear_arith)
        requires
            p * ten == n * q,
            n * 0x1_0000_0000 < ten,
            n >= 1,
            q >= 1,
            ten > 0,
    {
        assert(n * q > 0);
        assert(p >= 1);
        assert(p * ten >= ten);
        assert(n * q > n * 0x1_0000_0000);
    }
}

/// A product of a number, twos and fives stays within a limit.
fn within(number: u128, twos: u32, fives: u32, limit: u128) -> (res: bool)
    requires
        limit <= 0x1_0000_0000_0000_0000_0000_0000_0000,
    ensures
        res == (number * scale(twos as nat, fives as nat) <= limit),
{
    let ghost whole = number * scale(twos as nat, fives as nat);
    if number == 0 {
        proof {
            assert(whole == 0) by (nonlinear_arith)
                requires
                    whole == number * scale(twos as nat, fives as nat),
                    number == 0,
            ;
        }
        return true;
    }
    let mut product: u128 = number;
    let mut t: u32 = twos;
    let mut f: u32 = fives;
    while t > 0 || f > 0
        invariant
            limit <= 0x1_0000_0000_0000_0000_0000_0000_0000,
            product > 0,
            product * scale(t as nat, f as nat) == whole,
            whole == number * scale(twos as nat, fives as nat),
        decreases t + f,
    {
        let ghost s = scale(t as nat, f as nat);
        proof {
            scale_steps(t as nat, f as nat);
        }
        if product > limit {
            proof {
                assert(whole > limit) by (nonlinear_arith)
                    requires
                        product * s == whole,
                        product > limit,
                        s > 0,
                ;
            }
            return false;
        }
        if t > 0 {
            proof {
                let less = scale((t - 1) as nat, f as nat);
                assert((product * 2) * less == whole) by (nonlinear_arith)
                    requires
                        product * s == whole,
                        s == 2 * less,
                ;
            }
            product = product * 2;
            t = t - 1;
        } else {
            proof {
                let less = scale(t as nat, (f - 1) as nat);
                assert((product * 5) * less == whole) by (nonlinear_arith)
                    requires
                        product * s == whole,
                        s == 5 * less,
                ;
            }
            product = product * 5;
            f = f - 1;
        }
    }
    proof {
        scale_steps(0, 0);
        assert(product == whole) by (nonlinear_arith)
            requires
                product * scale(0, 0) == whole,
                scale(0, 0) == 1,
        ;
    }
    product <= limit
}

/// As many twos, up to some, as still fit beside some fives.
fn twos_beside(power: u128, fives: u32, most: u32) -> (res: (u32, u128))
    requires
        power == pow(5, fives as nat),
        power <= MOST,
    ensures
        res.0 <= most,
        res.1 == scale(res.0 as nat, fives as nat),
        0 < res.1 <= MOST,
        res.0 == most || 2 * res.1 > MOST,
{
    let mut twos: u32 = 0;
    let mut product: u128 = power;
    proof {
        reveal(pow);
        lemma_pow_positive(5, fives as nat);
        let one = pow(2, 0);
        let p = pow(5, fives as nat);
        assert(one * p == p) by (nonlinear_arith)
            requires
                one == 1,
        ;
    }
    while twos < most && product * 2 <= MOST
        invariant
            twos <= most,
            product == scale(twos as nat, fives as nat),
            0 < product <= MOST,
        decreases most - twos,
    {
        proof {
            scale_steps((twos + 1) as nat, fives as nat);
        }
        product = product * 2;
        twos = twos + 1;
    }
    (twos, product)
}

/// A number over a product of twos and fives in lowest terms.
fn reduced(number: u128, twos: u32, fives: u32, product: u128) -> (res: Option<(i32, i32)>)
    requires
        product == scale(twos as nat, fives as nat),
        product <= MOST,
    ensures
        ({
            let (p, i, j) = lowest(number as int, twos as nat, fives as nat);
            res == held((p, scale(i, j)))
        }),
{
    let mut p: u128 = number;
    let mut q: u128 = product;
    let mut t: u32 = twos;
    let mut f: u32 = fives;
    while (t > 0 && p % 2 == 0) || (f > 0 && p % 5 == 0)
        invariant
            lowest(p as int, t as nat, f as nat) == lowest(
                number as int,
                twos as nat,
                fives as nat,
            ),
            q == scale(t as nat, f as nat),
            q <= MOST,
        decreases t + f,
    {
        proof {
            scale_steps(t as nat, f as nat);
        }
        if t > 0 && p % 2 == 0 {
            p = p / 2;
            q = q / 2;
            t = t - 1;
        } else {
            p = p / 5;
            q = q / 5;
            f = f - 1;
        }
    }
    if p <= MOST {
        Some((p as i32, q as i32))
    } else {
        None
    }
}

proof fn same_fraction(x: int, y: int, digits: nat, i: nat, j: nat, p: int)
    requires
        y > 0,
        i <= digits,
        j <= digits,
        ({
            let k = scale((digits - i) as nat, (digits - j) as nat);
            -y <= 2 * (k * (x * scale(i, j) - p * y)) < y
        }),
    ensures
        lowest(nearest(x * pow(10, digits), y), digits, digits) == lowest(p, i, j),
{
    let q = scale(i, j);
    let k = scale((digits - i) as nat, (digits - j) as nat);
    let ten = pow(10, digits);
    scale_of_ten(digits);
    scale_adds(i, j, (digits - i) as nat, (digits - j) as nat);
    assert(ten == q * k);
    assert(k * (x * q - p * y) == x * ten - (p * k) * y) by (nonlinear_arith)
        requires
            ten == q * k,
    ;
    only_one_is_nearest(x * ten, y, p * k);
    factors_are_taken_out(p, i, j, (digits - i) as nat, (digits - j) as nat);
}

proof fn fraction_is_found(x: int, y: int, digits: nat, i: nat)
    requires
        y > 0,
        ({
            let (p, least, j) = lowest(nearest(x * pow(10, digits), y), digits, digits);
            least <= i <= digits
        }),
    ensures
        ({
            let (p, least, j) = lowest(nearest(x * pow(10, digits), y), digits, digits);
            let q = scale(i, j);
            let k = scale((digits - i) as nat, (digits - j) as nat);
            &&& j <= digits
            &&& -y <= 2 * (k * (x * q - nearest(x * q, y) * y)) < y
        }),
{
    let ten = pow(10, digits);
    let n = nearest(x * ten, y);
    let (p, least, j) = lowest(n, digits, digits);
    lowest_keeps_the_value(n, digits, digits);
    let q = scale(i, j);
    let k = scale((digits - i) as nat, (digits - j) as nat);
    let more = scale((i - least) as nat, 0);
    scale_adds((i - least) as nat, 0, (digits - i) as nat, (digits - j) as nat);
    let m = p * more;
    assert(n == p * (more * k));
    assert(n == m * k) by (nonlinear_arith)
        requires
            n == p * (more * k),
            m == p * more,
    ;
    scale_of_ten(digits);
    scale_adds(i, j, (digits - i) as nat, (digits - j) as nat);
    assert(ten == q * k);
    nearest_is_nearest(x * ten, y);
    assert(k * (x * q - m * y) == x * ten - n * y) by (nonlinear_arith)
        requires
            ten == q * k,
            n == m * k,
    ;
    scale_steps((digits - i) as nat, (digits - j) as nat);
    let z = x * q - m * y;
    assert(-y <= 2 * z < y) by (nonlinear_arith)
        requires
            -y <= 2 * (k * z) < y,
            k >= 1,
            y > 0,
    ;
    only_one_is_nearest(x * q, y, m);
}

/// A quotient that is rounded to some digits behind the point, as a fraction of
/// 32-bit numbers in lowest terms.
pub(crate) fn rounded_quotient(dividend: u128, divisor: u128, digits: u32) -> (res: Option<
    (i32, i32),
>)
    requires
        dividend <= 0x40_0000_0000_0000_0000_0000,
        0 < divisor <= 0x4_0000_0000_0000_0000_0000_0000,
    ensures
        res == held(rounded_terms(dividend as int, divisor as int, digits as nat)),
{
    let ghost x = dividend as int;
    let ghost y = divisor as int;
    let ghost n = nearest(x * pow(10, digits as nat), y);
    let ghost (p0, i0, j0) = lowest(n, digits as nat, digits as nat);
    let mut fives: u32 = 0;
    let mut power: u128 = 1;
    proof {
        reveal(pow);
        lowest_keeps_the_value(n, digits as nat, digits as nat);
        assert(pow(5, 0) == 1);
    }
    while fives <= digits && power <= MOST
        invariant
            dividend <= 0x40_0000_0000_0000_0000_0000,
            0 < divisor <= 0x4_0000_0000_0000_0000_0000_0000,
            x == dividend,
            y == divisor,
            n == nearest(x * pow(10, digits as nat), y),
            (p0, i0, j0) == lowest(n, digits as nat, digits as nat),
            i0 <= digits,
            j0 <= digits,
            fives <= digits + 1,
            power == pow(5, fives as nat),
            fives <= power <= 5 * MOST,
            j0 < fives ==> scale(i0, j0) > MOST,
        decreases digits + 1 - fives,
    {
        let (twos, product) = twos_beside(power, fives, digits);
        let ghost q = product as int;
        proof {
            assert(x * q <= 0x40_0000_0000_0000_0000_0000 * 0x7fff_ffff && x * q >= 0)
                by (nonlinear_arith)
                requires
                    0 <= x <= 0x40_0000_0000_0000_0000_0000,
                    0 < q <= 0x7fff_ffff,
            ;
        }
        let scaled: u128 = dividend * product;
        let number: u128 = (2 * scaled + divisor) / (2 * divisor);
        let ghost p = number as int;
        proof {
            nearest_is_nearest(x * q, y);
            assert(p == nearest(x * q, y));
            assert(p * y >= 0) by (nonlinear_arith)
                requires
                    p >= 0,
                    y > 0,
            ;
        }
        let covered: u128 = number * divisor;
        let ghost k = scale((digits - twos) as nat, (digits - fives) as nat);
        let ghost z = x * q - p * y;
        let near: bool = if scaled >= covered {
            proof {
                assert((2 * z) * k == 2 * (k * z)) by (nonlinear_arith);
                scale_steps((digits - twos) as nat, (digits - fives) as nat);
                assert(2 * (k * z) >= 0) by (nonlinear_arith)
                    requires
                        k > 0,
                        z >= 0,
                ;
            }
            within(2 * (scaled - covered), digits - twos, digits - fives, divisor - 1)
        } else {
            proof {
                assert((2 * (-z)) * k == -(2 * (k * z))) by (nonlinear_arith);
                scale_steps((digits - twos) as nat, (digits - fives) as nat);
                assert(2 * (k * z) < 0) by (nonlinear_arith)
                    requires
                        k > 0,
                        z < 0,
                ;
            }
            within(2 * (covered - scaled), digits - twos, digits - fives, divisor)
        };
        if near {
            proof {
                same_fraction(x, y, digits as nat, twos as nat, fives as nat, p);
            }
            return reduced(number, twos, fives, product);
        }
        proof {
            if j0 == fives && scale(i0, j0) <= MOST {
                if i0 > twos {
                    let i1 = (twos + 1) as nat;
                    scale_steps(i1, j0);
                    lemma_pow_increases(2, i1, i0);
                    lemma_pow_positive(5, j0);
                    assert(pow(2, i1) * pow(5, j0) <= pow(2, i0) * pow(5, j0)) by (nonlinear_arith)
                        requires
                            pow(2, i1) <= pow(2, i0),
                            pow(5, j0) > 0,
                    ;
                } else {
                    fraction_is_found(x, y, digits as nat, twos as nat);
                }
                assert(false);
            }
            reveal(pow);
        }
        power = power * 5;
        fives = fives + 1;
    }
    proof {
        if j0 >= fives {
            lemma_pow_increases(5, fives as nat, j0);
            lemma_pow_positive(2, i0);
            assert(pow(2, i0) * pow(5, j0) > MOST) by (nonlinear_arith)
                requires
                    pow(2, i0) >= 1,
                    pow(5, j0) > MOST,
            ;
        }
    }
    None
}

} // verus!

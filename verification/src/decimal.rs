//! Numbers of any size as their decimal digits.
use vstd::arithmetic::power::{
    lemma_pow1, lemma_pow_adds, lemma_pow_increases, lemma_pow_positive, pow,
};
use vstd::prelude::*;

verus! {

/// The number that some decimal digits stand for, the lowest first.
pub open spec fn number_of(digits: Seq<u8>) -> int
    decreases digits.len(),
{
    if digits.len() == 0 {
        0
    } else {
        number_of(digits.drop_last()) + digits.last() * pow(10, (digits.len() - 1) as nat)
    }
}

/// Whether each digit is one.
pub open spec fn are_digits(digits: Seq<u8>) -> bool {
    forall|i: int| 0 <= i < digits.len() ==> #[trigger] digits[i] <= 9
}

proof fn number_is_bounded(digits: Seq<u8>)
    requires
        are_digits(digits),
    ensures
        0 <= number_of(digits) < pow(10, digits.len()),
    decreases digits.len(),
{
    reveal(pow);
    if digits.len() > 0 {
        let before = digits.drop_last();
        assert(are_digits(before));
        number_is_bounded(before);
        let ten = pow(10, before.len());
        let d = digits[digits.len() - 1] as int;
        assert(0 <= d * ten <= 9 * ten) by (nonlinear_arith)
            requires
                0 <= d <= 9,
                ten > 0,
        ;
    }
}

proof fn number_comes_apart(digits: Seq<u8>, at: int)
    requires
        0 <= at <= digits.len(),
    ensures
        number_of(digits) == number_of(digits.take(at)) + pow(10, at as nat) * number_of(
            digits.skip(at),
        ),
    decreases digits.len(),
{
    let ten = pow(10, at as nat);
    if at == digits.len() {
        assert(digits.take(at) =~= digits);
        assert(ten * number_of(digits.skip(at)) == 0) by (nonlinear_arith)
            requires
                number_of(digits.skip(at)) == 0,
        ;
    } else {
        let before = digits.drop_last();
        let high = digits.skip(at);
        number_comes_apart(before, at);
        assert(before.take(at) =~= digits.take(at));
        assert(before.skip(at) =~= high.drop_last());
        assert(high.last() == digits.last());
        lemma_pow_adds(10, at as nat, (digits.len() - 1 - at) as nat);
        let a = number_of(high.drop_last());
        let d = digits.last() as int;
        let rest = pow(10, (digits.len() - 1 - at) as nat);
        assert(ten * (a + d * rest) == ten * a + d * (ten * rest)) by (nonlinear_arith);
    }
}

proof fn one_digit(digit: u8)
    ensures
        number_of(seq![digit]) == digit,
{
    reveal(pow);
    let one = pow(10, 0);
    assert(number_of(seq![digit].drop_last()) == 0);
    assert(digit * one == digit) by (nonlinear_arith)
        requires
            one == 1,
    ;
}

/// The decimal digits of a number.
pub(crate) fn digits_of(number: u64) -> (res: Vec<u8>)
    ensures
        are_digits(res@),
        number_of(res@) == number,
{
    let mut res: Vec<u8> = Vec::new();
    let mut left: u64 = number;
    proof {
        reveal(pow);
        assert(pow(10, 0) * left == left) by (nonlinear_arith)
            requires
                pow(10, 0) == 1,
        ;
    }
    while left > 0
        invariant
            are_digits(res@),
            number_of(res@) + pow(10, res@.len()) * left == number,
        decreases left,
    {
        let digit: u8 = (left % 10) as u8;
        let ghost before = res@;
        res.push(digit);
        proof {
            reveal(pow);
            assert(res@.drop_last() =~= before);
            let ten = pow(10, before.len());
            let rest = left as int / 10;
            assert(ten * left == digit * ten + (10 * ten) * rest) by (nonlinear_arith)
                requires
                    left == 10 * rest + digit,
            ;
        }
        left = left / 10;
    }
    proof {
        let ten = pow(10, res@.len());
        assert(ten * left == 0) by (nonlinear_arith)
            requires
                left == 0,
        ;
    }
    res
}

/// The decimal digits of twice a number.
pub(crate) fn doubled(digits: &Vec<u8>) -> (res: Vec<u8>)
    requires
        are_digits(digits@),
    ensures
        are_digits(res@),
        number_of(res@) == 2 * number_of(digits@),
{
    let n: usize = digits.len();
    let mut res: Vec<u8> = Vec::new();
    let mut carry: u8 = 0;
    proof {
        assert(carry * pow(10, 0) == 0) by (nonlinear_arith)
            requires
                carry == 0,
        ;
    }
    for i in 0..n
        invariant
            n == digits.len(),
            are_digits(digits@),
            are_digits(res@),
            res@.len() == i,
            carry <= 1,
            number_of(res@) + carry * pow(10, i as nat) == 2 * number_of(digits@.take(i as int)),
    {
        let d: u8 = digits[i];
        let sum: u8 = 2 * d + carry;
        let ghost before = res@;
        let ghost old_carry = carry as int;
        res.push(sum % 10);
        carry = sum / 10;
        proof {
            reveal(pow);
            assert(res@.drop_last() =~= before);
            let part = digits@.take(i + 1);
            assert(part.drop_last() =~= digits@.take(i as int));
            assert(part.last() == d);
            let ten = pow(10, i as nat);
            let low = sum as int % 10;
            assert(low * ten + carry * (10 * ten) == 2 * (d * ten) + old_carry * ten)
                by (nonlinear_arith)
                requires
                    low + 10 * carry == 2 * d + old_carry,
            ;
        }
    }
    proof {
        assert(digits@.take(n as int) =~= digits@);
    }
    if carry > 0 {
        let ghost before = res@;
        res.push(carry);
        proof {
            assert(res@.drop_last() =~= before);
        }
    } else {
        proof {
            let ten = pow(10, n as nat);
            assert(carry * ten == 0) by (nonlinear_arith)
                requires
                    carry == 0,
            ;
        }
    }
    res
}

/// Whether decimal digits stand for more than a number with some zeros behind it.
pub(crate) fn exceeds(digits: &Vec<u8>, number: u128, zeros: u32) -> (res: bool)
    requires
        are_digits(digits@),
        0 < number <= 0xffff_ffff_ffff_ffff_ffff_ffff,
    ensures
        res == (number * pow(10, zeros as nat) < number_of(digits@)),
{
    let n: usize = digits.len();
    let ghost ten = pow(10, zeros as nat);
    proof {
        lemma_pow_positive(10, zeros as nat);
        number_is_bounded(digits@);
    }
    if n <= zeros as usize {
        proof {
            lemma_pow_increases(10, n as nat, zeros as nat);
            assert(number * ten >= ten) by (nonlinear_arith)
                requires
                    number >= 1,
                    ten > 0,
            ;
        }
        return false;
    }
    let from: usize = zeros as usize;
    let mut high: u128 = 0;
    let mut i: usize = n;
    proof {
        number_comes_apart(digits@, from as int);
        assert(are_digits(digits@.take(from as int)));
        number_is_bounded(digits@.take(from as int));
        assert(digits@.skip(n as int) =~= seq![]);
    }
    let ghost low = number_of(digits@.take(from as int));
    let ghost top = number_of(digits@.skip(from as int));
    while i > from
        invariant
            n == digits.len(),
            from == zeros,
            from <= i <= n,
            are_digits(digits@),
            0 < number <= 0xffff_ffff_ffff_ffff_ffff_ffff,
            high <= number,
            high == number_of(digits@.skip(i as int)),
            ten == pow(10, zeros as nat),
            ten > 0,
            top == number_of(digits@.skip(from as int)),
            low >= 0,
            number_of(digits@) == low + ten * top,
        decreases i,
    {
        i = i - 1;
        high = high * 10 + digits[i] as u128;
        proof {
            let part = digits@.skip(i as int);
            number_comes_apart(part, 1);
            assert(part.skip(1) =~= digits@.skip(i + 1));
            assert(part.take(1) =~= seq![digits@[i as int]]);
            one_digit(digits@[i as int]);
            lemma_pow1(10);
        }
        if high > number {
            proof {
                let all = digits@.skip(from as int);
                assert(are_digits(all));
                let at = i - from;
                number_comes_apart(all, at);
                assert(all.skip(at) =~= digits@.skip(i as int));
                assert(are_digits(all.take(at)));
                number_is_bounded(all.take(at));
                lemma_pow_positive(10, at as nat);
                let p = pow(10, at as nat);
                assert(p * high >= high) by (nonlinear_arith)
                    requires
                        p >= 1,
                        high >= 0,
                ;
                assert(number * ten < ten * top) by (nonlinear_arith)
                    requires
                        ten > 0,
                        top > number,
                ;
            }
            return true;
        }
    }
    if high < number {
        proof {
            assert(number * ten >= ten * top + ten) by (nonlinear_arith)
                requires
                    ten > 0,
                    top + 1 <= number,
            ;
        }
        return false;
    }
    proof {
        assert(number * ten == ten * top) by (nonlinear_arith)
            requires
                top == number,
        ;
    }
    let mut j: usize = 0;
    while j < from
        invariant
            from < digits.len(),
            j <= from,
            are_digits(digits@),
            number_of(digits@.take(j as int)) == 0,
            low == number_of(digits@.take(from as int)),
            number_of(digits@) == low + number * pow(10, zeros as nat),
        decreases from - j,
    {
        if digits[j] > 0 {
            proof {
                let part = digits@.take(j + 1);
                let all = digits@.take(from as int);
                assert(part.drop_last() =~= digits@.take(j as int));
                lemma_pow_positive(10, j as nat);
                let p = pow(10, j as nat);
                let d = digits@[j as int] as int;
                assert(d * p > 0) by (nonlinear_arith)
                    requires
                        d > 0,
                        p > 0,
                ;
                number_comes_apart(all, j + 1);
                assert(all.take(j + 1) =~= part);
                assert(are_digits(all.skip(j + 1)));
                number_is_bounded(all.skip(j + 1));
                lemma_pow_positive(10, (j + 1) as nat);
                let u = pow(10, (j + 1) as nat);
                let v = number_of(all.skip(j + 1));
                assert(u * v >= 0) by (nonlinear_arith)
                    requires
                        u > 0,
                        v >= 0,
                ;
            }
            return true;
        }
        proof {
            let part = digits@.take(j + 1);
            assert(part.drop_last() =~= digits@.take(j as int));
            let p = pow(10, j as nat);
            assert(part.last() * p == 0) by (nonlinear_arith)
                requires
                    part.last() == 0,
            ;
        }
        j = j + 1;
    }
    false
}

} // verus!

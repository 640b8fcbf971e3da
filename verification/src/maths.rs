//! Arithmetic on balances.

use vstd::arithmetic::div_mod::lemma_fundamental_div_mod_converse;
use vstd::prelude::*;

verus! {

/// An amount of currency or of shares.
pub type Balance = u128;

/// The result of an operation is above the largest [`Balance`].
#[derive(Debug, Clone, Copy, PartialEq, Eq, Structural)]
pub struct OverflowError;

/// The result of an operation is below zero.
#[derive(Debug, Clone, Copy, PartialEq, Eq, Structural)]
pub struct UnderflowError;

/// `value * mul / div`, rounded down, on unbounded numbers.
pub open spec fn mul_div_floor(value: nat, mul: nat, div: nat) -> nat {
    value * mul / div
}

/// A quotient and a remainder describe `product / div`.
proof fn lemma_quotient(product: int, div: int, quotient: int, remainder: int)
    requires
        product == quotient * div + remainder,
        0 <= remainder < div,
    ensures
        product / div == quotient,
{
    lemma_fundamental_div_mod_converse(product, div, quotient, remainder);
}

/// A product of at least `bound * div` has a quotient of at least `bound`.
proof fn lemma_quotient_at_least(product: int, div: int, bound: int)
    by (nonlinear_arith)
    requires
        0 < div,
        product >= bound * div,
    ensures
        product / div >= bound,
{
}

/// Adds `lhs` and `rhs`, both below `div`, modulo `div`. The flag tells whether `div` was taken
/// off the sum.
fn add_remainders(lhs: Balance, rhs: Balance, div: Balance) -> (r: (Balance, bool))
    requires
        lhs < div,
        rhs < div,
    ensures
        r.0 < div,
        r.1 ==> r.0 + div == lhs + rhs,
        !r.1 ==> r.0 == lhs + rhs,
{
    if lhs >= div - rhs {
        (lhs - (div - rhs), true)
    } else {
        (lhs + rhs, false)
    }
}

/// `quotient + increment`, and one more if `carry` is set.
fn add_quotients(quotient: Balance, increment: Balance, carry: bool) -> (r: Option<Balance>)
    ensures
        match r {
            Some(sum) => sum == quotient + increment + (if carry { 1int } else { 0 }),
            None => quotient + increment + (if carry { 1int } else { 0 }) > Balance::MAX,
        },
{
    match quotient.checked_add(increment) {
        None => None,
        Some(sum) => if carry {
            sum.checked_add(1)
        } else {
            Some(sum)
        },
    }
}

/// Quotient and remainder of `value * mul` by `div`, or `None` where the quotient is above the
/// largest balance. Built from the quotient and the remainder for half of `value`, so that no
/// intermediate value is above the largest balance.
fn mul_div_rem(value: Balance, mul: Balance, div: Balance) -> (r: Option<(Balance, Balance)>)
    requires
        div != 0,
    ensures
        match r {
            Some((quotient, remainder)) => {
                &&& value * mul == quotient * div + remainder
                &&& remainder < div
            },
            None => value * mul >= (Balance::MAX + 1) * div,
        },
    decreases value,
{
    if value == 0 {
        assert(0 * mul == 0 * div + 0) by (nonlinear_arith);
        return Some((0, 0));
    }
    let half: Balance = value / 2;
    let odd: bool = value % 2 == 1;
    let ghost twice = 2 * half;
    assert(value == twice + (if odd { 1int } else { 0 }));
    assert(value * mul >= twice * mul) by (nonlinear_arith)
        requires
            value >= twice,
            mul >= 0,
    ;
    assert(twice * mul == 2 * (half * mul)) by (nonlinear_arith)
        requires
            twice == 2 * half,
    ;
    let (half_quotient, half_remainder) = match mul_div_rem(half, mul, div) {
        None => {
            assert((Balance::MAX + 1) * div >= 0) by (nonlinear_arith)
                requires
                    div >= 0,
            ;
            return None;
        },
        Some(parts) => parts,
    };
    let (remainder, carry) = add_remainders(half_remainder, half_remainder, div);
    let ghost doubled = half_quotient + half_quotient + (if carry { 1int } else { 0 });
    assert(doubled * div == 2 * (half_quotient * div) + (if carry { div as int } else { 0 }))
        by (nonlinear_arith)
        requires
            doubled == half_quotient + half_quotient + (if carry { 1int } else { 0 }),
    ;
    assert(twice * mul == doubled * div + remainder);
    let quotient = match add_quotients(half_quotient, half_quotient, carry) {
        None => {
            assert(doubled * div >= (Balance::MAX + 1) * div) by (nonlinear_arith)
                requires
                    doubled >= Balance::MAX + 1,
                    div >= 0,
            ;
            return None;
        },
        Some(quotient) => quotient,
    };
    if !odd {
        return Some((quotient, remainder));
    }
    let mul_quotient: Balance = mul / div;
    let mul_remainder: Balance = mul % div;
    assert(mul == mul_quotient * div + mul_remainder) by {
        vstd::arithmetic::div_mod::lemma_fundamental_div_mod(mul as int, div as int);
        assert(div * mul_quotient == mul_quotient * div) by (nonlinear_arith);
    }
    assert(value * mul == twice * mul + mul) by (nonlinear_arith)
        requires
            value == twice + 1,
    ;
    let (total_remainder, carry) = add_remainders(remainder, mul_remainder, div);
    let ghost total = quotient + mul_quotient + (if carry { 1int } else { 0 });
    assert(total * div == quotient * div + mul_quotient * div + (if carry {
        div as int
    } else {
        0
    })) by (nonlinear_arith)
        requires
            total == quotient + mul_quotient + (if carry { 1int } else { 0 }),
    ;
    assert(value * mul == total * div + total_remainder);
    match add_quotients(quotient, mul_quotient, carry) {
        None => {
            assert(total * div >= (Balance::MAX + 1) * div) by (nonlinear_arith)
                requires
                    total >= Balance::MAX + 1,
                    div >= 0,
            ;
            None
        },
        Some(total_quotient) => Some((total_quotient, total_remainder)),
    }
}

/// Multiplies `value` by `mul` and divides by `div`, rounding down. The product may be above the
/// largest balance; only a quotient that is gives an error.
pub fn mul_div(value: Balance, mul: Balance, div: Balance) -> (r: Result<Balance, OverflowError>)
    requires
        div != 0,
    ensures
        match r {
            Ok(quotient) => quotient == mul_div_floor(value as nat, mul as nat, div as nat),
            Err(_) => mul_div_floor(value as nat, mul as nat, div as nat) > Balance::MAX,
        },
{
    assert(value * mul >= 0) by (nonlinear_arith);
    match mul_div_rem(value, mul, div) {
        Some((quotient, remainder)) => {
            proof {
                lemma_quotient(
                    value * mul,
                    div as int,
                    quotient as int,
                    remainder as int,
                );
            }
            Ok(quotient)
        },
        None => {
            proof {
                lemma_quotient_at_least(value * mul, div as int, Balance::MAX + 1);
            }
            Err(OverflowError)
        },
    }
}

/// Multiplying and dividing gives the largest whole number whose product with the divisor is not
/// above the product of the factors, and that number is above the largest balance exactly where
/// the product of the factors reaches that many divisors.
pub proof fn law_mul_div_is_the_largest_quotient(value: nat, mul: nat, div: nat)
    requires
        div > 0,
    ensures
        mul_div_floor(value, mul, div) * div <= value * mul,
        value * mul < (mul_div_floor(value, mul, div) + 1) * div,
        mul_div_floor(value, mul, div) > Balance::MAX <==> value * mul >= (Balance::MAX + 1) * div,
{
    let product = (value * mul) as int;
    let quotient = product / div as int;
    vstd::arithmetic::div_mod::lemma_fundamental_div_mod(product, div as int);
    assert(quotient * div <= product < (quotient + 1) * div) by (nonlinear_arith)
        requires
            product == div * quotient + product % (div as int),
            0 <= product % (div as int) < div,
    ;
    if product >= (Balance::MAX + 1) * div {
        lemma_quotient_at_least(product, div as int, Balance::MAX + 1);
    }
    if quotient > Balance::MAX {
        assert(quotient * div >= (Balance::MAX + 1) * div) by (nonlinear_arith)
            requires
                quotient >= Balance::MAX + 1,
                div >= 0,
        ;
    }
}

} // verus!

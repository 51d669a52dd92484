//! Exact rational amounts.
//!
//! Every quantity the ledger works with (asset amounts, cost bases, prices,
//! incomes, expenses) is an `Amount`: a signed rational number `num / den`
//! kept in lowest terms.  All operations are checked: they return `None`
//! instead of overflowing, and they never round, so the ledger's
//! conservation properties hold exactly.

use vstd::prelude::*;
use vstd::arithmetic::div_mod::{
    lemma_fundamental_div_mod, lemma_mod_multiples_basic, lemma_mod_self_0, lemma_small_mod,
};

verus! {

/// A signed rational number `num / den` with `den >= 1`.
///
/// Values produced by the constructors and the checked operations are always
/// in lowest terms, with `num == 0` represented uniquely as `0 / 1`, so
/// structural equality of such values coincides with value equality.
#[derive(Clone, Copy, Debug, PartialEq, Eq, Structural)]
pub struct Amount {
    /// Numerator; carries the sign.
    pub num: i64,
    /// Denominator; always at least 1.
    pub den: u64,
}

/// Absolute value of an integer, as a natural number.
pub open spec fn int_abs(n: int) -> nat {
    if n >= 0 {
        n as nat
    } else {
        (-n) as nat
    }
}

/// Euclid's greatest common divisor.
pub open spec fn gcd(a: nat, b: nat) -> nat
    decreases b,
{
    if b == 0 {
        a
    } else {
        gcd(b, a % b)
    }
}

/// The greatest common divisor divides both arguments and is at least 1
/// whenever one of them is positive.
pub proof fn lemma_gcd_divides(a: nat, b: nat)
    requires
        a > 0 || b > 0,
    ensures
        gcd(a, b) >= 1,
        a % gcd(a, b) == 0,
        b % gcd(a, b) == 0,
    decreases b,
{
    if b == 0 {
        lemma_mod_self_0(a as int);
        lemma_small_mod(0, a);
    } else {
        lemma_gcd_divides(b, a % b);
        let g = gcd(b, a % b) as int;
        lemma_fundamental_div_mod(a as int, b as int);
        lemma_fundamental_div_mod(b as int, g);
        lemma_fundamental_div_mod((a % b) as int, g);
        let qb = b as int / g;
        let qr = (a % b) as int / g;
        let qa = a as int / b as int;
        assert(a as int == (qa * qb + qr) * g) by (nonlinear_arith)
            requires
                a as int == b as int * qa + (a % b) as int,
                b as int == g * qb,
                (a % b) as int == g * qr,
        {}
        lemma_mod_multiples_basic(qa * qb + qr, g);
    }
}

/// A divisor of a positive number is no larger than it.
pub proof fn lemma_divisor_le(x: nat, g: nat)
    requires
        x >= 1,
        g >= 1,
        x % g == 0,
    ensures
        g <= x,
        x / g >= 1,
{
    if g > x {
        lemma_small_mod(x, g);
    }
    lemma_fundamental_div_mod(x as int, g as int);
    if x as int / g as int <= 0 {
        assert(g as int * (x as int / g as int) <= 0) by (nonlinear_arith)
            requires
                g >= 1,
                x as int / g as int <= 0,
        {}
    }
}

/// Reduce `n / d` to lowest terms and pack it into an `Amount`; `None` when
/// the reduced numerator or denominator does not fit the field types.
pub open spec fn norm(n: int, d: int) -> Option<Amount> {
    let g = gcd(int_abs(n), d as nat) as int;
    let rn = n / g;
    let rd = d / g;
    if rn < -(i64::MAX as int) || rn > i64::MAX as int || rd > u64::MAX as int {
        None
    } else {
        Some(Amount { num: rn as i64, den: rd as u64 })
    }
}

/// Exact sum, `None` on overflow.
pub open spec fn spec_add(a: Amount, b: Amount) -> Option<Amount> {
    let n = a.num * b.den + b.num * a.den;
    if n < i128::MIN as int || n > i128::MAX as int {
        None
    } else {
        norm(n, a.den * b.den)
    }
}

/// Exact difference, `None` on overflow.
pub open spec fn spec_sub(a: Amount, b: Amount) -> Option<Amount> {
    let n = a.num * b.den - b.num * a.den;
    if n < i128::MIN as int || n > i128::MAX as int {
        None
    } else {
        norm(n, a.den * b.den)
    }
}

/// Exact product, `None` on overflow.
pub open spec fn spec_mul(a: Amount, b: Amount) -> Option<Amount> {
    norm(a.num * b.num, a.den * b.den)
}

/// Exact quotient, `None` when `b` is zero or on overflow.
pub open spec fn spec_div(a: Amount, b: Amount) -> Option<Amount> {
    if b.num == 0 {
        None
    } else if b.num > 0 {
        norm(a.num * b.den, a.den * b.num)
    } else {
        norm(-(a.num * b.den), a.den * -b.num)
    }
}

/// `a` and `b` denote the same rational value.
pub open spec fn same_value(a: Amount, b: Amount) -> bool {
    a.num * b.den == b.num * a.den
}

/// The value of `a` is strictly below the value of `b`.
pub open spec fn spec_lt(a: Amount, b: Amount) -> bool {
    a.num * b.den < b.num * a.den
}

/// The value of `c` equals the value of `a` plus the value of `b`.
pub open spec fn is_sum(c: Amount, a: Amount, b: Amount) -> bool {
    c.num * (a.den * b.den) == (a.num * b.den + b.num * a.den) * c.den
}

/// The value of `c` equals the value of `a` minus the value of `b`.
pub open spec fn is_diff(c: Amount, a: Amount, b: Amount) -> bool {
    c.num * (a.den * b.den) == (a.num * b.den - b.num * a.den) * c.den
}

/// The value of `c` equals the value of `a` times the value of `b`.
pub open spec fn is_product(c: Amount, a: Amount, b: Amount) -> bool {
    c.num * (a.den * b.den) == (a.num * b.num) * c.den
}

/// The value of `c` equals the value of `a` divided by the value of `b`.
pub open spec fn is_quotient(c: Amount, a: Amount, b: Amount) -> bool {
    c.num * (a.den * b.num) == (a.num * b.den) * c.den
}

/// The product of an `i64`-range factor and a `u64`-range factor fits in `i128`.
proof fn lemma_signed_prod_fits(a: int, b: int)
    by (nonlinear_arith)
    requires
        -0x8000_0000_0000_0000 <= a < 0x8000_0000_0000_0000,
        0 <= b < 0x1_0000_0000_0000_0000,
    ensures
        -0x8000_0000_0000_0000_0000_0000_0000_0000 < a * b
            < 0x8000_0000_0000_0000_0000_0000_0000_0000,
{
}

/// The product of two `i64`-range factors fits in `i128`.
proof fn lemma_num_prod_fits(a: int, b: int)
    by (nonlinear_arith)
    requires
        -0x8000_0000_0000_0000 <= a < 0x8000_0000_0000_0000,
        -0x8000_0000_0000_0000 <= b < 0x8000_0000_0000_0000,
    ensures
        -0x8000_0000_0000_0000_0000_0000_0000_0000 < a * b
            < 0x8000_0000_0000_0000_0000_0000_0000_0000,
{
}

/// The product of two positive `u64`-range factors fits in `u128` and is positive.
proof fn lemma_den_prod_fits(a: int, b: int)
    by (nonlinear_arith)
    requires
        1 <= a < 0x1_0000_0000_0000_0000,
        1 <= b < 0x1_0000_0000_0000_0000,
    ensures
        1 <= a * b < 0x1_0000_0000_0000_0000_0000_0000_0000_0000,
{
}

impl Amount {
    /// Structural well-formedness: a positive denominator, and a numerator
    /// whose negation still fits (so magnitudes never exceed `i64::MAX`).
    pub open spec fn wf(self) -> bool {
        self.den >= 1 && self.num > i64::MIN
    }

    /// The value zero.
    pub fn zero() -> (r: Amount)
        ensures
            r == (Amount { num: 0, den: 1 }),
    {
        Amount { num: 0, den: 1 }
    }

    /// Build `num / den` in lowest terms; `None` when `den` is zero or the
    /// reduced fraction does not fit.
    pub fn new(num: i64, den: u64) -> (r: Option<Amount>)
        ensures
            r == if den == 0 {
                None::<Amount>
            } else {
                norm(num as int, den as int)
            },
            r matches Some(a) ==> a.wf(),
    {
        if den == 0 {
            None
        } else {
            reduce(num as i128, den as u128)
        }
    }

    /// Whether the value is exactly zero.
    pub fn is_zero(&self) -> (r: bool)
        ensures
            r == (self.num == 0),
    {
        self.num == 0
    }

    /// Whether the value is strictly positive.
    pub fn is_pos(&self) -> (r: bool)
        ensures
            r == (self.num > 0),
    {
        self.num > 0
    }

    /// Value comparison: `self < other`.
    pub fn lt(&self, other: &Amount) -> (r: bool)
        ensures
            r == spec_lt(*self, *other),
    {
        proof {
            lemma_signed_prod_fits(self.num as int, other.den as int);
            lemma_signed_prod_fits(other.num as int, self.den as int);
        }
        (self.num as i128) * (other.den as i128) < (other.num as i128) * (self.den as i128)
    }

    /// Exact checked addition.
    pub fn checked_add(&self, other: &Amount) -> (r: Option<Amount>)
        requires
            self.wf(),
            other.wf(),
        ensures
            r == spec_add(*self, *other),
            r matches Some(a) ==> a.wf(),
    {
        proof {
            lemma_signed_prod_fits(self.num as int, other.den as int);
            lemma_signed_prod_fits(other.num as int, self.den as int);
            lemma_den_prod_fits(self.den as int, other.den as int);
        }
        let t1: i128 = (self.num as i128) * (other.den as i128);
        let t2: i128 = (other.num as i128) * (self.den as i128);
        if (t2 > 0 && t1 > i128::MAX - t2) || (t2 < 0 && t1 < i128::MIN - t2) {
            None
        } else {
            reduce(t1 + t2, (self.den as u128) * (other.den as u128))
        }
    }

    /// Exact checked subtraction.
    pub fn checked_sub(&self, other: &Amount) -> (r: Option<Amount>)
        requires
            self.wf(),
            other.wf(),
        ensures
            r == spec_sub(*self, *other),
            r matches Some(a) ==> a.wf(),
    {
        proof {
            lemma_signed_prod_fits(self.num as int, other.den as int);
            lemma_signed_prod_fits(other.num as int, self.den as int);
            lemma_den_prod_fits(self.den as int, other.den as int);
        }
        let t1: i128 = (self.num as i128) * (other.den as i128);
        let t2: i128 = (other.num as i128) * (self.den as i128);
        if (t2 < 0 && t1 > i128::MAX + t2) || (t2 > 0 && t1 < i128::MIN + t2) {
            None
        } else {
            reduce(t1 - t2, (self.den as u128) * (other.den as u128))
        }
    }

    /// Exact checked multiplication.
    pub fn checked_mul(&self, other: &Amount) -> (r: Option<Amount>)
        requires
            self.wf(),
            other.wf(),
        ensures
            r == spec_mul(*self, *other),
            r matches Some(a) ==> a.wf(),
    {
        proof {
            lemma_num_prod_fits(self.num as int, other.num as int);
            lemma_den_prod_fits(self.den as int, other.den as int);
        }
        reduce(
            (self.num as i128) * (other.num as i128),
            (self.den as u128) * (other.den as u128),
        )
    }

    /// Exact checked division.
    pub fn checked_div(&self, other: &Amount) -> (r: Option<Amount>)
        requires
            self.wf(),
            other.wf(),
        ensures
            r == spec_div(*self, *other),
            r matches Some(a) ==> a.wf(),
    {
        if other.num == 0 {
            None
        } else {
            proof {
                lemma_signed_prod_fits(self.num as int, other.den as int);
                if other.num > 0 {
                    lemma_den_prod_fits(self.den as int, other.num as int);
                } else {
                    lemma_den_prod_fits(self.den as int, -other.num as int);
                }
            }
            let n0: i128 = (self.num as i128) * (other.den as i128);
            if other.num > 0 {
                reduce(n0, (self.den as u128) * (other.num as u128))
            } else {
                reduce(-n0, (self.den as u128) * ((-other.num) as u128))
            }
        }
    }
}

/// A successful `norm` yields a well-formed amount with the same value:
/// `norm(n, d) == n / d` as rationals.
pub proof fn lemma_norm_value(n: int, d: int)
    requires
        d >= 1,
        norm(n, d) is Some,
    ensures
        norm(n, d)->Some_0.wf(),
        norm(n, d)->Some_0.num * d == n * norm(n, d)->Some_0.den,
{
    let na = int_abs(n);
    lemma_gcd_divides(na, d as nat);
    let g = gcd(na, d as nat) as int;
    lemma_divisor_le(d as nat, g as nat);
    lemma_fundamental_div_mod(na as int, g);
    lemma_fundamental_div_mod(d, g);
    let k = na as int / g;
    let m = d / g;
    if n < 0 {
        vstd::arithmetic::div_mod::lemma_div_multiples_vanish(-k, g);
        assert(n == g * (-k)) by (nonlinear_arith)
            requires
                na as int == g * k,
                n == -(na as int),
        {}
        assert((-k) * d == n * m) by (nonlinear_arith)
            requires
                n == g * (-k),
                d == g * m,
        {}
    } else {
        vstd::arithmetic::div_mod::lemma_div_multiples_vanish(k, g);
        assert(k * d == n * m) by (nonlinear_arith)
            requires
                n == g * k,
                d == g * m,
        {}
    }
}

/// A successful `checked_add` returns exactly the sum of the two values.
pub proof fn lemma_add_value(a: Amount, b: Amount)
    requires
        a.wf(),
        b.wf(),
        spec_add(a, b) is Some,
    ensures
        is_sum(spec_add(a, b)->Some_0, a, b),
        spec_add(a, b)->Some_0.wf(),
{
    lemma_den_prod_fits(a.den as int, b.den as int);
    lemma_norm_value(a.num * b.den + b.num * a.den, a.den * b.den);
}

/// A successful `checked_sub` returns exactly the difference of the two values.
pub proof fn lemma_sub_value(a: Amount, b: Amount)
    requires
        a.wf(),
        b.wf(),
        spec_sub(a, b) is Some,
    ensures
        is_diff(spec_sub(a, b)->Some_0, a, b),
        spec_sub(a, b)->Some_0.wf(),
{
    lemma_den_prod_fits(a.den as int, b.den as int);
    lemma_norm_value(a.num * b.den - b.num * a.den, a.den * b.den);
}

/// A successful `checked_mul` returns exactly the product of the two values.
pub proof fn lemma_mul_value(a: Amount, b: Amount)
    requires
        a.wf(),
        b.wf(),
        spec_mul(a, b) is Some,
    ensures
        is_product(spec_mul(a, b)->Some_0, a, b),
        spec_mul(a, b)->Some_0.wf(),
{
    lemma_den_prod_fits(a.den as int, b.den as int);
    lemma_norm_value(a.num * b.num, a.den * b.den);
}

/// A successful `checked_div` returns exactly the quotient of the two values.
pub proof fn lemma_div_value(a: Amount, b: Amount)
    requires
        a.wf(),
        b.wf(),
        spec_div(a, b) is Some,
    ensures
        is_quotient(spec_div(a, b)->Some_0, a, b),
        spec_div(a, b)->Some_0.wf(),
{
    let c = spec_div(a, b)->Some_0;
    if b.num > 0 {
        lemma_den_prod_fits(a.den as int, b.num as int);
        lemma_norm_value(a.num * b.den, a.den * b.num);
    } else {
        lemma_den_prod_fits(a.den as int, -b.num as int);
        lemma_norm_value(-(a.num * b.den), a.den * -b.num);
        assert(c.num * (a.den * b.num) == (a.num * b.den) * c.den) by (nonlinear_arith)
            requires
                c.num * (a.den * -b.num) == (-(a.num * b.den)) * c.den,
        {}
    }
}

/// A mathematical rational value, for specification only: numerator over a
/// positive denominator, with no bound on either.
pub struct Rat {
    /// Numerator.
    pub n: int,
    /// Denominator, positive.
    pub d: int,
}

/// A rational value is well-formed when its denominator is positive.
pub open spec fn rat_wf(x: Rat) -> bool {
    x.d > 0
}

/// The value denoted by an `Amount`.
pub open spec fn val(a: Amount) -> Rat {
    Rat { n: a.num as int, d: a.den as int }
}

/// Equality of rational values, by cross-multiplication.
pub open spec fn rat_eq(x: Rat, y: Rat) -> bool {
    x.n * y.d == y.n * x.d
}

/// The rational zero.
pub open spec fn rat_zero() -> Rat {
    Rat { n: 0, d: 1 }
}

/// Exact sum of rational values.
pub open spec fn rat_add(x: Rat, y: Rat) -> Rat {
    Rat { n: x.n * y.d + y.n * x.d, d: x.d * y.d }
}

/// Exact difference of rational values.
pub open spec fn rat_sub(x: Rat, y: Rat) -> Rat {
    Rat { n: x.n * y.d - y.n * x.d, d: x.d * y.d }
}

/// Exact product of rational values.
pub open spec fn rat_mul(x: Rat, y: Rat) -> Rat {
    Rat { n: x.n * y.n, d: x.d * y.d }
}

/// Sum of a sequence of rational values.
pub open spec fn rat_sum(s: Seq<Rat>) -> Rat
    decreases s.len(),
{
    if s.len() == 0 {
        rat_zero()
    } else {
        rat_add(rat_sum(s.drop_last()), s.last())
    }
}

/// Equality of rational values is transitive.
pub proof fn lemma_rat_eq_trans(x: Rat, y: Rat, z: Rat)
    by (nonlinear_arith)
    requires
        rat_wf(x),
        rat_wf(y),
        rat_wf(z),
        rat_eq(x, y),
        rat_eq(y, z),
    ensures
        rat_eq(x, z),
{
}

/// Adding equal values to equal values gives equal values.
pub proof fn lemma_rat_add_congruence(x1: Rat, y1: Rat, x2: Rat, y2: Rat)
    requires
        rat_wf(x1),
        rat_wf(y1),
        rat_wf(x2),
        rat_wf(y2),
        rat_eq(x1, x2),
        rat_eq(y1, y2),
    ensures
        rat_eq(rat_add(x1, y1), rat_add(x2, y2)),
        rat_wf(rat_add(x1, y1)),
{
    let l = rat_add(x1, y1);
    let r = rat_add(x2, y2);
    assert((x1.n * y1.d) * (x2.d * y2.d) == (x2.n * y2.d) * (x1.d * y1.d)) by (nonlinear_arith)
        requires
            x1.n * x2.d == x2.n * x1.d,
    {}
    assert((y1.n * x1.d) * (x2.d * y2.d) == (y2.n * x2.d) * (x1.d * y1.d)) by (nonlinear_arith)
        requires
            y1.n * y2.d == y2.n * y1.d,
    {}
    assert(l.n * r.d == r.n * l.d) by (nonlinear_arith)
        requires
            (x1.n * y1.d) * (x2.d * y2.d) == (x2.n * y2.d) * (x1.d * y1.d),
            (y1.n * x1.d) * (x2.d * y2.d) == (y2.n * x2.d) * (x1.d * y1.d),
            l.n == x1.n * y1.d + y1.n * x1.d,
            l.d == x1.d * y1.d,
            r.n == x2.n * y2.d + y2.n * x2.d,
            r.d == x2.d * y2.d,
    {}
    assert(l.d > 0) by (nonlinear_arith)
        requires
            x1.d > 0,
            y1.d > 0,
            l.d == x1.d * y1.d,
    {}
}

/// Multiplying equal values by equal values gives equal values.
pub proof fn lemma_rat_mul_congruence(x1: Rat, y1: Rat, x2: Rat, y2: Rat)
    by (nonlinear_arith)
    requires
        rat_wf(x1),
        rat_wf(y1),
        rat_wf(x2),
        rat_wf(y2),
        rat_eq(x1, x2),
        rat_eq(y1, y2),
    ensures
        rat_eq(rat_mul(x1, y1), rat_mul(x2, y2)),
        rat_wf(rat_mul(x1, y1)),
{
}

/// Subtracting equal values from equal values gives equal values.
pub proof fn lemma_rat_sub_congruence(x1: Rat, y1: Rat, x2: Rat, y2: Rat)
    requires
        rat_wf(x1),
        rat_wf(y1),
        rat_wf(x2),
        rat_wf(y2),
        rat_eq(x1, x2),
        rat_eq(y1, y2),
    ensures
        rat_eq(rat_sub(x1, y1), rat_sub(x2, y2)),
        rat_wf(rat_sub(x1, y1)),
{
    let l = rat_sub(x1, y1);
    let r = rat_sub(x2, y2);
    assert((x1.n * y1.d) * (x2.d * y2.d) == (x2.n * y2.d) * (x1.d * y1.d)) by (nonlinear_arith)
        requires
            x1.n * x2.d == x2.n * x1.d,
    {}
    assert((y1.n * x1.d) * (x2.d * y2.d) == (y2.n * x2.d) * (x1.d * y1.d)) by (nonlinear_arith)
        requires
            y1.n * y2.d == y2.n * y1.d,
    {}
    assert(l.n * r.d == r.n * l.d) by (nonlinear_arith)
        requires
            (x1.n * y1.d) * (x2.d * y2.d) == (x2.n * y2.d) * (x1.d * y1.d),
            (y1.n * x1.d) * (x2.d * y2.d) == (y2.n * x2.d) * (x1.d * y1.d),
            l.n == x1.n * y1.d - y1.n * x1.d,
            l.d == x1.d * y1.d,
            r.n == x2.n * y2.d - y2.n * x2.d,
            r.d == x2.d * y2.d,
    {}
    assert(l.d > 0) by (nonlinear_arith)
        requires
            x1.d > 0,
            y1.d > 0,
            l.d == x1.d * y1.d,
    {}
}

/// Multiplication of rational values is commutative.
pub proof fn lemma_rat_mul_comm(x: Rat, y: Rat)
    by (nonlinear_arith)
    requires
        rat_wf(x),
        rat_wf(y),
    ensures
        rat_eq(rat_mul(x, y), rat_mul(y, x)),
{
}

/// Addition of rational values is associative.
pub proof fn lemma_rat_add_assoc(x: Rat, y: Rat, z: Rat)
    requires
        rat_wf(x),
        rat_wf(y),
        rat_wf(z),
    ensures
        rat_eq(rat_add(rat_add(x, y), z), rat_add(x, rat_add(y, z))),
{
    broadcast use vstd::arithmetic::mul::group_mul_properties;

    let l = rat_add(rat_add(x, y), z);
    let r = rat_add(x, rat_add(y, z));
    assert(l.d == r.d) by (nonlinear_arith)
        requires
            l.d == (x.d * y.d) * z.d,
            r.d == x.d * (y.d * z.d),
    {}
    assert((x.n * y.d + y.n * x.d) * z.d == x.n * y.d * z.d + y.n * x.d * z.d) by (nonlinear_arith)
    {}
    assert((y.n * z.d + z.n * y.d) * x.d == y.n * z.d * x.d + z.n * y.d * x.d) by (nonlinear_arith)
    {}
    assert(z.n * (x.d * y.d) == z.n * y.d * x.d) by (nonlinear_arith) {}
    assert(x.n * (y.d * z.d) == x.n * y.d * z.d) by (nonlinear_arith) {}
    assert(y.n * x.d * z.d == y.n * z.d * x.d) by (nonlinear_arith) {}
    assert(l.n == r.n);
}

/// Adding zero does not change a value.
pub proof fn lemma_rat_add_zero(x: Rat)
    ensures
        rat_eq(rat_add(x, rat_zero()), x),
{
}

/// `a - (a - b) == b`.
pub proof fn lemma_rat_sub_sub(x: Rat, y: Rat)
    by (nonlinear_arith)
    requires
        rat_wf(x),
        rat_wf(y),
    ensures
        rat_eq(rat_sub(x, rat_sub(x, y)), y),
{
}

/// Sums, differences and products of well-formed values are well-formed.
pub proof fn lemma_rat_ops_wf(x: Rat, y: Rat)
    by (nonlinear_arith)
    requires
        rat_wf(x),
        rat_wf(y),
    ensures
        rat_wf(rat_add(x, y)),
        rat_wf(rat_sub(x, y)),
        rat_wf(rat_mul(x, y)),
{
}

/// The sum of well-formed rational values is well-formed.
pub proof fn lemma_rat_sum_wf(s: Seq<Rat>)
    requires
        forall|i: int| 0 <= i < s.len() ==> rat_wf(#[trigger] s[i]),
    ensures
        rat_wf(rat_sum(s)),
    decreases s.len(),
{
    if s.len() > 0 {
        lemma_rat_sum_wf(s.drop_last());
        let a = rat_sum(s.drop_last());
        let b = s.last();
        assert(a.d * b.d > 0) by (nonlinear_arith)
            requires
                a.d > 0,
                b.d > 0,
        {}
    }
}

/// `a + (b - a) == b`: a successful subtraction undoes the addition.
pub proof fn lemma_rat_add_sub(x: Rat, y: Rat)
    by (nonlinear_arith)
    requires
        rat_wf(x),
        rat_wf(y),
    ensures
        rat_eq(rat_add(x, rat_sub(y, x)), y),
{
}

/// A successful `checked_add` result denotes the exact sum of the values.
pub proof fn lemma_add_val(a: Amount, b: Amount)
    requires
        a.wf(),
        b.wf(),
        spec_add(a, b) is Some,
    ensures
        rat_eq(val(spec_add(a, b)->Some_0), rat_add(val(a), val(b))),
        rat_wf(val(spec_add(a, b)->Some_0)),
{
    lemma_add_value(a, b);
}

/// A successful `checked_sub` result denotes the exact difference of the values.
pub proof fn lemma_sub_val(a: Amount, b: Amount)
    requires
        a.wf(),
        b.wf(),
        spec_sub(a, b) is Some,
    ensures
        rat_eq(val(spec_sub(a, b)->Some_0), rat_sub(val(a), val(b))),
        rat_wf(val(spec_sub(a, b)->Some_0)),
{
    lemma_sub_value(a, b);
}

/// A successful `checked_mul` result denotes the exact product of the values.
pub proof fn lemma_mul_val(a: Amount, b: Amount)
    requires
        a.wf(),
        b.wf(),
        spec_mul(a, b) is Some,
    ensures
        rat_eq(val(spec_mul(a, b)->Some_0), rat_mul(val(a), val(b))),
        rat_wf(val(spec_mul(a, b)->Some_0)),
{
    lemma_mul_value(a, b);
}

/// The difference of a larger value and a smaller one is strictly positive,
/// and subtracting a value from itself gives zero.
pub proof fn lemma_sub_sign(a: Amount, b: Amount)
    requires
        a.wf(),
        b.wf(),
        spec_sub(a, b) is Some,
    ensures
        spec_lt(b, a) ==> spec_sub(a, b)->Some_0.num > 0,
        !spec_lt(a, b) ==> spec_sub(a, b)->Some_0.num >= 0,
        a == b ==> spec_sub(a, b)->Some_0.num == 0,
{
    lemma_sub_value(a, b);
    let c = spec_sub(a, b)->Some_0;
    if !spec_lt(a, b) {
        assert(c.num >= 0) by (nonlinear_arith)
            requires
                c.num * (a.den * b.den) == (a.num * b.den - b.num * a.den) * c.den,
                a.num * b.den >= b.num * a.den,
                a.den >= 1,
                b.den >= 1,
                c.den >= 1,
        {}
    }
    if spec_lt(b, a) {
        assert(c.num > 0) by (nonlinear_arith)
            requires
                c.num * (a.den * b.den) == (a.num * b.den - b.num * a.den) * c.den,
                b.num * a.den < a.num * b.den,
                a.den >= 1,
                b.den >= 1,
                c.den >= 1,
        {}
    }
    if a == b {
        assert(c.num == 0) by (nonlinear_arith)
            requires
                c.num * (a.den * b.den) == (a.num * b.den - b.num * a.den) * c.den,
                a.num == b.num,
                a.den == b.den,
                a.den >= 1,
                c.den >= 1,
        {}
    }
}

/// Euclid's algorithm, tied to the `gcd` specification.
fn gcd_u128(a: u128, b: u128) -> (g: u128)
    requires
        a > 0 || b > 0,
    ensures
        g as nat == gcd(a as nat, b as nat),
        g >= 1,
{
    let mut x = a;
    let mut y = b;
    while y != 0
        invariant
            gcd(x as nat, y as nat) == gcd(a as nat, b as nat),
            x > 0 || y > 0,
        decreases y,
    {
        let t = x % y;
        x = y;
        y = t;
    }
    x
}

/// Reduce `n / d` to lowest terms; `None` when the result does not fit.
fn reduce(n: i128, d: u128) -> (r: Option<Amount>)
    requires
        d >= 1,
    ensures
        r == norm(n as int, d as int),
        r matches Some(a) ==> a.wf(),
{
    let na: u128 = if n >= 0 {
        n as u128
    } else {
        ((-(n + 1)) as u128) + 1
    };
    proof {
        lemma_gcd_divides(na as nat, d as nat);
    }
    let g = gcd_u128(na, d);
    let rn = na / g;
    let rd = d / g;
    proof {
        lemma_divisor_le(d as nat, g as nat);
        lemma_fundamental_div_mod(na as int, g as int);
        lemma_fundamental_div_mod(d as int, g as int);
        // The signed quotient `n / g` is exact, so it is `rn` up to sign.
        if n < 0 {
            vstd::arithmetic::div_mod::lemma_div_multiples_vanish(-(rn as int), g as int);
            assert(n as int == g as int * -(rn as int)) by (nonlinear_arith)
                requires
                    na as int == g as int * (rn as int),
                    n as int == -(na as int),
            {}
        } else {
            vstd::arithmetic::div_mod::lemma_div_multiples_vanish(rn as int, g as int);
        }
    }
    if rn > i64::MAX as u128 || rd > u64::MAX as u128 {
        None
    } else {
        let num: i64 = if n < 0 {
            -(rn as i64)
        } else {
            rn as i64
        };
        Some(Amount { num, den: rd as u64 })
    }
}

} // verus!

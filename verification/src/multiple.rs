//! Exact positive divisors.

use vstd::arithmetic::div_mod::{lemma_fundamental_div_mod, lemma_mod_multiples_basic, lemma_mod_self_0};
use vstd::arithmetic::mul::lemma_mul_is_associative;
use vstd::arithmetic::power2::{
    lemma2_to64, lemma_pow2_adds, lemma_pow2_pos, lemma_pow2_strictly_increases,
    lemma_pow2_unfold, pow2,
};
use vstd::prelude::*;

verus! {

/// What is left of `n` once every factor of two is divided out.
pub open spec fn odd_part(n: nat) -> nat
    decreases n,
{
    if n == 0 || n % 2 == 1 {
        n
    } else {
        odd_part(n / 2)
    }
}

/// How many times two divides `n`.
pub open spec fn twos(n: nat) -> nat
    decreases n,
{
    if n == 0 || n % 2 == 1 {
        0
    } else {
        1 + twos(n / 2)
    }
}

/// A positive number `mantissa * 2^exponent` with an odd mantissa.
///
/// Every positive binary fraction has exactly one such form, so two divisors
/// are equal exactly when their fields are. Half of the mantissa, rounded
/// down, is what is stored: no value of the type stands for zero or for an
/// even mantissa.
#[derive(Debug, PartialEq, Eq, Clone, Copy, Structural)]
pub struct Multiple {
    half: u64,
    exponent: i64,
}

impl Multiple {
    /// The odd mantissa.
    pub closed spec fn mantissa(self) -> nat {
        (2 * self.half + 1) as nat
    }

    /// The power of two by which the mantissa is scaled.
    pub closed spec fn exponent(self) -> int {
        self.exponent as int
    }

    /// `self` is a whole multiple of `base`: the quotient
    /// `(self.mantissa / base.mantissa) * 2^(self.exponent - base.exponent)`
    /// is an integer exactly when the odd mantissas divide and the exponent
    /// does not drop.
    pub open spec fn is_multiple_of(self, base: Multiple) -> bool {
        self.mantissa() % base.mantissa() == 0 && self.exponent() >= base.exponent()
    }

    /// The divisor counted in units of `2^floor`, for a `floor` at or below
    /// its exponent: a whole number.
    pub open spec fn scaled(self, floor: int) -> nat {
        self.mantissa() * pow2((self.exponent() - floor) as nat)
    }

    /// The divisor `mantissa * 2^exponent`, brought to its odd mantissa.
    /// There is none for a mantissa of zero.
    pub fn new(mantissa: u64, exponent: i32) -> (r: Option<Multiple>)
        ensures
            (r is None) == (mantissa == 0),
            r matches Some(m) ==> m.mantissa() == odd_part(mantissa as nat) && m.exponent()
                == exponent + twos(mantissa as nat),
    {
        if mantissa == 0 {
            return None;
        }
        let mut m: u64 = mantissa;
        let mut e: i64 = exponent as i64;
        let ghost mut k: nat = 0;
        proof {
            lemma2_to64();
        }
        while m % 2 == 0
            invariant
                m > 0,
                m * pow2(k) == mantissa,
                e == exponent + k,
                k < 64,
                odd_part(m as nat) == odd_part(mantissa as nat),
                twos(m as nat) + k == twos(mantissa as nat),
            decreases m,
        {
            proof {
                lemma_halving(m as nat, k, mantissa as nat);
            }
            m = m / 2;
            e = e + 1;
            proof {
                k = k + 1;
            }
        }
        Some(Multiple { half: m / 2, exponent: e })
    }

    /// Whether `self` is a whole multiple of `base`.
    pub fn is_multiple(&self, base: &Multiple) -> (r: bool)
        ensures
            r == self.is_multiple_of(*base),
    {
        let a: u128 = 2 * (self.half as u128) + 1;
        let b: u128 = 2 * (base.half as u128) + 1;
        a % b == 0 && self.exponent >= base.exponent
    }
}

/// One halving step: an even `m` with `m * 2^k == total < 2^64` has
/// `(m / 2) * 2^(k + 1) == total`, and `k + 1` stays under 64.
proof fn lemma_halving(m: nat, k: nat, total: nat)
    requires
        m > 0,
        m % 2 == 0,
        m * pow2(k) == total,
        total <= u64::MAX,
    ensures
        (m / 2) * pow2(k + 1) == total,
        k + 1 < 64,
{
    lemma_pow2_unfold(k + 1);
    assert((m / 2) * (2 * pow2(k)) == m * pow2(k)) by (nonlinear_arith)
        requires
            m % 2 == 0,
    ;
    if k + 1 >= 64 {
        lemma2_to64();
        if k + 1 > 64 {
            lemma_pow2_strictly_increases(64, k + 1);
        }
        assert((m / 2) * pow2(k + 1) >= pow2(k + 1)) by (nonlinear_arith)
            requires
                m / 2 >= 1,
        ;
    }
}

/// The odd part and the count of twos put a positive number back together.
pub proof fn lemma_odd_part(n: nat)
    requires
        n > 0,
    ensures
        odd_part(n) % 2 == 1,
        odd_part(n) * pow2(twos(n)) == n,
    decreases n,
{
    if n % 2 == 1 {
        lemma2_to64();
        assert(n * 1 == n);
    } else {
        let half = n / 2;
        lemma_odd_part(half);
        assert(twos(n) == 1 + twos(half));
        assert(odd_part(n) == odd_part(half));
        lemma_pow2_unfold(twos(n));
        assert(pow2(twos(n)) == 2 * pow2(twos(half)));
        assert(odd_part(half) * (2 * pow2(twos(half))) == 2 * (odd_part(half) * pow2(twos(half))))
            by (nonlinear_arith);
    }
}

/// Every divisor is a multiple of itself.
pub proof fn lemma_multiple_reflexive(a: Multiple)
    ensures
        a.is_multiple_of(a),
{
    lemma_mod_self_0(a.mantissa() as int);
}

/// A multiple of a multiple is a multiple.
pub proof fn lemma_multiple_transitive(a: Multiple, b: Multiple, c: Multiple)
    requires
        a.is_multiple_of(b),
        b.is_multiple_of(c),
    ensures
        a.is_multiple_of(c),
{
    let x = a.mantissa() as int;
    let y = b.mantissa() as int;
    let z = c.mantissa() as int;
    lemma_fundamental_div_mod(x, y);
    lemma_fundamental_div_mod(y, z);
    lemma_mul_is_associative(z, y / z, x / y);
    assert(x == z * ((y / z) * (x / y)));
    lemma_mod_multiples_basic((y / z) * (x / y), z);
    assert(((y / z) * (x / y)) * z == x) by (nonlinear_arith)
        requires
            x == z * ((y / z) * (x / y)),
    ;
}

/// An odd number that divides `x * 2^d` divides `x`.
proof fn lemma_odd_divisor(x: nat, d: nat, y: nat, k: nat)
    requires
        y % 2 == 1,
        x * pow2(d) == k * y,
    ensures
        x % y == 0,
    decreases d,
{
    if d == 0 {
        lemma2_to64();
        assert(x == k * y) by (nonlinear_arith)
            requires
                x * 1 == k * y,
        ;
        lemma_mod_multiples_basic(k as int, y as int);
    } else {
        lemma_pow2_unfold(d);
        let rest = pow2((d - 1) as nat);
        assert(x * (2 * rest) == 2 * (x * rest)) by (nonlinear_arith);
        if k % 2 == 1 {
            let i = k / 2;
            let j = y / 2;
            assert(k * y == 2 * (2 * i * j + i + j) + 1) by (nonlinear_arith)
                requires
                    k == 2 * i + 1,
                    y == 2 * j + 1,
            ;
            assert(false);
        }
        let half = k / 2;
        assert(x * rest == half * y) by (nonlinear_arith)
            requires
                2 * (x * rest) == k * y,
                k == 2 * half,
        ;
        lemma_odd_divisor(x, (d - 1) as nat, y, half);
    }
}

/// `total` is `k` times `unit`.
pub open spec fn is_times(total: nat, k: nat, unit: nat) -> bool {
    total == k * unit
}

/// What [`Multiple::is_multiple_of`] decides: counted in a common unit
/// `2^floor`, `a` is a whole number of times `b`.
pub proof fn lemma_multiple_is_whole_quotient(a: Multiple, b: Multiple, floor: int)
    requires
        floor <= a.exponent(),
        floor <= b.exponent(),
    ensures
        a.is_multiple_of(b) <==> exists|k: nat|
            #[trigger] is_times(a.scaled(floor), k, b.scaled(floor)),
{
    let x = a.mantissa();
    let y = b.mantissa();
    let da = (a.exponent() - floor) as nat;
    let db = (b.exponent() - floor) as nat;
    lemma_pow2_pos(da);
    lemma_pow2_pos(db);
    if a.is_multiple_of(b) {
        let q = (x / y) as nat;
        let up = (da - db) as nat;
        lemma_fundamental_div_mod(x as int, y as int);
        lemma_pow2_adds(db, up);
        lemma_pow2_pos(up);
        let k = q * pow2(up);
        assert(x * pow2(da) == k * (y * pow2(db))) by (nonlinear_arith)
            requires
                x == y * q,
                pow2(da) == pow2(db) * pow2(up),
                k == q * pow2(up),
        ;
        assert(is_times(a.scaled(floor), k, b.scaled(floor)));
    }
    if exists|k: nat| #[trigger] is_times(a.scaled(floor), k, b.scaled(floor)) {
        let k = choose|k: nat| #[trigger] is_times(a.scaled(floor), k, b.scaled(floor));
        assert(x * pow2(da) == k * (y * pow2(db)));
        if da < db {
            let up = (db - da) as nat;
            lemma_pow2_adds(da, up);
            lemma_pow2_unfold(up);
            let rest = pow2((up - 1) as nat);
            assert(x == 2 * (k * y * rest)) by (nonlinear_arith)
                requires
                    x * pow2(da) == k * (y * (pow2(da) * (2 * rest))),
                    pow2(da) > 0,
            ;
            assert(false);
        }
        let up = (da - db) as nat;
        lemma_pow2_adds(db, up);
        assert(x * pow2(up) == k * y) by (nonlinear_arith)
            requires
                x * (pow2(db) * pow2(up)) == k * (y * pow2(db)),
                pow2(db) > 0,
        ;
        lemma_odd_divisor(x, up, y, k);
    }
}

} // verus!

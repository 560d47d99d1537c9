use vstd::prelude::*;

use vstd::arithmetic::div_mod::{lemma_fundamental_div_mod, lemma_mod_multiples_basic};

verus! {

/// An exact non-negative rational `numer / denom`, as carried by an edge capacity.
#[derive(Clone, Copy, Debug, PartialEq, Eq, Structural)]
pub struct Capacity {
    pub numer: u128,
    pub denom: u128,
}

/// An exact rational in the solver's native representation (`i32` numerator and denominator).
#[derive(Clone, Copy, Debug, PartialEq, Eq, Structural)]
pub struct SolverNum {
    pub numer: i32,
    pub denom: i32,
}

/// A rational value as a pair (numerator, denominator); the denominator is positive
/// wherever a value is compared.
pub type Rat = (int, int);

pub open spec fn q_le(a: Rat, b: Rat) -> bool {
    a.0 * b.1 <= b.0 * a.1
}

pub open spec fn q_eq(a: Rat, b: Rat) -> bool {
    a.0 * b.1 == b.0 * a.1
}

pub open spec fn q_add(a: Rat, b: Rat) -> Rat {
    (a.0 * b.1 + b.0 * a.1, a.1 * b.1)
}

/// Whether a numerator and denominator fit the solver's native width as a
/// non-negative rational with positive denominator.
pub open spec fn fits_solver(n: int, d: int) -> bool {
    0 <= n <= i32::MAX && 1 <= d <= i32::MAX
}

/// Greatest common divisor, by Euclid's algorithm.
pub open spec fn gcd(a: nat, b: nat) -> nat
    decreases b,
{
    if b == 0 {
        a
    } else {
        gcd(b, a % b)
    }
}

/// `gcd(a, b)` divides both, and is positive unless both are zero.
pub proof fn lemma_gcd_divides(a: nat, b: nat)
    ensures
        (a > 0 || b > 0) ==> gcd(a, b) > 0,
        gcd(a, b) > 0 ==> a % gcd(a, b) == 0 && b % gcd(a, b) == 0,
    decreases b,
{
    if b > 0 {
        let r = a % b;
        lemma_gcd_divides(b, r);
        let g = gcd(b, r);
        if g > 0 {
            lemma_fundamental_div_mod(a as int, b as int);
            lemma_fundamental_div_mod(b as int, g as int);
            lemma_fundamental_div_mod(r as int, g as int);
            let k = a as int / b as int;
            let p = b as int / g as int;
            let q = r as int / g as int;
            assert(a == (k * p + q) * g) by (nonlinear_arith)
                requires
                    a == b * k + r,
                    b == g * p,
                    r == g * q,
            ;
            lemma_mod_multiples_basic(k * p + q, g as int);
        }
    }
}

/// Euclid's algorithm.
fn gcd_exec(a: u128, b: u128) -> (r: u128)
    ensures
        r == gcd(a as nat, b as nat),
{
    let mut x = a;
    let mut y = b;
    while y != 0
        invariant
            gcd(x as nat, y as nat) == gcd(a as nat, b as nat),
        decreases y,
    {
        let t = x % y;
        x = y;
        y = t;
    }
    x
}

impl SolverNum {
    pub open spec fn value(self) -> Rat {
        (self.numer as int, self.denom as int)
    }

    /// The solver constant zero.
    pub fn zero() -> (r: SolverNum)
        ensures
            r == (SolverNum { numer: 0, denom: 1 }),
    {
        SolverNum { numer: 0, denom: 1 }
    }

    /// Exact comparison `self <= other` of two values with positive denominators.
    pub fn le(&self, other: &SolverNum) -> (r: bool)
        requires
            self.denom > 0,
            other.denom > 0,
        ensures
            r == q_le(self.value(), other.value()),
    {
        let a: i64 = self.numer as i64;
        let b: i64 = self.denom as i64;
        let c: i64 = other.numer as i64;
        let d: i64 = other.denom as i64;
        assert(-0x8000_0000 * 0x7fff_ffff <= a * d <= 0x7fff_ffff * 0x7fff_ffff) by (nonlinear_arith)
            requires
                -0x8000_0000 <= a <= 0x7fff_ffff,
                1 <= d <= 0x7fff_ffff,
        ;
        assert(-0x8000_0000 * 0x7fff_ffff <= c * b <= 0x7fff_ffff * 0x7fff_ffff) by (nonlinear_arith)
            requires
                -0x8000_0000 <= c <= 0x7fff_ffff,
                1 <= b <= 0x7fff_ffff,
        ;
        a * d <= c * b
    }
}

impl Capacity {
    pub open spec fn value(self) -> Rat {
        (self.numer as int, self.denom as int)
    }

    /// The capacity in lowest terms (for a non-zero denominator).
    pub open spec fn reduced(self) -> Rat {
        let g = gcd(self.numer as nat, self.denom as nat);
        (self.numer as int / g as int, self.denom as int / g as int)
    }

    /// The capacity is a rational whose lowest terms fit the solver.
    pub open spec fn representable(self) -> bool {
        self.denom > 0 && fits_solver(self.reduced().0, self.reduced().1)
    }

    pub open spec fn solver_value(self) -> SolverNum {
        SolverNum { numer: self.reduced().0 as i32, denom: self.reduced().1 as i32 }
    }

    /// Twice the capacity in lowest terms: an even denominator is halved,
    /// otherwise the numerator is doubled.
    pub open spec fn doubled(self) -> Rat {
        if self.reduced().1 % 2 == 0 {
            (self.reduced().0, self.reduced().1 / 2)
        } else {
            (2 * self.reduced().0, self.reduced().1)
        }
    }

    pub open spec fn doubled_representable(self) -> bool {
        self.denom > 0 && fits_solver(self.doubled().0, self.doubled().1)
    }

    pub open spec fn doubled_solver_value(self) -> SolverNum {
        SolverNum { numer: self.doubled().0 as i32, denom: self.doubled().1 as i32 }
    }

    /// Lowest terms have the capacity's value and a positive denominator.
    pub proof fn lemma_reduced(self)
        requires
            self.denom > 0,
        ensures
            self.reduced().1 > 0,
            self.reduced().0 >= 0,
            q_eq(self.reduced(), self.value()),
    {
        let n = self.numer as int;
        let d = self.denom as int;
        lemma_gcd_divides(self.numer as nat, self.denom as nat);
        let g = gcd(self.numer as nat, self.denom as nat) as int;
        lemma_fundamental_div_mod(n, g);
        lemma_fundamental_div_mod(d, g);
        let rn = n / g;
        let rd = d / g;
        assert(rn * d == n * rd && rd > 0 && rn >= 0) by (nonlinear_arith)
            requires
                n == g * rn,
                d == g * rd,
                g > 0,
                d > 0,
                n >= 0,
        ;
    }

    /// The capacity in lowest terms.
    fn reduce(&self) -> (r: (u128, u128))
        requires
            self.denom > 0,
        ensures
            r.0 as int == self.reduced().0,
            r.1 as int == self.reduced().1,
    {
        let g = gcd_exec(self.numer, self.denom);
        proof {
            lemma_gcd_divides(self.numer as nat, self.denom as nat);
        }
        (self.numer / g, self.denom / g)
    }

    /// Lossless conversion to the solver's representation, in lowest terms;
    /// `None` where those do not fit (or the denominator is zero).
    pub fn to_solver(&self) -> (r: Option<SolverNum>)
        ensures
            r == (if self.representable() {
                Some(self.solver_value())
            } else {
                None::<SolverNum>
            }),
            r is Some ==> r->Some_0.denom > 0 && q_eq(r->Some_0.value(), self.value()),
    {
        if self.denom == 0 {
            return None;
        }
        proof {
            self.lemma_reduced();
        }
        let (n, d) = self.reduce();
        if n <= 0x7fff_ffff && 1 <= d && d <= 0x7fff_ffff {
            Some(SolverNum { numer: n as i32, denom: d as i32 })
        } else {
            None
        }
    }

    /// Lossless conversion of twice the capacity to the solver's representation.
    pub fn doubled_to_solver(&self) -> (r: Option<SolverNum>)
        ensures
            r == (if self.doubled_representable() {
                Some(self.doubled_solver_value())
            } else {
                None::<SolverNum>
            }),
            r is Some ==> q_eq(r->Some_0.value(), (2 * self.numer, self.denom as int)),
    {
        if self.denom == 0 {
            return None;
        }
        proof {
            self.lemma_reduced();
        }
        let (n, d0) = self.reduce();
        let ghost nd = self.numer as int;
        let ghost dd = self.denom as int;
        if d0 % 2 == 0 {
            let d = d0 / 2;
            if n <= 0x7fff_ffff && 1 <= d && d <= 0x7fff_ffff {
                assert(n * dd == 2 * nd * d) by (nonlinear_arith)
                    requires
                        d0 == 2 * d,
                        n * dd == nd * d0,
                ;
                Some(SolverNum { numer: n as i32, denom: d as i32 })
            } else {
                None
            }
        } else {
            if n <= 0x3fff_ffff && 1 <= d0 && d0 <= 0x7fff_ffff {
                assert((2 * n) * dd == 2 * nd * d0) by (nonlinear_arith)
                    requires
                        n * dd == nd * d0,
                ;
                Some(SolverNum { numer: (2 * n) as i32, denom: d0 as i32 })
            } else {
                None
            }
        }
    }
}

/// Comparing with a rational does not depend on how it is written, on either side.
pub proof fn lemma_same_value(x: Rat, xp: Rat, y: Rat)
    requires
        x.1 > 0,
        xp.1 > 0,
        x.0 * xp.1 == xp.0 * x.1,
    ensures
        q_le(x, y) == q_le(xp, y),
        q_le(y, x) == q_le(y, xp),
        q_eq(x, y) == q_eq(xp, y),
        q_eq(y, x) == q_eq(y, xp),
{
    let (a, b) = x;
    let (c, d) = xp;
    let (e, f) = y;
    lemma_scale(a * f, e * b, d);
    lemma_scale(c * f, e * d, b);
    lemma_scale(e * b, a * f, d);
    lemma_scale(e * d, c * f, b);
    assert(a * f * d == c * f * b) by (nonlinear_arith)
        requires
            a * d == c * b,
    ;
    assert(e * b * d == e * d * b) by (nonlinear_arith);
}

/// Multiplying both sides by a positive number keeps order and equality.
proof fn lemma_scale(p: int, q: int, k: int)
    requires
        k > 0,
    ensures
        (p <= q) == (p * k <= q * k),
        (p == q) == (p * k == q * k),
{
    assert((p <= q) ==> (p * k <= q * k)) by (nonlinear_arith)
        requires
            k > 0,
    ;
    assert((p * k <= q * k) ==> (p <= q)) by (nonlinear_arith)
        requires
            k > 0,
    ;
    assert((p * k == q * k) ==> (p == q)) by (nonlinear_arith)
        requires
            k > 0,
    ;
}

} // verus!

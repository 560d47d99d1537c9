//! Deciding whether a concrete assignment is a model of an encoding.
use vstd::prelude::*;

use crate::encoder::EncodingContext;
use crate::formula::{
    atom_holds, formulas_model, holds, is_model, sum_value, term_value, Atom, Formula, Term, Valuation, Var,
};
use crate::rational::{lemma_same_value, q_add, q_eq, q_le, Rat};

verus! {

/// Values for the variables: `v` has `numer / denom`, where `numer` is the
/// last value listed for `v` (zero where none is) and `denom` is shared.
pub struct Assignment {
    pub values: Vec<(Var, i32)>,
    pub denom: i32,
}

/// The numerator of `v`: its last entry in `vals`, or zero.
pub open spec fn numer_of(vals: Seq<(Var, i32)>, v: Var) -> int
    decreases vals.len(),
{
    if vals.len() == 0 {
        0
    } else if vals.last().0 == v {
        vals.last().1 as int
    } else {
        numer_of(vals.drop_last(), v)
    }
}

/// The sum of the numerators of `vs`.
pub open spec fn numer_sum(vals: Seq<(Var, i32)>, vs: Seq<Var>) -> int
    decreases vs.len(),
{
    if vs.len() == 0 {
        0
    } else {
        numer_sum(vals, vs.drop_last()) + numer_of(vals, vs.last())
    }
}

impl Assignment {
    pub open spec fn valuation(&self) -> Valuation {
        |v: Var| (numer_of(self.values@, v), self.denom as int)
    }

    fn numer(&self, v: Var) -> (r: i32)
        ensures
            r as int == numer_of(self.values@, v),
    {
        let mut r: i32 = 0;
        let mut k: usize = 0;
        while k < self.values.len()
            invariant
                k <= self.values@.len(),
                r as int == numer_of(self.values@.take(k as int), v),
            decreases self.values@.len() - k,
        {
            assert(self.values@.take(k + 1).drop_last() =~= self.values@.take(k as int));
            if self.values[k].0 == v {
                r = self.values[k].1;
            }
            k = k + 1;
        }
        assert(self.values@.take(k as int) =~= self.values@);
        r
    }
}

/// The folded sum of the values of `vs` is `numer_sum / denom`.
proof fn lemma_sum_value(a: Assignment, vs: Seq<Var>)
    requires
        a.denom > 0,
    ensures
        sum_value(vs, a.valuation()).1 > 0,
        sum_value(vs, a.valuation()).0 * a.denom == numer_sum(a.values@, vs) * sum_value(vs, a.valuation()).1,
    decreases vs.len(),
{
    if vs.len() > 0 {
        lemma_sum_value(a, vs.drop_last());
        let (p, q) = sum_value(vs.drop_last(), a.valuation());
        let s = numer_sum(a.values@, vs.drop_last());
        let n = numer_of(a.values@, vs.last());
        let dd = a.denom as int;
        assert(sum_value(vs, a.valuation()) == q_add((p, q), (n, dd)));
        assert(q * dd > 0) by (nonlinear_arith)
            requires
                q > 0,
                dd > 0,
        ;
        assert((p * dd + n * q) * dd == (s + n) * (q * dd)) by (nonlinear_arith)
            requires
                p * dd == s * q,
        ;
    }
}

/// The value of a term under `a`, as (numerator, denominator): a constant as
/// it is written, anything else with a positive denominator.
fn term_eval(a: &Assignment, t: &Term) -> (r: (i128, i128))
    requires
        a.denom > 0,
    ensures
        -0x8000_0000 <= r.1 <= 0x7fff_ffff,
        -0x8000_0000_0000_0000_0000_0000 <= r.0 <= 0x8000_0000_0000_0000_0000_0000,
        t@ is Num ==> term_value(t@, a.valuation()) == (r.0 as int, r.1 as int),
        !(t@ is Num) ==> {
            &&& r.1 > 0
            &&& term_value(t@, a.valuation()).1 > 0
            &&& r.0 * term_value(t@, a.valuation()).1 == term_value(t@, a.valuation()).0 * r.1
        },
{
    match t {
        Term::Var(v) => (a.numer(*v) as i128, a.denom as i128),
        Term::Num(c) => (c.numer as i128, c.denom as i128),
        Term::Sum(vs) => {
            let mut total: i128 = 0;
            let mut k: usize = 0;
            while k < vs.len()
                invariant
                    k <= vs@.len(),
                    total as int == numer_sum(a.values@, vs@.take(k as int)),
                    -0x8000_0000 * k <= total <= 0x8000_0000 * k,
                decreases vs@.len() - k,
            {
                assert(vs@.take(k + 1).drop_last() =~= vs@.take(k as int));
                let n = a.numer(vs[k]);
                total = total + n as i128;
                k = k + 1;
            }
            assert(vs@.take(k as int) =~= vs@);
            proof {
                lemma_sum_value(*a, vs@);
            }
            (total, a.denom as i128)
        },
    }
}

/// `x <= y` as rationals, exactly.
fn le_eval(x: (i128, i128), y: (i128, i128)) -> (r: bool)
    requires
        -0x8000_0000 <= x.1 <= 0x7fff_ffff,
        -0x8000_0000 <= y.1 <= 0x7fff_ffff,
        -0x8000_0000_0000_0000_0000_0000 <= x.0 <= 0x8000_0000_0000_0000_0000_0000,
        -0x8000_0000_0000_0000_0000_0000 <= y.0 <= 0x8000_0000_0000_0000_0000_0000,
    ensures
        r == q_le((x.0 as int, x.1 as int), (y.0 as int, y.1 as int)),
{
    assert(-0x4000_0000_0000_0000_0000_0000_0000_0000 <= x.0 * y.1 <= 0x4000_0000_0000_0000_0000_0000_0000_0000) by (nonlinear_arith)
        requires
            -0x8000_0000 <= y.1 <= 0x7fff_ffff,
            -0x8000_0000_0000_0000_0000_0000 <= x.0 <= 0x8000_0000_0000_0000_0000_0000,
    ;
    assert(-0x4000_0000_0000_0000_0000_0000_0000_0000 <= y.0 * x.1 <= 0x4000_0000_0000_0000_0000_0000_0000_0000) by (nonlinear_arith)
        requires
            -0x8000_0000 <= x.1 <= 0x7fff_ffff,
            -0x8000_0000_0000_0000_0000_0000 <= y.0 <= 0x8000_0000_0000_0000_0000_0000,
    ;
    x.0 * y.1 <= y.0 * x.1
}

/// Both terms of an atom, evaluated, with the comparison of their values
/// unchanged from that of the terms' values.
fn operands_eval(a: &Assignment, x: &Term, y: &Term) -> (r: ((i128, i128), (i128, i128)))
    requires
        a.denom > 0,
    ensures
        -0x8000_0000 <= r.0.1 <= 0x7fff_ffff,
        -0x8000_0000 <= r.1.1 <= 0x7fff_ffff,
        -0x8000_0000_0000_0000_0000_0000 <= r.0.0 <= 0x8000_0000_0000_0000_0000_0000,
        -0x8000_0000_0000_0000_0000_0000 <= r.1.0 <= 0x8000_0000_0000_0000_0000_0000,
        q_le(term_value(x@, a.valuation()), term_value(y@, a.valuation()))
            == q_le((r.0.0 as int, r.0.1 as int), (r.1.0 as int, r.1.1 as int)),
        q_le(term_value(y@, a.valuation()), term_value(x@, a.valuation()))
            == q_le((r.1.0 as int, r.1.1 as int), (r.0.0 as int, r.0.1 as int)),
        q_eq(term_value(x@, a.valuation()), term_value(y@, a.valuation()))
            == q_eq((r.0.0 as int, r.0.1 as int), (r.1.0 as int, r.1.1 as int)),
{
    let vx = term_eval(a, x);
    let vy = term_eval(a, y);
    proof {
        let m = a.valuation();
        let ex = (vx.0 as int, vx.1 as int);
        let ey = (vy.0 as int, vy.1 as int);
        if !(x@ is Num) {
            lemma_same_value(term_value(x@, m), ex, term_value(y@, m));
        }
        if !(y@ is Num) {
            lemma_same_value(term_value(y@, m), ey, ex);
        }
    }
    (vx, vy)
}

fn atom_eval(a: &Assignment, at: &Atom) -> (r: bool)
    requires
        a.denom > 0,
    ensures
        r == atom_holds(at@, a.valuation()),
{
    match at {
        Atom::Le(x, y) => {
            let (vx, vy) = operands_eval(a, x, y);
            le_eval(vx, vy)
        },
        Atom::Ge(x, y) => {
            let (vx, vy) = operands_eval(a, x, y);
            le_eval(vy, vx)
        },
        Atom::Eq(x, y) => {
            let (vx, vy) = operands_eval(a, x, y);
            le_eval(vx, vy) && le_eval(vy, vx)
        },
    }
}

fn formula_eval(a: &Assignment, f: &Formula) -> (r: bool)
    requires
        a.denom > 0,
    ensures
        r == holds(f@, a.valuation()),
{
    match f {
        Formula::Atom(at) => atom_eval(a, at),
        Formula::Ite(c, t, e) => if atom_eval(a, c) {
            atom_eval(a, t)
        } else {
            atom_eval(a, e)
        },
    }
}

impl EncodingContext {
    /// Whether `a` is a model of the constraints: its denominator is positive
    /// and every constraint holds.
    pub fn satisfied_by(&self, a: &Assignment) -> (r: bool)
        ensures
            r == is_model(formulas_model(self.constraints@), a.valuation()),
    {
        let ghost cs = formulas_model(self.constraints@);
        if a.denom <= 0 {
            assert(a.valuation()(Var::Edge(0)).1 <= 0);
            return false;
        }
        let mut k: usize = 0;
        while k < self.constraints.len()
            invariant
                a.denom > 0,
                k <= self.constraints@.len(),
                cs == formulas_model(self.constraints@),
                forall|i: int| 0 <= i < k ==> holds(#[trigger] cs[i], a.valuation()),
            decreases self.constraints@.len() - k,
        {
            if !formula_eval(a, &self.constraints[k]) {
                assert(!holds(cs[k as int], a.valuation()));
                return false;
            }
            k = k + 1;
        }
        true
    }
}

} // verus!

use vstd::prelude::*;

use crate::rational::{q_add, q_eq, q_le, Rat, SolverNum};

verus! {

/// A real-valued solver variable, identified by what it stands for.
///
/// An edge variable is named from the edge's index, an input variable from the
/// node's index and its external id, an output variable from the node's index.
#[derive(Clone, Copy, Debug, PartialEq, Eq, Structural, Hash)]
pub enum Var {
    Edge(usize),
    Input(usize, usize),
    Output(usize),
}

/// A linear real term.
#[derive(Debug, PartialEq)]
pub enum Term {
    Var(Var),
    Num(SolverNum),
    /// The sum of the variables (zero when empty).
    Sum(Vec<Var>),
}

/// An atomic comparison of two terms.
#[derive(Debug, PartialEq)]
pub enum Atom {
    Le(Term, Term),
    Ge(Term, Term),
    Eq(Term, Term),
}

/// A constraint: an atom, or an if-then-else over atoms that picks exactly one
/// branch in every model.
#[derive(Debug, PartialEq)]
pub enum Formula {
    Atom(Atom),
    Ite(Atom, Atom, Atom),
}

/// The mathematical content of a [`Term`].
pub enum TermModel {
    Var(Var),
    Num(SolverNum),
    Sum(Seq<Var>),
}

pub enum AtomModel {
    Le(TermModel, TermModel),
    Ge(TermModel, TermModel),
    Eq(TermModel, TermModel),
}

pub enum FormulaModel {
    Atom(AtomModel),
    Ite(AtomModel, AtomModel, AtomModel),
}

impl View for Term {
    type V = TermModel;

    open spec fn view(&self) -> TermModel {
        match self {
            Term::Var(v) => TermModel::Var(*v),
            Term::Num(c) => TermModel::Num(*c),
            Term::Sum(vs) => TermModel::Sum(vs@),
        }
    }
}

impl View for Atom {
    type V = AtomModel;

    open spec fn view(&self) -> AtomModel {
        match self {
            Atom::Le(a, b) => AtomModel::Le(a@, b@),
            Atom::Ge(a, b) => AtomModel::Ge(a@, b@),
            Atom::Eq(a, b) => AtomModel::Eq(a@, b@),
        }
    }
}

impl View for Formula {
    type V = FormulaModel;

    open spec fn view(&self) -> FormulaModel {
        match self {
            Formula::Atom(a) => FormulaModel::Atom(a@),
            Formula::Ite(c, t, e) => FormulaModel::Ite(c@, t@, e@),
        }
    }
}

/// The views of a list of formulas.
pub open spec fn formulas_model(fs: Seq<Formula>) -> Seq<FormulaModel> {
    fs.map_values(|f: Formula| f@)
}

/// An assignment of a rational value to every variable.
pub type Valuation = spec_fn(Var) -> Rat;

pub open spec fn sum_value(vs: Seq<Var>, m: Valuation) -> Rat
    decreases vs.len(),
{
    if vs.len() == 0 {
        (0, 1)
    } else {
        q_add(sum_value(vs.drop_last(), m), m(vs.last()))
    }
}

pub open spec fn term_value(t: TermModel, m: Valuation) -> Rat {
    match t {
        TermModel::Var(v) => m(v),
        TermModel::Num(c) => c.value(),
        TermModel::Sum(vs) => sum_value(vs, m),
    }
}

pub open spec fn atom_holds(a: AtomModel, m: Valuation) -> bool {
    match a {
        AtomModel::Le(x, y) => q_le(term_value(x, m), term_value(y, m)),
        AtomModel::Ge(x, y) => q_le(term_value(y, m), term_value(x, m)),
        AtomModel::Eq(x, y) => q_eq(term_value(x, m), term_value(y, m)),
    }
}

pub open spec fn holds(f: FormulaModel, m: Valuation) -> bool {
    match f {
        FormulaModel::Atom(a) => atom_holds(a, m),
        FormulaModel::Ite(c, t, e) => if atom_holds(c, m) {
            atom_holds(t, m)
        } else {
            atom_holds(e, m)
        },
    }
}

/// `m` gives every variable a positive denominator and satisfies every constraint.
pub open spec fn is_model(cs: Seq<FormulaModel>, m: Valuation) -> bool {
    &&& forall|v: Var| #[trigger] m(v).1 > 0
    &&& forall|i: int| 0 <= i < cs.len() ==> holds(#[trigger] cs[i], m)
}

} // verus!

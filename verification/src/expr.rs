//! Logical formulas. The document core treats an expression as an opaque,
//! equality-comparable, cloneable value; the connectives here exist so that
//! the rule catalogue can inspect conclusions.

use vstd::prelude::*;

verus! {

/// A logical formula. Variables are identified by number; how names map to
/// numbers is the business of whatever produces expressions.
#[derive(Debug, PartialEq, Eq)]
pub enum Expr {
    Var(u64),
    And(Box<Expr>, Box<Expr>),
    Or(Box<Expr>, Box<Expr>),
    Imp(Box<Expr>, Box<Expr>),
}

impl Expr {
    /// Structural equality, usable from verified code.
    pub fn eq_expr(&self, other: &Expr) -> (r: bool)
        ensures
            r == (*self == *other),
        decreases self,
    {
        match (self, other) {
            (Expr::Var(a), Expr::Var(b)) => a == b,
            (Expr::And(a1, a2), Expr::And(b1, b2)) => a1.eq_expr(b1) && a2.eq_expr(b2),
            (Expr::Or(a1, a2), Expr::Or(b1, b2)) => a1.eq_expr(b1) && a2.eq_expr(b2),
            (Expr::Imp(a1, a2), Expr::Imp(b1, b2)) => a1.eq_expr(b1) && a2.eq_expr(b2),
            _ => false,
        }
    }

    /// A deep copy whose value is known to equal the original.
    pub fn duplicate(&self) -> (r: Expr)
        ensures
            r == *self,
        decreases self,
    {
        match self {
            Expr::Var(v) => Expr::Var(*v),
            Expr::And(a, b) => Expr::And(Box::new(a.duplicate()), Box::new(b.duplicate())),
            Expr::Or(a, b) => Expr::Or(Box::new(a.duplicate()), Box::new(b.duplicate())),
            Expr::Imp(a, b) => Expr::Imp(Box::new(a.duplicate()), Box::new(b.duplicate())),
        }
    }

    /// The placeholder formula a freshly inserted line starts with, before
    /// the editing surface fills in a real one.
    pub fn blank() -> (r: Expr)
        ensures
            r == Expr::Var(0),
    {
        Expr::Var(0)
    }
}

} // verus!

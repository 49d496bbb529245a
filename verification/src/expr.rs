//! Dependency/default/select condition expressions: a small recursive
//! algebraic type over symbol references and tristate literals, with
//! conjunction, disjunction, negation and string-equality comparisons.
//!
//! Expressions are immutable once built; evaluation lives with the symbol
//! table, since a symbol reference evaluates to that symbol's effective
//! value.

use vstd::prelude::*;

use crate::tristate::Tristate;

verus! {

/// An operand of an equality comparison: a symbol reference or a tristate
/// literal.
#[derive(Debug)]
pub enum ExprTerm {
    Symbol(String),
    Literal(Tristate),
}

/// A dependency/default/select condition.
#[derive(Debug)]
pub enum Expr {
    And(Box<Expr>, Box<Expr>),
    Or(Box<Expr>, Box<Expr>),
    Not(Box<Expr>),
    Symbol(String),
    Literal(Tristate),
    Equals(ExprTerm, ExprTerm),
    NotEquals(ExprTerm, ExprTerm),
}

/// An exact copy of a comparison operand.
pub fn clone_term(t: &ExprTerm) -> (r: ExprTerm)
    ensures
        r == *t,
{
    match t {
        ExprTerm::Symbol(s) => ExprTerm::Symbol(s.clone()),
        ExprTerm::Literal(l) => ExprTerm::Literal(*l),
    }
}

/// An exact copy of an expression.
pub fn clone_expr(e: &Expr) -> (r: Expr)
    ensures
        r == *e,
    decreases *e,
{
    match e {
        Expr::And(a, b) => Expr::And(Box::new(clone_expr(a)), Box::new(clone_expr(b))),
        Expr::Or(a, b) => Expr::Or(Box::new(clone_expr(a)), Box::new(clone_expr(b))),
        Expr::Not(a) => Expr::Not(Box::new(clone_expr(a))),
        Expr::Symbol(s) => Expr::Symbol(s.clone()),
        Expr::Literal(t) => Expr::Literal(*t),
        Expr::Equals(a, b) => Expr::Equals(clone_term(a), clone_term(b)),
        Expr::NotEquals(a, b) => Expr::NotEquals(clone_term(a), clone_term(b)),
    }
}

/// An exact copy of a list of expressions.
pub fn clone_exprs(v: &Vec<Expr>) -> (r: Vec<Expr>)
    ensures
        r@ == v@,
{
    let mut r: Vec<Expr> = Vec::new();
    let mut i: usize = 0;
    while i < v.len()
        invariant
            i <= v@.len(),
            r@ == v@.subrange(0, i as int),
        decreases v@.len() - i,
    {
        r.push(clone_expr(&v[i]));
        i = i + 1;
        proof {
            assert(r@ =~= v@.subrange(0, i as int));
        }
    }
    proof {
        assert(r@ =~= v@);
    }
    r
}

/// An exact copy of an optional expression.
pub fn clone_opt_expr(e: &Option<Expr>) -> (r: Option<Expr>)
    ensures
        r == *e,
{
    match e {
        Some(x) => Some(clone_expr(x)),
        None => None,
    }
}

} // verus!

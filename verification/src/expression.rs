//! The expression tree: a closed sum over four node variants, with a
//! double-dispatch visitor mechanism. New operations over the tree are
//! added by implementing the visitor capability once; the node types never
//! change for that. Each node owns its children outright: the tree has no
//! sharing and no cycles.

use vstd::prelude::*;

use crate::token::Token;

verus! {

/// An expression: the closed set of node variants.
pub enum Expr {
    Binary(Binary),
    Grouping(Grouping),
    Literal(Literal),
    Unary(Unary),
}

/// An operation over the expression tree, producing an `R` for each node
/// variant. An implementor states, per variant, the relation its result
/// bears to the node; each `visit_*` method is then bound to it.
pub trait Visitor<R>: Sized {
    /// What this visitor's result says of a binary node.
    spec fn visits_binary(&self, element: &Binary, r: R) -> bool;

    /// What this visitor's result says of a grouping node.
    spec fn visits_grouping(&self, element: &Grouping, r: R) -> bool;

    /// What this visitor's result says of a literal node.
    spec fn visits_literal(&self, element: &Literal, r: R) -> bool;

    /// What this visitor's result says of a unary node.
    spec fn visits_unary(&self, element: &Unary, r: R) -> bool;

    fn visit_binary(&self, element: &Binary) -> (r: R)
        ensures
            self.visits_binary(element, r),
    ;

    fn visit_grouping(&self, element: &Grouping) -> (r: R)
        ensures
            self.visits_grouping(element, r),
    ;

    fn visit_literal(&self, element: &Literal) -> (r: R)
        ensures
            self.visits_literal(element, r),
    ;

    fn visit_unary(&self, element: &Unary) -> (r: R)
        ensures
            self.visits_unary(element, r),
    ;
}

/// A node that can dispatch a visitor to the operation matching its own
/// variant, passing itself along: double dispatch without the node types
/// knowing any concrete operation.
pub trait VisitedElement<S: Visitor<R>, R> {
    /// What accepting `visitor` says of the result.
    spec fn accepts(&self, visitor: S, r: R) -> bool;

    fn accept(&self, visitor: S) -> (r: R)
        ensures
            self.accepts(visitor, r),
    ;
}

/// A two-operand application of an operator token.
pub struct Binary {
    pub left: Box<Expr>,
    pub operator: Token,
    pub right: Box<Expr>,
}

impl Binary {
    pub fn new(left: Box<Expr>, operator: Token, right: Box<Expr>) -> (e: Binary)
        ensures
            e == (Binary { left, operator, right }),
    {
        Binary { left, operator, right }
    }
}

impl<S: Visitor<R>, R> VisitedElement<S, R> for Binary {
    open spec fn accepts(&self, visitor: S, r: R) -> bool {
        visitor.visits_binary(self, r)
    }

    fn accept(&self, visitor: S) -> R {
        visitor.visit_binary(self)
    }
}

/// A parenthesized subexpression.
pub struct Grouping {
    pub expression: Box<Expr>,
}

impl Grouping {
    pub fn new(expression: Box<Expr>) -> (e: Grouping)
        ensures
            e == (Grouping { expression }),
    {
        Grouping { expression }
    }
}

impl<S: Visitor<R>, R> VisitedElement<S, R> for Grouping {
    open spec fn accepts(&self, visitor: S, r: R) -> bool {
        visitor.visits_grouping(self, r)
    }

    fn accept(&self, visitor: S) -> R {
        visitor.visit_grouping(self)
    }
}

/// A literal value, carried as its text; absent for `nil`.
pub struct Literal {
    pub value: Option<String>,
}

impl Literal {
    pub fn new(value: Option<String>) -> (e: Literal)
        ensures
            e == (Literal { value }),
    {
        Literal { value }
    }
}

impl<S: Visitor<R>, R> VisitedElement<S, R> for Literal {
    open spec fn accepts(&self, visitor: S, r: R) -> bool {
        visitor.visits_literal(self, r)
    }

    fn accept(&self, visitor: S) -> R {
        visitor.visit_literal(self)
    }
}

/// A one-operand application of an operator token.
pub struct Unary {
    pub operator: Token,
    pub right: Box<Expr>,
}

impl Unary {
    pub fn new(operator: Token, right: Box<Expr>) -> (e: Unary)
        ensures
            e == (Unary { operator, right }),
    {
        Unary { operator, right }
    }
}

impl<S: Visitor<R>, R> VisitedElement<S, R> for Unary {
    open spec fn accepts(&self, visitor: S, r: R) -> bool {
        visitor.visits_unary(self, r)
    }

    fn accept(&self, visitor: S) -> R {
        visitor.visit_unary(self)
    }
}

impl<S: Visitor<R>, R> VisitedElement<S, R> for Expr {
    open spec fn accepts(&self, visitor: S, r: R) -> bool {
        match self {
            Expr::Binary(b) => visitor.visits_binary(b, r),
            Expr::Grouping(g) => visitor.visits_grouping(g, r),
            Expr::Literal(l) => visitor.visits_literal(l, r),
            Expr::Unary(u) => visitor.visits_unary(u, r),
        }
    }

    fn accept(&self, visitor: S) -> R {
        match self {
            Expr::Binary(b) => b.accept(visitor),
            Expr::Grouping(b) => b.accept(visitor),
            Expr::Literal(b) => b.accept(visitor),
            Expr::Unary(b) => b.accept(visitor),
        }
    }
}

} // verus!

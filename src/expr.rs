use vstd::prelude::*;
use crate::token::Token;

verus! {

/// An expression tree. Each node owns its children.
pub enum Expr {
    Binary(Binary),
    Grouping(Grouping),
    Literal(Literal),
    Unary(Unary),
}

pub struct Binary {
    pub left: Box<Expr>,
    pub operator: Token,
    pub right: Box<Expr>,
}

pub struct Grouping {
    pub expr: Box<Expr>,
}

pub struct Unary {
    pub operator: Token,
    pub right: Box<Expr>,
}

pub struct Literal {
    pub value: Token,
}

/// An operation over expression trees, one method per variant. Each method's
/// result satisfies the matching `*_post` predicate of the implementation.
pub trait Visitor<R> {
    spec fn binary_post(&self, binary: &Binary, r: R) -> bool;

    spec fn grouping_post(&self, grouping: &Grouping, r: R) -> bool;

    spec fn literal_post(&self, literal: &Literal, r: R) -> bool;

    spec fn unary_post(&self, unary: &Unary, r: R) -> bool;

    fn visit_binary_expr(&self, binary: &Binary) -> (r: R)
        ensures
            self.binary_post(binary, r),
    ;

    fn visit_grouping_expr(&self, grouping: &Grouping) -> (r: R)
        ensures
            self.grouping_post(grouping, r),
    ;

    fn visit_literal_expr(&self, literal: &Literal) -> (r: R)
        ensures
            self.literal_post(literal, r),
    ;

    fn visit_unary_expr(&self, unary: &Unary) -> (r: R)
        ensures
            self.unary_post(unary, r),
    ;
}

impl Expr {
    /// Hands this node's variant to the matching visitor method and returns
    /// its result unchanged.
    pub fn accept<R, V: Visitor<R>>(&self, visitor: &V) -> (r: R)
        ensures
            match self {
                Expr::Binary(binary) => visitor.binary_post(binary, r),
                Expr::Grouping(grouping) => visitor.grouping_post(grouping, r),
                Expr::Literal(literal) => visitor.literal_post(literal, r),
                Expr::Unary(unary) => visitor.unary_post(unary, r),
            },
    {
        match self {
            Expr::Binary(binary) => visitor.visit_binary_expr(binary),
            Expr::Grouping(grouping) => visitor.visit_grouping_expr(grouping),
            Expr::Literal(literal) => visitor.visit_literal_expr(literal),
            Expr::Unary(unary) => visitor.visit_unary_expr(unary),
        }
    }
}

} // verus!

//! Lexed RPSL forms: the shapes the lexer hands over before parsing proper.

use vstd::prelude::*;

verus! {

/// A lexed peering expression: an AS expression optionally qualified by two
/// router expressions.
#[derive(Debug)]
pub struct Peering {
    pub as_expr: AsExpr,
    pub router_expr1: Option<AsExpr>,
    pub router_expr2: Option<AsExpr>,
}

/// A lexed AS expression: either a bare field or a compound expression.
#[derive(Debug)]
pub enum AsExpr {
    Field(String),
    AsComp(ComplexAsExpr),
}

/// A compound lexed AS expression.
#[derive(Debug)]
pub enum ComplexAsExpr {
    And { left: Box<AsExpr>, right: Box<AsExpr> },
    Or { left: Box<AsExpr>, right: Box<AsExpr> },
    Except { left: Box<AsExpr>, right: Box<AsExpr> },
    Group(Box<AsExpr>),
}

/// A lexed peering bound to its action map.
#[derive(Debug)]
pub struct PeeringAction {
    pub mp_peering: Peering,
    pub actions: Vec<(String, String)>,
}

/// An RPSL community method call, as lexed.
#[derive(Debug, PartialEq, Eq)]
pub struct Call {
    pub method: Option<String>,
    pub args: Vec<String>,
}

} // verus!

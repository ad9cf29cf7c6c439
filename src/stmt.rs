use crate::expr::Expr;
use crate::lexer::Token;
use vstd::prelude::*;

verus! {

#[derive(Debug)]
pub enum Stmt {
    Expression { expression: Expr },
    Print { expression: Expr },
    Var { name: Token, initialiser: Expr },
}

} // verus!

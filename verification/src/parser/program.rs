//! The root of the syntax tree.
use vstd::prelude::*;
use crate::parser::expression::{Expression, same_node};
use crate::parser::statement::Statement;

verus! {

pub enum Node {
    Expression(Expression),
    Statement(Statement),
}

impl Node {
    /// The expression this node holds; callers must pass an expression node.
    pub fn into_expression(self) -> (r: Expression)
        requires
            self is Expression,
        ensures
            r == self->Expression_0,
    {
        match self {
            Node::Expression(e) => e,
            Node::Statement(_) => Expression::Null(crate::parser::expression::Null {}),
        }
    }

    /// The statement this node holds; callers must pass a statement node.
    pub fn into_statement(self) -> (r: Statement)
        requires
            self is Statement,
        ensures
            r == self->Statement_0,
    {
        match self {
            Node::Statement(s) => s,
            Node::Expression(_) => Statement::Block(crate::parser::statement::Block { statements: Vec::new() }),
        }
    }

    pub fn duplicate(&self) -> (r: Node)
        ensures
            same_node(*self, r),
        decreases self,
    {
        match self {
            Node::Expression(e) => Node::Expression(e.duplicate()),
            Node::Statement(s) => Node::Statement(s.duplicate()),
        }
    }
}

/// The final program is just a list of statements.
pub struct Program {
    pub statements: Vec<Statement>,
}

} // verus!

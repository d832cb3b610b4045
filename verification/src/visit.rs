//! Walking a syntax tree: a visitor sees every statement of a block in
//! order and is handed each one by its kind.
use vstd::prelude::*;
use crate::ast::{Assign, Ast, Block, Expression, LetStatement, Route, Statement};

verus! {

/// A walk over a syntax tree. By default a block's statements are visited
/// in order, each by its kind, and the nodes themselves do nothing.
pub trait Visitor {
    fn visit_ast(&mut self, ast: &Ast) {
        self.visit_block(&ast.block);
    }

    fn visit_block(&mut self, block: &Block) {
        let mut i: usize = 0;
        while i < block.body.len()
            decreases block.body.len() - i,
        {
            self.visit_statement(&block.body[i]);
            i += 1;
        }
    }

    fn visit_statement(&mut self, statement: &Statement) {
        match statement {
            Statement::Assign(node) => self.visit_assign(node),
            Statement::Route(node) => self.visit_route(node),
            Statement::Let(node) => self.visit_var(node),
        }
    }

    fn visit_expression(&mut self, expression: &Expression) {
    }

    fn visit_assign(&mut self, assign: &Assign) {
    }

    fn visit_route(&mut self, route: &Route) {
    }

    fn visit_var(&mut self, var: &LetStatement) {
    }
}

} // verus!

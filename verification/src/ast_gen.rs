//! Building syntax trees by hand, every node at one given span.
use vstd::prelude::*;
use crate::ast::{
    Assign, Ast, Block, Expression, LetStatement, SimpleExpression, Span, Statement, Token,
    TokenKind, VarRoot, TokenV, ExprV, StmtV,
};

verus! {

/// Builds tree nodes that all stand at `span`.
pub struct Generator {
    pub span: Span,
}

impl Generator {
    /// A token of the given kind and text.
    fn token(&self, value: TokenKind, text: String) -> (r: Token)
        ensures
            r@ == (TokenV { kind: value, text: text@, span: self.span }),
    {
        Token { kind: value, text, span: self.span }
    }

    /// The literal `true` or `false`.
    pub fn expr_boolean(&self, value: bool) -> (r: Expression)
        ensures
            r@ == ExprV::Boolean(
                TokenV {
                    kind: if value {
                        TokenKind::True
                    } else {
                        TokenKind::False
                    },
                    text: if value {
                        "true"@
                    } else {
                        "false"@
                    },
                    span: self.span,
                },
                self.span,
            ),
    {
        let text = if value {
            String::from_str("true")
        } else {
            String::from_str("false")
        };
        Expression::Boolean(
            SimpleExpression {
                token: self.token(
                    if value {
                        TokenKind::True
                    } else {
                        TokenKind::False
                    },
                    text,
                ),
                span: self.span,
            },
        )
    }

    /// `let identifier = value`.
    pub fn stat_let(&self, identifier: &str, value: Expression) -> (r: Statement)
        ensures
            r@ == (StmtV::Let {
                name: TokenV { kind: TokenKind::Identifier, text: identifier@, span: self.span },
                root_span: self.span,
                equals: TokenV { kind: TokenKind::Equals, text: "="@, span: self.span },
                value: value@,
                span: self.span,
            }),
    {
        Statement::Let(
            LetStatement {
                root: VarRoot {
                    name: self.token(TokenKind::Identifier, String::from_str(identifier)),
                    span: self.span,
                },
                equals: self.token(TokenKind::Equals, String::from_str("=")),
                value,
                span: self.span,
            },
        )
    }

    /// `identifier = value`.
    pub fn stat_assign(&self, identifier: &str, value: Expression) -> (r: Statement)
        ensures
            r@ == (StmtV::Assign {
                identifier: TokenV {
                    kind: TokenKind::Identifier,
                    text: identifier@,
                    span: self.span,
                },
                equals: TokenV { kind: TokenKind::Equals, text: "="@, span: self.span },
                value: value@,
                span: self.span,
            }),
    {
        Statement::Assign(
            Assign {
                identifier: self.token(TokenKind::Identifier, String::from_str(identifier)),
                equals: self.token(TokenKind::Equals, String::from_str("=")),
                value,
                span: self.span,
            },
        )
    }

    /// A block of the given statements.
    pub fn block(&self, statements: Vec<Statement>) -> (r: Block)
        ensures
            r.body@ == statements@,
            r.span == self.span,
    {
        Block { body: statements, span: self.span }
    }

    /// A tree whose top block is the given one.
    pub fn to_ast(block: Block) -> (r: Ast)
        ensures
            r.block == block,
    {
        Ast { block }
    }

    /// A generator at the zero span.
    pub fn create() -> (r: Self)
        ensures
            r.span == (Span { x: 0, y: 0, z: 0, w: 0 }),
    {
        Self { span: Span { x: 0, y: 0, z: 0, w: 0 } }
    }
}

} // verus!

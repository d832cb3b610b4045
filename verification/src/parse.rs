//! The parser: reads statements and expressions from the lexer's tokens.
use crate::ast::{
    binary_operator_of, expr_span, field_view, kind_text, suffix_view, table_field_view,
    to_span, token_display, BinaryOperator, Delimited, ExprV, Expression, ExpressionBinary,
    ExpressionTable, ExpressionUnary, FieldV, Separate, SimpleExpression, Span, SuffixV,
    TableField, TableFieldNameKey, TableFieldNoKey, TableFieldV, Token, TokenKind, Var, VarRoot,
    VarSuffix, VarSuffixExpressionIndex, VarSuffixNameIndex, Assign, Ast, Block, LetStatement,
    Route, RouteHTTP, RouteTCP, ServiceTarget, Statement, StmtV, stmt_view, route_view,
};
use crate::error::{ErrV, Error};
use crate::grammar::{
    expected_but, is_delimiter_spec, lemma_consume, lemma_expect, lemma_next_token, measure, p_binloop,
    p_expression, p_field, p_fields, p_simple, p_suffix, p_suffixes, p_table, p_token_expr, p_field_item, table_rest, var_rest,
    p_var, precedence, sp_consume, sp_expect, state_ok, PState, p_let, p_assign, p_service_target,
    p_route_properties, properties_rest, p_assigns, p_route_tcp, p_route_http, p_route,
    p_statement, p_statements, p_block, p_start, parse_source_spec, parse_usize_spec,
};
use crate::lexer::{after_token, next_token_spec, Fail, Failure, Lexer};
use vstd::prelude::*;

verus! {

pub struct Parser<'a> {
    pub lexer: Lexer<'a>,
    pub current_token: Token,
    pub current_kind: TokenKind,
    pub lookahead_token: Token,
    pub lookahead_kind: TokenKind,
}

impl<'a> View for Parser<'a> {
    type V = PState;

    open spec fn view(&self) -> PState {
        PState {
            cur: self.current_token@,
            look: self.lookahead_token@,
            pos: self.lexer.position(),
        }
    }
}

fn is_delimiter(kind: TokenKind) -> (r: bool)
    ensures
        r == is_delimiter_spec(kind),
{
    return kind == TokenKind::LBrace || kind == TokenKind::RBrace || kind == TokenKind::Newline
        || kind == TokenKind::Eof;
}

impl<'a> Parser<'a> {
    /// The source the parser reads.
    pub open spec fn source(&self) -> Seq<u8> {
        self.lexer.source()
    }

    /// The parser's fields agree: the kinds are those of the tokens, and the
    /// parser stands where parsing the source can bring it.
    pub open spec fn wf(&self) -> bool {
        &&& self.lexer.wf()
        &&& self.current_kind == self.current_token.kind
        &&& self.lookahead_kind == self.lookahead_token.kind
        &&& state_ok(self.source(), self@)
    }

    fn current_is(&self, kind: TokenKind) -> (r: bool)
        ensures
            r == (self.current_kind == kind),
    {
        return self.current_kind == kind;
    }

    fn lookahead_is(&self, kind: TokenKind) -> (r: bool)
        ensures
            r == (self.lookahead_kind == kind),
    {
        return self.lookahead_kind == kind;
    }

    /// What consuming a token does: on success the current token is handed
    /// out, the lookahead token becomes current and the lexer's next token
    /// the lookahead; when the lexer fails, both tokens stay as they were,
    /// and after a reported error the lexer stands past the bytes it read.
    pub open spec fn consumed(self, fin: Self, r: Result<Token, Fail>) -> bool {
        &&& fin.source() == self.source()
        &&& match next_token_spec(self.source(), self@.pos) {
            Ok((t, e)) => r matches Ok(tok) && tok@ == self@.cur && fin@ == (PState {
                cur: self@.look,
                look: t,
                pos: e,
            }) && fin.wf(),
            Err(f) => r matches Err(x) && x@ == f && fin@.cur == self@.cur && fin@.look
                == self@.look && fin.current_kind == self.current_kind && fin.lookahead_kind
                == self.lookahead_kind && fin.lexer.wf() && (f is Error ==> fin@.pos
                == after_token(self.source(), self@.pos)),
        }
    }

    fn consume(&mut self) -> (r: Result<Token, Fail>)
        requires
            old(self).wf(),
        ensures
            old(self).consumed(*final(self), r),
            final(self).source() == old(self).source(),
            old(self).current_kind != TokenKind::Eof ==> match sp_consume(
                old(self).source(),
                old(self)@,
            ) {
                Ok((t, st)) => r matches Ok(tok) && tok@ == t && final(self)@ == st
                    && final(self).wf(),
                Err(f) => r matches Err(e) && e@ == f,
            },
            r is Ok && old(self).current_kind != TokenKind::Eof ==> measure(
                final(self).source(),
                final(self)@,
            ) < measure(old(self).source(), old(self)@),
    {
        proof {
            lemma_consume(self.source(), self@);
            lemma_next_token(self.source(), self@.pos);
        }
        let mut token = match self.lexer.next_token() {
            Ok(t) => t,
            Err(e) => return Err(e),
        };
        std::mem::swap(&mut self.lookahead_token, &mut token);
        std::mem::swap(&mut self.current_token, &mut token);
        self.current_kind = self.current_token.kind;
        self.lookahead_kind = self.lookahead_token.kind;
        Ok(token)
    }

    fn expected_but(&self, kind: &str) -> (e: Error)
        ensures
            Failure::Error(e@) == expected_but(self@, kind@),
    {
        let mut why = String::from_str("expected ");
        why.append(kind);
        why.append(", but got ");
        let shown = self.current_token.to_string();
        why.append(shown.as_str());
        Error::parse(why, self.current_token.span)
    }

    fn expect(&mut self, kind: TokenKind) -> (r: Result<Token, Fail>)
        requires
            old(self).wf(),
        ensures
            final(self).source() == old(self).source(),
            old(self).current_kind != kind ==> *final(self) == *old(self) && (r matches Err(e)
                && e@ == expected_but(old(self)@, kind_text(kind))),
            old(self).current_kind == kind ==> old(self).consumed(*final(self), r),
            kind != TokenKind::Eof ==> match sp_expect(old(self).source(), old(self)@, kind) {
                Ok((t, st)) => r matches Ok(tok) && tok@ == t && final(self)@ == st
                    && final(self).wf(),
                Err(f) => r matches Err(e) && e@ == f,
            },
            r is Ok && kind != TokenKind::Eof ==> measure(final(self).source(), final(self)@)
                < measure(old(self).source(), old(self)@),
    {
        if !self.current_is(kind) {
            return Err(Fail::Error(self.expected_but(kind.text())));
        }
        return self.consume();
    }
}

/// Kinds at which no table, variable or literal with text starts.
pub open spec fn starts_no_operand(k: TokenKind) -> bool {
    k != TokenKind::LBrace && k != TokenKind::Identifier && k != TokenKind::Number && k
        != TokenKind::String && k != TokenKind::Nil
}

/// The parser consumed its current token as `consume` does, and the call
/// failed: with the lexer's failure if reading the next token failed.
pub open spec fn consumed_then_failed(old: Parser, fin: Parser, r: Result<Expression, Fail>) -> bool {
    &&& r is Err
    &&& match next_token_spec(old.source(), old@.pos) {
        Ok((t, e)) => fin@ == (PState { cur: old@.look, look: t, pos: e }) && fin.wf(),
        Err(f) => r matches Err(x) && x@ == f && fin@.cur == old@.cur && fin@.look == old@.look,
    }
}

/// What an exec result says of a spec result: the same value and final
/// state on success, the same failure otherwise.
pub open spec fn agrees<T, V>(
    r: Result<T, Fail>,
    spec: Result<(V, PState), Failure>,
    view: spec_fn(T) -> V,
    fin: PState,
) -> bool {
    match spec {
        Ok((v, st)) => r matches Ok(x) && view(x) == v && fin == st,
        Err(f) => r matches Err(e) && e@ == f,
    }
}

impl<'a> Parser<'a> {
    fn parse_tablefield_namekey(&mut self) -> (r: Result<TableFieldNameKey, Fail>)
        requires
            old(self).wf(),
            old(self)@.cur.kind == TokenKind::Identifier,
            old(self)@.look.kind == TokenKind::Equals,
        ensures
            final(self).source() == old(self).source(),
            agrees(
                r,
                p_field(old(self).source(), old(self)@),
                |k: TableFieldNameKey| table_field_view(TableField::NameKey(k)),
                final(self)@,
            ),
            r is Ok ==> final(self).wf() && measure(final(self).source(), final(self)@) < measure(
                old(self).source(),
                old(self)@,
            ),
        decreases measure(old(self).source(), old(self)@), 12nat,
    {
        let name = match self.expect(TokenKind::Identifier) {
            Ok(t) => t,
            Err(e) => return Err(e),
        };
        let equals = match self.expect(TokenKind::Equals) {
            Ok(t) => t,
            Err(e) => return Err(e),
        };
        let value = match self.parse_expression(None) {
            Ok(v) => v,
            Err(e) => return Err(e),
        };
        let span = to_span(&[Some(name.span), Some(equals.span), Some(value.span())]);
        Ok(TableFieldNameKey { name, equals, value, span })
    }

    fn parse_tablefield_nokey(&mut self) -> (r: Result<TableFieldNoKey, Fail>)
        requires
            old(self).wf(),
            !(old(self)@.cur.kind == TokenKind::Identifier && old(self)@.look.kind
                == TokenKind::Equals),
        ensures
            final(self).source() == old(self).source(),
            agrees(
                r,
                p_field(old(self).source(), old(self)@),
                |k: TableFieldNoKey| table_field_view(TableField::NoKey(k)),
                final(self)@,
            ),
            r is Ok ==> final(self).wf() && measure(final(self).source(), final(self)@) < measure(
                old(self).source(),
                old(self)@,
            ),
        decreases measure(old(self).source(), old(self)@), 11nat,
    {
        let value = match self.parse_expression(None) {
            Ok(v) => v,
            Err(e) => return Err(e),
        };
        let value_span = value.span();
        Ok(TableFieldNoKey { value, span: value_span })
    }

    fn parse_tablefield(&mut self) -> (r: Result<TableField, Fail>)
        requires
            old(self).wf(),
        ensures
            final(self).source() == old(self).source(),
            agrees(
                r,
                p_field(old(self).source(), old(self)@),
                |f: TableField| table_field_view(f),
                final(self)@,
            ),
            r is Ok ==> final(self).wf() && measure(final(self).source(), final(self)@) < measure(
                old(self).source(),
                old(self)@,
            ),
        decreases measure(old(self).source(), old(self)@), 13nat,
    {
        if self.current_is(TokenKind::Identifier) && self.lookahead_is(TokenKind::Equals) {
            match self.parse_tablefield_namekey() {
                Ok(k) => Ok(TableField::NameKey(k)),
                Err(e) => Err(e),
            }
        } else {
            match self.parse_tablefield_nokey() {
                Ok(k) => Ok(TableField::NoKey(k)),
                Err(e) => Err(e),
            }
        }
    }

    fn parse_table_field_item(&mut self) -> (r: Result<Separate<TableField>, Fail>)
        requires
            old(self).wf(),
        ensures
            final(self).source() == old(self).source(),
            agrees(
                r,
                p_field_item(old(self).source(), old(self)@),
                |f: Separate<TableField>| field_view(f),
                final(self)@,
            ),
            r is Ok ==> final(self).wf() && measure(final(self).source(), final(self)@) < measure(
                old(self).source(),
                old(self)@,
            ),
        decreases measure(old(self).source(), old(self)@), 14nat,
    {
        let value = match self.parse_tablefield() {
            Ok(v) => v,
            Err(e) => return Err(e),
        };
        let separator = if self.current_is(TokenKind::Comma) {
            match self.expect(TokenKind::Comma) {
                Ok(t) => Some(t),
                Err(e) => return Err(e),
            }
        } else {
            None
        };
        let separator_span = match &separator {
            Some(t) => Some(t.span),
            None => None,
        };
        let span = value.span();
        Ok(Separate { value, separator, span: to_span(&[Some(span), separator_span]) })
    }

    #[verifier::rlimit(60)]
    fn parse_table(&mut self) -> (r: Result<Expression, Fail>)
        requires
            old(self).wf(),
            old(self)@.cur.kind == TokenKind::LBrace,
        ensures
            final(self).source() == old(self).source(),
            agrees(r, p_table(old(self).source(), old(self)@), |e: Expression| e@, final(self)@),
            r is Ok ==> final(self).wf() && measure(final(self).source(), final(self)@) < measure(
                old(self).source(),
                old(self)@,
            ),
        decreases measure(old(self).source(), old(self)@), 8nat,
    {
        let ghost s = self.source();
        let left = match self.expect(TokenKind::LBrace) {
            Ok(t) => t,
            Err(e) => return Err(e),
        };
        let ghost st1 = self@;
        let ghost st0 = old(self)@;
        let mut values: Vec<Separate<TableField>> = Vec::new();
        let ghost mut acc: Seq<FieldV> = seq![];
        while !is_delimiter(self.current_kind)
            invariant
                self.wf(),
                self.source() == s,
                s == old(self).source(),
                st0 == old(self)@,
                measure(s, self@) <= measure(s, st1),
                measure(s, st1) < measure(s, st0),
                p_table(s, st0) == table_rest(s, left@, p_fields(s, self@, acc)),
                acc == Seq::new(values@.len(), |i: int| field_view(values@[i])),
            decreases measure(s, self@),
        {
            let item = match self.parse_table_field_item() {
                Ok(v) => v,
                Err(e) => return Err(e),
            };
            proof {
                acc = acc.push(field_view(item));
            }
            values.push(item);
            assert(acc =~= Seq::new(values@.len(), |i: int| field_view(values@[i])));
        }
        assert(p_fields(s, self@, acc) == Ok::<(Seq<FieldV>, PState), Failure>((acc, self@)));
        let right = match self.expect(TokenKind::RBrace) {
            Ok(t) => t,
            Err(e) => return Err(e),
        };
        let first = if values.len() == 0 {
            None
        } else {
            Some(values[0].span)
        };
        let last = if values.len() == 0 {
            None
        } else {
            Some(values[values.len() - 1].span)
        };
        assert(first == crate::grammar::fields_first_span(acc));
        assert(last == crate::grammar::fields_last_span(acc));
        let span = to_span(&[Some(left.span), first, last, Some(right.span)]);
        let values = Delimited { left, value: values, right };
        let t = ExpressionTable { values, span };
        proof {
            let ev = Expression::Table(t)@;
            assert(ev->fields =~= acc);
        }
        Ok(Expression::Table(t))
    }

    fn current_binary_operator(&self) -> (r: Option<BinaryOperator>)
        requires
            self.wf(),
        ensures
            r == binary_operator_of(self@.cur.kind),
    {
        if self.current_is(TokenKind::BinaryEquals) || self.current_is(TokenKind::NEquals)
            || self.current_is(TokenKind::Greater) || self.current_is(TokenKind::Less)
            || self.current_is(TokenKind::GreaterEquals) || self.current_is(TokenKind::LessEquals)
            || self.current_is(TokenKind::Add) || self.current_is(TokenKind::Subtract)
            || self.current_is(TokenKind::Multiply) || self.current_is(TokenKind::Divide)
            || self.current_is(TokenKind::Exponent) || self.current_is(TokenKind::And)
            || self.current_is(TokenKind::Or) {
            match BinaryOperator::try_from(self.current_token.kind) {
                Ok(op) => Some(op),
                Err(_) => None,
            }
        } else {
            None
        }
    }

    fn binary_op_precedence(&self, operator: BinaryOperator) -> (r: (usize, usize))
        ensures
            r == precedence(operator),
    {
        if operator == BinaryOperator::Add || operator == BinaryOperator::Subtract {
            (6, 6)
        } else if operator == BinaryOperator::Multiply || operator == BinaryOperator::Divide {
            (7, 7)
        } else if operator == BinaryOperator::Exponent {
            (10, 9)
        } else if operator == BinaryOperator::BinaryEquals || operator == BinaryOperator::NEquals {
            (3, 3)
        } else if operator == BinaryOperator::Less || operator == BinaryOperator::Greater
            || operator == BinaryOperator::LessEquals || operator
            == BinaryOperator::GreaterEquals {
            (3, 3)
        } else if operator == BinaryOperator::And {
            (2, 2)
        } else {
            (1, 1)
        }
    }

    fn parse_token_expression(&mut self, kind: TokenKind) -> (r: Result<Expression, Fail>)
        requires
            old(self).wf(),
            kind == TokenKind::Number || kind == TokenKind::String || kind == TokenKind::Nil,
        ensures
            final(self).source() == old(self).source(),
            agrees(
                r,
                p_token_expr(old(self).source(), old(self)@, kind),
                |e: Expression| e@,
                final(self)@,
            ),
            r is Ok ==> final(self).wf() && measure(final(self).source(), final(self)@) < measure(
                old(self).source(),
                old(self)@,
            ),
    {
        let token = match self.expect(kind) {
            Ok(t) => t,
            Err(e) => return Err(e),
        };
        let span = token.span;
        if kind == TokenKind::Number {
            Ok(Expression::Number(SimpleExpression { token, span: span }))
        } else if kind == TokenKind::String {
            Ok(Expression::String(SimpleExpression { token, span }))
        } else {
            Ok(Expression::Nil(SimpleExpression { token, span: span }))
        }
    }

    fn parse_simple_expression(&mut self) -> (r: Result<Expression, Fail>)
        requires
            old(self).wf(),
        ensures
            final(self).source() == old(self).source(),
            agrees(r, p_simple(old(self).source(), old(self)@), |e: Expression| e@, final(self)@),
            r is Ok ==> final(self).wf() && measure(final(self).source(), final(self)@) < measure(
                old(self).source(),
                old(self)@,
            ),
            starts_no_operand(old(self).current_kind) && binary_operator_of(old(self).current_kind)
                is Some ==> consumed_then_failed(*old(self), *final(self), r),
            starts_no_operand(old(self).current_kind) && binary_operator_of(old(self).current_kind)
                is None && old(self).current_kind != TokenKind::True && old(self).current_kind
                != TokenKind::False ==> *final(self) == *old(self),
        decreases measure(old(self).source(), old(self)@), 9nat,
    {
        match self.current_kind {
            TokenKind::LBrace => {
                let expression = match self.parse_table() {
                    Ok(e) => e,
                    Err(e) => return Err(e),
                };
                Ok(expression)
            },
            TokenKind::Identifier => {
                let var = match self.parse_var_node() {
                    Ok(v) => v,
                    Err(e) => return Err(e),
                };
                Ok(Expression::Var(var))
            },
            TokenKind::Number => self.parse_token_expression(TokenKind::Number),
            TokenKind::String => self.parse_token_expression(TokenKind::String),
            TokenKind::Nil => self.parse_token_expression(TokenKind::Nil),
            _ => {
                if self.current_binary_operator().is_some() {
                    let token = match self.consume() {
                        Ok(t) => t,
                        Err(e) => return Err(e),
                    };
                    return Err(
                        Fail::Error(
                            Error::parse(
                                String::from_str("missing left hand side of binary operator"),
                                token.span,
                            ),
                        ),
                    );
                }
                let kind = self.current_kind;
                if kind == TokenKind::True || kind == TokenKind::False {
                    let token = match self.consume() {
                        Ok(t) => t,
                        Err(e) => return Err(e),
                    };
                    let span = token.span;
                    Ok(Expression::Boolean(SimpleExpression { token, span: span }))
                } else {
                    return Err(Fail::Error(self.expected_but("expression")));
                }
            },
        }
    }

    fn parse_unary_operator(&mut self) -> (r: Result<Option<Token>, Fail>)
        requires
            old(self).wf(),
        ensures
            final(self).source() == old(self).source(),
            if old(self)@.cur.kind == TokenKind::Negate || old(self)@.cur.kind == TokenKind::Not {
                match sp_consume(old(self).source(), old(self)@) {
                    Ok((t, st)) => r matches Ok(Some(tok)) && tok@ == t && final(self)@ == st
                        && final(self).wf() && measure(final(self).source(), final(self)@)
                        < measure(old(self).source(), old(self)@),
                    Err(f) => r matches Err(e) && e@ == f,
                }
            } else {
                r matches Ok(None) && *final(self) == *old(self)
            },
    {
        if self.current_is(TokenKind::Negate) || self.current_is(TokenKind::Not) {
            let result = match self.consume() {
                Ok(t) => t,
                Err(e) => return Err(e),
            };
            Ok(Some(result))
        } else {
            Ok(None)
        }
    }

    fn parse_expression(&mut self, limit: Option<usize>) -> (r: Result<Expression, Fail>)
        requires
            old(self).wf(),
        ensures
            final(self).source() == old(self).source(),
            agrees(
                r,
                p_expression(
                    old(self).source(),
                    old(self)@,
                    match limit {
                        Some(l) => l,
                        None => 0,
                    },
                ),
                |e: Expression| e@,
                final(self)@,
            ),
            r is Ok ==> final(self).wf() && measure(final(self).source(), final(self)@) < measure(
                old(self).source(),
                old(self)@,
            ),
        decreases measure(old(self).source(), old(self)@), 10nat,
    {
        let ghost s = self.source();
        let ghost st0 = self@;
        let lim = match limit {
            Some(l) => l,
            None => 0,
        };
        let mut expr: Expression;
        let unary_operator = match self.parse_unary_operator() {
            Ok(u) => u,
            Err(e) => return Err(e),
        };
        if let Some(unary_operator) = unary_operator {
            let rhs = match self.parse_expression(Some(8)) {
                Ok(e) => e,
                Err(e) => return Err(e),
            };
            let rhs_span = rhs.span();
            let unary_operator_span = unary_operator.span;
            expr = Expression::Unary(
                ExpressionUnary {
                    operator: unary_operator,
                    value: Box::new(rhs),
                    span: to_span(&[Some(unary_operator_span), Some(rhs_span)]),
                },
            );
        } else {
            expr = match self.parse_simple_expression() {
                Ok(e) => e,
                Err(e) => return Err(e),
            };
        }
        loop
            invariant_except_break
                self.wf(),
                self.source() == s,
                s == old(self).source(),
                st0 == old(self)@,
                measure(s, self@) < measure(s, st0),
                lim == match limit {
                    Some(l) => l,
                    None => 0,
                },
                p_expression(s, st0, lim) == p_binloop(s, expr@, self@, lim),
            ensures
                self.wf(),
                self.source() == s,
                measure(s, self@) < measure(s, st0),
                lim == match limit {
                    Some(l) => l,
                    None => 0,
                },
                p_expression(s, st0, lim) == Ok::<(ExprV, PState), Failure>((expr@, self@)),
            decreases measure(s, self@),
        {
            let binop_kind = match self.current_binary_operator() {
                Some(k) => k,
                None => break,
            };
            let (left_precedence, right_precedence) = self.binary_op_precedence(binop_kind);
            if left_precedence < lim {
                break;
            }
            let binop = match self.consume() {
                Ok(t) => t,
                Err(e) => return Err(e),
            };
            let rhs = match self.parse_expression(Some(right_precedence)) {
                Ok(e) => e,
                Err(e) => return Err(e),
            };
            let span = to_span(&[Some(expr.span()), Some(binop.span), Some(rhs.span())]);
            expr = Expression::Binary(
                ExpressionBinary {
                    left: Box::new(expr),
                    operator: binop,
                    right: Box::new(rhs),
                    span,
                },
            );
        }
        Ok(expr)
    }

    fn parse_var_suffix(&mut self) -> (r: Result<VarSuffix, Fail>)
        requires
            old(self).wf(),
            old(self)@.cur.kind == TokenKind::Period,
        ensures
            final(self).source() == old(self).source(),
            agrees(
                r,
                p_suffix(old(self).source(), old(self)@),
                |v: VarSuffix| suffix_view(v),
                final(self)@,
            ),
            r is Ok ==> final(self).wf() && measure(final(self).source(), final(self)@) < measure(
                old(self).source(),
                old(self)@,
            ),
        decreases measure(old(self).source(), old(self)@), 11nat,
    {
        if self.current_is(TokenKind::Period) && self.lookahead_is(TokenKind::LBracket) {
            let operator = match self.expect(TokenKind::Period) {
                Ok(t) => t,
                Err(e) => return Err(e),
            };
            let left = match self.expect(TokenKind::LBracket) {
                Ok(t) => t,
                Err(e) => return Err(e),
            };
            let value = match self.parse_expression(None) {
                Ok(v) => v,
                Err(e) => return Err(e),
            };
            let right = match self.expect(TokenKind::RBracket) {
                Ok(t) => t,
                Err(e) => return Err(e),
            };
            let node = Delimited { left, value, right };
            let left_span = node.left.span;
            Ok(
                VarSuffix::ExpressionIndex(
                    VarSuffixExpressionIndex {
                        period: operator,
                        node,
                        span: to_span(&[Some(left_span)]),
                    },
                ),
            )
        } else {
            let operator = match self.expect(TokenKind::Period) {
                Ok(t) => t,
                Err(e) => return Err(e),
            };
            let name = match self.expect(TokenKind::Identifier) {
                Ok(t) => t,
                Err(e) => return Err(e),
            };
            let span = to_span(&[Some(operator.span), Some(name.span)]);
            Ok(VarSuffix::NameIndex(VarSuffixNameIndex { name, period: operator, span }))
        }
    }

    fn parse_var_root(&mut self) -> (r: Result<VarRoot, Fail>)
        requires
            old(self).wf(),
        ensures
            final(self).source() == old(self).source(),
            match sp_expect(old(self).source(), old(self)@, TokenKind::Identifier) {
                Ok((t, st)) => r matches Ok(root) && root.name@ == t && root.span == t.span
                    && final(self)@ == st && final(self).wf(),
                Err(f) => r matches Err(e) && e@ == f,
            },
            r is Ok ==> measure(final(self).source(), final(self)@) < measure(
                old(self).source(),
                old(self)@,
            ),
    {
        let name = match self.expect(TokenKind::Identifier) {
            Ok(t) => t,
            Err(e) => return Err(e),
        };
        let span = name.span;
        Ok(VarRoot { name, span })
    }

    #[verifier::rlimit(60)]
    fn parse_var_node(&mut self) -> (r: Result<Var, Fail>)
        requires
            old(self).wf(),
        ensures
            final(self).source() == old(self).source(),
            agrees(
                r,
                p_var(old(self).source(), old(self)@),
                |v: Var| Expression::Var(v)@,
                final(self)@,
            ),
            r is Ok ==> final(self).wf() && measure(final(self).source(), final(self)@) < measure(
                old(self).source(),
                old(self)@,
            ),
        decreases measure(old(self).source(), old(self)@), 8nat,
    {
        let ghost s = self.source();
        let ghost st0 = self@;
        let root = match self.parse_var_root() {
            Ok(r) => r,
            Err(e) => return Err(e),
        };
        let ghost st1 = self@;
        let mut suffixes: Vec<VarSuffix> = Vec::new();
        let ghost mut acc: Seq<SuffixV> = seq![];
        while self.current_is(TokenKind::Period)
            invariant
                self.wf(),
                self.source() == s,
                s == old(self).source(),
                st0 == old(self)@,
                measure(s, self@) <= measure(s, st1),
                measure(s, st1) < measure(s, st0),
                p_var(s, st0) == var_rest(root.name@, p_suffixes(s, self@, acc)),
                acc == Seq::new(suffixes@.len(), |i: int| suffix_view(suffixes@[i])),
            decreases measure(s, self@),
        {
            let suffix = match self.parse_var_suffix() {
                Ok(v) => v,
                Err(e) => return Err(e),
            };
            proof {
                acc = acc.push(suffix_view(suffix));
            }
            suffixes.push(suffix);
            assert(acc =~= Seq::new(suffixes@.len(), |i: int| suffix_view(suffixes@[i])));
        }
        assert(p_suffixes(s, self@, acc) == Ok::<(Seq<SuffixV>, PState), Failure>((acc, self@)));
        let last = if suffixes.len() == 0 {
            None
        } else {
            Some(suffixes[suffixes.len() - 1].span())
        };
        assert(last == if acc.len() == 0 {
            None
        } else {
            Some(crate::ast::suffix_span(acc.last()))
        });
        let span = to_span(&[Some(root.span), last]);
        let v = Var { root, suffixes, span };
        proof {
            let ev = Expression::Var(v)@;
            assert(ev->suffixes =~= acc);
        }
        Ok(v)
    }
}

/// Reads a decimal number.
///
/// Calls `str::parse::<usize>`; the contract claims what its documentation
/// states: an optional `+` followed by decimal digits, whose value fits in
/// `usize`, is accepted and nothing else.
#[verifier::external_body]
fn parse_usize(text: &str) -> (r: Option<usize>)
    ensures
        r == parse_usize_spec(text@),
{
    text.parse::<usize>().ok()
}

impl<'a> Parser<'a> {
    fn parse_stat_let(&mut self) -> (r: Result<LetStatement, Fail>)
        requires
            old(self).wf(),
        ensures
            final(self).source() == old(self).source(),
            agrees(
                r,
                p_let(old(self).source(), old(self)@),
                |l: LetStatement| Statement::Let(l)@,
                final(self)@,
            ),
            r is Ok ==> final(self).wf() && measure(final(self).source(), final(self)@) < measure(
                old(self).source(),
                old(self)@,
            ),
    {
        let _var = match self.expect(TokenKind::Let) {
            Ok(t) => t,
            Err(e) => return Err(e),
        };
        let root = match self.parse_var_root() {
            Ok(r) => r,
            Err(e) => return Err(e),
        };
        let equals = match self.expect(TokenKind::Equals) {
            Ok(t) => t,
            Err(e) => return Err(e),
        };
        let value = match self.parse_expression(None) {
            Ok(v) => v,
            Err(e) => return Err(e),
        };
        let span = to_span(&[Some(root.span), Some(equals.span), Some(value.span())]);
        Ok(LetStatement { root, equals, value, span })
    }

    fn parse_assign_node(&mut self) -> (r: Result<Assign, Fail>)
        requires
            old(self).wf(),
        ensures
            final(self).source() == old(self).source(),
            agrees(
                r,
                p_assign(old(self).source(), old(self)@),
                |a: Assign| Statement::Assign(a)@,
                final(self)@,
            ),
            r is Ok ==> final(self).wf() && measure(final(self).source(), final(self)@) < measure(
                old(self).source(),
                old(self)@,
            ),
    {
        let identifier = match self.expect(TokenKind::Identifier) {
            Ok(t) => t,
            Err(e) => return Err(e),
        };
        let equals = match self.expect(TokenKind::Equals) {
            Ok(t) => t,
            Err(e) => return Err(e),
        };
        let value = match self.parse_expression(None) {
            Ok(v) => v,
            Err(e) => return Err(e),
        };
        let span = to_span(&[Some(identifier.span), Some(equals.span), Some(value.span())]);
        Ok(Assign { identifier, equals, value, span })
    }

    fn parse_service_target(&mut self) -> (r: Result<ServiceTarget, Fail>)
        requires
            old(self).wf(),
        ensures
            final(self).source() == old(self).source(),
            agrees(
                r,
                p_service_target(old(self).source(), old(self)@),
                |t: ServiceTarget| t@,
                final(self)@,
            ),
            r is Ok ==> final(self).wf() && measure(final(self).source(), final(self)@) < measure(
                old(self).source(),
                old(self)@,
            ),
    {
        let service = match self.expect(TokenKind::Identifier) {
            Ok(t) => t,
            Err(e) => return Err(e),
        };
        let equals = match self.expect(TokenKind::Colon) {
            Ok(t) => t,
            Err(e) => return Err(e),
        };
        let port_token = match self.expect(TokenKind::Number) {
            Ok(t) => t,
            Err(e) => return Err(e),
        };
        let value = &port_token.text;
        let port = match parse_usize(value.as_str()) {
            Some(port) => port,
            None => {
                let mut why = String::from_str("provided invalid number '");
                why.append(value.as_str());
                why.append("', only integers are supported");
                return Err(Fail::Error(Error::parse(why, service.span)));
            },
        };
        let span = to_span(&[Some(service.span), Some(equals.span), Some(port_token.span)]);
        Ok(ServiceTarget { service, equals, port, span })
    }

    fn parse_route_properties(&mut self) -> (r: Result<Block, Fail>)
        requires
            old(self).wf(),
        ensures
            final(self).source() == old(self).source(),
            agrees(
                r,
                p_route_properties(old(self).source(), old(self)@),
                |b: Block| b@,
                final(self)@,
            ),
            r is Ok ==> final(self).wf() && measure(final(self).source(), final(self)@) < measure(
                old(self).source(),
                old(self)@,
            ),
    {
        let ghost s = self.source();
        let ghost st0 = self@;
        let left = match self.expect(TokenKind::LBrace) {
            Ok(t) => t,
            Err(e) => return Err(e),
        };
        let ghost st1 = self@;
        let mut body: Vec<Statement> = Vec::new();
        let ghost mut acc: Seq<StmtV> = seq![];
        while !self.current_is(TokenKind::RBrace) && !self.current_is(TokenKind::Eof)
            invariant
                self.wf(),
                self.source() == s,
                s == old(self).source(),
                st0 == old(self)@,
                measure(s, self@) <= measure(s, st1),
                measure(s, st1) < measure(s, st0),
                p_route_properties(s, st0) == properties_rest(s, left@, p_assigns(s, self@, acc)),
                acc == Seq::new(body@.len(), |i: int| stmt_view(body@[i])),
            decreases measure(s, self@),
        {
            let a = match self.parse_assign_node() {
                Ok(a) => a,
                Err(e) => return Err(e),
            };
            let st = Statement::Assign(a);
            proof {
                acc = acc.push(stmt_view(st));
            }
            body.push(st);
            assert(acc =~= Seq::new(body@.len(), |i: int| stmt_view(body@[i])));
        }
        assert(p_assigns(s, self@, acc) == Ok::<(Seq<StmtV>, PState), Failure>((acc, self@)));
        let end = match self.expect(TokenKind::RBrace) {
            Ok(t) => t,
            Err(e) => return Err(e),
        };
        let b = Block { body, span: to_span(&[Some(left.span), Some(end.span)]) };
        proof {
            let bv = b@;
            assert(bv.body =~= acc);
        }
        Ok(b)
    }

    fn parse_route_tcp(&mut self) -> (r: Result<RouteTCP, Fail>)
        requires
            old(self).wf(),
        ensures
            final(self).source() == old(self).source(),
            agrees(
                r,
                p_route_tcp(old(self).source(), old(self)@),
                |t: RouteTCP| route_view(Route::TCP(t)),
                final(self)@,
            ),
            r is Ok ==> final(self).wf() && measure(final(self).source(), final(self)@) < measure(
                old(self).source(),
                old(self)@,
            ),
    {
        let start = match self.expect(TokenKind::Tcp) {
            Ok(t) => t,
            Err(e) => return Err(e),
        };
        let target = match self.parse_service_target() {
            Ok(t) => t,
            Err(e) => return Err(e),
        };
        let properties = match self.parse_route_properties() {
            Ok(b) => b,
            Err(e) => return Err(e),
        };
        let span = to_span(&[Some(start.span), Some(target.span), Some(properties.span)]);
        Ok(RouteTCP { target, properties, span })
    }

    fn parse_route_http(&mut self) -> (r: Result<RouteHTTP, Fail>)
        requires
            old(self).wf(),
        ensures
            final(self).source() == old(self).source(),
            agrees(
                r,
                p_route_http(old(self).source(), old(self)@),
                |t: RouteHTTP| route_view(Route::HTTP(t)),
                final(self)@,
            ),
            r is Ok ==> final(self).wf() && measure(final(self).source(), final(self)@) < measure(
                old(self).source(),
                old(self)@,
            ),
    {
        let hostname = match self.expect(TokenKind::String) {
            Ok(t) => t,
            Err(e) => return Err(e),
        };
        let equals = match self.expect(TokenKind::Arrow) {
            Ok(t) => t,
            Err(e) => return Err(e),
        };
        let target = match self.parse_service_target() {
            Ok(t) => t,
            Err(e) => return Err(e),
        };
        let properties = match self.parse_route_properties() {
            Ok(b) => b,
            Err(e) => return Err(e),
        };
        let span = to_span(
            &[Some(hostname.span), Some(equals.span), Some(target.span), Some(properties.span)],
        );
        Ok(RouteHTTP { hostname, target, properties, span })
    }

    fn parse_route(&mut self) -> (r: Result<Route, Fail>)
        requires
            old(self).wf(),
        ensures
            final(self).source() == old(self).source(),
            agrees(
                r,
                p_route(old(self).source(), old(self)@),
                |t: Route| Statement::Route(t)@,
                final(self)@,
            ),
            r is Ok ==> final(self).wf() && measure(final(self).source(), final(self)@) < measure(
                old(self).source(),
                old(self)@,
            ),
    {
        match self.expect(TokenKind::Route) {
            Ok(_) => {},
            Err(e) => return Err(e),
        }
        if self.current_is(TokenKind::Tcp) {
            match self.parse_route_tcp() {
                Ok(r) => Ok(Route::TCP(r)),
                Err(e) => Err(e),
            }
        } else {
            match self.parse_route_http() {
                Ok(r) => Ok(Route::HTTP(r)),
                Err(e) => Err(e),
            }
        }
    }

    fn parse_statement(&mut self) -> (r: Result<Statement, Fail>)
        requires
            old(self).wf(),
        ensures
            final(self).source() == old(self).source(),
            agrees(r, p_statement(old(self).source(), old(self)@), |t: Statement| t@, final(self)@),
            r is Ok ==> final(self).wf() && measure(final(self).source(), final(self)@) < measure(
                old(self).source(),
                old(self)@,
            ),
    {
        if self.lookahead_is(TokenKind::Equals) {
            match self.parse_assign_node() {
                Ok(a) => Ok(Statement::Assign(a)),
                Err(e) => Err(e),
            }
        } else if self.current_is(TokenKind::Let) {
            match self.parse_stat_let() {
                Ok(a) => Ok(Statement::Let(a)),
                Err(e) => Err(e),
            }
        } else if self.current_is(TokenKind::Route) {
            match self.parse_route() {
                Ok(a) => Ok(Statement::Route(a)),
                Err(e) => Err(e),
            }
        } else {
            return Err(Fail::Error(self.expected_but("statement")));
        }
    }

    fn parse_block_node(&mut self) -> (r: Result<Block, Fail>)
        requires
            old(self).wf(),
        ensures
            final(self).source() == old(self).source(),
            agrees(r, p_block(old(self).source(), old(self)@), |b: Block| b@, final(self)@),
            r is Ok ==> final(self).wf(),
    {
        let ghost s = self.source();
        let ghost st0 = self@;
        let start = self.current_token.span;
        let mut body: Vec<Statement> = Vec::new();
        let ghost mut acc: Seq<StmtV> = seq![];
        while self.current_kind != TokenKind::Eof
            invariant
                self.wf(),
                self.source() == s,
                s == old(self).source(),
                st0 == old(self)@,
                start == st0.cur.span,
                p_statements(s, st0, seq![]) == p_statements(s, self@, acc),
                acc == Seq::new(body@.len(), |i: int| stmt_view(body@[i])),
            decreases measure(s, self@),
        {
            let st = match self.parse_statement() {
                Ok(a) => a,
                Err(e) => return Err(e),
            };
            proof {
                acc = acc.push(stmt_view(st));
            }
            body.push(st);
            assert(acc =~= Seq::new(body@.len(), |i: int| stmt_view(body@[i])));
        }
        assert(p_statements(s, self@, acc) == Ok::<(Seq<StmtV>, PState), Failure>((acc, self@)));
        let b = Block {
            body,
            span: Span { x: start.x, y: self.current_token.span.y, z: start.z, w: start.w },
        };
        proof {
            let bv = b@;
            assert(bv.body =~= acc);
        }
        Ok(b)
    }

    fn create(input: &'a [u8]) -> (r: Result<Self, Fail>)
        requires
            input@.len() < usize::MAX,
        ensures
            match p_start(input@) {
                Ok(st) => r matches Ok(p) && p@ == st && p.wf() && p.source() == input@,
                Err(f) => r matches Err(e) && e@ == f,
            },
    {
        let mut lexer = Lexer::new(input);
        proof {
            crate::grammar::lemma_next_token(input@, 0);
        }
        let current_token = match lexer.next_token() {
            Ok(t) => t,
            Err(e) => return Err(e),
        };
        let current_kind = current_token.kind;
        proof {
            crate::grammar::lemma_next_token(input@, lexer.position());
        }
        let lookahead_token = match lexer.next_token() {
            Ok(t) => t,
            Err(e) => return Err(e),
        };
        let lookahead_kind = lookahead_token.kind;
        Ok(Self { current_token, current_kind, lookahead_token, lookahead_kind, lexer })
    }

    /// Reads the first two tokens of the source.
    pub fn new(input: &'a [u8]) -> (r: Result<Self, Error>)
        requires
            input@.len() < usize::MAX,
            !(p_start(input@) matches Err(Failure::Panic)),
        ensures
            match p_start(input@) {
                Ok(st) => r matches Ok(p) && p@ == st && p.wf() && p.source() == input@,
                Err(Failure::Error(e)) => r matches Err(x) && x@ == e,
                Err(Failure::Panic) => false,
            },
    {
        match Self::create(input) {
            Ok(p) => Ok(p),
            Err(Fail::Error(e)) => Err(e),
            Err(Fail::Panic) => unreached(),
        }
    }

    /// Like `new`, but `None` where reading the first tokens aborts.
    pub fn try_new(input: &'a [u8]) -> (r: Option<Result<Self, Error>>)
        requires
            input@.len() < usize::MAX,
        ensures
            match p_start(input@) {
                Ok(st) => r matches Some(Ok(p)) && p@ == st && p.wf() && p.source() == input@,
                Err(Failure::Error(e)) => r matches Some(Err(x)) && x@ == e,
                Err(Failure::Panic) => r is None,
            },
    {
        match Self::create(input) {
            Ok(p) => Some(Ok(p)),
            Err(Fail::Error(e)) => Some(Err(e)),
            Err(Fail::Panic) => None,
        }
    }

    /// Parses the statements that follow up to the end of input.
    pub fn parse(&mut self) -> (r: Result<Ast, Error>)
        requires
            old(self).wf(),
            !(p_block(old(self).source(), old(self)@) matches Err(Failure::Panic)),
        ensures
            match p_block(old(self).source(), old(self)@) {
                Ok((b, st)) => r matches Ok(ast) && ast.block@ == b && final(self)@ == st,
                Err(Failure::Error(e)) => r matches Err(x) && x@ == e,
                Err(Failure::Panic) => false,
            },
    {
        match self.parse_block_node() {
            Ok(block) => Ok(Ast { block }),
            Err(Fail::Error(e)) => Err(e),
            Err(Fail::Panic) => unreached(),
        }
    }

    /// Like `parse`, but `None` where reading the tokens aborts.
    pub fn try_parse(&mut self) -> (r: Option<Result<Ast, Error>>)
        requires
            old(self).wf(),
        ensures
            match p_block(old(self).source(), old(self)@) {
                Ok((b, st)) => r matches Some(Ok(ast)) && ast.block@ == b && final(self)@ == st,
                Err(Failure::Error(e)) => r matches Some(Err(x)) && x@ == e,
                Err(Failure::Panic) => r is None,
            },
    {
        match self.parse_block_node() {
            Ok(block) => Some(Ok(Ast { block })),
            Err(Fail::Error(e)) => Some(Err(e)),
            Err(Fail::Panic) => None,
        }
    }
}

/// Parses a whole source: its statements, or the error the parser reports;
/// `None` where reading it aborts.
pub fn parse_source(input: &[u8]) -> (r: Option<Result<Ast, Error>>)
    requires
        input@.len() < usize::MAX,
    ensures
        match parse_source_spec(input@) {
            Ok(b) => r matches Some(Ok(ast)) && ast.block@ == b,
            Err(Failure::Error(e)) => r matches Some(Err(x)) && x@ == e,
            Err(Failure::Panic) => r is None,
        },
{
    let mut parser = match Parser::try_new(input) {
        Some(Ok(p)) => p,
        Some(Err(e)) => return Some(Err(e)),
        None => return None,
    };
    parser.try_parse()
}

} // verus!

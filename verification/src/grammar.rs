//! The grammar of the language, stated over the stream of tokens the lexer
//! gives: what each parsing step yields and where it leaves the parser.
use crate::ast::{
    binary_operator_of, covering_span, expr_span, kind_text, suffix_span, table_field_span,
    token_display, BinaryOperator, BlockV, ExprV, FieldV, RouteV, ServiceTargetV, Span, StmtV, SuffixV,
    TableFieldV, TokenKind, TokenV,
};
use crate::error::ErrV;
use crate::lexer::{lemma_read_kind_bounds, next_token_spec, peek_at, is_whitespace_spec, Failure};
use vstd::prelude::*;

verus! {

/// Where the parser stands: the current token, the one after it, and the
/// offset the lexer has reached.
pub struct PState {
    pub cur: TokenV,
    pub look: TokenV,
    pub pos: int,
}

/// A state the parser can reach: the lexer stands within the source, and
/// once the end of input shows it stays.
pub open spec fn state_ok(s: Seq<u8>, st: PState) -> bool {
    &&& 0 <= st.pos <= s.len()
    &&& st.look.kind == TokenKind::Eof ==> peek_at(s, st.pos) == 0
    &&& st.cur.kind == TokenKind::Eof ==> st.look.kind == TokenKind::Eof
}

/// How much input is left: every token the parser consumes lowers it.
pub open spec fn measure(s: Seq<u8>, st: PState) -> nat {
    if 0 <= st.pos <= s.len() {
        (2 * (s.len() - st.pos) + (if st.cur.kind != TokenKind::Eof {
            1int
        } else {
            0int
        }) + (if st.look.kind != TokenKind::Eof {
            1int
        } else {
            0int
        })) as nat
    } else {
        0
    }
}

/// Moves one token on: the current token is handed out, the next one is
/// read from the lexer.
pub open spec fn sp_consume(s: Seq<u8>, st: PState) -> Result<(TokenV, PState), Failure> {
    if !state_ok(s, st) || st.cur.kind == TokenKind::Eof {
        Err(Failure::Panic)
    } else {
        match next_token_spec(s, st.pos) {
            Ok((t, e)) => Ok((st.cur, PState { cur: st.look, look: t, pos: e })),
            Err(f) => Err(f),
        }
    }
}

/// The error for a token other than the one expected.
pub open spec fn expected_but(st: PState, what: Seq<char>) -> Failure {
    Failure::Error(
        ErrV {
            why: "expected "@ + what + ", but got "@ + token_display(st.cur),
            span: st.cur.span,
        },
    )
}

/// Consumes the current token if it has kind `k`, and fails otherwise.
pub open spec fn sp_expect(s: Seq<u8>, st: PState, k: TokenKind) -> Result<
    (TokenV, PState),
    Failure,
> {
    if st.cur.kind != k {
        Err(expected_but(st, kind_text(k)))
    } else {
        sp_consume(s, st)
    }
}

/// What `next_token_spec` yields: a token within the source that, but for
/// the end of input, covers at least one byte; the end of input repeats.
pub proof fn lemma_next_token(s: Seq<u8>, p: int)
    requires
        0 <= p <= s.len(),
    ensures
        next_token_spec(s, p) matches Ok((t, e)) ==> {
            &&& p <= e <= s.len()
            &&& (t.kind == TokenKind::Eof ==> peek_at(s, e) == 0)
            &&& (t.kind != TokenKind::Eof ==> p < e)
        },
        peek_at(s, p) == 0 ==> (next_token_spec(s, p) matches Ok((t, e)) && t.kind
            == TokenKind::Eof && e == p),
    decreases s.len() - p,
{
    if 0 <= p < s.len() && is_whitespace_spec(s[p]) {
        lemma_next_token(s, p + 1);
    } else {
        lemma_read_kind_bounds(s, p);
        assert(valid_utf8_empty()) by {
            lemma_valid_utf8_empty();
        }
    }
}

pub open spec fn valid_utf8_empty() -> bool {
    vstd::utf8::valid_utf8(Seq::<u8>::empty())
}

pub proof fn lemma_valid_utf8_empty()
    ensures
        valid_utf8_empty(),
{
}

/// Consuming a token keeps the parser in a reachable state and lowers the
/// measure.
pub proof fn lemma_consume(s: Seq<u8>, st: PState)
    ensures
        sp_consume(s, st) matches Ok((t, st2)) ==> {
            &&& state_ok(s, st2)
            &&& measure(s, st2) < measure(s, st)
            &&& t == st.cur
        },
{
    if state_ok(s, st) && st.cur.kind != TokenKind::Eof {
        lemma_next_token(s, st.pos);
    }
}

pub proof fn lemma_expect(s: Seq<u8>, st: PState, k: TokenKind)
    ensures
        sp_expect(s, st, k) matches Ok((t, st2)) ==> {
            &&& state_ok(s, st2)
            &&& measure(s, st2) < measure(s, st)
            &&& t == st.cur
            &&& t.kind == k
        },
{
    lemma_consume(s, st);
}

/// The left and right binding power of a binary operator.
pub open spec fn precedence(op: BinaryOperator) -> (usize, usize) {
    if op == BinaryOperator::Add || op == BinaryOperator::Subtract {
        (6, 6)
    } else if op == BinaryOperator::Multiply || op == BinaryOperator::Divide {
        (7, 7)
    } else if op == BinaryOperator::Exponent {
        (10, 9)
    } else if op == BinaryOperator::BinaryEquals || op == BinaryOperator::NEquals {
        (3, 3)
    } else if op == BinaryOperator::Less || op == BinaryOperator::Greater || op
        == BinaryOperator::LessEquals || op == BinaryOperator::GreaterEquals {
        (3, 3)
    } else if op == BinaryOperator::And {
        (2, 2)
    } else {
        (1, 1)
    }
}

/// How tightly each operator binds, from loosest to tightest: `or`, `and`,
/// the comparisons, `+ -`, `* /`, `^`.
pub open spec fn binding_tier(op: BinaryOperator) -> int {
    match op {
        BinaryOperator::Or => 0,
        BinaryOperator::And => 1,
        BinaryOperator::BinaryEquals => 2,
        BinaryOperator::NEquals => 2,
        BinaryOperator::Greater => 2,
        BinaryOperator::Less => 2,
        BinaryOperator::GreaterEquals => 2,
        BinaryOperator::LessEquals => 2,
        BinaryOperator::Add => 3,
        BinaryOperator::Subtract => 3,
        BinaryOperator::Multiply => 4,
        BinaryOperator::Divide => 4,
        BinaryOperator::Exponent => 5,
    }
}

/// In `a op1 b op2 c` the parser makes `b op2 c` the right operand of `op1`
/// exactly when `op2` may continue it: when `op2`'s left binding power
/// reaches `op1`'s right one.
pub open spec fn groups_right(op1: BinaryOperator, op2: BinaryOperator) -> bool {
    precedence(op2).0 >= precedence(op1).1
}

/// Operators group as their tiers say: in `a op1 b op2 c`, an operator of a
/// tighter tier after a looser one takes `b` as its left operand, one of a
/// looser tier after a tighter one takes `a op1 b`, and within a tier
/// operators group to the right.
pub proof fn lemma_operators_group_by_tier(op1: BinaryOperator, op2: BinaryOperator)
    ensures
        binding_tier(op2) > binding_tier(op1) ==> groups_right(op1, op2),
        binding_tier(op2) < binding_tier(op1) ==> !groups_right(op1, op2),
        binding_tier(op2) == binding_tier(op1) ==> groups_right(op1, op2),
{
}

/// Kinds at which a table's fields end.
pub open spec fn is_delimiter_spec(kind: TokenKind) -> bool {
    kind == TokenKind::LBrace || kind == TokenKind::RBrace || kind == TokenKind::Newline || kind
        == TokenKind::Eof
}

/// An expression whose operators bind at least as tightly as `limit`.
pub open spec fn p_expression(s: Seq<u8>, st: PState, limit: usize) -> Result<
    (ExprV, PState),
    Failure,
>
    decreases measure(s, st), 10nat,
{
    if st.cur.kind == TokenKind::Negate || st.cur.kind == TokenKind::Not {
        match sp_consume(s, st) {
            Err(f) => Err(f),
            Ok((op, st1)) => {
                proof {
                    lemma_consume(s, st);
                }
                match p_expression(s, st1, 8) {
                    Err(f) => Err(f),
                    Ok((rhs, st2)) => if measure(s, st2) <= measure(s, st1) {
                        p_binloop(
                            s,
                            ExprV::Unary {
                                operator: op,
                                value: Box::new(rhs),
                                span: covering_span(seq![Some(op.span), Some(expr_span(rhs))]),
                            },
                            st2,
                            limit,
                        )
                    } else {
                        Err(Failure::Panic)
                    },
                }
            },
        }
    } else {
        match p_simple(s, st) {
            Err(f) => Err(f),
            Ok((e, st1)) => if measure(s, st1) < measure(s, st) {
                p_binloop(s, e, st1, limit)
            } else {
                Err(Failure::Panic)
            },
        }
    }
}

/// Folds the binary operators that follow `lhs` into it, as long as they
/// bind at least as tightly as `limit`.
pub open spec fn p_binloop(s: Seq<u8>, lhs: ExprV, st: PState, limit: usize) -> Result<
    (ExprV, PState),
    Failure,
>
    decreases measure(s, st), 0nat,
{
    match binary_operator_of(st.cur.kind) {
        None => Ok((lhs, st)),
        Some(op) => if precedence(op).0 < limit {
            Ok((lhs, st))
        } else {
            match sp_consume(s, st) {
                Err(f) => Err(f),
                Ok((binop, st1)) => {
                    proof {
                        lemma_consume(s, st);
                    }
                    match p_expression(s, st1, precedence(op).1) {
                        Err(f) => Err(f),
                        Ok((rhs, st2)) => if measure(s, st2) <= measure(s, st1) {
                            p_binloop(
                                s,
                                ExprV::Binary {
                                    left: Box::new(lhs),
                                    operator: binop,
                                    right: Box::new(rhs),
                                    span: covering_span(
                                        seq![
                                            Some(expr_span(lhs)),
                                            Some(binop.span),
                                            Some(expr_span(rhs)),
                                        ],
                                    ),
                                },
                                st2,
                                limit,
                            )
                        } else {
                            Err(Failure::Panic)
                        },
                    }
                },
            }
        },
    }
}

/// A literal `true` or `false` token read as an expression.
pub open spec fn is_bool_token(t: TokenV) -> bool {
    t.kind == TokenKind::True || t.kind == TokenKind::False
}

/// Reading `a op1 b op2 c`, where `b` and `c` are literals and nothing but
/// the end of the expression follows `c`: when `op2` binds tighter than
/// `op1` (`a or b and c`, `a + b * c`), `b op2 c` becomes the right operand
/// of `op1`; when it binds looser (`a and b or c`, `a * b + c`), `a op1 b`
/// becomes the left operand of `op2`. The states `st0` to `st4` are where
/// the parser stands before each of the four tokens and after the last.
pub proof fn lemma_two_operators_group(
    s: Seq<u8>,
    a: ExprV,
    op1: BinaryOperator,
    op2: BinaryOperator,
    st0: PState,
    st1: PState,
    st2: PState,
    st3: PState,
    st4: PState,
)
    requires
        state_ok(s, st0),
        binary_operator_of(st0.cur.kind) == Some(op1),
        sp_consume(s, st0) == Ok::<(TokenV, PState), Failure>((st0.cur, st1)),
        is_bool_token(st1.cur),
        sp_consume(s, st1) == Ok::<(TokenV, PState), Failure>((st1.cur, st2)),
        binary_operator_of(st2.cur.kind) == Some(op2),
        sp_consume(s, st2) == Ok::<(TokenV, PState), Failure>((st2.cur, st3)),
        is_bool_token(st3.cur),
        sp_consume(s, st3) == Ok::<(TokenV, PState), Failure>((st3.cur, st4)),
        binary_operator_of(st4.cur.kind) is None,
    ensures
        ({
            let b = ExprV::Boolean(st1.cur, st1.cur.span);
            let c = ExprV::Boolean(st3.cur, st3.cur.span);
            &&& binding_tier(op2) > binding_tier(op1) ==> (p_binloop(s, a, st0, 0) matches Ok(
                (ExprV::Binary { left, operator, right, .. }, st),
            ) && *left == a && operator == st0.cur && st == st4 && (*right matches ExprV::Binary {
                left: l2,
                operator: o2,
                right: r2,
                ..
            } && *l2 == b && o2 == st2.cur && *r2 == c))
            &&& binding_tier(op2) < binding_tier(op1) ==> (p_binloop(s, a, st0, 0) matches Ok(
                (ExprV::Binary { left, operator, right, .. }, st),
            ) && *right == c && operator == st2.cur && st == st4 && (*left matches ExprV::Binary {
                left: l2,
                operator: o2,
                right: r2,
                ..
            } && *l2 == a && o2 == st0.cur && *r2 == b))
        }),
{
    lemma_consume(s, st0);
    lemma_consume(s, st1);
    lemma_consume(s, st2);
    lemma_consume(s, st3);
    lemma_operators_group_by_tier(op1, op2);
    let b = ExprV::Boolean(st1.cur, st1.cur.span);
    let c = ExprV::Boolean(st3.cur, st3.cur.span);
    let l1 = precedence(op1).1;
    let l2 = precedence(op2).1;
    assert(p_simple(s, st1) == Ok::<(ExprV, PState), Failure>((b, st2)));
    assert(p_simple(s, st3) == Ok::<(ExprV, PState), Failure>((c, st4)));
    assert(p_binloop(s, c, st4, l2) == Ok::<(ExprV, PState), Failure>((c, st4)));
    assert(p_expression(s, st3, l2) == Ok::<(ExprV, PState), Failure>((c, st4)));
    if binding_tier(op2) > binding_tier(op1) {
        let bc = ExprV::Binary {
            left: Box::new(b),
            operator: st2.cur,
            right: Box::new(c),
            span: covering_span(seq![Some(expr_span(b)), Some(st2.cur.span), Some(expr_span(c))]),
        };
        assert(p_binloop(s, bc, st4, l1) == Ok::<(ExprV, PState), Failure>((bc, st4)));
        assert(p_binloop(s, b, st2, l1) == Ok::<(ExprV, PState), Failure>((bc, st4)));
        assert(p_expression(s, st1, l1) == Ok::<(ExprV, PState), Failure>((bc, st4)));
        let abc = ExprV::Binary {
            left: Box::new(a),
            operator: st0.cur,
            right: Box::new(bc),
            span: covering_span(seq![Some(expr_span(a)), Some(st0.cur.span), Some(expr_span(bc))]),
        };
        assert(p_binloop(s, abc, st4, 0) == Ok::<(ExprV, PState), Failure>((abc, st4)));
        assert(p_binloop(s, a, st0, 0) == Ok::<(ExprV, PState), Failure>((abc, st4)));
    }
    if binding_tier(op2) < binding_tier(op1) {
        assert(p_binloop(s, b, st2, l1) == Ok::<(ExprV, PState), Failure>((b, st2)));
        assert(p_expression(s, st1, l1) == Ok::<(ExprV, PState), Failure>((b, st2)));
        let ab = ExprV::Binary {
            left: Box::new(a),
            operator: st0.cur,
            right: Box::new(b),
            span: covering_span(seq![Some(expr_span(a)), Some(st0.cur.span), Some(expr_span(b))]),
        };
        let abc = ExprV::Binary {
            left: Box::new(ab),
            operator: st2.cur,
            right: Box::new(c),
            span: covering_span(seq![Some(expr_span(ab)), Some(st2.cur.span), Some(expr_span(c))]),
        };
        assert(p_binloop(s, abc, st4, 0) == Ok::<(ExprV, PState), Failure>((abc, st4)));
        assert(p_binloop(s, ab, st2, 0) == Ok::<(ExprV, PState), Failure>((abc, st4)));
        assert(p_binloop(s, a, st0, 0) == Ok::<(ExprV, PState), Failure>((abc, st4)));
    }
}

/// A single token read as an expression of the given shape.
pub open spec fn p_token_expr(s: Seq<u8>, st: PState, k: TokenKind) -> Result<
    (ExprV, PState),
    Failure,
> {
    match sp_expect(s, st, k) {
        Err(f) => Err(f),
        Ok((t, st1)) => Ok(
            (
                if k == TokenKind::Number {
                    ExprV::Number(t, t.span)
                } else if k == TokenKind::String {
                    ExprV::String(t, t.span)
                } else {
                    ExprV::Nil(t, t.span)
                },
                st1,
            ),
        ),
    }
}

/// An expression without binary operators at its top.
pub open spec fn p_simple(s: Seq<u8>, st: PState) -> Result<(ExprV, PState), Failure>
    decreases measure(s, st), 9nat,
{
    let k = st.cur.kind;
    if k == TokenKind::LBrace {
        p_table(s, st)
    } else if k == TokenKind::Identifier {
        p_var(s, st)
    } else if k == TokenKind::Number || k == TokenKind::String || k == TokenKind::Nil {
        p_token_expr(s, st, k)
    } else if binary_operator_of(k) is Some {
        match sp_consume(s, st) {
            Err(f) => Err(f),
            Ok((t, _)) => Err(
                Failure::Error(
                    ErrV { why: "missing left hand side of binary operator"@, span: t.span },
                ),
            ),
        }
    } else if k == TokenKind::True || k == TokenKind::False {
        match sp_consume(s, st) {
            Err(f) => Err(f),
            Ok((t, st1)) => Ok((ExprV::Boolean(t, t.span), st1)),
        }
    } else {
        Err(expected_but(st, "expression"@))
    }
}

/// The span of the first and of the last field of a table, if any.
pub open spec fn fields_first_span(fields: Seq<FieldV>) -> Option<Span> {
    if fields.len() == 0 {
        None
    } else {
        Some(fields[0].span)
    }
}

pub open spec fn fields_last_span(fields: Seq<FieldV>) -> Option<Span> {
    if fields.len() == 0 {
        None
    } else {
        Some(fields.last().span)
    }
}

/// A table once its opening brace is read: the fields read from there,
/// then the closing brace.
pub open spec fn table_rest(s: Seq<u8>, left: TokenV, fields: Result<(Seq<FieldV>, PState), Failure>) -> Result<
    (ExprV, PState),
    Failure,
> {
    match fields {
        Err(f) => Err(f),
        Ok((fields, st2)) => match sp_expect(s, st2, TokenKind::RBrace) {
            Err(f) => Err(f),
            Ok((right, st3)) => Ok(
                (
                    ExprV::Table {
                        left,
                        fields,
                        right,
                        span: covering_span(
                            seq![
                                Some(left.span),
                                fields_first_span(fields),
                                fields_last_span(fields),
                                Some(right.span),
                            ],
                        ),
                    },
                    st3,
                ),
            ),
        },
    }
}

/// A table: fields between braces.
pub open spec fn p_table(s: Seq<u8>, st: PState) -> Result<(ExprV, PState), Failure>
    decreases measure(s, st), 8nat,
{
    match sp_expect(s, st, TokenKind::LBrace) {
        Err(f) => Err(f),
        Ok((left, st1)) => {
            proof {
                lemma_expect(s, st, TokenKind::LBrace);
            }
            table_rest(s, left, p_fields(s, st1, seq![]))
        },
    }
}

/// One field of a table with the comma that follows it, if one does.
pub open spec fn p_field_item(s: Seq<u8>, st: PState) -> Result<(FieldV, PState), Failure>
    decreases measure(s, st), 12nat,
{
    match p_field(s, st) {
        Err(f) => Err(f),
        Ok((field, st1)) => if st1.cur.kind == TokenKind::Comma {
            match sp_expect(s, st1, TokenKind::Comma) {
                Err(f) => Err(f),
                Ok((sep, st2)) => Ok(
                    (
                        FieldV {
                            field,
                            separator: Some(sep),
                            span: covering_span(seq![Some(table_field_span(field)), Some(sep.span)]),
                        },
                        st2,
                    ),
                ),
            }
        } else {
            Ok(
                (
                    FieldV {
                        field,
                        separator: None,
                        span: covering_span(seq![Some(table_field_span(field)), None]),
                    },
                    st1,
                ),
            )
        },
    }
}

/// The fields of a table up to the first delimiter; `acc` holds those
/// read so far.
pub open spec fn p_fields(s: Seq<u8>, st: PState, acc: Seq<FieldV>) -> Result<
    (Seq<FieldV>, PState),
    Failure,
>
    decreases measure(s, st), 13nat,
{
    if is_delimiter_spec(st.cur.kind) {
        Ok((acc, st))
    } else {
        match p_field_item(s, st) {
            Err(f) => Err(f),
            Ok((item, st1)) => if measure(s, st1) < measure(s, st) {
                p_fields(s, st1, acc.push(item))
            } else {
                Err(Failure::Panic)
            },
        }
    }
}

/// A table field: `name = value`, or a bare value.
pub open spec fn p_field(s: Seq<u8>, st: PState) -> Result<(TableFieldV, PState), Failure>
    decreases measure(s, st), 11nat,
{
    if st.cur.kind == TokenKind::Identifier && st.look.kind == TokenKind::Equals {
        match sp_expect(s, st, TokenKind::Identifier) {
            Err(f) => Err(f),
            Ok((name, st1)) => {
                proof {
                    lemma_expect(s, st, TokenKind::Identifier);
                }
                match sp_expect(s, st1, TokenKind::Equals) {
                    Err(f) => Err(f),
                    Ok((equals, st2)) => {
                        proof {
                            lemma_expect(s, st1, TokenKind::Equals);
                        }
                        match p_expression(s, st2, 0) {
                            Err(f) => Err(f),
                            Ok((value, st3)) => Ok(
                                (
                                    TableFieldV::NameKey {
                                        name,
                                        equals,
                                        value,
                                        span: covering_span(
                                            seq![
                                                Some(name.span),
                                                Some(equals.span),
                                                Some(expr_span(value)),
                                            ],
                                        ),
                                    },
                                    st3,
                                ),
                            ),
                        }
                    },
                }
            },
        }
    } else {
        match p_expression(s, st, 0) {
            Err(f) => Err(f),
            Ok((value, st1)) => Ok((TableFieldV::NoKey { value, span: expr_span(value) }, st1)),
        }
    }
}

/// A variable once its name is read: the suffixes read from there.
pub open spec fn var_rest(name: TokenV, suffixes: Result<(Seq<SuffixV>, PState), Failure>) -> Result<
    (ExprV, PState),
    Failure,
> {
    match suffixes {
        Err(f) => Err(f),
        Ok((suffixes, st2)) => Ok(
            (
                ExprV::Var {
                    root: name,
                    root_span: name.span,
                    suffixes,
                    span: covering_span(
                        seq![
                            Some(name.span),
                            if suffixes.len() == 0 {
                                None
                            } else {
                                Some(suffix_span(suffixes.last()))
                            },
                        ],
                    ),
                },
                st2,
            ),
        ),
    }
}

/// A variable: a name followed by index suffixes.
pub open spec fn p_var(s: Seq<u8>, st: PState) -> Result<(ExprV, PState), Failure>
    decreases measure(s, st), 8nat,
{
    match sp_expect(s, st, TokenKind::Identifier) {
        Err(f) => Err(f),
        Ok((name, st1)) => {
            proof {
                lemma_expect(s, st, TokenKind::Identifier);
            }
            var_rest(name, p_suffixes(s, st1, seq![]))
        },
    }
}

/// The index suffixes of a variable; `acc` holds those read so far.
pub open spec fn p_suffixes(s: Seq<u8>, st: PState, acc: Seq<SuffixV>) -> Result<
    (Seq<SuffixV>, PState),
    Failure,
>
    decreases measure(s, st), 12nat,
{
    if st.cur.kind == TokenKind::Period {
        match p_suffix(s, st) {
            Err(f) => Err(f),
            Ok((suffix, st1)) => if measure(s, st1) < measure(s, st) {
                p_suffixes(s, st1, acc.push(suffix))
            } else {
                Err(Failure::Panic)
            },
        }
    } else {
        Ok((acc, st))
    }
}

/// One index suffix: `.name`, or `.` followed by a bracketed expression.
pub open spec fn p_suffix(s: Seq<u8>, st: PState) -> Result<(SuffixV, PState), Failure>
    decreases measure(s, st), 11nat,
{
    if st.cur.kind == TokenKind::Period && st.look.kind == TokenKind::LBracket {
        match sp_expect(s, st, TokenKind::Period) {
            Err(f) => Err(f),
            Ok((period, st1)) => {
                proof {
                    lemma_expect(s, st, TokenKind::Period);
                }
                match sp_expect(s, st1, TokenKind::LBracket) {
                    Err(f) => Err(f),
                    Ok((left, st2)) => {
                        proof {
                            lemma_expect(s, st1, TokenKind::LBracket);
                        }
                        match p_expression(s, st2, 0) {
                            Err(f) => Err(f),
                            Ok((value, st3)) => match sp_expect(s, st3, TokenKind::RBracket) {
                                Err(f) => Err(f),
                                Ok((right, st4)) => Ok(
                                    (
                                        SuffixV::ExpressionIndex {
                                            period,
                                            left,
                                            value,
                                            right,
                                            span: covering_span(seq![Some(left.span)]),
                                        },
                                        st4,
                                    ),
                                ),
                            },
                        }
                    },
                }
            },
        }
    } else if st.cur.kind == TokenKind::Period {
        match sp_expect(s, st, TokenKind::Period) {
            Err(f) => Err(f),
            Ok((period, st1)) => match sp_expect(s, st1, TokenKind::Identifier) {
                Err(f) => Err(f),
                Ok((name, st2)) => Ok(
                    (
                        SuffixV::NameIndex {
                            period,
                            name,
                            span: covering_span(seq![Some(period.span), Some(name.span)]),
                        },
                        st2,
                    ),
                ),
            },
        }
    } else {
        Err(Failure::Panic)
    }
}

/// The value of a string of decimal digits.
pub open spec fn decimal_value(d: Seq<char>) -> int
    decreases d.len(),
{
    if d.len() == 0 {
        0
    } else {
        decimal_value(d.drop_last()) * 10 + (d.last() as int - '0' as int)
    }
}

pub open spec fn all_digits(d: Seq<char>) -> bool {
    forall|i: int| 0 <= i < d.len() ==> '0' <= #[trigger] d[i] <= '9'
}

/// What `str::parse::<usize>` gives: an optional `+` followed by at least
/// one decimal digit and nothing else, whose value fits in `usize`.
pub open spec fn parse_usize_spec(t: Seq<char>) -> Option<usize> {
    let d = if t.len() > 0 && t[0] == '+' {
        t.drop_first()
    } else {
        t
    };
    if d.len() > 0 && all_digits(d) && decimal_value(d) <= usize::MAX {
        Some(decimal_value(d) as usize)
    } else {
        None
    }
}

/// The message for a port that is not a whole number.
pub open spec fn invalid_number_message(text: Seq<char>) -> Seq<char> {
    "provided invalid number '"@ + text + "', only integers are supported"@
}

/// A `let` statement.
pub open spec fn p_let(s: Seq<u8>, st: PState) -> Result<(StmtV, PState), Failure> {
    match sp_expect(s, st, TokenKind::Let) {
        Err(f) => Err(f),
        Ok((_, st1)) => match sp_expect(s, st1, TokenKind::Identifier) {
            Err(f) => Err(f),
            Ok((name, st2)) => match sp_expect(s, st2, TokenKind::Equals) {
                Err(f) => Err(f),
                Ok((equals, st3)) => match p_expression(s, st3, 0) {
                    Err(f) => Err(f),
                    Ok((value, st4)) => Ok(
                        (
                            StmtV::Let {
                                name,
                                root_span: name.span,
                                equals,
                                value,
                                span: covering_span(
                                    seq![
                                        Some(name.span),
                                        Some(equals.span),
                                        Some(expr_span(value)),
                                    ],
                                ),
                            },
                            st4,
                        ),
                    ),
                },
            },
        },
    }
}

/// An assignment `name = value`.
pub open spec fn p_assign(s: Seq<u8>, st: PState) -> Result<(StmtV, PState), Failure> {
    match sp_expect(s, st, TokenKind::Identifier) {
        Err(f) => Err(f),
        Ok((identifier, st1)) => match sp_expect(s, st1, TokenKind::Equals) {
            Err(f) => Err(f),
            Ok((equals, st2)) => match p_expression(s, st2, 0) {
                Err(f) => Err(f),
                Ok((value, st3)) => Ok(
                    (
                        StmtV::Assign {
                            identifier,
                            equals,
                            value,
                            span: covering_span(
                                seq![
                                    Some(identifier.span),
                                    Some(equals.span),
                                    Some(expr_span(value)),
                                ],
                            ),
                        },
                        st3,
                    ),
                ),
            },
        },
    }
}

/// A service target `service: port`.
pub open spec fn p_service_target(s: Seq<u8>, st: PState) -> Result<
    (ServiceTargetV, PState),
    Failure,
> {
    match sp_expect(s, st, TokenKind::Identifier) {
        Err(f) => Err(f),
        Ok((service, st1)) => match sp_expect(s, st1, TokenKind::Colon) {
            Err(f) => Err(f),
            Ok((equals, st2)) => match sp_expect(s, st2, TokenKind::Number) {
                Err(f) => Err(f),
                Ok((port_token, st3)) => match parse_usize_spec(port_token.text) {
                    None => Err(
                        Failure::Error(
                            ErrV {
                                why: invalid_number_message(port_token.text),
                                span: service.span,
                            },
                        ),
                    ),
                    Some(port) => Ok(
                        (
                            ServiceTargetV {
                                service,
                                equals,
                                port,
                                span: covering_span(
                                    seq![
                                        Some(service.span),
                                        Some(equals.span),
                                        Some(port_token.span),
                                    ],
                                ),
                            },
                            st3,
                        ),
                    ),
                },
            },
        },
    }
}

/// The assignments of a route's property block, up to its closing brace or
/// the end of input; `acc` holds those read so far.
pub open spec fn p_assigns(s: Seq<u8>, st: PState, acc: Seq<StmtV>) -> Result<
    (Seq<StmtV>, PState),
    Failure,
>
    decreases measure(s, st),
{
    if st.cur.kind != TokenKind::RBrace && st.cur.kind != TokenKind::Eof {
        match p_assign(s, st) {
            Err(f) => Err(f),
            Ok((a, st1)) => if measure(s, st1) < measure(s, st) {
                p_assigns(s, st1, acc.push(a))
            } else {
                Err(Failure::Panic)
            },
        }
    } else {
        Ok((acc, st))
    }
}

/// A property block once its opening brace is read: the assignments read
/// from there, then the closing brace.
pub open spec fn properties_rest(s: Seq<u8>, left: TokenV, body: Result<(Seq<StmtV>, PState), Failure>) -> Result<
    (BlockV, PState),
    Failure,
> {
    match body {
        Err(f) => Err(f),
        Ok((body, st2)) => match sp_expect(s, st2, TokenKind::RBrace) {
            Err(f) => Err(f),
            Ok((right, st3)) => Ok(
                (
                    BlockV { body, span: covering_span(seq![Some(left.span), Some(right.span)]) },
                    st3,
                ),
            ),
        },
    }
}

/// A route's property block: assignments between braces.
pub open spec fn p_route_properties(s: Seq<u8>, st: PState) -> Result<(BlockV, PState), Failure> {
    match sp_expect(s, st, TokenKind::LBrace) {
        Err(f) => Err(f),
        Ok((left, st1)) => properties_rest(s, left, p_assigns(s, st1, seq![])),
    }
}

/// A TCP route: `tcp service: port { ... }`.
pub open spec fn p_route_tcp(s: Seq<u8>, st: PState) -> Result<(RouteV, PState), Failure> {
    match sp_expect(s, st, TokenKind::Tcp) {
        Err(f) => Err(f),
        Ok((start, st1)) => match p_service_target(s, st1) {
            Err(f) => Err(f),
            Ok((target, st2)) => match p_route_properties(s, st2) {
                Err(f) => Err(f),
                Ok((properties, st3)) => Ok(
                    (
                        RouteV::TCP {
                            target,
                            properties,
                            span: covering_span(
                                seq![Some(start.span), Some(target.span), Some(properties.span)],
                            ),
                        },
                        st3,
                    ),
                ),
            },
        },
    }
}

/// An HTTP route: `"hostname" -> service: port { ... }`.
pub open spec fn p_route_http(s: Seq<u8>, st: PState) -> Result<(RouteV, PState), Failure> {
    match sp_expect(s, st, TokenKind::String) {
        Err(f) => Err(f),
        Ok((hostname, st1)) => match sp_expect(s, st1, TokenKind::Arrow) {
            Err(f) => Err(f),
            Ok((equals, st2)) => match p_service_target(s, st2) {
                Err(f) => Err(f),
                Ok((target, st3)) => match p_route_properties(s, st3) {
                    Err(f) => Err(f),
                    Ok((properties, st4)) => Ok(
                        (
                            RouteV::HTTP {
                                hostname,
                                target,
                                properties,
                                span: covering_span(
                                    seq![
                                        Some(hostname.span),
                                        Some(equals.span),
                                        Some(target.span),
                                        Some(properties.span),
                                    ],
                                ),
                            },
                            st4,
                        ),
                    ),
                },
            },
        },
    }
}

/// A route statement: `route` followed by a TCP or an HTTP route.
pub open spec fn p_route(s: Seq<u8>, st: PState) -> Result<(StmtV, PState), Failure> {
    match sp_expect(s, st, TokenKind::Route) {
        Err(f) => Err(f),
        Ok((_, st1)) => {
            let r = if st1.cur.kind == TokenKind::Tcp {
                p_route_tcp(s, st1)
            } else {
                p_route_http(s, st1)
            };
            match r {
                Err(f) => Err(f),
                Ok((route, st2)) => Ok((StmtV::Route(route), st2)),
            }
        },
    }
}

/// One statement of a block, chosen by the tokens under the parser.
pub open spec fn p_statement(s: Seq<u8>, st: PState) -> Result<(StmtV, PState), Failure> {
    if st.look.kind == TokenKind::Equals {
        p_assign(s, st)
    } else if st.cur.kind == TokenKind::Let {
        p_let(s, st)
    } else if st.cur.kind == TokenKind::Route {
        p_route(s, st)
    } else {
        Err(expected_but(st, "statement"@))
    }
}

/// The statements of a block up to the end of input; `acc` holds those read
/// so far.
pub open spec fn p_statements(s: Seq<u8>, st: PState, acc: Seq<StmtV>) -> Result<
    (Seq<StmtV>, PState),
    Failure,
>
    decreases measure(s, st),
{
    if st.cur.kind != TokenKind::Eof {
        match p_statement(s, st) {
            Err(f) => Err(f),
            Ok((a, st1)) => if measure(s, st1) < measure(s, st) {
                p_statements(s, st1, acc.push(a))
            } else {
                Err(Failure::Panic)
            },
        }
    } else {
        Ok((acc, st))
    }
}

/// A block: statements up to the end of input. Its span starts where the
/// first token does and ends where the final token does.
pub open spec fn p_block(s: Seq<u8>, st: PState) -> Result<(BlockV, PState), Failure> {
    match p_statements(s, st, seq![]) {
        Err(f) => Err(f),
        Ok((body, st1)) => Ok(
            (
                BlockV {
                    body,
                    span: Span {
                        x: st.cur.span.x,
                        y: st1.cur.span.y,
                        z: st.cur.span.z,
                        w: st.cur.span.w,
                    },
                },
                st1,
            ),
        ),
    }
}

/// The parser's starting state: the first two tokens of the source.
pub open spec fn p_start(s: Seq<u8>) -> Result<PState, Failure> {
    match next_token_spec(s, 0) {
        Err(f) => Err(f),
        Ok((t1, e1)) => match next_token_spec(s, e1) {
            Err(f) => Err(f),
            Ok((t2, e2)) => Ok(PState { cur: t1, look: t2, pos: e2 }),
        },
    }
}

/// What parsing a whole source gives: its block, or the error reported.
pub open spec fn parse_source_spec(s: Seq<u8>) -> Result<BlockV, Failure> {
    match p_start(s) {
        Err(f) => Err(f),
        Ok(st) => match p_block(s, st) {
            Err(f) => Err(f),
            Ok((b, _)) => Ok(b),
        },
    }
}

} // verus!

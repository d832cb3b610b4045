//! Printing a block of `let` statements and assignments of boolean values,
//! then reading the text back, gives the same statements again.
use vstd::prelude::*;
use vstd::utf8::{
    decode_utf8, encode_utf8, encode_utf8_decode_utf8, encode_utf8_valid_utf8, is_ascii_chars,
    is_ascii_chars_encode_utf8, valid_utf8,
};
use crate::ast::{BlockV, ExprV, StmtV, TokenKind, TokenV};
use crate::compare::{block_issues, stmt_issues, stmt_list_issues, IssueV};
use crate::display::{block_out, line_out, stmt_out, stmts_out, tabs};
use crate::grammar::{
    lemma_consume, lemma_expect, lemma_next_token, lemma_valid_utf8_empty, measure, p_binloop,
    p_expression, p_let, p_assign, p_simple, p_start, p_statement, p_statements, parse_source_spec,
    sp_consume, sp_expect, state_ok, PState,
};
use crate::lexer::{
    alpha_end, is_ident_char, is_letter, next_token_spec, span_of, word_kind, Failure, EQUALS,
    UNDERSCORE,
};

verus! {

/// The run of identifier characters from `p` ends at `e`.
proof fn lemma_alpha_run(s: Seq<u8>, p: int, e: int)
    requires
        0 <= p <= e <= s.len(),
        forall|k: int| p <= k < e ==> is_ident_char(#[trigger] s[k]),
        e == s.len() || !is_ident_char(s[e]),
    ensures
        alpha_end(s, p) == e,
    decreases e - p,
{
    if p < e {
        lemma_alpha_run(s, p + 1, e);
    }
}

/// A word from `p` to `e` is read as one token, a keyword or a name.
proof fn lemma_word_token(s: Seq<u8>, p: int, e: int)
    requires
        0 <= p < e <= s.len(),
        is_letter(s[p]) || s[p] == UNDERSCORE,
        forall|k: int| p <= k < e ==> is_ident_char(#[trigger] s[k]),
        e == s.len() || !is_ident_char(s[e]),
        valid_utf8(s.subrange(p, e)),
    ensures
        next_token_spec(s, p) == Ok::<(TokenV, int), Failure>(
            (
                TokenV {
                    kind: crate::lexer::word_kind(s.subrange(p, e)),
                    text: decode_utf8(s.subrange(p, e)),
                    span: span_of(s, p, e),
                },
                e,
            ),
        ),
{
    lemma_alpha_run(s, p + 1, e);
}

/// An `=` not followed by another is read as one `=` token.
proof fn lemma_equals_token(s: Seq<u8>, p: int)
    requires
        0 <= p,
        p + 1 < s.len(),
        s[p] == EQUALS,
        s[p + 1] != EQUALS,
        valid_utf8(s.subrange(p, p + 1)),
    ensures
        next_token_spec(s, p) == Ok::<(TokenV, int), Failure>(
            (
                TokenV {
                    kind: TokenKind::Equals,
                    text: decode_utf8(s.subrange(p, p + 1)),
                    span: span_of(s, p, p + 1),
                },
                p + 1,
            ),
        ),
{
}

/// At the end of the source the lexer reads the end of input.
proof fn lemma_eof_token(s: Seq<u8>)
    ensures
        next_token_spec(s, s.len() as int) == Ok::<(TokenV, int), Failure>(
            (
                TokenV {
                    kind: TokenKind::Eof,
                    text: decode_utf8(Seq::<u8>::empty()),
                    span: span_of(s, s.len() as int, s.len() as int),
                },
                s.len() as int,
            ),
        ),
{
    lemma_valid_utf8_empty();
    assert(s.subrange(s.len() as int, s.len() as int) =~= Seq::<u8>::empty());
}

/// The bytes of ASCII text are its characters, one each.
proof fn lemma_ascii_bytes(t: Seq<char>, p: int, q: int)
    requires
        is_ascii_chars(t),
        0 <= p <= q <= t.len(),
    ensures
        encode_utf8(t).len() == t.len(),
        encode_utf8(t).subrange(p, q) == encode_utf8(t.subrange(p, q)),
        valid_utf8(encode_utf8(t).subrange(p, q)),
        decode_utf8(encode_utf8(t).subrange(p, q)) == t.subrange(p, q),
{
    is_ascii_chars_encode_utf8(t);
    let sub = t.subrange(p, q);
    assert(is_ascii_chars(sub));
    is_ascii_chars_encode_utf8(sub);
    assert(encode_utf8(t).subrange(p, q) =~= encode_utf8(sub));
    encode_utf8_valid_utf8(sub);
    encode_utf8_decode_utf8(sub);
}

/// A name that reads back as one identifier: ASCII, starting with a letter
/// or `_`, made of identifier characters, and no keyword.
pub open spec fn is_plain_name(n: Seq<char>) -> bool {
    &&& n.len() > 0
    &&& is_ascii_chars(n)
    &&& (is_letter(n[0] as u8) || n[0] as u8 == UNDERSCORE)
    &&& forall|i: int| 0 <= i < n.len() ==> is_ident_char(#[trigger] n[i] as u8)
    &&& word_kind(encode_utf8(n)) == TokenKind::Identifier
}

/// The literal `true` or `false`, as the generator builds it.
pub open spec fn is_bool_literal(e: ExprV) -> bool {
    match e {
        ExprV::Boolean(t, _) => (t.kind == TokenKind::True && t.text == "true"@) || (t.kind
            == TokenKind::False && t.text == "false"@),
        _ => false,
    }
}

/// A statement as the generator builds it: `let name = value` or
/// `name = value`, with a plain name, an `=` token and a boolean literal.
pub open spec fn is_generated(st: StmtV) -> bool {
    match st {
        StmtV::Let { name, equals, value, .. } => name.kind == TokenKind::Identifier
            && is_plain_name(name.text) && equals.kind == TokenKind::Equals && equals.text == "="@
            && is_bool_literal(value),
        StmtV::Assign { identifier, equals, value, .. } => identifier.kind == TokenKind::Identifier
            && is_plain_name(identifier.text) && equals.kind == TokenKind::Equals && equals.text
            == "="@ && is_bool_literal(value),
        StmtV::Route(_) => false,
    }
}

/// Two literals of the same kind and text.
pub open spec fn same_literal(a: ExprV, b: ExprV) -> bool {
    match (a, b) {
        (ExprV::Boolean(x, _), ExprV::Boolean(y, _)) => x.kind == y.kind && x.text == y.text,
        _ => false,
    }
}

/// Two statements that agree but for where their parts stand.
pub open spec fn same_statement(a: StmtV, b: StmtV) -> bool {
    match (a, b) {
        (
            StmtV::Let { name: n1, equals: e1, value: v1, .. },
            StmtV::Let { name: n2, equals: e2, value: v2, .. },
        ) => n1.kind == n2.kind && n1.text == n2.text && e1.kind == e2.kind && e1.text == e2.text
            && same_literal(v1, v2),
        (
            StmtV::Assign { identifier: n1, equals: e1, value: v1, .. },
            StmtV::Assign { identifier: n2, equals: e2, value: v2, .. },
        ) => n1.kind == n2.kind && n1.text == n2.text && e1.kind == e2.kind && e1.text == e2.text
            && same_literal(v1, v2),
        _ => false,
    }
}

/// The statements printed front to back, each followed by a line break.
spec fn rest_text(ss: Seq<StmtV>) -> Seq<char>
    decreases ss.len(),
{
    if ss.len() == 0 {
        Seq::empty()
    } else {
        stmt_out(ss[0], 0) + seq!['\n'] + rest_text(ss.drop_first())
    }
}

proof fn lemma_rest_text_push(ss: Seq<StmtV>, x: StmtV)
    ensures
        rest_text(ss.push(x)) == rest_text(ss) + stmt_out(x, 0) + seq!['\n'],
    decreases ss.len(),
{
    if ss.len() == 0 {
        assert(ss.push(x).drop_first() =~= Seq::<StmtV>::empty());
        assert(ss.push(x)[0] == x);
        assert(rest_text(Seq::<StmtV>::empty()) == Seq::<char>::empty());
        assert(rest_text(ss.push(x)) =~= rest_text(ss) + stmt_out(x, 0) + seq!['\n']);
    } else {
        assert(ss.push(x).drop_first() =~= ss.drop_first().push(x));
        assert(ss.push(x)[0] == ss[0]);
        lemma_rest_text_push(ss.drop_first(), x);
        let a = stmt_out(ss[0], 0) + seq!['\n'];
        assert(rest_text(ss.push(x)) == a + (rest_text(ss.drop_first()) + stmt_out(x, 0) + seq![
            '\n',
        ]));
        assert(rest_text(ss.push(x)) =~= rest_text(ss) + stmt_out(x, 0) + seq!['\n']);
    }
}

/// At depth zero the statements print as `rest_text` does.
proof fn lemma_stmts_text(ss: Seq<StmtV>)
    ensures
        stmts_out(ss, 0) == rest_text(ss),
    decreases ss.len(),
{
    assert(tabs(0) =~= Seq::<char>::empty());
    assert(line_out(0) =~= seq!['\n']);
    if ss.len() > 0 {
        let init = ss.subrange(0, ss.len() - 1);
        lemma_stmts_text(init);
        assert(init.push(ss[ss.len() - 1]) =~= ss);
        lemma_rest_text_push(init, ss[ss.len() - 1]);
    }
}

/// The text of a generated statement, part by part.
proof fn lemma_generated_text(st: StmtV)
    requires
        is_generated(st),
    ensures
        st matches StmtV::Let { name, value, .. } ==> stmt_out(st, 0) == seq!['l', 'e', 't', ' ']
            + name.text + seq!['='] + literal_text(value),
        st matches StmtV::Assign { identifier, value, .. } ==> stmt_out(st, 0) == identifier.text
            + seq!['='] + literal_text(value),
        is_ascii_chars(stmt_out(st, 0)),
{
    reveal_strlit("=");
    reveal_strlit("true");
    reveal_strlit("false");
    match st {
        StmtV::Let { name, equals, value, .. } => {
            assert(equals.text =~= seq!['=']);
            assert(stmt_out(st, 0) =~= seq!['l', 'e', 't', ' '] + name.text + seq!['=']
                + literal_text(value));
            assert(is_ascii_chars(stmt_out(st, 0))) by {
                assert forall|i: int| 0 <= i < stmt_out(st, 0).len() implies '\0' <= #[trigger] stmt_out(st, 0)[i] <= '\u{7f}' by {
                    let m = name.text.len();
                    if 4 <= i < 4 + m {
                        assert(stmt_out(st, 0)[i] == name.text[i - 4]);
                    }
                }
            }
        },
        StmtV::Assign { identifier, equals, value, .. } => {
            assert(equals.text =~= seq!['=']);
            assert(stmt_out(st, 0) =~= identifier.text + seq!['='] + literal_text(value));
            assert(is_ascii_chars(stmt_out(st, 0))) by {
                assert forall|i: int| 0 <= i < stmt_out(st, 0).len() implies '\0' <= #[trigger] stmt_out(st, 0)[i] <= '\u{7f}' by {
                    let m = identifier.text.len();
                    if i < m {
                        assert(stmt_out(st, 0)[i] == identifier.text[i]);
                    }
                }
            }
        },
        StmtV::Route(_) => {},
    }
}

/// The token of kind `k` that the lexer reads from `p` to `e`.
spec fn tok(s: Seq<u8>, k: TokenKind, p: int, e: int) -> TokenV {
    TokenV { kind: k, text: decode_utf8(s.subrange(p, e)), span: span_of(s, p, e) }
}

/// Where the parser stands before the statements `ss` that start at `o`:
/// on their first two tokens, or on the end of input twice.
#[verifier::opaque]
spec fn state_at(s: Seq<u8>, o: int, ss: Seq<StmtV>) -> PState {
    let n = s.len() as int;
    if ss.len() > 0 && ss[0] is Let {
        let m = ss[0]->Let_name.text.len() as int;
        PState {
            cur: tok(s, TokenKind::Let, o, o + 3),
            look: tok(s, TokenKind::Identifier, o + 4, o + 4 + m),
            pos: o + 4 + m,
        }
    } else if ss.len() > 0 && ss[0] is Assign {
        let m = ss[0]->Assign_identifier.text.len() as int;
        PState {
            cur: tok(s, TokenKind::Identifier, o, o + m),
            look: tok(s, TokenKind::Equals, o + m, o + m + 1),
            pos: o + m + 1,
        }
    } else {
        PState { cur: tok(s, TokenKind::Eof, n, n), look: tok(s, TokenKind::Eof, n, n), pos: n }
    }
}

/// A word of the text from `p` to `p + w.len()` reads as one token, a
/// keyword or a name, when a byte that ends words follows it.
proof fn lemma_word_at(t: Seq<char>, p: int, w: Seq<char>)
    requires
        is_ascii_chars(t),
        0 <= p,
        w.len() > 0,
        p + w.len() < t.len(),
        t.subrange(p, p + w.len()) == w,
        is_letter(w[0] as u8) || w[0] as u8 == UNDERSCORE,
        forall|i: int| 0 <= i < w.len() ==> is_ident_char(#[trigger] w[i] as u8),
        !is_ident_char(t[p + w.len()] as u8),
    ensures
        next_token_spec(encode_utf8(t), p) == Ok::<(TokenV, int), Failure>(
            (tok(encode_utf8(t), word_kind(encode_utf8(w)), p, p + w.len()), p + w.len()),
        ),
{
    let s = encode_utf8(t);
    let e = p + w.len();
    lemma_ascii_bytes(t, p, e);
    is_ascii_chars_encode_utf8(t);
    assert(s[p] == t[p] as u8);
    assert(t[p] == w[0]);
    assert forall|k: int| p <= k < e implies is_ident_char(#[trigger] s[k]) by {
        assert(s[k] == t[k] as u8);
        assert(t[k] == w[k - p]);
    }
    assert(s[e] == t[e] as u8);
    lemma_word_token(s, p, e);
}

/// A plain name reads as one identifier token when a byte that ends
/// names follows it.
proof fn lemma_name_token(t: Seq<char>, p: int, n: Seq<char>)
    requires
        is_ascii_chars(t),
        0 <= p,
        p + n.len() < t.len(),
        t.subrange(p, p + n.len()) == n,
        is_plain_name(n),
        !is_ident_char(t[p + n.len()] as u8),
    ensures
        next_token_spec(encode_utf8(t), p) == Ok::<(TokenV, int), Failure>(
            (tok(encode_utf8(t), TokenKind::Identifier, p, p + n.len()), p + n.len()),
        ),
{
    lemma_word_at(t, p, n);
}

/// The keywords the printed text holds read as their kinds.
proof fn lemma_keyword_kinds()
    ensures
        word_kind(encode_utf8(seq!['l', 'e', 't'])) == TokenKind::Let,
        word_kind(encode_utf8("true"@)) == TokenKind::True,
        word_kind(encode_utf8("false"@)) == TokenKind::False,
{
    reveal_strlit("true");
    reveal_strlit("false");
    let l = seq!['l', 'e', 't'];
    assert(is_ascii_chars(l));
    is_ascii_chars_encode_utf8(l);
    assert(encode_utf8(l) =~= seq![108u8, 101, 116]);
    assert(is_ascii_chars("true"@));
    is_ascii_chars_encode_utf8("true"@);
    assert(encode_utf8("true"@) =~= seq![116u8, 114, 117, 101]);
    assert(is_ascii_chars("false"@));
    is_ascii_chars_encode_utf8("false"@);
    assert(encode_utf8("false"@) =~= seq![102u8, 97, 108, 115, 101]);
}

/// Before the statements `ss` that start at `o`, the lexer reads the two
/// tokens `state_at` names, and the parser may stand there.
proof fn lemma_two_tokens(t: Seq<char>, o: int, ss: Seq<StmtV>)
    requires
        is_ascii_chars(t),
        0 <= o <= t.len(),
        t.subrange(o, t.len() as int) == rest_text(ss),
        forall|i: int| 0 <= i < ss.len() ==> is_generated(#[trigger] ss[i]),
    ensures
        ({
            let s = encode_utf8(t);
            let st = state_at(s, o, ss);
            &&& next_token_spec(s, o) matches Ok((t1, e1)) && t1 == st.cur && next_token_spec(s, e1)
                == Ok::<(TokenV, int), Failure>((st.look, st.pos))
            &&& state_ok(s, st)
            &&& ss.len() > 0 ==> st.cur.kind != TokenKind::Eof && st.look.kind != TokenKind::Eof
            &&& ss.len() == 0 ==> st.cur.kind == TokenKind::Eof
            &&& st.cur.kind == TokenKind::Let || st.cur.kind == TokenKind::Identifier || st.cur.kind
                == TokenKind::Eof
        }),
{
    reveal(state_at);
    let s = encode_utf8(t);
    is_ascii_chars_encode_utf8(t);
    let x = t.subrange(o, t.len() as int);
    if ss.len() == 0 {
        assert(x.len() == 0);
        lemma_eof_token(s);
        assert(s.subrange(s.len() as int, s.len() as int) =~= Seq::<u8>::empty());
    } else {
        let st0 = ss[0];
        lemma_generated_text(st0);
        let rest = rest_text(ss.drop_first());
        assert(x == stmt_out(st0, 0) + seq!['\n'] + rest);
        reveal_strlit("true");
        reveal_strlit("false");
        match st0 {
            StmtV::Let { name, value, .. } => {
                let n = name.text;
                let m = n.len() as int;
                let v = literal_text(value);
                assert(x =~= seq!['l', 'e', 't', ' '] + n + seq!['='] + v + seq!['\n'] + rest);
                let w = seq!['l', 'e', 't'];
                assert(t.subrange(o, o + 3) =~= w) by {
                    assert forall|j: int| 0 <= j < 3 implies t.subrange(o, o + 3)[j] == w[j] by {
                        assert(t[o + j] == x[j]);
                    }
                }
                assert(t[o + 3] == x[3]);
                lemma_keyword_kinds();
                lemma_word_at(t, o, w);
                assert(t.subrange(o + 4, o + 4 + m) =~= n) by {
                    assert forall|j: int| 0 <= j < m implies t.subrange(o + 4, o + 4 + m)[j]
                        == n[j] by {
                        assert(t[o + 4 + j] == x[4 + j]);
                    }
                }
                assert(t[o + 4 + m] == x[4 + m]);
                assert(s[o + 3] == t[o + 3] as u8);
                lemma_name_token(t, o + 4, n);
            },
            StmtV::Assign { identifier, value, .. } => {
                let n = identifier.text;
                let m = n.len() as int;
                let v = literal_text(value);
                assert(x =~= n + seq!['='] + v + seq!['\n'] + rest);
                assert(t.subrange(o, o + m) =~= n) by {
                    assert forall|j: int| 0 <= j < m implies t.subrange(o, o + m)[j] == n[j] by {
                        assert(t[o + j] == x[j]);
                    }
                }
                assert(t[o + m] == x[m]);
                assert(t[o + m + 1] == x[m + 1]);
                assert(v[0] == 't' || v[0] == 'f');
                lemma_name_token(t, o, n);
                lemma_ascii_bytes(t, o + m, o + m + 1);
                assert(s[o + m] == t[o + m] as u8);
                assert(s[o + m + 1] == t[o + m + 1] as u8);
                lemma_equals_token(s, o + m);
            },
            StmtV::Route(_) => {},
        }
    }
}

/// The kind of a boolean literal's token.
spec fn literal_kind(e: ExprV) -> TokenKind {
    match e {
        ExprV::Boolean(t, _) => t.kind,
        _ => TokenKind::Error,
    }
}

/// A literal printed at `q` and followed by a line break and the
/// statements `rest`: once the `=` before it is expected, the parser reads
/// it as the same literal and stands before `rest`.
proof fn lemma_value_tail(
    t: Seq<char>,
    q: int,
    value: ExprV,
    rest: Seq<StmtV>,
    eq: TokenV,
)
    requires
        is_ascii_chars(t),
        0 <= q,
        is_bool_literal(value),
        q + literal_text(value).len() + 1 <= t.len(),
        t.subrange(q, q + literal_text(value).len()) == literal_text(value),
        t[q + literal_text(value).len()] == '\n',
        t.subrange(q + literal_text(value).len() + 1, t.len() as int) == rest_text(rest),
        forall|i: int| 0 <= i < rest.len() ==> is_generated(#[trigger] rest[i]),
        eq.kind == TokenKind::Equals,
    ensures
        ({
            let s = encode_utf8(t);
            let e = q + literal_text(value).len();
            let valt = tok(s, literal_kind(value), q, e);
            let st = PState { cur: eq, look: valt, pos: e };
            let next = state_at(s, e + 1, rest);
            &&& next_token_spec(s, q) == Ok::<(TokenV, int), Failure>((valt, e))
            &&& valt.text == literal_text(value)
            &&& state_ok(s, st)
            &&& sp_expect(s, st, TokenKind::Equals) matches Ok((x, st1)) && x == eq && p_expression(
                s,
                st1,
                0,
            ) == Ok::<(ExprV, PState), Failure>((ExprV::Boolean(valt, valt.span), next))
                && measure(s, next) < measure(s, st)
        }),
{
    let s = encode_utf8(t);
    let v = literal_text(value);
    let vl = v.len() as int;
    let e = q + vl;
    let valt = tok(s, literal_kind(value), q, e);
    is_ascii_chars_encode_utf8(t);
    reveal_strlit("true");
    reveal_strlit("false");
    lemma_keyword_kinds();
    assert(t[e] as u8 == 10);
    lemma_word_at(t, q, v);
    lemma_ascii_bytes(t, q, e);
    lemma_two_tokens(t, e + 1, rest);
    let next = state_at(s, e + 1, rest);
    let r1 = next_token_spec(s, e + 1);
    let e1 = r1->Ok_0.1;
    assert(s[e] == t[e] as u8);
    assert(next_token_spec(s, e) == r1);
    lemma_next_token(s, e + 1);
    let st = PState { cur: eq, look: valt, pos: e };
    let st1 = PState { cur: valt, look: next.cur, pos: e1 };
    assert(state_ok(s, st));
    assert(sp_expect(s, st, TokenKind::Equals) == Ok::<(TokenV, PState), Failure>((eq, st1)));
    lemma_expect(s, st, TokenKind::Equals);
    assert(state_ok(s, st1));
    assert(sp_consume(s, st1) == Ok::<(TokenV, PState), Failure>((valt, next)));
    lemma_consume(s, st1);
    assert(p_simple(s, st1) == Ok::<(ExprV, PState), Failure>((ExprV::Boolean(valt, valt.span), next)));
    assert(p_binloop(s, ExprV::Boolean(valt, valt.span), next, 0) == Ok::<(ExprV, PState), Failure>(
        (ExprV::Boolean(valt, valt.span), next),
    ));
}

/// What follows the first statement of `ss`, printed at `o`: the others,
/// all generated.
proof fn lemma_after_first(t: Seq<char>, o: int, ss: Seq<StmtV>)
    requires
        0 <= o <= t.len(),
        ss.len() > 0,
        t.subrange(o, t.len() as int) == rest_text(ss),
        forall|i: int| 0 <= i < ss.len() ==> is_generated(#[trigger] ss[i]),
    ensures
        o + stmt_out(ss[0], 0).len() + 1 <= t.len(),
        t.subrange(o + stmt_out(ss[0], 0).len() + 1, t.len() as int) == rest_text(ss.drop_first()),
        forall|i: int| 0 <= i < ss.drop_first().len() ==> is_generated(#[trigger] ss.drop_first()[i]),
        t.subrange(o, t.len() as int) == stmt_out(ss[0], 0) + seq!['\n'] + rest_text(ss.drop_first()),
{
    let x = t.subrange(o, t.len() as int);
    let tail = ss.drop_first();
    assert forall|i: int| 0 <= i < tail.len() implies is_generated(#[trigger] tail[i]) by {
        assert(tail[i] == ss[i + 1]);
    }
    let rest = rest_text(tail);
    let l = stmt_out(ss[0], 0).len() as int;
    let o2 = o + l + 1;
    assert(rest_text(ss) == stmt_out(ss[0], 0) + seq!['\n'] + rest);
    assert(x == stmt_out(ss[0], 0) + seq!['\n'] + rest);
    assert(x.len() == l + 1 + rest.len());
    assert(t.subrange(o2, t.len() as int) =~= rest) by {
        assert forall|j: int| 0 <= j < rest.len() implies t.subrange(o2, t.len() as int)[j]
            == rest[j] by {
            assert(t[o2 + j] == x[l + 1 + j]);
        }
    }
}

/// The statement parsed from the state before `ss` at `o`, and the state
/// after it.
spec fn statement_result(s: Seq<u8>, o: int, ss: Seq<StmtV>) -> Result<(StmtV, PState), Failure> {
    p_statement(s, state_at(s, o, ss))
}

/// What reading the first statement of `ss` back gives: one that agrees
/// with it, the parser standing before the others.
spec fn reads_first(t: Seq<char>, o: int, ss: Seq<StmtV>) -> bool {
    let s = encode_utf8(t);
    let o2 = o + stmt_out(ss[0], 0).len() + 1;
    statement_result(s, o, ss) matches Ok((a, st2)) && same_statement(a, ss[0]) && st2 == state_at(
        s,
        o2,
        ss.drop_first(),
    ) && measure(s, st2) < measure(s, state_at(s, o, ss))
}

/// A `let` statement printed at `o` reads back.
#[verifier::spinoff_prover]
proof fn lemma_let_statement(t: Seq<char>, o: int, ss: Seq<StmtV>)
    requires
        is_ascii_chars(t),
        0 <= o <= t.len(),
        ss.len() > 0,
        ss[0] is Let,
        t.subrange(o, t.len() as int) == rest_text(ss),
        forall|i: int| 0 <= i < ss.len() ==> is_generated(#[trigger] ss[i]),
    ensures
        reads_first(t, o, ss),
{
    reveal(state_at);
    let s = encode_utf8(t);
    is_ascii_chars_encode_utf8(t);
    reveal_strlit("=");
    reveal_strlit("true");
    reveal_strlit("false");
    let x = t.subrange(o, t.len() as int);
    let tail = ss.drop_first();
    lemma_after_first(t, o, ss);
    lemma_generated_text(ss[0]);
    let rest = rest_text(tail);
    lemma_two_tokens(t, o, ss);
    let sta = state_at(s, o, ss);
    let name = ss[0]->Let_name;
    let equals = ss[0]->Let_equals;
    let value = ss[0]->Let_value;
    let n = name.text;
    let m = n.len() as int;
    let v = literal_text(value);
    let vl = v.len() as int;
    let q = o + 5 + m;
    assert(x =~= seq!['l', 'e', 't', ' '] + n + seq!['='] + v + seq!['\n'] + rest);
    assert(t.subrange(q, q + vl) =~= v) by {
        assert forall|j: int| 0 <= j < vl implies t.subrange(q, q + vl)[j] == v[j] by {
            assert(t[q + j] == x[5 + m + j]);
        }
    }
    assert(t[q + vl] == x[5 + m + vl]);
    assert(t[o + 4 + m] == x[4 + m]);
    assert(t[q] == x[5 + m]);
    assert(s[o + 4 + m] == t[o + 4 + m] as u8);
    assert(s[q] == t[q] as u8);
    lemma_ascii_bytes(t, o + 4 + m, q);
    lemma_equals_token(s, o + 4 + m);
    let eqt = tok(s, TokenKind::Equals, o + 4 + m, q);
    lemma_value_tail(t, q, value, tail, eqt);
    let valt = tok(s, literal_kind(value), q, q + vl);
    let st1 = PState { cur: sta.look, look: eqt, pos: q };
    let st2 = PState { cur: eqt, look: valt, pos: q + vl };
    assert(sp_expect(s, sta, TokenKind::Let) == Ok::<(TokenV, PState), Failure>((sta.cur, st1)));
    lemma_expect(s, sta, TokenKind::Let);
    assert(sp_expect(s, st1, TokenKind::Identifier) == Ok::<(TokenV, PState), Failure>(
        (sta.look, st2),
    ));
    lemma_expect(s, st1, TokenKind::Identifier);
    lemma_ascii_bytes(t, o + 4, o + 4 + m);
    assert(t.subrange(o + 4, o + 4 + m) =~= n) by {
        assert forall|j: int| 0 <= j < m implies t.subrange(o + 4, o + 4 + m)[j] == n[j] by {
            assert(t[o + 4 + j] == x[4 + j]);
        }
    }
    assert(t.subrange(o + 4 + m, q) =~= equals.text);
}

/// An assignment printed at `o` reads back.
#[verifier::spinoff_prover]
proof fn lemma_assign_statement(t: Seq<char>, o: int, ss: Seq<StmtV>)
    requires
        is_ascii_chars(t),
        0 <= o <= t.len(),
        ss.len() > 0,
        ss[0] is Assign,
        t.subrange(o, t.len() as int) == rest_text(ss),
        forall|i: int| 0 <= i < ss.len() ==> is_generated(#[trigger] ss[i]),
    ensures
        reads_first(t, o, ss),
{
    reveal(state_at);
    let s = encode_utf8(t);
    is_ascii_chars_encode_utf8(t);
    reveal_strlit("=");
    reveal_strlit("true");
    reveal_strlit("false");
    let x = t.subrange(o, t.len() as int);
    let tail = ss.drop_first();
    lemma_after_first(t, o, ss);
    lemma_generated_text(ss[0]);
    let rest = rest_text(tail);
    lemma_two_tokens(t, o, ss);
    let sta = state_at(s, o, ss);
    let identifier = ss[0]->Assign_identifier;
    let equals = ss[0]->Assign_equals;
    let value = ss[0]->Assign_value;
    let n = identifier.text;
    let m = n.len() as int;
    let v = literal_text(value);
    let vl = v.len() as int;
    let q = o + m + 1;
    assert(x =~= n + seq!['='] + v + seq!['\n'] + rest);
    assert(t.subrange(q, q + vl) =~= v) by {
        assert forall|j: int| 0 <= j < vl implies t.subrange(q, q + vl)[j] == v[j] by {
            assert(t[q + j] == x[m + 1 + j]);
        }
    }
    assert(t[q + vl] == x[m + 1 + vl]);
    let eqt = sta.look;
    lemma_value_tail(t, q, value, tail, eqt);
    let valt = tok(s, literal_kind(value), q, q + vl);
    let st1 = PState { cur: eqt, look: valt, pos: q + vl };
    assert(sp_expect(s, sta, TokenKind::Identifier) == Ok::<(TokenV, PState), Failure>(
        (sta.cur, st1),
    ));
    lemma_expect(s, sta, TokenKind::Identifier);
    lemma_ascii_bytes(t, o, o + m);
    lemma_ascii_bytes(t, o + m, q);
    assert(t.subrange(o, o + m) =~= n) by {
        assert forall|j: int| 0 <= j < m implies t.subrange(o, o + m)[j] == n[j] by {
            assert(t[o + j] == x[j]);
        }
    }
    assert(t.subrange(o + m, q) =~= equals.text) by {
        assert(t[o + m] == x[m]);
    }
}

/// Generated statements print as ASCII text.
proof fn lemma_rest_text_ascii(ss: Seq<StmtV>)
    requires
        forall|i: int| 0 <= i < ss.len() ==> is_generated(#[trigger] ss[i]),
    ensures
        is_ascii_chars(rest_text(ss)),
    decreases ss.len(),
{
    if ss.len() > 0 {
        let tail = ss.drop_first();
        assert forall|i: int| 0 <= i < tail.len() implies is_generated(#[trigger] tail[i]) by {
            assert(tail[i] == ss[i + 1]);
        }
        lemma_rest_text_ascii(tail);
        lemma_generated_text(ss[0]);
        let a = stmt_out(ss[0], 0);
        let r = rest_text(tail);
        let x = rest_text(ss);
        assert(x == a + seq!['\n'] + r);
        assert forall|i: int| 0 <= i < x.len() implies '\0' <= #[trigger] x[i] <= '\u{7f}' by {
            if i < a.len() {
                assert(x[i] == a[i]);
            } else if i > a.len() {
                assert(x[i] == r[i - a.len() - 1]);
            }
        }
    }
}

/// The parser stands on the end of input exactly when no statement is
/// left.
proof fn lemma_state_at_end(s: Seq<u8>, o: int, ss: Seq<StmtV>)
    requires
        forall|i: int| 0 <= i < ss.len() ==> is_generated(#[trigger] ss[i]),
    ensures
        (state_at(s, o, ss).cur.kind == TokenKind::Eof) <==> ss.len() == 0,
{
    reveal(state_at);
    if ss.len() > 0 {
        assert(is_generated(ss[0]));
    }
}

/// One statement read, the block reading goes on after it.
proof fn lemma_statements_step(s: Seq<u8>, st: PState, acc: Seq<StmtV>, a: StmtV, st2: PState)
    requires
        st.cur.kind != TokenKind::Eof,
        p_statement(s, st) == Ok::<(StmtV, PState), Failure>((a, st2)),
        measure(s, st2) < measure(s, st),
    ensures
        p_statements(s, st, acc) == p_statements(s, st2, acc.push(a)),
{
}

/// Reading back the statements `ss` printed at `o` gives statements that
/// agree with them one by one, after those read before (`acc`).
#[verifier::spinoff_prover]
#[verifier::rlimit(40)]
proof fn lemma_statements(t: Seq<char>, o: int, ss: Seq<StmtV>, acc: Seq<StmtV>)
    requires
        is_ascii_chars(t),
        0 <= o <= t.len(),
        t.subrange(o, t.len() as int) == rest_text(ss),
        forall|i: int| 0 <= i < ss.len() ==> is_generated(#[trigger] ss[i]),
    ensures
        p_statements(encode_utf8(t), state_at(encode_utf8(t), o, ss), acc) matches Ok((body, _))
            && body.len() == acc.len() + ss.len() && body.subrange(0, acc.len() as int) == acc
            && forall|i: int| 0 <= i < ss.len() ==> same_statement(body[acc.len() + i], #[trigger] ss[i]),
    decreases ss.len(),
{
    let s = encode_utf8(t);
    lemma_state_at_end(s, o, ss);
    if ss.len() == 0 {
        assert(acc.subrange(0, acc.len() as int) =~= acc);
    } else {
        if ss[0] is Let {
            lemma_let_statement(t, o, ss);
        } else {
            lemma_assign_statement(t, o, ss);
        }
        let o2 = o + stmt_out(ss[0], 0).len() + 1;
        lemma_after_first(t, o, ss);
        let a = statement_result(s, o, ss)->Ok_0.0;
        let tail = ss.drop_first();
        lemma_statements(t, o2, tail, acc.push(a));
        let body = p_statements(s, state_at(s, o2, tail), acc.push(a))->Ok_0.0;
        lemma_statements_step(s, state_at(s, o, ss), acc, a, state_at(s, o2, tail));
        assert(body.subrange(0, acc.len() as int) =~= acc) by {
            assert forall|j: int| 0 <= j < acc.len() implies body.subrange(0, acc.len() as int)[j] == acc[j] by {
                assert(body[j] == body.subrange(0, acc.len() + 1int)[j]);
                assert(acc.push(a)[j] == acc[j]);
            }
        }
        assert forall|i: int| 0 <= i < ss.len() implies same_statement(body[acc.len() + i], #[trigger] ss[i]) by {
            if i == 0 {
                assert(body[acc.len() as int] == body.subrange(0, acc.len() + 1int)[acc.len() as int]);
                assert(acc.push(a)[acc.len() as int] == a);
            } else {
                assert(ss[i] == tail[i - 1]);
                assert(body[acc.push(a).len() + (i - 1)] == body[acc.len() + i]);
            }
        }
    }
}

/// Statements that agree one by one compare without issues.
proof fn lemma_same_no_issues(a: Seq<StmtV>, b: Seq<StmtV>, i: int)
    requires
        a.len() == b.len(),
        0 <= i <= a.len(),
        forall|k: int| 0 <= k < a.len() ==> same_statement(#[trigger] a[k], b[k]),
    ensures
        stmt_list_issues(a, b, i) == Seq::<IssueV>::empty(),
    decreases a.len() - i,
{
    if i < a.len() {
        lemma_same_no_issues(a, b, i + 1);
        assert(same_statement(a[i], b[i]));
        assert(stmt_issues(a[i], b[i]) =~= Seq::<IssueV>::empty());
        assert(stmt_list_issues(a, b, i) =~= Seq::<IssueV>::empty());
    }
}

/// A block of `let` statements and assignments of `true` or `false` to
/// plain names, as the generator builds them, prints as text that parses
/// back into statements that agree with them one by one.
#[verifier::spinoff_prover]
#[verifier::rlimit(40)]
pub proof fn lemma_generated_block_reparses(b: BlockV)
    requires
        forall|i: int| 0 <= i < b.body.len() ==> is_generated(#[trigger] b.body[i]),
    ensures
        parse_source_spec(encode_utf8(block_out(b, 0))) matches Ok(b2) && b2.body.len()
            == b.body.len() && (forall|i: int|
            0 <= i < b.body.len() ==> same_statement(#[trigger] b2.body[i], b.body[i]))
            && block_issues(b2, b) == Seq::<IssueV>::empty() && block_issues(b, b2) == Seq::<
            IssueV,
        >::empty(),
{
    let t = block_out(b, 0);
    let r = rest_text(b.body);
    lemma_stmts_text(b.body);
    assert(tabs(0) =~= Seq::<char>::empty());
    assert(t =~= seq!['\n'] + r);
    lemma_rest_text_ascii(b.body);
    assert(is_ascii_chars(t)) by {
        assert forall|i: int| 0 <= i < t.len() implies '\0' <= #[trigger] t[i] <= '\u{7f}' by {
            if i > 0 {
                assert(t[i] == r[i - 1]);
            }
        }
    }
    assert(t.subrange(1, t.len() as int) =~= r);
    let s = encode_utf8(t);
    is_ascii_chars_encode_utf8(t);
    assert(s[0] == t[0] as u8);
    lemma_two_tokens(t, 1, b.body);
    let st = state_at(s, 1, b.body);
    assert(next_token_spec(s, 0) == next_token_spec(s, 1));
    assert(p_start(s) == Ok::<PState, Failure>(st));
    lemma_statements(t, 1, b.body, seq![]);
    let body = p_statements(s, st, seq![])->Ok_0.0;
    assert forall|i: int| 0 <= i < b.body.len() implies same_statement(body[i], #[trigger] b.body[i]) by {
        assert(body[Seq::<StmtV>::empty().len() + i] == body[i]);
    }
    lemma_same_no_issues(body, b.body, 0);
    assert forall|i: int| 0 <= i < b.body.len() implies same_statement(#[trigger] b.body[i], body[i]) by {
        assert(same_statement(body[i], b.body[i]));
    }
    lemma_same_no_issues(b.body, body, 0);
}

/// The kind each keyword is read as, and `Identifier` for any other word.
pub open spec fn keyword_kind(w: Seq<char>) -> TokenKind {
    if w == "true"@ {
        TokenKind::True
    } else if w == "false"@ {
        TokenKind::False
    } else if w == "nil"@ {
        TokenKind::Nil
    } else if w == "and"@ {
        TokenKind::And
    } else if w == "or"@ {
        TokenKind::Or
    } else if w == "tcp"@ {
        TokenKind::Tcp
    } else if w == "let"@ {
        TokenKind::Let
    } else if w == "route"@ {
        TokenKind::Route
    } else {
        TokenKind::Identifier
    }
}

/// A word made of lower-case letters, as every keyword is.
pub open spec fn is_lower_word(w: Seq<char>) -> bool {
    w.len() > 0 && forall|i: int| 0 <= i < w.len() ==> 'a' <= #[trigger] w[i] <= 'z'
}

/// Wherever a word of lower-case letters stands in ASCII source, followed
/// by a byte that ends words, the lexer reads it as one token with the
/// word as text: `and` as `And`, `or` as `Or`, each keyword as its own kind,
/// and any other word as an identifier.
pub proof fn lemma_words_read(t: Seq<char>, p: int, w: Seq<char>)
    requires
        is_ascii_chars(t),
        0 <= p,
        p + w.len() < t.len(),
        t.subrange(p, p + w.len()) == w,
        is_lower_word(w),
        !is_ident_char(t[p + w.len()] as u8),
    ensures
        next_token_spec(encode_utf8(t), p) matches Ok((x, e)) && e == p + w.len() && x.text == w
            && x.kind == keyword_kind(w),
{
    assert(w[0] == t.subrange(p, p + w.len())[0]);
    assert forall|i: int| 0 <= i < w.len() implies is_ident_char(#[trigger] w[i] as u8) by {
        assert('a' <= w[i] <= 'z');
    }
    lemma_word_at(t, p, w);
    lemma_ascii_bytes(t, p, p + w.len());
    assert(is_ascii_chars(w));
    is_ascii_chars_encode_utf8(w);
    let b = encode_utf8(w);
    reveal_strlit("true");
    reveal_strlit("false");
    reveal_strlit("nil");
    reveal_strlit("and");
    reveal_strlit("or");
    reveal_strlit("tcp");
    reveal_strlit("let");
    reveal_strlit("route");
    assert(b.len() == w.len());
    if b == seq![116u8, 114, 117, 101] {
        assert(w =~= "true"@) by {
            assert forall|i: int| 0 <= i < w.len() implies w[i] == "true"@[i] by {
                assert(w[i] as u8 == b[i]);
            }
        }
    } else if b == seq![102u8, 97, 108, 115, 101] {
        assert(w =~= "false"@) by {
            assert forall|i: int| 0 <= i < w.len() implies w[i] == "false"@[i] by {
                assert(w[i] as u8 == b[i]);
            }
        }
    } else if b == seq![110u8, 105, 108] {
        assert(w =~= "nil"@) by {
            assert forall|i: int| 0 <= i < w.len() implies w[i] == "nil"@[i] by {
                assert(w[i] as u8 == b[i]);
            }
        }
    } else if b == seq![97u8, 110, 100] {
        assert(w =~= "and"@) by {
            assert forall|i: int| 0 <= i < w.len() implies w[i] == "and"@[i] by {
                assert(w[i] as u8 == b[i]);
            }
        }
    } else if b == seq![111u8, 114] {
        assert(w =~= "or"@) by {
            assert forall|i: int| 0 <= i < w.len() implies w[i] == "or"@[i] by {
                assert(w[i] as u8 == b[i]);
            }
        }
    } else if b == seq![116u8, 99, 112] {
        assert(w =~= "tcp"@) by {
            assert forall|i: int| 0 <= i < w.len() implies w[i] == "tcp"@[i] by {
                assert(w[i] as u8 == b[i]);
            }
        }
    } else if b == seq![108u8, 101, 116] {
        assert(w =~= "let"@) by {
            assert forall|i: int| 0 <= i < w.len() implies w[i] == "let"@[i] by {
                assert(w[i] as u8 == b[i]);
            }
        }
    } else if b == seq![114u8, 111, 117, 116, 101] {
        assert(w =~= "route"@) by {
            assert forall|i: int| 0 <= i < w.len() implies w[i] == "route"@[i] by {
                assert(w[i] as u8 == b[i]);
            }
        }
    } else {
        assert(w != "true"@) by {
            if w == "true"@ {
                assert(b =~= seq![116u8, 114, 117, 101]);
            }
        }
        assert(w != "false"@) by {
            if w == "false"@ {
                assert(b =~= seq![102u8, 97, 108, 115, 101]);
            }
        }
        assert(w != "nil"@) by {
            if w == "nil"@ {
                assert(b =~= seq![110u8, 105, 108]);
            }
        }
        assert(w != "and"@) by {
            if w == "and"@ {
                assert(b =~= seq![97u8, 110, 100]);
            }
        }
        assert(w != "or"@) by {
            if w == "or"@ {
                assert(b =~= seq![111u8, 114]);
            }
        }
        assert(w != "tcp"@) by {
            if w == "tcp"@ {
                assert(b =~= seq![116u8, 99, 112]);
            }
        }
        assert(w != "let"@) by {
            if w == "let"@ {
                assert(b =~= seq![108u8, 101, 116]);
            }
        }
        assert(w != "route"@) by {
            if w == "route"@ {
                assert(b =~= seq![114u8, 111, 117, 116, 101]);
            }
        }
    }
}

/// The kind each one-character symbol is read as.
pub open spec fn symbol_kind(c: char) -> Option<TokenKind> {
    if c == '{' {
        Some(TokenKind::LBrace)
    } else if c == '}' {
        Some(TokenKind::RBrace)
    } else if c == '[' {
        Some(TokenKind::LBracket)
    } else if c == ']' {
        Some(TokenKind::RBracket)
    } else if c == ':' {
        Some(TokenKind::Colon)
    } else if c == '.' {
        Some(TokenKind::Period)
    } else if c == '+' {
        Some(TokenKind::Add)
    } else if c == '*' {
        Some(TokenKind::Multiply)
    } else if c == '/' {
        Some(TokenKind::Divide)
    } else if c == '^' {
        Some(TokenKind::Exponent)
    } else if c == ',' {
        Some(TokenKind::Comma)
    } else {
        None
    }
}

/// Wherever a one-character symbol stands in ASCII source, the lexer
/// reads it alone as a token of its own kind with the symbol as text.
pub proof fn lemma_symbols_read(t: Seq<char>, p: int)
    requires
        is_ascii_chars(t),
        0 <= p < t.len(),
        symbol_kind(t[p]) is Some,
    ensures
        next_token_spec(encode_utf8(t), p) matches Ok((x, e)) && e == p + 1 && x.text == seq![t[p]]
            && symbol_kind(t[p]) == Some(x.kind),
{
    is_ascii_chars_encode_utf8(t);
    lemma_ascii_bytes(t, p, p + 1);
    assert(encode_utf8(t)[p] == t[p] as u8);
    assert(t.subrange(p, p + 1) =~= seq![t[p]]);
}

/// The text of a boolean literal.
pub open spec fn literal_text(e: ExprV) -> Seq<char> {
    match e {
        ExprV::Boolean(t, _) => t.text,
        _ => Seq::empty(),
    }
}

} // verus!

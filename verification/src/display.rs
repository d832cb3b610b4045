//! Printing a syntax tree back into source text.
use vstd::prelude::*;
use vstd::utf8::*;
use crate::grammar::{all_digits, decimal_value, parse_usize_spec};
use crate::ast::{
    Assign, Block, Expression, ExpressionTable, LetStatement, Route, RouteHTTP, RouteTCP,
    ServiceTarget, Span, Statement, TableField, Token, TokenKind, Var, VarRoot, VarSuffix, TokenV,
    ExprV, FieldV, TableFieldV, SuffixV, StmtV, RouteV, BlockV, ServiceTargetV, field_view,
    suffix_view, table_field_view,
};

verus! {

/// The UTF-8 encoding of two character sequences one after the other is
/// the encoding of the first followed by that of the second.
pub broadcast proof fn lemma_encode_utf8_concat(a: Seq<char>, b: Seq<char>)
    ensures
        #[trigger] encode_utf8(a + b) == encode_utf8(a) + encode_utf8(b),
    decreases a.len(),
{
    if a.len() == 0 {
        assert(a + b =~= b);
        assert(encode_utf8(a) + encode_utf8(b) =~= encode_utf8(b));
    } else {
        lemma_encode_utf8_concat(a.drop_first(), b);
        assert((a + b).drop_first() =~= a.drop_first() + b);
        assert((a + b)[0] == a[0]);
        assert(encode_utf8(a + b) =~= encode_utf8(a) + encode_utf8(b));
    }
}

/// An ASCII character is encoded as the one byte of its code.
pub proof fn lemma_encode_ascii_char(c: char)
    requires
        (c as u32) < 128,
    ensures
        encode_utf8(seq![c]) == seq![c as u8],
{
    assert(is_ascii_chars(seq![c]));
    is_ascii_chars_encode_utf8(seq![c]);
    assert(encode_utf8(seq![c]) =~= seq![c as u8]);
}

/// How a token is printed: its text, and a space after the `let` keyword.
pub open spec fn token_out(t: TokenV) -> Seq<char> {
    if t.kind == TokenKind::Let {
        t.text.push(' ')
    } else {
        t.text
    }
}

/// `n` tab characters.
pub open spec fn tabs(n: nat) -> Seq<char> {
    Seq::new(n, |i: int| '\t')
}

/// A line break followed by the indentation of depth `tbs`.
pub open spec fn line_out(tbs: nat) -> Seq<char> {
    seq!['\n'] + tabs(tbs)
}

/// The character of a decimal digit.
pub open spec fn digit_char(d: nat) -> char {
    if d == 0 {
        '0'
    } else if d == 1 {
        '1'
    } else if d == 2 {
        '2'
    } else if d == 3 {
        '3'
    } else if d == 4 {
        '4'
    } else if d == 5 {
        '5'
    } else if d == 6 {
        '6'
    } else if d == 7 {
        '7'
    } else if d == 8 {
        '8'
    } else {
        '9'
    }
}

/// The decimal notation of a number, without leading zeros.
pub open spec fn decimal_text(n: nat) -> Seq<char>
    decreases n,
{
    if n < 10 {
        seq![digit_char(n)]
    } else {
        decimal_text(n / 10).push(digit_char(n % 10))
    }
}

/// The decimal notation of a number is a non-empty run of digits whose
/// value is the number.
proof fn lemma_digit_char(d: nat)
    requires
        d < 10,
    ensures
        '0' <= digit_char(d) <= '9',
        digit_char(d) as int - '0' as int == d,
{
}

pub proof fn lemma_decimal_text(n: nat)
    ensures
        decimal_text(n).len() > 0,
        all_digits(decimal_text(n)),
        decimal_value(decimal_text(n)) == n,
    decreases n,
{
    if n >= 10 {
        lemma_decimal_text(n / 10);
        lemma_digit_char(n % 10);
        assert(decimal_text(n).drop_last() =~= decimal_text(n / 10));
        assert(decimal_text(n).last() == digit_char(n % 10));
        assert(decimal_value(decimal_text(n)) == decimal_value(decimal_text(n / 10)) * 10 + (
        n % 10));
        assert(n == (n / 10) * 10 + n % 10) by (nonlinear_arith);
    } else {
        lemma_digit_char(n);
        assert(decimal_text(n).drop_last() =~= Seq::<char>::empty());
        assert(decimal_value(decimal_text(n)) == decimal_value(Seq::<char>::empty()) * 10 + (
        digit_char(n) as int - '0' as int));
    }
}

/// A port printed in decimal reads back as the same port.
pub proof fn lemma_port_round_trip(port: usize)
    ensures
        parse_usize_spec(decimal_text(port as nat)) == Some(port),
{
    lemma_decimal_text(port as nat);
}

/// How an expression is printed.
pub open spec fn expr_out(e: ExprV) -> Seq<char>
    decreases e,
{
    match e {
        ExprV::Boolean(t, _) => token_out(t),
        ExprV::Nil(t, _) => token_out(t),
        ExprV::Number(t, _) => token_out(t),
        ExprV::String(t, _) => token_out(t),
        ExprV::Binary { left, operator, right, .. } => expr_out(*left) + token_out(operator)
            + expr_out(*right),
        ExprV::Unary { operator, value, .. } => token_out(operator) + expr_out(*value),
        ExprV::Table { left, fields, right, .. } => token_out(left) + fields_out(fields)
            + token_out(right),
        ExprV::Var { root, suffixes, .. } => token_out(root) + suffixes_out(suffixes) + seq![' '],
        ExprV::Evaluate { left, value, right, .. } => token_out(left) + expr_out(*value)
            + token_out(right),
    }
}

/// How the fields of a table are printed, each followed by its separator.
pub open spec fn fields_out(fs: Seq<FieldV>) -> Seq<char>
    decreases fs,
{
    if fs.len() == 0 {
        Seq::empty()
    } else {
        fields_out(fs.subrange(0, fs.len() - 1)) + field_out(fs[fs.len() - 1])
    }
}

/// How one table field and the separator after it are printed.
pub open spec fn field_out(f: FieldV) -> Seq<char>
    decreases f,
{
    table_field_out(f.field) + match f.separator {
        Some(t) => token_out(t),
        None => Seq::empty(),
    }
}

/// How a table field is printed.
pub open spec fn table_field_out(f: TableFieldV) -> Seq<char>
    decreases f,
{
    match f {
        TableFieldV::NameKey { name, equals, value, .. } => token_out(name) + token_out(equals)
            + expr_out(value),
        TableFieldV::NoKey { value, .. } => expr_out(value),
    }
}

/// How the suffixes of a variable are printed.
pub open spec fn suffixes_out(ss: Seq<SuffixV>) -> Seq<char>
    decreases ss,
{
    if ss.len() == 0 {
        Seq::empty()
    } else {
        suffixes_out(ss.subrange(0, ss.len() - 1)) + suffix_out(ss[ss.len() - 1])
    }
}

/// How one suffix of a variable is printed.
pub open spec fn suffix_out(s: SuffixV) -> Seq<char>
    decreases s,
{
    match s {
        SuffixV::NameIndex { period, name, .. } => token_out(period) + token_out(name),
        SuffixV::ExpressionIndex { period, left, value, right, .. } => token_out(period)
            + token_out(left) + expr_out(value) + token_out(right),
    }
}

/// The tokens of an expression, in the order they stand in it.
pub open spec fn expr_tokens(e: ExprV) -> Seq<TokenV>
    decreases e,
{
    match e {
        ExprV::Boolean(t, _) => seq![t],
        ExprV::Nil(t, _) => seq![t],
        ExprV::Number(t, _) => seq![t],
        ExprV::String(t, _) => seq![t],
        ExprV::Binary { left, operator, right, .. } => expr_tokens(*left) + seq![operator]
            + expr_tokens(*right),
        ExprV::Unary { operator, value, .. } => seq![operator] + expr_tokens(*value),
        ExprV::Table { left, fields, right, .. } => seq![left] + fields_tokens(fields) + seq![right],
        ExprV::Var { root, suffixes, .. } => seq![root] + suffixes_tokens(suffixes),
        ExprV::Evaluate { left, value, right, .. } => seq![left] + expr_tokens(*value) + seq![right],
    }
}

/// The tokens of table fields, each field's separator after it.
pub open spec fn fields_tokens(fs: Seq<FieldV>) -> Seq<TokenV>
    decreases fs,
{
    if fs.len() == 0 {
        Seq::empty()
    } else {
        let f = fs[fs.len() - 1];
        fields_tokens(fs.subrange(0, fs.len() - 1)) + match f.field {
            TableFieldV::NameKey { name, equals, value, .. } => seq![name, equals] + expr_tokens(
                value,
            ),
            TableFieldV::NoKey { value, .. } => expr_tokens(value),
        } + match f.separator {
            Some(t) => seq![t],
            None => Seq::empty(),
        }
    }
}

/// The tokens of variable suffixes.
pub open spec fn suffixes_tokens(ss: Seq<SuffixV>) -> Seq<TokenV>
    decreases ss,
{
    if ss.len() == 0 {
        Seq::empty()
    } else {
        suffixes_tokens(ss.subrange(0, ss.len() - 1)) + match ss[ss.len() - 1] {
            SuffixV::NameIndex { period, name, .. } => seq![period, name],
            SuffixV::ExpressionIndex { period, left, value, right, .. } => seq![period, left]
                + expr_tokens(value) + seq![right],
        }
    }
}

/// No variable stands anywhere in the expression.
pub open spec fn var_free(e: ExprV) -> bool
    decreases e,
{
    match e {
        ExprV::Binary { left, right, .. } => var_free(*left) && var_free(*right),
        ExprV::Unary { value, .. } => var_free(*value),
        ExprV::Table { fields, .. } => forall|i: int|
            0 <= i < fields.len() ==> var_free(
                match #[trigger] fields[i].field {
                    TableFieldV::NameKey { value, .. } => value,
                    TableFieldV::NoKey { value, .. } => value,
                },
            ),
        ExprV::Var { .. } => false,
        ExprV::Evaluate { value, .. } => var_free(*value),
        _ => true,
    }
}

/// The text of tokens written one after the other.
pub open spec fn tokens_text(ts: Seq<TokenV>) -> Seq<char>
    decreases ts.len(),
{
    if ts.len() == 0 {
        Seq::empty()
    } else {
        tokens_text(ts.drop_last()) + token_out(ts.last())
    }
}

proof fn lemma_tokens_text_concat(a: Seq<TokenV>, b: Seq<TokenV>)
    ensures
        tokens_text(a + b) == tokens_text(a) + tokens_text(b),
    decreases b.len(),
{
    if b.len() == 0 {
        assert(a + b =~= a);
        assert(tokens_text(a) + tokens_text(b) =~= tokens_text(a));
    } else {
        lemma_tokens_text_concat(a, b.drop_last());
        assert((a + b).drop_last() =~= a + b.drop_last());
        assert((a + b).last() == b.last());
        assert(tokens_text(a + b) =~= tokens_text(a) + tokens_text(b));
    }
}

proof fn lemma_one_token(t: TokenV)
    ensures
        tokens_text(seq![t]) == token_out(t),
{
    assert(seq![t].drop_last() =~= Seq::<TokenV>::empty());
    assert(seq![t].last() == t);
    assert(tokens_text(Seq::<TokenV>::empty()) == Seq::<char>::empty());
    assert(tokens_text(seq![t]) =~= token_out(t));
}

/// Printing an expression without variables writes each of its tokens, in
/// the order they stand in it, and nothing else: no operator, literal,
/// bracket or separator is lost or added. (A variable is printed with a
/// space after it.)
pub proof fn lemma_expr_prints_its_tokens(e: ExprV)
    requires
        var_free(e),
    ensures
        expr_out(e) == tokens_text(expr_tokens(e)),
    decreases e,
{
    match e {
        ExprV::Boolean(t, _) => lemma_one_token(t),
        ExprV::Nil(t, _) => lemma_one_token(t),
        ExprV::Number(t, _) => lemma_one_token(t),
        ExprV::String(t, _) => lemma_one_token(t),
        ExprV::Binary { left, operator, right, .. } => {
            lemma_expr_prints_its_tokens(*left);
            lemma_expr_prints_its_tokens(*right);
            lemma_one_token(operator);
            lemma_tokens_text_concat(expr_tokens(*left), seq![operator]);
            lemma_tokens_text_concat(expr_tokens(*left) + seq![operator], expr_tokens(*right));
        },
        ExprV::Unary { operator, value, .. } => {
            lemma_expr_prints_its_tokens(*value);
            lemma_one_token(operator);
            lemma_tokens_text_concat(seq![operator], expr_tokens(*value));
        },
        ExprV::Table { left, fields, right, .. } => {
            lemma_fields_print_their_tokens(fields);
            lemma_one_token(left);
            lemma_one_token(right);
            lemma_tokens_text_concat(seq![left], fields_tokens(fields));
            lemma_tokens_text_concat(seq![left] + fields_tokens(fields), seq![right]);
        },
        ExprV::Var { .. } => {},
        ExprV::Evaluate { left, value, right, .. } => {
            lemma_expr_prints_its_tokens(*value);
            lemma_one_token(left);
            lemma_one_token(right);
            lemma_tokens_text_concat(seq![left], expr_tokens(*value));
            lemma_tokens_text_concat(seq![left] + expr_tokens(*value), seq![right]);
        },
    }
}

proof fn lemma_fields_print_their_tokens(fs: Seq<FieldV>)
    requires
        forall|i: int|
            0 <= i < fs.len() ==> var_free(
                match #[trigger] fs[i].field {
                    TableFieldV::NameKey { value, .. } => value,
                    TableFieldV::NoKey { value, .. } => value,
                },
            ),
    ensures
        fields_out(fs) == tokens_text(fields_tokens(fs)),
    decreases fs,
{
    if fs.len() > 0 {
        let init = fs.subrange(0, fs.len() - 1);
        let f = fs[fs.len() - 1];
        assert forall|i: int| 0 <= i < init.len() implies var_free(
            match #[trigger] init[i].field {
                TableFieldV::NameKey { value, .. } => value,
                TableFieldV::NoKey { value, .. } => value,
            },
        ) by {
            assert(init[i] == fs[i]);
        }
        lemma_fields_print_their_tokens(init);
        let a = fields_tokens(init);
        let b = match f.field {
            TableFieldV::NameKey { name, equals, value, .. } => seq![name, equals] + expr_tokens(value),
            TableFieldV::NoKey { value, .. } => expr_tokens(value),
        };
        let c = match f.separator {
            Some(t) => seq![t],
            None => Seq::<TokenV>::empty(),
        };
        assert(var_free(
            match fs[fs.len() - 1].field {
                TableFieldV::NameKey { value, .. } => value,
                TableFieldV::NoKey { value, .. } => value,
            },
        ));
        match f.field {
            TableFieldV::NameKey { name, equals, value, .. } => {
                lemma_expr_prints_its_tokens(value);
                lemma_one_token(name);
                lemma_one_token(equals);
                lemma_tokens_text_concat(seq![name], seq![equals]);
                assert(seq![name] + seq![equals] =~= seq![name, equals]);
                lemma_tokens_text_concat(seq![name, equals], expr_tokens(value));
            },
            TableFieldV::NoKey { value, .. } => {
                lemma_expr_prints_its_tokens(value);
            },
        }
        match f.separator {
            Some(t) => lemma_one_token(t),
            None => {
                assert(tokens_text(c) =~= Seq::<char>::empty());
            },
        }
        lemma_tokens_text_concat(a, b);
        lemma_tokens_text_concat(a + b, c);
        assert(table_field_out(f.field) == tokens_text(b));
        assert(field_out(f) =~= tokens_text(b) + tokens_text(c));
    }
}

/// How a service target is printed: the service, the `=` and the port.
pub open spec fn target_out(t: ServiceTargetV) -> Seq<char> {
    token_out(t.service) + token_out(t.equals) + decimal_text(t.port as nat)
}

/// The keyword that opens a `let` statement, with its space.
pub open spec fn let_word() -> Seq<char> {
    seq!['l', 'e', 't', ' ']
}

/// The keyword that opens a route, with its space.
pub open spec fn route_word() -> Seq<char> {
    seq!['r', 'o', 'u', 't', 'e', ' ']
}

/// How a statement is printed at indentation depth `tbs`.
pub open spec fn stmt_out(s: StmtV, tbs: nat) -> Seq<char>
    decreases s,
{
    match s {
        StmtV::Assign { identifier, equals, value, .. } => token_out(identifier) + token_out(
            equals,
        ) + expr_out(value),
        StmtV::Let { name, equals, value, .. } => let_word() + token_out(name) + token_out(equals)
            + expr_out(value),
        StmtV::Route(r) => route_out(r, tbs),
    }
}

/// How a route is printed at indentation depth `tbs`; its properties go one
/// level deeper, between braces.
pub open spec fn route_out(r: RouteV, tbs: nat) -> Seq<char>
    decreases r,
{
    match r {
        RouteV::HTTP { hostname, target, properties, .. } => route_word() + token_out(hostname)
            + target_out(target) + seq!['{'] + block_out(properties, tbs + 1) + seq!['}'],
        RouteV::TCP { target, properties, .. } => route_word() + target_out(target) + seq!['{']
            + block_out(properties, tbs + 1) + seq!['}'],
    }
}

/// How a block is printed at depth `tbs`: a line break, then each
/// statement followed by a line break.
pub open spec fn block_out(b: BlockV, tbs: nat) -> Seq<char>
    decreases b,
{
    line_out(tbs) + stmts_out(b.body, tbs)
}

/// How a list of statements is printed, each followed by a line break.
pub open spec fn stmts_out(ss: Seq<StmtV>, tbs: nat) -> Seq<char>
    decreases ss,
{
    if ss.len() == 0 {
        Seq::empty()
    } else {
        stmts_out(ss.subrange(0, ss.len() - 1), tbs) + stmt_out(ss[ss.len() - 1], tbs) + line_out(
            tbs,
        )
    }
}


/// A printer: the bytes written so far, two counters of written bytes, and
/// the current indentation depth.
pub struct Display {
    pub source: Vec<u8>,
    pub line_length: usize,
    pub pos: usize,
    pub tbs: usize,
}

/// `after` is `before` with the encoding of `out` written: the bytes are
/// appended, both counters advance by their number, the depth is kept.
pub open spec fn wrote(before: Display, after: Display, out: Seq<char>) -> bool {
    &&& after.source@ == before.source@ + encode_utf8(out)
    &&& after.pos == before.pos + encode_utf8(out).len()
    &&& after.line_length == before.line_length + encode_utf8(out).len()
    &&& after.tbs == before.tbs
}

/// Both counters of `d` can advance by the encoded length of `out` without
/// overflowing.
pub open spec fn room(d: Display, out: Seq<char>) -> bool {
    &&& d.pos + encode_utf8(out).len() <= usize::MAX
    &&& d.line_length + encode_utf8(out).len() <= usize::MAX
}

proof fn lemma_then(d0: Display, d1: Display, d2: Display, a: Seq<char>, b: Seq<char>)
    requires
        wrote(d0, d1, a),
        wrote(d1, d2, b),
    ensures
        wrote(d0, d2, a + b),
{
    lemma_encode_utf8_concat(a, b);
    assert(d2.source@ =~= d0.source@ + encode_utf8(a + b));
}

proof fn lemma_room_split(d0: Display, d1: Display, a: Seq<char>, b: Seq<char>)
    requires
        room(d0, a + b),
    ensures
        room(d0, a),
        wrote(d0, d1, a) ==> room(d1, b),
{
    lemma_encode_utf8_concat(a, b);
}

proof fn lemma_fields_out_prefix(fs: Seq<FieldV>, j: int)
    requires
        0 <= j <= fs.len(),
    ensures
        encode_utf8(fields_out(fs.subrange(0, j))).len() <= encode_utf8(fields_out(fs)).len(),
    decreases fs.len() - j,
{
    if j < fs.len() {
        lemma_fields_out_prefix(fs, j + 1);
        let t = fs.subrange(0, j + 1);
        assert(t.subrange(0, t.len() - 1) =~= fs.subrange(0, j));
        lemma_encode_utf8_concat(fields_out(fs.subrange(0, j)), field_out(fs[j]));
    } else {
        assert(fs.subrange(0, j) =~= fs);
    }
}

proof fn lemma_suffixes_out_prefix(ss: Seq<SuffixV>, j: int)
    requires
        0 <= j <= ss.len(),
    ensures
        encode_utf8(suffixes_out(ss.subrange(0, j))).len() <= encode_utf8(suffixes_out(ss)).len(),
    decreases ss.len() - j,
{
    if j < ss.len() {
        lemma_suffixes_out_prefix(ss, j + 1);
        let t = ss.subrange(0, j + 1);
        assert(t.subrange(0, t.len() - 1) =~= ss.subrange(0, j));
        lemma_encode_utf8_concat(suffixes_out(ss.subrange(0, j)), suffix_out(ss[j]));
    } else {
        assert(ss.subrange(0, j) =~= ss);
    }
}

proof fn lemma_stmts_out_prefix(ss: Seq<StmtV>, tbs: nat, j: int)
    requires
        0 <= j <= ss.len(),
    ensures
        encode_utf8(stmts_out(ss.subrange(0, j), tbs)).len() <= encode_utf8(
            stmts_out(ss, tbs),
        ).len(),
    decreases ss.len() - j,
{
    if j < ss.len() {
        lemma_stmts_out_prefix(ss, tbs, j + 1);
        let t = ss.subrange(0, j + 1);
        assert(t.subrange(0, t.len() - 1) =~= ss.subrange(0, j));
        lemma_encode_utf8_concat(stmts_out(ss.subrange(0, j), tbs), stmt_out(ss[j], tbs));
        lemma_encode_utf8_concat(
            stmts_out(ss.subrange(0, j), tbs) + stmt_out(ss[j], tbs),
            line_out(tbs),
        );
    } else {
        assert(ss.subrange(0, j) =~= ss);
    }
}

/// Room for `whole` leaves room for `next` after `done` was written, when
/// `done` and `next` together are no longer than `whole`.
proof fn lemma_room_after(
    d0: Display,
    d1: Display,
    whole: Seq<char>,
    done: Seq<char>,
    next: Seq<char>,
)
    requires
        room(d0, whole),
        wrote(d0, d1, done),
        encode_utf8(done).len() + encode_utf8(next).len() <= encode_utf8(whole).len(),
    ensures
        room(d1, next),
{
}

proof fn lemma_wrote_nothing(d: Display)
    ensures
        wrote(d, d, Seq::empty()),
{
    assert(encode_utf8(Seq::<char>::empty()) =~= Seq::<u8>::empty());
    assert(d.source@ + Seq::<u8>::empty() =~= d.source@);
}


/// The text that `String::from_utf8_lossy` makes of a byte sequence.
pub uninterp spec fn lossy_text(bytes: Seq<u8>) -> Seq<char>;

/// Decodes bytes into a string, replacing what is not UTF-8.
///
/// Calls `String::from_utf8_lossy` and takes its text as an owned string.
/// The contract claims that the text is a function of the bytes alone
/// (named `lossy_text`) and, as the documentation of `from_utf8_lossy`
/// states, that valid UTF-8 comes out as the characters it encodes. What
/// becomes of invalid bytes is left unsaid.
#[verifier::external_body]
fn decode_lossy(bytes: &[u8]) -> (r: String)
    ensures
        r@ == lossy_text(bytes@),
        valid_utf8(bytes@) ==> r@ == decode_utf8(bytes@),
{
    String::from_utf8_lossy(bytes).to_string()
}

/// The string of one decimal digit.
pub(crate) fn digit_str(d: usize) -> (r: &'static str)
    requires
        d < 10,
    ensures
        r@ == seq![digit_char(d as nat)],
{
    if d == 0 {
        proof {
            reveal_strlit("0");
        }
        "0"
    } else if d == 1 {
        proof {
            reveal_strlit("1");
        }
        "1"
    } else if d == 2 {
        proof {
            reveal_strlit("2");
        }
        "2"
    } else if d == 3 {
        proof {
            reveal_strlit("3");
        }
        "3"
    } else if d == 4 {
        proof {
            reveal_strlit("4");
        }
        "4"
    } else if d == 5 {
        proof {
            reveal_strlit("5");
        }
        "5"
    } else if d == 6 {
        proof {
            reveal_strlit("6");
        }
        "6"
    } else if d == 7 {
        proof {
            reveal_strlit("7");
        }
        "7"
    } else if d == 8 {
        proof {
            reveal_strlit("8");
        }
        "8"
    } else {
        proof {
            reveal_strlit("9");
        }
        "9"
    }
}

/// The decimal notation of a number.
pub fn decimal_string(n: usize) -> (r: String)
    ensures
        r@ == decimal_text(n as nat),
    decreases n,
{
    if n < 10 {
        String::from_str(digit_str(n))
    } else {
        let mut r = decimal_string(n / 10);
        r.append(digit_str(n % 10));
        proof {
            assert(decimal_text(n as nat) =~= decimal_text((n / 10) as nat) + seq![
                digit_char((n % 10) as nat),
            ]);
        }
        r
    }
}

/// A line break and `n` tabs take `n + 1` bytes.
proof fn lemma_line_out_len(n: nat)
    ensures
        encode_utf8(line_out(n)).len() == n + 1,
{
    assert(is_ascii_chars(line_out(n)));
    is_ascii_chars_encode_utf8(line_out(n));
}

/// Text that was valid UTF-8 stays so with more encoded characters after
/// it, and decodes to its old characters followed by them.
proof fn lemma_decode_after(old_bytes: Seq<u8>, out: Seq<char>)
    requires
        valid_utf8(old_bytes),
    ensures
        valid_utf8(old_bytes + encode_utf8(out)),
        decode_utf8(old_bytes + encode_utf8(out)) == decode_utf8(old_bytes) + out,
{
    decode_utf8_encode_utf8(old_bytes);
    lemma_encode_utf8_concat(decode_utf8(old_bytes), out);
    encode_utf8_decode_utf8(decode_utf8(old_bytes) + out);
    encode_utf8_valid_utf8(decode_utf8(old_bytes) + out);
}

impl Display {
    /// Writes one byte.
    fn write_char(&mut self, char: u8)
        requires
            old(self).pos < usize::MAX,
            old(self).line_length < usize::MAX,
        ensures
            final(self).source@ == old(self).source@.push(char),
            final(self).pos == old(self).pos + 1,
            final(self).line_length == old(self).line_length + 1,
            final(self).tbs == old(self).tbs,
    {
        self.source.push(char);
        self.line_length += 1;
        self.pos += 1
    }

    /// Writes an ASCII character.
    fn write_ascii(&mut self, c: char, byte: u8)
        requires
            (c as u32) < 128,
            byte == c as u8,
            room(*old(self), seq![c]),
        ensures
            wrote(*old(self), *final(self), seq![c]),
    {
        proof {
            lemma_encode_ascii_char(c);
        }
        self.write_char(byte);
        proof {
            assert(old(self).source@.push(byte) =~= old(self).source@ + seq![byte]);
        }
    }

    /// Writes the UTF-8 bytes of a string.
    fn write_str(&mut self, str: &str)
        requires
            room(*old(self), str@),
        ensures
            wrote(*old(self), *final(self), str@),
    {
        let mut bytes = str.as_bytes_vec();
        self.source.append(&mut bytes);
        self.line_length += str.len();
        self.pos += str.len();
    }

    /// Starts a new line indented by the current depth.
    fn write_line(&mut self)
        requires
            room(*old(self), line_out(old(self).tbs as nat)),
        ensures
            wrote(*old(self), *final(self), line_out(old(self).tbs as nat)),
    {
        let ghost d0 = *self;
        proof {
            lemma_room_split(d0, d0, seq!['\n'], tabs(d0.tbs as nat));
        }
        self.write_ascii('\n', 10);
        let ghost d1 = *self;
        let mut i: usize = 0;
        proof {
            lemma_wrote_nothing(d1);
            assert(tabs(0) =~= Seq::<char>::empty());
            lemma_room_split(d0, d1, seq!['\n'], tabs(d0.tbs as nat));
        }
        while i < self.tbs
            invariant
                i <= self.tbs,
                self.tbs == d0.tbs,
                wrote(d0, d1, seq!['\n']),
                wrote(d1, *self, tabs(i as nat)),
                room(d1, tabs(d0.tbs as nat)),
            decreases self.tbs - i,
        {
            let ghost di = *self;
            proof {
                assert(tabs(d0.tbs as nat) =~= tabs(i as nat) + seq!['\t'] + tabs(
                    (d0.tbs - i - 1) as nat,
                ));
                lemma_room_split(d1, di, tabs(i as nat) + seq!['\t'], tabs((d0.tbs - i - 1) as nat));
                lemma_room_split(d1, di, tabs(i as nat), seq!['\t']);
            }
            self.write_ascii('\t', 9);
            proof {
                lemma_then(d1, di, *self, tabs(i as nat), seq!['\t']);
                assert(tabs(i as nat) + seq!['\t'] =~= tabs((i + 1) as nat));
            }
            i += 1;
        }
        proof {
            lemma_then(d0, d1, *self, seq!['\n'], tabs(d0.tbs as nat));
        }
    }

    /// Prints a token: its text, and a space after the `let` keyword.
    fn display_token(&mut self, token: &Token)
        requires
            room(*old(self), token_out(token@)),
        ensures
            wrote(*old(self), *final(self), token_out(token@)),
    {
        let ghost d0 = *self;
        proof {
            if token.kind == TokenKind::Let {
                assert(token.text@.push(' ') =~= token.text@ + seq![' ']);
                lemma_room_split(d0, d0, token.text@, seq![' ']);
            }
        }
        self.write_str(token.text.as_str());
        match token.kind {
            TokenKind::Let => {
                let ghost d1 = *self;
                proof {
                    lemma_room_split(d0, d1, token.text@, seq![' ']);
                }
                self.write_ascii(' ', 32);
                proof {
                    lemma_then(d0, d1, *self, token.text@, seq![' ']);
                }
            },
            _ => {},
        }
    }
    /// Prints a table field.
    fn display_tablefield(&mut self, field: &TableField)
        requires
            room(*old(self), table_field_out(table_field_view(*field))),
        ensures
            wrote(*old(self), *final(self), table_field_out(table_field_view(*field))),
        decreases field,
    {
        match field {
            TableField::NameKey(field) => {
                let ghost d0 = *self;
                let ghost a = token_out(field.name@);
                let ghost b = token_out(field.equals@);
                let ghost c = expr_out(field.value@);
                proof {
                    lemma_room_split(d0, d0, a + b, c);
                    lemma_room_split(d0, d0, a, b);
                }
                self.display_token(&field.name);
                let ghost d1 = *self;
                proof {
                    lemma_room_split(d0, d1, a, b);
                }
                self.display_token(&field.equals);
                let ghost d2 = *self;
                proof {
                    lemma_then(d0, d1, d2, a, b);
                    lemma_room_split(d0, d2, a + b, c);
                }
                self.display_expression(&field.value);
                proof {
                    lemma_then(d0, d2, *self, a + b, c);
                }
            },
            TableField::NoKey(field) => self.display_expression(&field.value),
        }
    }

    /// Prints a table: its opening brace, each field followed by its
    /// separator, and its closing brace.
    #[verifier::spinoff_prover]
    #[verifier::rlimit(40)]
    fn display_table(&mut self, table: &ExpressionTable)
        requires
            room(*old(self), expr_out(Expression::Table(*table)@)),
        ensures
            wrote(*old(self), *final(self), expr_out(Expression::Table(*table)@)),
        decreases table,
    {
        let ghost d0 = *self;
        let ghost fs = (Expression::Table(*table)@)->fields;
        let ghost a = token_out(table.values.left@);
        let ghost b = fields_out(fs);
        let ghost c = token_out(table.values.right@);
        proof {
            lemma_room_split(d0, d0, a + b, c);
            lemma_room_split(d0, d0, a, b);
        }
        self.display_token(&table.values.left);
        let ghost d1 = *self;
        proof {
            lemma_room_split(d0, d1, a, b);
            lemma_wrote_nothing(d1);
            assert(fs.subrange(0, 0) =~= Seq::<FieldV>::empty());
        }
        let fields = &table.values.value;
        let mut i: usize = 0;
        while i < fields.len()
            invariant
                i <= fields@.len(),
                fields == &table.values.value,
                fs.len() == fields@.len(),
                forall|k: int| 0 <= k < fs.len() ==> #[trigger] fs[k] == field_view(fields@[k]),
                room(d1, b),
                b == fields_out(fs),
                wrote(d1, *self, fields_out(fs.subrange(0, i as int))),
            decreases fields.len() - i,
        {
            let ghost di = *self;
            let ghost p = fields_out(fs.subrange(0, i as int));
            let ghost t = fs.subrange(0, i + 1);
            let ghost f = fs[i as int];
            let ghost x = table_field_out(f.field);
            let ghost y = match f.separator {
                Some(t) => token_out(t),
                None => Seq::<char>::empty(),
            };
            proof {
                assert(t.subrange(0, t.len() - 1) =~= fs.subrange(0, i as int));
                assert(fields_out(t) == p + field_out(f));
                lemma_fields_out_prefix(fs, i + 1);
                lemma_encode_utf8_concat(p, field_out(f));
                lemma_encode_utf8_concat(x, y);
                lemma_room_after(d1, di, b, p, x);
            }
            let value = &fields[i];
            self.display_tablefield(&value.value);
            let ghost dj = *self;
            proof {
                lemma_then(d1, di, dj, p, x);
            }
            if let Some(separator) = &value.separator {
                proof {
                    lemma_encode_utf8_concat(p + x, y);
                    lemma_room_after(d1, dj, b, p + x, y);
                }
                self.display_token(separator);
            } else {
                proof {
                    lemma_wrote_nothing(dj);
                }
            }
            proof {
                lemma_then(d1, dj, *self, p + x, y);
                assert(p + x + y =~= p + field_out(f));
            }
            i += 1;
        }
        proof {
            assert(fs.subrange(0, i as int) =~= fs);
            lemma_then(d0, d1, *self, a, b);
        }
        let ghost d2 = *self;
        proof {
            lemma_room_split(d0, d2, a + b, c);
        }
        self.display_token(&table.values.right);
        proof {
            lemma_then(d0, d2, *self, a + b, c);
        }
    }

    /// Prints an expression.
    fn display_expression(&mut self, expression: &Expression)
        requires
            room(*old(self), expr_out(expression@)),
        ensures
            wrote(*old(self), *final(self), expr_out(expression@)),
        decreases expression,
    {
        let ghost d0 = *self;
        match expression {
            Expression::Binary(expr) => {
                let ghost a = expr_out((*expr.left)@);
                let ghost b = token_out(expr.operator@);
                let ghost c = expr_out((*expr.right)@);
                proof {
                    lemma_room_split(d0, d0, a + b, c);
                    lemma_room_split(d0, d0, a, b);
                }
                self.display_expression(&expr.left);
                let ghost d1 = *self;
                proof {
                    lemma_room_split(d0, d1, a, b);
                }
                self.display_token(&expr.operator);
                let ghost d2 = *self;
                proof {
                    lemma_then(d0, d1, d2, a, b);
                    lemma_room_split(d0, d2, a + b, c);
                }
                self.display_expression(&expr.right);
                proof {
                    lemma_then(d0, d2, *self, a + b, c);
                }
            },
            Expression::Unary(expr) => {
                let ghost a = token_out(expr.operator@);
                let ghost b = expr_out((*expr.value)@);
                proof {
                    lemma_room_split(d0, d0, a, b);
                }
                self.display_token(&expr.operator);
                let ghost d1 = *self;
                proof {
                    lemma_room_split(d0, d1, a, b);
                }
                self.display_expression(&expr.value);
                proof {
                    lemma_then(d0, d1, *self, a, b);
                }
            },
            Expression::Table(expr) => {
                self.display_table(expr);
            },
            Expression::String(expr) => self.display_token(&expr.token),
            Expression::Number(expr) => self.display_token(&expr.token),
            Expression::Boolean(expr) => self.display_token(&expr.token),
            Expression::Nil(expr) => self.display_token(&expr.token),
            Expression::Var(expr) => self.display_var(expr),
            Expression::Evaluate(expr) => {
                let ghost a = token_out(expr.value.left@);
                let ghost b = expr_out((*expr.value.value)@);
                let ghost c = token_out(expr.value.right@);
                proof {
                    lemma_room_split(d0, d0, a + b, c);
                    lemma_room_split(d0, d0, a, b);
                }
                self.display_token(&expr.value.left);
                let ghost d1 = *self;
                proof {
                    lemma_room_split(d0, d1, a, b);
                }
                self.display_expression(&expr.value.value);
                let ghost d2 = *self;
                proof {
                    lemma_then(d0, d1, d2, a, b);
                    lemma_room_split(d0, d2, a + b, c);
                }
                self.display_token(&expr.value.right);
                proof {
                    lemma_then(d0, d2, *self, a + b, c);
                }
            },
        }
    }

    /// Prints one suffix of a variable.
    fn display_var_suffix(&mut self, suffix: &VarSuffix)
        requires
            room(*old(self), suffix_out(suffix_view(*suffix))),
        ensures
            wrote(*old(self), *final(self), suffix_out(suffix_view(*suffix))),
        decreases suffix,
    {
        let ghost d0 = *self;
        match suffix {
            VarSuffix::ExpressionIndex(suffix) => {
                let ghost a = token_out(suffix.period@);
                let ghost b = token_out(suffix.node.left@);
                let ghost c = expr_out(suffix.node.value@);
                let ghost e = token_out(suffix.node.right@);
                proof {
                    lemma_room_split(d0, d0, a + b + c, e);
                    lemma_room_split(d0, d0, a + b, c);
                    lemma_room_split(d0, d0, a, b);
                }
                self.display_token(&suffix.period);
                let ghost d1 = *self;
                proof {
                    lemma_room_split(d0, d1, a, b);
                }
                self.display_token(&suffix.node.left);
                let ghost d2 = *self;
                proof {
                    lemma_then(d0, d1, d2, a, b);
                    lemma_room_split(d0, d2, a + b, c);
                }
                self.display_expression(&suffix.node.value);
                let ghost d3 = *self;
                proof {
                    lemma_then(d0, d2, d3, a + b, c);
                    lemma_room_split(d0, d3, a + b + c, e);
                }
                self.display_token(&suffix.node.right);
                proof {
                    lemma_then(d0, d3, *self, a + b + c, e);
                }
            },
            VarSuffix::NameIndex(suffix) => {
                let ghost a = token_out(suffix.period@);
                let ghost b = token_out(suffix.name@);
                proof {
                    lemma_room_split(d0, d0, a, b);
                }
                self.display_token(&suffix.period);
                let ghost d1 = *self;
                proof {
                    lemma_room_split(d0, d1, a, b);
                }
                self.display_token(&suffix.name);
                proof {
                    lemma_then(d0, d1, *self, a, b);
                }
            },
        }
    }

    /// Prints the root of a variable: its name.
    fn display_var_root(&mut self, root: &VarRoot)
        requires
            room(*old(self), token_out(root.name@)),
        ensures
            wrote(*old(self), *final(self), token_out(root.name@)),
    {
        self.display_token(&root.name);
    }

    /// Prints a variable: its root, its suffixes, and a space.
    fn display_var(&mut self, var: &Var)
        requires
            room(*old(self), expr_out(Expression::Var(*var)@)),
        ensures
            wrote(*old(self), *final(self), expr_out(Expression::Var(*var)@)),
        decreases var,
    {
        let ghost d0 = *self;
        let ghost ss = (Expression::Var(*var)@)->suffixes;
        let ghost a = token_out(var.root.name@);
        let ghost b = suffixes_out(ss);
        let ghost c = seq![' '];
        proof {
            lemma_room_split(d0, d0, a + b, c);
            lemma_room_split(d0, d0, a, b);
        }
        self.display_var_root(&var.root);
        let ghost d1 = *self;
        proof {
            lemma_room_split(d0, d1, a, b);
            lemma_wrote_nothing(d1);
            assert(ss.subrange(0, 0) =~= Seq::<SuffixV>::empty());
        }
        let suffixes = &var.suffixes;
        let mut i: usize = 0;
        while i < suffixes.len()
            invariant
                i <= suffixes@.len(),
                suffixes == &var.suffixes,
                ss.len() == suffixes@.len(),
                forall|k: int| 0 <= k < ss.len() ==> #[trigger] ss[k] == suffix_view(suffixes@[k]),
                room(d1, b),
                b == suffixes_out(ss),
                wrote(d1, *self, suffixes_out(ss.subrange(0, i as int))),
            decreases suffixes.len() - i,
        {
            let ghost di = *self;
            let ghost p = suffixes_out(ss.subrange(0, i as int));
            let ghost t = ss.subrange(0, i + 1);
            let ghost x = suffix_out(ss[i as int]);
            proof {
                assert(t.subrange(0, t.len() - 1) =~= ss.subrange(0, i as int));
                assert(suffixes_out(t) == p + x);
                lemma_suffixes_out_prefix(ss, i + 1);
                lemma_encode_utf8_concat(p, x);
                lemma_room_after(d1, di, b, p, x);
            }
            self.display_var_suffix(&suffixes[i]);
            proof {
                lemma_then(d1, di, *self, p, x);
            }
            i += 1;
        }
        proof {
            assert(ss.subrange(0, i as int) =~= ss);
            lemma_then(d0, d1, *self, a, b);
        }
        let ghost d2 = *self;
        proof {
            lemma_room_split(d0, d2, a + b, c);
        }
        self.write_ascii(' ', 32);
        proof {
            lemma_then(d0, d2, *self, a + b, c);
        }
    }
    /// Prints a service target: the service, the `=` and the port number.
    fn display_service_target(&mut self, target: &ServiceTarget)
        requires
            room(*old(self), target_out(target@)),
        ensures
            wrote(*old(self), *final(self), target_out(target@)),
    {
        let ghost d0 = *self;
        let ghost a = token_out(target.service@);
        let ghost b = token_out(target.equals@);
        let ghost c = decimal_text(target.port as nat);
        proof {
            lemma_room_split(d0, d0, a + b, c);
            lemma_room_split(d0, d0, a, b);
        }
        self.display_token(&target.service);
        let ghost d1 = *self;
        proof {
            lemma_room_split(d0, d1, a, b);
        }
        self.display_token(&target.equals);
        let ghost d2 = *self;
        proof {
            lemma_then(d0, d1, d2, a, b);
            lemma_room_split(d0, d2, a + b, c);
        }
        let port = Token {
            kind: TokenKind::Number,
            text: decimal_string(target.port),
            span: Span { x: 0, y: 0, z: 0, w: 0 },
        };
        self.display_token(&port);
        proof {
            lemma_then(d0, d2, *self, a + b, c);
        }
    }

    /// Prints an assignment.
    fn display_assign(&mut self, stat: &Assign)
        requires
            room(*old(self), stmt_out(Statement::Assign(*stat)@, old(self).tbs as nat)),
        ensures
            wrote(*old(self), *final(self), stmt_out(Statement::Assign(*stat)@, old(self).tbs as nat)),
    {
        let ghost d0 = *self;
        let ghost a = token_out(stat.identifier@);
        let ghost b = token_out(stat.equals@);
        let ghost c = expr_out(stat.value@);
        proof {
            lemma_room_split(d0, d0, a + b, c);
            lemma_room_split(d0, d0, a, b);
        }
        self.display_token(&stat.identifier);
        let ghost d1 = *self;
        proof {
            lemma_room_split(d0, d1, a, b);
        }
        self.display_token(&stat.equals);
        let ghost d2 = *self;
        proof {
            lemma_then(d0, d1, d2, a, b);
            lemma_room_split(d0, d2, a + b, c);
        }
        self.display_expression(&stat.value);
        proof {
            lemma_then(d0, d2, *self, a + b, c);
        }
    }

    /// Prints a `let` statement.
    fn display_stat_let(&mut self, stat: &LetStatement)
        requires
            room(*old(self), stmt_out(Statement::Let(*stat)@, old(self).tbs as nat)),
        ensures
            wrote(*old(self), *final(self), stmt_out(Statement::Let(*stat)@, old(self).tbs as nat)),
    {
        let ghost d0 = *self;
        let ghost w = let_word();
        let ghost a = token_out(stat.root.name@);
        let ghost b = token_out(stat.equals@);
        let ghost c = expr_out(stat.value@);
        proof {
            reveal_strlit("let ");
            assert("let "@ =~= w);
            lemma_room_split(d0, d0, w + a + b, c);
            lemma_room_split(d0, d0, w + a, b);
            lemma_room_split(d0, d0, w, a);
        }
        self.write_str("let ");
        let ghost d1 = *self;
        proof {
            lemma_room_split(d0, d1, w, a);
        }
        self.display_var_root(&stat.root);
        let ghost d2 = *self;
        proof {
            lemma_then(d0, d1, d2, w, a);
            lemma_room_split(d0, d2, w + a, b);
        }
        self.display_token(&stat.equals);
        let ghost d3 = *self;
        proof {
            lemma_then(d0, d2, d3, w + a, b);
            lemma_room_split(d0, d3, w + a + b, c);
        }
        self.display_expression(&stat.value);
        proof {
            lemma_then(d0, d3, *self, w + a + b, c);
        }
    }

    /// Prints the properties of a route one level deeper, between braces.
    fn display_properties(&mut self, properties: &Block)
        requires
            room(
                *old(self),
                seq!['{'] + block_out(properties@, (old(self).tbs + 1) as nat) + seq!['}'],
            ),
        ensures
            wrote(
                *old(self),
                *final(self),
                seq!['{'] + block_out(properties@, (old(self).tbs + 1) as nat) + seq!['}'],
            ),
        decreases properties, 2nat,
    {
        let ghost d0 = *self;
        let ghost a = seq!['{'];
        let ghost b = block_out(properties@, (d0.tbs + 1) as nat);
        let ghost c = seq!['}'];
        proof {
            lemma_room_split(d0, d0, a + b, c);
            lemma_room_split(d0, d0, a, b);
        }
        self.write_ascii('{', 123);
        let ghost d1 = *self;
        proof {
            lemma_room_split(d0, d1, a, b);
            lemma_line_out_len((d0.tbs + 1) as nat);
            lemma_encode_utf8_concat(line_out((d0.tbs + 1) as nat), stmts_out(properties@.body, (d0.tbs + 1) as nat));
        }
        self.tbs += 1;
        self.display_block(properties);
        self.tbs -= 1;
        let ghost d2 = *self;
        proof {
            lemma_then(d0, d1, d2, a, b);
            lemma_room_split(d0, d2, a + b, c);
        }
        self.write_ascii('}', 125);
        proof {
            lemma_then(d0, d2, *self, a + b, c);
        }
    }

    /// Prints a route to a host.
    fn display_route_http(&mut self, route: &RouteHTTP)
        requires
            room(
                *old(self),
                token_out(route.hostname@) + target_out(route.target@) + seq!['{'] + block_out(
                    route.properties@,
                    (old(self).tbs + 1) as nat,
                ) + seq!['}'],
            ),
        ensures
            wrote(
                *old(self),
                *final(self),
                token_out(route.hostname@) + target_out(route.target@) + seq!['{'] + block_out(
                    route.properties@,
                    (old(self).tbs + 1) as nat,
                ) + seq!['}'],
            ),
        decreases route, 0nat,
    {
        let ghost d0 = *self;
        let ghost a = token_out(route.hostname@);
        let ghost b = target_out(route.target@);
        let ghost c = seq!['{'] + block_out(route.properties@, (d0.tbs + 1) as nat) + seq!['}'];
        proof {
            assert(a + b + seq!['{'] + block_out(route.properties@, (d0.tbs + 1) as nat) + seq!['}'] =~= a + b + c);
            lemma_room_split(d0, d0, a + b, c);
            lemma_room_split(d0, d0, a, b);
        }
        self.display_token(&route.hostname);
        let ghost d1 = *self;
        proof {
            lemma_room_split(d0, d1, a, b);
        }
        self.display_service_target(&route.target);
        let ghost d2 = *self;
        proof {
            lemma_then(d0, d1, d2, a, b);
            lemma_room_split(d0, d2, a + b, c);
        }
        self.display_properties(&route.properties);
        proof {
            lemma_then(d0, d2, *self, a + b, c);
        }
    }

    /// Prints a route to a port.
    fn display_route_tcp(&mut self, route: &RouteTCP)
        requires
            room(
                *old(self),
                target_out(route.target@) + seq!['{'] + block_out(
                    route.properties@,
                    (old(self).tbs + 1) as nat,
                ) + seq!['}'],
            ),
        ensures
            wrote(
                *old(self),
                *final(self),
                target_out(route.target@) + seq!['{'] + block_out(
                    route.properties@,
                    (old(self).tbs + 1) as nat,
                ) + seq!['}'],
            ),
        decreases route, 0nat,
    {
        let ghost d0 = *self;
        let ghost a = target_out(route.target@);
        let ghost c = seq!['{'] + block_out(route.properties@, (d0.tbs + 1) as nat) + seq!['}'];
        proof {
            assert(a + seq!['{'] + block_out(route.properties@, (d0.tbs + 1) as nat) + seq!['}'] =~= a + c);
            lemma_room_split(d0, d0, a, c);
        }
        self.display_service_target(&route.target);
        let ghost d1 = *self;
        proof {
            lemma_room_split(d0, d1, a, c);
        }
        self.display_properties(&route.properties);
        proof {
            lemma_then(d0, d1, *self, a, c);
        }
    }

    /// Prints a route.
    fn display_route(&mut self, route: &Route)
        requires
            room(*old(self), route_out(Statement::Route(*route)@->0, old(self).tbs as nat)),
        ensures
            wrote(*old(self), *final(self), route_out(Statement::Route(*route)@->0, old(self).tbs as nat)),
        decreases route, 0nat,
    {
        let ghost d0 = *self;
        let ghost w = route_word();
        let ghost out = route_out(Statement::Route(*route)@->0, d0.tbs as nat);
        let ghost rest = out.subrange(6, out.len() as int);
        proof {
            reveal_strlit("route ");
            assert("route "@ =~= w);
            assert(out =~= w + rest);
            lemma_room_split(d0, d0, w, rest);
        }
        self.write_str("route ");
        let ghost d1 = *self;
        proof {
            lemma_room_split(d0, d1, w, rest);
        }
        match route {
            Route::HTTP(route) => {
                proof {
                    assert(rest =~= token_out(route.hostname@) + target_out(route.target@) + seq!['{'] + block_out(
                        route.properties@,
                        (d0.tbs + 1) as nat,
                    ) + seq!['}']);
                }
                self.display_route_http(route)
            },
            Route::TCP(route) => {
                proof {
                    assert(rest =~= target_out(route.target@) + seq!['{'] + block_out(
                        route.properties@,
                        (d0.tbs + 1) as nat,
                    ) + seq!['}']);
                }
                self.display_route_tcp(route)
            },
        }
        proof {
            lemma_then(d0, d1, *self, w, rest);
        }
    }

    /// Prints a block at the current depth: a line break, then each
    /// statement followed by a line break. Returns all that was written so
    /// far, decoded as text.
    pub fn display_block(&mut self, block: &Block) -> (r: String)
        requires
            room(*old(self), block_out(block@, old(self).tbs as nat)),
        ensures
            wrote(*old(self), *final(self), block_out(block@, old(self).tbs as nat)),
            r@ == lossy_text(final(self).source@),
            valid_utf8(old(self).source@) ==> r@ == decode_utf8(old(self).source@) + block_out(
                block@,
                old(self).tbs as nat,
            ),
        decreases block, 1nat,
    {
        let ghost d0 = *self;
        let ghost tbs = d0.tbs as nat;
        let ghost ss = block@.body;
        let ghost a = line_out(tbs);
        let ghost b = stmts_out(ss, tbs);
        proof {
            lemma_room_split(d0, d0, a, b);
        }
        self.write_line();
        let ghost d1 = *self;
        proof {
            lemma_room_split(d0, d1, a, b);
            lemma_wrote_nothing(d1);
            assert(ss.subrange(0, 0) =~= Seq::<StmtV>::empty());
        }
        let body = &block.body;
        let mut i: usize = 0;
        while i < body.len()
            invariant
                i <= body@.len(),
                body == &block.body,
                ss == block@.body,
                ss.len() == body@.len(),
                forall|k: int| 0 <= k < ss.len() ==> #[trigger] ss[k] == body@[k]@,
                self.tbs == tbs,
                room(d1, b),
                b == stmts_out(ss, tbs),
                wrote(d1, *self, stmts_out(ss.subrange(0, i as int), tbs)),
            decreases body.len() - i,
        {
            let ghost di = *self;
            let ghost p = stmts_out(ss.subrange(0, i as int), tbs);
            let ghost t = ss.subrange(0, i + 1);
            let ghost x = stmt_out(ss[i as int], tbs);
            let ghost y = line_out(tbs);
            proof {
                assert(t.subrange(0, t.len() - 1) =~= ss.subrange(0, i as int));
                assert(stmts_out(t, tbs) == p + x + y);
                lemma_stmts_out_prefix(ss, tbs, i + 1);
                lemma_encode_utf8_concat(p, x);
                lemma_encode_utf8_concat(p + x, y);
                lemma_room_after(d1, di, b, p, x);
            }
            match &body[i] {
                Statement::Assign(stat) => self.display_assign(stat),
                Statement::Let(stat) => self.display_stat_let(stat),
                Statement::Route(stat) => self.display_route(stat),
            }
            let ghost dj = *self;
            proof {
                lemma_then(d1, di, dj, p, x);
                lemma_room_after(d1, dj, b, p + x, y);
            }
            self.write_line();
            proof {
                lemma_then(d1, dj, *self, p + x, y);
            }
            i += 1;
        }
        proof {
            assert(ss.subrange(0, i as int) =~= ss);
            lemma_then(d0, d1, *self, a, b);
            if valid_utf8(d0.source@) {
                lemma_decode_after(d0.source@, a + b);
            }
        }
        decode_lossy(self.source.as_slice())
    }

    /// A printer that has written nothing, at depth zero.
    pub fn create() -> (r: Self)
        ensures
            r.source@ == Seq::<u8>::empty(),
            r.line_length == 0,
            r.pos == 0,
            r.tbs == 0,
    {
        Self { pos: 0, line_length: 0, source: Vec::new(), tbs: 0 }
    }
}

} // verus!

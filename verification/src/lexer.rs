//! The lexer: turns source bytes into tokens, one at a time.
use crate::ast::{Span, Token, TokenKind, TokenV};
use crate::error::{ErrV, Error};
use vstd::prelude::*;
use vstd::slice::slice_subrange;
use vstd::utf8::{decode_utf8, valid_utf8};

verus! {

pub const NEWLINE: u8 = 10;
pub const TAB: u8 = 9;
pub const FORM_FEED: u8 = 12;
pub const CARRIAGE_RETURN: u8 = 13;
pub const SPACE: u8 = 32;
pub const BANG: u8 = 33;
pub const DOUBLE_QUOTE: u8 = 34;
pub const SINGLE_QUOTE: u8 = 39;
pub const STAR: u8 = 42;
pub const PLUS: u8 = 43;
pub const COMMA: u8 = 44;
pub const MINUS: u8 = 45;
pub const DOT: u8 = 46;
pub const SLASH: u8 = 47;
pub const COLON: u8 = 58;
pub const LESS: u8 = 60;
pub const EQUALS: u8 = 61;
pub const GREATER: u8 = 62;
pub const LEFT_SQUARE: u8 = 91;
pub const RIGHT_SQUARE: u8 = 93;
pub const CARET: u8 = 94;
pub const UNDERSCORE: u8 = 95;
pub const LEFT_BRACE: u8 = 123;
pub const RIGHT_BRACE: u8 = 125;

/// Something that went wrong while reading the source: an error the lexer
/// or parser reports, or a point where reading aborts.
pub enum Failure {
    Error(ErrV),
    Panic,
}

/// A failure of the executable code: a reported error, or the point where
/// reading would abort.
#[derive(Debug)]
pub enum Fail {
    Error(Error),
    Panic,
}

impl View for Fail {
    type V = Failure;

    open spec fn view(&self) -> Failure {
        match self {
            Fail::Error(e) => Failure::Error(e@),
            Fail::Panic => Failure::Panic,
        }
    }
}

/// The byte at `p`, or zero past the end.
pub open spec fn peek_at(s: Seq<u8>, p: int) -> u8 {
    if 0 <= p < s.len() {
        s[p]
    } else {
        0
    }
}

/// The line on which offset `p` stands, counting from one.
pub open spec fn line_at(s: Seq<u8>, p: int) -> int
    decreases p,
{
    if p <= 0 {
        1
    } else {
        line_at(s, p - 1) + if s[p - 1] == NEWLINE {
            1int
        } else {
            0int
        }
    }
}

/// The column at which offset `p` stands, counting from one.
pub open spec fn col_at(s: Seq<u8>, p: int) -> int
    decreases p,
{
    if p <= 0 {
        1
    } else if s[p - 1] == NEWLINE {
        1
    } else {
        col_at(s, p - 1) + 1
    }
}

pub proof fn lemma_line_col_bounds(s: Seq<u8>, p: int)
    requires
        0 <= p <= s.len(),
    ensures
        1 <= line_at(s, p) <= p + 1,
        1 <= col_at(s, p) <= p + 1,
    decreases p,
{
    if p > 0 {
        lemma_line_col_bounds(s, p - 1);
    }
}

pub open spec fn is_digit(c: u8) -> bool {
    48 <= c <= 57
}

pub open spec fn is_letter(c: u8) -> bool {
    (97 <= c <= 122) || (65 <= c <= 90)
}

/// Bytes that may appear in an identifier.
pub open spec fn is_alpha_spec(c: u8) -> bool {
    is_letter(c) || c == MINUS || c == UNDERSCORE
}

/// Bytes that may continue a number.
pub open spec fn is_number_char(c: u8) -> bool {
    is_digit(c) || is_letter(c) || c == DOT || c == UNDERSCORE
}

/// ASCII whitespace: space, tab, line feed, form feed, carriage return.
pub open spec fn is_whitespace_spec(c: u8) -> bool {
    c == SPACE || c == TAB || c == NEWLINE || c == FORM_FEED || c == CARRIAGE_RETURN
}

/// The end of the run of number characters that starts at `p`.
pub open spec fn number_end(s: Seq<u8>, p: int) -> int
    decreases s.len() - p,
{
    if 0 <= p < s.len() && is_number_char(s[p]) {
        number_end(s, p + 1)
    } else {
        p
    }
}

/// Bytes that may continue an identifier: those that may start one, and
/// digits.
pub open spec fn is_ident_char(c: u8) -> bool {
    is_alpha_spec(c) || is_digit(c)
}

/// The end of the run of identifier characters that starts at `p`.
pub open spec fn alpha_end(s: Seq<u8>, p: int) -> int
    decreases s.len() - p,
{
    if 0 <= p < s.len() && is_ident_char(s[p]) {
        alpha_end(s, p + 1)
    } else {
        p
    }
}

/// The first offset from `p` on that holds the delimiter or a zero byte,
/// or the end of the source.
pub open spec fn quote_end(s: Seq<u8>, p: int, delim: u8) -> int
    decreases s.len() - p,
{
    if 0 <= p < s.len() && s[p] != delim && s[p] != 0 {
        quote_end(s, p + 1, delim)
    } else {
        p
    }
}

pub proof fn lemma_runs_bounded(s: Seq<u8>, p: int, delim: u8)
    requires
        0 <= p <= s.len(),
    ensures
        p <= number_end(s, p) <= s.len(),
        p <= alpha_end(s, p) <= s.len(),
        p <= quote_end(s, p, delim) <= s.len(),
    decreases s.len() - p,
{
    if p < s.len() {
        lemma_runs_bounded(s, p + 1, delim);
    }
}

/// The keyword an identifier spells, if it spells one.
pub open spec fn word_kind(w: Seq<u8>) -> TokenKind {
    if w == seq![116u8, 114, 117, 101] {
        TokenKind::True
    } else if w == seq![102u8, 97, 108, 115, 101] {
        TokenKind::False
    } else if w == seq![110u8, 105, 108] {
        TokenKind::Nil
    } else if w == seq![97u8, 110, 100] {
        TokenKind::And
    } else if w == seq![111u8, 114] {
        TokenKind::Or
    } else if w == seq![116u8, 99, 112] {
        TokenKind::Tcp
    } else if w == seq![108u8, 101, 116] {
        TokenKind::Let
    } else if w == seq![114u8, 111, 117, 116, 101] {
        TokenKind::Route
    } else {
        TokenKind::Identifier
    }
}

/// The kind of the token that starts at `p`, and where it ends; `None`
/// where reading it aborts (a quoted string that runs to the end of the
/// source).
pub open spec fn read_kind_spec(s: Seq<u8>, p: int) -> Option<(TokenKind, int)> {
    let c = peek_at(s, p);
    if c == 0 {
        Some((TokenKind::Eof, p))
    } else if c == MINUS {
        if peek_at(s, p + 1) == GREATER {
            Some((TokenKind::Arrow, p + 2))
        } else {
            Some((TokenKind::Subtract, p + 1))
        }
    } else if c == LEFT_BRACE {
        Some((TokenKind::LBrace, p + 1))
    } else if c == RIGHT_BRACE {
        Some((TokenKind::RBrace, p + 1))
    } else if c == LEFT_SQUARE {
        Some((TokenKind::LBracket, p + 1))
    } else if c == RIGHT_SQUARE {
        Some((TokenKind::RBracket, p + 1))
    } else if c == COLON {
        Some((TokenKind::Colon, p + 1))
    } else if c == EQUALS {
        if peek_at(s, p + 1) == EQUALS {
            Some((TokenKind::BinaryEquals, p + 1))
        } else {
            Some((TokenKind::Equals, p + 1))
        }
    } else if c == BANG {
        if peek_at(s, p + 1) == EQUALS {
            Some((TokenKind::NEquals, p + 1))
        } else {
            Some((TokenKind::Not, p + 1))
        }
    } else if c == DOT {
        Some((TokenKind::Period, p + 1))
    } else if c == GREATER {
        if peek_at(s, p + 1) == EQUALS {
            Some((TokenKind::GreaterEquals, p + 1))
        } else {
            Some((TokenKind::Greater, p + 1))
        }
    } else if c == LESS {
        if peek_at(s, p + 1) == EQUALS {
            Some((TokenKind::LessEquals, p + 1))
        } else {
            Some((TokenKind::Less, p + 1))
        }
    } else if c == PLUS {
        Some((TokenKind::Add, p + 1))
    } else if c == STAR {
        Some((TokenKind::Multiply, p + 1))
    } else if c == SLASH {
        Some((TokenKind::Divide, p + 1))
    } else if c == CARET {
        Some((TokenKind::Exponent, p + 1))
    } else if c == COMMA {
        Some((TokenKind::Comma, p + 1))
    } else if is_digit(c) {
        Some((TokenKind::Number, number_end(s, p + 1)))
    } else if is_alpha_spec(c) {
        let e = alpha_end(s, p + 1);
        Some((word_kind(s.subrange(p, e)), e))
    } else if c == DOUBLE_QUOTE || c == SINGLE_QUOTE {
        let e = quote_end(s, p + 1, c);
        if e >= s.len() {
            None
        } else if s[e] == c {
            Some((TokenKind::String, e + 1))
        } else {
            Some((TokenKind::Error, e))
        }
    } else if is_whitespace_spec(c) {
        Some((TokenKind::Whitespace, p + 1))
    } else {
        Some((TokenKind::Error, p + 1))
    }
}

/// The span of the token that starts at `p` and ends at `e`.
pub open spec fn span_of(s: Seq<u8>, p: int, e: int) -> Span {
    Span { x: p as usize, y: e as usize, z: line_at(s, p) as usize, w: col_at(s, p) as usize }
}

/// The message for bytes that form no token.
pub open spec fn unknown_token_message(value: Seq<char>) -> Seq<char> {
    "cannot parse '"@ + value + "' into a token"@
}

/// Where the lexer stands after reading the token at `p`, whitespace
/// skipped first; `p` itself once reading it would abort.
pub open spec fn after_token(s: Seq<u8>, p: int) -> int
    decreases s.len() - p,
{
    if 0 <= p < s.len() && is_whitespace_spec(s[p]) {
        after_token(s, p + 1)
    } else {
        match read_kind_spec(s, p) {
            Some((_, e)) => e,
            None => p,
        }
    }
}

/// The token that starts at `p` once whitespace is skipped, with the
/// offset where the lexer stands after it; or the error the lexer reports;
/// or `Panic` where the lexer aborts.
pub open spec fn next_token_spec(s: Seq<u8>, p: int) -> Result<(TokenV, int), Failure>
    decreases s.len() - p,
{
    if 0 <= p < s.len() && is_whitespace_spec(s[p]) {
        next_token_spec(s, p + 1)
    } else {
        match read_kind_spec(s, p) {
            None => Err(Failure::Panic),
            Some((kind, e)) => {
                let bytes = s.subrange(p, e);
                if !valid_utf8(bytes) {
                    Err(Failure::Panic)
                } else if kind == TokenKind::Error {
                    Err(
                        Failure::Error(
                            ErrV {
                                why: unknown_token_message(decode_utf8(bytes)),
                                span: span_of(s, p, e),
                            },
                        ),
                    )
                } else {
                    Ok((TokenV { kind, text: decode_utf8(bytes), span: span_of(s, p, e) }, e))
                }
            },
        }
    }
}

/// Reads UTF-8 bytes as a string slice.
///
/// Calls `std::str::from_utf8`; the contract claims that it succeeds exactly
/// on valid UTF-8 (as its documentation states) and that the slice holds
/// the characters the bytes encode.
#[verifier::external_body]
pub(crate) fn utf8_str<'a>(bytes: &'a [u8]) -> (r: Option<&'a str>)
    ensures
        r is Some <==> valid_utf8(bytes@),
        r matches Some(t) ==> t@ == decode_utf8(bytes@),
{
    std::str::from_utf8(bytes).ok()
}

pub struct Lexer<'a> {
    input: &'a [u8],
    pos: usize,
    len: usize,
    line: usize,
    col: usize,
}

fn is_alpha(char: u8) -> (r: bool)
    ensures
        r == is_alpha_spec(char),
{
    (97 <= char && char <= 122) || (65 <= char && char <= 90) || char == MINUS || char == UNDERSCORE
}

fn is_whitespace(char: u8) -> (r: bool)
    ensures
        r == is_whitespace_spec(char),
{
    char == SPACE || char == TAB || char == NEWLINE || char == FORM_FEED || char == CARRIAGE_RETURN
}

fn is_ascii_digit(c: u8) -> (r: bool)
    ensures
        r == is_digit(c),
{
    48 <= c && c <= 57
}

fn is_number_byte(c: u8) -> (r: bool)
    ensures
        r == is_number_char(c),
{
    (48 <= c && c <= 57) || (97 <= c && c <= 122) || (65 <= c && c <= 90) || c == DOT || c
        == UNDERSCORE
}

impl<'a> Lexer<'a> {
    /// The source the lexer reads.
    pub closed spec fn source(&self) -> Seq<u8> {
        self.input@
    }

    /// The offset the lexer stands at.
    pub closed spec fn position(&self) -> int {
        self.pos as int
    }

    /// The line the lexer counts.
    pub closed spec fn line(&self) -> int {
        self.line as int
    }

    /// The column the lexer counts.
    pub closed spec fn col(&self) -> int {
        self.col as int
    }

    /// What a well-formed lexer keeps: it stands within the source, and its
    /// line and column are those of its offset (one more than the line
    /// breaks before it; one more than the bytes since the last of them).
    /// `new` makes it so, and every read keeps it so.
    pub proof fn lemma_wf(&self)
        requires
            self.wf(),
        ensures
            0 <= self.position() <= self.source().len(),
            self.line() == line_at(self.source(), self.position()),
            self.col() == col_at(self.source(), self.position()),
    {
    }

    /// The lexer's fields agree with one another: the line and column are
    /// those of its offset, which stands within the source.
    pub closed spec fn wf(&self) -> bool {
        &&& self.len == self.input@.len()
        &&& self.pos <= self.len
        &&& self.len < usize::MAX
        &&& self.line == line_at(self.input@, self.pos as int)
        &&& self.col == col_at(self.input@, self.pos as int)
    }

    pub fn new(input: &'a [u8]) -> (r: Self)
        requires
            input@.len() < usize::MAX,
        ensures
            r.wf(),
            r.source() == input@,
            r.position() == 0,
    {
        Self { input, pos: 0, len: input.len(), line: 1, col: 1 }
    }

    fn peek(&self) -> (c: u8)
        requires
            self.wf(),
        ensures
            c == peek_at(self.source(), self.position()),
    {
        if self.pos == self.len {
            return 0;
        }
        self.input[self.pos]
    }

    fn bump(&mut self)
        requires
            old(self).wf(),
            old(self).position() < old(self).source().len(),
        ensures
            final(self).wf(),
            final(self).source() == old(self).source(),
            final(self).position() == old(self).position() + 1,
    {
        let c = self.input[self.pos];
        proof {
            lemma_line_col_bounds(self.input@, self.pos as int + 1);
        }
        self.pos = if self.len < self.pos + 1 {
            self.len
        } else {
            self.pos + 1
        };
        if c == NEWLINE {
            self.line += 1;
            self.col = 1;
        } else {
            self.col += 1
        }
    }

    fn bump_peek(&mut self) -> (c: u8)
        requires
            old(self).wf(),
            old(self).position() < old(self).source().len(),
        ensures
            final(self).wf(),
            final(self).source() == old(self).source(),
            final(self).position() == old(self).position() + 1,
            c == peek_at(final(self).source(), final(self).position()),
    {
        self.bump();
        return self.peek();
    }

    fn eof(&self) -> (r: bool)
        requires
            self.wf(),
        ensures
            r == (self.position() == self.source().len()),
    {
        return self.pos == self.len;
    }

    /// Reads a quoted string whose opening delimiter is under the lexer;
    /// `None` where the string runs to the end of the source, which aborts
    /// reading.
    fn quoted_string(&mut self) -> (r: Option<TokenKind>)
        requires
            old(self).wf(),
            peek_at(old(self).source(), old(self).position()) == DOUBLE_QUOTE || peek_at(
                old(self).source(),
                old(self).position(),
            ) == SINGLE_QUOTE,
        ensures
            final(self).wf(),
            final(self).source() == old(self).source(),
            ({
                let s = old(self).source();
                let p = old(self).position();
                let delim = peek_at(s, p);
                let e = quote_end(s, p + 1, delim);
                if e >= s.len() {
                    r is None
                } else if s[e] == delim {
                    r == Some(TokenKind::String) && final(self).position() == e + 1
                } else {
                    r == Some(TokenKind::Error) && final(self).position() == e
                }
            }),
    {
        let ghost s = self.input@;
        let ghost p = self.pos as int;
        let delim = self.peek();
        let mut c = self.bump_peek();
        proof {
            lemma_runs_bounded(s, p + 1, delim);
        }
        while c != delim && !self.eof()
            invariant
                self.wf(),
                self.source() == s,
                s == old(self).source(),
                p == old(self).position(),
                delim == peek_at(s, p),
                p + 1 <= self.position() <= quote_end(s, p + 1, delim),
                quote_end(s, self.position(), delim) == quote_end(s, p + 1, delim),
                c == peek_at(s, self.position()),
                delim == DOUBLE_QUOTE || delim == SINGLE_QUOTE,
            decreases s.len() - self.position(),
        {
            if c == 0 {
                return Some(TokenKind::Error);
            }
            c = self.bump_peek();
            proof {
                lemma_runs_bounded(s, self.position(), delim);
            }
        }
        if self.eof() {
            return None;
        }
        self.bump();
        Some(TokenKind::String)
    }
}

/// The keyword kind of the identifier that spans `start..end`.
#[verifier::spinoff_prover]
fn word_kind_of(input: &[u8], start: usize, end: usize) -> (k: TokenKind)
    requires
        start <= end <= input@.len(),
    ensures
        k == word_kind(input@.subrange(start as int, end as int)),
{
    let ghost w = input@.subrange(start as int, end as int);
    let n = end - start;
    if n == 4 && input[start + 0] == 116 && input[start + 1] == 114 && input[start + 2] == 117 && input[start + 3] == 101 {
        assert(w =~= seq![116u8, 114, 117, 101]);
        return TokenKind::True;
    }
    assert(w != seq![116u8, 114, 117, 101]) by {
        if w == seq![116u8, 114, 117, 101] {
            assert(w[0] == input@[start + 0]);
            assert(w[0] == 116);
            assert(w[1] == input@[start + 1]);
            assert(w[1] == 114);
            assert(w[2] == input@[start + 2]);
            assert(w[2] == 117);
            assert(w[3] == input@[start + 3]);
            assert(w[3] == 101);
        }
    }
    if n == 5 && input[start + 0] == 102 && input[start + 1] == 97 && input[start + 2] == 108 && input[start + 3] == 115 && input[start + 4] == 101 {
        assert(w =~= seq![102u8, 97, 108, 115, 101]);
        return TokenKind::False;
    }
    assert(w != seq![102u8, 97, 108, 115, 101]) by {
        if w == seq![102u8, 97, 108, 115, 101] {
            assert(w[0] == input@[start + 0]);
            assert(w[0] == 102);
            assert(w[1] == input@[start + 1]);
            assert(w[1] == 97);
            assert(w[2] == input@[start + 2]);
            assert(w[2] == 108);
            assert(w[3] == input@[start + 3]);
            assert(w[3] == 115);
            assert(w[4] == input@[start + 4]);
            assert(w[4] == 101);
        }
    }
    if n == 3 && input[start + 0] == 110 && input[start + 1] == 105 && input[start + 2] == 108 {
        assert(w =~= seq![110u8, 105, 108]);
        return TokenKind::Nil;
    }
    assert(w != seq![110u8, 105, 108]) by {
        if w == seq![110u8, 105, 108] {
            assert(w[0] == input@[start + 0]);
            assert(w[0] == 110);
            assert(w[1] == input@[start + 1]);
            assert(w[1] == 105);
            assert(w[2] == input@[start + 2]);
            assert(w[2] == 108);
        }
    }
    if n == 3 && input[start + 0] == 97 && input[start + 1] == 110 && input[start + 2] == 100 {
        assert(w =~= seq![97u8, 110, 100]);
        return TokenKind::And;
    }
    assert(w != seq![97u8, 110, 100]) by {
        if w == seq![97u8, 110, 100] {
            assert(w[0] == input@[start + 0]);
            assert(w[0] == 97);
            assert(w[1] == input@[start + 1]);
            assert(w[1] == 110);
            assert(w[2] == input@[start + 2]);
            assert(w[2] == 100);
        }
    }
    if n == 2 && input[start + 0] == 111 && input[start + 1] == 114 {
        assert(w =~= seq![111u8, 114]);
        return TokenKind::Or;
    }
    assert(w != seq![111u8, 114]) by {
        if w == seq![111u8, 114] {
            assert(w[0] == input@[start + 0]);
            assert(w[0] == 111);
            assert(w[1] == input@[start + 1]);
            assert(w[1] == 114);
        }
    }
    if n == 3 && input[start + 0] == 116 && input[start + 1] == 99 && input[start + 2] == 112 {
        assert(w =~= seq![116u8, 99, 112]);
        return TokenKind::Tcp;
    }
    assert(w != seq![116u8, 99, 112]) by {
        if w == seq![116u8, 99, 112] {
            assert(w[0] == input@[start + 0]);
            assert(w[0] == 116);
            assert(w[1] == input@[start + 1]);
            assert(w[1] == 99);
            assert(w[2] == input@[start + 2]);
            assert(w[2] == 112);
        }
    }
    if n == 3 && input[start + 0] == 108 && input[start + 1] == 101 && input[start + 2] == 116 {
        assert(w =~= seq![108u8, 101, 116]);
        return TokenKind::Let;
    }
    assert(w != seq![108u8, 101, 116]) by {
        if w == seq![108u8, 101, 116] {
            assert(w[0] == input@[start + 0]);
            assert(w[0] == 108);
            assert(w[1] == input@[start + 1]);
            assert(w[1] == 101);
            assert(w[2] == input@[start + 2]);
            assert(w[2] == 116);
        }
    }
    if n == 5 && input[start + 0] == 114 && input[start + 1] == 111 && input[start + 2] == 117 && input[start + 3] == 116 && input[start + 4] == 101 {
        assert(w =~= seq![114u8, 111, 117, 116, 101]);
        return TokenKind::Route;
    }
    assert(w != seq![114u8, 111, 117, 116, 101]) by {
        if w == seq![114u8, 111, 117, 116, 101] {
            assert(w[0] == input@[start + 0]);
            assert(w[0] == 114);
            assert(w[1] == input@[start + 1]);
            assert(w[1] == 111);
            assert(w[2] == input@[start + 2]);
            assert(w[2] == 117);
            assert(w[3] == input@[start + 3]);
            assert(w[3] == 116);
            assert(w[4] == input@[start + 4]);
            assert(w[4] == 101);
        }
    }
    TokenKind::Identifier
}

/// Whitespace is read as a single whitespace token of one byte, and only
/// whitespace is.
proof fn lemma_read_kind_whitespace(s: Seq<u8>, p: int)
    requires
        0 <= p <= s.len(),
    ensures
        (read_kind_spec(s, p) matches Some((k, e)) && k == TokenKind::Whitespace) <==> (p < s.len()
            && is_whitespace_spec(s[p])),
        p < s.len() && is_whitespace_spec(s[p]) ==> read_kind_spec(s, p) == Some(
            (TokenKind::Whitespace, p + 1),
        ),
{
    let c = peek_at(s, p);
    if c == DOUBLE_QUOTE || c == SINGLE_QUOTE {
        let e = quote_end(s, p + 1, c);
        lemma_runs_bounded(s, p + 1, c);
    }
}

/// Every token read by `read_kind_spec` stands within the source and, but
/// for the end of input, covers at least one byte.
pub proof fn lemma_read_kind_bounds(s: Seq<u8>, p: int)
    requires
        0 <= p <= s.len(),
    ensures
        read_kind_spec(s, p) matches Some((k, e)) ==> {
            &&& p <= e <= s.len()
            &&& (k == TokenKind::Eof <==> e == p)
            &&& (k == TokenKind::Eof ==> peek_at(s, p) == 0)
        },
{
    let c = peek_at(s, p);
    if is_digit(c) {
        lemma_runs_bounded(s, p + 1, c);
    } else if is_alpha_spec(c) {
        lemma_runs_bounded(s, p + 1, c);
    } else if c == DOUBLE_QUOTE || c == SINGLE_QUOTE {
        lemma_runs_bounded(s, p + 1, c);
    }
}

impl<'a> Lexer<'a> {
    fn read_kind(&mut self) -> (r: Option<TokenKind>)
        requires
            old(self).wf(),
        ensures
            final(self).wf(),
            final(self).source() == old(self).source(),
            match read_kind_spec(old(self).source(), old(self).position()) {
                None => r is None,
                Some((k, e)) => r == Some(k) && final(self).position() == e,
            },
    {
        let ghost s = self.input@;
        let ghost p = self.pos as int;
        let mut c = self.peek();
        if c == 0 {
            return Some(TokenKind::Eof);
        }
        if c == MINUS {
            self.bump();
            c = self.peek();
            if c == GREATER {
                self.bump();
                Some(TokenKind::Arrow)
            } else {
                Some(TokenKind::Subtract)
            }
        } else if c == LEFT_BRACE {
            self.bump();
            Some(TokenKind::LBrace)
        } else if c == RIGHT_BRACE {
            self.bump();
            Some(TokenKind::RBrace)
        } else if c == LEFT_SQUARE {
            self.bump();
            Some(TokenKind::LBracket)
        } else if c == RIGHT_SQUARE {
            self.bump();
            Some(TokenKind::RBracket)
        } else if c == COLON {
            self.bump();
            Some(TokenKind::Colon)
        } else if c == EQUALS {
            let c = self.bump_peek();
            if c == EQUALS {
                Some(TokenKind::BinaryEquals)
            } else {
                Some(TokenKind::Equals)
            }
        } else if c == BANG {
            let c = self.bump_peek();
            if c == EQUALS {
                Some(TokenKind::NEquals)
            } else {
                Some(TokenKind::Not)
            }
        } else if c == DOT {
            self.bump();
            Some(TokenKind::Period)
        } else if c == GREATER {
            let c = self.bump_peek();
            if c == EQUALS {
                Some(TokenKind::GreaterEquals)
            } else {
                Some(TokenKind::Greater)
            }
        } else if c == LESS {
            let c = self.bump_peek();
            if c == EQUALS {
                Some(TokenKind::LessEquals)
            } else {
                Some(TokenKind::Less)
            }
        } else if c == PLUS {
            self.bump();
            Some(TokenKind::Add)
        } else if c == STAR {
            self.bump();
            Some(TokenKind::Multiply)
        } else if c == SLASH {
            self.bump();
            Some(TokenKind::Divide)
        } else if c == CARET {
            self.bump();
            Some(TokenKind::Exponent)
        } else if c == COMMA {
            self.bump();
            Some(TokenKind::Comma)
        } else if is_ascii_digit(c) {
            c = self.bump_peek();
            proof {
                lemma_runs_bounded(s, p + 1, c);
            }
            while is_number_byte(c)
                invariant
                    self.wf(),
                    self.source() == s,
                    s == old(self).source(),
                    p == old(self).position(),
                    p + 1 <= self.position() <= number_end(s, p + 1),
                    number_end(s, self.position()) == number_end(s, p + 1),
                    c == peek_at(s, self.position()),
                decreases s.len() - self.position(),
            {
                c = self.bump_peek();
                proof {
                    lemma_runs_bounded(s, self.position(), c);
                }
            }
            Some(TokenKind::Number)
        } else if is_alpha(c) {
            let start = self.pos;
            c = self.bump_peek();
            proof {
                lemma_runs_bounded(s, p + 1, c);
            }
            while is_alpha(c) || is_ascii_digit(c)
                invariant
                    self.wf(),
                    self.source() == s,
                    s == old(self).source(),
                    p == old(self).position(),
                    start == p,
                    p + 1 <= self.position() <= alpha_end(s, p + 1),
                    alpha_end(s, self.position()) == alpha_end(s, p + 1),
                    c == peek_at(s, self.position()),
                decreases s.len() - self.position(),
            {
                c = self.bump_peek();
                proof {
                    lemma_runs_bounded(s, self.position(), c);
                }
            }
            Some(word_kind_of(self.input, start, self.pos))
        } else if c == DOUBLE_QUOTE || c == SINGLE_QUOTE {
            self.quoted_string()
        } else if is_whitespace(c) {
            self.bump();
            Some(TokenKind::Whitespace)
        } else {
            self.bump();
            Some(TokenKind::Error)
        }
    }

    /// Reads the next token, skipping whitespace.
    pub fn next_token(&mut self) -> (r: Result<Token, Fail>)
        requires
            old(self).wf(),
        ensures
            final(self).wf(),
            final(self).source() == old(self).source(),
            match next_token_spec(old(self).source(), old(self).position()) {
                Ok((t, e)) => r matches Ok(tok) && tok@ == t && final(self).position() == e,
                Err(f) => r matches Err(fl) && fl@ == f,
            },
            next_token_spec(old(self).source(), old(self).position()) matches Err(Failure::Error(_))
                ==> final(self).position() == after_token(old(self).source(), old(self).position()),
    {
        let ghost s = self.input@;
        let ghost p0 = self.pos as int;
        let mut start = self.pos;
        let mut initial_line = self.line;
        let mut initial_col = self.col;
        proof {
            lemma_read_kind_whitespace(s, start as int);
            lemma_read_kind_bounds(s, start as int);
        }
        let mut kind = match self.read_kind() {
            Some(k) => k,
            None => return Err(Fail::Panic),
        };
        while kind == TokenKind::Whitespace
            invariant
                self.wf(),
                self.source() == s,
                s == old(self).source(),
                p0 == old(self).position(),
                start <= self.position(),
                next_token_spec(s, p0) == next_token_spec(s, start as int),
                after_token(s, p0) == after_token(s, start as int),
                read_kind_spec(s, start as int) == Some((kind, self.position())),
                initial_line == line_at(s, start as int),
                initial_col == col_at(s, start as int),
            decreases s.len() - start,
        {
            proof {
                lemma_read_kind_whitespace(s, start as int);
            }
            start = self.pos;
            initial_line = self.line;
            initial_col = self.col;
            proof {
                lemma_read_kind_whitespace(s, start as int);
                lemma_read_kind_bounds(s, start as int);
            }
            kind = match self.read_kind() {
                Some(k) => k,
                None => return Err(Fail::Panic),
            };
        }
        proof {
            lemma_read_kind_whitespace(s, start as int);
            lemma_read_kind_bounds(s, start as int);
        }
        let span = Span { x: start, y: self.pos, z: initial_line, w: initial_col };
        let bytes = slice_subrange(self.input, start, self.pos);
        let text = match utf8_str(bytes) {
            Some(t) => String::from_str(t),
            None => return Err(Fail::Panic),
        };
        if kind == TokenKind::Error {
            let mut why = String::from_str("cannot parse '");
            why.append(text.as_str());
            why.append("' into a token");
            return Err(Fail::Error(Error::parse(why, span)));
        }
        Ok(Token { kind, text, span })
    }
}

} // verus!

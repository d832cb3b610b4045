//! The lexer of the simple form: it reads tokens from source bytes,
//! skipping whitespace and counting lines.
use vstd::prelude::*;
use vstd::slice::slice_subrange;
use vstd::utf8::{decode_utf8, valid_utf8};
use crate::lexer::{
    is_digit, is_letter, is_whitespace_spec, peek_at, utf8_str, CARRIAGE_RETURN, COLON, DOT,
    EQUALS, FORM_FEED, GREATER, LEFT_BRACE, MINUS, NEWLINE, RIGHT_BRACE, SPACE, TAB, UNDERSCORE,
};
use crate::simple::{Span, Token, TokenKind};

verus! {

/// Bytes that may start a name: letters, `.`, `-` and `_`.
pub open spec fn is_name_start(c: u8) -> bool {
    is_letter(c) || c == DOT || c == MINUS || c == UNDERSCORE
}

/// The end of the run of number characters (digits, `.`, `_`) from `p`.
pub open spec fn digits_end(s: Seq<u8>, p: int) -> int
    decreases s.len() - p,
{
    if 0 <= p < s.len() && (is_digit(s[p]) || s[p] == DOT || s[p] == UNDERSCORE) {
        digits_end(s, p + 1)
    } else {
        p
    }
}

/// The end of the run of name characters (those that start one, and
/// digits) from `p`.
pub open spec fn name_end(s: Seq<u8>, p: int) -> int
    decreases s.len() - p,
{
    if 0 <= p < s.len() && (is_name_start(s[p]) || is_digit(s[p])) {
        name_end(s, p + 1)
    } else {
        p
    }
}

proof fn lemma_simple_runs(s: Seq<u8>, p: int)
    requires
        0 <= p <= s.len(),
    ensures
        p <= digits_end(s, p) <= s.len(),
        p <= name_end(s, p) <= s.len(),
    decreases s.len() - p,
{
    if p < s.len() {
        lemma_simple_runs(s, p + 1);
    }
}

/// The keyword a name spells, if it spells one.
pub open spec fn simple_word_kind(w: Seq<u8>) -> TokenKind {
    if w == seq![116u8, 114, 117, 101] {
        TokenKind::True
    } else if w == seq![102u8, 97, 108, 115, 101] {
        TokenKind::False
    } else if w == seq![110u8, 105, 108] {
        TokenKind::Nil
    } else if w == seq![116u8, 99, 112] {
        TokenKind::Tcp
    } else if w == seq![108u8, 101, 116] {
        TokenKind::Let
    } else {
        TokenKind::Identifier
    }
}

/// The kind of the token at `p` and where it ends.
pub open spec fn simple_read_kind(s: Seq<u8>, p: int) -> (TokenKind, int) {
    let c = peek_at(s, p);
    if c == 0 {
        (TokenKind::Eof, p)
    } else if c == MINUS {
        if peek_at(s, p + 1) == GREATER {
            (TokenKind::Arrow, p + 2)
        } else {
            (TokenKind::Error, p + 1)
        }
    } else if c == LEFT_BRACE {
        (TokenKind::LBrace, p + 1)
    } else if c == RIGHT_BRACE {
        (TokenKind::RBrace, p + 1)
    } else if c == COLON {
        (TokenKind::Colon, p + 1)
    } else if c == EQUALS {
        (TokenKind::Equals, p + 1)
    } else if is_digit(c) {
        (TokenKind::Number, digits_end(s, p + 1))
    } else if is_name_start(c) {
        let e = name_end(s, p + 1);
        (simple_word_kind(s.subrange(p, e)), e)
    } else if is_whitespace_spec(c) {
        (TokenKind::Whitespace, p + 1)
    } else {
        (TokenKind::Error, p)
    }
}

/// Bytes that form no token, reported with the line after the one they
/// stand on and their length as column.
pub struct LexErrorV {
    pub value: Seq<char>,
    pub line: int,
    pub col: int,
}

/// A token of the simple form: its kind, its text, and where it stands.
pub struct SimpleTokenV {
    pub kind: TokenKind,
    pub text: Seq<char>,
    pub span: Span,
}

/// The token at `p` once whitespace is skipped, or the error reported,
/// with the offset and the line count after it; `None` where reading
/// aborts.
pub open spec fn simple_next_token(s: Seq<u8>, p: int, line: int) -> Option<
    (Result<SimpleTokenV, LexErrorV>, int, int),
>
    decreases s.len() - p,
{
    if 0 <= p < s.len() && is_whitespace_spec(s[p]) {
        simple_next_token(s, p + 1, line + if s[p] == NEWLINE {
            1int
        } else {
            0int
        })
    } else {
        let (kind, e) = simple_read_kind(s, p);
        if kind == TokenKind::Error {
            if e < s.len() && valid_utf8(s.subrange(p, e + 1)) {
                Some(
                    (
                        Err(
                            LexErrorV {
                                value: decode_utf8(s.subrange(p, e + 1)) + " into a token"@,
                                line: line + 1,
                                col: e - p,
                            },
                        ),
                        e,
                        line,
                    ),
                )
            } else {
                None
            }
        } else if valid_utf8(s.subrange(p, e)) {
            Some(
                (
                    Ok(
                        SimpleTokenV {
                            kind,
                            text: decode_utf8(s.subrange(p, e)),
                            span: Span { start: p as usize, end: e as usize, line: line as usize },
                        },
                    ),
                    e,
                    line,
                ),
            )
        } else {
            None
        }
    }
}

/// Bytes that form no token.
#[derive(Debug)]
pub struct LexError {
    pub value: String,
    pub line: usize,
    pub col: usize,
}

/// Reads the simple form's tokens from source bytes.
pub struct Lexer<'a> {
    source: &'a [u8],
    len: usize,
    pos: usize,
    line: usize,
}

impl<'a> Lexer<'a> {
    /// The bytes the lexer reads.
    pub closed spec fn source(&self) -> Seq<u8> {
        self.source@
    }

    /// Where the lexer stands.
    pub closed spec fn position(&self) -> int {
        self.pos as int
    }

    /// The line count the lexer keeps.
    pub closed spec fn line(&self) -> int {
        self.line as int
    }

    /// The lexer stands within its source, and its line count never
    /// passes its position.
    pub closed spec fn wf(&self) -> bool {
        &&& self.len == self.source@.len()
        &&& self.pos <= self.len
        &&& self.line <= self.pos
    }

    pub fn new(source: &'a [u8]) -> (r: Self)
        ensures
            r.wf(),
            r.source() == source@,
            r.position() == 0,
            r.line() == 0,
    {
        Self { source, len: source.len(), pos: 0, line: 0 }
    }

    fn peek(&self) -> (c: u8)
        requires
            self.wf(),
        ensures
            c == peek_at(self.source(), self.position()),
    {
        if self.pos == self.len {
            return 0;
        }
        return self.source[self.pos];
    }

    fn peek_2(&self) -> (c: u8)
        requires
            self.wf(),
        ensures
            c == peek_at(self.source(), self.position() + 1),
    {
        if self.len == 0 || self.pos >= self.len - 1 {
            return 0;
        }
        return self.source[self.pos + 1];
    }

    fn bump(&mut self)
        requires
            old(self).wf(),
        ensures
            final(self).wf(),
            final(self).source() == old(self).source(),
            final(self).line() == old(self).line(),
            final(self).position() == if old(self).position() < old(self).source().len() {
                old(self).position() + 1
            } else {
                old(self).position()
            },
    {
        self.pos = if self.pos < self.len {
            self.pos + 1
        } else {
            self.len
        };
    }

    fn bump_peek(&mut self) -> (c: u8)
        requires
            old(self).wf(),
        ensures
            final(self).wf(),
            final(self).source() == old(self).source(),
            final(self).line() == old(self).line(),
            final(self).position() == if old(self).position() < old(self).source().len() {
                old(self).position() + 1
            } else {
                old(self).position()
            },
            c == peek_at(final(self).source(), final(self).position()),
    {
        self.bump();
        return self.peek();
    }

    /// Reads the kind of the token under the lexer.
    fn read_kind(&mut self) -> (k: TokenKind)
        requires
            old(self).wf(),
        ensures
            final(self).wf(),
            final(self).source() == old(self).source(),
            (k, final(self).position()) == simple_read_kind(old(self).source(), old(self).position()),
            final(self).line() == old(self).line() + if k == TokenKind::Whitespace && peek_at(
                old(self).source(),
                old(self).position(),
            ) == NEWLINE {
                1int
            } else {
                0int
            },
    {
        let ghost s = self.source@;
        let ghost p = self.pos as int;
        let mut c = self.peek();
        if c == 0 {
            return TokenKind::Eof;
        }
        if c == MINUS {
            self.bump();
            c = self.peek();
            if c == GREATER {
                self.bump();
                return TokenKind::Arrow;
            } else {
                return TokenKind::Error;
            }
        } else if c == LEFT_BRACE {
            self.bump();
            TokenKind::LBrace
        } else if c == RIGHT_BRACE {
            self.bump();
            TokenKind::RBrace
        } else if c == COLON {
            self.bump();
            TokenKind::Colon
        } else if c == EQUALS {
            self.bump();
            TokenKind::Equals
        } else if 48 <= c && c <= 57 {
            proof {
                lemma_simple_runs(s, p + 1);
            }
            c = self.bump_peek();
            while (48 <= c && c <= 57) || c == DOT || c == UNDERSCORE
                invariant
                    self.wf(),
                    self.source() == s,
                    self.line() == old(self).line(),
                    p + 1 <= self.position() <= digits_end(s, p + 1),
                    digits_end(s, self.position()) == digits_end(s, p + 1),
                    c == peek_at(s, self.position()),
                decreases s.len() - self.position(),
            {
                c = self.bump_peek();
                proof {
                    lemma_simple_runs(s, self.position());
                }
            }
            TokenKind::Number
        } else if (97 <= c && c <= 122) || (65 <= c && c <= 90) || c == DOT || c == MINUS || c
            == UNDERSCORE {
            let start = self.pos;
            proof {
                lemma_simple_runs(s, p + 1);
            }
            c = self.bump_peek();
            while (97 <= c && c <= 122) || (65 <= c && c <= 90) || c == DOT || c == MINUS || c
                == UNDERSCORE || (48 <= c && c <= 57)
                invariant
                    self.wf(),
                    self.source() == s,
                    self.line() == old(self).line(),
                    start == p,
                    p + 1 <= self.position() <= name_end(s, p + 1),
                    name_end(s, self.position()) == name_end(s, p + 1),
                    c == peek_at(s, self.position()),
                decreases s.len() - self.position(),
            {
                c = self.bump_peek();
                proof {
                    lemma_simple_runs(s, self.position());
                }
            }
            simple_word_kind_of(self.source, start, self.pos)
        } else if c == SPACE || c == TAB || c == NEWLINE || c == FORM_FEED || c
            == CARRIAGE_RETURN {
            self.bump();
            if c == NEWLINE {
                self.line += 1;
            }
            TokenKind::Whitespace
        } else {
            TokenKind::Error
        }
    }

    /// Reads the next token, skipping whitespace; `None` where reading
    /// aborts.
    pub fn next_token(&mut self) -> (r: Option<Result<Token<'a>, LexError>>)
        requires
            old(self).wf(),
        ensures
            final(self).wf(),
            final(self).source() == old(self).source(),
            match simple_next_token(old(self).source(), old(self).position(), old(self).line()) {
                None => r is None,
                Some((Err(v), e, l)) => r matches Some(Err(x)) && x.value@ == v.value && x.line
                    == v.line && x.col == v.col && final(self).position() == e && final(self).line()
                    == l,
                Some((Ok(t), e, l)) => r matches Some(Ok(x)) && x.kind == t.kind && x.text@ == t.text
                    && x.span == t.span && final(self).position() == e && final(self).line() == l,
            },
    {
        let ghost s = self.source@;
        let mut start = self.pos;
        let mut initial_line = self.line;
        proof {
            lemma_simple_read_kind(s, start as int);
        }
        let mut kind = self.read_kind();
        while kind == TokenKind::Whitespace
            invariant
                self.wf(),
                self.source() == s,
                s == old(self).source(),
                start <= self.position(),
                initial_line <= start,
                simple_read_kind(s, start as int) == (kind, self.position()),
                kind == TokenKind::Whitespace ==> start < s.len() && is_whitespace_spec(
                    s[start as int],
                ) && self.line() == initial_line + if s[start as int] == NEWLINE {
                    1int
                } else {
                    0int
                },
                kind != TokenKind::Whitespace ==> self.line() == initial_line && !(start < s.len()
                    && is_whitespace_spec(s[start as int])),
                simple_next_token(s, old(self).position(), old(self).line()) == simple_next_token(
                    s,
                    start as int,
                    initial_line as int,
                ),
            decreases s.len() - start,
        {
            start = self.pos;
            initial_line = self.line;
            proof {
                lemma_simple_read_kind(s, start as int);
            }
            kind = self.read_kind();
        }
        if kind == TokenKind::Error {
            if self.pos >= self.len {
                return None;
            }
            let bytes = slice_subrange(self.source, start, self.pos + 1);
            let value = match utf8_str(bytes) {
                Some(v) => v,
                None => return None,
            };
            let mut why = String::from_str(value);
            why.append(" into a token");
            return Some(Err(LexError { value: why, line: initial_line + 1, col: self.pos - start }));
        }
        let bytes = slice_subrange(self.source, start, self.pos);
        let text = match utf8_str(bytes) {
            Some(t) => t,
            None => return None,
        };
        Some(Ok(Token { kind, text, span: Span { start, end: self.pos, line: self.line } }))
    }
}

/// Whitespace is read as one whitespace token of one byte, and only
/// whitespace is; every token read stands within the source.
proof fn lemma_simple_read_kind(s: Seq<u8>, p: int)
    requires
        0 <= p <= s.len(),
    ensures
        (simple_read_kind(s, p).0 == TokenKind::Whitespace) <==> (p < s.len() && is_whitespace_spec(
            s[p],
        )),
        p < s.len() && is_whitespace_spec(s[p]) ==> simple_read_kind(s, p).1 == p + 1,
        p <= simple_read_kind(s, p).1 <= s.len(),
{
    let c = peek_at(s, p);
    if p < s.len() {
        lemma_simple_runs(s, p + 1);
    }
    if is_name_start(c) {
        let e = name_end(s, p + 1);
        lemma_simple_word_kind(s.subrange(p, e));
    }
}

/// A keyword reading never gives the whitespace kind.
proof fn lemma_simple_word_kind(w: Seq<u8>)
    ensures
        simple_word_kind(w) != TokenKind::Whitespace,
        simple_word_kind(w) != TokenKind::Error,
{
}

/// The keyword kind of the name that spans `start..end`.
#[verifier::spinoff_prover]
fn simple_word_kind_of(input: &[u8], start: usize, end: usize) -> (k: TokenKind)
    requires
        start <= end <= input@.len(),
    ensures
        k == simple_word_kind(input@.subrange(start as int, end as int)),
{
    let ghost w = input@.subrange(start as int, end as int);
    let n = end - start;
    if n == 4 && input[start] == 116 && input[start + 1] == 114 && input[start + 2] == 117
        && input[start + 3] == 101 {
        assert(w =~= seq![116u8, 114, 117, 101]);
        return TokenKind::True;
    }
    assert(w != seq![116u8, 114, 117, 101]) by {
        if w == seq![116u8, 114, 117, 101] {
            assert(w[0] == input@[start as int] && w[0] == 116);
            assert(w[1] == input@[start + 1] && w[1] == 114);
            assert(w[2] == input@[start + 2] && w[2] == 117);
            assert(w[3] == input@[start + 3] && w[3] == 101);
        }
    }
    if n == 5 && input[start] == 102 && input[start + 1] == 97 && input[start + 2] == 108
        && input[start + 3] == 115 && input[start + 4] == 101 {
        assert(w =~= seq![102u8, 97, 108, 115, 101]);
        return TokenKind::False;
    }
    assert(w != seq![102u8, 97, 108, 115, 101]) by {
        if w == seq![102u8, 97, 108, 115, 101] {
            assert(w[0] == input@[start as int] && w[0] == 102);
            assert(w[1] == input@[start + 1] && w[1] == 97);
            assert(w[2] == input@[start + 2] && w[2] == 108);
            assert(w[3] == input@[start + 3] && w[3] == 115);
            assert(w[4] == input@[start + 4] && w[4] == 101);
        }
    }
    if n == 3 && input[start] == 110 && input[start + 1] == 105 && input[start + 2] == 108 {
        assert(w =~= seq![110u8, 105, 108]);
        return TokenKind::Nil;
    }
    assert(w != seq![110u8, 105, 108]) by {
        if w == seq![110u8, 105, 108] {
            assert(w[0] == input@[start as int] && w[0] == 110);
            assert(w[1] == input@[start + 1] && w[1] == 105);
            assert(w[2] == input@[start + 2] && w[2] == 108);
        }
    }
    if n == 3 && input[start] == 116 && input[start + 1] == 99 && input[start + 2] == 112 {
        assert(w =~= seq![116u8, 99, 112]);
        return TokenKind::Tcp;
    }
    assert(w != seq![116u8, 99, 112]) by {
        if w == seq![116u8, 99, 112] {
            assert(w[0] == input@[start as int] && w[0] == 116);
            assert(w[1] == input@[start + 1] && w[1] == 99);
            assert(w[2] == input@[start + 2] && w[2] == 112);
        }
    }
    if n == 3 && input[start] == 108 && input[start + 1] == 101 && input[start + 2] == 116 {
        assert(w =~= seq![108u8, 101, 116]);
        return TokenKind::Let;
    }
    assert(w != seq![108u8, 101, 116]) by {
        if w == seq![108u8, 101, 116] {
            assert(w[0] == input@[start as int] && w[0] == 108);
            assert(w[1] == input@[start + 1] && w[1] == 101);
            assert(w[2] == input@[start + 2] && w[2] == 116);
        }
    }
    TokenKind::Identifier
}

} // verus!

//! Turns source text into a flat stream of tokens with byte spans.
use crate::diagnostics::{ErrorCode, ParseError};
use crate::span::Span;
use crate::text::{fits_spans, lemma_byte_at_full, byte_at, byte_len, lemma_byte_at_mono, lemma_byte_at_step, width_of};
use crate::token::{Delimiter, LiteralKind, Token, TokenKind};
use vstd::prelude::*;
use vstd::std_specs::iter::IteratorSpec;

verus! {

broadcast use vstd::std_specs::vec::group_vec_axioms, vstd::string::next_postcondition, vstd::string::axiom_spec_iter;

// ---------------------------------------------------------------------------
// Character classes
// ---------------------------------------------------------------------------

pub open spec fn is_whitespace_char(c: char) -> bool {
    ||| c == '\u{0009}'
    ||| c == '\u{000A}'
    ||| c == '\u{000B}'
    ||| c == '\u{000C}'
    ||| c == '\u{000D}'
    ||| c == '\u{0020}'
    ||| c == '\u{0085}'
    ||| c == '\u{200E}'
    ||| c == '\u{200F}'
    ||| c == '\u{2028}'
    ||| c == '\u{2029}'
}

/// Characters that end a symbol-like run: quotes, delimiters, `|`, `;`, comma.
pub open spec fn is_delimiting_char(c: char) -> bool {
    ||| c == '"'
    ||| c == ','
    ||| c == '\''
    ||| c == '`'
    ||| c == '('
    ||| c == ')'
    ||| c == '['
    ||| c == ']'
    ||| c == '{'
    ||| c == '}'
    ||| c == '|'
    ||| c == ';'
}

/// Whether a character beyond ASCII has a numeric general category (Nd, Nl, No).
pub uninterp spec fn unicode_numeric(c: char) -> bool;

/// Relies on `char::is_numeric`: whether `c` belongs to a numeric Unicode
/// category, which depends on the character alone.
#[verifier::external_body]
fn unicode_is_numeric(c: char) -> (r: bool)
    ensures
        r == unicode_numeric(c),
{
    c.is_numeric()
}

/// Numeric characters: the ASCII digits, and beyond ASCII those of a numeric
/// Unicode category.
pub open spec fn is_numeric_char(c: char) -> bool {
    if (c as u32) < 0x80 {
        '0' <= c <= '9'
    } else {
        unicode_numeric(c)
    }
}

pub fn is_numeric(c: char) -> (r: bool)
    ensures
        r == is_numeric_char(c),
{
    if (c as u32) < 0x80 {
        '0' <= c && c <= '9'
    } else {
        unicode_is_numeric(c)
    }
}

pub fn is_whitespace(c: char) -> (r: bool)
    ensures
        r == is_whitespace_char(c),
{
    c == '\u{0009}' || c == '\u{000A}' || c == '\u{000B}' || c == '\u{000C}' || c == '\u{000D}'
        || c == '\u{0020}' || c == '\u{0085}' || c == '\u{200E}' || c == '\u{200F}' || c
        == '\u{2028}' || c == '\u{2029}'
}

fn is_delimiting(c: char) -> (r: bool)
    ensures
        r == is_delimiting_char(c),
{
    c == '"' || c == ',' || c == '\'' || c == '`' || c == '(' || c == ')' || c == '[' || c == ']'
        || c == '{' || c == '}' || c == '|' || c == ';'
}

/// The runs of characters that the lexer consumes in one go.
#[derive(Clone, Copy, PartialEq, Eq, Structural)]
pub enum Run {
    Whitespace,
    /// Characters of a symbol-like sequence.
    Symbol,
    /// Up to the end of the line.
    Line,
    /// Inside a string literal.
    StringBody,
    /// Inside a number literal: numeric characters and `.`.
    Number,
    /// Anything but whitespace.
    NonWhitespace,
}

pub open spec fn in_run(c: char, run: Run) -> bool {
    match run {
        Run::Whitespace => is_whitespace_char(c),
        Run::Symbol => !is_delimiting_char(c) && !is_whitespace_char(c),
        Run::Line => c != '\n',
        Run::StringBody => c != '\n' && c != '"',
        Run::Number => is_numeric_char(c) || c == '.',
        Run::NonWhitespace => !is_whitespace_char(c),
    }
}

fn in_run_exec(c: char, run: Run) -> (r: bool)
    ensures
        r == in_run(c, run),
{
    match run {
        Run::Whitespace => is_whitespace(c),
        Run::Symbol => !is_delimiting(c) && !is_whitespace(c),
        Run::Line => c != '\n',
        Run::StringBody => c != '\n' && c != '"',
        Run::Number => is_numeric(c) || c == '.',
        Run::NonWhitespace => !is_whitespace(c),
    }
}

// ---------------------------------------------------------------------------
// The lexical grammar, over character positions
// ---------------------------------------------------------------------------

/// The first position at or after `i` whose character is not in `run`.
pub open spec fn run_end(cs: Seq<char>, i: int, run: Run) -> int
    decreases cs.len() - i,
{
    if 0 <= i < cs.len() && in_run(cs[i], run) {
        run_end(cs, i + 1, run)
    } else {
        i
    }
}

/// The character at `i`, or NUL past the end.
pub open spec fn peek_char(cs: Seq<char>, i: int) -> char {
    if 0 <= i < cs.len() {
        cs[i]
    } else {
        '\0'
    }
}

/// How the token that starts at a non-whitespace position ends.
pub enum Scan {
    /// A token of this kind ending at this position.
    Token(TokenKind, int),
    /// A string literal with no closing quote; the scan stopped at this position.
    Unterminated(int),
}

/// The token that starts at position `s` (which holds no whitespace).
pub open spec fn scan_token(cs: Seq<char>, s: int) -> Scan {
    let c = cs[s];
    let next = peek_char(cs, s + 1);
    if c == ';' {
        Scan::Token(TokenKind::LineComment, run_end(cs, s + 1, Run::Line))
    } else if c == '(' {
        Scan::Token(TokenKind::OpenDelimiter(Delimiter::Parenthesis), s + 1)
    } else if c == ')' {
        Scan::Token(TokenKind::CloseDelimiter(Delimiter::Parenthesis), s + 1)
    } else if c == '{' {
        Scan::Token(TokenKind::OpenDelimiter(Delimiter::Brace), s + 1)
    } else if c == '}' {
        Scan::Token(TokenKind::CloseDelimiter(Delimiter::Brace), s + 1)
    } else if c == '[' {
        Scan::Token(TokenKind::OpenDelimiter(Delimiter::Bracket), s + 1)
    } else if c == ']' {
        Scan::Token(TokenKind::CloseDelimiter(Delimiter::Bracket), s + 1)
    } else if c == '\'' {
        Scan::Token(TokenKind::Quote, s + 1)
    } else if c == '"' {
        let e = run_end(cs, s + 1, Run::StringBody);
        if e < cs.len() && cs[e] == '"' {
            Scan::Token(TokenKind::Literal(LiteralKind::String), e + 1)
        } else if e < cs.len() {
            Scan::Unterminated(e + 1)
        } else {
            Scan::Unterminated(e)
        }
    } else if is_numeric_char(c) || c == '-' {
        if c == '-' && !is_numeric_char(next) {
            Scan::Token(TokenKind::Sequence, run_end(cs, s + 1, Run::Symbol))
        } else {
            let e = run_end(cs, s + 1, Run::Number);
            if cs.subrange(s + 1, e).contains('.') {
                Scan::Token(TokenKind::Literal(LiteralKind::Float), e)
            } else {
                Scan::Token(TokenKind::Literal(LiteralKind::Integer), e)
            }
        }
    } else if c == '#' && (next == 't' || next == 'f') {
        Scan::Token(TokenKind::Literal(LiteralKind::Boolean), s + 2)
    } else if c == '#' && next == '\\' {
        Scan::Token(TokenKind::Literal(LiteralKind::Char), run_end(cs, s + 1, Run::NonWhitespace))
    } else {
        Scan::Token(TokenKind::Sequence, run_end(cs, s + 1, Run::Symbol))
    }
}

/// The span of character positions `s..e` of `cs`, in bytes.
pub open spec fn span_of(cs: Seq<char>, s: int, e: int) -> Span {
    Span { loc: byte_at(cs, s) as u32, len: (byte_at(cs, e) - byte_at(cs, s)) as u16 }
}

/// What lexing from position `i` yields next: a token with whether whitespace
/// preceded it and the position after it, or the span of an unterminated string.
pub open spec fn next_token_at(cs: Seq<char>, i: int) -> Result<(Token, bool, int), Span> {
    let s = run_end(cs, i, Run::Whitespace);
    if s >= cs.len() {
        Ok((Token { kind: TokenKind::Eof, span: span_of(cs, s, s) }, s > i, s))
    } else {
        match scan_token(cs, s) {
            Scan::Token(kind, e) => Ok((Token { kind, span: span_of(cs, s, e) }, s > i, e)),
            Scan::Unterminated(e) => Err(span_of(cs, s, e)),
        }
    }
}

/// The tokens of `cs` from position `i` on, ending with one end-of-file token.
pub open spec fn lex_from(cs: Seq<char>, i: int) -> Result<Seq<Token>, Span>
    decreases cs.len() - i,
{
    if i < 0 || i > cs.len() {
        Ok(seq![])
    } else {
        match next_token_at(cs, i) {
            Err(span) => Err(span),
            Ok((tok, _, e)) => if tok.kind is Eof || e <= i || e > cs.len() {
                Ok(seq![tok])
            } else {
                match lex_from(cs, e) {
                    Ok(rest) => Ok(seq![tok] + rest),
                    Err(span) => Err(span),
                }
            },
        }
    }
}

/// The tokens of a whole source text.
pub open spec fn lex(src: Seq<char>) -> Result<Seq<Token>, Span> {
    lex_from(src, 0)
}

pub open spec fn unterminated_message() -> Seq<char> {
    "unterminated double quote string"@
}

/// `e` is the lexer's error for an unterminated string at `span`.
pub open spec fn is_unterminated_error(e: ParseError, span: Span) -> bool {
    &&& e.says(unterminated_message(), Some(span))
    &&& e.code == Some(ErrorCode(1))
}

proof fn lemma_run_end_bounds(cs: Seq<char>, i: int, run: Run)
    requires
        0 <= i <= cs.len(),
    ensures
        i <= run_end(cs, i, run) <= cs.len(),
        forall|k: int| i <= k < run_end(cs, i, run) ==> in_run(#[trigger] cs[k], run),
        run_end(cs, i, run) < cs.len() ==> !in_run(cs[run_end(cs, i, run)], run),
    decreases cs.len() - i,
{
    if i < cs.len() && in_run(cs[i], run) {
        lemma_run_end_bounds(cs, i + 1, run);
    }
}

proof fn lemma_scan_advances(cs: Seq<char>, s: int)
    requires
        0 <= s < cs.len(),
    ensures
        match scan_token(cs, s) {
            Scan::Token(_, e) => s < e <= cs.len(),
            Scan::Unterminated(e) => s < e <= cs.len(),
        },
{
    lemma_run_end_bounds(cs, s + 1, Run::Line);
    lemma_run_end_bounds(cs, s + 1, Run::StringBody);
    lemma_run_end_bounds(cs, s + 1, Run::Symbol);
    lemma_run_end_bounds(cs, s + 1, Run::Number);
    lemma_run_end_bounds(cs, s + 1, Run::NonWhitespace);
}

// ---------------------------------------------------------------------------
// The lexer
// ---------------------------------------------------------------------------

/// Reads tokens one at a time from a source text.
pub struct Lexer {
    chars: Vec<char>,
    pos: usize,
    /// Byte offset of the next unread character.
    pub loc: u32,
}

impl Lexer {
    pub closed spec fn chars(&self) -> Seq<char> {
        self.chars@
    }

    pub closed spec fn pos(&self) -> int {
        self.pos as int
    }

    pub closed spec fn wf(&self) -> bool {
        &&& self.pos <= self.chars@.len()
        &&& self.loc == byte_at(self.chars@, self.pos as int)
        &&& byte_len(self.chars@) <= u32::MAX
    }

    pub fn new(src: &str) -> (r: Lexer)
        requires
            byte_len(src@) <= u32::MAX,
        ensures
            r.wf(),
            r.chars() == src@,
            r.pos() == 0,
    {
        let mut chars: Vec<char> = Vec::new();
        for c in it: src.chars()
            invariant
                it.seq() == src@,
                chars@ == src@.take(it.index() as int),
        {
            chars.push(c);
        }
        assert(chars@ =~= src@);
        proof {
            assert(chars@.take(0) =~= Seq::<char>::empty());
        }
        Lexer { chars, pos: 0, loc: 0 }
    }

    fn peek_at(&self, i: usize) -> (r: char)
        requires
            self.wf(),
        ensures
            r == peek_char(self.chars@, i as int),
    {
        if i < self.chars.len() {
            self.chars[i]
        } else {
            '\0'
        }
    }

    fn run_end_from(&self, i: usize, run: Run) -> (r: usize)
        requires
            self.wf(),
            i <= self.chars@.len(),
        ensures
            r == run_end(self.chars@, i as int, run),
            i <= r <= self.chars@.len(),
    {
        let mut j = i;
        while j < self.chars.len() && in_run_exec(self.chars[j], run)
            invariant
                self.wf(),
                i <= j <= self.chars@.len(),
                run_end(self.chars@, j as int, run) == run_end(self.chars@, i as int, run),
            decreases self.chars@.len() - j,
        {
            j = j + 1;
        }
        j
    }

    fn contains_dot(&self, a: usize, b: usize) -> (r: bool)
        requires
            self.wf(),
            a <= b <= self.chars@.len(),
        ensures
            r == self.chars@.subrange(a as int, b as int).contains('.'),
    {
        let mut k = a;
        while k < b
            invariant
                self.wf(),
                a <= k <= b <= self.chars@.len(),
                forall|m: int| a <= m < k ==> self.chars@[m] != '.',
            decreases b - k,
        {
            if self.chars[k] == '.' {
                assert(self.chars@.subrange(a as int, b as int)[k - a] == '.');
                return true;
            }
            k = k + 1;
        }
        assert forall|m: int| 0 <= m < b - a implies self.chars@.subrange(a as int, b as int)[m] != '.' by {
            assert(self.chars@.subrange(a as int, b as int)[m] == self.chars@[a + m]);
        }
        false
    }

    /// Scans the token that starts at `s`: its kind and end, or the end of an
    /// unterminated string.
    fn scan(&self, s: usize) -> (r: Result<(TokenKind, usize), usize>)
        requires
            self.wf(),
            s < self.chars@.len(),
        ensures
            match (r, scan_token(self.chars@, s as int)) {
                (Ok((k, e)), Scan::Token(k2, e2)) => k == k2 && e == e2,
                (Err(e), Scan::Unterminated(e2)) => e == e2,
                _ => false,
            },
    {
        let ghost cs = self.chars@;
        let n = self.chars.len();
        let c = self.chars[s];
        let next = self.peek_at(s + 1);
        if c == ';' {
            Ok((TokenKind::LineComment, self.run_end_from(s + 1, Run::Line)))
        } else if c == '(' {
            Ok((TokenKind::OpenDelimiter(Delimiter::Parenthesis), s + 1))
        } else if c == ')' {
            Ok((TokenKind::CloseDelimiter(Delimiter::Parenthesis), s + 1))
        } else if c == '{' {
            Ok((TokenKind::OpenDelimiter(Delimiter::Brace), s + 1))
        } else if c == '}' {
            Ok((TokenKind::CloseDelimiter(Delimiter::Brace), s + 1))
        } else if c == '[' {
            Ok((TokenKind::OpenDelimiter(Delimiter::Bracket), s + 1))
        } else if c == ']' {
            Ok((TokenKind::CloseDelimiter(Delimiter::Bracket), s + 1))
        } else if c == '\'' {
            Ok((TokenKind::Quote, s + 1))
        } else if c == '"' {
            let e = self.run_end_from(s + 1, Run::StringBody);
            if e < self.chars.len() && self.chars[e] == '"' {
                Ok((TokenKind::Literal(LiteralKind::String), e + 1))
            } else if e < self.chars.len() {
                Err(e + 1)
            } else {
                Err(e)
            }
        } else if is_numeric(c) || c == '-' {
            if c == '-' && !is_numeric(next) {
                Ok((TokenKind::Sequence, self.run_end_from(s + 1, Run::Symbol)))
            } else {
                let e = self.run_end_from(s + 1, Run::Number);
                if self.contains_dot(s + 1, e) {
                    Ok((TokenKind::Literal(LiteralKind::Float), e))
                } else {
                    Ok((TokenKind::Literal(LiteralKind::Integer), e))
                }
            }
        } else if c == '#' && (next == 't' || next == 'f') {
            assert(s + 1 < n);
            Ok((TokenKind::Literal(LiteralKind::Boolean), s + 2))
        } else if c == '#' && next == '\\' {
            Ok((TokenKind::Literal(LiteralKind::Char), self.run_end_from(s + 1, Run::NonWhitespace)))
        } else {
            Ok((TokenKind::Sequence, self.run_end_from(s + 1, Run::Symbol)))
        }
    }

    /// Byte offset of character position `i`, counted on from the current one.
    fn offset_of(&self, i: usize) -> (r: u32)
        requires
            self.wf(),
            self.pos <= i <= self.chars@.len(),
        ensures
            r == byte_at(self.chars@, i as int),
    {
        let mut k = self.pos;
        let mut loc = self.loc;
        while k < i
            invariant
                self.wf(),
                self.pos <= k <= i <= self.chars@.len(),
                loc == byte_at(self.chars@, k as int),
            decreases i - k,
        {
            proof {
                lemma_byte_at_step(self.chars@, k as int);
                lemma_byte_at_mono(self.chars@, k + 1, self.chars@.len() as int);
                lemma_byte_at_full(self.chars@);
            }
            loc = loc + width_of(self.chars[k]);
            k = k + 1;
        }
        loc
    }

    /// Lexes the next token, and tells whether whitespace preceded it.
    pub fn next_token(&mut self) -> (r: Result<(Token, bool), ParseError>)
        requires
            old(self).wf(),
        ensures
            final(self).wf(),
            final(self).chars() == old(self).chars(),
            match (r, next_token_at(old(self).chars(), old(self).pos())) {
                (Ok((t, w)), Ok((t2, w2, e))) => t == t2 && w == w2 && final(self).pos() == e,
                (Err(err), Err(span)) => is_unterminated_error(err, span),
                _ => false,
            },
    {
        let ghost cs = self.chars@;
        let start = self.pos;
        let s = self.run_end_from(start, Run::Whitespace);
        proof {
            lemma_byte_at_mono(cs, start as int, s as int);
        }
        let sloc = self.offset_of(s);
        if s >= self.chars.len() {
            self.pos = s;
            self.loc = sloc;
            return Ok((Token::new(TokenKind::Eof, sloc, 0), s > start));
        }
        proof {
            lemma_scan_advances(cs, s as int);
        }
        match self.scan(s) {
            Ok((kind, e)) => {
                proof {
                    lemma_byte_at_mono(cs, s as int, e as int);
                }
                let eloc = self.offset_of(e);
                self.pos = e;
                self.loc = eloc;
                Ok((Token::new(kind, sloc, (eloc - sloc) as u16), s > start))
            },
            Err(e) => {
                proof {
                    lemma_byte_at_mono(cs, s as int, e as int);
                }
                let eloc = self.offset_of(e);
                let span = Span { loc: sloc, len: (eloc - sloc) as u16 };
                Err(ParseError::new("unterminated double quote string".to_owned(), Some(span)).with_code(1))
            },
        }
    }
}

pub open spec fn too_long_message() -> Seq<char> {
    "source text is too long"@
}

/// Splits `src` into tokens, ending with one end-of-file token.
pub fn tokenize(src: &str) -> (r: Result<Vec<Token>, ParseError>)
    ensures
        byte_len(src@) > u32::MAX ==> r is Err && r->Err_0.says(too_long_message(), None),
        byte_len(src@) <= u32::MAX ==> match (r, lex(src@)) {
            (Ok(tokens), Ok(expected)) => tokens@ == expected,
            (Err(err), Err(span)) => is_unterminated_error(err, span),
            _ => false,
        },
{
    if !fits_spans(src) {
        return Err(ParseError::new("source text is too long".to_owned(), None));
    }
    let mut lexer = Lexer::new(src);
    let mut tokens: Vec<Token> = Vec::new();
    loop
        invariant
            lexer.wf(),
            lexer.chars() == src@,
            0 <= lexer.pos() <= src@.len(),
            lex(src@) == match lex_from(src@, lexer.pos()) {
                Ok(rest) => Ok(tokens@ + rest),
                Err(span) => Err(span),
            },
        decreases src@.len() - lexer.pos(),
    {
        let ghost before = lexer.pos();
        let ghost old_tokens = tokens@;
        proof {
            let s = run_end(src@, before, Run::Whitespace);
            lemma_run_end_bounds(src@, before, Run::Whitespace);
            if s < src@.len() {
                lemma_scan_advances(src@, s);
            }
        }
        let (token, _) = match lexer.next_token() {
            Ok(t) => t,
            Err(e) => {
                return Err(e);
            },
        };
        tokens.push(token);
        if token.is_eof() {
            proof {
                assert(tokens@ =~= old_tokens + seq![token]);
            }
            return Ok(tokens);
        }
        proof {
            assert(tokens@ =~= old_tokens + seq![token]);
            match lex_from(src@, lexer.pos()) {
                Ok(rest) => {
                    assert(old_tokens + (seq![token] + rest) =~= tokens@ + rest);
                },
                Err(_) => {},
            }
        }
    }
}

} // verus!

//! Reading tokens into s-expressions, and lowering those to the operation IR.
use crate::ast::{
    Ast, Decimal, MatchBranch, OpKindV, Operation, OperationKind, OperationV, Statement,
    StatementKind, StatementKindV, StatementV, Value, ValueV, ops_view, statements_view,
    strings_view, values_view,
};
use crate::diagnostics::ParseError;
use crate::lexer::tokenize;
use crate::render::{int_text, push_digits};
use crate::span::Span;
use crate::text::{slice_span, span_fits, span_text};
use crate::token::{LiteralKind, Token, TokenKind};
use std::rc::Rc;
use vstd::prelude::*;
use vstd::std_specs::iter::IteratorSpec;

verus! {

broadcast use vstd::std_specs::vec::group_vec_axioms;

/// An error as the parser's specification speaks of it: message and span.
pub type Fail = (Seq<char>, Option<Span>);

/// `e` carries the message and span of `f`.
pub open spec fn fails_with(e: ParseError, f: Fail) -> bool {
    e.message@ == f.0 && e.span == f.1
}

// ---------------------------------------------------------------------------
// Token streams
// ---------------------------------------------------------------------------

/// The tokens of a program with the comments left out, read front to back.
#[derive(Clone)]
pub struct TokenStream {
    tokens: Vec<Token>,
    loc: usize,
}

pub open spec fn eof_token() -> Token {
    Token { kind: TokenKind::Eof, span: Span { loc: 0, len: 0 } }
}

/// `tokens` without its comments.
pub open spec fn without_comments(tokens: Seq<Token>) -> Seq<Token> {
    tokens.filter(|t: Token| !(t.kind is LineComment))
}

/// The token at `i`, or an end-of-file token past the end.
pub open spec fn token_at(toks: Seq<Token>, i: int) -> Token {
    if 0 <= i < toks.len() {
        toks[i]
    } else {
        eof_token()
    }
}

impl TokenStream {
    pub closed spec fn tokens(&self) -> Seq<Token> {
        self.tokens@
    }

    pub closed spec fn loc(&self) -> int {
        self.loc as int
    }

    pub fn new(tokens: Vec<Token>) -> (r: TokenStream)
        ensures
            r.tokens() == without_comments(tokens@),
            r.loc() == 0,
    {
        let mut kept: Vec<Token> = Vec::new();
        let mut i: usize = 0;
        while i < tokens.len()
            invariant
                i <= tokens@.len(),
                kept@ == without_comments(tokens@.take(i as int)),
            decreases tokens@.len() - i,
        {
            let t = tokens[i];
            proof {
                assert(tokens@.take(i + 1) =~= tokens@.take(i as int).push(t));
                reveal(Seq::filter);
                assert(without_comments(tokens@.take(i + 1)) == if !(t.kind is LineComment) {
                    without_comments(tokens@.take(i as int)).push(t)
                } else {
                    without_comments(tokens@.take(i as int))
                }) by {
                    let s = tokens@.take(i + 1);
                    assert(s.drop_last() =~= tokens@.take(i as int));
                }
            }
            if !t.is_comment() {
                kept.push(t);
            }
            i = i + 1;
        }
        proof {
            assert(tokens@.take(tokens@.len() as int) =~= tokens@);
        }
        TokenStream { tokens: kept, loc: 0 }
    }

    /// The next token that is not a comment, or end of file past the end.
    pub fn next(&mut self) -> (r: Token)
        ensures
            r == token_at(old(self).tokens(), old(self).loc()),
            final(self).tokens() == old(self).tokens(),
            final(self).loc() == if old(self).loc() < old(self).tokens().len() {
                old(self).loc() + 1
            } else {
                old(self).loc()
            },
    {
        if self.loc < self.tokens.len() {
            let t = self.tokens[self.loc];
            self.loc = self.loc + 1;
            t
        } else {
            Token::new(TokenKind::Eof, 0, 0)
        }
    }
}


// ---------------------------------------------------------------------------
// Literal text
// ---------------------------------------------------------------------------

pub open spec fn is_digit(c: char) -> bool {
    '0' <= c <= '9'
}

pub open spec fn all_digits(s: Seq<char>) -> bool {
    forall|i: int| 0 <= i < s.len() ==> is_digit(#[trigger] s[i])
}

/// The number that a run of decimal digits spells.
pub open spec fn digits_value(s: Seq<char>) -> nat
    decreases s.len(),
{
    if s.len() == 0 {
        0
    } else {
        digits_value(s.drop_last()) * 10 + (s.last() as nat - '0' as nat) as nat
    }
}

/// The integer an integer literal denotes: an optional `-` and one or more
/// ASCII digits, within 64 bits.
pub open spec fn parse_int(t: Seq<char>) -> Option<i64> {
    let neg = t.len() > 0 && t[0] == '-';
    let ds = if neg { t.skip(1) } else { t };
    if ds.len() == 0 || !all_digits(ds) {
        None
    } else {
        let v: int = if neg { -(digits_value(ds) as int) } else { digits_value(ds) as int };
        if i64::MIN <= v <= i64::MAX {
            Some(v as i64)
        } else {
            None
        }
    }
}

/// The number a float literal denotes: an optional `-`, digits, one `.` and
/// digits, as a decimal in normal form.
/// The position of the first `.` of `s` at or after `i`, or `s.len()`.
pub open spec fn find_dot(s: Seq<char>, i: int) -> int
    decreases s.len() - i,
{
    if i < 0 || i >= s.len() {
        s.len() as int
    } else if s[i] == '.' {
        i
    } else {
        find_dot(s, i + 1)
    }
}

/// The number a float literal denotes: an optional `-`, digits, one `.` and
/// digits, as a decimal in normal form.
pub open spec fn parse_decimal(t: Seq<char>) -> Option<Decimal> {
    let neg = t.len() > 0 && t[0] == '-';
    let body = if neg { t.skip(1) } else { t };
    let k = find_dot(body, 0);
    if k >= body.len() {
        None
    } else {
        let whole = body.take(k);
        let frac = body.skip(k + 1);
        let ds = whole + frac;
        if whole.len() == 0 || !all_digits(ds) || frac.len() > u32::MAX {
            None
        } else {
            let v: int = if neg { -(digits_value(ds) as int) } else { digits_value(ds) as int };
            if i64::MIN <= v <= i64::MAX {
                Some(crate::value::norm(Decimal { mantissa: v as i64, scale: frac.len() as u32 }))
            } else {
                None
            }
        }
    }
}

pub open spec fn trim_start_quotes(t: Seq<char>) -> Seq<char>
    decreases t.len(),
{
    if t.len() > 0 && t[0] == '"' {
        trim_start_quotes(t.skip(1))
    } else {
        t
    }
}

pub open spec fn trim_end_quotes(t: Seq<char>) -> Seq<char>
    decreases t.len(),
{
    if t.len() > 0 && t.last() == '"' {
        trim_end_quotes(t.drop_last())
    } else {
        t
    }
}

/// A string literal's contents: the text without its quotes at either end.
pub open spec fn string_contents(t: Seq<char>) -> Seq<char> {
    trim_end_quotes(trim_start_quotes(t))
}

/// The text after every leading `#\`.
pub open spec fn strip_char_prefix(t: Seq<char>) -> Seq<char>
    decreases t.len(),
{
    if t.len() >= 2 && t[0] == '#' && t[1] == '\\' {
        strip_char_prefix(t.skip(2))
    } else {
        t
    }
}

/// The characters with a name in character literals.
pub open spec fn named_char(name: Seq<char>) -> Option<char> {
    if name == "alarm"@ {
        Some('\x07')
    } else if name == "backspace"@ {
        Some('\x08')
    } else if name == "delete"@ {
        Some('\x7F')
    } else if name == "escape"@ {
        Some('\x1B')
    } else if name == "newline"@ {
        Some('\n')
    } else if name == "null"@ {
        Some('\0')
    } else if name == "return"@ {
        Some('\r')
    } else if name == "space"@ {
        Some(' ')
    } else if name == "tab"@ {
        Some('\t')
    } else {
        None
    }
}

/// The character a character literal denotes.
pub open spec fn parse_char(t: Seq<char>) -> Option<char> {
    let c = strip_char_prefix(t);
    if c.len() == 1 {
        Some(c[0])
    } else {
        named_char(c)
    }
}

fn chars_of(s: &str) -> (r: Vec<char>)
    ensures
        r@ == s@,
{
    let mut out: Vec<char> = Vec::new();
    for c in it: s.chars()
        invariant
            it.seq() == s@,
            out@ == s@.take(it.index() as int),
    {
        out.push(c);
    }
    assert(out@ =~= s@);
    out
}

proof fn lemma_digits_value_mono(s: Seq<char>, i: int, j: int)
    requires
        0 <= i <= j <= s.len(),
    ensures
        digits_value(s.take(i)) <= digits_value(s.take(j)),
    decreases j - i,
{
    if i < j {
        lemma_digits_value_mono(s, i, j - 1);
        assert(s.take(j).drop_last() =~= s.take(j - 1));
    }
}

/// The value of the digits `cs[from..]` if they are all ASCII digits and the
/// value is at most `2^63`.
fn digits_at(cs: &Vec<char>, from: usize) -> (r: Option<u64>)
    requires
        from <= cs@.len(),
    ensures
        match r {
            Some(v) => all_digits(cs@.skip(from as int)) && v as nat == digits_value(cs@.skip(from as int))
                && v <= 0x8000_0000_0000_0000u64,
            None => !all_digits(cs@.skip(from as int)) || digits_value(cs@.skip(from as int))
                > 0x8000_0000_0000_0000u64,
        },
{
    let ghost ds = cs@.skip(from as int);
    let mut acc: u64 = 0;
    let mut i = from;
    while i < cs.len()
        invariant
            from <= i <= cs@.len(),
            ds == cs@.skip(from as int),
            all_digits(ds.take(i - from)),
            acc as nat == digits_value(ds.take(i - from)),
            acc <= 0x8000_0000_0000_0000u64,
        decreases cs@.len() - i,
    {
        let c = cs[i];
        let k = i - from;
        proof {
            assert(ds.take(k + 1).drop_last() =~= ds.take(k as int));
            assert(ds[k as int] == c);
        }
        if !('0' <= c && c <= '9') {
            proof {
                assert(!is_digit(ds[k as int]));
            }
            return None;
        }
        let d = (c as u32 - '0' as u32) as u64;
        if acc > (0x8000_0000_0000_0000u64 - d) / 10 {
            proof {
                assert(digits_value(ds.take(k + 1)) > 0x8000_0000_0000_0000u64) by (nonlinear_arith)
                    requires
                        digits_value(ds.take(k + 1)) == acc * 10 + d,
                        acc > (0x8000_0000_0000_0000u64 - d) / 10,
                        d <= 9,
                ;
                lemma_digits_value_mono(ds, k + 1, ds.len() as int);
                assert(ds.take(ds.len() as int) =~= ds);
            }
            return None;
        }
        acc = acc * 10 + d;
        i = i + 1;
        proof {
            assert forall|m: int| 0 <= m < ds.take(i - from).len() implies is_digit(
                #[trigger] ds.take(i - from)[m],
            ) by {
                if m < k {
                    assert(ds.take(i - from)[m] == ds.take(k as int)[m]);
                }
            }
        }
    }
    proof {
        assert(ds.take(cs@.len() - from) =~= ds);
    }
    Some(acc)
}

/// Decodes an integer literal.
pub fn parse_int_text(t: &Vec<char>) -> (r: Option<i64>)
    ensures
        r == parse_int(t@),
{
    let neg = t.len() > 0 && t[0] == '-';
    let from: usize = if neg { 1 } else { 0 };
    proof {
        if !neg {
            assert(t@.skip(0) =~= t@);
        }
    }
    if from == t.len() {
        return None;
    }
    match digits_at(t, from) {
        None => None,
        Some(v) => {
            if neg {
                if v == 0x8000_0000_0000_0000u64 {
                    Some(i64::MIN)
                } else {
                    Some(0 - (v as i64))
                }
            } else if v > 0x7FFF_FFFF_FFFF_FFFFu64 {
                None
            } else {
                Some(v as i64)
            }
        },
    }
}


fn collect(t: &Vec<char>, a: usize, b: usize) -> (r: Vec<char>)
    requires
        a <= b <= t@.len(),
    ensures
        r@ == t@.subrange(a as int, b as int),
{
    let mut out: Vec<char> = Vec::new();
    let mut i = a;
    while i < b
        invariant
            a <= i <= b <= t@.len(),
            out@ == t@.subrange(a as int, i as int),
        decreases b - i,
    {
        out.push(t[i]);
        i = i + 1;
        assert(out@ =~= t@.subrange(a as int, i as int));
    }
    out
}

fn to_string(t: &Vec<char>) -> (r: String)
    ensures
        r@ == t@,
{
    let mut s = String::new();
    let mut i: usize = 0;
    while i < t.len()
        invariant
            i <= t@.len(),
            s@ == t@.take(i as int),
        decreases t@.len() - i,
    {
        s.push(t[i]);
        i = i + 1;
        assert(s@ =~= t@.take(i as int));
    }
    assert(t@.take(t@.len() as int) =~= t@);
    s
}

/// Decodes a float literal.
pub fn parse_decimal_text(t: &Vec<char>) -> (r: Option<Decimal>)
    ensures
        r == parse_decimal(t@),
{
    let neg = t.len() > 0 && t[0] == '-';
    let from: usize = if neg { 1 } else { 0 };
    let ghost body = if neg { t@.skip(1) } else { t@ };
    proof {
        if !neg {
            assert(t@.skip(0) =~= t@);
        }
    }
    let body_v = collect(t, from, t.len());
    assert(body_v@ =~= body);
    let mut k: usize = 0;
    while k < body_v.len() && body_v[k] != '.'
        invariant
            k <= body_v@.len(),
            body_v@ == body,
            find_dot(body, 0) == find_dot(body, k as int),
        decreases body_v@.len() - k,
    {
        k = k + 1;
    }
    if k == body_v.len() {
        return None;
    }
    let whole = collect(&body_v, 0, k);
    let frac = collect(&body_v, k + 1, body_v.len());
    let mut ds = whole;
    let mut fr = collect(&body_v, k + 1, body_v.len());
    ds.append(&mut fr);
    proof {
        assert(whole@ =~= body.take(k as int));
        assert(frac@ =~= body.skip(k + 1));
        assert(ds@ =~= body.take(k as int) + body.skip(k + 1));
    }
    let digits = digits_at(&ds, 0);
    proof {
        assert(ds@.skip(0) =~= ds@);
    }
    if k == 0 || frac.len() > u32::MAX as usize {
        return None;
    }
    match digits {
        None => None,
        Some(v) => {
            let m: i64 = if neg {
                if v == 0x8000_0000_0000_0000u64 {
                    i64::MIN
                } else {
                    0 - (v as i64)
                }
            } else if v > 0x7FFF_FFFF_FFFF_FFFFu64 {
                return None;
            } else {
                v as i64
            };
            Some(Decimal { mantissa: m, scale: frac.len() as u32 }.normalize())
        },
    }
}

/// Decodes a string literal: its text without the quotes at either end.
pub fn string_text(t: &Vec<char>) -> (r: String)
    ensures
        r@ == string_contents(t@),
{
    let mut a: usize = 0;
    proof {
        assert(t@.skip(0) =~= t@);
    }
    while a < t.len() && t[a] == '"'
        invariant
            a <= t@.len(),
            trim_start_quotes(t@) == trim_start_quotes(t@.skip(a as int)),
        decreases t@.len() - a,
    {
        proof {
            assert(t@.skip(a as int).skip(1) =~= t@.skip(a + 1));
        }
        a = a + 1;
    }
    proof {
        assert(t@.skip(0) =~= t@);
    }
    let mut b: usize = t.len();
    while b > a && t[b - 1] == '"'
        invariant
            a <= b <= t@.len(),
            trim_start_quotes(t@) == t@.skip(a as int),
            string_contents(t@) == trim_end_quotes(t@.subrange(a as int, b as int)),
        decreases b,
    {
        proof {
            assert(t@.subrange(a as int, b as int).drop_last() =~= t@.subrange(a as int, b - 1));
        }
        b = b - 1;
    }
    let out = collect(t, a, b);
    to_string(&out)
}

/// Decodes a character literal.
pub fn char_text(t: &Vec<char>) -> (r: Option<char>)
    ensures
        r == parse_char(t@),
{
    let mut a: usize = 0;
    let len = t.len();
    proof {
        assert(t@.skip(0) =~= t@);
    }
    while len - a >= 2 && t[a] == '#' && t[a + 1] == '\\'
        invariant
            len == t@.len(),
            a <= t@.len(),
            strip_char_prefix(t@) == strip_char_prefix(t@.skip(a as int)),
        decreases t@.len() - a,
    {
        proof {
            assert(t@.skip(a as int).skip(2) =~= t@.skip(a + 2));
        }
        a = a + 2;
    }
    proof {
        assert(t@.skip(0) =~= t@);
    }
    let rest = collect(t, a, t.len());
    proof {
        assert(rest@ =~= t@.skip(a as int));
    }
    if rest.len() == 1 {
        return Some(rest[0]);
    }
    let name = to_string(&rest);
    named(name.as_str())
}

fn named(n: &str) -> (r: Option<char>)
    ensures
        r == named_char(n@),
{
    if n.eq("alarm") {
        Some('\x07')
    } else if n.eq("backspace") {
        Some('\x08')
    } else if n.eq("delete") {
        Some('\x7F')
    } else if n.eq("escape") {
        Some('\x1B')
    } else if n.eq("newline") {
        Some('\n')
    } else if n.eq("null") {
        Some('\0')
    } else if n.eq("return") {
        Some('\r')
    } else if n.eq("space") {
        Some(' ')
    } else if n.eq("tab") {
        Some('\t')
    } else {
        None
    }
}


// ---------------------------------------------------------------------------
// S-expressions
// ---------------------------------------------------------------------------

pub enum ParserValueKind {
    Value(Value),
    Symbol(String),
    /// Delimited by parentheses (or braces).
    List(Vec<ParserValue>),
    /// Delimited by brackets.
    Vector(Vec<ParserValue>),
}

/// An s-expression as read, with its source span.
pub struct ParserValue {
    pub kind: ParserValueKind,
    pub span: Span,
}

pub enum PVKind {
    Value(ValueV),
    Symbol(Seq<char>),
    List(Seq<PV>),
    Vector(Seq<PV>),
}

/// The view of a `ParserValue`.
pub struct PV {
    pub kind: PVKind,
    pub span: Span,
}

pub open spec fn pv_view(v: ParserValue) -> PV
    decreases v,
{
    PV {
        kind: match v.kind {
            ParserValueKind::Value(x) => PVKind::Value(x@),
            ParserValueKind::Symbol(s) => PVKind::Symbol(s@),
            ParserValueKind::List(xs) => PVKind::List(pvs_view(xs@)),
            ParserValueKind::Vector(xs) => PVKind::Vector(pvs_view(xs@)),
        },
        span: v.span,
    }
}

pub open spec fn pvs_view(s: Seq<ParserValue>) -> Seq<PV>
    decreases s,
{
    if s.len() == 0 {
        Seq::empty()
    } else {
        pvs_view(s.drop_last()).push(pv_view(s.last()))
    }
}

impl View for ParserValue {
    type V = PV;

    open spec fn view(&self) -> PV {
        pv_view(*self)
    }
}

pub proof fn lemma_pvs_view(s: Seq<ParserValue>)
    ensures
        pvs_view(s).len() == s.len(),
        forall|k: int| 0 <= k < s.len() ==> #[trigger] pvs_view(s)[k] == s[k]@,
    decreases s.len(),
{
    if s.len() > 0 {
        lemma_pvs_view(s.drop_last());
    }
}

impl ParserValue {
    pub fn sym(sym: String, span: Span) -> (r: ParserValue)
        ensures
            r@ == (PV { kind: PVKind::Symbol(sym@), span }),
    {
        ParserValue { kind: ParserValueKind::Symbol(sym), span }
    }

    pub fn list(values: Vec<ParserValue>, span: Span) -> (r: ParserValue)
        ensures
            r@ == (PV { kind: PVKind::List(pvs_view(values@)), span }),
    {
        ParserValue { kind: ParserValueKind::List(values), span }
    }
}

// ---------------------------------------------------------------------------
// Reading
// ---------------------------------------------------------------------------

/// From the start of `a` to the end of `b` (empty when `b` ends before `a`).
pub open spec fn join(a: Span, b: Span) -> Span {
    Span { loc: a.loc, len: if b.end() >= a.loc { (b.end() - a.loc) as u16 } else { 0 } }
}

fn join_spans(a: Span, b: Span) -> (r: Span)
    ensures
        r == join(a, b),
{
    let end: u64 = b.loc as u64 + b.len as u64;
    if end >= a.loc as u64 {
        Span { loc: a.loc, len: (end - a.loc as u64) as u16 }
    } else {
        Span { loc: a.loc, len: 0 }
    }
}

pub open spec fn underscore_message() -> Seq<char> {
    "identifiers cannot begin with `_` unless inside of `section` or patterns"@
}

/// What the text of a token of kind `kind` reads as, or why it is rejected.
pub open spec fn leaf_of(kind: TokenKind, text: Seq<char>, wild_allowed: bool) -> Result<PVKind, Seq<char>> {
    match kind {
        TokenKind::Literal(LiteralKind::Float) => match parse_decimal(text) {
            Some(d) => Ok(PVKind::Value(ValueV::Float(d))),
            None => Err("invalid float literal"@),
        },
        TokenKind::Literal(LiteralKind::Integer) => match parse_int(text) {
            Some(i) => Ok(PVKind::Value(ValueV::Integer(i))),
            None => Err("invalid integer literal"@),
        },
        TokenKind::Literal(LiteralKind::String) => Ok(PVKind::Value(ValueV::String(string_contents(text)))),
        TokenKind::Literal(LiteralKind::Boolean) => Ok(PVKind::Value(ValueV::Boolean(text == "#t"@))),
        TokenKind::Literal(LiteralKind::Char) => match parse_char(text) {
            Some(c) => Ok(PVKind::Value(ValueV::Char(c))),
            None => Err("invalid character literal"@),
        },
        _ => if text == "null"@ {
            Ok(PVKind::Value(ValueV::Null))
        } else if !wild_allowed && text.len() > 0 && text[0] == '_' {
            Err(underscore_message())
        } else {
            Ok(PVKind::Symbol(text))
        },
    }
}

/// Reads the single token `tok` as a leaf.
pub open spec fn read_single(src: Seq<char>, tok: Token, wild_allowed: bool) -> Result<PV, Fail> {
    let span = tok.span;
    if !span_fits(src, span) {
        Err(("token lies outside the source text"@, Some(span)))
    } else {
        match leaf_of(tok.kind, span_text(src, span), wild_allowed) {
            Ok(k) => Ok(PV { kind: k, span }),
            Err(m) => Err((m, Some(span))),
        }
    }
}

/// Reads one s-expression starting at token `j`: the value and the position
/// after it.
pub open spec fn read_value(src: Seq<char>, toks: Seq<Token>, j: int) -> Result<(PV, int), Fail>
    decreases toks.len() - j, 0int,
{
    let tok = token_at(toks, j);
    match tok.kind {
        TokenKind::OpenDelimiter(open) => if j < 0 || j >= toks.len() {
            Err(("unclosed delimiter"@, Some(tok.span)))
        } else {
            match read_items(src, toks, j + 1, Seq::empty()) {
                Err(e) => Err(e),
                Ok((items, k)) => {
                    let end = token_at(toks, k);
                    match end.kind {
                        TokenKind::CloseDelimiter(close) => if close != open {
                            Err(
                                (
                                    "mismatched closing delimiter: `"@.push(close.close_char()) + "`"@,
                                    Some(end.span),
                                ),
                            )
                        } else {
                            let span = join(tok.span, end.span);
                            let kind = if open is Bracket {
                                PVKind::Vector(items)
                            } else {
                                PVKind::List(items)
                            };
                            Ok((PV { kind, span }, if k < toks.len() { k + 1 } else { k }))
                        },
                        _ => Err(("unclosed delimiter"@, Some(tok.span))),
                    }
                },
            }
        },
        TokenKind::Quote => if j < 0 || j >= toks.len() {
            Err(("unexpected end of input"@, Some(tok.span)))
        } else {
            match read_value(src, toks, j + 1) {
                Err(e) => Err(e),
                Ok((v, k)) => Ok(
                    (
                        PV {
                            kind: PVKind::List(seq![PV { kind: PVKind::Symbol("quote"@), span: tok.span }, v]),
                            span: join(tok.span, v.span),
                        },
                        k,
                    ),
                ),
            }
        },
        _ => match read_single(src, tok, true) {
            Err(e) => Err(e),
            Ok(v) => Ok((v, if 0 <= j < toks.len() { j + 1 } else { j })),
        },
    }
}

/// Reads s-expressions from token `j` up to a closing delimiter or the end,
/// after those in `acc`.
pub open spec fn read_items(src: Seq<char>, toks: Seq<Token>, j: int, acc: Seq<PV>) -> Result<
    (Seq<PV>, int),
    Fail,
>
    decreases toks.len() - j, 1int,
{
    let tok = token_at(toks, j);
    if tok.kind is CloseDelimiter || tok.kind is Eof || j < 0 || j >= toks.len() {
        Ok((acc, j))
    } else {
        match read_value(src, toks, j) {
            Err(e) => Err(e),
            Ok((v, k)) => if j < k <= toks.len() {
                read_items(src, toks, k, acc.push(v))
            } else {
                Err(("unexpected end of input"@, Some(tok.span)))
            },
        }
    }
}


/// Reads and lowers a program, one token at a time.
pub struct Parser<'a> {
    pub src: &'a str,
    /// The current token.
    pub token: Token,
    pub prev_token: Token,
    pub stream: TokenStream,
    pub label_counter: u32,
    /// Position of the current token among the tokens without comments.
    pub index: usize,
}

impl<'a> Parser<'a> {
    /// The tokens being read, without comments.
    pub open spec fn toks(&self) -> Seq<Token> {
        self.stream.tokens()
    }

    /// Position of the current token in `toks()`.
    pub open spec fn pos(&self) -> int {
        self.index as int
    }

    pub open spec fn wf(&self) -> bool {
        let len = self.stream.tokens().len();
        &&& self.index <= len
        &&& self.token == token_at(self.stream.tokens(), self.index as int)
        &&& self.stream.loc() == if self.index < len {
            self.index + 1
        } else {
            len as int
        }
    }

    pub fn new(src: &'a str, tokens: Vec<Token>) -> (r: Parser<'a>)
        ensures
            r.wf(),
            r.src == src,
            r.toks() == without_comments(tokens@),
            r.pos() == 0,
            r.label_counter == 0,
    {
        let mut stream = TokenStream::new(tokens);
        let token = stream.next();
        Parser { src, token, prev_token: Token::new(TokenKind::Eof, 0, 0), stream, label_counter: 0, index: 0 }
    }

    /// A parser over the tokens of `src`.
    pub fn new_raw(src: &'a str) -> (r: Result<Parser<'a>, ParseError>)
        ensures
            crate::text::byte_len(src@) > u32::MAX ==> r is Err && fails_with(r->Err_0, (crate::lexer::too_long_message(), None)),
            crate::text::byte_len(src@) <= u32::MAX ==> match crate::lexer::lex(src@) {
                Ok(ts) => r is Ok && r->Ok_0.wf() && r->Ok_0.src == src && r->Ok_0.pos() == 0
                    && r->Ok_0.label_counter == 0 && r->Ok_0.toks() == without_comments(ts),
                Err(span) => r is Err && crate::lexer::is_unterminated_error(r->Err_0, span),
            },
    {
        let tokens = tokenize(src)?;
        Ok(Parser::new(src, tokens))
    }

    /// Moves to the next token.
    pub fn next(&mut self)
        requires
            old(self).wf(),
        ensures
            final(self).wf(),
            final(self).toks() == old(self).toks(),
            final(self).pos() == if old(self).pos() < old(self).toks().len() {
                old(self).pos() + 1
            } else {
                old(self).pos()
            },
            final(self).prev_token == old(self).token,
            final(self).src == old(self).src,
            final(self).label_counter == old(self).label_counter,
    {
        let next = self.stream.next();
        self.prev_token = self.token;
        self.token = next;
        if self.index < self.stream.tokens.len() {
            self.index = self.index + 1;
        }
    }

    /// Whether the current token is of kind `token`.
    pub fn check(&self, token: &TokenKind) -> (r: bool)
        ensures
            r == (self.token.kind == *token),
    {
        self.token.kind == *token
    }

    /// Moves past the current token if it is of kind `token`.
    pub fn eat(&mut self, token: &TokenKind) -> (r: bool)
        requires
            old(self).wf(),
        ensures
            final(self).wf(),
            r == (old(self).token.kind == *token),
            final(self).toks() == old(self).toks(),
            final(self).src == old(self).src,
            final(self).label_counter == old(self).label_counter,
            r ==> final(self).pos() == if old(self).pos() < old(self).toks().len() {
                old(self).pos() + 1
            } else {
                old(self).pos()
            },
            !r ==> *final(self) == *old(self),
    {
        let present = self.check(token);
        if present {
            self.next();
        }
        present
    }
}


fn owned_str(s: &str) -> (r: String)
    ensures
        r@ == s@,
{
    s.to_owned()
}

proof fn lemma_char_view(c: char)
    ensures
        Value::Char(c)@ == ValueV::Char(c),
{
}

fn char_leaf(text: &Vec<char>) -> (r: Result<ParserValueKind, String>)
    ensures
        match parse_char(text@) {
            Some(c) => r is Ok && leaf_kind(r->Ok_0) == PVKind::Value(ValueV::Char(c)),
            None => r is Err && r->Err_0@ == "invalid character literal"@,
        },
{
    match char_text(text) {
        Some(c) => {
            proof {
                lemma_char_view(c);
            }
            Ok(ParserValueKind::Value(Value::Char(c)))
        },
        None => Err(owned_str("invalid character literal")),
    }
}

/// Decodes the text of a token of kind `kind`.
fn decode_leaf(kind: TokenKind, text: &Vec<char>, wild_allowed: bool) -> (r: Result<ParserValueKind, String>)
    ensures
        match leaf_of(kind, text@, wild_allowed) {
            Ok(k) => r is Ok && leaf_kind(r->Ok_0) == k,
            Err(m) => r is Err && r->Err_0@ == m,
        },
{
    match kind {
        TokenKind::Literal(LiteralKind::Float) => match parse_decimal_text(text) {
            Some(d) => {
                let v = Value::Float(d);
                assert(v@ == ValueV::Float(d));
                Ok(ParserValueKind::Value(v))
            },
            None => Err(owned_str("invalid float literal")),
        },
        TokenKind::Literal(LiteralKind::Integer) => match parse_int_text(text) {
            Some(i) => {
                let v = Value::Integer(i);
                assert(v@ == ValueV::Integer(i));
                Ok(ParserValueKind::Value(v))
            },
            None => Err(owned_str("invalid integer literal")),
        },
        TokenKind::Literal(LiteralKind::String) => Ok(ParserValueKind::Value(Value::String(string_text(text)))),
        TokenKind::Literal(LiteralKind::Boolean) => {
            let s = to_string(text);
            Ok(ParserValueKind::Value(Value::Boolean(s.as_str().eq("#t"))))
        },
        TokenKind::Literal(LiteralKind::Char) => char_leaf(text),
        _ => {
            let s = to_string(text);
            if s.as_str().eq("null") {
                Ok(ParserValueKind::Value(Value::Null))
            } else if !wild_allowed && text.len() > 0 && text[0] == '_' {
                Err(owned_str("identifiers cannot begin with `_` unless inside of `section` or patterns"))
            } else {
                Ok(ParserValueKind::Symbol(s))
            }
        },
    }
}

pub open spec fn leaf_kind(kind: ParserValueKind) -> PVKind {
    match kind {
        ParserValueKind::Value(x) => PVKind::Value(x@),
        ParserValueKind::Symbol(s) => PVKind::Symbol(s@),
        ParserValueKind::List(xs) => PVKind::List(pvs_view(xs@)),
        ParserValueKind::Vector(xs) => PVKind::Vector(pvs_view(xs@)),
    }
}

fn leaf(kind: ParserValueKind, span: Span) -> (r: ParserValue)
    ensures
        r@ == (PV { kind: leaf_kind(kind), span }),
{
    ParserValue { kind, span }
}

/// A parser state that agrees with `r` and the reading specification `spec`.
pub open spec fn read_agrees(
    r: Result<ParserValue, ParseError>,
    after: int,
    spec: Result<(PV, int), Fail>,
) -> bool {
    match spec {
        Ok((v, k)) => r is Ok && r->Ok_0@ == v && after == k,
        Err(f) => r is Err && fails_with(r->Err_0, f),
    }
}

fn err(message: &str, span: Option<Span>) -> (r: ParseError)
    ensures
        fails_with(r, (message@, span)),
{
    ParseError::new(message.to_owned(), span)
}

impl<'a> Parser<'a> {
    /// Reads the current token as a leaf and moves past it.
    pub fn parse_single(&mut self, wild_allowed: bool) -> (r: Result<ParserValue, ParseError>)
        requires
            old(self).wf(),
        ensures
            final(self).wf(),
            final(self).toks() == old(self).toks(),
            final(self).src == old(self).src,
            final(self).label_counter == old(self).label_counter,
            match read_single(old(self).src@, old(self).token, wild_allowed) {
                Ok(v) => r is Ok && r->Ok_0@ == v && final(self).pos() == if old(self).pos() < old(self).toks().len() {
                    old(self).pos() + 1
                } else {
                    old(self).pos()
                },
                Err(f) => r is Err && fails_with(r->Err_0, f),
            },
    {
        let tok = self.token;
        let span = tok.span;
        let text = match slice_span(self.src, span) {
            Some(t) => chars_of(t),
            None => {
                return Err(err("token lies outside the source text", Some(span)));
            },
        };
        let kind = match decode_leaf(tok.kind, &text, wild_allowed) {
            Ok(k) => k,
            Err(m) => {
                return Err(ParseError::new(m, Some(span)));
            },
        };
        self.next();
        Ok(leaf(kind, self.prev_token.span))
    }

    /// Reads one s-expression.
    pub fn parse_value(&mut self) -> (r: Result<ParserValue, ParseError>)
        requires
            old(self).wf(),
        ensures
            final(self).wf(),
            final(self).toks() == old(self).toks(),
            final(self).src == old(self).src,
            final(self).label_counter == old(self).label_counter,
            read_agrees(r, final(self).pos(), read_value(old(self).src@, old(self).toks(), old(self).pos())),
        decreases old(self).toks().len() - old(self).pos(),
    {
        let ghost toks = self.toks();
        let ghost src = self.src@;
        let ghost j0 = self.pos();
        match self.token.kind {
            TokenKind::OpenDelimiter(open) => {
                let begin = self.token.span;
                self.next();
                let mut values: Vec<ParserValue> = Vec::new();
                proof {
                    lemma_pvs_view(values@);
                }
                loop
                    invariant
                        self.wf(),
                        self.toks() == toks,
                        toks == old(self).toks(),
                        j0 == old(self).pos(),
                        0 <= j0 < toks.len(),
                        token_at(toks, j0).kind == TokenKind::OpenDelimiter(open),
                        token_at(toks, j0).span == begin,
                        src == old(self).src@,
                        self.src == old(self).src,
                        self.src@ == src,
                        self.label_counter == old(self).label_counter,
                        j0 < self.pos() <= toks.len(),
                        read_items(src, toks, j0 + 1, Seq::empty()) == read_items(src, toks, self.pos(), pvs_view(values@)),
                    ensures
                        self.wf(),
                        self.toks() == toks,
                        self.src == old(self).src,
                        self.label_counter == old(self).label_counter,
                        j0 < self.pos() <= toks.len(),
                        read_items(src, toks, j0 + 1, Seq::empty()) == Ok::<(Seq<PV>, int), Fail>((pvs_view(values@), self.pos())),
                    decreases toks.len() - self.pos(),
                {
                    match self.token.kind {
                        TokenKind::CloseDelimiter(_) => {
                            break;
                        },
                        TokenKind::Eof => {
                            break;
                        },
                        _ => {},
                    }
                    if self.index >= self.stream.tokens.len() {
                        break;
                    }
                    let j = self.index;
                    let tok_span = self.token.span;
                    let v = match self.parse_value() {
                        Ok(v) => v,
                        Err(e) => {
                            return Err(e);
                        },
                    };
                    if self.index <= j {
                        return Err(err("unexpected end of input", Some(tok_span)));
                    }
                    let ghost before = values@;
                    values.push(v);
                    proof {
                        assert(values@.drop_last() =~= before);
                    }
                }
                let end = self.token.span;
                let close = match self.token.kind {
                    TokenKind::CloseDelimiter(close) => close,
                    _ => {
                        return Err(err("unclosed delimiter", Some(begin)));
                    },
                };
                if close != open {
                    let mut m = "mismatched closing delimiter: `".to_owned();
                    m.push(close.close());
                    m.push_str("`");
                    return Err(ParseError::new(m, Some(end)));
                }
                self.next();
                let span = join_spans(begin, end);
                if open.is_bracket() {
                    Ok(ParserValue { kind: ParserValueKind::Vector(values), span })
                } else {
                    Ok(ParserValue { kind: ParserValueKind::List(values), span })
                }
            },
            TokenKind::Quote => {
                let begin = self.token.span;
                if self.index >= self.stream.tokens.len() {
                    return Err(err("unexpected end of input", Some(begin)));
                }
                self.next();
                let v = self.parse_value()?;
                let span = join_spans(begin, v.span);
                let head = ParserValue::sym("quote".to_owned(), begin);
                let mut items: Vec<ParserValue> = Vec::new();
                items.push(head);
                items.push(v);
                proof {
                    lemma_pvs_view(items@);
                    assert(pvs_view(items@) =~= seq![items@[0]@, items@[1]@]);
                }
                Ok(ParserValue::list(items, span))
            },
            _ => self.parse_single(true),
        }
    }
}


// ---------------------------------------------------------------------------
// Lowering
// ---------------------------------------------------------------------------

/// The value an s-expression denotes as data (in patterns and quotations).
pub open spec fn datum(v: PV) -> ValueV
    decreases v, 0int,
{
    match v.kind {
        PVKind::Value(x) => x,
        PVKind::Symbol(s) => ValueV::Symbol(s),
        PVKind::List(xs) => ValueV::List(data(xs, xs.len() as int)),
        PVKind::Vector(xs) => ValueV::Vector(data(xs, xs.len() as int)),
    }
}

/// The data of the first `n` items.
pub open spec fn data(xs: Seq<PV>, n: int) -> Seq<ValueV>
    decreases xs, n,
{
    if n <= 0 || n > xs.len() {
        Seq::empty()
    } else {
        data(xs, n - 1).push(datum(xs[n - 1]))
    }
}

pub open spec fn op(kind: OpKindV, span: Span) -> OperationV {
    OperationV { kind, span }
}

pub open spec fn label_span() -> Span {
    Span { loc: 0, len: 0 }
}

/// The label made from counter value `c`.
pub open spec fn label_name(c: nat) -> Seq<char> {
    "lbl_"@ + int_text(c as int)
}

/// The special forms, each lowered in its own way.
#[derive(Clone, Copy, PartialEq, Eq, Structural)]
pub enum Form {
    Lambda,
    Let,
    LetStar,
    And,
    Or,
    If,
    Begin,
    Match,
    Cond,
    Quote,
    Section,
}

/// The special form that the keyword `s` introduces, if any.
pub open spec fn form_of(s: Seq<char>) -> Option<Form> {
    if s == "lambda"@ {
        Some(Form::Lambda)
    } else if s == "let"@ {
        Some(Form::Let)
    } else if s == "let*"@ {
        Some(Form::LetStar)
    } else if s == "and"@ {
        Some(Form::And)
    } else if s == "or"@ {
        Some(Form::Or)
    } else if s == "if"@ {
        Some(Form::If)
    } else if s == "begin"@ {
        Some(Form::Begin)
    } else if s == "match"@ {
        Some(Form::Match)
    } else if s == "cond"@ {
        Some(Form::Cond)
    } else if s == "quote"@ {
        Some(Form::Quote)
    } else if s == "section"@ {
        Some(Form::Section)
    } else {
        None
    }
}

/// What lowering yields: operations and the next label counter.
pub type Lowered = Result<(Seq<OperationV>, nat), Fail>;

/// Lowers one s-expression with label counter `c`; `t` is the span of the
/// parser's current token, which some errors point at.
pub open spec fn lower(v: PV, c: nat, t: Span) -> Lowered
    decreases v, 0int,
{
    match v.kind {
        PVKind::Value(x) => Ok((seq![op(OpKindV::Value(x), v.span)], c)),
        PVKind::Symbol(s) => if s.len() > 0 && s[0] == '_' {
            Err((underscore_message(), Some(v.span)))
        } else {
            Ok((seq![op(OpKindV::Variable(s), v.span)], c))
        },
        PVKind::Vector(xs) => Ok((seq![op(OpKindV::Value(ValueV::Vector(data(xs, xs.len() as int))), v.span)], c)),
        PVKind::List(xs) => if xs.len() == 0 {
            Ok((seq![op(OpKindV::Value(ValueV::Null), v.span)], c))
        } else if xs[0].kind is Symbol && form_of(xs[0].kind->Symbol_0) is Some {
            lower_form(form_of(xs[0].kind->Symbol_0)->0, xs.skip(1), v.span, c, t)
        } else if xs.len() - 1 > u32::MAX {
            Err(("too many arguments in one application"@, Some(v.span)))
        } else {
            match lower_seq(xs, 0, c, t) {
                Err(e) => Err(e),
                Ok((ops, c1)) => Ok((ops.push(op(OpKindV::Application((xs.len() - 1) as u32), v.span)), c1)),
            }
        },
    }
}

/// Lowers `items[i..]` in order, one after the other.
pub open spec fn lower_seq(items: Seq<PV>, i: int, c: nat, t: Span) -> Lowered
    decreases items, items.len() - i,
{
    if i < 0 || i >= items.len() {
        Ok((seq![], c))
    } else {
        match lower(items[i], c, t) {
            Err(e) => Err(e),
            Ok((a, c1)) => match lower_seq(items, i + 1, c1, t) {
                Err(e) => Err(e),
                Ok((b, c2)) => Ok((a + b, c2)),
            },
        }
    }
}

/// The position of the first item of `ps` from `i` on that is not a symbol.
pub open spec fn first_non_symbol(ps: Seq<PV>, i: int) -> Option<int>
    decreases ps.len() - i,
{
    if i < 0 || i >= ps.len() {
        None
    } else if !(ps[i].kind is Symbol) {
        Some(i)
    } else {
        first_non_symbol(ps, i + 1)
    }
}

pub open spec fn symbol_names(ps: Seq<PV>) -> Seq<Seq<char>> {
    ps.map_values(|p: PV| p.kind->Symbol_0)
}

/// Lowers a special form, given the items after its keyword.
/// Bounds the work `lower_form` hands to its helpers on `args`.
pub open spec fn form_measure(args: Seq<PV>) -> int {
    args.len() + 2 + if args.len() > 0 && args[0].kind is List {
        args[0].kind->List_0.len() as int
    } else {
        0
    }
}

pub open spec fn lower_form(form: Form, args: Seq<PV>, span: Span, c: nat, t: Span) -> Lowered
    decreases args, form_measure(args),
{
    if form is Lambda {
        if args.len() != 2 {
            Err(("lambda expression must have 2 sub-components: a parameter list and a body"@, Some(span)))
        } else if !(args[0].kind is List) {
            Err(("the first component of a lambda expression must be a parameter list"@, Some(args[0].span)))
        } else {
            let ps = args[0].kind->List_0;
            match first_non_symbol(ps, 0) {
                Some(k) => Err(("parameters must only be identifiers"@, Some(ps[k].span))),
                None => match lower(args[1], c, t) {
                    Err(e) => Err(e),
                    Ok((body, c1)) => Ok((seq![op(OpKindV::Closure(symbol_names(ps), body), span)], c1)),
                },
            }
        }
    } else if form is Let {
        if args.len() != 2 {
            Err(("let expression must have 2 sub-components: a binding list and a body"@, Some(t)))
        } else if !(args[0].kind is List) {
            Err(("let expression bindings must be given as a list"@, Some(args[0].span)))
        } else {
            proof {
                assert(decreases_to!(args => args[0]));
                assert(decreases_to!(args[0] => args[0].kind));
                assert(decreases_to!(args[0].kind => args[0].kind->List_0));
            }
            match lower_bindings(args[0].kind->List_0, 0, c, t) {
                Err(e) => Err(e),
                Ok((names, ops, c1)) => match lower(args[1], c1, t) {
                    Err(e) => Err(e),
                    Ok((body, c2)) => Ok((ops.push(op(OpKindV::Let(names, body), span)), c2)),
                },
            }
        }
    } else if form is LetStar {
        if args.len() != 2 {
            Err(("let* expression must have 2 sub-components: a binding list and a body"@, Some(t)))
        } else if !(args[0].kind is List) {
            Err(("let* expression bindings must be given as a list"@, Some(args[0].span)))
        } else if args[0].kind->List_0.len() == 0 {
            Err(("binding pair must be given as a vector"@, Some(args[0].span)))
        } else {
            let_star(args, 0, span, c, t)
        }
    } else if form is And || form is Or {
        if c >= u32::MAX {
            Err(("too many labels in one program"@, Some(span)))
        } else {
            let label = label_name(c);
            let is_and = form is And;
            match lower_junction(args, 0, label, is_and, span, c + 1, t) {
                Err(e) => Err(e),
                Ok((ops, c1)) => Ok(
                    (
                        ops + seq![
                            op(OpKindV::Value(ValueV::Boolean(is_and)), span),
                            op(OpKindV::Label(label), label_span()),
                        ],
                        c1,
                    ),
                ),
            }
        }
    } else if form is If {
        if args.len() != 3 {
            Err(("if expression must have 3 sub-expressions: a guard, if-branch, and else-branch"@, Some(t)))
        } else {
            match lower(args[0], c, t) {
                Err(e) => Err(e),
                Ok((guard, c1)) => match lower(args[1], c1, t) {
                    Err(e) => Err(e),
                    Ok((a, c2)) => match lower(args[2], c2, t) {
                        Err(e) => Err(e),
                        Ok((b, c3)) => Ok((guard.push(op(OpKindV::If(a, b), span)), c3)),
                    },
                },
            }
        }
    } else if form is Match {
        if args.len() < 2 {
            Err(("match expression must have at least two sub-expressions: a scrutinee at least one branch"@, Some(t)))
        } else {
            match lower(args[0], c, t) {
                Err(e) => Err(e),
                Ok((scrutinee, c1)) => match match_branches(args, 1, c1, t) {
                    Err(e) => Err(e),
                    Ok((branches, c2)) => Ok((scrutinee.push(op(OpKindV::Match(branches), span)), c2)),
                },
            }
        }
    } else if form is Cond {
        if args.len() < 1 {
            Err(("cond expression must have at least one branch"@, Some(span)))
        } else if c >= u32::MAX {
            Err(("too many labels in one program"@, Some(span)))
        } else {
            let label = label_name(c);
            match cond_branches(args, 0, label, span, c + 1, t) {
                Err(e) => Err(e),
                Ok((ops, c1)) => Ok(
                    (
                        ops + seq![
                            op(
                                OpKindV::Exception(
                                    "No branches of \"cond\" expression matched"@,
                                    None,
                                    Some(span),
                                    None,
                                ),
                                label_span(),
                            ),
                            op(OpKindV::Label(label), label_span()),
                        ],
                        c1,
                    ),
                ),
            }
        }
    } else if form is Quote {
        if args.len() != 1 {
            Err(("quote expression must have 1 sub-component"@, Some(span)))
        } else {
            Ok((seq![op(OpKindV::Value(datum(args[0])), span)], c))
        }
    } else if form is Begin {
        if args.len() == 0 {
            Err(("begin expression must have at least one sub-expression"@, Some(span)))
        } else if args.len() > u32::MAX {
            Err(("too many sub-expressions in begin"@, Some(span)))
        } else {
            match lower_seq(args, 0, c, t) {
                Err(e) => Err(e),
                Ok((ops, c1)) => Ok((ops.push(op(OpKindV::Sequence(args.len() as u32), span)), c1)),
            }
        }
    } else {
        Err(("section expressions are not supported"@, Some(span)))
    }
}

/// Lowers one `[name expr]` binding: the name and the operations of `expr`.
pub open spec fn lower_binding(b: PV, c: nat, t: Span) -> Result<(Seq<char>, Seq<OperationV>, nat), Fail>
    decreases b, 1int,
{
    if !(b.kind is Vector) {
        Err(("binding pair must be given as a vector"@, Some(b.span)))
    } else if b.kind->Vector_0.len() != 2 {
        Err(("binding must be a pair of a name and value"@, Some(b.span)))
    } else if !(b.kind->Vector_0[0].kind is Symbol) {
        Err(("the first component of a binding must be a symbol"@, Some(b.span)))
    } else {
        match lower(b.kind->Vector_0[1], c, t) {
            Err(e) => Err(e),
            Ok((ops, c1)) => Ok((b.kind->Vector_0[0].kind->Symbol_0, ops, c1)),
        }
    }
}

/// Lowers the bindings of a `let` from the `i`-th on: their names, and the
/// operations of their values in order.
pub open spec fn lower_bindings(bs: Seq<PV>, i: int, c: nat, t: Span) -> Result<
    (Seq<Seq<char>>, Seq<OperationV>, nat),
    Fail,
>
    decreases bs, bs.len() - i,
{
    if i < 0 || i >= bs.len() {
        Ok((seq![], seq![], c))
    } else {
        match lower_binding(bs[i], c, t) {
            Err(e) => Err(e),
            Ok((name, ops, c1)) => match lower_bindings(bs, i + 1, c1, t) {
                Err(e) => Err(e),
                Ok((names, rest, c2)) => Ok((seq![name] + names, ops + rest, c2)),
            },
        }
    }
}

/// `let*` from its `i`-th binding on, as `let`s nested one per binding.
pub open spec fn let_star(args: Seq<PV>, i: int, span: Span, c: nat, t: Span) -> Lowered
    decreases args, if args.len() > 0 && args[0].kind is List { args[0].kind->List_0.len() - i } else { 0 },
{
    if args.len() < 2 || !(args[0].kind is List) || i < 0 || i >= args[0].kind->List_0.len() {
        Ok((seq![], c))
    } else {
        let bs = args[0].kind->List_0;
        proof {
            assert(decreases_to!(args => args[0]));
            assert(decreases_to!(args[0] => args[0].kind));
            assert(decreases_to!(args[0].kind => bs));
            assert(decreases_to!(bs => bs[i]));
        }
        match lower_binding(bs[i], c, t) {
            Err(e) => Err(e),
            Ok((name, ops, c1)) => match if i + 1 == bs.len() {
                lower(args[1], c1, t)
            } else {
                let_star(args, i + 1, span, c1, t)
            } {
                Err(e) => Err(e),
                Ok((inner, c2)) => Ok((ops.push(op(OpKindV::Let(seq![name], inner), span)), c2)),
            },
        }
    }
}

/// The operands of `and` or `or` from the `i`-th on, each followed by the
/// operation that may jump to `label`.
pub open spec fn lower_junction(
    args: Seq<PV>,
    i: int,
    label: Seq<char>,
    is_and: bool,
    span: Span,
    c: nat,
    t: Span,
) -> Lowered
    decreases args, args.len() - i,
{
    if i < 0 || i >= args.len() {
        Ok((seq![], c))
    } else {
        match lower(args[i], c, t) {
            Err(e) => Err(e),
            Ok((a, c1)) => match lower_junction(args, i + 1, label, is_and, span, c1, t) {
                Err(e) => Err(e),
                Ok((rest, c2)) => Ok(
                    (
                        a.push(
                            op(
                                if is_and {
                                    OpKindV::And(label)
                                } else {
                                    OpKindV::Or(label)
                                },
                                span,
                            ),
                        ) + rest,
                        c2,
                    ),
                ),
            },
        }
    }
}

/// The branches of a `match` from `args[i]` on: each pattern as data with
/// its lowered body.
pub open spec fn match_branches(args: Seq<PV>, i: int, c: nat, t: Span) -> Result<
    (Seq<(ValueV, Seq<OperationV>)>, nat),
    Fail,
>
    decreases args, args.len() - i,
{
    if i < 0 || i >= args.len() {
        Ok((seq![], c))
    } else {
        let b = args[i];
        if !(b.kind is Vector) {
            Err(("match branch must be given as a vector"@, Some(b.span)))
        } else if b.kind->Vector_0.len() != 2 {
            Err(("match branches must be given as a pair of a pattern and an expression"@, Some(b.span)))
        } else {
            match lower(b.kind->Vector_0[1], c, t) {
                Err(e) => Err(e),
                Ok((body, c1)) => match match_branches(args, i + 1, c1, t) {
                    Err(e) => Err(e),
                    Ok((rest, c2)) => Ok((seq![(datum(b.kind->Vector_0[0]), body)] + rest, c2)),
                },
            }
        }
    }
}

/// The branches of a `cond` from `args[i]` on: each guard followed by the
/// operation that runs the body and jumps to `label`.
pub open spec fn cond_branches(args: Seq<PV>, i: int, label: Seq<char>, span: Span, c: nat, t: Span) -> Lowered
    decreases args, args.len() - i,
{
    if i < 0 || i >= args.len() {
        Ok((seq![], c))
    } else {
        let b = args[i];
        if !(b.kind is Vector) {
            Err(("cond branch must be given as a vector"@, Some(b.span)))
        } else if b.kind->Vector_0.len() != 2 {
            Err(("cond branch must be a pair of expressions"@, Some(b.span)))
        } else {
            match lower(b.kind->Vector_0[0], c, t) {
                Err(e) => Err(e),
                Ok((guard, c1)) => match lower(b.kind->Vector_0[1], c1, t) {
                    Err(e) => Err(e),
                    Ok((body, c2)) => match cond_branches(args, i + 1, label, span, c2, t) {
                        Err(e) => Err(e),
                        Ok((rest, c3)) => Ok((guard.push(op(OpKindV::Cond(body, label), span)) + rest, c3)),
                    },
                },
            }
        }
    }
}


// ---------------------------------------------------------------------------
// Lowering, executable
// ---------------------------------------------------------------------------

proof fn lemma_ops_push(s: Seq<Operation>, o: Operation)
    ensures
        ops_view(s.push(o)) == ops_view(s).push(o@),
{
    assert(s.push(o).drop_last() =~= s);
}

proof fn lemma_ops_append(a: Seq<Operation>, b: Seq<Operation>)
    ensures
        ops_view(a + b) == ops_view(a) + ops_view(b),
    decreases b.len(),
{
    if b.len() == 0 {
        assert(a + b =~= a);
        assert(ops_view(a) + ops_view(b) =~= ops_view(a));
    } else {
        assert((a + b).drop_last() =~= a + b.drop_last());
        lemma_ops_append(a, b.drop_last());
        assert(ops_view(a + b) =~= ops_view(a) + ops_view(b));
    }
}

fn push_op(v: &mut Vec<Operation>, o: Operation)
    ensures
        ops_view(final(v)@) == ops_view(old(v)@).push(o@),
{
    let ghost ov = o@;
    v.push(o);
    proof {
        lemma_ops_push(old(v)@, v@.last());
    }
}

fn append_ops(a: &mut Vec<Operation>, b: Vec<Operation>)
    ensures
        ops_view(final(a)@) == ops_view(old(a)@) + ops_view(b@),
{
    let mut b = b;
    let ghost bb = b@;
    a.append(&mut b);
    proof {
        lemma_ops_append(old(a)@, bb);
    }
}

fn one_op(kind: OperationKind, span: Span) -> (r: Vec<Operation>)
    ensures
        ops_view(r@) == seq![(Operation { kind, span })@],
{
    let mut v: Vec<Operation> = Vec::new();
    push_op(&mut v, Operation { kind, span });
    proof {
        assert(ops_view(Seq::<Operation>::empty()) =~= Seq::<OperationV>::empty());
        assert(ops_view(v@) =~= seq![(Operation { kind, span })@]);
    }
    v
}

pub proof fn lemma_pv_unfold(v: ParserValue)
    ensures
        v@ == (PV { kind: leaf_kind(v.kind), span: v.span }),
{
}

/// The value an s-expression denotes as data.
pub fn to_datum(v: &ParserValue) -> (r: Value)
    ensures
        r@ == datum(v@),
    decreases *v, 1nat,
{
    proof {
        lemma_pv_unfold(*v);
        if v.kind is List {
            lemma_pvs_view(v.kind->List_0@);
        }
        if v.kind is Vector {
            lemma_pvs_view(v.kind->Vector_0@);
        }
    }
    match &v.kind {
        ParserValueKind::Value(x) => x.duplicate(),
        ParserValueKind::Symbol(s) => {
            let r = Value::Symbol(s.clone());
            proof {
                crate::value::lemma_value_view_step(r);
            }
            r
        },
        ParserValueKind::List(xs) => {
            proof {
                assert(decreases_to!(*v => v.kind));
                assert(decreases_to!(v.kind => v.kind->List_0));
            }
            let r = Value::List(to_data(xs));
            proof {
                crate::value::lemma_value_view_step(r);
            }
            r
        },
        ParserValueKind::Vector(xs) => {
            proof {
                assert(decreases_to!(*v => v.kind));
                assert(decreases_to!(v.kind => v.kind->Vector_0));
            }
            let r = Value::Vector(to_data(xs));
            proof {
                crate::value::lemma_value_view_step(r);
            }
            r
        },
    }
}

fn to_data(xs: &Vec<ParserValue>) -> (r: Vec<Value>)
    ensures
        values_view(r@) == data(pvs_view(xs@), xs@.len() as int),
    decreases *xs, 0nat,
{
    let ghost xv = pvs_view(xs@);
    proof {
        lemma_pvs_view(xs@);
    }
    let mut out: Vec<Value> = Vec::new();
    let mut i: usize = 0;
    while i < xs.len()
        invariant
            i <= xs@.len(),
            xv == pvs_view(xs@),
            xv.len() == xs@.len(),
            forall|k: int| 0 <= k < xs@.len() ==> #[trigger] xv[k] == xs@[k]@,
            values_view(out@) == data(xv, i as int),
        decreases xs@.len() - i,
    {
        proof {
            vstd::std_specs::vec::axiom_vec_index_decreases(*xs, i as int);
        }
        let d = to_datum(&xs[i]);
        let ghost before = out@;
        out.push(d);
        proof {
            assert(out@.drop_last() =~= before);
        }
        i = i + 1;
    }
    out
}

/// `r` and the counter after it agree with the lowering specification `s`.
pub open spec fn lower_agrees(r: Result<Vec<Operation>, ParseError>, c: nat, s: Lowered) -> bool {
    match s {
        Ok((ops, c1)) => r is Ok && ops_view(r->Ok_0@) == ops && c == c1,
        Err(f) => r is Err && fails_with(r->Err_0, f),
    }
}

fn starts_with_underscore(s: &String) -> (r: bool)
    ensures
        r == (s@.len() > 0 && s@[0] == '_'),
{
    let cs = chars_of(s.as_str());
    cs.len() > 0 && cs[0] == '_'
}

fn fail(message: &str, span: Option<Span>) -> (r: Result<Vec<Operation>, ParseError>)
    ensures
        r is Err && fails_with(r->Err_0, (message@, span)),
{
    Err(ParseError::new(message.to_owned(), span))
}

fn classify(s: &String) -> (r: Option<Form>)
    ensures
        r == form_of(s@),
{
    let n = s.as_str();
    if n.eq("lambda") {
        Some(Form::Lambda)
    } else if n.eq("let") {
        Some(Form::Let)
    } else if n.eq("let*") {
        Some(Form::LetStar)
    } else if n.eq("and") {
        Some(Form::And)
    } else if n.eq("or") {
        Some(Form::Or)
    } else if n.eq("if") {
        Some(Form::If)
    } else if n.eq("begin") {
        Some(Form::Begin)
    } else if n.eq("match") {
        Some(Form::Match)
    } else if n.eq("cond") {
        Some(Form::Cond)
    } else if n.eq("quote") {
        Some(Form::Quote)
    } else if n.eq("section") {
        Some(Form::Section)
    } else {
        None
    }
}

impl<'a> Parser<'a> {
    /// Makes the next label name, `lbl_` and the counter.
    pub fn fresh_label(&mut self) -> (r: String)
        requires
            old(self).label_counter < u32::MAX,
        ensures
            r@ == label_name(old(self).label_counter as nat),
            final(self).label_counter == old(self).label_counter + 1,
            final(self).src == old(self).src,
            final(self).token == old(self).token,
            final(self).prev_token == old(self).prev_token,
            final(self).stream == old(self).stream,
            final(self).index == old(self).index,
    {
        let mut label = "lbl_".to_owned();
        push_digits(&mut label, self.label_counter as u64);
        self.label_counter = self.label_counter + 1;
        label
    }
}


impl<'a> Parser<'a> {
    /// Lowers one s-expression to operations.
    pub fn lower_value(&mut self, v: &ParserValue, t: Span) -> (r: Result<Vec<Operation>, ParseError>)
        ensures
            lower_agrees(r, final(self).label_counter as nat, lower(v@, old(self).label_counter as nat, t)),
            final(self).src == old(self).src,
            final(self).token == old(self).token,
            final(self).prev_token == old(self).prev_token,
            final(self).stream == old(self).stream,
            final(self).index == old(self).index,
        decreases *v, 3nat,
    {
        proof {
            lemma_pv_unfold(*v);
        }
        match &v.kind {
            ParserValueKind::Value(x) => Ok(one_op(OperationKind::Value { value: x.duplicate() }, v.span)),
            ParserValueKind::Symbol(s) => {
                if starts_with_underscore(s) {
                    return fail("identifiers cannot begin with `_` unless inside of `section` or patterns", Some(v.span));
                }
                Ok(one_op(OperationKind::Variable { name: s.clone() }, v.span))
            },
            ParserValueKind::Vector(xs) => {
                proof {
                    assert(decreases_to!(*v => v.kind));
                    assert(decreases_to!(v.kind => v.kind->Vector_0));
                    lemma_pvs_view(xs@);
                }
                let d = to_data(xs);
                let value = Value::Vector(d);
                proof {
                    crate::value::lemma_value_view_step(value);
                }
                Ok(one_op(OperationKind::Value { value }, v.span))
            },
            ParserValueKind::List(xs) => {
                proof {
                    assert(decreases_to!(*v => v.kind));
                    assert(decreases_to!(v.kind => v.kind->List_0));
                    lemma_pvs_view(xs@);
                }
                if xs.len() == 0 {
                    return Ok(one_op(OperationKind::Value { value: Value::Null }, v.span));
                }
                let special = match &xs[0].kind {
                    ParserValueKind::Symbol(s) => classify(s),
                    _ => None,
                };
                proof {
                    lemma_pv_unfold(xs@[0]);
                }
                if let Some(form) = special {
                    proof {
                        assert(pvs_view(xs@).skip(1) =~= pvs_view(xs@.skip(1))) by {
                            lemma_pvs_view(xs@.skip(1));
                        }
                    }
                    return self.lower_form_exec(form, xs, v.span, t);
                }
                if xs.len() - 1 > u32::MAX as usize {
                    return fail("too many arguments in one application", Some(v.span));
                }
                let mut ops = match self.lower_seq_exec(xs, 0, t) {
                    Ok(ops) => ops,
                    Err(e) => {
                        return Err(e);
                    },
                };
                push_op(&mut ops, Operation { kind: OperationKind::Application { arity: (xs.len() - 1) as u32 }, span: v.span });
                Ok(ops)
            },
        }
    }

    /// Lowers `items[i..]`, one after the other.
    fn lower_seq_exec(&mut self, items: &Vec<ParserValue>, i: usize, t: Span) -> (r: Result<Vec<Operation>, ParseError>)
        ensures
            lower_agrees(r, final(self).label_counter as nat, lower_seq(pvs_view(items@), i as int, old(self).label_counter as nat, t)),
            final(self).src == old(self).src,
            final(self).token == old(self).token,
            final(self).prev_token == old(self).prev_token,
            final(self).stream == old(self).stream,
            final(self).index == old(self).index,
        decreases *items, items@.len() - i,
    {
        proof {
            lemma_pvs_view(items@);
        }
        if i >= items.len() {
            proof {
                assert(ops_view(Seq::<Operation>::empty()) =~= Seq::<OperationV>::empty());
            }
            return Ok(Vec::new());
        }
        proof {
            vstd::std_specs::vec::axiom_vec_index_decreases(*items, i as int);
        }
        let mut a = match self.lower_value(&items[i], t) {
            Ok(a) => a,
            Err(e) => {
                return Err(e);
            },
        };
        let b = match self.lower_seq_exec(items, i + 1, t) {
            Ok(b) => b,
            Err(e) => {
                return Err(e);
            },
        };
        append_ops(&mut a, b);
        Ok(a)
    }
}


/// The items after the keyword of a special form.
pub open spec fn args_of(xs: Seq<ParserValue>) -> Seq<PV> {
    pvs_view(xs).skip(1)
}

pub open spec fn exec_form_measure(xs: Seq<ParserValue>) -> int {
    xs.len() + 3 + if xs.len() > 1 && xs[1].kind is List {
        xs[1].kind->List_0@.len() as int
    } else {
        0
    }
}

proof fn lemma_args(xs: Seq<ParserValue>)
    ensures
        xs.len() >= 1 ==> args_of(xs).len() == xs.len() - 1,
        forall|k: int| 0 <= k < xs.len() - 1 ==> #[trigger] args_of(xs)[k] == xs[k + 1]@,
        forall|k: int| 0 <= k < xs.len() ==> #[trigger] pvs_view(xs)[k] == xs[k]@,
        pvs_view(xs).len() == xs.len(),
{
    lemma_pvs_view(xs);
}

impl<'a> Parser<'a> {
    fn lower_form_exec(&mut self, form: Form, xs: &Vec<ParserValue>, span: Span, t: Span) -> (r: Result<Vec<Operation>, ParseError>)
        requires
            xs@.len() >= 1,
        ensures
            lower_agrees(r, final(self).label_counter as nat, lower_form(form, args_of(xs@), span, old(self).label_counter as nat, t)),
            final(self).src == old(self).src,
            final(self).token == old(self).token,
            final(self).prev_token == old(self).prev_token,
            final(self).stream == old(self).stream,
            final(self).index == old(self).index,
        decreases *xs, exec_form_measure(xs@),
    {
        match form {
            Form::Lambda => self.lambda_exec(xs, span, t),
            Form::Let => self.let_exec(xs, span, t),
            Form::LetStar => self.let_star_form(xs, span, t),
            Form::And => self.junction_form(xs, true, span, t),
            Form::Or => self.junction_form(xs, false, span, t),
            Form::If => self.if_exec(xs, span, t),
            Form::Match => self.match_exec(xs, span, t),
            Form::Cond => self.cond_exec(xs, span, t),
            Form::Quote => self.quote_exec(xs, span, t),
            Form::Begin => self.begin_exec(xs, span, t),
            Form::Section => fail("section expressions are not supported", Some(span)),
        }
    }

    fn quote_exec(&mut self, xs: &Vec<ParserValue>, span: Span, t: Span) -> (r: Result<Vec<Operation>, ParseError>)
        requires
            xs@.len() >= 1,
        ensures
            lower_agrees(r, final(self).label_counter as nat, lower_form(Form::Quote, args_of(xs@), span, old(self).label_counter as nat, t)),
            final(self).src == old(self).src,
            final(self).token == old(self).token,
            final(self).prev_token == old(self).prev_token,
            final(self).stream == old(self).stream,
            final(self).index == old(self).index,
    {
        if true {
            proof {
                lemma_args(xs@);
            }
            if xs.len() != 2 {
                return fail("quote expression must have 1 sub-component", Some(span));
            }
            let d = to_datum(&xs[1]);
            Ok(one_op(OperationKind::Value { value: d }, span))
        } else {
            vstd::pervasive::unreached()
        }
    }

    fn begin_exec(&mut self, xs: &Vec<ParserValue>, span: Span, t: Span) -> (r: Result<Vec<Operation>, ParseError>)
        requires
            xs@.len() >= 1,
        ensures
            lower_agrees(r, final(self).label_counter as nat, lower_form(Form::Begin, args_of(xs@), span, old(self).label_counter as nat, t)),
            final(self).src == old(self).src,
            final(self).token == old(self).token,
            final(self).prev_token == old(self).prev_token,
            final(self).stream == old(self).stream,
            final(self).index == old(self).index,
        decreases *xs, exec_form_measure(xs@) - 1,
    {
        {
            proof {
                lemma_args(xs@);
            }
            if xs.len() == 1 {
                return fail("begin expression must have at least one sub-expression", Some(span));
            }
            if xs.len() - 1 > u32::MAX as usize {
                return fail("too many sub-expressions in begin", Some(span));
            }
            proof {
                assert(pvs_view(xs@).skip(1) =~= args_of(xs@));
                lemma_lower_seq_shift(pvs_view(xs@), 1, old(self).label_counter as nat, t);
            }
            let mut ops = match self.lower_seq_exec(xs, 1, t) {
                Ok(o) => o,
                Err(e) => {
                    return Err(e);
                },
            };
            push_op(&mut ops, Operation { kind: OperationKind::Sequence { subexpr_count: (xs.len() - 1) as u32 }, span });
            Ok(ops)
        }
    }

    #[verifier::loop_isolation(false)]
    fn lambda_exec(&mut self, xs: &Vec<ParserValue>, span: Span, t: Span) -> (r: Result<Vec<Operation>, ParseError>)
        requires
            xs@.len() >= 1,
        ensures
            lower_agrees(r, final(self).label_counter as nat, lower_form(Form::Lambda, args_of(xs@), span, old(self).label_counter as nat, t)),
            final(self).src == old(self).src,
            final(self).token == old(self).token,
            final(self).prev_token == old(self).prev_token,
            final(self).stream == old(self).stream,
            final(self).index == old(self).index,
        decreases *xs, exec_form_measure(xs@) - 1,
    {
        proof {
            lemma_args(xs@);
        }
        if xs.len() != 3 {
            return fail("lambda expression must have 2 sub-components: a parameter list and a body", Some(span));
        }
        let ps = match &xs[1].kind {
            ParserValueKind::List(ps) => ps,
            _ => {
                proof {
                    lemma_pv_unfold(xs@[1]);
                }
                return fail("the first component of a lambda expression must be a parameter list", Some(xs[1].span));
            },
        };
        proof {
            lemma_pv_unfold(xs@[1]);
            lemma_pvs_view(ps@);
        }
        let ghost pv = pvs_view(ps@);
        let mut params: Vec<String> = Vec::new();
        let mut i: usize = 0;
        while i < ps.len()
            invariant
                i <= ps@.len(),
                pv == pvs_view(ps@),
                pv.len() == ps@.len(),
                forall|k: int| 0 <= k < ps@.len() ==> #[trigger] pv[k] == ps@[k]@,
                first_non_symbol(pv, 0) == first_non_symbol(pv, i as int),
                params@.len() == i,
                forall|k: int| 0 <= k < i ==> (#[trigger] params@[k])@ == pv[k].kind->Symbol_0 && pv[k].kind is Symbol,
            decreases ps@.len() - i,
        {
            proof {
                lemma_pv_unfold(ps@[i as int]);
            }
            match &ps[i].kind {
                ParserValueKind::Symbol(name) => {
                    let ghost before = params@;
                    params.push(name.clone());
                    proof {
                        assert(pv[i as int] == ps@[i as int]@);
                        assert(pv[i as int].kind == PVKind::Symbol(name@));
                        assert(params@[i as int]@ == name@);
                        assert forall|k: int| 0 <= k < i + 1 implies (#[trigger] params@[k])@ == pv[k].kind->Symbol_0 && pv[k].kind is Symbol by {
                            if k < i {
                                assert(params@[k] == before[k]);
                            }
                        }
                    }
                },
                _ => {
                    return fail("parameters must only be identifiers", Some(ps[i].span));
                },
            }
            i = i + 1;
        }
        proof {
            assert(strings_view(params@) =~= symbol_names(pv));
        }
        proof {
            vstd::std_specs::vec::axiom_vec_index_decreases(*xs, 2);
        }
        let body = match self.lower_value(&xs[2], t) {
            Ok(b) => b,
            Err(e) => {
                return Err(e);
            },
        };
        Ok(one_op(OperationKind::Closure { params, body: Rc::new(body) }, span))
    }

    fn let_exec(&mut self, xs: &Vec<ParserValue>, span: Span, t: Span) -> (r: Result<Vec<Operation>, ParseError>)
        requires
            xs@.len() >= 1,
        ensures
            lower_agrees(r, final(self).label_counter as nat, lower_form(Form::Let, args_of(xs@), span, old(self).label_counter as nat, t)),
            final(self).src == old(self).src,
            final(self).token == old(self).token,
            final(self).prev_token == old(self).prev_token,
            final(self).stream == old(self).stream,
            final(self).index == old(self).index,
        decreases *xs, exec_form_measure(xs@) - 1,
    {
        proof {
            lemma_args(xs@);
        }
        if xs.len() != 3 {
            return fail("let expression must have 2 sub-components: a binding list and a body", Some(t));
        }
        proof {
            lemma_pv_unfold(xs@[1]);
        }
        let bs = match &xs[1].kind {
            ParserValueKind::List(bs) => bs,
            _ => {
                return fail("let expression bindings must be given as a list", Some(xs[1].span));
            },
        };
        proof {
            vstd::std_specs::vec::axiom_vec_index_decreases(*xs, 1);
            assert(decreases_to!(xs@[1] => xs@[1].kind));
            assert(decreases_to!(xs@[1].kind => xs@[1].kind->List_0));
        }
        let (names, mut ops) = match self.lower_bindings_exec(bs, 0, t) {
            Ok(p) => p,
            Err(e) => {
                return Err(e);
            },
        };
        proof {
            vstd::std_specs::vec::axiom_vec_index_decreases(*xs, 2);
        }
        let body = match self.lower_value(&xs[2], t) {
            Ok(b) => b,
            Err(e) => {
                return Err(e);
            },
        };
        push_op(&mut ops, Operation { kind: OperationKind::Let { names, body: Rc::new(body) }, span });
        Ok(ops)
    }

    fn let_star_form(&mut self, xs: &Vec<ParserValue>, span: Span, t: Span) -> (r: Result<Vec<Operation>, ParseError>)
        requires
            xs@.len() >= 1,
        ensures
            lower_agrees(r, final(self).label_counter as nat, lower_form(Form::LetStar, args_of(xs@), span, old(self).label_counter as nat, t)),
            final(self).src == old(self).src,
            final(self).token == old(self).token,
            final(self).prev_token == old(self).prev_token,
            final(self).stream == old(self).stream,
            final(self).index == old(self).index,
        decreases *xs, exec_form_measure(xs@) - 1,
    {
        proof {
            lemma_args(xs@);
        }
        if xs.len() != 3 {
            return fail("let* expression must have 2 sub-components: a binding list and a body", Some(t));
        }
        proof {
            lemma_pv_unfold(xs@[1]);
        }
        let n = match &xs[1].kind {
            ParserValueKind::List(bs) => {
                proof {
                    lemma_pvs_view(bs@);
                }
                bs.len()
            },
            _ => {
                return fail("let* expression bindings must be given as a list", Some(xs[1].span));
            },
        };
        if n == 0 {
            return fail("binding pair must be given as a vector", Some(xs[1].span));
        }
        self.let_star_exec(xs, 0, span, t)
    }

    fn let_star_exec(&mut self, xs: &Vec<ParserValue>, i: usize, span: Span, t: Span) -> (r: Result<Vec<Operation>, ParseError>)
        requires
            xs@.len() == 3,
            xs@[1].kind is List,
            i < xs@[1].kind->List_0@.len(),
        ensures
            lower_agrees(r, final(self).label_counter as nat, let_star(args_of(xs@), i as int, span, old(self).label_counter as nat, t)),
            final(self).src == old(self).src,
            final(self).token == old(self).token,
            final(self).prev_token == old(self).prev_token,
            final(self).stream == old(self).stream,
            final(self).index == old(self).index,
        decreases *xs, xs@[1].kind->List_0@.len() - i,
    {
        proof {
            lemma_args(xs@);
            lemma_pv_unfold(xs@[1]);
        }
        let bs = match &xs[1].kind {
            ParserValueKind::List(bs) => bs,
            _ => vstd::pervasive::unreached(),
        };
        proof {
            lemma_pvs_view(bs@);
            vstd::std_specs::vec::axiom_vec_index_decreases(*xs, 1);
            assert(decreases_to!(xs@[1] => xs@[1].kind));
            assert(decreases_to!(xs@[1].kind => xs@[1].kind->List_0));
            vstd::std_specs::vec::axiom_vec_index_decreases(*bs, i as int);
        }
        let (name, mut ops) = match self.lower_binding_exec(&bs[i], t) {
            Ok(p) => p,
            Err(e) => {
                return Err(e);
            },
        };
        let inner = if i == bs.len() - 1 {
            proof {
                vstd::std_specs::vec::axiom_vec_index_decreases(*xs, 2);
            }
            self.lower_value(&xs[2], t)
        } else {
            self.let_star_exec(xs, i + 1, span, t)
        };
        let inner = match inner {
            Ok(b) => b,
            Err(e) => {
                return Err(e);
            },
        };
        let mut names: Vec<String> = Vec::new();
        names.push(name);
        proof {
            assert(strings_view(names@) =~= seq![names@[0]@]);
        }
        push_op(&mut ops, Operation { kind: OperationKind::Let { names, body: Rc::new(inner) }, span });
        Ok(ops)
    }

    /// Lowers one `[name expr]` binding.
    fn lower_binding_exec(&mut self, b: &ParserValue, t: Span) -> (r: Result<(String, Vec<Operation>), ParseError>)
        ensures
            match lower_binding(b@, old(self).label_counter as nat, t) {
                Ok((name, ops, c1)) => r is Ok && r->Ok_0.0@ == name && ops_view(r->Ok_0.1@) == ops
                    && final(self).label_counter == c1,
                Err(f) => r is Err && fails_with(r->Err_0, f),
            },
            final(self).src == old(self).src,
            final(self).token == old(self).token,
            final(self).prev_token == old(self).prev_token,
            final(self).stream == old(self).stream,
            final(self).index == old(self).index,
        decreases *b, 4nat,
    {
        proof {
            lemma_pv_unfold(*b);
        }
        let items = match &b.kind {
            ParserValueKind::Vector(items) => items,
            _ => {
                return Err(ParseError::new("binding pair must be given as a vector".to_owned(), Some(b.span)));
            },
        };
        proof {
            lemma_pvs_view(items@);
        }
        if items.len() != 2 {
            return Err(ParseError::new("binding must be a pair of a name and value".to_owned(), Some(b.span)));
        }
        proof {
            lemma_pv_unfold(items@[0]);
        }
        let name = match &items[0].kind {
            ParserValueKind::Symbol(s) => s.clone(),
            _ => {
                return Err(ParseError::new("the first component of a binding must be a symbol".to_owned(), Some(b.span)));
            },
        };
        proof {
            assert(decreases_to!(*b => b.kind));
            assert(decreases_to!(b.kind => b.kind->Vector_0));
            vstd::std_specs::vec::axiom_vec_index_decreases(*items, 1);
        }
        match self.lower_value(&items[1], t) {
            Ok(ops) => Ok((name, ops)),
            Err(e) => Err(e),
        }
    }

    /// Lowers the bindings of a `let` from the `i`-th on.
    fn lower_bindings_exec(&mut self, bs: &Vec<ParserValue>, i: usize, t: Span) -> (r: Result<(Vec<String>, Vec<Operation>), ParseError>)
        ensures
            match lower_bindings(pvs_view(bs@), i as int, old(self).label_counter as nat, t) {
                Ok((names, ops, c1)) => r is Ok && strings_view(r->Ok_0.0@) == names && ops_view(r->Ok_0.1@) == ops
                    && final(self).label_counter == c1,
                Err(f) => r is Err && fails_with(r->Err_0, f),
            },
            final(self).src == old(self).src,
            final(self).token == old(self).token,
            final(self).prev_token == old(self).prev_token,
            final(self).stream == old(self).stream,
            final(self).index == old(self).index,
        decreases *bs, bs@.len() - i,
    {
        proof {
            lemma_pvs_view(bs@);
        }
        if i >= bs.len() {
            proof {
                assert(ops_view(Seq::<Operation>::empty()) =~= Seq::<OperationV>::empty());
                assert(strings_view(Seq::<String>::empty()) =~= Seq::<Seq<char>>::empty());
            }
            return Ok((Vec::new(), Vec::new()));
        }
        proof {
            vstd::std_specs::vec::axiom_vec_index_decreases(*bs, i as int);
        }
        let (name, mut ops) = match self.lower_binding_exec(&bs[i], t) {
            Ok(p) => p,
            Err(e) => {
                return Err(e);
            },
        };
        let (rest_names, rest_ops) = match self.lower_bindings_exec(bs, i + 1, t) {
            Ok(p) => p,
            Err(e) => {
                return Err(e);
            },
        };
        let mut names: Vec<String> = Vec::new();
        names.push(name);
        let mut rn = rest_names;
        let ghost rv = strings_view(rn@);
        names.append(&mut rn);
        proof {
            assert(strings_view(names@) =~= seq![names@[0]@] + rv);
        }
        append_ops(&mut ops, rest_ops);
        Ok((names, ops))
    }

    fn junction_form(&mut self, xs: &Vec<ParserValue>, is_and: bool, span: Span, t: Span) -> (r: Result<Vec<Operation>, ParseError>)
        requires
            xs@.len() >= 1,
        ensures
            lower_agrees(r, final(self).label_counter as nat, lower_form(if is_and { Form::And } else { Form::Or }, args_of(xs@), span, old(self).label_counter as nat, t)),
            final(self).src == old(self).src,
            final(self).token == old(self).token,
            final(self).prev_token == old(self).prev_token,
            final(self).stream == old(self).stream,
            final(self).index == old(self).index,
        decreases *xs, exec_form_measure(xs@) - 1,
    {
        proof {
            lemma_args(xs@);
        }
        if self.label_counter == u32::MAX {
            return fail("too many labels in one program", Some(span));
        }
        let label = self.fresh_label();
        let mut ops = match self.junction_exec(xs, 0, &label, is_and, span, t) {
            Ok(o) => o,
            Err(e) => {
                return Err(e);
            },
        };
        let ghost before = ops_view(ops@);
        let v1 = Operation { kind: OperationKind::Value { value: Value::Boolean(is_and) }, span };
        let v2 = Operation { kind: OperationKind::Label { name: label }, span: Span { loc: 0, len: 0 } };
        let ghost w1 = v1@;
        let ghost w2 = v2@;
        push_op(&mut ops, v1);
        push_op(&mut ops, v2);
        proof {
            crate::value::lemma_value_view_step(Value::Boolean(is_and));
            assert(ops_view(ops@) =~= before + seq![w1, w2]);
        }
        Ok(ops)
    }

    fn junction_exec(&mut self, xs: &Vec<ParserValue>, i: usize, label: &String, is_and: bool, span: Span, t: Span) -> (r: Result<Vec<Operation>, ParseError>)
        requires
            xs@.len() >= 1,
            i < xs@.len(),
        ensures
            lower_agrees(r, final(self).label_counter as nat, lower_junction(args_of(xs@), i as int, label@, is_and, span, old(self).label_counter as nat, t)),
            final(self).src == old(self).src,
            final(self).token == old(self).token,
            final(self).prev_token == old(self).prev_token,
            final(self).stream == old(self).stream,
            final(self).index == old(self).index,
        decreases *xs, xs@.len() - i,
    {
        proof {
            lemma_args(xs@);
        }
        if i >= xs.len() - 1 {
            proof {
                assert(ops_view(Seq::<Operation>::empty()) =~= Seq::<OperationV>::empty());
            }
            return Ok(Vec::new());
        }
        proof {
            vstd::std_specs::vec::axiom_vec_index_decreases(*xs, i + 1);
        }
        let mut a = match self.lower_value(&xs[i + 1], t) {
            Ok(a) => a,
            Err(e) => {
                return Err(e);
            },
        };
        let rest = match self.junction_exec(xs, i + 1, label, is_and, span, t) {
            Ok(b) => b,
            Err(e) => {
                return Err(e);
            },
        };
        let kind = if is_and {
            OperationKind::And { jump_to: label.clone() }
        } else {
            OperationKind::Or { jump_to: label.clone() }
        };
        push_op(&mut a, Operation { kind, span });
        append_ops(&mut a, rest);
        Ok(a)
    }

    fn if_exec(&mut self, xs: &Vec<ParserValue>, span: Span, t: Span) -> (r: Result<Vec<Operation>, ParseError>)
        requires
            xs@.len() >= 1,
        ensures
            lower_agrees(r, final(self).label_counter as nat, lower_form(Form::If, args_of(xs@), span, old(self).label_counter as nat, t)),
            final(self).src == old(self).src,
            final(self).token == old(self).token,
            final(self).prev_token == old(self).prev_token,
            final(self).stream == old(self).stream,
            final(self).index == old(self).index,
        decreases *xs, exec_form_measure(xs@) - 1,
    {
        proof {
            lemma_args(xs@);
        }
        if xs.len() != 4 {
            return fail("if expression must have 3 sub-expressions: a guard, if-branch, and else-branch", Some(t));
        }
        proof {
            vstd::std_specs::vec::axiom_vec_index_decreases(*xs, 1);
            vstd::std_specs::vec::axiom_vec_index_decreases(*xs, 2);
            vstd::std_specs::vec::axiom_vec_index_decreases(*xs, 3);
        }
        let mut guard = match self.lower_value(&xs[1], t) {
            Ok(o) => o,
            Err(e) => {
                return Err(e);
            },
        };
        let a = match self.lower_value(&xs[2], t) {
            Ok(o) => o,
            Err(e) => {
                return Err(e);
            },
        };
        let b = match self.lower_value(&xs[3], t) {
            Ok(o) => o,
            Err(e) => {
                return Err(e);
            },
        };
        push_op(&mut guard, Operation { kind: OperationKind::If { if_block: Rc::new(a), else_block: Rc::new(b) }, span });
        Ok(guard)
    }

    fn match_exec(&mut self, xs: &Vec<ParserValue>, span: Span, t: Span) -> (r: Result<Vec<Operation>, ParseError>)
        requires
            xs@.len() >= 1,
        ensures
            lower_agrees(r, final(self).label_counter as nat, lower_form(Form::Match, args_of(xs@), span, old(self).label_counter as nat, t)),
            final(self).src == old(self).src,
            final(self).token == old(self).token,
            final(self).prev_token == old(self).prev_token,
            final(self).stream == old(self).stream,
            final(self).index == old(self).index,
        decreases *xs, exec_form_measure(xs@) - 1,
    {
        proof {
            lemma_args(xs@);
        }
        if xs.len() < 3 {
            return fail("match expression must have at least two sub-expressions: a scrutinee at least one branch", Some(t));
        }
        proof {
            vstd::std_specs::vec::axiom_vec_index_decreases(*xs, 1);
        }
        let mut ops = match self.lower_value(&xs[1], t) {
            Ok(o) => o,
            Err(e) => {
                return Err(e);
            },
        };
        let branches = match self.match_branches_exec(xs, 1, t) {
            Ok(b) => b,
            Err(e) => {
                return Err(e);
            },
        };
        push_op(&mut ops, Operation { kind: OperationKind::Match { branches }, span });
        Ok(ops)
    }

    fn match_branches_exec(&mut self, xs: &Vec<ParserValue>, i: usize, t: Span) -> (r: Result<Vec<MatchBranch>, ParseError>)
        requires
            xs@.len() >= 1,
            i < xs@.len(),
        ensures
            match match_branches(args_of(xs@), i as int, old(self).label_counter as nat, t) {
                Ok((bs, c1)) => r is Ok && crate::ast::branches_view(r->Ok_0@) == bs && final(self).label_counter == c1,
                Err(f) => r is Err && fails_with(r->Err_0, f),
            },
            final(self).src == old(self).src,
            final(self).token == old(self).token,
            final(self).prev_token == old(self).prev_token,
            final(self).stream == old(self).stream,
            final(self).index == old(self).index,
        decreases *xs, xs@.len() - i,
    {
        proof {
            lemma_args(xs@);
        }
        if i >= xs.len() - 1 {
            proof {
                assert(crate::ast::branches_view(Seq::<MatchBranch>::empty()) =~= Seq::<(ValueV, Seq<OperationV>)>::empty());
            }
            return Ok(Vec::new());
        }
        let b = &xs[i + 1];
        proof {
            lemma_pv_unfold(*b);
        }
        let items = match &b.kind {
            ParserValueKind::Vector(items) => items,
            _ => {
                return Err(ParseError::new("match branch must be given as a vector".to_owned(), Some(b.span)));
            },
        };
        proof {
            lemma_pvs_view(items@);
        }
        if items.len() != 2 {
            return Err(ParseError::new("match branches must be given as a pair of a pattern and an expression".to_owned(), Some(b.span)));
        }
        proof {
            vstd::std_specs::vec::axiom_vec_index_decreases(*xs, i + 1);
            assert(decreases_to!(xs@[i + 1] => xs@[i + 1].kind));
            assert(decreases_to!(xs@[i + 1].kind => xs@[i + 1].kind->Vector_0));
            vstd::std_specs::vec::axiom_vec_index_decreases(*items, 1);
        }
        let body = match self.lower_value(&items[1], t) {
            Ok(o) => o,
            Err(e) => {
                return Err(e);
            },
        };
        let pattern = to_datum(&items[0]);
        let rest = match self.match_branches_exec(xs, i + 1, t) {
            Ok(o) => o,
            Err(e) => {
                return Err(e);
            },
        };
        let mut out: Vec<MatchBranch> = Vec::new();
        out.push(MatchBranch { pattern, body: Rc::new(body) });
        let mut rest = rest;
        let ghost rest_seq = rest@;
        let ghost first = out@;
        out.append(&mut rest);
        proof {
            lemma_branches_append(first, rest_seq);
            assert(out@ =~= first + rest_seq);
            assert(first.drop_last() =~= Seq::<MatchBranch>::empty());
            assert(crate::ast::branches_view(Seq::<MatchBranch>::empty()) =~= Seq::<(ValueV, Seq<OperationV>)>::empty());
            assert(crate::ast::branches_view(first) =~= seq![(first[0].pattern@, ops_view(first[0].body@))]);
        }
        Ok(out)
    }

    fn cond_exec(&mut self, xs: &Vec<ParserValue>, span: Span, t: Span) -> (r: Result<Vec<Operation>, ParseError>)
        requires
            xs@.len() >= 1,
        ensures
            lower_agrees(r, final(self).label_counter as nat, lower_form(Form::Cond, args_of(xs@), span, old(self).label_counter as nat, t)),
            final(self).src == old(self).src,
            final(self).token == old(self).token,
            final(self).prev_token == old(self).prev_token,
            final(self).stream == old(self).stream,
            final(self).index == old(self).index,
        decreases *xs, exec_form_measure(xs@) - 1,
    {
        proof {
            lemma_args(xs@);
        }
        if xs.len() < 2 {
            return fail("cond expression must have at least one branch", Some(span));
        }
        if self.label_counter == u32::MAX {
            return fail("too many labels in one program", Some(span));
        }
        let label = self.fresh_label();
        let mut ops = match self.cond_branches_exec(xs, 0, &label, span, t) {
            Ok(o) => o,
            Err(e) => {
                return Err(e);
            },
        };
        let ghost before = ops_view(ops@);
        let v1 = Operation {
            kind: OperationKind::Exception {
                message: "No branches of \"cond\" expression matched".to_owned(),
                mod_name: None,
                span: Some(span),
                source: None,
            },
            span: Span { loc: 0, len: 0 },
        };
        let v2 = Operation { kind: OperationKind::Label { name: label }, span: Span { loc: 0, len: 0 } };
        let ghost w1 = v1@;
        let ghost w2 = v2@;
        push_op(&mut ops, v1);
        push_op(&mut ops, v2);
        proof {
            assert(ops_view(ops@) =~= before + seq![w1, w2]);
        }
        Ok(ops)
    }

    fn cond_branches_exec(&mut self, xs: &Vec<ParserValue>, i: usize, label: &String, span: Span, t: Span) -> (r: Result<Vec<Operation>, ParseError>)
        requires
            xs@.len() >= 1,
            i < xs@.len(),
        ensures
            lower_agrees(r, final(self).label_counter as nat, cond_branches(args_of(xs@), i as int, label@, span, old(self).label_counter as nat, t)),
            final(self).src == old(self).src,
            final(self).token == old(self).token,
            final(self).prev_token == old(self).prev_token,
            final(self).stream == old(self).stream,
            final(self).index == old(self).index,
        decreases *xs, xs@.len() - i,
    {
        proof {
            lemma_args(xs@);
        }
        if i >= xs.len() - 1 {
            proof {
                assert(ops_view(Seq::<Operation>::empty()) =~= Seq::<OperationV>::empty());
            }
            return Ok(Vec::new());
        }
        let b = &xs[i + 1];
        proof {
            lemma_pv_unfold(*b);
        }
        let items = match &b.kind {
            ParserValueKind::Vector(items) => items,
            _ => {
                return fail("cond branch must be given as a vector", Some(b.span));
            },
        };
        proof {
            lemma_pvs_view(items@);
        }
        if items.len() != 2 {
            return fail("cond branch must be a pair of expressions", Some(b.span));
        }
        proof {
            vstd::std_specs::vec::axiom_vec_index_decreases(*xs, i + 1);
            assert(decreases_to!(xs@[i + 1] => xs@[i + 1].kind));
            assert(decreases_to!(xs@[i + 1].kind => xs@[i + 1].kind->Vector_0));
            vstd::std_specs::vec::axiom_vec_index_decreases(*items, 0);
            vstd::std_specs::vec::axiom_vec_index_decreases(*items, 1);
        }
        let mut guard = match self.lower_value(&items[0], t) {
            Ok(o) => o,
            Err(e) => {
                return Err(e);
            },
        };
        let body = match self.lower_value(&items[1], t) {
            Ok(o) => o,
            Err(e) => {
                return Err(e);
            },
        };
        let rest = match self.cond_branches_exec(xs, i + 1, label, span, t) {
            Ok(o) => o,
            Err(e) => {
                return Err(e);
            },
        };
        push_op(&mut guard, Operation { kind: OperationKind::Cond { body: Rc::new(body), end: label.clone() }, span });
        append_ops(&mut guard, rest);
        Ok(guard)
    }
}

proof fn lemma_branches_append(a: Seq<MatchBranch>, b: Seq<MatchBranch>)
    ensures
        crate::ast::branches_view(a + b) == crate::ast::branches_view(a) + crate::ast::branches_view(b),
    decreases b.len(),
{
    if b.len() == 0 {
        assert(a + b =~= a);
        assert(crate::ast::branches_view(a) + crate::ast::branches_view(b) =~= crate::ast::branches_view(a));
    } else {
        assert((a + b).drop_last() =~= a + b.drop_last());
        lemma_branches_append(a, b.drop_last());
        assert(crate::ast::branches_view(a + b) =~= crate::ast::branches_view(a) + crate::ast::branches_view(b));
    }
}

proof fn lemma_lower_seq_shift(items: Seq<PV>, i: int, c: nat, t: Span)
    requires
        1 <= i <= items.len(),
    ensures
        lower_seq(items, i, c, t) == lower_seq(items.skip(1), i - 1, c, t),
    decreases items.len() - i,
{
    if i < items.len() {
        assert(items.skip(1)[i - 1] == items[i]);
        match lower(items[i], c, t) {
            Ok((a, c1)) => {
                lemma_lower_seq_shift(items, i + 1, c1, t);
            },
            Err(_) => {},
        }
    }
}


// ---------------------------------------------------------------------------
// Statements
// ---------------------------------------------------------------------------

/// The statement a top-level s-expression `v` makes, with label counter `c`
/// and `t` the span of the token after it.
pub open spec fn stmt_of(v: PV, c: nat, t: Span) -> Result<(StatementV, nat), Fail> {
    let expr = match lower(v, c, t) {
        Err(e) => Err(e),
        Ok((ops, c1)) => Ok((StatementV { kind: StatementKindV::Expression(ops), span: v.span }, c1)),
    };
    match v.kind {
        PVKind::List(xs) => if xs.len() == 0 {
            Ok((StatementV { kind: StatementKindV::Expression(seq![op(OpKindV::Value(ValueV::Null), v.span)]), span: v.span }, c))
        } else if !(xs[0].kind is Symbol) {
            expr
        } else {
            let head = xs[0].kind->Symbol_0;
            if head == "define"@ {
                if xs.len() != 3 {
                    Err(("define statements must have 2 sub-components: an identifier and a body"@, Some(v.span)))
                } else if !(xs[1].kind is Symbol) {
                    Err(("the first component of a define statement must be an identifier"@, Some(xs[1].span)))
                } else {
                    match lower(xs[2], c, t) {
                        Err(e) => Err(e),
                        Ok((ops, c1)) => Ok((StatementV { kind: StatementKindV::Binding(xs[1].kind->Symbol_0, ops), span: v.span }, c1)),
                    }
                }
            } else if head == "import"@ {
                if xs.len() != 2 {
                    Err(("import statements must have 1 argument: the name of a module"@, Some(v.span)))
                } else if !(xs[1].kind is Symbol) {
                    Err(("the argument of an import statement must be a module name"@, Some(xs[1].span)))
                } else {
                    Ok((StatementV { kind: StatementKindV::Import(xs[1].kind->Symbol_0), span: v.span }, c))
                }
            } else if head == "display"@ {
                if xs.len() != 2 {
                    Err(("display statements must have 1 argument, the expression to display"@, Some(v.span)))
                } else {
                    match lower(xs[1], c, t) {
                        Err(e) => Err(e),
                        Ok((ops, c1)) => Ok((StatementV { kind: StatementKindV::Display(ops), span: v.span }, c1)),
                    }
                }
            } else if head == "struct"@ {
                if xs.len() != 3 {
                    Err(("struct statements must have 2 sub-components: a name and a list of fields"@, Some(v.span)))
                } else if !(xs[1].kind is Symbol) {
                    Err(("the first component of a struct statement must be an identifier"@, Some(xs[1].span)))
                } else if !(xs[2].kind is List) || first_non_symbol(xs[2].kind->List_0, 0) is Some {
                    Err(("the fields of a struct statement must be a list of identifiers"@, Some(xs[2].span)))
                } else {
                    Ok((StatementV { kind: StatementKindV::Struct(xs[1].kind->Symbol_0, symbol_names(xs[2].kind->List_0)), span: v.span }, c))
                }
            } else {
                expr
            }
        },
        _ => expr,
    }
}

/// The statements read from token `j` on, with label counter `c`.
pub open spec fn parse_from(src: Seq<char>, toks: Seq<Token>, j: int, c: nat) -> Result<Seq<StatementV>, Fail>
    decreases toks.len() - j,
{
    if token_at(toks, j).kind is Eof || j < 0 || j >= toks.len() {
        Ok(seq![])
    } else {
        match read_value(src, toks, j) {
            Err(e) => Err(e),
            Ok((v, k)) => match stmt_of(v, c, token_at(toks, k).span) {
                Err(e) => Err(e),
                Ok((st, c1)) => if j < k <= toks.len() {
                    match parse_from(src, toks, k, c1) {
                        Err(e) => Err(e),
                        Ok(rest) => Ok(seq![st] + rest),
                    }
                } else {
                    Err(("unexpected end of input"@, Some(token_at(toks, j).span)))
                },
            },
        }
    }
}

/// The statements of a whole program, or the error that stops it.
pub open spec fn parse_program(src: Seq<char>) -> Result<Seq<StatementV>, Fail> {
    if crate::text::byte_len(src) > u32::MAX {
        Err((crate::lexer::too_long_message(), None))
    } else {
        match crate::lexer::lex(src) {
            Err(span) => Err((crate::lexer::unterminated_message(), Some(span))),
            Ok(tokens) => parse_from(src, without_comments(tokens), 0, 0),
        }
    }
}

impl<'a> Parser<'a> {
    /// Reads and lowers the next statement; `None` at the end of the input.
    pub fn parse_stmt(&mut self) -> (r: Result<Option<Statement>, ParseError>)
        requires
            old(self).wf(),
        ensures
            final(self).wf(),
            final(self).toks() == old(self).toks(),
            final(self).src == old(self).src,
            old(self).token.kind is Eof ==> r == Ok::<Option<Statement>, ParseError>(None) && *final(self) == *old(self),
            !(old(self).token.kind is Eof) ==> match read_value(old(self).src@, old(self).toks(), old(self).pos()) {
                Err(f) => r is Err && fails_with(r->Err_0, f),
                Ok((v, k)) => final(self).pos() == k && match stmt_of(v, old(self).label_counter as nat, token_at(old(self).toks(), k).span) {
                    Err(f) => r is Err && fails_with(r->Err_0, f),
                    Ok((st, c1)) => r is Ok && r->Ok_0 is Some && r->Ok_0->Some_0@ == st && final(self).label_counter == c1,
                },
            },
    {
        if self.token.is_eof() {
            return Ok(None);
        }
        let value = self.parse_value()?;
        let t = self.token.span;
        proof {
            lemma_pv_unfold(value);
        }
        let xs = match &value.kind {
            ParserValueKind::List(xs) => xs,
            _ => {
                let body = self.lower_value(&value, t)?;
                return Ok(Some(Statement::expr(body, value.span)));
            },
        };
        proof {
            lemma_pvs_view(xs@);
        }
        if xs.len() == 0 {
            let body = one_op(OperationKind::Value { value: Value::Null }, value.span);
            return Ok(Some(Statement::expr(body, value.span)));
        }
        proof {
            lemma_pv_unfold(xs@[0]);
        }
        let head = match &xs[0].kind {
            ParserValueKind::Symbol(h) => h,
            _ => {
                let body = self.lower_value(&value, t)?;
                return Ok(Some(Statement::expr(body, value.span)));
            },
        };
        let h = head.as_str();
        if h.eq("define") {
            if xs.len() != 3 {
                return Err(err("define statements must have 2 sub-components: an identifier and a body", Some(value.span)));
            }
            proof {
                lemma_pv_unfold(xs@[1]);
            }
            let name = match &xs[1].kind {
                ParserValueKind::Symbol(n) => n.clone(),
                _ => {
                    return Err(err("the first component of a define statement must be an identifier", Some(xs[1].span)));
                },
            };
            let body = self.lower_value(&xs[2], t)?;
            Ok(Some(Statement::binding(name, body, value.span)))
        } else if h.eq("import") {
            if xs.len() != 2 {
                return Err(err("import statements must have 1 argument: the name of a module", Some(value.span)));
            }
            proof {
                lemma_pv_unfold(xs@[1]);
            }
            match &xs[1].kind {
                ParserValueKind::Symbol(n) => Ok(Some(Statement::import(n.clone(), value.span))),
                _ => Err(err("the argument of an import statement must be a module name", Some(xs[1].span))),
            }
        } else if h.eq("display") {
            if xs.len() != 2 {
                return Err(err("display statements must have 1 argument, the expression to display", Some(value.span)));
            }
            let body = self.lower_value(&xs[1], t)?;
            Ok(Some(Statement::display(body, value.span)))
        } else if h.eq("struct") {
            if xs.len() != 3 {
                return Err(err("struct statements must have 2 sub-components: a name and a list of fields", Some(value.span)));
            }
            proof {
                lemma_pv_unfold(xs@[1]);
                lemma_pv_unfold(xs@[2]);
            }
            let id = match &xs[1].kind {
                ParserValueKind::Symbol(n) => n.clone(),
                _ => {
                    return Err(err("the first component of a struct statement must be an identifier", Some(xs[1].span)));
                },
            };
            let fields = match &xs[2].kind {
                ParserValueKind::List(fs) => match symbols_of(fs) {
                    Some(names) => names,
                    None => {
                        return Err(err("the fields of a struct statement must be a list of identifiers", Some(xs[2].span)));
                    },
                },
                _ => {
                    return Err(err("the fields of a struct statement must be a list of identifiers", Some(xs[2].span)));
                },
            };
            Ok(Some(Statement::new(StatementKind::Struct { id, fields }, value.span)))
        } else {
            let body = self.lower_value(&value, t)?;
            Ok(Some(Statement::expr(body, value.span)))
        }
    }
}

/// The names of a list of symbols, or `None` if an item is not a symbol.
fn symbols_of(ps: &Vec<ParserValue>) -> (r: Option<Vec<String>>)
    ensures
        match first_non_symbol(pvs_view(ps@), 0) {
            Some(_) => r is None,
            None => r is Some && strings_view(r->Some_0@) == symbol_names(pvs_view(ps@)),
        },
{
    proof {
        lemma_pvs_view(ps@);
    }
    let ghost pv = pvs_view(ps@);
    let mut names: Vec<String> = Vec::new();
    let mut i: usize = 0;
    while i < ps.len()
        invariant
            i <= ps@.len(),
            pv == pvs_view(ps@),
            pv.len() == ps@.len(),
            forall|k: int| 0 <= k < ps@.len() ==> #[trigger] pv[k] == ps@[k]@,
            first_non_symbol(pv, 0) == first_non_symbol(pv, i as int),
            names@.len() == i,
            forall|k: int| 0 <= k < i ==> (#[trigger] names@[k])@ == pv[k].kind->Symbol_0,
        decreases ps@.len() - i,
    {
        proof {
            lemma_pv_unfold(ps@[i as int]);
        }
        match &ps[i].kind {
            ParserValueKind::Symbol(n) => names.push(n.clone()),
            _ => {
                return None;
            },
        }
        i = i + 1;
    }
    proof {
        assert(strings_view(names@) =~= symbol_names(pv));
    }
    Some(names)
}


impl<'a> Parser<'a> {
    /// Reads and lowers every statement up to the end of the input.
    pub fn parse_statements(&mut self) -> (r: Result<Vec<Statement>, ParseError>)
        requires
            old(self).wf(),
        ensures
            match parse_from(old(self).src@, old(self).toks(), old(self).pos(), old(self).label_counter as nat) {
                Ok(sts) => r is Ok && statements_view(r->Ok_0@) == sts,
                Err(f) => r is Err && fails_with(r->Err_0, f),
            },
    {
        let ghost src = self.src@;
        let ghost toks = self.toks();
        let ghost goal = parse_from(src, toks, self.pos(), self.label_counter as nat);
        let mut stmts: Vec<Statement> = Vec::new();
        loop
            invariant
                self.wf(),
                self.src@ == src,
                self.toks() == toks,
                goal == parse_from(old(self).src@, old(self).toks(), old(self).pos(), old(self).label_counter as nat),
                goal == match parse_from(src, toks, self.pos(), self.label_counter as nat) {
                    Ok(rest) => Ok(statements_view(stmts@) + rest),
                    Err(f) => Err(f),
                },
            decreases toks.len() - self.pos(),
        {
            if self.index >= self.stream.tokens.len() || self.token.is_eof() {
                proof {
                    assert(statements_view(stmts@) + Seq::<StatementV>::empty() =~= statements_view(stmts@));
                }
                return Ok(stmts);
            }
            let j = self.index;
            let tok_span = self.token.span;
            let st = match self.parse_stmt() {
                Ok(Some(st)) => st,
                Ok(None) => {
                    return Ok(stmts);
                },
                Err(e) => {
                    return Err(e);
                },
            };
            if self.index <= j {
                return Err(err("unexpected end of input", Some(tok_span)));
            }
            let ghost before = stmts@;
            stmts.push(st);
            proof {
                assert(statements_view(stmts@) =~= statements_view(before).push(stmts@.last()@));
                match parse_from(src, toks, self.pos(), self.label_counter as nat) {
                    Ok(rest) => {
                        assert(statements_view(before) + (seq![stmts@.last()@] + rest) =~= statements_view(stmts@) + rest);
                    },
                    Err(_) => {},
                }
            }
        }
    }
}

/// Parses a whole program into statements.
pub fn parse(src: &str) -> (r: Result<Ast, ParseError>)
    ensures
        match parse_program(src@) {
            Ok(sts) => r is Ok && statements_view(r->Ok_0.statements@) == sts,
            Err(f) => r is Err && fails_with(r->Err_0, f),
        },
{
    let mut parser = Parser::new_raw(src)?;
    let statements = parser.parse_statements()?;
    Ok(Ast { statements })
}

} // verus!

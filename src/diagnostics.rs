//! Errors reported while reading and lowering source text.
use crate::render::{nat_digits, push_digits};
use crate::text::{slice_span, span_fits, span_text};
use crate::span::Span;
use vstd::prelude::*;
use vstd::std_specs::iter::IteratorSpec;
use vstd::string::StringSliceAdditionalSpecFns;

verus! {

/// A numeric diagnostic code, rendered as `E` and four digits.
#[derive(Debug, Clone, Copy, PartialEq, Eq, Structural)]
pub struct ErrorCode(pub u32);

impl ErrorCode {
    pub fn new(code: u32) -> (r: ErrorCode)
        ensures
            r.0 == code,
    {
        ErrorCode(code)
    }
}

#[derive(Debug, Clone, Copy, PartialEq, Eq, Structural)]
pub enum ErrorLevel {
    Warning,
    Error,
    Help,
    Note,
}

/// An error found while lexing, reading or lowering a program.
#[derive(Debug, Clone)]
pub struct ParseError {
    pub level: ErrorLevel,
    pub code: Option<ErrorCode>,
    pub message: String,
    pub span: Option<Span>,
    pub help: Option<String>,
    pub note: Option<String>,
}

impl ParseError {
    /// An error-level diagnostic with no code, help or note.
    pub fn new(message: String, span: Option<Span>) -> (r: ParseError)
        ensures
            r.level == ErrorLevel::Error,
            r.code is None,
            r.message@ == message@,
            r.span == span,
            r.help is None,
            r.note is None,
    {
        ParseError { level: ErrorLevel::Error, code: None, message, span, help: None, note: None }
    }

    pub fn with_code(self, code: u32) -> (r: ParseError)
        ensures
            r.code == Some(ErrorCode(code)),
            r.level == self.level,
            r.message@ == self.message@,
            r.span == self.span,
            r.help == self.help,
            r.note == self.note,
    {
        ParseError { code: Some(ErrorCode::new(code)), ..self }
    }

    /// The error has message `msg` and source position `span`.
    pub open spec fn says(&self, msg: Seq<char>, span: Option<Span>) -> bool {
        self.message@ == msg && self.span == span
    }
}

/// An error raised while evaluating a program.
#[derive(Debug, Clone)]
pub struct RuntimeError {
    pub message: String,
    pub span: Option<Span>,
}

/// A runtime error as the evaluator's specification speaks of it.
pub struct RuntimeErrorV {
    pub message: Seq<char>,
    pub span: Option<Span>,
}

impl View for RuntimeError {
    type V = RuntimeErrorV;

    open spec fn view(&self) -> RuntimeErrorV {
        RuntimeErrorV { message: self.message@, span: self.span }
    }
}

impl RuntimeError {
    pub fn new(message: String, span: Option<Span>) -> (r: RuntimeError)
        ensures
            r@ == (RuntimeErrorV { message: message@, span }),
    {
        RuntimeError { message, span }
    }
}


// ---------------------------------------------------------------------------
// Lines and columns
// ---------------------------------------------------------------------------

/// How many bytes of `b` equal `x`.
pub open spec fn count_byte(b: Seq<u8>, x: u8) -> nat
    decreases b.len(),
{
    if b.len() == 0 {
        0
    } else {
        count_byte(b.drop_last(), x) + if b.last() == x {
            1nat
        } else {
            0nat
        }
    }
}

/// Relies on `bytecount::count`: the number of bytes of `haystack` equal to
/// `needle`.
#[verifier::external_body]
fn count_bytes(haystack: &[u8], needle: u8) -> (r: usize)
    ensures
        r == count_byte(haystack@, needle),
{
    bytecount::count(haystack, needle)
}

/// The position of the last newline of `b`, or -1.
pub open spec fn last_newline(b: Seq<u8>) -> int
    decreases b.len(),
{
    if b.len() == 0 {
        -1
    } else if b.last() == 10 {
        b.len() - 1
    } else {
        last_newline(b.drop_last())
    }
}

/// The 1-based line of byte offset `off`.
pub open spec fn line_at(b: Seq<u8>, off: int) -> int {
    count_byte(b.take(off), 10) as int + 1
}

/// The 1-based column of byte offset `off`.
pub open spec fn column_at(b: Seq<u8>, off: int) -> int {
    off - last_newline(b.take(off))
}

fn last_newline_before(b: &[u8], off: usize) -> (r: i64)
    requires
        off <= b@.len(),
        b@.len() < 0x8000_0000_0000_0000,
    ensures
        r == last_newline(b@.take(off as int)),
{
    let mut i = off;
    while i > 0
        invariant
            i <= off <= b@.len(),
            b@.len() < 0x8000_0000_0000_0000,
            last_newline(b@.take(off as int)) == last_newline(b@.take(i as int)),
        decreases i,
    {
        proof {
            assert(b@.take(i as int).drop_last() =~= b@.take(i - 1));
            assert(b@.take(i as int).last() == b@[i - 1]);
        }
        if b[i - 1] == 10 {
            return (i - 1) as i64;
        }
        i = i - 1;
    }
    -1
}

/// `line:column` of byte offset `off` of `b`, and whether it ends a range.
fn push_position(s: &mut String, b: &[u8], off: usize, end: bool)
    requires
        off <= b@.len(),
        b@.len() < 0x8000_0000_0000_0000,
    ensures
        final(s)@ == old(s)@ + position_text(b@, off as int, end),
{
    let lines = count_bytes(vstd::slice::slice_subrange(b, 0, off), 10);
    proof {
        assert(b@.subrange(0, off as int) =~= b@.take(off as int));
        assert(lines <= off) by {
            lemma_count_byte_le(b@.take(off as int), 10);
        }
    }
    push_digits(s, lines as u64 + 1);
    s.push(':');
    let nl = last_newline_before(b, off);
    proof {
        lemma_last_newline_bound(b@.take(off as int));
    }
    let col: u64 = (off as i128 - nl as i128) as u64;
    if end {
        push_digits(s, if col > 0 { col - 1 } else { 0 });
    } else {
        push_digits(s, col);
    }
}

proof fn lemma_count_byte_le(b: Seq<u8>, x: u8)
    ensures
        count_byte(b, x) <= b.len(),
    decreases b.len(),
{
    if b.len() > 0 {
        lemma_count_byte_le(b.drop_last(), x);
    }
}

proof fn lemma_last_newline_bound(b: Seq<u8>)
    ensures
        -1 <= last_newline(b) < b.len(),
    decreases b.len(),
{
    if b.len() > 0 {
        lemma_last_newline_bound(b.drop_last());
    }
}

/// `line:column` of an offset; at the end of a range the column is that of
/// the last byte inside it.
pub open spec fn position_text(b: Seq<u8>, off: int, end: bool) -> Seq<char> {
    let col = column_at(b, off);
    nat_digits(line_at(b, off) as nat) + seq![':'] + nat_digits(
        if end {
            if col > 0 {
                (col - 1) as nat
            } else {
                0
            }
        } else {
            col as nat
        },
    )
}

/// The range `startLine:startCol-endLine:endCol` of `span` in `b`, its end
/// cut to the end of the text.
pub open spec fn range_text(b: Seq<u8>, span: Span) -> Seq<char> {
    let end = if span.end() <= b.len() {
        span.end()
    } else {
        b.len() as int
    };
    position_text(b, span.loc as int, false) + seq!['-'] + position_text(b, end, true)
}

/// How a runtime error is reported next to the text it came from.
pub open spec fn runtime_report(e: RuntimeErrorV, b: Seq<u8>) -> Seq<char> {
    match e.span {
        Some(span) => if span.loc >= b.len() {
            "Runtime error: "@ + e.message
        } else {
            "Runtime error ["@ + range_text(b, span) + "]: "@ + e.message + "."@
        },
        None => "Runtime error: "@ + e.message + "."@,
    }
}

fn push_range(s: &mut String, b: &[u8], span: Span)
    requires
        span.loc < b@.len(),
        b@.len() < 0x8000_0000_0000_0000,
    ensures
        final(s)@ == old(s)@ + range_text(b@, span),
{
    let loc = span.loc as usize;
    let len = span.len as usize;
    let end = if len <= b.len() - loc { loc + len } else { b.len() };
    push_position(s, b, loc, false);
    s.push('-');
    push_position(s, b, end, true);
    proof {
        assert(s@ =~= old(s)@ + range_text(b@, span));
    }
}

impl RuntimeError {
    /// The error as reported to a user of the text `src` it came from.
    pub fn emit_to_string(&self, src: &str) -> (r: String)
        ensures
            src.spec_bytes().len() < 0x8000_0000_0000_0000 ==> r@ == runtime_report(self@, src.spec_bytes()),
    {
        let b = src.as_bytes();
        let too_long = b.len() as u64 >= 0x8000_0000_0000_0000u64;
        let mut s = match self.span {
            Some(span) => {
                if too_long || span.loc as usize >= b.len() {
                    let mut s = "Runtime error: ".to_owned();
                    s.push_str(self.message.as_str());
                    return s;
                }
                let mut s = "Runtime error [".to_owned();
                push_range(&mut s, b, span);
                s.push_str("]: ");
                s
            },
            None => "Runtime error: ".to_owned(),
        };
        s.push_str(self.message.as_str());
        s.push_str(".");
        s
    }
}


pub open spec fn upper_ascii(c: char) -> char {
    if 'a' <= c <= 'z' {
        ((c as u32) - 32) as char
    } else {
        c
    }
}

/// A message as a sentence: first letter capitalized, and a full stop.
pub open spec fn sentence(m: Seq<char>) -> Seq<char> {
    if m.len() == 0 {
        Seq::empty()
    } else {
        seq![upper_ascii(m[0])] + m.skip(1) + "."@
    }
}

/// How a parse error is reported in a web page next to the text it came from.
pub open spec fn web_report(message: Seq<char>, span: Option<Span>, b: Seq<u8>) -> Seq<char> {
    match span {
        Some(sp) => if sp.loc >= b.len() {
            "Parser error: "@ + message
        } else {
            "Parser error ["@ + range_text(b, sp) + "]: "@ + sentence(message)
        },
        None => "Parser error: "@ + sentence(message),
    }
}

fn push_sentence(s: &mut String, m: &String)
    ensures
        final(s)@ == old(s)@ + sentence(m@),
{
    let mut first = true;
    for c in it: m.as_str().chars()
        invariant
            it.seq() == m@,
            first == (it.index() == 0),
            s@ == old(s)@ + if it.index() == 0 {
                Seq::<char>::empty()
            } else {
                seq![upper_ascii(m@[0])] + m@.subrange(1, it.index() as int)
            },
    {
        if first {
            let u = if 'a' <= c && c <= 'z' { ((c as u32) - 32) as u8 as char } else { c };
            s.push(u);
            first = false;
            proof {
                assert(m@.subrange(1, 1) =~= Seq::<char>::empty());
                assert(s@ =~= old(s)@ + (seq![upper_ascii(m@[0])] + m@.subrange(1, 1)));
            }
        } else {
            s.push(c);
            proof {
                assert(s@ =~= old(s)@ + (seq![upper_ascii(m@[0])] + m@.subrange(1, it.index() + 1)));
            }
        }
    }
    if !first {
        s.push_str(".");
        proof {
            assert(m@.subrange(1, m@.len() as int) =~= m@.skip(1));
            assert(s@ =~= old(s)@ + sentence(m@));
        }
    } else {
        proof {
            assert(s@ =~= old(s)@ + sentence(m@));
        }
    }
}

impl ParseError {
    /// The error as a one-line report for a web page:
    /// `Parser error [startLine:startCol-endLine:endCol]: Message.`
    pub fn emit_to_web_string(&self, src: &str) -> (r: String)
        ensures
            src.spec_bytes().len() < 0x8000_0000_0000_0000 ==> r@ == web_report(self.message@, self.span, src.spec_bytes()),
    {
        let b = src.as_bytes();
        let too_long = b.len() as u64 >= 0x8000_0000_0000_0000u64;
        let mut s = match self.span {
            Some(span) => {
                if too_long || span.loc as usize >= b.len() {
                    let mut s = "Parser error: ".to_owned();
                    s.push_str(self.message.as_str());
                    return s;
                }
                let mut s = "Parser error [".to_owned();
                push_range(&mut s, b, span);
                s.push_str("]: ");
                s
            },
            None => "Parser error: ".to_owned(),
        };
        push_sentence(&mut s, &self.message);
        s
    }
}


// ---------------------------------------------------------------------------
// Terminal reports
// ---------------------------------------------------------------------------

pub open spec fn level_word(level: ErrorLevel) -> Seq<char> {
    match level {
        ErrorLevel::Error => "error"@,
        ErrorLevel::Warning => "warning"@,
        ErrorLevel::Help => "help"@,
        ErrorLevel::Note => "note"@,
    }
}

pub open spec fn repeat(c: char, n: nat) -> Seq<char> {
    Seq::new(n, |i: int| c)
}

/// `E` and the code in at least four digits.
pub open spec fn code_text(code: u32) -> Seq<char> {
    let ds = nat_digits(code as nat);
    seq!['E'] + repeat('0', if ds.len() < 4 { (4 - ds.len()) as nat } else { 0 }) + ds
}

/// The position of the first newline of `b` at or after `i`, or `b.len()`.
pub open spec fn next_newline(b: Seq<u8>, i: int) -> int
    decreases b.len() - i,
{
    if i < 0 || i >= b.len() {
        b.len() as int
    } else if b[i] == 10 {
        i
    } else {
        next_newline(b, i + 1)
    }
}

/// The text of the line of `src` that holds byte offset `off`.
pub open spec fn line_text(src: Seq<char>, b: Seq<u8>, off: int) -> Seq<char> {
    let start = last_newline(b.take(off)) + 1;
    let end = next_newline(b, off);
    let span = Span { loc: start as u32, len: (end - start) as u16 };
    if end - start <= u16::MAX && span_fits(src, span) {
        span_text(src, span)
    } else {
        Seq::empty()
    }
}

pub open spec fn report_head(e: ParseError) -> Seq<char> {
    level_word(e.level) + match e.code {
        Some(c) => seq!['['] + code_text(c.0) + seq![']'],
        None => Seq::empty(),
    } + ": "@ + e.message@
}

pub open spec fn report_body(span: Option<Span>, file: Seq<char>, src: Seq<char>, b: Seq<u8>) -> Seq<char> {
    match span {
        Some(span) => if span.loc <= b.len() {
            let line = line_at(b, span.loc as int);
            let col = column_at(b, span.loc as int);
            let number = if line < 10 { seq![' '] + nat_digits(line as nat) } else { nat_digits(line as nat) };
            "\n  --> "@ + file + seq![':'] + nat_digits(line as nat) + seq![':'] + nat_digits(col as nat)
                + "\n   |"@ + "\n"@ + number + " | "@ + line_text(src, b, span.loc as int)
                + "\n   | "@ + repeat(' ', (col - 1) as nat) + repeat('^', span.len as nat)
        } else {
            Seq::empty()
        },
        None => Seq::empty(),
    }
}

pub open spec fn report_tail(e: ParseError) -> Seq<char> {
    let help = match e.help {
        Some(h) => "\nhelp: "@ + h@,
        None => Seq::empty(),
    };
    let note = match e.note {
        Some(n) => "\nnote: "@ + n@,
        None => Seq::empty(),
    };
    help + note
}

/// A parse error as shown in a terminal: a headline, the file position, and
/// the offending line with the span underlined.
pub open spec fn terminal_report(e: ParseError, file: Seq<char>, src: Seq<char>, b: Seq<u8>) -> Seq<char> {
    report_head(e) + report_body(e.span, file, src, b) + report_tail(e)
}

fn push_repeat(s: &mut String, c: char, n: u64)
    ensures
        final(s)@ == old(s)@ + repeat(c, n as nat),
{
    let mut k: u64 = 0;
    while k < n
        invariant
            k <= n,
            s@ == old(s)@ + repeat(c, k as nat),
        decreases n - k,
    {
        s.push(c);
        k = k + 1;
        assert(s@ =~= old(s)@ + repeat(c, k as nat));
    }
}

fn next_newline_from(b: &[u8], off: usize) -> (r: usize)
    requires
        off <= b@.len(),
    ensures
        r == next_newline(b@, off as int),
        off <= r <= b@.len(),
{
    let mut i = off;
    while i < b.len() && b[i] != 10
        invariant
            off <= i <= b@.len(),
            next_newline(b@, off as int) == next_newline(b@, i as int),
        decreases b@.len() - i,
    {
        i = i + 1;
    }
    i
}

impl ParseError {
    /// The error as shown in a terminal, for the file `file` whose text is `src`.
    pub fn emit_to_string(&self, file: &str, src: &str) -> (r: String)
        ensures
            src.spec_bytes().len() < 0x8000_0000_0000_0000 ==> r@ == terminal_report(*self, file@, src@, src.spec_bytes()),
    {
        let mut s = String::new();
        self.push_head(&mut s);
        let b = src.as_bytes();
        if (b.len() as u64) < 0x8000_0000_0000_0000u64 {
            push_body(&mut s, self.span, file, src);
        }
        self.push_tail(&mut s);
        s
    }

    fn push_head(&self, s: &mut String)
        ensures
            final(s)@ == old(s)@ + report_head(*self),
    {
        let ghost start = s@;
        match self.level {
            ErrorLevel::Error => s.push_str("error"),
            ErrorLevel::Warning => s.push_str("warning"),
            ErrorLevel::Help => s.push_str("help"),
            ErrorLevel::Note => s.push_str("note"),
        }
        let ghost after_level = s@;
        match self.code {
            Some(c) => {
                s.push('[');
                s.push('E');
                let width: u64 = if c.0 < 10 { 1 } else if c.0 < 100 { 2 } else if c.0 < 1000 { 3 } else { 4 };
                proof {
                    lemma_digits_width(c.0 as nat);
                }
                push_repeat(s, '0', 4 - width);
                push_digits(s, c.0 as u64);
                s.push(']');
                proof {
                    assert(s@ =~= after_level + (seq!['['] + code_text(c.0) + seq![']']));
                }
            },
            None => {
                proof {
                    assert(s@ =~= after_level + Seq::<char>::empty());
                }
            },
        }
        s.push_str(": ");
        s.push_str(self.message.as_str());
        proof {
            assert(s@ =~= start + report_head(*self));
        }
    }

    fn push_tail(&self, s: &mut String)
        ensures
            final(s)@ == old(s)@ + report_tail(*self),
    {
        let ghost start = s@;
        match &self.help {
            Some(h) => {
                s.push_str("\nhelp: ");
                s.push_str(h.as_str());
            },
            None => {},
        }
        let ghost mid = s@;
        match &self.note {
            Some(n) => {
                s.push_str("\nnote: ");
                s.push_str(n.as_str());
            },
            None => {},
        }
        proof {
            assert(s@ =~= start + report_tail(*self));
        }
    }
}

fn push_body(s: &mut String, span: Option<Span>, file: &str, src: &str)
    requires
        src.spec_bytes().len() < 0x8000_0000_0000_0000,
    ensures
        final(s)@ == old(s)@ + report_body(span, file@, src@, src.spec_bytes()),
{
    let b = src.as_bytes();
    let span = match span {
        Some(span) => span,
        None => {
            proof {
                assert(s@ =~= old(s)@ + Seq::<char>::empty());
            }
            return;
        },
    };
    if span.loc as usize > b.len() {
        proof {
            assert(s@ =~= old(s)@ + Seq::<char>::empty());
        }
        return;
    }
    let loc = span.loc as usize;
    let lines = count_bytes(vstd::slice::slice_subrange(b, 0, loc), 10);
    proof {
        assert(b@.subrange(0, loc as int) =~= b@.take(loc as int));
        lemma_count_byte_le(b@.take(loc as int), 10);
        lemma_last_newline_bound(b@.take(loc as int));
    }
    let line = lines as u64 + 1;
    let nl = last_newline_before(b, loc);
    let col: u64 = (loc as i128 - nl as i128) as u64;
    s.push_str("\n  --> ");
    s.push_str(file);
    s.push(':');
    push_digits(s, line);
    s.push(':');
    push_digits(s, col);
    s.push_str("\n   |");
    s.push_str("\n");
    let ghost before_number = s@;
    if line < 10 {
        s.push(' ');
    }
    push_digits(s, line);
    s.push_str(" | ");
    let start = (nl + 1) as usize;
    let end = next_newline_from(b, loc);
    let ghost before_line = s@;
    if end - start <= 0xFFFF {
        let line_span = Span { loc: start as u32, len: (end - start) as u16 };
        match slice_span(src, line_span) {
            Some(t) => s.push_str(t),
            None => {},
        }
    }
    proof {
        assert(s@ =~= before_line + line_text(src@, b@, loc as int));
    }
    s.push_str("\n   | ");
    push_repeat(s, ' ', col - 1);
    push_repeat(s, '^', span.len as u64);
    proof {
        assert(s@ =~= old(s)@ + report_body(Some(span), file@, src@, src.spec_bytes()));
    }
}

proof fn lemma_digits_width(n: nat)
    requires
        n <= u32::MAX,
    ensures
        nat_digits(n).len() == if n < 10 { 1 } else if n < 100 { 2 } else if n < 1000 { 3 } else if n < 10000 { 4 } else { nat_digits(n).len() },
        n >= 1000 ==> nat_digits(n).len() >= 4,
    decreases n,
{
    if n >= 10 {
        lemma_digits_width(n / 10);
    }
}

} // verus!

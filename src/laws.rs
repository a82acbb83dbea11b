//! Properties of the language that hold of every input, proved from the
//! specifications the lexer, parser and evaluator meet.
use crate::ast::{EnvV, OpKindV, OperationV, StatementKindV, StatementV, ValueV};
use crate::diagnostics::RuntimeErrorV;
use crate::env::{is_reserved, lookup, lookup_frame};
use crate::eval::{arity_message, enter, err, exception_message, label_after, step};
use crate::lexer::{
    is_numeric_char, is_whitespace_char, lex, lex_from, next_token_at, run_end, scan_token,
    span_of, Run, Scan,
};
use crate::parser::{
    find_dot, parse_decimal, all_digits, digits_value, is_digit, label_span, leaf_of, lower_form, op, parse_from, parse_int,
    parse_program, read_single, read_value, stmt_of, string_contents, token_at, trim_end_quotes,
    trim_start_quotes, without_comments, Form, PVKind, PV,
};
use crate::render::{digit_char, int_text, nat_digits};
use crate::runner::{eval_body, run_stmt};
use crate::span::Span;
use crate::text::{
    byte_at, byte_len, lemma_byte_at_full, lemma_byte_at_step, lemma_byte_len_encode, span_fits,
    span_text,
};
use crate::token::{Token, TokenKind};
use crate::value::{decimal_text, display, norm, value_eq, zeros};
use crate::ast::Decimal;
use vstd::prelude::*;
use vstd::utf8::{
    encode_utf8, encode_utf8_decode_utf8, encode_utf8_valid_utf8, is_char_boundary_start_end_of_seq,
};

verus! {

/// Lexing the empty text gives exactly one end-of-file token, at offset 0.
pub proof fn law_lex_empty()
    ensures
        lex(Seq::<char>::empty()) == Ok::<Seq<Token>, Span>(seq![Token { kind: TokenKind::Eof, span: Span { loc: 0, len: 0 } }]),
{
    let cs = Seq::<char>::empty();
    assert(run_end(cs, 0, Run::Whitespace) == 0);
    assert(cs.take(0) =~= Seq::<char>::empty());
    assert(span_of(cs, 0, 0) == Span { loc: 0, len: 0 });
}

/// A closure made by a `lambda` holds the environment it was made in.
pub proof fn law_closure_captures_environment(
    ops: Seq<OperationV>,
    pos: int,
    env: EnvV,
    stack: Seq<ValueV>,
    depth: nat,
    max: nat,
)
    requires
        0 <= pos < ops.len(),
        depth < max,
        ops[pos].kind is Closure,
    ensures
        step(ops, pos, env, stack, depth, max) == Ok::<(int, Seq<ValueV>), RuntimeErrorV>(
            (
                pos + 1,
                stack.push(
                    ValueV::Closure(
                        ops[pos].kind->Closure_0,
                        ops[pos].kind->Closure_1,
                        Box::new(env),
                    ),
                ),
            ),
        ),
{
}

/// Applying a closure does not depend on the environment of the call: its
/// body sees only what the closure captured and its arguments. So names
/// rebound after a closure was made do not change what it computes.
pub proof fn law_application_ignores_caller_environment(
    ops: Seq<OperationV>,
    pos: int,
    caller1: EnvV,
    caller2: EnvV,
    stack: Seq<ValueV>,
    depth: nat,
    max: nat,
)
    requires
        0 <= pos < ops.len(),
        depth < max,
        ops[pos].kind is Application,
    ensures
        step(ops, pos, caller1, stack, depth, max) == step(ops, pos, caller2, stack, depth, max),
{
}

/// Nesting one level past the bound is a runtime error, whatever the block.
pub proof fn law_depth_bound_is_an_error(
    body: Seq<OperationV>,
    env: EnvV,
    stack: Seq<ValueV>,
    depth: nat,
    max: nat,
    span: Span,
)
    requires
        depth + 1 >= max,
    ensures
        enter(body, env, stack, depth, max, span) == Err::<Seq<ValueV>, RuntimeErrorV>(
            err("Maximum call stack size exceeded"@, span),
        ),
{
}

/// A guard of `if` that is not a boolean is a runtime error.
pub proof fn law_if_needs_a_boolean(
    ops: Seq<OperationV>,
    pos: int,
    env: EnvV,
    stack: Seq<ValueV>,
    depth: nat,
    max: nat,
)
    requires
        0 <= pos < ops.len(),
        depth < max,
        ops[pos].kind is If,
        stack.len() > 0,
        !(stack.last() is Boolean),
    ensures
        step(ops, pos, env, stack, depth, max) == Err::<(int, Seq<ValueV>), RuntimeErrorV>(
            err("Boolean expected in conditional"@, ops[pos].span),
        ),
{
}


proof fn lemma_digit_char(d: nat)
    requires
        d < 10,
    ensures
        is_digit(digit_char(d)),
        digit_char(d) as nat - '0' as nat == d,
{
}

/// The digits of `n` are ASCII digits, at least one and at most twenty of
/// them for a 64-bit `n`, and they spell `n`.
proof fn lemma_nat_digits(n: nat)
    ensures
        all_digits(nat_digits(n)),
        1 <= nat_digits(n).len(),
        n < 0x1_0000_0000_0000_0000 ==> nat_digits(n).len() <= 20,
        digits_value(nat_digits(n)) == n,
    decreases n,
{
    let ds = nat_digits(n);
    if n < 10 {
        lemma_digit_char(n);
        assert(ds.drop_last() =~= Seq::<char>::empty());
        assert(digits_value(ds) == digits_value(ds.drop_last()) * 10 + (ds.last() as nat - '0' as nat) as nat);
    } else {
        lemma_nat_digits(n / 10);
        lemma_digit_char(n % 10);
        assert(ds.drop_last() =~= nat_digits(n / 10));
        assert(ds.last() == digit_char(n % 10));
        assert(n == (n / 10) * 10 + n % 10);
        assert(digits_value(ds.drop_last()) == n / 10);
        assert(digits_value(ds) == digits_value(ds.drop_last()) * 10 + (ds.last() as nat - '0' as nat) as nat);
        assert(digits_value(ds) == n);
        assert forall|i: int| 0 <= i < ds.len() implies is_digit(#[trigger] ds[i]) by {
            if i < ds.len() - 1 {
                assert(ds[i] == nat_digits(n / 10)[i]);
            }
        }
    }
    if n < 0x1_0000_0000_0000_0000 {
        assert(pow10(20) == 100_000_000_000_000_000_000) by {
            reveal_with_fuel(pow10, 21);
        }
        lemma_digits_len_bound_at(n, 20);
    }
}

/// Below `10^k` a number has at most `k` digits.
proof fn lemma_digits_len_bound_at(n: nat, k: nat)
    requires
        n < pow10(k),
        k >= 1,
    ensures
        nat_digits(n).len() <= k,
    decreases n,
{
    if n >= 10 {
        assert(k >= 2) by {
            if k == 1 {
                assert(pow10(1) == 10) by {
                    reveal_with_fuel(pow10, 2);
                }
            }
        }
        assert(n / 10 < pow10((k - 1) as nat)) by {
            assert(pow10(k) == 10 * pow10((k - 1) as nat));
        }
        lemma_digits_len_bound_at(n / 10, (k - 1) as nat);
    }
}

pub open spec fn pow10(k: nat) -> nat
    decreases k,
{
    if k == 0 {
        1
    } else {
        10 * pow10((k - 1) as nat)
    }
}


/// The text of an integer reads back as that integer.
proof fn lemma_parse_int_text(n: i64)
    ensures
        parse_int(int_text(n as int)) == Some(n),
{
    let t = int_text(n as int);
    if n < 0 {
        let a = (-(n as int)) as nat;
        lemma_nat_digits(a);
        assert(t.skip(1) =~= nat_digits(a));
    } else {
        lemma_nat_digits(n as nat);
        assert(is_digit(t[0]));
    }
}

/// The characters of the text of an integer: a leading `-` or digit, then digits.
proof fn lemma_int_text_chars(n: i64)
    ensures
        1 <= int_text(n as int).len() <= 21,
        forall|i: int| 1 <= i < int_text(n as int).len() ==> is_digit(#[trigger] int_text(n as int)[i]),
        int_text(n as int)[0] == '-' || is_digit(int_text(n as int)[0]),
        n < 0 ==> int_text(n as int)[0] == '-' && int_text(n as int).len() >= 2,
{
    let t = int_text(n as int);
    if n < 0 {
        let a = (-(n as int)) as nat;
        lemma_nat_digits(a);
        assert forall|i: int| 1 <= i < t.len() implies is_digit(#[trigger] t[i]) by {
            assert(t[i] == nat_digits(a)[i - 1]);
        }
    } else {
        lemma_nat_digits(n as nat);
    }
}

/// In ASCII text each character is one byte.
proof fn lemma_ascii_offsets(cs: Seq<char>, i: int)
    requires
        0 <= i <= cs.len(),
        forall|k: int| 0 <= k < cs.len() ==> (#[trigger] cs[k] as u32) < 0x80,
    ensures
        byte_at(cs, i) == i,
    decreases i,
{
    if i > 0 {
        lemma_ascii_offsets(cs, i - 1);
        lemma_byte_at_step(cs, i - 1);
    } else {
        assert(cs.take(0) =~= Seq::<char>::empty());
    }
}

proof fn lemma_number_run(cs: Seq<char>, i: int)
    requires
        0 <= i <= cs.len(),
        forall|k: int| i <= k < cs.len() ==> is_digit(#[trigger] cs[k]),
    ensures
        run_end(cs, i, Run::Number) == cs.len(),
    decreases cs.len() - i,
{
    if i < cs.len() {
        assert(is_digit(cs[i]));
        lemma_number_run(cs, i + 1);
    }
}


pub open spec fn int_token(len: nat) -> Token {
    Token { kind: TokenKind::Literal(crate::token::LiteralKind::Integer), span: Span { loc: 0, len: len as u16 } }
}

pub open spec fn eof_at(len: nat) -> Token {
    Token { kind: TokenKind::Eof, span: Span { loc: len as u32, len: 0 } }
}

/// The text of an integer lexes as one integer literal covering all of it.
proof fn lemma_lex_int_text(n: i64)
    ensures
        lex(int_text(n as int)) == Ok::<Seq<Token>, Span>(seq![int_token(int_text(n as int).len()), eof_at(int_text(n as int).len())]),
{
    let t = int_text(n as int);
    let len = t.len() as int;
    lemma_int_text_chars(n);
    assert forall|k: int| 0 <= k < t.len() implies (#[trigger] t[k] as u32) < 0x80 by {
        if k > 0 {
            assert(is_digit(t[k]));
        }
    }
    lemma_ascii_offsets(t, 0);
    lemma_ascii_offsets(t, len);
    assert(!is_whitespace_char(t[0]));
    assert(run_end(t, 0, Run::Whitespace) == 0);
    lemma_number_run(t, 1);
    if t[0] == '-' {
        assert(is_digit(t[1]));
        assert(is_numeric_char(t[1]));
    } else {
        assert(is_numeric_char(t[0]));
    }
    assert(!t.subrange(1, len).contains('.')) by {
        if t.subrange(1, len).contains('.') {
            let k = choose|k: int| 0 <= k < t.subrange(1, len).len() && t.subrange(1, len)[k] == '.';
            assert(is_digit(t[k + 1]));
        }
    }
    assert(scan_token(t, 0) == Scan::Token(TokenKind::Literal(crate::token::LiteralKind::Integer), len));
    assert(span_of(t, 0, len) == Span { loc: 0, len: len as u16 });
    assert(run_end(t, len, Run::Whitespace) == len);
    assert(span_of(t, len, len) == Span { loc: len as u32, len: 0 });
    assert(next_token_at(t, len) == Ok::<(Token, bool, int), Span>((eof_at(len as nat), false, len)));
    assert(lex_from(t, len) == Ok::<Seq<Token>, Span>(seq![eof_at(len as nat)]));
    assert(next_token_at(t, 0) == Ok::<(Token, bool, int), Span>((int_token(len as nat), false, len)));
    assert(seq![int_token(len as nat)] + seq![eof_at(len as nat)] =~= seq![int_token(len as nat), eof_at(len as nat)]);
}


/// The statement that a literal covering all of a text makes.
pub open spec fn literal_statement(v: ValueV, len: nat) -> StatementV {
    let span = Span { loc: 0, len: len as u16 };
    StatementV { kind: StatementKindV::Expression(seq![OperationV { kind: OpKindV::Value(v), span }]), span }
}

/// Reading back the text of any 64-bit integer gives that integer, with a
/// span covering exactly the literal's characters.
#[verifier::rlimit(80)]
pub proof fn law_integer_literal_round_trip(n: i64)
    ensures
        parse_program(int_text(n as int)) == Ok::<Seq<StatementV>, crate::parser::Fail>(
            seq![literal_statement(ValueV::Integer(n), int_text(n as int).len())],
        ),
{
    let t = int_text(n as int);
    let len = t.len() as int;
    lemma_int_text_chars(n);
    lemma_lex_int_text(n);
    assert forall|k: int| 0 <= k < t.len() implies (#[trigger] t[k] as u32) < 0x80 by {
        if k > 0 {
            assert(is_digit(t[k]));
        }
    }
    lemma_ascii_offsets(t, len);
    lemma_byte_at_full(t);
    assert(byte_len(t) == len);
    let toks = seq![int_token(len as nat), eof_at(len as nat)];
    assert(without_comments(toks) =~= toks) by {
        reveal_with_fuel(Seq::filter, 3);
        assert(toks.drop_last() =~= seq![int_token(len as nat)]);
        assert(seq![int_token(len as nat)].drop_last() =~= Seq::<Token>::empty());
    }
    let span = Span { loc: 0, len: len as u16 };
    lemma_byte_len_encode(t);
    encode_utf8_valid_utf8(t);
    encode_utf8_decode_utf8(t);
    let bytes = encode_utf8(t);
    is_char_boundary_start_end_of_seq(bytes);
    assert(bytes.subrange(0, len) =~= bytes);
    assert(bytes.subrange(0, bytes.len() as int) =~= bytes);
    assert(span_fits(t, span));
    assert(span_text(t, span) == t);
    lemma_parse_int_text(n);
    assert(leaf_of(TokenKind::Literal(crate::token::LiteralKind::Integer), t, true) == Ok::<PVKind, Seq<char>>(PVKind::Value(ValueV::Integer(n))));
    let pv = PV { kind: PVKind::Value(ValueV::Integer(n)), span };
    assert(read_single(t, int_token(len as nat), true) == Ok::<PV, crate::parser::Fail>(pv));
    assert(read_value(t, toks, 0) == Ok::<(PV, int), crate::parser::Fail>((pv, 1)));
    assert(parse_from(t, toks, 1, 0) == Ok::<Seq<StatementV>, crate::parser::Fail>(seq![]));
    assert(stmt_of(pv, 0, token_at(toks, 1).span) == Ok::<(StatementV, nat), crate::parser::Fail>((literal_statement(ValueV::Integer(n), len as nat), 0)));
    assert(seq![literal_statement(ValueV::Integer(n), len as nat)] + Seq::<StatementV>::empty() =~= seq![literal_statement(ValueV::Integer(n), len as nat)]);
}


/// The value a program of one literal statement evaluates to, read back from
/// its text.
pub open spec fn reads_back_as(text: Seq<char>, v: ValueV) -> bool {
    exists|w: ValueV, len: nat|
        parse_program(text) == Ok::<Seq<StatementV>, crate::parser::Fail>(seq![#[trigger] literal_statement(w, len)])
            && value_eq(w, v)
}

/// An integer shown and read back is the same integer.
pub proof fn law_integer_display_round_trip(n: i64)
    ensures
        display(ValueV::Integer(n)) == int_text(n as int),
        reads_back_as(display(ValueV::Integer(n)), ValueV::Integer(n)),
{
    law_integer_literal_round_trip(n);
    assert(value_eq(ValueV::Integer(n), ValueV::Integer(n)));
    let len = int_text(n as int).len();
    assert(parse_program(display(ValueV::Integer(n))) == Ok::<Seq<StatementV>, crate::parser::Fail>(seq![literal_statement(ValueV::Integer(n), len)]));
}

pub open spec fn bool_token() -> Token {
    Token { kind: TokenKind::Literal(crate::token::LiteralKind::Boolean), span: Span { loc: 0, len: 2 } }
}

proof fn lemma_lex_bool(b: bool)
    ensures
        lex(display(ValueV::Boolean(b))) == Ok::<Seq<Token>, Span>(seq![bool_token(), eof_at(2)]),
        byte_len(display(ValueV::Boolean(b))) == 2,
{
    let t = display(ValueV::Boolean(b));
    let c = if b { 't' } else { 'f' };
    assert(t =~= seq!['#', c]);
    assert forall|k: int| 0 <= k < t.len() implies (#[trigger] t[k] as u32) < 0x80 by {}
    lemma_ascii_offsets(t, 0);
    lemma_ascii_offsets(t, 2);
    lemma_byte_at_full(t);
    assert(run_end(t, 0, Run::Whitespace) == 0);
    assert(scan_token(t, 0) == Scan::Token(TokenKind::Literal(crate::token::LiteralKind::Boolean), 2));
    assert(span_of(t, 0, 2) == Span { loc: 0, len: 2 });
    assert(run_end(t, 2, Run::Whitespace) == 2);
    assert(span_of(t, 2, 2) == Span { loc: 2, len: 0 });
    assert(lex_from(t, 2) == Ok::<Seq<Token>, Span>(seq![eof_at(2)]));
    assert(next_token_at(t, 0) == Ok::<(Token, bool, int), Span>((bool_token(), false, 2)));
    assert(seq![bool_token()] + seq![eof_at(2)] =~= seq![bool_token(), eof_at(2)]);
}

/// A boolean shown and read back is the same boolean.
#[verifier::rlimit(80)]
pub proof fn law_boolean_display_round_trip(b: bool)
    ensures
        reads_back_as(display(ValueV::Boolean(b)), ValueV::Boolean(b)),
{
    let t = display(ValueV::Boolean(b));
    lemma_lex_bool(b);
    let tok = bool_token();
    let toks = seq![tok, eof_at(2)];
    assert(without_comments(toks) =~= toks) by {
        reveal_with_fuel(Seq::filter, 3);
        assert(toks.drop_last() =~= seq![tok]);
        assert(seq![tok].drop_last() =~= Seq::<Token>::empty());
    }
    let span = Span { loc: 0, len: 2 };
    lemma_byte_len_encode(t);
    encode_utf8_valid_utf8(t);
    encode_utf8_decode_utf8(t);
    let bytes = encode_utf8(t);
    is_char_boundary_start_end_of_seq(bytes);
    assert(bytes.subrange(0, 2) =~= bytes);
    assert(span_fits(t, span));
    assert(span_text(t, span) == t);
    assert(leaf_of(TokenKind::Literal(crate::token::LiteralKind::Boolean), t, true) == Ok::<PVKind, Seq<char>>(PVKind::Value(ValueV::Boolean(b)))) by {
        reveal_strlit("#t");
        let c = if b { 't' } else { 'f' };
        assert(t =~= seq!['#', c]);
        if !b {
            assert(t[1] != ("#t"@)[1]);
        } else {
            assert(t =~= "#t"@);
        }
    }
    let pv = PV { kind: PVKind::Value(ValueV::Boolean(b)), span };
    assert(read_single(t, tok, true) == Ok::<PV, crate::parser::Fail>(pv));
    assert(read_value(t, toks, 0) == Ok::<(PV, int), crate::parser::Fail>((pv, 1)));
    assert(parse_from(t, toks, 1, 0) == Ok::<Seq<StatementV>, crate::parser::Fail>(seq![]));
    assert(stmt_of(pv, 0, token_at(toks, 1).span) == Ok::<(StatementV, nat), crate::parser::Fail>((literal_statement(ValueV::Boolean(b), 2), 0)));
    assert(seq![literal_statement(ValueV::Boolean(b), 2)] + Seq::<StatementV>::empty() =~= seq![literal_statement(ValueV::Boolean(b), 2)]);
    assert(parse_program(t) == Ok::<Seq<StatementV>, crate::parser::Fail>(seq![literal_statement(ValueV::Boolean(b), 2)]));
    assert(value_eq(ValueV::Boolean(b), ValueV::Boolean(b)));
}


/// Text that a string literal can hold: no quote and no line break.
pub open spec fn plain_text(s: Seq<char>) -> bool {
    forall|i: int| 0 <= i < s.len() ==> s[i] != '"' && s[i] != '\n'
}

pub open spec fn string_token(n: nat) -> Token {
    Token { kind: TokenKind::Literal(crate::token::LiteralKind::String), span: Span { loc: 0, len: n as u16 } }
}

proof fn lemma_string_body_run(t: Seq<char>, i: int)
    requires
        1 <= i <= t.len() - 1,
        t[t.len() - 1] == '"',
        forall|k: int| 1 <= k < t.len() - 1 ==> t[k] != '"' && t[k] != '\n',
    ensures
        run_end(t, i, Run::StringBody) == t.len() - 1,
    decreases t.len() - i,
{
    if i < t.len() - 1 {
        lemma_string_body_run(t, i + 1);
    }
}

proof fn lemma_lex_string(s: Seq<char>)
    requires
        plain_text(s),
        byte_len(display(ValueV::String(s))) <= u16::MAX,
    ensures
        lex(display(ValueV::String(s))) == Ok::<Seq<Token>, Span>(
            seq![string_token(byte_len(display(ValueV::String(s)))), eof_at(byte_len(display(ValueV::String(s))))],
        ),
{
    let t = display(ValueV::String(s));
    let len = t.len() as int;
    let n = byte_len(t);
    assert(t =~= seq!['"'] + s + seq!['"']);
    assert forall|k: int| 1 <= k < t.len() - 1 implies t[k] != '"' && t[k] != '\n' by {
        assert(t[k] == s[k - 1]);
    }
    lemma_string_body_run(t, 1);
    lemma_byte_at_full(t);
    assert(t.take(0) =~= Seq::<char>::empty());
    assert(byte_at(t, 0) == 0);
    assert(run_end(t, 0, Run::Whitespace) == 0);
    assert(scan_token(t, 0) == Scan::Token(TokenKind::Literal(crate::token::LiteralKind::String), len));
    assert(span_of(t, 0, len) == Span { loc: 0, len: n as u16 });
    assert(run_end(t, len, Run::Whitespace) == len);
    assert(span_of(t, len, len) == Span { loc: n as u32, len: 0 });
    assert(lex_from(t, len) == Ok::<Seq<Token>, Span>(seq![eof_at(n)]));
    assert(next_token_at(t, 0) == Ok::<(Token, bool, int), Span>((string_token(n), false, len)));
    assert(seq![string_token(n)] + seq![eof_at(n)] =~= seq![string_token(n), eof_at(n)]);
}

proof fn lemma_string_contents(s: Seq<char>)
    requires
        plain_text(s),
    ensures
        string_contents(display(ValueV::String(s))) == s,
{
    let t = display(ValueV::String(s));
    assert(t =~= seq!['"'] + s + seq!['"']);
    assert(t.skip(1) =~= s + seq!['"']);
    if s.len() == 0 {
        assert(t.skip(1).skip(1) =~= Seq::<char>::empty());
        assert(trim_start_quotes(t) == Seq::<char>::empty()) by {
            reveal_with_fuel(trim_start_quotes, 3);
        }
    } else {
        assert(trim_start_quotes(s + seq!['"']) == s + seq!['"']);
        assert(trim_start_quotes(t) == s + seq!['"']);
        assert((s + seq!['"']).drop_last() =~= s);
        assert(trim_end_quotes(s + seq!['"']) == trim_end_quotes(s));
        assert(trim_end_quotes(s) == s);
    }
}

/// A string without quotes or line breaks, shown and read back, is the same
/// string (when its text fits in one span).
#[verifier::rlimit(80)]
pub proof fn law_string_display_round_trip(s: Seq<char>)
    requires
        plain_text(s),
        byte_len(display(ValueV::String(s))) <= u16::MAX,
    ensures
        reads_back_as(display(ValueV::String(s)), ValueV::String(s)),
{
    let t = display(ValueV::String(s));
    let n = byte_len(t);
    lemma_lex_string(s);
    lemma_string_contents(s);
    let tok = string_token(n);
    let toks = seq![tok, eof_at(n)];
    assert(without_comments(toks) =~= toks) by {
        reveal_with_fuel(Seq::filter, 3);
        assert(toks.drop_last() =~= seq![tok]);
        assert(seq![tok].drop_last() =~= Seq::<Token>::empty());
    }
    let span = Span { loc: 0, len: n as u16 };
    lemma_byte_len_encode(t);
    encode_utf8_valid_utf8(t);
    encode_utf8_decode_utf8(t);
    let bytes = encode_utf8(t);
    is_char_boundary_start_end_of_seq(bytes);
    assert(bytes.subrange(0, n as int) =~= bytes);
    assert(span_fits(t, span));
    assert(span_text(t, span) == t);
    assert(leaf_of(TokenKind::Literal(crate::token::LiteralKind::String), t, true) == Ok::<PVKind, Seq<char>>(PVKind::Value(ValueV::String(s))));
    let pv = PV { kind: PVKind::Value(ValueV::String(s)), span };
    assert(read_single(t, tok, true) == Ok::<PV, crate::parser::Fail>(pv));
    assert(read_value(t, toks, 0) == Ok::<(PV, int), crate::parser::Fail>((pv, 1)));
    assert(parse_from(t, toks, 1, 0) == Ok::<Seq<StatementV>, crate::parser::Fail>(seq![]));
    assert(stmt_of(pv, 0, token_at(toks, 1).span) == Ok::<(StatementV, nat), crate::parser::Fail>((literal_statement(ValueV::String(s), n), 0)));
    assert(seq![literal_statement(ValueV::String(s), n)] + Seq::<StatementV>::empty() =~= seq![literal_statement(ValueV::String(s), n)]);
    assert(parse_program(t) == Ok::<Seq<StatementV>, crate::parser::Fail>(seq![literal_statement(ValueV::String(s), n)]));
    assert(value_eq(ValueV::String(s), ValueV::String(s)));
}


/// `and` stops at the first false operand: it leaves `#f` and jumps past its
/// label, so no later operand runs.
pub proof fn law_and_short_circuits(
    ops: Seq<OperationV>,
    pos: int,
    env: EnvV,
    stack: Seq<ValueV>,
    depth: nat,
    max: nat,
)
    requires
        0 <= pos < ops.len(),
        depth < max,
        ops[pos].kind is And,
        stack.len() > 0,
        stack.last() == ValueV::Boolean(false),
        label_after(ops, pos, ops[pos].kind->And_0) is Some,
    ensures
        step(ops, pos, env, stack, depth, max) == Ok::<(int, Seq<ValueV>), RuntimeErrorV>(
            (
                label_after(ops, pos, ops[pos].kind->And_0)->0,
                stack.drop_last().push(ValueV::Boolean(false)),
            ),
        ),
{
    assert(stack.take(stack.len() - 1) =~= stack.drop_last());
}

/// `or` stops at the first true operand in the same way.
pub proof fn law_or_short_circuits(
    ops: Seq<OperationV>,
    pos: int,
    env: EnvV,
    stack: Seq<ValueV>,
    depth: nat,
    max: nat,
)
    requires
        0 <= pos < ops.len(),
        depth < max,
        ops[pos].kind is Or,
        stack.len() > 0,
        stack.last() == ValueV::Boolean(true),
        label_after(ops, pos, ops[pos].kind->Or_0) is Some,
    ensures
        step(ops, pos, env, stack, depth, max) == Ok::<(int, Seq<ValueV>), RuntimeErrorV>(
            (
                label_after(ops, pos, ops[pos].kind->Or_0)->0,
                stack.drop_last().push(ValueV::Boolean(true)),
            ),
        ),
{
    assert(stack.take(stack.len() - 1) =~= stack.drop_last());
}

/// Applying a closure to the wrong number of arguments is a runtime error
/// that names both counts.
pub proof fn law_closure_arity_checked(
    ops: Seq<OperationV>,
    pos: int,
    env: EnvV,
    stack: Seq<ValueV>,
    depth: nat,
    max: nat,
)
    requires
        0 <= pos < ops.len(),
        depth < max,
        ops[pos].kind is Application,
        stack.len() >= ops[pos].kind->Application_0 + 1,
        stack[stack.len() - ops[pos].kind->Application_0 - 1] is Closure,
        stack[stack.len() - ops[pos].kind->Application_0 - 1]->Closure_0.len() != ops[pos].kind->Application_0,
    ensures
        step(ops, pos, env, stack, depth, max) == Err::<(int, Seq<ValueV>), RuntimeErrorV>(
            err(
                arity_message(
                    stack[stack.len() - ops[pos].kind->Application_0 - 1]->Closure_0.len(),
                    ops[pos].kind->Application_0 as nat,
                ),
                ops[pos].span,
            ),
        ),
{
}

/// A lowered `cond` ends in an operation that raises an error, reached only
/// when no guard was true, followed by the label that a true guard jumps past.
pub proof fn law_cond_without_true_guard_fails(args: Seq<crate::parser::PV>, span: Span, c: nat, t: Span)
    ensures
        lower_form(Form::Cond, args, span, c, t) is Ok ==> {
            let ops = lower_form(Form::Cond, args, span, c, t)->Ok_0.0;
            &&& ops.len() >= 2
            &&& ops[ops.len() - 2] == op(
                OpKindV::Exception("No branches of \"cond\" expression matched"@, None, Some(span), None),
                label_span(),
            )
            &&& ops[ops.len() - 1].kind is Label
        },
{
}

/// The operation that ends a `cond` raises its error.
pub proof fn law_exception_raises(
    ops: Seq<OperationV>,
    pos: int,
    env: EnvV,
    stack: Seq<ValueV>,
    depth: nat,
    max: nat,
)
    requires
        0 <= pos < ops.len(),
        depth < max,
        ops[pos].kind is Exception,
    ensures
        step(ops, pos, env, stack, depth, max) == Err::<(int, Seq<ValueV>), RuntimeErrorV>(
            RuntimeErrorV {
                message: exception_message(
                    ops[pos].kind->Exception_0,
                    ops[pos].kind->Exception_1,
                    ops[pos].kind->Exception_3,
                ),
                span: ops[pos].kind->Exception_2,
            },
        ),
{
}


/// A definition is seen by every later statement run in the same session:
/// after `(define name body)` the name has the body's value, and every other
/// name keeps the value it had.
pub proof fn law_definitions_persist(
    name: Seq<char>,
    body: Seq<OperationV>,
    span: Span,
    env: EnvV,
    max: nat,
    other: Seq<char>,
)
    requires
        !is_reserved(name),
        eval_body(body, env, max) is Ok,
    ensures
        ({
            let after = run_stmt(StatementV { kind: StatementKindV::Binding(name, body), span }, env, max).1;
            &&& lookup(after, name) == Some(eval_body(body, env, max)->Ok_0)
            &&& other != name ==> lookup(after, other) == lookup(env, other)
        }),
{
    let v = eval_body(body, env, max)->Ok_0;
    let frame = seq![(name, v)];
    assert(frame.drop_last() =~= Seq::<(Seq<char>, ValueV)>::empty());
    assert(lookup_frame(frame, name) == Some(v));
    if other != name {
        assert(frame.last().0 != other);
        assert(lookup_frame(frame.drop_last(), other) is None);
        assert(lookup_frame(frame, other) is None);
    }
}


/// A float with a whole value is shown as an integer, which reads back as a
/// number equal to it.
pub proof fn law_whole_float_display_round_trip(d: Decimal)
    requires
        norm(d).scale == 0,
    ensures
        reads_back_as(display(ValueV::Float(d)), ValueV::Float(d)),
{
    let m = norm(d).mantissa;
    assert(display(ValueV::Float(d)) == int_text(m as int));
    law_integer_literal_round_trip(m);
    let len = int_text(m as int).len();
    assert(value_eq(ValueV::Integer(m), ValueV::Float(d)));
    assert(parse_program(display(ValueV::Float(d))) == Ok::<Seq<StatementV>, crate::parser::Fail>(seq![literal_statement(ValueV::Integer(m), len)]));
}


proof fn lemma_norm_idempotent(d: Decimal)
    ensures
        norm(norm(d)) == norm(d),
        norm(d).scale == 0 || (norm(d).mantissa as int) % 10 != 0,
    decreases d.scale,
{
    if d.scale > 0 && (d.mantissa as int) % 10 == 0 {
        lemma_norm_idempotent(Decimal { mantissa: (d.mantissa as int / 10) as i64, scale: (d.scale - 1) as u32 });
    }
}

proof fn lemma_zeros_value(k: nat)
    ensures
        all_digits(zeros(k)),
        digits_value(zeros(k)) == 0,
    decreases k,
{
    if k > 0 {
        lemma_zeros_value((k - 1) as nat);
        assert(zeros(k).drop_last() =~= zeros((k - 1) as nat));
    }
}

/// Leading zeros do not change the value of digits.
proof fn lemma_leading_zeros(p: Seq<char>, x: Seq<char>)
    requires
        forall|i: int| 0 <= i < p.len() ==> p[i] == '0',
    ensures
        digits_value(p + x) == digits_value(x),
    decreases x.len(),
{
    if x.len() == 0 {
        assert(p + x =~= p);
        lemma_all_zero_value(p);
    } else {
        assert((p + x).drop_last() =~= p + x.drop_last());
        assert((p + x).last() == x.last());
        lemma_leading_zeros(p, x.drop_last());
    }
}

proof fn lemma_all_zero_value(p: Seq<char>)
    requires
        forall|i: int| 0 <= i < p.len() ==> p[i] == '0',
    ensures
        digits_value(p) == 0,
    decreases p.len(),
{
    if p.len() > 0 {
        lemma_all_zero_value(p.drop_last());
    }
}

proof fn lemma_find_dot(w: Seq<char>, f: Seq<char>)
    requires
        forall|i: int| 0 <= i < w.len() ==> w[i] != '.',
    ensures
        find_dot(w + seq!['.'] + f, 0) == w.len(),
{
    lemma_find_dot_from(w + seq!['.'] + f, w.len() as int, 0);
}

proof fn lemma_find_dot_from(b: Seq<char>, k: int, i: int)
    requires
        0 <= i <= k < b.len(),
        b[k] == '.',
        forall|j: int| 0 <= j < k ==> b[j] != '.',
    ensures
        find_dot(b, i) == k,
    decreases k - i,
{
    if i < k {
        lemma_find_dot_from(b, k, i + 1);
    }
}

/// The text of a float in normal form with a fraction: its sign, the digits
/// before the point (at least one), and the digits after it.
proof fn lemma_decimal_text_shape(d: Decimal)
    requires
        d.scale > 0,
    ensures
        ({
            let t = decimal_text(d);
            let a: nat = if d.mantissa < 0 { (-d.mantissa) as nat } else { d.mantissa as nat };
            exists|w: Seq<char>, f: Seq<char>|
                #![trigger w + seq!['.'] + f]
                w.len() >= 1 && all_digits(w) && all_digits(f) && f.len() == d.scale
                    && digits_value(w + f) == a
                    && t == (if d.mantissa < 0 { seq!['-'] } else { seq![] }) + (w + seq!['.'] + f)
        }),
{
    let a: nat = if d.mantissa < 0 { (-d.mantissa) as nat } else { d.mantissa as nat };
    let ds = nat_digits(a);
    lemma_nat_digits(a);
    let sign: Seq<char> = if d.mantissa < 0 { seq!['-'] } else { seq![] };
    if ds.len() > d.scale {
        let k = ds.len() - d.scale;
        let w = ds.take(k);
        let f = ds.skip(k);
        assert(w + f =~= ds);
        assert(all_digits(w)) by {
            assert forall|i: int| 0 <= i < w.len() implies is_digit(#[trigger] w[i]) by {
                assert(w[i] == ds[i]);
            }
        }
        assert(all_digits(f)) by {
            assert forall|i: int| 0 <= i < f.len() implies is_digit(#[trigger] f[i]) by {
                assert(f[i] == ds[i + k]);
            }
        }
        assert(decimal_text(d) =~= sign + (w + seq!['.'] + f));
    } else {
        let z = zeros((d.scale - ds.len()) as nat);
        let w = seq!['0'];
        let f = z + ds;
        lemma_zeros_value((d.scale - ds.len()) as nat);
        assert(w + f =~= (seq!['0'] + z) + ds);
        lemma_leading_zeros(seq!['0'] + z, ds);
        assert(all_digits(f)) by {
            assert forall|i: int| 0 <= i < f.len() implies is_digit(#[trigger] f[i]) by {
                if i < z.len() {
                    assert(f[i] == '0');
                } else {
                    assert(f[i] == ds[i - z.len()]);
                }
            }
        }
        assert(decimal_text(d) =~= sign + (w + seq!['.'] + f));
    }
}


proof fn lemma_all_digits_concat(a: Seq<char>, b: Seq<char>)
    requires
        all_digits(a),
        all_digits(b),
    ensures
        all_digits(a + b),
{
    assert forall|i: int| 0 <= i < (a + b).len() implies is_digit(#[trigger] (a + b)[i]) by {
        if i < a.len() {
            assert((a + b)[i] == a[i]);
        } else {
            assert((a + b)[i] == b[i - a.len()]);
        }
    }
}

/// The text of a float in normal form with a fraction reads back as it.
proof fn lemma_parse_decimal_text(d: Decimal)
    requires
        d.scale > 0,
        norm(d) == d,
    ensures
        parse_decimal(decimal_text(d)) == Some(d),
{
    let t = decimal_text(d);
    let a: nat = if d.mantissa < 0 { (-d.mantissa) as nat } else { d.mantissa as nat };
    lemma_decimal_text_shape(d);
    let sign: Seq<char> = if d.mantissa < 0 { seq!['-'] } else { seq![] };
    let (w, f) = choose|w: Seq<char>, f: Seq<char>|
        #![trigger w + seq!['.'] + f]
        w.len() >= 1 && all_digits(w) && all_digits(f) && f.len() == d.scale
            && digits_value(w + f) == a
            && t == sign + (w + seq!['.'] + f);
    let body = w + seq!['.'] + f;
    if d.mantissa < 0 {
        assert(t[0] == '-');
        assert(t.skip(1) =~= body);
    } else {
        assert(t =~= body);
        assert(t[0] == w[0]);
        assert(is_digit(w[0]));
    }
    assert forall|i: int| 0 <= i < w.len() implies w[i] != '.' by {
        assert(is_digit(w[i]));
    }
    lemma_find_dot(w, f);
    assert(body.take(w.len() as int) =~= w);
    assert(body.skip(w.len() as int + 1) =~= f);
    lemma_all_digits_concat(w, f);
}

pub open spec fn float_token(n: nat) -> Token {
    Token { kind: TokenKind::Literal(crate::token::LiteralKind::Float), span: Span { loc: 0, len: n as u16 } }
}

proof fn lemma_lex_decimal_text(d: Decimal)
    requires
        d.scale > 0,
        decimal_text(d).len() <= u16::MAX,
    ensures
        lex(decimal_text(d)) == Ok::<Seq<Token>, Span>(
            seq![float_token(decimal_text(d).len()), eof_at(decimal_text(d).len())],
        ),
        byte_len(decimal_text(d)) == decimal_text(d).len(),
{
    let t = decimal_text(d);
    let len = t.len() as int;
    let a: nat = if d.mantissa < 0 { (-d.mantissa) as nat } else { d.mantissa as nat };
    lemma_decimal_text_shape(d);
    let sign: Seq<char> = if d.mantissa < 0 { seq!['-'] } else { seq![] };
    let (w, f) = choose|w: Seq<char>, f: Seq<char>|
        #![trigger w + seq!['.'] + f]
        w.len() >= 1 && all_digits(w) && all_digits(f) && f.len() == d.scale
            && digits_value(w + f) == a
            && t == sign + (w + seq!['.'] + f);
    let dot: int = (sign.len() + w.len()) as int;
    assert forall|k: int| 0 <= k < t.len() implies (#[trigger] t[k] == '-' && k == 0 && d.mantissa < 0) || is_digit(t[k]) || (t[k] == '.' && k == dot) by {
        if d.mantissa < 0 && k == 0 {
        } else if k < dot {
            assert(t[k] == w[k - sign.len()]);
        } else if k == dot {
        } else {
            assert(t[k] == f[k - dot - 1]);
        }
    }
    assert forall|k: int| 0 <= k < t.len() implies (#[trigger] t[k] as u32) < 0x80 by {
        assert((t[k] == '-' && k == 0 && d.mantissa < 0) || is_digit(t[k]) || (t[k] == '.' && k == dot));
    }
    lemma_ascii_offsets(t, 0);
    lemma_ascii_offsets(t, len);
    lemma_byte_at_full(t);
    assert(t[0] == '-' || is_digit(t[0])) by {
        assert((t[0] == '-' && d.mantissa < 0) || is_digit(t[0]) || (t[0] == '.' && 0 == dot));
    }
    assert(!is_whitespace_char(t[0]));
    assert(run_end(t, 0, Run::Whitespace) == 0);
    lemma_number_run_dotted(t, 1, dot);
    if t[0] == '-' {
        assert(d.mantissa < 0);
        assert(t[1] == w[0]);
        assert(is_numeric_char(t[1]));
    } else {
        assert(is_numeric_char(t[0]));
    }
    assert(t.subrange(1, len).contains('.')) by {
        assert(t.subrange(1, len)[dot - 1] == '.');
    }
    assert(scan_token(t, 0) == Scan::Token(TokenKind::Literal(crate::token::LiteralKind::Float), len));
    assert(span_of(t, 0, len) == Span { loc: 0, len: len as u16 });
    assert(run_end(t, len, Run::Whitespace) == len);
    assert(span_of(t, len, len) == Span { loc: len as u32, len: 0 });
    assert(lex_from(t, len) == Ok::<Seq<Token>, Span>(seq![eof_at(len as nat)]));
    assert(next_token_at(t, 0) == Ok::<(Token, bool, int), Span>((float_token(len as nat), false, len)));
    assert(seq![float_token(len as nat)] + seq![eof_at(len as nat)] =~= seq![float_token(len as nat), eof_at(len as nat)]);
}

proof fn lemma_number_run_dotted(cs: Seq<char>, i: int, dot: int)
    requires
        1 <= i <= cs.len(),
        forall|k: int| 1 <= k < cs.len() ==> is_digit(#[trigger] cs[k]) || cs[k] == '.',
    ensures
        run_end(cs, i, Run::Number) == cs.len(),
    decreases cs.len() - i,
{
    if i < cs.len() {
        assert(is_digit(cs[i]) || cs[i] == '.');
        lemma_number_run_dotted(cs, i + 1, dot);
    }
}


/// A float with a fraction, shown and read back, equals what was shown
/// (when its text fits in one span).
#[verifier::rlimit(80)]
pub proof fn law_fraction_float_display_round_trip(d: Decimal)
    requires
        norm(d).scale > 0,
        decimal_text(norm(d)).len() <= u16::MAX,
    ensures
        reads_back_as(display(ValueV::Float(d)), ValueV::Float(d)),
{
    let n = norm(d);
    lemma_norm_idempotent(d);
    let t = display(ValueV::Float(d));
    assert(t == decimal_text(n));
    let len = t.len();
    lemma_lex_decimal_text(n);
    lemma_parse_decimal_text(n);
    let tok = float_token(len);
    let toks = seq![tok, eof_at(len)];
    assert(without_comments(toks) =~= toks) by {
        reveal_with_fuel(Seq::filter, 3);
        assert(toks.drop_last() =~= seq![tok]);
        assert(seq![tok].drop_last() =~= Seq::<Token>::empty());
    }
    let span = Span { loc: 0, len: len as u16 };
    lemma_byte_len_encode(t);
    encode_utf8_valid_utf8(t);
    encode_utf8_decode_utf8(t);
    let bytes = encode_utf8(t);
    is_char_boundary_start_end_of_seq(bytes);
    assert(bytes.subrange(0, len as int) =~= bytes);
    assert(span_fits(t, span));
    assert(span_text(t, span) == t);
    assert(leaf_of(TokenKind::Literal(crate::token::LiteralKind::Float), t, true) == Ok::<PVKind, Seq<char>>(PVKind::Value(ValueV::Float(n))));
    let pv = PV { kind: PVKind::Value(ValueV::Float(n)), span };
    assert(read_single(t, tok, true) == Ok::<PV, crate::parser::Fail>(pv));
    assert(read_value(t, toks, 0) == Ok::<(PV, int), crate::parser::Fail>((pv, 1)));
    assert(parse_from(t, toks, 1, 0) == Ok::<Seq<StatementV>, crate::parser::Fail>(seq![]));
    assert(stmt_of(pv, 0, token_at(toks, 1).span) == Ok::<(StatementV, nat), crate::parser::Fail>((literal_statement(ValueV::Float(n), len), 0)));
    assert(seq![literal_statement(ValueV::Float(n), len)] + Seq::<StatementV>::empty() =~= seq![literal_statement(ValueV::Float(n), len)]);
    assert(parse_program(t) == Ok::<Seq<StatementV>, crate::parser::Fail>(seq![literal_statement(ValueV::Float(n), len)]));
    assert(value_eq(ValueV::Float(n), ValueV::Float(d)));
}

} // verus!

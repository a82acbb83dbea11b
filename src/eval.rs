//! The stack machine that runs lowered blocks, and its specification.
use crate::ast::{
    Binding, Closure, Env, EnvV, MatchBranch, OpKindV, Operation, OperationKind,
    OperationV, Value, ValueV, bindings_view, branches_view, env_view, ops_view, strings_view,
    values_view,
};
use crate::diagnostics::{RuntimeError, RuntimeErrorV};
use crate::env::{extend, extend_env, is_reserved, lookup, reserved_message, assert_not_reserved};
use crate::natives::{call_native, native_result};
use crate::render::{int_text, push_digits};
use crate::span::Span;
use crate::value::{display, lemma_values_view, push_display, value_eq};
use std::rc::Rc;
use vstd::prelude::*;

verus! {

broadcast use vstd::std_specs::vec::group_vec_axioms;

// ---------------------------------------------------------------------------
// Messages
// ---------------------------------------------------------------------------

pub open spec fn err(message: Seq<char>, span: Span) -> RuntimeErrorV {
    RuntimeErrorV { message, span: Some(span) }
}

pub open spec fn unbound_message(name: Seq<char>) -> Seq<char> {
    "Referenced unbound identifier `"@ + name + "`"@
}

pub open spec fn arity_message(expected: nat, passed: nat) -> Seq<char> {
    "Function expected "@ + int_text(expected as int) + " arguments, passed "@ + int_text(
        passed as int,
    ) + " instead"@
}

pub open spec fn sequence_message(expected: nat, found: nat) -> Seq<char> {
    "Not enough values on stack for sequence: "@ + int_text(expected as int) + " expected, "@
        + int_text(found as int) + " found"@
}

pub open spec fn no_match_message(v: ValueV) -> Seq<char> {
    "No pattern matches for "@ + display(v)
}

pub open spec fn label_message(label: Seq<char>) -> Seq<char> {
    "Label `"@ + label + "` not found"@
}

pub open spec fn exception_message(
    message: Seq<char>,
    mod_name: Option<Seq<char>>,
    source: Option<Seq<char>>,
) -> Seq<char> {
    let m = match mod_name {
        Some(n) => "["@ + n + "] "@,
        None => Seq::empty(),
    };
    let s = match source {
        Some(x) => x + ": "@,
        None => Seq::empty(),
    };
    m + s + message
}

// ---------------------------------------------------------------------------
// Pattern matching
// ---------------------------------------------------------------------------

/// Bindings made by a successful match.
pub type Frame = Seq<(Seq<char>, ValueV)>;

/// Matches `p` against `v`: `Some` with the bindings it makes, `None` when it
/// does not match, or the message of a reserved word used as a pattern
/// variable.
pub open spec fn try_match(p: ValueV, v: ValueV) -> Result<Option<Frame>, Seq<char>>
    decreases p, 0nat,
{
    match p {
        ValueV::Symbol(s) => if s == "_"@ {
            Ok(Some(Seq::empty()))
        } else if is_reserved(s) {
            Err(reserved_message(s))
        } else {
            Ok(Some(seq![(s, v)]))
        },
        ValueV::List(ps) => match v {
            ValueV::List(vs) => if ps.len() == 3 && ps[0] is Symbol && (ps[0]->Symbol_0 == "pair"@
                || ps[0]->Symbol_0 == "cons"@) && vs.len() >= 2 {
                match_both(ps, vs[0], ValueV::List(vs.skip(1)))
            } else {
                Ok(None)
            },
            ValueV::Pair(a, b) => if ps.len() == 3 && ps[0] is Symbol && (ps[0]->Symbol_0
                == "pair"@ || ps[0]->Symbol_0 == "cons"@) {
                match_both(ps, *a, *b)
            } else {
                Ok(None)
            },
            ValueV::Struct(kind, _, vals) => if ps.len() >= 1 && ps[0] is Symbol
                && ps[0]->Symbol_0 == kind && ps.len() - 1 == vals.len() {
                match_fields(ps, vals, vals.len() as int)
            } else {
                Ok(None)
            },
            _ => if value_eq(p, v) {
                Ok(Some(Seq::empty()))
            } else {
                Ok(None)
            },
        },
        _ => if value_eq(p, v) {
            Ok(Some(Seq::empty()))
        } else {
            Ok(None)
        },
    }
}

/// Matches `ps[1]` against `head` and then `ps[2]` against `tail`.
pub open spec fn match_both(ps: Seq<ValueV>, head: ValueV, tail: ValueV) -> Result<
    Option<Frame>,
    Seq<char>,
>
    decreases ps, 0int,
{
    if ps.len() < 3 {
        Ok(None)
    } else {
        match try_match(ps[1], head) {
            Err(e) => Err(e),
            Ok(None) => Ok(None),
            Ok(Some(b1)) => match try_match(ps[2], tail) {
                Err(e) => Err(e),
                Ok(None) => Ok(None),
                Ok(Some(b2)) => Ok(Some(b1 + b2)),
            },
        }
    }
}

/// Matches `ps[1..=n]` against `vals[..n]` in order.
pub open spec fn match_fields(ps: Seq<ValueV>, vals: Seq<ValueV>, n: int) -> Result<
    Option<Frame>,
    Seq<char>,
>
    decreases ps, n,
{
    if n <= 0 || n >= ps.len() || n > vals.len() {
        Ok(Some(Seq::empty()))
    } else {
        match match_fields(ps, vals, n - 1) {
            Err(e) => Err(e),
            Ok(None) => Ok(None),
            Ok(Some(b1)) => match try_match(ps[n], vals[n - 1]) {
                Err(e) => Err(e),
                Ok(None) => Ok(None),
                Ok(Some(b2)) => Ok(Some(b1 + b2)),
            },
        }
    }
}

/// The first branch whose pattern matches `v`, from `i` on: its index and
/// bindings, `None` when no branch matches, or the message of a failed match.
pub open spec fn first_match(branches: Seq<(ValueV, Seq<OperationV>)>, v: ValueV, i: int) -> Result<
    Option<(int, Frame)>,
    Seq<char>,
>
    decreases branches.len() - i,
{
    if i < 0 || i >= branches.len() {
        Ok(None)
    } else {
        match try_match(branches[i].0, v) {
            Err(e) => Err(e),
            Ok(Some(b)) => Ok(Some((i, b))),
            Ok(None) => first_match(branches, v, i + 1),
        }
    }
}

// ---------------------------------------------------------------------------
// Evaluation
// ---------------------------------------------------------------------------

/// The position just past the first label named `label` after `pos`.
pub open spec fn label_after(ops: Seq<OperationV>, pos: int, label: Seq<char>) -> Option<int>
    decreases ops.len() - pos,
{
    if pos + 1 >= ops.len() || pos + 1 < 0 {
        None
    } else if ops[pos + 1].kind == OpKindV::Label(label) {
        Some(pos + 2)
    } else {
        label_after(ops, pos + 1, label)
    }
}

/// Runs `body` nested one level deeper, on the same stack, in `env`.
pub open spec fn enter(
    body: Seq<OperationV>,
    env: EnvV,
    stack: Seq<ValueV>,
    depth: nat,
    max: nat,
    span: Span,
) -> Result<Seq<ValueV>, RuntimeErrorV>
    decreases max - depth, 0int, 2int,
{
    if depth + 1 >= max {
        Err(err("Maximum call stack size exceeded"@, span))
    } else {
        exec_ops(body, 0, env, stack, depth + 1, max)
    }
}

/// Runs `ops` from `pos` on: the final stack, or the error that stopped it.
/// Nested blocks run at `depth + 1`; a block may not start at depth `max`.
pub open spec fn exec_ops(
    ops: Seq<OperationV>,
    pos: int,
    env: EnvV,
    stack: Seq<ValueV>,
    depth: nat,
    max: nat,
) -> Result<Seq<ValueV>, RuntimeErrorV>
    decreases max - depth, ops.len() - pos, 1int,
{
    if pos < 0 || pos >= ops.len() || depth >= max {
        Ok(stack)
    } else {
        match step(ops, pos, env, stack, depth, max) {
            Err(e) => Err(e),
            Ok((next, s)) => if pos < next <= ops.len() {
                exec_ops(ops, next, env, s, depth, max)
            } else {
                Ok(s)
            },
        }
    }
}

/// Runs the operation at `pos`: the position to go on from and the stack
/// after it, or the error it raised.
pub open spec fn step(
    ops: Seq<OperationV>,
    pos: int,
    env: EnvV,
    stack: Seq<ValueV>,
    depth: nat,
    max: nat,
) -> Result<(int, Seq<ValueV>), RuntimeErrorV>
    decreases max - depth, ops.len() - pos, 0int,
{
    if pos < 0 || pos >= ops.len() || depth >= max {
        Ok((pos + 1, stack))
    } else {
        let op = ops[pos];
        let span = op.span;
        let n = stack.len();
        let next = pos + 1;
        match op.kind {
            OpKindV::Value(v) => Ok((next, stack.push(v))),
            OpKindV::Variable(name) => if is_reserved(name) {
                Err(RuntimeErrorV { message: reserved_message(name), span: None })
            } else {
                match lookup(env, name) {
                    Some(v) => Ok((next, stack.push(v))),
                    None => Err(err(unbound_message(name), span)),
                }
            },
            OpKindV::Application(arity) => if n < arity + 1 {
                Err(err("Not enough arguments on stack"@, span))
            } else {
                let args = stack.skip(n - arity);
                let callee = stack[n - arity - 1];
                let rest = stack.take(n - arity - 1);
                match callee {
                    ValueV::Closure(params, body, cenv) => if params.len() != arity {
                        Err(err(arity_message(params.len(), arity as nat), span))
                    } else {
                        match enter(body, extend(*cenv, params, args), rest, depth, max, span) {
                            Ok(s) => Ok((next, s)),
                            Err(e) => Err(e),
                        }
                    },
                    ValueV::Function(f) => match native_result(f, args) {
                        Ok(v) => Ok((next, rest.push(v))),
                        Err(m) => Err(err(m, span)),
                    },
                    _ => Err(err("Non-function value in function application"@, span)),
                }
            },
            OpKindV::Closure(params, body) => Ok(
                (next, stack.push(ValueV::Closure(params, body, Box::new(env)))),
            ),
            OpKindV::If(then_block, else_block) => if n == 0 {
                Err(err("Empty stack in if expression"@, span))
            } else {
                match stack[n - 1] {
                    ValueV::Boolean(b) => match enter(
                        if b {
                            then_block
                        } else {
                            else_block
                        },
                        env,
                        stack.take(n - 1),
                        depth,
                        max,
                        span,
                    ) {
                        Ok(s) => Ok((next, s)),
                        Err(e) => Err(e),
                    },
                    _ => Err(err("Boolean expected in conditional"@, span)),
                }
            },
            OpKindV::Let(names, body) => if exists|i: int|
                0 <= i < names.len() && is_reserved(#[trigger] names[i]) {
                let i = choose|i: int| 0 <= i < names.len() && is_reserved(#[trigger] names[i])
                    && forall|j: int| 0 <= j < i ==> !is_reserved(#[trigger] names[j]);
                Err(RuntimeErrorV { message: reserved_message(names[i]), span: None })
            } else if n < names.len() {
                Err(err("Not enough values on stack for let binding"@, span))
            } else {
                let values = stack.skip(n - names.len());
                match enter(
                    body,
                    extend(env, names, values),
                    stack.take(n - names.len()),
                    depth,
                    max,
                    span,
                ) {
                    Ok(s) => Ok((next, s)),
                    Err(e) => Err(e),
                }
            },
            OpKindV::Sequence(count) => if n < count {
                Err(err(sequence_message(count as nat, n as nat), span))
            } else if count == 0 {
                Ok((next, stack))
            } else {
                Ok((next, stack.take(n - count).push(stack[n - 1])))
            },
            OpKindV::Match(branches) => if n == 0 {
                Err(err("Scrutinee missing from stack for match"@, span))
            } else {
                let v = stack[n - 1];
                match first_match(branches, v, 0) {
                    Err(m) => Err(RuntimeErrorV { message: m, span: None }),
                    Ok(None) => Err(err(no_match_message(v), span)),
                    Ok(Some((i, frame))) => match enter(
                        branches[i].1,
                        EnvV { bindings: frame, parent: Some(Box::new(env)) },
                        stack.take(n - 1),
                        depth,
                        max,
                        span,
                    ) {
                        Ok(s) => Ok((next, s)),
                        Err(e) => Err(e),
                    },
                }
            },
            OpKindV::And(label) => if n == 0 {
                Err(err("Missing argument to \"and\" instruction"@, span))
            } else {
                match stack[n - 1] {
                    ValueV::Boolean(b) => if b {
                        Ok((next, stack.take(n - 1)))
                    } else {
                        match label_after(ops, pos, label) {
                            Some(k) => Ok((k, stack.take(n - 1).push(ValueV::Boolean(false)))),
                            None => Err(RuntimeErrorV { message: label_message(label), span: None }),
                        }
                    },
                    _ => Err(err("\"and\" expects a boolean value"@, span)),
                }
            },
            OpKindV::Or(label) => if n == 0 {
                Err(err("Missing argument to \"or\" instruction"@, span))
            } else {
                match stack[n - 1] {
                    ValueV::Boolean(b) => if !b {
                        Ok((next, stack.take(n - 1)))
                    } else {
                        match label_after(ops, pos, label) {
                            Some(k) => Ok((k, stack.take(n - 1).push(ValueV::Boolean(true)))),
                            None => Err(RuntimeErrorV { message: label_message(label), span: None }),
                        }
                    },
                    _ => Err(err("\"or\" expects a boolean value"@, span)),
                }
            },
            OpKindV::Cond(body, label) => if n == 0 {
                Err(err("missing guard to \"cond\" instruction"@, span))
            } else {
                match stack[n - 1] {
                    ValueV::Boolean(b) => if !b {
                        Ok((next, stack.take(n - 1)))
                    } else {
                        match label_after(ops, pos, label) {
                            Some(k) => match enter(body, env, stack.take(n - 1), depth, max, span) {
                                Ok(s) => Ok((k, s)),
                                Err(e) => Err(e),
                            },
                            None => Err(RuntimeErrorV { message: label_message(label), span: None }),
                        }
                    },
                    _ => Err(err("boolean expected in conditional"@, span)),
                }
            },
            OpKindV::Label(_) => Ok((next, stack)),
            OpKindV::Exception(message, mod_name, espan, source) => Err(
                RuntimeErrorV { message: exception_message(message, mod_name, source), span: espan },
            ),
        }
    }
}


// ---------------------------------------------------------------------------
// Views of stacks and frames
// ---------------------------------------------------------------------------

proof fn lemma_stack_take(s: Seq<Value>, k: int)
    requires
        0 <= k <= s.len(),
    ensures
        values_view(s.take(k)) == values_view(s).take(k),
        values_view(s.skip(k)) == values_view(s).skip(k),
{
    lemma_values_view(s);
    lemma_values_view(s.take(k));
    lemma_values_view(s.skip(k));
    assert(values_view(s.take(k)) =~= values_view(s).take(k));
    assert(values_view(s.skip(k)) =~= values_view(s).skip(k));
}

proof fn lemma_stack_push(s: Seq<Value>, v: Value)
    ensures
        values_view(s.push(v)) == values_view(s).push(v@),
{
    assert(s.push(v).drop_last() =~= s);
}

proof fn lemma_frame_push(s: Seq<Binding>, b: Binding)
    ensures
        bindings_view(s.push(b)) == bindings_view(s) + seq![(b.name@, b.value@)],
{
    assert(s.push(b).drop_last() =~= s);
    assert(bindings_view(s).push((b.name@, b.value@)) =~= bindings_view(s) + seq![(b.name@, b.value@)]);
}

proof fn lemma_frame_append(a: Seq<Binding>, b: Seq<Binding>)
    ensures
        bindings_view(a + b) == bindings_view(a) + bindings_view(b),
    decreases b.len(),
{
    if b.len() == 0 {
        assert(a + b =~= a);
        assert(bindings_view(b) =~= Seq::<(Seq<char>, ValueV)>::empty());
        assert(bindings_view(a) + bindings_view(b) =~= bindings_view(a));
    } else {
        assert((a + b).drop_last() =~= a + b.drop_last());
        lemma_frame_append(a, b.drop_last());
        assert((a + b).last() == b.last());
        assert(bindings_view(a + b) =~= bindings_view(a) + bindings_view(b));
    }
}

fn append_frame(a: &mut Vec<Binding>, b: Vec<Binding>)
    ensures
        bindings_view(final(a)@) == bindings_view(old(a)@) + bindings_view(b@),
{
    let mut b = b;
    let ghost bb = b@;
    a.append(&mut b);
    proof {
        lemma_frame_append(old(a)@, bb);
    }
}

// ---------------------------------------------------------------------------
// Pattern matching
// ---------------------------------------------------------------------------

pub open spec fn match_agrees(
    r: Result<Option<Vec<Binding>>, RuntimeError>,
    s: Result<Option<Frame>, Seq<char>>,
) -> bool {
    match s {
        Err(m) => r is Err && r->Err_0@ == (RuntimeErrorV { message: m, span: None }),
        Ok(None) => r == Ok::<Option<Vec<Binding>>, RuntimeError>(None),
        Ok(Some(f)) => r is Ok && r->Ok_0 is Some && bindings_view(r->Ok_0->Some_0@) == f,
    }
}

fn is_pair_head(ps: &Vec<Value>) -> (r: bool)
    ensures
        r == (values_view(ps@).len() == 3 && values_view(ps@)[0] is Symbol && (values_view(
            ps@,
        )[0]->Symbol_0 == "pair"@ || values_view(ps@)[0]->Symbol_0 == "cons"@)),
{
    proof {
        lemma_values_view(ps@);
    }
    if ps.len() != 3 {
        return false;
    }
    match &ps[0] {
        Value::Symbol(s) => s.as_str().eq("pair") || s.as_str().eq("cons"),
        _ => false,
    }
}

/// Matches a pattern against a value.
pub fn match_pattern(p: &Value, v: &Value) -> (r: Result<Option<Vec<Binding>>, RuntimeError>)
    ensures
        match_agrees(r, try_match(p@, v@)),
    decreases *p, 0nat,
{
    match p {
        Value::Symbol(s) => {
            if s.as_str().eq("_") {
                return Ok(Some(Vec::new()));
            }
            match assert_not_reserved(s.as_str()) {
                Err(e) => Err(e),
                Ok(()) => {
                    let mut frame: Vec<Binding> = Vec::new();
                    frame.push(Binding { name: s.clone(), value: v.duplicate() });
                    proof {
                        lemma_frame_push(Seq::empty(), frame@[0]);
                        assert(frame@ =~= Seq::<Binding>::empty().push(frame@[0]));
                        assert(bindings_view(Seq::<Binding>::empty()) =~= Seq::<(Seq<char>, ValueV)>::empty());
                    }
                    Ok(Some(frame))
                },
            }
        },
        Value::List(ps) => {
            proof {
                assert(decreases_to!(*p => p->List_0));
                lemma_values_view(ps@);
            }
            match v {
                Value::List(vs) => {
                    proof {
                        lemma_values_view(vs@);
                    }
                    if is_pair_head(ps) && vs.len() >= 2 {
                        let mut tail: Vec<Value> = Vec::new();
                        let mut i: usize = 1;
                        while i < vs.len()
                            invariant
                                1 <= i <= vs@.len(),
                                tail@.len() == i - 1,
                                forall|k: int| 0 <= k < i - 1 ==> (#[trigger] tail@[k])@ == vs@[k + 1]@,
                            decreases vs@.len() - i,
                        {
                            tail.push(vs[i].duplicate());
                            i = i + 1;
                        }
                        let tail_value = Value::List(tail);
                        proof {
                            lemma_values_view(tail@);
                            assert(values_view(tail@) =~= values_view(vs@).skip(1));
                        }
                        match_pair_exec(ps, &vs[0], &tail_value)
                    } else {
                        Ok(None)
                    }
                },
                Value::Pair(a, b) => {
                    if is_pair_head(ps) {
                        match_pair_exec(ps, a, b)
                    } else {
                        Ok(None)
                    }
                },
                Value::Struct(st) => {
                    proof {
                        lemma_values_view(st.values@);
                    }
                    if ps.len() >= 1 && ps.len() - 1 == st.values.len() {
                        let head_ok = match &ps[0] {
                            Value::Symbol(h) => *h == st.kind,
                            _ => false,
                        };
                        if head_ok {
                            match_fields_exec(ps, &st.values, st.values.len())
                        } else {
                            Ok(None)
                        }
                    } else {
                        Ok(None)
                    }
                },
                _ => {
                    if p.equals(v) {
                        proof {
                            assert(bindings_view(Seq::<Binding>::empty()) =~= Seq::<(Seq<char>, ValueV)>::empty());
                        }
                        Ok(Some(Vec::new()))
                    } else {
                        Ok(None)
                    }
                },
            }
        },
        _ => {
            if p.equals(v) {
                proof {
                    assert(bindings_view(Seq::<Binding>::empty()) =~= Seq::<(Seq<char>, ValueV)>::empty());
                }
                Ok(Some(Vec::new()))
            } else {
                Ok(None)
            }
        },
    }
}

fn match_pair_exec(ps: &Vec<Value>, head: &Value, tail: &Value) -> (r: Result<
    Option<Vec<Binding>>,
    RuntimeError,
>)
    ensures
        match_agrees(r, match_both(values_view(ps@), head@, tail@)),
    decreases *ps, 0nat,
{
    proof {
        lemma_values_view(ps@);
    }
    if ps.len() < 3 {
        return Ok(None);
    }
    proof {
        vstd::std_specs::vec::axiom_vec_index_decreases(*ps, 1);
        vstd::std_specs::vec::axiom_vec_index_decreases(*ps, 2);
    }
    match match_pattern(&ps[1], head) {
        Err(e) => Err(e),
        Ok(None) => Ok(None),
        Ok(Some(b1)) => match match_pattern(&ps[2], tail) {
            Err(e) => Err(e),
            Ok(None) => Ok(None),
            Ok(Some(b2)) => {
                let mut all = b1;
                append_frame(&mut all, b2);
                Ok(Some(all))
            },
        },
    }
}

fn match_fields_exec(ps: &Vec<Value>, vals: &Vec<Value>, n: usize) -> (r: Result<
    Option<Vec<Binding>>,
    RuntimeError,
>)
    ensures
        match_agrees(r, match_fields(values_view(ps@), values_view(vals@), n as int)),
    decreases *ps, n,
{
    proof {
        lemma_values_view(ps@);
        lemma_values_view(vals@);
    }
    if n == 0 || n >= ps.len() || n > vals.len() {
        proof {
            assert(bindings_view(Seq::<Binding>::empty()) =~= Seq::<(Seq<char>, ValueV)>::empty());
        }
        return Ok(Some(Vec::new()));
    }
    match match_fields_exec(ps, vals, n - 1) {
        Err(e) => Err(e),
        Ok(None) => Ok(None),
        Ok(Some(b1)) => {
            proof {
                vstd::std_specs::vec::axiom_vec_index_decreases(*ps, n as int);
            }
            match match_pattern(&ps[n], &vals[n - 1]) {
                Err(e) => Err(e),
                Ok(None) => Ok(None),
                Ok(Some(b2)) => {
                    let mut all = b1;
                    append_frame(&mut all, b2);
                    Ok(Some(all))
                },
            }
        },
    }
}


// ---------------------------------------------------------------------------
// The machine
// ---------------------------------------------------------------------------

/// `r` is what the specification `s` says a run ends in, with `stack` the
/// final stack.
pub open spec fn run_agrees(
    r: Result<(), RuntimeError>,
    stack: Seq<Value>,
    s: Result<Seq<ValueV>, RuntimeErrorV>,
) -> bool {
    match s {
        Ok(st) => r is Ok && values_view(stack) == st,
        Err(e) => r is Err && r->Err_0@ == e,
    }
}

fn find_label(ops: &Vec<Operation>, pos: usize, label: &String) -> (r: Option<usize>)
    requires
        pos < ops@.len(),
    ensures
        match label_after(ops_view(ops@), pos as int, label@) {
            Some(k) => r is Some && r->Some_0 as int == k,
            None => r is None,
        },
{
    proof {
        lemma_ops_view(ops@);
    }
    let len = ops.len();
    let mut k = pos;
    while k + 1 < len
        invariant
            pos <= k < ops@.len(),
            len == ops@.len(),
            ops_view(ops@).len() == ops@.len(),
            forall|j: int| 0 <= j < ops@.len() ==> #[trigger] ops_view(ops@)[j] == ops@[j]@,
            label_after(ops_view(ops@), pos as int, label@) == label_after(ops_view(ops@), k as int, label@),
        decreases ops@.len() - k,
    {
        match &ops[k + 1].kind {
            OperationKind::Label { name } => {
                if name.eq(label) {
                    return Some(k + 2);
                }
            },
            _ => {},
        }
        k = k + 1;
    }
    None
}

proof fn lemma_ops_view(s: Seq<Operation>)
    ensures
        ops_view(s).len() == s.len(),
        forall|k: int| 0 <= k < s.len() ==> #[trigger] ops_view(s)[k] == s[k]@,
    decreases s.len(),
{
    if s.len() > 0 {
        lemma_ops_view(s.drop_last());
    }
}

proof fn lemma_branches_view(s: Seq<MatchBranch>)
    ensures
        branches_view(s).len() == s.len(),
        forall|k: int| 0 <= k < s.len() ==> #[trigger] branches_view(s)[k] == (s[k].pattern@, ops_view(s[k].body@)),
    decreases s.len(),
{
    if s.len() > 0 {
        lemma_branches_view(s.drop_last());
    }
}

/// Runs `ops` to the end on `stack`, in `env`, at nesting depth `depth`.
pub fn run_block(
    ops: &Vec<Operation>,
    env: &Rc<Env>,
    stack: &mut Vec<Value>,
    depth: usize,
    max: usize,
) -> (r: Result<(), RuntimeError>)
    requires
        depth < max,
    ensures
        run_agrees(
            r,
            final(stack)@,
            exec_ops(ops_view(ops@), 0, env_view(**env), values_view(old(stack)@), depth as nat, max as nat),
        ),
    decreases max - depth, 4nat,
{
    let ghost ov = ops_view(ops@);
    let ghost ev = (**env)@;
    let ghost goal = exec_ops(ov, 0, ev, values_view(stack@), depth as nat, max as nat);
    proof {
        lemma_ops_view(ops@);
    }
    let mut pos: usize = 0;
    while pos < ops.len()
        invariant
            depth < max,
            ov == ops_view(ops@),
            ev == env_view(**env),
            ov.len() == ops@.len(),
            pos <= ops@.len(),
            goal == exec_ops(ov, pos as int, ev, values_view(stack@), depth as nat, max as nat),
            goal == exec_ops(ops_view(ops@), 0, env_view(**env), values_view(old(stack)@), depth as nat, max as nat),
        decreases ops@.len() - pos,
    {
        let ghost st = values_view(stack@);
        proof {
            assert(exec_ops(ov, pos as int, ev, st, depth as nat, max as nat) == match step(ov, pos as int, ev, st, depth as nat, max as nat) {
                Err(e) => Err(e),
                Ok((next, s)) => if pos < next <= ov.len() {
                    exec_ops(ov, next, ev, s, depth as nat, max as nat)
                } else {
                    Ok(s)
                },
            });
        }
        let res = step_op(ops, pos, env, stack, depth, max);
        proof {
            assert(step_agrees(res, stack@, step(ov, pos as int, ev, st, depth as nat, max as nat)));
        }
        let next = match res {
            Ok(k) => k,
            Err(e) => {
                assert(goal is Err);
                return Err(e);
            },
        };
        if next <= pos || next > ops.len() {
            return Ok(());
        }
        pos = next;
    }
    Ok(())
}

/// Runs `body` one level deeper.
fn enter_block(
    body: &Vec<Operation>,
    env: &Rc<Env>,
    stack: &mut Vec<Value>,
    depth: usize,
    max: usize,
    span: Span,
) -> (r: Result<(), RuntimeError>)
    requires
        depth < max,
    ensures
        run_agrees(
            r,
            final(stack)@,
            enter(ops_view(body@), env_view(**env), values_view(old(stack)@), depth as nat, max as nat, span),
        ),
    decreases max - depth, 0nat,
{
    if depth + 1 >= max {
        return Err(RuntimeError::new("Maximum call stack size exceeded".to_owned(), Some(span)));
    }
    run_block(body, env, stack, depth + 1, max)
}

/// `r` is what the specification `s` says a step ends in.
pub open spec fn step_agrees(
    r: Result<usize, RuntimeError>,
    stack: Seq<Value>,
    s: Result<(int, Seq<ValueV>), RuntimeErrorV>,
) -> bool {
    match s {
        Ok((next, st)) => r is Ok && r->Ok_0 as int == next && values_view(stack) == st,
        Err(e) => r is Err && r->Err_0@ == e,
    }
}

fn owned(s: &str) -> (r: String)
    ensures
        r@ == s@,
{
    s.to_owned()
}

/// Runs the operation at `pos` and gives the position to go on from.
fn step_op(
    ops: &Vec<Operation>,
    pos: usize,
    env: &Rc<Env>,
    stack: &mut Vec<Value>,
    depth: usize,
    max: usize,
) -> (r: Result<usize, RuntimeError>)
    requires
        depth < max,
        pos < ops@.len(),
    ensures
        step_agrees(
            r,
            final(stack)@,
            step(ops_view(ops@), pos as int, env_view(**env), values_view(old(stack)@), depth as nat, max as nat),
        ),
    decreases max - depth, 3nat,
{
    proof {
        lemma_ops_view(ops@);
        lemma_values_view(stack@);
    }
    let ghost s0 = stack@;
    let op = &ops[pos];
    let span = op.span;
    let n = stack.len();
    let len = ops.len();
    let next = pos + 1;
    match &op.kind {
        OperationKind::Value { value } => {
            stack.push(value.duplicate());
            proof {
                lemma_stack_push(s0, stack@.last());
                assert(stack@ =~= s0.push(stack@.last()));
            }
            Ok(next)
        },
        OperationKind::Variable { name } => {
            match assert_not_reserved(name.as_str()) {
                Err(e) => {
                    return Err(e);
                },
                Ok(()) => {},
            }
            match env.get(name.as_str()) {
                Some(v) => {
                    stack.push(v.duplicate());
                    proof {
                        lemma_stack_push(s0, stack@.last());
                        assert(stack@ =~= s0.push(stack@.last()));
                    }
                    Ok(next)
                },
                None => {
                    let mut m = owned("Referenced unbound identifier `");
                    m.push_str(name.as_str());
                    m.push_str("`");
                    Err(RuntimeError::new(m, Some(span)))
                },
            }
        },
        OperationKind::Closure { params, body } => {
            let c = Closure { params: crate::value::dup_strings(params), body: body.clone(), env: env.clone() };
            stack.push(Value::Closure(c));
            proof {
                lemma_stack_push(s0, stack@.last());
                assert(stack@ =~= s0.push(stack@.last()));
            }
            Ok(next)
        },
        OperationKind::Label { .. } => Ok(next),
        _ => step_control(ops, pos, env, stack, depth, max),
    }
}


fn step_control(
    ops: &Vec<Operation>,
    pos: usize,
    env: &Rc<Env>,
    stack: &mut Vec<Value>,
    depth: usize,
    max: usize,
) -> (r: Result<usize, RuntimeError>)
    requires
        depth < max,
        pos < ops@.len(),
        !(ops@[pos as int].kind is Value || ops@[pos as int].kind is Variable || ops@[pos as int].kind is Closure || ops@[pos as int].kind is Label),
    ensures
        step_agrees(
            r,
            final(stack)@,
            step(ops_view(ops@), pos as int, env_view(**env), values_view(old(stack)@), depth as nat, max as nat),
        ),
    decreases max - depth, 2nat,
{
    proof {
        lemma_ops_view(ops@);
        lemma_values_view(stack@);
    }
    let ghost s0 = stack@;
    let span = ops[pos].span;
    let n = stack.len();
    let len = ops.len();
    match &ops[pos].kind {
        OperationKind::Application { .. } => apply_op(ops, pos, env, stack, depth, max),
        OperationKind::If { .. } => if_op(ops, pos, env, stack, depth, max),
        OperationKind::Let { .. } => let_op(ops, pos, env, stack, depth, max),
        OperationKind::Sequence { .. } => sequence_op(ops, pos, env, stack, depth, max),
        OperationKind::Match { .. } => match_op(ops, pos, env, stack, depth, max),
        OperationKind::And { .. } => jump_op(ops, pos, env, stack, depth, max),
        OperationKind::Or { .. } => jump_op(ops, pos, env, stack, depth, max),
        OperationKind::Cond { .. } => jump_op(ops, pos, env, stack, depth, max),
        OperationKind::Exception { message, mod_name, span, source } => {
            let mut m = String::new();
            match mod_name {
                Some(name) => {
                    m.push_str("[");
                    m.push_str(name.as_str());
                    m.push_str("] ");
                },
                None => {},
            }
            match source {
                Some(src) => {
                    m.push_str(src.as_str());
                    m.push_str(": ");
                },
                None => {},
            }
            m.push_str(message.as_str());
            proof {
                assert(m@ =~= exception_message(message@, crate::ast::opt_string_view(*mod_name), crate::ast::opt_string_view(*source)));
            }
            Err(RuntimeError::new(m, *span))
        },
        _ => vstd::pervasive::unreached(),
    }
}

fn apply_op(
    ops: &Vec<Operation>,
    pos: usize,
    env: &Rc<Env>,
    stack: &mut Vec<Value>,
    depth: usize,
    max: usize,
) -> (r: Result<usize, RuntimeError>)
    requires
        depth < max,
        pos < ops@.len(),
        ops@[pos as int].kind is Application,
    ensures
        step_agrees(
            r,
            final(stack)@,
            step(ops_view(ops@), pos as int, env_view(**env), values_view(old(stack)@), depth as nat, max as nat),
        ),
    decreases max - depth, 1nat,
{
    proof {
        lemma_ops_view(ops@);
        lemma_values_view(stack@);
    }
    let ghost s0 = stack@;
    let span = ops[pos].span;
    let n = stack.len();
    let len = ops.len();
    let arity: usize = match &ops[pos].kind {
        OperationKind::Application { arity } => *arity as usize,
        _ => vstd::pervasive::unreached(),
    };
    if n == 0 || n - 1 < arity {
        return Err(RuntimeError::new(owned("Not enough arguments on stack"), Some(span)));
    }
    let args = stack.split_off(n - arity);
    let callee = stack.pop().unwrap();
    proof {
        lemma_stack_take(s0, n - arity);
        lemma_stack_take(s0, n - arity - 1);
        lemma_values_view(s0);
        assert(stack@ =~= s0.take(n - arity - 1));
        assert(args@ =~= s0.skip(n - arity));
        assert(callee == s0[n - arity - 1]);
    }
    match callee {
        Value::Closure(c) => {
            if c.params.len() != arity {
                let mut m = owned("Function expected ");
                push_digits(&mut m, c.params.len() as u64);
                m.push_str(" arguments, passed ");
                push_digits(&mut m, arity as u64);
                m.push_str(" instead");
                return Err(RuntimeError::new(m, Some(span)));
            }
            let new_env = Rc::new(extend_env(&c.env, &c.params, args));
            match enter_block(&c.body, &new_env, stack, depth, max, span) {
                Ok(()) => Ok(pos + 1),
                Err(e) => Err(e),
            }
        },
        Value::Function(f) => match call_native(&f, args) {
            Ok(v) => {
                let ghost s1 = stack@;
                stack.push(v);
                proof {
                    lemma_stack_push(s1, stack@.last());
                    assert(stack@ =~= s1.push(stack@.last()));
                }
                Ok(pos + 1)
            },
            Err(m) => Err(RuntimeError::new(m, Some(span))),
        },
        _ => Err(RuntimeError::new(owned("Non-function value in function application"), Some(span))),
    }
}

fn if_op(
    ops: &Vec<Operation>,
    pos: usize,
    env: &Rc<Env>,
    stack: &mut Vec<Value>,
    depth: usize,
    max: usize,
) -> (r: Result<usize, RuntimeError>)
    requires
        depth < max,
        pos < ops@.len(),
        ops@[pos as int].kind is If,
    ensures
        step_agrees(
            r,
            final(stack)@,
            step(ops_view(ops@), pos as int, env_view(**env), values_view(old(stack)@), depth as nat, max as nat),
        ),
    decreases max - depth, 1nat,
{
    proof {
        lemma_ops_view(ops@);
        lemma_values_view(stack@);
    }
    let ghost s0 = stack@;
    let span = ops[pos].span;
    let n = stack.len();
    let len = ops.len();
    if n == 0 {
        return Err(RuntimeError::new(owned("Empty stack in if expression"), Some(span)));
    }
    let cond = stack.pop().unwrap();
    proof {
        lemma_stack_take(s0, n - 1);
        assert(stack@ =~= s0.take(n - 1));
    }
    match (&ops[pos].kind, cond) {
        (OperationKind::If { if_block, else_block }, Value::Boolean(b)) => {
            let block = if b { if_block } else { else_block };
            match enter_block(block, env, stack, depth, max, span) {
                Ok(()) => Ok(pos + 1),
                Err(e) => Err(e),
            }
        },
        _ => Err(RuntimeError::new(owned("Boolean expected in conditional"), Some(span))),
    }
}

#[verifier::loop_isolation(false)]
fn let_op(
    ops: &Vec<Operation>,
    pos: usize,
    env: &Rc<Env>,
    stack: &mut Vec<Value>,
    depth: usize,
    max: usize,
) -> (r: Result<usize, RuntimeError>)
    requires
        depth < max,
        pos < ops@.len(),
        ops@[pos as int].kind is Let,
    ensures
        step_agrees(
            r,
            final(stack)@,
            step(ops_view(ops@), pos as int, env_view(**env), values_view(old(stack)@), depth as nat, max as nat),
        ),
    decreases max - depth, 1nat,
{
    proof {
        lemma_ops_view(ops@);
        lemma_values_view(stack@);
    }
    let ghost s0 = stack@;
    let span = ops[pos].span;
    let n = stack.len();
    let len = ops.len();
    let (names, body) = match &ops[pos].kind {
        OperationKind::Let { names, body } => (names, body),
        _ => vstd::pervasive::unreached(),
    };
    let ghost nv = strings_view(names@);
    let mut i: usize = 0;
    while i < names.len()
        invariant
            i <= names@.len(),
            nv == strings_view(names@),
            forall|j: int| 0 <= j < i ==> !is_reserved(#[trigger] nv[j]),
        decreases names@.len() - i,
    {
        match assert_not_reserved(names[i].as_str()) {
            Err(e) => {
                proof {
                    let k = choose|k: int| 0 <= k < nv.len() && is_reserved(#[trigger] nv[k])
                        && forall|j: int| 0 <= j < k ==> !is_reserved(#[trigger] nv[j]);
                    assert(is_reserved(nv[i as int]));
                    if k < i {
                        assert(!is_reserved(nv[k]));
                    }
                    if k > i {
                        assert(!is_reserved(nv[i as int]));
                    }
                    assert(k == i);
                }
                return Err(e);
            },
            Ok(()) => {},
        }
        i = i + 1;
    }
    let k = names.len();
    if n < k {
        return Err(RuntimeError::new(owned("Not enough values on stack for let binding"), Some(span)));
    }
    let values = stack.split_off(n - k);
    proof {
        lemma_stack_take(s0, n - k);
        assert(stack@ =~= s0.take(n - k));
        assert(values@ =~= s0.skip(n - k));
    }
    let new_env = Rc::new(extend_env(env, names, values));
    match enter_block(body, &new_env, stack, depth, max, span) {
        Ok(()) => Ok(pos + 1),
        Err(e) => Err(e),
    }
}

fn sequence_op(
    ops: &Vec<Operation>,
    pos: usize,
    env: &Rc<Env>,
    stack: &mut Vec<Value>,
    depth: usize,
    max: usize,
) -> (r: Result<usize, RuntimeError>)
    requires
        depth < max,
        pos < ops@.len(),
        ops@[pos as int].kind is Sequence,
    ensures
        step_agrees(
            r,
            final(stack)@,
            step(ops_view(ops@), pos as int, env_view(**env), values_view(old(stack)@), depth as nat, max as nat),
        ),
    decreases max - depth, 1nat,
{
    proof {
        lemma_ops_view(ops@);
        lemma_values_view(stack@);
    }
    let ghost s0 = stack@;
    let span = ops[pos].span;
    let n = stack.len();
    let len = ops.len();
    let count: usize = match &ops[pos].kind {
        OperationKind::Sequence { subexpr_count } => *subexpr_count as usize,
        _ => vstd::pervasive::unreached(),
    };
    if n < count {
        let mut m = owned("Not enough values on stack for sequence: ");
        push_digits(&mut m, count as u64);
        m.push_str(" expected, ");
        push_digits(&mut m, n as u64);
        m.push_str(" found");
        return Err(RuntimeError::new(m, Some(span)));
    }
    if count == 0 {
        return Ok(pos + 1);
    }
    let last = stack.pop().unwrap();
    stack.truncate(n - count);
    stack.push(last);
    proof {
        lemma_stack_take(s0, n - count);
        lemma_stack_push(s0.take(n - count), last);
        assert(stack@ =~= s0.take(n - count).push(last));
    }
    Ok(pos + 1)
}

#[verifier::loop_isolation(false)]
fn match_op(
    ops: &Vec<Operation>,
    pos: usize,
    env: &Rc<Env>,
    stack: &mut Vec<Value>,
    depth: usize,
    max: usize,
) -> (r: Result<usize, RuntimeError>)
    requires
        depth < max,
        pos < ops@.len(),
        ops@[pos as int].kind is Match,
    ensures
        step_agrees(
            r,
            final(stack)@,
            step(ops_view(ops@), pos as int, env_view(**env), values_view(old(stack)@), depth as nat, max as nat),
        ),
    decreases max - depth, 1nat,
{
    proof {
        lemma_ops_view(ops@);
        lemma_values_view(stack@);
    }
    let ghost s0 = stack@;
    let span = ops[pos].span;
    let n = stack.len();
    let len = ops.len();
    let branches = match &ops[pos].kind {
        OperationKind::Match { branches } => branches,
        _ => vstd::pervasive::unreached(),
    };
    if n == 0 {
        return Err(RuntimeError::new(owned("Scrutinee missing from stack for match"), Some(span)));
    }
    let v = stack.pop().unwrap();
    proof {
        lemma_stack_take(s0, n - 1);
        assert(stack@ =~= s0.take(n - 1));
        lemma_branches_view(branches@);
        assert(v == s0[n - 1]);
        assert(values_view(s0)[n - 1] == v@);
        assert(ops_view(ops@)[pos as int] == ops@[pos as int]@);
    }
    let ghost bv = branches_view(branches@);
    let mut i: usize = 0;
    while i < branches.len()
        invariant
            i <= branches@.len(),
            bv == branches_view(branches@),
            bv.len() == branches@.len(),
            forall|k: int| 0 <= k < branches@.len() ==> #[trigger] bv[k] == (branches@[k].pattern@, ops_view(branches@[k].body@)),
            first_match(bv, v@, 0) == first_match(bv, v@, i as int),
            stack@ == s0.take(n - 1),
        decreases branches@.len() - i,
    {
        match match_pattern(&branches[i].pattern, &v) {
            Err(e) => {
                return Err(e);
            },
            Ok(Some(frame)) => {
                proof {
                    assert(bv[i as int] == (branches@[i as int].pattern@, ops_view(branches@[i as int].body@)));
                }
                let parent = env.clone();
                assert(parent == *env);
                let ghost fv = bindings_view(frame@);
                assert(first_match(bv, v@, i as int) == Ok::<Option<(int, Frame)>, Seq<char>>(Some((i as int, fv))));
                let new_env = Rc::new(Env { bindings: frame, parent: Some(parent) });
                assert(env_view(*new_env) == EnvV { bindings: fv, parent: Some(Box::new(env_view(**env))) });
                assert(ops_view(ops@)[pos as int].kind == OpKindV::Match(bv));
                assert(values_view(s0).len() == n);
                assert(first_match(bv, values_view(s0)[n - 1], 0) == Ok::<Option<(int, Frame)>, Seq<char>>(Some((i as int, fv))));
                assert(values_view(s0).take(n - 1) == values_view(stack@));
                assert(bv[i as int].1 == ops_view(branches@[i as int].body@));
                assert(step(ops_view(ops@), pos as int, env_view(**env), values_view(s0), depth as nat, max as nat) == match enter(
                    ops_view(branches@[i as int].body@),
                    EnvV { bindings: fv, parent: Some(Box::new(env_view(**env))) },
                    values_view(stack@),
                    depth as nat,
                    max as nat,
                    span,
                ) {
                    Ok(s) => Ok((pos + 1, s)),
                    Err(e) => Err(e),
                });
                return match enter_block(&branches[i].body, &new_env, stack, depth, max, span) {
                    Ok(()) => Ok(pos + 1),
                    Err(e) => Err(e),
                };
            },
            Ok(None) => {},
        }
        i = i + 1;
    }
    let mut m = owned("No pattern matches for ");
    push_display(&mut m, &v);
    Err(RuntimeError::new(m, Some(span)))
}

fn jump_op(
    ops: &Vec<Operation>,
    pos: usize,
    env: &Rc<Env>,
    stack: &mut Vec<Value>,
    depth: usize,
    max: usize,
) -> (r: Result<usize, RuntimeError>)
    requires
        depth < max,
        pos < ops@.len(),
        ops@[pos as int].kind is And || ops@[pos as int].kind is Or || ops@[pos as int].kind is Cond,
    ensures
        step_agrees(
            r,
            final(stack)@,
            step(ops_view(ops@), pos as int, env_view(**env), values_view(old(stack)@), depth as nat, max as nat),
        ),
    decreases max - depth, 1nat,
{
    proof {
        lemma_ops_view(ops@);
        lemma_values_view(stack@);
    }
    let ghost s0 = stack@;
    let span = ops[pos].span;
    let n = stack.len();
    let len = ops.len();
    if n == 0 {
        let m = match &ops[pos].kind {
            OperationKind::And { .. } => owned("Missing argument to \"and\" instruction"),
            OperationKind::Or { .. } => owned("Missing argument to \"or\" instruction"),
            _ => owned("missing guard to \"cond\" instruction"),
        };
        return Err(RuntimeError::new(m, Some(span)));
    }
    let guard = stack.pop().unwrap();
    proof {
        lemma_stack_take(s0, n - 1);
        assert(stack@ =~= s0.take(n - 1));
        assert(values_view(s0)[n - 1] == guard@);
        assert(ops_view(ops@)[pos as int] == ops@[pos as int]@);
    }
    let b = match guard {
        Value::Boolean(b) => b,
        _ => {
            let m = match &ops[pos].kind {
                OperationKind::And { .. } => owned("\"and\" expects a boolean value"),
                OperationKind::Or { .. } => owned("\"or\" expects a boolean value"),
                _ => owned("boolean expected in conditional"),
            };
            return Err(RuntimeError::new(m, Some(span)));
        },
    };
    match &ops[pos].kind {
        OperationKind::And { jump_to } => {
            if b {
                return Ok(pos + 1);
            }
            match find_label(ops, pos, jump_to) {
                Some(k) => {
                    let ghost s1 = stack@;
                    stack.push(Value::Boolean(false));
                    proof {
                        lemma_stack_push(s1, Value::Boolean(false));
                        assert(stack@ =~= s1.push(Value::Boolean(false)));
                    }
                    let res: Result<usize, RuntimeError> = Ok(k);
                    assert(step_agrees(res, stack@, step(ops_view(ops@), pos as int, env_view(**env), values_view(s0), depth as nat, max as nat)));
                    res
                },
                None => { let res: Result<usize, RuntimeError> = Err(label_error(jump_to)); assert(step_agrees(res, stack@, step(ops_view(ops@), pos as int, env_view(**env), values_view(s0), depth as nat, max as nat))); res },
            }
        },
        OperationKind::Or { jump_to } => {
            if !b {
                return Ok(pos + 1);
            }
            match find_label(ops, pos, jump_to) {
                Some(k) => {
                    let ghost s1 = stack@;
                    stack.push(Value::Boolean(true));
                    proof {
                        lemma_stack_push(s1, Value::Boolean(true));
                        assert(stack@ =~= s1.push(Value::Boolean(true)));
                    }
                    let res: Result<usize, RuntimeError> = Ok(k);
                    assert(step_agrees(res, stack@, step(ops_view(ops@), pos as int, env_view(**env), values_view(s0), depth as nat, max as nat)));
                    res
                },
                None => { let res: Result<usize, RuntimeError> = Err(label_error(jump_to)); assert(step_agrees(res, stack@, step(ops_view(ops@), pos as int, env_view(**env), values_view(s0), depth as nat, max as nat))); res },
            }
        },
        OperationKind::Cond { body, end } => {
            if !b {
                return Ok(pos + 1);
            }
            match find_label(ops, pos, end) {
                Some(k) => {
                    let res: Result<usize, RuntimeError> = match enter_block(body, env, stack, depth, max, span) {
                        Ok(()) => Ok(k),
                        Err(e) => Err(e),
                    };
                    assert(step_agrees(res, stack@, step(ops_view(ops@), pos as int, env_view(**env), values_view(s0), depth as nat, max as nat)));
                    res
                },
                None => { let res: Result<usize, RuntimeError> = Err(label_error(end)); assert(step_agrees(res, stack@, step(ops_view(ops@), pos as int, env_view(**env), values_view(s0), depth as nat, max as nat))); res },
            }
        },
        _ => vstd::pervasive::unreached(),
    }
}

fn label_error(label: &String) -> (r: RuntimeError)
    ensures
        r@ == (RuntimeErrorV { message: label_message(label@), span: None }),
{
    let mut m = owned("Label `");
    m.push_str(label.as_str());
    m.push_str("` not found");
    RuntimeError::new(m, None)
}

} // verus!

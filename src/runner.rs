//! Running programs statement by statement, keeping the bindings that
//! `define` and `struct` make for the statements after them.
use crate::ast::{
    Ast, Binding, Env, EnvV, NativeFn, NativeFnV, Operation, OperationV, Statement, StatementKind,
    StatementKindV, StatementV, Value, ValueV, env_view, ops_view, statements_view, strings_view,
    values_view,
};
use crate::diagnostics::{ParseError, RuntimeError, RuntimeErrorV};
use crate::env::{assert_not_reserved, is_reserved, reserved_message};
use crate::eval::{exec_ops, run_agrees, run_block};
use crate::parser::{fails_with, parse, parse_program};
use crate::value::lemma_values_view;
use std::rc::Rc;
use vstd::prelude::*;

verus! {

broadcast use vstd::std_specs::vec::group_vec_axioms;

/// How deeply blocks may nest before a run fails instead of exhausting the
/// host stack.
pub const MAX_CALL_STACK_DEPTH: usize = 256;

/// The result of one statement.
#[derive(Debug)]
pub enum Output {
    Value(Value),
    Error(RuntimeError),
}

pub enum OutputV {
    Value(ValueV),
    Error(RuntimeErrorV),
}

impl View for Output {
    type V = OutputV;

    open spec fn view(&self) -> OutputV {
        match self {
            Output::Value(v) => OutputV::Value(v@),
            Output::Error(e) => OutputV::Error(e@),
        }
    }
}

pub open spec fn outputs_view(s: Seq<Output>) -> Seq<OutputV> {
    s.map_values(|o: Output| o@)
}

pub open spec fn no_value_message() -> Seq<char> {
    "expression produced no value"@
}

pub open spec fn module_message(name: Seq<char>) -> Seq<char> {
    "Module not found: "@ + name
}

/// The position of the first reserved word among `names[i..]`.
pub open spec fn first_reserved(names: Seq<Seq<char>>, i: int) -> Option<int>
    decreases names.len() - i,
{
    if i < 0 || i >= names.len() {
        None
    } else if is_reserved(names[i]) {
        Some(i)
    } else {
        first_reserved(names, i + 1)
    }
}

/// The bindings a `struct` statement makes: the predicate `id?`, the
/// constructor `id`, and an accessor `id-field` for each field.
pub open spec fn struct_frame(id: Seq<char>, fields: Seq<Seq<char>>) -> Seq<(Seq<char>, ValueV)> {
    seq![
        (id + "?"@, ValueV::Function(NativeFnV::StructPredicate(id))),
        (id, ValueV::Function(NativeFnV::StructConstructor(id, fields))),
    ] + Seq::new(
        fields.len(),
        |i: int| (id + "-"@ + fields[i], ValueV::Function(NativeFnV::StructAccessor(id, i as nat))),
    )
}

/// Evaluates a statement body on an empty stack: its value, or the error.
pub open spec fn eval_body(body: Seq<OperationV>, env: EnvV, max: nat) -> Result<ValueV, RuntimeErrorV> {
    match exec_ops(body, 0, env, seq![], 0, max) {
        Ok(s) => if s.len() > 0 {
            Ok(s.last())
        } else {
            Err(RuntimeErrorV { message: no_value_message(), span: None })
        },
        Err(e) => Err(e),
    }
}

/// Runs one statement in `env`: what it outputs, and the environment after it.
pub open spec fn run_stmt(st: StatementV, env: EnvV, max: nat) -> (Option<OutputV>, EnvV) {
    match st.kind {
        StatementKindV::Binding(name, body) => if is_reserved(name) {
            (Some(OutputV::Error(RuntimeErrorV { message: reserved_message(name), span: None })), env)
        } else {
            match eval_body(body, env, max) {
                Ok(v) => (None, EnvV { bindings: seq![(name, v)], parent: Some(Box::new(env)) }),
                Err(e) => (Some(OutputV::Error(e)), env),
            }
        },
        StatementKindV::Expression(body) => match eval_body(body, env, max) {
            Ok(v) => (Some(OutputV::Value(v)), env),
            Err(e) => (Some(OutputV::Error(e)), env),
        },
        StatementKindV::Display(body) => match eval_body(body, env, max) {
            Ok(v) => (Some(OutputV::Value(v)), env),
            Err(e) => (Some(OutputV::Error(e)), env),
        },
        StatementKindV::Import(name) => (
            Some(OutputV::Error(RuntimeErrorV { message: module_message(name), span: None })),
            env,
        ),
        StatementKindV::Struct(id, fields) => if is_reserved(id) {
            (Some(OutputV::Error(RuntimeErrorV { message: reserved_message(id), span: None })), env)
        } else {
            match first_reserved(fields, 0) {
                Some(i) => (
                    Some(OutputV::Error(RuntimeErrorV { message: reserved_message(fields[i]), span: None })),
                    env,
                ),
                None => (None, EnvV { bindings: struct_frame(id, fields), parent: Some(Box::new(env)) }),
            }
        },
    }
}

/// Runs `sts[i..]` in order from `env`: the outputs, and the final environment.
pub open spec fn run_stmts(sts: Seq<StatementV>, i: int, env: EnvV, max: nat) -> (Seq<OutputV>, EnvV)
    decreases sts.len() - i,
{
    if i < 0 || i >= sts.len() {
        (seq![], env)
    } else {
        let (out, env1) = run_stmt(sts[i], env, max);
        let (rest, env2) = run_stmts(sts, i + 1, env1, max);
        (
            match out {
                Some(o) => seq![o] + rest,
                None => rest,
            },
            env2,
        )
    }
}

// ---------------------------------------------------------------------------
// Running one block
// ---------------------------------------------------------------------------

/// Runs one block against an environment.
pub struct ExecutionStack {
    pub stack: Vec<Value>,
    env: Rc<Env>,
    ops: Vec<Operation>,
    done: bool,
    max_depth: usize,
}

impl ExecutionStack {
    pub closed spec fn env(&self) -> EnvV {
        env_view(*self.env)
    }

    pub closed spec fn ops(&self) -> Seq<OperationV> {
        ops_view(self.ops@)
    }

    pub closed spec fn max_depth(&self) -> nat {
        self.max_depth as nat
    }

    pub closed spec fn done(&self) -> bool {
        self.done
    }

    /// The values on the stack.
    pub closed spec fn values(&self) -> Seq<Value> {
        self.stack@
    }

    pub fn new(env: Rc<Env>, body: Vec<Operation>) -> (r: ExecutionStack)
        ensures
            r.env() == env_view(*env),
            r.ops() == ops_view(body@),
            r.values().len() == 0,
            r.max_depth() == MAX_CALL_STACK_DEPTH,
            !r.done(),
    {
        ExecutionStack { stack: Vec::new(), env, ops: body, done: false, max_depth: MAX_CALL_STACK_DEPTH }
    }

    pub fn is_done(&self) -> (r: bool)
        ensures
            r == self.done(),
    {
        self.done
    }

    /// Runs the block to its end.
    pub fn run(&mut self) -> (r: Result<(), RuntimeError>)
        requires
            old(self).max_depth() > 0,
        ensures
            final(self).done(),
            run_agrees(
                r,
                final(self).values(),
                exec_ops(old(self).ops(), 0, old(self).env(), values_view(old(self).values()), 0, old(self).max_depth()),
            ),
    {
        let r = run_block(&self.ops, &self.env, &mut self.stack, 0, self.max_depth);
        self.done = true;
        r
    }

    pub fn pop(&mut self) -> (r: Option<Value>)
        ensures
            final(self).values() == if old(self).values().len() > 0 {
                old(self).values().drop_last()
            } else {
                old(self).values()
            },
            r == if old(self).values().len() > 0 {
                Some(old(self).values().last())
            } else {
                None::<Value>
            },
            final(self).done() == old(self).done(),
    {
        self.stack.pop()
    }
}


// ---------------------------------------------------------------------------
// Running statements
// ---------------------------------------------------------------------------

fn eval_statement_body(body: &Vec<Operation>, env: &Rc<Env>, max: usize) -> (r: Result<Value, RuntimeError>)
    requires
        max > 0,
    ensures
        match eval_body(ops_view(body@), env_view(**env), max as nat) {
            Ok(v) => r is Ok && r->Ok_0@ == v,
            Err(e) => r is Err && r->Err_0@ == e,
        },
{
    let mut stack: Vec<Value> = Vec::new();
    proof {
        assert(values_view(stack@) =~= Seq::<ValueV>::empty());
    }
    match run_block(body, env, &mut stack, 0, max) {
        Ok(()) => {
            proof {
                lemma_values_view(stack@);
            }
            let ghost before = stack@;
            match stack.pop() {
                Some(v) => {
                    proof {
                        assert(values_view(before).last() == before.last()@);
                    }
                    Ok(v)
                },
                None => Err(RuntimeError::new("expression produced no value".to_owned(), None)),
            }
        },
        Err(e) => Err(e),
    }
}

fn struct_bindings(id: &String, fields: &Vec<String>) -> (r: Vec<Binding>)
    ensures
        crate::ast::bindings_view(r@) == struct_frame(id@, strings_view(fields@)),
{
    let mut out: Vec<Binding> = Vec::new();
    let mut pred = id.clone();
    pred.push_str("?");
    out.push(Binding { name: pred, value: Value::Function(NativeFn::StructPredicate { kind: id.clone() }) });
    out.push(Binding {
        name: id.clone(),
        value: Value::Function(NativeFn::StructConstructor { kind: id.clone(), fields: crate::value::dup_strings(fields) }),
    });
    let ghost fv = strings_view(fields@);
    let ghost frame = struct_frame(id@, fv);
    proof {
        lemma_frame_view(out@);
        assert(out@.len() == 2);
    }
    let mut i: usize = 0;
    while i < fields.len()
        invariant
            i <= fields@.len(),
            fv == strings_view(fields@),
            frame == struct_frame(id@, fv),
            out@.len() == i + 2,
            forall|k: int| 0 <= k < i + 2 ==> (#[trigger] out@[k]).name@ == frame[k].0 && out@[k].value@ == frame[k].1,
        decreases fields@.len() - i,
    {
        let mut name = id.clone();
        name.push_str("-");
        name.push_str(fields[i].as_str());
        out.push(Binding { name, value: Value::Function(NativeFn::StructAccessor { kind: id.clone(), index: i }) });
        i = i + 1;
    }
    proof {
        lemma_frame_view(out@);
        assert(crate::ast::bindings_view(out@) =~= frame);
    }
    out
}

proof fn lemma_frame_view(s: Seq<Binding>)
    ensures
        crate::ast::bindings_view(s).len() == s.len(),
        forall|k: int| 0 <= k < s.len() ==> #[trigger] crate::ast::bindings_view(s)[k] == (s[k].name@, s[k].value@),
    decreases s.len(),
{
    if s.len() > 0 {
        lemma_frame_view(s.drop_last());
    }
}

/// `r` is the output and environment that `run_stmt` gives.
pub open spec fn stmt_agrees(out: Option<Output>, env: EnvV, s: (Option<OutputV>, EnvV)) -> bool {
    &&& env == s.1
    &&& match s.0 {
        Some(o) => out is Some && out->Some_0@ == o,
        None => out is None,
    }
}

fn reserved_error(name: &str) -> (r: RuntimeError)
    requires
        is_reserved(name@),
    ensures
        r@ == (RuntimeErrorV { message: reserved_message(name@), span: None }),
{
    match assert_not_reserved(name) {
        Err(e) => e,
        Ok(()) => vstd::pervasive::unreached(),
    }
}

/// Runs one statement in `env`.
#[verifier::loop_isolation(false)]
pub fn run_statement(st: &Statement, env: &Rc<Env>, max: usize) -> (r: (Option<Output>, Rc<Env>))
    requires
        max > 0,
    ensures
        stmt_agrees(r.0, env_view(*r.1), run_stmt(st@, env_view(**env), max as nat)),
{
    match &st.kind {
        StatementKind::Binding { name, body } => {
            if crate::env::is_reserved_word(name.as_str()) {
                return (Some(Output::Error(reserved_error(name.as_str()))), env.clone());
            }
            match eval_statement_body(body, env, max) {
                Ok(v) => {
                    let mut bindings: Vec<Binding> = Vec::new();
                    bindings.push(Binding { name: name.clone(), value: v });
                    let new_env = Rc::new(Env { bindings, parent: Some(env.clone()) });
                    proof {
                        lemma_frame_view(new_env.bindings@);
                        assert(crate::ast::bindings_view(new_env.bindings@) =~= seq![(name@, new_env.bindings@[0].value@)]);
                    }
                    (None, new_env)
                },
                Err(e) => (Some(Output::Error(e)), env.clone()),
            }
        },
        StatementKind::Expression { body } => match eval_statement_body(body, env, max) {
            Ok(v) => (Some(Output::Value(v)), env.clone()),
            Err(e) => (Some(Output::Error(e)), env.clone()),
        },
        StatementKind::Display { body } => match eval_statement_body(body, env, max) {
            Ok(v) => (Some(Output::Value(v)), env.clone()),
            Err(e) => (Some(Output::Error(e)), env.clone()),
        },
        StatementKind::Import { mod_name } => {
            let mut m = "Module not found: ".to_owned();
            m.push_str(mod_name.as_str());
            (Some(Output::Error(RuntimeError::new(m, None))), env.clone())
        },
        StatementKind::Struct { id, fields } => {
            if crate::env::is_reserved_word(id.as_str()) {
                return (Some(Output::Error(reserved_error(id.as_str()))), env.clone());
            }
            let ghost fv = strings_view(fields@);
            let mut i: usize = 0;
            while i < fields.len()
                invariant
                    i <= fields@.len(),
                    fv == strings_view(fields@),
                    first_reserved(fv, 0) == first_reserved(fv, i as int),
                decreases fields@.len() - i,
            {
                if crate::env::is_reserved_word(fields[i].as_str()) {
                    return (Some(Output::Error(reserved_error(fields[i].as_str()))), env.clone());
                }
                i = i + 1;
            }
            let bindings = struct_bindings(id, fields);
            (None, Rc::new(Env { bindings, parent: Some(env.clone()) }))
        },
    }
}

/// Runs the statements of a program one at a time, keeping what each outputs.
pub struct Runner {
    stmts: Vec<Statement>,
    current_stmt: usize,
    output: Vec<Output>,
    env: Rc<Env>,
    max_depth: usize,
}

impl Runner {
    pub closed spec fn statements(&self) -> Seq<StatementV> {
        statements_view(self.stmts@)
    }

    pub closed spec fn position(&self) -> int {
        self.current_stmt as int
    }

    pub closed spec fn outputs(&self) -> Seq<OutputV> {
        outputs_view(self.output@)
    }

    pub closed spec fn env(&self) -> EnvV {
        env_view(*self.env)
    }

    pub closed spec fn max_depth(&self) -> nat {
        self.max_depth as nat
    }

    pub closed spec fn wf(&self) -> bool {
        self.max_depth > 0 && self.current_stmt <= self.stmts@.len()
    }

    /// A runner for `program`, in `env` or else in a fresh environment with the prelude.
    pub fn new(program: Ast, env: Option<Rc<Env>>) -> (r: Runner)
        ensures
            r.wf(),
            r.statements() == statements_view(program.statements@),
            r.position() == 0,
            r.outputs().len() == 0,
            r.max_depth() == MAX_CALL_STACK_DEPTH,
            env is Some ==> r.env() == env_view(*env->Some_0),
            env is None ==> r.env().bindings == crate::env::prelude_bindings() && r.env().parent is None,
    {
        let env = match env {
            Some(e) => e,
            None => Rc::new(Env::new(None)),
        };
        Runner { stmts: program.statements, current_stmt: 0, output: Vec::new(), env, max_depth: MAX_CALL_STACK_DEPTH }
    }

    pub fn get_output(self) -> (r: Vec<Output>)
        ensures
            outputs_view(r@) == self.outputs(),
    {
        self.output
    }

    /// The environment the next statement runs in.
    pub fn environment(&self) -> (r: Rc<Env>)
        ensures
            env_view(*r) == self.env(),
    {
        self.env.clone()
    }

    pub fn is_done(&self) -> (r: bool)
        ensures
            r == (self.position() >= self.statements().len()),
    {
        self.current_stmt >= self.stmts.len()
    }

    /// Runs the next statement.
    pub fn step(&mut self)
        requires
            old(self).wf(),
        ensures
            final(self).wf(),
            final(self).statements() == old(self).statements(),
            final(self).max_depth() == old(self).max_depth(),
            old(self).position() >= old(self).statements().len() ==> *final(self) == *old(self),
            old(self).position() < old(self).statements().len() ==> {
                let (out, env) = run_stmt(old(self).statements()[old(self).position()], old(self).env(), old(self).max_depth());
                &&& final(self).position() == old(self).position() + 1
                &&& final(self).env() == env
                &&& final(self).outputs() == match out {
                    Some(o) => old(self).outputs().push(o),
                    None => old(self).outputs(),
                }
            },
    {
        if self.current_stmt >= self.stmts.len() {
            return;
        }
        let (out, env) = run_statement(&self.stmts[self.current_stmt], &self.env, self.max_depth);
        match out {
            Some(o) => {
                self.output.push(o);
                proof {
                    assert(outputs_view(self.output@) =~= outputs_view(old(self).output@).push(self.output@.last()@));
                }
            },
            None => {},
        }
        self.env = env;
        self.current_stmt = self.current_stmt + 1;
    }

    /// Runs every remaining statement.
    pub fn execute(&mut self)
        requires
            old(self).wf(),
        ensures
            final(self).wf(),
            final(self).position() >= final(self).statements().len(),
            final(self).statements() == old(self).statements(),
            ({
                let (outs, env) = run_stmts(old(self).statements(), old(self).position(), old(self).env(), old(self).max_depth());
                final(self).outputs() == old(self).outputs() + outs && final(self).env() == env
            }),
    {
        let ghost sts = self.statements();
        let ghost max = self.max_depth();
        let ghost goal = run_stmts(sts, self.position(), self.env(), max);
        let ghost start = self.outputs();
        while !self.is_done()
            invariant
                self.wf(),
                self.statements() == sts,
                self.max_depth() == max,
                ({
                    let (outs, env) = run_stmts(sts, self.position(), self.env(), max);
                    start + goal.0 == self.outputs() + outs && goal.1 == env
                }),
            decreases sts.len() - self.position(),
        {
            let ghost p = self.position();
            let ghost e0 = self.env();
            let ghost o0 = self.outputs();
            self.step();
            proof {
                let (out, e1) = run_stmt(sts[p], e0, max);
                let (rest, e2) = run_stmts(sts, p + 1, e1, max);
                match out {
                    Some(o) => {
                        assert(o0 + (seq![o] + rest) =~= o0.push(o) + rest);
                    },
                    None => {},
                }
            }
        }
    }
}


/// An interpreter session: programs run one after another share the
/// bindings that earlier ones made.
pub struct Engine {
    env: Rc<Env>,
    max_depth: usize,
}

impl Engine {
    pub closed spec fn env(&self) -> EnvV {
        env_view(*self.env)
    }

    pub closed spec fn max_depth(&self) -> nat {
        self.max_depth as nat
    }

    /// A session with the prelude bound.
    pub fn new() -> (r: Engine)
        ensures
            r.env().bindings == crate::env::prelude_bindings(),
            r.env().parent is None,
            r.max_depth() == MAX_CALL_STACK_DEPTH,
    {
        Engine { env: Rc::new(Env::new(None)), max_depth: MAX_CALL_STACK_DEPTH }
    }

    /// A session with the prelude bound whose blocks may nest `max_depth` deep.
    pub fn with_max_depth(max_depth: usize) -> (r: Engine)
        requires
            max_depth > 0,
        ensures
            r.env().bindings == crate::env::prelude_bindings(),
            r.env().parent is None,
            r.max_depth() == max_depth,
    {
        Engine { env: Rc::new(Env::new(None)), max_depth }
    }

    /// Parses `code` and runs its statements in order: one output for each
    /// expression, display, failed definition and import.
    pub fn run(&mut self, code: &str) -> (r: Result<Vec<Output>, ParseError>)
        requires
            old(self).max_depth() > 0,
        ensures
            final(self).max_depth() == old(self).max_depth(),
            match parse_program(code@) {
                Err(f) => r is Err && fails_with(r->Err_0, f) && final(self).env() == old(self).env(),
                Ok(sts) => {
                    let (outs, env) = run_stmts(sts, 0, old(self).env(), old(self).max_depth());
                    r is Ok && outputs_view(r->Ok_0@) == outs && final(self).env() == env
                },
            },
    {
        let ast = parse(code)?;
        let mut runner = Runner { stmts: ast.statements, current_stmt: 0, output: Vec::new(), env: self.env.clone(), max_depth: self.max_depth };
        runner.execute();
        self.env = runner.environment();
        let out = runner.get_output();
        Ok(out)
    }
}

} // verus!

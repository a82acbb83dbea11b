//! Runtime values, the operation IR that the parser lowers programs to, and
//! the lexical environments the evaluator runs them in, with their views.
use crate::span::Span;
use std::rc::Rc;
use vstd::prelude::*;

verus! {

broadcast use vstd::std_specs::vec::group_vec_axioms;

/// A decimal number `mantissa / 10^scale`: how a float literal is held.
#[derive(Debug, Clone, Copy, PartialEq, Eq, Structural)]
pub struct Decimal {
    pub mantissa: i64,
    pub scale: u32,
}

/// The record that a `struct` statement declares: its kind and field names.
#[derive(Debug, PartialEq)]
pub struct Struct {
    pub kind: String,
    pub fields: Vec<String>,
    pub values: Vec<Value>,
}

/// Native functions that the evaluator knows how to call.
#[derive(Debug, Clone, Copy, PartialEq, Eq, Structural)]
pub enum Builtin {
    /// `+`: sum of integers.
    Add,
    /// `-`: negation of one integer, or the first minus the rest.
    Sub,
    /// `*`: product of integers.
    Mul,
    /// `<` on two numbers.
    Less,
    /// `>` on two numbers.
    Greater,
    /// `=` on two numbers.
    NumEq,
    /// `not` on a boolean.
    Not,
    /// `error`: fails with the given message.
    Error,
}

/// A native function value.
#[derive(Debug, Clone, PartialEq)]
pub enum NativeFn {
    Builtin(Builtin),
    /// `kind?`: whether the argument is a record of this kind.
    StructPredicate { kind: String },
    /// `kind`: builds a record of this kind from one value per field.
    StructConstructor { kind: String, fields: Vec<String> },
    /// `kind-field`: the field at this index of a record of this kind.
    StructAccessor { kind: String, index: usize },
}

/// A function written in the language, with the environment it was created in.
#[derive(Debug, PartialEq)]
pub struct Closure {
    pub params: Vec<String>,
    pub body: Rc<Vec<Operation>>,
    pub env: Rc<Env>,
}

/// A runtime value.
#[derive(Debug, PartialEq)]
pub enum Value {
    Boolean(bool),
    Integer(i64),
    Float(Decimal),
    String(String),
    Char(char),
    Pair(Box<Value>, Box<Value>),
    List(Vec<Value>),
    Vector(Vec<Value>),
    Symbol(String),
    Closure(Closure),
    Struct(Struct),
    Function(NativeFn),
    /// A handle to a value that code outside the evaluator owns.
    Foreign(u64),
    Null,
    Void,
}

/// A name bound to a value.
#[derive(Debug, PartialEq)]
pub struct Binding {
    pub name: String,
    pub value: Value,
}

/// A table of bindings, with an optional enclosing table that lookups fall
/// back to.
#[derive(Debug, PartialEq)]
pub struct Env {
    pub bindings: Vec<Binding>,
    pub parent: Option<Rc<Env>>,
}

/// One branch of a `match`: a pattern and the lowered body to run on a match.
#[derive(Debug, PartialEq)]
pub struct MatchBranch {
    pub pattern: Value,
    pub body: Rc<Vec<Operation>>,
}

#[derive(Debug, PartialEq)]
pub enum OperationKind {
    Variable { name: String },
    Value { value: Value },
    Closure { params: Vec<String>, body: Rc<Vec<Operation>> },
    Application { arity: u32 },
    If { if_block: Rc<Vec<Operation>>, else_block: Rc<Vec<Operation>> },
    Let { names: Vec<String>, body: Rc<Vec<Operation>> },
    /// `begin`: keeps the last of this many values.
    Sequence { subexpr_count: u32 },
    Match { branches: Vec<MatchBranch> },
    And { jump_to: String },
    Or { jump_to: String },
    Cond { body: Rc<Vec<Operation>>, end: String },
    Label { name: String },
    Exception {
        message: String,
        mod_name: Option<String>,
        span: Option<Span>,
        source: Option<String>,
    },
}

/// One instruction of the IR, with the source span it was lowered from.
#[derive(Debug, PartialEq)]
pub struct Operation {
    pub kind: OperationKind,
    pub span: Span,
}

// ---------------------------------------------------------------------------
// Views
// ---------------------------------------------------------------------------

pub enum NativeFnV {
    Builtin(Builtin),
    StructPredicate(Seq<char>),
    StructConstructor(Seq<char>, Seq<Seq<char>>),
    StructAccessor(Seq<char>, nat),
}

pub enum ValueV {
    Boolean(bool),
    Integer(i64),
    Float(Decimal),
    String(Seq<char>),
    Char(char),
    Pair(Box<ValueV>, Box<ValueV>),
    List(Seq<ValueV>),
    Vector(Seq<ValueV>),
    Symbol(Seq<char>),
    /// Parameters, body and captured environment.
    Closure(Seq<Seq<char>>, Seq<OperationV>, Box<EnvV>),
    /// Kind, field names and field values.
    Struct(Seq<char>, Seq<Seq<char>>, Seq<ValueV>),
    Function(NativeFnV),
    Foreign(u64),
    Null,
    Void,
}

pub struct EnvV {
    pub bindings: Seq<(Seq<char>, ValueV)>,
    pub parent: Option<Box<EnvV>>,
}

pub enum OpKindV {
    Variable(Seq<char>),
    Value(ValueV),
    Closure(Seq<Seq<char>>, Seq<OperationV>),
    Application(u32),
    If(Seq<OperationV>, Seq<OperationV>),
    Let(Seq<Seq<char>>, Seq<OperationV>),
    Sequence(u32),
    Match(Seq<(ValueV, Seq<OperationV>)>),
    And(Seq<char>),
    Or(Seq<char>),
    Cond(Seq<OperationV>, Seq<char>),
    Label(Seq<char>),
    Exception(Seq<char>, Option<Seq<char>>, Option<Span>, Option<Seq<char>>),
}

pub struct OperationV {
    pub kind: OpKindV,
    pub span: Span,
}

pub open spec fn strings_view(s: Seq<String>) -> Seq<Seq<char>> {
    s.map_values(|x: String| x@)
}

pub open spec fn opt_string_view(s: Option<String>) -> Option<Seq<char>> {
    match s {
        Some(x) => Some(x@),
        None => None,
    }
}

pub open spec fn native_view(f: NativeFn) -> NativeFnV {
    match f {
        NativeFn::Builtin(b) => NativeFnV::Builtin(b),
        NativeFn::StructPredicate { kind } => NativeFnV::StructPredicate(kind@),
        NativeFn::StructConstructor { kind, fields } => NativeFnV::StructConstructor(
            kind@,
            strings_view(fields@),
        ),
        NativeFn::StructAccessor { kind, index } => NativeFnV::StructAccessor(kind@, index as nat),
    }
}

pub open spec fn value_view(v: Value) -> ValueV
    decreases v,
{
    match v {
        Value::Boolean(b) => ValueV::Boolean(b),
        Value::Integer(i) => ValueV::Integer(i),
        Value::Float(d) => ValueV::Float(d),
        Value::String(s) => ValueV::String(s@),
        Value::Char(c) => ValueV::Char(c),
        Value::Pair(a, b) => ValueV::Pair(Box::new(value_view(*a)), Box::new(value_view(*b))),
        Value::List(xs) => ValueV::List(values_view(xs@)),
        Value::Vector(xs) => ValueV::Vector(values_view(xs@)),
        Value::Symbol(s) => ValueV::Symbol(s@),
        Value::Closure(c) => ValueV::Closure(
            strings_view(c.params@),
            ops_view(c.body@),
            Box::new(env_view(*c.env)),
        ),
        Value::Struct(s) => ValueV::Struct(s.kind@, strings_view(s.fields@), values_view(s.values@)),
        Value::Function(f) => ValueV::Function(native_view(f)),
        Value::Foreign(h) => ValueV::Foreign(h),
        Value::Null => ValueV::Null,
        Value::Void => ValueV::Void,
    }
}

pub open spec fn values_view(s: Seq<Value>) -> Seq<ValueV>
    decreases s,
{
    if s.len() == 0 {
        Seq::empty()
    } else {
        values_view(s.drop_last()).push(value_view(s.last()))
    }
}

pub open spec fn env_view(e: Env) -> EnvV
    decreases e,
{
    EnvV {
        bindings: bindings_view(e.bindings@),
        parent: match e.parent {
            Some(p) => Some(Box::new(env_view(*p))),
            None => None,
        },
    }
}

pub open spec fn bindings_view(s: Seq<Binding>) -> Seq<(Seq<char>, ValueV)>
    decreases s,
{
    if s.len() == 0 {
        Seq::empty()
    } else {
        bindings_view(s.drop_last()).push((s.last().name@, value_view(s.last().value)))
    }
}

pub open spec fn op_view(o: Operation) -> OperationV
    decreases o,
{
    OperationV {
        kind: match o.kind {
            OperationKind::Variable { name } => OpKindV::Variable(name@),
            OperationKind::Value { value } => OpKindV::Value(value_view(value)),
            OperationKind::Closure { params, body } => OpKindV::Closure(
                strings_view(params@),
                ops_view(body@),
            ),
            OperationKind::Application { arity } => OpKindV::Application(arity),
            OperationKind::If { if_block, else_block } => OpKindV::If(
                ops_view(if_block@),
                ops_view(else_block@),
            ),
            OperationKind::Let { names, body } => OpKindV::Let(strings_view(names@), ops_view(body@)),
            OperationKind::Sequence { subexpr_count } => OpKindV::Sequence(subexpr_count),
            OperationKind::Match { branches } => OpKindV::Match(branches_view(branches@)),
            OperationKind::And { jump_to } => OpKindV::And(jump_to@),
            OperationKind::Or { jump_to } => OpKindV::Or(jump_to@),
            OperationKind::Cond { body, end } => OpKindV::Cond(ops_view(body@), end@),
            OperationKind::Label { name } => OpKindV::Label(name@),
            OperationKind::Exception { message, mod_name, span, source } => OpKindV::Exception(
                message@,
                opt_string_view(mod_name),
                span,
                opt_string_view(source),
            ),
        },
        span: o.span,
    }
}

pub open spec fn ops_view(s: Seq<Operation>) -> Seq<OperationV>
    decreases s,
{
    if s.len() == 0 {
        Seq::empty()
    } else {
        ops_view(s.drop_last()).push(op_view(s.last()))
    }
}

pub open spec fn branches_view(s: Seq<MatchBranch>) -> Seq<(ValueV, Seq<OperationV>)>
    decreases s,
{
    if s.len() == 0 {
        Seq::empty()
    } else {
        branches_view(s.drop_last()).push(
            (value_view(s.last().pattern), ops_view(s.last().body@)),
        )
    }
}

impl View for Value {
    type V = ValueV;

    open spec fn view(&self) -> ValueV {
        value_view(*self)
    }
}

impl View for Operation {
    type V = OperationV;

    open spec fn view(&self) -> OperationV {
        op_view(*self)
    }
}

impl View for Env {
    type V = EnvV;

    open spec fn view(&self) -> EnvV {
        env_view(*self)
    }
}

impl View for NativeFn {
    type V = NativeFnV;

    open spec fn view(&self) -> NativeFnV {
        native_view(*self)
    }
}


/// A top-level form.
#[derive(Debug, PartialEq)]
pub enum StatementKind {
    Binding { name: String, body: Vec<Operation> },
    Expression { body: Vec<Operation> },
    Import { mod_name: String },
    Display { body: Vec<Operation> },
    Struct { id: String, fields: Vec<String> },
}

#[derive(Debug, PartialEq)]
pub struct Statement {
    pub kind: StatementKind,
    pub span: Span,
}

/// A parsed program.
#[derive(Debug, PartialEq)]
pub struct Ast {
    pub statements: Vec<Statement>,
}

pub enum StatementKindV {
    Binding(Seq<char>, Seq<OperationV>),
    Expression(Seq<OperationV>),
    Import(Seq<char>),
    Display(Seq<OperationV>),
    Struct(Seq<char>, Seq<Seq<char>>),
}

pub struct StatementV {
    pub kind: StatementKindV,
    pub span: Span,
}

impl View for Statement {
    type V = StatementV;

    open spec fn view(&self) -> StatementV {
        StatementV {
            kind: match self.kind {
                StatementKind::Binding { name, body } => StatementKindV::Binding(name@, ops_view(body@)),
                StatementKind::Expression { body } => StatementKindV::Expression(ops_view(body@)),
                StatementKind::Import { mod_name } => StatementKindV::Import(mod_name@),
                StatementKind::Display { body } => StatementKindV::Display(ops_view(body@)),
                StatementKind::Struct { id, fields } => StatementKindV::Struct(id@, strings_view(fields@)),
            },
            span: self.span,
        }
    }
}

pub open spec fn statements_view(s: Seq<Statement>) -> Seq<StatementV> {
    s.map_values(|x: Statement| x@)
}

impl Statement {
    pub fn new(kind: StatementKind, span: Span) -> (r: Statement)
        ensures
            r.kind == kind,
            r.span == span,
    {
        Statement { kind, span }
    }

    pub fn expr(body: Vec<Operation>, span: Span) -> (r: Statement)
        ensures
            r@ == (StatementV { kind: StatementKindV::Expression(ops_view(body@)), span }),
    {
        Statement { kind: StatementKind::Expression { body }, span }
    }

    pub fn binding(name: String, body: Vec<Operation>, span: Span) -> (r: Statement)
        ensures
            r@ == (StatementV { kind: StatementKindV::Binding(name@, ops_view(body@)), span }),
    {
        Statement { kind: StatementKind::Binding { name, body }, span }
    }

    pub fn import(mod_name: String, span: Span) -> (r: Statement)
        ensures
            r@ == (StatementV { kind: StatementKindV::Import(mod_name@), span }),
    {
        Statement { kind: StatementKind::Import { mod_name }, span }
    }

    pub fn display(body: Vec<Operation>, span: Span) -> (r: Statement)
        ensures
            r@ == (StatementV { kind: StatementKindV::Display(ops_view(body@)), span }),
    {
        Statement { kind: StatementKind::Display { body }, span }
    }
}

impl Operation {
    pub fn value(value: Value, span: Span) -> (r: Operation)
        ensures
            r@ == (OperationV { kind: OpKindV::Value(value@), span }),
    {
        Operation { kind: OperationKind::Value { value }, span }
    }

    pub fn var(name: String, span: Span) -> (r: Operation)
        ensures
            r@ == (OperationV { kind: OpKindV::Variable(name@), span }),
    {
        Operation { kind: OperationKind::Variable { name }, span }
    }

    pub fn ap(arity: u32, span: Span) -> (r: Operation)
        ensures
            r@ == (OperationV { kind: OpKindV::Application(arity), span }),
    {
        Operation { kind: OperationKind::Application { arity }, span }
    }

    pub fn closure(params: Vec<String>, body: Vec<Operation>, span: Span) -> (r: Operation)
        ensures
            r@ == (OperationV { kind: OpKindV::Closure(strings_view(params@), ops_view(body@)), span }),
    {
        Operation { kind: OperationKind::Closure { params, body: Rc::new(body) }, span }
    }

    pub fn let_(names: Vec<String>, body: Vec<Operation>, span: Span) -> (r: Operation)
        ensures
            r@ == (OperationV { kind: OpKindV::Let(strings_view(names@), ops_view(body@)), span }),
    {
        Operation { kind: OperationKind::Let { names, body: Rc::new(body) }, span }
    }

    pub fn if_(if_block: Vec<Operation>, else_block: Vec<Operation>, span: Span) -> (r: Operation)
        ensures
            r@ == (OperationV { kind: OpKindV::If(ops_view(if_block@), ops_view(else_block@)), span }),
    {
        Operation { kind: OperationKind::If { if_block: Rc::new(if_block), else_block: Rc::new(else_block) }, span }
    }

    pub fn label(name: String) -> (r: Operation)
        ensures
            r@ == (OperationV { kind: OpKindV::Label(name@), span: Span { loc: 0, len: 0 } }),
    {
        Operation { kind: OperationKind::Label { name }, span: Span { loc: 0, len: 0 } }
    }

    pub fn and(jump_to: String, span: Span) -> (r: Operation)
        ensures
            r@ == (OperationV { kind: OpKindV::And(jump_to@), span }),
    {
        Operation { kind: OperationKind::And { jump_to }, span }
    }

    pub fn or(jump_to: String, span: Span) -> (r: Operation)
        ensures
            r@ == (OperationV { kind: OpKindV::Or(jump_to@), span }),
    {
        Operation { kind: OperationKind::Or { jump_to }, span }
    }

    pub fn cond(body: Vec<Operation>, end: String, span: Span) -> (r: Operation)
        ensures
            r@ == (OperationV { kind: OpKindV::Cond(ops_view(body@), end@), span }),
    {
        Operation { kind: OperationKind::Cond { body: Rc::new(body), end }, span }
    }

    pub fn exception(
        message: String,
        mod_name: Option<String>,
        span: Option<Span>,
        source: Option<String>,
    ) -> (r: Operation)
        ensures
            r@ == (OperationV {
                kind: OpKindV::Exception(message@, opt_string_view(mod_name), span, opt_string_view(source)),
                span: Span { loc: 0, len: 0 },
            }),
    {
        Operation {
            kind: OperationKind::Exception { message, mod_name, span, source },
            span: Span { loc: 0, len: 0 },
        }
    }
}

} // verus!

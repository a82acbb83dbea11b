//! What values mean: numeric normal forms, equality, truthiness and display.
use crate::ast::{Closure, Decimal, MatchBranch, NativeFn, OpKindV, Operation, OperationKind, OperationV, Struct, Value, ValueV, branches_view, ops_view, strings_view, values_view};
use crate::span::Span;
use crate::render::{int_text, nat_digits, push_digits, push_int};
use vstd::prelude::*;
use vstd::std_specs::iter::IteratorSpec;

verus! {

broadcast use vstd::std_specs::vec::group_vec_axioms;

pub proof fn lemma_values_view(s: Seq<Value>)
    ensures
        values_view(s).len() == s.len(),
        forall|k: int| 0 <= k < s.len() ==> #[trigger] values_view(s)[k] == s[k]@,
    decreases s.len(),
{
    if s.len() > 0 {
        lemma_values_view(s.drop_last());
    }
}

/// One step of the view of a value.
pub proof fn lemma_value_view_step(v: Value)
    ensures
        v@ == match v {
            Value::Boolean(b) => ValueV::Boolean(b),
            Value::Integer(i) => ValueV::Integer(i),
            Value::Float(d) => ValueV::Float(d),
            Value::String(s) => ValueV::String(s@),
            Value::Char(c) => ValueV::Char(c),
            Value::List(xs) => ValueV::List(values_view(xs@)),
            Value::Vector(xs) => ValueV::Vector(values_view(xs@)),
            Value::Symbol(s) => ValueV::Symbol(s@),
            Value::Null => ValueV::Null,
            Value::Void => ValueV::Void,
            _ => v@,
        },
{
}

// ---------------------------------------------------------------------------
// Decimals
// ---------------------------------------------------------------------------

/// The same number with trailing zeros of the mantissa removed.
pub open spec fn norm(d: Decimal) -> Decimal
    decreases d.scale,
{
    if d.scale > 0 && (d.mantissa as int) % 10 == 0 {
        norm(Decimal { mantissa: (d.mantissa as int / 10) as i64, scale: (d.scale - 1) as u32 })
    } else {
        d
    }
}

impl Decimal {
    pub fn normalize(&self) -> (r: Decimal)
        ensures
            r == norm(*self),
    {
        let mut m = self.mantissa;
        let mut s = self.scale;
        while s > 0 && m % 10 == 0
            invariant
                norm(Decimal { mantissa: m, scale: s }) == norm(*self),
            decreases s,
        {
            m = m / 10;
            s = s - 1;
        }
        Decimal { mantissa: m, scale: s }
    }
}

// ---------------------------------------------------------------------------
// Equality
// ---------------------------------------------------------------------------

/// Equality of operations: the same instruction at the same span, with
/// literal values compared as values are.
pub open spec fn op_eq(a: OperationV, b: OperationV) -> bool
    decreases a,
{
    a.span == b.span && match (a.kind, b.kind) {
        (OpKindV::Value(x), OpKindV::Value(y)) => value_eq(x, y),
        (OpKindV::Closure(p1, b1), OpKindV::Closure(p2, b2)) => p1 == p2 && b1.len() == b2.len()
            && forall|i: int| 0 <= i < b1.len() ==> op_eq(#[trigger] b1[i], b2[i]),
        (OpKindV::If(t1, e1), OpKindV::If(t2, e2)) => t1.len() == t2.len() && e1.len() == e2.len()
            && (forall|i: int| 0 <= i < t1.len() ==> op_eq(#[trigger] t1[i], t2[i]))
            && (forall|i: int| 0 <= i < e1.len() ==> op_eq(#[trigger] e1[i], e2[i])),
        (OpKindV::Let(n1, b1), OpKindV::Let(n2, b2)) => n1 == n2 && b1.len() == b2.len()
            && forall|i: int| 0 <= i < b1.len() ==> op_eq(#[trigger] b1[i], b2[i]),
        (OpKindV::Cond(b1, l1), OpKindV::Cond(b2, l2)) => l1 == l2 && b1.len() == b2.len()
            && forall|i: int| 0 <= i < b1.len() ==> op_eq(#[trigger] b1[i], b2[i]),
        (OpKindV::Match(m1), OpKindV::Match(m2)) => m1.len() == m2.len() && forall|i: int|
            0 <= i < m1.len() ==> value_eq(#[trigger] m1[i].0, m2[i].0) && m1[i].1.len() == m2[i].1.len()
                && forall|j: int| 0 <= j < m1[i].1.len() ==> op_eq(#[trigger] m1[i].1[j], m2[i].1[j]),
        (k1, k2) => k1 == k2 && !(k1 is Value) && !(k1 is Closure) && !(k1 is If) && !(k1 is Let)
            && !(k1 is Cond) && !(k1 is Match),
    }
}

/// Equality of values: structural, except that an integer equals a float of
/// the same number and the empty list equals `null`. Closures are equal when
/// their parameters and bodies are, native functions when they are the same.
pub open spec fn value_eq(a: ValueV, b: ValueV) -> bool
    decreases a,
{
    match (a, b) {
        (ValueV::Boolean(x), ValueV::Boolean(y)) => x == y,
        (ValueV::Integer(x), ValueV::Integer(y)) => x == y,
        (ValueV::Integer(x), ValueV::Float(d)) => norm(d) == Decimal { mantissa: x, scale: 0 },
        (ValueV::Float(d), ValueV::Integer(x)) => norm(d) == Decimal { mantissa: x, scale: 0 },
        (ValueV::Float(d), ValueV::Float(e)) => norm(d) == norm(e),
        (ValueV::String(x), ValueV::String(y)) => x == y,
        (ValueV::Char(x), ValueV::Char(y)) => x == y,
        (ValueV::Symbol(x), ValueV::Symbol(y)) => x == y,
        (ValueV::Pair(x1, y1), ValueV::Pair(x2, y2)) => value_eq(*x1, *x2) && value_eq(*y1, *y2),
        (ValueV::List(xs), ValueV::List(ys)) => xs.len() == ys.len() && forall|i: int|
            0 <= i < xs.len() ==> value_eq(#[trigger] xs[i], ys[i]),
        (ValueV::Vector(xs), ValueV::Vector(ys)) => xs.len() == ys.len() && forall|i: int|
            0 <= i < xs.len() ==> value_eq(#[trigger] xs[i], ys[i]),
        (ValueV::Struct(k1, _, xs), ValueV::Struct(k2, _, ys)) => k1 == k2 && xs.len() == ys.len()
            && forall|i: int| 0 <= i < xs.len() ==> value_eq(#[trigger] xs[i], ys[i]),
        (ValueV::Closure(p1, b1, _), ValueV::Closure(p2, b2, _)) => p1 == p2 && b1.len() == b2.len()
            && forall|i: int| 0 <= i < b1.len() ==> op_eq(#[trigger] b1[i], b2[i]),
        (ValueV::Function(f), ValueV::Function(g)) => f == g,
        (ValueV::Foreign(x), ValueV::Foreign(y)) => x == y,
        (ValueV::Null, ValueV::Null) => true,
        (ValueV::List(xs), ValueV::Null) => xs.len() == 0,
        (ValueV::Null, ValueV::List(ys)) => ys.len() == 0,
        (ValueV::Void, ValueV::Void) => true,
        _ => false,
    }
}


/// Copies a list of strings.
pub fn dup_strings(v: &Vec<String>) -> (r: Vec<String>)
    ensures
        strings_view(r@) == strings_view(v@),
        r@.len() == v@.len(),
{
    let mut out: Vec<String> = Vec::new();
    let mut i: usize = 0;
    while i < v.len()
        invariant
            i <= v@.len(),
            out@.len() == i,
            forall|k: int| 0 <= k < i ==> out@[k]@ == v@[k]@,
        decreases v@.len() - i,
    {
        out.push(v[i].clone());
        i = i + 1;
    }
    assert(strings_view(out@) =~= strings_view(v@));
    out
}

impl NativeFn {
    pub fn duplicate(&self) -> (r: NativeFn)
        ensures
            r@ == self@,
    {
        match self {
            NativeFn::Builtin(b) => NativeFn::Builtin(*b),
            NativeFn::StructPredicate { kind } => NativeFn::StructPredicate { kind: kind.clone() },
            NativeFn::StructConstructor { kind, fields } => NativeFn::StructConstructor {
                kind: kind.clone(),
                fields: dup_strings(fields),
            },
            NativeFn::StructAccessor { kind, index } => NativeFn::StructAccessor {
                kind: kind.clone(),
                index: *index,
            },
        }
    }
}

/// Copies a list of values.
pub fn dup_values(v: &Vec<Value>) -> (r: Vec<Value>)
    ensures
        values_view(r@) == values_view(v@),
    decreases *v, 0nat,
{
    let mut out: Vec<Value> = Vec::new();
    let mut i: usize = 0;
    while i < v.len()
        invariant
            i <= v@.len(),
            out@.len() == i,
            forall|k: int| 0 <= k < i ==> out@[k]@ == v@[k]@,
        decreases v@.len() - i,
    {
        proof {
            vstd::std_specs::vec::axiom_vec_index_decreases(*v, i as int);
        }
        out.push(v[i].duplicate());
        i = i + 1;
    }
    proof {
        lemma_values_view(out@);
        lemma_values_view(v@);
        assert(values_view(out@) =~= values_view(v@));
    }
    out
}

impl Value {
    /// A copy of this value.
    pub fn duplicate(&self) -> (r: Value)
        ensures
            r@ == self@,
        decreases *self, 1nat,
    {
        match self {
            Value::Boolean(b) => Value::Boolean(*b),
            Value::Integer(i) => Value::Integer(*i),
            Value::Float(d) => Value::Float(*d),
            Value::String(s) => Value::String(s.clone()),
            Value::Char(c) => Value::Char(*c),
            Value::Pair(a, b) => Value::Pair(Box::new(a.duplicate()), Box::new(b.duplicate())),
            Value::List(xs) => {
                proof {
                    assert(decreases_to!(*self => self->List_0));
                }
                Value::List(dup_values(xs))
            },
            Value::Vector(xs) => {
                proof {
                    assert(decreases_to!(*self => self->Vector_0));
                }
                Value::Vector(dup_values(xs))
            },
            Value::Symbol(s) => Value::Symbol(s.clone()),
            Value::Closure(c) => Value::Closure(
                Closure { params: dup_strings(&c.params), body: c.body.clone(), env: c.env.clone() },
            ),
            Value::Struct(st) => {
                proof {
                    assert(decreases_to!(*self => self->Struct_0));
                    assert(decreases_to!(self->Struct_0 => self->Struct_0.values));
                }
                Value::Struct(
                    Struct {
                        kind: st.kind.clone(),
                        fields: dup_strings(&st.fields),
                        values: dup_values(&st.values),
                    },
                )
            },
            Value::Function(f) => Value::Function(f.duplicate()),
            Value::Foreign(h) => Value::Foreign(*h),
            Value::Null => Value::Null,
            Value::Void => Value::Void,
        }
    }

    /// Only `#f`, `null` and `void` are false.
    pub open spec fn is_truthy(v: ValueV) -> bool {
        match v {
            ValueV::Boolean(b) => b,
            ValueV::Null => false,
            ValueV::Void => false,
            _ => true,
        }
    }

    pub fn truthy(&self) -> (r: bool)
        ensures
            r == Value::is_truthy(self@),
    {
        match self {
            Value::Boolean(b) => *b,
            Value::Null => false,
            Value::Void => false,
            _ => true,
        }
    }

    /// Equality of values as the language defines it.
    pub fn equals(&self, other: &Value) -> (r: bool)
        ensures
            r == value_eq(self@, other@),
        decreases *self, 1nat,
    {
        match (self, other) {
            (Value::Boolean(x), Value::Boolean(y)) => *x == *y,
            (Value::Integer(x), Value::Integer(y)) => *x == *y,
            (Value::Integer(x), Value::Float(d)) => {
                let n = d.normalize();
                n.scale == 0 && n.mantissa == *x
            },
            (Value::Float(d), Value::Integer(x)) => {
                let n = d.normalize();
                n.scale == 0 && n.mantissa == *x
            },
            (Value::Float(d), Value::Float(e)) => {
                let n = d.normalize();
                let m = e.normalize();
                n.scale == m.scale && n.mantissa == m.mantissa
            },
            (Value::String(x), Value::String(y)) => *x == *y,
            (Value::Char(x), Value::Char(y)) => *x == *y,
            (Value::Symbol(x), Value::Symbol(y)) => *x == *y,
            (Value::Pair(x1, y1), Value::Pair(x2, y2)) => x1.equals(x2) && y1.equals(y2),
            (Value::List(xs), Value::List(ys)) => {
                proof {
                    assert(decreases_to!(*self => self->List_0));
                }
                equal_lists(xs, ys)
            },
            (Value::Vector(xs), Value::Vector(ys)) => {
                proof {
                    assert(decreases_to!(*self => self->Vector_0));
                }
                equal_lists(xs, ys)
            },
            (Value::Struct(a), Value::Struct(b)) => {
                proof {
                    assert(decreases_to!(*self => self->Struct_0));
                    assert(decreases_to!(self->Struct_0 => self->Struct_0.values));
                }
                a.kind == b.kind && equal_lists(&a.values, &b.values)
            },
            (Value::Closure(a), Value::Closure(b)) => {
                proof {
                    assert(decreases_to!(*self => self->Closure_0));
                    assert(decreases_to!(self->Closure_0 => self->Closure_0.body));
                }
                equal_strings(&a.params, &b.params) && equal_ops(&a.body, &b.body)
            },
            (Value::Function(f), Value::Function(g)) => f.same(g),
            (Value::Foreign(x), Value::Foreign(y)) => *x == *y,
            (Value::Null, Value::Null) => true,
            (Value::List(xs), Value::Null) => {
                proof {
                    lemma_values_view(xs@);
                }
                xs.len() == 0
            },
            (Value::Null, Value::List(ys)) => {
                proof {
                    lemma_values_view(ys@);
                }
                ys.len() == 0
            },
            (Value::Void, Value::Void) => true,
            _ => false,
        }
    }
}

fn equal_strings(a: &Vec<String>, b: &Vec<String>) -> (r: bool)
    ensures
        r == (strings_view(a@) == strings_view(b@)),
{
    if a.len() != b.len() {
        proof {
            assert(strings_view(a@).len() != strings_view(b@).len());
        }
        return false;
    }
    let mut i: usize = 0;
    while i < a.len()
        invariant
            i <= a@.len() == b@.len(),
            forall|k: int| 0 <= k < i ==> a@[k]@ == b@[k]@,
        decreases a@.len() - i,
    {
        if a[i] != b[i] {
            proof {
                assert(strings_view(a@)[i as int] != strings_view(b@)[i as int]);
            }
            return false;
        }
        i = i + 1;
    }
    assert(strings_view(a@) =~= strings_view(b@));
    true
}

impl NativeFn {
    /// Whether two native functions are the same function.
    pub fn same(&self, other: &NativeFn) -> (r: bool)
        ensures
            r == (self@ == other@),
    {
        match (self, other) {
            (NativeFn::Builtin(a), NativeFn::Builtin(b)) => *a == *b,
            (NativeFn::StructPredicate { kind: a }, NativeFn::StructPredicate { kind: b }) => *a == *b,
            (
                NativeFn::StructConstructor { kind: a, fields: fa },
                NativeFn::StructConstructor { kind: b, fields: fb },
            ) => *a == *b && equal_strings(fa, fb),
            (
                NativeFn::StructAccessor { kind: a, index: ia },
                NativeFn::StructAccessor { kind: b, index: ib },
            ) => *a == *b && *ia == *ib,
            _ => false,
        }
    }
}

proof fn lemma_ops_view(s: Seq<Operation>)
    ensures
        ops_view(s).len() == s.len(),
        forall|k: int| 0 <= k < s.len() ==> #[trigger] ops_view(s)[k] == s[k]@,
    decreases s.len(),
{
    if s.len() > 0 {
        lemma_ops_view(s.drop_last());
    }
}

proof fn lemma_branches_view(s: Seq<MatchBranch>)
    ensures
        branches_view(s).len() == s.len(),
        forall|k: int| 0 <= k < s.len() ==> #[trigger] branches_view(s)[k] == (s[k].pattern@, ops_view(s[k].body@)),
    decreases s.len(),
{
    if s.len() > 0 {
        lemma_branches_view(s.drop_last());
    }
}

/// Element-wise equality of two blocks.
fn equal_ops(xs: &Vec<Operation>, ys: &Vec<Operation>) -> (r: bool)
    ensures
        r == {
            let a = ops_view(xs@);
            let b = ops_view(ys@);
            a.len() == b.len() && forall|i: int| 0 <= i < a.len() ==> op_eq(#[trigger] a[i], b[i])
        },
    decreases *xs, 0nat,
{
    proof {
        lemma_ops_view(xs@);
        lemma_ops_view(ys@);
    }
    if xs.len() != ys.len() {
        return false;
    }
    let mut i: usize = 0;
    while i < xs.len()
        invariant
            i <= xs@.len() == ys@.len(),
            ops_view(xs@).len() == xs@.len(),
            ops_view(ys@).len() == ys@.len(),
            forall|k: int| 0 <= k < xs@.len() ==> #[trigger] ops_view(xs@)[k] == xs@[k]@,
            forall|k: int| 0 <= k < ys@.len() ==> #[trigger] ops_view(ys@)[k] == ys@[k]@,
            forall|k: int| 0 <= k < i ==> op_eq(#[trigger] ops_view(xs@)[k], ops_view(ys@)[k]),
        decreases xs@.len() - i,
    {
        proof {
            vstd::std_specs::vec::axiom_vec_index_decreases(*xs, i as int);
        }
        if !op_equal(&xs[i], &ys[i]) {
            assert(ops_view(xs@)[i as int] == xs@[i as int]@);
            assert(ops_view(ys@)[i as int] == ys@[i as int]@);
            return false;
        }
        i = i + 1;
    }
    true
}

fn equal_opt_strings(a: &Option<String>, b: &Option<String>) -> (r: bool)
    ensures
        r == (crate::ast::opt_string_view(*a) == crate::ast::opt_string_view(*b)),
{
    match (a, b) {
        (Some(x), Some(y)) => *x == *y,
        (None, None) => true,
        _ => false,
    }
}

proof fn lemma_op_view(o: Operation)
    ensures
        o@.span == o.span,
        o@.kind == match o.kind {
            OperationKind::Variable { name } => OpKindV::Variable(name@),
            OperationKind::Value { value } => OpKindV::Value(value@),
            OperationKind::Closure { params, body } => OpKindV::Closure(strings_view(params@), ops_view(body@)),
            OperationKind::Application { arity } => OpKindV::Application(arity),
            OperationKind::If { if_block, else_block } => OpKindV::If(ops_view(if_block@), ops_view(else_block@)),
            OperationKind::Let { names, body } => OpKindV::Let(strings_view(names@), ops_view(body@)),
            OperationKind::Sequence { subexpr_count } => OpKindV::Sequence(subexpr_count),
            OperationKind::Match { branches } => OpKindV::Match(branches_view(branches@)),
            OperationKind::And { jump_to } => OpKindV::And(jump_to@),
            OperationKind::Or { jump_to } => OpKindV::Or(jump_to@),
            OperationKind::Cond { body, end } => OpKindV::Cond(ops_view(body@), end@),
            OperationKind::Label { name } => OpKindV::Label(name@),
            OperationKind::Exception { message, mod_name, span, source } => OpKindV::Exception(
                message@,
                crate::ast::opt_string_view(mod_name),
                span,
                crate::ast::opt_string_view(source),
            ),
        },
{
}

/// Equality of two operations.
fn op_equal(a: &Operation, b: &Operation) -> (r: bool)
    ensures
        r == op_eq(a@, b@),
    decreases *a, 1nat,
{
    proof {
        lemma_op_view(*a);
        lemma_op_view(*b);
    }
    if a.span != b.span {
        return false;
    }
    proof {
        assert(decreases_to!(*a => a.kind));
    }
    match (&a.kind, &b.kind) {
        (OperationKind::Variable { name: x }, OperationKind::Variable { name: y }) => *x == *y,
        (OperationKind::Value { value: x }, OperationKind::Value { value: y }) => x.equals(y),
        (OperationKind::Closure { params: p1, body: b1 }, OperationKind::Closure { params: p2, body: b2 }) => {
            equal_strings(p1, p2) && equal_ops(b1, b2)
        },
        (OperationKind::Application { arity: x }, OperationKind::Application { arity: y }) => *x == *y,
        (OperationKind::If { if_block: t1, else_block: e1 }, OperationKind::If { if_block: t2, else_block: e2 }) => {
            equal_ops(t1, t2) && equal_ops(e1, e2)
        },
        (OperationKind::Let { names: n1, body: b1 }, OperationKind::Let { names: n2, body: b2 }) => {
            equal_strings(n1, n2) && equal_ops(b1, b2)
        },
        (OperationKind::Sequence { subexpr_count: x }, OperationKind::Sequence { subexpr_count: y }) => *x == *y,
        (OperationKind::Match { branches: m1 }, OperationKind::Match { branches: m2 }) => equal_branches(m1, m2),
        (OperationKind::And { jump_to: x }, OperationKind::And { jump_to: y }) => *x == *y,
        (OperationKind::Or { jump_to: x }, OperationKind::Or { jump_to: y }) => *x == *y,
        (OperationKind::Cond { body: b1, end: l1 }, OperationKind::Cond { body: b2, end: l2 }) => {
            *l1 == *l2 && equal_ops(b1, b2)
        },
        (OperationKind::Label { name: x }, OperationKind::Label { name: y }) => *x == *y,
        (
            OperationKind::Exception { message: m1, mod_name: d1, span: s1, source: r1 },
            OperationKind::Exception { message: m2, mod_name: d2, span: s2, source: r2 },
        ) => *m1 == *m2 && equal_opt_strings(d1, d2) && *s1 == *s2 && equal_opt_strings(r1, r2),
        _ => false,
    }
}

fn equal_branches(m1: &Vec<MatchBranch>, m2: &Vec<MatchBranch>) -> (r: bool)
    ensures
        r == {
            let a = branches_view(m1@);
            let b = branches_view(m2@);
            a.len() == b.len() && forall|i: int|
                0 <= i < a.len() ==> value_eq(#[trigger] a[i].0, b[i].0) && a[i].1.len() == b[i].1.len()
                    && forall|j: int| 0 <= j < a[i].1.len() ==> op_eq(#[trigger] a[i].1[j], b[i].1[j])
        },
    decreases *m1, 0nat,
{
    proof {
        lemma_branches_view(m1@);
        lemma_branches_view(m2@);
    }
    if m1.len() != m2.len() {
        return false;
    }
    let ghost a = branches_view(m1@);
    let ghost b = branches_view(m2@);
    let mut i: usize = 0;
    while i < m1.len()
        invariant
            i <= m1@.len() == m2@.len(),
            a == branches_view(m1@),
            b == branches_view(m2@),
            a.len() == m1@.len(),
            b.len() == m2@.len(),
            forall|k: int| 0 <= k < m1@.len() ==> #[trigger] a[k] == (m1@[k].pattern@, ops_view(m1@[k].body@)),
            forall|k: int| 0 <= k < m2@.len() ==> #[trigger] b[k] == (m2@[k].pattern@, ops_view(m2@[k].body@)),
            forall|k: int|
                0 <= k < i ==> value_eq(#[trigger] a[k].0, b[k].0) && a[k].1.len() == b[k].1.len()
                    && forall|j: int| 0 <= j < a[k].1.len() ==> op_eq(#[trigger] a[k].1[j], b[k].1[j]),
        decreases m1@.len() - i,
    {
        proof {
            vstd::std_specs::vec::axiom_vec_index_decreases(*m1, i as int);
            assert(decreases_to!(m1@[i as int] => m1@[i as int].pattern));
            assert(decreases_to!(m1@[i as int] => m1@[i as int].body));
        }
        assert(a[i as int] == (m1@[i as int].pattern@, ops_view(m1@[i as int].body@)));
        assert(b[i as int] == (m2@[i as int].pattern@, ops_view(m2@[i as int].body@)));
        if !m1[i].pattern.equals(&m2[i].pattern) {
            assert(!value_eq(a[i as int].0, b[i as int].0));
            return false;
        }
        assert(value_eq(a[i as int].0, b[i as int].0));
        let same_body = equal_ops(&m1[i].body, &m2[i].body);
        if !same_body {
            assert(!(a[i as int].1.len() == b[i as int].1.len() && forall|j: int|
                0 <= j < a[i as int].1.len() ==> op_eq(#[trigger] a[i as int].1[j], b[i as int].1[j])));
            return false;
        }
        assert(a[i as int].1.len() == b[i as int].1.len() && forall|j: int|
            0 <= j < a[i as int].1.len() ==> op_eq(#[trigger] a[i as int].1[j], b[i as int].1[j]));
        assert forall|k: int| 0 <= k < i + 1 implies value_eq(#[trigger] a[k].0, b[k].0) && a[k].1.len() == b[k].1.len()
            && forall|j: int| 0 <= j < a[k].1.len() ==> op_eq(#[trigger] a[k].1[j], b[k].1[j]) by {
            if k == i {
                assert(value_eq(a[i as int].0, b[i as int].0));
            }
        }
        i = i + 1;
    }
    true
}

/// Element-wise equality of two lists of values.
fn equal_lists(xs: &Vec<Value>, ys: &Vec<Value>) -> (r: bool)
    ensures
        r == {
            let a = values_view(xs@);
            let b = values_view(ys@);
            a.len() == b.len() && forall|i: int| 0 <= i < a.len() ==> value_eq(#[trigger] a[i], b[i])
        },
    decreases *xs, 0nat,
{
    proof {
        lemma_values_view(xs@);
        lemma_values_view(ys@);
    }
    if xs.len() != ys.len() {
        return false;
    }
    let mut i: usize = 0;
    while i < xs.len()
        invariant
            i <= xs@.len() == ys@.len(),
            values_view(xs@).len() == xs@.len(),
            values_view(ys@).len() == ys@.len(),
            forall|k: int| 0 <= k < xs@.len() ==> #[trigger] values_view(xs@)[k] == xs@[k]@,
            forall|k: int| 0 <= k < ys@.len() ==> #[trigger] values_view(ys@)[k] == ys@[k]@,
            forall|k: int| 0 <= k < i ==> value_eq(#[trigger] values_view(xs@)[k], values_view(ys@)[k]),
        decreases xs@.len() - i,
    {
        proof {
            vstd::std_specs::vec::axiom_vec_index_decreases(*xs, i as int);
        }
        if !xs[i].equals(&ys[i]) {
            assert(values_view(xs@)[i as int] == xs@[i as int]@);
            assert(values_view(ys@)[i as int] == ys@[i as int]@);
            return false;
        }
        i = i + 1;
    }
    true
}


// ---------------------------------------------------------------------------
// Display
// ---------------------------------------------------------------------------

/// `n` zero characters.
pub open spec fn zeros(n: nat) -> Seq<char> {
    Seq::new(n, |i: int| '0')
}

/// The text of a decimal in normal form: digits with a point before the
/// last `scale` of them, or an integer when the scale is zero.
pub open spec fn decimal_text(d: Decimal) -> Seq<char> {
    if d.scale == 0 {
        int_text(d.mantissa as int)
    } else {
        let a: nat = if d.mantissa < 0 { (-d.mantissa) as nat } else { d.mantissa as nat };
        let ds = nat_digits(a);
        let sign: Seq<char> = if d.mantissa < 0 { seq!['-'] } else { seq![] };
        if ds.len() > d.scale {
            let k = ds.len() - d.scale;
            sign + ds.take(k) + seq!['.'] + ds.skip(k)
        } else {
            sign + seq!['0', '.'] + zeros((d.scale - ds.len()) as nat) + ds
        }
    }
}

/// How a value is shown: in the surface syntax where it has one.
pub open spec fn display(v: ValueV) -> Seq<char>
    decreases v,
{
    match v {
        ValueV::Boolean(b) => if b {
            seq!['#', 't']
        } else {
            seq!['#', 'f']
        },
        ValueV::Integer(i) => int_text(i as int),
        ValueV::Float(d) => decimal_text(norm(d)),
        ValueV::String(s) => seq!['"'] + s + seq!['"'],
        ValueV::Char(c) => seq!['#', '\\', c],
        ValueV::Pair(a, b) => "(pair "@ + display(*a) + " "@ + display(*b) + ")"@,
        ValueV::List(xs) => "(list"@ + display_items(xs) + ")"@,
        ValueV::Vector(xs) => "(vector"@ + display_items(xs) + ")"@,
        ValueV::Symbol(s) => s,
        ValueV::Closure(params, _, _) => "(lambda ("@ + join_words(params) + ") <body>)"@,
        ValueV::Struct(kind, _, xs) => "("@ + kind + display_items(xs) + ")"@,
        ValueV::Function(_) => "<function>"@,
        ValueV::Foreign(_) => "<foreign>"@,
        ValueV::Null => "null"@,
        ValueV::Void => "void"@,
    }
}

/// Each item shown after a space.
pub open spec fn display_items(xs: Seq<ValueV>) -> Seq<char>
    decreases xs,
{
    if xs.len() == 0 {
        Seq::empty()
    } else {
        display_items(xs.take(xs.len() - 1)) + " "@ + display(xs[xs.len() - 1])
    }
}

/// Words separated by single spaces.
pub open spec fn join_words(ws: Seq<Seq<char>>) -> Seq<char>
    decreases ws.len(),
{
    if ws.len() == 0 {
        Seq::empty()
    } else if ws.len() == 1 {
        ws[0]
    } else {
        join_words(ws.take(ws.len() - 1)) + " "@ + ws[ws.len() - 1]
    }
}

/// The decimal digits of `n` as characters.
fn digit_vec(n: u64) -> (r: Vec<char>)
    ensures
        r@ == nat_digits(n as nat),
{
    let mut s = String::new();
    push_digits(&mut s, n);
    let mut out: Vec<char> = Vec::new();
    for c in it: s.as_str().chars()
        invariant
            it.seq() == s@,
            out@ == s@.take(it.index() as int),
    {
        out.push(c);
    }
    assert(out@ =~= s@);
    assert(Seq::<char>::empty() + nat_digits(n as nat) =~= nat_digits(n as nat));
    out
}

fn push_chars(s: &mut String, cs: &Vec<char>, from: usize, to: usize)
    requires
        from <= to <= cs@.len(),
    ensures
        final(s)@ == old(s)@ + cs@.subrange(from as int, to as int),
{
    let mut i = from;
    while i < to
        invariant
            from <= i <= to <= cs@.len(),
            s@ == old(s)@ + cs@.subrange(from as int, i as int),
        decreases to - i,
    {
        s.push(cs[i]);
        i = i + 1;
        assert(s@ =~= old(s)@ + cs@.subrange(from as int, i as int));
    }
}

/// Appends the text of a decimal in normal form.
fn push_decimal(s: &mut String, d: Decimal)
    ensures
        final(s)@ == old(s)@ + decimal_text(d),
{
    if d.scale == 0 {
        push_int(s, d.mantissa);
        return;
    }
    let a: u64 = if d.mantissa < 0 { (0 - (d.mantissa as i128)) as u64 } else { d.mantissa as u64 };
    let ds = digit_vec(a);
    let ghost sign: Seq<char> = if d.mantissa < 0 { seq!['-'] } else { seq![] };
    if d.mantissa < 0 {
        s.push('-');
    }
    assert(s@ == old(s)@ + sign);
    if ds.len() > d.scale as usize {
        let k = ds.len() - d.scale as usize;
        push_chars(s, &ds, 0, k);
        s.push('.');
        push_chars(s, &ds, k, ds.len());
        assert(ds@.subrange(0, k as int) =~= ds@.take(k as int));
        assert(ds@.subrange(k as int, ds@.len() as int) =~= ds@.skip(k as int));
        assert(s@ =~= old(s)@ + decimal_text(d));
    } else {
        s.push('0');
        s.push('.');
        let ghost before = s@;
        let mut z: u32 = d.scale - ds.len() as u32;
        while z > 0
            invariant
                z <= d.scale - ds@.len(),
                s@ == before + zeros((d.scale - ds@.len() - z) as nat),
            decreases z,
        {
            s.push('0');
            z = z - 1;
            assert(s@ =~= before + zeros((d.scale - ds@.len() - z) as nat));
        }
        push_chars(s, &ds, 0, ds.len());
        assert(ds@.subrange(0, ds@.len() as int) =~= ds@);
        assert(s@ =~= old(s)@ + decimal_text(d));
    }
}

fn push_words(s: &mut String, ws: &Vec<String>)
    ensures
        final(s)@ == old(s)@ + join_words(strings_view(ws@)),
{
    let ghost v = strings_view(ws@);
    let mut i: usize = 0;
    while i < ws.len()
        invariant
            i <= ws@.len(),
            v == strings_view(ws@),
            s@ == old(s)@ + join_words(v.take(i as int)),
        decreases ws@.len() - i,
    {
        if i > 0 {
            s.push_str(" ");
        }
        s.push_str(ws[i].as_str());
        proof {
            let t = v.take(i + 1);
            assert(t.take(i as int) =~= v.take(i as int));
            if i == 0 {
                assert(join_words(v.take(0)) =~= Seq::<char>::empty());
                assert(s@ =~= old(s)@ + join_words(t));
            } else {
                assert(s@ =~= old(s)@ + join_words(t));
            }
        }
        i = i + 1;
    }
    assert(v.take(ws@.len() as int) =~= v);
}

/// Appends `display(v@)`.
pub fn push_display(s: &mut String, v: &Value)
    ensures
        final(s)@ == old(s)@ + display(v@),
    decreases *v, 1nat,
{
    match v {
        Value::Boolean(b) => {
            if *b {
                s.push('#');
                s.push('t');
            } else {
                s.push('#');
                s.push('f');
            }
            assert(s@ =~= old(s)@ + display(v@));
        },
        Value::Integer(i) => push_int(s, *i),
        Value::Float(d) => push_decimal(s, d.normalize()),
        Value::String(t) => {
            s.push('"');
            s.push_str(t.as_str());
            s.push('"');
            assert(s@ =~= old(s)@ + display(v@));
        },
        Value::Char(c) => {
            s.push('#');
            s.push('\\');
            s.push(*c);
            assert(s@ =~= old(s)@ + display(v@));
        },
        Value::Pair(a, b) => {
            s.push_str("(pair ");
            push_display(s, a);
            s.push_str(" ");
            push_display(s, b);
            s.push_str(")");
            assert(s@ =~= old(s)@ + display(v@));
        },
        Value::List(xs) => {
            proof {
                assert(decreases_to!(*v => v->List_0));
            }
            s.push_str("(list");
            push_items(s, xs);
            s.push_str(")");
            assert(s@ =~= old(s)@ + display(v@));
        },
        Value::Vector(xs) => {
            proof {
                assert(decreases_to!(*v => v->Vector_0));
            }
            s.push_str("(vector");
            push_items(s, xs);
            s.push_str(")");
            assert(s@ =~= old(s)@ + display(v@));
        },
        Value::Symbol(t) => s.push_str(t.as_str()),
        Value::Closure(c) => {
            s.push_str("(lambda (");
            push_words(s, &c.params);
            s.push_str(") <body>)");
            assert(s@ =~= old(s)@ + display(v@));
        },
        Value::Struct(st) => {
            proof {
                assert(decreases_to!(*v => v->Struct_0));
                assert(decreases_to!(v->Struct_0 => v->Struct_0.values));
            }
            s.push_str("(");
            s.push_str(st.kind.as_str());
            push_items(s, &st.values);
            s.push_str(")");
            assert(s@ =~= old(s)@ + display(v@));
        },
        Value::Function(_) => s.push_str("<function>"),
        Value::Foreign(_) => s.push_str("<foreign>"),
        Value::Null => s.push_str("null"),
        Value::Void => s.push_str("void"),
    }
}

fn push_items(s: &mut String, xs: &Vec<Value>)
    ensures
        final(s)@ == old(s)@ + display_items(values_view(xs@)),
    decreases *xs, 0nat,
{
    let ghost v = values_view(xs@);
    proof {
        lemma_values_view(xs@);
    }
    let mut i: usize = 0;
    while i < xs.len()
        invariant
            i <= xs@.len(),
            v == values_view(xs@),
            v.len() == xs@.len(),
            forall|k: int| 0 <= k < xs@.len() ==> #[trigger] v[k] == xs@[k]@,
            s@ == old(s)@ + display_items(v.take(i as int)),
        decreases xs@.len() - i,
    {
        proof {
            vstd::std_specs::vec::axiom_vec_index_decreases(*xs, i as int);
        }
        s.push_str(" ");
        push_display(s, &xs[i]);
        proof {
            let t = v.take(i + 1);
            assert(t.take(i as int) =~= v.take(i as int));
            assert(t[i as int] == v[i as int]);
            assert(s@ =~= old(s)@ + display_items(t));
        }
        i = i + 1;
    }
    assert(v.take(xs@.len() as int) =~= v);
}

impl Value {
    /// The value as the language shows it.
    pub fn to_display_string(&self) -> (r: String)
        ensures
            r@ == display(self@),
    {
        let mut s = String::new();
        push_display(&mut s, self);
        assert(s@ =~= display(self@));
        s
    }
}

} // verus!

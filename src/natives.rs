//! The native functions the evaluator calls: a small arithmetic prelude and
//! the functions that a `struct` statement defines.
use crate::ast::{Builtin, NativeFn, NativeFnV, Struct, Value, ValueV, values_view};
use crate::render::{int_text, push_digits};
use crate::value::{dup_strings, lemma_values_view, value_eq};
use vstd::prelude::*;

verus! {

broadcast use vstd::std_specs::vec::group_vec_axioms;

pub open spec fn in_i64(x: int) -> bool {
    i64::MIN <= x <= i64::MAX
}

pub open spec fn all_integers(args: Seq<ValueV>) -> bool {
    forall|i: int| 0 <= i < args.len() ==> (#[trigger] args[i]) is Integer
}

pub open spec fn int_of(v: ValueV) -> int {
    match v {
        ValueV::Integer(i) => i as int,
        _ => 0,
    }
}

/// The sum of the first `n` arguments, added from the left; `None` where a
/// partial sum leaves the 64-bit range.
pub open spec fn checked_sum(args: Seq<ValueV>, n: int) -> Option<int>
    decreases n,
{
    if n <= 0 {
        Some(0)
    } else {
        match checked_sum(args, n - 1) {
            Some(s) => if in_i64(s + int_of(args[n - 1])) {
                Some(s + int_of(args[n - 1]))
            } else {
                None
            },
            None => None,
        }
    }
}

/// The product of the first `n` arguments, multiplied from the left; `None`
/// where a partial product leaves the 64-bit range.
pub open spec fn checked_product(args: Seq<ValueV>, n: int) -> Option<int>
    decreases n,
{
    if n <= 0 {
        Some(1)
    } else {
        match checked_product(args, n - 1) {
            Some(s) => if in_i64(s * int_of(args[n - 1])) {
                Some(s * int_of(args[n - 1]))
            } else {
                None
            },
            None => None,
        }
    }
}

/// The first argument minus the next `n - 1`, from the left; `None` where a
/// partial difference leaves the 64-bit range.
pub open spec fn checked_difference(args: Seq<ValueV>, n: int) -> Option<int>
    decreases n,
{
    if n <= 1 {
        Some(int_of(args[0]))
    } else {
        match checked_difference(args, n - 1) {
            Some(s) => if in_i64(s - int_of(args[n - 1])) {
                Some(s - int_of(args[n - 1]))
            } else {
                None
            },
            None => None,
        }
    }
}

pub open spec fn count_message(expected: int, found: int) -> Seq<char> {
    if expected == 1 {
        "expected 1 argument, found "@ + int_text(found)
    } else {
        "expected "@ + int_text(expected) + " arguments, found "@ + int_text(found)
    }
}

pub open spec fn is_number(v: ValueV) -> bool {
    v is Integer || v is Float
}

/// What calling the native function `f` on `args` returns, or the message
/// it fails with.
pub open spec fn native_result(f: NativeFnV, args: Seq<ValueV>) -> Result<ValueV, Seq<char>> {
    let n = args.len() as int;
    match f {
        NativeFnV::Builtin(b) => match b {
            Builtin::Add => if !all_integers(args) {
                Err("expected integer arguments"@)
            } else {
                match checked_sum(args, n) {
                    Some(s) => Ok(ValueV::Integer(s as i64)),
                    None => Err("integer overflow"@),
                }
            },
            Builtin::Mul => if !all_integers(args) {
                Err("expected integer arguments"@)
            } else {
                match checked_product(args, n) {
                    Some(s) => Ok(ValueV::Integer(s as i64)),
                    None => Err("integer overflow"@),
                }
            },
            Builtin::Sub => if n == 0 {
                Err("Expected at least one argument"@)
            } else if !all_integers(args) {
                Err("expected integer arguments"@)
            } else if n == 1 {
                if in_i64(-int_of(args[0])) {
                    Ok(ValueV::Integer((-int_of(args[0])) as i64))
                } else {
                    Err("integer overflow"@)
                }
            } else {
                match checked_difference(args, n) {
                    Some(s) => Ok(ValueV::Integer(s as i64)),
                    None => Err("integer overflow"@),
                }
            },
            Builtin::Less => if n != 2 {
                Err(count_message(2, n))
            } else if !all_integers(args) {
                Err("expected integer arguments"@)
            } else {
                Ok(ValueV::Boolean(int_of(args[0]) < int_of(args[1])))
            },
            Builtin::Greater => if n != 2 {
                Err(count_message(2, n))
            } else if !all_integers(args) {
                Err("expected integer arguments"@)
            } else {
                Ok(ValueV::Boolean(int_of(args[0]) > int_of(args[1])))
            },
            Builtin::NumEq => if n != 2 {
                Err(count_message(2, n))
            } else if !is_number(args[0]) || !is_number(args[1]) {
                Err("expected number arguments"@)
            } else {
                Ok(ValueV::Boolean(value_eq(args[0], args[1])))
            },
            Builtin::Not => if n != 1 {
                Err(count_message(1, n))
            } else {
                match args[0] {
                    ValueV::Boolean(b) => Ok(ValueV::Boolean(!b)),
                    _ => Err("expected a boolean argument"@),
                }
            },
            Builtin::Error => if n != 1 {
                Err(count_message(1, n))
            } else {
                match args[0] {
                    ValueV::String(s) => Err(s),
                    _ => Err("expected a string argument"@),
                }
            },
        },
        NativeFnV::StructPredicate(kind) => if n != 1 {
            Err(count_message(1, n))
        } else {
            Ok(
                ValueV::Boolean(
                    match args[0] {
                        ValueV::Struct(k, _, _) => k == kind,
                        _ => false,
                    },
                ),
            )
        },
        NativeFnV::StructConstructor(kind, fields) => if n != fields.len() {
            Err(count_message(fields.len() as int, n))
        } else {
            Ok(ValueV::Struct(kind, fields, args))
        },
        NativeFnV::StructAccessor(kind, index) => if n != 1 {
            Err(count_message(1, n))
        } else {
            match args[0] {
                ValueV::Struct(k, _, values) => if k == kind && index < values.len() {
                    Ok(values[index as int])
                } else {
                    Err("expected "@ + kind + " struct"@)
                },
                _ => Err("expected "@ + kind + " struct"@),
            }
        },
    }
}

fn count_error(expected: usize, found: usize) -> (r: String)
    ensures
        r@ == count_message(expected as int, found as int),
{
    let mut m = String::new();
    if expected == 1 {
        m.push_str("expected 1 argument, found ");
        push_digits(&mut m, found as u64);
    } else {
        m.push_str("expected ");
        push_digits(&mut m, expected as u64);
        m.push_str(" arguments, found ");
        push_digits(&mut m, found as u64);
    }
    proof {
        assert(m@ =~= count_message(expected as int, found as int));
    }
    m
}

fn owned(s: &str) -> (r: String)
    ensures
        r@ == s@,
{
    s.to_owned()
}

fn all_ints(args: &Vec<Value>) -> (r: bool)
    ensures
        r == all_integers(values_view(args@)),
{
    proof {
        lemma_values_view(args@);
    }
    let mut i: usize = 0;
    while i < args.len()
        invariant
            i <= args@.len(),
            values_view(args@).len() == args@.len(),
            forall|k: int| 0 <= k < args@.len() ==> #[trigger] values_view(args@)[k] == args@[k]@,
            forall|k: int| 0 <= k < i ==> (#[trigger] values_view(args@)[k]) is Integer,
        decreases args@.len() - i,
    {
        match &args[i] {
            Value::Integer(_) => {},
            _ => {
                assert(!(values_view(args@)[i as int] is Integer));
                return false;
            },
        }
        i = i + 1;
    }
    true
}

fn int_at(args: &Vec<Value>, i: usize) -> (r: i64)
    requires
        i < args@.len(),
    ensures
        r as int == int_of(values_view(args@)[i as int]),
{
    proof {
        lemma_values_view(args@);
    }
    match &args[i] {
        Value::Integer(x) => *x,
        _ => 0,
    }
}

/// Calls a native function on its arguments.
#[verifier::loop_isolation(false)]
pub fn call_native(f: &NativeFn, args: Vec<Value>) -> (r: Result<Value, String>)
    ensures
        match native_result(f@, values_view(args@)) {
            Ok(v) => r is Ok && r->Ok_0@ == v,
            Err(m) => r is Err && r->Err_0@ == m,
        },
{
    let ghost av = values_view(args@);
    proof {
        lemma_values_view(args@);
    }
    let n = args.len();
    match f {
        NativeFn::Builtin(b) => {
            assert(f@ == NativeFnV::Builtin(*b));
            call_builtin(*b, args)
        },
        NativeFn::StructPredicate { kind } => {
            if n != 1 {
                return Err(count_error(1, n));
            }
            match &args[0] {
                Value::Struct(s) => Ok(Value::Boolean(s.kind == *kind)),
                _ => Ok(Value::Boolean(false)),
            }
        },
        NativeFn::StructConstructor { kind, fields } => {
            if n != fields.len() {
                return Err(count_error(fields.len(), n));
            }
            Ok(Value::Struct(Struct { kind: kind.clone(), fields: dup_strings(fields), values: args }))
        },
        NativeFn::StructAccessor { kind, index } => {
            if n != 1 {
                return Err(count_error(1, n));
            }
            let mut rest = args;
            let ghost old_args = rest@;
            let v = rest.pop().unwrap();
            assert(v == old_args[0]);
            assert(av[0] == v@);
            match v {
                Value::Struct(s) => {
                    proof {
                        lemma_values_view(s.values@);
                    }
                    if s.kind == *kind && *index < s.values.len() {
                        let mut values = s.values;
                        let ghost vs = values@;
                        proof {
                            lemma_values_view(vs);
                        }
                        let picked = values.swap_remove(*index);
                        assert(picked@ == values_view(vs)[*index as int]);
                        Ok(picked)
                    } else {
                        let mut m = owned("expected ");
                        m.push_str(kind.as_str());
                        m.push_str(" struct");
                        Err(m)
                    }
                },
                _ => {
                    let mut m = owned("expected ");
                    m.push_str(kind.as_str());
                    m.push_str(" struct");
                    Err(m)
                },
            }
        },
    }
}


/// Calls a function of the prelude on its arguments.
#[verifier::loop_isolation(false)]
fn call_builtin(b: Builtin, args: Vec<Value>) -> (r: Result<Value, String>)
    ensures
        match native_result(NativeFnV::Builtin(b), values_view(args@)) {
            Ok(v) => r is Ok && r->Ok_0@ == v,
            Err(m) => r is Err && r->Err_0@ == m,
        },
{
    let ghost av = values_view(args@);
    proof {
        lemma_values_view(args@);
    }
    let n = args.len();
match b {
            Builtin::Add => {
                if !all_ints(&args) {
                    return Err(owned("expected integer arguments"));
                }
                let mut acc: i64 = 0;
                let mut i: usize = 0;
                while i < n
                    invariant
                        n == args@.len(),
                        av == values_view(args@),
                        all_integers(av),
                        av.len() == n,
                        i <= n,
                        checked_sum(av, i as int) == Some(acc as int),
                    decreases n - i,
                {
                    let x = int_at(&args, i);
                    match acc.checked_add(x) {
                        Some(t) => acc = t,
                        None => {
                            proof {
                                assert(checked_sum(av, i + 1) is None);
                                lemma_checked_sum_none(av, i + 1, n as int);
                            }
                            return Err(owned("integer overflow"));
                        },
                    }
                    i = i + 1;
                }
                Ok(Value::Integer(acc))
            },
            Builtin::Mul => {
                if !all_ints(&args) {
                    return Err(owned("expected integer arguments"));
                }
                let mut acc: i64 = 1;
                let mut i: usize = 0;
                while i < n
                    invariant
                        n == args@.len(),
                        av == values_view(args@),
                        all_integers(av),
                        av.len() == n,
                        i <= n,
                        checked_product(av, i as int) == Some(acc as int),
                    decreases n - i,
                {
                    let x = int_at(&args, i);
                    match acc.checked_mul(x) {
                        Some(t) => acc = t,
                        None => {
                            proof {
                                assert(checked_product(av, i + 1) is None);
                                lemma_checked_product_none(av, i + 1, n as int);
                            }
                            return Err(owned("integer overflow"));
                        },
                    }
                    i = i + 1;
                }
                Ok(Value::Integer(acc))
            },
            Builtin::Sub => {
                if n == 0 {
                    return Err(owned("Expected at least one argument"));
                }
                if !all_ints(&args) {
                    return Err(owned("expected integer arguments"));
                }
                let first = int_at(&args, 0);
                if n == 1 {
                    return match (0i64).checked_sub(first) {
                        Some(t) => Ok(Value::Integer(t)),
                        None => Err(owned("integer overflow")),
                    };
                }
                let mut acc: i64 = first;
                let mut i: usize = 1;
                while i < n
                    invariant
                        n == args@.len(),
                        av == values_view(args@),
                        all_integers(av),
                        av.len() == n,
                        1 <= i <= n,
                        checked_difference(av, i as int) == Some(acc as int),
                    decreases n - i,
                {
                    let x = int_at(&args, i);
                    match acc.checked_sub(x) {
                        Some(t) => acc = t,
                        None => {
                            proof {
                                assert(checked_difference(av, i + 1) is None);
                                lemma_checked_difference_none(av, i + 1, n as int);
                            }
                            return Err(owned("integer overflow"));
                        },
                    }
                    i = i + 1;
                }
                Ok(Value::Integer(acc))
            },
            Builtin::Less => {
                if n != 2 {
                    return Err(count_error(2, n));
                }
                if !all_ints(&args) {
                    return Err(owned("expected integer arguments"));
                }
                Ok(Value::Boolean(int_at(&args, 0) < int_at(&args, 1)))
            },
            Builtin::Greater => {
                if n != 2 {
                    return Err(count_error(2, n));
                }
                if !all_ints(&args) {
                    return Err(owned("expected integer arguments"));
                }
                Ok(Value::Boolean(int_at(&args, 0) > int_at(&args, 1)))
            },
            Builtin::NumEq => {
                if n != 2 {
                    return Err(count_error(2, n));
                }
                let a = &args[0];
                let c = &args[1];
                let numbers = match (a, c) {
                    (Value::Integer(_), Value::Integer(_)) => true,
                    (Value::Integer(_), Value::Float(_)) => true,
                    (Value::Float(_), Value::Integer(_)) => true,
                    (Value::Float(_), Value::Float(_)) => true,
                    _ => false,
                };
                if !numbers {
                    return Err(owned("expected number arguments"));
                }
                Ok(Value::Boolean(a.equals(c)))
            },
            Builtin::Not => {
                if n != 1 {
                    return Err(count_error(1, n));
                }
                match &args[0] {
                    Value::Boolean(x) => Ok(Value::Boolean(!*x)),
                    _ => Err(owned("expected a boolean argument")),
                }
            },
            Builtin::Error => {
                if n != 1 {
                    return Err(count_error(1, n));
                }
                match &args[0] {
                    Value::String(s) => Err(s.clone()),
                    _ => Err(owned("expected a string argument")),
                }
            },
        }
}

proof fn lemma_checked_sum_none(args: Seq<ValueV>, i: int, n: int)
    requires
        0 <= i <= n,
        checked_sum(args, i) is None,
    ensures
        checked_sum(args, n) is None,
    decreases n - i,
{
    if i < n {
        lemma_checked_sum_none(args, i + 1, n);
    }
}

proof fn lemma_checked_product_none(args: Seq<ValueV>, i: int, n: int)
    requires
        0 <= i <= n,
        checked_product(args, i) is None,
    ensures
        checked_product(args, n) is None,
    decreases n - i,
{
    if i < n {
        lemma_checked_product_none(args, i + 1, n);
    }
}

proof fn lemma_checked_difference_none(args: Seq<ValueV>, i: int, n: int)
    requires
        1 <= i <= n,
        checked_difference(args, i) is None,
    ensures
        checked_difference(args, n) is None,
    decreases n - i,
{
    if i < n {
        lemma_checked_difference_none(args, i + 1, n);
    }
}

} // verus!

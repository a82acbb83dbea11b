//! Lexical environments: lookup through the parent chain, and extension by a
//! new frame that shadows what it encloses.
use crate::ast::{
    Binding, Builtin, Env, EnvV, NativeFn, Value, ValueV, bindings_view, env_view, strings_view,
    values_view,
};
use crate::diagnostics::{RuntimeError, RuntimeErrorV};
use crate::value::lemma_values_view;
use std::rc::Rc;
use vstd::prelude::*;

verus! {

broadcast use vstd::std_specs::vec::group_vec_axioms;

/// The latest binding of `name` in a frame.
pub open spec fn lookup_frame(bs: Seq<(Seq<char>, ValueV)>, name: Seq<char>) -> Option<ValueV>
    decreases bs.len(),
{
    if bs.len() == 0 {
        None
    } else if bs.last().0 == name {
        Some(bs.last().1)
    } else {
        lookup_frame(bs.drop_last(), name)
    }
}

/// The value of `name` in `e`: its own frame first, then its parent's.
pub open spec fn lookup(e: EnvV, name: Seq<char>) -> Option<ValueV>
    decreases e,
{
    match lookup_frame(e.bindings, name) {
        Some(v) => Some(v),
        None => match e.parent {
            Some(p) => lookup(*p, name),
            None => None,
        },
    }
}

/// `e` extended by a frame that binds `names` to `values`, pairwise.
pub open spec fn extend(e: EnvV, names: Seq<Seq<char>>, values: Seq<ValueV>) -> EnvV {
    EnvV {
        bindings: Seq::new(names.len(), |i: int| (names[i], values[i])),
        parent: Some(Box::new(e)),
    }
}

/// The words that can never name a variable, parameter, pattern variable or
/// record.
pub open spec fn is_reserved(name: Seq<char>) -> bool {
    ||| name == "and"@
    ||| name == "begin"@
    ||| name == "cond"@
    ||| name == "define"@
    ||| name == "if"@
    ||| name == "import"@
    ||| name == "lambda"@
    ||| name == "let"@
    ||| name == "let*"@
    ||| name == "letrec"@
    ||| name == "match"@
    ||| name == "or"@
    ||| name == "quote"@
    ||| name == "section"@
    ||| name == "struct"@
}

pub fn is_reserved_word(name: &str) -> (r: bool)
    ensures
        r == is_reserved(name@),
{
    name.eq("and") || name.eq("begin") || name.eq("cond") || name.eq("define") || name.eq("if")
        || name.eq("import") || name.eq("lambda") || name.eq("let") || name.eq("let*") || name.eq(
        "letrec",
    ) || name.eq("match") || name.eq("or") || name.eq("quote") || name.eq("section") || name.eq(
        "struct",
    )
}

pub open spec fn reserved_message(name: Seq<char>) -> Seq<char> {
    "\""@ + name + "\" is a reserved word and cannot be used as an identifier"@
}

/// Fails on a reserved word.
pub fn assert_not_reserved(name: &str) -> (r: Result<(), RuntimeError>)
    ensures
        r is Ok <==> !is_reserved(name@),
        r is Err ==> r->Err_0@ == (RuntimeErrorV { message: reserved_message(name@), span: None }),
{
    if is_reserved_word(name) {
        let mut m = String::new();
        m.push_str("\"");
        m.push_str(name);
        m.push_str("\" is a reserved word and cannot be used as an identifier");
        proof {
            assert(m@ =~= reserved_message(name@));
        }
        Err(RuntimeError::new(m, None))
    } else {
        Ok(())
    }
}

/// The bindings that every environment starts with.
pub open spec fn prelude_bindings() -> Seq<(Seq<char>, ValueV)> {
    seq![
        ("+"@, ValueV::Function(crate::ast::NativeFnV::Builtin(Builtin::Add))),
        ("-"@, ValueV::Function(crate::ast::NativeFnV::Builtin(Builtin::Sub))),
        ("*"@, ValueV::Function(crate::ast::NativeFnV::Builtin(Builtin::Mul))),
        ("<"@, ValueV::Function(crate::ast::NativeFnV::Builtin(Builtin::Less))),
        (">"@, ValueV::Function(crate::ast::NativeFnV::Builtin(Builtin::Greater))),
        ("="@, ValueV::Function(crate::ast::NativeFnV::Builtin(Builtin::NumEq))),
        ("not"@, ValueV::Function(crate::ast::NativeFnV::Builtin(Builtin::Not))),
        ("error"@, ValueV::Function(crate::ast::NativeFnV::Builtin(Builtin::Error))),
    ]
}

impl Env {
    /// An environment holding the prelude, enclosed by `parent`.
    pub fn new(parent: Option<Rc<Env>>) -> (r: Env)
        ensures
            r@.bindings == prelude_bindings(),
            r@.parent == match parent {
                Some(p) => Some(Box::new(env_view(*p))),
                None => None,
            },
    {
        let mut env = Env { bindings: Vec::new(), parent };
        proof {
            assert(env.bindings@.len() == 0);
            assert(bindings_view(env.bindings@) =~= Seq::<(Seq<char>, ValueV)>::empty());
            assert(env@ == env_view(env));
            assert(env_view(env).bindings == bindings_view(env.bindings@));
        }
        env.register("+", NativeFn::Builtin(Builtin::Add));
        env.register("-", NativeFn::Builtin(Builtin::Sub));
        env.register("*", NativeFn::Builtin(Builtin::Mul));
        env.register("<", NativeFn::Builtin(Builtin::Less));
        env.register(">", NativeFn::Builtin(Builtin::Greater));
        env.register("=", NativeFn::Builtin(Builtin::NumEq));
        env.register("not", NativeFn::Builtin(Builtin::Not));
        env.register("error", NativeFn::Builtin(Builtin::Error));
        proof {
            assert(env@.bindings =~= prelude_bindings());
        }
        env
    }

    /// The value bound to `key`, looking through the enclosing environments.
    pub fn get(&self, key: &str) -> (r: Option<&Value>)
        ensures
            match r {
                Some(v) => lookup(self@, key@) == Some(v@),
                None => lookup(self@, key@) is None,
            },
        decreases *self,
    {
        let mut i = self.bindings.len();
        proof {
            assert(self.bindings@.take(i as int) =~= self.bindings@);
        }
        while i > 0
            invariant
                i <= self.bindings@.len(),
                lookup_frame(bindings_view(self.bindings@), key@) == lookup_frame(
                    bindings_view(self.bindings@.take(i as int)),
                    key@,
                ),
            decreases i,
        {
            let ghost t = self.bindings@.take(i as int);
            proof {
                assert(t.drop_last() =~= self.bindings@.take(i - 1));
                assert(t.last() == self.bindings@[i - 1]);
                let bv = bindings_view(t);
                assert(bv.drop_last() =~= bindings_view(t.drop_last()));
            }
            if self.bindings[i - 1].name.as_str().eq(key) {
                return Some(&self.bindings[i - 1].value);
            }
            i = i - 1;
        }
        proof {
            assert(self.bindings@.take(0) =~= Seq::<Binding>::empty());
        }
        match &self.parent {
            Some(p) => {
                proof {
                    assert(decreases_to!(*self => self.parent));
                }
                p.get(key)
            },
            None => None,
        }
    }

    /// Binds `key` to `value` in this environment's own frame.
    pub fn set(&mut self, key: String, value: Value)
        ensures
            final(self)@.bindings == old(self)@.bindings.push((key@, value@)),
            final(self)@.parent == old(self)@.parent,
    {
        let ghost k = key@;
        let ghost v = value@;
        self.bindings.push(Binding { name: key, value });
        proof {
            assert(self.bindings@.drop_last() =~= old(self).bindings@);
            assert(self.bindings@.last().name@ == k);
            assert(self.bindings@.last().value@ == v);
            assert(bindings_view(self.bindings@) =~= bindings_view(old(self).bindings@).push((k, v)));
        }
    }

    /// Binds `name` to a native function.
    pub fn register(&mut self, name: &str, func: NativeFn)
        ensures
            final(self)@.bindings == old(self)@.bindings.push((name@, ValueV::Function(func@))),
            final(self)@.parent == old(self)@.parent,
    {
        self.set(name.to_owned(), Value::Function(func));
    }

    /// Binds `name` to a constant.
    pub fn register_value(&mut self, name: &str, value: Value)
        ensures
            final(self)@.bindings == old(self)@.bindings.push((name@, value@)),
            final(self)@.parent == old(self)@.parent,
    {
        self.set(name.to_owned(), value);
    }
}

/// A new frame binding `names` to `values` pairwise, enclosed by `env`.
pub fn extend_env(env: &Rc<Env>, names: &Vec<String>, values: Vec<Value>) -> (r: Env)
    requires
        names@.len() == values@.len(),
    ensures
        r@ == extend(env_view(**env), strings_view(names@), values_view(values@)),
{
    let mut bindings: Vec<Binding> = Vec::new();
    let mut values = values;
    let ghost vs = values@;
    let mut i: usize = 0;
    proof {
        lemma_values_view(vs);
    }
    // Move the values out back to front, then restore their order.
    let mut rev: Vec<Value> = Vec::new();
    while values.len() > 0
        invariant
            values@.len() + rev@.len() == vs.len(),
            values@ == vs.take(values@.len() as int),
            forall|k: int| 0 <= k < rev@.len() ==> #[trigger] rev@[k] == vs[vs.len() - 1 - k],
        decreases values@.len(),
    {
        let v = values.pop().unwrap();
        rev.push(v);
        proof {
            assert(values@ =~= vs.take(values@.len() as int));
        }
    }
    while i < names.len()
        invariant
            names@.len() == vs.len(),
            i <= names@.len(),
            rev@.len() + i == vs.len(),
            forall|k: int| 0 <= k < rev@.len() ==> #[trigger] rev@[k] == vs[vs.len() - 1 - k],
            bindings@.len() == i,
            forall|k: int| 0 <= k < i ==> (#[trigger] bindings@[k]).name@ == names@[k]@
                && bindings@[k].value == vs[k],
        decreases names@.len() - i,
    {
        let v = rev.pop().unwrap();
        bindings.push(Binding { name: names[i].clone(), value: v });
        i = i + 1;
    }
    let r = Env { bindings, parent: Some(env.clone()) };
    proof {
        lemma_bindings_view(r.bindings@);
        assert(r@.bindings =~= extend(env_view(**env), strings_view(names@), values_view(vs)).bindings);
    }
    r
}

proof fn lemma_bindings_view(s: Seq<Binding>)
    ensures
        bindings_view(s).len() == s.len(),
        forall|k: int| 0 <= k < s.len() ==> #[trigger] bindings_view(s)[k] == (s[k].name@, s[k].value@),
    decreases s.len(),
{
    if s.len() > 0 {
        lemma_bindings_view(s.drop_last());
    }
}

} // verus!

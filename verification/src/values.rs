//! Runtime values produced by the evaluator, their mathematical model, and
//! the error taxonomy shared by the reader and the evaluator.

use vstd::prelude::*;
use crate::ast::{Ast, AstS, ast_view};
use crate::tokenizer::strs_view;

verus! {

/// Everything that reading or evaluating a program can fail with.
#[derive(Clone, Copy, Debug, PartialEq, Eq, Structural)]
pub enum Error {
    /// A form was expected but the token stream was exhausted.
    UnexpectedEof,
    /// A bare `)` stood where a form was expected.
    UnexpectedClose,
    /// Unbalanced parentheses, an empty call form, or a malformed special form.
    SyntaxError,
    /// The name position of a `define` held something other than a symbol.
    DefineNameNotSymbol,
    /// A symbol had no binding anywhere in the environment chain.
    UnboundSymbol,
    /// The head of a call named neither a special form, a primitive, nor a
    /// bound closure.
    ProcedureNotFound,
    /// A primitive received an argument of the wrong kind.
    WrongArgumentType,
    /// A closure call supplied the wrong number of arguments.
    ArityMismatch,
    /// Division by the additive identity.
    DivisionByZero,
    /// Exact unsigned arithmetic left the 64-bit range.
    IntegerOverflow,
    /// `car` of an empty list.
    EmptyList,
    /// The call-depth bound was exhausted.
    DepthExceeded,
}

/// A runtime value.  Floats are IEEE-754 double precision bit patterns; a
/// lambda holds its formal parameter names, its unevaluated body, and the
/// arena index of the environment captured at its definition.
#[derive(Debug, PartialEq)]
pub enum Value {
    Integer(u64),
    Float(u64),
    Symbol(String),
    Boolean(bool),
    List(Vec<Value>),
    Lambda { params: Vec<String>, body: Ast, env: usize },
}

/// The mathematical model of a runtime value.
pub ghost enum Val {
    Int(u64),
    Float(u64),
    Sym(Seq<char>),
    Bool(bool),
    List(Seq<Val>),
    Closure { params: Seq<Seq<char>>, body: AstS, env: int },
}

/// The model of a value.
pub open spec fn val_view(v: Value) -> Val
    decreases v,
{
    match v {
        Value::Integer(i) => Val::Int(i),
        Value::Float(b) => Val::Float(b),
        Value::Symbol(s) => Val::Sym(s@),
        Value::Boolean(b) => Val::Bool(b),
        Value::List(items) => Val::List(vals_view(items@)),
        Value::Lambda { params, body, env } => Val::Closure {
            params: strs_view(params@),
            body: ast_view(body),
            env: env as int,
        },
    }
}

/// The models of a sequence of values.
pub open spec fn vals_view(s: Seq<Value>) -> Seq<Val>
    decreases s,
{
    if s.len() == 0 {
        Seq::empty()
    } else {
        seq![val_view(s[0])] + vals_view(s.subrange(1, s.len() as int))
    }
}

/// The model of what an evaluation step hands back: possibly no value.
pub open spec fn opt_val_view(v: Option<Value>) -> Option<Val> {
    match v {
        Option::Some(x) => Option::Some(val_view(x)),
        Option::None => Option::None,
    }
}

/// The model of a whole evaluation result.
pub open spec fn res_view(r: Result<Option<Value>, Error>) -> Result<Option<Val>, Error> {
    match r {
        Result::Ok(v) => Result::Ok(opt_val_view(v)),
        Result::Err(e) => Result::Err(e),
    }
}

/// Index and length laws for `vals_view`.
pub proof fn lemma_vals_view(s: Seq<Value>)
    ensures
        vals_view(s).len() == s.len(),
        forall|i: int| 0 <= i < s.len() ==> vals_view(s)[i] == val_view(#[trigger] s[i]),
    decreases s.len(),
{
    if s.len() > 0 {
        let rest = s.subrange(1, s.len() as int);
        lemma_vals_view(rest);
        assert forall|i: int| 0 <= i < s.len() implies vals_view(s)[i] == val_view(
            #[trigger] s[i],
        ) by {
            if i > 0 {
                assert(vals_view(s)[i] == vals_view(rest)[i - 1]);
                assert(rest[i - 1] == s[i]);
            }
        }
    }
}

/// Appending a value appends its model.
pub proof fn lemma_vals_view_push(s: Seq<Value>, v: Value)
    ensures
        vals_view(s.push(v)) == vals_view(s).push(val_view(v)),
{
    lemma_vals_view(s.push(v));
    lemma_vals_view(s);
    let lhs = vals_view(s.push(v));
    let rhs = vals_view(s).push(val_view(v));
    assert forall|i: int| 0 <= i < lhs.len() implies lhs[i] == rhs[i] by {
        if i < s.len() {
            assert(s.push(v)[i] == s[i]);
            assert(lhs[i] == val_view(s[i]));
        } else {
            assert(s.push(v)[i] == v);
        }
    }
    assert(lhs =~= rhs);
}

fn duplicate_strings(v: &Vec<String>) -> (r: Vec<String>)
    ensures
        strs_view(r@) == strs_view(v@),
{
    let mut out: Vec<String> = Vec::new();
    let n: usize = v.len();
    let mut i: usize = 0;
    while i < n
        invariant
            i <= n,
            n == v@.len(),
            strs_view(out@) =~= strs_view(v@).subrange(0, i as int),
        decreases n - i,
    {
        let c: String = v[i].clone();
        let ghost o0: Seq<String> = out@;
        out.push(c);
        proof {
            assert(strs_view(o0).len() == o0.len());
            assert(o0.len() == i as int);
            assert forall|k: int| 0 <= k < out@.len() implies strs_view(out@)[k] == strs_view(
                v@,
            ).subrange(0, i as int + 1)[k] by {
                if k < i as int {
                    assert(out@[k] == o0[k]);
                    assert(strs_view(o0)[k] == strs_view(v@).subrange(0, i as int)[k]);
                } else {
                    assert(out@[k] == c);
                }
            }
            assert(strs_view(out@) =~= strs_view(v@).subrange(0, i as int + 1));
        }
        i = i + 1;
    }
    proof {
        assert(strs_view(v@).subrange(0, n as int) =~= strs_view(v@));
    }
    out
}

impl Value {
    /// A structurally equal copy of the value.
    pub fn duplicate(&self) -> (r: Value)
        ensures
            val_view(r) == val_view(*self),
        decreases *self,
    {
        match self {
            Value::Integer(i) => Value::Integer(*i),
            Value::Float(b) => Value::Float(*b),
            Value::Symbol(s) => Value::Symbol(s.clone()),
            Value::Boolean(b) => Value::Boolean(*b),
            Value::List(items) => {
                let mut out: Vec<Value> = Vec::new();
                let n: usize = items.len();
                let mut i: usize = 0;
                while i < n
                    invariant
                        i <= n,
                        n == items@.len(),
                        *self == Value::List(*items),
                        vals_view(out@) == vals_view(items@.subrange(0, i as int)),
                    decreases n - i,
                {
                    proof {
                        assert(decreases_to!(*self => (*self)->List_0));
                        assert((*self)->List_0 == *items);
                        assert(decreases_to!(*items => items@));
                        assert(decreases_to!(items@ => items@[i as int]));
                    }
                    let c: Value = items[i].duplicate();
                    proof {
                        lemma_vals_view_push(out@, c);
                        lemma_vals_view_push(items@.subrange(0, i as int), items@[i as int]);
                        assert(items@.subrange(0, i as int).push(items@[i as int])
                            =~= items@.subrange(0, i as int + 1));
                    }
                    out.push(c);
                    i = i + 1;
                }
                proof {
                    assert(items@.subrange(0, n as int) =~= items@);
                }
                Value::List(out)
            },
            Value::Lambda { params, body, env } => Value::Lambda {
                params: duplicate_strings(params),
                body: body.duplicate(),
                env: *env,
            },
        }
    }
}

} // verus!

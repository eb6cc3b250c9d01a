//! The evaluator: special-form dispatch, procedure application, and the
//! top-level driver `run`.
//!
//! `eval_s` and its helpers are the specification: a fuel-bounded
//! interpreter over the mathematical models of syntax trees, values and the
//! scope arena.  The executable evaluator is proved to return exactly what
//! the specification returns and to leave the arena exactly as the
//! specification says.  Fuel is spent only on closure application, so the
//! call-depth bound stands in for the host stack; exhausting it is an
//! error, not a crash.

use vstd::prelude::*;
use vstd::string::*;
use crate::ast::{Ast, AstS, ast_view, asts_view, lemma_asts_view, ast_size, asts_size,
    lemma_asts_size_index};
use crate::env::{Env, ScopeS, env_wf, lookup_s, define_s, child_s};
use crate::numbers::PI_BITS;
use crate::prims::{apply_prim_s, is_primitive_s, apply_primitive, is_primitive};
use crate::reader::{read_s, read_from_tokens};
use crate::tokenizer::{tokens_of, tokenize, strs_view};
use crate::values::{Value, Val, val_view, vals_view, res_view, Error, lemma_vals_view,
    lemma_vals_view_push};

verus! {

/// How many nested closure applications an evaluation may make.
pub const MAX_DEPTH: u64 = 512;

/// Anything but the boolean `false` is truthy.
pub open spec fn truthy(v: Val) -> bool {
    v != Val::Bool(false)
}

/// Evaluate one form.
pub open spec fn eval_s(a: AstS, env: int, st: Seq<ScopeS>, fuel: nat) -> (Result<
    Option<Val>,
    Error,
>, Seq<ScopeS>)
    decreases fuel, 1nat, ast_size(a), 0nat,
        via eval_s_decreases
{
    match a {
        AstS::Int(i) => (Result::Ok(Option::Some(Val::Int(i))), st),
        AstS::Float(b) => (Result::Ok(Option::Some(Val::Float(b))), st),
        AstS::Sym(name) => (
            match lookup_s(st, env, name) {
                Option::Some(v) => Result::Ok(Option::Some(v)),
                Option::None => Result::Err(Error::UnboundSymbol),
            },
            st,
        ),
        AstS::List(cs) => {
            if cs.len() == 0 {
                (Result::Err(Error::SyntaxError), st)
            } else {
                match cs[0] {
                    AstS::Sym(nm) => {
                        if nm == "define"@ {
                            eval_define_s(cs, env, st, fuel)
                        } else if nm == "if"@ {
                            eval_if_s(cs, env, st, fuel)
                        } else if nm == "lambda"@ {
                            (lambda_s(cs, env), st)
                        } else if nm == "begin"@ {
                            eval_begin_s(cs.subrange(1, cs.len() as int), env, st, fuel)
                        } else {
                            match lookup_s(st, env, nm) {
                                Option::Some(f) => {
                                    if f is Closure {
                                        let ar = eval_args_s(
                                            cs.subrange(1, cs.len() as int),
                                            env,
                                            st,
                                            fuel,
                                        );
                                        match ar.0 {
                                            Result::Ok(argvs) => apply_s(f, argvs, ar.1, fuel),
                                            Result::Err(e) => (Result::Err(e), ar.1),
                                        }
                                    } else {
                                        (Result::Err(Error::ProcedureNotFound), st)
                                    }
                                },
                                Option::None => {
                                    if is_primitive_s(nm) {
                                        let ar = eval_args_s(
                                            cs.subrange(1, cs.len() as int),
                                            env,
                                            st,
                                            fuel,
                                        );
                                        match ar.0 {
                                            Result::Ok(argvs) => (apply_prim_s(nm, argvs), ar.1),
                                            Result::Err(e) => (Result::Err(e), ar.1),
                                        }
                                    } else {
                                        (Result::Err(Error::ProcedureNotFound), st)
                                    }
                                },
                            }
                        }
                    },
                    _ => {
                        let hr = eval_s(cs[0], env, st, fuel);
                        match hr.0 {
                            Result::Ok(Option::Some(f)) => {
                                if f is Closure {
                                    let ar = eval_args_s(
                                        cs.subrange(1, cs.len() as int),
                                        env,
                                        hr.1,
                                        fuel,
                                    );
                                    match ar.0 {
                                        Result::Ok(argvs) => apply_s(f, argvs, ar.1, fuel),
                                        Result::Err(e) => (Result::Err(e), ar.1),
                                    }
                                } else {
                                    (Result::Err(Error::ProcedureNotFound), hr.1)
                                }
                            },
                            Result::Ok(Option::None) => (
                                Result::Err(Error::ProcedureNotFound),
                                hr.1,
                            ),
                            Result::Err(e) => (Result::Err(e), hr.1),
                        }
                    },
                }
            }
        },
    }
}

/// `(define name form)`: evaluate the form, bind its value in the current
/// scope, and hand back no value.
pub open spec fn eval_define_s(cs: Seq<AstS>, env: int, st: Seq<ScopeS>, fuel: nat) -> (Result<
    Option<Val>,
    Error,
>, Seq<ScopeS>)
    decreases fuel, 1nat, asts_size(cs), 1nat,
        via eval_define_s_decreases
{
    if cs.len() != 3 {
        (Result::Err(Error::SyntaxError), st)
    } else {
        match cs[1] {
            AstS::Sym(nm) => {
                let r = eval_s(cs[2], env, st, fuel);
                match r.0 {
                    Result::Ok(Option::Some(v)) => (
                        Result::Ok(Option::None),
                        define_s(r.1, env, nm, v),
                    ),
                    Result::Ok(Option::None) => (Result::Ok(Option::None), r.1),
                    Result::Err(e) => (Result::Err(e), r.1),
                }
            },
            _ => (Result::Err(Error::DefineNameNotSymbol), st),
        }
    }
}

/// `(if c t)` or `(if c t e)`: a condition yielding no value is an error.
pub open spec fn eval_if_s(cs: Seq<AstS>, env: int, st: Seq<ScopeS>, fuel: nat) -> (Result<
    Option<Val>,
    Error,
>, Seq<ScopeS>)
    decreases fuel, 1nat, asts_size(cs), 1nat,
        via eval_if_s_decreases
{
    if !(cs.len() == 3 || cs.len() == 4) {
        (Result::Err(Error::SyntaxError), st)
    } else {
        let c = eval_s(cs[1], env, st, fuel);
        match c.0 {
            Result::Ok(Option::Some(v)) => {
                if truthy(v) {
                    eval_s(cs[2], env, c.1, fuel)
                } else if cs.len() == 4 {
                    eval_s(cs[3], env, c.1, fuel)
                } else {
                    (Result::Ok(Option::None), c.1)
                }
            },
            Result::Ok(Option::None) => (Result::Err(Error::WrongArgumentType), c.1),
            Result::Err(e) => (Result::Err(e), c.1),
        }
    }
}

/// `(lambda (p ...) body)`: capture the current scope index; nothing is
/// evaluated now.
pub open spec fn lambda_s(cs: Seq<AstS>, env: int) -> Result<Option<Val>, Error> {
    if cs.len() != 3 {
        Result::Err(Error::SyntaxError)
    } else {
        match cs[1] {
            AstS::List(ps) => {
                if forall|i: int| 0 <= i < ps.len() ==> (#[trigger] ps[i]) is Sym {
                    Result::Ok(
                        Option::Some(
                            Val::Closure {
                                params: Seq::new(ps.len(), |i: int| ps[i]->Sym_0),
                                body: cs[2],
                                env: env,
                            },
                        ),
                    )
                } else {
                    Result::Err(Error::SyntaxError)
                }
            },
            _ => Result::Err(Error::SyntaxError),
        }
    }
}

/// `(begin f ...)`: evaluate in order; the last form's result is the whole
/// form's result, and earlier results are discarded.
pub open spec fn eval_begin_s(rest: Seq<AstS>, env: int, st: Seq<ScopeS>, fuel: nat) -> (Result<
    Option<Val>,
    Error,
>, Seq<ScopeS>)
    decreases fuel, 1nat, asts_size(rest), 1nat,
        via eval_begin_s_decreases
{
    if rest.len() == 0 {
        (Result::Ok(Option::None), st)
    } else {
        let r = eval_s(rest[0], env, st, fuel);
        match r.0 {
            Result::Ok(v) => {
                if rest.len() == 1 {
                    (Result::Ok(v), r.1)
                } else {
                    eval_begin_s(rest.subrange(1, rest.len() as int), env, r.1, fuel)
                }
            },
            Result::Err(e) => (Result::Err(e), r.1),
        }
    }
}

/// Evaluate procedure arguments left to right; an argument that yields no
/// value is an error.
pub open spec fn eval_args_s(args: Seq<AstS>, env: int, st: Seq<ScopeS>, fuel: nat) -> (Result<
    Seq<Val>,
    Error,
>, Seq<ScopeS>)
    decreases fuel, 1nat, asts_size(args), 1nat,
        via eval_args_s_decreases
{
    if args.len() == 0 {
        (Result::Ok(Seq::empty()), st)
    } else {
        let r = eval_s(args[0], env, st, fuel);
        match r.0 {
            Result::Ok(Option::Some(v)) => {
                let r2 = eval_args_s(args.subrange(1, args.len() as int), env, r.1, fuel);
                match r2.0 {
                    Result::Ok(vs) => (Result::Ok(seq![v] + vs), r2.1),
                    Result::Err(e) => (Result::Err(e), r2.1),
                }
            },
            Result::Ok(Option::None) => (Result::Err(Error::WrongArgumentType), r.1),
            Result::Err(e) => (Result::Err(e), r.1),
        }
    }
}

/// Bind formal parameters positionally in a scope, left to right, a later
/// duplicate winning.
pub open spec fn bind_params_s(
    st: Seq<ScopeS>,
    scope: int,
    params: Seq<Seq<char>>,
    argvs: Seq<Val>,
) -> Seq<ScopeS>
    decreases params.len(),
{
    if params.len() == 0 || argvs.len() == 0 {
        st
    } else {
        bind_params_s(
            define_s(st, scope, params[0], argvs[0]),
            scope,
            params.subrange(1, params.len() as int),
            argvs.subrange(1, argvs.len() as int),
        )
    }
}

/// Apply a closure: one fresh scope per call, parented to the captured
/// scope, the body evaluated there with one unit of fuel spent.
pub open spec fn apply_s(f: Val, argvs: Seq<Val>, st: Seq<ScopeS>, fuel: nat) -> (Result<
    Option<Val>,
    Error,
>, Seq<ScopeS>)
    decreases fuel, 0nat, 0nat, 0nat,
{
    match f {
        Val::Closure { params, body, env } => {
            if fuel == 0 {
                (Result::Err(Error::DepthExceeded), st)
            } else if params.len() != argvs.len() {
                (Result::Err(Error::ArityMismatch), st)
            } else {
                let nst = bind_params_s(child_s(st, env), st.len() as int, params, argvs);
                eval_s(body, st.len() as int, nst, (fuel - 1) as nat)
            }
        },
        _ => (Result::Err(Error::ProcedureNotFound), st),
    }
}

/// The global scope: `pi` and the truth constants, over the primitives.
pub open spec fn global_st() -> Seq<ScopeS> {
    seq![
        ScopeS {
            bindings: Map::empty().insert("pi"@, Val::Float(PI_BITS)).insert(
                "#t"@,
                Val::Bool(true),
            ).insert("#f"@, Val::Bool(false)),
            parent: Option::None,
        },
    ]
}

/// Read and evaluate every top-level form; the last form's result is the
/// program's result.
pub open spec fn run_forms_s(toks: Seq<Seq<char>>, pos: int, st: Seq<ScopeS>) -> Result<
    Option<Val>,
    Error,
>
    decreases toks.len() - pos,
{
    match read_s(toks, pos) {
        Result::Ok(pr) => {
            let er = eval_s(pr.0, 0, st, MAX_DEPTH as nat);
            match er.0 {
                Result::Ok(v) => {
                    if pr.1 >= toks.len() {
                        Result::Ok(v)
                    } else if pr.1 <= pos {
                        Result::Err(Error::SyntaxError)
                    } else {
                        run_forms_s(toks, pr.1, er.1)
                    }
                },
                Result::Err(e) => Result::Err(e),
            }
        },
        Result::Err(e) => Result::Err(e),
    }
}

/// What `run` returns for a program text.
pub open spec fn run_spec(text: Seq<char>) -> Result<Option<Val>, Error> {
    run_forms_s(tokens_of(text), 0, global_st())
}


#[via_fn]
proof fn eval_s_decreases(a: AstS, env: int, st: Seq<ScopeS>, fuel: nat) {
    match a {
        AstS::List(cs) => {
            if cs.len() > 0 {
                lemma_asts_size_index(cs, 0);
                assert(asts_size(cs) == ast_size(cs[0]) + asts_size(
                    cs.subrange(1, cs.len() as int),
                ));
            }
        },
        _ => {},
    }
}

#[via_fn]
proof fn eval_define_s_decreases(cs: Seq<AstS>, env: int, st: Seq<ScopeS>, fuel: nat) {
    if cs.len() == 3 {
        lemma_asts_size_index(cs, 2);
    }
}

#[via_fn]
proof fn eval_if_s_decreases(cs: Seq<AstS>, env: int, st: Seq<ScopeS>, fuel: nat) {
    if cs.len() == 3 || cs.len() == 4 {
        lemma_asts_size_index(cs, 1);
        lemma_asts_size_index(cs, 2);
        if cs.len() == 4 {
            lemma_asts_size_index(cs, 3);
        }
    }
}

#[via_fn]
proof fn eval_begin_s_decreases(rest: Seq<AstS>, env: int, st: Seq<ScopeS>, fuel: nat) {
    if rest.len() > 0 {
        lemma_asts_size_index(rest, 0);
        assert(asts_size(rest) == ast_size(rest[0]) + asts_size(
            rest.subrange(1, rest.len() as int),
        ));
        assert(ast_size(rest[0]) >= 1);
    }
}

#[via_fn]
proof fn eval_args_s_decreases(args: Seq<AstS>, env: int, st: Seq<ScopeS>, fuel: nat) {
    if args.len() > 0 {
        lemma_asts_size_index(args, 0);
        assert(asts_size(args) == ast_size(args[0]) + asts_size(
            args.subrange(1, args.len() as int),
        ));
        assert(ast_size(args[0]) >= 1);
    }
}

/// Prefixing already-evaluated argument values onto the rest of an
/// argument-list evaluation.
pub open spec fn prepend_args(s: Seq<Val>, r: (Result<Seq<Val>, Error>, Seq<ScopeS>)) -> (Result<
    Seq<Val>,
    Error,
>, Seq<ScopeS>) {
    match r.0 {
        Result::Ok(vs) => (Result::Ok(s + vs), r.1),
        Result::Err(e) => (Result::Err(e), r.1),
    }
}

proof fn lemma_prepend_args_assoc(a: Seq<Val>, b: Seq<Val>, r: (Result<Seq<Val>, Error>, Seq<
    ScopeS,
>))
    ensures
        prepend_args(a, prepend_args(b, r)) == prepend_args(a + b, r),
{
    match r.0 {
        Result::Ok(vs) => {
            assert(a + (b + vs) =~= (a + b) + vs);
        },
        Result::Err(_) => {},
    }
}

fn is_truthy(v: &Value) -> (r: bool)
    ensures
        r == truthy(val_view(*v)),
{
    match v {
        Value::Boolean(b) => *b,
        _ => true,
    }
}

/// Evaluate the arguments of a call form, left to right: the children of
/// `list` after the head.
fn eval_args(list: &Vec<Ast>, env: &mut Env, scope: usize, fuel: u64) -> (r: Result<
    Vec<Value>,
    Error,
>)
    requires
        env_wf(*old(env)),
        list@.len() >= 1,
    ensures
        env_wf(*final(env)),
        ({
            let sr = eval_args_s(
                asts_view(list@).subrange(1, list@.len() as int),
                scope as int,
                old(env)@,
                fuel as nat,
            );
            match r {
                Result::Ok(vs) => sr.0 == Result::<Seq<Val>, Error>::Ok(vals_view(vs@))
                    && final(env)@ == sr.1,
                Result::Err(e) => sr.0 == Result::<Seq<Val>, Error>::Err(e) && final(env)@
                    == sr.1,
            }
        }),
    decreases fuel, 1nat, asts_size(asts_view(list@)), 1nat,
{
    proof {
        lemma_asts_view(list@);
    }
    let ghost cs: Seq<AstS> = asts_view(list@);
    let ghost st0: Seq<ScopeS> = env@;
    let n: usize = list.len();
    let mut out: Vec<Value> = Vec::new();
    let mut i: usize = 1;
    proof {
        assert(vals_view(out@) =~= Seq::<Val>::empty());
        assert(prepend_args(vals_view(out@), eval_args_s(cs.subrange(1, n as int), scope as int,
            env@, fuel as nat)) == eval_args_s(cs.subrange(1, n as int), scope as int, st0,
            fuel as nat));
    }
    while i < n
        invariant
            1 <= i <= n,
            n == list@.len(),
            cs == asts_view(list@),
            cs.len() == n,
            env_wf(*env),
            st0 == old(env)@,
            forall|k: int| 0 <= k < n ==> cs[k] == ast_view(#[trigger] list@[k]),
            eval_args_s(cs.subrange(1, n as int), scope as int, st0, fuel as nat) == prepend_args(
                vals_view(out@),
                eval_args_s(cs.subrange(i as int, n as int), scope as int, env@, fuel as nat),
            ),
        decreases n - i,
    {
        let ghost st_i: Seq<ScopeS> = env@;
        let ghost tail: Seq<AstS> = cs.subrange(i as int, n as int);
        proof {
            assert(tail[0] == cs[i as int]);
            assert(tail.subrange(1, tail.len() as int) =~= cs.subrange(i as int + 1, n as int));
            lemma_asts_size_index(cs.subrange(1, cs.len() as int), i - 1);
            assert(cs.subrange(1, cs.len() as int)[i - 1] == cs[i as int]);
            assert(asts_size(cs) == ast_size(cs[0]) + asts_size(cs.subrange(1, cs.len() as int)));
            assert(ast_size(cs[0]) >= 1);
        }
        match eval(&list[i], env, scope, fuel) {
            Result::Ok(Option::Some(v)) => {
                proof {
                    lemma_vals_view_push(out@, v);
                    assert(vals_view(out@).push(val_view(v)) =~= vals_view(out@) + seq![
                        val_view(v),
                    ]);
                    lemma_prepend_args_assoc(
                        vals_view(out@),
                        seq![val_view(v)],
                        eval_args_s(
                            cs.subrange(i as int + 1, n as int),
                            scope as int,
                            env@,
                            fuel as nat,
                        ),
                    );
                }
                out.push(v);
                i = i + 1;
            },
            Result::Ok(Option::None) => {
                proof {
                    assert(eval_args_s(tail, scope as int, st_i, fuel as nat) == (Result::<
                        Seq<Val>,
                        Error,
                    >::Err(Error::WrongArgumentType), env@));
                }
                return Result::Err(Error::WrongArgumentType);
            },
            Result::Err(e) => {
                proof {
                    assert(eval_args_s(tail, scope as int, st_i, fuel as nat) == (Result::<
                        Seq<Val>,
                        Error,
                    >::Err(e), env@));
                }
                return Result::Err(e);
            },
        }
    }
    proof {
        assert(cs.subrange(n as int, n as int) =~= Seq::<AstS>::empty());
        assert(vals_view(out@) + Seq::<Val>::empty() =~= vals_view(out@));
    }
    Result::Ok(out)
}

/// `(begin f ...)` over the children of `list` after the head.
fn eval_begin(list: &Vec<Ast>, env: &mut Env, scope: usize, fuel: u64) -> (r: Result<
    Option<Value>,
    Error,
>)
    requires
        env_wf(*old(env)),
        list@.len() >= 1,
    ensures
        env_wf(*final(env)),
        ({
            let sr = eval_begin_s(
                asts_view(list@).subrange(1, list@.len() as int),
                scope as int,
                old(env)@,
                fuel as nat,
            );
            res_view(r) == sr.0 && final(env)@ == sr.1
        }),
    decreases fuel, 1nat, asts_size(asts_view(list@)), 1nat,
{
    proof {
        lemma_asts_view(list@);
    }
    let ghost cs: Seq<AstS> = asts_view(list@);
    let ghost st0: Seq<ScopeS> = env@;
    let n: usize = list.len();
    if n == 1 {
        return Result::Ok(Option::None);
    }
    let mut i: usize = 1;
    while i + 1 < n
        invariant
            1 <= i < n,
            n == list@.len(),
            cs == asts_view(list@),
            cs.len() == n,
            env_wf(*env),
            st0 == old(env)@,
            forall|k: int| 0 <= k < n ==> cs[k] == ast_view(#[trigger] list@[k]),
            eval_begin_s(cs.subrange(1, n as int), scope as int, st0, fuel as nat)
                == eval_begin_s(cs.subrange(i as int, n as int), scope as int, env@, fuel as nat),
        decreases n - i,
    {
        let ghost tail: Seq<AstS> = cs.subrange(i as int, n as int);
        proof {
            assert(tail[0] == cs[i as int]);
            assert(tail.subrange(1, tail.len() as int) =~= cs.subrange(i as int + 1, n as int));
            lemma_asts_size_index(cs.subrange(1, cs.len() as int), i - 1);
            assert(cs.subrange(1, cs.len() as int)[i - 1] == cs[i as int]);
            assert(asts_size(cs) == ast_size(cs[0]) + asts_size(cs.subrange(1, cs.len() as int)));
            assert(ast_size(cs[0]) >= 1);
        }
        let ghost st_i: Seq<ScopeS> = env@;
        match eval(&list[i], env, scope, fuel) {
            Result::Ok(_) => {
                i = i + 1;
            },
            Result::Err(e) => {
                proof {
                    assert(eval_begin_s(tail, scope as int, st_i, fuel as nat) == (Result::<
                        Option<Val>,
                        Error,
                    >::Err(e), env@));
                }
                return Result::Err(e);
            },
        }
    }
    let ghost tail: Seq<AstS> = cs.subrange(i as int, n as int);
    proof {
        assert(tail.len() == n - i);
        assert(tail[0] == cs[i as int]);
        lemma_asts_size_index(cs.subrange(1, cs.len() as int), i - 1);
        assert(cs.subrange(1, cs.len() as int)[i - 1] == cs[i as int]);
        assert(asts_size(cs) == ast_size(cs[0]) + asts_size(cs.subrange(1, cs.len() as int)));
        assert(ast_size(cs[0]) >= 1);
    }
    eval(&list[i], env, scope, fuel)
}

/// `(define name form)` over the children of `list`.
fn eval_define(list: &Vec<Ast>, env: &mut Env, scope: usize, fuel: u64) -> (r: Result<
    Option<Value>,
    Error,
>)
    requires
        env_wf(*old(env)),
        list@.len() >= 1,
    ensures
        env_wf(*final(env)),
        ({
            let sr = eval_define_s(asts_view(list@), scope as int, old(env)@, fuel as nat);
            res_view(r) == sr.0 && final(env)@ == sr.1
        }),
    decreases fuel, 1nat, asts_size(asts_view(list@)), 1nat,
{
    proof {
        lemma_asts_view(list@);
    }
    let ghost cs: Seq<AstS> = asts_view(list@);
    if list.len() != 3 {
        return Result::Err(Error::SyntaxError);
    }
    proof {
        lemma_asts_size_index(cs, 2);
    }
    match &list[1] {
        Ast::Symbol(nm) => {
            match eval(&list[2], env, scope, fuel) {
                Result::Ok(Option::Some(v)) => {
                    env.define(scope, nm, v);
                    Result::Ok(Option::None)
                },
                Result::Ok(Option::None) => Result::Ok(Option::None),
                Result::Err(e) => Result::Err(e),
            }
        },
        _ => Result::Err(Error::DefineNameNotSymbol),
    }
}

/// `(if c t)` / `(if c t e)` over the children of `list`.
fn eval_if(list: &Vec<Ast>, env: &mut Env, scope: usize, fuel: u64) -> (r: Result<
    Option<Value>,
    Error,
>)
    requires
        env_wf(*old(env)),
        list@.len() >= 1,
    ensures
        env_wf(*final(env)),
        ({
            let sr = eval_if_s(asts_view(list@), scope as int, old(env)@, fuel as nat);
            res_view(r) == sr.0 && final(env)@ == sr.1
        }),
    decreases fuel, 1nat, asts_size(asts_view(list@)), 1nat,
{
    proof {
        lemma_asts_view(list@);
    }
    let ghost cs: Seq<AstS> = asts_view(list@);
    let n: usize = list.len();
    if !(n == 3 || n == 4) {
        return Result::Err(Error::SyntaxError);
    }
    proof {
        lemma_asts_size_index(cs, 1);
        lemma_asts_size_index(cs, 2);
        if cs.len() == 4 {
            lemma_asts_size_index(cs, 3);
        }
    }
    match eval(&list[1], env, scope, fuel) {
        Result::Ok(Option::Some(v)) => {
            if is_truthy(&v) {
                eval(&list[2], env, scope, fuel)
            } else if n == 4 {
                eval(&list[3], env, scope, fuel)
            } else {
                Result::Ok(Option::None)
            }
        },
        Result::Ok(Option::None) => Result::Err(Error::WrongArgumentType),
        Result::Err(e) => Result::Err(e),
    }
}

/// `(lambda (p ...) body)` over the children of `list`.
fn eval_lambda(list: &Vec<Ast>, scope: usize) -> (r: Result<Option<Value>, Error>)
    requires
        list@.len() >= 1,
    ensures
        res_view(r) == lambda_s(asts_view(list@), scope as int),
{
    proof {
        lemma_asts_view(list@);
    }
    let ghost cs: Seq<AstS> = asts_view(list@);
    if list.len() != 3 {
        return Result::Err(Error::SyntaxError);
    }
    match &list[1] {
        Ast::Children(ps) => {
            proof {
                lemma_asts_view(ps@);
            }
            let ghost psv: Seq<AstS> = asts_view(ps@);
            let m: usize = ps.len();
            let mut params: Vec<String> = Vec::new();
            let mut i: usize = 0;
            while i < m
                invariant
                    i <= m,
                    m == ps@.len(),
                    psv == asts_view(ps@),
                    psv.len() == m,
                    cs == asts_view(list@),
                    cs.len() == 3,
                    cs[1] == AstS::List(psv),
                    forall|k: int| 0 <= k < m ==> psv[k] == ast_view(#[trigger] ps@[k]),
                    forall|k: int| 0 <= k < i ==> (#[trigger] psv[k]) is Sym,
                    strs_view(params@) =~= Seq::new(i as nat, |k: int| psv[k]->Sym_0),
                decreases m - i,
            {
                match &ps[i] {
                    Ast::Symbol(s) => {
                        let ghost p0: Seq<String> = params@;
                        let c: String = s.clone();
                        params.push(c);
                        proof {
                            assert(strs_view(p0).len() == p0.len());
                            assert forall|k: int| 0 <= k < params@.len() implies strs_view(
                                params@,
                            )[k] == Seq::new(i as nat + 1, |k2: int| psv[k2]->Sym_0)[k] by {
                                if k < p0.len() {
                                    assert(params@[k] == p0[k]);
                                    assert(strs_view(p0)[k] == Seq::new(
                                        i as nat,
                                        |k2: int| psv[k2]->Sym_0,
                                    )[k]);
                                } else {
                                    assert(params@[k] == c);
                                }
                            }
                            assert(strs_view(params@) =~= Seq::new(
                                i as nat + 1,
                                |k2: int| psv[k2]->Sym_0,
                            ));
                        }
                        i = i + 1;
                    },
                    _ => {
                        proof {
                            assert(!((#[trigger] psv[i as int]) is Sym));
                        }
                        return Result::Err(Error::SyntaxError);
                    },
                }
            }
            let body: Ast = list[2].duplicate();
            proof {
                assert(strs_view(params@) =~= Seq::new(psv.len(), |k: int| psv[k]->Sym_0));
            }
            Result::Ok(Option::Some(Value::Lambda { params, body, env: scope }))
        },
        _ => Result::Err(Error::SyntaxError),
    }
}

/// Apply a closure (or fail on anything that is not one).
pub fn apply(f: Value, args: Vec<Value>, env: &mut Env, fuel: u64) -> (r: Result<
    Option<Value>,
    Error,
>)
    requires
        env_wf(*old(env)),
    ensures
        env_wf(*final(env)),
        ({
            let sr = apply_s(val_view(f), vals_view(args@), old(env)@, fuel as nat);
            res_view(r) == sr.0 && final(env)@ == sr.1
        }),
    decreases fuel, 0nat, 0nat, 0nat,
{
    proof {
        lemma_vals_view(args@);
    }
    match f {
        Value::Lambda { params, body, env: cenv } => {
            if fuel == 0 {
                return Result::Err(Error::DepthExceeded);
            }
            if params.len() != args.len() {
                return Result::Err(Error::ArityMismatch);
            }
            let ghost ps: Seq<Seq<char>> = strs_view(params@);
            let ghost avs: Seq<Val> = vals_view(args@);
            let ghost st0: Seq<ScopeS> = env@;
            let ns: usize = env.child(cenv);
            let m: usize = params.len();
            let mut args = args;
            let mut i: usize = 0;
            proof {
                assert(ps.subrange(0, ps.len() as int) =~= ps);
                assert(avs.subrange(0, avs.len() as int) =~= avs);
                assert(vals_view(args@) =~= avs.subrange(0, avs.len() as int));
            }
            while i < m
                invariant
                    i <= m,
                    m == ps.len(),
                    m == avs.len(),
                    m == params@.len(),
                    args@.len() == m - i,
                    env_wf(*env),
                    ps == strs_view(params@),
                    vals_view(args@) =~= avs.subrange(i as int, m as int),
                    bind_params_s(child_s(st0, cenv as int), st0.len() as int, ps, avs)
                        == bind_params_s(
                        env@,
                        st0.len() as int,
                        ps.subrange(i as int, m as int),
                        avs.subrange(i as int, m as int),
                    ),
                    ns == st0.len(),
                decreases m - i,
            {
                let ghost a0: Seq<Value> = args@;
                proof {
                    lemma_vals_view(a0);
                    assert(vals_view(a0)[0] == val_view(a0[0]));
                    assert(avs.subrange(i as int, m as int)[0] == avs[i as int]);
                }
                let v: Value = args.remove(0);
                proof {
                    lemma_vals_view(args@);
                    assert forall|k: int| 0 <= k < args@.len() implies vals_view(args@)[k]
                        == avs.subrange(i as int + 1, m as int)[k] by {
                        assert(args@[k] == a0[k + 1]);
                        assert(vals_view(a0)[k + 1] == avs.subrange(i as int, m as int)[k + 1]);
                    }
                    assert(vals_view(args@) =~= avs.subrange(i as int + 1, m as int));
                    assert(ps.subrange(i as int, m as int)[0] == ps[i as int]);
                    assert(ps[i as int] == params@[i as int]@);
                    assert(ps.subrange(i as int, m as int).subrange(
                        1,
                        ps.subrange(i as int, m as int).len() as int,
                    ) =~= ps.subrange(i as int + 1, m as int));
                    assert(avs.subrange(i as int, m as int).subrange(
                        1,
                        avs.subrange(i as int, m as int).len() as int,
                    ) =~= avs.subrange(i as int + 1, m as int));
                }
                env.define(ns, &params[i], v);
                i = i + 1;
            }
            proof {
                assert(ps.subrange(m as int, m as int) =~= Seq::<Seq<char>>::empty());
                assert(avs.subrange(m as int, m as int) =~= Seq::<Val>::empty());
            }
            eval(&body, env, ns, fuel - 1)
        },
        _ => Result::Err(Error::ProcedureNotFound),
    }
}

/// Evaluate one syntax tree node against the environment arena.
pub fn eval(ast: &Ast, env: &mut Env, scope: usize, fuel: u64) -> (r: Result<Option<Value>, Error>)
    requires
        env_wf(*old(env)),
    ensures
        env_wf(*final(env)),
        ({
            let sr = eval_s(ast_view(*ast), scope as int, old(env)@, fuel as nat);
            res_view(r) == sr.0 && final(env)@ == sr.1
        }),
    decreases fuel, 1nat, ast_size(ast_view(*ast)), 0nat,
{
    match ast {
        Ast::Integer(i) => Result::Ok(Option::Some(Value::Integer(*i))),
        Ast::Float(b) => Result::Ok(Option::Some(Value::Float(*b))),
        Ast::Symbol(s) => match env.get(scope, s) {
            Option::Some(v) => Result::Ok(Option::Some(v)),
            Option::None => Result::Err(Error::UnboundSymbol),
        },
        Ast::Children(list) => {
            proof {
                lemma_asts_view(list@);
            }
            let ghost cs: Seq<AstS> = asts_view(list@);
            if list.len() == 0 {
                return Result::Err(Error::SyntaxError);
            }
            proof {
                assert(decreases_to!(*ast => (*ast)->Children_0));
                assert((*ast)->Children_0 == *list);
                assert(asts_size(cs) == ast_size(cs[0]) + asts_size(
                    cs.subrange(1, cs.len() as int),
                ));
                lemma_asts_size_index(cs, 0);
            }
            match &list[0] {
                Ast::Symbol(s0) => {
                    if s0.eq(&String::from_str("define")) {
                        eval_define(list, env, scope, fuel)
                    } else if s0.eq(&String::from_str("if")) {
                        eval_if(list, env, scope, fuel)
                    } else if s0.eq(&String::from_str("lambda")) {
                        eval_lambda(list, scope)
                    } else if s0.eq(&String::from_str("begin")) {
                        eval_begin(list, env, scope, fuel)
                    } else {
                        match env.get(scope, s0) {
                            Option::Some(fv) => {
                                let is_closure: bool = match &fv {
                                    Value::Lambda { .. } => true,
                                    _ => false,
                                };
                                if is_closure {
                                    match eval_args(list, env, scope, fuel) {
                                        Result::Ok(argvs) => apply(fv, argvs, env, fuel),
                                        Result::Err(e) => Result::Err(e),
                                    }
                                } else {
                                    Result::Err(Error::ProcedureNotFound)
                                }
                            },
                            Option::None => {
                                if is_primitive(s0) {
                                    match eval_args(list, env, scope, fuel) {
                                        Result::Ok(argvs) => apply_primitive(s0, argvs),
                                        Result::Err(e) => Result::Err(e),
                                    }
                                } else {
                                    Result::Err(Error::ProcedureNotFound)
                                }
                            },
                        }
                    }
                },
                _ => {
                    match eval(&list[0], env, scope, fuel) {
                        Result::Ok(Option::Some(fv)) => {
                            let is_closure: bool = match &fv {
                                Value::Lambda { .. } => true,
                                _ => false,
                            };
                            if is_closure {
                                match eval_args(list, env, scope, fuel) {
                                    Result::Ok(argvs) => apply(fv, argvs, env, fuel),
                                    Result::Err(e) => Result::Err(e),
                                }
                            } else {
                                Result::Err(Error::ProcedureNotFound)
                            }
                        },
                        Result::Ok(Option::None) => Result::Err(Error::ProcedureNotFound),
                        Result::Err(e) => Result::Err(e),
                    }
                },
            }
        },
    }
}

/// The global environment: `pi` and the truth constants in one root scope.
pub fn global_env() -> (e: Env)
    ensures
        env_wf(e),
        e@ == global_st(),
{
    let mut e: Env = Env::new();
    e.define(0, &String::from_str("pi"), Value::Float(PI_BITS));
    e.define(0, &String::from_str("#t"), Value::Boolean(true));
    e.define(0, &String::from_str("#f"), Value::Boolean(false));
    proof {
        assert(e@.len() == 1);
        assert(e@[0].bindings =~= global_st()[0].bindings);
        assert(e@ =~= global_st());
    }
    e
}

/// Parse and evaluate every top-level form of `program` against a fresh
/// global environment; the last form's value is the program's value.
pub fn run(program: &str) -> (r: Result<Option<Value>, Error>)
    ensures
        res_view(r) == run_spec(program@),
{
    let tokens: Vec<String> = tokenize(program);
    let ghost toks: Seq<Seq<char>> = tokens_of(program@);
    let mut env: Env = global_env();
    let mut pos: usize = 0;
    loop
        invariant
            env_wf(env),
            strs_view(tokens@) == toks,
            toks == tokens_of(program@),
            pos <= tokens@.len(),
            run_forms_s(toks, pos as int, env@) == run_spec(program@),
        decreases tokens@.len() - pos,
    {
        match read_from_tokens(&tokens, pos) {
            Result::Err(e) => {
                return Result::Err(e);
            },
            Result::Ok(pr) => {
                let (ast, p2): (Ast, usize) = pr;
                match eval(&ast, &mut env, 0, MAX_DEPTH) {
                    Result::Err(e) => {
                        return Result::Err(e);
                    },
                    Result::Ok(v) => {
                        if p2 >= tokens.len() {
                            return Result::Ok(v);
                        }
                        pos = p2;
                    },
                }
            },
        }
    }
}

/// Evaluating a literal is the identity: the node's value is the result,
/// and the environment is untouched.
pub proof fn lemma_literal_eval_identity(i: u64, b: u64, env: int, st: Seq<ScopeS>, fuel: nat)
    ensures
        eval_s(AstS::Int(i), env, st, fuel) == (
            Result::<Option<Val>, Error>::Ok(Option::Some(Val::Int(i))),
            st,
        ),
        eval_s(AstS::Float(b), env, st, fuel) == (
            Result::<Option<Val>, Error>::Ok(Option::Some(Val::Float(b))),
            st,
        ),
{
}

/// Evaluating a symbol never changes the environment, so evaluating the
/// same symbol twice yields the same value both times.
pub proof fn lemma_symbol_eval_idempotent(name: Seq<char>, env: int, st: Seq<ScopeS>, fuel: nat)
    ensures
        eval_s(AstS::Sym(name), env, st, fuel).1 == st,
        eval_s(AstS::Sym(name), env, eval_s(AstS::Sym(name), env, st, fuel).1, fuel) == eval_s(
            AstS::Sym(name),
            env,
            st,
            fuel,
        ),
{
}

/// A `define` followed by a lookup of the same name in the same scope
/// always finds the value just bound.
pub proof fn lemma_define_then_lookup(st: Seq<ScopeS>, scope: int, name: Seq<char>, v: Val)
    requires
        0 <= scope < st.len(),
    ensures
        lookup_s(define_s(st, scope, name, v), scope, name) == Option::Some(v),
{
}

} // verus!

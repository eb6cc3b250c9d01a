//! The fixed primitive library: variadic arithmetic over the two-tier
//! numeric tower, pairwise comparisons, and the list operations.
//!
//! Arithmetic on integers is exact; a result outside the unsigned 64-bit
//! range is an arithmetic error, never a silent wrap.  As soon as one
//! operand is a float the whole fold is carried out in double precision on
//! bit patterns.  A lone operand passes through any fold as itself; the
//! empty product is the integer one.  Division with two or more operands
//! always promotes to floats, and a divisor equal to the additive identity
//! (integer `0`, or a float zero of either sign) is a division-by-zero
//! error.

use vstd::prelude::*;
use vstd::string::*;
use crate::numbers::{f64_add, f64_sub, f64_mul, f64_div, f64_lt, f64_le, f64_eq, f64_of_int,
    is_zero_bits, float_add, float_sub, float_mul, float_div, float_lt, float_le, float_eq,
    float_of_int, float_is_zero};
use crate::values::{Value, Val, val_view, vals_view, res_view, Error, lemma_vals_view};

verus! {

/// The three variadic exact/float arithmetic folds.
#[derive(Clone, Copy, Debug, PartialEq, Eq, Structural)]
pub enum ArithOp {
    Add,
    Sub,
    Mul,
}

/// The five pairwise comparisons.
#[derive(Clone, Copy, Debug, PartialEq, Eq, Structural)]
pub enum CmpOp {
    Lt,
    Le,
    Gt,
    Ge,
    Eq,
}

pub open spec fn is_number(v: Val) -> bool {
    v is Int || v is Float
}

pub open spec fn all_numbers(args: Seq<Val>) -> bool {
    forall|i: int| 0 <= i < args.len() ==> is_number(#[trigger] args[i])
}

pub open spec fn any_float(args: Seq<Val>) -> bool {
    exists|i: int| 0 <= i < args.len() && (#[trigger] args[i]) is Float
}

/// The bit pattern a numeric value contributes to a float fold.
pub open spec fn num_bits(v: Val) -> u64 {
    match v {
        Val::Int(i) => f64_of_int(i),
        Val::Float(b) => b,
        _ => 0,
    }
}

/// Is a numeric value the additive identity?
pub open spec fn is_zero_val(v: Val) -> bool {
    match v {
        Val::Int(i) => i == 0,
        Val::Float(b) => is_zero_bits(b),
        _ => false,
    }
}

/// Exact left fold over integer operands; leaving the 64-bit range fails.
pub open spec fn int_fold(op: ArithOp, acc: u64, rest: Seq<Val>) -> Result<u64, Error>
    decreases rest.len(),
{
    if rest.len() == 0 {
        Result::Ok(acc)
    } else {
        let x = rest[0]->Int_0;
        let step: int = match op {
            ArithOp::Add => acc + x,
            ArithOp::Sub => acc - x,
            ArithOp::Mul => acc * x,
        };
        if !(0 <= step <= u64::MAX) {
            Result::Err(Error::IntegerOverflow)
        } else {
            int_fold(op, step as u64, rest.subrange(1, rest.len() as int))
        }
    }
}

/// Double precision left fold over bit patterns.
pub open spec fn float_fold(op: ArithOp, acc: u64, rest: Seq<Val>) -> u64
    decreases rest.len(),
{
    if rest.len() == 0 {
        acc
    } else {
        let b = num_bits(rest[0]);
        let step = match op {
            ArithOp::Add => f64_add(acc, b),
            ArithOp::Sub => f64_sub(acc, b),
            ArithOp::Mul => f64_mul(acc, b),
        };
        float_fold(op, step, rest.subrange(1, rest.len() as int))
    }
}

/// Division fold: always double precision, failing on a zero divisor.
pub open spec fn div_fold(acc: u64, rest: Seq<Val>) -> Result<u64, Error>
    decreases rest.len(),
{
    if rest.len() == 0 {
        Result::Ok(acc)
    } else if is_zero_val(rest[0]) {
        Result::Err(Error::DivisionByZero)
    } else {
        div_fold(f64_div(acc, num_bits(rest[0])), rest.subrange(1, rest.len() as int))
    }
}

/// One comparison of two numbers: exact when both are integers, else in
/// double precision after widening.
pub open spec fn cmp_pair_s(op: CmpOp, a: Val, b: Val) -> bool {
    if a is Int && b is Int {
        let x = a->Int_0;
        let y = b->Int_0;
        match op {
            CmpOp::Lt => x < y,
            CmpOp::Le => x <= y,
            CmpOp::Gt => x > y,
            CmpOp::Ge => x >= y,
            CmpOp::Eq => x == y,
        }
    } else {
        let x = num_bits(a);
        let y = num_bits(b);
        match op {
            CmpOp::Lt => f64_lt(x, y),
            CmpOp::Le => f64_le(x, y),
            CmpOp::Gt => f64_lt(y, x),
            CmpOp::Ge => f64_le(y, x),
            CmpOp::Eq => f64_eq(x, y),
        }
    }
}

/// Pairwise left-to-right comparison chain.
pub open spec fn cmp_chain_s(op: CmpOp, prev: Val, rest: Seq<Val>) -> bool
    decreases rest.len(),
{
    if rest.len() == 0 {
        true
    } else {
        cmp_pair_s(op, prev, rest[0]) && cmp_chain_s(op, rest[0], rest.subrange(
            1,
            rest.len() as int,
        ))
    }
}

/// What an arithmetic primitive returns.
pub open spec fn arith_s(op: ArithOp, args: Seq<Val>) -> Result<Option<Val>, Error> {
    if !all_numbers(args) {
        Result::Err(Error::WrongArgumentType)
    } else if args.len() == 0 {
        match op {
            ArithOp::Mul => Result::Ok(Option::Some(Val::Int(1))),
            _ => Result::Err(Error::WrongArgumentType),
        }
    } else if !any_float(args) {
        match int_fold(op, args[0]->Int_0, args.subrange(1, args.len() as int)) {
            Result::Ok(v) => Result::Ok(Option::Some(Val::Int(v))),
            Result::Err(e) => Result::Err(e),
        }
    } else {
        Result::Ok(
            Option::Some(
                Val::Float(
                    float_fold(op, num_bits(args[0]), args.subrange(1, args.len() as int)),
                ),
            ),
        )
    }
}

/// What the division primitive returns: a lone operand is handed back
/// unchanged, two or more operands fold in double precision.
pub open spec fn division_s(args: Seq<Val>) -> Result<Option<Val>, Error> {
    if args.len() == 0 || !all_numbers(args) {
        Result::Err(Error::WrongArgumentType)
    } else if args.len() == 1 {
        Result::Ok(Option::Some(args[0]))
    } else {
        match div_fold(num_bits(args[0]), args.subrange(1, args.len() as int)) {
            Result::Ok(b) => Result::Ok(Option::Some(Val::Float(b))),
            Result::Err(e) => Result::Err(e),
        }
    }
}

/// What a comparison primitive returns.
pub open spec fn comparison_s(op: CmpOp, args: Seq<Val>) -> Result<Option<Val>, Error> {
    if !all_numbers(args) {
        Result::Err(Error::WrongArgumentType)
    } else if args.len() < 2 {
        Result::Ok(Option::Some(Val::Bool(true)))
    } else {
        Result::Ok(
            Option::Some(
                Val::Bool(cmp_chain_s(op, args[0], args.subrange(1, args.len() as int))),
            ),
        )
    }
}

/// What `car` returns: the head of a non-empty list.
pub open spec fn car_s(args: Seq<Val>) -> Result<Option<Val>, Error> {
    if args.len() != 1 || !(args[0] is List) {
        Result::Err(Error::WrongArgumentType)
    } else if args[0]->List_0.len() == 0 {
        Result::Err(Error::EmptyList)
    } else {
        Result::Ok(Option::Some(args[0]->List_0[0]))
    }
}

/// What `cdr` returns: everything after the head; empty stays empty.
pub open spec fn cdr_s(args: Seq<Val>) -> Result<Option<Val>, Error> {
    if args.len() != 1 || !(args[0] is List) {
        Result::Err(Error::WrongArgumentType)
    } else {
        let l = args[0]->List_0;
        if l.len() == 0 {
            Result::Ok(Option::Some(Val::List(Seq::empty())))
        } else {
            Result::Ok(Option::Some(Val::List(l.subrange(1, l.len() as int))))
        }
    }
}

/// The primitive names.
pub open spec fn is_primitive_s(name: Seq<char>) -> bool {
    ||| name == "+"@
    ||| name == "-"@
    ||| name == "*"@
    ||| name == "/"@
    ||| name == ">"@
    ||| name == "<"@
    ||| name == ">="@
    ||| name == "<="@
    ||| name == "="@
    ||| name == "list"@
    ||| name == "car"@
    ||| name == "cdr"@
}

/// What a primitive returns for already-evaluated arguments.
pub open spec fn apply_prim_s(name: Seq<char>, args: Seq<Val>) -> Result<Option<Val>, Error> {
    if name == "+"@ {
        arith_s(ArithOp::Add, args)
    } else if name == "-"@ {
        arith_s(ArithOp::Sub, args)
    } else if name == "*"@ {
        arith_s(ArithOp::Mul, args)
    } else if name == "/"@ {
        division_s(args)
    } else if name == ">"@ {
        comparison_s(CmpOp::Gt, args)
    } else if name == "<"@ {
        comparison_s(CmpOp::Lt, args)
    } else if name == ">="@ {
        comparison_s(CmpOp::Ge, args)
    } else if name == "<="@ {
        comparison_s(CmpOp::Le, args)
    } else if name == "="@ {
        comparison_s(CmpOp::Eq, args)
    } else if name == "list"@ {
        Result::Ok(Option::Some(Val::List(args)))
    } else if name == "car"@ {
        car_s(args)
    } else if name == "cdr"@ {
        cdr_s(args)
    } else {
        Result::Err(Error::ProcedureNotFound)
    }
}

fn value_num_bits(v: &Value) -> (r: u64)
    ensures
        r == num_bits(val_view(*v)),
{
    match v {
        Value::Integer(i) => float_of_int(*i),
        Value::Float(b) => *b,
        _ => 0,
    }
}

fn value_is_zero(v: &Value) -> (r: bool)
    ensures
        r == is_zero_val(val_view(*v)),
{
    match v {
        Value::Integer(i) => *i == 0,
        Value::Float(b) => float_is_zero(*b),
        _ => false,
    }
}

/// One pass over the arguments: are all numbers, and is any a float?
fn scan_numbers(args: &Vec<Value>) -> (r: (bool, bool))
    ensures
        r.0 == all_numbers(vals_view(args@)),
        r.1 == any_float(vals_view(args@)),
{
    proof {
        lemma_vals_view(args@);
    }
    let ghost avs: Seq<Val> = vals_view(args@);
    let n: usize = args.len();
    let mut allnum: bool = true;
    let mut anyfloat: bool = false;
    let mut i: usize = 0;
    while i < n
        invariant
            i <= n,
            n == args@.len(),
            avs == vals_view(args@),
            avs.len() == n,
            forall|k: int| 0 <= k < n ==> avs[k] == val_view(#[trigger] args@[k]),
            allnum == all_numbers(avs.subrange(0, i as int)),
            anyfloat == any_float(avs.subrange(0, i as int)),
        decreases n - i,
    {
        let isnum: bool = match &args[i] {
            Value::Integer(_) => true,
            Value::Float(_) => true,
            _ => false,
        };
        let isfloat: bool = match &args[i] {
            Value::Float(_) => true,
            _ => false,
        };
        proof {
            let pre = avs.subrange(0, i as int);
            let post = avs.subrange(0, i as int + 1);
            assert(post.drop_last() =~= pre);
            assert(post.last() == avs[i as int]);
            assert((allnum && isnum) == all_numbers(post)) by {
                if allnum && isnum {
                    assert forall|k: int| 0 <= k < post.len() implies is_number(
                        #[trigger] post[k],
                    ) by {
                        if k < i as int {
                            assert(post[k] == pre[k]);
                        }
                    }
                } else if !allnum {
                    let w = choose|k: int| 0 <= k < pre.len() && !is_number(#[trigger] pre[k]);
                    assert(post[w] == pre[w]);
                } else {
                    assert(!is_number(post[i as int]));
                }
            }
            assert((anyfloat || isfloat) == any_float(post)) by {
                if anyfloat {
                    let w = choose|k: int| 0 <= k < pre.len() && (#[trigger] pre[k]) is Float;
                    assert(post[w] == pre[w]);
                } else if isfloat {
                    assert(post[i as int] is Float);
                } else {
                    assert forall|k: int| 0 <= k < post.len() implies !((
                    #[trigger] post[k]) is Float) by {
                        if k < i as int {
                            assert(post[k] == pre[k]);
                        }
                    }
                }
            }
        }
        allnum = allnum && isnum;
        anyfloat = anyfloat || isfloat;
        i = i + 1;
    }
    proof {
        assert(avs.subrange(0, n as int) =~= avs);
    }
    (allnum, anyfloat)
}

/// A variadic `+`, `-` or `*` over already-evaluated arguments.
pub fn arith_prim(op: ArithOp, args: &Vec<Value>) -> (r: Result<Option<Value>, Error>)
    ensures
        res_view(r) == arith_s(op, vals_view(args@)),
{
    proof {
        lemma_vals_view(args@);
    }
    let ghost avs: Seq<Val> = vals_view(args@);
    let n: usize = args.len();
    let sc: (bool, bool) = scan_numbers(args);
    if !sc.0 {
        return Result::Err(Error::WrongArgumentType);
    }
    if n == 0 {
        return match op {
            ArithOp::Mul => Result::Ok(Option::Some(Value::Integer(1))),
            _ => Result::Err(Error::WrongArgumentType),
        };
    }
    if !sc.1 {
        let first: u64 = match &args[0] {
            Value::Integer(x) => *x,
            _ => {
                proof {
                    assert(is_number(avs[0]));
                    assert(!(avs[0] is Float));
                    assert(false);
                }
                0
            },
        };
        let ghost rest: Seq<Val> = avs.subrange(1, n as int);
        let mut acc: u64 = first;
        let mut i: usize = 1;
        while i < n
            invariant
                1 <= i <= n,
                n == args@.len(),
                avs == vals_view(args@),
                avs.len() == n,
                rest == avs.subrange(1, n as int),
                all_numbers(avs),
                !any_float(avs),
                avs[0] == Val::Int(first),
                forall|k: int| 0 <= k < n ==> avs[k] == val_view(#[trigger] args@[k]),
                int_fold(op, acc, avs.subrange(i as int, n as int)) == int_fold(op, first, rest),
            decreases n - i,
        {
            proof {
                assert(avs.subrange(i as int, n as int)[0] == avs[i as int]);
                assert(is_number(avs[i as int]));
                assert(!(avs[i as int] is Float));
            }
            let x: u64 = match &args[i] {
                Value::Integer(x) => *x,
                _ => {
                    proof {
                        assert(false);
                    }
                    0
                },
            };
            proof {
                assert(avs.subrange(i as int, n as int).subrange(
                    1,
                    avs.subrange(i as int, n as int).len() as int,
                ) =~= avs.subrange(i as int + 1, n as int));
            }
            let step: Option<u64> = match op {
                ArithOp::Add => if x <= u64::MAX - acc {
                    Option::Some(acc + x)
                } else {
                    Option::None
                },
                ArithOp::Sub => if x <= acc {
                    Option::Some(acc - x)
                } else {
                    Option::None
                },
                ArithOp::Mul => acc.checked_mul(x),
            };
            match step {
                Option::Some(a2) => {
                    acc = a2;
                },
                Option::None => {
                    proof {
                        assert(int_fold(op, acc, avs.subrange(i as int, n as int))
                            == Result::<u64, Error>::Err(Error::IntegerOverflow));
                    }
                    return Result::Err(Error::IntegerOverflow);
                },
            }
            i = i + 1;
        }
        proof {
            assert(avs.subrange(n as int, n as int) =~= Seq::<Val>::empty());
        }
        Result::Ok(Option::Some(Value::Integer(acc)))
    } else {
        let mut acc: u64 = value_num_bits(&args[0]);
        let ghost rest: Seq<Val> = avs.subrange(1, n as int);
        let mut i: usize = 1;
        while i < n
            invariant
                1 <= i <= n,
                n == args@.len(),
                avs == vals_view(args@),
                avs.len() == n,
                rest == avs.subrange(1, n as int),
                forall|k: int| 0 <= k < n ==> avs[k] == val_view(#[trigger] args@[k]),
                float_fold(op, acc, avs.subrange(i as int, n as int)) == float_fold(
                    op,
                    num_bits(avs[0]),
                    rest,
                ),
            decreases n - i,
        {
            proof {
                assert(avs.subrange(i as int, n as int)[0] == avs[i as int]);
                assert(avs.subrange(i as int, n as int).subrange(
                    1,
                    avs.subrange(i as int, n as int).len() as int,
                ) =~= avs.subrange(i as int + 1, n as int));
            }
            let b: u64 = value_num_bits(&args[i]);
            acc = match op {
                ArithOp::Add => float_add(acc, b),
                ArithOp::Sub => float_sub(acc, b),
                ArithOp::Mul => float_mul(acc, b),
            };
            i = i + 1;
        }
        proof {
            assert(avs.subrange(n as int, n as int) =~= Seq::<Val>::empty());
        }
        Result::Ok(Option::Some(Value::Float(acc)))
    }
}

/// The variadic `/`, always in double precision.
pub fn division_prim(args: &Vec<Value>) -> (r: Result<Option<Value>, Error>)
    ensures
        res_view(r) == division_s(vals_view(args@)),
{
    proof {
        lemma_vals_view(args@);
    }
    let ghost avs: Seq<Val> = vals_view(args@);
    let n: usize = args.len();
    let sc: (bool, bool) = scan_numbers(args);
    if n == 0 || !sc.0 {
        return Result::Err(Error::WrongArgumentType);
    }
    if n == 1 {
        return Result::Ok(Option::Some(args[0].duplicate()));
    }
    let mut acc: u64 = value_num_bits(&args[0]);
    let ghost rest: Seq<Val> = avs.subrange(1, n as int);
    let mut i: usize = 1;
    while i < n
        invariant
            1 <= i <= n,
            n == args@.len(),
            avs == vals_view(args@),
            avs.len() == n,
            rest == avs.subrange(1, n as int),
            all_numbers(avs),
            forall|k: int| 0 <= k < n ==> avs[k] == val_view(#[trigger] args@[k]),
            div_fold(acc, avs.subrange(i as int, n as int)) == div_fold(num_bits(avs[0]), rest),
        decreases n - i,
    {
        proof {
            assert(avs.subrange(i as int, n as int)[0] == avs[i as int]);
            assert(avs.subrange(i as int, n as int).subrange(
                1,
                avs.subrange(i as int, n as int).len() as int,
            ) =~= avs.subrange(i as int + 1, n as int));
        }
        if value_is_zero(&args[i]) {
            proof {
                assert(div_fold(acc, avs.subrange(i as int, n as int)) == Result::<
                    u64,
                    Error,
                >::Err(Error::DivisionByZero));
            }
            return Result::Err(Error::DivisionByZero);
        }
        acc = float_div(acc, value_num_bits(&args[i]));
        i = i + 1;
    }
    proof {
        assert(avs.subrange(n as int, n as int) =~= Seq::<Val>::empty());
    }
    Result::Ok(Option::Some(Value::Float(acc)))
}

fn cmp_pair(op: CmpOp, a: &Value, b: &Value) -> (r: bool)
    ensures
        r == cmp_pair_s(op, val_view(*a), val_view(*b)),
{
    match (a, b) {
        (Value::Integer(x), Value::Integer(y)) => match op {
            CmpOp::Lt => *x < *y,
            CmpOp::Le => *x <= *y,
            CmpOp::Gt => *x > *y,
            CmpOp::Ge => *x >= *y,
            CmpOp::Eq => *x == *y,
        },
        _ => {
            let x: u64 = value_num_bits(a);
            let y: u64 = value_num_bits(b);
            match op {
                CmpOp::Lt => float_lt(x, y),
                CmpOp::Le => float_le(x, y),
                CmpOp::Gt => float_lt(y, x),
                CmpOp::Ge => float_le(y, x),
                CmpOp::Eq => float_eq(x, y),
            }
        },
    }
}

/// A pairwise comparison chain over already-evaluated arguments.
pub fn comparison_prim(op: CmpOp, args: &Vec<Value>) -> (r: Result<Option<Value>, Error>)
    ensures
        res_view(r) == comparison_s(op, vals_view(args@)),
{
    proof {
        lemma_vals_view(args@);
    }
    let ghost avs: Seq<Val> = vals_view(args@);
    let n: usize = args.len();
    let sc: (bool, bool) = scan_numbers(args);
    if !sc.0 {
        return Result::Err(Error::WrongArgumentType);
    }
    if n < 2 {
        return Result::Ok(Option::Some(Value::Boolean(true)));
    }
    let ghost rest: Seq<Val> = avs.subrange(1, n as int);
    let mut ok: bool = true;
    let mut i: usize = 1;
    while i < n
        invariant
            1 <= i <= n,
            n == args@.len(),
            avs == vals_view(args@),
            avs.len() == n,
            rest == avs.subrange(1, n as int),
            forall|k: int| 0 <= k < n ==> avs[k] == val_view(#[trigger] args@[k]),
            (ok && cmp_chain_s(op, avs[i - 1], avs.subrange(i as int, n as int))) == cmp_chain_s(
                op,
                avs[0],
                rest,
            ),
        decreases n - i,
    {
        proof {
            assert(avs.subrange(i as int, n as int)[0] == avs[i as int]);
            assert(avs.subrange(i as int, n as int).subrange(
                1,
                avs.subrange(i as int, n as int).len() as int,
            ) =~= avs.subrange(i as int + 1, n as int));
        }
        let p: bool = cmp_pair(op, &args[i - 1], &args[i]);
        ok = ok && p;
        i = i + 1;
    }
    proof {
        assert(avs.subrange(n as int, n as int) =~= Seq::<Val>::empty());
    }
    Result::Ok(Option::Some(Value::Boolean(ok)))
}

/// `car`: the first element of a non-empty list argument.
pub fn car_prim(args: Vec<Value>) -> (r: Result<Option<Value>, Error>)
    ensures
        res_view(r) == car_s(vals_view(args@)),
{
    proof {
        lemma_vals_view(args@);
    }
    let mut args = args;
    if args.len() != 1 {
        return Result::Err(Error::WrongArgumentType);
    }
    let head: Value = args.remove(0);
    match head {
        Value::List(items) => {
            let mut items = items;
            proof {
                lemma_vals_view(items@);
            }
            if items.len() == 0 {
                Result::Err(Error::EmptyList)
            } else {
                Result::Ok(Option::Some(items.remove(0)))
            }
        },
        _ => Result::Err(Error::WrongArgumentType),
    }
}

/// `cdr`: everything after the head of a list argument.
pub fn cdr_prim(args: Vec<Value>) -> (r: Result<Option<Value>, Error>)
    ensures
        res_view(r) == cdr_s(vals_view(args@)),
{
    proof {
        lemma_vals_view(args@);
    }
    let mut args = args;
    if args.len() != 1 {
        return Result::Err(Error::WrongArgumentType);
    }
    let head: Value = args.remove(0);
    match head {
        Value::List(items) => {
            let mut items = items;
            let ghost l0: Seq<Val> = vals_view(items@);
            proof {
                lemma_vals_view(items@);
            }
            if items.len() == 0 {
                proof {
                    assert(vals_view(items@) =~= Seq::<Val>::empty());
                }
                Result::Ok(Option::Some(Value::List(items)))
            } else {
                let _first: Value = items.remove(0);
                proof {
                    lemma_vals_view(items@);
                    assert forall|k: int| 0 <= k < items@.len() implies vals_view(items@)[k]
                        == l0.subrange(1, l0.len() as int)[k] by {}
                    assert(vals_view(items@) =~= l0.subrange(1, l0.len() as int));
                }
                Result::Ok(Option::Some(Value::List(items)))
            }
        },
        _ => Result::Err(Error::WrongArgumentType),
    }
}

/// Does a name denote a primitive procedure?
pub fn is_primitive(name: &String) -> (r: bool)
    ensures
        r == is_primitive_s(name@),
{
    name.eq(&String::from_str("+")) || name.eq(&String::from_str("-")) || name.eq(
        &String::from_str("*"),
    ) || name.eq(&String::from_str("/")) || name.eq(&String::from_str(">")) || name.eq(
        &String::from_str("<"),
    ) || name.eq(&String::from_str(">=")) || name.eq(&String::from_str("<=")) || name.eq(
        &String::from_str("="),
    ) || name.eq(&String::from_str("list")) || name.eq(&String::from_str("car")) || name.eq(
        &String::from_str("cdr"),
    )
}

/// Apply the named primitive to already-evaluated arguments.
pub fn apply_primitive(name: &String, args: Vec<Value>) -> (r: Result<Option<Value>, Error>)
    ensures
        res_view(r) == apply_prim_s(name@, vals_view(args@)),
{
    if name.eq(&String::from_str("+")) {
        arith_prim(ArithOp::Add, &args)
    } else if name.eq(&String::from_str("-")) {
        arith_prim(ArithOp::Sub, &args)
    } else if name.eq(&String::from_str("*")) {
        arith_prim(ArithOp::Mul, &args)
    } else if name.eq(&String::from_str("/")) {
        division_prim(&args)
    } else if name.eq(&String::from_str(">")) {
        comparison_prim(CmpOp::Gt, &args)
    } else if name.eq(&String::from_str("<")) {
        comparison_prim(CmpOp::Lt, &args)
    } else if name.eq(&String::from_str(">=")) {
        comparison_prim(CmpOp::Ge, &args)
    } else if name.eq(&String::from_str("<=")) {
        comparison_prim(CmpOp::Le, &args)
    } else if name.eq(&String::from_str("=")) {
        comparison_prim(CmpOp::Eq, &args)
    } else if name.eq(&String::from_str("list")) {
        Result::Ok(Option::Some(Value::List(args)))
    } else if name.eq(&String::from_str("car")) {
        car_prim(args)
    } else if name.eq(&String::from_str("cdr")) {
        cdr_prim(args)
    } else {
        Result::Err(Error::ProcedureNotFound)
    }
}

} // verus!

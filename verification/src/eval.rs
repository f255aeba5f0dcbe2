//! The evaluator: special forms, procedure calls and closures.
//!
//! Evaluation is given a depth budget (`fuel`): every nested evaluation step
//! spends one unit, and evaluation that runs out reports
//! `Error::DepthExceeded` instead of exhausting the machine stack.

use vstd::prelude::*;
use crate::builtins::{apply_builtin, apply_builtin_exec, is_truthy, list, truthy};
use crate::env::{Env, SEnv, define, lookup, new_frame, set_var};
use crate::error::{Error, SError};
use crate::text::text_is;
use crate::value::{SValue, Value, group_value_views, name_views, views};

verus! {

/// The model of an evaluation result.
pub open spec fn rv(r: Result<Value, Error>) -> Result<SValue, SError> {
    match r {
        Ok(v) => Ok(v@),
        Err(e) => Err(e@),
    }
}

/// The names of a sequence of symbols; `None` if one of them is not a symbol.
pub open spec fn symbol_names(s: Seq<SValue>) -> Option<Seq<Seq<char>>>
    decreases s.len(),
{
    if s.len() == 0 {
        Some(seq![])
    } else {
        match symbol_names(s.drop_last()) {
            Some(ns) => match s.last() {
                SValue::Symbol(n) => Some(ns.push(n)),
                _ => None,
            },
            None => None,
        }
    }
}

/// `env` after binding `params[i..]` to `args[i..]` in frame `f`, in order.
pub open spec fn bind_params(env: SEnv, f: nat, params: Seq<Seq<char>>, args: Seq<SValue>, i: nat) -> SEnv
    decreases params.len() - i,
{
    if i >= params.len() || i >= args.len() {
        env
    } else {
        bind_params(define(env, f, params[i as int], args[i as int]), f, params, args, i + 1)
    }
}

/// The value of `e` in frame `f` of `env` with depth budget `fuel`, and the
/// environment after the evaluation.
pub open spec fn sem_eval(fuel: nat, e: SValue, f: nat, env: SEnv) -> (Result<SValue, SError>, SEnv)
    decreases fuel, 0nat, 0nat,
{
    if fuel == 0 {
        (Err(SError::DepthExceeded), env)
    } else {
        let fu = (fuel - 1) as nat;
        match e {
            SValue::Symbol(name) => (
                match lookup(env, f, name) {
                    Some(v) => Ok(v),
                    None => Err(SError::UndefinedVariable(name)),
                },
                env,
            ),
            SValue::List(elems) => if elems.len() == 0 {
                (Ok(SValue::Nil), env)
            } else {
                match elems[0] {
                    SValue::Symbol(op) => if op == "quote"@ {
                        (sem_quote(elems), env)
                    } else if op == "if"@ {
                        sem_if(fu, elems, f, env)
                    } else if op == "def"@ {
                        sem_define(fu, elems, f, env)
                    } else if op == "lambda"@ {
                        (sem_lambda(elems, f), env)
                    } else if op == "begin"@ {
                        sem_begin_from(fu, elems, 1, f, env, SValue::Nil)
                    } else if op == "set!"@ {
                        sem_set(fu, elems, f, env)
                    } else if op == "cond"@ {
                        sem_cond_from(fu, elems, 1, f, env)
                    } else if op == "let"@ {
                        sem_let(fu, elems, f, env)
                    } else if op == "and"@ {
                        sem_and_from(fu, elems, 1, f, env, SValue::Bool(true))
                    } else if op == "or"@ {
                        sem_or_from(fu, elems, 1, f, env)
                    } else {
                        sem_call(fu, elems, f, env)
                    },
                    _ => sem_call(fu, elems, f, env),
                }
            },
            _ => (Ok(e), env),
        }
    }
}

/// `(quote d)`: `d`, unevaluated.
pub open spec fn sem_quote(elems: Seq<SValue>) -> Result<SValue, SError> {
    if elems.len() != 2 {
        Err(SError::QuoteArity)
    } else {
        Ok(elems[1])
    }
}

/// `(lambda params body...)`: a closure over frame `f`.
pub open spec fn sem_lambda(elems: Seq<SValue>, f: nat) -> Result<SValue, SError> {
    if elems.len() < 3 {
        Err(SError::LambdaArity)
    } else {
        match elems[1] {
            SValue::List(ps) => match symbol_names(ps) {
                Some(names) => Ok(SValue::Closure { params: names, body: elems.subrange(2, elems.len() as int), env: f }),
                None => Err(SError::LambdaParamNotSymbol),
            },
            SValue::Nil => Ok(SValue::Closure { params: seq![], body: elems.subrange(2, elems.len() as int), env: f }),
            _ => Err(SError::LambdaParamsNotList),
        }
    }
}

/// Evaluates `es[i..]` in order; the value of the last one (`acc` if none is left).
pub open spec fn sem_begin_from(fuel: nat, es: Seq<SValue>, i: nat, f: nat, env: SEnv, acc: SValue) -> (Result<SValue, SError>, SEnv)
    decreases fuel, 1nat, es.len() - i,
{
    if i >= es.len() {
        (Ok(acc), env)
    } else {
        let p = sem_eval(fuel, es[i as int], f, env);
        match p.0 {
            Err(e) => (Err(e), p.1),
            Ok(v) => sem_begin_from(fuel, es, i + 1, f, p.1, v),
        }
    }
}

/// `(if c a b)`: `a` when `c` is truthy, else `b` (`()` without `b`).
pub open spec fn sem_if(fuel: nat, elems: Seq<SValue>, f: nat, env: SEnv) -> (Result<SValue, SError>, SEnv)
    decreases fuel, 2nat, 0nat,
{
    if elems.len() < 3 {
        (Err(SError::IfArity), env)
    } else {
        let p = sem_eval(fuel, elems[1], f, env);
        match p.0 {
            Err(e) => (Err(e), p.1),
            Ok(c) => if truthy(c) {
                sem_eval(fuel, elems[2], f, p.1)
            } else if elems.len() > 3 {
                sem_eval(fuel, elems[3], f, p.1)
            } else {
                (Ok(SValue::Nil), p.1)
            },
        }
    }
}

/// `(def name e)` binds the value of `e`; `(def (name params...) body...)`
/// binds a closure over frame `f`. Both return the name as a symbol.
pub open spec fn sem_define(fuel: nat, elems: Seq<SValue>, f: nat, env: SEnv) -> (Result<SValue, SError>, SEnv)
    decreases fuel, 2nat, 0nat,
{
    if elems.len() < 2 {
        (Err(SError::DefMissingTarget), env)
    } else {
        match elems[1] {
            SValue::Symbol(name) => if elems.len() != 3 {
                (Err(SError::DefRequiresValue), env)
            } else {
                let p = sem_eval(fuel, elems[2], f, env);
                match p.0 {
                    Err(e) => (Err(e), p.1),
                    Ok(v) => (Ok(SValue::Symbol(name)), define(p.1, f, name, v)),
                }
            },
            SValue::List(header) => if header.len() == 0 {
                (Err(SError::DefEmptyName), env)
            } else {
                match header[0] {
                    SValue::Symbol(name) => match symbol_names(header.drop_first()) {
                        Some(params) => (
                            Ok(SValue::Symbol(name)),
                            define(env, f, name, SValue::Closure {
                                params,
                                body: elems.subrange(2, elems.len() as int),
                                env: f,
                            }),
                        ),
                        None => (Err(SError::DefParamNotSymbol), env),
                    },
                    _ => (Err(SError::DefNameNotSymbol), env),
                }
            },
            _ => (Err(SError::DefBadTarget), env),
        }
    }
}

/// `(set! name e)`: assigns the value of `e` to the nearest binding of `name`.
pub open spec fn sem_set(fuel: nat, elems: Seq<SValue>, f: nat, env: SEnv) -> (Result<SValue, SError>, SEnv)
    decreases fuel, 2nat, 0nat,
{
    if elems.len() != 3 {
        (Err(SError::SetArity), env)
    } else {
        match elems[1] {
            SValue::Symbol(name) => {
                let p = sem_eval(fuel, elems[2], f, env);
                match p.0 {
                    Err(e) => (Err(e), p.1),
                    Ok(v) => match set_var(p.1, f, name, v) {
                        Some(env2) => (Ok(SValue::Nil), env2),
                        None => (Err(SError::SetUndefined(name)), p.1),
                    },
                }
            },
            _ => (Err(SError::SetNotSymbol), env),
        }
    }
}

/// The clauses `elems[i..]` of a `cond`: the body of the first whose test is
/// `else` or truthy (`()` if none is).
pub open spec fn sem_cond_from(fuel: nat, elems: Seq<SValue>, i: nat, f: nat, env: SEnv) -> (Result<SValue, SError>, SEnv)
    decreases fuel, 2nat, elems.len() - i,
{
    if i >= elems.len() {
        (Ok(SValue::Nil), env)
    } else {
        match elems[i as int] {
            SValue::List(parts) => if parts.len() >= 2 {
                if parts[0] == SValue::Symbol("else"@) {
                    sem_begin_from(fuel, parts, 1, f, env, SValue::Nil)
                } else {
                    let p = sem_eval(fuel, parts[0], f, env);
                    match p.0 {
                        Err(e) => (Err(e), p.1),
                        Ok(c) => if truthy(c) {
                            sem_begin_from(fuel, parts, 1, f, p.1, SValue::Nil)
                        } else {
                            sem_cond_from(fuel, elems, i + 1, f, p.1)
                        },
                    }
                }
            } else {
                (Err(SError::CondInvalidClause), env)
            },
            _ => (Err(SError::CondInvalidClause), env),
        }
    }
}

/// `(let ((name e)...) body...)`: a new frame under `f` binding each name to
/// the value of its expression (evaluated in `f`), then the body in it.
pub open spec fn sem_let(fuel: nat, elems: Seq<SValue>, f: nat, env: SEnv) -> (Result<SValue, SError>, SEnv)
    decreases fuel, 3nat, 0nat,
{
    if elems.len() < 3 {
        (Err(SError::LetArity), env)
    } else {
        match elems[1] {
            SValue::List(bs) => sem_let_bind(fuel, bs, 0, f, env.frames.len(), new_frame(env, f), elems),
            SValue::Nil => sem_begin_from(fuel, elems, 2, f, env, SValue::Nil),
            _ => (Err(SError::LetBindingsNotList), env),
        }
    }
}

/// The bindings `bs[i..]` of a `let` whose new frame is `nf`, then its body.
pub open spec fn sem_let_bind(
    fuel: nat,
    bs: Seq<SValue>,
    i: nat,
    outer: nat,
    nf: nat,
    env: SEnv,
    elems: Seq<SValue>,
) -> (Result<SValue, SError>, SEnv)
    decreases fuel, 2nat, bs.len() - i,
{
    if i >= bs.len() {
        sem_begin_from(fuel, elems, 2, nf, env, SValue::Nil)
    } else {
        match bs[i as int] {
            SValue::List(pair) => if pair.len() == 2 {
                match pair[0] {
                    SValue::Symbol(name) => {
                        let p = sem_eval(fuel, pair[1], outer, env);
                        match p.0 {
                            Err(e) => (Err(e), p.1),
                            Ok(v) => sem_let_bind(fuel, bs, i + 1, outer, nf, define(p.1, nf, name, v), elems),
                        }
                    },
                    _ => (Err(SError::LetNameNotSymbol), env),
                }
            } else {
                (Err(SError::LetInvalidBinding), env)
            },
            _ => (Err(SError::LetInvalidBinding), env),
        }
    }
}

/// `(and e...)` from `elems[i]` on: `#f` at the first falsy value, else the
/// last value (`acc` if none is left).
pub open spec fn sem_and_from(fuel: nat, elems: Seq<SValue>, i: nat, f: nat, env: SEnv, acc: SValue) -> (Result<SValue, SError>, SEnv)
    decreases fuel, 2nat, elems.len() - i,
{
    if i >= elems.len() {
        (Ok(acc), env)
    } else {
        let p = sem_eval(fuel, elems[i as int], f, env);
        match p.0 {
            Err(e) => (Err(e), p.1),
            Ok(v) => if !truthy(v) {
                (Ok(SValue::Bool(false)), p.1)
            } else {
                sem_and_from(fuel, elems, i + 1, f, p.1, v)
            },
        }
    }
}

/// `(or e...)` from `elems[i]` on: the first truthy value, else `#f`.
pub open spec fn sem_or_from(fuel: nat, elems: Seq<SValue>, i: nat, f: nat, env: SEnv) -> (Result<SValue, SError>, SEnv)
    decreases fuel, 2nat, elems.len() - i,
{
    if i >= elems.len() {
        (Ok(SValue::Bool(false)), env)
    } else {
        let p = sem_eval(fuel, elems[i as int], f, env);
        match p.0 {
            Err(e) => (Err(e), p.1),
            Ok(v) => if truthy(v) {
                (Ok(v), p.1)
            } else {
                sem_or_from(fuel, elems, i + 1, f, p.1)
            },
        }
    }
}

/// The values of `elems[i..]`, evaluated in order after `acc`.
pub open spec fn sem_args_from(fuel: nat, elems: Seq<SValue>, i: nat, f: nat, env: SEnv, acc: Seq<SValue>) -> (Result<Seq<SValue>, SError>, SEnv)
    decreases fuel, 2nat, elems.len() - i,
{
    if i >= elems.len() {
        (Ok(acc), env)
    } else {
        let p = sem_eval(fuel, elems[i as int], f, env);
        match p.0 {
            Err(e) => (Err(e), p.1),
            Ok(v) => sem_args_from(fuel, elems, i + 1, f, p.1, acc.push(v)),
        }
    }
}

/// A call: the operator and the operands evaluated in order, then the application.
pub open spec fn sem_call(fuel: nat, elems: Seq<SValue>, f: nat, env: SEnv) -> (Result<SValue, SError>, SEnv)
    decreases fuel, 3nat, 0nat,
{
    let p = sem_eval(fuel, elems[0], f, env);
    match p.0 {
        Err(e) => (Err(e), p.1),
        Ok(func) => {
            let q = sem_args_from(fuel, elems, 1, f, p.1, seq![]);
            match q.0 {
                Err(e) => (Err(e), q.1),
                Ok(args) => sem_apply(fuel, func, args, q.1),
            }
        },
    }
}

/// Applying `func` to `args`: a closure runs its body in a new frame under the
/// frame it captured, with its parameters bound to the arguments; `map` and
/// `apply` apply their first argument one level deeper; another builtin runs;
/// anything else is not a function.
pub open spec fn sem_apply(fuel: nat, func: SValue, args: Seq<SValue>, env: SEnv) -> (Result<SValue, SError>, SEnv)
    decreases fuel, 2nat, 0nat,
{
    match func {
        SValue::Closure { params, body, env: captured } => if params.len() != args.len() {
            (Err(SError::ArgCount(params.len(), args.len())), env)
        } else {
            let nf = env.frames.len();
            sem_begin_from(fuel, body, 0, nf, bind_params(new_frame(env, captured), nf, params, args, 0), SValue::Nil)
        },
        SValue::Builtin(name) => if name == "map"@ {
            if args.len() != 2 {
                (Err(SError::MapArity), env)
            } else {
                match args[1] {
                    SValue::Nil => (Ok(SValue::Nil), env),
                    SValue::List(items) => sem_map_from(fuel, args[0], items, 0, env, seq![]),
                    _ => (Err(SError::MapNotList), env),
                }
            }
        } else if name == "apply"@ {
            if args.len() != 2 {
                (Err(SError::ApplyArity), env)
            } else {
                match args[1] {
                    SValue::Nil => if fuel == 0 {
                        (Err(SError::DepthExceeded), env)
                    } else {
                        sem_apply((fuel - 1) as nat, args[0], seq![], env)
                    },
                    SValue::List(items) => if fuel == 0 {
                        (Err(SError::DepthExceeded), env)
                    } else {
                        sem_apply((fuel - 1) as nat, args[0], items, env)
                    },
                    _ => (Err(SError::ApplyNotList), env),
                }
            }
        } else {
            apply_builtin(name, args, env)
        },
        _ => (Err(SError::NotAFunction(func)), env),
    }
}

/// `map` of `func` over `items[i..]`, after the results `acc`: `func` applied
/// to each item in order, one level deeper; the results as a list.
pub open spec fn sem_map_from(fuel: nat, func: SValue, items: Seq<SValue>, i: nat, env: SEnv, acc: Seq<SValue>) -> (Result<SValue, SError>, SEnv)
    decreases fuel, 1nat, items.len() - i,
{
    if i >= items.len() {
        (Ok(list(acc)), env)
    } else if fuel == 0 {
        (Err(SError::DepthExceeded), env)
    } else {
        let p = sem_apply((fuel - 1) as nat, func, seq![items[i as int]], env);
        match p.0 {
            Err(e) => (Err(e), p.1),
            Ok(v) => sem_map_from(fuel, func, items, i + 1, p.1, acc.push(v)),
        }
    }
}

// ---------------------------------------------------------------- exec

/// The names of `vs` if all of them are symbols.
fn symbol_names_exec(vs: &[Value]) -> (r: Option<Vec<String>>)
    ensures
        match r {
            Some(ns) => symbol_names(views(vs@)) == Some(name_views(ns@)),
            None => symbol_names(views(vs@)) == None::<Seq<Seq<char>>>,
        },
{
    let ghost sv = views(vs@);
    let mut out: Vec<String> = Vec::new();
    let mut i: usize = 0;
    while i < vs.len()
        invariant
            i <= vs@.len(),
            sv == views(vs@),
            symbol_names(sv.take(i as int)) == Some(name_views(out@)),
        decreases vs@.len() - i,
    {
        let ghost t = sv.take(i + 1);
        assert(t.drop_last() =~= sv.take(i as int));
        assert(t.last() == vs@[i as int]@);
        match &vs[i] {
            Value::Symbol(n) => {
                let ghost before = name_views(out@);
                out.push(n.clone());
                assert(name_views(out@) =~= before.push(n@));
            },
            _ => {
                proof {
                    lemma_symbol_names_prefix(sv, (i + 1) as nat);
                }
                return None;
            },
        }
        i = i + 1;
    }
    assert(sv.take(vs@.len() as int) =~= sv);
    Some(out)
}

/// If a prefix of `s` has a non-symbol, `s` has no names.
proof fn lemma_symbol_names_prefix(s: Seq<SValue>, n: nat)
    requires
        n <= s.len(),
        symbol_names(s.take(n as int)) is None,
    ensures
        symbol_names(s) is None,
    decreases s.len() - n,
{
    if n < s.len() {
        let t = s.take(n + 1int);
        assert(t.drop_last() =~= s.take(n as int));
        lemma_symbol_names_prefix(s, n + 1);
    } else {
        assert(s.take(n as int) =~= s);
    }
}

/// Copies of `vs[from..]`.
fn copy_tail(vs: &[Value], from: usize) -> (r: Vec<Value>)
    requires
        from <= vs@.len(),
    ensures
        views(r@) == views(vs@).subrange(from as int, vs@.len() as int),
{
    let mut out: Vec<Value> = Vec::new();
    let mut i = from;
    while i < vs.len()
        invariant
            from <= i <= vs@.len(),
            views(out@) == views(vs@).subrange(from as int, i as int),
        decreases vs@.len() - i,
    {
        let ghost before = views(out@);
        out.push(vs[i].copy());
        assert(views(out@) =~= before.push(vs@[i as int]@));
        assert(views(vs@).subrange(from as int, i + 1) =~= views(vs@).subrange(from as int, i as int).push(vs@[i as int]@));
        i = i + 1;
    }
    out
}

/// A closure with parameters `params`, body `elems[2..]`, over frame `frame`.
fn make_closure(params: Vec<String>, elems: &[Value], frame: usize) -> (r: Value)
    requires
        2 <= elems@.len(),
    ensures
        r@ == (SValue::Closure {
            params: name_views(params@),
            body: views(elems@).subrange(2, elems@.len() as int),
            env: frame as nat,
        }),
{
    let body = copy_tail(elems, 2);
    proof {
        crate::value::lemma_closure_view(params, body, frame);
    }
    Value::Closure { params, body, env: frame }
}

/// The value of `expr` in frame `frame` of `env`, spending at most `fuel`
/// levels of nesting.
pub fn eval(expr: &Value, frame: usize, env: &mut Env, fuel: u64) -> (r: Result<Value, Error>)
    ensures
        (rv(r), final(env)@) == sem_eval(fuel as nat, expr@, frame as nat, old(env)@),
    decreases fuel, 0nat,
{
    if fuel == 0 {
        return Err(Error::DepthExceeded);
    }
    let fu = fuel - 1;
    match expr {
        Value::Number(n) => Ok(Value::Number(n.copy())),
        Value::Str(s) => Ok(Value::Str(s.clone())),
        Value::Bool(b) => Ok(Value::Bool(*b)),
        Value::Nil => Ok(Value::Nil),
        Value::Symbol(name) => env.lookup(frame, name),
        Value::List(elems) => {
            proof {
                crate::value::lemma_list_view(*elems);
            }
            if elems.len() == 0 {
                return Ok(Value::Nil);
            }
            let es = elems.as_slice();
            assert(views(es@)[0] == es@[0]@);
            match &es[0] {
                Value::Symbol(op) => {
                    if text_is(op, "quote") {
                        eval_quote(es)
                    } else if text_is(op, "if") {
                        eval_if(es, frame, env, fu)
                    } else if text_is(op, "def") {
                        eval_define(es, frame, env, fu)
                    } else if text_is(op, "lambda") {
                        eval_lambda(es, frame)
                    } else if text_is(op, "begin") {
                        eval_body(es, 1, frame, env, fu)
                    } else if text_is(op, "set!") {
                        eval_set(es, frame, env, fu)
                    } else if text_is(op, "cond") {
                        eval_cond(es, frame, env, fu)
                    } else if text_is(op, "let") {
                        eval_let(es, frame, env, fu)
                    } else if text_is(op, "and") {
                        eval_and(es, frame, env, fu)
                    } else if text_is(op, "or") {
                        eval_or(es, frame, env, fu)
                    } else {
                        eval_call(es, frame, env, fu)
                    }
                },
                _ => eval_call(es, frame, env, fu),
            }
        },
        Value::Closure { .. } => Ok(expr.copy()),
        Value::BuiltinFunc(name) => Ok(Value::BuiltinFunc(name.clone())),
    }
}

/// `(quote d)`.
pub fn eval_quote(elems: &[Value]) -> (r: Result<Value, Error>)
    ensures
        rv(r) == sem_quote(views(elems@)),
{
    if elems.len() != 2 {
        return Err(Error::QuoteArity);
    }
    assert(views(elems@)[1] == elems@[1]@);
    Ok(elems[1].copy())
}

/// `(lambda params body...)` in frame `frame`.
pub fn eval_lambda(elems: &[Value], frame: usize) -> (r: Result<Value, Error>)
    ensures
        rv(r) == sem_lambda(views(elems@), frame as nat),
{
    broadcast use group_value_views;
    if elems.len() < 3 {
        return Err(Error::LambdaArity);
    }
    assert(views(elems@)[1] == elems@[1]@);
    match &elems[1] {
        Value::List(ps) => {
            proof {
                crate::value::lemma_list_view(*ps);
            }
            match symbol_names_exec(ps.as_slice()) {
                Some(names) => Ok(make_closure(names, elems, frame)),
                None => Err(Error::LambdaParamNotSymbol),
            }
        },
        Value::Nil => {
            let names: Vec<String> = Vec::new();
            assert(name_views(names@) =~= seq![]);
            Ok(make_closure(names, elems, frame))
        },
        _ => Err(Error::LambdaParamsNotList),
    }
}

/// Evaluates `exprs[start..]` in order in frame `frame`; the value of the
/// last (`()` if there is none).
pub fn eval_body(exprs: &[Value], start: usize, frame: usize, env: &mut Env, fuel: u64) -> (r: Result<Value, Error>)
    ensures
        (rv(r), final(env)@) == sem_begin_from(fuel as nat, views(exprs@), start as nat, frame as nat, old(env)@, SValue::Nil),
    decreases fuel, 1nat,
{
    let ghost es = views(exprs@);
    let mut result = Value::Nil;
    let mut i = start;
    while i < exprs.len()
        invariant
            es == views(exprs@),
            sem_begin_from(fuel as nat, es, start as nat, frame as nat, old(env)@, SValue::Nil)
                == sem_begin_from(fuel as nat, es, i as nat, frame as nat, env@, result@),
        decreases exprs@.len() - i,
    {
        assert(es[i as int] == exprs@[i as int]@);
        match eval(&exprs[i], frame, env, fuel) {
            Err(e) => {
                return Err(e);
            },
            Ok(v) => {
                result = v;
            },
        }
        i = i + 1;
    }
    Ok(result)
}

/// `(if c a b)`.
pub fn eval_if(elems: &[Value], frame: usize, env: &mut Env, fuel: u64) -> (r: Result<Value, Error>)
    ensures
        (rv(r), final(env)@) == sem_if(fuel as nat, views(elems@), frame as nat, old(env)@),
    decreases fuel, 2nat,
{
    if elems.len() < 3 {
        return Err(Error::IfArity);
    }
    assert(views(elems@)[1] == elems@[1]@);
    assert(views(elems@)[2] == elems@[2]@);
    let c = eval(&elems[1], frame, env, fuel)?;
    if is_truthy(&c) {
        eval(&elems[2], frame, env, fuel)
    } else if elems.len() > 3 {
        assert(views(elems@)[3] == elems@[3]@);
        eval(&elems[3], frame, env, fuel)
    } else {
        Ok(Value::Nil)
    }
}

/// `(def name e)` and `(def (name params...) body...)`.
pub fn eval_define(elems: &[Value], frame: usize, env: &mut Env, fuel: u64) -> (r: Result<Value, Error>)
    ensures
        (rv(r), final(env)@) == sem_define(fuel as nat, views(elems@), frame as nat, old(env)@),
    decreases fuel, 2nat,
{
    broadcast use group_value_views;
    if elems.len() < 2 {
        return Err(Error::DefMissingTarget);
    }
    assert(views(elems@)[1] == elems@[1]@);
    match &elems[1] {
        Value::Symbol(name) => {
            if elems.len() != 3 {
                return Err(Error::DefRequiresValue);
            }
            assert(views(elems@)[2] == elems@[2]@);
            let v = eval(&elems[2], frame, env, fuel)?;
            env.define(frame, name.clone(), v);
            Ok(Value::Symbol(name.clone()))
        },
        Value::List(header) => {
            proof {
                crate::value::lemma_list_view(*header);
            }
            if header.len() == 0 {
                return Err(Error::DefEmptyName);
            }
            assert(views(header@)[0] == header@[0]@);
            let name = match &header[0] {
                Value::Symbol(s) => s.clone(),
                _ => {
                    return Err(Error::DefNameNotSymbol);
                },
            };
            let params_src = &header.as_slice()[1..header.len()];
            assert(views(params_src@) =~= views(header@).drop_first());
            let params = match symbol_names_exec(params_src) {
                Some(ps) => ps,
                None => {
                    return Err(Error::DefParamNotSymbol);
                },
            };
            let closure = make_closure(params, elems, frame);
            env.define(frame, name.clone(), closure);
            Ok(Value::Symbol(name))
        },
        _ => Err(Error::DefBadTarget),
    }
}

/// `(set! name e)`.
pub fn eval_set(elems: &[Value], frame: usize, env: &mut Env, fuel: u64) -> (r: Result<Value, Error>)
    ensures
        (rv(r), final(env)@) == sem_set(fuel as nat, views(elems@), frame as nat, old(env)@),
    decreases fuel, 2nat,
{
    if elems.len() != 3 {
        return Err(Error::SetArity);
    }
    assert(views(elems@)[1] == elems@[1]@);
    assert(views(elems@)[2] == elems@[2]@);
    let name = match &elems[1] {
        Value::Symbol(s) => s.clone(),
        _ => {
            return Err(Error::SetNotSymbol);
        },
    };
    let v = eval(&elems[2], frame, env, fuel)?;
    env.set_in_env(frame, &name, v)?;
    Ok(Value::Nil)
}

/// `(cond clause...)`.
pub fn eval_cond(elems: &[Value], frame: usize, env: &mut Env, fuel: u64) -> (r: Result<Value, Error>)
    ensures
        (rv(r), final(env)@) == sem_cond_from(fuel as nat, views(elems@), 1, frame as nat, old(env)@),
    decreases fuel, 2nat,
{
    broadcast use group_value_views;
    let ghost es = views(elems@);
    let mut i: usize = 1;
    while i < elems.len()
        invariant
            es == views(elems@),
            1 <= i,
            sem_cond_from(fuel as nat, es, 1, frame as nat, old(env)@)
                == sem_cond_from(fuel as nat, es, i as nat, frame as nat, env@),
        decreases elems@.len() - i,
    {
        assert(es[i as int] == elems@[i as int]@);
        match &elems[i] {
            Value::List(parts) => {
                proof {
                    crate::value::lemma_list_view(*parts);
                }
                if parts.len() < 2 {
                    return Err(Error::CondInvalidClause);
                }
                assert(views(parts@)[0] == parts@[0]@);
                let is_else = match &parts[0] {
                    Value::Symbol(s) => text_is(s, "else"),
                    _ => false,
                };
                assert(is_else == (views(parts@)[0] == SValue::Symbol("else"@)));
                if is_else {
                    return eval_body(parts.as_slice(), 1, frame, env, fuel);
                }
                let c = eval(&parts[0], frame, env, fuel)?;
                if is_truthy(&c) {
                    return eval_body(parts.as_slice(), 1, frame, env, fuel);
                }
            },
            _ => {
                return Err(Error::CondInvalidClause);
            },
        }
        i = i + 1;
    }
    Ok(Value::Nil)
}

/// `(let ((name e)...) body...)`.
pub fn eval_let(elems: &[Value], frame: usize, env: &mut Env, fuel: u64) -> (r: Result<Value, Error>)
    ensures
        (rv(r), final(env)@) == sem_let(fuel as nat, views(elems@), frame as nat, old(env)@),
    decreases fuel, 3nat,
{
    broadcast use group_value_views;
    if elems.len() < 3 {
        return Err(Error::LetArity);
    }
    let ghost es = views(elems@);
    assert(es[1] == elems@[1]@);
    let bindings = match &elems[1] {
        Value::List(b) => b,
        Value::Nil => {
            return eval_body(elems, 2, frame, env, fuel);
        },
        _ => {
            return Err(Error::LetBindingsNotList);
        },
    };
    proof {
        crate::value::lemma_list_view(*bindings);
    }
    let ghost bs = views(bindings@);
    let new_env = env.with_parent(frame);
    let mut i: usize = 0;
    while i < bindings.len()
        invariant
            es == views(elems@),
            bs == views(bindings@),
            new_env == old(env)@.frames.len(),
            sem_let(fuel as nat, es, frame as nat, old(env)@)
                == sem_let_bind(fuel as nat, bs, i as nat, frame as nat, new_env as nat, env@, es),
        decreases bindings@.len() - i,
    {
        assert(bs[i as int] == bindings@[i as int]@);
        match &bindings[i] {
            Value::List(pair) => {
                proof {
                    crate::value::lemma_list_view(*pair);
                }
                if pair.len() != 2 {
                    return Err(Error::LetInvalidBinding);
                }
                assert(views(pair@)[0] == pair@[0]@);
                assert(views(pair@)[1] == pair@[1]@);
                let name = match &pair[0] {
                    Value::Symbol(s) => s.clone(),
                    _ => {
                        return Err(Error::LetNameNotSymbol);
                    },
                };
                let v = eval(&pair[1], frame, env, fuel)?;
                env.define(new_env, name, v);
            },
            _ => {
                return Err(Error::LetInvalidBinding);
            },
        }
        i = i + 1;
    }
    eval_body(elems, 2, new_env, env, fuel)
}

/// `(and e...)`.
pub fn eval_and(elems: &[Value], frame: usize, env: &mut Env, fuel: u64) -> (r: Result<Value, Error>)
    ensures
        (rv(r), final(env)@) == sem_and_from(fuel as nat, views(elems@), 1, frame as nat, old(env)@, SValue::Bool(true)),
    decreases fuel, 2nat,
{
    let ghost es = views(elems@);
    let mut result = Value::Bool(true);
    let mut i: usize = 1;
    while i < elems.len()
        invariant
            es == views(elems@),
            sem_and_from(fuel as nat, es, 1, frame as nat, old(env)@, SValue::Bool(true))
                == sem_and_from(fuel as nat, es, i as nat, frame as nat, env@, result@),
        decreases elems@.len() - i,
    {
        assert(es[i as int] == elems@[i as int]@);
        result = eval(&elems[i], frame, env, fuel)?;
        if !is_truthy(&result) {
            return Ok(Value::Bool(false));
        }
        i = i + 1;
    }
    Ok(result)
}

/// `(or e...)`.
pub fn eval_or(elems: &[Value], frame: usize, env: &mut Env, fuel: u64) -> (r: Result<Value, Error>)
    ensures
        (rv(r), final(env)@) == sem_or_from(fuel as nat, views(elems@), 1, frame as nat, old(env)@),
    decreases fuel, 2nat,
{
    let ghost es = views(elems@);
    let mut i: usize = 1;
    while i < elems.len()
        invariant
            es == views(elems@),
            sem_or_from(fuel as nat, es, 1, frame as nat, old(env)@)
                == sem_or_from(fuel as nat, es, i as nat, frame as nat, env@),
        decreases elems@.len() - i,
    {
        assert(es[i as int] == elems@[i as int]@);
        let v = eval(&elems[i], frame, env, fuel)?;
        if is_truthy(&v) {
            return Ok(v);
        }
        i = i + 1;
    }
    Ok(Value::Bool(false))
}

/// A call `(f a...)`: the operator, then the operands in order, then the application.
pub fn eval_call(elems: &[Value], frame: usize, env: &mut Env, fuel: u64) -> (r: Result<Value, Error>)
    requires
        elems@.len() > 0,
    ensures
        (rv(r), final(env)@) == sem_call(fuel as nat, views(elems@), frame as nat, old(env)@),
    decreases fuel, 3nat,
{
    let ghost es = views(elems@);
    assert(es[0] == elems@[0]@);
    let func = eval(&elems[0], frame, env, fuel)?;
    let ghost env1 = env@;
    let mut args: Vec<Value> = Vec::new();
    let mut i: usize = 1;
    assert(views(args@) =~= seq![]);
    while i < elems.len()
        invariant
            es == views(elems@),
            es.len() > 0,
            sem_eval(fuel as nat, es[0], frame as nat, old(env)@) == (Ok::<SValue, SError>(func@), env1),
            sem_args_from(fuel as nat, es, 1, frame as nat, env1, seq![])
                == sem_args_from(fuel as nat, es, i as nat, frame as nat, env@, views(args@)),
        decreases elems@.len() - i,
    {
        assert(es[i as int] == elems@[i as int]@);
        let v = eval(&elems[i], frame, env, fuel)?;
        let ghost before = views(args@);
        args.push(v);
        assert(views(args@) =~= before.push(v@));
        i = i + 1;
    }
    apply_func(&func, args.as_slice(), env, fuel)
}

/// Applies `func` to `args`.
pub fn apply_func(func: &Value, args: &[Value], env: &mut Env, fuel: u64) -> (r: Result<Value, Error>)
    ensures
        (rv(r), final(env)@) == sem_apply(fuel as nat, func@, views(args@), old(env)@),
    decreases fuel, 2nat,
{
    broadcast use group_value_views;
    match func {
        Value::Closure { params, body, env: captured } => {
            proof {
                crate::value::lemma_closure_view(*params, *body, *captured);
            }
            if params.len() != args.len() {
                return Err(Error::ArgCount(params.len(), args.len()));
            }
            let ghost ps = name_views(params@);
            let ghost avs = views(args@);
            let nf = env.with_parent(*captured);
            let ghost start = env@;
            let mut i: usize = 0;
            while i < params.len()
                invariant
                    ps == name_views(params@),
                    avs == views(args@),
                    params@.len() == args@.len(),
                    i <= params@.len(),
                    bind_params(start, nf as nat, ps, avs, 0) == bind_params(env@, nf as nat, ps, avs, i as nat),
                decreases params@.len() - i,
            {
                assert(ps[i as int] == params@[i as int]@);
                assert(avs[i as int] == args@[i as int]@);
                env.define(nf, params[i].clone(), args[i].copy());
                i = i + 1;
            }
            eval_body(body.as_slice(), 0, nf, env, fuel)
        },
        Value::BuiltinFunc(name) => {
            if text_is(name, "map") {
                eval_map(args, env, fuel)
            } else if text_is(name, "apply") {
                eval_apply(args, env, fuel)
            } else {
                apply_builtin_exec(name, args, env)
            }
        },
        _ => Err(Error::NotAFunction(func.copy())),
    }
}

/// `(map f list)`: `f` applied to each element of `list`, one level deeper.
fn eval_map(args: &[Value], env: &mut Env, fuel: u64) -> (r: Result<Value, Error>)
    ensures
        (rv(r), final(env)@) == sem_apply(fuel as nat, SValue::Builtin("map"@), views(args@), old(env)@),
    decreases fuel, 1nat,
{
    broadcast use group_value_views;
    if args.len() != 2 {
        return Err(Error::MapArity);
    }
    let ghost sa = views(args@);
    assert(sa[0] == args@[0]@);
    assert(sa[1] == args@[1]@);
    let items = match &args[1] {
        Value::Nil => {
            return Ok(Value::Nil);
        },
        Value::List(items) => items,
        _ => {
            return Err(Error::MapNotList);
        },
    };
    proof {
        crate::value::lemma_list_view(*items);
    }
    let ghost its = views(items@);
    let mut out: Vec<Value> = Vec::new();
    let mut i: usize = 0;
    assert(views(out@) =~= seq![]);
    while i < items.len()
        invariant
            its == views(items@),
            sa == views(args@),
            args@.len() == 2,
            sem_apply(fuel as nat, SValue::Builtin("map"@), sa, old(env)@)
                == sem_map_from(fuel as nat, sa[0], its, i as nat, env@, views(out@)),
        decreases items@.len() - i,
    {
        if fuel == 0 {
            return Err(Error::DepthExceeded);
        }
        assert(its[i as int] == items@[i as int]@);
        let one = vec![items[i].copy()];
        assert(views(one@) =~= seq![its[i as int]]);
        let v = apply_func(&args[0], one.as_slice(), env, fuel - 1)?;
        let ghost before = views(out@);
        out.push(v);
        assert(views(out@) =~= before.push(v@));
        i = i + 1;
    }
    if out.len() == 0 {
        assert(views(out@) =~= seq![]);
        Ok(Value::Nil)
    } else {
        proof {
            crate::value::lemma_list_view(out);
        }
        Ok(Value::List(out))
    }
}

/// `(apply f list)`: `f` applied to the elements of `list`, one level deeper.
fn eval_apply(args: &[Value], env: &mut Env, fuel: u64) -> (r: Result<Value, Error>)
    ensures
        (rv(r), final(env)@) == sem_apply(fuel as nat, SValue::Builtin("apply"@), views(args@), old(env)@),
    decreases fuel, 1nat,
{
    broadcast use group_value_views;
    proof {
        reveal_strlit("apply");
        reveal_strlit("map");
        assert("apply"@.len() != "map"@.len());
    }
    if args.len() != 2 {
        return Err(Error::ApplyArity);
    }
    let ghost sa = views(args@);
    assert(sa[0] == args@[0]@);
    assert(sa[1] == args@[1]@);
    match &args[1] {
        Value::Nil => {
            if fuel == 0 {
                return Err(Error::DepthExceeded);
            }
            let none: Vec<Value> = Vec::new();
            assert(views(none@) =~= seq![]);
            apply_func(&args[0], none.as_slice(), env, fuel - 1)
        },
        Value::List(items) => {
            proof {
                crate::value::lemma_list_view(*items);
            }
            if fuel == 0 {
                return Err(Error::DepthExceeded);
            }
            apply_func(&args[0], items.as_slice(), env, fuel - 1)
        },
        _ => Err(Error::ApplyNotList),
    }
}

} // verus!

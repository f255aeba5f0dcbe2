//! Laws of evaluation: frames are never removed, definitions and assignments
//! are read back, atoms and quotations evaluate to themselves, closures see
//! their captured frame, `map` keeps lengths and `apply` spreads its list, and
//! the depth budget changes no result other than by reporting that it ran out.

use vstd::prelude::*;
use crate::builtins::truthy;
use crate::env::{SEnv, define, lookup, new_frame, set_var};
use crate::error::SError;
use crate::eval::{
    bind_params, sem_and_from, sem_apply, sem_args_from, sem_begin_from, sem_call, sem_cond_from,
    sem_define, sem_eval, sem_if, sem_let, sem_let_bind, sem_map_from, sem_or_from, sem_set,
};
use crate::laws::{law_define_then_lookup, law_set_then_lookup, lemma_set_var_len};
use crate::value::SValue;

verus! {

/// `b` has at least the frames of `a`.
pub open spec fn grows(a: SEnv, b: SEnv) -> bool {
    a.frames.len() <= b.frames.len()
}

proof fn lemma_bind_params_len(env: SEnv, f: nat, ps: Seq<Seq<char>>, args: Seq<SValue>, i: nat)
    ensures
        bind_params(env, f, ps, args, i).frames.len() == env.frames.len(),
    decreases ps.len() - i,
{
    if i < ps.len() && i < args.len() {
        lemma_bind_params_len(define(env, f, ps[i as int], args[i as int]), f, ps, args, i + 1);
    }
}

proof fn lemma_grow_eval(fuel: nat, e: SValue, f: nat, env: SEnv)
    ensures
        grows(env, sem_eval(fuel, e, f, env).1),
    decreases fuel, 0nat, 0nat,
{
    if fuel > 0 {
        let fu = (fuel - 1) as nat;
        if let SValue::List(elems) = e {
            lemma_grow_if(fu, elems, f, env);
            lemma_grow_define(fu, elems, f, env);
            lemma_grow_begin(fu, elems, 1, f, env, SValue::Nil);
            lemma_grow_set(fu, elems, f, env);
            lemma_grow_cond(fu, elems, 1, f, env);
            lemma_grow_let(fu, elems, f, env);
            lemma_grow_and(fu, elems, 1, f, env, SValue::Bool(true));
            lemma_grow_or(fu, elems, 1, f, env);
            lemma_grow_call(fu, elems, f, env);
        }
    }
}

proof fn lemma_grow_begin(fuel: nat, es: Seq<SValue>, i: nat, f: nat, env: SEnv, acc: SValue)
    ensures
        grows(env, sem_begin_from(fuel, es, i, f, env, acc).1),
    decreases fuel, 1nat, es.len() - i,
{
    if i < es.len() {
        let p = sem_eval(fuel, es[i as int], f, env);
        lemma_grow_eval(fuel, es[i as int], f, env);
        if let Ok(v) = p.0 {
            lemma_grow_begin(fuel, es, i + 1, f, p.1, v);
        }
    }
}

proof fn lemma_grow_if(fuel: nat, elems: Seq<SValue>, f: nat, env: SEnv)
    ensures
        grows(env, sem_if(fuel, elems, f, env).1),
    decreases fuel, 2nat, 0nat,
{
    let p = sem_eval(fuel, elems[1], f, env);
    lemma_grow_eval(fuel, elems[1], f, env);
    lemma_grow_eval(fuel, elems[2], f, p.1);
    lemma_grow_eval(fuel, elems[3], f, p.1);
}

proof fn lemma_grow_define(fuel: nat, elems: Seq<SValue>, f: nat, env: SEnv)
    ensures
        grows(env, sem_define(fuel, elems, f, env).1),
    decreases fuel, 2nat, 0nat,
{
    lemma_grow_eval(fuel, elems[2], f, env);
}

proof fn lemma_grow_set(fuel: nat, elems: Seq<SValue>, f: nat, env: SEnv)
    ensures
        grows(env, sem_set(fuel, elems, f, env).1),
    decreases fuel, 2nat, 0nat,
{
    let p = sem_eval(fuel, elems[2], f, env);
    lemma_grow_eval(fuel, elems[2], f, env);
    if let (SValue::Symbol(name), Ok(v)) = (elems[1], p.0) {
        lemma_set_var_len(p.1, f, name, v);
    }
}

proof fn lemma_grow_cond(fuel: nat, elems: Seq<SValue>, i: nat, f: nat, env: SEnv)
    ensures
        grows(env, sem_cond_from(fuel, elems, i, f, env).1),
    decreases fuel, 2nat, elems.len() - i,
{
    if i < elems.len() {
        if let SValue::List(parts) = elems[i as int] {
            lemma_grow_begin(fuel, parts, 1, f, env, SValue::Nil);
            let p = sem_eval(fuel, parts[0], f, env);
            lemma_grow_eval(fuel, parts[0], f, env);
            lemma_grow_begin(fuel, parts, 1, f, p.1, SValue::Nil);
            lemma_grow_cond(fuel, elems, i + 1, f, p.1);
        }
    }
}

proof fn lemma_grow_let(fuel: nat, elems: Seq<SValue>, f: nat, env: SEnv)
    ensures
        grows(env, sem_let(fuel, elems, f, env).1),
    decreases fuel, 3nat, 0nat,
{
    lemma_grow_begin(fuel, elems, 2, f, env, SValue::Nil);
    if let SValue::List(bs) = elems[1] {
        lemma_grow_let_bind(fuel, bs, 0, f, env.frames.len(), new_frame(env, f), elems);
    }
}

proof fn lemma_grow_let_bind(fuel: nat, bs: Seq<SValue>, i: nat, outer: nat, nf: nat, env: SEnv, elems: Seq<SValue>)
    ensures
        grows(env, sem_let_bind(fuel, bs, i, outer, nf, env, elems).1),
    decreases fuel, 2nat, bs.len() - i,
{
    if i >= bs.len() {
        lemma_grow_begin(fuel, elems, 2, nf, env, SValue::Nil);
    } else if let SValue::List(pair) = bs[i as int] {
        let p = sem_eval(fuel, pair[1], outer, env);
        lemma_grow_eval(fuel, pair[1], outer, env);
        if let (SValue::Symbol(name), Ok(v)) = (pair[0], p.0) {
            lemma_grow_let_bind(fuel, bs, i + 1, outer, nf, define(p.1, nf, name, v), elems);
        }
    }
}

proof fn lemma_grow_and(fuel: nat, elems: Seq<SValue>, i: nat, f: nat, env: SEnv, acc: SValue)
    ensures
        grows(env, sem_and_from(fuel, elems, i, f, env, acc).1),
    decreases fuel, 2nat, elems.len() - i,
{
    if i < elems.len() {
        let p = sem_eval(fuel, elems[i as int], f, env);
        lemma_grow_eval(fuel, elems[i as int], f, env);
        if let Ok(v) = p.0 {
            lemma_grow_and(fuel, elems, i + 1, f, p.1, v);
        }
    }
}

proof fn lemma_grow_or(fuel: nat, elems: Seq<SValue>, i: nat, f: nat, env: SEnv)
    ensures
        grows(env, sem_or_from(fuel, elems, i, f, env).1),
    decreases fuel, 2nat, elems.len() - i,
{
    if i < elems.len() {
        let p = sem_eval(fuel, elems[i as int], f, env);
        lemma_grow_eval(fuel, elems[i as int], f, env);
        lemma_grow_or(fuel, elems, i + 1, f, p.1);
    }
}

proof fn lemma_grow_args(fuel: nat, elems: Seq<SValue>, i: nat, f: nat, env: SEnv, acc: Seq<SValue>)
    ensures
        grows(env, sem_args_from(fuel, elems, i, f, env, acc).1),
    decreases fuel, 2nat, elems.len() - i,
{
    if i < elems.len() {
        let p = sem_eval(fuel, elems[i as int], f, env);
        lemma_grow_eval(fuel, elems[i as int], f, env);
        if let Ok(v) = p.0 {
            lemma_grow_args(fuel, elems, i + 1, f, p.1, acc.push(v));
        }
    }
}

proof fn lemma_grow_call(fuel: nat, elems: Seq<SValue>, f: nat, env: SEnv)
    ensures
        grows(env, sem_call(fuel, elems, f, env).1),
    decreases fuel, 3nat, 0nat,
{
    let p = sem_eval(fuel, elems[0], f, env);
    lemma_grow_eval(fuel, elems[0], f, env);
    let q = sem_args_from(fuel, elems, 1, f, p.1, seq![]);
    lemma_grow_args(fuel, elems, 1, f, p.1, seq![]);
    if let (Ok(func), Ok(args)) = (p.0, q.0) {
        lemma_grow_apply(fuel, func, args, q.1);
    }
}

proof fn lemma_grow_apply(fuel: nat, func: SValue, args: Seq<SValue>, env: SEnv)
    ensures
        grows(env, sem_apply(fuel, func, args, env).1),
    decreases fuel, 2nat, 0nat,
{
    match func {
        SValue::Closure { params, body, env: captured } => {
            let nf = env.frames.len();
            let e1 = new_frame(env, captured);
            lemma_bind_params_len(e1, nf, params, args, 0);
            lemma_grow_begin(fuel, body, 0, nf, bind_params(e1, nf, params, args, 0), SValue::Nil);
        },
        SValue::Builtin(name) => {
            if args.len() == 2 {
                if let SValue::List(items) = args[1] {
                    lemma_grow_map(fuel, args[0], items, 0, env, seq![]);
                }
                if fuel > 0 {
                    lemma_grow_apply((fuel - 1) as nat, args[0], seq![], env);
                    if let SValue::List(items) = args[1] {
                        lemma_grow_apply((fuel - 1) as nat, args[0], items, env);
                    }
                }
            }
        },
        _ => {},
    }
}

proof fn lemma_grow_map(fuel: nat, func: SValue, items: Seq<SValue>, i: nat, env: SEnv, acc: Seq<SValue>)
    ensures
        grows(env, sem_map_from(fuel, func, items, i, env, acc).1),
    decreases fuel, 1nat, items.len() - i,
{
    if i < items.len() && fuel > 0 {
        let p = sem_apply((fuel - 1) as nat, func, seq![items[i as int]], env);
        lemma_grow_apply((fuel - 1) as nat, func, seq![items[i as int]], env);
        if let Ok(v) = p.0 {
            lemma_grow_map(fuel, func, items, i + 1, p.1, acc.push(v));
        }
    }
}

/// Evaluation never removes frames.
pub proof fn law_eval_keeps_frames(fuel: nat, e: SValue, f: nat, env: SEnv)
    ensures
        env.frames.len() <= sem_eval(fuel, e, f, env).1.frames.len(),
{
    lemma_grow_eval(fuel, e, f, env);
}

// ---------------------------------------------------------------- the depth budget

/// Whether a result is the report that the depth budget ran out.
pub open spec fn out_of_depth<T>(r: Result<T, SError>) -> bool {
    r matches Err(e) && e == SError::DepthExceeded
}

proof fn lemma_mono_eval(fuel: nat, more: nat, e: SValue, f: nat, env: SEnv)
    requires
        fuel <= more,
        !out_of_depth(sem_eval(fuel, e, f, env).0),
    ensures
        sem_eval(more, e, f, env) == sem_eval(fuel, e, f, env),
    decreases fuel, 0nat, 0nat,
{
    let fu = (fuel - 1) as nat;
    let mu = (more - 1) as nat;
    if let SValue::List(elems) = e {
        if elems.len() > 0 {
            match elems[0] {
                SValue::Symbol(op) => {
                    if op == "quote"@ {
                    } else if op == "if"@ {
                        lemma_mono_if(fu, mu, elems, f, env);
                    } else if op == "def"@ {
                        lemma_mono_define(fu, mu, elems, f, env);
                    } else if op == "lambda"@ {
                    } else if op == "begin"@ {
                        lemma_mono_begin(fu, mu, elems, 1, f, env, SValue::Nil);
                    } else if op == "set!"@ {
                        lemma_mono_set(fu, mu, elems, f, env);
                    } else if op == "cond"@ {
                        lemma_mono_cond(fu, mu, elems, 1, f, env);
                    } else if op == "let"@ {
                        lemma_mono_let(fu, mu, elems, f, env);
                    } else if op == "and"@ {
                        lemma_mono_and(fu, mu, elems, 1, f, env, SValue::Bool(true));
                    } else if op == "or"@ {
                        lemma_mono_or(fu, mu, elems, 1, f, env);
                    } else {
                        lemma_mono_call(fu, mu, elems, f, env);
                    }
                },
                _ => lemma_mono_call(fu, mu, elems, f, env),
            }
        }
    }
}

proof fn lemma_mono_begin(fuel: nat, more: nat, es: Seq<SValue>, i: nat, f: nat, env: SEnv, acc: SValue)
    requires
        fuel <= more,
        !out_of_depth(sem_begin_from(fuel, es, i, f, env, acc).0),
    ensures
        sem_begin_from(more, es, i, f, env, acc) == sem_begin_from(fuel, es, i, f, env, acc),
    decreases fuel, 1nat, es.len() - i,
{
    if i < es.len() {
        let p = sem_eval(fuel, es[i as int], f, env);
        lemma_mono_eval(fuel, more, es[i as int], f, env);
        if let Ok(v) = p.0 {
            lemma_mono_begin(fuel, more, es, i + 1, f, p.1, v);
        }
    }
}

proof fn lemma_mono_if(fuel: nat, more: nat, elems: Seq<SValue>, f: nat, env: SEnv)
    requires
        fuel <= more,
        !out_of_depth(sem_if(fuel, elems, f, env).0),
    ensures
        sem_if(more, elems, f, env) == sem_if(fuel, elems, f, env),
    decreases fuel, 2nat, 0nat,
{
    if elems.len() >= 3 {
        let p = sem_eval(fuel, elems[1], f, env);
        lemma_mono_eval(fuel, more, elems[1], f, env);
        if let Ok(c) = p.0 {
            if truthy(c) {
                lemma_mono_eval(fuel, more, elems[2], f, p.1);
            } else if elems.len() > 3 {
                lemma_mono_eval(fuel, more, elems[3], f, p.1);
            }
        }
    }
}

proof fn lemma_mono_define(fuel: nat, more: nat, elems: Seq<SValue>, f: nat, env: SEnv)
    requires
        fuel <= more,
        !out_of_depth(sem_define(fuel, elems, f, env).0),
    ensures
        sem_define(more, elems, f, env) == sem_define(fuel, elems, f, env),
    decreases fuel, 2nat, 0nat,
{
    if elems.len() == 3 && elems[1] is Symbol {
        lemma_mono_eval(fuel, more, elems[2], f, env);
    }
}

proof fn lemma_mono_set(fuel: nat, more: nat, elems: Seq<SValue>, f: nat, env: SEnv)
    requires
        fuel <= more,
        !out_of_depth(sem_set(fuel, elems, f, env).0),
    ensures
        sem_set(more, elems, f, env) == sem_set(fuel, elems, f, env),
    decreases fuel, 2nat, 0nat,
{
    if elems.len() == 3 && elems[1] is Symbol {
        lemma_mono_eval(fuel, more, elems[2], f, env);
    }
}

proof fn lemma_mono_cond(fuel: nat, more: nat, elems: Seq<SValue>, i: nat, f: nat, env: SEnv)
    requires
        fuel <= more,
        !out_of_depth(sem_cond_from(fuel, elems, i, f, env).0),
    ensures
        sem_cond_from(more, elems, i, f, env) == sem_cond_from(fuel, elems, i, f, env),
    decreases fuel, 2nat, elems.len() - i,
{
    if i < elems.len() {
        if let SValue::List(parts) = elems[i as int] {
            if parts.len() >= 2 {
                if parts[0] == SValue::Symbol("else"@) {
                    lemma_mono_begin(fuel, more, parts, 1, f, env, SValue::Nil);
                } else {
                    let p = sem_eval(fuel, parts[0], f, env);
                    lemma_mono_eval(fuel, more, parts[0], f, env);
                    if let Ok(c) = p.0 {
                        if truthy(c) {
                            lemma_mono_begin(fuel, more, parts, 1, f, p.1, SValue::Nil);
                        } else {
                            lemma_mono_cond(fuel, more, elems, i + 1, f, p.1);
                        }
                    }
                }
            }
        }
    }
}

proof fn lemma_mono_let(fuel: nat, more: nat, elems: Seq<SValue>, f: nat, env: SEnv)
    requires
        fuel <= more,
        !out_of_depth(sem_let(fuel, elems, f, env).0),
    ensures
        sem_let(more, elems, f, env) == sem_let(fuel, elems, f, env),
    decreases fuel, 3nat, 0nat,
{
    if elems.len() >= 3 {
        match elems[1] {
            SValue::List(bs) => lemma_mono_let_bind(fuel, more, bs, 0, f, env.frames.len(), new_frame(env, f), elems),
            SValue::Nil => lemma_mono_begin(fuel, more, elems, 2, f, env, SValue::Nil),
            _ => {},
        }
    }
}

proof fn lemma_mono_let_bind(fuel: nat, more: nat, bs: Seq<SValue>, i: nat, outer: nat, nf: nat, env: SEnv, elems: Seq<SValue>)
    requires
        fuel <= more,
        !out_of_depth(sem_let_bind(fuel, bs, i, outer, nf, env, elems).0),
    ensures
        sem_let_bind(more, bs, i, outer, nf, env, elems) == sem_let_bind(fuel, bs, i, outer, nf, env, elems),
    decreases fuel, 2nat, bs.len() - i,
{
    if i >= bs.len() {
        lemma_mono_begin(fuel, more, elems, 2, nf, env, SValue::Nil);
    } else if let SValue::List(pair) = bs[i as int] {
        if pair.len() == 2 {
            if let SValue::Symbol(name) = pair[0] {
                let p = sem_eval(fuel, pair[1], outer, env);
                lemma_mono_eval(fuel, more, pair[1], outer, env);
                if let Ok(v) = p.0 {
                    lemma_mono_let_bind(fuel, more, bs, i + 1, outer, nf, define(p.1, nf, name, v), elems);
                }
            }
        }
    }
}

proof fn lemma_mono_and(fuel: nat, more: nat, elems: Seq<SValue>, i: nat, f: nat, env: SEnv, acc: SValue)
    requires
        fuel <= more,
        !out_of_depth(sem_and_from(fuel, elems, i, f, env, acc).0),
    ensures
        sem_and_from(more, elems, i, f, env, acc) == sem_and_from(fuel, elems, i, f, env, acc),
    decreases fuel, 2nat, elems.len() - i,
{
    if i < elems.len() {
        let p = sem_eval(fuel, elems[i as int], f, env);
        lemma_mono_eval(fuel, more, elems[i as int], f, env);
        if let Ok(v) = p.0 {
            if truthy(v) {
                lemma_mono_and(fuel, more, elems, i + 1, f, p.1, v);
            }
        }
    }
}

proof fn lemma_mono_or(fuel: nat, more: nat, elems: Seq<SValue>, i: nat, f: nat, env: SEnv)
    requires
        fuel <= more,
        !out_of_depth(sem_or_from(fuel, elems, i, f, env).0),
    ensures
        sem_or_from(more, elems, i, f, env) == sem_or_from(fuel, elems, i, f, env),
    decreases fuel, 2nat, elems.len() - i,
{
    if i < elems.len() {
        let p = sem_eval(fuel, elems[i as int], f, env);
        lemma_mono_eval(fuel, more, elems[i as int], f, env);
        if let Ok(v) = p.0 {
            if !truthy(v) {
                lemma_mono_or(fuel, more, elems, i + 1, f, p.1);
            }
        }
    }
}

proof fn lemma_mono_args(fuel: nat, more: nat, elems: Seq<SValue>, i: nat, f: nat, env: SEnv, acc: Seq<SValue>)
    requires
        fuel <= more,
        !out_of_depth(sem_args_from(fuel, elems, i, f, env, acc).0),
    ensures
        sem_args_from(more, elems, i, f, env, acc) == sem_args_from(fuel, elems, i, f, env, acc),
    decreases fuel, 2nat, elems.len() - i,
{
    if i < elems.len() {
        let p = sem_eval(fuel, elems[i as int], f, env);
        lemma_mono_eval(fuel, more, elems[i as int], f, env);
        if let Ok(v) = p.0 {
            lemma_mono_args(fuel, more, elems, i + 1, f, p.1, acc.push(v));
        }
    }
}

proof fn lemma_mono_call(fuel: nat, more: nat, elems: Seq<SValue>, f: nat, env: SEnv)
    requires
        fuel <= more,
        !out_of_depth(sem_call(fuel, elems, f, env).0),
    ensures
        sem_call(more, elems, f, env) == sem_call(fuel, elems, f, env),
    decreases fuel, 3nat, 0nat,
{
    let p = sem_eval(fuel, elems[0], f, env);
    lemma_mono_eval(fuel, more, elems[0], f, env);
    if let Ok(func) = p.0 {
        let q = sem_args_from(fuel, elems, 1, f, p.1, seq![]);
        lemma_mono_args(fuel, more, elems, 1, f, p.1, seq![]);
        if let Ok(args) = q.0 {
            lemma_mono_apply(fuel, more, func, args, q.1);
        }
    }
}

proof fn lemma_mono_apply(fuel: nat, more: nat, func: SValue, args: Seq<SValue>, env: SEnv)
    requires
        fuel <= more,
        !out_of_depth(sem_apply(fuel, func, args, env).0),
    ensures
        sem_apply(more, func, args, env) == sem_apply(fuel, func, args, env),
    decreases fuel, 2nat, 0nat,
{
    match func {
        SValue::Closure { params, body, env: captured } => {
            if params.len() == args.len() {
                let nf = env.frames.len();
                lemma_mono_begin(fuel, more, body, 0, nf, bind_params(new_frame(env, captured), nf, params, args, 0), SValue::Nil);
            }
        },
        SValue::Builtin(name) => {
            if args.len() == 2 {
                if name == "map"@ {
                    if let SValue::List(items) = args[1] {
                        lemma_mono_map(fuel, more, args[0], items, 0, env, seq![]);
                    }
                } else if name == "apply"@ {
                    match args[1] {
                        SValue::Nil => lemma_mono_apply((fuel - 1) as nat, (more - 1) as nat, args[0], seq![], env),
                        SValue::List(items) => lemma_mono_apply((fuel - 1) as nat, (more - 1) as nat, args[0], items, env),
                        _ => {},
                    }
                }
            }
        },
        _ => {},
    }
}

proof fn lemma_mono_map(fuel: nat, more: nat, func: SValue, items: Seq<SValue>, i: nat, env: SEnv, acc: Seq<SValue>)
    requires
        fuel <= more,
        !out_of_depth(sem_map_from(fuel, func, items, i, env, acc).0),
    ensures
        sem_map_from(more, func, items, i, env, acc) == sem_map_from(fuel, func, items, i, env, acc),
    decreases fuel, 1nat, items.len() - i,
{
    if i < items.len() {
        let p = sem_apply((fuel - 1) as nat, func, seq![items[i as int]], env);
        lemma_mono_apply((fuel - 1) as nat, (more - 1) as nat, func, seq![items[i as int]], env);
        if let Ok(v) = p.0 {
            lemma_mono_map(fuel, more, func, items, i + 1, p.1, acc.push(v));
        }
    }
}

/// The depth budget changes no result except by running out: an evaluation
/// that does not report `DepthExceeded` gives the same result and the same
/// environment with any larger budget.
pub proof fn law_depth_budget(fuel: nat, more: nat, e: SValue, f: nat, env: SEnv)
    requires
        fuel <= more,
        !out_of_depth(sem_eval(fuel, e, f, env).0),
    ensures
        sem_eval(more, e, f, env) == sem_eval(fuel, e, f, env),
{
    lemma_mono_eval(fuel, more, e, f, env);
}

// ---------------------------------------------------------------- evaluation laws

/// Numbers, strings, booleans, `()`, closures and builtins evaluate to
/// themselves and leave the environment as it was.
pub proof fn law_atoms_self_evaluate(fuel: nat, v: SValue, f: nat, env: SEnv)
    requires
        fuel > 0,
        !(v is Symbol),
        !(v is List),
    ensures
        sem_eval(fuel, v, f, env) == (Ok::<SValue, SError>(v), env),
{
}

/// `(quote d)` evaluates to `d` and leaves the environment as it was.
pub proof fn law_quote(fuel: nat, d: SValue, f: nat, env: SEnv)
    requires
        fuel > 0,
    ensures
        sem_eval(fuel, SValue::List(seq![SValue::Symbol("quote"@), d]), f, env) == (Ok::<SValue, SError>(d), env),
{
}

/// `(def name e)` is read back: it succeeds exactly when `e` evaluates, returns
/// the name, and afterwards `name` seen from the same frame is the value of `e`.
pub proof fn law_eval_define_then_lookup(fuel: nat, name: Seq<char>, e: SValue, f: nat, env: SEnv)
    requires
        fuel > 0,
        f < env.frames.len(),
    ensures
        ({
            let r = sem_eval(fuel, SValue::List(seq![SValue::Symbol("def"@), SValue::Symbol(name), e]), f, env);
            let p = sem_eval((fuel - 1) as nat, e, f, env);
            &&& (r.0 is Ok <==> p.0 is Ok)
            &&& p.0 matches Ok(v) ==> r.0 == Ok::<SValue, SError>(SValue::Symbol(name)) && lookup(r.1, f, name) == Some(v)
        }),
{
    reveal_strlit("def");
    reveal_strlit("quote");
    reveal_strlit("if");
    let elems = seq![SValue::Symbol("def"@), SValue::Symbol(name), e];
    assert(elems[0] == SValue::Symbol("def"@));
    assert("def"@.len() != "quote"@.len());
    assert("def"@ != "quote"@);
    assert("def"@.len() != "if"@.len());
    assert("def"@ != "if"@);
    assert(sem_eval(fuel, SValue::List(elems), f, env) == sem_define((fuel - 1) as nat, elems, f, env));
    assert(elems[1] == SValue::Symbol(name));
    assert(elems[2] == e);
    let p = sem_eval((fuel - 1) as nat, e, f, env);
    law_eval_keeps_frames((fuel - 1) as nat, e, f, env);
    if let Ok(v) = p.0 {
        law_define_then_lookup(p.1, f, name, v);
    }
}

/// `(set! name e)` is read back: when it succeeds it gives `()`, and `name`
/// seen from the same frame is the value of `e`; an error of `e` is its
/// error; and once `e` has a value it fails with `SetUndefined` exactly when
/// `name` is bound in no frame of the chain.
pub proof fn law_eval_set_then_lookup(fuel: nat, name: Seq<char>, e: SValue, f: nat, env: SEnv)
    requires
        fuel > 0,
    ensures
        ({
            let r = sem_eval(fuel, SValue::List(seq![SValue::Symbol("set!"@), SValue::Symbol(name), e]), f, env);
            let p = sem_eval((fuel - 1) as nat, e, f, env);
            &&& (r.0 is Ok ==> (p.0 matches Ok(v) && lookup(r.1, f, name) == Some(v)))
            &&& (r.0 is Ok ==> r.0 == Ok::<SValue, SError>(SValue::Nil))
            &&& (p.0 matches Err(x) ==> r.0 == Err::<SValue, SError>(x))
            &&& (p.0 is Ok ==> (r.0 == Err::<SValue, SError>(SError::SetUndefined(name)) <==> lookup(p.1, f, name) is None))
        }),
{
    reveal_strlit("set!");
    reveal_strlit("quote");
    reveal_strlit("if");
    reveal_strlit("def");
    reveal_strlit("lambda");
    reveal_strlit("begin");
    let elems = seq![SValue::Symbol("set!"@), SValue::Symbol(name), e];
    assert(elems[0] == SValue::Symbol("set!"@));
    assert("set!"@.len() != "quote"@.len());
    assert("set!"@ != "quote"@);
    assert("set!"@.len() != "if"@.len());
    assert("set!"@ != "if"@);
    assert("set!"@.len() != "def"@.len());
    assert("set!"@ != "def"@);
    assert("set!"@.len() != "lambda"@.len());
    assert("set!"@ != "lambda"@);
    assert("set!"@.len() != "begin"@.len());
    assert("set!"@ != "begin"@);
    assert(sem_eval(fuel, SValue::List(elems), f, env) == sem_set((fuel - 1) as nat, elems, f, env));
    assert(elems[1] == SValue::Symbol(name));
    assert(elems[2] == e);
    let p = sem_eval((fuel - 1) as nat, e, f, env);
    if let Ok(v) = p.0 {
        crate::laws::law_set_fails_iff_unbound(p.1, f, name, v);
        if set_var(p.1, f, name, v) is Some {
            law_set_then_lookup(p.1, f, name, v);
        }
    }
}

// ---------------------------------------------------------------- closures

proof fn lemma_bind_params_other(env: SEnv, f: nat, ps: Seq<Seq<char>>, args: Seq<SValue>, j: nat, g: nat, name: Seq<char>)
    requires
        forall|k: int| j <= k < ps.len() ==> ps[k] != name,
    ensures
        lookup(bind_params(env, f, ps, args, j), g, name) == lookup(env, g, name),
    decreases ps.len() - j,
{
    if j < ps.len() && j < args.len() {
        let e1 = define(env, f, ps[j as int], args[j as int]);
        lemma_bind_params_other(e1, f, ps, args, j + 1, g, name);
        crate::laws::law_define_other_name(env, f, ps[j as int], args[j as int], g, name);
    }
}

proof fn lemma_bind_params_param(env: SEnv, f: nat, ps: Seq<Seq<char>>, args: Seq<SValue>, j: nat, i: nat)
    requires
        f < env.frames.len(),
        ps.len() == args.len(),
        ps.no_duplicates(),
        j <= i < ps.len(),
    ensures
        lookup(bind_params(env, f, ps, args, j), f, ps[i as int]) == Some(args[i as int]),
    decreases i - j,
{
    let e1 = define(env, f, ps[j as int], args[j as int]);
    if j == i {
        lemma_bind_params_other(e1, f, ps, args, j + 1, f, ps[i as int]);
        law_define_then_lookup(env, f, ps[i as int], args[i as int]);
    } else {
        lemma_bind_params_param(e1, f, ps, args, j + 1, i);
    }
}

/// Lexical scope of closures: in the frame where a closure's body runs, a
/// name that is not a parameter has the value it has in the frame the closure
/// was created in.
pub proof fn law_closure_sees_captured(env: SEnv, captured: nat, params: Seq<Seq<char>>, args: Seq<SValue>, name: Seq<char>)
    requires
        captured < env.frames.len(),
        !params.contains(name),
    ensures
        lookup(bind_params(new_frame(env, captured), env.frames.len(), params, args, 0), env.frames.len(), name)
            == lookup(env, captured, name),
{
    let e1 = new_frame(env, captured);
    assert forall|k: int| 0 <= k < params.len() implies params[k] != name by {
        if params[k] == name {
            assert(params.contains(name));
        }
    }
    lemma_bind_params_other(e1, env.frames.len(), params, args, 0, env.frames.len(), name);
    crate::laws::law_new_frame_sees_parent(env, captured, name);
}

/// In the frame where a closure's body runs, each parameter (all distinct)
/// has the value of its argument.
pub proof fn law_closure_binds_params(env: SEnv, captured: nat, params: Seq<Seq<char>>, args: Seq<SValue>, i: nat)
    requires
        params.len() == args.len(),
        params.no_duplicates(),
        i < params.len(),
    ensures
        lookup(bind_params(new_frame(env, captured), env.frames.len(), params, args, 0), env.frames.len(), params[i as int])
            == Some(args[i as int]),
{
    lemma_bind_params_param(new_frame(env, captured), env.frames.len(), params, args, 0, i);
}

/// Applying a closure to the right number of arguments runs its body in a new
/// frame under the frame it captured, with its parameters bound to the arguments.
pub proof fn law_apply_closure(fuel: nat, params: Seq<Seq<char>>, body: Seq<SValue>, captured: nat, args: Seq<SValue>, env: SEnv)
    requires
        params.len() == args.len(),
    ensures
        sem_apply(fuel, SValue::Closure { params, body, env: captured }, args, env)
            == sem_begin_from(fuel, body, 0, env.frames.len(),
                bind_params(new_frame(env, captured), env.frames.len(), params, args, 0), SValue::Nil),
{
}

// ---------------------------------------------------------------- map and apply

proof fn lemma_map_from_length(fuel: nat, func: SValue, items: Seq<SValue>, i: nat, env: SEnv, acc: Seq<SValue>)
    requires
        i <= items.len(),
        acc.len() == i,
    ensures
        sem_map_from(fuel, func, items, i, env, acc).0 matches Ok(v) ==> (
            (items.len() == 0 && v == SValue::Nil) || (v matches SValue::List(xs) && xs.len() == items.len())
        ),
    decreases items.len() - i,
{
    if i < items.len() && fuel > 0 {
        let p = sem_apply((fuel - 1) as nat, func, seq![items[i as int]], env);
        if let Ok(v) = p.0 {
            lemma_map_from_length(fuel, func, items, i + 1, p.1, acc.push(v));
        }
    }
}

/// `map` keeps the length: when `(map f items)` succeeds, its value has one
/// element for each item (`()` for no items).
pub proof fn law_map_keeps_length(fuel: nat, func: SValue, items: Seq<SValue>, env: SEnv)
    ensures
        sem_apply(fuel, SValue::Builtin("map"@), seq![func, SValue::List(items)], env).0 matches Ok(v) ==> (
            (items.len() == 0 && v == SValue::Nil) || (v matches SValue::List(xs) && xs.len() == items.len())
        ),
{
    let args = seq![func, SValue::List(items)];
    assert(args[1] == SValue::List(items));
    lemma_map_from_length(fuel, func, items, 0, env, seq![]);
}

/// `apply` spreads its list: `(apply f (a ...))` is `f` applied to `a ...`
/// one level deeper.
pub proof fn law_apply_spreads(fuel: nat, func: SValue, items: Seq<SValue>, env: SEnv)
    requires
        fuel > 0,
    ensures
        sem_apply(fuel, SValue::Builtin("apply"@), seq![func, SValue::List(items)], env)
            == sem_apply((fuel - 1) as nat, func, items, env),
{
    reveal_strlit("apply");
    reveal_strlit("map");
    assert("apply"@.len() != "map"@.len());
    let args = seq![func, SValue::List(items)];
    assert(args[0] == func);
    assert(args[1] == SValue::List(items));
}

/// `(def (name params...) body...)` run in frame `f` binds `name`, seen from
/// `f`, to a closure with those parameters and that body which captures `f`
/// itself, so the body sees the bindings of the frame the definition ran in
/// (a procedure's internal definitions see its parameters).
pub proof fn law_def_function_captures_frame(
    fuel: nat,
    name: Seq<char>,
    params: Seq<SValue>,
    body: Seq<SValue>,
    f: nat,
    env: SEnv,
)
    requires
        fuel > 0,
        f < env.frames.len(),
        crate::eval::symbol_names(params) is Some,
    ensures
        ({
            let e = SValue::List(seq![SValue::Symbol("def"@), SValue::List(seq![SValue::Symbol(name)] + params)] + body);
            let r = sem_eval(fuel, e, f, env);
            &&& r.0 == Ok::<SValue, SError>(SValue::Symbol(name))
            &&& lookup(r.1, f, name) == Some(SValue::Closure {
                params: crate::eval::symbol_names(params)->Some_0,
                body,
                env: f,
            })
        }),
{
    reveal_strlit("def");
    reveal_strlit("quote");
    reveal_strlit("if");
    let header = seq![SValue::Symbol(name)] + params;
    let elems = seq![SValue::Symbol("def"@), SValue::List(header)] + body;
    assert(elems[0] == SValue::Symbol("def"@));
    assert(elems[1] == SValue::List(header));
    assert("def"@.len() != "quote"@.len());
    assert("def"@ != "quote"@);
    assert("def"@.len() != "if"@.len());
    assert("def"@ != "if"@);
    assert(sem_eval(fuel, SValue::List(elems), f, env) == sem_define((fuel - 1) as nat, elems, f, env));
    assert(header[0] == SValue::Symbol(name));
    assert(header.drop_first() =~= params);
    assert(elems.subrange(2, elems.len() as int) =~= body);
    let c = SValue::Closure { params: crate::eval::symbol_names(params)->Some_0, body, env: f };
    law_define_then_lookup(env, f, name, c);
}

} // verus!

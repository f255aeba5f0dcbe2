//! Well-formed environments: every frame's parent was created before it, and
//! every value held in a frame refers only to frames that exist. Evaluation,
//! running source text and the interactive loop keep an environment well
//! formed, so the chain of parents seen from any frame always leads to older
//! frames and every closure's captured frame exists.

use vstd::prelude::*;
use crate::builtins::{
    ArithOp, append_from, apply_builtin, fold_from, numeric_fold, numeric_op,
};
use crate::builtins::builtin_names;
use crate::env::{SEnv, SFrame, bind, define, empty_env, find, find_from, lookup, new_frame, set_var};
use crate::lexer::lex;
use crate::reader::{parse_all_from, parse_at, parse_items};
use crate::repl::{EVAL_DEPTH, SRepl, define_builtins, global_env, repl_feed, sem_run};
use crate::value::SToken;
use crate::error::SError;
use crate::builtins::truthy;
use crate::eval::{
    bind_params, sem_and_from, sem_apply, sem_args_from, sem_begin_from, sem_call, sem_cond_from,
    sem_define, sem_eval, sem_if, sem_let, sem_let_bind, sem_map_from, sem_or_from, sem_set,
};
use crate::value::SValue;

verus! {

/// Every closure inside `v` (in lists and closure bodies too) captured a frame
/// with an index below `n`.
pub open spec fn refs_below(v: SValue, n: nat) -> bool
    decreases v,
{
    match v {
        SValue::List(xs) => forall|i: int| 0 <= i < xs.len() ==> refs_below(#[trigger] xs[i], n),
        SValue::Closure { params, body, env } => env < n && forall|i: int|
            0 <= i < body.len() ==> refs_below(#[trigger] body[i], n),
        _ => true,
    }
}

/// Every value of `vs` refers only to frames below `n`.
pub open spec fn all_below(vs: Seq<SValue>, n: nat) -> bool {
    forall|i: int| 0 <= i < vs.len() ==> refs_below(#[trigger] vs[i], n)
}

/// Frame `fr`, at index `i` of an environment of `n` frames, is well formed:
/// its parent is older than it and its values refer to existing frames.
pub open spec fn frame_ok(fr: SFrame, i: int, n: nat) -> bool {
    &&& (fr.parent matches Some(p) ==> p < i)
    &&& forall|j: int| 0 <= j < fr.vars.len() ==> refs_below((#[trigger] fr.vars[j]).1, n)
}

/// Every frame of `env` is well formed.
pub open spec fn env_ok(env: SEnv) -> bool {
    forall|i: int| 0 <= i < env.frames.len() ==> frame_ok(#[trigger] env.frames[i], i, env.frames.len())
}

/// A step from `env` that gave `r` kept the environment well formed, removed
/// no frame, and produced a value that refers only to existing frames.
pub open spec fn keeps_ok(env: SEnv, r: (Result<SValue, SError>, SEnv)) -> bool {
    &&& env_ok(r.1)
    &&& env.frames.len() <= r.1.frames.len()
    &&& (r.0 matches Ok(v) ==> refs_below(v, r.1.frames.len()))
}

/// A value that refers only to frames below `n` refers only to frames below any larger bound.
pub proof fn lemma_refs_mono(v: SValue, n: nat, m: nat)
    requires
        refs_below(v, n),
        n <= m,
    ensures
        refs_below(v, m),
    decreases v,
{
    match v {
        SValue::List(xs) => {
            assert forall|i: int| 0 <= i < xs.len() implies refs_below(#[trigger] xs[i], m) by {
                lemma_refs_mono(xs[i], n, m);
            }
        },
        SValue::Closure { params, body, env } => {
            assert forall|i: int| 0 <= i < body.len() implies refs_below(#[trigger] body[i], m) by {
                lemma_refs_mono(body[i], n, m);
            }
        },
        _ => {},
    }
}

/// [`lemma_refs_mono`] for every value of a sequence.
pub proof fn lemma_all_mono(vs: Seq<SValue>, n: nat, m: nat)
    requires
        all_below(vs, n),
        n <= m,
    ensures
        all_below(vs, m),
{
    assert forall|i: int| 0 <= i < vs.len() implies refs_below(#[trigger] vs[i], m) by {
        lemma_refs_mono(vs[i], n, m);
    }
}

proof fn lemma_find_bound(vars: Seq<(Seq<char>, SValue)>, name: Seq<char>, k: nat)
    ensures
        find_from(vars, name, k) matches Some(i) ==> k <= i < vars.len(),
    decreases vars.len() - k,
{
    if k < vars.len() && vars[k as int].0 != name {
        lemma_find_bound(vars, name, k + 1);
    }
}

/// Binding a value that refers to existing frames keeps the environment well formed.
pub proof fn lemma_ok_define(env: SEnv, f: nat, name: Seq<char>, v: SValue)
    requires
        env_ok(env),
        refs_below(v, env.frames.len()),
    ensures
        env_ok(define(env, f, name, v)),
        define(env, f, name, v).frames.len() == env.frames.len(),
{
    let n = env.frames.len();
    if f < n {
        let fr = env.frames[f as int];
        assert(frame_ok(fr, f as int, n));
        let vars2 = bind(fr.vars, name, v);
        lemma_find_bound(fr.vars, name, 0);
        assert forall|j: int| 0 <= j < vars2.len() implies refs_below((#[trigger] vars2[j]).1, n) by {
            match find(fr.vars, name) {
                Some(i) => {
                    if j != i {
                        assert(vars2[j] == fr.vars[j]);
                    }
                },
                None => {
                    if j < fr.vars.len() {
                        assert(vars2[j] == fr.vars[j]);
                    }
                },
            }
        }
        let e2 = define(env, f, name, v);
        assert forall|i: int| 0 <= i < e2.frames.len() implies frame_ok(#[trigger] e2.frames[i], i, e2.frames.len()) by {
            if i != f {
                assert(e2.frames[i] == env.frames[i]);
            }
        }
    }
}

/// A new frame under an existing frame keeps the environment well formed.
pub proof fn lemma_ok_new_frame(env: SEnv, parent: nat)
    requires
        env_ok(env),
        parent < env.frames.len(),
    ensures
        env_ok(new_frame(env, parent)),
{
    let n = env.frames.len();
    let e2 = new_frame(env, parent);
    assert forall|i: int| 0 <= i < e2.frames.len() implies frame_ok(#[trigger] e2.frames[i], i, n + 1) by {
        if i < n {
            let fr = env.frames[i];
            assert(e2.frames[i] == fr);
            assert(frame_ok(fr, i, n));
            assert forall|j: int| 0 <= j < fr.vars.len() implies refs_below((#[trigger] fr.vars[j]).1, n + 1) by {
                lemma_refs_mono(fr.vars[j].1, n, n + 1);
            }
        }
    }
}

/// A successful assignment of a value that refers to existing frames keeps
/// the environment well formed.
pub proof fn lemma_ok_set_var(env: SEnv, f: nat, name: Seq<char>, v: SValue)
    requires
        env_ok(env),
        refs_below(v, env.frames.len()),
    ensures
        set_var(env, f, name, v) matches Some(e) ==> env_ok(e) && e.frames.len() == env.frames.len(),
    decreases f,
{
    if f < env.frames.len() {
        let fr = env.frames[f as int];
        match find(fr.vars, name) {
            Some(_) => lemma_ok_define(env, f, name, v),
            None => {
                if let Some(p) = fr.parent {
                    if p < f {
                        lemma_ok_set_var(env, p, name, v);
                    }
                }
            },
        }
    }
}

/// In a well-formed environment, what a name is bound to refers to existing frames.
pub proof fn lemma_lookup_refs(env: SEnv, f: nat, name: Seq<char>)
    requires
        env_ok(env),
    ensures
        lookup(env, f, name) matches Some(v) ==> refs_below(v, env.frames.len()),
    decreases f,
{
    if f < env.frames.len() {
        let fr = env.frames[f as int];
        assert(frame_ok(fr, f as int, env.frames.len()));
        match find(fr.vars, name) {
            Some(i) => {
                lemma_find_bound(fr.vars, name, 0);
                assert(refs_below(fr.vars[i as int].1, env.frames.len()));
            },
            None => {
                if let Some(p) = fr.parent {
                    if p < f {
                        lemma_lookup_refs(env, p, name);
                    }
                }
            },
        }
    }
}

/// Binding parameters to values that refer to existing frames keeps the
/// environment well formed.
proof fn lemma_ok_bind_params(env: SEnv, nf: nat, ps: Seq<Seq<char>>, args: Seq<SValue>, i: nat)
    requires
        env_ok(env),
        all_below(args, env.frames.len()),
    ensures
        env_ok(bind_params(env, nf, ps, args, i)),
        bind_params(env, nf, ps, args, i).frames.len() == env.frames.len(),
    decreases ps.len() - i,
{
    if i < ps.len() && i < args.len() {
        lemma_ok_define(env, nf, ps[i as int], args[i as int]);
        lemma_ok_bind_params(define(env, nf, ps[i as int], args[i as int]), nf, ps, args, i + 1);
    }
}

proof fn lemma_fold_number(op: ArithOp, args: Seq<SValue>, i: nat, acc: crate::number::SNum)
    ensures
        fold_from(op, args, i, acc) matches Ok(v) ==> v is Number,
    decreases args.len() - i,
{
    if i < args.len() {
        if let SValue::Number(n) = args[i as int] {
            if let Ok(r) = crate::builtins::arith(op, acc, n) {
                lemma_fold_number(op, args, i + 1, r);
            }
        }
    }
}

proof fn lemma_numeric_number(op: ArithOp, args: Seq<SValue>)
    ensures
        numeric_op(op, args) matches Ok(v) ==> v is Number,
        numeric_fold(op, args) matches Ok(v) ==> v is Number,
{
    if args.len() > 1 {
        if let SValue::Number(first) = args[0] {
            lemma_fold_number(op, args, 1, first);
        }
    }
}

proof fn lemma_append_refs(args: Seq<SValue>, i: nat, acc: Seq<SValue>, n: nat)
    requires
        all_below(args, n),
        all_below(acc, n),
    ensures
        append_from(args, i, acc) matches Ok(v) ==> refs_below(v, n),
    decreases args.len() - i,
{
    if i < args.len() {
        match args[i as int] {
            SValue::Nil => lemma_append_refs(args, i + 1, acc, n),
            SValue::List(items) => {
                assert(refs_below(args[i as int], n));
                let acc2 = acc + items;
                assert forall|k: int| 0 <= k < acc2.len() implies refs_below(#[trigger] acc2[k], n) by {
                    if k >= acc.len() {
                        assert(acc2[k] == items[k - acc.len()]);
                    }
                }
                lemma_append_refs(args, i + 1, acc2, n);
            },
            _ => {},
        }
    }
}

/// A builtin applied to values that refer to existing frames keeps the frames
/// as they are and gives a value that refers to existing frames.
proof fn lemma_ok_builtin(name: Seq<char>, args: Seq<SValue>, env: SEnv)
    requires
        env_ok(env),
        all_below(args, env.frames.len()),
    ensures
        ({
            let r = apply_builtin(name, args, env);
            &&& r.1.frames == env.frames
            &&& (r.0 matches Ok(v) ==> refs_below(v, env.frames.len()))
        }),
{
    let n = env.frames.len();
    lemma_numeric_number(ArithOp::Add, args);
    lemma_numeric_number(ArithOp::Sub, args);
    lemma_numeric_number(ArithOp::Mul, args);
    lemma_numeric_number(ArithOp::Div, args);
    lemma_append_refs(args, 0, seq![], n);
    if args.len() > 0 {
        assert(refs_below(args[0], n));
        if let SValue::List(elems) = args[0] {
            if elems.len() > 0 {
                assert(refs_below(elems[0], n));
                let d = elems.drop_first();
                assert forall|k: int| 0 <= k < d.len() implies refs_below(#[trigger] d[k], n) by {
                    assert(d[k] == elems[k + 1]);
                }
            }
        }
    }
    if args.len() == 2 {
        assert(refs_below(args[1], n));
        match args[1] {
            SValue::List(elems) => {
                let l = seq![args[0]] + elems;
                assert forall|k: int| 0 <= k < l.len() implies refs_below(#[trigger] l[k], n) by {
                    if k > 0 {
                        assert(l[k] == elems[k - 1]);
                    }
                }
            },
            _ => {
                let l1 = seq![args[0]];
                let l2 = seq![args[0], args[1]];
                assert forall|k: int| 0 <= k < l1.len() implies refs_below(#[trigger] l1[k], n) by {}
                assert forall|k: int| 0 <= k < l2.len() implies refs_below(#[trigger] l2[k], n) by {}
            },
        }
    }
}

// ---------------------------------------------------------------- evaluation

/// `sem_eval` keeps the environment well formed; see [`law_eval_keeps_env_ok`].
proof fn lemma_ok_eval(fuel: nat, e: SValue, f: nat, env: SEnv)
    requires
        env_ok(env),
        f < env.frames.len(),
        refs_below(e, env.frames.len()),
    ensures
        keeps_ok(env, sem_eval(fuel, e, f, env)),
    decreases fuel, 0nat, 0nat,
{
    let n = env.frames.len();
    if fuel > 0 {
        let fu = (fuel - 1) as nat;
        match e {
            SValue::Symbol(name) => lemma_lookup_refs(env, f, name),
            SValue::List(elems) => {
                assert(all_below(elems, n));
                if elems.len() > 0 {
                    match elems[0] {
                        SValue::Symbol(op) => {
                            if op == "quote"@ {
                            } else if op == "if"@ {
                                lemma_ok_if(fu, elems, f, env);
                            } else if op == "def"@ {
                                lemma_ok_define_form(fu, elems, f, env);
                            } else if op == "lambda"@ {
                                if elems.len() >= 3 {
                                    lemma_subrange_below(elems, 2, n);
                                }
                            } else if op == "begin"@ {
                                lemma_ok_begin(fu, elems, 1, f, env, SValue::Nil);
                            } else if op == "set!"@ {
                                lemma_ok_set(fu, elems, f, env);
                            } else if op == "cond"@ {
                                lemma_ok_cond(fu, elems, 1, f, env);
                            } else if op == "let"@ {
                                lemma_ok_let(fu, elems, f, env);
                            } else if op == "and"@ {
                                lemma_ok_and(fu, elems, 1, f, env, SValue::Bool(true));
                            } else if op == "or"@ {
                                lemma_ok_or(fu, elems, 1, f, env);
                            } else {
                                lemma_ok_call(fu, elems, f, env);
                            }
                        },
                        _ => lemma_ok_call(fu, elems, f, env),
                    }
                }
            },
            _ => {},
        }
    }
}

/// The elements of `xs` from `from` on refer to frames below `n` when all of `xs` do.
proof fn lemma_subrange_below(xs: Seq<SValue>, from: int, n: nat)
    requires
        all_below(xs, n),
        0 <= from <= xs.len(),
    ensures
        all_below(xs.subrange(from, xs.len() as int), n),
{
    let t = xs.subrange(from, xs.len() as int);
    assert forall|k: int| 0 <= k < t.len() implies refs_below(#[trigger] t[k], n) by {
        assert(t[k] == xs[k + from]);
    }
}

proof fn lemma_ok_begin(fuel: nat, es: Seq<SValue>, i: nat, f: nat, env: SEnv, acc: SValue)
    requires
        env_ok(env),
        f < env.frames.len(),
        all_below(es, env.frames.len()),
        refs_below(acc, env.frames.len()),
    ensures
        keeps_ok(env, sem_begin_from(fuel, es, i, f, env, acc)),
    decreases fuel, 1nat, es.len() - i,
{
    if i < es.len() {
        let p = sem_eval(fuel, es[i as int], f, env);
        lemma_ok_eval(fuel, es[i as int], f, env);
        if let Ok(v) = p.0 {
            lemma_all_mono(es, env.frames.len(), p.1.frames.len());
            lemma_ok_begin(fuel, es, i + 1, f, p.1, v);
        }
    }
}

proof fn lemma_ok_if(fuel: nat, elems: Seq<SValue>, f: nat, env: SEnv)
    requires
        env_ok(env),
        f < env.frames.len(),
        all_below(elems, env.frames.len()),
    ensures
        keeps_ok(env, sem_if(fuel, elems, f, env)),
    decreases fuel, 2nat, 0nat,
{
    if elems.len() >= 3 {
        let p = sem_eval(fuel, elems[1], f, env);
        lemma_ok_eval(fuel, elems[1], f, env);
        if let Ok(c) = p.0 {
            lemma_all_mono(elems, env.frames.len(), p.1.frames.len());
            if truthy(c) {
                lemma_ok_eval(fuel, elems[2], f, p.1);
            } else if elems.len() > 3 {
                lemma_ok_eval(fuel, elems[3], f, p.1);
            }
        }
    }
}

proof fn lemma_ok_define_form(fuel: nat, elems: Seq<SValue>, f: nat, env: SEnv)
    requires
        env_ok(env),
        f < env.frames.len(),
        all_below(elems, env.frames.len()),
    ensures
        keeps_ok(env, sem_define(fuel, elems, f, env)),
    decreases fuel, 2nat, 0nat,
{
    let n = env.frames.len();
    if elems.len() >= 2 {
        match elems[1] {
            SValue::Symbol(name) => {
                if elems.len() == 3 {
                    let p = sem_eval(fuel, elems[2], f, env);
                    lemma_ok_eval(fuel, elems[2], f, env);
                    if let Ok(v) = p.0 {
                        lemma_ok_define(p.1, f, name, v);
                    }
                }
            },
            SValue::List(header) => {
                if header.len() > 0 {
                    if let SValue::Symbol(name) = header[0] {
                        if let Some(params) = crate::eval::symbol_names(header.drop_first()) {
                            let body = elems.subrange(2, elems.len() as int);
                            lemma_subrange_below(elems, 2, n);
                            let c = SValue::Closure { params, body, env: f };
                            assert(refs_below(c, n));
                            lemma_ok_define(env, f, name, c);
                        }
                    }
                }
            },
            _ => {},
        }
    }
}

proof fn lemma_ok_set(fuel: nat, elems: Seq<SValue>, f: nat, env: SEnv)
    requires
        env_ok(env),
        f < env.frames.len(),
        all_below(elems, env.frames.len()),
    ensures
        keeps_ok(env, sem_set(fuel, elems, f, env)),
    decreases fuel, 2nat, 0nat,
{
    if elems.len() == 3 {
        if let SValue::Symbol(name) = elems[1] {
            let p = sem_eval(fuel, elems[2], f, env);
            lemma_ok_eval(fuel, elems[2], f, env);
            if let Ok(v) = p.0 {
                lemma_ok_set_var(p.1, f, name, v);
            }
        }
    }
}

proof fn lemma_ok_cond(fuel: nat, elems: Seq<SValue>, i: nat, f: nat, env: SEnv)
    requires
        env_ok(env),
        f < env.frames.len(),
        all_below(elems, env.frames.len()),
    ensures
        keeps_ok(env, sem_cond_from(fuel, elems, i, f, env)),
    decreases fuel, 2nat, elems.len() - i,
{
    if i < elems.len() {
        assert(refs_below(elems[i as int], env.frames.len()));
        if let SValue::List(parts) = elems[i as int] {
            if parts.len() >= 2 {
                if parts[0] == SValue::Symbol("else"@) {
                    lemma_ok_begin(fuel, parts, 1, f, env, SValue::Nil);
                } else {
                    let p = sem_eval(fuel, parts[0], f, env);
                    lemma_ok_eval(fuel, parts[0], f, env);
                    if let Ok(c) = p.0 {
                        lemma_all_mono(parts, env.frames.len(), p.1.frames.len());
                        lemma_all_mono(elems, env.frames.len(), p.1.frames.len());
                        if truthy(c) {
                            lemma_ok_begin(fuel, parts, 1, f, p.1, SValue::Nil);
                        } else {
                            lemma_ok_cond(fuel, elems, i + 1, f, p.1);
                        }
                    }
                }
            }
        }
    }
}

proof fn lemma_ok_let(fuel: nat, elems: Seq<SValue>, f: nat, env: SEnv)
    requires
        env_ok(env),
        f < env.frames.len(),
        all_below(elems, env.frames.len()),
    ensures
        keeps_ok(env, sem_let(fuel, elems, f, env)),
    decreases fuel, 3nat, 0nat,
{
    let n = env.frames.len();
    if elems.len() >= 3 {
        assert(refs_below(elems[1], n));
        match elems[1] {
            SValue::List(bs) => {
                lemma_ok_new_frame(env, f);
                lemma_all_mono(bs, n, n + 1);
                lemma_all_mono(elems, n, n + 1);
                lemma_ok_let_bind(fuel, bs, 0, f, n, new_frame(env, f), elems);
            },
            SValue::Nil => lemma_ok_begin(fuel, elems, 2, f, env, SValue::Nil),
            _ => {},
        }
    }
}

proof fn lemma_ok_let_bind(fuel: nat, bs: Seq<SValue>, i: nat, outer: nat, nf: nat, env: SEnv, elems: Seq<SValue>)
    requires
        env_ok(env),
        outer < env.frames.len(),
        nf < env.frames.len(),
        all_below(bs, env.frames.len()),
        all_below(elems, env.frames.len()),
    ensures
        keeps_ok(env, sem_let_bind(fuel, bs, i, outer, nf, env, elems)),
    decreases fuel, 2nat, bs.len() - i,
{
    let n = env.frames.len();
    if i >= bs.len() {
        lemma_ok_begin(fuel, elems, 2, nf, env, SValue::Nil);
    } else {
        assert(refs_below(bs[i as int], n));
        if let SValue::List(pair) = bs[i as int] {
            if pair.len() == 2 {
                if let SValue::Symbol(name) = pair[0] {
                    assert(refs_below(pair[1], n));
                    let p = sem_eval(fuel, pair[1], outer, env);
                    lemma_ok_eval(fuel, pair[1], outer, env);
                    if let Ok(v) = p.0 {
                        let e2 = define(p.1, nf, name, v);
                        lemma_ok_define(p.1, nf, name, v);
                        lemma_all_mono(bs, n, e2.frames.len());
                        lemma_all_mono(elems, n, e2.frames.len());
                        lemma_ok_let_bind(fuel, bs, i + 1, outer, nf, e2, elems);
                    }
                }
            }
        }
    }
}

proof fn lemma_ok_and(fuel: nat, elems: Seq<SValue>, i: nat, f: nat, env: SEnv, acc: SValue)
    requires
        env_ok(env),
        f < env.frames.len(),
        all_below(elems, env.frames.len()),
        refs_below(acc, env.frames.len()),
    ensures
        keeps_ok(env, sem_and_from(fuel, elems, i, f, env, acc)),
    decreases fuel, 2nat, elems.len() - i,
{
    if i < elems.len() {
        let p = sem_eval(fuel, elems[i as int], f, env);
        lemma_ok_eval(fuel, elems[i as int], f, env);
        if let Ok(v) = p.0 {
            lemma_all_mono(elems, env.frames.len(), p.1.frames.len());
            lemma_ok_and(fuel, elems, i + 1, f, p.1, v);
        }
    }
}

proof fn lemma_ok_or(fuel: nat, elems: Seq<SValue>, i: nat, f: nat, env: SEnv)
    requires
        env_ok(env),
        f < env.frames.len(),
        all_below(elems, env.frames.len()),
    ensures
        keeps_ok(env, sem_or_from(fuel, elems, i, f, env)),
    decreases fuel, 2nat, elems.len() - i,
{
    if i < elems.len() {
        let p = sem_eval(fuel, elems[i as int], f, env);
        lemma_ok_eval(fuel, elems[i as int], f, env);
        if let Ok(v) = p.0 {
            lemma_all_mono(elems, env.frames.len(), p.1.frames.len());
            lemma_ok_or(fuel, elems, i + 1, f, p.1);
        }
    }
}

proof fn lemma_ok_args(fuel: nat, elems: Seq<SValue>, i: nat, f: nat, env: SEnv, acc: Seq<SValue>)
    requires
        env_ok(env),
        f < env.frames.len(),
        all_below(elems, env.frames.len()),
        all_below(acc, env.frames.len()),
    ensures
        ({
            let q = sem_args_from(fuel, elems, i, f, env, acc);
            &&& env_ok(q.1)
            &&& env.frames.len() <= q.1.frames.len()
            &&& (q.0 matches Ok(vs) ==> all_below(vs, q.1.frames.len()))
        }),
    decreases fuel, 2nat, elems.len() - i,
{
    if i < elems.len() {
        let p = sem_eval(fuel, elems[i as int], f, env);
        lemma_ok_eval(fuel, elems[i as int], f, env);
        if let Ok(v) = p.0 {
            let m = p.1.frames.len();
            lemma_all_mono(elems, env.frames.len(), m);
            lemma_all_mono(acc, env.frames.len(), m);
            let acc2 = acc.push(v);
            assert forall|k: int| 0 <= k < acc2.len() implies refs_below(#[trigger] acc2[k], m) by {
                if k < acc.len() {
                    assert(acc2[k] == acc[k]);
                }
            }
            lemma_ok_args(fuel, elems, i + 1, f, p.1, acc2);
        }
    }
}

proof fn lemma_ok_call(fuel: nat, elems: Seq<SValue>, f: nat, env: SEnv)
    requires
        env_ok(env),
        f < env.frames.len(),
        all_below(elems, env.frames.len()),
        elems.len() > 0,
    ensures
        keeps_ok(env, sem_call(fuel, elems, f, env)),
    decreases fuel, 3nat, 0nat,
{
    let p = sem_eval(fuel, elems[0], f, env);
    lemma_ok_eval(fuel, elems[0], f, env);
    if let Ok(func) = p.0 {
        lemma_all_mono(elems, env.frames.len(), p.1.frames.len());
        assert(all_below(seq![], p.1.frames.len()));
        let q = sem_args_from(fuel, elems, 1, f, p.1, seq![]);
        lemma_ok_args(fuel, elems, 1, f, p.1, seq![]);
        if let Ok(args) = q.0 {
            lemma_refs_mono(func, p.1.frames.len(), q.1.frames.len());
            lemma_ok_apply(fuel, func, args, q.1);
        }
    }
}

proof fn lemma_ok_apply(fuel: nat, func: SValue, args: Seq<SValue>, env: SEnv)
    requires
        env_ok(env),
        refs_below(func, env.frames.len()),
        all_below(args, env.frames.len()),
    ensures
        keeps_ok(env, sem_apply(fuel, func, args, env)),
    decreases fuel, 2nat, 0nat,
{
    let n = env.frames.len();
    match func {
        SValue::Closure { params, body, env: captured } => {
            if params.len() == args.len() {
                let e1 = new_frame(env, captured);
                lemma_ok_new_frame(env, captured);
                lemma_all_mono(args, n, n + 1);
                lemma_all_mono(body, n, n + 1);
                lemma_ok_bind_params(e1, n, params, args, 0);
                lemma_ok_begin(fuel, body, 0, n, bind_params(e1, n, params, args, 0), SValue::Nil);
            }
        },
        SValue::Builtin(name) => {
            lemma_ok_builtin(name, args, env);
            if args.len() == 2 {
                assert(refs_below(args[0], n));
                assert(refs_below(args[1], n));
                if let SValue::List(items) = args[1] {
                    assert(all_below(seq![], n));
                    lemma_ok_map(fuel, args[0], items, 0, env, seq![]);
                }
                if fuel > 0 {
                    assert(all_below(seq![], n));
                    lemma_ok_apply((fuel - 1) as nat, args[0], seq![], env);
                    if let SValue::List(items) = args[1] {
                        lemma_ok_apply((fuel - 1) as nat, args[0], items, env);
                    }
                }
            }
        },
        _ => {},
    }
}

proof fn lemma_ok_map(fuel: nat, func: SValue, items: Seq<SValue>, i: nat, env: SEnv, acc: Seq<SValue>)
    requires
        env_ok(env),
        refs_below(func, env.frames.len()),
        all_below(items, env.frames.len()),
        all_below(acc, env.frames.len()),
    ensures
        keeps_ok(env, sem_map_from(fuel, func, items, i, env, acc)),
    decreases fuel, 1nat, items.len() - i,
{
    let n = env.frames.len();
    if i < items.len() && fuel > 0 {
        let one = seq![items[i as int]];
        assert forall|k: int| 0 <= k < one.len() implies refs_below(#[trigger] one[k], n) by {}
        let p = sem_apply((fuel - 1) as nat, func, one, env);
        lemma_ok_apply((fuel - 1) as nat, func, one, env);
        if let Ok(v) = p.0 {
            let m = p.1.frames.len();
            lemma_refs_mono(func, n, m);
            lemma_all_mono(items, n, m);
            lemma_all_mono(acc, n, m);
            let acc2 = acc.push(v);
            assert forall|k: int| 0 <= k < acc2.len() implies refs_below(#[trigger] acc2[k], m) by {
                if k < acc.len() {
                    assert(acc2[k] == acc[k]);
                }
            }
            lemma_ok_map(fuel, func, items, i + 1, p.1, acc2);
        }
    }
}

/// Evaluation keeps an environment well formed: evaluating an expression that
/// refers only to existing frames, in an existing frame of a well-formed
/// environment, leaves it well formed, removes no frame, and gives a value
/// that refers only to existing frames.
pub proof fn law_eval_keeps_env_ok(fuel: nat, e: SValue, f: nat, env: SEnv)
    requires
        env_ok(env),
        f < env.frames.len(),
        refs_below(e, env.frames.len()),
    ensures
        keeps_ok(env, sem_eval(fuel, e, f, env)),
{
    lemma_ok_eval(fuel, e, f, env);
}

// ---------------------------------------------------------------- programs and the loop

proof fn lemma_parse_at_refs(ts: Seq<SToken>, i: nat, n: nat)
    ensures
        parse_at(ts, i) matches Ok(r) ==> refs_below(r.0, n),
    decreases ts.len() - i, 0nat,
{
    if i < ts.len() {
        match ts[i as int] {
            SToken::LParen => {
                assert(all_below(seq![], n));
                lemma_parse_items_refs(ts, i + 1, seq![], n);
            },
            SToken::Quote => {
                lemma_parse_at_refs(ts, i + 1, n);
                if let Ok(r) = parse_at(ts, i + 1) {
                    let l = seq![SValue::Symbol("quote"@), r.0];
                    assert forall|k: int| 0 <= k < l.len() implies refs_below(#[trigger] l[k], n) by {}
                }
            },
            _ => {},
        }
    }
}

proof fn lemma_parse_items_refs(ts: Seq<SToken>, j: nat, acc: Seq<SValue>, n: nat)
    requires
        all_below(acc, n),
    ensures
        parse_items(ts, j, acc) matches Ok(r) ==> refs_below(r.0, n),
    decreases ts.len() - j, 1nat,
{
    if j < ts.len() && ts[j as int] != SToken::RParen {
        lemma_parse_at_refs(ts, j, n);
        if let Ok(r) = parse_at(ts, j) {
            if j < r.1 <= ts.len() {
                let acc2 = acc.push(r.0);
                assert forall|k: int| 0 <= k < acc2.len() implies refs_below(#[trigger] acc2[k], n) by {
                    if k < acc.len() {
                        assert(acc2[k] == acc[k]);
                    }
                }
                lemma_parse_items_refs(ts, r.1, acc2, n);
            }
        }
    }
}

proof fn lemma_parse_all_refs(ts: Seq<SToken>, i: nat, acc: Seq<SValue>, n: nat)
    requires
        all_below(acc, n),
    ensures
        parse_all_from(ts, i, acc) matches Ok(vs) ==> all_below(vs, n),
    decreases ts.len() - i,
{
    if i < ts.len() {
        lemma_parse_at_refs(ts, i, n);
        if let Ok(r) = parse_at(ts, i) {
            if i < r.1 <= ts.len() {
                let acc2 = acc.push(r.0);
                assert forall|k: int| 0 <= k < acc2.len() implies refs_below(#[trigger] acc2[k], n) by {
                    if k < acc.len() {
                        assert(acc2[k] == acc[k]);
                    }
                }
                lemma_parse_all_refs(ts, r.1, acc2, n);
            }
        }
    }
}

/// Running source text keeps a well-formed environment with a global frame
/// well formed, and its value refers only to existing frames.
pub proof fn law_run_keeps_env_ok(input: Seq<char>, env: SEnv)
    requires
        env_ok(env),
        env.frames.len() > 0,
    ensures
        keeps_ok(env, sem_run(input, env)),
{
    if let Ok(ts) = lex(input) {
        assert(all_below(seq![], env.frames.len()));
        lemma_parse_all_refs(ts, 0, seq![], env.frames.len());
        if let Ok(exprs) = parse_all_from(ts, 0, seq![]) {
            lemma_ok_begin(EVAL_DEPTH as nat, exprs, 0, 0, env, SValue::Nil);
        }
    }
}

proof fn lemma_ok_define_builtins(env: SEnv, names: Seq<Seq<char>>, i: nat)
    requires
        env_ok(env),
        env.frames.len() > 0,
    ensures
        env_ok(define_builtins(env, names, i)),
        define_builtins(env, names, i).frames.len() == env.frames.len(),
    decreases names.len() - i,
{
    if i < names.len() {
        lemma_ok_define(env, 0, names[i as int], SValue::Builtin(names[i as int]));
        lemma_ok_define_builtins(define(env, 0, names[i as int], SValue::Builtin(names[i as int])), names, i + 1);
    }
}

/// The global environment is well formed and has one frame.
pub proof fn law_global_env_ok()
    ensures
        env_ok(global_env()),
        global_env().frames.len() == 1,
{
    let e = empty_env();
    assert(frame_ok(e.frames[0], 0, 1));
    lemma_ok_define_builtins(e, builtin_names(), 0);
}

/// The interactive loop keeps its environment well formed: feeding any line
/// to a loop whose environment is well formed and has a global frame leaves
/// it so.
pub proof fn law_repl_keeps_env_ok(st: SRepl, line: Seq<char>)
    requires
        env_ok(st.env),
        st.env.frames.len() > 0,
    ensures
        env_ok(repl_feed(st, line).0.env),
        repl_feed(st, line).0.env.frames.len() > 0,
{
    let buf = st.buffer + line;
    law_run_keeps_env_ok(crate::repl::trim(buf), st.env);
}

} // verus!

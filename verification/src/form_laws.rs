//! Laws of evaluation by form: how `if`, `lambda`, `begin`, `and`, `or`,
//! `let` and `cond` evaluate, each stated through the evaluation of its
//! parts; variables; calls and what applying a value does; `map`; and the
//! forms that have too few parts.

use vstd::prelude::*;
use crate::builtins::{apply_builtin, list};
use crate::env::{SEnv, define, lookup, new_frame};
use crate::error::SError;
use crate::eval::{
    sem_and_from, sem_apply, sem_args_from, sem_begin_from, sem_cond_from, sem_eval, sem_let, sem_let_bind, sem_map_from,
    sem_or_from, symbol_names,
};
use crate::value::SValue;

verus! {

/// The form keywords are distinct words.
proof fn lemma_keywords_differ()
    ensures
        "if"@ != "quote"@,
        "def"@ != "quote"@,
        "def"@ != "if"@,
        "lambda"@ != "quote"@,
        "lambda"@ != "if"@,
        "lambda"@ != "def"@,
        "begin"@ != "quote"@,
        "begin"@ != "if"@,
        "begin"@ != "def"@,
        "begin"@ != "lambda"@,
        "set!"@ != "quote"@,
        "set!"@ != "if"@,
        "set!"@ != "def"@,
        "set!"@ != "lambda"@,
        "set!"@ != "begin"@,
        "cond"@ != "quote"@,
        "cond"@ != "if"@,
        "cond"@ != "def"@,
        "cond"@ != "lambda"@,
        "cond"@ != "begin"@,
        "cond"@ != "set!"@,
        "let"@ != "quote"@,
        "let"@ != "if"@,
        "let"@ != "def"@,
        "let"@ != "lambda"@,
        "let"@ != "begin"@,
        "let"@ != "set!"@,
        "let"@ != "cond"@,
        "and"@ != "quote"@,
        "and"@ != "if"@,
        "and"@ != "def"@,
        "and"@ != "lambda"@,
        "and"@ != "begin"@,
        "and"@ != "set!"@,
        "and"@ != "cond"@,
        "and"@ != "let"@,
        "or"@ != "quote"@,
        "or"@ != "if"@,
        "or"@ != "def"@,
        "or"@ != "lambda"@,
        "or"@ != "begin"@,
        "or"@ != "set!"@,
        "or"@ != "cond"@,
        "or"@ != "let"@,
        "or"@ != "and"@,
{
    reveal_strlit("quote");
    reveal_strlit("if");
    reveal_strlit("def");
    reveal_strlit("lambda");
    reveal_strlit("begin");
    reveal_strlit("set!");
    reveal_strlit("cond");
    reveal_strlit("let");
    reveal_strlit("and");
    reveal_strlit("or");
    assert("if"@.len() != "quote"@.len());
    assert("def"@.len() != "quote"@.len());
    assert("def"@.len() != "if"@.len());
    assert("lambda"@.len() != "quote"@.len());
    assert("lambda"@.len() != "if"@.len());
    assert("lambda"@.len() != "def"@.len());
    assert("begin"@[0] != "quote"@[0]);
    assert("begin"@.len() != "if"@.len());
    assert("begin"@.len() != "def"@.len());
    assert("begin"@.len() != "lambda"@.len());
    assert("set!"@.len() != "quote"@.len());
    assert("set!"@.len() != "if"@.len());
    assert("set!"@.len() != "def"@.len());
    assert("set!"@.len() != "lambda"@.len());
    assert("set!"@.len() != "begin"@.len());
    assert("cond"@.len() != "quote"@.len());
    assert("cond"@.len() != "if"@.len());
    assert("cond"@.len() != "def"@.len());
    assert("cond"@.len() != "lambda"@.len());
    assert("cond"@.len() != "begin"@.len());
    assert("cond"@[0] != "set!"@[0]);
    assert("let"@.len() != "quote"@.len());
    assert("let"@.len() != "if"@.len());
    assert("let"@[0] != "def"@[0]);
    assert("let"@.len() != "lambda"@.len());
    assert("let"@.len() != "begin"@.len());
    assert("let"@.len() != "set!"@.len());
    assert("let"@.len() != "cond"@.len());
    assert("and"@.len() != "quote"@.len());
    assert("and"@.len() != "if"@.len());
    assert("and"@[0] != "def"@[0]);
    assert("and"@.len() != "lambda"@.len());
    assert("and"@.len() != "begin"@.len());
    assert("and"@.len() != "set!"@.len());
    assert("and"@.len() != "cond"@.len());
    assert("and"@[0] != "let"@[0]);
    assert("or"@.len() != "quote"@.len());
    assert("or"@[0] != "if"@[0]);
    assert("or"@.len() != "def"@.len());
    assert("or"@.len() != "lambda"@.len());
    assert("or"@.len() != "begin"@.len());
    assert("or"@.len() != "set!"@.len());
    assert("or"@.len() != "cond"@.len());
    assert("or"@.len() != "let"@.len());
    assert("or"@.len() != "and"@.len());
}

/// `(if c a b)` evaluates `c` first; when its value is anything but `#f` the
/// value of the form is that of `a`, else that of `b`; `(if c a)` gives `()`
/// when `c` is `#f`. An error of `c` is the error of the form.
pub proof fn law_if(fuel: nat, c: SValue, a: SValue, b: SValue, f: nat, env: SEnv)
    requires
        fuel > 0,
    ensures
        ({
            let fu = (fuel - 1) as nat;
            let p = sem_eval(fu, c, f, env);
            &&& sem_eval(fuel, SValue::List(seq![SValue::Symbol("if"@), c, a, b]), f, env) == match p.0 {
                Err(e) => (Err(e), p.1),
                Ok(v) => if v != SValue::Bool(false) { sem_eval(fu, a, f, p.1) } else { sem_eval(fu, b, f, p.1) },
            }
            &&& sem_eval(fuel, SValue::List(seq![SValue::Symbol("if"@), c, a]), f, env) == match p.0 {
                Err(e) => (Err(e), p.1),
                Ok(v) => if v != SValue::Bool(false) {
                    sem_eval(fu, a, f, p.1)
                } else {
                    (Ok::<SValue, SError>(SValue::Nil), p.1)
                },
            }
        }),
{
    lemma_keywords_differ();
    let e4 = seq![SValue::Symbol("if"@), c, a, b];
    let e3 = seq![SValue::Symbol("if"@), c, a];
    assert(e4[0] == SValue::Symbol("if"@) && e4[1] == c && e4[2] == a && e4[3] == b);
    assert(e3[0] == SValue::Symbol("if"@) && e3[1] == c && e3[2] == a);
}

/// `(lambda (params...) body...)` evaluated in frame `f` is a closure with
/// those parameters and that body which captures `f` (with `()` for the
/// parameters, a closure of no parameters); the environment is left as it was.
pub proof fn law_lambda_captures_frame(fuel: nat, ps: Seq<SValue>, body: Seq<SValue>, f: nat, env: SEnv)
    requires
        fuel > 0,
        body.len() > 0,
        symbol_names(ps) is Some,
    ensures
        sem_eval(fuel, SValue::List(seq![SValue::Symbol("lambda"@), SValue::List(ps)] + body), f, env)
            == (Ok::<SValue, SError>(SValue::Closure { params: symbol_names(ps)->Some_0, body, env: f }), env),
        sem_eval(fuel, SValue::List(seq![SValue::Symbol("lambda"@), SValue::Nil] + body), f, env)
            == (Ok::<SValue, SError>(SValue::Closure { params: seq![], body, env: f }), env),
{
    lemma_keywords_differ();
    let elems = seq![SValue::Symbol("lambda"@), SValue::List(ps)] + body;
    assert(elems[0] == SValue::Symbol("lambda"@));
    assert(elems[1] == SValue::List(ps));
    assert(elems.subrange(2, elems.len() as int) =~= body);
    let e2 = seq![SValue::Symbol("lambda"@), SValue::Nil] + body;
    assert(e2[0] == SValue::Symbol("lambda"@));
    assert(e2[1] == SValue::Nil);
    assert(e2.subrange(2, e2.len() as int) =~= body);
}

proof fn lemma_begin_push(fuel: nat, s: Seq<SValue>, e: SValue, i: nat, f: nat, env: SEnv, acc: SValue)
    requires
        i <= s.len(),
    ensures
        sem_begin_from(fuel, s.push(e), i, f, env, acc) == match sem_begin_from(fuel, s, i, f, env, acc) {
            (Err(x), e2) => (Err(x), e2),
            (Ok(_), e2) => sem_eval(fuel, e, f, e2),
        },
    decreases s.len() - i,
{
    let t = s.push(e);
    if i < s.len() {
        assert(t[i as int] == s[i as int]);
        let p = sem_eval(fuel, s[i as int], f, env);
        if let Ok(v) = p.0 {
            lemma_begin_push(fuel, s, e, i + 1, f, p.1, v);
        }
    } else {
        assert(t[i as int] == e);
        let p = sem_eval(fuel, e, f, env);
        if let Ok(v) = p.0 {
            assert(sem_begin_from(fuel, t, i + 1, f, p.1, v) == (Ok::<SValue, SError>(v), p.1));
        }
    }
}

/// `(begin)` is `()`; `(begin es... e)` evaluates `es...` in order and then,
/// unless one of them failed, `e` in the environment they left, whose value
/// is the value of the form.
pub proof fn law_begin(fuel: nat, es: Seq<SValue>, e: SValue, f: nat, env: SEnv)
    requires
        fuel > 0,
    ensures
        sem_eval(fuel, SValue::List(seq![SValue::Symbol("begin"@)]), f, env) == (Ok::<SValue, SError>(SValue::Nil), env),
        sem_eval(fuel, SValue::List(seq![SValue::Symbol("begin"@)] + es.push(e)), f, env)
            == match sem_eval(fuel, SValue::List(seq![SValue::Symbol("begin"@)] + es), f, env) {
                (Err(x), e2) => (Err(x), e2),
                (Ok(_), e2) => sem_eval((fuel - 1) as nat, e, f, e2),
            },
{
    lemma_keywords_differ();
    let h = seq![SValue::Symbol("begin"@)];
    assert(h[0] == SValue::Symbol("begin"@));
    let s = h + es;
    assert((h + es.push(e)) =~= s.push(e));
    assert(s[0] == SValue::Symbol("begin"@));
    assert(s.push(e)[0] == SValue::Symbol("begin"@));
    lemma_begin_push((fuel - 1) as nat, s, e, 1, f, env, SValue::Nil);
}

proof fn lemma_and_push(fuel: nat, s: Seq<SValue>, e: SValue, i: nat, f: nat, env: SEnv, acc: SValue)
    requires
        i <= s.len(),
        acc != SValue::Bool(false),
    ensures
        sem_and_from(fuel, s.push(e), i, f, env, acc) == match sem_and_from(fuel, s, i, f, env, acc) {
            (Err(x), e2) => (Err(x), e2),
            (Ok(v), e2) => if v == SValue::Bool(false) {
                (Ok::<SValue, SError>(SValue::Bool(false)), e2)
            } else {
                sem_eval(fuel, e, f, e2)
            },
        },
    decreases s.len() - i,
{
    let t = s.push(e);
    if i < s.len() {
        assert(t[i as int] == s[i as int]);
        let p = sem_eval(fuel, s[i as int], f, env);
        if let Ok(v) = p.0 {
            if v != SValue::Bool(false) {
                lemma_and_push(fuel, s, e, i + 1, f, p.1, v);
            }
        }
    } else {
        assert(t[i as int] == e);
        let p = sem_eval(fuel, e, f, env);
        if let Ok(v) = p.0 {
            assert(sem_and_from(fuel, t, i + 1, f, p.1, v) == (Ok::<SValue, SError>(v), p.1));
        }
    }
}

/// `(and)` is `#t`; `(and es... e)` is `#f` when `(and es...)` is `#f`, its
/// error when it fails, and otherwise the value of `e` evaluated in the
/// environment `es...` left: `e` is not evaluated after a `#f`.
pub proof fn law_and(fuel: nat, es: Seq<SValue>, e: SValue, f: nat, env: SEnv)
    requires
        fuel > 0,
    ensures
        sem_eval(fuel, SValue::List(seq![SValue::Symbol("and"@)]), f, env)
            == (Ok::<SValue, SError>(SValue::Bool(true)), env),
        sem_eval(fuel, SValue::List(seq![SValue::Symbol("and"@)] + es.push(e)), f, env)
            == match sem_eval(fuel, SValue::List(seq![SValue::Symbol("and"@)] + es), f, env) {
                (Err(x), e2) => (Err(x), e2),
                (Ok(v), e2) => if v == SValue::Bool(false) {
                    (Ok::<SValue, SError>(SValue::Bool(false)), e2)
                } else {
                    sem_eval((fuel - 1) as nat, e, f, e2)
                },
            },
{
    lemma_keywords_differ();
    let h = seq![SValue::Symbol("and"@)];
    assert(h[0] == SValue::Symbol("and"@));
    let s = h + es;
    assert((h + es.push(e)) =~= s.push(e));
    assert(s[0] == SValue::Symbol("and"@));
    assert(s.push(e)[0] == SValue::Symbol("and"@));
    lemma_and_push((fuel - 1) as nat, s, e, 1, f, env, SValue::Bool(true));
}

proof fn lemma_or_push(fuel: nat, s: Seq<SValue>, e: SValue, i: nat, f: nat, env: SEnv)
    requires
        i <= s.len(),
    ensures
        sem_or_from(fuel, s.push(e), i, f, env) == match sem_or_from(fuel, s, i, f, env) {
            (Err(x), e2) => (Err(x), e2),
            (Ok(v), e2) => if v != SValue::Bool(false) {
                (Ok::<SValue, SError>(v), e2)
            } else {
                sem_eval(fuel, e, f, e2)
            },
        },
    decreases s.len() - i,
{
    let t = s.push(e);
    if i < s.len() {
        assert(t[i as int] == s[i as int]);
        let p = sem_eval(fuel, s[i as int], f, env);
        if let Ok(v) = p.0 {
            if v == SValue::Bool(false) {
                lemma_or_push(fuel, s, e, i + 1, f, p.1);
            }
        }
    } else {
        assert(t[i as int] == e);
        let p = sem_eval(fuel, e, f, env);
        if let Ok(v) = p.0 {
            assert(sem_or_from(fuel, t, i + 1, f, p.1) == (Ok::<SValue, SError>(SValue::Bool(false)), p.1));
        }
    }
}

/// `(or)` is `#f`; `(or es... e)` is the value of `(or es...)` when that is
/// anything but `#f`, its error when it fails, and otherwise the value of `e`
/// evaluated in the environment `es...` left: `e` is not evaluated after a
/// true value.
pub proof fn law_or(fuel: nat, es: Seq<SValue>, e: SValue, f: nat, env: SEnv)
    requires
        fuel > 0,
    ensures
        sem_eval(fuel, SValue::List(seq![SValue::Symbol("or"@)]), f, env)
            == (Ok::<SValue, SError>(SValue::Bool(false)), env),
        sem_eval(fuel, SValue::List(seq![SValue::Symbol("or"@)] + es.push(e)), f, env)
            == match sem_eval(fuel, SValue::List(seq![SValue::Symbol("or"@)] + es), f, env) {
                (Err(x), e2) => (Err(x), e2),
                (Ok(v), e2) => if v != SValue::Bool(false) {
                    (Ok::<SValue, SError>(v), e2)
                } else {
                    sem_eval((fuel - 1) as nat, e, f, e2)
                },
            },
{
    lemma_keywords_differ();
    let h = seq![SValue::Symbol("or"@)];
    assert(h[0] == SValue::Symbol("or"@));
    let s = h + es;
    assert((h + es.push(e)) =~= s.push(e));
    assert(s[0] == SValue::Symbol("or"@));
    assert(s.push(e)[0] == SValue::Symbol("or"@));
    lemma_or_push((fuel - 1) as nat, s, e, 1, f, env);
}

/// The value of a body `b` evaluated in frame `nf`, after the value `v` of a
/// binding's expression (or its error) has been bound to `x` in `nf`.
pub open spec fn then_bound(
    fuel: nat,
    p: (Result<SValue, SError>, SEnv),
    nf: nat,
    x: Seq<char>,
    b: SValue,
) -> (Result<SValue, SError>, SEnv) {
    match p.0 {
        Err(e) => (Err(e), p.1),
        Ok(v) => sem_eval(fuel, b, nf, define(p.1, nf, x, v)),
    }
}

/// `let` makes a new frame under the current frame `f`: each binding's
/// expression is evaluated in `f` (so it does not see the names the `let`
/// binds), its value is bound in the new frame, and the body is evaluated in
/// the new frame. With one binding `(let ((x e)) b)`, and with two,
/// `(let ((x e) (y d)) b)`.
pub proof fn law_let(fuel: nat, x: Seq<char>, e: SValue, y: Seq<char>, d: SValue, b: SValue, f: nat, env: SEnv)
    requires
        fuel > 0,
    ensures
        ({
            let fu = (fuel - 1) as nat;
            let nf = env.frames.len();
            let p = sem_eval(fu, e, f, new_frame(env, f));
            &&& sem_eval(fuel, SValue::List(seq![
                SValue::Symbol("let"@),
                SValue::List(seq![SValue::List(seq![SValue::Symbol(x), e])]),
                b,
            ]), f, env) == then_bound(fu, p, nf, x, b)
            &&& sem_eval(fuel, SValue::List(seq![
                SValue::Symbol("let"@),
                SValue::List(seq![SValue::List(seq![SValue::Symbol(x), e]), SValue::List(seq![SValue::Symbol(y), d])]),
                b,
            ]), f, env) == match p.0 {
                Err(err) => (Err(err), p.1),
                Ok(v) => then_bound(fu, sem_eval(fu, d, f, define(p.1, nf, x, v)), nf, y, b),
            }
        }),
{
    lemma_keywords_differ();
    let fu = (fuel - 1) as nat;
    let nf = env.frames.len();
    let e0 = new_frame(env, f);
    let bx = SValue::List(seq![SValue::Symbol(x), e]);
    let by = SValue::List(seq![SValue::Symbol(y), d]);
    let bs1 = seq![bx];
    let bs2 = seq![bx, by];
    let l1 = seq![SValue::Symbol("let"@), SValue::List(bs1), b];
    let l2 = seq![SValue::Symbol("let"@), SValue::List(bs2), b];
    assert(l1[0] == SValue::Symbol("let"@) && l1[1] == SValue::List(bs1) && l1[2] == b);
    assert(l2[0] == SValue::Symbol("let"@) && l2[1] == SValue::List(bs2) && l2[2] == b);
    assert(bs1[0] == bx && bs2[0] == bx && bs2[1] == by);
    assert(seq![SValue::Symbol(x), e][0] == SValue::Symbol(x) && seq![SValue::Symbol(x), e][1] == e);
    assert(seq![SValue::Symbol(y), d][0] == SValue::Symbol(y) && seq![SValue::Symbol(y), d][1] == d);
    assert(sem_eval(fuel, SValue::List(l1), f, env) == sem_let(fu, l1, f, env));
    assert(sem_eval(fuel, SValue::List(l2), f, env) == sem_let(fu, l2, f, env));
    assert(sem_let(fu, l1, f, env) == sem_let_bind(fu, bs1, 0, f, nf, e0, l1));
    assert(sem_let(fu, l2, f, env) == sem_let_bind(fu, bs2, 0, f, nf, e0, l2));
    let p = sem_eval(fu, e, f, e0);
    if let Ok(v) = p.0 {
        let env1 = define(p.1, nf, x, v);
        assert(sem_let_bind(fu, bs1, 0, f, nf, e0, l1) == sem_let_bind(fu, bs1, 1, f, nf, env1, l1));
        assert(sem_let_bind(fu, bs1, 1, f, nf, env1, l1) == sem_begin_from(fu, l1, 2, nf, env1, SValue::Nil));
        let q = sem_eval(fu, b, nf, env1);
        if let Ok(w) = q.0 {
            assert(sem_begin_from(fu, l1, 3, nf, q.1, w) == (Ok::<SValue, SError>(w), q.1));
        }
        assert(sem_begin_from(fu, l1, 2, nf, env1, SValue::Nil) == q);
        assert(sem_let_bind(fu, bs2, 0, f, nf, e0, l2) == sem_let_bind(fu, bs2, 1, f, nf, env1, l2));
        let p2 = sem_eval(fu, d, f, env1);
        if let Ok(v2) = p2.0 {
            let env2 = define(p2.1, nf, y, v2);
            assert(sem_let_bind(fu, bs2, 1, f, nf, env1, l2) == sem_let_bind(fu, bs2, 2, f, nf, env2, l2));
            assert(sem_let_bind(fu, bs2, 2, f, nf, env2, l2) == sem_begin_from(fu, l2, 2, nf, env2, SValue::Nil));
            let q2 = sem_eval(fu, b, nf, env2);
            if let Ok(w) = q2.0 {
                assert(sem_begin_from(fu, l2, 3, nf, q2.1, w) == (Ok::<SValue, SError>(w), q2.1));
            }
            assert(sem_begin_from(fu, l2, 2, nf, env2, SValue::Nil) == q2);
        }
    }
}

proof fn lemma_cond_shift(fuel: nat, a: Seq<SValue>, b: Seq<SValue>, i: nat, f: nat, env: SEnv)
    requires
        a.len() == b.len() + 1,
        1 <= i,
        forall|k: int| 1 <= k < b.len() ==> a[k + 1] == b[k],
    ensures
        sem_cond_from(fuel, a, i + 1, f, env) == sem_cond_from(fuel, b, i, f, env),
    decreases b.len() - i,
{
    if i < b.len() {
        assert(a[i as int + 1] == b[i as int]);
        if let SValue::List(parts) = b[i as int] {
            if parts.len() >= 2 && parts[0] != SValue::Symbol("else"@) {
                let p = sem_eval(fuel, parts[0], f, env);
                lemma_cond_shift(fuel, a, b, i + 1, f, p.1);
            }
        }
    }
}

/// The body of a clause `(t b)`: the value of `b`.
proof fn lemma_clause_body(fuel: nat, t: SValue, b: SValue, f: nat, env: SEnv)
    ensures
        sem_begin_from(fuel, seq![t, b], 1, f, env, SValue::Nil) == sem_eval(fuel, b, f, env),
{
    let parts = seq![t, b];
    assert(parts[1] == b);
    let q = sem_eval(fuel, b, f, env);
    if let Ok(w) = q.0 {
        assert(sem_begin_from(fuel, parts, 2, f, q.1, w) == (Ok::<SValue, SError>(w), q.1));
    }
}

/// `cond` tries its clauses in order: `(cond)` is `()`; a first clause
/// `(else b)` gives the value of `b`; a first clause `(c b)` evaluates `c`, and
/// gives the value of `b` when that is anything but `#f`, else the value of
/// the `cond` of the remaining clauses in the environment `c` left.
pub proof fn law_cond(fuel: nat, c: SValue, b: SValue, rest: Seq<SValue>, f: nat, env: SEnv)
    requires
        fuel > 0,
    ensures
        sem_eval(fuel, SValue::List(seq![SValue::Symbol("cond"@)]), f, env) == (Ok::<SValue, SError>(SValue::Nil), env),
        sem_eval(fuel, SValue::List(seq![SValue::Symbol("cond"@), SValue::List(seq![SValue::Symbol("else"@), b])] + rest), f, env)
            == sem_eval((fuel - 1) as nat, b, f, env),
        c != SValue::Symbol("else"@) ==> ({
            let fu = (fuel - 1) as nat;
            let p = sem_eval(fu, c, f, env);
            sem_eval(fuel, SValue::List(seq![SValue::Symbol("cond"@), SValue::List(seq![c, b])] + rest), f, env)
                == match p.0 {
                    Err(e) => (Err(e), p.1),
                    Ok(v) => if v != SValue::Bool(false) {
                        sem_eval(fu, b, f, p.1)
                    } else {
                        sem_eval(fuel, SValue::List(seq![SValue::Symbol("cond"@)] + rest), f, p.1)
                    },
                }
        }),
{
    lemma_keywords_differ();
    let fu = (fuel - 1) as nat;
    let h = seq![SValue::Symbol("cond"@)];
    assert(h[0] == SValue::Symbol("cond"@));
    let hb = h + rest;
    assert(hb[0] == SValue::Symbol("cond"@));
    let ce = SValue::List(seq![SValue::Symbol("else"@), b]);
    let ae = seq![SValue::Symbol("cond"@), ce] + rest;
    assert(ae[0] == SValue::Symbol("cond"@) && ae[1] == ce);
    assert(seq![SValue::Symbol("else"@), b][0] == SValue::Symbol("else"@));
    lemma_clause_body(fu, SValue::Symbol("else"@), b, f, env);
    let cc = SValue::List(seq![c, b]);
    let ac = seq![SValue::Symbol("cond"@), cc] + rest;
    assert(ac[0] == SValue::Symbol("cond"@) && ac[1] == cc);
    assert(seq![c, b][0] == c);
    let p = sem_eval(fu, c, f, env);
    lemma_clause_body(fu, c, b, f, p.1);
    assert forall|k: int| 1 <= k < hb.len() implies ac[k + 1] == hb[k] by {}
    lemma_cond_shift(fu, ac, hb, 1, f, p.1);
}

/// Whether `e` is one of the words that begin a special form.
pub open spec fn is_form_keyword(e: SValue) -> bool {
    e matches SValue::Symbol(n) && (n == "quote"@ || n == "if"@ || n == "def"@ || n == "lambda"@ || n == "begin"@
        || n == "set!"@ || n == "cond"@ || n == "let"@ || n == "and"@ || n == "or"@)
}

/// A call `(g a b)` evaluates the operator `g` first, then the arguments from
/// left to right, each in the environment the previous one left, and then
/// applies the operator's value to the arguments' values; the first error is
/// the error of the call.
pub proof fn law_call(fuel: nat, g: SValue, a: SValue, b: SValue, f: nat, env: SEnv)
    requires
        fuel > 0,
        !is_form_keyword(g),
    ensures
        ({
            let fu = (fuel - 1) as nat;
            let p = sem_eval(fu, g, f, env);
            sem_eval(fuel, SValue::List(seq![g, a, b]), f, env) == match p.0 {
                Err(e) => (Err(e), p.1),
                Ok(func) => {
                    let q = sem_eval(fu, a, f, p.1);
                    match q.0 {
                        Err(e) => (Err(e), q.1),
                        Ok(x) => {
                            let r = sem_eval(fu, b, f, q.1);
                            match r.0 {
                                Err(e) => (Err(e), r.1),
                                Ok(y) => sem_apply(fu, func, seq![x, y], r.1),
                            }
                        },
                    }
                },
            }
        }),
{
    let fu = (fuel - 1) as nat;
    let elems = seq![g, a, b];
    assert(elems[0] == g && elems[1] == a && elems[2] == b);
    assert(sem_eval(fuel, SValue::List(elems), f, env) == crate::eval::sem_call(fu, elems, f, env));
    let p = sem_eval(fu, g, f, env);
    if let Ok(func) = p.0 {
        let q = sem_eval(fu, a, f, p.1);
        if let Ok(x) = q.0 {
            let r = sem_eval(fu, b, f, q.1);
            assert(sem_args_from(fu, elems, 1, f, p.1, seq![]) == sem_args_from(fu, elems, 2, f, q.1, seq![x]));
            if let Ok(y) = r.0 {
                assert(seq![x].push(y) =~= seq![x, y]);
                assert(sem_args_from(fu, elems, 2, f, q.1, seq![x]) == sem_args_from(fu, elems, 3, f, r.1, seq![x, y]));
            }
        }
    }
}

/// A symbol evaluates to its value seen from the current frame, or fails with
/// `Undefined variable` naming it; `()` written as an empty list evaluates to
/// `()`. Neither changes the environment.
pub proof fn law_variable(fuel: nat, name: Seq<char>, f: nat, env: SEnv)
    requires
        fuel > 0,
    ensures
        sem_eval(fuel, SValue::Symbol(name), f, env) == (match lookup(env, f, name) {
            Some(v) => Ok::<SValue, SError>(v),
            None => Err::<SValue, SError>(SError::UndefinedVariable(name)),
        }, env),
        sem_eval(fuel, SValue::List(seq![]), f, env) == (Ok::<SValue, SError>(SValue::Nil), env),
{
}

/// Applying: a closure to the wrong number of arguments fails with the
/// expected and the given counts; a builtin other than `map` and `apply`
/// answers as the builtin does; a value that is not a procedure cannot be
/// applied. None of these failures changes the environment.
pub proof fn law_apply_cases(fuel: nat, func: SValue, args: Seq<SValue>, env: SEnv)
    ensures
        func matches SValue::Closure { params, .. } ==> (params.len() != args.len() ==> sem_apply(fuel, func, args, env)
            == (Err::<SValue, SError>(SError::ArgCount(params.len(), args.len())), env)),
        func matches SValue::Builtin(name) ==> (name != "map"@ && name != "apply"@ ==> sem_apply(fuel, func, args, env)
            == apply_builtin(name, args, env)),
        !(func is Closure || func is Builtin) ==> sem_apply(fuel, func, args, env)
            == (Err::<SValue, SError>(SError::NotAFunction(func)), env),
{
}

/// The elements of a list value (none for anything else).
pub open spec fn elements(v: SValue) -> Seq<SValue> {
    match v {
        SValue::List(xs) => xs,
        _ => seq![],
    }
}

proof fn lemma_map_push(fuel: nat, func: SValue, items: Seq<SValue>, x: SValue, i: nat, env: SEnv, acc: Seq<SValue>)
    requires
        fuel > 0,
        i <= items.len(),
        acc.len() == i,
    ensures
        sem_map_from(fuel, func, items.push(x), i, env, acc) == match sem_map_from(fuel, func, items, i, env, acc) {
            (Err(e), e2) => (Err(e), e2),
            (Ok(v), e2) => {
                let p = sem_apply((fuel - 1) as nat, func, seq![x], e2);
                match p.0 {
                    Err(e) => (Err(e), p.1),
                    Ok(w) => (Ok::<SValue, SError>(SValue::List(elements(v).push(w))), p.1),
                }
            },
        },
    decreases items.len() - i,
{
    let t = items.push(x);
    if i < items.len() {
        assert(t[i as int] == items[i as int]);
        let p = sem_apply((fuel - 1) as nat, func, seq![items[i as int]], env);
        if let Ok(v) = p.0 {
            lemma_map_push(fuel, func, items, x, i + 1, p.1, acc.push(v));
        }
    } else {
        assert(t[i as int] == x);
        assert(elements(list(acc)) =~= acc);
        let p = sem_apply((fuel - 1) as nat, func, seq![x], env);
        if let Ok(w) = p.0 {
            assert(sem_map_from(fuel, func, t, i + 1, p.1, acc.push(w))
                == (Ok::<SValue, SError>(list(acc.push(w))), p.1));
        }
    }
}

/// `map` applies its procedure to the items in order: `(map g (xs... x))` is
/// `(map g (xs...))` with the value of `(g x)`, applied afterwards in the
/// environment the others left, added at the end; `(map g ())` is `()`.
pub proof fn law_map(fuel: nat, func: SValue, items: Seq<SValue>, x: SValue, env: SEnv)
    requires
        fuel > 0,
    ensures
        sem_apply(fuel, SValue::Builtin("map"@), seq![func, SValue::Nil], env) == (Ok::<SValue, SError>(SValue::Nil), env),
        sem_apply(fuel, SValue::Builtin("map"@), seq![func, SValue::List(items.push(x))], env)
            == match sem_map_from(fuel, func, items, 0, env, seq![]) {
                (Err(e), e2) => (Err(e), e2),
                (Ok(v), e2) => {
                    let p = sem_apply((fuel - 1) as nat, func, seq![x], e2);
                    match p.0 {
                        Err(e) => (Err(e), p.1),
                        Ok(w) => (Ok::<SValue, SError>(SValue::List(elements(v).push(w))), p.1),
                    }
                },
            },
{
    let a1 = seq![func, SValue::Nil];
    let a2 = seq![func, SValue::List(items.push(x))];
    assert(a1[1] == SValue::Nil && a1[0] == func);
    assert(a2[1] == SValue::List(items.push(x)) && a2[0] == func);
    lemma_map_push(fuel, func, items, x, 0, env, seq![]);
}

/// `(let () b)` evaluates the body in the current frame.
pub proof fn law_let_no_bindings(fuel: nat, b: SValue, f: nat, env: SEnv)
    requires
        fuel > 0,
    ensures
        sem_eval(fuel, SValue::List(seq![SValue::Symbol("let"@), SValue::Nil, b]), f, env)
            == sem_eval((fuel - 1) as nat, b, f, env),
{
    lemma_keywords_differ();
    let fu = (fuel - 1) as nat;
    let l = seq![SValue::Symbol("let"@), SValue::Nil, b];
    assert(l[0] == SValue::Symbol("let"@) && l[1] == SValue::Nil && l[2] == b);
    assert(sem_eval(fuel, SValue::List(l), f, env) == sem_let(fu, l, f, env));
    let q = sem_eval(fu, b, f, env);
    if let Ok(w) = q.0 {
        assert(sem_begin_from(fu, l, 3, f, q.1, w) == (Ok::<SValue, SError>(w), q.1));
    }
}

/// Forms with too few parts fail before anything is evaluated, and leave the
/// environment as it was: `(quote)`, `(if c)`, `(def)`, `(lambda ps)`,
/// `(set! x)` and `(let bs)`.
pub proof fn law_form_arity(fuel: nat, c: SValue, f: nat, env: SEnv)
    requires
        fuel > 0,
    ensures
        sem_eval(fuel, SValue::List(seq![SValue::Symbol("quote"@)]), f, env)
            == (Err::<SValue, SError>(SError::QuoteArity), env),
        sem_eval(fuel, SValue::List(seq![SValue::Symbol("if"@), c]), f, env)
            == (Err::<SValue, SError>(SError::IfArity), env),
        sem_eval(fuel, SValue::List(seq![SValue::Symbol("def"@)]), f, env)
            == (Err::<SValue, SError>(SError::DefMissingTarget), env),
        sem_eval(fuel, SValue::List(seq![SValue::Symbol("lambda"@), c]), f, env)
            == (Err::<SValue, SError>(SError::LambdaArity), env),
        sem_eval(fuel, SValue::List(seq![SValue::Symbol("set!"@), c]), f, env)
            == (Err::<SValue, SError>(SError::SetArity), env),
        sem_eval(fuel, SValue::List(seq![SValue::Symbol("let"@), c]), f, env)
            == (Err::<SValue, SError>(SError::LetArity), env),
{
    lemma_keywords_differ();
    assert(seq![SValue::Symbol("quote"@)][0] == SValue::Symbol("quote"@));
    assert(seq![SValue::Symbol("if"@), c][0] == SValue::Symbol("if"@));
    assert(seq![SValue::Symbol("def"@)][0] == SValue::Symbol("def"@));
    assert(seq![SValue::Symbol("lambda"@), c][0] == SValue::Symbol("lambda"@));
    assert(seq![SValue::Symbol("set!"@), c][0] == SValue::Symbol("set!"@));
    assert(seq![SValue::Symbol("let"@), c][0] == SValue::Symbol("let"@));
}

} // verus!

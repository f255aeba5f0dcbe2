//! Laws of the interpreter, proved over the models of its parts.

use vstd::prelude::*;
use crate::builtins::{
    ArithOp, CmpOp, TypePred, all_numbers, append_from, apply_builtin, arith, car, cdr, compare_op, cons, divide,
    builtin_names, fold_from, is_eq, length, list, lists_equal_from, numeric_op, type_pred, values_equal,
};
use crate::env::{SEnv, bind, define, find, find_from, lookup, new_frame, set_var};
use crate::error::SError;
use crate::number::{SNum, abs, gcd, lemma_gcd_divides, normalize, num_add, num_mul};
use crate::value::{SValue, show};

verus! {

// ---------------------------------------------------------------- finding a binding

proof fn lemma_find_from_some(vars: Seq<(Seq<char>, SValue)>, name: Seq<char>, j: nat)
    ensures
        find_from(vars, name, j) matches Some(i) ==> {
            &&& j <= i < vars.len()
            &&& vars[i as int].0 == name
            &&& forall|k: int| j <= k < i ==> (#[trigger] vars[k]).0 != name
        },
        find_from(vars, name, j) is None ==> forall|k: int| j <= k < vars.len() ==> (#[trigger] vars[k]).0 != name,
    decreases vars.len() - j,
{
    if j < vars.len() && vars[j as int].0 != name {
        lemma_find_from_some(vars, name, j + 1);
    }
}

proof fn lemma_find_from_at(vars: Seq<(Seq<char>, SValue)>, name: Seq<char>, j: nat, i: nat)
    requires
        j <= i < vars.len(),
        vars[i as int].0 == name,
        forall|k: int| j <= k < i ==> (#[trigger] vars[k]).0 != name,
    ensures
        find_from(vars, name, j) == Some(i),
    decreases i - j,
{
    if j < i {
        lemma_find_from_at(vars, name, j + 1, i);
    }
}

proof fn lemma_find_from_none(vars: Seq<(Seq<char>, SValue)>, name: Seq<char>, j: nat)
    requires
        forall|k: int| j <= k < vars.len() ==> (#[trigger] vars[k]).0 != name,
    ensures
        find_from(vars, name, j) is None,
    decreases vars.len() - j,
{
    if j < vars.len() {
        lemma_find_from_none(vars, name, j + 1);
    }
}

/// After binding `name`, the frame's binding of `name` is the new value.
proof fn lemma_bind_same(vars: Seq<(Seq<char>, SValue)>, name: Seq<char>, val: SValue)
    ensures
        find(bind(vars, name, val), name) matches Some(k) && bind(vars, name, val)[k as int] == (name, val),
{
    lemma_find_from_some(vars, name, 0);
    let b = bind(vars, name, val);
    match find(vars, name) {
        Some(i) => {
            assert forall|k: int| 0 <= k < i implies (#[trigger] b[k]).0 != name by {
                assert(b[k] == vars[k]);
            }
            lemma_find_from_at(b, name, 0, i);
        },
        None => {
            let n = vars.len();
            assert forall|k: int| 0 <= k < n implies (#[trigger] b[k]).0 != name by {
                assert(b[k] == vars[k]);
            }
            lemma_find_from_at(b, name, 0, n);
        },
    }
}

/// Binding `name` leaves what the frame says of any other name unchanged.
proof fn lemma_bind_other(vars: Seq<(Seq<char>, SValue)>, name: Seq<char>, val: SValue, other: Seq<char>)
    requires
        other != name,
    ensures
        find(bind(vars, name, val), other) == find(vars, other),
        find(vars, other) matches Some(k) ==> bind(vars, name, val)[k as int] == vars[k as int],
{
    lemma_find_from_some(vars, name, 0);
    lemma_find_from_some(vars, other, 0);
    let b = bind(vars, name, val);
    match find(vars, other) {
        Some(i) => {
            assert forall|k: int| 0 <= k < i implies (#[trigger] b[k]).0 != other by {
                assert(b[k].0 == vars[k].0);
            }
            assert(b[i as int].0 == other);
            lemma_find_from_at(b, other, 0, i);
        },
        None => {
            assert forall|k: int| 0 <= k < b.len() implies (#[trigger] b[k]).0 != other by {
                if k < vars.len() {
                    assert(b[k].0 == vars[k].0);
                }
            }
            lemma_find_from_none(b, other, 0);
        },
    }
}

// ---------------------------------------------------------------- environments

/// Lookups from frame `g` depend only on the frames up to `g`.
proof fn lemma_lookup_prefix(e1: SEnv, e2: SEnv, g: nat, name: Seq<char>)
    requires
        g < e1.frames.len(),
        g < e2.frames.len(),
        forall|h: int| 0 <= h <= g ==> e1.frames[h] == e2.frames[h],
    ensures
        lookup(e1, g, name) == lookup(e2, g, name),
    decreases g,
{
    let fr = e1.frames[g as int];
    if let Some(p) = fr.parent {
        if p < g {
            lemma_lookup_prefix(e1, e2, p, name);
        }
    }
}

/// A definition is read back: after `name` is bound to `val` in frame `f`,
/// looking `name` up from `f` gives `val`.
pub proof fn law_define_then_lookup(env: SEnv, f: nat, name: Seq<char>, val: SValue)
    requires
        f < env.frames.len(),
    ensures
        lookup(define(env, f, name, val), f, name) == Some(val),
{
    lemma_bind_same(env.frames[f as int].vars, name, val);
}

/// A definition of `name` changes the value of no other name, seen from any frame.
pub proof fn law_define_other_name(env: SEnv, f: nat, name: Seq<char>, val: SValue, g: nat, other: Seq<char>)
    requires
        other != name,
    ensures
        lookup(define(env, f, name, val), g, other) == lookup(env, g, other),
    decreases g,
{
    let e2 = define(env, f, name, val);
    if g < env.frames.len() {
        if g == f {
            lemma_bind_other(env.frames[f as int].vars, name, val, other);
        }
        let fr = env.frames[g as int];
        if let Some(p) = fr.parent {
            if p < g {
                law_define_other_name(env, f, name, val, p, other);
            }
        }
    }
}

/// Lexical scope: a definition in a frame is invisible from the frames
/// created before it (every frame's ancestors were created before it).
pub proof fn law_define_invisible_to_older(env: SEnv, c: nat, name: Seq<char>, val: SValue, g: nat, other: Seq<char>)
    requires
        g < c,
    ensures
        lookup(define(env, c, name, val), g, other) == lookup(env, g, other),
{
    let e2 = define(env, c, name, val);
    if g < env.frames.len() {
        lemma_lookup_prefix(e2, env, g, other);
    }
}

/// A new frame sees exactly the bindings of its parent.
pub proof fn law_new_frame_sees_parent(env: SEnv, parent: nat, name: Seq<char>)
    requires
        parent < env.frames.len(),
    ensures
        lookup(new_frame(env, parent), env.frames.len(), name) == lookup(env, parent, name),
{
    let e2 = new_frame(env, parent);
    let c = env.frames.len();
    assert(e2.frames[c as int].vars =~= seq![]);
    assert(find_from(e2.frames[c as int].vars, name, 0) is None);
    lemma_lookup_prefix(e2, env, parent, name);
}

proof fn lemma_set_var(env: SEnv, f: nat, name: Seq<char>, val: SValue)
    ensures
        set_var(env, f, name, val) matches Some(e2) ==> {
            &&& lookup(e2, f, name) == Some(val)
            &&& e2.frames.len() == env.frames.len()
            &&& forall|h: int| f < h < env.frames.len() ==> e2.frames[h] == env.frames[h]
        },
        set_var(env, f, name, val) is None <==> lookup(env, f, name) is None,
    decreases f,
{
    if f < env.frames.len() {
        let fr = env.frames[f as int];
        match find(fr.vars, name) {
            Some(i) => {
                law_define_then_lookup(env, f, name, val);
            },
            None => {
                if let Some(p) = fr.parent {
                    if p < f {
                        lemma_set_var(env, p, name, val);
                        if let Some(e2) = set_var(env, p, name, val) {
                            assert(e2.frames[f as int] == fr);
                        }
                    }
                }
            },
        }
    }
}

/// A successful assignment keeps the number of frames.
pub proof fn lemma_set_var_len(env: SEnv, f: nat, name: Seq<char>, val: SValue)
    ensures
        set_var(env, f, name, val) matches Some(e2) ==> e2.frames.len() == env.frames.len(),
{
    lemma_set_var(env, f, name, val);
}

/// An assignment is read back: after `set!` of `name` succeeds from frame
/// `f`, looking `name` up from `f` gives the assigned value.
pub proof fn law_set_then_lookup(env: SEnv, f: nat, name: Seq<char>, val: SValue)
    requires
        set_var(env, f, name, val) is Some,
    ensures
        lookup(set_var(env, f, name, val).unwrap(), f, name) == Some(val),
{
    lemma_set_var(env, f, name, val);
}

/// An assignment of `name` changes the value of no other name, seen from any frame.
pub proof fn law_set_other_name(env: SEnv, f: nat, name: Seq<char>, val: SValue, g: nat, other: Seq<char>)
    requires
        other != name,
        set_var(env, f, name, val) is Some,
    ensures
        lookup(set_var(env, f, name, val).unwrap(), g, other) == lookup(env, g, other),
    decreases f,
{
    let fr = env.frames[f as int];
    match find(fr.vars, name) {
        Some(i) => {
            law_define_other_name(env, f, name, val, g, other);
        },
        None => {
            if let Some(p) = fr.parent {
                law_set_other_name(env, p, name, val, g, other);
            }
        },
    }
}

/// `set!` fails exactly when the name is bound in no frame of the chain.
pub proof fn law_set_fails_iff_unbound(env: SEnv, f: nat, name: Seq<char>, val: SValue)
    ensures
        set_var(env, f, name, val) is None <==> lookup(env, f, name) is None,
{
    lemma_set_var(env, f, name, val);
}

// ---------------------------------------------------------------- lists and equality

/// `car` of `cons` gives back the first argument.
pub proof fn law_car_of_cons(a: SValue, l: SValue)
    ensures
        cons(seq![a, l]) matches Ok(x) && car(seq![x]) == Ok::<SValue, crate::error::SError>(a),
{
}

/// `cdr` of `cons` gives back a proper list argument (`()` or a non-empty list).
pub proof fn law_cdr_of_cons(a: SValue, l: SValue)
    requires
        l is Nil || (l matches SValue::List(es) && es.len() > 0),
    ensures
        cons(seq![a, l]) matches Ok(x) && cdr(seq![x]) == Ok::<SValue, crate::error::SError>(l),
{
    if let SValue::List(es) = l {
        assert((seq![a] + es).drop_first() =~= es);
    }
}

/// Addition of numbers commutes.
pub proof fn law_add_commutes(a: SNum, b: SNum)
    ensures
        num_add(a, b) == num_add(b, a),
{
    assert(a.den * b.den == b.den * a.den) by (nonlinear_arith);
}

/// Multiplication of numbers commutes.
pub proof fn law_mul_commutes(a: SNum, b: SNum)
    ensures
        num_mul(a, b) == num_mul(b, a),
{
    assert(a.den * b.den == b.den * a.den) by (nonlinear_arith);
    assert(a.num * b.num == b.num * a.num) by (nonlinear_arith);
}

/// `eq?` is reflexive on symbols, numbers, booleans and `()`.
pub proof fn law_eq_reflexive(v: SValue)
    requires
        v is Symbol || v is Number || v is Bool || v is Nil,
    ensures
        is_eq(v, v),
{
}

/// `equal?` is symmetric.
pub proof fn law_equal_symmetric(a: SValue, b: SValue)
    ensures
        values_equal(a, b) == values_equal(b, a),
    decreases a, 1nat,
{
    match (a, b) {
        (SValue::List(xs), SValue::List(ys)) => {
            if xs.len() == ys.len() {
                lemma_lists_equal_symmetric(xs, ys, 0);
            }
        },
        _ => {},
    }
}

proof fn lemma_lists_equal_symmetric(xs: Seq<SValue>, ys: Seq<SValue>, i: nat)
    requires
        xs.len() == ys.len(),
    ensures
        lists_equal_from(xs, ys, i) == lists_equal_from(ys, xs, i),
    decreases xs, xs.len() - i,
{
    if i < xs.len() {
        law_equal_symmetric(xs[i as int], ys[i as int]);
        lemma_lists_equal_symmetric(xs, ys, i + 1);
    }
}

proof fn lemma_fold_total(op: ArithOp, args: Seq<SValue>, i: nat, acc: SNum)
    requires
        op != ArithOp::Div,
        all_numbers(args),
    ensures
        fold_from(op, args, i, acc) is Ok,
    decreases args.len() - i,
{
    if i < args.len() {
        assert(args[i as int] is Number);
        if let SValue::Number(n) = args[i as int] {
            let r = match op {
                ArithOp::Add => num_add(acc, n),
                ArithOp::Sub => crate::number::num_sub(acc, n),
                ArithOp::Mul => num_mul(acc, n),
                ArithOp::Div => acc,
            };
            lemma_fold_total(op, args, i + 1, r);
        }
    }
}

/// Addition, subtraction and multiplication of numbers always give a number:
/// `+`, `-` and `*` fail exactly when some argument is not a number.
pub proof fn law_arithmetic_total(op: ArithOp, args: Seq<SValue>)
    requires
        op != ArithOp::Div,
    ensures
        numeric_op(op, args) is Ok <==> all_numbers(args),
{
    if all_numbers(args) && args.len() > 1 {
        assert(args[0] is Number);
        if let SValue::Number(first) = args[0] {
            lemma_fold_total(op, args, 1, first);
        }
    }
}

// ---------------------------------------------------------------- arithmetic folds

/// One more step of an arithmetic fold: `x` combined, on the right, with the
/// number a fold gave; a failed fold stays failed.
pub open spec fn fold_step(op: ArithOp, r: Result<SValue, SError>, x: SNum) -> Result<SValue, SError> {
    match r {
        Ok(SValue::Number(v)) => match arith(op, v, x) {
            Ok(w) => Ok(SValue::Number(w)),
            Err(e) => Err(e),
        },
        other => other,
    }
}

proof fn lemma_fold_push(op: ArithOp, s: Seq<SValue>, x: SNum, i: nat, acc: SNum)
    requires
        i <= s.len(),
    ensures
        fold_from(op, s.push(SValue::Number(x)), i, acc) == fold_step(op, fold_from(op, s, i, acc), x),
    decreases s.len() - i,
{
    let t = s.push(SValue::Number(x));
    if i < s.len() {
        assert(t[i as int] == s[i as int]);
        if let SValue::Number(n) = s[i as int] {
            if let Ok(r) = arith(op, acc, n) {
                lemma_fold_push(op, s, x, i + 1, r);
            }
        }
    } else {
        assert(t[i as int] == SValue::Number(x));
        if let Ok(w) = arith(op, acc, x) {
            assert(fold_from(op, t, i + 1, w) == Ok::<SValue, SError>(SValue::Number(w)));
        }
    }
}

/// Arithmetic builtins fold to the left: with two or more arguments, a further
/// number `x` is combined with the result of the others, `(op a b ... x)` is
/// `(op (op a b ...) x)`; so `(- 10 3 2)` is `(- (- 10 3) 2)`.
pub proof fn law_arith_left_fold(op: ArithOp, args: Seq<SValue>, x: SNum)
    requires
        args.len() >= 2,
    ensures
        numeric_op(op, args.push(SValue::Number(x))) == fold_step(op, numeric_op(op, args), x),
{
    let t = args.push(SValue::Number(x));
    if all_numbers(args) {
        assert forall|i: int| 0 <= i < t.len() implies #[trigger] t[i] is Number by {
            if i < args.len() {
                assert(t[i] == args[i]);
            }
        }
        assert(t[0] == args[0]);
        assert(args[0] is Number);
        if let SValue::Number(first) = args[0] {
            lemma_fold_push(op, args, x, 1, first);
        }
    } else {
        let k = choose|k: int| 0 <= k < args.len() && !(#[trigger] args[k] is Number);
        assert(t[k] == args[k]);
        assert(!all_numbers(t));
    }
}

/// With exactly two numbers an arithmetic builtin is its operation:
/// `(op a b)` is `a op b`.
pub proof fn law_arith_two(op: ArithOp, a: SNum, b: SNum)
    ensures
        numeric_op(op, seq![SValue::Number(a), SValue::Number(b)])
            == fold_step(op, Ok::<SValue, SError>(SValue::Number(a)), b),
{
    let t = seq![SValue::Number(a), SValue::Number(b)];
    assert(all_numbers(t)) by {
        assert forall|i: int| 0 <= i < t.len() implies #[trigger] t[i] is Number by {}
    }
    assert(fold_from(op, t, 2, a) == Ok::<SValue, SError>(SValue::Number(a)));
    if let Ok(w) = arith(op, a, b) {
        assert(fold_from(op, t, 2, w) == Ok::<SValue, SError>(SValue::Number(w)));
    }
}

/// Lowest terms keep the value: `normalize(n, d)` has a positive denominator
/// and stands for the same fraction as `n / d`.
pub proof fn lemma_normalize_value(n: int, d: int)
    requires
        d > 0,
    ensures
        normalize(n, d).den > 0,
        normalize(n, d).num * d == n * normalize(n, d).den,
{
    let g = gcd(abs(n), d as nat);
    lemma_gcd_divides(abs(n), d as nat);
    let p = abs(n) / g;
    let q = (d as nat) / g;
    vstd::arithmetic::div_mod::lemma_fundamental_div_mod(abs(n) as int, g as int);
    vstd::arithmetic::div_mod::lemma_fundamental_div_mod(d, g as int);
    assert(abs(n) == g * p);
    assert(d == g * q);
    assert(q > 0) by (nonlinear_arith)
        requires
            d == g * q,
            d > 0,
            g > 0,
            q >= 0,
    ;
    if n < 0 {
        assert((-(p as int)) * d == n * q) by (nonlinear_arith)
            requires
                -n == g * p,
                d == g * q,
        ;
    } else {
        assert((p as int) * d == n * q) by (nonlinear_arith)
            requires
                n == g * p,
                d == g * q,
        ;
    }
}

/// What the arithmetic of two numbers means, as fractions with positive
/// denominators: the result of `+`, `-` and `*` has a positive denominator and
/// the value of `a + b`, `a - b` and `a * b`; `/` fails exactly on a zero
/// divisor and otherwise gives the value of `a / b`.
pub proof fn law_arith_values(a: SNum, b: SNum)
    requires
        a.den > 0,
        b.den > 0,
    ensures
        arith(ArithOp::Add, a, b) matches Ok(r) && r.den > 0
            && r.num * (a.den * b.den) == (a.num * b.den + b.num * a.den) * r.den,
        arith(ArithOp::Sub, a, b) matches Ok(r) && r.den > 0
            && r.num * (a.den * b.den) == (a.num * b.den - b.num * a.den) * r.den,
        arith(ArithOp::Mul, a, b) matches Ok(r) && r.den > 0
            && r.num * (a.den * b.den) == (a.num * b.num) * r.den,
        b.num == 0 ==> arith(ArithOp::Div, a, b) == Err::<SNum, SError>(SError::DivisionByZero),
        b.num != 0 ==> (arith(ArithOp::Div, a, b) matches Ok(r) && r.den > 0
            && r.num * (a.den * b.num) == (a.num * b.den) * r.den),
{
    assert(a.den * b.den > 0) by (nonlinear_arith)
        requires
            a.den > 0,
            b.den > 0,
    ;
    lemma_normalize_value(a.num * b.den + b.num * a.den, a.den * b.den);
    lemma_normalize_value(a.num * b.den - b.num * a.den, a.den * b.den);
    lemma_normalize_value(a.num * b.num, a.den * b.den);
    if b.num < 0 {
        assert(a.den * (-b.num) > 0) by (nonlinear_arith)
            requires
                a.den > 0,
                b.num < 0,
        ;
        lemma_normalize_value(-(a.num * b.den), a.den * (-b.num));
        let r = normalize(-(a.num * b.den), a.den * (-b.num));
        assert(r.num * (a.den * b.num) == (a.num * b.den) * r.den) by (nonlinear_arith)
            requires
                r.num * (a.den * (-b.num)) == (-(a.num * b.den)) * r.den,
        ;
    } else if b.num > 0 {
        assert(a.den * b.num > 0) by (nonlinear_arith)
            requires
                a.den > 0,
                b.num > 0,
        ;
        lemma_normalize_value(a.num * b.den, a.den * b.num);
    }
}

// ---------------------------------------------------------------- comparison

/// The comparison builtins compare two numbers as fractions with positive
/// denominators, `a.num / a.den` against `b.num / b.den`: `(<= a b)` is `#t`
/// exactly when `a.num * b.den <= b.num * a.den`, and so on.
pub proof fn law_compare_numbers(a: SNum, b: SNum)
    ensures
        compare_op(CmpOp::Eq, seq![SValue::Number(a), SValue::Number(b)])
            == Ok::<SValue, SError>(SValue::Bool(a.num * b.den == b.num * a.den)),
        compare_op(CmpOp::Lt, seq![SValue::Number(a), SValue::Number(b)])
            == Ok::<SValue, SError>(SValue::Bool(a.num * b.den < b.num * a.den)),
        compare_op(CmpOp::Gt, seq![SValue::Number(a), SValue::Number(b)])
            == Ok::<SValue, SError>(SValue::Bool(a.num * b.den > b.num * a.den)),
        compare_op(CmpOp::Le, seq![SValue::Number(a), SValue::Number(b)])
            == Ok::<SValue, SError>(SValue::Bool(a.num * b.den <= b.num * a.den)),
        compare_op(CmpOp::Ge, seq![SValue::Number(a), SValue::Number(b)])
            == Ok::<SValue, SError>(SValue::Bool(a.num * b.den >= b.num * a.den)),
{
    let t = seq![SValue::Number(a), SValue::Number(b)];
    assert(t[0] == SValue::Number(a));
    assert(t[1] == SValue::Number(b));
}

// ---------------------------------------------------------------- equal? on atoms

/// `equal?` on atoms: two strings, two symbols or two booleans are equal
/// exactly when they are the same; two numbers when they have the same value;
/// `()` only with `()`; an atom is never equal to a value of another kind, and
/// a closure is equal to nothing.
pub proof fn law_equal_atoms(a: SValue, b: SValue)
    ensures
        a matches SValue::Str(x) ==> values_equal(a, b) == (b matches SValue::Str(y) && x == y),
        a matches SValue::Symbol(x) ==> values_equal(a, b) == (b matches SValue::Symbol(y) && x == y),
        a matches SValue::Bool(x) ==> values_equal(a, b) == (b matches SValue::Bool(y) && x == y),
        a matches SValue::Number(x) ==> values_equal(a, b)
            == (b matches SValue::Number(y) && x.num * y.den == y.num * x.den),
        a is Nil ==> values_equal(a, b) == (b is Nil),
        a is Closure ==> !values_equal(a, b),
{
}

// ---------------------------------------------------------------- type predicates

/// Each type predicate tells of its first argument whether it is of its kind:
/// `string?` is `#t` exactly for a string (never for a symbol), `pair?` for a
/// non-empty list, `list?` for a list or `()`, `procedure?` for a closure or a
/// builtin, and so on; without an argument every predicate is `#f`.
pub proof fn law_type_predicates(v: SValue, p: TypePred)
    ensures
        type_pred(TypePred::Null, seq![v]) == SValue::Bool(v is Nil),
        type_pred(TypePred::Pair, seq![v]) == SValue::Bool(v matches SValue::List(items) && items.len() > 0),
        type_pred(TypePred::Number, seq![v]) == SValue::Bool(v is Number),
        type_pred(TypePred::Str, seq![v]) == SValue::Bool(v is Str),
        type_pred(TypePred::Boolean, seq![v]) == SValue::Bool(v is Bool),
        type_pred(TypePred::Symbol, seq![v]) == SValue::Bool(v is Symbol),
        type_pred(TypePred::Procedure, seq![v]) == SValue::Bool(v is Closure || v is Builtin),
        type_pred(TypePred::List, seq![v]) == SValue::Bool(v is List || v is Nil),
        type_pred(p, seq![]) == SValue::Bool(false),
{
    assert(seq![v][0] == v);
}

// ---------------------------------------------------------------- builtins by name

/// The builtin names are distinct words.
proof fn lemma_builtin_names_differ()
    ensures
        "-"@ != "+"@,
        "*"@ != "+"@,
        "*"@ != "-"@,
        "/"@ != "+"@,
        "/"@ != "-"@,
        "/"@ != "*"@,
        "="@ != "+"@,
        "="@ != "-"@,
        "="@ != "*"@,
        "="@ != "/"@,
        "<"@ != "+"@,
        "<"@ != "-"@,
        "<"@ != "*"@,
        "<"@ != "/"@,
        "<"@ != "="@,
        ">"@ != "+"@,
        ">"@ != "-"@,
        ">"@ != "*"@,
        ">"@ != "/"@,
        ">"@ != "="@,
        ">"@ != "<"@,
        "<="@ != "+"@,
        "<="@ != "-"@,
        "<="@ != "*"@,
        "<="@ != "/"@,
        "<="@ != "="@,
        "<="@ != "<"@,
        "<="@ != ">"@,
        ">="@ != "+"@,
        ">="@ != "-"@,
        ">="@ != "*"@,
        ">="@ != "/"@,
        ">="@ != "="@,
        ">="@ != "<"@,
        ">="@ != ">"@,
        ">="@ != "<="@,
        "car"@ != "+"@,
        "car"@ != "-"@,
        "car"@ != "*"@,
        "car"@ != "/"@,
        "car"@ != "="@,
        "car"@ != "<"@,
        "car"@ != ">"@,
        "car"@ != "<="@,
        "car"@ != ">="@,
        "cdr"@ != "+"@,
        "cdr"@ != "-"@,
        "cdr"@ != "*"@,
        "cdr"@ != "/"@,
        "cdr"@ != "="@,
        "cdr"@ != "<"@,
        "cdr"@ != ">"@,
        "cdr"@ != "<="@,
        "cdr"@ != ">="@,
        "cdr"@ != "car"@,
        "cons"@ != "+"@,
        "cons"@ != "-"@,
        "cons"@ != "*"@,
        "cons"@ != "/"@,
        "cons"@ != "="@,
        "cons"@ != "<"@,
        "cons"@ != ">"@,
        "cons"@ != "<="@,
        "cons"@ != ">="@,
        "cons"@ != "car"@,
        "cons"@ != "cdr"@,
        "list"@ != "+"@,
        "list"@ != "-"@,
        "list"@ != "*"@,
        "list"@ != "/"@,
        "list"@ != "="@,
        "list"@ != "<"@,
        "list"@ != ">"@,
        "list"@ != "<="@,
        "list"@ != ">="@,
        "list"@ != "car"@,
        "list"@ != "cdr"@,
        "list"@ != "cons"@,
        "null?"@ != "+"@,
        "null?"@ != "-"@,
        "null?"@ != "*"@,
        "null?"@ != "/"@,
        "null?"@ != "="@,
        "null?"@ != "<"@,
        "null?"@ != ">"@,
        "null?"@ != "<="@,
        "null?"@ != ">="@,
        "null?"@ != "car"@,
        "null?"@ != "cdr"@,
        "null?"@ != "cons"@,
        "null?"@ != "list"@,
        "pair?"@ != "+"@,
        "pair?"@ != "-"@,
        "pair?"@ != "*"@,
        "pair?"@ != "/"@,
        "pair?"@ != "="@,
        "pair?"@ != "<"@,
        "pair?"@ != ">"@,
        "pair?"@ != "<="@,
        "pair?"@ != ">="@,
        "pair?"@ != "car"@,
        "pair?"@ != "cdr"@,
        "pair?"@ != "cons"@,
        "pair?"@ != "list"@,
        "pair?"@ != "null?"@,
        "number?"@ != "+"@,
        "number?"@ != "-"@,
        "number?"@ != "*"@,
        "number?"@ != "/"@,
        "number?"@ != "="@,
        "number?"@ != "<"@,
        "number?"@ != ">"@,
        "number?"@ != "<="@,
        "number?"@ != ">="@,
        "number?"@ != "car"@,
        "number?"@ != "cdr"@,
        "number?"@ != "cons"@,
        "number?"@ != "list"@,
        "number?"@ != "null?"@,
        "number?"@ != "pair?"@,
        "string?"@ != "+"@,
        "string?"@ != "-"@,
        "string?"@ != "*"@,
        "string?"@ != "/"@,
        "string?"@ != "="@,
        "string?"@ != "<"@,
        "string?"@ != ">"@,
        "string?"@ != "<="@,
        "string?"@ != ">="@,
        "string?"@ != "car"@,
        "string?"@ != "cdr"@,
        "string?"@ != "cons"@,
        "string?"@ != "list"@,
        "string?"@ != "null?"@,
        "string?"@ != "pair?"@,
        "string?"@ != "number?"@,
        "boolean?"@ != "+"@,
        "boolean?"@ != "-"@,
        "boolean?"@ != "*"@,
        "boolean?"@ != "/"@,
        "boolean?"@ != "="@,
        "boolean?"@ != "<"@,
        "boolean?"@ != ">"@,
        "boolean?"@ != "<="@,
        "boolean?"@ != ">="@,
        "boolean?"@ != "car"@,
        "boolean?"@ != "cdr"@,
        "boolean?"@ != "cons"@,
        "boolean?"@ != "list"@,
        "boolean?"@ != "null?"@,
        "boolean?"@ != "pair?"@,
        "boolean?"@ != "number?"@,
        "boolean?"@ != "string?"@,
        "symbol?"@ != "+"@,
        "symbol?"@ != "-"@,
        "symbol?"@ != "*"@,
        "symbol?"@ != "/"@,
        "symbol?"@ != "="@,
        "symbol?"@ != "<"@,
        "symbol?"@ != ">"@,
        "symbol?"@ != "<="@,
        "symbol?"@ != ">="@,
        "symbol?"@ != "car"@,
        "symbol?"@ != "cdr"@,
        "symbol?"@ != "cons"@,
        "symbol?"@ != "list"@,
        "symbol?"@ != "null?"@,
        "symbol?"@ != "pair?"@,
        "symbol?"@ != "number?"@,
        "symbol?"@ != "string?"@,
        "symbol?"@ != "boolean?"@,
        "procedure?"@ != "+"@,
        "procedure?"@ != "-"@,
        "procedure?"@ != "*"@,
        "procedure?"@ != "/"@,
        "procedure?"@ != "="@,
        "procedure?"@ != "<"@,
        "procedure?"@ != ">"@,
        "procedure?"@ != "<="@,
        "procedure?"@ != ">="@,
        "procedure?"@ != "car"@,
        "procedure?"@ != "cdr"@,
        "procedure?"@ != "cons"@,
        "procedure?"@ != "list"@,
        "procedure?"@ != "null?"@,
        "procedure?"@ != "pair?"@,
        "procedure?"@ != "number?"@,
        "procedure?"@ != "string?"@,
        "procedure?"@ != "boolean?"@,
        "procedure?"@ != "symbol?"@,
        "eq?"@ != "+"@,
        "eq?"@ != "-"@,
        "eq?"@ != "*"@,
        "eq?"@ != "/"@,
        "eq?"@ != "="@,
        "eq?"@ != "<"@,
        "eq?"@ != ">"@,
        "eq?"@ != "<="@,
        "eq?"@ != ">="@,
        "eq?"@ != "car"@,
        "eq?"@ != "cdr"@,
        "eq?"@ != "cons"@,
        "eq?"@ != "list"@,
        "eq?"@ != "null?"@,
        "eq?"@ != "pair?"@,
        "eq?"@ != "number?"@,
        "eq?"@ != "string?"@,
        "eq?"@ != "boolean?"@,
        "eq?"@ != "symbol?"@,
        "eq?"@ != "procedure?"@,
        "equal?"@ != "+"@,
        "equal?"@ != "-"@,
        "equal?"@ != "*"@,
        "equal?"@ != "/"@,
        "equal?"@ != "="@,
        "equal?"@ != "<"@,
        "equal?"@ != ">"@,
        "equal?"@ != "<="@,
        "equal?"@ != ">="@,
        "equal?"@ != "car"@,
        "equal?"@ != "cdr"@,
        "equal?"@ != "cons"@,
        "equal?"@ != "list"@,
        "equal?"@ != "null?"@,
        "equal?"@ != "pair?"@,
        "equal?"@ != "number?"@,
        "equal?"@ != "string?"@,
        "equal?"@ != "boolean?"@,
        "equal?"@ != "symbol?"@,
        "equal?"@ != "procedure?"@,
        "equal?"@ != "eq?"@,
        "not"@ != "+"@,
        "not"@ != "-"@,
        "not"@ != "*"@,
        "not"@ != "/"@,
        "not"@ != "="@,
        "not"@ != "<"@,
        "not"@ != ">"@,
        "not"@ != "<="@,
        "not"@ != ">="@,
        "not"@ != "car"@,
        "not"@ != "cdr"@,
        "not"@ != "cons"@,
        "not"@ != "list"@,
        "not"@ != "null?"@,
        "not"@ != "pair?"@,
        "not"@ != "number?"@,
        "not"@ != "string?"@,
        "not"@ != "boolean?"@,
        "not"@ != "symbol?"@,
        "not"@ != "procedure?"@,
        "not"@ != "eq?"@,
        "not"@ != "equal?"@,
        "display"@ != "+"@,
        "display"@ != "-"@,
        "display"@ != "*"@,
        "display"@ != "/"@,
        "display"@ != "="@,
        "display"@ != "<"@,
        "display"@ != ">"@,
        "display"@ != "<="@,
        "display"@ != ">="@,
        "display"@ != "car"@,
        "display"@ != "cdr"@,
        "display"@ != "cons"@,
        "display"@ != "list"@,
        "display"@ != "null?"@,
        "display"@ != "pair?"@,
        "display"@ != "number?"@,
        "display"@ != "string?"@,
        "display"@ != "boolean?"@,
        "display"@ != "symbol?"@,
        "display"@ != "procedure?"@,
        "display"@ != "eq?"@,
        "display"@ != "equal?"@,
        "display"@ != "not"@,
        "newline"@ != "+"@,
        "newline"@ != "-"@,
        "newline"@ != "*"@,
        "newline"@ != "/"@,
        "newline"@ != "="@,
        "newline"@ != "<"@,
        "newline"@ != ">"@,
        "newline"@ != "<="@,
        "newline"@ != ">="@,
        "newline"@ != "car"@,
        "newline"@ != "cdr"@,
        "newline"@ != "cons"@,
        "newline"@ != "list"@,
        "newline"@ != "null?"@,
        "newline"@ != "pair?"@,
        "newline"@ != "number?"@,
        "newline"@ != "string?"@,
        "newline"@ != "boolean?"@,
        "newline"@ != "symbol?"@,
        "newline"@ != "procedure?"@,
        "newline"@ != "eq?"@,
        "newline"@ != "equal?"@,
        "newline"@ != "not"@,
        "newline"@ != "display"@,
        "list?"@ != "+"@,
        "list?"@ != "-"@,
        "list?"@ != "*"@,
        "list?"@ != "/"@,
        "list?"@ != "="@,
        "list?"@ != "<"@,
        "list?"@ != ">"@,
        "list?"@ != "<="@,
        "list?"@ != ">="@,
        "list?"@ != "car"@,
        "list?"@ != "cdr"@,
        "list?"@ != "cons"@,
        "list?"@ != "list"@,
        "list?"@ != "null?"@,
        "list?"@ != "pair?"@,
        "list?"@ != "number?"@,
        "list?"@ != "string?"@,
        "list?"@ != "boolean?"@,
        "list?"@ != "symbol?"@,
        "list?"@ != "procedure?"@,
        "list?"@ != "eq?"@,
        "list?"@ != "equal?"@,
        "list?"@ != "not"@,
        "list?"@ != "display"@,
        "list?"@ != "newline"@,
        "length"@ != "+"@,
        "length"@ != "-"@,
        "length"@ != "*"@,
        "length"@ != "/"@,
        "length"@ != "="@,
        "length"@ != "<"@,
        "length"@ != ">"@,
        "length"@ != "<="@,
        "length"@ != ">="@,
        "length"@ != "car"@,
        "length"@ != "cdr"@,
        "length"@ != "cons"@,
        "length"@ != "list"@,
        "length"@ != "null?"@,
        "length"@ != "pair?"@,
        "length"@ != "number?"@,
        "length"@ != "string?"@,
        "length"@ != "boolean?"@,
        "length"@ != "symbol?"@,
        "length"@ != "procedure?"@,
        "length"@ != "eq?"@,
        "length"@ != "equal?"@,
        "length"@ != "not"@,
        "length"@ != "display"@,
        "length"@ != "newline"@,
        "length"@ != "list?"@,
        "append"@ != "+"@,
        "append"@ != "-"@,
        "append"@ != "*"@,
        "append"@ != "/"@,
        "append"@ != "="@,
        "append"@ != "<"@,
        "append"@ != ">"@,
        "append"@ != "<="@,
        "append"@ != ">="@,
        "append"@ != "car"@,
        "append"@ != "cdr"@,
        "append"@ != "cons"@,
        "append"@ != "list"@,
        "append"@ != "null?"@,
        "append"@ != "pair?"@,
        "append"@ != "number?"@,
        "append"@ != "string?"@,
        "append"@ != "boolean?"@,
        "append"@ != "symbol?"@,
        "append"@ != "procedure?"@,
        "append"@ != "eq?"@,
        "append"@ != "equal?"@,
        "append"@ != "not"@,
        "append"@ != "display"@,
        "append"@ != "newline"@,
        "append"@ != "list?"@,
        "append"@ != "length"@,
{
    reveal_strlit("+");
    reveal_strlit("-");
    reveal_strlit("*");
    reveal_strlit("/");
    reveal_strlit("=");
    reveal_strlit("<");
    reveal_strlit(">");
    reveal_strlit("<=");
    reveal_strlit(">=");
    reveal_strlit("car");
    reveal_strlit("cdr");
    reveal_strlit("cons");
    reveal_strlit("list");
    reveal_strlit("null?");
    reveal_strlit("pair?");
    reveal_strlit("number?");
    reveal_strlit("string?");
    reveal_strlit("boolean?");
    reveal_strlit("symbol?");
    reveal_strlit("procedure?");
    reveal_strlit("eq?");
    reveal_strlit("equal?");
    reveal_strlit("not");
    reveal_strlit("display");
    reveal_strlit("newline");
    reveal_strlit("list?");
    reveal_strlit("length");
    reveal_strlit("append");
    assert("-"@[0] != "+"@[0]);
    assert("*"@[0] != "+"@[0]);
    assert("*"@[0] != "-"@[0]);
    assert("/"@[0] != "+"@[0]);
    assert("/"@[0] != "-"@[0]);
    assert("/"@[0] != "*"@[0]);
    assert("="@[0] != "+"@[0]);
    assert("="@[0] != "-"@[0]);
    assert("="@[0] != "*"@[0]);
    assert("="@[0] != "/"@[0]);
    assert("<"@[0] != "+"@[0]);
    assert("<"@[0] != "-"@[0]);
    assert("<"@[0] != "*"@[0]);
    assert("<"@[0] != "/"@[0]);
    assert("<"@[0] != "="@[0]);
    assert(">"@[0] != "+"@[0]);
    assert(">"@[0] != "-"@[0]);
    assert(">"@[0] != "*"@[0]);
    assert(">"@[0] != "/"@[0]);
    assert(">"@[0] != "="@[0]);
    assert(">"@[0] != "<"@[0]);
    assert("<="@.len() != "+"@.len());
    assert("<="@.len() != "-"@.len());
    assert("<="@.len() != "*"@.len());
    assert("<="@.len() != "/"@.len());
    assert("<="@.len() != "="@.len());
    assert("<="@.len() != "<"@.len());
    assert("<="@.len() != ">"@.len());
    assert(">="@.len() != "+"@.len());
    assert(">="@.len() != "-"@.len());
    assert(">="@.len() != "*"@.len());
    assert(">="@.len() != "/"@.len());
    assert(">="@.len() != "="@.len());
    assert(">="@.len() != "<"@.len());
    assert(">="@.len() != ">"@.len());
    assert(">="@[0] != "<="@[0]);
    assert("car"@.len() != "+"@.len());
    assert("car"@.len() != "-"@.len());
    assert("car"@.len() != "*"@.len());
    assert("car"@.len() != "/"@.len());
    assert("car"@.len() != "="@.len());
    assert("car"@.len() != "<"@.len());
    assert("car"@.len() != ">"@.len());
    assert("car"@.len() != "<="@.len());
    assert("car"@.len() != ">="@.len());
    assert("cdr"@.len() != "+"@.len());
    assert("cdr"@.len() != "-"@.len());
    assert("cdr"@.len() != "*"@.len());
    assert("cdr"@.len() != "/"@.len());
    assert("cdr"@.len() != "="@.len());
    assert("cdr"@.len() != "<"@.len());
    assert("cdr"@.len() != ">"@.len());
    assert("cdr"@.len() != "<="@.len());
    assert("cdr"@.len() != ">="@.len());
    assert("cdr"@[1] != "car"@[1]);
    assert("cons"@.len() != "+"@.len());
    assert("cons"@.len() != "-"@.len());
    assert("cons"@.len() != "*"@.len());
    assert("cons"@.len() != "/"@.len());
    assert("cons"@.len() != "="@.len());
    assert("cons"@.len() != "<"@.len());
    assert("cons"@.len() != ">"@.len());
    assert("cons"@.len() != "<="@.len());
    assert("cons"@.len() != ">="@.len());
    assert("cons"@.len() != "car"@.len());
    assert("cons"@.len() != "cdr"@.len());
    assert("list"@.len() != "+"@.len());
    assert("list"@.len() != "-"@.len());
    assert("list"@.len() != "*"@.len());
    assert("list"@.len() != "/"@.len());
    assert("list"@.len() != "="@.len());
    assert("list"@.len() != "<"@.len());
    assert("list"@.len() != ">"@.len());
    assert("list"@.len() != "<="@.len());
    assert("list"@.len() != ">="@.len());
    assert("list"@.len() != "car"@.len());
    assert("list"@.len() != "cdr"@.len());
    assert("list"@[0] != "cons"@[0]);
    assert("null?"@.len() != "+"@.len());
    assert("null?"@.len() != "-"@.len());
    assert("null?"@.len() != "*"@.len());
    assert("null?"@.len() != "/"@.len());
    assert("null?"@.len() != "="@.len());
    assert("null?"@.len() != "<"@.len());
    assert("null?"@.len() != ">"@.len());
    assert("null?"@.len() != "<="@.len());
    assert("null?"@.len() != ">="@.len());
    assert("null?"@.len() != "car"@.len());
    assert("null?"@.len() != "cdr"@.len());
    assert("null?"@.len() != "cons"@.len());
    assert("null?"@.len() != "list"@.len());
    assert("pair?"@.len() != "+"@.len());
    assert("pair?"@.len() != "-"@.len());
    assert("pair?"@.len() != "*"@.len());
    assert("pair?"@.len() != "/"@.len());
    assert("pair?"@.len() != "="@.len());
    assert("pair?"@.len() != "<"@.len());
    assert("pair?"@.len() != ">"@.len());
    assert("pair?"@.len() != "<="@.len());
    assert("pair?"@.len() != ">="@.len());
    assert("pair?"@.len() != "car"@.len());
    assert("pair?"@.len() != "cdr"@.len());
    assert("pair?"@.len() != "cons"@.len());
    assert("pair?"@.len() != "list"@.len());
    assert("pair?"@[0] != "null?"@[0]);
    assert("number?"@.len() != "+"@.len());
    assert("number?"@.len() != "-"@.len());
    assert("number?"@.len() != "*"@.len());
    assert("number?"@.len() != "/"@.len());
    assert("number?"@.len() != "="@.len());
    assert("number?"@.len() != "<"@.len());
    assert("number?"@.len() != ">"@.len());
    assert("number?"@.len() != "<="@.len());
    assert("number?"@.len() != ">="@.len());
    assert("number?"@.len() != "car"@.len());
    assert("number?"@.len() != "cdr"@.len());
    assert("number?"@.len() != "cons"@.len());
    assert("number?"@.len() != "list"@.len());
    assert("number?"@.len() != "null?"@.len());
    assert("number?"@.len() != "pair?"@.len());
    assert("string?"@.len() != "+"@.len());
    assert("string?"@.len() != "-"@.len());
    assert("string?"@.len() != "*"@.len());
    assert("string?"@.len() != "/"@.len());
    assert("string?"@.len() != "="@.len());
    assert("string?"@.len() != "<"@.len());
    assert("string?"@.len() != ">"@.len());
    assert("string?"@.len() != "<="@.len());
    assert("string?"@.len() != ">="@.len());
    assert("string?"@.len() != "car"@.len());
    assert("string?"@.len() != "cdr"@.len());
    assert("string?"@.len() != "cons"@.len());
    assert("string?"@.len() != "list"@.len());
    assert("string?"@.len() != "null?"@.len());
    assert("string?"@.len() != "pair?"@.len());
    assert("string?"@[0] != "number?"@[0]);
    assert("boolean?"@.len() != "+"@.len());
    assert("boolean?"@.len() != "-"@.len());
    assert("boolean?"@.len() != "*"@.len());
    assert("boolean?"@.len() != "/"@.len());
    assert("boolean?"@.len() != "="@.len());
    assert("boolean?"@.len() != "<"@.len());
    assert("boolean?"@.len() != ">"@.len());
    assert("boolean?"@.len() != "<="@.len());
    assert("boolean?"@.len() != ">="@.len());
    assert("boolean?"@.len() != "car"@.len());
    assert("boolean?"@.len() != "cdr"@.len());
    assert("boolean?"@.len() != "cons"@.len());
    assert("boolean?"@.len() != "list"@.len());
    assert("boolean?"@.len() != "null?"@.len());
    assert("boolean?"@.len() != "pair?"@.len());
    assert("boolean?"@.len() != "number?"@.len());
    assert("boolean?"@.len() != "string?"@.len());
    assert("symbol?"@.len() != "+"@.len());
    assert("symbol?"@.len() != "-"@.len());
    assert("symbol?"@.len() != "*"@.len());
    assert("symbol?"@.len() != "/"@.len());
    assert("symbol?"@.len() != "="@.len());
    assert("symbol?"@.len() != "<"@.len());
    assert("symbol?"@.len() != ">"@.len());
    assert("symbol?"@.len() != "<="@.len());
    assert("symbol?"@.len() != ">="@.len());
    assert("symbol?"@.len() != "car"@.len());
    assert("symbol?"@.len() != "cdr"@.len());
    assert("symbol?"@.len() != "cons"@.len());
    assert("symbol?"@.len() != "list"@.len());
    assert("symbol?"@.len() != "null?"@.len());
    assert("symbol?"@.len() != "pair?"@.len());
    assert("symbol?"@[0] != "number?"@[0]);
    assert("symbol?"@[1] != "string?"@[1]);
    assert("symbol?"@.len() != "boolean?"@.len());
    assert("procedure?"@.len() != "+"@.len());
    assert("procedure?"@.len() != "-"@.len());
    assert("procedure?"@.len() != "*"@.len());
    assert("procedure?"@.len() != "/"@.len());
    assert("procedure?"@.len() != "="@.len());
    assert("procedure?"@.len() != "<"@.len());
    assert("procedure?"@.len() != ">"@.len());
    assert("procedure?"@.len() != "<="@.len());
    assert("procedure?"@.len() != ">="@.len());
    assert("procedure?"@.len() != "car"@.len());
    assert("procedure?"@.len() != "cdr"@.len());
    assert("procedure?"@.len() != "cons"@.len());
    assert("procedure?"@.len() != "list"@.len());
    assert("procedure?"@.len() != "null?"@.len());
    assert("procedure?"@.len() != "pair?"@.len());
    assert("procedure?"@.len() != "number?"@.len());
    assert("procedure?"@.len() != "string?"@.len());
    assert("procedure?"@.len() != "boolean?"@.len());
    assert("procedure?"@.len() != "symbol?"@.len());
    assert("eq?"@.len() != "+"@.len());
    assert("eq?"@.len() != "-"@.len());
    assert("eq?"@.len() != "*"@.len());
    assert("eq?"@.len() != "/"@.len());
    assert("eq?"@.len() != "="@.len());
    assert("eq?"@.len() != "<"@.len());
    assert("eq?"@.len() != ">"@.len());
    assert("eq?"@.len() != "<="@.len());
    assert("eq?"@.len() != ">="@.len());
    assert("eq?"@[0] != "car"@[0]);
    assert("eq?"@[0] != "cdr"@[0]);
    assert("eq?"@.len() != "cons"@.len());
    assert("eq?"@.len() != "list"@.len());
    assert("eq?"@.len() != "null?"@.len());
    assert("eq?"@.len() != "pair?"@.len());
    assert("eq?"@.len() != "number?"@.len());
    assert("eq?"@.len() != "string?"@.len());
    assert("eq?"@.len() != "boolean?"@.len());
    assert("eq?"@.len() != "symbol?"@.len());
    assert("eq?"@.len() != "procedure?"@.len());
    assert("equal?"@.len() != "+"@.len());
    assert("equal?"@.len() != "-"@.len());
    assert("equal?"@.len() != "*"@.len());
    assert("equal?"@.len() != "/"@.len());
    assert("equal?"@.len() != "="@.len());
    assert("equal?"@.len() != "<"@.len());
    assert("equal?"@.len() != ">"@.len());
    assert("equal?"@.len() != "<="@.len());
    assert("equal?"@.len() != ">="@.len());
    assert("equal?"@.len() != "car"@.len());
    assert("equal?"@.len() != "cdr"@.len());
    assert("equal?"@.len() != "cons"@.len());
    assert("equal?"@.len() != "list"@.len());
    assert("equal?"@.len() != "null?"@.len());
    assert("equal?"@.len() != "pair?"@.len());
    assert("equal?"@.len() != "number?"@.len());
    assert("equal?"@.len() != "string?"@.len());
    assert("equal?"@.len() != "boolean?"@.len());
    assert("equal?"@.len() != "symbol?"@.len());
    assert("equal?"@.len() != "procedure?"@.len());
    assert("equal?"@.len() != "eq?"@.len());
    assert("not"@.len() != "+"@.len());
    assert("not"@.len() != "-"@.len());
    assert("not"@.len() != "*"@.len());
    assert("not"@.len() != "/"@.len());
    assert("not"@.len() != "="@.len());
    assert("not"@.len() != "<"@.len());
    assert("not"@.len() != ">"@.len());
    assert("not"@.len() != "<="@.len());
    assert("not"@.len() != ">="@.len());
    assert("not"@[0] != "car"@[0]);
    assert("not"@[0] != "cdr"@[0]);
    assert("not"@.len() != "cons"@.len());
    assert("not"@.len() != "list"@.len());
    assert("not"@.len() != "null?"@.len());
    assert("not"@.len() != "pair?"@.len());
    assert("not"@.len() != "number?"@.len());
    assert("not"@.len() != "string?"@.len());
    assert("not"@.len() != "boolean?"@.len());
    assert("not"@.len() != "symbol?"@.len());
    assert("not"@.len() != "procedure?"@.len());
    assert("not"@[0] != "eq?"@[0]);
    assert("not"@.len() != "equal?"@.len());
    assert("display"@.len() != "+"@.len());
    assert("display"@.len() != "-"@.len());
    assert("display"@.len() != "*"@.len());
    assert("display"@.len() != "/"@.len());
    assert("display"@.len() != "="@.len());
    assert("display"@.len() != "<"@.len());
    assert("display"@.len() != ">"@.len());
    assert("display"@.len() != "<="@.len());
    assert("display"@.len() != ">="@.len());
    assert("display"@.len() != "car"@.len());
    assert("display"@.len() != "cdr"@.len());
    assert("display"@.len() != "cons"@.len());
    assert("display"@.len() != "list"@.len());
    assert("display"@.len() != "null?"@.len());
    assert("display"@.len() != "pair?"@.len());
    assert("display"@[0] != "number?"@[0]);
    assert("display"@[0] != "string?"@[0]);
    assert("display"@.len() != "boolean?"@.len());
    assert("display"@[0] != "symbol?"@[0]);
    assert("display"@.len() != "procedure?"@.len());
    assert("display"@.len() != "eq?"@.len());
    assert("display"@.len() != "equal?"@.len());
    assert("display"@.len() != "not"@.len());
    assert("newline"@.len() != "+"@.len());
    assert("newline"@.len() != "-"@.len());
    assert("newline"@.len() != "*"@.len());
    assert("newline"@.len() != "/"@.len());
    assert("newline"@.len() != "="@.len());
    assert("newline"@.len() != "<"@.len());
    assert("newline"@.len() != ">"@.len());
    assert("newline"@.len() != "<="@.len());
    assert("newline"@.len() != ">="@.len());
    assert("newline"@.len() != "car"@.len());
    assert("newline"@.len() != "cdr"@.len());
    assert("newline"@.len() != "cons"@.len());
    assert("newline"@.len() != "list"@.len());
    assert("newline"@.len() != "null?"@.len());
    assert("newline"@.len() != "pair?"@.len());
    assert("newline"@[1] != "number?"@[1]);
    assert("newline"@[0] != "string?"@[0]);
    assert("newline"@.len() != "boolean?"@.len());
    assert("newline"@[0] != "symbol?"@[0]);
    assert("newline"@.len() != "procedure?"@.len());
    assert("newline"@.len() != "eq?"@.len());
    assert("newline"@.len() != "equal?"@.len());
    assert("newline"@.len() != "not"@.len());
    assert("newline"@[0] != "display"@[0]);
    assert("list?"@.len() != "+"@.len());
    assert("list?"@.len() != "-"@.len());
    assert("list?"@.len() != "*"@.len());
    assert("list?"@.len() != "/"@.len());
    assert("list?"@.len() != "="@.len());
    assert("list?"@.len() != "<"@.len());
    assert("list?"@.len() != ">"@.len());
    assert("list?"@.len() != "<="@.len());
    assert("list?"@.len() != ">="@.len());
    assert("list?"@.len() != "car"@.len());
    assert("list?"@.len() != "cdr"@.len());
    assert("list?"@.len() != "cons"@.len());
    assert("list?"@.len() != "list"@.len());
    assert("list?"@[0] != "null?"@[0]);
    assert("list?"@[0] != "pair?"@[0]);
    assert("list?"@.len() != "number?"@.len());
    assert("list?"@.len() != "string?"@.len());
    assert("list?"@.len() != "boolean?"@.len());
    assert("list?"@.len() != "symbol?"@.len());
    assert("list?"@.len() != "procedure?"@.len());
    assert("list?"@.len() != "eq?"@.len());
    assert("list?"@.len() != "equal?"@.len());
    assert("list?"@.len() != "not"@.len());
    assert("list?"@.len() != "display"@.len());
    assert("list?"@.len() != "newline"@.len());
    assert("length"@.len() != "+"@.len());
    assert("length"@.len() != "-"@.len());
    assert("length"@.len() != "*"@.len());
    assert("length"@.len() != "/"@.len());
    assert("length"@.len() != "="@.len());
    assert("length"@.len() != "<"@.len());
    assert("length"@.len() != ">"@.len());
    assert("length"@.len() != "<="@.len());
    assert("length"@.len() != ">="@.len());
    assert("length"@.len() != "car"@.len());
    assert("length"@.len() != "cdr"@.len());
    assert("length"@.len() != "cons"@.len());
    assert("length"@.len() != "list"@.len());
    assert("length"@.len() != "null?"@.len());
    assert("length"@.len() != "pair?"@.len());
    assert("length"@.len() != "number?"@.len());
    assert("length"@.len() != "string?"@.len());
    assert("length"@.len() != "boolean?"@.len());
    assert("length"@.len() != "symbol?"@.len());
    assert("length"@.len() != "procedure?"@.len());
    assert("length"@.len() != "eq?"@.len());
    assert("length"@[0] != "equal?"@[0]);
    assert("length"@.len() != "not"@.len());
    assert("length"@.len() != "display"@.len());
    assert("length"@.len() != "newline"@.len());
    assert("length"@.len() != "list?"@.len());
    assert("append"@.len() != "+"@.len());
    assert("append"@.len() != "-"@.len());
    assert("append"@.len() != "*"@.len());
    assert("append"@.len() != "/"@.len());
    assert("append"@.len() != "="@.len());
    assert("append"@.len() != "<"@.len());
    assert("append"@.len() != ">"@.len());
    assert("append"@.len() != "<="@.len());
    assert("append"@.len() != ">="@.len());
    assert("append"@.len() != "car"@.len());
    assert("append"@.len() != "cdr"@.len());
    assert("append"@.len() != "cons"@.len());
    assert("append"@.len() != "list"@.len());
    assert("append"@.len() != "null?"@.len());
    assert("append"@.len() != "pair?"@.len());
    assert("append"@.len() != "number?"@.len());
    assert("append"@.len() != "string?"@.len());
    assert("append"@.len() != "boolean?"@.len());
    assert("append"@.len() != "symbol?"@.len());
    assert("append"@.len() != "procedure?"@.len());
    assert("append"@.len() != "eq?"@.len());
    assert("append"@[0] != "equal?"@[0]);
    assert("append"@.len() != "not"@.len());
    assert("append"@.len() != "display"@.len());
    assert("append"@.len() != "newline"@.len());
    assert("append"@.len() != "list?"@.len());
    assert("append"@[0] != "length"@[0]);
}

/// The builtins answer by name as their laws say, and leave the environment
/// as it was: `(<= a b)` on two numbers is `#t` exactly when
/// `a.num * b.den <= b.num * a.den`, `(string? v)` exactly when `v` is a string,
/// and `(equal? "x" "y")` exactly when the two strings are the same.
pub proof fn law_builtins_by_name(a: SNum, b: SNum, v: SValue, x: Seq<char>, y: Seq<char>, env: SEnv)
    ensures
        apply_builtin("<="@, seq![SValue::Number(a), SValue::Number(b)], env)
            == (Ok::<SValue, SError>(SValue::Bool(a.num * b.den <= b.num * a.den)), env),
        apply_builtin("string?"@, seq![v], env) == (Ok::<SValue, SError>(SValue::Bool(v is Str)), env),
        apply_builtin("equal?"@, seq![SValue::Str(x), SValue::Str(y)], env)
            == (Ok::<SValue, SError>(SValue::Bool(x == y)), env),
{
    lemma_builtin_names_differ();
    law_compare_numbers(a, b);
    law_type_predicates(v, TypePred::Str);
    law_equal_atoms(SValue::Str(x), SValue::Str(y));
    let t = seq![SValue::Str(x), SValue::Str(y)];
    assert(t[0] == SValue::Str(x));
    assert(t[1] == SValue::Str(y));
}

/// `-` folds to the left by name too: with two or more arguments,
/// `(- a b ... x)` is `(- (- a b ...) x)`.
pub proof fn law_subtract_left_fold_by_name(args: Seq<SValue>, x: SNum, env: SEnv)
    requires
        args.len() >= 2,
    ensures
        apply_builtin("-"@, args.push(SValue::Number(x)), env)
            == (fold_step(ArithOp::Sub, apply_builtin("-"@, args, env).0, x), env),
{
    reveal_strlit("+");
    reveal_strlit("-");
    assert("-"@[0] != "+"@[0]);
    law_arith_left_fold(ArithOp::Sub, args, x);
}

// ---------------------------------------------------------------- few arguments, errors

/// Arithmetic with fewer than two arguments: `(+)` and `(-)` are `0`, `(*)`
/// is `1`, `(/)` is an error; `(+ a)` and `(* a)` are `a`, `(- a)` is `-a`,
/// and `(/ a)` is `1/a` for a non-zero `a`.
pub proof fn law_arith_few_args(a: SNum)
    requires
        a.den > 0,
    ensures
        numeric_op(ArithOp::Add, seq![]) == Ok::<SValue, SError>(SValue::Number(SNum { num: 0, den: 1 })),
        numeric_op(ArithOp::Sub, seq![]) == Ok::<SValue, SError>(SValue::Number(SNum { num: 0, den: 1 })),
        numeric_op(ArithOp::Mul, seq![]) == Ok::<SValue, SError>(SValue::Number(SNum { num: 1, den: 1 })),
        divide(seq![]) == Err::<SValue, SError>(SError::DivisionArity),
        numeric_op(ArithOp::Add, seq![SValue::Number(a)]) matches Ok(SValue::Number(r))
            && r.den > 0 && r.num * a.den == a.num * r.den,
        numeric_op(ArithOp::Sub, seq![SValue::Number(a)]) matches Ok(SValue::Number(r))
            && r.den > 0 && r.num * a.den == -a.num * r.den,
        numeric_op(ArithOp::Mul, seq![SValue::Number(a)]) matches Ok(SValue::Number(r))
            && r.den > 0 && r.num * a.den == a.num * r.den,
        a.num != 0 ==> (divide(seq![SValue::Number(a)]) matches Ok(SValue::Number(r))
            && r.den > 0 && r.num * a.num == a.den * r.den),
{
    let t = seq![SValue::Number(a)];
    assert(t[0] == SValue::Number(a));
    assert(all_numbers(t)) by {
        assert forall|i: int| 0 <= i < t.len() implies #[trigger] t[i] is Number by {}
    }
    let none: Seq<SValue> = seq![];
    assert(all_numbers(none));
    let zero = SNum { num: 0, den: 1 };
    let one = SNum { num: 1, den: 1 };
    law_arith_values(zero, a);
    law_arith_values(one, a);
    assert(crate::builtins::identity(ArithOp::Add) == zero && crate::builtins::identity(ArithOp::Sub) == zero);
    assert(crate::builtins::identity(ArithOp::Mul) == one && crate::builtins::identity(ArithOp::Div) == one);
    if let Ok(r) = arith(ArithOp::Add, zero, a) {
        assert(r.num * a.den == a.num * r.den) by (nonlinear_arith)
            requires
                r.num * (zero.den * a.den) == (zero.num * a.den + a.num * zero.den) * r.den,
                zero.num == 0,
                zero.den == 1,
        ;
    }
    if let Ok(r) = arith(ArithOp::Sub, zero, a) {
        assert(r.num * a.den == -a.num * r.den) by (nonlinear_arith)
            requires
                r.num * (zero.den * a.den) == (zero.num * a.den - a.num * zero.den) * r.den,
                zero.num == 0,
                zero.den == 1,
        ;
    }
    if let Ok(r) = arith(ArithOp::Mul, one, a) {
        assert(r.num * a.den == a.num * r.den) by (nonlinear_arith)
            requires
                r.num * (one.den * a.den) == (one.num * a.num) * r.den,
                one.num == 1,
                one.den == 1,
        ;
    }
    if a.num != 0 {
        if let Ok(r) = arith(ArithOp::Div, one, a) {
            assert(r.num * a.num == a.den * r.den) by (nonlinear_arith)
                requires
                    r.num * (one.den * a.num) == (one.num * a.den) * r.den,
                    one.num == 1,
                    one.den == 1,
            ;
        }
    }
    assert(!crate::builtins::has_zero_divisor(t));
}

/// A zero divisor anywhere after the first argument makes `/` fail with
/// `Division by zero`, whatever the other arguments are.
pub proof fn law_divide_by_zero(args: Seq<SValue>, k: int, z: SNum)
    requires
        1 <= k < args.len(),
        args[k] == SValue::Number(z),
        z.num == 0,
    ensures
        divide(args) == Err::<SValue, SError>(SError::DivisionByZero),
{
    assert(args[k] matches SValue::Number(n) && crate::number::num_is_zero(n));
}

/// The comparisons take exactly two arguments, and both must be numbers.
pub proof fn law_compare_errors(op: CmpOp, args: Seq<SValue>)
    ensures
        args.len() != 2 ==> compare_op(op, args) == Err::<SValue, SError>(SError::ComparisonArity),
        args.len() == 2 && !(args[0] is Number && args[1] is Number)
            ==> compare_op(op, args) == Err::<SValue, SError>(SError::ComparisonNumbers),
{
}

// ---------------------------------------------------------------- lists

/// The list builtins on lists made by `list`: `(list)` is `()`; `car` of a
/// non-empty list is its first element and `cdr` the rest (`()` when nothing
/// is left); `length` counts the elements; `append` of two lists has the
/// elements of the first and then those of the second.
pub proof fn law_list_builtins(xs: Seq<SValue>, ys: Seq<SValue>)
    ensures
        list(seq![]) == SValue::Nil,
        xs.len() > 0 ==> car(seq![list(xs)]) == Ok::<SValue, SError>(xs[0]),
        xs.len() == 1 ==> cdr(seq![list(xs)]) == Ok::<SValue, SError>(SValue::Nil),
        xs.len() > 1 ==> cdr(seq![list(xs)]) == Ok::<SValue, SError>(list(xs.drop_first())),
        length(seq![list(xs)]) == Ok::<SValue, SError>(SValue::Number(SNum { num: xs.len() as int, den: 1 })),
        append_from(seq![list(xs), list(ys)], 0, seq![]) == Ok::<SValue, SError>(list(xs + ys)),
{
    let a = seq![list(xs), list(ys)];
    assert(a[0] == list(xs) && a[1] == list(ys));
    assert(seq![list(xs)][0] == list(xs));
    let none: Seq<SValue> = seq![];
    let after_first = if xs.len() == 0 { none } else { none + xs };
    assert(after_first =~= xs);
    assert(append_from(a, 0, none) == append_from(a, 1, after_first));
    let after_second = if ys.len() == 0 { xs } else { xs + ys };
    assert(after_second =~= xs + ys);
    assert(append_from(a, 1, xs) == append_from(a, 2, after_second));
    assert(append_from(a, 2, xs + ys) == Ok::<SValue, SError>(list(xs + ys)));
}

/// `cons` puts its first argument in front: on a list made by `list` it gives
/// the list with one more element in front, whose `length` is one more.
pub proof fn law_cons_prepends(a: SValue, xs: Seq<SValue>)
    ensures
        cons(seq![a, list(xs)]) == Ok::<SValue, SError>(list(seq![a] + xs)),
        length(seq![list(seq![a] + xs)]) == Ok::<SValue, SError>(SValue::Number(SNum { num: xs.len() as int + 1, den: 1 })),
{
    let t = seq![a, list(xs)];
    assert(t[0] == a && t[1] == list(xs));
    if xs.len() == 0 {
        assert(seq![a] + xs =~= seq![a]);
    }
    assert(seq![list(seq![a] + xs)][0] == list(seq![a] + xs));
}

// ---------------------------------------------------------------- eq? and not

/// `eq?` on atoms: two symbols are `eq?` exactly when they have the same
/// name, two numbers when they have the same value, two booleans when they
/// are the same, `()` with `()`; strings, lists and procedures are never `eq?`.
pub proof fn law_eq_atoms(a: SValue, b: SValue)
    ensures
        a matches SValue::Symbol(x) ==> is_eq(a, b) == (b matches SValue::Symbol(y) && x == y),
        a matches SValue::Number(x) ==> is_eq(a, b) == (b matches SValue::Number(y) && x.num * y.den == y.num * x.den),
        a matches SValue::Bool(x) ==> is_eq(a, b) == (b matches SValue::Bool(y) && x == y),
        a is Nil ==> is_eq(a, b) == (b is Nil),
        (a is Str || a is List || a is Closure || a is Builtin) ==> !is_eq(a, b),
{
}

/// `(not v)` is `#t` exactly when `v` is `#f`.
pub proof fn law_not(v: SValue, env: SEnv)
    ensures
        apply_builtin("not"@, seq![v], env) == (Ok::<SValue, SError>(SValue::Bool(v == SValue::Bool(false))), env),
{
    lemma_builtin_names_differ();
    assert(seq![v][0] == v);
}

/// Output: `(display s)` of a string appends its characters, without
/// quotes, to the output; of any other value its printed form; `(newline)`
/// appends a line break. Both give `()` and leave the frames as they were.
pub proof fn law_display(s: Seq<char>, v: SValue, env: SEnv)
    requires
        !(v is Str),
    ensures
        apply_builtin("display"@, seq![SValue::Str(s)], env)
            == (Ok::<SValue, SError>(SValue::Nil), SEnv { frames: env.frames, output: env.output + s }),
        apply_builtin("display"@, seq![v], env)
            == (Ok::<SValue, SError>(SValue::Nil), SEnv { frames: env.frames, output: env.output + show(v) }),
        apply_builtin("newline"@, seq![], env)
            == (Ok::<SValue, SError>(SValue::Nil), SEnv { frames: env.frames, output: env.output + seq!['\n'] }),
{
    lemma_builtin_names_differ();
    assert(seq![SValue::Str(s)][0] == SValue::Str(s));
    assert(seq![v][0] == v);
}

proof fn lemma_lists_equal_all(xs: Seq<SValue>, ys: Seq<SValue>, i: nat)
    requires
        xs.len() == ys.len(),
        i <= xs.len(),
    ensures
        lists_equal_from(xs, ys, i) == forall|k: int| i <= k < xs.len() ==> values_equal(#[trigger] xs[k], ys[k]),
    decreases xs.len() - i,
{
    if i < xs.len() {
        lemma_lists_equal_all(xs, ys, i + 1);
        if !values_equal(xs[i as int], ys[i as int]) {
            assert(!(forall|k: int| i <= k < xs.len() ==> values_equal(#[trigger] xs[k], ys[k])));
        }
    }
}

/// `equal?` on lists: two lists are equal exactly when they have the same
/// length and their elements are equal one by one; a list is never equal to
/// `()`; two builtins are equal exactly when they have the same name.
pub proof fn law_equal_lists(xs: Seq<SValue>, ys: Seq<SValue>, x: Seq<char>, y: Seq<char>)
    ensures
        values_equal(SValue::List(xs), SValue::List(ys))
            == (xs.len() == ys.len() && forall|k: int| 0 <= k < xs.len() ==> values_equal(#[trigger] xs[k], ys[k])),
        !values_equal(SValue::List(xs), SValue::Nil),
        values_equal(SValue::Builtin(x), SValue::Builtin(y)) == (x == y),
{
    if xs.len() == ys.len() {
        lemma_lists_equal_all(xs, ys, 0);
    }
}

/// `cons` onto something that is neither a list nor `()` makes a list of the
/// two; the list builtins fail on the wrong number of arguments, `car` and
/// `cdr` on anything but a non-empty list, `length` on anything but a list or
/// `()`, and `append` at its first argument that is not a list or `()`.
pub proof fn law_list_errors(a: SValue, b: SValue, args: Seq<SValue>)
    ensures
        !(b is List || b is Nil) ==> cons(seq![a, b]) == Ok::<SValue, SError>(SValue::List(seq![a, b])),
        args.len() != 1 ==> car(args) == Err::<SValue, SError>(SError::CarArity),
        args.len() != 1 ==> cdr(args) == Err::<SValue, SError>(SError::CdrArity),
        args.len() != 2 ==> cons(args) == Err::<SValue, SError>(SError::ConsArity),
        args.len() != 1 ==> length(args) == Err::<SValue, SError>(SError::LengthArity),
        !(b matches SValue::List(items) && items.len() > 0) ==> car(seq![b]) == Err::<SValue, SError>(SError::CarNotList),
        !(b matches SValue::List(items) && items.len() > 0) ==> cdr(seq![b]) == Err::<SValue, SError>(SError::CdrNotList),
        !(b is List || b is Nil) ==> length(seq![b]) == Err::<SValue, SError>(SError::LengthNotList),
        !(b is List || b is Nil) ==> append_from(seq![b], 0, seq![]) == Err::<SValue, SError>(SError::AppendNotList),
{
    assert(seq![a, b][0] == a && seq![a, b][1] == b);
    assert(seq![b][0] == b);
}

/// Each builtin answers by its name, without touching the environment:
/// `+ - *` fold their operation, `/` divides, `= < > <= >=` compare, `car`,
/// `cdr`, `cons`, `list`, `length` and `append` work on lists, the type
/// predicates test their kind, `eq?`, `equal?` and `not` compare and negate;
/// a name that is no builtin is an error.
pub proof fn law_builtin_dispatch(args: Seq<SValue>, env: SEnv, other: Seq<char>)
    ensures
        apply_builtin("+"@, args, env) == (numeric_op(ArithOp::Add, args), env),
        apply_builtin("-"@, args, env) == (numeric_op(ArithOp::Sub, args), env),
        apply_builtin("*"@, args, env) == (numeric_op(ArithOp::Mul, args), env),
        apply_builtin("/"@, args, env) == (divide(args), env),
        apply_builtin("="@, args, env) == (compare_op(CmpOp::Eq, args), env),
        apply_builtin("<"@, args, env) == (compare_op(CmpOp::Lt, args), env),
        apply_builtin(">"@, args, env) == (compare_op(CmpOp::Gt, args), env),
        apply_builtin("<="@, args, env) == (compare_op(CmpOp::Le, args), env),
        apply_builtin(">="@, args, env) == (compare_op(CmpOp::Ge, args), env),
        apply_builtin("car"@, args, env) == (car(args), env),
        apply_builtin("cdr"@, args, env) == (cdr(args), env),
        apply_builtin("cons"@, args, env) == (cons(args), env),
        apply_builtin("list"@, args, env) == (Ok::<SValue, SError>(list(args)), env),
        apply_builtin("null?"@, args, env) == (Ok::<SValue, SError>(type_pred(TypePred::Null, args)), env),
        apply_builtin("pair?"@, args, env) == (Ok::<SValue, SError>(type_pred(TypePred::Pair, args)), env),
        apply_builtin("number?"@, args, env) == (Ok::<SValue, SError>(type_pred(TypePred::Number, args)), env),
        apply_builtin("string?"@, args, env) == (Ok::<SValue, SError>(type_pred(TypePred::Str, args)), env),
        apply_builtin("boolean?"@, args, env) == (Ok::<SValue, SError>(type_pred(TypePred::Boolean, args)), env),
        apply_builtin("symbol?"@, args, env) == (Ok::<SValue, SError>(type_pred(TypePred::Symbol, args)), env),
        apply_builtin("procedure?"@, args, env) == (Ok::<SValue, SError>(type_pred(TypePred::Procedure, args)), env),
        apply_builtin("list?"@, args, env) == (Ok::<SValue, SError>(type_pred(TypePred::List, args)), env),
        apply_builtin("eq?"@, args, env) == (if args.len() != 2 {
            Err::<SValue, SError>(SError::EqArity)
        } else {
            Ok(SValue::Bool(is_eq(args[0], args[1])))
        }, env),
        apply_builtin("equal?"@, args, env) == (if args.len() != 2 {
            Err::<SValue, SError>(SError::EqualArity)
        } else {
            Ok(SValue::Bool(values_equal(args[0], args[1])))
        }, env),
        apply_builtin("not"@, args, env).1 == env,
        args.len() != 1 ==> apply_builtin("not"@, args, env).0 == Err::<SValue, SError>(SError::NotArity),
        apply_builtin("length"@, args, env) == (length(args), env),
        apply_builtin("append"@, args, env) == (append_from(args, 0, seq![]), env),
        !builtin_names().contains(other) ==> apply_builtin(other, args, env)
            == (Err::<SValue, SError>(SError::UnknownBuiltin(other)), env),
{
    lemma_builtin_names_differ();
    if !builtin_names().contains(other) {
        let ns = builtin_names();
        assert(ns[0] == "+"@ && ns[1] == "-"@ && ns[2] == "*"@ && ns[3] == "/"@ && ns[4] == "="@);
        assert(ns[5] == "<"@ && ns[6] == ">"@ && ns[7] == "<="@ && ns[8] == ">="@ && ns[9] == "car"@);
        assert(ns[10] == "cdr"@ && ns[11] == "cons"@ && ns[12] == "list"@ && ns[13] == "null?"@);
        assert(ns[14] == "pair?"@ && ns[15] == "number?"@ && ns[16] == "string?"@ && ns[17] == "boolean?"@);
        assert(ns[18] == "symbol?"@ && ns[19] == "procedure?"@ && ns[20] == "eq?"@ && ns[21] == "equal?"@);
        assert(ns[22] == "not"@ && ns[23] == "display"@ && ns[24] == "newline"@ && ns[25] == "list?"@);
        assert(ns[26] == "length"@ && ns[27] == "append"@);
    }
}

} // verus!

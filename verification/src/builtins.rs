//! The builtin procedures: arithmetic, comparison, list operations, type
//! predicates, equality, `not`, and output. (`map` and `apply`, which call
//! procedures, are applied by the evaluator.)

use vstd::prelude::*;
use crate::env::{Env, SEnv, emit};
use crate::error::{Error, SError};
use crate::number::{Number, SNum, num_add, num_sub, num_mul, num_div, num_is_zero, num_eq, num_lt, num_le};
use crate::text::{push_chars, chars_of, text_is};
use crate::value::{SValue, Value, group_value_views, show, views, write_value};

verus! {

/// The names of the builtin procedures, in the order the global frame binds them.
pub open spec fn builtin_names() -> Seq<Seq<char>> {
    seq![
        "+"@, "-"@, "*"@, "/"@,
        "="@, "<"@, ">"@, "<="@, ">="@,
        "car"@, "cdr"@, "cons"@, "list"@,
        "null?"@, "pair?"@, "number?"@, "string?"@,
        "boolean?"@, "symbol?"@, "procedure?"@,
        "eq?"@, "equal?"@, "not"@,
        "display"@, "newline"@,
        "list?"@, "length"@, "append"@, "map"@, "apply"@,
    ]
}

/// Truthiness: everything but `#f` is true.
pub open spec fn truthy(v: SValue) -> bool {
    v != SValue::Bool(false)
}

/// Whether `v` is truthy.
pub fn is_truthy(v: &Value) -> (r: bool)
    ensures
        r == truthy(v@),
{
    match v {
        Value::Bool(b) => *b,
        _ => true,
    }
}

// ---------------------------------------------------------------- arithmetic

/// An arithmetic operator.
#[derive(Clone, Copy)]
pub enum ArithOp {
    Add,
    Sub,
    Mul,
    Div,
}

/// The value an operator folds from when it has no arguments, and the left
/// operand of its single-argument form.
pub open spec fn identity(op: ArithOp) -> SNum {
    match op {
        ArithOp::Add | ArithOp::Sub => SNum { num: 0, den: 1 },
        ArithOp::Mul | ArithOp::Div => SNum { num: 1, den: 1 },
    }
}

/// `a op b`; division by zero has no result.
pub open spec fn arith(op: ArithOp, a: SNum, b: SNum) -> Result<SNum, SError> {
    if op == ArithOp::Div && num_is_zero(b) {
        Err(SError::DivisionByZero)
    } else {
        Ok(match op {
            ArithOp::Add => num_add(a, b),
            ArithOp::Sub => num_sub(a, b),
            ArithOp::Mul => num_mul(a, b),
            ArithOp::Div => num_div(a, b),
        })
    }
}

/// Folding `op` over `args[i..]`, starting from `acc`.
pub open spec fn fold_from(op: ArithOp, args: Seq<SValue>, i: nat, acc: SNum) -> Result<SValue, SError>
    decreases args.len() - i,
{
    if i >= args.len() {
        Ok(SValue::Number(acc))
    } else {
        match args[i as int] {
            SValue::Number(n) => match arith(op, acc, n) {
                Ok(r) => fold_from(op, args, i + 1, r),
                Err(e) => Err(e),
            },
            _ => Err(SError::ExpectedNumber),
        }
    }
}

/// The fold of an arithmetic builtin: the identity without arguments,
/// `identity op x` with one, and a left fold from the first argument otherwise.
pub open spec fn numeric_fold(op: ArithOp, args: Seq<SValue>) -> Result<SValue, SError> {
    if args.len() == 0 {
        Ok(SValue::Number(identity(op)))
    } else {
        match args[0] {
            SValue::Number(first) => if args.len() == 1 {
                match arith(op, identity(op), first) {
                    Ok(r) => Ok(SValue::Number(r)),
                    Err(e) => Err(e),
                }
            } else {
                fold_from(op, args, 1, first)
            },
            _ => Err(SError::ExpectedNumber),
        }
    }
}

/// Whether every argument is a number.
pub open spec fn all_numbers(args: Seq<SValue>) -> bool {
    forall|i: int| 0 <= i < args.len() ==> #[trigger] args[i] is Number
}

/// An arithmetic builtin: `Expected a number` when some argument is not a
/// number; otherwise the fold of the arguments ([`numeric_fold`]).
pub open spec fn numeric_op(op: ArithOp, args: Seq<SValue>) -> Result<SValue, SError> {
    if all_numbers(args) {
        numeric_fold(op, args)
    } else {
        Err(SError::ExpectedNumber)
    }
}

/// Whether some argument after the first is the number zero.
pub open spec fn has_zero_divisor(args: Seq<SValue>) -> bool {
    exists|i: int| 1 <= i < args.len() && (#[trigger] args[i] matches SValue::Number(n) && num_is_zero(n))
}

/// `/`: an error without arguments or with a zero divisor, else the quotient.
pub open spec fn divide(args: Seq<SValue>) -> Result<SValue, SError> {
    if args.len() == 0 {
        Err(SError::DivisionArity)
    } else if has_zero_divisor(args) {
        Err(SError::DivisionByZero)
    } else {
        numeric_op(ArithOp::Div, args)
    }
}

fn arith_exec(op: ArithOp, a: &Number, b: &Number) -> (r: Result<Number, Error>)
    ensures
        match r {
            Ok(x) => arith(op, a@, b@) == Ok::<SNum, SError>(x@),
            Err(e) => arith(op, a@, b@) == Err::<SNum, SError>(e@),
        },
{
    match op {
        ArithOp::Add => Ok(a.add(b)),
        ArithOp::Sub => Ok(a.sub(b)),
        ArithOp::Mul => Ok(a.mul(b)),
        ArithOp::Div => {
            if b.is_zero() {
                return Err(Error::DivisionByZero);
            }
            Ok(a.div(b))
        },
    }
}

fn identity_exec(op: ArithOp) -> (r: Number)
    ensures
        r@ == identity(op),
{
    match op {
        ArithOp::Add | ArithOp::Sub => Number::from_i64(0),
        ArithOp::Mul | ArithOp::Div => Number::from_i64(1),
    }
}

/// An arithmetic builtin applied to `args`.
pub fn numeric_op_exec(op: ArithOp, args: &[Value]) -> (r: Result<Value, Error>)
    ensures
        match r {
            Ok(v) => numeric_op(op, views(args@)) == Ok::<SValue, SError>(v@),
            Err(e) => numeric_op(op, views(args@)) == Err::<SValue, SError>(e@),
        },
{
    let ghost sa = views(args@);
    let mut i: usize = 0;
    while i < args.len()
        invariant
            i <= args@.len(),
            sa == views(args@),
            forall|k: int| 0 <= k < i ==> #[trigger] sa[k] is Number,
        decreases args@.len() - i,
    {
        assert(sa[i as int] == args@[i as int]@);
        match &args[i] {
            Value::Number(_) => {},
            _ => {
                return Err(Error::ExpectedNumber);
            },
        }
        i = i + 1;
    }
    numeric_fold_exec(op, args)
}

fn numeric_fold_exec(op: ArithOp, args: &[Value]) -> (r: Result<Value, Error>)
    ensures
        match r {
            Ok(v) => numeric_fold(op, views(args@)) == Ok::<SValue, SError>(v@),
            Err(e) => numeric_fold(op, views(args@)) == Err::<SValue, SError>(e@),
        },
{
    let ghost sa = views(args@);
    if args.len() == 0 {
        return Ok(Value::Number(identity_exec(op)));
    }
    assert(sa[0] == args@[0]@);
    let first = match &args[0] {
        Value::Number(n) => n.copy(),
        _ => {
            return Err(Error::ExpectedNumber);
        },
    };
    if args.len() == 1 {
        let id = identity_exec(op);
        return match arith_exec(op, &id, &first) {
            Ok(x) => Ok(Value::Number(x)),
            Err(e) => Err(e),
        };
    }
    let mut acc = first;
    let mut i: usize = 1;
    while i < args.len()
        invariant
            1 <= i <= args@.len(),
            sa == views(args@),
            numeric_fold(op, sa) == fold_from(op, sa, i as nat, acc@),
        decreases args@.len() - i,
    {
        assert(sa[i as int] == args@[i as int]@);
        match &args[i] {
            Value::Number(n) => match arith_exec(op, &acc, n) {
                Ok(x) => {
                    acc = x;
                },
                Err(e) => {
                    return Err(e);
                },
            },
            _ => {
                return Err(Error::ExpectedNumber);
            },
        }
        i = i + 1;
    }
    Ok(Value::Number(acc))
}

/// `/` applied to `args`.
pub fn divide_exec(args: &[Value]) -> (r: Result<Value, Error>)
    ensures
        match r {
            Ok(v) => divide(views(args@)) == Ok::<SValue, SError>(v@),
            Err(e) => divide(views(args@)) == Err::<SValue, SError>(e@),
        },
{
    let ghost sa = views(args@);
    if args.len() == 0 {
        return Err(Error::DivisionArity);
    }
    let mut i: usize = 1;
    while i < args.len()
        invariant
            1 <= i <= args@.len(),
            sa == views(args@),
            forall|k: int| 1 <= k < i ==> !(#[trigger] sa[k] matches SValue::Number(n) && num_is_zero(n)),
        decreases args@.len() - i,
    {
        assert(sa[i as int] == args@[i as int]@);
        match &args[i] {
            Value::Number(n) => {
                if n.is_zero() {
                    assert(sa[i as int] matches SValue::Number(m) && num_is_zero(m));
                    return Err(Error::DivisionByZero);
                }
            },
            _ => {},
        }
        i = i + 1;
    }
    assert(!has_zero_divisor(sa));
    numeric_op_exec(ArithOp::Div, args)
}

// ---------------------------------------------------------------- comparison

/// A comparison operator.
#[derive(Clone, Copy)]
pub enum CmpOp {
    Eq,
    Lt,
    Gt,
    Le,
    Ge,
}

/// `a op b` as fractions.
pub open spec fn compare_nums(op: CmpOp, a: SNum, b: SNum) -> bool {
    match op {
        CmpOp::Eq => num_eq(a, b),
        CmpOp::Lt => num_lt(a, b),
        CmpOp::Gt => num_lt(b, a),
        CmpOp::Le => num_le(a, b),
        CmpOp::Ge => num_le(b, a),
    }
}

/// A comparison builtin: exactly two numbers.
pub open spec fn compare_op(op: CmpOp, args: Seq<SValue>) -> Result<SValue, SError> {
    if args.len() != 2 {
        Err(SError::ComparisonArity)
    } else {
        match (args[0], args[1]) {
            (SValue::Number(a), SValue::Number(b)) => Ok(SValue::Bool(compare_nums(op, a, b))),
            _ => Err(SError::ComparisonNumbers),
        }
    }
}

/// A comparison builtin applied to `args`.
pub fn compare_op_exec(op: CmpOp, args: &[Value]) -> (r: Result<Value, Error>)
    ensures
        match r {
            Ok(v) => compare_op(op, views(args@)) == Ok::<SValue, SError>(v@),
            Err(e) => compare_op(op, views(args@)) == Err::<SValue, SError>(e@),
        },
{
    if args.len() != 2 {
        return Err(Error::ComparisonArity);
    }
    assert(views(args@)[0] == args@[0]@);
    assert(views(args@)[1] == args@[1]@);
    match (&args[0], &args[1]) {
        (Value::Number(a), Value::Number(b)) => {
            let r = match op {
                CmpOp::Eq => a.equals(b),
                CmpOp::Lt => a.less_than(b),
                CmpOp::Gt => b.less_than(a),
                CmpOp::Le => !b.less_than(a),
                CmpOp::Ge => !a.less_than(b),
            };
            Ok(Value::Bool(r))
        },
        _ => Err(Error::ComparisonNumbers),
    }
}

// ---------------------------------------------------------------- lists

/// `car`: the first element of a non-empty list.
pub open spec fn car(args: Seq<SValue>) -> Result<SValue, SError> {
    if args.len() != 1 {
        Err(SError::CarArity)
    } else {
        match args[0] {
            SValue::List(elems) => if elems.len() > 0 { Ok(elems[0]) } else { Err(SError::CarNotList) },
            _ => Err(SError::CarNotList),
        }
    }
}

/// `cdr`: a non-empty list without its first element (`()` when nothing is left).
pub open spec fn cdr(args: Seq<SValue>) -> Result<SValue, SError> {
    if args.len() != 1 {
        Err(SError::CdrArity)
    } else {
        match args[0] {
            SValue::List(elems) => if elems.len() == 0 {
                Err(SError::CdrNotList)
            } else if elems.len() == 1 {
                Ok(SValue::Nil)
            } else {
                Ok(SValue::List(elems.drop_first()))
            },
            _ => Err(SError::CdrNotList),
        }
    }
}

/// `cons`: the first argument in front of a list; in front of `()` a
/// one-element list; in front of anything else a two-element list.
pub open spec fn cons(args: Seq<SValue>) -> Result<SValue, SError> {
    if args.len() != 2 {
        Err(SError::ConsArity)
    } else {
        match args[1] {
            SValue::List(elems) => Ok(SValue::List(seq![args[0]] + elems)),
            SValue::Nil => Ok(SValue::List(seq![args[0]])),
            _ => Ok(SValue::List(seq![args[0], args[1]])),
        }
    }
}

/// `list`: the arguments as a list (`()` when there are none).
pub open spec fn list(args: Seq<SValue>) -> SValue {
    if args.len() == 0 { SValue::Nil } else { SValue::List(args) }
}

/// Copies of `vs[from..]`.
fn copy_from(vs: &[Value], from: usize) -> (r: Vec<Value>)
    requires
        from <= vs@.len(),
    ensures
        views(r@) == views(vs@).subrange(from as int, vs@.len() as int),
{
    let mut out: Vec<Value> = Vec::new();
    let mut i = from;
    while i < vs.len()
        invariant
            from <= i <= vs@.len(),
            views(out@) == views(vs@).subrange(from as int, i as int),
        decreases vs@.len() - i,
    {
        let ghost before = views(out@);
        out.push(vs[i].copy());
        assert(views(out@) =~= before.push(vs@[i as int]@));
        assert(views(vs@).subrange(from as int, i + 1) =~= views(vs@).subrange(from as int, i as int).push(vs@[i as int]@));
        i = i + 1;
    }
    out
}

fn car_exec(args: &[Value]) -> (r: Result<Value, Error>)
    ensures
        match r {
            Ok(v) => car(views(args@)) == Ok::<SValue, SError>(v@),
            Err(e) => car(views(args@)) == Err::<SValue, SError>(e@),
        },
{
    broadcast use group_value_views;
    if args.len() != 1 {
        return Err(Error::CarArity);
    }
    assert(views(args@)[0] == args@[0]@);
    match &args[0] {
        Value::List(elems) => {
            proof {
                crate::value::lemma_list_view(*elems);
            }
            if elems.len() > 0 {
                assert(views(elems@)[0] == elems@[0]@);
                Ok(elems[0].copy())
            } else {
                Err(Error::CarNotList)
            }
        },
        _ => Err(Error::CarNotList),
    }
}

fn cdr_exec(args: &[Value]) -> (r: Result<Value, Error>)
    ensures
        match r {
            Ok(v) => cdr(views(args@)) == Ok::<SValue, SError>(v@),
            Err(e) => cdr(views(args@)) == Err::<SValue, SError>(e@),
        },
{
    broadcast use group_value_views;
    if args.len() != 1 {
        return Err(Error::CdrArity);
    }
    assert(views(args@)[0] == args@[0]@);
    match &args[0] {
        Value::List(elems) => {
            proof {
                crate::value::lemma_list_view(*elems);
            }
            if elems.len() == 0 {
                Err(Error::CdrNotList)
            } else if elems.len() == 1 {
                Ok(Value::Nil)
            } else {
                let rest = copy_from(elems.as_slice(), 1);
                proof {
                    crate::value::lemma_list_view(rest);
                    assert(views(elems@).subrange(1, elems@.len() as int) =~= views(elems@).drop_first());
                }
                Ok(Value::List(rest))
            }
        },
        _ => Err(Error::CdrNotList),
    }
}

fn cons_exec(args: &[Value]) -> (r: Result<Value, Error>)
    ensures
        match r {
            Ok(v) => cons(views(args@)) == Ok::<SValue, SError>(v@),
            Err(e) => cons(views(args@)) == Err::<SValue, SError>(e@),
        },
{
    broadcast use group_value_views;
    if args.len() != 2 {
        return Err(Error::ConsArity);
    }
    assert(views(args@)[0] == args@[0]@);
    assert(views(args@)[1] == args@[1]@);
    let a = args[0].copy();
    match &args[1] {
        Value::List(elems) => {
            proof {
                crate::value::lemma_list_view(*elems);
            }
            let mut out: Vec<Value> = Vec::new();
            out.push(a);
            let rest = copy_from(elems.as_slice(), 0);
            let ghost sa = views(out@);
            let mut rest_mut = rest;
            out.append(&mut rest_mut);
            proof {
                crate::value::lemma_list_view(out);
                assert(views(elems@).subrange(0, elems@.len() as int) =~= views(elems@));
                assert(views(out@) =~= seq![args@[0]@] + views(elems@));
            }
            Ok(Value::List(out))
        },
        Value::Nil => {
            let out = vec![a];
            proof {
                crate::value::lemma_list_view(out);
                assert(views(out@) =~= seq![args@[0]@]);
            }
            Ok(Value::List(out))
        },
        _ => {
            let b = args[1].copy();
            let out = vec![a, b];
            proof {
                crate::value::lemma_list_view(out);
                assert(views(out@) =~= seq![args@[0]@, args@[1]@]);
            }
            Ok(Value::List(out))
        },
    }
}

fn list_exec(args: &[Value]) -> (r: Value)
    ensures
        r@ == list(views(args@)),
{
    if args.len() == 0 {
        Value::Nil
    } else {
        let out = copy_from(args, 0);
        proof {
            crate::value::lemma_list_view(out);
            assert(views(args@).subrange(0, args@.len() as int) =~= views(args@));
        }
        Value::List(out)
    }
}

/// `length`: the number of elements of a list (`0` for `()`).
pub open spec fn length(args: Seq<SValue>) -> Result<SValue, SError> {
    if args.len() != 1 {
        Err(SError::LengthArity)
    } else {
        match args[0] {
            SValue::Nil => Ok(SValue::Number(SNum { num: 0, den: 1 })),
            SValue::List(items) => Ok(SValue::Number(SNum { num: items.len() as int, den: 1 })),
            _ => Err(SError::LengthNotList),
        }
    }
}

/// `append` of `args[i..]` after the elements `acc`: the elements of all the
/// lists in order (`()` when there are none); an error at the first argument
/// that is not a list.
pub open spec fn append_from(args: Seq<SValue>, i: nat, acc: Seq<SValue>) -> Result<SValue, SError>
    decreases args.len() - i,
{
    if i >= args.len() {
        Ok(list(acc))
    } else {
        match args[i as int] {
            SValue::Nil => append_from(args, i + 1, acc),
            SValue::List(items) => append_from(args, i + 1, acc + items),
            _ => Err(SError::AppendNotList),
        }
    }
}

fn length_exec(args: &[Value]) -> (r: Result<Value, Error>)
    ensures
        match r {
            Ok(v) => length(views(args@)) == Ok::<SValue, SError>(v@),
            Err(e) => length(views(args@)) == Err::<SValue, SError>(e@),
        },
{
    if args.len() != 1 {
        return Err(Error::LengthArity);
    }
    assert(views(args@)[0] == args@[0]@);
    match &args[0] {
        Value::Nil => Ok(Value::Number(Number::from_i64(0))),
        Value::List(items) => {
            proof {
                crate::value::lemma_list_view(*items);
            }
            let n = items.len();
            Ok(Value::Number(Number::from_u64(n as u64)))
        },
        _ => Err(Error::LengthNotList),
    }
}

fn append_exec(args: &[Value]) -> (r: Result<Value, Error>)
    ensures
        match r {
            Ok(v) => append_from(views(args@), 0, seq![]) == Ok::<SValue, SError>(v@),
            Err(e) => append_from(views(args@), 0, seq![]) == Err::<SValue, SError>(e@),
        },
{
    let ghost sa = views(args@);
    let mut out: Vec<Value> = Vec::new();
    let mut i: usize = 0;
    assert(views(out@) =~= seq![]);
    while i < args.len()
        invariant
            i <= args@.len(),
            sa == views(args@),
            append_from(sa, 0, seq![]) == append_from(sa, i as nat, views(out@)),
        decreases args@.len() - i,
    {
        assert(sa[i as int] == args@[i as int]@);
        match &args[i] {
            Value::Nil => {},
            Value::List(items) => {
                proof {
                    crate::value::lemma_list_view(*items);
                }
                let ghost before = views(out@);
                let mut more = copy_from(items.as_slice(), 0);
                let ghost added = views(more@);
                out.append(&mut more);
                proof {
                    assert(views(items@).subrange(0, items@.len() as int) =~= views(items@));
                    assert(views(out@) =~= before + added);
                }
            },
            _ => {
                return Err(Error::AppendNotList);
            },
        }
        i = i + 1;
    }
    if out.len() == 0 {
        assert(views(out@) =~= seq![]);
        Ok(Value::Nil)
    } else {
        proof {
            crate::value::lemma_list_view(out);
        }
        Ok(Value::List(out))
    }
}

// ---------------------------------------------------------------- predicates

/// A type predicate.
#[derive(Clone, Copy)]
pub enum TypePred {
    Null,
    Pair,
    Number,
    Str,
    Boolean,
    Symbol,
    Procedure,
    List,
}

/// Whether `v` satisfies the predicate `p`.
pub open spec fn satisfies(p: TypePred, v: SValue) -> bool {
    match p {
        TypePred::Null => v is Nil,
        TypePred::Pair => v matches SValue::List(items) && items.len() > 0,
        TypePred::Number => v is Number,
        TypePred::Str => v is Str,
        TypePred::Boolean => v is Bool,
        TypePred::Symbol => v is Symbol,
        TypePred::Procedure => v is Closure || v is Builtin,
        TypePred::List => v is List || v is Nil,
    }
}

/// A type predicate builtin: whether there is a first argument and it satisfies `p`.
pub open spec fn type_pred(p: TypePred, args: Seq<SValue>) -> SValue {
    SValue::Bool(args.len() > 0 && satisfies(p, args[0]))
}

fn type_pred_exec(p: TypePred, args: &[Value]) -> (r: Value)
    ensures
        r@ == type_pred(p, views(args@)),
{
    broadcast use group_value_views;
    if args.len() == 0 {
        return Value::Bool(false);
    }
    assert(views(args@)[0] == args@[0]@);
    let v = &args[0];
    let b = match p {
        TypePred::Null => match v {
            Value::Nil => true,
            _ => false,
        },
        TypePred::Pair => match v {
            Value::List(items) => {
                proof {
                    crate::value::lemma_list_view(*items);
                }
                items.len() > 0
            },
            _ => false,
        },
        TypePred::Number => match v {
            Value::Number(_) => true,
            _ => false,
        },
        TypePred::Str => match v {
            Value::Str(_) => true,
            _ => false,
        },
        TypePred::Boolean => match v {
            Value::Bool(_) => true,
            _ => false,
        },
        TypePred::Symbol => match v {
            Value::Symbol(_) => true,
            _ => false,
        },
        TypePred::Procedure => match v {
            Value::Closure { .. } => true,
            Value::BuiltinFunc(_) => true,
            _ => false,
        },
        TypePred::List => match v {
            Value::List(_) => true,
            Value::Nil => true,
            _ => false,
        },
    };
    Value::Bool(b)
}

// ---------------------------------------------------------------- equality

/// `eq?`: symbols with the same name, numbers of the same value, equal
/// booleans, and `()` with `()`.
pub open spec fn is_eq(a: SValue, b: SValue) -> bool {
    match (a, b) {
        (SValue::Symbol(x), SValue::Symbol(y)) => x == y,
        (SValue::Number(x), SValue::Number(y)) => num_eq(x, y),
        (SValue::Bool(x), SValue::Bool(y)) => x == y,
        (SValue::Nil, SValue::Nil) => true,
        _ => false,
    }
}

/// `equal?`: structural equality, numbers by value, lists element by element,
/// builtins by name; closures are never equal.
pub open spec fn values_equal(a: SValue, b: SValue) -> bool
    decreases a, 0nat,
{
    match (a, b) {
        (SValue::Number(x), SValue::Number(y)) => num_eq(x, y),
        (SValue::Str(x), SValue::Str(y)) => x == y,
        (SValue::Bool(x), SValue::Bool(y)) => x == y,
        (SValue::Symbol(x), SValue::Symbol(y)) => x == y,
        (SValue::List(xs), SValue::List(ys)) => xs.len() == ys.len() && lists_equal_from(xs, ys, 0),
        (SValue::Nil, SValue::Nil) => true,
        (SValue::Builtin(x), SValue::Builtin(y)) => x == y,
        _ => false,
    }
}

/// Whether `xs[i..]` and `ys[i..]` are equal element by element.
pub open spec fn lists_equal_from(xs: Seq<SValue>, ys: Seq<SValue>, i: nat) -> bool
    decreases xs, xs.len() - i,
{
    if i >= xs.len() || i >= ys.len() {
        true
    } else {
        values_equal(xs[i as int], ys[i as int]) && lists_equal_from(xs, ys, i + 1)
    }
}

fn is_eq_exec(a: &Value, b: &Value) -> (r: bool)
    ensures
        r == is_eq(a@, b@),
{
    match (a, b) {
        (Value::Symbol(x), Value::Symbol(y)) => *x == *y,
        (Value::Number(x), Value::Number(y)) => {
            x.equals(y)
        },
        (Value::Bool(x), Value::Bool(y)) => *x == *y,
        (Value::Nil, Value::Nil) => true,
        _ => false,
    }
}

/// Whether `xs` and `ys`, of the same length and parts of `owner`, are
/// equal element by element.
fn lists_equal_exec(xs: &[Value], ys: &[Value], owner: &Value) -> (r: bool)
    requires
        xs@.len() == ys@.len(),
        forall|i: int| 0 <= i < xs@.len() ==> decreases_to!(*owner => xs@[i]),
    ensures
        r == lists_equal_from(views(xs@), views(ys@), 0),
    decreases owner, 0nat,
{
    let ghost sx = views(xs@);
    let ghost sy = views(ys@);
    let mut i: usize = 0;
    while i < xs.len()
        invariant
            forall|k: int| 0 <= k < xs@.len() ==> decreases_to!(*owner => xs@[k]),
            sx == views(xs@),
            sy == views(ys@),
            xs@.len() == ys@.len(),
            i <= xs@.len(),
            lists_equal_from(sx, sy, 0) == lists_equal_from(sx, sy, i as nat),
        decreases xs@.len() - i,
    {
        assert(sx[i as int] == xs@[i as int]@);
        assert(sy[i as int] == ys@[i as int]@);
        if !values_equal_exec(&xs[i], &ys[i]) {
            return false;
        }
        i = i + 1;
    }
    true
}

/// Whether `a` and `b` are equal in the sense of `equal?`.
pub fn values_equal_exec(a: &Value, b: &Value) -> (r: bool)
    ensures
        r == values_equal(a@, b@),
    decreases a, 1nat,
{
    broadcast use group_value_views;
    match (a, b) {
        (Value::Number(x), Value::Number(y)) => {
            x.equals(y)
        },
        (Value::Str(x), Value::Str(y)) => *x == *y,
        (Value::Bool(x), Value::Bool(y)) => *x == *y,
        (Value::Symbol(x), Value::Symbol(y)) => *x == *y,
        (Value::List(xs), Value::List(ys)) => {
            proof {
                crate::value::lemma_list_view(*xs);
                crate::value::lemma_list_view(*ys);
                assert(*a == Value::List(*xs));
            }
            if xs.len() != ys.len() {
                return false;
            }
            lists_equal_exec(xs.as_slice(), ys.as_slice(), a)
        },
        (Value::Nil, Value::Nil) => true,
        (Value::BuiltinFunc(x), Value::BuiltinFunc(y)) => *x == *y,
        _ => false,
    }
}

// ---------------------------------------------------------------- dispatch

/// A builtin procedure applied to `args`, and the environment after it (only
/// `display` and `newline` change it, by writing output).
pub open spec fn apply_builtin(name: Seq<char>, args: Seq<SValue>, env: SEnv) -> (Result<SValue, SError>, SEnv) {
    if name == "+"@ {
        (numeric_op(ArithOp::Add, args), env)
    } else if name == "-"@ {
        (numeric_op(ArithOp::Sub, args), env)
    } else if name == "*"@ {
        (numeric_op(ArithOp::Mul, args), env)
    } else if name == "/"@ {
        (divide(args), env)
    } else if name == "="@ {
        (compare_op(CmpOp::Eq, args), env)
    } else if name == "<"@ {
        (compare_op(CmpOp::Lt, args), env)
    } else if name == ">"@ {
        (compare_op(CmpOp::Gt, args), env)
    } else if name == "<="@ {
        (compare_op(CmpOp::Le, args), env)
    } else if name == ">="@ {
        (compare_op(CmpOp::Ge, args), env)
    } else if name == "car"@ {
        (car(args), env)
    } else if name == "cdr"@ {
        (cdr(args), env)
    } else if name == "cons"@ {
        (cons(args), env)
    } else if name == "list"@ {
        (Ok(list(args)), env)
    } else if name == "null?"@ {
        (Ok(type_pred(TypePred::Null, args)), env)
    } else if name == "pair?"@ {
        (Ok(type_pred(TypePred::Pair, args)), env)
    } else if name == "number?"@ {
        (Ok(type_pred(TypePred::Number, args)), env)
    } else if name == "string?"@ {
        (Ok(type_pred(TypePred::Str, args)), env)
    } else if name == "boolean?"@ {
        (Ok(type_pred(TypePred::Boolean, args)), env)
    } else if name == "symbol?"@ {
        (Ok(type_pred(TypePred::Symbol, args)), env)
    } else if name == "procedure?"@ {
        (Ok(type_pred(TypePred::Procedure, args)), env)
    } else if name == "eq?"@ {
        (if args.len() != 2 { Err(SError::EqArity) } else { Ok(SValue::Bool(is_eq(args[0], args[1]))) }, env)
    } else if name == "equal?"@ {
        (if args.len() != 2 { Err(SError::EqualArity) } else { Ok(SValue::Bool(values_equal(args[0], args[1]))) }, env)
    } else if name == "not"@ {
        (if args.len() != 1 { Err(SError::NotArity) } else { Ok(SValue::Bool(!truthy(args[0]))) }, env)
    } else if name == "display"@ {
        if args.len() != 1 {
            (Err(SError::DisplayArity), env)
        } else {
            (Ok(SValue::Nil), emit(env, match args[0] {
                SValue::Str(s) => s,
                v => show(v),
            }))
        }
    } else if name == "newline"@ {
        (Ok(SValue::Nil), emit(env, seq!['\n']))
    } else if name == "list?"@ {
        (Ok(type_pred(TypePred::List, args)), env)
    } else if name == "length"@ {
        (length(args), env)
    } else if name == "append"@ {
        (append_from(args, 0, seq![]), env)
    } else {
        (Err(SError::UnknownBuiltin(name)), env)
    }
}

/// Applies the builtin called `name` to `args`.
pub fn apply_builtin_exec(name: &String, args: &[Value], env: &mut Env) -> (r: Result<Value, Error>)
    ensures
        match r {
            Ok(v) => apply_builtin(name@, views(args@), old(env)@) == (Ok::<SValue, SError>(v@), final(env)@),
            Err(e) => apply_builtin(name@, views(args@), old(env)@) == (Err::<SValue, SError>(e@), final(env)@),
        },
{
    if text_is(name, "+") {
        numeric_op_exec(ArithOp::Add, args)
    } else if text_is(name, "-") {
        numeric_op_exec(ArithOp::Sub, args)
    } else if text_is(name, "*") {
        numeric_op_exec(ArithOp::Mul, args)
    } else if text_is(name, "/") {
        divide_exec(args)
    } else if text_is(name, "=") {
        compare_op_exec(CmpOp::Eq, args)
    } else if text_is(name, "<") {
        compare_op_exec(CmpOp::Lt, args)
    } else if text_is(name, ">") {
        compare_op_exec(CmpOp::Gt, args)
    } else if text_is(name, "<=") {
        compare_op_exec(CmpOp::Le, args)
    } else if text_is(name, ">=") {
        compare_op_exec(CmpOp::Ge, args)
    } else if text_is(name, "car") {
        car_exec(args)
    } else if text_is(name, "cdr") {
        cdr_exec(args)
    } else if text_is(name, "cons") {
        cons_exec(args)
    } else if text_is(name, "list") {
        Ok(list_exec(args))
    } else if text_is(name, "null?") {
        Ok(type_pred_exec(TypePred::Null, args))
    } else if text_is(name, "pair?") {
        Ok(type_pred_exec(TypePred::Pair, args))
    } else if text_is(name, "number?") {
        Ok(type_pred_exec(TypePred::Number, args))
    } else if text_is(name, "string?") {
        Ok(type_pred_exec(TypePred::Str, args))
    } else if text_is(name, "boolean?") {
        Ok(type_pred_exec(TypePred::Boolean, args))
    } else if text_is(name, "symbol?") {
        Ok(type_pred_exec(TypePred::Symbol, args))
    } else if text_is(name, "procedure?") {
        Ok(type_pred_exec(TypePred::Procedure, args))
    } else if text_is(name, "eq?") {
        if args.len() != 2 {
            return Err(Error::EqArity);
        }
        assert(views(args@)[0] == args@[0]@);
        assert(views(args@)[1] == args@[1]@);
        Ok(Value::Bool(is_eq_exec(&args[0], &args[1])))
    } else if text_is(name, "equal?") {
        if args.len() != 2 {
            return Err(Error::EqualArity);
        }
        assert(views(args@)[0] == args@[0]@);
        assert(views(args@)[1] == args@[1]@);
        Ok(Value::Bool(values_equal_exec(&args[0], &args[1])))
    } else if text_is(name, "not") {
        if args.len() != 1 {
            return Err(Error::NotArity);
        }
        assert(views(args@)[0] == args@[0]@);
        Ok(Value::Bool(!is_truthy(&args[0])))
    } else if text_is(name, "display") {
        if args.len() != 1 {
            return Err(Error::DisplayArity);
        }
        assert(views(args@)[0] == args@[0]@);
        let mut text: Vec<char> = Vec::new();
        match &args[0] {
            Value::Str(s) => {
                let cs = chars_of(s.as_str());
                push_chars(&mut text, cs.as_slice());
            },
            other => {
                write_value(other, &mut text);
            },
        }
        env.write_output(text.as_slice());
        Ok(Value::Nil)
    } else if text_is(name, "newline") {
        let text = vec!['\n'];
        assert(text@ =~= seq!['\n']);
        env.write_output(text.as_slice());
        Ok(Value::Nil)
    } else if text_is(name, "list?") {
        Ok(type_pred_exec(TypePred::List, args))
    } else if text_is(name, "length") {
        length_exec(args)
    } else if text_is(name, "append") {
        append_exec(args)
    } else {
        Err(Error::UnknownBuiltin(name.clone()))
    }
}

} // verus!

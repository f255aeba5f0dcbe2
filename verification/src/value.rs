//! Values of the interpreter (S-expressions, closures, builtins), their
//! mathematical model, copying and printing.

use vstd::prelude::*;
use crate::number::{Number, SNum, num_text};
use crate::text::{chars_of, push_chars, push_str, string_of};
use vstd::std_specs::cmp::PartialEqSpecImpl;

verus! {

/// The model of a value: strings are sequences of characters, lists are
/// sequences, and a closure's environment is the index of a frame.
pub enum SValue {
    Number(SNum),
    Str(Seq<char>),
    Bool(bool),
    Symbol(Seq<char>),
    List(Seq<SValue>),
    Nil,
    Closure { params: Seq<Seq<char>>, body: Seq<SValue>, env: nat },
    Builtin(Seq<char>),
}

/// A value of the interpreter. A closure refers to the frame it was created in
/// by that frame's index in the interpreter's [`crate::env::Env`].
#[derive(Debug)]
pub enum Value {
    Number(Number),
    Str(String),
    Bool(bool),
    Symbol(String),
    List(Vec<Value>),
    Nil,
    Closure { params: Vec<String>, body: Vec<Value>, env: usize },
    BuiltinFunc(String),
}

impl View for Value {
    type V = SValue;

    open spec fn view(&self) -> SValue
        decreases self,
    {
        match self {
            Value::Number(n) => SValue::Number(n@),
            Value::Str(s) => SValue::Str(s@),
            Value::Bool(b) => SValue::Bool(*b),
            Value::Symbol(s) => SValue::Symbol(s@),
            Value::List(items) => SValue::List(
                Seq::new(
                    items.len() as nat,
                    |i: int| if 0 <= i < items.len() { items[i].view() } else { SValue::Nil },
                ),
            ),
            Value::Nil => SValue::Nil,
            Value::Closure { params, body, env } => SValue::Closure {
                params: Seq::new(params.len() as nat, |i: int| params[i]@),
                body: Seq::new(
                    body.len() as nat,
                    |i: int| if 0 <= i < body.len() { body[i].view() } else { SValue::Nil },
                ),
                env: *env as nat,
            },
            Value::BuiltinFunc(name) => SValue::Builtin(name@),
        }
    }
}

/// `==` on values is `equal?`: numbers by value, lists element by element,
/// builtins by name, and closures never equal.
impl PartialEq for Value {
    fn eq(&self, other: &Self) -> (r: bool) {
        crate::builtins::values_equal_exec(self, other)
    }
}

impl PartialEqSpecImpl for Value {
    open spec fn obeys_eq_spec() -> bool {
        true
    }

    open spec fn eq_spec(&self, other: &Value) -> bool {
        crate::builtins::values_equal(self@, other@)
    }
}

/// The models of a sequence of values.
pub open spec fn views(vs: Seq<Value>) -> Seq<SValue> {
    Seq::new(vs.len(), |i: int| vs[i]@)
}

/// The models of a sequence of names.
pub open spec fn name_views(ns: Seq<String>) -> Seq<Seq<char>> {
    Seq::new(ns.len(), |i: int| ns[i]@)
}

/// The model of a list is the sequence of its elements' models.
pub broadcast proof fn lemma_list_view(items: Vec<Value>)
    ensures
        #[trigger] Value::List(items)@ == SValue::List(views(items@)),
{
    reveal_with_fuel(<Value as View>::view, 2);
    assert(Value::List(items)@->List_0 =~= views(items@));
}

/// The model of a closure, in terms of [`views`] and [`name_views`].
pub broadcast proof fn lemma_closure_view(params: Vec<String>, body: Vec<Value>, env: usize)
    ensures
        #[trigger] (Value::Closure { params, body, env })@ == (SValue::Closure {
            params: name_views(params@),
            body: views(body@),
            env: env as nat,
        }),
{
    reveal_with_fuel(<Value as View>::view, 2);
    let v = Value::Closure { params, body, env };
    assert(v@->body =~= views(body@));
    assert(v@->params =~= name_views(params@));
}

pub broadcast group group_value_views {
    lemma_list_view,
    lemma_closure_view,
}

// ---------------------------------------------------------------- printing

/// The printed form of a value.
pub open spec fn show(v: SValue) -> Seq<char>
    decreases v,
{
    match v {
        SValue::Number(n) => num_text(n),
        SValue::Str(s) => seq!['"'] + s + seq!['"'],
        SValue::Bool(b) => if b { "#t"@ } else { "#f"@ },
        SValue::Symbol(s) => s,
        SValue::Nil => "()"@,
        SValue::List(items) => seq!['('] + show_items(items) + seq![')'],
        SValue::Closure { .. } => "#<closure>"@,
        SValue::Builtin(name) => "#<builtin:"@ + name + seq!['>'],
    }
}

/// The printed forms of `items`, separated by single spaces.
pub open spec fn show_items(items: Seq<SValue>) -> Seq<char>
    decreases items,
{
    if items.len() == 0 {
        Seq::empty()
    } else if items.len() == 1 {
        show(items[0])
    } else {
        show_items(items.drop_last()) + seq![' '] + show(items.last())
    }
}

impl Value {
    /// A copy of this value with the same model.
    pub fn copy(&self) -> (r: Value)
        ensures
            r@ == self@,
        decreases self, 1nat,
    {
        broadcast use group_value_views;
        match self {
            Value::Number(n) => Value::Number(n.copy()),
            Value::Str(s) => Value::Str(s.clone()),
            Value::Bool(b) => Value::Bool(*b),
            Value::Symbol(s) => Value::Symbol(s.clone()),
            Value::List(items) => {
                proof {
                    assert(*self == Value::List(*items));
                }
                let out = copy_values(items.as_slice(), self);
                Value::List(out)
            },
            Value::Nil => Value::Nil,
            Value::Closure { params, body, env } => {
                proof {
                    assert(*self == Value::Closure { params: *params, body: *body, env: *env });
                }
                let ps = copy_names(params.as_slice());
                let bs = copy_values(body.as_slice(), self);
                Value::Closure { params: ps, body: bs, env: *env }
            },
            Value::BuiltinFunc(name) => Value::BuiltinFunc(name.clone()),
        }
    }

    /// The printed form of this value.
    pub fn to_text(&self) -> (r: String)
        ensures
            r@ == show(self@),
    {
        let mut out: Vec<char> = Vec::new();
        write_value(self, &mut out);
        assert(out@ =~= show(self@));
        string_of(out.as_slice())
    }
}

/// Copies of `vs`, all parts of `owner`.
fn copy_values(vs: &[Value], owner: &Value) -> (r: Vec<Value>)
    requires
        forall|i: int| 0 <= i < vs@.len() ==> decreases_to!(*owner => vs@[i]),
    ensures
        views(r@) == views(vs@),
    decreases owner, 0nat,
{
    let mut out: Vec<Value> = Vec::new();
    let mut i: usize = 0;
    while i < vs.len()
        invariant
            i <= vs.len(),
            out.len() == i,
            forall|j: int| 0 <= j < vs@.len() ==> decreases_to!(*owner => vs@[j]),
            forall|j: int| 0 <= j < i ==> out@[j]@ == vs@[j]@,
        decreases vs.len() - i,
    {
        let c = vs[i].copy();
        out.push(c);
        i = i + 1;
    }
    assert(views(out@) =~= views(vs@));
    out
}

/// Copies of `ns`.
pub fn copy_names(ns: &[String]) -> (r: Vec<String>)
    ensures
        name_views(r@) == name_views(ns@),
        r@ == ns@,
{
    let mut out: Vec<String> = Vec::new();
    let mut i: usize = 0;
    while i < ns.len()
        invariant
            i <= ns.len(),
            out@ == ns@.subrange(0, i as int),
        decreases ns.len() - i,
    {
        out.push(ns[i].clone());
        i = i + 1;
        assert(out@ =~= ns@.subrange(0, i as int));
    }
    assert(out@ =~= ns@);
    out
}

/// Appends the printed form of `v` to `out`.
pub fn write_value(v: &Value, out: &mut Vec<char>)
    ensures
        final(out)@ == old(out)@ + show(v@),
    decreases v, 1nat,
{
    broadcast use group_value_views;
    match v {
        Value::Number(n) => n.write_text(out),
        Value::Str(s) => {
            let ghost start = out@;
            out.push('"');
            let cs = chars_of(s.as_str());
            push_chars(out, cs.as_slice());
            out.push('"');
            assert(out@ =~= start + (seq!['"'] + s@ + seq!['"']));
        },
        Value::Bool(b) => {
            if *b {
                push_str(out, "#t");
            } else {
                push_str(out, "#f");
            }
        },
        Value::Symbol(s) => {
            let cs = chars_of(s.as_str());
            push_chars(out, cs.as_slice());
        },
        Value::Nil => push_str(out, "()"),
        Value::List(items) => {
            proof {
                assert(*v == Value::List(*items));
            }
            let ghost start = out@;
            out.push('(');
            write_items(items.as_slice(), v, out);
            out.push(')');
            assert(out@ =~= old(out)@ + (seq!['('] + show_items(views(items@)) + seq![')']));
        },
        Value::Closure { .. } => push_str(out, "#<closure>"),
        Value::BuiltinFunc(name) => {
            let ghost start = out@;
            push_str(out, "#<builtin:");
            let cs = chars_of(name.as_str());
            push_chars(out, cs.as_slice());
            out.push('>');
            assert(out@ =~= start + ("#<builtin:"@ + name@ + seq!['>']));
        },
    }
}

/// Appends the printed forms of `items`, separated by spaces, to `out`.
fn write_items(items: &[Value], owner: &Value, out: &mut Vec<char>)
    requires
        forall|i: int| 0 <= i < items@.len() ==> decreases_to!(*owner => items@[i]),
    ensures
        final(out)@ == old(out)@ + show_items(views(items@)),
    decreases owner, 0nat,
{
    let ghost sv = views(items@);
    let mut i: usize = 0;
    while i < items.len()
        invariant
            forall|j: int| 0 <= j < items@.len() ==> decreases_to!(*owner => items@[j]),
            sv == views(items@),
            i <= items.len(),
            out@ == old(out)@ + show_items(sv.take(i as int)),
        decreases items.len() - i,
    {
        if i > 0 {
            out.push(' ');
        }
        write_value(&items[i], out);
        proof {
            let t = sv.take(i + 1);
            assert(t.drop_last() =~= sv.take(i as int));
            assert(t.last() == items@[i as int]@);
            if i == 0 {
                assert(t.len() == 1);
                assert(show_items(sv.take(0)) =~= Seq::<char>::empty());
            }
            assert(out@ =~= old(out)@ + show_items(t));
        }
        i = i + 1;
    }
    assert(sv.take(items.len() as int) =~= sv);
}

// ---------------------------------------------------------------- tokens

/// The model of a token.
pub enum SToken {
    LParen,
    RParen,
    Number(SNum),
    Str(Seq<char>),
    Bool(bool),
    Symbol(Seq<char>),
    Quote,
}

/// A lexical token.
#[derive(Debug, PartialEq)]
pub enum Token {
    LParen,
    RParen,
    Number(Number),
    Str(String),
    Bool(bool),
    Symbol(String),
    Quote,
}

impl View for Token {
    type V = SToken;

    open spec fn view(&self) -> SToken {
        match self {
            Token::LParen => SToken::LParen,
            Token::RParen => SToken::RParen,
            Token::Number(n) => SToken::Number(n@),
            Token::Str(s) => SToken::Str(s@),
            Token::Bool(b) => SToken::Bool(*b),
            Token::Symbol(s) => SToken::Symbol(s@),
            Token::Quote => SToken::Quote,
        }
    }
}

/// The models of a sequence of tokens.
pub open spec fn token_views(ts: Seq<Token>) -> Seq<SToken> {
    Seq::new(ts.len(), |i: int| ts[i]@)
}

} // verus!

//! The reader: from tokens to S-expressions.

use vstd::prelude::*;
use crate::error::{Error, SError};
use crate::text::string_from_str;
use crate::value::{SToken, SValue, Token, Value, group_value_views, token_views, views};

verus! {

/// The datum that starts at token `i`, and the index of the token after it.
pub open spec fn parse_at(ts: Seq<SToken>, i: nat) -> Result<(SValue, nat), SError>
    decreases ts.len() - i, 0nat,
{
    if i >= ts.len() {
        Err(SError::UnexpectedEnd)
    } else {
        match ts[i as int] {
            SToken::LParen => parse_items(ts, i + 1, seq![]),
            SToken::RParen => Err(SError::UnexpectedRParen),
            SToken::Quote => match parse_at(ts, i + 1) {
                Ok(r) => Ok((SValue::List(seq![SValue::Symbol("quote"@), r.0]), r.1)),
                Err(e) => Err(e),
            },
            SToken::Number(n) => Ok((SValue::Number(n), i + 1)),
            SToken::Str(s) => Ok((SValue::Str(s), i + 1)),
            SToken::Bool(b) => Ok((SValue::Bool(b), i + 1)),
            SToken::Symbol(s) => Ok((SValue::Symbol(s), i + 1)),
        }
    }
}

/// The rest of a list whose elements before token `j` are `acc`: the list
/// (`()` when it has no elements) and the index after its closing parenthesis.
pub open spec fn parse_items(ts: Seq<SToken>, j: nat, acc: Seq<SValue>) -> Result<(SValue, nat), SError>
    decreases ts.len() - j, 1nat,
{
    if j >= ts.len() {
        Err(SError::MissingRParen)
    } else if ts[j as int] == SToken::RParen {
        Ok((if acc.len() == 0 { SValue::Nil } else { SValue::List(acc) }, j + 1))
    } else {
        match parse_at(ts, j) {
            Err(e) => Err(e),
            Ok(r) => if j < r.1 <= ts.len() {
                parse_items(ts, r.1, acc.push(r.0))
            } else {
                Err(SError::UnexpectedEnd)
            },
        }
    }
}

/// All the data of `ts` from token `i` on, after those already read (`acc`).
pub open spec fn parse_all_from(ts: Seq<SToken>, i: nat, acc: Seq<SValue>) -> Result<Seq<SValue>, SError>
    decreases ts.len() - i,
{
    if i >= ts.len() {
        Ok(acc)
    } else {
        match parse_at(ts, i) {
            Err(e) => Err(e),
            Ok(r) => if i < r.1 <= ts.len() {
                parse_all_from(ts, r.1, acc.push(r.0))
            } else {
                Err(SError::UnexpectedEnd)
            },
        }
    }
}

/// A datum read consumes at least one token and no more than there are.
pub proof fn lemma_parse_progress(ts: Seq<SToken>, i: nat)
    ensures
        parse_at(ts, i) matches Ok(r) ==> i < r.1 <= ts.len(),
    decreases ts.len() - i, 0nat,
{
    if i < ts.len() {
        match ts[i as int] {
            SToken::LParen => lemma_items_progress(ts, i + 1, seq![]),
            SToken::Quote => lemma_parse_progress(ts, i + 1),
            _ => {},
        }
    }
}

proof fn lemma_items_progress(ts: Seq<SToken>, j: nat, acc: Seq<SValue>)
    ensures
        parse_items(ts, j, acc) matches Ok(r) ==> j < r.1 <= ts.len(),
    decreases ts.len() - j, 1nat,
{
    if j < ts.len() && ts[j as int] != SToken::RParen {
        lemma_parse_progress(ts, j);
        if let Ok(r) = parse_at(ts, j) {
            if j < r.1 <= ts.len() {
                lemma_items_progress(ts, r.1, acc.push(r.0));
            }
        }
    }
}

proof fn lemma_parse_agree(ts: Seq<SToken>, ts2: Seq<SToken>, i: nat)
    requires
        parse_at(ts, i) is Ok,
        parse_at(ts, i)->Ok_0.1 <= ts2.len(),
        forall|k: int| 0 <= k < parse_at(ts, i)->Ok_0.1 ==> ts2[k] == ts[k],
    ensures
        parse_at(ts2, i) == parse_at(ts, i),
    decreases ts.len() - i, 0nat,
{
    lemma_parse_progress(ts, i);
    assert(ts2[i as int] == ts[i as int]);
    match ts[i as int] {
        SToken::LParen => lemma_items_agree(ts, ts2, i + 1, seq![]),
        SToken::Quote => lemma_parse_agree(ts, ts2, i + 1),
        _ => {},
    }
}

proof fn lemma_items_agree(ts: Seq<SToken>, ts2: Seq<SToken>, j: nat, acc: Seq<SValue>)
    requires
        parse_items(ts, j, acc) is Ok,
        parse_items(ts, j, acc)->Ok_0.1 <= ts2.len(),
        forall|k: int| 0 <= k < parse_items(ts, j, acc)->Ok_0.1 ==> ts2[k] == ts[k],
    ensures
        parse_items(ts2, j, acc) == parse_items(ts, j, acc),
    decreases ts.len() - j, 1nat,
{
    lemma_items_progress(ts, j, acc);
    assert(ts2[j as int] == ts[j as int]);
    if ts[j as int] != SToken::RParen {
        let r = parse_at(ts, j)->Ok_0;
        lemma_items_progress(ts, r.1, acc.push(r.0));
        lemma_parse_agree(ts, ts2, j);
        lemma_items_agree(ts, ts2, r.1, acc.push(r.0));
    }
}

/// A datum is read from its own tokens alone: when a datum is read from the
/// front of `ts` and ends before token `k`, the same datum, ending at the same
/// place, is read from the first `k` tokens followed by any tokens `u`.
pub proof fn law_parse_prefix(ts: Seq<SToken>, u: Seq<SToken>)
    requires
        parse_at(ts, 0) is Ok,
    ensures
        ({
            let k = parse_at(ts, 0)->Ok_0.1;
            &&& 0 < k <= ts.len()
            &&& parse_at(ts.subrange(0, k as int) + u, 0) == parse_at(ts, 0)
        }),
{
    lemma_parse_progress(ts, 0);
    let k = parse_at(ts, 0)->Ok_0.1;
    let ts2 = ts.subrange(0, k as int) + u;
    assert forall|i: int| 0 <= i < k implies ts2[i] == ts[i] by {}
    lemma_parse_agree(ts, ts2, 0);
}

/// A read result with its end moved `n` tokens on.
pub open spec fn moved(r: Result<(SValue, nat), SError>, n: nat) -> Result<(SValue, nat), SError> {
    match r {
        Ok(x) => Ok((x.0, x.1 + n)),
        Err(e) => Err(e),
    }
}

proof fn lemma_parse_shift(p: Seq<SToken>, ts: Seq<SToken>, i: nat)
    ensures
        parse_at(p + ts, p.len() + i) == moved(parse_at(ts, i), p.len()),
    decreases ts.len() - i, 0nat,
{
    let s = p + ts;
    if i < ts.len() {
        assert(s[(p.len() + i) as int] == ts[i as int]);
        match ts[i as int] {
            SToken::LParen => lemma_items_shift(p, ts, i + 1, seq![]),
            SToken::Quote => lemma_parse_shift(p, ts, i + 1),
            _ => {},
        }
    }
}

proof fn lemma_items_shift(p: Seq<SToken>, ts: Seq<SToken>, j: nat, acc: Seq<SValue>)
    ensures
        parse_items(p + ts, p.len() + j, acc) == moved(parse_items(ts, j, acc), p.len()),
    decreases ts.len() - j, 1nat,
{
    let s = p + ts;
    if j < ts.len() {
        assert(s[(p.len() + j) as int] == ts[j as int]);
        if ts[j as int] != SToken::RParen {
            lemma_parse_shift(p, ts, j);
            if let Ok(r) = parse_at(ts, j) {
                if j < r.1 <= ts.len() {
                    lemma_items_shift(p, ts, r.1, acc.push(r.0));
                }
            }
        }
    }
}

/// A quote mark reads the datum after it as `(quote datum)`; `()` reads as
/// the empty list; reading fails at the end of the tokens, at a `)` that
/// closes nothing, and at a `(` that is never closed.
pub proof fn law_reader_forms(ts: Seq<SToken>)
    ensures
        parse_at(seq![SToken::Quote] + ts, 0) == match parse_at(ts, 0) {
            Ok(r) => Ok::<(SValue, nat), SError>((SValue::List(seq![SValue::Symbol("quote"@), r.0]), r.1 + 1)),
            Err(e) => Err(e),
        },
        parse_at(seq![SToken::LParen, SToken::RParen] + ts, 0) == Ok::<(SValue, nat), SError>((SValue::Nil, 2nat)),
        parse_at(seq![], 0) == Err::<(SValue, nat), SError>(SError::UnexpectedEnd),
        parse_at(seq![SToken::RParen] + ts, 0) == Err::<(SValue, nat), SError>(SError::UnexpectedRParen),
        parse_at(seq![SToken::LParen], 0) == Err::<(SValue, nat), SError>(SError::MissingRParen),
{
    let q = seq![SToken::Quote];
    assert((q + ts)[0] == SToken::Quote);
    lemma_parse_shift(q, ts, 0);
    let e = seq![SToken::LParen, SToken::RParen] + ts;
    assert(e[0] == SToken::LParen && e[1] == SToken::RParen);
    assert((seq![SToken::RParen] + ts)[0] == SToken::RParen);
    assert(parse_items(e, 1, seq![]) == Ok::<(SValue, nat), SError>((SValue::Nil, 2nat)));
    let l = seq![SToken::LParen];
    assert(l[0] == SToken::LParen);
    assert(parse_items(l, 1, seq![]) == Err::<(SValue, nat), SError>(SError::MissingRParen));
}

fn token_is_rparen(t: &Token) -> (r: bool)
    ensures
        r == (t@ == SToken::RParen),
{
    match t {
        Token::RParen => true,
        _ => false,
    }
}

/// Reads the datum that starts at token `i`; returns it and the index after it.
pub fn parse_at_exec(tokens: &[Token], i: usize) -> (r: Result<(Value, usize), Error>)
    requires
        i <= tokens@.len(),
    ensures
        match r {
            Ok((v, k)) => parse_at(token_views(tokens@), i as nat) == Ok::<(SValue, nat), SError>((v@, k as nat)),
            Err(e) => parse_at(token_views(tokens@), i as nat) == Err::<(SValue, nat), SError>(e@),
        },
    decreases tokens@.len() - i,
{
    broadcast use group_value_views;
    let ghost ts = token_views(tokens@);
    if i >= tokens.len() {
        return Err(Error::UnexpectedEnd);
    }
    assert(ts[i as int] == tokens@[i as int]@);
    match &tokens[i] {
        Token::LParen => {
            let mut list: Vec<Value> = Vec::new();
            let mut j = i + 1;
            assert(views(list@) =~= seq![]);
            assert(ts[i as int] == tokens@[i as int]@);
            loop
                invariant
                    ts == token_views(tokens@),
                    i < j <= tokens@.len(),
                    parse_at(ts, i as nat) == parse_items(ts, j as nat, views(list@)),
                decreases tokens@.len() - j,
            {
                if j >= tokens.len() {
                    return Err(Error::MissingRParen);
                }
                assert(ts[j as int] == tokens@[j as int]@);
                if token_is_rparen(&tokens[j]) {
                    if list.len() == 0 {
                        return Ok((Value::Nil, j + 1));
                    } else {
                        let ghost acc = views(list@);
                        assert(acc.len() != 0);
                        assert(parse_items(ts, j as nat, acc) == Ok::<(SValue, nat), SError>((SValue::List(acc), (j + 1) as nat)));
                        proof {
                            crate::value::lemma_list_view(list);
                        }
                        let lv = Value::List(list);
                        assert(lv@ == SValue::List(acc));
                        return Ok((lv, j + 1));
                    }
                }
                match parse_at_exec(tokens, j) {
                    Err(e) => {
                        return Err(e);
                    },
                    Ok((v, k)) => {
                        proof {
                            lemma_parse_progress(ts, j as nat);
                        }
                        let ghost before = views(list@);
                        list.push(v);
                        assert(views(list@) =~= before.push(v@));
                        j = k;
                    },
                }
            }
        },
        Token::RParen => Err(Error::UnexpectedRParen),
        Token::Quote => {
            match parse_at_exec(tokens, i + 1) {
                Err(e) => Err(e),
                Ok((v, k)) => {
                    let q = Value::Symbol(string_from_str("quote"));
                    let items = vec![q, v];
                    proof {
                        assert(views(items@) =~= seq![SValue::Symbol("quote"@), v@]);
                    }
                    Ok((Value::List(items), k))
                },
            }
        },
        Token::Number(n) => Ok((Value::Number(n.copy()), i + 1)),
        Token::Str(s) => Ok((Value::Str(s.clone()), i + 1)),
        Token::Bool(b) => Ok((Value::Bool(*b), i + 1)),
        Token::Symbol(s) => Ok((Value::Symbol(s.clone()), i + 1)),
    }
}

/// Reads one datum from the front of `tokens`; returns it and the tokens
/// that follow it.
pub fn parse(tokens: &[Token]) -> (r: Result<(Value, &[Token]), Error>)
    ensures
        match r {
            Ok((v, rest)) => {
                &&& rest@.len() < tokens@.len()
                &&& parse_at(token_views(tokens@), 0) == Ok::<(SValue, nat), SError>((v@, (tokens@.len() - rest@.len()) as nat))
                &&& rest@ == tokens@.subrange(tokens@.len() - rest@.len(), tokens@.len() as int)
            },
            Err(e) => parse_at(token_views(tokens@), 0) == Err::<(SValue, nat), SError>(e@),
        },
{
    match parse_at_exec(tokens, 0) {
        Err(e) => Err(e),
        Ok((v, k)) => {
            proof {
                lemma_parse_progress(token_views(tokens@), 0);
            }
            let rest = &tokens[k..tokens.len()];
            Ok((v, rest))
        },
    }
}

/// Reads all the data of `tokens`, in order.
pub fn parse_all(tokens: &[Token]) -> (r: Result<Vec<Value>, Error>)
    ensures
        match r {
            Ok(vs) => parse_all_from(token_views(tokens@), 0, seq![]) == Ok::<Seq<SValue>, SError>(views(vs@)),
            Err(e) => parse_all_from(token_views(tokens@), 0, seq![]) == Err::<Seq<SValue>, SError>(e@),
        },
{
    let ghost ts = token_views(tokens@);
    let mut results: Vec<Value> = Vec::new();
    let mut i: usize = 0;
    assert(views(results@) =~= seq![]);
    while i < tokens.len()
        invariant
            ts == token_views(tokens@),
            i <= tokens@.len(),
            parse_all_from(ts, 0, seq![]) == parse_all_from(ts, i as nat, views(results@)),
        decreases tokens@.len() - i,
    {
        match parse_at_exec(tokens, i) {
            Err(e) => {
                return Err(e);
            },
            Ok((v, k)) => {
                proof {
                    lemma_parse_progress(ts, i as nat);
                }
                let ghost before = views(results@);
                results.push(v);
                assert(views(results@) =~= before.push(v@));
                i = k;
            },
        }
    }
    Ok(results)
}

} // verus!

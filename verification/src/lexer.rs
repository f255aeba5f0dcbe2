//! The lexer: from source text to tokens.

use vstd::prelude::*;
use crate::error::{Error, SError};
use crate::number::{Number, SNum, normalize, pow10};
use crate::bignat::{big_add, digits_ok, dval, from_u64, shift};
use crate::text::{chars_of, char_is_whitespace, is_ascii_digit, is_digit_spec, is_whitespace_spec, string_of};
use crate::value::{SToken, Token, token_views};

verus! {

// ---------------------------------------------------------------- model

/// The characters that may continue a run.
#[derive(Clone, Copy)]
pub enum CharClass {
    /// Digits, `.` and `-`: the characters of a numeral.
    Numeric,
    /// Anything but whitespace, parentheses, `"` and `;`: the characters of a symbol.
    Symbolic,
}

/// Whether `c` belongs to the class `cls`.
pub open spec fn in_class(cls: CharClass, c: char) -> bool {
    match cls {
        CharClass::Numeric => is_digit_spec(c) || c == '.' || c == '-',
        CharClass::Symbolic => !is_whitespace_spec(c) && c != '(' && c != ')' && c != '"' && c != ';',
    }
}

/// The end of the longest run of characters of class `cls` starting at `i`.
pub open spec fn run_end(s: Seq<char>, i: nat, cls: CharClass) -> nat
    decreases s.len() - i,
{
    if i < s.len() && in_class(cls, s[i as int]) {
        run_end(s, i + 1, cls)
    } else {
        i
    }
}

/// The index of the first newline at or after `i`, or the length of `s`.
pub open spec fn comment_end(s: Seq<char>, i: nat) -> nat
    decreases s.len() - i,
{
    if i >= s.len() {
        i
    } else if s[i as int] == '\n' {
        i
    } else {
        comment_end(s, i + 1)
    }
}

/// The characters that the escape sequence `\c` stands for.
pub open spec fn escape_text(c: char) -> Seq<char> {
    if c == 'n' {
        seq!['\n']
    } else if c == 't' {
        seq!['\t']
    } else if c == '\\' {
        seq!['\\']
    } else if c == '"' {
        seq!['"']
    } else {
        seq!['\\', c]
    }
}

/// The contents of a string literal whose body starts at `j` (after the
/// opening quote), with `acc` already read, and the index after its closing quote.
pub open spec fn scan_string(s: Seq<char>, j: nat, acc: Seq<char>) -> Result<(Seq<char>, nat), SError>
    decreases s.len() - j,
{
    if j >= s.len() {
        Err(SError::UnterminatedString)
    } else if s[j as int] == '\\' {
        if j + 1 >= s.len() {
            Err(SError::UnexpectedEndOfString)
        } else {
            scan_string(s, j + 2, acc + escape_text(s[j + 1int]))
        }
    } else if s[j as int] == '"' {
        Ok((acc, j + 1))
    } else {
        scan_string(s, j + 1, acc.push(s[j as int]))
    }
}

/// `t` without a leading minus sign.
pub open spec fn unsigned_part(t: Seq<char>) -> Seq<char> {
    if t.len() > 0 && t[0] == '-' { t.drop_first() } else { t }
}

/// The value of the digit `c`.
pub open spec fn digit_value(c: char) -> nat {
    (c as int - '0' as int) as nat
}

/// Whether `b` holds a `.`.
pub open spec fn has_dot(b: Seq<char>) -> bool {
    exists|i: int| 0 <= i < b.len() && b[i] == '.'
}

/// A numeral: an optional `-`, then a digit, then digits with at most one `.`.
pub open spec fn numeral_ok(t: Seq<char>) -> bool {
    let b = unsigned_part(t);
    &&& b.len() > 0
    &&& is_digit_spec(b[0])
    &&& forall|i: int| 0 <= i < b.len() ==> is_digit_spec(#[trigger] b[i]) || b[i] == '.'
    &&& forall|i: int, j: int| 0 <= i < b.len() && 0 <= j < b.len() && b[i] == '.' && b[j] == '.' ==> i == j
}

/// The integer spelled by the digits of `b`, ignoring a `.`.
pub open spec fn digits_value(b: Seq<char>) -> nat
    decreases b.len(),
{
    if b.len() == 0 {
        0
    } else if b.last() == '.' {
        digits_value(b.drop_last())
    } else {
        digits_value(b.drop_last()) * 10 + digit_value(b.last())
    }
}

/// The number of digits after the `.` of `b` (zero without one).
pub open spec fn frac_len(b: Seq<char>) -> nat
    decreases b.len(),
{
    if b.len() == 0 || b.last() == '.' {
        0
    } else if has_dot(b.drop_last()) {
        frac_len(b.drop_last()) + 1
    } else {
        0
    }
}

/// The number a numeral stands for, or why it stands for none.
pub open spec fn numeral_value(t: Seq<char>) -> Result<SNum, SError> {
    let b = unsigned_part(t);
    if !numeral_ok(t) {
        Err(SError::InvalidNumber(t))
    } else {
        let m = digits_value(b) as int;
        Ok(normalize(if t[0] == '-' { -m } else { m }, pow10(frac_len(b)) as int))
    }
}

/// `t` in front of the tokens of `r`.
pub open spec fn cons_token(t: SToken, r: Result<Seq<SToken>, SError>) -> Result<Seq<SToken>, SError> {
    match r {
        Ok(ts) => Ok(seq![t] + ts),
        Err(e) => Err(e),
    }
}

/// The tokens of `s` from index `i` on.
pub open spec fn lex_from(s: Seq<char>, i: nat) -> Result<Seq<SToken>, SError>
    decreases s.len() - i,
{
    if i >= s.len() {
        Ok(seq![])
    } else {
        let c = s[i as int];
        if c == ' ' || c == '\t' || c == '\n' || c == '\r' {
            lex_from(s, i + 1)
        } else if c == ';' {
            proof {
                lemma_comment_end(s, i + 1);
            }
            lex_from(s, comment_end(s, i + 1))
        } else if c == '(' {
            cons_token(SToken::LParen, lex_from(s, i + 1))
        } else if c == ')' {
            cons_token(SToken::RParen, lex_from(s, i + 1))
        } else if c == '\'' {
            cons_token(SToken::Quote, lex_from(s, i + 1))
        } else if c == '"' {
            match scan_string(s, i + 1, seq![]) {
                Err(e) => Err(e),
                Ok(r) => {
                    proof {
                        lemma_scan_string(s, i + 1, seq![]);
                    }
                    cons_token(SToken::Str(r.0), lex_from(s, r.1))
                },
            }
        } else if c == '#' {
            if i + 1 < s.len() && s[i + 1int] == 't' {
                cons_token(SToken::Bool(true), lex_from(s, i + 2))
            } else if i + 1 < s.len() && s[i + 1int] == 'f' {
                cons_token(SToken::Bool(false), lex_from(s, i + 2))
            } else {
                Err(SError::ExpectedBoolean)
            }
        } else if is_digit_spec(c) || (c == '-' && i + 1 < s.len() && is_digit_spec(s[i + 1int])) {
            proof {
                lemma_run_end(s, i, CharClass::Numeric);
            }
            let j = run_end(s, i, CharClass::Numeric);
            match numeral_value(s.subrange(i as int, j as int)) {
                Err(e) => Err(e),
                Ok(n) => cons_token(SToken::Number(n), lex_from(s, j)),
            }
        } else {
            proof {
                lemma_run_end(s, i, CharClass::Symbolic);
            }
            let j = run_end(s, i, CharClass::Symbolic);
            if j == i {
                Err(SError::UnexpectedWhitespace)
            } else {
                cons_token(SToken::Symbol(s.subrange(i as int, j as int)), lex_from(s, j))
            }
        }
    }
}

/// `p` in front of the tokens of `r`.
pub open spec fn with_prefix(p: Seq<SToken>, r: Result<Seq<SToken>, SError>) -> Result<Seq<SToken>, SError> {
    match r {
        Ok(ts) => Ok(p + ts),
        Err(e) => Err(e),
    }
}

proof fn lemma_with_prefix(p: Seq<SToken>, t: SToken, r: Result<Seq<SToken>, SError>)
    ensures
        with_prefix(p, cons_token(t, r)) == with_prefix(p.push(t), r),
{
    if let Ok(ts) = r {
        assert(p + (seq![t] + ts) =~= p.push(t) + ts);
    }
}

/// The tokens of `s`.
pub open spec fn lex(s: Seq<char>) -> Result<Seq<SToken>, SError> {
    lex_from(s, 0)
}

// ---------------------------------------------------------------- lemmas

pub proof fn lemma_comment_end(s: Seq<char>, i: nat)
    ensures
        i <= comment_end(s, i),
        i <= s.len() ==> comment_end(s, i) <= s.len(),
    decreases s.len() - i,
{
    if i < s.len() && s[i as int] != '\n' {
        lemma_comment_end(s, i + 1);
    }
}

pub proof fn lemma_run_end(s: Seq<char>, i: nat, cls: CharClass)
    ensures
        i <= run_end(s, i, cls),
        i <= s.len() ==> run_end(s, i, cls) <= s.len(),
        forall|k: int| i <= k < run_end(s, i, cls) ==> in_class(cls, #[trigger] s[k]),
        run_end(s, i, cls) < s.len() ==> !in_class(cls, s[run_end(s, i, cls) as int]),
    decreases s.len() - i,
{
    if i < s.len() && in_class(cls, s[i as int]) {
        lemma_run_end(s, i + 1, cls);
    }
}

pub proof fn lemma_scan_string(s: Seq<char>, j: nat, acc: Seq<char>)
    ensures
        scan_string(s, j, acc) matches Ok(r) ==> j < r.1 <= s.len(),
    decreases s.len() - j,
{
    if j < s.len() {
        if s[j as int] == '\\' {
            if j + 1 < s.len() {
                lemma_scan_string(s, j + 2, acc + escape_text(s[j + 1int]));
            }
        } else if s[j as int] != '"' {
            lemma_scan_string(s, j + 1, acc.push(s[j as int]));
        }
    }
}

// ---------------------------------------------------------------- exec

/// The index just past the longest run of characters of class `cls` that
/// starts at `start`, and the text of that run.
pub fn read_while(chars: &[char], start: usize, cls: CharClass) -> (r: (String, usize))
    requires
        start <= chars@.len(),
    ensures
        r.1 == run_end(chars@, start as nat, cls),
        r.0@ == chars@.subrange(start as int, r.1 as int),
{
    let mut i = start;
    while i < chars.len() && char_in_class(cls, chars[i])
        invariant
            start <= i <= chars@.len(),
            run_end(chars@, start as nat, cls) == run_end(chars@, i as nat, cls),
        decreases chars@.len() - i,
    {
        i = i + 1;
    }
    let text = string_of(&chars[start..i]);
    (text, i)
}

fn char_in_class(cls: CharClass, c: char) -> (r: bool)
    ensures
        r == in_class(cls, c),
{
    match cls {
        CharClass::Numeric => is_ascii_digit(c) || c == '.' || c == '-',
        CharClass::Symbolic => !char_is_whitespace(c) && c != '(' && c != ')' && c != '"' && c != ';',
    }
}

/// Whether the character after the one at `pos` is an ASCII digit.
pub fn is_digit_ahead(chars: &[char], pos: usize) -> (r: bool)
    ensures
        r == (pos + 1 < chars@.len() && is_digit_spec(chars@[pos + 1])),
{
    if pos < chars.len() && pos + 1 < chars.len() {
        is_ascii_digit(chars[pos + 1])
    } else {
        false
    }
}

/// Reads a string literal whose body starts at `j`; returns its contents and
/// the index after the closing quote.
fn read_string(chars: &[char], j: usize) -> (r: Result<(String, usize), Error>)
    requires
        j <= chars@.len(),
    ensures
        match r {
            Ok((text, k)) => scan_string(chars@, j as nat, seq![]) == Ok::<(Seq<char>, nat), SError>((text@, k as nat)),
            Err(e) => scan_string(chars@, j as nat, seq![]) == Err::<(Seq<char>, nat), SError>(e@),
        },
{
    let ghost s = chars@;
    let mut acc: Vec<char> = Vec::new();
    let mut i = j;
    loop
        invariant
            j <= i <= s.len(),
            s == chars@,
            scan_string(s, j as nat, seq![]) == scan_string(s, i as nat, acc@),
        decreases s.len() - i,
    {
        if i >= chars.len() {
            return Err(Error::UnterminatedString);
        }
        let c = chars[i];
        if c == '\\' {
            if i + 1 >= chars.len() {
                return Err(Error::UnexpectedEndOfString);
            }
            let e = chars[i + 1];
            let ghost before = acc@;
            if e == 'n' {
                acc.push('\n');
            } else if e == 't' {
                acc.push('\t');
            } else if e == '\\' {
                acc.push('\\');
            } else if e == '"' {
                acc.push('"');
            } else {
                acc.push('\\');
                acc.push(e);
            }
            assert(acc@ =~= before + escape_text(e));
            i = i + 2;
        } else if c == '"' {
            let text = string_of(acc.as_slice());
            return Ok((text, i + 1));
        } else {
            acc.push(c);
            i = i + 1;
        }
    }
}

/// The number spelled by a numeral, or the error the lexer reports for it.
pub fn parse_numeral(text: &[char]) -> (r: Result<Number, Error>)
    ensures
        match r {
            Ok(n) => numeral_value(text@) == Ok::<SNum, SError>(n@),
            Err(e) => numeral_value(text@) == Err::<SNum, SError>(e@),
        },
{
    let ghost t = text@;
    let neg = text.len() > 0 && text[0] == '-';
    let first: usize = if neg { 1 } else { 0 };
    let ghost b = unsigned_part(t);
    assert(b =~= t.subrange(first as int, t.len() as int));
    // Validity: a digit first, then digits and at most one dot.
    let mut ok = first < text.len() && is_ascii_digit(text[first]);
    let mut dots: usize = 0;
    let mut i = first;
    while i < text.len()
        invariant
            first <= i <= t.len(),
            t == text@,
            b == t.subrange(first as int, t.len() as int),
            b == unsigned_part(t),
            dots <= i - first,
            ok ==> first < t.len() && is_digit_spec(b[0]),
            ok ==> forall|k: int| 0 <= k < i - first ==> is_digit_spec(#[trigger] b[k]) || b[k] == '.',
            ok ==> (dots == 0 ==> forall|k: int| 0 <= k < i - first ==> b[k] != '.'),
            ok ==> (dots == 1 ==> exists|k: int| 0 <= k < i - first && b[k] == '.' && forall|m: int| 0 <= m < i - first && m != k ==> b[m] != '.'),
            ok ==> dots <= 1,
            !ok ==> !numeral_ok(t),
        decreases t.len() - i,
    {
        let c = text[i];
        if ok {
            if c == '.' {
                if dots == 1 {
                    proof {
                        let k = choose|k: int| 0 <= k < i - first && b[k] == '.' && forall|m: int| 0 <= m < i - first && m != k ==> b[m] != '.';
                        let w = (i - first) as int;
                        assert(b[w] == '.');
                        assert(k != w);
                        assert(!numeral_ok(t));
                    }
                    ok = false;
                } else {
                    proof {
                        let k = (i - first) as int;
                        assert(b[k] == '.');
                    }
                    dots = 1;
                }
            } else if !is_ascii_digit(c) {
                proof {
                    let w = (i - first) as int;
                    assert(b[w] == c);
                    assert(!(is_digit_spec(b[w]) || b[w] == '.'));
                    assert(!numeral_ok(t));
                }
                ok = false;
            }
        }
        i = i + 1;
    }
    if !ok {
        if !(first < text.len() && is_ascii_digit(text[first])) {
            assert(!numeral_ok(t));
        }
        let s = string_of(text);
        return Err(Error::InvalidNumber(s));
    }
    assert(numeral_ok(t));
    // Value: the digits as an integer, and the places after the dot.
    let mut m: Vec<u8> = Vec::new();
    let mut k: usize = 0;
    let mut seen_dot = false;
    let mut j = first;
    assert(b.take(0) =~= Seq::<char>::empty());
    assert(dval(m@) == 0);
    while j < text.len()
        invariant
            first <= j <= t.len(),
            t == text@,
            b == t.subrange(first as int, t.len() as int),
            b == unsigned_part(t),
            numeral_ok(t),
            !seen_dot ==> k == 0,
            digits_ok(m@),
            dval(m@) == digits_value(b.take(j - first)),
            k as nat == frac_len(b.take(j - first)),
            k <= j - first,
            seen_dot == has_dot(b.take(j - first)),
        decreases t.len() - j,
    {
        let c = text[j];
        let ghost p = b.take(j - first);
        let ghost q = b.take(j + 1 - first);
        assert(q.drop_last() =~= p);
        assert(q.last() == c);
        if c == '.' {
            seen_dot = true;
            assert(has_dot(q)) by {
                assert(q[q.len() - 1] == '.');
            }
        } else {
            assert(is_digit_spec(b[(j - first) as int]));
            assert(has_dot(q) == has_dot(p)) by {
                if has_dot(q) {
                    let w = choose|w: int| 0 <= w < q.len() && q[w] == '.';
                    assert(w < q.len() - 1);
                    assert(p[w] == '.');
                }
                if has_dot(p) {
                    let w = choose|w: int| 0 <= w < p.len() && p[w] == '.';
                    assert(q[w] == '.');
                }
            }
            if seen_dot {
                k = k + 1;
            }
            let d = (c as u32 - '0' as u32) as u64;
            let m10 = shift(&m, 1);
            let dd = from_u64(d);
            m = big_add(&m10, &dd);
            proof {
                reveal_with_fuel(pow10, 2);
                assert(pow10(1) == 10);
            }
        }
        j = j + 1;
    }
    assert(b.take(t.len() - first) =~= b);
    proof {
        assert(t[0] == '-' <==> neg);
    }
    Ok(Number::from_decimal_digits(neg, m, k))
}


/// The tokens of `input`, or the first lexical error.
pub fn tokenize(input: &str) -> (r: Result<Vec<Token>, Error>)
    ensures
        match r {
            Ok(ts) => lex(input@) == Ok::<Seq<SToken>, SError>(token_views(ts@)),
            Err(e) => lex(input@) == Err::<Seq<SToken>, SError>(e@),
        },
{
    let chars = chars_of(input);
    let ghost s = chars@;
    let mut tokens: Vec<Token> = Vec::new();
    let mut i: usize = 0;
    while i < chars.len()
        invariant
            s == chars@,
            s == input@,
            i <= s.len(),
            lex(s) == with_prefix(token_views(tokens@), lex_from(s, i as nat)),
        decreases s.len() - i,
    {
        let ghost before = token_views(tokens@);
        let c = chars[i];
        if c == ' ' || c == '\t' || c == '\n' || c == '\r' {
            i = i + 1;
        } else if c == ';' {
            let mut j = i + 1;
            proof {
                lemma_comment_end(s, (i + 1) as nat);
            }
            while j < chars.len() && chars[j] != '\n'
                invariant
                    i < j <= s.len(),
                    s == chars@,
                    comment_end(s, (i + 1) as nat) == comment_end(s, j as nat),
                decreases s.len() - j,
            {
                j = j + 1;
            }
            i = j;
        } else if c == '(' || c == ')' || c == '\'' {
            let t = if c == '(' { Token::LParen } else if c == ')' { Token::RParen } else { Token::Quote };
            tokens.push(t);
            proof {
                assert(token_views(tokens@) =~= before.push(t@));
                assert(lex_from(s, i as nat) == cons_token(t@, lex_from(s, (i + 1) as nat)));
                lemma_with_prefix(before, t@, lex_from(s, (i + 1) as nat));
            }
            i = i + 1;
        } else if c == '"' {
            match read_string(chars.as_slice(), i + 1) {
                Err(e) => {
                    return Err(e);
                },
                Ok((text, k)) => {
                    proof {
                        lemma_scan_string(s, (i + 1) as nat, seq![]);
                    }
                    let t = Token::Str(text);
                    tokens.push(t);
                    proof {
                        assert(token_views(tokens@) =~= before.push(t@));
                        assert(lex_from(s, i as nat) == cons_token(t@, lex_from(s, k as nat)));
                        lemma_with_prefix(before, t@, lex_from(s, k as nat));
                    }
                    i = k;
                },
            }
        } else if c == '#' {
            if i + 1 < chars.len() && chars[i + 1] == 't' {
                tokens.push(Token::Bool(true));
                proof {
                    assert(token_views(tokens@) =~= before.push(SToken::Bool(true)));
                    assert(lex_from(s, i as nat) == cons_token(SToken::Bool(true), lex_from(s, (i + 2) as nat)));
                    lemma_with_prefix(before, SToken::Bool(true), lex_from(s, (i + 2) as nat));
                }
                i = i + 2;
            } else if i + 1 < chars.len() && chars[i + 1] == 'f' {
                tokens.push(Token::Bool(false));
                proof {
                    assert(token_views(tokens@) =~= before.push(SToken::Bool(false)));
                    assert(lex_from(s, i as nat) == cons_token(SToken::Bool(false), lex_from(s, (i + 2) as nat)));
                    lemma_with_prefix(before, SToken::Bool(false), lex_from(s, (i + 2) as nat));
                }
                i = i + 2;
            } else {
                return Err(Error::ExpectedBoolean);
            }
        } else if is_ascii_digit(c) || (c == '-' && is_digit_ahead(chars.as_slice(), i)) {
            let (_text, j) = read_while(chars.as_slice(), i, CharClass::Numeric);
            proof {
                lemma_run_end(s, i as nat, CharClass::Numeric);
            }
            match parse_numeral(&chars[i..j]) {
                Err(e) => {
                    return Err(e);
                },
                Ok(n) => {
                    tokens.push(Token::Number(n));
                    proof {
                        assert(token_views(tokens@) =~= before.push(SToken::Number(n@)));
                        assert(chars@.subrange(i as int, j as int) == s.subrange(i as int, j as int));
                        assert(lex_from(s, i as nat) == cons_token(SToken::Number(n@), lex_from(s, j as nat)));
                        lemma_with_prefix(before, SToken::Number(n@), lex_from(s, j as nat));
                    }
                    i = j;
                },
            }
        } else {
            let (text, j) = read_while(chars.as_slice(), i, CharClass::Symbolic);
            proof {
                lemma_run_end(s, i as nat, CharClass::Symbolic);
            }
            if j == i {
                return Err(Error::UnexpectedWhitespace);
            }
            let t = Token::Symbol(text);
            tokens.push(t);
            proof {
                assert(token_views(tokens@) =~= before.push(t@));
                assert(lex_from(s, i as nat) == cons_token(t@, lex_from(s, j as nat)));
                lemma_with_prefix(before, t@, lex_from(s, j as nat));
            }
            i = j;
        }
    }
    assert(token_views(tokens@) + seq![] =~= token_views(tokens@));
    Ok(tokens)
}

} // verus!

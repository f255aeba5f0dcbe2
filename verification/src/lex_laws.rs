//! Laws of the lexer: what follows a position alone decides how the text
//! from there is read; comments run to the end of their line; whitespace
//! separates and vanishes; string literals and their escapes; the quote mark;
//! `#` must begin a boolean; a lone `-` is a symbol.

use vstd::prelude::*;
use crate::error::SError;
use crate::lexer::{CharClass, comment_end, cons_token, lex, lex_from, run_end, scan_string, lemma_comment_end, lemma_run_end};
use crate::value::SToken;

verus! {

proof fn lemma_run_end_shift(p: Seq<char>, b: Seq<char>, j: nat, cls: CharClass)
    requires
        j <= b.len(),
    ensures
        run_end(p + b, p.len() + j, cls) == p.len() + run_end(b, j, cls),
    decreases b.len() - j,
{
    if j < b.len() {
        assert((p + b)[(p.len() + j) as int] == b[j as int]);
        lemma_run_end_shift(p, b, j + 1, cls);
    }
}

proof fn lemma_comment_end_shift(p: Seq<char>, b: Seq<char>, j: nat)
    requires
        j <= b.len(),
    ensures
        comment_end(p + b, p.len() + j) == p.len() + comment_end(b, j),
    decreases b.len() - j,
{
    if j < b.len() {
        assert((p + b)[(p.len() + j) as int] == b[j as int]);
        lemma_comment_end_shift(p, b, j + 1);
    }
}

proof fn lemma_scan_string_shift(p: Seq<char>, b: Seq<char>, j: nat, acc: Seq<char>)
    requires
        j <= b.len(),
    ensures
        scan_string(p + b, p.len() + j, acc) == match scan_string(b, j, acc) {
            Ok(r) => Ok::<(Seq<char>, nat), SError>((r.0, p.len() + r.1)),
            Err(e) => Err(e),
        },
    decreases b.len() - j,
{
    let s = p + b;
    if j < b.len() {
        assert(s[(p.len() + j) as int] == b[j as int]);
        if b[j as int] == '\\' {
            if j + 1 < b.len() {
                assert(s[(p.len() + j + 1) as int] == b[(j + 1) as int]);
                lemma_scan_string_shift(p, b, j + 2, acc + crate::lexer::escape_text(b[(j + 1) as int]));
            }
        } else if b[j as int] != '"' {
            lemma_scan_string_shift(p, b, j + 1, acc.push(b[j as int]));
        }
    }
}

/// How the text is read from a position depends only on the text from there on.
pub proof fn lemma_lex_shift(p: Seq<char>, b: Seq<char>, j: nat)
    requires
        j <= b.len(),
    ensures
        lex_from(p + b, p.len() + j) == lex_from(b, j),
    decreases b.len() - j,
{
    let s = p + b;
    let i = p.len() + j;
    if j < b.len() {
        let c = b[j as int];
        assert(s[i as int] == c);
        if j + 1 < b.len() {
            assert(s[(i + 1) as int] == b[(j + 1) as int]);
        }
        if c == ' ' || c == '\t' || c == '\n' || c == '\r' {
            lemma_lex_shift(p, b, j + 1);
        } else if c == ';' {
            lemma_comment_end_shift(p, b, j + 1);
            lemma_comment_end(b, j + 1);
            lemma_lex_shift(p, b, comment_end(b, j + 1));
        } else if c == '(' || c == ')' || c == '\'' {
            lemma_lex_shift(p, b, j + 1);
        } else if c == '"' {
            lemma_scan_string_shift(p, b, j + 1, seq![]);
            crate::lexer::lemma_scan_string(b, j + 1, seq![]);
            if let Ok(r) = scan_string(b, j + 1, seq![]) {
                lemma_lex_shift(p, b, r.1);
            }
        } else if c == '#' {
            if j + 2 <= b.len() {
                lemma_lex_shift(p, b, j + 2);
            }
        } else if crate::text::is_digit_spec(c) || (c == '-' && j + 1 < b.len() && crate::text::is_digit_spec(b[(j + 1) as int])) {
            lemma_run_end_shift(p, b, j, CharClass::Numeric);
            lemma_run_end(b, j, CharClass::Numeric);
            let k = run_end(b, j, CharClass::Numeric);
            assert(s.subrange(i as int, (p.len() + k) as int) =~= b.subrange(j as int, k as int));
            lemma_lex_shift(p, b, k);
        } else {
            lemma_run_end_shift(p, b, j, CharClass::Symbolic);
            lemma_run_end(b, j, CharClass::Symbolic);
            let k = run_end(b, j, CharClass::Symbolic);
            assert(s.subrange(i as int, (p.len() + k) as int) =~= b.subrange(j as int, k as int));
            if k > j {
                lemma_lex_shift(p, b, k);
            }
        }
    }
}

proof fn lemma_comment_runs(s: Seq<char>, i: nat, m: nat)
    requires
        i <= m <= s.len(),
        forall|k: int| i <= k < m ==> s[k] != '\n',
        m < s.len() ==> s[m as int] == '\n',
    ensures
        comment_end(s, i) == m,
    decreases m - i,
{
    if i < m {
        lemma_comment_runs(s, i + 1, m);
    }
}

/// A comment runs from `;` to the end of its line: the text after the line
/// break reads as if the comment and the line break were not there, and a
/// comment at the end of the text gives no tokens.
pub proof fn law_comment(c: Seq<char>, b: Seq<char>)
    requires
        forall|k: int| 0 <= k < c.len() ==> c[k] != '\n',
    ensures
        lex(seq![';'] + c + seq!['\n'] + b) == lex(b),
        lex(seq![';'] + c) == Ok::<Seq<SToken>, SError>(seq![]),
{
    let p = seq![';'] + c + seq!['\n'];
    let s = p + b;
    assert(s[0] == ';');
    assert forall|k: int| 1 <= k < c.len() + 1 implies s[k] != '\n' by {
        assert(s[k] == c[k - 1]);
    }
    assert(s[c.len() as int + 1] == '\n');
    lemma_comment_runs(s, 1, c.len() + 1);
    lemma_lex_shift(p, b, 0);
    assert(lex_from(s, (c.len() + 1) as nat) == lex_from(s, (c.len() + 2) as nat));
    let t = seq![';'] + c;
    assert(t[0] == ';');
    assert forall|k: int| 1 <= k < t.len() implies t[k] != '\n' by {
        assert(t[k] == c[k - 1]);
    }
    lemma_comment_runs(t, 1, t.len());
    assert(lex_from(t, t.len()) == Ok::<Seq<SToken>, SError>(seq![]));
    assert(lex_from(t, 0) == lex_from(t, comment_end(t, 1)));
}

/// Whitespace (space, tab, line feed, carriage return) before the text is
/// skipped: it separates tokens and gives none.
pub proof fn law_whitespace(w: Seq<char>, b: Seq<char>)
    requires
        forall|k: int| 0 <= k < w.len() ==> (w[k] == ' ' || w[k] == '\t' || w[k] == '\n' || w[k] == '\r'),
    ensures
        lex(w + b) == lex(b),
{
    lemma_skip_whitespace(w, b, 0);
    lemma_lex_shift(w, b, 0);
}

proof fn lemma_skip_whitespace(w: Seq<char>, b: Seq<char>, i: nat)
    requires
        i <= w.len(),
        forall|k: int| 0 <= k < w.len() ==> (w[k] == ' ' || w[k] == '\t' || w[k] == '\n' || w[k] == '\r'),
    ensures
        lex_from(w + b, i) == lex_from(w + b, w.len()),
    decreases w.len() - i,
{
    if i < w.len() {
        assert((w + b)[i as int] == w[i as int]);
        lemma_skip_whitespace(w, b, i + 1);
    }
}

proof fn lemma_plain_string(s: Seq<char>, x: Seq<char>, j: nat, acc: Seq<char>)
    requires
        s == seq!['"'] + x + seq!['"'],
        1 <= j <= x.len() + 1,
        acc == x.subrange(0, j - 1),
        forall|k: int| 0 <= k < x.len() ==> x[k] != '"' && x[k] != '\\',
    ensures
        scan_string(s, j, acc) == Ok::<(Seq<char>, nat), SError>((x, (x.len() + 2) as nat)),
    decreases x.len() + 1 - j,
{
    if j <= x.len() {
        assert(s[j as int] == x[j - 1]);
        assert(acc.push(x[j - 1]) =~= x.subrange(0, j as int));
        lemma_plain_string(s, x, j + 1, acc.push(x[j - 1]));
    } else {
        assert(s[j as int] == '"');
        assert(acc =~= x);
    }
}

/// A string literal without `"` or `\` inside reads as a string token of
/// exactly its characters, followed by the tokens of what comes after it.
pub proof fn law_plain_string(x: Seq<char>, b: Seq<char>)
    requires
        forall|k: int| 0 <= k < x.len() ==> x[k] != '"' && x[k] != '\\',
    ensures
        lex(seq!['"'] + x + seq!['"'] + b) == cons_token(SToken::Str(x), lex(b)),
{
    let q = seq!['"'] + x + seq!['"'];
    let s = q + b;
    assert(s[0] == '"');
    assert(x.subrange(0, 0) =~= seq![]);
    lemma_plain_string(q, x, 1, seq![]);
    lemma_scan_string_shift_front(q, b, 1, seq![]);
    lemma_lex_shift(q, b, 0);
}

/// Scanning a string that closes within `a` gives the same result when more
/// text follows `a`.
proof fn lemma_scan_string_shift_front(a: Seq<char>, b: Seq<char>, j: nat, acc: Seq<char>)
    requires
        scan_string(a, j, acc) is Ok,
    ensures
        scan_string(a + b, j, acc) == scan_string(a, j, acc),
    decreases a.len() - j,
{
    let s = a + b;
    if j < a.len() {
        assert(s[j as int] == a[j as int]);
        if a[j as int] == '\\' {
            if j + 1 < a.len() {
                assert(s[(j + 1) as int] == a[(j + 1) as int]);
                lemma_scan_string_shift_front(a, b, j + 2, acc + crate::lexer::escape_text(a[(j + 1) as int]));
            }
        } else if a[j as int] != '"' {
            lemma_scan_string_shift_front(a, b, j + 1, acc.push(a[j as int]));
        }
    }
}

/// The escapes of string literals: `\n` is a line feed, `\t` a tab, `\\` a
/// backslash and `\"` a quote; a backslash before any other character stays,
/// with that character.
pub proof fn law_string_escapes(c: char)
    ensures
        lex(seq!['"', '\\', 'n', '"']) == Ok::<Seq<SToken>, SError>(seq![SToken::Str(seq!['\n'])]),
        lex(seq!['"', '\\', 't', '"']) == Ok::<Seq<SToken>, SError>(seq![SToken::Str(seq!['\t'])]),
        lex(seq!['"', '\\', '\\', '"']) == Ok::<Seq<SToken>, SError>(seq![SToken::Str(seq!['\\'])]),
        lex(seq!['"', '\\', '"', '"']) == Ok::<Seq<SToken>, SError>(seq![SToken::Str(seq!['"'])]),
        (c != 'n' && c != 't' && c != '\\' && c != '"') ==> lex(seq!['"', '\\', c, '"'])
            == Ok::<Seq<SToken>, SError>(seq![SToken::Str(seq!['\\', c])]),
{
    lemma_escape_literal('n');
    lemma_escape_literal('t');
    lemma_escape_literal('\\');
    lemma_escape_literal('"');
    lemma_escape_literal(c);
    let none: Seq<char> = seq![];
    assert(none + seq!['\n'] =~= seq!['\n']);
    assert(none + seq!['\t'] =~= seq!['\t']);
    assert(none + seq!['\\'] =~= seq!['\\']);
    assert(none + seq!['"'] =~= seq!['"']);
    assert(none + seq!['\\', c] =~= seq!['\\', c]);
}

proof fn lemma_escape_literal(c: char)
    ensures
        lex(seq!['"', '\\', c, '"'])
            == Ok::<Seq<SToken>, SError>(seq![SToken::Str(seq![] + crate::lexer::escape_text(c))]),
{
    let s = seq!['"', '\\', c, '"'];
    assert(s[0] == '"' && s[1] == '\\' && s[2] == c && s[3] == '"');
    let none: Seq<char> = seq![];
    assert(scan_string(s, 1, none) == scan_string(s, 3, none + crate::lexer::escape_text(c)));
    assert(scan_string(s, 3, none + crate::lexer::escape_text(c))
        == Ok::<(Seq<char>, nat), SError>((none + crate::lexer::escape_text(c), 4nat)));
    assert(lex_from(s, 4) == Ok::<Seq<SToken>, SError>(seq![]));
}

/// The quote mark is a token of its own: `'` followed by text reads as the
/// quote token in front of the tokens of that text.
pub proof fn law_quote_mark(b: Seq<char>)
    ensures
        lex(seq!['\''] + b) == cons_token(SToken::Quote, lex(b)),
{
    let p = seq!['\''];
    assert((p + b)[0] == '\'');
    lemma_lex_shift(p, b, 0);
}

/// `#` must begin `#t` or `#f`: before anything else, or at the end of the
/// text, it is an error.
pub proof fn law_hash(c: char, b: Seq<char>)
    requires
        c != 't',
        c != 'f',
    ensures
        lex(seq!['#', c] + b) == Err::<Seq<SToken>, SError>(SError::ExpectedBoolean),
        lex(seq!['#']) == Err::<Seq<SToken>, SError>(SError::ExpectedBoolean),
{
    let s = seq!['#', c] + b;
    assert(s[0] == '#' && s[1] == c);
    assert(seq!['#'][0] == '#');
}

/// A minus sign that is not followed by a digit reads as the symbol `-`.
pub proof fn law_lone_minus(b: Seq<char>)
    requires
        b.len() > 0 ==> (b[0] == ' ' || b[0] == '(' || b[0] == ')'),
    ensures
        lex(seq!['-'] + b) == cons_token(SToken::Symbol(seq!['-']), lex(b)),
{
    let p = seq!['-'];
    let s = p + b;
    assert(s[0] == '-');
    if b.len() > 0 {
        assert(s[1] == b[0]);
    }
    lemma_run_end(s, 0, CharClass::Symbolic);
    assert(run_end(s, 1, CharClass::Symbolic) == 1);
    assert(run_end(s, 0, CharClass::Symbolic) == 1);
    assert(s.subrange(0, 1) =~= seq!['-']);
    lemma_lex_shift(p, b, 0);
}

} // verus!

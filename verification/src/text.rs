//! Character-level helpers shared by the lexer, the printer and the REPL:
//! character classes, and conversions between `str`, `String` and `Vec<char>`.

use vstd::prelude::*;

verus! {

broadcast use vstd::string::axiom_spec_iter;

/// ASCII decimal digit.
pub open spec fn is_digit_spec(c: char) -> bool {
    '0' <= c && c <= '9'
}

/// Whether `c` is an ASCII decimal digit.
pub fn is_ascii_digit(c: char) -> (r: bool)
    ensures
        r == is_digit_spec(c),
{
    '0' <= c && c <= '9'
}

/// The characters with the Unicode `White_Space` property (Unicode PropList):
/// U+0009..U+000D, U+0020, U+0085, U+00A0, U+1680, U+2000..U+200A,
/// U+2028, U+2029, U+202F, U+205F and U+3000.
pub open spec fn is_whitespace_spec(c: char) -> bool {
    ||| ('\u{9}' <= c && c <= '\u{d}')
    ||| c == ' '
    ||| c == '\u{85}'
    ||| c == '\u{a0}'
    ||| c == '\u{1680}'
    ||| ('\u{2000}' <= c && c <= '\u{200a}')
    ||| c == '\u{2028}'
    ||| c == '\u{2029}'
    ||| c == '\u{202f}'
    ||| c == '\u{205f}'
    ||| c == '\u{3000}'
}

/// Whether `c` has the Unicode `White_Space` property (what
/// `char::is_whitespace` reports).
pub(crate) fn char_is_whitespace(c: char) -> (r: bool)
    ensures
        r == is_whitespace_spec(c),
{
    ('\u{9}' <= c && c <= '\u{d}')
        || c == ' '
        || c == '\u{85}'
        || c == '\u{a0}'
        || c == '\u{1680}'
        || ('\u{2000}' <= c && c <= '\u{200a}')
        || c == '\u{2028}'
        || c == '\u{2029}'
        || c == '\u{202f}'
        || c == '\u{205f}'
        || c == '\u{3000}'
}

/// The characters of `s`, in order.
pub fn chars_of(s: &str) -> (r: Vec<char>)
    ensures
        r@ == s@,
{
    let mut v: Vec<char> = Vec::new();
    for c in it: s.chars()
        invariant
            it.seq() == s@,
            v@ == it.seq().take(it.index()),
    {
        v.push(c);
        assert(v@ =~= it.seq().take(it.index() + 1));
    }
    assert(v@ =~= s@);
    v
}

/// Trusted: `String::push`, which std documents as "appends the given `char`
/// to the end of this `String`".
#[verifier::external_body]
fn push_char(s: &mut String, c: char)
    ensures
        final(s)@ == old(s)@.push(c),
{
    s.push(c);
}

/// A `String` holding the characters of `cs`, in order.
pub fn string_of(cs: &[char]) -> (r: String)
    ensures
        r@ == cs@,
{
    let mut out = String::new();
    let mut i: usize = 0;
    while i < cs.len()
        invariant
            i <= cs.len(),
            out@ == cs@.take(i as int),
        decreases cs.len() - i,
    {
        push_char(&mut out, cs[i]);
        i = i + 1;
        assert(out@ =~= cs@.take(i as int));
    }
    assert(cs@.take(cs.len() as int) =~= cs@);
    out
}

/// Appends the characters of `s` to `out`.
pub fn push_str(out: &mut Vec<char>, s: &str)
    ensures
        final(out)@ == old(out)@ + s@,
{
    let cs = chars_of(s);
    push_chars(out, &cs);
}

/// Appends `cs` to `out`.
pub fn push_chars(out: &mut Vec<char>, cs: &[char])
    ensures
        final(out)@ == old(out)@ + cs@,
{
    let mut i: usize = 0;
    while i < cs.len()
        invariant
            i <= cs.len(),
            out@ == old(out)@ + cs@.subrange(0, i as int),
        decreases cs.len() - i,
    {
        out.push(cs[i]);
        i = i + 1;
        assert(cs@.subrange(0, i as int) =~= cs@.subrange(0, i - 1 as int).push(cs@[i - 1]));
    }
    assert(cs@.subrange(0, cs.len() as int) =~= cs@);
}

/// A `String` holding the characters of `s`.
pub fn string_from_str(s: &str) -> (r: String)
    ensures
        r@ == s@,
{
    let cs = chars_of(s);
    string_of(cs.as_slice())
}

/// Whether the string `s` spells exactly the literal `lit`.
pub fn text_is(s: &String, lit: &str) -> (r: bool)
    ensures
        r == (s@ == lit@),
{
    let a = chars_of(s.as_str());
    let b = chars_of(lit);
    if a.len() != b.len() {
        return false;
    }
    let mut i: usize = 0;
    while i < a.len()
        invariant
            a.len() == b.len(),
            a@ == s@,
            b@ == lit@,
            i <= a.len(),
            forall|j: int| 0 <= j < i ==> a@[j] == b@[j],
        decreases a.len() - i,
    {
        if a[i] != b[i] {
            return false;
        }
        i = i + 1;
    }
    assert(a@ =~= b@);
    true
}

} // verus!

//! Printing and reading back: a number read from a numeral prints as a
//! numeral of the same number, and a datum read from text prints as text
//! that lexes to the datum's tokens and reads back as the same datum.

use vstd::prelude::*;
use vstd::arithmetic::div_mod::{
    lemma_fundamental_div_mod, lemma_fundamental_div_mod_converse, lemma_mod_multiples_basic,
};
use crate::lexer::{
    CharClass, comment_end, cons_token, digit_value, digits_value, frac_len, has_dot, in_class, lex,
    lex_from, lemma_comment_end, lemma_run_end, lemma_scan_string, numeral_ok, numeral_value, run_end,
    scan_string, unsigned_part, with_prefix,
};
use crate::reader::{parse_at, parse_items};
use crate::value::{SToken, SValue, show, show_items};
use crate::number::{
    SNum, abs, digit_char, expansion_ends, expansion_places, factor_count, frac_budget, frac_digits,
    frac_rem, gcd, int_text, lemma_digit_step, lemma_ends_divides, lemma_frac_ends, lemma_gcd_divides,
    lemma_pow10_pos, lemma_strip, nat_text, normalize, num_text, power, pow10, printed_fraction,
    strip_factor,
};
use crate::text::is_digit_spec;

verus! {

/// `x * c` modulo `y * c` is `(x % y) * c`.
proof fn lemma_mod_scale(x: nat, y: nat, c: nat)
    requires
        y > 0,
        c > 0,
    ensures
        (x * c) % (y * c) == (x % y) * c,
        (x * c) / (y * c) == x / y,
{
    lemma_fundamental_div_mod(x as int, y as int);
    let q = x / y;
    let r = x % y;
    assert(x * c == q * (y * c) + r * c) by (nonlinear_arith)
        requires
            x == y * q + r,
    ;
    assert(0 <= r * c < y * c) by (nonlinear_arith)
        requires
            0 <= r < y,
            c > 0,
    ;
    lemma_fundamental_div_mod_converse((x * c) as int, (y * c) as int, q as int, (r * c) as int);
}

/// Scaling both numbers scales their gcd.
proof fn lemma_gcd_scale(x: nat, y: nat, c: nat)
    requires
        c > 0,
    ensures
        gcd(x * c, y * c) == gcd(x, y) * c,
    decreases y,
{
    if y == 0 {
        assert(y * c == 0);
    } else {
        assert(y * c > 0) by (nonlinear_arith)
            requires
                y > 0,
                c > 0,
        ;
        lemma_mod_scale(x, y, c);
        lemma_gcd_scale(y, x % y, c);
    }
}

/// Multiplying numerator and denominator by the same positive number does not
/// change the normal form.
pub proof fn lemma_normalize_scale(num: int, den: int, c: nat)
    requires
        den > 0,
        c > 0,
    ensures
        normalize(num * c, den * c) == normalize(num, den),
{
    let a = abs(num);
    assert(abs(num * c) == a * c) by (nonlinear_arith)
        requires
            a == abs(num),
            c > 0,
    ;
    assert(num * c < 0 <==> num < 0) by (nonlinear_arith)
        requires
            c > 0,
    ;
    let g = gcd(a, den as nat);
    lemma_gcd_divides(a, den as nat);
    lemma_gcd_scale(a, den as nat, c);
    assert((den * c) as nat == (den as nat) * c);
    assert(gcd(a * c, (den as nat) * c) == g * c);
    lemma_mod_scale(a, g, c);
    lemma_mod_scale(den as nat, g, c);
    assert(g > 0);
    assert(g * c > 0) by (nonlinear_arith)
        requires
            g > 0,
            c > 0,
    ;
    assert(abs(num * c) / (g * c) == a / g);
    assert(((den * c) as nat) / (g * c) == (den as nat) / g);
    assert(gcd(abs(num * c), (den * c) as nat) == g * c);
}

// ---------------------------------------------------------------- digit strings

/// Every character of `s` is a decimal digit.
pub open spec fn all_digits(s: Seq<char>) -> bool {
    forall|i: int| 0 <= i < s.len() ==> is_digit_spec(#[trigger] s[i])
}

proof fn lemma_digit_char(d: nat)
    requires
        d < 10,
    ensures
        is_digit_spec(digit_char(d)),
        digit_value(digit_char(d)) == d,
        digit_char(d) != '.',
{
}

proof fn lemma_pow10_add(a: nat, b: nat)
    ensures
        pow10(a + b) == pow10(a) * pow10(b),
    decreases a,
{
    if a > 0 {
        let a1 = (a - 1) as nat;
        lemma_pow10_add(a1, b);
        assert((a + b - 1) as nat == a1 + b);
        assert(pow10(a + b) == 10 * pow10(a1 + b));
        assert(pow10(a) == 10 * pow10(a1));
        let x = pow10(a1);
        let y = pow10(b);
        assert(10 * (x * y) == (10 * x) * y) by (nonlinear_arith);
    } else {
        assert(pow10(0) == 1);
        assert(a + b == b);
    }
}

/// Digits appended after `p` shift its value.
proof fn lemma_digits_concat(p: Seq<char>, f: Seq<char>)
    requires
        all_digits(f),
    ensures
        digits_value(p + f) == digits_value(p) * pow10(f.len()) + digits_value(f),
    decreases f.len(),
{
    if f.len() == 0 {
        assert(p + f =~= p);
        assert(digits_value(f) == 0);
        assert(pow10(0) == 1);
        assert(digits_value(p) * 1 == digits_value(p));
    } else {
        let f1 = f.drop_last();
        assert(all_digits(f1));
        lemma_digits_concat(p, f1);
        assert((p + f).drop_last() =~= p + f1);
        assert((p + f).last() == f.last());
        assert(is_digit_spec(f.last()));
        assert(f.last() != '.');
        let x = digits_value(p);
        let y = digits_value(f1);
        let e = pow10(f1.len());
        assert(pow10(f.len()) == 10 * e);
        assert(f.drop_last() == f1);
        assert(digits_value(f) == y * 10 + digit_value(f.last()));
        assert(digits_value(p + f) == digits_value(p + f1) * 10 + digit_value(f.last()));
        assert(digits_value(p + f1) == x * e + y);
        let c = digit_value(f.last());
        assert((x * e + y) * 10 + c == x * (10 * e) + (y * 10 + c)) by (nonlinear_arith);
        assert(digits_value(p + f) == x * (10 * e) + (y * 10 + c));
    }
}

/// The digits of `nat_text(x)` spell `x`.
proof fn lemma_nat_text(x: nat)
    ensures
        all_digits(nat_text(x)),
        nat_text(x).len() >= 1,
        digits_value(nat_text(x)) == x,
    decreases x,
{
    if x < 10 {
        lemma_digit_char(x);
        assert(digits_value(seq![digit_char(x)]) == digits_value(seq![digit_char(x)].drop_last()) * 10 + digit_value(digit_char(x)));
        assert(seq![digit_char(x)].drop_last() =~= Seq::<char>::empty());
    } else {
        lemma_nat_text(x / 10);
        lemma_digit_char(x % 10);
        let t = nat_text(x);
        assert(t.drop_last() =~= nat_text(x / 10));
        assert(forall|i: int| 0 <= i < t.len() - 1 ==> t[i] == nat_text(x / 10)[i]);
    }
}

/// A text of digits only has no `.` and no fractional digits.
proof fn lemma_no_dot(s: Seq<char>)
    requires
        all_digits(s),
    ensures
        !has_dot(s),
        frac_len(s) == 0,
{
    if s.len() > 0 {
        assert(is_digit_spec(s.last()));
        assert(!has_dot(s.drop_last())) by {
            if has_dot(s.drop_last()) {
                let i = choose|i: int| 0 <= i < s.drop_last().len() && s.drop_last()[i] == '.';
                assert(is_digit_spec(s[i]));
            }
        }
    }
}

/// Digits after a point: the value reads through the point, and the
/// fractional digits are those after it.
proof fn lemma_point(p: Seq<char>, f: Seq<char>)
    requires
        all_digits(p),
        all_digits(f),
    ensures
        digits_value(p + seq!['.'] + f) == digits_value(p) * pow10(f.len()) + digits_value(f),
        frac_len(p + seq!['.'] + f) == f.len(),
    decreases f.len(),
{
    let pd = p + seq!['.'];
    assert(pd.drop_last() =~= p);
    assert(digits_value(pd) == digits_value(p));
    lemma_digits_concat(pd, f);
    if f.len() == 0 {
        assert(p + seq!['.'] + f =~= pd);
    } else {
        let f1 = f.drop_last();
        assert(all_digits(f1));
        lemma_point(p, f1);
        let t = p + seq!['.'] + f;
        assert(t.drop_last() =~= p + seq!['.'] + f1);
        assert(is_digit_spec(f.last()));
        assert(t.last() == f.last());
        assert(has_dot(t.drop_last())) by {
            assert(t.drop_last()[p.len() as int] == '.');
        }
    }
}

// ---------------------------------------------------------------- fractions

/// The full expansion of `r / d` spells `r * 10^L / d`, where `L` is its
/// length, up to the remainder left after it.
proof fn lemma_frac_value(r: nat, d: nat, k: nat)
    requires
        r < d,
    ensures
        all_digits(frac_digits(r, d, k, true)),
        r * pow10(frac_digits(r, d, k, true).len()) == d * digits_value(frac_digits(r, d, k, true)) + frac_rem(r, d, k),
        frac_rem(r, d, k) < d,
    decreases k,
{
    let fd = frac_digits(r, d, k, true);
    if k == 0 || r == 0 {
        assert(fd.len() == 0);
        assert(digits_value(fd) == 0);
        assert(r * pow10(0) == r) by (nonlinear_arith)
            requires
                pow10(0) == 1,
        ;
    } else {
        lemma_digit_step(r, d);
        let q = (r * 10) / d;
        let r2 = (r * 10) % d;
        lemma_frac_value(r2, d, (k - 1) as nat);
        let f2 = frac_digits(r2, d, (k - 1) as nat, true);
        lemma_digit_char(q);
        assert(fd == seq![digit_char(q)] + f2);
        assert(all_digits(fd)) by {
            assert forall|i: int| 0 <= i < fd.len() implies is_digit_spec(#[trigger] fd[i]) by {
                if i > 0 {
                    assert(fd[i] == f2[i - 1]);
                }
            }
        }
        lemma_digits_concat(seq![digit_char(q)], f2);
        assert(digits_value(seq![digit_char(q)]) == q) by {
            let sq = seq![digit_char(q)];
            assert(sq.drop_last() =~= Seq::<char>::empty());
            assert(digits_value(sq.drop_last()) == 0);
            assert(sq.last() == digit_char(q));
            assert(sq.len() == 1);
            assert(digits_value(sq) == digits_value(sq.drop_last()) * 10 + digit_value(sq.last()));
        }
        let l2 = f2.len();
        let e = pow10(l2);
        assert(pow10(fd.len()) == 10 * e) by {
            assert(fd.len() == l2 + 1);
        }
        let v2 = digits_value(f2);
        let rem = frac_rem(r2, d, (k - 1) as nat);
        assert(frac_rem(r, d, k) == rem);
        lemma_fundamental_div_mod((r * 10) as int, d as int);
        assert(r * 10 == d * q + r2);
        assert(r2 * e == d * v2 + rem);
        assert(r * (10 * e) == d * (q * e + v2) + rem) by (nonlinear_arith)
            requires
                r * 10 == d * q + r2,
                r2 * e == d * v2 + rem,
        ;
    }
}

/// Any common divisor of `a` and `b` divides their gcd.
proof fn lemma_common_divisor(a: nat, b: nat, k: nat)
    requires
        k > 0,
        a % k == 0,
        b % k == 0,
    ensures
        gcd(a, b) % k == 0,
    decreases b,
{
    if b > 0 {
        lemma_fundamental_div_mod(a as int, b as int);
        lemma_fundamental_div_mod(a as int, k as int);
        lemma_fundamental_div_mod(b as int, k as int);
        let q = a / b;
        let r = a % b;
        let ak = a / k;
        let bk = b / k;
        assert(r == (ak - q * bk) * k) by (nonlinear_arith)
            requires
                a == b * q + r,
                a == k * ak,
                b == k * bk,
        ;
        assert(ak - q * bk >= 0) by (nonlinear_arith)
            requires
                r == (ak - q * bk) * k,
                r >= 0,
                k > 0,
        ;
        lemma_fundamental_div_mod_converse(r as int, k as int, ak - q * bk, 0);
        lemma_common_divisor(b, r, k);
    }
}

// ---------------------------------------------------------------- reading back

/// An integer in `i64` range prints as a numeral of itself.
proof fn lemma_int_reads_back(x: int)
    ensures
        numeral_value(int_text(x)) == Ok::<SNum, crate::error::SError>(SNum { num: x, den: 1 }),
{
    let nt = nat_text(abs(x));
    lemma_nat_text(abs(x));
    lemma_no_dot(nt);
    let t2 = int_text(x);
    assert(is_digit_spec(nt[0]));
    if x < 0 {
        assert(t2 == seq!['-'] + nt);
        assert(t2.drop_first() =~= nt);
    }
    assert(unsigned_part(t2) == nt);
    assert(numeral_ok(t2));
    assert(pow10(0) == 1);
    let y = if t2[0] == '-' { -(abs(x) as int) } else { abs(x) as int };
    assert(y == x);
    assert(abs(y) % 1 == 0 && abs(y) / 1 == abs(y)) by (nonlinear_arith);
    assert(gcd(abs(y), 1) == gcd(1, 0));
}

proof fn lemma_point_numeral(nt: Seq<char>, fd: Seq<char>)
    requires
        all_digits(nt),
        all_digits(fd),
        nt.len() > 0,
    ensures
        ({
            let b = nt + seq!['.'] + fd;
            &&& b.len() > 0
            &&& is_digit_spec(b[0])
            &&& forall|i: int| 0 <= i < b.len() ==> is_digit_spec(#[trigger] b[i]) || b[i] == '.'
            &&& forall|i: int, j: int| 0 <= i < b.len() && 0 <= j < b.len() && b[i] == '.' && b[j] == '.' ==> i == j
        }),
{
    let b = nt + seq!['.'] + fd;
    assert forall|i: int| 0 <= i < b.len() implies (is_digit_spec(#[trigger] b[i]) || b[i] == '.') && (b[i] == '.' ==> i == nt.len()) by {
        if i < nt.len() {
            assert(b[i] == nt[i]);
        } else if i > nt.len() {
            assert(b[i] == fd[i - nt.len() - 1]);
        }
    }
}

/// A multiple of `d` times anything is a multiple of `d`.
proof fn lemma_mul_multiple_mod(r: nat, x: nat, d: nat)
    requires
        d > 0,
        x % d == 0,
    ensures
        (r * x) % d == 0,
{
    lemma_fundamental_div_mod(x as int, d as int);
    let q = x / d;
    assert(r * x == (r * q) * d) by (nonlinear_arith)
        requires
            x == d * q,
    ;
    lemma_mod_multiples_basic((r * q) as int, d as int);
}

/// An odd `e` that divides `2 * x` divides `x`.
proof fn lemma_odd_divides(e: nat, x: nat)
    requires
        e > 0,
        e % 2 == 1,
        (2 * x) % e == 0,
    ensures
        x % e == 0,
{
    lemma_fundamental_div_mod((2 * x) as int, e as int);
    let k = (2 * x) / e;
    assert(2 * x == e * k);
    vstd::arithmetic::div_mod::lemma_mul_mod_noop_general(e as int, k as int, 2);
    assert((2 * x) % 2 == 0) by (nonlinear_arith);
    assert(k % 2 == 0) by (nonlinear_arith)
        requires
            ((e % 2) * (k % 2)) % 2 == (e * k) % 2,
            (e * k) % 2 == 0,
            e % 2 == 1,
            k >= 0,
    ;
    lemma_fundamental_div_mod(k as int, 2);
    let j = k / 2;
    assert(x == e * j) by (nonlinear_arith)
        requires
            2 * x == e * k,
            k == 2 * j,
    ;
    lemma_mod_multiples_basic(j as int, e as int);
    assert(j * e == e * j) by (nonlinear_arith);
}

/// An `e` not divisible by five that divides `5 * x` divides `x`.
proof fn lemma_five_divides(e: nat, x: nat)
    requires
        e > 0,
        e % 5 != 0,
        (5 * x) % e == 0,
    ensures
        x % e == 0,
{
    lemma_fundamental_div_mod((5 * x) as int, e as int);
    let k = (5 * x) / e;
    assert(5 * x == e * k);
    vstd::arithmetic::div_mod::lemma_mul_mod_noop_general(e as int, k as int, 5);
    assert((5 * x) % 5 == 0) by (nonlinear_arith);
    let er = e % 5;
    let kr = k % 5;
    assert(kr == 0) by (nonlinear_arith)
        requires
            (er * kr) % 5 == 0,
            1 <= er < 5,
            0 <= kr < 5,
    ;
    lemma_fundamental_div_mod(k as int, 5);
    let j = k / 5;
    assert(x == e * j) by (nonlinear_arith)
        requires
            5 * x == e * k,
            k == 5 * j,
    ;
    lemma_mod_multiples_basic(j as int, e as int);
    assert(j * e == e * j) by (nonlinear_arith);
}

/// The only divisor of a power of ten prime to two and five is one.
proof fn lemma_unit_divisor(e: nat, s: nat)
    requires
        e > 0,
        e % 2 == 1,
        e % 5 != 0,
        pow10(s) % e == 0,
    ensures
        e == 1,
    decreases s,
{
    if s == 0 {
        if e > 1 {
            vstd::arithmetic::div_mod::lemma_small_mod(1, e);
        }
    } else {
        let x = pow10((s - 1) as nat);
        assert(pow10(s) == 2 * (5 * x));
        lemma_odd_divides(e, 5 * x);
        lemma_five_divides(e, x);
        lemma_unit_divisor(e, (s - 1) as nat);
    }
}

/// A divisor of a power of ten is a product of twos and fives.
proof fn lemma_reader_ends(d: nat, s: nat)
    requires
        d > 0,
        pow10(s) % d == 0,
    ensures
        expansion_ends(d),
{
    let x = strip_factor(d, 2);
    lemma_strip(d, 2);
    lemma_strip(x, 5);
    let e = strip_factor(x, 5);
    let a = power(2, factor_count(d, 2));
    let c = power(5, factor_count(x, 5));
    assert(d == a * (c * e)) by (nonlinear_arith)
        requires
            d == a * x,
            x == c * e,
    ;
    // e is odd: otherwise x = c * e would be even
    vstd::arithmetic::div_mod::lemma_mul_mod_noop_right(c as int, e as int, 2);
    lemma_fundamental_div_mod(e as int, 2);
    assert(e % 2 == 1) by (nonlinear_arith)
        requires
            (c * e) % 2 == (c * (e % 2)) % 2,
            x % 2 != 0,
            x == c * e,
            e % 2 < 2,
    ;
    // e divides 10^s
    lemma_fundamental_div_mod(pow10(s) as int, d as int);
    let q = pow10(s) / d;
    assert(pow10(s) == (q * (a * c)) * e) by (nonlinear_arith)
        requires
            pow10(s) == d * q,
            d == a * (c * e),
    ;
    lemma_mod_multiples_basic((q * (a * c)) as int, e as int);
    lemma_unit_divisor(e, s);
}

/// What a number read from a numeral prints as reads back as the same
/// number: printing keeps every digit a numeral can give.
pub proof fn law_number_reads_back(t: Seq<char>)
    requires
        numeral_value(t) is Ok,
    ensures
        numeral_value(num_text(numeral_value(t)->Ok_0)) == numeral_value(t),
{
    let b = unsigned_part(t);
    let m = digits_value(b);
    let s = frac_len(b);
    let neg = t[0] == '-';
    let sm: int = if neg { -(m as int) } else { m as int };
    let p = pow10(s);
    lemma_pow10_pos(s);
    let n = numeral_value(t)->Ok_0;
    assert(n == normalize(sm, p as int));
    assert(abs(sm) == m);
    let g = gcd(m, p);
    lemma_gcd_divides(m, p);
    lemma_fundamental_div_mod(m as int, g as int);
    lemma_fundamental_div_mod(p as int, g as int);
    let aa = m / g;
    let dd = p / g;
    assert(m == g * aa);
    assert(p == g * dd);
    assert(aa <= m) by (nonlinear_arith)
        requires
            m == g * aa,
            g >= 1,
    ;
    assert(dd >= 1) by (nonlinear_arith)
        requires
            p == g * dd,
            p >= 1,
    ;
    assert(n.den == dd);
    assert(abs(n.num) == aa);
    if dd == 1 {
        lemma_int_reads_back(n.num);
    } else {
        let a = aa;
        let d = dd;
        let ip = a / d;
        let r = a % d;
        lemma_fundamental_div_mod(a as int, d as int);
        assert(r * p == (r * g) * d) by (nonlinear_arith)
            requires
                p == g * d,
        ;
        lemma_mod_multiples_basic((r * g) as int, d as int);
        assert(d * g == p);
        lemma_mod_multiples_basic(g as int, d as int);
        lemma_reader_ends(d, s);
        let kk = expansion_places(d);
        lemma_ends_divides(d);
        lemma_mul_multiple_mod(r, pow10(kk), d);
        lemma_frac_ends(r, d, kk, kk);
        lemma_frac_ends(r, d, s, kk);
        lemma_frac_value(r, d, kk);
        let fd = frac_digits(r, d, kk, true);
        let l = fd.len();
        assert(printed_fraction(r, d, frac_budget(ip)) == fd);
        // r > 0: otherwise d * g would divide both m and p
        if r == 0 {
            assert(m % (d * g) == 0 && p % (d * g) == 0) by {
                assert(m == ip * (d * g)) by (nonlinear_arith)
                    requires
                        m == g * a,
                        a == d * ip + r,
                        r == 0,
                ;
                assert(d * g > 0) by (nonlinear_arith)
                    requires
                        d >= 1,
                        g >= 1,
                ;
                lemma_mod_multiples_basic(ip as int, (d * g) as int);
                lemma_mod_multiples_basic(1, (d * g) as int);
                assert(p == 1 * (d * g)) by (nonlinear_arith)
                    requires
                        p == g * d,
                ;
            }
            lemma_common_divisor(m, p, d * g);
            assert(g >= d * g) by {
                lemma_fundamental_div_mod(g as int, (d * g) as int);
                let qq = g / (d * g);
                assert(g == (d * g) * qq);
                assert(g >= d * g) by (nonlinear_arith)
                    requires
                        g == (d * g) * qq,
                        g >= 1,
                        d * g > 0,
                        qq >= 0,
                ;
            }
            assert(false) by (nonlinear_arith)
                requires
                    g >= d * g,
                    d > 1,
                    g >= 1,
            ;
        }
        assert(l > 0) by {
            if l == 0 {
                assert(pow10(0) == 1);
                assert(digits_value(fd) == 0);
                assert(r * 1 == d * 0 + 0);
            }
        }
        // a > 0 and m > 0
        assert(a > 0);
        assert(m > 0) by (nonlinear_arith)
            requires
                m == g * a,
                g >= 1,
                a > 0,
        ;
        assert(n.num < 0 <==> neg);
        let nt = nat_text(ip);
        lemma_nat_text(ip);
        let bb = nt + seq!['.'] + fd;
        let t2 = num_text(n);
        assert(t2 == (if n.num < 0 { seq!['-'] } else { Seq::<char>::empty() }) + nt + seq!['.'] + fd);
        assert(is_digit_spec(nt[0]));
        if neg {
            assert(t2 =~= seq!['-'] + bb);
            assert(t2.drop_first() =~= bb);
        } else {
            assert(t2 =~= bb);
        }
        assert(unsigned_part(t2) == bb);
        lemma_point_numeral(nt, fd);
        assert(numeral_ok(t2));
        lemma_point(nt, fd);
        let mm = digits_value(bb);
        let e = pow10(l);
        assert(mm == ip * e + digits_value(fd));
        assert(frac_len(bb) == l);
        let c = pow10((s - l) as nat);
        lemma_pow10_pos((s - l) as nat);
        lemma_pow10_add(l, (s - l) as nat);
        assert(p == e * c);
        assert(r * e == d * digits_value(fd));
        assert(mm * c == m) by (nonlinear_arith)
            requires
                mm == ip * e + digits_value(fd),
                r * e == d * digits_value(fd),
                a == d * ip + r,
                p == e * c,
                p == g * d,
                m == g * a,
                d > 0,
        ;
        let smm: int = if neg { -(mm as int) } else { mm as int };
        assert(t2[0] == '-' <==> neg);
        assert(numeral_value(t2) == Ok::<SNum, crate::error::SError>(normalize(smm, e as int)));
        lemma_normalize_scale(smm, e as int, c);
        assert(smm * c == sm) by (nonlinear_arith)
            requires
                mm * c == m,
                smm == (if neg { -(mm as int) } else { mm as int }),
                sm == (if neg { -(m as int) } else { m as int }),
        ;
        assert((e as int) * c == p as int);
    }
}

// ---------------------------------------------------------------- printed data

/// A numeral is made of digits, points and minus signs, and starts with a
/// digit or with a minus sign and a digit.
proof fn lemma_numeral_shape(t: Seq<char>)
    requires
        numeral_value(t) is Ok,
    ensures
        t.len() > 0,
        forall|i: int| 0 <= i < t.len() ==> in_class(CharClass::Numeric, #[trigger] t[i]),
        is_digit_spec(t[0]) || (t[0] == '-' && t.len() > 1 && is_digit_spec(t[1])),
{
    let b = unsigned_part(t);
    if t.len() > 0 && t[0] == '-' {
        assert forall|i: int| 0 <= i < t.len() implies in_class(CharClass::Numeric, #[trigger] t[i]) by {
            if i > 0 {
                assert(t[i] == b[i - 1]);
            }
        }
        assert(t[1] == b[0]);
    }
}

/// A number that some numeral stands for.
pub open spec fn number_readable(n: SNum) -> bool {
    exists|t: Seq<char>| numeral_value(t) == Ok::<SNum, crate::error::SError>(n)
}

/// A symbol name that the lexer reads back as one symbol: symbol characters
/// only, not starting like a number, a boolean or a quotation.
pub open spec fn symbol_readable(name: Seq<char>) -> bool {
    &&& name.len() > 0
    &&& forall|i: int| 0 <= i < name.len() ==> in_class(CharClass::Symbolic, #[trigger] name[i])
    &&& name[0] != '\'' && name[0] != '#' && !is_digit_spec(name[0])
    &&& !(name[0] == '-' && name.len() > 1 && is_digit_spec(name[1]))
}

/// String contents that print and read back unchanged: no `"` and no `\`.
pub open spec fn string_readable(x: Seq<char>) -> bool {
    forall|i: int| 0 <= i < x.len() ==> #[trigger] x[i] != '"' && x[i] != '\\'
}

/// A datum whose printed form reads back as itself: numbers that numerals
/// stand for, plain strings, readable symbols, booleans, `()`, and non-empty
/// lists of such data.
pub open spec fn readable(v: SValue) -> bool
    decreases v,
{
    match v {
        SValue::Number(n) => number_readable(n),
        SValue::Str(x) => string_readable(x),
        SValue::Bool(_) => true,
        SValue::Symbol(x) => symbol_readable(x),
        SValue::Nil => true,
        SValue::List(xs) => xs.len() > 0 && forall|i: int| 0 <= i < xs.len() ==> readable(#[trigger] xs[i]),
        _ => false,
    }
}

/// The tokens of a datum's printed form.
pub open spec fn datum_tokens(v: SValue) -> Seq<SToken>
    decreases v,
{
    match v {
        SValue::Number(n) => seq![SToken::Number(n)],
        SValue::Str(x) => seq![SToken::Str(x)],
        SValue::Bool(b) => seq![SToken::Bool(b)],
        SValue::Symbol(x) => seq![SToken::Symbol(x)],
        SValue::List(xs) => seq![SToken::LParen] + items_tokens(xs) + seq![SToken::RParen],
        _ => seq![SToken::LParen, SToken::RParen],
    }
}

/// The tokens of the printed forms of `xs`, in order.
pub open spec fn items_tokens(xs: Seq<SValue>) -> Seq<SToken>
    decreases xs,
{
    if xs.len() == 0 {
        seq![]
    } else {
        items_tokens(xs.drop_last()) + datum_tokens(xs.last())
    }
}

/// Whether the character at `e` ends a datum: the end of the text, a space or `)`.
pub open spec fn ends_datum(s: Seq<char>, e: int) -> bool {
    e == s.len() || (0 <= e < s.len() && (s[e] == ' ' || s[e] == ')'))
}

proof fn lemma_with_prefix_assoc(a: Seq<SToken>, b: Seq<SToken>, r: Result<Seq<SToken>, crate::error::SError>)
    ensures
        with_prefix(a, with_prefix(b, r)) == with_prefix(a + b, r),
{
    if let Ok(ts) = r {
        assert(a + (b + ts) =~= (a + b) + ts);
    }
}

proof fn lemma_run_end_exact(s: Seq<char>, i: nat, len: nat, cls: CharClass)
    requires
        i + len <= s.len(),
        forall|k: int| i <= k < i + len ==> in_class(cls, #[trigger] s[k]),
        i + len == s.len() || !in_class(cls, s[(i + len) as int]),
    ensures
        run_end(s, i, cls) == i + len,
    decreases len,
{
    if len > 0 {
        lemma_run_end_exact(s, i + 1, (len - 1) as nat, cls);
    }
}

proof fn lemma_scan_plain(s: Seq<char>, j: nat, x: Seq<char>, k: nat)
    requires
        string_readable(x),
        k <= x.len(),
        j + x.len() - k < s.len(),
        forall|m: int| 0 <= m < x.len() - k ==> #[trigger] s[j + m] == x[k + m],
        s[j + x.len() - k] == '"',
    ensures
        scan_string(s, j, x.take(k as int)) == Ok::<(Seq<char>, nat), crate::error::SError>((x, (j + x.len() - k + 1) as nat)),
    decreases x.len() - k,
{
    if k == x.len() {
        assert(x.take(k as int) =~= x);
    } else {
        assert(s[j + 0int] == x[k + 0int]);
        assert forall|m: int| 0 <= m < x.len() - (k + 1) implies #[trigger] s[(j + 1) + m] == x[(k + 1) + m] by {
            assert(s[j + (m + 1)] == x[k + (m + 1)]);
        }
        assert(x.take(k as int).push(x[k as int]) =~= x.take(k + 1int));
        lemma_scan_plain(s, j + 1, x, k + 1);
    }
}

proof fn lemma_show_items_take(xs: Seq<SValue>, k: int)
    requires
        1 <= k < xs.len(),
    ensures
        show_items(xs.take(k + 1)) == show_items(xs.take(k)) + seq![' '] + show(xs[k]),
        items_tokens(xs.take(k + 1)) == items_tokens(xs.take(k)) + datum_tokens(xs[k]),
{
    let t = xs.take(k + 1);
    assert(t.drop_last() =~= xs.take(k));
    assert(t.last() == xs[k]);
}

proof fn lemma_show_items_one(xs: Seq<SValue>)
    requires
        xs.len() >= 1,
    ensures
        show_items(xs.take(1)) == show(xs[0]),
        items_tokens(xs.take(1)) == datum_tokens(xs[0]),
{
    let t = xs.take(1);
    assert(t.drop_last() =~= Seq::<SValue>::empty());
    assert(t.last() == xs[0]);
    assert(items_tokens(t.drop_last()) == Seq::<SToken>::empty());
    assert(Seq::<SToken>::empty() + datum_tokens(xs[0]) =~= datum_tokens(xs[0]));
}

/// The printed items of `xs.take(k)` begin the printed items of `xs`, and a
/// space follows them while items are left.
proof fn lemma_show_items_prefix(xs: Seq<SValue>, k: int)
    requires
        1 <= k <= xs.len(),
    ensures
        show_items(xs.take(k)).len() <= show_items(xs).len(),
        forall|m: int| 0 <= m < show_items(xs.take(k)).len() ==> #[trigger] show_items(xs)[m] == show_items(xs.take(k))[m],
        k < xs.len() ==> show_items(xs.take(k)).len() < show_items(xs).len() && show_items(xs)[show_items(xs.take(k)).len() as int] == ' ',
    decreases xs.len() - k,
{
    if k == xs.len() {
        assert(xs.take(k) =~= xs);
    } else {
        lemma_show_items_prefix(xs, k + 1);
        lemma_show_items_take(xs, k);
        let a = show_items(xs.take(k));
        let b = show_items(xs.take(k + 1));
        assert forall|m: int| 0 <= m < a.len() implies #[trigger] show_items(xs)[m] == a[m] by {
            assert(show_items(xs)[m] == b[m]);
        }
        assert(show_items(xs)[a.len() as int] == b[a.len() as int]);
    }
}

/// `t` sits at `i` in `s`.
pub open spec fn placed(s: Seq<char>, i: int, t: Seq<char>) -> bool {
    &&& 0 <= i
    &&& i + t.len() <= s.len()
    &&& forall|m: int| 0 <= m < t.len() ==> #[trigger] s[i + m] == t[m]
}

proof fn lemma_lex_run(s: Seq<char>, i: int, t: Seq<char>, cls: CharClass)
    requires
        placed(s, i, t),
        ends_datum(s, i + t.len()),
        forall|m: int| 0 <= m < t.len() ==> in_class(cls, #[trigger] t[m]),
        !in_class(cls, ' '),
        !in_class(cls, ')'),
    ensures
        run_end(s, i as nat, cls) == i + t.len(),
        s.subrange(i, i + t.len()) == t,
{
    assert forall|k: int| i <= k < i + t.len() implies in_class(cls, #[trigger] s[k]) by {
        assert(s[i + (k - i)] == t[k - i]);
    }
    lemma_run_end_exact(s, i as nat, t.len(), cls);
    assert forall|m: int| 0 <= m < t.len() implies #[trigger] s.subrange(i, i + t.len())[m] == t[m] by {
        assert(s[i + m] == t[m]);
    }
    assert(s.subrange(i, i + t.len()) =~= t);
}

proof fn lemma_lex_number(n: SNum, s: Seq<char>, i: int)
    requires
        number_readable(n),
        placed(s, i, num_text(n)),
        ends_datum(s, i + num_text(n).len()),
    ensures
        lex_from(s, i as nat) == with_prefix(seq![SToken::Number(n)], lex_from(s, (i + num_text(n).len()) as nat)),
{
    let t0 = choose|t: Seq<char>| numeral_value(t) == Ok::<SNum, crate::error::SError>(n);
    law_number_reads_back(t0);
    let t = num_text(n);
    lemma_numeral_shape(t);
    assert(s[i + 0] == t[0]);
    if t[0] == '-' {
        assert(s[i + 1] == t[1]);
    }
    lemma_lex_run(s, i, t, CharClass::Numeric);
}

proof fn lemma_lex_symbol(x: Seq<char>, s: Seq<char>, i: int)
    requires
        symbol_readable(x),
        placed(s, i, x),
        ends_datum(s, i + x.len()),
    ensures
        lex_from(s, i as nat) == with_prefix(seq![SToken::Symbol(x)], lex_from(s, (i + x.len()) as nat)),
{
    assert(s[i + 0] == x[0]);
    assert(in_class(CharClass::Symbolic, x[0]));
    if x.len() > 1 {
        assert(s[i + 1] == x[1]);
    }
    lemma_lex_run(s, i, x, CharClass::Symbolic);
}

proof fn lemma_lex_string(x: Seq<char>, s: Seq<char>, i: int)
    requires
        string_readable(x),
        placed(s, i, seq!['"'] + x + seq!['"']),
    ensures
        lex_from(s, i as nat) == with_prefix(seq![SToken::Str(x)], lex_from(s, (i + x.len() + 2) as nat)),
{
    let t = seq!['"'] + x + seq!['"'];
    assert(s[i + 0] == t[0]);
    assert forall|m: int| 0 <= m < x.len() - 0 implies #[trigger] s[(i + 1) + m] == x[0 + m] by {
        assert(s[i + (m + 1)] == t[m + 1]);
    }
    assert(s[i + (x.len() + 1)] == t[x.len() + 1int]);
    lemma_scan_plain(s, (i + 1) as nat, x, 0);
    assert(x.take(0) =~= Seq::<char>::empty());
}

proof fn lemma_lex_bool(b: bool, s: Seq<char>, i: int)
    requires
        placed(s, i, show(SValue::Bool(b))),
    ensures
        lex_from(s, i as nat) == with_prefix(seq![SToken::Bool(b)], lex_from(s, (i + 2) as nat)),
        show(SValue::Bool(b)).len() == 2,
{
    reveal_strlit("#t");
    reveal_strlit("#f");
    let t = show(SValue::Bool(b));
    assert(t.len() == 2);
    assert(s[i + 0] == t[0]);
    assert(s[i + 1] == t[1]);
    assert(s[i] == '#');
    if b {
        assert(s[i + 1] == 't');
    } else {
        assert(s[i + 1] == 'f');
    }
    let r = lex_from(s, (i + 2) as nat);
    assert(lex_from(s, i as nat) == cons_token(SToken::Bool(b), r));
}

proof fn lemma_lex_nil(s: Seq<char>, i: int)
    requires
        placed(s, i, show(SValue::Nil)),
    ensures
        lex_from(s, i as nat) == with_prefix(seq![SToken::LParen, SToken::RParen], lex_from(s, (i + 2) as nat)),
        show(SValue::Nil).len() == 2,
{
    reveal_strlit("()");
    let t = show(SValue::Nil);
    assert(t.len() == 2);
    assert(s[i + 0] == t[0]);
    assert(s[i + 1] == t[1]);
    assert(s[i] == '(');
    assert(s[i + 1] == ')');
    let r = lex_from(s, (i + 2) as nat);
    assert(lex_from(s, (i + 1) as nat) == cons_token(SToken::RParen, r));
    assert(lex_from(s, i as nat) == cons_token(SToken::LParen, cons_token(SToken::RParen, r)));
    if let Ok(ts) = r {
        assert(seq![SToken::LParen] + (seq![SToken::RParen] + ts) =~= seq![SToken::LParen, SToken::RParen] + ts);
    }
}

/// The printed form of a readable datum, followed by a space, `)` or the end
/// of the text, lexes to the datum's tokens.
proof fn lemma_lex_datum(v: SValue, s: Seq<char>, i: int)
    requires
        readable(v),
        placed(s, i, show(v)),
        ends_datum(s, i + show(v).len()),
    ensures
        lex_from(s, i as nat) == with_prefix(datum_tokens(v), lex_from(s, (i + show(v).len()) as nat)),
    decreases v, 1nat, 0nat,
{
    match v {
        SValue::Number(n) => lemma_lex_number(n, s, i),
        SValue::Str(x) => lemma_lex_string(x, s, i),
        SValue::Bool(b) => lemma_lex_bool(b, s, i),
        SValue::Symbol(x) => lemma_lex_symbol(x, s, i),
        SValue::Nil => lemma_lex_nil(s, i),
        SValue::List(xs) => lemma_lex_list(v, xs, s, i),
        _ => {},
    }
}

proof fn lemma_lex_list(v: SValue, xs: Seq<SValue>, s: Seq<char>, i: int)
    requires
        v == SValue::List(xs),
        readable(v),
        placed(s, i, show(v)),
        ends_datum(s, i + show(v).len()),
    ensures
        lex_from(s, i as nat) == with_prefix(datum_tokens(v), lex_from(s, (i + show(v).len()) as nat)),
    decreases v, 0nat, xs.len() + 1,
{
    let si = show_items(xs);
    let e = i + show(v).len();
    assert(show(v) == seq!['('] + si + seq![')']);
    assert(s[i + 0] == show(v)[0]);
    assert(placed(s, i + 1, si)) by {
        assert forall|m: int| 0 <= m < si.len() implies #[trigger] s[(i + 1) + m] == si[m] by {
            assert(s[i + (m + 1)] == show(v)[m + 1]);
        }
    }
    assert(s[i + (si.len() + 1)] == show(v)[si.len() + 1int]);
    assert(xs.take(xs.len() as int) =~= xs);
    lemma_lex_items(v, xs, s, i + 1, xs.len() as int);
    let r = lex_from(s, e as nat);
    assert(lex_from(s, (i + 1 + si.len()) as nat) == cons_token(SToken::RParen, r));
    lemma_with_prefix_assoc(seq![SToken::LParen], items_tokens(xs), cons_token(SToken::RParen, r));
    if let Ok(ts) = r {
        assert(seq![SToken::LParen] + items_tokens(xs) + (seq![SToken::RParen] + ts)
            =~= seq![SToken::LParen] + items_tokens(xs) + seq![SToken::RParen] + ts);
    }
}

proof fn lemma_lex_items(v: SValue, xs: Seq<SValue>, s: Seq<char>, start: int, k: int)
    requires
        0 <= start,
        v == SValue::List(xs),
        readable(v),
        1 <= k <= xs.len(),
        placed(s, start, show_items(xs)),
        start + show_items(xs).len() < s.len(),
        s[start + show_items(xs).len()] == ')',
    ensures
        lex_from(s, start as nat) == with_prefix(items_tokens(xs.take(k)), lex_from(s, (start + show_items(xs.take(k)).len()) as nat)),
    decreases v, 0nat, k,
{
    let si = show_items(xs);
    lemma_show_items_prefix(xs, k);
    if k == 1 {
        lemma_show_items_one(xs);
        let w = xs[0];
        assert(readable(w));
        assert forall|m: int| 0 <= m < show(w).len() implies #[trigger] s[start + m] == show(w)[m] by {
            assert(s[start + m] == si[m]);
        }
        if xs.len() > 1 {
            assert(s[start + show(w).len()] == si[show(w).len() as int]);
        }
        lemma_lex_datum(w, s, start);
    } else {
        lemma_lex_items(v, xs, s, start, k - 1);
        lemma_show_items_prefix(xs, k - 1);
        lemma_show_items_take(xs, k - 1);
        let p = start + show_items(xs.take(k - 1)).len();
        assert(s[p] == si[show_items(xs.take(k - 1)).len() as int]);
        assert(s[p] == ' ');
        assert(lex_from(s, p as nat) == lex_from(s, (p + 1) as nat));
        let w = xs[k - 1];
        assert(readable(w));
        let a = show_items(xs.take(k - 1));
        let b = show_items(xs.take(k));
        assert forall|m: int| 0 <= m < show(w).len() implies #[trigger] s[(p + 1) + m] == show(w)[m] by {
            assert(b[a.len() + 1 + m] == show(w)[m]);
            assert(s[start + (a.len() + 1 + m)] == si[a.len() + 1 + m]);
        }
        if k < xs.len() {
            assert(s[start + b.len()] == si[b.len() as int]);
        }
        lemma_lex_datum(w, s, p + 1);
        lemma_with_prefix_assoc(items_tokens(xs.take(k - 1)), datum_tokens(w), lex_from(s, (start + b.len()) as nat));
    }
}

/// `ts[i..]` begins with `d`.
pub open spec fn tokens_at(ts: Seq<SToken>, i: int, d: Seq<SToken>) -> bool {
    &&& 0 <= i
    &&& i + d.len() <= ts.len()
    &&& forall|m: int| 0 <= m < d.len() ==> #[trigger] ts[i + m] == d[m]
}

proof fn lemma_datum_tokens_start(v: SValue)
    requires
        readable(v),
    ensures
        datum_tokens(v).len() >= 1,
        datum_tokens(v)[0] != SToken::RParen,
{
}

proof fn lemma_items_tokens_take(xs: Seq<SValue>, k: int)
    requires
        1 <= k <= xs.len(),
    ensures
        items_tokens(xs.take(k)) == items_tokens(xs.take(k - 1)) + datum_tokens(xs[k - 1]),
{
    let t = xs.take(k);
    assert(t.drop_last() =~= xs.take(k - 1));
    assert(t.last() == xs[k - 1]);
}

proof fn lemma_items_tokens_prefix(xs: Seq<SValue>, k: int)
    requires
        0 <= k <= xs.len(),
    ensures
        items_tokens(xs.take(k)).len() <= items_tokens(xs).len(),
        forall|m: int| 0 <= m < items_tokens(xs.take(k)).len() ==> #[trigger] items_tokens(xs)[m] == items_tokens(xs.take(k))[m],
    decreases xs.len() - k,
{
    if k == xs.len() {
        assert(xs.take(k) =~= xs);
    } else {
        lemma_items_tokens_prefix(xs, k + 1);
        lemma_items_tokens_take(xs, k + 1);
    }
}

/// The tokens of a readable datum read back as the datum.
proof fn lemma_parse_datum(v: SValue, ts: Seq<SToken>, i: int)
    requires
        readable(v),
        tokens_at(ts, i, datum_tokens(v)),
    ensures
        parse_at(ts, i as nat) == Ok::<(SValue, nat), crate::error::SError>((v, (i + datum_tokens(v).len()) as nat)),
    decreases v, 1nat, 0nat,
{
    let d = datum_tokens(v);
    assert(ts[i + 0] == d[0]);
    match v {
        SValue::List(xs) => {
            let it = items_tokens(xs);
            assert(tokens_at(ts, i + 1, it)) by {
                assert forall|m: int| 0 <= m < it.len() implies #[trigger] ts[(i + 1) + m] == it[m] by {
                    assert(ts[i + (m + 1)] == d[m + 1]);
                }
            }
            assert(ts[i + (it.len() + 1)] == d[it.len() + 1int]);
            assert(xs.take(xs.len() as int) =~= xs);
            lemma_parse_items_datum(v, xs, ts, i + 1, xs.len() as int);
        },
        SValue::Nil => {
            assert(ts[i + 1] == d[1]);
        },
        _ => {},
    }
}

proof fn lemma_parse_items_datum(v: SValue, xs: Seq<SValue>, ts: Seq<SToken>, start: int, k: int)
    requires
        v == SValue::List(xs),
        readable(v),
        0 <= k <= xs.len(),
        tokens_at(ts, start, items_tokens(xs)),
    ensures
        parse_items(ts, start as nat, seq![]) == parse_items(ts, (start + items_tokens(xs.take(k)).len()) as nat, xs.take(k)),
    decreases v, 0nat, k,
{
    if k == 0 {
        assert(xs.take(0) =~= Seq::<SValue>::empty());
        assert(items_tokens(xs.take(0)) == Seq::<SToken>::empty());
    } else {
        lemma_parse_items_datum(v, xs, ts, start, k - 1);
        lemma_items_tokens_take(xs, k);
        lemma_items_tokens_prefix(xs, k);
        let a = items_tokens(xs.take(k - 1));
        let b = items_tokens(xs.take(k));
        let w = xs[k - 1];
        assert(readable(w));
        lemma_datum_tokens_start(w);
        let p = start + a.len();
        let dw = datum_tokens(w);
        assert(tokens_at(ts, p, dw)) by {
            assert forall|m: int| 0 <= m < dw.len() implies #[trigger] ts[p + m] == dw[m] by {
                assert(b[a.len() + m] == dw[m]);
                assert(items_tokens(xs)[a.len() + m] == b[a.len() + m]);
                assert(ts[start + (a.len() + m)] == items_tokens(xs)[a.len() + m]);
            }
        }
        assert(ts[p + 0] == dw[0]);
        lemma_parse_datum(w, ts, p);
        assert(xs.take(k - 1).push(w) =~= xs.take(k));
    }
}

/// Printing a readable datum and reading the text back gives the datum: the
/// printed form lexes to the datum's tokens, and those tokens read as the
/// datum with nothing left over.
pub proof fn law_print_read_back(v: SValue)
    requires
        readable(v),
    ensures
        lex(show(v)) == Ok::<Seq<SToken>, crate::error::SError>(datum_tokens(v)),
        parse_at(datum_tokens(v), 0) == Ok::<(SValue, nat), crate::error::SError>((v, datum_tokens(v).len())),
{
    let s = show(v);
    assert(placed(s, 0, s)) by {
        assert forall|m: int| 0 <= m < s.len() implies #[trigger] s[0 + m] == s[m] by {}
    }
    lemma_lex_datum(v, s, 0);
    assert(lex_from(s, s.len()) == Ok::<Seq<SToken>, crate::error::SError>(seq![]));
    assert(datum_tokens(v) + seq![] =~= datum_tokens(v));
    let d = datum_tokens(v);
    assert(tokens_at(d, 0, d)) by {
        assert forall|m: int| 0 <= m < d.len() implies #[trigger] d[0 + m] == d[m] by {}
    }
    lemma_parse_datum(v, d, 0);
}

// ---------------------------------------------------------------- data that were read

/// A token the lexer can give: numbers that numerals stand for and readable
/// symbols (other tokens are all fine).
pub open spec fn token_ok(t: SToken) -> bool {
    match t {
        SToken::Number(n) => number_readable(n),
        SToken::Symbol(x) => symbol_readable(x),
        _ => true,
    }
}

/// Every token of `ts` is one the lexer can give.
pub open spec fn tokens_ok(ts: Seq<SToken>) -> bool {
    forall|i: int| 0 <= i < ts.len() ==> token_ok(#[trigger] ts[i])
}

/// No string inside `v` holds `"` or `\`.
pub open spec fn strings_plain(v: SValue) -> bool
    decreases v,
{
    match v {
        SValue::Str(x) => string_readable(x),
        SValue::List(xs) => forall|i: int| 0 <= i < xs.len() ==> strings_plain(#[trigger] xs[i]),
        _ => true,
    }
}

proof fn lemma_cons_ok(t: SToken, r: Result<Seq<SToken>, crate::error::SError>)
    requires
        token_ok(t),
        r matches Ok(ts) ==> tokens_ok(ts),
    ensures
        cons_token(t, r) matches Ok(ts) ==> tokens_ok(ts),
{
    if let Ok(ts) = r {
        let all = seq![t] + ts;
        assert forall|i: int| 0 <= i < all.len() implies token_ok(#[trigger] all[i]) by {
            if i > 0 {
                assert(all[i] == ts[i - 1]);
            }
        }
    }
}

/// Every token the lexer gives is one it can give back from a printed form.
proof fn lemma_lex_tokens_ok(s: Seq<char>, i: nat)
    ensures
        lex_from(s, i) matches Ok(ts) ==> tokens_ok(ts),
    decreases s.len() - i,
{
    if i < s.len() {
        let c = s[i as int];
        if c == ' ' || c == '\t' || c == '\n' || c == '\r' {
            lemma_lex_tokens_ok(s, i + 1);
        } else if c == ';' {
            lemma_comment_end(s, i + 1);
            lemma_lex_tokens_ok(s, comment_end(s, i + 1));
        } else if c == '(' || c == ')' || c == '\'' {
            lemma_lex_tokens_ok(s, i + 1);
            lemma_cons_ok(SToken::LParen, lex_from(s, i + 1));
            lemma_cons_ok(SToken::RParen, lex_from(s, i + 1));
            lemma_cons_ok(SToken::Quote, lex_from(s, i + 1));
        } else if c == '"' {
            lemma_scan_string(s, i + 1, seq![]);
            if let Ok(r) = scan_string(s, i + 1, seq![]) {
                lemma_lex_tokens_ok(s, r.1);
                lemma_cons_ok(SToken::Str(r.0), lex_from(s, r.1));
            }
        } else if c == '#' {
            if i + 1 < s.len() {
                lemma_lex_tokens_ok(s, i + 2);
            }
            lemma_cons_ok(SToken::Bool(true), lex_from(s, i + 2));
            lemma_cons_ok(SToken::Bool(false), lex_from(s, i + 2));
        } else if is_digit_spec(c) || (c == '-' && i + 1 < s.len() && is_digit_spec(s[i + 1int])) {
            lemma_run_end(s, i, CharClass::Numeric);
            let j = run_end(s, i, CharClass::Numeric);
            if let Ok(n) = numeral_value(s.subrange(i as int, j as int)) {
                assert(number_readable(n));
                lemma_lex_tokens_ok(s, j);
                lemma_cons_ok(SToken::Number(n), lex_from(s, j));
            }
        } else {
            lemma_run_end(s, i, CharClass::Symbolic);
            let j = run_end(s, i, CharClass::Symbolic);
            if j != i {
                let x = s.subrange(i as int, j as int);
                assert(x[0] == c);
                assert forall|k: int| 0 <= k < x.len() implies in_class(CharClass::Symbolic, #[trigger] x[k]) by {
                    assert(x[k] == s[i + k]);
                }
                if x.len() > 1 {
                    assert(x[1] == s[i + 1int]);
                }
                assert(symbol_readable(x));
                lemma_lex_tokens_ok(s, j);
                lemma_cons_ok(SToken::Symbol(x), lex_from(s, j));
            }
        }
    }
}

proof fn lemma_read_readable(ts: Seq<SToken>, i: nat)
    requires
        tokens_ok(ts),
    ensures
        parse_at(ts, i) matches Ok(r) ==> (strings_plain(r.0) ==> readable(r.0)),
    decreases ts.len() - i, 0nat,
{
    if i < ts.len() {
        assert(token_ok(ts[i as int]));
        match ts[i as int] {
            SToken::LParen => lemma_read_items_readable(ts, i + 1, seq![]),
            SToken::Quote => {
                lemma_read_readable(ts, i + 1);
                if let Ok(r) = parse_at(ts, i + 1) {
                    let l = seq![SValue::Symbol("quote"@), r.0];
                    reveal_strlit("quote");
                    let q = "quote"@;
                    assert(q =~= seq!['q', 'u', 'o', 't', 'e']);
                    assert forall|k: int| 0 <= k < q.len() implies in_class(CharClass::Symbolic, #[trigger] q[k]) by {
                        assert(q[k] == 'q' || q[k] == 'u' || q[k] == 'o' || q[k] == 't' || q[k] == 'e');
                    }
                    assert(symbol_readable(q));
                    assert(l[1] == r.0);
                    assert(l[0] == SValue::Symbol(q));
                    if strings_plain(SValue::List(l)) {
                        let lv = SValue::List(l);
                        assert(lv matches SValue::List(xs) && xs == l);
                        assert(strings_plain(lv) == (forall|k: int| 0 <= k < l.len() ==> strings_plain(#[trigger] l[k])));
                        assert(strings_plain(l[1]));
                        assert(readable(r.0));
                        assert forall|k: int| 0 <= k < l.len() implies readable(#[trigger] l[k]) by {}
                    }
                }
            },
            _ => {},
        }
    }
}

proof fn lemma_read_items_readable(ts: Seq<SToken>, j: nat, acc: Seq<SValue>)
    requires
        tokens_ok(ts),
        forall|k: int| 0 <= k < acc.len() ==> readable(#[trigger] acc[k]),
    ensures
        parse_items(ts, j, acc) matches Ok(r) ==> (strings_plain(r.0) ==> readable(r.0)),
    decreases ts.len() - j, 1nat,
{
    if j < ts.len() && ts[j as int] != SToken::RParen {
        lemma_read_readable(ts, j);
        if let Ok(r) = parse_at(ts, j) {
            if j < r.1 <= ts.len() {
                let acc2 = acc.push(r.0);
                lemma_items_result(ts, r.1, acc2);
                if let Ok(rr) = parse_items(ts, r.1, acc2) {
                    if strings_plain(rr.0) {
                        if let SValue::List(xs) = rr.0 {
                            assert(xs[acc.len() as int] == r.0);
                            assert(strings_plain(xs[acc.len() as int]));
                        }
                        assert forall|k: int| 0 <= k < acc2.len() implies readable(#[trigger] acc2[k]) by {
                            if k < acc.len() {
                                assert(acc2[k] == acc[k]);
                            }
                        }
                        lemma_read_items_readable(ts, r.1, acc2);
                    }
                }
            }
        }
    }
}

/// The list a `parse_items` gives begins with `acc`.
proof fn lemma_items_result(ts: Seq<SToken>, j: nat, acc: Seq<SValue>)
    ensures
        parse_items(ts, j, acc) matches Ok(r) ==> (
            acc.len() > 0 ==> (r.0 matches SValue::List(xs) && acc.len() <= xs.len()
                && forall|k: int| 0 <= k < acc.len() ==> #[trigger] xs[k] == acc[k])
        ),
    decreases ts.len() - j,
{
    if j < ts.len() && ts[j as int] != SToken::RParen {
        if let Ok(r) = parse_at(ts, j) {
            if j < r.1 <= ts.len() {
                let acc2 = acc.push(r.0);
                lemma_items_result(ts, r.1, acc2);
                if let Ok(rr) = parse_items(ts, r.1, acc2) {
                    if let SValue::List(xs) = rr.0 {
                        assert forall|k: int| 0 <= k < acc.len() implies #[trigger] xs[k] == acc[k] by {
                            assert(xs[k] == acc2[k]);
                        }
                    }
                }
            }
        }
    }
}

/// A datum read from text prints as text that reads back as the same datum
/// and nothing more, provided its strings hold no `"` and no `\\` (which
/// print without escapes).
pub proof fn law_read_print_read(text: Seq<char>)
    requires
        lex(text) is Ok,
        parse_at(lex(text)->Ok_0, 0) is Ok,
        strings_plain(parse_at(lex(text)->Ok_0, 0)->Ok_0.0),
    ensures
        ({
            let v = parse_at(lex(text)->Ok_0, 0)->Ok_0.0;
            &&& readable(v)
            &&& lex(show(v)) == Ok::<Seq<SToken>, crate::error::SError>(datum_tokens(v))
            &&& parse_at(datum_tokens(v), 0) == Ok::<(SValue, nat), crate::error::SError>((v, datum_tokens(v).len()))
        }),
{
    let ts = lex(text)->Ok_0;
    lemma_lex_tokens_ok(text, 0);
    lemma_read_readable(ts, 0);
    law_print_read_back(parse_at(ts, 0)->Ok_0.0);
}

} // verus!

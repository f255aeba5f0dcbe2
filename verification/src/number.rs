//! Exact numbers of the interpreter: rationals of any size in lowest terms,
//! numerator and denominator held as decimal digits, the denominator always
//! positive. Every arithmetic result is reduced by the greatest common divisor
//! of its numerator and denominator.

use vstd::prelude::*;
use crate::text::push_chars;
use crate::bignat::{
    big_add, big_gcd, big_mul, big_sub, copy_digits, dval, digits_ok, divmod, from_u64, is_zero,
    shift, small_value,
};

verus! {

/// The mathematical model of a number: the fraction `num / den`.
pub struct SNum {
    pub num: int,
    pub den: int,
}

/// A number of the interpreter: the fraction `num / den` (`-num / den` when
/// `neg`), `den > 0`, kept in lowest terms by every operation of this module.
#[derive(Debug)]
pub struct Number {
    neg: bool,
    num: Vec<u8>,
    den: Vec<u8>,
}

impl View for Number {
    type V = SNum;

    closed spec fn view(&self) -> SNum {
        SNum {
            num: if self.neg { -(dval(self.num@) as int) } else { dval(self.num@) as int },
            den: dval(self.den@) as int,
        }
    }
}

impl Number {
    #[verifier::type_invariant]
    spec fn well_formed(self) -> bool {
        &&& digits_ok(self.num@)
        &&& digits_ok(self.den@)
        &&& dval(self.den@) > 0
        &&& (self.neg ==> dval(self.num@) > 0)
    }
}

/// `==` on numbers compares their values.
impl PartialEq for Number {
    fn eq(&self, other: &Self) -> (r: bool) {
        self.equals(other)
    }
}

impl vstd::std_specs::cmp::PartialEqSpecImpl for Number {
    open spec fn obeys_eq_spec() -> bool {
        true
    }

    open spec fn eq_spec(&self, other: &Number) -> bool {
        num_eq(self@, other@)
    }
}

/// Absolute value.
pub open spec fn abs(x: int) -> nat {
    if x < 0 { (-x) as nat } else { x as nat }
}

/// Greatest common divisor, by Euclid's algorithm.
pub open spec fn gcd(a: nat, b: nat) -> nat
    decreases b,
{
    if b == 0 { a } else { gcd(b, a % b) }
}

/// `10^k`.
pub open spec fn pow10(k: nat) -> nat
    decreases k,
{
    if k == 0 { 1 } else { 10 * pow10((k - 1) as nat) }
}

/// The fraction `num / den` (with `den > 0`) divided through by the gcd of
/// its numerator's magnitude and its denominator.
pub open spec fn normalize(num: int, den: int) -> SNum {
    let g = gcd(abs(num), den as nat);
    if g == 0 {
        SNum { num, den }
    } else {
        SNum {
            num: if num < 0 { -((abs(num) / g) as int) } else { (abs(num) / g) as int },
            den: (den as nat / g) as int,
        }
    }
}

/// `a + b`.
pub open spec fn num_add(a: SNum, b: SNum) -> SNum {
    normalize(a.num * b.den + b.num * a.den, a.den * b.den)
}

/// `a - b`.
pub open spec fn num_sub(a: SNum, b: SNum) -> SNum {
    normalize(a.num * b.den - b.num * a.den, a.den * b.den)
}

/// `a * b`.
pub open spec fn num_mul(a: SNum, b: SNum) -> SNum {
    normalize(a.num * b.num, a.den * b.den)
}

/// `a / b`, for `b.num != 0`; the sign is moved to the numerator.
pub open spec fn num_div(a: SNum, b: SNum) -> SNum {
    if b.num < 0 {
        normalize(-(a.num * b.den), a.den * (-b.num))
    } else {
        normalize(a.num * b.den, a.den * b.num)
    }
}

/// Whether `a` is zero.
pub open spec fn num_is_zero(a: SNum) -> bool {
    a.num == 0
}

/// The numerator of `a` over the common denominator of `a` and `b`.
pub open spec fn cross_left(a: SNum, b: SNum) -> int {
    a.num * b.den
}

/// `a == b` as fractions.
pub open spec fn num_eq(a: SNum, b: SNum) -> bool {
    cross_left(a, b) == cross_left(b, a)
}

/// `a < b` as fractions (denominators positive).
pub open spec fn num_lt(a: SNum, b: SNum) -> bool {
    cross_left(a, b) < cross_left(b, a)
}

/// `a <= b` as fractions (denominators positive).
pub open spec fn num_le(a: SNum, b: SNum) -> bool {
    cross_left(a, b) <= cross_left(b, a)
}

// ---------------------------------------------------------------- text

/// The digit character for `d < 10`.
pub open spec fn digit_char(d: nat) -> char {
    if d == 0 { '0' }
    else if d == 1 { '1' }
    else if d == 2 { '2' }
    else if d == 3 { '3' }
    else if d == 4 { '4' }
    else if d == 5 { '5' }
    else if d == 6 { '6' }
    else if d == 7 { '7' }
    else if d == 8 { '8' }
    else { '9' }
}

/// Decimal digits of `n`, most significant first, no leading zeros.
pub open spec fn nat_text(n: nat) -> Seq<char>
    decreases n,
{
    if n < 10 {
        seq![digit_char(n)]
    } else {
        nat_text(n / 10).push(digit_char(n % 10))
    }
}

/// Decimal text of an integer, with a leading `-` when negative.
pub open spec fn int_text(i: int) -> Seq<char> {
    if i < 0 { seq!['-'] + nat_text(abs(i)) } else { nat_text(abs(i)) }
}

/// The digits after the point of the fraction `r / d` (`r < d`): `k` of them
/// counted from the first nonzero digit (from the first digit when `started`),
/// stopping early once the remainder is zero.
pub open spec fn frac_digits(r: nat, d: nat, k: nat, started: bool) -> Seq<char>
    decreases k, d - r,
{
    if k == 0 || r == 0 || r >= d {
        seq![]
    } else {
        let q = (r * 10) / d;
        let now = started || q > 0;
        proof {
            lemma_digit_step(r, d);
        }
        seq![digit_char(q)] + frac_digits((r * 10) % d, d, if now { (k - 1) as nat } else { k }, now)
    }
}

/// One step of long division: the next digit is below ten, the remainder
/// stays below `d`, and a zero digit leaves the remainder ten times larger.
pub proof fn lemma_digit_step(r: nat, d: nat)
    requires
        0 < r < d,
    ensures
        (r * 10) / d < 10,
        (r * 10) % d < d,
        (r * 10) / d == 0 ==> (r * 10) % d == r * 10 && r * 10 < d,
{
    assert((r * 10) / d < 10) by (nonlinear_arith)
        requires
            0 < r < d,
    ;
    assert((r * 10) % d < d) by (nonlinear_arith)
        requires
            0 < d,
    ;
    assert((r * 10) / d == 0 ==> (r * 10) % d == r * 10 && r * 10 < d) by (nonlinear_arith)
        requires
            0 < r < d,
    ;
}

/// `s` without its trailing `'0'` characters.
pub open spec fn strip_zeros(s: Seq<char>) -> Seq<char>
    decreases s.len(),
{
    if s.len() > 0 && s.last() == '0' {
        strip_zeros(s.drop_last())
    } else {
        s
    }
}

/// Number of significant digits printed for a non-integer.
pub open spec fn sig_limit() -> nat {
    16
}

/// How many fractional digits are printed after the integer part `ip`, and
/// whether they count from the first one: the significant digits left after
/// those of a nonzero integer part.
pub open spec fn frac_budget(ip: nat) -> (nat, bool) {
    if ip == 0 {
        (sig_limit(), false)
    } else if nat_text(ip).len() >= sig_limit() {
        (0, true)
    } else {
        ((sig_limit() - nat_text(ip).len()) as nat, true)
    }
}

/// The remainder of `r / d` (`r < d`) left after its first `k` fractional
/// digits (zero once the expansion has ended).
pub open spec fn frac_rem(r: nat, d: nat, k: nat) -> nat
    decreases k,
{
    if k == 0 || r == 0 || r >= d {
        r
    } else {
        frac_rem((r * 10) % d, d, (k - 1) as nat)
    }
}

/// `d` with every factor `p` divided out (`p > 1`).
pub open spec fn strip_factor(d: nat, p: nat) -> nat
    decreases d,
{
    if d > 0 && p > 1 && d % p == 0 {
        proof {
            lemma_div_smaller(d, p);
        }
        strip_factor(d / p, p)
    } else {
        d
    }
}

/// How many times `p` divides `d` (`p > 1`, `d > 0`).
pub open spec fn factor_count(d: nat, p: nat) -> nat
    decreases d,
{
    if d > 0 && p > 1 && d % p == 0 {
        proof {
            lemma_div_smaller(d, p);
        }
        1 + factor_count(d / p, p)
    } else {
        0
    }
}

/// Whether fractions with denominator `d` have decimal expansions that end:
/// `d` is a product of twos and fives.
pub open spec fn expansion_ends(d: nat) -> bool {
    strip_factor(strip_factor(d, 2), 5) == 1
}

/// The places after which such an expansion has ended.
pub open spec fn expansion_places(d: nat) -> nat {
    let a = factor_count(d, 2);
    let b = factor_count(strip_factor(d, 2), 5);
    if a >= b { a } else { b }
}

/// The fractional digits printed for `r / d` (`r < d`): the whole expansion
/// when it ends, otherwise the digits within the significant-digit budget
/// `b`, without trailing zeros.
pub open spec fn printed_fraction(r: nat, d: nat, b: (nat, bool)) -> Seq<char> {
    if expansion_ends(d) {
        frac_digits(r, d, expansion_places(d), true)
    } else {
        strip_zeros(frac_digits(r, d, b.0, b.1))
    }
}

/// How a number is printed: an integer in plain decimal; otherwise the sign,
/// the integer part, a point and the fractional digits: all of them when the
/// decimal expansion ends (so the text reads back as the same number), else
/// sixteen significant digits without trailing zeros (the integer part alone
/// if no fractional digit remains).
pub open spec fn num_text(n: SNum) -> Seq<char> {
    if n.den == 1 {
        int_text(n.num)
    } else {
        let a = abs(n.num);
        let d = abs(n.den);
        let ip = a / d;
        let fd = printed_fraction(a % d, d, frac_budget(ip));
        if fd.len() == 0 {
            int_text(if n.num < 0 { -(ip as int) } else { ip as int })
        } else {
            (if n.num < 0 { seq!['-'] } else { Seq::<char>::empty() }) + nat_text(ip) + seq!['.'] + fd
        }
    }
}

// ---------------------------------------------------------------- lemmas

pub proof fn lemma_div_smaller(d: nat, p: nat)
    requires
        d > 0,
        p > 1,
    ensures
        d / p < d,
{
    assert(d / p < d) by (nonlinear_arith)
        requires
            d > 0,
            p > 1,
    ;
}

pub proof fn lemma_pos_mul(x: nat, y: nat)
    requires
        x > 0,
        y > 0,
    ensures
        x * y > 0,
{
    assert(x * y > 0) by (nonlinear_arith)
        requires
            x > 0,
            y > 0,
    ;
}

pub proof fn lemma_pow10_pos(k: nat)
    ensures
        pow10(k) >= 1,
    decreases k,
{
    if k > 0 {
        lemma_pow10_pos((k - 1) as nat);
    }
}

/// The gcd of `a` and a positive `b` is positive and divides both.
pub proof fn lemma_gcd_divides(a: nat, b: nat)
    ensures
        b > 0 ==> gcd(a, b) > 0 && a % gcd(a, b) == 0 && b % gcd(a, b) == 0,
        b == 0 ==> gcd(a, b) == a,
    decreases b,
{
    if b > 0 {
        lemma_gcd_divides(b, a % b);
        let g = gcd(b, a % b);
        if a % b == 0 {
            assert(g == b);
            assert(b % b == 0) by (nonlinear_arith)
                requires
                    b > 0,
            ;
        } else {
            vstd::arithmetic::div_mod::lemma_fundamental_div_mod(a as int, b as int);
            let q = a / b;
            let r = a % b;
            let bq = b / g;
            let rq = r / g;
            vstd::arithmetic::div_mod::lemma_fundamental_div_mod(b as int, g as int);
            vstd::arithmetic::div_mod::lemma_fundamental_div_mod(r as int, g as int);
            assert(a == (q * bq + rq) * g) by (nonlinear_arith)
                requires
                    a == b * q + r,
                    b == g * bq,
                    r == g * rq,
            ;
            assert(q * bq + rq >= 0) by (nonlinear_arith)
                requires
                    q >= 0,
                    bq >= 0,
                    rq >= 0,
            ;
            vstd::arithmetic::div_mod::lemma_fundamental_div_mod_converse(a as int, g as int, (q * bq + rq) as int, 0);
        }
    }
}

/// When `r * 10^s` is a multiple of `d`, the expansion of `r / d` has at most
/// `s` digits, and no remainder is left after `k >= s` places.
pub proof fn lemma_frac_ends(r: nat, d: nat, s: nat, k: nat)
    requires
        r < d,
        (r * pow10(s)) % d == 0,
    ensures
        s <= k ==> frac_rem(r, d, k) == 0,
        frac_digits(r, d, k, true).len() <= s,
    decreases s,
{
    if r > 0 && k > 0 {
        if s == 0 {
            assert(r * pow10(0) == r) by (nonlinear_arith)
                requires
                    pow10(0) == 1,
            ;
            vstd::arithmetic::div_mod::lemma_small_mod(r, d);
        } else {
            lemma_digit_step(r, d);
            let q = (r * 10) / d;
            let r2 = (r * 10) % d;
            let s1 = (s - 1) as nat;
            let e = pow10(s1);
            vstd::arithmetic::div_mod::lemma_fundamental_div_mod((r * 10) as int, d as int);
            assert(pow10(s) == 10 * e);
            assert(r * pow10(s) == d * (q * e) + r2 * e) by (nonlinear_arith)
                requires
                    r * 10 == d * q + r2,
                    pow10(s) == 10 * e,
            ;
            vstd::arithmetic::div_mod::lemma_mod_multiples_vanish((q * e) as int, (r2 * e) as int, d as int);
            lemma_frac_ends(r2, d, s1, (k - 1) as nat);
        }
    } else if r > 0 && k == 0 && s == 0 {
        assert(r * pow10(0) == r) by (nonlinear_arith)
            requires
                pow10(0) == 1,
        ;
        vstd::arithmetic::div_mod::lemma_small_mod(r, d);
    }
}

/// `p^k`.
pub open spec fn power(p: nat, k: nat) -> nat
    decreases k,
{
    if k == 0 { 1 } else { p * power(p, (k - 1) as nat) }
}

proof fn lemma_power_add(p: nat, a: nat, b: nat)
    ensures
        power(p, a + b) == power(p, a) * power(p, b),
    decreases a,
{
    if a > 0 {
        lemma_power_add(p, (a - 1) as nat, b);
        assert((a + b - 1) as nat == (a - 1) as nat + b);
        let x = power(p, (a - 1) as nat);
        let y = power(p, b);
        assert(p * (x * y) == (p * x) * y) by (nonlinear_arith);
        assert(power(p, a + b) == p * power(p, (a + b - 1) as nat));
        assert(power(p, a) == p * x);
    } else {
        assert(power(p, 0) == 1);
        assert(a + b == b);
        assert(1 * power(p, b) == power(p, b));
    }
}

proof fn lemma_pow10_split(k: nat)
    ensures
        pow10(k) == power(2, k) * power(5, k),
    decreases k,
{
    if k > 0 {
        lemma_pow10_split((k - 1) as nat);
        let x = power(2, (k - 1) as nat);
        let y = power(5, (k - 1) as nat);
        assert(10 * (x * y) == (2 * x) * (5 * y)) by (nonlinear_arith);
        assert(power(2, k) == 2 * x);
        assert(power(5, k) == 5 * y);
        assert(pow10(k) == 10 * pow10((k - 1) as nat));
        assert(pow10(k) == power(2, k) * power(5, k)) by (nonlinear_arith)
            requires
                pow10(k) == 10 * pow10((k - 1) as nat),
                pow10((k - 1) as nat) == x * y,
                power(2, k) == 2 * x,
                power(5, k) == 5 * y,
        ;
    } else {
        assert(power(2, 0) == 1 && power(5, 0) == 1 && pow10(0) == 1);
        assert(pow10(k) == 1);
        assert(power(2, k) == 1);
        assert(power(5, k) == 1);
        assert(pow10(k) == power(2, k) * power(5, k));
    }
}

/// `d` is `p^count` times what is left after stripping `p`.
pub proof fn lemma_strip(d: nat, p: nat)
    requires
        d > 0,
        p > 1,
    ensures
        d == power(p, factor_count(d, p)) * strip_factor(d, p),
        strip_factor(d, p) > 0,
        strip_factor(d, p) % p != 0,
    decreases d,
{
    if d % p == 0 {
        lemma_div_smaller(d, p);
        vstd::arithmetic::div_mod::lemma_fundamental_div_mod(d as int, p as int);
        assert(d / p > 0) by (nonlinear_arith)
            requires
                d == p * (d / p),
                d > 0,
        ;
        lemma_strip(d / p, p);
        let x = power(p, factor_count(d / p, p));
        let y = strip_factor(d / p, p);
        assert(p * (x * y) == (p * x) * y) by (nonlinear_arith);
        assert(factor_count(d, p) == 1 + factor_count(d / p, p));
        assert(strip_factor(d, p) == y);
        assert(power(p, factor_count(d, p)) == p * x);
    } else {
        assert(factor_count(d, p) == 0);
        assert(strip_factor(d, p) == d);
        assert(power(p, 0) == 1);
    }
}

/// When the expansion of fractions over `d` ends, `10^places` is a multiple of `d`.
pub proof fn lemma_ends_divides(d: nat)
    requires
        d > 0,
        expansion_ends(d),
    ensures
        pow10(expansion_places(d)) % d == 0,
{
    let d2 = strip_factor(d, 2);
    lemma_strip(d, 2);
    lemma_strip(d2, 5);
    let a = factor_count(d, 2);
    let b = factor_count(d2, 5);
    let k = expansion_places(d);
    assert(d == power(2, a) * power(5, b));
    lemma_pow10_split(k);
    lemma_power_add(2, a, (k - a) as nat);
    lemma_power_add(5, b, (k - b) as nat);
    let x = power(2, (k - a) as nat);
    let y = power(5, (k - b) as nat);
    assert(pow10(k) == d * (x * y)) by (nonlinear_arith)
        requires
            pow10(k) == power(2, k) * power(5, k),
            power(2, k) == power(2, a) * x,
            power(5, k) == power(5, b) * y,
            d == power(2, a) * power(5, b),
    ;
    vstd::arithmetic::div_mod::lemma_mod_multiples_basic((x * y) as int, d as int);
    assert((x * y) * d == d * (x * y)) by (nonlinear_arith);
}

// ---------------------------------------------------------------- exec

/// The fraction `±n / d` in lowest terms.
fn normalize_exec(neg: bool, n: Vec<u8>, d: Vec<u8>) -> (r: Number)
    requires
        digits_ok(n@),
        digits_ok(d@),
        dval(d@) > 0,
    ensures
        r@ == normalize(if neg { -(dval(n@) as int) } else { dval(n@) as int }, dval(d@) as int),
{
    let g = big_gcd(&n, &d);
    let ghost nv = dval(n@);
    let ghost dv = dval(d@);
    let ghost gv = dval(g@);
    proof {
        lemma_gcd_divides(nv, dv);
        vstd::arithmetic::div_mod::lemma_fundamental_div_mod(nv as int, gv as int);
        vstd::arithmetic::div_mod::lemma_fundamental_div_mod(dv as int, gv as int);
    }
    let (q, _) = divmod(&n, &g);
    let (dd, _) = divmod(&d, &g);
    assert(dval(dd@) > 0) by (nonlinear_arith)
        requires
            dv == gv * dval(dd@),
            dv > 0,
    ;
    assert(nv > 0 <==> dval(q@) > 0) by (nonlinear_arith)
        requires
            nv == gv * dval(q@),
            gv > 0,
    ;
    let qz = is_zero(&q);
    let r = Number { neg: neg && !qz, num: q, den: dd };
    let ghost num = if neg { -(nv as int) } else { nv as int };
    assert(abs(num) == nv);
    assert(gcd(abs(num), dv) == gv);
    r
}

/// `±n1 + ±n2` as a sign and a magnitude.
fn signed_add(n1: &Vec<u8>, neg1: bool, n2: &Vec<u8>, neg2: bool) -> (r: (Vec<u8>, bool))
    requires
        digits_ok(n1@),
        digits_ok(n2@),
    ensures
        digits_ok(r.0@),
        (if r.1 { -(dval(r.0@) as int) } else { dval(r.0@) as int })
            == (if neg1 { -(dval(n1@) as int) } else { dval(n1@) as int })
            + (if neg2 { -(dval(n2@) as int) } else { dval(n2@) as int }),
{
    if neg1 == neg2 {
        (big_add(n1, n2), neg1)
    } else {
        let (diff, lt) = big_sub(n1, n2);
        if !lt {
            (diff, neg1)
        } else {
            let (diff2, _) = big_sub(n2, n1);
            (diff2, neg2)
        }
    }
}

/// Appends the decimal digits of the value of `ds` from position `i` on.
fn write_big_from(ds: &Vec<u8>, i: usize, out: &mut Vec<char>)
    requires
        digits_ok(ds@),
        i <= ds@.len(),
    ensures
        final(out)@ == old(out)@ + nat_text(dval(ds@.subrange(i as int, ds@.len() as int))),
    decreases ds@.len() - i,
{
    let ghost s = ds@.subrange(i as int, ds@.len() as int);
    if i >= ds.len() {
        assert(s =~= Seq::<u8>::empty());
        out.push('0');
        assert(seq![digit_char(0)] =~= nat_text(0));
        return;
    }
    let ghost rest = ds@.subrange(i + 1, ds@.len() as int);
    assert(s.drop_first() =~= rest);
    let d0 = ds[i];
    assert(d0 < 10);
    let rest_zero = zero_from(ds, i + 1);
    if rest_zero {
        assert(dval(s) == d0);
        out.push(digit(d0 as u64));
        assert(seq![digit_char(d0 as nat)] =~= nat_text(d0 as nat));
    } else {
        write_big_from(ds, i + 1, out);
        out.push(digit(d0 as u64));
        proof {
            let v = dval(s);
            assert(v == d0 + 10 * dval(rest));
            assert(v >= 10);
            vstd::arithmetic::div_mod::lemma_fundamental_div_mod_converse(v as int, 10, dval(rest) as int, d0 as int);
        }
    }
}

/// Whether the digits of `ds` from position `i` on are all zero.
fn zero_from(ds: &Vec<u8>, i: usize) -> (r: bool)
    requires
        i <= ds@.len(),
    ensures
        r == (dval(ds@.subrange(i as int, ds@.len() as int)) == 0),
{
    let ghost s = ds@.subrange(i as int, ds@.len() as int);
    proof {
        crate::bignat::lemma_dval_zero(s);
    }
    let mut j = i;
    while j < ds.len()
        invariant
            i <= j <= ds@.len(),
            s == ds@.subrange(i as int, ds@.len() as int),
            forall|k: int| 0 <= k < j - i ==> #[trigger] s[k] == 0,
        decreases ds@.len() - j,
    {
        if ds[j] != 0 {
            assert(s[j - i] != 0);
            proof {
                crate::bignat::lemma_dval_zero(s);
            }
            return false;
        }
        j = j + 1;
    }
    proof {
        crate::bignat::lemma_dval_zero(s);
    }
    true
}

/// Appends the decimal digits of the value of `ds`.
pub fn write_big(ds: &Vec<u8>, out: &mut Vec<char>)
    requires
        digits_ok(ds@),
    ensures
        final(out)@ == old(out)@ + nat_text(dval(ds@)),
{
    assert(ds@.subrange(0, ds@.len() as int) =~= ds@);
    write_big_from(ds, 0, out);
}

/// Whether fractions over `d` have decimal expansions that end.
fn expansion_ends_exec(d: &Vec<u8>) -> (r: bool)
    requires
        digits_ok(d@),
        dval(d@) > 0,
    ensures
        r == expansion_ends(dval(d@)),
{
    let two = from_u64(2);
    let five = from_u64(5);
    let x = strip_exec(d, &two);
    let y = strip_exec(&x, &five);
    let one = from_u64(1);
    let (_, lt1) = big_sub(&y, &one);
    let (_, lt2) = big_sub(&one, &y);
    !lt1 && !lt2
}

/// `d` with every factor `p` divided out.
fn strip_exec(d: &Vec<u8>, p: &Vec<u8>) -> (r: Vec<u8>)
    requires
        digits_ok(d@),
        digits_ok(p@),
        dval(p@) > 1,
    ensures
        digits_ok(r@),
        dval(r@) == strip_factor(dval(d@), dval(p@)),
{
    let mut x = copy_digits(d);
    loop
        invariant
            digits_ok(x@),
            digits_ok(p@),
            dval(p@) > 1,
            strip_factor(dval(x@), dval(p@)) == strip_factor(dval(d@), dval(p@)),
        decreases dval(x@),
    {
        if is_zero(&x) {
            return x;
        }
        let (q, m) = divmod(&x, p);
        if !is_zero(&m) {
            return x;
        }
        proof {
            lemma_div_smaller(dval(x@), dval(p@));
        }
        x = q;
    }
}

/// The digits of `r / d` after the point, `k` of them counted from the first
/// nonzero one (from the first when `started`), stopping when nothing remains.
fn frac_digits_exec(r: &Vec<u8>, d: &Vec<u8>, k: u64, started: bool) -> (s: Vec<char>)
    requires
        digits_ok(r@),
        digits_ok(d@),
        dval(r@) < dval(d@),
    ensures
        s@ == frac_digits(dval(r@), dval(d@), k as nat, started),
    decreases k, dval(d@) - dval(r@),
{
    if k == 0 || is_zero(r) {
        return Vec::new();
    }
    proof {
        lemma_digit_step(dval(r@), dval(d@));
    }
    let (q, m, dc) = digit_step(r, d);
    let now = started || q > 0;
    let k2 = if now { k - 1 } else { k };
    let mut s = Vec::new();
    s.push(dc);
    let rest = frac_digits_exec(&m, d, k2, now);
    push_chars(&mut s, rest.as_slice());
    s
}

/// One step of long division of `r / d`: the next digit, its character and
/// the new remainder.
fn digit_step(r: &Vec<u8>, d: &Vec<u8>) -> (res: (u8, Vec<u8>, char))
    requires
        digits_ok(r@),
        digits_ok(d@),
        0 < dval(r@) < dval(d@),
    ensures
        res.0 as nat == (dval(r@) * 10) / dval(d@),
        res.0 < 10,
        digits_ok(res.1@),
        dval(res.1@) == (dval(r@) * 10) % dval(d@),
        res.2 == digit_char(res.0 as nat),
{
    proof {
        lemma_digit_step(dval(r@), dval(d@));
    }
    let r10 = shift(r, 1);
    assert(pow10(1) == 10) by {
        reveal_with_fuel(pow10, 2);
    }
    let (q, m) = divmod(&r10, d);
    let qd = small_value(&q);
    (qd, m, digit(qd as u64))
}

/// The whole decimal expansion of `r / d`, which ends within `expansion_places(d)` places.
fn frac_exact_exec(r: &Vec<u8>, d: &Vec<u8>) -> (s: Vec<char>)
    requires
        digits_ok(r@),
        digits_ok(d@),
        dval(r@) < dval(d@),
        expansion_ends(dval(d@)),
    ensures
        s@ == frac_digits(dval(r@), dval(d@), expansion_places(dval(d@)), true),
{
    let ghost dv = dval(d@);
    let ghost kk = expansion_places(dv);
    proof {
        lemma_ends_divides(dv);
        vstd::arithmetic::div_mod::lemma_mul_mod_noop_right(dval(r@) as int, pow10(kk) as int, dv as int);
        assert((dval(r@) * pow10(kk)) % dv == 0) by {
            vstd::arithmetic::div_mod::lemma_mul_mod_noop_right(dval(r@) as int, pow10(kk) as int, dv as int);
            assert((dval(r@) * 0) % dv == 0) by (nonlinear_arith)
                requires
                    dv > 0,
            ;
        }
        lemma_frac_ends(dval(r@), dv, kk, kk);
    }
    let mut out: Vec<char> = Vec::new();
    let mut rr = copy_digits(r);
    let ghost mut i: nat = 0;
    while !is_zero(&rr)
        invariant
            digits_ok(rr@),
            digits_ok(d@),
            dv == dval(d@),
            dv > 0,
            dval(rr@) < dv,
            i <= kk,
            out@ + frac_digits(dval(rr@), dv, (kk - i) as nat, true) == frac_digits(dval(r@), dv, kk, true),
            frac_rem(dval(rr@), dv, (kk - i) as nat) == 0,
        decreases kk - i,
    {
        proof {
            if i == kk {
                assert(frac_rem(dval(rr@), dv, 0) == dval(rr@));
            }
        }
        let (q, m, dc) = digit_step(&rr, d);
        let ghost before = out@;
        out.push(dc);
        proof {
            let f = frac_digits(dval(rr@), dv, (kk - i) as nat, true);
            assert(f == seq![dc] + frac_digits(dval(m@), dv, (kk - i - 1) as nat, true));
            assert(before.push(dc) + frac_digits(dval(m@), dv, (kk - i - 1) as nat, true) =~= before + f);
            i = i + 1;
        }
        rr = m;
    }
    assert(frac_digits(0, dv, (kk - i) as nat, true) =~= Seq::<char>::empty());
    assert(out@ + Seq::<char>::empty() =~= out@);
    out
}

impl Number {
    /// The integer `n`.
    pub fn from_i64(n: i64) -> (r: Number)
        ensures
            r@ == (SNum { num: n as int, den: 1 }),
    {
        let m: u64 = if n < 0 { (-(n as i128)) as u64 } else { n as u64 };
        let num = from_u64(m);
        let den = from_u64(1);
        Number { neg: n < 0, num, den }
    }

    /// The integer `n`.
    pub fn from_u64(n: u64) -> (r: Number)
        ensures
            r@ == (SNum { num: n as int, den: 1 }),
    {
        let num = from_u64(n);
        let den = from_u64(1);
        Number { neg: false, num, den }
    }

    /// The number `mantissa / 10^scale`, in lowest terms.
    pub fn decimal(mantissa: i64, scale: u32) -> (r: Number)
        ensures
            r@ == normalize(mantissa as int, pow10(scale as nat) as int),
    {
        let m: u64 = if mantissa < 0 { (-(mantissa as i128)) as u64 } else { mantissa as u64 };
        let num = from_u64(m);
        let one = from_u64(1);
        let den = shift(&one, scale as usize);
        proof { lemma_pow10_pos(scale as nat); }
        normalize_exec(mantissa < 0, num, den)
    }

    /// The fraction `±digits / 10^scale` in lowest terms, for digits `m`
    /// (least significant first).
    pub(crate) fn from_decimal_digits(neg: bool, m: Vec<u8>, scale: usize) -> (r: Number)
        requires
            digits_ok(m@),
        ensures
            r@ == normalize(if neg { -(dval(m@) as int) } else { dval(m@) as int }, pow10(scale as nat) as int),
    {
        let one = from_u64(1);
        let den = shift(&one, scale);
        proof { lemma_pow10_pos(scale as nat); }
        normalize_exec(neg, m, den)
    }

    /// A copy of this number.
    pub fn copy(&self) -> (r: Number)
        ensures
            r@ == self@,
    {
        proof {
            use_type_invariant(self);
        }
        Number { neg: self.neg, num: copy_digits(&self.num), den: copy_digits(&self.den) }
    }

    /// Whether this number is zero.
    pub fn is_zero(&self) -> (r: bool)
        ensures
            r == num_is_zero(self@),
    {
        is_zero(&self.num)
    }

    /// The magnitudes `|self| * other.den` and `|other| * self.den`.
    fn cross(&self, other: &Number) -> (r: (Vec<u8>, Vec<u8>))
        ensures
            digits_ok(r.0@),
            digits_ok(r.1@),
            cross_left(self@, other@) == (if self.neg { -(dval(r.0@) as int) } else { dval(r.0@) as int }),
            cross_left(other@, self@) == (if other.neg { -(dval(r.1@) as int) } else { dval(r.1@) as int }),
            self.neg ==> dval(r.0@) > 0,
            other.neg ==> dval(r.1@) > 0,
    {
        proof {
            use_type_invariant(self);
            use_type_invariant(other);
        }
        let p = big_mul(&self.num, &other.den);
        let q = big_mul(&other.num, &self.den);
        proof {
            let a = dval(self.num@);
            let b = dval(other.num@);
            let da = dval(self.den@);
            let db = dval(other.den@);
            assert((-(a as int)) * db == -((a * db) as int)) by (nonlinear_arith);
            assert((-(b as int)) * da == -((b * da) as int)) by (nonlinear_arith);
            assert(self.neg ==> a * db > 0) by (nonlinear_arith)
                requires
                    self.neg ==> a > 0,
                    db > 0,
            ;
            assert(other.neg ==> b * da > 0) by (nonlinear_arith)
                requires
                    other.neg ==> b > 0,
                    da > 0,
            ;
        }
        (p, q)
    }

    /// Whether `self < other`.
    pub fn less_than(&self, other: &Number) -> (r: bool)
        ensures
            r == num_lt(self@, other@),
    {
        let (p, q) = self.cross(other);
        if !self.neg && !other.neg {
            big_sub(&p, &q).1
        } else if self.neg && other.neg {
            big_sub(&q, &p).1
        } else {
            self.neg
        }
    }

    /// Whether `self` and `other` are the same number.
    pub fn equals(&self, other: &Number) -> (r: bool)
        ensures
            r == num_eq(self@, other@),
    {
        let (p, q) = self.cross(other);
        if self.neg != other.neg {
            return false;
        }
        let (_, lt1) = big_sub(&p, &q);
        let (_, lt2) = big_sub(&q, &p);
        !lt1 && !lt2
    }

    /// `self + other`.
    pub fn add(&self, other: &Number) -> (r: Number)
        ensures
            r@ == num_add(self@, other@),
    {
        proof {
            use_type_invariant(self);
            use_type_invariant(other);
        }
        let (p, q) = self.cross(other);
        let (m, neg) = signed_add(&p, self.neg, &q, other.neg);
        let d = big_mul(&self.den, &other.den);
        proof {
            lemma_pos_mul(dval(self.den@), dval(other.den@));
        }
        normalize_exec(neg, m, d)
    }

    /// `self - other`.
    pub fn sub(&self, other: &Number) -> (r: Number)
        ensures
            r@ == num_sub(self@, other@),
    {
        proof {
            use_type_invariant(self);
            use_type_invariant(other);
        }
        let (p, q) = self.cross(other);
        let (m, neg) = signed_add(&p, self.neg, &q, !other.neg);
        let d = big_mul(&self.den, &other.den);
        proof {
            lemma_pos_mul(dval(self.den@), dval(other.den@));
        }
        normalize_exec(neg, m, d)
    }

    /// `self * other`.
    pub fn mul(&self, other: &Number) -> (r: Number)
        ensures
            r@ == num_mul(self@, other@),
    {
        proof {
            use_type_invariant(self);
            use_type_invariant(other);
        }
        let m = big_mul(&self.num, &other.num);
        let d = big_mul(&self.den, &other.den);
        proof {
            lemma_pos_mul(dval(self.den@), dval(other.den@));
            let a = dval(self.num@);
            let b = dval(other.num@);
            assert((if self.neg { -(a as int) } else { a as int }) * (if other.neg { -(b as int) } else { b as int })
                == (if self.neg != other.neg { -((a * b) as int) } else { (a * b) as int })) by (nonlinear_arith);
        }
        normalize_exec(self.neg != other.neg, m, d)
    }

    /// `self / other`, for a nonzero `other`.
    pub fn div(&self, other: &Number) -> (r: Number)
        requires
            !num_is_zero(other@),
        ensures
            r@ == num_div(self@, other@),
    {
        proof {
            use_type_invariant(self);
            use_type_invariant(other);
        }
        let m = big_mul(&self.num, &other.den);
        let d = big_mul(&self.den, &other.num);
        proof {
            let a = dval(self.num@);
            let b = dval(other.num@);
            let da = dval(self.den@);
            let db = dval(other.den@);
            assert(b > 0);
            lemma_pos_mul(da, b);
            assert(-((if self.neg { -(a as int) } else { a as int }) * db) == (if !self.neg { -((a * db) as int) } else { (a * db) as int })) by (nonlinear_arith);
            assert((if self.neg { -(a as int) } else { a as int }) * db == (if self.neg { -((a * db) as int) } else { (a * db) as int })) by (nonlinear_arith);
            assert(da * (-(-(b as int))) == da * b);
        }
        normalize_exec(self.neg != other.neg, m, d)
    }

    /// Appends the printed form of this number to `out`.
    pub fn write_text(&self, out: &mut Vec<char>)
        ensures
            final(out)@ == old(out)@ + num_text(self@),
    {
        proof {
            use_type_invariant(self);
        }
        let ghost a = dval(self.num@);
        let ghost dv = dval(self.den@);
        let one = from_u64(1);
        let (_, lt1) = big_sub(&self.den, &one);
        let (_, lt2) = big_sub(&one, &self.den);
        if !lt1 && !lt2 {
            assert(dv == 1);
            if self.neg {
                out.push('-');
                write_big(&self.num, out);
                assert(out@ =~= old(out)@ + (seq!['-'] + nat_text(a)));
            } else {
                write_big(&self.num, out);
            }
            return;
        }
        let (ip, r) = divmod(&self.num, &self.den);
        let ghost ipv = dval(ip@);
        let mut ip_text: Vec<char> = Vec::new();
        write_big(&ip, &mut ip_text);
        assert(ip_text@ =~= nat_text(ipv));
        let ip_zero = is_zero(&ip);
        let (k, started) = if ip_zero {
            (16u64, false)
        } else if ip_text.len() >= 16 {
            (0u64, true)
        } else {
            ((16 - ip_text.len()) as u64, true)
        };
        let fd = if expansion_ends_exec(&self.den) {
            frac_exact_exec(&r, &self.den)
        } else {
            let mut cut = frac_digits_exec(&r, &self.den, k, started);
            strip_zeros_exec(&mut cut);
            cut
        };
        proof {
            assert(abs(self@.num) == a);
            assert(abs(self@.den) == dv);
        }
        if fd.len() == 0 {
            if self.neg && !ip_zero {
                out.push('-');
                write_big(&ip, out);
                assert(int_text(-(ipv as int)) =~= seq!['-'] + nat_text(ipv));
                assert(out@ =~= old(out)@ + int_text(-(ipv as int)));
            } else {
                write_big(&ip, out);
                assert(ipv == 0 ==> int_text(-(ipv as int)) == nat_text(0));
            }
        } else {
            let ghost start = out@;
            if self.neg {
                out.push('-');
            }
            write_big(&ip, out);
            out.push('.');
            push_chars(out, fd.as_slice());
            proof {
                let sign = if self@.num < 0 { seq!['-'] } else { Seq::<char>::empty() };
                assert(out@ =~= start + (sign + nat_text(ipv) + seq!['.'] + fd@));
            }
        }
    }
}

/// The character of the digit `d`.
fn digit(d: u64) -> (c: char)
    requires
        d < 10,
    ensures
        c == digit_char(d as nat),
{
    if d == 0 { '0' }
    else if d == 1 { '1' }
    else if d == 2 { '2' }
    else if d == 3 { '3' }
    else if d == 4 { '4' }
    else if d == 5 { '5' }
    else if d == 6 { '6' }
    else if d == 7 { '7' }
    else if d == 8 { '8' }
    else { '9' }
}

/// Appends the decimal digits of `n` to `out`.
pub fn write_nat(n: u64, out: &mut Vec<char>)
    ensures
        final(out)@ == old(out)@ + nat_text(n as nat),
    decreases n,
{
    if n < 10 {
        out.push(digit(n));
        assert(seq![digit_char(n as nat)] =~= nat_text(n as nat));
    } else {
        write_nat(n / 10, out);
        out.push(digit(n % 10));
    }
}

fn strip_zeros_exec(s: &mut Vec<char>)
    ensures
        final(s)@ == strip_zeros(old(s)@),
{
    while s.len() > 0 && s[s.len() - 1] == '0'
        invariant
            strip_zeros(s@) == strip_zeros(old(s)@),
        decreases s.len(),
    {
        s.pop();
    }
}

} // verus!

//! Natural numbers of any size, held as decimal digits, least significant
//! first: addition, subtraction with borrow, multiplication, division with
//! remainder, the greatest common divisor, and decimal text.

use vstd::prelude::*;
use crate::number::{gcd, pow10};

verus! {

/// The value of the digits `ds`, least significant first.
pub open spec fn dval(ds: Seq<u8>) -> nat
    decreases ds.len(),
{
    if ds.len() == 0 {
        0
    } else {
        ds[0] as nat + 10 * dval(ds.drop_first())
    }
}

/// Every element of `ds` is a decimal digit.
pub open spec fn digits_ok(ds: Seq<u8>) -> bool {
    forall|i: int| 0 <= i < ds.len() ==> #[trigger] ds[i] < 10
}

/// The value of the digits of `ds` below position `i`.
pub open spec fn low(ds: Seq<u8>, i: nat) -> nat {
    if i >= ds.len() {
        dval(ds)
    } else {
        dval(ds.take(i as int))
    }
}

/// The digit of `ds` at position `i` (zero beyond its end).
pub open spec fn digit_at(ds: Seq<u8>, i: nat) -> nat {
    if i < ds.len() {
        ds[i as int] as nat
    } else {
        0
    }
}

pub proof fn lemma_dval_prepend(c: u8, s: Seq<u8>)
    ensures
        dval(seq![c] + s) == c as nat + 10 * dval(s),
{
    assert((seq![c] + s).drop_first() =~= s);
}

pub proof fn lemma_dval_push(s: Seq<u8>, c: u8)
    ensures
        dval(s.push(c)) == dval(s) + (c as nat) * pow10(s.len()),
    decreases s.len(),
{
    if s.len() == 0 {
        assert(s.push(c).drop_first() =~= Seq::<u8>::empty());
        assert(dval(s.push(c)) == c as nat + 10 * dval(Seq::<u8>::empty()));
    } else {
        let t = s.drop_first();
        lemma_dval_push(t, c);
        assert(s.push(c).drop_first() =~= t.push(c));
        let e = pow10(t.len());
        assert(pow10(s.len()) == 10 * e);
        assert(s[0] as nat + 10 * (dval(t) + (c as nat) * e) == (s[0] as nat + 10 * dval(t)) + (c as nat) * (10 * e)) by (nonlinear_arith);
    }
}

pub proof fn lemma_dval_bound(s: Seq<u8>)
    requires
        digits_ok(s),
    ensures
        dval(s) < pow10(s.len()),
    decreases s.len(),
{
    if s.len() > 0 {
        let t = s.drop_first();
        assert(digits_ok(t)) by {
            assert forall|i: int| 0 <= i < t.len() implies #[trigger] t[i] < 10 by {
                assert(t[i] == s[i + 1]);
            }
        }
        lemma_dval_bound(t);
        assert(s[0] < 10);
        assert(pow10(s.len()) == 10 * pow10(t.len()));
    }
}

pub proof fn lemma_dval_zero(s: Seq<u8>)
    ensures
        (dval(s) == 0) == (forall|i: int| 0 <= i < s.len() ==> #[trigger] s[i] == 0),
    decreases s.len(),
{
    if s.len() > 0 {
        let t = s.drop_first();
        lemma_dval_zero(t);
        if dval(s) == 0 {
            assert forall|i: int| 0 <= i < s.len() implies #[trigger] s[i] == 0 by {
                if i > 0 {
                    assert(s[i] == t[i - 1]);
                }
            }
        }
        if forall|i: int| 0 <= i < s.len() ==> #[trigger] s[i] == 0 {
            assert forall|i: int| 0 <= i < t.len() implies #[trigger] t[i] == 0 by {
                assert(t[i] == s[i + 1]);
            }
            assert(s[0] == 0);
        }
    }
}

proof fn lemma_low_step(s: Seq<u8>, i: nat)
    ensures
        low(s, i + 1) == low(s, i) + digit_at(s, i) * pow10(i),
{
    if i < s.len() {
        assert(s.take(i as int).push(s[i as int]) =~= s.take(i + 1int));
        lemma_dval_push(s.take(i as int), s[i as int]);
        if i + 1 == s.len() {
            assert(s.take(i + 1int) =~= s);
        }
    }
}

proof fn lemma_low_zero(s: Seq<u8>)
    ensures
        low(s, 0) == 0,
{
    if s.len() > 0 {
        assert(s.take(0) =~= Seq::<u8>::empty());
    }
}

proof fn lemma_push_ok(s: Seq<u8>, c: u8)
    requires
        digits_ok(s),
        c < 10,
    ensures
        digits_ok(s.push(c)),
{
    assert forall|k: int| 0 <= k < s.push(c).len() implies #[trigger] s.push(c)[k] < 10 by {
        if k < s.len() {
            assert(s.push(c)[k] == s[k]);
        }
    }
}

fn digit_of(s: &Vec<u8>, i: usize) -> (d: u8)
    requires
        digits_ok(s@),
    ensures
        d as nat == digit_at(s@, i as nat),
        d < 10,
{
    if i < s.len() {
        s[i]
    } else {
        0
    }
}

/// The digits of `x`.
pub fn from_u64(x: u64) -> (r: Vec<u8>)
    ensures
        digits_ok(r@),
        dval(r@) == x,
{
    let mut out: Vec<u8> = Vec::new();
    let mut y = x;
    assert(dval(out@) == 0);
    assert(pow10(0) == 1);
    assert(pow10(out@.len()) * y == y);
    while y > 0
        invariant
            digits_ok(out@),
            dval(out@) + pow10(out@.len()) * y == x,
        decreases y,
    {
        let ghost before = out@;
        let d = (y % 10) as u8;
        out.push(d);
        proof {
            lemma_push_ok(before, d);
            lemma_dval_push(before, d);
            let e = pow10(before.len());
            assert(pow10(out@.len()) == 10 * e);
            assert(e * y == e * (y % 10) + (10 * e) * (y / 10)) by (nonlinear_arith);
        }
        y = y / 10;
    }
    out
}

/// `a + b`.
pub fn big_add(a: &Vec<u8>, b: &Vec<u8>) -> (r: Vec<u8>)
    requires
        digits_ok(a@),
        digits_ok(b@),
    ensures
        digits_ok(r@),
        dval(r@) == dval(a@) + dval(b@),
{
    let n = if a.len() > b.len() { a.len() } else { b.len() };
    let mut out: Vec<u8> = Vec::new();
    let mut carry: u8 = 0;
    let mut i: usize = 0;
    proof {
        lemma_low_zero(a@);
        lemma_low_zero(b@);
    }
    while i < n
        invariant
            a.len() <= n,
            b.len() <= n,
            i <= n,
            out@.len() == i,
            digits_ok(a@),
            digits_ok(b@),
            digits_ok(out@),
            carry <= 1,
            dval(out@) + carry * pow10(i as nat) == low(a@, i as nat) + low(b@, i as nat),
        decreases n - i,
    {
        let da = digit_of(a, i);
        let db = digit_of(b, i);
        let s = da + db + carry;
        let ghost before = out@;
        out.push(s % 10);
        proof {
            lemma_push_ok(before, s % 10);
            lemma_dval_push(before, s % 10);
            lemma_low_step(a@, i as nat);
            lemma_low_step(b@, i as nat);
            let e = pow10(i as nat);
            assert(pow10((i + 1) as nat) == 10 * e);
            assert(dval(out@) + (s / 10) as nat * pow10((i + 1) as nat) == low(a@, (i + 1) as nat) + low(b@, (i + 1) as nat)) by (nonlinear_arith)
                requires
                    dval(out@) == dval(before) + (s % 10) as nat * e,
                    pow10((i + 1) as nat) == 10 * e,
                    dval(before) + carry * e == low(a@, i as nat) + low(b@, i as nat),
                    low(a@, (i + 1) as nat) == low(a@, i as nat) + da * e,
                    low(b@, (i + 1) as nat) == low(b@, i as nat) + db * e,
                    s == da + db + carry,
            ;
        }
        carry = s / 10;
        i = i + 1;
    }
    if carry > 0 {
        let ghost before = out@;
        out.push(carry);
        proof {
            lemma_push_ok(before, carry);
            lemma_dval_push(before, carry);
        }
    }
    out
}

/// `a - b` when `b <= a`; the flag tells whether `a < b` (and then the digits
/// hold `a - b + 10^n` for the length `n` of the longer operand).
pub fn big_sub(a: &Vec<u8>, b: &Vec<u8>) -> (r: (Vec<u8>, bool))
    requires
        digits_ok(a@),
        digits_ok(b@),
    ensures
        digits_ok(r.0@),
        r.1 == (dval(a@) < dval(b@)),
        !r.1 ==> dval(r.0@) == dval(a@) - dval(b@),
{
    let n = if a.len() > b.len() { a.len() } else { b.len() };
    let mut out: Vec<u8> = Vec::new();
    let mut borrow: u8 = 0;
    let mut i: usize = 0;
    proof {
        lemma_low_zero(a@);
        lemma_low_zero(b@);
    }
    while i < n
        invariant
            a.len() <= n,
            b.len() <= n,
            i <= n,
            out@.len() == i,
            digits_ok(a@),
            digits_ok(b@),
            digits_ok(out@),
            borrow <= 1,
            dval(out@) as int == low(a@, i as nat) as int - low(b@, i as nat) as int + borrow * pow10(i as nat),
        decreases n - i,
    {
        let da = digit_of(a, i);
        let db = digit_of(b, i);
        let ghost before = out@;
        let need = db + borrow;
        let d: u8;
        if da >= need {
            d = da - need;
            out.push(d);
            proof {
                lemma_push_ok(before, d);
                lemma_dval_push(before, d);
                lemma_low_step(a@, i as nat);
                lemma_low_step(b@, i as nat);
                let e = pow10(i as nat);
                assert(pow10((i + 1) as nat) == 10 * e);
                assert(d as int * e == da as int * e - db as int * e - borrow as int * e) by (nonlinear_arith)
                    requires
                        d == da - need,
                        need == db + borrow,
                ;
            }
            borrow = 0;
        } else {
            d = da + 10 - need;
            out.push(d);
            proof {
                lemma_push_ok(before, d);
                lemma_dval_push(before, d);
                lemma_low_step(a@, i as nat);
                lemma_low_step(b@, i as nat);
                let e = pow10(i as nat);
                assert(pow10((i + 1) as nat) == 10 * e);
                assert(d as int * e == da as int * e - db as int * e - borrow as int * e + 10 * e) by (nonlinear_arith)
                    requires
                        d == da + 10 - need,
                        need == db + borrow,
                ;
            }
            borrow = 1;
        }
        i = i + 1;
    }
    proof {
        lemma_dval_bound(out@);
    }
    (out, borrow == 1)
}

/// `a * d` for a single digit `d`.
fn mul_digit(a: &Vec<u8>, d: u8) -> (r: Vec<u8>)
    requires
        digits_ok(a@),
        d < 10,
    ensures
        digits_ok(r@),
        dval(r@) == dval(a@) * d,
{
    let mut out: Vec<u8> = Vec::new();
    let mut carry: u8 = 0;
    let mut i: usize = 0;
    proof {
        lemma_low_zero(a@);
    }
    while i < a.len()
        invariant
            i <= a.len(),
            out@.len() == i,
            digits_ok(a@),
            digits_ok(out@),
            d < 10,
            carry <= 9,
            dval(out@) + carry * pow10(i as nat) == low(a@, i as nat) * d,
        decreases a.len() - i,
    {
        assert(a@[i as int] < 10);
        assert(a@[i as int] * d <= 81) by (nonlinear_arith)
            requires
                a@[i as int] < 10,
                d < 10,
        ;
        let s = a[i] * d + carry;
        let ghost before = out@;
        out.push(s % 10);
        proof {
            lemma_push_ok(before, s % 10);
            lemma_dval_push(before, s % 10);
            lemma_low_step(a@, i as nat);
            let e = pow10(i as nat);
            assert(pow10((i + 1) as nat) == 10 * e);
            assert(dval(out@) + (s / 10) as nat * pow10((i + 1) as nat) == low(a@, (i + 1) as nat) * d) by (nonlinear_arith)
                requires
                    dval(out@) == dval(before) + (s % 10) as nat * e,
                    pow10((i + 1) as nat) == 10 * e,
                    dval(before) + carry * e == low(a@, i as nat) * d,
                    low(a@, (i + 1) as nat) == low(a@, i as nat) + a@[i as int] as nat * e,
                    s == a@[i as int] * d + carry,
            ;
        }
        carry = s / 10;
        i = i + 1;
    }
    if carry > 0 {
        let ghost before = out@;
        out.push(carry);
        proof {
            lemma_push_ok(before, carry);
            lemma_dval_push(before, carry);
        }
    }
    out
}

/// `[c] + s`.
fn prepend(c: u8, s: &Vec<u8>) -> (r: Vec<u8>)
    requires
        digits_ok(s@),
        c < 10,
    ensures
        r@ == seq![c] + s@,
        digits_ok(r@),
        dval(r@) == c as nat + 10 * dval(s@),
{
    let mut out: Vec<u8> = Vec::new();
    out.push(c);
    let mut i: usize = 0;
    while i < s.len()
        invariant
            i <= s.len(),
            out@ == seq![c] + s@.take(i as int),
        decreases s.len() - i,
    {
        out.push(s[i]);
        i = i + 1;
        assert(out@ =~= seq![c] + s@.take(i as int));
    }
    assert(s@.take(s.len() as int) =~= s@);
    proof {
        lemma_dval_prepend(c, s@);
        assert forall|k: int| 0 <= k < out@.len() implies #[trigger] out@[k] < 10 by {
            if k > 0 {
                assert(out@[k] == s@[k - 1]);
            }
        }
    }
    out
}

/// `a * 10^k`.
pub fn shift(a: &Vec<u8>, k: usize) -> (r: Vec<u8>)
    requires
        digits_ok(a@),
    ensures
        digits_ok(r@),
        dval(r@) == dval(a@) * pow10(k as nat),
{
    let mut out = copy_digits(a);
    let mut j: usize = 0;
    assert(pow10(0) == 1);
    assert(dval(a@) * pow10(0) == dval(a@));
    while j < k
        invariant
            j <= k,
            digits_ok(out@),
            dval(out@) == dval(a@) * pow10(j as nat),
        decreases k - j,
    {
        out = prepend(0, &out);
        proof {
            assert(pow10((j + 1) as nat) == 10 * pow10(j as nat));
            assert(10 * (dval(a@) * pow10(j as nat)) == dval(a@) * (10 * pow10(j as nat))) by (nonlinear_arith);
        }
        j = j + 1;
    }
    out
}

/// A copy of `a`.
pub fn copy_digits(a: &Vec<u8>) -> (r: Vec<u8>)
    ensures
        r@ == a@,
{
    let mut out: Vec<u8> = Vec::new();
    let mut i: usize = 0;
    while i < a.len()
        invariant
            i <= a.len(),
            out@ == a@.take(i as int),
        decreases a.len() - i,
    {
        out.push(a[i]);
        i = i + 1;
        assert(out@ =~= a@.take(i as int));
    }
    assert(a@.take(a.len() as int) =~= a@);
    out
}

/// `a * b`.
pub fn big_mul(a: &Vec<u8>, b: &Vec<u8>) -> (r: Vec<u8>)
    requires
        digits_ok(a@),
        digits_ok(b@),
    ensures
        digits_ok(r@),
        dval(r@) == dval(a@) * dval(b@),
{
    let mut acc: Vec<u8> = Vec::new();
    let mut i: usize = 0;
    proof {
        lemma_low_zero(b@);
    }
    while i < b.len()
        invariant
            i <= b.len(),
            digits_ok(a@),
            digits_ok(b@),
            digits_ok(acc@),
            dval(acc@) == dval(a@) * low(b@, i as nat),
        decreases b.len() - i,
    {
        let part = mul_digit(a, b[i]);
        let sh = shift(&part, i);
        acc = big_add(&acc, &sh);
        proof {
            lemma_low_step(b@, i as nat);
            let e = pow10(i as nat);
            assert(dval(a@) * (low(b@, i as nat) + b@[i as int] as nat * e) == dval(a@) * low(b@, i as nat) + (dval(a@) * b@[i as int] as nat) * e) by (nonlinear_arith);
        }
        i = i + 1;
    }
    acc
}

/// Whether `a` is zero.
pub fn is_zero(a: &Vec<u8>) -> (r: bool)
    ensures
        r == (dval(a@) == 0),
{
    proof {
        lemma_dval_zero(a@);
    }
    let mut i: usize = 0;
    while i < a.len()
        invariant
            i <= a.len(),
            forall|k: int| 0 <= k < i ==> #[trigger] a@[k] == 0,
        decreases a.len() - i,
    {
        if a[i] != 0 {
            assert(a@[i as int] != 0);
            proof {
                lemma_dval_zero(a@);
            }
            return false;
        }
        i = i + 1;
    }
    assert(forall|k: int| 0 <= k < a@.len() ==> #[trigger] a@[k] == 0);
    proof {
        lemma_dval_zero(a@);
    }
    assert(dval(a@) == 0);
    true
}

/// `a / d` and `a % d`, for `d > 0`.
pub fn divmod(a: &Vec<u8>, d: &Vec<u8>) -> (r: (Vec<u8>, Vec<u8>))
    requires
        digits_ok(a@),
        digits_ok(d@),
        dval(d@) > 0,
    ensures
        digits_ok(r.0@),
        digits_ok(r.1@),
        dval(r.0@) == dval(a@) / dval(d@),
        dval(r.1@) == dval(a@) % dval(d@),
{
    let ghost dv = dval(d@);
    let mut q: Vec<u8> = Vec::new();
    let mut rem: Vec<u8> = Vec::new();
    let mut i: usize = a.len();
    assert(a@.subrange(a.len() as int, a.len() as int) =~= Seq::<u8>::empty());
    assert(dval(q@) == 0);
    assert(dval(rem@) == 0);
    assert(dval(q@) * dv + dval(rem@) == 0);
    while i > 0
        invariant
            i <= a.len(),
            digits_ok(a@),
            digits_ok(d@),
            dv == dval(d@),
            dv > 0,
            digits_ok(q@),
            digits_ok(rem@),
            dval(a@.subrange(i as int, a.len() as int)) == dval(q@) * dv + dval(rem@),
            dval(rem@) < dv,
        decreases i,
    {
        i = i - 1;
        let ghost hi_old = a@.subrange(i + 1, a.len() as int);
        let ghost hi = a@.subrange(i as int, a.len() as int);
        let ghost ai = a@[i as int] as nat;
        let ghost rem_old = dval(rem@);
        let ghost q_old = dval(q@);
        assert(hi =~= seq![a@[i as int]] + hi_old);
        proof {
            lemma_dval_prepend(a@[i as int], hi_old);
        }
        rem = prepend(a[i], &rem);
        let ghost start = dval(rem@);
        assert(start < 10 * dv) by (nonlinear_arith)
            requires
                start == ai + 10 * rem_old,
                ai < 10,
                rem_old < dv,
        ;
        let mut qd: u8 = 0;
        loop
            invariant
                digits_ok(rem@),
                digits_ok(d@),
                dv == dval(d@),
                dv > 0,
                dval(rem@) + qd * dv == start,
                start < 10 * dv,
                qd < 10,
            ensures
                digits_ok(rem@),
                dval(rem@) + qd * dv == start,
                dval(rem@) < dv,
                qd < 10,
            decreases dval(rem@),
        {
            let (diff, lt) = big_sub(&rem, d);
            if lt {
                break;
            }
            proof {
                assert((qd + 1) * dv <= start) by (nonlinear_arith)
                    requires
                        dval(rem@) >= dv,
                        dval(rem@) + qd * dv == start,
                ;
                assert(qd + 1 < 10) by (nonlinear_arith)
                    requires
                        (qd + 1) * dv <= start,
                        start < 10 * dv,
                        dv > 0,
                ;
            }
            assert(dval(diff@) + (qd + 1) * dv == start) by (nonlinear_arith)
                requires
                    dval(diff@) == dval(rem@) - dv,
                    dval(rem@) + qd * dv == start,
            ;
            rem = diff;
            qd = qd + 1;
        }
        q = prepend(qd, &q);
        assert(dval(a@.subrange(i as int, a.len() as int)) == dval(q@) * dv + dval(rem@)) by (nonlinear_arith)
            requires
                dval(hi) == ai + 10 * dval(hi_old),
                dval(hi_old) == q_old * dv + rem_old,
                start == ai + 10 * rem_old,
                dval(rem@) + qd * dv == start,
                dval(q@) == qd as nat + 10 * q_old,
                hi == a@.subrange(i as int, a.len() as int),
        ;
    }
    assert(a@.subrange(0, a.len() as int) =~= a@);
    proof {
        vstd::arithmetic::div_mod::lemma_fundamental_div_mod_converse(dval(a@) as int, dv as int, dval(q@) as int, dval(rem@) as int);
    }
    (q, rem)
}

/// The greatest common divisor of `a` and `b`.
pub fn big_gcd(a: &Vec<u8>, b: &Vec<u8>) -> (r: Vec<u8>)
    requires
        digits_ok(a@),
        digits_ok(b@),
    ensures
        digits_ok(r@),
        dval(r@) == gcd(dval(a@), dval(b@)),
{
    let mut x = copy_digits(a);
    let mut y = copy_digits(b);
    while !is_zero(&y)
        invariant
            digits_ok(x@),
            digits_ok(y@),
            gcd(dval(x@), dval(y@)) == gcd(dval(a@), dval(b@)),
        decreases dval(y@),
    {
        let (_, m) = divmod(&x, &y);
        x = y;
        y = m;
    }
    x
}

/// The value of `a`, which is below ten.
pub fn small_value(a: &Vec<u8>) -> (r: u8)
    requires
        digits_ok(a@),
        dval(a@) < 10,
    ensures
        r as nat == dval(a@),
        r < 10,
{
    if a.len() == 0 {
        0
    } else {
        assert(a@[0] < 10);
        assert(dval(a@) == a@[0] as nat + 10 * dval(a@.drop_first()));
        a[0]
    }
}

} // verus!

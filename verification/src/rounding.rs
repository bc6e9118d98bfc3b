//! Whether `f32` parsing gives a value above zero: correctly rounded parsing
//! gives zero exactly for the values up to 2^-150, half the least positive
//! `f32`, so a numeral reads as positive exactly when its decimal value
//! exceeds 2^-150. Decided here in exact integer arithmetic.
use vstd::prelude::*;

use crate::numeral::{
    all_digits, digit_value, digits_value, find_exp, find_exp_in, float_literal, is_digit,
    is_exponent, is_float_literal, is_infinity, is_mantissa, is_nan, is_number, mantissa_of,
    spells_in, unsigned_part,
};
use crate::text::{append_chars, copy_range, find, find_char, lemma_find_char};

verus! {

broadcast use vstd::seq_lib::group_seq_properties;

/// `b` to the power `e`.
pub open spec fn pow_n(b: nat, e: nat) -> nat
    decreases e,
{
    if e == 0 {
        1
    } else {
        b * pow_n(b, (e - 1) as nat)
    }
}

proof fn lemma_pow_add(b: nat, x: nat, y: nat)
    ensures
        pow_n(b, x + y) == pow_n(b, x) * pow_n(b, y),
    decreases y,
{
    if y == 0 {
        assert(x + y == x);
        assert(pow_n(b, 0) == 1);
    } else {
        let y1 = (y - 1) as nat;
        lemma_pow_add(b, x, y1);
        let p = pow_n(b, x);
        let q = pow_n(b, y1);
        assert(pow_n(b, x + y) == b * pow_n(b, x + y1));
        assert(pow_n(b, y) == b * q);
        assert(b * (p * q) == p * (b * q)) by (nonlinear_arith);
    }
}

proof fn lemma_pow_pos(b: nat, e: nat)
    requires
        b > 0,
    ensures
        pow_n(b, e) > 0,
    decreases e,
{
    if e > 0 {
        lemma_pow_pos(b, (e - 1) as nat);
        let q = pow_n(b, (e - 1) as nat);
        assert(b * q > 0) by (nonlinear_arith)
            requires
                b > 0,
                q > 0,
        ;
    }
}

proof fn lemma_pow_mono(b: nat, x: nat, y: nat)
    requires
        b > 0,
        x <= y,
    ensures
        pow_n(b, x) <= pow_n(b, y),
{
    lemma_pow_add(b, x, (y - x) as nat);
    assert(x + (y - x) as nat == y);
    lemma_pow_pos(b, (y - x) as nat);
    let p = pow_n(b, x);
    let q = pow_n(b, (y - x) as nat);
    assert(p <= p * q) by (nonlinear_arith)
        requires
            q >= 1,
    ;
}

proof fn lemma_mul_pow(a: nat, b: nat, e: nat)
    ensures
        pow_n(a, e) * pow_n(b, e) == pow_n(a * b, e),
    decreases e,
{
    if e > 0 {
        let e1 = (e - 1) as nat;
        lemma_mul_pow(a, b, e1);
        let p = pow_n(a, e1);
        let q = pow_n(b, e1);
        assert(pow_n(a, e) == a * p);
        assert(pow_n(b, e) == b * q);
        assert(pow_n(a * b, e) == (a * b) * pow_n(a * b, e1));
        let r = pow_n(a * b, e1);
        assert(p * q == r);
        assert((a * p) * (b * q) == (a * b) * (p * q)) by (nonlinear_arith);
        assert((a * b) * (p * q) == (a * b) * r);
        assert(pow_n(a, e) * pow_n(b, e) == (a * p) * (b * q));
        assert(pow_n(a, e) * pow_n(b, e) == pow_n(a * b, e));
    } else {
        assert(pow_n(a, e) == 1);
        assert(pow_n(b, e) == 1);
        assert(pow_n(a * b, e) == 1);
        assert(pow_n(a, e) * pow_n(b, e) == 1);
    }
}

/// 2^150.
pub open spec fn two_150() -> nat {
    1427247692705959881058285969449495136382746624nat
}

/// 5^150, the digits of 2^-150 after the decimal point's 45 zeros.
pub open spec fn five_150() -> nat {
    700649232162408535461864791644958065640130970938257885878534141944895541342930300743319094181060791015625nat
}

proof fn lemma_two_150()
    ensures
        pow_n(2, 150) == two_150(),
{
    reveal_with_fuel(pow_n, 11);
    assert(pow_n(2, 10) == 1024);
    lemma_pow_add(2, 10, 10);
    lemma_pow_add(2, 20, 10);
    lemma_pow_add(2, 30, 10);
    lemma_pow_add(2, 40, 10);
    lemma_pow_add(2, 50, 10);
    lemma_pow_add(2, 60, 10);
    lemma_pow_add(2, 70, 10);
    lemma_pow_add(2, 80, 10);
    lemma_pow_add(2, 90, 10);
    lemma_pow_add(2, 100, 10);
    lemma_pow_add(2, 110, 10);
    lemma_pow_add(2, 120, 10);
    lemma_pow_add(2, 130, 10);
    lemma_pow_add(2, 140, 10);
}

proof fn lemma_five_150()
    ensures
        pow_n(5, 150) == five_150(),
{
    reveal_with_fuel(pow_n, 11);
    assert(pow_n(5, 10) == 9765625);
    lemma_pow_add(5, 10, 10);
    lemma_pow_add(5, 20, 10);
    lemma_pow_add(5, 30, 10);
    lemma_pow_add(5, 40, 10);
    lemma_pow_add(5, 50, 10);
    lemma_pow_add(5, 60, 10);
    lemma_pow_add(5, 70, 10);
    lemma_pow_add(5, 80, 10);
    lemma_pow_add(5, 90, 10);
    lemma_pow_add(5, 100, 10);
    lemma_pow_add(5, 110, 10);
    lemma_pow_add(5, 120, 10);
    lemma_pow_add(5, 130, 10);
    lemma_pow_add(5, 140, 10);
}

/// 10^45 < 2^150 < 10^46.
proof fn lemma_two_150_between()
    ensures
        pow_n(10, 45) < two_150() < pow_n(10, 46),
{
    reveal_with_fuel(pow_n, 11);
    assert(pow_n(10, 5) == 100000);
    assert(pow_n(10, 6) == 1000000);
    assert(pow_n(10, 10) == 10000000000);
    lemma_pow_add(10, 10, 10);
    lemma_pow_add(10, 20, 10);
    lemma_pow_add(10, 30, 10);
    lemma_pow_add(10, 40, 5);
    lemma_pow_add(10, 40, 6);
}

/// A run of `n` zeros.
pub open spec fn zeros(n: nat) -> Seq<char> {
    Seq::new(n, |i: int| '0')
}

proof fn lemma_val_concat(a: Seq<char>, b: Seq<char>)
    ensures
        digits_value(a + b) == digits_value(a) * pow_n(10, b.len()) + digits_value(b),
    decreases b.len(),
{
    if b.len() == 0 {
        assert(a + b == a);
        assert(pow_n(10, 0) == 1);
    } else {
        let b1 = b.drop_last();
        lemma_val_concat(a, b1);
        assert((a + b).drop_last() == a + b1);
        assert((a + b).last() == b.last());
        let x = digits_value(a);
        let y = digits_value(b1);
        let p = pow_n(10, b1.len());
        let d = digit_value(b.last());
        assert(pow_n(10, b.len()) == 10 * p);
        assert((x * p + y) * 10 + d == x * (10 * p) + (y * 10 + d)) by (nonlinear_arith);
    }
}

proof fn lemma_val_bound(a: Seq<char>)
    requires
        all_digits(a),
    ensures
        digits_value(a) < pow_n(10, a.len()),
    decreases a.len(),
{
    if a.len() == 0 {
        assert(pow_n(10, 0) == 1);
    } else {
        let a1 = a.drop_last();
        assert(all_digits(a1)) by {
            assert forall|i: int| 0 <= i < a1.len() implies is_digit(#[trigger] a1[i]) by {
                assert(a1[i] == a[i]);
            }
        }
        lemma_val_bound(a1);
        assert(is_digit(a[a.len() - 1]));
        assert(digit_value(a.last()) <= 9);
        assert(pow_n(10, a.len()) == 10 * pow_n(10, a1.len()));
    }
}

proof fn lemma_val_zeros(n: nat)
    ensures
        digits_value(zeros(n)) == 0,
    decreases n,
{
    if n > 0 {
        assert(zeros(n).drop_last() == zeros((n - 1) as nat));
        lemma_val_zeros((n - 1) as nat);
        assert(zeros(n).last() == '0');
    } else {
        assert(zeros(n).len() == 0);
    }
}

proof fn lemma_val_lead(a: Seq<char>)
    requires
        all_digits(a),
        a.len() > 0,
        a[0] != '0',
    ensures
        digits_value(a) >= pow_n(10, (a.len() - 1) as nat),
{
    let h = seq![a[0]];
    let t = a.skip(1);
    assert(a == h + t);
    lemma_val_concat(h, t);
    assert(h.drop_last() =~= Seq::<char>::empty());
    assert(digits_value(Seq::<char>::empty()) == 0);
    assert(h.last() == a[0]);
    assert(digits_value(h) == digit_value(a[0]));
    assert(is_digit(a[0]));
    assert(digit_value(a[0]) >= 1);
    let p = pow_n(10, t.len());
    assert(digit_value(a[0]) * p >= p) by (nonlinear_arith)
        requires
            digit_value(a[0]) >= 1,
    ;
}

proof fn lemma_val_lex(a: Seq<char>, b: Seq<char>, i: int)
    requires
        all_digits(a),
        all_digits(b),
        a.len() == b.len(),
        0 <= i < a.len(),
        a.take(i) == b.take(i),
        a[i] > b[i],
    ensures
        digits_value(a) > digits_value(b),
{
    let ah = a.take(i + 1);
    let bh = b.take(i + 1);
    let at = a.skip(i + 1);
    let bt = b.skip(i + 1);
    assert(a == ah + at);
    assert(b == bh + bt);
    lemma_val_concat(ah, at);
    lemma_val_concat(bh, bt);
    assert(ah.drop_last() == a.take(i));
    assert(bh.drop_last() == b.take(i));
    assert(ah.last() == a[i]);
    assert(bh.last() == b[i]);
    assert(all_digits(bt)) by {
        assert forall|j: int| 0 <= j < bt.len() implies is_digit(#[trigger] bt[j]) by {
            assert(bt[j] == b[i + 1 + j]);
        }
    }
    lemma_val_bound(bt);
    assert(is_digit(a[i]) && is_digit(b[i]));
    let q = digits_value(a.take(i));
    let da = digit_value(a[i]);
    let db = digit_value(b[i]);
    assert(da >= db + 1);
    let w = pow_n(10, at.len());
    assert(bt.len() == at.len());
    let ra = digits_value(at);
    let rb = digits_value(bt);
    assert((q * 10 + da) * w + ra > (q * 10 + db) * w + rb) by (nonlinear_arith)
        requires
            da >= db + 1,
            rb < w,
    ;
}

/// `m · 10^k` exceeds 2^-150, half the least positive `f32`: correctly
/// rounded (ties to even) parsing gives a value above zero exactly then.
pub open spec fn above_half_least(m: nat, k: int) -> bool {
    if k >= 0 {
        m > 0
    } else {
        m * pow_n(2, 150) > pow_n(10, (-k) as nat)
    }
}

/// How `above_half_least` is decided for a value `m` of `len` digits (no
/// leading zero) times `10^k`: by the place of its leading digit, and when that
/// is the 45th after the decimal point, by comparing with the digits of 5^150.
proof fn lemma_decide(m: nat, len: nat, k: int)
    requires
        len >= 1,
        pow_n(10, (len - 1) as nat) <= m < pow_n(10, len),
    ensures
        k + len >= -44 ==> above_half_least(m, k),
        k + len <= -46 ==> !above_half_least(m, k),
        k + len == -45 ==> (above_half_least(m, k) <==> m * pow_n(10, 105) > five_150() * pow_n(
            10,
            len,
        )),
{
    lemma_two_150();
    lemma_two_150_between();
    lemma_pow_pos(10, (len - 1) as nat);
    if k >= 0 {
        return;
    }
    let e = (-k) as nat;
    let t = two_150();
    let me = pow_n(10, e);
    if k + len >= -44 {
        let a = pow_n(10, (len - 1) as nat);
        lemma_pow_add(10, (len - 1) as nat, 45);
        assert((len - 1) as nat + 45 == len + 44);
        lemma_pow_mono(10, e, (len + 44) as nat);
        let b = pow_n(10, 45);
        assert(m * t > a * b) by (nonlinear_arith)
            requires
                m >= a,
                a > 0,
                t > b,
        ;
    } else if k + len <= -46 {
        let p = pow_n(10, len);
        let q = pow_n(10, 46);
        lemma_pow_add(10, len, 46);
        lemma_pow_mono(10, (len + 46) as nat, e);
        assert(m * t < p * q) by (nonlinear_arith)
            requires
                m < p,
                t < q,
                t > 0,
        ;
    } else {
        let c = five_150();
        lemma_five_150();
        lemma_mul_pow(2, 5, 150);
        lemma_pow_add(10, 105, 45);
        lemma_pow_add(10, len, 45);
        assert(e == len + 45);
        let g = pow_n(10, 45);
        let h = pow_n(10, 105);
        let p = pow_n(10, len);
        lemma_pow_pos(10, 45);
        lemma_pow_pos(5, 150);
        // m·2^150 > 10^(len+45)  <=>  m·10^150 > c·10^(len+45)  <=>  m·10^105 > c·10^len
        assert(t * c == h * g);
        assert(me == p * g);
        assert((m * t > me) <==> ((m * t) * c > me * c)) by (nonlinear_arith)
            requires
                c > 0,
        ;
        assert((m * t) * c == (m * h) * g) by (nonlinear_arith)
            requires
                t * c == h * g,
        ;
        assert(me * c == (c * p) * g) by (nonlinear_arith)
            requires
                me == p * g,
        ;
        assert(((m * h) * g > (c * p) * g) <==> (m * h > c * p)) by (nonlinear_arith)
            requires
                g > 0,
        ;
    }
}

/// Padding both sides with zeros to a common length keeps the comparison of
/// `m · 10^105` with `c · 10^len`.
proof fn lemma_padded(d: Seq<char>, cd: Seq<char>, n: nat)
    requires
        cd.len() == 105,
        d.len() <= n,
        105 <= n,
        n == d.len() || n == 105,
    ensures
        (digits_value(d) * pow_n(10, 105) > digits_value(cd) * pow_n(10, d.len())) <==> (
        digits_value(d + zeros((n - d.len()) as nat)) > digits_value(cd + zeros((n - 105) as nat))),
{
    let zd = (n - d.len()) as nat;
    let zc = (n - 105) as nat;
    let g = (d.len() + 105 - n) as nat;
    lemma_val_concat(d, zeros(zd));
    lemma_val_concat(cd, zeros(zc));
    lemma_val_zeros(zd);
    lemma_val_zeros(zc);
    lemma_pow_add(10, zd, g);
    lemma_pow_add(10, zc, g);
    assert(zd + g == 105);
    assert(zc + g == d.len());
    lemma_pow_pos(10, g);
    let m = digits_value(d);
    let c = digits_value(cd);
    let pd = pow_n(10, zd);
    let pc = pow_n(10, zc);
    let pg = pow_n(10, g);
    assert((m * (pd * pg) > c * (pc * pg)) <==> (m * pd > c * pc)) by (nonlinear_arith)
        requires
            pg > 0,
    ;
}

/// Digits 1 to 15 of 5^150.
pub open spec fn five_chunk_1() -> Seq<char> {
    seq!['7', '0', '0', '6', '4', '9', '2', '3', '2', '1', '6', '2', '4', '0', '8']
}

/// Digits 16 to 30 of 5^150.
pub open spec fn five_chunk_2() -> Seq<char> {
    seq!['5', '3', '5', '4', '6', '1', '8', '6', '4', '7', '9', '1', '6', '4', '4']
}

/// Digits 31 to 45 of 5^150.
pub open spec fn five_chunk_3() -> Seq<char> {
    seq!['9', '5', '8', '0', '6', '5', '6', '4', '0', '1', '3', '0', '9', '7', '0']
}

/// Digits 46 to 60 of 5^150.
pub open spec fn five_chunk_4() -> Seq<char> {
    seq!['9', '3', '8', '2', '5', '7', '8', '8', '5', '8', '7', '8', '5', '3', '4']
}

/// Digits 61 to 75 of 5^150.
pub open spec fn five_chunk_5() -> Seq<char> {
    seq!['1', '4', '1', '9', '4', '4', '8', '9', '5', '5', '4', '1', '3', '4', '2']
}

/// Digits 76 to 90 of 5^150.
pub open spec fn five_chunk_6() -> Seq<char> {
    seq!['9', '3', '0', '3', '0', '0', '7', '4', '3', '3', '1', '9', '0', '9', '4']
}

/// Digits 91 to 105 of 5^150.
pub open spec fn five_chunk_7() -> Seq<char> {
    seq!['1', '8', '1', '0', '6', '0', '7', '9', '1', '0', '1', '5', '6', '2', '5']
}

/// The 105 digits of 5^150.
pub open spec fn five_150_digits() -> Seq<char> {
    five_chunk_1() + five_chunk_2() + five_chunk_3() + five_chunk_4() + five_chunk_5()
        + five_chunk_6() + five_chunk_7()
}

proof fn lemma_all_digits_concat(a: Seq<char>, b: Seq<char>)
    requires
        all_digits(a),
        all_digits(b),
    ensures
        all_digits(a + b),
{
    assert forall|i: int| 0 <= i < (a + b).len() implies is_digit(#[trigger] (a + b)[i]) by {
        if i < a.len() {
            assert((a + b)[i] == a[i]);
        } else {
            assert((a + b)[i] == b[i - a.len()]);
        }
    }
}

proof fn lemma_five_chunk_1()
    ensures
        digits_value(five_chunk_1()) == 700649232162408nat,
        all_digits(five_chunk_1()),
        five_chunk_1().len() == 15,
{
    reveal_with_fuel(digits_value, 16);
}

proof fn lemma_five_chunk_2()
    ensures
        digits_value(five_chunk_2()) == 535461864791644nat,
        all_digits(five_chunk_2()),
        five_chunk_2().len() == 15,
{
    reveal_with_fuel(digits_value, 16);
}

proof fn lemma_five_chunk_3()
    ensures
        digits_value(five_chunk_3()) == 958065640130970nat,
        all_digits(five_chunk_3()),
        five_chunk_3().len() == 15,
{
    reveal_with_fuel(digits_value, 16);
}

proof fn lemma_five_chunk_4()
    ensures
        digits_value(five_chunk_4()) == 938257885878534nat,
        all_digits(five_chunk_4()),
        five_chunk_4().len() == 15,
{
    reveal_with_fuel(digits_value, 16);
}

proof fn lemma_five_chunk_5()
    ensures
        digits_value(five_chunk_5()) == 141944895541342nat,
        all_digits(five_chunk_5()),
        five_chunk_5().len() == 15,
{
    reveal_with_fuel(digits_value, 16);
}

proof fn lemma_five_chunk_6()
    ensures
        digits_value(five_chunk_6()) == 930300743319094nat,
        all_digits(five_chunk_6()),
        five_chunk_6().len() == 15,
{
    reveal_with_fuel(digits_value, 16);
}

proof fn lemma_five_chunk_7()
    ensures
        digits_value(five_chunk_7()) == 181060791015625nat,
        all_digits(five_chunk_7()),
        five_chunk_7().len() == 15,
{
    reveal_with_fuel(digits_value, 16);
}

#[verifier::rlimit(30)]
proof fn lemma_five_150_digits()
    ensures
        five_150_digits().len() == 105,
        all_digits(five_150_digits()),
        digits_value(five_150_digits()) == five_150(),
{
    reveal_with_fuel(pow_n, 16);
    assert(pow_n(10, 15) == 1000000000000000nat);
    lemma_five_chunk_1();
    lemma_five_chunk_2();
    lemma_five_chunk_3();
    lemma_five_chunk_4();
    lemma_five_chunk_5();
    lemma_five_chunk_6();
    lemma_five_chunk_7();
    lemma_val_concat(five_chunk_1(), five_chunk_2());
    lemma_all_digits_concat(five_chunk_1(), five_chunk_2());
    lemma_val_concat(five_chunk_1() + five_chunk_2(), five_chunk_3());
    lemma_all_digits_concat(five_chunk_1() + five_chunk_2(), five_chunk_3());
    lemma_val_concat(five_chunk_1() + five_chunk_2() + five_chunk_3(), five_chunk_4());
    lemma_all_digits_concat(five_chunk_1() + five_chunk_2() + five_chunk_3(), five_chunk_4());
    lemma_val_concat(five_chunk_1() + five_chunk_2() + five_chunk_3() + five_chunk_4(), five_chunk_5());
    lemma_all_digits_concat(five_chunk_1() + five_chunk_2() + five_chunk_3() + five_chunk_4(), five_chunk_5());
    lemma_val_concat(five_chunk_1() + five_chunk_2() + five_chunk_3() + five_chunk_4() + five_chunk_5(), five_chunk_6());
    lemma_all_digits_concat(five_chunk_1() + five_chunk_2() + five_chunk_3() + five_chunk_4() + five_chunk_5(), five_chunk_6());
    lemma_val_concat(five_chunk_1() + five_chunk_2() + five_chunk_3() + five_chunk_4() + five_chunk_5() + five_chunk_6(), five_chunk_7());
    lemma_all_digits_concat(five_chunk_1() + five_chunk_2() + five_chunk_3() + five_chunk_4() + five_chunk_5() + five_chunk_6(), five_chunk_7());
}

/// The value of an exponent, `Sign? Digit+`.
pub open spec fn signed_value(x: Seq<char>) -> int {
    let d = unsigned_part(x);
    if x.len() > 0 && x[0] == '-' {
        -(digits_value(d) as int)
    } else {
        digits_value(d) as int
    }
}

/// The digits of a mantissa with its point removed.
pub open spec fn mantissa_digits(m: Seq<char>) -> Seq<char> {
    match find_char(m, '.') {
        None => m,
        Some(i) => m.take(i) + m.skip(i + 1),
    }
}

/// How many digits of a mantissa follow its point.
pub open spec fn fraction_len(m: Seq<char>) -> int {
    match find_char(m, '.') {
        None => 0,
        Some(i) => m.len() - i - 1,
    }
}

/// The power of ten that scales the mantissa digits of a number: its
/// exponent less the digits after the point.
pub open spec fn scale_of(b: Seq<char>) -> int {
    let x = match find_exp(b) {
        None => 0,
        Some(i) => signed_value(b.skip(i + 1)),
    };
    x - fraction_len(mantissa_of(b))
}

/// A float literal that `f32` parsing reads as a value greater than zero: no
/// minus sign, not NaN, and either infinite or a number whose decimal value
/// exceeds 2^-150 (smaller values round to zero).
pub open spec fn is_positive_literal(s: Seq<char>) -> bool {
    let b = unsigned_part(s);
    &&& is_float_literal(s)
    &&& !(s.len() > 0 && s[0] == '-')
    &&& !is_nan(b)
    &&& (is_infinity(b) || above_half_least(
        digits_value(mantissa_digits(mantissa_of(b))),
        scale_of(b),
    ))
}

/// 2^70, past which an exponent's size alone decides the comparison.
pub open spec fn exp_cap() -> int {
    1180591620717411303424
}

/// The exponent text at `lo`, its value clamped to within 2^70 of zero.
fn exponent_at(s: &Vec<char>, lo: usize) -> (r: i128)
    requires
        lo <= s.len(),
        is_exponent(s@.skip(lo as int)),
    ensures
        signed_value(s@.skip(lo as int)) >= exp_cap() ==> r == exp_cap(),
        signed_value(s@.skip(lo as int)) <= -exp_cap() ==> r == -exp_cap(),
        -exp_cap() < signed_value(s@.skip(lo as int)) < exp_cap() ==> r == signed_value(
            s@.skip(lo as int),
        ),
{
    let ghost x = s@.skip(lo as int);
    assert(x.len() > 0);
    assert(x[0] == s@[lo as int]);
    let neg = s[lo] == '-';
    let ds = if s[lo] == '+' || s[lo] == '-' { lo + 1 } else { lo };
    let ghost d = unsigned_part(x);
    proof {
        assert(d == s@.subrange(ds as int, s.len() as int));
    }
    let cap: u128 = 1180591620717411303424;
    let mut acc: u128 = 0;
    let mut i = ds;
    while i < s.len()
        invariant
            ds <= i <= s.len(),
            d == s@.subrange(ds as int, s.len() as int),
            all_digits(d),
            cap == exp_cap(),
            acc as int == if digits_value(s@.subrange(ds as int, i as int)) >= exp_cap() {
                exp_cap()
            } else {
                digits_value(s@.subrange(ds as int, i as int)) as int
            },
        decreases s.len() - i,
    {
        proof {
            let p = s@.subrange(ds as int, i as int + 1);
            assert(p.drop_last() == s@.subrange(ds as int, i as int));
            assert(p.last() == s@[i as int]);
            assert(d[i - ds] == s@[i as int]);
            assert(is_digit(s@[i as int]));
        }
        let dv = (s[i] as u32 - '0' as u32) as u128;
        if acc < cap {
            let v = acc * 10 + dv;
            acc = if v > cap { cap } else { v };
        }
        i = i + 1;
    }
    proof {
        assert(s@.subrange(ds as int, i as int) == d);
    }
    if neg {
        -(acc as i128)
    } else {
        acc as i128
    }
}

/// The mantissa's digits with the point removed, and the number of digits
/// after the point.
fn mantissa_digits_of(m: &Vec<char>) -> (r: (Vec<char>, usize))
    requires
        is_mantissa(m@),
    ensures
        r.0@ == mantissa_digits(m@),
        r.1 == fraction_len(m@),
        all_digits(r.0@),
        r.0@.len() <= m@.len(),
{
    proof {
        lemma_find_char(m@, '.');
    }
    match find(m, '.') {
        None => (copy_range(m, 0, m.len()), 0),
        Some(i) => {
            proof {
                assert(find_char(m@, '.') == Some(i as int));
                assert(i < m.len());
            }
            let mut d = copy_range(m, 0, i);
            let rest = copy_range(m, i + 1, m.len());
            proof {
                assert(d@ == m@.take(i as int));
                assert(rest@ == m@.skip(i + 1));
                lemma_all_digits_concat(d@, rest@);
            }
            append_chars(&mut d, &rest);
            (d, m.len() - i - 1)
        },
    }
}

/// Appends `n` zeros.
fn pad_zeros(v: &mut Vec<char>, n: usize)
    ensures
        final(v)@ == old(v)@ + zeros(n as nat),
{
    let ghost v0 = v@;
    let mut k: usize = 0;
    while k < n
        invariant
            k <= n,
            v@ == v0 + zeros(k as nat),
        decreases n - k,
    {
        v.push('0');
        proof {
            assert(zeros((k + 1) as nat) =~= zeros(k as nat).push('0'));
            assert(v0 + zeros((k + 1) as nat) =~= (v0 + zeros(k as nat)).push('0'));
        }
        k = k + 1;
    }
}

proof fn lemma_zeros_digits(n: nat)
    ensures
        all_digits(zeros(n)),
{
}

/// The digits of 5^150.
fn five_150_vec() -> (r: Vec<char>)
    ensures
        r@ == five_150_digits(),
{
    let mut v: Vec<char> = vec!['7', '0', '0', '6', '4', '9', '2', '3', '2', '1', '6', '2', '4', '0', '8'];
    append_chars(&mut v, &vec!['5', '3', '5', '4', '6', '1', '8', '6', '4', '7', '9', '1', '6', '4', '4']);
    append_chars(&mut v, &vec!['9', '5', '8', '0', '6', '5', '6', '4', '0', '1', '3', '0', '9', '7', '0']);
    append_chars(&mut v, &vec!['9', '3', '8', '2', '5', '7', '8', '8', '5', '8', '7', '8', '5', '3', '4']);
    append_chars(&mut v, &vec!['1', '4', '1', '9', '4', '4', '8', '9', '5', '5', '4', '1', '3', '4', '2']);
    append_chars(&mut v, &vec!['9', '3', '0', '3', '0', '0', '7', '4', '3', '3', '1', '9', '0', '9', '4']);
    append_chars(&mut v, &vec!['1', '8', '1', '0', '6', '0', '7', '9', '1', '0', '1', '5', '6', '2', '5']);
    v
}

/// Whether the digits `a` have a greater value than the digits `b`, of the
/// same length.
fn digits_greater(a: &Vec<char>, b: &Vec<char>) -> (r: bool)
    requires
        a.len() == b.len(),
        all_digits(a@),
        all_digits(b@),
    ensures
        r == (digits_value(a@) > digits_value(b@)),
{
    let mut i: usize = 0;
    while i < a.len() && a[i] == b[i]
        invariant
            i <= a.len(),
            a.len() == b.len(),
            a@.take(i as int) == b@.take(i as int),
        decreases a.len() - i,
    {
        proof {
            assert(a@.take(i as int + 1) =~= a@.take(i as int).push(a@[i as int]));
            assert(b@.take(i as int + 1) =~= b@.take(i as int).push(b@[i as int]));
        }
        i = i + 1;
    }
    if i == a.len() {
        proof {
            assert(a@ == a@.take(i as int));
            assert(b@ == b@.take(i as int));
        }
        false
    } else if a[i] > b[i] {
        proof {
            lemma_val_lex(a@, b@, i as int);
        }
        true
    } else {
        proof {
            lemma_val_lex(b@, a@, i as int);
        }
        false
    }
}

/// Whether `f32` parsing reads `s` as a value greater than zero.
pub fn positive_literal(s: &Vec<char>) -> (r: bool)
    ensures
        r == is_positive_literal(s@),
{
    if !float_literal(s) {
        return false;
    }
    if s.len() > 0 && s[0] == '-' {
        return false;
    }
    let start = if s.len() > 0 && s[0] == '+' { 1 } else { 0 };
    let ghost b = unsigned_part(s@);
    proof {
        assert(b == s@.subrange(start as int, s.len() as int));
        assert(b == s@.skip(start as int));
    }
    let inf = vec!['i', 'n', 'f'];
    let infinity = vec!['i', 'n', 'f', 'i', 'n', 'i', 't', 'y'];
    let nan = vec!['n', 'a', 'n'];
    if spells_in(s, start, s.len(), &nan) {
        return false;
    }
    if spells_in(s, start, s.len(), &inf) || spells_in(s, start, s.len(), &infinity) {
        return true;
    }
    // A number: digits, an optional point, an optional exponent.
    let e = find_exp_in(s, start);
    let ghost m = mantissa_of(b);
    proof {
        assert(is_number(b));
        assert(m == s@.subrange(start as int, e as int));
        assert(is_mantissa(m));
        if e < s.len() {
            assert(b.skip(e - start + 1) == s@.skip(e + 1));
            assert(is_exponent(s@.skip(e + 1)));
        }
    }
    let mv = copy_range(s, start, e);
    let (dig, f) = mantissa_digits_of(&mv);
    let ghost mval = digits_value(dig@);
    let ghost scale = scale_of(b);
    proof {
        lemma_pow_pos(10, (-scale) as nat);
    }
    let d = match strip_zeros(&dig) {
        Some(d) => d,
        None => return false,
    };
    proof {
        lemma_val_lead(d@);
        lemma_val_bound(d@);
        lemma_decide(mval, d@.len(), scale);
    }
    let x: i128 = if e < s.len() {
        exponent_at(s, e + 1)
    } else {
        0
    };
    let t: i128 = x - f as i128 + d.len() as i128;
    proof {
        let xs: int = match find_exp(b) {
            None => 0,
            Some(i) => signed_value(b.skip(i + 1)),
        };
        assert(scale == xs - f);
        assert(f <= usize::MAX && d@.len() <= usize::MAX);
        if -exp_cap() < xs < exp_cap() {
            assert(t == scale + d@.len());
        }
    }
    if t >= -44 {
        return true;
    }
    if t <= -46 {
        return false;
    }
    // The leading digit is the 45th after the point: compare with 5^150.
    beyond_five_150(&d)
}

/// Whether `d · 10^105 > 5^150 · 10^len(d)`, by comparing the digits padded
/// to a common length.
fn beyond_five_150(d: &Vec<char>) -> (r: bool)
    requires
        all_digits(d@),
    ensures
        r == (digits_value(d@) * pow_n(10, 105) > five_150() * pow_n(10, d@.len())),
{
    let n: usize = if d.len() > 105 { d.len() } else { 105 };
    let mut dp = copy_range(d, 0, d.len());
    pad_zeros(&mut dp, n - d.len());
    let mut cp = five_150_vec();
    pad_zeros(&mut cp, n - 105);
    proof {
        assert(d@.subrange(0, d@.len() as int) == d@);
        lemma_five_150_digits();
        lemma_padded(d@, five_150_digits(), n as nat);
        lemma_zeros_digits((n - d.len()) as nat);
        lemma_zeros_digits((n - 105) as nat);
        lemma_all_digits_concat(d@, zeros((n - d.len()) as nat));
        lemma_all_digits_concat(five_150_digits(), zeros((n - 105) as nat));
    }
    digits_greater(&dp, &cp)
}

/// The digits without their leading zeros, or `None` when all are zeros
/// (the value is zero).
fn strip_zeros(dig: &Vec<char>) -> (r: Option<Vec<char>>)
    requires
        all_digits(dig@),
    ensures
        r is None ==> digits_value(dig@) == 0,
        r matches Some(d) ==> {
            &&& digits_value(d@) == digits_value(dig@)
            &&& all_digits(d@)
            &&& d@.len() > 0
            &&& d@[0] != '0'
            &&& d@.len() <= dig@.len()
        },
{
    let mut z: usize = 0;
    while z < dig.len() && dig[z] == '0'
        invariant
            z <= dig.len(),
            forall|j: int| 0 <= j < z ==> dig@[j] == '0',
        decreases dig.len() - z,
    {
        z = z + 1;
    }
    proof {
        assert(dig@.take(z as int) =~= zeros(z as nat));
        assert(dig@ == dig@.take(z as int) + dig@.skip(z as int));
        lemma_val_concat(zeros(z as nat), dig@.skip(z as int));
        lemma_val_zeros(z as nat);
    }
    if z == dig.len() {
        proof {
            assert(dig@.skip(z as int).len() == 0);
        }
        return None;
    }
    let d = copy_range(dig, z, dig.len());
    proof {
        assert(d@ == dig@.skip(z as int));
        assert(all_digits(d@)) by {
            assert forall|j: int| 0 <= j < d@.len() implies is_digit(#[trigger] d@[j]) by {
                assert(d@[j] == dig@[z + j]);
            }
        }
        assert(d@[0] == dig@[z as int]);
    }
    Some(d)
}

} // verus!

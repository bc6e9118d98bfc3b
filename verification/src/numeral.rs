//! Numerals: `u32` and `u8` parsing as std does it, decimal formatting, and the
//! syntax of the numerals that `f32` parsing accepts.
use vstd::prelude::*;



verus! {
use crate::text::{copy_range, find, find_char, lemma_find_char};

broadcast use vstd::seq_lib::group_seq_properties;

/// An ASCII decimal digit.
pub open spec fn is_digit(c: char) -> bool {
    '0' <= c && c <= '9'
}

/// Every character is a decimal digit.
pub open spec fn all_digits(d: Seq<char>) -> bool {
    forall|i: int| 0 <= i < d.len() ==> is_digit(#[trigger] d[i])
}

/// The value of a decimal digit.
pub open spec fn digit_value(c: char) -> nat {
    ((c as u32) - ('0' as u32)) as nat
}

/// The value of a string of decimal digits (most significant first).
pub open spec fn digits_value(d: Seq<char>) -> nat
    decreases d.len(),
{
    if d.len() == 0 {
        0
    } else {
        digits_value(d.drop_last()) * 10 + digit_value(d.last())
    }
}

/// The digits that remain once an optional leading `+` is removed.
pub open spec fn unsigned_digits(s: Seq<char>) -> Seq<char> {
    if s.len() > 0 && s[0] == '+' {
        s.drop_first()
    } else {
        s
    }
}

/// `u32::from_str`: an optional `+`, then at least one decimal digit, with a
/// value that fits in `u32`.
pub open spec fn parse_u32_spec(s: Seq<char>) -> Option<u32> {
    let d = unsigned_digits(s);
    if d.len() > 0 && all_digits(d) && digits_value(d) <= u32::MAX {
        Some(digits_value(d) as u32)
    } else {
        None
    }
}

proof fn lemma_digits_value_prefix(d: Seq<char>, k: int)
    requires
        0 <= k <= d.len(),
    ensures
        digits_value(d.take(k)) <= digits_value(d),
    decreases d.len() - k,
{
    if k < d.len() {
        assert(d.drop_last().take(k) == d.take(k));
        lemma_digits_value_prefix(d.drop_last(), k);
    } else {
        assert(d.take(k) == d);
    }
}

/// `u32::from_str`.
pub fn parse_u32(s: &Vec<char>) -> (r: Option<u32>)
    ensures
        r == parse_u32_spec(s@),
{
    let start: usize = if s.len() > 0 && s[0] == '+' { 1 } else { 0 };
    let ghost d = unsigned_digits(s@);
    proof {
        assert(d == s@.skip(start as int));
    }
    if start >= s.len() {
        return None;
    }
    let mut acc: u64 = 0;
    let mut i: usize = start;
    while i < s.len()
        invariant
            start <= i <= s.len(),
            start < s.len(),
            d == unsigned_digits(s@),
            d == s@.skip(start as int),
            acc <= u32::MAX,
            acc == digits_value(d.take(i - start)),
            all_digits(d.take(i - start)),
        decreases s.len() - i,
    {
        let c = s[i];
        if !('0' <= c && c <= '9') {
            proof {
                assert(d[i - start] == c);
                assert(!is_digit(d[i - start]));
            }
            return None;
        }
        let ghost p = d.take(i - start);
        let ghost q = d.take(i - start + 1);
        let v: u32 = (c as u32) - ('0' as u32);
        proof {
            assert(q.drop_last() == p);
            assert(q.last() == c);
            assert(digits_value(q) == digits_value(p) * 10 + v);
            assert forall|j: int| 0 <= j < q.len() implies is_digit(#[trigger] q[j]) by {
                if j < p.len() {
                    assert(q[j] == p[j]);
                }
            }
        }
        acc = acc * 10 + v as u64;
        if acc > 0xffff_ffff {
            proof {
                lemma_digits_value_prefix(d, i - start + 1);
            }
            return None;
        }
        i = i + 1;
    }
    proof {
        assert(d.take(i - start) == d);
    }
    Some(acc as u32)
}

/// The decimal digits of `n`, most significant first, without leading zeros
/// (`"0"` for zero): what `u32::to_string` produces.
pub open spec fn decimal(n: nat) -> Seq<char>
    decreases n,
{
    if n < 10 {
        seq![digit_char(n)]
    } else {
        decimal(n / 10).push(digit_char(n % 10))
    }
}

/// The character of a decimal digit.
pub open spec fn digit_char(k: nat) -> char {
    if k == 0 {
        '0'
    } else if k == 1 {
        '1'
    } else if k == 2 {
        '2'
    } else if k == 3 {
        '3'
    } else if k == 4 {
        '4'
    } else if k == 5 {
        '5'
    } else if k == 6 {
        '6'
    } else if k == 7 {
        '7'
    } else if k == 8 {
        '8'
    } else {
        '9'
    }
}

proof fn lemma_decimal_digits(n: nat)
    ensures
        decimal(n).len() > 0,
        all_digits(decimal(n)),
        digits_value(decimal(n)) == n,
        decimal(n).len() > 1 ==> decimal(n)[0] != '0',
    decreases n,
{
    assert(digit_value(digit_char(n % 10)) == n % 10);
    if n < 10 {
        let d = decimal(n);
        assert(d.drop_last() =~= Seq::<char>::empty());
        assert(digits_value(d.drop_last()) == 0);
        assert(digit_value(digit_char(n)) == n);
        assert(d.last() == digit_char(n));
        assert(digits_value(d) == n);
        assert(is_digit(d[0]));
    } else {
        vstd::arithmetic::div_mod::lemma_fundamental_div_mod(n as int, 10);
        lemma_decimal_digits(n / 10);
        if n / 10 < 10 {
            assert(digit_char(n / 10) != '0');
            assert(decimal(n / 10) == seq![digit_char(n / 10)]);
            assert(decimal(n / 10)[0] != '0');
        } else {
            lemma_decimal_digits(n / 100);
            assert(decimal(n / 10) == decimal(n / 10 / 10).push(digit_char(n / 10 % 10)));
            assert(decimal(n / 10).len() > 1);
            assert(decimal(n / 10)[0] != '0');
        }
        let d = decimal(n);
        assert(d.drop_last() == decimal(n / 10));
        assert forall|i: int| 0 <= i < d.len() implies is_digit(#[trigger] d[i]) by {
            if i < d.len() - 1 {
                assert(d[i] == decimal(n / 10)[i]);
            }
        }
        assert(d[0] == decimal(n / 10)[0]);
        assert(d.last() == digit_char(n % 10));
        assert(digits_value(d) == digits_value(decimal(n / 10)) * 10 + n % 10);
    }
}

/// Parsing a number's decimal text gives the number back.
pub proof fn lemma_parse_decimal(n: u32)
    ensures
        parse_u32_spec(decimal(n as nat)) == Some(n),
{
    lemma_decimal_digits(n as nat);
    let d = decimal(n as nat);
    assert(is_digit(d[0]));
}

/// `u32::to_string`.
pub fn u32_decimal(n: u32) -> (r: Vec<char>)
    ensures
        r@ == decimal(n as nat),
    decreases n,
{
    if n < 10 {
        let mut r: Vec<char> = Vec::new();
        r.push(char_of_digit(n));
        r
    } else {
        let mut r = u32_decimal(n / 10);
        r.push(char_of_digit(n % 10));
        r
    }
}

fn char_of_digit(d: u32) -> (c: char)
    requires
        d < 10,
    ensures
        c == digit_char(d as nat),
{
    match d {
        0 => '0',
        1 => '1',
        2 => '2',
        3 => '3',
        4 => '4',
        5 => '5',
        6 => '6',
        7 => '7',
        8 => '8',
        _ => '9',
    }
}


/// A sign character.
pub open spec fn is_sign(c: char) -> bool {
    c == '+' || c == '-'
}

/// `s` spells the lowercase ASCII word `w`, letters in either case.
pub open spec fn spells(s: Seq<char>, w: Seq<char>) -> bool {
    s.len() == w.len() && forall|i: int|
        0 <= i < s.len() ==> #[trigger] s[i] == w[i] || (s[i] as u32) + 32 == (w[i] as u32)
}

/// The text after an optional leading sign.
pub open spec fn unsigned_part(s: Seq<char>) -> Seq<char> {
    if s.len() > 0 && is_sign(s[0]) {
        s.drop_first()
    } else {
        s
    }
}

/// Position of the first exponent marker (`e` or `E`).
pub open spec fn find_exp(s: Seq<char>) -> Option<int>
    decreases s.len(),
{
    if s.len() == 0 {
        None
    } else if s[0] == 'e' || s[0] == 'E' {
        Some(0)
    } else {
        match find_exp(s.drop_first()) {
            Some(i) => Some(i + 1),
            None => None,
        }
    }
}

/// `Digit+ | Digit+ '.' Digit* | Digit* '.' Digit+`.
pub open spec fn is_mantissa(m: Seq<char>) -> bool {
    match find_char(m, '.') {
        None => m.len() > 0 && all_digits(m),
        Some(i) => all_digits(m.take(i)) && all_digits(m.skip(i + 1)) && (i > 0 || i + 1 < m.len()),
    }
}

/// `Sign? Digit+`.
pub open spec fn is_exponent(x: Seq<char>) -> bool {
    let d = unsigned_part(x);
    d.len() > 0 && all_digits(d)
}

/// `Mantissa ('e' Exponent)?`, the exponent marker in either case.
pub open spec fn is_number(b: Seq<char>) -> bool {
    match find_exp(b) {
        None => is_mantissa(b),
        Some(i) => is_mantissa(b.take(i)) && is_exponent(b.skip(i + 1)),
    }
}

/// The mantissa part of a number (the text before the exponent marker).
pub open spec fn mantissa_of(b: Seq<char>) -> Seq<char> {
    match find_exp(b) {
        None => b,
        Some(i) => b.take(i),
    }
}

/// `inf` or `infinity`, in any case.
pub open spec fn is_infinity(b: Seq<char>) -> bool {
    spells(b, seq!['i', 'n', 'f']) || spells(b, seq!['i', 'n', 'f', 'i', 'n', 'i', 't', 'y'])
}

/// `nan`, in any case.
pub open spec fn is_nan(b: Seq<char>) -> bool {
    spells(b, seq!['n', 'a', 'n'])
}

/// The text that `f32::from_str` accepts:
/// `Sign? ('inf' | 'infinity' | 'nan' | Number)`, case-insensitively.
pub open spec fn is_float_literal(s: Seq<char>) -> bool {
    let b = unsigned_part(s);
    is_infinity(b) || is_nan(b) || is_number(b)
}

/// Whether `s[lo..hi]` is all decimal digits.
pub fn digits_in(s: &Vec<char>, lo: usize, hi: usize) -> (b: bool)
    requires
        lo <= hi <= s.len(),
    ensures
        b == all_digits(s@.subrange(lo as int, hi as int)),
{
    let ghost t = s@.subrange(lo as int, hi as int);
    let mut i = lo;
    while i < hi
        invariant
            lo <= i <= hi <= s.len(),
            t == s@.subrange(lo as int, hi as int),
            forall|j: int| lo <= j < i ==> is_digit(#[trigger] s@[j]),
        decreases hi - i,
    {
        if !('0' <= s[i] && s[i] <= '9') {
            proof {
                assert(t[i - lo] == s@[i as int]);
                assert(!is_digit(t[i - lo]));
            }
            return false;
        }
        i = i + 1;
    }
    proof {
        assert forall|j: int| 0 <= j < t.len() implies is_digit(#[trigger] t[j]) by {
            assert(t[j] == s@[lo + j]);
        }
    }
    true
}

/// Whether `s[lo..hi]` spells the lowercase ASCII word `w` in any case.
pub(crate) fn spells_in(s: &Vec<char>, lo: usize, hi: usize, w: &Vec<char>) -> (b: bool)
    requires
        lo <= hi <= s.len(),
    ensures
        b == spells(s@.subrange(lo as int, hi as int), w@),
{
    let ghost t = s@.subrange(lo as int, hi as int);
    if hi - lo != w.len() {
        return false;
    }
    let mut k: usize = 0;
    while k < w.len()
        invariant
            lo <= hi <= s.len(),
            hi - lo == w.len(),
            t == s@.subrange(lo as int, hi as int),
            k <= w.len(),
            forall|j: int|
                0 <= j < k ==> #[trigger] t[j] == w@[j] || (t[j] as u32) + 32 == (w@[j] as u32),
        decreases w.len() - k,
    {
        let c = s[lo + k];
        let d = w[k];
        proof {
            assert(t[k as int] == c);
        }
        if !(c == d || ((d as u32) >= 32 && (c as u32) == (d as u32) - 32)) {
            return false;
        }
        k = k + 1;
    }
    true
}

pub(crate) fn find_exp_in(s: &Vec<char>, lo: usize) -> (r: usize)
    requires
        lo <= s.len(),
    ensures
        lo <= r <= s.len(),
        match find_exp(s@.skip(lo as int)) {
            Some(i) => r < s.len() && i == r - lo,
            None => r == s.len(),
        },
{
    let mut i = lo;
    while i < s.len() && s[i] != 'e' && s[i] != 'E'
        invariant
            lo <= i <= s.len(),
            forall|j: int| lo <= j < i ==> #[trigger] s@[j] != 'e' && s@[j] != 'E',
        decreases s.len() - i,
    {
        i = i + 1;
    }
    proof {
        lemma_find_exp_from(s@, lo as int, i as int);
    }
    i
}

proof fn lemma_find_exp_from(s: Seq<char>, lo: int, i: int)
    requires
        0 <= lo <= i <= s.len(),
        forall|j: int| lo <= j < i ==> #[trigger] s[j] != 'e' && s[j] != 'E',
        i < s.len() ==> (s[i] == 'e' || s[i] == 'E'),
    ensures
        match find_exp(s.skip(lo)) {
            Some(k) => i < s.len() && k == i - lo,
            None => i == s.len(),
        },
    decreases i - lo,
{
    let t = s.skip(lo);
    if lo < i {
        assert(t[0] == s[lo]);
        assert(t.drop_first() == s.skip(lo + 1));
        lemma_find_exp_from(s, lo + 1, i);
    } else if i < s.len() {
        assert(t[0] == s[i]);
    }
}

fn is_mantissa_in(s: &Vec<char>, lo: usize, hi: usize) -> (b: bool)
    requires
        lo <= hi <= s.len(),
    ensures
        b == is_mantissa(s@.subrange(lo as int, hi as int)),
{
    let m = copy_range(s, lo, hi);
    match find(&m, '.') {
        None => m.len() > 0 && digits_in(&m, 0, m.len()),
        Some(i) => {
            proof {
                lemma_find_char(m@, '.');
                assert(m@.subrange(0, i as int) == m@.take(i as int));
                assert(m@.subrange(i + 1, m@.len() as int) == m@.skip(i + 1));
            }
            digits_in(&m, 0, i) && digits_in(&m, i + 1, m.len()) && (i > 0 || i + 1 < m.len())
        },
    }
}

fn is_exponent_in(s: &Vec<char>, lo: usize) -> (b: bool)
    requires
        lo <= s.len(),
    ensures
        b == is_exponent(s@.skip(lo as int)),
{
    let ghost x = s@.skip(lo as int);
    let start = if lo < s.len() && (s[lo] == '+' || s[lo] == '-') { lo + 1 } else { lo };
    proof {
        if lo < s.len() {
            assert(x[0] == s@[lo as int]);
            assert(x.drop_first() == s@.skip(lo + 1));
        }
        assert(unsigned_part(x) == s@.subrange(start as int, s.len() as int));
    }
    start < s.len() && digits_in(s, start, s.len())
}

/// Whether `f32::from_str` accepts `s`.
pub fn float_literal(s: &Vec<char>) -> (b: bool)
    ensures
        b == is_float_literal(s@),
{
    let start = if s.len() > 0 && (s[0] == '+' || s[0] == '-') { 1 } else { 0 };
    let ghost b = unsigned_part(s@);
    proof {
        assert(b == s@.subrange(start as int, s.len() as int));
        assert(b == s@.skip(start as int));
    }
    let inf = vec!['i', 'n', 'f'];
    let infinity = vec!['i', 'n', 'f', 'i', 'n', 'i', 't', 'y'];
    let nan = vec!['n', 'a', 'n'];
    if spells_in(s, start, s.len(), &inf) || spells_in(s, start, s.len(), &infinity) || spells_in(
        s,
        start,
        s.len(),
        &nan,
    ) {
        return true;
    }
    let e = find_exp_in(s, start);
    if e == s.len() {
        is_mantissa_in(s, start, s.len())
    } else {
        proof {
            assert(b.take(e - start) == s@.subrange(start as int, e as int));
            assert(b.skip(e - start + 1) == s@.skip(e + 1));
        }
        is_mantissa_in(s, start, e) && is_exponent_in(s, e + 1)
    }
}

} // verus!

//! Deployment zones: which player a zone belongs to, and the `#rrggbb`
//! colours they are drawn in.
use vstd::prelude::*;

use crate::army_list::{utf8_len, utf8_width};
use crate::phase::Player;
use crate::text::{chars_of, copy_range, trim_start_char, trimmed_start_char};

verus! {

broadcast use vstd::seq_lib::group_seq_properties;

/// The side a zone is listed under in the pattern data.
#[derive(Debug, Clone, Copy, PartialEq, Eq, Structural)]
pub enum ZonePlayer {
    Attacker,
    Defender,
}

impl ZonePlayer {
    /// The player that deploys in the zone: the data lists each zone under
    /// the opposite side.
    pub fn to_player(&self) -> (r: Player)
        ensures
            r == match *self {
                ZonePlayer::Attacker => Player::Defender,
                ZonePlayer::Defender => Player::Attacker,
            },
    {
        match self {
            ZonePlayer::Attacker => Player::Defender,
            ZonePlayer::Defender => Player::Attacker,
        }
    }
}

/// An ASCII hexadecimal digit.
pub open spec fn is_hex_digit(c: char) -> bool {
    ('0' <= c && c <= '9') || ('a' <= c && c <= 'f') || ('A' <= c && c <= 'F')
}

/// The value of a hexadecimal digit.
pub open spec fn hex_value(c: char) -> nat {
    if '0' <= c && c <= '9' {
        ((c as u32) - ('0' as u32)) as nat
    } else if 'a' <= c && c <= 'f' {
        ((c as u32) - ('a' as u32) + 10) as nat
    } else {
        ((c as u32) - ('A' as u32) + 10) as nat
    }
}

/// The value of a string of hexadecimal digits.
pub open spec fn hex_digits_value(d: Seq<char>) -> nat
    decreases d.len(),
{
    if d.len() == 0 {
        0
    } else {
        hex_digits_value(d.drop_last()) * 16 + hex_value(d.last())
    }
}

/// Every character is a hexadecimal digit.
pub open spec fn all_hex(d: Seq<char>) -> bool {
    forall|i: int| 0 <= i < d.len() ==> is_hex_digit(#[trigger] d[i])
}

/// `u8::from_str_radix(s, 16)`: an optional `+`, then at least one
/// hexadecimal digit, with a value that fits in `u8`.
pub open spec fn hex_byte(s: Seq<char>) -> Option<u8> {
    let d = if s.len() > 0 && s[0] == '+' {
        s.drop_first()
    } else {
        s
    };
    if d.len() > 0 && all_hex(d) && hex_digits_value(d) <= 255 {
        Some(hex_digits_value(d) as u8)
    } else {
        None
    }
}

/// Whether byte offset `b` of the UTF-8 form of `t` falls between characters.
pub open spec fn at_boundary(t: Seq<char>, b: nat) -> bool {
    exists|k: int| 0 <= k <= t.len() && utf8_len(#[trigger] t.take(k)) == b
}

/// The character position at byte offset `b`.
pub open spec fn char_at_byte(t: Seq<char>, b: nat) -> int {
    choose|k: int| 0 <= k <= t.len() && utf8_len(#[trigger] t.take(k)) == b
}

/// The colour text with its leading `#`s removed.
pub open spec fn hex_body(hex: Seq<char>) -> Seq<char> {
    trim_start_char(hex, '#')
}

/// Whether the colour text can be cut into its three channels: when its body
/// is six bytes long, bytes 2 and 4 must fall between characters.
pub open spec fn hex_sliceable(hex: Seq<char>) -> bool {
    let t = hex_body(hex);
    utf8_len(t) == 6 ==> at_boundary(t, 2) && at_boundary(t, 4)
}

/// The red, green and blue bytes of `#rrggbb` text (any number of leading
/// `#`s): the body must be six bytes, cut into three two-byte pieces that
/// each parse as a hexadecimal `u8`.
pub open spec fn hex_rgb(hex: Seq<char>) -> Option<(u8, u8, u8)> {
    let t = hex_body(hex);
    if utf8_len(t) != 6 {
        None
    } else {
        let k1 = char_at_byte(t, 2);
        let k2 = char_at_byte(t, 4);
        match (hex_byte(t.take(k1)), hex_byte(t.subrange(k1, k2)), hex_byte(t.skip(k2))) {
            (Some(r), Some(g), Some(b)) => Some((r, g, b)),
            _ => None,
        }
    }
}

fn width_of(c: char) -> (w: usize)
    ensures
        w == utf8_width(c),
{
    let u = c as u32;
    if u < 0x80 {
        1
    } else if u < 0x800 {
        2
    } else if u < 0x10000 {
        3
    } else {
        4
    }
}

proof fn lemma_utf8_take_step(t: Seq<char>, k: int)
    requires
        0 <= k < t.len(),
    ensures
        utf8_len(t.take(k + 1)) == utf8_len(t.take(k)) + utf8_width(t[k]),
{
    assert(t.take(k + 1).drop_last() == t.take(k));
    assert(t.take(k + 1).last() == t[k]);
}

proof fn lemma_utf8_take_monotone(t: Seq<char>, k: int, j: int)
    requires
        0 <= k < j <= t.len(),
    ensures
        utf8_len(t.take(k)) < utf8_len(t.take(j)),
    decreases j - k,
{
    lemma_utf8_take_step(t, j - 1);
    if k < j - 1 {
        lemma_utf8_take_monotone(t, k, j - 1);
    }
}

proof fn lemma_char_at_byte(t: Seq<char>, b: nat, k: int)
    requires
        0 <= k <= t.len(),
        utf8_len(t.take(k)) == b,
    ensures
        at_boundary(t, b),
        char_at_byte(t, b) == k,
{
    assert(at_boundary(t, b));
    let c = char_at_byte(t, b);
    if c < k {
        lemma_utf8_take_monotone(t, c, k);
    } else if k < c {
        lemma_utf8_take_monotone(t, k, c);
    }
}

proof fn lemma_no_boundary(t: Seq<char>, b: nat, k: int)
    requires
        0 <= k < t.len(),
        utf8_len(t.take(k)) < b < utf8_len(t.take(k + 1)),
    ensures
        !at_boundary(t, b),
{
    if at_boundary(t, b) {
        let c = char_at_byte(t, b);
        if c <= k {
            if c < k {
                lemma_utf8_take_monotone(t, c, k);
            }
        } else {
            if c > k + 1 {
                lemma_utf8_take_monotone(t, k + 1, c);
            }
        }
    }
}

fn hex_digit_value(c: char) -> (r: Option<u32>)
    ensures
        match r {
            Some(v) => is_hex_digit(c) && v == hex_value(c),
            None => !is_hex_digit(c),
        },
{
    if '0' <= c && c <= '9' {
        Some((c as u32) - ('0' as u32))
    } else if 'a' <= c && c <= 'f' {
        Some((c as u32) - ('a' as u32) + 10)
    } else if 'A' <= c && c <= 'F' {
        Some((c as u32) - ('A' as u32) + 10)
    } else {
        None
    }
}

proof fn lemma_hex_one(c: char)
    ensures
        hex_digits_value(seq![c]) == hex_value(c),
{
    assert(seq![c].drop_last() =~= Seq::<char>::empty());
    assert(hex_digits_value(seq![c].drop_last()) == 0);
    assert(seq![c].last() == c);
}

proof fn lemma_hex_two(a: char, b: char)
    ensures
        hex_digits_value(seq![a, b]) == hex_value(a) * 16 + hex_value(b),
{
    assert(seq![a, b].drop_last() =~= seq![a]);
    lemma_hex_one(a);
}

/// `u8::from_str_radix(s, 16)` on a piece of at most two characters.
fn parse_hex_byte(s: &Vec<char>) -> (r: Option<u8>)
    requires
        s.len() <= 2,
    ensures
        r == hex_byte(s@),
{
    if s.len() == 0 {
        return None;
    }
    if s.len() == 1 {
        if s[0] == '+' {
            return None;
        }
        proof {
            assert(s@ =~= seq![s@[0]]);
            lemma_hex_one(s@[0]);
        }
        return match hex_digit_value(s[0]) {
            Some(v) => Some(v as u8),
            None => {
                proof {
                    assert(!is_hex_digit(s@[0]));
                }
                None
            },
        };
    }
    if s[0] == '+' {
        proof {
            assert(s@.drop_first() =~= seq![s@[1]]);
            lemma_hex_one(s@[1]);
        }
        return match hex_digit_value(s[1]) {
            Some(v) => Some(v as u8),
            None => {
                proof {
                    assert(!is_hex_digit(s@.drop_first()[0]));
                }
                None
            },
        };
    }
    proof {
        assert(s@ =~= seq![s@[0], s@[1]]);
        lemma_hex_two(s@[0], s@[1]);
    }
    match (hex_digit_value(s[0]), hex_digit_value(s[1])) {
        (Some(a), Some(b)) => Some((a * 16 + b) as u8),
        (None, _) => {
            proof {
                assert(!is_hex_digit(s@[0]));
            }
            None
        },
        (_, None) => {
            proof {
                assert(!is_hex_digit(s@[1]));
            }
            None
        },
    }
}

proof fn lemma_utf8_take_gap(t: Seq<char>, i: int, j: int)
    requires
        0 <= i <= j <= t.len(),
    ensures
        utf8_len(t.take(j)) >= utf8_len(t.take(i)) + (j - i),
    decreases j - i,
{
    if i < j {
        lemma_utf8_take_step(t, j - 1);
        lemma_utf8_take_gap(t, i, j - 1);
    }
}

/// The byte length of `t` when at most 6, else 7.
fn total_bytes(t: &Vec<char>) -> (n: usize)
    ensures
        n <= 7,
        n <= 6 ==> n == utf8_len(t@),
        n == 7 ==> utf8_len(t@) > 6,
{
    let mut acc: usize = 0;
    let mut k: usize = 0;
    while k < t.len()
        invariant
            k <= t.len(),
            acc == utf8_len(t@.take(k as int)),
            acc <= 6,
        decreases t.len() - k,
    {
        let w = width_of(t[k]);
        proof {
            lemma_utf8_take_step(t@, k as int);
        }
        if acc + w > 6 {
            proof {
                lemma_utf8_take_gap(t@, k + 1, t@.len() as int);
                assert(t@.take(t@.len() as int) == t@);
            }
            return 7;
        }
        acc = acc + w;
        k = k + 1;
    }
    proof {
        assert(t@.take(k as int) == t@);
    }
    acc
}

/// The character position at byte offset `b`, if one falls there.
fn cut_at(t: &Vec<char>, b: usize) -> (r: Option<usize>)
    requires
        b <= 6,
    ensures
        match r {
            Some(k) => k <= t.len() && utf8_len(t@.take(k as int)) == b,
            None => !at_boundary(t@, b as nat),
        },
{
    let mut acc: usize = 0;
    let mut k: usize = 0;
    proof {
        assert(utf8_len(t@.take(0)) == 0) by {
            assert(t@.take(0).len() == 0);
        }
    }
    while k < t.len() && acc < b
        invariant
            k <= t.len(),
            acc == utf8_len(t@.take(k as int)),
            acc <= b <= 6,
        decreases t.len() - k,
    {
        let w = width_of(t[k]);
        proof {
            lemma_utf8_take_step(t@, k as int);
        }
        if acc + w > b {
            proof {
                lemma_no_boundary(t@, b as nat, k as int);
            }
            return None;
        }
        acc = acc + w;
        k = k + 1;
    }
    if acc == b {
        Some(k)
    } else {
        proof {
            // acc < b and k == t.len(): every prefix is shorter than b bytes.
            if at_boundary(t@, b as nat) {
                let c = char_at_byte(t@, b as nat);
                if c < k {
                    lemma_utf8_take_monotone(t@, c, k as int);
                }
            }
        }
        None
    }
}

/// The red, green and blue bytes of `#rrggbb` text, or `None` when it is not
/// a six-byte hexadecimal colour.
pub fn parse_hex_rgb(hex: &str) -> (r: Option<(u8, u8, u8)>)
    requires
        hex_sliceable(hex@),
    ensures
        r == hex_rgb(hex@),
{
    let v = chars_of(hex);
    let t = trimmed_start_char(&v, '#');
    if total_bytes(&t) != 6 {
        return None;
    }
    let (k1, k2) = match (cut_at(&t, 2), cut_at(&t, 4)) {
        (Some(a), Some(b)) => (a, b),
        _ => {
            proof {
                assert(false);
            }
            return None;
        },
    };
    proof {
        lemma_char_at_byte(t@, 2, k1 as int);
        lemma_char_at_byte(t@, 4, k2 as int);
        if k2 < k1 {
            lemma_utf8_take_monotone(t@, k2 as int, k1 as int);
        }
        lemma_utf8_take_gap(t@, 0, k1 as int);
        lemma_utf8_take_gap(t@, k1 as int, k2 as int);
        lemma_utf8_take_gap(t@, k2 as int, t@.len() as int);
        assert(t@.take(t@.len() as int) == t@);
        assert(utf8_len(t@.take(0)) == 0) by {
            assert(t@.take(0).len() == 0);
        }
        assert(t@.take(k1 as int) == t@.subrange(0, k1 as int));
        assert(t@.skip(k2 as int) == t@.subrange(k2 as int, t@.len() as int));
    }
    let r = parse_hex_byte(&copy_range(&t, 0, k1));
    let g = parse_hex_byte(&copy_range(&t, k1, k2));
    let b = parse_hex_byte(&copy_range(&t, k2, t.len()));
    match (r, g, b) {
        (Some(r), Some(g), Some(b)) => Some((r, g, b)),
        _ => None,
    }
}

/// Whether `parse_hex_rgb` may be asked about `hex` (the channels can be cut
/// at character boundaries).
pub fn hex_color_sliceable(hex: &str) -> (r: bool)
    ensures
        r == hex_sliceable(hex@),
{
    let v = chars_of(hex);
    let t = trimmed_start_char(&v, '#');
    if total_bytes(&t) != 6 {
        return true;
    }
    let a = cut_at(&t, 2);
    let b = cut_at(&t, 4);
    proof {
        if let Some(k) = a {
            assert(at_boundary(t@, 2));
        }
        if let Some(k) = b {
            assert(at_boundary(t@, 4));
        }
    }
    a.is_some() && b.is_some()
}

} // verus!

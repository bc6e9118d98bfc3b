//! Reading a Listforge army list: which units it names and how many models of
//! each variant every unit brings.
use vstd::prelude::*;

use crate::numeral::{is_digit, parse_u32, parse_u32_spec};
use crate::text::{lemma_trim_idempotent, 
    before_char, chars_of, contains, copy_range, ends_with, find, find_char, has_substring,
    has_suffix, lemma_find_char, lines, prefix_before,
    split_lines, starts_with, string_of, trim, trim_end_char, trim_start, trim_start_index,
    trimmed, trimmed_end_char, trimmed_start, views, has_prefix,
};

verus! {

broadcast use vstd::seq_lib::group_seq_properties;

/// A unit as the contracts see it: its name and, per model variant in the
/// order first met, the number of models.
pub struct UnitSpec {
    pub name: Seq<char>,
    pub counts: Seq<(Seq<char>, nat)>,
}

/// A parsed unit from a Listforge army list.
pub struct ParsedUnit {
    pub name: String,
    /// Model variant name and count, each name once, in the order first met.
    pub model_counts: Vec<(String, u32)>,
}

/// The contract view of a list of (name, count) pairs.
pub open spec fn counts_view(v: Seq<(String, u32)>) -> Seq<(Seq<char>, nat)> {
    v.map_values(|p: (String, u32)| (p.0@, p.1 as nat))
}

impl View for ParsedUnit {
    type V = UnitSpec;

    open spec fn view(&self) -> UnitSpec {
        UnitSpec { name: self.name@, counts: counts_view(self.model_counts@) }
    }
}

/// The views of a list of parsed units.
pub open spec fn units_view(v: Seq<ParsedUnit>) -> Seq<UnitSpec> {
    v.map_values(|u: ParsedUnit| u@)
}

/// The number of bytes that UTF-8 takes for `c`.
pub open spec fn utf8_width(c: char) -> nat {
    if (c as u32) < 0x80 {
        1
    } else if (c as u32) < 0x800 {
        2
    } else if (c as u32) < 0x10000 {
        3
    } else {
        4
    }
}

/// The number of bytes that UTF-8 takes for `s`.
pub open spec fn utf8_len(s: Seq<char>) -> nat
    decreases s.len(),
{
    if s.len() == 0 {
        0
    } else {
        utf8_len(s.drop_last()) + utf8_width(s.last())
    }
}

/// The bullet that starts a model line.
pub open spec fn bullet() -> char {
    '\u{2022}'
}

/// A model line: indented by at least two bytes of whitespace, then a bullet;
/// gives the trimmed text after the bullet.
pub open spec fn strip_bullet_spec(line: Seq<char>) -> Option<Seq<char>> {
    let t = trim_start(line);
    if utf8_len(line.take(line.len() - t.len())) < 2 {
        None
    } else if t.len() > 0 && t[0] == bullet() {
        Some(trim(t.drop_first()))
    } else {
        None
    }
}

/// `pts`.
pub open spec fn pts() -> Seq<char> {
    seq!['p', 't', 's']
}

/// What a unit line holds in parentheses: a `u32`, then `pts`.
pub open spec fn is_points(inside: Seq<char>) -> bool {
    ends_with(inside, pts()) && parse_u32_spec(trim(inside.take(inside.len() - 3))) is Some
}

/// The `)` that closes a group opened at `open`: the first `)` after it.
pub open spec fn close_of(l: Seq<char>, open: int) -> Option<int> {
    match find_char(l.skip(open + 1), ')') {
        Some(j) => Some(open + 1 + j),
        None => None,
    }
}

/// A `(` at `open` whose group holds the points, `(NNN pts)`.
pub open spec fn points_group_at(l: Seq<char>, open: int) -> bool {
    &&& 0 <= open < l.len()
    &&& l[open] == '('
    &&& close_of(l, open) matches Some(close) && is_points(trim(l.subrange(open + 1, close)))
}

/// The last points group that opens before `i`.
pub open spec fn points_group_before(l: Seq<char>, i: int) -> Option<int>
    decreases i,
{
    if i <= 0 {
        None
    } else if points_group_at(l, i - 1) {
        Some(i - 1)
    } else {
        points_group_before(l, i - 1)
    }
}

/// The last points group of a line: where it opens and closes.
pub open spec fn paren_span(l: Seq<char>) -> Option<(int, int)> {
    match points_group_before(l, l.len() as int) {
        Some(open) => match close_of(l, open) {
            Some(close) => Some((open, close)),
            None => None,
        },
        None => None,
    }
}

/// The name before the parentheses: trimmed, trailing colons dropped.
pub open spec fn unit_name_of(head: Seq<char>) -> Seq<char> {
    trim(trim_end_char(trim(head), ':'))
}

/// A unit line, `Unit Name (NNN pts)` optionally followed by `: ...`: the text
/// before the last parenthesised group that holds a `u32` and `pts`, whatever
/// follows it; trimmed, trailing colons dropped, and neither empty nor
/// starting with `#`.
pub open spec fn parse_unit_line_spec(line: Seq<char>) -> Option<Seq<char>> {
    let l = trim(line);
    match paren_span(l) {
        None => None,
        Some((open, close)) => {
            let name = unit_name_of(l.take(open));
            if name.len() == 0 || name[0] == '#' {
                None
            } else {
                Some(name)
            }
        },
    }
}

/// Where the run of decimal digits that reaches position `i` ends.
pub open spec fn digits_end(np: Seq<char>, i: int) -> int
    decreases np.len() - i,
{
    if 0 <= i < np.len() && is_digit(np[i]) {
        digits_end(np, i + 1)
    } else {
        i
    }
}

/// Where the digits of a leading count start: after an optional `+`.
pub open spec fn count_start(np: Seq<char>) -> int {
    if np.len() > 0 && np[0] == '+' {
        1
    } else {
        0
    }
}

/// The count marker of a model line: an `x` or `X` right after the leading
/// count, `+`? and digits (spaces between them allowed).
pub open spec fn count_marker(np: Seq<char>) -> Option<int> {
    let k = digits_end(np, count_start(np));
    let m = np.len() - trim_start(np.skip(k)).len();
    if count_start(np) < k && m < np.len() && (np[m] == 'x' || np[m] == 'X') {
        Some(m)
    } else {
        None
    }
}

/// A model line after its bullet, `Nx Model Name: weapons` or
/// `Model Name: weapons`: the count (1 when none is given) and the name.
pub open spec fn parse_count_and_name_spec(s: Seq<char>) -> (u32, Seq<char>) {
    let np = trim(before_char(s, ':'));
    match count_marker(np) {
        Some(i) => match parse_u32_spec(trim(np.take(i))) {
            Some(n) => {
                let name = trim(np.skip(i + 1));
                if name.len() > 0 {
                    (n, name)
                } else {
                    (1, np)
                }
            },
            None => (1, np),
        },
        None => (1, np),
    }
}

/// Position of the first entry for `name`, or -1.
pub open spec fn index_of_name(c: Seq<(Seq<char>, nat)>, name: Seq<char>) -> int
    decreases c.len(),
{
    if c.len() == 0 {
        -1
    } else if c[0].0 == name {
        0
    } else {
        let i = index_of_name(c.drop_first(), name);
        if i < 0 {
            -1
        } else {
            i + 1
        }
    }
}

/// Adds `n` models of `name`: to its entry if there is one, else as a new
/// last entry.
pub open spec fn add_count(c: Seq<(Seq<char>, nat)>, name: Seq<char>, n: nat) -> Seq<
    (Seq<char>, nat),
> {
    let i = index_of_name(c, name);
    if i >= 0 {
        c.update(i, (name, c[i].1 + n))
    } else {
        c.push((name, n))
    }
}

/// What has been read so far: the finished units and the one being read.
pub struct Progress {
    pub done: Seq<UnitSpec>,
    pub current: Option<UnitSpec>,
}

/// `##`.
pub open spec fn category_mark() -> Seq<char> {
    seq!['#', '#']
}

/// ` - `.
pub open spec fn header_mark() -> Seq<char> {
    seq![' ', '-', ' ']
}

/// Whether a line is skipped outright: blank, a `##` category header, or the
/// army header (it holds ` - `).
pub open spec fn skipped_line(line: Seq<char>) -> bool {
    trim(line).len() == 0 || starts_with(trim_start(line), category_mark()) || contains(
        line,
        header_mark(),
    )
}

/// Reads one line; `None` when a model count no longer fits in `u32`.
pub open spec fn step(p: Progress, line: Seq<char>) -> Option<Progress> {
    if skipped_line(line) {
        Some(p)
    } else {
        match strip_bullet_spec(line) {
            Some(m) => match p.current {
                Some(u) => {
                    let (n, name) = parse_count_and_name_spec(m);
                    let c = add_count(u.counts, name, n as nat);
                    if c[index_of_name(c, name)].1 > u32::MAX {
                        None
                    } else {
                        Some(Progress { done: p.done, current: Some(UnitSpec { name: u.name, counts: c }) })
                    }
                },
                None => Some(p),
            },
            None => match parse_unit_line_spec(line) {
                Some(name) => Some(
                    Progress {
                        done: match p.current {
                            Some(u) => p.done.push(u),
                            None => p.done,
                        },
                        current: Some(UnitSpec { name, counts: Seq::empty() }),
                    },
                ),
                None => Some(p),
            },
        }
    }
}

/// Reads the lines in order.
pub open spec fn run(ls: Seq<Seq<char>>) -> Option<Progress>
    decreases ls.len(),
{
    if ls.len() == 0 {
        Some(Progress { done: Seq::empty(), current: None })
    } else {
        match run(ls.drop_last()) {
            None => None,
            Some(p) => step(p, ls.last()),
        }
    }
}

/// A unit without model lines counts as one model of itself.
pub open spec fn with_self_count(u: UnitSpec) -> UnitSpec {
    if u.counts.len() == 0 {
        UnitSpec { name: u.name, counts: seq![(u.name, 1nat)] }
    } else {
        u
    }
}

/// All units once the text has been read.
pub open spec fn finish(p: Progress) -> Seq<UnitSpec> {
    let all = match p.current {
        Some(u) => p.done.push(u),
        None => p.done,
    };
    all.map_values(|u: UnitSpec| with_self_count(u))
}

/// The units of an army list; `None` when a model count does not fit in `u32`.
pub open spec fn parse_listforge_spec(text: Seq<char>) -> Option<Seq<UnitSpec>> {
    match run(lines(text)) {
        None => None,
        Some(p) => Some(finish(p)),
    }
}


proof fn lemma_utf8_len_at_least(s: Seq<char>)
    ensures
        utf8_len(s) >= s.len(),
    decreases s.len(),
{
    if s.len() > 0 {
        lemma_utf8_len_at_least(s.drop_last());
    }
}

/// An indent is under two bytes exactly when it is empty or one ASCII character.
proof fn lemma_utf8_len_small(s: Seq<char>)
    ensures
        utf8_len(s) < 2 <==> (s.len() == 0 || (s.len() == 1 && (s[0] as u32) < 0x80)),
{
    lemma_utf8_len_at_least(s);
    if s.len() == 1 {
        assert(s.drop_last().len() == 0);
        assert(utf8_len(s.drop_last()) == 0);
        assert(s.last() == s[0]);
    }
}

fn strip_bullet_chars(line: &Vec<char>) -> (r: Option<Vec<char>>)
    ensures
        match r {
            Some(v) => strip_bullet_spec(line@) == Some(v@),
            None => strip_bullet_spec(line@) is None,
        },
{
    let i = trim_start_index(line);
    proof {
        let t = trim_start(line@);
        assert(line@.take(line@.len() - t.len()) == line@.take(i as int));
        lemma_utf8_len_small(line@.take(i as int));
        if i == 1 {
            assert(line@.take(1)[0] == line@[0]);
        }
    }
    if i == 0 || (i == 1 && (line[0] as u32) < 0x80) {
        return None;
    }
    if i < line.len() && line[i] == '\u{2022}' {
        let rest = copy_range(line, i + 1, line.len());
        proof {
            assert(rest@ == line@.skip(i as int).drop_first());
        }
        Some(trimmed(&rest))
    } else {
        None
    }
}

/// A model line: the trimmed text after its bullet, or `None` when `line` is
/// not indented by two bytes of whitespace and a bullet.
pub fn strip_bullet(line: &str) -> (r: Option<String>)
    ensures
        match r {
            Some(v) => strip_bullet_spec(line@) == Some(v@),
            None => strip_bullet_spec(line@) is None,
        },
{
    let v = chars_of(line);
    match strip_bullet_chars(&v) {
        Some(m) => Some(string_of(&m)),
        None => None,
    }
}

/// The `)` closing a group opened at `open`.
fn close_of_in(l: &Vec<char>, open: usize) -> (r: Option<usize>)
    requires
        open < l.len(),
    ensures
        match r {
            Some(c) => open < c < l.len() && close_of(l@, open as int) == Some(c as int),
            None => close_of(l@, open as int) is None,
        },
{
    let rest = copy_range(l, open + 1, l.len());
    proof {
        assert(rest@ == l@.skip(open + 1));
        lemma_find_char(rest@, ')');
    }
    match find(&rest, ')') {
        Some(j) => Some(open + 1 + j),
        None => None,
    }
}

fn paren_span_of(l: &Vec<char>) -> (r: Option<(usize, usize)>)
    ensures
        match r {
            Some((o, c)) => o < c < l.len() && paren_span(l@) == Some((o as int, c as int)),
            None => paren_span(l@) is None,
        },
{
    let mut j: usize = l.len();
    while j > 0
        invariant
            j <= l.len(),
            points_group_before(l@, l.len() as int) == points_group_before(l@, j as int),
        decreases j,
    {
        let i = j - 1;
        if l[i] == '(' {
            if let Some(c) = close_of_in(l, i) {
                let inside_raw = copy_range(l, i + 1, c);
                let inside = trimmed(&inside_raw);
                if points_in(&inside) {
                    proof {
                        assert(points_group_at(l@, i as int));
                    }
                    return Some((i, c));
                }
                proof {
                    assert(!points_group_at(l@, i as int));
                }
            }
        }
        j = i;
    }
    None
}

fn points_in(inside: &Vec<char>) -> (b: bool)
    ensures
        b == is_points(inside@),
{
    let pts_word = vec!['p', 't', 's'];
    if !has_suffix(inside, &pts_word) {
        return false;
    }
    let pre = copy_range(inside, 0, inside.len() - 3);
    let pts_part = trimmed(&pre);
    parse_u32(&pts_part).is_some()
}

fn unit_name_in(head: &Vec<char>) -> (r: Vec<char>)
    ensures
        r@ == unit_name_of(head@),
{
    let head_t = trimmed(head);
    let head_c = trimmed_end_char(&head_t, ':');
    trimmed(&head_c)
}

fn parse_unit_line_chars(line: &Vec<char>) -> (r: Option<Vec<char>>)
    ensures
        match r {
            Some(v) => parse_unit_line_spec(line@) == Some(v@),
            None => parse_unit_line_spec(line@) is None,
        },
{
    let l = trimmed(line);
    let (open, _close) = match paren_span_of(&l) {
        Some(p) => p,
        None => return None,
    };
    let head = copy_range(&l, 0, open);
    let name = unit_name_in(&head);
    if name.len() == 0 || name[0] == '#' {
        None
    } else {
        Some(name)
    }
}

/// A unit line, `Unit Name (NNN pts)[: ...]`: the unit's name.
pub fn parse_unit_line(line: &str) -> (r: Option<String>)
    ensures
        match r {
            Some(v) => parse_unit_line_spec(line@) == Some(v@),
            None => parse_unit_line_spec(line@) is None,
        },
{
    let v = chars_of(line);
    match parse_unit_line_chars(&v) {
        Some(m) => Some(string_of(&m)),
        None => None,
    }
}

fn parse_count_and_name_chars(s: &Vec<char>) -> (r: (u32, Vec<char>))
    ensures
        parse_count_and_name_spec(s@) == (r.0, r.1@),
{
    let before = prefix_before(s, ':');
    let np = trimmed(&before);
    let cs: usize = if np.len() > 0 && np[0] == '+' { 1 } else { 0 };
    let mut k: usize = cs;
    while k < np.len() && '0' <= np[k] && np[k] <= '9'
        invariant
            cs <= k <= np.len(),
            cs == count_start(np@),
            digits_end(np@, cs as int) == digits_end(np@, k as int),
        decreases np.len() - k,
    {
        k = k + 1;
    }
    proof {
        assert(digits_end(np@, k as int) == k);
    }
    let after = copy_range(&np, k, np.len());
    let gap = trim_start_index(&after);
    let m = k + gap;
    proof {
        assert(after@ == np@.skip(k as int));
        assert(after@.skip(gap as int).len() == after@.len() - gap);
        if m < np.len() {
            assert(np@[m as int] == after@[gap as int]);
        }
    }
    let marker = if cs < k && m < np.len() && (np[m] == 'x' || np[m] == 'X') {
        Some(m)
    } else {
        None
    };
    match marker {
        Some(i) => {
            let count_raw = copy_range(&np, 0, i);
            let count_str = trimmed(&count_raw);
            proof {
                assert(count_raw@ == np@.take(i as int));
            }
            match parse_u32(&count_str) {
                Some(n) => {
                    let rest = copy_range(&np, i + 1, np.len());
                    let name = trimmed(&rest);
                    proof {
                        assert(rest@ == np@.skip(i + 1));
                    }
                    if name.len() > 0 {
                        (n, name)
                    } else {
                        (1, np)
                    }
                },
                None => (1, np),
            }
        },
        None => (1, np),
    }
}

/// A model line after its bullet: the model count (1 when none is given) and
/// the model's name.
pub fn parse_count_and_name(s: &str) -> (r: (u32, String))
    ensures
        parse_count_and_name_spec(s@) == (r.0, r.1@),
{
    let v = chars_of(s);
    let (n, name) = parse_count_and_name_chars(&v);
    (n, string_of(&name))
}


/// A unit while it is being read.
struct Draft {
    name: Vec<char>,
    counts: Vec<(Vec<char>, u32)>,
}

/// The contract view of a draft's counts.
spec fn draft_counts(v: Seq<(Vec<char>, u32)>) -> Seq<(Seq<char>, nat)> {
    v.map_values(|p: (Vec<char>, u32)| (p.0@, p.1 as nat))
}

impl Draft {
    spec fn spec(&self) -> UnitSpec {
        UnitSpec { name: self.name@, counts: draft_counts(self.counts@) }
    }
}

spec fn drafts(v: Seq<Draft>) -> Seq<UnitSpec> {
    v.map_values(|d: Draft| d.spec())
}

spec fn current_spec(c: Option<Draft>) -> Option<UnitSpec> {
    match c {
        Some(d) => Some(d.spec()),
        None => None,
    }
}

fn same_chars(a: &Vec<char>, b: &Vec<char>) -> (r: bool)
    ensures
        r == (a@ == b@),
{
    if a.len() != b.len() {
        return false;
    }
    let mut i: usize = 0;
    while i < a.len()
        invariant
            a.len() == b.len(),
            i <= a.len(),
            forall|j: int| 0 <= j < i ==> a@[j] == b@[j],
        decreases a.len() - i,
    {
        if a[i] != b[i] {
            return false;
        }
        i = i + 1;
    }
    proof {
        assert(a@ =~= b@);
    }
    true
}

proof fn lemma_index_of_name(c: Seq<(Seq<char>, nat)>, name: Seq<char>)
    ensures
        -1 <= index_of_name(c, name) < c.len(),
        index_of_name(c, name) >= 0 ==> c[index_of_name(c, name)].0 == name,
        forall|j: int|
            0 <= j < c.len() && (index_of_name(c, name) < 0 || j < index_of_name(c, name))
                ==> c[j].0 != name,
    decreases c.len(),
{
    if c.len() > 0 && c[0].0 != name {
        lemma_index_of_name(c.drop_first(), name);
        assert forall|j: int|
            0 <= j < c.len() && (index_of_name(c, name) < 0 || j < index_of_name(c, name))
                implies c[j].0 != name by {
            if j > 0 {
                assert(c[j] == c.drop_first()[j - 1]);
            }
        }
    }
}

proof fn lemma_index_of_name_is(c: Seq<(Seq<char>, nat)>, name: Seq<char>, k: int)
    requires
        -1 <= k < c.len(),
        k >= 0 ==> c[k].0 == name,
        forall|j: int| 0 <= j < c.len() && (k < 0 || j < k) ==> c[j].0 != name,
    ensures
        index_of_name(c, name) == k,
{
    lemma_index_of_name(c, name);
    let i = index_of_name(c, name);
    if i >= 0 && (k < 0 || i < k) {
        assert(c[i].0 != name);
    } else if k >= 0 && (i < 0 || k < i) {
        assert(c[k].0 != name);
    }
}

/// Adds `n` models of `name`; `false` when the total no longer fits in `u32`.
fn add_model(counts: &mut Vec<(Vec<char>, u32)>, name: Vec<char>, n: u32) -> (ok: bool)
    ensures
        ({
            let c = add_count(draft_counts(old(counts)@), name@, n as nat);
            &&& ok == (c[index_of_name(c, name@)].1 <= u32::MAX)
            &&& ok ==> draft_counts(final(counts)@) == c
        }),
{
    let ghost c0 = draft_counts(counts@);
    let mut i: usize = 0;
    while i < counts.len()
        invariant
            i <= counts.len(),
            c0 == draft_counts(counts@),
            c0 == draft_counts(old(counts)@),
            forall|j: int| 0 <= j < i ==> c0[j].0 != name@,
        decreases counts.len() - i,
    {
        if same_chars(&counts[i].0, &name) {
            proof {
                lemma_index_of_name_is(c0, name@, i as int);
            }
            let old_n = counts[i].1;
            let ghost c = add_count(c0, name@, n as nat);
            proof {
                lemma_index_of_name(c, name@);
                assert(c[i as int].0 == name@);
                assert forall|j: int| 0 <= j < i implies c[j].0 != name@ by {
                    assert(c[j] == c0[j]);
                }
                lemma_index_of_name_is(c, name@, i as int);
                assert(c0[i as int].1 == old_n);
                assert(c[i as int].1 == old_n + n);
            }
            if old_n > u32::MAX - n {
                return false;
            }
            counts.set(i, (name, old_n + n));
            proof {
                assert(draft_counts(counts@) =~= c);
            }
            return true;
        }
        i = i + 1;
    }
    proof {
        lemma_index_of_name_is(c0, name@, -1);
        let c = add_count(c0, name@, n as nat);
        assert forall|j: int| 0 <= j < c0.len() implies c[j].0 != name@ by {
            assert(c[j] == c0[j]);
        }
        lemma_index_of_name_is(c, name@, c0.len() as int);
    }
    counts.push((name, n));
    proof {
        assert(draft_counts(counts@) =~= add_count(c0, name@, n as nat));
    }
    true
}


fn skipped(line: &Vec<char>) -> (b: bool)
    ensures
        b == skipped_line(line@),
{
    let t = trimmed(line);
    if t.len() == 0 {
        return true;
    }
    let ts = trimmed_start(line);
    let cat = vec!['#', '#'];
    if has_prefix(&ts, &cat) {
        return true;
    }
    let hdr = vec![' ', '-', ' '];
    has_substring(line, &hdr)
}

proof fn lemma_run_none(ls: Seq<Seq<char>>, i: int)
    requires
        0 <= i <= ls.len(),
        run(ls.take(i)) is None,
    ensures
        run(ls) is None,
    decreases ls.len() - i,
{
    if i < ls.len() {
        assert(ls.take(i + 1).drop_last() == ls.take(i));
        lemma_run_none(ls, i + 1);
    } else {
        assert(ls.take(i) == ls);
    }
}

fn string_counts(c: &Vec<(Vec<char>, u32)>) -> (r: Vec<(String, u32)>)
    ensures
        counts_view(r@) == draft_counts(c@),
{
    let mut r: Vec<(String, u32)> = Vec::new();
    for i in 0..c.len()
        invariant
            counts_view(r@) == draft_counts(c@).take(i as int),
    {
        let ghost r0 = r@;
        let s = string_of(&c[i].0);
        r.push((s, c[i].1));
        proof {
            assert(r@ == r0.push((s, c@[i as int].1)));
            assert(counts_view(r@) =~= counts_view(r0).push((s@, c@[i as int].1 as nat)));
            assert(draft_counts(c@)[i as int] == (c@[i as int].0@, c@[i as int].1 as nat));
            assert(draft_counts(c@).take(i + 1) =~= draft_counts(c@).take(i as int).push(
                draft_counts(c@)[i as int],
            ));
        }
    }
    proof {
        assert(draft_counts(c@).take(c.len() as int) == draft_counts(c@));
    }
    r
}

fn to_parsed(d: &Draft) -> (r: ParsedUnit)
    ensures
        r@ == with_self_count(d.spec()),
{
    let name = string_of(&d.name);
    if d.counts.len() == 0 {
        let own = string_of(&d.name);
        let mut counts: Vec<(String, u32)> = Vec::new();
        counts.push((own, 1));
        proof {
            assert(counts_view(counts@) =~= seq![(d.name@, 1nat)]);
        }
        ParsedUnit { name, model_counts: counts }
    } else {
        let counts = string_counts(&d.counts);
        ParsedUnit { name, model_counts: counts }
    }
}

fn finish_units(done: &Vec<Draft>, current: &Option<Draft>) -> (r: Vec<ParsedUnit>)
    ensures
        units_view(r@) == finish(Progress { done: drafts(done@), current: current_spec(*current) }),
{
    let ghost all = match current_spec(*current) {
        Some(u) => drafts(done@).push(u),
        None => drafts(done@),
    };
    let ghost fin = all.map_values(|u: UnitSpec| with_self_count(u));
    let mut r: Vec<ParsedUnit> = Vec::new();
    for i in 0..done.len()
        invariant
            units_view(r@) == fin.take(i as int),
            fin == all.map_values(|u: UnitSpec| with_self_count(u)),
            all == match current_spec(*current) {
                Some(u) => drafts(done@).push(u),
                None => drafts(done@),
            },
    {
        let ghost r0 = r@;
        let p = to_parsed(&done[i]);
        r.push(p);
        proof {
            assert(all[i as int] == done@[i as int].spec());
            assert(fin[i as int] == with_self_count(all[i as int]));
            assert(units_view(r@) =~= units_view(r0).push(p@));
            assert(fin.take(i + 1) =~= fin.take(i as int).push(fin[i as int]));
        }
    }
    match current {
        Some(d) => {
            let ghost r0 = r@;
            let p = to_parsed(d);
            r.push(p);
            proof {
                assert(all[done.len() as int] == d.spec());
                assert(fin[done.len() as int] == with_self_count(d.spec()));
                assert(units_view(r@) =~= units_view(r0).push(p@));
                assert(fin.take(done.len() as int).push(fin[done.len() as int]) =~= fin);
            }
        },
        None => {
            proof {
                assert(fin.take(done.len() as int) =~= fin);
            }
        },
    }
    r
}

/// The units of a Listforge army list, or `None` when a model's count grows
/// past `u32::MAX`, read line by line.
fn read_units(text: &str) -> (r: Option<Vec<ParsedUnit>>)
    ensures
        match r {
            Some(v) => parse_listforge_spec(text@) == Some(units_view(v@)),
            None => parse_listforge_spec(text@) is None,
        },
{
    let chars = chars_of(text);
    let ls = split_lines(&chars);
    let ghost lv = views(ls@);
    let mut done: Vec<Draft> = Vec::new();
    let mut current: Option<Draft> = None;
    let mut i: usize = 0;
    proof {
        assert(lv.take(0) =~= Seq::<Seq<char>>::empty());
        assert(drafts(done@) =~= Seq::<UnitSpec>::empty());
    }
    while i < ls.len()
        invariant
            i <= ls.len(),
            lv == views(ls@),
            lv == lines(text@),
            run(lv.take(i as int)) == Some(
                Progress { done: drafts(done@), current: current_spec(current) },
            ),
        decreases ls.len() - i,
    {
        proof {
            assert(lv.take(i + 1).drop_last() == lv.take(i as int));
            assert(lv.take(i + 1).last() == ls@[i as int]@);
        }
        let ghost p = Progress { done: drafts(done@), current: current_spec(current) };
        let line = &ls[i];
        if !skipped(line) {
            match strip_bullet_chars(line) {
                Some(m) => {
                    match current.take() {
                        Some(u) => {
                            let (n, name) = parse_count_and_name_chars(&m);
                            let mut u = u;
                            let ghost c0 = u.spec();
                            if !add_model(&mut u.counts, name, n) {
                                proof {
                                    lemma_run_none(lv, i + 1);
                                }
                                return None;
                            }
                            current = Some(u);
                        },
                        None => {},
                    }
                },
                None => match parse_unit_line_chars(line) {
                    Some(name) => {
                        match current.take() {
                            Some(u) => {
                                done.push(u);
                                proof {
                                    assert(drafts(done@) =~= p.done.push(u.spec()));
                                }
                            },
                            None => {},
                        }
                        let fresh: Vec<(Vec<char>, u32)> = Vec::new();
                        proof {
                            assert(draft_counts(fresh@) =~= Seq::<(Seq<char>, nat)>::empty());
                        }
                        current = Some(Draft { name, counts: fresh });
                    },
                    None => {},
                },
            }
        }
        i = i + 1;
    }
    proof {
        assert(lv.take(ls.len() as int) == lv);
    }
    Some(finish_units(&done, &current))
}


/// Reads an army list: its units in order, each with its model variants and
/// counts; `None` when a model count overflows `u32`. Every unit has a
/// trimmed name that is not empty and does not start with `#`, at least one
/// variant, and no variant named twice.
pub fn try_parse_listforge(text: &str) -> (r: Option<Vec<ParsedUnit>>)
    ensures
        match r {
            Some(v) => parse_listforge_spec(text@) == Some(units_view(v@)),
            None => parse_listforge_spec(text@) is None,
        },
        r matches Some(v) ==> well_formed_units(units_view(v@)),
        r matches Some(v) ==> {
            &&& v@.len() == unit_line_names(lines(text@)).len()
            &&& forall|k: int| 0 <= k < v@.len() ==> #[trigger] v@[k].name@ == unit_line_names(
                lines(text@),
            )[k]
        },
{
    proof {
        lemma_parsed_units_well_formed(text@);
        lemma_units_follow_unit_lines(text@);
    }
    let r = read_units(text);
    proof {
        if let Some(v) = &r {
            let uv = units_view(v@);
            assert(uv.len() == v@.len());
            assert forall|k: int| 0 <= k < v@.len() implies #[trigger] v@[k].name@ == unit_line_names(
                lines(text@),
            )[k] by {
                assert(uv[k] == v@[k]@);
                assert(uv[k].name == unit_line_names(lines(text@))[k]);
            }
        }
    }
    r
}

/// Parse a Listforge army list text into a list of units.
///
/// Format:
/// ```text
/// Army Name - Faction Name - Detachment Name (XXXX pts)
///
/// ## Category (XXX pts)
/// Unit Name (XX pts): Option, Option
///   • Nx Model Variant: Weapon, Weapon
///   • Model Variant: Weapon
/// ```
pub fn parse_listforge(text: &str) -> (r: Vec<ParsedUnit>)
    requires
        parse_listforge_spec(text@) is Some,
    ensures
        parse_listforge_spec(text@) == Some(units_view(r@)),
        well_formed_units(units_view(r@)),
{
    match try_parse_listforge(text) {
        Some(v) => v,
        None => {
            proof {
                assert(false);
            }
            Vec::new()
        },
    }
}

impl ParsedUnit {
    /// How many models of the variant `model` the unit has, if it names it.
    pub fn model_count(&self, model: &str) -> (r: Option<u32>)
        ensures
            ({
                let i = index_of_name(self@.counts, model@);
                &&& r is Some <==> i >= 0
                &&& r matches Some(n) ==> self@.counts[i].1 == n
            }),
    {
        let want = chars_of(model);
        let ghost c = self@.counts;
        let mut i: usize = 0;
        while i < self.model_counts.len()
            invariant
                i <= self.model_counts.len(),
                c == self@.counts,
                c == counts_view(self.model_counts@),
                want@ == model@,
                forall|j: int| 0 <= j < i ==> c[j].0 != model@,
            decreases self.model_counts.len() - i,
        {
            let have = chars_of(self.model_counts[i].0.as_str());
            if same_chars(&have, &want) {
                proof {
                    assert(c[i as int].0 == model@);
                    lemma_index_of_name_is(c, model@, i as int);
                }
                return Some(self.model_counts[i].1);
            }
            i = i + 1;
        }
        proof {
            lemma_index_of_name_is(c, model@, -1);
        }
        None
    }
}

/// No model name appears twice.
pub open spec fn distinct_names(c: Seq<(Seq<char>, nat)>) -> bool {
    forall|i: int, j: int| 0 <= i < j < c.len() ==> c[i].0 != c[j].0
}

/// Units as the parser produces them: good names, at least one variant each,
/// no variant named twice.
pub open spec fn well_formed_units(us: Seq<UnitSpec>) -> bool {
    forall|i: int|
        0 <= i < us.len() ==> {
            &&& good_unit_name(#[trigger] us[i].name)
            &&& us[i].counts.len() > 0
            &&& distinct_names(us[i].counts)
        }
}

/// A unit name as the parser produces it: trimmed, not empty, not starting with `#`.
pub open spec fn good_unit_name(name: Seq<char>) -> bool {
    name.len() > 0 && name[0] != '#' && trim(name) == name
}

spec fn progress_ok(p: Progress) -> bool {
    &&& forall|i: int|
        0 <= i < p.done.len() ==> good_unit_name(#[trigger] p.done[i].name) && distinct_names(
            p.done[i].counts,
        )
    &&& p.current matches Some(u) ==> good_unit_name(u.name) && distinct_names(u.counts)
}

proof fn lemma_add_count_distinct(c: Seq<(Seq<char>, nat)>, name: Seq<char>, n: nat)
    requires
        distinct_names(c),
    ensures
        distinct_names(add_count(c, name, n)),
{
    lemma_index_of_name(c, name);
    let d = add_count(c, name, n);
    let k = index_of_name(c, name);
    assert forall|i: int, j: int| 0 <= i < j < d.len() implies d[i].0 != d[j].0 by {
        if k < 0 && j == c.len() {
            assert(c[i].0 != name);
        }
    }
}


proof fn lemma_unit_name_good(line: Seq<char>)
    ensures
        parse_unit_line_spec(line) matches Some(n) ==> good_unit_name(n),
{
    let l = trim(line);
    if let Some((open, close)) = paren_span(l) {
        lemma_trim_idempotent(trim_end_char(trim(l.take(open)), ':'));
    }
}

proof fn lemma_step_ok(p: Progress, line: Seq<char>)
    requires
        progress_ok(p),
    ensures
        step(p, line) matches Some(q) ==> progress_ok(q),
{
    lemma_unit_name_good(line);
    if !skipped_line(line) {
        if let Some(m) = strip_bullet_spec(line) {
            if let Some(u) = p.current {
                let (n, name) = parse_count_and_name_spec(m);
                lemma_add_count_distinct(u.counts, name, n as nat);
            }
        } else if let Some(name) = parse_unit_line_spec(line) {
            if let Some(q) = step(p, line) {
                assert forall|i: int| 0 <= i < q.done.len() implies good_unit_name(
                    #[trigger] q.done[i].name,
                ) && distinct_names(q.done[i].counts) by {
                    if i < p.done.len() {
                        assert(q.done[i] == p.done[i]);
                    }
                }
            }
        }
    }
}

proof fn lemma_run_ok(ls: Seq<Seq<char>>)
    ensures
        run(ls) matches Some(p) ==> progress_ok(p),
    decreases ls.len(),
{
    if ls.len() > 0 {
        lemma_run_ok(ls.drop_last());
        if let Some(p) = run(ls.drop_last()) {
            lemma_step_ok(p, ls.last());
        }
    }
}

/// Every unit read from an army list has a trimmed, non-empty name that does
/// not start with `#`, and at least one model variant, each named once.
pub proof fn lemma_parsed_units_well_formed(text: Seq<char>)
    ensures
        parse_listforge_spec(text) matches Some(us) ==> well_formed_units(us),
{
    lemma_run_ok(lines(text));
    if let Some(p) = run(lines(text)) {
        let all = match p.current {
            Some(u) => p.done.push(u),
            None => p.done,
        };
        let us = finish(p);
        assert forall|i: int| 0 <= i < us.len() implies {
            &&& good_unit_name(#[trigger] us[i].name)
            &&& us[i].counts.len() > 0
            &&& distinct_names(us[i].counts)
        } by {
            assert(us[i] == with_self_count(all[i]));
            if i < p.done.len() {
                assert(all[i] == p.done[i]);
            }
        }
    }
}

/// A line that starts a unit: not skipped, not a model line, and a unit
/// line `Unit Name (NNN pts)`.
pub open spec fn starts_unit(line: Seq<char>) -> bool {
    !skipped_line(line) && strip_bullet_spec(line) is None && parse_unit_line_spec(line) is Some
}

/// The names of the lines that start units, in order.
pub open spec fn unit_line_names(ls: Seq<Seq<char>>) -> Seq<Seq<char>>
    decreases ls.len(),
{
    if ls.len() == 0 {
        Seq::empty()
    } else if starts_unit(ls.last()) {
        unit_line_names(ls.drop_last()).push(parse_unit_line_spec(ls.last()).unwrap())
    } else {
        unit_line_names(ls.drop_last())
    }
}

/// The names of the units read so far, the one being read last.
spec fn progress_names(p: Progress) -> Seq<Seq<char>> {
    let all = match p.current {
        Some(u) => p.done.push(u),
        None => p.done,
    };
    all.map_values(|u: UnitSpec| u.name)
}

proof fn lemma_run_names(ls: Seq<Seq<char>>)
    ensures
        run(ls) matches Some(p) ==> progress_names(p) == unit_line_names(ls),
    decreases ls.len(),
{
    if ls.len() > 0 {
        let init = ls.drop_last();
        let line = ls.last();
        lemma_run_names(init);
        if let Some(p) = run(init) {
            if let Some(q) = step(p, line) {
                if !skipped_line(line) {
                    if strip_bullet_spec(line) is Some {
                        if let Some(u) = p.current {
                            let v = q.current.unwrap();
                            assert(v.name == u.name);
                            assert(progress_names(q) =~= progress_names(p));
                        }
                    } else if let Some(name) = parse_unit_line_spec(line) {
                        let all = match p.current {
                            Some(u) => p.done.push(u),
                            None => p.done,
                        };
                        assert(q.done == all);
                        assert(progress_names(q) =~= progress_names(p).push(name));
                    }
                }
            }
        }
    }
}

/// The units read from a list correspond one to one, in order, to its unit
/// lines: there are as many units as lines that start one, and the k-th unit
/// has the k-th such line's name. Two lines naming the same unit give two
/// units.
pub proof fn lemma_units_follow_unit_lines(text: Seq<char>)
    ensures
        parse_listforge_spec(text) matches Some(us) ==> {
            &&& us.len() == unit_line_names(lines(text)).len()
            &&& forall|k: int| 0 <= k < us.len() ==> #[trigger] us[k].name == unit_line_names(lines(text))[k]
        },
{
    lemma_run_names(lines(text));
    if let Some(p) = run(lines(text)) {
        let all = match p.current {
            Some(u) => p.done.push(u),
            None => p.done,
        };
        let us = finish(p);
        assert(us.len() == all.len());
        assert forall|k: int| 0 <= k < us.len() implies #[trigger] us[k].name == unit_line_names(
            lines(text),
        )[k] by {
            assert(us[k] == with_self_count(all[k]));
            assert(progress_names(p)[k] == all[k].name);
        }
    }
}

} // verus!

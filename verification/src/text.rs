//! Character-sequence operations on which the parsers are built, each stated
//! over `Seq<char>` and implemented on `Vec<char>`.
use vstd::prelude::*;

verus! {

broadcast use vstd::seq_lib::group_seq_properties;

/// `char::is_whitespace`: the Unicode `White_Space` property.
pub open spec fn is_ws(c: char) -> bool {
    let u = c as u32;
    ||| 0x9 <= u <= 0xd
    ||| u == 0x20
    ||| u == 0x85
    ||| u == 0xa0
    ||| u == 0x1680
    ||| 0x2000 <= u <= 0x200a
    ||| u == 0x2028
    ||| u == 0x2029
    ||| u == 0x202f
    ||| u == 0x205f
    ||| u == 0x3000
}

/// `str::trim_start`: drops leading whitespace.
pub open spec fn trim_start(s: Seq<char>) -> Seq<char>
    decreases s.len(),
{
    if s.len() > 0 && is_ws(s[0]) {
        trim_start(s.drop_first())
    } else {
        s
    }
}

/// `str::trim_end`: drops trailing whitespace.
pub open spec fn trim_end(s: Seq<char>) -> Seq<char>
    decreases s.len(),
{
    if s.len() > 0 && is_ws(s.last()) {
        trim_end(s.drop_last())
    } else {
        s
    }
}

/// `str::trim`: drops whitespace at both ends.
pub open spec fn trim(s: Seq<char>) -> Seq<char> {
    trim_end(trim_start(s))
}

/// Whether `p` is a prefix of `s`.
pub open spec fn starts_with(s: Seq<char>, p: Seq<char>) -> bool {
    p.len() <= s.len() && s.take(p.len() as int) == p
}

/// Whether `p` is a suffix of `s`.
pub open spec fn ends_with(s: Seq<char>, p: Seq<char>) -> bool {
    p.len() <= s.len() && s.skip(s.len() - p.len()) == p
}

/// Whether `p` occurs in `s` at position `i`.
pub open spec fn occurs_at(s: Seq<char>, p: Seq<char>, i: int) -> bool {
    0 <= i && i + p.len() <= s.len() && s.subrange(i, i + p.len()) == p
}

/// `str::contains` with a string pattern.
pub open spec fn contains(s: Seq<char>, p: Seq<char>) -> bool {
    exists|i: int| occurs_at(s, p, i)
}

/// `str::find` with a character: the first position of `c`.
pub open spec fn find_char(s: Seq<char>, c: char) -> Option<int>
    decreases s.len(),
{
    if s.len() == 0 {
        None
    } else if s[0] == c {
        Some(0)
    } else {
        match find_char(s.drop_first(), c) {
            Some(i) => Some(i + 1),
            None => None,
        }
    }
}

/// `str::rfind` with a character: the last position of `c`.
pub open spec fn rfind_char(s: Seq<char>, c: char) -> Option<int>
    decreases s.len(),
{
    if s.len() == 0 {
        None
    } else if s.last() == c {
        Some(s.len() - 1)
    } else {
        rfind_char(s.drop_last(), c)
    }
}

/// `String::push`: appends one character.
#[verifier::external_body]
fn push_char(s: &mut String, c: char)
    ensures
        final(s)@ == old(s)@.push(c),
{
    s.push(c);
}

/// Copies the characters of a string slice into a vector.
pub fn chars_of(s: &str) -> (r: Vec<char>)
    ensures
        r@ == s@,
{
    let mut r: Vec<char> = Vec::new();
    for c in it: s.chars()
        invariant
            r@ == it.seq().take(it.index() as int),
    {
        r.push(c);
    }
    r
}

/// Builds a `String` from a sequence of characters.
pub fn string_of(v: &Vec<char>) -> (r: String)
    ensures
        r@ == v@,
{
    let mut r = String::new();
    for i in 0..v.len()
        invariant
            r@ == v@.take(i as int),
    {
        push_char(&mut r, v[i]);
        assert(v@.take(i + 1) == v@.take(i as int).push(v@[i as int]));
    }
    assert(v@.take(v.len() as int) == v@);
    r
}

/// Copies `s[lo..hi]`.
pub fn copy_range(s: &Vec<char>, lo: usize, hi: usize) -> (r: Vec<char>)
    requires
        lo <= hi <= s.len(),
    ensures
        r@ == s@.subrange(lo as int, hi as int),
{
    let mut r: Vec<char> = Vec::new();
    let mut i = lo;
    while i < hi
        invariant
            lo <= i <= hi <= s.len(),
            r@ == s@.subrange(lo as int, i as int),
        decreases hi - i,
    {
        r.push(s[i]);
        assert(s@.subrange(lo as int, i + 1) == s@.subrange(lo as int, i as int).push(s@[i as int]));
        i = i + 1;
    }
    r
}

/// `char::is_whitespace`.
pub fn char_is_ws(c: char) -> (b: bool)
    ensures
        b == is_ws(c),
{
    let u = c as u32;
    (0x9 <= u && u <= 0xd) || u == 0x20 || u == 0x85 || u == 0xa0 || u == 0x1680 || (0x2000 <= u
        && u <= 0x200a) || u == 0x2028 || u == 0x2029 || u == 0x202f || u == 0x205f || u == 0x3000
}

proof fn lemma_trim_start_skip(s: Seq<char>, i: int)
    requires
        0 <= i <= s.len(),
        forall|j: int| 0 <= j < i ==> is_ws(#[trigger] s[j]),
    ensures
        trim_start(s) == trim_start(s.skip(i)),
    decreases i,
{
    if i > 0 {
        assert(s.drop_first().skip(i - 1) == s.skip(i));
        lemma_trim_start_skip(s.drop_first(), i - 1);
    } else {
        assert(s.skip(0) == s);
    }
}

proof fn lemma_trim_end_take(s: Seq<char>, i: int)
    requires
        0 <= i <= s.len(),
        forall|j: int| i <= j < s.len() ==> is_ws(#[trigger] s[j]),
    ensures
        trim_end(s) == trim_end(s.take(i)),
    decreases s.len() - i,
{
    if i < s.len() {
        assert(s.drop_last().take(i) == s.take(i));
        lemma_trim_end_take(s.drop_last(), i);
    } else {
        assert(s.take(i) == s);
    }
}

/// Position of the first non-whitespace character (or the length).
pub fn trim_start_index(s: &Vec<char>) -> (i: usize)
    ensures
        i <= s.len(),
        trim_start(s@) == s@.skip(i as int),
        forall|j: int| 0 <= j < i ==> is_ws(#[trigger] s@[j]),
        i < s.len() ==> !is_ws(s@[i as int]),
{
    let mut i: usize = 0;
    while i < s.len() && char_is_ws(s[i])
        invariant
            i <= s.len(),
            forall|j: int| 0 <= j < i ==> is_ws(#[trigger] s@[j]),
        decreases s.len() - i,
    {
        i = i + 1;
    }
    proof {
        lemma_trim_start_skip(s@, i as int);
        let t = s@.skip(i as int);
        if t.len() > 0 {
            assert(t[0] == s@[i as int]);
        }
    }
    i
}

/// Position just past the last non-whitespace character of `s[..hi]`.
pub fn trim_end_index(s: &Vec<char>, hi: usize) -> (k: usize)
    requires
        hi <= s.len(),
    ensures
        k <= hi,
        trim_end(s@.take(hi as int)) == s@.take(k as int),
        forall|j: int| k <= j < hi ==> is_ws(#[trigger] s@[j]),
        k > 0 ==> !is_ws(s@[k - 1]),
{
    let mut k: usize = hi;
    while k > 0 && char_is_ws(s[k - 1])
        invariant
            k <= hi <= s.len(),
            forall|j: int| k <= j < hi ==> is_ws(#[trigger] s@[j]),
        decreases k,
    {
        k = k - 1;
    }
    proof {
        let t = s@.take(hi as int);
        assert forall|j: int| k <= j < t.len() implies is_ws(#[trigger] t[j]) by {
            assert(t[j] == s@[j]);
        }
        lemma_trim_end_take(t, k as int);
        assert(t.take(k as int) == s@.take(k as int));
        let u = s@.take(k as int);
        if u.len() > 0 {
            assert(u.last() == s@[k - 1]);
        }
    }
    k
}

/// `str::trim`.
pub fn trimmed(s: &Vec<char>) -> (r: Vec<char>)
    ensures
        r@ == trim(s@),
{
    let lo = trim_start_index(s);
    let hi = trim_end_index(s, s.len());
    proof {
        assert(s@.take(s.len() as int) == s@);
    }
    if hi <= lo {
        proof {
            let t = s@.skip(lo as int);
            assert forall|j: int| 0 <= j < t.len() implies is_ws(#[trigger] t[j]) by {
                assert(t[j] == s@[j + lo]);
            }
            lemma_trim_end_take(t, 0);
            assert(t.take(0) =~= Seq::<char>::empty());
        }
        Vec::new()
    } else {
        proof {
            let t = s@.skip(lo as int);
            assert forall|j: int| hi - lo <= j < t.len() implies is_ws(#[trigger] t[j]) by {
                assert(t[j] == s@[j + lo]);
            }
            lemma_trim_end_take(t, hi - lo);
            assert(t.take(hi - lo) == s@.subrange(lo as int, hi as int));
            let u = t.take(hi - lo);
            assert(u.last() == s@[hi - 1]);
            assert(s@.take(hi as int).last() == s@[hi - 1]);
        }
        copy_range(s, lo, hi)
    }
}

/// `str::trim_start`.
pub fn trimmed_start(s: &Vec<char>) -> (r: Vec<char>)
    ensures
        r@ == trim_start(s@),
{
    let lo = trim_start_index(s);
    proof {
        assert(s@.skip(lo as int) == s@.subrange(lo as int, s.len() as int));
    }
    copy_range(s, lo, s.len())
}


/// `str::trim_end_matches` with a character.
pub open spec fn trim_end_char(s: Seq<char>, c: char) -> Seq<char>
    decreases s.len(),
{
    if s.len() > 0 && s.last() == c {
        trim_end_char(s.drop_last(), c)
    } else {
        s
    }
}

/// `str::trim_start_matches` with a character.
pub open spec fn trim_start_char(s: Seq<char>, c: char) -> Seq<char>
    decreases s.len(),
{
    if s.len() > 0 && s[0] == c {
        trim_start_char(s.drop_first(), c)
    } else {
        s
    }
}

/// Drops the carriage return that may precede a line feed.
pub open spec fn strip_cr(s: Seq<char>) -> Seq<char> {
    if s.len() > 0 && s.last() == '\r' {
        s.drop_last()
    } else {
        s
    }
}

/// `str::lines`: split at `\n` or `\r\n`; a final line ending is optional and a
/// final line without one keeps any trailing `\r`.
pub open spec fn lines(s: Seq<char>) -> Seq<Seq<char>>
    decreases s.len(),
{
    if s.len() == 0 {
        Seq::empty()
    } else {
        match find_char(s, '\n') {
            None => seq![s],
            Some(i) => if 0 <= i < s.len() {
                seq![strip_cr(s.take(i))] + lines(s.skip(i + 1))
            } else {
                Seq::empty()
            },
        }
    }
}

/// The text before the first `c` (the first item of `str::split(c)`).
pub open spec fn before_char(s: Seq<char>, c: char) -> Seq<char> {
    match find_char(s, c) {
        Some(i) => s.take(i),
        None => s,
    }
}

/// `str::split(c)` when it yields exactly two pieces: the text before and after
/// the only `c`; `None` when `c` occurs zero times or more than once.
pub open spec fn split_in_two(s: Seq<char>, c: char) -> Option<(Seq<char>, Seq<char>)> {
    match find_char(s, c) {
        Some(i) => if find_char(s.skip(i + 1), c) is None {
            Some((s.take(i), s.skip(i + 1)))
        } else {
            None
        },
        None => None,
    }
}

/// `str::replace` with a non-empty pattern: every non-overlapping occurrence,
/// scanning from the left, is replaced.
pub open spec fn replace(s: Seq<char>, pat: Seq<char>, rep: Seq<char>) -> Seq<char>
    decreases s.len(),
{
    if s.len() == 0 {
        Seq::empty()
    } else if pat.len() > 0 && starts_with(s, pat) {
        rep + replace(s.skip(pat.len() as int), pat, rep)
    } else {
        seq![s[0]] + replace(s.drop_first(), pat, rep)
    }
}

/// What `find_char` returns, stated by its properties.
pub proof fn lemma_find_char(s: Seq<char>, c: char)
    ensures
        match find_char(s, c) {
            Some(i) => 0 <= i < s.len() && s[i] == c && forall|j: int| 0 <= j < i ==> s[j] != c,
            None => forall|j: int| 0 <= j < s.len() ==> s[j] != c,
        },
    decreases s.len(),
{
    if s.len() > 0 && s[0] != c {
        lemma_find_char(s.drop_first(), c);
        match find_char(s.drop_first(), c) {
            Some(i) => {
                assert forall|j: int| 0 <= j < i + 1 implies s[j] != c by {
                    if j > 0 {
                        assert(s[j] == s.drop_first()[j - 1]);
                    }
                }
            },
            None => {
                assert forall|j: int| 0 <= j < s.len() implies s[j] != c by {
                    if j > 0 {
                        assert(s[j] == s.drop_first()[j - 1]);
                    }
                }
            },
        }
    }
}

/// `find_char` is determined by the position it should return.
pub proof fn lemma_find_char_is(s: Seq<char>, c: char, k: int)
    requires
        0 <= k < s.len(),
        s[k] == c,
        forall|j: int| 0 <= j < k ==> s[j] != c,
    ensures
        find_char(s, c) == Some(k),
{
    lemma_find_char(s, c);
    match find_char(s, c) {
        Some(i) => {
            if i < k {
                assert(s[i] != c);
            } else if i > k {
                assert(s[k] != c);
            }
        },
        None => {
            assert(s[k] != c);
        },
    }
}

/// `find_char` is `None` exactly when the character is absent.
pub proof fn lemma_find_char_none(s: Seq<char>, c: char)
    requires
        forall|j: int| 0 <= j < s.len() ==> s[j] != c,
    ensures
        find_char(s, c) is None,
{
    lemma_find_char(s, c);
    if let Some(i) = find_char(s, c) {
        assert(s[i] == c);
    }
}

/// What `rfind_char` returns, stated by its properties.
pub proof fn lemma_rfind_char(s: Seq<char>, c: char)
    ensures
        match rfind_char(s, c) {
            Some(i) => 0 <= i < s.len() && s[i] == c && forall|j: int| i < j < s.len() ==> s[j] != c,
            None => forall|j: int| 0 <= j < s.len() ==> s[j] != c,
        },
    decreases s.len(),
{
    if s.len() > 0 && s.last() != c {
        lemma_rfind_char(s.drop_last(), c);
        match rfind_char(s.drop_last(), c) {
            Some(i) => {
                assert forall|j: int| i < j < s.len() implies s[j] != c by {
                    if j < s.len() - 1 {
                        assert(s[j] == s.drop_last()[j]);
                    }
                }
            },
            None => {
                assert forall|j: int| 0 <= j < s.len() implies s[j] != c by {
                    if j < s.len() - 1 {
                        assert(s[j] == s.drop_last()[j]);
                    }
                }
            },
        }
    }
}

/// `str::find` with a character.
pub fn find(s: &Vec<char>, c: char) -> (r: Option<usize>)
    ensures
        match r {
            Some(i) => find_char(s@, c) == Some(i as int),
            None => find_char(s@, c) is None,
        },
{
    let mut i: usize = 0;
    while i < s.len()
        invariant
            i <= s.len(),
            forall|j: int| 0 <= j < i ==> s@[j] != c,
        decreases s.len() - i,
    {
        if s[i] == c {
            proof {
                lemma_find_char_is(s@, c, i as int);
            }
            return Some(i);
        }
        i = i + 1;
    }
    proof {
        lemma_find_char_none(s@, c);
    }
    None
}

/// `str::rfind` with a character, searched within `s[..hi]`.
pub fn rfind_before(s: &Vec<char>, c: char, hi: usize) -> (r: Option<usize>)
    requires
        hi <= s.len(),
    ensures
        match r {
            Some(i) => i < hi && rfind_char(s@.take(hi as int), c) == Some(i as int),
            None => rfind_char(s@.take(hi as int), c) is None,
        },
{
    let ghost t = s@.take(hi as int);
    let mut k: usize = hi;
    while k > 0
        invariant
            k <= hi <= s.len(),
            t == s@.take(hi as int),
            forall|j: int| k <= j < hi ==> s@[j] != c,
        decreases k,
    {
        if s[k - 1] == c {
            proof {
                lemma_rfind_char(t, c);
                match rfind_char(t, c) {
                    Some(i) => {
                        if i < k - 1 {
                            assert(t[k - 1] == c);
                        } else if i > k - 1 {
                            assert(s@[i] != c);
                        }
                    },
                    None => {
                        assert(t[k - 1] == c);
                    },
                }
            }
            return Some(k - 1);
        }
        k = k - 1;
    }
    proof {
        lemma_rfind_char(t, c);
        if let Some(i) = rfind_char(t, c) {
            assert(s@[i] != c);
        }
    }
    None
}

/// Whether `p` occurs in `s` at position `i`.
pub fn matches_at(s: &Vec<char>, p: &Vec<char>, i: usize) -> (b: bool)
    ensures
        b == occurs_at(s@, p@, i as int),
{
    if i > s.len() || p.len() > s.len() - i {
        return false;
    }
    let mut k: usize = 0;
    while k < p.len()
        invariant
            i + p.len() <= s.len(),
            k <= p.len(),
            forall|j: int| 0 <= j < k ==> s@[i + j] == p@[j],
        decreases p.len() - k,
    {
        if s[i + k] != p[k] {
            proof {
                assert(s@.subrange(i as int, i + p.len())[k as int] == s@[i + k]);
            }
            return false;
        }
        k = k + 1;
    }
    proof {
        assert(s@.subrange(i as int, i + p.len()) =~= p@);
    }
    true
}

/// `str::starts_with`.
pub fn has_prefix(s: &Vec<char>, p: &Vec<char>) -> (b: bool)
    ensures
        b == starts_with(s@, p@),
{
    let b = matches_at(s, p, 0);
    proof {
        if p@.len() <= s@.len() {
            assert(s@.subrange(0, p@.len() as int) == s@.take(p@.len() as int));
        }
    }
    b
}

/// `str::ends_with`.
pub fn has_suffix(s: &Vec<char>, p: &Vec<char>) -> (b: bool)
    ensures
        b == ends_with(s@, p@),
{
    if p.len() > s.len() {
        return false;
    }
    let b = matches_at(s, p, s.len() - p.len());
    proof {
        assert(s@.subrange(s.len() - p.len(), s.len() as int) == s@.skip(s.len() - p.len()));
    }
    b
}

/// `str::contains` with a string pattern.
pub fn has_substring(s: &Vec<char>, p: &Vec<char>) -> (b: bool)
    ensures
        b == contains(s@, p@),
{
    if p.len() > s.len() {
        return false;
    }
    let lim = s.len() - p.len();
    let mut i: usize = 0;
    loop
        invariant
            p.len() <= s.len(),
            lim == s.len() - p.len(),
            i <= lim,
            forall|j: int| 0 <= j < i ==> !occurs_at(s@, p@, j),
        ensures
            forall|j: int| 0 <= j <= lim ==> !occurs_at(s@, p@, j),
        decreases lim - i,
    {
        if matches_at(s, p, i) {
            return true;
        }
        if i == lim {
            break;
        }
        i = i + 1;
    }
    proof {
        assert forall|j: int| !occurs_at(s@, p@, j) by {
            if 0 <= j <= lim {
            }
        }
    }
    false
}


/// The sequences of a vector of character vectors.
pub open spec fn views(v: Seq<Vec<char>>) -> Seq<Seq<char>> {
    v.map_values(|x: Vec<char>| x@)
}

proof fn lemma_views_push(v: Seq<Vec<char>>, x: Vec<char>)
    ensures
        views(v.push(x)) == views(v).push(x@),
{
    assert(views(v.push(x)) =~= views(v).push(x@));
}

proof fn lemma_lines_step(s: Seq<char>, start: int, i: int)
    requires
        0 <= start <= i < s.len(),
        s[i] == '\n',
        forall|j: int| start <= j < i ==> s[j] != '\n',
    ensures
        lines(s.skip(start)) == seq![strip_cr(s.subrange(start, i))] + lines(s.skip(i + 1)),
{
    let t = s.skip(start);
    lemma_find_char_is(t, '\n', i - start);
    assert(t.take(i - start) == s.subrange(start, i));
    assert(t.skip(i - start + 1) == s.skip(i + 1));
}

/// `str::lines`.
#[verifier::rlimit(50)]
pub fn split_lines(s: &Vec<char>) -> (r: Vec<Vec<char>>)
    ensures
        views(r@) == lines(s@),
{
    let mut r: Vec<Vec<char>> = Vec::new();
    let mut start: usize = 0;
    let mut i: usize = 0;
    proof {
        assert(s@.skip(0) == s@);
        assert(views(r@) =~= Seq::<Seq<char>>::empty());
    }
    while i < s.len()
        invariant
            start <= i <= s.len(),
            lines(s@) == views(r@) + lines(s@.skip(start as int)),
            forall|j: int| start <= j < i ==> s@[j] != '\n',
        decreases s.len() - i,
    {
        if s[i] == '\n' {
            let mut line = copy_range(s, start, i);
            if line.len() > 0 && line[line.len() - 1] == '\r' {
                line.pop();
            }
            proof {
                lemma_lines_step(s@, start as int, i as int);
                lemma_views_push(r@, line);
                assert(views(r@.push(line)) + lines(s@.skip(i + 1)) =~= views(r@) + (seq![line@]
                    + lines(s@.skip(i + 1))));
            }
            r.push(line);
            start = i + 1;
        }
        i = i + 1;
    }
    if start < s.len() {
        let line = copy_range(s, start, s.len());
        proof {
            let t = s@.skip(start as int);
            assert forall|j: int| 0 <= j < t.len() implies t[j] != '\n' by {
                assert(t[j] == s@[start + j]);
            }
            lemma_find_char_none(t, '\n');
            assert(t == line@);
            lemma_views_push(r@, line);
            assert(lines(t) == seq![line@]);
            assert(views(r@.push(line)) =~= views(r@) + lines(t));
        }
        r.push(line);
    } else {
        proof {
            assert(s@.skip(start as int).len() == 0);
            assert(views(r@) + lines(s@.skip(start as int)) =~= views(r@));
        }
    }
    r
}

/// Appends all of `b` to `a`.
pub fn append_chars(a: &mut Vec<char>, b: &Vec<char>)
    ensures
        final(a)@ == old(a)@ + b@,
{
    let ghost a0 = a@;
    for k in 0..b.len()
        invariant
            a@ == a0 + b@.take(k as int),
    {
        a.push(b[k]);
        assert(b@.take(k + 1) == b@.take(k as int).push(b@[k as int]));
        assert(a0 + b@.take(k + 1) =~= (a0 + b@.take(k as int)).push(b@[k as int]));
    }
    assert(b@.take(b.len() as int) == b@);
}

/// `str::replace` with a non-empty pattern.
pub fn replaced(s: &Vec<char>, pat: &Vec<char>, rep: &Vec<char>) -> (r: Vec<char>)
    requires
        pat.len() > 0,
    ensures
        r@ == replace(s@, pat@, rep@),
{
    let mut r: Vec<char> = Vec::new();
    let mut i: usize = 0;
    proof {
        assert(s@.skip(0) == s@);
        assert(r@ + replace(s@, pat@, rep@) =~= replace(s@, pat@, rep@));
    }
    while i < s.len()
        invariant
            i <= s.len(),
            pat.len() > 0,
            replace(s@, pat@, rep@) == r@ + replace(s@.skip(i as int), pat@, rep@),
        decreases s.len() - i,
    {
        let ghost t = s@.skip(i as int);
        let ghost r0 = r@;
        if matches_at(s, pat, i) {
            proof {
                assert(t.take(pat.len() as int) == s@.subrange(i as int, i + pat.len()));
                assert(t.skip(pat.len() as int) == s@.skip(i + pat.len()));
            }
            append_chars(&mut r, rep);
            proof {
                assert(r0 + (rep@ + replace(s@.skip(i + pat.len()), pat@, rep@)) =~= r@ + replace(
                    s@.skip(i + pat.len()),
                    pat@,
                    rep@,
                ));
            }
            i = i + pat.len();
        } else {
            proof {
                if pat@.len() <= t.len() {
                    assert(t.take(pat.len() as int) == s@.subrange(i as int, i + pat.len()));
                }
                assert(t.drop_first() == s@.skip(i + 1));
                assert(t[0] == s@[i as int]);
            }
            r.push(s[i]);
            proof {
                assert(r0 + (seq![s@[i as int]] + replace(s@.skip(i + 1), pat@, rep@)) =~= r@
                    + replace(s@.skip(i + 1), pat@, rep@));
            }
            i = i + 1;
        }
    }
    proof {
        assert(s@.skip(i as int).len() == 0);
        assert(r@ + replace(s@.skip(i as int), pat@, rep@) =~= r@);
    }
    r
}

proof fn lemma_trim_end_char_take(s: Seq<char>, c: char, i: int)
    requires
        0 <= i <= s.len(),
        forall|j: int| i <= j < s.len() ==> #[trigger] s[j] == c,
    ensures
        trim_end_char(s, c) == trim_end_char(s.take(i), c),
    decreases s.len() - i,
{
    if i < s.len() {
        assert(s.drop_last().take(i) == s.take(i));
        lemma_trim_end_char_take(s.drop_last(), c, i);
    } else {
        assert(s.take(i) == s);
    }
}

proof fn lemma_trim_start_char_skip(s: Seq<char>, c: char, i: int)
    requires
        0 <= i <= s.len(),
        forall|j: int| 0 <= j < i ==> #[trigger] s[j] == c,
    ensures
        trim_start_char(s, c) == trim_start_char(s.skip(i), c),
    decreases i,
{
    if i > 0 {
        assert(s.drop_first().skip(i - 1) == s.skip(i));
        lemma_trim_start_char_skip(s.drop_first(), c, i - 1);
    } else {
        assert(s.skip(0) == s);
    }
}

/// `str::trim_end_matches` with a character.
pub fn trimmed_end_char(s: &Vec<char>, c: char) -> (r: Vec<char>)
    ensures
        r@ == trim_end_char(s@, c),
{
    let mut k: usize = s.len();
    while k > 0 && s[k - 1] == c
        invariant
            k <= s.len(),
            forall|j: int| k <= j < s.len() ==> #[trigger] s@[j] == c,
        decreases k,
    {
        k = k - 1;
    }
    proof {
        lemma_trim_end_char_take(s@, c, k as int);
        let u = s@.take(k as int);
        if u.len() > 0 {
            assert(u.last() == s@[k - 1]);
        }
        assert(u == s@.subrange(0, k as int));
    }
    copy_range(s, 0, k)
}

/// `str::trim_start_matches` with a character.
pub fn trimmed_start_char(s: &Vec<char>, c: char) -> (r: Vec<char>)
    ensures
        r@ == trim_start_char(s@, c),
{
    let mut i: usize = 0;
    while i < s.len() && s[i] == c
        invariant
            i <= s.len(),
            forall|j: int| 0 <= j < i ==> #[trigger] s@[j] == c,
        decreases s.len() - i,
    {
        i = i + 1;
    }
    proof {
        lemma_trim_start_char_skip(s@, c, i as int);
        let u = s@.skip(i as int);
        if u.len() > 0 {
            assert(u[0] == s@[i as int]);
        }
        assert(u == s@.subrange(i as int, s.len() as int));
    }
    copy_range(s, i, s.len())
}

/// The first item of `str::split(c)`: the text before the first `c`.
pub fn prefix_before(s: &Vec<char>, c: char) -> (r: Vec<char>)
    ensures
        r@ == before_char(s@, c),
{
    match find(s, c) {
        Some(i) => {
            proof {
                lemma_find_char(s@, c);
                assert(s@.take(i as int) == s@.subrange(0, i as int));
            }
            copy_range(s, 0, i)
        },
        None => {
            proof {
                assert(s@.subrange(0, s.len() as int) == s@);
            }
            copy_range(s, 0, s.len())
        },
    }
}

/// `str::split(c)` when it yields exactly two pieces.
pub fn split_two(s: &Vec<char>, c: char) -> (r: Option<(Vec<char>, Vec<char>)>)
    ensures
        match r {
            Some((a, b)) => split_in_two(s@, c) == Some((a@, b@)),
            None => split_in_two(s@, c) is None,
        },
{
    match find(s, c) {
        Some(i) => {
            proof {
                lemma_find_char(s@, c);
            }
            let a = copy_range(s, 0, i);
            let b = copy_range(s, i + 1, s.len());
            proof {
                assert(a@ == s@.take(i as int));
                assert(b@ == s@.skip(i + 1));
            }
            match find(&b, c) {
                Some(_) => None,
                None => Some((a, b)),
            }
        },
        None => None,
    }
}

/// Trimming text that is already trimmed changes nothing.
pub proof fn lemma_trim_idempotent(s: Seq<char>)
    ensures
        trim(trim(s)) == trim(s),
{
    lemma_trim_start_end(s);
    let t = trim(s);
    lemma_trim_ends(s);
    if t.len() > 0 {
        assert(trim_start(t) == t);
        assert(trim_end(t) == t);
    } else {
        assert(trim_start(t) == t);
    }
}

pub proof fn lemma_trim_start_end(s: Seq<char>)
    ensures
        trim_start(s).len() > 0 ==> !is_ws(trim_start(s)[0]),
    decreases s.len(),
{
    if s.len() > 0 && is_ws(s[0]) {
        lemma_trim_start_end(s.drop_first());
    }
}

pub proof fn lemma_trim_end_last(s: Seq<char>)
    ensures
        trim_end(s).len() > 0 ==> !is_ws(trim_end(s).last()),
        trim_end(s).len() <= s.len(),
        forall|i: int| 0 <= i < trim_end(s).len() ==> trim_end(s)[i] == s[i],
    decreases s.len(),
{
    if s.len() > 0 && is_ws(s.last()) {
        lemma_trim_end_last(s.drop_last());
        assert forall|i: int| 0 <= i < trim_end(s).len() implies trim_end(s)[i] == s[i] by {
            assert(s.drop_last()[i] == s[i]);
        }
    }
}

pub proof fn lemma_trim_ends(s: Seq<char>)
    ensures
        trim(s).len() > 0 ==> !is_ws(trim(s)[0]) && !is_ws(trim(s).last()),
{
    lemma_trim_start_end(s);
    lemma_trim_end_last(trim_start(s));
}

} // verus!

//! Base sizes and movement from the datasheet tables: parsing the `base_size`
//! text into a base shape, and looking models up by unit and model name.
use vstd::prelude::*;

use crate::assoc::{assoc, distinct_keys, has_key, lemma_assoc_at, lemma_assoc_empty, lemma_assoc_push, lemma_assoc_update};
use crate::numeral::{float_literal, is_float_literal};
use crate::rounding::{is_positive_literal, positive_literal};
use crate::text::{
    chars_of, contains, copy_range, find, find_char, has_prefix, has_substring, is_ws, lemma_find_char,
    lines, occurs_at, replace, replaced, split_in_two, split_lines, split_two, starts_with, string_of, trim,
    trim_end_char, trimmed, trimmed_end_char, char_is_ws, views,
};

verus! {

broadcast use vstd::seq_lib::group_seq_properties;

/// Shape of a model's physical base, parsed from `base_size` text. Each size
/// is the numeral as written, in millimetres, and is text that `f32::from_str`
/// accepts.
#[derive(Debug, Clone, PartialEq)]
pub enum BaseShape {
    Circle { diameter_mm: String },
    Oval { width_mm: String, height_mm: String },
    /// Vehicles.
    Hull,
    FlyingBase { large: bool },
    /// "Unique" or unrecognized.
    Unknown,
}

/// A base shape as the contracts see it.
pub enum ShapeSpec {
    Circle { diameter_mm: Seq<char> },
    Oval { width_mm: Seq<char>, height_mm: Seq<char> },
    Hull,
    FlyingBase { large: bool },
    Unknown,
}

impl View for BaseShape {
    type V = ShapeSpec;

    open spec fn view(&self) -> ShapeSpec {
        match self {
            BaseShape::Circle { diameter_mm } => ShapeSpec::Circle { diameter_mm: diameter_mm@ },
            BaseShape::Oval { width_mm, height_mm } => ShapeSpec::Oval {
                width_mm: width_mm@,
                height_mm: height_mm@,
            },
            BaseShape::Hull => ShapeSpec::Hull,
            BaseShape::FlyingBase { large } => ShapeSpec::FlyingBase { large: *large },
            BaseShape::Unknown => ShapeSpec::Unknown,
        }
    }
}

/// What `str::to_lowercase` returns for the characters `s`.
pub uninterp spec fn lowercase(s: Seq<char>) -> Seq<char>;

/// Calls `str::to_lowercase`; its result is named `lowercase`, nothing more
/// is claimed of it.
#[verifier::external_body]
fn to_lowercase(s: &str) -> (r: String)
    ensures
        r@ == lowercase(s@),
{
    s.to_lowercase()
}

/// The lowercase form of a character sequence.
pub fn lowercase_chars(v: &Vec<char>) -> (r: Vec<char>)
    ensures
        r@ == lowercase(v@),
{
    let s = string_of(v);
    let l = to_lowercase(s.as_str());
    chars_of(l.as_str())
}

/// `large flying base`
pub open spec fn large_flying_base() -> Seq<char> {
    seq!['l', 'a', 'r', 'g', 'e', ' ', 'f', 'l', 'y', 'i', 'n', 'g', ' ', 'b', 'a', 's', 'e']
}

/// `small flying base`
pub open spec fn small_flying_base() -> Seq<char> {
    seq!['s', 'm', 'a', 'l', 'l', ' ', 'f', 'l', 'y', 'i', 'n', 'g', ' ', 'b', 'a', 's', 'e']
}

/// `flying base`
pub open spec fn flying_base() -> Seq<char> {
    seq!['f', 'l', 'y', 'i', 'n', 'g', ' ', 'b', 'a', 's', 'e']
}

/// `hull`
pub open spec fn hull() -> Seq<char> {
    seq!['h', 'u', 'l', 'l']
}

/// `hull `
pub open spec fn hull_space() -> Seq<char> {
    seq!['h', 'u', 'l', 'l', ' ']
}

/// `unique`
pub open spec fn unique() -> Seq<char> {
    seq!['u', 'n', 'i', 'q', 'u', 'e']
}

/// `n/a`
pub open spec fn not_applicable() -> Seq<char> {
    seq!['n', '/', 'a']
}

/// `oval base`
pub open spec fn oval_base() -> Seq<char> {
    seq!['o', 'v', 'a', 'l', ' ', 'b', 'a', 's', 'e']
}

/// `oval`
pub open spec fn oval() -> Seq<char> {
    seq!['o', 'v', 'a', 'l']
}

/// `mm`
pub open spec fn mm() -> Seq<char> {
    seq!['m', 'm']
}

/// The multiplication sign, `×`.
pub open spec fn times_sign() -> char {
    '\u{d7}'
}

/// An oval from lowercased text: with `oval base`, `oval` and `mm` removed and
/// the rest trimmed, exactly one `x` must separate two float numerals.
pub open spec fn oval_from_lower_spec(lower: Seq<char>) -> Option<ShapeSpec> {
    let stripped = trim(replace(replace(replace(lower, oval_base(), Seq::empty()), oval(), Seq::empty()), mm(), Seq::empty()));
    match split_in_two(stripped, 'x') {
        Some((a, b)) => if is_float_literal(trim(a)) && is_float_literal(trim(b)) {
            Some(ShapeSpec::Oval { width_mm: trim(a), height_mm: trim(b) })
        } else {
            None
        },
        None => None,
    }
}

/// The text up to the first whitespace character.
pub open spec fn first_word(s: Seq<char>) -> Seq<char>
    decreases s.len(),
{
    if s.len() == 0 || is_ws(s[0]) {
        Seq::empty()
    } else {
        seq![s[0]] + first_word(s.drop_first())
    }
}

/// A circle from lowercased text: with `mm` removed and the rest trimmed, the
/// first word must be a float numeral that `f32` reads as greater than zero.
pub open spec fn circle_from_lower_spec(lower: Seq<char>) -> Option<ShapeSpec> {
    let cleaned = trim(replace(lower, mm(), Seq::empty()));
    if cleaned.len() == 0 {
        None
    } else if is_positive_literal(first_word(cleaned)) {
        Some(ShapeSpec::Circle { diameter_mm: first_word(cleaned) })
    } else {
        None
    }
}

/// `try_parse_oval`: `×` becomes `x`, then the text is lowercased.
pub open spec fn oval_spec(s: Seq<char>) -> Option<ShapeSpec> {
    oval_from_lower_spec(lowercase(replace(s, seq![times_sign()], seq!['x'])))
}

/// `try_parse_circle`.
pub open spec fn circle_spec(s: Seq<char>) -> Option<ShapeSpec> {
    circle_from_lower_spec(lowercase(s))
}

/// The line of a `base_size` text that is read: the first line, trimmed, and
/// from it the text after the first `:` (trimmed again) when there is one.
pub open spec fn size_line(raw: Seq<char>) -> Seq<char> {
    let ls = lines(raw);
    let first = if ls.len() > 0 {
        ls[0]
    } else {
        raw
    };
    let line = trim(first);
    match find_char(line, ':') {
        Some(p) => trim(line.skip(p + 1)),
        None => line,
    }
}

/// The shape of a size line, given its lowercase form `lower` and `as_oval` and
/// `as_circle`, what reading it as an oval and as a circle gives.
pub open spec fn shape_of_line(
    lower: Seq<char>,
    as_oval: Option<ShapeSpec>,
    as_circle: Option<ShapeSpec>,
) -> ShapeSpec {
    if contains(lower, large_flying_base()) {
        ShapeSpec::FlyingBase { large: true }
    } else if contains(lower, small_flying_base()) || contains(lower, flying_base()) {
        ShapeSpec::FlyingBase { large: false }
    } else if lower == hull() || starts_with(lower, hull_space()) {
        ShapeSpec::Hull
    } else if starts_with(lower, unique()) || lower == not_applicable() || lower.len() == 0 {
        ShapeSpec::Unknown
    } else if (contains(lower, oval()) || contains(lower, seq![times_sign()]) || (contains(
        lower,
        seq!['x'],
    ) && contains(lower, mm()))) && as_oval is Some {
        as_oval.unwrap()
    } else if as_circle is Some {
        as_circle.unwrap()
    } else {
        ShapeSpec::Unknown
    }
}

proof fn lemma_flying_inside(lower: Seq<char>, w: Seq<char>, k: int)
    requires
        contains(lower, w),
        0 <= k,
        k + flying_base().len() <= w.len(),
        w.subrange(k, k + flying_base().len()) == flying_base(),
    ensures
        contains(lower, flying_base()),
{
    let i = choose|i: int| occurs_at(lower, w, i);
    let n = flying_base().len();
    assert(lower.subrange(i + k, i + k + n) =~= w.subrange(k, k + n)) by {
        assert forall|j: int| 0 <= j < n implies #[trigger] lower.subrange(i + k, i + k + n)[j]
            == w.subrange(k, k + n)[j] by {
            assert(lower.subrange(i, i + w.len())[k + j] == w[k + j]);
        }
    }
    assert(occurs_at(lower, flying_base(), i + k));
}

/// A size line that names no flying base, hull or unknown size and reads as
/// an oval is that oval when it gives its sizes in millimetres around an
/// `x`, or names an oval, or uses `×`: such lines are read as ovals before
/// circles.
pub proof fn lemma_oval_lines(
    lower: Seq<char>,
    as_oval: Option<ShapeSpec>,
    as_circle: Option<ShapeSpec>,
)
    requires
        !contains(lower, flying_base()),
        lower != hull(),
        !starts_with(lower, hull_space()),
        !starts_with(lower, unique()),
        lower != not_applicable(),
        lower.len() > 0,
        (contains(lower, mm()) && contains(lower, seq!['x'])) || contains(lower, oval()) || contains(
            lower,
            seq![times_sign()],
        ),
        as_oval is Some,
    ensures
        shape_of_line(lower, as_oval, as_circle) == as_oval.unwrap(),
{
    if contains(lower, large_flying_base()) {
        assert(large_flying_base().subrange(6, 17) =~= flying_base());
        lemma_flying_inside(lower, large_flying_base(), 6);
    }
    if contains(lower, small_flying_base()) {
        assert(small_flying_base().subrange(6, 17) =~= flying_base());
        lemma_flying_inside(lower, small_flying_base(), 6);
    }
}

/// `parse_base_size`.
pub open spec fn base_size_spec(raw: Seq<char>) -> ShapeSpec {
    let line = size_line(raw);
    shape_of_line(lowercase(line), oval_spec(line), circle_spec(line))
}


/// The view of an optional shape.
pub open spec fn opt_shape(o: Option<BaseShape>) -> Option<ShapeSpec> {
    match o {
        Some(b) => Some(b@),
        None => None,
    }
}

proof fn lemma_first_word(s: Seq<char>, k: int)
    requires
        0 <= k <= s.len(),
        forall|j: int| 0 <= j < k ==> !is_ws(#[trigger] s[j]),
        k < s.len() ==> is_ws(s[k]),
    ensures
        first_word(s) == s.take(k),
    decreases k,
{
    if k > 0 {
        assert forall|j: int| 0 <= j < k - 1 implies !is_ws(#[trigger] s.drop_first()[j]) by {
            assert(s.drop_first()[j] == s[j + 1]);
        }
        if k < s.len() {
            assert(s.drop_first()[k - 1] == s[k]);
        }
        lemma_first_word(s.drop_first(), k - 1);
        assert(seq![s[0]] + s.drop_first().take(k - 1) =~= s.take(k));
    } else if s.len() > 0 {
        assert(s.take(0) =~= Seq::<char>::empty());
    }
}

fn first_word_of(s: &Vec<char>) -> (r: Vec<char>)
    ensures
        r@ == first_word(s@),
{
    let mut k: usize = 0;
    while k < s.len() && !char_is_ws(s[k])
        invariant
            k <= s.len(),
            forall|j: int| 0 <= j < k ==> !is_ws(#[trigger] s@[j]),
        decreases s.len() - k,
    {
        k = k + 1;
    }
    proof {
        lemma_first_word(s@, k as int);
        assert(s@.take(k as int) == s@.subrange(0, k as int));
    }
    copy_range(s, 0, k)
}

fn remove_all(s: &Vec<char>, pat: &Vec<char>) -> (r: Vec<char>)
    requires
        pat.len() > 0,
    ensures
        r@ == replace(s@, pat@, Seq::empty()),
{
    let nothing: Vec<char> = Vec::new();
    proof {
        assert(nothing@ =~= Seq::<char>::empty());
    }
    replaced(s, pat, &nothing)
}

fn oval_from_lower(lower: &Vec<char>) -> (r: Option<BaseShape>)
    ensures
        opt_shape(r) == oval_from_lower_spec(lower@),
{
    let a1 = remove_all(lower, &vec!['o', 'v', 'a', 'l', ' ', 'b', 'a', 's', 'e']);
    let a2 = remove_all(&a1, &vec!['o', 'v', 'a', 'l']);
    let a3 = remove_all(&a2, &vec!['m', 'm']);
    let stripped = trimmed(&a3);
    match split_two(&stripped, 'x') {
        Some((a, b)) => {
            let w = trimmed(&a);
            let h = trimmed(&b);
            if float_literal(&w) && float_literal(&h) {
                Some(BaseShape::Oval { width_mm: string_of(&w), height_mm: string_of(&h) })
            } else {
                None
            }
        },
        None => None,
    }
}

/// An oval base from lowercased `base_size` text.
pub fn oval_from_lowercase(lower: &str) -> (r: Option<BaseShape>)
    ensures
        opt_shape(r) == oval_from_lower_spec(lower@),
{
    oval_from_lower(&chars_of(lower))
}

fn circle_from_lower(lower: &Vec<char>) -> (r: Option<BaseShape>)
    ensures
        opt_shape(r) == circle_from_lower_spec(lower@),
{
    let a = remove_all(lower, &vec!['m', 'm']);
    let cleaned = trimmed(&a);
    if cleaned.len() == 0 {
        return None;
    }
    let w = first_word_of(&cleaned);
    if positive_literal(&w) {
        Some(BaseShape::Circle { diameter_mm: string_of(&w) })
    } else {
        None
    }
}

/// A circular base from lowercased `base_size` text.
pub fn circle_from_lowercase(lower: &str) -> (r: Option<BaseShape>)
    ensures
        opt_shape(r) == circle_from_lower_spec(lower@),
{
    circle_from_lower(&chars_of(lower))
}

fn try_parse_oval_chars(s: &Vec<char>) -> (r: Option<BaseShape>)
    ensures
        opt_shape(r) == oval_spec(s@),
{
    let times = vec!['\u{d7}'];
    let ex = vec!['x'];
    proof {
        assert(times@ =~= seq![times_sign()]);
        assert(ex@ =~= seq!['x']);
    }
    let normalized = replaced(s, &times, &ex);
    let lower = lowercase_chars(&normalized);
    oval_from_lower(&lower)
}

/// `WxHmm Oval Base`, `W x H mm Oval Base` and the like.
pub fn try_parse_oval(s: &str) -> (r: Option<BaseShape>)
    ensures
        opt_shape(r) == oval_spec(s@),
{
    try_parse_oval_chars(&chars_of(s))
}

fn try_parse_circle_chars(s: &Vec<char>) -> (r: Option<BaseShape>)
    ensures
        opt_shape(r) == circle_spec(s@),
{
    let lower = lowercase_chars(s);
    circle_from_lower(&lower)
}

/// `<number>mm` or `<number> mm`.
pub fn try_parse_circle(s: &str) -> (r: Option<BaseShape>)
    ensures
        opt_shape(r) == circle_spec(s@),
{
    try_parse_circle_chars(&chars_of(s))
}

fn same(a: &Vec<char>, b: &Vec<char>) -> (r: bool)
    ensures
        r == (a@ == b@),
{
    if a.len() != b.len() {
        return false;
    }
    let mut i: usize = 0;
    while i < a.len()
        invariant
            a.len() == b.len(),
            i <= a.len(),
            forall|j: int| 0 <= j < i ==> a@[j] == b@[j],
        decreases a.len() - i,
    {
        if a[i] != b[i] {
            return false;
        }
        i = i + 1;
    }
    proof {
        assert(a@ =~= b@);
    }
    true
}

fn classify(lower: &Vec<char>, as_oval: Option<BaseShape>, as_circle: Option<BaseShape>) -> (r: BaseShape)
    ensures
        r@ == shape_of_line(lower@, opt_shape(as_oval), opt_shape(as_circle)),
{
    let w_large = vec!['l', 'a', 'r', 'g', 'e', ' ', 'f', 'l', 'y', 'i', 'n', 'g', ' ', 'b', 'a', 's', 'e'];
    let w_small = vec!['s', 'm', 'a', 'l', 'l', ' ', 'f', 'l', 'y', 'i', 'n', 'g', ' ', 'b', 'a', 's', 'e'];
    let w_flying = vec!['f', 'l', 'y', 'i', 'n', 'g', ' ', 'b', 'a', 's', 'e'];
    let w_hull = vec!['h', 'u', 'l', 'l'];
    let w_hull_sp = vec!['h', 'u', 'l', 'l', ' '];
    let w_unique = vec!['u', 'n', 'i', 'q', 'u', 'e'];
    let w_na = vec!['n', '/', 'a'];
    let w_oval = vec!['o', 'v', 'a', 'l'];
    let w_times = vec!['\u{d7}'];
    let w_x = vec!['x'];
    let w_mm = vec!['m', 'm'];
    proof {
        assert(w_large@ =~= large_flying_base());
        assert(w_small@ =~= small_flying_base());
        assert(w_flying@ =~= flying_base());
        assert(w_hull@ =~= hull());
        assert(w_hull_sp@ =~= hull_space());
        assert(w_unique@ =~= unique());
        assert(w_na@ =~= not_applicable());
        assert(w_oval@ =~= oval());
        assert(w_times@ =~= seq![times_sign()]);
        assert(w_x@ =~= seq!['x']);
        assert(w_mm@ =~= mm());
    }
    if has_substring(lower, &w_large) {
        return BaseShape::FlyingBase { large: true };
    }
    if has_substring(lower, &w_small) || has_substring(lower, &w_flying) {
        return BaseShape::FlyingBase { large: false };
    }
    if same(lower, &w_hull) || has_prefix(lower, &w_hull_sp) {
        return BaseShape::Hull;
    }
    if has_prefix(lower, &w_unique) || same(lower, &w_na) || lower.len() == 0 {
        return BaseShape::Unknown;
    }
    let oval_hint = has_substring(lower, &w_oval) || has_substring(lower, &w_times) || (
    has_substring(lower, &w_x) && has_substring(lower, &w_mm));
    match (oval_hint, as_oval) {
        (true, Some(shape)) => shape,
        _ => match as_circle {
            Some(shape) => shape,
            None => BaseShape::Unknown,
        },
    }
}

/// The shape of a `base_size` line from its lowercase form and from what
/// reading the line as an oval and as a circle gave: flying bases, hulls and
/// unknown sizes by name, then the oval (when the text mentions one), then
/// the circle, else unknown.
pub fn shape_of_size_line(lower: &str, as_oval: Option<BaseShape>, as_circle: Option<BaseShape>) -> (r: BaseShape)
    ensures
        r@ == shape_of_line(lower@, opt_shape(as_oval), opt_shape(as_circle)),
{
    classify(&chars_of(lower), as_oval, as_circle)
}

/// The line of `base_size` text that is read.
fn size_line_of(raw: &Vec<char>) -> (r: Vec<char>)
    ensures
        r@ == size_line(raw@),
{
    let ls = split_lines(raw);
    let line = if ls.len() > 0 {
        proof {
            assert(views(ls@)[0] == ls@[0]@);
        }
        trimmed(&ls[0])
    } else {
        trimmed(raw)
    };
    match find(&line, ':') {
        Some(p) => {
            proof {
                lemma_find_char(line@, ':');
            }
            let rest = copy_range(&line, p + 1, line.len());
            proof {
                assert(rest@ == line@.skip(p + 1));
            }
            trimmed(&rest)
        },
        None => line,
    }
}

/// Parse a `base_size` string into a base shape: flying bases, hulls, ovals
/// and circles, else unknown.
pub fn parse_base_size(raw: &str) -> (r: BaseShape)
    ensures
        r@ == base_size_spec(raw@),
{
    let line = size_line_of(&chars_of(raw));
    let lower = lowercase_chars(&line);
    let as_oval = try_parse_oval_chars(&line);
    let as_circle = try_parse_circle_chars(&line);
    classify(&lower, as_oval, as_circle)
}

/// Raw record from the datasheets table.
#[derive(Debug, Clone)]
pub struct DatasheetRecord {
    pub id: String,
    pub name: String,
}

/// Raw record from the datasheet models table.
#[derive(Debug, Clone)]
pub struct DatasheetModelRecord {
    pub datasheet_id: String,
    pub name: String,
    /// The movement characteristic, `M`.
    pub movement: Option<String>,
    pub base_size: Option<String>,
}

/// A datasheet record as the contracts see it.
pub struct SheetSpec {
    pub id: Seq<char>,
    pub name: Seq<char>,
}

/// A model record as the contracts see it.
pub struct ModelSpec {
    pub datasheet_id: Seq<char>,
    pub name: Seq<char>,
    pub movement: Option<Seq<char>>,
    pub base_size: Option<Seq<char>>,
}

/// The view of optional text.
pub open spec fn opt_text(o: Option<String>) -> Option<Seq<char>> {
    match o {
        Some(s) => Some(s@),
        None => None,
    }
}

impl View for DatasheetRecord {
    type V = SheetSpec;

    open spec fn view(&self) -> SheetSpec {
        SheetSpec { id: self.id@, name: self.name@ }
    }
}

impl View for DatasheetModelRecord {
    type V = ModelSpec;

    open spec fn view(&self) -> ModelSpec {
        ModelSpec {
            datasheet_id: self.datasheet_id@,
            name: self.name@,
            movement: opt_text(self.movement),
            base_size: opt_text(self.base_size),
        }
    }
}

/// Unit name (lowercase) to datasheet id, later records overriding earlier ones.
pub open spec fn name_index_of(sheets: Seq<SheetSpec>) -> Map<Seq<char>, Seq<char>>
    decreases sheets.len(),
{
    if sheets.len() == 0 {
        Map::empty()
    } else {
        name_index_of(sheets.drop_last()).insert(lowercase(sheets.last().name), sheets.last().id)
    }
}

/// (datasheet id, model name lowercase) to model record, later records
/// overriding earlier ones.
pub open spec fn model_index_of(models: Seq<ModelSpec>) -> Map<(Seq<char>, Seq<char>), ModelSpec>
    decreases models.len(),
{
    if models.len() == 0 {
        Map::empty()
    } else {
        model_index_of(models.drop_last()).insert(
            (models.last().datasheet_id, lowercase(models.last().name)),
            models.last(),
        )
    }
}

/// Datasheet id to the first model record that names it.
pub open spec fn first_model_of(models: Seq<ModelSpec>) -> Map<Seq<char>, ModelSpec>
    decreases models.len(),
{
    if models.len() == 0 {
        Map::empty()
    } else {
        let m = first_model_of(models.drop_last());
        if m.contains_key(models.last().datasheet_id) {
            m
        } else {
            m.insert(models.last().datasheet_id, models.last())
        }
    }
}

/// Unit name key to datasheet id, for datasheets given with their keys;
/// later records override earlier ones.
pub open spec fn keyed_name_index(sheets: Seq<(Seq<char>, SheetSpec)>) -> Map<Seq<char>, Seq<char>>
    decreases sheets.len(),
{
    if sheets.len() == 0 {
        Map::empty()
    } else {
        keyed_name_index(sheets.drop_last()).insert(sheets.last().0, sheets.last().1.id)
    }
}

/// (datasheet id, model name key) to model record, for models given with
/// their keys; later records override earlier ones.
pub open spec fn keyed_model_index(models: Seq<(Seq<char>, ModelSpec)>) -> Map<
    (Seq<char>, Seq<char>),
    ModelSpec,
>
    decreases models.len(),
{
    if models.len() == 0 {
        Map::empty()
    } else {
        keyed_model_index(models.drop_last()).insert(
            (models.last().1.datasheet_id, models.last().0),
            models.last().1,
        )
    }
}

/// The records of keyed models.
pub open spec fn keyed_records(models: Seq<(Seq<char>, ModelSpec)>) -> Seq<ModelSpec> {
    models.map_values(|p: (Seq<char>, ModelSpec)| p.1)
}

/// Datasheets keyed by their lowercase names.
pub open spec fn lowered_sheets(sheets: Seq<SheetSpec>) -> Seq<(Seq<char>, SheetSpec)> {
    sheets.map_values(|x: SheetSpec| (lowercase(x.name), x))
}

/// Models keyed by their lowercase names.
pub open spec fn lowered_models(models: Seq<ModelSpec>) -> Seq<(Seq<char>, ModelSpec)> {
    models.map_values(|x: ModelSpec| (lowercase(x.name), x))
}

proof fn lemma_lowered_sheets(sheets: Seq<SheetSpec>)
    ensures
        keyed_name_index(lowered_sheets(sheets)) == name_index_of(sheets),
    decreases sheets.len(),
{
    if sheets.len() > 0 {
        assert(lowered_sheets(sheets).drop_last() =~= lowered_sheets(sheets.drop_last()));
        lemma_lowered_sheets(sheets.drop_last());
    }
}

proof fn lemma_lowered_models(models: Seq<ModelSpec>)
    ensures
        keyed_model_index(lowered_models(models)) == model_index_of(models),
        keyed_records(lowered_models(models)) == models,
    decreases models.len(),
{
    assert(keyed_records(lowered_models(models)) =~= models);
    if models.len() > 0 {
        assert(lowered_models(models).drop_last() =~= lowered_models(models.drop_last()));
        lemma_lowered_models(models.drop_last());
    }
}

/// The datasheet tables, indexed for lookup by unit and model name.
pub struct BaseDatabase {
    /// Unit name (lowercase) and datasheet id.
    name_to_id: Vec<(Vec<char>, String)>,
    /// (datasheet id, model name lowercase) and model record.
    models: Vec<((Vec<char>, Vec<char>), DatasheetModelRecord)>,
    /// Datasheet id and its first model record.
    first_model: Vec<(Vec<char>, DatasheetModelRecord)>,
}

/// The entries of the name table as the contracts see them.
pub open spec fn names_view(v: Seq<(Vec<char>, String)>) -> Seq<(Seq<char>, Seq<char>)> {
    v.map_values(|e: (Vec<char>, String)| (e.0@, e.1@))
}

/// The entries of the model table as the contracts see them.
pub open spec fn models_view(v: Seq<((Vec<char>, Vec<char>), DatasheetModelRecord)>) -> Seq<
    ((Seq<char>, Seq<char>), ModelSpec),
> {
    v.map_values(|e: ((Vec<char>, Vec<char>), DatasheetModelRecord)| ((e.0.0@, e.0.1@), e.1@))
}

/// The entries of the first-model table as the contracts see them.
pub open spec fn firsts_view(v: Seq<(Vec<char>, DatasheetModelRecord)>) -> Seq<
    (Seq<char>, ModelSpec),
> {
    v.map_values(|e: (Vec<char>, DatasheetModelRecord)| (e.0@, e.1@))
}

impl BaseDatabase {
    /// Unit name (lowercase) to datasheet id.
    pub closed spec fn name_index(&self) -> Map<Seq<char>, Seq<char>> {
        assoc(names_view(self.name_to_id@))
    }

    /// (datasheet id, model name lowercase) to model record.
    pub closed spec fn model_index(&self) -> Map<(Seq<char>, Seq<char>), ModelSpec> {
        assoc(models_view(self.models@))
    }

    /// Datasheet id to its first model record.
    pub closed spec fn first_models(&self) -> Map<Seq<char>, ModelSpec> {
        assoc(firsts_view(self.first_model@))
    }

    #[verifier::type_invariant]
    spec fn keys_distinct(&self) -> bool {
        &&& distinct_keys(names_view(self.name_to_id@))
        &&& distinct_keys(models_view(self.models@))
        &&& distinct_keys(firsts_view(self.first_model@))
    }
}

fn copy_text(o: &Option<String>) -> (r: Option<String>)
    ensures
        opt_text(r) == opt_text(*o),
{
    match o {
        Some(s) => Some(s.clone()),
        None => None,
    }
}

fn copy_record(r: &DatasheetModelRecord) -> (c: DatasheetModelRecord)
    ensures
        c@ == r@,
{
    DatasheetModelRecord {
        datasheet_id: r.datasheet_id.clone(),
        name: r.name.clone(),
        movement: copy_text(&r.movement),
        base_size: copy_text(&r.base_size),
    }
}

fn same_text(a: &Vec<char>, b: &Vec<char>) -> (r: bool)
    ensures
        r == (a@ == b@),
{
    same(a, b)
}

fn find_name(v: &Vec<(Vec<char>, String)>, k: &Vec<char>) -> (r: Option<usize>)
    ensures
        match r {
            Some(i) => i < v.len() && names_view(v@)[i as int].0 == k@,
            None => !has_key(names_view(v@), k@),
        },
{
    let mut i: usize = 0;
    while i < v.len()
        invariant
            i <= v.len(),
            forall|j: int| 0 <= j < i ==> names_view(v@)[j].0 != k@,
        decreases v.len() - i,
    {
        if same_text(&v[i].0, k) {
            return Some(i);
        }
        i = i + 1;
    }
    None
}

fn find_first(v: &Vec<(Vec<char>, DatasheetModelRecord)>, k: &Vec<char>) -> (r: Option<usize>)
    ensures
        match r {
            Some(i) => i < v.len() && firsts_view(v@)[i as int].0 == k@,
            None => !has_key(firsts_view(v@), k@),
        },
{
    let mut i: usize = 0;
    while i < v.len()
        invariant
            i <= v.len(),
            forall|j: int| 0 <= j < i ==> firsts_view(v@)[j].0 != k@,
        decreases v.len() - i,
    {
        if same_text(&v[i].0, k) {
            return Some(i);
        }
        i = i + 1;
    }
    None
}

fn find_model(v: &Vec<((Vec<char>, Vec<char>), DatasheetModelRecord)>, a: &Vec<char>, b: &Vec<char>) -> (r: Option<usize>)
    ensures
        match r {
            Some(i) => i < v.len() && models_view(v@)[i as int].0 == (a@, b@),
            None => !has_key(models_view(v@), (a@, b@)),
        },
{
    let mut i: usize = 0;
    while i < v.len()
        invariant
            i <= v.len(),
            forall|j: int| 0 <= j < i ==> models_view(v@)[j].0 != (a@, b@),
        decreases v.len() - i,
    {
        if same_text(&v[i].0.0, a) && same_text(&v[i].0.1, b) {
            return Some(i);
        }
        i = i + 1;
    }
    None
}

/// The views of the datasheet records.
pub open spec fn sheets_view(v: Seq<DatasheetRecord>) -> Seq<SheetSpec> {
    v.map_values(|s: DatasheetRecord| s@)
}

/// The views of the model records.
pub open spec fn records_view(v: Seq<DatasheetModelRecord>) -> Seq<ModelSpec> {
    v.map_values(|m: DatasheetModelRecord| m@)
}

/// The views of keyed datasheet records.
pub open spec fn keyed_sheets_view(v: Seq<(String, DatasheetRecord)>) -> Seq<(Seq<char>, SheetSpec)> {
    v.map_values(|p: (String, DatasheetRecord)| (p.0@, p.1@))
}

/// The views of keyed model records.
pub open spec fn keyed_models_view(v: Seq<(String, DatasheetModelRecord)>) -> Seq<
    (Seq<char>, ModelSpec),
> {
    v.map_values(|p: (String, DatasheetModelRecord)| (p.0@, p.1@))
}

fn index_names(sheets: &Vec<(String, DatasheetRecord)>) -> (r: Vec<(Vec<char>, String)>)
    ensures
        distinct_keys(names_view(r@)),
        assoc(names_view(r@)) == keyed_name_index(keyed_sheets_view(sheets@)),
{
    let ghost sv = keyed_sheets_view(sheets@);
    let mut names: Vec<(Vec<char>, String)> = Vec::new();
    proof {
        lemma_assoc_empty(names_view(names@));
        assert(sv.take(0) =~= Seq::<(Seq<char>, SheetSpec)>::empty());
    }
    for i in 0..sheets.len()
        invariant
            sv == keyed_sheets_view(sheets@),
            distinct_keys(names_view(names@)),
            assoc(names_view(names@)) == keyed_name_index(sv.take(i as int)),
    {
        proof {
            assert(sv.take(i + 1).drop_last() == sv.take(i as int));
            assert(sv.take(i + 1).last() == (sheets@[i as int].0@, sheets@[i as int].1@));
        }
        let key = chars_of(sheets[i].0.as_str());
        let id = sheets[i].1.id.clone();
        let ghost before = names_view(names@);
        match find_name(&names, &key) {
            Some(j) => {
                names.set(j, (key, id));
                proof {
                    lemma_assoc_update(before, j as int, id@);
                    assert(names_view(names@) =~= before.update(j as int, (before[j as int].0, id@)));
                }
            },
            None => {
                names.push((key, id));
                proof {
                    lemma_assoc_push(before, key@, id@);
                    assert(names_view(names@) =~= before.push((key@, id@)));
                }
            },
        }
    }
    proof {
        assert(sv.take(sheets.len() as int) == sv);
    }
    names
}

fn index_models(models: &Vec<(String, DatasheetModelRecord)>) -> (r: (
    Vec<((Vec<char>, Vec<char>), DatasheetModelRecord)>,
    Vec<(Vec<char>, DatasheetModelRecord)>,
))
    ensures
        distinct_keys(models_view(r.0@)),
        distinct_keys(firsts_view(r.1@)),
        assoc(models_view(r.0@)) == keyed_model_index(keyed_models_view(models@)),
        assoc(firsts_view(r.1@)) == first_model_of(keyed_records(keyed_models_view(models@))),
{
    let ghost kv = keyed_models_view(models@);
    let ghost mv = keyed_records(kv);
    let mut table: Vec<((Vec<char>, Vec<char>), DatasheetModelRecord)> = Vec::new();
    let mut firsts: Vec<(Vec<char>, DatasheetModelRecord)> = Vec::new();
    proof {
        lemma_assoc_empty(models_view(table@));
        lemma_assoc_empty(firsts_view(firsts@));
        assert(mv.take(0) =~= Seq::<ModelSpec>::empty());
    }
    for i in 0..models.len()
        invariant
            kv == keyed_models_view(models@),
            mv == keyed_records(kv),
            distinct_keys(models_view(table@)),
            distinct_keys(firsts_view(firsts@)),
            assoc(models_view(table@)) == keyed_model_index(kv.take(i as int)),
            assoc(firsts_view(firsts@)) == first_model_of(mv.take(i as int)),
    {
        proof {
            assert(mv.take(i + 1).drop_last() == mv.take(i as int));
            assert(mv.take(i + 1).last() == models@[i as int].1@);
            assert(kv.take(i + 1).drop_last() == kv.take(i as int));
            assert(kv.take(i + 1).last() == (models@[i as int].0@, models@[i as int].1@));
        }
        let m = &models[i].1;
        let id = chars_of(m.datasheet_id.as_str());
        let lname = chars_of(models[i].0.as_str());
        let ghost fbefore = firsts_view(firsts@);
        match find_first(&firsts, &id) {
            Some(_) => {
                proof {
                    let j = choose|j: int| 0 <= j < fbefore.len() && fbefore[j].0 == id@;
                    lemma_assoc_at(fbefore, j);
                }
            },
            None => {
                let rec = copy_record(m);
                let id2 = chars_of(m.datasheet_id.as_str());
                firsts.push((id2, rec));
                proof {
                    lemma_assoc_push(fbefore, id@, m@);
                    assert(firsts_view(firsts@) =~= fbefore.push((id@, m@)));
                }
            },
        }
        let ghost before = models_view(table@);
        let rec = copy_record(m);
        match find_model(&table, &id, &lname) {
            Some(j) => {
                table.set(j, ((id, lname), rec));
                proof {
                    lemma_assoc_update(before, j as int, m@);
                    assert(models_view(table@) =~= before.update(j as int, (before[j as int].0, m@)));
                }
            },
            None => {
                let ghost key = (id@, lname@);
                table.push(((id, lname), rec));
                proof {
                    lemma_assoc_push(before, key, m@);
                    assert(models_view(table@) =~= before.push((key, m@)));
                }
            },
        }
    }
    proof {
        assert(mv.take(models.len() as int) == mv);
        assert(kv.take(models.len() as int) == kv);
    }
    (table, firsts)
}

impl BaseDatabase {
    /// Indexes the datasheet and model records: unit names and model names
    /// are compared in lowercase; a later record for the same key replaces an
    /// earlier one, except that each datasheet keeps its first model as the
    /// fallback.
    pub fn load(sheets: Vec<DatasheetRecord>, models: Vec<DatasheetModelRecord>) -> (r: Self)
        ensures
            r.name_index() == name_index_of(sheets_view(sheets@)),
            r.model_index() == model_index_of(records_view(models@)),
            r.first_models() == first_model_of(records_view(models@)),
    {
        let ghost sv = sheets_view(sheets@);
        let ghost mv = records_view(models@);
        let mut keyed_sheets: Vec<(String, DatasheetRecord)> = Vec::new();
        for i in 0..sheets.len()
            invariant
                sv == sheets_view(sheets@),
                keyed_sheets_view(keyed_sheets@) == lowered_sheets(sv.take(i as int)),
        {
            let key = to_lowercase(sheets[i].name.as_str());
            let rec = DatasheetRecord { id: sheets[i].id.clone(), name: sheets[i].name.clone() };
            let ghost before = keyed_sheets_view(keyed_sheets@);
            proof {
                assert(sv[i as int] == sheets@[i as int]@);
                assert(rec@ == sv[i as int]);
                assert(key@ == lowercase(sv[i as int].name));
            }
            keyed_sheets.push((key, rec));
            proof {
                assert(keyed_sheets_view(keyed_sheets@) =~= before.push((key@, rec@)));
                assert(sv.take(i + 1) == sv.take(i as int).push(sv[i as int]));
                assert(lowered_sheets(sv.take(i + 1)) =~= lowered_sheets(sv.take(i as int)).push(
                    (lowercase(sv[i as int].name), sv[i as int]),
                ));
                assert(keyed_sheets_view(keyed_sheets@) =~= lowered_sheets(sv.take(i + 1)));
            }
        }
        let mut keyed_models: Vec<(String, DatasheetModelRecord)> = Vec::new();
        for i in 0..models.len()
            invariant
                mv == records_view(models@),
                keyed_models_view(keyed_models@) == lowered_models(mv.take(i as int)),
        {
            let key = to_lowercase(models[i].name.as_str());
            let rec = copy_record(&models[i]);
            let ghost before = keyed_models_view(keyed_models@);
            proof {
                assert(mv[i as int] == models@[i as int]@);
                assert(key@ == lowercase(mv[i as int].name));
            }
            keyed_models.push((key, rec));
            proof {
                assert(keyed_models_view(keyed_models@) =~= before.push((key@, rec@)));
                assert(mv.take(i + 1) == mv.take(i as int).push(mv[i as int]));
                assert(lowered_models(mv.take(i + 1)) =~= lowered_models(mv.take(i as int)).push(
                    (lowercase(mv[i as int].name), mv[i as int]),
                ));
                assert(keyed_models_view(keyed_models@) =~= lowered_models(mv.take(i + 1)));
            }
        }
        proof {
            assert(sv.take(sheets.len() as int) == sv);
            assert(mv.take(models.len() as int) == mv);
            lemma_lowered_sheets(sv);
            lemma_lowered_models(mv);
        }
        BaseDatabase::load_lowercase(keyed_sheets, keyed_models)
    }

    /// Indexes datasheet and model records given with the keys they are
    /// found by (their names in lowercase): a later record for the same key
    /// replaces an earlier one, except that each datasheet keeps its first
    /// model as the fallback.
    pub fn load_lowercase(
        sheets: Vec<(String, DatasheetRecord)>,
        models: Vec<(String, DatasheetModelRecord)>,
    ) -> (r: Self)
        ensures
            r.name_index() == keyed_name_index(keyed_sheets_view(sheets@)),
            r.model_index() == keyed_model_index(keyed_models_view(models@)),
            r.first_models() == first_model_of(keyed_records(keyed_models_view(models@))),
    {
        let name_to_id = index_names(&sheets);
        let (table, firsts) = index_models(&models);
        BaseDatabase { name_to_id, models: table, first_model: firsts }
    }
}

/// Whether the lowercase model name `lm` is a model variant of the unit with
/// lowercase name `lu`.
pub open spec fn has_lowered_model(
    names: Map<Seq<char>, Seq<char>>,
    models: Map<(Seq<char>, Seq<char>), ModelSpec>,
    lu: Seq<char>,
    lm: Seq<char>,
) -> bool {
    names.contains_key(lu) && models.contains_key((names[lu], lm))
}

/// Whether `model` is a model variant of the unit `unit`: the unit's datasheet
/// is found by its lowercase name, then the model by the datasheet and its
/// lowercase name.
pub open spec fn has_model_spec(
    names: Map<Seq<char>, Seq<char>>,
    models: Map<(Seq<char>, Seq<char>), ModelSpec>,
    unit: Seq<char>,
    model: Seq<char>,
) -> bool {
    has_lowered_model(names, models, lowercase(unit), lowercase(model))
}

/// `parse_movement`: a movement such as `6"`, trimmed, trailing `"` dropped,
/// trimmed again; the numeral when `f32::from_str` accepts it.
pub open spec fn movement_spec(raw: Seq<char>) -> Option<Seq<char>> {
    let t = trim(trim_end_char(trim(raw), '"'));
    if is_float_literal(t) {
        Some(t)
    } else {
        None
    }
}

/// The datasheet a lookup uses, given lowercase unit and model names: the
/// unit's, else one named like the model.
pub open spec fn sheet_for(names: Map<Seq<char>, Seq<char>>, lu: Seq<char>, lm: Seq<char>) -> Option<
    Seq<char>,
> {
    if names.contains_key(lu) {
        Some(names[lu])
    } else if names.contains_key(lm) {
        Some(names[lm])
    } else {
        None
    }
}

/// The model record a lookup uses within a datasheet: the model with
/// lowercase name `lm`, else the datasheet's first.
pub open spec fn record_in_sheet(
    models: Map<(Seq<char>, Seq<char>), ModelSpec>,
    firsts: Map<Seq<char>, ModelSpec>,
    sheet: Seq<char>,
    lm: Seq<char>,
) -> Option<ModelSpec> {
    if models.contains_key((sheet, lm)) {
        Some(models[(sheet, lm)])
    } else if firsts.contains_key(sheet) {
        Some(firsts[sheet])
    } else {
        None
    }
}

/// The model record a lookup reads, given lowercase unit and model names.
pub open spec fn chosen_record(
    names: Map<Seq<char>, Seq<char>>,
    models: Map<(Seq<char>, Seq<char>), ModelSpec>,
    firsts: Map<Seq<char>, ModelSpec>,
    lu: Seq<char>,
    lm: Seq<char>,
) -> Option<ModelSpec> {
    match sheet_for(names, lu, lm) {
        None => None,
        Some(sheet) => record_in_sheet(models, firsts, sheet, lm),
    }
}

/// Base shape and movement numeral of a model record.
pub open spec fn record_shape(r: ModelSpec) -> (ShapeSpec, Option<Seq<char>>) {
    (
        match r.base_size {
            Some(b) => base_size_spec(b),
            None => ShapeSpec::Unknown,
        },
        match r.movement {
            Some(m) => movement_spec(m),
            None => None,
        },
    )
}

/// What `lookup` returns.
pub open spec fn lookup_spec(
    names: Map<Seq<char>, Seq<char>>,
    models: Map<(Seq<char>, Seq<char>), ModelSpec>,
    firsts: Map<Seq<char>, ModelSpec>,
    unit: Seq<char>,
    model: Seq<char>,
) -> (ShapeSpec, Option<Seq<char>>) {
    match chosen_record(names, models, firsts, lowercase(unit), lowercase(model)) {
        None => (ShapeSpec::Unknown, None),
        Some(r) => record_shape(r),
    }
}

/// Parse a movement string like `6"`: the numeral, in inches.
pub fn parse_movement(raw: &str) -> (r: Option<String>)
    ensures
        opt_text(r) == movement_spec(raw@),
{
    let v = chars_of(raw);
    let a = trimmed(&v);
    let b = trimmed_end_char(&a, '"');
    let t = trimmed(&b);
    if float_literal(&t) {
        Some(string_of(&t))
    } else {
        None
    }
}

impl BaseDatabase {
    fn sheet_of(&self, lname: &Vec<char>) -> (r: Option<Vec<char>>)
        ensures
            match r {
                Some(id) => self.name_index().contains_key(lname@) && self.name_index()[lname@]
                    == id@,
                None => !self.name_index().contains_key(lname@),
            },
    {
        proof {
            use_type_invariant(self);
        }
        match find_name(&self.name_to_id, lname) {
            Some(j) => {
                proof {
                    lemma_assoc_at(names_view(self.name_to_id@), j as int);
                }
                Some(chars_of(self.name_to_id[j].1.as_str()))
            },
            None => None,
        }
    }

    /// Whether the lowercase model name `model_lower` is a model variant of
    /// the unit with lowercase name `unit_lower`.
    pub fn has_lowercase_model(&self, unit_lower: &str, model_lower: &str) -> (r: bool)
        ensures
            r == has_lowered_model(self.name_index(), self.model_index(), unit_lower@, model_lower@),
    {
        proof {
            use_type_invariant(self);
        }
        let id = match self.sheet_of(&chars_of(unit_lower)) {
            Some(id) => id,
            None => return false,
        };
        match find_model(&self.models, &id, &chars_of(model_lower)) {
            Some(j) => {
                proof {
                    lemma_assoc_at(models_view(self.models@), j as int);
                }
                true
            },
            None => false,
        }
    }

    /// Returns true if `model_name` is a real model variant for `unit_name` in the database.
    pub fn has_model(&self, unit_name: &str, model_name: &str) -> (r: bool)
        ensures
            r == has_model_spec(self.name_index(), self.model_index(), unit_name@, model_name@),
    {
        let lunit = string_of(&lowercase_chars(&chars_of(unit_name)));
        let lmodel = string_of(&lowercase_chars(&chars_of(model_name)));
        self.has_lowercase_model(lunit.as_str(), lmodel.as_str())
    }

    /// The model record that a lookup of the lowercase names reads: the
    /// unit's datasheet (else one named like the model), then the model
    /// (else the datasheet's first model).
    pub fn record_for_lowercase(&self, unit_lower: &str, model_lower: &str) -> (r: Option<
        DatasheetModelRecord,
    >)
        ensures
            match r {
                Some(rec) => chosen_record(
                    self.name_index(),
                    self.model_index(),
                    self.first_models(),
                    unit_lower@,
                    model_lower@,
                ) == Some(rec@),
                None => chosen_record(
                    self.name_index(),
                    self.model_index(),
                    self.first_models(),
                    unit_lower@,
                    model_lower@,
                ) is None,
            },
    {
        proof {
            use_type_invariant(self);
        }
        let lunit = chars_of(unit_lower);
        let lmodel = chars_of(model_lower);
        let sheet = match self.sheet_of(&lunit) {
            Some(id) => id,
            None => match self.sheet_of(&lmodel) {
                Some(id) => id,
                None => return None,
            },
        };
        match find_model(&self.models, &sheet, &lmodel) {
            Some(j) => {
                proof {
                    lemma_assoc_at(models_view(self.models@), j as int);
                }
                Some(copy_record(&self.models[j].1))
            },
            None => match find_first(&self.first_model, &sheet) {
                Some(j) => {
                    proof {
                        lemma_assoc_at(firsts_view(self.first_model@), j as int);
                    }
                    Some(copy_record(&self.first_model[j].1))
                },
                None => None,
            },
        }
    }

    /// Look up a unit by name and model variant name: the base shape and the
    /// movement numeral (inches).
    pub fn lookup(&self, unit_name: &str, model_name: &str) -> (r: (BaseShape, Option<String>))
        ensures
            (r.0@, opt_text(r.1)) == lookup_spec(
                self.name_index(),
                self.model_index(),
                self.first_models(),
                unit_name@,
                model_name@,
            ),
    {
        let lunit = string_of(&lowercase_chars(&chars_of(unit_name)));
        let lmodel = string_of(&lowercase_chars(&chars_of(model_name)));
        match self.record_for_lowercase(lunit.as_str(), lmodel.as_str()) {
            Some(record) => record_sizes(&record),
            None => (BaseShape::Unknown, None),
        }
    }
}

/// The base shape and movement numeral that a model record gives.
pub fn record_sizes(record: &DatasheetModelRecord) -> (r: (BaseShape, Option<String>))
    ensures
        (r.0@, opt_text(r.1)) == record_shape(record@),
{
    let base = match &record.base_size {
        Some(b) => parse_base_size(b.as_str()),
        None => BaseShape::Unknown,
    };
    let movement = match &record.movement {
        Some(m) => parse_movement(m.as_str()),
        None => None,
    };
    (base, movement)
}

/// A model that `has_model` confirms is the one `lookup` reads: its own record,
/// never the datasheet's fallback.
pub proof fn lemma_has_model_lookup(
    names: Map<Seq<char>, Seq<char>>,
    models: Map<(Seq<char>, Seq<char>), ModelSpec>,
    firsts: Map<Seq<char>, ModelSpec>,
    unit: Seq<char>,
    model: Seq<char>,
)
    requires
        has_model_spec(names, models, unit, model),
    ensures
        lookup_spec(names, models, firsts, unit, model) == record_shape(
            models[(names[lowercase(unit)], lowercase(model))],
        ),
{
}

/// Every loaded model record can be found again: by its datasheet and its
/// lowercase name, and its datasheet has a fallback model; every entry of the
/// model index is filed under its own datasheet and lowercase name.
pub proof fn lemma_loaded_models_found(models: Seq<ModelSpec>)
    ensures
        forall|k: int|
            0 <= k < models.len() ==> model_index_of(models).contains_key(
                (#[trigger] models[k].datasheet_id, lowercase(models[k].name)),
            ) && first_model_of(models).contains_key(models[k].datasheet_id),
        forall|key: (Seq<char>, Seq<char>)| #[trigger]
            model_index_of(models).contains_key(key) ==> (model_index_of(models)[key].datasheet_id,
            lowercase(model_index_of(models)[key].name)) == key,
        forall|id: Seq<char>| #[trigger]
            first_model_of(models).contains_key(id) ==> first_model_of(models)[id].datasheet_id == id,
    decreases models.len(),
{
    if models.len() > 0 {
        let init = models.drop_last();
        lemma_loaded_models_found(init);
        assert forall|k: int| 0 <= k < models.len() implies model_index_of(models).contains_key(
            (#[trigger] models[k].datasheet_id, lowercase(models[k].name)),
        ) && first_model_of(models).contains_key(models[k].datasheet_id) by {
            if k < models.len() - 1 {
                assert(models[k] == init[k]);
            }
        }
    }
}

/// Every datasheet can be found by its lowercase name; a name shared by
/// several datasheets finds the last of them.
pub proof fn lemma_loaded_sheets_found(sheets: Seq<SheetSpec>)
    ensures
        forall|k: int|
            0 <= k < sheets.len() ==> name_index_of(sheets).contains_key(
                lowercase(#[trigger] sheets[k].name),
            ),
        sheets.len() > 0 ==> name_index_of(sheets)[lowercase(sheets.last().name)] == sheets.last().id,
    decreases sheets.len(),
{
    if sheets.len() > 0 {
        let init = sheets.drop_last();
        lemma_loaded_sheets_found(init);
        assert forall|k: int| 0 <= k < sheets.len() implies name_index_of(sheets).contains_key(
            lowercase(#[trigger] sheets[k].name),
        ) by {
            if k < sheets.len() - 1 {
                assert(sheets[k] == init[k]);
            }
        }
    }
}

} // verus!

//! The course dumper's logic: reading a course out of the choices page's
//! markup pieces, and summing study points.
//!
//! The page itself is fetched and walked outside the library; it hands in
//! the class attribute, the JSON title data, the grade cell's text and
//! the script-embedded type lists as plain values. Study weights are in
//! thousandths throughout, as the model holds them.

use vstd::prelude::*;
use crate::models::{Course, CourseGrade};
use crate::bytes_util::clamp_idx;
use crate::wilma::{find_char, str_find_char};

verus! {

/// The dump formats the writer offers.
#[derive(Debug, Clone, Copy, PartialEq, Eq, Structural)]
pub enum Format {
    Json,
    Csv,
}

impl Format {
    /// The format's name, as the file extension uses it.
    pub open spec fn name_view(self) -> Seq<char> {
        match self {
            Format::Json => "json"@,
            Format::Csv => "csv"@,
        }
    }

    /// The format's name, as the file extension uses it.
    pub fn to_name(&self) -> (r: String)
        ensures
            r@ == self.name_view(),
    {
        match self {
            Format::Json => "json".to_owned(),
            Format::Csv => "csv".to_owned(),
        }
    }
}

/// A course earns its points: it carries a grade other than "unfinished".
pub open spec fn spec_eligible(c: Course) -> bool {
    match c.grade {
        Some(g) => !(g is Unfinished),
        None => false,
    }
}

/// The summed points of the selected courses, in thousandths.
pub open spec fn selected_points(s: Seq<Course>) -> int
    decreases s.len(),
{
    if s.len() == 0 {
        0
    } else {
        (if s[0].selected {
            s[0].study_points as int
        } else {
            0
        }) + selected_points(s.skip(1))
    }
}

/// The summed points of the courses whose points are earned, in
/// thousandths.
pub open spec fn earned_points(s: Seq<Course>) -> int
    decreases s.len(),
{
    if s.len() == 0 {
        0
    } else {
        (if spec_eligible(s[0]) {
            s[0].study_points as int
        } else {
            0
        }) + earned_points(s.skip(1))
    }
}

/// Both sums are nonnegative and bounded by one maximal weight per
/// course.
pub proof fn lemma_points_bounds(s: Seq<Course>)
    ensures
        0 <= selected_points(s) <= s.len() * 0xffff_ffff,
        0 <= earned_points(s) <= s.len() * 0xffff_ffff,
    decreases s.len(),
{
    if s.len() > 0 {
        lemma_points_bounds(s.skip(1));
        assert(s.skip(1).len() == s.len() - 1);
        assert((s.len() - 1) * 0xffff_ffff + 0xffff_ffff == s.len() * 0xffff_ffff) by (nonlinear_arith);
    }
}

/// Sums the study points of the selected courses and of the courses
/// whose points are earned: the pair the dumper shows, in thousandths.
pub fn calculate_study_points(courses: &Vec<Course>) -> (r: (u64, u64))
    requires
        courses@.len() <= 0xffff_ffff,
    ensures
        r.0 == selected_points(courses@),
        r.1 == earned_points(courses@),
{
    let n = courses.len();
    let mut selected: u64 = 0;
    let mut earned: u64 = 0;
    let mut i: usize = 0;
    assert(courses@.skip(0) == courses@);
    proof {
        lemma_points_bounds(courses@);
        assert(courses@.len() * 0xffff_ffff <= 0xffff_ffff * 0xffff_ffff) by (nonlinear_arith)
            requires courses@.len() <= 0xffff_ffff;
    }
    while i < n
        invariant
            n == courses@.len() <= 0xffff_ffff,
            0 <= i <= n,
            selected_points(courses@) == selected + selected_points(courses@.skip(i as int)),
            earned_points(courses@) == earned + earned_points(courses@.skip(i as int)),
            selected <= 0xffff_ffff * 0xffff_ffff,
            earned <= 0xffff_ffff * 0xffff_ffff,
        decreases n - i,
    {
        let c = &courses[i];
        proof {
            assert(courses@.skip(i as int)[0] == courses@[i as int]);
            assert(courses@.skip(i as int).skip(1) =~= courses@.skip(i + 1));
            lemma_points_bounds(courses@.skip(i as int));
            lemma_points_bounds(courses@.skip(i + 1));
            assert(courses@.len() * 0xffff_ffff <= 0xffff_ffff * 0xffff_ffff) by (nonlinear_arith)
                requires courses@.len() <= 0xffff_ffff;
            lemma_points_bounds(courses@);
        }
        if c.selected {
            selected = selected + c.study_points as u64;
        }
        if c.eligible_for_points() {
            earned = earned + c.study_points as u64;
        }
        i += 1;
    }
    assert(courses@.skip(n as int) =~= Seq::<Course>::empty());
    (selected, earned)
}

/// `x` occurs in `s`.
pub open spec fn contains_i32(s: Seq<i32>, x: i32) -> bool {
    exists|j: int| 0 <= j < s.len() && s[j] == x
}

/// Whether `x` occurs in `s`.
pub fn contains_exec(s: &Vec<i32>, x: i32) -> (r: bool)
    ensures
        r == contains_i32(s@, x),
{
    let n = s.len();
    let mut i: usize = 0;
    while i < n
        invariant
            n == s@.len(),
            0 <= i <= n,
            forall|j: int| 0 <= j < i ==> s@[j] != x,
        decreases n - i,
    {
        if s[i] == x {
            return true;
        }
        i += 1;
    }
    false
}

/// A decimal digit.
pub open spec fn is_digit_char(c: char) -> bool {
    '0' <= c && c <= '9'
}

/// The value of a decimal digit sequence, most significant first.
pub open spec fn digits_value(s: Seq<char>) -> int
    decreases s.len(),
{
    if s.len() == 0 {
        0
    } else {
        digits_value(s.drop_last()) * 10 + (s.last() as u32 - 48)
    }
}

/// The value of an all-digit sequence is nonnegative.
pub proof fn lemma_digits_nonneg(s: Seq<char>)
    requires
        forall|j: int| 0 <= j < s.len() ==> is_digit_char(#[trigger] s[j]),
    ensures
        digits_value(s) >= 0,
    decreases s.len(),
{
    if s.len() > 0 {
        lemma_digits_nonneg(s.drop_last());
    }
}

/// Appending digits never shrinks the value.
pub proof fn lemma_digits_prefix(s: Seq<char>, i: int)
    requires
        forall|j: int| 0 <= j < s.len() ==> is_digit_char(#[trigger] s[j]),
        0 <= i <= s.len(),
    ensures
        digits_value(s) >= digits_value(s.subrange(0, i)),
    decreases s.len() - i,
{
    if i < s.len() {
        assert(s.subrange(0, i + 1).drop_last() =~= s.subrange(0, i));
        lemma_digits_nonneg(s.subrange(0, i));
        lemma_digits_prefix(s, i + 1);
    } else {
        assert(s.subrange(0, i) =~= s);
    }
}

/// The first index at or after `i` holding a non-digit, or the length.
pub open spec fn digit_end(s: Seq<char>, i: int) -> int
    decreases s.len() - i,
{
    if i < 0 || i >= s.len() {
        s.len() as int
    } else if is_digit_char(s[i]) {
        digit_end(s, i + 1)
    } else {
        i
    }
}

/// The literal `p` stands in `s` at index `i`.
pub open spec fn chars_at(s: Seq<char>, i: int, p: Seq<char>) -> bool {
    0 <= i && i + p.len() <= s.len() && s.subrange(i, i + p.len() as int) == p
}

/// Whether `p` stands in `s` at index `i`.
fn str_matches_at(s: &str, i: usize, p: &str) -> (r: bool)
    requires
        i <= s@.len(),
    ensures
        r == chars_at(s@, i as int, p@),
{
    let sn = s.unicode_len();
    let n = p.unicode_len();
    if sn - i < n {
        return false;
    }
    let mut k: usize = 0;
    while k < n
        invariant
            sn == s@.len(),
            n == p@.len(),
            i + n <= s@.len(),
            0 <= k <= n,
            forall|j: int| 0 <= j < k ==> s@[i + j] == p@[j],
        decreases n - k,
    {
        assert(i + k < sn);
        if s.get_char(i + k) != p.get_char(k) {
            assert(s@.subrange(i as int, i + p@.len() as int)[k as int] != p@[k as int]);
            return false;
        }
        k += 1;
    }
    assert(s@.subrange(i as int, i + p@.len() as int) =~= p@);
    true
}

/// A course-class marker starts at `i`: the literal `c-type` and at
/// least one digit.
pub open spec fn ctype_at(s: Seq<char>, i: int) -> bool {
    chars_at(s, i, "c-type"@) && i + 6 < s.len() && is_digit_char(s[i + 6])
}

/// The first course-class marker at or after `i`, or the length.
pub open spec fn first_ctype(s: Seq<char>, i: int) -> int
    decreases s.len() - i,
{
    if i < 0 || i >= s.len() {
        s.len() as int
    } else if ctype_at(s, i) {
        i
    } else {
        first_ctype(s, i + 1)
    }
}

/// The first index at or after `from` holding a non-digit, or the
/// length.
fn digit_end_exec(s: &str, from: usize) -> (r: usize)
    requires
        from <= s@.len(),
    ensures
        r == digit_end(s@, from as int),
        from <= r <= s@.len(),
        forall|j: int| from <= j < r ==> is_digit_char(#[trigger] s@[j]),
        r < s@.len() ==> !is_digit_char(s@[r as int]),
{
    let n = s.unicode_len();
    let mut i: usize = from;
    while i < n
        invariant
            n == s@.len(),
            from <= i <= n,
            digit_end(s@, from as int) == digit_end(s@, i as int),
            forall|j: int| from <= j < i ==> is_digit_char(#[trigger] s@[j]),
        decreases n - i,
    {
        let c = s.get_char(i);
        if !('0' <= c && c <= '9') {
            return i;
        }
        i += 1;
    }
    n
}

/// What a class attribute says of a course: selected, graded, or
/// neither.
#[derive(Debug, Clone, Copy, PartialEq, Eq, Structural)]
pub enum ClassMarker {
    Plain,
    Sel,
    Graded,
}

/// The marker read at `p`: `sel` wins over `graded`, neither leaves the
/// course plain.
pub open spec fn marker_at(s: Seq<char>, p: int) -> ClassMarker {
    if chars_at(s, p, "sel"@) {
        ClassMarker::Sel
    } else if chars_at(s, p, "graded"@) {
        ClassMarker::Graded
    } else {
        ClassMarker::Plain
    }
}

/// What the first course-class marker of a class attribute carries: its
/// digits and its marker, read as the pattern `c-type(digits)-?marker`.
pub open spec fn course_class_spec(s: Seq<char>) -> Option<(Seq<char>, ClassMarker)> {
    let m = first_ctype(s, 0);
    if m == s.len() {
        None
    } else {
        let ds = m + 6;
        let de = digit_end(s, ds);
        let p = if de < s.len() && s[de] == '-' {
            de + 1
        } else {
            de
        };
        Some((s.subrange(ds, de), marker_at(s, p)))
    }
}

/// Reads the digits from `ds` to `de` as a `u32`; `None` when their
/// value does not fit.
fn read_digits(s: &str, ds: usize, de: usize) -> (r: Option<u32>)
    requires
        ds <= de <= s@.len(),
        forall|j: int| ds <= j < de ==> is_digit_char(#[trigger] s@[j]),
    ensures
        match r {
            Some(v) => v == digits_value(s@.subrange(ds as int, de as int)),
            None => digits_value(s@.subrange(ds as int, de as int)) > u32::MAX,
        },
{
    let ghost whole = s@.subrange(ds as int, de as int);
    let mut acc: u32 = 0;
    let mut j: usize = ds;
    assert(whole.subrange(0, 0) =~= Seq::<char>::empty());
    while j < de
        invariant
            ds <= j <= de <= s@.len(),
            whole == s@.subrange(ds as int, de as int),
            forall|k: int| ds <= k < de ==> is_digit_char(#[trigger] s@[k]),
            acc == digits_value(whole.subrange(0, j - ds)),
        decreases de - j,
    {
        let c = s.get_char(j);
        assert(is_digit_char(c));
        let d: u32 = c as u32 - 48;
        proof {
            assert(whole.subrange(0, j - ds + 1).drop_last() =~= whole.subrange(0, j - ds));
            assert(whole.subrange(0, j - ds + 1).last() == s@[j as int]);
            assert(forall|k: int| 0 <= k < whole.len() ==> is_digit_char(#[trigger] whole[k]));
        }
        if acc > 429496729 || (acc == 429496729 && d > 5) {
            proof {
                lemma_digits_prefix(whole, j - ds + 1);
            }
            return None;
        }
        acc = acc * 10 + d;
        j += 1;
    }
    assert(whole.subrange(0, de - ds) =~= whole);
    Some(acc)
}

/// Reads a class attribute: the type number and the marker of its first
/// course-class entry, or `None` when it has none or the number does
/// not fit.
pub fn parse_course_class(class: &str) -> (r: Option<(u32, ClassMarker)>)
    ensures
        match course_class_spec(class@) {
            None => r is None,
            Some(dm) => {
                if digits_value(dm.0) <= u32::MAX {
                    r == Some((digits_value(dm.0) as u32, dm.1))
                } else {
                    r is None
                }
            },
        },
{
    let n = class.unicode_len();
    let mut i: usize = 0;
    while i < n
        invariant
            n == class@.len(),
            0 <= i <= n,
            first_ctype(class@, 0) == first_ctype(class@, i as int),
        decreases n - i,
    {
        let here = if str_matches_at(class, i, "c-type") {
            if n - i > 6 {
                let c = class.get_char(i + 6);
                '0' <= c && c <= '9'
            } else {
                false
            }
        } else {
            false
        };
        if here {
            assert(ctype_at(class@, i as int));
            let ds = i + 6;
            let de = digit_end_exec(class, ds);
            let p = if de < n && class.get_char(de) == '-' {
                de + 1
            } else {
                de
            };
            let marker = if p <= n && str_matches_at(class, p, "sel") {
                ClassMarker::Sel
            } else if p <= n && str_matches_at(class, p, "graded") {
                ClassMarker::Graded
            } else {
                ClassMarker::Plain
            };
            assert(marker == marker_at(class@, p as int));
            let v = match read_digits(class, ds, de) {
                Some(v) => v,
                None => {
                    return None;
                },
            };
            return Some((v, marker));
        }
        assert(!ctype_at(class@, i as int));
        i += 1;
    }
    None
}

/// Every character is a digit.
pub open spec fn all_digits(s: Seq<char>) -> bool {
    forall|j: int| 0 <= j < s.len() ==> is_digit_char(#[trigger] s[j])
}

/// Ten to the `k`th, for the small exponents digit counts need.
pub open spec fn tenpow(k: int) -> int
    decreases k,
{
    if k <= 0 {
        1
    } else {
        10 * tenpow(k - 1)
    }
}

/// An all-digit sequence's value stays under ten to its length.
pub proof fn lemma_digits_upper(s: Seq<char>)
    requires
        all_digits(s),
    ensures
        digits_value(s) < tenpow(s.len() as int),
    decreases s.len(),
{
    if s.len() > 0 {
        lemma_digits_upper(s.drop_last());
    }
}

/// The weight factor closing a fraction of `k` digits to thousandths.
pub open spec fn frac_factor(k: int) -> int {
    if k == 0 {
        1000
    } else if k == 1 {
        100
    } else if k == 2 {
        10
    } else {
        1
    }
}

/// A decimal numeral's value in thousandths: an optional integer part,
/// an optional dot, and up to three fraction digits, with at least one
/// digit in all. Anything else reads as nothing.
pub open spec fn thousandths_of(s: Seq<char>) -> Option<int> {
    let dot = find_char(s, '.', 0);
    if dot == s.len() {
        if s.len() > 0 && all_digits(s) {
            Some(digits_value(s) * 1000)
        } else {
            None
        }
    } else {
        let ip = s.subrange(0, dot);
        let fp = s.subrange(dot + 1, s.len() as int);
        if all_digits(ip) && all_digits(fp) && fp.len() <= 3 && ip.len() + fp.len() > 0 {
            Some(digits_value(ip) * 1000 + digits_value(fp) * frac_factor(fp.len() as int))
        } else {
            None
        }
    }
}

/// Reads a decimal numeral in thousandths; nothing when it is malformed
/// or its value does not fit.
pub fn parse_thousandths(s: &str) -> (r: Option<u32>)
    ensures
        match thousandths_of(s@) {
            Some(v) => {
                if v <= u32::MAX {
                    r == Some(v as u32)
                } else {
                    r is None
                }
            },
            None => r is None,
        },
{
    let n = s.unicode_len();
    let dot = str_find_char(s, '.', 0);
    if dot == n {
        if n == 0 {
            return None;
        }
        let de = digit_end_exec(s, 0);
        if de != n {
            assert(!is_digit_char(s@[de as int]));
            return None;
        }
        let v = match read_digits(s, 0, de) {
            Some(v) => v,
            None => {
                proof {
                    assert(s@.subrange(0, n as int) =~= s@);
                }
                return None;
            },
        };
        assert(s@.subrange(0, n as int) =~= s@);
        if v > 4294967 {
            return None;
        }
        return Some(v * 1000);
    }
    let ghost ip = s@.subrange(0, dot as int);
    let ghost fp = s@.subrange(dot + 1, s@.len() as int);
    let de1 = digit_end_exec(s, 0);
    if de1 != dot {
        proof {
            if de1 < dot {
                assert(!is_digit_char(ip[de1 as int]));
            } else {
                assert(is_digit_char(s@[dot as int]));
            }
        }
        return None;
    }
    assert(all_digits(ip)) by {
        assert(forall|j: int| 0 <= j < dot ==> is_digit_char(#[trigger] s@[j]));
        assert(forall|j: int| 0 <= j < ip.len() ==> is_digit_char(#[trigger] ip[j]));
    }
    let fl = n - dot - 1;
    if fl > 3 {
        return None;
    }
    let de2 = digit_end_exec(s, dot + 1);
    if de2 != n {
        assert(!is_digit_char(fp[de2 - dot - 1]));
        return None;
    }
    assert(all_digits(fp)) by {
        assert(forall|j: int| dot + 1 <= j < n ==> is_digit_char(#[trigger] s@[j]));
        assert(forall|j: int| 0 <= j < fp.len() ==> is_digit_char(#[trigger] fp[j]));
    }
    if dot == 0 && fl == 0 {
        return None;
    }
    let iv = match read_digits(s, 0, dot) {
        Some(v) => v,
        None => {
            proof {
                lemma_digits_nonneg(fp);
            }
            return None;
        },
    };
    let fv = match read_digits(s, dot + 1, n) {
        Some(v) => v,
        None => {
            proof {
                lemma_digits_upper(fp);
                assert(tenpow(fp.len() as int) <= 1000) by {
                    reveal_with_fuel(tenpow, 5);
                }
            }
            return None;
        },
    };
    proof {
        lemma_digits_upper(fp);
        lemma_digits_nonneg(fp);
        assert(tenpow(0) == 1 && tenpow(1) == 10 && tenpow(2) == 100 && tenpow(3) == 1000) by {
            reveal_with_fuel(tenpow, 5);
        }
    }
    let factor: u32 = if fl == 0 {
        1000
    } else if fl == 1 {
        100
    } else if fl == 2 {
        10
    } else {
        1
    };
    assert(factor == frac_factor(fp.len() as int));
    assert(fv * factor < 1000) by {
        if fl == 0 {
            assert(fp.len() == 0);
            assert(digits_value(fp) == 0);
        }
    };
    let fvf: u32 = fv * factor;
    if iv > 4294967 || (iv == 4294967 && fvf > 295) {
        return None;
    }
    Some(iv * 1000 + fvf)
}

/// The first index at or after `i` where `p` stands, or the length.
pub open spec fn find_sub(s: Seq<char>, p: Seq<char>, i: int) -> int
    decreases s.len() - i,
{
    if i < 0 || i >= s.len() {
        s.len() as int
    } else if chars_at(s, i, p) {
        i
    } else {
        find_sub(s, p, i + 1)
    }
}

/// The bracketed list a script line carries: what stands from the `[`
/// right after the marker through the first following `];`, brackets
/// kept.
pub open spec fn script_list_spec(s: Seq<char>, marker: Seq<char>) -> Option<Seq<char>> {
    let m = find_sub(s, marker, 0);
    if m == s.len() {
        None
    } else {
        let b = m + marker.len();
        if b < s.len() && s[b] == '[' {
            let e = find_sub(s, "];"@, b);
            if e == s.len() {
                None
            } else {
                Some(s.subrange(b, e + 1))
            }
        } else {
            None
        }
    }
}

/// The first index at or after `from` where `p` stands, or the length.
fn find_sub_exec(s: &str, p: &str, from: usize) -> (r: usize)
    requires
        from <= s@.len(),
    ensures
        r == find_sub(s@, p@, from as int),
        from <= r <= s@.len(),
        r < s@.len() ==> chars_at(s@, r as int, p@),
{
    let n = s.unicode_len();
    let mut i: usize = from;
    while i < n
        invariant
            n == s@.len(),
            from <= i <= n,
            find_sub(s@, p@, from as int) == find_sub(s@, p@, i as int),
        decreases n - i,
    {
        if str_matches_at(s, i, p) {
            return i;
        }
        i += 1;
    }
    n
}

/// Reads the bracketed list that follows the marker in a script line:
/// from its `[` through the first `];`, brackets kept.
pub fn extract_script_list(html: &str, marker: &str) -> (r: Option<String>)
    ensures
        match script_list_spec(html@, marker@) {
            Some(t) => r matches Some(v) && v@ == t,
            None => r is None,
        },
{
    let n = html.unicode_len();
    let m = find_sub_exec(html, marker, 0);
    if m == n {
        return None;
    }
    let b = m + marker.unicode_len();
    if !(b < n && html.get_char(b) == '[') {
        return None;
    }
    let e = find_sub_exec(html, "];", b);
    if e == n {
        return None;
    }
    proof {
        reveal_strlit("];");
    }
    let v = html.substring_char(b, e + 1);
    Some(String::from_str(v))
}

/// `suf` closes `s`.
pub open spec fn chars_end_with(s: Seq<char>, suf: Seq<char>) -> bool {
    s.len() >= suf.len() && s.subrange(s.len() - suf.len(), s.len() as int) == suf
}

/// `s` without its closing `suf`.
pub open spec fn strip_suffix_spec(s: Seq<char>, suf: Seq<char>) -> Seq<char> {
    s.subrange(0, s.len() - suf.len())
}

/// A thousandths reading is never negative.
pub proof fn lemma_thousandths_nonneg(s: Seq<char>)
    ensures
        match thousandths_of(s) {
            Some(v) => v >= 0,
            None => true,
        },
{
    let dot = find_char(s, '.', 0);
    if dot == s.len() {
        if s.len() > 0 && all_digits(s) {
            lemma_digits_nonneg(s);
        }
    } else {
        let ip = s.subrange(0, dot);
        let fp = s.subrange(dot + 1, s.len() as int);
        if all_digits(ip) && all_digits(fp) && fp.len() <= 3 && ip.len() + fp.len() > 0 {
            lemma_digits_nonneg(ip);
            lemma_digits_nonneg(fp);
            assert(digits_value(fp) * frac_factor(fp.len() as int) >= 0) by (nonlinear_arith)
                requires digits_value(fp) >= 0, frac_factor(fp.len() as int) >= 0;
            assert(digits_value(ip) * 1000 >= 0);
        }
    }
}

/// Everything up to `digit_end` is a digit.
pub proof fn lemma_digit_end_digits(s: Seq<char>, i: int)
    requires
        0 <= i,
    ensures
        forall|j: int| i <= j < digit_end(s, i) ==> is_digit_char(#[trigger] s[j]),
    decreases s.len() - i,
{
    if i < s.len() && is_digit_char(s[i]) {
        lemma_digit_end_digits(s, i + 1);
    }
}

/// `first_ctype` stays within the text and lands on a marker.
pub proof fn lemma_first_ctype_range(s: Seq<char>, i: int)
    requires
        0 <= i <= s.len(),
    ensures
        i <= first_ctype(s, i) <= s.len(),
        first_ctype(s, i) < s.len() ==> ctype_at(s, first_ctype(s, i)),
    decreases s.len() - i,
{
    if i < s.len() && !ctype_at(s, i) {
        lemma_first_ctype_range(s, i + 1);
    }
}

/// `digit_end` stays within the text.
pub proof fn lemma_digit_end_range(s: Seq<char>, i: int)
    requires
        0 <= i <= s.len(),
    ensures
        i <= digit_end(s, i) <= s.len(),
    decreases s.len() - i,
{
    if i < s.len() && is_digit_char(s[i]) {
        lemma_digit_end_range(s, i + 1);
    }
}

/// The digits a course-class entry carries have a nonnegative value.
pub proof fn lemma_course_class_nonneg(s: Seq<char>)
    ensures
        match course_class_spec(s) {
            Some(dm) => digits_value(dm.0) >= 0,
            None => true,
        },
{
    reveal_strlit("c-type");
    lemma_first_ctype_range(s, 0);
    let m = first_ctype(s, 0);
    if m != s.len() {
        assert(ctype_at(s, m));
        let ds = m + 6;
        assert(0 <= ds < s.len());
        lemma_digit_end_range(s, ds);
        let de = digit_end(s, ds);
        lemma_digit_end_digits(s, ds);
        let digits = s.subrange(ds, de);
        assert forall|j: int| 0 <= j < digits.len() implies is_digit_char(#[trigger] digits[j]) by {
            assert(digits[j] == s[ds + j]);
        }
        lemma_digits_nonneg(digits);
    }
}

/// The weight a raw field carries: its text without the unit suffix,
/// read in thousandths, when it parses and fits.
pub open spec fn weight_of(o: Option<String>, suf: Seq<char>) -> Option<int> {
    match o {
        Some(s) => {
            if chars_end_with(s@, suf) {
                match thousandths_of(strip_suffix_spec(s@, suf)) {
                    Some(v) => if v <= u32::MAX {
                        Some(v)
                    } else {
                        None
                    },
                    None => None,
                }
            } else {
                None
            }
        },
        None => None,
    }
}

/// The study weeks and study points of a course, in thousandths: a
/// usable `ov` field fixes both as `(n, 2n)`, else a usable `op` field
/// as `(n / 2, n)` - exactly, so an odd thousandth of a point, which no
/// half would represent, counts as unusable - else there are none.
pub open spec fn weights_spec(ov: Option<String>, op: Option<String>) -> Option<(int, int)> {
    match weight_of(ov, "ov"@) {
        Some(n) => {
            if 2 * n <= u32::MAX {
                Some((n, 2 * n))
            } else {
                None
            }
        },
        None => {
            match weight_of(op, "op"@) {
                Some(n) => {
                    if n % 2 == 0 {
                        Some((n / 2, n))
                    } else {
                        None
                    }
                },
                None => None,
            }
        },
    }
}

/// Study points are exactly twice the study weeks, on either path.
pub proof fn lemma_weights_ratio(ov: Option<String>, op: Option<String>)
    ensures
        match weights_spec(ov, op) {
            Some(wp) => wp.1 == 2 * wp.0,
            None => true,
        },
{
}

/// A weight pair is nonnegative and fits the model's range.
pub proof fn lemma_weights_bounds(ov: Option<String>, op: Option<String>)
    ensures
        match weights_spec(ov, op) {
            Some(wp) => 0 <= wp.0 <= u32::MAX && 0 <= wp.1 <= u32::MAX,
            None => true,
        },
{
    match ov {
        Some(sv) => {
            if chars_end_with(sv@, "ov"@) {
                lemma_thousandths_nonneg(strip_suffix_spec(sv@, "ov"@));
            }
        },
        None => {},
    }
    match op {
        Some(sv) => {
            if chars_end_with(sv@, "op"@) {
                lemma_thousandths_nonneg(strip_suffix_spec(sv@, "op"@));
            }
        },
        None => {},
    }
}

/// Reads the two study weights out of the raw `ov`/`op` fields.
pub fn course_weights(ov: &Option<String>, op: &Option<String>) -> (r: Option<(u32, u32)>)
    ensures
        match weights_spec(*ov, *op) {
            Some(wp) => r == Some((wp.0 as u32, wp.1 as u32)),
            None => r is None,
        },
{
    proof {
        reveal_strlit("ov");
        reveal_strlit("op");
    }
    match ov {
        Some(sv) => {
            let sl = sv.as_str();
            let n = sl.unicode_len();
            if n >= 2 && str_matches_at(sl, n - 2, "ov") {
                assert(chars_end_with(sv@, "ov"@));
                let body = sl.substring_char(0, n - 2);
                match parse_thousandths(body) {
                    Some(v) => {
                        proof {
                            lemma_thousandths_nonneg(body@);
                        }
                        assert(weight_of(*ov, "ov"@) == Some(v as int));
                        let doubled: u64 = (v as u64) * 2;
                        if doubled <= 0xffff_ffff {
                            return Some((v, doubled as u32));
                        }
                        return None;
                    },
                    None => {},
                }
            } else {
                assert(!chars_end_with(sv@, "ov"@));
            }
        },
        None => {},
    }
    match op {
        Some(sv) => {
            let sl = sv.as_str();
            let n = sl.unicode_len();
            if n >= 2 && str_matches_at(sl, n - 2, "op") {
                assert(chars_end_with(sv@, "op"@));
                let body = sl.substring_char(0, n - 2);
                match parse_thousandths(body) {
                    Some(v) => {
                        proof {
                            lemma_thousandths_nonneg(body@);
                        }
                        assert(weight_of(*op, "op"@) == Some(v as int));
                        if v % 2 == 0 {
                            return Some((v / 2, v));
                        }
                        return None;
                    },
                    None => {},
                }
            } else {
                assert(!chars_end_with(sv@, "op"@));
            }
        },
        None => {},
    }
    None
}

/// JSON insignificant whitespace, as the type lists may carry it.
pub open spec fn is_ws_char(c: char) -> bool {
    c == ' ' || c == '\t' || c == '\n' || c == '\r'
}

/// The first index at or after `i` holding a non-space, or the length.
pub open spec fn first_non_ws(s: Seq<char>, i: int) -> int
    decreases s.len() - i,
{
    if i < 0 || i >= s.len() {
        s.len() as int
    } else if is_ws_char(s[i]) {
        first_non_ws(s, i + 1)
    } else {
        i
    }
}

/// The index just past the last non-space, or zero when all is space.
pub open spec fn last_non_ws_end(s: Seq<char>) -> int
    decreases s.len(),
{
    if s.len() == 0 {
        0
    } else if is_ws_char(s.last()) {
        last_non_ws_end(s.drop_last())
    } else {
        s.len() as int
    }
}

/// The first index at or after `from` holding a non-space, or the
/// length.
fn first_non_ws_exec(s: &str, from: usize) -> (r: usize)
    requires
        from <= s@.len(),
    ensures
        r == first_non_ws(s@, from as int),
        from <= r <= s@.len(),
        r < s@.len() ==> !is_ws_char(s@[r as int]),
{
    let n = s.unicode_len();
    let mut i: usize = from;
    while i < n
        invariant
            n == s@.len(),
            from <= i <= n,
            first_non_ws(s@, from as int) == first_non_ws(s@, i as int),
        decreases n - i,
    {
        let c = s.get_char(i);
        if !(c == ' ' || c == '\t' || c == '\n' || c == '\r') {
            return i;
        }
        i += 1;
    }
    n
}

/// The index just past the last non-space.
fn trim_end_exec(s: &str) -> (r: usize)
    ensures
        r == last_non_ws_end(s@),
        r <= s@.len(),
        forall|j: int| r <= j < s@.len() ==> is_ws_char(#[trigger] s@[j]),
        r > 0 ==> !is_ws_char(s@[r - 1]),
{
    let n = s.unicode_len();
    let mut i: usize = n;
    assert(s@.subrange(0, n as int) =~= s@);
    while i > 0
        invariant
            n == s@.len(),
            0 <= i <= n,
            last_non_ws_end(s@) == last_non_ws_end(s@.subrange(0, i as int)),
            forall|j: int| i <= j < s@.len() ==> is_ws_char(#[trigger] s@[j]),
        decreases i,
    {
        let c = s.get_char(i - 1);
        proof {
            assert(s@.subrange(0, i as int).last() == s@[i - 1]);
            assert(s@.subrange(0, i as int).drop_last() =~= s@.subrange(0, i - 1));
        }
        if !(c == ' ' || c == '\t' || c == '\n' || c == '\r') {
            return i;
        }
        i -= 1;
    }
    assert(s@.subrange(0, 0) =~= Seq::<char>::empty());
    0
}

/// The integer one trimmed list piece stands for: optional sign, then
/// digits only.
pub open spec fn int_piece(s: Seq<char>) -> Option<int> {
    let a = first_non_ws(s, 0);
    let b = last_non_ws_end(s);
    if a >= b {
        None
    } else {
        let neg = s[a] == '-';
        let ds = if neg {
            a + 1
        } else {
            a
        };
        if ds < b && all_digits(s.subrange(ds, b)) {
            if neg {
                Some(-digits_value(s.subrange(ds, b)))
            } else {
                Some(digits_value(s.subrange(ds, b)))
            }
        } else {
            None
        }
    }
}

/// Reads one list piece; nothing when it is malformed or out of range.
fn parse_int_piece(piece: &str) -> (r: Option<i32>)
    ensures
        match int_piece(piece@) {
            None => r is None,
            Some(v) => {
                if -2147483647 <= v <= 2147483647 {
                    r == Some(v as i32)
                } else {
                    r is None
                }
            },
        },
{
    let a = first_non_ws_exec(piece, 0);
    let b = trim_end_exec(piece);
    if a >= b {
        return None;
    }
    let neg = piece.get_char(a) == '-';
    let ds = if neg {
        a + 1
    } else {
        a
    };
    if ds >= b {
        return None;
    }
    let ghost body = piece@.subrange(ds as int, b as int);
    let de = digit_end_exec(piece, ds);
    proof {
        if de > b {
            assert(is_digit_char(piece@[b as int]));
        }
    }
    if de != b {
        proof {
            if de < b {
                assert(!is_digit_char(body[de - ds]));
            }
        }
        return None;
    }
    assert(all_digits(body)) by {
        assert(forall|j: int| ds <= j < b ==> is_digit_char(#[trigger] piece@[j]));
        assert(forall|j: int| 0 <= j < body.len() ==> is_digit_char(#[trigger] body[j]));
    }
    let mag = match read_digits(piece, ds, b) {
        Some(v) => v,
        None => {
            return None;
        },
    };
    if mag > 2147483647 {
        return None;
    }
    if neg {
        Some(0 - (mag as i32))
    } else {
        Some(mag as i32)
    }
}

/// The integers of the `&`-free piece list from `i` on, split at commas.
pub open spec fn int_items(s: Seq<char>, i: int) -> Option<Seq<int>>
    decreases s.len() - i,
{
    if i < 0 || i > s.len() {
        None
    } else {
        let e = crate::bytes_util::clamp_idx(find_char(s, ',', i), i, s.len() as int);
        match int_piece(s.subrange(i, e)) {
            None => None,
            Some(v) => {
                if e < s.len() {
                    match int_items(s, e + 1) {
                        Some(rest) => Some(seq![v] + rest),
                        None => None,
                    }
                } else {
                    Some(seq![v])
                }
            },
        }
    }
}

/// The integers a bracketed list stands for: `[` and `]` around
/// comma-separated integers, or nothing at all between the brackets.
pub open spec fn int_list_spec(t: Seq<char>) -> Option<Seq<int>> {
    if t.len() >= 2 && t[0] == '[' && t[t.len() - 1] == ']' {
        let inner = t.subrange(1, t.len() - 1);
        if first_non_ws(inner, 0) == inner.len() {
            Some(Seq::empty())
        } else {
            int_items(inner, 0)
        }
    } else {
        None
    }
}

/// Joins a piece list result onto the values already read.
pub open spec fn items_onto(acc: Seq<int>, r: Option<Seq<int>>) -> Option<Seq<int>> {
    match r {
        Some(v) => Some(acc + v),
        None => None,
    }
}

/// Reads a bracketed integer list, as the script lines carry the course
/// type ids. Nothing when the text is no such list; nothing as well when
/// a value is out of the ids' range, as the second clause says exactly.
pub fn parse_int_list(t: &str) -> (r: Option<Vec<i32>>)
    ensures
        match int_list_spec(t@) {
            None => r is None,
            Some(vals) => {
                match r {
                    Some(out) => out@.map_values(|x: i32| x as int) == vals,
                    None => exists|j: int| 0 <= j < vals.len() && !(-2147483647 <= #[trigger] vals[j]
                        <= 2147483647),
                }
            },
        },
{
    let n = t.unicode_len();
    if n < 2 {
        return None;
    }
    if t.get_char(0) != '[' || t.get_char(n - 1) != ']' {
        return None;
    }
    let inner = t.substring_char(1, n - 1);
    let ni = inner.unicode_len();
    let ghost iv = t@.subrange(1, t@.len() - 1);
    assert(inner@ == iv);
    if first_non_ws_exec(inner, 0) == ni {
        return Some(Vec::new());
    }
    let mut out: Vec<i32> = Vec::new();
    let mut i: usize = 0;
    assert(out@.map_values(|x: i32| x as int) =~= Seq::<int>::empty());
    assert(Seq::<int>::empty() + int_items(iv, 0).unwrap() =~= int_items(iv, 0).unwrap());
    while i <= ni
        invariant
            ni == iv.len(),
            inner@ == iv,
            t@.len() >= 2 && t@[0] == '[' && t@[t@.len() - 1] == ']',
            iv == t@.subrange(1, t@.len() - 1),
            first_non_ws(iv, 0) != iv.len(),
            0 <= i <= ni,
            int_items(iv, 0) == items_onto(out@.map_values(|x: i32| x as int), int_items(iv, i as int)),
        decreases ni + 1 - i,
    {
        let e = str_find_char(inner, ',', i);
        assert(e as int == crate::bytes_util::clamp_idx(find_char(iv, ',', i as int), i as int, iv.len() as int));
        let piece = inner.substring_char(i, e);
        let ghost prev = out@.map_values(|x: i32| x as int);
        let v = match parse_int_piece(piece) {
            Some(v) => v,
            None => {
                proof {
                    match int_piece(iv.subrange(i as int, e as int)) {
                        Some(w) => {
                            match int_items(iv, i as int) {
                                Some(rest) => {
                                    let vals = int_items(iv, 0).unwrap();
                                    assert(vals == prev + rest);
                                    assert(rest[0] == w);
                                    assert(vals[prev.len() as int] == w);
                                },
                                None => {},
                            }
                        },
                        None => {},
                    }
                }
                return None;
            },
        };
        out.push(v);
        proof {
            assert(out@.map_values(|x: i32| x as int) =~= prev.push(v as int));
            match int_items(iv, i as int) {
                Some(all_here) => {
                    if e < ni {
                        match int_items(iv, e + 1) {
                            Some(rest) => {
                                assert(prev + (seq![v as int] + rest) =~= (prev.push(v as int)) + rest);
                            },
                            None => {},
                        }
                    } else {
                        assert(prev + seq![v as int] =~= prev.push(v as int));
                        assert(prev.push(v as int) + Seq::<int>::empty() =~= prev.push(v as int));
                    }
                },
                None => {},
            }
        }
        if e < ni {
            i = e + 1;
        } else {
            proof {
                match int_items(iv, i as int) {
                    Some(all_here) => {
                        assert(int_items(iv, 0) == Some(prev.push(v as int)));
                    },
                    None => {},
                }
            }
            return Some(out);
        }
    }
    None
}

/// The plain data a course link's JSON title carries.
#[derive(Debug, Clone)]
pub struct CourseData {
    pub code: String,
    pub name: String,
    pub type_: String,
    pub ov: Option<String>,
    pub op: Option<String>,
    pub completed_at: Option<String>,
}

/// The view of an optional text field.
pub open spec fn opt_str_view(o: Option<String>) -> Option<Seq<char>> {
    match o {
        Some(s) => Some(s@),
        None => None,
    }
}

/// Reads one course out of the plain pieces the page walker hands in:
/// the title data, the class attribute, the grade cell's text, whether
/// the link is a bottom-level entry, and the page's two type lists. A
/// course comes back exactly when the link is bottom-level, a grade cell
/// stands by it, the class attribute carries a course-class entry whose
/// type number fits, and one of the weight fields is usable; its grade
/// counts only when the class marks the course graded.
pub fn parse_course(data: CourseData, class: &str, grade_text: &Option<String>, is_bottom_level: bool, compulsory: &Vec<i32>, selectable: &Vec<i32>) -> (r: Option<Course>)
    ensures
        ({
            let cc = course_class_spec(class@);
            let ws = weights_spec(data.ov, data.op);
            if !is_bottom_level || grade_text is None || cc is None {
                r is None
            } else {
                let t = digits_value(cc.unwrap().0);
                if t > i32::MAX {
                    r is None
                } else {
                    match ws {
                        None => r is None,
                        Some(wp) => r matches Some(c) && {
                            &&& c.code@ == data.code@
                            &&& c.name@ == data.name@
                            &&& c.type_@ == data.type_@
                            &&& c.selected == (cc.unwrap().1 is Sel || cc.unwrap().1 is Graded)
                            &&& c.selectable == contains_i32(selectable@, t as i32)
                            &&& c.optional == !contains_i32(compulsory@, t as i32)
                            &&& c.grade == (if cc.unwrap().1 is Graded {
                                CourseGrade::of_name(grade_text.unwrap()@)
                            } else {
                                None::<CourseGrade>
                            })
                            &&& opt_str_view(c.completed_at) == opt_str_view(data.completed_at)
                            &&& c.study_weeks == wp.0
                            &&& c.study_points == wp.1
                            &&& c.study_points == 2 * c.study_weeks
                        },
                    }
                }
            }
        }),
{
    if !is_bottom_level {
        return None;
    }
    let gt = match grade_text {
        Some(g) => g,
        None => {
            return None;
        },
    };
    proof {
        lemma_course_class_nonneg(class@);
        lemma_weights_bounds(data.ov, data.op);
        lemma_weights_ratio(data.ov, data.op);
    }
    let (tval, marker) = match parse_course_class(class) {
        Some(x) => x,
        None => {
            return None;
        },
    };
    if tval > 2147483647 {
        return None;
    }
    let t = tval as i32;
    let grade = if matches!(marker, ClassMarker::Graded) {
        CourseGrade::try_from_name(gt)
    } else {
        None
    };
    let (w, p) = match course_weights(&data.ov, &data.op) {
        Some(x) => x,
        None => {
            return None;
        },
    };
    Some(Course {
        code: data.code,
        name: data.name,
        selected: matches!(marker, ClassMarker::Sel | ClassMarker::Graded),
        selectable: contains_exec(selectable, t),
        optional: !contains_exec(compulsory, t),
        type_: data.type_,
        grade,
        completed_at: data.completed_at,
        study_weeks: w,
        study_points: p,
    })
}

} // verus!

//! Metadata from dataset filenames and folders.
//!
//! A stem such as
//! `C:/POC_P2_20000_16/padded_china_junior-high-school_grade-1_economics_history_202508041807235332_train_para1`
//! carries the grade, subject and document type in its file name, and the
//! batch number in the `POC_P2_20000_<batch>` folder above it.
use crate::text::{
    all_decimal, all_decimal_in, all_digits, contains_seq, decimal_digit, decimal_digit_flags,
    digits_value, ends_with_lit, extend_chars, from_chars, is_digit, is_digit_char,
    lemma_digits_value_mono, lit_at, slice_chars, split_chars, split_on, to_chars,
};
use crate::types::{Meta, MetaView};
use vstd::prelude::*;

verus! {

// ---------------------------------------------------------------------------
// File-name grammar
// ---------------------------------------------------------------------------

pub open spec fn junior_prefix() -> Seq<char> {
    "padded_china_junior-high-school_grade-"@
}

pub open spec fn senior_prefix() -> Seq<char> {
    "padded_china_senior-high-school_grade-"@
}

/// The part of a name after its school prefix, if it has one.
pub open spec fn after_school(n: Seq<char>) -> Option<Seq<char>> {
    if junior_prefix().is_prefix_of(n) {
        Some(n.skip(junior_prefix().len() as int))
    } else if senior_prefix().is_prefix_of(n) {
        Some(n.skip(senior_prefix().len() as int))
    } else {
        None
    }
}

/// `para<digits>.json`, with at least one (Unicode decimal) digit.
pub open spec fn para_tail_ok(f: Seq<char>) -> bool {
    &&& "para"@.is_prefix_of(f)
    &&& "para"@.len() + ".json"@.len() < f.len()
    &&& f.skip(f.len() - ".json"@.len()) == ".json"@
    &&& all_decimal(f.subrange("para"@.len() as int, f.len() - ".json"@.len()))
}

/// Grade, subject and document type of a name of the form
/// `padded_china_(junior|senior)-high-school_grade-<D>_<subject>_<doctype>_<digits>_<split>_para<digits>.json`,
/// where the four middle fields are non-empty and hold no `_`, and a digit is
/// any Unicode decimal digit.
pub open spec fn stem_fields(n: Seq<char>) -> Option<(Seq<char>, Seq<char>, Seq<char>)> {
    match after_school(n) {
        None => None,
        Some(r) => if r.len() >= 2 && decimal_digit(r[0]) && r[1] == '_' {
            let f = split_on(r.skip(2), '_');
            if f.len() == 5 && f[0].len() > 0 && f[1].len() > 0 && f[2].len() > 0 && all_decimal(f[2])
                && f[3].len() > 0 && para_tail_ok(f[4]) {
                Some(("grade-"@.push(r[0]), f[0], f[1]))
            } else {
                None
            }
        } else {
            None
        },
    }
}

/// The file name with `.json` added when it does not already end in it (index
/// stems have their extension stripped).
pub open spec fn name_for_match(fname: Seq<char>) -> Seq<char> {
    if ".json"@.len() <= fname.len() && fname.skip(fname.len() - ".json"@.len()) == ".json"@ {
        fname
    } else {
        fname + ".json"@
    }
}

fn para_tail_of(f: &Vec<char>) -> (b: bool)
    ensures
        b == para_tail_ok(f@),
{
    let pl: usize = to_chars("para").len();
    let jl: usize = to_chars(".json").len();
    if !(lit_at(f, 0, &to_chars("para"))) {
        assert(f@.skip(0) =~= f@);
        return false;
    }
    assert(f@.skip(0) =~= f@);
    if jl >= f.len() - pl {
        return false;
    }
    if !ends_with_lit(f, ".json") {
        return false;
    }
    all_decimal_in(f, pl, f.len() - jl)
}

fn stem_fields_of(n: &Vec<char>) -> (r: Option<(Vec<char>, Vec<char>, Vec<char>)>)
    ensures
        match r {
            None => stem_fields(n@) is None,
            Some(t) => stem_fields(n@) == Some((t.0@, t.1@, t.2@)),
        },
{
    let jp = to_chars("padded_china_junior-high-school_grade-");
    let sp = to_chars("padded_china_senior-high-school_grade-");
    assert(n@.skip(0) =~= n@);
    let start: usize = if lit_at(n, 0, &jp) {
        jp.len()
    } else if lit_at(n, 0, &sp) {
        sp.len()
    } else {
        return None;
    };
    let ghost r = n@.skip(start as int);
    assert(after_school(n@) == Some(r));
    if n.len() - start < 2 {
        return None;
    }
    let d = n[start];
    assert(r[0] == d);
    assert(r[1] == n@[start + 1]);
    let dflags = decimal_digit_flags(&slice_chars(n, start, start + 1));
    if !dflags[0] || n[start + 1] != '_' {
        return None;
    }
    let rest = slice_chars(n, start + 2, n.len());
    assert(rest@ =~= r.skip(2));
    let f = split_chars(&rest, '_');
    if f.len() != 5 {
        return None;
    }
    if f[0].len() == 0 || f[1].len() == 0 || f[2].len() == 0 {
        return None;
    }
    assert(f[2]@.subrange(0, f[2]@.len() as int) =~= f[2]@);
    if !all_decimal_in(&f[2], 0, f[2].len()) {
        return None;
    }
    if f[3].len() == 0 || !para_tail_of(&f[4]) {
        return None;
    }
    let mut grade = to_chars("grade-");
    grade.push(d);
    let subject = slice_chars(&f[0], 0, f[0].len());
    let doc = slice_chars(&f[1], 0, f[1].len());
    assert(subject@ =~= f[0]@);
    assert(doc@ =~= f[1]@);
    Some((grade, subject, doc))
}

// ---------------------------------------------------------------------------
// Batch folder
// ---------------------------------------------------------------------------

pub open spec fn batch_marker() -> Seq<char> {
    "POC_P2_20000_"@
}

/// The batch marker followed by at least one (Unicode decimal) digit starts
/// `s`.
pub open spec fn marker_at(s: Seq<char>) -> bool {
    &&& batch_marker().is_prefix_of(s)
    &&& s.len() > batch_marker().len()
    &&& decimal_digit(s[batch_marker().len() as int])
}

/// The maximal run of (Unicode decimal) digits that starts `s`.
pub open spec fn digit_run(s: Seq<char>) -> Seq<char>
    decreases s.len(),
{
    if s.len() > 0 && decimal_digit(s[0]) {
        seq![s[0]] + digit_run(s.drop_first())
    } else {
        Seq::<char>::empty()
    }
}

/// Digits after the leftmost batch marker in `s` that is followed by a
/// digit.
pub open spec fn batch_digits(s: Seq<char>) -> Option<Seq<char>>
    decreases s.len(),
{
    if s.len() == 0 {
        None
    } else if marker_at(s) {
        Some(digit_run(s.skip(batch_marker().len() as int)))
    } else {
        batch_digits(s.drop_first())
    }
}

/// Batch number of a path: the number after the leftmost `POC_P2_20000_`
/// that is followed by digits, read as an `i32`; `-1` when there is none,
/// when that run holds a digit other than ASCII `0`-`9`, or when it does not
/// fit an `i32`.
pub open spec fn batch_number(path: Seq<char>) -> i32 {
    match batch_digits(path) {
        Some(d) => if all_digits(d) && digits_value(d) <= i32::MAX {
            digits_value(d) as i32
        } else {
            -1i32
        },
        None => -1i32,
    }
}

proof fn lemma_digit_run(v: Seq<char>, a: int, b: int)
    requires
        0 <= a <= b <= v.len(),
        forall|k: int| a <= k < b ==> decimal_digit(#[trigger] v[k]),
        b == v.len() || !decimal_digit(v[b]),
    ensures
        digit_run(v.skip(a)) == v.subrange(a, b),
    decreases b - a,
{
    if a < b {
        lemma_digit_run(v, a + 1, b);
        assert(v.skip(a).drop_first() =~= v.skip(a + 1));
        assert(v.skip(a)[0] == v[a]);
        assert(v.subrange(a, b) =~= seq![v[a]] + v.subrange(a + 1, b));
    } else {
        assert(v.subrange(a, b) =~= Seq::<char>::empty());
        if b < v.len() {
            assert(v.skip(a)[0] == v[b]);
        }
    }
}

/// Batch number of a path (see `batch_number`).
pub fn batch_number_of(path: &str) -> (b: i32)
    ensures
        b == batch_number(path@),
{
    let v = to_chars(path);
    let flags = decimal_digit_flags(&v);
    let m = to_chars("POC_P2_20000_");
    let ml: usize = m.len();
    let mut i: usize = 0;
    assert(v@.skip(0) =~= v@);
    while i < v.len()
        invariant
            i <= v.len(),
            v@ == path@,
            flags@.len() == v@.len(),
            forall|k: int| 0 <= k < v@.len() ==> flags@[k] == decimal_digit(#[trigger] v@[k]),
            m@ == batch_marker(),
            ml == m@.len(),
            batch_digits(v@) == batch_digits(v@.skip(i as int)),
        decreases v.len() - i,
    {
        let ghost s = v@.skip(i as int);
        if lit_at(&v, i, &m) && ml < v.len() - i && flags[i + ml] {
            assert(s[ml as int] == v@[i + ml]);
            assert(marker_at(s));
            let start: usize = i + ml;
            let mut j: usize = start;
            while j < v.len() && flags[j]
                invariant
                    start <= j <= v.len(),
                    flags@.len() == v@.len(),
                    forall|k: int| 0 <= k < v@.len() ==> flags@[k] == decimal_digit(#[trigger] v@[k]),
                    forall|k: int| start <= k < j ==> decimal_digit(#[trigger] v@[k]),
                decreases v.len() - j,
            {
                j = j + 1;
            }
            proof {
                lemma_digit_run(v@, start as int, j as int);
                assert(s.skip(ml as int) =~= v@.skip(start as int));
            }
            let ghost run = v@.subrange(start as int, j as int);
            assert(batch_digits(s) == Some(run));
            assert(batch_digits(path@) == Some(run));
            // `i32` parsing takes ASCII digits only.
            let mut a: usize = start;
            while a < j
                invariant
                    start <= a <= j <= v.len(),
                    run == v@.subrange(start as int, j as int),
                    batch_digits(path@) == Some(run),
                    forall|k: int| start <= k < a ==> is_digit(#[trigger] v@[k]),
                decreases j - a,
            {
                if !is_digit_char(v[a]) {
                    assert(run[a - start] == v@[a as int]);
                    assert(!all_digits(run));
                    return -1;
                }
                a = a + 1;
            }
            assert(all_digits(run)) by {
                assert forall|k: int| 0 <= k < run.len() implies is_digit(#[trigger] run[k]) by {
                    assert(run[k] == v@[start + k]);
                }
            }
            let mut value: u64 = 0;
            let mut k: usize = start;
            while k < j
                invariant
                    start <= k <= j <= v.len(),
                    run == v@.subrange(start as int, j as int),
                    batch_digits(path@) == Some(run),
                    all_digits(run),
                    value == digits_value(run.take(k - start)),
                    value <= i32::MAX,
                decreases j - k,
            {
                let c = v[k];
                assert(run[k - start] == c);
                let dv: u64 = (c as u32 - '0' as u32) as u64;
                assert(run.take(k + 1 - start).drop_last() =~= run.take(k - start));
                assert(run.take(k + 1 - start).last() == c);
                assert(dv == crate::text::digit_value(c));
                assert(digits_value(run.take(k + 1 - start)) == value * 10 + dv);
                if value > (i32::MAX as u64 - dv) / 10 {
                    proof {
                        let mx: int = i32::MAX as int;
                        assert(value * 10 + dv > mx) by (nonlinear_arith)
                            requires
                                value > (mx - dv) / 10,
                                dv <= 9,
                                mx > 9,
                        ;
                        lemma_digits_value_mono(run, k + 1 - start);
                    }
                    return -1;
                }
                value = value * 10 + dv;
                k = k + 1;
            }
            assert(run.take(j - start) =~= run);
            return value as i32;
        }
        assert(!marker_at(s)) by {
            if marker_at(s) {
                assert(batch_marker().is_prefix_of(v@.skip(i as int)));
                assert(s[ml as int] == v@[i + ml]);
            }
        }
        assert(s.drop_first() =~= v@.skip(i + 1));
        i = i + 1;
    }
    assert(v@.skip(i as int) =~= Seq::<char>::empty());
    -1
}

// ---------------------------------------------------------------------------
// Stems
// ---------------------------------------------------------------------------

/// Metadata of the stem `stem` whose file name is `fname`: the grammar
/// fields of the name, and the batch number found anywhere in the stem.
pub open spec fn meta_of(stem: Seq<char>, fname: Seq<char>) -> Option<MetaView> {
    match stem_fields(name_for_match(fname)) {
        None => None,
        Some(t) => Some(
            MetaView { stem, grade: t.0, subject: t.1, doc_type: t.2, batch: batch_number(stem) },
        ),
    }
}

/// Metadata of a stem whose file name is `file_name`: the grammar fields of
/// the name, and the batch number found anywhere in the stem's path.
pub fn parse_stem_name(stem: &str, file_name: &str) -> (r: Option<Meta>)
    ensures
        match r {
            None => meta_of(stem@, file_name@) is None,
            Some(m) => meta_of(stem@, file_name@) == Some(m@),
        },
{
    let f = to_chars(file_name);
    let mut n = f;
    if !ends_with_lit(&n, ".json") {
        extend_chars(&mut n, &to_chars(".json"));
    }
    assert(n@ == name_for_match(file_name@));
    match stem_fields_of(&n) {
        None => None,
        Some(t) => Some(
            Meta {
                stem: stem.to_owned(),
                grade: from_chars(&t.0),
                subject: from_chars(&t.1),
                doc_type: from_chars(&t.2),
                batch: batch_number_of(stem),
            },
        ),
    }
}

/// The part of a path's text after its last `/` (all of it when it has
/// none).
pub open spec fn last_segment(p: Seq<char>) -> Seq<char> {
    match crate::pipeline::last_index_of(p, '/') {
        None => p,
        Some(k) => p.skip(k + 1),
    }
}

/// The path starts with a drive letter and a separator (`C:/`): on Windows a
/// disk prefix and the root, elsewhere the ordinary first component `C:`.
pub open spec fn drive_start(p: Seq<char>) -> bool {
    &&& p.len() >= 3
    &&& (('a' <= p[0] && p[0] <= 'z') || ('A' <= p[0] && p[0] <= 'Z'))
    &&& p[1] == ':'
    &&& p[2] == '/'
}

/// A path whose final component every platform reads the same way: `/` is
/// its only separator (no `\`), it has no prefix other than a drive letter
/// such as `C:/` (no other `:`, and what follows the drive letter does not
/// start with `//`), and its text after the last `/` is a plain name
/// (non-empty, neither `.` nor `..`).
pub open spec fn plain_path(p: Seq<char>) -> bool {
    let body = if drive_start(p) {
        p.skip(2)
    } else {
        p
    };
    &&& !p.contains('\\')
    &&& !body.contains(':')
    &&& !(body.len() >= 2 && body[0] == '/' && body[1] == '/')
    &&& last_segment(p).len() > 0
    &&& last_segment(p) != "."@
    &&& last_segment(p) != ".."@
}

/// `Path::file_name` of a path given as text, as text. Which part is the
/// final component depends on the platform's path rules (separators and
/// prefixes); what is claimed is that it is a non-empty piece of the path's
/// text, and that for a path with `/` as its only separator, no prefix but
/// a drive letter, and a plain name after its last `/` (`plain_path`), it is
/// that name: on every platform the path's last component is then that
/// normal name. Other paths are left unsaid.
#[verifier::external_body]
pub(crate) fn path_file_name(p: &str) -> (r: Option<String>)
    ensures
        r matches Some(n) ==> n@.len() > 0 && contains_seq(p@, n@),
        plain_path(p@) ==> r is Some && r->0@ == last_segment(p@),
{
    std::path::Path::new(p).file_name().and_then(|s| s.to_str()).map(|s| s.to_string())
}

/// Parse a filename stem and return its metadata, including the batch number
/// taken from the ancestor folder (not the file name itself). The file name is
/// the path's final component as the platform's path rules give it; for a
/// plain `/`-separated path it is the text after the last `/`.
pub fn parse_stem(stem: &str) -> (r: Option<Meta>)
    ensures
        r matches Some(m) ==> exists|f: Seq<char>|
            f.len() > 0 && contains_seq(stem@, f) && #[trigger] meta_of(stem@, f) == Some(m@),
        plain_path(stem@) ==> match r {
            Some(m) => meta_of(stem@, last_segment(stem@)) == Some(m@),
            None => meta_of(stem@, last_segment(stem@)) is None,
        },
{
    match path_file_name(stem) {
        None => None,
        Some(fname) => {
            let r = parse_stem_name(stem, fname.as_str());
            match &r {
                Some(m) => {
                    assert(meta_of(stem@, fname@) == Some(m@));
                },
                None => {},
            }
            r
        },
    }
}

} // verus!

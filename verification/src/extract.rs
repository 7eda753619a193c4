//! Extracting risky files: which files of which predictions to copy or move,
//! how a destination name is chosen when the plain name is taken, and how the
//! outcome of each transfer is recorded.
use crate::pipeline::{last_index_of, rfind_char, strings_view};
use crate::text::{
    decimal, decimal_chars, eq_lit, extend_chars, from_chars, lemma_decimal_digits, slice_chars,
    to_chars,
};
use crate::types::RiskTier;
use vstd::prelude::*;

verus! {

// ---------------------------------------------------------------------------
// Results
// ---------------------------------------------------------------------------

/// Outcome of one extract run.
#[derive(Debug)]
pub struct ExtractResult {
    /// Destination paths written, in order.
    pub transferred: Vec<String>,
    /// Sources that failed, with the error text.
    pub errors: Vec<(String, String)>,
    /// Predictions in the chosen tiers whose `.json` could not be transferred
    /// at all (empty path, or no file name).
    pub skipped: usize,
}

impl Default for ExtractResult {
    fn default() -> (r: ExtractResult)
        ensures
            r.transferred@.len() == 0,
            r.errors@.len() == 0,
            r.skipped == 0,
    {
        ExtractResult { transferred: Vec::new(), errors: Vec::new(), skipped: 0 }
    }
}

/// Folds the outcome of transferring `src` to `dst` into `result`: a success
/// records the destination, a failure records the source and the error.
pub fn record_transfer(src: &str, dst: &str, outcome: Result<(), String>, result: &mut ExtractResult)
    ensures
        final(result).skipped == old(result).skipped,
        outcome is Ok ==> strings_view(final(result).transferred@) == strings_view(
            old(result).transferred@,
        ).push(dst@),
        outcome is Ok ==> final(result).errors@ == old(result).errors@,
        outcome is Err ==> final(result).transferred@ == old(result).transferred@,
        outcome is Err ==> final(result).errors@.len() == old(result).errors@.len() + 1,
        outcome is Err ==> final(result).errors@.drop_last() == old(result).errors@,
        outcome is Err ==> final(result).errors@.last().0@ == src@,
        outcome matches Err(e) ==> final(result).errors@.last().1 == e,
{
    match outcome {
        Ok(()) => {
            let ghost before = strings_view(result.transferred@);
            result.transferred.push(dst.to_owned());
            assert(strings_view(result.transferred@) =~= before.push(dst@));
        },
        Err(e) => {
            result.errors.push((src.to_owned(), e));
            assert(result.errors@.drop_last() =~= old(result).errors@);
        },
    }
}

/// The message shown after an extract run: verb, count, destination, and the
/// error and skip counts.
pub open spec fn extract_summary_spec(
    move_files: bool,
    n_transferred: nat,
    dest: Seq<char>,
    n_errors: nat,
    skipped: nat,
) -> Seq<char> {
    (if move_files {
        "Moved"@
    } else {
        "Copied"@
    }) + seq![' '] + decimal(n_transferred) + " file(s) to "@ + dest + " (errors: "@ + decimal(
        n_errors,
    ) + ", skipped: "@ + decimal(skipped) + seq![')']
}

/// Summary line for a finished extract run.
pub fn extract_summary(
    move_files: bool,
    n_transferred: usize,
    dest: &str,
    n_errors: usize,
    skipped: usize,
) -> (s: String)
    ensures
        s@ == extract_summary_spec(
            move_files,
            n_transferred as nat,
            dest@,
            n_errors as nat,
            skipped as nat,
        ),
{
    let mut v = if move_files {
        to_chars("Moved")
    } else {
        to_chars("Copied")
    };
    v.push(' ');
    extend_chars(&mut v, &decimal_chars(n_transferred));
    extend_chars(&mut v, &to_chars(" file(s) to "));
    extend_chars(&mut v, &to_chars(dest));
    extend_chars(&mut v, &to_chars(" (errors: "));
    extend_chars(&mut v, &decimal_chars(n_errors));
    extend_chars(&mut v, &to_chars(", skipped: "));
    extend_chars(&mut v, &decimal_chars(skipped));
    v.push(')');
    from_chars(&v)
}

/// The message shown when an extract run could not start.
pub fn extract_failure(action_label: &str, error: &str) -> (s: String)
    ensures
        s@ == action_label@ + " failed: "@ + error@,
{
    let mut v = to_chars(action_label);
    extend_chars(&mut v, &to_chars(" failed: "));
    extend_chars(&mut v, &to_chars(error));
    from_chars(&v)
}

// ---------------------------------------------------------------------------
// Destination names
// ---------------------------------------------------------------------------

/// `Path::file_stem` and `Path::extension` of a file name: split at the last
/// `.`, except that a name with no `.`, a name whose only `.` is its first
/// character, and `..` have no extension.
pub open spec fn name_parts(name: Seq<char>) -> (Seq<char>, Option<Seq<char>>) {
    if name == ".."@ {
        (name, None)
    } else {
        match last_index_of(name, '.') {
            None => (name, None),
            Some(k) => if k == 0 {
                (name, None)
            } else {
                (name.take(k), Some(name.skip(k + 1)))
            },
        }
    }
}

/// The `i`-th alternative name for `name`: `<stem>_<i>.<ext>`, or
/// `<stem>_<i>` when the name has no (or an empty) extension.
pub open spec fn collision_name_spec(name: Seq<char>, i: nat) -> Seq<char> {
    let (stem, ext) = name_parts(name);
    let base = stem + seq!['_'] + decimal(i);
    match ext {
        Some(e) => if e.len() > 0 {
            base + seq!['.'] + e
        } else {
            base
        },
        None => base,
    }
}

/// Stem and extension of a file name (see `name_parts`).
pub fn split_file_name(name: &Vec<char>) -> (r: (Vec<char>, Option<Vec<char>>))
    ensures
        r.0@ == name_parts(name@).0,
        match r.1 {
            Some(e) => name_parts(name@).1 == Some(e@),
            None => name_parts(name@).1 is None,
        },
{
    let copy = slice_chars(name, 0, name.len());
    assert(copy@ =~= name@);
    if eq_lit(name, "..") {
        return (copy, None);
    }
    match rfind_char(name, '.') {
        None => (copy, None),
        Some(k) => {
            if k == 0 {
                (copy, None)
            } else {
                proof {
                    crate::pipeline::lemma_last_index_of(name@, '.');
                }
                let stem = slice_chars(name, 0, k);
                let ext = slice_chars(name, k + 1, name.len());
                assert(stem@ =~= name@.take(k as int));
                assert(ext@ =~= name@.skip(k + 1));
                (stem, Some(ext))
            }
        },
    }
}

/// The `i`-th alternative destination name for `name` when the plain name is
/// already taken (see `collision_name_spec`).
pub fn collision_name(name: &str, i: usize) -> (r: String)
    ensures
        r@ == collision_name_spec(name@, i as nat),
{
    let n = to_chars(name);
    let parts = split_file_name(&n);
    let mut v = parts.0;
    v.push('_');
    extend_chars(&mut v, &decimal_chars(i));
    match parts.1 {
        Some(e) => {
            if e.len() > 0 {
                v.push('.');
                extend_chars(&mut v, &e);
            }
        },
        None => {},
    }
    from_chars(&v)
}

/// The alternative names never repeat the plain name, and distinct
/// attempts give distinct names, so a rename never overwrites the file that
/// was already there nor an earlier rename of the same name.
pub proof fn lemma_collision_names_distinct(name: Seq<char>, i: nat, j: nat)
    ensures
        collision_name_spec(name, i) != name,
        i != j ==> collision_name_spec(name, i) != collision_name_spec(name, j),
{
    let (stem, ext) = name_parts(name);
    lemma_decimal_digits(i);
    lemma_decimal_digits(j);
    crate::pipeline::lemma_last_index_of(name, '.');
    // each candidate is longer than the name
    assert(collision_name_spec(name, i).len() > name.len());
    if i != j {
        let ci = collision_name_spec(name, i);
        let cj = collision_name_spec(name, j);
        let di = decimal(i);
        let dj = decimal(j);
        if ci == cj {
            if di.len() == dj.len() {
                let s: int = stem.len() + 1int;
                assert(ci.subrange(s, s + di.len()) =~= di);
                assert(cj.subrange(s, s + dj.len()) =~= dj);
                assert(di == dj);
            } else {
                assert(ci.len() != cj.len());
            }
        }
    }
}

/// Number of destination names tried for one file: the plain name, then
/// alternatives 1 to 9999.
pub const NAME_ATTEMPTS: usize = 10000;

/// The destination name tried at attempt `attempt`: the plain name first,
/// then its alternatives.
pub open spec fn candidate_name_spec(name: Seq<char>, attempt: nat) -> Seq<char> {
    if attempt == 0 {
        name
    } else {
        collision_name_spec(name, attempt)
    }
}

/// The destination name tried at attempt `attempt`.
pub fn candidate_name(name: &str, attempt: usize) -> (r: String)
    ensures
        r@ == candidate_name_spec(name@, attempt as nat),
{
    if attempt == 0 {
        name.to_owned()
    } else {
        collision_name(name, attempt)
    }
}

/// What to do after testing a destination name.
#[derive(Debug, Clone, Copy, PartialEq, Eq, Structural)]
pub enum NameProbe {
    /// The name is free: use it.
    Take,
    /// The name is taken: test the next attempt.
    Next(usize),
    /// Every name is taken: fall back to the plain name.
    GiveUp,
}

/// The step `probe_step` takes after testing attempt `attempt`.
pub open spec fn probe_step_spec(attempt: nat, taken: bool) -> NameProbe {
    if !taken {
        NameProbe::Take
    } else if attempt + 1 < NAME_ATTEMPTS {
        NameProbe::Next((attempt + 1) as usize)
    } else {
        NameProbe::GiveUp
    }
}

/// One step of choosing a destination: a free name is used, a taken one
/// moves on to the next attempt, and once all attempts are taken the plain
/// name is used after all.
pub fn probe_step(attempt: usize, taken: bool) -> (p: NameProbe)
    requires
        attempt < NAME_ATTEMPTS,
    ensures
        p == probe_step_spec(attempt as nat, taken),
        !taken ==> p == NameProbe::Take,
        taken && attempt + 1 < NAME_ATTEMPTS ==> p == NameProbe::Next((attempt + 1) as usize),
        taken && attempt + 1 >= NAME_ATTEMPTS ==> p == NameProbe::GiveUp,
{
    if !taken {
        NameProbe::Take
    } else if attempt + 1 < NAME_ATTEMPTS {
        NameProbe::Next(attempt + 1)
    } else {
        NameProbe::GiveUp
    }
}

/// Where repeated `probe_step`s from attempt `a` end, when `taken[i]` tells
/// whether the name of attempt `i` is taken: `Some(i)` for the attempt whose
/// name is used, `None` when they give up.
pub open spec fn probe_from(taken: Seq<bool>, a: nat) -> Option<nat>
    decreases NAME_ATTEMPTS - a,
{
    if a >= NAME_ATTEMPTS {
        None
    } else {
        match probe_step_spec(a, taken[a as int]) {
            NameProbe::Take => Some(a),
            NameProbe::Next(j) => if j > a {
                probe_from(taken, j as nat)
            } else {
                None
            },
            NameProbe::GiveUp => None,
        }
    }
}

proof fn lemma_probe_from(taken: Seq<bool>, a: nat)
    requires
        taken.len() == NAME_ATTEMPTS,
        a <= NAME_ATTEMPTS,
    ensures
        match probe_from(taken, a) {
            Some(i) => a <= i < NAME_ATTEMPTS && !taken[i as int] && forall|j: int|
                a <= j < i ==> #[trigger] taken[j],
            None => forall|j: int| a <= j < NAME_ATTEMPTS ==> #[trigger] taken[j],
        },
    decreases NAME_ATTEMPTS - a,
{
    if a < NAME_ATTEMPTS && taken[a as int] && a + 1 < NAME_ATTEMPTS {
        lemma_probe_from(taken, a + 1);
    }
}

/// Probing from the plain name with `probe_step` uses the first free name
/// of the attempts in order (the least free attempt), and gives up only
/// when every attempt is taken.
pub proof fn lemma_probe_least_free(taken: Seq<bool>)
    requires
        taken.len() == NAME_ATTEMPTS,
    ensures
        match probe_from(taken, 0) {
            Some(i) => i < NAME_ATTEMPTS && !taken[i as int] && forall|j: int|
                0 <= j < i ==> #[trigger] taken[j],
            None => forall|j: int| 0 <= j < NAME_ATTEMPTS ==> #[trigger] taken[j],
        },
{
    lemma_probe_from(taken, 0);
}

/// The names tried for one file are pairwise distinct, so a probe never
/// tests the same name twice and never overwrites a file it found taken.
pub proof fn lemma_candidates_distinct(name: Seq<char>, i: nat, j: nat)
    ensures
        i != j ==> candidate_name_spec(name, i) != candidate_name_spec(name, j),
{
    lemma_collision_names_distinct(name, i, j);
    lemma_collision_names_distinct(name, j, i);
}

// ---------------------------------------------------------------------------
// Planning
// ---------------------------------------------------------------------------

/// What the extract step needs to know about one prediction.
pub struct ExtractRow {
    /// The prediction's risk tier under the active cutoffs.
    pub tier: RiskTier,
    pub json_path: String,
    /// Whether the `.json` path has a file name (the anchor of the triplet).
    pub json_named: bool,
    pub jpg_path: Option<String>,
    pub txt_path: Option<String>,
}

/// Which files to transfer, in order, and how many rows were skipped.
pub struct ExtractPlan {
    pub sources: Vec<String>,
    pub skipped: usize,
}

/// A row in one of the chosen tiers whose `.json` cannot anchor a transfer.
pub open spec fn row_skipped(r: ExtractRow, tiers: Seq<RiskTier>) -> bool {
    tiers.contains(r.tier) && (r.json_path@.len() == 0 || !r.json_named)
}

/// Files of one row to transfer: its `.json`, then its `.jpg` and `.txt` when
/// they exist and are included.
pub open spec fn row_sources(
    r: ExtractRow,
    tiers: Seq<RiskTier>,
    include_jpg: bool,
    include_txt: bool,
) -> Seq<Seq<char>> {
    if !tiers.contains(r.tier) || row_skipped(r, tiers) {
        Seq::empty()
    } else {
        seq![r.json_path@] + (if include_jpg && r.jpg_path is Some {
            seq![r.jpg_path->0@]
        } else {
            Seq::empty()
        }) + (if include_txt && r.txt_path is Some {
            seq![r.txt_path->0@]
        } else {
            Seq::empty()
        })
    }
}

pub open spec fn plan_sources(
    rows: Seq<ExtractRow>,
    tiers: Seq<RiskTier>,
    include_jpg: bool,
    include_txt: bool,
) -> Seq<Seq<char>>
    decreases rows.len(),
{
    if rows.len() == 0 {
        Seq::empty()
    } else {
        plan_sources(rows.drop_last(), tiers, include_jpg, include_txt) + row_sources(
            rows.last(),
            tiers,
            include_jpg,
            include_txt,
        )
    }
}

pub open spec fn plan_skipped(rows: Seq<ExtractRow>, tiers: Seq<RiskTier>) -> nat
    decreases rows.len(),
{
    if rows.len() == 0 {
        0
    } else {
        plan_skipped(rows.drop_last(), tiers) + if row_skipped(rows.last(), tiers) {
            1nat
        } else {
            0nat
        }
    }
}

/// A row is extracted: its tier is one of the chosen ones and its `.json`
/// can anchor a transfer.
pub open spec fn row_extracted(r: ExtractRow, tiers: Seq<RiskTier>) -> bool {
    tiers.contains(r.tier) && r.json_path@.len() > 0 && r.json_named
}

/// `s` is one of the files of row `r` that an extract run may transfer: its
/// `.json`, its `.jpg` when `.jpg` files are included, its `.txt` when `.txt`
/// files are included.
pub open spec fn file_of_row(s: Seq<char>, r: ExtractRow, include_jpg: bool, include_txt: bool) -> bool {
    ||| s == r.json_path@
    ||| include_jpg && r.jpg_path is Some && s == r.jpg_path->0@
    ||| include_txt && r.txt_path is Some && s == r.txt_path->0@
}

proof fn lemma_plan_source_origin(
    rows: Seq<ExtractRow>,
    tiers: Seq<RiskTier>,
    include_jpg: bool,
    include_txt: bool,
    k: int,
) -> (i: int)
    requires
        0 <= k < plan_sources(rows, tiers, include_jpg, include_txt).len(),
    ensures
        0 <= i < rows.len(),
        row_extracted(rows[i], tiers),
        file_of_row(plan_sources(rows, tiers, include_jpg, include_txt)[k], rows[i], include_jpg, include_txt),
    decreases rows.len(),
{
    let pre = rows.drop_last();
    let r = rows.last();
    let n = rows.len() - 1;
    let a = plan_sources(pre, tiers, include_jpg, include_txt);
    let b = row_sources(r, tiers, include_jpg, include_txt);
    let src = plan_sources(rows, tiers, include_jpg, include_txt);
    assert(src == a + b);
    if k < a.len() {
        assert(src[k] == a[k]);
        let i = lemma_plan_source_origin(pre, tiers, include_jpg, include_txt, k);
        assert(rows[i] == pre[i]);
        i
    } else {
        let bj = if include_jpg && r.jpg_path is Some {
            seq![r.jpg_path->0@]
        } else {
            Seq::<Seq<char>>::empty()
        };
        let bt = if include_txt && r.txt_path is Some {
            seq![r.txt_path->0@]
        } else {
            Seq::<Seq<char>>::empty()
        };
        assert(row_extracted(r, tiers));
        assert(b == seq![r.json_path@] + bj + bt);
        let q = k - a.len();
        assert(src[k] == b[q]);
        if q == 0 {
            assert(b[q] == r.json_path@);
        } else if q == 1 && bj.len() == 1 {
            assert(b[q] == r.jpg_path->0@);
        } else {
            assert(b[q] == r.txt_path->0@);
        }
        assert(rows[n] == r);
        n
    }
}

proof fn lemma_plan_row_files(
    rows: Seq<ExtractRow>,
    tiers: Seq<RiskTier>,
    include_jpg: bool,
    include_txt: bool,
    i: int,
)
    requires
        0 <= i < rows.len(),
        row_extracted(rows[i], tiers),
    ensures
        plan_sources(rows, tiers, include_jpg, include_txt).contains(rows[i].json_path@),
        include_jpg && rows[i].jpg_path is Some ==> plan_sources(
            rows,
            tiers,
            include_jpg,
            include_txt,
        ).contains(rows[i].jpg_path->0@),
        include_txt && rows[i].txt_path is Some ==> plan_sources(
            rows,
            tiers,
            include_jpg,
            include_txt,
        ).contains(rows[i].txt_path->0@),
    decreases rows.len(),
{
    let pre = rows.drop_last();
    let r = rows.last();
    let n = rows.len() - 1;
    let a = plan_sources(pre, tiers, include_jpg, include_txt);
    let b = row_sources(r, tiers, include_jpg, include_txt);
    let src = plan_sources(rows, tiers, include_jpg, include_txt);
    assert(src == a + b);
    if i < n {
        assert(rows[i] == pre[i]);
        lemma_plan_row_files(pre, tiers, include_jpg, include_txt, i);
        assert forall|x: Seq<char>| a.contains(x) implies src.contains(x) by {
            let w = choose|w: int| 0 <= w < a.len() && a[w] == x;
            assert(src[w] == x);
        }
    } else {
        let bj = if include_jpg && r.jpg_path is Some {
            seq![r.jpg_path->0@]
        } else {
            Seq::<Seq<char>>::empty()
        };
        let bt = if include_txt && r.txt_path is Some {
            seq![r.txt_path->0@]
        } else {
            Seq::<Seq<char>>::empty()
        };
        assert(rows[n] == r);
        assert(b == seq![r.json_path@] + bj + bt);
        assert(src[a.len() as int] == r.json_path@);
        if include_jpg && r.jpg_path is Some {
            assert(src[a.len() + 1int] == r.jpg_path->0@);
        }
        if include_txt && r.txt_path is Some {
            assert(src[a.len() + 1int + bj.len()] == r.txt_path->0@);
        }
    }
}

/// `s` is a file of some extracted row, as `file_of_row` allows it.
pub open spec fn file_of_extracted_row(
    s: Seq<char>,
    rows: Seq<ExtractRow>,
    tiers: Seq<RiskTier>,
    include_jpg: bool,
    include_txt: bool,
) -> bool {
    exists|i: int|
        0 <= i < rows.len() && row_extracted(rows[i], tiers) && #[trigger] file_of_row(
            s,
            rows[i],
            include_jpg,
            include_txt,
        )
}

/// What an extract run transfers: every planned file is the `.json` of an
/// extracted row, or its `.jpg` only when `.jpg` files are included, or its
/// `.txt` only when `.txt` files are included (each flag on its own); and
/// every extracted row has its `.json` planned, its `.jpg` when included and
/// present, and its `.txt` when included and present.
pub proof fn lemma_plan_sources(
    rows: Seq<ExtractRow>,
    tiers: Seq<RiskTier>,
    include_jpg: bool,
    include_txt: bool,
)
    ensures
        forall|k: int|
            0 <= k < plan_sources(rows, tiers, include_jpg, include_txt).len()
                ==> #[trigger] file_of_extracted_row(
                plan_sources(rows, tiers, include_jpg, include_txt)[k],
                rows,
                tiers,
                include_jpg,
                include_txt,
            ),
        forall|i: int|
            0 <= i < rows.len() && #[trigger] row_extracted(rows[i], tiers) ==> {
                let src = plan_sources(rows, tiers, include_jpg, include_txt);
                &&& src.contains(rows[i].json_path@)
                &&& include_jpg && rows[i].jpg_path is Some ==> src.contains(rows[i].jpg_path->0@)
                &&& include_txt && rows[i].txt_path is Some ==> src.contains(rows[i].txt_path->0@)
            },
{
    assert forall|k: int| 0 <= k < plan_sources(rows, tiers, include_jpg, include_txt).len() implies #[trigger] file_of_extracted_row(
        plan_sources(rows, tiers, include_jpg, include_txt)[k],
        rows,
        tiers,
        include_jpg,
        include_txt,
    ) by {
        let i = lemma_plan_source_origin(rows, tiers, include_jpg, include_txt, k);
        assert(file_of_row(
            plan_sources(rows, tiers, include_jpg, include_txt)[k],
            rows[i],
            include_jpg,
            include_txt,
        ));
    }
    assert forall|i: int| 0 <= i < rows.len() && #[trigger] row_extracted(rows[i], tiers) implies {
        let src = plan_sources(rows, tiers, include_jpg, include_txt);
        &&& src.contains(rows[i].json_path@)
        &&& include_jpg && rows[i].jpg_path is Some ==> src.contains(rows[i].jpg_path->0@)
        &&& include_txt && rows[i].txt_path is Some ==> src.contains(rows[i].txt_path->0@)
    } by {
        lemma_plan_row_files(rows, tiers, include_jpg, include_txt, i);
    }
}

fn tier_chosen(tiers: &Vec<RiskTier>, t: RiskTier) -> (b: bool)
    ensures
        b == tiers@.contains(t),
{
    let mut i: usize = 0;
    while i < tiers.len()
        invariant
            i <= tiers.len(),
            forall|k: int| 0 <= k < i ==> tiers@[k] != t,
        decreases tiers.len() - i,
    {
        if tiers[i] == t {
            assert(tiers@[i as int] == t);
            return true;
        }
        i = i + 1;
    }
    false
}

/// The files to transfer for the predictions in `rows`, keeping the rows whose
/// tier is one of `tiers`; rows whose `.json` is unusable are counted as
/// skipped instead.
pub fn plan_extract(
    rows: &Vec<ExtractRow>,
    tiers: &Vec<RiskTier>,
    include_jpg: bool,
    include_txt: bool,
) -> (p: ExtractPlan)
    ensures
        strings_view(p.sources@) == plan_sources(rows@, tiers@, include_jpg, include_txt),
        p.skipped == plan_skipped(rows@, tiers@),
{
    let mut sources: Vec<String> = Vec::new();
    let mut skipped: usize = 0;
    let mut i: usize = 0;
    while i < rows.len()
        invariant
            i <= rows.len(),
            strings_view(sources@) == plan_sources(
                rows@.take(i as int),
                tiers@,
                include_jpg,
                include_txt,
            ),
            skipped == plan_skipped(rows@.take(i as int), tiers@),
            skipped <= i,
        decreases rows.len() - i,
    {
        let ghost cur = rows@.take(i + 1);
        assert(cur.drop_last() =~= rows@.take(i as int));
        let r = &rows[i];
        let ghost before = strings_view(sources@);
        if tier_chosen(tiers, r.tier) {
            if r.json_path.as_str().is_empty() || !r.json_named {
                skipped = skipped + 1;
                assert(row_sources(*r, tiers@, include_jpg, include_txt) =~= Seq::<
                    Seq<char>,
                >::empty());
            } else {
                sources.push(r.json_path.clone());
                if include_jpg {
                    match &r.jpg_path {
                        Some(j) => sources.push(j.clone()),
                        None => {},
                    }
                }
                if include_txt {
                    match &r.txt_path {
                        Some(t) => sources.push(t.clone()),
                        None => {},
                    }
                }
            }
        }
        assert(strings_view(sources@) =~= before + row_sources(
            *r,
            tiers@,
            include_jpg,
            include_txt,
        ));
        i = i + 1;
    }
    assert(rows@.take(rows.len() as int) =~= rows@);
    ExtractPlan { sources, skipped }
}

} // verus!

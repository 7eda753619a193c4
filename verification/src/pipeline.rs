//! Dataset scanning: which files belong to which stem, and which stems are
//! labeled (a review log with a valid status), ambiguous (a review log
//! without one) or unprocessed (no review log yet).
use crate::parsing::{parse_txt_content, review_log_status};
use crate::stem::{meta_of, parse_stem_name};
use crate::text::{lowercase, slice_chars, to_chars, to_lowercase_chars, eq_lit};
use crate::types::{FileEntry, Label, LabeledRow, Meta, MetaView};
use vstd::prelude::*;

verus! {

// ---------------------------------------------------------------------------
// File index keys
// ---------------------------------------------------------------------------

/// The three kinds of file that make up a dataset triplet.
#[derive(Debug, Clone, Copy, PartialEq, Eq, Structural)]
pub enum FileKind {
    Json,
    Jpg,
    Txt,
}

/// Position of the last occurrence of `c` in `s`.
pub open spec fn last_index_of(s: Seq<char>, c: char) -> Option<int>
    decreases s.len(),
{
    if s.len() == 0 {
        None
    } else if s.last() == c {
        Some(s.len() - 1)
    } else {
        last_index_of(s.drop_last(), c)
    }
}

/// Stem and kind of a file name: the part before the last `.`, and the
/// extension after it, compared case-insensitively with `json`, `jpg`, `txt`.
/// Other files are not part of the index.
pub open spec fn index_key(fname: Seq<char>) -> Option<(Seq<char>, FileKind)> {
    match last_index_of(fname, '.') {
        None => None,
        Some(d) => {
            let ext = lowercase(fname.skip(d + 1));
            if ext == "json"@ {
                Some((fname.take(d), FileKind::Json))
            } else if ext == "jpg"@ {
                Some((fname.take(d), FileKind::Jpg))
            } else if ext == "txt"@ {
                Some((fname.take(d), FileKind::Txt))
            } else {
                None
            }
        },
    }
}

/// Last position of `c` in `v`.
pub fn rfind_char(v: &Vec<char>, c: char) -> (r: Option<usize>)
    ensures
        match r {
            Some(i) => last_index_of(v@, c) == Some(i as int),
            None => last_index_of(v@, c) is None,
        },
{
    let mut k: usize = v.len();
    assert(v@.take(k as int) =~= v@);
    while k > 0
        invariant
            k <= v.len(),
            last_index_of(v@, c) == last_index_of(v@.take(k as int), c),
        decreases k,
    {
        let ghost t = v@.take(k as int);
        assert(t.drop_last() =~= v@.take(k - 1));
        if v[k - 1] == c {
            return Some(k - 1);
        }
        k = k - 1;
    }
    None
}

/// Where a file with name `fname` goes in the file index: its stem (the name
/// without its extension) and its kind, or `None` for files the dataset does
/// not use.
pub fn file_index_key(fname: &str) -> (r: Option<(String, FileKind)>)
    ensures
        match r {
            None => index_key(fname@) is None,
            Some(t) => index_key(fname@) == Some((t.0@, t.1)),
        },
{
    let v = to_chars(fname);
    let dot = match rfind_char(&v, '.') {
        Some(d) => d,
        None => return None,
    };
    proof {
        lemma_last_index_of(v@, '.');
    }
    let ext = slice_chars(&v, dot + 1, v.len());
    assert(ext@ =~= v@.skip(dot + 1));
    let lower = to_lowercase_chars(&ext);
    let kind = if eq_lit(&lower, "json") {
        FileKind::Json
    } else if eq_lit(&lower, "jpg") {
        FileKind::Jpg
    } else if eq_lit(&lower, "txt") {
        FileKind::Txt
    } else {
        return None;
    };
    let stem = slice_chars(&v, 0, dot);
    assert(stem@ =~= v@.take(dot as int));
    Some((crate::text::from_chars(&stem), kind))
}

pub proof fn lemma_last_index_of(s: Seq<char>, c: char)
    ensures
        last_index_of(s, c) matches Some(i) ==> 0 <= i < s.len() && s[i] == c,
    decreases s.len(),
{
    if s.len() > 0 && s.last() != c {
        lemma_last_index_of(s.drop_last(), c);
    }
}

impl FileEntry {
    /// An entry for `stem` with none of its files seen yet.
    pub fn new(stem: String) -> (e: FileEntry)
        ensures
            e.stem == stem,
            e.json is None,
            e.jpg is None,
            e.txt is None,
    {
        FileEntry { stem, json: None, jpg: None, txt: None }
    }

    /// Records `path` as the entry's file of kind `kind` (a later file of the
    /// same kind replaces an earlier one).
    pub fn set_file(&mut self, kind: FileKind, path: String)
        ensures
            final(self).stem == old(self).stem,
            final(self).json == if kind == FileKind::Json {
                Some(path)
            } else {
                old(self).json
            },
            final(self).jpg == if kind == FileKind::Jpg {
                Some(path)
            } else {
                old(self).jpg
            },
            final(self).txt == if kind == FileKind::Txt {
                Some(path)
            } else {
                old(self).txt
            },
    {
        match kind {
            FileKind::Json => self.json = Some(path),
            FileKind::Jpg => self.jpg = Some(path),
            FileKind::Txt => self.txt = Some(path),
        }
    }
}

// ---------------------------------------------------------------------------
// Scan and classify
// ---------------------------------------------------------------------------

/// One index entry as read from disk: the entry, the file name of its stem
/// (`None` when the platform gives it none) and the text of its review log
/// (`None` when it has none or it could not be read).
pub struct ScanInput {
    pub entry: FileEntry,
    pub file_name: Option<String>,
    pub txt_content: Option<String>,
}

/// What the scan makes of one entry.
pub enum EntryClass {
    /// No `.json`, or a file name outside the dataset's naming scheme.
    Skipped,
    /// No review log yet: to be scored.
    Unprocessed(MetaView),
    /// A review log without a valid status line.
    Ambiguous,
    /// A review log whose last valid line gives `Label`; the flag marks a
    /// manual override.
    Labeled(MetaView, Label, bool),
}

pub open spec fn entry_class(e: ScanInput) -> EntryClass {
    if e.entry.json is None {
        EntryClass::Skipped
    } else {
        match e.file_name {
            None => EntryClass::Skipped,
            Some(f) => match meta_of(e.entry.stem@, f@) {
                None => EntryClass::Skipped,
                Some(m) => match e.entry.txt {
                    None => EntryClass::Unprocessed(m),
                    Some(_) => match e.txt_content {
                        None => EntryClass::Ambiguous,
                        Some(c) => match review_log_status(c@) {
                            None => EntryClass::Ambiguous,
                            Some(x) => EntryClass::Labeled(m, x.0, x.1),
                        },
                    },
                },
            },
        }
    }
}

/// Labeled rows of the entries, in entry order.
pub open spec fn scan_labeled(es: Seq<ScanInput>) -> Seq<(MetaView, Label)>
    decreases es.len(),
{
    if es.len() == 0 {
        Seq::empty()
    } else {
        let r = scan_labeled(es.drop_last());
        match entry_class(es.last()) {
            EntryClass::Labeled(m, l, _) => r.push((m, l)),
            _ => r,
        }
    }
}

/// Unprocessed rows of the entries, in entry order.
pub open spec fn scan_unprocessed(es: Seq<ScanInput>) -> Seq<MetaView>
    decreases es.len(),
{
    if es.len() == 0 {
        Seq::empty()
    } else {
        let r = scan_unprocessed(es.drop_last());
        match entry_class(es.last()) {
            EntryClass::Unprocessed(m) => r.push(m),
            _ => r,
        }
    }
}

/// Number of ambiguous entries.
pub open spec fn scan_ambiguous(es: Seq<ScanInput>) -> nat
    decreases es.len(),
{
    if es.len() == 0 {
        0
    } else {
        scan_ambiguous(es.drop_last()) + match entry_class(es.last()) {
            EntryClass::Ambiguous => 1nat,
            _ => 0nat,
        }
    }
}

/// Review-log paths whose last valid line is a manual override.
pub open spec fn scan_manual(es: Seq<ScanInput>) -> Seq<Seq<char>>
    decreases es.len(),
{
    if es.len() == 0 {
        Seq::empty()
    } else {
        let r = scan_manual(es.drop_last());
        match entry_class(es.last()) {
            EntryClass::Labeled(_, _, true) => r.push(es.last().entry.txt->0@),
            _ => r,
        }
    }
}

/// Number of accepted rows among labeled rows.
pub open spec fn count_accept(rows: Seq<(MetaView, Label)>) -> nat
    decreases rows.len(),
{
    if rows.len() == 0 {
        0
    } else {
        count_accept(rows.drop_last()) + if rows.last().1 == Label::Accept {
            1nat
        } else {
            0nat
        }
    }
}

/// Number of entries the scan does not skip: a `.json` with a file name of
/// the dataset's naming scheme.
pub open spec fn scan_counted(es: Seq<ScanInput>) -> nat
    decreases es.len(),
{
    if es.len() == 0 {
        0
    } else {
        scan_counted(es.drop_last()) + match entry_class(es.last()) {
            EntryClass::Skipped => 0nat,
            _ => 1nat,
        }
    }
}

/// The entry has a `.json` and a file name that follows the naming scheme.
pub open spec fn named_json(e: ScanInput) -> bool {
    &&& e.entry.json is Some
    &&& e.file_name is Some
    &&& meta_of(e.entry.stem@, e.file_name->0@) is Some
}

/// The metadata of such an entry.
pub open spec fn entry_meta(e: ScanInput) -> MetaView {
    meta_of(e.entry.stem@, e.file_name->0@)->0
}

/// What one entry adds to the scan, from its files alone: an entry without
/// a `.json` adds nothing; a `.json` whose file name follows the naming
/// scheme and that has no review log is unprocessed (whatever its `.jpg`);
/// with a readable review log that has a valid status it is labeled by that
/// status; with a log that has none, or cannot be read, it is ambiguous.
/// The `.jpg` never changes how an entry is classified.
pub proof fn lemma_scan_entry(es: Seq<ScanInput>, e: ScanInput, jpg: Option<String>)
    ensures
        e.entry.json is None ==> scan_labeled(es.push(e)) == scan_labeled(es)
            && scan_unprocessed(es.push(e)) == scan_unprocessed(es) && scan_ambiguous(es.push(e))
            == scan_ambiguous(es),
        named_json(e) && e.entry.txt is None ==> scan_unprocessed(es.push(e)) == scan_unprocessed(
            es,
        ).push(entry_meta(e)) && scan_labeled(es.push(e)) == scan_labeled(es) && scan_ambiguous(
            es.push(e),
        ) == scan_ambiguous(es),
        named_json(e) && e.entry.txt is Some && e.txt_content is Some && review_log_status(
            e.txt_content->0@,
        ) is Some ==> scan_labeled(es.push(e)) == scan_labeled(es).push(
            (entry_meta(e), (review_log_status(e.txt_content->0@)->0).0),
        ) && scan_unprocessed(es.push(e)) == scan_unprocessed(es) && scan_ambiguous(es.push(e))
            == scan_ambiguous(es),
        named_json(e) && e.entry.txt is Some && (e.txt_content is None || review_log_status(
            e.txt_content->0@,
        ) is None) ==> scan_ambiguous(es.push(e)) == scan_ambiguous(es) + 1 && scan_labeled(
            es.push(e),
        ) == scan_labeled(es) && scan_unprocessed(es.push(e)) == scan_unprocessed(es),
        entry_class(
            ScanInput {
                entry: FileEntry {
                    stem: e.entry.stem,
                    json: e.entry.json,
                    jpg: jpg,
                    txt: e.entry.txt,
                },
                file_name: e.file_name,
                txt_content: e.txt_content,
            },
        ) == entry_class(e),
{
    assert(es.push(e).drop_last() =~= es);
    assert(es.push(e).last() == e);
}

/// Every entry that the scan does not skip is exactly one of labeled,
/// unprocessed or ambiguous, and only labeled entries can be manual
/// overrides.
pub proof fn lemma_scan_partition(es: Seq<ScanInput>)
    ensures
        scan_labeled(es).len() + scan_unprocessed(es).len() + scan_ambiguous(es) == scan_counted(
            es,
        ),
        scan_manual(es).len() <= scan_labeled(es).len(),
    decreases es.len(),
{
    if es.len() > 0 {
        lemma_scan_partition(es.drop_last());
    }
}

pub proof fn lemma_count_accept_bound(rows: Seq<(MetaView, Label)>)
    ensures
        count_accept(rows) <= rows.len(),
    decreases rows.len(),
{
    if rows.len() > 0 {
        lemma_count_accept_bound(rows.drop_last());
    }
}

/// Result of the scan-and-classify phase.
pub struct Classification {
    pub labeled: Vec<LabeledRow>,
    pub unprocessed: Vec<Meta>,
    pub n_ambiguous: usize,
    pub n_accept: usize,
    pub n_reject: usize,
    /// Review-log paths whose most recent status is a manual override.
    pub manual_override_set: Vec<String>,
}

pub open spec fn labeled_view(rows: Seq<LabeledRow>) -> Seq<(MetaView, Label)> {
    rows.map_values(|r: LabeledRow| (r.meta@, r.label))
}

pub open spec fn metas_view(ms: Seq<Meta>) -> Seq<MetaView> {
    ms.map_values(|m: Meta| m@)
}

pub open spec fn strings_view(ss: Seq<String>) -> Seq<Seq<char>> {
    ss.map_values(|s: String| s@)
}

/// Walk every `.json`-backed entry, parse its file name and review log, and
/// split the entries into labeled, unprocessed and ambiguous ones.
pub fn scan_and_classify(entries: &Vec<ScanInput>) -> (c: Classification)
    ensures
        labeled_view(c.labeled@) == scan_labeled(entries@),
        metas_view(c.unprocessed@) == scan_unprocessed(entries@),
        c.n_ambiguous == scan_ambiguous(entries@),
        strings_view(c.manual_override_set@) == scan_manual(entries@),
        c.n_accept == count_accept(scan_labeled(entries@)),
        c.n_reject == scan_labeled(entries@).len() - count_accept(scan_labeled(entries@)),
{
    let mut labeled: Vec<LabeledRow> = Vec::new();
    let mut unprocessed: Vec<Meta> = Vec::new();
    let mut n_ambiguous: usize = 0;
    let mut n_accept: usize = 0;
    let mut manual: Vec<String> = Vec::new();
    let mut i: usize = 0;
    while i < entries.len()
        invariant
            i <= entries.len(),
            labeled_view(labeled@) == scan_labeled(entries@.take(i as int)),
            metas_view(unprocessed@) == scan_unprocessed(entries@.take(i as int)),
            n_ambiguous == scan_ambiguous(entries@.take(i as int)),
            strings_view(manual@) == scan_manual(entries@.take(i as int)),
            n_accept == count_accept(scan_labeled(entries@.take(i as int))),
            n_ambiguous <= i,
            labeled@.len() <= i,
            n_accept <= labeled@.len(),
        decreases entries.len() - i,
    {
        let ghost pre = entries@.take(i as int);
        let ghost cur = entries@.take(i + 1);
        assert(cur.drop_last() =~= pre);
        assert(cur.last() == entries@[i as int]);
        let e = &entries[i];
        let ghost cls = entry_class(*e);
        if e.entry.json.is_some() {
            match &e.file_name {
                None => {},
                Some(f) => {
                    match parse_stem_name(e.entry.stem.as_str(), f.as_str()) {
                        None => {},
                        Some(meta) => {
                            match &e.entry.txt {
                                None => {
                                    unprocessed.push(meta);
                                    assert(metas_view(unprocessed@) =~= scan_unprocessed(cur));
                                },
                                Some(t) => {
                                    let status = match &e.txt_content {
                                        Some(content) => parse_txt_content(content.as_str()),
                                        None => None,
                                    };
                                    match status {
                                        None => {
                                            n_ambiguous = n_ambiguous + 1;
                                        },
                                        Some(x) => {
                                            if x.1 {
                                                manual.push(t.clone());
                                                assert(strings_view(manual@) =~= scan_manual(cur));
                                            }
                                            let ghost before = labeled_view(labeled@);
                                            let ghost sl = scan_labeled(pre);
                                            assert(scan_labeled(cur) == sl.push((meta@, x.0)));
                                            assert(sl.push((meta@, x.0)).drop_last() =~= sl);
                                            if x.0 == Label::Accept {
                                                n_accept = n_accept + 1;
                                            }
                                            labeled.push(LabeledRow { meta, label: x.0 });
                                            assert(labeled_view(labeled@) =~= before.push(
                                                (meta@, x.0),
                                            ));
                                        },
                                    }
                                },
                            }
                        },
                    }
                },
            }
        }
        assert(labeled_view(labeled@) =~= scan_labeled(cur));
        assert(n_accept == count_accept(scan_labeled(cur)));
        assert(metas_view(unprocessed@) =~= scan_unprocessed(cur));
        assert(strings_view(manual@) =~= scan_manual(cur));
        i = i + 1;
    }
    assert(entries@.take(entries.len() as int) =~= entries@);
    proof {
        lemma_count_accept_bound(scan_labeled(entries@));
    }
    let n_reject: usize = labeled.len() - n_accept;
    Classification {
        labeled,
        unprocessed,
        n_ambiguous,
        n_accept,
        n_reject,
        manual_override_set: manual,
    }
}

/// Whether a prediction's review log is in the manual-override set.
pub fn is_manual_override(txt_path: &Option<String>, manual_set: &Vec<String>) -> (b: bool)
    ensures
        b == match txt_path {
            Some(t) => strings_view(manual_set@).contains(t@),
            None => false,
        },
{
    match txt_path {
        None => false,
        Some(t) => {
            let mut i: usize = 0;
            while i < manual_set.len()
                invariant
                    i <= manual_set.len(),
                    *txt_path == Some(*t),
                    forall|k: int| 0 <= k < i ==> manual_set@[k]@ != t@,
                decreases manual_set.len() - i,
            {
                if manual_set[i] == *t {
                    assert(strings_view(manual_set@).len() == manual_set@.len());
                    assert(manual_set@[i as int]@ == t@);
                    assert(strings_view(manual_set@)[i as int] == t@);
                    assert(strings_view(manual_set@).contains(t@));
                    return true;
                }
                i = i + 1;
            }
            assert forall|k: int| 0 <= k < manual_set@.len() implies #[trigger] strings_view(
                manual_set@,
            )[k] != t@ by {}
            false
        },
    }
}

// ---------------------------------------------------------------------------
// Preconditions of training and scoring
// ---------------------------------------------------------------------------

/// Why the pipeline cannot proceed after the scan.
#[derive(Debug, Clone, Copy, PartialEq, Eq, Structural)]
pub enum PipelineError {
    /// No reviewed files: nothing to train on.
    NoLabeled,
    /// No unreviewed files: nothing to predict.
    NoUnprocessed,
}

pub open spec fn pipeline_error_text(e: PipelineError) -> Seq<char> {
    match e {
        PipelineError::NoLabeled => "No labeled files found. Cannot train model."@,
        PipelineError::NoUnprocessed => "No unprocessed files found. Nothing to predict."@,
    }
}

impl PipelineError {
    /// The message shown to the user.
    pub fn message(self) -> (s: String)
        ensures
            s@ == pipeline_error_text(self),
    {
        match self {
            PipelineError::NoLabeled => "No labeled files found. Cannot train model.".to_owned(),
            PipelineError::NoUnprocessed => "No unprocessed files found. Nothing to predict.".to_owned(),
        }
    }
}

/// Training needs at least one labeled file, scoring at least one unprocessed
/// file; the missing labels are reported first.
pub fn check_classification(c: &Classification) -> (r: Result<(), PipelineError>)
    ensures
        c.labeled@.len() == 0 ==> r == Err::<(), PipelineError>(PipelineError::NoLabeled),
        c.labeled@.len() > 0 && c.unprocessed@.len() == 0 ==> r == Err::<(), PipelineError>(
            PipelineError::NoUnprocessed,
        ),
        c.labeled@.len() > 0 && c.unprocessed@.len() > 0 ==> r is Ok,
{
    if c.labeled.len() == 0 {
        Err(PipelineError::NoLabeled)
    } else if c.unprocessed.len() == 0 {
        Err(PipelineError::NoUnprocessed)
    } else {
        Ok(())
    }
}

} // verus!

//! Review-log and filename parsing.
//!
//! A review log (`.txt` beside each annotation) holds one status line per
//! review, `DD/MM/YYYY HH:MM:SS-<status>`; the most recent valid line decides
//! the file's label. Filenames follow
//! `padded_china_(junior|senior)-high-school_grade-<D>_<subject>_<doctype>_<digits>_<split>_para<N>.json`
//! inside a `POC_P2_20000_<batch>` folder.
use crate::text::{
    count_char, count_of, eq_lit, extend_chars, is_ws, lemma_count_trim_start, lemma_index_of_unique,
    lemma_split_on_nonempty, lemma_trim_end_concat, lemma_trim_idempotent,
    lemma_trim_start_concat, lemma_trim_start_shape, trim_end, trim_start, find_char, from_chars, index_of, lemma_index_of, lowercase,
    slice_chars, split_chars, split_on, starts_with_lit, to_chars, to_lowercase_chars, trim,
    trim_bounds, trim_chars,
};
use crate::types::{Label, RejectReason};
use vstd::prelude::*;

verus! {

// ---------------------------------------------------------------------------
// Status tokens
// ---------------------------------------------------------------------------

/// The reason named by the part after `manual-reject-`.
pub open spec fn manual_reason(suffix: Seq<char>) -> RejectReason {
    if suffix == "whitespace"@ {
        RejectReason::Whitespace
    } else if suffix == "rotation"@ {
        RejectReason::Rotation
    } else if suffix == "structure"@ {
        RejectReason::Structure
    } else if suffix == "cutoff"@ || suffix == "cut-off"@ {
        RejectReason::CutOff
    } else if suffix == "generic"@ {
        RejectReason::Generic
    } else {
        RejectReason::Manual
    }
}

/// Label of a status token that is already trimmed and lower-cased; `None`
/// for tokens the review tools never write.
pub open spec fn status_label(s: Seq<char>) -> Option<Label> {
    if "region-accept"@.is_prefix_of(s) {
        Some(Label::Accept)
    } else if "region-reject"@.is_prefix_of(s) {
        Some(Label::Reject(RejectReason::Generic))
    } else if s == "accept"@ || s == "accept-cleared"@ {
        Some(Label::Accept)
    } else if s == "reject"@ || s == "reject-cleared"@ {
        Some(Label::Reject(RejectReason::Generic))
    } else if s == "reject-whitespace"@ {
        Some(Label::Reject(RejectReason::Whitespace))
    } else if s == "reject-rotation"@ {
        Some(Label::Reject(RejectReason::Rotation))
    } else if s == "reject-structure"@ {
        Some(Label::Reject(RejectReason::Structure))
    } else if s == "cut off"@ {
        Some(Label::Reject(RejectReason::CutOff))
    } else if s == "manual-accept"@ {
        Some(Label::Accept)
    } else if "manual-reject-"@.is_prefix_of(s) {
        Some(Label::Reject(manual_reason(s.skip("manual-reject-"@.len() as int))))
    } else {
        None
    }
}

/// Label of a raw status string: trimmed, lower-cased, then read as a token.
pub open spec fn normalize_status_spec(raw: Seq<char>) -> Option<Label> {
    status_label(lowercase(trim(raw)))
}

/// Reads a status token that is already trimmed and lower-cased.
pub fn status_label_of(s: &Vec<char>) -> (r: Option<Label>)
    ensures
        r == status_label(s@),
{
    if starts_with_lit(s, "region-accept") {
        Some(Label::Accept)
    } else if starts_with_lit(s, "region-reject") {
        Some(Label::Reject(RejectReason::Generic))
    } else if eq_lit(s, "accept") || eq_lit(s, "accept-cleared") {
        Some(Label::Accept)
    } else if eq_lit(s, "reject") || eq_lit(s, "reject-cleared") {
        Some(Label::Reject(RejectReason::Generic))
    } else if eq_lit(s, "reject-whitespace") {
        Some(Label::Reject(RejectReason::Whitespace))
    } else if eq_lit(s, "reject-rotation") {
        Some(Label::Reject(RejectReason::Rotation))
    } else if eq_lit(s, "reject-structure") {
        Some(Label::Reject(RejectReason::Structure))
    } else if eq_lit(s, "cut off") {
        Some(Label::Reject(RejectReason::CutOff))
    } else if eq_lit(s, "manual-accept") {
        Some(Label::Accept)
    } else if starts_with_lit(s, "manual-reject-") {
        let plen: usize = to_chars("manual-reject-").len();
        let suffix = slice_chars(s, plen, s.len());
        assert(suffix@ =~= s@.skip("manual-reject-"@.len() as int));
        let reason = if eq_lit(&suffix, "whitespace") {
            RejectReason::Whitespace
        } else if eq_lit(&suffix, "rotation") {
            RejectReason::Rotation
        } else if eq_lit(&suffix, "structure") {
            RejectReason::Structure
        } else if eq_lit(&suffix, "cutoff") || eq_lit(&suffix, "cut-off") {
            RejectReason::CutOff
        } else if eq_lit(&suffix, "generic") {
            RejectReason::Generic
        } else {
            RejectReason::Manual
        };
        Some(Label::Reject(reason))
    } else {
        None
    }
}

fn normalize_status_chars(raw: &Vec<char>) -> (r: Option<Label>)
    ensures
        r == normalize_status_spec(raw@),
{
    let t = trim_chars(raw);
    let lower = to_lowercase_chars(&t);
    status_label_of(&lower)
}

/// Normalize a raw status string from a review log into a label. Handles the
/// legacy short forms, the explicit reject reasons and the editor's
/// `manual-*` overrides.
pub fn normalize_status(raw: &str) -> (r: Option<Label>)
    ensures
        r == normalize_status_spec(raw@),
{
    let v = to_chars(raw);
    normalize_status_chars(&v)
}

// ---------------------------------------------------------------------------
// Review logs
// ---------------------------------------------------------------------------

/// The last piece of `split_on(a + b)` when `b` holds no separator.
proof fn lemma_split_last_extend(a: Seq<char>, b: Seq<char>, sep: char)
    requires
        forall|i: int| 0 <= i < b.len() ==> b[i] != sep,
    ensures
        split_on(a + b, sep).len() >= 1,
        split_on(a + b, sep).last() == split_on(a, sep).last() + b,
    decreases b.len(),
{
    lemma_split_on_nonempty(a + b, sep);
    lemma_split_on_nonempty(a, sep);
    if b.len() == 0 {
        assert(a + b =~= a);
        assert(split_on(a, sep).last() + b =~= split_on(a, sep).last());
    } else {
        let b0 = b.drop_last();
        assert((a + b).drop_last() =~= a + b0);
        assert((a + b).last() == b.last());
        assert(b.last() != sep);
        lemma_split_last_extend(a, b0, sep);
        lemma_split_on_nonempty(a + b0, sep);
        assert(split_on(a, sep).last() + b =~= (split_on(a, sep).last() + b0).push(b.last()));
    }
}

/// Status of one trimmed log line: the text after the first `-` is the status,
/// provided the part before it looks like a `hh:mm:ss` timestamp (two or more
/// colons). The flag tells whether the status is a `manual-*` override.
pub open spec fn line_status(line: Seq<char>) -> Option<(Label, bool)> {
    match index_of(line, '-') {
        None => None,
        Some(i) => if count_of(line.take(i), ':') < 2 {
            None
        } else {
            let raw = trim(line.skip(i + 1));
            if raw.len() == 0 {
                None
            } else {
                match normalize_status_spec(raw) {
                    Some(l) => Some((l, "manual-"@.is_prefix_of(lowercase(raw)))),
                    None => None,
                }
            }
        },
    }
}

/// The most recent (last) line that carries a valid status.
pub open spec fn last_status(lines: Seq<Seq<char>>) -> Option<(Label, bool)>
    decreases lines.len(),
{
    if lines.len() == 0 {
        None
    } else {
        match line_status(trim(lines.last())) {
            Some(x) => Some(x),
            None => last_status(lines.drop_last()),
        }
    }
}

/// The label a review log's text gives: the status of its last valid line.
pub open spec fn review_log_status(content: Seq<char>) -> Option<(Label, bool)> {
    last_status(split_on(content, '\n'))
}

/// The lines trimmed, with the empty ones dropped (what
/// `lines().map(str::trim).filter(|l| !l.is_empty())` yields of a text).
pub open spec fn nonblank_lines(lines: Seq<Seq<char>>) -> Seq<Seq<char>>
    decreases lines.len(),
{
    if lines.len() == 0 {
        Seq::empty()
    } else {
        let r = nonblank_lines(lines.drop_last());
        let x = trim(lines.last());
        if x.len() > 0 {
            r.push(x)
        } else {
            r
        }
    }
}

/// The status of the last line that carries one, of lines already trimmed.
pub open spec fn last_status_trimmed(lines: Seq<Seq<char>>) -> Option<(Label, bool)>
    decreases lines.len(),
{
    if lines.len() == 0 {
        None
    } else {
        match line_status(lines.last()) {
            Some(x) => Some(x),
            None => last_status_trimmed(lines.drop_last()),
        }
    }
}

/// Reading a review log line by line from the end is the same as first
/// trimming every line and dropping the empty ones: an empty line never
/// carries a status.
pub proof fn lemma_status_of_nonblank_lines(lines: Seq<Seq<char>>)
    ensures
        last_status(lines) == last_status_trimmed(nonblank_lines(lines)),
    decreases lines.len(),
{
    if lines.len() > 0 {
        lemma_status_of_nonblank_lines(lines.drop_last());
        let x = trim(lines.last());
        let r = nonblank_lines(lines.drop_last());
        if x.len() > 0 {
            assert(r.push(x).drop_last() =~= r);
            assert(r.push(x).last() == x);
        } else {
            assert(index_of(x, '-') is None);
            assert(line_status(x) is None);
        }
    }
}

fn line_status_of(line: &Vec<char>) -> (r: Option<(Label, bool)>)
    ensures
        r == line_status(line@),
{
    let found = find_char(line, '-');
    if found.is_none() {
        return None;
    }
    let idx: usize = found.unwrap();
    proof {
        lemma_index_of(line@, '-');
    }
    assert(idx < line.len());
    if count_char(line, idx, ':') < 2 {
        return None;
    }
    let ab: (usize, usize) = trim_bounds(line, idx + 1, line.len());
    assert(line@.subrange(idx + 1, line@.len() as int) =~= line@.skip(idx + 1));
    if ab.0 == ab.1 {
        return None;
    }
    let raw = slice_chars(line, ab.0, ab.1);
    let lower = to_lowercase_chars(&raw);
    let is_manual = starts_with_lit(&lower, "manual-");
    match normalize_status_chars(&raw) {
        Some(l) => Some((l, is_manual)),
        None => None,
    }
}

/// Parse the text of a review-log `.txt` file and return the most recent
/// valid label, with `true` when that line is a `manual-*` override written
/// from the editor. Lines whose part before the first `-` has fewer than two
/// colons (such as `2024-01-01 comment`) are not status lines.
pub fn parse_txt_content(content: &str) -> (r: Option<(Label, bool)>)
    ensures
        r == review_log_status(content@),
{
    let v = to_chars(content);
    let lines = split_chars(&v, '\n');
    let ghost ls = split_on(v@, '\n');
    let mut k: usize = lines.len();
    assert(ls.take(k as int) =~= ls);
    while k > 0
        invariant
            k <= lines@.len() == ls.len(),
            ls == split_on(content@, '\n'),
            forall|j: int| 0 <= j < lines@.len() ==> #[trigger] lines@[j]@ == ls[j],
            last_status(ls) == last_status(ls.take(k as int)),
        decreases k,
    {
        k = k - 1;
        let t = trim_chars(&lines[k]);
        assert(ls.take(k + 1).drop_last() =~= ls.take(k as int));
        assert(ls.take(k + 1).last() == ls[k as int]);
        assert(t@ == trim(ls[k as int]));
        match line_status_of(&t) {
            Some(x) => {
                assert(last_status(ls.take(k + 1)) == Some(x));
                return Some(x);
            },
            None => {},
        }
    }
    assert(ls.take(0) =~= Seq::<Seq<char>>::empty());
    None
}

/// The line appended to a review log for `status` at `timestamp`
/// (`<timestamp>-<status>` and a line break).
pub open spec fn review_line_spec(timestamp: Seq<char>, status: Seq<char>) -> Seq<char> {
    timestamp + seq!['-'] + status + seq!['\n']
}

/// Builds the line appended to a review log for `status` at `timestamp`.
pub fn review_line(timestamp: &str, status: &str) -> (r: String)
    ensures
        r@ == review_line_spec(timestamp@, status@),
{
    let mut v = to_chars(timestamp);
    v.push('-');
    extend_chars(&mut v, &to_chars(status));
    v.push('\n');
    assert(v@ =~= review_line_spec(timestamp@, status@));
    from_chars(&v)
}

/// A single `<timestamp>-<status>` line parses to the status's label.
proof fn lemma_status_line(ts: Seq<char>, status: Seq<char>)
    requires
        forall|i: int| 0 <= i < ts.len() ==> ts[i] != '-',
        count_of(ts, ':') >= 2,
        trim(status).len() > 0,
        normalize_status_spec(status) is Some,
    ensures
        line_status(trim(ts + seq!['-'] + status)) == Some(
            (
                normalize_status_spec(status)->0,
                "manual-"@.is_prefix_of(lowercase(trim(status))),
            ),
        ),
{
    let line = ts + seq!['-'] + status;
    let dash_status = seq!['-'] + status;
    assert(line =~= ts + dash_status);
    assert(!is_ws('-'));
    assert(dash_status[0] == '-');
    lemma_trim_start_concat(ts, dash_status);
    let ts0 = trim_start(ts);
    lemma_trim_start_shape(ts);
    let left = ts0 + seq!['-'];
    assert(left.last() == '-');
    assert(ts0 + dash_status =~= left + status);
    lemma_trim_end_concat(left, status);
    let tl = left + trim_end(status);
    assert(trim(line) == tl);
    assert forall|j: int| 0 <= j < ts0.len() implies tl[j] != '-' by {
        assert(tl[j] == ts0[j]);
        assert(ts0[j] == ts[j + (ts.len() - ts0.len())]);
    }
    assert(tl[ts0.len() as int] == '-');
    lemma_index_of_unique(tl, '-', ts0.len() as int);
    assert(tl.take(ts0.len() as int) =~= ts0);
    assert(!is_ws(':'));
    lemma_count_trim_start(ts, ':');
    assert(tl.skip(ts0.len() + 1int) =~= trim_end(status));
    lemma_trim_idempotent(status);
    assert(trim(trim(trim_end(status))) == trim(status));
}

/// What the review tools append is what the parser reads back, whatever the
/// log held before: after appending `<timestamp>-<status>` and a line break to
/// a log that is empty or ends with a line break, the log's label is the
/// label of `status`, flagged as an override exactly when `status` is a
/// `manual-*` token. The timestamp must look like one (two or more colons, no
/// `-`, no line break), and the status must be a non-blank single-line token
/// that the parser understands.
pub proof fn lemma_appended_status_read_back(content: Seq<char>, ts: Seq<char>, status: Seq<char>)
    requires
        content.len() == 0 || content.last() == '\n',
        forall|i: int| 0 <= i < ts.len() ==> ts[i] != '-' && ts[i] != '\n',
        count_of(ts, ':') >= 2,
        forall|i: int| 0 <= i < status.len() ==> status[i] != '\n',
        trim(status).len() > 0,
        normalize_status_spec(status) is Some,
    ensures
        review_log_status(content + review_line_spec(ts, status)) == Some(
            (
                normalize_status_spec(status)->0,
                "manual-"@.is_prefix_of(lowercase(trim(status))),
            ),
        ),
{
    let line = ts + seq!['-'] + status;
    let whole = content + review_line_spec(ts, status);
    let x = content + line;
    assert(whole =~= x.push('\n'));
    assert(whole.drop_last() =~= x);
    let pieces = split_on(whole, '\n');
    lemma_split_on_nonempty(x, '\n');
    let sx = split_on(x, '\n');
    assert(pieces == sx.push(Seq::<char>::empty()));
    assert(pieces.drop_last() =~= sx);
    assert(pieces.last() =~= Seq::<char>::empty());
    assert(trim(Seq::<char>::empty()) =~= Seq::<char>::empty());
    assert(line_status(Seq::<char>::empty()) is None);
    assert(last_status(pieces) == last_status(sx));
    assert(sx.last() =~= line) by {
        assert forall|i: int| 0 <= i < line.len() implies line[i] != '\n' by {
            if i < ts.len() {
                assert(line[i] == ts[i]);
            } else if i > ts.len() {
                assert(line[i] == status[i - ts.len() - 1]);
            }
        }
        lemma_split_last_extend(content, line, '\n');
        if content.len() > 0 {
            assert(content.drop_last().push('\n') =~= content);
            lemma_split_on_nonempty(content.drop_last(), '\n');
        }
        assert(split_on(content, '\n').last() =~= Seq::<char>::empty());
    }
    assert forall|i: int| 0 <= i < ts.len() implies ts[i] != '-' by {}
    lemma_status_line(ts, status);
}

/// The suffix that names a reason in an editor override token.
pub open spec fn reason_token(r: RejectReason) -> Seq<char> {
    match r {
        RejectReason::Whitespace => "whitespace"@,
        RejectReason::Rotation => "rotation"@,
        RejectReason::CutOff => "cutoff"@,
        RejectReason::Structure => "structure"@,
        RejectReason::Generic => "generic"@,
        RejectReason::Manual => "manual"@,
    }
}

/// The status token the editor writes when someone overrides a file's label.
pub open spec fn override_token_spec(l: Label) -> Seq<char> {
    match l {
        Label::Accept => "manual-accept"@,
        Label::Reject(r) => "manual-reject-"@ + reason_token(r),
    }
}

/// Every override the editor can write is read back as the chosen label,
/// and is recognised as a `manual-*` override.
pub proof fn lemma_override_token_label(l: Label)
    ensures
        status_label(override_token_spec(l)) == Some(l),
        "manual-"@.is_prefix_of(override_token_spec(l)),
{
    reveal_strlit("manual-");
    reveal_strlit("manual-accept");
    reveal_strlit("manual-reject-");
    reveal_strlit("region-accept");
    reveal_strlit("region-reject");
    reveal_strlit("accept");
    reveal_strlit("accept-cleared");
    reveal_strlit("reject");
    reveal_strlit("reject-cleared");
    reveal_strlit("reject-whitespace");
    reveal_strlit("reject-rotation");
    reveal_strlit("reject-structure");
    reveal_strlit("cut off");
    reveal_strlit("whitespace");
    reveal_strlit("rotation");
    reveal_strlit("structure");
    reveal_strlit("cutoff");
    reveal_strlit("cut-off");
    reveal_strlit("generic");
    reveal_strlit("manual");
    let t = override_token_spec(l);
    match l {
        Label::Accept => {
            assert(t.subrange(0, 7) =~= "manual-"@);
            assert(t[0] == 'm');
            assert("region-accept"@[0] == 'r');
            assert("region-reject"@[0] == 'r');
            assert(t[1] == 'a');
            assert(!("region-accept"@.is_prefix_of(t)));
            assert(!("region-reject"@.is_prefix_of(t)));
            assert(t != "accept"@ && t != "accept-cleared"@);
            assert(t != "reject"@ && t != "reject-cleared"@);
            assert(t != "reject-whitespace"@);
            assert(t != "reject-rotation"@);
            assert(t != "reject-structure"@);
            assert(t != "cut off"@);
        },
        Label::Reject(r) => {
            let suffix = reason_token(r);
            assert(t.subrange(0, 7) =~= "manual-"@);
            assert(t.subrange(0, 14) =~= "manual-reject-"@);
            assert(t.skip(14) =~= suffix);
            assert(t[0] == 'm');
            assert("region-accept"@[0] == 'r');
            assert("region-reject"@[0] == 'r');
            assert(t[1] == 'a');
            assert(t.len() >= 14);
            assert(t[7] == 'r');
            assert(!("region-accept"@.is_prefix_of(t)));
            assert(!("region-reject"@.is_prefix_of(t)));
            assert(t != "accept"@ && t != "accept-cleared"@);
            assert(t != "reject"@ && t != "reject-cleared"@);
            assert(t != "reject-whitespace"@);
            assert(t != "reject-rotation"@);
            assert(t != "reject-structure"@);
            assert(t != "cut off"@);
            assert(t != "manual-accept"@);
            match r {
                RejectReason::Whitespace => {},
                RejectReason::Rotation => {
                    assert(suffix != "whitespace"@);
                },
                RejectReason::CutOff => {
                    assert(suffix != "whitespace"@);
                    assert(suffix != "rotation"@);
                    assert(suffix != "structure"@);
                },
                RejectReason::Structure => {
                    assert(suffix != "whitespace"@);
                    assert(suffix != "rotation"@);
                },
                RejectReason::Generic => {
                    assert(suffix != "whitespace"@);
                    assert(suffix != "rotation"@);
                    assert(suffix != "structure"@);
                    assert(suffix != "cutoff"@);
                    assert(suffix[0] != "cut-off"@[0]);
                },
                RejectReason::Manual => {
                    assert(suffix != "whitespace"@);
                    assert(suffix != "rotation"@);
                    assert(suffix != "structure"@);
                    assert(suffix[0] != "cutoff"@[0]);
                    assert(suffix[0] != "cut-off"@[0]);
                    assert(suffix != "generic"@);
                },
            }
        },
    }
}

/// The plain status token a review tool writes for a label (the `manual-*`
/// tokens of the editor are `override_token_spec`): `accept`, `reject` for a
/// generic reject, `reject-<reason>` for whitespace, rotation and structure,
/// and `cut off`. A manual reject has no plain token.
pub open spec fn tool_token(l: Label) -> Option<Seq<char>> {
    match l {
        Label::Accept => Some("accept"@),
        Label::Reject(RejectReason::Generic) => Some("reject"@),
        Label::Reject(RejectReason::Whitespace) => Some("reject-whitespace"@),
        Label::Reject(RejectReason::Rotation) => Some("reject-rotation"@),
        Label::Reject(RejectReason::Structure) => Some("reject-structure"@),
        Label::Reject(RejectReason::CutOff) => Some("cut off"@),
        Label::Reject(RejectReason::Manual) => None,
    }
}

/// Every token the review tools write reads back as its label: the plain
/// tokens, their `-cleared` forms, the editor's `manual-*` overrides, and
/// any `region-accept…` / `region-reject…` token.
pub proof fn lemma_tool_tokens_read_back(l: Label, suffix: Seq<char>)
    ensures
        tool_token(l) matches Some(t) ==> status_label(t) == Some(l),
        status_label(override_token_spec(l)) == Some(l),
        status_label("accept-cleared"@) == Some(Label::Accept),
        status_label("reject-cleared"@) == Some(Label::Reject(RejectReason::Generic)),
        status_label("region-accept"@ + suffix) == Some(Label::Accept),
        status_label("region-reject"@ + suffix) == Some(Label::Reject(RejectReason::Generic)),
{
    lemma_override_token_label(l);
    reveal_strlit("manual-accept");
    reveal_strlit("manual-reject-");
    reveal_strlit("region-accept");
    reveal_strlit("region-reject");
    reveal_strlit("accept");
    reveal_strlit("accept-cleared");
    reveal_strlit("reject");
    reveal_strlit("reject-cleared");
    reveal_strlit("reject-whitespace");
    reveal_strlit("reject-rotation");
    reveal_strlit("reject-structure");
    reveal_strlit("cut off");
    assert("region-accept"@.is_prefix_of("region-accept"@ + suffix)) by {
        assert(("region-accept"@ + suffix).subrange(0, 13) =~= "region-accept"@);
    }
    assert("region-reject"@.is_prefix_of("region-reject"@ + suffix)) by {
        assert(("region-reject"@ + suffix).subrange(0, 13) =~= "region-reject"@);
    }
    assert(!"region-accept"@.is_prefix_of("region-reject"@ + suffix)) by {
        assert(("region-reject"@ + suffix)[7] == 'r');
    }
    assert(!"region-accept"@.is_prefix_of("accept"@));
    assert(!"region-accept"@.is_prefix_of("accept-cleared"@));
    assert(!"region-accept"@.is_prefix_of("reject"@));
    assert(!"region-accept"@.is_prefix_of("reject-cleared"@));
    assert(!"region-accept"@.is_prefix_of("reject-whitespace"@));
    assert(!"region-accept"@.is_prefix_of("reject-rotation"@));
    assert(!"region-accept"@.is_prefix_of("reject-structure"@));
    assert(!"region-accept"@.is_prefix_of("cut off"@));
    assert(!"region-reject"@.is_prefix_of("accept"@));
    assert(!"region-reject"@.is_prefix_of("accept-cleared"@));
    assert(!"region-reject"@.is_prefix_of("reject"@));
    assert(!"region-reject"@.is_prefix_of("reject-cleared"@));
    assert(!"region-reject"@.is_prefix_of("reject-whitespace"@)) by {
        assert("reject-whitespace"@[2] == 'j' && "region-reject"@[2] == 'g');
    }
    assert(!"region-reject"@.is_prefix_of("reject-rotation"@)) by {
        assert("reject-rotation"@[2] == 'j' && "region-reject"@[2] == 'g');
    }
    assert(!"region-reject"@.is_prefix_of("reject-structure"@)) by {
        assert("reject-structure"@[2] == 'j' && "region-reject"@[2] == 'g');
    }
    assert(!"region-reject"@.is_prefix_of("cut off"@));
    assert("reject"@[0] == 'r' && "accept"@[0] == 'a' && "accept-cleared"@[0] == 'a');
    assert("cut off"@[0] == 'c' && "reject-cleared"@[0] == 'r');
    assert("reject"@.len() == 6 && "reject-cleared"@.len() == 14);
    assert("reject-whitespace"@.len() == 17 && "reject-rotation"@.len() == 15);
    assert("reject-structure"@.len() == 16 && "cut off"@.len() == 7);
    assert("reject-whitespace"@[7] == 'w' && "reject-structure"@[7] == 's');
    assert("reject"@ != "accept"@ && "reject"@ != "accept-cleared"@);
    assert("reject-cleared"@ != "accept"@ && "reject-cleared"@ != "accept-cleared"@);
    assert("reject-whitespace"@ != "accept"@ && "reject-whitespace"@ != "accept-cleared"@);
    assert("reject-whitespace"@ != "reject"@ && "reject-whitespace"@ != "reject-cleared"@);
    assert("reject-rotation"@ != "accept"@ && "reject-rotation"@ != "accept-cleared"@);
    assert("reject-rotation"@ != "reject"@ && "reject-rotation"@ != "reject-cleared"@);
    assert("reject-rotation"@ != "reject-whitespace"@);
    assert("reject-structure"@ != "accept"@ && "reject-structure"@ != "accept-cleared"@);
    assert("reject-structure"@ != "reject"@ && "reject-structure"@ != "reject-cleared"@);
    assert("reject-structure"@ != "reject-whitespace"@ && "reject-structure"@
        != "reject-rotation"@);
    assert("cut off"@ != "accept"@ && "cut off"@ != "accept-cleared"@);
    assert("cut off"@ != "reject"@ && "cut off"@ != "reject-cleared"@);
    assert("cut off"@ != "reject-whitespace"@ && "cut off"@ != "reject-rotation"@);
    assert("cut off"@ != "reject-structure"@);
}

/// Status token for a manual override (`manual-accept` or
/// `manual-reject-<reason>`).
pub fn override_token(l: Label) -> (s: String)
    ensures
        s@ == override_token_spec(l),
{
    match l {
        Label::Accept => "manual-accept".to_owned(),
        Label::Reject(r) => {
            let mut v = to_chars("manual-reject-");
            let lit: &str = match r {
                RejectReason::Whitespace => "whitespace",
                RejectReason::Rotation => "rotation",
                RejectReason::CutOff => "cutoff",
                RejectReason::Structure => "structure",
                RejectReason::Generic => "generic",
                RejectReason::Manual => "manual",
            };
            extend_chars(&mut v, &to_chars(lit));
            from_chars(&v)
        },
    }
}

} // verus!

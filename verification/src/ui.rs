//! Presentation helpers: tier labels, number formatting, the table filter and
//! header tooltips, and the side panel's tier selections.
use crate::stem::{last_segment, path_file_name, plain_path};
use crate::text::{
    contains_chars, contains_seq, decimal, decimal_chars, eq_lit, from_chars, lemma_decimal_digits,
    lowercase, to_chars, to_lowercase_chars,
};
use crate::types::{RiskTier, SortCol};
use vstd::prelude::*;

verus! {

// ---------------------------------------------------------------------------
// Tier labels
// ---------------------------------------------------------------------------

pub open spec fn tier_short_spec(t: RiskTier) -> Seq<char> {
    match t {
        RiskTier::Low => "Low"@,
        RiskTier::Medium => "Med"@,
        RiskTier::High => "High"@,
    }
}

pub open spec fn tier_long_spec(t: RiskTier) -> Seq<char> {
    match t {
        RiskTier::Low => "Low"@,
        RiskTier::Medium => "Medium"@,
        RiskTier::High => "High"@,
    }
}

/// Short tier label for the table (`Medium` becomes `Med`).
pub fn tier_short(tier: RiskTier) -> (s: &'static str)
    ensures
        s@ == tier_short_spec(tier),
{
    match tier {
        RiskTier::Low => "Low",
        RiskTier::Medium => "Med",
        RiskTier::High => "High",
    }
}

/// Full-word tier label for places with room (KPI strip, editor risk pill).
pub fn tier_long(tier: RiskTier) -> (s: &'static str)
    ensures
        s@ == tier_long_spec(tier),
{
    match tier {
        RiskTier::Low => "Low",
        RiskTier::Medium => "Medium",
        RiskTier::High => "High",
    }
}

pub open spec fn tier_rank_spec(t: RiskTier) -> u8 {
    match t {
        RiskTier::High => 0,
        RiskTier::Medium => 1,
        RiskTier::Low => 2,
    }
}

/// Sort key of a tier in the table: riskiest first.
pub fn tier_rank(tier: RiskTier) -> (r: u8)
    ensures
        r == tier_rank_spec(tier),
{
    match tier {
        RiskTier::High => 0,
        RiskTier::Medium => 1,
        RiskTier::Low => 2,
    }
}

// ---------------------------------------------------------------------------
// Number formatting
// ---------------------------------------------------------------------------

/// The first `i` digits of `d` with a `,` before each digit that starts a
/// group of three counted from the right end of `d`.
pub open spec fn grouped_prefix(d: Seq<char>, i: nat) -> Seq<char>
    decreases i,
{
    if i == 0 {
        Seq::empty()
    } else {
        let k = (i - 1) as nat;
        grouped_prefix(d, k) + (if k > 0 && (d.len() - k) % 3 == 0 {
            seq![',']
        } else {
            Seq::empty()
        }) + seq![d[k as int]]
    }
}

/// `n` in decimal with `,` between groups of three digits, e.g. `1,234,567`.
pub open spec fn format_int_spec(n: nat) -> Seq<char> {
    grouped_prefix(decimal(n), decimal(n).len())
}

/// Formats `n` with thousands separators.
pub fn format_int(n: usize) -> (s: String)
    ensures
        s@ == format_int_spec(n as nat),
{
    let d = decimal_chars(n);
    let len: usize = d.len();
    let mut out: Vec<char> = Vec::new();
    let mut i: usize = 0;
    while i < len
        invariant
            i <= len == d@.len(),
            d@ == decimal(n as nat),
            out@ == grouped_prefix(d@, i as nat),
        decreases len - i,
    {
        if i > 0 && (len - i) % 3 == 0 {
            out.push(',');
        }
        out.push(d[i]);
        i = i + 1;
        assert(out@ =~= grouped_prefix(d@, i as nat));
    }
    from_chars(&out)
}

/// Dropping the separators gives back the plain decimal digits, and there is
/// one separator per full group of three in front of the leading group.
pub proof fn lemma_format_int_digits(n: nat)
    ensures
        format_int_spec(n).filter(|c: char| c != ',') == decimal(n),
        format_int_spec(n).len() == decimal(n).len() + (decimal(n).len() - 1) / 3,
{
    lemma_decimal_digits(n);
    let d = decimal(n);
    lemma_grouped_filter(d, d.len());
    lemma_grouped_len(d, d.len());
    assert(d.take(d.len() as int) =~= d);
}

/// Groups of three characters, each after a `,` (`,123,456` for `123456`);
/// meant for a length that is a multiple of three.
pub open spec fn comma_groups(s: Seq<char>) -> Seq<char>
    decreases s.len(),
{
    if s.len() < 3 {
        Seq::empty()
    } else {
        comma_groups(s.take(s.len() - 3)) + seq![','] + s.skip(s.len() - 3)
    }
}

/// Length of the leading group of a number with `l` digits.
pub open spec fn lead_len(l: nat) -> nat {
    ((l - 1) % 3 + 1) as nat
}

proof fn lemma_grouped_lead(d: Seq<char>, g: nat, i: nat)
    requires
        1 <= g <= 3,
        g <= d.len(),
        (d.len() - g) % 3 == 0,
        i <= g,
    ensures
        grouped_prefix(d, i) == d.take(i as int),
    decreases i,
{
    if i > 0 {
        lemma_grouped_lead(d, g, (i - 1) as nat);
        let k = (i - 1) as nat;
        assert(!(k > 0 && (d.len() - k) % 3 == 0));
        assert(d.take(i as int) =~= d.take(k as int) + seq![d[k as int]]);
    }
}

proof fn lemma_grouped_threes(d: Seq<char>, g: nat, m: nat)
    requires
        1 <= g <= 3,
        g + 3 * m <= d.len(),
        (d.len() - g) % 3 == 0,
    ensures
        grouped_prefix(d, g + 3 * m) == d.take(g as int) + comma_groups(
            d.subrange(g as int, (g + 3 * m) as int),
        ),
    decreases m,
{
    if m == 0 {
        lemma_grouped_lead(d, g, g);
        assert(d.subrange(g as int, g as int) =~= Seq::<char>::empty());
        assert(d.take(g as int) + Seq::<char>::empty() =~= d.take(g as int));
    } else {
        let i: nat = (g + 3 * (m - 1)) as nat;
        lemma_grouped_threes(d, g, (m - 1) as nat);
        assert(i + 3 == g + 3 * m);
        assert((d.len() - i) % 3 == 0);
        assert((d.len() - (i + 1)) % 3 == 2);
        assert((d.len() - (i + 2)) % 3 == 1);
        assert(grouped_prefix(d, i + 1) == grouped_prefix(d, i) + seq![','] + seq![d[i as int]]);
        assert(grouped_prefix(d, i + 2) == grouped_prefix(d, i + 1) + Seq::<char>::empty() + seq![
            d[i + 1int],
        ]);
        assert(grouped_prefix(d, i + 3) == grouped_prefix(d, i + 2) + Seq::<char>::empty() + seq![
            d[i + 2int],
        ]);
        let sub = d.subrange(g as int, i + 3int);
        assert(sub.len() == 3 * m);
        assert(sub.take(sub.len() - 3) =~= d.subrange(g as int, i as int));
        assert(sub.skip(sub.len() - 3) =~= seq![d[i as int], d[i + 1int], d[i + 2int]]);
        assert(comma_groups(sub) == comma_groups(d.subrange(g as int, i as int)) + seq![',']
            + seq![d[i as int], d[i + 1int], d[i + 2int]]);
        assert(grouped_prefix(d, i + 3) =~= d.take(g as int) + comma_groups(sub));
    }
}

/// The grouping of a formatted number: a leading group of one to three
/// digits, then groups of exactly three digits, each after a `,`.
pub proof fn lemma_format_int_groups(n: nat)
    ensures
        1 <= lead_len(decimal(n).len()) <= 3,
        lead_len(decimal(n).len()) <= decimal(n).len(),
        (decimal(n).len() - lead_len(decimal(n).len())) % 3 == 0,
        format_int_spec(n) == decimal(n).take(lead_len(decimal(n).len()) as int) + comma_groups(
            decimal(n).skip(lead_len(decimal(n).len()) as int),
        ),
{
    let d = decimal(n);
    lemma_decimal_digits(n);
    let g = lead_len(d.len());
    let m: nat = ((d.len() - g) / 3) as nat;
    assert(g + 3 * m == d.len());
    lemma_grouped_threes(d, g, m);
    assert(d.subrange(g as int, d.len() as int) =~= d.skip(g as int));
}

proof fn lemma_grouped_filter(d: Seq<char>, i: nat)
    requires
        i <= d.len(),
        forall|k: int| 0 <= k < d.len() ==> d[k] != ',',
    ensures
        grouped_prefix(d, i).filter(|c: char| c != ',') == d.take(i as int),
    decreases i,
{
    if i > 0 {
        let k = (i - 1) as nat;
        lemma_grouped_filter(d, k);
        let g = grouped_prefix(d, k);
        let sep: Seq<char> = if k > 0 && (d.len() - k) % 3 == 0 {
            seq![',']
        } else {
            Seq::empty()
        };
        let last = seq![d[k as int]];
        assert(grouped_prefix(d, i) == g + sep + last);
        Seq::filter_distributes_over_add(g + sep, last, |c: char| c != ',');
        Seq::filter_distributes_over_add(g, sep, |c: char| c != ',');
        assert(sep.filter(|c: char| c != ',') =~= Seq::<char>::empty()) by {
            reveal(Seq::filter);
            if sep.len() > 0 {
                assert(sep =~= seq![',']);
                assert(seq![','].drop_last() =~= Seq::<char>::empty());
            }
        }
        assert(last.filter(|c: char| c != ',') =~= last) by {
            reveal(Seq::filter);
            assert(last.drop_last() =~= Seq::<char>::empty());
        }
        assert(d.take(i as int) =~= d.take(k as int) + last);
    } else {
        assert(grouped_prefix(d, 0).filter(|c: char| c != ',') =~= Seq::<char>::empty()) by {
            reveal(Seq::filter);
        }
        assert(d.take(0) =~= Seq::<char>::empty());
    }
}

proof fn lemma_grouped_len(d: Seq<char>, i: nat)
    requires
        1 <= i <= d.len(),
    ensures
        grouped_prefix(d, i).len() == i + (d.len() - 1) / 3 - (d.len() - i) / 3,
    decreases i,
{
    let k = (i - 1) as nat;
    let l: int = d.len() as int;
    let sep: Seq<char> = if k > 0 && (d.len() - k) % 3 == 0 {
        seq![',']
    } else {
        Seq::empty()
    };
    assert(grouped_prefix(d, i) == grouped_prefix(d, k) + sep + seq![d[k as int]]);
    assert(grouped_prefix(d, i).len() == grouped_prefix(d, k).len() + sep.len() + 1);
    if k == 0 {
        assert(grouped_prefix(d, 0).len() == 0);
    } else {
        lemma_grouped_len(d, k);
        let a: int = l - i;
        assert(l - k == a + 1);
        assert((a + 1) / 3 == a / 3 + (if (a + 1) % 3 == 0 {
            1int
        } else {
            0int
        }));
    }
}

/// A batch number as the table shows it (`{:02}`): at least two characters,
/// zero-padded after the sign.
pub open spec fn format_batch_spec(b: int) -> Seq<char> {
    if b < 0 {
        seq!['-'] + decimal((-b) as nat)
    } else if b < 10 {
        seq!['0'] + decimal(b as nat)
    } else {
        decimal(b as nat)
    }
}

/// Formats a batch number with at least two digits (`7` as `07`).
pub fn format_batch(b: i32) -> (s: String)
    ensures
        s@ == format_batch_spec(b as int),
{
    let mut v: Vec<char> = Vec::new();
    if b < 0 {
        v.push('-');
        let m: i64 = -(b as i64);
        crate::text::extend_chars(&mut v, &decimal_chars(m as usize));
    } else {
        if b < 10 {
            v.push('0');
        }
        crate::text::extend_chars(&mut v, &decimal_chars(b as usize));
    }
    from_chars(&v)
}

// ---------------------------------------------------------------------------
// Tier counts
// ---------------------------------------------------------------------------

/// Number of rows in tier `t`.
pub open spec fn count_tier(tiers: Seq<RiskTier>, t: RiskTier) -> nat
    decreases tiers.len(),
{
    if tiers.len() == 0 {
        0
    } else {
        count_tier(tiers.drop_last(), t) + if tiers.last() == t {
            1nat
        } else {
            0nat
        }
    }
}

/// How many rows are in each tier.
pub struct TierCounts {
    pub low: usize,
    pub medium: usize,
    pub high: usize,
}

/// Counts the rows of each tier (the KPI strip and the distribution chart).
pub fn count_tiers(tiers: &Vec<RiskTier>) -> (c: TierCounts)
    ensures
        c.low == count_tier(tiers@, RiskTier::Low),
        c.medium == count_tier(tiers@, RiskTier::Medium),
        c.high == count_tier(tiers@, RiskTier::High),
        c.low + c.medium + c.high == tiers@.len(),
{
    let mut low: usize = 0;
    let mut medium: usize = 0;
    let mut high: usize = 0;
    let mut i: usize = 0;
    while i < tiers.len()
        invariant
            i <= tiers.len(),
            low == count_tier(tiers@.take(i as int), RiskTier::Low),
            medium == count_tier(tiers@.take(i as int), RiskTier::Medium),
            high == count_tier(tiers@.take(i as int), RiskTier::High),
            low + medium + high == i,
        decreases tiers.len() - i,
    {
        assert(tiers@.take(i + 1).drop_last() =~= tiers@.take(i as int));
        match tiers[i] {
            RiskTier::Low => low = low + 1,
            RiskTier::Medium => medium = medium + 1,
            RiskTier::High => high = high + 1,
        }
        i = i + 1;
    }
    assert(tiers@.take(tiers.len() as int) =~= tiers@);
    TierCounts { low, medium, high }
}

// ---------------------------------------------------------------------------
// Filtering
// ---------------------------------------------------------------------------

/// A row is visible when its tier is the selected one (if any) and its
/// lower-cased subject contains the (already lower-cased) search text.
pub open spec fn passes_filter_spec(
    row_tier: RiskTier,
    subject: Seq<char>,
    tier: Option<RiskTier>,
    subject_lc: Seq<char>,
) -> bool {
    &&& tier matches Some(t) ==> t == row_tier
    &&& subject_lc.len() > 0 ==> contains_seq(lowercase(subject), subject_lc)
}

/// The subject filter is substring search: with a tier selected, only rows
/// of that tier pass; with a non-empty search text, a row passes exactly
/// when the text occurs somewhere in its lower-cased subject (at any
/// position, not only at the start).
pub proof fn lemma_filter_by_substring(
    row_tier: RiskTier,
    subject: Seq<char>,
    tier: Option<RiskTier>,
    subject_lc: Seq<char>,
    at: int,
)
    ensures
        passes_filter_spec(row_tier, subject, tier, subject_lc) <==> ((tier is None || tier
            == Some(row_tier)) && (subject_lc.len() > 0 ==> exists|i: int|
            0 <= i && i + subject_lc.len() <= lowercase(subject).len() && #[trigger] lowercase(
                subject,
            ).subrange(i, i + subject_lc.len()) == subject_lc)),
        (tier is None || tier == Some(row_tier)) && 0 <= at && at + subject_lc.len()
            <= lowercase(subject).len() && lowercase(subject).subrange(at, at + subject_lc.len())
            == subject_lc ==> passes_filter_spec(row_tier, subject, tier, subject_lc),
{
}

/// Single source of truth for "is this prediction visible under the current
/// tier and subject filters", given the prediction's tier and subject.
pub fn passes_filter(
    row_tier: RiskTier,
    subject: &str,
    tier: Option<RiskTier>,
    subject_lc: &str,
) -> (b: bool)
    ensures
        b == passes_filter_spec(row_tier, subject@, tier, subject_lc@),
{
    match tier {
        Some(t) => {
            if t != row_tier {
                return false;
            }
        },
        None => {},
    }
    let needle = to_chars(subject_lc);
    if needle.len() > 0 {
        let lower = to_lowercase_chars(&to_chars(subject));
        if !contains_chars(&lower, &needle) {
            return false;
        }
    }
    true
}

// ---------------------------------------------------------------------------
// Table headers and shapes
// ---------------------------------------------------------------------------

pub open spec fn col_tooltip_spec(c: SortCol) -> Option<Seq<char>> {
    match c {
        SortCol::Risk => Some("Computed from p_comb and the tier cutoffs in the side panel."@),
        SortCol::PCategorical => Some(
            "Laplace-smoothed P(accept | batch, subject) prior. Doesn't look at the image."@,
        ),
        SortCol::PLogReg => Some(
            "Logistic regression output combining 7 JSON-geometry + 6 image features + the categorical prior."@,
        ),
        SortCol::PCombined => Some(
            "Final probability used for the risk tier. Uses LR when available, falls back to categorical prior when image features are missing."@,
        ),
        SortCol::Filename => Some("Double-click a row to open the annotation editor."@),
        _ => None,
    }
}

/// Hover tooltips for table headers; `None` where the header's purpose is
/// obvious from its label.
pub fn col_tooltip(c: SortCol) -> (r: Option<&'static str>)
    ensures
        match r {
            Some(s) => col_tooltip_spec(c) == Some(s@),
            None => col_tooltip_spec(c) is None,
        },
{
    match c {
        SortCol::Risk => Some("Computed from p_comb and the tier cutoffs in the side panel."),
        SortCol::PCategorical => Some(
            "Laplace-smoothed P(accept | batch, subject) prior. Doesn't look at the image.",
        ),
        SortCol::PLogReg => Some(
            "Logistic regression output combining 7 JSON-geometry + 6 image features + the categorical prior.",
        ),
        SortCol::PCombined => Some(
            "Final probability used for the risk tier. Uses LR when available, falls back to categorical prior when image features are missing.",
        ),
        SortCol::Filename => Some("Double-click a row to open the annotation editor."),
        _ => None,
    }
}

/// Whether a shape type forms a closed polygon (its last point connects back
/// to the first).
pub fn is_closed_shape(shape_type: &str) -> (b: bool)
    ensures
        b == (shape_type@ == "rectangle"@ || shape_type@ == "polygon"@ || shape_type@
            == "rotation"@),
{
    let v = to_chars(shape_type);
    eq_lit(&v, "rectangle") || eq_lit(&v, "polygon") || eq_lit(&v, "rotation")
}

/// A path's file name for compact display, or the whole path when it has no
/// file name. The file name is a non-empty piece of the path's text; for a
/// plain `/`-separated path (`plain_path`) it is the text after the last `/`.
pub fn short_path(p: &str) -> (s: String)
    ensures
        s@ == p@ || (s@.len() > 0 && contains_seq(p@, s@)),
        plain_path(p@) ==> s@ == last_segment(p@),
{
    match path_file_name(p) {
        Some(n) => n,
        None => p.to_owned(),
    }
}

} // verus!

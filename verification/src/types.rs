//! Core domain types shared across the library: review labels, file index
//! entries, filename metadata, table columns and risk tiers.
use vstd::prelude::*;

verus! {

/// Why an annotation was rejected.
#[derive(Debug, Clone, Copy, PartialEq, Eq, Hash, Structural)]
pub enum RejectReason {
    Whitespace,
    Rotation,
    Structure,
    CutOff,
    Generic,
    Manual,
}

/// Stable position of each reason in per-reason listings (most to least
/// specific).
pub open spec fn reason_order(r: RejectReason) -> u8 {
    match r {
        RejectReason::Whitespace => 0,
        RejectReason::Rotation => 1,
        RejectReason::CutOff => 2,
        RejectReason::Structure => 3,
        RejectReason::Generic => 4,
        RejectReason::Manual => 5,
    }
}

/// The user-facing name of each reason.
pub open spec fn reason_name(r: RejectReason) -> Seq<char> {
    match r {
        RejectReason::Whitespace => "Whitespace"@,
        RejectReason::Rotation => "Rotation"@,
        RejectReason::CutOff => "Cutoff"@,
        RejectReason::Structure => "Structure"@,
        RejectReason::Generic => "Generic"@,
        RejectReason::Manual => "Manual"@,
    }
}

impl RejectReason {
    /// Stable display order so per-reason chips don't reshuffle every run.
    pub fn display_order(self) -> (o: u8)
        ensures
            o == reason_order(self),
    {
        match self {
            RejectReason::Whitespace => 0,
            RejectReason::Rotation => 1,
            RejectReason::CutOff => 2,
            RejectReason::Structure => 3,
            RejectReason::Generic => 4,
            RejectReason::Manual => 5,
        }
    }

    /// The name shown for this reason (what the type displays as).
    pub fn display_name(self) -> (s: String)
        ensures
            s@ == reason_name(self),
    {
        let lit: &str = match self {
            RejectReason::Whitespace => "Whitespace",
            RejectReason::Rotation => "Rotation",
            RejectReason::CutOff => "Cutoff",
            RejectReason::Structure => "Structure",
            RejectReason::Generic => "Generic",
            RejectReason::Manual => "Manual",
        };
        lit.to_owned()
    }
}

/// Distinct reasons are listed at distinct positions, and the order is the
/// sequence Whitespace, Rotation, CutOff, Structure, Generic, Manual.
pub proof fn lemma_display_order_injective(a: RejectReason, b: RejectReason)
    ensures
        reason_order(a) == reason_order(b) <==> a == b,
        reason_order(RejectReason::Whitespace) < reason_order(RejectReason::Rotation),
        reason_order(RejectReason::Rotation) < reason_order(RejectReason::CutOff),
        reason_order(RejectReason::CutOff) < reason_order(RejectReason::Structure),
        reason_order(RejectReason::Structure) < reason_order(RejectReason::Generic),
        reason_order(RejectReason::Generic) < reason_order(RejectReason::Manual),
{
}

/// The recorded outcome of checking an annotation.
#[derive(Debug, Clone, Copy, PartialEq, Eq, Structural)]
pub enum Label {
    Accept,
    Reject(RejectReason),
}

impl Label {
    pub fn is_reject(&self) -> (b: bool)
        ensures
            b <==> *self is Reject,
    {
        match self {
            Label::Reject(_) => true,
            Label::Accept => false,
        }
    }
}

/// Metadata parsed from a filename stem and its batch folder.
#[derive(Debug)]
pub struct Meta {
    pub stem: String,
    pub grade: String,
    pub subject: String,
    pub doc_type: String,
    pub batch: i32,
}

/// The text of a `Meta`'s fields, for contracts.
pub struct MetaView {
    pub stem: Seq<char>,
    pub grade: Seq<char>,
    pub subject: Seq<char>,
    pub doc_type: Seq<char>,
    pub batch: i32,
}

impl View for Meta {
    type V = MetaView;

    open spec fn view(&self) -> MetaView {
        MetaView {
            stem: self.stem@,
            grade: self.grade@,
            subject: self.subject@,
            doc_type: self.doc_type@,
            batch: self.batch,
        }
    }
}

impl Meta {
    /// A field-by-field copy.
    pub fn duplicate(&self) -> (m: Meta)
        ensures
            m == *self,
    {
        Meta {
            stem: self.stem.clone(),
            grade: self.grade.clone(),
            subject: self.subject.clone(),
            doc_type: self.doc_type.clone(),
            batch: self.batch,
        }
    }
}

/// The `.json` / `.jpg` / `.txt` files that share one stem.
#[derive(Debug)]
pub struct FileEntry {
    pub stem: String,
    pub json: Option<String>,
    pub jpg: Option<String>,
    pub txt: Option<String>,
}

/// A reviewed file: its metadata and the label from its review log.
#[derive(Debug)]
pub struct LabeledRow {
    pub meta: Meta,
    pub label: Label,
}

/// Column that the predictions table is currently sorted by.
#[derive(Debug, Clone, Copy, PartialEq, Eq, Structural)]
pub enum SortCol {
    Risk,
    Batch,
    Subject,
    Grade,
    DocType,
    PCategorical,
    PLogReg,
    PCombined,
    Filename,
}

impl Default for SortCol {
    /// Tables start sorted by the combined probability.
    fn default() -> (c: SortCol)
        ensures
            c == SortCol::PCombined,
    {
        SortCol::PCombined
    }
}

/// Risk tier of an unreviewed file.
#[derive(Debug, Clone, Copy, PartialEq, Eq, Hash, Structural)]
pub enum RiskTier {
    Low,
    Medium,
    High,
}

} // verus!

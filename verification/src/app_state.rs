//! Application state shared by the UI panels: the analysis-result slot, the
//! run state, the extract and correction panels' selections, the table's
//! per-frame actions, and the risk-tier method.
use crate::types::{RiskTier, SortCol};
use vstd::prelude::*;

verus! {

// ---------------------------------------------------------------------------
// Sentinel
// ---------------------------------------------------------------------------

/// A slot that is either empty or holds a ready value (the pipeline result
/// once an analysis has finished).
pub enum Sentinel<T> {
    Empty,
    Ready(T),
}

impl<T> Default for Sentinel<T> {
    fn default() -> (s: Self)
        ensures
            s is Empty,
    {
        Sentinel::Empty
    }
}

impl<T> Sentinel<T> {
    pub fn is_ready(&self) -> (b: bool)
        ensures
            b <==> *self is Ready,
    {
        match self {
            Sentinel::Ready(_) => true,
            Sentinel::Empty => false,
        }
    }

    /// The value when ready.
    pub fn as_ref(&self) -> (r: Option<&T>)
        ensures
            match *self {
                Sentinel::Ready(v) => r matches Some(x) && *x == v,
                Sentinel::Empty => r is None,
            },
    {
        match self {
            Sentinel::Ready(v) => Some(v),
            Sentinel::Empty => None,
        }
    }

    /// Mutable access to the value when ready; what is written through the
    /// reference is what the slot then holds.
    pub fn as_mut(&mut self) -> (r: Option<&mut T>)
        ensures
            match *old(self) {
                Sentinel::Ready(v) => r matches Some(x) && *x == v && *final(self) == Sentinel::Ready(
                    *final(x),
                ),
                Sentinel::Empty => r is None && *final(self) is Empty,
            },
    {
        match self {
            Sentinel::Ready(v) => Some(v),
            Sentinel::Empty => None,
        }
    }

    /// Empties the slot.
    pub fn clear(&mut self)
        ensures
            *final(self) is Empty,
    {
        *self = Sentinel::Empty;
    }
}

// ---------------------------------------------------------------------------
// Run state and extract options
// ---------------------------------------------------------------------------

/// Whether an analysis is running in the background.
#[derive(Debug, Clone, Copy, PartialEq, Eq, Structural)]
pub enum State {
    Idle,
    Running,
}

/// Options for the extract operation passed from UI panels.
pub struct RunExtractOpts<'a> {
    pub dialog_title: &'a str,
    pub action_label: &'a str,
    pub tiers: Vec<RiskTier>,
    pub include_jpg: bool,
    pub include_txt: bool,
    pub move_files: bool,
}

// ---------------------------------------------------------------------------
// Side panel selections
// ---------------------------------------------------------------------------

/// Extract panel state: the checkboxes the user toggles before extracting.
#[derive(Debug)]
pub struct ExtractPanelState {
    pub include_high: bool,
    pub include_med: bool,
    pub include_low: bool,
    pub include_jpg: bool,
    pub include_txt: bool,
    pub move_files: bool,
    pub last_msg: Option<String>,
}

impl Default for ExtractPanelState {
    /// High risk only, with both sidecars, copying.
    fn default() -> (s: Self)
        ensures
            s.include_high,
            !s.include_med,
            !s.include_low,
            s.include_jpg,
            s.include_txt,
            !s.move_files,
            s.last_msg is None,
    {
        ExtractPanelState {
            include_high: true,
            include_med: false,
            include_low: false,
            include_jpg: true,
            include_txt: true,
            move_files: false,
            last_msg: None,
        }
    }
}

/// The tiers ticked in the extract panel, riskiest first.
pub open spec fn ticked_tiers(high: bool, med: bool, low: bool) -> Seq<RiskTier> {
    (if high {
        seq![RiskTier::High]
    } else {
        Seq::empty()
    }) + (if med {
        seq![RiskTier::Medium]
    } else {
        Seq::empty()
    }) + (if low {
        seq![RiskTier::Low]
    } else {
        Seq::empty()
    })
}

/// Each tier is in the selection exactly when its own box is ticked,
/// whatever the other boxes say, and each ticked tier is listed once.
pub proof fn lemma_ticked_tiers(high: bool, med: bool, low: bool)
    ensures
        ticked_tiers(high, med, low).contains(RiskTier::High) <==> high,
        ticked_tiers(high, med, low).contains(RiskTier::Medium) <==> med,
        ticked_tiers(high, med, low).contains(RiskTier::Low) <==> low,
        ticked_tiers(high, med, low).len() == (if high {
            1int
        } else {
            0int
        }) + (if med {
            1int
        } else {
            0int
        }) + (if low {
            1int
        } else {
            0int
        }),
{
    let s = ticked_tiers(high, med, low);
    let a = if high {
        seq![RiskTier::High]
    } else {
        Seq::<RiskTier>::empty()
    };
    let b = if med {
        seq![RiskTier::Medium]
    } else {
        Seq::<RiskTier>::empty()
    };
    let c = if low {
        seq![RiskTier::Low]
    } else {
        Seq::<RiskTier>::empty()
    };
    assert(s == a + b + c);
    assert forall|x: RiskTier| s.contains(x) <==> (a.contains(x) || b.contains(x) || c.contains(x)) by {
        if s.contains(x) {
            let i = choose|i: int| 0 <= i < s.len() && s[i] == x;
            if i < a.len() {
                assert(a[i] == x);
            } else if i < a.len() + b.len() {
                assert(b[i - a.len()] == x);
            } else {
                assert(c[i - a.len() - b.len()] == x);
            }
        }
        if a.contains(x) {
            let i = choose|i: int| 0 <= i < a.len() && a[i] == x;
            assert(s[i] == x);
        }
        if b.contains(x) {
            let i = choose|i: int| 0 <= i < b.len() && b[i] == x;
            assert(s[a.len() + i] == x);
        }
        if c.contains(x) {
            let i = choose|i: int| 0 <= i < c.len() && c[i] == x;
            assert(s[a.len() + b.len() + i] == x);
        }
    }
    if high {
        assert(a[0] == RiskTier::High);
    }
    if med {
        assert(b[0] == RiskTier::Medium);
    }
    if low {
        assert(c[0] == RiskTier::Low);
    }
}

impl ExtractPanelState {
    /// The set of tiers the user enabled; `None` when nothing is selected (the
    /// caller shows an inline error instead of a dialog).
    pub fn enabled_tiers(&self) -> (r: Option<Vec<RiskTier>>)
        ensures
            match r {
                None => ticked_tiers(self.include_high, self.include_med, self.include_low).len()
                    == 0,
                Some(v) => v@ == ticked_tiers(self.include_high, self.include_med, self.include_low)
                    && v@.len() > 0,
            },
    {
        let mut tiers: Vec<RiskTier> = Vec::new();
        if self.include_high {
            tiers.push(RiskTier::High);
        }
        if self.include_med {
            tiers.push(RiskTier::Medium);
        }
        if self.include_low {
            tiers.push(RiskTier::Low);
        }
        assert(tiers@ =~= ticked_tiers(self.include_high, self.include_med, self.include_low));
        if tiers.len() == 0 {
            None
        } else {
            Some(tiers)
        }
    }
}

/// Correction panel state: a simpler variant that always targets High risk.
#[derive(Debug)]
pub struct CorrectionPanelState {
    pub include_med: bool,
    pub include_jpg: bool,
    pub include_txt: bool,
    pub move_files: bool,
    pub last_msg: Option<String>,
}

impl Default for CorrectionPanelState {
    /// High risk only, with both sidecars, copying.
    fn default() -> (s: Self)
        ensures
            !s.include_med,
            s.include_jpg,
            s.include_txt,
            !s.move_files,
            s.last_msg is None,
    {
        CorrectionPanelState {
            include_med: false,
            include_jpg: true,
            include_txt: true,
            move_files: false,
            last_msg: None,
        }
    }
}

impl CorrectionPanelState {
    /// High risk, plus Medium when ticked.
    pub fn enabled_tiers(&self) -> (v: Vec<RiskTier>)
        ensures
            v@ == ticked_tiers(true, self.include_med, false),
    {
        let mut tiers: Vec<RiskTier> = Vec::new();
        tiers.push(RiskTier::High);
        if self.include_med {
            tiers.push(RiskTier::Medium);
        }
        assert(tiers@ =~= ticked_tiers(true, self.include_med, false));
        tiers
    }
}

// ---------------------------------------------------------------------------
// Table actions and tier methods
// ---------------------------------------------------------------------------

/// Signals the table sends back to its caller after one frame.
pub struct TableAction {
    /// `Some((column, ascending))` if the user clicked a header to change sort.
    pub sort_change: Option<(SortCol, bool)>,
    /// `Some(prediction_index)` if the user double-clicked a row (to open the
    /// annotation editor on that file).
    pub open_editor_idx: Option<usize>,
}

/// How `p_combined` is turned into risk tiers.
#[derive(Debug, Clone, Copy, PartialEq, Eq, Structural)]
pub enum TierMethod {
    /// Fixed absolute thresholds on `p_combined`.
    Absolute,
    /// Bottom share is High, top share is Low, the rest Medium.
    Percentile,
}

pub open spec fn tier_method_name(m: TierMethod) -> Seq<char> {
    match m {
        TierMethod::Absolute => "Absolute"@,
        TierMethod::Percentile => "Percentile"@,
    }
}

impl TierMethod {
    /// The name the method displays as.
    pub fn display_name(self) -> (s: String)
        ensures
            s@ == tier_method_name(self),
    {
        match self {
            TierMethod::Absolute => "Absolute".to_owned(),
            TierMethod::Percentile => "Percentile".to_owned(),
        }
    }
}

} // verus!

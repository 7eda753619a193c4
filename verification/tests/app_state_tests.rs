use batch_acceptance_app::app_state::{
    CorrectionPanelState, ExtractPanelState, Sentinel, State, TableAction, TierMethod,
};
use batch_acceptance_app::types::{RiskTier, SortCol};

#[test]
fn test_sentinel_default_is_empty() {
    let s: Sentinel<i32> = Sentinel::default();
    assert!(!s.is_ready());
    assert!(s.as_ref().is_none());
}

#[test]
fn test_sentinel_ready() {
    let mut s = Sentinel::Ready(42);
    assert!(s.is_ready());
    assert_eq!(s.as_ref(), Some(&42));
    assert_eq!(s.as_mut(), Some(&mut 42));
}

#[test]
fn test_sentinel_clear() {
    let mut s = Sentinel::Ready(vec![1, 2, 3]);
    assert!(s.is_ready());
    s.clear();
    assert!(!s.is_ready());
    assert!(s.as_ref().is_none());
}

#[test]
fn test_sentinel_as_mut_modifies() {
    let mut s = Sentinel::Ready(String::from("hello"));
    if let Some(v) = s.as_mut() {
        v.push_str(" world");
    }
    assert_eq!(s.as_ref().unwrap(), "hello world");
}

#[test]
fn sentinel_as_mut_on_empty_is_none() {
    let mut s: Sentinel<String> = Sentinel::Empty;
    assert!(s.as_mut().is_none());
    assert!(!s.is_ready());
}

#[test]
fn test_enabled_tiers_all() {
    let state = ExtractPanelState::default();
    // default: include_high=true, med=false, low=false
    let tiers = state.enabled_tiers();
    assert!(tiers.is_some());
    assert_eq!(tiers.unwrap(), vec![RiskTier::High]);
}

#[test]
fn test_enabled_tiers_none() {
    let state = ExtractPanelState {
        include_high: false,
        ..Default::default()
    };
    assert!(state.enabled_tiers().is_none());
}

#[test]
fn enabled_tiers_keeps_riskiest_first() {
    let state = ExtractPanelState {
        include_high: true,
        include_med: true,
        include_low: true,
        ..Default::default()
    };
    assert_eq!(
        state.enabled_tiers(),
        Some(vec![RiskTier::High, RiskTier::Medium, RiskTier::Low])
    );
    let low_only = ExtractPanelState {
        include_high: false,
        include_low: true,
        ..Default::default()
    };
    assert_eq!(low_only.enabled_tiers(), Some(vec![RiskTier::Low]));
}

#[test]
fn extract_panel_defaults() {
    let s = ExtractPanelState::default();
    assert!(s.include_high && !s.include_med && !s.include_low);
    assert!(s.include_jpg && s.include_txt && !s.move_files);
    assert!(s.last_msg.is_none());
}

#[test]
fn test_correction_panel_tiers() {
    let state = CorrectionPanelState::default();
    assert_eq!(state.enabled_tiers(), vec![RiskTier::High]);

    let state_med = CorrectionPanelState {
        include_med: true,
        ..Default::default()
    };
    assert_eq!(
        state_med.enabled_tiers(),
        vec![RiskTier::High, RiskTier::Medium]
    );
}

#[test]
fn tier_method_names() {
    assert_eq!(TierMethod::Absolute.display_name(), "Absolute");
    assert_eq!(TierMethod::Percentile.display_name(), "Percentile");
}

#[test]
fn run_state_and_table_action() {
    assert_ne!(State::Idle, State::Running);
    let a = TableAction {
        sort_change: Some((SortCol::Batch, true)),
        open_editor_idx: None,
    };
    assert_eq!(a.sort_change, Some((SortCol::Batch, true)));
    assert!(a.open_editor_idx.is_none());
}

use batch_acceptance_app::types::RejectReason::{CutOff, Generic, Manual, Rotation, Structure, Whitespace};
use batch_acceptance_app::types::{Label, RejectReason, SortCol};

#[test]
fn test_reject_reason_display() {
    assert_eq!(RejectReason::Whitespace.display_name(), "Whitespace");
    assert_eq!(RejectReason::Rotation.display_name(), "Rotation");
    assert_eq!(RejectReason::CutOff.display_name(), "Cutoff");
    assert_eq!(RejectReason::Structure.display_name(), "Structure");
    assert_eq!(RejectReason::Generic.display_name(), "Generic");
    assert_eq!(RejectReason::Manual.display_name(), "Manual");
}

#[test]
fn test_reject_reason_display_order() {
    let reasons = [Whitespace, Rotation, CutOff, Structure, Generic, Manual];
    for w in reasons.windows(2) {
        assert!(w[0].display_order() < w[1].display_order());
    }
}

#[test]
fn display_order_values() {
    assert_eq!(RejectReason::Whitespace.display_order(), 0);
    assert_eq!(RejectReason::Manual.display_order(), 5);
    assert_eq!(RejectReason::CutOff.display_order(), 2);
}

#[test]
fn label_is_reject() {
    assert!(!Label::Accept.is_reject());
    assert!(Label::Reject(RejectReason::Generic).is_reject());
    assert!(Label::Reject(RejectReason::Manual).is_reject());
}

#[test]
fn sort_col_default_is_p_combined() {
    assert_eq!(SortCol::default(), SortCol::PCombined);
}

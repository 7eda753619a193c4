use batch_acceptance_app::types::{RiskTier, SortCol};
use batch_acceptance_app::ui::{
    col_tooltip, count_tiers, format_batch, format_int, is_closed_shape, passes_filter, short_path, tier_long, tier_rank,
    tier_short,
};

#[test]
fn format_int_groups_thousands() {
    assert_eq!(format_int(0), "0");
    assert_eq!(format_int(7), "7");
    assert_eq!(format_int(999), "999");
    assert_eq!(format_int(1000), "1,000");
    assert_eq!(format_int(12345), "12,345");
    assert_eq!(format_int(1234567), "1,234,567");
    assert_eq!(format_int(100000), "100,000");
}

#[test]
fn tier_labels() {
    assert_eq!(tier_short(RiskTier::Low), "Low");
    assert_eq!(tier_short(RiskTier::Medium), "Med");
    assert_eq!(tier_short(RiskTier::High), "High");
    assert_eq!(tier_long(RiskTier::Medium), "Medium");
    assert_eq!(tier_long(RiskTier::High), "High");
    assert_eq!(tier_long(RiskTier::Low), "Low");
    assert!(tier_rank(RiskTier::High) < tier_rank(RiskTier::Medium));
    assert!(tier_rank(RiskTier::Medium) < tier_rank(RiskTier::Low));
}

#[test]
fn filter_by_tier_and_subject() {
    assert!(passes_filter(RiskTier::High, "Economics", None, ""));
    assert!(passes_filter(RiskTier::High, "Economics", Some(RiskTier::High), "eco"));
    assert!(!passes_filter(RiskTier::Low, "Economics", Some(RiskTier::High), ""));
    assert!(!passes_filter(RiskTier::High, "Economics", None, "math"));
    assert!(passes_filter(RiskTier::Medium, "MATH", None, "mat"));
    // the search text is expected lower-case already
    assert!(!passes_filter(RiskTier::Medium, "math", None, "MAT"));
}

#[test]
fn tooltips() {
    assert!(col_tooltip(SortCol::Risk).unwrap().contains("tier cutoffs"));
    assert!(col_tooltip(SortCol::Filename).unwrap().contains("Double-click"));
    assert!(col_tooltip(SortCol::Batch).is_none());
    assert!(col_tooltip(SortCol::Subject).is_none());
    assert!(col_tooltip(SortCol::PLogReg).is_some());
}

#[test]
fn closed_shapes() {
    assert!(is_closed_shape("rectangle"));
    assert!(is_closed_shape("polygon"));
    assert!(is_closed_shape("rotation"));
    assert!(!is_closed_shape("line"));
    assert!(!is_closed_shape("point"));
    assert!(!is_closed_shape("Rectangle"));
}

#[test]
fn short_paths() {
    assert_eq!(short_path("/a/b/c.json"), "c.json");
    assert_eq!(short_path("c.txt"), "c.txt");
    assert_eq!(short_path("/"), "/");
    assert_eq!(short_path("C:/POC_P2_20000_16/a.json"), "a.json");
    assert_eq!(short_path("rel/dir/b.txt"), "b.txt");
}

#[test]
fn batch_numbers_have_two_digits() {
    assert_eq!(format_batch(0), "00");
    assert_eq!(format_batch(7), "07");
    assert_eq!(format_batch(10), "10");
    assert_eq!(format_batch(123), "123");
    assert_eq!(format_batch(-1), "-1");
    assert_eq!(format_batch(-12), "-12");
    assert_eq!(format_batch(i32::MIN), "-2147483648");
}

#[test]
fn tier_counts_sum_to_rows() {
    let tiers = vec![
        RiskTier::High,
        RiskTier::Low,
        RiskTier::Low,
        RiskTier::Medium,
        RiskTier::Low,
    ];
    let c = count_tiers(&tiers);
    assert_eq!((c.low, c.medium, c.high), (3, 1, 1));
    assert_eq!(c.low + c.medium + c.high, tiers.len());
    let e = count_tiers(&vec![]);
    assert_eq!((e.low, e.medium, e.high), (0, 0, 0));
}

use batch_acceptance_app::parsing::{
    normalize_status, override_token, parse_txt_content, review_line, status_label_of,
};
use batch_acceptance_app::types::{Label, RejectReason};

#[test]
fn test_normalize_status() {
    assert_eq!(normalize_status("accept"), Some(Label::Accept));
    assert_eq!(
        normalize_status("reject-whitespace"),
        Some(Label::Reject(RejectReason::Whitespace))
    );
    assert_eq!(
        normalize_status("manual-reject-rotation"),
        Some(Label::Reject(RejectReason::Rotation))
    );
    assert_eq!(
        normalize_status("manual-reject-cutoff"),
        Some(Label::Reject(RejectReason::CutOff))
    );
    assert_eq!(
        normalize_status("manual-reject-unknown"),
        Some(Label::Reject(RejectReason::Manual))
    );
    assert_eq!(normalize_status("invalid"), None);
}

#[test]
fn normalize_status_legacy_and_case() {
    assert_eq!(normalize_status("  ACCEPT  "), Some(Label::Accept));
    assert_eq!(normalize_status("Accept-Cleared"), Some(Label::Accept));
    assert_eq!(
        normalize_status("reject-cleared"),
        Some(Label::Reject(RejectReason::Generic))
    );
    assert_eq!(
        normalize_status("region-reject because"),
        Some(Label::Reject(RejectReason::Generic))
    );
    assert_eq!(normalize_status("region-accept-x"), Some(Label::Accept));
    assert_eq!(
        normalize_status("Cut Off"),
        Some(Label::Reject(RejectReason::CutOff))
    );
    assert_eq!(
        normalize_status("reject-structure"),
        Some(Label::Reject(RejectReason::Structure))
    );
    assert_eq!(
        normalize_status("reject-rotation"),
        Some(Label::Reject(RejectReason::Rotation))
    );
    assert_eq!(normalize_status("manual-accept"), Some(Label::Accept));
    assert_eq!(
        normalize_status("manual-reject-cut-off"),
        Some(Label::Reject(RejectReason::CutOff))
    );
    assert_eq!(
        normalize_status("manual-reject-generic"),
        Some(Label::Reject(RejectReason::Generic))
    );
    assert_eq!(
        normalize_status("manual-reject-structure"),
        Some(Label::Reject(RejectReason::Structure))
    );
    assert_eq!(
        normalize_status("manual-reject-whitespace"),
        Some(Label::Reject(RejectReason::Whitespace))
    );
    assert_eq!(normalize_status(""), None);
    assert_eq!(normalize_status("reject-"), None);
    assert_eq!(normalize_status("acceptx"), None);
}

#[test]
fn status_label_needs_lowercase_input() {
    let up: Vec<char> = "ACCEPT".chars().collect();
    assert_eq!(status_label_of(&up), None);
    let low: Vec<char> = "accept".chars().collect();
    assert_eq!(status_label_of(&low), Some(Label::Accept));
}

#[test]
fn test_parse_txt() {
    let content = "01/01/2024 10:00:00-accept\n02/01/2024 11:00:00-reject-whitespace";
    let result = parse_txt_content(content);
    assert!(result.is_some());
    let (label, is_manual) = result.unwrap();
    assert_eq!(label, Label::Reject(RejectReason::Whitespace));
    assert!(!is_manual);
}

#[test]
fn test_parse_txt_manual_override() {
    let content = "01/01/2024 10:00:00-reject\n02/01/2024 11:00:00-manual-accept";
    let result = parse_txt_content(content);
    assert!(result.is_some());
    let (label, is_manual) = result.unwrap();
    assert_eq!(label, Label::Accept);
    assert!(is_manual);
}

#[test]
fn test_parse_txt_date_prefix_guard() {
    // "2024-01-01 some comment" has fewer than two colons before its first
    // '-' and is skipped; the valid line wins.
    let content = "2024-01-01 some comment\n01/01/2024 10:00:00-accept\n";
    let result = parse_txt_content(content);
    assert!(result.is_some());
    let (label, _) = result.unwrap();
    assert_eq!(label, Label::Accept);
}

#[test]
fn parse_txt_skips_invalid_trailing_lines() {
    let content = "01/01/2024 10:00:00-reject-rotation\r\n02/01/2024 11:00:00-bogus\r\n   \r\n";
    assert_eq!(
        parse_txt_content(content),
        Some((Label::Reject(RejectReason::Rotation), false))
    );
    assert_eq!(parse_txt_content(""), None);
    assert_eq!(parse_txt_content("no dash here\n"), None);
    assert_eq!(parse_txt_content("01/01/2024 10:00:00-   \n"), None);
    assert_eq!(parse_txt_content("2024-01-01 12:00-accept"), None);
}

#[test]
fn parse_txt_manual_flag_is_case_insensitive() {
    assert_eq!(
        parse_txt_content("01/01/2024 10:00:00-MANUAL-Reject-Structure"),
        Some((Label::Reject(RejectReason::Structure), true))
    );
}

#[test]
fn test_append_status_creates_file() {
    let line = review_line("15/05/2026 10:00:00", "accept");
    assert!(line.contains("-accept"));
    assert!(line.contains("/"));
    assert!(line.contains(":"));
    assert_eq!(line, "15/05/2026 10:00:00-accept\n");
}

#[test]
fn test_append_status_roundtrip_with_parse_txt() {
    let mut log = String::new();
    log.push_str(&review_line("01/01/2024 10:00:00", "reject-whitespace"));
    log.push_str(&review_line("01/01/2024 10:00:01", "manual-accept"));
    let (label, is_manual) = parse_txt_content(&log).unwrap();
    assert_eq!(label, Label::Accept);
    assert!(is_manual);
}

#[test]
fn test_append_status_manual_reject_roundtrip() {
    let log = review_line("01/01/2024 10:00:00", "manual-reject-rotation");
    let (label, is_manual) = parse_txt_content(&log).unwrap();
    assert_eq!(label, Label::Reject(RejectReason::Rotation));
    assert!(is_manual);
}

#[test]
fn test_append_status_multiple_lines_last_wins() {
    let mut log = String::new();
    log.push_str(&review_line("01/01/2024 10:00:00", "accept"));
    log.push_str(&review_line("01/01/2024 10:00:01", "reject"));
    log.push_str(&review_line("01/01/2024 10:00:02", "accept"));
    let (label, is_manual) = parse_txt_content(&log).unwrap();
    assert_eq!(label, Label::Accept);
    assert!(!is_manual);
}

#[test]
fn appended_line_wins_over_any_earlier_content() {
    let earlier = "2024-01-01 comment\n03/03/2024 09:00:00-reject-structure\n";
    let log = format!("{}{}", earlier, review_line("04/03/2024 09:00:00", "Cut Off"));
    assert_eq!(
        parse_txt_content(&log),
        Some((Label::Reject(RejectReason::CutOff), false))
    );
}

#[test]
fn override_tokens_read_back() {
    let labels = [
        Label::Accept,
        Label::Reject(RejectReason::Whitespace),
        Label::Reject(RejectReason::Rotation),
        Label::Reject(RejectReason::CutOff),
        Label::Reject(RejectReason::Structure),
        Label::Reject(RejectReason::Generic),
        Label::Reject(RejectReason::Manual),
    ];
    for l in labels {
        let token = override_token(l);
        assert!(token.starts_with("manual-"));
        let log = review_line("01/01/2024 10:00:00", &token);
        assert_eq!(parse_txt_content(&log), Some((l, true)));
    }
    assert_eq!(override_token(Label::Accept), "manual-accept");
    assert_eq!(
        override_token(Label::Reject(RejectReason::CutOff)),
        "manual-reject-cutoff"
    );
}

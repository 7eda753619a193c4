use batch_acceptance_app::pipeline::{
    check_classification, file_index_key, is_manual_override, scan_and_classify, FileKind,
    PipelineError, ScanInput,
};
use batch_acceptance_app::types::{FileEntry, Label, RejectReason};

fn name(i: usize) -> String {
    format!(
        "padded_china_junior-high-school_grade-1_math_exam_2025080418072{}_train_para1",
        i
    )
}

fn entry(i: usize, txt: Option<&str>, content: Option<&str>) -> ScanInput {
    let dir = "/data/POC_P2_20000_99";
    let stem = format!("{}/{}", dir, name(i));
    ScanInput {
        entry: FileEntry {
            stem: stem.clone(),
            json: Some(format!("{}.json", stem)),
            jpg: Some(format!("{}.jpg", stem)),
            txt: txt.map(|_| format!("{}.txt", stem)),
        },
        file_name: Some(name(i)),
        txt_content: content.map(|c| c.to_string()),
    }
}

#[test]
fn file_index_keys() {
    assert_eq!(
        file_index_key("a.json"),
        Some(("a".to_string(), FileKind::Json))
    );
    assert_eq!(
        file_index_key("b.c.JPG"),
        Some(("b.c".to_string(), FileKind::Jpg))
    );
    assert_eq!(file_index_key("log.Txt"), Some(("log".to_string(), FileKind::Txt)));
    assert_eq!(file_index_key(".json"), Some(("".to_string(), FileKind::Json)));
    assert_eq!(file_index_key("noext"), None);
    assert_eq!(file_index_key("x.png"), None);
    assert_eq!(file_index_key("x.json.bak"), None);
}

#[test]
fn file_entry_records_each_kind() {
    let mut e = FileEntry::new("s".to_string());
    e.set_file(FileKind::Jpg, "s.jpg".to_string());
    e.set_file(FileKind::Txt, "s.txt".to_string());
    assert_eq!(e.json, None);
    assert_eq!(e.jpg.as_deref(), Some("s.jpg"));
    assert_eq!(e.txt.as_deref(), Some("s.txt"));
    e.set_file(FileKind::Json, "s.json".to_string());
    assert_eq!(e.json.as_deref(), Some("s.json"));
}

#[test]
fn scan_splits_labeled_unprocessed_ambiguous() {
    let mut entries = vec![
        entry(0, Some("t"), Some("01/01/2024 10:00:00-accept\n")),
        entry(1, Some("t"), Some("01/01/2024 10:00:00-reject-whitespace\n")),
        entry(2, Some("t"), Some("01/01/2024 10:00:00-accept\n01/01/2024 11:00:00-manual-reject-rotation\n")),
        entry(3, None, None),
        entry(4, None, None),
        entry(5, Some("t"), Some("nothing useful\n")),
        entry(6, Some("t"), None),
    ];
    // an entry without a .json is ignored
    let mut no_json = entry(7, None, None);
    no_json.entry.json = None;
    entries.push(no_json);
    // an entry whose name does not follow the scheme is ignored
    let mut odd = entry(8, None, None);
    odd.file_name = Some("random".to_string());
    entries.push(odd);

    let c = scan_and_classify(&entries);
    assert_eq!(c.labeled.len(), 3);
    assert_eq!(c.unprocessed.len(), 2);
    assert_eq!(c.n_ambiguous, 2);
    // the seven counted entries are split without overlap
    assert_eq!(c.labeled.len() + c.unprocessed.len() + c.n_ambiguous, 7);
    assert_eq!(c.n_accept, 1);
    assert_eq!(c.n_reject, 2);
    assert_eq!(c.labeled[0].label, Label::Accept);
    assert_eq!(c.labeled[1].label, Label::Reject(RejectReason::Whitespace));
    assert_eq!(c.labeled[2].label, Label::Reject(RejectReason::Rotation));
    assert_eq!(c.labeled[0].meta.batch, 99);
    assert_eq!(c.labeled[0].meta.subject, "math");
    assert_eq!(c.manual_override_set.len(), 1);
    assert!(c.manual_override_set[0].ends_with(".txt"));
    assert!(is_manual_override(&entries[2].entry.txt, &c.manual_override_set));
    assert!(!is_manual_override(&entries[0].entry.txt, &c.manual_override_set));
    assert!(!is_manual_override(&None, &c.manual_override_set));
    assert!(check_classification(&c).is_ok());
}

#[test]
fn pipeline_requires_labeled_data() {
    let entries = vec![entry(0, None, None)];
    let c = scan_and_classify(&entries);
    let err = check_classification(&c).unwrap_err();
    assert_eq!(err, PipelineError::NoLabeled);
    assert!(err.message().contains("No labeled"));
}

#[test]
fn pipeline_requires_unprocessed_data() {
    let entries = vec![entry(0, Some("t"), Some("01/01/2024 10:00:00-accept"))];
    let c = scan_and_classify(&entries);
    let err = check_classification(&c).unwrap_err();
    assert_eq!(err, PipelineError::NoUnprocessed);
    assert!(err.message().contains("No unprocessed"));
}

#[test]
fn pipeline_detects_manual_overrides() {
    let entries = vec![
        entry(0, Some("t"), Some("15/05/2026 10:00:00-accept\n15/05/2026 11:00:00-manual-reject-whitespace\n")),
        entry(1, None, None),
    ];
    let c = scan_and_classify(&entries);
    assert_eq!(c.labeled.len(), 1);
    assert_eq!(c.labeled[0].label, Label::Reject(RejectReason::Whitespace));
    assert_eq!(c.manual_override_set.len(), 1);
    // the unprocessed file has no review log, so it is not overridden
    assert!(!is_manual_override(&entries[1].entry.txt, &c.manual_override_set));
}

use batch_acceptance_app::stem::{batch_number_of, parse_stem, parse_stem_name};

#[test]
fn test_parse_stem() {
    // The path must have the batch folder (POC_P2_20000_XX) as ancestor
    // so the batch number can be extracted.
    let stem = "C:/POC_P2_20000_16/padded_china_junior-high-school_grade-1_economics_history_202508041807235332_train_para1.json";
    let meta = parse_stem(stem);
    assert!(meta.is_some(), "parse_stem should succeed on a valid path");
    let m = meta.unwrap();
    assert_eq!(m.batch, 16, "batch extracted from folder name");
    assert_eq!(m.grade, "grade-1");
    assert_eq!(m.subject, "economics");
    assert_eq!(m.doc_type, "history");
}

#[test]
fn test_parse_stem_unknown_batch() {
    // No batch folder: batch defaults to -1
    let stem = "somewhere/padded_china_junior-high-school_grade-1_economics_history_202508041807235332_train_para1.json";
    let meta = parse_stem(stem);
    assert!(meta.is_some());
    assert_eq!(meta.unwrap().batch, -1);
}

#[test]
fn parse_stem_without_extension() {
    let stem = "/data/POC_P2_20000_07/padded_china_senior-high-school_grade-3_math_exam_123_test_para12";
    let m = parse_stem(stem).unwrap();
    assert_eq!(m.batch, 7);
    assert_eq!(m.grade, "grade-3");
    assert_eq!(m.subject, "math");
    assert_eq!(m.doc_type, "exam");
    assert_eq!(m.stem, stem);
}

#[test]
fn parse_stem_rejects_other_names() {
    let bad = [
        "x/padded_china_middle-high-school_grade-1_a_b_1_c_para1.json",
        "x/padded_china_junior-high-school_grade-12_a_b_1_c_para1.json",
        "x/padded_china_junior-high-school_grade-1_a_b_1x_c_para1.json",
        "x/padded_china_junior-high-school_grade-1_a_b_1_c_d_para1.json",
        "x/padded_china_junior-high-school_grade-1_a__1_c_para1.json",
        "x/padded_china_junior-high-school_grade-1_a_b_1_c_para.json",
        "x/padded_china_junior-high-school_grade-1_a_b_1_c_para1.jpg.json.x",
        "x/notes.json",
    ];
    for s in bad {
        assert!(parse_stem(s).is_none(), "{}", s);
    }
}

#[test]
fn parse_stem_name_uses_given_file_name() {
    let m = parse_stem_name(
        "D:/POC_P2_20000_3/whatever",
        "padded_china_junior-high-school_grade-2_bio_notes_9_train_para3",
    )
    .unwrap();
    assert_eq!(m.batch, 3);
    assert_eq!(m.grade, "grade-2");
    assert_eq!(m.subject, "bio");
    assert_eq!(m.doc_type, "notes");
    assert!(parse_stem_name("a", "nope").is_none());
}

#[test]
fn batch_number_edge_cases() {
    assert_eq!(batch_number_of("POC_P2_20000_5"), 5);
    assert_eq!(batch_number_of("a/POC_P2_20000_x/POC_P2_20000_42/b"), 42);
    assert_eq!(batch_number_of("POC_P2_20000_0099/x"), 99);
    assert_eq!(batch_number_of("POC_P2_20000_2147483647"), 2147483647);
    assert_eq!(batch_number_of("POC_P2_20000_2147483648"), -1);
    assert_eq!(batch_number_of("POC_P2_20000_99999999999999999999999"), -1);
    assert_eq!(batch_number_of("POC_P2_20000_"), -1);
    assert_eq!(batch_number_of(""), -1);
    assert_eq!(batch_number_of("POC_P2_2000_5"), -1);
}

#[test]
fn parse_stem_plain_relative_path() {
    let m = parse_stem(
        "data/POC_P2_20000_7/padded_china_senior-high-school_grade-2_physics_exam_123_test_para4",
    )
    .unwrap();
    assert_eq!(m.batch, 7);
    assert_eq!(m.grade, "grade-2");
    assert_eq!(m.subject, "physics");
    assert_eq!(m.doc_type, "exam");
    assert!(parse_stem("data/POC_P2_20000_7/not_a_dataset_name").is_none());
}

#[test]
fn unicode_decimal_digits_in_names() {
    // Arabic-Indic digits are decimal digits for the file-name grammar.
    let m = parse_stem(
        "data/POC_P2_20000_5/padded_china_junior-high-school_grade-\u{661}_math_exam_\u{662}\u{663}_train_para\u{664}",
    )
    .unwrap();
    assert_eq!(m.grade, "grade-\u{661}");
    assert_eq!(m.subject, "math");
    assert_eq!(m.batch, 5);
    // a letter is no digit
    assert!(parse_stem("data/padded_china_junior-high-school_grade-x_math_exam_1_train_para1").is_none());
}

#[test]
fn batch_with_non_ascii_digits_is_unknown() {
    // the leftmost marker followed by a digit decides; its digits do not
    // read as an i32, so the batch is unknown even though a later marker
    // has ASCII digits
    assert_eq!(batch_number_of("/d/POC_P2_20000_\u{661}\u{662}/POC_P2_20000_7/x"), -1);
    assert_eq!(batch_number_of("/d/POC_P2_20000_x/POC_P2_20000_7/x"), 7);
    assert_eq!(batch_number_of("/d/POC_P2_20000_12\u{663}/x"), -1);
}

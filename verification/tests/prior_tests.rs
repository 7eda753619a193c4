use batch_acceptance_app::prior::{cell_lookup, find_cell, fit_cells, CellCount};
use batch_acceptance_app::types::{Label, LabeledRow, Meta, RejectReason};

fn row(batch: i32, subject: &str, label: Label) -> LabeledRow {
    LabeledRow {
        meta: Meta {
            stem: format!("/d/{}_{}", batch, subject),
            grade: "grade-1".to_string(),
            subject: subject.to_string(),
            doc_type: "history".to_string(),
            batch,
        },
        label,
    }
}

#[test]
fn cells_count_rows_per_batch_and_subject() {
    let rows = vec![
        row(1, "math", Label::Accept),
        row(1, "math", Label::Reject(RejectReason::Rotation)),
        row(1, "math", Label::Accept),
        row(2, "math", Label::Accept),
        row(1, "economics", Label::Reject(RejectReason::Generic)),
    ];
    let mut cells: Vec<CellCount> = Vec::new();
    fit_cells(&mut cells, &rows);
    assert_eq!(cells.len(), 3);
    assert_eq!(cell_lookup(&cells, 1, &"math".to_string()), (2, 3));
    assert_eq!(cell_lookup(&cells, 2, &"math".to_string()), (1, 1));
    assert_eq!(cell_lookup(&cells, 1, &"economics".to_string()), (0, 1));
    // a cell that was never seen
    assert_eq!(cell_lookup(&cells, 3, &"math".to_string()), (0, 0));
    assert_eq!(find_cell(&cells, 3, &"math".to_string()), None);
}

#[test]
fn fitting_again_adds_to_the_counts() {
    let mut cells: Vec<CellCount> = Vec::new();
    fit_cells(&mut cells, &vec![row(5, "art", Label::Accept)]);
    fit_cells(
        &mut cells,
        &vec![row(5, "art", Label::Reject(RejectReason::CutOff)), row(6, "art", Label::Accept)],
    );
    assert_eq!(cell_lookup(&cells, 5, &"art".to_string()), (1, 2));
    assert_eq!(cell_lookup(&cells, 6, &"art".to_string()), (1, 1));
    assert_eq!(cells.len(), 2);
}

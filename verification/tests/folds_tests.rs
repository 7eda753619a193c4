use batch_acceptance_app::folds::{fold_bounds, reject_reason_counts, split_fold};
use batch_acceptance_app::types::{Label, RejectReason};

#[test]
fn fold_bounds_cover_rows() {
    assert_eq!(fold_bounds(10, 5, 0), (0, 2));
    assert_eq!(fold_bounds(10, 5, 4), (8, 10));
    assert_eq!(fold_bounds(12, 5, 3), (6, 8));
    assert_eq!(fold_bounds(12, 5, 4), (8, 12));
    // fewer rows than folds: only the last fold holds rows
    assert_eq!(fold_bounds(3, 5, 0), (0, 0));
    assert_eq!(fold_bounds(3, 5, 4), (0, 3));
    for n in 0..40usize {
        for k in 1..7usize {
            let mut next = 0;
            for f in 0..k {
                let (s, e) = fold_bounds(n, k, f);
                assert_eq!(s, next);
                assert!(s <= e);
                next = e;
            }
            assert_eq!(next, n);
        }
    }
}

#[test]
fn split_fold_positions() {
    let idx = vec![5, 6, 7, 8, 9];
    let (train, val) = split_fold(&idx, 1, 3);
    assert_eq!(val, vec![6, 7]);
    assert_eq!(train, vec![5, 8, 9]);
    let (train, val) = split_fold(&idx, 0, 5);
    assert!(train.is_empty());
    assert_eq!(val, idx);
}

#[test]
fn reject_counts_by_reason() {
    let rows = vec![
        (Label::Reject(RejectReason::Rotation), true),
        (Label::Reject(RejectReason::Rotation), false),
        (Label::Accept, true),
        (Label::Reject(RejectReason::Manual), true),
    ];
    let c = reject_reason_counts(&rows);
    assert_eq!(c.len(), 6);
    let rotation = RejectReason::Rotation.display_order() as usize;
    let manual = RejectReason::Manual.display_order() as usize;
    assert_eq!(c[rotation], (1, 2));
    assert_eq!(c[manual], (1, 1));
    let total: usize = c.iter().map(|p| p.1).sum();
    assert_eq!(total, 3);
}

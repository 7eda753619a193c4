//! Fold layout of k-fold cross-validation: which slice of the labeled rows is
//! held out in each fold, and how a fold splits the rows into training and
//! validation sets, and the per-reason reject counts pooled across folds.
use crate::types::{reason_order, Label, RejectReason};
use vstd::prelude::*;

verus! {

/// Held-out slice `[start, end)` of fold `fold` among `n` rows split into `k`
/// folds of `n / k` rows; the last fold also takes the remainder.
pub open spec fn fold_bounds_spec(n: nat, k: nat, fold: nat) -> (nat, nat) {
    let size = n / k;
    let start = fold * size;
    let end = if fold == k - 1 {
        n
    } else {
        start + size
    };
    (start, end)
}

/// Bounds of the validation slice of fold `fold` (see `fold_bounds_spec`).
pub fn fold_bounds(n: usize, k: usize, fold: usize) -> (r: (usize, usize))
    requires
        0 < k,
        fold < k,
    ensures
        r.0 == fold_bounds_spec(n as nat, k as nat, fold as nat).0,
        r.1 == fold_bounds_spec(n as nat, k as nat, fold as nat).1,
        r.0 <= r.1 <= n,
{
    let size: usize = n / k;
    proof {
        lemma_fold_start_bound(n as nat, k as nat, fold as nat);
    }
    let start: usize = fold * size;
    let end: usize = if fold == k - 1 {
        n
    } else {
        start + size
    };
    (start, end)
}

proof fn lemma_fold_start_bound(n: nat, k: nat, fold: nat)
    requires
        0 < k,
        fold < k,
    ensures
        fold * (n / k) + n / k <= n || fold == k - 1,
        fold * (n / k) <= n,
        fold < k - 1 ==> fold * (n / k) + n / k <= n,
{
    let size = n / k;
    assert(size * k <= n) by (nonlinear_arith)
        requires
            size == n / k,
            k > 0,
    ;
    assert(fold * size <= (k - 1) * size) by (nonlinear_arith)
        requires
            fold <= k - 1,
    ;
    assert((k - 1) * size + size == k * size) by (nonlinear_arith);
    assert(k * size == size * k) by (nonlinear_arith);
}

/// The folds tile the rows: fold 0 starts at 0, each fold ends where the next
/// starts, the last ends at `n`, and every row lies in exactly one fold's
/// validation slice.
pub proof fn lemma_folds_partition(n: nat, k: nat, row: nat, f: nat, g: nat)
    requires
        0 < k,
        f < k,
        g < k,
    ensures
        fold_bounds_spec(n, k, 0).0 == 0,
        fold_bounds_spec(n, k, (k - 1) as nat).1 == n,
        f + 1 < k ==> fold_bounds_spec(n, k, f).1 == fold_bounds_spec(n, k, f + 1).0,
        fold_bounds_spec(n, k, f).0 <= fold_bounds_spec(n, k, f).1,
        ({
            let (fs, fe) = fold_bounds_spec(n, k, f);
            let (gs, ge) = fold_bounds_spec(n, k, g);
            fs <= row < fe && gs <= row < ge ==> f == g
        }),
        row < n ==> exists|h: nat|
            h < k && fold_bounds_spec(n, k, h).0 <= row < #[trigger] fold_bounds_spec(n, k, h).1,
{
    let size = n / k;
    lemma_fold_start_bound(n, k, f);
    lemma_fold_start_bound(n, k, g);
    assert((f + 1) * size == f * size + size) by (nonlinear_arith);
    // distinct folds have disjoint slices: the earlier one ends before the later starts
    if f < g {
        assert(f * size + size <= g * size) by (nonlinear_arith)
            requires
                f + 1 <= g,
        ;
    } else if g < f {
        assert(g * size + size <= f * size) by (nonlinear_arith)
            requires
                g + 1 <= f,
        ;
    }
    if row < n {
        if size == 0 {
            assert(fold_bounds_spec(n, k, (k - 1) as nat).0 == 0) by {
                assert((k - 1) * 0 == 0) by (nonlinear_arith);
            }
            assert(fold_bounds_spec(n, k, (k - 1) as nat).1 == n);
        } else {
            let q = row / size;
            let h: nat = if q < k - 1 {
                q
            } else {
                (k - 1) as nat
            };
            assert(q * size <= row < q * size + size) by (nonlinear_arith)
                requires
                    q == row / size,
                    size > 0,
            ;
            lemma_fold_start_bound(n, k, h);
            if q < k - 1 {
                assert(fold_bounds_spec(n, k, h).0 <= row < fold_bounds_spec(n, k, h).1);
            } else {
                assert(h * size <= q * size) by (nonlinear_arith)
                    requires
                        h <= q,
                ;
                assert(fold_bounds_spec(n, k, h).0 <= row < fold_bounds_spec(n, k, h).1);
            }
        }
    }
}

/// Positions `[start, end)` of `indices` are the validation rows of the fold;
/// all other positions, in order, are its training rows.
pub fn split_fold(indices: &Vec<usize>, start: usize, end: usize) -> (r: (Vec<usize>, Vec<usize>))
    requires
        start <= end <= indices.len(),
    ensures
        r.0@ == indices@.subrange(0, start as int) + indices@.subrange(end as int, indices@.len() as int),
        r.1@ == indices@.subrange(start as int, end as int),
{
    let mut train: Vec<usize> = Vec::new();
    let mut val: Vec<usize> = Vec::new();
    let mut i: usize = 0;
    while i < indices.len()
        invariant
            i <= indices.len(),
            start <= end <= indices.len(),
            train@ == if i <= start {
                indices@.subrange(0, i as int)
            } else if i <= end {
                indices@.subrange(0, start as int)
            } else {
                indices@.subrange(0, start as int) + indices@.subrange(end as int, i as int)
            },
            val@ == if i <= start {
                Seq::<usize>::empty()
            } else if i <= end {
                indices@.subrange(start as int, i as int)
            } else {
                indices@.subrange(start as int, end as int)
            },
        decreases indices.len() - i,
    {
        if i >= start && i < end {
            val.push(indices[i]);
        } else {
            train.push(indices[i]);
        }
        i = i + 1;
        assert(indices@.subrange(0, i as int) =~= indices@.subrange(0, i - 1).push(
            indices@[i - 1],
        ));
        if i > start {
            assert(indices@.subrange(start as int, i as int) =~= indices@.subrange(
                start as int,
                i - 1,
            ).push(indices@[i - 1]));
        }
        if i > end {
            assert(indices@.subrange(end as int, i as int) =~= indices@.subrange(
                end as int,
                i - 1,
            ).push(indices@[i - 1]));
        }
        assert(indices@.subrange(start as int, start as int) =~= Seq::<usize>::empty());
        assert(indices@.subrange(end as int, end as int) =~= Seq::<usize>::empty());
        assert(indices@.subrange(0, start as int) + Seq::<usize>::empty() =~= indices@.subrange(
            0,
            start as int,
        ));
    }
    (train, val)
}

// ---------------------------------------------------------------------------
// Per-reason reject counts
// ---------------------------------------------------------------------------

/// Number of rows rejected for `r`.
pub open spec fn reject_actual(rows: Seq<(Label, bool)>, r: RejectReason) -> nat
    decreases rows.len(),
{
    if rows.len() == 0 {
        0
    } else {
        reject_actual(rows.drop_last(), r) + if rows.last().0 == Label::Reject(r) {
            1nat
        } else {
            0nat
        }
    }
}

/// Number of rows rejected for `r` that the model also predicted as rejects.
pub open spec fn reject_caught(rows: Seq<(Label, bool)>, r: RejectReason) -> nat
    decreases rows.len(),
{
    if rows.len() == 0 {
        0
    } else {
        reject_caught(rows.drop_last(), r) + if rows.last().0 == Label::Reject(r)
            && rows.last().1 {
            1nat
        } else {
            0nat
        }
    }
}

pub proof fn lemma_caught_le_actual(rows: Seq<(Label, bool)>, r: RejectReason)
    ensures
        reject_caught(rows, r) <= reject_actual(rows, r) <= rows.len(),
    decreases rows.len(),
{
    if rows.len() > 0 {
        lemma_caught_le_actual(rows.drop_last(), r);
    }
}

/// For each reject reason, at the index `display_order` gives it, the pair
/// `(caught, actual)`: how many of the rows rejected for that reason the
/// model also predicted as rejects, and how many rows were rejected for that
/// reason. Each row is a label and whether the model predicted a reject for
/// it.
pub fn reject_reason_counts(rows: &Vec<(Label, bool)>) -> (c: Vec<(usize, usize)>)
    ensures
        c@.len() == 6,
        forall|r: RejectReason| #![trigger reason_order(r)]
            c@[reason_order(r) as int] == (
                reject_caught(rows@, r) as usize,
                reject_actual(rows@, r) as usize,
            ),
        forall|r: RejectReason|
            reject_caught(rows@, r) <= #[trigger] reject_actual(rows@, r) <= rows@.len(),
{
    let mut c: Vec<(usize, usize)> = Vec::new();
    let mut k: usize = 0;
    while k < 6
        invariant
            k <= 6,
            c@.len() == k,
            forall|j: int| 0 <= j < k ==> c@[j] == (0usize, 0usize),
        decreases 6 - k,
    {
        c.push((0, 0));
        k = k + 1;
    }
    let mut i: usize = 0;
    while i < rows.len()
        invariant
            i <= rows.len(),
            c@.len() == 6,
            forall|r: RejectReason| #![trigger reason_order(r)]
                c@[reason_order(r) as int] == (
                    reject_caught(rows@.take(i as int), r) as usize,
                    reject_actual(rows@.take(i as int), r) as usize,
                ),
        decreases rows.len() - i,
    {
        let ghost pre = rows@.take(i as int);
        let ghost cur = rows@.take(i + 1);
        assert(cur.drop_last() =~= pre);
        assert(cur.last() == rows@[i as int]);
        let row = rows[i];
        match row.0 {
            Label::Reject(reason) => {
                let o: usize = reason.display_order() as usize;
                proof {
                    lemma_caught_le_actual(pre, reason);
                }
                let old_pair = c[o];
                let caught: usize = if row.1 {
                    old_pair.0 + 1
                } else {
                    old_pair.0
                };
                c.set(o, (caught, old_pair.1 + 1));
                assert forall|r: RejectReason| #![trigger reason_order(r)]
                    c@[reason_order(r) as int] == (
                        reject_caught(cur, r) as usize,
                        reject_actual(cur, r) as usize,
                    ) by {
                    if r != reason {
                        assert(reason_order(r) != reason_order(reason));
                    }
                }
            },
            Label::Accept => {},
        }
        i = i + 1;
    }
    assert(rows@.take(rows.len() as int) =~= rows@);
    assert forall|r: RejectReason|
        reject_caught(rows@, r) <= #[trigger] reject_actual(rows@, r) <= rows@.len() by {
        lemma_caught_le_actual(rows@, r);
    }
    c
}

} // verus!

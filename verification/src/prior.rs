//! Review counts per (batch, subject) cell: the data behind the smoothed
//! acceptance prior. Each cell counts the labeled rows of its batch and
//! subject, and how many of them were accepted.
use crate::types::{Label, LabeledRow};
use vstd::prelude::*;

verus! {

/// Counts of one (batch, subject) cell.
#[derive(Debug)]
pub struct CellCount {
    pub batch: i32,
    pub subject: String,
    pub n_accept: u32,
    pub n_total: u32,
}

/// `(accepted, total)` among the rows of batch `b` and subject `s`.
pub open spec fn cell_counts(rows: Seq<LabeledRow>, b: i32, s: Seq<char>) -> (nat, nat)
    decreases rows.len(),
{
    if rows.len() == 0 {
        (0, 0)
    } else {
        let prev = cell_counts(rows.drop_last(), b, s);
        let r = rows.last();
        if r.meta.batch == b && r.meta.subject@ == s {
            (if r.label == Label::Accept {
                prev.0 + 1
            } else {
                prev.0
            }, prev.1 + 1)
        } else {
            prev
        }
    }
}

/// Cell `c` is the one of batch `b` and subject `s`.
pub open spec fn has_key(c: CellCount, b: i32, s: Seq<char>) -> bool {
    c.batch == b && c.subject@ == s
}

/// `(accepted, total)` stored for batch `b` and subject `s` (the last cell
/// with that key; `(0, 0)` when there is none).
pub open spec fn lookup(cells: Seq<CellCount>, b: i32, s: Seq<char>) -> (nat, nat)
    decreases cells.len(),
{
    if cells.len() == 0 {
        (0, 0)
    } else if has_key(cells.last(), b, s) {
        (cells.last().n_accept as nat, cells.last().n_total as nat)
    } else {
        lookup(cells.drop_last(), b, s)
    }
}

/// No two cells share a key, and no cell has more accepts than rows.
pub open spec fn cells_wf(cells: Seq<CellCount>) -> bool {
    &&& forall|i: int, j: int|
        #![trigger cells[i], cells[j]]
        0 <= i < j < cells.len() ==> !has_key(cells[i], cells[j].batch, cells[j].subject@)
    &&& forall|i: int| 0 <= i < cells.len() ==> #[trigger] cells[i].n_accept <= cells[i].n_total
}

pub proof fn lemma_cell_counts_bound(rows: Seq<LabeledRow>, b: i32, s: Seq<char>)
    ensures
        cell_counts(rows, b, s).0 <= cell_counts(rows, b, s).1 <= rows.len(),
    decreases rows.len(),
{
    if rows.len() > 0 {
        lemma_cell_counts_bound(rows.drop_last(), b, s);
    }
}

proof fn lemma_lookup_none(cells: Seq<CellCount>, b: i32, s: Seq<char>)
    requires
        forall|i: int| 0 <= i < cells.len() ==> !has_key(#[trigger] cells[i], b, s),
    ensures
        lookup(cells, b, s) == (0nat, 0nat),
    decreases cells.len(),
{
    if cells.len() > 0 {
        assert(!has_key(cells[cells.len() - 1], b, s));
        lemma_lookup_none(cells.drop_last(), b, s);
    }
}

proof fn lemma_lookup_at(cells: Seq<CellCount>, j: int)
    requires
        cells_wf(cells),
        0 <= j < cells.len(),
    ensures
        lookup(cells, cells[j].batch, cells[j].subject@) == (
            cells[j].n_accept as nat,
            cells[j].n_total as nat,
        ),
    decreases cells.len(),
{
    let last = cells.len() - 1;
    if j < last {
        assert(!has_key(cells[last], cells[j].batch, cells[j].subject@)) by {
            assert(!has_key(cells[j], cells[last].batch, cells[last].subject@));
        }
        let d = cells.drop_last();
        assert(cells_wf(d)) by {
            assert forall|i: int, k: int| 0 <= i < k < d.len() implies !has_key(
                #[trigger] d[i],
                #[trigger] d[k].batch,
                d[k].subject@,
            ) by {
                assert(d[i] == cells[i] && d[k] == cells[k]);
            }
            assert forall|i: int| 0 <= i < d.len() implies #[trigger] d[i].n_accept
                <= d[i].n_total by {
                assert(d[i] == cells[i]);
            }
        }
        lemma_lookup_at(d, j);
        assert(d[j] == cells[j]);
    }
}

/// Where in `cells` the cell of batch `b` and subject `s` lies, looking from
/// the end.
pub fn find_cell(cells: &Vec<CellCount>, b: i32, s: &String) -> (r: Option<usize>)
    ensures
        match r {
            Some(j) => j < cells@.len() && has_key(cells@[j as int], b, s@) && forall|i: int|
                j < i < cells@.len() ==> !has_key(#[trigger] cells@[i], b, s@),
            None => forall|i: int| 0 <= i < cells@.len() ==> !has_key(#[trigger] cells@[i], b, s@),
        },
{
    let mut k: usize = cells.len();
    while k > 0
        invariant
            k <= cells@.len(),
            forall|i: int| k <= i < cells@.len() ==> !has_key(#[trigger] cells@[i], b, s@),
        decreases k,
    {
        let c = &cells[k - 1];
        let same_subject: bool = c.subject == *s;
        if c.batch == b && same_subject {
            return Some(k - 1);
        }
        k = k - 1;
    }
    None
}

proof fn lemma_lookup_last_match(cells: Seq<CellCount>, b: i32, s: Seq<char>, j: int)
    requires
        0 <= j < cells.len(),
        has_key(cells[j], b, s),
        forall|i: int| j < i < cells.len() ==> !has_key(#[trigger] cells[i], b, s),
    ensures
        lookup(cells, b, s) == (cells[j].n_accept as nat, cells[j].n_total as nat),
    decreases cells.len(),
{
    if j < cells.len() - 1 {
        assert(!has_key(cells[cells.len() - 1], b, s));
        let d = cells.drop_last();
        assert forall|i: int| j < i < d.len() implies !has_key(#[trigger] d[i], b, s) by {
            assert(d[i] == cells[i]);
        }
        lemma_lookup_last_match(d, b, s, j);
    }
}

/// The counts stored for batch `b` and subject `s`, `(0, 0)` for a cell
/// that was never seen.
pub fn cell_lookup(cells: &Vec<CellCount>, b: i32, s: &String) -> (r: (u32, u32))
    ensures
        r.0 as nat == lookup(cells@, b, s@).0,
        r.1 as nat == lookup(cells@, b, s@).1,
{
    match find_cell(cells, b, s) {
        Some(j) => {
            proof {
                lemma_lookup_last_match(cells@, b, s@, j as int);
            }
            (cells[j].n_accept, cells[j].n_total)
        },
        None => {
            proof {
                lemma_lookup_none(cells@, b, s@);
            }
            (0, 0)
        },
    }
}

/// Adds the labeled rows to the cell counts: afterwards each (batch,
/// subject) cell holds its earlier counts plus those of `labeled`.
pub fn fit_cells(cells: &mut Vec<CellCount>, labeled: &Vec<LabeledRow>)
    requires
        cells_wf(old(cells)@),
        forall|i: int|
            0 <= i < old(cells)@.len() ==> #[trigger] old(cells)@[i].n_total + labeled@.len()
                <= u32::MAX,
        labeled@.len() <= u32::MAX,
    ensures
        cells_wf(final(cells)@),
        forall|b: i32, s: Seq<char>| #[trigger]
            lookup(final(cells)@, b, s) == (
                lookup(old(cells)@, b, s).0 + cell_counts(labeled@, b, s).0,
                lookup(old(cells)@, b, s).1 + cell_counts(labeled@, b, s).1,
            ),
{
    let ghost orig = cells@;
    let mut i: usize = 0;
    while i < labeled.len()
        invariant
            i <= labeled@.len(),
            labeled@.len() <= u32::MAX,
            cells_wf(cells@),
            forall|b: i32, s: Seq<char>| #[trigger]
                lookup(cells@, b, s) == (
                    lookup(orig, b, s).0 + cell_counts(labeled@.take(i as int), b, s).0,
                    lookup(orig, b, s).1 + cell_counts(labeled@.take(i as int), b, s).1,
                ),
            forall|j: int|
                0 <= j < cells@.len() ==> #[trigger] cells@[j].n_total + labeled@.len() - i
                    <= u32::MAX,
            forall|j: int|
                0 <= j < orig.len() ==> #[trigger] orig[j].n_total + labeled@.len() <= u32::MAX,
        decreases labeled@.len() - i,
    {
        let ghost pre = cells@;
        let ghost rows = labeled@.take(i as int);
        let ghost rows1 = labeled@.take(i + 1);
        assert(rows1.drop_last() =~= rows);
        assert(rows1.last() == labeled@[i as int]);
        let row = &labeled[i];
        let accepted: bool = row.label == Label::Accept;
        let ghost rb = row.meta.batch;
        let ghost rs = row.meta.subject@;
        match find_cell(cells, row.meta.batch, &row.meta.subject) {
            Some(j) => {
                proof {
                    lemma_lookup_last_match(pre, rb, rs, j as int);
                }
                let n_acc: u32 = cells[j].n_accept;
                let n_tot: u32 = cells[j].n_total;
                let bj: i32 = cells[j].batch;
                let sj: String = cells[j].subject.clone();
                let new_acc: u32 = if accepted {
                    n_acc + 1
                } else {
                    n_acc
                };
                let cell = CellCount { batch: bj, subject: sj, n_accept: new_acc, n_total: n_tot + 1 };
                cells.set(j, cell);
                proof {
                    let post = cells@;
                    assert(post[j as int].subject@ == pre[j as int].subject@);
                    assert forall|a: int, c: int|
                        #![trigger post[a], post[c]]
                        0 <= a < c < post.len() implies !has_key(
                        post[a],
                        post[c].batch,
                        post[c].subject@,
                    ) by {
                        assert(has_key(pre[a], post[a].batch, post[a].subject@));
                        assert(has_key(pre[c], post[c].batch, post[c].subject@));
                        assert(!has_key(pre[a], pre[c].batch, pre[c].subject@));
                    }
                    assert forall|a: int| 0 <= a < post.len() implies #[trigger] post[a].n_accept
                        <= post[a].n_total by {
                        if a != j {
                            assert(post[a] == pre[a]);
                        }
                    }
                    assert forall|b: i32, s: Seq<char>| #[trigger]
                        lookup(post, b, s) == (
                            lookup(orig, b, s).0 + cell_counts(rows1, b, s).0,
                            lookup(orig, b, s).1 + cell_counts(rows1, b, s).1,
                        ) by {
                        if b == rb && s == rs {
                            lemma_lookup_at(post, j as int);
                        } else {
                            assert(lookup(pre, b, s) == lookup(post, b, s)) by {
                                if exists|a: int| 0 <= a < pre.len() && has_key(#[trigger] pre[a], b, s) {
                                    let a = choose|a: int| 0 <= a < pre.len() && has_key(#[trigger] pre[a], b, s);
                                    assert(a != j);
                                    assert(post[a] == pre[a]);
                                    lemma_lookup_at(pre, a);
                                    lemma_lookup_at(post, a);
                                } else {
                                    lemma_lookup_none(pre, b, s);
                                    assert forall|a: int| 0 <= a < post.len() implies !has_key(
                                        #[trigger] post[a],
                                        b,
                                        s,
                                    ) by {
                                        if a != j {
                                            assert(post[a] == pre[a]);
                                        }
                                    }
                                    lemma_lookup_none(post, b, s);
                                }
                            }
                        }
                    }
                    assert forall|a: int| 0 <= a < post.len() implies #[trigger] post[a].n_total
                        + labeled@.len() - (i + 1) <= u32::MAX by {
                        if a != j {
                            assert(post[a] == pre[a]);
                        }
                    }
                }
            },
            None => {
                proof {
                    lemma_lookup_none(pre, rb, rs);
                }
                let cell = CellCount {
                    batch: row.meta.batch,
                    subject: row.meta.subject.clone(),
                    n_accept: if accepted {
                        1
                    } else {
                        0
                    },
                    n_total: 1,
                };
                let ghost gcell = cell;
                cells.push(cell);
                proof {
                    let post = cells@;
                    assert(post.drop_last() =~= pre);
                    assert forall|a: int, c: int|
                        #![trigger post[a], post[c]]
                        0 <= a < c < post.len() implies !has_key(
                        post[a],
                        post[c].batch,
                        post[c].subject@,
                    ) by {
                        assert(post[a] == pre[a]);
                        if c < pre.len() {
                            assert(post[c] == pre[c]);
                        }
                    }
                    assert forall|a: int| 0 <= a < post.len() implies #[trigger] post[a].n_accept
                        <= post[a].n_total by {
                        if a < pre.len() {
                            assert(post[a] == pre[a]);
                        }
                    }
                    assert forall|b: i32, s: Seq<char>| #[trigger]
                        lookup(post, b, s) == (
                            lookup(orig, b, s).0 + cell_counts(rows1, b, s).0,
                            lookup(orig, b, s).1 + cell_counts(rows1, b, s).1,
                        ) by {
                        assert(post.last() == gcell);
                        assert(lookup(pre, b, s) == (
                            lookup(orig, b, s).0 + cell_counts(rows, b, s).0,
                            lookup(orig, b, s).1 + cell_counts(rows, b, s).1,
                        ));
                        if b == rb && s == rs {
                            assert(lookup(post, b, s) == (gcell.n_accept as nat, 1nat));
                        } else {
                            assert(lookup(post, b, s) == lookup(pre, b, s));
                        }
                    }
                    assert forall|a: int| 0 <= a < post.len() implies #[trigger] post[a].n_total
                        + labeled@.len() - (i + 1) <= u32::MAX by {
                        if a < pre.len() {
                            assert(post[a] == pre[a]);
                        }
                    }
                }
            },
        }
        i = i + 1;
    }
    assert(labeled@.take(labeled@.len() as int) =~= labeled@);
}

} // verus!

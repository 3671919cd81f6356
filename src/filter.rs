use vstd::prelude::*;

use crate::cell::{cell_text, display, Cell};
use crate::text::{chars_of, contains_chars, has_infix, lower_of, lowercase};

verus! {

/// The filter text typed for one column of a table.
#[derive(Clone, Debug)]
pub struct ColumnFilter {
    pub column: usize,
    pub text: String,
}

/// A filter takes part only when its text is not empty.
pub open spec fn is_active(f: ColumnFilter) -> bool {
    f.text@.len() > 0
}

/// A cell passes a filter text when it is not `Null` and its shown text, in lower case, holds
/// the filter text in lower case.
pub open spec fn cell_passes(c: Cell, text: Seq<char>) -> bool {
    !(c is Null) && has_infix(lower_of(display(c)), lower_of(text))
}

/// A row passes when its cell passes every active filter.
pub open spec fn row_passes(row: Seq<Cell>, filters: Seq<ColumnFilter>) -> bool {
    forall|k: int|
        0 <= k < filters.len() && is_active(#[trigger] filters[k]) ==> cell_passes(
            row[filters[k].column as int],
            filters[k].text@,
        )
}

/// Every filter names a column that each row has.
pub open spec fn filters_fit(rows: Seq<Vec<Cell>>, filters: Seq<ColumnFilter>) -> bool {
    forall|i: int, k: int|
        0 <= i < rows.len() && 0 <= k < filters.len() ==> (#[trigger] filters[k]).column
            < (#[trigger] rows[i])@.len()
}

/// The row numbers of `cand` whose rows pass, in the order of `cand`.
pub open spec fn select(rows: Seq<Vec<Cell>>, cand: Seq<usize>, filters: Seq<ColumnFilter>) -> Seq<
    usize,
>
    decreases cand.len(),
{
    if cand.len() == 0 {
        Seq::empty()
    } else {
        let prev = select(rows, cand.drop_last(), filters);
        if row_passes(rows[cand.last() as int]@, filters) {
            prev.push(cand.last())
        } else {
            prev
        }
    }
}

/// The row numbers `0..n`, in order.
pub open spec fn all_rows(n: nat) -> Seq<usize> {
    Seq::new(n, |i: int| i as usize)
}

/// The row numbers of the rows that pass, in their original order.
pub open spec fn filtered(rows: Seq<Vec<Cell>>, filters: Seq<ColumnFilter>) -> Seq<usize> {
    select(rows, all_rows(rows.len()), filters)
}

/// The filters with their texts in lower case, and whether each takes part.
fn fold_filters(filters: &Vec<ColumnFilter>) -> (r: Vec<(usize, bool, Vec<char>)>)
    ensures
        r.len() == filters.len(),
        forall|k: int|
            0 <= k < r.len() ==> {
                &&& (#[trigger] r[k]).0 == filters[k].column
                &&& r[k].1 == is_active(filters[k])
                &&& r[k].2@ == lower_of(filters[k].text@)
            },
{
    let mut r: Vec<(usize, bool, Vec<char>)> = Vec::new();
    for k in 0..filters.len()
        invariant
            r.len() == k,
            forall|m: int|
                0 <= m < k ==> {
                    &&& (#[trigger] r[m]).0 == filters[m].column
                    &&& r[m].1 == is_active(filters[m])
                    &&& r[m].2@ == lower_of(filters[m].text@)
                },
    {
        let f = &filters[k];
        let low = lowercase(f.text.as_str());
        let active = !f.text.as_str().is_empty();
        r.push((f.column, active, chars_of(low.as_str())));
    }
    r
}

/// Whether a cell passes a filter, given the cell's shown text and the filter text, both in
/// lower case.
pub fn cell_passes_folded(c: &Cell, folded_cell: &Vec<char>, folded_filter: &Vec<char>) -> (r:
    bool)
    ensures
        r == (!(*c is Null) && has_infix(folded_cell@, folded_filter@)),
{
    match c {
        Cell::Null => false,
        _ => contains_chars(folded_cell, folded_filter),
    }
}

fn row_ok(row: &Vec<Cell>, folded: &Vec<(usize, bool, Vec<char>)>, filters: &Vec<ColumnFilter>) -> (r:
    bool)
    requires
        folded.len() == filters.len(),
        forall|k: int|
            0 <= k < folded.len() ==> {
                &&& (#[trigger] folded[k]).0 == filters[k].column
                &&& folded[k].1 == is_active(filters[k])
                &&& folded[k].2@ == lower_of(filters[k].text@)
            },
        forall|k: int| 0 <= k < filters.len() ==> (#[trigger] filters[k]).column < row.len(),
    ensures
        r == row_passes(row@, filters@),
{
    let mut k: usize = 0;
    while k < folded.len()
        invariant
            k <= folded.len(),
            folded.len() == filters.len(),
            forall|m: int|
                0 <= m < folded.len() ==> {
                    &&& (#[trigger] folded[m]).0 == filters[m].column
                    &&& folded[m].1 == is_active(filters[m])
                    &&& folded[m].2@ == lower_of(filters[m].text@)
                },
            forall|m: int| 0 <= m < filters.len() ==> (#[trigger] filters[m]).column < row.len(),
            forall|m: int|
                0 <= m < k && is_active(#[trigger] filters@[m]) ==> cell_passes(
                    row@[filters@[m].column as int],
                    filters@[m].text@,
                ),
        decreases folded.len() - k,
    {
        let entry = &folded[k];
        if entry.1 {
            let c = &row[entry.0];
            let shown = cell_text(c);
            let low = lowercase(shown.as_str());
            let low_chars = chars_of(low.as_str());
            if !cell_passes_folded(c, &low_chars, &entry.2) {
                assert(!cell_passes(row@[filters@[k as int].column as int], filters@[k as int].text@));
                return false;
            }
        }
        k = k + 1;
    }
    true
}

/// The row numbers of the rows that pass every active filter, in their original order. With no
/// active filter this is every row number.
pub fn filter_rows(rows: &Vec<Vec<Cell>>, filters: &Vec<ColumnFilter>) -> (r: Vec<usize>)
    requires
        filters_fit(rows@, filters@),
    ensures
        r@ == filtered(rows@, filters@),
{
    let folded = fold_filters(filters);
    let mut out: Vec<usize> = Vec::new();
    let mut i: usize = 0;
    while i < rows.len()
        invariant
            i <= rows.len(),
            filters_fit(rows@, filters@),
            folded.len() == filters.len(),
            forall|k: int|
                0 <= k < folded.len() ==> {
                    &&& (#[trigger] folded[k]).0 == filters[k].column
                    &&& folded[k].1 == is_active(filters[k])
                    &&& folded[k].2@ == lower_of(filters[k].text@)
                },
            out@ == select(rows@, all_rows(rows.len() as nat).take(i as int), filters@),
        decreases rows.len() - i,
    {
        proof {
            assert forall|k: int| 0 <= k < filters.len() implies (#[trigger] filters[k]).column
                < rows@[i as int]@.len() by {
                assert(filters@[k] == filters[k]);
            }
        }
        let pass = row_ok(&rows[i], &folded, filters);
        proof {
            let c = all_rows(rows.len() as nat).take(i + 1);
            assert(c.drop_last() =~= all_rows(rows.len() as nat).take(i as int));
            assert(c.last() == i);
        }
        if pass {
            out.push(i);
        }
        i = i + 1;
    }
    assert(all_rows(rows.len() as nat).take(rows.len() as int) =~= all_rows(rows.len() as nat));
    out
}

/// Filtering is a selection: a row number is kept exactly when it was a candidate and its row
/// passes.
pub proof fn lemma_select_contains(
    rows: Seq<Vec<Cell>>,
    cand: Seq<usize>,
    filters: Seq<ColumnFilter>,
    x: usize,
)
    ensures
        select(rows, cand, filters).contains(x) <==> (cand.contains(x) && row_passes(
            rows[x as int]@,
            filters,
        )),
    decreases cand.len(),
{
    if cand.len() > 0 {
        lemma_select_contains(rows, cand.drop_last(), filters, x);
        let prev = select(rows, cand.drop_last(), filters);
        assert(cand =~= cand.drop_last().push(cand.last()));
        if cand.contains(x) && x != cand.last() {
            let j = choose|j: int| 0 <= j < cand.len() && cand[j] == x;
            assert(cand.drop_last()[j] == x);
        }
        if cand.drop_last().contains(x) {
            let j = choose|j: int| 0 <= j < cand.drop_last().len() && cand.drop_last()[j] == x;
            assert(cand[j] == x);
        }
        if row_passes(rows[cand.last() as int]@, filters) {
            assert(prev.push(cand.last()).last() == cand.last());
            if prev.push(cand.last()).contains(x) && x != cand.last() {
                let j = choose|j: int| 0 <= j < prev.push(cand.last()).len() && prev.push(
                    cand.last(),
                )[j] == x;
                assert(prev[j] == x);
            }
            if prev.contains(x) {
                let j = choose|j: int| 0 <= j < prev.len() && prev[j] == x;
                assert(prev.push(cand.last())[j] == x);
            }
        }
    }
}

/// Filter correctness: a row number is in the result exactly when it numbers a row whose cell
/// passes every active filter, that is, a non-`Null` cell whose text in lower case holds the
/// filter text in lower case.
pub proof fn lemma_filter_correct(rows: Seq<Vec<Cell>>, filters: Seq<ColumnFilter>, i: usize)
    ensures
        filtered(rows, filters).contains(i) <==> (i < rows.len() && row_passes(
            rows[i as int]@,
            filters,
        )),
{
    lemma_select_contains(rows, all_rows(rows.len()), filters, i);
    if i < rows.len() {
        assert(all_rows(rows.len())[i as int] == i);
    }
}

/// Filtering keeps the order of the candidates: the result is a subsequence of them, so the
/// row numbers of the whole table come out increasing.
pub proof fn lemma_select_increasing(
    rows: Seq<Vec<Cell>>,
    cand: Seq<usize>,
    filters: Seq<ColumnFilter>,
)
    requires
        forall|a: int, b: int| 0 <= a < b < cand.len() ==> cand[a] < cand[b],
    ensures
        forall|a: int, b: int|
            0 <= a < b < select(rows, cand, filters).len() ==> select(rows, cand, filters)[a]
                < select(rows, cand, filters)[b],
        forall|a: int|
            0 <= a < select(rows, cand, filters).len() ==> cand.contains(
                #[trigger] select(rows, cand, filters)[a],
            ),
    decreases cand.len(),
{
    if cand.len() > 0 {
        let c0 = cand.drop_last();
        lemma_select_increasing(rows, c0, filters);
        let prev = select(rows, c0, filters);
        assert forall|a: int| 0 <= a < prev.len() implies cand.contains(#[trigger] prev[a]) by {
            let j = choose|j: int| 0 <= j < c0.len() && c0[j] == prev[a];
            assert(cand[j] == prev[a]);
        }
        assert forall|a: int| 0 <= a < prev.len() implies #[trigger] prev[a] < cand.last() by {
            let j = choose|j: int| 0 <= j < c0.len() && c0[j] == prev[a];
            assert(cand[j] == prev[a]);
        }
        if row_passes(rows[cand.last() as int]@, filters) {
            let cur = prev.push(cand.last());
            assert(cand.contains(cand.last())) by {
                assert(cand[cand.len() - 1] == cand.last());
            }
            assert forall|a: int| 0 <= a < cur.len() implies cand.contains(#[trigger] cur[a]) by {
                if a < prev.len() {
                    assert(cur[a] == prev[a]);
                }
            }
            assert forall|a: int, b: int| 0 <= a < b < cur.len() implies cur[a] < cur[b] by {
                assert(cur[a] == prev[a]);
            }
        }
    }
}

/// Filter idempotence: filtering the rows that passed with the same filters gives the same
/// rows again, in the same order.
pub proof fn lemma_filter_idempotent(rows: Seq<Vec<Cell>>, cand: Seq<usize>, filters: Seq<ColumnFilter>)
    ensures
        select(rows, select(rows, cand, filters), filters) == select(rows, cand, filters),
    decreases cand.len(),
{
    if cand.len() > 0 {
        lemma_filter_idempotent(rows, cand.drop_last(), filters);
        let prev = select(rows, cand.drop_last(), filters);
        if row_passes(rows[cand.last() as int]@, filters) {
            let cur = prev.push(cand.last());
            assert(cur.drop_last() =~= prev);
        }
    }
}

/// Filter clear: when no filter has text, every row passes, in the original order.
pub proof fn lemma_filter_clear(rows: Seq<Vec<Cell>>, filters: Seq<ColumnFilter>)
    requires
        forall|k: int| 0 <= k < filters.len() ==> !is_active(#[trigger] filters[k]),
    ensures
        filtered(rows, filters) == all_rows(rows.len()),
{
    lemma_select_all(rows, all_rows(rows.len()), filters);
}

proof fn lemma_select_all(rows: Seq<Vec<Cell>>, cand: Seq<usize>, filters: Seq<ColumnFilter>)
    requires
        forall|k: int| 0 <= k < filters.len() ==> !is_active(#[trigger] filters[k]),
    ensures
        select(rows, cand, filters) == cand,
    decreases cand.len(),
{
    if cand.len() > 0 {
        lemma_select_all(rows, cand.drop_last(), filters);
        assert(row_passes(rows[cand.last() as int]@, filters));
        assert(cand.drop_last().push(cand.last()) =~= cand);
    }
}

} // verus!

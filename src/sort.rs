use vstd::prelude::*;

use crate::cell::{cell_sort_key, sort_key, Cell};

verus! {

/// The direction of a column sort; `Default` leaves the rows in the order they came in.
#[derive(Clone, Copy, Debug, PartialEq, Eq, Structural)]
pub enum SortDirection {
    Ascending,
    Descending,
    Default,
}

/// Lexicographic order on integer sequences; a proper prefix comes first.
pub open spec fn lex_lt(a: Seq<i64>, b: Seq<i64>) -> bool
    decreases a.len(),
{
    if a.len() == 0 {
        b.len() > 0
    } else if b.len() == 0 {
        false
    } else if a[0] != b[0] {
        a[0] < b[0]
    } else {
        lex_lt(a.drop_first(), b.drop_first())
    }
}

/// Strict order of two cell keys under a direction: `Null` (`None`) comes after every value
/// in either direction.
pub open spec fn key_before(a: Option<Seq<i64>>, b: Option<Seq<i64>>, descending: bool) -> bool {
    match (a, b) {
        (Some(x), Some(y)) => if descending {
            lex_lt(y, x)
        } else {
            lex_lt(x, y)
        },
        (Some(x), None) => true,
        (None, _) => false,
    }
}

/// Position `p` comes before position `q`: its key is before, or the keys are equal and `p`
/// was first.
pub open spec fn precedes(keys: Seq<Option<Seq<i64>>>, descending: bool, p: int, q: int) -> bool {
    key_before(keys[p], keys[q], descending) || (keys[p] == keys[q] && p < q)
}

/// Every position of `s` precedes every later one.
pub open spec fn sorted_by(s: Seq<usize>, keys: Seq<Option<Seq<i64>>>, descending: bool) -> bool {
    forall|a: int, b: int|
        0 <= a < b < s.len() ==> precedes(keys, descending, #[trigger] s[a] as int, #[trigger] s[b] as int)
}

/// `ps` lists positions of `keys` in sorted order, each once: a stable sort of them.
pub open spec fn is_arrangement(ps: Seq<usize>, keys: Seq<Option<Seq<i64>>>, descending: bool) -> bool {
    &&& ps.len() == keys.len()
    &&& forall|a: int| 0 <= a < ps.len() ==> #[trigger] ps[a] < keys.len()
    &&& sorted_by(ps, keys, descending)
}

pub open spec fn key_view(k: Option<Vec<i64>>) -> Option<Seq<i64>> {
    match k {
        Some(v) => Some(v@),
        None => None,
    }
}

/// The sort keys, in the given row order, of one column.
pub open spec fn column_keys(rows: Seq<Vec<Cell>>, order: Seq<usize>, column: usize) -> Seq<
    Option<Seq<i64>>,
> {
    Seq::new(order.len(), |p: int| sort_key(rows[order[p] as int]@[column as int]))
}

/// Each row number of `order` names a row that has the column.
pub open spec fn order_fits(rows: Seq<Vec<Cell>>, order: Seq<usize>, column: usize) -> bool {
    forall|p: int|
        0 <= p < order.len() ==> (#[trigger] order[p]) < rows.len() && column < rows[order[p] as int]@.len()
}

/// `r` is `order` rearranged by a stable sort of its rows' keys in the column.
pub open spec fn sorts_to(
    r: Seq<usize>,
    rows: Seq<Vec<Cell>>,
    order: Seq<usize>,
    column: usize,
    descending: bool,
) -> bool {
    exists|ps: Seq<usize>|
        #[trigger] is_arrangement(ps, column_keys(rows, order, column), descending) && r
            == ps.map_values(|p: usize| order[p as int])
}

/// `r` is `order` sorted on the column in the direction: unchanged for `Default`, else a stable
/// sort with `Null` cells last.
pub open spec fn is_sorted_rows(
    r: Seq<usize>,
    rows: Seq<Vec<Cell>>,
    order: Seq<usize>,
    column: usize,
    direction: SortDirection,
) -> bool {
    if direction == SortDirection::Default {
        r == order
    } else {
        sorts_to(r, rows, order, column, direction == SortDirection::Descending)
    }
}

pub proof fn lemma_lex_irreflexive(a: Seq<i64>)
    ensures
        !lex_lt(a, a),
    decreases a.len(),
{
    if a.len() > 0 {
        lemma_lex_irreflexive(a.drop_first());
    }
}

pub proof fn lemma_lex_total(a: Seq<i64>, b: Seq<i64>)
    ensures
        a == b || lex_lt(a, b) || lex_lt(b, a),
        !(lex_lt(a, b) && lex_lt(b, a)),
    decreases a.len(),
{
    if a.len() > 0 && b.len() > 0 {
        lemma_lex_total(a.drop_first(), b.drop_first());
        if a[0] == b[0] && a.drop_first() == b.drop_first() {
            assert(a =~= seq![a[0]] + a.drop_first());
            assert(b =~= seq![b[0]] + b.drop_first());
        }
    } else if a.len() == 0 && b.len() == 0 {
        assert(a =~= b);
    }
}

pub proof fn lemma_lex_trans(a: Seq<i64>, b: Seq<i64>, c: Seq<i64>)
    requires
        lex_lt(a, b),
        lex_lt(b, c),
    ensures
        lex_lt(a, c),
    decreases a.len(),
{
    if a.len() > 0 && b.len() > 0 && c.len() > 0 {
        if a[0] == b[0] && b[0] == c[0] {
            lemma_lex_trans(a.drop_first(), b.drop_first(), c.drop_first());
        }
    }
}

/// `precedes` is transitive.
pub proof fn lemma_precedes_trans(keys: Seq<Option<Seq<i64>>>, descending: bool, p: int, q: int, r: int)
    requires
        precedes(keys, descending, p, q),
        precedes(keys, descending, q, r),
    ensures
        precedes(keys, descending, p, r),
{
    if key_before(keys[p], keys[q], descending) && key_before(keys[q], keys[r], descending) {
        match (keys[p], keys[q], keys[r]) {
            (Some(x), Some(y), Some(z)) => {
                if descending {
                    lemma_lex_trans(z, y, x);
                } else {
                    lemma_lex_trans(x, y, z);
                }
            },
            _ => {},
        }
    }
}

/// Of two distinct positions, one precedes the other, and not both.
pub proof fn lemma_precedes_total(keys: Seq<Option<Seq<i64>>>, descending: bool, p: int, q: int)
    requires
        p != q,
    ensures
        precedes(keys, descending, p, q) || precedes(keys, descending, q, p),
        !(precedes(keys, descending, p, q) && precedes(keys, descending, q, p)),
{
    match (keys[p], keys[q]) {
        (Some(x), Some(y)) => {
            lemma_lex_total(x, y);
            lemma_lex_irreflexive(x);
        },
        _ => {},
    }
}

fn lex_less(a: &Vec<i64>, b: &Vec<i64>) -> (r: bool)
    ensures
        r == lex_lt(a@, b@),
{
    let mut i: usize = 0;
    assert(a@.skip(0) =~= a@);
    assert(b@.skip(0) =~= b@);
    while i < a.len() && i < b.len()
        invariant
            i <= a.len(),
            i <= b.len(),
            lex_lt(a@, b@) == lex_lt(a@.skip(i as int), b@.skip(i as int)),
        decreases a.len() - i,
    {
        if a[i] != b[i] {
            return a[i] < b[i];
        }
        assert(a@.skip(i as int).drop_first() =~= a@.skip(i + 1));
        assert(b@.skip(i as int).drop_first() =~= b@.skip(i + 1));
        i = i + 1;
    }
    i < b.len()
}

fn key_less(a: &Option<Vec<i64>>, b: &Option<Vec<i64>>, descending: bool) -> (r: bool)
    ensures
        r == key_before(key_view(*a), key_view(*b), descending),
{
    match (a, b) {
        (Some(x), Some(y)) => if descending {
            lex_less(y, x)
        } else {
            lex_less(x, y)
        },
        (Some(_), None) => true,
        (None, _) => false,
    }
}

fn precedes_at(keys: &Vec<Option<Vec<i64>>>, descending: bool, p: usize, q: usize) -> (r: bool)
    requires
        p < keys.len(),
        q < keys.len(),
    ensures
        r == precedes(keys@.map_values(|k: Option<Vec<i64>>| key_view(k)), descending, p as int, q as int),
{
    let ghost ks = keys@.map_values(|k: Option<Vec<i64>>| key_view(k));
    if key_less(&keys[p], &keys[q], descending) {
        return true;
    }
    if p == q {
        return false;
    }
    let back = key_less(&keys[q], &keys[p], descending);
    proof {
        match (ks[p as int], ks[q as int]) {
            (Some(x), Some(y)) => {
                lemma_lex_total(x, y);
            },
            _ => {},
        }
    }
    !back && p < q
}

fn merge(
    keys: &Vec<Option<Vec<i64>>>,
    descending: bool,
    a: Vec<usize>,
    b: Vec<usize>,
    lo: Ghost<int>,
    mid: Ghost<int>,
    hi: Ghost<int>,
) -> (r: Vec<usize>)
    requires
        lo@ <= mid@ <= hi@ <= keys.len(),
        forall|x: int| 0 <= x < a.len() ==> lo@ <= #[trigger] a[x] < mid@,
        forall|x: int| 0 <= x < b.len() ==> mid@ <= #[trigger] b[x] < hi@,
        sorted_by(a@, keys@.map_values(|k: Option<Vec<i64>>| key_view(k)), descending),
        sorted_by(b@, keys@.map_values(|k: Option<Vec<i64>>| key_view(k)), descending),
    ensures
        r.len() == a.len() + b.len(),
        forall|x: int| 0 <= x < r.len() ==> lo@ <= #[trigger] r[x] < hi@,
        sorted_by(r@, keys@.map_values(|k: Option<Vec<i64>>| key_view(k)), descending),
{
    let ghost ks = keys@.map_values(|k: Option<Vec<i64>>| key_view(k));
    let mut out: Vec<usize> = Vec::new();
    let mut i: usize = 0;
    let mut j: usize = 0;
    while i < a.len() || j < b.len()
        invariant
            i <= a.len(),
            j <= b.len(),
            lo@ <= mid@ <= hi@ <= keys.len(),
            ks == keys@.map_values(|k: Option<Vec<i64>>| key_view(k)),
            forall|x: int| 0 <= x < a.len() ==> lo@ <= #[trigger] a[x] < mid@,
            forall|x: int| 0 <= x < b.len() ==> mid@ <= #[trigger] b[x] < hi@,
            sorted_by(a@, ks, descending),
            sorted_by(b@, ks, descending),
            out.len() == i + j,
            forall|x: int| 0 <= x < out.len() ==> lo@ <= #[trigger] out[x] < hi@,
            sorted_by(out@, ks, descending),
            forall|o: int, x: int|
                0 <= o < out.len() && i <= x < a.len() ==> precedes(
                    ks,
                    descending,
                    #[trigger] out[o] as int,
                    #[trigger] a[x] as int,
                ),
            forall|o: int, y: int|
                0 <= o < out.len() && j <= y < b.len() ==> precedes(
                    ks,
                    descending,
                    #[trigger] out[o] as int,
                    #[trigger] b[y] as int,
                ),
        decreases a.len() + b.len() - i - j,
    {
        let take_a = j >= b.len() || (i < a.len() && precedes_at(keys, descending, a[i], b[j]));
        if take_a {
            let x = a[i];
            proof {
                assert forall|y: int| j <= y < b.len() implies precedes(ks, descending, x as int, #[trigger] b[y] as int) by {
                    if y > j {
                        lemma_precedes_trans(ks, descending, x as int, b[j as int] as int, b[y] as int);
                    }
                }
            }
            out.push(x);
            i = i + 1;
        } else {
            let y = b[j];
            proof {
                if i < a.len() {
                    lemma_precedes_total(ks, descending, a[i as int] as int, y as int);
                }
                assert forall|z: int| i <= z < a.len() implies precedes(ks, descending, y as int, #[trigger] a[z] as int) by {
                    if z > i {
                        lemma_precedes_trans(ks, descending, y as int, a[i as int] as int, a[z] as int);
                    }
                }
            }
            out.push(y);
            j = j + 1;
        }
    }
    out
}

/// The positions `lo..hi` of `keys`, stably sorted.
fn sort_range(keys: &Vec<Option<Vec<i64>>>, descending: bool, lo: usize, hi: usize) -> (r: Vec<usize>)
    requires
        lo <= hi <= keys.len(),
    ensures
        r.len() == hi - lo,
        forall|x: int| 0 <= x < r.len() ==> lo <= #[trigger] r[x] < hi,
        sorted_by(r@, keys@.map_values(|k: Option<Vec<i64>>| key_view(k)), descending),
    decreases hi - lo,
{
    if hi - lo == 0 {
        Vec::new()
    } else if hi - lo == 1 {
        vec![lo]
    } else {
        let mid: usize = lo + (hi - lo) / 2;
        let a = sort_range(keys, descending, lo, mid);
        let b = sort_range(keys, descending, mid, hi);
        merge(keys, descending, a, b, Ghost(lo as int), Ghost(mid as int), Ghost(hi as int))
    }
}

/// The row numbers of `order` sorted on `column` in `direction`: a stable sort that puts the
/// `Null` cells last in both directions; `Default` keeps `order` as it is.
pub fn sort_rows(
    rows: &Vec<Vec<Cell>>,
    order: &Vec<usize>,
    column: usize,
    direction: SortDirection,
) -> (r: Vec<usize>)
    requires
        order_fits(rows@, order@, column),
    ensures
        is_sorted_rows(r@, rows@, order@, column, direction),
{
    if direction == SortDirection::Default {
        let mut same: Vec<usize> = Vec::new();
        for p in 0..order.len()
            invariant
                same@ == order@.take(p as int),
        {
            same.push(order[p]);
            assert(same@ =~= order@.take(p + 1));
        }
        assert(order@.take(order.len() as int) =~= order@);
        return same;
    }
    let descending = direction == SortDirection::Descending;
    let ghost ck = column_keys(rows@, order@, column);
    let mut keys: Vec<Option<Vec<i64>>> = Vec::new();
    for p in 0..order.len()
        invariant
            order_fits(rows@, order@, column),
            ck == column_keys(rows@, order@, column),
            keys.len() == p,
            forall|m: int| 0 <= m < p ==> key_view(#[trigger] keys@[m]) == ck[m],
    {
        let row = &rows[order[p]];
        let k = cell_sort_key(&row[column]);
        keys.push(k);
    }
    assert(keys@.map_values(|k: Option<Vec<i64>>| key_view(k)) =~= ck);
    let ps = sort_range(&keys, descending, 0, keys.len());
    let mut r: Vec<usize> = Vec::new();
    for m in 0..ps.len()
        invariant
            ps.len() == order.len(),
            forall|x: int| 0 <= x < ps.len() ==> #[trigger] ps[x] < order.len(),
            r@ == ps@.take(m as int).map_values(|p: usize| order@[p as int]),
    {
        r.push(order[ps[m]]);
        assert(r@ =~= ps@.take(m + 1).map_values(|p: usize| order@[p as int]));
    }
    assert(ps@.take(ps.len() as int) =~= ps@);
    assert(is_arrangement(ps@, ck, descending));
    assert(r@ =~= ps@.map_values(|p: usize| order@[p as int]));
    assert(is_arrangement(ps@, column_keys(rows@, order@, column), descending) && r@
        == ps@.map_values(|p: usize| order@[p as int]));
    assert(sorts_to(r@, rows@, order@, column, descending));
    r
}

/// The cell of row `x` in the column.
pub open spec fn cell_at(rows: Seq<Vec<Cell>>, x: usize, column: usize) -> Cell {
    rows[x as int]@[column as int]
}

/// An entry of a sorted result is the row at its position in the order, and that position holds
/// its key.
pub proof fn lemma_entry(
    r: Seq<usize>,
    rows: Seq<Vec<Cell>>,
    order: Seq<usize>,
    column: usize,
    descending: bool,
    ps: Seq<usize>,
    a: int,
)
    requires
        is_arrangement(ps, column_keys(rows, order, column), descending),
        r == ps.map_values(|p: usize| order[p as int]),
        0 <= a < r.len(),
    ensures
        ps[a] < order.len(),
        r[a] == order[ps[a] as int],
        column_keys(rows, order, column)[ps[a] as int] == sort_key(cell_at(rows, r[a], column)),
{
}

/// Null ordering: after a sort in either direction, no `Null` cell of the column comes before a
/// cell that is not `Null`.
pub proof fn lemma_sort_nulls_last(
    r: Seq<usize>,
    rows: Seq<Vec<Cell>>,
    order: Seq<usize>,
    column: usize,
    direction: SortDirection,
)
    requires
        direction != SortDirection::Default,
        is_sorted_rows(r, rows, order, column, direction),
    ensures
        forall|a: int, b: int|
            0 <= a < b < r.len() && (cell_at(rows, #[trigger] r[a], column) is Null) ==> (cell_at(
                rows,
                #[trigger] r[b],
                column,
            ) is Null),
{
    let descending = direction == SortDirection::Descending;
    let ks = column_keys(rows, order, column);
    let ps = choose|ps: Seq<usize>|
        #[trigger] is_arrangement(ps, ks, descending) && r == ps.map_values(
            |p: usize| order[p as int],
        );
    assert forall|a: int, b: int|
        0 <= a < b < r.len() && (cell_at(rows, #[trigger] r[a], column) is Null) implies (cell_at(
            rows,
            #[trigger] r[b],
            column,
        ) is Null) by {
        lemma_entry(r, rows, order, column, descending, ps, a);
        lemma_entry(r, rows, order, column, descending, ps, b);
        assert(precedes(ks, descending, ps[a] as int, ps[b] as int));
    }
}

/// Sort stability: when the rows of `order` are distinct, two rows whose cells in the column
/// have equal keys keep the order they had in `order`.
pub proof fn lemma_sort_stable(
    r: Seq<usize>,
    rows: Seq<Vec<Cell>>,
    order: Seq<usize>,
    column: usize,
    direction: SortDirection,
)
    requires
        is_sorted_rows(r, rows, order, column, direction),
        forall|p: int, q: int| 0 <= p < q < order.len() ==> order[p] != order[q],
    ensures
        forall|a: int, b: int, p: int, q: int|
            0 <= a < b < r.len() && 0 <= p < order.len() && 0 <= q < order.len() && #[trigger] order[p]
                == #[trigger] r[a] && #[trigger] order[q] == #[trigger] r[b] && sort_key(
                cell_at(rows, r[a], column),
            ) == sort_key(cell_at(rows, r[b], column)) ==> p < q,
{
    let descending = direction == SortDirection::Descending;
    let ks = column_keys(rows, order, column);
    if direction == SortDirection::Default {
        assert forall|a: int, b: int, p: int, q: int|
            0 <= a < b < r.len() && 0 <= p < order.len() && 0 <= q < order.len() && #[trigger] order[p]
                == #[trigger] r[a] && #[trigger] order[q] == #[trigger] r[b] && sort_key(
                cell_at(rows, r[a], column),
            ) == sort_key(cell_at(rows, r[b], column)) implies p < q by {
            if p != a {
                if p < a {
                    assert(order[p] != order[a]);
                } else {
                    assert(order[a] != order[p]);
                }
            }
            if q != b {
                if q < b {
                    assert(order[q] != order[b]);
                } else {
                    assert(order[b] != order[q]);
                }
            }
        }
    } else {
        let ps = choose|ps: Seq<usize>|
            #[trigger] is_arrangement(ps, ks, descending) && r == ps.map_values(
                |p: usize| order[p as int],
            );
        assert forall|a: int, b: int, p: int, q: int|
            0 <= a < b < r.len() && 0 <= p < order.len() && 0 <= q < order.len() && #[trigger] order[p]
                == #[trigger] r[a] && #[trigger] order[q] == #[trigger] r[b] && sort_key(
                cell_at(rows, r[a], column),
            ) == sort_key(cell_at(rows, r[b], column)) implies p < q by {
            lemma_entry(r, rows, order, column, descending, ps, a);
            lemma_entry(r, rows, order, column, descending, ps, b);
            let pa = ps[a] as int;
            let pb = ps[b] as int;
            if p != pa {
                if p < pa {
                    assert(order[p] != order[pa]);
                } else {
                    assert(order[pa] != order[p]);
                }
            }
            if q != pb {
                if q < pb {
                    assert(order[q] != order[pb]);
                } else {
                    assert(order[pb] != order[q]);
                }
            }
            assert(precedes(ks, descending, pa, pb));
            match ks[pa] {
                Some(x) => lemma_lex_irreflexive(x),
                None => {},
            }
        }
    }
}

} // verus!

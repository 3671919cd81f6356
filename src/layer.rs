use std::sync::Arc;

use vstd::prelude::*;

use crate::cell::{cell_text, display, Cell};
use crate::filter::{
    all_rows, cell_passes, filter_rows, filtered, filters_fit, is_active, lemma_filter_correct,
    lemma_select_increasing, row_passes, ColumnFilter,
};
use crate::cell::sort_key;
use crate::sort::{
    cell_at, column_keys, is_arrangement, is_sorted_rows, lemma_entry, lemma_sort_stable, order_fits,
    sort_rows, SortDirection,
};
use crate::source::{is_rectangular, rectangular, DatasetError, Layer};
use crate::text::string_of;

verus! {

/// A column of a layer as the table shows it.
#[derive(Clone, Debug)]
pub struct Column {
    /// Identifies the column within its layer.
    pub key: String,
    /// The title shown in the header.
    pub name: String,
    pub sortable: bool,
}

/// What a layer's table state is.
pub struct LayerModel {
    /// All rows of the layer, as loaded.
    pub rows: Seq<Vec<Cell>>,
    pub columns: Seq<Column>,
    /// The row numbers that the last applied filter kept, in row order.
    pub filtered: Seq<usize>,
    /// The row numbers shown, in the order shown.
    pub displayed: Seq<usize>,
    pub filter_enabled: bool,
    /// The filter text typed for each column.
    pub filter_texts: Seq<Seq<char>>,
    /// The column and direction of the last sort asked for.
    pub sort: Option<(usize, SortDirection)>,
    /// The number of the latest request; only a result that carries it is applied.
    pub token: u64,
}

/// Each row number names a row.
pub open spec fn numbers_rows(order: Seq<usize>, n: nat) -> bool {
    forall|i: int| 0 <= i < order.len() ==> #[trigger] order[i] < n
}

/// Row numbers that go up strictly: rows in their original order, each once.
pub open spec fn increasing(order: Seq<usize>) -> bool {
    forall|a: int, b: int| 0 <= a < b < order.len() ==> #[trigger] order[a] < #[trigger] order[b]
}

/// `ps` lists each position `0..m` once.
pub open spec fn is_reindexing(ps: Seq<usize>, m: nat) -> bool {
    &&& ps.len() == m
    &&& forall|i: int| 0 <= i < ps.len() ==> #[trigger] ps[i] < m
    &&& forall|i: int, j: int| 0 <= i < j < ps.len() ==> #[trigger] ps[i] != #[trigger] ps[j]
}

/// `shown` is `order` rearranged: each entry of `order` once, in some order.
pub open spec fn reorders(shown: Seq<usize>, order: Seq<usize>) -> bool {
    exists|ps: Seq<usize>|
        #[trigger] is_reindexing(ps, order.len()) && shown == ps.map_values(|p: usize| order[p as int])
}

impl LayerModel {
    pub open spec fn wf(&self) -> bool {
        &&& rectangular(self.rows, self.columns.len())
        &&& self.filter_texts.len() == self.columns.len()
        &&& numbers_rows(self.filtered, self.rows.len())
        &&& increasing(self.filtered)
        &&& numbers_rows(self.displayed, self.rows.len())
        &&& reorders(self.displayed, self.filtered)
        &&& match self.sort {
            Some((c, _)) => c < self.columns.len(),
            None => true,
        }
    }
}

/// The token that follows `t`; after the largest it starts again at zero.
pub open spec fn next_token(t: u64) -> u64 {
    if t == u64::MAX {
        0
    } else {
        (t + 1) as u64
    }
}

/// The columns made for a list of names: key and title are the name, and each is sortable.
pub open spec fn columns_named(columns: Seq<Column>, names: Seq<String>) -> bool {
    &&& columns.len() == names.len()
    &&& forall|k: int|
        0 <= k < names.len() ==> {
            &&& (#[trigger] columns[k]).key@ == names[k]@
            &&& columns[k].name@ == names[k]@
            &&& columns[k].sortable
        }
}

/// One filter per column, holding that column's text.
pub open spec fn filters_for(filters: Seq<ColumnFilter>, texts: Seq<Seq<char>>) -> bool {
    &&& filters.len() == texts.len()
    &&& forall|k: int|
        0 <= k < texts.len() ==> (#[trigger] filters[k]).column == k && filters[k].text@ == texts[k]
}

/// Some column has a filter text.
pub open spec fn any_text(texts: Seq<Seq<char>>) -> bool {
    exists|k: int| 0 <= k < texts.len() && (#[trigger] texts[k]).len() > 0
}

/// A filter result with `token` and these row numbers is applied to a layer in state `m`: the
/// token is the latest, and the numbers name rows of the layer in their original order.
pub open spec fn accepts_filter(m: LayerModel, token: u64, rows: Seq<usize>) -> bool {
    token == m.token && numbers_rows(rows, m.rows.len()) && increasing(rows)
}

/// A sort result with `token` and these row numbers is applied to a layer in state `m`: the
/// token is the latest, and the numbers are the filtered rows rearranged.
pub open spec fn accepts_sort(m: LayerModel, token: u64, rows: Seq<usize>) -> bool {
    token == m.token && reorders(rows, m.filtered)
}

/// Any order of row numbers is a rearrangement of itself.
pub proof fn lemma_reorders_self(order: Seq<usize>)
    requires
        order.len() <= usize::MAX,
    ensures
        reorders(order, order),
{
    let ps = Seq::new(order.len(), |i: int| i as usize);
    assert forall|i: int| 0 <= i < ps.len() implies #[trigger] ps[i] < order.len() by {}
    assert forall|i: int, j: int| 0 <= i < j < ps.len() implies #[trigger] ps[i] != #[trigger] ps[j] by {}
    assert(is_reindexing(ps, order.len()));
    assert(order =~= ps.map_values(|p: usize| order[p as int]));
}

/// A rearrangement of row numbers that name rows names rows too.
pub proof fn lemma_reorders_numbers_rows(shown: Seq<usize>, order: Seq<usize>, n: nat)
    requires
        reorders(shown, order),
        numbers_rows(order, n),
    ensures
        numbers_rows(shown, n),
{
    let ps = choose|ps: Seq<usize>|
        #[trigger] is_reindexing(ps, order.len()) && shown == ps.map_values(|p: usize| order[p as int]);
    assert forall|i: int| 0 <= i < shown.len() implies #[trigger] shown[i] < n by {
        assert(ps[i] < order.len());
    }
}

/// The row numbers `0..n` go up.
pub proof fn lemma_all_rows_increasing(n: nat)
    requires
        n <= usize::MAX,
    ensures
        increasing(all_rows(n)),
        numbers_rows(all_rows(n), n),
{
}

/// The token after `k` further requests.
pub open spec fn tokens_after(t: u64, k: nat) -> u64
    decreases k,
{
    if k == 0 {
        t
    } else {
        next_token(tokens_after(t, (k - 1) as nat))
    }
}

pub open spec fn err_text() -> Seq<char> {
    seq!['E', 'R', 'R']
}

/// A filter computation to run away from the interactive thread.
pub struct FilterJob {
    token: u64,
    rows: Arc<Vec<Vec<Cell>>>,
    filters: Vec<ColumnFilter>,
}

pub struct FilterJobModel {
    pub token: u64,
    pub rows: Seq<Vec<Cell>>,
    pub filters: Seq<ColumnFilter>,
}

impl View for FilterJob {
    type V = FilterJobModel;

    closed spec fn view(&self) -> FilterJobModel {
        FilterJobModel { token: self.token, rows: (*self.rows)@, filters: self.filters@ }
    }
}

/// The result of a filter computation, with the token of its request.
#[derive(Clone, Debug)]
pub struct FilterOutcome {
    pub token: u64,
    pub rows: Vec<usize>,
}

impl FilterJob {
    pub open spec fn wf(&self) -> bool {
        filters_fit(self@.rows, self@.filters)
    }

    /// The token of the request.
    pub fn token(&self) -> (r: u64)
        ensures
            r == self@.token,
    {
        self.token
    }

    /// Filters the rows.
    pub fn run(&self) -> (r: FilterOutcome)
        requires
            self.wf(),
        ensures
            r.token == self@.token,
            r.rows@ == filtered(self@.rows, self@.filters),
            increasing(r.rows@),
            numbers_rows(r.rows@, self@.rows.len()),
    {
        let rows: &Vec<Vec<Cell>> = &self.rows;
        let _n = rows.len();
        let kept = filter_rows(rows, &self.filters);
        proof {
            let all = all_rows(self@.rows.len());
            lemma_all_rows_increasing(self@.rows.len());
            lemma_select_increasing(self@.rows, all, self@.filters);
            assert forall|a: int| 0 <= a < kept@.len() implies #[trigger] kept@[a] < self@.rows.len() by {
                assert(all.contains(kept@[a]));
            }
        }
        FilterOutcome { token: self.token, rows: kept }
    }
}

/// A sort computation to run away from the interactive thread.
pub struct SortJob {
    token: u64,
    rows: Arc<Vec<Vec<Cell>>>,
    order: Vec<usize>,
    column: usize,
    direction: SortDirection,
}

pub struct SortJobModel {
    pub token: u64,
    pub rows: Seq<Vec<Cell>>,
    pub order: Seq<usize>,
    pub column: usize,
    pub direction: SortDirection,
}

impl View for SortJob {
    type V = SortJobModel;

    closed spec fn view(&self) -> SortJobModel {
        SortJobModel {
            token: self.token,
            rows: (*self.rows)@,
            order: self.order@,
            column: self.column,
            direction: self.direction,
        }
    }
}

/// The result of a sort computation, with the token of its request.
#[derive(Clone, Debug)]
pub struct SortOutcome {
    pub token: u64,
    pub rows: Vec<usize>,
}

impl SortJob {
    pub open spec fn wf(&self) -> bool {
        order_fits(self@.rows, self@.order, self@.column)
    }

    /// The token of the request.
    pub fn token(&self) -> (r: u64)
        ensures
            r == self@.token,
    {
        self.token
    }

    /// Sorts the rows.
    pub fn run(&self) -> (r: SortOutcome)
        requires
            self.wf(),
        ensures
            r.token == self@.token,
            is_sorted_rows(r.rows@, self@.rows, self@.order, self@.column, self@.direction),
    {
        let rows: &Vec<Vec<Cell>> = &self.rows;
        SortOutcome { token: self.token, rows: sort_rows(rows, &self.order, self.column, self.direction) }
    }
}

/// Relies on `Arc::clone`: the new handle points to the same rows.
#[verifier::external_body]
fn share_rows(rows: &Arc<Vec<Vec<Cell>>>) -> (r: Arc<Vec<Vec<Cell>>>)
    ensures
        (*r)@ == (**rows)@,
{
    Arc::clone(rows)
}

fn copy_order(v: &Vec<usize>) -> (r: Vec<usize>)
    ensures
        r@ == v@,
{
    let mut r: Vec<usize> = Vec::new();
    for k in 0..v.len()
        invariant
            r@ == v@.take(k as int),
    {
        r.push(v[k]);
        assert(r@ =~= v@.take(k + 1));
    }
    assert(v@.take(v.len() as int) =~= v@);
    r
}

fn every_row(n: usize) -> (r: Vec<usize>)
    ensures
        r@ == all_rows(n as nat),
{
    let mut r: Vec<usize> = Vec::new();
    for k in 0..n
        invariant
            r@ == all_rows(k as nat),
    {
        r.push(k);
        assert(r@ =~= all_rows((k + 1) as nat));
    }
    r
}

fn numbers_in_range(order: &Vec<usize>, n: usize) -> (r: bool)
    ensures
        r == numbers_rows(order@, n as nat),
{
    let mut k: usize = 0;
    while k < order.len()
        invariant
            k <= order.len(),
            forall|i: int| 0 <= i < k ==> #[trigger] order@[i] < n,
        decreases order.len() - k,
    {
        if order[k] >= n {
            return false;
        }
        k = k + 1;
    }
    true
}

fn goes_up(order: &Vec<usize>) -> (r: bool)
    ensures
        r == increasing(order@),
{
    let mut k: usize = 1;
    while k < order.len()
        invariant
            1 <= k,
            forall|a: int, b: int| 0 <= a < b < k && b < order.len() ==> #[trigger] order@[a] < #[trigger] order@[b],
        decreases order.len() - k,
    {
        if order[k - 1] >= order[k] {
            return false;
        }
        proof {
            assert forall|a: int, b: int| 0 <= a < b < k + 1 && b < order.len() implies #[trigger] order@[a]
                < #[trigger] order@[b] by {
                if b == k && a < k - 1 {
                    assert(order@[a] < order@[k - 1]);
                }
            }
        }
        k = k + 1;
    }
    true
}

/// Whether `shown` is `order` rearranged, given that `order` goes up and names rows below `n`.
fn rearranges(shown: &Vec<usize>, order: &Vec<usize>, n: usize) -> (r: bool)
    requires
        increasing(order@),
        numbers_rows(order@, n as nat),
    ensures
        r == reorders(shown@, order@),
{
    let m = order.len();
    if shown.len() != m {
        proof {
            if reorders(shown@, order@) {
                let ps = choose|ps: Seq<usize>|
                    #[trigger] is_reindexing(ps, order@.len()) && shown@ == ps.map_values(
                        |p: usize| order@[p as int],
                    );
                assert(false);
            }
        }
        return false;
    }
    // The position in `order` of each row number that it holds.
    let mut pos: Vec<usize> = Vec::new();
    for x in 0..n
        invariant
            pos.len() == x,
    {
        pos.push(m);
    }
    for p in 0..m
        invariant
            pos.len() == n,
            m == order.len(),
            increasing(order@),
            numbers_rows(order@, n as nat),
            forall|q: int| 0 <= q < p ==> pos@[#[trigger] order@[q] as int] == q,
    {
        proof {
            assert forall|q: int| 0 <= q < p implies order@[q] != order@[p as int] by {
                assert(order@[q] < order@[p as int]);
            }
        }
        pos.set(order[p], p);
    }
    let mut seen: Vec<bool> = Vec::new();
    for q in 0..m
        invariant
            seen.len() == q,
            forall|i: int| 0 <= i < q ==> !#[trigger] seen@[i],
    {
        seen.push(false);
    }
    let ghost mut ps: Seq<usize> = Seq::empty();
    let mut k: usize = 0;
    while k < m
        invariant
            k <= m,
            m == order.len(),
            m == shown.len(),
            pos.len() == n,
            seen.len() == m,
            increasing(order@),
            numbers_rows(order@, n as nat),
            forall|q: int| 0 <= q < m ==> pos@[#[trigger] order@[q] as int] == q,
            ps.len() == k,
            forall|i: int| 0 <= i < k ==> #[trigger] ps[i] < m && order@[ps[i] as int] == shown@[i],
            forall|i: int, j: int| 0 <= i < j < k ==> #[trigger] ps[i] != #[trigger] ps[j],
            forall|q: int| 0 <= q < m ==> (#[trigger] seen@[q] <==> exists|i: int| 0 <= i < k && ps[i] == q),
        decreases m - k,
    {
        let x = shown[k];
        let ok = x < n && pos[x] < m && order[pos[x]] == x && !seen[pos[x]];
        if !ok {
            proof {
                if reorders(shown@, order@) {
                    let qs = choose|qs: Seq<usize>|
                        #[trigger] is_reindexing(qs, order@.len()) && shown@ == qs.map_values(
                            |p: usize| order@[p as int],
                        );
                    assert(shown@[k as int] == order@[qs[k as int] as int]);
                    assert(pos@[order@[qs[k as int] as int] as int] == qs[k as int]);
                    let i = choose|i: int| 0 <= i < k && ps[i] == qs[k as int];
                    assert(order@[ps[i] as int] == shown@[i]);
                    assert(shown@[i] == order@[qs[i] as int]);
                    if ps[i] < qs[i] {
                        assert(order@[ps[i] as int] < order@[qs[i] as int]);
                    } else if qs[i] < ps[i] {
                        assert(order@[qs[i] as int] < order@[ps[i] as int]);
                    }
                    assert(qs[i] == qs[k as int]);
                    assert(false);
                }
            }
            return false;
        }
        let q = pos[x];
        proof {
            assert forall|i: int| 0 <= i < k implies ps[i] != q by {
                if ps[i] == q {
                    assert(seen@[q as int]);
                }
            }
        }
        let ghost old_ps = ps;
        let ghost old_seen = seen@;
        proof {
            ps = ps.push(q);
        }
        seen.set(q, true);
        proof {
            assert forall|r: int| 0 <= r < m implies (#[trigger] seen@[r] <==> exists|i: int| 0 <= i < k + 1 && ps[i] == r) by {
                if r == q {
                    assert(ps[k as int] == q);
                } else {
                    assert(seen@[r] == old_seen[r]);
                    if old_seen[r] {
                        let i = choose|i: int| 0 <= i < k && old_ps[i] == r;
                        assert(ps[i] == r);
                    }
                    if exists|i: int| 0 <= i < k + 1 && ps[i] == r {
                        let i = choose|i: int| 0 <= i < k + 1 && ps[i] == r;
                        assert(old_ps[i] == r);
                    }
                }
            }
        }
        k = k + 1;
    }
    proof {
        assert(is_reindexing(ps, order@.len()));
        assert(shown@ =~= ps.map_values(|p: usize| order@[p as int]));
    }
    true
}

fn create_column_info(names: &Vec<String>) -> (r: Vec<Column>)
    ensures
        columns_named(r@, names@),
{
    let mut r: Vec<Column> = Vec::new();
    for k in 0..names.len()
        invariant
            r.len() == k,
            forall|m: int|
                0 <= m < k ==> {
                    &&& (#[trigger] r@[m]).key@ == names@[m]@
                    &&& r@[m].name@ == names@[m]@
                    &&& r@[m].sortable
                },
    {
        let name = &names[k];
        r.push(Column { key: name.clone(), name: name.clone(), sortable: true });
    }
    r
}

fn empty_texts(n: usize) -> (r: Vec<String>)
    ensures
        r@.map_values(|s: String| s@) == Seq::new(n as nat, |k: int| Seq::<char>::empty()),
{
    let mut r: Vec<String> = Vec::new();
    for k in 0..n
        invariant
            r.len() == k,
            forall|m: int| 0 <= m < k ==> (#[trigger] r@[m])@ == Seq::<char>::empty(),
    {
        r.push(String::new());
    }
    assert(r@.map_values(|s: String| s@) =~= Seq::new(n as nat, |k: int| Seq::<char>::empty()));
    r
}

fn collect_filters(texts: &Vec<String>) -> (r: Vec<ColumnFilter>)
    ensures
        filters_for(r@, texts@.map_values(|s: String| s@)),
{
    let mut r: Vec<ColumnFilter> = Vec::new();
    for k in 0..texts.len()
        invariant
            r.len() == k,
            forall|m: int|
                0 <= m < k ==> (#[trigger] r@[m]).column == m && r@[m].text@ == texts@[m]@,
    {
        r.push(ColumnFilter { column: k, text: texts[k].clone() });
    }
    r
}

fn has_text(texts: &Vec<String>) -> (r: bool)
    ensures
        r == any_text(texts@.map_values(|s: String| s@)),
{
    let ghost ts = texts@.map_values(|s: String| s@);
    let mut k: usize = 0;
    while k < texts.len()
        invariant
            k <= texts.len(),
            ts == texts@.map_values(|s: String| s@),
            forall|m: int| 0 <= m < k ==> (#[trigger] ts[m]).len() == 0,
        decreases texts.len() - k,
    {
        if !texts[k].as_str().is_empty() {
            assert(ts[k as int].len() > 0);
            return true;
        }
        k = k + 1;
    }
    false
}

/// The state of one layer's table: its rows and columns, the filter and sort that shape what
/// is shown, and the token of the latest request.
pub struct TableLayer {
    rows: Arc<Vec<Vec<Cell>>>,
    columns: Vec<Column>,
    filtered: Vec<usize>,
    displayed: Vec<usize>,
    filter_enabled: bool,
    filter_texts: Vec<String>,
    sort: Option<(usize, SortDirection)>,
    token: u64,
}

impl View for TableLayer {
    type V = LayerModel;

    closed spec fn view(&self) -> LayerModel {
        LayerModel {
            rows: (*self.rows)@,
            columns: self.columns@,
            filtered: self.filtered@,
            displayed: self.displayed@,
            filter_enabled: self.filter_enabled,
            filter_texts: self.filter_texts@.map_values(|s: String| s@),
            sort: self.sort,
            token: self.token,
        }
    }
}

/// The token that follows `t`.
pub(crate) fn bump(t: u64) -> (r: u64)
    ensures
        r == next_token(t),
{
    if t == u64::MAX {
        0
    } else {
        t + 1
    }
}

impl TableLayer {
    pub open spec fn wf(&self) -> bool {
        self@.wf()
    }

    /// A layer with no columns and no rows, still loading.
    pub fn new() -> (r: TableLayer)
        ensures
            r.wf(),
            r@.rows.len() == 0,
            r@.columns.len() == 0,
            r@.displayed.len() == 0,
            r@.filtered.len() == 0,
            !r@.filter_enabled,
            r@.sort is None,
            r@.token == 0,
    {
        let r = TableLayer {
            rows: Arc::new(Vec::new()),
            columns: Vec::new(),
            filtered: Vec::new(),
            displayed: Vec::new(),
            filter_enabled: false,
            filter_texts: Vec::new(),
            sort: None,
            token: 0,
        };
        assert(r@.filter_texts =~= Seq::<Seq<char>>::empty());
        proof {
            lemma_reorders_self(r@.filtered);
        }
        r
    }

    /// Replaces the rows and columns with those of `layer`, shows every row in order, clears the
    /// filter texts and the sort, and moves to a new token so that results of earlier requests
    /// are dropped. A layer whose rows do not all have one cell per column is refused with a
    /// schema error, and nothing changes.
    pub fn update_data(&mut self, layer: Layer) -> (r: Result<(), DatasetError>)
        requires
            old(self).wf(),
        ensures
            final(self).wf(),
            r is Ok <==> rectangular(layer.rows@, layer.column_names@.len()),
            r is Err ==> r->Err_0 is Schema && final(self)@ == old(self)@,
            r is Ok ==> {
                &&& final(self)@.rows == layer.rows@
                &&& columns_named(final(self)@.columns, layer.column_names@)
                &&& final(self)@.filtered == all_rows(layer.rows@.len())
                &&& final(self)@.displayed == all_rows(layer.rows@.len())
                &&& final(self)@.filter_enabled == old(self)@.filter_enabled
                &&& final(self)@.filter_texts == Seq::new(
                    layer.column_names@.len(),
                    |k: int| Seq::<char>::empty(),
                )
                &&& final(self)@.sort is None
                &&& final(self)@.token == next_token(old(self)@.token)
            },
    {
        if !is_rectangular(&layer.rows, layer.column_names.len()) {
            return Err(DatasetError::Schema(String::from_str("a row does not have one cell per column")));
        }
        let n = layer.rows.len();
        self.columns = create_column_info(&layer.column_names);
        self.filter_texts = empty_texts(layer.column_names.len());
        self.rows = Arc::new(layer.rows);
        self.filtered = every_row(n);
        self.displayed = every_row(n);
        self.sort = None;
        self.token = bump(self.token);
        proof {
            lemma_all_rows_increasing(n as nat);
            lemma_reorders_self(self@.filtered);
        }
        Ok(())
    }

    /// Switches the filter row on or off; what is shown does not change.
    pub fn toggle_filter(&mut self)
        requires
            old(self).wf(),
        ensures
            final(self).wf(),
            final(self)@ == (LayerModel { filter_enabled: !old(self)@.filter_enabled, ..old(self)@ }),
    {
        self.filter_enabled = !self.filter_enabled;
    }

    /// Moves to a new token, so that the results of all earlier requests are dropped.
    pub fn discard_pending(&mut self)
        requires
            old(self).wf(),
        ensures
            final(self).wf(),
            final(self)@ == (LayerModel { token: next_token(old(self)@.token), ..old(self)@ }),
    {
        self.token = bump(self.token);
    }

    /// Starts filtering with the current texts: clears the sort and moves to a new token. With
    /// no text at all every row is shown again at once; otherwise the job to run is returned
    /// and what is shown stays until its result is applied.
    pub fn filter_data(&mut self) -> (r: Option<FilterJob>)
        requires
            old(self).wf(),
        ensures
            final(self).wf(),
            final(self)@.rows == old(self)@.rows,
            final(self)@.columns == old(self)@.columns,
            final(self)@.filter_enabled == old(self)@.filter_enabled,
            final(self)@.filter_texts == old(self)@.filter_texts,
            final(self)@.sort is None,
            final(self)@.token == next_token(old(self)@.token),
            r is None <==> !any_text(old(self)@.filter_texts),
            r is None ==> final(self)@.filtered == all_rows(old(self)@.rows.len())
                && final(self)@.displayed == all_rows(old(self)@.rows.len()),
            r is Some ==> {
                &&& r->0.wf()
                &&& r->0@.token == final(self)@.token
                &&& r->0@.rows == old(self)@.rows
                &&& filters_for(r->0@.filters, old(self)@.filter_texts)
                &&& final(self)@.filtered == old(self)@.filtered
                &&& final(self)@.displayed == old(self)@.displayed
            },
    {
        self.sort = None;
        self.token = bump(self.token);
        if !has_text(&self.filter_texts) {
            let n = self.rows.len();
            self.filtered = every_row(n);
            self.displayed = every_row(n);
            proof {
                lemma_all_rows_increasing(n as nat);
                lemma_reorders_self(self@.filtered);
            }
            return None;
        }
        let job = FilterJob {
            token: self.token,
            rows: share_rows(&self.rows),
            filters: collect_filters(&self.filter_texts),
        };
        proof {
            let fs = job@.filters;
            assert forall|i: int, k: int|
                0 <= i < job@.rows.len() && 0 <= k < fs.len() implies (#[trigger] fs[k]).column
                    < (#[trigger] job@.rows[i])@.len() by {
                assert(self@.filter_texts.len() == self@.columns.len());
            }
        }
        Some(job)
    }

    /// Sets the filter text of a column. When filtering is on this starts filtering, as
    /// `filter_data` does; when it is off only the text is kept.
    pub fn set_filter_text(&mut self, column: usize, text: String) -> (r: Option<FilterJob>)
        requires
            old(self).wf(),
            column < old(self)@.columns.len(),
        ensures
            final(self).wf(),
            final(self)@.filter_texts == old(self)@.filter_texts.update(column as int, text@),
            !old(self)@.filter_enabled ==> r is None && final(self)@ == (LayerModel {
                filter_texts: old(self)@.filter_texts.update(column as int, text@),
                ..old(self)@
            }),
            old(self)@.filter_enabled ==> {
                &&& final(self)@.rows == old(self)@.rows
                &&& final(self)@.columns == old(self)@.columns
                &&& final(self)@.filter_enabled
                &&& final(self)@.sort is None
                &&& final(self)@.token == next_token(old(self)@.token)
                &&& (r is None <==> !any_text(final(self)@.filter_texts))
                &&& (r is None ==> final(self)@.filtered == all_rows(old(self)@.rows.len())
                    && final(self)@.displayed == all_rows(old(self)@.rows.len()))
                &&& (r is Some ==> {
                    &&& r->0.wf()
                    &&& r->0@.token == final(self)@.token
                    &&& r->0@.rows == old(self)@.rows
                    &&& filters_for(r->0@.filters, final(self)@.filter_texts)
                    &&& final(self)@.filtered == old(self)@.filtered
                    &&& final(self)@.displayed == old(self)@.displayed
                })
            },
    {
        self.filter_texts.set(column, text);
        assert(self@.filter_texts =~= old(self)@.filter_texts.update(column as int, text@));
        if !self.filter_enabled {
            return None;
        }
        self.filter_data()
    }

    /// Applies a filter result if it carries the current token and names only rows of the
    /// layer: it becomes what is shown, unsorted. Any other result is dropped.
    pub fn apply_filter(&mut self, outcome: FilterOutcome) -> (r: bool)
        requires
            old(self).wf(),
        ensures
            final(self).wf(),
            r == accepts_filter(old(self)@, outcome.token, outcome.rows@),
            r ==> final(self)@ == (LayerModel {
                filtered: outcome.rows@,
                displayed: outcome.rows@,
                ..old(self)@
            }),
            !r ==> final(self)@ == old(self)@,
    {
        if outcome.token != self.token || !numbers_in_range(&outcome.rows, self.rows.len())
            || !goes_up(&outcome.rows) {
            return false;
        }
        self.displayed = copy_order(&outcome.rows);
        self.filtered = outcome.rows;
        let _m = self.filtered.len();
        proof {
            lemma_reorders_self(self@.filtered);
        }
        true
    }

    /// Sorts the filtered rows on a column: records the sort and moves to a new token. `Default`
    /// shows the filtered rows in their own order at once; otherwise the job to run is returned
    /// and what is shown stays until its result is applied.
    pub fn perform_sort(&mut self, column: usize, direction: SortDirection) -> (r: Option<SortJob>)
        requires
            old(self).wf(),
            column < old(self)@.columns.len(),
        ensures
            final(self).wf(),
            final(self)@.rows == old(self)@.rows,
            final(self)@.columns == old(self)@.columns,
            final(self)@.filtered == old(self)@.filtered,
            final(self)@.filter_enabled == old(self)@.filter_enabled,
            final(self)@.filter_texts == old(self)@.filter_texts,
            final(self)@.sort == Some((column, direction)),
            final(self)@.token == next_token(old(self)@.token),
            r is None <==> direction == SortDirection::Default,
            r is None ==> final(self)@.displayed == old(self)@.filtered,
            r is Some ==> {
                &&& r->0.wf()
                &&& r->0@.token == final(self)@.token
                &&& r->0@.rows == old(self)@.rows
                &&& r->0@.order == old(self)@.filtered
                &&& r->0@.column == column
                &&& r->0@.direction == direction
                &&& final(self)@.displayed == old(self)@.displayed
            },
    {
        self.sort = Some((column, direction));
        self.token = bump(self.token);
        if direction == SortDirection::Default {
            self.displayed = copy_order(&self.filtered);
            let _m = self.filtered.len();
            proof {
                lemma_reorders_self(self@.filtered);
            }
            return None;
        }
        let job = SortJob {
            token: self.token,
            rows: share_rows(&self.rows),
            order: copy_order(&self.filtered),
            column,
            direction,
        };
        proof {
            assert forall|p: int| 0 <= p < job@.order.len() implies (#[trigger] job@.order[p])
                < job@.rows.len() && column < job@.rows[job@.order[p] as int]@.len() by {
                assert(job@.order[p] == self@.filtered[p]);
            }
        }
        Some(job)
    }

    /// Applies a sort result if it carries the current token and names only rows of the layer:
    /// it becomes what is shown. Any other result is dropped.
    pub fn apply_sort(&mut self, outcome: SortOutcome) -> (r: bool)
        requires
            old(self).wf(),
        ensures
            final(self).wf(),
            r == accepts_sort(old(self)@, outcome.token, outcome.rows@),
            r ==> final(self)@ == (LayerModel { displayed: outcome.rows@, ..old(self)@ }),
            !r ==> final(self)@ == old(self)@,
    {
        if outcome.token != self.token || !rearranges(&outcome.rows, &self.filtered, self.rows.len()) {
            return false;
        }
        proof {
            lemma_reorders_numbers_rows(outcome.rows@, self@.filtered, self@.rows.len() as nat);
        }
        self.displayed = outcome.rows;
        true
    }

    /// Still loading: no columns are known yet.
    pub fn loading(&self) -> (r: bool)
        ensures
            r == (self@.columns.len() == 0),
    {
        self.columns.len() == 0
    }

    /// The number of columns shown.
    pub fn columns_count(&self) -> (r: usize)
        ensures
            r == self@.columns.len(),
    {
        self.columns.len()
    }

    /// The number of rows shown.
    pub fn rows_count(&self) -> (r: usize)
        ensures
            r == self@.displayed.len(),
    {
        self.displayed.len()
    }

    /// The column at `index`.
    pub fn column(&self, index: usize) -> (r: &Column)
        requires
            index < self@.columns.len(),
        ensures
            *r == self@.columns[index as int],
    {
        &self.columns[index]
    }

    /// The cell shown at a row and column.
    pub fn cell(&self, row: usize, column: usize) -> (r: &Cell)
        requires
            self.wf(),
            row < self@.displayed.len(),
            column < self@.columns.len(),
        ensures
            *r == self@.rows[self@.displayed[row as int] as int]@[column as int],
    {
        let rows: &Vec<Vec<Cell>> = &self.rows;
        let i = self.displayed[row];
        &rows[i][column]
    }

    /// The text shown at a row and column; `ERR` where there is no such cell.
    pub fn cell_text(&self, row: usize, column: usize) -> (r: String)
        requires
            self.wf(),
        ensures
            row < self@.displayed.len() && column < self@.columns.len() ==> r@ == display(
                self@.rows[self@.displayed[row as int] as int]@[column as int],
            ),
            !(row < self@.displayed.len() && column < self@.columns.len()) ==> r@ == err_text(),
    {
        if row < self.displayed.len() && column < self.columns.len() {
            cell_text(self.cell(row, column))
        } else {
            string_of(&vec!['E', 'R', 'R'])
        }
    }

    /// Whether the filter row is on.
    pub fn filter_enabled(&self) -> (r: bool)
        ensures
            r == self@.filter_enabled,
    {
        self.filter_enabled
    }

    /// The filter text of a column.
    pub fn filter_text(&self, column: usize) -> (r: &String)
        requires
            self.wf(),
            column < self@.columns.len(),
        ensures
            r@ == self@.filter_texts[column as int],
    {
        &self.filter_texts[column]
    }

    /// The column and direction of the last sort asked for.
    pub fn sort_state(&self) -> (r: Option<(usize, SortDirection)>)
        ensures
            r == self@.sort,
    {
        self.sort
    }

    /// The token of the latest request.
    pub fn token(&self) -> (r: u64)
        ensures
            r == self@.token,
    {
        self.token
    }
}

proof fn lemma_tokens_after(t: u64, k: nat)
    ensures
        tokens_after(t, k) as int == (t as int + k) % 0x1_0000_0000_0000_0000,
    decreases k,
{
    if k > 0 {
        lemma_tokens_after(t, (k - 1) as nat);
    }
}

/// Stale-result discard: once a request has been followed by at least one and fewer than 2^64
/// further requests, its result no longer carries the layer's token and is never applied.
pub proof fn lemma_stale_result_discarded(m: LayerModel, token: u64, k: nat, rows: Seq<usize>)
    requires
        0 < k < 0x1_0000_0000_0000_0000,
        m.token == tokens_after(token, k),
    ensures
        !accepts_filter(m, token, rows),
        !accepts_sort(m, token, rows),
{
    lemma_tokens_after(token, k);
}

/// Filter correctness for a layer's filter texts: a row is kept exactly when, for every column
/// with a non-empty text, its cell in that column passes that text.
pub proof fn lemma_texts_filter_correct(
    rows: Seq<Vec<Cell>>,
    filters: Seq<ColumnFilter>,
    texts: Seq<Seq<char>>,
    i: usize,
)
    requires
        filters_for(filters, texts),
    ensures
        filtered(rows, filters).contains(i) <==> (i < rows.len() && forall|k: int|
            0 <= k < texts.len() && (#[trigger] texts[k]).len() > 0 ==> cell_passes(
                rows[i as int]@[k],
                texts[k],
            )),
{
    lemma_filter_correct(rows, filters, i);
    let row = rows[i as int]@;
    if row_passes(row, filters) {
        assert forall|k: int| 0 <= k < texts.len() && (#[trigger] texts[k]).len() > 0 implies cell_passes(
            row[k],
            texts[k],
        ) by {
            assert(is_active(filters[k]));
        }
    }
    if forall|k: int|
        0 <= k < texts.len() && (#[trigger] texts[k]).len() > 0 ==> cell_passes(row[k], texts[k]) {
        assert forall|k: int| 0 <= k < filters.len() && is_active(#[trigger] filters[k]) implies cell_passes(
            row[filters[k].column as int],
            filters[k].text@,
        ) by {
            assert(texts[k].len() > 0);
        }
    }
}

/// Sort stability for a layer: sorting its filtered rows on a column keeps any two rows whose
/// cells in that column have equal keys in their original row order.
pub proof fn lemma_layer_sort_stable(
    m: LayerModel,
    r: Seq<usize>,
    column: usize,
    direction: SortDirection,
)
    requires
        m.wf(),
        is_sorted_rows(r, m.rows, m.filtered, column, direction),
    ensures
        forall|a: int, b: int|
            0 <= a < b < r.len() && sort_key(cell_at(m.rows, #[trigger] r[a], column)) == sort_key(
                cell_at(m.rows, #[trigger] r[b], column),
            ) ==> r[a] < r[b],
{
    let order = m.filtered;
    assert forall|p: int, q: int| 0 <= p < q < order.len() implies order[p] != order[q] by {
        assert(order[p] < order[q]);
    }
    lemma_sort_stable(r, m.rows, order, column, direction);
    if direction != SortDirection::Default {
        let descending = direction == SortDirection::Descending;
        let ps = choose|ps: Seq<usize>|
            #[trigger] is_arrangement(ps, column_keys(m.rows, order, column), descending) && r
                == ps.map_values(|p: usize| order[p as int]);
        assert forall|a: int, b: int|
            0 <= a < b < r.len() && sort_key(cell_at(m.rows, #[trigger] r[a], column)) == sort_key(
                cell_at(m.rows, #[trigger] r[b], column),
            ) implies r[a] < r[b] by {
            lemma_entry(r, m.rows, order, column, descending, ps, a);
            lemma_entry(r, m.rows, order, column, descending, ps, b);
            let p = ps[a] as int;
            let q = ps[b] as int;
            assert(order[p] == r[a] && order[q] == r[b]);
            assert(p < q);
            assert(order[p] < order[q]);
        }
    }
}

} // verus!

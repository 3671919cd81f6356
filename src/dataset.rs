use vstd::prelude::*;

use crate::filter::all_rows;
use crate::layer::{
    accepts_filter, accepts_sort, any_text, bump, columns_named, filters_for, next_token, FilterJob, FilterOutcome, LayerModel, SortJob, SortOutcome,
    TableLayer,
};
use crate::sort::SortDirection;
use crate::source::{error_detail, error_message, rectangular, DatasetError, Layer};

verus! {

/// What the interactive thread is to do after a step of an open dataset.
#[derive(Clone, Debug)]
pub enum ViewAction {
    /// Nothing more.
    Idle,
    /// Load the named layer of the file in the background and hand the result, with this token,
    /// to `TableView::layer_loaded`.
    LoadLayer { token: u64, path: String, layer: String },
    /// Show the message to the user; the data shown stays as it was.
    Notify(String),
}

/// What an open dataset is.
pub struct DatasetModel {
    pub active_tab: usize,
    pub data_path: Option<Seq<char>>,
    pub layer_names: Seq<Seq<char>>,
    pub table: LayerModel,
    /// The number of the latest open or load request.
    pub load_token: u64,
}

impl DatasetModel {
    pub open spec fn wf(&self) -> bool {
        &&& self.table.wf()
        &&& self.layer_names.len() > 0 ==> self.data_path is Some && self.active_tab
            < self.layer_names.len()
    }
}

pub open spec fn load_failed_text() -> Seq<char> {
    seq!['F', 'a', 'i', 'l', 'e', 'd', ' ', 't', 'o', ' ', 'l', 'o', 'a', 'd', ' ', 'd', 'a', 't', 'a']
}

/// The notification for an error while loading.
pub open spec fn load_failed_message(err: DatasetError) -> Seq<char> {
    load_failed_text() + seq!['\n'] + error_detail(err)
}

/// An open dataset: its path, the names of its layers, which layer is shown, and that layer's
/// table.
pub struct TableView {
    active_tab: usize,
    data_path: Option<String>,
    layer_names: Vec<String>,
    table: TableLayer,
    load_token: u64,
}

impl View for TableView {
    type V = DatasetModel;

    closed spec fn view(&self) -> DatasetModel {
        DatasetModel {
            active_tab: self.active_tab,
            data_path: match self.data_path {
                Some(p) => Some(p@),
                None => None,
            },
            layer_names: self.layer_names@.map_values(|s: String| s@),
            table: self.table@,
            load_token: self.load_token,
        }
    }
}

fn load_failed(err: &DatasetError) -> (r: String)
    ensures
        r@ == load_failed_message(*err),
{
    let context = "Failed to load data";
    proof {
        reveal_strlit("Failed to load data");
    }
    assert(context@ =~= load_failed_text());
    error_message(context, err)
}

impl TableView {
    pub open spec fn wf(&self) -> bool {
        self@.wf()
    }

    /// A view with no file open.
    pub fn new() -> (r: TableView)
        ensures
            r.wf(),
            r@.data_path is None,
            r@.layer_names.len() == 0,
            r@.active_tab == 0,
            r@.load_token == 0,
            r@.table.columns.len() == 0,
            r@.table.displayed.len() == 0,
    {
        let r = TableView {
            active_tab: 0,
            data_path: None,
            layer_names: Vec::new(),
            table: TableLayer::new(),
            load_token: 0,
        };
        assert(r@.layer_names =~= Seq::<Seq<char>>::empty());
        r
    }

    /// Starts opening a file: moves to a new load token and returns it. The names of the file's
    /// layers are to be listed in the background and handed, with the token, to
    /// `layers_listed`.
    pub fn open(&mut self) -> (r: u64)
        requires
            old(self).wf(),
        ensures
            final(self).wf(),
            r == final(self)@.load_token,
            final(self)@ == (DatasetModel { load_token: next_token(old(self)@.load_token), ..old(self)@ }),
    {
        self.load_token = bump(self.load_token);
        self.load_token
    }

    /// Takes the layer names listed for `path`. A result for an earlier request is dropped. On
    /// success the file becomes the open one, its first layer is chosen and its load is asked
    /// for under a new token; a file without layers asks for nothing. A failure is reported and
    /// nothing changes.
    pub fn layers_listed(
        &mut self,
        token: u64,
        path: String,
        result: Result<Vec<String>, DatasetError>,
    ) -> (r: ViewAction)
        requires
            old(self).wf(),
        ensures
            final(self).wf(),
            token != old(self)@.load_token ==> r is Idle && final(self)@ == old(self)@,
            token == old(self)@.load_token ==> match result {
                Ok(names) => {
                    &&& final(self)@.data_path == Some(path@)
                    &&& final(self)@.layer_names == names@.map_values(|s: String| s@)
                    &&& final(self)@.active_tab == 0
                    &&& final(self)@.table == old(self)@.table
                    &&& final(self)@.load_token == next_token(old(self)@.load_token)
                    &&& if names@.len() == 0 {
                        r is Idle
                    } else {
                        r matches ViewAction::LoadLayer { token: t, path: p, layer: l } && t
                            == final(self)@.load_token && p@ == path@ && l@ == names@[0]@
                    }
                },
                Err(e) => r matches ViewAction::Notify(m) && m@ == load_failed_message(e)
                    && final(self)@ == old(self)@,
            },
    {
        if token != self.load_token {
            return ViewAction::Idle;
        }
        match result {
            Ok(names) => {
                let first: Option<String> = if names.len() > 0 {
                    Some(names[0].clone())
                } else {
                    None
                };
                self.layer_names = names;
                self.active_tab = 0;
                self.load_token = bump(self.load_token);
                match first {
                    Some(layer) => {
                        let p = path.clone();
                        self.data_path = Some(path);
                        ViewAction::LoadLayer { token: self.load_token, path: p, layer }
                    },
                    None => {
                        self.data_path = Some(path);
                        ViewAction::Idle
                    },
                }
            },
            Err(e) => ViewAction::Notify(load_failed(&e)),
        }
    }

    /// Switches to the layer at `index`: results still pending for the shown layer are dropped,
    /// and the new layer's load is asked for under a new token.
    pub fn select_layer(&mut self, index: usize) -> (r: ViewAction)
        requires
            old(self).wf(),
            index < old(self)@.layer_names.len(),
        ensures
            final(self).wf(),
            final(self)@.active_tab == index,
            final(self)@.data_path == old(self)@.data_path,
            final(self)@.layer_names == old(self)@.layer_names,
            final(self)@.load_token == next_token(old(self)@.load_token),
            final(self)@.table == (LayerModel {
                token: next_token(old(self)@.table.token),
                ..old(self)@.table
            }),
            r matches ViewAction::LoadLayer { token: t, path: p, layer: l } && t
                == final(self)@.load_token && Some(p@) == old(self)@.data_path && l@
                == old(self)@.layer_names[index as int],
    {
        self.active_tab = index;
        self.load_token = bump(self.load_token);
        self.table.discard_pending();
        let path = match &self.data_path {
            Some(p) => p.clone(),
            None => String::new(),
        };
        ViewAction::LoadLayer { token: self.load_token, path, layer: self.layer_names[index].clone() }
    }

    /// Takes a loaded layer. A result for an earlier request is dropped. A layer is shown as
    /// `TableLayer::update_data` shows it; a failure, or a layer whose rows do not match its
    /// columns, is reported and the table stays as it was.
    pub fn layer_loaded(&mut self, token: u64, result: Result<Layer, DatasetError>) -> (r: ViewAction)
        requires
            old(self).wf(),
        ensures
            final(self).wf(),
            final(self)@.active_tab == old(self)@.active_tab,
            final(self)@.data_path == old(self)@.data_path,
            final(self)@.layer_names == old(self)@.layer_names,
            final(self)@.load_token == old(self)@.load_token,
            token != old(self)@.load_token ==> r is Idle && final(self)@ == old(self)@,
            token == old(self)@.load_token ==> match result {
                Ok(layer) => if rectangular(layer.rows@, layer.column_names@.len()) {
                    &&& r is Idle
                    &&& final(self)@.table.rows == layer.rows@
                    &&& columns_named(final(self)@.table.columns, layer.column_names@)
                    &&& final(self)@.table.filtered == all_rows(layer.rows@.len())
                    &&& final(self)@.table.displayed == all_rows(layer.rows@.len())
                    &&& final(self)@.table.filter_enabled == old(self)@.table.filter_enabled
                    &&& final(self)@.table.filter_texts == Seq::new(
                        layer.column_names@.len(),
                        |k: int| Seq::<char>::empty(),
                    )
                    &&& final(self)@.table.sort is None
                    &&& final(self)@.table.token == next_token(old(self)@.table.token)
                } else {
                    r is Notify && final(self)@ == old(self)@
                },
                Err(e) => r matches ViewAction::Notify(m) && m@ == load_failed_message(e)
                    && final(self)@ == old(self)@,
            },
    {
        if token != self.load_token {
            return ViewAction::Idle;
        }
        match result {
            Ok(layer) => match self.table.update_data(layer) {
                Ok(()) => ViewAction::Idle,
                Err(e) => ViewAction::Notify(load_failed(&e)),
            },
            Err(e) => ViewAction::Notify(load_failed(&e)),
        }
    }

    /// Switches the filter row of the shown table on or off.
    pub fn on_action_toggle_search(&mut self)
        requires
            old(self).wf(),
        ensures
            final(self).wf(),
            final(self)@ == (DatasetModel {
                table: LayerModel { filter_enabled: !old(self)@.table.filter_enabled, ..old(self)@.table },
                ..old(self)@
            }),
    {
        self.table.toggle_filter();
    }

    /// Sets a filter text of the shown table, as `TableLayer::set_filter_text` does.
    pub fn set_filter_text(&mut self, column: usize, text: String) -> (r: Option<FilterJob>)
        requires
            old(self).wf(),
            column < old(self)@.table.columns.len(),
        ensures
            final(self).wf(),
            final(self)@ == (DatasetModel { table: final(self)@.table, ..old(self)@ }),
            final(self)@.table.filter_texts == old(self)@.table.filter_texts.update(column as int, text@),
            !old(self)@.table.filter_enabled ==> r is None && final(self)@.table == (LayerModel {
                filter_texts: old(self)@.table.filter_texts.update(column as int, text@),
                ..old(self)@.table
            }),
            old(self)@.table.filter_enabled ==> {
                &&& final(self)@.table.rows == old(self)@.table.rows
                &&& final(self)@.table.columns == old(self)@.table.columns
                &&& final(self)@.table.filter_enabled
                &&& final(self)@.table.sort is None
                &&& final(self)@.table.token == next_token(old(self)@.table.token)
                &&& (r is None <==> !any_text(final(self)@.table.filter_texts))
                &&& (r is None ==> final(self)@.table.filtered == all_rows(old(self)@.table.rows.len())
                    && final(self)@.table.displayed == all_rows(old(self)@.table.rows.len()))
                &&& (r is Some ==> {
                    &&& r->0.wf()
                    &&& r->0@.token == final(self)@.table.token
                    &&& r->0@.rows == old(self)@.table.rows
                    &&& filters_for(r->0@.filters, final(self)@.table.filter_texts)
                    &&& final(self)@.table.filtered == old(self)@.table.filtered
                    &&& final(self)@.table.displayed == old(self)@.table.displayed
                })
            },
    {
        self.table.set_filter_text(column, text)
    }

    /// Sorts the shown table, as `TableLayer::perform_sort` does.
    pub fn perform_sort(&mut self, column: usize, direction: SortDirection) -> (r: Option<SortJob>)
        requires
            old(self).wf(),
            column < old(self)@.table.columns.len(),
        ensures
            final(self).wf(),
            final(self)@ == (DatasetModel { table: final(self)@.table, ..old(self)@ }),
            final(self)@.table.rows == old(self)@.table.rows,
            final(self)@.table.columns == old(self)@.table.columns,
            final(self)@.table.filtered == old(self)@.table.filtered,
            final(self)@.table.filter_enabled == old(self)@.table.filter_enabled,
            final(self)@.table.filter_texts == old(self)@.table.filter_texts,
            final(self)@.table.sort == Some((column, direction)),
            final(self)@.table.token == next_token(old(self)@.table.token),
            r is None <==> direction == SortDirection::Default,
            r is None ==> final(self)@.table.displayed == old(self)@.table.filtered,
            r is Some ==> {
                &&& r->0.wf()
                &&& r->0@.token == final(self)@.table.token
                &&& r->0@.rows == old(self)@.table.rows
                &&& r->0@.order == old(self)@.table.filtered
                &&& r->0@.column == column
                &&& r->0@.direction == direction
                &&& final(self)@.table.displayed == old(self)@.table.displayed
            },
    {
        self.table.perform_sort(column, direction)
    }

    /// Applies a filter result to the shown table, as `TableLayer::apply_filter` does.
    pub fn apply_filter(&mut self, outcome: FilterOutcome) -> (r: bool)
        requires
            old(self).wf(),
        ensures
            final(self).wf(),
            final(self)@ == (DatasetModel { table: final(self)@.table, ..old(self)@ }),
            r == accepts_filter(old(self)@.table, outcome.token, outcome.rows@),
            r ==> final(self)@.table == (LayerModel {
                filtered: outcome.rows@,
                displayed: outcome.rows@,
                ..old(self)@.table
            }),
            !r ==> final(self)@ == old(self)@,
    {
        self.table.apply_filter(outcome)
    }

    /// Applies a sort result to the shown table, as `TableLayer::apply_sort` does.
    pub fn apply_sort(&mut self, outcome: SortOutcome) -> (r: bool)
        requires
            old(self).wf(),
        ensures
            final(self).wf(),
            final(self)@ == (DatasetModel { table: final(self)@.table, ..old(self)@ }),
            r == accepts_sort(old(self)@.table, outcome.token, outcome.rows@),
            r ==> final(self)@.table == (LayerModel { displayed: outcome.rows@, ..old(self)@.table }),
            !r ==> final(self)@ == old(self)@,
    {
        self.table.apply_sort(outcome)
    }

    /// The table of the shown layer.
    pub fn table(&self) -> (r: &TableLayer)
        requires
            self.wf(),
        ensures
            r.wf(),
            r@ == self@.table,
    {
        &self.table
    }

    /// The names of the layers of the open file.
    pub fn layer_names(&self) -> (r: &Vec<String>)
        ensures
            r@.map_values(|s: String| s@) == self@.layer_names,
    {
        &self.layer_names
    }

    /// The index of the shown layer.
    pub fn active_tab(&self) -> (r: usize)
        ensures
            r == self@.active_tab,
    {
        self.active_tab
    }

    /// Whether a file with at least one layer is open.
    pub fn has_data(&self) -> (r: bool)
        ensures
            r == (self@.layer_names.len() > 0),
    {
        self.layer_names.len() > 0
    }
}

} // verus!

use tabulite::cell::{cell_text, Cell, FloatValue, Timestamp};
use tabulite::dataset::{TableView, ViewAction};
use tabulite::filter::{filter_rows, ColumnFilter};
use tabulite::layer::{FilterOutcome, SortOutcome, TableLayer};
use tabulite::sort::{sort_rows, SortDirection};
use tabulite::source::{error_message, DatasetError, IoKind, Layer};

fn people() -> Vec<Vec<Cell>> {
    vec![
        vec![Cell::Text("Alice".to_string()), Cell::Integer(30)],
        vec![Cell::Text("Bob".to_string()), Cell::Null],
    ]
}

fn people_layer() -> Layer {
    Layer {
        name: "people".to_string(),
        column_names: vec!["name".to_string(), "age".to_string()],
        rows: people(),
    }
}

fn filter(column: usize, text: &str) -> ColumnFilter {
    ColumnFilter { column, text: text.to_string() }
}

fn ages(layer: &TableLayer) -> Vec<String> {
    (0..layer.rows_count()).map(|r| layer.cell_text(r, 1)).collect()
}

#[test]
fn scenario_filter_name_contains_al() {
    let rows = people();
    let r = filter_rows(&rows, &vec![filter(0, "al")]);
    assert_eq!(r, vec![0]);
}

#[test]
fn filter_folds_case_of_text_and_cells() {
    let rows = people();
    assert_eq!(filter_rows(&rows, &vec![filter(0, "AL")]), vec![0]);
    assert_eq!(filter_rows(&rows, &vec![filter(0, "bO")]), vec![1]);
    assert_eq!(filter_rows(&rows, &vec![filter(0, "x")]), Vec::<usize>::new());
}

#[test]
fn filter_is_a_conjunction() {
    let rows = vec![
        vec![Cell::Text("Alice".to_string()), Cell::Integer(30)],
        vec![Cell::Text("Alan".to_string()), Cell::Integer(41)],
        vec![Cell::Text("Bob".to_string()), Cell::Integer(30)],
    ];
    assert_eq!(filter_rows(&rows, &vec![filter(0, "al"), filter(1, "3")]), vec![0]);
    assert_eq!(filter_rows(&rows, &vec![filter(1, "30")]), vec![0, 2]);
}

#[test]
fn null_never_matches_a_filter() {
    let rows = people();
    assert_eq!(filter_rows(&rows, &vec![filter(1, "nu")]), Vec::<usize>::new());
    assert_eq!(filter_rows(&rows, &vec![filter(1, "3")]), vec![0]);
}

#[test]
fn filter_matches_literally() {
    let rows = vec![
        vec![Cell::Text("a.c".to_string())],
        vec![Cell::Text("abc".to_string())],
    ];
    assert_eq!(filter_rows(&rows, &vec![filter(0, ".")]), vec![0]);
}

#[test]
fn filtering_twice_gives_the_same_rows() {
    let rows = people();
    let filters = vec![filter(0, "b")];
    let first = filter_rows(&rows, &filters);
    let second = filter_rows(&rows, &filters);
    assert_eq!(first, second);
    assert_eq!(first, vec![1]);
}

#[test]
fn empty_filter_texts_keep_every_row_in_order() {
    let rows = people();
    assert_eq!(filter_rows(&rows, &vec![filter(0, ""), filter(1, "")]), vec![0, 1]);
    assert_eq!(filter_rows(&rows, &vec![]), vec![0, 1]);
}

#[test]
fn scenario_sort_age_ascending_puts_null_last() {
    let rows = people();
    assert_eq!(sort_rows(&rows, &vec![0, 1], 1, SortDirection::Ascending), vec![0, 1]);
    assert_eq!(sort_rows(&rows, &vec![1, 0], 1, SortDirection::Ascending), vec![0, 1]);
}

#[test]
fn scenario_sort_age_descending_keeps_null_last() {
    let rows = people();
    assert_eq!(sort_rows(&rows, &vec![0, 1], 1, SortDirection::Descending), vec![0, 1]);
    assert_eq!(sort_rows(&rows, &vec![1, 0], 1, SortDirection::Descending), vec![0, 1]);
}

#[test]
fn sort_default_keeps_the_order() {
    let rows = people();
    assert_eq!(sort_rows(&rows, &vec![1, 0], 1, SortDirection::Default), vec![1, 0]);
}

#[test]
fn sort_is_stable_and_nulls_go_last() {
    let rows = vec![
        vec![Cell::Integer(2)],
        vec![Cell::Null],
        vec![Cell::Integer(1)],
        vec![Cell::Integer(2)],
        vec![Cell::Null],
        vec![Cell::Integer(1)],
    ];
    let order = vec![0, 1, 2, 3, 4, 5];
    assert_eq!(sort_rows(&rows, &order, 0, SortDirection::Ascending), vec![2, 5, 0, 3, 1, 4]);
    assert_eq!(sort_rows(&rows, &order, 0, SortDirection::Descending), vec![0, 3, 2, 5, 1, 4]);
}

#[test]
fn sort_orders_texts_by_code_point_and_prefix_first() {
    let rows = vec![
        vec![Cell::Text("b".to_string())],
        vec![Cell::Text("ab".to_string())],
        vec![Cell::Text("a".to_string())],
        vec![Cell::Text("B".to_string())],
    ];
    assert_eq!(sort_rows(&rows, &vec![0, 1, 2, 3], 0, SortDirection::Ascending), vec![3, 2, 1, 0]);
}

#[test]
fn sort_orders_negative_integers_and_timestamps() {
    let rows = vec![
        vec![Cell::Integer(5)],
        vec![Cell::Integer(-7)],
        vec![Cell::Integer(0)],
    ];
    assert_eq!(sort_rows(&rows, &vec![0, 1, 2], 0, SortDirection::Ascending), vec![1, 2, 0]);
    let at = |year, month, day| Cell::DateTime(Timestamp { year, month, day, hour: 0, minute: 0, second: 0 });
    let dates = vec![vec![at(2024, 3, 1)], vec![at(2023, 12, 31)], vec![at(2024, 1, 15)]];
    assert_eq!(sort_rows(&dates, &vec![0, 1, 2], 0, SortDirection::Ascending), vec![1, 2, 0]);
}

#[test]
fn cells_show_their_text() {
    assert_eq!(cell_text(&Cell::Text("Alice".to_string())), "Alice");
    assert_eq!(cell_text(&Cell::Integer(30)), "30");
    assert_eq!(cell_text(&Cell::Integer(-1205)), "-1205");
    assert_eq!(cell_text(&Cell::Integer(i64::MIN)), "-9223372036854775808");
    assert_eq!(cell_text(&Cell::Integer(0)), "0");
    assert_eq!(cell_text(&Cell::Boolean(true)), "true");
    assert_eq!(cell_text(&Cell::Boolean(false)), "false");
    assert_eq!(cell_text(&Cell::Null), "null");
    assert_eq!(cell_text(&Cell::Float(FloatValue { order: 1, text: "2.5".to_string() })), "2.5");
    let t = Timestamp { year: 2024, month: 3, day: 7, hour: 9, minute: 5, second: 0 };
    assert_eq!(cell_text(&Cell::DateTime(t)), "2024-03-07 09:05:00");
    let early = Timestamp { year: 33, month: 12, day: 25, hour: 23, minute: 59, second: 59 };
    assert_eq!(cell_text(&Cell::DateTime(early)), "0033-12-25 23:59:59");
}

#[test]
fn layer_reads_through_the_table_contract() {
    let mut layer = TableLayer::new();
    assert!(layer.loading());
    assert_eq!(layer.columns_count(), 0);
    layer.update_data(people_layer()).unwrap();
    assert!(!layer.loading());
    assert_eq!(layer.columns_count(), 2);
    assert_eq!(layer.rows_count(), 2);
    assert_eq!(layer.column(0).key, "name");
    assert_eq!(layer.column(1).name, "age");
    assert!(layer.column(1).sortable);
    assert_eq!(layer.cell_text(0, 0), "Alice");
    assert_eq!(layer.cell_text(1, 1), "null");
    assert_eq!(layer.cell_text(2, 0), "ERR");
    assert_eq!(layer.cell_text(0, 2), "ERR");
    assert!(matches!(layer.cell(0, 1), Cell::Integer(30)));
}

#[test]
fn ragged_layer_is_refused() {
    let mut layer = TableLayer::new();
    let bad = Layer {
        name: "bad".to_string(),
        column_names: vec!["a".to_string(), "b".to_string()],
        rows: vec![vec![Cell::Integer(1)]],
    };
    assert!(matches!(layer.update_data(bad), Err(DatasetError::Schema(_))));
    assert!(layer.loading());
    assert_eq!(layer.token(), 0);
}

#[test]
fn filter_request_runs_and_applies() {
    let mut layer = TableLayer::new();
    layer.update_data(people_layer()).unwrap();
    assert!(layer.set_filter_text(0, "al".to_string()).is_none());
    assert_eq!(layer.filter_text(0), "al");
    assert_eq!(layer.rows_count(), 2);
    layer.toggle_filter();
    assert!(layer.filter_enabled());
    let job = layer.set_filter_text(0, "al".to_string()).unwrap();
    assert_eq!(job.token(), layer.token());
    assert_eq!(layer.rows_count(), 2);
    let outcome = job.run();
    assert_eq!(outcome.rows, vec![0]);
    assert!(layer.apply_filter(outcome));
    assert_eq!(layer.rows_count(), 1);
    assert_eq!(layer.cell_text(0, 0), "Alice");
}

#[test]
fn clearing_the_filter_restores_all_rows() {
    let mut layer = TableLayer::new();
    layer.update_data(people_layer()).unwrap();
    layer.toggle_filter();
    let job = layer.set_filter_text(0, "bob".to_string()).unwrap();
    assert!(layer.apply_filter(job.run()));
    assert_eq!(layer.rows_count(), 1);
    assert!(layer.set_filter_text(0, String::new()).is_none());
    assert_eq!(layer.rows_count(), 2);
    assert_eq!(layer.cell_text(0, 0), "Alice");
    assert_eq!(layer.cell_text(1, 0), "Bob");
}

#[test]
fn stale_filter_result_is_dropped() {
    let mut layer = TableLayer::new();
    layer.update_data(people_layer()).unwrap();
    layer.toggle_filter();
    let first = layer.set_filter_text(0, "a".to_string()).unwrap();
    let second = layer.set_filter_text(0, "bo".to_string()).unwrap();
    assert_eq!(second.token(), first.token() + 1);
    let late = first.run();
    let current = second.run();
    assert!(layer.apply_filter(current));
    assert!(!layer.apply_filter(late));
    assert_eq!(layer.rows_count(), 1);
    assert_eq!(layer.cell_text(0, 0), "Bob");
}

#[test]
fn result_with_foreign_rows_is_dropped() {
    let mut layer = TableLayer::new();
    layer.update_data(people_layer()).unwrap();
    let token = layer.token();
    assert!(!layer.apply_filter(FilterOutcome { token, rows: vec![0, 5] }));
    assert!(!layer.apply_sort(SortOutcome { token, rows: vec![7] }));
    assert_eq!(layer.rows_count(), 2);
}

#[test]
fn filter_result_out_of_row_order_is_dropped() {
    let mut layer = TableLayer::new();
    layer.update_data(people_layer()).unwrap();
    let token = layer.token();
    assert!(!layer.apply_filter(FilterOutcome { token, rows: vec![1, 0] }));
    assert!(!layer.apply_filter(FilterOutcome { token, rows: vec![0, 0] }));
    assert!(layer.apply_filter(FilterOutcome { token, rows: vec![1] }));
    assert_eq!(layer.rows_count(), 1);
}

#[test]
fn sort_result_must_rearrange_the_filtered_rows() {
    let mut layer = TableLayer::new();
    layer.update_data(people_layer()).unwrap();
    let token = layer.token();
    assert!(!layer.apply_sort(SortOutcome { token, rows: vec![0, 0] }));
    assert!(!layer.apply_sort(SortOutcome { token, rows: vec![1] }));
    assert!(!layer.apply_sort(SortOutcome { token, rows: vec![0, 1, 1] }));
    assert!(layer.apply_sort(SortOutcome { token, rows: vec![1, 0] }));
    assert_eq!(layer.cell_text(0, 0), "Bob");
}

#[test]
fn sort_request_runs_and_applies() {
    let mut layer = TableLayer::new();
    layer.update_data(people_layer()).unwrap();
    let job = layer.perform_sort(0, SortDirection::Descending).unwrap();
    assert_eq!(layer.sort_state(), Some((0, SortDirection::Descending)));
    assert!(layer.apply_sort(job.run()));
    assert_eq!(layer.cell_text(0, 0), "Bob");
    assert_eq!(ages(&layer), vec!["null".to_string(), "30".to_string()]);
    assert!(layer.perform_sort(0, SortDirection::Default).is_none());
    assert_eq!(layer.cell_text(0, 0), "Alice");
}

#[test]
fn stale_sort_result_is_dropped() {
    let mut layer = TableLayer::new();
    layer.update_data(people_layer()).unwrap();
    let first = layer.perform_sort(0, SortDirection::Descending).unwrap();
    let second = layer.perform_sort(0, SortDirection::Ascending).unwrap();
    assert!(!layer.apply_sort(first.run()));
    assert!(layer.apply_sort(second.run()));
    assert_eq!(layer.cell_text(0, 0), "Alice");
}

#[test]
fn filter_resets_the_sort() {
    let mut layer = TableLayer::new();
    layer.update_data(people_layer()).unwrap();
    layer.toggle_filter();
    let sort = layer.perform_sort(0, SortDirection::Descending).unwrap();
    assert!(layer.apply_sort(sort.run()));
    let job = layer.set_filter_text(1, "3".to_string()).unwrap();
    assert_eq!(layer.sort_state(), None);
    assert!(layer.apply_filter(job.run()));
    assert_eq!(layer.rows_count(), 1);
    assert_eq!(layer.cell_text(0, 0), "Alice");
}

#[test]
fn scenario_layer_switch_drops_old_filter_result() {
    let mut view = TableView::new();
    assert!(!view.has_data());
    let token = view.open();
    let names = vec!["first".to_string(), "second".to_string()];
    let action = view.layers_listed(token, "data.gpkg".to_string(), Ok(names));
    let load = match action {
        ViewAction::LoadLayer { token, path, layer } => {
            assert_eq!(path, "data.gpkg");
            assert_eq!(layer, "first");
            token
        }
        _ => panic!("expected a layer load"),
    };
    assert!(matches!(view.layer_loaded(load, Ok(people_layer())), ViewAction::Idle));
    assert_eq!(view.table().rows_count(), 2);
    view.on_action_toggle_search();
    let pending = view.set_filter_text(0, "al".to_string()).unwrap();

    let load = match view.select_layer(1) {
        ViewAction::LoadLayer { token, layer, .. } => {
            assert_eq!(layer, "second");
            token
        }
        _ => panic!("expected a layer load"),
    };
    assert_eq!(view.active_tab(), 1);
    let second = Layer {
        name: "second".to_string(),
        column_names: vec!["city".to_string()],
        rows: vec![
            vec![Cell::Text("Oslo".to_string())],
            vec![Cell::Text("Lima".to_string())],
            vec![Cell::Text("Alba".to_string())],
        ],
    };
    assert!(matches!(view.layer_loaded(load, Ok(second)), ViewAction::Idle));
    assert!(!view.apply_filter(pending.run()));
    assert_eq!(view.table().rows_count(), 3);
    assert_eq!(view.table().cell_text(0, 0), "Oslo");

    let job = view.set_filter_text(0, "li".to_string()).unwrap();
    assert!(view.apply_filter(job.run()));
    assert_eq!(view.table().rows_count(), 1);
    assert_eq!(view.table().cell_text(0, 0), "Lima");
}

#[test]
fn stale_layer_load_is_dropped() {
    let mut view = TableView::new();
    let token = view.open();
    let names = vec!["a".to_string(), "b".to_string()];
    let first = match view.layers_listed(token, "f".to_string(), Ok(names)) {
        ViewAction::LoadLayer { token, .. } => token,
        _ => panic!("expected a layer load"),
    };
    let second = match view.select_layer(1) {
        ViewAction::LoadLayer { token, .. } => token,
        _ => panic!("expected a layer load"),
    };
    assert!(matches!(view.layer_loaded(first, Ok(people_layer())), ViewAction::Idle));
    assert!(view.table().loading());
    assert!(matches!(view.layer_loaded(second, Ok(people_layer())), ViewAction::Idle));
    assert!(!view.table().loading());
}

#[test]
fn load_errors_become_notifications() {
    let mut view = TableView::new();
    let token = view.open();
    let err = DatasetError::Io { kind: IoKind::NotFound, message: "no such file".to_string() };
    match view.layers_listed(token, "missing.gpkg".to_string(), Err(err)) {
        ViewAction::Notify(m) => assert_eq!(m, "Failed to load data\nFile not found."),
        _ => panic!("expected a notification"),
    }
    assert!(!view.has_data());
    let stale = view.layers_listed(token + 7, "x".to_string(), Ok(vec!["a".to_string()]));
    assert!(matches!(stale, ViewAction::Idle));
    assert!(!view.has_data());
}

#[test]
fn error_messages_name_the_failure() {
    let io = DatasetError::Io { kind: IoKind::Other, message: "disk error".to_string() };
    assert_eq!(error_message("Open", &io), "Open\ndisk error");
    let format = DatasetError::Format("not a dataset".to_string());
    assert_eq!(error_message("Open", &format), "Open\nnot a dataset");
    let schema = DatasetError::Schema("no columns".to_string());
    assert_eq!(error_message("Load", &schema), "Load\nno columns");
    let missing = DatasetError::Io { kind: IoKind::NotFound, message: "x".to_string() };
    assert_eq!(error_message("Load", &missing), "Load\nFile not found.");
    let denied = DatasetError::Io { kind: IoKind::PermissionDenied, message: "x".to_string() };
    assert_eq!(error_message("Load", &denied), "Load\nFile not found.");
}

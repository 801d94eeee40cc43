//! End-to-end runs of the tool calls the model makes, on a small sales sheet.

use ledger_core::cells::{Cell, Table};
use ledger_core::dec::Dec;
use ledger_core::ingest::csv_table;
use ledger_core::json::{obj_insert, Json};
use ledger_core::tools::{self, Step};
use ledger_core::workspace::{FileKind, LoadedFile, Workspace};

fn num(s: &str) -> Cell {
    Cell::Number(Dec::parse(s).unwrap())
}

fn text(s: &str) -> Cell {
    Cell::Text(s.to_string())
}

fn obj(pairs: Vec<(&str, Json)>) -> Json {
    let mut e: Vec<(String, Json)> = Vec::new();
    for (k, v) in pairs {
        obj_insert(&mut e, k.to_string(), v);
    }
    Json::Object(e)
}

fn s(v: &str) -> Json {
    Json::from_str(v)
}

fn n(v: u64) -> Json {
    Json::from_u64(v)
}

fn arr(items: Vec<Json>) -> Json {
    Json::Array(items)
}

fn get<'a>(j: &'a Json, k: &str) -> &'a Json {
    j.get(k).unwrap_or_else(|| panic!("missing key {k}"))
}

fn text_of(j: &Json) -> String {
    j.as_str().expect("a string").clone()
}

fn rows_of(j: &Json) -> &Vec<Json> {
    j.as_array().expect("an array")
}

/// The sheet an xlsx with these rows loads as (numbers as the reader makes them).
fn sales_table() -> Table {
    let rows = vec![
        ("Kumasi Traders", "Supplies", "1250.4", "3"),
        ("Accra Wholesale", "Supplies", "980.1", "2"),
        ("Kumasi Traders", "Transport", "300", "1"),
        ("Volta Goods", "Supplies", "45.55", "5"),
        ("Accra Wholesale", "Transport", "120.9", "2"),
    ];
    Table {
        columns: vec!["Vendor".into(), "Category".into(), "Amount".into(), "Quantity".into()],
        rows: rows
            .into_iter()
            .map(|(v, c, a, q)| vec![text(v), text(c), num(a), num(q)])
            .collect(),
    }
}

fn ws_with_sales() -> Workspace {
    let mut ws = Workspace::new("/tmp/ledger-exports".to_string());
    ws.add_file(LoadedFile {
        path: "/tmp/data/sales.xlsx".to_string(),
        name: "sales.xlsx".to_string(),
        kind: FileKind::Excel { sheets: vec![("Sheet1".to_string(), sales_table())] },
    });
    ws
}

fn run(ws: &mut Workspace, name: &str, args: Json) -> (Json, String, bool) {
    match tools::execute(ws, name, args) {
        Step::Done(p, s, ok) => (p, s, ok),
        Step::Export(_) => panic!("unexpected export"),
    }
}

fn supplies_filter() -> Json {
    obj(vec![
        ("file", s("sales.xlsx")),
        ("conditions", arr(vec![obj(vec![("column", s("Category")), ("op", s("eq")), ("value", s("Supplies"))])])),
    ])
}

#[test]
fn load_reports_schema() {
    let mut ws = ws_with_sales();
    let (v, _, ok) = run(&mut ws, "list_files", obj(vec![]));
    assert!(ok);
    let files = rows_of(get(&v, "files"));
    assert_eq!(files.len(), 1);
    let sheet = &rows_of(get(&files[0], "sheets"))[0];
    assert_eq!(get(sheet, "row_count").as_u64(), Some(5));
    let cols: Vec<String> = rows_of(get(sheet, "columns")).iter().map(text_of).collect();
    assert_eq!(cols, vec!["Vendor", "Category", "Amount", "Quantity"]);
}

#[test]
fn filter_then_aggregate_is_exact() {
    let mut ws = ws_with_sales();
    let (v, _, ok) = run(&mut ws, "filter_rows", supplies_filter());
    assert!(ok, "{}", v.to_text());
    assert_eq!(get(&v, "row_count").as_u64(), Some(3));
    let r1 = text_of(get(&v, "result_id"));

    let (v, _, ok) = run(
        &mut ws,
        "aggregate",
        obj(vec![
            ("result_id", s(&r1)),
            ("group_by", arr(vec![s("Vendor")])),
            ("aggregations", arr(vec![obj(vec![("column", s("Amount")), ("fn", s("sum"))])])),
        ]),
    );
    assert!(ok, "{}", v.to_text());
    let rows = rows_of(get(&v, "preview_first_rows"));
    assert_eq!(text_of(get(&rows[0], "Vendor")), "Accra Wholesale");
    assert_eq!(text_of(get(&rows[0], "sum(Amount)")), "980.1");
    assert_eq!(text_of(get(&rows[1], "Vendor")), "Kumasi Traders");
    assert_eq!(text_of(get(&rows[1], "sum(Amount)")), "1250.4");
    assert_eq!(text_of(get(&rows[2], "Vendor")), "Volta Goods");
    assert_eq!(text_of(get(&rows[2], "sum(Amount)")), "45.55");
}

#[test]
fn grand_total_and_vat_chain() {
    let mut ws = ws_with_sales();
    let (v, _, ok) = run(
        &mut ws,
        "aggregate",
        obj(vec![
            ("file", s("sales.xlsx")),
            ("group_by", arr(vec![])),
            ("aggregations", arr(vec![obj(vec![("column", s("Amount")), ("fn", s("sum"))])])),
        ]),
    );
    assert!(ok, "{}", v.to_text());
    let total = text_of(get(&rows_of(get(&v, "preview_first_rows"))[0], "sum(Amount)"));
    assert_eq!(total, "2696.95");

    let (v, _, ok) = run(&mut ws, "calculate", obj(vec![("expression", s(&format!("{total} * 0.15")))]));
    assert!(ok);
    assert_eq!(text_of(get(&v, "result")), "404.5425");
}

#[test]
fn compute_column_line_totals() {
    let mut ws = ws_with_sales();
    let (v, _, ok) = run(
        &mut ws,
        "compute_column",
        obj(vec![
            ("file", s("sales.xlsx")),
            ("new_column", s("Line Total")),
            ("expression", s("Amount * Quantity")),
            ("round_dp", n(2)),
        ]),
    );
    assert!(ok, "{}", v.to_text());
    let rows = rows_of(get(&v, "preview_first_rows"));
    assert_eq!(text_of(get(&rows[0], "Line Total")), "3751.2");
    assert_eq!(text_of(get(&rows[3], "Line Total")), "227.75");
}

#[test]
fn sort_top_n() {
    let mut ws = ws_with_sales();
    let (v, _, ok) = run(
        &mut ws,
        "sort_rows",
        obj(vec![
            ("file", s("sales.xlsx")),
            ("column", s("Amount")),
            ("descending", Json::Bool(true)),
            ("limit", n(2)),
        ]),
    );
    assert!(ok, "{}", v.to_text());
    let rows = rows_of(get(&v, "preview_first_rows"));
    assert_eq!(rows.len(), 2);
    assert_eq!(text_of(get(&rows[0], "Amount")), "1250.4");
    assert_eq!(text_of(get(&rows[1], "Amount")), "980.1");
}

#[test]
fn bad_column_is_a_recoverable_error_and_audited() {
    let mut ws = ws_with_sales();
    let (v, _, ok) = run(
        &mut ws,
        "aggregate",
        obj(vec![
            ("file", s("sales.xlsx")),
            ("group_by", arr(vec![s("Vendor")])),
            ("aggregations", arr(vec![obj(vec![("column", s("Amout")), ("fn", s("sum"))])])),
        ]),
    );
    assert!(!ok);
    let err = text_of(get(&v, "error"));
    assert!(err.contains("Amout"));
    assert!(err.contains("Amount"), "error should list real columns: {err}");
    let last = ws.audit.entries().last().unwrap();
    assert!(!last.ok);
}

#[test]
fn export_roundtrip_and_no_overwrite() {
    let mut ws = ws_with_sales();
    let (v, _, ok) = run(
        &mut ws,
        "aggregate",
        obj(vec![
            ("file", s("sales.xlsx")),
            ("group_by", arr(vec![s("Vendor")])),
            ("aggregations", arr(vec![obj(vec![("column", s("Amount")), ("fn", s("sum"))])])),
        ]),
    );
    assert!(ok);
    let rid = text_of(get(&v, "result_id"));

    let job = match tools::execute(&mut ws, "export_xlsx", obj(vec![("result_id", s(&rid)), ("filename", s("vendor_totals.xlsx"))])) {
        Step::Export(job) => job,
        Step::Done(p, _, _) => panic!("expected an export, got {}", p.to_text()),
    };
    assert_eq!(job.base, "vendor_totals");
    let first = tools::excel::export_candidate("/tmp/ledger-exports", &job.base, 0);
    assert!(first.ends_with("vendor_totals.xlsx"));
    let (table, label) = tools::excel::export_xlsx(&ws, &job.args, &first).map_err(|e| e.message()).unwrap();
    assert_eq!(table.rows.len(), 3);
    // Kumasi Traders across both categories: 1250.40 + 300.00
    match &table.rows[1][1] {
        Cell::Number(d) => assert_eq!(d.normalize().to_text(), "1550.4"),
        _ => panic!("not a number"),
    }
    let (done, _) = tools::excel::export_done(&label, table.rows.len(), &first);
    assert_eq!(get(&done, "rows_written").as_u64(), Some(3));
    let (p, _, ok) = tools::record(&mut ws, "export_xlsx", job.args, Ok((done, "exported".to_string())));
    assert!(ok);
    assert_eq!(text_of(get(&p, "saved_to")), first);

    // exporting again with the same name must not overwrite: the first free
    // candidate after an existing file gets " (1)"
    let second = tools::excel::export_candidate("/tmp/ledger-exports", &job.base, 1);
    assert!(second.contains("(1)"));
    assert_ne!(second, first);
}

#[test]
fn csv_loading_and_lenient_numbers() {
    let table = csv_table("Description,Amount\nOffice rent,\"1,200.50\"\nRefund,(300.25)\nStationery,45\n", ',');
    let mut ws = Workspace::new("/tmp/ledger-exports".to_string());
    ws.add_file(LoadedFile {
        path: "/tmp/data/ledger.csv".to_string(),
        name: "ledger.csv".to_string(),
        kind: FileKind::Excel { sheets: vec![("Sheet1".to_string(), table)] },
    });
    let (v, _, ok) = run(
        &mut ws,
        "aggregate",
        obj(vec![
            ("file", s("ledger.csv")),
            ("group_by", arr(vec![])),
            ("aggregations", arr(vec![obj(vec![("column", s("Amount")), ("fn", s("sum"))])])),
        ]),
    );
    assert!(ok, "{}", v.to_text());
    assert_eq!(text_of(get(&rows_of(get(&v, "preview_first_rows"))[0], "sum(Amount)")), "945.25");
}

#[test]
fn table_view_reports_changes() {
    let mut ws = ws_with_sales();
    let (v, _, ok) = run(
        &mut ws,
        "compute_column",
        obj(vec![
            ("file", s("sales.xlsx")),
            ("new_column", s("Line Total")),
            ("expression", s("Amount * Quantity")),
            ("round_dp", n(2)),
        ]),
    );
    assert!(ok, "{}", v.to_text());
    let rid = text_of(get(&v, "result_id"));

    let view = ws.table_view(Some(&rid), None, None, 0, 100).map_err(|e| e.message()).unwrap();
    assert_eq!(text_of(get(&view, "kind")), "result");
    let change = get(&view, "change");
    assert_eq!(text_of(get(change, "op")), "compute_column");
    let added = rows_of(get(change, "added_columns"));
    assert_eq!(added.len(), 1);
    assert_eq!(text_of(&added[0]), "Line Total");
    assert_eq!(get(change, "source_row_count").as_u64(), get(change, "result_row_count").as_u64());
    let first_row = rows_of(&rows_of(get(&view, "rows"))[0]);
    assert_eq!(text_of(first_row.last().unwrap()), "3751.2");

    let (v, _, ok) = run(&mut ws, "filter_rows", supplies_filter());
    assert!(ok);
    let fid = text_of(get(&v, "result_id"));
    let fview = ws.table_view(Some(&fid), None, None, 0, 100).map_err(|e| e.message()).unwrap();
    assert_eq!(get(get(&fview, "change"), "source_row_count").as_u64(), Some(5));
    assert_eq!(get(get(&fview, "change"), "result_row_count").as_u64(), Some(3));
    assert!(rows_of(get(get(&fview, "change"), "added_columns")).is_empty());

    let file_view = ws.table_view(None, Some("sales.xlsx"), None, 0, 100).map_err(|e| e.message()).unwrap();
    assert_eq!(text_of(get(&file_view, "kind")), "file");
    assert!(file_view.get("change").is_none());
}

#[test]
fn new_chat_clears_results_keeps_files() {
    let mut ws = ws_with_sales();
    run(&mut ws, "filter_rows", supplies_filter());
    assert_eq!(rows_of(get(&ws.list(), "results")).len(), 1);
    ws.clear_results();
    assert_eq!(rows_of(get(&ws.list(), "results")).len(), 0);
    assert_eq!(rows_of(get(&ws.list(), "files")).len(), 1);
    let (v, _, _) = run(&mut ws, "sort_rows", obj(vec![("file", s("sales.xlsx")), ("column", s("Amount"))]));
    assert_eq!(text_of(get(&v, "result_id")), "r1");
}

#[test]
fn unknown_tool_and_missing_file_errors() {
    let mut ws = Workspace::new("/tmp/ledger-exports".to_string());
    let (v, _, ok) = run(&mut ws, "delete_everything", obj(vec![]));
    assert!(!ok);
    assert!(text_of(get(&v, "error")).contains("unknown tool"));

    let (v, _, ok) = run(&mut ws, "get_schema", obj(vec![("file", s("ghost.xlsx"))]));
    assert!(!ok);
    assert!(text_of(get(&v, "error")).contains("not found"));
}

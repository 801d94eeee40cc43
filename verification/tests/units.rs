//! Unit checks of the engine's parts: parsing, tables, JSON, tools, the turn,
//! and what the desktop shell shows.

use ledger_core::audit::AuditEntry;
use ledger_core::cells::{parse_decimal_lenient, row_to_json, Cell, Table};
use ledger_core::dec::Dec;
use ledger_core::desk;
use ledger_core::ingest::{csv_kind, csv_table, grid_table, load_plan, pdf_kind, split_csv_line, text_cell, workbook_kind, FileType};
use ledger_core::json::{obj_insert, Json};
use ledger_core::ollama::{
    bad_response_error, endpoint_url, model_names, status_error, tags_unreachable_error, unreachable_error, ChatMessage,
};
use ledger_core::orchestrator::{self, Turn, MAX_ROUNDS};
use ledger_core::tools::excel::{export_probe, ExportProbe};
use ledger_core::tools::{self, Step};
use ledger_core::workspace::{FileKind, LoadedFile, Workspace};

fn num(s: &str) -> Cell {
    Cell::Number(Dec::parse(s).unwrap())
}

fn text(s: &str) -> Cell {
    Cell::Text(s.to_string())
}

fn obj(pairs: Vec<(&str, Json)>) -> Json {
    let mut e: Vec<(String, Json)> = Vec::new();
    for (k, v) in pairs {
        obj_insert(&mut e, k.to_string(), v);
    }
    Json::Object(e)
}

fn s(v: &str) -> Json {
    Json::from_str(v)
}

fn get<'a>(j: &'a Json, k: &str) -> &'a Json {
    j.get(k).unwrap_or_else(|| panic!("missing key {k}"))
}

fn text_of(j: &Json) -> String {
    j.as_str().expect("a string").clone()
}

fn items(j: &Json) -> &Vec<Json> {
    j.as_array().expect("an array")
}

fn lenient(s: &str) -> Option<String> {
    parse_decimal_lenient(s).map(|d| d.normalize().to_text())
}

fn run(ws: &mut Workspace, name: &str, args: Json) -> (Json, String, bool) {
    match tools::execute(ws, name, args) {
        Step::Done(p, s, ok) => (p, s, ok),
        Step::Export(_) => panic!("unexpected export"),
    }
}

fn ledger() -> Table {
    Table {
        columns: vec!["Vendor".into(), "Amount".into(), "Note".into()],
        rows: vec![
            vec![text("b"), num("10"), text("x")],
            vec![text("A"), num("2.5"), text("")],
            vec![text("b"), text("GHS 1,000.00"), text("keep")],
            vec![text("a"), Cell::Empty, Cell::Bool(true)],
        ],
    }
}

fn ws_with(table: Table) -> Workspace {
    let mut ws = Workspace::new("/tmp/exports".to_string());
    ws.add_file(LoadedFile {
        path: "/tmp/data/book.xlsx".to_string(),
        name: "book.xlsx".to_string(),
        kind: FileKind::Excel { sheets: vec![("Sheet1".to_string(), table)] },
    });
    ws
}

fn add_pdf(ws: &mut Workspace, text: &str) {
    ws.add_file(LoadedFile {
        path: "/tmp/data/inv.pdf".to_string(),
        name: "inv.pdf".to_string(),
        kind: FileKind::Pdf { text: text.to_string(), page_count_hint: 1 },
    });
}

// ------------------------------------------------------------------ numbers

#[test]
fn lenient_numbers_read_accounting_formats() {
    assert_eq!(lenient("1,234.50"), Some("1234.5".to_string()));
    assert_eq!(lenient("GHS 1,234.50"), Some("1234.5".to_string()));
    assert_eq!(lenient("(500)"), Some("-500".to_string()));
    assert_eq!(lenient("12%"), Some("0.12".to_string()));
    assert_eq!(lenient("  42 "), Some("42".to_string()));
    assert_eq!(lenient("abc"), None);
    assert_eq!(lenient("   "), None);
}

#[test]
fn decimals_round_and_print_exactly() {
    let x = Dec::parse("2.345").unwrap();
    assert_eq!(x.round_dp(2).to_text(), "2.34");
    assert_eq!(Dec::parse("1.50").unwrap().to_text(), "1.50");
    assert_eq!(Dec::parse("1.50").unwrap().normalize().to_text(), "1.5");
    assert_eq!(Dec::from_parts(12504, 1).unwrap().to_text(), "1250.4");
    let a = Dec::parse("0.1").unwrap();
    let b = Dec::parse("0.2").unwrap();
    assert_eq!(a.checked_add(&b).unwrap().to_text(), "0.3");
    assert_eq!(a.compare(&b), -1);
    assert!(Dec::parse("1.0").unwrap().same_value(&Dec::parse("1").unwrap()));
}

#[test]
fn cells_show_and_read_their_values() {
    assert_eq!(num("1.50").as_display(), "1.5");
    assert_eq!(Cell::Bool(true).as_display(), "true");
    assert_eq!(Cell::Empty.as_display(), "");
    assert!(text("   ").is_empty());
    assert!(!text("x").is_empty());
    assert_eq!(text("(7.25)").as_number().unwrap().to_text(), "-7.25");
}

// ------------------------------------------------------------------ tables and JSON

#[test]
fn columns_are_found_ignoring_case_and_spaces() {
    let t = ledger();
    assert_eq!(t.col_index(" amount "), Some(1));
    assert_eq!(t.col_index("VENDOR"), Some(0));
    assert_eq!(t.col_index("Total"), None);
}

#[test]
fn rows_become_json_objects_with_exact_numbers() {
    let t = ledger();
    let j = row_to_json(&t.columns, &t.rows[1]);
    assert_eq!(j.to_text(), "{\"Amount\":\"2.5\",\"Note\":\"\",\"Vendor\":\"A\"}");
    let j = row_to_json(&t.columns, &t.rows[3]);
    assert_eq!(j.to_text(), "{\"Amount\":null,\"Note\":true,\"Vendor\":\"a\"}");
}

#[test]
fn json_text_escapes_like_serde_json() {
    let j = obj(vec![("b", Json::Array(vec![Json::from_u64(1), Json::Bool(true), Json::Null])), ("a", s("x\"y\n\u{1}"))]);
    assert_eq!(j.to_text(), "{\"a\":\"x\\\"y\\n\\u0001\",\"b\":[1,true,null]}");
}

#[test]
fn csv_fields_honour_quotes() {
    assert_eq!(split_csv_line("a,\"b, c\",\"say \"\"hi\"\"\",", ','), vec!["a", "b, c", "say \"hi\"", ""]);
    assert_eq!(split_csv_line("x\ty", '\t'), vec!["x", "y"]);
}

#[test]
fn csv_header_blanks_get_column_names() {
    let t = csv_table("Name,,Total\nA,1,2\n\n B ,x,(3)\n", ',');
    assert_eq!(t.columns, vec!["Name", "Column2", "Total"]);
    assert_eq!(t.rows.len(), 2);
    assert_eq!(t.rows[1][0].as_display(), "B");
    assert_eq!(t.rows[1][2].as_number().unwrap().to_text(), "-3");
}

#[test]
fn grids_become_tables_without_empty_rows() {
    let grid = vec![
        vec![text(" Vendor "), Cell::Empty, num("2024")],
        vec![text("A"), num("1"), Cell::Empty],
        vec![Cell::Empty, text("  "), Cell::Empty],
        vec![text("B"), Cell::Empty, Cell::Empty],
    ];
    let t = grid_table(&grid);
    assert_eq!(t.columns, vec!["Vendor", "Column2", "2024"]);
    assert_eq!(t.rows.len(), 2);
    assert_eq!(t.rows[1][0].as_display(), "B");
}

#[test]
fn workbooks_keep_sheets_by_name() {
    assert_eq!(workbook_kind(vec![]).unwrap_err().message(), "Excel read error: workbook has no readable sheets");
    let one = Table { columns: vec!["A".into()], rows: vec![] };
    let two = Table { columns: vec!["B".into()], rows: vec![] };
    let three = Table { columns: vec!["C".into()], rows: vec![] };
    match workbook_kind(vec![("Zeta".into(), one), ("Alpha".into(), two), ("Zeta".into(), three)]).unwrap() {
        FileKind::Excel { sheets } => {
            assert_eq!(sheets.len(), 2);
            assert_eq!(sheets[0].0, "Alpha");
            assert_eq!(sheets[1].0, "Zeta");
            assert_eq!(sheets[1].1.columns, vec!["C"]);
        },
        FileKind::Pdf { .. } => panic!("not a workbook"),
    }
}

#[test]
fn paths_decide_how_a_file_is_read() {
    let (name, t) = load_plan("/data/Report.XLSX").unwrap();
    assert_eq!(name, "Report.XLSX");
    assert!(matches!(t, FileType::Spreadsheet));
    assert!(matches!(load_plan("a.tsv").unwrap().1, FileType::Delimited('\t')));
    assert!(matches!(load_plan("a.csv").unwrap().1, FileType::Delimited(',')));
    assert!(matches!(load_plan("scan.pdf").unwrap().1, FileType::Pdf));
    assert_eq!(
        load_plan("notes.doc").unwrap_err().message(),
        "invalid argument: unsupported file type '.doc' \u{2014} supported: xlsx, xls, xlsm, csv, tsv, pdf"
    );
    assert_eq!(load_plan("/").unwrap_err().message(), "invalid argument: path has no file name");
}

#[test]
fn unreadable_pdfs_are_reported() {
    let e = pdf_kind(Err("invalid file header".to_string())).unwrap_err().message();
    assert_eq!(
        e,
        "PDF error: invalid file header. If this is a scanned PDF (an image), text extraction won't work \u{2014} it needs OCR."
    );
    match pdf_kind(Ok("page one\u{c}page two\u{c}page three".to_string())).unwrap() {
        FileKind::Pdf { text, page_count_hint } => {
            assert_eq!(page_count_hint, 3);
            assert!(text.starts_with("page one"));
        }
        FileKind::Excel { .. } => panic!("a PDF is text"),
    }
}

// ------------------------------------------------------------------ workspace lookups

#[test]
fn sheets_and_files_are_found_or_explained() {
    let mut ws = Workspace::new("/tmp/exports".to_string());
    ws.add_file(LoadedFile {
        path: "/tmp/data/two.xlsx".into(),
        name: "Two.xlsx".into(),
        kind: FileKind::Excel {
            sheets: vec![("Feb".into(), ledger()), ("Jan".into(), ledger())],
        },
    });
    add_pdf(&mut ws, "hello");
    assert!(ws.file("two.xlsx").is_ok());
    assert_eq!(ws.file("nope.xlsx").unwrap_err().message(), "file not found in workspace: nope.xlsx. Load it first, or call list_files.");
    assert_eq!(
        ws.sheet("Two.xlsx", None).unwrap_err().message(),
        "invalid argument: 'Two.xlsx' has several sheets (Feb, Jan) \u{2014} specify one"
    );
    assert!(ws.sheet("Two.xlsx", Some("jan")).is_ok());
    assert_eq!(
        ws.sheet("Two.xlsx", Some("Mar")).unwrap_err().message(),
        "sheet 'Mar' not found in 'Two.xlsx'. Available sheets: Feb, Jan"
    );
    assert!(ws.sheet("inv.pdf", None).unwrap_err().message().contains("is a PDF, not a spreadsheet"));
    assert_eq!(ws.result("r9").unwrap_err().message(), "result 'r9' not found. Use the result_id returned by a previous step.");
    assert!(ws.is_source_path("/tmp/data/two.xlsx"));
    assert!(!ws.is_source_path("/tmp/exports/two.xlsx"));
}

#[test]
fn pdf_views_cut_at_a_character_boundary() {
    let mut ws = Workspace::new("/tmp/exports".to_string());
    let long: String = std::iter::repeat("\u{20ac}").take(3000).collect();
    add_pdf(&mut ws, &long);
    let v = ws.table_view(None, Some("inv.pdf"), None, 0, 10).unwrap();
    assert_eq!(text_of(get(&v, "kind")), "pdf");
    assert_eq!(text_of(get(&v, "text")).chars().count(), 2666);
    assert_eq!(get(&v, "truncated").as_bool(), Some(true));
}

// ------------------------------------------------------------------ tools

#[test]
fn filters_compare_numbers_and_text() {
    let mut ws = ws_with(ledger());
    let cond = |op: &str, v: Option<Json>| {
        let mut c = vec![("column", s("Amount")), ("op", s(op))];
        if let Some(v) = v {
            c.push(("value", v));
        }
        obj(vec![("file", s("book.xlsx")), ("conditions", Json::Array(vec![obj(c)]))])
    };
    let (v, _, ok) = run(&mut ws, "filter_rows", cond("gt", Some(s("5"))));
    assert!(ok);
    assert_eq!(get(&v, "row_count").as_u64(), Some(2));
    let (v, _, ok) = run(&mut ws, "filter_rows", cond("not_empty", None));
    assert!(ok);
    assert_eq!(get(&v, "row_count").as_u64(), Some(3));
    let (v, _, ok) = run(&mut ws, "filter_rows", cond("gte", None));
    assert!(!ok);
    assert_eq!(text_of(get(&v, "error")), "invalid argument: condition on 'Amount' with op 'gte' needs a 'value'");
    let (v, _, ok) = run(&mut ws, "filter_rows", cond("like", Some(s("1"))));
    assert!(!ok);
    assert_eq!(text_of(get(&v, "error")), "invalid argument: unknown op 'like'");
    let text_cond = obj(vec![
        ("file", s("book.xlsx")),
        ("conditions", Json::Array(vec![obj(vec![("column", s("vendor")), ("op", s("eq")), ("value", s("B"))])])),
    ]);
    let (v, s1, ok) = run(&mut ws, "filter_rows", text_cond);
    assert!(ok);
    assert_eq!(get(&v, "row_count").as_u64(), Some(2));
    assert!(s1.starts_with("filter [vendor eq \"B\"] on book.xlsx -> r"));
    let (v, _, ok) = run(&mut ws, "filter_rows", obj(vec![("file", s("book.xlsx")), ("conditions", Json::Array(vec![]))]));
    assert!(!ok);
    assert_eq!(text_of(get(&v, "error")), "invalid argument: 'conditions' is empty");
}

#[test]
fn aggregates_cover_every_function() {
    let mut ws = ws_with(ledger());
    let agg = |f: &str, col: &str| obj(vec![("column", s(col)), ("fn", s(f))]);
    let (v, summary, ok) = run(
        &mut ws,
        "aggregate",
        obj(vec![
            ("file", s("book.xlsx")),
            ("group_by", Json::Array(vec![s("Vendor")])),
            (
                "aggregations",
                Json::Array(vec![agg("sum", "Amount"), agg("avg", "Amount"), agg("min", "Amount"), agg("max", "Amount"), agg("count", "Note")]),
            ),
        ]),
    );
    assert!(ok, "{}", v.to_text());
    assert_eq!(
        summary,
        "sum(Amount), avg(Amount), min(Amount), max(Amount), count(Note) grouped by [Vendor] on book.xlsx -> r1 (3 rows)"
    );
    let rows = items(get(&v, "preview_first_rows"));
    // groups in key order: "A" < "a" < "b"
    assert_eq!(text_of(get(&rows[0], "Vendor")), "A");
    assert_eq!(text_of(get(&rows[1], "Vendor")), "a");
    assert!(get(&rows[1], "avg(Amount)").is_null());
    assert!(get(&rows[1], "min(Amount)").is_null());
    assert_eq!(text_of(get(&rows[1], "count(Note)")), "1");
    assert_eq!(text_of(get(&rows[2], "sum(Amount)")), "1010");
    assert_eq!(text_of(get(&rows[2], "avg(Amount)")), "505");
    assert_eq!(text_of(get(&rows[2], "min(Amount)")), "10");
    assert_eq!(text_of(get(&rows[2], "max(Amount)")), "1000");
    assert_eq!(text_of(get(&rows[2], "count(Note)")), "2");
    let (v, _, ok) = run(
        &mut ws,
        "aggregate",
        obj(vec![("file", s("book.xlsx")), ("aggregations", Json::Array(vec![agg("median", "Amount")]))]),
    );
    assert!(!ok);
    assert_eq!(text_of(get(&v, "error")), "invalid argument: unknown aggregation fn 'median' (use sum, avg, min, max, count)");
}

#[test]
fn aggregate_overflow_is_an_error() {
    let big = Table {
        columns: vec!["X".into()],
        rows: vec![vec![num("79228162514264337593543950335")], vec![num("79228162514264337593543950335")]],
    };
    let mut ws = ws_with(big);
    let (v, _, ok) = run(
        &mut ws,
        "aggregate",
        obj(vec![("file", s("book.xlsx")), ("aggregations", Json::Array(vec![obj(vec![("column", s("X")), ("fn", s("sum"))])]))]),
    );
    assert!(!ok);
    assert_eq!(text_of(get(&v, "error")), "expression error: arithmetic overflow");
}

#[test]
fn sorting_is_stable_and_ignores_case_for_text() {
    let t = Table {
        columns: vec!["K".into(), "N".into()],
        rows: vec![
            vec![text("b"), num("1")],
            vec![text("A"), num("2")],
            vec![text("B"), num("3")],
            vec![text("a"), num("4")],
        ],
    };
    let mut ws = ws_with(t);
    let (v, _, ok) = run(&mut ws, "sort_rows", obj(vec![("file", s("book.xlsx")), ("column", s("K"))]));
    assert!(ok);
    let rows = items(get(&v, "preview_first_rows"));
    let order: Vec<String> = rows.iter().map(|r| text_of(get(r, "N"))).collect();
    assert_eq!(order, vec!["2", "4", "1", "3"]);
    let (v, _, ok) = run(&mut ws, "sort_rows", obj(vec![("file", s("book.xlsx"))]));
    assert!(!ok);
    assert_eq!(text_of(get(&v, "error")), "invalid argument: 'column' is required");
}

#[test]
fn computed_columns_explain_blank_rows_and_bad_names() {
    let mut ws = ws_with(ledger());
    let (v, summary, ok) = run(
        &mut ws,
        "compute_column",
        obj(vec![("file", s("book.xlsx")), ("new_column", s("Twice")), ("expression", s("Amount * 2"))]),
    );
    assert!(ok, "{}", v.to_text());
    assert!(summary.starts_with("computed Twice = Amount * 2 on book.xlsx (1 rows blank: non-numeric inputs) -> r1"));
    let (v, _, ok) = run(
        &mut ws,
        "compute_column",
        obj(vec![("file", s("book.xlsx")), ("new_column", s("amount")), ("expression", s("1"))]),
    );
    assert!(!ok);
    assert_eq!(text_of(get(&v, "error")), "invalid argument: column 'amount' already exists \u{2014} choose a new name");
    let (v, _, ok) = run(
        &mut ws,
        "compute_column",
        obj(vec![("file", s("book.xlsx")), ("new_column", s("Y")), ("expression", s("Amout * 2"))]),
    );
    assert!(!ok);
    assert_eq!(text_of(get(&v, "error")), "expression error: unknown name 'Amout' in expression");
}

#[test]
fn show_rows_pages_and_caps() {
    let t = Table {
        columns: vec!["N".into()],
        rows: (0..80).map(|i| vec![num(&i.to_string())]).collect(),
    };
    let mut ws = ws_with(t);
    let (v, summary, ok) = run(&mut ws, "show_rows", obj(vec![("file", s("book.xlsx")), ("offset", Json::from_u64(70))]));
    assert!(ok);
    assert_eq!(items(get(&v, "rows")).len(), 10);
    assert_eq!(summary, "showed 10 rows of book.xlsx");
    let (v, _, _) = run(&mut ws, "show_rows", obj(vec![("file", s("book.xlsx")), ("limit", Json::from_u64(500))]));
    assert_eq!(items(get(&v, "rows")).len(), 50);
    assert_eq!(get(&v, "total_rows").as_u64(), Some(80));
    let (_, summary, _) = run(&mut ws, "get_schema", obj(vec![("file", s("book.xlsx")), ("sheet", s("sheet1"))]));
    assert_eq!(summary, "read schema of book.xlsx/sheet1 (80 rows)");
}

#[test]
fn pdf_text_and_amounts() {
    let mut ws = Workspace::new("/tmp/exports".to_string());
    add_pdf(&mut ws, "INVOICE 17\nItems 3\nTotal due: GHS 1,250.40\nRefund (450.00)\nThank you");
    let (v, summary, ok) = run(&mut ws, "extract_pdf_text", obj(vec![("file", s("inv.pdf")), ("query", s("TOTAL"))]));
    assert!(ok);
    assert_eq!(text_of(get(&v, "text")), "Items 3\nTotal due: GHS 1,250.40\nRefund (450.00)");
    assert_eq!(summary, "extracted text from inv.pdf (query: 'TOTAL')");
    let (v, _, _) = run(&mut ws, "extract_pdf_text", obj(vec![("file", s("inv.pdf")), ("max_chars", Json::from_u64(7))]));
    assert_eq!(text_of(get(&v, "text")), "INVOICE");
    assert_eq!(get(&v, "truncated").as_bool(), Some(true));
    let (v, _, _) = run(&mut ws, "extract_pdf_text", obj(vec![("file", s("inv.pdf")), ("query", s("zzz"))]));
    assert_eq!(text_of(get(&v, "text")), "(no lines containing 'zzz')");
    let (v, summary, ok) = run(&mut ws, "extract_pdf_amounts", obj(vec![("file", s("inv.pdf"))]));
    assert!(ok, "{}", v.to_text());
    let found = items(get(&v, "amounts"));
    let amounts: Vec<String> = found.iter().map(|a| text_of(get(a, "amount"))).collect();
    assert_eq!(amounts, vec!["1250.4", "-450"]);
    assert_eq!(text_of(get(&found[0], "line")), "Total due: GHS 1,250.40");
    assert_eq!(summary, "scanned inv.pdf for amounts -> 2 found");
    let (v, _, ok) = run(&mut ws, "extract_pdf_text", obj(vec![]));
    assert!(!ok);
    assert_eq!(text_of(get(&v, "error")), "invalid argument: 'file' is required");
}

#[test]
fn spreadsheets_are_not_pdfs() {
    let mut ws = ws_with(ledger());
    let (v, _, ok) = run(&mut ws, "extract_pdf_amounts", obj(vec![("file", s("book.xlsx"))]));
    assert!(!ok);
    assert_eq!(text_of(get(&v, "error")), "invalid argument: 'book.xlsx' is not a PDF \u{2014} use spreadsheet tools for it");
}

#[test]
fn calculate_needs_an_expression() {
    let mut ws = Workspace::new("/tmp/exports".to_string());
    let (v, summary, ok) = run(&mut ws, "calculate", obj(vec![("expression", s("(1250.40 + 980.10) * 0.15"))]));
    assert!(ok);
    assert_eq!(text_of(get(&v, "result")), "334.575");
    assert_eq!(summary, "calculate (1250.40 + 980.10) * 0.15 = 334.575");
    let (v, summary, ok) = run(&mut ws, "calculate", obj(vec![]));
    assert!(!ok);
    assert_eq!(text_of(get(&v, "error")), "invalid argument: 'expression' is required");
    assert_eq!(summary, "FAILED: invalid argument: 'expression' is required");
}

#[test]
fn tools_never_touch_source_files() {
    let mut ws = ws_with(ledger());
    let before = get(&ws.list(), "files").to_text();
    run(&mut ws, "sort_rows", obj(vec![("file", s("book.xlsx")), ("column", s("Amount"))]));
    run(&mut ws, "compute_column", obj(vec![("file", s("book.xlsx")), ("new_column", s("Z")), ("expression", s("Amount + 1"))]));
    run(&mut ws, "filter_rows", obj(vec![("file", s("book.xlsx")), ("conditions", Json::Array(vec![]))]));
    assert_eq!(get(&ws.list(), "files").to_text(), before);
    assert_eq!(items(get(&ws.list(), "results")).len(), 2);
}

#[test]
fn exports_refuse_source_paths_and_sanitize_names() {
    let mut ws = ws_with(ledger());
    let args = obj(vec![("file", s("book.xlsx")), ("filename", s("../evil/na me?.xlsx"))]);
    let job = match tools::execute(&mut ws, "export_xlsx", args) {
        Step::Export(job) => job,
        Step::Done(p, _, _) => panic!("expected an export: {}", p.to_text()),
    };
    assert_eq!(job.base, "na me_");
    assert_eq!(
        tools::excel::export_xlsx(&ws, &job.args, "/tmp/data/book.xlsx").unwrap_err().message(),
        "refusing to overwrite a source file: /tmp/data/book.xlsx"
    );
    assert!(tools::excel::export_xlsx(&ws, &job.args, "/tmp/exports/na me_.xlsx").is_ok());
    assert_eq!(tools::excel::export_candidate("/tmp/exports", "t", 2), "/tmp/exports/t (2).xlsx");
    let (v, _, ok) = run(&mut ws, "export_xlsx", obj(vec![("file", s("book.xlsx"))]));
    assert!(!ok);
    assert_eq!(text_of(get(&v, "error")), "invalid argument: 'filename' is required");
}

#[test]
fn every_call_is_journaled_in_order() {
    let mut ws = ws_with(ledger());
    run(&mut ws, "list_files", obj(vec![]));
    run(&mut ws, "nope", obj(vec![]));
    run(&mut ws, "calculate", obj(vec![("expression", s("1+1"))]));
    let entries = ws.audit.entries();
    assert_eq!(entries.len(), 3);
    for (i, e) in entries.iter().enumerate() {
        assert_eq!(e.seq as usize, i + 1);
    }
    assert!(entries[0].ok && !entries[1].ok && entries[2].ok);
    assert_eq!(entries[1].tool, "nope");
    assert!(entries[1].summary.starts_with("FAILED: invalid argument: unknown tool 'nope'"));
    assert_eq!(entries[2].summary, "calculate 1+1 = 2");
}

#[test]
fn definitions_offer_every_tool() {
    let defs = tools::definitions();
    let names: Vec<String> = defs.iter().map(|d| text_of(get(get(d, "function"), "name"))).collect();
    assert_eq!(
        names,
        vec![
            "list_files", "get_schema", "filter_rows", "aggregate", "sort_rows", "compute_column", "calculate", "show_rows",
            "export_xlsx", "extract_pdf_text", "extract_pdf_amounts"
        ]
    );
    for d in &defs {
        assert_eq!(text_of(get(d, "type")), "function");
    }
    let params = get(get(&defs[2], "function"), "parameters");
    assert_eq!(items(get(params, "required")).len(), 1);
}

// ------------------------------------------------------------------ the turn

#[test]
fn turns_are_bounded() {
    let mut t = Turn::new();
    let mut notes = Vec::new();
    while let Some(n) = t.next_round() {
        notes.push(n);
    }
    assert_eq!(notes.len(), MAX_ROUNDS);
    assert_eq!(notes[0], "thinking\u{2026}");
    assert_eq!(notes[1], "planning next step\u{2026}");
    assert!(t.next_round().is_none());
    assert!(orchestrator::round_limit_text().starts_with("I stopped after 8 tool steps"));
}

#[test]
fn replies_and_history() {
    assert_eq!(orchestrator::reply_text("  the total is 5 ", 0), Some("the total is 5".to_string()));
    assert_eq!(
        orchestrator::reply_text("   ", 0),
        Some("(the model returned an empty reply \u{2014} try rephrasing)".to_string())
    );
    assert_eq!(orchestrator::reply_text("x", 2), None);
    let mut history = vec![ChatMessage::user("hi".to_string())];
    orchestrator::ensure_system_prompt(&mut history);
    assert_eq!(history.len(), 2);
    assert_eq!(history[0].role, "system");
    assert_eq!(history[0].content, orchestrator::system_prompt());
    orchestrator::ensure_system_prompt(&mut history);
    assert_eq!(history.len(), 2);
    let ws = ws_with(ledger());
    let g = orchestrator::grounded_text("sum it", &ws);
    assert!(g.starts_with("sum it\n\n[workspace state: {\"files\":[{\"file\":\"book.xlsx\""));
    assert!(g.ends_with("\"results\":[]}]"));
    let m = orchestrator::tool_message("calculate", &obj(vec![("result", s("2"))]));
    assert_eq!(m.content, "{\"result\":\"2\"}");
    assert_eq!(m.tool_name.as_deref(), Some("calculate"));
    assert_eq!(orchestrator::running_note("aggregate"), "running aggregate\u{2026}");
}

#[test]
fn model_server_answers() {
    assert_eq!(endpoint_url("http://127.0.0.1:11434//", "/api/chat"), "http://127.0.0.1:11434/api/chat");
    let tags = obj(vec![(
        "models",
        Json::Array(vec![obj(vec![("name", s("qwen2.5:7b-instruct"))]), obj(vec![("size", Json::from_u64(3))]), obj(vec![("name", s("llama3"))])]),
    )]);
    assert_eq!(model_names(&tags), vec!["qwen2.5:7b-instruct", "llama3"]);
    assert!(model_names(&obj(vec![])).is_empty());
}

// ------------------------------------------------------------------ the desktop shell

#[test]
fn journal_times_are_utc_clock_times() {
    assert_eq!(desk::clock(0), "00:00:00");
    assert_eq!(desk::clock(3_723_000_000), "01:02:03");
    assert_eq!(desk::clock(-1), "23:59:59");
    let e = AuditEntry {
        seq: 4,
        time_micros: 86_400_000_000 + 45_296_000_000,
        tool: "calculate".into(),
        summary: "ok".into(),
        args: Json::Null,
        ok: true,
    };
    let d = desk::journal_entry(&e);
    assert_eq!(d.time, "12:34:56");
    assert_eq!(d.seq, 4);
}

#[test]
fn health_reports_model_presence() {
    let models = vec!["qwen2.5:7b-instruct".to_string()];
    assert!(desk::model_available(&models, "qwen2.5"));
    assert!(desk::model_available(&models, "qwen2.5:7b-instruct"));
    assert!(!desk::model_available(&models, "qwen"));
    let h = desk::health(Ok(models.clone()), "llama3");
    assert!(h.online && !h.model_available);
    assert_eq!(h.detail, "Ollama is running but 'llama3' isn't pulled. Run: ollama pull llama3");
    assert_eq!(desk::health(Ok(models), "qwen2.5").detail, "ready");
    let h = desk::health(Err(ledger_core::cells::CoreError::Ollama("down".into())), "m");
    assert!(!h.online);
    assert_eq!(h.detail, "Ollama error: down");
    assert_eq!(desk::model_name("  llama3 "), Ok("llama3".to_string()));
    assert_eq!(desk::model_name("   "), Err("model name is empty".to_string()));
    assert_eq!(desk::view_window(None, None), (0, 200));
    assert_eq!(desk::view_window(Some(5), Some(900)), (5, 500));
}

#[test]
fn model_server_errors_explain_what_to_do() {
    assert_eq!(
        unreachable_error("http://127.0.0.1:11434/api/chat", "connection refused").message(),
        "Ollama error: cannot reach Ollama at http://127.0.0.1:11434/api/chat: connection refused. Is Ollama running? (`ollama serve`)"
    );
    assert_eq!(
        status_error("404 Not Found", "model not found", "qwen2.5:7b-instruct").message(),
        "Ollama error: Ollama returned 404 Not Found: model not found. If the model isn't pulled yet: `ollama pull qwen2.5:7b-instruct`"
    );
    assert_eq!(bad_response_error("EOF").message(), "Ollama error: bad response from Ollama: EOF");
    assert_eq!(
        tags_unreachable_error("http://h/api/tags", "timed out").message(),
        "Ollama error: Ollama not reachable at http://h/api/tags: timed out"
    );
}

#[test]
fn csv_file_is_one_sheet_named_sheet1() {
    match csv_kind("a;b\n1;x\n", ';') {
        FileKind::Excel { sheets } => {
            assert_eq!(sheets.len(), 1);
            assert_eq!(sheets[0].0, "Sheet1");
            assert_eq!(sheets[0].1.columns, vec!["a".to_string(), "b".to_string()]);
            assert_eq!(sheets[0].1.rows.len(), 1);
        }
        FileKind::Pdf { .. } => panic!("a CSV is a sheet"),
    }
}

#[test]
fn blank_spreadsheet_text_is_an_empty_cell() {
    assert!(matches!(text_cell("   ".to_string()), Cell::Empty));
    assert!(matches!(text_cell(String::new()), Cell::Empty));
    match text_cell(" GHS 5 ".to_string()) {
        Cell::Text(t) => assert_eq!(t, " GHS 5 "),
        _ => panic!("text stays text"),
    }
}

#[test]
fn export_candidates_never_repeat() {
    let names: Vec<String> = (0..12).map(|n| tools::excel::export_candidate("/tmp/exports", "report", n)).collect();
    for i in 0..names.len() {
        for j in (i + 1)..names.len() {
            assert_ne!(names[i], names[j]);
        }
    }
    assert_eq!(names[0], "/tmp/exports/report.xlsx");
    assert_eq!(names[11], "/tmp/exports/report (11).xlsx");
}

#[test]
fn result_ids_count_up_and_restart_after_a_new_chat() {
    let mut ws = Workspace::new("/tmp/exports".to_string());
    let t = || Table { columns: vec!["A".to_string()], rows: vec![vec![num("1")]] };
    assert_eq!(ws.store_result(t()), "r1");
    assert_eq!(ws.store_result(t()), "r2");
    assert!(ws.result("r1").is_ok());
    ws.clear_results();
    assert!(ws.result("r1").is_err());
    assert_eq!(ws.store_result(t()), "r1");
    assert!(ws.result("r2").is_err());
}

#[test]
fn totals_of_an_empty_table_are_one_row() {
    let mut ws = Workspace::new("/tmp/exports".to_string());
    let rid = ws.store_result(Table { columns: vec!["Amount".to_string()], rows: vec![] });
    let aggs = Json::Array(vec![
        obj(vec![("column", s("Amount")), ("fn", s("sum"))]),
        obj(vec![("column", s("Amount")), ("fn", s("count"))]),
        obj(vec![("column", s("Amount")), ("fn", s("avg"))]),
        obj(vec![("column", s("Amount")), ("fn", s("max"))]),
    ]);
    let (v, _, ok) = run(
        &mut ws,
        "aggregate",
        obj(vec![("result_id", s(&rid)), ("group_by", Json::Array(vec![])), ("aggregations", aggs)]),
    );
    assert!(ok, "{}", v.to_text());
    assert_eq!(get(&v, "row_count").as_u64(), Some(1));
    let row = &items(get(&v, "preview_first_rows"))[0];
    assert_eq!(text_of(get(row, "sum(Amount)")), "0");
    assert_eq!(text_of(get(row, "count(Amount)")), "0");
    assert!(get(row, "avg(Amount)").is_null());
    assert!(get(row, "max(Amount)").is_null());
}

#[test]
fn computed_column_of_a_short_row_stands_under_its_name() {
    let table = csv_table("Qty,Price,Note\n2,3,ok\n4,5\n", ',');
    assert_eq!(table.rows[1].len(), 2);
    let mut ws = ws_with(table);
    let (v, _, ok) = run(
        &mut ws,
        "compute_column",
        obj(vec![("file", s("book.xlsx")), ("new_column", s("Total")), ("expression", s("Qty * Price"))]),
    );
    assert!(ok, "{}", v.to_text());
    let rows = items(get(&v, "preview_first_rows"));
    assert_eq!(text_of(get(&rows[0], "Total")), "6");
    assert_eq!(text_of(get(&rows[1], "Total")), "20");
    assert!(get(&rows[1], "Note").is_null());
    let t = ws.result(&text_of(get(&v, "result_id"))).unwrap();
    assert_eq!(t.rows[1].len(), 4);
}

#[test]
fn a_failed_call_is_answered_with_the_error_alone() {
    let mut ws = ws_with(ledger());
    let (v, s2, ok) = run(&mut ws, "get_schema", obj(vec![("file", s("nope.xlsx"))]));
    assert!(!ok);
    let m = "file not found in workspace: nope.xlsx. Load it first, or call list_files.";
    assert_eq!(v.to_text(), format!("{{\"error\":\"{m}\"}}"));
    assert_eq!(s2, format!("FAILED: {m}"));
    let last = ws.audit.entries().last().unwrap();
    assert!(!last.ok);
    assert_eq!(last.summary, s2);
}

#[test]
fn source_paths_compare_as_paths() {
    let ws = ws_with(ledger());
    assert!(ws.is_source_path("/tmp/data/book.xlsx"));
    assert!(ws.is_source_path("/tmp//data/book.xlsx"));
    assert!(!ws.is_source_path("/tmp/data/book (1).xlsx"));
}

#[test]
fn ascii_names_match_whatever_their_case() {
    let t = ledger();
    assert_eq!(t.col_index(" AMOUNT "), Some(1));
    assert_eq!(t.col_index("vendor"), Some(0));
    assert_eq!(t.col_index("Total"), None);
}

#[test]
fn a_flush_takes_the_entries_after_the_last_one_written() {
    let mut log = ledger_core::audit::AuditLog::new();
    for t in ["a", "b", "c"] {
        log.record(t, Json::Null, t.to_string(), true);
    }
    assert_eq!(log.first_after(0), 0);
    assert_eq!(log.first_after(1), 1);
    assert_eq!(log.entries()[log.first_after(2)].tool, "c");
    assert_eq!(log.first_after(3), 3);
    assert_eq!(log.first_after(7), 3);
}

#[test]
fn a_line_without_quotes_splits_at_every_delimiter() {
    assert_eq!(split_csv_line("a,b,,c", ','), vec!["a", "b", "", "c"]);
    assert_eq!(split_csv_line("", ','), vec![""]);
    assert_eq!(split_csv_line("x;y", ','), vec!["x;y"]);
}

#[test]
fn computed_column_keeps_cells_past_the_last_column() {
    let table = csv_table("Qty,Price\n2,3,extra\n", ',');
    assert_eq!(table.rows[0].len(), 3);
    let mut ws = ws_with(table);
    let (v, _, ok) = run(
        &mut ws,
        "compute_column",
        obj(vec![("file", s("book.xlsx")), ("new_column", s("Total")), ("expression", s("Qty * Price"))]),
    );
    assert!(ok, "{}", v.to_text());
    assert_eq!(text_of(get(&items(get(&v, "preview_first_rows"))[0], "Total")), "6");
    let t = ws.result(&text_of(get(&v, "result_id"))).unwrap();
    assert_eq!(t.rows[0].len(), 4);
    match &t.rows[0][3] {
        Cell::Text(x) => assert_eq!(x, "extra"),
        _ => panic!("the extra cell stays"),
    }
}

#[test]
fn unicode_spaces_are_trimmed() {
    assert_eq!(ledger_core::text::trim_str("\u{a0}\u{2003}Amount\u{3000}\n"), "Amount");
    assert_eq!(ledger_core::text::trim_str("\u{200b}x"), "\u{200b}x");
}

#[test]
fn tool_definitions_give_each_tool_its_schema() {
    let defs = tools::definitions();
    assert_eq!(defs.len(), 11);
    let f = get(&defs[2], "function");
    assert_eq!(text_of(get(f, "name")), "filter_rows");
    assert!(text_of(get(f, "description")).starts_with("Keep only rows matching ALL conditions."));
    let p = get(f, "parameters");
    assert_eq!(get(p, "required").to_text(), "[\"conditions\"]");
    let cond = get(get(get(get(p, "properties"), "conditions"), "items"), "properties");
    assert_eq!(
        get(get(cond, "op"), "enum").to_text(),
        "[\"eq\",\"ne\",\"gt\",\"gte\",\"lt\",\"lte\",\"contains\",\"not_empty\",\"empty\"]"
    );
    let a = get(get(&defs[3], "function"), "parameters");
    assert_eq!(get(a, "required").to_text(), "[\"aggregations\"]");
}

#[test]
fn only_table_making_tools_need_a_result_number() {
    assert!(tools::tool_stores_result("aggregate"));
    assert!(tools::tool_stores_result("compute_column"));
    assert!(!tools::tool_stores_result("get_schema"));
    assert!(!tools::tool_stores_result("export_xlsx"));
}

#[test]
fn export_search_moves_on_from_taken_names() {
    match export_probe("/tmp/exports", "t", 0, true) {
        ExportProbe::Next(n, p) => {
            assert_eq!(n, 1);
            assert_eq!(p, "/tmp/exports/t (1).xlsx");
        }
        ExportProbe::Use(_) => panic!("a taken name is not used"),
    }
    match export_probe("/tmp/exports", "t", 1, false) {
        ExportProbe::Use(p) => assert_eq!(p, "/tmp/exports/t (1).xlsx"),
        ExportProbe::Next(..) => panic!("a free name is used"),
    }
}

//! The tool registry: the only surface the language model can touch. Every
//! call is validated against the real workspace before it runs, every run is
//! deterministic, and every outcome is journaled.

pub mod excel;
pub mod groups;
pub mod math;
pub mod pdf;

use vstd::prelude::*;
use crate::cells::{Table, CoreError, ErrSpec, err_message};
use crate::json::{Json, obj_insert, obj_get, keys_sorted};
use crate::text::{is_blank, blank, str_eq, concat, concat3};
use crate::workspace::{Workspace, resolve_spec, source_outcome, opt_view, is_list_json, json_is_str, json_is_strings};

verus! {

// ------------------------------------------------------------------ argument helpers

/// A non-blank string argument.
pub open spec fn arg_str_spec(args: Json, key: Seq<char>) -> Option<Seq<char>> {
    match args.get_spec(key) {
        Some(Json::Str(s)) => if is_blank(s@) {
            None
        } else {
            Some(s@)
        },
        _ => None,
    }
}

/// An unsigned integer argument, as a `usize`.
pub open spec fn arg_usize_spec(args: Json, key: Seq<char>) -> Option<usize> {
    match args.get_spec(key) {
        Some(Json::Number(n)) => match n.as_u64 {
            Some(v) => Some(v as usize),
            None => None,
        },
        _ => None,
    }
}

/// The string argument `key`, unless it is missing, not a string, or blank.
pub fn arg_str<'a>(args: &'a Json, key: &str) -> (r: Option<&'a str>)
    ensures
        opt_view(r) == arg_str_spec(*args, key@),
{
    match args.get(key) {
        Some(v) => match v.as_str() {
            Some(s) => {
                if blank(s.as_str()) {
                    None
                } else {
                    Some(s.as_str())
                }
            },
            None => None,
        },
        None => None,
    }
}

/// The unsigned integer argument `key`, as a `usize`.
pub fn arg_usize(args: &Json, key: &str) -> (r: Option<usize>)
    ensures
        r == arg_usize_spec(*args, key@),
{
    match args.get(key) {
        Some(v) => match v.as_u64() {
            Some(n) => Some(n as usize),
            None => None,
        },
        None => None,
    }
}

/// The source a tool call names: `result_id`, else `file` (and `sheet`).
pub open spec fn source_spec(ws: Workspace, args: Json) -> Result<(Table, Seq<char>), crate::cells::ErrSpec> {
    resolve_spec(ws, arg_str_spec(args, "result_id"@), arg_str_spec(args, "file"@), arg_str_spec(args, "sheet"@))
}

/// Resolves the source table of a tool call, with its label.
pub fn source_of<'a>(ws: &'a Workspace, args: &Json) -> (r: Result<(&'a Table, String), CoreError>)
    requires
        ws.wf(),
    ensures
        source_outcome(r, source_spec(*ws, *args)),
{
    ws.resolve_source(arg_str(args, "result_id"), arg_str(args, "file"), arg_str(args, "sheet"))
}

} // verus!

verus! {

// ------------------------------------------------------------------ dispatch

/// Where a tool call stands after dispatch: answered, or an export that needs
/// the file system (the argument is the export's base name).
pub enum Dispatch {
    Ready(Result<(Json, String), CoreError>),
    Export(String),
}

/// The answer to a call of an unknown tool.
pub open spec fn unknown_tool_message(name: Seq<char>) -> Seq<char> {
    "unknown tool '"@ + name
        + "'. Available: list_files, get_schema, filter_rows, aggregate, sort_rows, compute_column, calculate, show_rows, export_xlsx, extract_pdf_text, extract_pdf_amounts"@
}

/// What dispatching a call of tool `name` does: the tool's own contract.
pub open spec fn dispatch_post(name: Seq<char>, old_ws: Workspace, new_ws: Workspace, args: Json, r: Dispatch) -> bool {
    if name == "list_files"@ {
        &&& new_ws == old_ws
        &&& r matches Dispatch::Ready(Ok((j, s))) && is_list_json(j, old_ws) && s@ == "listed workspace"@
    } else if name == "get_schema"@ {
        r matches Dispatch::Ready(o) && excel::get_schema_post(old_ws, new_ws, args, o)
    } else if name == "filter_rows"@ {
        r matches Dispatch::Ready(o) && excel::filter_rows_post(old_ws, new_ws, args, o)
    } else if name == "aggregate"@ {
        r matches Dispatch::Ready(o) && excel::aggregate_post(old_ws, new_ws, args, o)
    } else if name == "sort_rows"@ {
        r matches Dispatch::Ready(o) && excel::sort_rows_post(old_ws, new_ws, args, o)
    } else if name == "compute_column"@ {
        r matches Dispatch::Ready(o) && excel::compute_column_post(old_ws, new_ws, args, o)
    } else if name == "show_rows"@ {
        r matches Dispatch::Ready(o) && excel::show_rows_post(old_ws, new_ws, args, o)
    } else if name == "export_xlsx"@ {
        &&& new_ws == old_ws
        &&& match excel::export_base_spec(args) {
            Ok(b) => r matches Dispatch::Export(x) && x@ == b,
            Err(es) => r matches Dispatch::Ready(Err(e)) && e.spec() == es,
        }
    } else if name == "calculate"@ {
        &&& new_ws == old_ws
        &&& r matches Dispatch::Ready(o) && math::calculate_post(args, o)
    } else if name == "extract_pdf_text"@ {
        r matches Dispatch::Ready(o) && pdf::extract_text_post(old_ws, new_ws, args, o)
    } else if name == "extract_pdf_amounts"@ {
        r matches Dispatch::Ready(o) && pdf::extract_amounts_post(old_ws, new_ws, args, o)
    } else {
        &&& new_ws == old_ws
        &&& r matches Dispatch::Ready(Err(e)) && e.spec() == ErrSpec::BadArg(unknown_tool_message(name))
    }
}

fn lit(s: &str) -> (r: String)
    ensures
        r@ == s@,
{
    s.to_owned()
}

/// Whether tool `name` stores a new result (and so numbers it).
pub open spec fn stores_result(name: Seq<char>) -> bool {
    name == "filter_rows"@ || name == "aggregate"@ || name == "sort_rows"@ || name == "compute_column"@
}

/// Whether tool `name` stores a new result (and so needs a free result number).
pub fn tool_stores_result(name: &str) -> (r: bool)
    ensures
        r == stores_result(name@),
{
    str_eq(name, "filter_rows") || str_eq(name, "aggregate") || str_eq(name, "sort_rows") || str_eq(name, "compute_column")
}

/// Runs one tool call against the workspace.
pub fn dispatch(ws: &mut Workspace, name: &str, args: &Json) -> (r: Dispatch)
    requires
        old(ws).wf(),
        stores_result(name@) ==> old(ws).counter() < u32::MAX,
    ensures
        dispatch_post(name@, *old(ws), *final(ws), *args, r),
{
    if str_eq(name, "list_files") {
        Dispatch::Ready(Ok((ws.list(), lit("listed workspace"))))
    } else if str_eq(name, "get_schema") {
        Dispatch::Ready(excel::get_schema(ws, args))
    } else if str_eq(name, "filter_rows") {
        Dispatch::Ready(excel::filter_rows(ws, args))
    } else if str_eq(name, "aggregate") {
        Dispatch::Ready(excel::aggregate(ws, args))
    } else if str_eq(name, "sort_rows") {
        Dispatch::Ready(excel::sort_rows(ws, args))
    } else if str_eq(name, "compute_column") {
        Dispatch::Ready(excel::compute_column(ws, args))
    } else if str_eq(name, "show_rows") {
        Dispatch::Ready(excel::show_rows(ws, args))
    } else if str_eq(name, "export_xlsx") {
        match excel::export_base(args) {
            Ok(b) => Dispatch::Export(b),
            Err(e) => Dispatch::Ready(Err(e)),
        }
    } else if str_eq(name, "calculate") {
        Dispatch::Ready(math::calculate(args))
    } else if str_eq(name, "extract_pdf_text") {
        Dispatch::Ready(pdf::extract_text(ws, args))
    } else if str_eq(name, "extract_pdf_amounts") {
        Dispatch::Ready(pdf::extract_amounts(ws, args))
    } else {
        let m = concat3("unknown tool '", name,
            "'. Available: list_files, get_schema, filter_rows, aggregate, sort_rows, compute_column, calculate, show_rows, export_xlsx, extract_pdf_text, extract_pdf_amounts");
        Dispatch::Ready(Err(CoreError::BadArg(m)))
    }
}

/// `new` is `old` with one more journal entry for the call of `name` with
/// `args` that came out as `o`; `r` is what the model gets back: the payload
/// and summary, or `{"error": message}` and "FAILED: message".
pub open spec fn recorded(old_ws: Workspace, new_ws: Workspace, name: Seq<char>, args: Json, o: Result<(Json, String), CoreError>, r: (Json, String, bool)) -> bool {
    let last = new_ws.audit_spec().entries_spec().last();
    &&& new_ws.wf()
    &&& new_ws.files_spec() == old_ws.files_spec()
    &&& new_ws.results_spec() == old_ws.results_spec()
    &&& new_ws.counter() == old_ws.counter()
    &&& new_ws.export_dir_spec() == old_ws.export_dir_spec()
    &&& new_ws.audit_spec().entries_spec().len() == old_ws.audit_spec().entries_spec().len() + 1
    &&& new_ws.audit_spec().entries_spec().drop_last() == old_ws.audit_spec().entries_spec()
    &&& last.tool@ == name
    &&& last.args == args
    &&& last.ok == r.2
    &&& last.summary@ == r.1@
    &&& match o {
        Ok((p, s)) => r.0 == p && r.1@ == s@ && r.2,
        Err(e) => {
            &&& !r.2
            &&& r.1@ == "FAILED: "@ + err_message(e.spec())
            &&& r.0 matches Json::Object(entries) && entries@.len() == 1 && entries@[0].0@ == "error"@
                && json_is_str(entries@[0].1, err_message(e.spec()))
        },
    }
}

/// Journals the outcome of a tool call and turns it into what the model reads:
/// errors become structured results it can correct, never fatal to the turn.
pub fn record(ws: &mut Workspace, name: &str, args: Json, outcome: Result<(Json, String), CoreError>) -> (r: (Json, String, bool))
    requires
        old(ws).wf(),
        old(ws).audit_spec().entries_spec().len() < u32::MAX,
    ensures
        recorded(*old(ws), *final(ws), name@, args, outcome, r),
{
    match outcome {
        Ok((payload, summary)) => {
            ws.journal(name, args, lit(summary.as_str()), true);
            (payload, summary, true)
        },
        Err(e) => {
            let msg = e.message();
            let s = concat("FAILED: ", msg.as_str());
            ws.journal(name, args, lit(s.as_str()), false);
            let mut obj: Vec<(String, Json)> = Vec::new();
            obj.push((lit("error"), Json::Str(msg)));
            (Json::Object(obj), s, false)
        },
    }
}

/// An export waiting for the file system: its arguments and base name.
pub struct ExportJob {
    pub args: Json,
    pub base: String,
}

/// What a tool call came to.
pub enum Step {
    /// Answered and journaled: payload, summary, success.
    Done(Json, String, bool),
    /// An export: the caller finds a free path (see `excel::export_candidate`),
    /// writes the table that `excel::export_xlsx` gives, and journals the
    /// outcome with `record`.
    Export(ExportJob),
}

/// Journals an export: `written` is what writing the table to `path` came to
/// (the source's label and the rows written, or the error). The answer is that
/// of a finished export, or the error as a result the model can correct.
pub fn finish_export(ws: &mut Workspace, job: ExportJob, path: &str, written: Result<(String, usize), CoreError>) -> (r: (Json, String, bool))
    requires
        old(ws).wf(),
        old(ws).audit_spec().entries_spec().len() < u32::MAX,
    ensures
        exists|o: Result<(Json, String), CoreError>| #[trigger] recorded(*old(ws), *final(ws), "export_xlsx"@, job.args, o, r)
            && match written {
                Ok((label, rows)) => o matches Ok((p, s)) && excel::is_export_json(p, path@, rows as int)
                    && s@ == "exported "@ + label@ + " ("@ + crate::text::nat_digits(rows as nat) + " rows) -> "@ + path@,
                Err(e) => o matches Err(e2) && e2 == e,
            },
{
    let ghost args = job.args;
    let outcome = match written {
        Ok((label, rows)) => Ok(excel::export_done(label.as_str(), rows, path)),
        Err(e) => Err(e),
    };
    let ghost og = outcome;
    let r = record(ws, "export_xlsx", job.args, outcome);
    proof {
        assert(recorded(*old(ws), *ws, "export_xlsx"@, args, og, r));
    }
    r
}

/// Executes one validated tool call: runs it, journals the outcome, and answers
/// what the model reads.
pub fn execute(ws: &mut Workspace, name: &str, args: Json) -> (r: Step)
    requires
        old(ws).wf(),
        stores_result(name@) ==> old(ws).counter() < u32::MAX,
        old(ws).audit_spec().entries_spec().len() < u32::MAX,
    ensures
        match r {
            Step::Done(p, s, ok) => exists|mid: Workspace, o: Result<(Json, String), CoreError>|
                dispatch_post(name@, *old(ws), mid, args, Dispatch::Ready(o)) && #[trigger] recorded(mid, *final(ws), name@, args, o, (p, s, ok)),
            Step::Export(job) => name@ == "export_xlsx"@ && job.args == args
                && excel::export_base_spec(args) == Ok::<Seq<char>, ErrSpec>(job.base@) && *final(ws) == *old(ws),
        },
{
    let d = dispatch(ws, name, &args);
    let ghost mid = *ws;
    match d {
        Dispatch::Export(base) => {
            proof {
                if name@ != "export_xlsx"@ {
                    assert(false);
                }
            }
            Step::Export(ExportJob { args, base })
        },
        Dispatch::Ready(o) => {
            proof {
                assert(mid.audit_spec() == old(ws).audit_spec()) by {
                    lemma_dispatch_keeps_journal(name@, *old(ws), mid, args, Dispatch::Ready(o));
                }
            }
            let ghost og = o;
            let (p, s, ok) = record(ws, name, args, o);
            proof {
                assert(recorded(mid, *ws, name@, args, og, (p, s, ok)));
            }
            Step::Done(p, s, ok)
        },
    }
}

/// Dispatching never touches the journal.
pub proof fn lemma_dispatch_keeps_journal(name: Seq<char>, old_ws: Workspace, new_ws: Workspace, args: Json, r: Dispatch)
    requires
        dispatch_post(name, old_ws, new_ws, args, r),
    ensures
        new_ws.audit_spec() == old_ws.audit_spec(),
{
}

} // verus!

verus! {

// ------------------------------------------------------------------ tool definitions

/// The tools the model can call, in the order they are offered.
pub open spec fn tool_names() -> Seq<Seq<char>> {
    seq![
        "list_files"@, "get_schema"@, "filter_rows"@, "aggregate"@, "sort_rows"@, "compute_column"@,
        "calculate"@, "show_rows"@, "export_xlsx"@, "extract_pdf_text"@, "extract_pdf_amounts"@,
    ]
}

/// Whether `j` defines (in the function-calling format) a tool named `name`.
pub open spec fn defines_tool(j: Json, name: Seq<char>) -> bool {
    &&& j.get_spec("type"@) matches Some(x) && json_is_str(x, "function"@)
    &&& j.get_spec("function"@) matches Some(f) && f.get_spec("name"@) matches Some(x) && json_is_str(x, name)
}

fn text(s: &str) -> (r: Json)
    ensures
        r matches Json::Str(x) && x@ == s@,
{
    Json::Str(lit(s))
}

fn texts(v: &[&str]) -> (r: Json)
    ensures
        json_is_strings(r, v@.map_values(|x: &str| x@)),
{
    let mut out: Vec<Json> = Vec::new();
    let mut i: usize = 0;
    while i < v.len()
        invariant
            i <= v@.len(),
            out@.len() == i,
            forall|k: int| 0 <= k < i ==> json_is_str(#[trigger] out@[k], v@[k]@),
        decreases v.len() - i,
    {
        out.push(text(v[i]));
        i = i + 1;
    }
    Json::Array(out)
}

fn put(e: Vec<(String, Json)>, k: &str, v: Json) -> (r: Vec<(String, Json)>)
    requires
        keys_sorted(e@),
    ensures
        keys_sorted(r@),
        obj_get(r@, k@) == Some(v),
        forall|k2: Seq<char>| k2 != k@ ==> obj_get(r@, k2) == obj_get(e@, k2),
{
    let mut e = e;
    obj_insert(&mut e, lit(k), v);
    e
}

/// Whether `j` is the schema of a string parameter with description `desc`.
pub open spec fn is_string_param(j: Json, desc: Seq<char>) -> bool {
    &&& j is Object
    &&& forall|kk: Seq<char>| (#[trigger] j.get_spec(kk)) is Some ==> kk == "type"@ || kk == "description"@
    &&& j.get_spec("type"@) matches Some(x) && json_is_str(x, "string"@)
    &&& j.get_spec("description"@) matches Some(x) && json_is_str(x, desc)
}

/// The three ways a tool names its source table.
fn source_props(e: Vec<(String, Json)>) -> (r: Vec<(String, Json)>)
    requires
        keys_sorted(e@),
    ensures
        keys_sorted(r@),
        obj_get(r@, "result_id"@) matches Some(j) && is_string_param(j,
            "Use a result_id from a previous step (e.g. 'r1') to chain operations. Provide EITHER this OR file."@),
        obj_get(r@, "file"@) matches Some(j) && is_string_param(j, "A loaded file name, e.g. 'sales.xlsx'."@),
        obj_get(r@, "sheet"@) matches Some(j) && is_string_param(j, "Sheet name; optional if the workbook has one sheet."@),
        forall|k: Seq<char>| k != "result_id"@ && k != "file"@ && k != "sheet"@ ==> obj_get(r@, k) == obj_get(e@, k),
{
    proof {
        reveal_strlit("type");
        reveal_strlit("description");
        reveal_strlit("result_id");
        reveal_strlit("file");
        reveal_strlit("sheet");
        assert("type"@[0] != "description"@[0]);
        assert("result_id"@[0] != "file"@[0]);
        assert("result_id"@[0] != "sheet"@[0]);
        assert("file"@[0] != "sheet"@[0]);
    }
    let mut a: Vec<(String, Json)> = Vec::new();
    a = put(a, "type", text("string"));
    a = put(a, "description", text("Use a result_id from a previous step (e.g. 'r1') to chain operations. Provide EITHER this OR file."));
    let mut b: Vec<(String, Json)> = Vec::new();
    b = put(b, "type", text("string"));
    b = put(b, "description", text("A loaded file name, e.g. 'sales.xlsx'."));
    let mut c: Vec<(String, Json)> = Vec::new();
    c = put(c, "type", text("string"));
    c = put(c, "description", text("Sheet name; optional if the workbook has one sheet."));
    let mut e = e;
    e = put(e, "result_id", Json::Object(a));
    e = put(e, "file", Json::Object(b));
    e = put(e, "sheet", Json::Object(c));
    e
}

/// Whether `j` is, in the function-calling format, exactly the tool `name`
/// with description `desc` and parameter schema `params`.
pub open spec fn tool_parts(j: Json, name: Seq<char>, desc: Seq<char>, params: Json) -> bool {
    &&& j is Object
    &&& forall|kk: Seq<char>| (#[trigger] j.get_spec(kk)) is Some ==> kk == "type"@ || kk == "function"@
    &&& (j.get_spec("type"@) matches Some(x) && json_is_str(x, "function"@))
    &&& (j.get_spec("function"@) matches Some(f) && {
        &&& f is Object
        &&& forall|kk: Seq<char>| (#[trigger] f.get_spec(kk)) is Some ==> kk == "name"@ || kk == "description"@ || kk == "parameters"@
        &&& (f.get_spec("name"@) matches Some(x) && json_is_str(x, name))
        &&& (f.get_spec("description"@) matches Some(x) && json_is_str(x, desc))
        &&& f.get_spec("parameters"@) == Some(params)
    })
}

/// The parameter schema of a tool definition (`Null` when it has none).
pub open spec fn tool_params(j: Json) -> Json {
    match j.get_spec("function"@) {
        Some(f) => match f.get_spec("parameters"@) {
            Some(p) => p,
            None => Json::Null,
        },
        None => Json::Null,
    }
}

/// The descriptions of the tools, in the order of `tool_names`.
pub open spec fn tool_descriptions() -> Seq<Seq<char>> {
    seq![
        "List every loaded file, its sheets/columns/row counts, and all derived results. Call this first if unsure what exists."@,
        "Get the columns, row count and a few sample rows of a sheet or prior result. Use before referencing columns."@,
        "Keep only rows matching ALL conditions. Returns a new result_id plus a preview. Never modifies the source."@,
        "Group rows and compute sum/avg/min/max/count per group using exact decimal arithmetic. Empty group_by = totals over all rows. Returns a new result_id."@,
        "Sort by a column (numbers numerically, text alphabetically). Returns a new result_id."@,
        "Add a derived column computed per-row from an arithmetic expression over other columns, e.g. 'Amount * 0.15' or '[Unit Price] * Quantity'. Exact decimal math. Returns a new result_id."@,
        "Evaluate one arithmetic expression with exact decimal math, e.g. '(1250.40 + 980.10) * 0.15'. ALWAYS use this instead of doing arithmetic yourself."@,
        "Return up to 50 rows of a sheet or result so you can inspect actual values."@,
        "Write a result (or a whole sheet) to a NEW .xlsx file in the export folder. Never overwrites sources. Returns the saved path."@,
        "Get text from a loaded PDF. Optionally filter to lines containing a query string. Use for reading invoices/statements."@,
        "Scan a loaded PDF for monetary amounts (handles 1,234.50, GHS/USD prefixes, (parentheses) negatives) and return each with its line of context. Then use `calculate` on the ones you need \u{2014} never add them in your head."@,
    ]
}

/// Whether `p` is the parameter schema of the `i`-th tool.
pub open spec fn tool_params_ok(i: int, p: Json) -> bool {
    if i == 0 {
        params_list_files_spec(p)
    } else if i == 1 {
        params_get_schema_spec(p)
    } else if i == 2 {
        params_filter_rows_spec(p)
    } else if i == 3 {
        params_aggregate_spec(p)
    } else if i == 4 {
        params_sort_rows_spec(p)
    } else if i == 5 {
        params_compute_column_spec(p)
    } else if i == 6 {
        params_calculate_spec(p)
    } else if i == 7 {
        params_show_rows_spec(p)
    } else if i == 8 {
        params_export_xlsx_spec(p)
    } else if i == 9 {
        params_extract_pdf_text_spec(p)
    } else {
        params_extract_pdf_amounts_spec(p)
    }
}

/// One tool in the function-calling format: its name, description and
/// parameter schema.
fn tool_def(name: &str, desc: &str, params: Json) -> (r: Json)
    ensures
        defines_tool(r, name@),
        tool_parts(r, name@, desc@, params),
{
    proof {
        reveal_strlit("type");
        reveal_strlit("function");
        assert("type"@[0] != "function"@[0]);
    }
    let mut f: Vec<(String, Json)> = Vec::new();
    f = put(f, "name", text(name));
    f = put(f, "description", text(desc));
    f = put(f, "parameters", params);
    proof {
        reveal_strlit("name");
        reveal_strlit("description");
        reveal_strlit("parameters");
        assert("name"@[0] != "description"@[0]);
        assert("name"@[0] != "parameters"@[0]);
        assert("description"@[0] != "parameters"@[0]);
    }
    let mut t: Vec<(String, Json)> = Vec::new();
    t = put(t, "type", text("function"));
    t = put(t, "function", Json::Object(f));
    Json::Object(t)
}

/// The parameter schema of `list_files`.
pub open spec fn params_list_files_spec(p: Json) -> bool {
    &&& p is Object
    &&& forall|kk: Seq<char>| (#[trigger] p.get_spec(kk)) is Some ==> kk == "type"@ || kk == "properties"@
    &&& (p.get_spec("type"@) matches Some(x0) && json_is_str(x0, "object"@))
    &&& (p.get_spec("properties"@) matches Some(x1) && {
        &&& x1 is Object
        &&& forall|kk: Seq<char>| (#[trigger] x1.get_spec(kk)) is Some ==> false
    })
}

/// The parameter schema of `get_schema`.
pub open spec fn params_get_schema_spec(p: Json) -> bool {
    &&& p is Object
    &&& forall|kk: Seq<char>| (#[trigger] p.get_spec(kk)) is Some ==> kk == "type"@ || kk == "properties"@ || kk == "required"@
    &&& (p.get_spec("type"@) matches Some(x2) && json_is_str(x2, "object"@))
    &&& (p.get_spec("properties"@) matches Some(x3) && {
        &&& x3 is Object
        &&& forall|kk: Seq<char>| (#[trigger] x3.get_spec(kk)) is Some ==> kk == "result_id"@ || kk == "file"@ || kk == "sheet"@
        &&& (x3.get_spec("result_id"@) matches Some(x4) && is_string_param(x4, "Use a result_id from a previous step (e.g. 'r1') to chain operations. Provide EITHER this OR file."@))
        &&& (x3.get_spec("file"@) matches Some(x5) && is_string_param(x5, "A loaded file name, e.g. 'sales.xlsx'."@))
        &&& (x3.get_spec("sheet"@) matches Some(x6) && is_string_param(x6, "Sheet name; optional if the workbook has one sheet."@))
    })
    &&& (p.get_spec("required"@) matches Some(x7) && json_is_strings(x7, seq![]))
}

/// The parameter schema of `filter_rows`.
pub open spec fn params_filter_rows_spec(p: Json) -> bool {
    &&& p is Object
    &&& forall|kk: Seq<char>| (#[trigger] p.get_spec(kk)) is Some ==> kk == "type"@ || kk == "properties"@ || kk == "required"@
    &&& (p.get_spec("type"@) matches Some(x8) && json_is_str(x8, "object"@))
    &&& (p.get_spec("properties"@) matches Some(x9) && {
        &&& x9 is Object
        &&& forall|kk: Seq<char>| (#[trigger] x9.get_spec(kk)) is Some ==> kk == "result_id"@ || kk == "file"@ || kk == "sheet"@ || kk == "conditions"@
        &&& (x9.get_spec("result_id"@) matches Some(x10) && is_string_param(x10, "Use a result_id from a previous step (e.g. 'r1') to chain operations. Provide EITHER this OR file."@))
        &&& (x9.get_spec("file"@) matches Some(x11) && is_string_param(x11, "A loaded file name, e.g. 'sales.xlsx'."@))
        &&& (x9.get_spec("sheet"@) matches Some(x12) && is_string_param(x12, "Sheet name; optional if the workbook has one sheet."@))
        &&& (x9.get_spec("conditions"@) matches Some(x13) && {
            &&& x13 is Object
            &&& forall|kk: Seq<char>| (#[trigger] x13.get_spec(kk)) is Some ==> kk == "type"@ || kk == "items"@
            &&& (x13.get_spec("type"@) matches Some(x14) && json_is_str(x14, "array"@))
            &&& (x13.get_spec("items"@) matches Some(x15) && {
                &&& x15 is Object
                &&& forall|kk: Seq<char>| (#[trigger] x15.get_spec(kk)) is Some ==> kk == "type"@ || kk == "properties"@ || kk == "required"@
                &&& (x15.get_spec("type"@) matches Some(x16) && json_is_str(x16, "object"@))
                &&& (x15.get_spec("properties"@) matches Some(x17) && {
                    &&& x17 is Object
                    &&& forall|kk: Seq<char>| (#[trigger] x17.get_spec(kk)) is Some ==> kk == "column"@ || kk == "op"@ || kk == "value"@
                    &&& (x17.get_spec("column"@) matches Some(x18) && {
                        &&& x18 is Object
                        &&& forall|kk: Seq<char>| (#[trigger] x18.get_spec(kk)) is Some ==> kk == "type"@
                        &&& (x18.get_spec("type"@) matches Some(x19) && json_is_str(x19, "string"@))
                    })
                    &&& (x17.get_spec("op"@) matches Some(x20) && {
                        &&& x20 is Object
                        &&& forall|kk: Seq<char>| (#[trigger] x20.get_spec(kk)) is Some ==> kk == "type"@ || kk == "enum"@
                        &&& (x20.get_spec("type"@) matches Some(x21) && json_is_str(x21, "string"@))
                        &&& (x20.get_spec("enum"@) matches Some(x22) && json_is_strings(x22, seq!["eq"@, "ne"@, "gt"@, "gte"@, "lt"@, "lte"@, "contains"@, "not_empty"@, "empty"@]))
                    })
                    &&& (x17.get_spec("value"@) matches Some(x23) && {
                        &&& x23 is Object
                        &&& forall|kk: Seq<char>| (#[trigger] x23.get_spec(kk)) is Some ==> kk == "description"@
                        &&& (x23.get_spec("description"@) matches Some(x24) && json_is_str(x24, "Number or string to compare against (omit for empty/not_empty)."@))
                    })
                })
                &&& (x15.get_spec("required"@) matches Some(x25) && json_is_strings(x25, seq!["column"@, "op"@]))
            })
        })
    })
    &&& (p.get_spec("required"@) matches Some(x26) && json_is_strings(x26, seq!["conditions"@]))
}

/// The parameter schema of `aggregate`.
pub open spec fn params_aggregate_spec(p: Json) -> bool {
    &&& p is Object
    &&& forall|kk: Seq<char>| (#[trigger] p.get_spec(kk)) is Some ==> kk == "type"@ || kk == "properties"@ || kk == "required"@
    &&& (p.get_spec("type"@) matches Some(x27) && json_is_str(x27, "object"@))
    &&& (p.get_spec("properties"@) matches Some(x28) && {
        &&& x28 is Object
        &&& forall|kk: Seq<char>| (#[trigger] x28.get_spec(kk)) is Some ==> kk == "result_id"@ || kk == "file"@ || kk == "sheet"@ || kk == "group_by"@ || kk == "aggregations"@
        &&& (x28.get_spec("result_id"@) matches Some(x29) && is_string_param(x29, "Use a result_id from a previous step (e.g. 'r1') to chain operations. Provide EITHER this OR file."@))
        &&& (x28.get_spec("file"@) matches Some(x30) && is_string_param(x30, "A loaded file name, e.g. 'sales.xlsx'."@))
        &&& (x28.get_spec("sheet"@) matches Some(x31) && is_string_param(x31, "Sheet name; optional if the workbook has one sheet."@))
        &&& (x28.get_spec("group_by"@) matches Some(x32) && {
            &&& x32 is Object
            &&& forall|kk: Seq<char>| (#[trigger] x32.get_spec(kk)) is Some ==> kk == "type"@ || kk == "items"@ || kk == "description"@
            &&& (x32.get_spec("type"@) matches Some(x33) && json_is_str(x33, "array"@))
            &&& (x32.get_spec("items"@) matches Some(x34) && {
                &&& x34 is Object
                &&& forall|kk: Seq<char>| (#[trigger] x34.get_spec(kk)) is Some ==> kk == "type"@
                &&& (x34.get_spec("type"@) matches Some(x35) && json_is_str(x35, "string"@))
            })
            &&& (x32.get_spec("description"@) matches Some(x36) && json_is_str(x36, "Columns to group by; [] for grand totals."@))
        })
        &&& (x28.get_spec("aggregations"@) matches Some(x37) && {
            &&& x37 is Object
            &&& forall|kk: Seq<char>| (#[trigger] x37.get_spec(kk)) is Some ==> kk == "type"@ || kk == "items"@
            &&& (x37.get_spec("type"@) matches Some(x38) && json_is_str(x38, "array"@))
            &&& (x37.get_spec("items"@) matches Some(x39) && {
                &&& x39 is Object
                &&& forall|kk: Seq<char>| (#[trigger] x39.get_spec(kk)) is Some ==> kk == "type"@ || kk == "properties"@ || kk == "required"@
                &&& (x39.get_spec("type"@) matches Some(x40) && json_is_str(x40, "object"@))
                &&& (x39.get_spec("properties"@) matches Some(x41) && {
                    &&& x41 is Object
                    &&& forall|kk: Seq<char>| (#[trigger] x41.get_spec(kk)) is Some ==> kk == "column"@ || kk == "fn"@
                    &&& (x41.get_spec("column"@) matches Some(x42) && {
                        &&& x42 is Object
                        &&& forall|kk: Seq<char>| (#[trigger] x42.get_spec(kk)) is Some ==> kk == "type"@
                        &&& (x42.get_spec("type"@) matches Some(x43) && json_is_str(x43, "string"@))
                    })
                    &&& (x41.get_spec("fn"@) matches Some(x44) && {
                        &&& x44 is Object
                        &&& forall|kk: Seq<char>| (#[trigger] x44.get_spec(kk)) is Some ==> kk == "type"@ || kk == "enum"@
                        &&& (x44.get_spec("type"@) matches Some(x45) && json_is_str(x45, "string"@))
                        &&& (x44.get_spec("enum"@) matches Some(x46) && json_is_strings(x46, seq!["sum"@, "avg"@, "min"@, "max"@, "count"@]))
                    })
                })
                &&& (x39.get_spec("required"@) matches Some(x47) && json_is_strings(x47, seq!["column"@, "fn"@]))
            })
        })
    })
    &&& (p.get_spec("required"@) matches Some(x48) && json_is_strings(x48, seq!["aggregations"@]))
}

/// The parameter schema of `sort_rows`.
pub open spec fn params_sort_rows_spec(p: Json) -> bool {
    &&& p is Object
    &&& forall|kk: Seq<char>| (#[trigger] p.get_spec(kk)) is Some ==> kk == "type"@ || kk == "properties"@ || kk == "required"@
    &&& (p.get_spec("type"@) matches Some(x49) && json_is_str(x49, "object"@))
    &&& (p.get_spec("properties"@) matches Some(x50) && {
        &&& x50 is Object
        &&& forall|kk: Seq<char>| (#[trigger] x50.get_spec(kk)) is Some ==> kk == "result_id"@ || kk == "file"@ || kk == "sheet"@ || kk == "column"@ || kk == "descending"@ || kk == "limit"@
        &&& (x50.get_spec("result_id"@) matches Some(x51) && is_string_param(x51, "Use a result_id from a previous step (e.g. 'r1') to chain operations. Provide EITHER this OR file."@))
        &&& (x50.get_spec("file"@) matches Some(x52) && is_string_param(x52, "A loaded file name, e.g. 'sales.xlsx'."@))
        &&& (x50.get_spec("sheet"@) matches Some(x53) && is_string_param(x53, "Sheet name; optional if the workbook has one sheet."@))
        &&& (x50.get_spec("column"@) matches Some(x54) && {
            &&& x54 is Object
            &&& forall|kk: Seq<char>| (#[trigger] x54.get_spec(kk)) is Some ==> kk == "type"@
            &&& (x54.get_spec("type"@) matches Some(x55) && json_is_str(x55, "string"@))
        })
        &&& (x50.get_spec("descending"@) matches Some(x56) && {
            &&& x56 is Object
            &&& forall|kk: Seq<char>| (#[trigger] x56.get_spec(kk)) is Some ==> kk == "type"@
            &&& (x56.get_spec("type"@) matches Some(x57) && json_is_str(x57, "boolean"@))
        })
        &&& (x50.get_spec("limit"@) matches Some(x58) && {
            &&& x58 is Object
            &&& forall|kk: Seq<char>| (#[trigger] x58.get_spec(kk)) is Some ==> kk == "type"@ || kk == "description"@
            &&& (x58.get_spec("type"@) matches Some(x59) && json_is_str(x59, "integer"@))
            &&& (x58.get_spec("description"@) matches Some(x60) && json_is_str(x60, "Optional: keep only the first N rows after sorting (top-N)."@))
        })
    })
    &&& (p.get_spec("required"@) matches Some(x61) && json_is_strings(x61, seq!["column"@]))
}

/// The parameter schema of `compute_column`.
pub open spec fn params_compute_column_spec(p: Json) -> bool {
    &&& p is Object
    &&& forall|kk: Seq<char>| (#[trigger] p.get_spec(kk)) is Some ==> kk == "type"@ || kk == "properties"@ || kk == "required"@
    &&& (p.get_spec("type"@) matches Some(x62) && json_is_str(x62, "object"@))
    &&& (p.get_spec("properties"@) matches Some(x63) && {
        &&& x63 is Object
        &&& forall|kk: Seq<char>| (#[trigger] x63.get_spec(kk)) is Some ==> kk == "result_id"@ || kk == "file"@ || kk == "sheet"@ || kk == "new_column"@ || kk == "expression"@ || kk == "round_dp"@
        &&& (x63.get_spec("result_id"@) matches Some(x64) && is_string_param(x64, "Use a result_id from a previous step (e.g. 'r1') to chain operations. Provide EITHER this OR file."@))
        &&& (x63.get_spec("file"@) matches Some(x65) && is_string_param(x65, "A loaded file name, e.g. 'sales.xlsx'."@))
        &&& (x63.get_spec("sheet"@) matches Some(x66) && is_string_param(x66, "Sheet name; optional if the workbook has one sheet."@))
        &&& (x63.get_spec("new_column"@) matches Some(x67) && {
            &&& x67 is Object
            &&& forall|kk: Seq<char>| (#[trigger] x67.get_spec(kk)) is Some ==> kk == "type"@
            &&& (x67.get_spec("type"@) matches Some(x68) && json_is_str(x68, "string"@))
        })
        &&& (x63.get_spec("expression"@) matches Some(x69) && {
            &&& x69 is Object
            &&& forall|kk: Seq<char>| (#[trigger] x69.get_spec(kk)) is Some ==> kk == "type"@ || kk == "description"@
            &&& (x69.get_spec("type"@) matches Some(x70) && json_is_str(x70, "string"@))
            &&& (x69.get_spec("description"@) matches Some(x71) && json_is_str(x71, "Arithmetic only: + - * / % ( ), numbers, column names ([brackets] for names with spaces)."@))
        })
        &&& (x63.get_spec("round_dp"@) matches Some(x72) && {
            &&& x72 is Object
            &&& forall|kk: Seq<char>| (#[trigger] x72.get_spec(kk)) is Some ==> kk == "type"@ || kk == "description"@
            &&& (x72.get_spec("type"@) matches Some(x73) && json_is_str(x73, "integer"@))
            &&& (x72.get_spec("description"@) matches Some(x74) && json_is_str(x74, "Optional decimal places to round to (e.g. 2 for money)."@))
        })
    })
    &&& (p.get_spec("required"@) matches Some(x75) && json_is_strings(x75, seq!["new_column"@, "expression"@]))
}

/// The parameter schema of `calculate`.
pub open spec fn params_calculate_spec(p: Json) -> bool {
    &&& p is Object
    &&& forall|kk: Seq<char>| (#[trigger] p.get_spec(kk)) is Some ==> kk == "type"@ || kk == "properties"@ || kk == "required"@
    &&& (p.get_spec("type"@) matches Some(x76) && json_is_str(x76, "object"@))
    &&& (p.get_spec("properties"@) matches Some(x77) && {
        &&& x77 is Object
        &&& forall|kk: Seq<char>| (#[trigger] x77.get_spec(kk)) is Some ==> kk == "expression"@
        &&& (x77.get_spec("expression"@) matches Some(x78) && {
            &&& x78 is Object
            &&& forall|kk: Seq<char>| (#[trigger] x78.get_spec(kk)) is Some ==> kk == "type"@
            &&& (x78.get_spec("type"@) matches Some(x79) && json_is_str(x79, "string"@))
        })
    })
    &&& (p.get_spec("required"@) matches Some(x80) && json_is_strings(x80, seq!["expression"@]))
}

/// The parameter schema of `show_rows`.
pub open spec fn params_show_rows_spec(p: Json) -> bool {
    &&& p is Object
    &&& forall|kk: Seq<char>| (#[trigger] p.get_spec(kk)) is Some ==> kk == "type"@ || kk == "properties"@ || kk == "required"@
    &&& (p.get_spec("type"@) matches Some(x81) && json_is_str(x81, "object"@))
    &&& (p.get_spec("properties"@) matches Some(x82) && {
        &&& x82 is Object
        &&& forall|kk: Seq<char>| (#[trigger] x82.get_spec(kk)) is Some ==> kk == "result_id"@ || kk == "file"@ || kk == "sheet"@ || kk == "offset"@ || kk == "limit"@
        &&& (x82.get_spec("result_id"@) matches Some(x83) && is_string_param(x83, "Use a result_id from a previous step (e.g. 'r1') to chain operations. Provide EITHER this OR file."@))
        &&& (x82.get_spec("file"@) matches Some(x84) && is_string_param(x84, "A loaded file name, e.g. 'sales.xlsx'."@))
        &&& (x82.get_spec("sheet"@) matches Some(x85) && is_string_param(x85, "Sheet name; optional if the workbook has one sheet."@))
        &&& (x82.get_spec("offset"@) matches Some(x86) && {
            &&& x86 is Object
            &&& forall|kk: Seq<char>| (#[trigger] x86.get_spec(kk)) is Some ==> kk == "type"@
            &&& (x86.get_spec("type"@) matches Some(x87) && json_is_str(x87, "integer"@))
        })
        &&& (x82.get_spec("limit"@) matches Some(x88) && {
            &&& x88 is Object
            &&& forall|kk: Seq<char>| (#[trigger] x88.get_spec(kk)) is Some ==> kk == "type"@ || kk == "description"@
            &&& (x88.get_spec("type"@) matches Some(x89) && json_is_str(x89, "integer"@))
            &&& (x88.get_spec("description"@) matches Some(x90) && json_is_str(x90, "Max 50."@))
        })
    })
    &&& (p.get_spec("required"@) matches Some(x91) && json_is_strings(x91, seq![]))
}

/// The parameter schema of `export_xlsx`.
pub open spec fn params_export_xlsx_spec(p: Json) -> bool {
    &&& p is Object
    &&& forall|kk: Seq<char>| (#[trigger] p.get_spec(kk)) is Some ==> kk == "type"@ || kk == "properties"@ || kk == "required"@
    &&& (p.get_spec("type"@) matches Some(x92) && json_is_str(x92, "object"@))
    &&& (p.get_spec("properties"@) matches Some(x93) && {
        &&& x93 is Object
        &&& forall|kk: Seq<char>| (#[trigger] x93.get_spec(kk)) is Some ==> kk == "result_id"@ || kk == "file"@ || kk == "sheet"@ || kk == "filename"@
        &&& (x93.get_spec("result_id"@) matches Some(x94) && is_string_param(x94, "Use a result_id from a previous step (e.g. 'r1') to chain operations. Provide EITHER this OR file."@))
        &&& (x93.get_spec("file"@) matches Some(x95) && is_string_param(x95, "A loaded file name, e.g. 'sales.xlsx'."@))
        &&& (x93.get_spec("sheet"@) matches Some(x96) && is_string_param(x96, "Sheet name; optional if the workbook has one sheet."@))
        &&& (x93.get_spec("filename"@) matches Some(x97) && {
            &&& x97 is Object
            &&& forall|kk: Seq<char>| (#[trigger] x97.get_spec(kk)) is Some ==> kk == "type"@ || kk == "description"@
            &&& (x97.get_spec("type"@) matches Some(x98) && json_is_str(x98, "string"@))
            &&& (x97.get_spec("description"@) matches Some(x99) && json_is_str(x99, "Base name, e.g. 'vendor_totals.xlsx'."@))
        })
    })
    &&& (p.get_spec("required"@) matches Some(x100) && json_is_strings(x100, seq!["filename"@]))
}

/// The parameter schema of `extract_pdf_text`.
pub open spec fn params_extract_pdf_text_spec(p: Json) -> bool {
    &&& p is Object
    &&& forall|kk: Seq<char>| (#[trigger] p.get_spec(kk)) is Some ==> kk == "type"@ || kk == "properties"@ || kk == "required"@
    &&& (p.get_spec("type"@) matches Some(x101) && json_is_str(x101, "object"@))
    &&& (p.get_spec("properties"@) matches Some(x102) && {
        &&& x102 is Object
        &&& forall|kk: Seq<char>| (#[trigger] x102.get_spec(kk)) is Some ==> kk == "file"@ || kk == "query"@ || kk == "max_chars"@
        &&& (x102.get_spec("file"@) matches Some(x103) && {
            &&& x103 is Object
            &&& forall|kk: Seq<char>| (#[trigger] x103.get_spec(kk)) is Some ==> kk == "type"@
            &&& (x103.get_spec("type"@) matches Some(x104) && json_is_str(x104, "string"@))
        })
        &&& (x102.get_spec("query"@) matches Some(x105) && {
            &&& x105 is Object
            &&& forall|kk: Seq<char>| (#[trigger] x105.get_spec(kk)) is Some ==> kk == "type"@ || kk == "description"@
            &&& (x105.get_spec("type"@) matches Some(x106) && json_is_str(x106, "string"@))
            &&& (x105.get_spec("description"@) matches Some(x107) && json_is_str(x107, "Optional: only return lines containing this (case-insensitive), with 1 line of context."@))
        })
        &&& (x102.get_spec("max_chars"@) matches Some(x108) && {
            &&& x108 is Object
            &&& forall|kk: Seq<char>| (#[trigger] x108.get_spec(kk)) is Some ==> kk == "type"@ || kk == "description"@
            &&& (x108.get_spec("type"@) matches Some(x109) && json_is_str(x109, "integer"@))
            &&& (x108.get_spec("description"@) matches Some(x110) && json_is_str(x110, "Cap on returned characters (default 4000)."@))
        })
    })
    &&& (p.get_spec("required"@) matches Some(x111) && json_is_strings(x111, seq!["file"@]))
}

/// The parameter schema of `extract_pdf_amounts`.
pub open spec fn params_extract_pdf_amounts_spec(p: Json) -> bool {
    &&& p is Object
    &&& forall|kk: Seq<char>| (#[trigger] p.get_spec(kk)) is Some ==> kk == "type"@ || kk == "properties"@ || kk == "required"@
    &&& (p.get_spec("type"@) matches Some(x112) && json_is_str(x112, "object"@))
    &&& (p.get_spec("properties"@) matches Some(x113) && {
        &&& x113 is Object
        &&& forall|kk: Seq<char>| (#[trigger] x113.get_spec(kk)) is Some ==> kk == "file"@ || kk == "query"@
        &&& (x113.get_spec("file"@) matches Some(x114) && {
            &&& x114 is Object
            &&& forall|kk: Seq<char>| (#[trigger] x114.get_spec(kk)) is Some ==> kk == "type"@
            &&& (x114.get_spec("type"@) matches Some(x115) && json_is_str(x115, "string"@))
        })
        &&& (x113.get_spec("query"@) matches Some(x116) && {
            &&& x116 is Object
            &&& forall|kk: Seq<char>| (#[trigger] x116.get_spec(kk)) is Some ==> kk == "type"@ || kk == "description"@
            &&& (x116.get_spec("type"@) matches Some(x117) && json_is_str(x117, "string"@))
            &&& (x116.get_spec("description"@) matches Some(x118) && json_is_str(x118, "Optional: only lines containing this text."@))
        })
    })
    &&& (p.get_spec("required"@) matches Some(x119) && json_is_strings(x119, seq!["file"@]))
}

fn params_list_files() -> (r: Json)
    ensures
        params_list_files_spec(r),
{
    proof {
        reveal_strlit("properties");
        reveal_strlit("type");
        assert("type"@[0] != "properties"@[0]);
    }
    let mut o1: Vec<(String, Json)> = Vec::new();
    o1 = put(o1, "type", text("object"));
    o1 = put(o1, "properties", Json::Object(Vec::new()));
    Json::Object(o1)
}

fn params_get_schema() -> (r: Json)
    ensures
        params_get_schema_spec(r),
{
    proof {
        reveal_strlit("description");
        reveal_strlit("file");
        reveal_strlit("properties");
        reveal_strlit("required");
        reveal_strlit("result_id");
        reveal_strlit("sheet");
        reveal_strlit("type");
        assert("type"@[0] != "properties"@[0]);
        assert("type"@[0] != "required"@[0]);
        assert("properties"@[0] != "required"@[0]);
        assert("result_id"@[0] != "file"@[0]);
        assert("result_id"@[0] != "sheet"@[0]);
        assert("file"@[0] != "sheet"@[0]);
        assert("type"@[0] != "description"@[0]);
    }
    let mut o1: Vec<(String, Json)> = Vec::new();
    o1 = put(o1, "type", text("object"));
    o1 = put(o1, "properties", Json::Object(source_props(Vec::new())));
    o1 = put(o1, "required", Json::Array(Vec::new()));
    Json::Object(o1)
}

fn params_filter_rows() -> (r: Json)
    ensures
        params_filter_rows_spec(r),
{
    proof {
        reveal_strlit("column");
        reveal_strlit("conditions");
        reveal_strlit("description");
        reveal_strlit("enum");
        reveal_strlit("file");
        reveal_strlit("items");
        reveal_strlit("op");
        reveal_strlit("properties");
        reveal_strlit("required");
        reveal_strlit("result_id");
        reveal_strlit("sheet");
        reveal_strlit("type");
        reveal_strlit("value");
        assert("type"@[0] != "properties"@[0]);
        assert("type"@[0] != "required"@[0]);
        assert("properties"@[0] != "required"@[0]);
        assert("result_id"@[0] != "file"@[0]);
        assert("result_id"@[0] != "sheet"@[0]);
        assert("result_id"@[0] != "conditions"@[0]);
        assert("file"@[0] != "sheet"@[0]);
        assert("file"@[0] != "conditions"@[0]);
        assert("sheet"@[0] != "conditions"@[0]);
        assert("type"@[0] != "description"@[0]);
        assert("type"@[0] != "items"@[0]);
        assert("column"@[0] != "op"@[0]);
        assert("column"@[0] != "value"@[0]);
        assert("op"@[0] != "value"@[0]);
        assert("type"@[0] != "enum"@[0]);
    }
    let mut o1: Vec<(String, Json)> = Vec::new();
    o1 = put(o1, "type", text("object"));
    let mut o2: Vec<(String, Json)> = Vec::new();
    o2 = source_props(o2);
    let mut o3: Vec<(String, Json)> = Vec::new();
    o3 = put(o3, "type", text("array"));
    let mut o4: Vec<(String, Json)> = Vec::new();
    o4 = put(o4, "type", text("object"));
    let mut o5: Vec<(String, Json)> = Vec::new();
    let mut o6: Vec<(String, Json)> = Vec::new();
    o6 = put(o6, "type", text("string"));
    o5 = put(o5, "column", Json::Object(o6));
    let mut o7: Vec<(String, Json)> = Vec::new();
    o7 = put(o7, "type", text("string"));
    o7 = put(o7, "enum", texts(&["eq", "ne", "gt", "gte", "lt", "lte", "contains", "not_empty", "empty"]));
    o5 = put(o5, "op", Json::Object(o7));
    let mut o8: Vec<(String, Json)> = Vec::new();
    o8 = put(o8, "description", text("Number or string to compare against (omit for empty/not_empty)."));
    o5 = put(o5, "value", Json::Object(o8));
    o4 = put(o4, "properties", Json::Object(o5));
    o4 = put(o4, "required", texts(&["column", "op"]));
    o3 = put(o3, "items", Json::Object(o4));
    o2 = put(o2, "conditions", Json::Object(o3));
    o1 = put(o1, "properties", Json::Object(o2));
    o1 = put(o1, "required", texts(&["conditions"]));
    Json::Object(o1)
}

fn params_aggregate() -> (r: Json)
    ensures
        params_aggregate_spec(r),
{
    proof {
        reveal_strlit("aggregations");
        reveal_strlit("column");
        reveal_strlit("description");
        reveal_strlit("enum");
        reveal_strlit("file");
        reveal_strlit("fn");
        reveal_strlit("group_by");
        reveal_strlit("items");
        reveal_strlit("properties");
        reveal_strlit("required");
        reveal_strlit("result_id");
        reveal_strlit("sheet");
        reveal_strlit("type");
        assert("type"@[0] != "properties"@[0]);
        assert("type"@[0] != "required"@[0]);
        assert("properties"@[0] != "required"@[0]);
        assert("result_id"@[0] != "file"@[0]);
        assert("result_id"@[0] != "sheet"@[0]);
        assert("result_id"@[0] != "group_by"@[0]);
        assert("result_id"@[0] != "aggregations"@[0]);
        assert("file"@[0] != "sheet"@[0]);
        assert("file"@[0] != "group_by"@[0]);
        assert("file"@[0] != "aggregations"@[0]);
        assert("sheet"@[0] != "group_by"@[0]);
        assert("sheet"@[0] != "aggregations"@[0]);
        assert("group_by"@[0] != "aggregations"@[0]);
        assert("type"@[0] != "description"@[0]);
        assert("type"@[0] != "items"@[0]);
        assert("items"@[0] != "description"@[0]);
        assert("column"@[0] != "fn"@[0]);
        assert("type"@[0] != "enum"@[0]);
    }
    let mut o1: Vec<(String, Json)> = Vec::new();
    o1 = put(o1, "type", text("object"));
    let mut o2: Vec<(String, Json)> = Vec::new();
    o2 = source_props(o2);
    let mut o3: Vec<(String, Json)> = Vec::new();
    o3 = put(o3, "type", text("array"));
    let mut o4: Vec<(String, Json)> = Vec::new();
    o4 = put(o4, "type", text("string"));
    o3 = put(o3, "items", Json::Object(o4));
    o3 = put(o3, "description", text("Columns to group by; [] for grand totals."));
    o2 = put(o2, "group_by", Json::Object(o3));
    let mut o5: Vec<(String, Json)> = Vec::new();
    o5 = put(o5, "type", text("array"));
    let mut o6: Vec<(String, Json)> = Vec::new();
    o6 = put(o6, "type", text("object"));
    let mut o7: Vec<(String, Json)> = Vec::new();
    let mut o8: Vec<(String, Json)> = Vec::new();
    o8 = put(o8, "type", text("string"));
    o7 = put(o7, "column", Json::Object(o8));
    let mut o9: Vec<(String, Json)> = Vec::new();
    o9 = put(o9, "type", text("string"));
    o9 = put(o9, "enum", texts(&["sum", "avg", "min", "max", "count"]));
    o7 = put(o7, "fn", Json::Object(o9));
    o6 = put(o6, "properties", Json::Object(o7));
    o6 = put(o6, "required", texts(&["column", "fn"]));
    o5 = put(o5, "items", Json::Object(o6));
    o2 = put(o2, "aggregations", Json::Object(o5));
    o1 = put(o1, "properties", Json::Object(o2));
    o1 = put(o1, "required", texts(&["aggregations"]));
    Json::Object(o1)
}

fn params_sort_rows() -> (r: Json)
    ensures
        params_sort_rows_spec(r),
{
    proof {
        reveal_strlit("column");
        reveal_strlit("descending");
        reveal_strlit("description");
        reveal_strlit("file");
        reveal_strlit("limit");
        reveal_strlit("properties");
        reveal_strlit("required");
        reveal_strlit("result_id");
        reveal_strlit("sheet");
        reveal_strlit("type");
        assert("type"@[0] != "properties"@[0]);
        assert("type"@[0] != "required"@[0]);
        assert("properties"@[0] != "required"@[0]);
        assert("result_id"@[0] != "file"@[0]);
        assert("result_id"@[0] != "sheet"@[0]);
        assert("result_id"@[0] != "column"@[0]);
        assert("result_id"@[0] != "descending"@[0]);
        assert("result_id"@[0] != "limit"@[0]);
        assert("file"@[0] != "sheet"@[0]);
        assert("file"@[0] != "column"@[0]);
        assert("file"@[0] != "descending"@[0]);
        assert("file"@[0] != "limit"@[0]);
        assert("sheet"@[0] != "column"@[0]);
        assert("sheet"@[0] != "descending"@[0]);
        assert("sheet"@[0] != "limit"@[0]);
        assert("column"@[0] != "descending"@[0]);
        assert("column"@[0] != "limit"@[0]);
        assert("descending"@[0] != "limit"@[0]);
        assert("type"@[0] != "description"@[0]);
    }
    let mut o1: Vec<(String, Json)> = Vec::new();
    o1 = put(o1, "type", text("object"));
    let mut o2: Vec<(String, Json)> = Vec::new();
    o2 = source_props(o2);
    let mut o3: Vec<(String, Json)> = Vec::new();
    o3 = put(o3, "type", text("string"));
    o2 = put(o2, "column", Json::Object(o3));
    let mut o4: Vec<(String, Json)> = Vec::new();
    o4 = put(o4, "type", text("boolean"));
    o2 = put(o2, "descending", Json::Object(o4));
    let mut o5: Vec<(String, Json)> = Vec::new();
    o5 = put(o5, "type", text("integer"));
    o5 = put(o5, "description", text("Optional: keep only the first N rows after sorting (top-N)."));
    o2 = put(o2, "limit", Json::Object(o5));
    o1 = put(o1, "properties", Json::Object(o2));
    o1 = put(o1, "required", texts(&["column"]));
    Json::Object(o1)
}

fn params_compute_column() -> (r: Json)
    ensures
        params_compute_column_spec(r),
{
    proof {
        reveal_strlit("description");
        reveal_strlit("expression");
        reveal_strlit("file");
        reveal_strlit("new_column");
        reveal_strlit("properties");
        reveal_strlit("required");
        reveal_strlit("result_id");
        reveal_strlit("round_dp");
        reveal_strlit("sheet");
        reveal_strlit("type");
        assert("type"@[0] != "properties"@[0]);
        assert("type"@[0] != "required"@[0]);
        assert("properties"@[0] != "required"@[0]);
        assert("result_id"@[0] != "file"@[0]);
        assert("result_id"@[0] != "sheet"@[0]);
        assert("result_id"@[0] != "new_column"@[0]);
        assert("result_id"@[0] != "expression"@[0]);
        assert("result_id"@[1] != "round_dp"@[1]);
        assert("file"@[0] != "sheet"@[0]);
        assert("file"@[0] != "new_column"@[0]);
        assert("file"@[0] != "expression"@[0]);
        assert("file"@[0] != "round_dp"@[0]);
        assert("sheet"@[0] != "new_column"@[0]);
        assert("sheet"@[0] != "expression"@[0]);
        assert("sheet"@[0] != "round_dp"@[0]);
        assert("new_column"@[0] != "expression"@[0]);
        assert("new_column"@[0] != "round_dp"@[0]);
        assert("expression"@[0] != "round_dp"@[0]);
        assert("type"@[0] != "description"@[0]);
    }
    let mut o1: Vec<(String, Json)> = Vec::new();
    o1 = put(o1, "type", text("object"));
    let mut o2: Vec<(String, Json)> = Vec::new();
    o2 = source_props(o2);
    let mut o3: Vec<(String, Json)> = Vec::new();
    o3 = put(o3, "type", text("string"));
    o2 = put(o2, "new_column", Json::Object(o3));
    let mut o4: Vec<(String, Json)> = Vec::new();
    o4 = put(o4, "type", text("string"));
    o4 = put(o4, "description", text("Arithmetic only: + - * / % ( ), numbers, column names ([brackets] for names with spaces)."));
    o2 = put(o2, "expression", Json::Object(o4));
    let mut o5: Vec<(String, Json)> = Vec::new();
    o5 = put(o5, "type", text("integer"));
    o5 = put(o5, "description", text("Optional decimal places to round to (e.g. 2 for money)."));
    o2 = put(o2, "round_dp", Json::Object(o5));
    o1 = put(o1, "properties", Json::Object(o2));
    o1 = put(o1, "required", texts(&["new_column", "expression"]));
    Json::Object(o1)
}

fn params_calculate() -> (r: Json)
    ensures
        params_calculate_spec(r),
{
    proof {
        reveal_strlit("expression");
        reveal_strlit("properties");
        reveal_strlit("required");
        reveal_strlit("type");
        assert("type"@[0] != "properties"@[0]);
        assert("type"@[0] != "required"@[0]);
        assert("properties"@[0] != "required"@[0]);
    }
    let mut o1: Vec<(String, Json)> = Vec::new();
    o1 = put(o1, "type", text("object"));
    let mut o2: Vec<(String, Json)> = Vec::new();
    let mut o3: Vec<(String, Json)> = Vec::new();
    o3 = put(o3, "type", text("string"));
    o2 = put(o2, "expression", Json::Object(o3));
    o1 = put(o1, "properties", Json::Object(o2));
    o1 = put(o1, "required", texts(&["expression"]));
    Json::Object(o1)
}

fn params_show_rows() -> (r: Json)
    ensures
        params_show_rows_spec(r),
{
    proof {
        reveal_strlit("description");
        reveal_strlit("file");
        reveal_strlit("limit");
        reveal_strlit("offset");
        reveal_strlit("properties");
        reveal_strlit("required");
        reveal_strlit("result_id");
        reveal_strlit("sheet");
        reveal_strlit("type");
        assert("type"@[0] != "properties"@[0]);
        assert("type"@[0] != "required"@[0]);
        assert("properties"@[0] != "required"@[0]);
        assert("result_id"@[0] != "file"@[0]);
        assert("result_id"@[0] != "sheet"@[0]);
        assert("result_id"@[0] != "offset"@[0]);
        assert("result_id"@[0] != "limit"@[0]);
        assert("file"@[0] != "sheet"@[0]);
        assert("file"@[0] != "offset"@[0]);
        assert("file"@[0] != "limit"@[0]);
        assert("sheet"@[0] != "offset"@[0]);
        assert("sheet"@[0] != "limit"@[0]);
        assert("offset"@[0] != "limit"@[0]);
        assert("type"@[0] != "description"@[0]);
    }
    let mut o1: Vec<(String, Json)> = Vec::new();
    o1 = put(o1, "type", text("object"));
    let mut o2: Vec<(String, Json)> = Vec::new();
    o2 = source_props(o2);
    let mut o3: Vec<(String, Json)> = Vec::new();
    o3 = put(o3, "type", text("integer"));
    o2 = put(o2, "offset", Json::Object(o3));
    let mut o4: Vec<(String, Json)> = Vec::new();
    o4 = put(o4, "type", text("integer"));
    o4 = put(o4, "description", text("Max 50."));
    o2 = put(o2, "limit", Json::Object(o4));
    o1 = put(o1, "properties", Json::Object(o2));
    o1 = put(o1, "required", Json::Array(Vec::new()));
    Json::Object(o1)
}

fn params_export_xlsx() -> (r: Json)
    ensures
        params_export_xlsx_spec(r),
{
    proof {
        reveal_strlit("description");
        reveal_strlit("file");
        reveal_strlit("filename");
        reveal_strlit("properties");
        reveal_strlit("required");
        reveal_strlit("result_id");
        reveal_strlit("sheet");
        reveal_strlit("type");
        assert("type"@[0] != "properties"@[0]);
        assert("type"@[0] != "required"@[0]);
        assert("properties"@[0] != "required"@[0]);
        assert("result_id"@[0] != "file"@[0]);
        assert("result_id"@[0] != "sheet"@[0]);
        assert("result_id"@[0] != "filename"@[0]);
        assert("file"@[0] != "sheet"@[0]);
        assert("file"@.len() != "filename"@.len());
        assert("sheet"@[0] != "filename"@[0]);
        assert("type"@[0] != "description"@[0]);
    }
    let mut o1: Vec<(String, Json)> = Vec::new();
    o1 = put(o1, "type", text("object"));
    let mut o2: Vec<(String, Json)> = Vec::new();
    o2 = source_props(o2);
    let mut o3: Vec<(String, Json)> = Vec::new();
    o3 = put(o3, "type", text("string"));
    o3 = put(o3, "description", text("Base name, e.g. 'vendor_totals.xlsx'."));
    o2 = put(o2, "filename", Json::Object(o3));
    o1 = put(o1, "properties", Json::Object(o2));
    o1 = put(o1, "required", texts(&["filename"]));
    Json::Object(o1)
}

fn params_extract_pdf_text() -> (r: Json)
    ensures
        params_extract_pdf_text_spec(r),
{
    proof {
        reveal_strlit("description");
        reveal_strlit("file");
        reveal_strlit("max_chars");
        reveal_strlit("properties");
        reveal_strlit("query");
        reveal_strlit("required");
        reveal_strlit("type");
        assert("type"@[0] != "properties"@[0]);
        assert("type"@[0] != "required"@[0]);
        assert("properties"@[0] != "required"@[0]);
        assert("file"@[0] != "query"@[0]);
        assert("file"@[0] != "max_chars"@[0]);
        assert("query"@[0] != "max_chars"@[0]);
        assert("type"@[0] != "description"@[0]);
    }
    let mut o1: Vec<(String, Json)> = Vec::new();
    o1 = put(o1, "type", text("object"));
    let mut o2: Vec<(String, Json)> = Vec::new();
    let mut o3: Vec<(String, Json)> = Vec::new();
    o3 = put(o3, "type", text("string"));
    o2 = put(o2, "file", Json::Object(o3));
    let mut o4: Vec<(String, Json)> = Vec::new();
    o4 = put(o4, "type", text("string"));
    o4 = put(o4, "description", text("Optional: only return lines containing this (case-insensitive), with 1 line of context."));
    o2 = put(o2, "query", Json::Object(o4));
    let mut o5: Vec<(String, Json)> = Vec::new();
    o5 = put(o5, "type", text("integer"));
    o5 = put(o5, "description", text("Cap on returned characters (default 4000)."));
    o2 = put(o2, "max_chars", Json::Object(o5));
    o1 = put(o1, "properties", Json::Object(o2));
    o1 = put(o1, "required", texts(&["file"]));
    Json::Object(o1)
}

fn params_extract_pdf_amounts() -> (r: Json)
    ensures
        params_extract_pdf_amounts_spec(r),
{
    proof {
        reveal_strlit("description");
        reveal_strlit("file");
        reveal_strlit("properties");
        reveal_strlit("query");
        reveal_strlit("required");
        reveal_strlit("type");
        assert("type"@[0] != "properties"@[0]);
        assert("type"@[0] != "required"@[0]);
        assert("properties"@[0] != "required"@[0]);
        assert("file"@[0] != "query"@[0]);
        assert("type"@[0] != "description"@[0]);
    }
    let mut o1: Vec<(String, Json)> = Vec::new();
    o1 = put(o1, "type", text("object"));
    let mut o2: Vec<(String, Json)> = Vec::new();
    let mut o3: Vec<(String, Json)> = Vec::new();
    o3 = put(o3, "type", text("string"));
    o2 = put(o2, "file", Json::Object(o3));
    let mut o4: Vec<(String, Json)> = Vec::new();
    o4 = put(o4, "type", text("string"));
    o4 = put(o4, "description", text("Optional: only lines containing this text."));
    o2 = put(o2, "query", Json::Object(o4));
    o1 = put(o1, "properties", Json::Object(o2));
    o1 = put(o1, "required", texts(&["file"]));
    Json::Object(o1)
}

/// The tool definitions offered to the model (Ollama / OpenAI function-calling
/// format): every tool `dispatch` runs, with its description and parameters.
pub fn definitions() -> (r: Vec<Json>)
    ensures
        r@.len() == tool_names().len(),
        forall|i: int| 0 <= i < r@.len() ==> defines_tool(#[trigger] r@[i], tool_names()[i]),
        forall|i: int| 0 <= i < r@.len() ==> tool_parts(#[trigger] r@[i], tool_names()[i], tool_descriptions()[i], tool_params(r@[i]))
            && tool_params_ok(i, tool_params(r@[i])),
{
    let mut defs: Vec<Json> = Vec::new();
    defs.push(tool_def("list_files",
        "List every loaded file, its sheets/columns/row counts, and all derived results. Call this first if unsure what exists.",
        params_list_files()));
    defs.push(tool_def("get_schema",
        "Get the columns, row count and a few sample rows of a sheet or prior result. Use before referencing columns.",
        params_get_schema()));
    defs.push(tool_def("filter_rows",
        "Keep only rows matching ALL conditions. Returns a new result_id plus a preview. Never modifies the source.",
        params_filter_rows()));
    defs.push(tool_def("aggregate",
        "Group rows and compute sum/avg/min/max/count per group using exact decimal arithmetic. Empty group_by = totals over all rows. Returns a new result_id.",
        params_aggregate()));
    defs.push(tool_def("sort_rows",
        "Sort by a column (numbers numerically, text alphabetically). Returns a new result_id.",
        params_sort_rows()));
    defs.push(tool_def("compute_column",
        "Add a derived column computed per-row from an arithmetic expression over other columns, e.g. 'Amount * 0.15' or '[Unit Price] * Quantity'. Exact decimal math. Returns a new result_id.",
        params_compute_column()));
    defs.push(tool_def("calculate",
        "Evaluate one arithmetic expression with exact decimal math, e.g. '(1250.40 + 980.10) * 0.15'. ALWAYS use this instead of doing arithmetic yourself.",
        params_calculate()));
    defs.push(tool_def("show_rows",
        "Return up to 50 rows of a sheet or result so you can inspect actual values.",
        params_show_rows()));
    defs.push(tool_def("export_xlsx",
        "Write a result (or a whole sheet) to a NEW .xlsx file in the export folder. Never overwrites sources. Returns the saved path.",
        params_export_xlsx()));
    defs.push(tool_def("extract_pdf_text",
        "Get text from a loaded PDF. Optionally filter to lines containing a query string. Use for reading invoices/statements.",
        params_extract_pdf_text()));
    defs.push(tool_def("extract_pdf_amounts",
        "Scan a loaded PDF for monetary amounts (handles 1,234.50, GHS/USD prefixes, (parentheses) negatives) and return each with its line of context. Then use `calculate` on the ones you need \u{2014} never add them in your head.",
        params_extract_pdf_amounts()));
    defs
}

} // verus!

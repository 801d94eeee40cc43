//! Deterministic table operations. All money math is exact decimal arithmetic.

use vstd::prelude::*;
use crate::cells::{Cell, Table, CoreError, ErrSpec, fit_row, fitted_row, extra_cells, push_extra_cells, is_row_json, is_schema_json, dup_strings, dup_row, row_to_json,
    col_index_from, lenient_spec, parse_decimal_lenient, cell_at, get_cell, row_views};
use crate::dec::{Dec, rounds_to_places, pair_lt, pair_same_value, decimal_display, decimal_round_dp};
use crate::json::{Json, obj_insert, json_text};
use crate::mathexpr::{opt_pair, NameTable, VarEntry, lookup_from, table_fn, eval_spec, eval_with, expr_err_message, ExprErr};
use crate::smap::find_key;
use crate::text::{chars_of, string_of, concat, concat3, u64_to_string, nat_digits, lowercase_of, to_lowercase,
    contains, str_contains, seq_lt, compare_chars, str_eq, lemma_seq_lt_asym};
use crate::workspace::{Workspace, ResultMeta, result_id, page, texts, json_is_str, json_is_strings, json_is_u64,
    strings_to_json, join, join_strings};
use super::{arg_str, arg_usize, arg_str_spec, arg_usize_spec, source_of, source_spec};
use super::groups::{Agg, AggSpec, Group, aggs_view, groups_ok, add_row, finish_groups, agg_rows_ok, agg_table_ok, empty_totals, agg_overflow,
    known_fn, agg_value, group_cells, group_key, sum_of, lemma_sum_overflow_sticks};

verus! {

/// Rows shown in a result's preview.
pub const PREVIEW: usize = 10;

/// Most rows `show_rows` returns at once.
pub const SHOW_MAX: usize = 50;

fn lit(s: &str) -> (r: String)
    ensures
        r@ == s@,
{
    s.to_owned()
}

pub open spec fn opt_string(o: Option<String>) -> Option<Seq<char>> {
    match o {
        Some(s) => Some(s@),
        None => None,
    }
}

/// The lineage recorded for a result made by `op` from the source of `args`.
pub open spec fn lineage_ok(m: ResultMeta, ws: Workspace, args: Json, op: Seq<char>, desc: Seq<char>) -> bool {
    &&& m.op@ == op
    &&& m.summary@ == desc
    &&& match source_spec(ws, args) {
        Ok((src, l)) => {
            &&& opt_string(m.source_id) == arg_str_spec(args, "result_id"@)
            &&& m.source_label@ == l
            &&& m.source_columns@ == src.columns@
            &&& m.source_row_count == src.rows@.len()
        },
        Err(_) => {
            &&& m.source_id is None
            &&& m.source_label@.len() == 0
            &&& m.source_columns@.len() == 0
            &&& m.source_row_count == 0
        },
    }
}

/// The note that goes with a preview of `n` rows.
pub open spec fn preview_note(n: int) -> Seq<char> {
    if n > PREVIEW {
        "preview truncated \u{2014} use show_rows or export_xlsx for full data"@
    } else {
        "preview shows all rows"@
    }
}

/// The answer describing a new result `id` holding `t`.
pub open spec fn is_result_json(j: Json, id: Seq<char>, t: Table) -> bool {
    let n = t.rows@.len() as int;
    &&& j.get_spec("result_id"@) matches Some(x) && json_is_str(x, id)
    &&& j.get_spec("columns"@) matches Some(x) && json_is_strings(x, texts(t.columns@))
    &&& j.get_spec("row_count"@) matches Some(x) && json_is_u64(x, n)
    &&& j.get_spec("preview_first_rows"@) matches Some(Json::Array(rs))
        && rs@.len() == (if n < PREVIEW { n } else { PREVIEW as int })
        && forall|i: int| 0 <= i < rs@.len() ==> is_row_json(#[trigger] rs@[i], t.columns@, t.rows@[i]@)
    &&& j.get_spec("note"@) matches Some(x) && json_is_str(x, preview_note(n))
}

/// The id of the newest result of a workspace.
pub open spec fn newest_id(ws: Workspace) -> Seq<char> {
    result_id(ws.counter() as nat)
}

/// The table stored under the newest id.
pub open spec fn newest_table(ws: Workspace) -> Table {
    ws.results_spec()[find_key(ws.results_spec(), newest_id(ws))->0].1.table
}

/// `new` is `old` with one more result, made by `op` from the source of `args`
/// and described by `desc`; `r` is the answer the model gets.
pub open spec fn finished(old: Workspace, new: Workspace, args: Json, op: Seq<char>, desc: Seq<char>, r: (Json, String)) -> bool {
    let id = newest_id(new);
    let t = newest_table(new);
    &&& new.wf()
    &&& new.counter() == old.counter() + 1
    &&& find_key(old.results_spec(), id) is None
    &&& find_key(new.results_spec(), id) matches Some(i)
        && lineage_ok(new.results_spec()[i].1.meta, old, args, op, desc)
    &&& forall|k: Seq<char>| k != id ==> (find_key(new.results_spec(), k) is Some
        <==> find_key(old.results_spec(), k) is Some)
    &&& forall|k: Seq<char>| k != id && find_key(old.results_spec(), k) is Some
        ==> new.results_spec()[find_key(new.results_spec(), k)->0]
        == old.results_spec()[find_key(old.results_spec(), k)->0]
    &&& new.files_spec() == old.files_spec()
    &&& new.audit_spec() == old.audit_spec()
    &&& new.export_dir_spec() == old.export_dir_spec()
    &&& is_result_json(r.0, id, t)
    &&& r.1@ == desc + " -> "@ + id + " ("@ + nat_digits(t.rows@.len()) + " rows)"@
}

/// Stores a derived table with its lineage and describes it for the model.
fn finish_result(ws: &mut Workspace, table: Table, desc: String, op: &str, args: &Json) -> (r: (Json, String))
    requires
        old(ws).wf(),
        old(ws).counter() < u32::MAX,
    ensures
        finished(*old(ws), *final(ws), *args, op@, desc@, r),
        newest_table(*final(ws)) == table,
{
    let meta = match source_of(ws, args) {
        Ok((src, label)) => ResultMeta {
            op: lit(op),
            source_id: match arg_str(args, "result_id") {
                Some(s) => Some(lit(s)),
                None => None,
            },
            source_label: label,
            source_columns: dup_strings(&src.columns),
            source_row_count: src.rows.len(),
            summary: lit(desc.as_str()),
        },
        Err(_) => {
            let mut m = ResultMeta::empty();
            m.op = lit(op);
            m.summary = lit(desc.as_str());
            m
        },
    };
    let row_count = table.rows.len();
    let columns = strings_to_json(&table.columns);
    let preview = table.preview(PREVIEW);
    let ghost t = table;
    let id = ws.store_result_meta(table, meta);
    proof {
        reveal_strlit("result_id");
        reveal_strlit("columns");
        reveal_strlit("row_count");
        reveal_strlit("preview_first_rows");
        reveal_strlit("note");
        assert("result_id"@[1] != "row_count"@[1]);
        assert("result_id"@[0] != "columns"@[0]);
        assert("result_id"@[0] != "preview_first_rows"@[0]);
        assert("result_id"@[0] != "note"@[0]);
        assert("columns"@[0] != "row_count"@[0]);
        assert("columns"@[0] != "preview_first_rows"@[0]);
        assert("columns"@[0] != "note"@[0]);
        assert("row_count"@[0] != "preview_first_rows"@[0]);
        assert("row_count"@[0] != "note"@[0]);
        assert("preview_first_rows"@[0] != "note"@[0]);
    }
    let mut obj: Vec<(String, Json)> = Vec::new();
    obj_insert(&mut obj, lit("result_id"), Json::Str(lit(id.as_str())));
    obj_insert(&mut obj, lit("columns"), columns);
    obj_insert(&mut obj, lit("row_count"), Json::from_u64(row_count as u64));
    obj_insert(&mut obj, lit("preview_first_rows"), Json::Array(preview));
    let note = if row_count > PREVIEW {
        lit("preview truncated \u{2014} use show_rows or export_xlsx for full data")
    } else {
        lit("preview shows all rows")
    };
    obj_insert(&mut obj, lit("note"), Json::Str(note));
    let digits = u64_to_string(row_count as u64);
    let s1 = concat3(desc.as_str(), " -> ", id.as_str());
    let s2 = concat3(s1.as_str(), " (", digits.as_str());
    let summary = concat(s2.as_str(), " rows)");
    (Json::Object(obj), summary)
}

/// The error for an unknown column, listing the real ones.
pub fn col_err(table: &Table, col: &str) -> (r: CoreError)
    ensures
        r.spec() == ErrSpec::ColumnNotFound(col@, join(texts(table.columns@), ", "@)),
{
    CoreError::ColumnNotFound(lit(col), join_strings(&table.columns, ", "))
}

/// What `get_schema` answers.
pub open spec fn get_schema_post(old_ws: Workspace, new_ws: Workspace, args: Json, r: Result<(Json, String), CoreError>) -> bool {
    &&& (new_ws == old_ws)
    &&& (match source_spec(old_ws, args) {
        Ok((t, l)) => r matches Ok((j, s)) && is_schema_json(j, t, 5)
            && s@ == "read schema of "@ + l + " ("@ + nat_digits(t.rows@.len()) + " rows)"@,
        Err(es) => r matches Err(e) && e.spec() == es,
    })
}

/// Columns, row count and the first five rows of a sheet or result.
pub fn get_schema(ws: &mut Workspace, args: &Json) -> (r: Result<(Json, String), CoreError>)
    requires
        old(ws).wf(),
    ensures
        get_schema_post(*old(ws), *final(ws), *args, r),
{
    let (table, label) = match source_of(ws, args) {
        Ok(x) => x,
        Err(e) => {
            return Err(e);
        },
    };
    let j = table.schema_summary(5);
    let digits = u64_to_string(table.rows.len() as u64);
    let s1 = concat3("read schema of ", label.as_str(), " (");
    let s = concat3(s1.as_str(), digits.as_str(), " rows)");
    Ok((j, s))
}

/// The `limit` of `show_rows`: 20 by default, at most 50.
pub open spec fn show_limit(args: Json) -> int {
    let l = match arg_usize_spec(args, "limit"@) {
        Some(v) => v as int,
        None => 20,
    };
    if l < SHOW_MAX { l } else { SHOW_MAX as int }
}

/// The `offset` of `show_rows`: 0 by default.
pub open spec fn show_offset(args: Json) -> int {
    match arg_usize_spec(args, "offset"@) {
        Some(v) => v as int,
        None => 0,
    }
}

/// The answer of `show_rows` for a page of `t`.
pub open spec fn is_show_json(j: Json, t: Table, offset: int, limit: int) -> bool {
    let p = page(t.rows@, offset, limit);
    &&& j.get_spec("columns"@) matches Some(x) && json_is_strings(x, texts(t.columns@))
    &&& j.get_spec("rows"@) matches Some(Json::Array(rs)) && rs@.len() == p.len()
        && forall|i: int| 0 <= i < rs@.len() ==> is_row_json(#[trigger] rs@[i], t.columns@, p[i]@)
    &&& j.get_spec("offset"@) matches Some(x) && json_is_u64(x, offset)
    &&& j.get_spec("total_rows"@) matches Some(x) && json_is_u64(x, t.rows@.len() as int)
}

/// What `show_rows` answers.
pub open spec fn show_rows_post(old_ws: Workspace, new_ws: Workspace, args: Json, r: Result<(Json, String), CoreError>) -> bool {
    &&& (new_ws == old_ws)
    &&& (match source_spec(old_ws, args) {
        Ok((t, l)) => r matches Ok((j, s)) && is_show_json(j, t, show_offset(args), show_limit(args))
            && s@ == "showed "@ + nat_digits(page(t.rows@, show_offset(args), show_limit(args)).len())
            + " rows of "@ + l,
        Err(es) => r matches Err(e) && e.spec() == es,
    })
}

/// Up to 50 rows of a sheet or result, from `offset` on.
pub fn show_rows(ws: &mut Workspace, args: &Json) -> (r: Result<(Json, String), CoreError>)
    requires
        old(ws).wf(),
    ensures
        show_rows_post(*old(ws), *final(ws), *args, r),
{
    let (table, label) = match source_of(ws, args) {
        Ok(x) => x,
        Err(e) => {
            return Err(e);
        },
    };
    let offset = match arg_usize(args, "offset") {
        Some(v) => v,
        None => 0,
    };
    let want = match arg_usize(args, "limit") {
        Some(v) => v,
        None => 20,
    };
    let limit = if want < SHOW_MAX { want } else { SHOW_MAX };
    let n = table.rows.len();
    let start = if offset < n { offset } else { n };
    let end = if limit < n - start { start + limit } else { n };
    let ghost p = page(table.rows@, offset as int, limit as int);
    let mut rows: Vec<Json> = Vec::new();
    let mut i = start;
    while i < end
        invariant
            start <= i <= end <= n,
            n == table.rows@.len(),
            start == (if offset < n { offset as int } else { n as int }),
            end == (if start + limit < n { start + limit } else { n as int }),
            p == page(table.rows@, offset as int, limit as int),
            rows@.len() == i - start,
            forall|k: int| 0 <= k < i - start ==> is_row_json(#[trigger] rows@[k], table.columns@, table.rows@[start + k]@),
        decreases end - i,
    {
        rows.push(row_to_json(&table.columns, &table.rows[i]));
        i = i + 1;
    }
    proof {
        assert forall|k: int| 0 <= k < rows@.len() implies is_row_json(#[trigger] rows@[k], table.columns@, p[k]@) by {
            assert(p[k] == table.rows@[start + k]);
        }
        reveal_strlit("columns");
        reveal_strlit("rows");
        reveal_strlit("offset");
        reveal_strlit("total_rows");
        assert("columns"@[0] != "rows"@[0]);
        assert("columns"@[0] != "offset"@[0]);
        assert("columns"@[0] != "total_rows"@[0]);
        assert("rows"@[0] != "offset"@[0]);
        assert("rows"@[0] != "total_rows"@[0]);
        assert("offset"@[0] != "total_rows"@[0]);
    }
    let count = rows.len();
    let mut obj: Vec<(String, Json)> = Vec::new();
    obj_insert(&mut obj, lit("columns"), strings_to_json(&table.columns));
    obj_insert(&mut obj, lit("rows"), Json::Array(rows));
    obj_insert(&mut obj, lit("offset"), Json::from_u64(offset as u64));
    obj_insert(&mut obj, lit("total_rows"), Json::from_u64(n as u64));
    let digits = u64_to_string(count as u64);
    let s = concat3("showed ", digits.as_str(), " rows of ");
    let summary = concat(s.as_str(), label.as_str());
    Ok((Json::Object(obj), summary))
}

// ------------------------------------------------------------------ filter

/// A filter condition as a mathematical value.
pub struct CondSpec {
    pub col_idx: usize,
    pub col_name: Seq<char>,
    pub op: Seq<char>,
    pub value: Option<Json>,
}

/// A parsed filter condition: the column, the operator and the value to compare
/// against (taken from the tool arguments).
pub struct Cond<'a> {
    pub col_idx: usize,
    pub col_name: String,
    pub op: String,
    pub value: Option<&'a Json>,
}

impl<'a> Cond<'a> {
    pub open spec fn view(&self) -> CondSpec {
        CondSpec {
            col_idx: self.col_idx,
            col_name: self.col_name@,
            op: self.op@,
            value: match self.value {
                Some(v) => Some(*v),
                None => None,
            },
        }
    }
}

/// One condition object of the `conditions` argument, read against table `t`.
pub open spec fn cond_of(c: Json, t: Table) -> Result<CondSpec, ErrSpec> {
    match c.get_spec("column"@) {
        Some(Json::Str(col)) => match col_index_from(t.columns@, col@, 0) {
            None => Err(ErrSpec::ColumnNotFound(col@, join(texts(t.columns@), ", "@))),
            Some(idx) => match c.get_spec("op"@) {
                Some(Json::Str(op)) => Ok(
                    CondSpec { col_idx: idx as usize, col_name: col@, op: op@, value: c.get_spec("value"@) },
                ),
                _ => Err(ErrSpec::BadArg("condition missing 'op'"@)),
            },
        },
        _ => Err(ErrSpec::BadArg("condition missing 'column'"@)),
    }
}

/// The conditions of a list, in order; the first bad one is the error.
pub open spec fn conds_from(items: Seq<Json>, t: Table) -> Result<Seq<CondSpec>, ErrSpec>
    decreases items.len(),
{
    if items.len() == 0 {
        Ok(seq![])
    } else {
        match conds_from(items.drop_last(), t) {
            Err(e) => Err(e),
            Ok(cs) => match cond_of(items.last(), t) {
                Err(e) => Err(e),
                Ok(c) => Ok(cs.push(c)),
            },
        }
    }
}

/// The `conditions` argument: a non-empty array of conditions.
pub open spec fn conds_spec(t: Table, args: Json) -> Result<Seq<CondSpec>, ErrSpec> {
    match args.get_spec("conditions"@) {
        Some(Json::Array(items)) => if items@.len() == 0 {
            Err(ErrSpec::BadArg("'conditions' is empty"@))
        } else {
            conds_from(items@, t)
        },
        _ => Err(ErrSpec::BadArg("'conditions' must be an array"@)),
    }
}

fn parse_condition<'a>(table: &Table, c: &'a Json) -> (r: Result<Cond<'a>, CoreError>)
    ensures
        match cond_of(*c, *table) {
            Ok(cs) => r matches Ok(x) && x.view() == cs && x.col_idx < table.columns@.len(),
            Err(es) => r matches Err(e) && e.spec() == es,
        },
{
    let col = match c.get("column") {
        Some(v) => match v.as_str() {
            Some(s) => s,
            None => {
                return Err(CoreError::BadArg(lit("condition missing 'column'")));
            },
        },
        None => {
            return Err(CoreError::BadArg(lit("condition missing 'column'")));
        },
    };
    let idx = match table.col_index(col.as_str()) {
        Some(i) => i,
        None => {
            return Err(col_err(table, col.as_str()));
        },
    };
    proof {
        crate::cells::lemma_col_index_from(table.columns@, col@, 0);
    }
    let op = match c.get("op") {
        Some(v) => match v.as_str() {
            Some(s) => lit(s.as_str()),
            None => {
                return Err(CoreError::BadArg(lit("condition missing 'op'")));
            },
        },
        None => {
            return Err(CoreError::BadArg(lit("condition missing 'op'")));
        },
    };
    Ok(Cond { col_idx: idx, col_name: lit(col.as_str()), op, value: c.get("value") })
}

/// Reads the `conditions` argument against the columns of `table`.
#[verifier::loop_isolation(false)]
fn parse_conditions<'a>(table: &Table, args: &'a Json) -> (r: Result<Vec<Cond<'a>>, CoreError>)
    ensures
        match conds_spec(*table, *args) {
            Ok(cs) => r matches Ok(v) && v@.len() == cs.len() && forall|i: int| 0 <= i < cs.len()
                ==> (#[trigger] v@[i]).view() == cs[i] && v@[i].col_idx < table.columns@.len(),
            Err(es) => r matches Err(e) && e.spec() == es,
        },
{
    let raw = match args.get("conditions") {
        Some(v) => match v.as_array() {
            Some(a) => a,
            None => {
                return Err(CoreError::BadArg(lit("'conditions' must be an array")));
            },
        },
        None => {
            return Err(CoreError::BadArg(lit("'conditions' must be an array")));
        },
    };
    if raw.len() == 0 {
        return Err(CoreError::BadArg(lit("'conditions' is empty")));
    }
    let mut out: Vec<Cond<'a>> = Vec::new();
    let mut i: usize = 0;
    proof {
        assert(raw@.take(0) =~= seq![]);
    }
    while i < raw.len()
        invariant
            i <= raw@.len(),
            conds_from(raw@.take(i as int), *table) matches Ok(cs) && out@.len() == cs.len()
                && forall|k: int| 0 <= k < cs.len() ==> (#[trigger] out@[k]).view() == cs[k]
                && out@[k].col_idx < table.columns@.len(),
        decreases raw.len() - i,
    {
        proof {
            assert(raw@.take(i + 1).drop_last() =~= raw@.take(i as int));
            assert(raw@.take(i + 1).last() == raw@[i as int]);
        }
        let c = match parse_condition(table, &raw[i]) {
            Ok(c) => c,
            Err(e) => {
                proof {
                    assert(conds_from(raw@.take(i + 1), *table) == Err::<Seq<CondSpec>, ErrSpec>(e.spec()));
                    lemma_conds_error_sticks(raw@, *table, i as int + 1);
                    assert(raw@.take(raw@.len() as int) =~= raw@);
                }
                return Err(e);
            },
        };
        out.push(c);
        i = i + 1;
    }
    proof {
        assert(raw@.take(raw@.len() as int) =~= raw@);
    }
    Ok(out)
}

proof fn lemma_conds_error_sticks(items: Seq<Json>, t: Table, n: int)
    requires
        0 < n <= items.len(),
        conds_from(items.take(n), t) is Err,
    ensures
        conds_from(items.take(items.len() as int), t) == conds_from(items.take(n), t),
    decreases items.len() - n,
{
    if n < items.len() {
        assert(items.take(n + 1).drop_last() =~= items.take(n));
        lemma_conds_error_sticks(items, t, n + 1);
    }
}

/// A comparison between two numbers; `None` for an unknown operator.
pub open spec fn num_op(op: Seq<char>, l: (i128, u32), r: (i128, u32)) -> Option<bool> {
    if op == "eq"@ {
        Some(pair_same_value(l, r))
    } else if op == "ne"@ {
        Some(!pair_same_value(l, r))
    } else if op == "gt"@ {
        Some(pair_lt(r, l))
    } else if op == "gte"@ {
        Some(!pair_lt(l, r))
    } else if op == "lt"@ {
        Some(pair_lt(l, r))
    } else if op == "lte"@ {
        Some(!pair_lt(r, l))
    } else if op == "contains"@ {
        Some(contains(decimal_display(l), decimal_display(r)))
    } else {
        None
    }
}

/// A comparison between two texts; `None` for an unknown operator.
pub open spec fn text_op(op: Seq<char>, l: Seq<char>, r: Seq<char>) -> Option<bool> {
    if op == "eq"@ {
        Some(l == r)
    } else if op == "ne"@ {
        Some(l != r)
    } else if op == "contains"@ {
        Some(contains(l, r))
    } else if op == "gt"@ {
        Some(seq_lt(r, l))
    } else if op == "gte"@ {
        Some(!seq_lt(l, r))
    } else if op == "lt"@ {
        Some(seq_lt(l, r))
    } else if op == "lte"@ {
        Some(!seq_lt(r, l))
    } else {
        None
    }
}

/// The number a condition's value stands for: a JSON number's decimal, or a
/// string that reads as a number.
pub open spec fn value_number(v: Json) -> Option<(i128, u32)> {
    match v {
        Json::Number(n) => opt_pair(n.as_dec),
        Json::Str(s) => lenient_spec(s@),
        _ => None,
    }
}

/// The text a condition's value is compared as: a string's text, else its JSON
/// text; lower-cased.
pub open spec fn value_text(v: Json) -> Seq<char> {
    match v {
        Json::Str(s) => lowercase_of(s@),
        _ => lowercase_of(json_text(v)),
    }
}

/// Whether `cell` satisfies condition `c`. Numbers compare as numbers when both
/// sides are numeric, otherwise both sides compare as lower-cased text.
pub open spec fn cond_spec(cell: Cell, c: CondSpec) -> Result<bool, ErrSpec> {
    if c.op == "empty"@ {
        Ok(cell.empty_spec())
    } else if c.op == "not_empty"@ {
        Ok(!cell.empty_spec())
    } else {
        match c.value {
            None => Err(ErrSpec::BadArg("condition on '"@ + c.col_name + "' with op '"@ + c.op + "' needs a 'value'"@)),
            Some(v) => {
                let unknown = ErrSpec::BadArg("unknown op '"@ + c.op + "'"@);
                match (cell.number_spec(), value_number(v)) {
                    (Some(l), Some(r)) => match num_op(c.op, l, r) {
                        Some(b) => Ok(b),
                        None => Err(unknown),
                    },
                    _ => match text_op(c.op, lowercase_of(cell.display_spec()), value_text(v)) {
                        Some(b) => Ok(b),
                        None => Err(unknown),
                    },
                }
            },
        }
    }
}

fn num_op_exec(op: &str, l: &Dec, r: &Dec) -> (res: Option<bool>)
    ensures
        res == num_op(op@, l.pair(), r.pair()),
{
    let c = l.compare(r);
    if str_eq(op, "eq") {
        Some(c == 0)
    } else if str_eq(op, "ne") {
        Some(c != 0)
    } else if str_eq(op, "gt") {
        Some(c == 1)
    } else if str_eq(op, "gte") {
        Some(c != -1)
    } else if str_eq(op, "lt") {
        Some(c == -1)
    } else if str_eq(op, "lte") {
        Some(c != 1)
    } else if str_eq(op, "contains") {
        let a = l.to_text();
        let b = r.to_text();
        Some(str_contains(a.as_str(), b.as_str()))
    } else {
        None
    }
}

fn text_op_exec(op: &str, l: &String, r: &String) -> (res: Option<bool>)
    ensures
        res == text_op(op@, l@, r@),
{
    let c = compare_chars(&chars_of(l.as_str()), &chars_of(r.as_str()));
    if str_eq(op, "eq") {
        Some(c == 0)
    } else if str_eq(op, "ne") {
        Some(c != 0)
    } else if str_eq(op, "contains") {
        Some(str_contains(l.as_str(), r.as_str()))
    } else if str_eq(op, "gt") {
        Some(c == 1)
    } else if str_eq(op, "gte") {
        Some(c != -1)
    } else if str_eq(op, "lt") {
        Some(c == -1)
    } else if str_eq(op, "lte") {
        Some(c != 1)
    } else {
        None
    }
}

/// Whether a cell satisfies a condition.
fn cond_matches(cell: &Cell, cond: &Cond) -> (r: Result<bool, CoreError>)
    ensures
        match cond_spec(*cell, cond.view()) {
            Ok(b) => r == Ok::<bool, CoreError>(b),
            Err(es) => r matches Err(e) && e.spec() == es,
        },
{
    if str_eq(cond.op.as_str(), "empty") {
        return Ok(cell.is_empty());
    }
    if str_eq(cond.op.as_str(), "not_empty") {
        return Ok(!cell.is_empty());
    }
    let value = match cond.value {
        Some(v) => v,
        None => {
            let a = concat3("condition on '", cond.col_name.as_str(), "' with op '");
            let b = concat3(a.as_str(), cond.op.as_str(), "' needs a 'value'");
            return Err(CoreError::BadArg(b));
        },
    };
    let rhs_num: Option<Dec> = match value {
        Json::Number(n) => n.as_dec,
        Json::Str(s) => parse_decimal_lenient(s.as_str()),
        _ => None,
    };
    let lhs_num = cell.as_number();
    let outcome = match (lhs_num, rhs_num) {
        (Some(l), Some(r)) => num_op_exec(cond.op.as_str(), &l, &r),
        _ => {
            let l = to_lowercase(cell.as_display().as_str());
            let r = match value {
                Json::Str(s) => to_lowercase(s.as_str()),
                other => to_lowercase(other.to_text().as_str()),
            };
            text_op_exec(cond.op.as_str(), &l, &r)
        },
    };
    match outcome {
        Some(b) => Ok(b),
        None => Err(CoreError::BadArg(concat3("unknown op '", cond.op.as_str(), "'"))),
    }
}

/// Whether a row passes all conditions (checked in order; the first failure
/// decides, and an error in a condition that is reached is the answer).
pub open spec fn keep_row(row: Seq<Cell>, conds: Seq<CondSpec>) -> Result<bool, ErrSpec>
    decreases conds.len(),
{
    if conds.len() == 0 {
        Ok(true)
    } else {
        match cond_spec(cell_at(row, conds[0].col_idx as int), conds[0]) {
            Err(e) => Err(e),
            Ok(false) => Ok(false),
            Ok(true) => keep_row(row, conds.drop_first()),
        }
    }
}

/// The rows that pass all conditions, in their order; the first error met while
/// going through the rows in order is the answer instead.
pub open spec fn filter_spec(rows: Seq<Seq<Cell>>, conds: Seq<CondSpec>) -> Result<Seq<Seq<Cell>>, ErrSpec>
    decreases rows.len(),
{
    if rows.len() == 0 {
        Ok(seq![])
    } else {
        match filter_spec(rows.drop_last(), conds) {
            Err(e) => Err(e),
            Ok(kept) => match keep_row(rows.last(), conds) {
                Err(e) => Err(e),
                Ok(true) => Ok(kept.push(rows.last())),
                Ok(false) => Ok(kept),
            },
        }
    }
}

/// How a condition reads in a summary: `column op value`.
pub open spec fn cond_text(c: CondSpec) -> Seq<char> {
    c.col_name + " "@ + c.op + " "@ + match c.value {
        Some(v) => json_text(v),
        None => seq![],
    }
}

/// The summary of a filter.
pub open spec fn filter_desc(conds: Seq<CondSpec>, label: Seq<char>) -> Seq<char> {
    "filter ["@ + join(conds.map_values(|c: CondSpec| cond_text(c)), " AND "@) + "] on "@ + label
}

fn keep_exec(row: &Vec<Cell>, conds: &Vec<Cond>) -> (r: Result<bool, CoreError>)
    ensures
        match keep_row(row@, conds@.map_values(|c: Cond| c.view())) {
            Ok(b) => r == Ok::<bool, CoreError>(b),
            Err(es) => r matches Err(e) && e.spec() == es,
        },
{
    let ghost cs = conds@.map_values(|c: Cond| c.view());
    let mut j: usize = 0;
    proof {
        assert(cs.skip(0) =~= cs);
    }
    while j < conds.len()
        invariant
            j <= conds@.len(),
            cs == conds@.map_values(|c: Cond| c.view()),
            keep_row(row@, cs) == keep_row(row@, cs.skip(j as int)),
        decreases conds.len() - j,
    {
        proof {
            assert(cs.skip(j as int)[0] == conds@[j as int].view());
            assert(cs.skip(j as int).drop_first() =~= cs.skip(j + 1));
        }
        let c = &conds[j];
        let cell = get_cell(row, c.col_idx);
        match cond_matches(&cell, c) {
            Err(e) => {
                return Err(e);
            },
            Ok(false) => {
                return Ok(false);
            },
            Ok(true) => {},
        }
        j = j + 1;
    }
    proof {
        assert(cs.skip(conds@.len() as int) =~= seq![]);
    }
    Ok(true)
}

/// What `filter_rows` answers and stores.
pub open spec fn filter_rows_post(old_ws: Workspace, new_ws: Workspace, args: Json, r: Result<(Json, String), CoreError>) -> bool {
    &&& (match source_spec(old_ws, args) {
        Err(es) => r matches Err(e) && e.spec() == es && new_ws == old_ws,
        Ok((t, l)) => match conds_spec(t, args) {
            Err(es) => r matches Err(e) && e.spec() == es && new_ws == old_ws,
            Ok(cs) => match filter_spec(row_views(t.rows@), cs) {
                Err(es) => r matches Err(e) && e.spec() == es && new_ws == old_ws,
                Ok(kept) => r matches Ok(x) && finished(old_ws, new_ws, args, "filter_rows"@, filter_desc(cs, l), x)
                    && newest_table(new_ws).columns@ == t.columns@
                    && row_views(newest_table(new_ws).rows@) == kept,
            },
        },
    })
}

/// Keeps only the rows matching all conditions, as a new result. The source is
/// never modified.
#[verifier::loop_isolation(false)]
pub fn filter_rows(ws: &mut Workspace, args: &Json) -> (r: Result<(Json, String), CoreError>)
    requires
        old(ws).wf(),
        old(ws).counter() < u32::MAX,
    ensures
        filter_rows_post(*old(ws), *final(ws), *args, r),
{
    let (out, desc) = {
        let (table, label) = match source_of(ws, args) {
            Ok(x) => x,
            Err(e) => {
                return Err(e);
            },
        };
        let conds = match parse_conditions(table, args) {
            Ok(c) => c,
            Err(e) => {
                return Err(e);
            },
        };
        let ghost cs = conds@.map_values(|c: Cond| c.view());
        proof {
            assert(cs =~= conds_spec(*table, *args)->Ok_0);
        }
        let mut rows: Vec<Vec<Cell>> = Vec::new();
        let mut i: usize = 0;
        let ghost rv = row_views(table.rows@);
        proof {
            assert(rv.take(0) =~= seq![]);
            assert(row_views(rows@) =~= seq![]);
        }
        while i < table.rows.len()
            invariant
                i <= table.rows@.len(),
                rv == row_views(table.rows@),
                cs == conds@.map_values(|c: Cond| c.view()),
                filter_spec(rv.take(i as int), cs) == Ok::<Seq<Seq<Cell>>, ErrSpec>(row_views(rows@)),
            decreases table.rows.len() - i,
        {
            proof {
                assert(rv.take(i + 1).drop_last() =~= rv.take(i as int));
                assert(rv.take(i + 1).last() == table.rows@[i as int]@);
            }
            match keep_exec(&table.rows[i], &conds) {
                Err(e) => {
                    proof {
                        assert(filter_spec(rv.take(i + 1), cs) == Err::<Seq<Seq<Cell>>, ErrSpec>(e.spec()));
                        lemma_filter_error_sticks(rv, cs, i as int + 1);
                        assert(rv.take(rv.len() as int) =~= rv);
                    }
                    return Err(e);
                },
                Ok(true) => {
                    let ghost before = rows@;
                    rows.push(dup_row(&table.rows[i]));
                    proof {
                        assert(row_views(rows@) =~= row_views(before).push(table.rows@[i as int]@));
                    }
                },
                Ok(false) => {},
            }
            i = i + 1;
        }
        proof {
            assert(rv.take(rv.len() as int) =~= rv);
        }
        let mut texts_v: Vec<String> = Vec::new();
        let mut k: usize = 0;
        while k < conds.len()
            invariant
                k <= conds@.len(),
                texts_v@.len() == k,
                forall|q: int| 0 <= q < k ==> (#[trigger] texts_v@[q])@ == cond_text(conds@[q].view()),
            decreases conds.len() - k,
        {
            let c = &conds[k];
            let v = match c.value {
                Some(v) => v.to_text(),
                None => lit(""),
            };
            let a = concat3(c.col_name.as_str(), " ", c.op.as_str());
            let b = concat3(a.as_str(), " ", v.as_str());
            proof {
                reveal_strlit("");
                assert(b@ == cond_text(c.view()));
            }
            texts_v.push(b);
            k = k + 1;
        }
        proof {
            assert(texts_v@.map_values(|x: String| x@) =~= cs.map_values(|c: CondSpec| cond_text(c)));
        }
        let joined = join_strings(&texts_v, " AND ");
        let d1 = concat3("filter [", joined.as_str(), "] on ");
        let desc = concat(d1.as_str(), label.as_str());
        (Table { columns: dup_strings(&table.columns), rows }, desc)
    };
    Ok(finish_result(ws, out, desc, "filter_rows", args))
}

proof fn lemma_filter_error_sticks(rows: Seq<Seq<Cell>>, conds: Seq<CondSpec>, n: int)
    requires
        0 < n <= rows.len(),
        filter_spec(rows.take(n), conds) is Err,
    ensures
        filter_spec(rows, conds) == filter_spec(rows.take(n), conds),
    decreases rows.len() - n,
{
    if n < rows.len() {
        assert(rows.take(n + 1).drop_last() =~= rows.take(n));
        lemma_filter_error_sticks(rows, conds, n + 1);
    } else {
        assert(rows.take(n) =~= rows);
    }
}

// ------------------------------------------------------------------ sort

/// The order of two cells: numerically when both are numbers, else by their
/// lower-cased display text.
pub open spec fn cell_less(x: Cell, y: Cell) -> bool {
    match (x.number_spec(), y.number_spec()) {
        (Some(p), Some(q)) => pair_lt(p, q),
        _ => seq_lt(lowercase_of(x.display_spec()), lowercase_of(y.display_spec())),
    }
}

/// Whether row `a` goes before row `b` when sorting by column `idx`
/// (ascending, or descending when `desc`).
#[verifier::opaque]
pub open spec fn row_less(a: Seq<Cell>, b: Seq<Cell>, idx: int, desc: bool) -> bool {
    if desc {
        cell_less(cell_at(b, idx), cell_at(a, idx))
    } else {
        cell_less(cell_at(a, idx), cell_at(b, idx))
    }
}

/// The first `n` rows in sorted order: `perm` lists each of the indices
/// `0..n` once, no row goes before its predecessor, and rows that tie keep
/// their original order.
pub open spec fn sorted_prefix(rows: Seq<Seq<Cell>>, perm: Seq<int>, n: int, idx: int, desc: bool) -> bool {
    &&& perm.len() == n
    &&& forall|k: int| 0 <= k < n ==> 0 <= #[trigger] perm[k] < n
    &&& forall|a: int, b: int| 0 <= a < b < n ==> perm[a] != perm[b]
    &&& forall|k: int| 0 <= k < n - 1 ==> !row_less(rows[perm[k + 1]], rows[#[trigger] perm[k]], idx, desc)
    &&& forall|k: int| 0 <= k < n - 1 && !row_less(rows[#[trigger] perm[k]], rows[perm[k + 1]], idx, desc)
        ==> perm[k] < perm[k + 1]
}

/// `perm` lists every row index once, in an order where no row goes before its
/// predecessor, and rows that tie keep their original order.
pub open spec fn is_sorted_perm(rows: Seq<Seq<Cell>>, perm: Seq<int>, idx: int, desc: bool) -> bool {
    sorted_prefix(rows, perm, rows.len() as int, idx, desc)
}

proof fn lemma_insert_range(perm: Seq<int>, i: int, j: int)
    requires
        0 <= j <= i,
        perm.len() == i,
        forall|k: int| 0 <= k < i ==> 0 <= #[trigger] perm[k] < i,
        forall|a: int, b: int| 0 <= a < b < i ==> perm[a] != perm[b],
    ensures
        forall|k: int| 0 <= k < i + 1 ==> 0 <= #[trigger] perm.insert(j, i)[k] < i + 1,
        forall|a: int, b: int| 0 <= a < b < i + 1 ==> perm.insert(j, i)[a] != perm.insert(j, i)[b],
{
    let np = perm.insert(j, i);
    assert forall|k: int| 0 <= k < i + 1 implies 0 <= #[trigger] np[k] < i + 1 by {
        if k < j {
            assert(np[k] == perm[k]);
        } else if k > j {
            assert(np[k] == perm[k - 1]);
        }
    }
    assert forall|a: int, b: int| 0 <= a < b < i + 1 implies np[a] != np[b] by {
        if a < j && b < j {
            assert(np[a] == perm[a] && np[b] == perm[b]);
        } else if a > j && b > j {
            assert(np[a] == perm[a - 1] && np[b] == perm[b - 1]);
        } else if a < j && b > j {
            assert(np[a] == perm[a] && np[b] == perm[b - 1]);
        } else if a == j {
            assert(np[b] == perm[b - 1]);
            assert(0 <= perm[b - 1] < i);
        } else {
            assert(np[a] == perm[a]);
            assert(0 <= perm[a] < i);
        }
    }
}

proof fn lemma_insert_adjacent(rv: Seq<Seq<Cell>>, perm: Seq<int>, i: int, j: int, idx: int, desc: bool)
    requires
        0 <= j <= i < rv.len(),
        perm.len() == i,
        forall|k: int| 0 <= k < i - 1 ==> !row_less(rv[perm[k + 1]], rv[#[trigger] perm[k]], idx, desc),
        j > 0 ==> !row_less(rv[i], rv[perm[j - 1]], idx, desc),
        j < i ==> !row_less(rv[perm[j]], rv[i], idx, desc),
    ensures
        forall|k: int| 0 <= k < i + 1 - 1 ==> !row_less(rv[perm.insert(j, i)[k + 1]], rv[#[trigger] perm.insert(j, i)[k]], idx, desc),
{
    let np = perm.insert(j, i);
    assert forall|k: int| 0 <= k < i + 1 - 1 implies !row_less(rv[np[k + 1]], rv[#[trigger] np[k]], idx, desc) by {
        if k + 1 < j {
            assert(np[k] == perm[k] && np[k + 1] == perm[k + 1]);
        } else if k + 1 == j {
            assert(np[k] == perm[k] && np[k + 1] == i);
        } else if k == j {
            assert(np[k] == i && np[k + 1] == perm[k]);
        } else {
            assert(np[k] == perm[k - 1] && np[k + 1] == perm[k]);
        }
    }
}

proof fn lemma_insert_stable(rv: Seq<Seq<Cell>>, perm: Seq<int>, i: int, j: int, idx: int, desc: bool)
    requires
        0 <= j <= i < rv.len(),
        perm.len() == i,
        forall|k: int| 0 <= k < i ==> 0 <= #[trigger] perm[k] < i,
        forall|k: int| 0 <= k < i - 1 && !row_less(rv[#[trigger] perm[k]], rv[perm[k + 1]], idx, desc)
            ==> perm[k] < perm[k + 1],
        j < i ==> row_less(rv[i], rv[perm[j]], idx, desc),
    ensures
        forall|k: int| 0 <= k < i + 1 - 1 && !row_less(rv[#[trigger] perm.insert(j, i)[k]], rv[perm.insert(j, i)[k + 1]], idx, desc)
            ==> perm.insert(j, i)[k] < perm.insert(j, i)[k + 1],
{
    let np = perm.insert(j, i);
    assert forall|k: int| 0 <= k < i + 1 - 1 && !row_less(rv[#[trigger] np[k]], rv[np[k + 1]], idx, desc)
        implies np[k] < np[k + 1] by {
        if k + 1 < j {
            assert(np[k] == perm[k] && np[k + 1] == perm[k + 1]);
        } else if k + 1 == j {
            assert(np[k] == perm[k] && np[k + 1] == i);
            assert(0 <= perm[k] < i);
        } else if k == j {
            assert(np[k] == i && np[k + 1] == perm[k]);
        } else {
            assert(np[k] == perm[k - 1] && np[k + 1] == perm[k]);
        }
    }
}

proof fn lemma_insert_sorted(rv: Seq<Seq<Cell>>, perm: Seq<int>, i: int, j: int, idx: int, desc: bool)
    requires
        0 <= j <= i < rv.len(),
        sorted_prefix(rv, perm, i, idx, desc),
        j > 0 ==> !row_less(rv[i], rv[perm[j - 1]], idx, desc),
        j < i ==> row_less(rv[i], rv[perm[j]], idx, desc),
    ensures
        sorted_prefix(rv, perm.insert(j, i), i + 1, idx, desc),
{
    if j < i {
        lemma_row_less_asym(rv[i], rv[perm[j]], idx, desc);
    }
    lemma_insert_range(perm, i, j);
    lemma_insert_adjacent(rv, perm, i, j, idx, desc);
    lemma_insert_stable(rv, perm, i, j, idx, desc);
}

proof fn lemma_cell_less_asym(x: Cell, y: Cell)
    ensures
        !(cell_less(x, y) && cell_less(y, x)),
{
    match (x.number_spec(), y.number_spec()) {
        (Some(p), Some(q)) => {},
        _ => {
            lemma_seq_lt_asym(lowercase_of(x.display_spec()), lowercase_of(y.display_spec()));
        },
    }
}

fn cell_less_exec(x: &Cell, y: &Cell) -> (r: bool)
    ensures
        r == cell_less(*x, *y),
{
    match (x.as_number(), y.as_number()) {
        (Some(p), Some(q)) => p.compare(&q) == -1,
        _ => {
            let a = to_lowercase(x.as_display().as_str());
            let b = to_lowercase(y.as_display().as_str());
            compare_chars(&chars_of(a.as_str()), &chars_of(b.as_str())) == -1
        },
    }
}

fn row_less_exec(a: &Vec<Cell>, b: &Vec<Cell>, idx: usize, desc: bool) -> (r: bool)
    ensures
        r == row_less(a@, b@, idx as int, desc),
{
    reveal(row_less);
    let ca = get_cell(a, idx);
    let cb = get_cell(b, idx);
    if desc {
        cell_less_exec(&cb, &ca)
    } else {
        cell_less_exec(&ca, &cb)
    }
}

/// A stable insertion sort of the rows by column `idx`.
fn sorted_rows(rows: &Vec<Vec<Cell>>, idx: usize, desc: bool) -> (r: (Vec<Vec<Cell>>, Ghost<Seq<int>>))
    ensures
        is_sorted_perm(row_views(rows@), r.1@, idx as int, desc),
        r.0@.len() == rows@.len(),
        forall|k: int| 0 <= k < r.0@.len() ==> (#[trigger] r.0@[k])@ == rows@[r.1@[k]]@,
{
    let ghost rv = row_views(rows@);
    let mut out: Vec<Vec<Cell>> = Vec::new();
    let ghost mut perm: Seq<int> = seq![];
    let mut i: usize = 0;
    while i < rows.len()
        invariant
            i <= rows@.len(),
            rv == row_views(rows@),
            out@.len() == i,
            sorted_prefix(rv, perm, i as int, idx as int, desc),
            forall|k: int| 0 <= k < i ==> (#[trigger] out@[k])@ == rv[perm[k]],
        decreases rows.len() - i,
    {
        let mut j = out.len();
        while j > 0 && row_less_exec(&rows[i], &out[j - 1], idx, desc)
            invariant
                j <= out@.len(),
                i < rows@.len(),
                j < out@.len() ==> row_less(rows@[i as int]@, out@[j as int]@, idx as int, desc),
            decreases j,
        {
            j = j - 1;
        }
        proof {
            assert(rv[i as int] == rows@[i as int]@);
            if j > 0 {
                assert(out@[j - 1]@ == rv[perm[j - 1]]);
            }
            if j < out@.len() {
                assert(out@[j as int]@ == rv[perm[j as int]]);
            }
            lemma_insert_sorted(rv, perm, i as int, j as int, idx as int, desc);
        }
        let ghost old_out = out@;
        let ghost old_perm = perm;
        out.insert(j, dup_row(&rows[i]));
        proof {
            perm = perm.insert(j as int, i as int);
            assert forall|k: int| 0 <= k < i + 1 implies (#[trigger] out@[k])@ == rv[perm[k]] by {
                if k < j {
                    assert(out@[k] == old_out[k] && perm[k] == old_perm[k]);
                } else if k > j {
                    assert(out@[k] == old_out[k - 1] && perm[k] == old_perm[k - 1]);
                }
            }
        }
        i = i + 1;
    }
    proof {
        assert forall|k: int| 0 <= k < out@.len() implies (#[trigger] out@[k])@ == rows@[perm[k]]@ by {
            assert(0 <= perm[k] < rows@.len());
        }
    }
    (out, Ghost(perm))
}

proof fn lemma_row_less_asym(a: Seq<Cell>, b: Seq<Cell>, idx: int, desc: bool)
    ensures
        !(row_less(a, b, idx, desc) && row_less(b, a, idx, desc)),
{
    reveal(row_less);
    lemma_cell_less_asym(cell_at(a, idx), cell_at(b, idx));
}

/// The `descending` flag of `sort_rows` (false unless given as `true`).
pub open spec fn descending_flag(args: Json) -> bool {
    match args.get_spec("descending"@) {
        Some(Json::Bool(b)) => b,
        _ => false,
    }
}

/// The summary of a sort.
pub open spec fn sort_desc(col: Seq<char>, desc: bool, limit: Option<usize>, label: Seq<char>) -> Seq<char> {
    "sort by "@ + col + " "@ + (if desc { "desc"@ } else { "asc"@ }) + match limit {
        Some(l) => ", top "@ + nat_digits(l as nat),
        None => seq![],
    } + " on "@ + label
}

/// How many rows a sort keeps: all, or the first `limit`.
pub open spec fn kept_count(n: int, limit: Option<usize>) -> int {
    match limit {
        Some(l) => if l < n { l as int } else { n },
        None => n,
    }
}

/// `out` is the first rows (all, or `limit` of them) of a stable sort of `rows`.
pub open spec fn sorted_result(rows: Seq<Seq<Cell>>, out: Seq<Seq<Cell>>, idx: int, desc: bool, limit: Option<usize>) -> bool {
    exists|perm: Seq<int>| #[trigger] is_sorted_perm(rows, perm, idx, desc)
        && out == Seq::new(kept_count(rows.len() as int, limit) as nat, |k: int| rows[perm[k]])
}

/// What `sort_rows` answers and stores.
pub open spec fn sort_rows_post(old_ws: Workspace, new_ws: Workspace, args: Json, r: Result<(Json, String), CoreError>) -> bool {
    &&& (match source_spec(old_ws, args) {
        Err(es) => r matches Err(e) && e.spec() == es && new_ws == old_ws,
        Ok((t, l)) => match arg_str_spec(args, "column"@) {
            None => r matches Err(e) && e.spec() == ErrSpec::BadArg("'column' is required"@) && new_ws == old_ws,
            Some(col) => match col_index_from(t.columns@, col, 0) {
                None => r matches Err(e) && e.spec() == ErrSpec::ColumnNotFound(col, join(texts(t.columns@), ", "@))
                    && new_ws == old_ws,
                Some(idx) => r matches Ok(x) && finished(old_ws, new_ws, args, "sort_rows"@,
                    sort_desc(col, descending_flag(args), arg_usize_spec(args, "limit"@), l), x)
                    && newest_table(new_ws).columns@ == t.columns@
                    && sorted_result(row_views(t.rows@), row_views(newest_table(new_ws).rows@), idx,
                    descending_flag(args), arg_usize_spec(args, "limit"@)),
            },
        },
    })
}

/// Sorts by a column (numbers numerically, text alphabetically ignoring case),
/// ascending or descending, keeping ties in their order, optionally keeping the
/// first `limit` rows; the result is a new table.
pub fn sort_rows(ws: &mut Workspace, args: &Json) -> (r: Result<(Json, String), CoreError>)
    requires
        old(ws).wf(),
        old(ws).counter() < u32::MAX,
    ensures
        sort_rows_post(*old(ws), *final(ws), *args, r),
{
    let (table, label) = match source_of(ws, args) {
        Ok(x) => x,
        Err(e) => {
            return Err(e);
        },
    };
    let col = match arg_str(args, "column") {
        Some(c) => c,
        None => {
            return Err(CoreError::BadArg(lit("'column' is required")));
        },
    };
    let idx = match table.col_index(col) {
        Some(i) => i,
        None => {
            return Err(col_err(table, col));
        },
    };
    let descending = match args.get("descending") {
        Some(v) => match v.as_bool() {
            Some(b) => b,
            None => false,
        },
        None => false,
    };
    let limit = arg_usize(args, "limit");
    let (mut rows, Ghost(perm)) = sorted_rows(&table.rows, idx, descending);
    match limit {
        Some(l) => {
            rows.truncate(l);
        },
        None => {},
    }
    proof {
        let rv = row_views(table.rows@);
        assert(row_views(rows@) =~= Seq::new(kept_count(rv.len() as int, limit) as nat, |k: int| rv[perm[k]]));
    }
    let dir = if descending { lit("desc") } else { lit("asc") };
    let top = match limit {
        Some(l) => concat(", top ", u64_to_string(l as u64).as_str()),
        None => lit(""),
    };
    proof {
        reveal_strlit("");
    }
    let d1 = concat3("sort by ", col, " ");
    let d2 = concat3(d1.as_str(), dir.as_str(), top.as_str());
    let d3 = concat3(d2.as_str(), " on ", label.as_str());
    let out = Table { columns: dup_strings(&table.columns), rows };
    let ghost rv = row_views(table.rows@);
    let res = finish_result(ws, out, d3, "sort_rows", args);
    proof {
        assert(d3@ == sort_desc(col@, descending, limit, label@));
        assert(sorted_result(rv, row_views(newest_table(*ws).rows@), idx as int, descending, limit));
    }
    Ok(res)
}

// ------------------------------------------------------------------ compute_column

/// The value a name has in a row: the number in the first column whose
/// trimmed, lower-cased name matches.
pub open spec fn col_value(cols: Seq<String>, row: Seq<Cell>, name: Seq<char>) -> Option<(i128, u32)> {
    match col_index_from(cols, name, 0) {
        Some(i) => cell_at(row, i).number_spec(),
        None => None,
    }
}

/// Name resolution over a row.
pub open spec fn row_names(cols: Seq<String>, row: Seq<Cell>) -> spec_fn(Seq<char>) -> Option<(i128, u32)> {
    |n: Seq<char>| col_value(cols, row, n)
}

/// Name resolution where every column is 1 (to check an expression against
/// the schema alone).
pub open spec fn probe_names(cols: Seq<String>) -> spec_fn(Seq<char>) -> Option<(i128, u32)> {
    |n: Seq<char>| match col_index_from(cols, n, 0) {
        Some(_) => Some((1i128, 0u32)),
        None => None,
    }
}

/// The `round_dp` argument.
pub open spec fn round_arg(args: Json) -> Option<u32> {
    match args.get_spec("round_dp"@) {
        Some(Json::Number(n)) => match n.as_u64 {
            Some(v) => Some(v as u32),
            None => None,
        },
        _ => None,
    }
}

/// A value, rounded when asked to.
pub open spec fn rounded(v: (i128, u32), dp: Option<u32>) -> (i128, u32) {
    match dp {
        Some(d) => decimal_round_dp(v, d),
        None => v,
    }
}

/// The computed cell of a row: the expression's value (rounded when asked), or
/// empty when the row's inputs do not make a value.
pub open spec fn computed_ok(c: Cell, expr: Seq<char>, cols: Seq<String>, row: Seq<Cell>, dp: Option<u32>) -> bool {
    match eval_spec(expr, row_names(cols, row)) {
        Ok(v) => c matches Cell::Number(d) && d.pair() == rounded(v, dp)
            && (dp matches Some(k) ==> rounds_to_places(v, d.pair(), k)),
        Err(_) => c is Empty,
    }
}

/// How many rows give no value.
pub open spec fn blank_count(expr: Seq<char>, cols: Seq<String>, rows: Seq<Seq<Cell>>) -> nat
    decreases rows.len(),
{
    if rows.len() == 0 {
        0
    } else {
        blank_count(expr, cols, rows.drop_last()) + if eval_spec(expr, row_names(cols, rows.last())) is Err {
            1nat
        } else {
            0nat
        }
    }
}

/// Each output row is its source row's cells under the source columns (a
/// short row padded with empty cells), then the computed cell, which so stands
/// under the new column, then the cells the source row has past its last
/// column, kept as they were.
pub open spec fn computed_rows(out: Seq<Seq<Cell>>, src: Seq<Seq<Cell>>, expr: Seq<char>, cols: Seq<String>, dp: Option<u32>) -> bool {
    &&& out.len() == src.len()
    &&& forall|k: int| 0 <= k < src.len() ==> (#[trigger] out[k]).len() > cols.len()
        && out[k] == fit_row(src[k], cols.len()).push(out[k][cols.len() as int]) + extra_cells(src[k], cols.len())
        && computed_ok(out[k][cols.len() as int], expr, cols, src[k], dp)
}

/// The summary of a computed column.
pub open spec fn compute_desc(new_col: Seq<char>, expr: Seq<char>, label: Seq<char>, blanks: nat) -> Seq<char> {
    "computed "@ + new_col + " = "@ + expr + " on "@ + label + if blanks > 0 {
        " ("@ + nat_digits(blanks) + " rows blank: non-numeric inputs)"@
    } else {
        seq![]
    }
}

proof fn lemma_row_table(e: Seq<VarEntry>, cols: Seq<String>, row: Seq<Cell>, n: Seq<char>, i: int)
    requires
        0 <= i <= cols.len(),
        e.len() == cols.len(),
        forall|k: int| 0 <= k < cols.len() ==> (#[trigger] e[k]).name@ == cols[k]@
            && opt_pair(e[k].value) == cell_at(row, k).number_spec(),
    ensures
        lookup_from(e, true, n, i) == match col_index_from(cols, n, i) {
            Some(j) => cell_at(row, j).number_spec(),
            None => None,
        },
    decreases cols.len() - i,
{
    if i < cols.len() {
        let _ = e[i];
        lemma_row_table(e, cols, row, n, i + 1);
    }
}

proof fn lemma_probe_table(e: Seq<VarEntry>, cols: Seq<String>, n: Seq<char>, i: int)
    requires
        0 <= i <= cols.len(),
        e.len() == cols.len(),
        forall|k: int| 0 <= k < cols.len() ==> (#[trigger] e[k]).name@ == cols[k]@
            && opt_pair(e[k].value) == Some((1i128, 0u32)),
    ensures
        lookup_from(e, true, n, i) == match col_index_from(cols, n, i) {
            Some(_) => Some((1i128, 0u32)),
            None => None,
        },
    decreases cols.len() - i,
{
    if i < cols.len() {
        let _ = e[i];
        lemma_probe_table(e, cols, n, i + 1);
    }
}

/// The names of a row: each column with the number its cell holds.
fn row_table(cols: &Vec<String>, row: &Vec<Cell>) -> (t: NameTable)
    ensures
        table_fn(t) == row_names(cols@, row@),
{
    let mut entries: Vec<VarEntry> = Vec::new();
    let mut i: usize = 0;
    while i < cols.len()
        invariant
            i <= cols@.len(),
            entries@.len() == i,
            forall|k: int| 0 <= k < i ==> (#[trigger] entries@[k]).name@ == cols@[k]@
                && opt_pair(entries@[k].value) == cell_at(row@, k).number_spec(),
        decreases cols.len() - i,
    {
        let c = get_cell(row, i);
        entries.push(VarEntry { name: lit(cols[i].as_str()), value: c.as_number() });
        i = i + 1;
    }
    let t = NameTable { entries, folded: true };
    proof {
        assert forall|n: Seq<char>| #[trigger] table_fn(t)(n) == row_names(cols@, row@)(n) by {
            lemma_row_table(t.entries@, cols@, row@, n, 0);
        }
        assert(table_fn(t) =~= row_names(cols@, row@));
    }
    t
}

/// The names of a schema, each worth 1.
fn probe_table(cols: &Vec<String>) -> (t: NameTable)
    ensures
        table_fn(t) == probe_names(cols@),
{
    let mut entries: Vec<VarEntry> = Vec::new();
    let mut i: usize = 0;
    while i < cols.len()
        invariant
            i <= cols@.len(),
            entries@.len() == i,
            forall|k: int| 0 <= k < i ==> (#[trigger] entries@[k]).name@ == cols@[k]@
                && opt_pair(entries@[k].value) == Some((1i128, 0u32)),
        decreases cols.len() - i,
    {
        entries.push(VarEntry { name: lit(cols[i].as_str()), value: Some(Dec::one()) });
        i = i + 1;
    }
    let t = NameTable { entries, folded: true };
    proof {
        assert forall|n: Seq<char>| #[trigger] table_fn(t)(n) == probe_names(cols@)(n) by {
            lemma_probe_table(t.entries@, cols@, n, 0);
        }
        assert(table_fn(t) =~= probe_names(cols@));
    }
    t
}

/// What `compute_column` answers and stores.
pub open spec fn compute_column_post(old_ws: Workspace, new_ws: Workspace, args: Json, r: Result<(Json, String), CoreError>) -> bool {
    &&& (match source_spec(old_ws, args) {
        Err(es) => r matches Err(e) && e.spec() == es && new_ws == old_ws,
        Ok((t, l)) => match (arg_str_spec(args, "new_column"@), arg_str_spec(args, "expression"@)) {
            (None, _) => r matches Err(e) && e.spec() == ErrSpec::BadArg("'new_column' is required"@)
                && new_ws == old_ws,
            (Some(_), None) => r matches Err(e) && e.spec() == ErrSpec::BadArg("'expression' is required"@)
                && new_ws == old_ws,
            (Some(nc), Some(ex)) => if col_index_from(t.columns@, nc, 0) is Some {
                r matches Err(e) && e.spec() == ErrSpec::BadArg("column '"@ + nc
                    + "' already exists \u{2014} choose a new name"@) && new_ws == old_ws
            } else if blank_count(ex, t.columns@, row_views(t.rows@)) == t.rows@.len() && t.rows@.len() > 0
                && eval_spec(ex, probe_names(t.columns@)) is Err {
                r matches Err(e) && e.spec() == ErrSpec::Expr(expr_err_message(eval_spec(ex, probe_names(t.columns@))->Err_0))
                    && new_ws == old_ws
            } else {
                &&& r matches Ok(x) && finished(old_ws, new_ws, args, "compute_column"@,
                    compute_desc(nc, ex, l, blank_count(ex, t.columns@, row_views(t.rows@))), x)
                &&& newest_table(new_ws).columns@ == t.columns@.push(newest_table(new_ws).columns@.last())
                &&& newest_table(new_ws).columns@.last()@ == nc
                &&& computed_rows(row_views(newest_table(new_ws).rows@), row_views(t.rows@), ex, t.columns@, round_arg(args))
            },
        },
    })
}

/// Adds a column computed per row from an arithmetic expression over other
/// columns (exact decimals, optionally rounded). A row whose inputs are not
/// numbers gets an empty cell; when every row is empty the expression itself is
/// checked against the schema and its error is the answer.
#[verifier::loop_isolation(false)]
pub fn compute_column(ws: &mut Workspace, args: &Json) -> (r: Result<(Json, String), CoreError>)
    requires
        old(ws).wf(),
        old(ws).counter() < u32::MAX,
    ensures
        compute_column_post(*old(ws), *final(ws), *args, r),
{
    let (table, label) = match source_of(ws, args) {
        Ok(x) => x,
        Err(e) => {
            return Err(e);
        },
    };
    let new_col = match arg_str(args, "new_column") {
        Some(c) => c,
        None => {
            return Err(CoreError::BadArg(lit("'new_column' is required")));
        },
    };
    let expr = match arg_str(args, "expression") {
        Some(c) => c,
        None => {
            return Err(CoreError::BadArg(lit("'expression' is required")));
        },
    };
    let round_dp: Option<u32> = match args.get("round_dp") {
        Some(v) => match v.as_u64() {
            Some(n) => Some(n as u32),
            None => None,
        },
        None => None,
    };
    if table.col_index(new_col).is_some() {
        return Err(CoreError::BadArg(concat3("column '", new_col, "' already exists \u{2014} choose a new name")));
    }
    let mut columns = dup_strings(&table.columns);
    columns.push(lit(new_col));
    let ghost src = row_views(table.rows@);
    let mut rows: Vec<Vec<Cell>> = Vec::new();
    let mut blanks: usize = 0;
    let mut i: usize = 0;
    proof {
        assert(src.take(0) =~= seq![]);
    }
    while i < table.rows.len()
        invariant
            i <= table.rows@.len(),
            src == row_views(table.rows@),
            rows@.len() == i,
            blanks <= i,
            blanks == blank_count(expr@, table.columns@, src.take(i as int)),
            forall|k: int| 0 <= k < i ==> (#[trigger] rows@[k])@.len() > table.columns@.len()
                && rows@[k]@ == fit_row(src[k], table.columns@.len()).push(rows@[k]@[table.columns@.len() as int])
                    + extra_cells(src[k], table.columns@.len())
                && computed_ok(rows@[k]@[table.columns@.len() as int], expr@, table.columns@, src[k], round_dp),
        decreases table.rows.len() - i,
    {
        proof {
            assert(src.take(i + 1).drop_last() =~= src.take(i as int));
            assert(src.take(i + 1).last() == table.rows@[i as int]@);
        }
        let names = row_table(&table.columns, &table.rows[i]);
        let mut new_row = fitted_row(&table.rows[i], table.columns.len());
        let ghost before = new_row@;
        match eval_with(expr, &names) {
            Ok(v) => {
                let v2 = match round_dp {
                    Some(dp) => v.round_dp(dp),
                    None => v,
                };
                new_row.push(Cell::Number(v2));
            },
            Err(_) => {
                blanks = blanks + 1;
                new_row.push(Cell::Empty);
            },
        }
        let ghost computed = new_row@.last();
        proof {
            assert(new_row@ =~= before.push(computed));
        }
        push_extra_cells(&mut new_row, &table.rows[i], table.columns.len());
        proof {
            assert(new_row@[table.columns@.len() as int] == computed);
        }
        rows.push(new_row);
        i = i + 1;
    }
    proof {
        assert(src.take(src.len() as int) =~= src);
    }
    if blanks == table.rows.len() && table.rows.len() > 0 {
        let probe_names_t = probe_table(&table.columns);
        match eval_with(expr, &probe_names_t) {
            Err(e) => {
                return Err(e);
            },
            Ok(_) => {},
        }
    }
    let d1 = concat3("computed ", new_col, " = ");
    let d2 = concat3(d1.as_str(), expr, " on ");
    let d3 = concat(d2.as_str(), label.as_str());
    let tail = if blanks > 0 {
        let b = concat3(" (", u64_to_string(blanks as u64).as_str(), " rows blank: non-numeric inputs)");
        b
    } else {
        lit("")
    };
    proof {
        reveal_strlit("");
    }
    let desc = concat(d3.as_str(), tail.as_str());
    let out = Table { columns, rows };
    let res = finish_result(ws, out, desc, "compute_column", args);
    Ok(res)
}

// ------------------------------------------------------------------ aggregate

/// The `group_by` entries read against table `t`: column positions, or the
/// first bad entry's error.
pub open spec fn group_by_from(items: Seq<Json>, t: Table) -> Result<Seq<usize>, ErrSpec>
    decreases items.len(),
{
    if items.len() == 0 {
        Ok(seq![])
    } else {
        match group_by_from(items.drop_last(), t) {
            Err(e) => Err(e),
            Ok(v) => match items.last() {
                Json::Str(name) => match col_index_from(t.columns@, name@, 0) {
                    Some(i) => Ok(v.push(i as usize)),
                    None => Err(ErrSpec::ColumnNotFound(name@, join(texts(t.columns@), ", "@))),
                },
                _ => Err(ErrSpec::BadArg("group_by entries must be strings"@)),
            },
        }
    }
}

/// The `group_by` argument: an array of column names; absent (or not an
/// array) means no grouping.
pub open spec fn group_by_spec(t: Table, args: Json) -> Result<Seq<usize>, ErrSpec> {
    match args.get_spec("group_by"@) {
        Some(Json::Array(items)) => group_by_from(items@, t),
        _ => Ok(seq![]),
    }
}

/// One aggregation object read against table `t`.
pub open spec fn agg_of(a: Json, t: Table) -> Result<AggSpec, ErrSpec> {
    match a.get_spec("column"@) {
        Some(Json::Str(col)) => match a.get_spec("fn"@) {
            Some(Json::Str(f)) => if !known_fn(f@) {
                Err(ErrSpec::BadArg("unknown aggregation fn '"@ + f@ + "' (use sum, avg, min, max, count)"@))
            } else {
                match col_index_from(t.columns@, col@, 0) {
                    Some(i) => Ok(AggSpec { idx: i as usize, name: col@, f: f@ }),
                    None => Err(ErrSpec::ColumnNotFound(col@, join(texts(t.columns@), ", "@))),
                }
            },
            _ => Err(ErrSpec::BadArg("aggregation missing 'fn'"@)),
        },
        _ => Err(ErrSpec::BadArg("aggregation missing 'column'"@)),
    }
}

pub open spec fn aggs_from(items: Seq<Json>, t: Table) -> Result<Seq<AggSpec>, ErrSpec>
    decreases items.len(),
{
    if items.len() == 0 {
        Ok(seq![])
    } else {
        match aggs_from(items.drop_last(), t) {
            Err(e) => Err(e),
            Ok(v) => match agg_of(items.last(), t) {
                Err(e) => Err(e),
                Ok(a) => Ok(v.push(a)),
            },
        }
    }
}

/// The `aggregations` argument: a non-empty array of aggregations.
pub open spec fn aggs_spec(t: Table, args: Json) -> Result<Seq<AggSpec>, ErrSpec> {
    match args.get_spec("aggregations"@) {
        Some(Json::Array(items)) => if items@.len() == 0 {
            Err(ErrSpec::BadArg("'aggregations' is empty"@))
        } else {
            aggs_from(items@, t)
        },
        _ => Err(ErrSpec::BadArg("'aggregations' must be an array"@)),
    }
}

/// How an aggregation is named: `fn(column)`.
pub open spec fn agg_label(a: AggSpec) -> Seq<char> {
    a.f + "("@ + a.name + ")"@
}

/// The columns of an aggregate: the group-by columns, then one per aggregation.
pub open spec fn agg_columns(cols: Seq<String>, gb: Seq<usize>, aggs: Seq<AggSpec>) -> Seq<Seq<char>> {
    gb.map_values(|i: usize| cols[i as int]@) + aggs.map_values(|a: AggSpec| agg_label(a))
}

/// The summary of an aggregate.
pub open spec fn agg_desc(cols: Seq<String>, gb: Seq<usize>, aggs: Seq<AggSpec>, label: Seq<char>) -> Seq<char> {
    join(aggs.map_values(|a: AggSpec| agg_label(a)), ", "@) + " grouped by ["@
        + join(gb.map_values(|i: usize| cols[i as int]@), ", "@) + "] on "@ + label
}

proof fn lemma_gb_error_sticks(items: Seq<Json>, t: Table, n: int)
    requires
        0 < n <= items.len(),
        group_by_from(items.take(n), t) is Err,
    ensures
        group_by_from(items.take(items.len() as int), t) == group_by_from(items.take(n), t),
    decreases items.len() - n,
{
    if n < items.len() {
        assert(items.take(n + 1).drop_last() =~= items.take(n));
        lemma_gb_error_sticks(items, t, n + 1);
    }
}

proof fn lemma_aggs_error_sticks(items: Seq<Json>, t: Table, n: int)
    requires
        0 < n <= items.len(),
        aggs_from(items.take(n), t) is Err,
    ensures
        aggs_from(items.take(items.len() as int), t) == aggs_from(items.take(n), t),
    decreases items.len() - n,
{
    if n < items.len() {
        assert(items.take(n + 1).drop_last() =~= items.take(n));
        lemma_aggs_error_sticks(items, t, n + 1);
    }
}

#[verifier::loop_isolation(false)]
fn parse_group_by(table: &Table, args: &Json) -> (r: Result<Vec<usize>, CoreError>)
    ensures
        match group_by_spec(*table, *args) {
            Ok(v) => r matches Ok(x) && x@ == v && forall|j: int| 0 <= j < v.len() ==> #[trigger] v[j] < table.columns@.len(),
            Err(es) => r matches Err(e) && e.spec() == es,
        },
{
    let mut out: Vec<usize> = Vec::new();
    let items = match args.get("group_by") {
        Some(v) => match v.as_array() {
            Some(a) => a,
            None => {
                return Ok(out);
            },
        },
        None => {
            return Ok(out);
        },
    };
    let mut i: usize = 0;
    proof {
        assert(items@.take(0) =~= seq![]);
    }
    while i < items.len()
        invariant
            i <= items@.len(),
            group_by_from(items@.take(i as int), *table) == Ok::<Seq<usize>, ErrSpec>(out@),
            forall|j: int| 0 <= j < out@.len() ==> #[trigger] out@[j] < table.columns@.len(),
        decreases items.len() - i,
    {
        proof {
            assert(items@.take(i + 1).drop_last() =~= items@.take(i as int));
            assert(items@.take(i + 1).last() == items@[i as int]);
        }
        let name = match items[i].as_str() {
            Some(s) => s,
            None => {
                let e = CoreError::BadArg(lit("group_by entries must be strings"));
                proof {
                    assert(group_by_from(items@.take(i + 1), *table) == Err::<Seq<usize>, ErrSpec>(e.spec()));
                    lemma_gb_error_sticks(items@, *table, i + 1);
                    assert(items@.take(items@.len() as int) =~= items@);
                }
                return Err(e);
            },
        };
        match table.col_index(name.as_str()) {
            Some(c) => {
                proof {
                    crate::cells::lemma_col_index_from(table.columns@, name@, 0);
                }
                out.push(c);
            },
            None => {
                let e = col_err(table, name.as_str());
                proof {
                    assert(group_by_from(items@.take(i + 1), *table) == Err::<Seq<usize>, ErrSpec>(e.spec()));
                    lemma_gb_error_sticks(items@, *table, i + 1);
                    assert(items@.take(items@.len() as int) =~= items@);
                }
                return Err(e);
            },
        }
        i = i + 1;
    }
    proof {
        assert(items@.take(items@.len() as int) =~= items@);
    }
    Ok(out)
}

fn parse_agg(table: &Table, a: &Json) -> (r: Result<Agg, CoreError>)
    ensures
        match agg_of(*a, *table) {
            Ok(x) => r matches Ok(y) && y.view() == x && y.idx < table.columns@.len(),
            Err(es) => r matches Err(e) && e.spec() == es,
        },
{
    let col = match a.get("column") {
        Some(v) => match v.as_str() {
            Some(s) => s,
            None => {
                return Err(CoreError::BadArg(lit("aggregation missing 'column'")));
            },
        },
        None => {
            return Err(CoreError::BadArg(lit("aggregation missing 'column'")));
        },
    };
    let f = match a.get("fn") {
        Some(v) => match v.as_str() {
            Some(s) => s,
            None => {
                return Err(CoreError::BadArg(lit("aggregation missing 'fn'")));
            },
        },
        None => {
            return Err(CoreError::BadArg(lit("aggregation missing 'fn'")));
        },
    };
    let fs = f.as_str();
    let known = str_eq(fs, "sum") || str_eq(fs, "avg") || str_eq(fs, "min") || str_eq(fs, "max") || str_eq(fs, "count");
    if !known {
        return Err(CoreError::BadArg(concat3("unknown aggregation fn '", fs, "' (use sum, avg, min, max, count)")));
    }
    match table.col_index(col.as_str()) {
        Some(i) => {
            proof {
                crate::cells::lemma_col_index_from(table.columns@, col@, 0);
            }
            Ok(Agg { idx: i, name: lit(col.as_str()), f: lit(fs) })
        },
        None => Err(col_err(table, col.as_str())),
    }
}

#[verifier::loop_isolation(false)]
fn parse_aggs(table: &Table, args: &Json) -> (r: Result<Vec<Agg>, CoreError>)
    ensures
        match aggs_spec(*table, *args) {
            Ok(v) => r matches Ok(x) && aggs_view(x@) == v && forall|j: int| 0 <= j < v.len() ==> #[trigger] v[j].idx < table.columns@.len(),
            Err(es) => r matches Err(e) && e.spec() == es,
        },
{
    let items = match args.get("aggregations") {
        Some(v) => match v.as_array() {
            Some(a) => a,
            None => {
                return Err(CoreError::BadArg(lit("'aggregations' must be an array")));
            },
        },
        None => {
            return Err(CoreError::BadArg(lit("'aggregations' must be an array")));
        },
    };
    if items.len() == 0 {
        return Err(CoreError::BadArg(lit("'aggregations' is empty")));
    }
    let mut out: Vec<Agg> = Vec::new();
    let mut i: usize = 0;
    proof {
        assert(items@.take(0) =~= seq![]);
        assert(aggs_view(out@) =~= seq![]);
    }
    while i < items.len()
        invariant
            i <= items@.len(),
            aggs_from(items@.take(i as int), *table) == Ok::<Seq<AggSpec>, ErrSpec>(aggs_view(out@)),
            forall|j: int| 0 <= j < out@.len() ==> #[trigger] out@[j].idx < table.columns@.len(),
        decreases items.len() - i,
    {
        proof {
            assert(items@.take(i + 1).drop_last() =~= items@.take(i as int));
            assert(items@.take(i + 1).last() == items@[i as int]);
        }
        match parse_agg(table, &items[i]) {
            Ok(a) => {
                let ghost before = out@;
                out.push(a);
                proof {
                    assert(aggs_view(out@) =~= aggs_view(before).push(a.view()));
                }
            },
            Err(e) => {
                proof {
                    assert(aggs_from(items@.take(i + 1), *table) == Err::<Seq<AggSpec>, ErrSpec>(e.spec()));
                    lemma_aggs_error_sticks(items@, *table, i + 1);
                    assert(items@.take(items@.len() as int) =~= items@);
                }
                return Err(e);
            },
        }
        i = i + 1;
    }
    proof {
        assert(items@.take(items@.len() as int) =~= items@);
    }
    Ok(out)
}

/// The error answered when an aggregate overflows.
pub open spec fn overflow_error() -> ErrSpec {
    ErrSpec::Expr(expr_err_message(ExprErr::Overflow))
}

/// The aggregate rows of a table: one per group, in key order; the overflow
/// error when some aggregate overflows.
fn accumulate(table: &Table, gb: &Vec<usize>, aggs: &Vec<Agg>) -> (r: Result<Vec<Vec<Cell>>, CoreError>)
    ensures
        match r {
            Ok(rows) => agg_table_ok(row_views(rows@), row_views(table.rows@), gb@, aggs_view(aggs@))
                && !agg_overflow(row_views(table.rows@), gb@, aggs_view(aggs@)),
            Err(e) => e.spec() == overflow_error() && agg_overflow(row_views(table.rows@), gb@, aggs_view(aggs@)),
        },
{
    let ghost rv = row_views(table.rows@);
    let ghost av = aggs_view(aggs@);
    if gb.len() == 0 && table.rows.len() == 0 {
        let totals = empty_totals(aggs);
        let mut out: Vec<Vec<Cell>> = Vec::new();
        out.push(totals);
        proof {
            assert(row_views(out@)[0] == totals@);
            assert forall|a: int| 0 <= a < av.len() implies av[a].f == aggs@[a].f@ by {}
        }
        return Ok(out);
    }
    let mut groups: Vec<Group> = Vec::new();
    let mut i: usize = 0;
    while i < table.rows.len()
        invariant
            i <= table.rows@.len(),
            rv == row_views(table.rows@),
            av == aggs_view(aggs@),
            groups_ok(groups@, rv, i as int, gb@, av),
        decreases table.rows.len() - i,
    {
        if !add_row(&mut groups, &table.rows[i], gb, aggs, Ghost(rv), Ghost(i as int)) {
            proof {
                let a = choose|a: int| 0 <= a < aggs@.len() && aggs@[a].f@ != "count"@
                    && sum_of(#[trigger] group_cells(rv.take(i + 1), gb@, group_key(rv[i as int], gb@), aggs@[a].idx as int)) is None;
                lemma_sum_overflow_sticks(rv, gb@, group_key(rv[i as int], gb@), aggs@[a].idx as int, i + 1);
                assert(av[a].f == aggs@[a].f@ && av[a].idx == aggs@[a].idx);
                assert(agg_value(av[a].f, group_cells(rv, gb@, group_key(rv[i as int], gb@), av[a].idx as int)) is None);
            }
            return Err(CoreError::Expr(lit("arithmetic overflow")));
        }
        i = i + 1;
    }
    match finish_groups(&groups, aggs, Ghost(rv), Ghost(gb@)) {
        Some(r) => Ok(r),
        None => Err(CoreError::Expr(lit("arithmetic overflow"))),
    }
}

/// The columns of an aggregate, the aggregation labels and the group-by names.
fn agg_names(table: &Table, gb: &Vec<usize>, aggs: &Vec<Agg>) -> (r: (Vec<String>, Vec<String>, Vec<String>))
    requires
        forall|q: int| 0 <= q < gb@.len() ==> #[trigger] gb@[q] < table.columns@.len(),
    ensures
        texts(r.0@) == agg_columns(table.columns@, gb@, aggs_view(aggs@)),
        texts(r.1@) == aggs_view(aggs@).map_values(|a: AggSpec| agg_label(a)),
        texts(r.2@) == gb@.map_values(|i: usize| table.columns@[i as int]@),
{
    let mut columns: Vec<String> = Vec::new();
    let mut gnames: Vec<String> = Vec::new();
    let mut j: usize = 0;
    while j < gb.len()
        invariant
            j <= gb@.len(),
            columns@.len() == j,
            gnames@.len() == j,
            forall|q: int| 0 <= q < gb@.len() ==> #[trigger] gb@[q] < table.columns@.len(),
            forall|q: int| 0 <= q < j ==> (#[trigger] columns@[q])@ == table.columns@[gb@[q] as int]@,
            forall|q: int| 0 <= q < j ==> (#[trigger] gnames@[q])@ == table.columns@[gb@[q] as int]@,
        decreases gb.len() - j,
    {
        columns.push(table.columns[gb[j]].clone());
        gnames.push(table.columns[gb[j]].clone());
        j = j + 1;
    }
    let mut labels: Vec<String> = Vec::new();
    let mut k: usize = 0;
    while k < aggs.len()
        invariant
            k <= aggs@.len(),
            labels@.len() == k,
            columns@.len() == gb@.len() + k,
            gnames@.len() == gb@.len(),
            forall|q: int| 0 <= q < gb@.len() ==> #[trigger] gb@[q] < table.columns@.len(),
            forall|q: int| 0 <= q < gb@.len() ==> (#[trigger] columns@[q])@ == table.columns@[gb@[q] as int]@,
            forall|q: int| 0 <= q < gb@.len() ==> (#[trigger] gnames@[q])@ == table.columns@[gb@[q] as int]@,
            forall|q: int| 0 <= q < k ==> (#[trigger] labels@[q])@ == agg_label(aggs@[q].view()),
            forall|q: int| gb@.len() <= q < gb@.len() + k ==> (#[trigger] columns@[q])@ == agg_label(aggs@[q - gb@.len()].view()),
        decreases aggs.len() - k,
    {
        let a1 = concat3(aggs[k].f.as_str(), "(", aggs[k].name.as_str());
        let a2 = concat(a1.as_str(), ")");
        proof {
            assert(a2@ == agg_label(aggs@[k as int].view()));
        }
        columns.push(lit(a2.as_str()));
        labels.push(a2);
        k = k + 1;
    }
    proof {
        let av = aggs_view(aggs@);
        assert(texts(columns@) =~= agg_columns(table.columns@, gb@, av));
        assert(texts(labels@) =~= av.map_values(|a: AggSpec| agg_label(a)));
        assert(texts(gnames@) =~= gb@.map_values(|i: usize| table.columns@[i as int]@));
    }
    (columns, labels, gnames)
}


/// What `aggregate` answers and stores.
pub open spec fn aggregate_post(old_ws: Workspace, new_ws: Workspace, args: Json, r: Result<(Json, String), CoreError>) -> bool {
    &&& (match source_spec(old_ws, args) {
        Err(es) => r matches Err(e) && e.spec() == es && new_ws == old_ws,
        Ok((t, l)) => match group_by_spec(t, args) {
            Err(es) => r matches Err(e) && e.spec() == es && new_ws == old_ws,
            Ok(gb) => match aggs_spec(t, args) {
                Err(es) => r matches Err(e) && e.spec() == es && new_ws == old_ws,
                Ok(ags) => if agg_overflow(row_views(t.rows@), gb, ags) {
                    r matches Err(e) && e.spec() == overflow_error() && new_ws == old_ws
                } else {
                    r matches Ok(x) && finished(old_ws, new_ws, args, "aggregate"@, agg_desc(t.columns@, gb, ags, l), x)
                        && texts(newest_table(new_ws).columns@) == agg_columns(t.columns@, gb, ags)
                        && agg_table_ok(row_views(newest_table(new_ws).rows@), row_views(t.rows@), gb, ags)
                },
            },
        },
    })
}

/// Groups rows and computes sum/avg/min/max/count per group with exact
/// decimals; an empty `group_by` gives totals over all rows. Groups come out in
/// key order, one row each. The result is a new table.
pub fn aggregate(ws: &mut Workspace, args: &Json) -> (r: Result<(Json, String), CoreError>)
    requires
        old(ws).wf(),
        old(ws).counter() < u32::MAX,
    ensures
        aggregate_post(*old(ws), *final(ws), *args, r),
{
    let (table, label) = match source_of(ws, args) {
        Ok(x) => x,
        Err(e) => {
            return Err(e);
        },
    };
    let gb = match parse_group_by(table, args) {
        Ok(v) => v,
        Err(e) => {
            return Err(e);
        },
    };
    let aggs = match parse_aggs(table, args) {
        Ok(v) => v,
        Err(e) => {
            return Err(e);
        },
    };
    let rows = match accumulate(table, &gb, &aggs) {
        Ok(r) => r,
        Err(e) => {
            return Err(e);
        },
    };
    let (columns, labels, gnames) = agg_names(table, &gb, &aggs);
    let d1 = join_strings(&labels, ", ");
    let d2 = join_strings(&gnames, ", ");
    let d3 = concat3(d1.as_str(), " grouped by [", d2.as_str());
    let d4 = concat3(d3.as_str(), "] on ", label.as_str());
    let out = Table { columns, rows };
    let res = finish_result(ws, out, d4, "aggregate", args);
    Ok(res)
}

// ------------------------------------------------------------------ export

/// `std::path::Path::file_stem` of a path, as text (`None` when the path has
/// no file name).
pub uninterp spec fn path_file_stem(p: Seq<char>) -> Option<Seq<char>>;

/// The text of `std::path::Path::join(dir, name)`.
pub uninterp spec fn path_join_text(dir: Seq<char>, name: Seq<char>) -> Seq<char>;

/// Calls `Path::new(p).file_stem()` and reads the stem as text. Its contract
/// names the result (`path_file_stem`) and claims nothing more of it.
#[verifier::external_body]
fn file_stem(p: &str) -> (r: Option<String>)
    ensures
        opt_string(r) == path_file_stem(p@),
{
    match std::path::Path::new(p).file_stem() {
        Some(s) => match s.to_str() {
            Some(t) => Some(t.to_string()),
            None => None,
        },
        None => None,
    }
}

/// Calls `Path::new(dir).join(name)` and writes the path as text. Its contract
/// names the result (`path_join_text`) and claims nothing more of it.
#[verifier::external_body]
fn path_join(dir: &str, name: &str) -> (r: String)
    ensures
        r@ == path_join_text(dir@, name@),
{
    std::path::Path::new(dir).join(name).display().to_string()
}

/// A file name made safe: letters, digits, '-', '_' and ' ' stay, anything else
/// becomes '_'.
pub open spec fn sanitize(s: Seq<char>) -> Seq<char> {
    s.map_values(|c: char| if crate::text::char_is_alphanumeric(c) || c == '-' || c == '_' || c == ' ' { c } else { '_' })
}

/// The base name an export is saved under: the sanitized stem of `filename`
/// ("export" when it has none).
pub open spec fn export_base_spec(args: Json) -> Result<Seq<char>, ErrSpec> {
    match arg_str_spec(args, "filename"@) {
        None => Err(ErrSpec::BadArg("'filename' is required"@)),
        Some(f) => Ok(sanitize(match path_file_stem(f) {
            Some(s) => s,
            None => "export"@,
        })),
    }
}

/// The base name of an export, from the `filename` argument: its stem, with
/// path parts dropped and unsafe characters replaced.
pub fn export_base(args: &Json) -> (r: Result<String, CoreError>)
    ensures
        match export_base_spec(*args) {
            Ok(b) => r matches Ok(x) && x@ == b,
            Err(es) => r matches Err(e) && e.spec() == es,
        },
{
    let filename = match arg_str(args, "filename") {
        Some(f) => f,
        None => {
            return Err(CoreError::BadArg(lit("'filename' is required")));
        },
    };
    let stem = match file_stem(filename) {
        Some(s) => s,
        None => lit("export"),
    };
    let cs = chars_of(stem.as_str());
    let mut out: Vec<char> = Vec::new();
    let mut i: usize = 0;
    while i < cs.len()
        invariant
            i <= cs@.len(),
            out@ == sanitize(cs@.take(i as int)),
        decreases cs.len() - i,
    {
        let c = cs[i];
        let keep = crate::text::is_alphanumeric(c) || c == '-' || c == '_' || c == ' ';
        out.push(if keep { c } else { '_' });
        i = i + 1;
        proof {
            assert(out@ =~= sanitize(cs@.take(i as int)));
        }
    }
    proof {
        assert(cs@.take(cs@.len() as int) =~= cs@);
    }
    Ok(string_of(out.as_slice()))
}

/// The file name of the `n`-th candidate for an export: `base.xlsx`, then
/// `base (1).xlsx`, `base (2).xlsx`, ...
pub open spec fn candidate_name(base: Seq<char>, n: nat) -> Seq<char> {
    if n == 0 {
        base + ".xlsx"@
    } else {
        base + " ("@ + nat_digits(n) + ").xlsx"@
    }
}

/// The `n`-th path an export may be saved under, in the export directory.
/// Exports never overwrite: the caller takes the first that does not exist.
pub fn export_candidate(dir: &str, base: &str, n: u64) -> (r: String)
    ensures
        r@ == path_join_text(dir@, candidate_name(base@, n as nat)),
{
    let name = if n == 0 {
        concat(base, ".xlsx")
    } else {
        let a = concat3(base, " (", u64_to_string(n).as_str());
        concat(a.as_str(), ").xlsx")
    };
    path_join(dir, name.as_str())
}

/// The next move in the search for a free export name, once the `n`-th
/// candidate has been checked.
pub enum ExportProbe {
    /// It is taken: check the next candidate, number `n + 1`, at this path.
    Next(u64, String),
    /// It is free: write the export at this path.
    Use(String),
}

/// Decides the search for a free export name: a taken candidate leads to the
/// next one, a free one is used. Together with `export_candidate(dir, base, 0)`
/// for the first check, this never picks a path that was found taken.
pub fn export_probe(dir: &str, base: &str, n: u64, taken: bool) -> (r: ExportProbe)
    requires
        n < u64::MAX,
    ensures
        taken ==> (r matches ExportProbe::Next(m, p) && m == n + 1
            && p@ == path_join_text(dir@, candidate_name(base@, (n + 1) as nat))),
        !taken ==> (r matches ExportProbe::Use(p) && p@ == path_join_text(dir@, candidate_name(base@, n as nat))),
{
    if taken {
        ExportProbe::Next(n + 1, export_candidate(dir, base, n + 1))
    } else {
        ExportProbe::Use(export_candidate(dir, base, n))
    }
}

/// Whether some loaded file lives at `p` (the same path as `std::path::Path`
/// compares them).
pub open spec fn is_source(ws: Workspace, p: Seq<char>) -> bool {
    exists|i: int| 0 <= i < ws.files_spec().len() && crate::workspace::paths_equal((#[trigger] ws.files_spec()[i]).1.path@, p)
}

/// What an export to `path` writes: the source of `args`, unless `path` is a
/// loaded file.
pub open spec fn export_target_spec(ws: Workspace, args: Json, path: Seq<char>) -> Result<(Table, Seq<char>), ErrSpec> {
    if is_source(ws, path) {
        Err(ErrSpec::OverwriteRefused(path))
    } else {
        source_spec(ws, args)
    }
}

/// Checks an export against the workspace before anything is written: refuses
/// a path that is a loaded (source) file, else gives the table to write (the
/// source of `args`) and its label.
pub fn export_xlsx<'a>(ws: &'a Workspace, args: &Json, path: &str) -> (r: Result<(&'a Table, String), CoreError>)
    requires
        ws.wf(),
    ensures
        crate::workspace::source_outcome(r, export_target_spec(*ws, *args, path@)),
{
    if ws.is_source_path(path) {
        return Err(CoreError::OverwriteRefused(lit(path)));
    }
    source_of(ws, args)
}

/// What a finished export answers.
pub open spec fn is_export_json(j: Json, path: Seq<char>, rows: int) -> bool {
    &&& j.get_spec("saved_to"@) matches Some(x) && json_is_str(x, path)
    &&& j.get_spec("rows_written"@) matches Some(x) && json_is_u64(x, rows)
}

/// The answer to a finished export: where it was saved and how many rows.
pub fn export_done(label: &str, rows: usize, path: &str) -> (r: (Json, String))
    ensures
        is_export_json(r.0, path@, rows as int),
        r.1@ == "exported "@ + label@ + " ("@ + nat_digits(rows as nat) + " rows) -> "@ + path@,
{
    proof {
        reveal_strlit("saved_to");
        reveal_strlit("rows_written");
        assert("saved_to"@[0] != "rows_written"@[0]);
    }
    let mut obj: Vec<(String, Json)> = Vec::new();
    obj_insert(&mut obj, lit("saved_to"), Json::Str(lit(path)));
    obj_insert(&mut obj, lit("rows_written"), Json::from_u64(rows as u64));
    let a = concat3("exported ", label, " (");
    let b = concat3(a.as_str(), u64_to_string(rows as u64).as_str(), " rows) -> ");
    (Json::Object(obj), concat(b.as_str(), path))
}

} // verus!

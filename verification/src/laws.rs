//! Properties of the engine as a whole: what every tool call keeps, what the
//! export refuses, and what the table operations promise of their results.

use vstd::prelude::*;
use crate::cells::{Cell, cell_at};
use crate::json::Json;
use crate::tools::{dispatch_post, Dispatch, recorded};
use crate::cells::{CoreError, err_message};
use crate::workspace::json_is_str;
use crate::audit::lemma_journal_numbered;
use crate::tools::excel::{export_target_spec, is_source, candidate_name, filter_spec, keep_row, CondSpec, sorted_result,
    is_sorted_perm, kept_count};
use crate::tools::groups::{first_row_of, agg_table_ok, agg_row_ok, agg_cell_ok, agg_value, group_cells, group_key, out_key, key_lt,
    lemma_key_lt_irreflexive, AggSpec};
use crate::workspace::{Workspace, join};
use crate::ingest::{csv_from, csv_fields};
use crate::smap::find_key;
use vstd::set_lib::{set_int_range, lemma_int_range, lemma_map_size_bound};
use crate::text::{nat_digits, lemma_nat_digits_injective};

verus! {

/// No tool call changes the loaded (source) files: whatever a tool does, it
/// does to derived results only.
pub proof fn lemma_tools_keep_sources(name: Seq<char>, old_ws: Workspace, new_ws: Workspace, args: Json, r: Dispatch)
    requires
        dispatch_post(name, old_ws, new_ws, args, r),
    ensures
        new_ws.files_spec() == old_ws.files_spec(),
        new_ws.export_dir_spec() == old_ws.export_dir_spec(),
{
}

/// An export never goes to the path of a loaded file.
pub proof fn lemma_export_never_overwrites(ws: Workspace, args: Json, path: Seq<char>)
    requires
        export_target_spec(ws, args, path) is Ok,
    ensures
        !is_source(ws, path),
{
}

/// A filter keeps only source rows, each passing every condition, in their
/// order and never more than there were.
pub proof fn lemma_filter_keeps_matching_rows(rows: Seq<Seq<Cell>>, conds: Seq<CondSpec>)
    requires
        filter_spec(rows, conds) is Ok,
    ensures
        filter_spec(rows, conds)->Ok_0.len() <= rows.len(),
        forall|k: int| 0 <= k < filter_spec(rows, conds)->Ok_0.len() ==> keep_row(
            #[trigger] filter_spec(rows, conds)->Ok_0[k],
            conds,
        ) == Ok::<bool, crate::cells::ErrSpec>(true) && rows.contains(filter_spec(rows, conds)->Ok_0[k]),
    decreases rows.len(),
{
    if rows.len() > 0 {
        lemma_filter_keeps_matching_rows(rows.drop_last(), conds);
        let kept = filter_spec(rows.drop_last(), conds)->Ok_0;
        assert forall|k: int| 0 <= k < kept.len() implies rows.contains(kept[k]) by {
            let i = choose|i: int| 0 <= i < rows.drop_last().len() && rows.drop_last()[i] == kept[k];
            assert(rows[i] == kept[k]);
        }
        assert(rows[rows.len() - 1] == rows.last());
    }
}

/// Without a limit, a sort keeps every row exactly once: the result has the
/// source's length and each of its rows is a source row.
pub proof fn lemma_sort_keeps_rows(rows: Seq<Seq<Cell>>, out: Seq<Seq<Cell>>, idx: int, desc: bool)
    requires
        sorted_result(rows, out, idx, desc, None),
    ensures
        out.len() == rows.len(),
        forall|k: int| 0 <= k < out.len() ==> rows.contains(#[trigger] out[k]),
{
    let perm = choose|perm: Seq<int>| #[trigger] is_sorted_perm(rows, perm, idx, desc)
        && out == Seq::new(kept_count(rows.len() as int, None) as nat, |k: int| rows[perm[k]]);
    assert forall|k: int| 0 <= k < out.len() implies rows.contains(#[trigger] out[k]) by {
        assert(0 <= perm[k] < rows.len());
        assert(rows[perm[k]] == out[k]);
    }
}

proof fn lemma_all_cells(rows: Seq<Seq<Cell>>, idx: int)
    ensures
        group_cells(rows, seq![], seq![], idx) == rows.map_values(|r: Seq<Cell>| cell_at(r, idx)),
    decreases rows.len(),
{
    if rows.len() > 0 {
        lemma_all_cells(rows.drop_last(), idx);
        assert(group_key(rows.last(), seq![]) =~= seq![]);
        assert(rows.map_values(|r: Seq<Cell>| cell_at(r, idx)) =~= rows.drop_last().map_values(|r: Seq<Cell>| cell_at(r, idx)).push(
            cell_at(rows.last(), idx),
        ));
    } else {
        assert(rows.map_values(|r: Seq<Cell>| cell_at(r, idx)) =~= seq![]);
    }
}

/// Without grouping, an aggregate is one row of totals over all rows (also
/// when there are none).
pub proof fn lemma_totals_without_grouping(out: Seq<Seq<Cell>>, rows: Seq<Seq<Cell>>, aggs: Seq<AggSpec>)
    requires
        agg_table_ok(out, rows, seq![], aggs),
    ensures
        out.len() == 1,
        forall|a: int| 0 <= a < aggs.len() ==> agg_cell_ok(#[trigger] out[0][a],
            agg_value(aggs[a].f, rows.map_values(|r: Seq<Cell>| cell_at(r, aggs[a].idx as int)))->0),
{
    if rows.len() == 0 {
        assert forall|a: int| 0 <= a < aggs.len() implies agg_cell_ok(#[trigger] out[0][a],
            agg_value(aggs[a].f, rows.map_values(|r: Seq<Cell>| cell_at(r, aggs[a].idx as int)))->0) by {
            assert(rows.map_values(|r: Seq<Cell>| cell_at(r, aggs[a].idx as int)) =~= seq![]);
        }
        return;
    }
    let empty: Seq<Seq<char>> = seq![];
    assert(group_key(rows[0], seq![]) =~= empty);
    let k0 = choose|k: int| 0 <= k < out.len() && out_key(out[k], 0) == group_key(#[trigger] rows[0], seq![]);
    if out.len() > 1 {
        assert(out_key(out[0], 0) =~= empty);
        assert(out_key(out[1], 0) =~= empty);
        lemma_key_lt_irreflexive(empty);
        assert(key_lt(out_key(out[0], 0), out_key(out[1], 0)));
    }
    assert(agg_row_ok(out[0], rows, seq![], aggs));
    assert(out_key(out[0], 0) =~= empty);
    assert forall|a: int| 0 <= a < aggs.len() implies agg_cell_ok(#[trigger] out[0][a],
        agg_value(aggs[a].f, rows.map_values(|r: Seq<Cell>| cell_at(r, aggs[a].idx as int)))->0) by {
        lemma_all_cells(rows, aggs[a].idx as int);
        assert(out[0][0 + a] == out[0][a]);
    }
}

/// Exporting under a name that is taken never reuses a file name: the
/// candidates `base.xlsx`, `base (1).xlsx`, `base (2).xlsx`, ... all differ.
pub proof fn lemma_export_candidates_differ(base: Seq<char>, m: nat, n: nat)
    requires
        m != n,
    ensures
        candidate_name(base, m) != candidate_name(base, n),
{
    reveal_strlit(" (");
    reveal_strlit(").xlsx");
    reveal_strlit(".xlsx");
    if m > 0 && n > 0 {
        let cm = candidate_name(base, m);
        let cn = candidate_name(base, n);
        if cm == cn {
            let b = base.len() as int;
            assert(cm == base + " ("@ + nat_digits(m) + ").xlsx"@);
            assert(cn == base + " ("@ + nat_digits(n) + ").xlsx"@);
            assert(cm.len() == b + 2 + nat_digits(m).len() + 6);
            assert(cn.len() == b + 2 + nat_digits(n).len() + 6);
            assert(cm.subrange(b + 2, b + 2 + nat_digits(m).len()) =~= nat_digits(m));
            assert(cn.subrange(b + 2, b + 2 + nat_digits(n).len()) =~= nat_digits(n));
            lemma_nat_digits_injective(m, n);
        }
    } else if m > 0 || n > 0 {
        crate::text::lemma_nat_digits_nonempty(if m > 0 { m } else { n });
        assert(candidate_name(base, m).len() != candidate_name(base, n).len());
    }
}

/// A tool call never replaces or changes an earlier result: every result that
/// was stored before the call is still there afterwards, unchanged.
pub proof fn lemma_tools_keep_results(name: Seq<char>, old_ws: Workspace, new_ws: Workspace, args: Json, r: Dispatch, k: Seq<char>)
    requires
        dispatch_post(name, old_ws, new_ws, args, r),
        find_key(old_ws.results_spec(), k) is Some,
    ensures
        find_key(new_ws.results_spec(), k) is Some,
        new_ws.results_spec()[find_key(new_ws.results_spec(), k)->0]
            == old_ws.results_spec()[find_key(old_ws.results_spec(), k)->0],
{
}

/// Every tool call, whether it succeeds or fails, adds exactly one entry to the
/// journal: numbered next, for that tool with its exact arguments, marked with
/// how it went and with the summary answered; the entries before it stay as
/// they were. A failure is answered `{"error": message}` and summarised
/// `FAILED: message`.
pub proof fn lemma_every_call_journaled(old_ws: Workspace, new_ws: Workspace, name: Seq<char>, args: Json,
    o: Result<(Json, String), CoreError>, r: (Json, String, bool))
    requires
        recorded(old_ws, new_ws, name, args, o, r),
    ensures
        new_ws.audit_spec().entries_spec().len() == old_ws.audit_spec().entries_spec().len() + 1,
        new_ws.audit_spec().entries_spec().take(old_ws.audit_spec().entries_spec().len() as int)
            == old_ws.audit_spec().entries_spec(),
        new_ws.audit_spec().entries_spec().last().seq == old_ws.audit_spec().entries_spec().len() + 1,
        new_ws.audit_spec().entries_spec().last().tool@ == name,
        new_ws.audit_spec().entries_spec().last().args == args,
        new_ws.audit_spec().entries_spec().last().ok == (o is Ok),
        new_ws.audit_spec().entries_spec().last().summary@ == r.1@,
        r.2 == (o is Ok),
        match o {
            Ok((p, s)) => r.0 == p && r.1@ == s@,
            Err(e) => {
                &&& r.1@ == "FAILED: "@ + err_message(e.spec())
                &&& r.0 matches Json::Object(entries) && entries@.len() == 1 && entries@[0].0@ == "error"@
                    && json_is_str(entries@[0].1, err_message(e.spec()))
            },
        },
{
    let e = new_ws.audit_spec().entries_spec();
    new_ws.lemma_wf_journal();
    lemma_journal_numbered(new_ws.audit_spec());
    assert(e.take(e.len() - 1) =~= e.drop_last());
    assert(e.last() == e[e.len() - 1]);
}

/// Aggregating a table that has rows, or by some column, never gives more rows
/// than it reads: every output row is a group, and each group has a source row
/// of its own (its first).
pub proof fn lemma_groups_at_most_rows(out: Seq<Seq<Cell>>, rows: Seq<Seq<Cell>>, gb: Seq<usize>, aggs: Seq<AggSpec>)
    requires
        agg_table_ok(out, rows, gb, aggs),
        gb.len() > 0 || rows.len() > 0,
    ensures
        out.len() <= rows.len(),
{
    let m = gb.len() as int;
    let h = |e: int| choose|k: int| 0 <= k < out.len() && out_key(out[k], m) == group_key(rows[e], gb);
    let x = set_int_range(0, rows.len() as int);
    let y = set_int_range(0, out.len() as int);
    lemma_int_range(0, rows.len() as int);
    lemma_int_range(0, out.len() as int);
    assert forall|k: int| #[trigger] y.contains(k) implies x.map(h).contains(k) by {
        assert(agg_row_ok(out[k], rows, gb, aggs));
        let f = choose|f: int| #[trigger] first_row_of(rows, gb, f, out_key(out[k], m))
            && out[k].take(m) == Seq::new(gb.len(), |j: int| cell_at(rows[f], gb[j] as int));
        assert(exists|k2: int| 0 <= k2 < out.len() && out_key(out[k2], m) == group_key(#[trigger] rows[f], gb));
        let k2 = h(f);
        assert(0 <= k2 < out.len() && out_key(out[k2], m) == group_key(rows[f], gb));
        if k2 != k {
            lemma_key_lt_irreflexive(out_key(out[k], m));
            if k2 < k {
                assert(key_lt(out_key(out[k2], m), out_key(out[k], m)));
            } else {
                assert(key_lt(out_key(out[k], m), out_key(out[k2], m)));
            }
        }
        assert(x.contains(f) && h(f) == k);
    }
    assert forall|k: int| #[trigger] x.map(h).contains(k) implies y.contains(k) by {
        let e = choose|e: int| x.contains(e) && h(e) == k;
        assert(exists|k2: int| 0 <= k2 < out.len() && out_key(out[k2], m) == group_key(#[trigger] rows[e], gb));
    }
    assert(x.map(h) =~= y);
    lemma_map_size_bound(x, y, h);
}

/// How many times `d` occurs in `s`.
pub open spec fn count_char(s: Seq<char>, d: char) -> nat
    decreases s.len(),
{
    if s.len() == 0 {
        0
    } else {
        (if s[0] == d { 1nat } else { 0nat }) + count_char(s.drop_first(), d)
    }
}

/// The fields read so far, with the open field last, joined with `d`.
pub open spec fn joined_so_far(out: Seq<Seq<char>>, field: Seq<char>, d: char) -> Seq<char> {
    join(out.push(field), seq![d])
}

proof fn lemma_unquoted_from(c: Seq<char>, d: char, i: int, out: Seq<Seq<char>>, field: Seq<char>)
    requires
        0 <= i <= c.len(),
        forall|j: int| 0 <= j < c.len() ==> c[j] != '"',
        forall|k: int| 0 <= k < out.len() ==> !(#[trigger] out[k]).contains(d),
        !field.contains(d),
    ensures
        csv_from(c, d, i, out, field, false).len() == out.len() + 1 + count_char(c.skip(i), d),
        join(csv_from(c, d, i, out, field, false), seq![d]) == joined_so_far(out, field, d) + c.skip(i),
        forall|k: int| 0 <= k < csv_from(c, d, i, out, field, false).len()
            ==> !(#[trigger] csv_from(c, d, i, out, field, false)[k]).contains(d),
    decreases c.len() - i,
{
    let r = csv_from(c, d, i, out, field, false);
    if i >= c.len() {
        assert(c.skip(i) =~= seq![]);
        assert(out.push(field).drop_last() =~= out);
        assert forall|k: int| 0 <= k < r.len() implies !(#[trigger] r[k]).contains(d) by {
            if k < out.len() {
                assert(r[k] == out[k]);
            }
        }
        assert(joined_so_far(out, field, d) + c.skip(i) =~= joined_so_far(out, field, d));
    } else {
        let ch = c[i];
        assert(c.skip(i).drop_first() =~= c.skip(i + 1));
        assert(c.skip(i)[0] == ch);
        if ch == d {
            let o2 = out.push(field);
            assert forall|k: int| 0 <= k < o2.len() implies !(#[trigger] o2[k]).contains(d) by {
                if k < out.len() {
                    assert(o2[k] == out[k]);
                }
            }
            let e: Seq<char> = seq![];
            assert(!e.contains(d));
            lemma_unquoted_from(c, d, i + 1, o2, e);
            assert(o2.push(e).drop_last() =~= o2);
            assert(joined_so_far(o2, e, d) == join(o2, seq![d]) + seq![d] + e);
            assert(joined_so_far(o2, e, d) + c.skip(i + 1) =~= joined_so_far(out, field, d) + c.skip(i));
        } else {
            let f2 = field.push(ch);
            assert(!f2.contains(d)) by {
                if f2.contains(d) {
                    let j = choose|j: int| 0 <= j < f2.len() && f2[j] == d;
                    if j < field.len() {
                        assert(field[j] == d);
                    }
                }
            }
            lemma_unquoted_from(c, d, i + 1, out, f2);
            assert(out.push(f2).drop_last() =~= out);
            assert(out.push(field).drop_last() =~= out);
            if out.len() == 0 {
                assert(joined_so_far(out, f2, d) == f2);
                assert(joined_so_far(out, field, d) == field);
            } else {
                assert(joined_so_far(out, f2, d) == join(out, seq![d]) + seq![d] + f2);
                assert(joined_so_far(out, field, d) == join(out, seq![d]) + seq![d] + field);
            }
            assert(joined_so_far(out, f2, d) + c.skip(i + 1) =~= joined_so_far(out, field, d) + c.skip(i));
        }
    }
}

/// A CSV line without quotes splits exactly at the delimiter (as
/// `str::split` does): one field more than there are delimiters, no field
/// holds the delimiter, and the fields joined with it give back the line.
pub proof fn lemma_unquoted_line_splits_at_delimiter(line: Seq<char>, d: char)
    requires
        forall|j: int| 0 <= j < line.len() ==> line[j] != '"',
    ensures
        csv_fields(line, d).len() == 1 + count_char(line, d),
        forall|k: int| 0 <= k < csv_fields(line, d).len() ==> !(#[trigger] csv_fields(line, d)[k]).contains(d),
        join(csv_fields(line, d), seq![d]) == line,
{
    let e: Seq<char> = seq![];
    let o: Seq<Seq<char>> = seq![];
    lemma_unquoted_from(line, d, 0, o, e);
    assert(line.skip(0) =~= line);
    assert(o.push(e).drop_last() =~= o);
    assert(joined_so_far(o, e, d) == e);
    assert(e + line =~= line);
}

} // verus!

//! What the table and expression operations do to values, stated directly in
//! terms of the numbers involved: counting, comparing, ordering, subtracting.

use vstd::prelude::*;
use crate::cells::{Cell, cell_at};
use crate::dec::pow10;
use crate::tools::excel::{computed_rows, row_names, num_op, cell_less, row_less, sorted_result, is_sorted_perm, kept_count};
use crate::tools::groups::agg_value;
use crate::dec::{rounds_to_places, decimal_checked_sub, sum_is_exact, exact_sum_mantissa, pair_has_value};
use crate::mathexpr::{SpecTok, ExprErr, p_expr, eval_spec, lex};

verus! {

/// The value of a decimal pair compared with another's, by cross
/// multiplication: `a < b` as numbers.
pub open spec fn value_below(a: (i128, u32), b: (i128, u32)) -> bool {
    a.0 * pow10(b.1 as nat) < b.0 * pow10(a.1 as nat)
}

/// `a == b` as numbers (their scales may differ).
pub open spec fn value_equal(a: (i128, u32), b: (i128, u32)) -> bool {
    a.0 * pow10(b.1 as nat) == b.0 * pow10(a.1 as nat)
}

/// `count` counts the cells that are not empty: the result is the number of
/// non-empty cells, so an empty cell never changes a count and any other cell
/// adds one.
pub proof fn lemma_count_counts_nonempty(cells: Seq<Cell>)
    ensures
        agg_value("count"@, cells) == Some(Some((cells.filter(|c: Cell| !c.empty_spec()).len() as i128, 0u32))),
        forall|c: Cell| c.empty_spec() ==> #[trigger] agg_value("count"@, cells.push(c)) == agg_value("count"@, cells),
    decreases cells.len(),
{
    lemma_count_filter(cells);
    assert forall|c: Cell| c.empty_spec() implies #[trigger] agg_value("count"@, cells.push(c)) == agg_value("count"@, cells) by {
        lemma_count_filter(cells.push(c));
        assert(cells.push(c).drop_last() =~= cells);
        reveal(Seq::filter);
    }
}

proof fn lemma_count_filter(cells: Seq<Cell>)
    ensures
        crate::tools::groups::count_nonempty(cells) == cells.filter(|c: Cell| !c.empty_spec()).len(),
    decreases cells.len(),
{
    reveal(Seq::filter);
    if cells.len() > 0 {
        lemma_count_filter(cells.drop_last());
    }
}

/// On two numbers the filter's comparisons compare values: `eq` and `ne` by
/// equality of value (whatever the scales), `gt`, `gte`, `lt` and `lte` by
/// order; equal values satisfy `gte` and `lte` and neither `gt` nor `lt`.
pub proof fn lemma_numeric_comparisons(l: (i128, u32), r: (i128, u32))
    ensures
        num_op("eq"@, l, r) == Some(l.0 * pow10(r.1 as nat) == r.0 * pow10(l.1 as nat)),
        num_op("ne"@, l, r) == Some(l.0 * pow10(r.1 as nat) != r.0 * pow10(l.1 as nat)),
        num_op("gt"@, l, r) == Some(l.0 * pow10(r.1 as nat) > r.0 * pow10(l.1 as nat)),
        num_op("gte"@, l, r) == Some(l.0 * pow10(r.1 as nat) >= r.0 * pow10(l.1 as nat)),
        num_op("lt"@, l, r) == Some(l.0 * pow10(r.1 as nat) < r.0 * pow10(l.1 as nat)),
        num_op("lte"@, l, r) == Some(l.0 * pow10(r.1 as nat) <= r.0 * pow10(l.1 as nat)),
{
    reveal_strlit("eq");
    reveal_strlit("ne");
    reveal_strlit("gt");
    reveal_strlit("gte");
    reveal_strlit("lt");
    reveal_strlit("lte");
    assert("eq"@[0] != "ne"@[0]);
    assert("eq"@[0] != "gt"@[0]);
    assert("eq"@[0] != "gte"@[0]);
    assert("eq"@[0] != "lt"@[0]);
    assert("eq"@[0] != "lte"@[0]);
    assert("ne"@[0] != "gt"@[0]);
    assert("ne"@[0] != "gte"@[0]);
    assert("ne"@[0] != "lt"@[0]);
    assert("ne"@[0] != "lte"@[0]);
    assert("gt"@.len() != "gte"@.len());
    assert("gt"@[0] != "lt"@[0]);
    assert("gt"@[0] != "lte"@[0]);
    assert("gte"@[0] != "lt"@[0]);
    assert("gte"@[0] != "lte"@[0]);
    assert("lt"@.len() != "lte"@.len());
}

/// When both cells are numbers, the sort compares their values: one goes
/// before the other exactly when its value is smaller (negative numbers
/// included).
pub proof fn lemma_numbers_sort_by_value(x: Cell, y: Cell)
    requires
        x.number_spec() is Some,
        y.number_spec() is Some,
    ensures
        cell_less(x, y) == value_below(x.number_spec()->0, y.number_spec()->0),
{
}

/// An ascending sort of a column of numbers puts them in order of value:
/// each kept row's value is at most the next one's. A descending sort puts
/// each at least the next.
pub proof fn lemma_sorted_numbers_are_ordered(rows: Seq<Seq<Cell>>, out: Seq<Seq<Cell>>, idx: int, desc: bool, limit: Option<usize>, k: int)
    requires
        sorted_result(rows, out, idx, desc, limit),
        forall|i: int| 0 <= i < rows.len() ==> (#[trigger] cell_at(rows[i], idx)).number_spec() is Some,
        0 <= k < out.len() - 1,
    ensures
        cell_at(out[k], idx).number_spec() is Some,
        cell_at(out[k + 1], idx).number_spec() is Some,
        !desc ==> !value_below(cell_at(out[k + 1], idx).number_spec()->0, cell_at(out[k], idx).number_spec()->0),
        desc ==> !value_below(cell_at(out[k], idx).number_spec()->0, cell_at(out[k + 1], idx).number_spec()->0),
{
    let perm = choose|perm: Seq<int>| #[trigger] is_sorted_perm(rows, perm, idx, desc)
        && out == Seq::new(kept_count(rows.len() as int, limit) as nat, |j: int| rows[perm[j]]);
    assert(kept_count(rows.len() as int, limit) <= rows.len());
    assert(out[k] == rows[perm[k]]);
    assert(out[k + 1] == rows[perm[k + 1]]);
    assert(0 <= perm[k] < rows.len());
    assert(0 <= perm[k + 1] < rows.len());
    assert(cell_at(rows[perm[k]], idx).number_spec() is Some);
    assert(cell_at(rows[perm[k + 1]], idx).number_spec() is Some);
    assert(!row_less(rows[perm[k + 1]], rows[perm[k]], idx, desc));
    reveal(row_less);
}

/// A binary minus subtracts the right operand from the left: the tokens
/// `a - b` evaluate to rust_decimal's `a.checked_sub(b)` (overflow when it has
/// none), whatever the names resolve to.
pub proof fn lemma_minus_subtracts_right_from_left(a: (i128, u32), b: (i128, u32), vars: spec_fn(Seq<char>) -> Option<(i128, u32)>)
    ensures
        p_expr(seq![SpecTok::Num(a), SpecTok::Minus, SpecTok::Num(b)], vars, 0) == match decimal_checked_sub(a, b) {
            Some(v) => Ok::<((i128, u32), int), ExprErr>((v, 3int)),
            None => Err(ExprErr::Overflow),
        },
{
    let t = seq![SpecTok::Num(a), SpecTok::Minus, SpecTok::Num(b)];
    reveal_with_fuel(p_expr, 2);
    assert(t.len() == 3);
}

/// An expression that reads `a - b` has the exact value `a - b` (never
/// `b - a`) whenever that difference fits, given what rust_decimal's
/// subtraction promises (`sum_is_exact`, as `Dec::checked_sub` states it).
pub proof fn lemma_difference_is_exact(src: Seq<char>, vars: spec_fn(Seq<char>) -> Option<(i128, u32)>, a: (i128, u32), b: (i128, u32))
    requires
        lex(src) == Ok::<Seq<SpecTok>, ExprErr>(seq![SpecTok::Num(a), SpecTok::Minus, SpecTok::Num(b)]),
        sum_is_exact(a, b, true, decimal_checked_sub(a, b)),
        -crate::dec::MAX_MANTISSA <= exact_sum_mantissa(a, b, true) <= crate::dec::MAX_MANTISSA,
    ensures
        eval_spec(src, vars) matches Ok(v) && pair_has_value(v, exact_sum_mantissa(a, b, true),
            (if a.1 >= b.1 { a.1 } else { b.1 }) as nat),
{
    lemma_minus_subtracts_right_from_left(a, b, vars);
}

/// A column computed with `round_dp = k` holds, on every row whose expression
/// has a value, a number with at most `k` decimal places that lies within half
/// a unit of the `k`-th place of the exact value (the value itself when it has
/// no more than `k` places).
pub proof fn lemma_computed_values_are_rounded(out: Seq<Seq<Cell>>, src: Seq<Seq<Cell>>, expr: Seq<char>, cols: Seq<String>, k: u32, i: int)
    requires
        computed_rows(out, src, expr, cols, Some(k)),
        0 <= i < src.len(),
        eval_spec(expr, row_names(cols, src[i])) is Ok,
    ensures
        out[i][cols.len() as int] matches Cell::Number(d) && d.pair().1 <= k
            && rounds_to_places(eval_spec(expr, row_names(cols, src[i]))->Ok_0, d.pair(), k),
{
    assert(out[i].len() > cols.len());
}

} // verus!

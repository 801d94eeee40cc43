//! Grouping for `aggregate`: group keys and their order, and what each
//! aggregation function makes of a group's cells.

use vstd::prelude::*;
use crate::cells::{Cell, cell_at, get_cell};
use crate::dec::Dec;
use crate::mathexpr::opt_pair;
use crate::dec::{pair_lt, decimal_checked_add, decimal_checked_div};
use crate::text::{seq_lt, compare_chars, chars_of, lemma_seq_lt_asym, lemma_seq_lt_total,
    lemma_seq_lt_trans};

verus! {

// ------------------------------------------------------------------ keys

/// The order of group keys: lexicographic over the key texts, each compared as
/// strings (the order of `Vec<String>`).
pub open spec fn key_lt(a: Seq<Seq<char>>, b: Seq<Seq<char>>) -> bool
    decreases a.len(),
{
    if a.len() == 0 {
        b.len() > 0
    } else if b.len() == 0 {
        false
    } else if a[0] != b[0] {
        seq_lt(a[0], b[0])
    } else {
        key_lt(a.drop_first(), b.drop_first())
    }
}

pub proof fn lemma_key_lt_irreflexive(a: Seq<Seq<char>>)
    ensures
        !key_lt(a, a),
    decreases a.len(),
{
    if a.len() > 0 {
        lemma_key_lt_irreflexive(a.drop_first());
    }
}

pub proof fn lemma_key_lt_asym(a: Seq<Seq<char>>, b: Seq<Seq<char>>)
    ensures
        !(key_lt(a, b) && key_lt(b, a)),
    decreases a.len(),
{
    if a.len() > 0 && b.len() > 0 {
        if a[0] == b[0] {
            lemma_key_lt_asym(a.drop_first(), b.drop_first());
        } else {
            lemma_seq_lt_asym(a[0], b[0]);
        }
    }
}

pub proof fn lemma_key_lt_total(a: Seq<Seq<char>>, b: Seq<Seq<char>>)
    ensures
        key_lt(a, b) || key_lt(b, a) || a == b,
    decreases a.len(),
{
    if a.len() > 0 && b.len() > 0 {
        if a[0] == b[0] {
            lemma_key_lt_total(a.drop_first(), b.drop_first());
            if a.drop_first() == b.drop_first() {
                assert(a =~= seq![a[0]] + a.drop_first());
                assert(b =~= seq![b[0]] + b.drop_first());
            }
        } else {
            lemma_seq_lt_total(a[0], b[0]);
        }
    } else if a.len() == 0 && b.len() == 0 {
        assert(a =~= b);
    }
}

pub proof fn lemma_key_lt_trans(a: Seq<Seq<char>>, b: Seq<Seq<char>>, c: Seq<Seq<char>>)
    requires
        key_lt(a, b),
        key_lt(b, c),
    ensures
        key_lt(a, c),
    decreases a.len(),
{
    if a.len() > 0 && b.len() > 0 && c.len() > 0 {
        if a[0] == b[0] && b[0] == c[0] {
            lemma_key_lt_trans(a.drop_first(), b.drop_first(), c.drop_first());
        } else if a[0] == b[0] {
        } else if b[0] == c[0] {
        } else {
            lemma_seq_lt_trans(a[0], b[0], c[0]);
            if a[0] == c[0] {
                lemma_seq_lt_asym(a[0], b[0]);
            }
        }
    }
}

/// Three-way comparison of keys: -1, 0, 1.
pub fn compare_keys(a: &Vec<String>, b: &Vec<String>) -> (r: i8)
    ensures
        r == -1 <==> key_lt(key_view(a@), key_view(b@)),
        r == 1 <==> key_lt(key_view(b@), key_view(a@)),
        r == 0 <==> key_view(a@) == key_view(b@),
{
    let ghost ka = key_view(a@);
    let ghost kb = key_view(b@);
    let mut i: usize = 0;
    proof {
        assert(ka.skip(0) =~= ka);
        assert(kb.skip(0) =~= kb);
        assert(ka.take(0) =~= kb.take(0));
    }
    while i < a.len() && i < b.len()
        invariant
            i <= a@.len(),
            i <= b@.len(),
            ka == key_view(a@),
            kb == key_view(b@),
            ka.take(i as int) == kb.take(i as int),
            key_lt(ka, kb) == key_lt(ka.skip(i as int), kb.skip(i as int)),
            key_lt(kb, ka) == key_lt(kb.skip(i as int), ka.skip(i as int)),
        decreases a.len() - i,
    {
        let c = compare_chars(&chars_of(a[i].as_str()), &chars_of(b[i].as_str()));
        proof {
            assert(ka.skip(i as int)[0] == a@[i as int]@);
            assert(kb.skip(i as int)[0] == b@[i as int]@);
            assert(ka.skip(i as int).drop_first() =~= ka.skip(i + 1));
            assert(kb.skip(i as int).drop_first() =~= kb.skip(i + 1));
        }
        if c != 0 {
            proof {
                lemma_seq_lt_asym(a@[i as int]@, b@[i as int]@);
                if c == -1 {
                    assert(ka.skip(i as int)[0] != kb.skip(i as int)[0]);
                    assert(ka != kb) by {
                        assert(ka[i as int] != kb[i as int]);
                    }
                } else {
                    assert(ka[i as int] != kb[i as int]);
                }
            }
            return c;
        }
        proof {
            assert(ka.take(i + 1) =~= ka.take(i as int).push(ka[i as int]));
            assert(kb.take(i + 1) =~= kb.take(i as int).push(kb[i as int]));
        }
        i = i + 1;
    }
    if a.len() == b.len() {
        proof {
            assert(ka =~= ka.take(i as int));
            assert(kb =~= kb.take(i as int));
            lemma_key_lt_irreflexive(ka);
        }
        0
    } else if a.len() < b.len() {
        proof {
            assert(ka.skip(i as int).len() == 0);
            assert(ka.len() != kb.len());
        }
        -1
    } else {
        proof {
            assert(kb.skip(i as int).len() == 0);
            assert(ka.len() != kb.len());
        }
        1
    }
}

/// The texts of a key held as strings.
pub open spec fn key_view(k: Seq<String>) -> Seq<Seq<char>> {
    k.map_values(|s: String| s@)
}

/// The key of a row: the display texts of its group-by cells.
pub open spec fn group_key(row: Seq<Cell>, gb: Seq<usize>) -> Seq<Seq<char>> {
    Seq::new(gb.len(), |j: int| cell_at(row, gb[j] as int).display_spec())
}

/// The cells of column `idx` in the rows whose key is `key`, in row order.
pub open spec fn group_cells(rows: Seq<Seq<Cell>>, gb: Seq<usize>, key: Seq<Seq<char>>, idx: int) -> Seq<Cell>
    decreases rows.len(),
{
    if rows.len() == 0 {
        seq![]
    } else {
        let rest = group_cells(rows.drop_last(), gb, key, idx);
        if group_key(rows.last(), gb) == key {
            rest.push(cell_at(rows.last(), idx))
        } else {
            rest
        }
    }
}

// ------------------------------------------------------------------ folds

/// The exact sum of the numbers among `cells`, from zero; `None` on overflow.
pub open spec fn sum_of(cells: Seq<Cell>) -> Option<(i128, u32)>
    decreases cells.len(),
{
    if cells.len() == 0 {
        Some((0i128, 0u32))
    } else {
        match sum_of(cells.drop_last()) {
            None => None,
            Some(s) => match cells.last().number_spec() {
                Some(n) => decimal_checked_add(s, n),
                None => Some(s),
            },
        }
    }
}

/// How many of `cells` are numbers.
pub open spec fn count_numbers(cells: Seq<Cell>) -> nat
    decreases cells.len(),
{
    if cells.len() == 0 {
        0
    } else {
        count_numbers(cells.drop_last()) + if cells.last().number_spec() is Some { 1nat } else { 0nat }
    }
}

/// How many of `cells` are not empty.
pub open spec fn count_nonempty(cells: Seq<Cell>) -> nat
    decreases cells.len(),
{
    if cells.len() == 0 {
        0
    } else {
        count_nonempty(cells.drop_last()) + if cells.last().empty_spec() { 0nat } else { 1nat }
    }
}

/// The smallest number among `cells` (of equal values, the first).
pub open spec fn min_of(cells: Seq<Cell>) -> Option<(i128, u32)>
    decreases cells.len(),
{
    if cells.len() == 0 {
        None
    } else {
        let m = min_of(cells.drop_last());
        match cells.last().number_spec() {
            None => m,
            Some(n) => match m {
                None => Some(n),
                Some(x) => if pair_lt(n, x) { Some(n) } else { Some(x) },
            },
        }
    }
}

/// The largest number among `cells` (of equal values, the last).
pub open spec fn max_of(cells: Seq<Cell>) -> Option<(i128, u32)>
    decreases cells.len(),
{
    if cells.len() == 0 {
        None
    } else {
        let m = max_of(cells.drop_last());
        match cells.last().number_spec() {
            None => m,
            Some(n) => match m {
                None => Some(n),
                Some(x) => if pair_lt(n, x) { Some(x) } else { Some(n) },
            },
        }
    }
}

/// Whether `f` is one of the aggregation functions.
pub open spec fn known_fn(f: Seq<char>) -> bool {
    f == "sum"@ || f == "avg"@ || f == "min"@ || f == "max"@ || f == "count"@
}

/// What aggregation `f` makes of a group's cells: `Some(v)` with `v` the cell's
/// number (`None`: an empty cell), or `None` when the arithmetic overflows.
/// `count` counts non-empty cells; the others work on the numbers among them,
/// and their running sum is what can overflow.
pub open spec fn agg_value(f: Seq<char>, cells: Seq<Cell>) -> Option<Option<(i128, u32)>> {
    if f == "count"@ {
        Some(Some((count_nonempty(cells) as i128, 0u32)))
    } else {
        match sum_of(cells) {
            None => None,
            Some(s) => if f == "sum"@ {
                Some(Some(s))
            } else if f == "avg"@ {
                if count_numbers(cells) == 0 {
                    Some(None)
                } else {
                    match decimal_checked_div(s, (count_numbers(cells) as i128, 0u32)) {
                        None => None,
                        Some(q) => Some(Some(q)),
                    }
                }
            } else if f == "min"@ {
                Some(min_of(cells))
            } else {
                Some(max_of(cells))
            },
        }
    }
}

/// Once the sum of a group has overflowed, it stays overflowed.
pub proof fn lemma_sum_overflow_sticks(rows: Seq<Seq<Cell>>, gb: Seq<usize>, key: Seq<Seq<char>>, idx: int, n: int)
    requires
        0 <= n <= rows.len(),
        sum_of(group_cells(rows.take(n), gb, key, idx)) is None,
    ensures
        sum_of(group_cells(rows, gb, key, idx)) is None,
    decreases rows.len() - n,
{
    if n < rows.len() {
        let t = rows.take(n + 1);
        assert(t.drop_last() =~= rows.take(n));
        if group_key(t.last(), gb) == key {
            assert(group_cells(t, gb, key, idx) == group_cells(rows.take(n), gb, key, idx).push(cell_at(t.last(), idx)));
            assert(group_cells(t, gb, key, idx).drop_last() =~= group_cells(rows.take(n), gb, key, idx));
        } else {
            assert(group_cells(t, gb, key, idx) == group_cells(rows.take(n), gb, key, idx));
        }
        assert(sum_of(group_cells(t, gb, key, idx)) is None);
        lemma_sum_overflow_sticks(rows, gb, key, idx, n + 1);
    } else {
        assert(rows.take(n) =~= rows);
    }
}

/// The cells of a group among rows none of which has its key: none.
pub proof fn lemma_group_cells_absent(rows: Seq<Seq<Cell>>, gb: Seq<usize>, key: Seq<Seq<char>>, idx: int)
    requires
        forall|e: int| 0 <= e < rows.len() ==> group_key(#[trigger] rows[e], gb) != key,
    ensures
        group_cells(rows, gb, key, idx) == Seq::<Cell>::empty(),
    decreases rows.len(),
{
    if rows.len() > 0 {
        lemma_group_cells_absent(rows.drop_last(), gb, key, idx);
        assert(group_key(rows[rows.len() - 1], gb) != key);
    }
}

pub proof fn lemma_group_cells_len(rows: Seq<Seq<Cell>>, gb: Seq<usize>, key: Seq<Seq<char>>, idx: int)
    ensures
        group_cells(rows, gb, key, idx).len() <= rows.len(),
    decreases rows.len(),
{
    if rows.len() > 0 {
        lemma_group_cells_len(rows.drop_last(), gb, key, idx);
    }
}

pub proof fn lemma_counts_bounded(cells: Seq<Cell>)
    ensures
        count_numbers(cells) <= cells.len(),
        count_nonempty(cells) <= cells.len(),
    decreases cells.len(),
{
    if cells.len() > 0 {
        lemma_counts_bounded(cells.drop_last());
    }
}

// ------------------------------------------------------------------ accumulation

/// An aggregation as a mathematical value: the column, the name it was asked
/// by, and the function.
pub struct AggSpec {
    pub idx: usize,
    pub name: Seq<char>,
    pub f: Seq<char>,
}

/// A parsed aggregation.
pub struct Agg {
    pub idx: usize,
    pub name: String,
    pub f: String,
}

impl Agg {
    pub open spec fn view(&self) -> AggSpec {
        AggSpec { idx: self.idx, name: self.name@, f: self.f@ }
    }
}

/// A running aggregate: sum, count, least and greatest number.
pub struct Acc {
    pub sum: Dec,
    pub count: usize,
    pub min: Option<Dec>,
    pub max: Option<Dec>,
}

/// `acc` is what aggregation `f` has gathered from `cells` (at most `n` of them).
pub open spec fn acc_ok(acc: Acc, f: Seq<char>, cells: Seq<Cell>, n: int) -> bool {
    &&& acc.count <= n
    &&& if f == "count"@ {
        acc.count == count_nonempty(cells)
    } else {
        &&& sum_of(cells) == Some(acc.sum.pair())
        &&& acc.count == count_numbers(cells)
        &&& opt_pair(acc.min) == min_of(cells)
        &&& opt_pair(acc.max) == max_of(cells)
    }
}

/// A group being built: its key, the group-by cells of its first row (`first`),
/// and one running aggregate per aggregation.
pub struct Group {
    pub key: Vec<String>,
    pub cells: Vec<Cell>,
    pub accs: Vec<Acc>,
    pub first: Ghost<int>,
}

/// `g` is the group of its key among the first `n` rows.
pub open spec fn group_ok(g: Group, rows: Seq<Seq<Cell>>, n: int, gb: Seq<usize>, aggs: Seq<AggSpec>) -> bool {
    let k = key_view(g.key@);
    &&& 0 <= g.first@ < n <= rows.len()
    &&& group_key(rows[g.first@], gb) == k
    &&& forall|e: int| 0 <= e < g.first@ ==> group_key(#[trigger] rows[e], gb) != k
    &&& g.cells@ == Seq::new(gb.len(), |j: int| cell_at(rows[g.first@], gb[j] as int))
    &&& g.accs@.len() == aggs.len()
    &&& forall|a: int| 0 <= a < aggs.len() ==> acc_ok(#[trigger] g.accs@[a], aggs[a].f, group_cells(rows.take(n), gb, k, aggs[a].idx as int), n)
}

/// The groups of the first `n` rows, in key order, one per key that occurs.
pub open spec fn groups_ok(gs: Seq<Group>, rows: Seq<Seq<Cell>>, n: int, gb: Seq<usize>, aggs: Seq<AggSpec>) -> bool {
    &&& forall|a: int, b: int| 0 <= a < b < gs.len() ==> key_lt(key_view(#[trigger] gs[a].key@), key_view(#[trigger] gs[b].key@))
    &&& forall|g: int| 0 <= g < gs.len() ==> group_ok(#[trigger] gs[g], rows, n, gb, aggs)
    &&& forall|e: int| 0 <= e < n ==> exists|g: int| 0 <= g < gs.len() && key_view(gs[g].key@) == group_key(#[trigger] rows[e], gb)
}

/// One more cell for a running aggregate; `None` when the sum overflows.
pub fn step_acc(acc: &Acc, f: &str, cell: &Cell, Ghost(cells): Ghost<Seq<Cell>>, Ghost(n): Ghost<int>) -> (r: Option<Acc>)
    requires
        acc_ok(*acc, f@, cells, n),
        cells.len() <= n,
        n < usize::MAX,
    ensures
        match r {
            Some(a) => acc_ok(a, f@, cells.push(*cell), n + 1),
            None => f@ != "count"@ && sum_of(cells.push(*cell)) is None,
        },
{
    let ghost c2 = cells.push(*cell);
    proof {
        assert(c2.drop_last() =~= cells);
        lemma_counts_bounded(cells);
    }
    if crate::text::str_eq(f, "count") {
        let count = if cell.is_empty() { acc.count } else { acc.count + 1 };
        return Some(Acc { sum: acc.sum, count, min: acc.min, max: acc.max });
    }
    match cell.as_number() {
        None => Some(Acc { sum: acc.sum, count: acc.count, min: acc.min, max: acc.max }),
        Some(v) => {
            let sum = match acc.sum.checked_add(&v) {
                Some(s) => s,
                None => {
                    return None;
                },
            };
            let min = match acc.min {
                None => Some(v),
                Some(m) => if v.compare(&m) == -1 { Some(v) } else { Some(m) },
            };
            let max = match acc.max {
                None => Some(v),
                Some(m) => if v.compare(&m) == -1 { Some(m) } else { Some(v) },
            };
            Some(Acc { sum, count: acc.count + 1, min, max })
        },
    }
}

/// A running aggregate that has seen nothing.
pub open spec fn is_empty_acc(a: Acc) -> bool {
    a.sum.pair() == (0i128, 0u32) && a.count == 0 && a.min is None && a.max is None
}

/// The running aggregate before any cell.
pub fn empty_acc() -> (r: Acc)
    ensures
        is_empty_acc(r),
{
    Acc { sum: Dec::zero(), count: 0, min: None, max: None }
}

/// The aggregations as mathematical values.
pub open spec fn aggs_view(aggs: Seq<Agg>) -> Seq<AggSpec> {
    aggs.map_values(|a: Agg| a.view())
}

/// The group cells after one more row.
pub proof fn lemma_group_cells_step(rows: Seq<Seq<Cell>>, gb: Seq<usize>, key: Seq<Seq<char>>, idx: int, i: int)
    requires
        0 <= i < rows.len(),
    ensures
        group_cells(rows.take(i + 1), gb, key, idx) == if group_key(rows[i], gb) == key {
            group_cells(rows.take(i), gb, key, idx).push(cell_at(rows[i], idx))
        } else {
            group_cells(rows.take(i), gb, key, idx)
        },
{
    assert(rows.take(i + 1).drop_last() =~= rows.take(i));
    assert(rows.take(i + 1).last() == rows[i]);
}

/// The key of a row, as strings.
pub fn row_key(row: &Vec<Cell>, gb: &Vec<usize>) -> (r: Vec<String>)
    ensures
        key_view(r@) == group_key(row@, gb@),
{
    let mut out: Vec<String> = Vec::new();
    let mut j: usize = 0;
    while j < gb.len()
        invariant
            j <= gb@.len(),
            out@.len() == j,
            forall|q: int| 0 <= q < j ==> (#[trigger] out@[q])@ == cell_at(row@, gb@[q] as int).display_spec(),
        decreases gb.len() - j,
    {
        out.push(get_cell(row, gb[j]).as_display());
        j = j + 1;
    }
    proof {
        assert(key_view(out@) =~= group_key(row@, gb@));
    }
    out
}

/// The group-by cells of a row.
pub fn key_cells(row: &Vec<Cell>, gb: &Vec<usize>) -> (r: Vec<Cell>)
    ensures
        r@ == Seq::new(gb@.len(), |j: int| cell_at(row@, gb@[j] as int)),
{
    let mut out: Vec<Cell> = Vec::new();
    let mut j: usize = 0;
    while j < gb.len()
        invariant
            j <= gb@.len(),
            out@.len() == j,
            forall|q: int| 0 <= q < j ==> #[trigger] out@[q] == cell_at(row@, gb@[q] as int),
        decreases gb.len() - j,
    {
        out.push(get_cell(row, gb[j]));
        j = j + 1;
    }
    proof {
        assert(out@ =~= Seq::new(gb@.len(), |j: int| cell_at(row@, gb@[j] as int)));
    }
    out
}

/// One more row for all running aggregates of a group; `None` when a sum
/// overflows.
pub fn step_accs(accs: &Vec<Acc>, aggs: &Vec<Agg>, row: &Vec<Cell>, Ghost(cells): Ghost<Seq<Seq<Cell>>>, Ghost(n): Ghost<int>) -> (r: Option<Vec<Acc>>)
    requires
        accs@.len() == aggs@.len(),
        cells.len() == aggs@.len(),
        n < usize::MAX,
        forall|a: int| 0 <= a < aggs@.len() ==> (#[trigger] cells[a]).len() <= n
            && acc_ok(accs@[a], aggs@[a].f@, cells[a], n),
    ensures
        match r {
            Some(v) => v@.len() == aggs@.len() && forall|a: int| 0 <= a < aggs@.len()
                ==> acc_ok(#[trigger] v@[a], aggs@[a].f@, cells[a].push(cell_at(row@, aggs@[a].idx as int)), n + 1),
            None => exists|a: int| 0 <= a < aggs@.len() && aggs@[a].f@ != "count"@
                && sum_of(#[trigger] cells[a].push(cell_at(row@, aggs@[a].idx as int))) is None,
        },
{
    let mut out: Vec<Acc> = Vec::new();
    let mut a: usize = 0;
    while a < aggs.len()
        invariant
            a <= aggs@.len(),
            accs@.len() == aggs@.len(),
            cells.len() == aggs@.len(),
            n < usize::MAX,
            forall|b: int| 0 <= b < aggs@.len() ==> (#[trigger] cells[b]).len() <= n
                && acc_ok(accs@[b], aggs@[b].f@, cells[b], n),
            out@.len() == a,
            forall|b: int| 0 <= b < a ==> acc_ok(#[trigger] out@[b], aggs@[b].f@, cells[b].push(cell_at(row@, aggs@[b].idx as int)), n + 1),
        decreases aggs.len() - a,
    {
        let cell = get_cell(row, aggs[a].idx);
        let ghost ca = cells[a as int];
        match step_acc(&accs[a], aggs[a].f.as_str(), &cell, Ghost(ca), Ghost(n)) {
            Some(x) => {
                out.push(x);
            },
            None => {
                proof {
                    assert(sum_of(cells[a as int].push(cell_at(row@, aggs@[a as int].idx as int))) is None);
                }
                return None;
            },
        }
        a = a + 1;
    }
    Some(out)
}

/// Running aggregates before any cell, one per aggregation.
pub fn empty_accs(n: usize) -> (r: Vec<Acc>)
    ensures
        r@.len() == n,
        forall|a: int| 0 <= a < n ==> is_empty_acc(#[trigger] r@[a]),
{
    let mut out: Vec<Acc> = Vec::new();
    let mut a: usize = 0;
    while a < n
        invariant
            a <= n,
            out@.len() == a,
            forall|b: int| 0 <= b < a ==> is_empty_acc(#[trigger] out@[b]),
        decreases n - a,
    {
        out.push(empty_acc());
        a = a + 1;
    }
    out
}

/// A key that is not among the groups occurs in none of the rows seen so far.
proof fn lemma_key_absent(gs: Seq<Group>, q: int, rows: Seq<Seq<Cell>>, i: int, gb: Seq<usize>, av: Seq<AggSpec>, k: Seq<Seq<char>>)
    requires
        groups_ok(gs, rows, i, gb, av),
        0 <= q <= gs.len(),
        forall|p: int| 0 <= p < q ==> key_lt(key_view(#[trigger] gs[p].key@), k),
        q < gs.len() ==> key_lt(k, key_view(gs[q].key@)),
    ensures
        forall|p: int| 0 <= p < gs.len() ==> key_view(#[trigger] gs[p].key@) != k,
        forall|p: int| q <= p < gs.len() ==> key_lt(k, key_view(#[trigger] gs[p].key@)),
        forall|e: int| 0 <= e < i ==> group_key(#[trigger] rows[e], gb) != k,
{
    lemma_key_lt_irreflexive(k);
    assert forall|p: int| q <= p < gs.len() implies key_lt(k, key_view(#[trigger] gs[p].key@)) by {
        if p > q {
            assert(key_lt(key_view(gs[q].key@), key_view(gs[p].key@)));
            lemma_key_lt_trans(k, key_view(gs[q].key@), key_view(gs[p].key@));
        }
    }
    assert forall|p: int| 0 <= p < gs.len() implies key_view(#[trigger] gs[p].key@) != k by {
        if p < q {
            assert(key_lt(key_view(gs[p].key@), k));
        } else {
            assert(key_lt(k, key_view(gs[p].key@)));
        }
    }
    assert forall|e: int| 0 <= e < i implies group_key(#[trigger] rows[e], gb) != k by {
        let g = choose|g: int| 0 <= g < gs.len() && key_view(gs[g].key@) == group_key(rows[e], gb);
        assert(key_view(gs[g].key@) != k);
    }
}

/// A group that does not hold row `i` is unchanged by it.
proof fn lemma_group_untouched(g: Group, rows: Seq<Seq<Cell>>, i: int, gb: Seq<usize>, av: Seq<AggSpec>)
    requires
        group_ok(g, rows, i, gb, av),
        i < rows.len(),
        key_view(g.key@) != group_key(rows[i], gb),
    ensures
        group_ok(g, rows, i + 1, gb, av),
{
    let k = key_view(g.key@);
    assert forall|a: int| 0 <= a < av.len() implies acc_ok(#[trigger] g.accs@[a], av[a].f, group_cells(rows.take(i + 1), gb, k, av[a].idx as int), i + 1) by {
        lemma_group_cells_step(rows, gb, k, av[a].idx as int, i);
        assert(acc_ok(g.accs@[a], av[a].f, group_cells(rows.take(i), gb, k, av[a].idx as int), i));
    }
}

proof fn lemma_after_update(gs: Seq<Group>, ns: Seq<Group>, q: int, rows: Seq<Seq<Cell>>, i: int, gb: Seq<usize>, av: Seq<AggSpec>)
    requires
        groups_ok(gs, rows, i, gb, av),
        0 <= q < gs.len(),
        0 <= i < rows.len(),
        key_view(gs[q].key@) == group_key(rows[i], gb),
        ns.len() == gs.len(),
        forall|p: int| 0 <= p < gs.len() && p != q ==> #[trigger] ns[p] == gs[p],
        ns[q].key@ == gs[q].key@,
        group_ok(ns[q], rows, i + 1, gb, av),
    ensures
        groups_ok(ns, rows, i + 1, gb, av),
{
    let k = key_view(gs[q].key@);
    lemma_key_lt_irreflexive(k);
    assert forall|a: int, b: int| 0 <= a < b < ns.len() implies key_lt(key_view(#[trigger] ns[a].key@), key_view(#[trigger] ns[b].key@)) by {
        assert(key_lt(key_view(gs[a].key@), key_view(gs[b].key@)));
        assert(ns[a].key@ == gs[a].key@);
        assert(ns[b].key@ == gs[b].key@);
    }
    assert forall|g: int| 0 <= g < ns.len() implies group_ok(#[trigger] ns[g], rows, i + 1, gb, av) by {
        if g != q {
            assert(group_ok(gs[g], rows, i, gb, av));
            if g < q {
                assert(key_lt(key_view(gs[g].key@), k));
            } else {
                assert(key_lt(k, key_view(gs[g].key@)));
            }
            lemma_group_untouched(gs[g], rows, i, gb, av);
        }
    }
    assert forall|e: int| 0 <= e < i + 1 implies exists|g: int| 0 <= g < ns.len() && key_view(ns[g].key@) == group_key(#[trigger] rows[e], gb) by {
        if e < i {
            let g = choose|g: int| 0 <= g < gs.len() && key_view(gs[g].key@) == group_key(rows[e], gb);
            assert(ns[g].key@ == gs[g].key@);
        } else {
            assert(key_view(ns[q].key@) == group_key(rows[e], gb));
        }
    }
}

proof fn lemma_new_group_ok(gs: Seq<Group>, q: int, g2: Group, rows: Seq<Seq<Cell>>, i: int, gb: Seq<usize>, av: Seq<AggSpec>)
    requires
        0 <= i < rows.len(),
        forall|e: int| 0 <= e < i ==> group_key(#[trigger] rows[e], gb) != key_view(g2.key@),
        key_view(g2.key@) == group_key(rows[i], gb),
        g2.first@ == i,
        g2.cells@ == Seq::new(gb.len(), |j: int| cell_at(rows[i], gb[j] as int)),
        g2.accs@.len() == av.len(),
        forall|a: int| 0 <= a < av.len() ==> acc_ok(#[trigger] g2.accs@[a], av[a].f, group_cells(rows.take(i + 1), gb, key_view(g2.key@), av[a].idx as int), i + 1),
    ensures
        group_ok(g2, rows, i + 1, gb, av),
{
}

proof fn lemma_insert_sorted_keys(gs: Seq<Group>, q: int, g2: Group)
    requires
        0 <= q <= gs.len(),
        forall|a: int, b: int| 0 <= a < b < gs.len() ==> key_lt(key_view(#[trigger] gs[a].key@), key_view(#[trigger] gs[b].key@)),
        forall|p: int| 0 <= p < q ==> key_lt(key_view(#[trigger] gs[p].key@), key_view(g2.key@)),
        forall|p: int| q <= p < gs.len() ==> key_lt(key_view(g2.key@), key_view(#[trigger] gs[p].key@)),
    ensures
        forall|a: int, b: int| 0 <= a < b < gs.insert(q, g2).len() ==> key_lt(key_view(#[trigger] gs.insert(q, g2)[a].key@), key_view(#[trigger] gs.insert(q, g2)[b].key@)),
{
    let k = key_view(g2.key@);
    let ns = gs.insert(q, g2);
    assert forall|a: int, b: int| 0 <= a < b < ns.len() implies key_lt(key_view(#[trigger] ns[a].key@), key_view(#[trigger] ns[b].key@)) by {
        if b < q {
            assert(ns[a] == gs[a] && ns[b] == gs[b]);
        } else if b == q {
            assert(ns[a] == gs[a]);
        } else if a == q {
            assert(ns[b] == gs[b - 1]);
        } else if a < q {
            assert(ns[a] == gs[a] && ns[b] == gs[b - 1]);
            assert(key_lt(key_view(gs[a].key@), k));
            assert(key_lt(k, key_view(gs[b - 1].key@)));
            lemma_key_lt_trans(key_view(gs[a].key@), k, key_view(gs[b - 1].key@));
        } else {
            assert(ns[a] == gs[a - 1] && ns[b] == gs[b - 1]);
        }
    }
}

proof fn lemma_shifted_groups_ok(gs: Seq<Group>, q: int, g2: Group, rows: Seq<Seq<Cell>>, i: int, gb: Seq<usize>, av: Seq<AggSpec>)
    requires
        0 <= q <= gs.len(),
        0 <= i < rows.len(),
        forall|g: int| 0 <= g < gs.len() ==> group_ok(#[trigger] gs[g], rows, i, gb, av),
        forall|p: int| 0 <= p < gs.len() ==> key_view(#[trigger] gs[p].key@) != group_key(rows[i], gb),
        group_ok(g2, rows, i + 1, gb, av),
    ensures
        forall|g: int| 0 <= g < gs.insert(q, g2).len() ==> group_ok(#[trigger] gs.insert(q, g2)[g], rows, i + 1, gb, av),
{
    let ns = gs.insert(q, g2);
    assert forall|g: int| 0 <= g < ns.len() implies group_ok(#[trigger] ns[g], rows, i + 1, gb, av) by {
        if g != q {
            let old_g = if g < q { g } else { g - 1 };
            assert(ns[g] == gs[old_g]);
            assert(group_ok(gs[old_g], rows, i, gb, av));
            assert(key_view(gs[old_g].key@) != group_key(rows[i], gb));
            lemma_group_untouched(gs[old_g], rows, i, gb, av);
        }
    }
}

proof fn lemma_after_insert(gs: Seq<Group>, q: int, g2: Group, rows: Seq<Seq<Cell>>, i: int, gb: Seq<usize>, av: Seq<AggSpec>)
    requires
        groups_ok(gs, rows, i, gb, av),
        0 <= q <= gs.len(),
        0 <= i < rows.len(),
        forall|p: int| 0 <= p < q ==> key_lt(key_view(#[trigger] gs[p].key@), key_view(g2.key@)),
        q < gs.len() ==> key_lt(key_view(g2.key@), key_view(gs[q].key@)),
        key_view(g2.key@) == group_key(rows[i], gb),
        g2.first@ == i,
        g2.cells@ == Seq::new(gb.len(), |j: int| cell_at(rows[i], gb[j] as int)),
        g2.accs@.len() == av.len(),
        forall|a: int| 0 <= a < av.len() ==> acc_ok(#[trigger] g2.accs@[a], av[a].f, group_cells(rows.take(i + 1), gb, key_view(g2.key@), av[a].idx as int), i + 1),
    ensures
        groups_ok(gs.insert(q, g2), rows, i + 1, gb, av),
{
    let k = key_view(g2.key@);
    let ns = gs.insert(q, g2);
    lemma_key_absent(gs, q, rows, i, gb, av, k);
    lemma_insert_sorted_keys(gs, q, g2);
    lemma_new_group_ok(gs, q, g2, rows, i, gb, av);
    lemma_shifted_groups_ok(gs, q, g2, rows, i, gb, av);
    assert forall|e: int| 0 <= e < i + 1 implies exists|g: int| 0 <= g < ns.len() && key_view(ns[g].key@) == group_key(#[trigger] rows[e], gb) by {
        if e < i {
            let g = choose|g: int| 0 <= g < gs.len() && key_view(gs[g].key@) == group_key(rows[e], gb);
            if g < q {
                assert(ns[g] == gs[g]);
            } else {
                assert(ns[g + 1] == gs[g]);
            }
        } else {
            assert(ns[q] == g2);
        }
    }
}

/// Adds row `i` to its group: a new group in key order, or the running
/// aggregates of the existing one. `false` when a sum overflows.
#[verifier::rlimit(40)]
pub fn add_row(groups: &mut Vec<Group>, row: &Vec<Cell>, gb: &Vec<usize>, aggs: &Vec<Agg>, Ghost(rows): Ghost<Seq<Seq<Cell>>>, Ghost(i): Ghost<int>) -> (r: bool)
    requires
        0 <= i < rows.len(),
        rows.len() <= usize::MAX,
        rows[i] == row@,
        groups_ok(old(groups)@, rows, i, gb@, aggs_view(aggs@)),
    ensures
        r ==> groups_ok(final(groups)@, rows, i + 1, gb@, aggs_view(aggs@)),
        !r ==> exists|a: int| 0 <= a < aggs@.len() && aggs@[a].f@ != "count"@
            && sum_of(#[trigger] group_cells(rows.take(i + 1), gb@, group_key(rows[i], gb@), aggs@[a].idx as int)) is None,
{
    let ghost av = aggs_view(aggs@);
    let key = row_key(row, gb);
    let ghost k = key_view(key@);
    let mut q: usize = 0;
    while q < groups.len() && compare_keys(&groups[q].key, &key) == -1
        invariant
            q <= groups@.len(),
            k == key_view(key@),
            forall|p: int| 0 <= p < q ==> key_lt(key_view(#[trigger] groups@[p].key@), k),
        decreases groups.len() - q,
    {
        q = q + 1;
    }
    let found = q < groups.len() && compare_keys(&groups[q].key, &key) == 0;
    if found {
        let ghost gs = groups@;
        let g = groups.remove(q);
        proof {
            assert(g == gs[q as int]);
            assert(group_ok(g, rows, i, gb@, av));
            assert forall|a: int| 0 <= a < aggs@.len() implies group_cells(rows.take(i), gb@, k, aggs@[a].idx as int).len() <= i by {
                lemma_group_cells_len(rows.take(i), gb@, k, aggs@[a].idx as int);
            }
        }
        let ghost cells = Seq::new(aggs@.len() as nat, |a: int| group_cells(rows.take(i), gb@, k, aggs@[a].idx as int));
        proof {
            assert forall|a: int| 0 <= a < aggs@.len() implies (#[trigger] cells[a]).len() <= i
                && acc_ok(g.accs@[a], aggs@[a].f@, cells[a], i) by {
                assert(av[a].f == aggs@[a].f@ && av[a].idx == aggs@[a].idx);
            }
        }
        match step_accs(&g.accs, aggs, row, Ghost(cells), Ghost(i)) {
            None => {
                proof {
                    let a = choose|a: int| 0 <= a < aggs@.len() && aggs@[a].f@ != "count"@
                        && sum_of(#[trigger] cells[a].push(cell_at(row@, aggs@[a].idx as int))) is None;
                    lemma_group_cells_step(rows, gb@, k, aggs@[a].idx as int, i);
                    assert(group_cells(rows.take(i + 1), gb@, group_key(rows[i], gb@), aggs@[a].idx as int)
                        == cells[a].push(cell_at(row@, aggs@[a].idx as int)));
                }
                return false;
            },
            Some(accs) => {
                let g2 = Group { key: g.key, cells: g.cells, accs, first: g.first };
                groups.insert(q, g2);
                proof {
                    assert forall|a: int| 0 <= a < av.len() implies acc_ok(#[trigger] g2.accs@[a], av[a].f,
                        group_cells(rows.take(i + 1), gb@, k, av[a].idx as int), i + 1) by {
                        lemma_group_cells_step(rows, gb@, k, av[a].idx as int, i);
                    }
                    assert(group_ok(g2, rows, i + 1, gb@, av));
                    lemma_after_update(gs, groups@, q as int, rows, i, gb@, av);
                }
                return true;
            },
        }
    } else {
        proof {
            if q < groups@.len() {
                lemma_key_lt_total(key_view(groups@[q as int].key@), k);
            }
            lemma_key_absent(groups@, q as int, rows, i, gb@, av, k);
            lemma_group_cells_absent(rows.take(i), gb@, k, 0);
        }
        let fresh = empty_accs(aggs.len());
        let ghost cells = Seq::new(aggs@.len() as nat, |a: int| Seq::<Cell>::empty());
        proof {
            assert forall|a: int| 0 <= a < aggs@.len() implies (#[trigger] cells[a]).len() <= i
                && acc_ok(fresh@[a], aggs@[a].f@, cells[a], i) by {
                assert(is_empty_acc(fresh@[a]));
            }
        }
        match step_accs(&fresh, aggs, row, Ghost(cells), Ghost(i)) {
            None => {
                proof {
                    let a = choose|a: int| 0 <= a < aggs@.len() && aggs@[a].f@ != "count"@
                        && sum_of(#[trigger] cells[a].push(cell_at(row@, aggs@[a].idx as int))) is None;
                    lemma_group_cells_absent(rows.take(i), gb@, k, aggs@[a].idx as int);
                    lemma_group_cells_step(rows, gb@, k, aggs@[a].idx as int, i);
                    assert(group_cells(rows.take(i + 1), gb@, group_key(rows[i], gb@), aggs@[a].idx as int)
                        =~= cells[a].push(cell_at(row@, aggs@[a].idx as int)));
                }
                return false;
            },
            Some(accs) => {
                let g2 = Group { key, cells: key_cells(row, gb), accs, first: Ghost(i) };
                proof {
                    assert forall|a: int| 0 <= a < av.len() implies acc_ok(#[trigger] g2.accs@[a], av[a].f,
                        group_cells(rows.take(i + 1), gb@, k, av[a].idx as int), i + 1) by {
                        lemma_group_cells_absent(rows.take(i), gb@, k, av[a].idx as int);
                        lemma_group_cells_step(rows, gb@, k, av[a].idx as int, i);
                        assert(group_cells(rows.take(i + 1), gb@, k, av[a].idx as int)
                            =~= cells[a].push(cell_at(row@, aggs@[a].idx as int)));
                    }
                    lemma_after_insert(groups@, q as int, g2, rows, i, gb@, av);
                }
                groups.insert(q, g2);
                return true;
            },
        }
    }
}

// ------------------------------------------------------------------ output

/// The key texts of the first `m` cells of an output row.
pub open spec fn out_key(r: Seq<Cell>, m: int) -> Seq<Seq<char>> {
    Seq::new(m as nat, |j: int| r[j].display_spec())
}

/// A cell holding `v`: its number, or empty.
pub open spec fn agg_cell_ok(c: Cell, v: Option<(i128, u32)>) -> bool {
    match v {
        None => c is Empty,
        Some(p) => c matches Cell::Number(d) && d.pair() == p,
    }
}

/// Row `f` is the first row with key `key`.
pub open spec fn first_row_of(rows: Seq<Seq<Cell>>, gb: Seq<usize>, f: int, key: Seq<Seq<char>>) -> bool {
    &&& 0 <= f < rows.len()
    &&& group_key(rows[f], gb) == key
    &&& forall|e: int| 0 <= e < f ==> group_key(#[trigger] rows[e], gb) != key
}

/// An output row: the group-by cells of the first row of its group, then one
/// cell per aggregation over the group.
pub open spec fn agg_row_ok(r: Seq<Cell>, rows: Seq<Seq<Cell>>, gb: Seq<usize>, aggs: Seq<AggSpec>) -> bool {
    let m = gb.len() as int;
    let k = out_key(r, m);
    &&& r.len() == m + aggs.len()
    &&& exists|f: int| #[trigger] first_row_of(rows, gb, f, k)
        && r.take(m) == Seq::new(gb.len(), |j: int| cell_at(rows[f], gb[j] as int))
    &&& forall|a: int| 0 <= a < aggs.len() ==> agg_cell_ok(#[trigger] r[m + a], agg_value(aggs[a].f, group_cells(rows, gb, k, aggs[a].idx as int))->0)
}

/// The output of `aggregate`: one row per group key that occurs, in key order.
pub open spec fn agg_rows_ok(out: Seq<Seq<Cell>>, rows: Seq<Seq<Cell>>, gb: Seq<usize>, aggs: Seq<AggSpec>) -> bool {
    let m = gb.len() as int;
    &&& forall|k: int| 0 <= k < out.len() ==> agg_row_ok(#[trigger] out[k], rows, gb, aggs)
    &&& forall|a: int, b: int| 0 <= a < b < out.len() ==> key_lt(out_key(#[trigger] out[a], m), out_key(#[trigger] out[b], m))
    &&& forall|e: int| 0 <= e < rows.len() ==> exists|k: int| 0 <= k < out.len() && out_key(out[k], m) == group_key(#[trigger] rows[e], gb)
}

/// The output of `aggregate` over a table: without grouping, a single row of
/// totals over all rows (also when there are none); with grouping, one row per
/// group key that occurs, in key order.
pub open spec fn agg_table_ok(out: Seq<Seq<Cell>>, rows: Seq<Seq<Cell>>, gb: Seq<usize>, aggs: Seq<AggSpec>) -> bool {
    if gb.len() == 0 && rows.len() == 0 {
        &&& out.len() == 1
        &&& out[0].len() == aggs.len()
        &&& forall|a: int| 0 <= a < aggs.len() ==> agg_cell_ok(#[trigger] out[0][a], agg_value(aggs[a].f, seq![])->0)
    } else {
        agg_rows_ok(out, rows, gb, aggs)
    }
}

/// The totals row of a table without rows: counts and sums are 0, the other
/// aggregates are empty.
pub fn empty_totals(aggs: &Vec<Agg>) -> (r: Vec<Cell>)
    ensures
        r@.len() == aggs@.len(),
        forall|a: int| 0 <= a < aggs@.len() ==> agg_cell_ok(#[trigger] r@[a], agg_value(aggs@[a].f@, seq![])->0),
{
    let mut out: Vec<Cell> = Vec::new();
    let mut k: usize = 0;
    while k < aggs.len()
        invariant
            k <= aggs@.len(),
            out@.len() == k,
            forall|a: int| 0 <= a < k ==> agg_cell_ok(#[trigger] out@[a], agg_value(aggs@[a].f@, seq![])->0),
        decreases aggs.len() - k,
    {
        let f = aggs[k].f.as_str();
        let c = if crate::text::str_eq(f, "count") || crate::text::str_eq(f, "sum") {
            Cell::Number(Dec::zero())
        } else {
            Cell::Empty
        };
        proof {
            let e: Seq<Cell> = seq![];
            assert(sum_of(e) == Some((0i128, 0u32)));
            assert(count_numbers(e) == 0);
            assert(count_nonempty(e) == 0);
            assert(min_of(e) is None);
            assert(max_of(e) is None);
        }
        out.push(c);
        k = k + 1;
    }
    out
}

/// Whether some group's aggregate overflows.
pub open spec fn agg_overflow(rows: Seq<Seq<Cell>>, gb: Seq<usize>, aggs: Seq<AggSpec>) -> bool {
    exists|e: int, a: int| 0 <= e < rows.len() && 0 <= a < aggs.len()
        && #[trigger] agg_value(aggs[a].f, group_cells(rows, gb, group_key(rows[e], gb), aggs[a].idx as int)) is None
}

/// The aggregate cells of one group.
fn group_row(g: &Group, aggs: &Vec<Agg>, Ghost(rows): Ghost<Seq<Seq<Cell>>>, Ghost(gb): Ghost<Seq<usize>>) -> (r: Option<Vec<Cell>>)
    requires
        group_ok(*g, rows, rows.len() as int, gb, aggs_view(aggs@)),
    ensures
        ({
            let k = key_view(g.key@);
            match r {
                Some(v) => v@.len() == gb.len() + aggs@.len() && v@.take(gb.len() as int) == g.cells@
                    && (forall|a: int| 0 <= a < aggs@.len() ==> agg_cell_ok(#[trigger] v@[gb.len() + a],
                        agg_value(aggs@[a].f@, group_cells(rows, gb, k, aggs@[a].idx as int))->0))
                    && (forall|a: int| 0 <= a < aggs@.len()
                        ==> #[trigger] agg_value(aggs@[a].f@, group_cells(rows, gb, k, aggs@[a].idx as int)) is Some),
                None => exists|a: int| 0 <= a < aggs@.len()
                    && #[trigger] agg_value(aggs@[a].f@, group_cells(rows, gb, k, aggs@[a].idx as int)) is None,
            }
        }),
{
    let ghost k = key_view(g.key@);
    let ghost av = aggs_view(aggs@);
    proof {
        assert(rows.take(rows.len() as int) =~= rows);
    }
    let mut out = crate::cells::dup_row(&g.cells);
    let ghost m = g.cells@.len();
    let mut a: usize = 0;
    while a < aggs.len()
        invariant
            a <= aggs@.len(),
            av == aggs_view(aggs@),
            rows.take(rows.len() as int) == rows,
            group_ok(*g, rows, rows.len() as int, gb, av),
            k == key_view(g.key@),
            m == gb.len(),
            out@.len() == m + a,
            out@.take(m as int) == g.cells@,
            forall|b: int| 0 <= b < a ==> agg_cell_ok(#[trigger] out@[m + b], agg_value(aggs@[b].f@, group_cells(rows, gb, k, aggs@[b].idx as int))->0),
            forall|b: int| 0 <= b < a ==> #[trigger] agg_value(aggs@[b].f@, group_cells(rows, gb, k, aggs@[b].idx as int)) is Some,
        decreases aggs.len() - a,
    {
        let acc = &g.accs[a];
        let f = aggs[a].f.as_str();
        let ghost cells = group_cells(rows, gb, k, aggs@[a as int].idx as int);
        proof {
            assert(acc_ok(g.accs@[a as int], av[a as int].f, group_cells(rows.take(rows.len() as int), gb, k, av[a as int].idx as int), rows.len() as int));
            assert(acc_ok(*acc, f@, cells, rows.len() as int));
            reveal_strlit("sum");
            reveal_strlit("count");
            reveal_strlit("avg");
            reveal_strlit("min");
            reveal_strlit("max");
            assert("sum"@[0] != "count"@[0]);
            assert("avg"@[0] != "count"@[0]);
            assert("min"@[0] != "count"@[0]);
            assert("max"@[0] != "count"@[0]);
            assert("avg"@[0] != "sum"@[0]);
            assert("min"@[0] != "sum"@[0]);
            assert("max"@[0] != "sum"@[0]);
            assert("min"@[0] != "avg"@[0]);
            assert("max"@[0] != "avg"@[0]);
            assert("max"@[1] != "min"@[1]);
        }
        let cell = if crate::text::str_eq(f, "sum") {
            Cell::Number(acc.sum)
        } else if crate::text::str_eq(f, "count") {
            Cell::Number(Dec::from_u64(acc.count as u64))
        } else if crate::text::str_eq(f, "avg") {
            if acc.count == 0 {
                Cell::Empty
            } else {
                match acc.sum.checked_div(&Dec::from_u64(acc.count as u64)) {
                    Some(q) => Cell::Number(q),
                    None => {
                        proof {
                            assert(agg_value(aggs@[a as int].f@, group_cells(rows, gb, k, aggs@[a as int].idx as int)) is None);
                        }
                        return None;
                    },
                }
            }
        } else if crate::text::str_eq(f, "min") {
            match acc.min {
                Some(v) => Cell::Number(v),
                None => Cell::Empty,
            }
        } else {
            match acc.max {
                Some(v) => Cell::Number(v),
                None => Cell::Empty,
            }
        };
        let ghost before = out@;
        out.push(cell);
        proof {
            assert(out@.take(m as int) =~= before.take(m as int));
        }
        a = a + 1;
    }
    Some(out)
}

/// The output rows, one per group in key order; `None` when an aggregate
/// overflows.
pub fn finish_groups(groups: &Vec<Group>, aggs: &Vec<Agg>, Ghost(rows): Ghost<Seq<Seq<Cell>>>, Ghost(gb): Ghost<Seq<usize>>) -> (r: Option<Vec<Vec<Cell>>>)
    requires
        groups_ok(groups@, rows, rows.len() as int, gb, aggs_view(aggs@)),
    ensures
        match r {
            Some(out) => agg_rows_ok(crate::cells::row_views(out@), rows, gb, aggs_view(aggs@)) && !agg_overflow(rows, gb, aggs_view(aggs@)),
            None => agg_overflow(rows, gb, aggs_view(aggs@)),
        },
{
    let ghost av = aggs_view(aggs@);
    let ghost m = gb.len() as int;
    let mut out: Vec<Vec<Cell>> = Vec::new();
    let mut i: usize = 0;
    while i < groups.len()
        invariant
            i <= groups@.len(),
            av == aggs_view(aggs@),
            m == gb.len(),
            groups_ok(groups@, rows, rows.len() as int, gb, av),
            out@.len() == i,
            forall|k: int| 0 <= k < i ==> out_key((#[trigger] out@[k])@, m) == key_view(groups@[k].key@),
            forall|k: int| 0 <= k < i ==> agg_row_ok((#[trigger] out@[k])@, rows, gb, av),
            forall|k: int, a: int| 0 <= k < i && 0 <= a < av.len() ==> #[trigger] agg_value(av[a].f, group_cells(rows, gb, key_view(groups@[k].key@), av[a].idx as int)) is Some,
        decreases groups.len() - i,
    {
        let g = &groups[i];
        proof {
            assert(group_ok(groups@[i as int], rows, rows.len() as int, gb, av));
        }
        match group_row(g, aggs, Ghost(rows), Ghost(gb)) {
            None => {
                proof {
                    let a = choose|a: int| 0 <= a < aggs@.len()
                        && #[trigger] agg_value(aggs@[a].f@, group_cells(rows, gb, key_view(g.key@), aggs@[a].idx as int)) is None;
                    let e = g.first@;
                    assert(av[a].f == aggs@[a].f@ && av[a].idx == aggs@[a].idx);
                    assert(agg_value(av[a].f, group_cells(rows, gb, group_key(rows[e], gb), av[a].idx as int)) is None);
                }
                return None;
            },
            Some(row) => {
                proof {
                    let k = key_view(g.key@);
                    let f = g.first@;
                    assert(row@.take(m) == Seq::new(gb.len(), |j: int| cell_at(rows[f], gb[j] as int)));
                    assert(out_key(row@, m) =~= group_key(rows[f], gb)) by {
                        assert forall|j: int| 0 <= j < m implies #[trigger] row@[j] == cell_at(rows[f], gb[j] as int) by {
                            assert(row@.take(m)[j] == row@[j]);
                        }
                    }
                    assert(first_row_of(rows, gb, f, out_key(row@, m)));
                    assert forall|a: int| 0 <= a < av.len() implies agg_cell_ok(#[trigger] row@[m + a], agg_value(av[a].f, group_cells(rows, gb, out_key(row@, m), av[a].idx as int))->0) by {
                        assert(av[a].f == aggs@[a].f@ && av[a].idx == aggs@[a].idx);
                    }
                    assert(agg_row_ok(row@, rows, gb, av));
                    assert forall|a: int| 0 <= a < av.len() implies #[trigger] agg_value(av[a].f, group_cells(rows, gb, k, av[a].idx as int)) is Some by {
                        assert(av[a].f == aggs@[a].f@ && av[a].idx == aggs@[a].idx);
                    }
                }
                out.push(row);
            },
        }
        i = i + 1;
    }
    proof {
        let ov = crate::cells::row_views(out@);
        assert forall|a: int, b: int| 0 <= a < b < ov.len() implies key_lt(out_key(#[trigger] ov[a], m), out_key(#[trigger] ov[b], m)) by {
            assert(key_lt(key_view(groups@[a].key@), key_view(groups@[b].key@)));
        }
        assert forall|e: int| 0 <= e < rows.len() implies exists|k: int| 0 <= k < ov.len() && out_key(ov[k], m) == group_key(#[trigger] rows[e], gb) by {
            let g = choose|g: int| 0 <= g < groups@.len() && key_view(groups@[g].key@) == group_key(rows[e], gb);
            assert(out_key(ov[g], m) == key_view(groups@[g].key@));
        }
        assert forall|k: int| 0 <= k < ov.len() implies agg_row_ok(#[trigger] ov[k], rows, gb, av) by {
            assert(ov[k] == out@[k]@);
        }
        if agg_overflow(rows, gb, av) {
            let (e, a) = choose|e: int, a: int| 0 <= e < rows.len() && 0 <= a < av.len()
                && #[trigger] agg_value(av[a].f, group_cells(rows, gb, group_key(rows[e], gb), av[a].idx as int)) is None;
            let g = choose|g: int| 0 <= g < groups@.len() && key_view(groups@[g].key@) == group_key(rows[e], gb);
            assert(agg_value(av[a].f, group_cells(rows, gb, key_view(groups@[g].key@), av[a].idx as int)) is Some);
        }
    }
    Some(out)
}

} // verus!

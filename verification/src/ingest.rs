//! Turning file contents into tables: CSV text, spreadsheet grids, PDF text.

use vstd::prelude::*;
use crate::cells::{Cell, Table, CoreError, ErrSpec, lenient_spec, parse_decimal_lenient, dup_row, row_views};
use crate::smap::{sorted_keys, find_key, smap_insert, lemma_find_key_unique};
use crate::workspace::FileKind;
use crate::text::{trim, trim_chars, chars_of, string_of, is_blank, blank, is_ascii_digit, nat_digits, lowercase_of, to_lowercase, str_eq, concat3,
    u64_to_string, concat, slice_vec};

verus! {

// ------------------------------------------------------------------ lines

/// The index of the first `'\n'` at or after `i` (the length if there is none).
pub open spec fn newline_from(s: Seq<char>, i: int) -> int
    decreases s.len() - i,
{
    if i < 0 || i >= s.len() {
        s.len() as int
    } else if s[i] == '\n' {
        i
    } else {
        newline_from(s, i + 1)
    }
}

pub proof fn lemma_newline_from(s: Seq<char>, i: int)
    requires
        0 <= i <= s.len(),
    ensures
        i <= newline_from(s, i) <= s.len(),
        newline_from(s, i) < s.len() ==> s[newline_from(s, i)] == '\n',
    decreases s.len() - i,
{
    if i < s.len() && s[i] != '\n' {
        lemma_newline_from(s, i + 1);
    }
}

/// A line without its terminating carriage return.
pub open spec fn strip_cr(l: Seq<char>) -> Seq<char> {
    if l.len() > 0 && l.last() == '\r' {
        l.drop_last()
    } else {
        l
    }
}

/// The lines of `s[i..]` as `str::lines` yields them: split at `'\n'`, a `'\r'`
/// right before the `'\n'` dropped, no empty line after a final `'\n'`.
pub open spec fn lines_from(s: Seq<char>, i: int) -> Seq<Seq<char>>
    decreases s.len() - i,
{
    if i < 0 || i >= s.len() {
        seq![]
    } else {
        let k = newline_from(s, i);
        if k >= s.len() {
            seq![s.subrange(i, s.len() as int)]
        } else {
            proof {
                lemma_newline_from(s, i);
            }
            seq![strip_cr(s.subrange(i, k))] + lines_from(s, k + 1)
        }
    }
}

pub open spec fn lines_of(s: Seq<char>) -> Seq<Seq<char>> {
    lines_from(s, 0)
}

/// Splits text into lines (`str::lines`).
pub fn split_lines(s: &Vec<char>) -> (r: Vec<Vec<char>>)
    ensures
        r@.len() == lines_of(s@).len(),
        forall|i: int| 0 <= i < r@.len() ==> (#[trigger] r@[i])@ == lines_of(s@)[i],
{
    let mut out: Vec<Vec<char>> = Vec::new();
    let mut i: usize = 0;
    while i < s.len()
        invariant
            i <= s@.len(),
            out@.len() + lines_from(s@, i as int).len() == lines_of(s@).len(),
            forall|k: int| 0 <= k < out@.len() ==> (#[trigger] out@[k])@ == lines_of(s@)[k],
            forall|k: int| 0 <= k < lines_from(s@, i as int).len() ==> #[trigger] lines_from(s@, i as int)[k]
                == lines_of(s@)[out@.len() + k],
        decreases s.len() - i,
    {
        let mut k = i;
        while k < s.len() && s[k] != '\n'
            invariant
                i <= k <= s@.len(),
                newline_from(s@, i as int) == newline_from(s@, k as int),
            decreases s.len() - k,
        {
            k = k + 1;
        }
        proof {
            lemma_newline_from(s@, i as int);
        }
        let ghost rest = lines_from(s@, i as int);
        if k >= s.len() {
            let l = slice_vec(s, i, s.len());
            proof {
                assert(rest == seq![s@.subrange(i as int, s@.len() as int)]);
                assert(rest[0] == lines_of(s@)[out@.len() as int]);
            }
            out.push(l);
            i = s.len();
            proof {
                assert(lines_from(s@, i as int).len() == 0);
            }
        } else {
            let mut e = k;
            if e > i && s[e - 1] == '\r' {
                e = e - 1;
            }
            let l = slice_vec(s, i, e);
            proof {
                let full = s@.subrange(i as int, k as int);
                if k > i && s@[k - 1] == '\r' {
                    assert(full.drop_last() =~= s@.subrange(i as int, e as int));
                } else {
                    assert(full =~= s@.subrange(i as int, e as int));
                }
                assert(rest[0] == strip_cr(full));
                assert(rest =~= seq![strip_cr(full)] + lines_from(s@, k + 1));
                assert(rest[0] == lines_of(s@)[out@.len() as int]);
                assert forall|q: int| 0 <= q < lines_from(s@, k + 1).len() implies #[trigger] lines_from(s@, k + 1)[q]
                    == lines_of(s@)[out@.len() + 1 + q] by {
                    assert(lines_from(s@, k + 1)[q] == rest[q + 1]);
                }
            }
            out.push(l);
            i = k + 1;
        }
    }
    out
}

// ------------------------------------------------------------------ CSV fields

/// The fields of `c[i..]`, given the fields `out` and the partial field `field`
/// read so far and whether a quoted section is open.
pub open spec fn csv_from(c: Seq<char>, delim: char, i: int, out: Seq<Seq<char>>, field: Seq<char>, q: bool) -> Seq<Seq<char>>
    decreases c.len() - i,
{
    if i < 0 || i >= c.len() {
        out.push(field)
    } else {
        let ch = c[i];
        if q {
            if ch == '"' {
                if i + 1 < c.len() && c[i + 1] == '"' {
                    csv_from(c, delim, i + 2, out, field.push('"'), true)
                } else {
                    csv_from(c, delim, i + 1, out, field, false)
                }
            } else {
                csv_from(c, delim, i + 1, out, field.push(ch), true)
            }
        } else if ch == '"' {
            csv_from(c, delim, i + 1, out, field, true)
        } else if ch == delim {
            csv_from(c, delim, i + 1, out.push(field), seq![], false)
        } else {
            csv_from(c, delim, i + 1, out, field.push(ch), false)
        }
    }
}

/// The fields of one CSV line: quoted fields may hold the delimiter, `""`
/// inside quotes is one quote.
pub open spec fn csv_fields(line: Seq<char>, delim: char) -> Seq<Seq<char>> {
    csv_from(line, delim, 0, seq![], seq![], false)
}

/// Splits one CSV line into fields (RFC-4180-ish: honors "quoted, fields" and
/// `""` escapes).
pub fn split_csv_line(line: &str, delim: char) -> (r: Vec<String>)
    ensures
        r@.len() == csv_fields(line@, delim).len(),
        forall|i: int| 0 <= i < r@.len() ==> (#[trigger] r@[i])@ == csv_fields(line@, delim)[i],
{
    let c = chars_of(line);
    let v = split_csv_chars(&c, delim);
    let mut out: Vec<String> = Vec::new();
    let mut i: usize = 0;
    while i < v.len()
        invariant
            i <= v@.len(),
            out@.len() == i,
            forall|k: int| 0 <= k < i ==> (#[trigger] out@[k])@ == v@[k]@,
        decreases v.len() - i,
    {
        out.push(string_of(v[i].as_slice()));
        i = i + 1;
    }
    out
}

/// Splits one CSV line (as characters) into fields.
pub fn split_csv_chars(c: &Vec<char>, delim: char) -> (r: Vec<Vec<char>>)
    ensures
        r@.len() == csv_fields(c@, delim).len(),
        forall|i: int| 0 <= i < r@.len() ==> (#[trigger] r@[i])@ == csv_fields(c@, delim)[i],
{
    let mut out: Vec<Vec<char>> = Vec::new();
    let mut field: Vec<char> = Vec::new();
    let mut in_quotes = false;
    let mut i: usize = 0;
    let ghost mut outs: Seq<Seq<char>> = seq![];
    while i < c.len()
        invariant
            i <= c@.len(),
            out@.len() == outs.len(),
            forall|k: int| 0 <= k < outs.len() ==> (#[trigger] out@[k])@ == outs[k],
            csv_fields(c@, delim) == csv_from(c@, delim, i as int, outs, field@, in_quotes),
        decreases c.len() - i,
    {
        let ch = c[i];
        if in_quotes {
            if ch == '"' {
                if i + 1 < c.len() && c[i + 1] == '"' {
                    field.push('"');
                    i = i + 2;
                } else {
                    in_quotes = false;
                    i = i + 1;
                }
            } else {
                field.push(ch);
                i = i + 1;
            }
        } else if ch == '"' {
            in_quotes = true;
            i = i + 1;
        } else if ch == delim {
            proof {
                outs = outs.push(field@);
            }
            out.push(field);
            field = Vec::new();
            proof {
                assert(field@ =~= seq![]);
            }
            i = i + 1;
        } else {
            field.push(ch);
            i = i + 1;
        }
    }
    proof {
        outs = outs.push(field@);
    }
    out.push(field);
    out
}

// ------------------------------------------------------------------ header names

/// `"Column"` followed by the 1-based column number.
pub open spec fn default_column_name(i: nat) -> Seq<char> {
    seq!['C', 'o', 'l', 'u', 'm', 'n'] + nat_digits(i + 1)
}

/// The name a header field gives its column: the trimmed field, or
/// `Column<n>` for a blank one.
pub open spec fn header_name(field: Seq<char>, i: nat) -> Seq<char> {
    if trim(field).len() == 0 {
        default_column_name(i)
    } else {
        trim(field)
    }
}

/// The column name for header field `field` at position `i`.
pub fn column_name(field: &Vec<char>, i: usize) -> (r: String)
    requires
        i < u64::MAX,
    ensures
        r@ == header_name(field@, i as nat),
{
    let t = trim_chars(field);
    if t.len() == 0 {
        let n = u64_to_string(i as u64 + 1);
        let pre = vec!['C', 'o', 'l', 'u', 'm', 'n'];
        let p = string_of(pre.as_slice());
        proof {
            assert(pre@ =~= seq!['C', 'o', 'l', 'u', 'm', 'n']);
        }
        concat(p.as_str(), n.as_str())
    } else {
        string_of(t.as_slice())
    }
}

// ------------------------------------------------------------------ CSV cells

/// Whether a trimmed field looks numeric at its start.
pub open spec fn starts_numeric(t: Seq<char>) -> bool {
    t.len() > 0 && (is_ascii_digit(t[0]) || t[0] == '-' || t[0] == '(' || t[0] == '.')
}

/// Whether `c` is the cell a CSV field becomes: empty when blank; a number when
/// the trimmed text reads as one and starts like one; text otherwise.
pub open spec fn is_field_cell(c: Cell, field: Seq<char>) -> bool {
    let t = trim(field);
    if t.len() == 0 {
        c is Empty
    } else if lenient_spec(t) is Some && starts_numeric(t) {
        c matches Cell::Number(d) && d.pair() == lenient_spec(t)->0
    } else {
        c matches Cell::Text(s) && s@ == t
    }
}

/// The cell for one CSV field.
pub fn field_cell(field: &Vec<char>) -> (r: Cell)
    ensures
        is_field_cell(r, field@),
{
    let t = trim_chars(field);
    if t.len() == 0 {
        return Cell::Empty;
    }
    let ts = string_of(t.as_slice());
    match parse_decimal_lenient(ts.as_str()) {
        Some(d) => {
            let c = t[0];
            if ('0' <= c && c <= '9') || c == '-' || c == '(' || c == '.' {
                Cell::Number(d)
            } else {
                Cell::Text(ts)
            }
        },
        None => Cell::Text(ts),
    }
}

/// Whether `row` holds the cells of CSV line `line`.
pub open spec fn is_csv_row(row: Seq<Cell>, line: Seq<char>, delim: char) -> bool {
    let f = csv_fields(line, delim);
    row.len() == f.len() && forall|j: int| 0 <= j < f.len() ==> is_field_cell(#[trigger] row[j], f[j])
}

/// The data lines of a CSV text: every line after the first that is not blank.
pub open spec fn data_lines(lines: Seq<Seq<char>>) -> Seq<Seq<char>> {
    tail_lines(lines).filter(|l: Seq<char>| !is_blank(l))
}

/// Every line after the first.
pub open spec fn tail_lines(lines: Seq<Seq<char>>) -> Seq<Seq<char>> {
    if lines.len() == 0 {
        lines
    } else {
        lines.skip(1)
    }
}

/// Whether `t` is the table a CSV text gives: column names from the first line,
/// one row per non-blank later line.
pub open spec fn is_csv_table(t: Table, raw: Seq<char>, delim: char) -> bool {
    let lines = lines_of(raw);
    let header = if lines.len() > 0 { lines[0] } else { seq![] };
    let hf = csv_fields(header, delim);
    let data = data_lines(lines);
    &&& t.columns@.len() == hf.len()
    &&& forall|i: int| 0 <= i < hf.len() ==> (#[trigger] t.columns@[i])@ == header_name(hf[i], i as nat)
    &&& t.rows@.len() == data.len()
    &&& forall|i: int| 0 <= i < data.len() ==> is_csv_row(#[trigger] t.rows@[i]@, data[i], delim)
}

/// Reads a CSV (or TSV) text into a table: the first line names the columns,
/// blank lines are skipped, numeric-looking fields become numbers.
pub fn csv_table(raw: &str, delim: char) -> (r: Table)
    ensures
        is_csv_table(r, raw@, delim),
{
    let chars = chars_of(raw);
    let lines = split_lines(&chars);
    let empty: Vec<char> = Vec::new();
    let header_fields = if lines.len() > 0 {
        split_csv_chars(&lines[0], delim)
    } else {
        split_csv_chars(&empty, delim)
    };
    let ghost hf = csv_fields(if lines_of(raw@).len() > 0 { lines_of(raw@)[0] } else { seq![] }, delim);
    proof {
        if lines.len() == 0 {
            assert(empty@ =~= seq![]);
        }
    }
    let mut columns: Vec<String> = Vec::new();
    let mut i: usize = 0;
    while i < header_fields.len()
        invariant
            i <= header_fields@.len(),
            header_fields@.len() == hf.len(),
            forall|k: int| 0 <= k < hf.len() ==> (#[trigger] header_fields@[k])@ == hf[k],
            columns@.len() == i,
            forall|k: int| 0 <= k < i ==> (#[trigger] columns@[k])@ == header_name(hf[k], k as nat),
        decreases header_fields.len() - i,
    {
        columns.push(column_name(&header_fields[i], i));
        i = i + 1;
    }
    let ghost all = lines_of(raw@);
    let ghost data = data_lines(all);
    let mut rows: Vec<Vec<Cell>> = Vec::new();
    let mut j: usize = 1;
    proof {
        assert(tail_lines(all).take(0).filter(|l: Seq<char>| !is_blank(l)) =~= seq![]);
    }
    while j < lines.len()
        invariant
            1 <= j,
            lines@.len() == all.len(),
            j <= lines@.len() || lines@.len() == 0,
            lines@.len() == 0 ==> j == 1,
            forall|k: int| 0 <= k < lines@.len() ==> (#[trigger] lines@[k])@ == all[k],
            rows@.len() == tail_lines(all).take(j - 1).filter(|l: Seq<char>| !is_blank(l)).len(),
            forall|k: int| 0 <= k < rows@.len() ==> is_csv_row(#[trigger] rows@[k]@,
                tail_lines(all).take(j - 1).filter(|l: Seq<char>| !is_blank(l))[k], delim),
        decreases lines.len() - j,
    {
        let ghost pre = tail_lines(all).take(j - 1);
        let ghost post = tail_lines(all).take(j as int);
        proof {
            assert(post.drop_last() =~= pre);
            assert(post.last() == all[j as int]);
            assert(0 <= j < all.len());
            reveal_with_fuel(Seq::<_>::filter, 1);
        }
        let line_s = string_of(lines[j].as_slice());
        if !blank(line_s.as_str()) {
            let fields = split_csv_chars(&lines[j], delim);
            let mut row: Vec<Cell> = Vec::new();
            let mut q: usize = 0;
            while q < fields.len()
                invariant
                    0 <= j < all.len(),
                    q <= fields@.len(),
                    fields@.len() == csv_fields(all[j as int], delim).len(),
                    forall|z: int| 0 <= z < fields@.len() ==> (#[trigger] fields@[z])@ == csv_fields(all[j as int], delim)[z],
                    row@.len() == q,
                    forall|z: int| 0 <= z < q ==> is_field_cell(#[trigger] row@[z], csv_fields(all[j as int], delim)[z]),
                decreases fields.len() - q,
            {
                row.push(field_cell(&fields[q]));
                q = q + 1;
            }
            rows.push(row);
            proof {
                assert(post.filter(|l: Seq<char>| !is_blank(l)) =~= pre.filter(|l: Seq<char>| !is_blank(l)).push(all[j as int]));
            }
        } else {
            proof {
                assert(post.filter(|l: Seq<char>| !is_blank(l)) =~= pre.filter(|l: Seq<char>| !is_blank(l)));
            }
        }
        j = j + 1;
    }
    proof {
        if all.len() > 0 {
            assert(j == all.len());
            assert(tail_lines(all).len() == j - 1);
        } else {
            assert(j == 1);
        }
        assert(tail_lines(all).take(j - 1) =~= tail_lines(all));
    }
    Table { columns, rows }
}

/// A CSV (or TSV) file as a workbook of one sheet, `Sheet1`.
pub fn csv_kind(raw: &str, delim: char) -> (r: FileKind)
    ensures
        r matches FileKind::Excel { sheets } && sheets@.len() == 1 && sheets@[0].0@ == "Sheet1"@
            && is_csv_table(sheets@[0].1, raw@, delim),
{
    let t = csv_table(raw, delim);
    let mut sheets: Vec<(String, Table)> = Vec::new();
    sheets.push(("Sheet1".to_owned(), t));
    FileKind::Excel { sheets }
}

} // verus!

verus! {

// ------------------------------------------------------------------ spreadsheet grids

/// Whether a grid row has a non-empty cell.
pub open spec fn row_has_value(r: Seq<Cell>) -> bool {
    exists|j: int| 0 <= j < r.len() && !(#[trigger] r[j]).empty_spec()
}

/// The rows of a grid after the header that hold a value, in order.
pub open spec fn value_rows(grid: Seq<Seq<Cell>>) -> Seq<Seq<Cell>> {
    (if grid.len() > 0 { grid.skip(1) } else { grid }).filter(|r: Seq<Cell>| row_has_value(r))
}

/// Whether `t` is the table of a sheet's grid: the header row names the
/// columns (its display texts, trimmed; `Column<n>` for a blank one), and the
/// later rows that hold a value are the rows.
pub open spec fn is_grid_table(t: Table, grid: Seq<Seq<Cell>>) -> bool {
    let header = if grid.len() > 0 { grid[0] } else { seq![] };
    &&& t.columns@.len() == header.len()
    &&& forall|i: int| 0 <= i < header.len() ==> (#[trigger] t.columns@[i])@ == header_name(header[i].display_spec(), i as nat)
    &&& row_views(t.rows@) == value_rows(grid)
}

fn row_has_value_exec(r: &Vec<Cell>) -> (b: bool)
    ensures
        b == row_has_value(r@),
{
    let mut j: usize = 0;
    while j < r.len()
        invariant
            j <= r@.len(),
            forall|q: int| 0 <= q < j ==> (#[trigger] r@[q]).empty_spec(),
        decreases r.len() - j,
    {
        if !r[j].is_empty() {
            return true;
        }
        j = j + 1;
    }
    false
}

/// A spreadsheet text cell: empty when the text is blank.
pub fn text_cell(s: String) -> (r: Cell)
    ensures
        is_blank(s@) ==> r is Empty,
        !is_blank(s@) ==> r == Cell::Text(s),
{
    if blank(s.as_str()) {
        Cell::Empty
    } else {
        Cell::Text(s)
    }
}

/// The table of a sheet from its grid of cells (first row: header).
pub fn grid_table(grid: &Vec<Vec<Cell>>) -> (r: Table)
    ensures
        is_grid_table(r, row_views(grid@)),
{
    let ghost g = row_views(grid@);
    let mut columns: Vec<String> = Vec::new();
    if grid.len() > 0 {
        let header = &grid[0];
        let mut i: usize = 0;
        while i < header.len()
            invariant
                i <= header@.len(),
                columns@.len() == i,
                forall|k: int| 0 <= k < i ==> (#[trigger] columns@[k])@ == header_name(header@[k].display_spec(), k as nat),
            decreases header.len() - i,
        {
            let d = chars_of(header[i].as_display().as_str());
            columns.push(column_name(&d, i));
            i = i + 1;
        }
    }
    let mut rows: Vec<Vec<Cell>> = Vec::new();
    let ghost tail = if g.len() > 0 { g.skip(1) } else { g };
    let mut j: usize = 1;
    proof {
        assert(tail.take(0).filter(|r: Seq<Cell>| row_has_value(r)) =~= seq![]);
        assert(row_views(rows@) =~= seq![]);
    }
    while j < grid.len()
        invariant
            1 <= j,
            g == row_views(grid@),
            tail == (if g.len() > 0 { g.skip(1) } else { g }),
            grid@.len() > 0 ==> j <= grid@.len(),
            grid@.len() == 0 ==> j == 1,
            row_views(rows@) == tail.take(j - 1).filter(|r: Seq<Cell>| row_has_value(r)),
        decreases grid.len() - j,
    {
        proof {
            assert(tail.take(j as int).drop_last() =~= tail.take(j - 1));
            assert(tail.take(j as int).last() == grid@[j as int]@);
            reveal(Seq::filter);
        }
        if row_has_value_exec(&grid[j]) {
            let ghost before = rows@;
            rows.push(dup_row(&grid[j]));
            proof {
                assert(row_views(rows@) =~= row_views(before).push(grid@[j as int]@));
            }
        }
        j = j + 1;
    }
    proof {
        if g.len() > 0 {
            assert(tail.take(g.len() - 1) =~= tail);
        } else {
            assert(tail.take(0) =~= tail);
        }
    }
    Table { columns, rows }
}

/// The last of the first `n` entries named `k`.
pub open spec fn last_named(entries: Seq<(String, Table)>, k: Seq<char>, n: int) -> Option<int>
    decreases n,
{
    if n <= 0 {
        None
    } else if entries[n - 1].0@ == k {
        Some(n - 1)
    } else {
        last_named(entries, k, n - 1)
    }
}

/// Whether `sheets` holds the named sheets of `entries` by name, in name order:
/// each name once, with the table of its last entry.
pub open spec fn is_sheet_map(sheets: Seq<(String, Table)>, entries: Seq<(String, Table)>) -> bool {
    &&& sorted_keys(sheets)
    &&& forall|k: Seq<char>| #[trigger] find_key(sheets, k) is Some <==> last_named(entries, k, entries.len() as int) is Some
    &&& forall|k: Seq<char>| #[trigger] last_named(entries, k, entries.len() as int) is Some
        ==> sheets[find_key(sheets, k)->0].1 == entries[last_named(entries, k, entries.len() as int)->0].1
}

/// A workbook from its readable sheets (name, table), kept by name; refused
/// when it has none.
pub fn workbook_kind(entries: Vec<(String, Table)>) -> (r: Result<FileKind, CoreError>)
    ensures
        entries@.len() == 0 ==> (r matches Err(e) && e.spec() == ErrSpec::Excel("workbook has no readable sheets"@)),
        entries@.len() > 0 ==> (r matches Ok(FileKind::Excel { sheets }) && is_sheet_map(sheets@, entries@)),
{
    if entries.len() == 0 {
        return Err(CoreError::Excel("workbook has no readable sheets".to_owned()));
    }
    let ghost all = entries@;
    let n = entries.len();
    let mut src = entries;
    let mut sheets: Vec<(String, Table)> = Vec::new();
    let mut i: usize = 0;
    while i < n
        invariant
            i <= n,
            n == all.len(),
            src@ == all.skip(i as int),
            sorted_keys(sheets@),
            forall|k: Seq<char>| #[trigger] find_key(sheets@, k) is Some <==> last_named(all, k, i as int) is Some,
            forall|k: Seq<char>| #[trigger] last_named(all, k, i as int) is Some
                ==> sheets@[find_key(sheets@, k)->0].1 == all[last_named(all, k, i as int)->0].1,
        decreases n - i,
    {
        let (name, table) = src.remove(0);
        proof {
            assert(all.skip(i as int)[0] == all[i as int]);
            assert(src@ =~= all.skip(i + 1));
        }
        let ghost nm = name@;
        let idx = smap_insert(&mut sheets, name, table);
        proof {
            lemma_find_key_unique(sheets@, nm, idx as int);
            assert forall|k: Seq<char>| #[trigger] find_key(sheets@, k) is Some <==> last_named(all, k, i + 1) is Some by {
                if k != nm {
                    assert(last_named(all, k, i + 1) == last_named(all, k, i as int));
                }
            }
            assert forall|k: Seq<char>| #[trigger] last_named(all, k, i + 1) is Some
                implies sheets@[find_key(sheets@, k)->0].1 == all[last_named(all, k, i + 1)->0].1 by {
                if k != nm {
                    assert(last_named(all, k, i + 1) == last_named(all, k, i as int));
                }
            }
        }
        i = i + 1;
    }
    Ok(FileKind::Excel { sheets })
}

} // verus!

verus! {

// ------------------------------------------------------------------ what a path holds

/// The kinds of file the workspace opens.
#[derive(Debug)]
pub enum FileType {
    Spreadsheet,
    /// Text with fields separated by the character.
    Delimited(char),
    Pdf,
}

/// `std::path::Path::file_name` of a path, as text.
pub uninterp spec fn path_file_name(p: Seq<char>) -> Option<Seq<char>>;

/// `std::path::Path::extension` of a path, as text.
pub uninterp spec fn path_extension(p: Seq<char>) -> Option<Seq<char>>;

/// Calls `Path::new(p).file_name()` and reads it as text. Its contract names the
/// result (`path_file_name`) and claims nothing more of it.
#[verifier::external_body]
fn file_name(p: &str) -> (r: Option<String>)
    ensures
        match r {
            Some(s) => path_file_name(p@) == Some(s@),
            None => path_file_name(p@) is None,
        },
{
    match std::path::Path::new(p).file_name() {
        Some(s) => match s.to_str() {
            Some(t) => Some(t.to_string()),
            None => None,
        },
        None => None,
    }
}

/// Calls `Path::new(p).extension()` and reads it as text. Its contract names the
/// result (`path_extension`) and claims nothing more of it.
#[verifier::external_body]
fn extension(p: &str) -> (r: Option<String>)
    ensures
        match r {
            Some(s) => path_extension(p@) == Some(s@),
            None => path_extension(p@) is None,
        },
{
    match std::path::Path::new(p).extension() {
        Some(s) => match s.to_str() {
            Some(t) => Some(t.to_string()),
            None => None,
        },
        None => None,
    }
}

/// What a (lower-cased) extension says a file holds.
pub open spec fn file_type_spec(ext: Seq<char>) -> Result<FileType, ErrSpec> {
    if ext == "xlsx"@ || ext == "xls"@ || ext == "xlsm"@ || ext == "xlsb"@ || ext == "ods"@ {
        Ok(FileType::Spreadsheet)
    } else if ext == "csv"@ {
        Ok(FileType::Delimited(','))
    } else if ext == "tsv"@ {
        Ok(FileType::Delimited('\t'))
    } else if ext == "pdf"@ {
        Ok(FileType::Pdf)
    } else {
        Err(ErrSpec::BadArg("unsupported file type '."@ + ext + "' \u{2014} supported: xlsx, xls, xlsm, csv, tsv, pdf"@))
    }
}

/// The lower-cased extension of a path ("" when it has none).
pub open spec fn lower_extension(p: Seq<char>) -> Seq<char> {
    lowercase_of(match path_extension(p) {
        Some(e) => e,
        None => ""@,
    })
}

/// The name a file is loaded under and how to read it, from its path.
pub fn load_plan(path: &str) -> (r: Result<(String, FileType), CoreError>)
    ensures
        match path_file_name(path@) {
            None => r matches Err(e) && e.spec() == ErrSpec::BadArg("path has no file name"@),
            Some(n) => match file_type_spec(lower_extension(path@)) {
                Ok(t) => r matches Ok((x, y)) && x@ == n && y == t,
                Err(es) => r matches Err(e) && e.spec() == es,
            },
        },
{
    let name = match file_name(path) {
        Some(n) => n,
        None => {
            return Err(CoreError::BadArg("path has no file name".to_owned()));
        },
    };
    let raw_ext = match extension(path) {
        Some(e) => e,
        None => "".to_owned(),
    };
    let ext = to_lowercase(raw_ext.as_str());
    let e = ext.as_str();
    if str_eq(e, "xlsx") || str_eq(e, "xls") || str_eq(e, "xlsm") || str_eq(e, "xlsb") || str_eq(e, "ods") {
        Ok((name, FileType::Spreadsheet))
    } else if str_eq(e, "csv") {
        Ok((name, FileType::Delimited(',')))
    } else if str_eq(e, "tsv") {
        Ok((name, FileType::Delimited('\t')))
    } else if str_eq(e, "pdf") {
        Ok((name, FileType::Pdf))
    } else {
        Err(CoreError::BadArg(concat3("unsupported file type '.", e, "' \u{2014} supported: xlsx, xls, xlsm, csv, tsv, pdf")))
    }
}

// ------------------------------------------------------------------ PDF text

/// How many form feeds (page breaks) a text holds.
pub open spec fn form_feeds(s: Seq<char>) -> nat
    decreases s.len(),
{
    if s.len() == 0 {
        0
    } else {
        form_feeds(s.drop_last()) + if s.last() == '\u{c}' { 1nat } else { 0nat }
    }
}

/// The page count a PDF's text suggests: one more than its form feeds.
pub open spec fn page_hint(s: Seq<char>) -> nat {
    if form_feeds(s) < usize::MAX { form_feeds(s) + 1 } else { form_feeds(s) }
}

/// The advice that ends the error for a PDF whose text cannot be extracted.
pub open spec fn ocr_advice() -> Seq<char> {
    ". If this is a scanned PDF (an image), text extraction won't work \u{2014} it needs OCR."@
}

/// What a PDF file holds, from what text extraction gave (`pdf_extract`, run
/// by the caller): the text and the page count it suggests, or, when the text
/// could not be extracted (`Err` with the reason), a PDF error that gives the
/// reason and the advice for scanned files.
pub fn pdf_kind(extracted: Result<String, String>) -> (r: Result<FileKind, CoreError>)
    ensures
        match extracted {
            Ok(t) => r matches Ok(FileKind::Pdf { text, page_count_hint }) && text@ == t@
                && page_count_hint as nat == page_hint(t@),
            Err(d) => r matches Err(e) && e.spec() == ErrSpec::Pdf(d@ + ocr_advice()),
        },
{
    match extracted {
        Ok(text) => {
            let cs = chars_of(text.as_str());
            let mut n: usize = 0;
            let mut i: usize = 0;
            proof {
                assert(cs@.take(0) =~= seq![]);
            }
            while i < cs.len()
                invariant
                    i <= cs@.len(),
                    n <= i,
                    n == form_feeds(cs@.take(i as int)),
                decreases cs.len() - i,
            {
                proof {
                    assert(cs@.take(i + 1).drop_last() =~= cs@.take(i as int));
                }
                if cs[i] == '\u{c}' {
                    n = n + 1;
                }
                i = i + 1;
            }
            proof {
                assert(cs@.take(cs@.len() as int) =~= cs@);
            }
            let pages = if n < usize::MAX { n + 1 } else { n };
            Ok(FileKind::Pdf { text, page_count_hint: pages })
        },
        Err(d) => {
            let m = concat(d.as_str(),
                ". If this is a scanned PDF (an image), text extraction won't work \u{2014} it needs OCR.");
            Err(CoreError::Pdf(m))
        },
    }
}

} // verus!

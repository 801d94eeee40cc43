//! Cells, tables, lenient number parsing and the engine's error type.

use vstd::prelude::*;
use crate::dec::{Dec, decimal_from_str, decimal_display, decimal_checked_div, normalize_pair};
use crate::text::{trim, trim_chars, chars_of, string_of, is_ascii_digit, fold_name, fold, str_eq,
    blank, is_blank, concat, concat3};
use crate::json::{Json, obj_get, keys_sorted, obj_insert};

verus! {

/// A single spreadsheet cell. Numbers are exact decimals, never floats.
#[derive(Debug)]
pub enum Cell {
    Empty,
    Text(String),
    Number(Dec),
    Bool(bool),
}

/// The characters that survive number cleaning: digits, '.', '-'.
pub open spec fn keep_number_chars(s: Seq<char>) -> Seq<char>
    decreases s.len(),
{
    if s.len() == 0 {
        s
    } else {
        let r = keep_number_chars(s.drop_last());
        let c = s.last();
        if is_ascii_digit(c) || c == '.' || c == '-' {
            r.push(c)
        } else {
            r
        }
    }
}

/// What `parse_decimal_lenient` makes of a text: "1,234.50", "GHS 1,234.50",
/// "(500)" (accounting negative) and "12%" are all numbers.
pub open spec fn lenient_spec(raw: Seq<char>) -> Option<(i128, u32)> {
    let s = trim(raw);
    if s.len() == 0 {
        None
    } else {
        let negative_parens = s[0] == '(' && s.last() == ')';
        let kept = keep_number_chars(s);
        if kept.len() == 0 {
            None
        } else {
            let cleaned = if negative_parens && kept[0] != '-' {
                seq!['-'] + kept
            } else {
                kept
            };
            match decimal_from_str(cleaned) {
                None => None,
                Some(d) => if s.last() == '%' {
                    decimal_checked_div(d, (100i128, 0u32))
                } else {
                    Some(d)
                },
            }
        }
    }
}

/// Parses numbers the way accountants write them: "1,234.50", "GHS 1,234.50",
/// "(500)" (accounting negative), "12%" (a hundredth of 12).
pub fn parse_decimal_lenient(raw: &str) -> (r: Option<Dec>)
    ensures
        match r {
            Some(d) => lenient_spec(raw@) == Some(d.pair()),
            None => lenient_spec(raw@) is None,
        },
{
    let all = chars_of(raw);
    let s = trim_chars(&all);
    if s.len() == 0 {
        return None;
    }
    let negative_parens = s[0] == '(' && s[s.len() - 1] == ')';
    let mut kept: Vec<char> = Vec::new();
    let mut i: usize = 0;
    proof {
        assert(s@.take(0) =~= seq![]);
    }
    while i < s.len()
        invariant
            i <= s@.len(),
            kept@ == keep_number_chars(s@.take(i as int)),
        decreases s.len() - i,
    {
        let c = s[i];
        proof {
            assert(s@.take(i + 1).drop_last() =~= s@.take(i as int));
        }
        if ('0' <= c && c <= '9') || c == '.' || c == '-' {
            kept.push(c);
        }
        i = i + 1;
    }
    proof {
        assert(s@.take(s@.len() as int) =~= s@);
    }
    if kept.len() == 0 {
        return None;
    }
    let cleaned = if negative_parens && kept[0] != '-' {
        let mut c2: Vec<char> = Vec::new();
        c2.push('-');
        let mut j: usize = 0;
        while j < kept.len()
            invariant
                j <= kept@.len(),
                c2@ == seq!['-'] + kept@.take(j as int),
            decreases kept.len() - j,
        {
            c2.push(kept[j]);
            j = j + 1;
            proof {
                assert(c2@ =~= seq!['-'] + kept@.take(j as int));
            }
        }
        proof {
            assert(kept@.take(kept@.len() as int) =~= kept@);
        }
        c2
    } else {
        kept
    };
    let text = string_of(cleaned.as_slice());
    let d = match Dec::parse(text.as_str()) {
        Some(d) => d,
        None => {
            return None;
        },
    };
    if s[s.len() - 1] == '%' {
        d.checked_div(&Dec::from_u64(100))
    } else {
        Some(d)
    }
}

impl Cell {
    /// The text a cell shows: numbers normalized, booleans as `true`/`false`.
    pub open spec fn display_spec(self) -> Seq<char> {
        match self {
            Cell::Empty => seq![],
            Cell::Text(s) => s@,
            Cell::Number(d) => decimal_display(normalize_pair(d.pair())),
            Cell::Bool(b) => if b {
                seq!['t', 'r', 'u', 'e']
            } else {
                seq!['f', 'a', 'l', 's', 'e']
            },
        }
    }

    /// The number a cell holds: its decimal, or a text that reads as a number.
    pub open spec fn number_spec(self) -> Option<(i128, u32)> {
        match self {
            Cell::Number(d) => Some(d.pair()),
            Cell::Text(s) => lenient_spec(s@),
            _ => None,
        }
    }

    /// Whether a cell is empty: no value, or text that is only white space.
    pub open spec fn empty_spec(self) -> bool {
        match self {
            Cell::Empty => true,
            Cell::Text(s) => is_blank(s@),
            _ => false,
        }
    }

    /// An identical copy of the cell.
    pub fn dup(&self) -> (r: Cell)
        ensures
            r == *self,
    {
        match self {
            Cell::Empty => Cell::Empty,
            Cell::Text(s) => Cell::Text(s.clone()),
            Cell::Number(d) => Cell::Number(*d),
            Cell::Bool(b) => Cell::Bool(*b),
        }
    }

    /// The text the cell shows.
    pub fn as_display(&self) -> (r: String)
        ensures
            r@ == self.display_spec(),
    {
        match self {
            Cell::Empty => string_of(&[]),
            Cell::Text(s) => s.clone(),
            Cell::Number(d) => d.normalize().to_text(),
            Cell::Bool(b) => {
                if *b {
                    let v = vec!['t', 'r', 'u', 'e'];
                    proof {
                        assert(v@ =~= seq!['t', 'r', 'u', 'e']);
                    }
                    string_of(v.as_slice())
                } else {
                    let v = vec!['f', 'a', 'l', 's', 'e'];
                    proof {
                        assert(v@ =~= seq!['f', 'a', 'l', 's', 'e']);
                    }
                    string_of(v.as_slice())
                }
            },
        }
    }

    /// The cell's number; numbers stored as text are read leniently.
    pub fn as_number(&self) -> (r: Option<Dec>)
        ensures
            match r {
                Some(d) => self.number_spec() == Some(d.pair()),
                None => self.number_spec() is None,
            },
    {
        match self {
            Cell::Number(d) => Some(*d),
            Cell::Text(s) => parse_decimal_lenient(s.as_str()),
            _ => None,
        }
    }

    /// Whether the cell is empty (or only white space).
    pub fn is_empty(&self) -> (r: bool)
        ensures
            r == self.empty_spec(),
    {
        match self {
            Cell::Empty => true,
            Cell::Text(s) => blank(s.as_str()),
            _ => false,
        }
    }
}

/// The cell at column `i` of a row; rows shorter than the header read as empty.
pub open spec fn cell_at(row: Seq<Cell>, i: int) -> Cell {
    if 0 <= i < row.len() {
        row[i]
    } else {
        Cell::Empty
    }
}

/// A copy of the cell at column `i`, or an empty cell past the row's end.
/// A row fitted to `n` columns: its first `n` cells, padded with empty cells.
pub open spec fn fit_row(row: Seq<Cell>, n: nat) -> Seq<Cell> {
    Seq::new(n, |j: int| cell_at(row, j))
}

/// The cells of a row past its first `n` (none when it has at most `n`).
pub open spec fn extra_cells(row: Seq<Cell>, n: nat) -> Seq<Cell> {
    if row.len() > n { row.skip(n as int) } else { seq![] }
}

/// Appends copies of the cells of `row` past its first `n`.
pub fn push_extra_cells(out: &mut Vec<Cell>, row: &Vec<Cell>, n: usize)
    ensures
        final(out)@ == old(out)@ + extra_cells(row@, n as nat),
{
    let ghost start = out@;
    let mut j: usize = n;
    while j < row.len()
        invariant
            n <= j,
            row@.len() > n ==> j <= row@.len(),
            row@.len() <= n ==> j == n,
            out@ == start + (if j > n { row@.subrange(n as int, j as int) } else { seq![] }),
        decreases row.len() - j,
    {
        let ghost before = out@;
        out.push(row[j].dup());
        proof {
            if j > n {
                assert(row@.subrange(n as int, j + 1) =~= row@.subrange(n as int, j as int).push(row@[j as int]));
            } else {
                assert(row@.subrange(n as int, j + 1) =~= seq![row@[j as int]]);
            }
        }
        j = j + 1;
    }
    proof {
        if row@.len() > n {
            assert(row@.subrange(n as int, j as int) =~= row@.skip(n as int));
        } else {
            assert(start + seq![] =~= start);
        }
    }
}

/// A copy of a row fitted to `n` columns.
pub fn fitted_row(row: &Vec<Cell>, n: usize) -> (r: Vec<Cell>)
    ensures
        r@ == fit_row(row@, n as nat),
{
    let mut out: Vec<Cell> = Vec::new();
    let mut j: usize = 0;
    while j < n
        invariant
            j <= n,
            out@.len() == j,
            forall|q: int| 0 <= q < j ==> #[trigger] out@[q] == cell_at(row@, q),
        decreases n - j,
    {
        out.push(get_cell(row, j));
        j = j + 1;
    }
    proof {
        assert(out@ =~= fit_row(row@, n as nat));
    }
    out
}

pub fn get_cell(row: &Vec<Cell>, i: usize) -> (r: Cell)
    ensures
        r == cell_at(row@, i as int),
{
    if i < row.len() {
        row[i].dup()
    } else {
        Cell::Empty
    }
}

/// An identical copy of a row.
pub fn dup_row(row: &Vec<Cell>) -> (r: Vec<Cell>)
    ensures
        r@ == row@,
{
    let mut out: Vec<Cell> = Vec::new();
    let mut i: usize = 0;
    while i < row.len()
        invariant
            i <= row@.len(),
            out@ == row@.take(i as int),
        decreases row.len() - i,
    {
        out.push(row[i].dup());
        i = i + 1;
        proof {
            assert(out@ =~= row@.take(i as int));
        }
    }
    proof {
        assert(row@.take(row@.len() as int) =~= row@);
    }
    out
}

/// An identical copy of a list of strings.
pub fn dup_strings(v: &Vec<String>) -> (r: Vec<String>)
    ensures
        r@ == v@,
{
    let mut out: Vec<String> = Vec::new();
    let mut i: usize = 0;
    while i < v.len()
        invariant
            i <= v@.len(),
            out@ == v@.take(i as int),
        decreases v.len() - i,
    {
        out.push(v[i].clone());
        i = i + 1;
        proof {
            assert(out@ =~= v@.take(i as int));
        }
    }
    proof {
        assert(v@.take(v@.len() as int) =~= v@);
    }
    out
}

/// The rows of a table as sequences of cells.
pub open spec fn row_views(rows: Seq<Vec<Cell>>) -> Seq<Seq<Cell>> {
    rows.map_values(|r: Vec<Cell>| r@)
}

/// A rectangular table: the unit every tool consumes and produces.
#[derive(Debug)]
pub struct Table {
    pub columns: Vec<String>,
    pub rows: Vec<Vec<Cell>>,
}

/// The first column (from `i` on) whose trimmed, lower-cased name equals the
/// trimmed, lower-cased `name`.
pub open spec fn col_index_from(cols: Seq<String>, name: Seq<char>, i: int) -> Option<int>
    decreases cols.len() - i,
{
    if i < 0 || i >= cols.len() {
        None
    } else if fold_name(cols[i]@) == fold_name(name) {
        Some(i)
    } else {
        col_index_from(cols, name, i + 1)
    }
}

pub proof fn lemma_col_index_from(cols: Seq<String>, name: Seq<char>, i: int)
    requires
        0 <= i,
    ensures
        col_index_from(cols, name, i) matches Some(k) ==> i <= k < cols.len() && fold_name(cols[k]@)
            == fold_name(name),
        col_index_from(cols, name, i) is None ==> forall|k: int| i <= k < cols.len() ==> fold_name(
            #[trigger] cols[k]@,
        ) != fold_name(name),
    decreases cols.len() - i,
{
    if i < cols.len() && fold_name(cols[i]@) != fold_name(name) {
        lemma_col_index_from(cols, name, i + 1);
    }
}

/// Whether `j` is the JSON form of cell `c`: null, the number's normalized text,
/// the text, or the boolean.
pub open spec fn is_cell_json(j: Json, c: Cell) -> bool {
    match c {
        Cell::Empty => j is Null,
        Cell::Text(s) => j matches Json::Str(t) && t@ == s@,
        Cell::Number(d) => j matches Json::Str(t) && t@ == decimal_display(normalize_pair(d.pair())),
        Cell::Bool(b) => j == Json::Bool(b),
    }
}

/// The last column among the first `n` whose name is `k`.
pub open spec fn last_col_named(cols: Seq<String>, k: Seq<char>, n: int) -> Option<int>
    decreases n,
{
    if n <= 0 {
        None
    } else if cols[n - 1]@ == k {
        Some(n - 1)
    } else {
        last_col_named(cols, k, n - 1)
    }
}

/// Whether `j` is the JSON object of a row: one entry per column name, holding
/// the cell of the last column of that name.
pub open spec fn is_row_json(j: Json, cols: Seq<String>, row: Seq<Cell>) -> bool {
    &&& j matches Json::Object(e)
    &&& keys_sorted(j->Object_0@)
    &&& forall|k: Seq<char>| #[trigger] obj_get(j->Object_0@, k) is Some <==> last_col_named(cols, k, cols.len() as int) is Some
    &&& forall|k: Seq<char>| #[trigger] last_col_named(cols, k, cols.len() as int) is Some
        ==> is_cell_json(obj_get(j->Object_0@, k)->0, cell_at(row, last_col_named(cols, k, cols.len() as int)->0))
}

/// The JSON form of a cell. Numbers go out as strings so that JSON floats
/// cannot corrupt them.
pub fn cell_to_json(c: &Cell) -> (r: Json)
    ensures
        is_cell_json(r, *c),
{
    match c {
        Cell::Empty => Json::Null,
        Cell::Number(d) => Json::Str(d.normalize().to_text()),
        Cell::Text(s) => Json::Str(s.clone()),
        Cell::Bool(b) => Json::Bool(*b),
    }
}

/// A row as a JSON object keyed by column name.
pub fn row_to_json(columns: &Vec<String>, row: &Vec<Cell>) -> (r: Json)
    ensures
        is_row_json(r, columns@, row@),
{
    let mut obj: Vec<(String, Json)> = Vec::new();
    let mut i: usize = 0;
    while i < columns.len()
        invariant
            i <= columns@.len(),
            keys_sorted(obj@),
            forall|k: Seq<char>| #[trigger] obj_get(obj@, k) is Some <==> last_col_named(columns@, k, i as int) is Some,
            forall|k: Seq<char>| #[trigger] last_col_named(columns@, k, i as int) is Some
                ==> is_cell_json(obj_get(obj@, k)->0, cell_at(row@, last_col_named(columns@, k, i as int)->0)),
        decreases columns.len() - i,
    {
        let cell = get_cell(row, i);
        let v = cell_to_json(&cell);
        let ghost before = obj@;
        obj_insert(&mut obj, columns[i].clone(), v);
        proof {
            assert forall|k: Seq<char>| #[trigger] obj_get(obj@, k) is Some <==> last_col_named(columns@, k, i + 1) is Some by {
                if k != columns@[i as int]@ {
                    assert(obj_get(obj@, k) == obj_get(before, k));
                }
            }
            assert forall|k: Seq<char>| #[trigger] last_col_named(columns@, k, i + 1) is Some
                implies is_cell_json(obj_get(obj@, k)->0, cell_at(row@, last_col_named(columns@, k, i + 1)->0)) by {
                if k != columns@[i as int]@ {
                    assert(obj_get(obj@, k) == obj_get(before, k));
                }
            }
        }
        i = i + 1;
    }
    Json::Object(obj)
}

impl Table {
    /// Position of the column named `name` (trimmed, case-insensitive).
    pub fn col_index(&self, name: &str) -> (r: Option<usize>)
        ensures
            match r {
                Some(i) => col_index_from(self.columns@, name@, 0) == Some(i as int),
                None => col_index_from(self.columns@, name@, 0) is None,
            },
    {
        let want = fold(name);
        let mut i: usize = 0;
        while i < self.columns.len()
            invariant
                i <= self.columns@.len(),
                want@ == fold_name(name@),
                col_index_from(self.columns@, name@, 0) == col_index_from(self.columns@, name@, i as int),
            decreases self.columns.len() - i,
        {
            let c = fold(self.columns[i].as_str());
            if str_eq(c.as_str(), want.as_str()) {
                return Some(i);
            }
            i = i + 1;
        }
        None
    }

    /// The first `n` rows as JSON objects keyed by column name.
    pub fn preview(&self, n: usize) -> (r: Vec<Json>)
        ensures
            r@.len() == if n < self.rows@.len() { n as int } else { self.rows@.len() as int },
            forall|i: int| 0 <= i < r@.len() ==> is_row_json(#[trigger] r@[i], self.columns@, self.rows@[i]@),
    {
        let mut out: Vec<Json> = Vec::new();
        let mut i: usize = 0;
        while i < n && i < self.rows.len()
            invariant
                i <= self.rows@.len(),
                i <= n,
                out@.len() == i,
                forall|k: int| 0 <= k < i ==> is_row_json(#[trigger] out@[k], self.columns@, self.rows@[k]@),
            decreases self.rows.len() - i,
        {
            out.push(row_to_json(&self.columns, &self.rows[i]));
            i = i + 1;
        }
        out
    }

    /// A compact summary the model can reason about without seeing all data:
    /// the columns, the row count and the first `sample_rows` rows.
    pub fn schema_summary(&self, sample_rows: usize) -> (r: Json)
        ensures
            is_schema_json(r, *self, sample_rows as int),
    {
        proof {
            reveal_strlit("columns");
            reveal_strlit("row_count");
            reveal_strlit("sample_rows");
            assert("columns"@[0] != "row_count"@[0]);
            assert("columns"@ != "row_count"@);
            assert("columns"@[0] != "sample_rows"@[0]);
            assert("columns"@ != "sample_rows"@);
            assert("row_count"@ != "sample_rows"@);
        }
        let cols = strings_json(&self.columns);
        let samples = self.preview(sample_rows);
        let mut obj: Vec<(String, Json)> = Vec::new();
        let k1 = "columns".to_owned();
        let k2 = "row_count".to_owned();
        let k3 = "sample_rows".to_owned();
        obj_insert(&mut obj, k1, cols);
        obj_insert(&mut obj, k2, Json::from_u64(self.rows.len() as u64));
        obj_insert(&mut obj, k3, Json::Array(samples));
        Json::Object(obj)
    }
}

/// Whether `r` summarises table `t`: its columns, its row count and its first
/// `sample_rows` rows as JSON objects.
pub open spec fn is_schema_json(r: Json, t: Table, sample_rows: int) -> bool {
    &&& r.get_spec("columns"@) matches Some(Json::Array(cs)) && cs@.len() == t.columns@.len()
        && forall|i: int| 0 <= i < cs@.len() ==> (#[trigger] cs@[i] matches Json::Str(s) && s@ == t.columns@[i]@)
    &&& r.get_spec("row_count"@) matches Some(Json::Number(n)) && n.as_u64 == Some(t.rows@.len() as u64)
    &&& r.get_spec("sample_rows"@) matches Some(Json::Array(rs))
        && rs@.len() == (if sample_rows < t.rows@.len() { sample_rows } else { t.rows@.len() as int })
        && forall|i: int| 0 <= i < rs@.len() ==> is_row_json(#[trigger] rs@[i], t.columns@, t.rows@[i]@)
}

/// A JSON array of strings.
pub fn strings_json(v: &Vec<String>) -> (r: Json)
    ensures
        r matches Json::Array(cs) && cs@.len() == v@.len() && forall|i: int| 0 <= i < cs@.len()
            ==> (#[trigger] cs@[i] matches Json::Str(s) && s@ == v@[i]@),
{
    let mut out: Vec<Json> = Vec::new();
    let mut i: usize = 0;
    while i < v.len()
        invariant
            i <= v@.len(),
            out@.len() == i,
            forall|k: int| 0 <= k < i ==> (#[trigger] out@[k] matches Json::Str(s) && s@ == v@[k]@),
        decreases v.len() - i,
    {
        out.push(Json::Str(v[i].clone()));
        i = i + 1;
    }
    Json::Array(out)
}

/// An engine error as a mathematical value.
pub enum ErrSpec {
    FileNotFound(Seq<char>),
    SheetNotFound(Seq<char>, Seq<char>, Seq<char>),
    ColumnNotFound(Seq<char>, Seq<char>),
    ResultNotFound(Seq<char>),
    BadArg(Seq<char>),
    Expr(Seq<char>),
    Io(Seq<char>),
    Excel(Seq<char>),
    ExcelWrite(Seq<char>),
    Pdf(Seq<char>),
    Ollama(Seq<char>),
    OverwriteRefused(Seq<char>),
}

impl CoreError {
    pub open spec fn spec(&self) -> ErrSpec {
        match self {
            CoreError::FileNotFound(a) => ErrSpec::FileNotFound(a@),
            CoreError::SheetNotFound(a, b, c) => ErrSpec::SheetNotFound(a@, b@, c@),
            CoreError::ColumnNotFound(a, b) => ErrSpec::ColumnNotFound(a@, b@),
            CoreError::ResultNotFound(a) => ErrSpec::ResultNotFound(a@),
            CoreError::BadArg(a) => ErrSpec::BadArg(a@),
            CoreError::Expr(a) => ErrSpec::Expr(a@),
            CoreError::Io(a) => ErrSpec::Io(a@),
            CoreError::Excel(a) => ErrSpec::Excel(a@),
            CoreError::ExcelWrite(a) => ErrSpec::ExcelWrite(a@),
            CoreError::Pdf(a) => ErrSpec::Pdf(a@),
            CoreError::Ollama(a) => ErrSpec::Ollama(a@),
            CoreError::OverwriteRefused(a) => ErrSpec::OverwriteRefused(a@),
        }
    }
}

/// Everything that can go wrong in the engine. Each error carries the text that
/// explains it, so a caller (or the language model) can correct its request.
#[derive(Debug)]
pub enum CoreError {
    FileNotFound(String),
    SheetNotFound(String, String, String),
    ColumnNotFound(String, String),
    ResultNotFound(String),
    BadArg(String),
    Expr(String),
    Io(String),
    Excel(String),
    ExcelWrite(String),
    Pdf(String),
    Ollama(String),
    OverwriteRefused(String),
}

/// The text of an engine error, as the user and the model read it.
pub open spec fn err_message(e: ErrSpec) -> Seq<char> {
    match e {
        ErrSpec::FileNotFound(a) => "file not found in workspace: "@ + a + ". Load it first, or call list_files."@,
        ErrSpec::SheetNotFound(a, b, c) => "sheet '"@ + a + "' not found in '"@ + b + "'. Available sheets: "@ + c,
        ErrSpec::ColumnNotFound(a, b) => "column '"@ + a + "' does not exist. Available columns: "@ + b,
        ErrSpec::ResultNotFound(a) => "result '"@ + a + "' not found. Use the result_id returned by a previous step."@,
        ErrSpec::BadArg(a) => "invalid argument: "@ + a,
        ErrSpec::Expr(a) => "expression error: "@ + a,
        ErrSpec::Io(a) => "I/O error: "@ + a,
        ErrSpec::Excel(a) => "Excel read error: "@ + a,
        ErrSpec::ExcelWrite(a) => "Excel write error: "@ + a,
        ErrSpec::Pdf(a) => "PDF error: "@ + a,
        ErrSpec::Ollama(a) => "Ollama error: "@ + a,
        ErrSpec::OverwriteRefused(a) => "refusing to overwrite a source file: "@ + a,
    }
}

impl CoreError {
    /// The error's text.
    pub fn message(&self) -> (r: String)
        ensures
            r@ == err_message(self.spec()),
    {
        match self {
            CoreError::FileNotFound(a) => concat3("file not found in workspace: ", a.as_str(), ". Load it first, or call list_files."),
            CoreError::SheetNotFound(a, b, c) => {
                let x = concat3("sheet '", a.as_str(), "' not found in '");
                let y = concat3(x.as_str(), b.as_str(), "'. Available sheets: ");
                concat(y.as_str(), c.as_str())
            },
            CoreError::ColumnNotFound(a, b) => {
                let x = concat3("column '", a.as_str(), "' does not exist. Available columns: ");
                concat(x.as_str(), b.as_str())
            },
            CoreError::ResultNotFound(a) => concat3("result '", a.as_str(), "' not found. Use the result_id returned by a previous step."),
            CoreError::BadArg(a) => concat("invalid argument: ", a.as_str()),
            CoreError::Expr(a) => concat("expression error: ", a.as_str()),
            CoreError::Io(a) => concat("I/O error: ", a.as_str()),
            CoreError::Excel(a) => concat("Excel read error: ", a.as_str()),
            CoreError::ExcelWrite(a) => concat("Excel write error: ", a.as_str()),
            CoreError::Pdf(a) => concat("PDF error: ", a.as_str()),
            CoreError::Ollama(a) => concat("Ollama error: ", a.as_str()),
            CoreError::OverwriteRefused(a) => concat("refusing to overwrite a source file: ", a.as_str()),
        }
    }
}

} // verus!

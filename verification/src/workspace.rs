//! The in-memory workspace: spreadsheets and PDFs the user has opened, plus
//! derived result tables produced by tools. Source files are read-only by
//! construction: exports always go to new files in the export directory.

use vstd::prelude::*;
use crate::audit::AuditLog;
use crate::cells::{Cell, Table, CoreError, ErrSpec, dup_strings};
use crate::json::{Json, obj_insert, keys_sorted};
use crate::smap::{sorted_keys, find_key, smap_find, smap_insert, lemma_find_key_unique};
use crate::text::{lowercase_of, to_lowercase, chars_of, string_of, str_eq, concat, concat3, nat_digits, count_within, slice_vec,
    u64_to_string};

verus! {

/// What a loaded file holds.
#[derive(Debug)]
pub enum FileKind {
    /// Sheets by name, in name order.
    Excel { sheets: Vec<(String, Table)> },
    Pdf { text: String, page_count_hint: usize },
}

/// A file the user opened.
#[derive(Debug)]
pub struct LoadedFile {
    pub path: String,
    pub name: String,
    pub kind: FileKind,
}

/// Lineage of a derived result: what produced it and from what. Powers the
/// "changes made" view (added columns, row-count deltas).
pub struct ResultMeta {
    pub op: String,
    pub source_id: Option<String>,
    pub source_label: String,
    pub source_columns: Vec<String>,
    pub source_row_count: usize,
    pub summary: String,
}

impl ResultMeta {
    /// Lineage with every field empty.
    pub fn empty() -> (r: ResultMeta)
        ensures
            r.op@ == Seq::<char>::empty(),
            r.source_id is None,
            r.source_label@ == Seq::<char>::empty(),
            r.source_columns@.len() == 0,
            r.source_row_count == 0,
            r.summary@ == Seq::<char>::empty(),
    {
        ResultMeta {
            op: String::new(),
            source_id: None,
            source_label: String::new(),
            source_columns: Vec::new(),
            source_row_count: 0,
            summary: String::new(),
        }
    }
}

/// A derived table with its lineage.
pub struct StoredResult {
    pub table: Table,
    pub meta: ResultMeta,
}

/// Open files, derived results and the journal.
pub struct Workspace {
    files: Vec<(String, LoadedFile)>,
    results: Vec<(String, StoredResult)>,
    next_result: u32,
    pub audit: AuditLog,
    pub export_dir: String,
}

/// `s[0] + sep + s[1] + sep + ...` (`[..].join(sep)`).
pub open spec fn join(s: Seq<Seq<char>>, sep: Seq<char>) -> Seq<char>
    decreases s.len(),
{
    if s.len() == 0 {
        seq![]
    } else if s.len() == 1 {
        s[0]
    } else {
        join(s.drop_last(), sep) + sep + s.last()
    }
}

/// Joins strings with a separator.
pub fn join_strings(v: &Vec<String>, sep: &str) -> (r: String)
    ensures
        r@ == join(v@.map_values(|x: String| x@), sep@),
{
    let ghost sv = v@.map_values(|x: String| x@);
    let mut out = string_of(&[]);
    let mut i: usize = 0;
    proof {
        assert(sv.take(0) =~= seq![]);
    }
    while i < v.len()
        invariant
            i <= v@.len(),
            sv == v@.map_values(|x: String| x@),
            out@ == join(sv.take(i as int), sep@),
        decreases v.len() - i,
    {
        if i == 0 {
            out = v[0].clone();
            proof {
                assert(sv.take(1) =~= seq![v@[0]@]);
            }
        } else {
            out = concat3(out.as_str(), sep, v[i].as_str());
            proof {
                assert(sv.take(i + 1).drop_last() =~= sv.take(i as int));
            }
        }
        i = i + 1;
    }
    proof {
        assert(sv.take(v@.len() as int) =~= sv);
    }
    out
}

/// The keys of a map, as strings.
pub fn map_keys<V>(e: &Vec<(String, V)>) -> (r: Vec<String>)
    ensures
        r@.len() == e@.len(),
        forall|i: int| 0 <= i < e@.len() ==> (#[trigger] r@[i])@ == e@[i].0@,
{
    let mut out: Vec<String> = Vec::new();
    let mut i: usize = 0;
    while i < e.len()
        invariant
            i <= e@.len(),
            out@.len() == i,
            forall|k: int| 0 <= k < i ==> (#[trigger] out@[k])@ == e@[k].0@,
        decreases e.len() - i,
    {
        out.push(e[i].0.clone());
        i = i + 1;
    }
    out
}

/// The key texts of a map.
pub open spec fn key_texts<V>(e: Seq<(String, V)>) -> Seq<Seq<char>> {
    e.map_values(|p: (String, V)| p.0@)
}

proof fn lemma_keys_join<V>(e: Seq<(String, V)>, r: Seq<String>)
    requires
        r.len() == e.len(),
        forall|i: int| 0 <= i < e.len() ==> (#[trigger] r[i])@ == e[i].0@,
    ensures
        r.map_values(|x: String| x@) == key_texts(e),
{
    assert(r.map_values(|x: String| x@) =~= key_texts(e));
}

/// The first entry (from `i` on) whose file name, lower-cased, equals `name`
/// lower-cased.
pub open spec fn first_file_ci(files: Seq<(String, LoadedFile)>, name: Seq<char>, i: int) -> Option<int>
    decreases files.len() - i,
{
    if i < 0 || i >= files.len() {
        None
    } else if lowercase_of(files[i].1.name@) == lowercase_of(name) {
        Some(i)
    } else {
        first_file_ci(files, name, i + 1)
    }
}

/// The file a name refers to: the exact name, else the first name that matches
/// ignoring case.
pub open spec fn file_index(files: Seq<(String, LoadedFile)>, name: Seq<char>) -> Option<int> {
    match find_key(files, name) {
        Some(i) => Some(i),
        None => first_file_ci(files, name, 0),
    }
}

/// The first sheet (from `i` on) whose name, lower-cased, equals `name` lower-cased.
pub open spec fn first_sheet_ci(sheets: Seq<(String, Table)>, name: Seq<char>, i: int) -> Option<int>
    decreases sheets.len() - i,
{
    if i < 0 || i >= sheets.len() {
        None
    } else if lowercase_of(sheets[i].0@) == lowercase_of(name) {
        Some(i)
    } else {
        first_sheet_ci(sheets, name, i + 1)
    }
}

/// The sheet a name refers to: the exact name, else the first that matches
/// ignoring case.
pub open spec fn sheet_index(sheets: Seq<(String, Table)>, name: Seq<char>) -> Option<int> {
    match first_sheet_exact(sheets, name, 0) {
        Some(i) => Some(i),
        None => first_sheet_ci(sheets, name, 0),
    }
}

/// The first sheet (from `i` on) named exactly `name`.
pub open spec fn first_sheet_exact(sheets: Seq<(String, Table)>, name: Seq<char>, i: int) -> Option<int>
    decreases sheets.len() - i,
{
    if i < 0 || i >= sheets.len() {
        None
    } else if sheets[i].0@ == name {
        Some(i)
    } else {
        first_sheet_exact(sheets, name, i + 1)
    }
}

proof fn lemma_first_sheet_ci(sheets: Seq<(String, Table)>, name: Seq<char>, i: int)
    requires
        0 <= i,
    ensures
        first_sheet_ci(sheets, name, i) matches Some(k) ==> i <= k < sheets.len(),
    decreases sheets.len() - i,
{
    if i < sheets.len() && lowercase_of(sheets[i].0@) != lowercase_of(name) {
        lemma_first_sheet_ci(sheets, name, i + 1);
    }
}

pub open spec fn quoted(s: Seq<char>) -> Seq<char> {
    seq!['\''] + s + seq!['\'']
}

/// What `Workspace::sheet` answers for a file entry and an optional sheet name.
pub open spec fn sheet_of_spec(f: LoadedFile, sheet: Option<Seq<char>>) -> Result<Table, ErrSpec> {
    match f.kind {
        FileKind::Excel { sheets } => match sheet {
            Some(s) => match sheet_index(sheets@, s) {
                Some(i) => Ok(sheets@[i].1),
                None => Err(ErrSpec::SheetNotFound(s, f.name@, join(key_texts(sheets@), ", "@))),
            },
            None => if sheets@.len() == 1 {
                Ok(sheets@[0].1)
            } else {
                Err(ErrSpec::BadArg(quoted(f.name@) + " has several sheets ("@ + join(key_texts(sheets@), ", "@)
                    + ") \u{2014} specify one"@))
            },
        },
        FileKind::Pdf { .. } => Err(ErrSpec::BadArg(quoted(f.name@)
            + " is a PDF, not a spreadsheet \u{2014} use extract_pdf_text / extract_pdf_amounts"@)),
    }
}

/// The label a source gets in summaries: `file/sheet`, or just `file`.
pub open spec fn source_label(file: Seq<char>, sheet: Option<Seq<char>>) -> Seq<char> {
    match sheet {
        Some(s) => file + seq!['/'] + s,
        None => file,
    }
}

/// The identifier of the `n`-th stored result: `r<n>`.
pub open spec fn result_id(n: nat) -> Seq<char> {
    seq!['r'] + nat_digits(n)
}

/// Whether `id` is one of the identifiers handed out so far (`r1` to `r<counter>`).
pub open spec fn issued(id: Seq<char>, counter: int) -> bool {
    exists|k: nat| 1 <= k <= counter && id == #[trigger] result_id(k)
}

/// Different results get different identifiers.
pub proof fn lemma_result_id_injective(m: nat, n: nat)
    requires
        result_id(m) == result_id(n),
    ensures
        m == n,
{
    assert(result_id(m).drop_first() =~= nat_digits(m));
    assert(result_id(n).drop_first() =~= nat_digits(n));
    crate::text::lemma_nat_digits_injective(m, n);
}

/// What resolving a tool "source" gives: a stored result by id, else a sheet of
/// a loaded file (with the label `file/sheet` or `file`), else an error.
pub open spec fn resolve_spec(ws: Workspace, rid: Option<Seq<char>>, file: Option<Seq<char>>, sheet: Option<Seq<char>>) -> Result<(Table, Seq<char>), ErrSpec> {
    match rid {
        Some(r) => match find_key(ws.results_spec(), r) {
            Some(i) => Ok((ws.results_spec()[i].1.table, r)),
            None => Err(ErrSpec::ResultNotFound(r)),
        },
        None => match file {
            Some(f) => match file_index(ws.files_spec(), f) {
                None => Err(ErrSpec::FileNotFound(f)),
                Some(i) => match sheet_of_spec(ws.files_spec()[i].1, sheet) {
                    Ok(t) => Ok((t, source_label(f, sheet))),
                    Err(e) => Err(e),
                },
            },
            None => Err(ErrSpec::BadArg("provide either result_id or file (with optional sheet)"@)),
        },
    }
}

/// `r` is the answer that `s` describes.
pub open spec fn source_outcome(r: Result<(&Table, String), CoreError>, s: Result<(Table, Seq<char>), ErrSpec>) -> bool {
    match s {
        Ok((t, l)) => r matches Ok((x, lab)) && *x == t && lab@ == l,
        Err(es) => r matches Err(e) && e.spec() == es,
    }
}

/// Whether two paths name the same file as `std::path::Path` compares them
/// (component by component: `out//x.xlsx` and `out/x.xlsx` are the same).
pub uninterp spec fn paths_equal(a: Seq<char>, b: Seq<char>) -> bool;

/// Calls `Path::new(a) == Path::new(b)`. Its contract names the answer
/// (`paths_equal`) and claims only that a path text equals itself as a path.
#[verifier::external_body]
fn same_path(a: &str, b: &str) -> (r: bool)
    ensures
        r == paths_equal(a@, b@),
        a@ == b@ ==> r,
{
    std::path::Path::new(a) == std::path::Path::new(b)
}

impl Workspace {
    /// Files and results are kept sorted by name; the journal is well formed.
    pub closed spec fn wf(&self) -> bool {
        &&& sorted_keys(self.files@)
        &&& sorted_keys(self.results@)
        &&& self.audit.wf()
        &&& forall|i: int| 0 <= i < self.results@.len() ==> issued(#[trigger] self.results@[i].0@, self.next_result as int)
    }

    /// Open files by name.
    pub closed spec fn files_spec(&self) -> Seq<(String, LoadedFile)> {
        self.files@
    }

    /// Derived results by id.
    pub closed spec fn results_spec(&self) -> Seq<(String, StoredResult)> {
        self.results@
    }

    /// The journal.
    pub closed spec fn audit_spec(&self) -> AuditLog {
        self.audit
    }

    /// Where exports go.
    pub closed spec fn export_dir_spec(&self) -> String {
        self.export_dir
    }

    /// A well-formed workspace has a well-formed journal.
    pub proof fn lemma_wf_journal(&self)
        requires
            self.wf(),
        ensures
            self.audit_spec().wf(),
    {
    }

    /// How many results have been stored since the last clear.
    pub closed spec fn counter(&self) -> u32 {
        self.next_result
    }

    /// An empty workspace exporting into `export_dir`.
    pub fn new(export_dir: String) -> (r: Workspace)
        ensures
            r.wf(),
            r.files_spec().len() == 0,
            r.results_spec().len() == 0,
            r.counter() == 0,
            r.export_dir_spec() == export_dir,
            r.audit_spec().entries_spec().len() == 0,
    {
        Workspace {
            files: Vec::new(),
            results: Vec::new(),
            next_result: 0,
            audit: AuditLog::new(),
            export_dir,
        }
    }

    /// Adds (or replaces) a loaded file under its name; returns its description.
    pub fn add_file(&mut self, file: LoadedFile) -> (r: Json)
        requires
            old(self).wf(),
        ensures
            final(self).wf(),
            find_key(final(self).files_spec(), file.name@) is Some,
            final(self).files_spec()[find_key(final(self).files_spec(), file.name@)->0].1 == file,
            forall|k: Seq<char>| k != file.name@ ==> (find_key(final(self).files_spec(), k) is Some
                <==> find_key(old(self).files_spec(), k) is Some),
            final(self).results_spec() == old(self).results_spec(),
            final(self).counter() == old(self).counter(),
            final(self).audit_spec() == old(self).audit_spec(),
            final(self).export_dir_spec() == old(self).export_dir_spec(),
            is_file_description(r, file.name@, file.kind),
    {
        let summary = describe_kind(file.name.as_str(), &file.kind);
        let name = file.name.clone();
        let ghost f = file;
        let idx = smap_insert(&mut self.files, name, file);
        proof {
            lemma_find_key_unique(self.files@, f.name@, idx as int);
        }
        summary
    }

    /// Looks up a loaded file: the exact name first, then ignoring case.
    pub fn file(&self, name: &str) -> (r: Result<&LoadedFile, CoreError>)
        requires
            self.wf(),
        ensures
            match r {
                Ok(f) => file_index(self.files_spec(), name@) matches Some(i) && *f == self.files_spec()[i].1,
                Err(e) => file_index(self.files_spec(), name@) is None && e.spec() == ErrSpec::FileNotFound(name@),
            },
    {
        match smap_find(&self.files, name) {
            Some(i) => {
                return Ok(&self.files[i].1);
            },
            None => {},
        }
        let want = to_lowercase(name);
        let mut i: usize = 0;
        while i < self.files.len()
            invariant
                i <= self.files@.len(),
                want@ == lowercase_of(name@),
                find_key(self.files@, name@) is None,
                first_file_ci(self.files@, name@, 0) == first_file_ci(self.files@, name@, i as int),
            decreases self.files.len() - i,
        {
            let l = to_lowercase(self.files[i].1.name.as_str());
            if str_eq(l.as_str(), want.as_str()) {
                return Ok(&self.files[i].1);
            }
            i = i + 1;
        }
        Err(CoreError::FileNotFound(name.to_owned()))
    }

    /// The table of a sheet of a loaded spreadsheet. Without a sheet name the
    /// workbook must have exactly one sheet.
    pub fn sheet(&self, file: &str, sheet: Option<&str>) -> (r: Result<&Table, CoreError>)
        requires
            self.wf(),
        ensures
            match file_index(self.files_spec(), file@) {
                None => r matches Err(e) && e.spec() == ErrSpec::FileNotFound(file@),
                Some(i) => match sheet_of_spec(self.files_spec()[i].1, opt_view(sheet)) {
                    Ok(t) => r matches Ok(x) && *x == t,
                    Err(es) => r matches Err(e) && e.spec() == es,
                },
            },
    {
        let f = match self.file(file) {
            Ok(f) => f,
            Err(e) => {
                return Err(e);
            },
        };
        sheet_of(f, sheet)
    }

    /// Resolves a tool "source": a prior result id, or a file (and sheet).
    /// Returns the table and the label used in summaries.
    pub fn resolve_source(&self, result_id: Option<&str>, file: Option<&str>, sheet: Option<&str>) -> (r: Result<(&Table, String), CoreError>)
        requires
            self.wf(),
        ensures
            source_outcome(r, resolve_spec(*self, opt_view(result_id), opt_view(file), opt_view(sheet))),
    {
        if let Some(rid) = result_id {
            match smap_find(&self.results, rid) {
                Some(i) => {
                    return Ok((&self.results[i].1.table, rid.to_owned()));
                },
                None => {
                    return Err(CoreError::ResultNotFound(rid.to_owned()));
                },
            }
        }
        if let Some(f) = file {
            let t = match self.sheet(f, sheet) {
                Ok(t) => t,
                Err(e) => {
                    return Err(e);
                },
            };
            let label = match sheet {
                Some(s) => concat3(f, "/", s),
                None => f.to_owned(),
            };
            proof {
                reveal_strlit("/");
                assert(label@ == source_label(f@, opt_view(sheet)));
                let i = file_index(self.files_spec(), f@)->0;
                assert(sheet_of_spec(self.files_spec()[i].1, opt_view(sheet)) == Ok::<Table, ErrSpec>(*t));
            }
            return Ok((t, label));
        }
        Err(CoreError::BadArg("provide either result_id or file (with optional sheet)".to_owned()))
    }

    /// Whether another result can be numbered.
    pub fn has_room(&self) -> (r: bool)
        ensures
            r == (self.counter() < u32::MAX),
    {
        self.next_result < u32::MAX
    }

    /// Stores a derived table with empty lineage; returns its id.
    pub fn store_result(&mut self, table: Table) -> (r: String)
        requires
            old(self).wf(),
            old(self).counter() < u32::MAX,
        ensures
            final(self).wf(),
            final(self).counter() == old(self).counter() + 1,
            r@ == result_id(final(self).counter() as nat),
            find_key(final(self).results_spec(), r@) is Some,
            final(self).results_spec()[find_key(final(self).results_spec(), r@)->0].1.table == table,
            final(self).files_spec() == old(self).files_spec(),
            final(self).audit_spec() == old(self).audit_spec(),
    {
        self.store_result_meta(table, ResultMeta::empty())
    }

    /// Stores a derived table with its lineage; returns its id `r<n>`, where `n`
    /// counts the results stored since the last clear.
    pub fn store_result_meta(&mut self, table: Table, meta: ResultMeta) -> (r: String)
        requires
            old(self).wf(),
            old(self).counter() < u32::MAX,
        ensures
            final(self).wf(),
            final(self).counter() == old(self).counter() + 1,
            r@ == result_id(final(self).counter() as nat),
            find_key(old(self).results_spec(), r@) is None,
            find_key(final(self).results_spec(), r@) is Some,
            final(self).results_spec()[find_key(final(self).results_spec(), r@)->0].1.table == table,
            final(self).results_spec()[find_key(final(self).results_spec(), r@)->0].1.meta == meta,
            forall|k: Seq<char>| k != r@ ==> (find_key(final(self).results_spec(), k) is Some
                <==> find_key(old(self).results_spec(), k) is Some),
            forall|k: Seq<char>| k != r@ && find_key(old(self).results_spec(), k) is Some
                ==> final(self).results_spec()[find_key(final(self).results_spec(), k)->0]
                == old(self).results_spec()[find_key(old(self).results_spec(), k)->0],
            final(self).files_spec() == old(self).files_spec(),
            final(self).audit_spec() == old(self).audit_spec(),
            final(self).export_dir_spec() == old(self).export_dir_spec(),
    {
        let ghost before = self.results@;
        let ghost c = self.next_result as int;
        self.next_result = self.next_result + 1;
        let digits = u64_to_string(self.next_result as u64);
        let id = concat("r", digits.as_str());
        proof {
            reveal_strlit("r");
            assert(id@ == result_id((c + 1) as nat));
            assert forall|i: int| 0 <= i < before.len() implies (#[trigger] before[i]).0@ != id@ by {
                assert(issued(before[i].0@, c));
                let k = choose|k: nat| 1 <= k <= c && before[i].0@ == #[trigger] result_id(k);
                if before[i].0@ == id@ {
                    lemma_result_id_injective(k, (c + 1) as nat);
                }
            }
            assert(find_key(before, id@) is None);
        }
        let key = id.clone();
        let ghost t = table;
        let ghost m = meta;
        let idx = smap_insert(&mut self.results, key, StoredResult { table, meta });
        proof {
            lemma_find_key_unique(self.results@, id@, idx as int);
            let after = self.results@;
            assert(after == before.insert(idx as int, after[idx as int]));
            assert forall|i: int| 0 <= i < after.len() implies issued(#[trigger] after[i].0@, c + 1) by {
                if i == idx as int {
                    assert(after[i].0@ == result_id((c + 1) as nat));
                } else {
                    let j = if i < idx as int { i } else { i - 1 };
                    assert(0 <= j < before.len());
                    assert(after[i] == before.insert(idx as int, after[idx as int])[i]);
                    assert(after[i] == before[j]);
                    assert(issued(before[j].0@, c));
                    let k = choose|k: nat| 1 <= k <= c && before[j].0@ == #[trigger] result_id(k);
                    assert(1 <= k <= c + 1 && after[i].0@ == result_id(k));
                }
            }
        }
        id
    }

    /// The table of a stored result.
    pub fn result(&self, id: &str) -> (r: Result<&Table, CoreError>)
        requires
            self.wf(),
        ensures
            match find_key(self.results_spec(), id@) {
                Some(i) => r matches Ok(t) && *t == self.results_spec()[i].1.table,
                None => r matches Err(e) && e.spec() == ErrSpec::ResultNotFound(id@),
            },
    {
        match smap_find(&self.results, id) {
            Some(i) => Ok(&self.results[i].1.table),
            None => Err(CoreError::ResultNotFound(id.to_owned())),
        }
    }

    /// A stored result with its lineage.
    pub fn stored(&self, id: &str) -> (r: Option<&StoredResult>)
        requires
            self.wf(),
        ensures
            match find_key(self.results_spec(), id@) {
                Some(i) => r == Some(&self.results_spec()[i].1),
                None => r is None,
            },
    {
        match smap_find(&self.results, id) {
            Some(i) => Some(&self.results[i].1),
            None => None,
        }
    }

    /// Clears derived results ("New chat"). Loaded files are kept and result
    /// ids start again at `r1`.
    pub fn clear_results(&mut self)
        requires
            old(self).wf(),
        ensures
            final(self).wf(),
            final(self).results_spec().len() == 0,
            final(self).counter() == 0,
            final(self).files_spec() == old(self).files_spec(),
            final(self).audit_spec() == old(self).audit_spec(),
            final(self).export_dir_spec() == old(self).export_dir_spec(),
    {
        self.results = Vec::new();
        self.next_result = 0;
    }

    /// Whether `p` is the path of a loaded (source) file.
    pub fn is_source_path(&self, p: &str) -> (r: bool)
        ensures
            r == exists|i: int| 0 <= i < self.files_spec().len() && paths_equal((#[trigger] self.files_spec()[i]).1.path@, p@),
    {
        let mut i: usize = 0;
        while i < self.files.len()
            invariant
                i <= self.files@.len(),
                forall|k: int| 0 <= k < i ==> !paths_equal((#[trigger] self.files@[k]).1.path@, p@),
            decreases self.files.len() - i,
        {
            if same_path(self.files[i].1.path.as_str(), p) {
                return true;
            }
            i = i + 1;
        }
        false
    }

    /// Journals a tool call; returns the entry's number. Files and results are
    /// untouched.
    pub fn journal(&mut self, tool: &str, args: Json, summary: String, ok: bool) -> (r: u32)
        requires
            old(self).wf(),
            old(self).audit_spec().entries_spec().len() < u32::MAX,
        ensures
            final(self).wf(),
            final(self).files_spec() == old(self).files_spec(),
            final(self).results_spec() == old(self).results_spec(),
            final(self).counter() == old(self).counter(),
            final(self).export_dir_spec() == old(self).export_dir_spec(),
            final(self).audit_spec().entries_spec().len() == old(self).audit_spec().entries_spec().len() + 1,
            final(self).audit_spec().entries_spec().drop_last() == old(self).audit_spec().entries_spec(),
            final(self).audit_spec().entries_spec().last().tool@ == tool@,
            final(self).audit_spec().entries_spec().last().summary@ == summary@,
            final(self).audit_spec().entries_spec().last().args == args,
            final(self).audit_spec().entries_spec().last().ok == ok,
            r as int == final(self).audit_spec().entries_spec().len(),
    {
        self.audit.record(tool, args, summary, ok)
    }

    /// Whether another journal entry can be numbered.
    pub fn journal_has_room(&self) -> (r: bool)
        requires
            self.wf(),
        ensures
            r == (self.audit_spec().entries_spec().len() < u32::MAX),
    {
        self.audit.has_room()
    }

    /// The open files, in name order.
    pub fn files(&self) -> (r: &Vec<(String, LoadedFile)>)
        ensures
            r@ == self.files_spec(),
    {
        &self.files
    }

    /// The stored results, in id order.
    pub fn results(&self) -> (r: &Vec<(String, StoredResult)>)
        ensures
            r@ == self.results_spec(),
    {
        &self.results
    }
}

pub open spec fn opt_view(o: Option<&str>) -> Option<Seq<char>> {
    match o {
        Some(s) => Some(s@),
        None => None,
    }
}

/// The sheet of a loaded file.
pub fn sheet_of<'a>(f: &'a LoadedFile, sheet: Option<&str>) -> (r: Result<&'a Table, CoreError>)
    ensures
        match sheet_of_spec(*f, opt_view(sheet)) {
            Ok(t) => r matches Ok(x) && *x == t,
            Err(es) => r matches Err(e) && e.spec() == es,
        },
{
    match &f.kind {
        FileKind::Excel { sheets } => {
            match sheet {
                Some(s) => {
                    match find_sheet(sheets, s) {
                        Some(i) => Ok(&sheets[i].1),
                        None => {
                            let keys = map_keys(sheets);
                            proof {
                                lemma_keys_join(sheets@, keys@);
                            }
                            Err(CoreError::SheetNotFound(
                                s.to_owned(),
                                f.name.clone(),
                                join_strings(&keys, ", "),
                            ))
                        },
                    }
                },
                None => {
                    if sheets.len() == 1 {
                        Ok(&sheets[0].1)
                    } else {
                        let keys = map_keys(sheets);
                        proof {
                            lemma_keys_join(sheets@, keys@);
                        }
                        let j = join_strings(&keys, ", ");
                        let a = concat3("'", f.name.as_str(), "' has several sheets (");
                        let b = concat3(a.as_str(), j.as_str(), ") \u{2014} specify one");
                        proof {
                            assert(b@ =~= quoted(f.name@) + " has several sheets ("@ + j@ + ") \u{2014} specify one"@) by {
                                reveal_strlit("'");
                                reveal_strlit("' has several sheets (");
                                reveal_strlit(" has several sheets (");
                            }
                        }
                        Err(CoreError::BadArg(b))
                    }
                },
            }
        },
        FileKind::Pdf { .. } => {
            let m = concat3("'", f.name.as_str(),
                "' is a PDF, not a spreadsheet \u{2014} use extract_pdf_text / extract_pdf_amounts");
            proof {
                assert(m@ =~= quoted(f.name@) + " is a PDF, not a spreadsheet \u{2014} use extract_pdf_text / extract_pdf_amounts"@) by {
                    reveal_strlit("'");
                    reveal_strlit("' is a PDF, not a spreadsheet \u{2014} use extract_pdf_text / extract_pdf_amounts");
                    reveal_strlit(" is a PDF, not a spreadsheet \u{2014} use extract_pdf_text / extract_pdf_amounts");
                }
            }
            Err(CoreError::BadArg(m))
        },
    }
}

/// Finds a sheet: the exact name, else the first that matches ignoring case.
fn find_sheet(sheets: &Vec<(String, Table)>, s: &str) -> (r: Option<usize>)
    ensures
        match r {
            Some(i) => sheet_index(sheets@, s@) == Some(i as int) && i < sheets@.len(),
            None => sheet_index(sheets@, s@) is None,
        },
{
    let mut i: usize = 0;
    while i < sheets.len()
        invariant
            i <= sheets@.len(),
            first_sheet_exact(sheets@, s@, 0) == first_sheet_exact(sheets@, s@, i as int),
        decreases sheets.len() - i,
    {
        if str_eq(sheets[i].0.as_str(), s) {
            return Some(i);
        }
        i = i + 1;
    }
    proof {
        lemma_first_sheet_ci(sheets@, s@, 0);
    }
    let want = to_lowercase(s);
    let mut j: usize = 0;
    while j < sheets.len()
        invariant
            j <= sheets@.len(),
            want@ == lowercase_of(s@),
            first_sheet_exact(sheets@, s@, 0) is None,
            first_sheet_ci(sheets@, s@, 0) == first_sheet_ci(sheets@, s@, j as int),
        decreases sheets.len() - j,
    {
        let l = to_lowercase(sheets[j].0.as_str());
        if str_eq(l.as_str(), want.as_str()) {
            return Some(j);
        }
        j = j + 1;
    }
    None
}

/// Whether `j` describes a loaded file: its name, its type, and for a
/// spreadsheet each sheet's name, columns and row count.
pub open spec fn is_file_description(j: Json, name: Seq<char>, kind: FileKind) -> bool {
    &&& j.get_spec("file"@) matches Some(Json::Str(n)) && n@ == name
    &&& match kind {
        FileKind::Excel { sheets } => {
            &&& j.get_spec("type"@) matches Some(Json::Str(t)) && t@ == "spreadsheet"@
            &&& j.get_spec("sheets"@) matches Some(Json::Array(items)) && items@.len() == sheets@.len()
                && forall|i: int| 0 <= i < items@.len() ==> is_sheet_description(#[trigger] items@[i], sheets@[i].0@, sheets@[i].1)
        },
        FileKind::Pdf { text, page_count_hint } => {
            &&& j.get_spec("type"@) matches Some(Json::Str(t)) && t@ == "pdf"@
            &&& j.get_spec("pages_approx"@) matches Some(Json::Number(n)) && n.as_u64 == Some(page_count_hint as u64)
        },
    }
}

/// Whether `j` describes one sheet: its name, its columns and its row count.
pub open spec fn is_sheet_description(j: Json, name: Seq<char>, t: Table) -> bool {
    &&& j.get_spec("sheet"@) matches Some(Json::Str(n)) && n@ == name
    &&& j.get_spec("columns"@) matches Some(Json::Array(cs)) && cs@.len() == t.columns@.len()
        && forall|i: int| 0 <= i < cs@.len() ==> (#[trigger] cs@[i] matches Json::Str(s) && s@ == t.columns@[i]@)
    &&& j.get_spec("row_count"@) matches Some(Json::Number(n)) && n.as_u64 == Some(t.rows@.len() as u64)
}

fn key(s: &str) -> (r: String)
    ensures
        r@ == s@,
{
    s.to_owned()
}

/// The description of one sheet.
pub fn describe_sheet(name: &String, t: &Table) -> (r: Json)
    ensures
        is_sheet_description(r, name@, *t),
{
    proof {
        reveal_strlit("sheet");
        reveal_strlit("columns");
        reveal_strlit("row_count");
        assert("sheet"@[0] != "columns"@[0]);
        assert("sheet"@[0] != "row_count"@[0]);
        assert("columns"@[0] != "row_count"@[0]);
    }
    let mut obj: Vec<(String, Json)> = Vec::new();
    obj_insert(&mut obj, key("sheet"), Json::Str(name.clone()));
    obj_insert(&mut obj, key("columns"), crate::cells::strings_json(&t.columns));
    obj_insert(&mut obj, key("row_count"), Json::from_u64(t.rows.len() as u64));
    Json::Object(obj)
}

/// The description of a loaded file: name, type, and sheets (columns and row
/// counts) or the PDF's size.
pub fn describe_kind(name: &str, kind: &FileKind) -> (r: Json)
    ensures
        is_file_description(r, name@, *kind),
{
    proof {
        reveal_strlit("file");
        reveal_strlit("type");
        reveal_strlit("sheets");
        reveal_strlit("pages_approx");
        reveal_strlit("characters");
        reveal_strlit("spreadsheet");
        reveal_strlit("pdf");
        assert("file"@[0] != "type"@[0]);
        assert("file"@[0] != "sheets"@[0]);
        assert("type"@[0] != "sheets"@[0]);
        assert("file"@[0] != "pages_approx"@[0]);
        assert("type"@[0] != "pages_approx"@[0]);
        assert("file"@[0] != "characters"@[0]);
        assert("type"@[0] != "characters"@[0]);
        assert("pages_approx"@[0] != "characters"@[0]);
    }
    let mut obj: Vec<(String, Json)> = Vec::new();
    obj_insert(&mut obj, key("file"), Json::from_str(name));
    match kind {
        FileKind::Excel { sheets } => {
            obj_insert(&mut obj, key("type"), Json::from_str("spreadsheet"));
            let mut items: Vec<Json> = Vec::new();
            let mut i: usize = 0;
            while i < sheets.len()
                invariant
                    i <= sheets@.len(),
                    items@.len() == i,
                    forall|k: int| 0 <= k < i ==> is_sheet_description(#[trigger] items@[k], sheets@[k].0@, sheets@[k].1),
                decreases sheets.len() - i,
            {
                items.push(describe_sheet(&sheets[i].0, &sheets[i].1));
                i = i + 1;
            }
            obj_insert(&mut obj, key("sheets"), Json::Array(items));
        },
        FileKind::Pdf { text, page_count_hint } => {
            obj_insert(&mut obj, key("type"), Json::from_str("pdf"));
            obj_insert(&mut obj, key("pages_approx"), Json::from_u64(*page_count_hint as u64));
            obj_insert(&mut obj, key("characters"), Json::from_u64(text_byte_len(text) as u64));
        },
    }
    Json::Object(obj)
}

/// The length of a string in bytes (`str::len`).
pub fn text_byte_len(s: &String) -> (r: usize)
    ensures
        r == (vstd::utf8::encode_utf8(s@).len() as usize),
{
    s.as_str().len()
}

} // verus!

verus! {

// ------------------------------------------------------------------ table views

/// The display texts of one row, one per column.
pub open spec fn is_display_row(r: Seq<String>, row: Seq<Cell>, ncols: int) -> bool {
    &&& r.len() == ncols
    &&& forall|i: int| 0 <= i < ncols ==> (#[trigger] r[i])@ == crate::cells::cell_at(row, i).display_spec()
}

/// The rows `offset .. offset + limit` of a table (clipped to its end).
pub open spec fn page(rows: Seq<Vec<Cell>>, offset: int, limit: int) -> Seq<Vec<Cell>> {
    let start = if offset < rows.len() { offset } else { rows.len() as int };
    let end = if start + limit < rows.len() { start + limit } else { rows.len() as int };
    rows.subrange(start, end)
}

/// Non-empty and numeric cells of column `ci` among `rows`.
pub open spec fn col_counts(rows: Seq<Vec<Cell>>, ci: int) -> (nat, nat)
    decreases rows.len(),
{
    if rows.len() == 0 {
        (0, 0)
    } else {
        let (num, nonempty) = col_counts(rows.drop_last(), ci);
        let c = crate::cells::cell_at(rows.last()@, ci);
        if c.empty_spec() {
            (num, nonempty)
        } else if c.number_spec() is Some {
            (num + 1, nonempty + 1)
        } else {
            (num, nonempty + 1)
        }
    }
}

/// Whether column `ci` is mostly numeric: among the first 200 rows, at least half
/// of the non-empty cells are numbers.
pub open spec fn col_is_numeric(rows: Seq<Vec<Cell>>, ci: int) -> bool {
    let sample = if rows.len() > 200 { rows.take(200) } else { rows };
    let (num, nonempty) = col_counts(sample, ci);
    nonempty > 0 && num * 2 >= nonempty
}

/// A page of a table as display strings, with a numeric flag per column.
pub struct TableView {
    pub columns: Vec<String>,
    pub numeric: Vec<bool>,
    pub rows: Vec<Vec<String>>,
}

pub open spec fn is_table_view(v: TableView, t: Table, offset: int, limit: int) -> bool {
    let p = page(t.rows@, offset, limit);
    &&& v.columns@ == t.columns@
    &&& v.numeric@.len() == t.columns@.len()
    &&& forall|i: int| 0 <= i < t.columns@.len() ==> #[trigger] v.numeric@[i] == col_is_numeric(t.rows@, i)
    &&& v.rows@.len() == p.len()
    &&& forall|i: int| 0 <= i < p.len() ==> is_display_row((#[trigger] v.rows@[i])@, p[i]@, t.columns@.len() as int)
}

/// The display strings of one row.
pub fn display_row(row: &Vec<Cell>, ncols: usize) -> (r: Vec<String>)
    ensures
        is_display_row(r@, row@, ncols as int),
{
    let mut out: Vec<String> = Vec::new();
    let mut i: usize = 0;
    while i < ncols
        invariant
            i <= ncols,
            out@.len() == i,
            forall|k: int| 0 <= k < i ==> (#[trigger] out@[k])@ == crate::cells::cell_at(row@, k).display_spec(),
        decreases ncols - i,
    {
        let c = crate::cells::get_cell(row, i);
        out.push(c.as_display());
        i = i + 1;
    }
    out
}

/// Builds the columns, numeric flags and display rows of a page of a table.
pub fn table_to_view(t: &Table, offset: usize, limit: usize) -> (r: TableView)
    ensures
        is_table_view(r, *t, offset as int, limit as int),
{
    let n = t.rows.len();
    let start = if offset < n { offset } else { n };
    let end = if limit < n - start { start + limit } else { n };
    let mut rows: Vec<Vec<String>> = Vec::new();
    let mut i = start;
    while i < end
        invariant
            start <= i <= end <= n,
            n == t.rows@.len(),
            start == (if offset < n { offset as int } else { n as int }),
            end == (if start + limit < n { start + limit } else { n as int }),
            rows@.len() == i - start,
            forall|k: int| 0 <= k < i - start ==> is_display_row((#[trigger] rows@[k])@, t.rows@[start + k]@, t.columns@.len() as int),
        decreases end - i,
    {
        rows.push(display_row(&t.rows[i], t.columns.len()));
        i = i + 1;
    }
    let sample_n = if n > 200 { 200 } else { n };
    let mut numeric: Vec<bool> = Vec::new();
    let mut ci: usize = 0;
    while ci < t.columns.len()
        invariant
            ci <= t.columns@.len(),
            n == t.rows@.len(),
            sample_n == (if n > 200 { 200 } else { n }),
            numeric@.len() == ci,
            forall|k: int| 0 <= k < ci ==> #[trigger] numeric@[k] == col_is_numeric(t.rows@, k),
        decreases t.columns.len() - ci,
    {
        let mut num: usize = 0;
        let mut nonempty: usize = 0;
        let mut j: usize = 0;
        let ghost sample = if n > 200 { t.rows@.take(200) } else { t.rows@ };
        proof {
            assert(sample.take(0) =~= seq![]);
        }
        while j < sample_n
            invariant
                j <= sample_n,
                sample_n == sample.len(),
                sample == (if n > 200 { t.rows@.take(200) } else { t.rows@ }),
                n == t.rows@.len(),
                (num as nat, nonempty as nat) == col_counts(sample.take(j as int), ci as int),
                num <= j,
                nonempty <= j,
            decreases sample_n - j,
        {
            proof {
                assert(sample.take(j + 1).drop_last() =~= sample.take(j as int));
                assert(sample[j as int] == t.rows@[j as int]);
            }
            let c = crate::cells::get_cell(&t.rows[j], ci);
            if !c.is_empty() {
                nonempty = nonempty + 1;
                if c.as_number().is_some() {
                    num = num + 1;
                }
            }
            j = j + 1;
        }
        proof {
            assert(sample.take(sample_n as int) =~= sample);
        }
        numeric.push(nonempty > 0 && num * 2 >= nonempty);
        ci = ci + 1;
    }
    proof {
        assert forall|k: int| 0 <= k < page(t.rows@, offset as int, limit as int).len() implies is_display_row(
            (#[trigger] rows@[k])@,
            page(t.rows@, offset as int, limit as int)[k]@,
            t.columns@.len() as int,
        ) by {
            assert(page(t.rows@, offset as int, limit as int)[k] == t.rows@[start + k]);
        }
    }
    TableView { columns: dup_strings(&t.columns), numeric, rows }
}

} // verus!

verus! {

// ------------------------------------------------------------------ JSON helpers

pub open spec fn texts(v: Seq<String>) -> Seq<Seq<char>> {
    v.map_values(|x: String| x@)
}

pub open spec fn json_is_str(j: Json, s: Seq<char>) -> bool {
    j matches Json::Str(x) && x@ == s
}

pub open spec fn json_is_u64(j: Json, n: int) -> bool {
    j matches Json::Number(x) && x.as_u64 == Some(n as u64)
}

pub open spec fn json_is_strings(j: Json, s: Seq<Seq<char>>) -> bool {
    j matches Json::Array(a) && a@.len() == s.len() && forall|i: int| 0 <= i < s.len() ==> json_is_str(
        #[trigger] a@[i],
        s[i],
    )
}

pub open spec fn json_is_bools(j: Json, b: Seq<bool>) -> bool {
    j matches Json::Array(a) && a@.len() == b.len() && forall|i: int| 0 <= i < b.len() ==> #[trigger] a@[i]
        == Json::Bool(b[i])
}

/// The display texts of the first `ncols` cells of a row.
pub open spec fn display_texts(row: Seq<Cell>, ncols: int) -> Seq<Seq<char>> {
    Seq::new(ncols as nat, |i: int| crate::cells::cell_at(row, i).display_spec())
}

/// Whether `j` carries the view of a page of `t`: columns, numeric flags,
/// display rows, total row count and offset.
pub open spec fn is_view_json(j: Json, t: Table, offset: int, limit: int) -> bool {
    let p = page(t.rows@, offset, limit);
    let n = t.columns@.len() as int;
    &&& j.get_spec("columns"@) matches Some(c) && json_is_strings(c, texts(t.columns@))
    &&& j.get_spec("col_numeric"@) matches Some(c) && json_is_bools(c, Seq::new(n as nat, |i: int| col_is_numeric(t.rows@, i)))
    &&& j.get_spec("rows"@) matches Some(Json::Array(rs)) && rs@.len() == p.len() && forall|i: int| 0 <= i < p.len()
        ==> json_is_strings(#[trigger] rs@[i], display_texts(p[i]@, n))
    &&& j.get_spec("total_rows"@) matches Some(c) && json_is_u64(c, t.rows@.len() as int)
    &&& j.get_spec("offset"@) matches Some(c) && json_is_u64(c, offset)
}

fn lit(s: &str) -> (r: String)
    ensures
        r@ == s@,
{
    s.to_owned()
}

/// A JSON array of strings.
pub fn strings_to_json(v: &Vec<String>) -> (r: Json)
    ensures
        json_is_strings(r, texts(v@)),
{
    let mut out: Vec<Json> = Vec::new();
    let mut i: usize = 0;
    while i < v.len()
        invariant
            i <= v@.len(),
            out@.len() == i,
            forall|k: int| 0 <= k < i ==> json_is_str(#[trigger] out@[k], v@[k]@),
        decreases v.len() - i,
    {
        out.push(Json::Str(v[i].clone()));
        i = i + 1;
    }
    Json::Array(out)
}

fn bools_to_json(v: &Vec<bool>) -> (r: Json)
    ensures
        json_is_bools(r, v@),
{
    let mut out: Vec<Json> = Vec::new();
    let mut i: usize = 0;
    while i < v.len()
        invariant
            i <= v@.len(),
            out@.len() == i,
            forall|k: int| 0 <= k < i ==> #[trigger] out@[k] == Json::Bool(v@[k]),
        decreases v.len() - i,
    {
        out.push(Json::Bool(v[i]));
        i = i + 1;
    }
    Json::Array(out)
}

/// Puts a view's columns, flags, rows, total and offset into an object.
fn put_view(obj: &mut Vec<(String, Json)>, v: TableView, t: &Table, offset: usize, limit: usize)
    requires
        keys_sorted(old(obj)@),
        is_table_view(v, *t, offset as int, limit as int),
    ensures
        keys_sorted(final(obj)@),
        is_view_json(Json::Object(*final(obj)), *t, offset as int, limit as int),
        forall|k: Seq<char>| k != "columns"@ && k != "col_numeric"@ && k != "rows"@ && k != "total_rows"@
            && k != "offset"@ ==> crate::json::obj_get(final(obj)@, k) == crate::json::obj_get(old(obj)@, k),
{
    proof {
        reveal_strlit("columns");
        reveal_strlit("col_numeric");
        reveal_strlit("rows");
        reveal_strlit("total_rows");
        reveal_strlit("offset");
        assert("columns"@.len() != "col_numeric"@.len());
        assert("columns"@[0] != "rows"@[0]);
        assert("columns"@[0] != "total_rows"@[0]);
        assert("columns"@[0] != "offset"@[0]);
        assert("col_numeric"@[0] != "rows"@[0]);
        assert("col_numeric"@[0] != "total_rows"@[0]);
        assert("col_numeric"@[0] != "offset"@[0]);
        assert("rows"@[0] != "total_rows"@[0]);
        assert("rows"@[0] != "offset"@[0]);
        assert("total_rows"@[0] != "offset"@[0]);
    }
    let n = t.columns.len();
    let mut rows: Vec<Json> = Vec::new();
    let mut i: usize = 0;
    let ghost p = page(t.rows@, offset as int, limit as int);
    while i < v.rows.len()
        invariant
            i <= v.rows@.len(),
            v.rows@.len() == p.len(),
            n == t.columns@.len(),
            forall|k: int| 0 <= k < p.len() ==> is_display_row((#[trigger] v.rows@[k])@, p[k]@, n as int),
            rows@.len() == i,
            forall|k: int| 0 <= k < i ==> json_is_strings(#[trigger] rows@[k], display_texts(p[k]@, n as int)),
        decreases v.rows.len() - i,
    {
        let j = strings_to_json(&v.rows[i]);
        proof {
            assert(texts(v.rows@[i as int]@) =~= display_texts(p[i as int]@, n as int));
        }
        rows.push(j);
        i = i + 1;
    }
    let cols = strings_to_json(&v.columns);
    let flags = bools_to_json(&v.numeric);
    proof {
        assert(v.numeric@ =~= Seq::new(n as nat, |i: int| col_is_numeric(t.rows@, i)));
    }
    obj_insert(obj, lit("columns"), cols);
    obj_insert(obj, lit("col_numeric"), flags);
    obj_insert(obj, lit("rows"), Json::Array(rows));
    obj_insert(obj, lit("total_rows"), Json::from_u64(t.rows.len() as u64));
    obj_insert(obj, lit("offset"), Json::from_u64(offset as u64));
}

} // verus!

verus! {

/// The columns of `cols` whose trimmed, lower-cased name is not among the
/// source columns: what an operation added.
pub open spec fn added_columns(cols: Seq<String>, src: Seq<String>) -> Seq<Seq<char>>
    decreases cols.len(),
{
    if cols.len() == 0 {
        seq![]
    } else {
        let rest = added_columns(cols.drop_last(), src);
        let c = cols.last()@;
        if exists|k: int| 0 <= k < src.len() && crate::text::fold_name(#[trigger] src[k]@) == crate::text::fold_name(c) {
            rest
        } else {
            rest.push(c)
        }
    }
}

fn has_folded(src: &Vec<String>, c: &String) -> (r: bool)
    ensures
        r == exists|k: int| 0 <= k < src@.len() && crate::text::fold_name(#[trigger] src@[k]@) == crate::text::fold_name(c@),
{
    let want = crate::text::fold(c.as_str());
    let mut k: usize = 0;
    while k < src.len()
        invariant
            k <= src@.len(),
            want@ == crate::text::fold_name(c@),
            forall|q: int| 0 <= q < k ==> crate::text::fold_name(#[trigger] src@[q]@) != crate::text::fold_name(c@),
        decreases src.len() - k,
    {
        let f = crate::text::fold(src[k].as_str());
        if str_eq(f.as_str(), want.as_str()) {
            return true;
        }
        k = k + 1;
    }
    false
}

/// The columns an operation added compared to its source.
pub fn added_column_names(cols: &Vec<String>, src: &Vec<String>) -> (r: Vec<String>)
    ensures
        texts(r@) == added_columns(cols@, src@),
{
    let mut out: Vec<String> = Vec::new();
    let mut i: usize = 0;
    proof {
        assert(cols@.take(0) =~= seq![]);
        assert(texts(out@) =~= seq![]);
    }
    while i < cols.len()
        invariant
            i <= cols@.len(),
            texts(out@) == added_columns(cols@.take(i as int), src@),
        decreases cols.len() - i,
    {
        proof {
            assert(cols@.take(i + 1).drop_last() =~= cols@.take(i as int));
        }
        if !has_folded(src, &cols[i]) {
            out.push(cols[i].clone());
            proof {
                assert(texts(out@) =~= added_columns(cols@.take(i as int), src@).push(cols@[i as int]@));
            }
        }
        i = i + 1;
    }
    proof {
        assert(cols@.take(cols@.len() as int) =~= cols@);
    }
    out
}

/// The sheet a file view shows: the sheet asked for (by its stored spelling when
/// a name matches ignoring case), else the first sheet.
pub open spec fn active_sheet(sheets: Seq<(String, Table)>, sheet: Option<Seq<char>>) -> Seq<char> {
    match sheet {
        Some(s) => match first_sheet_ci(sheets, s, 0) {
            Some(i) => sheets[i].0@,
            None => s,
        },
        None => if sheets.len() > 0 {
            sheets[0].0@
        } else {
            seq![]
        },
    }
}

pub open spec fn result_change_ok(c: Json, sr: StoredResult) -> bool {
    &&& c.get_spec("op"@) matches Some(x) && json_is_str(x, sr.meta.op@)
    &&& c.get_spec("source_label"@) matches Some(x) && json_is_str(x, sr.meta.source_label@)
    &&& c.get_spec("source_row_count"@) matches Some(x) && json_is_u64(x, sr.meta.source_row_count as int)
    &&& c.get_spec("result_row_count"@) matches Some(x) && json_is_u64(x, sr.table.rows@.len() as int)
    &&& c.get_spec("added_columns"@) matches Some(x) && json_is_strings(x, added_columns(sr.table.columns@, sr.meta.source_columns@))
    &&& c.get_spec("summary"@) matches Some(x) && json_is_str(x, sr.meta.summary@)
}

/// What `table_view` answers for a stored result.
pub open spec fn is_result_view(j: Json, rid: Seq<char>, sr: StoredResult, offset: int, limit: int) -> bool {
    &&& j.get_spec("kind"@) matches Some(x) && json_is_str(x, "result"@)
    &&& j.get_spec("label"@) matches Some(x) && json_is_str(x, rid)
    &&& is_view_json(j, sr.table, offset, limit)
    &&& j.get_spec("change"@) matches Some(c) && result_change_ok(c, sr)
}

/// What `table_view` answers for a sheet of a spreadsheet.
pub open spec fn is_file_view(j: Json, fname: Seq<char>, sheets: Seq<(String, Table)>, sheet: Option<Seq<char>>, t: Table, offset: int, limit: int) -> bool {
    &&& j.get_spec("kind"@) matches Some(x) && json_is_str(x, "file"@)
    &&& j.get_spec("label"@) matches Some(x) && json_is_str(x, fname)
    &&& j.get_spec("sheets"@) matches Some(x) && json_is_strings(x, key_texts(sheets))
    &&& j.get_spec("active_sheet"@) matches Some(x) && json_is_str(x, active_sheet(sheets, sheet))
    &&& is_view_json(j, t, offset, limit)
    &&& j.get_spec("change"@) is None
}

/// What `table_view` answers for a PDF: at most 8000 bytes of its text.
pub open spec fn is_pdf_view(j: Json, fname: Seq<char>, text: Seq<char>, pages: usize) -> bool {
    let k = crate::text::chars_within(text, 8000, 0);
    &&& j.get_spec("kind"@) matches Some(x) && json_is_str(x, "pdf"@)
    &&& j.get_spec("label"@) matches Some(x) && json_is_str(x, fname)
    &&& j.get_spec("pages_approx"@) matches Some(x) && json_is_u64(x, pages as int)
    &&& j.get_spec("text"@) matches Some(x) && json_is_str(x, text.take(k as int))
    &&& j.get_spec("truncated"@) == Some(Json::Bool(k < text.len()))
}

} // verus!

verus! {

// ------------------------------------------------------------------ views for the UI

fn first_sheet_ci_exec(sheets: &Vec<(String, Table)>, s: &str) -> (r: Option<usize>)
    ensures
        match r {
            Some(i) => first_sheet_ci(sheets@, s@, 0) == Some(i as int) && i < sheets@.len(),
            None => first_sheet_ci(sheets@, s@, 0) is None,
        },
{
    let want = to_lowercase(s);
    let mut j: usize = 0;
    proof {
        lemma_first_sheet_ci(sheets@, s@, 0);
    }
    while j < sheets.len()
        invariant
            j <= sheets@.len(),
            want@ == lowercase_of(s@),
            first_sheet_ci(sheets@, s@, 0) == first_sheet_ci(sheets@, s@, j as int),
        decreases sheets.len() - j,
    {
        let l = to_lowercase(sheets[j].0.as_str());
        if str_eq(l.as_str(), want.as_str()) {
            return Some(j);
        }
        j = j + 1;
    }
    None
}

fn change_json(sr: &StoredResult) -> (r: Json)
    ensures
        result_change_ok(r, *sr),
{
    proof {
        reveal_strlit("op");
        reveal_strlit("source_label");
        reveal_strlit("source_row_count");
        reveal_strlit("result_row_count");
        reveal_strlit("added_columns");
        reveal_strlit("summary");
        assert("op"@[0] != "source_label"@[0]);
        assert("op"@[0] != "source_row_count"@[0]);
        assert("op"@[0] != "result_row_count"@[0]);
        assert("op"@[0] != "added_columns"@[0]);
        assert("op"@[0] != "summary"@[0]);
        assert("source_label"@[7] != "source_row_count"@[7]);
        assert("source_label"@[0] != "result_row_count"@[0]);
        assert("source_label"@[0] != "added_columns"@[0]);
        assert("source_label"@[1] != "summary"@[1]);
        assert("source_row_count"@[0] != "result_row_count"@[0]);
        assert("source_row_count"@[0] != "added_columns"@[0]);
        assert("source_row_count"@[1] != "summary"@[1]);
        assert("result_row_count"@[0] != "added_columns"@[0]);
        assert("result_row_count"@[0] != "summary"@[0]);
        assert("added_columns"@[0] != "summary"@[0]);
    }
    let added = added_column_names(&sr.table.columns, &sr.meta.source_columns);
    let mut c: Vec<(String, Json)> = Vec::new();
    obj_insert(&mut c, lit("op"), Json::Str(lit(sr.meta.op.as_str())));
    obj_insert(&mut c, lit("source_label"), Json::Str(lit(sr.meta.source_label.as_str())));
    obj_insert(&mut c, lit("source_row_count"), Json::from_u64(sr.meta.source_row_count as u64));
    obj_insert(&mut c, lit("result_row_count"), Json::from_u64(sr.table.rows.len() as u64));
    obj_insert(&mut c, lit("added_columns"), strings_to_json(&added));
    obj_insert(&mut c, lit("summary"), Json::Str(lit(sr.meta.summary.as_str())));
    Json::Object(c)
}

proof fn lemma_view_keys_differ()
    ensures
        "kind"@ != "columns"@ && "kind"@ != "col_numeric"@ && "kind"@ != "rows"@ && "kind"@ != "total_rows"@ && "kind"@ != "offset"@,
        "label"@ != "columns"@ && "label"@ != "col_numeric"@ && "label"@ != "rows"@ && "label"@ != "total_rows"@ && "label"@ != "offset"@,
        "change"@ != "columns"@ && "change"@ != "col_numeric"@ && "change"@ != "rows"@ && "change"@ != "total_rows"@ && "change"@ != "offset"@,
        "sheets"@ != "columns"@ && "sheets"@ != "col_numeric"@ && "sheets"@ != "rows"@ && "sheets"@ != "total_rows"@ && "sheets"@ != "offset"@,
        "active_sheet"@ != "columns"@ && "active_sheet"@ != "col_numeric"@ && "active_sheet"@ != "rows"@ && "active_sheet"@ != "total_rows"@ && "active_sheet"@ != "offset"@,
        "kind"@ != "label"@ && "kind"@ != "change"@ && "label"@ != "change"@,
        "kind"@ != "sheets"@ && "kind"@ != "active_sheet"@ && "label"@ != "sheets"@ && "label"@ != "active_sheet"@,
        "sheets"@ != "active_sheet"@ && "change"@ != "sheets"@ && "change"@ != "active_sheet"@,
        "kind"@ != "pages_approx"@ && "kind"@ != "text"@ && "kind"@ != "truncated"@,
        "label"@ != "pages_approx"@ && "label"@ != "text"@ && "label"@ != "truncated"@,
        "pages_approx"@ != "text"@ && "pages_approx"@ != "truncated"@ && "text"@ != "truncated"@,
{
    {
        reveal_strlit("kind");
        reveal_strlit("label");
        reveal_strlit("change");
        reveal_strlit("sheets");
        reveal_strlit("active_sheet");
        reveal_strlit("columns");
        reveal_strlit("col_numeric");
        reveal_strlit("rows");
        reveal_strlit("total_rows");
        reveal_strlit("offset");
        reveal_strlit("pages_approx");
        reveal_strlit("text");
        reveal_strlit("truncated");
        assert("kind"@[0] != "columns"@[0]);
        assert("kind"@[0] != "col_numeric"@[0]);
        assert("kind"@[0] != "rows"@[0]);
        assert("kind"@[0] != "total_rows"@[0]);
        assert("kind"@[0] != "offset"@[0]);
        assert("label"@[0] != "columns"@[0]);
        assert("label"@[0] != "col_numeric"@[0]);
        assert("label"@[0] != "rows"@[0]);
        assert("label"@[0] != "total_rows"@[0]);
        assert("label"@[0] != "offset"@[0]);
        assert("change"@[1] != "columns"@[1]);
        assert("change"@[1] != "col_numeric"@[1]);
        assert("change"@[0] != "rows"@[0]);
        assert("change"@[0] != "total_rows"@[0]);
        assert("change"@[0] != "offset"@[0]);
        assert("sheets"@[0] != "columns"@[0]);
        assert("sheets"@[0] != "col_numeric"@[0]);
        assert("sheets"@[0] != "rows"@[0]);
        assert("sheets"@[0] != "total_rows"@[0]);
        assert("sheets"@[0] != "offset"@[0]);
        assert("active_sheet"@[0] != "columns"@[0]);
        assert("active_sheet"@[0] != "col_numeric"@[0]);
        assert("active_sheet"@[0] != "rows"@[0]);
        assert("active_sheet"@[0] != "total_rows"@[0]);
        assert("active_sheet"@[0] != "offset"@[0]);
        assert("kind"@[0] != "label"@[0]);
        assert("kind"@[0] != "change"@[0]);
        assert("label"@[0] != "change"@[0]);
        assert("kind"@[0] != "sheets"@[0]);
        assert("kind"@[0] != "active_sheet"@[0]);
        assert("label"@[0] != "sheets"@[0]);
        assert("label"@[0] != "active_sheet"@[0]);
        assert("sheets"@[0] != "active_sheet"@[0]);
        assert("change"@[0] != "sheets"@[0]);
        assert("change"@[0] != "active_sheet"@[0]);
        assert("kind"@[0] != "pages_approx"@[0]);
        assert("kind"@[0] != "text"@[0]);
        assert("kind"@[0] != "truncated"@[0]);
        assert("label"@[0] != "pages_approx"@[0]);
        assert("label"@[0] != "text"@[0]);
        assert("label"@[0] != "truncated"@[0]);
        assert("pages_approx"@[0] != "text"@[0]);
        assert("pages_approx"@[0] != "truncated"@[0]);
        assert("text"@[1] != "truncated"@[1]);
    }
}

impl Workspace {
    /// A page of a result or of a file's sheet (or a PDF's text) for the viewer:
    /// display strings, numeric flags per column, and for a result what changed
    /// against its source.
    pub fn table_view(&self, result_id: Option<&str>, file: Option<&str>, sheet: Option<&str>, offset: usize, limit: usize) -> (r: Result<Json, CoreError>)
        requires
            self.wf(),
        ensures
            match result_id {
                Some(rid) => match find_key(self.results_spec(), rid@) {
                    Some(i) => r matches Ok(j) && is_result_view(j, rid@, self.results_spec()[i].1, offset as int, limit as int),
                    None => r matches Err(e) && e.spec() == ErrSpec::ResultNotFound(rid@),
                },
                None => match file {
                    Some(f) => match file_index(self.files_spec(), f@) {
                        None => r matches Err(e) && e.spec() == ErrSpec::FileNotFound(f@),
                        Some(i) => match self.files_spec()[i].1.kind {
                            FileKind::Excel { sheets } => match sheet_of_spec(self.files_spec()[i].1, opt_view(sheet)) {
                                Ok(t) => r matches Ok(j) && is_file_view(j, f@, sheets@, opt_view(sheet), t, offset as int, limit as int),
                                Err(es) => r matches Err(e) && e.spec() == es,
                            },
                            FileKind::Pdf { text, page_count_hint } => r matches Ok(j) && is_pdf_view(j, f@, text@, page_count_hint),
                        },
                    },
                    None => r matches Err(e) && e.spec() == ErrSpec::BadArg("provide result_id or file"@),
                },
            },
    {
        proof {
            lemma_view_keys_differ();
        }
        if let Some(rid) = result_id {
            let sr = match self.stored(rid) {
                Some(sr) => sr,
                None => {
                    return Err(CoreError::ResultNotFound(lit(rid)));
                },
            };
            let v = table_to_view(&sr.table, offset, limit);
            let mut obj: Vec<(String, Json)> = Vec::new();
            obj_insert(&mut obj, lit("kind"), Json::from_str("result"));
            obj_insert(&mut obj, lit("label"), Json::from_str(rid));
            obj_insert(&mut obj, lit("change"), change_json(sr));
            put_view(&mut obj, v, &sr.table, offset, limit);
            return Ok(Json::Object(obj));
        }
        let fname = match file {
            Some(f) => f,
            None => {
                return Err(CoreError::BadArg(lit("provide result_id or file")));
            },
        };
        let f = match self.file(fname) {
            Ok(f) => f,
            Err(e) => {
                return Err(e);
            },
        };
        match &f.kind {
            FileKind::Excel { sheets } => {
                let t = match sheet_of(f, sheet) {
                    Ok(t) => t,
                    Err(e) => {
                        return Err(e);
                    },
                };
                let active = match sheet {
                    Some(s) => match first_sheet_ci_exec(sheets, s) {
                        Some(i) => lit(sheets[i].0.as_str()),
                        None => lit(s),
                    },
                    None => if sheets.len() > 0 {
                        lit(sheets[0].0.as_str())
                    } else {
                        lit("")
                    },
                };
                proof {
                    reveal_strlit("");
                }
                let keys = map_keys(sheets);
                proof {
                    lemma_keys_join(sheets@, keys@);
                    assert(texts(keys@) == key_texts(sheets@));
                }
                let v = table_to_view(t, offset, limit);
                let mut obj: Vec<(String, Json)> = Vec::new();
                obj_insert(&mut obj, lit("kind"), Json::from_str("file"));
                obj_insert(&mut obj, lit("label"), Json::from_str(fname));
                obj_insert(&mut obj, lit("sheets"), strings_to_json(&keys));
                obj_insert(&mut obj, lit("active_sheet"), Json::Str(active));
                put_view(&mut obj, v, t, offset, limit);
                Ok(Json::Object(obj))
            },
            FileKind::Pdf { text, page_count_hint } => {
                let tc = chars_of(text.as_str());
                let end = count_within(&tc, 8000);
                let cut = string_of(slice_vec(&tc, 0, end).as_slice());
                let mut obj: Vec<(String, Json)> = Vec::new();
                obj_insert(&mut obj, lit("kind"), Json::from_str("pdf"));
                obj_insert(&mut obj, lit("label"), Json::from_str(fname));
                obj_insert(&mut obj, lit("pages_approx"), Json::from_u64(*page_count_hint as u64));
                obj_insert(&mut obj, lit("text"), Json::Str(cut));
                obj_insert(&mut obj, lit("truncated"), Json::Bool(end < tc.len()));
                Ok(Json::Object(obj))
            },
        }
    }

    /// Every loaded file (sheets, columns, row counts) and every derived result.
    pub fn list(&self) -> (r: Json)
        ensures
            is_list_json(r, *self),
    {
        proof {
            reveal_strlit("files");
            reveal_strlit("results");
            assert("files"@[0] != "results"@[0]);
        }
        let mut files: Vec<Json> = Vec::new();
        let mut i: usize = 0;
        while i < self.files.len()
            invariant
                i <= self.files@.len(),
                files@.len() == i,
                forall|k: int| 0 <= k < i ==> is_file_description(#[trigger] files@[k], self.files@[k].1.name@, self.files@[k].1.kind),
            decreases self.files.len() - i,
        {
            let f = &self.files[i].1;
            files.push(describe_kind(f.name.as_str(), &f.kind));
            i = i + 1;
        }
        let mut results: Vec<Json> = Vec::new();
        let mut k: usize = 0;
        while k < self.results.len()
            invariant
                k <= self.results@.len(),
                results@.len() == k,
                forall|q: int| 0 <= q < k ==> is_result_summary(#[trigger] results@[q], self.results@[q].0@, self.results@[q].1),
            decreases self.results.len() - k,
        {
            results.push(result_summary(self.results[k].0.as_str(), &self.results[k].1));
            k = k + 1;
        }
        let mut obj: Vec<(String, Json)> = Vec::new();
        obj_insert(&mut obj, lit("files"), Json::Array(files));
        obj_insert(&mut obj, lit("results"), Json::Array(results));
        Json::Object(obj)
    }
}

/// How `list` shows a result: id, columns, row count, operation and source.
pub open spec fn is_result_summary(j: Json, id: Seq<char>, sr: StoredResult) -> bool {
    &&& j.get_spec("result_id"@) matches Some(x) && json_is_str(x, id)
    &&& j.get_spec("columns"@) matches Some(x) && json_is_strings(x, texts(sr.table.columns@))
    &&& j.get_spec("row_count"@) matches Some(x) && json_is_u64(x, sr.table.rows@.len() as int)
    &&& j.get_spec("op"@) matches Some(x) && json_is_str(x, sr.meta.op@)
    &&& j.get_spec("source_label"@) matches Some(x) && json_is_str(x, sr.meta.source_label@)
}

/// What `list` answers: each file's description and each result's summary, in
/// name order.
pub open spec fn is_list_json(j: Json, ws: Workspace) -> bool {
    &&& j.get_spec("files"@) matches Some(Json::Array(items)) && items@.len() == ws.files_spec().len()
        && forall|k: int| 0 <= k < items@.len() ==> is_file_description(#[trigger] items@[k], ws.files_spec()[k].1.name@, ws.files_spec()[k].1.kind)
    &&& j.get_spec("results"@) matches Some(Json::Array(items)) && items@.len() == ws.results_spec().len()
        && forall|k: int| 0 <= k < items@.len() ==> is_result_summary(#[trigger] items@[k], ws.results_spec()[k].0@, ws.results_spec()[k].1)
}

fn result_summary(id: &str, sr: &StoredResult) -> (r: Json)
    ensures
        is_result_summary(r, id@, *sr),
{
    proof {
        reveal_strlit("result_id");
        reveal_strlit("columns");
        reveal_strlit("row_count");
        reveal_strlit("op");
        reveal_strlit("source_label");
        assert("result_id"@[1] != "row_count"@[1]);
        assert("result_id"@[0] != "columns"@[0]);
        assert("result_id"@[0] != "op"@[0]);
        assert("result_id"@[0] != "source_label"@[0]);
        assert("columns"@[0] != "row_count"@[0]);
        assert("columns"@[0] != "op"@[0]);
        assert("columns"@[0] != "source_label"@[0]);
        assert("row_count"@[0] != "op"@[0]);
        assert("row_count"@[0] != "source_label"@[0]);
        assert("op"@[0] != "source_label"@[0]);
    }
    let mut obj: Vec<(String, Json)> = Vec::new();
    obj_insert(&mut obj, lit("result_id"), Json::from_str(id));
    obj_insert(&mut obj, lit("columns"), strings_to_json(&sr.table.columns));
    obj_insert(&mut obj, lit("row_count"), Json::from_u64(sr.table.rows.len() as u64));
    obj_insert(&mut obj, lit("op"), Json::Str(lit(sr.meta.op.as_str())));
    obj_insert(&mut obj, lit("source_label"), Json::Str(lit(sr.meta.source_label.as_str())));
    Json::Object(obj)
}

} // verus!

//! PDF tools: reading the text of digitally generated PDFs (extractable text)
//! and finding the money amounts in it.

use vstd::prelude::*;
use crate::cells::{CoreError, ErrSpec, lenient_spec, parse_decimal_lenient};
use crate::dec::{decimal_display, normalize_pair};
use crate::ingest::{lines_of, split_lines};
use crate::json::{Json, obj_insert};
use crate::text::{chars_of, string_of, concat, concat3, u64_to_string, nat_digits, lowercase_of, to_lowercase,
    contains, chars_contain, str_contains, trim, trim_chars, is_ascii_digit, char_is_whitespace, is_whitespace,
    chars_within, count_within, slice_vec};
use crate::workspace::{Workspace, FileKind, file_index, json_is_str, quoted, join};
use super::{arg_str, arg_str_spec};

verus! {

fn lit(s: &str) -> (r: String)
    ensures
        r@ == s@,
{
    s.to_owned()
}

/// The text of a loaded PDF, or why there is none.
pub open spec fn pdf_text_spec(ws: Workspace, file: Seq<char>) -> Result<Seq<char>, ErrSpec> {
    match file_index(ws.files_spec(), file) {
        None => Err(ErrSpec::FileNotFound(file)),
        Some(i) => match ws.files_spec()[i].1.kind {
            FileKind::Pdf { text, .. } => Ok(text@),
            _ => Err(ErrSpec::BadArg(quoted(ws.files_spec()[i].1.name@)
                + " is not a PDF \u{2014} use spreadsheet tools for it"@)),
        },
    }
}

fn pdf_text<'a>(ws: &'a Workspace, file: &str) -> (r: Result<&'a String, CoreError>)
    requires
        ws.wf(),
    ensures
        match pdf_text_spec(*ws, file@) {
            Ok(t) => r matches Ok(x) && x@ == t,
            Err(es) => r matches Err(e) && e.spec() == es,
        },
{
    let f = match ws.file(file) {
        Ok(f) => f,
        Err(e) => {
            return Err(e);
        },
    };
    match &f.kind {
        FileKind::Pdf { text, .. } => Ok(text),
        _ => {
            let m = concat3("'", f.name.as_str(), "' is not a PDF \u{2014} use spreadsheet tools for it");
            proof {
                assert(m@ =~= quoted(f.name@) + " is not a PDF \u{2014} use spreadsheet tools for it"@) by {
                    reveal_strlit("'");
                    reveal_strlit("' is not a PDF \u{2014} use spreadsheet tools for it");
                    reveal_strlit(" is not a PDF \u{2014} use spreadsheet tools for it");
                }
            }
            Err(CoreError::BadArg(m))
        },
    }
}

// ------------------------------------------------------------------ extract_pdf_text

/// Whether line `j` mentions the (lower-cased) query, ignoring case.
pub open spec fn line_hit(lines: Seq<Seq<char>>, ql: Seq<char>, j: int) -> bool {
    0 <= j < lines.len() && contains(lowercase_of(lines[j]), ql)
}

/// Whether line `i` is kept: it or a neighbour mentions the query.
pub open spec fn near_hit(lines: Seq<Seq<char>>, ql: Seq<char>, i: int) -> bool {
    line_hit(lines, ql, i - 1) || line_hit(lines, ql, i) || line_hit(lines, ql, i + 1)
}

/// The kept lines among the first `n`, in order.
pub open spec fn kept_lines(lines: Seq<Seq<char>>, ql: Seq<char>, n: int) -> Seq<Seq<char>>
    decreases n,
{
    if n <= 0 {
        seq![]
    } else if near_hit(lines, ql, n - 1) {
        kept_lines(lines, ql, n - 1).push(lines[n - 1])
    } else {
        kept_lines(lines, ql, n - 1)
    }
}

/// The text `extract_pdf_text` returns before the size cap: the whole text, or
/// the lines around those that mention the query (joined by newlines), or a
/// note that none does.
pub open spec fn query_body(text: Seq<char>, query: Option<Seq<char>>) -> Seq<char> {
    match query {
        None => text,
        Some(q) => {
            let lines = lines_of(text);
            let hits = kept_lines(lines, lowercase_of(q), lines.len() as int);
            if hits.len() == 0 {
                "(no lines containing '"@ + q + "')"@
            } else {
                join(hits, "\n"@)
            }
        },
    }
}

/// The `max_chars` argument: 4000 unless given.
pub open spec fn max_chars_arg(args: Json) -> usize {
    match args.get_spec("max_chars"@) {
        Some(Json::Number(n)) => match n.as_u64 {
            Some(v) => v as usize,
            None => 4000,
        },
        _ => 4000,
    }
}

fn join_lines(v: &Vec<Vec<char>>) -> (r: String)
    ensures
        r@ == join(v@.map_values(|l: Vec<char>| l@), "\n"@),
{
    let mut strs: Vec<String> = Vec::new();
    let mut i: usize = 0;
    while i < v.len()
        invariant
            i <= v@.len(),
            strs@.len() == i,
            forall|k: int| 0 <= k < i ==> (#[trigger] strs@[k])@ == v@[k]@,
        decreases v.len() - i,
    {
        strs.push(string_of(v[i].as_slice()));
        i = i + 1;
    }
    proof {
        assert(strs@.map_values(|x: String| x@) =~= v@.map_values(|l: Vec<char>| l@));
    }
    crate::workspace::join_strings(&strs, "\n")
}

fn query_lines(text: &String, q: &str) -> (r: String)
    ensures
        r@ == query_body(text@, Some(q@)),
{
    let all = chars_of(text.as_str());
    let lines = split_lines(&all);
    let ghost ls = lines_of(text@);
    let ql = to_lowercase(q);
    let qc = chars_of(ql.as_str());
    let mut hit: Vec<bool> = Vec::new();
    let mut i: usize = 0;
    while i < lines.len()
        invariant
            i <= lines@.len(),
            lines@.len() == ls.len(),
            ls == lines_of(text@),
            forall|k: int| 0 <= k < lines@.len() ==> (#[trigger] lines@[k])@ == ls[k],
            qc@ == lowercase_of(q@),
            hit@.len() == i,
            forall|k: int| 0 <= k < i ==> #[trigger] hit@[k] == line_hit(ls, lowercase_of(q@), k),
        decreases lines.len() - i,
    {
        let low = to_lowercase(string_of(lines[i].as_slice()).as_str());
        let lc = chars_of(low.as_str());
        hit.push(chars_contain(&lc, &qc));
        i = i + 1;
    }
    let n = lines.len();
    let mut kept: Vec<Vec<char>> = Vec::new();
    let mut j: usize = 0;
    proof {
        assert(kept@.map_values(|l: Vec<char>| l@) =~= kept_lines(ls, lowercase_of(q@), 0));
    }
    while j < n
        invariant
            j <= n,
            n == lines@.len(),
            lines@.len() == ls.len(),
            forall|k: int| 0 <= k < lines@.len() ==> (#[trigger] lines@[k])@ == ls[k],
            hit@.len() == n,
            forall|k: int| 0 <= k < n ==> #[trigger] hit@[k] == line_hit(ls, lowercase_of(q@), k),
            kept@.map_values(|l: Vec<char>| l@) == kept_lines(ls, lowercase_of(q@), j as int),
        decreases n - j,
    {
        let near = (j > 0 && hit[j - 1]) || hit[j] || (j + 1 < n && hit[j + 1]);
        proof {
            assert(!line_hit(ls, lowercase_of(q@), j - 1) || j > 0);
            assert(!line_hit(ls, lowercase_of(q@), j + 1) || j + 1 < n);
            assert(near == near_hit(ls, lowercase_of(q@), j as int));
        }
        if near {
            let ghost before = kept@;
            let line = slice_vec(&lines[j], 0, lines[j].len());
            proof {
                assert(line@ =~= lines@[j as int]@);
            }
            kept.push(line);
            proof {
                assert(kept@.map_values(|l: Vec<char>| l@) =~= before.map_values(|l: Vec<char>| l@).push(ls[j as int]));
            }
        }
        j = j + 1;
    }
    if kept.len() == 0 {
        concat3("(no lines containing '", q, "')")
    } else {
        join_lines(&kept)
    }
}

/// What `extract_pdf_text` answers.
pub open spec fn extract_text_post(old_ws: Workspace, new_ws: Workspace, args: Json, r: Result<(Json, String), CoreError>) -> bool {
    &&& (new_ws == old_ws)
    &&& (match arg_str_spec(args, "file"@) {
        None => r matches Err(e) && e.spec() == ErrSpec::BadArg("'file' is required"@),
        Some(file) => match pdf_text_spec(old_ws, file) {
            Err(es) => r matches Err(e) && e.spec() == es,
            Ok(text) => r matches Ok((j, s)) && {
                let query = arg_str_spec(args, "query"@);
                let body = query_body(text, query);
                let k = chars_within(body, max_chars_arg(args) as nat, 0);
                &&& j.get_spec("file"@) matches Some(x) && json_is_str(x, file)
                &&& j.get_spec("text"@) matches Some(x) && json_is_str(x, body.take(k as int))
                &&& j.get_spec("truncated"@) == Some(Json::Bool(k < body.len()))
                &&& s@ == "extracted text from "@ + file + match query {
                    Some(q) => " (query: '"@ + q + "')"@,
                    None => seq![],
                }
            },
        },
    })
}

/// Text from a loaded PDF, optionally only the lines mentioning a query (with
/// one line of context either side), cut at `max_chars` bytes without splitting
/// a character.
pub fn extract_text(ws: &mut Workspace, args: &Json) -> (r: Result<(Json, String), CoreError>)
    requires
        old(ws).wf(),
    ensures
        extract_text_post(*old(ws), *final(ws), *args, r),
{
    let file = match arg_str(args, "file") {
        Some(f) => f,
        None => {
            return Err(CoreError::BadArg(lit("'file' is required")));
        },
    };
    let max_chars: usize = match args.get("max_chars") {
        Some(v) => match v.as_u64() {
            Some(n) => n as usize,
            None => 4000,
        },
        None => 4000,
    };
    let query = arg_str(args, "query");
    let text = match pdf_text(ws, file) {
        Ok(t) => t,
        Err(e) => {
            return Err(e);
        },
    };
    let body = match query {
        Some(q) => query_lines(text, q),
        None => lit(text.as_str()),
    };
    let bc = chars_of(body.as_str());
    let k = count_within(&bc, max_chars);
    let truncated = k < bc.len();
    let cut = string_of(slice_vec(&bc, 0, k).as_slice());
    proof {
        reveal_strlit("file");
        reveal_strlit("text");
        reveal_strlit("truncated");
        assert("file"@[0] != "text"@[0]);
        assert("file"@[0] != "truncated"@[0]);
        assert("text"@[1] != "truncated"@[1]);
        reveal_strlit("");
    }
    let mut obj: Vec<(String, Json)> = Vec::new();
    obj_insert(&mut obj, lit("file"), Json::Str(lit(file)));
    obj_insert(&mut obj, lit("text"), Json::Str(cut));
    obj_insert(&mut obj, lit("truncated"), Json::Bool(truncated));
    let tail = match query {
        Some(q) => concat3(" (query: '", q, "')"),
        None => lit(""),
    };
    let summary = concat3("extracted text from ", file, tail.as_str());
    Ok((Json::Object(obj), summary))
}

// ------------------------------------------------------------------ extract_pdf_amounts

/// What the `regex` crate finds in `hay` for `pattern`: for each successive
/// match (`Regex::captures_iter`), the text of capture group `group` if it took
/// part; `None` when the pattern does not compile (`Regex::new`).
pub uninterp spec fn regex_named_captures(pattern: Seq<char>, group: Seq<char>, hay: Seq<char>) -> Option<Seq<Option<Seq<char>>>>;

pub open spec fn opt_text(o: Option<String>) -> Option<Seq<char>> {
    match o {
        Some(s) => Some(s@),
        None => None,
    }
}

/// Runs `regex::Regex::new(pattern)` and, when it compiles, `captures_iter` over
/// `hay`, taking the text of group `group` of each match. Its contract names the
/// outcome (`regex_named_captures`) and claims nothing more of it.
#[verifier::external_body]
fn regex_captures(pattern: &str, group: &str, hay: &str) -> (r: Option<Vec<Option<String>>>)
    ensures
        match r {
            Some(v) => regex_named_captures(pattern@, group@, hay@) == Some(v@.map_values(|o: Option<String>| opt_text(o))),
            None => regex_named_captures(pattern@, group@, hay@) is None,
        },
{
    let re = match regex::Regex::new(pattern) {
        Ok(re) => re,
        Err(_) => return None,
    };
    let mut out = Vec::new();
    for c in re.captures_iter(hay) {
        match c.name(group) {
            Some(m) => out.push(Some(m.as_str().to_string())),
            None => out.push(None),
        }
    }
    Some(out)
}

/// Money as it is written: an optional "(" and currency (GHS, GH₵, ₵, USD, $,
/// EUR, €, GBP, £), an optional "-", digits with thousands separators and up to
/// four decimals, an optional ")".
pub open spec fn amount_pattern() -> Seq<char> {
    "(?x)(?P<amt> \\(?\\s* (?:GHS|GH\u{20b5}|\u{20b5}|USD|\\$|EUR|\u{20ac}|GBP|\u{a3})?\\s* -?\\d{1,3}(?:,\\d{3})*(?:\\.\\d{1,4})? \\s*\\)? )"@
}

/// Whether a match looks like money rather than a count, date or page number:
/// it has a ".", ",", "(" or a character other than digits, "-" and white space.
pub open spec fn money_shape(raw: Seq<char>) -> bool {
    raw.contains('.') || raw.contains(',') || raw.contains('(')
        || exists|i: int| 0 <= i < raw.len() && !(is_ascii_digit(#[trigger] raw[i]) || raw[i] == '-' || char_is_whitespace(raw[i]))
}

/// An amount found in a PDF.
pub struct AmountSpec {
    pub amount: Seq<char>,
    pub as_written: Seq<char>,
    pub line: Seq<char>,
}

/// The amounts among the matches of one line, in order.
pub open spec fn caps_amounts(caps: Seq<Option<Seq<char>>>, line: Seq<char>) -> Seq<AmountSpec>
    decreases caps.len(),
{
    if caps.len() == 0 {
        seq![]
    } else {
        let rest = caps_amounts(caps.drop_last(), line);
        match caps.last() {
            None => rest,
            Some(c) => {
                let raw = trim(c);
                if money_shape(raw) {
                    match lenient_spec(raw) {
                        Some(d) => rest.push(AmountSpec { amount: decimal_display(normalize_pair(d)), as_written: raw, line: trim(line) }),
                        None => rest,
                    }
                } else {
                    rest
                }
            },
        }
    }
}

/// Whether a line is skipped for not mentioning the (lower-cased) query.
pub open spec fn skip_line(line: Seq<char>, q: Option<Seq<char>>) -> bool {
    match q {
        Some(ql) => !contains(lowercase_of(line), ql),
        None => false,
    }
}

/// The amounts of the first `n` lines; scanning stops once 200 are found.
/// `None` when the amount pattern is refused.
pub open spec fn found_upto(lines: Seq<Seq<char>>, q: Option<Seq<char>>, n: int) -> Option<Seq<AmountSpec>>
    decreases n,
{
    if n <= 0 {
        Some(seq![])
    } else {
        match found_upto(lines, q, n - 1) {
            None => None,
            Some(f) => if f.len() >= 200 || skip_line(lines[n - 1], q) {
                Some(f)
            } else {
                match regex_named_captures(amount_pattern(), "amt"@, lines[n - 1]) {
                    None => None,
                    Some(caps) => Some(f + caps_amounts(caps, lines[n - 1])),
                }
            },
        }
    }
}

/// Whether `j` describes an amount.
pub open spec fn is_amount_json(j: Json, a: AmountSpec) -> bool {
    &&& j.get_spec("amount"@) matches Some(x) && json_is_str(x, a.amount)
    &&& j.get_spec("as_written"@) matches Some(x) && json_is_str(x, a.as_written)
    &&& j.get_spec("line"@) matches Some(x) && json_is_str(x, a.line)
}

fn money_shape_exec(raw: &Vec<char>) -> (r: bool)
    ensures
        r == money_shape(raw@),
{
    let mut i: usize = 0;
    while i < raw.len()
        invariant
            i <= raw@.len(),
            forall|k: int| 0 <= k < i ==> raw@[k] != '.' && raw@[k] != ',' && raw@[k] != '(' && (is_ascii_digit(
                #[trigger] raw@[k]) || raw@[k] == '-' || char_is_whitespace(raw@[k])),
        decreases raw.len() - i,
    {
        let c = raw[i];
        if c == '.' || c == ',' || c == '(' {
            proof {
                assert(raw@[i as int] == c);
            }
            return true;
        }
        if !(('0' <= c && c <= '9') || c == '-' || is_whitespace(c)) {
            return true;
        }
        i = i + 1;
    }
    false
}

fn amount_json(a_text: String, raw: String, line: String) -> (r: Json)
    ensures
        is_amount_json(r, AmountSpec { amount: a_text@, as_written: raw@, line: line@ }),
{
    proof {
        reveal_strlit("amount");
        reveal_strlit("as_written");
        reveal_strlit("line");
        assert("amount"@[1] != "as_written"@[1]);
        assert("amount"@[0] != "line"@[0]);
        assert("as_written"@[0] != "line"@[0]);
    }
    let mut obj: Vec<(String, Json)> = Vec::new();
    obj_insert(&mut obj, lit("amount"), Json::Str(a_text));
    obj_insert(&mut obj, lit("as_written"), Json::Str(raw));
    obj_insert(&mut obj, lit("line"), Json::Str(line));
    Json::Object(obj)
}

/// The amounts among the matches of one line, appended to `found`.
fn line_amounts(caps: &Vec<Option<String>>, line: &Vec<char>, found: &mut Vec<Json>, Ghost(prev): Ghost<Seq<AmountSpec>>)
    requires
        old(found)@.len() == prev.len(),
        forall|k: int| 0 <= k < prev.len() ==> is_amount_json(#[trigger] old(found)@[k], prev[k]),
    ensures
        final(found)@.len() == (prev + caps_amounts(caps@.map_values(|o: Option<String>| opt_text(o)), line@)).len(),
        forall|k: int| 0 <= k < final(found)@.len() ==> is_amount_json(#[trigger] final(found)@[k],
            (prev + caps_amounts(caps@.map_values(|o: Option<String>| opt_text(o)), line@))[k]),
{
    let ghost cv = caps@.map_values(|o: Option<String>| opt_text(o));
    let tl = string_of(trim_chars(line).as_slice());
    let mut i: usize = 0;
    proof {
        assert(cv.take(0) =~= seq![]);
        assert(prev + caps_amounts(cv.take(0), line@) =~= prev);
    }
    while i < caps.len()
        invariant
            i <= caps@.len(),
            cv == caps@.map_values(|o: Option<String>| opt_text(o)),
            tl@ == trim(line@),
            found@.len() == (prev + caps_amounts(cv.take(i as int), line@)).len(),
            forall|k: int| 0 <= k < found@.len() ==> is_amount_json(#[trigger] found@[k], (prev + caps_amounts(cv.take(i as int), line@))[k]),
        decreases caps.len() - i,
    {
        proof {
            assert(cv.take(i + 1).drop_last() =~= cv.take(i as int));
            assert(cv.take(i + 1).last() == opt_text(caps@[i as int]));
        }
        let ghost before = prev + caps_amounts(cv.take(i as int), line@);
        match &caps[i] {
            None => {},
            Some(c) => {
                let raw_chars = trim_chars(&chars_of(c.as_str()));
                if money_shape_exec(&raw_chars) {
                    let raw = string_of(raw_chars.as_slice());
                    match parse_decimal_lenient(raw.as_str()) {
                        Some(d) => {
                            let a = d.normalize().to_text();
                            let j = amount_json(a, raw, lit(tl.as_str()));
                            found.push(j);
                            proof {
                                assert(prev + caps_amounts(cv.take(i + 1), line@) =~= before.push(
                                    AmountSpec { amount: decimal_display(normalize_pair(d.pair())), as_written: trim(c@), line: trim(line@) }));
                            }
                        },
                        None => {},
                    }
                }
            },
        }
        i = i + 1;
    }
    proof {
        assert(cv.take(caps@.len() as int) =~= cv);
    }
}

/// Once 200 amounts are found, later lines add nothing.
proof fn lemma_found_stops(lines: Seq<Seq<char>>, q: Option<Seq<char>>, n: int)
    requires
        0 <= n <= lines.len(),
        found_upto(lines, q, n) matches Some(f) && (f.len() >= 200 || n == lines.len()),
    ensures
        found_upto(lines, q, lines.len() as int) == found_upto(lines, q, n),
    decreases lines.len() - n,
{
    if n < lines.len() {
        lemma_found_stops(lines, q, n + 1);
    }
}

proof fn lemma_found_none_sticks(lines: Seq<Seq<char>>, q: Option<Seq<char>>, n: int)
    requires
        0 <= n <= lines.len(),
        found_upto(lines, q, n) is None,
    ensures
        found_upto(lines, q, lines.len() as int) is None,
    decreases lines.len() - n,
{
    if n < lines.len() {
        lemma_found_none_sticks(lines, q, n + 1);
    }
}

/// What `extract_pdf_amounts` answers.
pub open spec fn extract_amounts_post(old_ws: Workspace, new_ws: Workspace, args: Json, r: Result<(Json, String), CoreError>) -> bool {
    &&& (new_ws == old_ws)
    &&& (match arg_str_spec(args, "file"@) {
        None => r matches Err(e) && e.spec() == ErrSpec::BadArg("'file' is required"@),
        Some(file) => match pdf_text_spec(old_ws, file) {
            Err(es) => r matches Err(e) && e.spec() == es,
            Ok(text) => match found_upto(lines_of(text), lower_query(args), lines_of(text).len() as int) {
                None => r matches Err(e) && e.spec() == ErrSpec::Pdf("the amount pattern was refused"@),
                Some(found) => r matches Ok((j, s)) && {
                    &&& j is Object
                    &&& forall|kk: Seq<char>| (#[trigger] j.get_spec(kk)) is Some ==> kk == "file"@ || kk == "amounts"@ || kk == "note"@
                    &&& j.get_spec("note"@) matches Some(x) && json_is_str(x,
                        "Verify against the line context. Use `calculate` to combine amounts \u{2014} never add them yourself."@)
                    &&& j.get_spec("file"@) matches Some(x) && json_is_str(x, file)
                    &&& j.get_spec("amounts"@) matches Some(Json::Array(items)) && items@.len() == found.len()
                        && forall|k: int| 0 <= k < found.len() ==> is_amount_json(#[trigger] items@[k], found[k])
                    &&& s@ == "scanned "@ + file + " for amounts -> "@ + nat_digits(found.len()) + " found"@ + match lower_query(args) {
                        Some(ql) => " (query: '"@ + ql + "')"@,
                        None => seq![],
                    }
                },
            },
        },
    })
}

/// Scans a loaded PDF for money amounts (separators, currency prefixes,
/// parenthesised negatives), optionally only in lines mentioning a query, and
/// returns each amount with its line; scanning stops after the line where 200
/// amounts have been found.
#[verifier::loop_isolation(false)]
pub fn extract_amounts(ws: &mut Workspace, args: &Json) -> (r: Result<(Json, String), CoreError>)
    requires
        old(ws).wf(),
    ensures
        extract_amounts_post(*old(ws), *final(ws), *args, r),
{
    let file = match arg_str(args, "file") {
        Some(f) => f,
        None => {
            return Err(CoreError::BadArg(lit("'file' is required")));
        },
    };
    let query: Option<String> = match arg_str(args, "query") {
        Some(s) => Some(to_lowercase(s)),
        None => None,
    };
    let ghost q = lower_query(*args);
    let text = match pdf_text(ws, file) {
        Ok(t) => t,
        Err(e) => {
            return Err(e);
        },
    };
    let all = chars_of(text.as_str());
    let lines = split_lines(&all);
    let ghost ls = lines_of(text@);
    let mut found: Vec<Json> = Vec::new();
    let ghost mut fs: Seq<AmountSpec> = seq![];
    let mut i: usize = 0;
    while i < lines.len()
        invariant
            i <= lines@.len(),
            lines@.len() == ls.len(),
            ls == lines_of(text@),
            forall|k: int| 0 <= k < lines@.len() ==> (#[trigger] lines@[k])@ == ls[k],
            opt_text(query) == q,
            found_upto(ls, q, i as int) == Some(fs),
            found@.len() == fs.len(),
            forall|k: int| 0 <= k < fs.len() ==> is_amount_json(#[trigger] found@[k], fs[k]),
        decreases lines.len() - i,
    {
        if found.len() >= 200 {
            proof {
                lemma_found_stops(ls, q, i as int);
            }
            break;
        }
        let line = string_of(lines[i].as_slice());
        let skip = match &query {
            Some(ql) => !str_contains(to_lowercase(line.as_str()).as_str(), ql.as_str()),
            None => false,
        };
        if !skip {
            let caps = match regex_captures(
                "(?x)(?P<amt> \\(?\\s* (?:GHS|GH\u{20b5}|\u{20b5}|USD|\\$|EUR|\u{20ac}|GBP|\u{a3})?\\s* -?\\d{1,3}(?:,\\d{3})*(?:\\.\\d{1,4})? \\s*\\)? )",
                "amt",
                line.as_str(),
            ) {
                Some(c) => c,
                None => {
                    proof {
                        lemma_found_none_sticks(ls, q, i as int + 1);
                    }
                    return Err(CoreError::Pdf(lit("the amount pattern was refused")));
                },
            };
            line_amounts(&caps, &lines[i], &mut found, Ghost(fs));
            proof {
                fs = fs + caps_amounts(caps@.map_values(|o: Option<String>| opt_text(o)), ls[i as int]);
            }
        }
        i = i + 1;
    }
    proof {
        lemma_found_stops(ls, q, i as int);
    }
    let n = found.len();
    proof {
        reveal_strlit("file");
        reveal_strlit("amounts");
        reveal_strlit("note");
        assert("file"@[0] != "amounts"@[0]);
        assert("file"@[0] != "note"@[0]);
        assert("amounts"@[0] != "note"@[0]);
        reveal_strlit("");
    }
    let mut obj: Vec<(String, Json)> = Vec::new();
    obj_insert(&mut obj, lit("file"), Json::Str(lit(file)));
    obj_insert(&mut obj, lit("amounts"), Json::Array(found));
    obj_insert(&mut obj, lit("note"), Json::Str(lit("Verify against the line context. Use `calculate` to combine amounts \u{2014} never add them yourself.")));
    let tail = match &query {
        Some(ql) => concat3(" (query: '", ql.as_str(), "')"),
        None => lit(""),
    };
    let s1 = concat3("scanned ", file, " for amounts -> ");
    let s2 = concat3(s1.as_str(), u64_to_string(n as u64).as_str(), " found");
    let summary = concat(s2.as_str(), tail.as_str());
    Ok((Json::Object(obj), summary))
}

/// The query of `extract_pdf_amounts`, lower-cased.
pub open spec fn lower_query(args: Json) -> Option<Seq<char>> {
    match arg_str_spec(args, "query"@) {
        Some(s) => Some(lowercase_of(s)),
        None => None,
    }
}

} // verus!

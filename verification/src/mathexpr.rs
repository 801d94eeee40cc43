//! A small, safe, recursive-descent expression evaluator over exact decimals.
//!
//! Grammar:
//!   expr    := term (('+' | '-') term)*
//!   term    := unary (('*' | '/' | '%') unary)*
//!   unary   := '-' unary | primary
//!   primary := NUMBER | IDENT | '[' any chars ']' | '(' expr ')'
//!
//! Identifiers resolve through a table of names (column values, etc.).
//! `[Column With Spaces]` is supported.

use vstd::prelude::*;
use crate::dec::{Dec, decimal_from_str, decimal_display, decimal_checked_add, decimal_checked_sub, decimal_checked_mul, decimal_checked_div, decimal_checked_rem, sum_is_exact, product_is_exact};
use crate::text::{
    trim, fold_name, is_ascii_digit, char_is_alphanumeric, char_is_alphabetic, fold, string_of,
    chars_of, str_eq, slice_vec, trim_chars, is_alphabetic, is_alphanumeric, concat, concat3,
};
use crate::CoreError;

verus! {

// ------------------------------------------------------------------ tokens

/// A lexical token as a mathematical value.
pub enum SpecTok {
    Num((i128, u32)),
    Ident(Seq<char>),
    Plus,
    Minus,
    Star,
    Slash,
    Percent,
    LParen,
    RParen,
}

/// A lexical token.
pub enum Tok {
    Num(Dec),
    Ident(String),
    Plus,
    Minus,
    Star,
    Slash,
    Percent,
    LParen,
    RParen,
}

impl Tok {
    pub open spec fn spec(&self) -> SpecTok {
        match self {
            Tok::Num(d) => SpecTok::Num(d.pair()),
            Tok::Ident(s) => SpecTok::Ident(s@),
            Tok::Plus => SpecTok::Plus,
            Tok::Minus => SpecTok::Minus,
            Tok::Star => SpecTok::Star,
            Tok::Slash => SpecTok::Slash,
            Tok::Percent => SpecTok::Percent,
            Tok::LParen => SpecTok::LParen,
            Tok::RParen => SpecTok::RParen,
        }
    }
}

pub open spec fn toks_spec(v: Seq<Tok>) -> Seq<SpecTok> {
    v.map_values(|t: Tok| t.spec())
}

/// Why an expression was refused.
pub enum ExprErr {
    UnclosedBracket,
    BadNumber(Seq<char>),
    UnexpectedChar(char),
    DivisionByZero,
    ModuloByZero,
    Overflow,
    UnknownName(Seq<char>),
    MissingParen,
    /// The token that stood where a value was expected (`None`: end of input).
    UnexpectedToken(Option<SpecTok>),
    Empty,
    Trailing,
    /// A step that consumed no input; never produced (see `lemma_no_stall`).
    NoProgress,
}

// ------------------------------------------------------------------ lexer (spec)

pub open spec fn is_space(c: char) -> bool {
    c == ' ' || c == '\t' || c == '\n' || c == '\r'
}

pub open spec fn is_number_char(c: char) -> bool {
    is_ascii_digit(c) || c == '.' || c == ','
}

pub open spec fn is_ident_char(c: char) -> bool {
    char_is_alphanumeric(c) || c == '_'
}

/// The first index at or after `j` holding `]` (the length if there is none).
pub open spec fn close_from(c: Seq<char>, j: int) -> int
    decreases c.len() - j,
{
    if j >= c.len() {
        c.len() as int
    } else if c[j] == ']' {
        j
    } else {
        close_from(c, j + 1)
    }
}

/// The end of the run of number characters that starts at `j`.
pub open spec fn number_end(c: Seq<char>, j: int) -> int
    decreases c.len() - j,
{
    if j >= c.len() || !is_number_char(c[j]) {
        j
    } else {
        number_end(c, j + 1)
    }
}

/// The end of the run of identifier characters that starts at `j`.
pub open spec fn ident_end(c: Seq<char>, j: int) -> int
    decreases c.len() - j,
{
    if j >= c.len() || !is_ident_char(c[j]) {
        j
    } else {
        ident_end(c, j + 1)
    }
}

pub proof fn lemma_close_from_bounds(c: Seq<char>, j: int)
    requires
        0 <= j <= c.len(),
    ensures
        j <= close_from(c, j) <= c.len(),
        close_from(c, j) < c.len() ==> c[close_from(c, j)] == ']',
        forall|k: int| j <= k < close_from(c, j) && k < c.len() ==> c[k] != ']',
    decreases c.len() - j,
{
    if j < c.len() && c[j] != ']' {
        lemma_close_from_bounds(c, j + 1);
    }
}

pub proof fn lemma_number_end_bounds(c: Seq<char>, j: int)
    requires
        0 <= j,
    ensures
        j <= number_end(c, j),
        number_end(c, j) <= c.len() || number_end(c, j) == j,
    decreases c.len() - j,
{
    if j < c.len() && is_number_char(c[j]) {
        lemma_number_end_bounds(c, j + 1);
    }
}

pub proof fn lemma_ident_end_bounds(c: Seq<char>, j: int)
    requires
        0 <= j,
    ensures
        j <= ident_end(c, j),
        ident_end(c, j) <= c.len() || ident_end(c, j) == j,
    decreases c.len() - j,
{
    if j < c.len() && is_ident_char(c[j]) {
        lemma_ident_end_bounds(c, j + 1);
    }
}

/// The characters of `s` without commas (thousands separators).
pub open spec fn without_commas(s: Seq<char>) -> Seq<char>
    decreases s.len(),
{
    if s.len() == 0 {
        s
    } else if s.last() == ',' {
        without_commas(s.drop_last())
    } else {
        without_commas(s.drop_last()).push(s.last())
    }
}

pub open spec fn cons_tok(t: SpecTok, r: Result<Seq<SpecTok>, ExprErr>) -> Result<Seq<SpecTok>, ExprErr> {
    match r {
        Ok(rest) => Ok(seq![t] + rest),
        Err(e) => Err(e),
    }
}

pub open spec fn single_char_tok(ch: char) -> Option<SpecTok> {
    if ch == '+' {
        Some(SpecTok::Plus)
    } else if ch == '-' {
        Some(SpecTok::Minus)
    } else if ch == '*' {
        Some(SpecTok::Star)
    } else if ch == '/' {
        Some(SpecTok::Slash)
    } else if ch == '%' {
        Some(SpecTok::Percent)
    } else if ch == '(' {
        Some(SpecTok::LParen)
    } else if ch == ')' {
        Some(SpecTok::RParen)
    } else {
        None
    }
}

/// The tokens of `c[i..]`, or the first lexical error.
pub open spec fn lex_from(c: Seq<char>, i: int) -> Result<Seq<SpecTok>, ExprErr>
    decreases c.len() - i,
{
    if i < 0 || i >= c.len() {
        Ok(seq![])
    } else {
        let ch = c[i];
        if is_space(ch) {
            lex_from(c, i + 1)
        } else if single_char_tok(ch) is Some {
            cons_tok(single_char_tok(ch)->0, lex_from(c, i + 1))
        } else if ch == '[' {
            let j = close_from(c, i + 1);
            proof {
                lemma_close_from_bounds(c, i + 1);
            }
            if j >= c.len() {
                Err(ExprErr::UnclosedBracket)
            } else {
                cons_tok(SpecTok::Ident(trim(c.subrange(i + 1, j))), lex_from(c, j + 1))
            }
        } else if is_ascii_digit(ch) || ch == '.' {
            let j = number_end(c, i + 1);
            proof {
                lemma_number_end_bounds(c, i + 1);
            }
            let num = without_commas(c.subrange(i, j));
            match decimal_from_str(num) {
                None => Err(ExprErr::BadNumber(num)),
                Some(p) => cons_tok(SpecTok::Num(p), lex_from(c, j)),
            }
        } else if char_is_alphabetic(ch) || ch == '_' {
            let j = ident_end(c, i + 1);
            proof {
                lemma_ident_end_bounds(c, i + 1);
            }
            cons_tok(SpecTok::Ident(c.subrange(i, j)), lex_from(c, j))
        } else {
            Err(ExprErr::UnexpectedChar(ch))
        }
    }
}

/// The tokens of a whole expression.
pub open spec fn lex(c: Seq<char>) -> Result<Seq<SpecTok>, ExprErr> {
    lex_from(c, 0)
}

// ------------------------------------------------------------------ names

/// One name an expression may use, with its value (`None`: the name exists
/// but has no numeric value).
pub struct VarEntry {
    pub name: String,
    pub value: Option<Dec>,
}

/// The names an expression may use. Lookup takes the first entry that matches,
/// either exactly or, when `folded`, after trimming and lower-casing both sides.
pub struct NameTable {
    pub entries: Vec<VarEntry>,
    pub folded: bool,
}

pub open spec fn opt_pair(o: Option<Dec>) -> Option<(i128, u32)> {
    match o {
        Some(d) => Some(d.pair()),
        None => None,
    }
}

pub open spec fn names_match(folded: bool, key: Seq<char>, name: Seq<char>) -> bool {
    if folded {
        fold_name(key) == fold_name(name)
    } else {
        key == name
    }
}

/// The value of the first entry of `e[i..]` that matches `name`.
pub open spec fn lookup_from(e: Seq<VarEntry>, folded: bool, name: Seq<char>, i: int) -> Option<(i128, u32)>
    decreases e.len() - i,
{
    if i < 0 || i >= e.len() {
        None
    } else if names_match(folded, e[i].name@, name) {
        opt_pair(e[i].value)
    } else {
        lookup_from(e, folded, name, i + 1)
    }
}

/// Name resolution as a function.
pub open spec fn table_fn(t: NameTable) -> spec_fn(Seq<char>) -> Option<(i128, u32)> {
    |n: Seq<char>| t.lookup_spec(n)
}

/// Resolution where no name has a value.
pub open spec fn no_names() -> spec_fn(Seq<char>) -> Option<(i128, u32)> {
    |n: Seq<char>| None
}

impl NameTable {
    /// The value bound to a name, if any.
    pub open spec fn lookup_spec(&self, name: Seq<char>) -> Option<(i128, u32)> {
        lookup_from(self.entries@, self.folded, name, 0)
    }

    /// A table with no names.
    pub fn empty() -> (r: NameTable)
        ensures
            r.entries@.len() == 0,
            forall|n: Seq<char>| r.lookup_spec(n) is None,
    {
        NameTable { entries: Vec::new(), folded: false }
    }

    /// Resolves a name.
    pub fn lookup(&self, name: &str) -> (r: Option<Dec>)
        ensures
            opt_pair(r) == self.lookup_spec(name@),
    {
        let want = if self.folded {
            fold(name)
        } else {
            name.to_owned()
        };
        let mut i: usize = 0;
        while i < self.entries.len()
            invariant
                i <= self.entries@.len(),
                self.folded ==> want@ == fold_name(name@),
                !self.folded ==> want@ == name@,
                self.lookup_spec(name@) == lookup_from(self.entries@, self.folded, name@, i as int),
            decreases self.entries.len() - i,
        {
            let e = &self.entries[i];
            let key = if self.folded {
                fold(e.name.as_str())
            } else {
                e.name.as_str().to_owned()
            };
            if str_eq(key.as_str(), want.as_str()) {
                return e.value;
            }
            i = i + 1;
        }
        None
    }
}

// ------------------------------------------------------------------ parser (spec)

pub open spec fn binop(op: SpecTok, a: (i128, u32), b: (i128, u32)) -> Result<(i128, u32), ExprErr> {
    let r = match op {
        SpecTok::Plus => decimal_checked_add(a, b),
        SpecTok::Minus => decimal_checked_sub(a, b),
        SpecTok::Star => decimal_checked_mul(a, b),
        SpecTok::Slash => decimal_checked_div(a, b),
        _ => decimal_checked_rem(a, b),
    };
    if op is Slash && b.0 == 0 {
        Err(ExprErr::DivisionByZero)
    } else if op is Percent && b.0 == 0 {
        Err(ExprErr::ModuloByZero)
    } else {
        match r {
            Some(v) => Ok(v),
            None => Err(ExprErr::Overflow),
        }
    }
}

pub open spec fn is_add_op(t: SpecTok) -> bool {
    t is Plus || t is Minus
}

pub open spec fn is_mul_op(t: SpecTok) -> bool {
    t is Star || t is Slash || t is Percent
}

/// `expr` at `pos`: the value and the position after it.
pub open spec fn p_expr(t: Seq<SpecTok>, vars: spec_fn(Seq<char>) -> Option<(i128, u32)>, pos: int) -> Result<((i128, u32), int), ExprErr>
    decreases t.len() - pos, 5int,
{
    if pos < 0 || pos > t.len() {
        Err(ExprErr::NoProgress)
    } else {
        match p_term(t, vars, pos) {
            Err(e) => Err(e),
            Ok((v, p)) => if pos < p <= t.len() {
                p_expr_rest(t, vars, v, p)
            } else {
                Err(ExprErr::NoProgress)
            },
        }
    }
}

/// The `(('+' | '-') term)*` tail of an expression, folding into `acc`.
pub open spec fn p_expr_rest(t: Seq<SpecTok>, vars: spec_fn(Seq<char>) -> Option<(i128, u32)>, acc: (i128, u32), pos: int) -> Result<((i128, u32), int), ExprErr>
    decreases t.len() - pos, 4int,
{
    if pos < 0 || pos > t.len() {
        Err(ExprErr::NoProgress)
    } else if pos < t.len() && is_add_op(t[pos]) {
        match p_term(t, vars, pos + 1) {
            Err(e) => Err(e),
            Ok((v, p)) => match binop(t[pos], acc, v) {
                Err(e) => Err(e),
                Ok(a2) => if pos < p <= t.len() {
                    p_expr_rest(t, vars, a2, p)
                } else {
                    Err(ExprErr::NoProgress)
                },
            },
        }
    } else {
        Ok((acc, pos))
    }
}

/// `term` at `pos`.
pub open spec fn p_term(t: Seq<SpecTok>, vars: spec_fn(Seq<char>) -> Option<(i128, u32)>, pos: int) -> Result<((i128, u32), int), ExprErr>
    decreases t.len() - pos, 3int,
{
    if pos < 0 || pos > t.len() {
        Err(ExprErr::NoProgress)
    } else {
        match p_unary(t, vars, pos) {
            Err(e) => Err(e),
            Ok((v, p)) => if pos < p <= t.len() {
                p_term_rest(t, vars, v, p)
            } else {
                Err(ExprErr::NoProgress)
            },
        }
    }
}

/// The `(('*' | '/' | '%') unary)*` tail of a term, folding into `acc`.
pub open spec fn p_term_rest(t: Seq<SpecTok>, vars: spec_fn(Seq<char>) -> Option<(i128, u32)>, acc: (i128, u32), pos: int) -> Result<((i128, u32), int), ExprErr>
    decreases t.len() - pos, 2int,
{
    if pos < 0 || pos > t.len() {
        Err(ExprErr::NoProgress)
    } else if pos < t.len() && is_mul_op(t[pos]) {
        match p_unary(t, vars, pos + 1) {
            Err(e) => Err(e),
            Ok((v, p)) => match binop(t[pos], acc, v) {
                Err(e) => Err(e),
                Ok(a2) => if pos < p <= t.len() {
                    p_term_rest(t, vars, a2, p)
                } else {
                    Err(ExprErr::NoProgress)
                },
            },
        }
    } else {
        Ok((acc, pos))
    }
}

/// `unary` at `pos`.
pub open spec fn p_unary(t: Seq<SpecTok>, vars: spec_fn(Seq<char>) -> Option<(i128, u32)>, pos: int) -> Result<((i128, u32), int), ExprErr>
    decreases t.len() - pos, 1int,
{
    if pos < 0 || pos > t.len() {
        Err(ExprErr::NoProgress)
    } else if pos < t.len() && t[pos] is Minus {
        match p_unary(t, vars, pos + 1) {
            Err(e) => Err(e),
            Ok((v, p)) => Ok((((-v.0) as i128, v.1), p)),
        }
    } else {
        p_primary(t, vars, pos)
    }
}

/// `primary` at `pos`.
pub open spec fn p_primary(t: Seq<SpecTok>, vars: spec_fn(Seq<char>) -> Option<(i128, u32)>, pos: int) -> Result<((i128, u32), int), ExprErr>
    decreases t.len() - pos, 0int,
{
    if pos < 0 || pos >= t.len() {
        Err(ExprErr::UnexpectedToken(None))
    } else {
        match t[pos] {
            SpecTok::Num(d) => Ok((d, pos + 1)),
            SpecTok::Ident(name) => match vars(name) {
                Some(v) => Ok((v, pos + 1)),
                None => Err(ExprErr::UnknownName(name)),
            },
            SpecTok::LParen => match p_expr(t, vars, pos + 1) {
                Err(e) => Err(e),
                Ok((v, p)) => if 0 <= p < t.len() && t[p] is RParen {
                    Ok((v, p + 1))
                } else {
                    Err(ExprErr::MissingParen)
                },
            },
            other => Err(ExprErr::UnexpectedToken(Some(other))),
        }
    }
}

/// The value of an expression, with names resolved through `vars`.
pub open spec fn eval_spec(src: Seq<char>, vars: spec_fn(Seq<char>) -> Option<(i128, u32)>) -> Result<(i128, u32), ExprErr> {
    match lex(src) {
        Err(e) => Err(e),
        Ok(t) => if t.len() == 0 {
            Err(ExprErr::Empty)
        } else {
            match p_expr(t, vars, 0) {
                Err(e) => Err(e),
                Ok((v, p)) => if p != t.len() {
                    Err(ExprErr::Trailing)
                } else {
                    Ok(v)
                },
            }
        },
    }
}


/// Whether a parse result moved past `pos` (to at most the end), or failed for a
/// reason other than making no progress.
pub open spec fn advanced(r: Result<((i128, u32), int), ExprErr>, pos: int, n: int, strict: bool) -> bool {
    match r {
        Ok((_, p)) => (if strict { pos < p } else { pos <= p }) && p <= n,
        Err(e) => e != ExprErr::NoProgress,
    }
}

proof fn lemma_primary_advances(t: Seq<SpecTok>, vars: spec_fn(Seq<char>) -> Option<(i128, u32)>, pos: int)
    requires
        0 <= pos <= t.len(),
    ensures
        advanced(p_primary(t, vars, pos), pos, t.len() as int, true),
    decreases t.len() - pos, 0int,
{
    if pos < t.len() {
        if t[pos] is LParen {
            lemma_expr_advances(t, vars, pos + 1);
        }
    }
}

proof fn lemma_unary_advances(t: Seq<SpecTok>, vars: spec_fn(Seq<char>) -> Option<(i128, u32)>, pos: int)
    requires
        0 <= pos <= t.len(),
    ensures
        advanced(p_unary(t, vars, pos), pos, t.len() as int, true),
    decreases t.len() - pos, 1int,
{
    if pos < t.len() && t[pos] is Minus {
        lemma_unary_advances(t, vars, pos + 1);
    } else {
        lemma_primary_advances(t, vars, pos);
    }
}

proof fn lemma_term_rest_advances(t: Seq<SpecTok>, vars: spec_fn(Seq<char>) -> Option<(i128, u32)>, acc: (i128, u32), pos: int)
    requires
        0 <= pos <= t.len(),
    ensures
        advanced(p_term_rest(t, vars, acc, pos), pos, t.len() as int, false),
    decreases t.len() - pos, 2int,
{
    if pos < t.len() && is_mul_op(t[pos]) {
        lemma_unary_advances(t, vars, pos + 1);
        if let Ok((v, p)) = p_unary(t, vars, pos + 1) {
            if let Ok(a2) = binop(t[pos], acc, v) {
                lemma_term_rest_advances(t, vars, a2, p);
            }
        }
    }
}

proof fn lemma_term_advances(t: Seq<SpecTok>, vars: spec_fn(Seq<char>) -> Option<(i128, u32)>, pos: int)
    requires
        0 <= pos <= t.len(),
    ensures
        advanced(p_term(t, vars, pos), pos, t.len() as int, true),
    decreases t.len() - pos, 3int,
{
    lemma_unary_advances(t, vars, pos);
    if let Ok((v, p)) = p_unary(t, vars, pos) {
        lemma_term_rest_advances(t, vars, v, p);
    }
}

proof fn lemma_expr_rest_advances(t: Seq<SpecTok>, vars: spec_fn(Seq<char>) -> Option<(i128, u32)>, acc: (i128, u32), pos: int)
    requires
        0 <= pos <= t.len(),
    ensures
        advanced(p_expr_rest(t, vars, acc, pos), pos, t.len() as int, false),
    decreases t.len() - pos, 4int,
{
    if pos < t.len() && is_add_op(t[pos]) {
        lemma_term_advances(t, vars, pos + 1);
        if let Ok((v, p)) = p_term(t, vars, pos + 1) {
            if let Ok(a2) = binop(t[pos], acc, v) {
                lemma_expr_rest_advances(t, vars, a2, p);
            }
        }
    }
}

proof fn lemma_expr_advances(t: Seq<SpecTok>, vars: spec_fn(Seq<char>) -> Option<(i128, u32)>, pos: int)
    requires
        0 <= pos <= t.len(),
    ensures
        advanced(p_expr(t, vars, pos), pos, t.len() as int, true),
    decreases t.len() - pos, 5int,
{
    lemma_term_advances(t, vars, pos);
    if let Ok((v, p)) = p_term(t, vars, pos) {
        lemma_expr_rest_advances(t, vars, v, p);
    }
}

proof fn lemma_lex_no_stall(c: Seq<char>, i: int)
    ensures
        lex_from(c, i) != Err::<Seq<SpecTok>, ExprErr>(ExprErr::NoProgress),
    decreases c.len() - i,
{
    if 0 <= i < c.len() {
        let ch = c[i];
        if is_space(ch) {
            lemma_lex_no_stall(c, i + 1);
        } else if single_char_tok(ch) is Some {
            lemma_lex_no_stall(c, i + 1);
        } else if ch == '[' {
            lemma_close_from_bounds(c, i + 1);
            let j = close_from(c, i + 1);
            if j < c.len() {
                lemma_lex_no_stall(c, j + 1);
            }
        } else if is_ascii_digit(ch) || ch == '.' {
            lemma_number_end_bounds(c, i + 1);
            lemma_lex_no_stall(c, number_end(c, i + 1));
        } else if char_is_alphabetic(ch) || ch == '_' {
            lemma_ident_end_bounds(c, i + 1);
            lemma_lex_no_stall(c, ident_end(c, i + 1));
        }
    }
}

/// Evaluation never stalls: every step of the parser consumes input, so an
/// expression is never refused for making no progress.
pub proof fn lemma_no_stall(src: Seq<char>, vars: spec_fn(Seq<char>) -> Option<(i128, u32)>)
    ensures
        eval_spec(src, vars) != Err::<(i128, u32), ExprErr>(ExprErr::NoProgress),
{
    lemma_lex_no_stall(src, 0);
    if let Ok(t) = lex(src) {
        if t.len() > 0 {
            lemma_expr_advances(t, vars, 0);
        }
    }
}

} // verus!

verus! {

// ------------------------------------------------------------------ executable

/// Why an expression was refused (executable form of `ExprErr`).
pub enum ExprFail {
    UnclosedBracket,
    BadNumber(String),
    UnexpectedChar(char),
    DivisionByZero,
    ModuloByZero,
    Overflow,
    UnknownName(String),
    MissingParen,
    UnexpectedToken(Option<Tok>),
    Empty,
    Trailing,
    NoProgress,
}

impl ExprFail {
    pub open spec fn spec(&self) -> ExprErr {
        match self {
            ExprFail::UnclosedBracket => ExprErr::UnclosedBracket,
            ExprFail::BadNumber(s) => ExprErr::BadNumber(s@),
            ExprFail::UnexpectedChar(c) => ExprErr::UnexpectedChar(*c),
            ExprFail::DivisionByZero => ExprErr::DivisionByZero,
            ExprFail::ModuloByZero => ExprErr::ModuloByZero,
            ExprFail::Overflow => ExprErr::Overflow,
            ExprFail::UnknownName(s) => ExprErr::UnknownName(s@),
            ExprFail::MissingParen => ExprErr::MissingParen,
            ExprFail::UnexpectedToken(t) => ExprErr::UnexpectedToken(match t {
                Some(x) => Some(x.spec()),
                None => None,
            }),
            ExprFail::Empty => ExprErr::Empty,
            ExprFail::Trailing => ExprErr::Trailing,
            ExprFail::NoProgress => ExprErr::NoProgress,
        }
    }
}

pub open spec fn prepend_toks(s: Seq<SpecTok>, r: Result<Seq<SpecTok>, ExprErr>) -> Result<Seq<SpecTok>, ExprErr> {
    match r {
        Ok(rest) => Ok(s + rest),
        Err(e) => Err(e),
    }
}

proof fn lemma_prepend_cons(s: Seq<SpecTok>, t: SpecTok, r: Result<Seq<SpecTok>, ExprErr>)
    ensures
        prepend_toks(s, cons_tok(t, r)) == prepend_toks(s.push(t), r),
{
    match r {
        Ok(rest) => {
            assert(s + (seq![t] + rest) =~= s.push(t) + rest);
        },
        Err(e) => {},
    }
}

fn single_char_tok_exec(ch: char) -> (r: Option<Tok>)
    ensures
        match r {
            Some(t) => single_char_tok(ch) == Some(t.spec()),
            None => single_char_tok(ch) is None,
        },
{
    if ch == '+' {
        Some(Tok::Plus)
    } else if ch == '-' {
        Some(Tok::Minus)
    } else if ch == '*' {
        Some(Tok::Star)
    } else if ch == '/' {
        Some(Tok::Slash)
    } else if ch == '%' {
        Some(Tok::Percent)
    } else if ch == '(' {
        Some(Tok::LParen)
    } else if ch == ')' {
        Some(Tok::RParen)
    } else {
        None
    }
}

/// Splits an expression into tokens.
pub fn lex_chars(c: &Vec<char>) -> (r: Result<Vec<Tok>, ExprFail>)
    ensures
        match r {
            Ok(v) => lex(c@) == Ok::<Seq<SpecTok>, ExprErr>(toks_spec(v@)),
            Err(e) => lex(c@) == Err::<Seq<SpecTok>, ExprErr>(e.spec()),
        },
{
    let mut out: Vec<Tok> = Vec::new();
    let mut i: usize = 0;
    proof {
        assert(toks_spec(out@) =~= seq![]);
        assert(prepend_toks(toks_spec(out@), lex_from(c@, 0)) == lex_from(c@, 0)) by {
            match lex_from(c@, 0) {
                Ok(rest) => {
                    assert(seq![] + rest =~= rest);
                },
                Err(e) => {},
            }
        }
    }
    while i < c.len()
        invariant
            i <= c.len(),
            lex(c@) == prepend_toks(toks_spec(out@), lex_from(c@, i as int)),
        decreases c.len() - i,
    {
        let ch = c[i];
        let ghost before = toks_spec(out@);
        if ch == ' ' || ch == '\t' || ch == '\n' || ch == '\r' {
            i = i + 1;
        } else {
            match single_char_tok_exec(ch) {
                Some(t) => {
                    proof {
                        lemma_prepend_cons(before, t.spec(), lex_from(c@, i + 1));
                    }
                    out.push(t);
                    proof {
                        assert(toks_spec(out@) =~= before.push(t.spec()));
                    }
                    i = i + 1;
                },
                None => {
                    if ch == '[' {
                        let mut j = i + 1;
                        while j < c.len() && c[j] != ']'
                            invariant
                                i < j <= c.len(),
                                close_from(c@, i + 1) == close_from(c@, j as int),
                            decreases c.len() - j,
                        {
                            j = j + 1;
                        }
                        if j >= c.len() {
                            return Err(ExprFail::UnclosedBracket);
                        }
                        let inner = slice_vec(c, i + 1, j);
                        let name = trim_chars(&inner);
                        let t = Tok::Ident(string_of(name.as_slice()));
                        proof {
                            lemma_prepend_cons(before, t.spec(), lex_from(c@, j + 1));
                        }
                        out.push(t);
                        proof {
                            assert(toks_spec(out@) =~= before.push(t.spec()));
                        }
                        i = j + 1;
                    } else if ('0' <= ch && ch <= '9') || ch == '.' {
                        let mut num: Vec<char> = Vec::new();
                        num.push(ch);
                        let mut j = i + 1;
                        proof {
                            assert(c@.subrange(i as int, j as int).drop_last() =~= c@.subrange(i as int, i as int));
                            assert(without_commas(c@.subrange(i as int, i as int)) =~= seq![]);
                            assert(num@ =~= without_commas(c@.subrange(i as int, j as int)));
                        }
                        while j < c.len() && (('0' <= c[j] && c[j] <= '9') || c[j] == '.' || c[j] == ',')
                            invariant
                                i < j <= c.len(),
                                number_end(c@, i + 1) == number_end(c@, j as int),
                                num@ == without_commas(c@.subrange(i as int, j as int)),
                            decreases c.len() - j,
                        {
                            proof {
                                assert(c@.subrange(i as int, j + 1).drop_last() =~= c@.subrange(i as int, j as int));
                            }
                            if c[j] != ',' {
                                num.push(c[j]);
                            }
                            j = j + 1;
                        }
                        let text = string_of(num.as_slice());
                        match Dec::parse(text.as_str()) {
                            None => {
                                return Err(ExprFail::BadNumber(text));
                            },
                            Some(d) => {
                                let t = Tok::Num(d);
                                proof {
                                    lemma_prepend_cons(before, t.spec(), lex_from(c@, j as int));
                                }
                                out.push(t);
                                proof {
                                    assert(toks_spec(out@) =~= before.push(t.spec()));
                                }
                                i = j;
                            },
                        }
                    } else if is_alphabetic(ch) || ch == '_' {
                        let mut j = i + 1;
                        while j < c.len() && (is_alphanumeric(c[j]) || c[j] == '_')
                            invariant
                                i < j <= c.len(),
                                ident_end(c@, i + 1) == ident_end(c@, j as int),
                            decreases c.len() - j,
                        {
                            j = j + 1;
                        }
                        let name = slice_vec(c, i, j);
                        let t = Tok::Ident(string_of(name.as_slice()));
                        proof {
                            lemma_prepend_cons(before, t.spec(), lex_from(c@, j as int));
                        }
                        out.push(t);
                        proof {
                            assert(toks_spec(out@) =~= before.push(t.spec()));
                        }
                        i = j;
                    } else {
                        return Err(ExprFail::UnexpectedChar(ch));
                    }
                },
            }
        }
    }
    proof {
        assert(toks_spec(out@) + seq![] =~= toks_spec(out@));
    }
    Ok(out)
}

} // verus!

verus! {

pub open spec fn pos_res(r: Result<(Dec, usize), ExprFail>) -> Result<((i128, u32), int), ExprErr> {
    match r {
        Ok((d, p)) => Ok((d.pair(), p as int)),
        Err(e) => Err(e.spec()),
    }
}

fn apply_op(op: &Tok, a: &Dec, b: &Dec) -> (r: Result<Dec, ExprFail>)
    requires
        is_add_op(op.spec()) || is_mul_op(op.spec()),
    ensures
        match r {
            Ok(d) => binop(op.spec(), a.pair(), b.pair()) == Ok::<(i128, u32), ExprErr>(d.pair()),
            Err(e) => binop(op.spec(), a.pair(), b.pair()) == Err::<(i128, u32), ExprErr>(e.spec()),
        },
        op.spec() is Plus ==> sum_is_exact(a.pair(), b.pair(), false, match r { Ok(d) => Some(d.pair()), Err(_) => None }),
        op.spec() is Minus ==> sum_is_exact(a.pair(), b.pair(), true, match r { Ok(d) => Some(d.pair()), Err(_) => None }),
        op.spec() is Star ==> product_is_exact(a.pair(), b.pair(), match r { Ok(d) => Some(d.pair()), Err(_) => None }),
{
    let r = match op {
        Tok::Plus => a.checked_add(b),
        Tok::Minus => a.checked_sub(b),
        Tok::Star => a.checked_mul(b),
        Tok::Slash => {
            if b.is_zero() {
                return Err(ExprFail::DivisionByZero);
            }
            a.checked_div(b)
        },
        _ => {
            if b.is_zero() {
                return Err(ExprFail::ModuloByZero);
            }
            a.checked_rem(b)
        },
    };
    match r {
        Some(d) => Ok(d),
        None => Err(ExprFail::Overflow),
    }
}

fn copy_op(t: &Tok) -> (r: Tok)
    requires
        !(t.spec() is Num),
        !(t.spec() is Ident),
    ensures
        r.spec() == t.spec(),
{
    match t {
        Tok::Plus => Tok::Plus,
        Tok::Minus => Tok::Minus,
        Tok::Star => Tok::Star,
        Tok::Slash => Tok::Slash,
        Tok::Percent => Tok::Percent,
        Tok::LParen => Tok::LParen,
        _ => Tok::RParen,
    }
}

fn parse_expr(t: &Vec<Tok>, vars: &NameTable, pos: usize) -> (r: Result<(Dec, usize), ExprFail>)
    requires
        pos <= t.len(),
    ensures
        pos_res(r) == p_expr(toks_spec(t@), table_fn(*vars), pos as int),
    decreases t.len() - pos, 5int,
{
    match parse_term(t, vars, pos) {
        Err(e) => Err(e),
        Ok((v, p)) => {
            if pos < p && p <= t.len() {
                parse_expr_rest(t, vars, v, p)
            } else {
                Err(ExprFail::NoProgress)
            }
        },
    }
}

fn parse_expr_rest(t: &Vec<Tok>, vars: &NameTable, acc: Dec, pos: usize) -> (r: Result<(Dec, usize), ExprFail>)
    requires
        pos <= t.len(),
    ensures
        pos_res(r) == p_expr_rest(toks_spec(t@), table_fn(*vars), acc.pair(), pos as int),
    decreases t.len() - pos, 4int,
{
    let ghost ts = toks_spec(t@);
    if pos < t.len() && (matches!(t[pos], Tok::Plus) || matches!(t[pos], Tok::Minus)) {
        assert(ts[pos as int] == t@[pos as int].spec());
        match parse_term(t, vars, pos + 1) {
            Err(e) => Err(e),
            Ok((v, p)) => {
                match apply_op(&t[pos], &acc, &v) {
                    Err(e) => Err(e),
                    Ok(a2) => {
                        if pos < p && p <= t.len() {
                            parse_expr_rest(t, vars, a2, p)
                        } else {
                            Err(ExprFail::NoProgress)
                        }
                    },
                }
            },
        }
    } else {
        proof {
            if pos < t.len() {
                assert(ts[pos as int] == t@[pos as int].spec());
            }
        }
        Ok((acc, pos))
    }
}

fn parse_term(t: &Vec<Tok>, vars: &NameTable, pos: usize) -> (r: Result<(Dec, usize), ExprFail>)
    requires
        pos <= t.len(),
    ensures
        pos_res(r) == p_term(toks_spec(t@), table_fn(*vars), pos as int),
    decreases t.len() - pos, 3int,
{
    match parse_unary(t, vars, pos) {
        Err(e) => Err(e),
        Ok((v, p)) => {
            if pos < p && p <= t.len() {
                parse_term_rest(t, vars, v, p)
            } else {
                Err(ExprFail::NoProgress)
            }
        },
    }
}

fn parse_term_rest(t: &Vec<Tok>, vars: &NameTable, acc: Dec, pos: usize) -> (r: Result<(Dec, usize), ExprFail>)
    requires
        pos <= t.len(),
    ensures
        pos_res(r) == p_term_rest(toks_spec(t@), table_fn(*vars), acc.pair(), pos as int),
    decreases t.len() - pos, 2int,
{
    let ghost ts = toks_spec(t@);
    if pos < t.len() && (matches!(t[pos], Tok::Star) || matches!(t[pos], Tok::Slash) || matches!(t[pos], Tok::Percent)) {
        assert(ts[pos as int] == t@[pos as int].spec());
        match parse_unary(t, vars, pos + 1) {
            Err(e) => Err(e),
            Ok((v, p)) => {
                match apply_op(&t[pos], &acc, &v) {
                    Err(e) => Err(e),
                    Ok(a2) => {
                        if pos < p && p <= t.len() {
                            parse_term_rest(t, vars, a2, p)
                        } else {
                            Err(ExprFail::NoProgress)
                        }
                    },
                }
            },
        }
    } else {
        proof {
            if pos < t.len() {
                assert(ts[pos as int] == t@[pos as int].spec());
            }
        }
        Ok((acc, pos))
    }
}

fn parse_unary(t: &Vec<Tok>, vars: &NameTable, pos: usize) -> (r: Result<(Dec, usize), ExprFail>)
    requires
        pos <= t.len(),
    ensures
        pos_res(r) == p_unary(toks_spec(t@), table_fn(*vars), pos as int),
    decreases t.len() - pos, 1int,
{
    let ghost ts = toks_spec(t@);
    if pos < t.len() && matches!(t[pos], Tok::Minus) {
        assert(ts[pos as int] == t@[pos as int].spec());
        match parse_unary(t, vars, pos + 1) {
            Err(e) => Err(e),
            Ok((v, p)) => Ok((v.neg(), p)),
        }
    } else {
        proof {
            if pos < t.len() {
                assert(ts[pos as int] == t@[pos as int].spec());
            }
        }
        parse_primary(t, vars, pos)
    }
}

fn parse_primary(t: &Vec<Tok>, vars: &NameTable, pos: usize) -> (r: Result<(Dec, usize), ExprFail>)
    requires
        pos <= t.len(),
    ensures
        pos_res(r) == p_primary(toks_spec(t@), table_fn(*vars), pos as int),
    decreases t.len() - pos, 0int,
{
    if pos >= t.len() {
        return Err(ExprFail::UnexpectedToken(None));
    }
    let ghost ts = toks_spec(t@);
    assert(ts[pos as int] == t@[pos as int].spec());
    match &t[pos] {
        Tok::Num(d) => Ok((*d, pos + 1)),
        Tok::Ident(name) => {
            match vars.lookup(name.as_str()) {
                Some(v) => Ok((v, pos + 1)),
                None => Err(ExprFail::UnknownName(name.as_str().to_owned())),
            }
        },
        Tok::LParen => {
            match parse_expr(t, vars, pos + 1) {
                Err(e) => Err(e),
                Ok((v, p)) => {
                    if p < t.len() && matches!(t[p], Tok::RParen) {
                        assert(ts[p as int] == t@[p as int].spec());
                        Ok((v, p + 1))
                    } else {
                        proof {
                            if p < t.len() {
                                assert(ts[p as int] == t@[p as int].spec());
                            }
                        }
                        Err(ExprFail::MissingParen)
                    }
                },
            }
        },
        other => Err(ExprFail::UnexpectedToken(Some(copy_op(other)))),
    }
}

} // verus!

verus! {

/// The text of a token as `{:?}` writes it, wrapped in `Some(..)`/`None`.
pub open spec fn token_debug(t: Option<SpecTok>) -> Seq<char> {
    match t {
        None => "None"@,
        Some(SpecTok::Num(p)) => "Some(Num("@ + decimal_display(p) + "))"@,
        Some(SpecTok::Ident(s)) => "Some(Ident(\""@ + s + "\"))"@,
        Some(SpecTok::Plus) => "Some(Plus)"@,
        Some(SpecTok::Minus) => "Some(Minus)"@,
        Some(SpecTok::Star) => "Some(Star)"@,
        Some(SpecTok::Slash) => "Some(Slash)"@,
        Some(SpecTok::Percent) => "Some(Percent)"@,
        Some(SpecTok::LParen) => "Some(LParen)"@,
        Some(SpecTok::RParen) => "Some(RParen)"@,
    }
}

/// The message that explains an expression error.
pub open spec fn expr_err_message(e: ExprErr) -> Seq<char> {
    match e {
        ExprErr::UnclosedBracket => "unclosed '[' in expression"@,
        ExprErr::BadNumber(n) => "bad number '"@ + n + "'"@,
        ExprErr::UnexpectedChar(c) => "unexpected character '"@ + seq![c]
            + "' \u{2014} only numbers, column names, + - * / % ( ) are allowed"@,
        ExprErr::DivisionByZero => "division by zero"@,
        ExprErr::ModuloByZero => "modulo by zero"@,
        ExprErr::Overflow => "arithmetic overflow"@,
        ExprErr::UnknownName(n) => "unknown name '"@ + n + "' in expression"@,
        ExprErr::MissingParen => "missing ')'"@,
        ExprErr::UnexpectedToken(t) => "unexpected token: "@ + token_debug(t),
        ExprErr::Empty => "empty expression"@,
        ExprErr::Trailing => "trailing input after expression"@,
        ExprErr::NoProgress => "expression parser made no progress"@,
    }
}

fn token_debug_exec(t: &Option<Tok>) -> (r: String)
    ensures
        r@ == token_debug(match t {
            Some(x) => Some(x.spec()),
            None => None,
        }),
{
    match t {
        None => "None".to_owned(),
        Some(Tok::Num(d)) => concat3("Some(Num(", d.to_text().as_str(), "))"),
        Some(Tok::Ident(s)) => concat3("Some(Ident(\"", s.as_str(), "\"))"),
        Some(Tok::Plus) => "Some(Plus)".to_owned(),
        Some(Tok::Minus) => "Some(Minus)".to_owned(),
        Some(Tok::Star) => "Some(Star)".to_owned(),
        Some(Tok::Slash) => "Some(Slash)".to_owned(),
        Some(Tok::Percent) => "Some(Percent)".to_owned(),
        Some(Tok::LParen) => "Some(LParen)".to_owned(),
        Some(Tok::RParen) => "Some(RParen)".to_owned(),
    }
}

fn lit(s: &str) -> (r: String)
    ensures
        r@ == s@,
{
    s.to_owned()
}

impl ExprFail {
    /// The message that explains the error.
    pub fn message(&self) -> (r: String)
        ensures
            r@ == expr_err_message(self.spec()),
    {
        match self {
            ExprFail::UnclosedBracket => lit("unclosed '[' in expression"),
            ExprFail::BadNumber(n) => concat3("bad number '", n.as_str(), "'"),
            ExprFail::UnexpectedChar(c) => {
                let v = vec![*c];
                let cs = string_of(v.as_slice());
                proof {
                    assert(v@ =~= seq![*c]);
                }
                concat3("unexpected character '", cs.as_str(),
                    "' \u{2014} only numbers, column names, + - * / % ( ) are allowed")
            },
            ExprFail::DivisionByZero => lit("division by zero"),
            ExprFail::ModuloByZero => lit("modulo by zero"),
            ExprFail::Overflow => lit("arithmetic overflow"),
            ExprFail::UnknownName(n) => concat3("unknown name '", n.as_str(), "' in expression"),
            ExprFail::MissingParen => lit("missing ')'"),
            ExprFail::UnexpectedToken(t) => {
                let d = token_debug_exec(t);
                concat("unexpected token: ", d.as_str())
            },
            ExprFail::Empty => lit("empty expression"),
            ExprFail::Trailing => lit("trailing input after expression"),
            ExprFail::NoProgress => lit("expression parser made no progress"),
        }
    }
}

/// `r` is the outcome that `s` describes: the same value, or an expression error
/// with the matching message.
pub open spec fn eval_outcome(r: Result<Dec, CoreError>, s: Result<(i128, u32), ExprErr>) -> bool {
    match (r, s) {
        (Ok(d), Ok(v)) => d.pair() == v,
        (Err(CoreError::Expr(m)), Err(x)) => m@ == expr_err_message(x),
        _ => false,
    }
}

/// Evaluates an expression with names resolved through `vars` (column values, etc.).
pub fn eval_with(src: &str, vars: &NameTable) -> (r: Result<Dec, CoreError>)
    ensures
        eval_outcome(r, eval_spec(src@, table_fn(*vars))),
{
    let c = chars_of(src);
    let toks = match lex_chars(&c) {
        Ok(t) => t,
        Err(e) => {
            return Err(CoreError::Expr(e.message()));
        },
    };
    if toks.len() == 0 {
        return Err(CoreError::Expr(ExprFail::Empty.message()));
    }
    match parse_expr(&toks, vars, 0) {
        Err(e) => Err(CoreError::Expr(e.message())),
        Ok((v, p)) => {
            if p != toks.len() {
                Err(CoreError::Expr(ExprFail::Trailing.message()))
            } else {
                Ok(v)
            }
        },
    }
}

/// Evaluates a purely numeric expression (the `calculate` tool).
pub fn eval(src: &str) -> (r: Result<Dec, CoreError>)
    ensures
        eval_outcome(r, eval_spec(src@, no_names())),
{
    let t = NameTable::empty();
    proof {
        assert(table_fn(t) =~= no_names());
    }
    eval_with(src, &t)
}

/// The value that a row of named values gives a name: the first entry whose
/// trimmed, lower-cased name matches the trimmed, lower-cased name asked for.
pub open spec fn row_lookup(row: Seq<(String, Dec)>, name: Seq<char>, i: int) -> Option<(i128, u32)>
    decreases row.len() - i,
{
    if i < 0 || i >= row.len() {
        None
    } else if fold_name(row[i].0@) == fold_name(name) {
        Some(row[i].1.pair())
    } else {
        row_lookup(row, name, i + 1)
    }
}

pub open spec fn row_fn(row: Seq<(String, Dec)>) -> spec_fn(Seq<char>) -> Option<(i128, u32)> {
    |n: Seq<char>| row_lookup(row, n, 0)
}

/// Evaluates an expression against one row of named values; names are matched
/// after trimming and lower-casing, the first match wins.
pub fn eval_row(src: &str, row: &Vec<(String, Dec)>) -> (r: Result<Dec, CoreError>)
    ensures
        eval_outcome(r, eval_spec(src@, row_fn(row@))),
{
    let mut entries: Vec<VarEntry> = Vec::new();
    let mut i: usize = 0;
    while i < row.len()
        invariant
            i <= row@.len(),
            entries@.len() == i,
            forall|k: int| 0 <= k < i ==> (#[trigger] entries@[k]).name@ == row@[k].0@
                && opt_pair(entries@[k].value) == Some(row@[k].1.pair()),
        decreases row.len() - i,
    {
        entries.push(VarEntry { name: row[i].0.as_str().to_owned(), value: Some(row[i].1) });
        i = i + 1;
    }
    let t = NameTable { entries, folded: true };
    proof {
        assert forall|n: Seq<char>| #[trigger] table_fn(t)(n) == row_fn(row@)(n) by {
            lemma_row_lookup_same(t, row@, n, 0);
        }
        assert(table_fn(t) =~= row_fn(row@));
    }
    eval_with(src, &t)
}

proof fn lemma_row_lookup_same(t: NameTable, row: Seq<(String, Dec)>, n: Seq<char>, i: int)
    requires
        t.folded,
        0 <= i <= row.len(),
        t.entries@.len() == row.len(),
        forall|k: int| 0 <= k < row.len() ==> (#[trigger] t.entries@[k]).name@ == row[k].0@
            && opt_pair(t.entries@[k].value) == Some(row[k].1.pair()),
    ensures
        lookup_from(t.entries@, true, n, i) == row_lookup(row, n, i),
    decreases row.len() - i,
{
    if i < row.len() {
        let _ = t.entries@[i];
        lemma_row_lookup_same(t, row, n, i + 1);
    }
}

} // verus!

//! JSON values as the engine reads and writes them: tool arguments, tool results,
//! previews. Objects keep their keys sorted and unique, as a JSON map does, and
//! the compact text of a value is written here.

use vstd::prelude::*;
use crate::dec::Dec;
use crate::text::{seq_lt, compare_chars, chars_of, string_of, nat_digits, u64_to_string,
    lemma_seq_lt_irreflexive, lemma_seq_lt_trans, lemma_seq_lt_total};

verus! {

/// A JSON number: its text, and its value as an unsigned integer and as a decimal
/// where it has one.
#[derive(Clone, Debug)]
pub struct JsonNumber {
    pub text: String,
    pub as_u64: Option<u64>,
    pub as_dec: Option<Dec>,
}

/// A JSON value.
#[derive(Debug)]
pub enum Json {
    Null,
    Bool(bool),
    Number(JsonNumber),
    Str(String),
    Array(Vec<Json>),
    /// Entries with strictly increasing keys.
    Object(Vec<(String, Json)>),
}

/// Keys of `e` strictly increase.
pub open spec fn keys_sorted(e: Seq<(String, Json)>) -> bool {
    forall|i: int, j: int| 0 <= i < j < e.len() ==> seq_lt(#[trigger] e[i].0@, #[trigger] e[j].0@)
}

/// The value stored under `k`, if any.
pub open spec fn obj_get(e: Seq<(String, Json)>, k: Seq<char>) -> Option<Json>
    decreases e.len(),
{
    if e.len() == 0 {
        None
    } else if e[0].0@ == k {
        Some(e[0].1)
    } else {
        obj_get(e.drop_first(), k)
    }
}

impl Json {
    /// The value stored under `k`, for an object.
    pub open spec fn get_spec(self, k: Seq<char>) -> Option<Json> {
        match self {
            Json::Object(e) => obj_get(e@, k),
            _ => None,
        }
    }

    /// The unsigned integer `n` as a JSON number.
    pub fn from_u64(n: u64) -> (r: Json)
        ensures
            r matches Json::Number(x) && x.text@ == nat_digits(n as nat) && x.as_u64 == Some(n)
                && (x.as_dec matches Some(d) && d.pair() == (n as i128, 0u32)),
    {
        Json::Number(JsonNumber { text: u64_to_string(n), as_u64: Some(n), as_dec: Some(Dec::from_u64(n)) })
    }

    /// A JSON string holding a copy of `s`.
    pub fn from_str(s: &str) -> (r: Json)
        ensures
            r matches Json::Str(x) && x@ == s@,
    {
        Json::Str(s.to_owned())
    }

    /// An empty object.
    pub fn object() -> (r: Json)
        ensures
            r matches Json::Object(e) && e@.len() == 0,
    {
        Json::Object(Vec::new())
    }

    /// The entry stored under `key`, for an object; `None` otherwise.
    pub fn get(&self, key: &str) -> (r: Option<&Json>)
        ensures
            match r {
                Some(v) => self.get_spec(key@) == Some(*v),
                None => self.get_spec(key@) is None,
            },
    {
        match self {
            Json::Object(e) => {
                assert(self.get_spec(key@) == obj_get(e@, key@));
                let k = chars_of(key);
                let mut i: usize = 0;
                proof {
                    assert(e@.skip(0) =~= e@);
                }
                while i < e.len()
                    invariant
                        i <= e@.len(),
                        k@ == key@,
                        self.get_spec(key@) == obj_get(e@, key@),
                        obj_get(e@, key@) == obj_get(e@.skip(i as int), key@),
                    decreases e.len() - i,
                {
                    let kk = chars_of(e[i].0.as_str());
                    proof {
                        assert(e@.skip(i as int)[0] == e@[i as int]);
                        assert(e@.skip(i as int).drop_first() =~= e@.skip(i + 1));
                    }
                    if compare_chars(&kk, &k) == 0 {
                        proof {
                            assert(e@.skip(i as int).len() > 0);
                            assert(e@.skip(i as int)[0].0@ == key@);
                            assert(obj_get(e@.skip(i as int), key@) == Some(e@[i as int].1));
                            assert(obj_get(e@, key@) == Some(e[i as int].1));
                        }
                        let entry = &e[i];
                        let val = &entry.1;
                        assert(*val == e@[i as int].1);
                        assert(self.get_spec(key@) == Some(*val));
                        return Some(val);
                    }
                    i = i + 1;
                }
                None
            },
            _ => None,
        }
    }

    /// The string, for a JSON string.
    pub fn as_str(&self) -> (r: Option<&String>)
        ensures
            match self {
                Json::Str(s) => r == Some(s),
                _ => r is None,
            },
    {
        match self {
            Json::Str(s) => Some(s),
            _ => None,
        }
    }

    /// The items, for a JSON array.
    pub fn as_array(&self) -> (r: Option<&Vec<Json>>)
        ensures
            match self {
                Json::Array(v) => r == Some(v),
                _ => r is None,
            },
    {
        match self {
            Json::Array(v) => Some(v),
            _ => None,
        }
    }

    /// The unsigned integer, for a JSON number that is one.
    pub fn as_u64(&self) -> (r: Option<u64>)
        ensures
            match self {
                Json::Number(n) => r == n.as_u64,
                _ => r is None,
            },
    {
        match self {
            Json::Number(n) => n.as_u64,
            _ => None,
        }
    }

    /// The boolean, for a JSON boolean.
    pub fn as_bool(&self) -> (r: Option<bool>)
        ensures
            match self {
                Json::Bool(b) => r == Some(*b),
                _ => r is None,
            },
    {
        match self {
            Json::Bool(b) => Some(*b),
            _ => None,
        }
    }

    /// Whether this is JSON `null`.
    pub fn is_null(&self) -> (r: bool)
        ensures
            r == (self is Null),
    {
        matches!(self, Json::Null)
    }

    /// The item at index `i`, for an array.
    pub fn at(&self, i: usize) -> (r: Option<&Json>)
        ensures
            match self {
                Json::Array(v) => if i < v@.len() {
                    r == Some(&v@[i as int])
                } else {
                    r is None
                },
                _ => r is None,
            },
    {
        match self {
            Json::Array(v) => {
                if i < v.len() {
                    Some(&v[i])
                } else {
                    None
                }
            },
            _ => None,
        }
    }
}

/// Where `k` goes among sorted keys: the first index whose key is not below `k`.
pub open spec fn insert_pos(e: Seq<(String, Json)>, k: Seq<char>) -> int
    decreases e.len(),
{
    if e.len() == 0 {
        0
    } else if seq_lt(e[0].0@, k) {
        1 + insert_pos(e.drop_first(), k)
    } else {
        0
    }
}

proof fn lemma_obj_get_index(e: Seq<(String, Json)>, k: Seq<char>, i: int)
    requires
        keys_sorted(e),
        0 <= i < e.len(),
        e[i].0@ == k,
    ensures
        obj_get(e, k) == Some(e[i].1),
    decreases e.len(),
{
    if i > 0 {
        if e[0].0@ == k {
            lemma_seq_lt_irreflexive(k);
            assert(seq_lt(e[0].0@, e[i].0@));
        }
        assert(keys_sorted(e.drop_first())) by {
            assert forall|a: int, b: int| 0 <= a < b < e.drop_first().len() implies seq_lt(
                #[trigger] e.drop_first()[a].0@,
                #[trigger] e.drop_first()[b].0@,
            ) by {
                assert(e.drop_first()[a] == e[a + 1]);
                assert(e.drop_first()[b] == e[b + 1]);
            }
        }
        lemma_obj_get_index(e.drop_first(), k, i - 1);
    }
}

proof fn lemma_obj_get_absent(e: Seq<(String, Json)>, k: Seq<char>)
    requires
        forall|i: int| 0 <= i < e.len() ==> (#[trigger] e[i]).0@ != k,
    ensures
        obj_get(e, k) is None,
    decreases e.len(),
{
    if e.len() > 0 {
        assert forall|i: int| 0 <= i < e.drop_first().len() implies (#[trigger] e.drop_first()[i]).0@ != k by {
            assert(e.drop_first()[i] == e[i + 1]);
        }
        lemma_obj_get_absent(e.drop_first(), k);
    }
}

fn key_below(a: &String, kc: &Vec<char>) -> (r: bool)
    ensures
        r == seq_lt(a@, kc@),
{
    let x = chars_of(a.as_str());
    compare_chars(&x, kc) == -1
}

fn key_equal(a: &String, kc: &Vec<char>) -> (r: bool)
    ensures
        r == (a@ == kc@),
{
    let x = chars_of(a.as_str());
    compare_chars(&x, kc) == 0
}

/// Stores `v` under `k` in a sorted entry list, replacing what was there.
pub fn obj_insert(e: &mut Vec<(String, Json)>, k: String, v: Json)
    requires
        keys_sorted(old(e)@),
    ensures
        keys_sorted(final(e)@),
        obj_get(final(e)@, k@) == Some(v),
        forall|k2: Seq<char>| k2 != k@ ==> obj_get(final(e)@, k2) == obj_get(old(e)@, k2),
{
    let kc = chars_of(k.as_str());
    let mut i: usize = 0;
    while i < e.len() && key_below(&e[i].0, &kc)
        invariant
            i <= e@.len(),
            e@ == old(e)@,
            kc@ == k@,
            keys_sorted(e@),
            forall|j: int| 0 <= j < i ==> seq_lt(#[trigger] e@[j].0@, k@),
        decreases e.len() - i,
    {
        i = i + 1;
    }
    let found = i < e.len() && key_equal(&e[i].0, &kc);
    let ghost old_e = e@;
    if found {
        proof {
            assert(old_e[i as int].0@ == k@);
        }
        e.set(i, (k, v));
        proof {
            let ne = e@;
            assert forall|a: int, b: int| 0 <= a < b < ne.len() implies seq_lt(#[trigger] ne[a].0@, #[trigger] ne[b].0@) by {
                assert(seq_lt(old_e[a].0@, old_e[b].0@));
            }
            lemma_obj_get_index(ne, k@, i as int);
            assert forall|k2: Seq<char>| k2 != k@ implies obj_get(e@, k2) == obj_get(old(e)@, k2) by {
                lemma_obj_get_same_keys(old_e, ne, i as int, k2);
            }
        }
    } else {
        proof {
            if i < old_e.len() {
                lemma_seq_lt_total(old_e[i as int].0@, k@);
                assert(seq_lt(k@, old_e[i as int].0@));
            }
        }
        e.insert(i, (k, v));
        proof {
            let ne = e@;
            assert(ne[i as int].0@ == k@);
            assert forall|j: int| 0 <= j < i implies ne[j] == old_e[j] by {}
            assert forall|j: int| i < j < ne.len() implies ne[j] == old_e[j - 1] by {}
            assert forall|a: int, b: int| 0 <= a < b < ne.len() implies seq_lt(#[trigger] ne[a].0@, #[trigger] ne[b].0@) by {
                if b < i {
                    assert(seq_lt(old_e[a].0@, old_e[b].0@));
                } else if b == i {
                    assert(seq_lt(old_e[a].0@, k@));
                } else if a == i {
                    if b - 1 > i {
                        assert(seq_lt(old_e[i as int].0@, old_e[b - 1].0@));
                        lemma_seq_lt_trans(k@, old_e[i as int].0@, old_e[b - 1].0@);
                    }
                } else if a < i {
                    assert(seq_lt(old_e[a].0@, k@));
                    if b - 1 > i {
                        assert(seq_lt(old_e[i as int].0@, old_e[b - 1].0@));
                        lemma_seq_lt_trans(k@, old_e[i as int].0@, old_e[b - 1].0@);
                    }
                    lemma_seq_lt_trans(old_e[a].0@, k@, old_e[b - 1].0@);
                } else {
                    assert(seq_lt(old_e[a - 1].0@, old_e[b - 1].0@));
                }
            }
            lemma_obj_get_index(ne, k@, i as int);
            assert forall|k2: Seq<char>| k2 != k@ implies obj_get(e@, k2) == obj_get(old(e)@, k2) by {
                lemma_obj_get_insert(old_e, ne, i as int, k@, k2);
            }
        }
    }
}

proof fn lemma_obj_get_same_keys(a: Seq<(String, Json)>, b: Seq<(String, Json)>, i: int, k2: Seq<char>)
    requires
        a.len() == b.len(),
        0 <= i < a.len(),
        forall|j: int| 0 <= j < a.len() && j != i ==> a[j] == b[j],
        a[i].0@ == b[i].0@,
        a[i].0@ != k2,
    ensures
        obj_get(b, k2) == obj_get(a, k2),
    decreases a.len(),
{
    if a.len() > 0 {
        if i > 0 {
            assert(a[0] == b[0]);
            if a[0].0@ != k2 {
                lemma_obj_get_same_keys(a.drop_first(), b.drop_first(), i - 1, k2);
            }
        } else {
            assert(a.drop_first() =~= b.drop_first());
        }
    }
}

proof fn lemma_obj_get_insert(a: Seq<(String, Json)>, b: Seq<(String, Json)>, i: int, k: Seq<char>, k2: Seq<char>)
    requires
        b.len() == a.len() + 1,
        0 <= i <= a.len(),
        forall|j: int| 0 <= j < i ==> b[j] == a[j],
        forall|j: int| i < j < b.len() ==> b[j] == a[j - 1],
        b[i].0@ == k,
        k != k2,
    ensures
        obj_get(b, k2) == obj_get(a, k2),
    decreases a.len(),
{
    if i > 0 {
        assert(a[0] == b[0]);
        if a[0].0@ != k2 {
            lemma_obj_get_insert(a.drop_first(), b.drop_first(), i - 1, k, k2);
        }
    } else {
        assert(b.drop_first() =~= a);
    }
}

} // verus!

verus! {

pub open spec fn hex_digit(d: nat) -> char {
    if d < 10 {
        digit_of(d)
    } else if d == 10 {
        'a'
    } else if d == 11 {
        'b'
    } else if d == 12 {
        'c'
    } else if d == 13 {
        'd'
    } else if d == 14 {
        'e'
    } else {
        'f'
    }
}

pub open spec fn digit_of(d: nat) -> char {
    crate::text::digit_char(d)
}

/// How one character is written inside a JSON string.
pub open spec fn escape_char(c: char) -> Seq<char> {
    if c == '"' {
        seq!['\\', '"']
    } else if c == '\\' {
        seq!['\\', '\\']
    } else if c == '\n' {
        seq!['\\', 'n']
    } else if c == '\r' {
        seq!['\\', 'r']
    } else if c == '\t' {
        seq!['\\', 't']
    } else if c == '\x08' {
        seq!['\\', 'b']
    } else if c == '\x0c' {
        seq!['\\', 'f']
    } else if (c as u32) < 0x20 {
        seq!['\\', 'u', '0', '0', hex_digit((c as u32 / 16) as nat), hex_digit((c as u32 % 16) as nat)]
    } else {
        seq![c]
    }
}

/// The escaped body of a JSON string.
pub open spec fn escape_str(s: Seq<char>) -> Seq<char>
    decreases s.len(),
{
    if s.len() == 0 {
        seq![]
    } else {
        escape_str(s.drop_last()) + escape_char(s.last())
    }
}

/// The compact text of a JSON value (no spaces, object keys in order).
pub open spec fn json_text(j: Json) -> Seq<char>
    decreases j,
{
    match j {
        Json::Null => seq!['n', 'u', 'l', 'l'],
        Json::Bool(b) => if b {
            seq!['t', 'r', 'u', 'e']
        } else {
            seq!['f', 'a', 'l', 's', 'e']
        },
        Json::Number(n) => n.text@,
        Json::Str(s) => seq!['"'] + escape_str(s@) + seq!['"'],
        Json::Array(v) => seq!['['] + items_text(v@) + seq![']'],
        Json::Object(e) => seq!['{'] + entries_text(e@) + seq!['}'],
    }
}

/// The comma-separated texts of array items.
pub open spec fn items_text(s: Seq<Json>) -> Seq<char>
    decreases s,
{
    if s.len() == 0 {
        seq![]
    } else if s.len() == 1 {
        json_text(s[0])
    } else {
        items_text(s.drop_last()) + seq![','] + json_text(s.last())
    }
}

/// The comma-separated `"key":value` texts of object entries.
pub open spec fn entries_text(s: Seq<(String, Json)>) -> Seq<char>
    decreases s,
{
    if s.len() == 0 {
        seq![]
    } else if s.len() == 1 {
        seq!['"'] + escape_str(s[0].0@) + seq!['"', ':'] + json_text(s[0].1)
    } else {
        entries_text(s.drop_last()) + seq![','] + seq!['"'] + escape_str(s.last().0@) + seq!['"', ':']
            + json_text(s.last().1)
    }
}

} // verus!

verus! {

fn hex_digit_exec(d: u32) -> (c: char)
    requires
        d < 16,
    ensures
        c == hex_digit(d as nat),
{
    if d < 10 {
        if d == 0 { '0' } else if d == 1 { '1' } else if d == 2 { '2' } else if d == 3 { '3' }
        else if d == 4 { '4' } else if d == 5 { '5' } else if d == 6 { '6' } else if d == 7 { '7' }
        else if d == 8 { '8' } else { '9' }
    } else if d == 10 {
        'a'
    } else if d == 11 {
        'b'
    } else if d == 12 {
        'c'
    } else if d == 13 {
        'd'
    } else if d == 14 {
        'e'
    } else {
        'f'
    }
}

fn push_all(out: &mut Vec<char>, v: &Vec<char>)
    ensures
        final(out)@ == old(out)@ + v@,
{
    let ghost s = v@;
    let mut i: usize = 0;
    while i < v.len()
        invariant
            i <= v@.len(),
            v@ == s,
            out@ == old(out)@ + s.take(i as int),
        decreases v.len() - i,
    {
        out.push(v[i]);
        i = i + 1;
        proof {
            assert(out@ =~= old(out)@ + s.take(i as int));
        }
    }
    proof {
        assert(s.take(v@.len() as int) =~= s);
    }
}

fn push_escaped_char(out: &mut Vec<char>, c: char)
    ensures
        final(out)@ == old(out)@ + escape_char(c),
{
    let ghost before = out@;
    if c == '"' {
        out.push('\\');
        out.push('"');
    } else if c == '\\' {
        out.push('\\');
        out.push('\\');
    } else if c == '\n' {
        out.push('\\');
        out.push('n');
    } else if c == '\r' {
        out.push('\\');
        out.push('r');
    } else if c == '\t' {
        out.push('\\');
        out.push('t');
    } else if c == '\x08' {
        out.push('\\');
        out.push('b');
    } else if c == '\x0c' {
        out.push('\\');
        out.push('f');
    } else if (c as u32) < 0x20 {
        let code = c as u32;
        out.push('\\');
        out.push('u');
        out.push('0');
        out.push('0');
        out.push(hex_digit_exec(code / 16));
        out.push(hex_digit_exec(code % 16));
    } else {
        out.push(c);
    }
    proof {
        assert(out@ =~= before + escape_char(c));
    }
}

fn push_escaped(out: &mut Vec<char>, s: &str)
    ensures
        final(out)@ == old(out)@ + escape_str(s@),
{
    let v = chars_of(s);
    let mut i: usize = 0;
    proof {
        assert(v@.take(0) =~= seq![]);
        assert(out@ =~= old(out)@ + escape_str(v@.take(0)));
    }
    while i < v.len()
        invariant
            i <= v@.len(),
            v@ == s@,
            out@ == old(out)@ + escape_str(v@.take(i as int)),
        decreases v.len() - i,
    {
        push_escaped_char(out, v[i]);
        proof {
            assert(v@.take(i + 1).drop_last() =~= v@.take(i as int));
            assert(out@ =~= old(out)@ + escape_str(v@.take(i + 1)));
        }
        i = i + 1;
    }
    proof {
        assert(v@.take(v@.len() as int) =~= v@);
    }
}

fn write_json(j: &Json, out: &mut Vec<char>)
    ensures
        final(out)@ == old(out)@ + json_text(*j),
    decreases j,
{
    let ghost before = out@;
    match j {
        Json::Null => {
            out.push('n');
            out.push('u');
            out.push('l');
            out.push('l');
        },
        Json::Bool(b) => {
            if *b {
                out.push('t');
                out.push('r');
                out.push('u');
                out.push('e');
            } else {
                out.push('f');
                out.push('a');
                out.push('l');
                out.push('s');
                out.push('e');
            }
        },
        Json::Number(n) => {
            let t = chars_of(n.text.as_str());
            push_all(out, &t);
        },
        Json::Str(s) => {
            out.push('"');
            push_escaped(out, s.as_str());
            out.push('"');
        },
        Json::Array(v) => {
            out.push('[');
            let ghost open = out@;
            let mut i: usize = 0;
            proof {
                assert(v@.take(0) =~= seq![]);
            }
            while i < v.len()
                invariant
                    i <= v@.len(),
                    *j == Json::Array(*v),
                    out@ == open + items_text(v@.take(i as int)),
                decreases v.len() - i,
            {
                let ghost mid = out@;
                if i > 0 {
                    out.push(',');
                }
                proof {
                    assert(decreases_to!(*j => (*j)->Array_0));
                    assert(decreases_to!(*v => v@));
                    assert(decreases_to!(v@ => v@[i as int]));
                    assert(decreases_to!(*j => v@[i as int]));
                }
                write_json(&v[i], out);
                proof {
                    let t = v@.take(i + 1);
                    assert(t.last() == v@[i as int]);
                    if i > 0 {
                        assert(t.drop_last() =~= v@.take(i as int));
                    } else {
                        assert(t.len() == 1);
                    }
                    assert(out@ =~= open + items_text(t));
                }
                i = i + 1;
            }
            proof {
                assert(v@.take(v@.len() as int) =~= v@);
            }
            out.push(']');
        },
        Json::Object(e) => {
            out.push('{');
            let ghost open = out@;
            let mut i: usize = 0;
            proof {
                assert(e@.take(0) =~= seq![]);
            }
            while i < e.len()
                invariant
                    i <= e@.len(),
                    *j == Json::Object(*e),
                    out@ == open + entries_text(e@.take(i as int)),
                decreases e.len() - i,
            {
                if i > 0 {
                    out.push(',');
                }
                out.push('"');
                push_escaped(out, e[i].0.as_str());
                out.push('"');
                out.push(':');
                proof {
                    assert(decreases_to!(*j => (*j)->Object_0));
                    assert(decreases_to!(*e => e@));
                    assert(decreases_to!(e@ => e@[i as int]));
                    assert(decreases_to!(e@[i as int] => e@[i as int].1));
                    assert(decreases_to!(*j => e@[i as int].1));
                }
                write_json(&e[i].1, out);
                proof {
                    let t = e@.take(i + 1);
                    assert(t.last() == e@[i as int]);
                    if i > 0 {
                        assert(t.drop_last() =~= e@.take(i as int));
                    } else {
                        assert(t.len() == 1);
                    }
                    assert(out@ =~= open + entries_text(t));
                }
                i = i + 1;
            }
            proof {
                assert(e@.take(e@.len() as int) =~= e@);
            }
            out.push('}');
        },
    }
    proof {
        assert(out@ =~= before + json_text(*j));
    }
}

impl Json {
    /// The compact JSON text of this value.
    pub fn to_text(&self) -> (r: String)
        ensures
            r@ == json_text(*self),
    {
        let mut out: Vec<char> = Vec::new();
        write_json(self, &mut out);
        proof {
            assert(out@ =~= json_text(*self));
        }
        string_of(out.as_slice())
    }
}

} // verus!

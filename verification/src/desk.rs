//! What the desktop shell shows: journal lines and the model server's health,
//! plus the small checks its commands make before calling the engine.

use vstd::prelude::*;
use crate::audit::AuditEntry;
use crate::cells::{CoreError, err_message};
use crate::text::{chars_of, concat, concat3, trim, trim_str, blank, str_eq, nat_digits, u64_to_string};

verus! {

/// A journal line as the shell shows it.
pub struct JournalEntryDto {
    pub seq: u32,
    /// The time of day (UTC) it was recorded, `HH:MM:SS`.
    pub time: String,
    pub tool: String,
    pub summary: String,
    pub ok: bool,
}

/// The model server's state as the shell shows it.
pub struct HealthDto {
    pub online: bool,
    pub models: Vec<String>,
    pub configured_model: String,
    pub model_available: bool,
    pub detail: String,
}

fn lit(s: &str) -> (r: String)
    ensures
        r@ == s@,
{
    s.to_owned()
}

/// Two digits: a leading zero below ten.
pub open spec fn two_digits(n: nat) -> Seq<char> {
    if n < 10 {
        seq!['0'] + nat_digits(n)
    } else {
        nat_digits(n)
    }
}

/// The second of the day (UTC) of a time in microseconds since the epoch.
pub open spec fn second_of_day(micros: int) -> int {
    (micros / 1_000_000) % 86400
}

/// `HH:MM:SS` of a second of the day.
pub open spec fn clock_text(sod: int) -> Seq<char> {
    two_digits((sod / 3600) as nat) + ":"@ + two_digits(((sod % 3600) / 60) as nat) + ":"@ + two_digits((sod % 60) as nat)
}

fn two_digits_exec(n: u64) -> (r: String)
    ensures
        r@ == two_digits(n as nat),
{
    if n < 10 {
        let d = u64_to_string(n);
        let mut z = lit("0");
        proof {
            reveal_strlit("0");
        }
        z.append(d.as_str());
        proof {
            assert(z@ =~= seq!['0'] + nat_digits(n as nat));
        }
        z
    } else {
        u64_to_string(n)
    }
}

proof fn lemma_negative_second(micros: int, mag: int, c: int)
    requires
        micros < 0,
        mag == -micros,
        c == (mag + 999_999) / 1_000_000,
    ensures
        micros / 1_000_000 == -c,
        (-c) % 86400 == (86400 - c % 86400) % 86400,
{
    assert(micros / 1_000_000 == -c) by (nonlinear_arith)
        requires
            micros < 0,
            mag == -micros,
            c == (mag + 999_999) / 1_000_000,
    {
    }
    assert((-c) % 86400 == (86400 - c % 86400) % 86400) by (nonlinear_arith)
        requires
            c >= 0,
    {
    }
}

/// The second of the day (UTC) of a time in microseconds since the epoch.
fn second_of_day_exec(micros: i64) -> (r: u64)
    ensures
        r as int == second_of_day(micros as int),
        r < 86400,
{
    if micros >= 0 {
        let u = micros as u64;
        (u / 1_000_000) % 86400
    } else {
        let mag: u128 = (0i128 - micros as i128) as u128;
        let c = (mag + 999_999) / 1_000_000;
        proof {
            lemma_negative_second(micros as int, mag as int, c as int);
        }
        ((86400 - c % 86400) % 86400) as u64
    }
}

/// `HH:MM:SS` (UTC) of a time in microseconds since the epoch.
pub fn clock(micros: i64) -> (r: String)
    ensures
        r@ == clock_text(second_of_day(micros as int)),
{
    let sod = second_of_day_exec(micros);
    let h = two_digits_exec(sod / 3600);
    let m = two_digits_exec((sod % 3600) / 60);
    let s = two_digits_exec(sod % 60);
    let a = concat3(h.as_str(), ":", m.as_str());
    concat3(a.as_str(), ":", s.as_str())
}

/// A journal entry as a journal line.
pub fn journal_entry(e: &AuditEntry) -> (r: JournalEntryDto)
    ensures
        r.seq == e.seq,
        r.time@ == clock_text(second_of_day(e.time_micros as int)),
        r.tool@ == e.tool@,
        r.summary@ == e.summary@,
        r.ok == e.ok,
{
    JournalEntryDto {
        seq: e.seq,
        time: clock(e.time_micros),
        tool: lit(e.tool.as_str()),
        summary: lit(e.summary.as_str()),
        ok: e.ok,
    }
}

/// Whether `m` names the configured model: the same name, or the name with a
/// tag (`model:tag`).
pub open spec fn names_model(m: Seq<char>, model: Seq<char>) -> bool {
    m == model || (m.len() > model.len() && m.take(model.len() + 1int) == model + ":"@)
}

/// Whether the configured model is among those the server has.
pub fn model_available(models: &Vec<String>, model: &str) -> (r: bool)
    ensures
        r == exists|i: int| 0 <= i < models@.len() && names_model((#[trigger] models@[i])@, model@),
{
    let prefix = concat(model, ":");
    let pc = chars_of(prefix.as_str());
    let mut i: usize = 0;
    while i < models.len()
        invariant
            i <= models@.len(),
            pc@ == model@ + ":"@,
            forall|k: int| 0 <= k < i ==> !names_model((#[trigger] models@[k])@, model@),
        decreases models.len() - i,
    {
        let mc = chars_of(models[i].as_str());
        let mut starts = mc.len() >= pc.len();
        if starts {
            let head = crate::text::slice_vec(&mc, 0, pc.len());
            starts = crate::text::chars_eq(&head, &pc);
        }
        proof {
            reveal_strlit(":");
        }
        if str_eq(models[i].as_str(), model) || starts {
            return true;
        }
        i = i + 1;
    }
    false
}

/// The state the shell shows for a model-server check: the models the server
/// has, or why it could not be reached.
pub fn health(outcome: Result<Vec<String>, CoreError>, model: &str) -> (r: HealthDto)
    ensures
        r.configured_model@ == model@,
        match outcome {
            Ok(models) => {
                &&& r.online
                &&& r.models@ == models@
                &&& r.model_available == exists|i: int| 0 <= i < models@.len() && names_model((#[trigger] models@[i])@, model@)
                &&& r.detail@ == if r.model_available {
                    "ready"@
                } else {
                    "Ollama is running but '"@ + model@ + "' isn't pulled. Run: ollama pull "@ + model@
                }
            },
            Err(e) => {
                &&& !r.online
                &&& r.models@.len() == 0
                &&& !r.model_available
                &&& r.detail@ == err_message(e.spec())
            },
        },
{
    match outcome {
        Ok(models) => {
            let available = model_available(&models, model);
            let detail = if available {
                lit("ready")
            } else {
                let a = concat3("Ollama is running but '", model, "' isn't pulled. Run: ollama pull ");
                concat(a.as_str(), model)
            };
            HealthDto { online: true, models, configured_model: lit(model), model_available: available, detail }
        },
        Err(e) => HealthDto {
            online: false,
            models: Vec::new(),
            configured_model: lit(model),
            model_available: false,
            detail: e.message(),
        },
    }
}

/// A model name as the shell accepts it: trimmed, and not empty.
pub fn model_name(model: &str) -> (r: Result<String, String>)
    ensures
        trim(model@).len() == 0 ==> (r matches Err(m) && m@ == "model name is empty"@),
        trim(model@).len() > 0 ==> (r matches Ok(n) && n@ == trim(model@)),
{
    if blank(model) {
        Err(lit("model name is empty"))
    } else {
        Ok(trim_str(model))
    }
}

/// The page the table viewer asks for: from `offset` (0 by default), at most
/// `limit` rows (200 by default, never more than 500).
pub fn view_window(offset: Option<usize>, limit: Option<usize>) -> (r: (usize, usize))
    ensures
        r.0 == match offset {
            Some(o) => o,
            None => 0,
        },
        r.1 == ({
            let l = match limit {
                Some(l) => l,
                None => 200,
            };
            if l < 500 { l } else { 500 }
        }),
{
    let o = match offset {
        Some(o) => o,
        None => 0,
    };
    let l = match limit {
        Some(l) => l,
        None => 200,
    };
    (o, if l < 500 { l } else { 500 })
}

} // verus!

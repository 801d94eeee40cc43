//! Append-only audit journal. Every tool execution is recorded here: what ran,
//! with which arguments, and how it went.

use vstd::prelude::*;
use crate::json::Json;

verus! {

/// The current time as microseconds since the Unix epoch, read with
/// `std::time::SystemTime::now`; a clock set before the epoch reads as 0, and
/// one past the `i64` range as `i64::MAX`. Nothing is claimed of it.
#[verifier::external_body]
fn now_micros() -> (r: i64) {
    match std::time::SystemTime::now().duration_since(std::time::UNIX_EPOCH) {
        Ok(d) => i64::try_from(d.as_micros()).unwrap_or(i64::MAX),
        Err(_) => 0,
    }
}

/// One journal line.
pub struct AuditEntry {
    pub seq: u32,
    /// When it was recorded: microseconds since the Unix epoch (UTC).
    pub time_micros: i64,
    pub tool: String,
    /// Human-readable one-liner, e.g. "sum(Amount) grouped by [Vendor] on sales.xlsx -> r2 (14 rows)".
    pub summary: String,
    /// Exact arguments the model supplied: full reproducibility.
    pub args: Json,
    pub ok: bool,
}

/// The journal: entries in the order they were recorded, numbered from 1.
pub struct AuditLog {
    entries: Vec<AuditEntry>,
    next_seq: u32,
}

impl AuditLog {
    /// The journal is numbered consecutively: entry `i` has number `i + 1`.
    pub closed spec fn wf(&self) -> bool {
        &&& self.next_seq as int == self.entries@.len()
        &&& forall|i: int| 0 <= i < self.entries@.len() ==> (#[trigger] self.entries@[i]).seq == i + 1
    }

    pub closed spec fn entries_spec(&self) -> Seq<AuditEntry> {
        self.entries@
    }

    /// An empty journal.
    pub fn new() -> (r: AuditLog)
        ensures
            r.wf(),
            r.entries_spec().len() == 0,
    {
        AuditLog { entries: Vec::new(), next_seq: 0 }
    }

    /// Whether another entry can be numbered.
    pub fn has_room(&self) -> (r: bool)
        requires
            self.wf(),
        ensures
            r == (self.entries_spec().len() < u32::MAX),
    {
        self.next_seq < u32::MAX
    }

    /// Appends an entry and returns its number.
    pub fn record(&mut self, tool: &str, args: Json, summary: String, ok: bool) -> (r: u32)
        requires
            old(self).wf(),
            old(self).entries_spec().len() < u32::MAX,
        ensures
            final(self).wf(),
            r as int == final(self).entries_spec().len(),
            final(self).entries_spec().len() == old(self).entries_spec().len() + 1,
            final(self).entries_spec().drop_last() == old(self).entries_spec(),
            final(self).entries_spec().last().tool@ == tool@,
            final(self).entries_spec().last().summary@ == summary@,
            final(self).entries_spec().last().args == args,
            final(self).entries_spec().last().ok == ok,
            final(self).entries_spec().last().seq == r,
    {
        self.next_seq = self.next_seq + 1;
        let e = AuditEntry {
            seq: self.next_seq,
            time_micros: now_micros(),
            tool: tool.to_owned(),
            summary,
            args,
            ok,
        };
        let ghost before = self.entries@;
        self.entries.push(e);
        proof {
            assert(self.entries@.drop_last() =~= before);
        }
        self.next_seq
    }

    /// All entries, oldest first.
    /// Where the entries numbered after `after_seq` begin: those from the
    /// returned position on are numbered after it, those before it are not.
    pub fn first_after(&self, after_seq: u32) -> (r: usize)
        requires
            self.wf(),
        ensures
            r <= self.entries_spec().len(),
            forall|i: int| 0 <= i < r ==> (#[trigger] self.entries_spec()[i]).seq <= after_seq,
            forall|i: int| r <= i < self.entries_spec().len() ==> (#[trigger] self.entries_spec()[i]).seq > after_seq,
    {
        let n = after_seq as usize;
        if n < self.entries.len() {
            n
        } else {
            self.entries.len()
        }
    }

    pub fn entries(&self) -> (r: &[AuditEntry])
        ensures
            r@ == self.entries_spec(),
    {
        self.entries.as_slice()
    }
}

} // verus!

verus! {

/// The journal is numbered consecutively from 1, in the order of recording.
pub proof fn lemma_journal_numbered(log: AuditLog)
    requires
        log.wf(),
    ensures
        forall|i: int| 0 <= i < log.entries_spec().len() ==> (#[trigger] log.entries_spec()[i]).seq == i + 1,
{
}

} // verus!

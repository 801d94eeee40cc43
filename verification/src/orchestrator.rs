//! The agent turn: one user turn may take several model rounds
//! (model -> tool calls -> run -> tool results -> model -> ... -> answer).
//! The rounds are bounded, tool errors go back to the model as results, and
//! every tool call is journaled. The application runs the rounds (they wait on
//! the model server); the decisions are made here.

use vstd::prelude::*;
use crate::json::{Json, json_text};
use crate::ollama::ChatMessage;
use crate::text::{concat, concat3, trim, trim_str};
use crate::workspace::{Workspace, is_list_json};

verus! {

/// Most model rounds in one turn.
pub const MAX_ROUNDS: usize = 8;

/// The instructions the model gets at the start of every conversation.
pub const SYSTEM_PROMPT: &'static str = "You are the assistant inside Ledger Local, an offline accounting desktop app. You help an accountant work with the Excel/CSV/PDF files loaded in the workspace.\n\
    \n\
    NON-NEGOTIABLE RULES:\n\
    1. NEVER do arithmetic yourself \u{2014} not even adding two numbers. Always use the `calculate` tool or a table tool (aggregate, compute_column). Your own arithmetic is not trusted.\n\
    2. NEVER invent file names, sheet names, column names, or numbers. If unsure what exists, call `list_files` or `get_schema` first.\n\
    3. All amounts you report must come verbatim from tool results.\n\
    4. Tools never modify source files. Exports create new files; tell the user the saved path.\n\
    5. If a tool returns an error, read it, fix your arguments, and retry (different column name, etc.). Do not apologize repeatedly; just correct course.\n\
    6. Chain operations through result_id values (filter -> r1, aggregate r1 -> r2, export r2).\n\
    7. Answer concisely and in plain language. Show small result tables inline; offer export_xlsx for anything bigger.\n\
    8. If the user asks for something these tools cannot do (edit a source file in place, OCR a scanned PDF, forecasting), say so plainly and suggest what you can do instead.\n\
    9. Currency: report amounts exactly as computed; don't convert currencies unless the user provides a rate \u{2014} then use `calculate` with it.";

/// Progress reporting for the UI: one short line per step ("running
/// aggregate…", "exported to …").
pub trait StepSink {
    fn step(&self, text: &str);
}

/// Progress reporting that drops everything.
pub struct NullSink;

impl StepSink for NullSink {
    fn step(&self, text: &str) {
    }
}

fn lit(s: &str) -> (r: String)
    ensures
        r@ == s@,
{
    s.to_owned()
}

/// The system prompt: what the model may and may not do.
pub fn system_prompt() -> (r: String)
    ensures
        r@ == SYSTEM_PROMPT@,
{
    lit(SYSTEM_PROMPT)
}

/// Puts the system prompt first in the conversation, unless it starts with a
/// system message already.
pub fn ensure_system_prompt(history: &mut Vec<ChatMessage>)
    ensures
        (old(history)@.len() > 0 && old(history)@[0].role@ == "system"@) ==> final(history)@ == old(history)@,
        !(old(history)@.len() > 0 && old(history)@[0].role@ == "system"@) ==> {
            &&& final(history)@.len() == old(history)@.len() + 1
            &&& final(history)@[0].role@ == "system"@
            &&& final(history)@[0].content@ == SYSTEM_PROMPT@
            &&& final(history)@.skip(1) == old(history)@
        },
{
    let is_system = history.len() > 0 && crate::text::str_eq(history[0].role.as_str(), "system");
    if !is_system {
        let ghost before = history@;
        history.insert(0, ChatMessage::system(system_prompt()));
        proof {
            assert(history@.skip(1) =~= before);
        }
    }
}

/// The user's text with the workspace state appended, so the model is grounded
/// in what actually exists.
pub fn grounded_text(user_text: &str, ws: &Workspace) -> (r: String)
    requires
        ws.wf(),
    ensures
        exists|j: Json| is_list_json(j, *ws) && r@ == user_text@ + "\n\n[workspace state: "@ + json_text(j) + "]"@,
{
    let state = ws.list();
    let text = state.to_text();
    let a = concat3(user_text, "\n\n[workspace state: ", text.as_str());
    let r = concat(a.as_str(), "]");
    proof {
        assert(is_list_json(state, *ws));
    }
    r
}

/// The progress note for model round `round` (0-based).
pub open spec fn round_note(round: int) -> Seq<char> {
    if round == 0 {
        "thinking\u{2026}"@
    } else {
        "planning next step\u{2026}"@
    }
}

/// The rounds of one turn: at most `MAX_ROUNDS` of them.
pub struct Turn {
    rounds: usize,
}

impl Turn {
    #[verifier::type_invariant]
    spec fn bounded(self) -> bool {
        self.rounds <= MAX_ROUNDS
    }

    /// How many rounds have started.
    pub closed spec fn rounds_spec(self) -> int {
        self.rounds as int
    }

    /// A turn with no round yet.
    pub fn new() -> (r: Turn)
        ensures
            r.rounds_spec() == 0,
    {
        Turn { rounds: 0 }
    }

    /// Starts the next model round if one is left, with its progress note;
    /// `None` once all rounds are used.
    pub fn next_round(&mut self) -> (r: Option<String>)
        ensures
            0 <= final(self).rounds_spec() <= MAX_ROUNDS,
            old(self).rounds_spec() < MAX_ROUNDS ==> (r matches Some(n) && n@ == round_note(old(self).rounds_spec())
                && final(self).rounds_spec() == old(self).rounds_spec() + 1),
            old(self).rounds_spec() >= MAX_ROUNDS ==> r is None && final(self).rounds_spec() == old(self).rounds_spec(),
    {
        proof {
            use_type_invariant(&*self);
        }
        if self.rounds < MAX_ROUNDS {
            let note = if self.rounds == 0 { lit("thinking\u{2026}") } else { lit("planning next step\u{2026}") };
            self.rounds = self.rounds + 1;
            Some(note)
        } else {
            None
        }
    }
}

/// What the turn answers when the model replies without tool calls: its text
/// (trimmed), or a note when it is empty.
pub open spec fn answer_text(content: Seq<char>) -> Seq<char> {
    if trim(content).len() == 0 {
        "(the model returned an empty reply \u{2014} try rephrasing)"@
    } else {
        trim(content)
    }
}

/// The answer of the turn when a reply asks for no tool (`None`: run the calls).
pub fn reply_text(content: &str, call_count: usize) -> (r: Option<String>)
    ensures
        call_count > 0 ==> r is None,
        call_count == 0 ==> (r matches Some(t) && t@ == answer_text(content@)),
{
    if call_count > 0 {
        return None;
    }
    let t = trim_str(content);
    if crate::text::blank(content) {
        Some(lit("(the model returned an empty reply \u{2014} try rephrasing)"))
    } else {
        Some(t)
    }
}

/// The progress note for running a tool.
pub fn running_note(name: &str) -> (r: String)
    ensures
        r@ == "running "@ + name@ + "\u{2026}"@,
{
    concat3("running ", name, "\u{2026}")
}

/// The message that hands a tool's result back to the model (the payload as
/// compact JSON).
pub fn tool_message(name: &str, payload: &Json) -> (r: ChatMessage)
    ensures
        r.role@ == "tool"@,
        r.content@ == json_text(*payload),
        r.tool_name matches Some(n) && n@ == name@,
{
    ChatMessage::tool(name, payload.to_text())
}

/// What the turn answers when the rounds run out.
pub fn round_limit_text() -> (r: String)
    ensures
        r@ == "I stopped after 8 tool steps without finishing \u{2014} the request may be too complex for one turn. The journal shows what completed; try breaking the task into smaller asks."@,
{
    lit("I stopped after 8 tool steps without finishing \u{2014} the request may be too complex for one turn. The journal shows what completed; try breaking the task into smaller asks.")
}

} // verus!

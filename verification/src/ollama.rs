//! Messages exchanged with the local model (Ollama chat API), and what the
//! engine reads from the model server's answers. The HTTP client itself lives
//! with the application.

use vstd::prelude::*;
use crate::json::Json;
use crate::text::{chars_of, string_of, concat, concat3};
use crate::cells::{CoreError, ErrSpec};

verus! {

/// The function a model asks to call: its name and arguments.
#[derive(Debug)]
pub struct ToolCallFunction {
    pub name: String,
    /// The arguments, as a JSON object (some models send a JSON string instead).
    pub arguments: Json,
}

/// One tool call in an assistant message.
#[derive(Debug)]
pub struct ToolCall {
    pub function: ToolCallFunction,
}

/// A chat message: `system`, `user`, `assistant` or `tool`.
#[derive(Debug)]
pub struct ChatMessage {
    pub role: String,
    pub content: String,
    pub tool_calls: Option<Vec<ToolCall>>,
    /// The tool a `tool` message answers for.
    pub tool_name: Option<String>,
}

fn lit(s: &str) -> (r: String)
    ensures
        r@ == s@,
{
    s.to_owned()
}

impl ChatMessage {
    /// A system message.
    pub fn system(content: String) -> (r: ChatMessage)
        ensures
            r.role@ == "system"@,
            r.content == content,
            r.tool_calls is None,
            r.tool_name is None,
    {
        ChatMessage { role: lit("system"), content, tool_calls: None, tool_name: None }
    }

    /// A user message.
    pub fn user(content: String) -> (r: ChatMessage)
        ensures
            r.role@ == "user"@,
            r.content == content,
            r.tool_calls is None,
            r.tool_name is None,
    {
        ChatMessage { role: lit("user"), content, tool_calls: None, tool_name: None }
    }

    /// The result of a tool call, for the model.
    pub fn tool(name: &str, content: String) -> (r: ChatMessage)
        ensures
            r.role@ == "tool"@,
            r.content == content,
            r.tool_calls is None,
            r.tool_name matches Some(n) && n@ == name@,
    {
        ChatMessage { role: lit("tool"), content, tool_calls: None, tool_name: Some(lit(name)) }
    }
}

/// The text of `base` without trailing slashes (`trim_end_matches('/')`).
pub open spec fn trim_slashes(s: Seq<char>) -> Seq<char>
    decreases s.len(),
{
    if s.len() > 0 && s.last() == '/' {
        trim_slashes(s.drop_last())
    } else {
        s
    }
}

/// The URL of an API path on the model server: the base URL without trailing
/// slashes, then the path.
pub fn endpoint_url(base: &str, path: &str) -> (r: String)
    ensures
        r@ == trim_slashes(base@) + path@,
{
    let cs = chars_of(base);
    let mut n = cs.len();
    proof {
        assert(cs@.take(n as int) =~= cs@);
    }
    while n > 0 && cs[n - 1] == '/'
        invariant
            n <= cs@.len(),
            trim_slashes(cs@) == trim_slashes(cs@.take(n as int)),
        decreases n,
    {
        proof {
            assert(cs@.take(n as int).drop_last() =~= cs@.take(n - 1));
        }
        n = n - 1;
    }
    proof {
        assert(trim_slashes(cs@.take(n as int)) == cs@.take(n as int));
    }
    let head = string_of(crate::text::slice_vec(&cs, 0, n).as_slice());
    proof {
        assert(head@ =~= cs@.take(n as int));
    }
    concat(head.as_str(), path)
}

/// The names of a model list (`/api/tags` answer): the `name` of each entry of
/// `models` that has a string name, in order.
pub open spec fn names_of(items: Seq<Json>) -> Seq<Seq<char>>
    decreases items.len(),
{
    if items.len() == 0 {
        seq![]
    } else {
        let rest = names_of(items.drop_last());
        match items.last().get_spec("name"@) {
            Some(Json::Str(n)) => rest.push(n@),
            _ => rest,
        }
    }
}

/// The model names in a model-list answer (none when it has no `models` array).
pub open spec fn model_names_spec(v: Json) -> Seq<Seq<char>> {
    match v.get_spec("models"@) {
        Some(Json::Array(items)) => names_of(items@),
        _ => seq![],
    }
}

/// The model names the server reports.
pub fn model_names(v: &Json) -> (r: Vec<String>)
    ensures
        r@.map_values(|s: String| s@) == model_names_spec(*v),
{
    let mut out: Vec<String> = Vec::new();
    let items = match v.get("models") {
        Some(m) => match m.as_array() {
            Some(a) => a,
            None => {
                proof {
                    assert(out@.map_values(|s: String| s@) =~= seq![]);
                }
                return out;
            },
        },
        None => {
            proof {
                assert(out@.map_values(|s: String| s@) =~= seq![]);
            }
            return out;
        },
    };
    let mut i: usize = 0;
    proof {
        assert(items@.take(0) =~= seq![]);
        assert(out@.map_values(|s: String| s@) =~= seq![]);
    }
    while i < items.len()
        invariant
            i <= items@.len(),
            out@.map_values(|s: String| s@) == names_of(items@.take(i as int)),
        decreases items.len() - i,
    {
        proof {
            assert(items@.take(i + 1).drop_last() =~= items@.take(i as int));
            assert(items@.take(i + 1).last() == items@[i as int]);
        }
        match items[i].get("name") {
            Some(n) => match n.as_str() {
                Some(s) => {
                    let ghost before = out@;
                    out.push(lit(s.as_str()));
                    proof {
                        assert(out@.map_values(|s: String| s@) =~= before.map_values(|s: String| s@).push(s@));
                    }
                },
                None => {},
            },
            None => {},
        }
        i = i + 1;
    }
    proof {
        assert(items@.take(items@.len() as int) =~= items@);
    }
    out
}

// ------------------------------------------------------------------ server errors

/// The error when a chat request cannot reach the model server at `url`.
pub fn unreachable_error(url: &str, detail: &str) -> (r: CoreError)
    ensures
        r.spec() == ErrSpec::Ollama("cannot reach Ollama at "@ + url@ + ": "@ + detail@
            + ". Is Ollama running? (`ollama serve`)"@),
{
    let a = concat3("cannot reach Ollama at ", url, ": ");
    CoreError::Ollama(concat3(a.as_str(), detail, ". Is Ollama running? (`ollama serve`)"))
}

/// The error when the model server answers a chat request with a failure
/// status (`status` as the server's status line, `body` its answer).
pub fn status_error(status: &str, body: &str, model: &str) -> (r: CoreError)
    ensures
        r.spec() == ErrSpec::Ollama("Ollama returned "@ + status@ + ": "@ + body@
            + ". If the model isn't pulled yet: `ollama pull "@ + model@ + "`"@),
{
    let a = concat3("Ollama returned ", status, ": ");
    let b = concat3(a.as_str(), body, ". If the model isn't pulled yet: `ollama pull ");
    CoreError::Ollama(concat3(b.as_str(), model, "`"))
}

/// The error when the model server's chat answer cannot be read.
pub fn bad_response_error(detail: &str) -> (r: CoreError)
    ensures
        r.spec() == ErrSpec::Ollama("bad response from Ollama: "@ + detail@),
{
    CoreError::Ollama(concat("bad response from Ollama: ", detail))
}

/// The error when the model list cannot be fetched from `url`.
pub fn tags_unreachable_error(url: &str, detail: &str) -> (r: CoreError)
    ensures
        r.spec() == ErrSpec::Ollama("Ollama not reachable at "@ + url@ + ": "@ + detail@),
{
    let a = concat3("Ollama not reachable at ", url, ": ");
    CoreError::Ollama(concat(a.as_str(), detail))
}

} // verus!

//! Reading JSON replies: what a parsed JSON text holds in the places the app reads.
use vstd::prelude::*;

verus! {

/// What a JSON text holds where the app looks: the value written back as JSON text, the
/// JSON texts of its `error` and `result` members (when it is an object with them), and
/// the string at `choices[0].delta.content` of a streamed completion chunk.
#[derive(Debug)]
pub struct JsonReply {
    pub text: String,
    pub error: Option<String>,
    pub result: Option<String>,
    pub delta_content: Option<String>,
}

/// The abstract value of a reply.
pub open spec fn reply_view(r: JsonReply) -> (Seq<char>, Option<Seq<char>>, Option<Seq<char>>, Option<Seq<char>>) {
    (r.text@, opt_view(r.error), opt_view(r.result), opt_view(r.delta_content))
}

/// The view of an optional string.
pub open spec fn opt_view(o: Option<String>) -> Option<Seq<char>> {
    match o {
        Some(s) => Some(s@),
        None => None,
    }
}

/// The abstract value of a parse: the reply, or the parser's message.
pub open spec fn parse_view(r: Result<JsonReply, String>) -> Result<
    (Seq<char>, Option<Seq<char>>, Option<Seq<char>>, Option<Seq<char>>),
    Seq<char>,
> {
    match r {
        Ok(v) => Ok(reply_view(v)),
        Err(e) => Err(e@),
    }
}

/// What `serde_json::from_str::<serde_json::Value>` makes of `text`, read as `JsonReply`
/// says, or the parser's error message when the text is not JSON.
pub uninterp spec fn spec_json_reply(text: Seq<char>) -> Result<
    (Seq<char>, Option<Seq<char>>, Option<Seq<char>>, Option<Seq<char>>),
    Seq<char>,
>;

/// Calls `serde_json::from_str` for a `serde_json::Value` and converts the value to plain
/// strings: its JSON text (`to_string`), the JSON texts of its `error` and `result` members
/// (`get`), and the string at `choices[0].delta.content` (indexing, `as_str`); on a parse
/// error, the error's message. The outcome depends on the text alone and is named by
/// `spec_json_reply`.
#[verifier::external_body]
pub(crate) fn json_reply(text: &str) -> (r: Result<JsonReply, String>)
    ensures
        parse_view(r) == spec_json_reply(text@),
{
    match serde_json::from_str::<serde_json::Value>(text) {
        Ok(v) => Ok(JsonReply {
            text: v.to_string(),
            error: v.get("error").map(|e| e.to_string()),
            result: v.get("result").map(|e| e.to_string()),
            delta_content: v["choices"][0]["delta"]["content"].as_str().map(|s| s.to_string()),
        }),
        Err(e) => Err(e.to_string()),
    }
}

} // verus!
